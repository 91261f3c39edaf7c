//! Loading a descriptor from a static JSON table. The table is an object
//! with a `conditions` array (`{"name": ..., "subConditions": [...]}` per
//! condition) and a `transforms` array (`{"id": ..., "rules": [...]}` per
//! group, each rule `{"type": "suffix"|"prefix", "inflected": ...,
//! "deinflected": ..., "conditionsIn": [...], "conditionsOut": [...]}`).
//! serde_json parses the text; the resolved descriptor is then validated
//! like any other, so a malformed table never reaches a lookup.

use vstd::prelude::*;

use crate::transformer::{
    ConditionDefinition, Descriptor, LanguageTransformer, RuleDefinition, RuleKind, str_equal,
    TransformDefinition, TransformError,
};

verus! {

/// Declares serde_json's value tree type; values of it are opaque here and
/// are only carried between the parsing and accessor calls below.
#[verifier::external_type_specification]
#[verifier::external_body]
pub struct ExValue(serde_json::Value);

/// Relies on `serde_json::from_str::<Value>`: parses JSON text into a
/// value tree; `None` when the text is not well-formed JSON.
#[verifier::external_body]
fn parse_json(s: &str) -> (r: Option<serde_json::Value>) {
    serde_json::from_str(s).ok()
}

/// Relies on `serde_json::Value::get`: the value at a key of a JSON
/// object; `None` when the value is no object or lacks the key.
#[verifier::external_body]
fn json_get<'a>(v: &'a serde_json::Value, key: &str) -> (r: Option<&'a serde_json::Value>) {
    v.get(key)
}

/// Relies on `serde_json::Value::as_str`: the text of a JSON string value;
/// `None` for any other kind of value.
#[verifier::external_body]
fn json_str(v: &serde_json::Value) -> (r: Option<String>) {
    v.as_str().map(|s| s.to_string())
}

/// Relies on `serde_json::Value::as_array`: the elements of a JSON array;
/// `None` for any other kind of value.
#[verifier::external_body]
fn json_array<'a>(v: &'a serde_json::Value) -> (r: Option<&'a Vec<serde_json::Value>>) {
    v.as_array()
}

/// Reads a JSON array of strings.
fn json_string_list(v: &serde_json::Value) -> (r: Option<Vec<String>>) {
    let arr = match json_array(v) {
        Some(a) => a,
        None => {
            return None;
        },
    };
    let mut out: Vec<String> = Vec::new();
    let mut i: usize = 0;
    while i < arr.len()
        decreases arr@.len() - i,
    {
        match json_str(&arr[i]) {
            Some(s) => out.push(s),
            None => {
                return None;
            },
        }
        i = i + 1;
    }
    Some(out)
}

/// Reads one condition entry: its name and its covered tags, if any.
fn parse_condition(v: &serde_json::Value) -> (r: Option<(String, ConditionDefinition)>) {
    let name = match json_get(v, "name") {
        Some(n) => match json_str(n) {
            Some(s) => s,
            None => {
                return None;
            },
        },
        None => {
            return None;
        },
    };
    let subs = match json_get(v, "subConditions") {
        Some(s) => match json_string_list(s) {
            Some(list) => Some(list),
            None => {
                return None;
            },
        },
        None => None,
    };
    Some((name, ConditionDefinition { sub_conditions: subs }))
}

/// Reads one rule entry.
fn parse_rule(v: &serde_json::Value) -> (r: Option<RuleDefinition>) {
    let ty = match json_get(v, "type") {
        Some(t) => match json_str(t) {
            Some(s) => s,
            None => {
                return None;
            },
        },
        None => {
            return None;
        },
    };
    let inflected = match json_get(v, "inflected") {
        Some(t) => match json_str(t) {
            Some(s) => s,
            None => {
                return None;
            },
        },
        None => {
            return None;
        },
    };
    let deinflected = match json_get(v, "deinflected") {
        Some(t) => match json_str(t) {
            Some(s) => s,
            None => {
                return None;
            },
        },
        None => {
            return None;
        },
    };
    let conditions_in = match json_get(v, "conditionsIn") {
        Some(t) => match json_string_list(t) {
            Some(list) => list,
            None => {
                return None;
            },
        },
        None => Vec::new(),
    };
    let conditions_out = match json_get(v, "conditionsOut") {
        Some(t) => match json_string_list(t) {
            Some(list) => list,
            None => {
                return None;
            },
        },
        None => Vec::new(),
    };
    let kind = if str_equal(&ty, &"suffix".to_owned()) {
        RuleKind::Suffix { inflected, deinflected }
    } else if str_equal(&ty, &"prefix".to_owned()) {
        RuleKind::Prefix { inflected, deinflected }
    } else {
        return None;
    };
    Some(RuleDefinition { kind, conditions_in, conditions_out })
}

/// Reads one transform group entry.
fn parse_group(v: &serde_json::Value) -> (r: Option<TransformDefinition>) {
    let id = match json_get(v, "id") {
        Some(t) => match json_str(t) {
            Some(s) => s,
            None => {
                return None;
            },
        },
        None => {
            return None;
        },
    };
    let rule_values = match json_get(v, "rules") {
        Some(t) => match json_array(t) {
            Some(a) => a,
            None => {
                return None;
            },
        },
        None => {
            return None;
        },
    };
    let mut rules: Vec<RuleDefinition> = Vec::new();
    let mut i: usize = 0;
    while i < rule_values.len()
        decreases rule_values@.len() - i,
    {
        match parse_rule(&rule_values[i]) {
            Some(rule) => rules.push(rule),
            None => {
                return None;
            },
        }
        i = i + 1;
    }
    Some(TransformDefinition { id, rules })
}

/// Reads a whole descriptor from a parsed table.
fn parse_descriptor(v: &serde_json::Value) -> (r: Option<Descriptor>) {
    let cond_values = match json_get(v, "conditions") {
        Some(t) => match json_array(t) {
            Some(a) => a,
            None => {
                return None;
            },
        },
        None => {
            return None;
        },
    };
    let mut conditions: Vec<(String, ConditionDefinition)> = Vec::new();
    let mut i: usize = 0;
    while i < cond_values.len()
        decreases cond_values@.len() - i,
    {
        match parse_condition(&cond_values[i]) {
            Some(c) => conditions.push(c),
            None => {
                return None;
            },
        }
        i = i + 1;
    }
    let group_values = match json_get(v, "transforms") {
        Some(t) => match json_array(t) {
            Some(a) => a,
            None => {
                return None;
            },
        },
        None => {
            return None;
        },
    };
    let mut transforms: Vec<TransformDefinition> = Vec::new();
    let mut g: usize = 0;
    while g < group_values.len()
        decreases group_values@.len() - g,
    {
        match parse_group(&group_values[g]) {
            Some(t) => transforms.push(t),
            None => {
                return None;
            },
        }
        g = g + 1;
    }
    Some(Descriptor { conditions, transforms })
}

impl LanguageTransformer {
    /// Loads and validates a descriptor from a static JSON table. A table
    /// that is not well-formed JSON, or does not resolve to the descriptor
    /// shape, is rejected as malformed; a resolved descriptor is then
    /// validated exactly as a programmatically built one.
    pub fn from_json(table: &str) -> (r: Result<LanguageTransformer, TransformError>)
        ensures
            r matches Ok(t) ==> crate::transformer::desc_wf(t@),
    {
        let value = match parse_json(table) {
            Some(v) => v,
            None => {
                return Err(TransformError::MalformedTable);
            },
        };
        let descriptor = match parse_descriptor(&value) {
            Some(d) => d,
            None => {
                return Err(TransformError::MalformedTable);
            },
        };
        LanguageTransformer::from_descriptor(descriptor)
    }
}

} // verus!
