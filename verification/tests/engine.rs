//! Behaviour of the generic deinflection search on hand-built descriptors.

use deinflector::transformer::{
    ConditionDefinition, Descriptor, LanguageTransformer, RuleDefinition, RuleKind,
    TransformDefinition, TransformError,
};

fn suffix(inflected: &str, deinflected: &str, cin: &[&str], cout: &[&str]) -> RuleDefinition {
    RuleDefinition {
        kind: RuleKind::Suffix {
            inflected: inflected.to_string(),
            deinflected: deinflected.to_string(),
        },
        conditions_in: cin.iter().map(|s| s.to_string()).collect(),
        conditions_out: cout.iter().map(|s| s.to_string()).collect(),
    }
}

fn group(id: &str, rules: Vec<RuleDefinition>) -> TransformDefinition {
    TransformDefinition { id: id.to_string(), rules }
}

fn condition(name: &str, subs: Option<&[&str]>) -> (String, ConditionDefinition) {
    (
        name.to_string(),
        ConditionDefinition {
            sub_conditions: subs.map(|xs| xs.iter().map(|s| s.to_string()).collect()),
        },
    )
}

fn build(conditions: Vec<(String, ConditionDefinition)>, transforms: Vec<TransformDefinition>) -> LanguageTransformer {
    LanguageTransformer::from_descriptor(Descriptor { conditions, transforms }).unwrap()
}

fn texts(t: &LanguageTransformer, input: &str) -> Vec<String> {
    t.deinflect(input).into_iter().map(|c| c.text).collect()
}

#[test]
fn identity_is_always_first() {
    let t = build(vec![], vec![]);
    let cands = t.deinflect("word");
    assert_eq!(cands.len(), 1);
    assert_eq!(cands[0].text, "word");
    assert!(cands[0].conditions.is_empty());
    assert!(cands[0].trace.is_empty());
}

#[test]
fn no_match_returns_only_input() {
    let t = build(
        vec![condition("v", None)],
        vec![group("past", vec![suffix("ed", "", &["v"], &["v"])])],
    );
    let cands = t.deinflect("go");
    assert_eq!(cands.len(), 1);
    assert_eq!(cands[0].text, "go");
}

#[test]
fn single_suffix_step() {
    let t = build(
        vec![condition("v", None)],
        vec![group("past", vec![suffix("ed", "", &["v"], &["v"])])],
    );
    let cands = t.deinflect("walked");
    assert_eq!(cands.len(), 2);
    assert_eq!(cands[0].text, "walked");
    assert_eq!(cands[1].text, "walk");
    assert_eq!(cands[1].conditions, vec!["v".to_string()]);
    assert_eq!(cands[1].trace, vec!["past".to_string()]);
}

#[test]
fn chained_steps_accumulate_trace() {
    let t = build(
        vec![condition("v", None)],
        vec![
            group("plural", vec![suffix("s", "", &[], &["v"])]),
            group("past", vec![suffix("ed", "", &["v"], &["v"])]),
        ],
    );
    let cands = t.deinflect("walkeds");
    let walked: Vec<_> = cands.iter().filter(|c| c.text == "walk").collect();
    assert_eq!(walked.len(), 1);
    assert_eq!(walked[0].trace, vec!["plural".to_string(), "past".to_string()]);
}

#[test]
fn cycle_terminates_with_each_form_once() {
    let t = build(
        vec![],
        vec![
            group("fwd", vec![suffix("a", "b", &[], &[])]),
            group("back", vec![suffix("b", "a", &[], &[])]),
        ],
    );
    let out = texts(&t, "a");
    assert_eq!(out, vec!["a".to_string(), "b".to_string()]);
    assert_eq!(out.iter().filter(|x| *x == "a").count(), 1);
    assert_eq!(out.iter().filter(|x| *x == "b").count(), 1);
}

#[test]
fn equal_length_affix_pair_terminates() {
    let t = build(
        vec![],
        vec![
            group("dropped g", vec![suffix("in'", "ing", &[], &[]), suffix("ing", "in'", &[], &[])]),
        ],
    );
    let out = texts(&t, "goin'");
    assert!(out.contains(&"going".to_string()));
    assert_eq!(out.iter().filter(|x| *x == "goin'").count(), 1);
    assert_eq!(out.iter().filter(|x| *x == "going").count(), 1);
}

#[test]
fn gated_rule_does_not_fire_without_coverage() {
    // The rule that rewrites "a" to "z" requires tag "x"; the only path to
    // "a" assigns tag "y", which does not cover "x", so "z" never appears.
    let t = build(
        vec![condition("x", None), condition("y", None)],
        vec![
            group("strip b", vec![suffix("b", "", &[], &["y"])]),
            group("gated", vec![suffix("a", "z", &["x"], &["x"])]),
        ],
    );
    let out = texts(&t, "ab");
    assert!(out.contains(&"ab".to_string()));
    assert!(out.contains(&"a".to_string()));
    assert!(!out.iter().any(|x| x.contains('z')));
}

#[test]
fn gated_rule_fires_through_coverage() {
    // Tag "v" covers "v_phr": a candidate tagged "v" satisfies a rule that
    // requires "v_phr".
    let t = build(
        vec![condition("v", Some(&["v_phr"])), condition("v_phr", None)],
        vec![
            group("strip c", vec![suffix("c", "", &[], &["v"])]),
            group("narrow", vec![suffix("b", "", &["v_phr"], &["v_phr"])]),
        ],
    );
    let out = texts(&t, "abc");
    assert!(out.contains(&"ab".to_string()));
    assert!(out.contains(&"a".to_string()));
}

#[test]
fn unconstrained_input_is_eligible_for_gated_rules() {
    let t = build(
        vec![condition("v", None)],
        vec![group("past", vec![suffix("ed", "", &["v"], &["v"])])],
    );
    let out = texts(&t, "walked");
    assert!(out.contains(&"walk".to_string()));
}

#[test]
fn affix_rule_never_empties_text() {
    let t = build(
        vec![],
        vec![group("strip", vec![suffix("ab", "", &[], &[])])],
    );
    let out = texts(&t, "ab");
    assert_eq!(out, vec!["ab".to_string()]);
}

#[test]
fn prefix_rule_strips_start() {
    let t = build(
        vec![condition("v", None)],
        vec![group("will future", vec![RuleDefinition {
            kind: RuleKind::Prefix { inflected: "will ".to_string(), deinflected: "".to_string() },
            conditions_in: vec!["v".to_string()],
            conditions_out: vec!["v".to_string()],
        }])],
    );
    let out = texts(&t, "will study");
    assert!(out.contains(&"study".to_string()));
}

#[test]
fn deinflect_terms_lists_texts_in_discovery_order() {
    let t = build(
        vec![condition("v", None)],
        vec![group("past", vec![suffix("ed", "", &["v"], &["v"])])],
    );
    let terms = t.deinflect_terms("walked");
    assert_eq!(terms, vec!["walked".to_string(), "walk".to_string()]);
}

#[test]
fn deinflect_is_deterministic_across_calls() {
    let t = build(
        vec![condition("v", None)],
        vec![
            group("past", vec![suffix("ed", "", &["v"], &["v"])]),
            group("plural", vec![suffix("s", "", &[], &["v"])]),
        ],
    );
    let first: Vec<(String, Vec<String>, Vec<String>)> = t
        .deinflect("walkeds")
        .into_iter()
        .map(|c| (c.text, c.conditions, c.trace))
        .collect();
    let second: Vec<(String, Vec<String>, Vec<String>)> = t
        .deinflect("walkeds")
        .into_iter()
        .map(|c| (c.text, c.conditions, c.trace))
        .collect();
    assert_eq!(first, second);
}

#[test]
fn empty_text_yields_only_the_identity() {
    let t = build(
        vec![condition("v", None)],
        vec![group("past", vec![suffix("ed", "", &["v"], &["v"])])],
    );
    let cands = t.deinflect("");
    assert_eq!(cands.len(), 1);
    assert_eq!(cands[0].text, "");
}

#[test]
fn duplicate_condition_name_is_rejected() {
    let r = LanguageTransformer::from_descriptor(Descriptor {
        conditions: vec![condition("v", None), condition("v", None)],
        transforms: vec![],
    });
    assert_eq!(r.err(), Some(TransformError::DuplicateCondition));
}

#[test]
fn undefined_tag_is_rejected() {
    let r = LanguageTransformer::from_descriptor(Descriptor {
        conditions: vec![condition("v", None)],
        transforms: vec![group("past", vec![suffix("ed", "", &["ghost_tag"], &["v"])])],
    });
    assert_eq!(r.err(), Some(TransformError::UndefinedTag));
}

#[test]
fn undefined_sub_condition_is_rejected() {
    let r = LanguageTransformer::from_descriptor(Descriptor {
        conditions: vec![condition("v", Some(&["missing"]))],
        transforms: vec![],
    });
    assert_eq!(r.err(), Some(TransformError::UndefinedTag));
}

#[test]
fn empty_inflected_part_is_rejected() {
    let r = LanguageTransformer::from_descriptor(Descriptor {
        conditions: vec![condition("v", None)],
        transforms: vec![group("bad", vec![suffix("", "x", &["v"], &["v"])])],
    });
    assert_eq!(r.err(), Some(TransformError::EmptyInflected));
}
