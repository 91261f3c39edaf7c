//! Behaviour of the static-table loader shared by the data-driven
//! languages.

use deinflector::japanese;
use deinflector::spanish;
use deinflector::transformer::TransformError;

fn small_table() -> &'static str {
    r#"{
        "conditions": [{"name": "v"}],
        "transforms": [
            {"id": "polite", "rules": [
                {"type": "suffix", "inflected": "ます", "deinflected": "る",
                 "conditionsIn": [], "conditionsOut": ["v"]}
            ]}
        ]
    }"#
}

#[test]
fn japanese_transformer_builds_and_deinflects() {
    let t = japanese::transformer(small_table()).unwrap();
    let terms = t.deinflect_terms("たべます");
    assert!(terms.contains(&"たべる".to_string()));
}

#[test]
fn spanish_transformer_builds_and_deinflects() {
    let table = r#"{
        "conditions": [{"name": "v"}],
        "transforms": [
            {"id": "ar infinitive", "rules": [
                {"type": "suffix", "inflected": "o", "deinflected": "ar",
                 "conditionsIn": [], "conditionsOut": ["v"]}
            ]}
        ]
    }"#;
    let t = spanish::transformer(table).unwrap();
    let terms = t.deinflect_terms("hablo");
    assert!(terms.contains(&"hablar".to_string()));
}

#[test]
fn malformed_json_is_rejected() {
    assert_eq!(
        japanese::transformer("{ not json").err(),
        Some(TransformError::MalformedTable)
    );
}

#[test]
fn wrong_shape_is_rejected() {
    assert_eq!(
        japanese::transformer(r#"{"conditions": 5, "transforms": []}"#).err(),
        Some(TransformError::MalformedTable)
    );
    assert_eq!(
        japanese::transformer(r#"{"transforms": []}"#).err(),
        Some(TransformError::MalformedTable)
    );
    assert_eq!(
        japanese::transformer(r#"[1, 2, 3]"#).err(),
        Some(TransformError::MalformedTable)
    );
}

#[test]
fn unknown_rule_type_is_rejected() {
    let table = r#"{
        "conditions": [{"name": "v"}],
        "transforms": [
            {"id": "odd", "rules": [
                {"type": "infix", "inflected": "a", "deinflected": "b"}
            ]}
        ]
    }"#;
    assert_eq!(japanese::transformer(table).err(), Some(TransformError::MalformedTable));
}

#[test]
fn table_with_undefined_tag_is_rejected() {
    let table = r#"{
        "conditions": [{"name": "v"}],
        "transforms": [
            {"id": "bad", "rules": [
                {"type": "suffix", "inflected": "a", "deinflected": "b",
                 "conditionsIn": ["nope"], "conditionsOut": []}
            ]}
        ]
    }"#;
    assert_eq!(japanese::transformer(table).err(), Some(TransformError::UndefinedTag));
}

#[test]
fn table_with_duplicate_condition_is_rejected() {
    let table = r#"{
        "conditions": [{"name": "v"}, {"name": "v"}],
        "transforms": []
    }"#;
    assert_eq!(japanese::transformer(table).err(), Some(TransformError::DuplicateCondition));
}

#[test]
fn table_with_empty_inflected_is_rejected() {
    let table = r#"{
        "conditions": [{"name": "v"}],
        "transforms": [
            {"id": "bad", "rules": [
                {"type": "suffix", "inflected": "", "deinflected": "b",
                 "conditionsIn": [], "conditionsOut": []}
            ]}
        ]
    }"#;
    assert_eq!(japanese::transformer(table).err(), Some(TransformError::EmptyInflected));
}

#[test]
fn missing_condition_lists_default_to_empty() {
    let table = r#"{
        "conditions": [{"name": "v"}],
        "transforms": [
            {"id": "free", "rules": [
                {"type": "suffix", "inflected": "x", "deinflected": "y"}
            ]}
        ]
    }"#;
    let t = japanese::transformer(table).unwrap();
    let terms = t.deinflect_terms("ax");
    assert!(terms.contains(&"ay".to_string()));
}
