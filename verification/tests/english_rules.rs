//! Behaviour of the English descriptor.

use deinflector::english;

fn english_texts(input: &str) -> Vec<String> {
    let t = english::transformer().unwrap();
    t.deinflect(input).into_iter().map(|c| c.text).collect()
}

#[test]
fn english_descriptor_builds() {
    assert!(english::transformer().is_ok());
}

#[test]
fn past_tense_ied() {
    assert!(english_texts("studied").contains(&"study".to_string()));
}

#[test]
fn past_tense_doubled_consonant() {
    assert!(english_texts("stopped").contains(&"stop".to_string()));
}

#[test]
fn plural() {
    assert!(english_texts("cats").contains(&"cat".to_string()));
}

#[test]
fn progressive() {
    assert!(english_texts("running").contains(&"run".to_string()));
}

#[test]
fn progressive_dropped_e() {
    assert!(english_texts("making").contains(&"make".to_string()));
}

#[test]
fn third_person_singular() {
    assert!(english_texts("goes").contains(&"go".to_string()));
}

#[test]
fn irregular_paid() {
    assert!(english_texts("paid").contains(&"pay".to_string()));
}

#[test]
fn comparative_and_superlative() {
    assert!(english_texts("bigger").contains(&"big".to_string()));
    assert!(english_texts("happiest").contains(&"happy".to_string()));
}

#[test]
fn adverb() {
    assert!(english_texts("quickly").contains(&"quick".to_string()));
}

#[test]
fn un_prefix() {
    assert!(english_texts("unhappy").contains(&"happy".to_string()));
}

#[test]
fn will_future_prefix() {
    assert!(english_texts("will study").contains(&"study".to_string()));
}

#[test]
fn negated_imperative_prefix() {
    assert!(english_texts("don't go").contains(&"go".to_string()));
}

#[test]
fn able_suffix() {
    assert!(english_texts("readable").contains(&"read".to_string()));
}

#[test]
fn phrasal_verb_suffix() {
    assert!(english_texts("looked up").contains(&"look up".to_string()));
}

#[test]
fn phrasal_verb_interposed_object() {
    assert!(english_texts("look it up").contains(&"look up".to_string()));
}

#[test]
fn no_rule_matches_returns_input_only() {
    let out = english_texts("q");
    assert_eq!(out, vec!["q".to_string()]);
}
