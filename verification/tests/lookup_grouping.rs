//! Behaviour of the lookup-result grouping.

use deinflector::lookup::{group_lookup_results, LookupEntry};

fn entry(hw: &str, rd: &str, dict: &str, content: &str) -> LookupEntry {
    LookupEntry {
        headword: hw.to_string(),
        reading: rd.to_string(),
        dictionary_name: dict.to_string(),
        tags: vec!["n".to_string()],
        content: content.to_string(),
    }
}

#[test]
fn groups_share_headword_and_reading() {
    let out = group_lookup_results(&vec![
        entry("食べる", "たべる", "JMdict", "to eat"),
        entry("食べる", "たべる", "Other", "eat"),
        entry("食べる", "くう", "JMdict", "slang"),
    ]);
    assert_eq!(out.len(), 2);
    assert_eq!(out[0].headword, "食べる");
    assert_eq!(out[0].reading, "たべる");
    assert_eq!(out[0].definitions.len(), 2);
    assert_eq!(out[1].reading, "くう");
    assert_eq!(out[1].definitions.len(), 1);
}

#[test]
fn duplicate_definitions_are_kept_once() {
    let out = group_lookup_results(&vec![
        entry("cat", "", "dict", "a feline"),
        entry("cat", "", "dict", "a feline"),
        entry("cat", "", "dict", "a jazz musician"),
    ]);
    assert_eq!(out.len(), 1);
    assert_eq!(out[0].definitions.len(), 2);
}

#[test]
fn empty_headwords_are_dropped() {
    let out = group_lookup_results(&vec![
        entry("", "よみ", "dict", "x"),
        entry("word", "", "dict", "y"),
    ]);
    assert_eq!(out.len(), 1);
    assert_eq!(out[0].headword, "word");
}

#[test]
fn groups_carry_forms_and_furigana() {
    let out = group_lookup_results(&vec![entry("食べる", "たべる", "dict", "to eat")]);
    assert_eq!(out[0].forms.len(), 1);
    assert_eq!(out[0].forms[0].headword, "食べる");
    assert_eq!(out[0].forms[0].reading, "たべる");
    assert_eq!(
        out[0].furigana,
        vec![("食".to_string(), "た".to_string()), ("べる".to_string(), "".to_string())]
    );
}
