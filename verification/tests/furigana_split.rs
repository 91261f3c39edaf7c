//! Behaviour of the ruby-text splitter.

use deinflector::furigana::calculate_furigana;

fn pair(a: &str, b: &str) -> (String, String) {
    (a.to_string(), b.to_string())
}

#[test]
fn empty_reading_is_one_bare_part() {
    assert_eq!(calculate_furigana("食べる", ""), vec![pair("食べる", "")]);
}

#[test]
fn equal_headword_and_reading_is_one_bare_part() {
    assert_eq!(calculate_furigana("たべる", "たべる"), vec![pair("たべる", "")]);
}

#[test]
fn common_suffix_is_split_off() {
    assert_eq!(
        calculate_furigana("食べる", "たべる"),
        vec![pair("食", "た"), pair("べる", "")]
    );
}

#[test]
fn common_prefix_is_split_off() {
    assert_eq!(
        calculate_furigana("引っ越す", "引っこす"),
        vec![pair("引っ", ""), pair("越", "こ"), pair("す", "")]
    );
}

#[test]
fn no_overlap_keeps_whole_reading_on_whole_headword() {
    assert_eq!(calculate_furigana("漢字", "かんじ"), vec![pair("漢字", "かんじ")]);
}

#[test]
fn prefix_and_suffix_both_split() {
    assert_eq!(
        calculate_furigana("お知らせ", "おしらせ"),
        vec![pair("お", ""), pair("知", "し"), pair("らせ", "")]
    );
}
