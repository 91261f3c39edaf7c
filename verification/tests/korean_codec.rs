//! Behaviour of the Korean codec and the Korean deinflector.

use deinflector::korean;

#[test]
fn disassemble_simple_syllable() {
    assert_eq!(korean::disassemble("한"), "ㅎㅏㄴ");
}

#[test]
fn disassemble_compound_vowel() {
    assert_eq!(korean::disassemble("과"), "ㄱㅗㅏ");
}

#[test]
fn disassemble_compound_trailing_consonant() {
    assert_eq!(korean::disassemble("닭"), "ㄷㅏㄹㄱ");
}

#[test]
fn disassemble_passes_other_scripts_through() {
    assert_eq!(korean::disassemble("한a글!"), "ㅎㅏㄴaㄱㅡㄹ!");
}

#[test]
fn reassemble_simple() {
    assert_eq!(korean::reassemble_hangul("ㅎㅏㄴㄱㅡㄹ"), "한글");
}

#[test]
fn reassemble_lookahead_gives_consonant_to_next_block() {
    // Naive greedy scanning would fuse the ㄹ and ㄱ into one trailing
    // compound; the lookahead assigns ㄱ to the following block.
    assert_eq!(korean::reassemble_hangul("ㄱㅏㄹㄱㅏ"), "갈가");
}

#[test]
fn reassemble_compound_trailing_at_end() {
    assert_eq!(korean::reassemble_hangul("ㄷㅏㄹㄱ"), "닭");
}

#[test]
fn reassemble_consonant_before_vowel_starts_next_block() {
    assert_eq!(korean::reassemble_hangul("ㄱㅏㅇㅏ"), "가아");
}

#[test]
fn reassemble_lone_letters_pass_through() {
    assert_eq!(korean::reassemble_hangul("ㅏㄱ"), "ㅏㄱ");
}

#[test]
fn round_trip_syllables_and_other_scripts() {
    let cases = [
        "한글",
        "값",
        "닭과",
        "한글이다",
        "mixed 한글 text!",
        "빵힣꿳",
        "",
        "no hangul at all",
    ];
    for s in cases {
        assert_eq!(korean::reassemble_hangul(&korean::disassemble(s)), s);
    }
}

fn korean_table() -> &'static str {
    r#"{
        "conditions": [
            {"name": "v", "subConditions": []},
            {"name": "adj", "subConditions": []}
        ],
        "transforms": [
            {"id": "ida", "rules": [
                {"type": "suffix", "inflected": "ㅇㅣㄷㅏ", "deinflected": "",
                 "conditionsIn": [], "conditionsOut": ["v"]}
            ]},
            {"id": "past", "rules": [
                {"type": "suffix", "inflected": "ㅆㄷㅏ", "deinflected": "ㄷㅏ",
                 "conditionsIn": [], "conditionsOut": ["v"]}
            ]}
        ]
    }"#
}

#[test]
fn korean_transformer_builds_from_table() {
    assert!(korean::transformer(korean_table()).is_ok());
}

#[test]
fn korean_end_to_end() {
    let t = korean::transformer(korean_table()).unwrap();
    let out = korean::deinflect(&t, "한글이다");
    assert!(out.contains(&"한글이다".to_string()));
    assert!(out.contains(&"한글".to_string()));
    for s in &out {
        assert_eq!(korean::reassemble_hangul(&korean::disassemble(s)), *s);
    }
}

#[test]
fn korean_deinflect_deduplicates_by_text() {
    let t = korean::transformer(korean_table()).unwrap();
    let out = korean::deinflect(&t, "한글이다");
    for (i, a) in out.iter().enumerate() {
        for b in out.iter().skip(i + 1) {
            assert_ne!(a, b);
        }
    }
}

#[test]
fn korean_deinflect_of_empty_text() {
    let t = korean::transformer(korean_table()).unwrap();
    assert_eq!(korean::deinflect(&t, ""), vec!["".to_string()]);
}

#[test]
fn korean_identity_for_unmatched_text() {
    let t = korean::transformer(korean_table()).unwrap();
    let out = korean::deinflect(&t, "사람");
    assert_eq!(out, vec!["사람".to_string()]);
}
