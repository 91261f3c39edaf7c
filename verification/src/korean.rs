//! The Korean phonological codec and the Korean deinflector: precomposed
//! syllable blocks are decomposed into letters (jamo) before the generic
//! search, and candidate texts are recomposed afterwards. Unrecognized
//! characters pass through unchanged in both directions.

use vstd::prelude::*;

use crate::text::{chars_of, push_char, string_of};
use crate::transformer::{
    engine_post, CandModel, DescModel, LanguageTransformer, TransformError,
};

verus! {

// ---------------------------------------------------------------------------
// Letter tables
// ---------------------------------------------------------------------------

/// The leading consonant (choseong) of a block index; 19 letters.
pub open spec fn cho_char(i: int) -> char {
    if i == 0 { 'ㄱ' } else if i == 1 { 'ㄲ' } else if i == 2 { 'ㄴ' } else if i == 3 { 'ㄷ' }
    else if i == 4 { 'ㄸ' } else if i == 5 { 'ㄹ' } else if i == 6 { 'ㅁ' } else if i == 7 { 'ㅂ' }
    else if i == 8 { 'ㅃ' } else if i == 9 { 'ㅅ' } else if i == 10 { 'ㅆ' } else if i == 11 { 'ㅇ' }
    else if i == 12 { 'ㅈ' } else if i == 13 { 'ㅉ' } else if i == 14 { 'ㅊ' } else if i == 15 { 'ㅋ' }
    else if i == 16 { 'ㅌ' } else if i == 17 { 'ㅍ' } else { 'ㅎ' }
}

/// The index of a leading-consonant letter; `-1` when it is none.
pub open spec fn cho_idx(c: char) -> int {
    if c == 'ㄱ' { 0 } else if c == 'ㄲ' { 1 } else if c == 'ㄴ' { 2 } else if c == 'ㄷ' { 3 }
    else if c == 'ㄸ' { 4 } else if c == 'ㄹ' { 5 } else if c == 'ㅁ' { 6 } else if c == 'ㅂ' { 7 }
    else if c == 'ㅃ' { 8 } else if c == 'ㅅ' { 9 } else if c == 'ㅆ' { 10 } else if c == 'ㅇ' { 11 }
    else if c == 'ㅈ' { 12 } else if c == 'ㅉ' { 13 } else if c == 'ㅊ' { 14 } else if c == 'ㅋ' { 15 }
    else if c == 'ㅌ' { 16 } else if c == 'ㅍ' { 17 } else if c == 'ㅎ' { 18 } else { -1 }
}

/// The vowel (jungseong) of a block index; 21 letters.
pub open spec fn jung_char(i: int) -> char {
    if i == 0 { 'ㅏ' } else if i == 1 { 'ㅐ' } else if i == 2 { 'ㅑ' } else if i == 3 { 'ㅒ' }
    else if i == 4 { 'ㅓ' } else if i == 5 { 'ㅔ' } else if i == 6 { 'ㅕ' } else if i == 7 { 'ㅖ' }
    else if i == 8 { 'ㅗ' } else if i == 9 { 'ㅘ' } else if i == 10 { 'ㅙ' } else if i == 11 { 'ㅚ' }
    else if i == 12 { 'ㅛ' } else if i == 13 { 'ㅜ' } else if i == 14 { 'ㅝ' } else if i == 15 { 'ㅞ' }
    else if i == 16 { 'ㅟ' } else if i == 17 { 'ㅠ' } else if i == 18 { 'ㅡ' } else if i == 19 { 'ㅢ' }
    else { 'ㅣ' }
}

/// The index of a vowel letter; `-1` when it is none.
pub open spec fn jung_idx(c: char) -> int {
    if c == 'ㅏ' { 0 } else if c == 'ㅐ' { 1 } else if c == 'ㅑ' { 2 } else if c == 'ㅒ' { 3 }
    else if c == 'ㅓ' { 4 } else if c == 'ㅔ' { 5 } else if c == 'ㅕ' { 6 } else if c == 'ㅖ' { 7 }
    else if c == 'ㅗ' { 8 } else if c == 'ㅘ' { 9 } else if c == 'ㅙ' { 10 } else if c == 'ㅚ' { 11 }
    else if c == 'ㅛ' { 12 } else if c == 'ㅜ' { 13 } else if c == 'ㅝ' { 14 } else if c == 'ㅞ' { 15 }
    else if c == 'ㅟ' { 16 } else if c == 'ㅠ' { 17 } else if c == 'ㅡ' { 18 } else if c == 'ㅢ' { 19 }
    else if c == 'ㅣ' { 20 } else { -1 }
}

/// The trailing consonant (jongseong) of a block index, for indices 1..=27.
pub open spec fn jong_char(i: int) -> char {
    if i == 1 { 'ㄱ' } else if i == 2 { 'ㄲ' } else if i == 3 { 'ㄳ' } else if i == 4 { 'ㄴ' }
    else if i == 5 { 'ㄵ' } else if i == 6 { 'ㄶ' } else if i == 7 { 'ㄷ' } else if i == 8 { 'ㄹ' }
    else if i == 9 { 'ㄺ' } else if i == 10 { 'ㄻ' } else if i == 11 { 'ㄼ' } else if i == 12 { 'ㄽ' }
    else if i == 13 { 'ㄾ' } else if i == 14 { 'ㄿ' } else if i == 15 { 'ㅀ' } else if i == 16 { 'ㅁ' }
    else if i == 17 { 'ㅂ' } else if i == 18 { 'ㅄ' } else if i == 19 { 'ㅅ' } else if i == 20 { 'ㅆ' }
    else if i == 21 { 'ㅇ' } else if i == 22 { 'ㅈ' } else if i == 23 { 'ㅊ' } else if i == 24 { 'ㅋ' }
    else if i == 25 { 'ㅌ' } else if i == 26 { 'ㅍ' } else { 'ㅎ' }
}

/// The block index of a trailing-consonant letter; `0` when it is none.
pub open spec fn jong_idx(c: char) -> int {
    if c == 'ㄱ' { 1 } else if c == 'ㄲ' { 2 } else if c == 'ㄳ' { 3 } else if c == 'ㄴ' { 4 }
    else if c == 'ㄵ' { 5 } else if c == 'ㄶ' { 6 } else if c == 'ㄷ' { 7 } else if c == 'ㄹ' { 8 }
    else if c == 'ㄺ' { 9 } else if c == 'ㄻ' { 10 } else if c == 'ㄼ' { 11 } else if c == 'ㄽ' { 12 }
    else if c == 'ㄾ' { 13 } else if c == 'ㄿ' { 14 } else if c == 'ㅀ' { 15 } else if c == 'ㅁ' { 16 }
    else if c == 'ㅂ' { 17 } else if c == 'ㅄ' { 18 } else if c == 'ㅅ' { 19 } else if c == 'ㅆ' { 20 }
    else if c == 'ㅇ' { 21 } else if c == 'ㅈ' { 22 } else if c == 'ㅊ' { 23 } else if c == 'ㅋ' { 24 }
    else if c == 'ㅌ' { 25 } else if c == 'ㅍ' { 26 } else if c == 'ㅎ' { 27 } else { 0 }
}

/// Whether `c` is a leading-consonant letter.
pub open spec fn is_cho_c(c: char) -> bool {
    cho_idx(c) >= 0
}

/// Whether `c` is a vowel letter.
pub open spec fn is_jung_c(c: char) -> bool {
    jung_idx(c) >= 0
}

/// Whether `c` is a trailing-consonant letter.
pub open spec fn is_jong_c(c: char) -> bool {
    jong_idx(c) >= 1
}

/// The simple letters of a compound vowel; a simple vowel stands alone.
pub open spec fn jung_decomp(c: char) -> Seq<char> {
    if c == 'ㅘ' { seq!['ㅗ', 'ㅏ'] } else if c == 'ㅙ' { seq!['ㅗ', 'ㅐ'] }
    else if c == 'ㅚ' { seq!['ㅗ', 'ㅣ'] } else if c == 'ㅝ' { seq!['ㅜ', 'ㅓ'] }
    else if c == 'ㅞ' { seq!['ㅜ', 'ㅔ'] } else if c == 'ㅟ' { seq!['ㅜ', 'ㅣ'] }
    else if c == 'ㅢ' { seq!['ㅡ', 'ㅣ'] } else { seq![c] }
}

/// The simple letters of a compound trailing consonant.
pub open spec fn jong_decomp(c: char) -> Seq<char> {
    if c == 'ㄳ' { seq!['ㄱ', 'ㅅ'] } else if c == 'ㄵ' { seq!['ㄴ', 'ㅈ'] }
    else if c == 'ㄶ' { seq!['ㄴ', 'ㅎ'] } else if c == 'ㄺ' { seq!['ㄹ', 'ㄱ'] }
    else if c == 'ㄻ' { seq!['ㄹ', 'ㅁ'] } else if c == 'ㄼ' { seq!['ㄹ', 'ㅂ'] }
    else if c == 'ㄽ' { seq!['ㄹ', 'ㅅ'] } else if c == 'ㄾ' { seq!['ㄹ', 'ㅌ'] }
    else if c == 'ㄿ' { seq!['ㄹ', 'ㅍ'] } else if c == 'ㅀ' { seq!['ㄹ', 'ㅎ'] }
    else if c == 'ㅄ' { seq!['ㅂ', 'ㅅ'] } else { seq![c] }
}

/// The compound vowel formed by two simple vowels, if any.
pub open spec fn jung_combine(a: char, b: char) -> Option<char> {
    if a == 'ㅗ' && b == 'ㅏ' { Some('ㅘ') } else if a == 'ㅗ' && b == 'ㅐ' { Some('ㅙ') }
    else if a == 'ㅗ' && b == 'ㅣ' { Some('ㅚ') } else if a == 'ㅜ' && b == 'ㅓ' { Some('ㅝ') }
    else if a == 'ㅜ' && b == 'ㅔ' { Some('ㅞ') } else if a == 'ㅜ' && b == 'ㅣ' { Some('ㅟ') }
    else if a == 'ㅡ' && b == 'ㅣ' { Some('ㅢ') } else { None }
}

/// The compound trailing consonant formed by two simple letters, if any.
pub open spec fn jong_combine(a: char, b: char) -> Option<char> {
    if a == 'ㄱ' && b == 'ㅅ' { Some('ㄳ') } else if a == 'ㄴ' && b == 'ㅈ' { Some('ㄵ') }
    else if a == 'ㄴ' && b == 'ㅎ' { Some('ㄶ') } else if a == 'ㄹ' && b == 'ㄱ' { Some('ㄺ') }
    else if a == 'ㄹ' && b == 'ㅁ' { Some('ㄻ') } else if a == 'ㄹ' && b == 'ㅂ' { Some('ㄼ') }
    else if a == 'ㄹ' && b == 'ㅅ' { Some('ㄽ') } else if a == 'ㄹ' && b == 'ㅌ' { Some('ㄾ') }
    else if a == 'ㄹ' && b == 'ㅍ' { Some('ㄿ') } else if a == 'ㄹ' && b == 'ㅎ' { Some('ㅀ') }
    else if a == 'ㅂ' && b == 'ㅅ' { Some('ㅄ') } else { None }
}

// ---------------------------------------------------------------------------
// Disassembly
// ---------------------------------------------------------------------------

/// Whether `c` is a precomposed Hangul syllable block.
pub open spec fn is_syllable(c: char) -> bool {
    0xAC00 <= (c as u32) && (c as u32) <= 0xD7A3
}

/// The letters of one character: a syllable block becomes its leading
/// consonant, its (decomposed) vowel, and its (decomposed) trailing
/// consonant, if any; any other character stands alone.
pub open spec fn encode_char(c: char) -> Seq<char> {
    if is_syllable(c) {
        let n = c as u32 - 0xAC00;
        let cho = n / 28 / 21;
        let jung = (n / 28) % 21;
        let jong = n % 28;
        seq![cho_char(cho)] + jung_decomp(jung_char(jung)) + (if jong > 0 {
            jong_decomp(jong_char(jong))
        } else {
            Seq::empty()
        })
    } else {
        seq![c]
    }
}

/// The letters of a whole text.
pub open spec fn spec_disassemble(s: Seq<char>) -> Seq<char>
    decreases s.len(),
{
    if s.len() == 0 {
        Seq::empty()
    } else {
        encode_char(s[0]) + spec_disassemble(s.skip(1))
    }
}

proof fn lemma_disassemble_push(s: Seq<char>, c: char)
    ensures
        spec_disassemble(s.push(c)) == spec_disassemble(s) + encode_char(c),
    decreases s.len(),
{
    if s.len() == 0 {
        assert(s.push(c)[0] == c);
        assert(s.push(c).skip(1) =~= Seq::<char>::empty());
        assert(spec_disassemble(Seq::<char>::empty()) == Seq::<char>::empty());
        assert(spec_disassemble(s) == Seq::<char>::empty());
        assert(spec_disassemble(s.push(c)) == encode_char(c) + spec_disassemble(
            s.push(c).skip(1),
        ));
        assert(spec_disassemble(s.push(c)) =~= spec_disassemble(s) + encode_char(c));
    } else {
        assert(s.push(c).skip(1) =~= s.skip(1).push(c));
        lemma_disassemble_push(s.skip(1), c);
        assert(s.push(c)[0] == s[0]);
        assert(spec_disassemble(s.push(c)) == encode_char(s[0]) + spec_disassemble(
            s.skip(1).push(c),
        ));
        assert((encode_char(s[0]) + (spec_disassemble(s.skip(1)) + encode_char(c))) =~= (
        spec_disassemble(s) + encode_char(c)));
    }
}

/// The index of a leading-consonant letter, or `-1`.
fn cho_idx_exec(c: char) -> (r: i32)
    ensures
        r as int == cho_idx(c),
{
    if c == 'ㄱ' { 0 } else if c == 'ㄲ' { 1 } else if c == 'ㄴ' { 2 } else if c == 'ㄷ' { 3 }
    else if c == 'ㄸ' { 4 } else if c == 'ㄹ' { 5 } else if c == 'ㅁ' { 6 } else if c == 'ㅂ' { 7 }
    else if c == 'ㅃ' { 8 } else if c == 'ㅅ' { 9 } else if c == 'ㅆ' { 10 } else if c == 'ㅇ' { 11 }
    else if c == 'ㅈ' { 12 } else if c == 'ㅉ' { 13 } else if c == 'ㅊ' { 14 } else if c == 'ㅋ' { 15 }
    else if c == 'ㅌ' { 16 } else if c == 'ㅍ' { 17 } else if c == 'ㅎ' { 18 } else { -1 }
}

/// The index of a vowel letter, or `-1`.
fn jung_idx_exec(c: char) -> (r: i32)
    ensures
        r as int == jung_idx(c),
{
    if c == 'ㅏ' { 0 } else if c == 'ㅐ' { 1 } else if c == 'ㅑ' { 2 } else if c == 'ㅒ' { 3 }
    else if c == 'ㅓ' { 4 } else if c == 'ㅔ' { 5 } else if c == 'ㅕ' { 6 } else if c == 'ㅖ' { 7 }
    else if c == 'ㅗ' { 8 } else if c == 'ㅘ' { 9 } else if c == 'ㅙ' { 10 } else if c == 'ㅚ' { 11 }
    else if c == 'ㅛ' { 12 } else if c == 'ㅜ' { 13 } else if c == 'ㅝ' { 14 } else if c == 'ㅞ' { 15 }
    else if c == 'ㅟ' { 16 } else if c == 'ㅠ' { 17 } else if c == 'ㅡ' { 18 } else if c == 'ㅢ' { 19 }
    else if c == 'ㅣ' { 20 } else { -1 }
}

/// The block index of a trailing-consonant letter, or `0`.
fn jong_idx_exec(c: char) -> (r: i32)
    ensures
        r as int == jong_idx(c),
{
    if c == 'ㄱ' { 1 } else if c == 'ㄲ' { 2 } else if c == 'ㄳ' { 3 } else if c == 'ㄴ' { 4 }
    else if c == 'ㄵ' { 5 } else if c == 'ㄶ' { 6 } else if c == 'ㄷ' { 7 } else if c == 'ㄹ' { 8 }
    else if c == 'ㄺ' { 9 } else if c == 'ㄻ' { 10 } else if c == 'ㄼ' { 11 } else if c == 'ㄽ' { 12 }
    else if c == 'ㄾ' { 13 } else if c == 'ㄿ' { 14 } else if c == 'ㅀ' { 15 } else if c == 'ㅁ' { 16 }
    else if c == 'ㅂ' { 17 } else if c == 'ㅄ' { 18 } else if c == 'ㅅ' { 19 } else if c == 'ㅆ' { 20 }
    else if c == 'ㅇ' { 21 } else if c == 'ㅈ' { 22 } else if c == 'ㅊ' { 23 } else if c == 'ㅋ' { 24 }
    else if c == 'ㅌ' { 25 } else if c == 'ㅍ' { 26 } else if c == 'ㅎ' { 27 } else { 0 }
}

/// Whether `c` is a leading-consonant letter.
fn is_cho(c: char) -> (r: bool)
    ensures
        r == is_cho_c(c),
{
    cho_idx_exec(c) >= 0
}

/// Whether `c` is a vowel letter.
fn is_jung(c: char) -> (r: bool)
    ensures
        r == is_jung_c(c),
{
    jung_idx_exec(c) >= 0
}

/// Whether `c` is a trailing-consonant letter.
fn is_jong(c: char) -> (r: bool)
    ensures
        r == is_jong_c(c),
{
    jong_idx_exec(c) >= 1
}

/// The index of a leading-consonant letter; `0` for any other character.
fn get_cho_idx(c: char) -> (r: u32)
    ensures
        is_cho_c(c) ==> r as int == cho_idx(c),
        !is_cho_c(c) ==> r == 0,
        r < 19,
{
    let i = cho_idx_exec(c);
    if i >= 0 {
        i as u32
    } else {
        0
    }
}

/// The index of a vowel letter; `0` for any other character.
fn get_jung_idx(c: char) -> (r: u32)
    ensures
        is_jung_c(c) ==> r as int == jung_idx(c),
        !is_jung_c(c) ==> r == 0,
        r < 21,
{
    let i = jung_idx_exec(c);
    if i >= 0 {
        i as u32
    } else {
        0
    }
}

/// The block index of a trailing-consonant letter; `0` for any other
/// character.
fn get_jong_idx(c: char) -> (r: u32)
    ensures
        r as int == jong_idx(c),
        r < 28,
{
    let i = jong_idx_exec(c);
    if i >= 1 {
        i as u32
    } else {
        0
    }
}

/// The leading consonant of a block index.
fn cho_char_exec(i: u32) -> (r: char)
    requires
        i < 19,
    ensures
        r == cho_char(i as int),
{
    if i == 0 { 'ㄱ' } else if i == 1 { 'ㄲ' } else if i == 2 { 'ㄴ' } else if i == 3 { 'ㄷ' }
    else if i == 4 { 'ㄸ' } else if i == 5 { 'ㄹ' } else if i == 6 { 'ㅁ' } else if i == 7 { 'ㅂ' }
    else if i == 8 { 'ㅃ' } else if i == 9 { 'ㅅ' } else if i == 10 { 'ㅆ' } else if i == 11 { 'ㅇ' }
    else if i == 12 { 'ㅈ' } else if i == 13 { 'ㅉ' } else if i == 14 { 'ㅊ' } else if i == 15 { 'ㅋ' }
    else if i == 16 { 'ㅌ' } else if i == 17 { 'ㅍ' } else { 'ㅎ' }
}

/// The vowel of a block index.
fn jung_char_exec(i: u32) -> (r: char)
    requires
        i < 21,
    ensures
        r == jung_char(i as int),
{
    if i == 0 { 'ㅏ' } else if i == 1 { 'ㅐ' } else if i == 2 { 'ㅑ' } else if i == 3 { 'ㅒ' }
    else if i == 4 { 'ㅓ' } else if i == 5 { 'ㅔ' } else if i == 6 { 'ㅕ' } else if i == 7 { 'ㅖ' }
    else if i == 8 { 'ㅗ' } else if i == 9 { 'ㅘ' } else if i == 10 { 'ㅙ' } else if i == 11 { 'ㅚ' }
    else if i == 12 { 'ㅛ' } else if i == 13 { 'ㅜ' } else if i == 14 { 'ㅝ' } else if i == 15 { 'ㅞ' }
    else if i == 16 { 'ㅟ' } else if i == 17 { 'ㅠ' } else if i == 18 { 'ㅡ' } else if i == 19 { 'ㅢ' }
    else { 'ㅣ' }
}

/// The trailing consonant of a block index.
fn jong_char_exec(i: u32) -> (r: char)
    requires
        1 <= i < 28,
    ensures
        r == jong_char(i as int),
{
    if i == 1 { 'ㄱ' } else if i == 2 { 'ㄲ' } else if i == 3 { 'ㄳ' } else if i == 4 { 'ㄴ' }
    else if i == 5 { 'ㄵ' } else if i == 6 { 'ㄶ' } else if i == 7 { 'ㄷ' } else if i == 8 { 'ㄹ' }
    else if i == 9 { 'ㄺ' } else if i == 10 { 'ㄻ' } else if i == 11 { 'ㄼ' } else if i == 12 { 'ㄽ' }
    else if i == 13 { 'ㄾ' } else if i == 14 { 'ㄿ' } else if i == 15 { 'ㅀ' } else if i == 16 { 'ㅁ' }
    else if i == 17 { 'ㅂ' } else if i == 18 { 'ㅄ' } else if i == 19 { 'ㅅ' } else if i == 20 { 'ㅆ' }
    else if i == 21 { 'ㅇ' } else if i == 22 { 'ㅈ' } else if i == 23 { 'ㅊ' } else if i == 24 { 'ㅋ' }
    else if i == 25 { 'ㅌ' } else if i == 26 { 'ㅍ' } else { 'ㅎ' }
}

/// The simple letters of a vowel.
fn decompose_jung(jung: char) -> (r: Vec<char>)
    ensures
        r@ == jung_decomp(jung),
{
    let mut r: Vec<char> = Vec::new();
    if jung == 'ㅘ' { r.push('ㅗ'); r.push('ㅏ'); } else if jung == 'ㅙ' { r.push('ㅗ'); r.push('ㅐ'); }
    else if jung == 'ㅚ' { r.push('ㅗ'); r.push('ㅣ'); } else if jung == 'ㅝ' { r.push('ㅜ'); r.push('ㅓ'); }
    else if jung == 'ㅞ' { r.push('ㅜ'); r.push('ㅔ'); } else if jung == 'ㅟ' { r.push('ㅜ'); r.push('ㅣ'); }
    else if jung == 'ㅢ' { r.push('ㅡ'); r.push('ㅣ'); } else { r.push(jung); }
    proof {
        assert(r@ =~= jung_decomp(jung));
    }
    r
}

/// The simple letters of a trailing consonant.
fn decompose_jong(jong: char) -> (r: Vec<char>)
    ensures
        r@ == jong_decomp(jong),
{
    let mut r: Vec<char> = Vec::new();
    if jong == 'ㄳ' { r.push('ㄱ'); r.push('ㅅ'); } else if jong == 'ㄵ' { r.push('ㄴ'); r.push('ㅈ'); }
    else if jong == 'ㄶ' { r.push('ㄴ'); r.push('ㅎ'); } else if jong == 'ㄺ' { r.push('ㄹ'); r.push('ㄱ'); }
    else if jong == 'ㄻ' { r.push('ㄹ'); r.push('ㅁ'); } else if jong == 'ㄼ' { r.push('ㄹ'); r.push('ㅂ'); }
    else if jong == 'ㄽ' { r.push('ㄹ'); r.push('ㅅ'); } else if jong == 'ㄾ' { r.push('ㄹ'); r.push('ㅌ'); }
    else if jong == 'ㄿ' { r.push('ㄹ'); r.push('ㅍ'); } else if jong == 'ㅀ' { r.push('ㄹ'); r.push('ㅎ'); }
    else if jong == 'ㅄ' { r.push('ㅂ'); r.push('ㅅ'); } else { r.push(jong); }
    proof {
        assert(r@ =~= jong_decomp(jong));
    }
    r
}

/// The compound vowel formed by two simple vowels, if any.
fn combine_jung(c1: char, c2: char) -> (r: Option<char>)
    ensures
        r == jung_combine(c1, c2),
{
    if c1 == 'ㅗ' && c2 == 'ㅏ' { Some('ㅘ') } else if c1 == 'ㅗ' && c2 == 'ㅐ' { Some('ㅙ') }
    else if c1 == 'ㅗ' && c2 == 'ㅣ' { Some('ㅚ') } else if c1 == 'ㅜ' && c2 == 'ㅓ' { Some('ㅝ') }
    else if c1 == 'ㅜ' && c2 == 'ㅔ' { Some('ㅞ') } else if c1 == 'ㅜ' && c2 == 'ㅣ' { Some('ㅟ') }
    else if c1 == 'ㅡ' && c2 == 'ㅣ' { Some('ㅢ') } else { None }
}

/// The compound trailing consonant formed by two simple letters, if any.
fn combine_jong(c1: char, c2: char) -> (r: Option<char>)
    ensures
        r == jong_combine(c1, c2),
{
    if c1 == 'ㄱ' && c2 == 'ㅅ' { Some('ㄳ') } else if c1 == 'ㄴ' && c2 == 'ㅈ' { Some('ㄵ') }
    else if c1 == 'ㄴ' && c2 == 'ㅎ' { Some('ㄶ') } else if c1 == 'ㄹ' && c2 == 'ㄱ' { Some('ㄺ') }
    else if c1 == 'ㄹ' && c2 == 'ㅁ' { Some('ㄻ') } else if c1 == 'ㄹ' && c2 == 'ㅂ' { Some('ㄼ') }
    else if c1 == 'ㄹ' && c2 == 'ㅅ' { Some('ㄽ') } else if c1 == 'ㄹ' && c2 == 'ㅌ' { Some('ㄾ') }
    else if c1 == 'ㄹ' && c2 == 'ㅍ' { Some('ㄿ') } else if c1 == 'ㄹ' && c2 == 'ㅎ' { Some('ㅀ') }
    else if c1 == 'ㅂ' && c2 == 'ㅅ' { Some('ㅄ') } else { None }
}

/// Decomposes every syllable block of `text` into its letters; other
/// characters pass through unchanged.
fn disassemble_hangul(text: &str) -> (r: String)
    ensures
        r@ == spec_disassemble(text@),
{
    let chars = chars_of(text);
    let mut out: Vec<char> = Vec::new();
    let mut i: usize = 0;
    proof {
        assert(text@.take(0) =~= Seq::<char>::empty());
    }
    while i < chars.len()
        invariant
            chars@ == text@,
            i <= chars@.len(),
            out@ == spec_disassemble(text@.take(i as int)),
        decreases chars@.len() - i,
    {
        let c = chars[i];
        let ghost pre = out@;
        let u = c as u32;
        if !(0xAC00 <= u && u <= 0xD7A3) {
            out.push(c);
            proof {
                assert(!is_syllable(c));
                assert(encode_char(c) =~= seq![c]);
                assert(out@ =~= pre + encode_char(c));
            }
        } else {
            let idx = u - 0xAC00;
            let jong = idx % 28;
            let jung = (idx / 28) % 21;
            let cho = idx / 28 / 21;
            proof {
                assert(cho < 19 && jung < 21 && jong < 28) by {
                    assert(idx <= 11171u32);
                    assert(idx / 28u32 <= 11171u32 / 28u32);
                    assert(idx / 28u32 / 21u32 <= 398u32 / 21u32);
                }
            }
            let cho_c = cho_char_exec(cho);
            let jung_c = jung_char_exec(jung);
            out.push(cho_c);
            let jd = decompose_jung(jung_c);
            let mut k: usize = 0;
            while k < jd.len()
                invariant
                    k <= jd@.len(),
                    out@ == pre + seq![cho_char(cho as int)] + jd@.take(k as int),
                    jd@ == jung_decomp(jung_char(jung as int)),
                decreases jd@.len() - k,
            {
                out.push(jd[k]);
                proof {
                    assert(jd@.take(k + 1 as int) =~= jd@.take(k as int).push(jd@[k as int]));
                    assert(out@ =~= pre + seq![cho_char(cho as int)] + jd@.take(k + 1 as int));
                }
                k = k + 1;
            }
            proof {
                assert(jd@.take(jd@.len() as int) =~= jd@);
            }
            if jong > 0 {
                let jong_c = jong_char_exec(jong);
                let gd = decompose_jong(jong_c);
                let ghost mid = out@;
                let mut k2: usize = 0;
                while k2 < gd.len()
                    invariant
                        k2 <= gd@.len(),
                        out@ == mid + gd@.take(k2 as int),
                        gd@ == jong_decomp(jong_char(jong as int)),
                        mid == pre + seq![cho_char(cho as int)] + jung_decomp(
                            jung_char(jung as int),
                        ),
                    decreases gd@.len() - k2,
                {
                    out.push(gd[k2]);
                    proof {
                        assert(gd@.take(k2 + 1 as int) =~= gd@.take(k2 as int).push(
                            gd@[k2 as int],
                        ));
                        assert(out@ =~= mid + gd@.take(k2 + 1 as int));
                    }
                    k2 = k2 + 1;
                }
                proof {
                    assert(gd@.take(gd@.len() as int) =~= gd@);
                }
            }
            proof {
                let n = c as u32 - 0xAC00;
                assert(is_syllable(c));
                assert(idx as int == n);
                assert(jong as int == n % 28);
                assert(jung as int == (n / 28) % 21);
                assert(cho as int == n / 28 / 21);
                assert(out@ =~= pre + encode_char(c));
            }
        }
        proof {
            assert(text@.take(i + 1 as int) =~= text@.take(i as int).push(text@[i as int]));
            lemma_disassemble_push(text@.take(i as int), text@[i as int]);
        }
        i = i + 1;
    }
    proof {
        assert(text@.take(text@.len() as int) =~= text@);
    }
    string_of(&out)
}

/// Decomposes every syllable block of `text` into its letters; other
/// characters pass through unchanged.
pub fn disassemble(text: &str) -> (r: String)
    ensures
        r@ == spec_disassemble(text@),
{
    disassemble_hangul(text)
}

// ---------------------------------------------------------------------------
// Reassembly
// ---------------------------------------------------------------------------

/// A letter stream starts a syllable block when a leading consonant is
/// immediately followed by a vowel.
pub open spec fn starts_block(t: Seq<char>) -> bool {
    t.len() >= 2 && is_cho_c(t[0]) && is_jung_c(t[1])
}

/// How many vowel letters the scanner consumes at a block start: two when
/// they form a known compound vowel, else one.
pub open spec fn vowel_consumed(t: Seq<char>) -> int {
    if t.len() >= 3 && is_jung_c(t[2]) && jung_combine(t[1], t[2]) is Some {
        2
    } else {
        1
    }
}

/// The block's resolved vowel.
pub open spec fn vowel_char(t: Seq<char>) -> char {
    if t.len() >= 3 && is_jung_c(t[2]) && jung_combine(t[1], t[2]) is Some {
        jung_combine(t[1], t[2])->Some_0
    } else {
        t[1]
    }
}

/// The trailing consonant scanned at position `p`: its block index and the
/// letters consumed. A candidate letter is consumed only when the letter
/// after it is not a vowel (else it leads the next block); two letters are
/// consumed as a compound only when the letter after the pair is not a
/// vowel.
pub open spec fn jong_scan(t: Seq<char>, p: int) -> (int, int) {
    if p < t.len() && is_jong_c(t[p]) {
        let pair = p + 1 < t.len() && is_jong_c(t[p + 1]) && jong_combine(t[p], t[p + 1]) is Some
            && !(p + 2 < t.len() && is_jung_c(t[p + 2]));
        let jc = if pair {
            jong_combine(t[p], t[p + 1])->Some_0
        } else {
            t[p]
        };
        let jn: int = if pair {
            2
        } else {
            1
        };
        if !(p + jn < t.len() && is_jung_c(t[p + jn])) {
            (jong_idx(jc), jn)
        } else {
            (0, 0)
        }
    } else {
        (0, 0)
    }
}

/// The length of the block scanned at the head of `t`.
pub open spec fn block_len(t: Seq<char>) -> int {
    1 + vowel_consumed(t) + jong_scan(t, 1 + vowel_consumed(t)).1
}

/// The code point of the block scanned at the head of `t`.
pub open spec fn block_code(t: Seq<char>) -> int {
    0xAC00 + cho_idx(t[0]) * 588 + jung_idx(vowel_char(t)) * 28 + jong_scan(
        t,
        1 + vowel_consumed(t),
    ).0
}

/// Recomposes a letter stream into syllable blocks, greedily with one
/// token of lookahead; letters that start no block pass through unchanged.
pub open spec fn spec_reassemble(t: Seq<char>) -> Seq<char>
    decreases t.len(),
{
    if t.len() == 0 {
        Seq::empty()
    } else if starts_block(t) {
        seq![(block_code(t) as u32) as char] + spec_reassemble(t.skip(block_len(t)))
    } else {
        seq![t[0]] + spec_reassemble(t.skip(1))
    }
}

/// Relies on `char::from_u32`: for a value that is not a surrogate and not
/// above the Unicode maximum — every precomposed-syllable code point is
/// neither — the result is the character with exactly that code point.
#[verifier::external_body]
fn char_from_code(u: u32) -> (c: char)
    requires
        0xAC00 <= u <= 0xD7A3,
    ensures
        c as u32 == u,
{
    char::from_u32(u).unwrap_or('\u{AC00}')
}

/// Recomposes a decomposed letter stream into precomposed syllable blocks;
/// other characters pass through unchanged.
#[verifier::rlimit(100)]
pub fn reassemble_hangul(text: &str) -> (r: String)
    ensures
        r@ == spec_reassemble(text@),
{
    let chars = chars_of(text);
    let n = chars.len();
    let mut out: Vec<char> = Vec::new();
    let mut i: usize = 0;
    proof {
        assert(text@.skip(0) =~= text@);
        assert(out@ + spec_reassemble(text@) =~= spec_reassemble(text@));
    }
    while i < n
        invariant
            chars@ == text@,
            n == chars@.len(),
            i <= n,
            spec_reassemble(text@) == out@ + spec_reassemble(text@.skip(i as int)),
        decreases n - i,
    {
        let ghost rem = text@.skip(i as int);
        proof {
            assert(rem.len() == n - i);
        }
        let c1 = chars[i];
        if is_cho(c1) && i + 1 < n && is_jung(chars[i + 1]) {
            proof {
                assert(rem[0] == c1 && rem[1] == chars@[i + 1]);
                assert(starts_block(rem));
            }
            let mut consumed: usize = 2;
            let mut jung_c = chars[i + 1];
            if i + 2 < n && is_jung(chars[i + 2]) {
                match combine_jung(jung_c, chars[i + 2]) {
                    Some(combined) => {
                        jung_c = combined;
                        consumed = 3;
                    },
                    None => {},
                }
            }
            proof {
                assert(vowel_consumed(rem) == consumed - 1);
                assert(vowel_char(rem) == jung_c);
            }
            let cho_i = get_cho_idx(c1);
            let jung_i = get_jung_idx(jung_c);
            let mut jong_i: u32 = 0;
            let ghost p = consumed as int;
            if i + consumed < n {
                let c3 = chars[i + consumed];
                if is_jong(c3) {
                    let mut jong_char_v = c3;
                    let mut jong_consumed: usize = 1;
                    if i + consumed + 1 < n {
                        let c4 = chars[i + consumed + 1];
                        if is_jong(c4) {
                            match combine_jong(c3, c4) {
                                Some(combined) => {
                                    let next_is_vowel = if i + consumed + 2 < n {
                                        is_jung(chars[i + consumed + 2])
                                    } else {
                                        false
                                    };
                                    if !next_is_vowel {
                                        jong_char_v = combined;
                                        jong_consumed = 2;
                                    }
                                },
                                None => {},
                            }
                        }
                    }
                    let next_is_vowel = if i + consumed + jong_consumed < n {
                        is_jung(chars[i + consumed + jong_consumed])
                    } else {
                        false
                    };
                    if !next_is_vowel {
                        jong_i = get_jong_idx(jong_char_v);
                        consumed = consumed + jong_consumed;
                    }
                }
            }
            proof {
                assert(jong_scan(rem, p) == (jong_i as int, consumed as int - p));
            }
            let code = 0xAC00 + cho_i * 588 + jung_i * 28 + jong_i;
            proof {
                assert(cho_i < 19 && jung_i < 21 && jong_i < 28);
                assert(code as int == block_code(rem)) by {
                    assert(cho_i as int == cho_idx(rem[0]));
                    assert(jung_i as int == jung_idx(vowel_char(rem)));
                }
                assert(0xAC00 <= code <= 0xD7A3);
            }
            let chr = char_from_code(code);
            out.push(chr);
            proof {
                vstd::utf8::char_u32_cast(chr, code);
                assert(chr == (block_code(rem) as u32) as char);
                assert(block_len(rem) == consumed as int);
                assert(spec_reassemble(rem) == seq![(block_code(rem) as u32) as char]
                    + spec_reassemble(rem.skip(block_len(rem))));
                assert(rem.skip(block_len(rem)) =~= text@.skip(i + consumed as int));
            }
            i = i + consumed;
        } else {
            out.push(c1);
            proof {
                assert(rem[0] == c1);
                assert(!starts_block(rem));
                assert(spec_reassemble(rem) == seq![rem[0]] + spec_reassemble(rem.skip(1)));
                assert(rem.skip(1) =~= text@.skip(i + 1 as int));
            }
            i = i + 1;
        }
    }
    proof {
        assert(text@.skip(n as int).len() == 0);
        assert(spec_reassemble(text@.skip(n as int)) =~= Seq::<char>::empty());
        assert(spec_reassemble(text@) =~= out@);
    }
    string_of(&out)
}

// ---------------------------------------------------------------------------
// The round trip
// ---------------------------------------------------------------------------

/// A character that both codec directions pass through unchanged: neither a
/// syllable block nor any jamo letter.
pub open spec fn passthrough_char(c: char) -> bool {
    !is_syllable(c) && !is_cho_c(c) && !is_jung_c(c) && !is_jong_c(c)
}

/// A text of precomposed syllables and other-script characters only: the
/// inputs on which disassembly is lossless. A bare jamo letter in the input
/// could fuse with a neighbouring block on reassembly, so it is excluded.
pub open spec fn codec_safe(s: Seq<char>) -> bool {
    forall|i: int| 0 <= i < s.len() ==> is_syllable(#[trigger] s[i]) || passthrough_char(s[i])
}

/// What the stream after one encoded character looks like: empty, a
/// passthrough character, or the leading consonant and vowel of a block.
spec fn tail_ok(t: Seq<char>) -> bool {
    t.len() == 0 || passthrough_char(t[0]) || starts_block(t)
}

proof fn lemma_cho_props(i: int)
    requires
        0 <= i < 19,
    ensures
        is_cho_c(cho_char(i)),
        !is_jung_c(cho_char(i)),
        cho_idx(cho_char(i)) == i,
{
}

proof fn lemma_jung_not_jong(c: char)
    requires
        is_jung_c(c),
    ensures
        !is_jong_c(c),
        !is_cho_c(c),
{
}

proof fn lemma_jung_decomp_props(j: int)
    requires
        0 <= j < 21,
    ensures
        1 <= jung_decomp(jung_char(j)).len() <= 2,
        is_jung_c(jung_decomp(jung_char(j))[0]),
        jung_decomp(jung_char(j)).len() == 2 ==> is_jung_c(jung_decomp(jung_char(j))[1]),
        jung_decomp(jung_char(j)).len() == 1 ==> jung_decomp(jung_char(j))[0] == jung_char(j),
        jung_decomp(jung_char(j)).len() == 2 ==> jung_combine(
            jung_decomp(jung_char(j))[0],
            jung_decomp(jung_char(j))[1],
        ) == Some(jung_char(j)),
        jung_idx(jung_char(j)) == j,
{
}

proof fn lemma_jong_decomp_props(j: int)
    requires
        1 <= j < 28,
    ensures
        1 <= jong_decomp(jong_char(j)).len() <= 2,
        is_jong_c(jong_decomp(jong_char(j))[0]),
        !is_jung_c(jong_decomp(jong_char(j))[0]),
        jong_decomp(jong_char(j)).len() == 2 ==> is_jong_c(jong_decomp(jong_char(j))[1])
            && !is_jung_c(jong_decomp(jong_char(j))[1]),
        jong_decomp(jong_char(j)).len() == 1 ==> jong_decomp(jong_char(j))[0] == jong_char(j),
        jong_decomp(jong_char(j)).len() == 2 ==> jong_combine(
            jong_decomp(jong_char(j))[0],
            jong_decomp(jong_char(j))[1],
        ) == Some(jong_char(j)),
        jong_idx(jong_char(j)) == j,
{
}

/// Reassembling one encoded character in front of a well-shaped stream
/// yields that character followed by the reassembly of the stream.
proof fn lemma_reassemble_step(c: char, rest: Seq<char>)
    requires
        is_syllable(c) || passthrough_char(c),
        tail_ok(rest),
    ensures
        spec_reassemble(encode_char(c) + rest) == seq![c] + spec_reassemble(rest),
{
    let t = encode_char(c) + rest;
    if !is_syllable(c) {
        assert(encode_char(c) =~= seq![c]);
        assert(t[0] == c);
        assert(!starts_block(t));
        assert(t.skip(1) =~= rest);
        assert(spec_reassemble(t) == seq![t[0]] + spec_reassemble(t.skip(1)));
    } else {
        let n = c as u32 - 0xAC00;
        let cho = n / 28 / 21;
        let jung = (n / 28) % 21;
        let jong = n % 28;
        assert(0 <= n <= 11171);
        assert(0 <= cho < 19) by {
            assert(n / 28 <= 11171int / 28);
        }
        assert(0 <= jung < 21 && 0 <= jong < 28);
        let jd = jung_decomp(jung_char(jung));
        let gd: Seq<char> = if jong > 0 {
            jong_decomp(jong_char(jong))
        } else {
            Seq::empty()
        };
        assert(encode_char(c) == seq![cho_char(cho)] + jd + gd);
        lemma_cho_props(cho);
        lemma_jung_decomp_props(jung);
        if jong > 0 {
            lemma_jong_decomp_props(jong);
        }
        // The letter right after the block's own letters is never a vowel.
        let after = 1 + jd.len() as int + gd.len() as int;
        assert(t.len() == after + rest.len());
        if rest.len() > 0 {
            if starts_block(rest) {
                lemma_cho_props(cho_idx(rest[0]));
            }
            assert(!is_jung_c(t[after])) by {
                assert(t[after] == rest[0]);
                if starts_block(rest) {
                    assert(is_cho_c(rest[0]));
                }
            }
        }
        // The scanner consumes exactly the encoded vowel letters.
        assert(t[0] == cho_char(cho));
        assert(t[1] == jd[0]);
        assert(starts_block(t));
        if jd.len() == 2 {
            assert(t[2] == jd[1]);
            assert(vowel_consumed(t) == 2);
            assert(vowel_char(t) == jung_char(jung));
        } else {
            assert(jd[0] == jung_char(jung));
            if t.len() >= 3 {
                assert(!is_jung_c(t[2])) by {
                    if gd.len() > 0 {
                        assert(t[2] == gd[0]);
                    } else {
                        assert(t[2] == rest[0]);
                        if starts_block(rest) {
                            lemma_jung_not_jong(rest[1]);
                        }
                    }
                }
            }
            assert(vowel_consumed(t) == 1);
            assert(vowel_char(t) == jung_char(jung));
        }
        let p = 1 + vowel_consumed(t);
        assert(p == 1 + jd.len());
        // The scanner consumes exactly the encoded trailing letters.
        if jong == 0 {
            assert(gd.len() == 0);
            if rest.len() == 0 {
                assert(p >= t.len());
                assert(jong_scan(t, p) == (0int, 0int));
            } else if passthrough_char(rest[0]) {
                assert(t[p] == rest[0]);
                assert(jong_scan(t, p) == (0int, 0int));
            } else {
                assert(t[p] == rest[0] && t[p + 1] == rest[1]);
                assert(is_jung_c(t[p + 1]));
                lemma_jung_not_jong(rest[1]);
                assert(jong_scan(t, p) == (0int, 0int));
            }
        } else if gd.len() == 1 {
            assert(t[p] == gd[0] && gd[0] == jong_char(jong));
            assert(is_jong_c(t[p]));
            if rest.len() == 0 {
                assert(p + 1 >= t.len());
                assert(jong_scan(t, p) == (jong, 1int));
            } else {
                assert(t[p + 1] == rest[0]);
                assert(!is_jung_c(t[p + 1]));
                if starts_block(rest) {
                    assert(t[p + 2] == rest[1]);
                    assert(is_jung_c(t[p + 2]));
                    assert(jong_scan(t, p) == (jong, 1int));
                } else {
                    assert(!is_jong_c(t[p + 1]));
                    assert(jong_scan(t, p) == (jong, 1int));
                }
            }
        } else {
            assert(gd.len() == 2);
            assert(t[p] == gd[0] && t[p + 1] == gd[1]);
            assert(is_jong_c(t[p]) && is_jong_c(t[p + 1]));
            assert(jong_combine(t[p], t[p + 1]) == Some(jong_char(jong)));
            if rest.len() == 0 {
                assert(p + 2 >= t.len());
                assert(jong_scan(t, p) == (jong, 2int));
            } else {
                assert(t[p + 2] == rest[0]);
                assert(!is_jung_c(t[p + 2]));
                assert(jong_scan(t, p) == (jong, 2int));
            }
        }
        assert(block_len(t) == 1 + jd.len() + gd.len());
        // The recombined code point is the encoded character's own.
        assert(block_code(t) == 0xAC00 + cho * 588 + jung * 28 + jong);
        assert(n == cho * 588 + jung * 28 + jong) by {
            assert(n == (n / 28) * 28 + n % 28);
            assert(n / 28 == (n / 28 / 21) * 21 + (n / 28) % 21);
        }
        assert(block_code(t) == c as u32);
        vstd::utf8::char_u32_cast(c, c as u32);
        assert((block_code(t) as u32) as char == c);
        assert(t.skip(block_len(t)) =~= rest);
        assert(spec_reassemble(t) == seq![(block_code(t) as u32) as char] + spec_reassemble(
            t.skip(block_len(t)),
        ));
    }
    assert(spec_reassemble(t) =~= seq![c] + spec_reassemble(rest));
}

/// Round trip: disassembling a text of precomposed syllables and
/// other-script characters and reassembling the letters restores the text.
pub proof fn lemma_round_trip(s: Seq<char>)
    requires
        codec_safe(s),
    ensures
        spec_reassemble(spec_disassemble(s)) == s,
    decreases s.len(),
{
    if s.len() == 0 {
        assert(spec_disassemble(s) =~= Seq::<char>::empty());
        assert(spec_reassemble(spec_disassemble(s)) =~= s);
    } else {
        let c = s[0];
        let tail = s.skip(1);
        assert(codec_safe(tail)) by {
            assert(forall|i: int| 0 <= i < tail.len() ==> tail[i] == s[i + 1]);
        }
        let dt = spec_disassemble(tail);
        assert(spec_disassemble(s) == encode_char(c) + dt);
        assert(tail_ok(dt)) by {
            if tail.len() > 0 {
                let c2 = tail[0];
                assert(dt == encode_char(c2) + spec_disassemble(tail.skip(1)));
                if is_syllable(c2) {
                    let n2 = c2 as u32 - 0xAC00;
                    let cho2 = n2 / 28 / 21;
                    let jung2 = (n2 / 28) % 21;
                    assert(0 <= cho2 < 19) by {
                        assert(n2 / 28 <= 11171int / 28);
                    }
                    assert(0 <= jung2 < 21);
                    lemma_cho_props(cho2);
                    lemma_jung_decomp_props(jung2);
                    assert(dt[0] == cho_char(cho2));
                    assert(dt[1] == jung_decomp(jung_char(jung2))[0]);
                    assert(starts_block(dt));
                } else {
                    assert(dt[0] == c2);
                    assert(passthrough_char(dt[0]));
                }
            }
        }
        lemma_reassemble_step(c, dt);
        lemma_round_trip(tail);
        assert(seq![c] + tail =~= s);
    }
}

// ---------------------------------------------------------------------------
// The Korean deinflector
// ---------------------------------------------------------------------------

/// Appending a text to the result only when it is new.
pub open spec fn dedup_step(acc: Seq<Seq<char>>, x: Seq<char>) -> Seq<Seq<char>> {
    if acc.contains(x) {
        acc
    } else {
        acc.push(x)
    }
}

/// The distinct texts of `s`, each at its first occurrence, in order.
pub open spec fn dedup_texts(s: Seq<Seq<char>>) -> Seq<Seq<char>> {
    s.fold_left(Seq::<Seq<char>>::empty(), |acc: Seq<Seq<char>>, x: Seq<char>| dedup_step(acc, x))
}

proof fn lemma_dedup_first(s: Seq<Seq<char>>)
    requires
        s.len() >= 1,
    ensures
        dedup_texts(s).len() >= 1,
        dedup_texts(s)[0] == s[0],
    decreases s.len(),
{
    let f = |acc: Seq<Seq<char>>, x: Seq<char>| dedup_step(acc, x);
    if s.len() == 1 {
        assert(s.drop_last().len() == 0);
        assert(dedup_texts(s.drop_last()) =~= Seq::<Seq<char>>::empty());
        assert(dedup_texts(s) == f(dedup_texts(s.drop_last()), s.last()));
        assert(!Seq::<Seq<char>>::empty().contains(s.last()));
        assert(dedup_texts(s) =~= Seq::<Seq<char>>::empty().push(s[0]));
    } else {
        lemma_dedup_first(s.drop_last());
        assert(s.drop_last()[0] == s[0]);
        assert(dedup_texts(s) == f(dedup_texts(s.drop_last()), s.last()));
    }
}

/// Identity first: on a text of precomposed syllables and other-script
/// characters, the first string the Korean deinflector returns is the text
/// itself: the identity candidate survives the codec round trip.
pub proof fn lemma_korean_identity_first(d: DescModel, t: Seq<char>, rs: Seq<CandModel>)
    requires
        engine_post(d, spec_disassemble(t), rs),
        codec_safe(t),
    ensures
        dedup_texts(rs.map_values(|c: CandModel| spec_reassemble(c.text))).len() >= 1,
        dedup_texts(rs.map_values(|c: CandModel| spec_reassemble(c.text)))[0] == t,
{
    let texts = rs.map_values(|c: CandModel| spec_reassemble(c.text));
    assert(rs[0] == crate::transformer::seed_cand(spec_disassemble(t)));
    assert(texts[0] == spec_reassemble(spec_disassemble(t)));
    lemma_round_trip(t);
    lemma_dedup_first(texts);
}

/// De-duplication: the texts that the Korean deinflector returns are
/// pairwise distinct, whatever the candidate texts were.
pub proof fn lemma_dedup_texts_distinct(s: Seq<Seq<char>>)
    ensures
        forall|i: int, j: int|
            0 <= i < j < dedup_texts(s).len() ==> dedup_texts(s)[i] != dedup_texts(s)[j],
    decreases s.len(),
{
    if s.len() == 0 {
        assert(dedup_texts(s) =~= Seq::<Seq<char>>::empty());
    } else {
        let f = |acc: Seq<Seq<char>>, x: Seq<char>| dedup_step(acc, x);
        let prior = dedup_texts(s.drop_last());
        assert(dedup_texts(s) == f(prior, s.last()));
        lemma_dedup_texts_distinct(s.drop_last());
        if !prior.contains(s.last()) {
            let out = prior.push(s.last());
            assert forall|i: int, j: int| 0 <= i < j < out.len() implies out[i] != out[j] by {
                if j < out.len() - 1 {
                    assert(out[i] == prior[i] && out[j] == prior[j]);
                } else {
                    assert(out[j] == s.last());
                    assert(out[i] == prior[i]);
                    assert(!prior.contains(s.last()));
                }
            }
        }
    }
}

/// Whether some string of `v` holds the characters of `x`.
fn contains_str(v: &Vec<String>, x: &String) -> (r: bool)
    ensures
        r == v.deep_view().contains(x@),
{
    let mut k: usize = 0;
    while k < v.len()
        invariant
            k <= v@.len(),
            forall|j: int| 0 <= j < k ==> v.deep_view()[j] != x@,
        decreases v@.len() - k,
    {
        proof {
            assert(v.deep_view()[k as int] == v@[k as int]@);
        }
        if crate::transformer::str_equal(&v[k], x) {
            proof {
                assert(v.deep_view().contains(x@));
            }
            return true;
        }
        k = k + 1;
    }
    proof {
        assert(forall|j: int| 0 <= j < v.deep_view().len() ==> v.deep_view()[j] != x@);
    }
    false
}

/// Builds the Korean transformer from its static rule table: a JSON table
/// whose affixes are written over decomposed letters.
pub fn transformer(table: &str) -> (r: Result<LanguageTransformer, TransformError>)
    ensures
        r matches Ok(t) ==> crate::transformer::desc_wf(t@),
{
    LanguageTransformer::from_json(table)
}

/// Korean deinflection: disassembles the text into letters, runs the
/// generic search, reassembles every candidate text, and keeps the distinct
/// results in discovery order.
pub fn deinflect(transformer: &LanguageTransformer, text: &str) -> (results: Vec<String>)
    ensures
        exists|rs: Seq<CandModel>|
            #[trigger] engine_post(transformer@, spec_disassemble(text@), rs)
                && results.deep_view() == dedup_texts(
                rs.map_values(|c: CandModel| spec_reassemble(c.text)),
            ),
{
    let disassembled = disassemble(text);
    let terms = transformer.deinflect_terms(disassembled.as_str());
    let ghost rs: Seq<CandModel> = choose|rs: Seq<CandModel>|
        #[trigger] engine_post(transformer@, disassembled@, rs) && terms.deep_view()
            == rs.map_values(|c: CandModel| c.text);
    let ghost texts = rs.map_values(|c: CandModel| spec_reassemble(c.text));
    proof {
        assert(texts =~= terms.deep_view().map_values(|t: Seq<char>| spec_reassemble(t)));
    }
    let mut results: Vec<String> = Vec::new();
    proof {
        assert(texts.take(0) =~= Seq::<Seq<char>>::empty());
        assert(results.deep_view() =~= dedup_texts(texts.take(0)));
    }
    let mut k: usize = 0;
    while k < terms.len()
        invariant
            k <= terms@.len(),
            texts == rs.map_values(|c: CandModel| spec_reassemble(c.text)),
            texts =~= terms.deep_view().map_values(|t: Seq<char>| spec_reassemble(t)),
            texts.len() == terms@.len(),
            results.deep_view() == dedup_texts(texts.take(k as int)),
        decreases terms@.len() - k,
    {
        let recomposed = reassemble_hangul(terms[k].as_str());
        proof {
            assert(terms.deep_view()[k as int] == terms@[k as int]@);
            assert(recomposed@ == texts[k as int]);
            assert(texts.take(k + 1 as int).drop_last() =~= texts.take(k as int));
            assert(texts.take(k + 1 as int).last() == texts[k as int]);
        }
        let ghost pre = results.deep_view();
        if !contains_str(&results, &recomposed) {
            results.push(recomposed);
            proof {
                assert(results.deep_view() =~= pre.push(texts[k as int]));
                assert(results.deep_view() =~= dedup_step(pre, texts[k as int]));
            }
        } else {
            proof {
                assert(results.deep_view() =~= dedup_step(pre, texts[k as int]));
            }
        }
        proof {
            assert(dedup_texts(texts.take(k + 1 as int)) == dedup_step(
                dedup_texts(texts.take(k as int)),
                texts[k as int],
            ));
        }
        k = k + 1;
    }
    proof {
        assert(texts.take(texts.len() as int) =~= texts);
    }
    results
}

} // verus!
