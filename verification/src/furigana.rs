//! Splitting a headword into ruby-text parts: the longest common prefix
//! and suffix of headword and reading stand alone, and only the differing
//! middle carries the middle of the reading.

use vstd::prelude::*;

use crate::text::{chars_of, string_of, sub_chars};

verus! {

/// `cp` is the length of the longest common prefix of `h` and `r`.
pub open spec fn prefix_len_ok(h: Seq<char>, r: Seq<char>, cp: int) -> bool {
    &&& 0 <= cp <= h.len()
    &&& cp <= r.len()
    &&& forall|i: int| 0 <= i < cp ==> h[i] == r[i]
    &&& (cp == h.len() || cp == r.len() || h[cp] != r[cp])
}

/// `cs` is the length of the longest common suffix of what follows a
/// common prefix of length `cp` in `h` and `r`.
pub open spec fn suffix_len_ok(h: Seq<char>, r: Seq<char>, cp: int, cs: int) -> bool {
    &&& 0 <= cs
    &&& cp + cs <= h.len()
    &&& cp + cs <= r.len()
    &&& forall|i: int| h.len() - cs <= i < h.len() ==> #[trigger] h[i] == r[i - h.len() + r.len()]
    &&& (cp + cs == h.len() || cp + cs == r.len() || h[h.len() - 1 - cs] != r[r.len() - 1 - cs])
}

/// The ruby parts for a split at prefix length `cp` and suffix length `cs`:
/// the shared prefix bare, the differing middle with the reading's middle,
/// the shared suffix bare; empty parts are left out.
pub open spec fn furigana_parts(h: Seq<char>, r: Seq<char>, cp: int, cs: int) -> Seq<
    (Seq<char>, Seq<char>),
> {
    let prefix: Seq<(Seq<char>, Seq<char>)> = if cp > 0 {
        seq![(h.take(cp), Seq::<char>::empty())]
    } else {
        Seq::empty()
    };
    let middle: Seq<(Seq<char>, Seq<char>)> = if cp < h.len() - cs {
        seq![(h.subrange(cp, h.len() - cs), r.subrange(cp, r.len() - cs))]
    } else {
        Seq::empty()
    };
    let suffix: Seq<(Seq<char>, Seq<char>)> = if cs > 0 {
        seq![(h.skip(h.len() - cs), Seq::<char>::empty())]
    } else {
        Seq::empty()
    };
    prefix + middle + suffix
}

/// The models of the returned parts.
pub open spec fn parts_model(parts: Seq<(String, String)>) -> Seq<(Seq<char>, Seq<char>)> {
    parts.map_values(|p: (String, String)| (p.0@, p.1@))
}

/// Splits a headword into ruby parts against its reading. A headword with
/// no reading, or equal to it, is one bare part; otherwise the longest
/// common prefix and suffix stand bare and the middle carries the middle
/// of the reading.
pub fn calculate_furigana(headword: &str, reading: &str) -> (parts: Vec<(String, String)>)
    ensures
        (reading@.len() == 0 || headword@ == reading@) ==> parts@.len() == 1 && parts@[0].0@
            == headword@ && parts@[0].1@ == Seq::<char>::empty(),
        !(reading@.len() == 0 || headword@ == reading@) ==> exists|cp: int, cs: int|
            prefix_len_ok(headword@, reading@, cp) && suffix_len_ok(headword@, reading@, cp, cs)
                && parts_model(parts@) == #[trigger] furigana_parts(headword@, reading@, cp, cs),
{
    let h_chars = chars_of(headword);
    let r_chars = chars_of(reading);
    if reading.unicode_len() == 0 || crate::text::chars_eq(&h_chars, &r_chars) {
        let mut parts: Vec<(String, String)> = Vec::new();
        parts.push((headword.to_owned(), String::new()));
        return parts;
    }
    let hn = h_chars.len();
    let rn = r_chars.len();
    let mut h_start: usize = 0;
    let mut h_end = hn;
    let mut r_start: usize = 0;
    let mut r_end = rn;
    while h_start < h_end && r_start < r_end && h_chars[h_start] == r_chars[r_start]
        invariant
            hn == headword@.len(),
            rn == reading@.len(),
            h_chars@ == headword@,
            r_chars@ == reading@,
            h_end == hn,
            r_end == rn,
            h_start == r_start,
            h_start <= hn,
            r_start <= rn,
            forall|i: int| 0 <= i < h_start ==> headword@[i] == reading@[i],
        decreases hn - h_start,
    {
        h_start = h_start + 1;
        r_start = r_start + 1;
    }
    let ghost cp = h_start as int;
    proof {
        assert(prefix_len_ok(headword@, reading@, cp));
    }
    while h_end > h_start && r_end > r_start && h_chars[h_end - 1] == r_chars[r_end - 1]
        invariant
            hn == headword@.len(),
            rn == reading@.len(),
            h_chars@ == headword@,
            r_chars@ == reading@,
            cp == h_start,
            h_start <= h_end <= hn,
            r_start <= r_end <= rn,
            hn - h_end == rn - r_end,
            forall|i: int| h_end <= i < hn ==> #[trigger] headword@[i] == reading@[i - hn + rn],
        decreases h_end,
    {
        h_end = h_end - 1;
        r_end = r_end - 1;
    }
    let ghost cs = (hn - h_end) as int;
    proof {
        assert(suffix_len_ok(headword@, reading@, cp, cs));
    }
    let mut parts: Vec<(String, String)> = Vec::new();
    if h_start > 0 {
        let prefix = string_of(&sub_chars(&h_chars, 0, h_start));
        parts.push((prefix, String::new()));
        proof {
            assert(headword@.subrange(0, cp) =~= headword@.take(cp));
        }
    }
    if h_start < h_end {
        let root_base = string_of(&sub_chars(&h_chars, h_start, h_end));
        let root_ruby = string_of(&sub_chars(&r_chars, r_start, r_end));
        parts.push((root_base, root_ruby));
    }
    if h_end < hn {
        let suffix = string_of(&sub_chars(&h_chars, h_end, hn));
        parts.push((suffix, String::new()));
        proof {
            assert(headword@.subrange(h_end as int, hn as int) =~= headword@.skip(
                headword@.len() - cs,
            ));
        }
    }
    proof {
        assert(parts_model(parts@) =~= furigana_parts(headword@, reading@, cp, cs));
    }
    parts
}

} // verus!
