//! Character-sequence helpers shared by the engine and the Korean codec:
//! conversions between `&str`/`String` and `Vec<char>`, and affix tests.

use vstd::prelude::*;
use vstd::string::StrSliceExecFns;

verus! {

/// True when `suf` is a suffix of `t`.
pub open spec fn suffix_of(t: Seq<char>, suf: Seq<char>) -> bool {
    suf.len() <= t.len() && t.skip(t.len() - suf.len()) == suf
}

/// True when `pre` is a prefix of `t`.
pub open spec fn prefix_of(t: Seq<char>, pre: Seq<char>) -> bool {
    pre.len() <= t.len() && t.take(pre.len() as int) == pre
}

/// Index of the first space in `t` at or after `from`; `t.len()` when none.
pub open spec fn find_space(t: Seq<char>, from: int) -> int
    decreases t.len() - from,
{
    if from < 0 || from >= t.len() {
        t.len() as int
    } else if t[from] == ' ' {
        from
    } else {
        find_space(t, from + 1)
    }
}

pub proof fn lemma_find_space_bounds(t: Seq<char>, from: int)
    requires
        0 <= from <= t.len(),
    ensures
        from <= find_space(t, from) <= t.len(),
        find_space(t, from) < t.len() ==> t[find_space(t, from)] == ' ',
        forall|k: int| from <= k < find_space(t, from) ==> t[k] != ' ',
    decreases t.len() - from,
{
    if from < t.len() && t[from] != ' ' {
        lemma_find_space_bounds(t, from + 1);
    }
}

/// Relies on `String::push`: appends one character at the end.
#[verifier::external_body]
pub(crate) fn push_char(s: &mut String, c: char)
    ensures
        final(s)@ == old(s)@.push(c),
{
    s.push(c);
}

/// The characters of `s`, as a vector.
pub fn chars_of(s: &str) -> (r: Vec<char>)
    ensures
        r@ == s@,
{
    let n = s.unicode_len();
    let mut r: Vec<char> = Vec::new();
    let mut i: usize = 0;
    while i < n
        invariant
            n == s@.len(),
            i <= n,
            r@ == s@.take(i as int),
        decreases n - i,
    {
        let c = s.get_char(i);
        r.push(c);
        proof {
            assert(s@.take(i + 1 as int) == s@.take(i as int).push(s@[i as int]));
        }
        i = i + 1;
    }
    proof {
        assert(s@.take(n as int) == s@);
    }
    r
}

/// A string holding exactly the characters of `v`.
pub fn string_of(v: &Vec<char>) -> (r: String)
    ensures
        r@ == v@,
{
    let mut r = String::new();
    let mut i: usize = 0;
    while i < v.len()
        invariant
            i <= v@.len(),
            r@ == v@.take(i as int),
        decreases v@.len() - i,
    {
        push_char(&mut r, v[i]);
        proof {
            assert(v@.take(i + 1 as int) == v@.take(i as int).push(v@[i as int]));
        }
        i = i + 1;
    }
    proof {
        assert(v@.take(v@.len() as int) == v@);
    }
    r
}

/// Element-wise equality of two character vectors.
pub fn chars_eq(a: &Vec<char>, b: &Vec<char>) -> (r: bool)
    ensures
        r == (a@ == b@),
{
    if a.len() != b.len() {
        proof {
            assert(a@ != b@);
        }
        return false;
    }
    let mut i: usize = 0;
    while i < a.len()
        invariant
            a@.len() == b@.len(),
            i <= a@.len(),
            forall|j: int| 0 <= j < i ==> a@[j] == b@[j],
        decreases a@.len() - i,
    {
        if a[i] != b[i] {
            proof {
                assert(a@ != b@);
            }
            return false;
        }
        i = i + 1;
    }
    proof {
        assert(a@ =~= b@);
    }
    true
}

/// Whether `t` ends with `suf`.
pub fn ends_with_chars(t: &Vec<char>, suf: &Vec<char>) -> (r: bool)
    ensures
        r == suffix_of(t@, suf@),
{
    let tl = t.len();
    let sl = suf.len();
    if sl > tl {
        return false;
    }
    let off = tl - sl;
    let mut i: usize = 0;
    while i < sl
        invariant
            tl == t@.len(),
            sl == suf@.len(),
            sl <= tl,
            off == tl - sl,
            i <= sl,
            forall|j: int| 0 <= j < i ==> t@[off + j] == suf@[j],
        decreases sl - i,
    {
        if t[off + i] != suf[i] {
            proof {
                assert(t@.skip(off as int)[i as int] != suf@[i as int]);
            }
            return false;
        }
        i = i + 1;
    }
    proof {
        assert(t@.skip(off as int) =~= suf@);
    }
    true
}

/// Whether `t` starts with `pre`.
pub fn starts_with_chars(t: &Vec<char>, pre: &Vec<char>) -> (r: bool)
    ensures
        r == prefix_of(t@, pre@),
{
    if pre.len() > t.len() {
        return false;
    }
    let mut i: usize = 0;
    while i < pre.len()
        invariant
            pre@.len() <= t@.len(),
            i <= pre@.len(),
            forall|j: int| 0 <= j < i ==> t@[j] == pre@[j],
        decreases pre@.len() - i,
    {
        if t[i] != pre[i] {
            proof {
                assert(t@.take(pre@.len() as int)[i as int] != pre@[i as int]);
            }
            return false;
        }
        i = i + 1;
    }
    proof {
        assert(t@.take(pre@.len() as int) =~= pre@);
    }
    true
}

/// The characters of `t` from `from` (inclusive) to `to` (exclusive).
pub fn sub_chars(t: &Vec<char>, from: usize, to: usize) -> (r: Vec<char>)
    requires
        from <= to <= t@.len(),
    ensures
        r@ == t@.subrange(from as int, to as int),
{
    let mut r: Vec<char> = Vec::new();
    let mut i = from;
    while i < to
        invariant
            from <= i <= to <= t@.len(),
            r@ == t@.subrange(from as int, i as int),
        decreases to - i,
    {
        r.push(t[i]);
        proof {
            assert(t@.subrange(from as int, i + 1 as int) == t@.subrange(from as int, i as int)
                .push(t@[i as int]));
        }
        i = i + 1;
    }
    r
}

/// Appends the characters of `src` to `dst`.
pub fn append_chars(dst: &mut Vec<char>, src: &Vec<char>)
    ensures
        final(dst)@ == old(dst)@ + src@,
{
    let mut i: usize = 0;
    while i < src.len()
        invariant
            i <= src@.len(),
            dst@ == old(dst)@ + src@.take(i as int),
        decreases src@.len() - i,
    {
        dst.push(src[i]);
        proof {
            assert(old(dst)@ + src@.take(i + 1 as int) == (old(dst)@ + src@.take(i as int)).push(
                src@[i as int],
            ));
        }
        i = i + 1;
    }
    proof {
        assert(src@.take(src@.len() as int) == src@);
    }
}

/// Index of the first space in `t` at or after `from`; `t.len()` when none.
pub fn find_space_chars(t: &Vec<char>, from: usize) -> (r: usize)
    requires
        from <= t@.len(),
    ensures
        r == find_space(t@, from as int),
        from <= r <= t@.len(),
    decreases t@.len() - from,
{
    if from >= t.len() {
        t.len()
    } else if t[from] == ' ' {
        from
    } else {
        find_space_chars(t, from + 1)
    }
}

} // verus!
