//! The shapes of platform tags: versioned tags such as
//! `manylinux_2_17_x86_64` or `macosx_11_0_arm64`, and the legacy manylinux
//! aliases.

use vstd::prelude::*;
use vstd::string::*;
use crate::text::{all_digits, all_word, chars_of, decimal_value, has_prefix, has_suffix, is_digit, is_word};

verus! {

/// The end of the longest run of digits of `s` that starts at `from`.
pub open spec fn digits_end(s: Seq<char>, from: int) -> int
    decreases s.len() - from,
{
    if 0 <= from < s.len() && is_digit(s[from]) {
        digits_end(s, from + 1)
    } else {
        from
    }
}

/// The end of the longest run of word characters of `s` that starts at `from`.
pub open spec fn word_end(s: Seq<char>, from: int) -> int
    decreases s.len() - from,
{
    if 0 <= from < s.len() && is_word(s[from]) {
        word_end(s, from + 1)
    } else {
        from
    }
}

/// What a versioned tag holds behind its prefix.
pub ghost struct Versioned {
    pub major: nat,
    pub minor: nat,
    pub arch: Seq<char>,
}

/// Where the two underscores of `<digits>_<digits>_<word characters>` stand
/// when `s`, from `p` to its end, has that form.
pub open spec fn versioned_marks(s: Seq<char>, p: int) -> Option<(int, int)> {
    let a = digits_end(s, p);
    let b = digits_end(s, a + 1);
    if 0 <= p && p < a && a < s.len() && s[a] == '_' && a + 1 < b && b < s.len() && s[b] == '_'
        && word_end(s, b + 1) == s.len() {
        Some((a, b))
    } else {
        None
    }
}

/// Reads `s` from `p` as `<major>_<minor>_<arch>`.
pub open spec fn versioned_at(s: Seq<char>, p: int) -> Option<Versioned> {
    match versioned_marks(s, p) {
        Some((a, b)) => Some(
            Versioned {
                major: decimal_value(s.subrange(p, a)),
                minor: decimal_value(s.subrange(a + 1, b)),
                arch: s.subrange(b + 1, s.len() as int),
            },
        ),
        None => None,
    }
}

/// Reads `s` as `prefix`, then `<major>_<minor>_<arch>`.
pub open spec fn versioned_with(s: Seq<char>, prefix: Seq<char>) -> Option<Versioned> {
    if has_prefix(s, prefix) {
        versioned_at(s, prefix.len() as int)
    } else {
        None
    }
}

/// Reads `s` as `prefix` followed by an architecture: the longest run of word
/// characters behind the prefix. What follows that run is not looked at.
pub open spec fn legacy_with(s: Seq<char>, prefix: Seq<char>) -> Option<Seq<char>> {
    if has_prefix(s, prefix) {
        Some(s.subrange(prefix.len() as int, word_end(s, prefix.len() as int)))
    } else {
        None
    }
}

/// What a legacy manylinux tag stands for: glibc 2.`minor` on `arch`.
pub ghost struct Legacy {
    pub minor: nat,
    pub arch: Seq<char>,
}

/// Reads `s` as a legacy manylinux tag.
pub open spec fn legacy_manylinux(s: Seq<char>) -> Option<Legacy> {
    if legacy_with(s, "manylinux2014_"@) is Some {
        Some(Legacy { minor: 17, arch: legacy_with(s, "manylinux2014_"@)->0 })
    } else if legacy_with(s, "manylinux2010_"@) is Some {
        Some(Legacy { minor: 12, arch: legacy_with(s, "manylinux2010_"@)->0 })
    } else if legacy_with(s, "manylinux1_"@) is Some {
        Some(Legacy { minor: 5, arch: legacy_with(s, "manylinux1_"@)->0 })
    } else {
        None
    }
}

pub proof fn lemma_digits_end_bounds(s: Seq<char>, from: int)
    requires
        0 <= from <= s.len(),
    ensures
        from <= digits_end(s, from) <= s.len(),
        all_digits(s.subrange(from, digits_end(s, from))),
    decreases s.len() - from,
{
    if from < s.len() && is_digit(s[from]) {
        lemma_digits_end_bounds(s, from + 1);
        let e = digits_end(s, from);
        assert forall|i: int| 0 <= i < e - from implies is_digit(
            #[trigger] s.subrange(from, e)[i],
        ) by {
            if i > 0 {
                assert(s.subrange(from, e)[i] == s.subrange(from + 1, e)[i - 1]);
            }
        }
    }
}

pub proof fn lemma_word_end_bounds(s: Seq<char>, from: int)
    requires
        0 <= from <= s.len(),
    ensures
        from <= word_end(s, from) <= s.len(),
        all_word(s.subrange(from, word_end(s, from))),
    decreases s.len() - from,
{
    if from < s.len() && is_word(s[from]) {
        lemma_word_end_bounds(s, from + 1);
        let e = word_end(s, from);
        assert forall|i: int| 0 <= i < e - from implies is_word(
            #[trigger] s.subrange(from, e)[i],
        ) by {
            if i > 0 {
                assert(s.subrange(from, e)[i] == s.subrange(from + 1, e)[i - 1]);
            }
        }
    }
}

/// `c` is an ASCII digit.
pub fn digit(c: char) -> (r: bool)
    ensures
        r == is_digit(c),
{
    let n: u32 = c as u32;
    48 <= n && n <= 57
}

/// `c` is an ASCII letter, an ASCII digit or an underscore.
pub fn word_char(c: char) -> (r: bool)
    ensures
        r == is_word(c),
{
    let n: u32 = c as u32;
    (48 <= n && n <= 57) || (97 <= n && n <= 122) || (65 <= n && n <= 90) || c == '_'
}

/// Finds the end of the run of digits that starts at `from`.
pub fn scan_digits(cs: &Vec<char>, from: usize) -> (e: usize)
    requires
        from <= cs@.len(),
    ensures
        e == digits_end(cs@, from as int),
        from <= e <= cs@.len(),
        all_digits(cs@.subrange(from as int, e as int)),
{
    let mut i: usize = from;
    while i < cs.len() && digit(cs[i])
        invariant
            from <= i <= cs@.len(),
            digits_end(cs@, from as int) == digits_end(cs@, i as int),
        decreases cs@.len() - i,
    {
        i += 1;
    }
    proof {
        lemma_digits_end_bounds(cs@, from as int);
    }
    i
}

/// Finds the end of the run of word characters that starts at `from`.
pub fn scan_word(cs: &Vec<char>, from: usize) -> (e: usize)
    requires
        from <= cs@.len(),
    ensures
        e == word_end(cs@, from as int),
        from <= e <= cs@.len(),
        all_word(cs@.subrange(from as int, e as int)),
{
    let mut i: usize = from;
    while i < cs.len() && word_char(cs[i])
        invariant
            from <= i <= cs@.len(),
            word_end(cs@, from as int) == word_end(cs@, i as int),
        decreases cs@.len() - i,
    {
        i += 1;
    }
    proof {
        lemma_word_end_bounds(cs@, from as int);
    }
    i
}

/// Whether `cs` starts with `prefix`.
pub fn starts_with(cs: &Vec<char>, prefix: &str) -> (r: bool)
    ensures
        r == has_prefix(cs@, prefix@),
{
    let p = chars_of(prefix);
    if p.len() > cs.len() {
        return false;
    }
    let mut i: usize = 0;
    while i < p.len()
        invariant
            i <= p@.len() <= cs@.len(),
            p@ == prefix@,
            cs@.subrange(0, i as int) == p@.subrange(0, i as int),
        decreases p@.len() - i,
    {
        if cs[i] != p[i] {
            proof {
                if has_prefix(cs@, prefix@) {
                    assert(cs@.subrange(0, p@.len() as int)[i as int] == p@[i as int]);
                }
            }
            return false;
        }
        i += 1;
        assert(cs@.subrange(0, i as int) =~= p@.subrange(0, i as int)) by {
            assert forall|k: int| 0 <= k < i implies cs@[k] == p@[k] by {
                if k < i - 1 {
                    assert(cs@.subrange(0, i - 1)[k] == p@.subrange(0, i - 1)[k]);
                }
            }
        }
    }
    assert(p@.subrange(0, p@.len() as int) == p@);
    true
}

/// Whether `cs` ends with `suffix`.
pub fn ends_with(cs: &Vec<char>, suffix: &str) -> (r: bool)
    ensures
        r == has_suffix(cs@, suffix@),
{
    let p = chars_of(suffix);
    if p.len() > cs.len() {
        return false;
    }
    let off: usize = cs.len() - p.len();
    let mut i: usize = 0;
    while i < p.len()
        invariant
            i <= p@.len() <= cs@.len(),
            off == cs@.len() - p@.len(),
            cs@.len() <= usize::MAX,
            p@ == suffix@,
            forall|k: int| 0 <= k < i ==> cs@[off + k] == p@[k],
        decreases p@.len() - i,
    {
        if cs[off + i] != p[i] {
            proof {
                if has_suffix(cs@, suffix@) {
                    assert(cs@.subrange(off as int, cs@.len() as int)[i as int] == p@[i as int]);
                }
            }
            return false;
        }
        i += 1;
    }
    assert(cs@.subrange(off as int, cs@.len() as int) =~= p@);
    true
}

/// Finds the two underscores of `<digits>_<digits>_<word characters>` in
/// `cs` from `p` on, when it has that form up to its end.
pub fn scan_versioned(cs: &Vec<char>, p: usize) -> (r: Option<(usize, usize)>)
    requires
        p <= cs@.len(),
    ensures
        match r {
            Some((a, b)) => versioned_marks(cs@, p as int) == Some((a as int, b as int)) && p < a
                && a + 1 < b && b < cs@.len() && all_digits(cs@.subrange(p as int, a as int))
                && all_digits(cs@.subrange(a + 1, b as int)),
            None => versioned_marks(cs@, p as int) is None,
        },
{
    let a = scan_digits(cs, p);
    if a == p || a >= cs.len() || cs[a] != '_' {
        return None;
    }
    let b = scan_digits(cs, a + 1);
    if b == a + 1 || b >= cs.len() || cs[b] != '_' {
        return None;
    }
    let e = scan_word(cs, b + 1);
    if e != cs.len() {
        return None;
    }
    Some((a, b))
}

} // verus!
