//! Expansion of a platform tag into the tags that every host supporting it
//! also supports, most preferred first.

use vstd::prelude::*;
use vstd::string::*;
use crate::text::{chars_of, decimal, parse_u32, push_decimal, views};
use crate::tag_grammar::{
    legacy_manylinux, scan_versioned, scan_word, starts_with, versioned_with, Versioned,
};

verus! {

/// The prefix of a canonical Linux tag of the given C library.
pub open spec fn linux_prefix(musl: bool) -> Seq<char> {
    if musl {
        "musllinux_"@
    } else {
        "manylinux_"@
    }
}

/// The canonical Linux tag `<many|musl>linux_<major>_<minor>_<arch>`.
pub open spec fn linux_tag(musl: bool, major: nat, minor: nat, arch: Seq<char>) -> Seq<char> {
    linux_prefix(musl) + decimal(major) + "_"@ + decimal(minor) + "_"@ + arch
}

/// The legacy alias of glibc 2.`minor`, where there is one.
pub open spec fn legacy_alias(minor: nat, arch: Seq<char>) -> Option<Seq<char>> {
    if minor == 17 {
        Some("manylinux2014_"@ + arch)
    } else if minor == 12 {
        Some("manylinux2010_"@ + arch)
    } else if minor == 5 {
        Some("manylinux1_"@ + arch)
    } else {
        None
    }
}

/// Whether the tag of this C library and minor version has a legacy alias.
pub open spec fn has_alias(musl: bool, minor: nat) -> bool {
    !musl && (minor == 17 || minor == 12 || minor == 5)
}

/// What one minor version contributes: its canonical tag, then its legacy
/// alias where it has one.
pub open spec fn linux_step(musl: bool, major: nat, minor: nat, arch: Seq<char>) -> Seq<
    Seq<char>,
> {
    if has_alias(musl, minor) {
        seq![linux_tag(musl, major, minor, arch), legacy_alias(minor, arch)->0]
    } else {
        seq![linux_tag(musl, major, minor, arch)]
    }
}

/// The tags of the minor versions below `n`, from `n - 1` down to `0`.
pub open spec fn linux_below(musl: bool, major: nat, n: nat, arch: Seq<char>) -> Seq<Seq<char>>
    decreases n,
{
    if n == 0 {
        Seq::empty()
    } else {
        linux_step(musl, major, (n - 1) as nat, arch) + linux_below(
            musl,
            major,
            (n - 1) as nat,
            arch,
        )
    }
}

/// The macOS tag `macosx_<major>_<minor>_<arch>`.
pub open spec fn mac_tag(major: nat, minor: nat, arch: Seq<char>) -> Seq<char> {
    "macosx_"@ + decimal(major) + "_"@ + decimal(minor) + "_"@ + arch
}

/// The binary formats that a host of the given architecture runs, most
/// preferred first.
pub open spec fn mac_family(arch: Seq<char>) -> Seq<Seq<char>> {
    if arch == "x86_64"@ {
        seq!["x86_64"@, "universal2"@, "intel"@, "fat64"@, "fat3"@, "universal"@]
    } else if arch == "arm64"@ {
        seq!["arm64"@, "universal2"@]
    } else {
        seq![arch]
    }
}

/// The tags of one macOS version, one for each member of the family.
pub open spec fn mac_step(major: nat, minor: nat, family: Seq<Seq<char>>) -> Seq<Seq<char>> {
    Seq::new(family.len(), |i: int| mac_tag(major, minor, family[i]))
}

/// The tags of macOS 10.`n - 1` down to 10.0.
pub open spec fn mac_ten_below(n: nat, family: Seq<Seq<char>>) -> Seq<Seq<char>>
    decreases n,
{
    if n == 0 {
        Seq::empty()
    } else {
        mac_step(10, (n - 1) as nat, family) + mac_ten_below((n - 1) as nat, family)
    }
}

/// The tags of macOS `major`.0 down to 11.0.
pub open spec fn mac_from(major: nat, family: Seq<Seq<char>>) -> Seq<Seq<char>>
    decreases major,
{
    if major < 11 {
        Seq::empty()
    } else {
        mac_step(major, 0, family) + mac_from((major - 1) as nat, family)
    }
}

/// The highest minor version of macOS 10 that a host of the given version
/// supports.
pub open spec fn mac_ten_top(major: nat, minor: nat) -> nat {
    if major == 10 {
        minor
    } else {
        15
    }
}

/// The expansion of a macOS tag of version 10 or later.
pub open spec fn mac_tags(major: nat, minor: nat, arch: Seq<char>) -> Seq<Seq<char>> {
    mac_from(major, mac_family(arch)) + mac_ten_below(
        mac_ten_top(major, minor) + 1,
        mac_family(arch),
    )
}

/// A versioned tag was read and both of its numbers fit in 32 bits.
pub open spec fn fits(v: Option<Versioned>) -> bool {
    v is Some && v->0.major <= u32::MAX && v->0.minor <= u32::MAX
}

/// The expansion of a tag.
///
/// A legacy manylinux tag expands as the canonical tag that it stands for. A
/// canonical Linux tag gives the tags of its minor versions in descending
/// order; a glibc tag of minor version 17, 12 or 5 has its legacy alias
/// directly behind it. A
/// macOS tag of version 10 or later gives, for each version from its own
/// major version down to 11 and then from 10.x down to 10.0, the tags of its
/// architecture family. Any other tag, and a tag with a number that does not
/// fit in 32 bits, stands for itself alone.
pub open spec fn expansion(tag: Seq<char>) -> Seq<Seq<char>> {
    let many = versioned_with(tag, "manylinux_"@);
    let musl = versioned_with(tag, "musllinux_"@);
    let mac = versioned_with(tag, "macosx_"@);
    if legacy_manylinux(tag) is Some {
        linux_below(false, 2, legacy_manylinux(tag)->0.minor + 1, legacy_manylinux(tag)->0.arch)
    } else if fits(many) {
        linux_below(false, many->0.major, many->0.minor + 1, many->0.arch)
    } else if fits(musl) {
        linux_below(true, musl->0.major, musl->0.minor + 1, musl->0.arch)
    } else if fits(mac) && mac->0.major >= 10 {
        mac_tags(mac->0.major, mac->0.minor, mac->0.arch)
    } else {
        seq![tag]
    }
}

/// The views of a vector after a push.
pub proof fn lemma_views_push(v: Seq<String>, s: String)
    ensures
        views(v.push(s)) == views(v).push(s@),
{
    assert(views(v.push(s)) =~= views(v).push(s@));
}

/// Whether two strings hold the same text.
pub fn same_text(a: &str, b: &str) -> (r: bool)
    ensures
        r == (a@ == b@),
{
    let x = a.to_owned();
    let y = b.to_owned();
    x == y
}

/// `head` followed by `tail`, as one string.
pub fn joined(head: &str, tail: &str) -> (r: String)
    ensures
        r@ == head@ + tail@,
{
    let mut s = String::new();
    s.append(head);
    s.append(tail);
    assert(s@ =~= head@ + tail@);
    s
}

/// Builds the canonical Linux tag.
pub fn linux_tag_string(musl: bool, major: u32, minor: u32, arch: &str) -> (r: String)
    ensures
        r@ == linux_tag(musl, major as nat, minor as nat, arch@),
{
    let mut s = String::new();
    if musl {
        s.append("musllinux_");
    } else {
        s.append("manylinux_");
    }
    push_decimal(&mut s, major);
    s.append("_");
    push_decimal(&mut s, minor);
    s.append("_");
    s.append(arch);
    assert(s@ =~= linux_tag(musl, major as nat, minor as nat, arch@));
    s
}

/// Builds the macOS tag.
pub fn mac_tag_string(major: u32, minor: u32, arch: &str) -> (r: String)
    ensures
        r@ == mac_tag(major as nat, minor as nat, arch@),
{
    let mut s = String::new();
    s.append("macosx_");
    push_decimal(&mut s, major);
    s.append("_");
    push_decimal(&mut s, minor);
    s.append("_");
    s.append(arch);
    assert(s@ =~= mac_tag(major as nat, minor as nat, arch@));
    s
}

/// The tags of the minor versions from `max_minor` down to `0`.
pub fn linux_tags(musl: bool, major: u32, max_minor: u32, arch: &str) -> (r: Vec<String>)
    ensures
        views(r@) == linux_below(musl, major as nat, max_minor as nat + 1, arch@),
{
    let mut out: Vec<String> = Vec::new();
    let mut n: u64 = max_minor as u64 + 1;
    assert(views(out@) =~= Seq::<Seq<char>>::empty());
    while n > 0
        invariant
            n <= max_minor as u64 + 1,
            views(out@) + linux_below(musl, major as nat, n as nat, arch@) == linux_below(
                musl,
                major as nat,
                max_minor as nat + 1,
                arch@,
            ),
        decreases n,
    {
        let ghost before = views(out@);
        n -= 1;
        let minor: u32 = n as u32;
        let t = linux_tag_string(musl, major, minor, arch);
        proof {
            lemma_views_push(out@, t);
        }
        out.push(t);
        if !musl {
            if minor == 17 {
                let a = joined("manylinux2014_", arch);
                proof {
                    lemma_views_push(out@, a);
                }
                out.push(a);
            } else if minor == 12 {
                let a = joined("manylinux2010_", arch);
                proof {
                    lemma_views_push(out@, a);
                }
                out.push(a);
            } else if minor == 5 {
                let a = joined("manylinux1_", arch);
                proof {
                    lemma_views_push(out@, a);
                }
                out.push(a);
            }
        }
        assert(views(out@) =~= before + linux_step(musl, major as nat, n as nat, arch@));
        assert(views(out@) + linux_below(musl, major as nat, n as nat, arch@) =~= before
            + linux_below(musl, major as nat, (n + 1) as nat, arch@));
    }
    assert(views(out@) + Seq::<Seq<char>>::empty() =~= views(out@));
    out
}

/// The architecture family of a macOS host.
pub fn mac_family_of(arch: &str) -> (r: Vec<String>)
    ensures
        views(r@) == mac_family(arch@),
{
    let mut out: Vec<String> = Vec::new();
    if same_text(arch, "x86_64") {
        out.push("x86_64".to_owned());
        out.push("universal2".to_owned());
        out.push("intel".to_owned());
        out.push("fat64".to_owned());
        out.push("fat3".to_owned());
        out.push("universal".to_owned());
    } else if same_text(arch, "arm64") {
        out.push("arm64".to_owned());
        out.push("universal2".to_owned());
    } else {
        out.push(arch.to_owned());
    }
    assert(views(out@) =~= mac_family(arch@));
    out
}

/// Appends the tags of one macOS version.
pub fn push_mac_step(out: &mut Vec<String>, major: u32, minor: u32, family: &Vec<String>)
    ensures
        views(final(out)@) == views(old(out)@) + mac_step(
            major as nat,
            minor as nat,
            views(family@),
        ),
{
    let mut i: usize = 0;
    let ghost step = mac_step(major as nat, minor as nat, views(family@));
    assert(views(out@) =~= views(old(out)@) + step.subrange(0, 0));
    while i < family.len()
        invariant
            i <= family@.len(),
            step == mac_step(major as nat, minor as nat, views(family@)),
            views(out@) == views(old(out)@) + step.subrange(0, i as int),
        decreases family@.len() - i,
    {
        let t = mac_tag_string(major, minor, family[i].as_str());
        proof {
            lemma_views_push(out@, t);
            assert((views(old(out)@) + step.subrange(0, i as int)).push(t@) =~= views(old(out)@)
                + step.subrange(0, i + 1));
        }
        out.push(t);
        i += 1;
    }
    assert(step.subrange(0, i as int) =~= step);
}

/// The expansion of a macOS tag of version 10 or later.
pub fn mac_tag_list(major: u32, minor: u32, arch: &str) -> (r: Vec<String>)
    requires
        major >= 10,
    ensures
        views(r@) == mac_tags(major as nat, minor as nat, arch@),
{
    let family = mac_family_of(arch);
    let ghost fam = views(family@);
    let mut out: Vec<String> = Vec::new();
    assert(views(out@) =~= Seq::<Seq<char>>::empty());
    let mut m: u32 = major;
    while m >= 11
        invariant
            m <= major,
            m >= 10,
            fam == views(family@),
            views(out@) + mac_from(m as nat, fam) == mac_from(major as nat, fam),
        decreases m,
    {
        let ghost before = views(out@);
        push_mac_step(&mut out, m, 0, &family);
        m -= 1;
        assert(views(out@) + mac_from(m as nat, fam) =~= before + mac_from((m + 1) as nat, fam));
    }
    assert(views(out@) =~= mac_from(major as nat, fam)) by {
        assert(mac_from(m as nat, fam) =~= Seq::<Seq<char>>::empty());
        assert(views(out@) + Seq::<Seq<char>>::empty() =~= views(out@));
    }
    let top: u32 = if major == 10 {
        minor
    } else {
        15
    };
    let mut n: u64 = top as u64 + 1;
    while n > 0
        invariant
            n <= top as u64 + 1,
            fam == views(family@),
            views(out@) + mac_ten_below(n as nat, fam) == mac_from(major as nat, fam)
                + mac_ten_below(top as nat + 1, fam),
        decreases n,
    {
        let ghost before = views(out@);
        n -= 1;
        push_mac_step(&mut out, 10, n as u32, &family);
        assert(views(out@) + mac_ten_below(n as nat, fam) =~= before + mac_ten_below(
            (n + 1) as nat,
            fam,
        ));
    }
    assert(views(out@) + Seq::<Seq<char>>::empty() =~= views(out@));
    out
}

/// Reads `tag` as `prefix`, then `<major>_<minor>_<arch>`, with both numbers
/// in 32 bits. Returns the numbers and where the architecture starts.
pub fn read_versioned(cs: &Vec<char>, prefix: &str) -> (r: Option<(u32, u32, usize)>)
    ensures
        match r {
            Some((major, minor, from)) => {
                &&& fits(versioned_with(cs@, prefix@))
                &&& versioned_with(cs@, prefix@)->0.major == major
                &&& versioned_with(cs@, prefix@)->0.minor == minor
                &&& from <= cs@.len()
                &&& versioned_with(cs@, prefix@)->0.arch == cs@.subrange(
                    from as int,
                    cs@.len() as int,
                )
            },
            None => !fits(versioned_with(cs@, prefix@)),
        },
{
    if !starts_with(cs, prefix) {
        return None;
    }
    let p: usize = prefix.unicode_len();
    let len: usize = cs.len();
    match scan_versioned(cs, p) {
        Some((a, b)) => {
            assert(b < len);
            let major = parse_u32(cs, p, a);
            let minor = parse_u32(cs, a + 1, b);
            match (major, minor) {
                (Some(x), Some(y)) => Some((x, y, b + 1)),
                _ => None,
            }
        },
        None => None,
    }
}

/// Reads `cs` as `prefix` followed by an architecture, and returns where the
/// architecture starts and ends.
pub fn read_legacy(cs: &Vec<char>, prefix: &str) -> (r: Option<(usize, usize)>)
    ensures
        match r {
            Some((from, to)) => {
                &&& crate::tag_grammar::legacy_with(cs@, prefix@) == Some(
                    cs@.subrange(from as int, to as int),
                )
                &&& from <= to <= cs@.len()
            },
            None => crate::tag_grammar::legacy_with(cs@, prefix@) is None,
        },
{
    if !starts_with(cs, prefix) {
        return None;
    }
    let p: usize = prefix.unicode_len();
    let e = scan_word(cs, p);
    Some((p, e))
}

/// Given a platform tag, returns the tags that are supported wherever it is,
/// most preferred first. An unrecognised tag is passed through unchanged.
pub fn expand_platform_tag(tag: &str) -> (r: Vec<String>)
    ensures
        views(r@) == expansion(tag@),
{
    let cs = chars_of(tag);
    if let Some((from, to)) = read_legacy(&cs, "manylinux2014_") {
        return linux_tags(false, 2, 17, tag.substring_char(from, to));
    }
    if let Some((from, to)) = read_legacy(&cs, "manylinux2010_") {
        return linux_tags(false, 2, 12, tag.substring_char(from, to));
    }
    if let Some((from, to)) = read_legacy(&cs, "manylinux1_") {
        return linux_tags(false, 2, 5, tag.substring_char(from, to));
    }
    if let Some((major, minor, from)) = read_versioned(&cs, "manylinux_") {
        return linux_tags(false, major, minor, tag.substring_char(from, cs.len()));
    }
    if let Some((major, minor, from)) = read_versioned(&cs, "musllinux_") {
        return linux_tags(true, major, minor, tag.substring_char(from, cs.len()));
    }
    if let Some((major, minor, from)) = read_versioned(&cs, "macosx_") {
        if major >= 10 {
            return mac_tag_list(major, minor, tag.substring_char(from, cs.len()));
        }
    }
    let mut out: Vec<String> = Vec::new();
    out.push(tag.to_owned());
    assert(views(out@) =~= seq![tag@]);
    out
}

} // verus!
