//! Compatibility groups: which platform tags can live together in one
//! process.

use vstd::prelude::*;
use vstd::string::*;
use crate::text::{chars_of, has_prefix, views};
use crate::tag_grammar::{
    legacy_manylinux, scan_versioned, starts_with, versioned_with,
};
use crate::expand::{joined, read_legacy, same_text};

verus! {

/// Why a platform question has no answer.
#[derive(Clone, Copy, Debug, PartialEq, Eq, Structural)]
pub enum PlatformError {
    /// A macOS tag names an architecture that is not known.
    UnknownMacArch,
    /// The tag has none of the recognised shapes.
    UnsupportedTag,
    /// The architecture tags of an interpreter bundle give no group at all.
    NoCompatGroup,
    /// The host's tags do not narrow the candidate groups down to one.
    AmbiguousGroups,
    /// No tag of the platform says which machine it is.
    UnknownMachine,
}

/// The groups of a macOS tag, by its architecture.
pub open spec fn mac_groups(arch: Seq<char>) -> Result<Seq<Seq<char>>, PlatformError> {
    if arch == "x86_64"@ || arch == "intel"@ || arch == "fat64"@ || arch == "fat3"@ || arch
        == "universal"@ {
        Ok(seq!["macos-x86_64"@])
    } else if arch == "arm64"@ {
        Ok(seq!["macos-arm64"@])
    } else if arch == "universal2"@ {
        Ok(seq!["macos-x86_64"@, "macos-arm64"@])
    } else {
        Err(PlatformError::UnknownMacArch)
    }
}

/// The compatibility groups of a tag.
///
/// A Windows tag is a group of its own. A macOS tag belongs to the groups of
/// its architecture, a fat binary to both. A Linux tag belongs to the group of
/// its C library and architecture, whatever its version.
pub open spec fn groups_of(tag: Seq<char>) -> Result<Seq<Seq<char>>, PlatformError> {
    let mac = versioned_with(tag, "macosx_"@);
    let many = versioned_with(tag, "manylinux_"@);
    let musl = versioned_with(tag, "musllinux_"@);
    if has_prefix(tag, "win"@) {
        Ok(seq![tag])
    } else if mac is Some {
        mac_groups(mac->0.arch)
    } else if many is Some {
        Ok(seq!["manylinux-"@ + many->0.arch])
    } else if musl is Some {
        Ok(seq!["musllinux-"@ + musl->0.arch])
    } else if legacy_manylinux(tag) is Some {
        Ok(seq!["manylinux-"@ + legacy_manylinux(tag)->0.arch])
    } else {
        Err(PlatformError::UnsupportedTag)
    }
}

/// What an executable result says of the groups of a tag.
pub open spec fn groups_match(
    r: Result<Vec<String>, PlatformError>,
    expected: Result<Seq<Seq<char>>, PlatformError>,
) -> bool {
    match r {
        Ok(v) => expected == Ok::<Seq<Seq<char>>, PlatformError>(views(v@)),
        Err(e) => expected == Err::<Seq<Seq<char>>, PlatformError>(e),
    }
}

/// Reads `cs` as `prefix`, then `<digits>_<digits>_<arch>`, and returns where
/// the architecture starts.
pub fn find_versioned(cs: &Vec<char>, prefix: &str) -> (r: Option<usize>)
    ensures
        match r {
            Some(from) => {
                &&& versioned_with(cs@, prefix@) is Some
                &&& from <= cs@.len()
                &&& versioned_with(cs@, prefix@)->0.arch == cs@.subrange(
                    from as int,
                    cs@.len() as int,
                )
            },
            None => versioned_with(cs@, prefix@) is None,
        },
{
    if !starts_with(cs, prefix) {
        return None;
    }
    let p: usize = prefix.unicode_len();
    let len: usize = cs.len();
    match scan_versioned(cs, p) {
        Some((a, b)) => {
            assert(b < len);
            Some(b + 1)
        },
        None => None,
    }
}

/// A vector that holds one string.
pub fn single(s: String) -> (r: Vec<String>)
    ensures
        views(r@) == seq![s@],
{
    let mut out: Vec<String> = Vec::new();
    out.push(s);
    assert(views(out@) =~= seq![s@]);
    out
}

/// The groups of a macOS tag, by its architecture.
pub fn mac_groups_of(arch: &str) -> (r: Result<Vec<String>, PlatformError>)
    ensures
        groups_match(r, mac_groups(arch@)),
{
    if same_text(arch, "x86_64") || same_text(arch, "intel") || same_text(arch, "fat64")
        || same_text(arch, "fat3") || same_text(arch, "universal") {
        Ok(single("macos-x86_64".to_owned()))
    } else if same_text(arch, "arm64") {
        Ok(single("macos-arm64".to_owned()))
    } else if same_text(arch, "universal2") {
        let mut out: Vec<String> = Vec::new();
        out.push("macos-x86_64".to_owned());
        out.push("macos-arm64".to_owned());
        assert(views(out@) =~= seq!["macos-x86_64"@, "macos-arm64"@]);
        Ok(out)
    } else {
        Err(PlatformError::UnknownMacArch)
    }
}

/// The compatibility groups of a tag; an error for a tag that is neither a
/// Windows tag nor of a recognised shape.
pub fn compat_groups(tag: &str) -> (r: Result<Vec<String>, PlatformError>)
    ensures
        groups_match(r, groups_of(tag@)),
{
    let cs = chars_of(tag);
    if starts_with(&cs, "win") {
        return Ok(single(tag.to_owned()));
    }
    if let Some(from) = find_versioned(&cs, "macosx_") {
        return mac_groups_of(tag.substring_char(from, cs.len()));
    }
    if let Some(from) = find_versioned(&cs, "manylinux_") {
        return Ok(single(joined("manylinux-", tag.substring_char(from, cs.len()))));
    }
    if let Some(from) = find_versioned(&cs, "musllinux_") {
        return Ok(single(joined("musllinux-", tag.substring_char(from, cs.len()))));
    }
    if let Some((from, to)) = read_legacy(&cs, "manylinux2014_") {
        return Ok(single(joined("manylinux-", tag.substring_char(from, to))));
    }
    if let Some((from, to)) = read_legacy(&cs, "manylinux2010_") {
        return Ok(single(joined("manylinux-", tag.substring_char(from, to))));
    }
    if let Some((from, to)) = read_legacy(&cs, "manylinux1_") {
        return Ok(single(joined("manylinux-", tag.substring_char(from, to))));
    }
    Err(PlatformError::UnsupportedTag)
}

} // verus!
