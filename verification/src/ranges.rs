//! Sets of versions, held as the solver's ranges.

use vstd::prelude::*;
use pubgrub::range::Range;
use pubgrub::version::NumberVersion;

verus! {

/// A set of versions, held as a `pubgrub::range::Range` over version keys.
/// The field is open to the caller that drives the solver, which hands such
/// ranges in and takes them out.
#[verifier::external_body]
pub struct VersionRange {
    pub inner: Range<NumberVersion>,
}

/// The version keys that a range holds.
pub uninterp spec fn range_set(r: VersionRange) -> Set<nat>;

/// The keys from `low` up to, but not including, `high`.
pub open spec fn keys_between(low: nat, high: nat) -> Set<nat> {
    Set::new(|k: nat| low <= k && k < high)
}

/// The keys from `low` on, as far as keys go.
pub open spec fn keys_from(low: nat) -> Set<nat> {
    Set::new(|k: nat| low <= k && k <= u32::MAX)
}

/// `pubgrub::range::Range::none`: the range that holds no version.
#[verifier::external_body]
pub(crate) fn range_none() -> (r: VersionRange)
    ensures
        range_set(r) == Set::<nat>::empty(),
{
    VersionRange { inner: Range::none() }
}

/// `pubgrub::range::Range::any`: the range that holds every version.
#[verifier::external_body]
pub(crate) fn range_any() -> (r: VersionRange)
    ensures
        range_set(r) == keys_from(0),
{
    VersionRange { inner: Range::any() }
}

/// `pubgrub::range::Range::between`: the versions from `low` up to, but not
/// including, `high`; none where `low` is not below `high`.
#[verifier::external_body]
pub(crate) fn range_between(low: u32, high: u32) -> (r: VersionRange)
    ensures
        range_set(r) == keys_between(low as nat, high as nat),
{
    VersionRange { inner: Range::between(NumberVersion(low), NumberVersion(high)) }
}

/// `pubgrub::range::Range::higher_than`: the versions from `low` on.
#[verifier::external_body]
pub(crate) fn range_higher_than(low: u32) -> (r: VersionRange)
    ensures
        range_set(r) == keys_from(low as nat),
{
    VersionRange { inner: Range::higher_than(NumberVersion(low)) }
}

/// `pubgrub::range::Range::exact`: the one version `v`. The range ends at
/// the version after `v`, so `v` must have one.
#[verifier::external_body]
pub(crate) fn range_exact(v: u32) -> (r: VersionRange)
    requires
        v < u32::MAX,
    ensures
        range_set(r) == set![v as nat],
{
    VersionRange { inner: Range::exact(NumberVersion(v)) }
}

/// `pubgrub::range::Range::union`: the versions of either range.
#[verifier::external_body]
pub(crate) fn range_union(a: &VersionRange, b: &VersionRange) -> (r: VersionRange)
    ensures
        range_set(r) == range_set(*a).union(range_set(*b)),
{
    VersionRange { inner: a.inner.union(&b.inner) }
}

/// `pubgrub::range::Range::intersection`: the versions of both ranges.
#[verifier::external_body]
pub(crate) fn range_intersection(a: &VersionRange, b: &VersionRange) -> (r: VersionRange)
    ensures
        range_set(r) == range_set(*a).intersect(range_set(*b)),
{
    VersionRange { inner: a.inner.intersection(&b.inner) }
}

/// `pubgrub::range::Range::contains`: whether the range holds the version.
#[verifier::external_body]
pub(crate) fn range_contains(r: &VersionRange, v: u32) -> (b: bool)
    ensures
        b == range_set(*r).contains(v as nat),
{
    r.inner.contains(&NumberVersion(v))
}

} // verus!
