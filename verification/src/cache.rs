//! The metadata that a resolve has read, kept by package and version so
//! that each release is read once and every later question gets the same
//! answer.

use vstd::prelude::*;
use elsa::FrozenMap;
use crate::model::PkgVersion;
use crate::resolve::WheelResolveMetadata;

verus! {

/// `elsa::FrozenMap`, a hash map that only grows. Nothing is said of what
/// is inside it but through `frozen_entries`.
#[verifier::external_type_specification]
#[verifier::external_body]
#[verifier::reject_recursive_types(K)]
#[verifier::reject_recursive_types(V)]
#[verifier::reject_recursive_types(S)]
pub struct ExFrozenMap<K, V, S>(elsa::FrozenMap<K, V, S>);

/// A frozen map from package name and version key to metadata.
pub type MetadataMap = FrozenMap<(String, u32), Box<WheelResolveMetadata>>;

/// The metadata of releases by the text of the package name and the key of
/// the version.
pub type Entries = Map<(Seq<char>, nat), WheelResolveMetadata>;

/// What a frozen map of metadata holds, by package name and version key.
pub uninterp spec fn frozen_entries(m: MetadataMap) -> Entries;

/// `elsa::FrozenMap::new`: a map without entries.
#[verifier::external_body]
pub(crate) fn frozen_new() -> (r: MetadataMap)
    ensures
        frozen_entries(r) == Entries::empty(),
{
    FrozenMap::new()
}

/// `elsa::FrozenMap::get`: the entry of a key, if the map has one.
#[verifier::external_body]
pub(crate) fn frozen_get<'a>(
    m: &'a MetadataMap,
    name: &String,
    key: u32,
) -> (r: Option<&'a WheelResolveMetadata>)
    ensures
        match r {
            Some(found) => frozen_entries(*m).contains_key((name@, key as nat)) && *found
                == frozen_entries(*m)[(name@, key as nat)],
            None => !frozen_entries(*m).contains_key((name@, key as nat)),
        },
{
    m.get(&(name.clone(), key))
}

/// `elsa::FrozenMap::insert`: adds an entry for a key that has none. An
/// entry that is there stays as it is, and no other entry changes. Returns
/// the entry that the map holds for the key afterwards.
#[verifier::external_body]
pub(crate) fn frozen_insert<'a>(
    m: &'a mut MetadataMap,
    name: String,
    key: u32,
    value: Box<WheelResolveMetadata>,
) -> (r: &'a WheelResolveMetadata)
    ensures
        *r == frozen_entries(*final(m))[(name@, key as nat)],
        frozen_entries(*final(m)) == if frozen_entries(*old(m)).contains_key((name@, key as nat)) {
            frozen_entries(*old(m))
        } else {
            frozen_entries(*old(m)).insert((name@, key as nat), *value)
        },
{
    m.insert((name, key), value)
}

/// The metadata that a resolve has read so far.
pub struct MetadataCache {
    pub entries: MetadataMap,
}

impl MetadataCache {
    /// The metadata by package name and version key.
    pub open spec fn view(&self) -> Entries {
        frozen_entries(self.entries)
    }

    /// A cache that holds nothing yet.
    pub fn new() -> (r: MetadataCache)
        ensures
            r@ == Entries::empty(),
    {
        MetadataCache { entries: frozen_new() }
    }

    /// The metadata of a release, if it has been read.
    pub fn get(&self, name: &String, version: &PkgVersion) -> (r: Option<&WheelResolveMetadata>)
        ensures
            match r {
                Some(found) => self@.contains_key((name@, version.key as nat)) && *found
                    == self@[(name@, version.key as nat)],
                None => !self@.contains_key((name@, version.key as nat)),
            },
    {
        frozen_get(&self.entries, name, version.key)
    }

    /// Keeps the metadata that was read for a release, unless the release
    /// has metadata already: what was kept first stays. Returns what the
    /// cache holds for the release afterwards.
    pub fn fill(&mut self, name: &String, version: &PkgVersion, fetched: WheelResolveMetadata) -> (r:
        &WheelResolveMetadata)
        ensures
            final(self)@ == if old(self)@.contains_key((name@, version.key as nat)) {
                old(self)@
            } else {
                old(self)@.insert((name@, version.key as nat), fetched)
            },
            *r == final(self)@[(name@, version.key as nat)],
    {
        frozen_insert(&mut self.entries, name.clone(), version.key, Box::new(fetched))
    }
}

} // verus!
