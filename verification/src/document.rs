//! The documents of the replicated registry and the minimal form in which
//! the store keeps a package.
use vstd::prelude::*;

use crate::package::{PackageMetadata, PackageVersion};
use crate::strmap::{distinct_keys, key_at, lemma_pairs_map_push, pairs_map, StringMap};

verus! {

/// Where the tarball of a version can be fetched.
#[derive(Debug, Clone)]
pub struct DocumentPackageDist {
    pub tarball: String,
}

/// One version in a replicated registry document.
#[derive(Debug, Clone)]
pub struct DocumentPackageVersion {
    pub dependencies: Option<StringMap<String>>,
    pub optional_dependencies: Option<StringMap<String>>,
    pub dist: DocumentPackageDist,
}

/// A registry document as the replication feed delivers it.
#[derive(Debug, Clone)]
pub struct RegistryDocument {
    pub id: String,
    pub deleted: bool,
    pub dist_tags: Option<StringMap<String>>,
    pub versions: Option<StringMap<DocumentPackageVersion>>,
}

/// What the store keeps of one version: its tarball and its dependencies.
#[derive(Debug, Clone)]
pub struct MinimalPackageVersionData {
    pub tarball: String,
    pub dependencies: StringMap<String>,
}

/// What the store keeps of one package. `last_updated` is the time of the
/// last refresh from the registry, in seconds since the epoch; rows written
/// before that field existed have `None`, which marks them as stale.
#[derive(Debug, Clone)]
pub struct MinimalPackageData {
    pub name: String,
    pub dist_tags: StringMap<String>,
    pub versions: StringMap<MinimalPackageVersionData>,
    pub last_updated: Option<u64>,
}

/// The minimal form of a registry version: its tarball and its dependencies.
pub open spec fn minimal_version(v: PackageVersion) -> MinimalPackageVersionData {
    MinimalPackageVersionData { tarball: v.dist.tarball, dependencies: v.dependencies }
}

/// The seconds elapsed since the Unix epoch, by the system clock (0 where
/// the clock reads a time before the epoch).
///
/// Trusted: calls `std::time::SystemTime::now` and measures it from
/// `UNIX_EPOCH`. Nothing is stated of the result: it is the time.
#[verifier::external_body]
pub fn secs_since_epoch() -> (r: u64) {
    std::time::SystemTime::now().duration_since(std::time::UNIX_EPOCH).map(|d| d.as_secs()).unwrap_or(0)
}

impl Default for MinimalPackageData {
    fn default() -> (r: Self)
        ensures
            r.name@ == Seq::<char>::empty(),
            r.dist_tags@ == Map::<Seq<char>, String>::empty(),
            r.versions@ == Map::<Seq<char>, MinimalPackageVersionData>::empty(),
            r.last_updated == None::<u64>,
    {
        MinimalPackageData {
            name: String::new(),
            dist_tags: StringMap::new(),
            versions: StringMap::new(),
            last_updated: None,
        }
    }
}

impl MinimalPackageData {
    /// The minimal form of the registry document `raw`, stamped with the
    /// current time as its refresh time.
    pub fn from_registry_meta(raw: PackageMetadata) -> (r: MinimalPackageData)
        ensures
            r.name == raw.name,
            r.dist_tags == raw.dist_tags,
            r.versions@ == raw.versions@.map_values(|v: PackageVersion| minimal_version(v)),
            r.last_updated is Some,
    {
        let now: u64 = secs_since_epoch();
        MinimalPackageData::from_registry_meta_at(raw, now)
    }

    /// The minimal form of the registry document `raw`, with `now` as its
    /// refresh time: name and dist-tags kept, each version reduced to its
    /// tarball and dependencies.
    pub fn from_registry_meta_at(raw: PackageMetadata, now: u64) -> (r: MinimalPackageData)
        ensures
            r.name == raw.name,
            r.dist_tags == raw.dist_tags,
            r.versions@ == raw.versions@.map_values(|v: PackageVersion| minimal_version(v)),
            r.last_updated == Some(now),
    {
        let ghost raw_versions: Map<Seq<char>, PackageVersion> = raw.versions@;
        let ghost raw_name: String = raw.name;
        let ghost raw_tags: StringMap<String> = raw.dist_tags;
        let mut data: MinimalPackageData = MinimalPackageData {
            name: raw.name,
            dist_tags: raw.dist_tags,
            versions: StringMap::new(),
            last_updated: Some(now),
        };
        let entries: Vec<(String, PackageVersion)> = raw.versions.into_entries();
        let ghost s: Seq<(String, PackageVersion)> = entries@;
        assert(pairs_map(s.take(0)) =~= Map::<Seq<char>, PackageVersion>::empty());
        assert(data.versions@ =~= pairs_map(s.take(0)).map_values(|w: PackageVersion| minimal_version(w)));
        for e in it: entries.into_iter()
            invariant
                it.seq() == s,
                distinct_keys(s),
                pairs_map(s) == raw_versions,
                data.versions@ == pairs_map(s.take(it.index() as int)).map_values(|w: PackageVersion| minimal_version(w)),
                data.last_updated == Some(now),
                data.name == raw_name,
                data.dist_tags == raw_tags,
        {
            let ghost i: int = it.index() as int;
            let ghost prefix: Seq<(String, PackageVersion)> = s.take(i);
            proof {
                assert(e == s[i]);
                assert(distinct_keys(prefix));
                if pairs_map(prefix).dom().contains(s[i].0@) {
                    let j: int = choose|j: int| key_at(prefix, j, s[i].0@);
                    assert(s[j].0@ == s[i].0@);
                }
                lemma_pairs_map_push(prefix, s[i].0, s[i].1);
                assert(s.take(i + 1) =~= prefix.push(s[i]));
            }
            let (key, value) = e;
            let ghost old_versions: Map<Seq<char>, MinimalPackageVersionData> = data.versions@;
            let ghost k: Seq<char> = key@;
            let ghost v: PackageVersion = value;
            let item: MinimalPackageVersionData = MinimalPackageVersionData {
                tarball: value.dist.tarball,
                dependencies: value.dependencies,
            };
            assert(item == minimal_version(v));
            data.versions.insert(key, item);
            proof {
                assert(data.versions@ == old_versions.insert(k, minimal_version(v)));
                assert(pairs_map(s.take(i + 1)) == pairs_map(prefix).insert(k, v));
                assert(pairs_map(prefix).insert(k, v).map_values(|w: PackageVersion| minimal_version(w)) =~= old_versions.insert(k, minimal_version(v)));
            }
        }
        assert(s.take(s.len() as int) =~= s);
        data
    }
}

} // verus!
