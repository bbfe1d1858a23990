use npm_cdn::cache::{PackageCache, PACKAGE_CACHE_CAPACITY};
use npm_cdn::document::MinimalPackageData;
use npm_cdn::error::ServerError;
use npm_cdn::package::{
    check_download_status, registry_url, PackageDist, PackageMetadata, PackageVersion,
};
use npm_cdn::strmap::StringMap;

fn metadata() -> PackageMetadata {
    let mut deps: StringMap<String> = StringMap::new();
    deps.insert("loose-envify".to_string(), "^1.1.0".to_string());
    let mut versions: StringMap<PackageVersion> = StringMap::new();
    versions.insert(
        "18.2.0".to_string(),
        PackageVersion {
            dist: PackageDist { tarball: "https://example.com/react-18.2.0.tgz".to_string() },
            dependencies: deps,
        },
    );
    versions.insert(
        "17.0.2".to_string(),
        PackageVersion {
            dist: PackageDist { tarball: "https://example.com/react-17.0.2.tgz".to_string() },
            dependencies: StringMap::new(),
        },
    );
    let mut tags: StringMap<String> = StringMap::new();
    tags.insert("latest".to_string(), "18.2.0".to_string());
    PackageMetadata { name: "react".to_string(), dist_tags: tags, versions }
}

#[test]
fn registry_metadata_is_reduced() {
    let data = MinimalPackageData::from_registry_meta_at(metadata(), 1234);
    assert_eq!(data.name, "react");
    assert_eq!(data.last_updated, Some(1234));
    assert_eq!(data.dist_tags.get(&"latest".to_string()), Some(&"18.2.0".to_string()));
    assert_eq!(data.versions.len(), 2);
    let v = data.versions.get(&"18.2.0".to_string()).unwrap();
    assert_eq!(v.tarball, "https://example.com/react-18.2.0.tgz");
    assert_eq!(v.dependencies.get(&"loose-envify".to_string()), Some(&"^1.1.0".to_string()));
    let v = data.versions.get(&"17.0.2".to_string()).unwrap();
    assert_eq!(v.tarball, "https://example.com/react-17.0.2.tgz");
    assert!(v.dependencies.is_empty());
}

#[test]
fn registry_metadata_is_stamped_now() {
    let data = MinimalPackageData::from_registry_meta(metadata());
    // any clock of this century
    assert!(data.last_updated.unwrap() > 1_600_000_000);
}

#[test]
fn default_package_is_empty_and_stale() {
    let data = MinimalPackageData::default();
    assert_eq!(data.name, "");
    assert!(data.versions.is_empty());
    assert_eq!(data.last_updated, None);
}

#[test]
fn download_url_and_status() {
    assert_eq!(registry_url("left-pad"), "https://registry.npmjs.org/left-pad");
    assert!(check_download_status(200, String::new()).is_ok());
    assert!(check_download_status(299, String::new()).is_ok());
    match check_download_status(404, "u".to_string()) {
        Err(ServerError::PackageMetadataDownloadError { status_code, url }) => {
            assert_eq!(status_code, 404);
            assert_eq!(url, "u");
        }
        _ => panic!("expected an error"),
    }
    assert!(check_download_status(301, String::new()).is_err());
}

#[test]
fn cache_remembers_and_forgets() {
    let mut cache = PackageCache::new();
    let name = "react".to_string();
    assert!(cache.lookup(&name).is_none());
    match cache.record_lookup("react", None) {
        Err(ServerError::PackageNotFound(n)) => assert_eq!(n, "react"),
        _ => panic!("expected a missing package"),
    }
    assert!(cache.lookup(&name).is_none());
    let pkg = MinimalPackageData::from_registry_meta_at(metadata(), 5);
    let shared = cache.record_lookup("react", Some(pkg)).unwrap();
    assert_eq!(shared.last_updated, Some(5));
    assert_eq!(cache.lookup(&name).unwrap().name, "react");
    cache.invalidate(&name);
    assert!(cache.lookup(&name).is_none());
}

#[test]
fn string_map_replaces_values() {
    let mut m: StringMap<u32> = StringMap::new();
    assert!(m.is_empty());
    m.insert("a".to_string(), 1);
    m.insert("b".to_string(), 2);
    m.insert("a".to_string(), 3);
    assert_eq!(m.len(), 2);
    assert_eq!(m.get(&"a".to_string()), Some(&3));
    assert!(m.contains_key(&"b".to_string()));
    assert!(!m.contains_key(&"c".to_string()));
    assert_eq!(m.entries(), &vec![("a".to_string(), 3), ("b".to_string(), 2)]);
    let c = m.clone();
    assert_eq!(c.into_entries(), vec![("a".to_string(), 3), ("b".to_string(), 2)]);
}

#[test]
fn full_cache_evicts_least_recently_used() {
    let mut cache = PackageCache::new();
    for i in 0..PACKAGE_CACHE_CAPACITY {
        let name = format!("pkg-{}", i);
        let pkg = MinimalPackageData { name: name.clone(), ..MinimalPackageData::default() };
        cache.record_lookup(&name, Some(pkg)).unwrap();
    }
    // pkg-0 becomes the most recently used, so pkg-1 is now the least
    assert!(cache.lookup(&"pkg-0".to_string()).is_some());
    let pkg = MinimalPackageData { name: "new".to_string(), ..MinimalPackageData::default() };
    cache.record_lookup("new", Some(pkg)).unwrap();
    assert!(cache.lookup(&"pkg-1".to_string()).is_none());
    assert!(cache.lookup(&"pkg-0".to_string()).is_some());
    assert!(cache.lookup(&"pkg-2".to_string()).is_some());
    assert!(cache.lookup(&"new".to_string()).is_some());
}

#[test]
fn cache_below_capacity_evicts_nothing() {
    let mut cache = PackageCache::new();
    for i in 0..10 {
        let name = format!("p{}", i);
        let pkg = MinimalPackageData { name: name.clone(), ..MinimalPackageData::default() };
        cache.record_lookup(&name, Some(pkg)).unwrap();
    }
    for i in 0..10 {
        assert!(cache.lookup(&format!("p{}", i)).is_some());
    }
}

#[test]
fn written_package_is_read_back_not_a_stale_copy() {
    let mut cache = PackageCache::new();
    let name = "react".to_string();
    let old = MinimalPackageData::from_registry_meta_at(metadata(), 1);
    cache.record_lookup("react", Some(old)).unwrap();
    // a write of the package invalidates the cached copy
    cache.invalidate(&name);
    assert!(cache.lookup(&name).is_none());
    // the next read goes to the store and records the written package
    let new = MinimalPackageData::from_registry_meta_at(metadata(), 2);
    cache.record_lookup("react", Some(new)).unwrap();
    assert_eq!(cache.lookup(&name).unwrap().last_updated, Some(2));
}
