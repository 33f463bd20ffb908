use std::sync::Arc;

use miden_foundation::registry::query::PackageRegistry;
use miden_foundation::registry::record::{
    PackageId, PackageRecord, Version, VersionRequirement, Word,
};
use miden_foundation::registry::requirements::{Dependency, PackageRequirements};
use miden_foundation::registry::semver::{SemVer, VersionReq};
use miden_foundation::registry::store::{
    NoPackageStore, Package, PackageCache, PackageProvider, PackageStore,
};
use miden_foundation::registry::versions::PackageVersions;

fn semver(text: &str) -> SemVer {
    SemVer::parse(text).expect("a version")
}

fn req(text: &str) -> VersionRequirement {
    VersionRequirement::Semantic(VersionReq::parse(text).expect("a requirement"))
}

fn word(a: u64) -> Word {
    Word { a, b: 2, c: 3, d: 4 }
}

fn record(version: &str, digest: u64) -> PackageRecord {
    PackageRecord::new(Version::new(semver(version), word(digest)), vec![])
}

struct Listed {
    versions: PackageVersions,
}

impl PackageRegistry for Listed {
    fn available_versions(&self, _package: &PackageId) -> Option<&PackageVersions> {
        Some(&self.versions)
    }
}

fn listed(records: Vec<(&str, u64)>) -> Listed {
    let mut versions = PackageVersions::new();
    for (version, digest) in records {
        versions.insert(semver(version), record(version, digest));
    }
    Listed { versions }
}

fn text(found: Option<&PackageRecord>) -> Option<&str> {
    found.map(|record| record.semantic_version().as_str())
}

#[test]
fn no_package_store_cache_package_is_noop() {
    let package = Arc::new(Package {
        name: PackageId::from_name("pkg"),
        version: semver("1.0.0"),
        dependency_commitment: word(7),
    });
    let expected = Version::new(package.version.clone(), package.dependency_commitment);

    let mut store = NoPackageStore::default();
    let cached = store
        .cache_package(Arc::clone(&package))
        .expect("no package store should accept cache writes as no-op");

    assert!(cached.same(&expected));
    assert!(store.available_versions(&package.name).is_none());
    let error = store
        .load_package(&package.name, &cached)
        .expect_err("no package store should not persist cache writes");
    assert!(error.message.starts_with("cannot load package pkg@"));
    let error = store
        .publish_package(package)
        .expect_err("no package store should still reject publication");
    assert_eq!(error.message, "cannot publish package pkg@1.0.0");
}

#[test]
fn package_registry_is_available_requires_at_least_one_version() {
    let package = PackageId::from_name("pkg");
    assert!(!listed(vec![]).is_available(&package));
    assert!(listed(vec![("1.0.0", 1)]).is_available(&package));
    assert!(!NoPackageStore.is_available(&package));
}

#[test]
fn versions_are_parsed_and_ordered() {
    assert!(SemVer::parse("1.0").is_none());
    assert!(SemVer::parse("01.0.0").is_none());
    assert!(VersionReq::parse("nonsense").is_none());
    assert!(semver("1.9.0").before(&semver("1.10.0")));
    assert!(!semver("1.10.0").before(&semver("1.9.0")));
    assert!(semver("1.0.0-alpha").before(&semver("1.0.0")));
    assert!(!semver("1.0.0").before(&semver("1.0.0")));
    assert!(semver("1.0.0").same(&semver("1.0.0")));
    assert!(VersionReq::parse("^1.2").unwrap().matches(&semver("1.3.0")));
    assert!(!VersionReq::parse("^1.2").unwrap().matches(&semver("2.0.0")));
}

#[test]
fn versions_are_listed_in_ascending_order() {
    let registry =
        listed(vec![("1.10.0", 1), ("1.2.0", 2), ("0.9.0", 3), ("1.2.0", 4), ("2.0.0", 5)]);
    let versions = &registry.versions;
    let shown: Vec<&str> =
        (0..versions.len()).map(|i| versions.entry(i).key.as_str()).collect();
    assert_eq!(shown, ["0.9.0", "1.2.0", "1.10.0", "2.0.0"]);
    // The later record replaced the earlier one.
    assert_eq!(versions.get(&semver("1.2.0")).unwrap().digest(), Some(word(4)));
    assert!(versions.get(&semver("1.2.1")).is_none());
}

#[test]
fn packages_are_found_by_version_and_digest() {
    let package = PackageId::from_name("pkg");
    let registry = listed(vec![("1.0.0", 1), ("1.1.0", 2), ("1.2.0", 1), ("2.0.0", 3)]);
    let bare = |version: &str| Version { version: semver(version), digest: None };
    let full = |version: &str, digest: u64| Version::new(semver(version), word(digest));

    assert_eq!(text(registry.get_by_semver(&package, &semver("1.1.0"))), Some("1.1.0"));
    assert!(registry.is_semver_available(&package, &semver("1.1.0")));
    assert!(!registry.is_semver_available(&package, &semver("1.1.1")));

    assert_eq!(text(registry.get_by_version(&package, &bare("1.1.0"))), Some("1.1.0"));
    assert_eq!(text(registry.get_by_version(&package, &full("1.1.0", 2))), Some("1.1.0"));
    assert_eq!(text(registry.get_by_version(&package, &full("1.1.0", 9))), None);
    assert!(registry.is_version_available(&package, &full("1.1.0", 2)));

    assert_eq!(text(registry.get_exact_version(&package, &bare("1.1.0"))), None);
    assert_eq!(text(registry.get_exact_version(&package, &full("1.1.0", 2))), Some("1.1.0"));

    assert_eq!(text(registry.get_by_digest(&package, &word(1))), Some("1.2.0"));
    assert_eq!(text(registry.get_by_digest(&package, &word(9))), None);
}

#[test]
fn the_latest_version_that_meets_a_requirement_is_found() {
    let package = PackageId::from_name("pkg");
    let registry = listed(vec![("1.0.0", 1), ("1.10.0", 2), ("1.9.0", 3), ("2.0.0", 1)]);
    let exact = |version: Version| VersionRequirement::Exact(version);

    assert_eq!(text(registry.find_latest(&package, &req("^1"))), Some("1.10.0"));
    assert_eq!(text(registry.find_latest(&package, &req("*"))), Some("2.0.0"));
    assert_eq!(text(registry.find_latest(&package, &req("^3"))), None);
    let by_digest = VersionRequirement::Digest(word(1));
    assert_eq!(text(registry.find_latest(&package, &by_digest)), Some("2.0.0"));
    let full = exact(Version::new(semver("1.9.0"), word(3)));
    assert_eq!(text(registry.find_latest(&package, &full)), Some("1.9.0"));
    let bare = exact(Version { version: semver("1.9.0"), digest: None });
    assert_eq!(text(registry.find_latest(&package, &bare)), None);
}

#[test]
fn records_hold_what_they_are_given() {
    let needs = |name: &str, text: &str| Dependency {
        package: PackageId::from_name(name),
        requirement: req(text),
    };
    let record = PackageRecord::new(
        Version::new(semver("1.0.0"), word(1)),
        vec![needs("b", "^1"), needs("a", "^2"), needs("b", "^3")],
    )
    .with_description("a package".to_string());
    assert_eq!(record.description(), Some("a package"));
    assert_eq!(record.semantic_version().as_str(), "1.0.0");
    assert!(record.version().same(&Version::new(semver("1.0.0"), word(1))));

    let dependencies: &PackageRequirements = record.dependencies();
    assert_eq!(dependencies.len(), 2);
    assert_eq!(dependencies.entry(0).package.name, "a");
    assert_eq!(dependencies.entry(1).package.name, "b");
    // The later of two requirements on one package holds.
    let on_b = dependencies.get(&PackageId::from_name("b")).unwrap();
    assert!(Version { version: semver("3.1.0"), digest: None }.satisfies(on_b));
    assert!(!Version { version: semver("1.0.0"), digest: None }.satisfies(on_b));
    assert!(dependencies.get(&PackageId::from_name("c")).is_none());
}
