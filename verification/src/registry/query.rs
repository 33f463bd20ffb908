//! Looking up packages.
use vstd::prelude::*;

use crate::registry::record::{
    PackageId, PackageRecord, RequirementView, Version, VersionRequirement, Word,
};
use crate::registry::semver::SemVer;
use crate::registry::versions::{
    found, latest, record_of, record_of_digest, record_of_version, Entry, PackageVersions,
};

verus! {

/// The versions among which a package is looked up. An unknown package has none.
pub open spec fn entries(known: Option<PackageVersions>) -> Seq<Entry> {
    match known {
        Some(versions) => versions@,
        None => Seq::empty(),
    }
}

/// Where package metadata and versions are looked up.
pub trait PackageRegistry {
    /// The versions known for a package, if any. A registry that does not say knows none.
    open spec fn known(&self, package: Seq<char>) -> Option<PackageVersions> {
        None
    }

    /// The versions known for a package, if any.
    fn available_versions(&self, package: &PackageId) -> (versions: Option<&PackageVersions>)
        ensures
            match versions {
                Some(versions) => self.known(package@) == Some(*versions),
                None => self.known(package@) is None,
            },
    ;

    /// Whether any version of a package is known.
    fn is_available(&self, package: &PackageId) -> (available: bool)
        ensures
            available == (entries(self.known(package@)).len() > 0),
    {
        match self.available_versions(package) {
            Some(versions) => !versions.is_empty(),
            None => false,
        }
    }

    /// Whether a version of a package is known.
    fn is_version_available(&self, package: &PackageId, version: &Version) -> (available: bool)
        ensures
            available == (record_of_version(entries(self.known(package@)), version@) is Some),
    {
        self.get_by_version(package, version).is_some()
    }

    /// Whether a semantic version of a package is known.
    fn is_semver_available(&self, package: &PackageId, version: &SemVer) -> (available: bool)
        ensures
            available == (record_of(entries(self.known(package@)), version@) is Some),
    {
        self.get_by_semver(package, version).is_some()
    }

    /// The metadata of a package at a version. A digest has to be the same where it is given.
    fn get_by_version(&self, package: &PackageId, version: &Version) -> (record: Option<
        &PackageRecord,
    >)
        ensures
            found(record, record_of_version(entries(self.known(package@)), version@)),
    {
        match self.available_versions(package) {
            Some(versions) => versions.get_version(version),
            None => None,
        }
    }

    /// The metadata of a package at a semantic version.
    fn get_by_semver(&self, package: &PackageId, version: &SemVer) -> (record: Option<
        &PackageRecord,
    >)
        ensures
            found(record, record_of(entries(self.known(package@)), version@)),
    {
        match self.available_versions(package) {
            Some(versions) => versions.get(version),
            None => None,
        }
    }

    /// The metadata of a package at a version that has a digest.
    fn get_exact_version(&self, package: &PackageId, version: &Version) -> (record: Option<
        &PackageRecord,
    >)
        ensures
            found(
                record,
                latest(entries(self.known(package@)), RequirementView::Exact(version@)),
            ),
    {
        if version.digest.is_some() {
            self.get_by_version(package, version)
        } else {
            None
        }
    }

    /// The metadata of the latest version of a package that has the given content.
    fn get_by_digest(&self, package: &PackageId, digest: &Word) -> (record: Option<&PackageRecord>)
        ensures
            found(record, record_of_digest(entries(self.known(package@)), *digest)),
    {
        match self.available_versions(package) {
            Some(versions) => versions.get_digest(digest),
            None => None,
        }
    }

    /// The metadata of the latest version of a package that meets a requirement.
    fn find_latest(&self, package: &PackageId, requirement: &VersionRequirement) -> (record: Option<
        &PackageRecord,
    >)
        ensures
            found(record, latest(entries(self.known(package@)), requirement@)),
    {
        if let VersionRequirement::Exact(version) = requirement {
            return self.get_exact_version(package, version);
        }
        match self.available_versions(package) {
            Some(versions) => versions.latest(requirement),
            None => None,
        }
    }
}

} // verus!
