//! Loading, caching and publishing packages.
use std::sync::Arc;
use vstd::prelude::*;

use crate::registry::query::{entries, PackageRegistry};
use crate::registry::record::{PackageId, PackageRecord, Version, VersionView, Word};
use crate::registry::semver::SemVer;
use crate::registry::versions::{record_of, PackageVersions};

verus! {

/// What a store needs to know of an assembled package.
#[derive(Debug)]
pub struct Package {
    pub name: PackageId,
    pub version: SemVer,
    pub dependency_commitment: Word,
}

/// An error that is told to the user.
#[derive(Debug)]
pub struct Report {
    pub message: String,
}

/// Where assembled packages are loaded from.
pub trait PackageProvider {
    /// Loads the package at a version.
    fn load_package(&self, package: &PackageId, version: &Version) -> Result<Arc<Package>, Report>;
}

/// What both resolves packages and loads them.
pub trait PackageRegistryAndProvider: PackageRegistry + PackageProvider {

}

impl<T: PackageProvider + PackageRegistry> PackageRegistryAndProvider for T {

}

/// An index that records can be added to.
pub trait PackageIndex: PackageRegistry {
    type Error;

    /// Registers the metadata of a package. A second record for the same semantic version of a
    /// package has to be rejected.
    fn register(&mut self, name: PackageId, record: PackageRecord) -> (registered: Result<
        (),
        Self::Error,
    >)
        ensures
            record_of(entries(old(self).known(name@)), record.of().version) is Some
                ==> registered is Err,
    ;
}

/// A cache of the packages that were resolved during assembly.
pub trait PackageCache: PackageRegistryAndProvider {
    type Error;

    /// Caches a package. Gives back the version under which it is stored.
    fn cache_package(&mut self, package: Arc<Package>) -> Result<Version, Self::Error>;
}

/// A store in which packages are published.
pub trait PackageStore: PackageCache {
    /// Publishes a package. Gives back the version under which it is stored.
    fn publish_package(&mut self, package: Arc<Package>) -> Result<Version, Self::Error>;
}

/// Why [`NoPackageStore`] refused.
#[derive(Debug)]
pub struct NoPackageStoreError {
    pub message: String,
}

/// A package store that neither loads nor publishes. A package that is to be cached is taken and
/// not kept.
#[derive(Debug)]
pub struct NoPackageStore;

impl Default for NoPackageStore {
    fn default() -> (store: NoPackageStore)
        ensures
            store == NoPackageStore,
    {
        NoPackageStore
    }
}

/// The message about a package that is refused.
pub open spec fn refusal(verb: Seq<char>, name: Seq<char>, version: Seq<char>) -> Seq<char> {
    "cannot "@ + verb + " package "@ + name + "@"@ + version
}

/// Writes the message about a package that is refused.
fn refuse(verb: &str, name: &PackageId, version: &SemVer) -> (message: String)
    ensures
        message@ == refusal(verb@, name@, version@),
{
    let mut message: String = "cannot ".to_owned();
    message.append(verb);
    message.append(" package ");
    message.append(name.name.as_str());
    message.append("@");
    message.append(version.as_str());
    message
}

impl PackageRegistry for NoPackageStore {
    open spec fn known(&self, package: Seq<char>) -> Option<PackageVersions> {
        None
    }

    fn available_versions(&self, package: &PackageId) -> (versions: Option<&PackageVersions>) {
        None
    }
}

impl PackageProvider for NoPackageStore {
    /// Refuses. How the message shows the version is left open.
    fn load_package(&self, package: &PackageId, version: &Version) -> (loaded: Result<
        Arc<Package>,
        Report,
    >)
        ensures
            loaded is Err,
            exists|shown: Seq<char>|
                loaded->Err_0.message@ == #[trigger] refusal("load"@, package@, shown),
    {
        Err(Report { message: refuse("load", package, &version.version) })
    }
}

impl PackageCache for NoPackageStore {
    type Error = NoPackageStoreError;

    fn cache_package(&mut self, package: Arc<Package>) -> (cached: Result<
        Version,
        NoPackageStoreError,
    >)
        ensures
            cached is Ok,
            cached->Ok_0@ == (VersionView {
                version: package.version@,
                digest: Some(package.dependency_commitment),
            }),
    {
        Ok(Version::new(package.version.clone(), package.dependency_commitment))
    }
}

impl PackageStore for NoPackageStore {
    fn publish_package(&mut self, package: Arc<Package>) -> (published: Result<
        Version,
        NoPackageStoreError,
    >)
        ensures
            published is Err,
            published->Err_0.message@ == refusal("publish"@, package.name@, package.version@),
    {
        Err(NoPackageStoreError { message: refuse("publish", &package.name, &package.version) })
    }
}

} // verus!
