//! Versions, requirements and the metadata of a published package.
use vstd::prelude::*;

use crate::hir::function_type::same_text;
use crate::registry::requirements::{required, sorted, Dependency, PackageRequirements};
use crate::registry::semver::{semver_matches, SemVer, VersionReq};

verus! {

/// A content digest: four field elements.
#[derive(Debug, Clone, Copy, PartialEq, Eq, Structural)]
pub struct Word {
    pub a: u64,
    pub b: u64,
    pub c: u64,
    pub d: u64,
}

/// The name of a package.
#[derive(Debug)]
pub struct PackageId {
    pub name: String,
}

impl PackageId {
    pub open spec fn view(&self) -> Seq<char> {
        self.name@
    }

    pub fn from_name(name: &str) -> (id: PackageId)
        ensures
            id@ == name@,
    {
        PackageId { name: name.to_owned() }
    }

    /// Whether two names are the same.
    pub fn same(&self, other: &PackageId) -> (same: bool)
        ensures
            same == (self@ == other@),
    {
        same_text(self.name.as_str(), other.name.as_str())
    }
}

/// What a version is.
#[verifier::ext_equal]
pub struct VersionView {
    pub version: Seq<char>,
    pub digest: Option<Word>,
}

/// A published version: a semantic version, and the digest of the content where it is known.
#[derive(Debug)]
pub struct Version {
    pub version: SemVer,
    pub digest: Option<Word>,
}

impl Version {
    pub open spec fn view(&self) -> VersionView {
        VersionView { version: self.version@, digest: self.digest }
    }

    /// The version with known content.
    pub fn new(version: SemVer, digest: Word) -> (made: Version)
        ensures
            made@ == (VersionView { version: version@, digest: Some(digest) }),
    {
        Version { version, digest: Some(digest) }
    }

    /// Whether two versions are the same, digests and all.
    pub fn same(&self, other: &Version) -> (same: bool)
        ensures
            same == (self@ == other@),
    {
        let digests: bool = match (self.digest, other.digest) {
            (Some(a), Some(b)) => a == b,
            (None, None) => true,
            _ => false,
        };
        self.version.same(&other.version) && digests
    }

    /// Whether this version satisfies a requirement.
    pub fn satisfies(&self, requirement: &VersionRequirement) -> (satisfies: bool)
        ensures
            satisfies == meets(self@, requirement@),
    {
        match requirement {
            VersionRequirement::Semantic(req) => req.matches(&self.version),
            VersionRequirement::Digest(digest) => match self.digest {
                Some(own) => own == *digest,
                None => false,
            },
            VersionRequirement::Exact(version) => self.same(version),
        }
    }
}

/// What a version is required to be.
#[verifier::ext_equal]
pub enum RequirementView {
    Semantic(Seq<char>),
    Digest(Word),
    Exact(VersionView),
}

/// What a version is required to be.
#[derive(Debug)]
pub enum VersionRequirement {
    /// A semantic version in some range.
    Semantic(VersionReq),
    /// A version of the given content.
    Digest(Word),
    /// One version only.
    Exact(Version),
}

impl VersionRequirement {
    pub open spec fn view(&self) -> RequirementView {
        match *self {
            VersionRequirement::Semantic(req) => RequirementView::Semantic(req@),
            VersionRequirement::Digest(digest) => RequirementView::Digest(digest),
            VersionRequirement::Exact(version) => RequirementView::Exact(version@),
        }
    }
}

/// A version meets a requirement.
pub open spec fn meets(version: VersionView, requirement: RequirementView) -> bool {
    match requirement {
        RequirementView::Semantic(req) => semver_matches(req, version.version),
        RequirementView::Digest(digest) => version.digest == Some(digest),
        RequirementView::Exact(exact) => version == exact,
    }
}

/// The metadata of one published version of a package.
#[derive(Debug)]
pub struct PackageRecord {
    version: Version,
    description: Option<String>,
    dependencies: PackageRequirements,
}

impl PackageRecord {
    pub closed spec fn of(&self) -> VersionView {
        self.version@
    }

    pub closed spec fn told(&self) -> Option<Seq<char>> {
        match self.description {
            Some(text) => Some(text@),
            None => None,
        }
    }

    pub closed spec fn needs(&self) -> PackageRequirements {
        self.dependencies
    }

    /// A record with the given dependencies and no description. Where a package is named twice,
    /// the later requirement holds.
    pub fn new(version: Version, dependencies: Vec<Dependency>) -> (record: PackageRecord)
        ensures
            record.of() == version@,
            record.told() is None,
            sorted(record.needs()@),
            forall|package: Seq<char>| #[trigger]
                required(record.needs()@, package) == required(dependencies@, package),
    {
        PackageRecord {
            version,
            description: None,
            dependencies: PackageRequirements::collect(dependencies),
        }
    }

    /// This record with a description.
    pub fn with_description(self, description: String) -> (record: PackageRecord)
        ensures
            record.of() == self.of(),
            record.told() == Some(description@),
            record.needs() == self.needs(),
    {
        PackageRecord {
            version: self.version,
            description: Some(description),
            dependencies: self.dependencies,
        }
    }

    /// The published version.
    pub fn version(&self) -> (version: &Version)
        ensures
            version@ == self.of(),
    {
        &self.version
    }

    /// The semantic version of the package.
    pub fn semantic_version(&self) -> (version: &SemVer)
        ensures
            version@ == self.of().version,
    {
        &self.version.version
    }

    /// The digest of the content.
    pub fn digest(&self) -> (digest: Option<Word>)
        ensures
            digest == self.of().digest,
    {
        self.version.digest
    }

    /// The description, if there is one.
    pub fn description(&self) -> (description: Option<&str>)
        ensures
            match description {
                Some(text) => self.told() == Some(text@),
                None => self.told() is None,
            },
    {
        match &self.description {
            Some(text) => Some(text.as_str()),
            None => None,
        }
    }

    /// What the package needs.
    pub fn dependencies(&self) -> (dependencies: &PackageRequirements)
        ensures
            *dependencies == self.needs(),
    {
        &self.dependencies
    }
}

} // verus!
