//! Semantic versions and what they are required to be.
use semver::{Version as NativeVersion, VersionReq as NativeVersionReq};
use vstd::prelude::*;

verus! {

/// The text is a semantic version.
pub uninterp spec fn is_semver(text: Seq<char>) -> bool;

/// One semantic version comes before another.
pub uninterp spec fn semver_before(a: Seq<char>, b: Seq<char>) -> bool;

/// The text is a version requirement.
pub uninterp spec fn is_semver_req(text: Seq<char>) -> bool;

/// A semantic version satisfies a version requirement.
pub uninterp spec fn semver_matches(req: Seq<char>, version: Seq<char>) -> bool;

/// Whether a text is a semantic version, by `semver::Version::parse`. Which texts are is not said
/// here.
#[verifier::external_body]
fn parses(text: &str) -> (valid: bool)
    ensures
        valid == is_semver(text@),
{
    NativeVersion::parse(text).is_ok()
}

/// Whether one semantic version comes before another, by `<` of `semver::Version` on the parsed
/// texts. That is a strict total order. A version has one text only, so that neither of two texts
/// comes before the other only if they are the same. What the order is is not said here.
#[verifier::external_body]
fn precedes(a: &str, b: &str) -> (before: bool)
    requires
        is_semver(a@),
        is_semver(b@),
    ensures
        before == semver_before(a@, b@),
        before ==> a@ != b@ && !semver_before(b@, a@),
        !before && a@ != b@ ==> semver_before(b@, a@),
        before ==> forall|c: Seq<char>|
            is_semver(c) && #[trigger] semver_before(b@, c) ==> semver_before(a@, c),
{
    NativeVersion::parse(a).unwrap() < NativeVersion::parse(b).unwrap()
}

/// Whether a text is a version requirement, by `semver::VersionReq::parse`. Which texts are is not
/// said here.
#[verifier::external_body]
fn parses_as_req(text: &str) -> (valid: bool)
    ensures
        valid == is_semver_req(text@),
{
    NativeVersionReq::parse(text).is_ok()
}

/// Whether a version satisfies a requirement, by `semver::VersionReq::matches` on the parsed texts.
/// Which versions do is not said here.
#[verifier::external_body]
fn matches_req(req: &str, version: &str) -> (matches: bool)
    requires
        is_semver_req(req@),
        is_semver(version@),
    ensures
        matches == semver_matches(req@, version@),
{
    NativeVersionReq::parse(req).unwrap().matches(&NativeVersion::parse(version).unwrap())
}

/// A semantic version.
#[derive(Debug)]
pub struct SemVer {
    text: String,
}

impl SemVer {
    pub closed spec fn view(&self) -> Seq<char> {
        self.text@
    }

    #[verifier::type_invariant]
    pub open spec fn valid(&self) -> bool {
        is_semver(self@)
    }

    /// The semantic version that a text spells out.
    pub fn parse(text: &str) -> (parsed: Option<SemVer>)
        ensures
            match parsed {
                Some(version) => is_semver(text@) && version@ == text@,
                None => !is_semver(text@),
            },
    {
        if parses(text) {
            Some(SemVer { text: text.to_owned() })
        } else {
            None
        }
    }

    /// The text of the version.
    pub fn as_str(&self) -> (text: &str)
        ensures
            text@ == self@,
            is_semver(text@),
    {
        proof {
            use_type_invariant(self);
        }
        self.text.as_str()
    }

    /// Whether two versions are the same.
    pub fn same(&self, other: &SemVer) -> (same: bool)
        ensures
            same == (self@ == other@),
    {
        crate::hir::function_type::same_text(self.text.as_str(), other.text.as_str())
    }

    /// Whether this version comes before another.
    pub fn before(&self, other: &SemVer) -> (before: bool)
        ensures
            before == semver_before(self@, other@),
            is_semver(self@),
            is_semver(other@),
            before ==> self@ != other@ && !semver_before(other@, self@),
            !before && self@ != other@ ==> semver_before(other@, self@),
            before ==> forall|c: Seq<char>|
                is_semver(c) && #[trigger] semver_before(other@, c) ==> semver_before(self@, c),
    {
        proof {
            use_type_invariant(self);
            use_type_invariant(other);
        }
        precedes(self.text.as_str(), other.text.as_str())
    }
}

impl Clone for SemVer {
    fn clone(&self) -> (copy: SemVer)
        ensures
            copy@ == self@,
    {
        proof {
            use_type_invariant(self);
        }
        SemVer { text: self.text.clone() }
    }
}

/// A requirement on semantic versions.
#[derive(Debug)]
pub struct VersionReq {
    text: String,
}

impl VersionReq {
    pub closed spec fn view(&self) -> Seq<char> {
        self.text@
    }

    #[verifier::type_invariant]
    pub open spec fn valid(&self) -> bool {
        is_semver_req(self@)
    }

    /// The requirement that a text spells out.
    pub fn parse(text: &str) -> (parsed: Option<VersionReq>)
        ensures
            match parsed {
                Some(req) => is_semver_req(text@) && req@ == text@,
                None => !is_semver_req(text@),
            },
    {
        if parses_as_req(text) {
            Some(VersionReq { text: text.to_owned() })
        } else {
            None
        }
    }

    /// The text of the requirement.
    pub fn as_str(&self) -> (text: &str)
        ensures
            text@ == self@,
    {
        self.text.as_str()
    }

    /// Whether a version satisfies this requirement.
    pub fn matches(&self, version: &SemVer) -> (matches: bool)
        ensures
            matches == semver_matches(self@, version@),
    {
        proof {
            use_type_invariant(self);
        }
        matches_req(self.text.as_str(), version.as_str())
    }
}

} // verus!
