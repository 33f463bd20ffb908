//! The known versions of a package.
use vstd::prelude::*;

use crate::registry::record::{
    meets, PackageRecord, RequirementView, Version, VersionRequirement, VersionView, Word,
};
use crate::registry::semver::{is_semver, semver_before, SemVer};

verus! {

/// A semantic version, and what is known of it.
#[derive(Debug)]
pub struct Entry {
    pub key: SemVer,
    pub record: PackageRecord,
}

/// All known versions of a package, each semantic version once, in ascending order.
#[derive(Debug)]
pub struct PackageVersions {
    entries: Vec<Entry>,
}

/// Each comes before all that follow it, and none occurs twice.
pub open spec fn listed(entries: Seq<Entry>) -> bool {
    &&& forall|i: int, j: int|
        0 <= i < j < entries.len() ==> semver_before(
            (#[trigger] entries[i]).key@,
            (#[trigger] entries[j]).key@,
        )
    &&& forall|i: int, j: int|
        0 <= i < entries.len() && 0 <= j < entries.len() && (#[trigger] entries[i]).key@ == (
        #[trigger] entries[j]).key@ ==> i == j
    &&& forall|i: int| 0 <= i < entries.len() ==> is_semver((#[trigger] entries[i]).key@)
}

/// Position `i` holds the version.
pub open spec fn holds_at(entries: Seq<Entry>, version: Seq<char>, i: int) -> bool {
    0 <= i < entries.len() && entries[i].key@ == version
}

/// The record of a semantic version.
pub open spec fn record_of(entries: Seq<Entry>, version: Seq<char>) -> Option<PackageRecord> {
    if exists|i: int| holds_at(entries, version, i) {
        Some(entries[choose|i: int| holds_at(entries, version, i)].record)
    } else {
        None
    }
}

/// The record of a version. The digest of the content has to be the same where it is given.
pub open spec fn record_of_version(entries: Seq<Entry>, version: VersionView) -> Option<
    PackageRecord,
> {
    match record_of(entries, version.version) {
        Some(record) if version.digest is None || record.of() == version => Some(record),
        _ => None,
    }
}

/// The last record with the given content.
pub open spec fn record_of_digest(entries: Seq<Entry>, digest: Word) -> Option<PackageRecord>
    decreases entries.len(),
{
    if entries.len() == 0 {
        None
    } else if entries.last().record.of().digest == Some(digest) {
        Some(entries.last().record)
    } else {
        record_of_digest(entries.drop_last(), digest)
    }
}

/// The last record whose version meets the requirement.
pub open spec fn last_meeting(entries: Seq<Entry>, requirement: RequirementView) -> Option<
    PackageRecord,
>
    decreases entries.len(),
{
    if entries.len() == 0 {
        None
    } else if meets(entries.last().record.of(), requirement) {
        Some(entries.last().record)
    } else {
        last_meeting(entries.drop_last(), requirement)
    }
}

/// The latest record that meets the requirement. An exact version is looked up by its digest, and
/// is not found without one.
pub open spec fn latest(entries: Seq<Entry>, requirement: RequirementView) -> Option<
    PackageRecord,
> {
    match requirement {
        RequirementView::Exact(version) => if version.digest is None {
            None
        } else {
            record_of_version(entries, version)
        },
        _ => last_meeting(entries, requirement),
    }
}

/// What was found is what was to be found.
pub open spec fn found(outcome: Option<&PackageRecord>, expected: Option<PackageRecord>) -> bool {
    match outcome {
        Some(record) => expected == Some(*record),
        None => expected is None,
    }
}

/// A version that is found meets the requirement, and no version that comes later does. Where
/// none is found, no version meets it.
pub proof fn nothing_later_meets(entries: Seq<Entry>, requirement: RequirementView)
    ensures
        match last_meeting(entries, requirement) {
            Some(record) => exists|i: int|
                {
                    &&& 0 <= i < entries.len()
                    &&& (#[trigger] entries[i]).record == record
                    &&& meets(record.of(), requirement)
                    &&& forall|j: int|
                        i < j < entries.len() ==> !meets(
                            (#[trigger] entries[j]).record.of(),
                            requirement,
                        )
                },
            None => forall|j: int|
                0 <= j < entries.len() ==> !meets(
                    (#[trigger] entries[j]).record.of(),
                    requirement,
                ),
        },
    decreases entries.len(),
{
    if entries.len() > 0 {
        let shorter = entries.drop_last();
        nothing_later_meets(shorter, requirement);
        let last = entries.len() - 1;
        if meets(entries.last().record.of(), requirement) {
            assert(entries[last].record == entries.last().record);
        } else {
            match last_meeting(shorter, requirement) {
                Some(record) => {
                    let i = choose|i: int|
                        {
                            &&& 0 <= i < shorter.len()
                            &&& (#[trigger] shorter[i]).record == record
                            &&& meets(record.of(), requirement)
                            &&& forall|j: int|
                                i < j < shorter.len() ==> !meets(
                                    (#[trigger] shorter[j]).record.of(),
                                    requirement,
                                )
                        };
                    assert(entries[i].record == record);
                    assert forall|j: int| i < j < entries.len() implies !meets(
                        (#[trigger] entries[j]).record.of(),
                        requirement,
                    ) by {
                        if j < last {
                            assert(shorter[j] == entries[j]);
                        }
                    }
                },
                None => {
                    assert forall|j: int| 0 <= j < entries.len() implies !meets(
                        (#[trigger] entries[j]).record.of(),
                        requirement,
                    ) by {
                        if j < last {
                            assert(shorter[j] == entries[j]);
                        }
                    }
                },
            }
        }
    }
}

/// What is at a position is the record of its version.
proof fn held(entries: Seq<Entry>, i: int)
    requires
        listed(entries),
        0 <= i < entries.len(),
    ensures
        record_of(entries, entries[i].key@) == Some(entries[i].record),
{
    assert(holds_at(entries, entries[i].key@, i));
    let j = choose|j: int| holds_at(entries, entries[i].key@, j);
    assert(entries[j].key@ == entries[i].key@);
}

/// Replacing the record at a position changes what is found for its version and nothing else.
proof fn replaced(entries: Seq<Entry>, i: int, entry: Entry, version: Seq<char>)
    requires
        listed(entries),
        0 <= i < entries.len(),
        entry.key@ == entries[i].key@,
    ensures
        listed(entries.update(i, entry)),
        record_of(entries.update(i, entry), version) == if version == entry.key@ {
            Some(entry.record)
        } else {
            record_of(entries, version)
        },
{
    let after = entries.update(i, entry);
    assert forall|j: int| 0 <= j < entries.len() implies (#[trigger] after[j]).key@
        == entries[j].key@ by {}
    assert(listed(after));
    if version == entry.key@ {
        held(after, i);
    } else if exists|j: int| holds_at(entries, version, j) {
        let j = choose|j: int| holds_at(entries, version, j);
        held(entries, j);
        held(after, j);
    } else if exists|j: int| holds_at(after, version, j) {
        let j = choose|j: int| holds_at(after, version, j);
        assert(holds_at(entries, version, j));
    }
}

/// Adding a version at its place changes what is found for it and nothing else.
proof fn added(entries: Seq<Entry>, i: int, entry: Entry, version: Seq<char>)
    requires
        listed(entries),
        is_semver(entry.key@),
        0 <= i <= entries.len(),
        forall|j: int| 0 <= j < i ==> semver_before((#[trigger] entries[j]).key@, entry.key@),
        forall|j: int|
            i <= j < entries.len() ==> semver_before(entry.key@, (#[trigger] entries[j]).key@),
        forall|j: int| 0 <= j < entries.len() ==> (#[trigger] entries[j]).key@ != entry.key@,
    ensures
        listed(entries.insert(i, entry)),
        record_of(entries.insert(i, entry), version) == if version == entry.key@ {
            Some(entry.record)
        } else {
            record_of(entries, version)
        },
{
    let after = entries.insert(i, entry);
    assert forall|j: int| 0 <= j < after.len() implies #[trigger] after[j] == (if j < i {
        entries[j]
    } else if j == i {
        entry
    } else {
        entries[j - 1]
    }) by {}
    assert(listed(after));
    if version == entry.key@ {
        held(after, i);
    } else if exists|j: int| holds_at(entries, version, j) {
        let j = choose|j: int| holds_at(entries, version, j);
        held(entries, j);
        held(after, if j < i { j } else { j + 1 });
    } else if exists|j: int| holds_at(after, version, j) {
        let j = choose|j: int| holds_at(after, version, j);
        assert(holds_at(entries, version, if j < i { j } else { j - 1 }));
    }
}

impl PackageVersions {
    pub closed spec fn view(&self) -> Seq<Entry> {
        self.entries@
    }

    #[verifier::type_invariant]
    spec fn valid(&self) -> bool {
        listed(self.entries@)
    }

    /// No versions.
    pub fn new() -> (made: PackageVersions)
        ensures
            made@ == Seq::<Entry>::empty(),
            listed(made@),
    {
        PackageVersions { entries: Vec::new() }
    }

    /// The number of versions.
    pub fn len(&self) -> (len: usize)
        ensures
            len == self@.len(),
    {
        self.entries.len()
    }

    /// Whether no version is known.
    pub fn is_empty(&self) -> (empty: bool)
        ensures
            empty == (self@.len() == 0),
    {
        self.entries.len() == 0
    }

    /// The version at a position, in ascending order.
    pub fn entry(&self, i: usize) -> (entry: &Entry)
        requires
            i < self@.len(),
        ensures
            *entry == self@[i as int],
            listed(self@),
    {
        proof {
            use_type_invariant(self);
        }
        &self.entries[i]
    }

    /// The record of a semantic version.
    pub fn get(&self, version: &SemVer) -> (record: Option<&PackageRecord>)
        ensures
            found(record, record_of(self@, version@)),
    {
        proof {
            use_type_invariant(self);
        }
        let mut i: usize = 0;
        while i < self.entries.len()
            invariant
                i <= self.entries@.len(),
                listed(self.entries@),
                forall|j: int| 0 <= j < i ==> !holds_at(self.entries@, version@, j),
            decreases self.entries@.len() - i,
        {
            if self.entries[i].key.same(version) {
                proof {
                    held(self.entries@, i as int);
                }
                return Some(&self.entries[i].record);
            }
            i += 1;
        }
        None
    }

    /// The record of a version, of the given content where the digest is known.
    pub fn get_version(&self, version: &Version) -> (record: Option<&PackageRecord>)
        ensures
            found(record, record_of_version(self@, version@)),
    {
        match self.get(&version.version) {
            Some(record) => {
                if version.digest.is_none() || record.version().same(version) {
                    Some(record)
                } else {
                    None
                }
            },
            None => None,
        }
    }

    /// The latest record with the given content.
    pub fn get_digest(&self, digest: &Word) -> (record: Option<&PackageRecord>)
        ensures
            found(record, record_of_digest(self@, *digest)),
    {
        let ghost all = self.entries@;
        let mut i: usize = self.entries.len();
        assert(all.take(i as int) =~= all);
        while i > 0
            invariant
                i <= self.entries@.len(),
                all == self.entries@,
                record_of_digest(all, *digest) == record_of_digest(all.take(i as int), *digest),
            decreases i,
        {
            i -= 1;
            assert(all.take(i + 1).drop_last() =~= all.take(i as int));
            let same: bool = match self.entries[i].record.digest() {
                Some(own) => own == *digest,
                None => false,
            };
            if same {
                return Some(&self.entries[i].record);
            }
        }
        None
    }

    /// The latest record that meets a requirement.
    pub fn latest(&self, requirement: &VersionRequirement) -> (record: Option<&PackageRecord>)
        ensures
            found(record, latest(self@, requirement@)),
    {
        if let VersionRequirement::Exact(version) = requirement {
            return if version.digest.is_none() {
                None
            } else {
                self.get_version(version)
            };
        }
        let ghost all = self.entries@;
        let mut i: usize = self.entries.len();
        assert(all.take(i as int) =~= all);
        while i > 0
            invariant
                i <= self.entries@.len(),
                all == self.entries@,
                last_meeting(all, requirement@) == last_meeting(all.take(i as int), requirement@),
                requirement@ !is Exact,
            decreases i,
        {
            i -= 1;
            assert(all.take(i + 1).drop_last() =~= all.take(i as int));
            if self.entries[i].record.version().satisfies(requirement) {
                return Some(&self.entries[i].record);
            }
        }
        None
    }

    /// Adds a record under a semantic version, in place of the one that was there.
    pub fn insert(&mut self, version: SemVer, record: PackageRecord)
        ensures
            listed(final(self)@),
            record_of(final(self)@, version@) == Some(record),
            forall|other: Seq<char>|
                other != version@ ==> #[trigger] record_of(final(self)@, other) == record_of(
                    old(self)@,
                    other,
                ),
    {
        proof {
            use_type_invariant(&*self);
        }
        let ghost before = self.entries@;
        let ghost name = version@;
        let mut entries: Vec<Entry> = Vec::new();
        std::mem::swap(&mut entries, &mut self.entries);
        let n: usize = entries.len();
        let mut i: usize = 0;
        proof {
            use_type_invariant(&version);
        }
        while i < n && entries[i].key.before(&version)
            invariant
                i <= n,
                n == entries@.len(),
                entries@ == before,
                listed(before),
                forall|j: int| 0 <= j < i ==> semver_before((#[trigger] before[j]).key@, version@),
                forall|j: int| 0 <= j < i ==> (#[trigger] before[j]).key@ != version@,
            decreases n - i,
        {
            i += 1;
        }
        let known: bool = i < n && entries[i].key.same(&version);
        let ghost entry = Entry { key: version, record };
        if known {
            entries.set(i, Entry { key: version, record });
            proof {
                assert forall|other: Seq<char>| true implies #[trigger] record_of(entries@, other)
                    == (if other == name {
                    Some(record)
                } else {
                    record_of(before, other)
                }) by {
                    replaced(before, i as int, entry, other);
                }
                replaced(before, i as int, entry, name);
            }
        } else {
            if i < n {
                let later: bool = version.before(&entries[i].key);
                assert(later);
            }
            entries.insert(i, Entry { key: version, record });
            proof {
                assert forall|j: int| i <= j < before.len() implies semver_before(
                    name,
                    (#[trigger] before[j]).key@,
                ) by {}
                assert forall|j: int| i <= j < before.len() implies (#[trigger] before[j]).key@
                    != name by {}
                assert forall|other: Seq<char>| true implies #[trigger] record_of(entries@, other)
                    == (if other == name {
                    Some(record)
                } else {
                    record_of(before, other)
                }) by {
                    added(before, i as int, entry, other);
                }
                added(before, i as int, entry, name);
            }
        }
        self.entries = entries;
    }
}

} // verus!
