//! What a package requires of others.
use vstd::prelude::*;
use vstd::utf8::{encode_utf8, encode_utf8_decode_utf8};

use crate::hir::recursive::definitions::text_before;
use crate::hir::recursive::key::widened;
use crate::hir::recursive::rank::less_is_an_order;
use crate::hir::recursive::rules::text_less;
use crate::registry::record::{PackageId, RequirementView, VersionRequirement};

verus! {

/// A package that another needs.
#[derive(Debug)]
pub struct Dependency {
    pub package: PackageId,
    pub requirement: VersionRequirement,
}

/// What is required of a package: what the last dependency that names it says.
pub open spec fn required(dependencies: Seq<Dependency>, package: Seq<char>) -> Option<
    RequirementView,
>
    decreases dependencies.len(),
{
    if dependencies.len() == 0 {
        None
    } else if dependencies.last().package@ == package {
        Some(dependencies.last().requirement@)
    } else {
        required(dependencies.drop_last(), package)
    }
}

/// The packages are in ascending order, each named once.
pub open spec fn sorted(dependencies: Seq<Dependency>) -> bool {
    forall|i: int, j: int|
        0 <= i < j < dependencies.len() ==> text_less(
            (#[trigger] dependencies[i]).package@,
            (#[trigger] dependencies[j]).package@,
        )
}

/// Texts are totally ordered.
pub proof fn text_order_is_total(a: Seq<char>, b: Seq<char>, c: Seq<char>)
    ensures
        !text_less(a, a),
        text_less(a, b) && text_less(b, c) ==> text_less(a, c),
        a == b || text_less(a, b) || text_less(b, a),
        text_less(a, b) ==> a != b && !text_less(b, a),
{
    let x = widened(encode_utf8(a), 0);
    let y = widened(encode_utf8(b), 0);
    less_is_an_order(x, y, widened(encode_utf8(c), 0));
    if x == y {
        assert(encode_utf8(a) =~= encode_utf8(b)) by {
            assert forall|i: int| 0 <= i < encode_utf8(a).len() implies encode_utf8(a)[i]
                == encode_utf8(b)[i] by {
                assert(x[i] == y[i]);
            }
            assert(x.len() == y.len());
        }
        encode_utf8_decode_utf8(a);
        encode_utf8_decode_utf8(b);
    }
}

/// What is required of a package that is named once.
proof fn named_once(dependencies: Seq<Dependency>, i: int)
    requires
        sorted(dependencies),
        0 <= i < dependencies.len(),
    ensures
        required(dependencies, dependencies[i].package@) == Some(dependencies[i].requirement@),
    decreases dependencies.len(),
{
    let last = dependencies.len() - 1;
    if i < last {
        let package = dependencies[i].package@;
        text_order_is_total(package, dependencies[last].package@, package);
        assert(dependencies.drop_last()[i] == dependencies[i]);
        named_once(dependencies.drop_last(), i);
    }
}

/// Nothing is required of a package that is not named.
proof fn unnamed(dependencies: Seq<Dependency>, package: Seq<char>)
    requires
        forall|i: int| 0 <= i < dependencies.len() ==> (#[trigger] dependencies[i]).package@ != package,
    ensures
        required(dependencies, package) is None,
    decreases dependencies.len(),
{
    if dependencies.len() > 0 {
        let shorter = dependencies.drop_last();
        assert forall|i: int| 0 <= i < shorter.len() implies (#[trigger] shorter[i]).package@
            != package by {
            assert(shorter[i] == dependencies[i]);
        }
        unnamed(shorter, package);
    }
}

/// Something is required of a package only if it is named.
proof fn named(dependencies: Seq<Dependency>, package: Seq<char>) -> (i: int)
    requires
        required(dependencies, package) is Some,
    ensures
        0 <= i < dependencies.len(),
        dependencies[i].package@ == package,
    decreases dependencies.len(),
{
    if dependencies.last().package@ == package {
        dependencies.len() - 1
    } else {
        let i = named(dependencies.drop_last(), package);
        assert(dependencies.drop_last()[i] == dependencies[i]);
        i
    }
}

/// Two sorted lists that name the same packages with the same requirements, but for one package,
/// say the same of all others.
proof fn same_but_for(a: Seq<Dependency>, b: Seq<Dependency>, entry: Dependency, i: int)
    requires
        sorted(a),
        sorted(b),
        0 <= i < b.len(),
        b[i] == entry,
        forall|j: int|
            0 <= j < a.len() && (#[trigger] a[j]).package@ != entry.package@ ==> b.contains(a[j]),
        forall|j: int|
            0 <= j < b.len() && (#[trigger] b[j]).package@ != entry.package@ ==> a.contains(b[j]),
    ensures
        forall|package: Seq<char>| #[trigger]
            required(b, package) == (if package == entry.package@ {
                Some(entry.requirement@)
            } else {
                required(a, package)
            }),
{
    assert forall|package: Seq<char>| #[trigger]
        required(b, package) == (if package == entry.package@ {
            Some(entry.requirement@)
        } else {
            required(a, package)
        }) by {
        if package == entry.package@ {
            named_once(b, i);
        } else if required(a, package) is Some {
            let j = named(a, package);
            named_once(a, j);
            assert(b.contains(a[j]));
            let k = choose|k: int| 0 <= k < b.len() && b[k] == a[j];
            named_once(b, k);
        } else if required(b, package) is Some {
            let j = named(b, package);
            assert(a.contains(b[j]));
            let k = choose|k: int| 0 <= k < a.len() && a[k] == b[j];
            named_once(a, k);
        }
    }
}

/// What a package requires of others, in the order of their names.
#[derive(Debug)]
pub struct PackageRequirements {
    entries: Vec<Dependency>,
}

impl PackageRequirements {
    pub closed spec fn view(&self) -> Seq<Dependency> {
        self.entries@
    }

    #[verifier::type_invariant]
    pub open spec fn valid(&self) -> bool {
        sorted(self@)
    }

    /// No requirements.
    pub fn new() -> (made: PackageRequirements)
        ensures
            made@ == Seq::<Dependency>::empty(),
    {
        PackageRequirements { entries: Vec::new() }
    }

    /// The requirements of a list. Where a package is named twice, the later one holds.
    pub fn collect(dependencies: Vec<Dependency>) -> (made: PackageRequirements)
        ensures
            sorted(made@),
            forall|package: Seq<char>| #[trigger]
                required(made@, package) == required(dependencies@, package),
    {
        let ghost all = dependencies@;
        let mut rest: Vec<Dependency> = dependencies;
        let mut made: PackageRequirements = PackageRequirements::new();
        let mut turned: Vec<Dependency> = Vec::new();
        while rest.len() > 0
            invariant
                rest@.len() + turned@.len() == all.len(),
                rest@ =~= all.take(rest@.len() as int),
                turned@ =~= all.skip(rest@.len() as int).reverse(),
            decreases rest@.len(),
        {
            if let Some(last) = rest.pop() {
                turned.push(last);
            }
        }
        assert(all.take(0) =~= Seq::<Dependency>::empty());
        while turned.len() > 0
            invariant
                turned@.len() <= all.len(),
                turned@ =~= all.skip(all.len() - turned@.len()).reverse(),
                sorted(made@),
                forall|package: Seq<char>| #[trigger]
                    required(made@, package) == required(
                        all.take(all.len() - turned@.len()),
                        package,
                    ),
            decreases turned@.len(),
        {
            let ghost n = all.len() - turned@.len();
            if let Some(next) = turned.pop() {
                assert(all.take(n + 1).drop_last() =~= all.take(n));
                assert(next == all[n]);
                made.insert(next);
            }
        }
        assert(all.take(all.len() as int) =~= all);
        made
    }

    /// The number of packages.
    pub fn len(&self) -> (len: usize)
        ensures
            len == self@.len(),
    {
        self.entries.len()
    }

    /// Whether nothing is required.
    pub fn is_empty(&self) -> (empty: bool)
        ensures
            empty == (self@.len() == 0),
    {
        self.entries.len() == 0
    }

    /// The requirement at a position, in the order of the names.
    pub fn entry(&self, i: usize) -> (entry: &Dependency)
        requires
            i < self@.len(),
        ensures
            *entry == self@[i as int],
            sorted(self@),
    {
        proof {
            use_type_invariant(self);
        }
        &self.entries[i]
    }

    /// What is required of a package, if it is needed.
    pub fn get(&self, package: &PackageId) -> (requirement: Option<&VersionRequirement>)
        ensures
            match requirement {
                Some(requirement) => required(self@, package@) == Some(requirement@),
                None => required(self@, package@) is None,
            },
    {
        proof {
            use_type_invariant(self);
        }
        let mut i: usize = 0;
        while i < self.entries.len()
            invariant
                i <= self.entries@.len(),
                sorted(self.entries@),
                forall|j: int| 0 <= j < i ==> (#[trigger] self.entries@[j]).package@ != package@,
            decreases self.entries@.len() - i,
        {
            if self.entries[i].package.same(package) {
                proof {
                    named_once(self.entries@, i as int);
                }
                return Some(&self.entries[i].requirement);
            }
            i += 1;
        }
        proof {
            unnamed(self.entries@, package@);
        }
        None
    }

    /// Adds a requirement, in place of the one that was there for the package.
    pub fn insert(&mut self, dependency: Dependency)
        ensures
            sorted(final(self)@),
            forall|package: Seq<char>| #[trigger]
                required(final(self)@, package) == (if package == dependency.package@ {
                    Some(dependency.requirement@)
                } else {
                    required(old(self)@, package)
                }),
    {
        proof {
            use_type_invariant(&*self);
        }
        let ghost before = self.entries@;
        let ghost name = dependency.package@;
        let mut entries: Vec<Dependency> = Vec::new();
        std::mem::swap(&mut entries, &mut self.entries);
        let n: usize = entries.len();
        let mut i: usize = 0;
        while i < n && text_before(&entries[i].package.name, &dependency.package.name)
            invariant
                i <= n,
                n == entries@.len(),
                entries@ == before,
                forall|j: int|
                    0 <= j < i ==> text_less(
                        (#[trigger] before[j]).package@,
                        dependency.package@,
                    ),
            decreases n - i,
        {
            i += 1;
        }
        let known: bool = i < n && entries[i].package.same(&dependency.package);
        let ghost entry = dependency;
        proof {
            assert forall|j: int| i <= j < before.len() && !(known && j == i) implies text_less(
                name,
                (#[trigger] before[j]).package@,
            ) by {
                text_order_is_total(before[i as int].package@, name, name);
                text_order_is_total(name, before[i as int].package@, before[j].package@);
            }
        }
        if known {
            entries.set(i, dependency);
            proof {
                let after = before.update(i as int, entry);
                assert(sorted(after));
                assert forall|j: int|
                    0 <= j < before.len() && (#[trigger] before[j]).package@
                        != name implies after.contains(before[j]) by {
                    assert(after[j] == before[j]);
                }
                assert forall|j: int|
                    0 <= j < after.len() && (#[trigger] after[j]).package@
                        != name implies before.contains(after[j]) by {
                    assert(after[j] == before[j]);
                }
                same_but_for(before, after, entry, i as int);
            }
        } else {
            entries.insert(i, dependency);
            proof {
                let after = before.insert(i as int, entry);
                assert forall|j: int| 0 <= j < after.len() implies #[trigger] after[j] == (if j
                    < i {
                    before[j]
                } else if j == i {
                    entry
                } else {
                    before[j - 1]
                }) by {}
                assert(sorted(after));
                assert forall|j: int|
                    0 <= j < before.len() && (#[trigger] before[j]).package@
                        != name implies after.contains(before[j]) by {
                    assert(after[if j < i {
                        j
                    } else {
                        j + 1
                    }] == before[j]);
                }
                assert forall|j: int|
                    0 <= j < after.len() && (#[trigger] after[j]).package@
                        != name implies before.contains(after[j]) by {
                    assert(before[if j < i {
                        j
                    } else {
                        j - 1
                    }] == after[j]);
                }
                same_but_for(before, after, entry, i as int);
            }
        }
        self.entries = entries;
    }
}

} // verus!
