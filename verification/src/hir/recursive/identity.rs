//! One group that is defined in two sets of definitions, under other keys or in another order.
use vstd::prelude::*;

use crate::hir::codec::parse::{slot_key, slot_keys};
use crate::hir::codec::rebuild::{
    classes_have_members, counts_cover, keys_stand, member_stands, members_are_listed, permutes,
    positions_are_members, slot_stands, Part,
};
use crate::hir::codec::renaming::{
    names_after, names_left, orders_are_blind, reads_alike, slotless, stands,
};
use crate::hir::codec::written::closed_types_are_slotless;
use crate::hir::recursive::exact::orders_tell_members_apart;
use crate::hir::recursive::likeness::{hides, names_are_as_many, slotless_after, subst_twice};
use crate::hir::recursive::quotient::{classes_agree, linked, onto};
use crate::hir::recursive::rank::classes;
use crate::hir::recursive::rules::member_positions;
use crate::hir::recursive::scope::{
    names, position, position_found, position_of_distinct, subst, subst_closed, subst_unfold, Scope,
};
use crate::hir::shape::{has_var, Shape};

verus! {

// ---------------------------------------------------------------------------------------------
// The members of a class
// ---------------------------------------------------------------------------------------------

impl Part {
    /// What keys stand for where the references inside the group are hidden.
    pub open spec fn veil(self) -> Scope {
        Scope {
            keys: self.keys,
            values: Seq::new(
                self.done.len(),
                |i: int|
                    if self.members().contains(i) {
                        Some(Shape::Var(0))
                    } else {
                        self.done[i]
                    },
            ),
        }
    }

    /// Members that are ordered alike are the same definition, but for the members that they
    /// refer to.
    pub open spec fn told_apart(self) -> bool {
        forall|p: int, q: int|
            0 <= p < self.members().len() && 0 <= q < self.members().len()
                && #[trigger] self.order_keys()[p] == #[trigger] self.order_keys()[q] ==> subst(
                self.body(p),
                self.veil(),
            ) == subst(self.body(q), self.veil())
    }

    /// The key is that of a member, or of a definition that was built.
    pub open spec fn knows(self, key: Seq<char>) -> bool {
        position(self.keys, key, 0) matches Some(i) && (self.members().contains(i) || (
        self.done[i] is Some && names(self.done[i]->0).len() == 0))
    }

    /// Whatever the members mention is known.
    pub open spec fn complete(self) -> bool {
        forall|p: int, key: Seq<char>|
            0 <= p < self.members().len() && #[trigger] names(self.body(p)).contains(key)
                ==> self.knows(key)
    }
}

/// The classes of the members at some positions, by their keys.
pub open spec fn class_keys(x: Part, positions: Seq<int>) -> Seq<Seq<char>> {
    Seq::new(positions.len(), |i: int| slot_key(x.numbers()[positions[i]]))
}

/// What is left of a list of names are the classes that it mentions.
proof fn classes_are_left(x: Part, found: Seq<Seq<char>>)
    requires
        x.wf(),
        forall|key: Seq<char>| #[trigger] found.contains(key) ==> x.knows(key),
    ensures
        names_left(found, x.outer()) == class_keys(x, member_positions(found, x.member_keys())),
    decreases found.len(),
{
    let positions = member_positions(found, x.member_keys());
    let left = names_left(found, x.outer());
    if found.len() == 0 {
        assert(left =~= class_keys(x, positions));
    } else {
        let rest = found.drop_last();
        let last = found[found.len() - 1];
        assert forall|key: Seq<char>| #[trigger] rest.contains(key) implies x.knows(key) by {
            let j = rest.index_of(key);
            assert(found[j] == key);
            assert(found.contains(key));
        }
        classes_are_left(x, rest);
        assert(found.contains(last));
        members_are_listed(x);
        keys_stand(x, last);
        position_found(x.member_keys(), last, 0);
        match position(x.member_keys(), last, 0) {
            Some(p) => {
                member_stands(x, p);
                let c = x.numbers()[p];
                assert(names(Shape::Name(slot_key(c))) =~= seq![slot_key(c)]);
                assert(left =~= class_keys(x, positions));
            },
            None => {
                let i = position(x.keys, last, 0)->0;
                if x.members().contains(i) {
                    let p = x.members().index_of(i);
                    assert(x.members()[p] == i);
                    assert(x.member_keys()[p] == last);
                }
                assert(left =~= class_keys(x, positions));
            },
        }
    }
}

/// Every slot key stands for the same back-reference.
spec fn slots_hidden(n: nat) -> Scope {
    Scope { keys: slot_keys(n), values: Seq::new(n, |i: int| Some(Shape::Var(0))) }
}

/// Every slot key stands for its own back-reference.
spec fn slots_shown(n: nat) -> Scope {
    Scope { keys: slot_keys(n), values: Seq::new(n, |i: int| Some(Shape::Var(i as nat))) }
}

/// A member's definition with its references to classes by their keys.
proof fn members_by_class(x: Part, p: int)
    requires
        x.wf(),
        x.complete(),
        0 <= p < x.members().len(),
    ensures
        slotless(subst(x.body(p), x.outer())),
        names(subst(x.body(p), x.outer())) == class_keys(x, x.links()[p]),
        hides(slots_hidden(x.count()), class_keys(x, x.links()[p])),
        subst(subst(x.body(p), x.outer()), slots_hidden(x.count())) == subst(x.body(p), x.veil()),
        subst(subst(x.body(p), x.outer()), slots_shown(x.count())) == subst(x.body(p), x.inner()),
{
    members_are_listed(x);
    classes_have_members(x);
    let t = x.body(p);
    let n = x.count();
    assert(slotless(x.bodies[x.members()[p]]));
    assert forall|key: Seq<char>| slotless(#[trigger] stands(x.outer(), key)) by {
        reveal(slotless);
        keys_stand(x, key);
        if !has_var(stands(x.outer(), key)) {
            closed_types_are_slotless(stands(x.outer(), key));
        }
    }
    slotless_after(t, x.outer());
    names_after(t, x.outer());
    classes_are_left(x, names(t));
    let found = class_keys(x, x.links()[p]);
    positions_are_members(names(t), x.member_keys());
    assert forall|key: Seq<char>| #[trigger] found.contains(key) implies stands(
        slots_hidden(n),
        key,
    ) == Shape::Var(0) by {
        let i = found.index_of(key);
        assert(found[i] == key);
        let q = x.links()[p][i];
        assert(member_positions(names(t), x.member_keys())[i] == q);
        slot_stands(n, x.numbers()[q]);
    }
    assert forall|key: Seq<char>| #![trigger stands(x.veil(), key)] names(t).contains(key) implies
        subst(stands(x.outer(), key), slots_hidden(n)) == stands(x.veil(), key) by {
        names_resolve(x, p, key);
    }
    subst_twice(t, x.outer(), slots_hidden(n), x.veil());
    assert forall|key: Seq<char>| #![trigger stands(x.inner(), key)] names(t).contains(key) implies
        subst(stands(x.outer(), key), slots_shown(n)) == stands(x.inner(), key) by {
        names_resolve(x, p, key);
    }
    subst_twice(t, x.outer(), slots_shown(n), x.inner());
}

proof fn names_resolve(x: Part, p: int, key: Seq<char>)
    requires
        x.wf(),
        x.complete(),
        0 <= p < x.members().len(),
        names(x.body(p)).contains(key),
    ensures
        subst(stands(x.outer(), key), slots_hidden(x.count())) == stands(x.veil(), key),
        subst(stands(x.outer(), key), slots_shown(x.count())) == stands(x.inner(), key),
{
    members_are_listed(x);
    classes_have_members(x);
    let n = x.count();
    assert(x.knows(key));
    keys_stand(x, key);
    let i = position(x.keys, key, 0)->0;
    if x.members().contains(i) {
        let q = x.members().index_of(i);
        assert(x.members()[q] == i);
        let c = x.numbers()[q];
        assert(c < n);
        slot_stands(n, c);
        subst_unfold(Shape::Name(slot_key(c)), slots_hidden(n));
        subst_unfold(Shape::Name(slot_key(c)), slots_shown(n));
    } else {
        let t = x.done[i]->0;
        assert(x.done[i] is Some);
        subst_closed(t, slots_hidden(n));
        subst_closed(t, slots_shown(n));
    }
}

/// Members of one class have the same definition inside the group.
pub proof fn class_members_agree(x: Part, p: int, q: int)
    requires
        x.wf(),
        x.complete(),
        0 <= p < x.members().len(),
        0 <= q < x.members().len(),
        x.numbers()[p] == x.numbers()[q],
    ensures
        subst(x.body(p), x.inner()) == subst(x.body(q), x.inner()),
{
    classes_have_members(x);
    orders_tell_members_apart(x);
    members_by_class(x, p);
    members_by_class(x, q);
    assert(x.order_keys()[p] == x.order_keys()[q]);
    assert(class_keys(x, x.links()[p]) =~= class_keys(x, x.links()[q])) by {
        assert forall|i: int| 0 <= i < x.links()[p].len() implies x.numbers()[x.links()[p][i]]
            == x.numbers()[x.links()[q][i]] by {
            assert(x.numbers()[x.links()[p][i]] == x.numbers()[x.links()[q][i]]);
        }
    }
    names_are_as_many(
        subst(x.body(p), x.outer()),
        subst(x.body(q), x.outer()),
        slots_hidden(x.count()),
    );
}

// ---------------------------------------------------------------------------------------------
// One group, defined twice
// ---------------------------------------------------------------------------------------------

/// Each key becomes another.
pub open spec fn recasting(
    keys: Seq<Seq<char>>,
    others: Seq<Seq<char>>,
    to: Seq<int>,
) -> Scope {
    Scope {
        keys,
        values: Seq::new(keys.len(), |i: int| Some(Shape::Name(others[to[i]]))),
    }
}

/// The names of a list under their other keys.
pub open spec fn recast_names(
    found: Seq<Seq<char>>,
    keys: Seq<Seq<char>>,
    others: Seq<Seq<char>>,
    to: Seq<int>,
) -> Seq<Seq<char>> {
    Seq::new(found.len(), |k: int| others[to[position(keys, found[k], 0)->0]])
}

/// Names under their other keys are what is left of them.
pub proof fn names_are_recast(
    found: Seq<Seq<char>>,
    keys: Seq<Seq<char>>,
    others: Seq<Seq<char>>,
    to: Seq<int>,
)
    requires
        forall|k: int| 0 <= k < found.len() ==> position(keys, #[trigger] found[k], 0) is Some,
    ensures
        names_left(found, recasting(keys, others, to)) == recast_names(found, keys, others, to),
    decreases found.len(),
{
    let scope = recasting(keys, others, to);
    let made = recast_names(found, keys, others, to);
    if found.len() == 0 {
        assert(names_left(found, scope) =~= made);
    } else {
        let rest = found.drop_last();
        let last = found[found.len() - 1];
        assert forall|k: int| 0 <= k < rest.len() implies position(
            keys,
            #[trigger] rest[k],
            0,
        ) is Some by {
            assert(rest[k] == found[k]);
        }
        names_are_recast(rest, keys, others, to);
        position_found(keys, last, 0);
        let i = position(keys, last, 0)->0;
        assert(stands(scope, last) == Shape::Name(others[to[i]]));
        assert(names(stands(scope, last)) =~= seq![others[to[i]]]);
        assert(made =~= recast_names(rest, keys, others, to).push(others[to[i]]));
        assert(names_left(found, scope) =~= made);
    }
}

/// A component of one set of definitions, and the component that stands for it in another, where
/// the definition at `i` of the one is at `to[i]` of the other.
pub struct Twins {
    pub x: Part,
    pub y: Part,
    pub to: Seq<int>,
}

impl Twins {
    pub open spec fn scope(self) -> Scope {
        recasting(self.x.keys, self.y.keys, self.to)
    }

    /// Where a member stands among the other members.
    pub open spec fn across(self, p: int) -> int {
        self.y.members().index_of(self.to[self.x.members()[p]])
    }

    pub open spec fn back(self, q: int) -> int {
        self.x.members().index_of(self.to.index_of(self.y.members()[q]))
    }

    pub open spec fn wf(self) -> bool {
        &&& self.x.wf()
        &&& self.y.wf()
        &&& self.x.complete()
        &&& self.x.keys.len() == self.y.keys.len()
        &&& self.to.len() == self.x.keys.len()
        &&& permutes(self.to, self.to.len())
        &&& forall|i: int|
            0 <= i < self.to.len() ==> self.y.bodies[#[trigger] self.to[i]] == subst(
                self.x.bodies[i],
                self.scope(),
            )
        &&& forall|i: int|
            0 <= i < self.to.len() ==> (self.x.members().contains(i)
                <==> self.y.members().contains(#[trigger] self.to[i]))
        &&& forall|p: int, key: Seq<char>|
            0 <= p < self.x.members().len() && #[trigger] names(self.x.body(p)).contains(key) ==> {
                let i = position(self.x.keys, key, 0)->0;
                self.x.members().contains(i) || self.x.done[i] == self.y.done[self.to[i]]
            }
    }
}

/// The members correspond one to one.
pub proof fn members_correspond(w: Twins)
    requires
        w.wf(),
    ensures
        forall|i: int| 0 <= i < w.to.len() ==> 0 <= #[trigger] w.to[i] < w.to.len()
            && w.to.index_of(w.to[i]) == i,
        forall|p: int|
            0 <= p < w.x.members().len() ==> {
                &&& 0 <= #[trigger] w.across(p) < w.y.members().len()
                &&& w.y.members()[w.across(p)] == w.to[w.x.members()[p]]
                &&& w.y.body(w.across(p)) == subst(w.x.body(p), w.scope())
            },
        forall|q: int|
            0 <= q < w.y.members().len() ==> {
                &&& 0 <= #[trigger] w.back(q) < w.x.members().len()
                &&& w.across(w.back(q)) == q
            },
{
    members_are_listed(w.x);
    members_are_listed(w.y);
    assert forall|i: int| 0 <= i < w.to.len() implies 0 <= #[trigger] w.to[i] < w.to.len()
        && w.to.index_of(w.to[i]) == i by {
        assert(w.to.contains(w.to[i]));
    }
    assert forall|p: int| 0 <= p < w.x.members().len() implies {
        &&& 0 <= #[trigger] w.across(p) < w.y.members().len()
        &&& w.y.members()[w.across(p)] == w.to[w.x.members()[p]]
        &&& w.y.body(w.across(p)) == subst(w.x.body(p), w.scope())
    } by {
        let i = w.x.members()[p];
        assert(w.x.members().contains(i));
        assert(w.y.members().contains(w.to[i]));
    }
    assert forall|q: int| 0 <= q < w.y.members().len() implies {
        &&& 0 <= #[trigger] w.back(q) < w.x.members().len()
        &&& w.across(w.back(q)) == q
    } by {
        let j = w.y.members()[q];
        assert(w.to.contains(j));
        let i = w.to.index_of(j);
        assert(w.to[i] == j);
        assert(w.x.members().contains(i));
        let p = w.x.members().index_of(i);
        assert(w.x.members()[p] == i);
        assert(w.y.members().index_of(w.y.members()[q]) == q);
    }
}

/// What a known key becomes in the other set.
pub proof fn twin_keys(w: Twins, p: int, key: Seq<char>)
    requires
        w.wf(),
        0 <= p < w.x.members().len(),
        names(w.x.body(p)).contains(key),
    ensures
        position(w.x.keys, key, 0) is Some,
        0 <= position(w.x.keys, key, 0)->0 < w.to.len(),
        w.x.keys[position(w.x.keys, key, 0)->0] == key,
        ({
            let i = position(w.x.keys, key, 0)->0;
            let other = w.y.keys[w.to[i]];
            &&& stands(w.scope(), key) == Shape::Name(other)
            &&& position(w.y.keys, other, 0) == Some(w.to[i])
            &&& w.y.members().contains(w.to[i]) == w.x.members().contains(i)
            &&& !w.x.members().contains(i) ==> w.x.done[i] is Some && w.y.done[w.to[i]]
                == w.x.done[i]
        }),
{
    assert(w.x.knows(key));
    members_correspond(w);
    position_found(w.x.keys, key, 0);
    let i = position(w.x.keys, key, 0)->0;
    assert(0 <= w.to[i] < w.to.len());
    position_of_distinct(w.y.keys, w.to[i]);
}

/// Members that correspond are ordered alike.
proof fn twins_are_ordered_alike(w: Twins, p: int)
    requires
        w.wf(),
        0 <= p < w.x.members().len(),
    ensures
        w.x.order_keys()[p] == w.y.order_keys()[w.across(p)],
{
    members_are_listed(w.x);
    members_are_listed(w.y);
    members_correspond(w);
    let t = w.x.body(p);
    assert(slotless(w.x.bodies[w.x.members()[p]]));
    let mixed = Scope {
        keys: w.x.keys,
        values: Seq::new(
            w.x.done.len(),
            |i: int|
                if w.x.members().contains(i) {
                    Some(Shape::Name(w.y.keys[w.to[i]]))
                } else {
                    w.x.done[i]
                },
        ),
    };
    assert forall|key: Seq<char>| #![trigger stands(mixed, key)] names(t).contains(key) implies
        subst(stands(w.scope(), key), w.y.plain()) == stands(mixed, key) by {
        twin_keys(w, p, key);
        let i = position(w.x.keys, key, 0)->0;
        let other = w.y.keys[w.to[i]];
        subst_unfold(Shape::Name(other), w.y.plain());
        assert(w.x.members().contains(i) ==> w.y.done[w.to[i]] is None);
    }
    subst_twice(t, w.scope(), w.y.plain(), mixed);
    assert forall|key: Seq<char>| #[trigger] reads_alike(w.x.plain(), mixed, key) by {
        keys_stand(w.x, key);
    }
    orders_are_blind(t, w.x.plain(), mixed);
}

/// Members that correspond refer to members that correspond.
proof fn twins_refer_alike(w: Twins, found: Seq<Seq<char>>)
    requires
        w.wf(),
        forall|key: Seq<char>| #[trigger] found.contains(key) ==> w.x.knows(key),
    ensures
        ({
            let links = member_positions(found, w.x.member_keys());
            member_positions(
                recast_names(found, w.x.keys, w.y.keys, w.to),
                w.y.member_keys(),
            ) == Seq::new(links.len(), |i: int| w.across(links[i]))
        }),
    decreases found.len(),
{
    let links = member_positions(found, w.x.member_keys());
    let made = recast_names(found, w.x.keys, w.y.keys, w.to);
    let there = member_positions(made, w.y.member_keys());
    if found.len() == 0 {
        assert(there =~= Seq::new(links.len(), |i: int| w.across(links[i])));
    } else {
        let rest = found.drop_last();
        let last = found[found.len() - 1];
        assert forall|key: Seq<char>| #[trigger] rest.contains(key) implies w.x.knows(key) by {
            let j = rest.index_of(key);
            assert(found[j] == key);
            assert(found.contains(key));
        }
        twins_refer_alike(w, rest);
        assert(found.contains(last));
        members_are_listed(w.x);
        members_are_listed(w.y);
        members_correspond(w);
        position_found(w.x.keys, last, 0);
        let i = position(w.x.keys, last, 0)->0;
        let other = w.y.keys[w.to[i]];
        assert(made[made.len() - 1] == other);
        assert(made.drop_last() =~= recast_names(rest, w.x.keys, w.y.keys, w.to));
        position_found(w.x.member_keys(), last, 0);
        position_found(w.y.member_keys(), other, 0);
        match position(w.x.member_keys(), last, 0) {
            Some(p) => {
                assert(w.x.keys[w.x.members()[p]] == last);
                assert(w.x.members()[p] == i);
                let q = w.across(p);
                assert(w.y.member_keys()[q] == other);
                position_of_distinct(w.y.member_keys(), q);
            },
            None => {
                if w.x.members().contains(i) {
                    let p = w.x.members().index_of(i);
                    assert(w.x.member_keys()[p] == last);
                }
                if let Some(q) = position(w.y.member_keys(), other, 0) {
                    let j = w.y.members()[q];
                    assert(w.y.keys[j] == other);
                    assert(w.to[i] == j);
                    assert(w.y.members().contains(w.to[i]));
                }
            },
        }
        assert(there =~= Seq::new(links.len(), |i: int| w.across(links[i])));
    }
}

/// Members that correspond are of the same class.
proof fn twins_are_classed_alike(w: Twins)
    requires
        w.wf(),
    ensures
        w.y.members().len() <= w.x.members().len() ==> {
            &&& w.x.count() == w.y.count()
            &&& forall|p: int|
                0 <= p < w.x.members().len() ==> #[trigger] w.x.numbers()[p]
                    == w.y.numbers()[w.across(p)]
        },
{
    if w.y.members().len() <= w.x.members().len() {
        members_are_listed(w.x);
        members_are_listed(w.y);
        classes_have_members(w.x);
        classes_have_members(w.y);
        members_correspond(w);
        let n = w.x.members().len();
        let m = w.y.members().len();
        let to = Seq::new(n, |p: int| w.across(p));
        let back = Seq::new(m, |q: int| w.back(q));
        assert(onto(to, back)) by {
            assert forall|p: int| 0 <= p < n implies 0 <= #[trigger] to[p] < m by {
                assert(0 <= w.across(p) < m);
            }
            assert forall|q: int| 0 <= q < m implies 0 <= #[trigger] back[q] < n && to[back[q]]
                == q by {
                assert(0 <= w.back(q) < n);
            }
        }
        let a = w.x.order_keys();
        let b = w.y.order_keys();
        let from_a = w.x.links();
        let from_b = w.y.links();
        assert forall|p: int| 0 <= p < a.len() implies #[trigger] a[p] == b[to[p]] by {
            twins_are_ordered_alike(w, p);
        }
        assert(linked(from_a, from_b, to)) by {
            assert forall|p: int| 0 <= p < to.len() implies {
                &&& (#[trigger] from_a[p]).len() == from_b[to[p]].len()
                &&& forall|i: int|
                    0 <= i < from_a[p].len() ==> to[#[trigger] from_a[p][i]] == from_b[to[p]][i]
            } by {
                let t = w.x.body(p);
                let found = names(t);
                assert(0 <= w.across(p) < m);
                assert(w.y.body(w.across(p)) == subst(t, w.scope()));
                assert forall|k: int| 0 <= k < found.len() implies position(
                    w.x.keys,
                    #[trigger] found[k],
                    0,
                ) is Some by {
                    assert(found.contains(found[k]));
                    assert(w.x.knows(found[k]));
                }
                names_after(t, w.scope());
                names_are_recast(found, w.x.keys, w.y.keys, w.to);
                assert forall|key: Seq<char>| #[trigger] found.contains(key) implies w.x.knows(
                    key,
                ) by {
                    assert(names(w.x.body(p)).contains(key));
                }
                twins_refer_alike(w, found);
                assert forall|i: int| 0 <= i < from_a[p].len() implies to[#[trigger] from_a[p][i]]
                    == from_b[to[p]][i] by {
                    assert(0 <= from_a[p][i] < n);
                }
            }
        }
        classes_agree(a, from_a, b, from_b, to, back);
        assert forall|p: int| 0 <= p < n implies #[trigger] w.x.numbers()[p]
            == w.y.numbers()[w.across(p)] by {
            assert(classes(a, from_a)[p] == classes(b, from_b)[to[p]]);
        }
        counts_cover(w.x.numbers(), n);
        counts_cover(w.y.numbers(), m);
        let top = choose|p: int| 0 <= p < n && #[trigger] w.x.numbers()[p] + 1 == w.x.count();
        assert(w.x.numbers()[top] == w.y.numbers()[w.across(top)]);
        assert(0 <= w.across(top) < m);
        let peak = choose|q: int| 0 <= q < m && #[trigger] w.y.numbers()[q] + 1 == w.y.count();
        assert(0 <= w.back(peak) < n);
        assert(w.x.numbers()[w.back(peak)] == w.y.numbers()[w.across(w.back(peak))]);
    }
}

/// The groups have the same definitions.
pub proof fn twins_are_defined_alike(w: Twins)
    requires
        w.wf(),
        w.y.members().len() <= w.x.members().len(),
    ensures
        w.x.definitions() == w.y.definitions(),
        forall|p: int|
            0 <= p < w.x.members().len() ==> #[trigger] w.x.numbers()[p] == w.y.numbers()[w.across(
                p,
            )],
{
    members_are_listed(w.x);
    members_are_listed(w.y);
    classes_have_members(w.x);
    classes_have_members(w.y);
    members_correspond(w);
    twins_are_classed_alike(w);
    assert forall|c: int| 0 <= c < w.x.count() implies #[trigger] w.x.definitions()[c]
        == w.y.definitions()[c] by {
        let q = w.y.spot(c as nat);
        assert(0 <= q < w.y.members().len());
        let p = w.back(q);
        assert(0 <= p < w.x.members().len() && w.across(p) == q);
        assert(w.x.numbers()[p] == c);
        let t = w.x.body(p);
        assert(slotless(w.x.bodies[w.x.members()[p]]));
        assert(w.y.body(w.across(p)) == subst(t, w.scope()));
        assert forall|key: Seq<char>|
            #![trigger stands(w.x.inner(), key)]
            names(t).contains(key) implies subst(stands(w.scope(), key), w.y.inner()) == stands(
            w.x.inner(),
            key,
        ) by {
            twin_keys(w, p, key);
            let i = position(w.x.keys, key, 0)->0;
            let other = w.y.keys[w.to[i]];
            subst_unfold(Shape::Name(other), w.y.inner());
            keys_stand(w.x, key);
            keys_stand(w.y, other);
            if w.x.members().contains(i) {
                let r = w.x.members().index_of(i);
                assert(w.x.members()[r] == i);
                assert(w.x.numbers()[r] == w.y.numbers()[w.across(r)]);
            }
        }
        subst_twice(t, w.scope(), w.y.inner(), w.x.inner());
        let r = w.x.spot(c as nat);
        assert(w.x.numbers()[r] == c);
        class_members_agree(w.x, p, r);
        assert(w.x.definitions()[c] == subst(w.x.body(r), w.x.inner()));
        assert(w.y.definitions()[c] == subst(w.y.body(q), w.y.inner()));
    }
    assert(w.x.definitions() =~= w.y.definitions());
}

} // verus!
