//! Building the definitions of a built group anew gives the same group.
use vstd::prelude::*;

use crate::hir::codec::canonical::{
    canonical, own_references, renamed, renamed_all, renamed_unfold,
};
use crate::hir::codec::parse::{slot_key, slot_keys};
use crate::hir::codec::renaming::{
    names_after, names_left, orders_are_blind, reads_alike, renamed_after, renamed_closed,
    slotless, sound_types_name_nothing, stands, subst_after,
};
use crate::hir::recursive::graph::{
    components, components_are_listed, components_are_mutual, connected_graphs_are_one_component,
    edge, edge_reaches, finish_order, images_reach, leads, mutual, reaches, square,
    walks_are_complete, Graph,
};
use crate::hir::recursive::key::order_key;
use crate::hir::recursive::quotient::{classes_agree, linked, onto};
use crate::hir::recursive::rank::{
    classes, classes_are_dense, classes_are_settled, within, Ordered,
};
use crate::hir::recursive::rules::{
    build_group, build_groups, class_count, group_bodies, group_classes, group_fault, group_keys,
    group_references, hold_graph, is_recursive, key_fault, least_missing, member_keys,
    member_positions, mention_graph, ordered_defect, reference_fault, representative, slotted,
    BuildFault,
};
use crate::hir::recursive::scope::{
    defect, names, position, position_found, position_of_distinct, resolve, subst, subst_all,
    subst_closed, subst_fields, subst_unfold, subst_variants, Scope,
};
use crate::hir::shape::{has_var, Shape};
use crate::hir::types::MAX_RECURSIVE_GROUP_SIZE;

verus! {

// ---------------------------------------------------------------------------------------------
// Slot keys
// ---------------------------------------------------------------------------------------------

pub proof fn slot_keys_differ(i: nat, j: nat)
    requires
        i < 100,
        j < 100,
        slot_key(i) == slot_key(j),
    ensures
        i == j,
{
    let a = slot_key(i);
    let b = slot_key(j);
    assert(a.len() == b.len());
    assert(a[1] == b[1]);
    if i < 10 {
        assert(a.len() == 2);
        assert(j < 10);
    } else {
        assert(a.len() == 3);
        assert(a[2] == b[2]);
    }
}

/// The definitions of a group are found under their own keys, also when they are listed in
/// another order.
proof fn slot_is_found(order: Seq<int>, n: nat, q: int)
    requires
        n <= 100,
        order.no_duplicates(),
        forall|p: int| 0 <= p < order.len() ==> 0 <= #[trigger] order[p] < n,
        0 <= q < order.len(),
    ensures
        position(member_keys(slot_keys(n), order), slot_key(order[q] as nat), 0) == Some(q),
{
    let all = member_keys(slot_keys(n), order);
    assert(all[q] == slot_key(order[q] as nat));
    position_found(all, slot_key(order[q] as nat), 0);
    let p = position(all, slot_key(order[q] as nat), 0)->0;
    assert(all[p] == slot_key(order[p] as nat));
    slot_keys_differ(order[p] as nat, order[q] as nat);
}

pub proof fn slot_stands(n: nat, i: nat)
    requires
        n <= 100,
        i < n,
    ensures
        position(slot_keys(n), slot_key(i), 0) == Some(i as int),
{
    let all = slot_keys(n);
    assert(all[i as int] == slot_key(i));
    position_found(all, slot_key(i), 0);
    let p = position(all, slot_key(i), 0)->0;
    assert(all[p] == slot_key(p as nat));
    slot_keys_differ(p as nat, i);
}

// ---------------------------------------------------------------------------------------------
// Lists of names
// ---------------------------------------------------------------------------------------------

pub proof fn positions_are_members(found: Seq<Seq<char>>, members: Seq<Seq<char>>)
    ensures
        forall|i: int|
            0 <= i < member_positions(found, members).len() ==> {
                let p = #[trigger] member_positions(found, members)[i];
                0 <= p < members.len() && found.contains(members[p])
            },
    decreases found.len(),
{
    if found.len() > 0 {
        let rest = found.drop_last();
        let last = found[found.len() - 1];
        positions_are_members(rest, members);
        position_found(members, last, 0);
        let all = member_positions(found, members);
        let before = member_positions(rest, members);
        assert forall|i: int| 0 <= i < all.len() implies {
            let p = #[trigger] all[i];
            0 <= p < members.len() && found.contains(members[p])
        } by {
            if i < before.len() {
                let p = before[i];
                assert(all[i] == before[i]);
                let j = choose|j: int| 0 <= j < rest.len() && rest[j] == members[p];
                assert(found[j] == members[p]);
            } else {
                assert(found[found.len() - 1] == members[all[i]]);
            }
        }
    }
}

pub proof fn members_have_positions(found: Seq<Seq<char>>, members: Seq<Seq<char>>, r: int)
    requires
        0 <= r < members.len(),
        members.no_duplicates(),
        found.contains(members[r]),
    ensures
        member_positions(found, members).contains(r),
    decreases found.len(),
{
    let rest = found.drop_last();
    let last = found[found.len() - 1];
    let all = member_positions(found, members);
    let before = member_positions(rest, members);
    let j = choose|j: int| 0 <= j < found.len() && found[j] == members[r];
    if j == found.len() - 1 {
        position_of_distinct(members, r);
        assert(all[before.len() as int] == r);
    } else {
        assert(rest[j] == members[r]);
        members_have_positions(rest, members, r);
        let i = choose|i: int| 0 <= i < before.len() && before[i] == r;
        assert(all[i] == r);
    }
}

proof fn names_stay(found: Seq<Seq<char>>, scope: Scope, key: Seq<char>, x: Seq<char>)
    requires
        found.contains(key),
        names(stands(scope, key)).contains(x),
    ensures
        names_left(found, scope).contains(x),
    decreases found.len(),
{
    let rest = found.drop_last();
    let last = found[found.len() - 1];
    let before = names_left(rest, scope);
    let more = names(stands(scope, last));
    let all = names_left(found, scope);
    let j = choose|j: int| 0 <= j < found.len() && found[j] == key;
    if j == found.len() - 1 {
        let i = choose|i: int| 0 <= i < more.len() && more[i] == x;
        assert(all[before.len() + i] == x);
    } else {
        assert(rest[j] == key);
        names_stay(rest, scope, key, x);
        let i = choose|i: int| 0 <= i < before.len() && before[i] == x;
        assert(all[i] == x);
    }
}

// ---------------------------------------------------------------------------------------------
// Classes
// ---------------------------------------------------------------------------------------------

pub proof fn counts_cover(numbers: Seq<nat>, n: nat)
    requires
        n <= numbers.len(),
    ensures
        forall|p: int| 0 <= p < n ==> #[trigger] numbers[p] < class_count(numbers, n),
        n > 0 ==> exists|p: int| 0 <= p < n && #[trigger] numbers[p] + 1 == class_count(numbers, n),
    decreases n,
{
    if n > 0 {
        counts_cover(numbers, (n - 1) as nat);
        if class_count(numbers, n) == numbers[n - 1] + 1 {
            assert(numbers[n - 1] + 1 == class_count(numbers, n));
        }
    }
}

pub proof fn representatives_represent(numbers: Seq<nat>, c: nat, p: int, q: int)
    requires
        0 <= p <= q < numbers.len(),
        numbers[q] == c,
    ensures
        p <= representative(numbers, c, p) < numbers.len(),
        numbers[representative(numbers, c, p)] == c,
    decreases numbers.len() - p,
{
    if numbers[p] != c {
        representatives_represent(numbers, c, p + 1, q);
    }
}

/// Where no name is known, replacing names changes nothing.
pub proof fn subst_nothing(t: Shape, scope: Scope)
    requires
        forall|key: Seq<char>| #[trigger] resolve(scope, key) is None,
    ensures
        subst(t, scope) == t,
    decreases t,
{
    subst_unfold(t, scope);
    match t {
        Shape::Name(key) => {
            assert(resolve(scope, key) is None);
        },
        Shape::Ptr(_, pointee) => {
            subst_nothing(*pointee, scope);
        },
        Shape::Array(element, _) => {
            subst_nothing(*element, scope);
        },
        Shape::List(element) => {
            subst_nothing(*element, scope);
        },
        Shape::Function(f) => {
            assert forall|i: int| 0 <= i < f.params.len() implies subst(
                #[trigger] f.params[i],
                scope,
            ) == f.params[i] by {
                subst_nothing(f.params[i], scope);
            }
            assert forall|i: int| 0 <= i < f.results.len() implies subst(
                #[trigger] f.results[i],
                scope,
            ) == f.results[i] by {
                subst_nothing(f.results[i], scope);
            }
            assert(subst_all(f.params, scope) =~= f.params);
            assert(subst_all(f.results, scope) =~= f.results);
        },
        Shape::Struct(s) => {
            assert forall|i: int| 0 <= i < s.fields.len() implies subst(
                (#[trigger] s.fields[i]).ty,
                scope,
            ) == s.fields[i].ty by {
                subst_nothing(s.fields[i].ty, scope);
            }
            assert(subst_fields(s.fields, scope) =~= s.fields);
        },
        Shape::Enum(e) => {
            subst_nothing(*e.discriminant, scope);
            assert forall|i: int| 0 <= i < e.variants.len() implies (#[trigger] subst_variants(
                e.variants,
                scope,
            )[i]) == e.variants[i] by {
                if let Some(value) = e.variants[i].value {
                    subst_nothing(value, scope);
                }
            }
            assert(subst_variants(e.variants, scope) =~= e.variants);
        },
        _ => {},
    }
}

// ---------------------------------------------------------------------------------------------
// A group and the definitions it was built from
// ---------------------------------------------------------------------------------------------

/// One component of a set of definitions, where `done` holds what was built before it.
pub struct Part {
    pub keys: Seq<Seq<char>>,
    pub bodies: Seq<Shape>,
    pub k: int,
    pub done: Seq<Option<Shape>>,
}

impl Part {
    pub open spec fn graph(self) -> Graph {
        mention_graph(self.keys, self.bodies)
    }

    pub open spec fn members(self) -> Seq<int> {
        components(self.graph())[self.k]
    }

    /// What keys stand for before the group is built.
    pub open spec fn plain(self) -> Scope {
        Scope { keys: self.keys, values: self.done }
    }

    pub open spec fn numbers(self) -> Seq<nat> {
        group_classes(self.keys, self.bodies, self.members(), self.plain())
    }

    /// What keys stand for inside the group.
    pub open spec fn inner(self) -> Scope {
        Scope { keys: self.keys, values: slotted(self.done, self.members(), self.numbers()) }
    }

    /// What keys stand for when the group is built anew.
    pub open spec fn outer(self) -> Scope {
        Scope {
            keys: self.keys,
            values: Seq::new(
                self.done.len(),
                |i: int|
                    if self.members().contains(i) {
                        Some(Shape::Name(slot_key(self.numbers()[self.members().index_of(i)])))
                    } else {
                        self.done[i]
                    },
            ),
        }
    }

    pub open spec fn count(self) -> nat {
        class_count(self.numbers(), self.numbers().len())
    }

    pub open spec fn spot(self, c: nat) -> int {
        representative(self.numbers(), c, 0)
    }

    pub open spec fn body(self, p: int) -> Shape {
        self.bodies[self.members()[p]]
    }

    pub open spec fn definitions(self) -> Seq<Shape> {
        group_bodies(self.keys, self.bodies, self.members(), self.done)
    }

    pub open spec fn order_keys(self) -> Seq<Ordered> {
        group_keys(self.bodies, self.members(), self.plain())
    }

    pub open spec fn links(self) -> Seq<Seq<int>> {
        group_references(self.keys, self.bodies, self.members())
    }

    pub open spec fn member_keys(self) -> Seq<Seq<char>> {
        member_keys(self.keys, self.members())
    }

    /// The definitions have distinct keys, what was built is closed, and nothing of this
    /// component was built.
    pub open spec fn wf(self) -> bool {
        &&& self.keys.len() == self.bodies.len()
        &&& self.keys.len() == self.done.len()
        &&& self.keys.no_duplicates()
        &&& 0 <= self.k < components(self.graph()).len()
        &&& self.members().len() <= MAX_RECURSIVE_GROUP_SIZE
        &&& forall|i: int|
            0 <= i < self.bodies.len() ==> slotless(#[trigger] self.bodies[i]) && (
            self.bodies[i] is Struct || self.bodies[i] is Enum)
        &&& forall|i: int|
            0 <= i < self.done.len() ==> ((#[trigger] self.done[i]) matches Some(t) ==> !has_var(t))
        &&& forall|i: int|
            0 <= i < self.done.len() && self.members().contains(i) ==> (#[trigger] self.done[i])
                is None
    }

    /// The component was built.
    pub open spec fn succeeds(self) -> bool {
        &&& is_recursive(self.keys, self.bodies, self.members())
        &&& forall|c: int|
            0 <= c < self.definitions().len() ==> defect(#[trigger] self.definitions()[c]) is None
    }
}

pub proof fn members_are_listed(x: Part)
    requires
        x.wf(),
    ensures
        square(x.graph()),
        x.graph().len() == x.keys.len(),
        x.members().len() > 0,
        x.members().no_duplicates(),
        forall|p: int|
            0 <= p < x.members().len() ==> {
                &&& 0 <= #[trigger] x.members()[p] < x.keys.len()
                &&& x.members().contains(x.members()[p])
                &&& x.members().index_of(x.members()[p]) == p
            },
        x.member_keys().no_duplicates(),
        x.member_keys().len() == x.members().len(),
{
    assert(square(x.graph()));
    components_are_listed(x.graph(), x.k);
    let members = x.members();
    assert forall|p: int| 0 <= p < members.len() implies {
        &&& 0 <= #[trigger] members[p] < x.keys.len()
        &&& members.contains(members[p])
        &&& members.index_of(members[p]) == p
    } by {
        let q = members.index_of(members[p]);
        assert(members.contains(members[p]));
        assert(members[q] == members[p]);
    }
    let all = x.member_keys();
    assert forall|p: int, q: int| 0 <= p < q < all.len() implies all[p] != all[q] by {
        assert(members[p] != members[q]);
        assert(x.keys[members[p]] != x.keys[members[q]]);
    }
}

/// What a key stands for in each of the three scopes.
pub proof fn keys_stand(x: Part, key: Seq<char>)
    requires
        x.wf(),
    ensures
        match position(x.keys, key, 0) {
            Some(i) => {
                &&& 0 <= i < x.keys.len()
                &&& x.keys[i] == key
                &&& if x.members().contains(i) {
                    let c = x.numbers()[x.members().index_of(i)];
                    &&& stands(x.plain(), key) == Shape::Name(key)
                    &&& stands(x.inner(), key) == Shape::Var(c)
                    &&& stands(x.outer(), key) == Shape::Name(slot_key(c))
                } else {
                    &&& stands(x.inner(), key) == stands(x.plain(), key)
                    &&& stands(x.outer(), key) == stands(x.plain(), key)
                    &&& stands(x.plain(), key) == Shape::Name(key) || !has_var(
                        stands(x.plain(), key),
                    )
                }
            },
            None => {
                &&& stands(x.plain(), key) == Shape::Name(key)
                &&& stands(x.inner(), key) == Shape::Name(key)
                &&& stands(x.outer(), key) == Shape::Name(key)
            },
        },
{
    position_found(x.keys, key, 0);
    if let Some(i) = position(x.keys, key, 0) {
        assert(x.done[i] is Some || x.done[i] is None);
    }
}

/// A member's key is the only one that stands for it.
pub proof fn member_stands(x: Part, p: int)
    requires
        x.wf(),
        0 <= p < x.members().len(),
    ensures
        position(x.keys, x.member_keys()[p], 0) == Some(x.members()[p]),
        stands(x.inner(), x.member_keys()[p]) == Shape::Var(x.numbers()[p]),
        stands(x.outer(), x.member_keys()[p]) == Shape::Name(slot_key(x.numbers()[p])),
{
    members_are_listed(x);
    position_of_distinct(x.keys, x.members()[p]);
    keys_stand(x, x.member_keys()[p]);
}

proof fn outer_names(x: Part, t: Shape)
    requires
        x.wf(),
        slotless(t),
    ensures
        renamed(subst(t, x.inner())) == subst(t, x.outer()),
{
    assert forall|key: Seq<char>| renamed(#[trigger] stands(x.inner(), key)) == stands(
        x.outer(),
        key,
    ) by {
        keys_stand(x, key);
        renamed_unfold(stands(x.inner(), key));
        if !has_var(stands(x.inner(), key)) {
            renamed_closed(stands(x.inner(), key));
        }
    }
    renamed_after(t, x.inner(), x.outer());
}

proof fn outer_orders(x: Part, p: int)
    requires
        x.wf(),
        0 <= p < x.members().len(),
    ensures
        x.order_keys()[p] == order_key(subst(x.body(p), x.outer())),
{
    members_are_listed(x);
    let t = x.bodies[x.members()[p]];
    assert forall|key: Seq<char>| #[trigger] reads_alike(x.plain(), x.outer(), key) by {
        keys_stand(x, key);
    }
    orders_are_blind(t, x.plain(), x.outer());
}

/// The classes are settled, each has a first member, and its definition comes from it.
pub proof fn classes_have_members(x: Part)
    requires
        x.wf(),
    ensures
        x.numbers().len() == x.members().len(),
        x.order_keys().len() == x.members().len(),
        within(x.links(), x.members().len()),
        0 < x.count() <= x.members().len(),
        forall|p: int| 0 <= p < x.members().len() ==> #[trigger] x.numbers()[p] < x.count(),
        forall|p: int, q: int|
            0 <= p < x.members().len() && 0 <= q < x.members().len() && #[trigger] x.numbers()[p]
                == #[trigger] x.numbers()[q] ==> {
                &&& x.order_keys()[p] == x.order_keys()[q]
                &&& x.links()[p].len() == x.links()[q].len()
                &&& forall|i: int|
                    0 <= i < x.links()[p].len() ==> x.numbers()[#[trigger] x.links()[p][i]]
                        == x.numbers()[x.links()[q][i]]
            },
        forall|c: nat|
            c < x.count() ==> {
                &&& 0 <= #[trigger] x.spot(c) < x.members().len()
                &&& x.numbers()[x.spot(c)] == c
            },
        x.definitions().len() == x.count(),
        forall|c: int|
            0 <= c < x.count() ==> #[trigger] x.definitions()[c] == subst(
                x.body(x.spot(c as nat)),
                x.inner(),
            ),
{
    members_are_listed(x);
    let n = x.members().len();
    let links = x.links();
    assert(within(links, n)) by {
        assert forall|p: int, i: int| 0 <= p < n && 0 <= i < links[p].len() implies 0
            <= #[trigger] links[p][i] < n by {
            positions_are_members(names(x.body(p)), x.member_keys());
        }
    }
    classes_are_settled(x.order_keys(), links);
    let numbers = x.numbers();
    counts_cover(numbers, n);
    let top = choose|p: int| 0 <= p < n && #[trigger] numbers[p] + 1 == x.count();
    assert forall|c: nat| c < x.count() implies {
        &&& 0 <= #[trigger] x.spot(c) < n
        &&& numbers[x.spot(c)] == c
    } by {
        classes_are_dense(x.order_keys(), links, top, c);
        let q = choose|q: int|
            0 <= q < n && #[trigger] classes(x.order_keys(), links)[q] == c;
        representatives_represent(numbers, c, 0, q);
    }
}

/// Each definition of a group is the body of a member.
pub proof fn definitions_come_from_members(x: Part, c: int)
    requires
        x.wf(),
        0 <= c < x.definitions().len(),
    ensures
        0 <= x.spot(c as nat) < x.members().len(),
        0 <= x.members()[x.spot(c as nat)] < x.bodies.len(),
        x.definitions()[c] == subst(x.body(x.spot(c as nat)), x.inner()),
{
    members_are_listed(x);
    classes_have_members(x);
}

// ---------------------------------------------------------------------------------------------
// Building it anew
// ---------------------------------------------------------------------------------------------

/// The definitions as they are built anew.
pub open spec fn anew(x: Part) -> Seq<Shape> {
    renamed_all(x.definitions())
}

pub open spec fn anew_graph(x: Part) -> Graph {
    mention_graph(slot_keys(x.count()), anew(x))
}

/// The order lists each of the first `n` numbers once.
pub open spec fn permutes(order: Seq<int>, n: nat) -> bool {
    &&& order.no_duplicates()
    &&& forall|i: int| #[trigger] order.contains(i) <==> 0 <= i < n
}

proof fn definitions_anew(x: Part, c: int)
    requires
        x.wf(),
        0 <= c < x.count(),
    ensures
        anew(x).len() == x.count(),
        anew(x)[c] == subst(x.body(x.spot(c as nat)), x.outer()),
        names(anew(x)[c]) == names_left(names(x.body(x.spot(c as nat))), x.outer()),
{
    classes_have_members(x);
    members_are_listed(x);
    let p = x.spot(c as nat);
    assert(x.definitions()[c] == subst(x.body(p), x.inner()));
    outer_names(x, x.body(p));
    names_after(x.body(p), x.outer());
}

/// Every name that a definition mentions is known inside the group.
proof fn definitions_are_complete(x: Part, c: int)
    requires
        x.wf(),
        x.succeeds(),
        0 <= c < x.count(),
    ensures
        names_left(names(x.body(x.spot(c as nat))), x.inner()).len() == 0,
{
    classes_have_members(x);
    let p = x.spot(c as nat);
    assert(x.definitions()[c] == subst(x.body(p), x.inner()));
    names_after(x.body(p), x.inner());
    sound_types_name_nothing(x.definitions()[c]);
}

pub open spec fn moved(positions: Seq<int>, numbers: Seq<nat>, order: Seq<int>) -> Seq<int> {
    Seq::new(positions.len(), |i: int| order.index_of(numbers[positions[i]] as int))
}

/// Where a list of names mentions members, what is left of it mentions their classes.
proof fn positions_move(x: Part, found: Seq<Seq<char>>, order: Seq<int>)
    requires
        x.wf(),
        names_left(found, x.inner()).len() == 0,
        permutes(order, x.count()),
    ensures
        member_positions(
            names_left(found, x.outer()),
            member_keys(slot_keys(x.count()), order),
        ) == moved(member_positions(found, x.member_keys()), x.numbers(), order),
        least_missing(names_left(found, x.outer()), slot_keys(x.count())) is None,
    decreases found.len(),
{
    let renumbered = member_keys(slot_keys(x.count()), order);
    let old_positions = member_positions(found, x.member_keys());
    let left = names_left(found, x.outer());
    if found.len() == 0 {
        assert(member_positions(left, renumbered) =~= moved(old_positions, x.numbers(), order));
    } else {
        let rest = found.drop_last();
        let last = found[found.len() - 1];
        let before = names_left(rest, x.outer());
        positions_move(x, rest, order);
        members_are_listed(x);
        classes_have_members(x);
        keys_stand(x, last);
        position_found(x.member_keys(), last, 0);
        assert(names(stands(x.inner(), last)).len() == 0);
        match position(x.member_keys(), last, 0) {
            Some(p) => {
                member_stands(x, p);
                let c = x.numbers()[p];
                assert(names(Shape::Name(slot_key(c))) =~= seq![slot_key(c)]);
                assert(left =~= before.push(slot_key(c)));
                assert(left.drop_last() =~= before);
                assert(order.contains(c as int));
                let q = order.index_of(c as int);
                assert(order[q] == c);
                assert forall|p: int| 0 <= p < order.len() implies 0 <= #[trigger] order[p]
                    < x.count() by {
                    assert(order.contains(order[p]));
                }
                slot_is_found(order, x.count(), q);
                slot_stands(x.count(), c);
                assert(member_positions(left, renumbered) =~= moved(
                    old_positions,
                    x.numbers(),
                    order,
                ));
            },
            None => {
                let t = stands(x.outer(), last);
                if let Some(i) = position(x.keys, last, 0) {
                    if x.members().contains(i) {
                        let p = x.members().index_of(i);
                        assert(x.members()[p] == i);
                        assert(x.member_keys()[p] == last);
                    }
                }
                assert(stands(x.inner(), last) == t);
                assert(names(t).len() == 0);
                assert(left =~= before);
            },
        }
    }
}

/// Where a member mentions another, the class of the one mentions the class of the other.
proof fn edges_have_images(x: Part, p: int, r: int)
    requires
        x.wf(),
        x.succeeds(),
        0 <= p < x.members().len(),
        0 <= r < x.members().len(),
        edge(x.graph(), x.members()[p], x.members()[r]),
    ensures
        edge(anew_graph(x), x.numbers()[p] as int, x.numbers()[r] as int),
{
    members_are_listed(x);
    classes_have_members(x);
    let c = x.numbers()[p];
    let d = x.numbers()[r];
    let q = x.spot(c);
    assert(names(x.body(p)).contains(x.member_keys()[r]));
    members_have_positions(names(x.body(p)), x.member_keys(), r);
    let i = choose|i: int| 0 <= i < x.links()[p].len() && x.links()[p][i] == r;
    assert(x.links()[p][i] == r);
    assert(x.numbers()[q] == x.numbers()[p]);
    assert(x.numbers()[x.links()[p][i]] == x.numbers()[x.links()[q][i]]);
    let r2 = x.links()[q][i];
    positions_are_members(names(x.body(q)), x.member_keys());
    assert(member_positions(names(x.body(q)), x.member_keys())[i] == r2);
    member_stands(x, r2);
    definitions_anew(x, c as int);
    let found = Shape::Name(slot_key(d));
    assert(names(found) =~= seq![slot_key(d)]);
    assert(names(found)[0] == slot_key(d));
    names_stay(names(x.body(q)), x.outer(), x.member_keys()[r2], slot_key(d));
}

/// The class of a member.
pub open spec fn class_of(x: Part) -> spec_fn(int) -> int {
    |u: int| x.numbers()[x.members().index_of(u)] as int
}

proof fn classes_are_connected(x: Part, c: int, d: int)
    requires
        x.wf(),
        x.succeeds(),
        0 <= c < x.count(),
        0 <= d < x.count(),
    ensures
        reaches(anew_graph(x), c, d),
{
    members_are_listed(x);
    classes_have_members(x);
    let g = x.graph();
    let h = anew_graph(x);
    let members = x.members();
    let image = class_of(x);
    definitions_anew(x, c);
    assert(square(h));
    let u = members[x.spot(c as nat)];
    let v = members[x.spot(d as nat)];
    assert(members.contains(u));
    assert(members.contains(v));
    components_are_mutual(g, x.k, u, v);
    let steps = choose|steps: nat| #[trigger] leads(g, u, v, steps);
    assert forall|a: int, b: int|
        members.contains(a) && members.contains(b) && #[trigger] edge(g, a, b) implies edge(
        h,
        image(a),
        image(b),
    ) by {
        let p = members.index_of(a);
        let r = members.index_of(b);
        assert(members[p] == a);
        assert(members[r] == b);
        edges_have_images(x, p, r);
    }
    assert forall|a: int| #[trigger] members.contains(a) implies 0 <= image(a) < h.len() by {
        let p = members.index_of(a);
        assert(members[p] == a);
        assert(x.numbers()[p] < x.count());
    }
    images_reach(g, h, x.k, image, u, v, steps);
}

/// The order in which the definitions are met when they are built anew.
pub open spec fn anew_order(x: Part) -> Seq<int> {
    components(anew_graph(x))[0]
}

proof fn definitions_stay_together(x: Part)
    requires
        x.wf(),
        x.succeeds(),
    ensures
        square(anew_graph(x)),
        anew_graph(x).len() == x.count(),
        components(anew_graph(x)).len() == 1,
        permutes(anew_order(x), x.count()),
        anew_order(x).len() == x.count(),
{
    let h = anew_graph(x);
    classes_have_members(x);
    definitions_anew(x, 0);
    assert(square(h));
    assert forall|u: int, v: int| 0 <= u < h.len() && 0 <= v < h.len() implies #[trigger] mutual(
        h,
        u,
        v,
    ) by {
        classes_are_connected(x, u, v);
        classes_are_connected(x, v, u);
    }
    connected_graphs_are_one_component(h);
    permutations_are_long(anew_order(x), x.count());
}

pub proof fn permutations_are_long(order: Seq<int>, n: nat)
    requires
        permutes(order, n),
    ensures
        order.len() == n,
    decreases n,
{
    if n == 0 {
        if order.len() > 0 {
            assert(order.contains(order[0]));
        }
    } else {
        let last = n - 1;
        assert(order.contains(last));
        let at = order.index_of(last);
        let rest = order.remove(at);
        assert forall|i: int| #[trigger] rest.contains(i) == (0 <= i < n - 1) by {
            if rest.contains(i) {
                let j = choose|j: int| 0 <= j < rest.len() && rest[j] == i;
                let from = if j < at {
                    j
                } else {
                    j + 1
                };
                assert(order[from] == i);
                assert(order.contains(i));
            }
            if 0 <= i < n - 1 {
                assert(order.contains(i));
                let j = order.index_of(i);
                assert(order[j] == i);
                let to = if j < at {
                    j
                } else {
                    j - 1
                };
                assert(rest[to] == i);
            }
        }
        assert(rest.no_duplicates());
        permutations_are_long(rest, (n - 1) as nat);
    }
}

/// Some class mentions a class.
proof fn definitions_stay_recursive(x: Part)
    requires
        x.wf(),
        x.succeeds(),
    ensures
        is_recursive(slot_keys(x.count()), anew(x), anew_order(x)),
{
    definitions_stay_together(x);
    members_are_listed(x);
    classes_have_members(x);
    definitions_anew(x, 0);
    let g = x.graph();
    let members = x.members();
    if x.count() == 1 {
        assert(anew_order(x).contains(anew_order(x)[0]));
        let u = members[0];
        assert(members.contains(u));
        let r = if members.len() > 1 {
            let v = members[1];
            assert(members.contains(v));
            components_are_mutual(g, x.k, u, v);
            let steps = choose|steps: nat| #[trigger] leads(g, u, v, steps);
            assert(u != v);
            let w = choose|w: int|
                #[trigger] edge(g, u, w) && leads(g, w, v, (steps - 1) as nat);
            edge_reaches(g, u, w);
            assert(reaches(g, w, v));
            crate::hir::recursive::graph::reaches_on(g, w, v, u);
            components_are_mutual(g, x.k, u, w);
            let r = members.index_of(w);
            assert(members[r] == w);
            r
        } else {
            0
        };
        assert(edge(g, members[0], members[r]));
        edges_have_images(x, 0, r);
        assert(x.numbers()[0] < x.count());
        assert(x.numbers()[r] < x.count());
    }
}

/// What keys stand for before the definitions are built anew: nothing.
pub open spec fn anew_plain(x: Part) -> Scope {
    Scope { keys: slot_keys(x.count()), values: Seq::new(x.count(), |i: int| None) }
}

pub open spec fn anew_numbers(x: Part) -> Seq<nat> {
    group_classes(slot_keys(x.count()), anew(x), anew_order(x), anew_plain(x))
}

/// Each definition is of the class that it stands for.
proof fn numbers_stay(x: Part)
    requires
        x.wf(),
        x.succeeds(),
    ensures
        anew_numbers(x).len() == x.count(),
        forall|q: int|
            0 <= q < x.count() ==> #[trigger] anew_numbers(x)[q] == anew_order(x)[q] as nat,
{
    definitions_stay_together(x);
    members_are_listed(x);
    classes_have_members(x);
    let n = x.members().len();
    let m = x.count();
    let order = anew_order(x);
    let numbers = x.numbers();
    let a = x.order_keys();
    let from_a = x.links();
    let b = group_keys(anew(x), order, anew_plain(x));
    let from_b = group_references(slot_keys(m), anew(x), order);
    let to = Seq::new(n, |p: int| order.index_of(numbers[p] as int));
    let back = Seq::new(m, |q: int| x.spot(order[q] as nat));
    assert forall|q: int| 0 <= q < m implies 0 <= #[trigger] order[q] < m && order.index_of(
        order[q],
    ) == q by {
        assert(order.contains(order[q]));
        let r = order.index_of(order[q]);
        assert(order[r] == order[q]);
    }
    assert forall|p: int| 0 <= p < n implies 0 <= #[trigger] to[p] < m && order[to[p]]
        == numbers[p] by {
        assert(numbers[p] < m);
        assert(order.contains(numbers[p] as int));
    }
    assert(onto(to, back)) by {
        assert forall|q: int| 0 <= q < back.len() implies 0 <= #[trigger] back[q] < to.len()
            && to[back[q]] == q by {
            let c = order[q] as nat;
            assert(0 <= x.spot(c) < n);
            assert(numbers[x.spot(c)] == c);
        }
    }
    assert forall|key: Seq<char>| #[trigger] resolve(anew_plain(x), key) is None by {
        position_found(slot_keys(m), key, 0);
    }
    assert forall|q: int| 0 <= q < m implies #[trigger] b[q] == a[x.spot(order[q] as nat)]
        && from_b[q] == moved(from_a[x.spot(order[q] as nat)], numbers, order) by {
        let c = order[q];
        let p = x.spot(c as nat);
        assert(0 <= p < n);
        definitions_anew(x, c);
        subst_nothing(anew(x)[c], anew_plain(x));
        outer_orders(x, p);
        definitions_are_complete(x, c);
        positions_move(x, names(x.body(p)), order);
    }
    assert forall|p: int| 0 <= p < a.len() implies #[trigger] a[p] == b[to[p]] by {
        let q = to[p];
        assert(order[q] == numbers[p]);
        let r = x.spot(order[q] as nat);
        assert(b[q] == a[r]);
        assert(numbers[r] == numbers[p]);
    }
    assert(within(from_b, m)) by {
        assert forall|q: int, i: int| 0 <= q < m && 0 <= i < from_b[q].len() implies 0
            <= #[trigger] from_b[q][i] < m by {
            positions_are_members(names(anew(x)[order[q]]), member_keys(slot_keys(m), order));
            assert(member_positions(
                names(anew(x)[order[q]]),
                member_keys(slot_keys(m), order),
            )[i] == from_b[q][i]);
        }
    }
    assert(linked(from_a, from_b, to)) by {
        assert forall|p: int| 0 <= p < to.len() implies {
            &&& (#[trigger] from_a[p]).len() == from_b[to[p]].len()
            &&& forall|i: int|
                0 <= i < from_a[p].len() ==> to[#[trigger] from_a[p][i]] == from_b[to[p]][i]
        } by {
            let q = to[p];
            assert(order[q] == numbers[p]);
            let r = x.spot(order[q] as nat);
            assert(b[q] == a[r]);
            assert(numbers[r] == numbers[p]);
            assert forall|i: int| 0 <= i < from_a[p].len() implies to[#[trigger] from_a[p][i]]
                == from_b[to[p]][i] by {
                assert(numbers[from_a[p][i]] == numbers[from_a[r][i]]);
                assert(0 <= from_a[p][i] < n);
            }
        }
    }
    classes_agree(a, from_a, b, from_b, to, back);
    classes_are_settled(b, from_b);
    assert forall|q: int| 0 <= q < m implies #[trigger] anew_numbers(x)[q] == order[q] as nat by {
        let r = back[q];
        assert(0 <= r < n && to[r] == q);
        assert(classes(a, from_a)[r] == classes(b, from_b)[to[r]]);
        assert(numbers[r] == order[q] as nat);
    }
}

/// Building anew gives the same definitions.
proof fn definitions_stay(x: Part)
    requires
        x.wf(),
        x.succeeds(),
    ensures
        group_bodies(
            slot_keys(x.count()),
            anew(x),
            anew_order(x),
            anew_plain(x).values,
        ) == x.definitions(),
{
    definitions_stay_together(x);
    classes_have_members(x);
    numbers_stay(x);
    let m = x.count();
    let order = anew_order(x);
    let numbers = anew_numbers(x);
    let values = anew_plain(x).values;
    let again = Scope { keys: slot_keys(m), values: slotted(values, order, numbers) };
    let made = group_bodies(slot_keys(m), anew(x), order, values);
    assert(anew_plain(x) == (Scope { keys: slot_keys(m), values }));
    counts_cover(numbers, m);
    assert(class_count(numbers, m) == m) by {
        let top = choose|p: int| 0 <= p < m && #[trigger] numbers[p] + 1 == class_count(numbers, m);
        assert(order.contains(order[top]));
        assert(order.contains(m - 1));
        let q = order.index_of(m - 1);
        assert(order[q] == m - 1);
        assert(numbers[q] == order[q] as nat);
        assert(numbers[top] == order[top] as nat);
    }
    assert forall|i: nat| i < m implies stands(again, #[trigger] slot_key(i)) == Shape::Var(i) by {
        slot_stands(m, i);
        assert(order.contains(i as int));
        let q = order.index_of(i as int);
        assert(order[q] == i);
        assert(numbers[q] == order[q] as nat);
    }
    assert forall|c: int| 0 <= c < m implies #[trigger] made[c] == x.definitions()[c] by {
        assert(order.contains(c));
        let q = order.index_of(c);
        assert(order[q] == c);
        assert(numbers[q] == order[q] as nat);
        representatives_represent(numbers, c as nat, 0, q);
        let r = representative(numbers, c as nat, 0);
        assert(numbers[r] == order[r] as nat);
        assert(order.contains(order[r]));
        definitions_anew(x, c);
        members_are_listed(x);
        let t = x.body(x.spot(c as nat));
        assert(x.definitions()[c] == subst(t, x.inner()));
        assert forall|key: Seq<char>|
            (#[trigger] stands(x.inner(), key)) is Name || subst(stands(x.outer(), key), again)
                == stands(x.inner(), key) by {
            keys_stand(x, key);
            if let Some(i) = position(x.keys, key, 0) {
                if x.members().contains(i) {
                    let p = x.members().index_of(i);
                    assert(x.members()[p] == i);
                    let d = x.numbers()[p];
                    assert(d < m);
                    subst_unfold(Shape::Name(slot_key(d)), again);
                    assert(stands(again, slot_key(d)) == Shape::Var(d));
                } else if !has_var(stands(x.plain(), key)) {
                    subst_closed(stands(x.plain(), key), again);
                }
            }
        }
        subst_after(t, x.outer(), again, x.inner());
    }
    assert(made =~= x.definitions());
}

proof fn slot_keys_have_no_fault(n: nat, i: int)
    requires
        n <= 100,
        0 <= i <= n,
    ensures
        key_fault(slot_keys(n), i) is None,
    decreases n - i,
{
    if i < n {
        slot_stands(n, i as nat);
        slot_keys_have_no_fault(n, i + 1);
    }
}

proof fn references_have_no_fault(x: Part, i: int)
    requires
        x.wf(),
        x.succeeds(),
        0 <= i <= x.count(),
    ensures
        reference_fault(slot_keys(x.count()), anew(x), i) is None,
    decreases x.count() - i,
{
    classes_have_members(x);
    definitions_anew(x, 0);
    if i < x.count() {
        definitions_stay_together(x);
        definitions_anew(x, i);
        definitions_are_complete(x, i);
        positions_move(x, names(x.body(x.spot(i as nat))), anew_order(x));
        references_have_no_fault(x, i + 1);
    }
}

/// A group that was built is canonical.
pub proof fn built_groups_are_canonical(x: Part, first: Seq<char>, named: Seq<char>)
    requires
        x.wf(),
        is_recursive(x.keys, x.bodies, x.members()),
        group_fault(x.definitions(), first, named) is None,
    ensures
        canonical(x.definitions()),
{
    let definitions = x.definitions();
    let g = hold_graph(definitions);
    assert(square(g));
    walks_are_complete(g);
    assert forall|c: int| 0 <= c < definitions.len() implies defect(
        #[trigger] definitions[c],
    ) is None by {
        assert(finish_order(g).contains(c));
        let j = choose|j: int| 0 <= j < finish_order(g).len() && finish_order(g)[j] == c;
        no_defect_in_order(definitions, finish_order(g), 0, j);
    }
    members_are_listed(x);
    classes_have_members(x);
    definitions_stay_together(x);
    definitions_stay_recursive(x);
    definitions_stay(x);
    numbers_stay(x);
    let m = x.count();
    let keys = slot_keys(m);
    let order = anew_order(x);
    let numbers = anew_numbers(x);
    slot_keys_have_no_fault(m, 0);
    references_have_no_fault(x, 0);
    let start = Seq::new(keys.len(), |i: int| None::<Shape>);
    assert(start =~= anew_plain(x).values);
    let groups = components(anew_graph(x));
    let made = build_group(keys, anew(x), groups[0], start);
    let end = Seq::new(
        start.len(),
        |i: int|
            if order.contains(i) {
                Some(Shape::Rec(definitions, numbers[order.index_of(i)]))
            } else {
                start[i]
            },
    );
    assert(made == Ok::<Seq<Option<Shape>>, BuildFault>(end));
    assert forall|i: int| 0 <= i < m implies #[trigger] end[i] == Some(
        Shape::Rec(definitions, i as nat),
    ) by {
        assert(order.contains(i));
        let q = order.index_of(i);
        assert(order[q] == i);
        assert(numbers[q] == order[q] as nat);
    }
    assert(end =~= own_references(definitions));
    assert(build_groups(keys, anew(x), groups, 1, end) == Ok::<Seq<Option<Shape>>, BuildFault>(
        end,
    ));
}

pub proof fn no_defect_in_order(definitions: Seq<Shape>, order: Seq<int>, i: int, j: int)
    requires
        0 <= i <= j < order.len(),
        ordered_defect(definitions, order, i) is None,
    ensures
        defect(definitions[order[j]]) is None,
    decreases j - i,
{
    if i < j {
        no_defect_in_order(definitions, order, i + 1, j);
    }
}

} // verus!
