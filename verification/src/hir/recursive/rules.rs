//! What a set of definitions builds.
use vstd::prelude::*;
use vstd::utf8::encode_utf8;

use crate::hir::enum_rules::EnumFault;
use crate::hir::metrics::{group_metrics, group_metrics_unfold, group_settled, nothing};
use crate::hir::recursive::assemble::{holds, layout_depends_on_what_is_held};
use crate::hir::recursive::graph::{
    components, edge, finish_order, finish_order_is_topological, has_cycle, square, topological,
    walks_are_complete, Graph,
};
use crate::hir::recursive::key::{order_key, widened};
use crate::hir::recursive::rank::{classes, less, Ordered};
use crate::hir::recursive::scope::{defect, fits, names, position, subst, Defect, Scope};
use crate::hir::shape::Shape;
use crate::hir::types::MAX_RECURSIVE_GROUP_SIZE;

verus! {

/// Why a set of definitions builds nothing.
#[verifier::ext_equal]
pub enum BuildFault {
    EmptyName,
    DuplicateName(Seq<char>),
    UndefinedReference(Seq<char>),
    UnguardedRecursion(Seq<char>),
    GroupTooLarge(Seq<char>, nat),
    InvalidDefinition(EnumFault),
    TooLarge(Seq<char>),
}

/// The first fault among the keys from `i` on.
pub open spec fn key_fault(keys: Seq<Seq<char>>, i: int) -> Option<BuildFault>
    decreases keys.len() - i,
{
    if i < 0 || i >= keys.len() {
        None
    } else if keys[i].len() == 0 {
        Some(BuildFault::EmptyName)
    } else if position(keys, keys[i], 0) != Some(i) {
        Some(BuildFault::DuplicateName(keys[i]))
    } else {
        key_fault(keys, i + 1)
    }
}

/// One text comes before another, byte by byte.
pub open spec fn text_less(a: Seq<char>, b: Seq<char>) -> bool {
    less(widened(encode_utf8(a), 0), widened(encode_utf8(b), 0))
}

/// The least of the texts that are no key.
pub open spec fn least_missing(found: Seq<Seq<char>>, keys: Seq<Seq<char>>) -> Option<Seq<char>>
    decreases found.len(),
{
    if found.len() == 0 {
        None
    } else {
        let before = least_missing(found.drop_last(), keys);
        let last = found[found.len() - 1];
        if position(keys, last, 0) is Some {
            before
        } else {
            match before {
                Some(least) => if text_less(last, least) {
                    Some(last)
                } else {
                    Some(least)
                },
                None => Some(last),
            }
        }
    }
}

/// The first definition from `i` on that refers to something undefined.
pub open spec fn reference_fault(
    keys: Seq<Seq<char>>,
    bodies: Seq<Shape>,
    i: int,
) -> Option<BuildFault>
    decreases bodies.len() - i,
{
    if i < 0 || i >= bodies.len() {
        None
    } else {
        match least_missing(names(bodies[i]), keys) {
            Some(missing) => Some(BuildFault::UndefinedReference(missing)),
            None => reference_fault(keys, bodies, i + 1),
        }
    }
}

/// Which definition mentions which.
pub open spec fn mention_graph(keys: Seq<Seq<char>>, bodies: Seq<Shape>) -> Graph {
    Seq::new(
        bodies.len(),
        |i: int| Seq::new(bodies.len(), |j: int| names(bodies[i]).contains(keys[j])),
    )
}

/// More than one definition, or one that mentions itself.
pub open spec fn is_recursive(
    keys: Seq<Seq<char>>,
    bodies: Seq<Shape>,
    component: Seq<int>,
) -> bool {
    component.len() > 1 || names(bodies[component[0]]).contains(keys[component[0]])
}

/// The keys of the members of a component.
pub open spec fn member_keys(keys: Seq<Seq<char>>, component: Seq<int>) -> Seq<Seq<char>> {
    Seq::new(component.len(), |p: int| keys[component[p]])
}

/// The positions of the members that are named, in the order in which they are named.
pub open spec fn member_positions(found: Seq<Seq<char>>, members: Seq<Seq<char>>) -> Seq<int>
    decreases found.len(),
{
    if found.len() == 0 {
        Seq::empty()
    } else {
        let before = member_positions(found.drop_last(), members);
        match position(members, found[found.len() - 1], 0) {
            Some(p) => before.push(p),
            None => before,
        }
    }
}

pub open spec fn group_references(
    keys: Seq<Seq<char>>,
    bodies: Seq<Shape>,
    component: Seq<int>,
) -> Seq<Seq<int>> {
    Seq::new(
        component.len(),
        |p: int| member_positions(names(bodies[component[p]]), member_keys(keys, component)),
    )
}

pub open spec fn group_keys(
    bodies: Seq<Shape>,
    component: Seq<int>,
    scope: Scope,
) -> Seq<Ordered> {
    Seq::new(component.len(), |p: int| order_key(subst(bodies[component[p]], scope)))
}

/// The class of each member: members of one class denote the same type.
pub open spec fn group_classes(
    keys: Seq<Seq<char>>,
    bodies: Seq<Shape>,
    component: Seq<int>,
    scope: Scope,
) -> Seq<nat> {
    classes(group_keys(bodies, component, scope), group_references(keys, bodies, component))
}

/// One more than the largest of the first `n` numbers.
pub open spec fn class_count(numbers: Seq<nat>, n: nat) -> nat
    decreases n,
{
    if n == 0 {
        0
    } else {
        let before = class_count(numbers, (n - 1) as nat);
        if before < numbers[n - 1] + 1 {
            numbers[n - 1] + 1
        } else {
            before
        }
    }
}

/// The first member from `p` on of class `c`.
pub open spec fn representative(numbers: Seq<nat>, c: nat, p: int) -> int
    decreases numbers.len() - p,
{
    if p < 0 || p >= numbers.len() {
        0
    } else if numbers[p] == c {
        p
    } else {
        representative(numbers, c, p + 1)
    }
}

/// What each key stands for inside the group: the members stand for their classes.
pub open spec fn slotted(
    done: Seq<Option<Shape>>,
    component: Seq<int>,
    numbers: Seq<nat>,
) -> Seq<Option<Shape>> {
    Seq::new(
        done.len(),
        |i: int|
            if component.contains(i) {
                Some(Shape::Var(numbers[component.index_of(i)]))
            } else {
                done[i]
            },
    )
}

/// The bodies of a group: one for each class.
pub open spec fn group_bodies(
    keys: Seq<Seq<char>>,
    bodies: Seq<Shape>,
    component: Seq<int>,
    done: Seq<Option<Shape>>,
) -> Seq<Shape> {
    let numbers = group_classes(keys, bodies, component, Scope { keys, values: done });
    let inner = Scope { keys, values: slotted(done, component, numbers) };
    Seq::new(
        class_count(numbers, numbers.len()),
        |c: int| subst(bodies[component[representative(numbers, c as nat, 0)]], inner),
    )
}

/// Which definition of a group holds which, and not just a reference to it.
pub open spec fn hold_graph(definitions: Seq<Shape>) -> Graph {
    Seq::new(
        definitions.len(),
        |c: int| Seq::new(definitions.len(), |d: int| holds(definitions[c], d as nat)),
    )
}

pub open spec fn defect_fault(found: Defect) -> BuildFault {
    match found {
        Defect::Undefined(key) => BuildFault::UndefinedReference(key),
        Defect::Invalid(fault) => BuildFault::InvalidDefinition(fault),
    }
}

/// The first defect of the definitions, in the given order from `i` on.
pub open spec fn ordered_defect(
    definitions: Seq<Shape>,
    order: Seq<int>,
    i: int,
) -> Option<BuildFault>
    decreases order.len() - i,
{
    if i < 0 || i >= order.len() {
        None
    } else {
        match defect(definitions[order[i]]) {
            Some(found) => Some(defect_fault(found)),
            None => ordered_defect(definitions, order, i + 1),
        }
    }
}

/// Every definition can be laid out.
pub open spec fn group_fits(definitions: Seq<Shape>) -> bool {
    forall|c: int|
        0 <= c < definitions.len() ==> fits(
            #[trigger] definitions[c],
            group_metrics(definitions, definitions.len()),
        )
}

/// What stands against a group, if anything. Where a definition holds itself, it would have
/// infinite size.
pub open spec fn group_fault(
    definitions: Seq<Shape>,
    first: Seq<char>,
    named: Seq<char>,
) -> Option<BuildFault> {
    if has_cycle(hold_graph(definitions)) {
        Some(BuildFault::UnguardedRecursion(first))
    } else {
        match ordered_defect(definitions, finish_order(hold_graph(definitions)), 0) {
            Some(fault) => Some(fault),
            None => if group_fits(definitions) {
                None
            } else {
                Some(BuildFault::TooLarge(named))
            },
        }
    }
}

/// Builds one component, where `done` holds what was built before.
pub open spec fn build_group(
    keys: Seq<Seq<char>>,
    bodies: Seq<Shape>,
    component: Seq<int>,
    done: Seq<Option<Shape>>,
) -> Result<Seq<Option<Shape>>, BuildFault> {
    let first = component[0];
    if !is_recursive(keys, bodies, component) {
        let made = subst(bodies[first], Scope { keys, values: done });
        match defect(made) {
            Some(found) => Err(defect_fault(found)),
            None => if fits(made, Seq::empty()) {
                Ok(done.update(first, Some(made)))
            } else {
                Err(BuildFault::TooLarge(keys[first]))
            },
        }
    } else if component.len() > MAX_RECURSIVE_GROUP_SIZE {
        Err(BuildFault::GroupTooLarge(keys[first], component.len()))
    } else {
        let numbers = group_classes(keys, bodies, component, Scope { keys, values: done });
        let definitions = group_bodies(keys, bodies, component, done);
        match group_fault(
            definitions,
            keys[component[representative(numbers, 0, 0)]],
            keys[first],
        ) {
            Some(fault) => Err(fault),
            None => Ok(
                Seq::new(
                    done.len(),
                    |i: int|
                        if component.contains(i) {
                            Some(Shape::Rec(definitions, numbers[component.index_of(i)]))
                        } else {
                            done[i]
                        },
                ),
            ),
        }
    }
}

/// Builds the components from `k` on.
pub open spec fn build_groups(
    keys: Seq<Seq<char>>,
    bodies: Seq<Shape>,
    groups: Seq<Seq<int>>,
    k: int,
    done: Seq<Option<Shape>>,
) -> Result<Seq<Option<Shape>>, BuildFault>
    decreases groups.len() - k,
{
    if k < 0 || k >= groups.len() {
        Ok(done)
    } else {
        match build_group(keys, bodies, groups[k], done) {
            Err(fault) => Err(fault),
            Ok(next) => build_groups(keys, bodies, groups, k + 1, next),
        }
    }
}

/// What the definitions build: a type for each of them, or what stands against it.
pub open spec fn build(
    keys: Seq<Seq<char>>,
    bodies: Seq<Shape>,
) -> Result<Seq<Option<Shape>>, BuildFault> {
    match key_fault(keys, 0) {
        Some(fault) => Err(fault),
        None => match reference_fault(keys, bodies, 0) {
            Some(fault) => Err(fault),
            None => build_groups(
                keys,
                bodies,
                components(mention_graph(keys, bodies)),
                0,
                Seq::new(keys.len(), |i: int| None),
            ),
        },
    }
}

// ---------------------------------------------------------------------------------------------
// Layouts of groups
// ---------------------------------------------------------------------------------------------

proof fn round_is_stable(definitions: Seq<Shape>, order: Seq<int>, p: int, k: nat)
    requires
        order == finish_order(hold_graph(definitions)),
        topological(hold_graph(definitions), order),
        order.len() == definitions.len(),
        forall|q: int| 0 <= q < order.len() ==> 0 <= #[trigger] order[q] < definitions.len(),
        forall|c: int| 0 <= c < definitions.len() ==> defect(#[trigger] definitions[c]) is None,
        0 <= p < order.len(),
        k >= p + 1,
    ensures
        group_metrics(definitions, k)[order[p]] == group_metrics(definitions, (p + 1) as nat)[order[p]],
    decreases p,
{
    let g = hold_graph(definitions);
    let u = order[p];
    let a = group_metrics(definitions, (k - 1) as nat);
    let b = group_metrics(definitions, p as nat);
    group_metrics_unfold(definitions, k);
    group_metrics_unfold(definitions, (k - 1) as nat);
    group_metrics_unfold(definitions, (p + 1) as nat);
    group_metrics_unfold(definitions, p as nat);
    assert forall|i: nat| i < a.len() && #[trigger] holds(definitions[u], i) implies a[i as int]
        == b[i as int] by {
        assert(g[u][i as int] == holds(definitions[u], i));
        assert(edge(g, order[p], i as int));
        let q = choose|q: int| 0 <= q < p && #[trigger] order[q] == i as int;
        round_is_stable(definitions, order, q, (k - 1) as nat);
        round_is_stable(definitions, order, q, p as nat);
    }
    layout_depends_on_what_is_held(definitions[u], a, b);
}

/// Without a definition that holds itself, the layouts of a group settle.
pub proof fn groups_settle(definitions: Seq<Shape>)
    requires
        !has_cycle(hold_graph(definitions)),
        forall|c: int| 0 <= c < definitions.len() ==> defect(#[trigger] definitions[c]) is None,
    ensures
        group_settled(definitions),
{
    let g = hold_graph(definitions);
    let n = definitions.len();
    assert(square(g));
    walks_are_complete(g);
    finish_order_is_topological(g);
    let order = finish_order(g);
    assert forall|q: int| 0 <= q < order.len() implies 0 <= #[trigger] order[q] < n by {
        assert(order.contains(order[q]));
    }
    group_metrics_unfold(definitions, n);
    group_metrics_unfold(definitions, n + 1);
    assert forall|c: int| 0 <= c < n implies group_metrics(definitions, n + 1)[c]
        == #[trigger] group_metrics(definitions, n)[c] by {
        assert(order.contains(c));
        let p = choose|p: int| 0 <= p < order.len() && order[p] == c;
        round_is_stable(definitions, order, p, n + 1);
        round_is_stable(definitions, order, p, n);
    }
    assert(group_metrics(definitions, n + 1) =~= group_metrics(definitions, n));
}

} // verus!
