//! What a set of definitions builds depends neither on their keys nor on their order.
use vstd::prelude::*;

use crate::hir::codec::rebuild::{members_are_listed, permutes, Part};
use crate::hir::codec::renaming::{names_after, slotless, sound_types_name_nothing, stands};
use crate::hir::codec::written::{closed_after, sound_keys_are_distinct};
use crate::hir::recursive::graph::{
    components, components_are_disjoint, components_are_listed, components_are_mutual,
    components_come_after_what_they_reach, components_cover, edge, edge_reaches, leads, reaches,
    reaches_itself, reaches_on, square, Graph,
};
use crate::hir::recursive::identity::{
    members_correspond, names_are_recast, recast_names, recasting, twin_keys,
    twins_are_defined_alike, Twins,
};
use crate::hir::recursive::likeness::{slotless_after, subst_twice};
use crate::hir::recursive::rules::{
    build, build_group, build_groups, is_recursive, key_fault, least_missing, mention_graph,
    reference_fault,
};
use crate::hir::recursive::scope::{
    names, position, position_found, position_of_distinct, subst, subst_unfold, Scope,
};
use crate::hir::shape::{has_var, Shape};
use crate::hir::types::MAX_RECURSIVE_GROUP_SIZE;

verus! {

// ---------------------------------------------------------------------------------------------
// Building in steps
// ---------------------------------------------------------------------------------------------

/// The definitions are aggregates that name what they refer to.
pub open spec fn open_definitions(bodies: Seq<Shape>) -> bool {
    forall|i: int|
        0 <= i < bodies.len() ==> {
            &&& slotless(#[trigger] bodies[i])
            &&& bodies[i] is Struct || bodies[i] is Enum
        }
}

pub open spec fn groups_of(keys: Seq<Seq<char>>, bodies: Seq<Shape>) -> Seq<Seq<int>> {
    components(mention_graph(keys, bodies))
}

/// What the first `k` components build.
pub open spec fn built_before(
    keys: Seq<Seq<char>>,
    bodies: Seq<Shape>,
    k: nat,
) -> Seq<Option<Shape>>
    decreases k,
{
    if k == 0 {
        Seq::new(keys.len(), |i: int| None)
    } else {
        let done = built_before(keys, bodies, (k - 1) as nat);
        match build_group(keys, bodies, groups_of(keys, bodies)[k - 1], done) {
            Ok(next) => next,
            Err(_) => done,
        }
    }
}

/// The component at `k`, when it is built.
pub open spec fn part_at(keys: Seq<Seq<char>>, bodies: Seq<Shape>, k: int) -> Part {
    Part { keys, bodies, k, done: built_before(keys, bodies, k as nat) }
}

/// The component at `k` builds.
pub open spec fn builds(keys: Seq<Seq<char>>, bodies: Seq<Shape>, k: int) -> bool {
    build_group(keys, bodies, groups_of(keys, bodies)[k], built_before(keys, bodies, k as nat))
        is Ok
}

/// Keys and definitions that have no fault of their own.
pub open spec fn sound(keys: Seq<Seq<char>>, bodies: Seq<Shape>) -> bool {
    &&& keys.len() == bodies.len()
    &&& keys.no_duplicates()
    &&& open_definitions(bodies)
    &&& forall|i: int, key: Seq<char>|
        0 <= i < bodies.len() && #[trigger] names(bodies[i]).contains(key) ==> position(
            keys,
            key,
            0,
        ) is Some
}

proof fn nothing_is_missing(found: Seq<Seq<char>>, keys: Seq<Seq<char>>)
    ensures
        least_missing(found, keys) is None <==> forall|key: Seq<char>| #[trigger]
            found.contains(key) ==> position(keys, key, 0) is Some,
    decreases found.len(),
{
    if found.len() > 0 {
        let rest = found.drop_last();
        let last = found[found.len() - 1];
        nothing_is_missing(rest, keys);
        assert(found.contains(last));
        assert forall|key: Seq<char>| #[trigger] rest.contains(key) implies found.contains(key) by {
            let j = rest.index_of(key);
            assert(found[j] == key);
        }
        assert forall|key: Seq<char>| #[trigger]
            found.contains(key) && key != last implies rest.contains(key) by {
            let j = found.index_of(key);
            assert(rest[j] == key);
        }
    }
}

proof fn no_reference_fails(keys: Seq<Seq<char>>, bodies: Seq<Shape>, i: int)
    requires
        0 <= i <= bodies.len(),
    ensures
        reference_fault(keys, bodies, i) is None <==> forall|j: int, key: Seq<char>|
            i <= j < bodies.len() && #[trigger] names(bodies[j]).contains(key) ==> position(
                keys,
                key,
                0,
            ) is Some,
    decreases bodies.len() - i,
{
    if i < bodies.len() {
        nothing_is_missing(names(bodies[i]), keys);
        no_reference_fails(keys, bodies, i + 1);
        assert forall|j: int, key: Seq<char>|
            i <= j < bodies.len() && #[trigger] names(bodies[j]).contains(key)
                && reference_fault(keys, bodies, i) is None implies position(
            keys,
            key,
            0,
        ) is Some by {
            if j == i {
                assert(names(bodies[i]).contains(key));
            }
        }
    }
}

/// What was built from the first `k` components is closed, and nothing else was built.
pub open spec fn stage(keys: Seq<Seq<char>>, bodies: Seq<Shape>, k: int) -> bool {
    let done = built_before(keys, bodies, k as nat);
    &&& done.len() == keys.len()
    &&& forall|i: int|
        0 <= i < done.len() ==> ((#[trigger] done[i]) is Some <==> exists|j: int|
            0 <= j < k && #[trigger] groups_of(keys, bodies)[j].contains(i))
    &&& forall|i: int|
        0 <= i < done.len() && (#[trigger] done[i]) is Some ==> !has_var(done[i]->0) && names(
            done[i]->0,
        ).len() == 0
}

/// A component that builds is one of a group.
pub proof fn parts_are_groups(keys: Seq<Seq<char>>, bodies: Seq<Shape>, k: int)
    requires
        sound(keys, bodies),
        0 <= k < groups_of(keys, bodies).len(),
        stage(keys, bodies, k),
        builds(keys, bodies, k),
    ensures
        part_at(keys, bodies, k).wf(),
{
    let g = mention_graph(keys, bodies);
    assert(square(g));
    components_are_listed(g, k);
    let x = part_at(keys, bodies, k);
    let members = x.members();
    assert(members.len() <= MAX_RECURSIVE_GROUP_SIZE);
    assert forall|i: int| 0 <= i < x.done.len() && members.contains(i) implies (
    #[trigger] x.done[i]) is None by {
        if x.done[i] is Some {
            let j = choose|j: int|
                0 <= j < k && #[trigger] groups_of(keys, bodies)[j].contains(i);
            components_are_disjoint(g, j, k, i);
        }
    }
}

/// Building a component adds its members.
pub proof fn stages_follow(keys: Seq<Seq<char>>, bodies: Seq<Shape>, k: int)
    requires
        sound(keys, bodies),
        0 <= k < groups_of(keys, bodies).len(),
        stage(keys, bodies, k),
        builds(keys, bodies, k),
    ensures
        stage(keys, bodies, k + 1),
        forall|i: int|
            0 <= i < keys.len() && !groups_of(keys, bodies)[k].contains(i)
                ==> #[trigger] built_before(keys, bodies, (k + 1) as nat)[i] == built_before(
                keys,
                bodies,
                k as nat,
            )[i],
{
    parts_are_groups(keys, bodies, k);
    let groups = groups_of(keys, bodies);
    let x = part_at(keys, bodies, k);
    members_are_listed(x);
    let members = x.members();
    let done = x.done;
    let next = built_before(keys, bodies, (k + 1) as nat);
    assert(build_group(keys, bodies, groups[k], done) == Ok::<
        Seq<Option<Shape>>,
        crate::hir::recursive::rules::BuildFault,
    >(next));
    let plain = x.plain();
    assert forall|key: Seq<char>|
        (#[trigger] stands(plain, key)) is Name || !has_var(stands(plain, key)) by {
        position_found(keys, key, 0);
        if let Some(i) = position(keys, key, 0) {
            assert(done[i] is Some || done[i] is None);
        }
    }
    if !is_recursive(keys, bodies, members) {
        let first = members[0];
        assert(slotless(bodies[first]));
        closed_after(bodies[first], plain);
        sound_types_name_nothing(next[first]->0);
        assert forall|i: int| members.contains(i) implies i == first by {
            let p = members.index_of(i);
            assert(members[p] == i);
        }
        assert(members.contains(first));
    }
    assert forall|i: int| 0 <= i < next.len() && (#[trigger] next[i]) is Some implies !has_var(
        next[i]->0,
    ) && names(next[i]->0).len() == 0 by {
        reveal(has_var);
        if !members.contains(i) {
            assert(next[i] == done[i]);
        }
    }
    assert forall|i: int| 0 <= i < next.len() implies ((#[trigger] next[i]) is Some <==> exists|
        j: int,
    |
        0 <= j < k + 1 && #[trigger] groups[j].contains(i)) by {
        if members.contains(i) {
            assert(groups[k].contains(i));
        } else {
            assert(next[i] == done[i]);
            if done[i] is Some {
                let j = choose|j: int| 0 <= j < k && #[trigger] groups[j].contains(i);
                assert(groups[j].contains(i));
            }
        }
    }
}

/// Where every component before builds, what was built is closed.
pub proof fn stages_stand(keys: Seq<Seq<char>>, bodies: Seq<Shape>, k: int)
    requires
        sound(keys, bodies),
        0 <= k <= groups_of(keys, bodies).len(),
        forall|j: int| 0 <= j < k ==> #[trigger] builds(keys, bodies, j),
    ensures
        stage(keys, bodies, k),
    decreases k,
{
    if k > 0 {
        stages_stand(keys, bodies, k - 1);
        assert(builds(keys, bodies, k - 1));
        stages_follow(keys, bodies, k - 1);
    }
}

/// What was built stays.
pub proof fn built_types_stay(keys: Seq<Seq<char>>, bodies: Seq<Shape>, i: int, k: int, m: int)
    requires
        sound(keys, bodies),
        0 <= k <= m <= groups_of(keys, bodies).len(),
        forall|j: int| 0 <= j < m ==> #[trigger] builds(keys, bodies, j),
        0 <= i < keys.len(),
        built_before(keys, bodies, k as nat)[i] is Some,
    ensures
        built_before(keys, bodies, m as nat)[i] == built_before(keys, bodies, k as nat)[i],
    decreases m - k,
{
    if k < m {
        built_types_stay(keys, bodies, i, k, m - 1);
        let g = mention_graph(keys, bodies);
        assert(square(g));
        stages_stand(keys, bodies, k);
        stages_stand(keys, bodies, m - 1);
        assert(builds(keys, bodies, m - 1));
        stages_follow(keys, bodies, m - 1);
        assert(stage(keys, bodies, k));
        let j = choose|j: int| 0 <= j < k && #[trigger] groups_of(keys, bodies)[j].contains(i);
        if groups_of(keys, bodies)[m - 1].contains(i) {
            components_are_disjoint(g, j, m - 1, i);
        }
    }
}

/// Where a set of definitions builds, each of its components does.
proof fn steps_build(keys: Seq<Seq<char>>, bodies: Seq<Shape>, k: int)
    requires
        0 <= k <= groups_of(keys, bodies).len(),
        build_groups(
            keys,
            bodies,
            groups_of(keys, bodies),
            0,
            built_before(keys, bodies, 0),
        ) is Ok,
    ensures
        build_groups(
            keys,
            bodies,
            groups_of(keys, bodies),
            k,
            built_before(keys, bodies, k as nat),
        ) == build_groups(
            keys,
            bodies,
            groups_of(keys, bodies),
            0,
            built_before(keys, bodies, 0),
        ),
        forall|j: int| 0 <= j < k ==> #[trigger] builds(keys, bodies, j),
    decreases k,
{
    if k > 0 {
        steps_build(keys, bodies, k - 1);
    }
}

/// Where each component builds, so does the set.
proof fn steps_end(keys: Seq<Seq<char>>, bodies: Seq<Shape>, k: int)
    requires
        0 <= k <= groups_of(keys, bodies).len(),
        forall|j: int|
            0 <= j < groups_of(keys, bodies).len() ==> #[trigger] builds(keys, bodies, j),
    ensures
        build_groups(
            keys,
            bodies,
            groups_of(keys, bodies),
            k,
            built_before(keys, bodies, k as nat),
        ) == Ok::<Seq<Option<Shape>>, crate::hir::recursive::rules::BuildFault>(
            built_before(keys, bodies, groups_of(keys, bodies).len()),
        ),
    decreases groups_of(keys, bodies).len() - k,
{
    if k < groups_of(keys, bodies).len() {
        assert(builds(keys, bodies, k));
        steps_end(keys, bodies, k + 1);
    }
}

/// Whatever the members of a component mention is a member, or was built before.
pub proof fn parts_are_complete(keys: Seq<Seq<char>>, bodies: Seq<Shape>, k: int)
    requires
        sound(keys, bodies),
        0 <= k < groups_of(keys, bodies).len(),
        stage(keys, bodies, k),
    ensures
        part_at(keys, bodies, k).complete(),
{
    let g = mention_graph(keys, bodies);
    assert(square(g));
    components_are_listed(g, k);
    let x = part_at(keys, bodies, k);
    assert forall|p: int, key: Seq<char>|
        0 <= p < x.members().len() && #[trigger] names(x.body(p)).contains(key) implies x.knows(
        key,
    ) by {
        let u = x.members()[p];
        assert(names(bodies[u]).contains(key));
        position_found(keys, key, 0);
        let i = position(keys, key, 0)->0;
        assert(edge(g, u, i));
        edge_reaches(g, u, i);
        assert(x.members().contains(u));
        components_come_after_what_they_reach(g, k, u, i);
        let j = choose|j: int| 0 <= j <= k && #[trigger] groups_of(keys, bodies)[j].contains(i);
        if j < k {
            assert(x.done[i] is Some);
        }
    }
}

// ---------------------------------------------------------------------------------------------
// Two sets of definitions
// ---------------------------------------------------------------------------------------------

/// The other definitions are the same under other keys, and the one at `i` is at `to[i]`.
pub open spec fn recast(
    keys: Seq<Seq<char>>,
    bodies: Seq<Shape>,
    others: Seq<Seq<char>>,
    other_bodies: Seq<Shape>,
    to: Seq<int>,
) -> bool {
    &&& keys.len() == bodies.len()
    &&& others.len() == keys.len()
    &&& other_bodies.len() == keys.len()
    &&& to.len() == keys.len()
    &&& permutes(to, to.len())
    &&& forall|i: int|
        0 <= i < to.len() ==> other_bodies[#[trigger] to[i]] == subst(
            bodies[i],
            recasting(keys, others, to),
        )
}

/// The other definitions are sound, and mention what stands for what the first mention.
proof fn recast_is_sound(
    keys: Seq<Seq<char>>,
    bodies: Seq<Shape>,
    others: Seq<Seq<char>>,
    other_bodies: Seq<Shape>,
    to: Seq<int>,
)
    requires
        sound(keys, bodies),
        others.no_duplicates(),
        recast(keys, bodies, others, other_bodies, to),
    ensures
        sound(others, other_bodies),
        forall|i: int| 0 <= i < to.len() ==> 0 <= #[trigger] to[i] < to.len() && to.index_of(to[i])
            == i,
        forall|i: int, j: int|
            0 <= i < to.len() && 0 <= j < to.len() ==> (names(bodies[i]).contains(keys[j])
                <==> names(other_bodies[#[trigger] to[i]]).contains(others[#[trigger] to[j]])),
{
    let scope = recasting(keys, others, to);
    assert forall|i: int| 0 <= i < to.len() implies 0 <= #[trigger] to[i] < to.len()
        && to.index_of(to[i]) == i by {
        assert(to.contains(to[i]));
    }
    assert forall|i: int| 0 <= i < to.len() implies {
        &&& #[trigger] names(other_bodies[to[i]]) == recast_names(
            names(bodies[i]),
            keys,
            others,
            to,
        )
        &&& slotless(other_bodies[to[i]])
        &&& other_bodies[to[i]] is Struct || other_bodies[to[i]] is Enum
    } by {
        let t = bodies[i];
        let found = names(t);
        assert forall|k: int| 0 <= k < found.len() implies position(
            keys,
            #[trigger] found[k],
            0,
        ) is Some by {
            assert(found.contains(found[k]));
        }
        names_after(t, scope);
        names_are_recast(found, keys, others, to);
        assert forall|key: Seq<char>| slotless(#[trigger] stands(scope, key)) by {
            reveal(slotless);
            position_found(keys, key, 0);
        }
        slotless_after(t, scope);
        subst_unfold(t, scope);
    }
    assert forall|j: int| 0 <= j < other_bodies.len() implies {
        &&& slotless(#[trigger] other_bodies[j])
        &&& other_bodies[j] is Struct || other_bodies[j] is Enum
    } by {
        assert(to.contains(j));
        let i = to.index_of(j);
        assert(to[i] == j);
        assert(names(other_bodies[to[i]]) == recast_names(names(bodies[i]), keys, others, to));
    }
    assert forall|i: int, j: int| 0 <= i < to.len() && 0 <= j < to.len() implies (names(
        bodies[i],
    ).contains(keys[j]) <==> names(other_bodies[#[trigger] to[i]]).contains(
        others[#[trigger] to[j]],
    )) by {
        let found = names(bodies[i]);
        let made = names(other_bodies[to[i]]);
        assert(made == recast_names(found, keys, others, to));
        if found.contains(keys[j]) {
            let k = found.index_of(keys[j]);
            position_of_distinct(keys, j);
            assert(made[k] == others[to[j]]);
        }
        if made.contains(others[to[j]]) {
            let k = made.index_of(others[to[j]]);
            assert(found.contains(found[k]));
            position_found(keys, found[k], 0);
            let l = position(keys, found[k], 0)->0;
            assert(others[to[l]] == others[to[j]]);
            assert(to[l] == to[j]);
            assert(l == to.index_of(to[l]));
            assert(found[k] == keys[j]);
        }
    }
    assert forall|j: int, key: Seq<char>|
        0 <= j < other_bodies.len() && #[trigger] names(other_bodies[j]).contains(
            key,
        ) implies position(others, key, 0) is Some by {
        assert(to.contains(j));
        let i = to.index_of(j);
        assert(to[i] == j);
        let found = names(bodies[i]);
        let made = names(other_bodies[to[i]]);
        assert(made == recast_names(found, keys, others, to));
        let k = made.index_of(key);
        assert(found.contains(found[k]));
        position_found(keys, found[k], 0);
        let l = position(keys, found[k], 0)->0;
        assert(0 <= to[l] < to.len());
        position_found(others, key, 0);
        assert(others[to[l]] == key);
    }
}

/// Where edges have images, so do paths.
proof fn paths_have_images(
    g: Graph,
    h: Graph,
    image: spec_fn(int) -> int,
    u: int,
    v: int,
    steps: nat,
)
    requires
        leads(g, u, v, steps),
        forall|a: int, b: int| #[trigger] edge(g, a, b) ==> edge(h, image(a), image(b)),
    ensures
        reaches(h, image(u), image(v)),
    decreases steps,
{
    if u == v {
        reaches_itself(h, image(u));
    } else {
        let w = choose|w: int| #[trigger] edge(g, u, w) && leads(g, w, v, (steps - 1) as nat);
        paths_have_images(g, h, image, w, v, (steps - 1) as nat);
        edge_reaches(h, image(u), image(w));
        reaches_on(h, image(u), image(w), image(v));
    }
}

/// Definitions that reach each other still do.
proof fn paths_are_recast(
    keys: Seq<Seq<char>>,
    bodies: Seq<Shape>,
    others: Seq<Seq<char>>,
    other_bodies: Seq<Shape>,
    to: Seq<int>,
    u: int,
    v: int,
)
    requires
        sound(keys, bodies),
        others.no_duplicates(),
        recast(keys, bodies, others, other_bodies, to),
        0 <= u < to.len(),
        0 <= v < to.len(),
    ensures
        reaches(mention_graph(keys, bodies), u, v) <==> reaches(
            mention_graph(others, other_bodies),
            to[u],
            to[v],
        ),
{
    recast_is_sound(keys, bodies, others, other_bodies, to);
    let g = mention_graph(keys, bodies);
    let h = mention_graph(others, other_bodies);
    if reaches(g, u, v) {
        let steps = choose|steps: nat| #[trigger] leads(g, u, v, steps);
        let image = |i: int| to[i];
        assert forall|a: int, b: int| #[trigger] edge(g, a, b) implies edge(
            h,
            image(a),
            image(b),
        ) by {
            assert(g[a][b] == names(bodies[a]).contains(keys[b]));
            assert(h[to[a]][to[b]] == names(other_bodies[to[a]]).contains(others[to[b]]));
        }
        paths_have_images(g, h, image, u, v, steps);
    }
    if reaches(h, to[u], to[v]) {
        let steps = choose|steps: nat| #[trigger] leads(h, to[u], to[v], steps);
        let image = |j: int| to.index_of(j);
        assert forall|a: int, b: int| #[trigger] edge(h, a, b) implies edge(
            g,
            image(a),
            image(b),
        ) by {
            assert(to.contains(a) && to.contains(b));
            let i = to.index_of(a);
            let j = to.index_of(b);
            assert(to[i] == a && to[j] == b);
            assert(g[i][j] == names(bodies[i]).contains(keys[j]));
            assert(h[a][b] == names(other_bodies[to[i]]).contains(others[to[j]]));
        }
        paths_have_images(h, g, image, to[u], to[v], steps);
        assert(to.index_of(to[u]) == u && to.index_of(to[v]) == v);
    }
}

/// The components correspond.
proof fn groups_are_recast(
    keys: Seq<Seq<char>>,
    bodies: Seq<Shape>,
    others: Seq<Seq<char>>,
    other_bodies: Seq<Shape>,
    to: Seq<int>,
    m: int,
) -> (k: int)
    requires
        sound(keys, bodies),
        others.no_duplicates(),
        recast(keys, bodies, others, other_bodies, to),
        0 <= m < groups_of(others, other_bodies).len(),
    ensures
        0 <= k < groups_of(keys, bodies).len(),
        forall|i: int|
            0 <= i < to.len() ==> (groups_of(keys, bodies)[k].contains(i) <==> groups_of(
                others,
                other_bodies,
            )[m].contains(#[trigger] to[i])),
        groups_of(keys, bodies)[k].len() == groups_of(others, other_bodies)[m].len(),
{
    recast_is_sound(keys, bodies, others, other_bodies, to);
    let g = mention_graph(keys, bodies);
    let h = mention_graph(others, other_bodies);
    assert(square(g));
    assert(square(h));
    components_are_listed(h, m);
    let there = components(h)[m];
    let v = there[0];
    assert(there.contains(v));
    assert(to.contains(v));
    let u = to.index_of(v);
    assert(to[u] == v);
    let k = components_cover(g, u);
    components_are_listed(g, k);
    let here = components(g)[k];
    assert forall|i: int| 0 <= i < to.len() implies (here.contains(i) <==> there.contains(
        #[trigger] to[i],
    )) by {
        components_are_mutual(g, k, u, i);
        components_are_mutual(h, m, v, to[i]);
        paths_are_recast(keys, bodies, others, other_bodies, to, u, i);
        paths_are_recast(keys, bodies, others, other_bodies, to, i, u);
    }
    let image = |i: int| to[i];
    assert(here.to_set().map(image) =~= there.to_set()) by {
        assert forall|j: int| #[trigger]
            here.to_set().map(image).contains(j) implies there.to_set().contains(j) by {
            let i = choose|i: int| here.to_set().contains(i) && j == image(i);
            assert(here.contains(i));
            let p = here.index_of(i);
            assert(here[p] == i);
            assert(there.contains(to[i]));
        }
        assert forall|j: int| #[trigger] there.to_set().contains(j) implies here.to_set().map(
            image,
        ).contains(j) by {
            assert(there.contains(j));
            let q = there.index_of(j);
            assert(there[q] == j);
            assert(to.contains(j));
            let i = to.index_of(j);
            assert(to[i] == j);
            assert(here.contains(i));
            assert(here.to_set().contains(i));
            assert(image(i) == j);
        }
    }
    assert(vstd::relations::injective_on(image, here.to_set())) by {
        assert forall|a: int, b: int|
            here.to_set().contains(a) && here.to_set().contains(b) && #[trigger] image(a)
                == #[trigger] image(b) implies a == b by {
            assert(here.contains(a) && here.contains(b));
            let p = here.index_of(a);
            let q = here.index_of(b);
            assert(here[p] == a && here[q] == b);
            assert(to.index_of(to[a]) == a && to.index_of(to[b]) == b);
        }
    }
    here.unique_seq_to_set();
    there.unique_seq_to_set();
    vstd::seq_lib::seq_to_set_is_finite(here);
    vstd::set_lib::lemma_map_size(here.to_set(), there.to_set(), image);
    k
}

/// What was built of the other definitions so far is what the first built.
pub open spec fn keeps_up(
    keys: Seq<Seq<char>>,
    bodies: Seq<Shape>,
    others: Seq<Seq<char>>,
    other_bodies: Seq<Shape>,
    to: Seq<int>,
    m: int,
) -> bool {
    let all = built_before(keys, bodies, groups_of(keys, bodies).len());
    let done = built_before(others, other_bodies, m as nat);
    forall|i: int|
        0 <= i < to.len() && done[#[trigger] to[i]] is Some ==> done[to[i]] == all[i]
}

/// The component and the one that stands for it, when the latter is built.
spec fn twins_at(
    keys: Seq<Seq<char>>,
    bodies: Seq<Shape>,
    others: Seq<Seq<char>>,
    other_bodies: Seq<Shape>,
    to: Seq<int>,
    k: int,
    m: int,
) -> Twins {
    Twins { x: part_at(keys, bodies, k), y: part_at(others, other_bodies, m), to }
}

/// The two components are the same but for their keys and their order.
proof fn groups_are_twins(
    keys: Seq<Seq<char>>,
    bodies: Seq<Shape>,
    others: Seq<Seq<char>>,
    other_bodies: Seq<Shape>,
    to: Seq<int>,
    k: int,
    m: int,
)
    requires
        sound(keys, bodies),
        sound(others, other_bodies),
        recast(keys, bodies, others, other_bodies, to),
        forall|j: int|
            0 <= j < groups_of(keys, bodies).len() ==> #[trigger] builds(keys, bodies, j),
        0 <= m < groups_of(others, other_bodies).len(),
        0 <= k < groups_of(keys, bodies).len(),
        forall|i: int|
            0 <= i < to.len() ==> (groups_of(keys, bodies)[k].contains(i) <==> groups_of(
                others,
                other_bodies,
            )[m].contains(#[trigger] to[i])),
        groups_of(keys, bodies)[k].len() == groups_of(others, other_bodies)[m].len(),
        stage(others, other_bodies, m),
        keeps_up(keys, bodies, others, other_bodies, to, m),
    ensures
        twins_at(keys, bodies, others, other_bodies, to, k, m).wf(),
{
    let w = twins_at(keys, bodies, others, other_bodies, to, k, m);
    let g = mention_graph(keys, bodies);
    let h = mention_graph(others, other_bodies);
    assert(square(g));
    assert(square(h));
    let last = groups_of(keys, bodies).len() as int;
    assert(builds(keys, bodies, k));
    stages_stand(keys, bodies, k);
    parts_are_groups(keys, bodies, k);
    parts_are_complete(keys, bodies, k);
    assert(w.x.wf());
    members_are_listed(w.x);
    assert(w.y.members().len() <= MAX_RECURSIVE_GROUP_SIZE);
    assert forall|i: int| 0 <= i < w.y.done.len() && w.y.members().contains(i) implies (
    #[trigger] w.y.done[i]) is None by {
        if w.y.done[i] is Some {
            let j = choose|j: int|
                0 <= j < m && #[trigger] groups_of(others, other_bodies)[j].contains(i);
            components_are_disjoint(h, j, m, i);
        }
    }
    assert(w.y.wf());
    assert forall|p: int, key: Seq<char>|
        0 <= p < w.x.members().len() && #[trigger] names(w.x.body(p)).contains(key) implies {
        let i = position(keys, key, 0)->0;
        w.x.members().contains(i) || w.x.done[i] == w.y.done[to[i]]
    } by {
        assert(w.x.knows(key));
        position_found(keys, key, 0);
        let i = position(keys, key, 0)->0;
        if !w.x.members().contains(i) {
            built_types_stay(keys, bodies, i, k, last);
            let u = w.x.members()[p];
            assert(edge(g, u, i));
            edge_reaches(g, u, i);
            paths_are_recast(keys, bodies, others, other_bodies, to, u, i);
            assert(w.x.members().contains(u));
            assert(groups_of(others, other_bodies)[m].contains(to[u]));
            components_come_after_what_they_reach(h, m, to[u], to[i]);
            let j = choose|j: int|
                0 <= j <= m && #[trigger] groups_of(others, other_bodies)[j].contains(to[i]);
            assert(j < m);
            assert(to.contains(to[i]));
            assert(w.y.done[to[i]] is Some);
        }
    }
}

/// The component that stands for one that builds builds the same types.
proof fn twins_build_alike(w: Twins)
    requires
        w.wf(),
        w.x.members().len() == w.y.members().len(),
        build_group(w.x.keys, w.x.bodies, w.x.members(), w.x.done) is Ok,
    ensures
        build_group(w.y.keys, w.y.bodies, w.y.members(), w.y.done) is Ok,
        ({
            let here = build_group(w.x.keys, w.x.bodies, w.x.members(), w.x.done)->Ok_0;
            let there = build_group(w.y.keys, w.y.bodies, w.y.members(), w.y.done)->Ok_0;
            forall|i: int|
                0 <= i < w.to.len() && w.x.members().contains(i) ==> there[#[trigger] w.to[i]]
                    == here[i]
        }),
{
    members_are_listed(w.x);
    members_are_listed(w.y);
    members_correspond(w);
    let here = build_group(w.x.keys, w.x.bodies, w.x.members(), w.x.done)->Ok_0;
    let u = w.x.members()[0];
    let v = w.y.members()[0];
    let t = w.x.body(0);
    let recursive = is_recursive(w.x.keys, w.x.bodies, w.x.members());
    if w.x.members().len() == 1 {
        assert(0 <= w.across(0) < 1);
        assert(v == w.to[u]);
        names_after(t, w.scope());
        let found = names(t);
        assert forall|k: int| 0 <= k < found.len() implies position(
            w.x.keys,
            #[trigger] found[k],
            0,
        ) is Some by {
            assert(found.contains(found[k]));
            assert(names(w.x.body(0)).contains(found[k]));
            twin_keys(w, 0, found[k]);
        }
        names_are_recast(found, w.x.keys, w.y.keys, w.to);
        let made = names(w.y.body(0));
        assert(made == recast_names(found, w.x.keys, w.y.keys, w.to));
        assert(found.contains(w.x.keys[u]) <==> made.contains(w.y.keys[v])) by {
            if found.contains(w.x.keys[u]) {
                let k = found.index_of(w.x.keys[u]);
                position_of_distinct(w.x.keys, u);
                assert(made[k] == w.y.keys[v]);
            }
            if made.contains(w.y.keys[v]) {
                let k = made.index_of(w.y.keys[v]);
                assert(found.contains(found[k]));
                assert(names(w.x.body(0)).contains(found[k]));
                twin_keys(w, 0, found[k]);
                let l = position(w.x.keys, found[k], 0)->0;
                assert(w.y.keys[w.to[l]] == w.y.keys[w.to[u]]);
                assert(w.to[l] == w.to[u]);
                assert(w.to.index_of(w.to[l]) == l && w.to.index_of(w.to[u]) == u);
            }
        }
    }
    assert(recursive == is_recursive(w.y.keys, w.y.bodies, w.y.members()));
    if !recursive {
        assert(slotless(w.x.bodies[u]));
        assert forall|key: Seq<char>|
            #![trigger stands(w.x.plain(), key)]
            names(t).contains(key) implies subst(stands(w.scope(), key), w.y.plain()) == stands(
            w.x.plain(),
            key,
        ) by {
            assert(names(w.x.body(0)).contains(key));
            twin_keys(w, 0, key);
            let i = position(w.x.keys, key, 0)->0;
            if w.x.members().contains(i) {
                let p = w.x.members().index_of(i);
                assert(w.x.members()[p] == i);
                assert(i == u);
            }
            subst_unfold(Shape::Name(w.y.keys[w.to[i]]), w.y.plain());
        }
        subst_twice(t, w.scope(), w.y.plain(), w.x.plain());
        assert(0 <= w.across(0) < 1);
        assert forall|i: int|
            0 <= i < w.to.len() && w.x.members().contains(i) implies #[trigger] w.to[i] == v && i
            == u by {
            let p = w.x.members().index_of(i);
            assert(w.x.members()[p] == i);
        }
    } else {
        twins_are_defined_alike(w);
        let there = build_group(w.y.keys, w.y.bodies, w.y.members(), w.y.done)->Ok_0;
        assert forall|i: int| 0 <= i < w.to.len() && w.x.members().contains(i) implies there[
        #[trigger] w.to[i]] == here[i] by {
            let p = w.x.members().index_of(i);
            assert(w.x.members()[p] == i);
            assert(0 <= w.across(p) < w.y.members().len());
            assert(w.x.numbers()[p] == w.y.numbers()[w.across(p)]);
            assert(w.y.members().contains(w.to[i]));
            assert(here[i] == Some(Shape::Rec(w.x.definitions(), w.x.numbers()[p])));
            assert(there[w.to[i]] == Some(
                Shape::Rec(w.y.definitions(), w.y.numbers()[w.across(p)]),
            ));
        }
    }
}

/// The first components of the other set build what stands for them.
proof fn recast_builds(
    keys: Seq<Seq<char>>,
    bodies: Seq<Shape>,
    others: Seq<Seq<char>>,
    other_bodies: Seq<Shape>,
    to: Seq<int>,
    m: int,
)
    requires
        sound(keys, bodies),
        sound(others, other_bodies),
        recast(keys, bodies, others, other_bodies, to),
        forall|j: int|
            0 <= j < groups_of(keys, bodies).len() ==> #[trigger] builds(keys, bodies, j),
        0 <= m <= groups_of(others, other_bodies).len(),
    ensures
        forall|j: int| 0 <= j < m ==> #[trigger] builds(others, other_bodies, j),
        stage(others, other_bodies, m),
        keeps_up(keys, bodies, others, other_bodies, to, m),
    decreases m,
{
    let last = groups_of(keys, bodies).len() as int;
    assert forall|i: int| 0 <= i < to.len() implies 0 <= #[trigger] to[i] < to.len() by {
        assert(to.contains(to[i]));
    }
    if m == 0 {
        stages_stand(others, other_bodies, 0);
    } else {
        let j = m - 1;
        recast_builds(keys, bodies, others, other_bodies, to, j);
        let k = groups_are_recast(keys, bodies, others, other_bodies, to, j);
        groups_are_twins(keys, bodies, others, other_bodies, to, k, j);
        let w = twins_at(keys, bodies, others, other_bodies, to, k, j);
        assert(builds(keys, bodies, k));
        twins_build_alike(w);
        assert(builds(others, other_bodies, j));
        stages_follow(others, other_bodies, j);
        stages_stand(keys, bodies, k);
        stages_follow(keys, bodies, k);
        let all = built_before(keys, bodies, last as nat);
        let done = built_before(others, other_bodies, m as nat);
        assert forall|i: int|
            0 <= i < to.len() && done[#[trigger] to[i]] is Some implies done[to[i]] == all[i] by {
            if w.x.members().contains(i) {
                let here = built_before(keys, bodies, (k + 1) as nat);
                assert(groups_of(keys, bodies)[k].contains(i));
                assert(here[i] is Some);
                built_types_stay(keys, bodies, i, k + 1, last);
            } else {
                assert(!w.y.members().contains(to[i]));
                assert(done[to[i]] == w.y.done[to[i]]);
            }
        }
    }
}

// ---------------------------------------------------------------------------------------------
// The laws
// ---------------------------------------------------------------------------------------------

/// Keys under which definitions can be given: none is empty, and no two are the same.
pub open spec fn usable_keys(keys: Seq<Seq<char>>) -> bool {
    &&& keys.no_duplicates()
    &&& forall|i: int| 0 <= i < keys.len() ==> (#[trigger] keys[i]).len() > 0
}

proof fn usable_keys_have_no_fault(keys: Seq<Seq<char>>, i: int)
    requires
        usable_keys(keys),
        0 <= i <= keys.len(),
    ensures
        key_fault(keys, i) is None,
    decreases keys.len() - i,
{
    if i < keys.len() {
        position_of_distinct(keys, i);
        usable_keys_have_no_fault(keys, i + 1);
    }
}

/// What builds is sound, each component of it builds, and every definition has a type.
pub proof fn what_builds_is_sound(keys: Seq<Seq<char>>, bodies: Seq<Shape>)
    requires
        keys.len() == bodies.len(),
        open_definitions(bodies),
        build(keys, bodies) is Ok,
    ensures
        sound(keys, bodies),
        forall|j: int|
            0 <= j < groups_of(keys, bodies).len() ==> #[trigger] builds(keys, bodies, j),
        build(keys, bodies)->Ok_0 == built_before(keys, bodies, groups_of(keys, bodies).len()),
        build(keys, bodies)->Ok_0.len() == keys.len(),
        forall|i: int| 0 <= i < keys.len() ==> (#[trigger] build(keys, bodies)->Ok_0[i]) is Some,
{
    sound_keys_are_distinct(keys, 0);
    assert forall|a: int, b: int| 0 <= a < b < keys.len() implies keys[a] != keys[b] by {
        assert(position(keys, keys[a], 0) == Some(a));
        assert(position(keys, keys[b], 0) == Some(b));
    }
    no_reference_fails(keys, bodies, 0);
    let last = groups_of(keys, bodies).len();
    steps_build(keys, bodies, last as int);
    steps_end(keys, bodies, 0);
    stages_stand(keys, bodies, last as int);
    let g = mention_graph(keys, bodies);
    assert(square(g));
    assert forall|i: int| 0 <= i < keys.len() implies (#[trigger] build(
        keys,
        bodies,
    )->Ok_0[i]) is Some by {
        let k = components_cover(g, i);
        assert(groups_of(keys, bodies)[k].contains(i));
        assert(built_before(keys, bodies, last)[i] is Some);
    }
}

proof fn recast_builds_alike(
    keys: Seq<Seq<char>>,
    bodies: Seq<Shape>,
    others: Seq<Seq<char>>,
    other_bodies: Seq<Shape>,
    to: Seq<int>,
)
    requires
        open_definitions(bodies),
        usable_keys(others),
        recast(keys, bodies, others, other_bodies, to),
        build(keys, bodies) is Ok,
    ensures
        build(others, other_bodies) is Ok,
        build(others, other_bodies)->Ok_0.len() == others.len(),
        forall|i: int|
            0 <= i < to.len() ==> build(others, other_bodies)->Ok_0[#[trigger] to[i]] == build(
                keys,
                bodies,
            )->Ok_0[i],
{
    what_builds_is_sound(keys, bodies);
    recast_is_sound(keys, bodies, others, other_bodies, to);
    usable_keys_have_no_fault(others, 0);
    no_reference_fails(others, other_bodies, 0);
    let last = groups_of(others, other_bodies).len();
    recast_builds(keys, bodies, others, other_bodies, to, last as int);
    steps_end(others, other_bodies, 0);
    assert(build(others, other_bodies)->Ok_0 == built_before(others, other_bodies, last));
    what_builds_is_sound(others, other_bodies);
    assert forall|i: int| 0 <= i < to.len() implies build(others, other_bodies)->Ok_0[
    #[trigger] to[i]] == build(keys, bodies)->Ok_0[i] by {
        assert(0 <= to[i] < to.len());
        assert(build(others, other_bodies)->Ok_0[to[i]] is Some);
    }
}

/// The definitions with each reference to one of them under its other key.
pub open spec fn rekeyed(
    keys: Seq<Seq<char>>,
    bodies: Seq<Shape>,
    others: Seq<Seq<char>>,
) -> Seq<Shape> {
    Seq::new(
        bodies.len(),
        |i: int|
            subst(
                bodies[i],
                Scope {
                    keys,
                    values: Seq::new(keys.len(), |j: int| Some(Shape::Name(others[j]))),
                },
            ),
    )
}

/// Keys serve to refer, and for nothing else: under other keys, the definitions build the same
/// types.
pub proof fn keys_do_not_matter(
    keys: Seq<Seq<char>>,
    bodies: Seq<Shape>,
    others: Seq<Seq<char>>,
)
    requires
        keys.len() == bodies.len(),
        others.len() == keys.len(),
        open_definitions(bodies),
        usable_keys(others),
        build(keys, bodies) is Ok,
    ensures
        build(others, rekeyed(keys, bodies, others)) == build(keys, bodies),
{
    let to = Seq::new(keys.len(), |i: int| i);
    let other_bodies = rekeyed(keys, bodies, others);
    assert forall|i: int| #[trigger] to.contains(i) <==> 0 <= i < to.len() by {
        if 0 <= i < to.len() {
            assert(to[i] == i);
        }
    }
    let scope = Scope {
        keys,
        values: Seq::new(keys.len(), |j: int| Some(Shape::Name(others[j]))),
    };
    assert(recasting(keys, others, to).values =~= scope.values);
    recast_builds_alike(keys, bodies, others, other_bodies, to);
    what_builds_is_sound(keys, bodies);
    let here = build(keys, bodies)->Ok_0;
    let there = build(others, other_bodies)->Ok_0;
    assert forall|i: int| 0 <= i < here.len() implies here[i] == there[i] by {
        assert(to[i] == i);
    }
    assert(here =~= there);
}

/// Neither keys nor order matter: the definitions under other keys, and in another order, build the
/// same types.
pub proof fn order_does_not_matter(
    keys: Seq<Seq<char>>,
    bodies: Seq<Shape>,
    others: Seq<Seq<char>>,
    other_bodies: Seq<Shape>,
    to: Seq<int>,
)
    requires
        open_definitions(bodies),
        usable_keys(others),
        recast(keys, bodies, others, other_bodies, to),
        build(keys, bodies) is Ok,
    ensures
        build(others, other_bodies) is Ok,
        build(others, other_bodies)->Ok_0.len() == others.len(),
        forall|i: int|
            0 <= i < to.len() ==> build(others, other_bodies)->Ok_0[#[trigger] to[i]] == build(
                keys,
                bodies,
            )->Ok_0[i],
{
    recast_builds_alike(keys, bodies, others, other_bodies, to);
}

} // verus!
