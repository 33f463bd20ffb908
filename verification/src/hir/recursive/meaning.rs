//! A type that is built is what its definition says, with every key replaced by the type that was
//! built for it.
use vstd::prelude::*;

use crate::hir::codec::rebuild::{classes_have_members, keys_stand, members_are_listed};
use crate::hir::codec::renaming::{slotless, stands};
use crate::hir::recursive::graph::{components_cover, square};
use crate::hir::recursive::identity::class_members_agree;
use crate::hir::recursive::invariance::{
    built_before, built_types_stay, builds, groups_of, open_definitions,
    part_at, parts_are_complete, parts_are_groups, stages_follow, stages_stand,
    what_builds_is_sound,
};
use crate::hir::recursive::likeness::{
    joined_names_cover, names_of_all_cover, names_of_fields_cover, names_of_variants_cover,
    subst_twice,
};
use crate::hir::recursive::rules::{build, is_recursive, mention_graph};
use crate::hir::recursive::scope::{
    names, names_of_all, position, position_found, subst, subst_all, subst_closed, subst_fields,
    subst_unfold, subst_variants, Scope,
};
use crate::hir::shape::Shape;
use crate::hir::unfold::{bind, bind_all, bind_closed, bind_enum, bind_struct, bind_unfold};

verus! {

/// Replacing names and then binding back-references is replacing names.
proof fn bind_after(t: Shape, inner: Scope, definitions: Seq<Shape>, end: Scope)
    requires
        slotless(t),
        forall|key: Seq<char>|
            #![trigger stands(end, key)]
            names(t).contains(key) ==> bind(stands(inner, key), definitions) == stands(end, key),
    ensures
        bind(subst(t, inner), definitions) == subst(t, end),
    decreases t,
{
    reveal(slotless);
    subst_unfold(t, inner);
    subst_unfold(t, end);
    let made = subst(t, inner);
    bind_unfold(made, definitions);
    match t {
        Shape::Name(key) => {
            assert(names(t)[0] == key);
            assert(bind(stands(inner, key), definitions) == stands(end, key));
        },
        Shape::Ptr(_, pointee) => {
            bind_after(*pointee, inner, definitions, end);
        },
        Shape::Array(element, _) => {
            bind_after(*element, inner, definitions, end);
        },
        Shape::List(element) => {
            bind_after(*element, inner, definitions, end);
        },
        Shape::Function(f) => {
            assert forall|i: int| 0 <= i < f.params.len() implies bind(
                subst(#[trigger] f.params[i], inner),
                definitions,
            ) == subst(f.params[i], end) by {
                assert forall|key: Seq<char>|
                    #![trigger stands(end, key)]
                    names(f.params[i]).contains(key) implies names(t).contains(key) by {
                    names_of_all_cover(f.params, i, key);
                    joined_names_cover(names_of_all(f.params), names_of_all(f.results), key);
                }
                bind_after(f.params[i], inner, definitions, end);
            }
            assert forall|i: int| 0 <= i < f.results.len() implies bind(
                subst(#[trigger] f.results[i], inner),
                definitions,
            ) == subst(f.results[i], end) by {
                assert forall|key: Seq<char>|
                    #![trigger stands(end, key)]
                    names(f.results[i]).contains(key) implies names(t).contains(key) by {
                    names_of_all_cover(f.results, i, key);
                    joined_names_cover(names_of_all(f.params), names_of_all(f.results), key);
                }
                bind_after(f.results[i], inner, definitions, end);
            }
            assert(bind_all(subst_all(f.params, inner), definitions) =~= subst_all(f.params, end));
            assert(bind_all(subst_all(f.results, inner), definitions) =~= subst_all(
                f.results,
                end,
            ));
        },
        Shape::Struct(s) => {
            assert forall|i: int| 0 <= i < s.fields.len() implies bind(
                subst((#[trigger] s.fields[i]).ty, inner),
                definitions,
            ) == subst(s.fields[i].ty, end) by {
                assert forall|key: Seq<char>|
                    #![trigger stands(end, key)]
                    names(s.fields[i].ty).contains(key) implies names(t).contains(key) by {
                    names_of_fields_cover(s.fields, i, key);
                }
                bind_after(s.fields[i].ty, inner, definitions, end);
            }
            assert(bind_struct(made->Struct_0, definitions).fields =~= subst_fields(
                s.fields,
                end,
            ));
        },
        Shape::Enum(e) => {
            subst_closed(*e.discriminant, inner);
            subst_closed(*e.discriminant, end);
            bind_closed(*e.discriminant, definitions);
            let bound = bind_enum(made->Enum_0, definitions).variants;
            assert forall|i: int| 0 <= i < e.variants.len() implies (#[trigger] bound[i])
                == subst_variants(e.variants, end)[i] by {
                if let Some(value) = e.variants[i].value {
                    assert forall|key: Seq<char>|
                        #![trigger stands(end, key)]
                        names(value).contains(key) implies names(t).contains(key) by {
                        names_of_variants_cover(e.variants, i, key);
                    }
                    bind_after(value, inner, definitions, end);
                }
            }
            assert(bound =~= subst_variants(e.variants, end));
        },
        _ => {},
    }
}

/// A type unfolded one level, where it is recursive.
pub open spec fn unfolded(t: Shape) -> Shape {
    match t {
        Shape::Rec(definitions, c) => bind(definitions[c as int], definitions),
        _ => t,
    }
}

/// A type that is built unfolds to its definition, in which every key stands for the type that was
/// built for it.
pub proof fn built_types_unfold_to_their_definitions(
    keys: Seq<Seq<char>>,
    bodies: Seq<Shape>,
    i: int,
)
    requires
        keys.len() == bodies.len(),
        open_definitions(bodies),
        build(keys, bodies) is Ok,
        0 <= i < keys.len(),
    ensures
        build(keys, bodies)->Ok_0[i] is Some,
        unfolded(build(keys, bodies)->Ok_0[i]->0) == subst(
            bodies[i],
            Scope { keys, values: build(keys, bodies)->Ok_0 },
        ),
{
    what_builds_is_sound(keys, bodies);
    let g = mention_graph(keys, bodies);
    assert(square(g));
    let all = build(keys, bodies)->Ok_0;
    let end = Scope { keys, values: all };
    let last = groups_of(keys, bodies).len() as int;
    let k = components_cover(g, i);
    assert(builds(keys, bodies, k));
    stages_stand(keys, bodies, k);
    stages_follow(keys, bodies, k);
    parts_are_groups(keys, bodies, k);
    parts_are_complete(keys, bodies, k);
    let x = part_at(keys, bodies, k);
    members_are_listed(x);
    let p = x.members().index_of(i);
    assert(x.members()[p] == i);
    let t = x.body(p);
    assert(slotless(bodies[i]));
    let next = built_before(keys, bodies, (k + 1) as nat);
    assert forall|j: int| #[trigger] x.members().contains(j) implies 0 <= j < keys.len() && all[j]
        == next[j] && next[j] is Some by {
        let q = x.members().index_of(j);
        assert(x.members()[q] == j);
        assert(groups_of(keys, bodies)[k].contains(j));
        assert(next[j] is Some);
        built_types_stay(keys, bodies, j, k + 1, last);
    }
    assert(x.members().contains(i));
    assert forall|key: Seq<char>| names(t).contains(key) implies {
        let j = position(keys, key, 0)->0;
        &&& #[trigger] stands(end, key) == all[j]->0
        &&& 0 <= j < keys.len()
        &&& !x.members().contains(j) ==> x.done[j] is Some && stands(x.plain(), key) == stands(
            end,
            key,
        ) && !crate::hir::shape::has_var(stands(end, key))
    } by {
        assert(names(x.body(p)).contains(key));
        assert(x.knows(key));
        position_found(keys, key, 0);
        let j = position(keys, key, 0)->0;
        assert(all[j] is Some);
        if !x.members().contains(j) {
            built_types_stay(keys, bodies, j, k, last);
        }
    }
    if is_recursive(keys, bodies, x.members()) {
        classes_have_members(x);
        let definitions = x.definitions();
        let c = x.numbers()[p];
        assert(next[i] == Some(Shape::Rec(definitions, c)));
        let r = x.spot(c);
        assert(0 <= r < x.members().len() && x.numbers()[r] == c);
        class_members_agree(x, p, r);
        assert(definitions[c as int] == subst(x.body(r), x.inner()));
        assert forall|key: Seq<char>|
            #![trigger stands(end, key)]
            names(t).contains(key) implies bind(stands(x.inner(), key), definitions) == stands(
            end,
            key,
        ) by {
            keys_stand(x, key);
            let j = position(keys, key, 0)->0;
            assert(stands(end, key) == all[j]->0);
            bind_unfold(stands(x.inner(), key), definitions);
            if x.members().contains(j) {
                assert(next[j] == Some(
                    Shape::Rec(definitions, x.numbers()[x.members().index_of(j)]),
                ));
            } else {
                bind_closed(stands(x.inner(), key), definitions);
            }
        }
        bind_after(t, x.inner(), definitions, end);
    } else {
        assert(x.members()[0] == i);
        assert forall|key: Seq<char>|
            #![trigger stands(end, key)]
            names(t).contains(key) implies subst(stands(x.plain(), key), x.plain()) == stands(
            end,
            key,
        ) by {
            let j = position(keys, key, 0)->0;
            assert(stands(end, key) == all[j]->0);
            position_found(keys, key, 0);
            if x.members().contains(j) {
                let q = x.members().index_of(j);
                assert(x.members()[q] == j);
                assert(j == i);
            } else {
                subst_closed(stands(end, key), x.plain());
            }
        }
        subst_twice(t, x.plain(), x.plain(), end);
        let made = subst(t, x.plain());
        assert(next[i] == Some(made));
        subst_closed(made, x.plain());
        subst_unfold(t, x.plain());
    }
}

} // verus!
