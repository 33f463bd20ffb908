//! The laws of writing and reading types.
use vstd::prelude::*;

use crate::hir::codec::bytes::pow256_values;
use crate::hir::codec::canonical::canonical;
use crate::hir::codec::encode::{discriminant_width, enc};
use crate::hir::codec::parse::{
    oversized_array, parse, struct_fault, DecodeFault, Input, MAX_TYPE_NESTING,
};
use crate::hir::codec::rebuild::{built_groups_are_canonical, Part};
use crate::hir::codec::renaming::{slotless, stands};
use crate::hir::codec::round_trip::{
    abi_fits, label_fits, read_as, readable, reads_type, offers, behind, text_fits, value_fits,
};
use crate::hir::enum_rules::{discriminant_fault, discriminants_fault, enum_fault, is_discriminant};
use crate::hir::enum_type::variants_fit;
use crate::hir::layout::{align_bounds, offsets_grow, types_are_closed, widths_bounded};
use crate::hir::metrics::{field_metrics, metrics, struct_fits, struct_size, Metrics};
use crate::hir::recursive::builder::{def_bodies, def_keys, AggregateTemplate, TemplateDef};
use crate::hir::recursive::graph::{
    components, components_are_disjoint, components_are_listed, square,
};
use crate::hir::recursive::rules::{
    build, build_group, build_groups, is_recursive, key_fault, mention_graph, representative,
};
use crate::hir::recursive::scope::{
    defect, no_defect_of_all, no_defect_of_fields, no_defect_of_variants, position, position_found,
    subst, subst_closed, subst_unfold, Scope,
};
use crate::hir::recursive::template::{
    enum_template_shape, struct_template_shape, template_shape_unfold, variant_template_shape,
    EnumTemplate, StructTemplate, TypeTemplate,
};
use crate::hir::shape::{has_var, EnumShape, Shape, StructShape};
use crate::hir::types::{
    bodies_wf_unfold, body_shapes, body_wf, group_layouts, open_enum_shape, open_enum_wf,
    open_shape_unfold, open_struct_shape, open_struct_wf, open_wf, open_wf_unfold, rec_wf,
    shape_unfold, variant_shape, wf, wf_unfold, EnumRef, OpenAggregate, OpenEnumType,
    OpenStructType, OpenType, RecTypeRef, StructRef, Type, MAX_RECURSIVE_GROUP_SIZE,
};

verus! {

// ---------------------------------------------------------------------------------------------
// What is built is canonical
// ---------------------------------------------------------------------------------------------

/// Every group inside the type is canonical, also those inside the definitions of a group.
#[verifier::opaque]
pub open spec fn canonical_inside(t: Shape) -> bool
    decreases t,
{
    match t {
        Shape::Ptr(_, pointee) => canonical_inside(*pointee),
        Shape::Array(element, _) => canonical_inside(*element),
        Shape::List(element) => canonical_inside(*element),
        Shape::Function(f) => {
            &&& forall|i: int| 0 <= i < f.params.len() ==> canonical_inside(#[trigger] f.params[i])
            &&& forall|i: int|
                0 <= i < f.results.len() ==> canonical_inside(#[trigger] f.results[i])
        },
        Shape::Struct(s) => forall|i: int|
            0 <= i < s.fields.len() ==> canonical_inside((#[trigger] s.fields[i]).ty),
        Shape::Enum(e) => forall|i: int|
            0 <= i < e.variants.len() ==> ((#[trigger] e.variants[i]).value matches Some(value)
                ==> canonical_inside(value)),
        Shape::Rec(definitions, _) => {
            &&& canonical(definitions)
            &&& forall|k: int|
                0 <= k < definitions.len() ==> canonical_inside(#[trigger] definitions[k])
        },
        _ => true,
    }
}

proof fn canonical_after(t: Shape, scope: Scope)
    requires
        canonical_inside(t),
        forall|key: Seq<char>| canonical_inside(#[trigger] stands(scope, key)),
    ensures
        canonical_inside(subst(t, scope)),
    decreases t,
{
    reveal(canonical_inside);
    subst_unfold(t, scope);
    let made = subst(t, scope);
    match t {
        Shape::Name(key) => {
            assert(canonical_inside(stands(scope, key)));
        },
        Shape::Ptr(_, pointee) => {
            canonical_after(*pointee, scope);
        },
        Shape::Array(element, _) => {
            canonical_after(*element, scope);
        },
        Shape::List(element) => {
            canonical_after(*element, scope);
        },
        Shape::Function(f) => {
            let made = made->Function_0;
            assert forall|i: int| 0 <= i < made.params.len() implies canonical_inside(
                #[trigger] made.params[i],
            ) by {
                canonical_after(f.params[i], scope);
            }
            assert forall|i: int| 0 <= i < made.results.len() implies canonical_inside(
                #[trigger] made.results[i],
            ) by {
                canonical_after(f.results[i], scope);
            }
        },
        Shape::Struct(s) => {
            let made = made->Struct_0;
            assert forall|i: int| 0 <= i < made.fields.len() implies canonical_inside(
                (#[trigger] made.fields[i]).ty,
            ) by {
                canonical_after(s.fields[i].ty, scope);
            }
        },
        Shape::Enum(e) => {
            let made = made->Enum_0;
            assert forall|i: int| 0 <= i < made.variants.len() implies ((
            #[trigger] made.variants[i]).value matches Some(value) ==> canonical_inside(value)) by {
                if let Some(value) = e.variants[i].value {
                    canonical_after(value, scope);
                }
            }
        },
        _ => {},
    }
}

/// Where every name stands for a closed type, nothing stays open.
pub proof fn closed_after(t: Shape, scope: Scope)
    requires
        slotless(t),
        defect(subst(t, scope)) is None,
        forall|key: Seq<char>|
            (#[trigger] stands(scope, key)) is Name || !has_var(stands(scope, key)),
    ensures
        !has_var(subst(t, scope)),
    decreases t,
{
    reveal(slotless);
    reveal(has_var);
    subst_unfold(t, scope);
    let made = subst(t, scope);
    match t {
        Shape::Name(key) => {
            assert(stands(scope, key) is Name || !has_var(stands(scope, key)));
        },
        Shape::Ptr(_, pointee) => {
            closed_after(*pointee, scope);
        },
        Shape::Array(element, _) => {
            closed_after(*element, scope);
        },
        Shape::List(element) => {
            closed_after(*element, scope);
        },
        Shape::Function(f) => {
            let made = made->Function_0;
            no_defect_of_all(made.params);
            no_defect_of_all(made.results);
            assert forall|i: int| 0 <= i < made.params.len() implies !has_var(
                #[trigger] made.params[i],
            ) by {
                assert(made.params[i] == subst(f.params[i], scope));
                closed_after(f.params[i], scope);
            }
            assert forall|i: int| 0 <= i < made.results.len() implies !has_var(
                #[trigger] made.results[i],
            ) by {
                assert(made.results[i] == subst(f.results[i], scope));
                closed_after(f.results[i], scope);
            }
        },
        Shape::Struct(s) => {
            let made = made->Struct_0;
            no_defect_of_fields(made.fields);
            assert forall|i: int| 0 <= i < made.fields.len() implies !has_var(
                (#[trigger] made.fields[i]).ty,
            ) by {
                closed_after(s.fields[i].ty, scope);
            }
        },
        Shape::Enum(e) => {
            let made = made->Enum_0;
            subst_closed(*e.discriminant, scope);
            no_defect_of_variants(made.variants);
            assert forall|i: int|
                0 <= i < made.variants.len() && (#[trigger] made.variants[i]).value
                    is Some implies !has_var(made.variants[i].value->0) by {
                if let Some(value) = e.variants[i].value {
                    assert(made.variants[i].value == Some(subst(value, scope)));
                    closed_after(value, scope);
                }
            }
        },
        _ => {},
    }
}

/// The definitions are aggregates that name what they refer to, and the groups in them are
/// canonical.
pub open spec fn definable(bodies: Seq<Shape>) -> bool {
    forall|i: int|
        0 <= i < bodies.len() ==> {
            &&& slotless(#[trigger] bodies[i])
            &&& canonical_inside(bodies[i])
            &&& bodies[i] is Struct || bodies[i] is Enum
        }
}

/// What was built from the first `k` components.
pub open spec fn built_so_far(
    keys: Seq<Seq<char>>,
    groups: Seq<Seq<int>>,
    k: int,
    done: Seq<Option<Shape>>,
) -> bool {
    &&& done.len() == keys.len()
    &&& forall|i: int|
        0 <= i < done.len() && (#[trigger] done[i]) is Some ==> {
            &&& !has_var(done[i]->0)
            &&& canonical_inside(done[i]->0)
            &&& exists|j: int| 0 <= j < k && #[trigger] groups[j].contains(i)
        }
}

proof fn components_stay_canonical(
    keys: Seq<Seq<char>>,
    bodies: Seq<Shape>,
    k: int,
    done: Seq<Option<Shape>>,
)
    requires
        keys.len() == bodies.len(),
        keys.no_duplicates(),
        definable(bodies),
        0 <= k < components(mention_graph(keys, bodies)).len(),
        built_so_far(keys, components(mention_graph(keys, bodies)), k, done),
        build_group(keys, bodies, components(mention_graph(keys, bodies))[k], done) is Ok,
    ensures
        built_so_far(
            keys,
            components(mention_graph(keys, bodies)),
            k + 1,
            build_group(keys, bodies, components(mention_graph(keys, bodies))[k], done)->Ok_0,
        ),
{
    let g = mention_graph(keys, bodies);
    let groups = components(g);
    assert(square(g));
    components_are_listed(g, k);
    let members = groups[k];
    let next = build_group(keys, bodies, members, done)->Ok_0;
    let plain = Scope { keys, values: done };
    assert forall|key: Seq<char>|
        ((#[trigger] stands(plain, key)) is Name || !has_var(stands(plain, key)))
            && canonical_inside(stands(plain, key)) by {
        position_found(keys, key, 0);
        reveal(canonical_inside);
        if let Some(i) = position(keys, key, 0) {
            assert(done[i] is Some || done[i] is None);
        }
    }
    if !is_recursive(keys, bodies, members) {
        let first = members[0];
        let t = bodies[first];
        assert(slotless(t));
        closed_after(t, plain);
        canonical_after(t, plain);
        assert forall|i: int| 0 <= i < next.len() && (#[trigger] next[i]) is Some implies {
            &&& !has_var(next[i]->0)
            &&& canonical_inside(next[i]->0)
            &&& exists|j: int| 0 <= j < k + 1 && #[trigger] groups[j].contains(i)
        } by {
            if i == first {
                assert(groups[k].contains(members[0]));
            } else {
                assert(next[i] == done[i]);
                let j = choose|j: int| 0 <= j < k && #[trigger] groups[j].contains(i);
                assert(groups[j].contains(i));
            }
        }
    } else {
        let x = Part { keys, bodies, k, done };
        assert forall|i: int| 0 <= i < done.len() && members.contains(i) implies (
        #[trigger] done[i]) is None by {
            if done[i] is Some {
                let j = choose|j: int| 0 <= j < k && #[trigger] groups[j].contains(i);
                components_are_disjoint(g, j, k, i);
            }
        }
        assert(x.wf());
        let definitions = x.definitions();
        let numbers = x.numbers();
        built_groups_are_canonical(
            x,
            keys[members[representative(numbers, 0, 0)]],
            keys[members[0]],
        );
        let inner = x.inner();
        assert forall|key: Seq<char>| canonical_inside(#[trigger] stands(inner, key)) by {
            assert(canonical_inside(stands(plain, key)));
            position_found(keys, key, 0);
            reveal(canonical_inside);
        }
        assert forall|c: int| 0 <= c < definitions.len() implies canonical_inside(
            #[trigger] definitions[c],
        ) by {
            crate::hir::codec::rebuild::definitions_come_from_members(x, c);
            let p = x.spot(c as nat);
            canonical_after(x.body(p), inner);
        }
        assert forall|i: int| 0 <= i < next.len() && (#[trigger] next[i]) is Some implies {
            &&& !has_var(next[i]->0)
            &&& canonical_inside(next[i]->0)
            &&& exists|j: int| 0 <= j < k + 1 && #[trigger] groups[j].contains(i)
        } by {
            if members.contains(i) {
                assert(next[i] == Some(
                    Shape::Rec(definitions, numbers[members.index_of(i)]),
                ));
                reveal(canonical_inside);
                reveal(has_var);
                assert(groups[k].contains(i));
            } else {
                assert(next[i] == done[i]);
                let j = choose|j: int| 0 <= j < k && #[trigger] groups[j].contains(i);
                assert(groups[j].contains(i));
            }
        }
    }
}

pub open spec fn all_canonical(built: Seq<Option<Shape>>) -> bool {
    forall|i: int|
        0 <= i < built.len() && (#[trigger] built[i]) is Some ==> canonical_inside(built[i]->0)
            && !has_var(built[i]->0)
}

proof fn groups_stay_canonical(
    keys: Seq<Seq<char>>,
    bodies: Seq<Shape>,
    k: int,
    done: Seq<Option<Shape>>,
)
    requires
        keys.len() == bodies.len(),
        keys.no_duplicates(),
        definable(bodies),
        0 <= k <= components(mention_graph(keys, bodies)).len(),
        built_so_far(keys, components(mention_graph(keys, bodies)), k, done),
        build_groups(keys, bodies, components(mention_graph(keys, bodies)), k, done) is Ok,
    ensures
        all_canonical(
            build_groups(keys, bodies, components(mention_graph(keys, bodies)), k, done)->Ok_0,
        ),
    decreases components(mention_graph(keys, bodies)).len() - k,
{
    let groups = components(mention_graph(keys, bodies));
    if k < groups.len() {
        components_stay_canonical(keys, bodies, k, done);
        let next = build_group(keys, bodies, groups[k], done)->Ok_0;
        groups_stay_canonical(keys, bodies, k + 1, next);
    }
}

pub proof fn sound_keys_are_distinct(keys: Seq<Seq<char>>, i: int)
    requires
        0 <= i <= keys.len(),
        key_fault(keys, i) is None,
    ensures
        forall|j: int|
            i <= j < keys.len() ==> position(keys, #[trigger] keys[j], 0) == Some(j),
    decreases keys.len() - i,
{
    if i < keys.len() {
        sound_keys_are_distinct(keys, i + 1);
    }
}

/// Every group in a type that definitions build is canonical: its definitions, built anew, give
/// the same group in the same order.
pub proof fn built_types_are_canonical(keys: Seq<Seq<char>>, bodies: Seq<Shape>, i: int)
    requires
        keys.len() == bodies.len(),
        definable(bodies),
        build(keys, bodies) is Ok,
        0 <= i < build(keys, bodies)->Ok_0.len(),
        build(keys, bodies)->Ok_0[i] is Some,
    ensures
        canonical_inside(build(keys, bodies)->Ok_0[i]->0),
        !has_var(build(keys, bodies)->Ok_0[i]->0),
{
    sound_keys_are_distinct(keys, 0);
    assert forall|a: int, b: int| 0 <= a < b < keys.len() implies keys[a] != keys[b] by {
        assert(position(keys, keys[a], 0) == Some(a));
        assert(position(keys, keys[b], 0) == Some(b));
    }
    let start = Seq::new(keys.len(), |i: int| None::<Shape>);
    groups_stay_canonical(keys, bodies, 0, start);
}

pub proof fn closed_types_are_slotless(t: Shape)
    requires
        !has_var(t),
    ensures
        slotless(t),
    decreases t,
{
    reveal(has_var);
    reveal(slotless);
    match t {
        Shape::Ptr(_, pointee) => {
            closed_types_are_slotless(*pointee);
        },
        Shape::Array(element, _) => {
            closed_types_are_slotless(*element);
        },
        Shape::List(element) => {
            closed_types_are_slotless(*element);
        },
        Shape::Function(f) => {
            assert forall|i: int| 0 <= i < f.params.len() implies slotless(
                #[trigger] f.params[i],
            ) by {
                closed_types_are_slotless(f.params[i]);
            }
            assert forall|i: int| 0 <= i < f.results.len() implies slotless(
                #[trigger] f.results[i],
            ) by {
                closed_types_are_slotless(f.results[i]);
            }
        },
        Shape::Struct(s) => {
            assert forall|i: int| 0 <= i < s.fields.len() implies slotless(
                (#[trigger] s.fields[i]).ty,
            ) by {
                closed_types_are_slotless(s.fields[i].ty);
            }
        },
        Shape::Enum(e) => {
            assert forall|i: int| 0 <= i < e.variants.len() implies ((
            #[trigger] e.variants[i]).value matches Some(value) ==> slotless(value)) by {
                if let Some(value) = e.variants[i].value {
                    assert(!has_var(value));
                    closed_types_are_slotless(value);
                }
            }
        },
        _ => {},
    }
}

proof fn templates_are_slotless(t: &TypeTemplate)
    ensures
        slotless(t@),
    decreases t,
{
    template_shape_unfold(t);
    reveal(slotless);
    match t {
        TypeTemplate::Type(ty) => {
            types_are_closed(ty);
            closed_types_are_slotless(ty@);
        },
        TypeTemplate::Rec(_) => {},
        TypeTemplate::Ptr(_, pointee) => {
            templates_are_slotless(&**pointee);
        },
        TypeTemplate::Array(element, _) => {
            templates_are_slotless(&**element);
        },
        TypeTemplate::List(element) => {
            templates_are_slotless(&**element);
        },
        TypeTemplate::Function(f) => {
            let made = t@->Function_0;
            assert forall|i: int| 0 <= i < made.params.len() implies slotless(
                #[trigger] made.params[i],
            ) by {
                templates_are_slotless(&f.params@[i]);
            }
            assert forall|i: int| 0 <= i < made.results.len() implies slotless(
                #[trigger] made.results[i],
            ) by {
                templates_are_slotless(&f.results@[i]);
            }
        },
        TypeTemplate::Struct(s) => {
            structs_are_slotless(&**s);
        },
        TypeTemplate::Enum(e) => {
            enums_are_slotless(&**e);
        },
    }
}

/// A struct that is written as a template refers by name only.
pub proof fn structs_are_slotless(s: &StructTemplate)
    ensures
        slotless(Shape::Struct(struct_template_shape(*s))),
    decreases s,
{
    reveal(slotless);
    let fields = struct_template_shape(*s).fields;
    assert forall|i: int| 0 <= i < fields.len() implies slotless((#[trigger] fields[i]).ty) by {
        templates_are_slotless(&s.fields@[i].ty);
    }
}

/// An enum that is written as a template refers by name only.
pub proof fn enums_are_slotless(e: &EnumTemplate)
    ensures
        slotless(Shape::Enum(enum_template_shape(*e))),
    decreases e,
{
    reveal(slotless);
    types_are_closed(&e.discriminant);
    let variants = enum_template_shape(*e).variants;
    assert forall|i: int| 0 <= i < variants.len() implies ((#[trigger] variants[i]).value matches Some(
        value,
    ) ==> slotless(value)) by {
        assert(variants[i] == variant_template_shape(e.variants@[i]));
        if let Some(value) = &e.variants@[i].value {
            templates_are_slotless(value);
        }
    }
}

/// Definitions written as templates build canonical groups only, if the groups in the completed
/// types that they hold are canonical.
pub proof fn templates_build_canonical_types(defs: &Vec<TemplateDef>, i: int)
    requires
        forall|j: int|
            0 <= j < defs@.len() ==> canonical_inside(#[trigger] def_bodies(defs@)[j]),
        build(def_keys(defs@), def_bodies(defs@)) is Ok,
        0 <= i < build(def_keys(defs@), def_bodies(defs@))->Ok_0.len(),
        build(def_keys(defs@), def_bodies(defs@))->Ok_0[i] is Some,
    ensures
        canonical_inside(build(def_keys(defs@), def_bodies(defs@))->Ok_0[i]->0),
{
    let bodies = def_bodies(defs@);
    assert forall|j: int| 0 <= j < bodies.len() implies {
        &&& slotless(#[trigger] bodies[j])
        &&& canonical_inside(bodies[j])
        &&& bodies[j] is Struct || bodies[j] is Enum
    } by {
        match &defs@[j].body {
            AggregateTemplate::Struct(s) => {
                structs_are_slotless(s);
            },
            AggregateTemplate::Enum(e) => {
                enums_are_slotless(e);
            },
        }
    }
    built_types_are_canonical(def_keys(defs@), bodies, i);
}

// ---------------------------------------------------------------------------------------------
// What is written reads back
// ---------------------------------------------------------------------------------------------

/// The limits of reading: the type nests at most `depth` deep, a variadic stands last in a
/// signature or nowhere, the bytes of an array can be counted in 32 bits, and those of a text in
/// `usize`.
#[verifier::opaque]
pub open spec fn within_limits(t: Shape, depth: nat, group: Option<nat>) -> bool
    decreases t,
{
    let inner = (depth - 1) as nat;
    match t {
        Shape::Ptr(_, pointee) => depth > 0 && within_limits(*pointee, inner, group),
        Shape::Array(element, n) => {
            &&& depth > 0
            &&& within_limits(*element, inner, group)
            &&& !oversized_array(read_as(*element, group), n, group)
        },
        Shape::List(element) => depth > 0 && within_limits(*element, inner, group),
        Shape::Function(f) => {
            &&& depth > 0
            &&& abi_fits(f.abi)
            &&& forall|i: int|
                0 <= i < f.params.len() ==> (#[trigger] f.params[i] is Variadic && i
                    == f.params.len() - 1) || within_limits(f.params[i], inner, group)
            &&& forall|i: int|
                0 <= i < f.results.len() ==> (#[trigger] f.results[i] is Variadic && i
                    == f.results.len() - 1) || within_limits(f.results[i], inner, group)
        },
        Shape::Struct(s) => {
            &&& depth > 0
            &&& label_fits(s.name)
            &&& forall|i: int|
                0 <= i < s.fields.len() ==> label_fits((#[trigger] s.fields[i]).name)
                    && within_limits(s.fields[i].ty, inner, group)
        },
        Shape::Enum(e) => {
            &&& depth > 0
            &&& text_fits(e.name)
            &&& forall|i: int|
                0 <= i < e.variants.len() ==> {
                    &&& text_fits((#[trigger] e.variants[i]).name)
                    &&& e.variants[i].value matches Some(value) ==> within_limits(
                        value,
                        inner,
                        group,
                    )
                }
        },
        Shape::Rec(definitions, _) => {
            &&& depth > 0
            &&& forall|k: int|
                0 <= k < definitions.len() ==> within_limits(
                    #[trigger] definitions[k],
                    depth,
                    Some(definitions.len()),
                )
        },
        Shape::Variadic => false,
        _ => true,
    }
}

/// Explicit discriminants fit the discriminant's bytes.
proof fn discriminants_fit(e: EnumShape, i: int, j: int)
    requires
        is_discriminant(*e.discriminant),
        0 <= i <= j < e.variants.len(),
        discriminants_fault(e, i) is None,
    ensures
        value_fits(e.variants[j].discriminant_value, discriminant_width(*e.discriminant)),
    decreases j - i,
{
    pow256_values();
    if i < j {
        discriminants_fit(e, i + 1, j);
    } else {
        assert(discriminant_fault(e, i) is None);
    }
}

proof fn struct_is_readable(s: StructShape, layouts: Seq<Metrics>, depth: nat, group: Option<nat>)
    requires
        depth > 0,
        struct_fits(s.repr, layouts),
        layouts.len() == s.fields.len(),
        group is None ==> layouts == field_metrics(s.fields, Seq::empty()),
        group is None ==> forall|i: int|
            0 <= i < layouts.len() ==> 1 <= (#[trigger] layouts[i]).align <= u16::MAX,
        label_fits(s.name),
        forall|i: int|
            0 <= i < s.fields.len() ==> label_fits((#[trigger] s.fields[i]).name) && readable(
                s.fields[i].ty,
                (depth - 1) as nat,
                group,
            ),
    ensures
        readable(Shape::Struct(s), depth, group),
{
    reveal(readable);
    if group is None {
        assert forall|i: int| 0 <= i < s.fields.len() implies metrics(
            (#[trigger] s.fields[i]).ty,
            Seq::empty(),
        ).bytes() <= u32::MAX by {
            assert(layouts[i] == metrics(s.fields[i].ty, Seq::empty()));
            offsets_grow(s.repr, layouts, i as nat, layouts.len());
            widths_bounded(s.repr, layouts, layouts.len());
            assert(layouts[i].bytes() <= struct_size(s.repr, layouts));
        }
        assert(struct_fault(s) is None);
    }
}

proof fn enum_is_readable(e: EnumShape, depth: nat, group: Option<nat>)
    requires
        depth > 0,
        enum_fault(e) is None,
        group is None ==> variants_fit(e),
        e.variants.len() <= usize::MAX,
        text_fits(e.name),
        forall|i: int|
            0 <= i < e.variants.len() ==> {
                &&& text_fits((#[trigger] e.variants[i]).name)
                &&& e.variants[i].value matches Some(value) ==> readable(
                    value,
                    (depth - 1) as nat,
                    group,
                )
            },
    ensures
        readable(Shape::Enum(e), depth, group),
{
    reveal(readable);
    assert forall|i: int| 0 <= i < e.variants.len() implies value_fits(
        (#[trigger] e.variants[i]).discriminant_value,
        discriminant_width(*e.discriminant),
    ) by {
        discriminants_fit(e, 0, i);
    }
}

/// A well-formed type within the limits can be read back.
proof fn types_are_readable(t: &Type, depth: nat, group: Option<nat>)
    requires
        wf(*t),
        within_limits(t@, depth, group),
        canonical_inside(t@),
    ensures
        readable(t@, depth, group),
    decreases t,
{
    wf_unfold(t);
    shape_unfold(t);
    reveal(within_limits);
    reveal(canonical_inside);
    let inner = (depth - 1) as nat;
    match t {
        Type::Ptr(p) => {
            types_are_readable(&p.pointee, inner, group);
            reveal(readable);
        },
        Type::Array(a) => {
            types_are_readable(&a.ty, inner, group);
            reveal(readable);
        },
        Type::List(element) => {
            types_are_readable(&**element, inner, group);
            reveal(readable);
        },
        Type::Function(f) => {
            let made = t@->Function_0;
            assert(f.params.len() == made.params.len());
            assert(f.results.len() == made.results.len());
            assert forall|i: int| 0 <= i < made.params.len() implies (
            #[trigger] made.params[i] is Variadic && i == made.params.len() - 1) || readable(
                made.params[i],
                inner,
                group,
            ) by {
                if !(made.params[i] is Variadic && i == made.params.len() - 1) {
                    types_are_readable(&f.params@[i], inner, group);
                }
            }
            assert forall|i: int| 0 <= i < made.results.len() implies (
            #[trigger] made.results[i] is Variadic && i == made.results.len() - 1) || readable(
                made.results[i],
                inner,
                group,
            ) by {
                if !(made.results[i] is Variadic && i == made.results.len() - 1) {
                    types_are_readable(&f.results@[i], inner, group);
                }
            }
            reveal(readable);
        },
        Type::Struct(StructRef::Plain(s)) => {
            let made = t@->Struct_0;
            let layouts = field_metrics(made.fields, Seq::empty());
            assert forall|i: int| 0 <= i < made.fields.len() implies label_fits(
                (#[trigger] made.fields[i]).name,
            ) && readable(made.fields[i].ty, inner, group) by {
                types_are_readable(&s.fields@[i].ty, inner, group);
            }
            assert forall|i: int| 0 <= i < layouts.len() implies 1 <= (
            #[trigger] layouts[i]).align <= u16::MAX by {
                align_bounds(&s.fields@[i].ty);
            }
            struct_is_readable(made, layouts, depth, group);
        },
        Type::Enum(EnumRef::Plain(e)) => {
            let made = t@->Enum_0;
            assert(e.variants.len() == made.variants.len());
            assert forall|i: int| 0 <= i < made.variants.len() implies {
                &&& text_fits((#[trigger] made.variants[i]).name)
                &&& made.variants[i].value matches Some(value) ==> readable(value, inner, group)
            } by {
                assert(made.variants[i] == variant_shape(e.variants@[i]));
                if let Some(value) = &e.variants@[i].value {
                    types_are_readable(value, inner, group);
                }
            }
            enum_is_readable(made, depth, group);
        },
        Type::Struct(StructRef::Rec(r)) => {
            groups_are_readable(r, depth);
            reveal(readable);
        },
        Type::Enum(EnumRef::Rec(r)) => {
            groups_are_readable(r, depth);
            reveal(readable);
        },
        _ => {
            reveal(readable);
        },
    }
}

/// The definitions of a group within the limits can be read back.
proof fn groups_are_readable(r: &RecTypeRef, depth: nat)
    requires
        rec_wf(*r),
        within_limits(Shape::Rec(body_shapes(r.group.defs@), r.index as nat), depth, None),
        canonical_inside(Shape::Rec(body_shapes(r.group.defs@), r.index as nat)),
    ensures
        forall|k: int|
            0 <= k < body_shapes(r.group.defs@).len() ==> {
                &&& (#[trigger] body_shapes(r.group.defs@)[k]) is Struct || body_shapes(
                    r.group.defs@,
                )[k] is Enum
                &&& readable(
                    body_shapes(r.group.defs@)[k],
                    depth,
                    Some(body_shapes(r.group.defs@).len()),
                )
            },
    decreases r,
{
    let defs = r.group.defs@;
    let all = body_shapes(defs);
    let layouts = group_layouts(&*r.group);
    let group = Some(all.len());
    bodies_wf_unfold(&*r.group, layouts);
    reveal(within_limits);
    reveal(canonical_inside);
    crate::hir::metrics::group_metrics_unfold(all, all.len());
    assert forall|k: int| 0 <= k < all.len() implies {
        &&& (#[trigger] all[k]) is Struct || all[k] is Enum
        &&& readable(all[k], depth, group)
    } by {
        assert(body_wf(defs[k].body, layouts));
        assert(within_limits(all[k], depth, group));
        assert(canonical_inside(all[k]));
        match &defs[k].body {
            OpenAggregate::Struct(s) => {
                open_structs_are_readable(s, layouts, depth);
            },
            OpenAggregate::Enum(e) => {
                open_enums_are_readable(e, layouts, depth);
            },
        }
    }
}

proof fn open_structs_are_readable(s: &OpenStructType, layouts: Seq<Metrics>, depth: nat)
    requires
        open_struct_wf(*s, layouts),
        layouts.len() <= MAX_RECURSIVE_GROUP_SIZE,
        within_limits(Shape::Struct(open_struct_shape(*s)), depth, Some(layouts.len())),
        canonical_inside(Shape::Struct(open_struct_shape(*s))),
    ensures
        readable(Shape::Struct(open_struct_shape(*s)), depth, Some(layouts.len())),
    decreases s,
{
    reveal(within_limits);
    reveal(canonical_inside);
    let made = open_struct_shape(*s);
    let group = Some(layouts.len());
    assert forall|i: int| 0 <= i < made.fields.len() implies label_fits(
        (#[trigger] made.fields[i]).name,
    ) && readable(made.fields[i].ty, (depth - 1) as nat, group) by {
        open_types_are_readable(&s.fields@[i].ty, layouts, (depth - 1) as nat);
    }
    struct_is_readable(made, field_metrics(made.fields, layouts), depth, group);
}

proof fn open_enums_are_readable(e: &OpenEnumType, layouts: Seq<Metrics>, depth: nat)
    requires
        open_enum_wf(*e, layouts),
        layouts.len() <= MAX_RECURSIVE_GROUP_SIZE,
        within_limits(Shape::Enum(open_enum_shape(*e)), depth, Some(layouts.len())),
        canonical_inside(Shape::Enum(open_enum_shape(*e))),
    ensures
        readable(Shape::Enum(open_enum_shape(*e)), depth, Some(layouts.len())),
    decreases e,
{
    reveal(within_limits);
    reveal(canonical_inside);
    let made = open_enum_shape(*e);
    let group = Some(layouts.len());
    assert(e.variants.len() == made.variants.len());
    assert forall|i: int| 0 <= i < made.variants.len() implies {
        &&& text_fits((#[trigger] made.variants[i]).name)
        &&& made.variants[i].value matches Some(value) ==> readable(
            value,
            (depth - 1) as nat,
            group,
        )
    } by {
        if let Some(value) = &e.variants@[i].value {
            assert(made.variants[i].value == Some(value@));
            open_types_are_readable(value, layouts, (depth - 1) as nat);
        }
    }
    enum_is_readable(made, depth, group);
}

proof fn open_types_are_readable(t: &OpenType, layouts: Seq<Metrics>, depth: nat)
    requires
        open_wf(*t, layouts),
        layouts.len() <= MAX_RECURSIVE_GROUP_SIZE,
        within_limits(t@, depth, Some(layouts.len())),
        canonical_inside(t@),
    ensures
        readable(t@, depth, Some(layouts.len())),
    decreases t,
{
    open_wf_unfold(t, layouts);
    open_shape_unfold(t);
    reveal(within_limits);
    reveal(canonical_inside);
    let inner = (depth - 1) as nat;
    let group = Some(layouts.len());
    match t {
        OpenType::Closed(t) => {
            types_are_readable(t, depth, group);
        },
        OpenType::Var(_) => {
            reveal(readable);
        },
        OpenType::Ptr(_, pointee) => {
            open_types_are_readable(&**pointee, layouts, inner);
            reveal(readable);
        },
        OpenType::Array(element, _) => {
            open_types_are_readable(&**element, layouts, inner);
            reveal(readable);
        },
        OpenType::List(element) => {
            open_types_are_readable(&**element, layouts, inner);
            reveal(readable);
        },
        OpenType::Function(f) => {
            let made = t@->Function_0;
            assert(f.params.len() == made.params.len());
            assert(f.results.len() == made.results.len());
            assert forall|i: int| 0 <= i < made.params.len() implies (
            #[trigger] made.params[i] is Variadic && i == made.params.len() - 1) || readable(
                made.params[i],
                inner,
                group,
            ) by {
                if !(made.params[i] is Variadic && i == made.params.len() - 1) {
                    open_types_are_readable(&f.params@[i], layouts, inner);
                }
            }
            assert forall|i: int| 0 <= i < made.results.len() implies (
            #[trigger] made.results[i] is Variadic && i == made.results.len() - 1) || readable(
                made.results[i],
                inner,
                group,
            ) by {
                if !(made.results[i] is Variadic && i == made.results.len() - 1) {
                    open_types_are_readable(&f.results@[i], layouts, inner);
                }
            }
            reveal(readable);
        },
        OpenType::Struct(s) => {
            open_structs_are_readable(&**s, layouts, depth);
        },
        OpenType::Enum(e) => {
            open_enums_are_readable(&**e, layouts, depth);
        },
    }
}

/// The input behind what was read.
pub open spec fn left_over(rest: Seq<u8>, budget: Option<nat>, used: nat) -> Input {
    Input {
        rest,
        budget: match budget {
            Some(left) => Some((left - used) as nat),
            None => None,
        },
    }
}

/// A type that was written reads back as itself, and what follows it stays unread. With a budget,
/// it takes no more than the bytes that were written.
///
/// The type is within the limits of reading, and the groups in it are canonical, which those that
/// were built are.
pub proof fn what_was_written_reads_back(t: &Type, rest: Seq<u8>, budget: Option<nat>)
    requires
        wf(*t),
        within_limits(t@, MAX_TYPE_NESTING as nat, None),
        canonical_inside(t@),
        budget is Some ==> enc(t@).len() <= budget->0,
    ensures
        parse(Input { rest: enc(t@) + rest, budget }, MAX_TYPE_NESTING as nat, None) == Ok::<
            (Shape, Input),
            DecodeFault,
        >((t@, left_over(rest, budget, enc(t@).len()))),
{
    let s = Input { rest: enc(t@) + rest, budget };
    types_are_readable(t, MAX_TYPE_NESTING as nat, None);
    assert(s.rest.take(enc(t@).len() as int) =~= enc(t@));
    assert(offers(s, enc(t@)));
    reads_type(t@, s, MAX_TYPE_NESTING as nat, None);
    assert(s.rest.skip(enc(t@).len() as int) =~= rest);
    assert(behind(s, enc(t@)) == left_over(rest, budget, enc(t@).len()));
}

} // verus!
