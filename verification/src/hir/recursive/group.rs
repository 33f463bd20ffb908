//! Building one component of the definitions.
use std::sync::Arc;
use vstd::prelude::*;

use crate::hir::layout::{closed_metrics, measured, types_are_closed, Measure};
use crate::hir::metrics::{
    group_metrics, group_metrics_unfold, group_settled, metrics, metrics_unfold, nothing,
    round_metrics, Metrics,
};
use crate::hir::recursive::assemble::{
    fitting_types_are_sized, holds, known, layout_depends_on_what_is_held, slots_within,
};
use crate::hir::recursive::builder::{
    aggregate_shape, def_bodies, def_keys, defs_wf, AggregateTemplate, RecursiveTypeError,
    TemplateDef,
};
use crate::hir::recursive::graph::{
    edge, finish_order, finish_order_is_topological, graph_of, has_cycle, is_cyclic, leaving_order,
    numbers, square, topological, walks_are_complete,
};
use crate::hir::recursive::rank::{
    all_targets, classes, classes_are_settled, classify, naturals, ordered, targets, within,
};
use crate::hir::recursive::rules::{
    build_group, class_count, defect_fault, group_bodies, group_classes, group_fault, group_fits,
    group_keys, group_references, groups_settle, hold_graph, is_recursive, member_keys,
    member_positions, ordered_defect, representative, slotted, BuildFault,
};
use crate::hir::recursive::scope::{
    defect, defect_of_fields, defect_of_variants, find, fits, meaning, names, no_defect_of_all,
    no_defect_of_fields, no_defect_of_variants, position, position_found, subst, subst_closed,
    subst_enum, subst_fields, subst_struct, subst_unfold, subst_variants, texts, DefectFound,
    Meaning, Names, Scope,
};
use crate::hir::recursive::template::{
    enum_template_shape, field_template_shapes, struct_template_shape, template_shape_unfold,
    variant_template_shape, variant_template_shapes, EnumTemplate, StructTemplate, TypeTemplate,
};
use crate::hir::shape::{has_var, Shape};
use crate::hir::types::{
    bodies_wf_unfold, body_kind, body_shape, body_shapes, body_wf, group_layouts, group_sound,
    layout_is, rec_wf, wf, AggregateKind, OpenAggregate, RecDef, RecGroup, RecTypeRef, Type,
    TypeLayout, MAX_RECURSIVE_GROUP_SIZE,
};
use crate::hir::unfold::rec_type;

verus! {

/// Nothing stands for a definition of a group that is being built.
pub open spec fn no_slots(names: &Names) -> bool {
    forall|i: int| 0 <= i < names.meanings@.len() ==> !((#[trigger] names.meanings@[i]) is Slot)
}

/// Where every name stands for a type, nothing of a template stays open.
pub proof fn templates_close(t: &TypeTemplate, names: &Names)
    requires
        names.wf(),
        no_slots(names),
        defect(subst(t@, names@)) is None,
    ensures
        !has_var(subst(t@, names@)),
    decreases t,
{
    template_shape_unfold(t);
    subst_unfold(t@, names@);
    reveal(has_var);
    let made = subst(t@, names@);
    match t {
        TypeTemplate::Type(ty) => {
            types_are_closed(ty);
            subst_closed(ty@, names@);
        },
        TypeTemplate::Rec(key) => {
            position_found(names@.keys, key@, 0);
            let i = position(names@.keys, key@, 0)->0;
            assert(names@.values[i] == meaning(names.meanings@[i]));
            if let Meaning::Done(ty) = &names.meanings@[i] {
                types_are_closed(ty);
            }
        },
        TypeTemplate::Ptr(_, pointee) => {
            templates_close(pointee, names);
        },
        TypeTemplate::Array(element, _) => {
            templates_close(element, names);
        },
        TypeTemplate::List(element) => {
            templates_close(element, names);
        },
        TypeTemplate::Function(f) => {
            let made = made->Function_0;
            no_defect_of_all(made.params);
            no_defect_of_all(made.results);
            assert forall|i: int| 0 <= i < made.params.len() implies !has_var(
                #[trigger] made.params[i],
            ) by {
                assert(made.params[i] == subst(f.params@[i]@, names@));
                templates_close(&f.params@[i], names);
            }
            assert forall|i: int| 0 <= i < made.results.len() implies !has_var(
                #[trigger] made.results[i],
            ) by {
                assert(made.results[i] == subst(f.results@[i]@, names@));
                templates_close(&f.results@[i], names);
            }
        },
        TypeTemplate::Struct(s) => {
            structs_close(s, names);
        },
        TypeTemplate::Enum(e) => {
            enums_close(e, names);
        },
    }
}

proof fn structs_close(s: &StructTemplate, names: &Names)
    requires
        names.wf(),
        no_slots(names),
        defect_of_fields(subst_fields(field_template_shapes(s.fields@), names@)) is None,
    ensures
        !has_var(Shape::Struct(subst_struct(struct_template_shape(*s), names@))),
    decreases s,
{
    let made = subst_fields(field_template_shapes(s.fields@), names@);
    no_defect_of_fields(made);
    reveal(has_var);
    assert forall|i: int| 0 <= i < made.len() implies !has_var((#[trigger] made[i]).ty) by {
        assert(made[i].ty == subst(s.fields@[i].ty@, names@));
        templates_close(&s.fields@[i].ty, names);
    }
}

proof fn enums_close(e: &EnumTemplate, names: &Names)
    requires
        names.wf(),
        no_slots(names),
        defect_of_variants(subst_variants(variant_template_shapes(e.variants@), names@)) is None,
    ensures
        !has_var(Shape::Enum(subst_enum(enum_template_shape(*e), names@))),
    decreases e,
{
    let made = subst_variants(variant_template_shapes(e.variants@), names@);
    no_defect_of_variants(made);
    reveal(has_var);
    types_are_closed(&e.discriminant);
    subst_closed(e.discriminant@, names@);
    assert forall|i: int|
        0 <= i < made.len() && (#[trigger] made[i]).value is Some implies !has_var(
        made[i].value->0,
    ) by {
        assert(variant_template_shapes(e.variants@)[i] == variant_template_shape(e.variants@[i]));
        if let Some(value) = &e.variants@[i].value {
            assert(made[i].value == Some(subst(value@, names@)));
            templates_close(value, names);
        }
    }
}

proof fn bodies_close(body: &AggregateTemplate, names: &Names)
    requires
        names.wf(),
        no_slots(names),
        defect(subst(aggregate_shape(*body), names@)) is None,
    ensures
        !has_var(subst(aggregate_shape(*body), names@)),
{
    subst_unfold(aggregate_shape(*body), names@);
    match body {
        AggregateTemplate::Struct(s) => {
            structs_close(s, names);
        },
        AggregateTemplate::Enum(e) => {
            enums_close(e, names);
        },
    }
}

/// The component lists definitions, each once, and at least one.
pub open spec fn listed(component: Seq<usize>, n: nat) -> bool {
    &&& component.len() > 0
    &&& numbers(component).no_duplicates()
    &&& forall|p: int| 0 <= p < component.len() ==> (#[trigger] component[p]) < n
}

pub open spec fn mentions(mentioned: Seq<Vec<String>>, defs: Seq<TemplateDef>) -> bool {
    &&& mentioned.len() == defs.len()
    &&& forall|i: int|
        0 <= i < defs.len() ==> texts((#[trigger] mentioned[i])@) == names(def_bodies(defs)[i])
}

pub open spec fn scoped(names: &Names, defs: Seq<TemplateDef>) -> bool {
    &&& names.wf()
    &&& names@.keys == def_keys(defs)
    &&& names.meanings@.len() == defs.len()
}

fn list_positions(found: &Vec<String>, members: &Vec<String>) -> (positions: Vec<usize>)
    ensures
        targets(positions@) == member_positions(texts(found@), texts(members@)),
        forall|i: int| 0 <= i < positions@.len() ==> (#[trigger] positions@[i]) < members@.len(),
{
    let ghost all = texts(found@);
    let ghost of = texts(members@);
    let mut positions: Vec<usize> = Vec::new();
    let mut i: usize = 0;
    assert(targets(positions@) =~= member_positions(all.take(0), of));
    while i < found.len()
        invariant
            i <= found@.len(),
            all == texts(found@),
            of == texts(members@),
            targets(positions@) == member_positions(all.take(i as int), of),
            forall|i: int| 0 <= i < positions@.len() ==> (#[trigger] positions@[i])
                < members@.len(),
        decreases found@.len() - i,
    {
        let ghost before = targets(positions@);
        proof {
            assert(all.take(i + 1).drop_last() =~= all.take(i as int));
            position_found(of, all[i as int], 0);
        }
        match find(members, &found[i]) {
            Some(p) => {
                positions.push(p);
                assert(targets(positions@) =~= before.push(p as int));
            },
            None => {},
        }
        i += 1;
    }
    assert(all.take(found@.len() as int) =~= all);
    positions
}

/// The classes of the members of a component.
fn classify_members(
    defs: &Vec<TemplateDef>,
    mentioned: &Vec<Vec<String>>,
    component: &Vec<usize>,
    scope: &Names,
) -> (found: Vec<u16>)
    requires
        defs_wf(defs@),
        scoped(scope, defs@),
        mentions(mentioned@, defs@),
        listed(component@, defs@.len()),
        component@.len() <= MAX_RECURSIVE_GROUP_SIZE,
    ensures
        naturals(found@) == group_classes(
            def_keys(defs@),
            def_bodies(defs@),
            numbers(component@),
            scope@,
        ),
        found@.len() == component@.len(),
        forall|p: int| 0 <= p < found@.len() ==> (#[trigger] found@[p]) < component@.len(),
{
    let ghost keys = def_keys(defs@);
    let ghost bodies = def_bodies(defs@);
    let ghost members = numbers(component@);
    let n: usize = component.len();
    let mut order_keys: Vec<Vec<u16>> = Vec::new();
    let mut named: Vec<String> = Vec::new();
    let mut p: usize = 0;
    while p < n
        invariant
            p <= n,
            n == component@.len(),
            defs_wf(defs@),
            scoped(scope, defs@),
            listed(component@, defs@.len()),
            keys == def_keys(defs@),
            bodies == def_bodies(defs@),
            members == numbers(component@),
            order_keys@.len() == p,
            named@.len() == p,
            forall|q: int|
                0 <= q < p ==> (#[trigger] order_keys@[q])@ == group_keys(
                    bodies,
                    members,
                    scope@,
                )[q],
            forall|q: int|
                0 <= q < p ==> (#[trigger] named@[q])@ == member_keys(keys, members)[q],
        decreases n - p,
    {
        let at: usize = component[p];
        let def = &defs[at];
        assert(bodies[at as int] == aggregate_shape(def.body));
        assert(keys[at as int] == def.key@);
        order_keys.push(def.body.structural_order_key(scope));
        named.push(def.key.clone());
        p += 1;
    }
    assert(texts(named@) =~= member_keys(keys, members));
    assert(ordered(order_keys@) =~= group_keys(bodies, members, scope@));
    let mut references: Vec<Vec<usize>> = Vec::new();
    let mut p: usize = 0;
    while p < n
        invariant
            p <= n,
            n == component@.len(),
            mentions(mentioned@, defs@),
            listed(component@, defs@.len()),
            bodies == def_bodies(defs@),
            members == numbers(component@),
            texts(named@) == member_keys(keys, members),
            named@.len() == n,
            references@.len() == p,
            forall|q: int|
                0 <= q < p ==> targets((#[trigger] references@[q])@) == group_references(
                    keys,
                    bodies,
                    members,
                )[q],
            forall|q: int, i: int|
                0 <= q < p && 0 <= i < references@[q]@.len() ==> (#[trigger] references@[q]@[i])
                    < n,
        decreases n - p,
    {
        let at: usize = component[p];
        assert(texts(mentioned@[at as int]@) == names(bodies[at as int]));
        references.push(list_positions(&mentioned[at], &named));
        p += 1;
    }
    let ghost to = all_targets(references@);
    assert(to =~= group_references(keys, bodies, members));
    assert(within(to, n as nat)) by {
        assert forall|q: int, i: int| 0 <= q < n && 0 <= i < to[q].len() implies 0
            <= #[trigger] to[q][i] < n by {
            assert(to[q][i] == references@[q]@[i]);
        }
    }
    let found = classify(&order_keys, &references);
    proof {
        let c = naturals(found@);
        classes_are_settled(group_keys(bodies, members, scope@), to);
        assert(c.len() == found@.len());
        assert forall|p: int| 0 <= p < found@.len() implies (#[trigger] found@[p])
            < component@.len() by {
            assert(c[p] < n);
        }
    }
    found
}

/// One more than the largest number.
fn count_classes(found: &Vec<u16>) -> (count: usize)
    requires
        found@.len() <= MAX_RECURSIVE_GROUP_SIZE,
        forall|p: int| 0 <= p < found@.len() ==> (#[trigger] found@[p]) < found@.len(),
    ensures
        count == class_count(naturals(found@), found@.len()),
        count <= found@.len(),
        found@.len() > 0 ==> count > 0,
        forall|p: int| 0 <= p < found@.len() ==> (#[trigger] found@[p]) < count,
{
    let ghost all = naturals(found@);
    let mut count: usize = 0;
    let mut p: usize = 0;
    while p < found.len()
        invariant
            p <= found@.len(),
            found@.len() <= MAX_RECURSIVE_GROUP_SIZE,
            forall|p: int| 0 <= p < found@.len() ==> (#[trigger] found@[p]) < found@.len(),
            all == naturals(found@),
            count == class_count(all, p as nat),
            count <= found@.len(),
            p > 0 ==> count > 0,
            forall|q: int| 0 <= q < p ==> (#[trigger] found@[q]) < count,
        decreases found@.len() - p,
    {
        assert(all[p as int] == found@[p as int]);
        if count < found[p] as usize + 1 {
            count = found[p] as usize + 1;
        }
        p += 1;
    }
    count
}

fn first_of_class(found: &Vec<u16>, c: usize) -> (p: usize)
    requires
        found@.len() > 0,
    ensures
        p == representative(naturals(found@), c as nat, 0),
        p < found@.len(),
{
    let ghost all = naturals(found@);
    let mut p: usize = 0;
    while p < found.len()
        invariant
            p <= found@.len(),
            all == naturals(found@),
            representative(all, c as nat, 0) == representative(all, c as nat, p as int),
        decreases found@.len() - p,
    {
        assert(all[p as int] == found@[p as int]);
        if found[p] as usize == c {
            return p;
        }
        p += 1;
    }
    0
}

/// Lets the members of a component stand for their classes.
fn enter_slots(component: &Vec<usize>, found: &Vec<u16>, names: &mut Names)
    requires
        old(names).wf(),
        listed(component@, old(names).meanings@.len()),
        found@.len() == component@.len(),
    ensures
        final(names).wf(),
        final(names)@ == (Scope {
            keys: old(names)@.keys,
            values: slotted(old(names)@.values, numbers(component@), naturals(found@)),
        }),
        final(names).meanings@.len() == old(names).meanings@.len(),
        no_slots(old(names)) ==> forall|i: int|
            0 <= i < final(names).meanings@.len() ==> ((
            #[trigger] final(names).meanings@[i]) matches Meaning::Slot(slot) ==> numbers(
                component@,
            ).contains(i) && exists|p: int|
                0 <= p < found@.len() && #[trigger] found@[p] == slot),
{
    let ghost before = *names;
    let ghost members = numbers(component@);
    let ghost all = naturals(found@);
    let ghost target = slotted(names@.values, members, all);
    let mut p: usize = 0;
    while p < component.len()
        invariant
            p <= component@.len(),
            before.wf(),
            names.wf(),
            names.keys == before.keys,
            names.meanings@.len() == before.meanings@.len(),
            listed(component@, names.meanings@.len()),
            found@.len() == component@.len(),
            members == numbers(component@),
            all == naturals(found@),
            forall|q: int|
                0 <= q < p ==> names.meanings@[#[trigger] component@[q] as int] == Meaning::Slot(
                    found@[q],
                ),
            forall|i: int|
                0 <= i < names.meanings@.len() && !members.take(p as int).contains(i)
                    ==> #[trigger] names.meanings@[i] == before.meanings@[i],
        decreases component@.len() - p,
    {
        let ghost earlier = names.meanings@;
        names.meanings.set(component[p], Meaning::Slot(found[p]));
        proof {
            assert forall|q: int| 0 <= q < p + 1 implies names.meanings@[
                #[trigger] component@[q] as int
            ] == Meaning::Slot(found@[q]) by {
                if q < p {
                    assert(members[q] != members[p as int]);
                }
            }
            assert forall|i: int|
                0 <= i < names.meanings@.len() && !members.take(p + 1).contains(
                    i,
                ) implies #[trigger] names.meanings@[i] == before.meanings@[i] by {
                assert(members.take(p + 1)[p as int] == members[p as int]);
                assert(i != component@[p as int]);
                if members.take(p as int).contains(i) {
                    let q = choose|q: int| 0 <= q < p && members.take(p as int)[q] == i;
                    assert(members.take(p + 1)[q] == i);
                }
            }
        }
        p += 1;
    }
    proof {
        assert(members.take(component@.len() as int) =~= members);
        assert forall|i: int| 0 <= i < names@.values.len() implies #[trigger] names@.values[i]
            == target[i] by {
            if members.contains(i) {
                let q = members.index_of(i);
                assert(members[q] == i);
                assert(component@[q] == i);
                assert(names.meanings@[component@[q] as int] == Meaning::Slot(found@[q]));
            } else {
                assert(names.meanings@[i] == before.meanings@[i]);
            }
        }
        assert(names@.values =~= target);
        if no_slots(&before) {
            assert forall|i: int|
                0 <= i < names.meanings@.len() && (#[trigger] names.meanings@[i])
                    is Slot implies members.contains(i) && exists|p: int|
                0 <= p < found@.len() && #[trigger] found@[p] == names.meanings@[i]->Slot_0 by {
                if members.contains(i) {
                    let q = members.index_of(i);
                    assert(members[q] == i);
                    assert(names.meanings@[component@[q] as int] == Meaning::Slot(found@[q]));
                } else {
                    assert(names.meanings@[i] == before.meanings@[i]);
                }
            }
        }
    }
}

/// The definitions of a group: the first member of each class, and which of them holds which.
pub open spec fn drawn(
    chosen: Seq<usize>,
    defs: Seq<TemplateDef>,
    scope: Scope,
    definitions: Seq<Shape>,
) -> bool {
    &&& chosen.len() == definitions.len()
    &&& forall|c: int|
        0 <= c < chosen.len() ==> (#[trigger] chosen[c]) < defs.len() && definitions[c] == subst(
            def_bodies(defs)[chosen[c] as int],
            scope,
        )
}

fn draw_holds(
    defs: &Vec<TemplateDef>,
    chosen: &Vec<usize>,
    names: &Names,
    Ghost(definitions): Ghost<Seq<Shape>>,
) -> (links: Vec<Vec<bool>>)
    requires
        names.wf(),
        slots_within(names, chosen@.len()),
        drawn(chosen@, defs@, names@, definitions),
    ensures
        graph_of(links@) == hold_graph(definitions),
{
    let n: usize = chosen.len();
    let mut links: Vec<Vec<bool>> = Vec::new();
    let mut c: usize = 0;
    while c < n
        invariant
            c <= n,
            n == chosen@.len(),
            names.wf(),
            slots_within(names, n as nat),
            drawn(chosen@, defs@, names@, definitions),
            links@.len() == c,
            forall|d: int| 0 <= d < c ==> (#[trigger] links@[d])@ == hold_graph(definitions)[d],
        decreases n - c,
    {
        let at: usize = chosen[c];
        assert(def_bodies(defs@)[at as int] == aggregate_shape(defs@[at as int].body));
        let row = defs[at].body.unguarded_references(names, n);
        assert(row@ =~= hold_graph(definitions)[c as int]);
        links.push(row);
        c += 1;
    }
    assert(graph_of(links@) =~= hold_graph(definitions));
    links
}

pub fn report(found: DefectFound) -> (error: RecursiveTypeError)
    ensures
        error@ == defect_fault(found@),
{
    match found {
        DefectFound::Undefined(key) => RecursiveTypeError::UndefinedReference(key),
        DefectFound::Invalid(error) => RecursiveTypeError::InvalidDefinition(error),
    }
}

/// The first defect of the definitions in the given order.
fn find_ordered_defect(
    defs: &Vec<TemplateDef>,
    chosen: &Vec<usize>,
    order: &Vec<usize>,
    names: &Names,
    Ghost(definitions): Ghost<Seq<Shape>>,
) -> (found: Option<RecursiveTypeError>)
    requires
        defs_wf(defs@),
        names.wf(),
        drawn(chosen@, defs@, names@, definitions),
        forall|i: int| 0 <= i < order@.len() ==> (#[trigger] order@[i]) < chosen@.len(),
    ensures
        match found {
            Some(error) => ordered_defect(definitions, numbers(order@), 0) == Some(error@),
            None => ordered_defect(definitions, numbers(order@), 0) is None,
        },
{
    let ghost all = numbers(order@);
    let mut i: usize = 0;
    while i < order.len()
        invariant
            i <= order@.len(),
            defs_wf(defs@),
            names.wf(),
            drawn(chosen@, defs@, names@, definitions),
            forall|i: int| 0 <= i < order@.len() ==> (#[trigger] order@[i]) < chosen@.len(),
            all == numbers(order@),
            ordered_defect(definitions, all, 0) == ordered_defect(definitions, all, i as int),
        decreases order@.len() - i,
    {
        let c: usize = order[i];
        let at: usize = chosen[c];
        assert(all[i as int] == c);
        assert(def_bodies(defs@)[at as int] == aggregate_shape(defs@[at as int].body));
        if let Some(found) = defs[at].body.first_defect(names) {
            return Some(report(found));
        }
        i += 1;
    }
    None
}

proof fn no_ordered_defect(definitions: Seq<Shape>, order: Seq<int>, i: int)
    requires
        0 <= i,
        ordered_defect(definitions, order, i) is None,
    ensures
        forall|j: int|
            i <= j < order.len() ==> defect(definitions[#[trigger] order[j]]) is None,
    decreases order.len() - i,
{
    if i < order.len() {
        no_ordered_defect(definitions, order, i + 1);
    }
}

/// The layouts of the definitions of a group, worked out one after the other.
fn measure_group(
    defs: &Vec<TemplateDef>,
    chosen: &Vec<usize>,
    order: &Vec<usize>,
    names: &Names,
    Ghost(definitions): Ghost<Seq<Shape>>,
) -> (layouts: Option<Vec<Measure>>)
    requires
        defs_wf(defs@),
        names.wf(),
        slots_within(names, chosen@.len()),
        drawn(chosen@, defs@, names@, definitions),
        !has_cycle(hold_graph(definitions)),
        numbers(order@) == finish_order(hold_graph(definitions)),
        forall|c: int| 0 <= c < definitions.len() ==> defect(#[trigger] definitions[c]) is None,
    ensures
        match layouts {
            Some(layouts) => {
                &&& measured(layouts@) == group_metrics(definitions, definitions.len())
                &&& known(layouts@)
            },
            None => !group_fits(definitions),
        },
{
    let ghost g = hold_graph(definitions);
    let ghost target = group_metrics(definitions, definitions.len());
    let n: usize = chosen.len();
    proof {
        assert(square(g));
        walks_are_complete(g);
        finish_order_is_topological(g);
        groups_settle(definitions);
        group_metrics_unfold(definitions, definitions.len());
        assert forall|i: int| 0 <= i < order@.len() implies (#[trigger] order@[i]) < n by {
            assert(numbers(order@)[i] == order@[i]);
            assert(finish_order(g).contains(numbers(order@)[i]));
        }
        assert(numbers(order@).len() == order@.len());
    }
    let mut layouts: Vec<Measure> = Vec::new();
    let mut i: usize = 0;
    while i < n
        invariant
            i <= n,
            layouts@.len() == i,
            known(layouts@),
        decreases n - i,
    {
        layouts.push(Measure { bits: 0, align: 1, zst: true });
        i += 1;
    }
    let mut p: usize = 0;
    while p < order.len()
        invariant
            p <= order@.len(),
            n == chosen@.len(),
            n == definitions.len(),
            order@.len() == n,
            defs_wf(defs@),
            names.wf(),
            slots_within(names, n as nat),
            drawn(chosen@, defs@, names@, definitions),
            g == hold_graph(definitions),
            topological(g, finish_order(g)),
            finish_order(g).no_duplicates(),
            numbers(order@) == finish_order(g),
            forall|i: int| 0 <= i < order@.len() ==> (#[trigger] order@[i]) < n,
            forall|c: int| 0 <= c < definitions.len() ==> defect(#[trigger] definitions[c]) is None,
            target == group_metrics(definitions, definitions.len()),
            target.len() == n,
            round_metrics(definitions, target) == target,
            layouts@.len() == n,
            known(layouts@),
            forall|q: int|
                0 <= q < p ==> layouts@[#[trigger] order@[q] as int]@ == target[order@[q] as int],
        decreases order@.len() - p,
    {
        let c: usize = order[p];
        let at: usize = chosen[c];
        let ghost group = measured(layouts@);
        proof {
            assert(def_bodies(defs@)[at as int] == aggregate_shape(defs@[at as int].body));
            let t = definitions[c as int];
            assert forall|i: nat| i < group.len() && #[trigger] holds(t, i) implies group[i as int]
                == target[i as int] by {
                assert(numbers(order@)[p as int] == c);
                assert(g[c as int][i as int] == holds(t, i));
                assert(edge(g, finish_order(g)[p as int], i as int));
                let q = choose|q: int| 0 <= q < p && #[trigger] finish_order(g)[q] == i as int;
                assert(numbers(order@)[q] == order@[q]);
                assert(layouts@[order@[q] as int]@ == target[order@[q] as int]);
            }
            layout_depends_on_what_is_held(t, group, target);
            assert(round_metrics(definitions, target)[c as int] == metrics(t, target));
        }
        match defs[at].body.measure(names, &layouts) {
            Some(layout) => {
                layouts.set(c, layout);
                proof {
                    assert forall|q: int| 0 <= q < p + 1 implies layouts@[
                        #[trigger] order@[q] as int
                    ]@ == target[order@[q] as int] by {
                        if q < p {
                            assert(numbers(order@)[q] != numbers(order@)[p as int]);
                        }
                    }
                }
            },
            None => {
                proof {
                    if fits(definitions[c as int], target) {
                        fitting_types_are_sized(definitions[c as int], target);
                    }
                }
                return None;
            },
        }
        p += 1;
    }
    proof {
        assert forall|c: int| 0 <= c < n implies measured(layouts@)[c] == #[trigger] target[c] by {
            assert(finish_order(g).contains(c));
            let q = choose|q: int| 0 <= q < finish_order(g).len() && finish_order(g)[q] == c;
            assert(numbers(order@)[q] == order@[q]);
            assert(layouts@[order@[q] as int]@ == target[order@[q] as int]);
        }
        assert(measured(layouts@) =~= target);
    }
    Some(layouts)
}

/// The size that a body records.
pub open spec fn recorded_size(body: OpenAggregate) -> nat {
    match body {
        OpenAggregate::Struct(s) => s.size as nat,
        OpenAggregate::Enum(e) => e.size as nat,
    }
}

proof fn bodies_record_their_size(body: &OpenAggregate, group: Seq<Metrics>)
    requires
        body_wf(*body, group),
    ensures
        8 * recorded_size(*body) == metrics(body_shape(*body), group).bits,
{
    metrics_unfold(body_shape(*body), group);
    if let OpenAggregate::Enum(e) = body {
        types_are_closed(&e.discriminant);
        closed_metrics(e.discriminant@, group);
    }
}

/// The definitions of a group with their layouts.
fn open_group(
    defs: &Vec<TemplateDef>,
    chosen: &Vec<usize>,
    names: &Names,
    layouts: &Vec<Measure>,
    Ghost(definitions): Ghost<Seq<Shape>>,
) -> (made: Option<Vec<RecDef>>)
    requires
        defs_wf(defs@),
        names.wf(),
        slots_within(names, chosen@.len()),
        drawn(chosen@, defs@, names@, definitions),
        group_settled(definitions),
        forall|c: int| 0 <= c < definitions.len() ==> defect(#[trigger] definitions[c]) is None,
        measured(layouts@) == group_metrics(definitions, definitions.len()),
        known(layouts@),
    ensures
        match made {
            Some(made) => {
                &&& group_fits(definitions)
                &&& body_shapes(made@) == definitions
                &&& forall|c: int|
                    0 <= c < made@.len() ==> {
                        &&& body_wf((#[trigger] made@[c]).body, measured(layouts@))
                        &&& made@[c].kind == body_kind(made@[c].body)
                        &&& layout_is(made@[c].layout, measured(layouts@)[c])
                    }
            },
            None => !group_fits(definitions),
        },
{
    let ghost group = measured(layouts@);
    let n: usize = chosen.len();
    let mut made: Vec<RecDef> = Vec::new();
    proof {
        group_metrics_unfold(definitions, definitions.len());
        assert(layouts@.len() == group.len());
    }
    let mut c: usize = 0;
    while c < n
        invariant
            c <= n,
            n == chosen@.len(),
            n == definitions.len(),
            n == layouts@.len(),
            defs_wf(defs@),
            names.wf(),
            slots_within(names, n as nat),
            drawn(chosen@, defs@, names@, definitions),
            round_metrics(definitions, group) == group,
            forall|c: int| 0 <= c < definitions.len() ==> defect(#[trigger] definitions[c]) is None,
            group == measured(layouts@),
            group == group_metrics(definitions, definitions.len()),
            known(layouts@),
            made@.len() == c,
            forall|d: int|
                0 <= d < c ==> {
                    &&& body_shape((#[trigger] made@[d]).body) == definitions[d]
                    &&& body_wf(made@[d].body, group)
                    &&& made@[d].kind == body_kind(made@[d].body)
                    &&& layout_is(made@[d].layout, group[d])
                    &&& fits(definitions[d], group)
                },
        decreases n - c,
    {
        let at: usize = chosen[c];
        proof {
            assert(def_bodies(defs@)[at as int] == aggregate_shape(defs@[at as int].body));
            assert(round_metrics(definitions, group)[c as int] == metrics(
                definitions[c as int],
                group,
            ));
            metrics_unfold(definitions[c as int], group);
        }
        match defs[at].body.open(names, layouts) {
            Some(body) => {
                let layout = &layouts[c];
                assert(group[c as int] == layout@);
                let (kind, size): (AggregateKind, u32) = match &body {
                    OpenAggregate::Struct(s) => (AggregateKind::Struct, s.size),
                    OpenAggregate::Enum(e) => (AggregateKind::Enum, e.size),
                };
                proof {
                    bodies_record_their_size(&body, group);
                }
                made.push(
                    RecDef {
                        kind,
                        body,
                        layout: TypeLayout {
                            size_in_bytes: size,
                            min_alignment: layout.align,
                            is_zst: layout.zst,
                        },
                    },
                );
            },
            None => {
                assert(!fits(definitions[c as int], group));
                return None;
            },
        }
        c += 1;
    }
    assert(body_shapes(made@) =~= definitions);
    assert forall|c: int| 0 <= c < definitions.len() implies fits(
        #[trigger] definitions[c],
        group,
    ) by {
        assert(body_shape(made@[c].body) == definitions[c]);
    }
    Some(made)
}

/// Lets the members of a component stand for the types of a group.
fn enter_types(
    component: &Vec<usize>,
    found: &Vec<u16>,
    group: &Arc<RecGroup>,
    names: &mut Names,
    Ghost(done): Ghost<Seq<Option<Shape>>>,
)
    requires
        old(names).wf(),
        old(names).meanings@.len() == done.len(),
        listed(component@, done.len()),
        found@.len() == component@.len(),
        forall|p: int|
            0 <= p < found@.len() ==> rec_wf(RecTypeRef { group: *group, index: #[trigger] found@[p] }),
        old(names)@.values == slotted(done, numbers(component@), naturals(found@)),
        forall|i: int|
            0 <= i < old(names).meanings@.len() && (#[trigger] old(names).meanings@[i]) is Slot
                ==> numbers(component@).contains(i),
    ensures
        final(names).wf(),
        final(names).keys == old(names).keys,
        final(names).meanings@.len() == done.len(),
        no_slots(final(names)),
        final(names)@.values == Seq::new(
            done.len(),
            |i: int|
                if numbers(component@).contains(i) {
                    Some(
                        Shape::Rec(
                            body_shapes(group.defs@),
                            naturals(found@)[numbers(component@).index_of(i)],
                        ),
                    )
                } else {
                    done[i]
                },
        ),
{
    let ghost before = *names;
    let ghost members = numbers(component@);
    let ghost all = naturals(found@);
    let ghost target = Seq::new(
        done.len(),
        |i: int|
            if members.contains(i) {
                Some(Shape::Rec(body_shapes(group.defs@), all[members.index_of(i)]))
            } else {
                done[i]
            },
    );
    let mut p: usize = 0;
    while p < component.len()
        invariant
            p <= component@.len(),
            before.wf(),
            names.wf(),
            names.keys == before.keys,
            names.meanings@.len() == before.meanings@.len(),
            listed(component@, names.meanings@.len()),
            found@.len() == component@.len(),
            members == numbers(component@),
            forall|p: int|
                0 <= p < found@.len() ==> rec_wf(
                    RecTypeRef { group: *group, index: #[trigger] found@[p] },
                ),
            forall|q: int|
                0 <= q < p ==> {
                    let made = names.meanings@[#[trigger] component@[q] as int];
                    &&& made is Done
                    &&& meaning(made) == Some(
                        Shape::Rec(body_shapes(group.defs@), found@[q] as nat),
                    )
                },
            forall|i: int|
                0 <= i < names.meanings@.len() && !members.take(p as int).contains(i)
                    ==> #[trigger] names.meanings@[i] == before.meanings@[i],
        decreases component@.len() - p,
    {
        names.meanings.set(component[p], Meaning::Done(rec_type(group, found[p])));
        proof {
            assert forall|q: int| 0 <= q < p + 1 implies {
                let made = names.meanings@[#[trigger] component@[q] as int];
                &&& made is Done
                &&& meaning(made) == Some(Shape::Rec(body_shapes(group.defs@), found@[q] as nat))
            } by {
                if q < p {
                    assert(members[q] != members[p as int]);
                }
            }
            assert forall|i: int|
                0 <= i < names.meanings@.len() && !members.take(p + 1).contains(
                    i,
                ) implies #[trigger] names.meanings@[i] == before.meanings@[i] by {
                assert(members.take(p + 1)[p as int] == members[p as int]);
                assert(i != component@[p as int]);
                if members.take(p as int).contains(i) {
                    let q = choose|q: int| 0 <= q < p && members.take(p as int)[q] == i;
                    assert(members.take(p + 1)[q] == i);
                }
            }
        }
        p += 1;
    }
    proof {
        assert(members.take(component@.len() as int) =~= members);
        assert forall|i: int| 0 <= i < names@.values.len() implies #[trigger] names@.values[i]
            == target[i] && !(names.meanings@[i] is Slot) by {
            if members.contains(i) {
                let q = members.index_of(i);
                assert(members[q] == i);
                assert(component@[q] == i);
                assert(meaning(names.meanings@[component@[q] as int]) is Some);
            } else {
                assert(names.meanings@[i] == before.meanings@[i]);
                assert(before@.values[i] == slotted(done, members, all)[i]);
            }
        }
        assert(names@.values =~= target);
        assert forall|i: int| 0 <= i < names.meanings@.len() implies !((
        #[trigger] names.meanings@[i]) is Slot) by {
            assert(names@.values[i] == target[i]);
        }
    }
}

/// Builds the types of one component of the definitions. What was built before stands in
/// `names`, and so do the types that this adds.
pub fn build_component(
    defs: &Vec<TemplateDef>,
    mentioned: &Vec<Vec<String>>,
    component: &Vec<usize>,
    names: &mut Names,
) -> (result: Result<(), RecursiveTypeError>)
    requires
        defs_wf(defs@),
        scoped(old(names), defs@),
        no_slots(old(names)),
        mentions(mentioned@, defs@),
        listed(component@, defs@.len()),
    ensures
        match result {
            Ok(_) => {
                &&& scoped(final(names), defs@)
                &&& no_slots(final(names))
                &&& build_group(
                    def_keys(defs@),
                    def_bodies(defs@),
                    numbers(component@),
                    old(names)@.values,
                ) == Ok::<Seq<Option<Shape>>, BuildFault>(final(names)@.values)
            },
            Err(error) => build_group(
                def_keys(defs@),
                def_bodies(defs@),
                numbers(component@),
                old(names)@.values,
            ) == Err::<Seq<Option<Shape>>, BuildFault>(error@),
        },
{
    let ghost keys = def_keys(defs@);
    let ghost bodies = def_bodies(defs@);
    let ghost members = numbers(component@);
    let ghost done = names@.values;
    let at: usize = component[0];
    proof {
        assert(members[0] == at);
        assert(keys[at as int] == defs@[at as int].key@);
        assert(bodies[at as int] == aggregate_shape(defs@[at as int].body));
        assert(names@ == (Scope { keys, values: done }));
    }
    if !component_is_recursive(defs, mentioned, component) {
        return build_single(defs, at, names);
    }
    if component.len() > MAX_RECURSIVE_GROUP_SIZE as usize {
        return Err(
            RecursiveTypeError::GroupTooLarge(defs[at].key.clone(), component.len()),
        );
    }
    let found = classify_members(defs, mentioned, component, names);
    build_members(defs, component, &found, names)
}

/// The component has more than one member, or one that mentions itself.
fn component_is_recursive(
    defs: &Vec<TemplateDef>,
    mentioned: &Vec<Vec<String>>,
    component: &Vec<usize>,
) -> (recursive: bool)
    requires
        mentions(mentioned@, defs@),
        listed(component@, defs@.len()),
    ensures
        recursive == is_recursive(def_keys(defs@), def_bodies(defs@), numbers(component@)),
{
    let at: usize = component[0];
    if component.len() > 1 {
        return true;
    }
    let ghost key = defs@[at as int].key@;
    let ghost all = texts(mentioned@[at as int]@);
    proof {
        assert(numbers(component@)[0] == at);
        assert(all == names(def_bodies(defs@)[at as int]));
        position_found(all, key, 0);
    }
    let found = find(&mentioned[at], &defs[at].key);
    proof {
        if all.contains(key) {
            let i = choose|i: int| 0 <= i < all.len() && all[i] == key;
            assert(all[i] == key);
        }
    }
    found.is_some()
}

/// Builds a definition that no definition of its component mentions.
fn build_single(
    defs: &Vec<TemplateDef>,
    at: usize,
    names: &mut Names,
) -> (result: Result<(), RecursiveTypeError>)
    requires
        defs_wf(defs@),
        scoped(old(names), defs@),
        no_slots(old(names)),
        at < defs@.len(),
    ensures
        ({
            let made = subst(def_bodies(defs@)[at as int], old(names)@);
            match result {
                Ok(_) => {
                    &&& scoped(final(names), defs@)
                    &&& no_slots(final(names))
                    &&& defect(made) is None
                    &&& fits(made, Seq::empty())
                    &&& final(names)@.values == old(names)@.values.update(at as int, Some(made))
                },
                Err(error) => match defect(made) {
                    Some(found) => error@ == defect_fault(found),
                    None => !fits(made, Seq::empty()) && error@ == BuildFault::TooLarge(
                        def_keys(defs@)[at as int],
                    ),
                },
            }
        }),
{
    let ghost scope = names@;
    let ghost made = subst(def_bodies(defs@)[at as int], scope);
    let def = &defs[at];
    assert(def_bodies(defs@)[at as int] == aggregate_shape(def.body));
    if let Some(found) = def.body.first_defect(names) {
        return Err(report(found));
    }
    proof {
        bodies_close(&def.body, names);
    }
    match def.body.close(names) {
        Some(ty) => {
            names.meanings.set(at, Meaning::Done(ty));
            assert(names@.values =~= scope.values.update(at as int, Some(made)));
            Ok(())
        },
        None => Err(RecursiveTypeError::TooLarge(def.key.clone())),
    }
}

/// Builds the types of a component whose classes are known.
fn build_members(
    defs: &Vec<TemplateDef>,
    component: &Vec<usize>,
    found: &Vec<u16>,
    names: &mut Names,
) -> (result: Result<(), RecursiveTypeError>)
    requires
        defs_wf(defs@),
        scoped(old(names), defs@),
        no_slots(old(names)),
        listed(component@, defs@.len()),
        component@.len() <= MAX_RECURSIVE_GROUP_SIZE,
        found@.len() == component@.len(),
        forall|p: int| 0 <= p < found@.len() ==> (#[trigger] found@[p]) < component@.len(),
        naturals(found@) == group_classes(
            def_keys(defs@),
            def_bodies(defs@),
            numbers(component@),
            old(names)@,
        ),
    ensures
        ({
            let keys = def_keys(defs@);
            let members = numbers(component@);
            let classes = naturals(found@);
            let definitions = group_bodies(
                keys,
                def_bodies(defs@),
                members,
                old(names)@.values,
            );
            let fault = group_fault(
                definitions,
                keys[members[representative(classes, 0, 0)]],
                keys[members[0]],
            );
            match result {
                Ok(_) => {
                    &&& fault is None
                    &&& scoped(final(names), defs@)
                    &&& no_slots(final(names))
                    &&& final(names)@.values == Seq::new(
                        old(names)@.values.len(),
                        |i: int|
                            if members.contains(i) {
                                Some(Shape::Rec(definitions, classes[members.index_of(i)]))
                            } else {
                                old(names)@.values[i]
                            },
                    )
                },
                Err(error) => fault == Some(error@),
            }
        }),
{
    let ghost keys = def_keys(defs@);
    let ghost bodies = def_bodies(defs@);
    let ghost members = numbers(component@);
    let ghost done = names@.values;
    let ghost classes = naturals(found@);
    let ghost definitions = group_bodies(keys, bodies, members, done);
    assert(names@ == (Scope { keys, values: done }));
    let count: usize = count_classes(found);
    enter_slots(component, found, names);
    let ghost inner = names@;
    assert(inner == (Scope { keys, values: slotted(done, members, classes) }));
    assert(definitions.len() == count);
    let mut chosen: Vec<usize> = Vec::new();
    let mut c: usize = 0;
    while c < count
        invariant
            c <= count,
            0 < component@.len() == found@.len(),
            listed(component@, defs@.len()),
            members == numbers(component@),
            classes == naturals(found@),
            bodies == def_bodies(defs@),
            definitions.len() == count,
            definitions == Seq::new(
                count as nat,
                |c: int| subst(bodies[members[representative(classes, c as nat, 0)]], inner),
            ),
            chosen@.len() == c,
            forall|d: int|
                0 <= d < c ==> (#[trigger] chosen@[d]) < defs@.len() && chosen@[d]
                    == members[representative(classes, d as nat, 0)] && definitions[d] == subst(
                    bodies[chosen@[d] as int],
                    inner,
                ),
        decreases count - c,
    {
        let p: usize = first_of_class(found, c);
        chosen.push(component[p]);
        c += 1;
    }
    proof {
        assert(drawn(chosen@, defs@, names@, definitions));
        assert(slots_within(names, count as nat)) by {
            assert forall|i: int| 0 <= i < names.meanings@.len() implies ((
            #[trigger] names.meanings@[i]) matches Meaning::Slot(slot) ==> slot < count) by {
                if let Meaning::Slot(slot) = names.meanings@[i] {
                    let p = choose|p: int| 0 <= p < found@.len() && #[trigger] found@[p] == slot;
                    assert(found@[p] < count);
                }
            }
        }
        assert(members[0] == component@[0]);
        assert(chosen@[0] == members[representative(classes, 0, 0)]);
        assert(keys[chosen@[0] as int] == defs@[chosen@[0] as int].key@);
        assert(keys[component@[0] as int] == defs@[component@[0] as int].key@);
    }
    let links = draw_holds(defs, &chosen, names, Ghost(definitions));
    let ghost g = hold_graph(definitions);
    assert(square(g));
    if is_cyclic(&links) {
        return Err(RecursiveTypeError::UnguardedRecursion(defs[chosen[0]].key.clone()));
    }
    let order = leaving_order(&links);
    proof {
        walks_are_complete(g);
        assert forall|i: int| 0 <= i < order@.len() implies (#[trigger] order@[i])
            < chosen@.len() by {
            assert(numbers(order@)[i] == order@[i]);
            assert(finish_order(g).contains(numbers(order@)[i]));
        }
    }
    if let Some(error) = find_ordered_defect(defs, &chosen, &order, names, Ghost(definitions)) {
        return Err(error);
    }
    proof {
        no_ordered_defect(definitions, finish_order(g), 0);
        assert forall|c: int| 0 <= c < definitions.len() implies defect(
            #[trigger] definitions[c],
        ) is None by {
            assert(finish_order(g).contains(c));
            let j = choose|j: int| 0 <= j < finish_order(g).len() && finish_order(g)[j] == c;
            assert(defect(definitions[finish_order(g)[j]]) is None);
        }
        groups_settle(definitions);
    }
    let layouts = match measure_group(defs, &chosen, &order, names, Ghost(definitions)) {
        Some(layouts) => layouts,
        None => {
            return Err(RecursiveTypeError::TooLarge(defs[component[0]].key.clone()));
        },
    };
    let made = match open_group(defs, &chosen, names, &layouts, Ghost(definitions)) {
        Some(made) => made,
        None => {
            return Err(RecursiveTypeError::TooLarge(defs[component[0]].key.clone()));
        },
    };
    let group = Arc::new(RecGroup { defs: made });
    proof {
        assert(group_layouts(&*group) == measured(layouts@));
        bodies_wf_unfold(&*group, group_layouts(&*group));
        assert(body_shapes(group.defs@).len() == group.defs@.len());
        assert(group_sound(*group));
        assert forall|p: int| 0 <= p < found@.len() implies rec_wf(
            RecTypeRef { group, index: #[trigger] found@[p] },
        ) by {}
    }
    enter_types(component, found, &group, names, Ghost(done));
    Ok(())
}

} // verus!
