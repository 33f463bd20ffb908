//! Building recursive types.
use std::sync::Arc;
use vstd::prelude::*;

use crate::hir::enum_type::InvalidEnumTypeError;
use crate::hir::layout::{measured, types_are_closed, Measure};
use crate::hir::metrics::{metrics, metrics_unfold, nothing, Metrics};
use crate::hir::recursive::assemble::{
    close_enum, close_struct, holds, known, measure_enum_template, measure_struct_template,
    open_enum, open_struct, sized, slots_within,
};
use crate::hir::recursive::key::{enum_order_key, order_key, struct_order_key};
use crate::hir::recursive::rank::ordered;
use crate::hir::recursive::rules::BuildFault;
use crate::hir::recursive::scope::{
    collect_from_fields, collect_from_variants, defect, find_defect_in_enum, find_defect_in_struct,
    fits, found_is, names, subst, subst_closed, subst_enum, subst_fields, subst_struct,
    subst_unfold, subst_variants, texts, types_are_sound, DefectFound, Meaning, Names, Scope,
};
use crate::hir::recursive::template::{
    enum_template_shape, enum_template_wf, field_template_shapes, struct_template_shape,
    struct_template_wf, template_shape_unfold, variant_template_shape, variant_template_shapes,
    EnumTemplate, FieldTemplate, StructTemplate, TypeTemplate, VariantTemplate,
};
use crate::hir::shape::{has_var, Shape};
use crate::hir::types::{
    body_shape, body_wf, shape_unfold, wf, wf_unfold, EnumRef, OpenAggregate, StructRef, Type,
};

verus! {

/// Why a set of definitions builds nothing.
#[derive(Debug)]
pub enum RecursiveTypeError {
    /// A definition has an empty key.
    EmptyName,
    /// A key is defined twice.
    DuplicateName(String),
    /// A reference names no definition.
    UndefinedReference(String),
    /// A definition holds itself without a pointer, a list or a function in between, so that it
    /// would have infinite size.
    UnguardedRecursion(String),
    /// A group has too many definitions.
    GroupTooLarge(String, usize),
    /// A definition is invalid.
    InvalidDefinition(InvalidEnumTypeError),
    /// A definition breaks the rules of its representation, or is too large to be laid out.
    TooLarge(String),
}

impl RecursiveTypeError {
    pub open spec fn view(&self) -> BuildFault {
        match *self {
            RecursiveTypeError::EmptyName => BuildFault::EmptyName,
            RecursiveTypeError::DuplicateName(key) => BuildFault::DuplicateName(key@),
            RecursiveTypeError::UndefinedReference(key) => BuildFault::UndefinedReference(key@),
            RecursiveTypeError::UnguardedRecursion(key) => BuildFault::UnguardedRecursion(key@),
            RecursiveTypeError::GroupTooLarge(key, n) => BuildFault::GroupTooLarge(key@, n as nat),
            RecursiveTypeError::InvalidDefinition(error) => BuildFault::InvalidDefinition(error@),
            RecursiveTypeError::TooLarge(key) => BuildFault::TooLarge(key@),
        }
    }
}

/// A definition: its key, and the aggregate it describes.
#[derive(Debug)]
pub struct TemplateDef {
    pub key: String,
    pub body: AggregateTemplate,
}

#[derive(Debug)]
pub enum AggregateTemplate {
    Struct(StructTemplate),
    Enum(EnumTemplate),
}

/// What a definition describes.
pub open spec fn aggregate_shape(body: AggregateTemplate) -> Shape {
    match body {
        AggregateTemplate::Struct(s) => Shape::Struct(struct_template_shape(s)),
        AggregateTemplate::Enum(e) => Shape::Enum(enum_template_shape(e)),
    }
}

pub open spec fn aggregate_wf(body: AggregateTemplate) -> bool {
    match body {
        AggregateTemplate::Struct(s) => struct_template_wf(s),
        AggregateTemplate::Enum(e) => enum_template_wf(e),
    }
}

pub open spec fn def_keys(defs: Seq<TemplateDef>) -> Seq<Seq<char>> {
    Seq::new(defs.len(), |i: int| defs[i].key@)
}

pub open spec fn def_bodies(defs: Seq<TemplateDef>) -> Seq<Shape> {
    Seq::new(defs.len(), |i: int| aggregate_shape(defs[i].body))
}

pub open spec fn defs_wf(defs: Seq<TemplateDef>) -> bool {
    forall|i: int| 0 <= i < defs.len() ==> aggregate_wf((#[trigger] defs[i]).body)
}

proof fn subst_aggregate(body: &AggregateTemplate, scope: Scope)
    ensures
        subst(aggregate_shape(*body), scope) == (match *body {
            AggregateTemplate::Struct(s) => Shape::Struct(
                subst_struct(struct_template_shape(s), scope),
            ),
            AggregateTemplate::Enum(e) => Shape::Enum(subst_enum(enum_template_shape(e), scope)),
        }),
{
    subst_unfold(aggregate_shape(*body), scope);
}

impl AggregateTemplate {
    /// The names that this definition mentions, in the order in which it mentions them.
    pub fn ordered_references(&self) -> (found: Vec<String>)
        ensures
            texts(found@) == names(aggregate_shape(*self)),
    {
        let mut found: Vec<String> = Vec::new();
        assert(texts(found@) =~= Seq::empty());
        match self {
            AggregateTemplate::Struct(s) => {
                collect_from_fields(&s.fields, &mut found);
            },
            AggregateTemplate::Enum(e) => {
                collect_from_variants(&e.variants, &mut found);
            },
        }
        assert(texts(found@) =~= names(aggregate_shape(*self)));
        found
    }

    /// What this definition is ordered by.
    pub fn structural_order_key(&self, names: &Names) -> (made: Vec<u16>)
        requires
            names.wf(),
            aggregate_wf(*self),
        ensures
            made@ == order_key(subst(aggregate_shape(*self), names@)),
    {
        proof {
            subst_aggregate(self, names@);
        }
        match self {
            AggregateTemplate::Struct(s) => struct_order_key(s, names),
            AggregateTemplate::Enum(e) => enum_order_key(e, names),
        }
    }

    /// The first defect of this definition.
    pub fn first_defect(&self, names: &Names) -> (found: Option<DefectFound>)
        requires
            names.wf(),
            aggregate_wf(*self),
        ensures
            found_is(found, defect(subst(aggregate_shape(*self), names@))),
    {
        proof {
            subst_aggregate(self, names@);
        }
        match self {
            AggregateTemplate::Struct(s) => find_defect_in_struct(s, names),
            AggregateTemplate::Enum(e) => find_defect_in_enum(e, names),
        }
    }

    /// Marks the definitions of the group that this one holds, and does not just refer to.
    pub fn unguarded_references(&self, names: &Names, n: usize) -> (marks: Vec<bool>)
        requires
            names.wf(),
            slots_within(names, n as nat),
        ensures
            marks@.len() == n,
            forall|d: int|
                0 <= d < n ==> #[trigger] marks@[d] == holds(
                    subst(aggregate_shape(*self), names@),
                    d as nat,
                ),
    {
        let mut marks: Vec<bool> = Vec::new();
        let mut i: usize = 0;
        while i < n
            invariant
                i <= n,
                marks@.len() == i,
                forall|d: int| 0 <= d < i ==> !#[trigger] marks@[d],
            decreases n - i,
        {
            marks.push(false);
            i += 1;
        }
        proof {
            subst_aggregate(self, names@);
            reveal(holds);
        }
        match self {
            AggregateTemplate::Struct(s) => {
                mark_held_fields(&s.fields, names, &mut marks);
            },
            AggregateTemplate::Enum(e) => {
                mark_held_payloads(&e.variants, names, &mut marks);
            },
        }
        marks
    }

    /// The layout of this definition, where `layouts` gives the layouts of the group's
    /// definitions. Fails where it cannot be laid out.
    pub fn measure(&self, names: &Names, layouts: &Vec<Measure>) -> (made: Option<Measure>)
        requires
            names.wf(),
            aggregate_wf(*self),
            slots_within(names, layouts@.len()),
            known(layouts@),
            defect(subst(aggregate_shape(*self), names@)) is None,
        ensures
            match made {
                Some(made) => {
                    &&& made@ == metrics(subst(aggregate_shape(*self), names@), measured(layouts@))
                    &&& made.align > 0
                },
                None => !sized(subst(aggregate_shape(*self), names@), measured(layouts@)),
            },
    {
        let ghost whole = subst(aggregate_shape(*self), names@);
        let ghost group = measured(layouts@);
        proof {
            subst_aggregate(self, names@);
            metrics_unfold(whole, group);
        }
        let rough = match self {
            AggregateTemplate::Struct(s) => measure_struct_template(s, names, layouts),
            AggregateTemplate::Enum(e) => measure_enum_template(e, names, layouts),
        };
        match rough {
            None => None,
            Some(rough) => match rough.bits {
                Some(bits) => Some(Measure { bits, align: rough.align, zst: rough.zst }),
                None => {
                    proof {
                        oversized(whole, group);
                    }
                    None
                },
            },
        }
    }

    /// The body of this definition, where `layouts` gives the layouts of the group's definitions.
    pub fn open(&self, names: &Names, layouts: &Vec<Measure>) -> (made: Option<OpenAggregate>)
        requires
            names.wf(),
            aggregate_wf(*self),
            slots_within(names, layouts@.len()),
            known(layouts@),
            defect(subst(aggregate_shape(*self), names@)) is None,
        ensures
            match made {
                Some(made) => {
                    &&& body_shape(made) == subst(aggregate_shape(*self), names@)
                    &&& body_wf(made, measured(layouts@))
                    &&& fits(subst(aggregate_shape(*self), names@), measured(layouts@))
                },
                None => !fits(subst(aggregate_shape(*self), names@), measured(layouts@)),
            },
    {
        proof {
            subst_aggregate(self, names@);
        }
        match self {
            AggregateTemplate::Struct(s) => match open_struct(s, names, layouts) {
                Some(made) => Some(OpenAggregate::Struct(made)),
                None => None,
            },
            AggregateTemplate::Enum(e) => match open_enum(e, names, layouts) {
                Some(made) => Some(OpenAggregate::Enum(made)),
                None => None,
            },
        }
    }

    /// The type that this definition describes, if it mentions no definition still to be built.
    pub fn close(&self, names: &Names) -> (made: Option<Type>)
        requires
            names.wf(),
            aggregate_wf(*self),
            !has_var(subst(aggregate_shape(*self), names@)),
            defect(subst(aggregate_shape(*self), names@)) is None,
        ensures
            match made {
                Some(made) => {
                    &&& made@ == subst(aggregate_shape(*self), names@)
                    &&& wf(made)
                    &&& fits(subst(aggregate_shape(*self), names@), Seq::empty())
                },
                None => !fits(subst(aggregate_shape(*self), names@), Seq::empty()),
            },
    {
        proof {
            subst_aggregate(self, names@);
        }
        let made = match self {
            AggregateTemplate::Struct(s) => match close_struct(s, names) {
                Some(made) => Type::Struct(StructRef::Plain(Arc::new(made))),
                None => {
                    return None;
                },
            },
            AggregateTemplate::Enum(e) => match close_enum(e, names) {
                Some(made) => Type::Enum(EnumRef::Plain(Arc::new(made))),
                None => {
                    return None;
                },
            },
        };
        proof {
            shape_unfold(&made);
            wf_unfold(&made);
            types_are_sound(&made);
        }
        Some(made)
    }
}

/// An aggregate whose size does not fit 64 bits cannot be laid out.
proof fn oversized(whole: Shape, group: Seq<Metrics>)
    requires
        whole is Struct || whole is Enum,
        defect(whole) is None,
        metrics(whole, group).bits > u64::MAX,
    ensures
        !sized(whole, group),
{
    metrics_unfold(whole, group);
    reveal(sized);
    if let Shape::Enum(e) = whole {
        if sized(whole, group) {
            let d = metrics(*e.discriminant, group);
            metrics_unfold(*e.discriminant, group);
            let payloads = crate::hir::metrics::payload_metrics(e.variants, group);
            small_enum(d, payloads, payloads.len());
        }
    }
}

proof fn small_enum(discriminant: Metrics, payloads: Seq<Option<Metrics>>, n: nat)
    requires
        n <= payloads.len(),
        crate::hir::metrics::enum_fits(discriminant, payloads),
    ensures
        crate::hir::metrics::enum_size(discriminant, payloads, n) <= u32::MAX
            || crate::hir::metrics::enum_size(discriminant, payloads, n) == discriminant.bytes(),
    decreases n,
{
    if n > 0 {
        small_enum(discriminant, payloads, (n - 1) as nat);
    }
}

/// Marks the definitions that a template holds.
fn mark_held(t: &TypeTemplate, names: &Names, marks: &mut Vec<bool>)
    requires
        names.wf(),
        slots_within(names, old(marks)@.len()),
    ensures
        final(marks)@.len() == old(marks)@.len(),
        forall|d: int|
            0 <= d < old(marks)@.len() ==> #[trigger] final(marks)@[d] == (old(marks)@[d] || holds(
                subst(t@, names@),
                d as nat,
            )),
    decreases *t,
{
    proof {
        template_shape_unfold(t);
        subst_unfold(t@, names@);
        reveal(holds);
    }
    match t {
        TypeTemplate::Type(ty) => {
            proof {
                types_are_closed(ty);
                subst_closed(ty@, names@);
                closed_types_hold_nothing(ty@);
            }
        },
        TypeTemplate::Rec(key) => match names.look_up(key) {
            Meaning::Slot(slot) => {
                proof {
                    crate::hir::recursive::assemble::resolved_slot(
                        names,
                        key@,
                        marks@.len(),
                        *slot,
                    );
                }
                marks.set(*slot as usize, true);
            },
            Meaning::Done(ty) => {
                proof {
                    types_are_closed(ty);
                    closed_types_hold_nothing(ty@);
                }
            },
            Meaning::Open => {},
        },
        // Behind a barrier nothing is held.
        TypeTemplate::Ptr(_, _) => {},
        TypeTemplate::List(_) => {},
        TypeTemplate::Function(_) => {},
        TypeTemplate::Array(element, _) => {
            mark_held(element, names, marks);
        },
        TypeTemplate::Struct(s) => {
            mark_held_fields(&s.fields, names, marks);
        },
        TypeTemplate::Enum(e) => {
            mark_held_payloads(&e.variants, names, marks);
        },
    }
}

proof fn closed_types_hold_nothing(t: Shape)
    requires
        !has_var(t),
    ensures
        forall|i: nat| !#[trigger] holds(t, i),
    decreases t,
{
    reveal(has_var);
    reveal(holds);
    match t {
        Shape::Array(element, _) => {
            closed_types_hold_nothing(*element);
            assert forall|i: nat| !#[trigger] holds(t, i) by {
                assert(!holds(*element, i));
            }
        },
        Shape::Struct(s) => {
            assert forall|k: int, i: nat|
                0 <= k < s.fields.len() implies !#[trigger] holds(s.fields[k].ty, i) by {
                closed_types_hold_nothing(s.fields[k].ty);
            }
            assert forall|i: nat| !#[trigger] holds(t, i) by {
                if holds(t, i) {
                    let k = choose|k: int|
                        0 <= k < s.fields.len() && holds((#[trigger] s.fields[k]).ty, i);
                    assert(!holds(s.fields[k].ty, i));
                }
            }
        },
        Shape::Enum(e) => {
            assert forall|k: int, i: nat|
                0 <= k < e.variants.len() && e.variants[k].value is Some implies !#[trigger] holds(
                e.variants[k].value->0,
                i,
            ) by {
                assert(!has_var(e.variants[k].value->0));
                closed_types_hold_nothing(e.variants[k].value->0);
            }
            assert forall|i: nat| !#[trigger] holds(t, i) by {
                if holds(t, i) {
                    let k = choose|k: int|
                        0 <= k < e.variants.len() && ((#[trigger] e.variants[k]).value matches Some(
                            value,
                        ) && holds(value, i));
                    assert(!holds(e.variants[k].value->0, i));
                }
            }
        },
        _ => {},
    }
}

fn mark_held_fields(fields: &Vec<FieldTemplate>, names: &Names, marks: &mut Vec<bool>)
    requires
        names.wf(),
        slots_within(names, old(marks)@.len()),
    ensures
        final(marks)@.len() == old(marks)@.len(),
        forall|d: int|
            0 <= d < old(marks)@.len() ==> #[trigger] final(marks)@[d] == (old(marks)@[d] || exists|
                k: int,
            |
                0 <= k < fields@.len() && holds(
                    (#[trigger] subst_fields(field_template_shapes(fields@), names@)[k]).ty,
                    d as nat,
                )),
    decreases *fields,
{
    let ghost start = marks@;
    let ghost all = subst_fields(field_template_shapes(fields@), names@);
    let mut i: usize = 0;
    while i < fields.len()
        invariant
            i <= fields@.len(),
            names.wf(),
            slots_within(names, marks@.len()),
            marks@.len() == start.len(),
            all == subst_fields(field_template_shapes(fields@), names@),
            forall|d: int|
                0 <= d < start.len() ==> #[trigger] marks@[d] == (start[d] || exists|k: int|
                    0 <= k < i && holds((#[trigger] all[k]).ty, d as nat)),
        decreases fields@.len() - i,
    {
        let ghost before = marks@;
        mark_held(&fields[i].ty, names, marks);
        proof {
            assert(all[i as int].ty == subst(fields@[i as int].ty@, names@));
            assert forall|d: int| 0 <= d < start.len() implies #[trigger] marks@[d] == (start[d]
                || exists|k: int| 0 <= k < i + 1 && holds((#[trigger] all[k]).ty, d as nat)) by {
                assert(marks@[d] == (before[d] || holds(all[i as int].ty, d as nat)));
                if exists|k: int| 0 <= k < i + 1 && holds((#[trigger] all[k]).ty, d as nat) {
                    let k = choose|k: int|
                        0 <= k < i + 1 && holds((#[trigger] all[k]).ty, d as nat);
                    if k < i {
                        assert(holds(all[k].ty, d as nat));
                    }
                }
            }
        }
        i += 1;
    }
}

fn mark_held_payloads(variants: &Vec<VariantTemplate>, names: &Names, marks: &mut Vec<bool>)
    requires
        names.wf(),
        slots_within(names, old(marks)@.len()),
    ensures
        final(marks)@.len() == old(marks)@.len(),
        forall|d: int|
            0 <= d < old(marks)@.len() ==> #[trigger] final(marks)@[d] == (old(marks)@[d] || exists|
                k: int,
            |
                0 <= k < variants@.len() && ((#[trigger] subst_variants(
                    variant_template_shapes(variants@),
                    names@,
                )[k]).value matches Some(value) && holds(value, d as nat))),
    decreases *variants,
{
    let ghost start = marks@;
    let ghost all = subst_variants(variant_template_shapes(variants@), names@);
    let mut i: usize = 0;
    while i < variants.len()
        invariant
            i <= variants@.len(),
            names.wf(),
            slots_within(names, marks@.len()),
            marks@.len() == start.len(),
            all == subst_variants(variant_template_shapes(variants@), names@),
            forall|d: int|
                0 <= d < start.len() ==> #[trigger] marks@[d] == (start[d] || exists|k: int|
                    0 <= k < i && ((#[trigger] all[k]).value matches Some(value) && holds(
                        value,
                        d as nat,
                    ))),
        decreases variants@.len() - i,
    {
        let ghost before = marks@;
        assert(variant_template_shapes(variants@)[i as int] == variant_template_shape(
            variants@[i as int],
        ));
        if let Some(value) = &variants[i].value {
            mark_held(value, names, marks);
        }
        proof {
            assert forall|d: int| 0 <= d < start.len() implies #[trigger] marks@[d] == (start[d]
                || exists|k: int|
                0 <= k < i + 1 && ((#[trigger] all[k]).value matches Some(value) && holds(
                    value,
                    d as nat,
                ))) by {
                assert(marks@[d] == (before[d] || (all[i as int].value matches Some(value)
                    && holds(value, d as nat))));
                if exists|k: int|
                    0 <= k < i + 1 && ((#[trigger] all[k]).value matches Some(value) && holds(
                        value,
                        d as nat,
                    )) {
                    let k = choose|k: int|
                        0 <= k < i + 1 && ((#[trigger] all[k]).value matches Some(value) && holds(
                            value,
                            d as nat,
                        ));
                    if k < i {
                        assert(all[k].value matches Some(value) && holds(value, d as nat));
                    }
                }
            }
        }
        i += 1;
    }
}

} // verus!
