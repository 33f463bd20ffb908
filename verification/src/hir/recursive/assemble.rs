//! Making types and bodies out of templates.
use std::sync::Arc;
use vstd::prelude::*;

use crate::hir::copy::copy_name;
use crate::hir::enum_rules::enum_fault;
use crate::hir::enum_type::{lay_variants_out, measured_payloads};
use crate::hir::layout::{
    align_bounds, alignment, array_size, bits_of, closed_metrics, lay_out, measure, measured,
    offsets_grow, types_are_closed, widths_bounded, zero_sized, Measure,
};
use crate::hir::metrics::{
    enum_fits, field_align, field_metrics, metrics, metrics_unfold, payload_metrics, stand_in,
    struct_fits, struct_metrics, struct_size, tagged_size, widest_field, Metrics,
};
use crate::hir::recursive::scope::{
    closed_fits, defect, fits, meaning, mentions_group, no_defect_of_all, no_defect_of_fields,
    no_defect_of_variants, position_found, resolve, subst, subst_all, subst_closed, subst_enum,
    subst_fields, subst_struct, subst_unfold, subst_variants, types_are_sound, Meaning, Names,
};
use crate::hir::recursive::template::{
    enum_template_shape, enum_template_wf, field_template_shapes, struct_template_shape,
    struct_template_wf, template_shape_unfold, template_shapes, template_wf, variant_template_shape,
    variant_template_shapes, EnumTemplate, FieldTemplate, StructTemplate, TypeTemplate,
};
use crate::hir::shape::{has_var, EnumShape, Shape, TypeRepr};
use crate::hir::struct_type::{named_shapes, NameAndType};
use crate::hir::types::{
    enum_shape, enum_wf, label, open_enum_shape, open_enum_sound, open_enum_wf, open_field_shapes,
    open_shape_unfold, open_shapes, open_struct_shape, open_struct_sound, open_struct_wf,
    open_variant_shapes, open_wf, open_wf_unfold, shape_unfold, shapes, struct_shape, struct_wf,
    variant_shape, variant_shapes, variants_wf, wf, wf_unfold, ArrayType, EnumRef, EnumType,
    FunctionType, OpenEnumType, OpenFunctionType, OpenStructField, OpenStructType, OpenType,
    OpenVariant, PointerType, StructRef, StructType, Type, Variant,
};

verus! {

// ---------------------------------------------------------------------------------------------
// Closed types
// ---------------------------------------------------------------------------------------------

/// Makes a type of a template that mentions no definition still to be built. Fails where some
/// aggregate inside cannot be laid out.
pub fn close(t: &TypeTemplate, names: &Names) -> (made: Option<Type>)
    requires
        names.wf(),
        template_wf(*t),
        !has_var(subst(t@, names@)),
        defect(subst(t@, names@)) is None,
    ensures
        match made {
            Some(made) => {
                &&& made@ == subst(t@, names@)
                &&& wf(made)
                &&& fits(subst(t@, names@), Seq::empty())
            },
            None => !fits(subst(t@, names@), Seq::empty()),
        },
    decreases *t,
{
    proof {
        template_shape_unfold(t);
        subst_unfold(t@, names@);
        reveal(template_wf);
        reveal(has_var);
        reveal(fits);
    }
    let made: Type = match t {
        TypeTemplate::Type(ty) => {
            proof {
                types_are_closed(ty);
                subst_closed(ty@, names@);
            }
            ty.clone()
        },
        TypeTemplate::Rec(key) => match names.look_up(key) {
            Meaning::Done(ty) => ty.clone(),
            Meaning::Slot(_) => {
                return None;
            },
            Meaning::Open => {
                return None;
            },
        },
        TypeTemplate::Ptr(addrspace, pointee) => match close(pointee, names) {
            Some(pointee) => Type::Ptr(
                Arc::new(PointerType { addrspace: *addrspace, pointee }),
            ),
            None => {
                return None;
            },
        },
        TypeTemplate::Array(element, len) => match close(element, names) {
            Some(ty) => Type::Array(Arc::new(ArrayType { ty, len: *len })),
            None => {
                return None;
            },
        },
        TypeTemplate::List(element) => match close(element, names) {
            Some(ty) => Type::List(Arc::new(ty)),
            None => {
                return None;
            },
        },
        TypeTemplate::Function(f) => {
            let ghost params = subst_all(template_shapes(f.params@), names@);
            let ghost results = subst_all(template_shapes(f.results@), names@);
            proof {
                no_defect_of_all(params);
                no_defect_of_all(results);
                assert(subst(t@, names@)->Function_0.params == params);
                assert(subst(t@, names@)->Function_0.results == results);
            }
            match (close_all(&f.params, names), close_all(&f.results, names)) {
                (Some(params), Some(results)) => Type::Function(
                    Arc::new(FunctionType { abi: f.abi.clone(), params, results }),
                ),
                _ => {
                    return None;
                },
            }
        },
        TypeTemplate::Struct(s) => match close_struct(s, names) {
            Some(made) => Type::Struct(StructRef::Plain(Arc::new(made))),
            None => {
                return None;
            },
        },
        TypeTemplate::Enum(e) => match close_enum(e, names) {
            Some(made) => Type::Enum(EnumRef::Plain(Arc::new(made))),
            None => {
                return None;
            },
        },
    };
    proof {
        shape_unfold(&made);
        wf_unfold(&made);
        types_are_sound(&made);
    }
    Some(made)
}

fn close_all(types: &Vec<TypeTemplate>, names: &Names) -> (made: Option<Vec<Type>>)
    requires
        names.wf(),
        forall|i: int| 0 <= i < types@.len() ==> template_wf(#[trigger] types@[i]),
        forall|i: int|
            0 <= i < types@.len() ==> !has_var(
                #[trigger] subst_all(template_shapes(types@), names@)[i],
            ),
        forall|i: int|
            0 <= i < types@.len() ==> defect(
                #[trigger] subst_all(template_shapes(types@), names@)[i],
            ) is None,
    ensures
        match made {
            Some(made) => {
                &&& shapes(made@) == subst_all(template_shapes(types@), names@)
                &&& forall|i: int| 0 <= i < made@.len() ==> wf(#[trigger] made@[i])
            },
            None => exists|i: int|
                0 <= i < types@.len() && !fits(
                    #[trigger] subst_all(template_shapes(types@), names@)[i],
                    Seq::empty(),
                ),
        },
    decreases *types,
{
    let ghost all = subst_all(template_shapes(types@), names@);
    let mut made: Vec<Type> = Vec::new();
    let mut i: usize = 0;
    while i < types.len()
        invariant
            i <= types@.len(),
            names.wf(),
            forall|i: int| 0 <= i < types@.len() ==> template_wf(#[trigger] types@[i]),
            all == subst_all(template_shapes(types@), names@),
            forall|i: int| 0 <= i < types@.len() ==> !has_var(#[trigger] all[i]),
            forall|i: int| 0 <= i < types@.len() ==> defect(#[trigger] all[i]) is None,
            made@.len() == i,
            forall|j: int| 0 <= j < i ==> (#[trigger] made@[j])@ == all[j] && wf(made@[j]),
        decreases types@.len() - i,
    {
        assert(all[i as int] == subst(types@[i as int]@, names@));
        match close(&types[i], names) {
            Some(ty) => {
                made.push(ty);
            },
            None => {
                assert(!fits(all[i as int], Seq::empty()));
                return None;
            },
        }
        i += 1;
    }
    assert(shapes(made@) =~= all);
    Some(made)
}

/// Makes a struct of a template that mentions no definition still to be built.
pub fn close_struct(s: &StructTemplate, names: &Names) -> (made: Option<StructType>)
    requires
        names.wf(),
        struct_template_wf(*s),
        !has_var(Shape::Struct(subst_struct(struct_template_shape(*s), names@))),
        defect(Shape::Struct(subst_struct(struct_template_shape(*s), names@))) is None,
    ensures
        match made {
            Some(made) => {
                &&& struct_shape(made) == subst_struct(struct_template_shape(*s), names@)
                &&& struct_wf(made)
            },
            None => !fits(
                Shape::Struct(subst_struct(struct_template_shape(*s), names@)),
                Seq::empty(),
            ),
        },
    decreases *s,
{
    let ghost whole = Shape::Struct(subst_struct(struct_template_shape(*s), names@));
    let ghost all = subst_fields(field_template_shapes(s.fields@), names@);
    proof {
        reveal(has_var);
        reveal(fits);
        no_defect_of_fields(all);
        assert(whole->Struct_0.fields == all);
    }
    let mut fields: Vec<NameAndType> = Vec::new();
    let mut i: usize = 0;
    while i < s.fields.len()
        invariant
            i <= s.fields@.len(),
            names.wf(),
            struct_template_wf(*s),
            all == subst_fields(field_template_shapes(s.fields@), names@),
            whole == Shape::Struct(subst_struct(struct_template_shape(*s), names@)),
            forall|i: int| 0 <= i < all.len() ==> !has_var((#[trigger] all[i]).ty),
            forall|i: int| 0 <= i < all.len() ==> defect((#[trigger] all[i]).ty) is None,
            fields@.len() == i,
            forall|j: int|
                0 <= j < i ==> (#[trigger] fields@[j]).ty@ == all[j].ty && wf(fields@[j].ty)
                    && label(fields@[j].name) == all[j].name,
        decreases s.fields@.len() - i,
    {
        assert(all[i as int].ty == subst(s.fields@[i as int].ty@, names@));
        match close(&s.fields[i].ty, names) {
            Some(ty) => {
                fields.push(NameAndType { name: copy_name(&s.fields[i].name), ty });
            },
            None => {
                proof {
                    reveal(fits);
                    assert(!fits(whole->Struct_0.fields[i as int].ty, Seq::empty()));
                }
                return None;
            },
        }
        i += 1;
    }
    assert(named_shapes(fields@) =~= all);
    StructType::try_from_parts(copy_name(&s.name), s.repr, fields)
}

/// Makes an enum of a template that mentions no definition still to be built.
pub fn close_enum(e: &EnumTemplate, names: &Names) -> (made: Option<EnumType>)
    requires
        names.wf(),
        enum_template_wf(*e),
        !has_var(Shape::Enum(subst_enum(enum_template_shape(*e), names@))),
        defect(Shape::Enum(subst_enum(enum_template_shape(*e), names@))) is None,
    ensures
        match made {
            Some(made) => {
                &&& enum_shape(made) == subst_enum(enum_template_shape(*e), names@)
                &&& enum_wf(made)
            },
            None => !fits(
                Shape::Enum(subst_enum(enum_template_shape(*e), names@)),
                Seq::empty(),
            ),
        },
    decreases *e,
{
    let ghost whole = Shape::Enum(subst_enum(enum_template_shape(*e), names@));
    let ghost all = subst_variants(variant_template_shapes(e.variants@), names@);
    proof {
        reveal(has_var);
        reveal(fits);
        no_defect_of_variants(all);
        assert(whole->Enum_0.variants == all);
        types_are_closed(&e.discriminant);
        subst_closed(e.discriminant@, names@);
    }
    let mut variants: Vec<Variant> = Vec::new();
    let mut i: usize = 0;
    while i < e.variants.len()
        invariant
            i <= e.variants@.len(),
            names.wf(),
            enum_template_wf(*e),
            all == subst_variants(variant_template_shapes(e.variants@), names@),
            whole == Shape::Enum(subst_enum(enum_template_shape(*e), names@)),
            forall|i: int|
                0 <= i < all.len() && (#[trigger] all[i]).value is Some ==> !has_var(
                    all[i].value->0,
                ) && defect(all[i].value->0) is None,
            variants@.len() == i,
            forall|j: int| 0 <= j < i ==> variant_shape(#[trigger] variants@[j]) == all[j],
            variants_wf(variants@),
        decreases e.variants@.len() - i,
    {
        assert(variant_template_shapes(e.variants@)[i as int] == variant_template_shape(
            e.variants@[i as int],
        ));
        let variant = &e.variants[i];
        let value = match &variant.value {
            Some(value) => {
                assert(all[i as int].value is Some);
                match close(value, names) {
                    Some(value) => Some(value),
                    None => {
                        proof {
                            reveal(fits);
                            assert(!fits(
                                whole->Enum_0.variants[i as int].value->0,
                                Seq::empty(),
                            ));
                        }
                        return None;
                    },
                }
            },
            None => None,
        };
        variants.push(
            Variant {
                name: variant.name.clone(),
                discriminant_value: variant.discriminant_value,
                value,
            },
        );
        i += 1;
    }
    assert(variant_shapes(variants@) =~= all);
    match EnumType::try_new(e.name.clone(), e.discriminant.clone(), variants) {
        Ok(made) => Some(made),
        Err(_) => None,
    }
}

// ---------------------------------------------------------------------------------------------
// Measuring templates
// ---------------------------------------------------------------------------------------------

/// A measured layout whose size in bits may not fit 64 bits.
pub struct Rough {
    pub bits: Option<u64>,
    pub align: u16,
    pub zst: bool,
}

pub open spec fn rough_is(rough: Rough, m: Metrics) -> bool {
    &&& match rough.bits {
        Some(bits) => m.bits == bits,
        None => m.bits > u64::MAX,
    }
    &&& rough.align == m.align
    &&& rough.zst == m.zst
    &&& rough.align > 0
}

/// Every aggregate that takes part in the layout of the type can be laid out.
#[verifier::opaque]
pub open spec fn sized(t: Shape, group: Seq<Metrics>) -> bool
    decreases t,
{
    match t {
        Shape::Array(element, _) => sized(*element, group),
        Shape::Struct(s) => {
            &&& struct_fits(s.repr, field_metrics(s.fields, group))
            &&& forall|i: int| 0 <= i < s.fields.len() ==> sized((#[trigger] s.fields[i]).ty, group)
        },
        Shape::Enum(e) => {
            &&& enum_fits(metrics(*e.discriminant, group), payload_metrics(e.variants, group))
            &&& forall|i: int|
                0 <= i < e.variants.len() ==> ((#[trigger] e.variants[i]).value matches Some(value)
                    ==> sized(value, group))
        },
        _ => true,
    }
}

pub proof fn fitting_types_are_sized(t: Shape, group: Seq<Metrics>)
    requires
        fits(t, group),
    ensures
        sized(t, group),
    decreases t,
{
    reveal(fits);
    reveal(sized);
    match t {
        Shape::Array(element, _) => {
            fitting_types_are_sized(*element, group);
        },
        Shape::Struct(s) => {
            assert forall|i: int| 0 <= i < s.fields.len() implies sized(
                (#[trigger] s.fields[i]).ty,
                group,
            ) by {
                fitting_types_are_sized(s.fields[i].ty, group);
            }
        },
        Shape::Enum(e) => {
            assert forall|i: int|
                0 <= i < e.variants.len() && (#[trigger] e.variants[i]).value is Some implies sized(
                e.variants[i].value->0,
                group,
            ) by {
                fitting_types_are_sized(e.variants[i].value->0, group);
            }
        },
        _ => {},
    }
}

/// The type holds definition `i` itself, and not just a reference to it.
#[verifier::opaque]
pub open spec fn holds(t: Shape, i: nat) -> bool
    decreases t,
{
    match t {
        Shape::Var(j) => j == i,
        Shape::Array(element, _) => holds(*element, i),
        Shape::Struct(s) => exists|k: int|
            0 <= k < s.fields.len() && holds((#[trigger] s.fields[k]).ty, i),
        Shape::Enum(e) => exists|k: int|
            0 <= k < e.variants.len() && ((#[trigger] e.variants[k]).value matches Some(value)
                && holds(value, i)),
        _ => false,
    }
}

/// `a` and `b` give the same layout to every definition that the type holds.
pub open spec fn agree(t: Shape, a: Seq<Metrics>, b: Seq<Metrics>) -> bool {
    &&& a.len() == b.len()
    &&& forall|i: nat| i < a.len() && #[trigger] holds(t, i) ==> a[i as int] == b[i as int]
}

/// The layout of a type depends on the definitions that it holds, and on no others.
pub proof fn layout_depends_on_what_is_held(t: Shape, a: Seq<Metrics>, b: Seq<Metrics>)
    requires
        agree(t, a, b),
        defect(t) is None,
    ensures
        metrics(t, a) == metrics(t, b),
        sized(t, a) == sized(t, b),
    decreases t,
{
    reveal(holds);
    reveal(sized);
    metrics_unfold(t, a);
    metrics_unfold(t, b);
    match t {
        Shape::Var(i) => {
            if i < a.len() {
                assert(holds(t, i));
            }
        },
        Shape::Array(element, _) => {
            assert forall|i: nat| i < a.len() && #[trigger] holds(*element, i) implies a[i as int]
                == b[i as int] by {
                assert(holds(t, i));
            }
            layout_depends_on_what_is_held(*element, a, b);
        },
        Shape::Struct(s) => {
            no_defect_of_fields(s.fields);
            assert forall|k: int| 0 <= k < s.fields.len() implies metrics(
                (#[trigger] s.fields[k]).ty,
                a,
            ) == metrics(s.fields[k].ty, b) && sized(s.fields[k].ty, a) == sized(
                s.fields[k].ty,
                b,
            ) by {
                assert forall|i: nat| i < a.len() && #[trigger] holds(
                    s.fields[k].ty,
                    i,
                ) implies a[i as int] == b[i as int] by {
                    assert(holds(t, i));
                }
                layout_depends_on_what_is_held(s.fields[k].ty, a, b);
            }
            assert(field_metrics(s.fields, a) =~= field_metrics(s.fields, b));
        },
        Shape::Enum(e) => {
            no_defect_of_variants(e.variants);
            discriminants_are_closed(e);
            closed_metrics(*e.discriminant, a);
            closed_metrics(*e.discriminant, b);
            assert forall|k: int|
                0 <= k < e.variants.len() && (#[trigger] e.variants[k]).value is Some implies metrics(
                e.variants[k].value->0,
                a,
            ) == metrics(e.variants[k].value->0, b) && sized(e.variants[k].value->0, a) == sized(
                e.variants[k].value->0,
                b,
            ) by {
                let value = e.variants[k].value->0;
                assert forall|i: nat| i < a.len() && #[trigger] holds(value, i) implies a[i as int]
                    == b[i as int] by {
                    assert(holds(t, i));
                }
                layout_depends_on_what_is_held(value, a, b);
            }
            assert(payload_metrics(e.variants, a) =~= payload_metrics(e.variants, b));
        },
        _ => {},
    }
}

/// The discriminant of a valid enum is an integer.
proof fn discriminants_are_closed(e: EnumShape)
    requires
        enum_fault(e) is None,
    ensures
        !has_var(*e.discriminant),
{
    reveal(has_var);
}

/// The slots that the names stand for are among `n`.
pub open spec fn slots_within(names: &Names, n: nat) -> bool {
    forall|i: int|
        0 <= i < names.meanings@.len() ==> ((#[trigger] names.meanings@[i]) matches Meaning::Slot(
            slot,
        ) ==> slot < n)
}

pub proof fn resolved_slot(names: &Names, key: Seq<char>, n: nat, slot: u16)
    requires
        names.wf(),
        slots_within(names, n),
        resolve(names@, key) == Some(Shape::Var(slot as nat)),
    ensures
        slot < n,
{
    position_found(names@.keys, key, 0);
    let i = crate::hir::recursive::scope::position(names@.keys, key, 0)->0;
    assert(meaning(names.meanings@[i]) == Some(Shape::Var(slot as nat)));
    if let Meaning::Done(ty) = names.meanings@[i] {
        types_are_closed(&ty);
        reveal(has_var);
    }
}

pub open spec fn known(layouts: Seq<Measure>) -> bool {
    forall|i: int| 0 <= i < layouts.len() ==> (#[trigger] layouts[i]).align > 0
}

/// The block of bytes that stands for a definition, if it is small enough.
fn reserve(layout: &Measure) -> (rough: Rough)
    requires
        layout.align > 0,
    ensures
        rough_is(rough, stand_in(layout@)),
{
    let bytes: u64 = layout.bytes();
    let over: u64 = bytes % (layout.align as u64);
    let padded: u64 = if over == 0 {
        bytes
    } else {
        bytes + (layout.align as u64 - over)
    };
    Rough { bits: padded.checked_mul(8), align: layout.align, zst: bytes == 0 }
}

/// Measures a template, where `layouts` gives the layouts of the group's definitions. Fails where
/// some aggregate that takes part in the layout cannot be laid out.
pub fn measure_template(t: &TypeTemplate, names: &Names, layouts: &Vec<Measure>) -> (rough: Option<
    Rough,
>)
    requires
        names.wf(),
        template_wf(*t),
        slots_within(names, layouts@.len()),
        known(layouts@),
        defect(subst(t@, names@)) is None,
    ensures
        match rough {
            Some(rough) => rough_is(rough, metrics(subst(t@, names@), measured(layouts@))),
            None => !sized(subst(t@, names@), measured(layouts@)),
        },
    decreases *t,
{
    let ghost group = measured(layouts@);
    proof {
        template_shape_unfold(t);
        subst_unfold(t@, names@);
        metrics_unfold(subst(t@, names@), group);
        reveal(template_wf);
        reveal(sized);
    }
    match t {
        TypeTemplate::Type(ty) => {
            proof {
                types_are_closed(ty);
                subst_closed(ty@, names@);
                closed_metrics(ty@, group);
            }
            Some(measure_type(ty))
        },
        TypeTemplate::Rec(key) => match names.look_up(key) {
            Meaning::Done(ty) => {
                proof {
                    types_are_closed(ty);
                    closed_metrics(ty@, group);
                }
                Some(measure_type(ty))
            },
            Meaning::Slot(slot) => {
                proof {
                    resolved_slot(names, key@, layouts@.len(), *slot);
                }
                Some(reserve(&layouts[*slot as usize]))
            },
            Meaning::Open => None,
        },
        TypeTemplate::Ptr(_, _) => Some(Rough { bits: Some(32), align: 4, zst: false }),
        TypeTemplate::List(_) => Some(Rough { bits: Some(64), align: 4, zst: false }),
        TypeTemplate::Function(_) => Some(Rough { bits: Some(32), align: 4, zst: false }),
        TypeTemplate::Array(element, len) => match measure_template(element, names, layouts) {
            Some(rough) => Some(
                Rough {
                    bits: array_size(
                        rough.bits,
                        rough.align,
                        *len,
                        Ghost(metrics(subst(element@, names@), group)),
                    ),
                    align: rough.align,
                    zst: *len == 0 || rough.zst,
                },
            ),
            None => None,
        },
        TypeTemplate::Struct(s) => measure_struct_template(s, names, layouts),
        TypeTemplate::Enum(e) => measure_enum_template(e, names, layouts),
    }
}

fn measure_type(ty: &Type) -> (rough: Rough)
    requires
        wf(*ty),
    ensures
        rough_is(rough, metrics(ty@, Seq::empty())),
{
    Rough { bits: bits_of(ty), align: alignment(ty), zst: zero_sized(ty) }
}

pub proof fn oversized_field(repr: TypeRepr, fields: Seq<Metrics>, i: int)
    requires
        0 <= i < fields.len(),
        fields[i].bits > u64::MAX,
        forall|j: int| 0 <= j < fields.len() ==> 0 < (#[trigger] fields[j]).align <= u16::MAX,
    ensures
        !struct_fits(repr, fields),
{
    if struct_fits(repr, fields) {
        offsets_grow(repr, fields, i as nat, fields.len());
        widths_bounded(repr, fields, fields.len());
        assert(struct_size(repr, fields) >= fields[i].bytes());
    }
}

/// The layout of a struct from the layouts of its fields.
fn measure_fields(repr: TypeRepr, roughs: &Vec<Rough>, Ghost(fields): Ghost<Seq<Metrics>>) -> (rough:
    Option<Rough>)
    requires
        fields.len() == roughs@.len(),
        forall|i: int| 0 <= i < roughs@.len() ==> rough_is(#[trigger] roughs@[i], fields[i]),
    ensures
        match rough {
            Some(rough) => struct_fits(repr, fields) && rough_is(
                rough,
                struct_metrics(repr, fields),
            ),
            None => !struct_fits(repr, fields),
        },
{
    let mut measures: Vec<Measure> = Vec::new();
    let mut zst: bool = true;
    let mut i: usize = 0;
    assert forall|j: int| 0 <= j < fields.len() implies 0 < (#[trigger] fields[j]).align
        <= u16::MAX by {
        assert(rough_is(roughs@[j], fields[j]));
    }
    while i < roughs.len()
        invariant
            i <= roughs@.len(),
            fields.len() == roughs@.len(),
            forall|i: int| 0 <= i < roughs@.len() ==> rough_is(#[trigger] roughs@[i], fields[i]),
            forall|j: int| 0 <= j < fields.len() ==> 0 < (#[trigger] fields[j]).align <= u16::MAX,
            measures@.len() == i,
            forall|j: int|
                0 <= j < i ==> (#[trigger] measures@[j])@ == fields[j] && measures@[j].align > 0,
            zst == forall|j: int| 0 <= j < i ==> (#[trigger] fields[j]).zst,
        decreases roughs@.len() - i,
    {
        let rough = &roughs[i];
        assert(rough_is(roughs@[i as int], fields[i as int]));
        match rough.bits {
            Some(bits) => {
                measures.push(Measure { bits, align: rough.align, zst: rough.zst });
            },
            None => {
                proof {
                    oversized_field(repr, fields, i as int);
                }
                return None;
            },
        }
        if !rough.zst {
            assert(!fields[i as int].zst);
            zst = false;
        }
        i += 1;
    }
    assert(measured(measures@) =~= fields);
    match lay_out(repr, &measures) {
        None => None,
        Some(placement) => {
            let mut align: u16 = 1;
            let mut i: usize = 0;
            proof {
                widths_bounded(repr, fields, fields.len());
            }
            while i < placement.slots.len()
                invariant
                    i <= placement.slots@.len(),
                    placement.slots@.len() == fields.len(),
                    forall|j: int|
                        0 <= j < fields.len() ==> (#[trigger] placement.slots@[j]).0
                            == field_align(repr, fields[j]),
                    align == widest_field(repr, fields, i as nat),
                    align > 0,
                decreases placement.slots@.len() - i,
            {
                if align < placement.slots[i].0 {
                    align = placement.slots[i].0;
                }
                i += 1;
            }
            let align: u16 = match repr {
                TypeRepr::Align(custom) => if align < custom {
                    custom
                } else {
                    align
                },
                _ => align,
            };
            Some(Rough { bits: Some(8 * placement.size as u64), align, zst })
        },
    }
}

/// Measures a struct definition.
pub fn measure_struct_template(s: &StructTemplate, names: &Names, layouts: &Vec<Measure>) -> (rough:
    Option<Rough>)
    requires
        names.wf(),
        struct_template_wf(*s),
        slots_within(names, layouts@.len()),
        known(layouts@),
        defect(Shape::Struct(subst_struct(struct_template_shape(*s), names@))) is None,
    ensures
        ({
            let whole = Shape::Struct(subst_struct(struct_template_shape(*s), names@));
            match rough {
                Some(rough) => rough_is(rough, metrics(whole, measured(layouts@))),
                None => !sized(whole, measured(layouts@)),
            }
        }),
    decreases *s,
{
    let ghost group = measured(layouts@);
    let ghost whole = Shape::Struct(subst_struct(struct_template_shape(*s), names@));
    let ghost all = subst_fields(field_template_shapes(s.fields@), names@);
    proof {
        no_defect_of_fields(all);
        metrics_unfold(whole, group);
        reveal(sized);
        assert(whole->Struct_0.fields == all);
    }
    let mut roughs: Vec<Rough> = Vec::new();
    let mut i: usize = 0;
    while i < s.fields.len()
        invariant
            i <= s.fields@.len(),
            names.wf(),
            struct_template_wf(*s),
            slots_within(names, layouts@.len()),
            known(layouts@),
            group == measured(layouts@),
            whole == Shape::Struct(subst_struct(struct_template_shape(*s), names@)),
            all == subst_fields(field_template_shapes(s.fields@), names@),
            forall|j: int| 0 <= j < all.len() ==> defect((#[trigger] all[j]).ty) is None,
            roughs@.len() == i,
            forall|j: int|
                0 <= j < i ==> rough_is(#[trigger] roughs@[j], field_metrics(all, group)[j]),
        decreases s.fields@.len() - i,
    {
        assert(all[i as int].ty == subst(s.fields@[i as int].ty@, names@));
        match measure_template(&s.fields[i].ty, names, layouts) {
            Some(rough) => {
                roughs.push(rough);
            },
            None => {
                proof {
                    reveal(sized);
                    assert(!sized(whole->Struct_0.fields[i as int].ty, group));
                }
                return None;
            },
        }
        i += 1;
    }
    measure_fields(s.repr, &roughs, Ghost(field_metrics(all, group)))
}

/// Measures an enum definition.
pub fn measure_enum_template(e: &EnumTemplate, names: &Names, layouts: &Vec<Measure>) -> (rough:
    Option<Rough>)
    requires
        names.wf(),
        enum_template_wf(*e),
        slots_within(names, layouts@.len()),
        known(layouts@),
        defect(Shape::Enum(subst_enum(enum_template_shape(*e), names@))) is None,
    ensures
        ({
            let whole = Shape::Enum(subst_enum(enum_template_shape(*e), names@));
            match rough {
                Some(rough) => rough_is(rough, metrics(whole, measured(layouts@))),
                None => !sized(whole, measured(layouts@)),
            }
        }),
    decreases *e,
{
    let ghost group = measured(layouts@);
    let ghost whole = Shape::Enum(subst_enum(enum_template_shape(*e), names@));
    let ghost all = subst_variants(variant_template_shapes(e.variants@), names@);
    proof {
        no_defect_of_variants(all);
        metrics_unfold(whole, group);
        reveal(sized);
        assert(whole->Enum_0.variants == all);
        types_are_closed(&e.discriminant);
        subst_closed(e.discriminant@, names@);
        closed_metrics(e.discriminant@, group);
        metrics_unfold(e.discriminant@, Seq::empty());
        align_bounds(&e.discriminant);
    }
    let tag = match measure(&e.discriminant) {
        Some(tag) => tag,
        None => {
            return None;
        },
    };
    let mut payloads: Vec<Option<Measure>> = Vec::new();
    let mut i: usize = 0;
    while i < e.variants.len()
        invariant
            i <= e.variants@.len(),
            names.wf(),
            enum_template_wf(*e),
            slots_within(names, layouts@.len()),
            known(layouts@),
            group == measured(layouts@),
            whole == Shape::Enum(subst_enum(enum_template_shape(*e), names@)),
            all == subst_variants(variant_template_shapes(e.variants@), names@),
            tag@ == metrics(*whole->Enum_0.discriminant, group),
            tag.align > 0,
            forall|j: int|
                0 <= j < all.len() && (#[trigger] all[j]).value is Some ==> defect(
                    all[j].value->0,
                ) is None,
            payloads@.len() == i,
            forall|j: int|
                0 <= j < i ==> match #[trigger] payloads@[j] {
                    Some(payload) => payload_metrics(all, group)[j] == Some(payload@)
                        && payload.align > 0,
                    None => payload_metrics(all, group)[j] is None,
                },
        decreases e.variants@.len() - i,
    {
        assert(variant_template_shapes(e.variants@)[i as int] == variant_template_shape(
            e.variants@[i as int],
        ));
        match &e.variants[i].value {
            Some(value) => {
                assert(all[i as int].value == Some(subst(value@, names@)));
                match measure_template(value, names, layouts) {
                    Some(rough) => match rough.bits {
                        Some(bits) => {
                            payloads.push(
                                Some(Measure { bits, align: rough.align, zst: rough.zst }),
                            );
                        },
                        None => {
                            proof {
                                reveal(sized);
                                let payload = payload_metrics(all, group)[i as int];
                                assert(payload is Some);
                                assert(tagged_size(tag@, payload->0) > u32::MAX);
                            }
                            return None;
                        },
                    },
                    None => {
                        proof {
                            reveal(sized);
                            assert(!sized(whole->Enum_0.variants[i as int].value->0, group));
                        }
                        return None;
                    },
                }
            },
            None => {
                payloads.push(None);
            },
        }
        i += 1;
    }
    assert(measured_payloads(payloads@) =~= payload_metrics(all, group));
    match lay_variants_out(&tag, &payloads) {
        None => None,
        Some(placement) => {
            proof {
                assert forall|j: int|
                    0 <= j < all.len() && (#[trigger] payload_metrics(all, group)[j])
                        is Some implies 1 <= payload_metrics(all, group)[j]->0.align <= u16::MAX by {
                    assert(payloads@[j] is Some);
                }
                crate::hir::layout::enum_align_bounded(
                    tag@,
                    payload_metrics(all, group),
                    payload_metrics(all, group).len(),
                );
            }
            Some(
                Rough {
                    bits: Some(8 * placement.size as u64),
                    align: placement.align as u16,
                    zst: e.variants.len() == 0,
                },
            )
        },
    }
}

// ---------------------------------------------------------------------------------------------
// Bodies
// ---------------------------------------------------------------------------------------------

/// Makes a type expression of a body out of a template, where `layouts` gives the layouts of the
/// group's definitions. Fails where some aggregate inside cannot be laid out.
pub fn open_type(t: &TypeTemplate, names: &Names, layouts: &Vec<Measure>) -> (made: Option<
    OpenType,
>)
    requires
        names.wf(),
        template_wf(*t),
        slots_within(names, layouts@.len()),
        known(layouts@),
        defect(subst(t@, names@)) is None,
    ensures
        match made {
            Some(made) => {
                &&& made@ == subst(t@, names@)
                &&& open_wf(made, measured(layouts@))
                &&& fits(subst(t@, names@), measured(layouts@))
            },
            None => !fits(subst(t@, names@), measured(layouts@)),
        },
    decreases *t, 1int,
{
    let ghost group = measured(layouts@);
    let ghost whole = subst(t@, names@);
    if !mentions_group(t, names) {
        proof {
            closed_fits(whole, group);
        }
        return match close(t, names) {
            Some(ty) => {
                let made = OpenType::Closed(ty);
                proof {
                    open_shape_unfold(&made);
                    open_wf_unfold(&made, group);
                }
                Some(made)
            },
            None => None,
        };
    }
    proof {
        template_shape_unfold(t);
        subst_unfold(t@, names@);
        reveal(template_wf);
        reveal(fits);
        reveal(has_var);
    }
    let made: OpenType = match t {
        TypeTemplate::Type(ty) => {
            proof {
                types_are_closed(ty);
                subst_closed(ty@, names@);
            }
            OpenType::Closed(ty.clone())
        },
        TypeTemplate::Rec(key) => match names.look_up(key) {
            Meaning::Slot(slot) => {
                proof {
                    resolved_slot(names, key@, layouts@.len(), *slot);
                }
                OpenType::Var(*slot)
            },
            Meaning::Done(ty) => {
                proof {
                    types_are_closed(ty);
                }
                OpenType::Closed(ty.clone())
            },
            Meaning::Open => {
                return None;
            },
        },
        TypeTemplate::Ptr(addrspace, pointee) => match open_type(pointee, names, layouts) {
            Some(pointee) => OpenType::Ptr(*addrspace, Box::new(pointee)),
            None => {
                return None;
            },
        },
        TypeTemplate::Array(element, len) => match open_type(element, names, layouts) {
            Some(element) => OpenType::Array(Box::new(element), *len),
            None => {
                return None;
            },
        },
        TypeTemplate::List(element) => match open_type(element, names, layouts) {
            Some(element) => OpenType::List(Box::new(element)),
            None => {
                return None;
            },
        },
        TypeTemplate::Function(f) => {
            proof {
                no_defect_of_all(subst_all(template_shapes(f.params@), names@));
                no_defect_of_all(subst_all(template_shapes(f.results@), names@));
                assert(whole->Function_0.params == subst_all(template_shapes(f.params@), names@));
                assert(whole->Function_0.results == subst_all(
                    template_shapes(f.results@),
                    names@,
                ));
            }
            match (open_all(&f.params, names, layouts), open_all(&f.results, names, layouts)) {
                (Some(params), Some(results)) => OpenType::Function(
                    Box::new(OpenFunctionType { abi: f.abi.clone(), params, results }),
                ),
                _ => {
                    return None;
                },
            }
        },
        TypeTemplate::Struct(s) => match open_struct(s, names, layouts) {
            Some(made) => OpenType::Struct(Box::new(made)),
            None => {
                return None;
            },
        },
        TypeTemplate::Enum(e) => match open_enum(e, names, layouts) {
            Some(made) => OpenType::Enum(Box::new(made)),
            None => {
                return None;
            },
        },
    };
    proof {
        open_shape_unfold(&made);
        assert(made@ == whole);
        open_wf_unfold(&made, group);
    }
    Some(made)
}

fn open_all(types: &Vec<TypeTemplate>, names: &Names, layouts: &Vec<Measure>) -> (made: Option<
    Vec<OpenType>,
>)
    requires
        names.wf(),
        forall|i: int| 0 <= i < types@.len() ==> template_wf(#[trigger] types@[i]),
        slots_within(names, layouts@.len()),
        known(layouts@),
        forall|i: int|
            0 <= i < types@.len() ==> defect(
                #[trigger] subst_all(template_shapes(types@), names@)[i],
            ) is None,
    ensures
        match made {
            Some(made) => {
                &&& open_shapes(made@) == subst_all(template_shapes(types@), names@)
                &&& forall|i: int|
                    0 <= i < made@.len() ==> open_wf(#[trigger] made@[i], measured(layouts@))
                &&& forall|i: int|
                    0 <= i < types@.len() ==> fits(
                        #[trigger] subst_all(template_shapes(types@), names@)[i],
                        measured(layouts@),
                    )
            },
            None => exists|i: int|
                0 <= i < types@.len() && !fits(
                    #[trigger] subst_all(template_shapes(types@), names@)[i],
                    measured(layouts@),
                ),
        },
    decreases *types, 1int,
{
    let ghost all = subst_all(template_shapes(types@), names@);
    let ghost group = measured(layouts@);
    let mut made: Vec<OpenType> = Vec::new();
    let mut i: usize = 0;
    while i < types.len()
        invariant
            i <= types@.len(),
            names.wf(),
            forall|i: int| 0 <= i < types@.len() ==> template_wf(#[trigger] types@[i]),
            slots_within(names, layouts@.len()),
            known(layouts@),
            group == measured(layouts@),
            all == subst_all(template_shapes(types@), names@),
            forall|i: int| 0 <= i < types@.len() ==> defect(#[trigger] all[i]) is None,
            made@.len() == i,
            forall|j: int|
                0 <= j < i ==> (#[trigger] made@[j])@ == all[j] && open_wf(made@[j], group)
                    && fits(all[j], group),
        decreases types@.len() - i,
    {
        assert(all[i as int] == subst(types@[i as int]@, names@));
        match open_type(&types[i], names, layouts) {
            Some(o) => {
                made.push(o);
            },
            None => {
                assert(!fits(all[i as int], group));
                return None;
            },
        }
        i += 1;
    }
    assert(open_shapes(made@) =~= all);
    assert forall|i: int| 0 <= i < types@.len() implies fits(#[trigger] all[i], group) by {
        assert(made@[i]@ == all[i]);
    }
    Some(made)
}

/// Makes the body of a struct definition.
pub fn open_struct(s: &StructTemplate, names: &Names, layouts: &Vec<Measure>) -> (made: Option<
    OpenStructType,
>)
    requires
        names.wf(),
        struct_template_wf(*s),
        slots_within(names, layouts@.len()),
        known(layouts@),
        defect(Shape::Struct(subst_struct(struct_template_shape(*s), names@))) is None,
    ensures
        ({
            let whole = Shape::Struct(subst_struct(struct_template_shape(*s), names@));
            match made {
                Some(made) => {
                    &&& Shape::Struct(open_struct_shape(made)) == whole
                    &&& open_struct_wf(made, measured(layouts@))
                    &&& fits(whole, measured(layouts@))
                },
                None => !fits(whole, measured(layouts@)),
            }
        }),
    decreases *s, 1int,
{
    let ghost group = measured(layouts@);
    let ghost whole = Shape::Struct(subst_struct(struct_template_shape(*s), names@));
    let ghost all = subst_fields(field_template_shapes(s.fields@), names@);
    let ghost sizes = field_metrics(all, group);
    proof {
        no_defect_of_fields(all);
        reveal(fits);
        assert(whole->Struct_0.fields == all);
    }
    let mut measures: Vec<Measure> = Vec::new();
    let mut opened: Vec<OpenType> = Vec::new();
    let mut roughs: Vec<Rough> = Vec::new();
    let mut i: usize = 0;
    while i < s.fields.len()
        invariant
            i <= s.fields@.len(),
            names.wf(),
            struct_template_wf(*s),
            slots_within(names, layouts@.len()),
            known(layouts@),
            group == measured(layouts@),
            whole == Shape::Struct(subst_struct(struct_template_shape(*s), names@)),
            all == subst_fields(field_template_shapes(s.fields@), names@),
            sizes == field_metrics(all, group),
            forall|j: int| 0 <= j < all.len() ==> defect((#[trigger] all[j]).ty) is None,
            roughs@.len() == i,
            opened@.len() == i,
            forall|j: int| 0 <= j < i ==> rough_is(#[trigger] roughs@[j], sizes[j]),
            forall|j: int|
                0 <= j < i ==> (#[trigger] opened@[j])@ == all[j].ty && open_wf(opened@[j], group)
                    && fits(all[j].ty, group),
        decreases s.fields@.len() - i,
    {
        let field = &s.fields[i];
        assert(all[i as int].ty == subst(s.fields@[i as int].ty@, names@));
        match (measure_template(&field.ty, names, layouts), open_type(&field.ty, names, layouts)) {
            (Some(rough), Some(o)) => {
                roughs.push(rough);
                opened.push(o);
            },
            _ => {
                proof {
                    reveal(fits);
                    if fits(all[i as int].ty, group) {
                        fitting_types_are_sized(all[i as int].ty, group);
                    }
                    assert(!fits(whole->Struct_0.fields[i as int].ty, group));
                }
                return None;
            },
        }
        i += 1;
    }
    assert forall|j: int| 0 <= j < sizes.len() implies 0 < (#[trigger] sizes[j]).align <= u16::MAX by {
        assert(rough_is(roughs@[j], sizes[j]));
    }
    let mut i: usize = 0;
    while i < roughs.len()
        invariant
            i <= roughs@.len(),
            roughs@.len() == sizes.len(),
            whole == Shape::Struct(subst_struct(struct_template_shape(*s), names@)),
            whole->Struct_0.fields == all,
            sizes == field_metrics(all, group),
            group == measured(layouts@),
            forall|j: int| 0 <= j < roughs@.len() ==> rough_is(#[trigger] roughs@[j], sizes[j]),
            forall|j: int| 0 <= j < sizes.len() ==> 0 < (#[trigger] sizes[j]).align <= u16::MAX,
            measures@.len() == i,
            forall|j: int|
                0 <= j < i ==> (#[trigger] measures@[j])@ == sizes[j] && measures@[j].align > 0,
        decreases roughs@.len() - i,
    {
        let rough = &roughs[i];
        assert(rough_is(roughs@[i as int], sizes[i as int]));
        match rough.bits {
            Some(bits) => {
                measures.push(Measure { bits, align: rough.align, zst: rough.zst });
            },
            None => {
                proof {
                    oversized_field(s.repr, sizes, i as int);
                    reveal(fits);
                }
                return None;
            },
        }
        i += 1;
    }
    assert(measured(measures@) =~= sizes);
    let placement = match lay_out(s.repr, &measures) {
        Some(placement) => placement,
        None => {
            return None;
        },
    };
    let made = OpenStructType {
        name: copy_name(&s.name),
        repr: s.repr,
        size: placement.size,
        fields: attach(&s.fields, opened, &placement.slots),
    };
    proof {
        assert(open_field_shapes(made.fields@) =~= all);
        assert(open_struct_sound(made, group));
        assert(fits(whole, group)) by {
            assert forall|j: int| 0 <= j < all.len() implies fits((#[trigger] all[j]).ty, group) by {
                assert(made.fields@[j].ty@ == all[j].ty);
            }
        }
    }
    Some(made)
}

/// Puts the parts of fields together.
fn attach(fields: &Vec<FieldTemplate>, opened: Vec<OpenType>, slots: &Vec<(u16, u32)>) -> (made:
    Vec<OpenStructField>)
    requires
        fields@.len() == opened@.len(),
        fields@.len() == slots@.len(),
        fields@.len() <= 255,
    ensures
        made@.len() == fields@.len(),
        forall|i: int|
            0 <= i < made@.len() ==> {
                &&& (#[trigger] made@[i]).name == fields@[i].name
                &&& made@[i].index == i
                &&& made@[i].align == slots@[i].0
                &&& made@[i].offset == slots@[i].1
                &&& made@[i].ty == opened@[i]
            },
{
    let ghost all = opened@;
    let mut rest = opened;
    let mut turned: Vec<OpenType> = Vec::new();
    while rest.len() > 0
        invariant
            rest@ =~= all.take(rest@.len() as int),
            rest@.len() <= all.len(),
            turned@.len() == all.len() - rest@.len(),
            forall|j: int|
                0 <= j < turned@.len() ==> #[trigger] turned@[j] == all[all.len() - 1 - j],
        decreases rest@.len(),
    {
        match rest.pop() {
            Some(o) => {
                turned.push(o);
            },
            None => {},
        }
    }
    let mut made: Vec<OpenStructField> = Vec::new();
    let mut i: usize = 0;
    while i < fields.len()
        invariant
            i <= fields@.len(),
            fields@.len() <= 255,
            fields@.len() == slots@.len(),
            fields@.len() == all.len(),
            turned@.len() == all.len() - i,
            forall|j: int|
                0 <= j < turned@.len() ==> #[trigger] turned@[j] == all[all.len() - 1 - j],
            made@.len() == i,
            forall|j: int|
                0 <= j < i ==> {
                    &&& (#[trigger] made@[j]).name == fields@[j].name
                    &&& made@[j].index == j
                    &&& made@[j].align == slots@[j].0
                    &&& made@[j].offset == slots@[j].1
                    &&& made@[j].ty == all[j]
                },
        decreases fields@.len() - i,
    {
        match turned.pop() {
            Some(ty) => {
                made.push(
                    OpenStructField {
                        name: copy_name(&fields[i].name),
                        index: i as u8,
                        align: slots[i].0,
                        offset: slots[i].1,
                        ty,
                    },
                );
            },
            None => {},
        }
        i += 1;
    }
    made
}

/// Makes the body of an enum definition.
pub fn open_enum(e: &EnumTemplate, names: &Names, layouts: &Vec<Measure>) -> (made: Option<
    OpenEnumType,
>)
    requires
        names.wf(),
        enum_template_wf(*e),
        slots_within(names, layouts@.len()),
        known(layouts@),
        defect(Shape::Enum(subst_enum(enum_template_shape(*e), names@))) is None,
    ensures
        ({
            let whole = Shape::Enum(subst_enum(enum_template_shape(*e), names@));
            match made {
                Some(made) => {
                    &&& Shape::Enum(open_enum_shape(made)) == whole
                    &&& open_enum_wf(made, measured(layouts@))
                    &&& fits(whole, measured(layouts@))
                },
                None => !fits(whole, measured(layouts@)),
            }
        }),
    decreases *e, 1int,
{
    let ghost group = measured(layouts@);
    let ghost whole = Shape::Enum(subst_enum(enum_template_shape(*e), names@));
    let ghost all = subst_variants(variant_template_shapes(e.variants@), names@);
    let ghost sizes = payload_metrics(all, group);
    proof {
        no_defect_of_variants(all);
        reveal(fits);
        assert(whole->Enum_0.variants == all);
        types_are_closed(&e.discriminant);
        subst_closed(e.discriminant@, names@);
        closed_metrics(e.discriminant@, group);
        metrics_unfold(e.discriminant@, Seq::empty());
        align_bounds(&e.discriminant);
    }
    let tag = match measure(&e.discriminant) {
        Some(tag) => tag,
        None => {
            return None;
        },
    };
    let mut payloads: Vec<Option<Measure>> = Vec::new();
    let mut variants: Vec<OpenVariant> = Vec::new();
    let mut i: usize = 0;
    while i < e.variants.len()
        invariant
            i <= e.variants@.len(),
            names.wf(),
            enum_template_wf(*e),
            slots_within(names, layouts@.len()),
            known(layouts@),
            group == measured(layouts@),
            whole == Shape::Enum(subst_enum(enum_template_shape(*e), names@)),
            all == subst_variants(variant_template_shapes(e.variants@), names@),
            sizes == payload_metrics(all, group),
            tag@ == metrics(*whole->Enum_0.discriminant, group),
            tag.align > 0,
            forall|j: int|
                0 <= j < all.len() && (#[trigger] all[j]).value is Some ==> defect(
                    all[j].value->0,
                ) is None,
            payloads@.len() == i,
            forall|j: int|
                0 <= j < i ==> match #[trigger] payloads@[j] {
                    Some(payload) => sizes[j] == Some(payload@) && payload.align > 0,
                    None => sizes[j] is None,
                },
            variants@.len() == i,
            forall|j: int|
                0 <= j < i ==> {
                    &&& (#[trigger] variants@[j]).name@ == all[j].name
                    &&& variants@[j].discriminant_value == all[j].discriminant_value
                    &&& match variants@[j].value {
                        Some(value) => all[j].value == Some(value@) && open_wf(value, group) && fits(
                            value@,
                            group,
                        ),
                        None => all[j].value is None,
                    }
                },
        decreases e.variants@.len() - i,
    {
        assert(variant_template_shapes(e.variants@)[i as int] == variant_template_shape(
            e.variants@[i as int],
        ));
        let variant = &e.variants[i];
        let value: Option<OpenType> = match &variant.value {
            Some(value) => {
                assert(all[i as int].value == Some(subst(value@, names@)));
                match (measure_template(value, names, layouts), open_type(value, names, layouts)) {
                    (Some(rough), Some(o)) => {
                        match rough.bits {
                            Some(bits) => {
                                payloads.push(
                                    Some(Measure { bits, align: rough.align, zst: rough.zst }),
                                );
                            },
                            None => {
                                proof {
                                    reveal(fits);
                                    assert(sizes[i as int] is Some);
                                    assert(tagged_size(tag@, sizes[i as int]->0) > u32::MAX);
                                }
                                return None;
                            },
                        }
                        Some(o)
                    },
                    _ => {
                        proof {
                            reveal(fits);
                            if fits(all[i as int].value->0, group) {
                                fitting_types_are_sized(all[i as int].value->0, group);
                            }
                            assert(!fits(whole->Enum_0.variants[i as int].value->0, group));
                        }
                        return None;
                    },
                }
            },
            None => {
                payloads.push(None);
                None
            },
        };
        variants.push(
            OpenVariant {
                name: variant.name.clone(),
                value,
                discriminant_value: variant.discriminant_value,
            },
        );
        i += 1;
    }
    assert(measured_payloads(payloads@) =~= sizes);
    match lay_variants_out(&tag, &payloads) {
        None => None,
        Some(placement) => {
            let made = OpenEnumType {
                name: e.name.clone(),
                discriminant: e.discriminant.clone(),
                variants,
                offsets: placement.offsets,
                size: placement.size,
                align: placement.align,
            };
            proof {
                assert(open_variant_shapes(made.variants@) =~= all);
                assert(open_enum_sound(made, group));
                assert(fits(whole, group)) by {
                    assert forall|j: int|
                        0 <= j < all.len() && (#[trigger] all[j]).value is Some implies fits(
                        all[j].value->0,
                        group,
                    ) by {
                        assert(made.variants@[j].value is Some);
                    }
                }
            }
            Some(made)
        },
    }
}

} // verus!
