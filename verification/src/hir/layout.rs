//! Computing the layout of types.
use vstd::prelude::*;

use crate::hir::metrics::{
    align_up, all_zst, array_bits, end_offset, enum_align, field_align, field_metrics,
    field_offset, group_metrics_unfold, is_alignment, metrics, metrics_unfold, padding_align,
    payload_metrics, repr_ok, struct_align, struct_fits, struct_size, widest, widest_field,
    Metrics,
};
use crate::hir::shape::{has_var, Shape, TypeRepr};
use crate::hir::types::{
    field_shapes, group_layouts, laid_out_discriminant, laid_out_fields, laid_out_payloads,
    layout_is, rec_sound, shape_unfold, shapes, struct_wf, variant_shapes, wf, wf_unfold, EnumRef,
    RecTypeRef, StructRef, StructType, Type, TypeLayout,
};

verus! {

/// A measured layout.
#[derive(Debug, Clone, Copy)]
pub struct Measure {
    pub bits: u64,
    pub align: u16,
    pub zst: bool,
}

impl Measure {
    pub open spec fn view(self) -> Metrics {
        Metrics { bits: self.bits as nat, align: self.align as nat, zst: self.zst }
    }

    /// The number of bytes that hold a value.
    pub fn bytes(&self) -> (bytes: u64)
        ensures
            bytes == self@.bytes(),
    {
        let whole: u64 = self.bits / 8;
        if self.bits % 8 == 0 {
            whole
        } else {
            whole + 1
        }
    }
}

pub open spec fn measured(measures: Seq<Measure>) -> Seq<Metrics> {
    Seq::new(measures.len(), |i: int| measures[i]@)
}

/// The least multiple of `align` that is no smaller than `x`.
pub fn round_up(x: u64, align: u64) -> (rounded: Option<u64>)
    requires
        align > 0,
    ensures
        match rounded {
            Some(rounded) => rounded == align_up(x as nat, align as nat),
            None => align_up(x as nat, align as nat) > u64::MAX,
        },
{
    let over: u64 = x % align;
    if over == 0 {
        Some(x)
    } else {
        x.checked_add(align - over)
    }
}

/// Whether an alignment is a power of two.
pub fn alignment_is_valid(align: u16) -> (valid: bool)
    ensures
        valid == is_alignment(align),
{
    align == 1 || align == 2 || align == 4 || align == 8 || align == 16 || align == 32 || align
        == 64 || align == 128 || align == 256 || align == 512 || align == 1024 || align == 2048
        || align == 4096 || align == 8192 || align == 16384 || align == 32768
}

fn repr_is_valid(repr: TypeRepr) -> (valid: bool)
    ensures
        valid == repr_ok(repr),
{
    match repr {
        TypeRepr::Align(align) => alignment_is_valid(align),
        TypeRepr::Packed(align) => alignment_is_valid(align),
        _ => true,
    }
}

/// A computed struct layout: the size, and each field's alignment and offset.
pub struct Placement {
    pub size: u32,
    pub slots: Vec<(u16, u32)>,
}

pub proof fn offsets_grow(repr: TypeRepr, fields: Seq<Metrics>, i: nat, n: nat)
    requires
        i <= n <= fields.len(),
        repr_ok(repr),
        forall|j: int| 0 <= j < fields.len() ==> (#[trigger] fields[j]).align > 0,
    ensures
        end_offset(repr, fields, i) <= end_offset(repr, fields, n),
        i < n ==> field_offset(repr, fields, i) + fields[i as int].bytes() <= end_offset(
            repr,
            fields,
            n,
        ),
        i < n ==> end_offset(repr, fields, i) <= field_offset(repr, fields, i),
    decreases n - i,
{
    if i < n {
        offsets_grow(repr, fields, i + 1, n);
        assert(end_offset(repr, fields, i + 1) == field_offset(repr, fields, i)
            + fields[i as int].bytes());
        assert(field_align(repr, fields[i as int]) > 0);
    }
}

pub proof fn widths_bounded(repr: TypeRepr, fields: Seq<Metrics>, n: nat)
    requires
        n <= fields.len(),
        forall|j: int| 0 <= j < fields.len() ==> 0 < (#[trigger] fields[j]).align <= u16::MAX,
    ensures
        1 <= widest(fields, n) <= u16::MAX,
        1 <= widest_field(repr, fields, n) <= u16::MAX,
    decreases n,
{
    if n > 0 {
        widths_bounded(repr, fields, (n - 1) as nat);
    }
}

/// Lays the fields of a struct out, if they obey the rules of its representation.
pub fn lay_out(repr: TypeRepr, fields: &Vec<Measure>) -> (placement: Option<Placement>)
    requires
        forall|i: int| 0 <= i < fields@.len() ==> (#[trigger] fields@[i]).align > 0,
    ensures
        placement is Some <==> struct_fits(repr, measured(fields@)),
        placement matches Some(placement) ==> {
            &&& placement.size == struct_size(repr, measured(fields@))
            &&& placement.slots@.len() == fields@.len()
            &&& forall|i: int|
                0 <= i < fields@.len() ==> {
                    &&& (#[trigger] placement.slots@[i]).0 == field_align(
                        repr,
                        measured(fields@)[i],
                    )
                    &&& placement.slots@[i].1 == field_offset(
                        repr,
                        measured(fields@),
                        i as nat,
                    )
                }
        },
{
    let ghost all = measured(fields@);
    assert forall|j: int| 0 <= j < all.len() implies 0 < (#[trigger] all[j]).align <= u16::MAX by {
        assert(fields@[j].align > 0);
    }
    if fields.len() > 255 || !repr_is_valid(repr) {
        return None;
    }
    let mut slots: Vec<(u16, u32)> = Vec::new();
    let mut end: u32 = 0;
    let mut widest_so_far: u16 = 1;
    let mut sized: bool = false;
    let mut i: usize = 0;
    while i < fields.len()
        invariant
            i <= fields@.len() <= 255,
            all == measured(fields@),
            repr_ok(repr),
            forall|j: int| 0 <= j < all.len() ==> 0 < (#[trigger] all[j]).align <= u16::MAX,
            end == end_offset(repr, all, i as nat),
            widest_so_far == widest(all, i as nat),
            widest_so_far >= 1,
            sized == exists|j: int| 0 <= j < i && (#[trigger] all[j]).bytes() != 0,
            repr is Transparent ==> forall|j: int, k: int|
                0 <= j < k < i ==> (#[trigger] all[j]).bytes() == 0 || (
                #[trigger] all[k]).bytes() == 0,
            slots@.len() == i,
            forall|j: int|
                0 <= j < i ==> {
                    &&& (#[trigger] slots@[j]).0 == field_align(repr, all[j])
                    &&& slots@[j].1 == field_offset(repr, all, j as nat)
                },
        decreases fields@.len() - i,
    {
        let field = fields[i];
        assert(field@ == all[i as int]);
        let bytes: u64 = field.bytes();
        let align: u16 = match repr {
            TypeRepr::Transparent => if bytes == 0 {
                1
            } else {
                field.align
            },
            TypeRepr::Packed(align) => if align < field.align {
                align
            } else {
                field.align
            },
            _ => field.align,
        };
        assert(align == field_align(repr, all[i as int]));
        proof {
            offsets_grow(repr, all, i as nat, all.len());
            offsets_grow(repr, all, (i + 1) as nat, all.len());
            widths_bounded(repr, all, all.len());
            assert(end_offset(repr, all, (i + 1) as nat) == field_offset(repr, all, i as nat)
                + all[i as int].bytes());
            assert(padding_align(repr, all) > 0);
            assert(struct_size(repr, all) >= end_offset(repr, all, all.len()));
        }
        if let TypeRepr::Transparent = repr {
            if bytes != 0 && sized {
                return None;
            }
        }
        let offset: u64 = match repr {
            TypeRepr::Transparent => end as u64,
            _ => {
                let over: u64 = (end as u64) % (align as u64);
                if over == 0 {
                    end as u64
                } else {
                    end as u64 + (align as u64 - over)
                }
            },
        };
        assert(offset == field_offset(repr, all, i as nat));
        if offset > u32::MAX as u64 || bytes > u32::MAX as u64 || offset + bytes
            > u32::MAX as u64 {
            return None;
        }
        if bytes != 0 {
            sized = true;
        }
        if widest_so_far < field.align {
            widest_so_far = field.align;
        }
        slots.push((align, offset as u32));
        end = (offset + bytes) as u32;
        i += 1;
    }
    proof {
        widths_bounded(repr, all, all.len());
    }
    let size: u64 = match repr {
        TypeRepr::Transparent => end as u64,
        _ => {
            let padding: u16 = match repr {
                TypeRepr::Align(align) => if align < widest_so_far {
                    widest_so_far
                } else {
                    align
                },
                TypeRepr::Packed(align) => if align < widest_so_far {
                    align
                } else {
                    widest_so_far
                },
                _ => widest_so_far,
            };
            assert(padding == padding_align(repr, all));
            let over: u64 = (end as u64) % (padding as u64);
            if over == 0 {
                end as u64
            } else {
                end as u64 + (padding as u64 - over)
            }
        },
    };
    if size > u32::MAX as u64 {
        return None;
    }
    Some(Placement { size: size as u32, slots })
}

// ---------------------------------------------------------------------------------------------
// Facts about layouts
// ---------------------------------------------------------------------------------------------

pub proof fn enum_align_bounded(discriminant: Metrics, payloads: Seq<Option<Metrics>>, n: nat)
    requires
        n <= payloads.len(),
        1 <= discriminant.align <= u16::MAX,
        forall|i: int|
            0 <= i < payloads.len() && (#[trigger] payloads[i]) is Some ==> 1 <= payloads[i]->0.align
                <= u16::MAX,
    ensures
        1 <= enum_align(discriminant, payloads, n) <= u16::MAX,
    decreases n,
{
    if n > 0 {
        enum_align_bounded(discriminant, payloads, (n - 1) as nat);
    }
}

/// Every alignment is positive and fits 16 bits.
pub proof fn align_bounds(t: &Type)
    requires
        wf(*t),
    ensures
        1 <= metrics(t@, Seq::empty()).align <= u16::MAX,
    decreases t,
{
    wf_unfold(t);
    shape_unfold(t);
    metrics_unfold(t@, Seq::empty());
    match t {
        Type::Array(a) => {
            align_bounds(&a.ty);
        },
        Type::Struct(StructRef::Plain(s)) => {
            let layouts = laid_out_fields(s);
            assert forall|i: int| 0 <= i < layouts.len() implies 1 <= (#[trigger] layouts[i]).align
                <= u16::MAX by {
                align_bounds(&s.fields@[i].ty);
            }
            widths_bounded(s.repr, layouts, layouts.len());
        },
        Type::Enum(EnumRef::Plain(e)) => {
            let payloads = laid_out_payloads(e);
            align_bounds(&e.discriminant);
            assert forall|i: int|
                0 <= i < payloads.len() && (#[trigger] payloads[i]) is Some implies 1
                <= payloads[i]->0.align <= u16::MAX by {
                align_bounds(&e.variants@[i].value->0);
            }
            enum_align_bounded(laid_out_discriminant(e), payloads, payloads.len());
        },
        Type::Struct(StructRef::Rec(r)) => {
            recorded_layout(r);
        },
        Type::Enum(EnumRef::Rec(r)) => {
            recorded_layout(r);
        },
        _ => {},
    }
}

/// A reference records the layout that the rules give for the definition it selects.
proof fn recorded_layout(r: &RecTypeRef)
    requires
        rec_sound(*r),
    ensures
        group_layouts(&*r.group).len() == r.group.defs@.len(),
        layout_is(r.group.defs@[r.index as int].layout, group_layouts(&*r.group)[r.index as int]),
{
    group_metrics_unfold(
        crate::hir::types::body_shapes(r.group.defs@),
        r.group.defs@.len(),
    );
}

/// The layout of a type without back-references does not depend on the group around it.
pub proof fn closed_metrics(t: Shape, group: Seq<Metrics>)
    requires
        !has_var(t),
    ensures
        metrics(t, group) == metrics(t, Seq::empty()),
    decreases t,
{
    reveal(has_var);
    metrics_unfold(t, group);
    metrics_unfold(t, Seq::empty());
    match t {
        Shape::Array(element, _) => {
            closed_metrics(*element, group);
        },
        Shape::Struct(s) => {
            assert forall|i: int| 0 <= i < s.fields.len() implies metrics(
                (#[trigger] s.fields[i]).ty,
                group,
            ) == metrics(s.fields[i].ty, Seq::empty()) by {
                closed_metrics(s.fields[i].ty, group);
            }
            assert(field_metrics(s.fields, group) =~= field_metrics(s.fields, Seq::empty()));
        },
        Shape::Enum(e) => {
            assert forall|i: int| 0 <= i < e.variants.len() implies payload_metrics(
                e.variants,
                group,
            )[i] == #[trigger] payload_metrics(e.variants, Seq::empty())[i] by {
                if let Some(value) = e.variants[i].value {
                    assert(!has_var(value));
                    closed_metrics(value, group);
                }
            }
            assert(payload_metrics(e.variants, group) =~= payload_metrics(
                e.variants,
                Seq::empty(),
            ));
            closed_metrics(*e.discriminant, group);
        },
        _ => {},
    }
}

/// A type holds no back-reference.
pub proof fn types_are_closed(t: &Type)
    ensures
        !has_var(t@),
    decreases t,
{
    reveal(has_var);
    shape_unfold(t);
    match t {
        Type::Ptr(p) => {
            types_are_closed(&p.pointee);
        },
        Type::Array(a) => {
            types_are_closed(&a.ty);
        },
        Type::List(element) => {
            types_are_closed(&*element);
        },
        Type::Function(f) => {
            let params = shapes(f.params@);
            let results = shapes(f.results@);
            assert forall|i: int| 0 <= i < params.len() implies !has_var(#[trigger] params[i]) by {
                types_are_closed(&f.params@[i]);
            }
            assert forall|i: int| 0 <= i < results.len() implies !has_var(
                #[trigger] results[i],
            ) by {
                types_are_closed(&f.results@[i]);
            }
        },
        Type::Struct(StructRef::Plain(s)) => {
            let fields = field_shapes(s.fields@);
            assert forall|i: int| 0 <= i < fields.len() implies !has_var(
                (#[trigger] fields[i]).ty,
            ) by {
                types_are_closed(&s.fields@[i].ty);
            }
        },
        Type::Enum(EnumRef::Plain(e)) => {
            let variants = variant_shapes(e.variants@);
            types_are_closed(&e.discriminant);
            assert forall|i: int|
                0 <= i < variants.len() && (#[trigger] variants[i]).value is Some implies !has_var(
                variants[i].value->0,
            ) by {
                types_are_closed(&e.variants@[i].value->0);
            }
        },
        _ => {},
    }
}

// ---------------------------------------------------------------------------------------------
// Measuring types
// ---------------------------------------------------------------------------------------------

/// The largest alignment recorded for a field, and 1 where there is none.
fn widest_recorded(s: &StructType) -> (align: u16)
    requires
        struct_wf(*s),
    ensures
        align == widest_field(s.repr, laid_out_fields(s), s.fields@.len()),
        align > 0,
{
    let ghost layouts = laid_out_fields(s);
    let mut align: u16 = 1;
    let mut i: usize = 0;
    while i < s.fields.len()
        invariant
            i <= s.fields@.len(),
            struct_wf(*s),
            layouts == laid_out_fields(s),
            align == widest_field(s.repr, layouts, i as nat),
            align > 0,
        decreases s.fields@.len() - i,
    {
        if align < s.fields[i].align {
            align = s.fields[i].align;
        }
        i += 1;
    }
    align
}

/// The alignment of a type in bytes.
pub fn alignment(t: &Type) -> (align: u16)
    requires
        wf(*t),
    ensures
        align == metrics(t@, Seq::empty()).align,
        align > 0,
    decreases *t,
{
    proof {
        align_bounds(t);
        wf_unfold(t);
        shape_unfold(t);
        metrics_unfold(t@, Seq::empty());
    }
    match t {
        Type::Unknown | Type::Never | Type::Variadic | Type::I1 | Type::I8 | Type::U8 => 1,
        Type::I16 | Type::U16 => 2,
        Type::I32 | Type::U32 | Type::I64 | Type::U64 | Type::F64 | Type::Felt | Type::Ptr(_)
        | Type::List(_) | Type::Function(_) => 4,
        Type::I128 | Type::U128 | Type::U256 => 16,
        Type::Array(a) => alignment(&a.ty),
        Type::Struct(StructRef::Plain(s)) => struct_alignment(s),
        Type::Enum(EnumRef::Plain(e)) => e.align as u16,
        Type::Struct(StructRef::Rec(r)) => recorded(r).min_alignment,
        Type::Enum(EnumRef::Rec(r)) => recorded(r).min_alignment,
    }
}

/// The alignment of a struct in bytes.
pub fn struct_alignment(s: &StructType) -> (align: u16)
    requires
        struct_wf(*s),
    ensures
        align == struct_align(s.repr, laid_out_fields(s)),
        align > 0,
{
    let widest: u16 = widest_recorded(s);
    match s.repr {
        TypeRepr::Align(align) => if widest < align {
            align
        } else {
            widest
        },
        _ => widest,
    }
}

/// The layout recorded for the definition that a reference selects.
pub fn recorded(r: &RecTypeRef) -> (layout: TypeLayout)
    requires
        rec_sound(*r),
    ensures
        layout == r.group.defs@[r.index as int].layout,
        layout_is(layout, group_layouts(&*r.group)[r.index as int]),
{
    proof {
        recorded_layout(r);
    }
    r.group.defs[r.index as usize].layout
}

/// Whether every field of a struct is zero-sized.
pub fn fields_zero_sized(s: &StructType) -> (zst: bool)
    requires
        struct_wf(*s),
    ensures
        zst == all_zst(laid_out_fields(s)),
    decreases *s,
{
    let ghost layouts = laid_out_fields(s);
    let mut i: usize = 0;
    while i < s.fields.len()
        invariant
            i <= s.fields@.len(),
            struct_wf(*s),
            layouts == laid_out_fields(s),
            forall|j: int| 0 <= j < i ==> (#[trigger] layouts[j]).zst,
        decreases s.fields@.len() - i,
    {
        assert(layouts[i as int] == metrics(s.fields@[i as int].ty@, Seq::empty()));
        if !zero_sized(&s.fields[i].ty) {
            return false;
        }
        i += 1;
    }
    true
}

/// Whether a type is zero-sized.
pub fn zero_sized(t: &Type) -> (zst: bool)
    requires
        wf(*t),
    ensures
        zst == metrics(t@, Seq::empty()).zst,
    decreases *t,
{
    proof {
        wf_unfold(t);
        shape_unfold(t);
        metrics_unfold(t@, Seq::empty());
    }
    match t {
        Type::Never => true,
        Type::Array(a) => a.len == 0 || zero_sized(&a.ty),
        Type::Struct(StructRef::Plain(s)) => fields_zero_sized(s),
        Type::Enum(EnumRef::Plain(e)) => e.variants.len() == 0,
        Type::Struct(StructRef::Rec(r)) => recorded(r).is_zst,
        Type::Enum(EnumRef::Rec(r)) => recorded(r).is_zst,
        _ => false,
    }
}

/// The size in bits of `n` elements of `bits` bits each, if it fits 64 bits.
pub fn array_size(bits: Option<u64>, align: u16, n: usize, Ghost(element): Ghost<Metrics>) -> (size:
    Option<u64>)
    requires
        align > 0,
        element.align == align,
        match bits {
            Some(bits) => element.bits == bits,
            None => element.bits > u64::MAX,
        },
    ensures
        match size {
            Some(size) => size == array_bits(element, n as nat),
            None => array_bits(element, n as nat) > u64::MAX,
        },
{
    if n == 0 {
        return Some(0);
    }
    if n == 1 {
        return bits;
    }
    let ghost padded_bits = align_up(element.bits, 8 * element.align);
    proof {
        assert(padded_bits >= element.bits);
        vstd::arithmetic::mul::lemma_mul_inequality(1, n - 1, padded_bits as int);
        vstd::arithmetic::mul::lemma_mul_is_commutative(padded_bits as int, n - 1);
    }
    match bits {
        None => None,
        Some(bits) => match round_up(bits, 8 * align as u64) {
            None => None,
            Some(padded) => {
                let rest: Option<u64> = padded.checked_mul((n - 1) as u64);
                match rest {
                    None => None,
                    Some(rest) => bits.checked_add(rest),
                }
            },
        },
    }
}

/// The size of a type in bits, if it fits 64 bits.
pub fn bits_of(t: &Type) -> (bits: Option<u64>)
    requires
        wf(*t),
    ensures
        match bits {
            Some(bits) => bits == metrics(t@, Seq::empty()).bits,
            None => metrics(t@, Seq::empty()).bits > u64::MAX,
        },
    decreases *t,
{
    proof {
        wf_unfold(t);
        shape_unfold(t);
        metrics_unfold(t@, Seq::empty());
    }
    match t {
        Type::Unknown | Type::Never | Type::Variadic => Some(0),
        Type::I1 => Some(1),
        Type::I8 | Type::U8 => Some(8),
        Type::I16 | Type::U16 => Some(16),
        Type::I32 | Type::U32 | Type::Felt | Type::Ptr(_) | Type::Function(_) => Some(32),
        Type::I64 | Type::U64 | Type::F64 | Type::List(_) => Some(64),
        Type::I128 | Type::U128 => Some(128),
        Type::U256 => Some(256),
        Type::Array(a) => {
            let bits = bits_of(&a.ty);
            let align: u16 = alignment(&a.ty);
            array_size(bits, align, a.len, Ghost(metrics(a.ty@, Seq::empty())))
        },
        Type::Struct(StructRef::Plain(s)) => Some(8 * s.size as u64),
        Type::Enum(EnumRef::Plain(e)) => Some(8 * e.size as u64),
        Type::Struct(StructRef::Rec(r)) => Some(8 * recorded(r).size_in_bytes as u64),
        Type::Enum(EnumRef::Rec(r)) => Some(8 * recorded(r).size_in_bytes as u64),
    }
}

/// The layout of a type, if its size in bits fits 64 bits.
pub fn measure(t: &Type) -> (measure: Option<Measure>)
    requires
        wf(*t),
    ensures
        match measure {
            Some(measure) => measure@ == metrics(t@, Seq::empty()) && measure.align > 0,
            None => metrics(t@, Seq::empty()).bits > u64::MAX,
        },
{
    match bits_of(t) {
        None => None,
        Some(bits) => Some(Measure { bits, align: alignment(t), zst: zero_sized(t) }),
    }
}

} // verus!
