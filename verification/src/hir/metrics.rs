//! How large a type is and how it is aligned: the rules, as functions of its shape.
use vstd::prelude::*;

use crate::hir::shape::{FieldShape, Shape, TypeRepr, VariantShape};

verus! {

/// The layout of a type: its size in bits, its alignment in bytes, and whether it is zero-sized.
#[verifier::ext_equal]
pub struct Metrics {
    pub bits: nat,
    pub align: nat,
    pub zst: bool,
}

pub open spec fn solid(bits: nat, align: nat) -> Metrics {
    Metrics { bits, align, zst: false }
}

/// The layout of a type that has no values.
pub open spec fn nothing() -> Metrics {
    Metrics { bits: 0, align: 1, zst: true }
}

impl Metrics {
    /// The number of bytes that hold a value.
    pub open spec fn bytes(self) -> nat {
        (self.bits + 7) / 8
    }
}

/// The least multiple of `align` that is no smaller than `x`.
pub open spec fn align_up(x: nat, align: nat) -> nat {
    if x % align == 0 {
        x
    } else {
        (x + align - x % align) as nat
    }
}

pub open spec fn larger(a: nat, b: nat) -> nat {
    if a < b {
        b
    } else {
        a
    }
}

pub open spec fn smaller(a: nat, b: nat) -> nat {
    if a < b {
        a
    } else {
        b
    }
}

/// The size in bits of `n` elements, each but the last padded to its alignment.
pub open spec fn array_bits(element: Metrics, n: nat) -> nat {
    if n == 0 {
        0
    } else if n == 1 {
        element.bits
    } else {
        element.bits + align_up(element.bits, 8 * element.align) * ((n - 1) as nat)
    }
}

/// The alignment that a field gets in a struct of the given representation.
pub open spec fn field_align(repr: TypeRepr, field: Metrics) -> nat {
    match repr {
        TypeRepr::Transparent => if field.bytes() == 0 {
            1
        } else {
            field.align
        },
        TypeRepr::Packed(align) => smaller(align as nat, field.align),
        _ => field.align,
    }
}

/// Where a field lands when the fields before it end at `end`.
pub open spec fn place(repr: TypeRepr, end: nat, field: Metrics) -> nat {
    if repr is Transparent {
        end
    } else {
        align_up(end, field_align(repr, field))
    }
}

/// Where the first `n` fields end.
pub open spec fn end_offset(repr: TypeRepr, fields: Seq<Metrics>, n: nat) -> nat
    decreases n,
{
    if n == 0 {
        0
    } else {
        let field = fields[n - 1];
        place(repr, end_offset(repr, fields, (n - 1) as nat), field) + field.bytes()
    }
}

/// Where field `i` starts.
pub open spec fn field_offset(repr: TypeRepr, fields: Seq<Metrics>, i: nat) -> nat {
    place(repr, end_offset(repr, fields, i), fields[i as int])
}

/// The largest alignment among the first `n` fields, and 1 where there is none.
pub open spec fn widest(fields: Seq<Metrics>, n: nat) -> nat
    decreases n,
{
    if n == 0 {
        1
    } else {
        larger(widest(fields, (n - 1) as nat), fields[n - 1].align)
    }
}

/// The largest alignment given to one of the first `n` fields, and 1 where there is none.
pub open spec fn widest_field(repr: TypeRepr, fields: Seq<Metrics>, n: nat) -> nat
    decreases n,
{
    if n == 0 {
        1
    } else {
        larger(widest_field(repr, fields, (n - 1) as nat), field_align(repr, fields[n - 1]))
    }
}

/// The alignment that a struct's size is padded to.
pub open spec fn padding_align(repr: TypeRepr, fields: Seq<Metrics>) -> nat {
    match repr {
        TypeRepr::Align(align) => larger(align as nat, widest(fields, fields.len())),
        TypeRepr::Packed(align) => smaller(align as nat, widest(fields, fields.len())),
        _ => widest(fields, fields.len()),
    }
}

/// The size of a struct in bytes.
pub open spec fn struct_size(repr: TypeRepr, fields: Seq<Metrics>) -> nat {
    if repr is Transparent {
        end_offset(repr, fields, fields.len())
    } else {
        align_up(end_offset(repr, fields, fields.len()), padding_align(repr, fields))
    }
}

/// The alignment of a struct: the largest given to one of its fields. Packing has lowered those
/// already, and an alignment that is named can raise it further.
pub open spec fn struct_align(repr: TypeRepr, fields: Seq<Metrics>) -> nat {
    match repr {
        TypeRepr::Align(align) => larger(align as nat, widest_field(repr, fields, fields.len())),
        _ => widest_field(repr, fields, fields.len()),
    }
}

/// A struct is zero-sized when every field is.
pub open spec fn all_zst(fields: Seq<Metrics>) -> bool {
    forall|i: int| 0 <= i < fields.len() ==> (#[trigger] fields[i]).zst
}

pub open spec fn struct_metrics(repr: TypeRepr, fields: Seq<Metrics>) -> Metrics {
    Metrics {
        bits: 8 * struct_size(repr, fields),
        align: struct_align(repr, fields),
        zst: all_zst(fields),
    }
}

/// The powers of two that an alignment can be.
pub open spec fn is_alignment(align: u16) -> bool {
    ||| align == 1
    ||| align == 2
    ||| align == 4
    ||| align == 8
    ||| align == 16
    ||| align == 32
    ||| align == 64
    ||| align == 128
    ||| align == 256
    ||| align == 512
    ||| align == 1024
    ||| align == 2048
    ||| align == 4096
    ||| align == 8192
    ||| align == 16384
    ||| align == 32768
}

pub open spec fn repr_ok(repr: TypeRepr) -> bool {
    match repr {
        TypeRepr::Align(align) => is_alignment(align),
        TypeRepr::Packed(align) => is_alignment(align),
        _ => true,
    }
}

/// At most one field of a transparent struct has a size.
pub open spec fn one_sized_field(fields: Seq<Metrics>) -> bool {
    forall|i: int, j: int|
        0 <= i < j < fields.len() ==> (#[trigger] fields[i]).bytes() == 0 || (
        #[trigger] fields[j]).bytes() == 0
}

/// The fields obey the rules of the representation, and the layout can be recorded.
pub open spec fn struct_fits(repr: TypeRepr, fields: Seq<Metrics>) -> bool {
    &&& fields.len() <= 255
    &&& repr_ok(repr)
    &&& repr is Transparent ==> one_sized_field(fields)
    &&& struct_size(repr, fields) <= u32::MAX
}

/// Where the payload of a variant starts: behind the discriminant, at its own alignment.
pub open spec fn payload_offset(discriminant: Metrics, payload: Option<Metrics>) -> nat {
    match payload {
        Some(payload) => align_up(discriminant.bytes(), payload.align),
        None => 0,
    }
}

/// The size in bytes of a discriminant followed by a payload.
pub open spec fn tagged_size(discriminant: Metrics, payload: Metrics) -> nat {
    align_up(
        align_up(discriminant.bytes(), payload.align) + payload.bytes(),
        larger(discriminant.align, payload.align),
    )
}

/// The largest size among the first `n` variants.
pub open spec fn enum_size(
    discriminant: Metrics,
    payloads: Seq<Option<Metrics>>,
    n: nat,
) -> nat
    decreases n,
{
    if n == 0 {
        discriminant.bytes()
    } else {
        let before = enum_size(discriminant, payloads, (n - 1) as nat);
        match payloads[n - 1] {
            Some(payload) => larger(before, tagged_size(discriminant, payload)),
            None => before,
        }
    }
}

/// The largest alignment among the discriminant and the first `n` variants.
pub open spec fn enum_align(
    discriminant: Metrics,
    payloads: Seq<Option<Metrics>>,
    n: nat,
) -> nat
    decreases n,
{
    if n == 0 {
        discriminant.align
    } else {
        let before = enum_align(discriminant, payloads, (n - 1) as nat);
        match payloads[n - 1] {
            Some(payload) => larger(before, payload.align),
            None => before,
        }
    }
}

/// An enum without variants has no representation; any other is as large and as strictly aligned
/// as the largest of its variants, each laid out behind the discriminant.
pub open spec fn enum_metrics(discriminant: Metrics, payloads: Seq<Option<Metrics>>) -> Metrics {
    if payloads.len() == 0 {
        nothing()
    } else {
        solid(
            8 * enum_size(discriminant, payloads, payloads.len()),
            enum_align(discriminant, payloads, payloads.len()),
        )
    }
}

/// The layout of every variant can be recorded.
pub open spec fn enum_fits(discriminant: Metrics, payloads: Seq<Option<Metrics>>) -> bool {
    forall|i: int|
        0 <= i < payloads.len() && (#[trigger] payloads[i]) is Some ==> tagged_size(
            discriminant,
            payloads[i]->0,
        ) <= u32::MAX
}

/// What an aggregate sees of a definition of its own group: a block of bytes of the definition's
/// size and alignment, padded to that alignment.
pub open spec fn stand_in(definition: Metrics) -> Metrics {
    Metrics {
        bits: 8 * align_up(definition.bytes(), definition.align),
        align: definition.align,
        zst: definition.bytes() == 0,
    }
}

/// The layout of a type, where `group` gives the layouts of the definitions that `Var` refers to.
#[verifier::opaque]
pub open spec fn metrics(t: Shape, group: Seq<Metrics>) -> Metrics
    decreases t, 0nat,
{
    match t {
        Shape::Array(element, n) => array_metrics(metrics(*element, group), n),
        Shape::Struct(s) => struct_metrics(s.repr, inner_fields(s.fields, group)),
        Shape::Enum(e) => enum_metrics(
            metrics(*e.discriminant, group),
            inner_payloads(e.variants, group),
        ),
        Shape::Rec(definitions, i) => if i < definitions.len() {
            group_metrics(definitions, definitions.len())[i as int]
        } else {
            nothing()
        },
        _ => simple_metrics(t, group),
    }
}

#[verifier::opaque]
pub open spec fn inner_fields(fields: Seq<FieldShape>, group: Seq<Metrics>) -> Seq<Metrics>
    decreases fields, 0nat,
{
    Seq::new(
        fields.len(),
        |i: int|
            if 0 <= i < fields.len() {
                metrics(fields[i].ty, group)
            } else {
                nothing()
            },
    )
}

#[verifier::opaque]
pub open spec fn inner_payloads(
    variants: Seq<VariantShape>,
    group: Seq<Metrics>,
) -> Seq<Option<Metrics>>
    decreases variants, 0nat,
{
    Seq::new(
        variants.len(),
        |i: int|
            if 0 <= i < variants.len() {
                match variants[i].value {
                    Some(value) => Some(metrics(value, group)),
                    None => None,
                }
            } else {
                None
            },
    )
}

/// The layout of a type that does not depend on the layouts of its parts.
pub open spec fn simple_metrics(t: Shape, group: Seq<Metrics>) -> Metrics {
    match t {
        Shape::Unknown => solid(0, 1),
        Shape::Variadic => solid(0, 1),
        Shape::I1 => solid(1, 1),
        Shape::I8 => solid(8, 1),
        Shape::U8 => solid(8, 1),
        Shape::I16 => solid(16, 2),
        Shape::U16 => solid(16, 2),
        Shape::I32 => solid(32, 4),
        Shape::U32 => solid(32, 4),
        Shape::I64 => solid(64, 4),
        Shape::U64 => solid(64, 4),
        Shape::I128 => solid(128, 16),
        Shape::U128 => solid(128, 16),
        Shape::U256 => solid(256, 16),
        Shape::F64 => solid(64, 4),
        Shape::Felt => solid(32, 4),
        Shape::Ptr(_, _) => solid(32, 4),
        Shape::List(_) => solid(64, 4),
        Shape::Function(_) => solid(32, 4),
        Shape::Var(i) => if i < group.len() {
            stand_in(group[i as int])
        } else {
            nothing()
        },
        _ => nothing(),
    }
}

pub open spec fn array_metrics(element: Metrics, n: nat) -> Metrics {
    Metrics {
        bits: array_bits(element, n),
        align: element.align,
        zst: n == 0 || element.zst,
    }
}

/// The layouts of a group's definitions, worked out in `rounds` rounds.
///
/// Before the first round every definition counts as empty. A definition whose size depends on
/// others through a chain of `k` of them has its layout after `k + 1` rounds.
#[verifier::opaque]
pub open spec fn group_metrics(definitions: Seq<Shape>, rounds: nat) -> Seq<Metrics>
    decreases definitions, rounds,
{
    if rounds == 0 {
        Seq::new(definitions.len(), |i: int| nothing())
    } else {
        let before = group_metrics(definitions, (rounds - 1) as nat);
        Seq::new(
            definitions.len(),
            |i: int|
                if 0 <= i < definitions.len() {
                    metrics(definitions[i], before)
                } else {
                    nothing()
                },
        )
    }
}

/// The layouts of the fields of a struct.
pub open spec fn field_metrics(fields: Seq<FieldShape>, group: Seq<Metrics>) -> Seq<Metrics> {
    Seq::new(fields.len(), |i: int| metrics(fields[i].ty, group))
}

/// The layouts of the payloads of an enum's variants.
pub open spec fn payload_metrics(
    variants: Seq<VariantShape>,
    group: Seq<Metrics>,
) -> Seq<Option<Metrics>> {
    Seq::new(
        variants.len(),
        |i: int|
            match variants[i].value {
                Some(value) => Some(metrics(value, group)),
                None => None,
            },
    )
}

/// The layouts of the definitions when `group` gives those that `Var` refers to.
pub open spec fn round_metrics(definitions: Seq<Shape>, group: Seq<Metrics>) -> Seq<Metrics> {
    Seq::new(definitions.len(), |i: int| metrics(definitions[i], group))
}

/// Another round changes nothing.
pub open spec fn group_settled(definitions: Seq<Shape>) -> bool {
    round_metrics(definitions, group_metrics(definitions, definitions.len())) == group_metrics(
        definitions,
        definitions.len(),
    )
}

/// The layout of a type in terms of the layouts of its parts.
pub open spec fn metrics_of_parts(t: Shape, group: Seq<Metrics>) -> Metrics {
    match t {
        Shape::Array(element, n) => array_metrics(metrics(*element, group), n),
        Shape::Struct(s) => struct_metrics(s.repr, field_metrics(s.fields, group)),
        Shape::Enum(e) => enum_metrics(
            metrics(*e.discriminant, group),
            payload_metrics(e.variants, group),
        ),
        Shape::Rec(definitions, i) => if i < definitions.len() {
            group_metrics(definitions, definitions.len())[i as int]
        } else {
            nothing()
        },
        _ => simple_metrics(t, group),
    }
}

pub proof fn metrics_unfold(t: Shape, group: Seq<Metrics>)
    ensures
        metrics(t, group) == metrics_of_parts(t, group),
{
    reveal(metrics);
    reveal(inner_fields);
    reveal(inner_payloads);
    reveal(group_metrics);
    match t {
        Shape::Struct(s) => {
            assert(inner_fields(s.fields, group) =~= field_metrics(s.fields, group));
        },
        Shape::Enum(e) => {
            assert(inner_payloads(e.variants, group) =~= payload_metrics(e.variants, group));
        },
        _ => {},
    }
}

pub proof fn group_metrics_unfold(definitions: Seq<Shape>, rounds: nat)
    ensures
        group_metrics(definitions, rounds).len() == definitions.len(),
        rounds == 0 ==> group_metrics(definitions, rounds) =~= Seq::new(
            definitions.len(),
            |i: int| nothing(),
        ),
        rounds > 0 ==> group_metrics(definitions, rounds) =~= round_metrics(
            definitions,
            group_metrics(definitions, (rounds - 1) as nat),
        ),
{
    reveal(metrics);
    reveal(inner_fields);
    reveal(inner_payloads);
    reveal(group_metrics);
}

} // verus!
