//! Which enum definitions are valid, and what is wrong with those that are not.
use vstd::prelude::*;

use crate::hir::shape::{EnumShape, Shape, VariantShape};

verus! {

/// Why an enum definition is refused.
#[verifier::ext_equal]
pub enum EnumFault {
    DiscriminantType(Shape),
    ImplicitDiscriminant { variant: Seq<char>, discriminant: Shape, preceding: u128 },
    Discriminant { variant: Seq<char>, discriminant: Shape, value: u128 },
    DuplicateVariant { variant: Seq<char> },
    DuplicateDiscriminant { variant: Seq<char>, value: u128 },
}

/// The integral types.
pub open spec fn is_integer(t: Shape) -> bool {
    match t {
        Shape::I1 | Shape::I8 | Shape::U8 | Shape::I16 | Shape::U16 | Shape::I32 | Shape::U32
        | Shape::I64 | Shape::U64 | Shape::I128 | Shape::U128 | Shape::U256 | Shape::Felt => true,
        _ => false,
    }
}

/// A discriminant is an integer of at most 128 bits.
pub open spec fn is_discriminant(t: Shape) -> bool {
    is_integer(t) && !(t is U256)
}

/// The number of values that fit the bits of a discriminant of type `t`.
pub open spec fn discriminant_limit(t: Shape) -> nat {
    match t {
        Shape::I1 => 0x2,
        Shape::I8 | Shape::U8 => 0x100,
        Shape::I16 | Shape::U16 => 0x1_0000,
        Shape::I32 | Shape::U32 | Shape::Felt => 0x1_0000_0000,
        Shape::I64 | Shape::U64 => 0x1_0000_0000_0000_0000,
        _ => 0x1_0000_0000_0000_0000_0000_0000_0000_0000nat,
    }
}

/// The discriminant of variant `i`: the explicit one, else one more than that of the preceding
/// variant, starting at 0.
pub open spec fn discriminant_at(variants: Seq<VariantShape>, i: int) -> nat
    decreases i,
{
    match variants[i].discriminant_value {
        Some(value) => value as nat,
        None => if i <= 0 {
            0
        } else {
            discriminant_at(variants, i - 1) + 1
        },
    }
}

/// Another variant claims `value` explicitly.
pub open spec fn claimed_elsewhere(variants: Seq<VariantShape>, i: int, value: nat) -> bool {
    exists|j: int|
        0 <= j < variants.len() && j != i && ((
        #[trigger] variants[j]).discriminant_value matches Some(other) && other == value)
}

/// What is wrong with the discriminant of variant `i`, seen for itself.
pub open spec fn discriminant_fault(e: EnumShape, i: int) -> Option<EnumFault> {
    let variant = e.variants[i];
    let value = discriminant_at(e.variants, i);
    if value >= discriminant_limit(*e.discriminant) {
        match variant.discriminant_value {
            Some(value) => Some(
                EnumFault::Discriminant {
                    variant: variant.name,
                    discriminant: *e.discriminant,
                    value,
                },
            ),
            None => Some(
                EnumFault::ImplicitDiscriminant {
                    variant: variant.name,
                    discriminant: *e.discriminant,
                    preceding: if i <= 0 {
                        0
                    } else {
                        discriminant_at(e.variants, i - 1) as u128
                    },
                },
            ),
        }
    } else if claimed_elsewhere(e.variants, i, value) {
        Some(EnumFault::DuplicateDiscriminant { variant: variant.name, value: value as u128 })
    } else {
        None
    }
}

/// The first fault among the discriminants of the variants from `i` on.
pub open spec fn discriminants_fault(e: EnumShape, i: int) -> Option<EnumFault>
    decreases e.variants.len() - i,
{
    if i < 0 || i >= e.variants.len() {
        None
    } else {
        match discriminant_fault(e, i) {
            Some(fault) => Some(fault),
            None => discriminants_fault(e, i + 1),
        }
    }
}

/// A later variant bears the name of variant `i`.
pub open spec fn repeated_later(variants: Seq<VariantShape>, i: int) -> bool {
    exists|j: int| i < j < variants.len() && (#[trigger] variants[j]).name == variants[i].name
}

/// The first variant from `i` on whose name is repeated.
pub open spec fn repeated_variant(variants: Seq<VariantShape>, i: int) -> Option<EnumFault>
    decreases variants.len() - i,
{
    if i < 0 || i >= variants.len() {
        None
    } else if repeated_later(variants, i) {
        Some(EnumFault::DuplicateVariant { variant: variants[i].name })
    } else {
        repeated_variant(variants, i + 1)
    }
}

/// What is wrong with an enum definition, if anything.
pub open spec fn enum_fault(e: EnumShape) -> Option<EnumFault> {
    match repeated_variant(e.variants, 0) {
        Some(fault) => Some(fault),
        None => if !is_discriminant(*e.discriminant) {
            Some(EnumFault::DiscriminantType(*e.discriminant))
        } else {
            discriminants_fault(e, 0)
        },
    }
}

} // verus!
