//! Enum types.
use vstd::prelude::*;

use crate::hir::enum_rules::{
    claimed_elsewhere, discriminant_at, discriminant_limit, discriminants_fault, enum_fault,
    is_discriminant, repeated_variant, EnumFault,
};
use crate::hir::layout::{measure, round_up, Measure};
use crate::hir::metrics::{
    enum_align, enum_fits, enum_metrics, enum_size, metrics, payload_metrics, payload_offset,
    tagged_size, Metrics,
};
use crate::hir::shape::EnumShape;
use crate::hir::types::{
    enum_shape, enum_wf, laid_out_discriminant, laid_out_payloads, shape, shape_unfold,
    variant_shape, variant_shapes, variants_wf, wf, EnumType, Type, Variant,
};

verus! {

/// Why an [EnumType] could not be made.
#[derive(Debug)]
pub enum InvalidEnumTypeError {
    /// The discriminant is not an integer of at most 128 bits.
    InvalidDiscriminantType(Type),
    /// The discriminant that follows the preceding variant's is out of range.
    InvalidImplicitDiscriminantValue {
        variant: String,
        discriminant_ty: Type,
        value_of_preceding_variant: u128,
    },
    /// An explicit discriminant is out of range.
    InvalidDiscriminantValue { variant: String, discriminant_ty: Type, value: u128 },
    /// A variant is defined twice.
    DuplicateVariant { variant: String },
    /// Another variant claims the discriminant.
    DuplicateDiscriminantValue { variant: String, value: u128 },
}

impl InvalidEnumTypeError {
    pub open spec fn view(&self) -> EnumFault {
        match *self {
            InvalidEnumTypeError::InvalidDiscriminantType(ty) => EnumFault::DiscriminantType(
                shape(ty),
            ),
            InvalidEnumTypeError::InvalidImplicitDiscriminantValue {
                variant,
                discriminant_ty,
                value_of_preceding_variant,
            } => EnumFault::ImplicitDiscriminant {
                variant: variant@,
                discriminant: shape(discriminant_ty),
                preceding: value_of_preceding_variant,
            },
            InvalidEnumTypeError::InvalidDiscriminantValue { variant, discriminant_ty, value } =>
            EnumFault::Discriminant {
                variant: variant@,
                discriminant: shape(discriminant_ty),
                value,
            },
            InvalidEnumTypeError::DuplicateVariant { variant } => EnumFault::DuplicateVariant {
                variant: variant@,
            },
            InvalidEnumTypeError::DuplicateDiscriminantValue { variant, value } =>
            EnumFault::DuplicateDiscriminant { variant: variant@, value },
        }
    }
}

/// Why an enum could not be made: it is invalid, or too large to be laid out.
#[derive(Debug)]
pub enum EnumProblem {
    Invalid(InvalidEnumTypeError),
    TooLarge,
}

impl Variant {
    /// A variant with a payload of type `ty`.
    pub fn new(name: String, ty: Type, discriminant: Option<u128>) -> (variant: Variant)
        ensures
            variant == (Variant { name, discriminant_value: discriminant, value: Some(ty) }),
    {
        Variant { name, discriminant_value: discriminant, value: Some(ty) }
    }

    /// A variant of a C-like enumeration, which has no payload.
    pub fn c_like(name: String, discriminant: Option<u128>) -> (variant: Variant)
        ensures
            variant == (Variant { name, discriminant_value: discriminant, value: None }),
    {
        Variant { name, discriminant_value: discriminant, value: None }
    }
}

/// Whether a type can be a discriminant.
pub fn can_discriminate(t: &Type) -> (can: bool)
    ensures
        can == is_discriminant(t@),
{
    proof {
        shape_unfold(t);
    }
    match t {
        Type::I1 | Type::I8 | Type::U8 | Type::I16 | Type::U16 | Type::I32 | Type::U32 | Type::I64
        | Type::U64 | Type::I128 | Type::U128 | Type::Felt => true,
        _ => false,
    }
}

/// Whether a value fits the bits of a discriminant.
fn in_range(t: &Type, value: u128) -> (fits: bool)
    ensures
        fits == (value < discriminant_limit(t@)),
{
    proof {
        shape_unfold(t);
    }
    match t {
        Type::I1 => value < 0x2,
        Type::I8 | Type::U8 => value < 0x100,
        Type::I16 | Type::U16 => value < 0x1_0000,
        Type::I32 | Type::U32 | Type::Felt => value < 0x1_0000_0000,
        Type::I64 | Type::U64 => value < 0x1_0000_0000_0000_0000,
        _ => true,
    }
}

/// The first variant whose name is repeated.
fn find_repeated(variants: &Vec<Variant>) -> (found: Option<InvalidEnumTypeError>)
    ensures
        match found {
            Some(error) => repeated_variant(variant_shapes(variants@), 0) == Some(error@),
            None => repeated_variant(variant_shapes(variants@), 0) is None,
        },
{
    let ghost all = variant_shapes(variants@);
    let mut i: usize = 0;
    while i < variants.len()
        invariant
            i <= variants@.len(),
            all == variant_shapes(variants@),
            repeated_variant(all, 0) == repeated_variant(all, i as int),
        decreases variants@.len() - i,
    {
        let mut j: usize = i + 1;
        while j < variants.len()
            invariant
                i < j <= variants@.len(),
                all == variant_shapes(variants@),
                repeated_variant(all, 0) == repeated_variant(all, i as int),
                forall|k: int| i < k < j ==> (#[trigger] all[k]).name != all[i as int].name,
            decreases variants@.len() - j,
        {
            if variants[i].name == variants[j].name {
                assert(all[j as int].name == all[i as int].name);
                return Some(
                    InvalidEnumTypeError::DuplicateVariant { variant: variants[i].name.clone() },
                );
            }
            assert(all[j as int].name != all[i as int].name);
            j += 1;
        }
        i += 1;
    }
    None
}

/// Whether a variant other than `i` claims `value` explicitly.
fn find_claim(variants: &Vec<Variant>, i: usize, value: u128) -> (found: bool)
    ensures
        found == claimed_elsewhere(variant_shapes(variants@), i as int, value as nat),
{
    let ghost all = variant_shapes(variants@);
    let mut j: usize = 0;
    while j < variants.len()
        invariant
            j <= variants@.len(),
            all == variant_shapes(variants@),
            forall|k: int|
                0 <= k < j && k != i ==> !((#[trigger] all[k]).discriminant_value matches Some(
                    other,
                ) && other == value),
        decreases variants@.len() - j,
    {
        assert(all[j as int].discriminant_value == variants@[j as int].discriminant_value);
        if j != i {
            if let Some(other) = variants[j].discriminant_value {
                if other == value {
                    return true;
                }
            }
        }
        j += 1;
    }
    false
}

/// Works the discriminants of an enum out, in the order of its variants.
fn discriminate(discriminant: &Type, variants: &Vec<Variant>, name: &String) -> (values: Result<
    Vec<u128>,
    InvalidEnumTypeError,
>)
    ensures
        ({
            let e = EnumShape {
                name: name@,
                discriminant: Box::new(discriminant@),
                variants: variant_shapes(variants@),
            };
            match values {
                Ok(values) => {
                    &&& discriminants_fault(e, 0) is None
                    &&& values@.len() == variants@.len()
                    &&& forall|i: int|
                        0 <= i < values@.len() ==> #[trigger] values@[i] == discriminant_at(
                            e.variants,
                            i,
                        )
                },
                Err(error) => discriminants_fault(e, 0) == Some(error@),
            }
        }),
{
    let ghost e = EnumShape {
        name: name@,
        discriminant: Box::new(discriminant@),
        variants: variant_shapes(variants@),
    };
    let mut values: Vec<u128> = Vec::new();
    let mut i: usize = 0;
    while i < variants.len()
        invariant
            i <= variants@.len(),
            e == (EnumShape {
                name: name@,
                discriminant: Box::new(discriminant@),
                variants: variant_shapes(variants@),
            }),
            discriminants_fault(e, 0) == discriminants_fault(e, i as int),
            values@.len() == i,
            forall|j: int|
                0 <= j < i ==> #[trigger] values@[j] == discriminant_at(e.variants, j),
        decreases variants@.len() - i,
    {
        assert(e.variants[i as int] == variant_shape(variants@[i as int]));
        let value: u128 = match variants[i].discriminant_value {
            Some(value) => value,
            None => {
                if i == 0 {
                    0
                } else {
                    let last: u128 = values[i - 1];
                    if last == u128::MAX || !in_range(discriminant, last + 1) {
                        return Err(
                            InvalidEnumTypeError::InvalidImplicitDiscriminantValue {
                                variant: variants[i].name.clone(),
                                discriminant_ty: discriminant.clone(),
                                value_of_preceding_variant: last,
                            },
                        );
                    }
                    last + 1
                }
            },
        };
        assert(value == discriminant_at(e.variants, i as int));
        if !in_range(discriminant, value) {
            return Err(
                InvalidEnumTypeError::InvalidDiscriminantValue {
                    variant: variants[i].name.clone(),
                    discriminant_ty: discriminant.clone(),
                    value,
                },
            );
        }
        if find_claim(variants, i, value) {
            return Err(
                InvalidEnumTypeError::DuplicateDiscriminantValue {
                    variant: variants[i].name.clone(),
                    value,
                },
            );
        }
        values.push(value);
        i += 1;
    }
    Ok(values)
}

/// What is wrong with an enum definition, if anything.
pub fn examine(name: &String, discriminant: &Type, variants: &Vec<Variant>) -> (found: Option<
    InvalidEnumTypeError,
>)
    ensures
        ({
            let fault = enum_fault(
                EnumShape {
                    name: name@,
                    discriminant: Box::new(discriminant@),
                    variants: variant_shapes(variants@),
                },
            );
            match found {
                Some(error) => fault == Some(error@),
                None => fault is None,
            }
        }),
{
    if let Some(error) = find_repeated(variants) {
        return Some(error);
    }
    if !can_discriminate(discriminant) {
        return Some(InvalidEnumTypeError::InvalidDiscriminantType(discriminant.clone()));
    }
    match discriminate(discriminant, variants, name) {
        Ok(_) => None,
        Err(error) => Some(error),
    }
}

/// Lays a payload out behind a discriminant: its offset, and the size of the two.
pub fn tag(discriminant: &Measure, payload: &Measure) -> (placed: Option<(u32, u32)>)
    requires
        discriminant.align > 0,
        payload.align > 0,
        discriminant.bits <= 0x1_0000_0000,
    ensures
        match placed {
            Some((offset, size)) => {
                &&& offset == payload_offset(discriminant@, Some(payload@))
                &&& size == tagged_size(discriminant@, payload@)
            },
            None => tagged_size(discriminant@, payload@) > u32::MAX,
        },
{
    let start: u64 = discriminant.bytes();
    let over: u64 = start % (payload.align as u64);
    let offset: u64 = if over == 0 {
        start
    } else {
        start + (payload.align as u64 - over)
    };
    let end: u64 = offset + payload.bytes();
    let align: u16 = if discriminant.align < payload.align {
        payload.align
    } else {
        discriminant.align
    };
    match round_up(end, align as u64) {
        Some(size) => if size <= u32::MAX as u64 {
            Some((offset as u32, size as u32))
        } else {
            None
        },
        None => None,
    }
}

/// A computed enum layout.
pub struct EnumPlacement {
    pub offsets: Vec<u32>,
    pub size: u32,
    pub align: u32,
}

pub open spec fn measured_payloads(payloads: Seq<Option<Measure>>) -> Seq<Option<Metrics>> {
    Seq::new(
        payloads.len(),
        |i: int|
            match payloads[i] {
                Some(payload) => Some(payload@),
                None => None,
            },
    )
}

/// Lays the variants of an enum out, if they are small enough.
pub fn lay_variants_out(discriminant: &Measure, payloads: &Vec<Option<Measure>>) -> (placement:
    Option<EnumPlacement>)
    requires
        discriminant.align > 0,
        discriminant.bits <= 0x1_0000_0000,
        forall|i: int|
            0 <= i < payloads@.len() ==> ((#[trigger] payloads@[i]) matches Some(payload)
                ==> payload.align > 0),
    ensures
        placement is Some <==> enum_fits(discriminant@, measured_payloads(payloads@)),
        placement matches Some(placement) ==> {
            let all = measured_payloads(payloads@);
            &&& 8 * (placement.size as nat) == enum_metrics(discriminant@, all).bits
            &&& placement.align == enum_metrics(discriminant@, all).align
            &&& placement.offsets@.len() == all.len()
            &&& forall|i: int|
                0 <= i < all.len() ==> #[trigger] placement.offsets@[i] == payload_offset(
                    discriminant@,
                    all[i],
                )
        },
{
    let ghost all = measured_payloads(payloads@);
    let mut offsets: Vec<u32> = Vec::new();
    let mut size: u32 = discriminant.bytes() as u32;
    let mut align: u32 = discriminant.align as u32;
    let mut i: usize = 0;
    while i < payloads.len()
        invariant
            i <= payloads@.len(),
            discriminant.align > 0,
            discriminant.bits <= 0x1_0000_0000,
            forall|i: int|
                0 <= i < payloads@.len() ==> ((#[trigger] payloads@[i]) matches Some(payload)
                    ==> payload.align > 0),
            all == measured_payloads(payloads@),
            size == enum_size(discriminant@, all, i as nat),
            align == enum_align(discriminant@, all, i as nat),
            forall|j: int|
                0 <= j < i && (#[trigger] all[j]) is Some ==> tagged_size(
                    discriminant@,
                    all[j]->0,
                ) <= u32::MAX,
            offsets@.len() == i,
            forall|j: int|
                0 <= j < i ==> #[trigger] offsets@[j] == payload_offset(discriminant@, all[j]),
        decreases payloads@.len() - i,
    {
        assert(all[i as int] == match payloads@[i as int] {
            Some(payload) => Some(payload@),
            None => None,
        });
        match &payloads[i] {
            Some(payload) => match tag(discriminant, payload) {
                Some((offset, tagged)) => {
                    offsets.push(offset);
                    if size < tagged {
                        size = tagged;
                    }
                    if align < payload.align as u32 {
                        align = payload.align as u32;
                    }
                },
                None => {
                    return None;
                },
            },
            None => {
                offsets.push(0);
            },
        }
        i += 1;
    }
    if payloads.len() == 0 {
        size = 0;
        align = 1;
    }
    Some(EnumPlacement { offsets, size, align })
}

/// An enum definition that the layout rules can place.
pub open spec fn variants_fit(e: EnumShape) -> bool {
    enum_fits(
        metrics(*e.discriminant, Seq::empty()),
        payload_metrics(e.variants, Seq::empty()),
    )
}

proof fn oversized_payload(discriminant: Metrics, payload: Metrics)
    requires
        payload.bits > u64::MAX,
        payload.align > 0,
        discriminant.align > 0,
    ensures
        tagged_size(discriminant, payload) > u32::MAX,
{
}

proof fn discriminants_are_small(t: &Type)
    requires
        is_discriminant(t@),
    ensures
        metrics(t@, Seq::empty()).bits <= 128,
{
    crate::hir::metrics::metrics_unfold(t@, Seq::empty());
}

impl EnumType {
    /// An enum of the given name, discriminant and variants, or what stands against it.
    pub fn try_new(name: String, discriminant: Type, variants: Vec<Variant>) -> (made: Result<
        EnumType,
        EnumProblem,
    >)
        requires
            wf(discriminant),
            variants_wf(variants@),
        ensures
            ({
                let e = EnumShape {
                    name: name@,
                    discriminant: Box::new(discriminant@),
                    variants: variant_shapes(variants@),
                };
                match made {
                    Ok(made) => {
                        &&& enum_fault(e) is None
                        &&& variants_fit(e)
                        &&& enum_shape(made) == e
                        &&& enum_wf(made)
                    },
                    Err(EnumProblem::Invalid(error)) => enum_fault(e) == Some(error@),
                    Err(EnumProblem::TooLarge) => enum_fault(e) is None && !variants_fit(e),
                }
            }),
    {
        let ghost e = EnumShape {
            name: name@,
            discriminant: Box::new(discriminant@),
            variants: variant_shapes(variants@),
        };
        if let Some(error) = examine(&name, &discriminant, &variants) {
            return Err(EnumProblem::Invalid(error));
        }
        proof {
            discriminants_are_small(&discriminant);
            crate::hir::layout::align_bounds(&discriminant);
        }
        let ghost all = payload_metrics(e.variants, Seq::empty());
        let tag_measure = match measure(&discriminant) {
            Some(tag_measure) => tag_measure,
            None => {
                return Err(EnumProblem::TooLarge);
            },
        };
        let mut payloads: Vec<Option<Measure>> = Vec::new();
        let mut i: usize = 0;
        while i < variants.len()
            invariant
                i <= variants@.len(),
                variants_wf(variants@),
                e == (EnumShape {
                    name: name@,
                    discriminant: Box::new(discriminant@),
                    variants: variant_shapes(variants@),
                }),
                enum_fault(e) is None,
                all == payload_metrics(e.variants, Seq::empty()),
                tag_measure@ == metrics(*e.discriminant, Seq::empty()),
                tag_measure.align > 0,
                payloads@.len() == i,
                forall|j: int|
                    0 <= j < i ==> match #[trigger] payloads@[j] {
                        Some(payload) => all[j] == Some(payload@) && payload.align > 0,
                        None => all[j] is None,
                    },
            decreases variants@.len() - i,
        {
            assert(e.variants[i as int] == variant_shape(variants@[i as int]));
            match &variants[i].value {
                Some(value) => {
                    proof {
                        crate::hir::layout::align_bounds(value);
                    }
                    match measure(value) {
                        Some(payload) => {
                            payloads.push(Some(payload));
                        },
                        None => {
                            proof {
                                oversized_payload(tag_measure@, all[i as int]->0);
                                assert(all[i as int] is Some);
                            }
                            return Err(EnumProblem::TooLarge);
                        },
                    }
                },
                None => {
                    payloads.push(None);
                },
            }
            i += 1;
        }
        assert(measured_payloads(payloads@) =~= all);
        match lay_variants_out(&tag_measure, &payloads) {
            Some(placement) => Ok(
                EnumType {
                    name,
                    discriminant,
                    variants,
                    offsets: placement.offsets,
                    size: placement.size,
                    align: placement.align,
                },
            ),
            None => Err(EnumProblem::TooLarge),
        }
    }

    /// An enum of the given name, discriminant and variants.
    pub fn new(name: String, discriminant: Type, variants: Vec<Variant>) -> (made: Result<
        EnumType,
        InvalidEnumTypeError,
    >)
        requires
            wf(discriminant),
            variants_wf(variants@),
            ({
                let e = EnumShape {
                    name: name@,
                    discriminant: Box::new(discriminant@),
                    variants: variant_shapes(variants@),
                };
                enum_fault(e) is None ==> variants_fit(e)
            }),
        ensures
            ({
                let e = EnumShape {
                    name: name@,
                    discriminant: Box::new(discriminant@),
                    variants: variant_shapes(variants@),
                };
                match made {
                    Ok(made) => {
                        &&& enum_fault(e) is None
                        &&& enum_shape(made) == e
                        &&& enum_wf(made)
                    },
                    Err(error) => enum_fault(e) == Some(error@),
                }
            }),
    {
        match EnumType::try_new(name, discriminant, variants) {
            Ok(made) => Ok(made),
            Err(EnumProblem::Invalid(error)) => Err(error),
            Err(EnumProblem::TooLarge) => vstd::pervasive::unreached(),
        }
    }

    /// An enum without variants.
    pub fn phantom(name: String, discriminant: Type) -> (made: Result<
        EnumType,
        InvalidEnumTypeError,
    >)
        requires
            wf(discriminant),
        ensures
            match made {
                Ok(made) => {
                    &&& is_discriminant(discriminant@)
                    &&& enum_shape(made) == (EnumShape {
                        name: name@,
                        discriminant: Box::new(discriminant@),
                        variants: Seq::empty(),
                    })
                    &&& enum_wf(made)
                },
                Err(error) => {
                    &&& !is_discriminant(discriminant@)
                    &&& error@ == EnumFault::DiscriminantType(discriminant@)
                },
            },
    {
        if !can_discriminate(&discriminant) {
            return Err(InvalidEnumTypeError::InvalidDiscriminantType(discriminant));
        }
        let made = EnumType {
            name,
            discriminant,
            variants: Vec::new(),
            offsets: Vec::new(),
            size: 0,
            align: 1,
        };
        proof {
            assert(variant_shapes(made.variants@) =~= Seq::empty());
            assert(laid_out_payloads(&made) =~= Seq::empty());
        }
        Ok(made)
    }

    /// The name of this enum.
    pub fn name(&self) -> (name: &String)
        ensures
            *name == self.name,
    {
        &self.name
    }

    /// The type of the discriminant.
    pub fn discriminant(&self) -> (discriminant: &Type)
        ensures
            *discriminant == self.discriminant,
    {
        &self.discriminant
    }

    /// The variants of this enum.
    pub fn variants(&self) -> (variants: &Vec<Variant>)
        ensures
            *variants == self.variants,
    {
        &self.variants
    }

    /// The variants of this enum, each with the offset of its payload from the base of the enum.
    pub fn variant_offsets(&self) -> (placed: Vec<(u32, &Variant)>)
        requires
            enum_wf(*self),
        ensures
            placed@.len() == self.variants@.len(),
            forall|i: int|
                0 <= i < placed@.len() ==> {
                    &&& (#[trigger] placed@[i]).0 == payload_offset(
                        laid_out_discriminant(self),
                        laid_out_payloads(self)[i],
                    )
                    &&& *placed@[i].1 == self.variants@[i]
                },
    {
        let mut placed: Vec<(u32, &Variant)> = Vec::new();
        let mut i: usize = 0;
        while i < self.variants.len()
            invariant
                i <= self.variants@.len(),
                enum_wf(*self),
                placed@.len() == i,
                forall|j: int|
                    0 <= j < i ==> {
                        &&& (#[trigger] placed@[j]).0 == self.offsets@[j]
                        &&& *placed@[j].1 == self.variants@[j]
                    },
            decreases self.variants@.len() - i,
        {
            placed.push((self.offsets[i], &self.variants[i]));
            i += 1;
        }
        placed
    }

    /// The discriminants of this enum, in the order of the variants.
    ///
    /// A variant has the discriminant that was set for it, or one more than the preceding
    /// variant's. The first is 0 where none was set.
    pub fn discriminant_values(&self) -> (values: Vec<u128>)
        requires
            enum_wf(*self),
        ensures
            values@.len() == self.variants@.len(),
            forall|i: int|
                0 <= i < values@.len() ==> #[trigger] values@[i] == discriminant_at(
                    variant_shapes(self.variants@),
                    i,
                ),
    {
        match discriminate(&self.discriminant, &self.variants, &self.name) {
            Ok(values) => values,
            Err(_) => vstd::pervasive::unreached(),
        }
    }

    /// Whether this enum has no variants, and so no physical representation.
    pub fn is_phantom(&self) -> (phantom: bool)
        ensures
            phantom == (self.variants@.len() == 0),
    {
        self.variants.len() == 0
    }

    /// Whether this enum has no physical representation.
    pub fn is_zst(&self) -> (zst: bool)
        ensures
            zst == (self.variants@.len() == 0),
    {
        self.is_phantom()
    }

    /// Whether this enum is C-like: it has variants, and none of them has a payload.
    pub fn is_c_like(&self) -> (c_like: bool)
        ensures
            c_like == (self.variants@.len() > 0 && forall|i: int|
                0 <= i < self.variants@.len() ==> (#[trigger] self.variants@[i]).value is None),
    {
        if self.variants.len() == 0 {
            return false;
        }
        let mut i: usize = 0;
        while i < self.variants.len()
            invariant
                i <= self.variants@.len(),
                forall|j: int| 0 <= j < i ==> (#[trigger] self.variants@[j]).value is None,
            decreases self.variants@.len() - i,
        {
            if self.variants[i].value.is_some() {
                return false;
            }
            i += 1;
        }
        true
    }

    /// The size of this enum in bytes.
    pub fn size_in_bytes(&self) -> (size: usize)
        requires
            enum_wf(*self),
        ensures
            size == enum_metrics(laid_out_discriminant(self), laid_out_payloads(self)).bytes(),
    {
        self.size as usize
    }

    /// The size of this enum in bits.
    pub fn size_in_bits(&self) -> (size: usize)
        requires
            enum_wf(*self),
            8 * self.size <= usize::MAX,
        ensures
            size == enum_metrics(laid_out_discriminant(self), laid_out_payloads(self)).bits,
    {
        8 * self.size as usize
    }

    /// The minimum alignment of this enum in bytes.
    pub fn min_alignment(&self) -> (align: usize)
        requires
            enum_wf(*self),
        ensures
            align == enum_metrics(laid_out_discriminant(self), laid_out_payloads(self)).align,
    {
        self.align as usize
    }
}

} // verus!
