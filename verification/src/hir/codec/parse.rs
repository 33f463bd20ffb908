//! What bytes say: the types they stand for, and what is wrong with those that stand for none.
use vstd::prelude::*;
use vstd::utf8::{decode_utf8, valid_utf8};

use crate::hir::codec::bytes::{from_le, vint_len_of, vint_value};
use crate::hir::codec::encode::{
    discriminant_width, TAG_RECURSIVE_GROUP, TAG_RECURSIVE_REF, TAG_VARIADIC,
};
use crate::hir::enum_rules::{enum_fault, is_discriminant, EnumFault};
use crate::hir::enum_type::variants_fit;
use crate::hir::metrics::{align_up, field_metrics, is_alignment, metrics, one_sized_field};
use crate::hir::recursive::rules::{build, BuildFault};
use crate::hir::shape::{
    AbiShape, AddressSpace, EnumShape, FieldShape, FunctionShape, Shape, StructShape, TypeRepr,
    VariantShape,
};
use crate::hir::struct_type::fields_fit;
use crate::hir::types::MAX_RECURSIVE_GROUP_SIZE;

verus! {

/// How deep types can nest. Deeper input is refused, so that reading it cannot exhaust the stack.
pub const MAX_TYPE_NESTING: usize = 128;

/// What is left to read, and how many bytes may still be read where that is limited.
#[verifier::ext_equal]
pub struct Input {
    pub rest: Seq<u8>,
    pub budget: Option<nat>,
}

/// What a count counts.
#[derive(Debug, Clone, Copy, PartialEq, Eq)]
pub enum Counted {
    Bytes,
    Params,
    Results,
    Variants,
    Definitions,
}

/// Why bytes stand for no type.
#[verifier::ext_equal]
pub enum DecodeFault {
    UnexpectedEof,
    BudgetExhausted(nat, nat),
    NotBoolean(u8),
    ValueTooLarge,
    TooMany(Counted, nat, nat),
    InvalidUtf8,
    NestingTooDeep,
    InvalidTag(u8),
    InvalidAddressSpace(u8),
    InvalidCallConv(u8),
    InvalidRepr(u8),
    InvalidKind(u8),
    AlignmentNotPowerOfTwo,
    PackedAlignmentNotPowerOfTwo,
    FieldTooLarge,
    TransparentFields,
    StructTooLarge,
    ArrayTooLarge,
    VariadicOutsideSignature,
    VariadicNotLast,
    BackReferenceOutsideGroup,
    BackReferenceOutOfRange(nat),
    EmptyGroup,
    GroupTooLarge(nat),
    RootOutOfRange(nat),
    InvalidEnum(EnumFault),
    EnumTooLarge,
    InvalidGroup(BuildFault),
    NotCanonical,
    NotOneGroup,
}

/// What was read and what is left, or what is wrong.
pub type Step<T> = Result<(T, Input), DecodeFault>;

// ---------------------------------------------------------------------------------------------
// Bytes, numbers and texts
// ---------------------------------------------------------------------------------------------

pub open spec fn advance(s: Input, n: nat) -> Input {
    Input {
        rest: s.rest.skip(n as int),
        budget: match s.budget {
            Some(left) => Some((left - n) as nat),
            None => None,
        },
    }
}

/// Reads `n` bytes. The budget is charged before the input is looked at.
pub open spec fn parse_bytes(s: Input, n: nat) -> Step<Seq<u8>> {
    if s.budget is Some && n > s.budget->0 {
        Err(DecodeFault::BudgetExhausted(n, s.budget->0))
    } else if s.rest.len() < n {
        Err(DecodeFault::UnexpectedEof)
    } else {
        Ok((s.rest.take(n as int), advance(s, n)))
    }
}

pub open spec fn parse_byte(s: Input) -> Step<u8> {
    match parse_bytes(s, 1) {
        Ok((bytes, s)) => Ok((bytes[0], s)),
        Err(fault) => Err(fault),
    }
}

pub open spec fn parse_flag(s: Input) -> Step<bool> {
    match parse_byte(s) {
        Ok((byte, s)) => if byte == 0 {
            Ok((false, s))
        } else if byte == 1 {
            Ok((true, s))
        } else {
            Err(DecodeFault::NotBoolean(byte))
        },
        Err(fault) => Err(fault),
    }
}

/// Reads a number of `n` bytes, the least significant first.
pub open spec fn parse_number(s: Input, n: nat) -> Step<nat> {
    match parse_bytes(s, n) {
        Ok((bytes, s)) => Ok((from_le(bytes), s)),
        Err(fault) => Err(fault),
    }
}

/// Reads a variable-length number.
pub open spec fn parse_count(s: Input) -> Step<nat> {
    if s.rest.len() == 0 {
        Err(DecodeFault::UnexpectedEof)
    } else {
        let n = vint_len_of(s.rest[0]);
        let left = if n == 9 {
            match parse_bytes(s, 1) {
                Ok((_, s)) => parse_bytes(s, 8),
                Err(fault) => Err(fault),
            }
        } else {
            parse_bytes(s, n)
        };
        match left {
            Ok((_, next)) => if vint_value(s.rest) > usize::MAX {
                Err(DecodeFault::ValueTooLarge)
            } else {
                Ok((vint_value(s.rest), next))
            },
            Err(fault) => Err(fault),
        }
    }
}

/// A count that the budget cannot cover.
pub open spec fn excess(s: Input, what: Counted, n: nat) -> Option<DecodeFault> {
    match s.budget {
        Some(left) => if n > left {
            Some(DecodeFault::TooMany(what, n, left))
        } else {
            None
        },
        None => None,
    }
}

pub open spec fn parse_counted(s: Input, what: Counted) -> Step<nat> {
    match parse_count(s) {
        Ok((n, s)) => match excess(s, what, n) {
            Some(fault) => Err(fault),
            None => Ok((n, s)),
        },
        Err(fault) => Err(fault),
    }
}

pub open spec fn parse_text(s: Input) -> Step<Seq<char>> {
    match parse_counted(s, Counted::Bytes) {
        Ok((n, s)) => match parse_bytes(s, n) {
            Ok((bytes, s)) => if valid_utf8(bytes) {
                Ok((decode_utf8(bytes), s))
            } else {
                Err(DecodeFault::InvalidUtf8)
            },
            Err(fault) => Err(fault),
        },
        Err(fault) => Err(fault),
    }
}

pub open spec fn parse_label(s: Input) -> Step<Option<Seq<char>>> {
    match parse_flag(s) {
        Ok((true, s)) => match parse_text(s) {
            Ok((text, s)) => Ok((Some(text), s)),
            Err(fault) => Err(fault),
        },
        Ok((false, s)) => Ok((None, s)),
        Err(fault) => Err(fault),
    }
}

pub open spec fn parse_addrspace(s: Input) -> Step<AddressSpace> {
    match parse_byte(s) {
        Ok((tag, s)) => if tag == 0 {
            Ok((AddressSpace::Byte, s))
        } else if tag == 1 {
            Ok((AddressSpace::Element, s))
        } else {
            Err(DecodeFault::InvalidAddressSpace(tag))
        },
        Err(fault) => Err(fault),
    }
}

pub open spec fn parse_abi(s: Input) -> Step<AbiShape> {
    match parse_byte(s) {
        Ok((tag, s)) => if tag == 0 {
            Ok((AbiShape::Fast, s))
        } else if tag == 1 {
            Ok((AbiShape::C, s))
        } else if tag == 2 {
            Ok((AbiShape::Wasm, s))
        } else if tag == 3 {
            Ok((AbiShape::ComponentModel, s))
        } else if tag == 4 {
            match parse_text(s) {
                Ok((name, s)) => Ok((AbiShape::Extern(name), s)),
                Err(fault) => Err(fault),
            }
        } else {
            Err(DecodeFault::InvalidCallConv(tag))
        },
        Err(fault) => Err(fault),
    }
}

pub open spec fn parse_alignment(s: Input, otherwise: DecodeFault) -> Step<u16> {
    match parse_number(s, 2) {
        Ok((align, s)) => if is_alignment(align as u16) {
            Ok((align as u16, s))
        } else {
            Err(otherwise)
        },
        Err(fault) => Err(fault),
    }
}

pub open spec fn parse_repr(s: Input) -> Step<TypeRepr> {
    match parse_byte(s) {
        Ok((tag, s)) => if tag == 0 {
            Ok((TypeRepr::Default, s))
        } else if tag == 1 {
            match parse_alignment(s, DecodeFault::AlignmentNotPowerOfTwo) {
                Ok((align, s)) => Ok((TypeRepr::Align(align), s)),
                Err(fault) => Err(fault),
            }
        } else if tag == 2 {
            match parse_alignment(s, DecodeFault::PackedAlignmentNotPowerOfTwo) {
                Ok((align, s)) => Ok((TypeRepr::Packed(align), s)),
                Err(fault) => Err(fault),
            }
        } else if tag == 3 {
            Ok((TypeRepr::Transparent, s))
        } else {
            Err(DecodeFault::InvalidRepr(tag))
        },
        Err(fault) => Err(fault),
    }
}

pub open spec fn parse_discriminant(s: Input, width: nat) -> Step<Option<u128>> {
    match parse_flag(s) {
        Ok((true, s)) => match parse_number(s, width) {
            Ok((value, s)) => Ok((Some(value as u128), s)),
            Err(fault) => Err(fault),
        },
        Ok((false, s)) => Ok((None, s)),
        Err(fault) => Err(fault),
    }
}

// ---------------------------------------------------------------------------------------------
// Types
// ---------------------------------------------------------------------------------------------

/// The decimal digits of a number below 100.
pub open spec fn digits(n: nat) -> Seq<char> {
    if n < 10 {
        seq![(48 + n) as char]
    } else {
        seq![(48 + n / 10) as char, (48 + n % 10) as char]
    }
}

/// The key under which definition `i` of a group is read.
pub open spec fn slot_key(i: nat) -> Seq<char> {
    seq!['#'] + digits(i)
}

pub open spec fn slot_keys(n: nat) -> Seq<Seq<char>> {
    Seq::new(n, |i: int| slot_key(i as nat))
}

pub open spec fn capped(size: nat) -> Option<nat> {
    if size <= u64::MAX {
        Some(size)
    } else {
        None
    }
}

/// How large a type inside a group is at least, where that does not depend on a definition of
/// the group and fits 64 bits.
pub open spec fn least_size(t: Shape) -> Option<nat>
    decreases t,
{
    match t {
        Shape::Ptr(_, _) | Shape::Function(_) => Some(4),
        Shape::List(_) => Some(8),
        Shape::Array(element, n) => match least_size(*element) {
            Some(size) => capped(size * n),
            None => None,
        },
        Shape::Struct(s) => least_sum(s.fields),
        Shape::Enum(e) => if e.variants.len() == 0 {
            Some(0)
        } else {
            least_maximum(e.variants, discriminant_width(*e.discriminant))
        },
        Shape::Name(_) => None,
        _ => {
            let m = metrics(t, Seq::empty());
            capped(align_up(m.bytes(), m.align))
        },
    }
}

pub open spec fn least_sum(fields: Seq<FieldShape>) -> Option<nat>
    decreases fields,
{
    if fields.len() == 0 {
        Some(0)
    } else {
        match least_sum(fields.drop_last()) {
            Some(before) => match least_size(fields[fields.len() - 1].ty) {
                Some(size) => capped(before + size),
                None => None,
            },
            None => None,
        }
    }
}

/// The largest of some payloads, or the discriminant.
pub open spec fn least_maximum(variants: Seq<VariantShape>, discriminant: nat) -> Option<nat>
    decreases variants,
{
    if variants.len() == 0 {
        Some(discriminant)
    } else {
        match least_maximum(variants.drop_last(), discriminant) {
            Some(before) => match variants[variants.len() - 1].value {
                Some(value) => match least_size(value) {
                    Some(size) => Some(if before < size {
                        size
                    } else {
                        before
                    }),
                    None => None,
                },
                None => Some(before),
            },
            None => None,
        }
    }
}

/// An array of `n` elements is larger than 32 bits can count.
pub open spec fn oversized_array(element: Shape, n: nat, group: Option<nat>) -> bool {
    match group {
        None => {
            let m = metrics(element, Seq::empty());
            align_up(m.bytes(), m.align) * n > u32::MAX
        },
        Some(_) => match least_size(element) {
            Some(size) => size * n > u32::MAX,
            None => false,
        },
    }
}

/// The type that a tag stands for by itself.
pub open spec fn parse_atom(tag: u8) -> Result<Shape, DecodeFault> {
    if tag == 0 {
        Ok(Shape::Unknown)
    } else if tag == 1 {
        Ok(Shape::Never)
    } else if tag == 2 {
        Ok(Shape::I1)
    } else if tag == 3 {
        Ok(Shape::I8)
    } else if tag == 4 {
        Ok(Shape::U8)
    } else if tag == 5 {
        Ok(Shape::I16)
    } else if tag == 6 {
        Ok(Shape::U16)
    } else if tag == 7 {
        Ok(Shape::I32)
    } else if tag == 8 {
        Ok(Shape::U32)
    } else if tag == 9 {
        Ok(Shape::I64)
    } else if tag == 10 {
        Ok(Shape::U64)
    } else if tag == 11 {
        Ok(Shape::I128)
    } else if tag == 12 {
        Ok(Shape::U128)
    } else if tag == 13 {
        Ok(Shape::U256)
    } else if tag == 14 {
        Ok(Shape::F64)
    } else if tag == 15 {
        Ok(Shape::Felt)
    } else if tag == TAG_VARIADIC {
        Err(DecodeFault::VariadicOutsideSignature)
    } else if tag == TAG_RECURSIVE_REF {
        Err(DecodeFault::BackReferenceOutsideGroup)
    } else {
        Err(DecodeFault::InvalidTag(tag))
    }
}

/// How the parts of a type are read, outside any group or inside a group of some definitions.
pub type Inner = spec_fn(Input, Option<nat>) -> Step<Shape>;

/// Reads a type outside any group. Without `inner`, types can nest no deeper.
#[verifier::opaque]
pub open spec fn parse_closed(s: Input, inner: Option<Inner>) -> Step<Shape> {
    match parse_byte(s) {
        Ok((tag, s)) => if 16 <= tag <= 21 || tag == TAG_RECURSIVE_GROUP {
            match inner {
                None => Err(DecodeFault::NestingTooDeep),
                Some(inner) => if tag == TAG_RECURSIVE_GROUP {
                    parse_group(s, inner)
                } else {
                    parse_compound(s, tag, inner, None)
                },
            }
        } else {
            match parse_atom(tag) {
                Ok(t) => Ok((t, s)),
                Err(fault) => Err(fault),
            }
        },
        Err(fault) => Err(fault),
    }
}

/// Reads a type inside a group of `n` definitions, where back-references to them may occur.
#[verifier::opaque]
pub open spec fn parse_open(s: Input, inner: Option<Inner>, n: nat) -> Step<Shape> {
    if s.rest.len() == 0 {
        Err(DecodeFault::UnexpectedEof)
    } else if s.rest[0] == TAG_RECURSIVE_REF {
        match parse_byte(s) {
            Ok((_, s)) => match parse_number(s, 2) {
                Ok((i, s)) => if i < n {
                    Ok((Shape::Name(slot_key(i)), s))
                } else {
                    Err(DecodeFault::BackReferenceOutOfRange(i))
                },
                Err(fault) => Err(fault),
            },
            Err(fault) => Err(fault),
        }
    } else if 16 <= s.rest[0] <= 21 {
        match inner {
            None => Err(DecodeFault::NestingTooDeep),
            Some(inner) => match parse_byte(s) {
                Ok((tag, s)) => parse_compound(s, tag, inner, Some(n)),
                Err(fault) => Err(fault),
            },
        }
    } else {
        parse_closed(s, inner)
    }
}

/// Reads a type that nests at most `depth` deep, outside any group or inside a group of some
/// definitions.
#[verifier::opaque]
pub open spec fn parse(s: Input, depth: nat, group: Option<nat>) -> Step<Shape>
    decreases depth, 0nat,
{
    let inner = if depth == 0 {
        None
    } else {
        Some(at_depth((depth - 1) as nat))
    };
    match group {
        None => parse_closed(s, inner),
        Some(n) => parse_open(s, inner, n),
    }
}

/// Reads types that nest at most `depth` deep.
#[verifier::opaque]
pub open spec fn at_depth(depth: nat) -> Inner
    decreases depth, 1nat,
{
    |s: Input, group: Option<nat>| parse(s, depth, group)
}

/// How the parts of a type at `depth` are read.
pub open spec fn below(depth: nat) -> Option<Inner> {
    if depth == 0 {
        None
    } else {
        Some(at_depth((depth - 1) as nat))
    }
}

pub proof fn parse_unfold(s: Input, depth: nat, group: Option<nat>)
    ensures
        parse(s, depth, group) == (match group {
            None => parse_closed(s, below(depth)),
            Some(n) => parse_open(s, below(depth), n),
        }),
{
    reveal(parse);
    reveal(at_depth);
}

pub proof fn at_depth_parses(depth: nat)
    ensures
        forall|s: Input, group: Option<nat>| #[trigger]
            at_depth(depth)(s, group) == parse(s, depth, group),
{
    reveal(parse);
    reveal(at_depth);
}

/// Reads what follows the tag of a type with parts.
#[verifier::opaque]
pub open spec fn parse_compound(s: Input, tag: u8, inner: Inner, group: Option<nat>) -> Step<Shape> {
    if tag == 16 {
        match parse_addrspace(s) {
            Ok((addrspace, s)) => match inner(s, group) {
                Ok((pointee, s)) => Ok((Shape::Ptr(addrspace, Box::new(pointee)), s)),
                Err(fault) => Err(fault),
            },
            Err(fault) => Err(fault),
        }
    } else if tag == 17 {
        match parse_struct(s, inner, group) {
            Ok((made, s)) => Ok((Shape::Struct(made), s)),
            Err(fault) => Err(fault),
        }
    } else if tag == 18 {
        match parse_count(s) {
            Ok((n, s)) => match inner(s, group) {
                Ok((element, s)) => if oversized_array(element, n, group) {
                    Err(DecodeFault::ArrayTooLarge)
                } else {
                    Ok((Shape::Array(Box::new(element), n), s))
                },
                Err(fault) => Err(fault),
            },
            Err(fault) => Err(fault),
        }
    } else if tag == 19 {
        match inner(s, group) {
            Ok((element, s)) => Ok((Shape::List(Box::new(element)), s)),
            Err(fault) => Err(fault),
        }
    } else if tag == 20 {
        match parse_function(s, inner, group) {
            Ok((made, s)) => Ok((Shape::Function(made), s)),
            Err(fault) => Err(fault),
        }
    } else {
        match parse_enum(s, inner, group) {
            Ok((made, s)) => Ok((Shape::Enum(made), s)),
            Err(fault) => Err(fault),
        }
    }
}

/// Reads an entry of a signature, the last of which may be variadic.
#[verifier::opaque]
pub open spec fn parse_entry(s: Input, inner: Inner, group: Option<nat>, last: bool) -> Step<Shape> {
    if s.rest.len() == 0 {
        Err(DecodeFault::UnexpectedEof)
    } else if s.rest[0] == TAG_VARIADIC {
        match parse_byte(s) {
            Ok((_, s)) => if last {
                Ok((Shape::Variadic, s))
            } else {
                Err(DecodeFault::VariadicNotLast)
            },
            Err(fault) => Err(fault),
        }
    } else {
        inner(s, group)
    }
}

/// Reads the first `n` entries of a list of `total`.
pub open spec fn parse_entries(
    s: Input,
    inner: Inner,
    group: Option<nat>,
    total: nat,
    n: nat,
) -> Step<Seq<Shape>>
    decreases n,
{
    if n == 0 {
        Ok((Seq::empty(), s))
    } else {
        match parse_entries(s, inner, group, total, (n - 1) as nat) {
            Ok((before, s)) => match parse_entry(s, inner, group, n == total) {
                Ok((t, s)) => Ok((before.push(t), s)),
                Err(fault) => Err(fault),
            },
            Err(fault) => Err(fault),
        }
    }
}

#[verifier::opaque]
pub open spec fn parse_function(s: Input, inner: Inner, group: Option<nat>) -> Step<FunctionShape> {
    match parse_abi(s) {
        Ok((abi, s)) => match parse_counted(s, Counted::Params) {
            Ok((n, s)) => match parse_entries(s, inner, group, n, n) {
                Ok((params, s)) => match parse_counted(s, Counted::Results) {
                    Ok((n, s)) => match parse_entries(s, inner, group, n, n) {
                        Ok((results, s)) => Ok((FunctionShape { abi, params, results }, s)),
                        Err(fault) => Err(fault),
                    },
                    Err(fault) => Err(fault),
                },
                Err(fault) => Err(fault),
            },
            Err(fault) => Err(fault),
        },
        Err(fault) => Err(fault),
    }
}

/// Reads a field.
#[verifier::opaque]
pub open spec fn parse_field(s: Input, inner: Inner, group: Option<nat>) -> Step<FieldShape> {
    match parse_label(s) {
        Ok((name, s)) => match inner(s, group) {
            Ok((ty, s)) => if group is None && metrics(ty, Seq::empty()).bytes() > u32::MAX {
                Err(DecodeFault::FieldTooLarge)
            } else {
                Ok((FieldShape { name, ty }, s))
            },
            Err(fault) => Err(fault),
        },
        Err(fault) => Err(fault),
    }
}

pub open spec fn parse_fields(
    s: Input,
    inner: Inner,
    group: Option<nat>,
    n: nat,
) -> Step<Seq<FieldShape>>
    decreases n,
{
    if n == 0 {
        Ok((Seq::empty(), s))
    } else {
        match parse_fields(s, inner, group, (n - 1) as nat) {
            Ok((before, s)) => match parse_field(s, inner, group) {
                Ok((field, s)) => Ok((before.push(field), s)),
                Err(fault) => Err(fault),
            },
            Err(fault) => Err(fault),
        }
    }
}

/// What stands against a struct that is read outside any group.
pub open spec fn struct_fault(s: StructShape) -> Option<DecodeFault> {
    if s.repr is Transparent && !one_sized_field(field_metrics(s.fields, Seq::empty())) {
        Some(DecodeFault::TransparentFields)
    } else if !fields_fit(s.repr, s.fields) {
        Some(DecodeFault::StructTooLarge)
    } else {
        None
    }
}

#[verifier::opaque]
pub open spec fn parse_struct(s: Input, inner: Inner, group: Option<nat>) -> Step<StructShape> {
    match parse_label(s) {
        Ok((name, s)) => match parse_repr(s) {
            Ok((repr, s)) => match parse_byte(s) {
                Ok((n, s)) => match parse_fields(s, inner, group, n as nat) {
                    Ok((fields, s)) => {
                        let made = StructShape { name, repr, fields };
                        if group is None && struct_fault(made) is Some {
                            Err(struct_fault(made)->0)
                        } else {
                            Ok((made, s))
                        }
                    },
                    Err(fault) => Err(fault),
                },
                Err(fault) => Err(fault),
            },
            Err(fault) => Err(fault),
        },
        Err(fault) => Err(fault),
    }
}

/// Reads a payload, if there is one.
#[verifier::opaque]
pub open spec fn parse_payload(s: Input, inner: Inner, group: Option<nat>) -> Step<Option<Shape>> {
    match parse_flag(s) {
        Ok((true, s)) => match inner(s, group) {
            Ok((value, s)) => Ok((Some(value), s)),
            Err(fault) => Err(fault),
        },
        Ok((false, s)) => Ok((None, s)),
        Err(fault) => Err(fault),
    }
}

#[verifier::opaque]
pub open spec fn parse_variant(
    s: Input,
    inner: Inner,
    group: Option<nat>,
    width: nat,
) -> Step<VariantShape> {
    match parse_text(s) {
        Ok((name, s)) => match parse_payload(s, inner, group) {
            Ok((value, s)) => match parse_discriminant(s, width) {
                Ok((discriminant_value, s)) => Ok(
                    (VariantShape { name, discriminant_value, value }, s),
                ),
                Err(fault) => Err(fault),
            },
            Err(fault) => Err(fault),
        },
        Err(fault) => Err(fault),
    }
}

pub open spec fn parse_variants(
    s: Input,
    inner: Inner,
    group: Option<nat>,
    width: nat,
    n: nat,
) -> Step<Seq<VariantShape>>
    decreases n,
{
    if n == 0 {
        Ok((Seq::empty(), s))
    } else {
        match parse_variants(s, inner, group, width, (n - 1) as nat) {
            Ok((before, s)) => match parse_variant(s, inner, group, width) {
                Ok((variant, s)) => Ok((before.push(variant), s)),
                Err(fault) => Err(fault),
            },
            Err(fault) => Err(fault),
        }
    }
}

/// What stands against an enum that is read outside any group.
pub open spec fn enum_problem(e: EnumShape) -> Option<DecodeFault> {
    match enum_fault(e) {
        Some(fault) => Some(DecodeFault::InvalidEnum(fault)),
        None => if variants_fit(e) {
            None
        } else {
            Some(DecodeFault::EnumTooLarge)
        },
    }
}

pub open spec fn parse_variant_count(s: Input, group: Option<nat>) -> Step<nat> {
    match group {
        None => parse_count(s),
        Some(_) => parse_counted(s, Counted::Variants),
    }
}

#[verifier::opaque]
pub open spec fn parse_enum(s: Input, inner: Inner, group: Option<nat>) -> Step<EnumShape> {
    match parse_text(s) {
        Ok((name, s)) => match inner(s, None) {
            Ok((discriminant, s)) => if !is_discriminant(discriminant) {
                Err(DecodeFault::InvalidEnum(EnumFault::DiscriminantType(discriminant)))
            } else {
                match parse_variant_count(s, group) {
                    Ok((n, s)) => match parse_variants(
                        s,
                        inner,
                        group,
                        discriminant_width(discriminant),
                        n,
                    ) {
                        Ok((variants, s)) => {
                            let made = EnumShape {
                                name,
                                discriminant: Box::new(discriminant),
                                variants,
                            };
                            if group is None && enum_problem(made) is Some {
                                Err(enum_problem(made)->0)
                            } else {
                                Ok((made, s))
                            }
                        },
                        Err(fault) => Err(fault),
                    },
                    Err(fault) => Err(fault),
                }
            },
            Err(fault) => Err(fault),
        },
        Err(fault) => Err(fault),
    }
}

/// Reads the kinds of the first `n` definitions: `true` for an enum.
pub open spec fn parse_kinds(s: Input, n: nat) -> Step<Seq<bool>>
    decreases n,
{
    if n == 0 {
        Ok((Seq::empty(), s))
    } else {
        match parse_kinds(s, (n - 1) as nat) {
            Ok((before, s)) => match parse_byte(s) {
                Ok((tag, s)) => if tag == 0 {
                    Ok((before.push(false), s))
                } else if tag == 1 {
                    Ok((before.push(true), s))
                } else {
                    Err(DecodeFault::InvalidKind(tag))
                },
                Err(fault) => Err(fault),
            },
            Err(fault) => Err(fault),
        }
    }
}

/// Reads the bodies of the first `n` definitions.
pub open spec fn parse_bodies(s: Input, inner: Inner, kinds: Seq<bool>, n: nat) -> Step<Seq<Shape>>
    decreases n,
{
    if n == 0 {
        Ok((Seq::empty(), s))
    } else {
        match parse_bodies(s, inner, kinds, (n - 1) as nat) {
            Ok((before, s)) => if kinds[n - 1] {
                match parse_enum(s, inner, Some(kinds.len())) {
                    Ok((made, s)) => Ok((before.push(Shape::Enum(made)), s)),
                    Err(fault) => Err(fault),
                }
            } else {
                match parse_struct(s, inner, Some(kinds.len())) {
                    Ok((made, s)) => Ok((before.push(Shape::Struct(made)), s)),
                    Err(fault) => Err(fault),
                }
            },
            Err(fault) => Err(fault),
        }
    }
}

/// The first definition from `i` on that was not built as it was written.
pub open spec fn order_fault(built: Seq<Option<Shape>>, i: int) -> Option<DecodeFault>
    decreases built.len() - i,
{
    if i < 0 || i >= built.len() {
        None
    } else {
        match built[i] {
            Some(Shape::Rec(definitions, at)) => if at == i && definitions.len() == built.len() {
                order_fault(built, i + 1)
            } else {
                Some(DecodeFault::NotCanonical)
            },
            _ => Some(DecodeFault::NotOneGroup),
        }
    }
}

/// The type that the bodies of a group build, where `root` selects one of them. Definitions are
/// written in canonical order, and a group in another order is refused.
pub open spec fn assembled(bodies: Seq<Shape>, root: nat) -> Result<Shape, DecodeFault> {
    match build(slot_keys(bodies.len()), bodies) {
        Err(fault) => Err(DecodeFault::InvalidGroup(fault)),
        Ok(built) => match order_fault(built, 0) {
            Some(fault) => Err(fault),
            None => Ok(built[root as int]->0),
        },
    }
}

/// Reads what follows the tag of a group.
#[verifier::opaque]
pub open spec fn parse_group(s: Input, inner: Inner) -> Step<Shape> {
    match parse_number(s, 2) {
        Ok((n, s)) => if n == 0 {
            Err(DecodeFault::EmptyGroup)
        } else if n > MAX_RECURSIVE_GROUP_SIZE {
            Err(DecodeFault::GroupTooLarge(n))
        } else {
            match excess(s, Counted::Definitions, n) {
                Some(fault) => Err(fault),
                None => match parse_kinds(s, n) {
                    Ok((kinds, s)) => match parse_bodies(s, inner, kinds, n) {
                        Ok((bodies, s)) => match parse_number(s, 2) {
                            Ok((root, s)) => if root >= n {
                                Err(DecodeFault::RootOutOfRange(root))
                            } else {
                                match assembled(bodies, root) {
                                    Ok(t) => Ok((t, s)),
                                    Err(fault) => Err(fault),
                                }
                            },
                            Err(fault) => Err(fault),
                        },
                        Err(fault) => Err(fault),
                    },
                    Err(fault) => Err(fault),
                },
            }
        },
        Err(fault) => Err(fault),
    }
}

} // verus!
