//! What is said of types that are refused.
use vstd::prelude::*;

use crate::hir::codec::parse::{Counted, DecodeFault};
use crate::hir::codec::reader::DecodeError;
use crate::hir::enum_rules::EnumFault;
use crate::hir::enum_type::InvalidEnumTypeError;
use crate::hir::function_type::UnknownCallingConventionError;
use crate::hir::kinds::InvalidAddressSpaceError;
use crate::hir::recursive::builder::RecursiveTypeError;
use crate::hir::recursive::rules::BuildFault;
use crate::hir::render::{layout_of, printable, printed};
use crate::hir::shape::Shape;
use crate::text::{decimal_text, push_decimal};

verus! {

/// The text of a type.
pub open spec fn shown(t: Shape) -> Seq<char> {
    printed(layout_of(t), 80)
}

/// The types that a message shows can be printed.
pub open spec fn enum_fault_printable(fault: EnumFault) -> bool {
    match fault {
        EnumFault::DiscriminantType(ty) => printable(layout_of(ty)),
        EnumFault::ImplicitDiscriminant { variant: _, discriminant, preceding: _ } => printable(
            layout_of(discriminant),
        ),
        EnumFault::Discriminant { variant: _, discriminant, value: _ } => printable(
            layout_of(discriminant),
        ),
        _ => true,
    }
}

pub open spec fn build_fault_printable(fault: BuildFault) -> bool {
    match fault {
        BuildFault::InvalidDefinition(fault) => enum_fault_printable(fault),
        _ => true,
    }
}

pub open spec fn decode_fault_printable(fault: DecodeFault) -> bool {
    match fault {
        DecodeFault::InvalidEnum(fault) => enum_fault_printable(fault),
        DecodeFault::InvalidGroup(fault) => build_fault_printable(fault),
        _ => true,
    }
}

/// What is said of an enum that is refused.
pub open spec fn enum_message(fault: EnumFault) -> Seq<char> {
    match fault {
        EnumFault::DiscriminantType(ty) => {
            "invalid discriminant type '"@
                + shown(ty)
                + "': expected integer type"@
        },
        EnumFault::ImplicitDiscriminant { variant, discriminant, preceding } => {
            "invalid enum variant '"@
                + variant
                + "': discriminant value is out of range for "@
                + shown(discriminant)
                + ", preceding variant had value "@
                + decimal_text(preceding as nat)
        },
        EnumFault::Discriminant { variant, discriminant, value } => {
            "invalid enum variant '"@
                + variant
                + "': discriminant value "@
                + decimal_text(value as nat)
                + " is out of range for "@
                + shown(discriminant)
        },
        EnumFault::DuplicateVariant { variant } => {
            "invalid enum variant: '"@
                + variant
                + "' cannot be defined twice in the same enum"@
        },
        EnumFault::DuplicateDiscriminant { variant, value: _ } => {
            "invalid enum variant '"@
                + variant
                + "': discriminant value has already been claimed by a previous discriminant"@
        },
    }
}

/// What is said of definitions that build nothing.
pub open spec fn build_message(fault: BuildFault) -> Seq<char> {
    match fault {
        BuildFault::EmptyName => "invalid recursive type: definition name must not be empty"@,
        BuildFault::DuplicateName(key) => {
            "invalid recursive type: duplicate definition name '"@
                + key
                + "'"@
        },
        BuildFault::UndefinedReference(key) => {
            "invalid recursive type: reference to undefined type '"@
                + key
                + "'"@
        },
        BuildFault::UnguardedRecursion(key) => {
            "invalid recursive type: '"@
                + key
                + "' is recursive without an intervening pointer, list, or function, so it would have infinite size"@
        },
        BuildFault::GroupTooLarge(key, n) => {
            "invalid recursive type: group containing '"@
                + key
                + "' has "@
                + decimal_text(n as nat)
                + " definitions, but no more than 64 are allowed"@
        },
        BuildFault::InvalidDefinition(fault) => "invalid recursive type: "@ + enum_message(fault),
        BuildFault::TooLarge(key) => "invalid recursive type: '"@ + key + "' cannot be laid out"@,
    }
}

/// What is said of bytes that stand for no type.
pub open spec fn decode_message(fault: DecodeFault) -> Seq<char> {
    match fault {
        DecodeFault::UnexpectedEof => "unexpected end of file"@,
        DecodeFault::BudgetExhausted(n, left) => {
            "budget exhausted: requested "@
                + decimal_text(n as nat)
                + " bytes, "@
                + decimal_text(left as nat)
                + " remaining"@
        },
        DecodeFault::NotBoolean(byte) => decimal_text(byte as nat) + " is not a boolean value"@,
        DecodeFault::ValueTooLarge => "value does not fit usize"@,
        DecodeFault::TooMany(Counted::Bytes, n, left) => {
            "text of "@
                + decimal_text(n as nat)
                + " bytes exceeds budget "@
                + decimal_text(left as nat)
        },
        DecodeFault::TooMany(Counted::Params, n, left) => {
            "function params count "@
                + decimal_text(n as nat)
                + " exceeds budget "@
                + decimal_text(left as nat)
        },
        DecodeFault::TooMany(Counted::Results, n, left) => {
            "function results count "@
                + decimal_text(n as nat)
                + " exceeds budget "@
                + decimal_text(left as nat)
        },
        DecodeFault::TooMany(Counted::Variants, n, left) => {
            "enum variant count "@
                + decimal_text(n as nat)
                + " exceeds budget "@
                + decimal_text(left as nat)
        },
        DecodeFault::TooMany(Counted::Definitions, n, left) => {
            "invalid recursive type: group of "@
                + decimal_text(n as nat)
                + " definitions exceeds budget "@
                + decimal_text(left as nat)
        },
        DecodeFault::InvalidUtf8 => "text is not valid UTF-8"@,
        DecodeFault::NestingTooDeep => "type nesting exceeds limit"@,
        DecodeFault::InvalidTag(tag) => "invalid Type tag: "@ + decimal_text(tag as nat),
        DecodeFault::InvalidAddressSpace(tag) => {
            "invalid AddressSpace tag: "@
                + decimal_text(tag as nat)
        },
        DecodeFault::InvalidCallConv(tag) => "invalid CallConv tag: "@ + decimal_text(tag as nat),
        DecodeFault::InvalidRepr(tag) => "invalid TypeRepr tag: "@ + decimal_text(tag as nat),
        DecodeFault::InvalidKind(tag) => {
            "invalid recursive type: unknown aggregate kind tag "@
                + decimal_text(tag as nat)
        },
        DecodeFault::AlignmentNotPowerOfTwo => {
            "invalid type repr: alignment must be a power of two"@
        },
        DecodeFault::PackedAlignmentNotPowerOfTwo => {
            "invalid type repr: packed alignment must be a power of two"@
        },
        DecodeFault::FieldTooLarge => "invalid struct field: size exceeds u32::MAX bytes"@,
        DecodeFault::TransparentFields => {
            "invalid transparent struct: expected at most one non-zero-sized field"@
        },
        DecodeFault::StructTooLarge => "invalid struct: size exceeds u32::MAX bytes"@,
        DecodeFault::ArrayTooLarge => "invalid array: size exceeds u32::MAX bytes"@,
        DecodeFault::VariadicOutsideSignature => {
            "invalid type: a variadic type parameter is only valid in a function's parameter or result list"@
        },
        DecodeFault::VariadicNotLast => {
            "invalid function type: a variadic type parameter must come last, and may appear at most once per list"@
        },
        DecodeFault::BackReferenceOutsideGroup => {
            "invalid recursive type reference: a back-reference is only valid inside a recursive group body"@
        },
        DecodeFault::BackReferenceOutOfRange(i) => {
            "invalid recursive type reference: index "@
                + decimal_text(i as nat)
                + " is out of range"@
        },
        DecodeFault::EmptyGroup => {
            "invalid recursive type: group must contain at least one definition"@
        },
        DecodeFault::GroupTooLarge(n) => {
            "invalid recursive type: group has "@
                + decimal_text(n as nat)
                + " definitions, but no more than 64 are allowed"@
        },
        DecodeFault::RootOutOfRange(i) => {
            "invalid recursive type: root index "@
                + decimal_text(i as nat)
                + " is out of range"@
        },
        DecodeFault::InvalidEnum(fault) => enum_message(fault),
        DecodeFault::EnumTooLarge => "invalid enum: size exceeds u32::MAX bytes"@,
        DecodeFault::InvalidGroup(fault) => build_message(fault),
        DecodeFault::NotCanonical => {
            "invalid recursive type: definitions are not in canonical order"@
        },
        DecodeFault::NotOneGroup => {
            "invalid recursive type: definitions do not form a single recursive group"@
        },
    }
}

impl InvalidEnumTypeError {
    /// What is said of the enum.
    pub fn message(&self) -> (message: String)
        requires
            enum_fault_printable(self@),
        ensures
            message@ == enum_message(self@),
    {
        let mut message: String = String::new();
        match self {
            InvalidEnumTypeError::InvalidDiscriminantType(ty) => {
                message.append("invalid discriminant type '");
                message.append(ty.to_text().as_str());
                message.append("': expected integer type");
            },
            InvalidEnumTypeError::InvalidImplicitDiscriminantValue {
                variant,
                discriminant_ty,
                value_of_preceding_variant,
            } => {
                message.append("invalid enum variant '");
                message.append(variant.as_str());
                message.append("': discriminant value is out of range for ");
                message.append(discriminant_ty.to_text().as_str());
                message.append(", preceding variant had value ");
                push_decimal(&mut message, *value_of_preceding_variant as u128);
            },
            InvalidEnumTypeError::InvalidDiscriminantValue { variant, discriminant_ty, value } => {
                message.append("invalid enum variant '");
                message.append(variant.as_str());
                message.append("': discriminant value ");
                push_decimal(&mut message, *value as u128);
                message.append(" is out of range for ");
                message.append(discriminant_ty.to_text().as_str());
            },
            InvalidEnumTypeError::DuplicateVariant { variant } => {
                message.append("invalid enum variant: '");
                message.append(variant.as_str());
                message.append("' cannot be defined twice in the same enum");
            },
            InvalidEnumTypeError::DuplicateDiscriminantValue { variant, value: _ } => {
                message.append("invalid enum variant '");
                message.append(variant.as_str());
                message.append("': discriminant value has already been claimed by a previous discriminant");
            },
        }
        assert(message@ =~= enum_message(self@));
        message
    }
}

impl RecursiveTypeError {
    /// What is said of the definitions.
    pub fn message(&self) -> (message: String)
        requires
            build_fault_printable(self@),
        ensures
            message@ == build_message(self@),
    {
        let mut message: String = String::new();
        match self {
            RecursiveTypeError::EmptyName => {
                message.append("invalid recursive type: definition name must not be empty");
            },
            RecursiveTypeError::DuplicateName(key) => {
                message.append("invalid recursive type: duplicate definition name '");
                message.append(key.as_str());
                message.append("'");
            },
            RecursiveTypeError::UndefinedReference(key) => {
                message.append("invalid recursive type: reference to undefined type '");
                message.append(key.as_str());
                message.append("'");
            },
            RecursiveTypeError::UnguardedRecursion(key) => {
                message.append("invalid recursive type: '");
                message.append(key.as_str());
                message.append("' is recursive without an intervening pointer, list, or function, so it would have infinite size");
            },
            RecursiveTypeError::GroupTooLarge(key, n) => {
                message.append("invalid recursive type: group containing '");
                message.append(key.as_str());
                message.append("' has ");
                push_decimal(&mut message, *n as u128);
                message.append(" definitions, but no more than 64 are allowed");
            },
            RecursiveTypeError::InvalidDefinition(error) => {
                message.append("invalid recursive type: ");
                message.append(error.message().as_str());
            },
            RecursiveTypeError::TooLarge(key) => {
                message.append("invalid recursive type: '");
                message.append(key.as_str());
                message.append("' cannot be laid out");
            },
        }
        assert(message@ =~= build_message(self@));
        message
    }
}

impl DecodeError {
    /// What is said of the bytes.
    pub fn message(&self) -> (message: String)
        requires
            decode_fault_printable(self@),
        ensures
            message@ == decode_message(self@),
    {
        let mut message: String = String::new();
        match self {
            DecodeError::UnexpectedEof => {
                message.append("unexpected end of file");
            },
            DecodeError::BudgetExhausted(n, left) => {
                message.append("budget exhausted: requested ");
                push_decimal(&mut message, *n as u128);
                message.append(" bytes, ");
                push_decimal(&mut message, *left as u128);
                message.append(" remaining");
            },
            DecodeError::NotBoolean(byte) => {
                push_decimal(&mut message, *byte as u128);
                message.append(" is not a boolean value");
            },
            DecodeError::ValueTooLarge => {
                message.append("value does not fit usize");
            },
            DecodeError::TooMany(Counted::Bytes, n, left) => {
                message.append("text of ");
                push_decimal(&mut message, *n as u128);
                message.append(" bytes exceeds budget ");
                push_decimal(&mut message, *left as u128);
            },
            DecodeError::TooMany(Counted::Params, n, left) => {
                message.append("function params count ");
                push_decimal(&mut message, *n as u128);
                message.append(" exceeds budget ");
                push_decimal(&mut message, *left as u128);
            },
            DecodeError::TooMany(Counted::Results, n, left) => {
                message.append("function results count ");
                push_decimal(&mut message, *n as u128);
                message.append(" exceeds budget ");
                push_decimal(&mut message, *left as u128);
            },
            DecodeError::TooMany(Counted::Variants, n, left) => {
                message.append("enum variant count ");
                push_decimal(&mut message, *n as u128);
                message.append(" exceeds budget ");
                push_decimal(&mut message, *left as u128);
            },
            DecodeError::TooMany(Counted::Definitions, n, left) => {
                message.append("invalid recursive type: group of ");
                push_decimal(&mut message, *n as u128);
                message.append(" definitions exceeds budget ");
                push_decimal(&mut message, *left as u128);
            },
            DecodeError::InvalidUtf8 => {
                message.append("text is not valid UTF-8");
            },
            DecodeError::NestingTooDeep => {
                message.append("type nesting exceeds limit");
            },
            DecodeError::InvalidTag(tag) => {
                message.append("invalid Type tag: ");
                push_decimal(&mut message, *tag as u128);
            },
            DecodeError::InvalidAddressSpace(tag) => {
                message.append("invalid AddressSpace tag: ");
                push_decimal(&mut message, *tag as u128);
            },
            DecodeError::InvalidCallConv(tag) => {
                message.append("invalid CallConv tag: ");
                push_decimal(&mut message, *tag as u128);
            },
            DecodeError::InvalidRepr(tag) => {
                message.append("invalid TypeRepr tag: ");
                push_decimal(&mut message, *tag as u128);
            },
            DecodeError::InvalidKind(tag) => {
                message.append("invalid recursive type: unknown aggregate kind tag ");
                push_decimal(&mut message, *tag as u128);
            },
            DecodeError::AlignmentNotPowerOfTwo => {
                message.append("invalid type repr: alignment must be a power of two");
            },
            DecodeError::PackedAlignmentNotPowerOfTwo => {
                message.append("invalid type repr: packed alignment must be a power of two");
            },
            DecodeError::FieldTooLarge => {
                message.append("invalid struct field: size exceeds u32::MAX bytes");
            },
            DecodeError::TransparentFields => {
                message.append("invalid transparent struct: expected at most one non-zero-sized field");
            },
            DecodeError::StructTooLarge => {
                message.append("invalid struct: size exceeds u32::MAX bytes");
            },
            DecodeError::ArrayTooLarge => {
                message.append("invalid array: size exceeds u32::MAX bytes");
            },
            DecodeError::VariadicOutsideSignature => {
                message.append("invalid type: a variadic type parameter is only valid in a function's parameter or result list");
            },
            DecodeError::VariadicNotLast => {
                message.append("invalid function type: a variadic type parameter must come last, and may appear at most once per list");
            },
            DecodeError::BackReferenceOutsideGroup => {
                message.append("invalid recursive type reference: a back-reference is only valid inside a recursive group body");
            },
            DecodeError::BackReferenceOutOfRange(i) => {
                message.append("invalid recursive type reference: index ");
                push_decimal(&mut message, *i as u128);
                message.append(" is out of range");
            },
            DecodeError::EmptyGroup => {
                message.append("invalid recursive type: group must contain at least one definition");
            },
            DecodeError::GroupTooLarge(n) => {
                message.append("invalid recursive type: group has ");
                push_decimal(&mut message, *n as u128);
                message.append(" definitions, but no more than 64 are allowed");
            },
            DecodeError::RootOutOfRange(i) => {
                message.append("invalid recursive type: root index ");
                push_decimal(&mut message, *i as u128);
                message.append(" is out of range");
            },
            DecodeError::InvalidEnum(error) => {
                message.append(error.message().as_str());
            },
            DecodeError::EnumTooLarge => {
                message.append("invalid enum: size exceeds u32::MAX bytes");
            },
            DecodeError::InvalidGroup(error) => {
                message.append(error.message().as_str());
            },
            DecodeError::NotCanonical => {
                message.append("invalid recursive type: definitions are not in canonical order");
            },
            DecodeError::NotOneGroup => {
                message.append("invalid recursive type: definitions do not form a single recursive group");
            },
        }
        assert(message@ =~= decode_message(self@));
        message
    }
}

impl InvalidAddressSpaceError {
    /// What is said of the name.
    pub fn message(&self) -> (message: String)
        ensures
            message@ == "invalid address space identifier: expected 'byte' or 'element'"@,
    {
        "invalid address space identifier: expected 'byte' or 'element'".to_owned()
    }
}

impl UnknownCallingConventionError {
    /// What is said of the name.
    pub fn message(&self) -> (message: String)
        ensures
            message@ == "unknown calling convention '"@ + self.0@ + "'"@,
    {
        let mut message: String = "unknown calling convention '".to_owned();
        message.append(self.0.as_str());
        message.append("'");
        message
    }
}

} // verus!
