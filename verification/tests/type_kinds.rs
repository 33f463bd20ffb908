use std::sync::Arc;

use miden_foundation::hir::shape::{AddressSpace, TypeRepr};
use miden_foundation::hir::struct_type::NameAndType;
use miden_foundation::hir::types::{
    ArrayType, CallConv, FunctionType, PointerType, StructType, Type,
};

#[test]
fn integers_are_told_from_other_types() {
    let integers = [
        Type::I1,
        Type::I8,
        Type::U8,
        Type::I16,
        Type::U16,
        Type::I32,
        Type::U32,
        Type::I64,
        Type::U64,
        Type::I128,
        Type::U128,
        Type::U256,
        Type::Felt,
    ];
    for ty in &integers {
        assert!(ty.is_integer(), "{ty:?}");
        assert!(ty.is_numeric(), "{ty:?}");
        assert!(!ty.is_float(), "{ty:?}");
        assert!(!ty.is_pointer(), "{ty:?}");
    }
    assert!(!Type::F64.is_integer());
    assert!(Type::F64.is_numeric());
    assert!(Type::F64.is_float());
    assert!(!Type::Never.is_numeric());
    assert!(!Type::Unknown.is_integer());
    assert!(Type::Felt.is_felt());
    assert!(!Type::U64.is_felt());
}

#[test]
fn signs_go_over_into_each_other() {
    let pairs = [
        (Type::I8, Type::U8),
        (Type::I16, Type::U16),
        (Type::I32, Type::U32),
        (Type::I64, Type::U64),
        (Type::I128, Type::U128),
    ];
    for (signed, unsigned) in &pairs {
        assert!(signed.is_signed_integer() && !signed.is_unsigned_integer());
        assert!(unsigned.is_unsigned_integer() && !unsigned.is_signed_integer());
        assert_eq!(signed.as_unsigned(), *unsigned);
        assert_eq!(unsigned.as_signed(), *signed);
        assert_eq!(signed.as_signed(), *signed);
        assert_eq!(unsigned.as_unsigned(), *unsigned);
    }
    assert!(Type::I1.is_unsigned_integer());
    assert!(!Type::Felt.is_signed_integer());
    assert!(Type::U256.is_unsigned_integer() && !Type::U256.is_signed_integer());
    assert!(!Type::Felt.is_unsigned_integer());
}

#[test]
fn compound_types_are_told_apart() {
    let pointer = Type::Ptr(Arc::new(PointerType::new(Type::U32)));
    let array = Type::Array(Arc::new(ArrayType::new(Type::U16, 5)));
    let list = Type::List(Arc::new(Type::Felt));
    let function = Type::Function(Arc::new(FunctionType::new(CallConv::Fast, vec![], vec![])));

    assert!(pointer.is_pointer() && !array.is_pointer());
    assert!(array.is_array() && !list.is_array());
    assert!(list.is_list() && !function.is_list());
    assert!(function.is_function() && !pointer.is_function());
    assert!(!pointer.is_struct() && !Type::U8.is_struct());
    assert_eq!(pointer.pointee(), Some(&Type::U32));
    assert_eq!(array.pointee(), None);
}

#[test]
fn pointers_know_their_address_space() {
    let byte = PointerType::new(Type::U8);
    let element = PointerType::new_with_address_space(Type::U8, AddressSpace::Element);
    assert!(byte.is_byte_pointer());
    assert!(!element.is_byte_pointer());
    assert_eq!(byte.addrspace().as_str(), "byte");
    assert_eq!(element.addrspace().as_str(), "element");
    assert_eq!(element.pointee(), &Type::U8);
}

#[test]
fn address_spaces_are_named() {
    assert!(matches!(AddressSpace::from_name("byte"), Ok(AddressSpace::Byte)));
    assert!(matches!(AddressSpace::from_name("element"), Ok(AddressSpace::Element)));
    assert!(AddressSpace::from_name("Byte").is_err());
    assert!(AddressSpace::from_name("").is_err());
}

#[test]
fn arrays_know_their_elements() {
    let array = ArrayType::new(Type::U16, 5);
    assert_eq!(array.len(), 5);
    assert_eq!(array.element_type(), &Type::U16);
    assert_eq!(array.size_in_bits(), 80);
    assert_eq!(array.min_alignment(), 2);
    assert!(!array.is_zst());
    assert!(ArrayType::new(Type::U16, 0).is_zst());
}

#[test]
fn functions_keep_their_signature() {
    let function =
        FunctionType::new(CallConv::Fast, vec![Type::U32, Type::Felt], vec![Type::I64]);
    assert_eq!(function.arity(), 2);
    assert_eq!(function.params(), &vec![Type::U32, Type::Felt]);
    assert_eq!(function.results(), &vec![Type::I64]);
    assert_eq!(function.calling_convention(), CallConv::Fast);

    let other = function.with_calling_convention(CallConv::ComponentModel);
    assert!(other.calling_convention().is_wasm_canonical_abi());
    assert!(!CallConv::Wasm.is_wasm_canonical_abi());
    assert_eq!(other.params(), &vec![Type::U32, Type::Felt]);
    assert_eq!(other.results(), &vec![Type::I64]);
}

#[test]
fn representations_are_told_apart() {
    assert!(TypeRepr::packed(2).is_packed());
    assert!(!TypeRepr::align(2).is_packed());
    assert!(TypeRepr::Transparent.is_transparent());
    assert!(!TypeRepr::Default.is_transparent());
    assert_eq!(TypeRepr::packed(2).min_alignment(), Some(2));
    assert_eq!(TypeRepr::align(16).min_alignment(), Some(16));
    assert_eq!(TypeRepr::Default.min_alignment(), None);
}

#[test]
fn a_struct_that_cannot_be_laid_out_is_no_struct() {
    let fields = vec![NameAndType::named("a".to_string(), Type::U32)];
    let made = StructType::try_from_parts(Some("S".to_string()), TypeRepr::Default, fields)
        .expect("should fit");
    assert_eq!(made.name().as_deref(), Some("S"));
    assert_eq!(made.min_alignment(), 4);

    let huge = Type::Array(Arc::new(ArrayType::new(Type::U64, 1 << 30)));
    let fields = vec![NameAndType::unnamed(huge)];
    assert!(StructType::try_from_parts(None, TypeRepr::Default, fields).is_none());
}

#[test]
fn a_struct_is_aligned_at_least_as_its_fields_are() {
    let aligned = |repr: TypeRepr, ty: Type| {
        StructType::try_from_parts(None, repr, vec![NameAndType::unnamed(ty)])
            .expect("should fit")
            .min_alignment()
    };
    assert_eq!(aligned(TypeRepr::align(1), Type::U32), 4);
    assert_eq!(aligned(TypeRepr::align(16), Type::U32), 16);
    assert_eq!(aligned(TypeRepr::packed(1), Type::U32), 1);
    assert_eq!(aligned(TypeRepr::packed(2), Type::U32), 2);
    assert_eq!(aligned(TypeRepr::packed(16), Type::U32), 4);
    assert_eq!(aligned(TypeRepr::Default, Type::U32), 4);
}

#[test]
fn parsed_conventions_keep_their_names() {
    for (text, name) in [
        ("fast", "fast"),
        ("C", "C"),
        ("wasm", "wasm"),
        ("Wasm", "wasm"),
        ("canon-lift", "component-model"),
        ("component-model", "component-model"),
        ("syscall", "syscall"),
        ("", ""),
    ] {
        let abi: CallConv = text.parse().expect("every text names a convention");
        assert_eq!(abi.as_str(), name);
        assert_eq!(abi, CallConv::from_name(text));
        assert_eq!(abi.as_str().parse::<CallConv>().expect("a name"), abi);
    }
    assert_eq!("wasm".parse::<CallConv>().expect("a name"), CallConv::Wasm);
    assert_eq!("x".parse::<CallConv>().expect("a name"), CallConv::Extern("x".to_string()));
}

#[test]
fn address_spaces_are_parsed() {
    assert_eq!("byte".parse::<AddressSpace>().expect("a name"), AddressSpace::Byte);
    assert_eq!("element".parse::<AddressSpace>().expect("a name"), AddressSpace::Element);
    for text in ["", "Byte", "bytes", "word"] {
        assert!(text.parse::<AddressSpace>().is_err(), "{text}");
    }
}
