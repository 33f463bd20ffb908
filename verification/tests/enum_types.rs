use std::sync::Arc;

use miden_foundation::hir::enum_type::InvalidEnumTypeError;
use miden_foundation::hir::struct_type::NameAndType;
use miden_foundation::hir::types::{EnumType, StructRef, StructType, Type, Variant};

fn c_like(name: &str, value: Option<u128>) -> Variant {
    Variant::c_like(name.to_string(), value)
}

fn make(name: &str, discriminant: Type, variants: Vec<Variant>) -> Result<EnumType, String> {
    EnumType::new(name.to_string(), discriminant, variants).map_err(|error| error.message())
}

#[test]
fn phantom_enum_type() {
    let ty = make("T", Type::U32, vec![]).unwrap();
    assert!(ty.is_phantom());
    assert!(ty.is_zst());
    assert!(!ty.is_c_like());
    assert_eq!(ty.size_in_bytes(), 0);
    assert_eq!(ty.size_in_bits(), 0);
    assert_eq!(ty.min_alignment(), 1);
}

#[test]
fn c_like_enum_types() {
    let ty = make("Bool", Type::I1, vec![c_like("True", Some(1)), c_like("False", Some(0))]).unwrap();
    assert!(!ty.is_phantom());
    assert!(!ty.is_zst());
    assert!(ty.is_c_like());
    assert_eq!(ty.size_in_bytes(), 1);
    assert_eq!(ty.size_in_bits(), 8);
    assert_eq!(ty.min_alignment(), 1);
    assert_eq!(ty.variants()[0].discriminant_value, Some(1));
    assert_eq!(ty.variants()[1].discriminant_value, Some(0));
    let offsets: Vec<u32> = ty.variant_offsets().iter().map(|(offset, _)| *offset).collect();
    assert_eq!(offsets, [0, 0]);

    let ty = make(
        "Triple",
        Type::U32,
        vec![c_like("One", None), c_like("Two", Some(3)), c_like("Three", None)],
    )
    .unwrap();
    assert!(!ty.is_phantom());
    assert!(!ty.is_zst());
    assert!(ty.is_c_like());
    assert_eq!(ty.size_in_bytes(), 4);
    assert_eq!(ty.size_in_bits(), 32);
    assert_eq!(ty.min_alignment(), 4);
    assert_eq!(ty.discriminant_values(), [0, 3, 4]);
}

#[test]
fn rust_like_enum_type() {
    let pair =
        StructType::new(vec![NameAndType::unnamed(Type::U32), NameAndType::unnamed(Type::U64)]);
    let ty = make(
        "T",
        Type::U8,
        vec![
            c_like("A", None),
            Variant::new("B".to_string(), Type::U32, Some(3)),
            Variant::new("C".to_string(), Type::Struct(StructRef::Plain(Arc::new(pair))), None),
        ],
    )
    .unwrap();

    assert!(!ty.is_phantom());
    assert!(!ty.is_zst());
    assert!(!ty.is_c_like());
    assert_eq!(ty.size_in_bytes(), 16);
    assert_eq!(ty.size_in_bits(), 128);
    assert_eq!(ty.min_alignment(), 4);
    assert_eq!(ty.discriminant_values(), [0, 3, 4]);
    let offsets: Vec<u32> = ty.variant_offsets().iter().map(|(offset, _)| *offset).collect();
    assert_eq!(offsets, [0, 4, 4]);
}

#[test]
#[should_panic = "'A' cannot be defined twice in the same enum"]
fn duplicate_variants_are_caught() {
    make("T", Type::U32, vec![c_like("A", None), c_like("A", None)])
        .unwrap_or_else(|err| panic!("{err}"));
}

#[test]
#[should_panic = "discriminant value has already been claimed"]
fn duplicate_discriminant_values_are_caught() {
    make("T", Type::U32, vec![c_like("A", Some(1)), c_like("B", Some(1))])
        .unwrap_or_else(|err| panic!("{err}"));
}

#[test]
#[should_panic = "discriminant value 256 is out of range for u8"]
fn out_of_range_discriminant_values_are_caught() {
    make("T", Type::U8, vec![c_like("A", Some(256))]).unwrap_or_else(|err| panic!("{err}"));
}

#[test]
#[should_panic = "discriminant value is out of range for u8, preceding variant had value 255"]
fn out_of_range_implicit_discriminant_values_are_caught() {
    make("T", Type::U8, vec![c_like("A", Some(255)), c_like("B", None)])
        .unwrap_or_else(|err| panic!("{err}"));
}

#[test]
fn only_integers_of_at_most_128_bits_discriminate() {
    for ty in [Type::U256, Type::F64, Type::Never] {
        let shown = ty.to_text();
        let error = make("T", ty, vec![]).unwrap_err();
        assert_eq!(error, format!("invalid discriminant type '{shown}': expected integer type"));
    }
    for ty in [Type::I1, Type::Felt, Type::U128, Type::I64] {
        assert!(make("T", ty, vec![]).is_ok());
    }
}

#[test]
fn the_largest_variant_decides_the_size() {
    // The largest payload comes first, so that the last variant must not overwrite its size.
    let ty = make(
        "T",
        Type::U8,
        vec![Variant::new("A".to_string(), Type::U64, None), c_like("B", None)],
    )
    .unwrap();
    assert_eq!(ty.size_in_bytes(), 12);
    assert_eq!(ty.min_alignment(), 4);
}

#[test]
fn errors_name_what_they_are_about() {
    let error = EnumType::new(
        "T".to_string(),
        Type::U8,
        vec![c_like("A", Some(1)), c_like("B", Some(1))],
    )
    .unwrap_err();
    assert!(matches!(
        error,
        InvalidEnumTypeError::DuplicateDiscriminantValue { ref variant, value: 1 } if variant == "A"
    ));
}
