use std::sync::Arc;

use miden_foundation::hir::codec::parse::MAX_TYPE_NESTING;
use miden_foundation::hir::codec::reader::{DecodeError, Reader};
use miden_foundation::hir::recursive::definitions::{Definitions, RecursiveTypeBuilder};
use miden_foundation::hir::recursive::template::{
    EnumTemplate, FieldTemplate, StructTemplate, TypeTemplate, VariantTemplate,
};
use miden_foundation::hir::shape::{AddressSpace, TypeRepr};
use miden_foundation::hir::struct_type::NameAndType;
use miden_foundation::hir::types::{
    ArrayType, CallConv, EnumRef, EnumType, FunctionType, PointerType, StructRef, StructType, Type,
    Variant, MAX_RECURSIVE_GROUP_SIZE,
};
use miden_serde_utils::ByteWriter;

fn field(name: &str, ty: TypeTemplate) -> FieldTemplate {
    FieldTemplate::named(name.to_string(), ty)
}

fn rec(key: &str) -> TypeTemplate {
    TypeTemplate::rec(key.to_string())
}

fn ptr(key: &str) -> TypeTemplate {
    TypeTemplate::ptr(rec(key))
}

fn closed(ty: Type) -> TypeTemplate {
    TypeTemplate::Type(ty)
}

fn named(name: &str, fields: Vec<FieldTemplate>) -> StructTemplate {
    StructTemplate::named(name.to_string(), TypeRepr::Default, fields)
}

fn anonymous(fields: Vec<FieldTemplate>) -> StructTemplate {
    StructTemplate::new(TypeRepr::Default, fields)
}

fn build(defs: Vec<(&str, StructTemplate)>) -> Definitions {
    let mut builder = RecursiveTypeBuilder::new();
    for (key, template) in defs {
        builder.define_struct(key.to_string(), template);
    }
    builder.build().expect("should build")
}

fn get<'a>(built: &'a Definitions, key: &str) -> &'a Type {
    built.get(&key.to_string()).expect("definition should exist")
}

fn plain(s: StructType) -> Type {
    Type::Struct(StructRef::Plain(Arc::new(s)))
}

fn round_trip(ty: &Type) -> Type {
    let bytes = ty.to_bytes();
    let mut reader = Reader::new(&bytes);
    let read = Type::read_from(&mut reader).expect("should decode");
    assert_eq!(reader.remaining(), 0);
    read
}

fn read(bytes: &[u8]) -> Result<Type, DecodeError> {
    Type::read_from(&mut Reader::new(bytes))
}

#[test]
fn self_recursive_struct_round_trips() {
    let fields = vec![field("value", closed(Type::U32)), field("next", ptr("Node"))];
    let built = build(vec![("Node", anonymous(fields))]);
    let node = get(&built, "Node");

    assert_eq!(&round_trip(node), node);
}

#[test]
fn recursion_through_list_and_function_barriers_round_trips() {
    let children = field("children", TypeTemplate::list(rec("Tree")));
    let call =
        TypeTemplate::function(CallConv::Fast, vec![rec("Callback")], vec![closed(Type::U32)]);
    let built = build(vec![
        ("Tree", named("Tree", vec![children])),
        ("Callback", named("Callback", vec![field("call", call)])),
    ]);

    for name in ["Tree", "Callback"] {
        let ty = get(&built, name);
        assert_eq!(&round_trip(ty), ty, "{name} should round trip");
    }
}

#[test]
fn recursion_nested_below_a_barrier_round_trips() {
    let option = TypeTemplate::struct_type(
        TypeRepr::Default,
        vec![field("some", rec("Node")), field("none", closed(Type::U8))],
    );
    let built = build(vec![("Node", named("Node", vec![field("next", TypeTemplate::ptr(option))]))]);
    let node = get(&built, "Node");

    assert_eq!(&round_trip(node), node);
}

#[test]
fn mutually_recursive_structs_round_trip_from_either_root() {
    let built = build(vec![
        ("A", anonymous(vec![field("b", ptr("B"))])),
        ("B", anonymous(vec![field("a", ptr("A"))])),
    ]);
    let (a, b) = (get(&built, "A"), get(&built, "B"));

    assert_eq!(&round_trip(a), a);
    assert_eq!(&round_trip(b), b);
}

#[test]
fn recursive_enum_round_trips() {
    let mut builder = RecursiveTypeBuilder::new();
    builder.define_enum(
        "List".to_string(),
        EnumTemplate::new(
            "List".to_string(),
            Type::U8,
            vec![
                VariantTemplate::c_like("Nil".to_string(), Some(0)),
                VariantTemplate::new("Cons".to_string(), ptr("List"), Some(1)),
            ],
        ),
    );
    let built = builder.build().expect("should build");
    let list = get(&built, "List");

    assert_eq!(&round_trip(list), list);
}

#[test]
fn a_recursive_type_nested_inside_an_ordinary_one_round_trips() {
    let built = build(vec![("Node", anonymous(vec![field("next", ptr("Node"))]))]);
    let node = round_trip(get(&built, "Node"));
    let outer = plain(StructType::named(
        "Outer".to_string(),
        vec![
            NameAndType::named("head".to_string(), node),
            NameAndType::named("count".to_string(), Type::U32),
        ],
    ));

    assert_eq!(round_trip(&outer), outer);
}

fn refusal(bytes: &[u8]) -> String {
    read(bytes).expect_err("expected the decoder to reject this").message()
}

#[test]
fn a_back_reference_outside_a_group_body_is_rejected() {
    let mut bytes = Vec::new();
    bytes.write_u8(24);
    bytes.write_u16(0);

    let message = refusal(&bytes);
    assert!(message.contains("recursive type reference"), "unexpected message: {message}");
}

#[test]
fn a_group_larger_than_the_cap_is_rejected_on_decode() {
    let mut bytes = Vec::new();
    bytes.write_u8(23);
    bytes.write_u16(MAX_RECURSIVE_GROUP_SIZE as u16 + 1);

    let message = refusal(&bytes);
    assert!(message.contains("recursive"), "unexpected message: {message}");
}

fn write_struct_body(bytes: &mut Vec<u8>, name: &str, field: &str, target: u16) {
    bytes.write_bool(true);
    write_str(bytes, name);
    bytes.write_u8(0); // the default representation
    bytes.write_u8(1); // one field
    bytes.write_bool(true);
    write_str(bytes, field);
    bytes.write_u8(16); // a pointer
    bytes.write_u8(0); // to a byte address
    bytes.write_u8(24); // of a back-reference
    bytes.write_u16(target);
}

#[test]
fn a_non_canonical_group_encoding_is_rejected() {
    let mut bytes = Vec::new();
    bytes.write_u8(23);
    bytes.write_u16(2);
    bytes.write_u8(0);
    bytes.write_u8(0);
    write_struct_body(&mut bytes, "Zebra", "a", 1);
    write_struct_body(&mut bytes, "Apple", "z", 0);
    bytes.write_u16(0);

    let message = refusal(&bytes);
    assert!(message.contains("canonical order"), "unexpected message: {message}");
}

#[test]
fn a_canonical_two_definition_encoding_is_accepted() {
    let mut bytes = Vec::new();
    bytes.write_u8(23);
    bytes.write_u16(2);
    bytes.write_u8(0);
    bytes.write_u8(0);
    write_struct_body(&mut bytes, "Apple", "z", 1);
    write_struct_body(&mut bytes, "Zebra", "a", 0);
    bytes.write_u16(0);

    let ty = read(&bytes).expect("should decode");
    let Type::Struct(apple) = &ty else { panic!("expected a struct") };
    assert_eq!(apple.name().as_deref(), Some("Apple"));
    assert!(apple.is_recursive());
}

/// A recursive group of one definition whose single field has the given type.
fn recursive_group_bytes(repr: &[u8], field_ty: &[u8]) -> Vec<u8> {
    let mut bytes = Vec::new();
    bytes.write_u8(23);
    bytes.write_u16(1);
    bytes.write_u8(0);
    bytes.write_bool(true);
    bytes.write_usize(1);
    bytes.write_bytes(b"T");
    bytes.write_bytes(repr);
    bytes.write_u8(1);
    bytes.write_bool(true);
    bytes.write_usize(1);
    bytes.write_bytes(b"f");
    bytes.write_bytes(field_ty);
    bytes.write_u16(0);
    bytes
}

#[test]
fn a_group_with_a_non_power_of_two_alignment_is_rejected() {
    let mut repr = Vec::new();
    repr.write_u8(1);
    repr.write_u16(3);
    let mut field = Vec::new();
    field.write_u8(16);
    field.write_u8(0);
    field.write_u8(24);
    field.write_u16(0);

    let message = refusal(&recursive_group_bytes(&repr, &field));
    assert!(message.contains("power of two"), "unexpected message: {message}");
}

#[test]
fn a_group_with_a_non_power_of_two_packed_alignment_is_rejected() {
    let mut repr = Vec::new();
    repr.write_u8(2);
    repr.write_u16(6);
    let mut field = Vec::new();
    field.write_u8(16);
    field.write_u8(0);
    field.write_u8(24);
    field.write_u16(0);

    let message = refusal(&recursive_group_bytes(&repr, &field));
    assert!(message.contains("power of two"), "unexpected message: {message}");
}

#[test]
fn a_group_with_an_oversized_array_is_rejected() {
    let mut field = Vec::new();
    field.write_u8(18);
    field.write_usize(usize::MAX);
    field.write_u8(16);
    field.write_u8(0);
    field.write_u8(24);
    field.write_u16(0);

    let message = refusal(&recursive_group_bytes(&[0], &field));
    assert!(message.contains("size exceeds"), "unexpected message: {message}");
}

#[test]
fn a_variadic_outside_a_function_signature_is_rejected() {
    let mut bytes = Vec::new();
    bytes.write_u8(17);
    bytes.write_bool(false);
    bytes.write_u8(0);
    bytes.write_u8(1);
    bytes.write_bool(false);
    bytes.write_u8(22);

    let message = refusal(&bytes);
    assert!(message.contains("variadic"), "unexpected message: {message}");
}

#[test]
fn a_variadic_before_another_parameter_is_rejected() {
    let mut bytes = Vec::new();
    bytes.write_u8(20);
    bytes.write_u8(0);
    bytes.write_usize(2);
    bytes.write_u8(22);
    bytes.write_u8(8);
    bytes.write_usize(0);

    let message = refusal(&bytes);
    assert!(message.contains("variadic"), "unexpected message: {message}");
}

#[test]
fn two_variadics_in_one_list_are_rejected() {
    let mut bytes = Vec::new();
    bytes.write_u8(20);
    bytes.write_u8(0);
    bytes.write_usize(2);
    bytes.write_u8(22);
    bytes.write_u8(22);
    bytes.write_usize(0);

    let message = refusal(&bytes);
    assert!(message.contains("variadic"), "unexpected message: {message}");
}

#[test]
fn a_trailing_variadic_in_a_signature_is_accepted() {
    let mut bytes = Vec::new();
    bytes.write_u8(20);
    bytes.write_u8(0);
    bytes.write_usize(2);
    bytes.write_u8(8);
    bytes.write_u8(22);
    bytes.write_usize(1);
    bytes.write_u8(22);

    let ty = read(&bytes).expect("should decode");
    let Type::Function(signature) = &ty else { panic!("expected a function") };
    assert_eq!(signature.params(), &[Type::U32, Type::Variadic]);
    assert_eq!(signature.results(), &[Type::Variadic]);
}

#[test]
fn recursive_array_with_oversized_closed_element_is_rejected() {
    let mut bytes = Vec::new();
    bytes.write_u8(23);
    bytes.write_u16(1);
    bytes.write_u8(0);
    bytes.write_bool(false);
    bytes.write_u8(0);
    bytes.write_u8(2);
    bytes.write_bool(false);
    bytes.write_u8(18);
    bytes.write_usize(usize::MAX);
    bytes.write_u8(17);
    bytes.write_bool(false);
    bytes.write_u8(0);
    bytes.write_u8(1);
    bytes.write_bool(false);
    bytes.write_u8(8);
    bytes.write_bool(false);
    bytes.write_u8(16);
    bytes.write_u8(0);
    bytes.write_u8(24);
    bytes.write_u16(0);
    bytes.write_u16(0);

    assert!(read(&bytes).is_err());
}

#[test]
fn a_recursive_group_holding_a_variadic_signature_round_trips() {
    let call = TypeTemplate::function(
        CallConv::Fast,
        vec![rec("Handler"), closed(Type::Variadic)],
        vec![],
    );
    let built = build(vec![("Handler", named("Handler", vec![field("call", call)]))]);
    let handler = get(&built, "Handler");

    assert_eq!(&round_trip(handler), handler);
}

#[test]
fn a_large_but_valid_recursive_array_is_accepted() {
    let many = TypeTemplate::array(closed(Type::U8), 3_000_000_000);
    let built =
        build(vec![("T", named("T", vec![field("bytes", many), field("next", ptr("T"))]))]);
    let ty = get(&built, "T");

    assert_eq!(&round_trip(ty), ty);
}

#[test]
fn a_recursive_array_of_c_like_enums_is_rejected() {
    let mut bytes = Vec::new();
    bytes.write_u8(23);
    bytes.write_u16(1);
    bytes.write_u8(0);
    bytes.write_bool(false);
    bytes.write_u8(0);
    bytes.write_u8(2);
    bytes.write_bool(false);
    bytes.write_u8(18);
    bytes.write_usize(usize::MAX);
    bytes.write_u8(21);
    bytes.write_usize(1);
    bytes.write_bytes(b"E");
    bytes.write_u8(4);
    bytes.write_usize(1);
    bytes.write_usize(1);
    bytes.write_bytes(b"V");
    bytes.write_bool(false);
    bytes.write_bool(true);
    bytes.write_u8(0);
    bytes.write_bool(false);
    bytes.write_u8(16);
    bytes.write_u8(0);
    bytes.write_u8(24);
    bytes.write_u16(0);
    bytes.write_u16(0);

    assert!(read(&bytes).is_err());
}

#[test]
fn an_empty_group_is_rejected() {
    let mut bytes = Vec::new();
    bytes.write_u8(23);
    bytes.write_u16(0);

    let message = refusal(&bytes);
    assert!(message.contains("at least one definition"), "unexpected message: {message}");
}

#[test]
fn struct_type_round_trips_at_the_maximum_field_count() {
    let fields = (0..255).map(|_| NameAndType::unnamed(Type::U8)).collect();
    let ty = plain(StructType::new(fields));

    assert_eq!(round_trip(&ty), ty);
}

#[test]
fn function_type_rejects_over_budget_params() {
    let mut bytes = Vec::new();
    bytes.write_u8(0);
    bytes.write_usize(5);
    let mut reader = Reader::with_budget(&bytes, 6);
    let message = FunctionType::read_from(&mut reader).unwrap_err().message();
    assert!(message.contains("function params count"));
}

#[test]
fn function_type_rejects_over_budget_results() {
    let mut bytes = Vec::new();
    bytes.write_u8(0);
    bytes.write_usize(0);
    bytes.write_usize(4);
    let mut reader = Reader::with_budget(&bytes, 6);
    let message = FunctionType::read_from(&mut reader).unwrap_err().message();
    assert!(message.contains("function results count"));
}

fn nested_pointers(depth: usize) -> Vec<u8> {
    let mut bytes = Vec::new();
    for _ in 0..depth {
        bytes.write_u8(16);
        bytes.write_u8(0);
    }
    bytes.write_u8(15);
    bytes
}

#[test]
fn type_deserializer_rejects_excessive_nesting() {
    let message = refusal(&nested_pointers(MAX_TYPE_NESTING + 1));
    assert!(message.contains("type nesting exceeds limit"));
}

#[test]
fn type_deserializer_allows_max_nesting() {
    let ty = read(&nested_pointers(MAX_TYPE_NESTING)).unwrap();
    assert!(matches!(ty, Type::Ptr(_)));
}

#[test]
fn list_type_has_fat_pointer_layout() {
    let ty = Type::List(Arc::new(Type::U8));

    assert_eq!(ty.min_alignment(), 4);
    assert_eq!(ty.size_in_bytes(), 8);
}

#[test]
fn struct_type_allows_zero_sized_and_list_fields() {
    let mut bytes = Vec::new();
    bytes.write_u8(17);
    bytes.write_bool(false);
    bytes.write_u8(0);
    bytes.write_u8(2);
    bytes.write_bool(false);
    bytes.write_u8(1);
    bytes.write_bool(false);
    bytes.write_u8(19);
    bytes.write_u8(4);

    let Type::Struct(struct_ty) = read(&bytes).unwrap() else { panic!("expected struct") };
    assert_eq!(struct_ty.get().fields().len(), 2);
    assert_eq!(struct_ty.size(), 8);
}

#[test]
fn transparent_struct_allows_only_zero_sized_fields() {
    let mut bytes = Vec::new();
    bytes.write_u8(17);
    bytes.write_bool(false);
    bytes.write_u8(3);
    bytes.write_u8(1);
    bytes.write_bool(false);
    bytes.write_u8(1);

    let Type::Struct(struct_ty) = read(&bytes).unwrap() else { panic!("expected struct") };
    assert_eq!(struct_ty.size(), 0);
}

#[test]
fn array_type_allows_zero_sized_elements_at_large_arity() {
    let mut bytes = Vec::new();
    bytes.write_u8(18);
    bytes.write_usize(usize::MAX);
    bytes.write_u8(1);

    assert!(read(&bytes).unwrap().is_zst());
}

#[test]
fn array_type_rejects_oversized_non_zero_elements() {
    let mut bytes = Vec::new();
    bytes.write_u8(18);
    bytes.write_usize(usize::MAX);
    bytes.write_u8(4);

    assert!(refusal(&bytes).contains("invalid array"));
}

#[test]
fn enum_type_allows_zero_sized_variant_payloads() {
    let mut bytes = Vec::new();
    bytes.write_u8(21);
    write_str(&mut bytes, "E");
    bytes.write_u8(4);
    bytes.write_usize(1);
    write_str(&mut bytes, "V");
    bytes.write_bool(true);
    bytes.write_u8(1);
    bytes.write_bool(false);

    assert!(matches!(read(&bytes).unwrap(), Type::Enum(_)));
}

fn function_of(nested: &[u8]) -> Vec<u8> {
    let mut bytes = Vec::new();
    bytes.write_u8(20);
    bytes.write_u8(0);
    bytes.write_usize(1);
    bytes.write_bytes(nested);
    bytes.write_usize(0);
    bytes
}

#[test]
fn function_type_rejects_nested_over_limit() {
    let bytes = function_of(&nested_pointers(MAX_TYPE_NESTING + 1));
    assert!(refusal(&bytes).contains("type nesting exceeds limit"));
}

#[test]
fn function_type_allows_nested_at_limit() {
    let ty = read(&function_of(&nested_pointers(MAX_TYPE_NESTING - 1))).unwrap();
    assert!(matches!(ty, Type::Function(_)));
}

fn write_str(buf: &mut Vec<u8>, s: &str) {
    buf.write_usize(s.len());
    buf.write_bytes(s.as_bytes());
}

fn nested_enum_bytes(depth: usize) -> Vec<u8> {
    let mut inner = Vec::new();
    inner.write_u8(15);

    for i in 0..depth {
        let mut bytes = Vec::new();
        bytes.write_u8(21);
        write_str(&mut bytes, &format!("E{i}"));
        bytes.write_u8(4);
        bytes.write_usize(1);
        write_str(&mut bytes, &format!("V{i}"));
        bytes.write_bool(true);
        bytes.write_bytes(&inner);
        bytes.write_bool(false);
        inner = bytes;
    }

    inner
}

#[test]
fn enum_type_rejects_nested_over_limit() {
    let bytes = nested_enum_bytes(MAX_TYPE_NESTING + 50);
    assert!(refusal(&bytes).contains("type nesting exceeds limit"));
}

// ---------------------------------------------------------------------------------------------
// Exact bytes, and every way to refuse them
// ---------------------------------------------------------------------------------------------

#[test]
fn bytes_of_ordinary_types() {
    assert_eq!(Type::Unknown.to_bytes(), [0]);
    assert_eq!(Type::Felt.to_bytes(), [15]);
    assert_eq!(Type::Variadic.to_bytes(), [22]);
    let pointer =
        PointerType::new_with_address_space(Type::I64, AddressSpace::Element);
    assert_eq!(Type::Ptr(Arc::new(pointer)).to_bytes(), [16, 1, 9]);
    let array = ArrayType::new(Type::U8, 3);
    // A length is written as a variable-length number: 3 in one byte is 2 * 3 + 1.
    assert_eq!(Type::Array(Arc::new(array)).to_bytes(), [18, 7, 4]);
    let function = FunctionType::new(CallConv::Extern("x".to_string()), vec![Type::I1], vec![]);
    assert_eq!(Type::Function(Arc::new(function)).to_bytes(), [20, 4, 3, b'x', 3, 2, 1]);
    let s = StructType::from_parts(
        Some("S".to_string()),
        TypeRepr::packed(2),
        vec![NameAndType::named("f".to_string(), Type::U16)],
    );
    assert_eq!(plain(s).to_bytes(), [17, 1, 3, b'S', 2, 2, 0, 1, 1, 3, b'f', 6]);
    let e = EnumType::new(
        "E".to_string(),
        Type::U16,
        vec![
            Variant::c_like("A".to_string(), Some(258)),
            Variant::new("B".to_string(), Type::U8, None),
        ],
    )
    .unwrap();
    let ty = Type::Enum(EnumRef::Plain(Arc::new(e)));
    assert_eq!(
        ty.to_bytes(),
        [21, 3, b'E', 6, 5, 3, b'A', 0, 1, 2, 1, 3, b'B', 1, 4, 0]
    );
    assert_eq!(round_trip(&ty), ty);
}

#[test]
fn bytes_of_a_recursive_type() {
    let built = build(vec![("N", anonymous(vec![field("n", ptr("N"))]))]);
    assert_eq!(
        get(&built, "N").to_bytes(),
        [23, 1, 0, 0, 0, 0, 1, 1, 3, b'n', 16, 0, 24, 0, 0, 0, 0]
    );
}

#[test]
fn what_follows_a_type_is_left_to_read() {
    let bytes = [4, 99, 98];
    let mut reader = Reader::new(&bytes);
    assert_eq!(Type::read_from(&mut reader).unwrap(), Type::U8);
    assert_eq!(reader.remaining(), 2);
    assert_eq!(reader.peek(), Some(99));
}

#[test]
fn malformed_bytes_are_refused() {
    let cases: Vec<(Vec<u8>, &str)> = vec![
        (vec![], "unexpected end of file"),
        (vec![99], "invalid Type tag: 99"),
        (vec![16, 2, 4], "invalid AddressSpace tag: 2"),
        (vec![20, 9], "invalid CallConv tag: 9"),
        (vec![17, 2], "2 is not a boolean value"),
        (vec![17, 0, 4], "invalid TypeRepr tag: 4"),
        (vec![17, 0, 1, 3, 0], "invalid type repr: alignment must be a power of two"),
        (vec![17, 0, 2, 0, 0], "invalid type repr: packed alignment must be a power of two"),
        (
            vec![17, 0, 3, 2, 0, 4, 0, 4],
            "invalid transparent struct: expected at most one non-zero-sized field",
        ),
        (vec![21, 3, 0xff, 4, 1], "text is not valid UTF-8"),
        (vec![21, 3, b'E', 13, 1], "invalid discriminant type 'u256': expected integer type"),
        (vec![23, 1, 0, 5], "invalid recursive type: unknown aggregate kind tag 5"),
        (vec![23, 9, 0, 0], "unexpected end of file"),
        (
            vec![23, 1, 0, 0, 0, 0, 1, 0, 16, 0, 24, 7, 0],
            "invalid recursive type reference: index 7 is out of range",
        ),
        (
            vec![23, 1, 0, 0, 0, 0, 1, 0, 16, 0, 24, 0, 0, 4, 0],
            "invalid recursive type: root index 4 is out of range",
        ),
        (
            vec![23, 1, 0, 0, 0, 0, 1, 0, 24, 0, 0, 0, 0],
            "invalid recursive type: '#0' is recursive without an intervening pointer, list, or \
             function, so it would have infinite size",
        ),
        (
            vec![23, 1, 0, 0, 0, 0, 0, 0, 0],
            "invalid recursive type: definitions do not form a single recursive group",
        ),
    ];
    for (bytes, expected) in cases {
        assert_eq!(refusal(&bytes), expected, "{bytes:?}");
    }
}

#[test]
fn a_budget_is_charged_for_every_byte() {
    let bytes = nested_pointers(2);
    let mut reader = Reader::with_budget(&bytes, 5);
    assert!(matches!(Type::read_from(&mut reader), Ok(Type::Ptr(_))));
    let mut reader = Reader::with_budget(&bytes, 4);
    let message = Type::read_from(&mut reader).unwrap_err().message();
    assert_eq!(message, "budget exhausted: requested 1 bytes, 0 remaining");
    let group = [23, 9, 0, 0];
    let mut reader = Reader::with_budget(&group, 4);
    let message = Type::read_from(&mut reader).unwrap_err().message();
    assert_eq!(message, "invalid recursive type: group of 9 definitions exceeds budget 1");
    let text = [21, 21, b'E'];
    let mut reader = Reader::with_budget(&text, 3);
    assert!(Type::read_from(&mut reader).is_err());
}

#[test]
fn sizes_beyond_32_bits_are_refused() {
    let huge = {
        let mut bytes = vec![18];
        bytes.write_usize(0xffff_ffff);
        bytes.write_u8(4);
        bytes
    };
    let mut two = vec![17, 0, 0, 2];
    for _ in 0..2 {
        two.write_u8(0);
        two.write_bytes(&huge);
    }
    assert_eq!(refusal(&two), "invalid struct: size exceeds u32::MAX bytes");
}

#[test]
fn a_recursive_array_of_phantom_enums_is_accepted() {
    let phantom = EnumType::phantom("P".to_string(), Type::U8).expect("a discriminant");
    let phantom = Type::Enum(EnumRef::Plain(Arc::new(phantom)));
    let many = TypeTemplate::array(closed(phantom), 1 << 33);
    let built = build(vec![("T", named("T", vec![field("p", many), field("next", ptr("T"))]))]);
    let ty = get(&built, "T");

    assert_eq!(&round_trip(ty), ty);
}

#[test]
fn unfolding_an_enum_keeps_name_size_and_alignment() {
    let mut builder = RecursiveTypeBuilder::new();
    let cons = VariantTemplate::new("Cons".to_string(), ptr("List"), None);
    let nil = VariantTemplate::c_like("Nil".to_string(), None);
    let list = EnumTemplate::new("List".to_string(), Type::U8, vec![nil, cons]);
    builder.define_enum("List".to_string(), list);
    let built = builder.build().expect("should build");
    let Type::Enum(list) = get(&built, "List") else { panic!("expected an enum") };

    let unfolded = list.get();
    assert_eq!(unfolded.size_in_bytes(), 8);
    assert_eq!(unfolded.size_in_bytes(), list.size_in_bytes());
    assert_eq!(unfolded.min_alignment(), 4);
    assert_ne!(&Type::Enum(EnumRef::Plain(unfolded)), get(&built, "List"));
}

#[test]
fn what_was_read_reads_back() {
    // The length of the array takes nine bytes, and one when it is written again.
    let wide = [18, 0, 3, 0, 0, 0, 0, 0, 0, 0, 4];
    let ty = read(&wide).expect("should decode");
    assert_eq!(ty, Type::Array(Arc::new(ArrayType::new(Type::U8, 3))));
    assert_eq!(ty.to_bytes(), [18, 7, 4]);
    assert_eq!(round_trip(&ty), ty);

    let mut group = Vec::new();
    group.write_u8(23);
    group.write_u16(2);
    group.write_u8(0);
    group.write_u8(0);
    write_struct_body(&mut group, "Apple", "z", 1);
    write_struct_body(&mut group, "Zebra", "a", 0);
    group.write_u16(1);
    let ty = read(&group).expect("should decode");
    assert_eq!(ty.to_bytes(), group);
    assert_eq!(round_trip(&ty), ty);
}
