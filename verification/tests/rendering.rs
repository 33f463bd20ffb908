use std::sync::Arc;

use miden_foundation::hir::render::Document;
use miden_foundation::hir::shape::TypeRepr;
use miden_foundation::hir::struct_type::NameAndType;
use miden_foundation::hir::types::{
    ArrayType, CallConv, EnumRef, EnumType, FunctionType, PointerType, StructRef, StructType, Type,
    Variant,
};

fn named(name: &str, ty: Type) -> NameAndType {
    NameAndType::named(name.to_string(), ty)
}

fn plain(s: StructType) -> Type {
    Type::Struct(StructRef::Plain(Arc::new(s)))
}

#[test]
fn types_are_shown_on_one_line_where_they_fit() {
    assert_eq!(Type::Unknown.to_text(), "?");
    assert_eq!(Type::Never.to_text(), "!");
    assert_eq!(Type::Variadic.to_text(), "...");
    assert_eq!(Type::Felt.to_text(), "felt");
    assert_eq!(Type::Ptr(Arc::new(PointerType::new(Type::U8))).to_text(), "ptr<byte, u8>");
    assert_eq!(Type::Array(Arc::new(ArrayType::new(Type::U16, 120))).to_text(), "[u16; 120]");
    assert_eq!(Type::List(Arc::new(Type::I1)).to_text(), "list<i1>");
    let f = FunctionType::new(CallConv::C, vec![Type::U8, Type::U32], vec![Type::I64, Type::Felt]);
    assert_eq!(Type::Function(Arc::new(f)).to_text(), "extern \"C\" fn(u8, u32) -> i64, felt");
    let f = FunctionType::new(CallConv::Fast, vec![], vec![]);
    assert_eq!(Type::Function(Arc::new(f)).to_text(), "extern \"fast\" fn()");
}

#[test]
fn aggregates_are_shown_with_their_parts() {
    let s = StructType::named("P".to_string(), vec![named("x", Type::U8), named("y", Type::U8)]);
    assert_eq!(plain(s).to_text(), "struct P {x : u8, y : u8}");
    let s = StructType::new_with_repr(TypeRepr::align(16), vec![NameAndType::unnamed(Type::U8)]);
    assert_eq!(plain(s).to_text(), "struct #[repr(align(16))] {u8}");
    let e = EnumType::new(
        "E".to_string(),
        Type::U8,
        vec![
            Variant::c_like("A".to_string(), Some(3)),
            Variant::new("B".to_string(), Type::U32, None),
        ],
    )
    .unwrap();
    let ty = Type::Enum(EnumRef::Plain(Arc::new(e)));
    assert_eq!(ty.to_text(), "enum E : u8{A = 3, B(u32)}");
}

#[test]
fn long_aggregates_are_broken_line_by_line() {
    let s = StructType::named("P".to_string(), vec![named("x", Type::U8), named("y", Type::U8)]);
    let doc = plain(s).render();
    assert!(doc.is_printable());
    assert_eq!(doc.print(20), "struct P {\n    x : u8\n    y : u8}");
    assert_eq!(doc.print(60), "struct P {x : u8, y : u8}");
}

#[test]
fn copies_are_the_same() {
    let doc = Document::Concat(
        Box::new(Document::Text("a".to_string())),
        Box::new(Document::Indent(2, Box::new(Document::Newline))),
    );
    assert_eq!(doc.copy(), doc);
    let deep = Document::Indent(40_000, Box::new(Document::Indent(40_000, Box::new(doc))));
    assert!(!deep.is_printable());
}
