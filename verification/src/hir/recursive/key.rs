//! Keys that put the definitions of a group in order.
use vstd::prelude::*;
use vstd::utf8::encode_utf8;

use crate::hir::codec::bytes::write_bytes;
use crate::hir::layout::types_are_closed;
use crate::hir::recursive::scope::{
    subst, subst_all, subst_closed, subst_enum, subst_fields, subst_struct, subst_unfold,
    subst_variants, Meaning, Names,
};
use crate::hir::recursive::shown::{show_type, spine};
use crate::hir::recursive::spelling::{spell_enum_template, spell_struct_template, spelled};
use crate::hir::recursive::template::{
    enum_template_shape, enum_template_wf, field_template_shapes, struct_template_shape,
    struct_template_wf, template_shape_unfold, template_shapes, template_wf, variant_template_shape,
    variant_template_shapes, EnumTemplate, StructTemplate, TypeTemplate,
};
use crate::hir::shape::{AbiShape, AddressSpace, FieldShape, Shape, TypeRepr, VariantShape};
use crate::hir::types::{
    abi_shape, enum_shape, field_shapes, function_shape, function_wf, label, shape_unfold, shapes,
    struct_shape, variant_shape, variant_shapes, variants_wf, wf, wf_unfold, CallConv, EnumRef,
    EnumType, FunctionType, StructRef, StructType, Type,
};

verus! {

/// The bytes of a text.
#[verifier::opaque]
pub open spec fn lit(s: &str) -> Seq<u8> {
    encode_utf8(s@)
}

/// A number in decimal digits.
pub open spec fn decimal(n: nat) -> Seq<u8>
    decreases n,
{
    if n < 10 {
        seq![(48 + n) as u8]
    } else {
        decimal(n / 10) + seq![(48 + n % 10) as u8]
    }
}

/// A text between quotation marks, with what cannot be shown escaped.
pub uninterp spec fn quoted(text: Seq<char>) -> Seq<char>;

/// Quotes a text, by the `Debug` formatting of `str`, which depends on the text alone. Nothing more
/// is claimed of what it gives, not even that it tells texts apart: the exact spelling of a
/// definition, which does, follows the key in the order.
#[verifier::external_body]
fn quote(text: &str) -> (shown: String)
    ensures
        shown@ == quoted(text@),
{
    format!("{:?}", text)
}

#[verifier::opaque]
pub open spec fn quoted_bytes(text: Seq<char>) -> Seq<u8> {
    encode_utf8(quoted(text))
}

pub open spec fn label_text(name: Option<Seq<char>>) -> Seq<u8> {
    match name {
        Some(name) => lit("Some(") + quoted_bytes(name) + lit(")"),
        None => lit("None"),
    }
}

pub open spec fn repr_text(repr: TypeRepr) -> Seq<u8> {
    match repr {
        TypeRepr::Default => lit("Default"),
        TypeRepr::Align(align) => lit("Align(") + decimal(align as nat) + lit(")"),
        TypeRepr::Packed(align) => lit("Packed(") + decimal(align as nat) + lit(")"),
        TypeRepr::Transparent => lit("Transparent"),
    }
}

pub open spec fn abi_key_text(abi: AbiShape) -> Seq<u8> {
    match abi {
        AbiShape::Fast => lit("Fast"),
        AbiShape::C => lit("C"),
        AbiShape::Wasm => lit("Wasm"),
        AbiShape::ComponentModel => lit("ComponentModel"),
        AbiShape::Extern(name) => lit("Extern(") + quoted_bytes(name) + lit(")"),
    }
}

pub open spec fn discriminant_text(value: Option<u128>) -> Seq<u8> {
    match value {
        Some(value) => lit("Some(") + decimal(value as nat) + lit(")"),
        None => lit("None"),
    }
}

pub open spec fn addrspace_text(addrspace: AddressSpace) -> Seq<u8> {
    match addrspace {
        AddressSpace::Byte => lit("p[Byte]"),
        AddressSpace::Element => lit("p[Element]"),
    }
}

/// The name of a type without parts.
pub open spec fn atom_text(t: Shape) -> Seq<u8> {
    match t {
        Shape::Unknown => lit("Unknown"),
        Shape::Never => lit("Never"),
        Shape::Variadic => lit("Variadic"),
        Shape::I1 => lit("I1"),
        Shape::I8 => lit("I8"),
        Shape::U8 => lit("U8"),
        Shape::I16 => lit("I16"),
        Shape::U16 => lit("U16"),
        Shape::I32 => lit("I32"),
        Shape::U32 => lit("U32"),
        Shape::I64 => lit("I64"),
        Shape::U64 => lit("U64"),
        Shape::I128 => lit("I128"),
        Shape::U128 => lit("U128"),
        Shape::U256 => lit("U256"),
        Shape::F64 => lit("F64"),
        _ => lit("Felt"),
    }
}

/// An exact text of a type, in which all definitions of the group read the same, so that it does
/// not depend on the order of the definitions.
///
/// Every part is written with its length or a delimiter, and nothing is left out. A completed
/// recursive type is written in full, with its layout.
pub open spec fn key(t: Shape) -> Seq<u8>
    decreases t,
{
    match t {
        Shape::Var(_) => lit("v[]"),
        Shape::Name(_) => lit("v[]"),
        Shape::Ptr(addrspace, pointee) => addrspace_text(addrspace) + key(*pointee),
        Shape::Array(element, n) => lit("a[") + decimal(n) + lit("]") + key(*element),
        Shape::List(element) => lit("l[]") + key(*element),
        Shape::Function(f) => lit("f[") + abi_key_text(f.abi) + lit(",") + decimal(f.params.len())
            + lit(",") + decimal(f.results.len()) + lit("]") + key_of_all(f.params) + key_of_all(
            f.results,
        ),
        Shape::Struct(s) => lit("s[") + label_text(s.name) + lit(",") + repr_text(s.repr) + lit(
            ",",
        ) + decimal(s.fields.len()) + lit("]") + key_of_fields(s.fields),
        Shape::Enum(e) => lit("e[") + quoted_bytes(e.name) + lit(",") + discriminant_type_text(
            *e.discriminant,
        ) + lit(",") + decimal(e.variants.len()) + lit("]") + key_of_variants(e.variants),
        Shape::Rec(_, _) => lit("t[") + spine(t, false, Seq::empty()) + lit("]"),
        _ => lit("t[") + atom_text(t) + lit("]"),
    }
}

/// The name of a discriminant's type. Only integers are valid there.
pub open spec fn discriminant_type_text(t: Shape) -> Seq<u8> {
    if crate::hir::enum_rules::is_integer(t) {
        atom_text(t)
    } else {
        Seq::empty()
    }
}

pub open spec fn key_of_all(types: Seq<Shape>) -> Seq<u8>
    decreases types,
{
    if types.len() == 0 {
        Seq::empty()
    } else {
        key_of_all(types.drop_last()) + key(types[types.len() - 1])
    }
}

pub open spec fn key_of_fields(fields: Seq<FieldShape>) -> Seq<u8>
    decreases fields,
{
    if fields.len() == 0 {
        Seq::empty()
    } else {
        let last = fields[fields.len() - 1];
        key_of_fields(fields.drop_last()) + (lit("n[") + label_text(last.name) + lit("]") + key(
            last.ty,
        ))
    }
}

pub open spec fn key_of_variants(variants: Seq<VariantShape>) -> Seq<u8>
    decreases variants,
{
    if variants.len() == 0 {
        Seq::empty()
    } else {
        let last = variants[variants.len() - 1];
        key_of_variants(variants.drop_last()) + (lit("w[") + quoted_bytes(last.name) + lit(",")
            + discriminant_text(last.discriminant_value) + lit("]") + (match last.value {
            Some(value) => key(value),
            None => lit("z[]"),
        }))
    }
}

/// The declared name of a definition.
pub open spec fn body_name(body: Shape) -> Option<Seq<char>> {
    match body {
        Shape::Struct(s) => s.name,
        Shape::Enum(e) => Some(e.name),
        _ => None,
    }
}

pub open spec fn widened(bytes: Seq<u8>, by: u16) -> Seq<u16> {
    Seq::new(bytes.len(), |i: int| (bytes[i] + by) as u16)
}

/// What a group's definitions are ordered by: the declared name, the kind, and the key. A missing
/// name comes before any other, and a name before all that it begins. The spelling comes last, so
/// that definitions are ordered alike only where they are the same but for their references inside
/// the group.
pub open spec fn order_key(body: Shape) -> Seq<u16> {
    (match body_name(body) {
        Some(name) => seq![1u16] + widened(encode_utf8(name), 1) + seq![0u16],
        None => seq![0u16],
    }) + seq![if body is Struct {
        0u16
    } else {
        1u16
    }] + widened(key(body), 1) + seq![0u16] + widened(spelled(body, true), 0)
}

// ---------------------------------------------------------------------------------------------
// Writing keys
// ---------------------------------------------------------------------------------------------

pub(crate) fn put(out: &mut Vec<u8>, text: &str)
    ensures
        final(out)@ == old(out)@ + lit(text),
{
    proof {
        reveal(lit);
    }
    write_bytes(out, text.as_bytes());
}

pub(crate) fn put_quoted(out: &mut Vec<u8>, text: &String)
    ensures
        final(out)@ == old(out)@ + quoted_bytes(text@),
{
    proof {
        reveal(quoted_bytes);
    }
    let shown = quote(text.as_str());
    write_bytes(out, shown.as_str().as_bytes());
}

pub(crate) fn put_decimal(out: &mut Vec<u8>, n: u128)
    ensures
        final(out)@ == old(out)@ + decimal(n as nat),
    decreases n,
{
    let ghost start = out@;
    if n >= 10 {
        put_decimal(out, n / 10);
    }
    let ghost head = out@;
    out.push(48 + (n % 10) as u8);
    proof {
        if n >= 10 {
            assert(out@ =~= start + decimal(n as nat));
        } else {
            assert(out@ =~= start + decimal(n as nat));
        }
    }
}

pub(crate) fn put_label(out: &mut Vec<u8>, name: &Option<String>)
    ensures
        final(out)@ == old(out)@ + label_text(label(*name)),
{
    let ghost start = out@;
    match name {
        Some(name) => {
            put(out, "Some(");
            put_quoted(out, name);
            put(out, ")");
            assert(out@ =~= start + label_text(Some(name@)));
        },
        None => {
            put(out, "None");
        },
    }
}

pub(crate) fn put_repr(out: &mut Vec<u8>, repr: TypeRepr)
    ensures
        final(out)@ == old(out)@ + repr_text(repr),
{
    let ghost start = out@;
    match repr {
        TypeRepr::Default => {
            put(out, "Default");
        },
        TypeRepr::Align(align) => {
            put(out, "Align(");
            put_decimal(out, align as u128);
            put(out, ")");
        },
        TypeRepr::Packed(align) => {
            put(out, "Packed(");
            put_decimal(out, align as u128);
            put(out, ")");
        },
        TypeRepr::Transparent => {
            put(out, "Transparent");
        },
    }
    assert(out@ =~= start + repr_text(repr));
}

pub(crate) fn put_abi(out: &mut Vec<u8>, abi: &CallConv)
    ensures
        final(out)@ == old(out)@ + abi_key_text(abi_shape(*abi)),
{
    let ghost start = out@;
    match abi {
        CallConv::Fast => {
            put(out, "Fast");
        },
        CallConv::C => {
            put(out, "C");
        },
        CallConv::Wasm => {
            put(out, "Wasm");
        },
        CallConv::ComponentModel => {
            put(out, "ComponentModel");
        },
        CallConv::Extern(name) => {
            put(out, "Extern(");
            put_quoted(out, name);
            put(out, ")");
            assert(out@ =~= start + abi_key_text(AbiShape::Extern(name@)));
        },
    }
}

pub(crate) fn put_discriminant(out: &mut Vec<u8>, value: Option<u128>)
    ensures
        final(out)@ == old(out)@ + discriminant_text(value),
{
    let ghost start = out@;
    match value {
        Some(value) => {
            put(out, "Some(");
            put_decimal(out, value);
            put(out, ")");
            assert(out@ =~= start + discriminant_text(Some(value)));
        },
        None => {
            put(out, "None");
        },
    }
}

fn put_addrspace(out: &mut Vec<u8>, addrspace: AddressSpace)
    ensures
        final(out)@ == old(out)@ + addrspace_text(addrspace),
{
    match addrspace {
        AddressSpace::Byte => {
            put(out, "p[Byte]");
        },
        AddressSpace::Element => {
            put(out, "p[Element]");
        },
    }
}

pub open spec fn is_atom(t: Type) -> bool {
    !(t is Ptr || t is Struct || t is Enum || t is Array || t is List || t is Function)
}

pub(crate) fn put_atom(out: &mut Vec<u8>, t: &Type)
    requires
        is_atom(*t),
    ensures
        final(out)@ == old(out)@ + atom_text(t@),
{
    proof {
        shape_unfold(t);
    }
    match t {
        Type::Unknown => {
            put(out, "Unknown");
        },
        Type::Never => {
            put(out, "Never");
        },
        Type::Variadic => {
            put(out, "Variadic");
        },
        Type::I1 => {
            put(out, "I1");
        },
        Type::I8 => {
            put(out, "I8");
        },
        Type::U8 => {
            put(out, "U8");
        },
        Type::I16 => {
            put(out, "I16");
        },
        Type::U16 => {
            put(out, "U16");
        },
        Type::I32 => {
            put(out, "I32");
        },
        Type::U32 => {
            put(out, "U32");
        },
        Type::I64 => {
            put(out, "I64");
        },
        Type::U64 => {
            put(out, "U64");
        },
        Type::I128 => {
            put(out, "I128");
        },
        Type::U128 => {
            put(out, "U128");
        },
        Type::U256 => {
            put(out, "U256");
        },
        Type::F64 => {
            put(out, "F64");
        },
        _ => {
            put(out, "Felt");
        },
    }
}

fn put_discriminant_type(out: &mut Vec<u8>, t: &Type)
    ensures
        final(out)@ == old(out)@ + discriminant_type_text(t@),
{
    let ghost start = out@;
    if t.is_integer() {
        proof {
            shape_unfold(t);
        }
        put_atom(out, t);
    } else {
        assert(start + Seq::<u8>::empty() =~= start);
    }
}

proof fn key_of_all_step(types: Seq<Shape>, i: int)
    requires
        0 <= i < types.len(),
    ensures
        key_of_all(types.take(i + 1)) == key_of_all(types.take(i)) + key(types[i]),
{
    assert(types.take(i + 1).drop_last() =~= types.take(i));
}

proof fn key_of_fields_step(fields: Seq<FieldShape>, i: int)
    requires
        0 <= i < fields.len(),
    ensures
        key_of_fields(fields.take(i + 1)) == key_of_fields(fields.take(i)) + (lit("n[")
            + label_text(fields[i].name) + lit("]") + key(fields[i].ty)),
{
    assert(fields.take(i + 1).drop_last() =~= fields.take(i));
}

proof fn key_of_variants_step(variants: Seq<VariantShape>, i: int)
    requires
        0 <= i < variants.len(),
    ensures
        key_of_variants(variants.take(i + 1)) == key_of_variants(variants.take(i)) + (lit("w[")
            + quoted_bytes(variants[i].name) + lit(",") + discriminant_text(
            variants[i].discriminant_value,
        ) + lit("]") + (match variants[i].value {
            Some(value) => key(value),
            None => lit("z[]"),
        })),
{
    assert(variants.take(i + 1).drop_last() =~= variants.take(i));
}

/// Writes the key of a completed type.
fn write_type_key(t: &Type, out: &mut Vec<u8>)
    requires
        wf(*t),
    ensures
        final(out)@ == old(out)@ + key(t@),
    decreases *t,
{
    let ghost start = out@;
    proof {
        wf_unfold(t);
        shape_unfold(t);
    }
    match t {
        Type::Ptr(p) => {
            put_addrspace(out, p.addrspace);
            write_type_key(&p.pointee, out);
            assert(out@ =~= start + key(t@));
        },
        Type::Array(a) => {
            put(out, "a[");
            put_decimal(out, a.len as u128);
            put(out, "]");
            write_type_key(&a.ty, out);
            assert(out@ =~= start + key(t@));
        },
        Type::List(element) => {
            put(out, "l[]");
            write_type_key(element, out);
            assert(out@ =~= start + key(t@));
        },
        Type::Function(f) => {
            write_function_key(f, out);
        },
        Type::Struct(StructRef::Plain(s)) => {
            write_struct_key(s, out);
        },
        Type::Enum(EnumRef::Plain(e)) => {
            write_enum_key(e, out);
        },
        Type::Struct(StructRef::Rec(_)) => {
            put(out, "t[");
            show_type(t, out);
            put(out, "]");
            assert(out@ =~= start + key(t@));
        },
        Type::Enum(EnumRef::Rec(_)) => {
            put(out, "t[");
            show_type(t, out);
            put(out, "]");
            assert(out@ =~= start + key(t@));
        },
        _ => {
            put(out, "t[");
            put_atom(out, t);
            put(out, "]");
            assert(out@ =~= start + key(t@));
        },
    }
}

fn write_function_key(f: &FunctionType, out: &mut Vec<u8>)
    requires
        function_wf(*f),
    ensures
        final(out)@ == old(out)@ + key(Shape::Function(function_shape(*f))),
    decreases *f,
{
    let ghost start = out@;
    put(out, "f[");
    put_abi(out, &f.abi);
    put(out, ",");
    put_decimal(out, f.params.len() as u128);
    put(out, ",");
    put_decimal(out, f.results.len() as u128);
    put(out, "]");
    write_type_keys(&f.params, out);
    write_type_keys(&f.results, out);
    assert(out@ =~= start + key(Shape::Function(function_shape(*f))));
}

fn write_type_keys(types: &Vec<Type>, out: &mut Vec<u8>)
    requires
        forall|i: int| 0 <= i < types@.len() ==> wf(#[trigger] types@[i]),
    ensures
        final(out)@ == old(out)@ + key_of_all(shapes(types@)),
    decreases *types,
{
    let ghost start = out@;
    let ghost all = shapes(types@);
    let mut i: usize = 0;
    assert(out@ =~= start + key_of_all(all.take(0)));
    while i < types.len()
        invariant
            i <= types@.len(),
            forall|i: int| 0 <= i < types@.len() ==> wf(#[trigger] types@[i]),
            all == shapes(types@),
            out@ == start + key_of_all(all.take(i as int)),
        decreases types@.len() - i,
    {
        write_type_key(&types[i], out);
        proof {
            key_of_all_step(all, i as int);
            assert(out@ =~= start + key_of_all(all.take(i + 1)));
        }
        i += 1;
    }
    assert(all.take(types@.len() as int) =~= all);
}

fn write_struct_key(s: &StructType, out: &mut Vec<u8>)
    requires
        forall|i: int| 0 <= i < s.fields@.len() ==> wf((#[trigger] s.fields@[i]).ty),
    ensures
        final(out)@ == old(out)@ + key(Shape::Struct(struct_shape(*s))),
    decreases *s,
{
    let ghost start = out@;
    let ghost all = field_shapes(s.fields@);
    put(out, "s[");
    put_label(out, &s.name);
    put(out, ",");
    put_repr(out, s.repr);
    put(out, ",");
    put_decimal(out, s.fields.len() as u128);
    put(out, "]");
    let ghost head = out@;
    let mut i: usize = 0;
    assert(out@ =~= head + key_of_fields(all.take(0)));
    while i < s.fields.len()
        invariant
            i <= s.fields@.len(),
            forall|i: int| 0 <= i < s.fields@.len() ==> wf((#[trigger] s.fields@[i]).ty),
            all == field_shapes(s.fields@),
            out@ == head + key_of_fields(all.take(i as int)),
        decreases s.fields@.len() - i,
    {
        put(out, "n[");
        put_label(out, &s.fields[i].name);
        put(out, "]");
        write_type_key(&s.fields[i].ty, out);
        proof {
            key_of_fields_step(all, i as int);
            assert(out@ =~= head + key_of_fields(all.take(i + 1)));
        }
        i += 1;
    }
    assert(all.take(s.fields@.len() as int) =~= all);
    assert(out@ =~= start + key(Shape::Struct(struct_shape(*s))));
}

fn write_enum_key(e: &EnumType, out: &mut Vec<u8>)
    requires
        variants_wf(e.variants@),
    ensures
        final(out)@ == old(out)@ + key(Shape::Enum(enum_shape(*e))),
    decreases *e,
{
    let ghost start = out@;
    let ghost all = variant_shapes(e.variants@);
    put(out, "e[");
    put_quoted(out, &e.name);
    put(out, ",");
    put_discriminant_type(out, &e.discriminant);
    put(out, ",");
    put_decimal(out, e.variants.len() as u128);
    put(out, "]");
    let ghost head = out@;
    let mut i: usize = 0;
    assert(out@ =~= head + key_of_variants(all.take(0)));
    while i < e.variants.len()
        invariant
            i <= e.variants@.len(),
            variants_wf(e.variants@),
            all == variant_shapes(e.variants@),
            out@ == head + key_of_variants(all.take(i as int)),
        decreases e.variants@.len() - i,
    {
        let variant = &e.variants[i];
        assert(all[i as int] == variant_shape(*variant));
        put(out, "w[");
        put_quoted(out, &variant.name);
        put(out, ",");
        put_discriminant(out, variant.discriminant_value);
        put(out, "]");
        match &variant.value {
            Some(value) => {
                write_type_key(value, out);
            },
            None => {
                put(out, "z[]");
            },
        }
        proof {
            key_of_variants_step(all, i as int);
            assert(out@ =~= head + key_of_variants(all.take(i + 1)));
        }
        i += 1;
    }
    assert(all.take(e.variants@.len() as int) =~= all);
    assert(out@ =~= start + key(Shape::Enum(enum_shape(*e))));
}

/// Writes the key of a template whose names are replaced.
pub fn write_blind_key(t: &TypeTemplate, names: &Names, out: &mut Vec<u8>)
    requires
        names.wf(),
        template_wf(*t),
    ensures
        final(out)@ == old(out)@ + key(subst(t@, names@)),
    decreases *t,
{
    let ghost start = out@;
    proof {
        template_shape_unfold(t);
        subst_unfold(t@, names@);
        reveal(template_wf);
    }
    match t {
        TypeTemplate::Type(ty) => {
            proof {
                types_are_closed(ty);
                subst_closed(ty@, names@);
            }
            write_type_key(ty, out);
        },
        TypeTemplate::Rec(key) => match names.look_up(key) {
            Meaning::Done(ty) => {
                write_type_key(ty, out);
            },
            Meaning::Slot(_) => {
                put(out, "v[]");
            },
            Meaning::Open => {
                put(out, "v[]");
            },
        },
        TypeTemplate::Ptr(addrspace, pointee) => {
            put_addrspace(out, *addrspace);
            write_blind_key(pointee, names, out);
            assert(out@ =~= start + key(subst(t@, names@)));
        },
        TypeTemplate::Array(element, len) => {
            put(out, "a[");
            put_decimal(out, *len as u128);
            put(out, "]");
            write_blind_key(element, names, out);
            assert(out@ =~= start + key(subst(t@, names@)));
        },
        TypeTemplate::List(element) => {
            put(out, "l[]");
            write_blind_key(element, names, out);
            assert(out@ =~= start + key(subst(t@, names@)));
        },
        TypeTemplate::Function(f) => {
            put(out, "f[");
            put_abi(out, &f.abi);
            put(out, ",");
            put_decimal(out, f.params.len() as u128);
            put(out, ",");
            put_decimal(out, f.results.len() as u128);
            put(out, "]");
            write_blind_keys(&f.params, names, out);
            write_blind_keys(&f.results, names, out);
            assert(out@ =~= start + key(subst(t@, names@)));
        },
        TypeTemplate::Struct(s) => {
            write_blind_struct_key(s, names, out);
        },
        TypeTemplate::Enum(e) => {
            write_blind_enum_key(e, names, out);
        },
    }
}

fn write_blind_keys(types: &Vec<TypeTemplate>, names: &Names, out: &mut Vec<u8>)
    requires
        names.wf(),
        forall|i: int| 0 <= i < types@.len() ==> template_wf(#[trigger] types@[i]),
    ensures
        final(out)@ == old(out)@ + key_of_all(subst_all(template_shapes(types@), names@)),
    decreases *types,
{
    let ghost start = out@;
    let ghost all = subst_all(template_shapes(types@), names@);
    let mut i: usize = 0;
    assert(out@ =~= start + key_of_all(all.take(0)));
    while i < types.len()
        invariant
            i <= types@.len(),
            names.wf(),
            forall|i: int| 0 <= i < types@.len() ==> template_wf(#[trigger] types@[i]),
            all == subst_all(template_shapes(types@), names@),
            out@ == start + key_of_all(all.take(i as int)),
        decreases types@.len() - i,
    {
        write_blind_key(&types[i], names, out);
        proof {
            key_of_all_step(all, i as int);
            assert(out@ =~= start + key_of_all(all.take(i + 1)));
        }
        i += 1;
    }
    assert(all.take(types@.len() as int) =~= all);
}

/// Writes the key of a struct definition.
pub fn write_blind_struct_key(s: &StructTemplate, names: &Names, out: &mut Vec<u8>)
    requires
        names.wf(),
        struct_template_wf(*s),
    ensures
        final(out)@ == old(out)@ + key(
            Shape::Struct(subst_struct(struct_template_shape(*s), names@)),
        ),
    decreases *s,
{
    let ghost start = out@;
    let ghost all = subst_fields(field_template_shapes(s.fields@), names@);
    put(out, "s[");
    put_label(out, &s.name);
    put(out, ",");
    put_repr(out, s.repr);
    put(out, ",");
    put_decimal(out, s.fields.len() as u128);
    put(out, "]");
    let ghost head = out@;
    let mut i: usize = 0;
    assert(out@ =~= head + key_of_fields(all.take(0)));
    while i < s.fields.len()
        invariant
            i <= s.fields@.len(),
            names.wf(),
            struct_template_wf(*s),
            all == subst_fields(field_template_shapes(s.fields@), names@),
            out@ == head + key_of_fields(all.take(i as int)),
        decreases s.fields@.len() - i,
    {
        put(out, "n[");
        put_label(out, &s.fields[i].name);
        put(out, "]");
        write_blind_key(&s.fields[i].ty, names, out);
        proof {
            key_of_fields_step(all, i as int);
            assert(out@ =~= head + key_of_fields(all.take(i + 1)));
        }
        i += 1;
    }
    assert(all.take(s.fields@.len() as int) =~= all);
    assert(out@ =~= start + key(Shape::Struct(subst_struct(struct_template_shape(*s), names@))));
}

/// Writes the key of an enum definition.
pub fn write_blind_enum_key(e: &EnumTemplate, names: &Names, out: &mut Vec<u8>)
    requires
        names.wf(),
        enum_template_wf(*e),
    ensures
        final(out)@ == old(out)@ + key(Shape::Enum(subst_enum(enum_template_shape(*e), names@))),
    decreases *e,
{
    let ghost start = out@;
    let ghost all = subst_variants(variant_template_shapes(e.variants@), names@);
    proof {
        types_are_closed(&e.discriminant);
        subst_closed(e.discriminant@, names@);
    }
    put(out, "e[");
    put_quoted(out, &e.name);
    put(out, ",");
    put_discriminant_type(out, &e.discriminant);
    put(out, ",");
    put_decimal(out, e.variants.len() as u128);
    put(out, "]");
    let ghost head = out@;
    let mut i: usize = 0;
    assert(out@ =~= head + key_of_variants(all.take(0)));
    while i < e.variants.len()
        invariant
            i <= e.variants@.len(),
            names.wf(),
            enum_template_wf(*e),
            all == subst_variants(variant_template_shapes(e.variants@), names@),
            out@ == head + key_of_variants(all.take(i as int)),
        decreases e.variants@.len() - i,
    {
        let variant = &e.variants[i];
        assert(variant_template_shapes(e.variants@)[i as int] == variant_template_shape(*variant));
        put(out, "w[");
        put_quoted(out, &variant.name);
        put(out, ",");
        put_discriminant(out, variant.discriminant_value);
        put(out, "]");
        match &variant.value {
            Some(value) => {
                write_blind_key(value, names, out);
            },
            None => {
                put(out, "z[]");
            },
        }
        proof {
            key_of_variants_step(all, i as int);
            assert(out@ =~= head + key_of_variants(all.take(i + 1)));
        }
        i += 1;
    }
    assert(all.take(e.variants@.len() as int) =~= all);
    assert(out@ =~= start + key(Shape::Enum(subst_enum(enum_template_shape(*e), names@))));
}

pub fn widen(bytes: &[u8], by: u16, out: &mut Vec<u16>)
    requires
        by <= 1,
    ensures
        final(out)@ == old(out)@ + widened(bytes@, by),
{
    let ghost start = out@;
    let mut i: usize = 0;
    while i < bytes.len()
        invariant
            i <= bytes@.len(),
            by <= 1,
            out@ =~= start + widened(bytes@, by).take(i as int),
        decreases bytes@.len() - i,
    {
        out.push(bytes[i] as u16 + by);
        i += 1;
    }
    assert(widened(bytes@, by).take(bytes@.len() as int) =~= widened(bytes@, by));
}

fn put_number(out: &mut Vec<u16>, n: u16)
    ensures
        final(out)@ == old(out)@ + seq![n],
{
    let ghost start = out@;
    out.push(n);
    assert(out@ =~= start + seq![n]);
}

fn put_order_name(out: &mut Vec<u16>, name: &String)
    ensures
        final(out)@ == old(out)@ + (seq![1u16] + widened(encode_utf8(name@), 1) + seq![0u16]),
{
    let ghost start = out@;
    put_number(out, 1);
    widen(name.as_str().as_bytes(), 1, out);
    put_number(out, 0);
    assert(out@ =~= start + (seq![1u16] + widened(encode_utf8(name@), 1) + seq![0u16]));
}

/// What a struct definition is ordered by.
pub fn struct_order_key(s: &StructTemplate, names: &Names) -> (made: Vec<u16>)
    requires
        names.wf(),
        struct_template_wf(*s),
    ensures
        made@ == order_key(Shape::Struct(subst_struct(struct_template_shape(*s), names@))),
{
    let mut made: Vec<u16> = Vec::new();
    match &s.name {
        Some(name) => {
            put_order_name(&mut made, name);
        },
        None => {
            put_number(&mut made, 0);
        },
    }
    put_number(&mut made, 0);
    let mut text: Vec<u8> = Vec::new();
    write_blind_struct_key(s, names, &mut text);
    widen(text.as_slice(), 1, &mut made);
    put_number(&mut made, 0);
    let mut spelling: Vec<u8> = Vec::new();
    spell_struct_template(s, names, &mut spelling);
    widen(spelling.as_slice(), 0, &mut made);
    let ghost body = Shape::Struct(subst_struct(struct_template_shape(*s), names@));
    assert(text@ =~= key(body));
    assert(spelling@ =~= spelled(body, true));
    assert(made@ =~= order_key(body));
    made
}

/// What an enum definition is ordered by.
pub fn enum_order_key(e: &EnumTemplate, names: &Names) -> (made: Vec<u16>)
    requires
        names.wf(),
        enum_template_wf(*e),
    ensures
        made@ == order_key(Shape::Enum(subst_enum(enum_template_shape(*e), names@))),
{
    let mut made: Vec<u16> = Vec::new();
    put_order_name(&mut made, &e.name);
    put_number(&mut made, 1);
    let mut text: Vec<u8> = Vec::new();
    write_blind_enum_key(e, names, &mut text);
    widen(text.as_slice(), 1, &mut made);
    put_number(&mut made, 0);
    let mut spelling: Vec<u8> = Vec::new();
    spell_enum_template(e, names, &mut spelling);
    widen(spelling.as_slice(), 0, &mut made);
    let ghost body = Shape::Enum(subst_enum(enum_template_shape(*e), names@));
    assert(text@ =~= key(body));
    assert(spelling@ =~= spelled(body, true));
    assert(made@ =~= order_key(body));
    made
}

} // verus!
