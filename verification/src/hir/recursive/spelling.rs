//! Spellings: texts that tell definitions apart, but for the definitions of the group that they
//! refer to.
use vstd::prelude::*;
use vstd::utf8::encode_utf8;

use crate::hir::codec::bytes::write_bytes;
use crate::hir::codec::encode::{addrspace_tag, atom_tag};
use crate::hir::function_type::abi_tag;
use crate::hir::layout::types_are_closed;
use crate::hir::recursive::key::{decimal, put_decimal};
use crate::hir::recursive::scope::{
    subst, subst_all, subst_closed, subst_enum, subst_fields, subst_struct, subst_unfold,
    subst_variants, Meaning, Names,
};
use crate::hir::recursive::template::{
    enum_template_shape, enum_template_wf, field_template_shapes, struct_template_shape,
    struct_template_wf, template_shape_unfold, template_shapes, template_wf, variant_template_shape,
    variant_template_shapes, EnumTemplate, StructTemplate, TypeTemplate,
};
use crate::hir::shape::{AbiShape, AddressSpace, FieldShape, Shape, TypeRepr, VariantShape};
use crate::hir::types::{
    abi_shape, body_shapes, enum_shape, field_shapes, function_shape, label, open_enum_shape,
    open_field_shapes, open_shape_unfold, open_shapes, open_struct_shape, open_variant_shapes,
    shape_unfold, shapes, struct_shape, variant_shapes, CallConv, EnumRef, EnumType, FunctionType,
    OpenAggregate, OpenEnumType, OpenStructType, OpenType, RecTypeRef, StructRef, StructType, Type,
};

verus! {

/// A number, and where it ends.
pub open spec fn counted(n: nat) -> Seq<u8> {
    decimal(n) + seq![93u8]
}

/// A text: the number of its bytes, and the bytes.
pub open spec fn spelled_text(text: Seq<char>) -> Seq<u8> {
    counted(encode_utf8(text).len()) + encode_utf8(text)
}

pub open spec fn spelled_label(name: Option<Seq<char>>) -> Seq<u8> {
    match name {
        Some(name) => seq![1u8] + spelled_text(name),
        None => seq![0u8],
    }
}

pub open spec fn spelled_repr(repr: TypeRepr) -> Seq<u8> {
    match repr {
        TypeRepr::Default => seq![0u8],
        TypeRepr::Align(align) => seq![1u8] + counted(align as nat),
        TypeRepr::Packed(align) => seq![2u8] + counted(align as nat),
        TypeRepr::Transparent => seq![3u8],
    }
}

pub open spec fn spelled_abi(abi: AbiShape) -> Seq<u8> {
    match abi {
        AbiShape::Extern(name) => seq![4u8] + spelled_text(name),
        _ => seq![abi_tag(abi)],
    }
}

pub open spec fn spelled_value(value: Option<u128>) -> Seq<u8> {
    match value {
        Some(value) => seq![1u8] + counted(value as nat),
        None => seq![0u8],
    }
}

/// A type in full. Where `hidden`, all references to definitions of the group read the same.
pub open spec fn spelled(t: Shape, hidden: bool) -> Seq<u8>
    decreases t,
{
    match t {
        Shape::Var(i) => if hidden {
            seq![0u8]
        } else {
            seq![1u8] + counted(i)
        },
        Shape::Name(key) => if hidden {
            seq![0u8]
        } else {
            seq![2u8] + spelled_text(key)
        },
        Shape::Ptr(addrspace, pointee) => seq![3u8] + (seq![addrspace_tag(addrspace)] + spelled(
            *pointee,
            hidden,
        )),
        Shape::Array(element, n) => seq![4u8] + (counted(n) + spelled(*element, hidden)),
        Shape::List(element) => seq![5u8] + spelled(*element, hidden),
        Shape::Function(f) => seq![6u8] + (spelled_abi(f.abi) + (counted(f.params.len()) + (counted(
            f.results.len(),
        ) + (spelled_all(f.params, hidden) + spelled_all(f.results, hidden))))),
        Shape::Struct(s) => seq![7u8] + (spelled_label(s.name) + (spelled_repr(s.repr) + (counted(
            s.fields.len(),
        ) + spelled_fields(s.fields, hidden)))),
        Shape::Enum(e) => seq![8u8] + (spelled_text(e.name) + (spelled(*e.discriminant, false) + (
        counted(e.variants.len()) + spelled_variants(e.variants, hidden)))),
        Shape::Rec(definitions, i) => seq![9u8] + (counted(i) + (counted(definitions.len())
            + spelled_all(definitions, false))),
        _ => seq![(10 + atom_tag(t)) as u8],
    }
}

pub open spec fn spelled_all(types: Seq<Shape>, hidden: bool) -> Seq<u8>
    decreases types,
{
    if types.len() == 0 {
        Seq::empty()
    } else {
        spelled_all(types.drop_last(), hidden) + spelled(types[types.len() - 1], hidden)
    }
}

pub open spec fn spelled_fields(fields: Seq<FieldShape>, hidden: bool) -> Seq<u8>
    decreases fields,
{
    if fields.len() == 0 {
        Seq::empty()
    } else {
        let last = fields[fields.len() - 1];
        spelled_fields(fields.drop_last(), hidden) + (spelled_label(last.name) + spelled(
            last.ty,
            hidden,
        ))
    }
}

pub open spec fn spelled_variants(variants: Seq<VariantShape>, hidden: bool) -> Seq<u8>
    decreases variants,
{
    if variants.len() == 0 {
        Seq::empty()
    } else {
        let last = variants[variants.len() - 1];
        spelled_variants(variants.drop_last(), hidden) + (spelled_text(last.name) + (spelled_value(
            last.discriminant_value,
        ) + (match last.value {
            Some(value) => seq![1u8] + spelled(value, hidden),
            None => seq![0u8],
        })))
    }
}

proof fn spelled_all_step(types: Seq<Shape>, hidden: bool, i: int)
    requires
        0 <= i < types.len(),
    ensures
        spelled_all(types.take(i + 1), hidden) == spelled_all(types.take(i), hidden) + spelled(
            types[i],
            hidden,
        ),
{
    assert(types.take(i + 1).drop_last() =~= types.take(i));
}

proof fn spelled_fields_step(fields: Seq<FieldShape>, hidden: bool, i: int)
    requires
        0 <= i < fields.len(),
    ensures
        spelled_fields(fields.take(i + 1), hidden) == spelled_fields(fields.take(i), hidden) + (
        spelled_label(fields[i].name) + spelled(fields[i].ty, hidden)),
{
    assert(fields.take(i + 1).drop_last() =~= fields.take(i));
}

proof fn spelled_variants_step(variants: Seq<VariantShape>, hidden: bool, i: int)
    requires
        0 <= i < variants.len(),
    ensures
        spelled_variants(variants.take(i + 1), hidden) == spelled_variants(
            variants.take(i),
            hidden,
        ) + (spelled_text(variants[i].name) + (spelled_value(variants[i].discriminant_value) + (
        match variants[i].value {
            Some(value) => seq![1u8] + spelled(value, hidden),
            None => seq![0u8],
        }))),
{
    assert(variants.take(i + 1).drop_last() =~= variants.take(i));
}

// ---------------------------------------------------------------------------------------------
// Writing spellings
// ---------------------------------------------------------------------------------------------

fn put_byte(out: &mut Vec<u8>, byte: u8)
    ensures
        final(out)@ == old(out)@ + seq![byte],
{
    let ghost start = out@;
    out.push(byte);
    assert(out@ =~= start + seq![byte]);
}

fn put_count(out: &mut Vec<u8>, n: u128)
    ensures
        final(out)@ == old(out)@ + counted(n as nat),
{
    let ghost start = out@;
    put_decimal(out, n);
    put_byte(out, 93);
    assert(out@ =~= start + counted(n as nat));
}

fn put_text(out: &mut Vec<u8>, text: &String)
    ensures
        final(out)@ == old(out)@ + spelled_text(text@),
{
    let ghost start = out@;
    let bytes = text.as_str().as_bytes();
    put_count(out, bytes.len() as u128);
    write_bytes(out, bytes);
    assert(out@ =~= start + spelled_text(text@));
}

fn put_label(out: &mut Vec<u8>, name: &Option<String>)
    ensures
        final(out)@ == old(out)@ + spelled_label(label(*name)),
{
    let ghost start = out@;
    match name {
        Some(name) => {
            put_byte(out, 1);
            put_text(out, name);
            assert(out@ =~= start + spelled_label(Some(name@)));
        },
        None => {
            put_byte(out, 0);
        },
    }
}

fn put_repr(out: &mut Vec<u8>, repr: TypeRepr)
    ensures
        final(out)@ == old(out)@ + spelled_repr(repr),
{
    let ghost start = out@;
    match repr {
        TypeRepr::Default => {
            put_byte(out, 0);
        },
        TypeRepr::Align(align) => {
            put_byte(out, 1);
            put_count(out, align as u128);
        },
        TypeRepr::Packed(align) => {
            put_byte(out, 2);
            put_count(out, align as u128);
        },
        TypeRepr::Transparent => {
            put_byte(out, 3);
        },
    }
    assert(out@ =~= start + spelled_repr(repr));
}

fn put_abi(out: &mut Vec<u8>, abi: &CallConv)
    ensures
        final(out)@ == old(out)@ + spelled_abi(abi_shape(*abi)),
{
    let ghost start = out@;
    match abi {
        CallConv::Extern(name) => {
            put_byte(out, 4);
            put_text(out, name);
            assert(out@ =~= start + spelled_abi(AbiShape::Extern(name@)));
        },
        _ => {
            put_byte(out, abi.tag());
        },
    }
}

fn put_value(out: &mut Vec<u8>, value: Option<u128>)
    ensures
        final(out)@ == old(out)@ + spelled_value(value),
{
    let ghost start = out@;
    match value {
        Some(value) => {
            put_byte(out, 1);
            put_count(out, value);
            assert(out@ =~= start + spelled_value(Some(value)));
        },
        None => {
            put_byte(out, 0);
        },
    }
}

fn put_addrspace(out: &mut Vec<u8>, addrspace: AddressSpace)
    ensures
        final(out)@ == old(out)@ + seq![addrspace_tag(addrspace)],
{
    match addrspace {
        AddressSpace::Byte => {
            put_byte(out, 0);
        },
        AddressSpace::Element => {
            put_byte(out, 1);
        },
    }
}

/// Writes the spelling of a completed type.
fn spell_type(t: &Type, out: &mut Vec<u8>, Ghost(hidden): Ghost<bool>)
    ensures
        final(out)@ == old(out)@ + spelled(t@, hidden),
    decreases *t,
{
    let ghost start = out@;
    proof {
        shape_unfold(t);
    }
    match t {
        Type::Ptr(p) => {
            put_byte(out, 3);
            put_addrspace(out, p.addrspace);
            spell_type(&p.pointee, out, Ghost(hidden));
            assert(out@ =~= start + spelled(t@, hidden));
        },
        Type::Array(a) => {
            put_byte(out, 4);
            put_count(out, a.len as u128);
            spell_type(&a.ty, out, Ghost(hidden));
            assert(out@ =~= start + spelled(t@, hidden));
        },
        Type::List(element) => {
            put_byte(out, 5);
            spell_type(element, out, Ghost(hidden));
            assert(out@ =~= start + spelled(t@, hidden));
        },
        Type::Function(f) => {
            spell_function(f, out, Ghost(hidden));
        },
        Type::Struct(StructRef::Plain(s)) => {
            spell_struct(s, out, Ghost(hidden));
        },
        Type::Enum(EnumRef::Plain(e)) => {
            spell_enum(e, out, Ghost(hidden));
        },
        Type::Struct(StructRef::Rec(r)) => {
            spell_group(r, out, Ghost(hidden));
        },
        Type::Enum(EnumRef::Rec(r)) => {
            spell_group(r, out, Ghost(hidden));
        },
        Type::Unknown => {
            put_byte(out, 10);
        },
        Type::Never => {
            put_byte(out, 11);
        },
        Type::I1 => {
            put_byte(out, 12);
        },
        Type::I8 => {
            put_byte(out, 13);
        },
        Type::U8 => {
            put_byte(out, 14);
        },
        Type::I16 => {
            put_byte(out, 15);
        },
        Type::U16 => {
            put_byte(out, 16);
        },
        Type::I32 => {
            put_byte(out, 17);
        },
        Type::U32 => {
            put_byte(out, 18);
        },
        Type::I64 => {
            put_byte(out, 19);
        },
        Type::U64 => {
            put_byte(out, 20);
        },
        Type::I128 => {
            put_byte(out, 21);
        },
        Type::U128 => {
            put_byte(out, 22);
        },
        Type::U256 => {
            put_byte(out, 23);
        },
        Type::F64 => {
            put_byte(out, 24);
        },
        Type::Felt => {
            put_byte(out, 25);
        },
        Type::Variadic => {
            put_byte(out, 32);
        },
    }
}

fn spell_function(f: &FunctionType, out: &mut Vec<u8>, Ghost(hidden): Ghost<bool>)
    ensures
        final(out)@ == old(out)@ + spelled(Shape::Function(function_shape(*f)), hidden),
    decreases *f,
{
    let ghost start = out@;
    put_byte(out, 6);
    put_abi(out, &f.abi);
    put_count(out, f.params.len() as u128);
    put_count(out, f.results.len() as u128);
    spell_all(&f.params, out, Ghost(hidden));
    spell_all(&f.results, out, Ghost(hidden));
    assert(out@ =~= start + spelled(Shape::Function(function_shape(*f)), hidden));
}

fn spell_all(types: &Vec<Type>, out: &mut Vec<u8>, Ghost(hidden): Ghost<bool>)
    ensures
        final(out)@ == old(out)@ + spelled_all(shapes(types@), hidden),
    decreases *types,
{
    let ghost start = out@;
    let ghost all = shapes(types@);
    let mut i: usize = 0;
    assert(out@ =~= start + spelled_all(all.take(0), hidden));
    while i < types.len()
        invariant
            i <= types@.len(),
            all == shapes(types@),
            out@ == start + spelled_all(all.take(i as int), hidden),
        decreases types@.len() - i,
    {
        spell_type(&types[i], out, Ghost(hidden));
        proof {
            spelled_all_step(all, hidden, i as int);
            assert(out@ =~= start + spelled_all(all.take(i + 1), hidden));
        }
        i += 1;
    }
    assert(all.take(types@.len() as int) =~= all);
}

fn spell_struct(s: &StructType, out: &mut Vec<u8>, Ghost(hidden): Ghost<bool>)
    ensures
        final(out)@ == old(out)@ + spelled(Shape::Struct(struct_shape(*s)), hidden),
    decreases *s,
{
    let ghost start = out@;
    let ghost all = field_shapes(s.fields@);
    put_byte(out, 7);
    put_label(out, &s.name);
    put_repr(out, s.repr);
    put_count(out, s.fields.len() as u128);
    let ghost head = out@;
    let mut i: usize = 0;
    assert(out@ =~= head + spelled_fields(all.take(0), hidden));
    while i < s.fields.len()
        invariant
            i <= s.fields@.len(),
            all == field_shapes(s.fields@),
            out@ == head + spelled_fields(all.take(i as int), hidden),
        decreases s.fields@.len() - i,
    {
        put_label(out, &s.fields[i].name);
        spell_type(&s.fields[i].ty, out, Ghost(hidden));
        proof {
            spelled_fields_step(all, hidden, i as int);
            assert(out@ =~= head + spelled_fields(all.take(i + 1), hidden));
        }
        i += 1;
    }
    assert(all.take(s.fields@.len() as int) =~= all);
    assert(out@ =~= start + spelled(Shape::Struct(struct_shape(*s)), hidden));
}

fn spell_enum(e: &EnumType, out: &mut Vec<u8>, Ghost(hidden): Ghost<bool>)
    ensures
        final(out)@ == old(out)@ + spelled(Shape::Enum(enum_shape(*e)), hidden),
    decreases *e,
{
    let ghost start = out@;
    let ghost all = variant_shapes(e.variants@);
    put_byte(out, 8);
    put_text(out, &e.name);
    spell_type(&e.discriminant, out, Ghost(false));
    put_count(out, e.variants.len() as u128);
    let ghost head = out@;
    let mut i: usize = 0;
    assert(out@ =~= head + spelled_variants(all.take(0), hidden));
    while i < e.variants.len()
        invariant
            i <= e.variants@.len(),
            all == variant_shapes(e.variants@),
            out@ == head + spelled_variants(all.take(i as int), hidden),
        decreases e.variants@.len() - i,
    {
        let variant = &e.variants[i];
        assert(all[i as int] == crate::hir::types::variant_shape(*variant));
        put_text(out, &variant.name);
        put_value(out, variant.discriminant_value);
        match &variant.value {
            Some(value) => {
                put_byte(out, 1);
                spell_type(value, out, Ghost(hidden));
            },
            None => {
                put_byte(out, 0);
            },
        }
        proof {
            spelled_variants_step(all, hidden, i as int);
            assert(out@ =~= head + spelled_variants(all.take(i + 1), hidden));
        }
        i += 1;
    }
    assert(all.take(e.variants@.len() as int) =~= all);
    assert(out@ =~= start + spelled(Shape::Enum(enum_shape(*e)), hidden));
}

/// Writes the spelling of a recursive aggregate: the position of its definition, and the group.
fn spell_group(r: &RecTypeRef, out: &mut Vec<u8>, Ghost(hidden): Ghost<bool>)
    ensures
        final(out)@ == old(out)@ + spelled(
            Shape::Rec(body_shapes(r.group.defs@), r.index as nat),
            hidden,
        ),
    decreases *r,
{
    let ghost start = out@;
    let ghost all = body_shapes(r.group.defs@);
    let defs = &r.group.defs;
    put_byte(out, 9);
    put_count(out, r.index as u128);
    put_count(out, defs.len() as u128);
    let ghost head = out@;
    let mut i: usize = 0;
    assert(out@ =~= head + spelled_all(all.take(0), false));
    while i < defs.len()
        invariant
            i <= defs@.len(),
            *defs == r.group.defs,
            all == body_shapes(defs@),
            out@ == head + spelled_all(all.take(i as int), false),
        decreases defs@.len() - i,
    {
        match &defs[i].body {
            OpenAggregate::Struct(s) => {
                spell_open_struct(s, out);
            },
            OpenAggregate::Enum(e) => {
                spell_open_enum(e, out);
            },
        }
        proof {
            spelled_all_step(all, false, i as int);
            assert(out@ =~= head + spelled_all(all.take(i + 1), false));
        }
        i += 1;
    }
    assert(all.take(defs@.len() as int) =~= all);
    assert(out@ =~= start + spelled(Shape::Rec(all, r.index as nat), hidden));
}

/// Writes the spelling of a type inside a group.
#[verifier::spinoff_prover]
#[verifier::rlimit(40)]
fn spell_open(t: &OpenType, out: &mut Vec<u8>)
    ensures
        final(out)@ == old(out)@ + spelled(t@, false),
    decreases *t,
{
    let ghost start = out@;
    proof {
        open_shape_unfold(t);
    }
    match t {
        OpenType::Closed(ty) => {
            spell_type(ty, out, Ghost(false));
        },
        OpenType::Var(index) => {
            put_byte(out, 1);
            put_count(out, *index as u128);
            assert(out@ =~= start + spelled(t@, false));
        },
        OpenType::Ptr(addrspace, pointee) => {
            put_byte(out, 3);
            put_addrspace(out, *addrspace);
            spell_open(pointee, out);
            assert(out@ =~= start + spelled(t@, false));
        },
        OpenType::Array(element, len) => {
            put_byte(out, 4);
            put_count(out, *len as u128);
            spell_open(element, out);
            assert(out@ =~= start + spelled(t@, false));
        },
        OpenType::List(element) => {
            put_byte(out, 5);
            spell_open(element, out);
            assert(out@ =~= start + spelled(t@, false));
        },
        OpenType::Function(f) => {
            put_byte(out, 6);
            put_abi(out, &f.abi);
            put_count(out, f.params.len() as u128);
            put_count(out, f.results.len() as u128);
            spell_open_all(&f.params, out);
            spell_open_all(&f.results, out);
            assert(out@ =~= start + spelled(t@, false));
        },
        OpenType::Struct(s) => {
            spell_open_struct(s, out);
        },
        OpenType::Enum(e) => {
            spell_open_enum(e, out);
        },
    }
}

fn spell_open_all(types: &Vec<OpenType>, out: &mut Vec<u8>)
    ensures
        final(out)@ == old(out)@ + spelled_all(open_shapes(types@), false),
    decreases *types,
{
    let ghost start = out@;
    let ghost all = open_shapes(types@);
    let mut i: usize = 0;
    assert(out@ =~= start + spelled_all(all.take(0), false));
    while i < types.len()
        invariant
            i <= types@.len(),
            all == open_shapes(types@),
            out@ == start + spelled_all(all.take(i as int), false),
        decreases types@.len() - i,
    {
        spell_open(&types[i], out);
        proof {
            spelled_all_step(all, false, i as int);
            assert(out@ =~= start + spelled_all(all.take(i + 1), false));
        }
        i += 1;
    }
    assert(all.take(types@.len() as int) =~= all);
}

fn spell_open_struct(s: &OpenStructType, out: &mut Vec<u8>)
    ensures
        final(out)@ == old(out)@ + spelled(Shape::Struct(open_struct_shape(*s)), false),
    decreases *s,
{
    let ghost start = out@;
    let ghost all = open_field_shapes(s.fields@);
    put_byte(out, 7);
    put_label(out, &s.name);
    put_repr(out, s.repr);
    put_count(out, s.fields.len() as u128);
    let ghost head = out@;
    let mut i: usize = 0;
    assert(out@ =~= head + spelled_fields(all.take(0), false));
    while i < s.fields.len()
        invariant
            i <= s.fields@.len(),
            all == open_field_shapes(s.fields@),
            out@ == head + spelled_fields(all.take(i as int), false),
        decreases s.fields@.len() - i,
    {
        put_label(out, &s.fields[i].name);
        spell_open(&s.fields[i].ty, out);
        proof {
            spelled_fields_step(all, false, i as int);
            assert(out@ =~= head + spelled_fields(all.take(i + 1), false));
        }
        i += 1;
    }
    assert(all.take(s.fields@.len() as int) =~= all);
    assert(out@ =~= start + spelled(Shape::Struct(open_struct_shape(*s)), false));
}

fn spell_open_enum(e: &OpenEnumType, out: &mut Vec<u8>)
    ensures
        final(out)@ == old(out)@ + spelled(Shape::Enum(open_enum_shape(*e)), false),
    decreases *e,
{
    let ghost start = out@;
    let ghost all = open_variant_shapes(e.variants@);
    put_byte(out, 8);
    put_text(out, &e.name);
    spell_type(&e.discriminant, out, Ghost(false));
    put_count(out, e.variants.len() as u128);
    let ghost head = out@;
    let mut i: usize = 0;
    assert(out@ =~= head + spelled_variants(all.take(0), false));
    while i < e.variants.len()
        invariant
            i <= e.variants@.len(),
            all == open_variant_shapes(e.variants@),
            out@ == head + spelled_variants(all.take(i as int), false),
        decreases e.variants@.len() - i,
    {
        let variant = &e.variants[i];
        put_text(out, &variant.name);
        put_value(out, variant.discriminant_value);
        match &variant.value {
            Some(value) => {
                put_byte(out, 1);
                spell_open(value, out);
            },
            None => {
                put_byte(out, 0);
            },
        }
        proof {
            spelled_variants_step(all, false, i as int);
            assert(out@ =~= head + spelled_variants(all.take(i + 1), false));
        }
        i += 1;
    }
    assert(all.take(e.variants@.len() as int) =~= all);
    assert(out@ =~= start + spelled(Shape::Enum(open_enum_shape(*e)), false));
}

/// Writes the spelling of a template whose names are replaced.
#[verifier::rlimit(40)]
fn spell_template(t: &TypeTemplate, names: &Names, out: &mut Vec<u8>)
    requires
        names.wf(),
        template_wf(*t),
    ensures
        final(out)@ == old(out)@ + spelled(subst(t@, names@), true),
    decreases *t,
{
    let ghost start = out@;
    proof {
        template_shape_unfold(t);
        subst_unfold(t@, names@);
        reveal(template_wf);
    }
    match t {
        TypeTemplate::Type(ty) => {
            proof {
                types_are_closed(ty);
                subst_closed(ty@, names@);
            }
            spell_type(ty, out, Ghost(true));
        },
        TypeTemplate::Rec(key) => match names.look_up(key) {
            Meaning::Done(ty) => {
                spell_type(ty, out, Ghost(true));
            },
            Meaning::Slot(_) => {
                put_byte(out, 0);
            },
            Meaning::Open => {
                put_byte(out, 0);
            },
        },
        TypeTemplate::Ptr(addrspace, pointee) => {
            put_byte(out, 3);
            put_addrspace(out, *addrspace);
            spell_template(pointee, names, out);
            assert(out@ =~= start + spelled(subst(t@, names@), true));
        },
        TypeTemplate::Array(element, len) => {
            put_byte(out, 4);
            put_count(out, *len as u128);
            spell_template(element, names, out);
            assert(out@ =~= start + spelled(subst(t@, names@), true));
        },
        TypeTemplate::List(element) => {
            put_byte(out, 5);
            spell_template(element, names, out);
            assert(out@ =~= start + spelled(subst(t@, names@), true));
        },
        TypeTemplate::Function(f) => {
            put_byte(out, 6);
            put_abi(out, &f.abi);
            put_count(out, f.params.len() as u128);
            put_count(out, f.results.len() as u128);
            spell_templates(&f.params, names, out);
            spell_templates(&f.results, names, out);
            assert(out@ =~= start + spelled(subst(t@, names@), true));
        },
        TypeTemplate::Struct(s) => {
            spell_struct_template(s, names, out);
        },
        TypeTemplate::Enum(e) => {
            spell_enum_template(e, names, out);
        },
    }
}

fn spell_templates(types: &Vec<TypeTemplate>, names: &Names, out: &mut Vec<u8>)
    requires
        names.wf(),
        forall|i: int| 0 <= i < types@.len() ==> template_wf(#[trigger] types@[i]),
    ensures
        final(out)@ == old(out)@ + spelled_all(subst_all(template_shapes(types@), names@), true),
    decreases *types,
{
    let ghost start = out@;
    let ghost all = subst_all(template_shapes(types@), names@);
    let mut i: usize = 0;
    assert(out@ =~= start + spelled_all(all.take(0), true));
    while i < types.len()
        invariant
            i <= types@.len(),
            names.wf(),
            forall|i: int| 0 <= i < types@.len() ==> template_wf(#[trigger] types@[i]),
            all == subst_all(template_shapes(types@), names@),
            out@ == start + spelled_all(all.take(i as int), true),
        decreases types@.len() - i,
    {
        spell_template(&types[i], names, out);
        proof {
            spelled_all_step(all, true, i as int);
            assert(out@ =~= start + spelled_all(all.take(i + 1), true));
        }
        i += 1;
    }
    assert(all.take(types@.len() as int) =~= all);
}

/// Writes the spelling of a struct definition.
pub fn spell_struct_template(s: &StructTemplate, names: &Names, out: &mut Vec<u8>)
    requires
        names.wf(),
        struct_template_wf(*s),
    ensures
        final(out)@ == old(out)@ + spelled(
            Shape::Struct(subst_struct(struct_template_shape(*s), names@)),
            true,
        ),
    decreases *s,
{
    let ghost start = out@;
    let ghost all = subst_fields(field_template_shapes(s.fields@), names@);
    put_byte(out, 7);
    put_label(out, &s.name);
    put_repr(out, s.repr);
    put_count(out, s.fields.len() as u128);
    let ghost head = out@;
    let mut i: usize = 0;
    assert(out@ =~= head + spelled_fields(all.take(0), true));
    while i < s.fields.len()
        invariant
            i <= s.fields@.len(),
            names.wf(),
            struct_template_wf(*s),
            all == subst_fields(field_template_shapes(s.fields@), names@),
            out@ == head + spelled_fields(all.take(i as int), true),
        decreases s.fields@.len() - i,
    {
        put_label(out, &s.fields[i].name);
        spell_template(&s.fields[i].ty, names, out);
        proof {
            spelled_fields_step(all, true, i as int);
            assert(out@ =~= head + spelled_fields(all.take(i + 1), true));
        }
        i += 1;
    }
    assert(all.take(s.fields@.len() as int) =~= all);
    assert(out@ =~= start + spelled(
        Shape::Struct(subst_struct(struct_template_shape(*s), names@)),
        true,
    ));
}

/// Writes the spelling of an enum definition.
pub fn spell_enum_template(e: &EnumTemplate, names: &Names, out: &mut Vec<u8>)
    requires
        names.wf(),
        enum_template_wf(*e),
    ensures
        final(out)@ == old(out)@ + spelled(
            Shape::Enum(subst_enum(enum_template_shape(*e), names@)),
            true,
        ),
    decreases *e,
{
    let ghost start = out@;
    let ghost all = subst_variants(variant_template_shapes(e.variants@), names@);
    proof {
        types_are_closed(&e.discriminant);
        subst_closed(e.discriminant@, names@);
    }
    put_byte(out, 8);
    put_text(out, &e.name);
    spell_type(&e.discriminant, out, Ghost(false));
    put_count(out, e.variants.len() as u128);
    let ghost head = out@;
    let mut i: usize = 0;
    assert(out@ =~= head + spelled_variants(all.take(0), true));
    while i < e.variants.len()
        invariant
            i <= e.variants@.len(),
            names.wf(),
            enum_template_wf(*e),
            all == subst_variants(variant_template_shapes(e.variants@), names@),
            out@ == head + spelled_variants(all.take(i as int), true),
        decreases e.variants@.len() - i,
    {
        let variant = &e.variants[i];
        assert(variant_template_shapes(e.variants@)[i as int] == variant_template_shape(*variant));
        put_text(out, &variant.name);
        put_value(out, variant.discriminant_value);
        match &variant.value {
            Some(value) => {
                put_byte(out, 1);
                spell_template(value, names, out);
            },
            None => {
                put_byte(out, 0);
            },
        }
        proof {
            spelled_variants_step(all, true, i as int);
            assert(out@ =~= head + spelled_variants(all.take(i + 1), true));
        }
        i += 1;
    }
    assert(all.take(e.variants@.len() as int) =~= all);
    assert(out@ =~= start + spelled(
        Shape::Enum(subst_enum(enum_template_shape(*e), names@)),
        true,
    ));
}

} // verus!
