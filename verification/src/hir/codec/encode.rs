//! Writing types as bytes.
use vstd::prelude::*;
use vstd::utf8::encode_utf8;

use crate::hir::codec::bytes::{le, vint, write_bytes, write_le, write_usize};
use crate::hir::function_type::abi_tag;
use crate::hir::shape::{
    AbiShape, AddressSpace, EnumShape, FieldShape, FunctionShape, Shape, StructShape, TypeRepr,
    VariantShape,
};
use crate::hir::types::{
    abi_shape, bodies_wf_unfold, body_shapes, body_wf, enum_shape, enum_wf, field_shapes,
    function_shape, function_wf, group_layouts, label, open_enum_shape, open_enum_wf,
    open_field_shapes, open_shape_unfold, open_shapes, open_struct_shape, open_struct_wf,
    open_variant_shapes, open_wf, open_wf_unfold, rec_wf, shape_unfold, shapes, struct_shape,
    struct_wf, variant_shapes, wf, wf_unfold, AggregateKind, CallConv, EnumRef, EnumType,
    FunctionType, OpenAggregate, OpenEnumType, OpenStructType, OpenType, RecTypeRef, StructRef,
    StructType, Type,
};

verus! {

/// The tag of a recursive aggregate, which carries its whole group.
pub const TAG_RECURSIVE_GROUP: u8 = 23;

/// The tag of a back-reference to a definition of the enclosing group.
pub const TAG_RECURSIVE_REF: u8 = 24;

/// The tag of a variadic type parameter.
pub const TAG_VARIADIC: u8 = 22;

pub open spec fn flag(set: bool) -> Seq<u8> {
    seq![if set {
        1u8
    } else {
        0u8
    }]
}

/// A text: the number of its bytes, and the bytes.
pub open spec fn enc_text(text: Seq<char>) -> Seq<u8> {
    vint(encode_utf8(text).len()) + encode_utf8(text)
}

pub open spec fn enc_label(name: Option<Seq<char>>) -> Seq<u8> {
    match name {
        Some(name) => flag(true) + enc_text(name),
        None => flag(false),
    }
}

pub open spec fn addrspace_tag(addrspace: AddressSpace) -> u8 {
    match addrspace {
        AddressSpace::Byte => 0,
        AddressSpace::Element => 1,
    }
}

pub open spec fn enc_repr(repr: TypeRepr) -> Seq<u8> {
    match repr {
        TypeRepr::Default => seq![0u8],
        TypeRepr::Align(align) => seq![1u8] + le(align as nat, 2),
        TypeRepr::Packed(align) => seq![2u8] + le(align as nat, 2),
        TypeRepr::Transparent => seq![3u8],
    }
}

pub open spec fn enc_abi(abi: AbiShape) -> Seq<u8> {
    match abi {
        AbiShape::Extern(name) => seq![4u8] + enc_text(name),
        _ => seq![abi_tag(abi)],
    }
}

/// The tag of a type without parts.
pub open spec fn atom_tag(t: Shape) -> u8 {
    match t {
        Shape::Unknown => 0,
        Shape::Never => 1,
        Shape::I1 => 2,
        Shape::I8 => 3,
        Shape::U8 => 4,
        Shape::I16 => 5,
        Shape::U16 => 6,
        Shape::I32 => 7,
        Shape::U32 => 8,
        Shape::I64 => 9,
        Shape::U64 => 10,
        Shape::I128 => 11,
        Shape::U128 => 12,
        Shape::U256 => 13,
        Shape::F64 => 14,
        Shape::Felt => 15,
        _ => TAG_VARIADIC,
    }
}

/// The number of bytes of a discriminant of type `t`.
pub open spec fn discriminant_width(t: Shape) -> nat {
    match t {
        Shape::I1 | Shape::I8 | Shape::U8 => 1,
        Shape::I16 | Shape::U16 => 2,
        Shape::I32 | Shape::U32 | Shape::Felt => 4,
        Shape::I64 | Shape::U64 => 8,
        _ => 16,
    }
}

pub open spec fn enc_discriminant(value: Option<u128>, width: nat) -> Seq<u8> {
    match value {
        Some(value) => flag(true) + le(value as nat, width),
        None => flag(false),
    }
}

/// The bytes of a type.
pub open spec fn enc(t: Shape) -> Seq<u8>
    decreases t,
{
    match t {
        Shape::Ptr(addrspace, pointee) => seq![16u8] + seq![addrspace_tag(addrspace)] + enc(
            *pointee,
        ),
        Shape::Struct(s) => seq![17u8] + enc_struct(s),
        Shape::Array(element, n) => seq![18u8] + vint(n) + enc(*element),
        Shape::List(element) => seq![19u8] + enc(*element),
        Shape::Function(f) => seq![20u8] + enc_function(f),
        Shape::Enum(e) => seq![21u8] + enc_enum(e),
        Shape::Rec(definitions, i) => seq![TAG_RECURSIVE_GROUP] + le(definitions.len(), 2)
            + enc_kinds(definitions) + enc_bodies(definitions) + le(i, 2),
        Shape::Var(i) => seq![TAG_RECURSIVE_REF] + le(i, 2),
        _ => seq![atom_tag(t)],
    }
}

/// A function type: its convention, its parameters and its results.
pub open spec fn enc_function(f: FunctionShape) -> Seq<u8>
    decreases f,
{
    enc_abi(f.abi) + vint(f.params.len()) + enc_all(f.params) + vint(f.results.len()) + enc_all(
        f.results,
    )
}

pub open spec fn enc_all(types: Seq<Shape>) -> Seq<u8>
    decreases types,
{
    if types.len() == 0 {
        Seq::empty()
    } else {
        enc_all(types.drop_last()) + enc(types[types.len() - 1])
    }
}

/// A struct without its tag: its name, its representation and its fields.
pub open spec fn enc_struct(s: StructShape) -> Seq<u8>
    decreases s,
{
    enc_label(s.name) + enc_repr(s.repr) + seq![s.fields.len() as u8] + enc_fields(s.fields)
}

pub open spec fn enc_fields(fields: Seq<FieldShape>) -> Seq<u8>
    decreases fields,
{
    if fields.len() == 0 {
        Seq::empty()
    } else {
        let last = fields[fields.len() - 1];
        enc_fields(fields.drop_last()) + (enc_label(last.name) + enc(last.ty))
    }
}

/// An enum without its tag: its name, its discriminant and its variants.
pub open spec fn enc_enum(e: EnumShape) -> Seq<u8>
    decreases e,
{
    enc_text(e.name) + enc(*e.discriminant) + vint(e.variants.len()) + enc_variants(
        e.variants,
        discriminant_width(*e.discriminant),
    )
}

pub open spec fn enc_variants(variants: Seq<VariantShape>, width: nat) -> Seq<u8>
    decreases variants,
{
    if variants.len() == 0 {
        Seq::empty()
    } else {
        let last = variants[variants.len() - 1];
        enc_variants(variants.drop_last(), width) + (enc_text(last.name) + (match last.value {
            Some(value) => flag(true) + enc(value),
            None => flag(false),
        }) + enc_discriminant(last.discriminant_value, width))
    }
}

pub open spec fn kind_tag(body: Shape) -> u8 {
    if body is Struct {
        0
    } else {
        1
    }
}

/// The kinds of the definitions of a group.
pub open spec fn enc_kinds(definitions: Seq<Shape>) -> Seq<u8> {
    Seq::new(definitions.len(), |i: int| kind_tag(definitions[i]))
}

pub open spec fn enc_bodies(definitions: Seq<Shape>) -> Seq<u8>
    decreases definitions,
{
    if definitions.len() == 0 {
        Seq::empty()
    } else {
        enc_bodies(definitions.drop_last()) + (match definitions[definitions.len() - 1] {
            Shape::Struct(s) => enc_struct(s),
            Shape::Enum(e) => enc_enum(e),
            _ => Seq::empty(),
        })
    }
}

fn write_flag(target: &mut Vec<u8>, set: bool)
    ensures
        final(target)@ == old(target)@ + flag(set),
{
    let ghost start = target@;
    target.push(if set {
        1
    } else {
        0
    });
    assert(target@ =~= start + flag(set));
}

fn write_tag(target: &mut Vec<u8>, tag: u8)
    ensures
        final(target)@ == old(target)@ + seq![tag],
{
    let ghost start = target@;
    target.push(tag);
    assert(target@ =~= start + seq![tag]);
}

fn write_text(target: &mut Vec<u8>, text: &String)
    ensures
        final(target)@ == old(target)@ + enc_text(text@),
{
    let ghost start = target@;
    let bytes = text.as_str().as_bytes();
    write_usize(target, bytes.len());
    write_bytes(target, bytes);
    assert(target@ =~= start + enc_text(text@));
}

fn write_label(target: &mut Vec<u8>, name: &Option<String>)
    ensures
        final(target)@ == old(target)@ + enc_label(label(*name)),
{
    let ghost start = target@;
    match name {
        Some(name) => {
            write_flag(target, true);
            write_text(target, name);
            assert(target@ =~= start + enc_label(Some(name@)));
        },
        None => {
            write_flag(target, false);
        },
    }
}

fn write_repr(target: &mut Vec<u8>, repr: TypeRepr)
    ensures
        final(target)@ == old(target)@ + enc_repr(repr),
{
    let ghost start = target@;
    match repr {
        TypeRepr::Default => {
            write_tag(target, 0);
        },
        TypeRepr::Align(align) => {
            write_tag(target, 1);
            write_le(target, align as u128, 2);
        },
        TypeRepr::Packed(align) => {
            write_tag(target, 2);
            write_le(target, align as u128, 2);
        },
        TypeRepr::Transparent => {
            write_tag(target, 3);
        },
    }
    assert(target@ =~= start + enc_repr(repr));
}

fn write_abi(target: &mut Vec<u8>, abi: &CallConv)
    ensures
        final(target)@ == old(target)@ + enc_abi(abi_shape(*abi)),
{
    let ghost start = target@;
    write_tag(target, abi.tag());
    if let CallConv::Extern(name) = abi {
        write_text(target, name);
        assert(target@ =~= start + enc_abi(abi_shape(*abi)));
    }
}

fn write_discriminant(target: &mut Vec<u8>, value: Option<u128>, width: usize)
    ensures
        final(target)@ == old(target)@ + enc_discriminant(value, width as nat),
{
    let ghost start = target@;
    match value {
        Some(value) => {
            write_flag(target, true);
            write_le(target, value, width);
            assert(target@ =~= start + enc_discriminant(Some(value), width as nat));
        },
        None => {
            write_flag(target, false);
        },
    }
}

/// The number of bytes of a discriminant.
pub fn width_of(t: &Type) -> (width: usize)
    ensures
        width == discriminant_width(t@),
        1 <= width <= 16,
{
    proof {
        shape_unfold(t);
    }
    match t {
        Type::I1 | Type::I8 | Type::U8 => 1,
        Type::I16 | Type::U16 => 2,
        Type::I32 | Type::U32 | Type::Felt => 4,
        Type::I64 | Type::U64 => 8,
        _ => 16,
    }
}

proof fn enc_all_step(types: Seq<Shape>, i: int)
    requires
        0 <= i < types.len(),
    ensures
        enc_all(types.take(i + 1)) == enc_all(types.take(i)) + enc(types[i]),
{
    assert(types.take(i + 1).drop_last() =~= types.take(i));
}

proof fn enc_fields_step(fields: Seq<FieldShape>, i: int)
    requires
        0 <= i < fields.len(),
    ensures
        enc_fields(fields.take(i + 1)) == enc_fields(fields.take(i)) + (enc_label(fields[i].name)
            + enc(fields[i].ty)),
{
    assert(fields.take(i + 1).drop_last() =~= fields.take(i));
}

proof fn enc_variants_step(variants: Seq<VariantShape>, width: nat, i: int)
    requires
        0 <= i < variants.len(),
    ensures
        enc_variants(variants.take(i + 1), width) == enc_variants(variants.take(i), width) + (
        enc_text(variants[i].name) + (match variants[i].value {
            Some(value) => flag(true) + enc(value),
            None => flag(false),
        }) + enc_discriminant(variants[i].discriminant_value, width)),
{
    assert(variants.take(i + 1).drop_last() =~= variants.take(i));
}

fn write_all(target: &mut Vec<u8>, types: &Vec<Type>)
    requires
        forall|i: int| 0 <= i < types@.len() ==> wf(#[trigger] types@[i]),
    ensures
        final(target)@ == old(target)@ + enc_all(shapes(types@)),
    decreases *types,
{
    let ghost start = target@;
    let ghost all = shapes(types@);
    let mut i: usize = 0;
    assert(target@ =~= start + enc_all(all.take(0)));
    while i < types.len()
        invariant
            i <= types@.len(),
            forall|i: int| 0 <= i < types@.len() ==> wf(#[trigger] types@[i]),
            all == shapes(types@),
            target@ == start + enc_all(all.take(i as int)),
        decreases types@.len() - i,
    {
        types[i].write_into(target);
        proof {
            enc_all_step(all, i as int);
            assert(start + enc_all(all.take(i + 1)) =~= start + enc_all(all.take(i as int)) + enc(
                all[i as int],
            ));
        }
        i += 1;
    }
    assert(all.take(types@.len() as int) =~= all);
}

#[verifier::spinoff_prover]
#[verifier::rlimit(60)]
fn write_struct(target: &mut Vec<u8>, s: &StructType)
    requires
        struct_wf(*s),
    ensures
        final(target)@ == old(target)@ + enc_struct(struct_shape(*s)),
    decreases *s,
{
    let ghost start = target@;
    let ghost all = field_shapes(s.fields@);
    write_label(target, &s.name);
    write_repr(target, s.repr);
    write_tag(target, s.fields.len() as u8);
    let ghost head = target@;
    let mut i: usize = 0;
    assert(target@ =~= head + enc_fields(all.take(0)));
    while i < s.fields.len()
        invariant
            i <= s.fields@.len(),
            struct_wf(*s),
            all == field_shapes(s.fields@),
            target@ == head + enc_fields(all.take(i as int)),
        decreases s.fields@.len() - i,
    {
        write_label(target, &s.fields[i].name);
        s.fields[i].ty.write_into(target);
        proof {
            enc_fields_step(all, i as int);
            assert(head + enc_fields(all.take(i + 1)) =~= head + enc_fields(all.take(i as int))
                + enc_label(all[i as int].name) + enc(all[i as int].ty));
        }
        i += 1;
    }
    assert(all.take(s.fields@.len() as int) =~= all);
    assert(target@ =~= start + enc_struct(struct_shape(*s)));
}

fn write_enum(target: &mut Vec<u8>, e: &EnumType)
    requires
        enum_wf(*e),
    ensures
        final(target)@ == old(target)@ + enc_enum(enum_shape(*e)),
    decreases *e,
{
    let ghost start = target@;
    let ghost all = variant_shapes(e.variants@);
    write_text(target, &e.name);
    e.discriminant.write_into(target);
    write_usize(target, e.variants.len());
    let width: usize = width_of(&e.discriminant);
    let ghost head = target@;
    let mut i: usize = 0;
    assert(target@ =~= head + enc_variants(all.take(0), width as nat));
    while i < e.variants.len()
        invariant
            i <= e.variants@.len(),
            enum_wf(*e),
            all == variant_shapes(e.variants@),
            target@ == head + enc_variants(all.take(i as int), width as nat),
        decreases e.variants@.len() - i,
    {
        let variant = &e.variants[i];
        write_text(target, &variant.name);
        match &variant.value {
            Some(value) => {
                write_flag(target, true);
                value.write_into(target);
            },
            None => {
                write_flag(target, false);
            },
        }
        write_discriminant(target, variant.discriminant_value, width);
        proof {
            enc_variants_step(all, width as nat, i as int);
            assert(target@ =~= head + enc_variants(all.take(i + 1), width as nat));
        }
        i += 1;
    }
    assert(all.take(e.variants@.len() as int) =~= all);
    assert(target@ =~= start + enc_enum(enum_shape(*e)));
}

impl FunctionType {
    /// Appends the bytes of this function type.
    pub fn write_into(&self, target: &mut Vec<u8>)
        requires
            function_wf(*self),
        ensures
            final(target)@ == old(target)@ + enc_function(function_shape(*self)),
        decreases *self,
    {
        let ghost start = target@;
        write_abi(target, &self.abi);
        write_usize(target, self.params.len());
        write_all(target, &self.params);
        write_usize(target, self.results.len());
        write_all(target, &self.results);
        assert(target@ =~= start + enc_function(function_shape(*self)));
    }
}

impl Type {
    /// Appends the bytes of this type.
    pub fn write_into(&self, target: &mut Vec<u8>)
        requires
            wf(*self),
        ensures
            final(target)@ == old(target)@ + enc(self@),
        decreases *self,
    {
        let ghost start = target@;
        proof {
            wf_unfold(self);
            shape_unfold(self);
        }
        match self {
            Type::Unknown => {
                write_tag(target, 0);
            },
            Type::Never => {
                write_tag(target, 1);
            },
            Type::I1 => {
                write_tag(target, 2);
            },
            Type::I8 => {
                write_tag(target, 3);
            },
            Type::U8 => {
                write_tag(target, 4);
            },
            Type::I16 => {
                write_tag(target, 5);
            },
            Type::U16 => {
                write_tag(target, 6);
            },
            Type::I32 => {
                write_tag(target, 7);
            },
            Type::U32 => {
                write_tag(target, 8);
            },
            Type::I64 => {
                write_tag(target, 9);
            },
            Type::U64 => {
                write_tag(target, 10);
            },
            Type::I128 => {
                write_tag(target, 11);
            },
            Type::U128 => {
                write_tag(target, 12);
            },
            Type::U256 => {
                write_tag(target, 13);
            },
            Type::F64 => {
                write_tag(target, 14);
            },
            Type::Felt => {
                write_tag(target, 15);
            },
            Type::Ptr(p) => {
                write_tag(target, 16);
                write_tag(target, match p.addrspace {
                    AddressSpace::Byte => 0,
                    AddressSpace::Element => 1,
                });
                p.pointee.write_into(target);
                assert(target@ =~= start + enc(self@));
            },
            Type::Struct(StructRef::Rec(r)) => {
                write_group(target, r);
            },
            Type::Enum(EnumRef::Rec(r)) => {
                write_group(target, r);
            },
            Type::Struct(StructRef::Plain(s)) => {
                write_tag(target, 17);
                write_struct(target, s);
                assert(target@ =~= start + enc(self@));
            },
            Type::Array(a) => {
                write_tag(target, 18);
                write_usize(target, a.len);
                a.ty.write_into(target);
                assert(target@ =~= start + enc(self@));
            },
            Type::List(element) => {
                write_tag(target, 19);
                element.write_into(target);
                assert(target@ =~= start + enc(self@));
            },
            Type::Function(f) => {
                write_tag(target, 20);
                f.write_into(target);
                assert(target@ =~= start + enc(self@));
            },
            Type::Enum(EnumRef::Plain(e)) => {
                write_tag(target, 21);
                write_enum(target, e);
                assert(target@ =~= start + enc(self@));
            },
            Type::Variadic => {
                write_tag(target, TAG_VARIADIC);
            },
        }
    }

    /// The bytes of this type.
    pub fn to_bytes(&self) -> (bytes: Vec<u8>)
        requires
            wf(*self),
        ensures
            bytes@ == enc(self@),
    {
        let mut bytes: Vec<u8> = Vec::new();
        self.write_into(&mut bytes);
        assert(Seq::<u8>::empty() + enc(self@) =~= enc(self@));
        bytes
    }
}

// ---------------------------------------------------------------------------------------------
// Recursive groups
// ---------------------------------------------------------------------------------------------

proof fn enc_bodies_step(definitions: Seq<Shape>, i: int)
    requires
        0 <= i < definitions.len(),
    ensures
        enc_bodies(definitions.take(i + 1)) == enc_bodies(definitions.take(i)) + (
        match definitions[i] {
            Shape::Struct(s) => enc_struct(s),
            Shape::Enum(e) => enc_enum(e),
            _ => Seq::empty(),
        }),
{
    assert(definitions.take(i + 1).drop_last() =~= definitions.take(i));
}

/// Writes a recursive aggregate: its group, in canonical order, and the position of the selected
/// definition.
fn write_group(target: &mut Vec<u8>, r: &RecTypeRef)
    requires
        rec_wf(*r),
    ensures
        final(target)@ == old(target)@ + enc(
            Shape::Rec(body_shapes(r.group.defs@), r.index as nat),
        ),
    decreases *r,
{
    let ghost start = target@;
    let ghost all = body_shapes(r.group.defs@);
    let defs = &r.group.defs;
    proof {
        bodies_wf_unfold(&*r.group, group_layouts(&*r.group));
    }
    write_tag(target, TAG_RECURSIVE_GROUP);
    write_le(target, defs.len() as u128, 2);
    let ghost head = target@;
    let mut i: usize = 0;
    while i < defs.len()
        invariant
            i <= defs@.len(),
            *defs == r.group.defs,
            rec_wf(*r),
            all == body_shapes(defs@),
            target@ =~= head + enc_kinds(all).take(i as int),
        decreases defs@.len() - i,
    {
        target.push(match defs[i].kind {
            AggregateKind::Struct => 0,
            AggregateKind::Enum => 1,
        });
        i += 1;
    }
    assert(enc_kinds(all).take(defs@.len() as int) =~= enc_kinds(all));
    let ghost head = target@;
    let mut i: usize = 0;
    assert(target@ =~= head + enc_bodies(all.take(0)));
    while i < defs.len()
        invariant
            i <= defs@.len(),
            *defs == r.group.defs,
            rec_wf(*r),
            forall|i: int|
                0 <= i < defs@.len() ==> body_wf(
                    (#[trigger] defs@[i]).body,
                    group_layouts(&*r.group),
                ),
            all == body_shapes(defs@),
            target@ == head + enc_bodies(all.take(i as int)),
        decreases defs@.len() - i,
    {
        assert(body_wf(defs@[i as int].body, group_layouts(&*r.group)));
        match &defs[i].body {
            OpenAggregate::Struct(s) => {
                write_open_struct(target, s, Ghost(group_layouts(&*r.group)));
            },
            OpenAggregate::Enum(e) => {
                write_open_enum(target, e, Ghost(group_layouts(&*r.group)));
            },
        }
        proof {
            enc_bodies_step(all, i as int);
            assert(target@ =~= head + enc_bodies(all.take(i + 1)));
        }
        i += 1;
    }
    assert(all.take(defs@.len() as int) =~= all);
    write_le(target, r.index as u128, 2);
    assert(target@ =~= start + enc(Shape::Rec(all, r.index as nat)));
}

fn write_open_struct(target: &mut Vec<u8>, s: &OpenStructType, Ghost(group): Ghost<
    Seq<crate::hir::metrics::Metrics>,
>)
    requires
        open_struct_wf(*s, group),
    ensures
        final(target)@ == old(target)@ + enc_struct(open_struct_shape(*s)),
    decreases *s,
{
    let ghost start = target@;
    let ghost all = open_field_shapes(s.fields@);
    write_label(target, &s.name);
    write_repr(target, s.repr);
    write_tag(target, s.fields.len() as u8);
    let ghost head = target@;
    let mut i: usize = 0;
    assert(target@ =~= head + enc_fields(all.take(0)));
    while i < s.fields.len()
        invariant
            i <= s.fields@.len(),
            open_struct_wf(*s, group),
            all == open_field_shapes(s.fields@),
            target@ == head + enc_fields(all.take(i as int)),
        decreases s.fields@.len() - i,
    {
        write_label(target, &s.fields[i].name);
        write_open_type(target, &s.fields[i].ty, Ghost(group));
        proof {
            enc_fields_step(all, i as int);
            assert(head + enc_fields(all.take(i + 1)) =~= head + enc_fields(all.take(i as int))
                + enc_label(all[i as int].name) + enc(all[i as int].ty));
        }
        i += 1;
    }
    assert(all.take(s.fields@.len() as int) =~= all);
    assert(target@ =~= start + enc_struct(open_struct_shape(*s)));
}

fn write_open_enum(target: &mut Vec<u8>, e: &OpenEnumType, Ghost(group): Ghost<
    Seq<crate::hir::metrics::Metrics>,
>)
    requires
        open_enum_wf(*e, group),
    ensures
        final(target)@ == old(target)@ + enc_enum(open_enum_shape(*e)),
    decreases *e,
{
    let ghost start = target@;
    let ghost all = open_variant_shapes(e.variants@);
    write_text(target, &e.name);
    e.discriminant.write_into(target);
    write_usize(target, e.variants.len());
    let width: usize = width_of(&e.discriminant);
    let ghost head = target@;
    let mut i: usize = 0;
    assert(target@ =~= head + enc_variants(all.take(0), width as nat));
    while i < e.variants.len()
        invariant
            i <= e.variants@.len(),
            open_enum_wf(*e, group),
            all == open_variant_shapes(e.variants@),
            target@ == head + enc_variants(all.take(i as int), width as nat),
        decreases e.variants@.len() - i,
    {
        let variant = &e.variants[i];
        write_text(target, &variant.name);
        match &variant.value {
            Some(value) => {
                write_flag(target, true);
                write_open_type(target, value, Ghost(group));
            },
            None => {
                write_flag(target, false);
            },
        }
        write_discriminant(target, variant.discriminant_value, width);
        proof {
            enc_variants_step(all, width as nat, i as int);
            assert(target@ =~= head + enc_variants(all.take(i + 1), width as nat));
        }
        i += 1;
    }
    assert(all.take(e.variants@.len() as int) =~= all);
    assert(target@ =~= start + enc_enum(open_enum_shape(*e)));
}

fn write_open_all(target: &mut Vec<u8>, types: &Vec<OpenType>, Ghost(group): Ghost<
    Seq<crate::hir::metrics::Metrics>,
>)
    requires
        forall|i: int| 0 <= i < types@.len() ==> open_wf(#[trigger] types@[i], group),
    ensures
        final(target)@ == old(target)@ + enc_all(open_shapes(types@)),
    decreases *types,
{
    let ghost start = target@;
    let ghost all = open_shapes(types@);
    let mut i: usize = 0;
    assert(target@ =~= start + enc_all(all.take(0)));
    while i < types.len()
        invariant
            i <= types@.len(),
            forall|i: int| 0 <= i < types@.len() ==> open_wf(#[trigger] types@[i], group),
            all == open_shapes(types@),
            target@ == start + enc_all(all.take(i as int)),
        decreases types@.len() - i,
    {
        write_open_type(target, &types[i], Ghost(group));
        proof {
            enc_all_step(all, i as int);
            assert(start + enc_all(all.take(i + 1)) =~= start + enc_all(all.take(i as int)) + enc(
                all[i as int],
            ));
        }
        i += 1;
    }
    assert(all.take(types@.len() as int) =~= all);
}

/// Writes a type expression inside a body, by the tags of ordinary types and with back-references
/// as such. Closed parts go the ordinary way.
fn write_open_type(target: &mut Vec<u8>, t: &OpenType, Ghost(group): Ghost<
    Seq<crate::hir::metrics::Metrics>,
>)
    requires
        open_wf(*t, group),
    ensures
        final(target)@ == old(target)@ + enc(t@),
    decreases *t,
{
    let ghost start = target@;
    proof {
        open_wf_unfold(t, group);
        open_shape_unfold(t);
    }
    match t {
        OpenType::Closed(t) => {
            t.write_into(target);
        },
        OpenType::Var(index) => {
            write_tag(target, TAG_RECURSIVE_REF);
            write_le(target, *index as u128, 2);
            assert(target@ =~= start + enc(t@));
        },
        OpenType::Ptr(addrspace, pointee) => {
            write_tag(target, 16);
            write_tag(target, match addrspace {
                AddressSpace::Byte => 0,
                AddressSpace::Element => 1,
            });
            write_open_type(target, pointee, Ghost(group));
            assert(target@ =~= start + enc(t@));
        },
        OpenType::Struct(s) => {
            write_tag(target, 17);
            write_open_struct(target, s, Ghost(group));
            assert(target@ =~= start + enc(t@));
        },
        OpenType::Array(element, len) => {
            write_tag(target, 18);
            write_usize(target, *len);
            write_open_type(target, element, Ghost(group));
            assert(target@ =~= start + enc(t@));
        },
        OpenType::List(element) => {
            write_tag(target, 19);
            write_open_type(target, element, Ghost(group));
            assert(target@ =~= start + enc(t@));
        },
        OpenType::Function(f) => {
            write_tag(target, 20);
            write_abi(target, &f.abi);
            write_usize(target, f.params.len());
            write_open_all(target, &f.params, Ghost(group));
            write_usize(target, f.results.len());
            write_open_all(target, &f.results, Ghost(group));
            assert(target@ =~= start + (seq![20u8] + enc_function(t@->Function_0)));
        },
        OpenType::Enum(e) => {
            write_tag(target, 21);
            write_open_enum(target, e, Ghost(group));
            assert(target@ =~= start + enc(t@));
        },
    }
}

} // verus!
