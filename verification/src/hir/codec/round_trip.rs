//! What is written reads back.
use vstd::prelude::*;
use vstd::utf8::{encode_utf8, encode_utf8_decode_utf8, encode_utf8_valid_utf8};

use crate::hir::codec::bytes::{le, le_gives_back, pow256, pow256_values, vint, vint_gives_back};
use crate::hir::codec::canonical::{
    canonical, own_references, renamed, renamed_all, renamed_fields, renamed_unfold,
    renamed_variants,
};
use crate::hir::codec::encode::{
    addrspace_tag, atom_tag, discriminant_width, enc, enc_abi, enc_all, enc_bodies,
    enc_discriminant, enc_enum, enc_fields, enc_function, enc_kinds, enc_label, enc_repr,
    enc_struct, enc_text, enc_variants, flag, kind_tag, TAG_RECURSIVE_GROUP, TAG_RECURSIVE_REF,
    TAG_VARIADIC,
};
use crate::hir::codec::parse::{
    advance, assembled, at_depth, at_depth_parses, enum_problem, order_fault, oversized_array,
    parse, parse_abi, parse_addrspace, parse_bodies, parse_byte, parse_bytes, parse_closed,
    parse_compound, parse_count, parse_counted, parse_discriminant, parse_entries, parse_entry,
    parse_enum, parse_field, parse_fields, parse_flag, parse_function, parse_group, parse_kinds,
    parse_label, parse_number, parse_open, parse_payload, parse_repr, parse_struct, parse_text,
    parse_unfold, parse_variant, parse_variants, slot_key, struct_fault, Counted, DecodeFault,
    Input,
};
use crate::hir::enum_rules::is_discriminant;
use crate::hir::metrics::{metrics, repr_ok};
use crate::hir::shape::{
    AbiShape, AddressSpace, EnumShape, FieldShape, FunctionShape, Shape, StructShape, TypeRepr,
    VariantShape,
};
use crate::hir::types::MAX_RECURSIVE_GROUP_SIZE;

verus! {

// ---------------------------------------------------------------------------------------------
// Bytes, numbers and texts
// ---------------------------------------------------------------------------------------------

/// The input starts with the given bytes, and they may be read.
pub open spec fn offers(s: Input, bytes: Seq<u8>) -> bool {
    &&& bytes.len() <= s.rest.len()
    &&& s.rest.take(bytes.len() as int) == bytes
    &&& s.budget is Some ==> bytes.len() <= s.budget->0
}

/// The input behind the given bytes.
pub open spec fn behind(s: Input, bytes: Seq<u8>) -> Input {
    advance(s, bytes.len())
}

proof fn offers_parts(s: Input, a: Seq<u8>, b: Seq<u8>)
    requires
        offers(s, a + b),
    ensures
        offers(s, a),
        offers(behind(s, a), b),
        behind(behind(s, a), b) == behind(s, a + b),
{
    let all = a + b;
    assert(s.rest.take(a.len() as int) =~= all.take(a.len() as int));
    assert(all.take(a.len() as int) =~= a);
    let next = behind(s, a);
    assert(next.rest.take(b.len() as int) =~= all.skip(a.len() as int));
    assert(all.skip(a.len() as int) =~= b);
    assert(behind(next, b).rest =~= behind(s, all).rest);
}

proof fn reads_bytes(s: Input, bytes: Seq<u8>)
    requires
        offers(s, bytes),
    ensures
        parse_bytes(s, bytes.len()) == Ok::<(Seq<u8>, Input), DecodeFault>(
            (bytes, behind(s, bytes)),
        ),
{
}

proof fn reads_byte(s: Input, byte: u8)
    requires
        offers(s, seq![byte]),
    ensures
        parse_byte(s) == Ok::<(u8, Input), DecodeFault>((byte, behind(s, seq![byte]))),
        s.rest.len() > 0,
        s.rest[0] == byte,
{
    reads_bytes(s, seq![byte]);
    assert(s.rest.take(1)[0] == byte);
}

proof fn reads_flag(s: Input, set: bool)
    requires
        offers(s, flag(set)),
    ensures
        parse_flag(s) == Ok::<(bool, Input), DecodeFault>((set, behind(s, flag(set)))),
{
    reads_byte(s, flag(set)[0]);
    assert(flag(set) =~= seq![flag(set)[0]]);
}

proof fn reads_number(s: Input, x: nat, n: nat)
    requires
        offers(s, le(x, n)),
        x < pow256(n),
    ensures
        parse_number(s, n) == Ok::<(nat, Input), DecodeFault>((x, behind(s, le(x, n)))),
{
    le_gives_back(x, n);
    reads_bytes(s, le(x, n));
}

proof fn reads_count(s: Input, x: nat)
    requires
        offers(s, vint(x)),
        x <= usize::MAX,
    ensures
        parse_count(s) == Ok::<(nat, Input), DecodeFault>((x, behind(s, vint(x)))),
{
    let n = vint(x).len();
    let tail = s.rest.skip(n as int);
    vint_gives_back(x, tail);
    assert(s.rest =~= vint(x) + tail);
    if n == 9 {
        let a = vint(x).take(1);
        let b = vint(x).skip(1);
        assert(a + b =~= vint(x));
        offers_parts(s, a, b);
        reads_bytes(s, a);
        reads_bytes(behind(s, a), b);
    } else {
        reads_bytes(s, vint(x));
    }
}

/// A count that what follows it can account for.
proof fn reads_counted(s: Input, x: nat, what: Counted, rest: Seq<u8>)
    requires
        offers(s, vint(x) + rest),
        x <= usize::MAX,
        x <= rest.len(),
    ensures
        parse_counted(s, what) == Ok::<(nat, Input), DecodeFault>((x, behind(s, vint(x)))),
        offers(behind(s, vint(x)), rest),
        behind(behind(s, vint(x)), rest) == behind(s, vint(x) + rest),
{
    offers_parts(s, vint(x), rest);
    reads_count(s, x);
}

pub open spec fn text_fits(text: Seq<char>) -> bool {
    encode_utf8(text).len() <= usize::MAX
}

pub open spec fn label_fits(name: Option<Seq<char>>) -> bool {
    name matches Some(name) ==> text_fits(name)
}

proof fn reads_text(s: Input, text: Seq<char>)
    requires
        offers(s, enc_text(text)),
        text_fits(text),
    ensures
        parse_text(s) == Ok::<(Seq<char>, Input), DecodeFault>((text, behind(s, enc_text(text)))),
{
    let bytes = encode_utf8(text);
    reads_counted(s, bytes.len(), Counted::Bytes, bytes);
    reads_bytes(behind(s, vint(bytes.len())), bytes);
    encode_utf8_valid_utf8(text);
    encode_utf8_decode_utf8(text);
}

proof fn reads_label(s: Input, name: Option<Seq<char>>)
    requires
        offers(s, enc_label(name)),
        label_fits(name),
    ensures
        parse_label(s) == Ok::<(Option<Seq<char>>, Input), DecodeFault>(
            (name, behind(s, enc_label(name))),
        ),
{
    match name {
        Some(text) => {
            offers_parts(s, flag(true), enc_text(text));
            reads_flag(s, true);
            reads_text(behind(s, flag(true)), text);
        },
        None => {
            reads_flag(s, false);
        },
    }
}

proof fn reads_addrspace(s: Input, addrspace: AddressSpace)
    requires
        offers(s, seq![addrspace_tag(addrspace)]),
    ensures
        parse_addrspace(s) == Ok::<(AddressSpace, Input), DecodeFault>(
            (addrspace, behind(s, seq![addrspace_tag(addrspace)])),
        ),
{
    reads_byte(s, addrspace_tag(addrspace));
}

pub open spec fn abi_fits(abi: AbiShape) -> bool {
    abi matches AbiShape::Extern(name) ==> text_fits(name)
}

proof fn reads_abi(s: Input, abi: AbiShape)
    requires
        offers(s, enc_abi(abi)),
        abi_fits(abi),
    ensures
        parse_abi(s) == Ok::<(AbiShape, Input), DecodeFault>((abi, behind(s, enc_abi(abi)))),
{
    match abi {
        AbiShape::Extern(name) => {
            offers_parts(s, seq![4u8], enc_text(name));
            reads_byte(s, 4);
            reads_text(behind(s, seq![4u8]), name);
        },
        _ => {
            reads_byte(s, crate::hir::function_type::abi_tag(abi));
        },
    }
}

proof fn reads_repr(s: Input, repr: TypeRepr)
    requires
        offers(s, enc_repr(repr)),
        repr_ok(repr),
    ensures
        parse_repr(s) == Ok::<(TypeRepr, Input), DecodeFault>((repr, behind(s, enc_repr(repr)))),
{
    pow256_values();
    match repr {
        TypeRepr::Default => {
            reads_byte(s, 0);
        },
        TypeRepr::Align(align) => {
            offers_parts(s, seq![1u8], le(align as nat, 2));
            reads_byte(s, 1);
            reads_number(behind(s, seq![1u8]), align as nat, 2);
        },
        TypeRepr::Packed(align) => {
            offers_parts(s, seq![2u8], le(align as nat, 2));
            reads_byte(s, 2);
            reads_number(behind(s, seq![2u8]), align as nat, 2);
        },
        TypeRepr::Transparent => {
            reads_byte(s, 3);
        },
    }
}

pub open spec fn value_fits(value: Option<u128>, width: nat) -> bool {
    value matches Some(value) ==> (value as nat) < pow256(width)
}

proof fn reads_discriminant(s: Input, value: Option<u128>, width: nat)
    requires
        offers(s, enc_discriminant(value, width)),
        value_fits(value, width),
    ensures
        parse_discriminant(s, width) == Ok::<(Option<u128>, Input), DecodeFault>(
            (value, behind(s, enc_discriminant(value, width))),
        ),
{
    match value {
        Some(value) => {
            offers_parts(s, flag(true), le(value as nat, width));
            reads_flag(s, true);
            reads_number(behind(s, flag(true)), value as nat, width);
        },
        None => {
            reads_flag(s, false);
        },
    }
}

// ---------------------------------------------------------------------------------------------
// Types
// ---------------------------------------------------------------------------------------------

/// What a type reads back as: inside a group, back-references read as names of definitions.
pub open spec fn read_as(t: Shape, group: Option<nat>) -> Shape {
    match group {
        None => t,
        Some(_) => renamed(t),
    }
}

pub open spec fn all_read_as(types: Seq<Shape>, group: Option<nat>) -> Seq<Shape> {
    Seq::new(types.len(), |i: int| read_as(types[i], group))
}

pub open spec fn fields_read_as(fields: Seq<FieldShape>, group: Option<nat>) -> Seq<FieldShape> {
    Seq::new(
        fields.len(),
        |i: int| FieldShape { name: fields[i].name, ty: read_as(fields[i].ty, group) },
    )
}

pub open spec fn payload_read_as(value: Option<Shape>, group: Option<nat>) -> Option<Shape> {
    match value {
        Some(value) => Some(read_as(value, group)),
        None => None,
    }
}

pub open spec fn variant_read_as(variant: VariantShape, group: Option<nat>) -> VariantShape {
    VariantShape {
        name: variant.name,
        value: payload_read_as(variant.value, group),
        discriminant_value: variant.discriminant_value,
    }
}

pub open spec fn variants_read_as(
    variants: Seq<VariantShape>,
    group: Option<nat>,
) -> Seq<VariantShape> {
    Seq::new(variants.len(), |i: int| variant_read_as(variants[i], group))
}

pub open spec fn struct_read_as(s: StructShape, group: Option<nat>) -> StructShape {
    StructShape { name: s.name, repr: s.repr, fields: fields_read_as(s.fields, group) }
}

pub open spec fn enum_read_as(e: EnumShape, group: Option<nat>) -> EnumShape {
    EnumShape {
        name: e.name,
        discriminant: e.discriminant,
        variants: variants_read_as(e.variants, group),
    }
}

pub open spec fn function_read_as(f: FunctionShape, group: Option<nat>) -> FunctionShape {
    FunctionShape {
        abi: f.abi,
        params: all_read_as(f.params, group),
        results: all_read_as(f.results, group),
    }
}

pub proof fn parts_read_as(t: Shape, group: Option<nat>)
    ensures
        read_as(t, group) == (match t {
            Shape::Ptr(addrspace, pointee) => Shape::Ptr(
                addrspace,
                Box::new(read_as(*pointee, group)),
            ),
            Shape::Array(element, n) => Shape::Array(Box::new(read_as(*element, group)), n),
            Shape::List(element) => Shape::List(Box::new(read_as(*element, group))),
            Shape::Function(f) => Shape::Function(function_read_as(f, group)),
            Shape::Struct(s) => Shape::Struct(struct_read_as(s, group)),
            Shape::Enum(e) => Shape::Enum(enum_read_as(e, group)),
            Shape::Var(i) => if group is Some {
                Shape::Name(slot_key(i))
            } else {
                t
            },
            _ => t,
        }),
{
    renamed_unfold(t);
    match t {
        Shape::Function(f) => {
            assert(function_read_as(f, group).params =~= (if group is Some {
                renamed_all(f.params)
            } else {
                f.params
            }));
            assert(function_read_as(f, group).results =~= (if group is Some {
                renamed_all(f.results)
            } else {
                f.results
            }));
        },
        Shape::Struct(s) => {
            assert(fields_read_as(s.fields, group) =~= (if group is Some {
                renamed_fields(s.fields)
            } else {
                s.fields
            }));
        },
        Shape::Enum(e) => {
            let all = variants_read_as(e.variants, group);
            assert forall|i: int| 0 <= i < e.variants.len() implies #[trigger] all[i] == (
            if group is Some {
                renamed_variants(e.variants)
            } else {
                e.variants
            })[i] by {
                if group is None {
                    assert(payload_read_as(e.variants[i].value, group) == e.variants[i].value);
                }
            }
            assert(all =~= (if group is Some {
                renamed_variants(e.variants)
            } else {
                e.variants
            }));
        },
        _ => {},
    }
}

/// The types that can be written and read back: they nest at most `depth` deep, a variadic stands
/// last in a signature or not at all, arrays take at most 32 bits to count their bytes, groups are
/// in canonical order, texts and lists can be counted, and every part is valid.
#[verifier::opaque]
pub open spec fn readable(t: Shape, depth: nat, group: Option<nat>) -> bool
    decreases t,
{
    let inner = (depth - 1) as nat;
    match t {
        Shape::Ptr(_, pointee) => depth > 0 && readable(*pointee, inner, group),
        Shape::Array(element, n) => {
            &&& depth > 0
            &&& readable(*element, inner, group)
            &&& n <= usize::MAX
            &&& !oversized_array(read_as(*element, group), n, group)
        },
        Shape::List(element) => depth > 0 && readable(*element, inner, group),
        Shape::Function(f) => {
            &&& depth > 0
            &&& abi_fits(f.abi)
            &&& f.params.len() <= usize::MAX
            &&& f.results.len() <= usize::MAX
            &&& forall|i: int|
                0 <= i < f.params.len() ==> (#[trigger] f.params[i] is Variadic && i
                    == f.params.len() - 1) || readable(f.params[i], inner, group)
            &&& forall|i: int|
                0 <= i < f.results.len() ==> (#[trigger] f.results[i] is Variadic && i
                    == f.results.len() - 1) || readable(f.results[i], inner, group)
        },
        Shape::Struct(s) => {
            &&& depth > 0
            &&& label_fits(s.name)
            &&& repr_ok(s.repr)
            &&& s.fields.len() <= 255
            &&& group is None ==> struct_fault(s) is None
            &&& forall|i: int|
                0 <= i < s.fields.len() ==> {
                    &&& label_fits((#[trigger] s.fields[i]).name)
                    &&& readable(s.fields[i].ty, inner, group)
                    &&& group is None ==> metrics(s.fields[i].ty, Seq::empty()).bytes() <= u32::MAX
                }
        },
        Shape::Enum(e) => {
            &&& depth > 0
            &&& text_fits(e.name)
            &&& is_discriminant(*e.discriminant)
            &&& e.variants.len() <= usize::MAX
            &&& group is None ==> enum_problem(e) is None
            &&& forall|i: int|
                0 <= i < e.variants.len() ==> {
                    &&& text_fits((#[trigger] e.variants[i]).name)
                    &&& value_fits(
                        e.variants[i].discriminant_value,
                        discriminant_width(*e.discriminant),
                    )
                    &&& e.variants[i].value matches Some(value) ==> readable(value, inner, group)
                }
        },
        Shape::Rec(definitions, i) => {
            &&& depth > 0
            &&& 1 <= definitions.len() <= MAX_RECURSIVE_GROUP_SIZE
            &&& i < definitions.len()
            &&& canonical(definitions)
            &&& forall|k: int|
                0 <= k < definitions.len() ==> {
                    &&& (#[trigger] definitions[k]) is Struct || definitions[k] is Enum
                    &&& readable(definitions[k], depth, Some(definitions.len()))
                }
        },
        Shape::Var(i) => group is Some && i < group->0 <= MAX_RECURSIVE_GROUP_SIZE,
        Shape::Variadic => false,
        Shape::Name(_) => false,
        _ => true,
    }
}

pub open spec fn tag_of(t: Shape) -> u8 {
    match t {
        Shape::Ptr(_, _) => 16,
        Shape::Struct(_) => 17,
        Shape::Array(_, _) => 18,
        Shape::List(_) => 19,
        Shape::Function(_) => 20,
        Shape::Enum(_) => 21,
        Shape::Rec(_, _) => TAG_RECURSIVE_GROUP,
        Shape::Var(_) => TAG_RECURSIVE_REF,
        _ => atom_tag(t),
    }
}

/// What follows the tag of a type.
pub open spec fn body_of(t: Shape) -> Seq<u8> {
    match t {
        Shape::Ptr(addrspace, pointee) => seq![addrspace_tag(addrspace)] + enc(*pointee),
        Shape::Struct(s) => enc_struct(s),
        Shape::Array(element, n) => vint(n) + enc(*element),
        Shape::List(element) => enc(*element),
        Shape::Function(f) => enc_function(f),
        Shape::Enum(e) => enc_enum(e),
        Shape::Rec(definitions, i) => le(definitions.len(), 2) + (enc_kinds(definitions) + (
        enc_bodies(definitions) + le(i, 2))),
        Shape::Var(i) => le(i, 2),
        _ => Seq::empty(),
    }
}

proof fn tag_comes_first(t: Shape)
    ensures
        enc(t) == seq![tag_of(t)] + body_of(t),
{
    assert(enc(t) =~= seq![tag_of(t)] + body_of(t));
}

proof fn lists_are_long(types: Seq<Shape>)
    ensures
        enc_all(types).len() >= types.len(),
    decreases types.len(),
{
    if types.len() > 0 {
        lists_are_long(types.drop_last());
        tag_comes_first(types[types.len() - 1]);
    }
}

proof fn texts_are_long(text: Seq<char>)
    requires
        text_fits(text),
    ensures
        enc_text(text).len() >= 1,
{
    vint_gives_back(encode_utf8(text).len(), Seq::empty());
}

proof fn variants_are_long(variants: Seq<VariantShape>, width: nat)
    requires
        forall|i: int| 0 <= i < variants.len() ==> text_fits((#[trigger] variants[i]).name),
    ensures
        enc_variants(variants, width).len() >= variants.len(),
    decreases variants.len(),
{
    if variants.len() > 0 {
        let rest = variants.drop_last();
        assert forall|i: int| 0 <= i < rest.len() implies text_fits((#[trigger] rest[i]).name) by {
            assert(rest[i] == variants[i]);
        }
        variants_are_long(rest, width);
        texts_are_long(variants[variants.len() - 1].name);
    }
}

/// A type that can be read back is read back.
pub proof fn reads_type(t: Shape, s: Input, depth: nat, group: Option<nat>)
    requires
        readable(t, depth, group),
        offers(s, enc(t)),
    ensures
        parse(s, depth, group) == Ok::<(Shape, Input), DecodeFault>(
            (read_as(t, group), behind(s, enc(t))),
        ),
    decreases t, 1nat,
{
    tag_comes_first(t);
    let tag = tag_of(t);
    offers_parts(s, seq![tag], body_of(t));
    reads_byte(s, tag);
    let next = behind(s, seq![tag]);
    parse_unfold(s, depth, group);
    parts_read_as(t, group);
    reveal(readable);
    reveal(parse_open);
    reveal(parse_closed);
    if 16 <= tag <= 21 {
        reads_compound(t, next, (depth - 1) as nat, group);
    } else if let Shape::Rec(definitions, i) = t {
        reads_group(definitions, i, next, (depth - 1) as nat);
    } else if let Shape::Var(i) = t {
        pow256_values();
        reads_number(next, i, 2);
    } else {
        assert(behind(s, enc(t)) == next);
    }
}

proof fn reads_compound(t: Shape, s: Input, depth: nat, group: Option<nat>)
    requires
        16 <= tag_of(t) <= 21,
        readable(t, depth + 1, group),
        offers(s, body_of(t)),
    ensures
        parse_compound(s, tag_of(t), at_depth(depth), group) == Ok::<(Shape, Input), DecodeFault>(
            (read_as(t, group), behind(s, body_of(t))),
        ),
    decreases t, 0nat,
{
    reveal(parse_compound);
    reveal(readable);
    at_depth_parses(depth);
    parts_read_as(t, group);
    match t {
        Shape::Ptr(addrspace, pointee) => {
            let tag = seq![addrspace_tag(addrspace)];
            offers_parts(s, tag, enc(*pointee));
            reads_addrspace(s, addrspace);
            reads_type(*pointee, behind(s, tag), depth, group);
        },
        Shape::Array(element, n) => {
            offers_parts(s, vint(n), enc(*element));
            reads_count(s, n);
            reads_type(*element, behind(s, vint(n)), depth, group);
        },
        Shape::List(element) => {
            reads_type(*element, s, depth, group);
        },
        Shape::Function(f) => {
            reads_function(f, s, depth, group);
        },
        Shape::Struct(made) => {
            reads_struct(made, s, depth, group);
        },
        Shape::Enum(e) => {
            reads_enum(e, s, depth, group);
        },
        _ => {},
    }
}

proof fn reads_entries(types: Seq<Shape>, n: nat, s: Input, depth: nat, group: Option<nat>)
    requires
        n <= types.len(),
        forall|i: int|
            0 <= i < types.len() ==> (#[trigger] types[i] is Variadic && i == types.len() - 1)
                || readable(types[i], depth, group),
        offers(s, enc_all(types.take(n as int))),
    ensures
        parse_entries(s, at_depth(depth), group, types.len(), n) == Ok::<
            (Seq<Shape>, Input),
            DecodeFault,
        >((all_read_as(types.take(n as int), group), behind(s, enc_all(types.take(n as int))))),
    decreases types, n,
{
    let all = types.take(n as int);
    if n == 0 {
        assert(all_read_as(all, group) =~= Seq::empty());
        assert(behind(s, Seq::empty()).rest =~= s.rest);
    } else {
        let before = types.take(n - 1);
        let t = types[n - 1];
        assert(all.drop_last() =~= before);
        offers_parts(s, enc_all(before), enc(t));
        reads_entries(types, (n - 1) as nat, s, depth, group);
        let next = behind(s, enc_all(before));
        reveal(parse_entry);
        at_depth_parses(depth);
        tag_comes_first(t);
        offers_parts(next, seq![tag_of(t)], body_of(t));
        reads_byte(next, tag_of(t));
        if t is Variadic && n == types.len() {
            parts_read_as(t, group);
            assert(behind(next, seq![tag_of(t)]) == behind(next, enc(t)));
        } else {
            assert(tag_of(t) != TAG_VARIADIC) by {
                reveal(readable);
            }
            reads_type(t, next, depth, group);
        }
        assert(all_read_as(all, group) =~= all_read_as(before, group).push(read_as(t, group)));
    }
}

proof fn reads_function(f: FunctionShape, s: Input, depth: nat, group: Option<nat>)
    requires
        readable(Shape::Function(f), depth + 1, group),
        offers(s, enc_function(f)),
    ensures
        parse_function(s, at_depth(depth), group) == Ok::<(FunctionShape, Input), DecodeFault>(
            (function_read_as(f, group), behind(s, enc_function(f))),
        ),
    decreases f, 0nat,
{
    reveal(readable);
    reveal(parse_function);
    let abi = enc_abi(f.abi);
    let arity = vint(f.params.len());
    let params = enc_all(f.params);
    let count = vint(f.results.len());
    let results = enc_all(f.results);
    lists_are_long(f.params);
    lists_are_long(f.results);
    let last = count + results;
    let middle = params + last;
    assert(enc_function(f) =~= abi + (arity + middle));
    offers_parts(s, abi, arity + middle);
    reads_abi(s, f.abi);
    let a = behind(s, abi);
    reads_counted(a, f.params.len(), Counted::Params, middle);
    let b = behind(a, arity);
    offers_parts(b, params, last);
    assert(f.params.take(f.params.len() as int) =~= f.params);
    reads_entries(f.params, f.params.len(), b, depth, group);
    let c = behind(b, params);
    reads_counted(c, f.results.len(), Counted::Results, results);
    assert(f.results.take(f.results.len() as int) =~= f.results);
    reads_entries(f.results, f.results.len(), behind(c, count), depth, group);
}

proof fn reads_fields(fields: Seq<FieldShape>, n: nat, s: Input, depth: nat, group: Option<nat>)
    requires
        n <= fields.len(),
        forall|i: int|
            0 <= i < fields.len() ==> label_fits((#[trigger] fields[i]).name) && readable(
                fields[i].ty,
                depth,
                group,
            ),
        group is None ==> forall|i: int|
            0 <= i < fields.len() ==> metrics((#[trigger] fields[i]).ty, Seq::empty()).bytes()
                <= u32::MAX,
        offers(s, enc_fields(fields.take(n as int))),
    ensures
        parse_fields(s, at_depth(depth), group, n) == Ok::<
            (Seq<FieldShape>, Input),
            DecodeFault,
        >(
            (
                fields_read_as(fields.take(n as int), group),
                behind(s, enc_fields(fields.take(n as int))),
            ),
        ),
    decreases fields, n,
{
    let all = fields.take(n as int);
    if n == 0 {
        assert(fields_read_as(all, group) =~= Seq::empty());
        assert(behind(s, Seq::empty()).rest =~= s.rest);
    } else {
        let before = fields.take(n - 1);
        let field = fields[n - 1];
        assert(all.drop_last() =~= before);
        offers_parts(s, enc_fields(before), enc_label(field.name) + enc(field.ty));
        reads_fields(fields, (n - 1) as nat, s, depth, group);
        let next = behind(s, enc_fields(before));
        reveal(parse_field);
        at_depth_parses(depth);
        offers_parts(next, enc_label(field.name), enc(field.ty));
        reads_label(next, field.name);
        reads_type(field.ty, behind(next, enc_label(field.name)), depth, group);
        assert(fields_read_as(all, group) =~= fields_read_as(before, group).push(
            FieldShape { name: field.name, ty: read_as(field.ty, group) },
        ));
    }
}

proof fn reads_struct(made: StructShape, s: Input, depth: nat, group: Option<nat>)
    requires
        readable(Shape::Struct(made), depth + 1, group),
        offers(s, enc_struct(made)),
    ensures
        parse_struct(s, at_depth(depth), group) == Ok::<(StructShape, Input), DecodeFault>(
            (struct_read_as(made, group), behind(s, enc_struct(made))),
        ),
    decreases made, 0nat,
{
    reveal(readable);
    reveal(parse_struct);
    let name = enc_label(made.name);
    let repr = enc_repr(made.repr);
    let n = seq![made.fields.len() as u8];
    let fields = enc_fields(made.fields);
    assert(enc_struct(made) =~= name + (repr + (n + fields)));
    offers_parts(s, name, repr + (n + fields));
    reads_label(s, made.name);
    let a = behind(s, name);
    offers_parts(a, repr, n + fields);
    reads_repr(a, made.repr);
    let b = behind(a, repr);
    offers_parts(b, n, fields);
    reads_byte(b, made.fields.len() as u8);
    assert(made.fields.take(made.fields.len() as int) =~= made.fields);
    if group is None {
        assert(fields_read_as(made.fields, group) =~= made.fields);
    }
    reads_fields(made.fields, made.fields.len(), behind(b, n), depth, group);
}

/// The bytes of a variant.
pub open spec fn enc_variant(variant: VariantShape, width: nat) -> Seq<u8> {
    enc_text(variant.name) + (match variant.value {
        Some(value) => flag(true) + enc(value),
        None => flag(false),
    }) + enc_discriminant(variant.discriminant_value, width)
}

proof fn reads_payload(variant: VariantShape, s: Input, depth: nat, group: Option<nat>)
    requires
        variant.value matches Some(value) ==> readable(value, depth, group),
        offers(
            s,
            match variant.value {
                Some(value) => flag(true) + enc(value),
                None => flag(false),
            },
        ),
    ensures
        parse_payload(s, at_depth(depth), group) == Ok::<(Option<Shape>, Input), DecodeFault>(
            (
                payload_read_as(variant.value, group),
                behind(
                    s,
                    match variant.value {
                        Some(value) => flag(true) + enc(value),
                        None => flag(false),
                    },
                ),
            ),
        ),
    decreases variant, 0nat,
{
    reveal(parse_payload);
    at_depth_parses(depth);
    match variant.value {
        Some(value) => {
            offers_parts(s, flag(true), enc(value));
            reads_flag(s, true);
            reads_type(value, behind(s, flag(true)), depth, group);
        },
        None => {
            reads_flag(s, false);
        },
    }
}

proof fn reads_variant(
    variant: VariantShape,
    s: Input,
    depth: nat,
    group: Option<nat>,
    width: nat,
)
    requires
        text_fits(variant.name),
        value_fits(variant.discriminant_value, width),
        variant.value matches Some(value) ==> readable(value, depth, group),
        offers(s, enc_variant(variant, width)),
    ensures
        parse_variant(s, at_depth(depth), group, width) == Ok::<
            (VariantShape, Input),
            DecodeFault,
        >((variant_read_as(variant, group), behind(s, enc_variant(variant, width)))),
    decreases variant, 1nat,
{
    reveal(parse_variant);
    let name = enc_text(variant.name);
    let payload = match variant.value {
        Some(value) => flag(true) + enc(value),
        None => flag(false),
    };
    let explicit = enc_discriminant(variant.discriminant_value, width);
    assert(enc_variant(variant, width) =~= name + (payload + explicit));
    offers_parts(s, name, payload + explicit);
    reads_text(s, variant.name);
    let next = behind(s, name);
    offers_parts(next, payload, explicit);
    reads_payload(variant, next, depth, group);
    reads_discriminant(behind(next, payload), variant.discriminant_value, width);
}

proof fn reads_variants(
    variants: Seq<VariantShape>,
    n: nat,
    s: Input,
    depth: nat,
    group: Option<nat>,
    width: nat,
)
    requires
        n <= variants.len(),
        forall|i: int|
            0 <= i < variants.len() ==> {
                &&& text_fits((#[trigger] variants[i]).name)
                &&& value_fits(variants[i].discriminant_value, width)
                &&& variants[i].value matches Some(value) ==> readable(value, depth, group)
            },
        offers(s, enc_variants(variants.take(n as int), width)),
    ensures
        parse_variants(s, at_depth(depth), group, width, n) == Ok::<
            (Seq<VariantShape>, Input),
            DecodeFault,
        >(
            (
                variants_read_as(variants.take(n as int), group),
                behind(s, enc_variants(variants.take(n as int), width)),
            ),
        ),
    decreases variants, n,
{
    let all = variants.take(n as int);
    if n == 0 {
        assert(variants_read_as(all, group) =~= Seq::empty());
        assert(behind(s, Seq::empty()).rest =~= s.rest);
    } else {
        let before = variants.take(n - 1);
        let variant = variants[n - 1];
        assert(all.drop_last() =~= before);
        offers_parts(s, enc_variants(before, width), enc_variant(variant, width));
        reads_variants(variants, (n - 1) as nat, s, depth, group, width);
        reads_variant(variant, behind(s, enc_variants(before, width)), depth, group, width);
        assert(variants_read_as(all, group) =~= variants_read_as(before, group).push(
            variant_read_as(variant, group),
        ));
    }
}

proof fn reads_enum(e: EnumShape, s: Input, depth: nat, group: Option<nat>)
    requires
        readable(Shape::Enum(e), depth + 1, group),
        offers(s, enc_enum(e)),
    ensures
        parse_enum(s, at_depth(depth), group) == Ok::<(EnumShape, Input), DecodeFault>(
            (enum_read_as(e, group), behind(s, enc_enum(e))),
        ),
    decreases e, 0nat,
{
    reveal(readable);
    reveal(parse_enum);
    at_depth_parses(depth);
    let width = discriminant_width(*e.discriminant);
    let name = enc_text(e.name);
    let discriminant = enc(*e.discriminant);
    let count = vint(e.variants.len());
    let variants = enc_variants(e.variants, width);
    assert(enc_enum(e) =~= name + (discriminant + (count + variants)));
    offers_parts(s, name, discriminant + (count + variants));
    reads_text(s, e.name);
    let a = behind(s, name);
    offers_parts(a, discriminant, count + variants);
    assert(readable(*e.discriminant, depth, None)) by {
        reveal(readable);
    }
    reads_type(*e.discriminant, a, depth, None);
    let b = behind(a, discriminant);
    variants_are_long(e.variants, width);
    reads_counted(b, e.variants.len(), Counted::Variants, variants);
    reads_count_of(b, e.variants.len(), variants);
    assert(e.variants.take(e.variants.len() as int) =~= e.variants);
    if group is None {
        assert forall|i: int| 0 <= i < e.variants.len() implies #[trigger] variants_read_as(
            e.variants,
            group,
        )[i] == e.variants[i] by {
            assert(payload_read_as(e.variants[i].value, group) == e.variants[i].value);
        }
        assert(variants_read_as(e.variants, group) =~= e.variants);
        assert(enum_read_as(e, group) == e);
    }
    reads_variants(e.variants, e.variants.len(), behind(b, count), depth, group, width);
}

proof fn reads_count_of(s: Input, x: nat, rest: Seq<u8>)
    requires
        offers(s, vint(x) + rest),
        x <= usize::MAX,
    ensures
        parse_count(s) == Ok::<(nat, Input), DecodeFault>((x, behind(s, vint(x)))),
{
    offers_parts(s, vint(x), rest);
    reads_count(s, x);
}

proof fn reads_kinds(definitions: Seq<Shape>, n: nat, s: Input)
    requires
        n <= definitions.len(),
        offers(s, enc_kinds(definitions).take(n as int)),
    ensures
        parse_kinds(s, n) == Ok::<(Seq<bool>, Input), DecodeFault>(
            (
                Seq::new(n, |i: int| !(definitions[i] is Struct)),
                behind(s, enc_kinds(definitions).take(n as int)),
            ),
        ),
    decreases n,
{
    let kinds = Seq::new(n, |i: int| !(definitions[i] is Struct));
    let all = enc_kinds(definitions).take(n as int);
    if n == 0 {
        assert(kinds =~= Seq::empty());
        assert(behind(s, all).rest =~= s.rest);
    } else {
        let before = enc_kinds(definitions).take(n - 1);
        let tag = kind_tag(definitions[n - 1]);
        assert(all =~= before + seq![tag]);
        offers_parts(s, before, seq![tag]);
        reads_kinds(definitions, (n - 1) as nat, s);
        reads_byte(behind(s, before), tag);
        assert(kinds =~= Seq::new((n - 1) as nat, |i: int| !(definitions[i] is Struct)).push(
            !(definitions[n - 1] is Struct),
        ));
    }
}

proof fn reads_bodies(definitions: Seq<Shape>, n: nat, s: Input, depth: nat)
    requires
        n <= definitions.len(),
        forall|k: int|
            0 <= k < definitions.len() ==> {
                &&& (#[trigger] definitions[k]) is Struct || definitions[k] is Enum
                &&& readable(definitions[k], depth + 1, Some(definitions.len()))
            },
        offers(s, enc_bodies(definitions.take(n as int))),
    ensures
        parse_bodies(
            s,
            at_depth(depth),
            Seq::new(definitions.len(), |i: int| !(definitions[i] is Struct)),
            n,
        ) == Ok::<(Seq<Shape>, Input), DecodeFault>(
            (
                renamed_all(definitions.take(n as int)),
                behind(s, enc_bodies(definitions.take(n as int))),
            ),
        ),
    decreases definitions, n,
{
    let all = definitions.take(n as int);
    let group = Some(definitions.len());
    if n == 0 {
        assert(renamed_all(all) =~= Seq::empty());
        assert(behind(s, enc_bodies(all)).rest =~= s.rest);
    } else {
        let before = definitions.take(n - 1);
        let body = definitions[n - 1];
        assert(all.drop_last() =~= before);
        let bytes = match body {
            Shape::Struct(made) => enc_struct(made),
            Shape::Enum(e) => enc_enum(e),
            _ => Seq::empty(),
        };
        offers_parts(s, enc_bodies(before), bytes);
        reads_bodies(definitions, (n - 1) as nat, s, depth);
        let next = behind(s, enc_bodies(before));
        parts_read_as(body, group);
        match body {
            Shape::Struct(made) => {
                reads_struct(made, next, depth, group);
            },
            Shape::Enum(e) => {
                reads_enum(e, next, depth, group);
            },
            _ => {},
        }
        assert(renamed_all(all) =~= renamed_all(before).push(renamed(body)));
    }
}

proof fn canonical_groups_assemble(definitions: Seq<Shape>, i: nat)
    requires
        canonical(definitions),
        i < definitions.len(),
    ensures
        assembled(renamed_all(definitions), i) == Ok::<Shape, DecodeFault>(
            Shape::Rec(definitions, i),
        ),
{
    own_references_are_in_order(definitions, 0);
}

proof fn own_references_are_in_order(definitions: Seq<Shape>, i: int)
    requires
        0 <= i <= definitions.len(),
    ensures
        order_fault(own_references(definitions), i) is None,
    decreases definitions.len() - i,
{
    if i < definitions.len() {
        own_references_are_in_order(definitions, i + 1);
    }
}

proof fn reads_group(definitions: Seq<Shape>, i: nat, s: Input, depth: nat)
    requires
        readable(Shape::Rec(definitions, i), depth + 1, None)
            || exists|n: nat| readable(Shape::Rec(definitions, i), depth + 1, Some(n)),
        offers(s, body_of(Shape::Rec(definitions, i))),
    ensures
        parse_group(s, at_depth(depth)) == Ok::<(Shape, Input), DecodeFault>(
            (Shape::Rec(definitions, i), behind(s, body_of(Shape::Rec(definitions, i)))),
        ),
    decreases definitions, definitions.len() + 1,
{
    reveal(readable);
    reveal(parse_group);
    pow256_values();
    let n = definitions.len();
    let count = le(n, 2);
    let kinds = enc_kinds(definitions);
    let bodies = enc_bodies(definitions);
    let root = le(i, 2);
    offers_parts(s, count, kinds + (bodies + root));
    reads_number(s, n, 2);
    let a = behind(s, count);
    offers_parts(a, kinds, bodies + root);
    assert(kinds.take(n as int) =~= kinds);
    reads_kinds(definitions, n, a);
    let b = behind(a, kinds);
    offers_parts(b, bodies, root);
    assert(definitions.take(n as int) =~= definitions);
    reads_bodies(definitions, n, b, depth);
    reads_number(behind(b, bodies), i, 2);
    canonical_groups_assemble(definitions, i);
}

} // verus!
