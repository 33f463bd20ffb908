//! Completed types in full, with their layouts: what completed recursive types are ordered by.
//!
//! A type is written as a value of Rust is for debugging. Each part stands between delimiters, and
//! what a part is comes before what it holds.
use vstd::prelude::*;

use crate::hir::layout::types_are_closed;
use crate::hir::metrics::{
    enum_metrics, field_align, field_metrics, field_offset, group_metrics, metrics, payload_metrics,
    payload_offset, struct_size, Metrics,
};
use crate::hir::recursive::key::{
    abi_key_text, atom_text, decimal, discriminant_text, label_text, lit, put, put_abi, put_atom,
    put_decimal, put_discriminant, put_label, put_quoted, put_repr, quoted_bytes, repr_text,
};
use crate::hir::shape::{has_var, AddressSpace, FieldShape, Shape, TypeRepr, VariantShape};
use crate::hir::types::{
    bodies_wf_unfold, body_shapes, body_wf, enum_shape, enum_wf, field_shapes, function_shape,
    function_wf, group_layouts, label, layout_is, open_enum_shape, open_enum_wf, open_field_shapes,
    open_shape_unfold, open_shapes, open_struct_shape, open_struct_wf, open_variant_shapes, open_wf,
    open_wf_unfold, rec_wf, shape_unfold, shapes, struct_shape, struct_wf, variant_shape,
    variant_shapes, wf, wf_unfold, AggregateKind, EnumRef, EnumType, FunctionType, OpenAggregate,
    OpenEnumType, OpenStructField, OpenStructType, OpenType, OpenVariant, RecTypeRef, StructField,
    StructRef, StructType, Type, TypeLayout, Variant,
};

verus! {

/// What stands in front of entry `n` of a list.
pub open spec fn comma(n: nat) -> Seq<u8> {
    if n == 0 {
        Seq::empty()
    } else {
        lit(", ")
    }
}

pub open spec fn addrspace_name(addrspace: AddressSpace) -> Seq<u8> {
    match addrspace {
        AddressSpace::Byte => lit("Byte"),
        AddressSpace::Element => lit("Element"),
    }
}

/// What is written of a struct in front of its fields, behind its kind.
pub open spec fn struct_head(name: Option<Seq<char>>, repr: TypeRepr, size: nat) -> Seq<u8> {
    label_text(name) + lit(", repr: ") + repr_text(repr) + lit(", size: ") + decimal(size) + lit(
        ", fields: [",
    )
}

/// What is written of a field in front of its type, behind its kind.
pub open spec fn field_head(
    name: Option<Seq<char>>,
    index: nat,
    align: nat,
    offset: nat,
) -> Seq<u8> {
    label_text(name) + lit(", index: ") + decimal(index) + lit(", align: ") + decimal(align) + lit(
        ", offset: ",
    ) + decimal(offset) + lit(", ty: ")
}

/// What is written of an enum behind its variants.
pub open spec fn enum_tail(
    discriminant: Metrics,
    payloads: Seq<Option<Metrics>>,
) -> Seq<u8> {
    lit("], offsets: [") + shown_offsets(discriminant, payloads, payloads.len()) + lit("], size: ")
        + decimal(enum_metrics(discriminant, payloads).bits / 8) + lit(", align: ") + decimal(
        enum_metrics(discriminant, payloads).align,
    )
}

/// The offsets of the first `n` payloads.
pub open spec fn shown_offsets(
    discriminant: Metrics,
    payloads: Seq<Option<Metrics>>,
    n: nat,
) -> Seq<u8>
    decreases n,
{
    if n == 0 {
        Seq::empty()
    } else {
        let i = (n - 1) as nat;
        shown_offsets(discriminant, payloads, i) + comma(i) + decimal(
            payload_offset(discriminant, payloads[i as int]),
        )
    }
}

/// What is written of a definition behind its body.
pub open spec fn layout_text(layout: Metrics) -> Seq<u8> {
    lit(", layout: TypeLayout { size_in_bytes: ") + decimal(layout.bits / 8) + lit(
        ", min_alignment: ",
    ) + decimal(layout.align) + (if layout.zst {
        lit(", is_zst: true } }")
    } else {
        lit(", is_zst: false } }")
    })
}

/// A type in full. Inside a group, which `open` says, `group` gives the layouts of the definitions,
/// and a part that refers to none of them is marked as closed.
pub open spec fn shown(t: Shape, open: bool, group: Seq<Metrics>) -> Seq<u8>
    decreases t, 1nat,
{
    if open && !has_var(t) {
        lit("Closed(") + spine(t, false, Seq::empty()) + lit(")")
    } else {
        spine(t, open, group)
    }
}

/// A type in full, without such a mark.
pub open spec fn spine(t: Shape, open: bool, group: Seq<Metrics>) -> Seq<u8>
    decreases t, 0nat,
{
    match t {
        Shape::Var(i) => lit("Var(") + decimal(i) + lit(")"),
        Shape::Name(_) => Seq::empty(),
        Shape::Ptr(addrspace, pointee) => if open {
            lit("Ptr(") + addrspace_name(addrspace) + lit(", ") + shown(*pointee, open, group)
                + lit(")")
        } else {
            lit("Ptr(PointerType { addrspace: ") + addrspace_name(addrspace) + lit(", pointee: ")
                + shown(*pointee, open, group) + lit(" })")
        },
        Shape::Array(element, n) => if open {
            lit("Array(") + shown(*element, open, group) + lit(", ") + decimal(n) + lit(")")
        } else {
            lit("Array(ArrayType { ty: ") + shown(*element, open, group) + lit(", len: ") + decimal(
                n,
            ) + lit(" })")
        },
        Shape::List(element) => lit("List(") + shown(*element, open, group) + lit(")"),
        Shape::Function(f) => (if open {
            lit("Function(OpenFunctionType { abi: ")
        } else {
            lit("Function(FunctionType { abi: ")
        }) + abi_key_text(f.abi) + lit(", params: [") + shown_all(f.params, open, group) + lit(
            "], results: [",
        ) + shown_all(f.results, open, group) + lit("] })"),
        Shape::Struct(s) => {
            let layouts = field_metrics(s.fields, group);
            (if open {
                lit("Struct(OpenStructType { name: ")
            } else {
                lit("Struct(Plain(StructType { name: ")
            }) + struct_head(s.name, s.repr, struct_size(s.repr, layouts)) + shown_fields(
                s.fields,
                s.repr,
                layouts,
                open,
                group,
            ) + (if open {
                lit("] })")
            } else {
                lit("] }))")
            })
        },
        Shape::Enum(e) => {
            let discriminant = metrics(*e.discriminant, Seq::empty());
            (if open {
                lit("Enum(OpenEnumType { name: ")
            } else {
                lit("Enum(Plain(EnumType { name: ")
            }) + quoted_bytes(e.name) + lit(", discriminant: ") + shown(
                *e.discriminant,
                false,
                Seq::empty(),
            ) + lit(", variants: [") + shown_variants(e.variants, open, group) + enum_tail(
                discriminant,
                payload_metrics(e.variants, group),
            ) + (if open {
                lit(" })")
            } else {
                lit(" }))")
            })
        },
        Shape::Rec(definitions, i) => (if definitions[i as int] is Struct {
            lit("Struct(Rec(RecTypeRef { group: RecGroup { defs: [")
        } else {
            lit("Enum(Rec(RecTypeRef { group: RecGroup { defs: [")
        }) + shown_definitions(definitions, group_metrics(definitions, definitions.len())) + lit(
            "] }, index: ",
        ) + decimal(i) + lit(" }))"),
        _ => atom_text(t),
    }
}

pub open spec fn shown_all(types: Seq<Shape>, open: bool, group: Seq<Metrics>) -> Seq<u8>
    decreases types, 0nat,
{
    if types.len() == 0 {
        Seq::empty()
    } else {
        let i = (types.len() - 1) as nat;
        shown_all(types.drop_last(), open, group) + comma(i) + shown(types[i as int], open, group)
    }
}

pub open spec fn shown_fields(
    fields: Seq<FieldShape>,
    repr: TypeRepr,
    layouts: Seq<Metrics>,
    open: bool,
    group: Seq<Metrics>,
) -> Seq<u8>
    decreases fields, 0nat,
{
    if fields.len() == 0 {
        Seq::empty()
    } else {
        let i = (fields.len() - 1) as nat;
        shown_fields(fields.drop_last(), repr, layouts, open, group) + comma(i) + shown_field(
            fields[i as int],
            i,
            field_align(repr, layouts[i as int]),
            field_offset(repr, layouts, i),
            open,
            group,
        )
    }
}

pub open spec fn shown_field(
    field: FieldShape,
    index: nat,
    align: nat,
    offset: nat,
    open: bool,
    group: Seq<Metrics>,
) -> Seq<u8>
    decreases field, 0nat,
{
    (if open {
        lit("OpenStructField { name: ")
    } else {
        lit("StructField { name: ")
    }) + field_head(field.name, index, align, offset) + shown(field.ty, open, group) + lit(" }")
}

pub open spec fn shown_payload(value: Option<Shape>, open: bool, group: Seq<Metrics>) -> Seq<u8>
    decreases value, 0nat,
{
    match value {
        Some(value) => lit("Some(") + shown(value, open, group) + lit(")"),
        None => lit("None"),
    }
}

pub open spec fn shown_variants(
    variants: Seq<VariantShape>,
    open: bool,
    group: Seq<Metrics>,
) -> Seq<u8>
    decreases variants, 0nat,
{
    if variants.len() == 0 {
        Seq::empty()
    } else {
        let i = (variants.len() - 1) as nat;
        shown_variants(variants.drop_last(), open, group) + comma(i) + shown_variant(
            variants[i as int],
            open,
            group,
        )
    }
}

pub open spec fn shown_variant(variant: VariantShape, open: bool, group: Seq<Metrics>) -> Seq<u8>
    decreases variant, 0nat,
{
    if open {
        lit("OpenVariant { name: ") + quoted_bytes(variant.name) + lit(", value: ")
            + shown_payload(variant.value, open, group) + lit(", discriminant_value: ")
            + discriminant_text(variant.discriminant_value) + lit(" }")
    } else {
        lit("Variant { name: ") + quoted_bytes(variant.name) + lit(", discriminant_value: ")
            + discriminant_text(variant.discriminant_value) + lit(", value: ") + shown_payload(
            variant.value,
            open,
            group,
        ) + lit(" }")
    }
}

pub open spec fn shown_definitions(definitions: Seq<Shape>, group: Seq<Metrics>) -> Seq<u8>
    decreases definitions, 0nat,
{
    if definitions.len() == 0 {
        Seq::empty()
    } else {
        let i = (definitions.len() - 1) as nat;
        let last = definitions[i as int];
        shown_definitions(definitions.drop_last(), group) + comma(i) + (if last is Struct {
            lit("RecDef { kind: Struct, body: ")
        } else {
            lit("RecDef { kind: Enum, body: ")
        }) + spine(last, true, group) + layout_text(group[i as int])
    }
}

proof fn shown_all_step(types: Seq<Shape>, open: bool, group: Seq<Metrics>, i: int)
    requires
        0 <= i < types.len(),
    ensures
        shown_all(types.take(i + 1), open, group) == shown_all(types.take(i), open, group) + comma(
            i as nat,
        ) + shown(types[i], open, group),
{
    assert(types.take(i + 1).drop_last() =~= types.take(i));
}

proof fn shown_fields_step(
    fields: Seq<FieldShape>,
    repr: TypeRepr,
    layouts: Seq<Metrics>,
    open: bool,
    group: Seq<Metrics>,
    i: int,
)
    requires
        0 <= i < fields.len(),
    ensures
        shown_fields(fields.take(i + 1), repr, layouts, open, group) == shown_fields(
            fields.take(i),
            repr,
            layouts,
            open,
            group,
        ) + comma(i as nat) + shown_field(
            fields[i],
            i as nat,
            field_align(repr, layouts[i]),
            field_offset(repr, layouts, i as nat),
            open,
            group,
        ),
{
    assert(fields.take(i + 1).drop_last() =~= fields.take(i));
}

proof fn shown_variants_step(
    variants: Seq<VariantShape>,
    open: bool,
    group: Seq<Metrics>,
    i: int,
)
    requires
        0 <= i < variants.len(),
    ensures
        shown_variants(variants.take(i + 1), open, group) == shown_variants(
            variants.take(i),
            open,
            group,
        ) + comma(i as nat) + shown_variant(variants[i], open, group),
{
    assert(variants.take(i + 1).drop_last() =~= variants.take(i));
}

proof fn shown_definitions_step(definitions: Seq<Shape>, group: Seq<Metrics>, i: int)
    requires
        0 <= i < definitions.len(),
    ensures
        shown_definitions(definitions.take(i + 1), group) == shown_definitions(
            definitions.take(i),
            group,
        ) + comma(i as nat) + (if definitions[i] is Struct {
            lit("RecDef { kind: Struct, body: ")
        } else {
            lit("RecDef { kind: Enum, body: ")
        }) + spine(definitions[i], true, group) + layout_text(group[i]),
{
    assert(definitions.take(i + 1).drop_last() =~= definitions.take(i));
}

/// What an open variant is.
pub open spec fn open_variant_shape(variant: OpenVariant) -> VariantShape {
    VariantShape {
        name: variant.name@,
        value: match variant.value {
            Some(value) => Some(value@),
            None => None,
        },
        discriminant_value: variant.discriminant_value,
    }
}

// ---------------------------------------------------------------------------------------------
// Writing them
// ---------------------------------------------------------------------------------------------

fn put_comma(out: &mut Vec<u8>, n: usize)
    ensures
        final(out)@ == old(out)@ + comma(n as nat),
{
    if n > 0 {
        put(out, ", ");
    }
    assert(out@ =~= old(out)@ + comma(n as nat));
}

fn put_addrspace_name(out: &mut Vec<u8>, addrspace: AddressSpace)
    ensures
        final(out)@ == old(out)@ + addrspace_name(addrspace),
{
    match addrspace {
        AddressSpace::Byte => {
            put(out, "Byte");
        },
        AddressSpace::Element => {
            put(out, "Element");
        },
    }
}

fn put_struct_head(out: &mut Vec<u8>, name: &Option<String>, repr: TypeRepr, size: u32)
    ensures
        final(out)@ == old(out)@ + struct_head(label(*name), repr, size as nat),
{
    let ghost start = out@;
    put_label(out, name);
    put(out, ", repr: ");
    put_repr(out, repr);
    put(out, ", size: ");
    put_decimal(out, size as u128);
    put(out, ", fields: [");
    assert(out@ =~= start + struct_head(label(*name), repr, size as nat));
}

fn put_field_head(out: &mut Vec<u8>, name: &Option<String>, index: u8, align: u16, offset: u32)
    ensures
        final(out)@ == old(out)@ + field_head(
            label(*name),
            index as nat,
            align as nat,
            offset as nat,
        ),
{
    let ghost start = out@;
    put_label(out, name);
    put(out, ", index: ");
    put_decimal(out, index as u128);
    put(out, ", align: ");
    put_decimal(out, align as u128);
    put(out, ", offset: ");
    put_decimal(out, offset as u128);
    put(out, ", ty: ");
    assert(out@ =~= start + field_head(label(*name), index as nat, align as nat, offset as nat));
}

fn put_enum_tail(
    out: &mut Vec<u8>,
    offsets: &Vec<u32>,
    size: u32,
    align: u32,
    Ghost(discriminant): Ghost<Metrics>,
    Ghost(payloads): Ghost<Seq<Option<Metrics>>>,
)
    requires
        offsets@.len() == payloads.len(),
        forall|i: int|
            0 <= i < offsets@.len() ==> #[trigger] offsets@[i] == payload_offset(
                discriminant,
                payloads[i],
            ),
        8 * (size as nat) == enum_metrics(discriminant, payloads).bits,
        align == enum_metrics(discriminant, payloads).align,
    ensures
        final(out)@ == old(out)@ + enum_tail(discriminant, payloads),
{
    let ghost start = out@;
    put(out, "], offsets: [");
    let ghost head = out@;
    let mut i: usize = 0;
    assert(out@ =~= head + shown_offsets(discriminant, payloads, 0));
    while i < offsets.len()
        invariant
            i <= offsets@.len(),
            offsets@.len() == payloads.len(),
            forall|i: int|
                0 <= i < offsets@.len() ==> #[trigger] offsets@[i] == payload_offset(
                    discriminant,
                    payloads[i],
                ),
            out@ == head + shown_offsets(discriminant, payloads, i as nat),
        decreases offsets@.len() - i,
    {
        put_comma(out, i);
        put_decimal(out, offsets[i] as u128);
        assert(out@ =~= head + shown_offsets(discriminant, payloads, (i + 1) as nat));
        i += 1;
    }
    put(out, "], size: ");
    put_decimal(out, size as u128);
    put(out, ", align: ");
    put_decimal(out, align as u128);
    assert(out@ =~= start + enum_tail(discriminant, payloads));
}

fn put_layout(out: &mut Vec<u8>, layout: &TypeLayout, Ghost(m): Ghost<Metrics>)
    requires
        layout_is(*layout, m),
    ensures
        final(out)@ == old(out)@ + layout_text(m),
{
    let ghost start = out@;
    put(out, ", layout: TypeLayout { size_in_bytes: ");
    put_decimal(out, layout.size_in_bytes as u128);
    put(out, ", min_alignment: ");
    put_decimal(out, layout.min_alignment as u128);
    if layout.is_zst {
        put(out, ", is_zst: true } }");
    } else {
        put(out, ", is_zst: false } }");
    }
    assert(out@ =~= start + layout_text(m));
}

/// Writes a completed type in full.
#[verifier::spinoff_prover]
#[verifier::rlimit(40)]
pub fn show_type(t: &Type, out: &mut Vec<u8>)
    requires
        wf(*t),
    ensures
        final(out)@ == old(out)@ + spine(t@, false, Seq::empty()),
    decreases *t,
{
    let ghost start = out@;
    proof {
        wf_unfold(t);
        shape_unfold(t);
    }
    match t {
        Type::Ptr(p) => {
            put(out, "Ptr(PointerType { addrspace: ");
            put_addrspace_name(out, p.addrspace);
            put(out, ", pointee: ");
            show_type(&p.pointee, out);
            put(out, " })");
            assert(out@ =~= start + spine(t@, false, Seq::empty()));
        },
        Type::Array(a) => {
            put(out, "Array(ArrayType { ty: ");
            show_type(&a.ty, out);
            put(out, ", len: ");
            put_decimal(out, a.len as u128);
            put(out, " })");
            assert(out@ =~= start + spine(t@, false, Seq::empty()));
        },
        Type::List(element) => {
            put(out, "List(");
            show_type(element, out);
            put(out, ")");
            assert(out@ =~= start + spine(t@, false, Seq::empty()));
        },
        Type::Function(f) => {
            show_function(f, out);
        },
        Type::Struct(StructRef::Plain(s)) => {
            show_struct(s, out);
        },
        Type::Enum(EnumRef::Plain(e)) => {
            show_enum(e, out);
        },
        Type::Struct(StructRef::Rec(r)) => {
            show_group(r, out);
        },
        Type::Enum(EnumRef::Rec(r)) => {
            show_group(r, out);
        },
        _ => {
            put_atom(out, t);
        },
    }
}

fn show_function(f: &FunctionType, out: &mut Vec<u8>)
    requires
        function_wf(*f),
    ensures
        final(out)@ == old(out)@ + spine(Shape::Function(function_shape(*f)), false, Seq::empty()),
    decreases *f,
{
    let ghost start = out@;
    put(out, "Function(FunctionType { abi: ");
    put_abi(out, &f.abi);
    put(out, ", params: [");
    show_all(&f.params, out);
    put(out, "], results: [");
    show_all(&f.results, out);
    put(out, "] })");
    proof {
        assert(out@ =~= start + spine(Shape::Function(function_shape(*f)), false, Seq::empty()));
    }
}

fn show_all(types: &Vec<Type>, out: &mut Vec<u8>)
    requires
        forall|i: int| 0 <= i < types@.len() ==> wf(#[trigger] types@[i]),
    ensures
        final(out)@ == old(out)@ + shown_all(shapes(types@), false, Seq::empty()),
    decreases *types,
{
    let ghost start = out@;
    let ghost all = shapes(types@);
    let mut i: usize = 0;
    assert(out@ =~= start + shown_all(all.take(0), false, Seq::empty()));
    while i < types.len()
        invariant
            i <= types@.len(),
            forall|i: int| 0 <= i < types@.len() ==> wf(#[trigger] types@[i]),
            all == shapes(types@),
            out@ == start + shown_all(all.take(i as int), false, Seq::empty()),
        decreases types@.len() - i,
    {
        put_comma(out, i);
        show_type(&types[i], out);
        proof {
            shown_all_step(all, false, Seq::empty(), i as int);
            assert(out@ =~= start + shown_all(all.take(i + 1), false, Seq::empty()));
        }
        i += 1;
    }
    assert(all.take(types@.len() as int) =~= all);
}

#[verifier::spinoff_prover]
#[verifier::rlimit(40)]
fn show_struct(s: &StructType, out: &mut Vec<u8>)
    requires
        struct_wf(*s),
    ensures
        final(out)@ == old(out)@ + spine(Shape::Struct(struct_shape(*s)), false, Seq::empty()),
    decreases *s,
{
    let ghost start = out@;
    let ghost all = field_shapes(s.fields@);
    let ghost layouts = field_metrics(all, Seq::empty());
    put(out, "Struct(Plain(StructType { name: ");
    put_struct_head(out, &s.name, s.repr, s.size);
    let ghost head = out@;
    let mut i: usize = 0;
    assert(out@ =~= head + shown_fields(all.take(0), s.repr, layouts, false, Seq::empty()));
    while i < s.fields.len()
        invariant
            i <= s.fields@.len(),
            struct_wf(*s),
            all == field_shapes(s.fields@),
            layouts == field_metrics(all, Seq::empty()),
            out@ == head + shown_fields(all.take(i as int), s.repr, layouts, false, Seq::empty()),
        decreases s.fields@.len() - i,
    {
        let field = &s.fields[i];
        put_comma(out, i);
        show_field(field, out);
        proof {
            shown_fields_step(all, s.repr, layouts, false, Seq::empty(), i as int);
            assert(out@ =~= head + shown_fields(
                all.take(i + 1),
                s.repr,
                layouts,
                false,
                Seq::empty(),
            ));
        }
        i += 1;
    }
    assert(all.take(s.fields@.len() as int) =~= all);
    put(out, "] }))");
    proof {
        assert(out@ =~= start + spine(Shape::Struct(struct_shape(*s)), false, Seq::empty()));
    }
}

fn show_field(field: &StructField, out: &mut Vec<u8>)
    requires
        wf(field.ty),
    ensures
        final(out)@ == old(out)@ + shown_field(
            FieldShape { name: label(field.name), ty: field.ty@ },
            field.index as nat,
            field.align as nat,
            field.offset as nat,
            false,
            Seq::empty(),
        ),
    decreases *field,
{
    let ghost start = out@;
    put(out, "StructField { name: ");
    put_field_head(out, &field.name, field.index, field.align, field.offset);
    show_type(&field.ty, out);
    put(out, " }");
    proof {
        assert(out@ =~= start + shown_field(
            FieldShape { name: label(field.name), ty: field.ty@ },
            field.index as nat,
            field.align as nat,
            field.offset as nat,
            false,
            Seq::empty(),
        ));
    }
}

fn show_variant(variant: &Variant, out: &mut Vec<u8>)
    requires
        variant.value matches Some(value) ==> wf(value),
    ensures
        final(out)@ == old(out)@ + shown_variant(variant_shape(*variant), false, Seq::empty()),
    decreases *variant,
{
    let ghost start = out@;
    put(out, "Variant { name: ");
    put_quoted(out, &variant.name);
    put(out, ", discriminant_value: ");
    put_discriminant(out, variant.discriminant_value);
    put(out, ", value: ");
    let ghost before = out@;
    match &variant.value {
        Some(value) => {
            put(out, "Some(");
            show_type(value, out);
            put(out, ")");
        },
        None => {
            put(out, "None");
        },
    }
    proof {
        assert(out@ =~= before + shown_payload(variant_shape(*variant).value, false, Seq::empty()));
    }
    put(out, " }");
    proof {
        assert(out@ =~= start + shown_variant(variant_shape(*variant), false, Seq::empty()));
    }
}

#[verifier::spinoff_prover]
#[verifier::rlimit(40)]
fn show_enum(e: &EnumType, out: &mut Vec<u8>)
    requires
        enum_wf(*e),
    ensures
        final(out)@ == old(out)@ + spine(Shape::Enum(enum_shape(*e)), false, Seq::empty()),
    decreases *e,
{
    let ghost start = out@;
    let ghost all = variant_shapes(e.variants@);
    let ghost discriminant = metrics(e.discriminant@, Seq::empty());
    let ghost payloads = payload_metrics(all, Seq::empty());
    put(out, "Enum(Plain(EnumType { name: ");
    put_quoted(out, &e.name);
    put(out, ", discriminant: ");
    show_type(&e.discriminant, out);
    put(out, ", variants: [");
    let ghost head = out@;
    let mut i: usize = 0;
    assert(out@ =~= head + shown_variants(all.take(0), false, Seq::empty()));
    while i < e.variants.len()
        invariant
            i <= e.variants@.len(),
            enum_wf(*e),
            all == variant_shapes(e.variants@),
            out@ == head + shown_variants(all.take(i as int), false, Seq::empty()),
        decreases e.variants@.len() - i,
    {
        let variant = &e.variants[i];
        put_comma(out, i);
        show_variant(variant, out);
        proof {
            shown_variants_step(all, false, Seq::empty(), i as int);
            assert(out@ =~= head + shown_variants(all.take(i + 1), false, Seq::empty()));
        }
        i += 1;
    }
    assert(all.take(e.variants@.len() as int) =~= all);
    put_enum_tail(out, &e.offsets, e.size, e.align, Ghost(discriminant), Ghost(payloads));
    put(out, " }))");
    proof {
        assert(out@ =~= start + spine(Shape::Enum(enum_shape(*e)), false, Seq::empty()));
    }
}

/// Writes a recursive aggregate in full: its group, and the position of its definition.
#[verifier::spinoff_prover]
#[verifier::rlimit(40)]
fn show_group(r: &RecTypeRef, out: &mut Vec<u8>)
    requires
        rec_wf(*r),
    ensures
        final(out)@ == old(out)@ + spine(
            Shape::Rec(body_shapes(r.group.defs@), r.index as nat),
            false,
            Seq::empty(),
        ),
    decreases *r,
{
    let ghost start = out@;
    let ghost all = body_shapes(r.group.defs@);
    let ghost layouts = group_layouts(&*r.group);
    proof {
        bodies_wf_unfold(&*r.group, layouts);
    }
    let defs = &r.group.defs;
    match defs[r.index as usize].kind {
        AggregateKind::Struct => {
            put(out, "Struct(Rec(RecTypeRef { group: RecGroup { defs: [");
        },
        AggregateKind::Enum => {
            put(out, "Enum(Rec(RecTypeRef { group: RecGroup { defs: [");
        },
    }
    let ghost head = out@;
    let mut i: usize = 0;
    assert(out@ =~= head + shown_definitions(all.take(0), layouts));
    while i < defs.len()
        invariant
            i <= defs@.len(),
            *defs == r.group.defs,
            rec_wf(*r),
            all == body_shapes(defs@),
            layouts == group_layouts(&*r.group),
            forall|i: int| 0 <= i < defs@.len() ==> body_wf((#[trigger] defs@[i]).body, layouts),
            out@ == head + shown_definitions(all.take(i as int), layouts),
        decreases defs@.len() - i,
    {
        let def = &defs[i];
        put_comma(out, i);
        match &def.body {
            OpenAggregate::Struct(s) => {
                put(out, "RecDef { kind: Struct, body: ");
                show_open_struct(s, out, Ghost(layouts));
            },
            OpenAggregate::Enum(e) => {
                put(out, "RecDef { kind: Enum, body: ");
                show_open_enum(e, out, Ghost(layouts));
            },
        }
        put_layout(out, &def.layout, Ghost(layouts[i as int]));
        proof {
            shown_definitions_step(all, layouts, i as int);
            assert(out@ =~= head + shown_definitions(all.take(i + 1), layouts));
        }
        i += 1;
    }
    assert(all.take(defs@.len() as int) =~= all);
    put(out, "] }, index: ");
    put_decimal(out, r.index as u128);
    put(out, " }))");
    proof {
        assert(out@ =~= start + spine(Shape::Rec(all, r.index as nat), false, Seq::empty()));
    }
}

/// Writes a type inside a group in full.
#[verifier::spinoff_prover]
#[verifier::rlimit(40)]
fn show_open(t: &OpenType, out: &mut Vec<u8>, Ghost(group): Ghost<Seq<Metrics>>)
    requires
        open_wf(*t, group),
    ensures
        final(out)@ == old(out)@ + shown(t@, true, group),
    decreases *t,
{
    let ghost start = out@;
    proof {
        open_wf_unfold(t, group);
        open_shape_unfold(t);
        reveal(has_var);
    }
    match t {
        OpenType::Closed(ty) => {
            proof {
                types_are_closed(ty);
            }
            put(out, "Closed(");
            show_type(ty, out);
            put(out, ")");
            assert(out@ =~= start + shown(t@, true, group));
        },
        OpenType::Var(index) => {
            put(out, "Var(");
            put_decimal(out, *index as u128);
            put(out, ")");
            assert(out@ =~= start + shown(t@, true, group));
        },
        OpenType::Ptr(addrspace, pointee) => {
            put(out, "Ptr(");
            put_addrspace_name(out, *addrspace);
            put(out, ", ");
            show_open(pointee, out, Ghost(group));
            put(out, ")");
            assert(out@ =~= start + shown(t@, true, group));
        },
        OpenType::Array(element, len) => {
            put(out, "Array(");
            show_open(element, out, Ghost(group));
            put(out, ", ");
            put_decimal(out, *len as u128);
            put(out, ")");
            assert(out@ =~= start + shown(t@, true, group));
        },
        OpenType::List(element) => {
            put(out, "List(");
            show_open(element, out, Ghost(group));
            put(out, ")");
            assert(out@ =~= start + shown(t@, true, group));
        },
        OpenType::Function(f) => {
            put(out, "Function(OpenFunctionType { abi: ");
            put_abi(out, &f.abi);
            put(out, ", params: [");
            show_open_all(&f.params, out, Ghost(group));
            put(out, "], results: [");
            show_open_all(&f.results, out, Ghost(group));
            put(out, "] })");
            assert(out@ =~= start + shown(t@, true, group));
        },
        OpenType::Struct(s) => {
            show_open_struct(s, out, Ghost(group));
        },
        OpenType::Enum(e) => {
            show_open_enum(e, out, Ghost(group));
        },
    }
}

fn show_open_all(types: &Vec<OpenType>, out: &mut Vec<u8>, Ghost(group): Ghost<Seq<Metrics>>)
    requires
        forall|i: int| 0 <= i < types@.len() ==> open_wf(#[trigger] types@[i], group),
    ensures
        final(out)@ == old(out)@ + shown_all(open_shapes(types@), true, group),
    decreases *types,
{
    let ghost start = out@;
    let ghost all = open_shapes(types@);
    let mut i: usize = 0;
    assert(out@ =~= start + shown_all(all.take(0), true, group));
    while i < types.len()
        invariant
            i <= types@.len(),
            forall|i: int| 0 <= i < types@.len() ==> open_wf(#[trigger] types@[i], group),
            all == open_shapes(types@),
            out@ == start + shown_all(all.take(i as int), true, group),
        decreases types@.len() - i,
    {
        put_comma(out, i);
        show_open(&types[i], out, Ghost(group));
        proof {
            shown_all_step(all, true, group, i as int);
            assert(out@ =~= start + shown_all(all.take(i + 1), true, group));
        }
        i += 1;
    }
    assert(all.take(types@.len() as int) =~= all);
}

#[verifier::spinoff_prover]
#[verifier::rlimit(40)]
fn show_open_struct(s: &OpenStructType, out: &mut Vec<u8>, Ghost(group): Ghost<Seq<Metrics>>)
    requires
        open_struct_wf(*s, group),
    ensures
        final(out)@ == old(out)@ + spine(Shape::Struct(open_struct_shape(*s)), true, group),
    decreases *s,
{
    let ghost start = out@;
    let ghost all = open_field_shapes(s.fields@);
    let ghost layouts = field_metrics(all, group);
    put(out, "Struct(OpenStructType { name: ");
    put_struct_head(out, &s.name, s.repr, s.size);
    let ghost head = out@;
    let mut i: usize = 0;
    assert(out@ =~= head + shown_fields(all.take(0), s.repr, layouts, true, group));
    while i < s.fields.len()
        invariant
            i <= s.fields@.len(),
            open_struct_wf(*s, group),
            all == open_field_shapes(s.fields@),
            layouts == field_metrics(all, group),
            out@ == head + shown_fields(all.take(i as int), s.repr, layouts, true, group),
        decreases s.fields@.len() - i,
    {
        let field = &s.fields[i];
        put_comma(out, i);
        show_open_field(field, out, Ghost(group));
        proof {
            shown_fields_step(all, s.repr, layouts, true, group, i as int);
            assert(out@ =~= head + shown_fields(
                all.take(i + 1),
                s.repr,
                layouts,
                true,
                group,
            ));
        }
        i += 1;
    }
    assert(all.take(s.fields@.len() as int) =~= all);
    put(out, "] })");
    proof {
        assert(out@ =~= start + spine(Shape::Struct(open_struct_shape(*s)), true, group));
    }
}

fn show_open_field(field: &OpenStructField, out: &mut Vec<u8>, Ghost(group): Ghost<Seq<Metrics>>)
    requires
        open_wf(field.ty, group),
    ensures
        final(out)@ == old(out)@ + shown_field(
            FieldShape { name: label(field.name), ty: field.ty@ },
            field.index as nat,
            field.align as nat,
            field.offset as nat,
            true,
            group,
        ),
    decreases *field,
{
    let ghost start = out@;
    put(out, "OpenStructField { name: ");
    put_field_head(out, &field.name, field.index, field.align, field.offset);
    show_open(&field.ty, out, Ghost(group));
    put(out, " }");
    proof {
        assert(out@ =~= start + shown_field(
            FieldShape { name: label(field.name), ty: field.ty@ },
            field.index as nat,
            field.align as nat,
            field.offset as nat,
            true,
            group,
        ));
    }
}

fn show_open_variant(variant: &OpenVariant, out: &mut Vec<u8>, Ghost(group): Ghost<Seq<Metrics>>)
    requires
        variant.value matches Some(value) ==> open_wf(value, group),
    ensures
        final(out)@ == old(out)@ + shown_variant(open_variant_shape(*variant), true, group),
    decreases *variant,
{
    let ghost start = out@;
    put(out, "OpenVariant { name: ");
    put_quoted(out, &variant.name);
    put(out, ", value: ");
    let ghost before = out@;
    match &variant.value {
        Some(value) => {
            put(out, "Some(");
            show_open(value, out, Ghost(group));
            put(out, ")");
        },
        None => {
            put(out, "None");
        },
    }
    proof {
        assert(out@ =~= before + shown_payload(open_variant_shape(*variant).value, true, group));
    }
    put(out, ", discriminant_value: ");
    put_discriminant(out, variant.discriminant_value);
    put(out, " }");
    proof {
        assert(out@ =~= start + shown_variant(open_variant_shape(*variant), true, group));
    }
}

#[verifier::spinoff_prover]
#[verifier::rlimit(40)]
fn show_open_enum(e: &OpenEnumType, out: &mut Vec<u8>, Ghost(group): Ghost<Seq<Metrics>>)
    requires
        open_enum_wf(*e, group),
    ensures
        final(out)@ == old(out)@ + spine(Shape::Enum(open_enum_shape(*e)), true, group),
    decreases *e,
{
    let ghost start = out@;
    let ghost all = open_variant_shapes(e.variants@);
    let ghost discriminant = metrics(e.discriminant@, Seq::empty());
    let ghost payloads = payload_metrics(all, group);
    put(out, "Enum(OpenEnumType { name: ");
    put_quoted(out, &e.name);
    put(out, ", discriminant: ");
    show_type(&e.discriminant, out);
    put(out, ", variants: [");
    let ghost head = out@;
    let mut i: usize = 0;
    assert(out@ =~= head + shown_variants(all.take(0), true, group));
    while i < e.variants.len()
        invariant
            i <= e.variants@.len(),
            open_enum_wf(*e, group),
            all == open_variant_shapes(e.variants@),
            out@ == head + shown_variants(all.take(i as int), true, group),
        decreases e.variants@.len() - i,
    {
        let variant = &e.variants[i];
        put_comma(out, i);
        show_open_variant(variant, out, Ghost(group));
        proof {
            shown_variants_step(all, true, group, i as int);
            assert(out@ =~= head + shown_variants(all.take(i + 1), true, group));
        }
        i += 1;
    }
    assert(all.take(e.variants@.len() as int) =~= all);
    put_enum_tail(out, &e.offsets, e.size, e.align, Ghost(discriminant), Ghost(payloads));
    put(out, " })");
    proof {
        assert(out@ =~= start + spine(Shape::Enum(open_enum_shape(*e)), true, group));
    }
}

} // verus!
