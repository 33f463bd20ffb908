//! Groups in canonical order, which are those that are written and read.
use vstd::prelude::*;

use crate::hir::codec::parse::{slot_key, slot_keys};
use crate::hir::recursive::rules::{build, BuildFault};
use crate::hir::shape::{
    EnumShape, FieldShape, FunctionShape, Shape, StructShape, VariantShape,
};
use crate::hir::types::{no_field, no_variant};

verus! {

/// The type with every back-reference replaced by the name of the definition.
#[verifier::opaque]
pub open spec fn renamed(t: Shape) -> Shape
    decreases t,
{
    match t {
        Shape::Var(i) => Shape::Name(slot_key(i)),
        Shape::Ptr(addrspace, pointee) => Shape::Ptr(addrspace, Box::new(renamed(*pointee))),
        Shape::Array(element, n) => Shape::Array(Box::new(renamed(*element)), n),
        Shape::List(element) => Shape::List(Box::new(renamed(*element))),
        Shape::Function(f) => Shape::Function(
            FunctionShape {
                abi: f.abi,
                params: Seq::new(
                    f.params.len(),
                    |i: int|
                        if 0 <= i < f.params.len() {
                            renamed(f.params[i])
                        } else {
                            Shape::Never
                        },
                ),
                results: Seq::new(
                    f.results.len(),
                    |i: int|
                        if 0 <= i < f.results.len() {
                            renamed(f.results[i])
                        } else {
                            Shape::Never
                        },
                ),
            },
        ),
        Shape::Struct(s) => Shape::Struct(
            StructShape {
                name: s.name,
                repr: s.repr,
                fields: Seq::new(
                    s.fields.len(),
                    |i: int|
                        if 0 <= i < s.fields.len() {
                            FieldShape { name: s.fields[i].name, ty: renamed(s.fields[i].ty) }
                        } else {
                            no_field()
                        },
                ),
            },
        ),
        Shape::Enum(e) => Shape::Enum(
            EnumShape {
                name: e.name,
                discriminant: e.discriminant,
                variants: Seq::new(
                    e.variants.len(),
                    |i: int|
                        if 0 <= i < e.variants.len() {
                            VariantShape {
                                name: e.variants[i].name,
                                value: match e.variants[i].value {
                                    Some(value) => Some(renamed(value)),
                                    None => None,
                                },
                                discriminant_value: e.variants[i].discriminant_value,
                            }
                        } else {
                            no_variant()
                        },
                ),
            },
        ),
        _ => t,
    }
}

pub open spec fn renamed_all(types: Seq<Shape>) -> Seq<Shape> {
    Seq::new(types.len(), |i: int| renamed(types[i]))
}

pub open spec fn renamed_function(f: FunctionShape) -> FunctionShape {
    FunctionShape {
        abi: f.abi,
        params: renamed_all(f.params),
        results: renamed_all(f.results),
    }
}

pub open spec fn renamed_fields(fields: Seq<FieldShape>) -> Seq<FieldShape> {
    Seq::new(
        fields.len(),
        |i: int| FieldShape { name: fields[i].name, ty: renamed(fields[i].ty) },
    )
}

pub open spec fn renamed_struct(s: StructShape) -> StructShape {
    StructShape { name: s.name, repr: s.repr, fields: renamed_fields(s.fields) }
}

pub open spec fn renamed_payload(value: Option<Shape>) -> Option<Shape> {
    match value {
        Some(value) => Some(renamed(value)),
        None => None,
    }
}

pub open spec fn renamed_variants(variants: Seq<VariantShape>) -> Seq<VariantShape> {
    Seq::new(
        variants.len(),
        |i: int|
            VariantShape {
                name: variants[i].name,
                value: renamed_payload(variants[i].value),
                discriminant_value: variants[i].discriminant_value,
            },
    )
}

pub open spec fn renamed_enum(e: EnumShape) -> EnumShape {
    EnumShape {
        name: e.name,
        discriminant: e.discriminant,
        variants: renamed_variants(e.variants),
    }
}

pub open spec fn renamed_of_parts(t: Shape) -> Shape {
    match t {
        Shape::Var(i) => Shape::Name(slot_key(i)),
        Shape::Ptr(addrspace, pointee) => Shape::Ptr(addrspace, Box::new(renamed(*pointee))),
        Shape::Array(element, n) => Shape::Array(Box::new(renamed(*element)), n),
        Shape::List(element) => Shape::List(Box::new(renamed(*element))),
        Shape::Function(f) => Shape::Function(renamed_function(f)),
        Shape::Struct(s) => Shape::Struct(renamed_struct(s)),
        Shape::Enum(e) => Shape::Enum(renamed_enum(e)),
        _ => t,
    }
}

pub proof fn renamed_unfold(t: Shape)
    ensures
        renamed(t) == renamed_of_parts(t),
{
    reveal(renamed);
    match t {
        Shape::Function(f) => {
            let made = renamed(t)->Function_0;
            assert(made.params =~= renamed_all(f.params));
            assert(made.results =~= renamed_all(f.results));
        },
        Shape::Struct(s) => {
            assert(renamed(t)->Struct_0.fields =~= renamed_fields(s.fields));
        },
        Shape::Enum(e) => {
            assert(renamed(t)->Enum_0.variants =~= renamed_variants(e.variants));
        },
        _ => {},
    }
}

/// The references to the definitions of a group, each under its own number.
pub open spec fn own_references(definitions: Seq<Shape>) -> Seq<Option<Shape>> {
    Seq::new(definitions.len(), |i: int| Some(Shape::Rec(definitions, i as nat)))
}

/// A group whose definitions, built anew, give the same group in the same order.
pub open spec fn canonical(definitions: Seq<Shape>) -> bool {
    build(slot_keys(definitions.len()), renamed_all(definitions)) == Ok::<
        Seq<Option<Shape>>,
        BuildFault,
    >(own_references(definitions))
}

} // verus!
