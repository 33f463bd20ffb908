//! Templates: the definitions from which recursive types are built.
use vstd::prelude::*;

use crate::hir::shape::{
    AddressSpace, EnumShape, FieldShape, FunctionShape, Shape, StructShape, TypeRepr, VariantShape,
};
use crate::hir::types::{abi_shape, label, no_field, no_variant, shape, wf, CallConv, Type};

verus! {

/// A type expression that names the definitions it refers to.
#[derive(Debug)]
pub enum TypeTemplate {
    /// An ordinary, completed type.
    Type(Type),
    /// A reference to a definition, by its key.
    Rec(String),
    Ptr(AddressSpace, Box<TypeTemplate>),
    Array(Box<TypeTemplate>, usize),
    List(Box<TypeTemplate>),
    Function(Box<FunctionTemplate>),
    Struct(Box<StructTemplate>),
    Enum(Box<EnumTemplate>),
}

#[derive(Debug)]
pub struct FunctionTemplate {
    pub abi: CallConv,
    pub params: Vec<TypeTemplate>,
    pub results: Vec<TypeTemplate>,
}

/// A struct definition.
#[derive(Debug)]
pub struct StructTemplate {
    pub name: Option<String>,
    pub repr: TypeRepr,
    pub fields: Vec<FieldTemplate>,
}

#[derive(Debug)]
pub struct FieldTemplate {
    pub name: Option<String>,
    pub ty: TypeTemplate,
}

/// An enum definition.
#[derive(Debug)]
pub struct EnumTemplate {
    pub name: String,
    pub discriminant: Type,
    pub variants: Vec<VariantTemplate>,
}

#[derive(Debug)]
pub struct VariantTemplate {
    pub name: String,
    pub value: Option<TypeTemplate>,
    pub discriminant_value: Option<u128>,
}

/// What a template is.
#[verifier::opaque]
pub open spec fn template_shape(t: TypeTemplate) -> Shape
    decreases t,
{
    match t {
        TypeTemplate::Type(ty) => shape(ty),
        TypeTemplate::Rec(key) => Shape::Name(key@),
        TypeTemplate::Ptr(addrspace, pointee) => Shape::Ptr(
            addrspace,
            Box::new(template_shape(*pointee)),
        ),
        TypeTemplate::Array(element, n) => Shape::Array(
            Box::new(template_shape(*element)),
            n as nat,
        ),
        TypeTemplate::List(element) => Shape::List(Box::new(template_shape(*element))),
        TypeTemplate::Function(f) => Shape::Function(
            FunctionShape {
                abi: abi_shape(f.abi),
                params: Seq::new(
                    f.params@.len(),
                    |i: int|
                        if 0 <= i < f.params@.len() {
                            template_shape(f.params@[i])
                        } else {
                            Shape::Never
                        },
                ),
                results: Seq::new(
                    f.results@.len(),
                    |i: int|
                        if 0 <= i < f.results@.len() {
                            template_shape(f.results@[i])
                        } else {
                            Shape::Never
                        },
                ),
            },
        ),
        TypeTemplate::Struct(s) => Shape::Struct(
            StructShape {
                name: label(s.name),
                repr: s.repr,
                fields: Seq::new(
                    s.fields@.len(),
                    |i: int|
                        if 0 <= i < s.fields@.len() {
                            FieldShape {
                                name: label(s.fields@[i].name),
                                ty: template_shape(s.fields@[i].ty),
                            }
                        } else {
                            no_field()
                        },
                ),
            },
        ),
        TypeTemplate::Enum(e) => Shape::Enum(
            EnumShape {
                name: e.name@,
                discriminant: Box::new(shape(e.discriminant)),
                variants: Seq::new(
                    e.variants@.len(),
                    |i: int|
                        if 0 <= i < e.variants@.len() {
                            VariantShape {
                                name: e.variants@[i].name@,
                                value: match e.variants@[i].value {
                                    Some(value) => Some(template_shape(value)),
                                    None => None,
                                },
                                discriminant_value: e.variants@[i].discriminant_value,
                            }
                        } else {
                            no_variant()
                        },
                ),
            },
        ),
    }
}

impl TypeTemplate {
    #[verifier::inline]
    pub open spec fn view(&self) -> Shape {
        template_shape(*self)
    }
}

pub open spec fn template_shapes(types: Seq<TypeTemplate>) -> Seq<Shape> {
    Seq::new(types.len(), |i: int| template_shape(types[i]))
}

pub open spec fn field_template_shapes(fields: Seq<FieldTemplate>) -> Seq<FieldShape> {
    Seq::new(
        fields.len(),
        |i: int| FieldShape { name: label(fields[i].name), ty: template_shape(fields[i].ty) },
    )
}

pub open spec fn struct_template_shape(s: StructTemplate) -> StructShape {
    StructShape { name: label(s.name), repr: s.repr, fields: field_template_shapes(s.fields@) }
}

pub open spec fn variant_template_shape(v: VariantTemplate) -> VariantShape {
    VariantShape {
        name: v.name@,
        value: match v.value {
            Some(value) => Some(template_shape(value)),
            None => None,
        },
        discriminant_value: v.discriminant_value,
    }
}

pub open spec fn variant_template_shapes(variants: Seq<VariantTemplate>) -> Seq<VariantShape> {
    Seq::new(variants.len(), |i: int| variant_template_shape(variants[i]))
}

pub open spec fn enum_template_shape(e: EnumTemplate) -> EnumShape {
    EnumShape {
        name: e.name@,
        discriminant: Box::new(shape(e.discriminant)),
        variants: variant_template_shapes(e.variants@),
    }
}

/// What a template is, in terms of what its parts are.
pub open spec fn template_shape_of_parts(t: TypeTemplate) -> Shape {
    match t {
        TypeTemplate::Type(ty) => shape(ty),
        TypeTemplate::Rec(key) => Shape::Name(key@),
        TypeTemplate::Ptr(addrspace, pointee) => Shape::Ptr(
            addrspace,
            Box::new(template_shape(*pointee)),
        ),
        TypeTemplate::Array(element, n) => Shape::Array(
            Box::new(template_shape(*element)),
            n as nat,
        ),
        TypeTemplate::List(element) => Shape::List(Box::new(template_shape(*element))),
        TypeTemplate::Function(f) => Shape::Function(
            FunctionShape {
                abi: abi_shape(f.abi),
                params: template_shapes(f.params@),
                results: template_shapes(f.results@),
            },
        ),
        TypeTemplate::Struct(s) => Shape::Struct(struct_template_shape(*s)),
        TypeTemplate::Enum(e) => Shape::Enum(enum_template_shape(*e)),
    }
}

pub proof fn template_shape_unfold(t: &TypeTemplate)
    ensures
        t@ == template_shape_of_parts(*t),
{
    reveal(template_shape);
    match t {
        TypeTemplate::Function(f) => {
            assert(t@->Function_0.params =~= template_shapes(f.params@));
            assert(t@->Function_0.results =~= template_shapes(f.results@));
        },
        TypeTemplate::Struct(s) => {
            assert(t@->Struct_0.fields =~= field_template_shapes(s.fields@));
        },
        TypeTemplate::Enum(e) => {
            assert(t@->Enum_0.variants =~= variant_template_shapes(e.variants@));
        },
        _ => {},
    }
}

/// The completed types inside a template are well-formed.
#[verifier::opaque]
pub open spec fn template_wf(t: TypeTemplate) -> bool
    decreases t,
{
    match t {
        TypeTemplate::Type(ty) => wf(ty),
        TypeTemplate::Rec(_) => true,
        TypeTemplate::Ptr(_, pointee) => template_wf(*pointee),
        TypeTemplate::Array(element, _) => template_wf(*element),
        TypeTemplate::List(element) => template_wf(*element),
        TypeTemplate::Function(f) => {
            &&& forall|i: int| 0 <= i < f.params@.len() ==> template_wf(#[trigger] f.params@[i])
            &&& forall|i: int| 0 <= i < f.results@.len() ==> template_wf(#[trigger] f.results@[i])
        },
        TypeTemplate::Struct(s) => forall|i: int|
            0 <= i < s.fields@.len() ==> template_wf((#[trigger] s.fields@[i]).ty),
        TypeTemplate::Enum(e) => {
            &&& wf(e.discriminant)
            &&& forall|i: int|
                0 <= i < e.variants@.len() ==> ((#[trigger] e.variants@[i]).value matches Some(
                    value,
                ) ==> template_wf(value))
        },
    }
}

pub open spec fn struct_template_wf(s: StructTemplate) -> bool {
    forall|i: int| 0 <= i < s.fields@.len() ==> template_wf((#[trigger] s.fields@[i]).ty)
}

pub open spec fn enum_template_wf(e: EnumTemplate) -> bool {
    &&& wf(e.discriminant)
    &&& forall|i: int|
        0 <= i < e.variants@.len() ==> ((#[trigger] e.variants@[i]).value matches Some(value)
            ==> template_wf(value))
}

impl TypeTemplate {
    /// A reference to the definition of the given key.
    pub fn rec(key: String) -> (t: TypeTemplate)
        ensures
            t == TypeTemplate::Rec(key),
    {
        TypeTemplate::Rec(key)
    }

    /// A byte-addressable pointer to `pointee`.
    pub fn ptr(pointee: TypeTemplate) -> (t: TypeTemplate)
        ensures
            t@ == Shape::Ptr(AddressSpace::Byte, Box::new(pointee@)),
            template_wf(t) == template_wf(pointee),
    {
        TypeTemplate::ptr_in(AddressSpace::Byte, pointee)
    }

    /// A pointer to `pointee` in `addrspace`.
    pub fn ptr_in(addrspace: AddressSpace, pointee: TypeTemplate) -> (t: TypeTemplate)
        ensures
            t@ == Shape::Ptr(addrspace, Box::new(pointee@)),
            template_wf(t) == template_wf(pointee),
    {
        let t = TypeTemplate::Ptr(addrspace, Box::new(pointee));
        proof {
            template_shape_unfold(&t);
            reveal(template_wf);
        }
        t
    }

    /// A fixed-length array of `element`.
    pub fn array(element: TypeTemplate, len: usize) -> (t: TypeTemplate)
        ensures
            t@ == Shape::Array(Box::new(element@), len as nat),
            template_wf(t) == template_wf(element),
    {
        let t = TypeTemplate::Array(Box::new(element), len);
        proof {
            template_shape_unfold(&t);
            reveal(template_wf);
        }
        t
    }

    /// A dynamically sized list of `element`.
    pub fn list(element: TypeTemplate) -> (t: TypeTemplate)
        ensures
            t@ == Shape::List(Box::new(element@)),
            template_wf(t) == template_wf(element),
    {
        let t = TypeTemplate::List(Box::new(element));
        proof {
            template_shape_unfold(&t);
            reveal(template_wf);
        }
        t
    }

    /// A function reference.
    pub fn function(abi: CallConv, params: Vec<TypeTemplate>, results: Vec<TypeTemplate>) -> (t:
        TypeTemplate)
        ensures
            t@ == Shape::Function(
                FunctionShape {
                    abi: abi_shape(abi),
                    params: template_shapes(params@),
                    results: template_shapes(results@),
                },
            ),
            template_wf(t) == ((forall|i: int|
                0 <= i < params@.len() ==> template_wf(#[trigger] params@[i])) && (forall|i: int|
                0 <= i < results@.len() ==> template_wf(#[trigger] results@[i]))),
    {
        let t = TypeTemplate::Function(Box::new(FunctionTemplate { abi, params, results }));
        proof {
            template_shape_unfold(&t);
            reveal(template_wf);
        }
        t
    }

    /// An anonymous struct.
    pub fn struct_type(repr: TypeRepr, fields: Vec<FieldTemplate>) -> (t: TypeTemplate)
        ensures
            t@ == Shape::Struct(
                StructShape { name: None, repr, fields: field_template_shapes(fields@) },
            ),
            template_wf(t) == forall|i: int|
                0 <= i < fields@.len() ==> template_wf((#[trigger] fields@[i]).ty),
    {
        let t = TypeTemplate::Struct(Box::new(StructTemplate::new(repr, fields)));
        proof {
            template_shape_unfold(&t);
            reveal(template_wf);
        }
        t
    }
}

impl From<Type> for TypeTemplate {
    fn from(ty: Type) -> (t: TypeTemplate) {
        TypeTemplate::Type(ty)
    }
}

impl vstd::std_specs::convert::FromSpecImpl<Type> for TypeTemplate {
    open spec fn obeys_from_spec() -> bool {
        true
    }

    open spec fn from_spec(ty: Type) -> TypeTemplate {
        TypeTemplate::Type(ty)
    }
}

impl StructTemplate {
    /// An anonymous struct.
    pub fn new(repr: TypeRepr, fields: Vec<FieldTemplate>) -> (s: StructTemplate)
        ensures
            s == (StructTemplate { name: None, repr, fields }),
    {
        StructTemplate { name: None, repr, fields }
    }

    /// A struct declared with `name`. The name is the aggregate's own, and independent of the key
    /// that it is defined under.
    pub fn named(name: String, repr: TypeRepr, fields: Vec<FieldTemplate>) -> (s: StructTemplate)
        ensures
            s == (StructTemplate { name: Some(name), repr, fields }),
    {
        StructTemplate { name: Some(name), repr, fields }
    }
}

impl FieldTemplate {
    /// A field with a name.
    pub fn named(name: String, ty: TypeTemplate) -> (field: FieldTemplate)
        ensures
            field == (FieldTemplate { name: Some(name), ty }),
    {
        FieldTemplate { name: Some(name), ty }
    }

    /// A field without a name.
    pub fn unnamed(ty: TypeTemplate) -> (field: FieldTemplate)
        ensures
            field == (FieldTemplate { name: None, ty }),
    {
        FieldTemplate { name: None, ty }
    }
}

impl EnumTemplate {
    pub fn new(name: String, discriminant: Type, variants: Vec<VariantTemplate>) -> (e:
        EnumTemplate)
        ensures
            e == (EnumTemplate { name, discriminant, variants }),
    {
        EnumTemplate { name, discriminant, variants }
    }
}

impl VariantTemplate {
    /// A variant without a payload.
    pub fn c_like(name: String, discriminant_value: Option<u128>) -> (v: VariantTemplate)
        ensures
            v == (VariantTemplate { name, value: None, discriminant_value }),
    {
        VariantTemplate { name, value: None, discriminant_value }
    }

    /// A variant that carries `value`.
    pub fn new(name: String, value: TypeTemplate, discriminant_value: Option<u128>) -> (v:
        VariantTemplate)
        ensures
            v == (VariantTemplate { name, value: Some(value), discriminant_value }),
    {
        VariantTemplate { name, value: Some(value), discriminant_value }
    }
}

} // verus!
