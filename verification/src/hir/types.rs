//! Types, and what each of them is as a value of mathematics.
use std::sync::Arc;
use vstd::prelude::*;

use crate::hir::enum_rules::enum_fault;
use crate::hir::metrics::{
    enum_fits, enum_metrics, field_align, field_metrics, field_offset, group_metrics, group_settled,
    metrics, payload_metrics, payload_offset, struct_fits, struct_size, Metrics,
};
use crate::hir::shape::{
    has_var, AbiShape, AddressSpace, EnumShape, FieldShape, FunctionShape, Shape, StructShape,
    TypeRepr, VariantShape,
};

verus! {

/// The largest number of definitions in one recursive group.
pub const MAX_RECURSIVE_GROUP_SIZE: usize = 64;

/// The type of a value.
#[derive(Debug, PartialEq, Eq, Hash)]
pub enum Type {
    /// A failure to type a value, or a value that has no type.
    Unknown,
    /// The bottom type, which represents divergence.
    Never,
    /// Zero or more values of any type. It is valid only as the last entry of a function's
    /// parameters or results.
    Variadic,
    /// A boolean, 1 for true.
    I1,
    I8,
    U8,
    I16,
    U16,
    I32,
    U32,
    I64,
    U64,
    I128,
    U128,
    U256,
    /// A 64-bit floating-point value, reserved for future use.
    F64,
    /// An element of the native field.
    Felt,
    /// A pointer to a value in some address space.
    Ptr(Arc<PointerType>),
    /// A compound type of fixed shape and size, recursive or not.
    Struct(StructRef),
    /// A tagged union of a fixed number of variants, recursive or not.
    Enum(EnumRef),
    /// A vector of fixed size.
    Array(Arc<ArrayType>),
    /// A dynamically sized list, represented as a length and a pointer.
    List(Arc<Type>),
    /// A reference to a function.
    Function(Arc<FunctionType>),
}

/// A struct type, which may be ordinary or recursive.
#[derive(Debug, PartialEq, Eq, Hash)]
pub enum StructRef {
    /// An ordinary struct.
    Plain(Arc<StructType>),
    /// One definition of a recursive group.
    Rec(RecTypeRef),
}

/// An enum type, which may be ordinary or recursive.
#[derive(Debug, PartialEq, Eq, Hash)]
pub enum EnumRef {
    /// An ordinary enum.
    Plain(Arc<EnumType>),
    /// One definition of a recursive group.
    Rec(RecTypeRef),
}

/// A pointer to an object in memory.
#[derive(Debug, PartialEq, Eq, Hash)]
pub struct PointerType {
    /// The address space of pointers of this type.
    pub addrspace: AddressSpace,
    /// The type of the value at the address.
    pub pointee: Type,
}

/// A fixed-size, homogenous vector type.
#[derive(Debug, PartialEq, Eq, Hash)]
pub struct ArrayType {
    pub ty: Type,
    pub len: usize,
}

/// A calling convention.
#[derive(Debug, PartialEq, Eq, Hash)]
pub enum CallConv {
    /// The convention that is best inside one unit of compilation.
    Fast,
    /// The C calling convention. This is the default.
    C,
    /// The core Wasm calling convention.
    Wasm,
    /// The calling convention of the Wasm component model.
    ComponentModel,
    /// A convention known by name only.
    Extern(String),
}

/// The signature of a function.
#[derive(Debug, PartialEq, Eq, Hash)]
pub struct FunctionType {
    /// The calling convention.
    pub abi: CallConv,
    /// The types of the parameters.
    pub params: Vec<Type>,
    /// The types of the results.
    pub results: Vec<Type>,
}

/// A structured aggregate type.
#[derive(Debug, PartialEq, Eq, Hash)]
pub struct StructType {
    /// The name for display.
    pub name: Option<String>,
    /// The representation.
    pub repr: TypeRepr,
    /// The computed size in bytes.
    pub size: u32,
    /// The fields, in the order specified.
    pub fields: Vec<StructField>,
}

/// A field of a [StructType].
#[derive(Debug, PartialEq, Eq, Hash)]
pub struct StructField {
    /// The name for display.
    pub name: Option<String>,
    /// The index of this field in the final layout.
    pub index: u8,
    /// The alignment of this field.
    pub align: u16,
    /// The offset of this field from the base of the struct.
    pub offset: u32,
    /// The type of this field.
    pub ty: Type,
}

/// Either a C-like enumeration of integers, or a tagged union of the variant types.
#[derive(Debug, PartialEq, Eq, Hash)]
pub struct EnumType {
    /// The name of the enumeration.
    pub name: String,
    /// The type of the discriminant, an integer of at most 128 bits.
    pub discriminant: Type,
    /// The variants; an enum without any is a phantom.
    pub variants: Vec<Variant>,
    /// The offset of each variant's payload.
    pub offsets: Vec<u32>,
    /// The largest size, taking all variants and the discriminant into consideration.
    pub size: u32,
    /// The largest alignment, taking all variants and the discriminant into consideration.
    pub align: u32,
}

/// A variant of an [EnumType].
#[derive(Debug, PartialEq, Eq, Hash)]
pub struct Variant {
    /// The name of this variant.
    pub name: String,
    /// The value of the discriminant. Where it is absent, it is one more than the preceding
    /// variant's, and 0 for the first.
    pub discriminant_value: Option<u128>,
    /// The type of the payload, if there is one.
    pub value: Option<Type>,
}

/// The kind of aggregate a recursive definition describes.
#[derive(Debug, Clone, Copy, PartialEq, Eq, PartialOrd, Ord, Hash, Structural)]
pub enum AggregateKind {
    Struct,
    Enum,
}

/// The layout of a recursive definition.
#[derive(Debug, Clone, Copy, PartialEq, Eq, Hash, Structural)]
pub struct TypeLayout {
    pub size_in_bytes: u32,
    pub min_alignment: u16,
    pub is_zst: bool,
}

/// A reference to one definition of a recursive group. The group travels with the reference, so
/// that a recursive type stands alone.
#[derive(Debug, PartialEq, Eq, Hash)]
pub struct RecTypeRef {
    pub group: Arc<RecGroup>,
    pub index: u16,
}

/// A canonically ordered set of mutually recursive definitions.
#[derive(Debug, PartialEq, Eq, Hash)]
pub struct RecGroup {
    pub defs: Vec<RecDef>,
}

/// A definition of a [RecGroup].
#[derive(Debug, PartialEq, Eq, Hash)]
pub struct RecDef {
    pub kind: AggregateKind,
    pub body: OpenAggregate,
    pub layout: TypeLayout,
}

/// The body of a definition, which may hold back-references.
#[derive(Debug, PartialEq, Eq, Hash)]
pub enum OpenAggregate {
    Struct(OpenStructType),
    Enum(OpenEnumType),
}

/// A type expression inside the body of a definition.
///
/// An open variant is used only where a [`OpenType::Var`] occurs beneath it; anything else is
/// stored as [`OpenType::Closed`].
#[derive(Debug, PartialEq, Eq, Hash)]
pub enum OpenType {
    /// A subterm without back-references.
    Closed(Type),
    /// A back-reference to a definition of the enclosing group.
    Var(u16),
    Ptr(AddressSpace, Box<OpenType>),
    Array(Box<OpenType>, usize),
    List(Box<OpenType>),
    Function(Box<OpenFunctionType>),
    Struct(Box<OpenStructType>),
    Enum(Box<OpenEnumType>),
}

#[derive(Debug, PartialEq, Eq, Hash)]
pub struct OpenStructType {
    pub name: Option<String>,
    pub repr: TypeRepr,
    pub size: u32,
    pub fields: Vec<OpenStructField>,
}

#[derive(Debug, PartialEq, Eq, Hash)]
pub struct OpenStructField {
    pub name: Option<String>,
    pub index: u8,
    pub align: u16,
    pub offset: u32,
    pub ty: OpenType,
}

#[derive(Debug, PartialEq, Eq, Hash)]
pub struct OpenEnumType {
    pub name: String,
    pub discriminant: Type,
    pub variants: Vec<OpenVariant>,
    pub offsets: Vec<u32>,
    pub size: u32,
    pub align: u32,
}

#[derive(Debug, PartialEq, Eq, Hash)]
pub struct OpenVariant {
    pub name: String,
    pub value: Option<OpenType>,
    pub discriminant_value: Option<u128>,
}

#[derive(Debug, PartialEq, Eq, Hash)]
pub struct OpenFunctionType {
    pub abi: CallConv,
    pub params: Vec<OpenType>,
    pub results: Vec<OpenType>,
}

// ---------------------------------------------------------------------------------------------
// Shapes
// ---------------------------------------------------------------------------------------------

/// The text of an optional name.
pub open spec fn label(name: Option<String>) -> Option<Seq<char>> {
    match name {
        Some(name) => Some(name@),
        None => None,
    }
}

pub open spec fn abi_shape(abi: CallConv) -> AbiShape {
    match abi {
        CallConv::Fast => AbiShape::Fast,
        CallConv::C => AbiShape::C,
        CallConv::Wasm => AbiShape::Wasm,
        CallConv::ComponentModel => AbiShape::ComponentModel,
        CallConv::Extern(name) => AbiShape::Extern(name@),
    }
}

/// What a type is.
#[verifier::opaque]
pub open spec fn shape(t: Type) -> Shape
    decreases t,
{
    match t {
        Type::Ptr(p) => Shape::Ptr(p.addrspace, Box::new(shape(p.pointee))),
        Type::Struct(StructRef::Plain(s)) => Shape::Struct(
            StructShape {
                name: label(s.name),
                repr: s.repr,
                fields: Seq::new(
                    s.fields@.len(),
                    |i: int|
                        if 0 <= i < s.fields@.len() {
                            FieldShape {
                                name: label(s.fields@[i].name),
                                ty: shape(s.fields@[i].ty),
                            }
                        } else {
                            no_field()
                        },
                ),
            },
        ),
        Type::Enum(EnumRef::Plain(e)) => Shape::Enum(
            EnumShape {
                name: e.name@,
                discriminant: Box::new(shape(e.discriminant)),
                variants: Seq::new(
                    e.variants@.len(),
                    |i: int|
                        if 0 <= i < e.variants@.len() {
                            VariantShape {
                                name: e.variants@[i].name@,
                                value: match e.variants@[i].value {
                                    Some(value) => Some(shape(value)),
                                    None => None,
                                },
                                discriminant_value: e.variants@[i].discriminant_value,
                            }
                        } else {
                            no_variant()
                        },
                ),
            },
        ),
        Type::Struct(StructRef::Rec(r)) => Shape::Rec(bodies(r.group.defs@), r.index as nat),
        Type::Enum(EnumRef::Rec(r)) => Shape::Rec(bodies(r.group.defs@), r.index as nat),
        Type::Array(a) => Shape::Array(Box::new(shape(a.ty)), a.len as nat),
        Type::List(element) => Shape::List(Box::new(shape(*element))),
        Type::Function(f) => Shape::Function(
            FunctionShape {
                abi: abi_shape(f.abi),
                params: Seq::new(
                    f.params@.len(),
                    |i: int|
                        if 0 <= i < f.params@.len() {
                            shape(f.params@[i])
                        } else {
                            Shape::Never
                        },
                ),
                results: Seq::new(
                    f.results@.len(),
                    |i: int|
                        if 0 <= i < f.results@.len() {
                            shape(f.results@[i])
                        } else {
                            Shape::Never
                        },
                ),
            },
        ),
        _ => atom(t),
    }
}

/// The shape of a type without parts.
pub open spec fn atom(t: Type) -> Shape {
    match t {
        Type::Unknown => Shape::Unknown,
        Type::Variadic => Shape::Variadic,
        Type::I1 => Shape::I1,
        Type::I8 => Shape::I8,
        Type::U8 => Shape::U8,
        Type::I16 => Shape::I16,
        Type::U16 => Shape::U16,
        Type::I32 => Shape::I32,
        Type::U32 => Shape::U32,
        Type::I64 => Shape::I64,
        Type::U64 => Shape::U64,
        Type::I128 => Shape::I128,
        Type::U128 => Shape::U128,
        Type::U256 => Shape::U256,
        Type::F64 => Shape::F64,
        Type::Felt => Shape::Felt,
        _ => Shape::Never,
    }
}

pub open spec fn no_field() -> FieldShape {
    FieldShape { name: None, ty: Shape::Never }
}

pub open spec fn no_variant() -> VariantShape {
    VariantShape { name: Seq::empty(), value: None, discriminant_value: None }
}

/// The bodies of the definitions of a group.
#[verifier::opaque]
pub open spec fn bodies(defs: Seq<RecDef>) -> Seq<Shape>
    decreases defs,
{
    Seq::new(
        defs.len(),
        |i: int|
            if 0 <= i < defs.len() {
                match defs[i].body {
                    OpenAggregate::Struct(s) => Shape::Struct(
                        StructShape {
                            name: label(s.name),
                            repr: s.repr,
                            fields: open_fields(s.fields@),
                        },
                    ),
                    OpenAggregate::Enum(e) => Shape::Enum(
                        EnumShape {
                            name: e.name@,
                            discriminant: Box::new(shape(e.discriminant)),
                            variants: open_variants(e.variants@),
                        },
                    ),
                }
            } else {
                Shape::Never
            },
    )
}

/// The shapes of the fields of a body.
#[verifier::opaque]
pub open spec fn open_fields(fields: Seq<OpenStructField>) -> Seq<FieldShape>
    decreases fields,
{
    Seq::new(
        fields.len(),
        |i: int|
            if 0 <= i < fields.len() {
                FieldShape { name: label(fields[i].name), ty: open_shape(fields[i].ty) }
            } else {
                no_field()
            },
    )
}

/// The shapes of the variants of a body.
#[verifier::opaque]
pub open spec fn open_variants(variants: Seq<OpenVariant>) -> Seq<VariantShape>
    decreases variants,
{
    Seq::new(
        variants.len(),
        |i: int|
            if 0 <= i < variants.len() {
                VariantShape {
                    name: variants[i].name@,
                    value: match variants[i].value {
                        Some(value) => Some(open_shape(value)),
                        None => None,
                    },
                    discriminant_value: variants[i].discriminant_value,
                }
            } else {
                no_variant()
            },
    )
}

/// What a type expression inside a body is.
#[verifier::opaque]
pub open spec fn open_shape(t: OpenType) -> Shape
    decreases t,
{
    match t {
        OpenType::Closed(t) => shape(t),
        OpenType::Var(i) => Shape::Var(i as nat),
        OpenType::Ptr(addrspace, pointee) => Shape::Ptr(addrspace, Box::new(open_shape(*pointee))),
        OpenType::Array(element, n) => Shape::Array(Box::new(open_shape(*element)), n as nat),
        OpenType::List(element) => Shape::List(Box::new(open_shape(*element))),
        OpenType::Function(f) => Shape::Function(
            FunctionShape {
                abi: abi_shape(f.abi),
                params: Seq::new(
                    f.params@.len(),
                    |i: int|
                        if 0 <= i < f.params@.len() {
                            open_shape(f.params@[i])
                        } else {
                            Shape::Never
                        },
                ),
                results: Seq::new(
                    f.results@.len(),
                    |i: int|
                        if 0 <= i < f.results@.len() {
                            open_shape(f.results@[i])
                        } else {
                            Shape::Never
                        },
                ),
            },
        ),
        OpenType::Struct(s) => Shape::Struct(
            StructShape { name: label(s.name), repr: s.repr, fields: open_fields(s.fields@) },
        ),
        OpenType::Enum(e) => Shape::Enum(
            EnumShape {
                name: e.name@,
                discriminant: Box::new(shape(e.discriminant)),
                variants: open_variants(e.variants@),
            },
        ),
    }
}

pub open spec fn shapes(types: Seq<Type>) -> Seq<Shape> {
    Seq::new(types.len(), |i: int| shape(types[i]))
}

pub open spec fn function_shape(f: FunctionType) -> FunctionShape {
    FunctionShape {
        abi: abi_shape(f.abi),
        params: shapes(f.params@),
        results: shapes(f.results@),
    }
}

pub open spec fn struct_shape(s: StructType) -> StructShape {
    StructShape { name: label(s.name), repr: s.repr, fields: field_shapes(s.fields@) }
}

pub open spec fn field_shapes(fields: Seq<StructField>) -> Seq<FieldShape> {
    Seq::new(
        fields.len(),
        |i: int| FieldShape { name: label(fields[i].name), ty: shape(fields[i].ty) },
    )
}

pub open spec fn enum_shape(e: EnumType) -> EnumShape {
    EnumShape {
        name: e.name@,
        discriminant: Box::new(shape(e.discriminant)),
        variants: variant_shapes(e.variants@),
    }
}

pub open spec fn variant_shapes(variants: Seq<Variant>) -> Seq<VariantShape> {
    Seq::new(variants.len(), |i: int| variant_shape(variants[i]))
}

pub open spec fn variant_shape(variant: Variant) -> VariantShape {
    VariantShape {
        name: variant.name@,
        value: match variant.value {
            Some(value) => Some(shape(value)),
            None => None,
        },
        discriminant_value: variant.discriminant_value,
    }
}

pub open spec fn body_shape(body: OpenAggregate) -> Shape {
    match body {
        OpenAggregate::Struct(s) => Shape::Struct(open_struct_shape(s)),
        OpenAggregate::Enum(e) => Shape::Enum(open_enum_shape(e)),
    }
}

pub open spec fn body_shapes(defs: Seq<RecDef>) -> Seq<Shape> {
    Seq::new(defs.len(), |i: int| body_shape(defs[i].body))
}

pub open spec fn open_shapes(types: Seq<OpenType>) -> Seq<Shape> {
    Seq::new(types.len(), |i: int| open_shape(types[i]))
}

pub open spec fn open_struct_shape(s: OpenStructType) -> StructShape {
    StructShape { name: label(s.name), repr: s.repr, fields: open_field_shapes(s.fields@) }
}

pub open spec fn open_field_shapes(fields: Seq<OpenStructField>) -> Seq<FieldShape> {
    Seq::new(
        fields.len(),
        |i: int| FieldShape { name: label(fields[i].name), ty: open_shape(fields[i].ty) },
    )
}

pub open spec fn open_enum_shape(e: OpenEnumType) -> EnumShape {
    EnumShape {
        name: e.name@,
        discriminant: Box::new(shape(e.discriminant)),
        variants: open_variant_shapes(e.variants@),
    }
}

pub open spec fn open_variant_shapes(variants: Seq<OpenVariant>) -> Seq<VariantShape> {
    Seq::new(
        variants.len(),
        |i: int|
            VariantShape {
                name: variants[i].name@,
                value: match variants[i].value {
                    Some(value) => Some(open_shape(value)),
                    None => None,
                },
                discriminant_value: variants[i].discriminant_value,
            },
    )
}

impl Type {
    #[verifier::inline]
    pub open spec fn view(&self) -> Shape {
        shape(*self)
    }
}

impl OpenType {
    #[verifier::inline]
    pub open spec fn view(&self) -> Shape {
        open_shape(*self)
    }
}

/// What a type is, in terms of what its parts are.
pub open spec fn shape_of_parts(t: Type) -> Shape {
    match t {
        Type::Ptr(p) => Shape::Ptr(p.addrspace, Box::new(shape(p.pointee))),
        Type::Struct(StructRef::Plain(s)) => Shape::Struct(struct_shape(*s)),
        Type::Struct(StructRef::Rec(r)) => Shape::Rec(body_shapes(r.group.defs@), r.index as nat),
        Type::Enum(EnumRef::Plain(e)) => Shape::Enum(enum_shape(*e)),
        Type::Enum(EnumRef::Rec(r)) => Shape::Rec(body_shapes(r.group.defs@), r.index as nat),
        Type::Array(a) => Shape::Array(Box::new(shape(a.ty)), a.len as nat),
        Type::List(element) => Shape::List(Box::new(shape(*element))),
        Type::Function(f) => Shape::Function(function_shape(*f)),
        _ => atom(t),
    }
}

/// What a type expression inside a body is, in terms of what its parts are.
pub open spec fn open_shape_of_parts(t: OpenType) -> Shape {
    match t {
        OpenType::Closed(t) => shape(t),
        OpenType::Var(i) => Shape::Var(i as nat),
        OpenType::Ptr(addrspace, pointee) => Shape::Ptr(addrspace, Box::new(open_shape(*pointee))),
        OpenType::Array(element, n) => Shape::Array(Box::new(open_shape(*element)), n as nat),
        OpenType::List(element) => Shape::List(Box::new(open_shape(*element))),
        OpenType::Function(f) => Shape::Function(
            FunctionShape {
                abi: abi_shape(f.abi),
                params: open_shapes(f.params@),
                results: open_shapes(f.results@),
            },
        ),
        OpenType::Struct(s) => Shape::Struct(open_struct_shape(*s)),
        OpenType::Enum(e) => Shape::Enum(open_enum_shape(*e)),
    }
}

proof fn open_lists_unfold()
    ensures
        forall|fields: Seq<OpenStructField>| #[trigger]
            open_fields(fields) == open_field_shapes(fields),
        forall|variants: Seq<OpenVariant>| #[trigger]
            open_variants(variants) == open_variant_shapes(variants),
{
    reveal(shape);
    reveal(bodies);
    reveal(open_fields);
    reveal(open_variants);
    reveal(open_shape);
    assert forall|fields: Seq<OpenStructField>| #[trigger]
        open_fields(fields) == open_field_shapes(fields) by {
        assert(open_fields(fields) =~= open_field_shapes(fields));
    }
    assert forall|variants: Seq<OpenVariant>| #[trigger]
        open_variants(variants) == open_variant_shapes(variants) by {
        assert(open_variants(variants) =~= open_variant_shapes(variants));
    }
}

proof fn bodies_unfold(defs: Seq<RecDef>)
    ensures
        bodies(defs) == body_shapes(defs),
{
    open_lists_unfold();
    reveal(shape);
    reveal(bodies);
    reveal(open_fields);
    reveal(open_variants);
    reveal(open_shape);
    assert forall|i: int| 0 <= i < defs.len() implies bodies(defs)[i] == #[trigger] body_shapes(
        defs,
    )[i] by {
        match defs[i].body {
            OpenAggregate::Struct(s) => {
                assert(open_fields(s.fields@) == open_field_shapes(s.fields@));
            },
            OpenAggregate::Enum(e) => {
                assert(open_variants(e.variants@) == open_variant_shapes(e.variants@));
            },
        }
    }
    assert(bodies(defs) =~= body_shapes(defs));
}

pub proof fn shape_unfold(t: &Type)
    ensures
        t@ == shape_of_parts(*t),
{
    reveal(shape);
    match t {
        Type::Struct(StructRef::Plain(s)) => {
            assert(t@->Struct_0.fields =~= field_shapes(s.fields@));
        },
        Type::Enum(EnumRef::Plain(e)) => {
            assert(t@->Enum_0.variants =~= variant_shapes(e.variants@));
        },
        Type::Function(f) => {
            assert(t@->Function_0.params =~= shapes(f.params@));
            assert(t@->Function_0.results =~= shapes(f.results@));
        },
        Type::Struct(StructRef::Rec(r)) => {
            reveal(bodies);
            bodies_unfold(r.group.defs@);
        },
        Type::Enum(EnumRef::Rec(r)) => {
            reveal(bodies);
            bodies_unfold(r.group.defs@);
        },
        _ => {},
    }
}

pub proof fn open_shape_unfold(t: &OpenType)
    ensures
        t@ == open_shape_of_parts(*t),
{
    open_lists_unfold();
    reveal(shape);
    reveal(open_fields);
    reveal(open_variants);
    reveal(open_shape);
    match t {
        OpenType::Function(f) => {
            assert(t@->Function_0.params =~= open_shapes(f.params@));
            assert(t@->Function_0.results =~= open_shapes(f.results@));
        },
        OpenType::Struct(s) => {
            assert(open_fields(s.fields@) == open_field_shapes(s.fields@));
        },
        OpenType::Enum(e) => {
            assert(open_variants(e.variants@) == open_variant_shapes(e.variants@));
        },
        _ => {},
    }
}

// ---------------------------------------------------------------------------------------------
// Well-formedness: what is stored agrees with what the layout rules give
// ---------------------------------------------------------------------------------------------

/// Every aggregate inside the type obeys the rules it was declared under, and every recorded
/// size, offset and alignment is the one that the layout rules give.
#[verifier::opaque]
pub open spec fn wf(t: Type) -> bool
    decreases t,
{
    match t {
        Type::Ptr(p) => wf(p.pointee),
        Type::Struct(StructRef::Plain(s)) => {
            &&& struct_sound(*s)
            &&& forall|i: int| 0 <= i < s.fields@.len() ==> wf((#[trigger] s.fields@[i]).ty)
        },
        Type::Enum(EnumRef::Plain(e)) => {
            &&& enum_sound(*e)
            &&& wf(e.discriminant)
            &&& forall|i: int|
                0 <= i < e.variants@.len() ==> ((#[trigger] e.variants@[i]).value matches Some(
                    value,
                ) ==> wf(value))
        },
        Type::Struct(StructRef::Rec(r)) => {
            &&& rec_sound(r)
            &&& r.group.defs@[r.index as int].kind is Struct
            &&& bodies_wf(r.group.defs@, group_layouts(&*r.group))
        },
        Type::Enum(EnumRef::Rec(r)) => {
            &&& rec_sound(r)
            &&& r.group.defs@[r.index as int].kind is Enum
            &&& bodies_wf(r.group.defs@, group_layouts(&*r.group))
        },
        Type::Array(a) => wf(a.ty),
        Type::List(element) => wf(*element),
        Type::Function(f) => {
            &&& forall|i: int| 0 <= i < f.params@.len() ==> wf(#[trigger] f.params@[i])
            &&& forall|i: int| 0 <= i < f.results@.len() ==> wf(#[trigger] f.results@[i])
        },
        _ => true,
    }
}

/// Every type expression inside the bodies is well-formed.
#[verifier::opaque]
pub open spec fn bodies_wf(defs: Seq<RecDef>, group: Seq<Metrics>) -> bool
    decreases defs,
{
    forall|i: int|
        0 <= i < defs.len() ==> match (#[trigger] defs[i]).body {
            OpenAggregate::Struct(s) => open_fields_wf(s.fields@, group),
            OpenAggregate::Enum(e) => wf(e.discriminant) && open_variants_wf(e.variants@, group),
        }
}

#[verifier::opaque]
pub open spec fn open_fields_wf(fields: Seq<OpenStructField>, group: Seq<Metrics>) -> bool
    decreases fields,
{
    forall|i: int| 0 <= i < fields.len() ==> open_wf((#[trigger] fields[i]).ty, group)
}

#[verifier::opaque]
pub open spec fn open_variants_wf(variants: Seq<OpenVariant>, group: Seq<Metrics>) -> bool
    decreases variants,
{
    forall|i: int|
        0 <= i < variants.len() ==> ((#[trigger] variants[i]).value matches Some(value) ==> open_wf(
            value,
            group,
        ))
}

/// A type expression inside a body is well-formed, where `group` gives the layouts of the
/// definitions.
#[verifier::opaque]
pub open spec fn open_wf(t: OpenType, group: Seq<Metrics>) -> bool
    decreases t,
{
    match t {
        OpenType::Closed(t) => wf(t),
        OpenType::Var(i) => i < group.len(),
        OpenType::Ptr(_, pointee) => has_var(open_shape(*pointee)) && open_wf(*pointee, group),
        OpenType::Array(element, _) => has_var(open_shape(*element)) && open_wf(*element, group),
        OpenType::List(element) => has_var(open_shape(*element)) && open_wf(*element, group),
        OpenType::Function(f) => {
            &&& has_var(open_shape(t))
            &&& forall|i: int| 0 <= i < f.params@.len() ==> open_wf(#[trigger] f.params@[i], group)
            &&& forall|i: int|
                0 <= i < f.results@.len() ==> open_wf(#[trigger] f.results@[i], group)
        },
        OpenType::Struct(s) => {
            &&& has_var(open_shape(t))
            &&& open_struct_sound(*s, group)
            &&& open_fields_wf(s.fields@, group)
        },
        OpenType::Enum(e) => {
            &&& has_var(open_shape(t))
            &&& open_enum_sound(*e, group)
            &&& wf(e.discriminant)
            &&& open_variants_wf(e.variants@, group)
        },
    }
}

/// The layout that the rules give for a struct's fields.
pub open spec fn laid_out_fields(s: &StructType) -> Seq<Metrics> {
    field_metrics(field_shapes(s.fields@), Seq::empty())
}

/// The layout that the rules give for an enum's discriminant.
pub open spec fn laid_out_discriminant(e: &EnumType) -> Metrics {
    metrics(e.discriminant@, Seq::empty())
}

/// The layouts that the rules give for an enum's payloads.
pub open spec fn laid_out_payloads(e: &EnumType) -> Seq<Option<Metrics>> {
    payload_metrics(variant_shapes(e.variants@), Seq::empty())
}

/// The layouts that the rules give for a group's definitions.
pub open spec fn group_layouts(g: &RecGroup) -> Seq<Metrics> {
    group_metrics(body_shapes(g.defs@), g.defs@.len())
}

/// What a struct records of its own layout.
pub open spec fn struct_sound(s: StructType) -> bool {
    let layouts = laid_out_fields(&s);
    &&& struct_fits(s.repr, layouts)
    &&& s.size == struct_size(s.repr, layouts)
    &&& forall|i: int|
        0 <= i < s.fields@.len() ==> {
            &&& (#[trigger] s.fields@[i]).index == i
            &&& s.fields@[i].align == field_align(s.repr, layouts[i])
            &&& s.fields@[i].offset == field_offset(s.repr, layouts, i as nat)
        }
}

/// What an enum records of its own layout.
pub open spec fn enum_sound(e: EnumType) -> bool {
    let discriminant = laid_out_discriminant(&e);
    let payloads = laid_out_payloads(&e);
    &&& enum_fault(enum_shape(e)) is None
    &&& enum_fits(discriminant, payloads)
    &&& 8 * (e.size as nat) == enum_metrics(discriminant, payloads).bits
    &&& e.align == enum_metrics(discriminant, payloads).align
    &&& e.offsets@.len() == e.variants@.len()
    &&& forall|i: int|
        0 <= i < e.offsets@.len() ==> #[trigger] e.offsets@[i] == payload_offset(
            discriminant,
            payloads[i],
        )
}

pub open spec fn open_struct_sound(s: OpenStructType, group: Seq<Metrics>) -> bool {
    let layouts = field_metrics(open_field_shapes(s.fields@), group);
    &&& struct_fits(s.repr, layouts)
    &&& s.size == struct_size(s.repr, layouts)
    &&& forall|i: int|
        0 <= i < s.fields@.len() ==> {
            &&& (#[trigger] s.fields@[i]).index == i
            &&& s.fields@[i].align == field_align(s.repr, layouts[i])
            &&& s.fields@[i].offset == field_offset(s.repr, layouts, i as nat)
        }
}

pub open spec fn open_enum_sound(e: OpenEnumType, group: Seq<Metrics>) -> bool {
    let discriminant = metrics(e.discriminant@, Seq::empty());
    let payloads = payload_metrics(open_variant_shapes(e.variants@), group);
    &&& enum_fault(open_enum_shape(e)) is None
    &&& enum_fits(discriminant, payloads)
    &&& 8 * (e.size as nat) == enum_metrics(discriminant, payloads).bits
    &&& e.align == enum_metrics(discriminant, payloads).align
    &&& e.offsets@.len() == e.variants@.len()
    &&& forall|i: int|
        0 <= i < e.offsets@.len() ==> #[trigger] e.offsets@[i] == payload_offset(
            discriminant,
            payloads[i],
        )
}

/// What a group records of its definitions' layouts.
pub open spec fn group_sound(g: RecGroup) -> bool {
    let layouts = group_layouts(&g);
    &&& 1 <= g.defs@.len() <= MAX_RECURSIVE_GROUP_SIZE
    &&& group_settled(body_shapes(g.defs@))
    &&& forall|i: int|
        0 <= i < g.defs@.len() ==> {
            &&& (#[trigger] g.defs@[i]).kind == body_kind(g.defs@[i].body)
            &&& layout_is(g.defs@[i].layout, layouts[i])
            &&& match g.defs@[i].body {
                OpenAggregate::Struct(s) => open_struct_sound(s, layouts),
                OpenAggregate::Enum(e) => open_enum_sound(e, layouts),
            }
        }
}

pub open spec fn rec_sound(r: RecTypeRef) -> bool {
    &&& group_sound(*r.group)
    &&& (r.index as int) < r.group.defs@.len()
}

pub open spec fn layout_is(layout: TypeLayout, m: Metrics) -> bool {
    &&& 8 * (layout.size_in_bytes as nat) == m.bits
    &&& layout.min_alignment == m.align
    &&& layout.is_zst == m.zst
    &&& layout.min_alignment > 0
}

pub open spec fn body_kind(body: OpenAggregate) -> AggregateKind {
    match body {
        OpenAggregate::Struct(_) => AggregateKind::Struct,
        OpenAggregate::Enum(_) => AggregateKind::Enum,
    }
}

/// A struct is well-formed.
pub open spec fn struct_wf(s: StructType) -> bool {
    &&& struct_sound(s)
    &&& forall|i: int| 0 <= i < s.fields@.len() ==> wf((#[trigger] s.fields@[i]).ty)
}

/// An enum is well-formed.
pub open spec fn enum_wf(e: EnumType) -> bool {
    &&& enum_sound(e)
    &&& wf(e.discriminant)
    &&& variants_wf(e.variants@)
}

pub open spec fn variants_wf(variants: Seq<Variant>) -> bool {
    forall|i: int|
        0 <= i < variants.len() ==> ((#[trigger] variants[i]).value matches Some(value) ==> wf(
            value,
        ))
}

/// A function type is well-formed.
pub open spec fn function_wf(f: FunctionType) -> bool {
    &&& forall|i: int| 0 <= i < f.params@.len() ==> wf(#[trigger] f.params@[i])
    &&& forall|i: int| 0 <= i < f.results@.len() ==> wf(#[trigger] f.results@[i])
}

/// A reference to a definition is well-formed.
pub open spec fn rec_wf(r: RecTypeRef) -> bool {
    &&& rec_sound(r)
    &&& bodies_wf(r.group.defs@, group_layouts(&*r.group))
}

/// When a type is well-formed, in terms of its parts.
pub open spec fn wf_of_parts(t: Type) -> bool {
    match t {
        Type::Ptr(p) => wf(p.pointee),
        Type::Struct(StructRef::Plain(s)) => struct_wf(*s),
        Type::Struct(StructRef::Rec(r)) => rec_wf(r) && r.group.defs@[r.index as int].kind
            is Struct,
        Type::Enum(EnumRef::Plain(e)) => enum_wf(*e),
        Type::Enum(EnumRef::Rec(r)) => rec_wf(r) && r.group.defs@[r.index as int].kind is Enum,
        Type::Array(a) => wf(a.ty),
        Type::List(element) => wf(*element),
        Type::Function(f) => function_wf(*f),
        _ => true,
    }
}

pub proof fn wf_unfold(t: &Type)
    ensures
        wf(*t) == wf_of_parts(*t),
{
    reveal(wf);
    reveal(bodies_wf);
    reveal(open_fields_wf);
    reveal(open_variants_wf);
    reveal(open_wf);
}

/// When a type expression inside a body is well-formed, in terms of its parts.
pub open spec fn open_wf_of_parts(t: OpenType, group: Seq<Metrics>) -> bool {
    match t {
        OpenType::Closed(t) => wf(t),
        OpenType::Var(i) => i < group.len(),
        OpenType::Ptr(_, pointee) => has_var(open_shape(*pointee)) && open_wf(*pointee, group),
        OpenType::Array(element, _) => has_var(open_shape(*element)) && open_wf(*element, group),
        OpenType::List(element) => has_var(open_shape(*element)) && open_wf(*element, group),
        OpenType::Function(f) => {
            &&& has_var(open_shape(t))
            &&& forall|i: int| 0 <= i < f.params@.len() ==> open_wf(#[trigger] f.params@[i], group)
            &&& forall|i: int|
                0 <= i < f.results@.len() ==> open_wf(#[trigger] f.results@[i], group)
        },
        OpenType::Struct(s) => has_var(open_shape(t)) && open_struct_wf(*s, group),
        OpenType::Enum(e) => has_var(open_shape(t)) && open_enum_wf(*e, group),
    }
}

pub open spec fn open_struct_wf(s: OpenStructType, group: Seq<Metrics>) -> bool {
    &&& open_struct_sound(s, group)
    &&& forall|i: int| 0 <= i < s.fields@.len() ==> open_wf((#[trigger] s.fields@[i]).ty, group)
}

pub open spec fn open_enum_wf(e: OpenEnumType, group: Seq<Metrics>) -> bool {
    &&& open_enum_sound(e, group)
    &&& wf(e.discriminant)
    &&& forall|i: int|
        0 <= i < e.variants@.len() ==> ((#[trigger] e.variants@[i]).value matches Some(value)
            ==> open_wf(value, group))
}

pub open spec fn body_wf(body: OpenAggregate, group: Seq<Metrics>) -> bool {
    match body {
        OpenAggregate::Struct(s) => open_struct_wf(s, group),
        OpenAggregate::Enum(e) => open_enum_wf(e, group),
    }
}

pub proof fn open_wf_unfold(t: &OpenType, group: Seq<Metrics>)
    ensures
        open_wf(*t, group) == open_wf_of_parts(*t, group),
{
    reveal(wf);
    reveal(bodies_wf);
    reveal(open_fields_wf);
    reveal(open_variants_wf);
    reveal(open_wf);
    match t {
        OpenType::Struct(s) => {
            assert(open_fields_wf(s.fields@, group) == forall|i: int|
                0 <= i < s.fields@.len() ==> open_wf((#[trigger] s.fields@[i]).ty, group));
        },
        OpenType::Enum(e) => {
            assert(open_variants_wf(e.variants@, group) == forall|i: int|
                0 <= i < e.variants@.len() ==> ((#[trigger] e.variants@[i]).value matches Some(
                    value,
                ) ==> open_wf(value, group)));
        },
        _ => {},
    }
}

pub proof fn bodies_wf_unfold(g: &RecGroup, group: Seq<Metrics>)
    requires
        group_sound(*g),
        group == group_layouts(g),
    ensures
        bodies_wf(g.defs@, group) <==> forall|i: int|
            0 <= i < g.defs@.len() ==> body_wf((#[trigger] g.defs@[i]).body, group),
{
    reveal(wf);
    reveal(bodies_wf);
    reveal(open_fields_wf);
    reveal(open_variants_wf);
    reveal(open_wf);
}

} // verus!
