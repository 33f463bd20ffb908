//! What a type is, as a value of mathematics.
use vstd::prelude::*;

verus! {

/// The address space a pointer address is evaluated in.
#[derive(Debug, Clone, Copy, PartialEq, Eq, Hash, Structural)]
pub enum AddressSpace {
    /// The pointer address is evaluated as a byte address. This is the default.
    Byte,
    /// The pointer address is evaluated as an element address, the unit of native addresses.
    Element,
}

/// How a structured type is represented in memory.
#[derive(Debug, Clone, Copy, PartialEq, Eq, Hash, Structural)]
pub enum TypeRepr {
    /// The C representation.
    Default,
    /// Raises the minimum alignment.
    Align(u16),
    /// Lowers the alignment of the type and of its fields.
    Packed(u16),
    /// The representation of the single field that is not zero-sized.
    Transparent,
}

/// A calling convention.
#[verifier::ext_equal]
pub enum AbiShape {
    Fast,
    C,
    Wasm,
    ComponentModel,
    Extern(Seq<char>),
}

/// What a type is, as a value of mathematics: its structure without anything derived from it.
///
/// `Var` and `Name` stand for a definition of a recursive group: by its position inside the body
/// of a definition, by its key inside a template. A closed type holds neither.
#[verifier::ext_equal]
pub enum Shape {
    Unknown,
    Never,
    Variadic,
    I1,
    I8,
    U8,
    I16,
    U16,
    I32,
    U32,
    I64,
    U64,
    I128,
    U128,
    U256,
    F64,
    Felt,
    Ptr(AddressSpace, Box<Shape>),
    Struct(StructShape),
    Enum(EnumShape),
    Array(Box<Shape>, nat),
    List(Box<Shape>),
    Function(FunctionShape),
    Rec(Seq<Shape>, nat),
    Var(nat),
    Name(Seq<char>),
}

#[verifier::ext_equal]
pub struct StructShape {
    pub name: Option<Seq<char>>,
    pub repr: TypeRepr,
    pub fields: Seq<FieldShape>,
}

#[verifier::ext_equal]
pub struct FieldShape {
    pub name: Option<Seq<char>>,
    pub ty: Shape,
}

#[verifier::ext_equal]
pub struct EnumShape {
    pub name: Seq<char>,
    pub discriminant: Box<Shape>,
    pub variants: Seq<VariantShape>,
}

#[verifier::ext_equal]
pub struct VariantShape {
    pub name: Seq<char>,
    pub value: Option<Shape>,
    pub discriminant_value: Option<u128>,
}

#[verifier::ext_equal]
pub struct FunctionShape {
    pub abi: AbiShape,
    pub params: Seq<Shape>,
    pub results: Seq<Shape>,
}

/// A back-reference occurs in the type, outside the groups that its closed parts carry.
#[verifier::opaque]
pub open spec fn has_var(t: Shape) -> bool
    decreases t,
{
    match t {
        Shape::Var(_) | Shape::Name(_) => true,
        Shape::Ptr(_, pointee) => has_var(*pointee),
        Shape::Array(element, _) => has_var(*element),
        Shape::List(element) => has_var(*element),
        Shape::Function(f) => {
            ||| exists|i: int| 0 <= i < f.params.len() && has_var(#[trigger] f.params[i])
            ||| exists|i: int| 0 <= i < f.results.len() && has_var(#[trigger] f.results[i])
        },
        Shape::Struct(s) => exists|i: int|
            0 <= i < s.fields.len() && has_var((#[trigger] s.fields[i]).ty),
        Shape::Enum(e) => {
            ||| has_var(*e.discriminant)
            ||| exists|i: int|
                0 <= i < e.variants.len() && ((#[trigger] e.variants[i]).value matches Some(value)
                    && has_var(value))
        },
        _ => false,
    }
}

} // verus!
