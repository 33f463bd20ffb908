//! Questions about types, and the types that hold them.
use std::sync::Arc;
use vstd::prelude::*;

use crate::hir::copy::copy_name;
use crate::hir::enum_rules::is_integer;
use crate::hir::function_type::same_text;
use crate::hir::layout_laws::{is_fixed_width, least};
use crate::hir::layout::{alignment, array_size, bits_of, recorded, zero_sized};
use crate::hir::metrics::{array_metrics, metrics, metrics_unfold};
use crate::hir::shape::{AddressSpace, Shape, TypeRepr};
use crate::hir::types::{
    group_layouts, label, layout_is, rec_sound, shape_unfold, wf, wf_unfold, AggregateKind,
    ArrayType, EnumRef, EnumType, FunctionType, OpenAggregate, PointerType, RecTypeRef, StructRef,
    StructType, Type, TypeLayout,
};

verus! {

/// A text that names no address space.
#[derive(Debug, Clone, Copy, PartialEq, Eq, Structural)]
pub enum InvalidAddressSpaceError {
    InvalidId,
}

impl Default for AddressSpace {
    fn default() -> (addrspace: AddressSpace)
        ensures
            addrspace is Byte,
    {
        AddressSpace::Byte
    }
}

impl AddressSpace {
    /// The name of this address space.
    pub fn as_str(&self) -> (text: &str)
        ensures
            text@ == (match *self {
                AddressSpace::Byte => "byte"@,
                AddressSpace::Element => "element"@,
            }),
    {
        match self {
            AddressSpace::Byte => "byte",
            AddressSpace::Element => "element",
        }
    }

    /// The address space that a text names.
    pub fn from_name(s: &str) -> (named: Result<AddressSpace, InvalidAddressSpaceError>)
        ensures
            s@ == "byte"@ ==> named == Ok::<AddressSpace, InvalidAddressSpaceError>(
                AddressSpace::Byte,
            ),
            s@ == "element"@ && s@ != "byte"@ ==> named == Ok::<
                AddressSpace,
                InvalidAddressSpaceError,
            >(AddressSpace::Element),
            s@ != "byte"@ && s@ != "element"@ ==> named == Err::<
                AddressSpace,
                InvalidAddressSpaceError,
            >(InvalidAddressSpaceError::InvalidId),
    {
        if same_text(s, "byte") {
            Ok(AddressSpace::Byte)
        } else if same_text(s, "element") {
            Ok(AddressSpace::Element)
        } else {
            Err(InvalidAddressSpaceError::InvalidId)
        }
    }
}

impl core::str::FromStr for AddressSpace {
    type Err = InvalidAddressSpaceError;

    fn from_str(s: &str) -> (named: Result<AddressSpace, InvalidAddressSpaceError>)
        ensures
            s@ == "byte"@ ==> named == Ok::<AddressSpace, InvalidAddressSpaceError>(
                AddressSpace::Byte,
            ),
            s@ == "element"@ && s@ != "byte"@ ==> named == Ok::<
                AddressSpace,
                InvalidAddressSpaceError,
            >(AddressSpace::Element),
            s@ != "byte"@ && s@ != "element"@ ==> named == Err::<
                AddressSpace,
                InvalidAddressSpaceError,
            >(InvalidAddressSpaceError::InvalidId),
    {
        AddressSpace::from_name(s)
    }
}

impl PointerType {
    /// A byte-addressable pointer to `pointee`.
    pub fn new(pointee: Type) -> (made: PointerType)
        ensures
            made == (PointerType { addrspace: AddressSpace::Byte, pointee }),
    {
        PointerType { addrspace: AddressSpace::Byte, pointee }
    }

    /// A pointer to `pointee` in `addrspace`.
    pub fn new_with_address_space(pointee: Type, addrspace: AddressSpace) -> (made: PointerType)
        ensures
            made == (PointerType { addrspace, pointee }),
    {
        PointerType { addrspace, pointee }
    }

    /// The type pointed to.
    pub fn pointee(&self) -> (pointee: &Type)
        ensures
            *pointee == self.pointee,
    {
        &self.pointee
    }

    /// The address space of this pointer type.
    pub fn addrspace(&self) -> (addrspace: AddressSpace)
        ensures
            addrspace == self.addrspace,
    {
        self.addrspace
    }

    /// Whether pointers of this type hold byte addresses.
    pub fn is_byte_pointer(&self) -> (byte: bool)
        ensures
            byte == (self.addrspace is Byte),
    {
        match self.addrspace {
            AddressSpace::Byte => true,
            AddressSpace::Element => false,
        }
    }
}

impl ArrayType {
    /// An array of `len` elements of type `ty`.
    pub fn new(ty: Type, len: usize) -> (made: ArrayType)
        ensures
            made == (ArrayType { ty, len }),
    {
        ArrayType { ty, len }
    }

    /// The number of elements.
    pub fn len(&self) -> (len: usize)
        ensures
            len == self.len,
    {
        self.len
    }

    /// The type of the elements.
    pub fn element_type(&self) -> (ty: &Type)
        ensures
            *ty == self.ty,
    {
        &self.ty
    }

    /// Whether this array is zero-sized.
    pub fn is_zst(&self) -> (zst: bool)
        requires
            wf(self.ty),
        ensures
            zst == array_metrics(metrics(self.ty@, Seq::empty()), self.len as nat).zst,
    {
        self.len == 0 || zero_sized(&self.ty)
    }

    /// The minimum alignment of this array.
    pub fn min_alignment(&self) -> (align: usize)
        requires
            wf(self.ty),
        ensures
            align == array_metrics(metrics(self.ty@, Seq::empty()), self.len as nat).align,
    {
        alignment(&self.ty) as usize
    }

    /// The size of this array in bits.
    pub fn size_in_bits(&self) -> (bits: usize)
        requires
            wf(self.ty),
            array_metrics(metrics(self.ty@, Seq::empty()), self.len as nat).bits <= usize::MAX,
        ensures
            bits == array_metrics(metrics(self.ty@, Seq::empty()), self.len as nat).bits,
    {
        match array_size(
            bits_of(&self.ty),
            alignment(&self.ty),
            self.len,
            Ghost(metrics(self.ty@, Seq::empty())),
        ) {
            Some(bits) => bits as usize,
            None => vstd::pervasive::unreached(),
        }
    }
}

/// The numeric types: the integers and the floating-point type.
pub open spec fn is_numeric_shape(t: Shape) -> bool {
    is_integer(t) || t is F64
}

impl Type {
    /// Whether this type is zero-sized.
    pub fn is_zst(&self) -> (zst: bool)
        requires
            wf(*self),
        ensures
            zst == metrics(self@, Seq::empty()).zst,
    {
        zero_sized(self)
    }

    /// The minimum alignment of this type in bytes.
    pub fn min_alignment(&self) -> (align: usize)
        requires
            wf(*self),
        ensures
            align == metrics(self@, Seq::empty()).align,
    {
        alignment(self) as usize
    }

    /// The size of this type in bits.
    pub fn size_in_bits(&self) -> (bits: usize)
        requires
            wf(*self),
            metrics(self@, Seq::empty()).bits <= usize::MAX,
        ensures
            bits == metrics(self@, Seq::empty()).bits,
    {
        match bits_of(self) {
            Some(bits) => bits as usize,
            None => vstd::pervasive::unreached(),
        }
    }

    /// The number of bytes that hold a value of this type.
    pub fn size_in_bytes(&self) -> (bytes: usize)
        requires
            wf(*self),
            metrics(self@, Seq::empty()).bits <= usize::MAX,
        ensures
            bytes == metrics(self@, Seq::empty()).bytes(),
    {
        let bits: usize = self.size_in_bits();
        let whole: usize = bits / 8;
        if bits % 8 == 0 {
            whole
        } else {
            whole + 1
        }
    }

    /// Whether this type is numeric.
    pub fn is_numeric(&self) -> (numeric: bool)
        ensures
            numeric == is_numeric_shape(self@),
    {
        proof {
            shape_unfold(self);
        }
        match self {
            Type::I1 | Type::I8 | Type::U8 | Type::I16 | Type::U16 | Type::I32 | Type::U32
            | Type::I64 | Type::U64 | Type::I128 | Type::U128 | Type::U256 | Type::F64
            | Type::Felt => true,
            _ => false,
        }
    }

    /// Whether this type is integral.
    pub fn is_integer(&self) -> (integer: bool)
        ensures
            integer == is_integer(self@),
    {
        proof {
            shape_unfold(self);
        }
        match self {
            Type::I1 | Type::I8 | Type::U8 | Type::I16 | Type::U16 | Type::I32 | Type::U32
            | Type::I64 | Type::U64 | Type::I128 | Type::U128 | Type::U256 | Type::Felt => true,
            _ => false,
        }
    }

    /// Whether this type is a signed integer.
    pub fn is_signed_integer(&self) -> (signed: bool)
        ensures
            signed == (*self is I8 || *self is I16 || *self is I32 || *self is I64 || *self
                is I128),
            signed == (is_fixed_width(self@) && least(self@) < 0),
    {
        proof {
            shape_unfold(self);
        }
        match self {
            Type::I8 | Type::I16 | Type::I32 | Type::I64 | Type::I128 => true,
            _ => false,
        }
    }

    /// Whether this type is an unsigned integer.
    pub fn is_unsigned_integer(&self) -> (unsigned: bool)
        ensures
            unsigned == (*self is I1 || *self is U8 || *self is U16 || *self is U32 || *self is U64
                || *self is U128 || *self is U256),
            unsigned == (is_fixed_width(self@) && least(self@) >= 0),
    {
        proof {
            shape_unfold(self);
        }
        match self {
            Type::I1 | Type::U8 | Type::U16 | Type::U32 | Type::U64 | Type::U128
            | Type::U256 => true,
            _ => false,
        }
    }

    /// The unsigned twin of this type.
    pub fn as_unsigned(&self) -> (unsigned: Type)
        requires
            has_unsigned_twin(*self),
        ensures
            unsigned == unsigned_twin(*self),
    {
        match self {
            Type::I8 | Type::U8 => Type::U8,
            Type::I16 | Type::U16 => Type::U16,
            Type::I32 | Type::U32 => Type::U32,
            Type::I64 | Type::U64 => Type::U64,
            Type::I128 | Type::U128 => Type::U128,
            _ => Type::Felt,
        }
    }

    /// The signed twin of this type.
    pub fn as_signed(&self) -> (signed: Type)
        requires
            has_unsigned_twin(*self),
            !(*self is Felt),
        ensures
            signed == signed_twin(*self),
    {
        match self {
            Type::I8 | Type::U8 => Type::I8,
            Type::I16 | Type::U16 => Type::I16,
            Type::I32 | Type::U32 => Type::I32,
            Type::I64 | Type::U64 => Type::I64,
            _ => Type::I128,
        }
    }

    /// Whether this type is a floating-point type.
    pub fn is_float(&self) -> (float: bool)
        ensures
            float == (*self is F64),
    {
        match self {
            Type::F64 => true,
            _ => false,
        }
    }

    /// Whether this type is the field element type.
    pub fn is_felt(&self) -> (felt: bool)
        ensures
            felt == (*self is Felt),
    {
        match self {
            Type::Felt => true,
            _ => false,
        }
    }

    /// Whether this type is a pointer type.
    pub fn is_pointer(&self) -> (pointer: bool)
        ensures
            pointer == (*self is Ptr),
    {
        match self {
            Type::Ptr(_) => true,
            _ => false,
        }
    }

    /// The type pointed to, if this type is a pointer type.
    pub fn pointee(&self) -> (pointee: Option<&Type>)
        ensures
            match *self {
                Type::Ptr(p) => pointee == Some(&p.pointee),
                _ => pointee is None,
            },
    {
        match self {
            Type::Ptr(p) => Some(p.pointee()),
            _ => None,
        }
    }

    /// Whether this type is a struct type.
    pub fn is_struct(&self) -> (is: bool)
        ensures
            is == (*self is Struct),
    {
        match self {
            Type::Struct(_) => true,
            _ => false,
        }
    }

    /// Whether this type is an array type.
    pub fn is_array(&self) -> (is: bool)
        ensures
            is == (*self is Array),
    {
        match self {
            Type::Array(_) => true,
            _ => false,
        }
    }

    /// Whether this type is a list type.
    pub fn is_list(&self) -> (is: bool)
        ensures
            is == (*self is List),
    {
        match self {
            Type::List(_) => true,
            _ => false,
        }
    }

    /// Whether this type is a function reference type.
    pub fn is_function(&self) -> (is: bool)
        ensures
            is == (*self is Function),
    {
        match self {
            Type::Function(_) => true,
            _ => false,
        }
    }
}

/// The types with an unsigned twin: the sized integers of 8 to 128 bits, and field elements.
pub open spec fn has_unsigned_twin(t: Type) -> bool {
    match t {
        Type::I8 | Type::U8 | Type::I16 | Type::U16 | Type::I32 | Type::U32 | Type::I64 | Type::U64
        | Type::I128 | Type::U128 | Type::Felt => true,
        _ => false,
    }
}

pub open spec fn unsigned_twin(t: Type) -> Type {
    match t {
        Type::I8 => Type::U8,
        Type::I16 => Type::U16,
        Type::I32 => Type::U32,
        Type::I64 => Type::U64,
        Type::I128 => Type::U128,
        _ => t,
    }
}

pub open spec fn signed_twin(t: Type) -> Type {
    match t {
        Type::U8 => Type::I8,
        Type::U16 => Type::I16,
        Type::U32 => Type::I32,
        Type::U64 => Type::I64,
        Type::U128 => Type::I128,
        _ => t,
    }
}

/// Twins have the same layout, and each is the other's twin.
pub proof fn twins_agree(t: Type)
    requires
        has_unsigned_twin(t),
        !(t is Felt),
    ensures
        metrics(unsigned_twin(t)@, Seq::empty()) == metrics(signed_twin(t)@, Seq::empty()),
        unsigned_twin(signed_twin(t)) == unsigned_twin(t),
        signed_twin(unsigned_twin(t)) == signed_twin(t),
{
    shape_unfold(&unsigned_twin(t));
    shape_unfold(&signed_twin(t));
    metrics_unfold(unsigned_twin(t)@, Seq::empty());
    metrics_unfold(signed_twin(t)@, Seq::empty());
}

impl TypeLayout {
    /// The size in bytes.
    pub fn size_in_bytes(&self) -> (size: usize)
        ensures
            size == self.size_in_bytes,
    {
        self.size_in_bytes as usize
    }

    /// The minimum alignment in bytes.
    pub fn min_alignment(&self) -> (align: usize)
        ensures
            align == self.min_alignment,
    {
        self.min_alignment as usize
    }

    /// Whether the definition is zero-sized.
    pub fn is_zst(&self) -> (zst: bool)
        ensures
            zst == self.is_zst,
    {
        self.is_zst
    }
}

impl AggregateKind {
    /// The word for this kind.
    pub fn as_str(&self) -> (text: &str)
        ensures
            text@ == (match *self {
                AggregateKind::Struct => "struct"@,
                AggregateKind::Enum => "enum"@,
            }),
    {
        match self {
            AggregateKind::Struct => "struct",
            AggregateKind::Enum => "enum",
        }
    }
}

/// The declared name of a definition.
pub open spec fn declared_name(body: OpenAggregate) -> Option<Seq<char>> {
    match body {
        OpenAggregate::Struct(s) => label(s.name),
        OpenAggregate::Enum(e) => Some(e.name@),
    }
}

impl RecTypeRef {
    /// The declared name of the aggregate this reference selects, if it has one.
    pub fn name(&self) -> (name: Option<String>)
        requires
            rec_sound(*self),
        ensures
            label(name) == declared_name(self.group.defs@[self.index as int].body),
    {
        match &self.group.defs[self.index as usize].body {
            OpenAggregate::Struct(s) => copy_name(&s.name),
            OpenAggregate::Enum(e) => Some(e.name.clone()),
        }
    }

    /// Whether this reference selects a struct or an enum definition.
    pub fn kind(&self) -> (kind: AggregateKind)
        requires
            rec_sound(*self),
        ensures
            kind == self.group.defs@[self.index as int].kind,
    {
        self.group.defs[self.index as usize].kind
    }

    /// The layout of the selected definition.
    pub fn layout(&self) -> (layout: TypeLayout)
        requires
            rec_sound(*self),
        ensures
            layout_is(layout, group_layouts(&*self.group)[self.index as int]),
    {
        recorded(self)
    }

    /// The number of definitions in the group. A group of more than one is mutually recursive.
    pub fn group_len(&self) -> (len: usize)
        ensures
            len == self.group.defs@.len(),
    {
        self.group.defs.len()
    }

    /// The position of the selected definition in its group.
    pub fn index(&self) -> (index: u16)
        ensures
            index == self.index,
    {
        self.index
    }
}

impl StructRef {
    /// The name of this struct, if it has one.
    pub fn name(&self) -> (name: Option<String>)
        requires
            wf(Type::Struct(*self)),
        ensures
            match *self {
                StructRef::Plain(s) => name == s.name,
                StructRef::Rec(r) => label(name) == declared_name(
                    r.group.defs@[r.index as int].body,
                ),
            },
    {
        proof {
            wf_unfold(&Type::Struct(*self));
        }
        match self {
            StructRef::Plain(s) => s.name(),
            StructRef::Rec(r) => r.name(),
        }
    }

    /// The representation of this struct.
    pub fn repr(&self) -> (repr: TypeRepr)
        requires
            wf(Type::Struct(*self)),
        ensures
            match *self {
                StructRef::Plain(s) => repr == s.repr,
                StructRef::Rec(r) => match r.group.defs@[r.index as int].body {
                    OpenAggregate::Struct(s) => repr == s.repr,
                    OpenAggregate::Enum(_) => repr is Default,
                },
            },
    {
        proof {
            wf_unfold(&Type::Struct(*self));
        }
        match self {
            StructRef::Plain(s) => s.repr(),
            StructRef::Rec(r) => match &r.group.defs[r.index as usize].body {
                OpenAggregate::Struct(s) => s.repr,
                OpenAggregate::Enum(_) => TypeRepr::Default,
            },
        }
    }

    /// The size of this struct in bytes, padding included.
    pub fn size(&self) -> (size: usize)
        requires
            wf(Type::Struct(*self)),
        ensures
            size == metrics(Type::Struct(*self)@, Seq::empty()).bytes(),
    {
        proof {
            wf_unfold(&Type::Struct(*self));
            shape_unfold(&Type::Struct(*self));
            metrics_unfold(Type::Struct(*self)@, Seq::empty());
        }
        match self {
            StructRef::Plain(s) => s.size as usize,
            StructRef::Rec(r) => recorded(r).size_in_bytes as usize,
        }
    }

    /// The minimum alignment of this struct.
    pub fn min_alignment(&self) -> (align: usize)
        requires
            wf(Type::Struct(*self)),
        ensures
            align == metrics(Type::Struct(*self)@, Seq::empty()).align,
    {
        alignment(&Type::Struct(self.clone())) as usize
    }

    /// Whether this struct is zero-sized.
    pub fn is_zst(&self) -> (zst: bool)
        requires
            wf(Type::Struct(*self)),
        ensures
            zst == metrics(Type::Struct(*self)@, Seq::empty()).zst,
    {
        zero_sized(&Type::Struct(self.clone()))
    }

    /// Whether this struct is recursive.
    pub fn is_recursive(&self) -> (recursive: bool)
        ensures
            recursive == (*self is Rec),
    {
        match self {
            StructRef::Rec(_) => true,
            StructRef::Plain(_) => false,
        }
    }

    /// The recursive definition this struct refers to, if it is recursive.
    pub fn as_recursive(&self) -> (rec: Option<&RecTypeRef>)
        ensures
            match *self {
                StructRef::Rec(r) => rec == Some(&r),
                StructRef::Plain(_) => rec is None,
            },
    {
        match self {
            StructRef::Rec(r) => Some(r),
            StructRef::Plain(_) => None,
        }
    }
}

impl EnumRef {
    /// The name of this enum.
    pub fn name(&self) -> (name: String)
        requires
            wf(Type::Enum(*self)),
        ensures
            match *self {
                EnumRef::Plain(e) => name == e.name,
                EnumRef::Rec(r) => Some(name@) == declared_name(
                    r.group.defs@[r.index as int].body,
                ),
            },
    {
        proof {
            wf_unfold(&Type::Enum(*self));
        }
        match self {
            EnumRef::Plain(e) => e.name.clone(),
            EnumRef::Rec(r) => match &r.group.defs[r.index as usize].body {
                OpenAggregate::Enum(e) => e.name.clone(),
                OpenAggregate::Struct(_) => vstd::pervasive::unreached(),
            },
        }
    }

    /// The size of this enum in bytes.
    pub fn size_in_bytes(&self) -> (size: usize)
        requires
            wf(Type::Enum(*self)),
        ensures
            size == metrics(Type::Enum(*self)@, Seq::empty()).bytes(),
    {
        proof {
            wf_unfold(&Type::Enum(*self));
            shape_unfold(&Type::Enum(*self));
            metrics_unfold(Type::Enum(*self)@, Seq::empty());
        }
        match self {
            EnumRef::Plain(e) => e.size as usize,
            EnumRef::Rec(r) => recorded(r).size_in_bytes as usize,
        }
    }

    /// The size of this enum in bits.
    pub fn size_in_bits(&self) -> (bits: usize)
        requires
            wf(Type::Enum(*self)),
            metrics(Type::Enum(*self)@, Seq::empty()).bits <= usize::MAX,
        ensures
            bits == metrics(Type::Enum(*self)@, Seq::empty()).bits,
    {
        Type::Enum(self.clone()).size_in_bits()
    }

    /// The minimum alignment of this enum.
    pub fn min_alignment(&self) -> (align: usize)
        requires
            wf(Type::Enum(*self)),
        ensures
            align == metrics(Type::Enum(*self)@, Seq::empty()).align,
    {
        alignment(&Type::Enum(self.clone())) as usize
    }

    /// Whether this enum is zero-sized.
    pub fn is_zst(&self) -> (zst: bool)
        requires
            wf(Type::Enum(*self)),
        ensures
            zst == metrics(Type::Enum(*self)@, Seq::empty()).zst,
    {
        zero_sized(&Type::Enum(self.clone()))
    }

    /// Whether this enum is recursive.
    pub fn is_recursive(&self) -> (recursive: bool)
        ensures
            recursive == (*self is Rec),
    {
        match self {
            EnumRef::Rec(_) => true,
            EnumRef::Plain(_) => false,
        }
    }

    /// The recursive definition this enum refers to, if it is recursive.
    pub fn as_recursive(&self) -> (rec: Option<&RecTypeRef>)
        ensures
            match *self {
                EnumRef::Rec(r) => rec == Some(&r),
                EnumRef::Plain(_) => rec is None,
            },
    {
        match self {
            EnumRef::Rec(r) => Some(r),
            EnumRef::Plain(_) => None,
        }
    }
}

// ---------------------------------------------------------------------------------------------
// Types from their contents
// ---------------------------------------------------------------------------------------------

impl From<StructType> for Type {
    fn from(ty: StructType) -> (made: Type) {
        Type::Struct(StructRef::Plain(Arc::new(ty)))
    }
}

impl vstd::std_specs::convert::FromSpecImpl<StructType> for Type {
    open spec fn obeys_from_spec() -> bool {
        true
    }

    open spec fn from_spec(ty: StructType) -> Type {
        Type::Struct(StructRef::Plain(Arc::new(ty)))
    }
}

impl From<EnumType> for Type {
    fn from(ty: EnumType) -> (made: Type) {
        Type::Enum(EnumRef::Plain(Arc::new(ty)))
    }
}

impl vstd::std_specs::convert::FromSpecImpl<EnumType> for Type {
    open spec fn obeys_from_spec() -> bool {
        true
    }

    open spec fn from_spec(ty: EnumType) -> Type {
        Type::Enum(EnumRef::Plain(Arc::new(ty)))
    }
}

impl From<ArrayType> for Type {
    fn from(ty: ArrayType) -> (made: Type) {
        Type::Array(Arc::new(ty))
    }
}

impl vstd::std_specs::convert::FromSpecImpl<ArrayType> for Type {
    open spec fn obeys_from_spec() -> bool {
        true
    }

    open spec fn from_spec(ty: ArrayType) -> Type {
        Type::Array(Arc::new(ty))
    }
}

impl From<PointerType> for Type {
    fn from(ty: PointerType) -> (made: Type) {
        Type::Ptr(Arc::new(ty))
    }
}

impl vstd::std_specs::convert::FromSpecImpl<PointerType> for Type {
    open spec fn obeys_from_spec() -> bool {
        true
    }

    open spec fn from_spec(ty: PointerType) -> Type {
        Type::Ptr(Arc::new(ty))
    }
}

impl From<FunctionType> for Type {
    fn from(ty: FunctionType) -> (made: Type) {
        Type::Function(Arc::new(ty))
    }
}

impl vstd::std_specs::convert::FromSpecImpl<FunctionType> for Type {
    open spec fn obeys_from_spec() -> bool {
        true
    }

    open spec fn from_spec(ty: FunctionType) -> Type {
        Type::Function(Arc::new(ty))
    }
}

} // verus!
