//! Copies of types, which share what they hold.
use std::sync::Arc;
use vstd::prelude::*;

use crate::hir::types::{CallConv, EnumRef, RecTypeRef, StructRef, Type};

verus! {

/// Another handle on a shared value, by `Arc::clone`: a copy of an `Arc` points to the value that
/// the `Arc` itself points to.
#[verifier::external_body]
pub(crate) fn share<T>(value: &Arc<T>) -> (shared: Arc<T>)
    ensures
        shared == *value,
{
    Arc::clone(value)
}

impl Clone for Type {
    fn clone(&self) -> (copy: Type)
        ensures
            copy == *self,
    {
        match self {
            Type::Unknown => Type::Unknown,
            Type::Never => Type::Never,
            Type::Variadic => Type::Variadic,
            Type::I1 => Type::I1,
            Type::I8 => Type::I8,
            Type::U8 => Type::U8,
            Type::I16 => Type::I16,
            Type::U16 => Type::U16,
            Type::I32 => Type::I32,
            Type::U32 => Type::U32,
            Type::I64 => Type::I64,
            Type::U64 => Type::U64,
            Type::I128 => Type::I128,
            Type::U128 => Type::U128,
            Type::U256 => Type::U256,
            Type::F64 => Type::F64,
            Type::Felt => Type::Felt,
            Type::Ptr(p) => Type::Ptr(share(p)),
            Type::Struct(s) => Type::Struct(s.clone()),
            Type::Enum(e) => Type::Enum(e.clone()),
            Type::Array(a) => Type::Array(share(a)),
            Type::List(element) => Type::List(share(element)),
            Type::Function(f) => Type::Function(share(f)),
        }
    }
}

impl Clone for StructRef {
    fn clone(&self) -> (copy: StructRef)
        ensures
            copy == *self,
    {
        match self {
            StructRef::Plain(s) => StructRef::Plain(share(s)),
            StructRef::Rec(r) => StructRef::Rec(r.clone()),
        }
    }
}

impl Clone for EnumRef {
    fn clone(&self) -> (copy: EnumRef)
        ensures
            copy == *self,
    {
        match self {
            EnumRef::Plain(e) => EnumRef::Plain(share(e)),
            EnumRef::Rec(r) => EnumRef::Rec(r.clone()),
        }
    }
}

impl Clone for RecTypeRef {
    fn clone(&self) -> (copy: RecTypeRef)
        ensures
            copy == *self,
    {
        RecTypeRef { group: share(&self.group), index: self.index }
    }
}

impl Clone for CallConv {
    fn clone(&self) -> (copy: CallConv)
        ensures
            copy == *self,
    {
        match self {
            CallConv::Fast => CallConv::Fast,
            CallConv::C => CallConv::C,
            CallConv::Wasm => CallConv::Wasm,
            CallConv::ComponentModel => CallConv::ComponentModel,
            CallConv::Extern(name) => CallConv::Extern(name.clone()),
        }
    }
}

/// A copy of an optional name.
pub fn copy_name(name: &Option<String>) -> (copy: Option<String>)
    ensures
        copy == *name,
{
    match name {
        Some(name) => Some(name.clone()),
        None => None,
    }
}

} // verus!
