//! Function types and calling conventions.
use vstd::prelude::*;

use crate::hir::shape::AbiShape;
use crate::hir::types::{abi_shape, CallConv, FunctionType, Type};

verus! {

/// Whether two strings are the same text.
pub fn same_text(a: &str, b: &str) -> (same: bool)
    ensures
        same == (a@ == b@),
{
    a.to_owned() == b.to_owned()
}

/// The text that names a calling convention.
pub open spec fn abi_text(abi: CallConv) -> Seq<char> {
    match abi {
        CallConv::Fast => "fast"@,
        CallConv::C => "C"@,
        CallConv::Wasm => "wasm"@,
        CallConv::ComponentModel => "component-model"@,
        CallConv::Extern(name) => name@,
    }
}

/// The calling convention that a text names.
pub open spec fn abi_named(s: Seq<char>) -> AbiShape {
    if s == "fast"@ {
        AbiShape::Fast
    } else if s == "C"@ {
        AbiShape::C
    } else if s == "wasm"@ || s == "Wasm"@ {
        AbiShape::Wasm
    } else if s == "canon-lift"@ || s == "component-model"@ {
        AbiShape::ComponentModel
    } else {
        AbiShape::Extern(s)
    }
}

/// The number that stands for a calling convention in an encoding.
pub open spec fn abi_tag(abi: AbiShape) -> u8 {
    match abi {
        AbiShape::Fast => 0,
        AbiShape::C => 1,
        AbiShape::Wasm => 2,
        AbiShape::ComponentModel => 3,
        AbiShape::Extern(_) => 4,
    }
}

/// A text that names no calling convention. Every text names one, so that this is never met.
#[derive(Debug)]
pub struct UnknownCallingConventionError(pub String);

impl Default for CallConv {
    fn default() -> (abi: CallConv)
        ensures
            abi is C,
    {
        CallConv::C
    }
}

impl CallConv {
    /// Whether this convention is that of the Wasm component model.
    pub fn is_wasm_canonical_abi(&self) -> (canonical: bool)
        ensures
            canonical == (*self is ComponentModel),
    {
        match self {
            CallConv::ComponentModel => true,
            _ => false,
        }
    }

    /// The name of this convention.
    pub fn as_str(&self) -> (text: &str)
        ensures
            text@ == abi_text(*self),
    {
        match self {
            CallConv::Fast => "fast",
            CallConv::C => "C",
            CallConv::Wasm => "wasm",
            CallConv::ComponentModel => "component-model",
            CallConv::Extern(name) => name.as_str(),
        }
    }

    /// The number that stands for this convention in an encoding.
    pub fn tag(&self) -> (tag: u8)
        ensures
            tag == abi_tag(abi_shape(*self)),
    {
        match self {
            CallConv::Fast => 0,
            CallConv::C => 1,
            CallConv::Wasm => 2,
            CallConv::ComponentModel => 3,
            CallConv::Extern(_) => 4,
        }
    }

    /// The convention that a text names. A text that names none of the known ones stands for a
    /// convention of that name.
    pub fn from_name(s: &str) -> (abi: CallConv)
        ensures
            abi_shape(abi) == abi_named(s@),
    {
        if same_text(s, "fast") {
            CallConv::Fast
        } else if same_text(s, "C") {
            CallConv::C
        } else if same_text(s, "wasm") || same_text(s, "Wasm") {
            CallConv::Wasm
        } else if same_text(s, "canon-lift") || same_text(s, "component-model") {
            CallConv::ComponentModel
        } else {
            CallConv::Extern(s.to_owned())
        }
    }
}

impl core::str::FromStr for CallConv {
    type Err = UnknownCallingConventionError;

    fn from_str(s: &str) -> (named: Result<CallConv, UnknownCallingConventionError>)
        ensures
            named is Ok,
            abi_shape(named->Ok_0) == abi_named(s@),
    {
        Ok(CallConv::from_name(s))
    }
}

/// Naming a known calling convention gives it back.
pub proof fn names_give_conventions_back(abi: CallConv)
    requires
        !(abi is Extern),
    ensures
        abi_named(abi_text(abi)) == abi_shape(abi),
{
    reveal_strlit("fast");
    reveal_strlit("C");
    reveal_strlit("wasm");
    reveal_strlit("Wasm");
    reveal_strlit("canon-lift");
    reveal_strlit("component-model");
    assert("C"@.len() == 1 && "fast"@.len() == 4 && "wasm"@.len() == 4 && "component-model"@.len()
        == 15 && "canon-lift"@.len() == 10);
    assert("fast"@[0] != "wasm"@[0]);
    assert("fast"@[0] != "Wasm"@[0]);
}

/// What a text is parsed as is named by that text, or by the newer of two names for one convention.
/// Parsing that name gives the same convention again.
pub proof fn parsed_conventions_keep_their_names(s: Seq<char>, abi: CallConv)
    requires
        abi_shape(abi) == abi_named(s),
    ensures
        abi_text(abi) == (if s == "Wasm"@ {
            "wasm"@
        } else if s == "canon-lift"@ {
            "component-model"@
        } else {
            s
        }),
        abi_named(abi_text(abi)) == abi_shape(abi),
{
    reveal_strlit("fast");
    reveal_strlit("C");
    reveal_strlit("wasm");
    reveal_strlit("Wasm");
    reveal_strlit("canon-lift");
    reveal_strlit("component-model");
    assert("C"@.len() == 1 && "fast"@.len() == 4 && "wasm"@.len() == 4 && "Wasm"@.len() == 4
        && "component-model"@.len() == 15 && "canon-lift"@.len() == 10);
    assert("fast"@[0] != "wasm"@[0]);
    assert("fast"@[0] != "Wasm"@[0]);
    if !(abi is Extern) {
        names_give_conventions_back(abi);
    }
}

impl FunctionType {
    /// A function type of the given convention, parameters and results.
    pub fn new(abi: CallConv, params: Vec<Type>, results: Vec<Type>) -> (made: FunctionType)
        ensures
            made.abi == abi,
            made.params == params,
            made.results == results,
    {
        FunctionType { abi, params, results }
    }

    /// This function type under another convention.
    pub fn with_calling_convention(self, abi: CallConv) -> (made: FunctionType)
        ensures
            made.abi == abi,
            made.params == self.params,
            made.results == self.results,
    {
        FunctionType { abi, params: self.params, results: self.results }
    }

    /// The calling convention.
    pub fn calling_convention(&self) -> (abi: CallConv)
        ensures
            abi == self.abi,
    {
        self.abi.clone()
    }

    /// The number of parameters.
    pub fn arity(&self) -> (arity: usize)
        ensures
            arity == self.params@.len(),
    {
        self.params.len()
    }

    /// The types of the parameters.
    pub fn params(&self) -> (params: &Vec<Type>)
        ensures
            *params == self.params,
    {
        &self.params
    }

    /// The types of the results.
    pub fn results(&self) -> (results: &Vec<Type>)
        ensures
            *results == self.results,
    {
        &self.results
    }
}

} // verus!
