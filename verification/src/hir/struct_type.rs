//! Struct types.
use vstd::prelude::*;

use crate::hir::layout::{lay_out, measure, measured, struct_alignment, Measure};
use crate::hir::metrics::{field_metrics, metrics, struct_align, struct_fits, struct_size, Metrics};
use crate::hir::shape::{FieldShape, StructShape, TypeRepr};
use crate::hir::types::{
    field_shapes, label, laid_out_fields, shape, struct_shape, struct_wf, wf, StructField,
    StructType, Type,
};

verus! {

impl Default for TypeRepr {
    fn default() -> (repr: TypeRepr)
        ensures
            repr is Default,
    {
        TypeRepr::Default
    }
}

impl TypeRepr {
    /// A packed representation with the given alignment.
    pub fn packed(align: u16) -> (repr: TypeRepr)
        requires
            align > 0,
        ensures
            repr == TypeRepr::Packed(align),
    {
        TypeRepr::Packed(align)
    }

    /// A representation with the given minimum alignment.
    pub fn align(align: u16) -> (repr: TypeRepr)
        requires
            align > 0,
        ensures
            repr == TypeRepr::Align(align),
    {
        TypeRepr::Align(align)
    }

    /// Whether this representation is transparent.
    pub fn is_transparent(&self) -> (transparent: bool)
        ensures
            transparent == (*self is Transparent),
    {
        match self {
            TypeRepr::Transparent => true,
            _ => false,
        }
    }

    /// Whether this representation is packed.
    pub fn is_packed(&self) -> (packed: bool)
        ensures
            packed == (*self is Packed),
    {
        match self {
            TypeRepr::Packed(_) => true,
            _ => false,
        }
    }

    /// The custom alignment of this representation, if it has one.
    pub fn min_alignment(&self) -> (align: Option<usize>)
        ensures
            match *self {
                TypeRepr::Align(custom) => align == Some(custom as usize),
                TypeRepr::Packed(custom) => align == Some(custom as usize),
                _ => align is None,
            },
    {
        match self {
            TypeRepr::Align(align) => Some(*align as usize),
            TypeRepr::Packed(align) => Some(*align as usize),
            _ => None,
        }
    }
}

/// A type that may be named.
#[derive(Debug, PartialEq, Eq)]
pub struct NameAndType {
    pub name: Option<String>,
    pub ty: Type,
}

impl NameAndType {
    /// A type without a name.
    pub fn unnamed(ty: Type) -> (named: NameAndType)
        ensures
            named.name is None,
            named.ty == ty,
    {
        NameAndType { name: None, ty }
    }

    /// A type with a name.
    pub fn named(name: String, ty: Type) -> (named: NameAndType)
        ensures
            named.name == Some(name),
            named.ty == ty,
    {
        NameAndType { name: Some(name), ty }
    }
}

/// What the fields of a struct are to be.
pub open spec fn named_shapes(fields: Seq<NameAndType>) -> Seq<FieldShape> {
    Seq::new(
        fields.len(),
        |i: int| FieldShape { name: label(fields[i].name), ty: shape(fields[i].ty) },
    )
}

pub open spec fn named_wf(fields: Seq<NameAndType>) -> bool {
    forall|i: int| 0 <= i < fields.len() ==> wf((#[trigger] fields[i]).ty)
}

/// The fields obey the rules of the representation, and their layout can be recorded.
pub open spec fn fields_fit(repr: TypeRepr, fields: Seq<FieldShape>) -> bool {
    struct_fits(repr, field_metrics(fields, Seq::empty()))
}

proof fn oversized_field(repr: TypeRepr, fields: Seq<Metrics>, i: int)
    requires
        0 <= i < fields.len(),
        fields[i].bits > u64::MAX,
        forall|j: int| 0 <= j < fields.len() ==> (#[trigger] fields[j]).align > 0,
        forall|j: int| 0 <= j < fields.len() ==> (#[trigger] fields[j]).align <= u16::MAX,
    ensures
        !struct_fits(repr, fields),
{
    if struct_fits(repr, fields) {
        crate::hir::layout::offsets_grow(repr, fields, i as nat, fields.len());
        crate::hir::layout::widths_bounded(repr, fields, fields.len());
        assert(struct_size(repr, fields) >= fields[i].bytes());
    }
}

impl StructType {
    /// A struct of the given name, representation and fields, or `None` where the fields violate
    /// the rules of the representation or are too many or too large to be laid out.
    pub fn try_from_parts(name: Option<String>, repr: TypeRepr, fields: Vec<NameAndType>) -> (made:
        Option<StructType>)
        requires
            named_wf(fields@),
        ensures
            made is Some <==> fields_fit(repr, named_shapes(fields@)),
            made matches Some(made) ==> {
                &&& struct_shape(made) == (StructShape {
                    name: label(name),
                    repr,
                    fields: named_shapes(fields@),
                })
                &&& struct_wf(made)
            },
    {
        let ghost all = named_shapes(fields@);
        let ghost layouts = field_metrics(all, Seq::empty());
        let mut measures: Vec<Measure> = Vec::new();
        let mut i: usize = 0;
        assert forall|j: int| 0 <= j < layouts.len() implies 0 < (#[trigger] layouts[j]).align
            <= u16::MAX by {
            crate::hir::layout::align_bounds(&fields@[j].ty);
        }
        while i < fields.len()
            invariant
                i <= fields@.len(),
                named_wf(fields@),
                all == named_shapes(fields@),
                layouts == field_metrics(all, Seq::empty()),
                forall|j: int| 0 <= j < layouts.len() ==> 0 < (#[trigger] layouts[j]).align <= u16::MAX,
                measures@.len() == i,
                forall|j: int|
                    0 <= j < i ==> (#[trigger] measures@[j])@ == layouts[j] && measures@[j].align
                        > 0,
            decreases fields@.len() - i,
        {
            assert(layouts[i as int] == metrics(fields@[i as int].ty@, Seq::empty()));
            match measure(&fields[i].ty) {
                Some(measure) => {
                    measures.push(measure);
                },
                None => {
                    proof {
                        oversized_field(repr, layouts, i as int);
                    }
                    return None;
                },
            }
            i += 1;
        }
        assert(measured(measures@) =~= layouts);
        let placement = match lay_out(repr, &measures) {
            Some(placement) => placement,
            None => {
                return None;
            },
        };
        let mut laid_out: Vec<StructField> = Vec::new();
        let mut rest = fields;
        let ghost given = fields@;
        let mut i: usize = placement.slots.len();
        // Fields leave the list from its end, so that each is moved and not copied.
        while i > 0
            invariant
                i <= given.len() <= 255,
                given.len() == placement.slots@.len(),
                rest@ =~= given.take(i as int),
                laid_out@.len() == given.len() - i,
                forall|j: int|
                    0 <= j < given.len() - i ==> {
                        let at = given.len() - 1 - j;
                        &&& (#[trigger] laid_out@[j]).name == given[at].name
                        &&& laid_out@[j].ty == given[at].ty
                        &&& laid_out@[j].index == at
                        &&& laid_out@[j].align == placement.slots@[at].0
                        &&& laid_out@[j].offset == placement.slots@[at].1
                    },
            decreases i,
        {
            i -= 1;
            match rest.pop() {
                Some(field) => {
                    let slot = placement.slots[i];
                    laid_out.push(
                        StructField {
                            name: field.name,
                            index: i as u8,
                            align: slot.0,
                            offset: slot.1,
                            ty: field.ty,
                        },
                    );
                },
                None => {},
            }
        }
        let fields = reversed(laid_out);
        let made = StructType { name, repr, size: placement.size, fields };
        proof {
            assert(field_shapes(made.fields@) =~= all);
        }
        Some(made)
    }

    /// A struct of the given name, representation and fields.
    pub fn from_parts(name: Option<String>, repr: TypeRepr, fields: Vec<NameAndType>) -> (made:
        StructType)
        requires
            named_wf(fields@),
            fields_fit(repr, named_shapes(fields@)),
        ensures
            struct_shape(made) == (StructShape {
                name: label(name),
                repr,
                fields: named_shapes(fields@),
            }),
            struct_wf(made),
    {
        match StructType::try_from_parts(name, repr, fields) {
            Some(made) => made,
            None => vstd::pervasive::unreached(),
        }
    }

    /// A struct of default representation, without a name.
    pub fn new(fields: Vec<NameAndType>) -> (made: StructType)
        requires
            named_wf(fields@),
            fields_fit(TypeRepr::Default, named_shapes(fields@)),
        ensures
            struct_shape(made) == (StructShape {
                name: None,
                repr: TypeRepr::Default,
                fields: named_shapes(fields@),
            }),
            struct_wf(made),
    {
        StructType::from_parts(None, TypeRepr::Default, fields)
    }

    /// A struct of default representation.
    pub fn named(name: String, fields: Vec<NameAndType>) -> (made: StructType)
        requires
            named_wf(fields@),
            fields_fit(TypeRepr::Default, named_shapes(fields@)),
        ensures
            struct_shape(made) == (StructShape {
                name: Some(name@),
                repr: TypeRepr::Default,
                fields: named_shapes(fields@),
            }),
            struct_wf(made),
    {
        StructType::from_parts(Some(name), TypeRepr::Default, fields)
    }

    /// A struct of the given representation, without a name.
    pub fn new_with_repr(repr: TypeRepr, fields: Vec<NameAndType>) -> (made: StructType)
        requires
            named_wf(fields@),
            fields_fit(repr, named_shapes(fields@)),
        ensures
            struct_shape(made) == (StructShape { name: None, repr, fields: named_shapes(fields@) }),
            struct_wf(made),
    {
        StructType::from_parts(None, repr, fields)
    }

    /// The name of this struct, if it has one.
    pub fn name(&self) -> (name: Option<String>)
        ensures
            name == self.name,
    {
        match &self.name {
            Some(name) => Some(name.clone()),
            None => None,
        }
    }

    /// The representation of this struct.
    pub fn repr(&self) -> (repr: TypeRepr)
        ensures
            repr == self.repr,
    {
        self.repr
    }

    /// The minimum alignment of this struct.
    pub fn min_alignment(&self) -> (align: usize)
        requires
            struct_wf(*self),
        ensures
            align == struct_align(self.repr, laid_out_fields(self)),
    {
        struct_alignment(self) as usize
    }

    /// The size of this struct in bytes, padding included.
    pub fn size(&self) -> (size: usize)
        requires
            struct_wf(*self),
        ensures
            size == struct_size(self.repr, laid_out_fields(self)),
    {
        self.size as usize
    }

    /// The field at `index`, in the order of declaration.
    pub fn get(&self, index: usize) -> (field: &StructField)
        requires
            index < self.fields@.len(),
        ensures
            *field == self.fields@[index as int],
    {
        &self.fields[index]
    }

    /// The fields of this struct.
    pub fn fields(&self) -> (fields: &Vec<StructField>)
        ensures
            *fields == self.fields,
    {
        &self.fields
    }

    /// Whether this struct has no fields.
    pub fn is_empty(&self) -> (empty: bool)
        ensures
            empty == (self.fields@.len() == 0),
    {
        self.fields.len() == 0
    }

    /// The number of fields.
    pub fn len(&self) -> (len: usize)
        ensures
            len == self.fields@.len(),
    {
        self.fields.len()
    }
}

/// The items of a list in the opposite order.
fn reversed(items: Vec<StructField>) -> (turned: Vec<StructField>)
    ensures
        turned@ == items@.reverse(),
{
    let mut rest = items;
    let mut turned: Vec<StructField> = Vec::new();
    let ghost all = items@;
    while rest.len() > 0
        invariant
            rest@ =~= all.take(rest@.len() as int),
            rest@.len() <= all.len(),
            turned@.len() == all.len() - rest@.len(),
            forall|j: int| 0 <= j < turned@.len() ==> turned@[j] == #[trigger] all.reverse()[j],
        decreases rest@.len(),
    {
        match rest.pop() {
            Some(item) => {
                turned.push(item);
            },
            None => {},
        }
    }
    assert(turned@ =~= all.reverse());
    turned
}

} // verus!
