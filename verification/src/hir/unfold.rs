//! Unfolding a recursive type one level.
use std::sync::Arc;
use vstd::prelude::*;

use crate::hir::alignment::{alike, binding_keeps_alignment, structs_alike};
use crate::hir::copy::{copy_name, share};
use crate::hir::enum_rules::{
    claimed_elsewhere, discriminant_at, discriminants_fault, enum_fault, repeated_later,
    repeated_variant,
};
use crate::hir::kinds::declared_name;
use crate::hir::layout::{closed_metrics, types_are_closed};
use crate::hir::metrics::{
    field_metrics, group_metrics, group_metrics_unfold, metrics, metrics_unfold, payload_metrics,
    stand_in, struct_align, Metrics,
};
use crate::hir::shape::{
    has_var, EnumShape, FieldShape, FunctionShape, Shape, StructShape, VariantShape,
};
use crate::hir::types::{
    bodies_wf_unfold, body_shapes, enum_shape, enum_sound, enum_wf, field_shapes, group_layouts,
    group_sound, label, laid_out_fields, laid_out_payloads, layout_is, open_enum_shape,
    open_enum_wf, open_field_shapes, open_shape_unfold, open_shapes, open_struct_shape,
    open_struct_wf, open_variant_shapes, open_wf, open_wf_unfold, rec_wf, shape_unfold, shapes,
    struct_shape, struct_sound, struct_wf, variant_shapes, wf, wf_unfold, AggregateKind, ArrayType,
    EnumRef, EnumType, FunctionType, OpenAggregate, OpenEnumType, OpenStructType, OpenType,
    PointerType, RecGroup, RecTypeRef, StructField, StructRef, StructType, Type, Variant,
};

verus! {

/// The type with every back-reference replaced by the definition that it names.
#[verifier::opaque]
pub open spec fn bind(t: Shape, definitions: Seq<Shape>) -> Shape
    decreases t,
{
    match t {
        Shape::Var(i) => Shape::Rec(definitions, i),
        Shape::Ptr(addrspace, pointee) => Shape::Ptr(
            addrspace,
            Box::new(bind(*pointee, definitions)),
        ),
        Shape::Array(element, n) => Shape::Array(Box::new(bind(*element, definitions)), n),
        Shape::List(element) => Shape::List(Box::new(bind(*element, definitions))),
        Shape::Function(f) => Shape::Function(
            FunctionShape {
                abi: f.abi,
                params: Seq::new(
                    f.params.len(),
                    |i: int|
                        if 0 <= i < f.params.len() {
                            bind(f.params[i], definitions)
                        } else {
                            Shape::Never
                        },
                ),
                results: Seq::new(
                    f.results.len(),
                    |i: int|
                        if 0 <= i < f.results.len() {
                            bind(f.results[i], definitions)
                        } else {
                            Shape::Never
                        },
                ),
            },
        ),
        Shape::Struct(s) => Shape::Struct(
            StructShape {
                name: s.name,
                repr: s.repr,
                fields: Seq::new(
                    s.fields.len(),
                    |i: int|
                        if 0 <= i < s.fields.len() {
                            FieldShape {
                                name: s.fields[i].name,
                                ty: bind(s.fields[i].ty, definitions),
                            }
                        } else {
                            FieldShape { name: None, ty: Shape::Never }
                        },
                ),
            },
        ),
        Shape::Enum(e) => Shape::Enum(
            EnumShape {
                name: e.name,
                discriminant: Box::new(bind(*e.discriminant, definitions)),
                variants: Seq::new(
                    e.variants.len(),
                    |i: int|
                        if 0 <= i < e.variants.len() {
                            VariantShape {
                                name: e.variants[i].name,
                                value: match e.variants[i].value {
                                    Some(value) => Some(bind(value, definitions)),
                                    None => None,
                                },
                                discriminant_value: e.variants[i].discriminant_value,
                            }
                        } else {
                            VariantShape {
                                name: Seq::empty(),
                                value: None,
                                discriminant_value: None,
                            }
                        },
                ),
            },
        ),
        _ => t,
    }
}

pub open spec fn bind_all(types: Seq<Shape>, definitions: Seq<Shape>) -> Seq<Shape> {
    Seq::new(types.len(), |i: int| bind(types[i], definitions))
}

pub open spec fn bind_struct(s: StructShape, definitions: Seq<Shape>) -> StructShape {
    StructShape {
        name: s.name,
        repr: s.repr,
        fields: Seq::new(
            s.fields.len(),
            |i: int| FieldShape { name: s.fields[i].name, ty: bind(s.fields[i].ty, definitions) },
        ),
    }
}

pub open spec fn bind_enum(e: EnumShape, definitions: Seq<Shape>) -> EnumShape {
    EnumShape {
        name: e.name,
        discriminant: Box::new(bind(*e.discriminant, definitions)),
        variants: Seq::new(
            e.variants.len(),
            |i: int|
                VariantShape {
                    name: e.variants[i].name,
                    value: match e.variants[i].value {
                        Some(value) => Some(bind(value, definitions)),
                        None => None,
                    },
                    discriminant_value: e.variants[i].discriminant_value,
                },
        ),
    }
}

pub open spec fn bind_of_parts(t: Shape, definitions: Seq<Shape>) -> Shape {
    match t {
        Shape::Var(i) => Shape::Rec(definitions, i),
        Shape::Ptr(addrspace, pointee) => Shape::Ptr(
            addrspace,
            Box::new(bind(*pointee, definitions)),
        ),
        Shape::Array(element, n) => Shape::Array(Box::new(bind(*element, definitions)), n),
        Shape::List(element) => Shape::List(Box::new(bind(*element, definitions))),
        Shape::Function(f) => Shape::Function(
            FunctionShape {
                abi: f.abi,
                params: bind_all(f.params, definitions),
                results: bind_all(f.results, definitions),
            },
        ),
        Shape::Struct(s) => Shape::Struct(bind_struct(s, definitions)),
        Shape::Enum(e) => Shape::Enum(bind_enum(e, definitions)),
        _ => t,
    }
}

pub proof fn bind_unfold(t: Shape, definitions: Seq<Shape>)
    ensures
        bind(t, definitions) == bind_of_parts(t, definitions),
{
    reveal(bind);
    match t {
        Shape::Function(f) => {
            let bound = bind(t, definitions)->Function_0;
            assert(bound.params =~= bind_all(f.params, definitions));
            assert(bound.results =~= bind_all(f.results, definitions));
        },
        Shape::Struct(s) => {
            let bound = bind(t, definitions)->Struct_0;
            assert(bound.fields =~= bind_struct(s, definitions).fields);
        },
        Shape::Enum(e) => {
            let bound = bind(t, definitions)->Enum_0;
            assert(bound.variants =~= bind_enum(e, definitions).variants);
        },
        _ => {},
    }
}

/// Binding changes nothing in a type without back-references.
pub proof fn bind_closed(t: Shape, definitions: Seq<Shape>)
    requires
        !has_var(t),
    ensures
        bind(t, definitions) == t,
    decreases t,
{
    reveal(has_var);
    bind_unfold(t, definitions);
    match t {
        Shape::Ptr(_, pointee) => {
            bind_closed(*pointee, definitions);
        },
        Shape::Array(element, _) => {
            bind_closed(*element, definitions);
        },
        Shape::List(element) => {
            bind_closed(*element, definitions);
        },
        Shape::Function(f) => {
            assert forall|i: int| 0 <= i < f.params.len() implies bind(
                #[trigger] f.params[i],
                definitions,
            ) == f.params[i] by {
                bind_closed(f.params[i], definitions);
            }
            assert forall|i: int| 0 <= i < f.results.len() implies bind(
                #[trigger] f.results[i],
                definitions,
            ) == f.results[i] by {
                bind_closed(f.results[i], definitions);
            }
            assert(bind_all(f.params, definitions) =~= f.params);
            assert(bind_all(f.results, definitions) =~= f.results);
        },
        Shape::Struct(s) => {
            assert forall|i: int| 0 <= i < s.fields.len() implies bind(
                (#[trigger] s.fields[i]).ty,
                definitions,
            ) == s.fields[i].ty by {
                bind_closed(s.fields[i].ty, definitions);
            }
            assert(bind_struct(s, definitions).fields =~= s.fields);
        },
        Shape::Enum(e) => {
            bind_closed(*e.discriminant, definitions);
            assert forall|i: int| 0 <= i < e.variants.len() implies (#[trigger] bind_enum(
                e,
                definitions,
            ).variants[i]) == e.variants[i] by {
                if let Some(value) = e.variants[i].value {
                    assert(!has_var(value));
                    bind_closed(value, definitions);
                }
            }
            assert(bind_enum(e, definitions).variants =~= e.variants);
        },
        _ => {},
    }
}

/// Each definition of the group takes exactly the room that its group reserves for it.
pub open spec fn exact_room(layouts: Seq<Metrics>) -> bool {
    forall|i: int| 0 <= i < layouts.len() ==> #[trigger] layouts[i] == stand_in(layouts[i])
}

/// Unfolding keeps the layout: a bound type is laid out as the type it was bound from.
pub proof fn binding_keeps_layout(t: Shape, definitions: Seq<Shape>)
    requires
        exact_room(group_metrics(definitions, definitions.len())),
    ensures
        metrics(bind(t, definitions), Seq::empty()) == metrics(
            t,
            group_metrics(definitions, definitions.len()),
        ),
    decreases t,
{
    let layouts = group_metrics(definitions, definitions.len());
    group_metrics_unfold(definitions, definitions.len());
    bind_unfold(t, definitions);
    metrics_unfold(t, layouts);
    metrics_unfold(bind(t, definitions), Seq::empty());
    match t {
        Shape::Array(element, _) => {
            binding_keeps_layout(*element, definitions);
        },
        Shape::Struct(s) => {
            assert forall|i: int| 0 <= i < s.fields.len() implies metrics(
                bind((#[trigger] s.fields[i]).ty, definitions),
                Seq::empty(),
            ) == metrics(s.fields[i].ty, layouts) by {
                binding_keeps_layout(s.fields[i].ty, definitions);
            }
            assert(field_metrics(bind_struct(s, definitions).fields, Seq::empty())
                =~= field_metrics(s.fields, layouts));
        },
        Shape::Enum(e) => {
            binding_keeps_layout(*e.discriminant, definitions);
            assert forall|i: int| 0 <= i < e.variants.len() implies (#[trigger] payload_metrics(
                bind_enum(e, definitions).variants,
                Seq::empty(),
            )[i]) == payload_metrics(e.variants, layouts)[i] by {
                if let Some(value) = e.variants[i].value {
                    binding_keeps_layout(value, definitions);
                }
            }
            assert(payload_metrics(bind_enum(e, definitions).variants, Seq::empty())
                =~= payload_metrics(e.variants, layouts));
        },
        _ => {},
    }
}

proof fn fault_ignores_payloads(a: EnumShape, b: EnumShape, i: int)
    requires
        a.discriminant == b.discriminant,
        a.variants.len() == b.variants.len(),
        forall|j: int|
            0 <= j < a.variants.len() ==> (#[trigger] a.variants[j]).name == b.variants[j].name
                && a.variants[j].discriminant_value == b.variants[j].discriminant_value,
        0 <= i <= a.variants.len(),
    ensures
        repeated_variant(a.variants, i) == repeated_variant(b.variants, i),
        discriminants_fault(a, i) == discriminants_fault(b, i),
    decreases a.variants.len() - i,
{
    if i < a.variants.len() {
        fault_ignores_payloads(a, b, i + 1);
        same_discriminants(a, b, i);
        if i > 0 {
            same_discriminants(a, b, i - 1);
        }
        let value = discriminant_at(a.variants, i);
        assert(claimed_elsewhere(a.variants, i, value) == claimed_elsewhere(b.variants, i, value))
            by {
            if claimed_elsewhere(a.variants, i, value) {
                let j = choose|j: int|
                    0 <= j < a.variants.len() && j != i && ((
                    #[trigger] a.variants[j]).discriminant_value matches Some(other) && other
                        == value);
                assert(b.variants[j].discriminant_value == a.variants[j].discriminant_value);
            }
            if claimed_elsewhere(b.variants, i, value) {
                let j = choose|j: int|
                    0 <= j < b.variants.len() && j != i && ((
                    #[trigger] b.variants[j]).discriminant_value matches Some(other) && other
                        == value);
                assert(b.variants[j].discriminant_value == a.variants[j].discriminant_value);
            }
        }
        assert(repeated_later(a.variants, i) == repeated_later(b.variants, i)) by {
            if repeated_later(a.variants, i) {
                let j = choose|j: int|
                    i < j < a.variants.len() && (#[trigger] a.variants[j]).name
                        == a.variants[i].name;
                assert(b.variants[j].name == a.variants[j].name);
                assert(b.variants[i].name == a.variants[i].name);
            }
            if repeated_later(b.variants, i) {
                let j = choose|j: int|
                    i < j < b.variants.len() && (#[trigger] b.variants[j]).name
                        == b.variants[i].name;
                assert(b.variants[j].name == a.variants[j].name);
                assert(b.variants[i].name == a.variants[i].name);
            }
        }
    }
}

proof fn same_discriminants(a: EnumShape, b: EnumShape, i: int)
    requires
        a.variants.len() == b.variants.len(),
        forall|j: int|
            0 <= j < a.variants.len() ==> (
            #[trigger] a.variants[j]).discriminant_value == b.variants[j].discriminant_value,
        0 <= i < a.variants.len(),
    ensures
        discriminant_at(a.variants, i) == discriminant_at(b.variants, i),
    decreases i,
{
    assert(a.variants[i].discriminant_value == b.variants[i].discriminant_value);
    if i > 0 {
        same_discriminants(a, b, i - 1);
    }
}

/// Whether an enum definition is valid does not depend on the types of its payloads.
pub proof fn validity_ignores_payloads(a: EnumShape, b: EnumShape)
    requires
        a.discriminant == b.discriminant,
        a.variants.len() == b.variants.len(),
        forall|j: int|
            0 <= j < a.variants.len() ==> (#[trigger] a.variants[j]).name == b.variants[j].name
                && a.variants[j].discriminant_value == b.variants[j].discriminant_value,
    ensures
        enum_fault(a) == enum_fault(b),
{
    fault_ignores_payloads(a, b, 0);
}

// ---------------------------------------------------------------------------------------------
// Unfolding
// ---------------------------------------------------------------------------------------------

/// The type that denotes definition `index` of a group.
pub fn rec_type(group: &Arc<RecGroup>, index: u16) -> (made: Type)
    requires
        rec_wf(RecTypeRef { group: *group, index }),
    ensures
        made@ == Shape::Rec(body_shapes(group.defs@), index as nat),
        wf(made),
{
    let reference = RecTypeRef { group: share(group), index };
    let made = match group.defs[index as usize].kind {
        AggregateKind::Struct => Type::Struct(StructRef::Rec(reference)),
        AggregateKind::Enum => Type::Enum(EnumRef::Rec(reference)),
    };
    proof {
        shape_unfold(&made);
        wf_unfold(&made);
    }
    made
}

/// The group is sound, and every body in it is well-formed.
pub open spec fn group_wf(g: RecGroup) -> bool {
    &&& group_sound(g)
    &&& crate::hir::types::bodies_wf(g.defs@, group_layouts(&g))
}

/// Replaces every back-reference of a list of types.
fn close_all(types: &Vec<OpenType>, group: &Arc<RecGroup>) -> (closed: Vec<Type>)
    requires
        group_wf(**group),
        forall|i: int|
            0 <= i < types@.len() ==> open_wf(#[trigger] types@[i], group_layouts(&**group)),
    ensures
        shapes(closed@) == bind_all(open_shapes(types@), body_shapes(group.defs@)),
        exact_room(group_layouts(&**group)) ==> forall|i: int|
            0 <= i < closed@.len() ==> wf(#[trigger] closed@[i]),
    decreases *types,
{
    let mut closed: Vec<Type> = Vec::new();
    let mut i: usize = 0;
    while i < types.len()
        invariant
            i <= types@.len(),
            group_wf(**group),
            forall|i: int|
                0 <= i < types@.len() ==> open_wf(#[trigger] types@[i], group_layouts(&**group)),
            closed@.len() == i,
            forall|j: int|
                0 <= j < i ==> (#[trigger] closed@[j])@ == bind(
                    types@[j]@,
                    body_shapes(group.defs@),
                ),
            exact_room(group_layouts(&**group)) ==> forall|j: int|
                0 <= j < i ==> wf(#[trigger] closed@[j]),
        decreases types@.len() - i,
    {
        closed.push(close_type(&types[i], group));
        i += 1;
    }
    assert(shapes(closed@) =~= bind_all(open_shapes(types@), body_shapes(group.defs@)));
    closed
}

/// Replaces every back-reference of a type by the type that it refers to.
pub fn close_type(t: &OpenType, group: &Arc<RecGroup>) -> (closed: Type)
    requires
        group_wf(**group),
        open_wf(*t, group_layouts(&**group)),
    ensures
        closed@ == bind(t@, body_shapes(group.defs@)),
        exact_room(group_layouts(&**group)) ==> wf(closed),
    decreases *t,
{
    let ghost definitions = body_shapes(group.defs@);
    proof {
        open_shape_unfold(t);
        open_wf_unfold(t, group_layouts(&**group));
        bind_unfold(t@, definitions);
        group_metrics_unfold(definitions, definitions.len());
    }
    let closed = match t {
        OpenType::Closed(t) => {
            proof {
                types_are_closed(t);
                bind_closed(t@, definitions);
            }
            t.clone()
        },
        OpenType::Var(index) => rec_type(group, *index),
        OpenType::Ptr(addrspace, pointee) => Type::Ptr(
            Arc::new(
                PointerType { addrspace: *addrspace, pointee: close_type(pointee, group) },
            ),
        ),
        OpenType::Array(element, len) => Type::Array(
            Arc::new(ArrayType { ty: close_type(element, group), len: *len }),
        ),
        OpenType::List(element) => Type::List(Arc::new(close_type(element, group))),
        OpenType::Function(f) => {
            let params = close_all(&f.params, group);
            let results = close_all(&f.results, group);
            Type::Function(Arc::new(FunctionType { abi: f.abi.clone(), params, results }))
        },
        OpenType::Struct(s) => Type::Struct(StructRef::Plain(Arc::new(close_struct(s, group)))),
        OpenType::Enum(e) => Type::Enum(EnumRef::Plain(Arc::new(close_enum(e, group)))),
    };
    proof {
        shape_unfold(&closed);
        wf_unfold(&closed);
    }
    closed
}

/// A struct body as a struct, with the layout that was recorded for the body.
fn close_struct(s: &OpenStructType, group: &Arc<RecGroup>) -> (closed: StructType)
    requires
        group_wf(**group),
        open_struct_wf(*s, group_layouts(&**group)),
    ensures
        struct_shape(closed) == bind_struct(open_struct_shape(*s), body_shapes(group.defs@)),
        keeps_fields(closed, *s),
        exact_room(group_layouts(&**group)) ==> struct_wf(closed),
    decreases *s,
{
    let ghost definitions = body_shapes(group.defs@);
    let ghost layouts = group_layouts(&**group);
    let mut fields: Vec<StructField> = Vec::new();
    let mut i: usize = 0;
    while i < s.fields.len()
        invariant
            i <= s.fields@.len(),
            group_wf(**group),
            layouts == group_layouts(&**group),
            definitions == body_shapes(group.defs@),
            open_struct_wf(*s, layouts),
            fields@.len() == i,
            forall|j: int|
                0 <= j < i ==> {
                    &&& (#[trigger] fields@[j]).name == s.fields@[j].name
                    &&& fields@[j].index == s.fields@[j].index
                    &&& fields@[j].align == s.fields@[j].align
                    &&& fields@[j].offset == s.fields@[j].offset
                    &&& fields@[j].ty@ == bind(s.fields@[j].ty@, definitions)
                    &&& exact_room(layouts) ==> wf(fields@[j].ty)
                },
        decreases s.fields@.len() - i,
    {
        let field = &s.fields[i];
        fields.push(
            StructField {
                name: copy_name(&field.name),
                index: field.index,
                align: field.align,
                offset: field.offset,
                ty: close_type(&field.ty, group),
            },
        );
        i += 1;
    }
    let closed = StructType { name: copy_name(&s.name), repr: s.repr, size: s.size, fields };
    proof {
        assert(field_shapes(closed.fields@) =~= bind_struct(
            open_struct_shape(*s),
            definitions,
        ).fields);
        if exact_room(layouts) {
            let open = field_metrics(open_field_shapes(s.fields@), layouts);
            assert forall|i: int| 0 <= i < open.len() implies laid_out_fields(&closed)[i]
                == #[trigger] open[i] by {
                binding_keeps_layout(s.fields@[i].ty@, definitions);
            }
            assert(laid_out_fields(&closed) =~= open);
            assert(struct_sound(closed));
        }
    }
    closed
}

/// What is recorded of a body's fields is what is recorded of the struct's.
pub open spec fn keeps_fields(closed: StructType, body: OpenStructType) -> bool {
    &&& closed.size == body.size
    &&& closed.fields@.len() == body.fields@.len()
    &&& forall|i: int|
        0 <= i < closed.fields@.len() ==> {
            &&& (#[trigger] closed.fields@[i]).name == body.fields@[i].name
            &&& closed.fields@[i].index == body.fields@[i].index
            &&& closed.fields@[i].align == body.fields@[i].align
            &&& closed.fields@[i].offset == body.fields@[i].offset
        }
}

/// An enum body as an enum, with the layout that was recorded for the body.
fn close_enum(e: &OpenEnumType, group: &Arc<RecGroup>) -> (closed: EnumType)
    requires
        group_wf(**group),
        open_enum_wf(*e, group_layouts(&**group)),
    ensures
        enum_shape(closed) == bind_enum(open_enum_shape(*e), body_shapes(group.defs@)),
        keeps_variants(closed, *e),
        exact_room(group_layouts(&**group)) ==> enum_wf(closed),
    decreases *e,
{
    let ghost definitions = body_shapes(group.defs@);
    let ghost layouts = group_layouts(&**group);
    let mut variants: Vec<Variant> = Vec::new();
    let mut offsets: Vec<u32> = Vec::new();
    let mut i: usize = 0;
    while i < e.variants.len()
        invariant
            i <= e.variants@.len(),
            group_wf(**group),
            layouts == group_layouts(&**group),
            definitions == body_shapes(group.defs@),
            open_enum_wf(*e, layouts),
            variants@.len() == i,
            offsets@.len() == i,
            forall|j: int| 0 <= j < i ==> #[trigger] offsets@[j] == e.offsets@[j],
            forall|j: int|
                0 <= j < i ==> {
                    &&& (#[trigger] variants@[j]).name == e.variants@[j].name
                    &&& variants@[j].discriminant_value == e.variants@[j].discriminant_value
                    &&& match e.variants@[j].value {
                        Some(value) => {
                            &&& variants@[j].value is Some
                            &&& variants@[j].value->0@ == bind(value@, definitions)
                            &&& exact_room(layouts) ==> wf(variants@[j].value->0)
                        },
                        None => variants@[j].value is None,
                    }
                },
        decreases e.variants@.len() - i,
    {
        let variant = &e.variants[i];
        let value = match &variant.value {
            Some(value) => Some(close_type(value, group)),
            None => None,
        };
        variants.push(
            Variant {
                name: variant.name.clone(),
                discriminant_value: variant.discriminant_value,
                value,
            },
        );
        offsets.push(e.offsets[i]);
        i += 1;
    }
    let closed = EnumType {
        name: e.name.clone(),
        discriminant: e.discriminant.clone(),
        variants,
        offsets,
        size: e.size,
        align: e.align,
    };
    proof {
        types_are_closed(&e.discriminant);
        bind_closed(e.discriminant@, definitions);
        assert(variant_shapes(closed.variants@) =~= bind_enum(
            open_enum_shape(*e),
            definitions,
        ).variants);
        assert(closed.offsets@ =~= e.offsets@);
        if exact_room(layouts) {
            let open = payload_metrics(open_variant_shapes(e.variants@), layouts);
            assert forall|i: int| 0 <= i < open.len() implies laid_out_payloads(&closed)[i]
                == #[trigger] open[i] by {
                if let Some(value) = e.variants@[i].value {
                    binding_keeps_layout(value@, definitions);
                }
            }
            assert(laid_out_payloads(&closed) =~= open);
            validity_ignores_payloads(enum_shape(closed), open_enum_shape(*e));
            assert(enum_sound(closed));
        }
    }
    closed
}

/// What is recorded of a body's variants is what is recorded of the enum's.
pub open spec fn keeps_variants(closed: EnumType, body: OpenEnumType) -> bool {
    &&& closed.size == body.size
    &&& closed.align == body.align
    &&& closed.offsets@ == body.offsets@
}

impl RecTypeRef {
    /// The struct that this reference denotes, unfolded one level.
    pub fn unfold_struct(&self) -> (unfolded: StructType)
        requires
            rec_wf(*self),
            self.group.defs@[self.index as int].kind is Struct,
        ensures
            Shape::Struct(struct_shape(unfolded)) == bind(
                body_shapes(self.group.defs@)[self.index as int],
                body_shapes(self.group.defs@),
            ),
            self.group.defs@[self.index as int].body matches OpenAggregate::Struct(body)
                && keeps_fields(unfolded, body),
            exact_room(group_layouts(&*self.group)) ==> struct_wf(unfolded),
    {
        proof {
            bodies_wf_unfold(&*self.group, group_layouts(&*self.group));
            bind_unfold(
                body_shapes(self.group.defs@)[self.index as int],
                body_shapes(self.group.defs@),
            );
        }
        match &self.group.defs[self.index as usize].body {
            OpenAggregate::Struct(body) => close_struct(body, &self.group),
            OpenAggregate::Enum(_) => vstd::pervasive::unreached(),
        }
    }

    /// The enum that this reference denotes, unfolded one level.
    pub fn unfold_enum(&self) -> (unfolded: EnumType)
        requires
            rec_wf(*self),
            self.group.defs@[self.index as int].kind is Enum,
        ensures
            Shape::Enum(enum_shape(unfolded)) == bind(
                body_shapes(self.group.defs@)[self.index as int],
                body_shapes(self.group.defs@),
            ),
            self.group.defs@[self.index as int].body matches OpenAggregate::Enum(body)
                && keeps_variants(unfolded, body),
            exact_room(group_layouts(&*self.group)) ==> enum_wf(unfolded),
    {
        proof {
            bodies_wf_unfold(&*self.group, group_layouts(&*self.group));
            bind_unfold(
                body_shapes(self.group.defs@)[self.index as int],
                body_shapes(self.group.defs@),
            );
        }
        match &self.group.defs[self.index as usize].body {
            OpenAggregate::Enum(body) => close_enum(body, &self.group),
            OpenAggregate::Struct(_) => vstd::pervasive::unreached(),
        }
    }
}

impl StructRef {
    /// The definition of this struct: the struct itself, or one level of a recursive one.
    ///
    /// The unfolded form of a recursive struct is a view of it. It is not the type that it came
    /// from.
    pub fn get(&self) -> (found: Arc<StructType>)
        requires
            wf(Type::Struct(*self)),
        ensures
            match *self {
                StructRef::Plain(s) => found == s,
                StructRef::Rec(r) => {
                    &&& Shape::Struct(struct_shape(*found)) == bind(
                        body_shapes(r.group.defs@)[r.index as int],
                        body_shapes(r.group.defs@),
                    )
                    &&& r.group.defs@[r.index as int].body matches OpenAggregate::Struct(body)
                        && keeps_fields(*found, body)
                    &&& exact_room(group_layouts(&*r.group)) ==> struct_wf(*found)
                },
            },
    {
        proof {
            wf_unfold(&Type::Struct(*self));
        }
        match self {
            StructRef::Plain(s) => share(s),
            StructRef::Rec(r) => Arc::new(r.unfold_struct()),
        }
    }
}

impl EnumRef {
    /// The definition of this enum: the enum itself, or one level of a recursive one.
    pub fn get(&self) -> (found: Arc<EnumType>)
        requires
            wf(Type::Enum(*self)),
        ensures
            match *self {
                EnumRef::Plain(e) => found == e,
                EnumRef::Rec(r) => {
                    &&& Shape::Enum(enum_shape(*found)) == bind(
                        body_shapes(r.group.defs@)[r.index as int],
                        body_shapes(r.group.defs@),
                    )
                    &&& r.group.defs@[r.index as int].body matches OpenAggregate::Enum(body)
                        && keeps_variants(*found, body)
                    &&& exact_room(group_layouts(&*r.group)) ==> enum_wf(*found)
                },
            },
    {
        proof {
            wf_unfold(&Type::Enum(*self));
        }
        match self {
            EnumRef::Plain(e) => share(e),
            EnumRef::Rec(r) => Arc::new(r.unfold_enum()),
        }
    }
}

impl StructType {
    /// The definition of a struct type. Any other type is handed back.
    pub fn from_type(ty: Type) -> (found: Result<Arc<StructType>, Type>)
        requires
            wf(ty),
        ensures
            match ty {
                Type::Struct(StructRef::Plain(s)) => found == Ok::<Arc<StructType>, Type>(s),
                Type::Struct(StructRef::Rec(r)) => {
                    &&& found is Ok
                    &&& Shape::Struct(struct_shape(*found->Ok_0)) == bind(
                        body_shapes(r.group.defs@)[r.index as int],
                        body_shapes(r.group.defs@),
                    )
                    &&& r.group.defs@[r.index as int].body matches OpenAggregate::Struct(body)
                        && keeps_fields(*found->Ok_0, body)
                    &&& exact_room(group_layouts(&*r.group)) ==> struct_wf(*found->Ok_0)
                },
                _ => found == Err::<Arc<StructType>, Type>(ty),
            },
    {
        match ty {
            Type::Struct(s) => Ok(s.get()),
            other => Err(other),
        }
    }
}

/// A recursive struct unfolds to a struct of the same name, representation, size and alignment. The
/// unfolded struct is another type than the recursive one.
pub proof fn unfolding_keeps_what_is_seen(r: &RecTypeRef, found: &StructType)
    requires
        rec_wf(*r),
        r.group.defs@[r.index as int].kind is Struct,
        Shape::Struct(struct_shape(*found)) == bind(
            body_shapes(r.group.defs@)[r.index as int],
            body_shapes(r.group.defs@),
        ),
        r.group.defs@[r.index as int].body matches OpenAggregate::Struct(body) && keeps_fields(
            *found,
            body,
        ),
    ensures
        label(found.name) == declared_name(r.group.defs@[r.index as int].body),
        r.group.defs@[r.index as int].body matches OpenAggregate::Struct(body) && found.repr
            == body.repr,
        found.size == r.group.defs@[r.index as int].layout.size_in_bytes,
        struct_align(found.repr, laid_out_fields(found))
            == r.group.defs@[r.index as int].layout.min_alignment,
        Shape::Struct(struct_shape(*found)) != Shape::Rec(
            body_shapes(r.group.defs@),
            r.index as nat,
        ),
{
    let definitions = body_shapes(r.group.defs@);
    let layouts = group_layouts(&*r.group);
    let i = r.index as int;
    let body = r.group.defs@[i].body->Struct_0;
    let t = definitions[i];
    bind_unfold(t, definitions);
    bodies_wf_unfold(&*r.group, layouts);
    group_metrics_unfold(definitions, definitions.len());
    group_metrics_unfold(definitions, definitions.len() + 1);
    assert(group_metrics(definitions, definitions.len() + 1)[i] == metrics(t, layouts));
    metrics_unfold(t, layouts);
    assert(layout_is(r.group.defs@[i].layout, layouts[i]));
    let here = field_metrics(t->Struct_0.fields, layouts);
    let there = laid_out_fields(found);
    let bound = bind(t, definitions);
    assert(field_metrics(bound->Struct_0.fields, Seq::empty()) =~= there);
    assert forall|j: int| 0 <= j < definitions.len() implies (#[trigger] group_metrics(
        definitions,
        definitions.len(),
    )[j]).align >= 1 by {
        assert(layout_is(r.group.defs@[j].layout, layouts[j]));
    }
    assert forall|j: int| 0 <= j < there.len() implies alike(#[trigger] there[j], here[j]) by {
        binding_keeps_alignment(&body.fields@[j].ty, definitions);
    }
    structs_alike(body.repr, there, here);
}

/// A recursive enum unfolds to an enum of the same name, size and alignment. The unfolded enum is
/// another type than the recursive one.
pub proof fn unfolding_keeps_what_is_seen_of_an_enum(r: &RecTypeRef, found: &EnumType)
    requires
        rec_wf(*r),
        r.group.defs@[r.index as int].kind is Enum,
        Shape::Enum(enum_shape(*found)) == bind(
            body_shapes(r.group.defs@)[r.index as int],
            body_shapes(r.group.defs@),
        ),
        r.group.defs@[r.index as int].body matches OpenAggregate::Enum(body) && keeps_variants(
            *found,
            body,
        ),
    ensures
        Some(found.name@) == declared_name(r.group.defs@[r.index as int].body),
        found.size == r.group.defs@[r.index as int].layout.size_in_bytes,
        found.align == r.group.defs@[r.index as int].layout.min_alignment,
        Shape::Enum(enum_shape(*found)) != Shape::Rec(
            body_shapes(r.group.defs@),
            r.index as nat,
        ),
{
    let definitions = body_shapes(r.group.defs@);
    let layouts = group_layouts(&*r.group);
    let i = r.index as int;
    let body = r.group.defs@[i].body->Enum_0;
    let t = definitions[i];
    bind_unfold(t, definitions);
    bodies_wf_unfold(&*r.group, layouts);
    group_metrics_unfold(definitions, definitions.len());
    group_metrics_unfold(definitions, definitions.len() + 1);
    assert(group_metrics(definitions, definitions.len() + 1)[i] == metrics(t, layouts));
    metrics_unfold(t, layouts);
    assert(layout_is(r.group.defs@[i].layout, layouts[i]));
    types_are_closed(&body.discriminant);
    closed_metrics(body.discriminant@, layouts);
}

} // verus!
