//! What the names in a template stand for, and what is wrong with a template.
use vstd::prelude::*;

use crate::hir::enum_rules::{enum_fault, EnumFault};
use crate::hir::enum_type::{examine, InvalidEnumTypeError};
use crate::hir::layout::{closed_metrics, types_are_closed};
use crate::hir::metrics::{
    enum_fits, field_metrics, metrics, payload_metrics, struct_fits, Metrics,
};
use crate::hir::recursive::template::{
    enum_template_shape, enum_template_wf, field_template_shapes, struct_template_wf,
    template_shape_unfold, template_shapes, template_wf, variant_template_shape,
    variant_template_shapes, EnumTemplate, FieldTemplate, StructTemplate, TypeTemplate,
    VariantTemplate,
};
use crate::hir::shape::{
    has_var, EnumShape, FieldShape, FunctionShape, Shape, StructShape, VariantShape,
};
use crate::hir::types::{
    field_shapes, no_field, no_variant, shape, shape_unfold, shapes, variant_shapes, wf, wf_unfold,
    EnumRef, StructRef, Type, Variant,
};
use crate::hir::unfold::validity_ignores_payloads;

verus! {

/// What each key stands for, where that is known.
#[verifier::ext_equal]
pub struct Scope {
    pub keys: Seq<Seq<char>>,
    pub values: Seq<Option<Shape>>,
}

/// The first position from `i` on that holds `key`.
pub open spec fn position(keys: Seq<Seq<char>>, key: Seq<char>, i: int) -> Option<int>
    decreases keys.len() - i,
{
    if i < 0 || i >= keys.len() {
        None
    } else if keys[i] == key {
        Some(i)
    } else {
        position(keys, key, i + 1)
    }
}

/// What a key stands for.
pub open spec fn resolve(scope: Scope, key: Seq<char>) -> Option<Shape> {
    match position(scope.keys, key, 0) {
        Some(i) => if i < scope.values.len() {
            scope.values[i]
        } else {
            None
        },
        None => None,
    }
}

pub proof fn position_found(keys: Seq<Seq<char>>, key: Seq<char>, i: int)
    requires
        0 <= i,
    ensures
        match position(keys, key, i) {
            Some(j) => {
                &&& i <= j < keys.len()
                &&& keys[j] == key
                &&& forall|l: int| i <= l < j ==> #[trigger] keys[l] != key
            },
            None => forall|j: int| i <= j < keys.len() ==> #[trigger] keys[j] != key,
        },
    decreases keys.len() - i,
{
    if i < keys.len() && keys[i] != key {
        position_found(keys, key, i + 1);
    }
}

/// Among distinct keys, each is found where it stands.
pub proof fn position_of_distinct(keys: Seq<Seq<char>>, j: int)
    requires
        keys.no_duplicates(),
        0 <= j < keys.len(),
    ensures
        position(keys, keys[j], 0) == Some(j),
{
    position_found(keys, keys[j], 0);
}

/// The type with every name replaced by what it stands for, where that is known.
#[verifier::opaque]
pub open spec fn subst(t: Shape, scope: Scope) -> Shape
    decreases t,
{
    match t {
        Shape::Name(key) => match resolve(scope, key) {
            Some(value) => value,
            None => t,
        },
        Shape::Ptr(addrspace, pointee) => Shape::Ptr(addrspace, Box::new(subst(*pointee, scope))),
        Shape::Array(element, n) => Shape::Array(Box::new(subst(*element, scope)), n),
        Shape::List(element) => Shape::List(Box::new(subst(*element, scope))),
        Shape::Function(f) => Shape::Function(
            FunctionShape {
                abi: f.abi,
                params: Seq::new(
                    f.params.len(),
                    |i: int|
                        if 0 <= i < f.params.len() {
                            subst(f.params[i], scope)
                        } else {
                            Shape::Never
                        },
                ),
                results: Seq::new(
                    f.results.len(),
                    |i: int|
                        if 0 <= i < f.results.len() {
                            subst(f.results[i], scope)
                        } else {
                            Shape::Never
                        },
                ),
            },
        ),
        Shape::Struct(s) => Shape::Struct(
            StructShape {
                name: s.name,
                repr: s.repr,
                fields: Seq::new(
                    s.fields.len(),
                    |i: int|
                        if 0 <= i < s.fields.len() {
                            FieldShape {
                                name: s.fields[i].name,
                                ty: subst(s.fields[i].ty, scope),
                            }
                        } else {
                            no_field()
                        },
                ),
            },
        ),
        Shape::Enum(e) => Shape::Enum(
            EnumShape {
                name: e.name,
                discriminant: Box::new(subst(*e.discriminant, scope)),
                variants: Seq::new(
                    e.variants.len(),
                    |i: int|
                        if 0 <= i < e.variants.len() {
                            VariantShape {
                                name: e.variants[i].name,
                                value: match e.variants[i].value {
                                    Some(value) => Some(subst(value, scope)),
                                    None => None,
                                },
                                discriminant_value: e.variants[i].discriminant_value,
                            }
                        } else {
                            no_variant()
                        },
                ),
            },
        ),
        _ => t,
    }
}

pub open spec fn subst_all(types: Seq<Shape>, scope: Scope) -> Seq<Shape> {
    Seq::new(types.len(), |i: int| subst(types[i], scope))
}

pub open spec fn subst_struct(s: StructShape, scope: Scope) -> StructShape {
    StructShape { name: s.name, repr: s.repr, fields: subst_fields(s.fields, scope) }
}

pub open spec fn subst_fields(fields: Seq<FieldShape>, scope: Scope) -> Seq<FieldShape> {
    Seq::new(
        fields.len(),
        |i: int| FieldShape { name: fields[i].name, ty: subst(fields[i].ty, scope) },
    )
}

pub open spec fn subst_variants(variants: Seq<VariantShape>, scope: Scope) -> Seq<VariantShape> {
    Seq::new(
        variants.len(),
        |i: int|
            VariantShape {
                name: variants[i].name,
                value: match variants[i].value {
                    Some(value) => Some(subst(value, scope)),
                    None => None,
                },
                discriminant_value: variants[i].discriminant_value,
            },
    )
}

pub open spec fn subst_enum(e: EnumShape, scope: Scope) -> EnumShape {
    EnumShape {
        name: e.name,
        discriminant: Box::new(subst(*e.discriminant, scope)),
        variants: subst_variants(e.variants, scope),
    }
}

pub open spec fn subst_of_parts(t: Shape, scope: Scope) -> Shape {
    match t {
        Shape::Name(key) => match resolve(scope, key) {
            Some(value) => value,
            None => t,
        },
        Shape::Ptr(addrspace, pointee) => Shape::Ptr(addrspace, Box::new(subst(*pointee, scope))),
        Shape::Array(element, n) => Shape::Array(Box::new(subst(*element, scope)), n),
        Shape::List(element) => Shape::List(Box::new(subst(*element, scope))),
        Shape::Function(f) => Shape::Function(
            FunctionShape {
                abi: f.abi,
                params: subst_all(f.params, scope),
                results: subst_all(f.results, scope),
            },
        ),
        Shape::Struct(s) => Shape::Struct(subst_struct(s, scope)),
        Shape::Enum(e) => Shape::Enum(subst_enum(e, scope)),
        _ => t,
    }
}

pub proof fn subst_unfold(t: Shape, scope: Scope)
    ensures
        subst(t, scope) == subst_of_parts(t, scope),
{
    reveal(subst);
    match t {
        Shape::Function(f) => {
            let made = subst(t, scope)->Function_0;
            assert(made.params =~= subst_all(f.params, scope));
            assert(made.results =~= subst_all(f.results, scope));
        },
        Shape::Struct(s) => {
            assert(subst(t, scope)->Struct_0.fields =~= subst_fields(s.fields, scope));
        },
        Shape::Enum(e) => {
            assert(subst(t, scope)->Enum_0.variants =~= subst_variants(e.variants, scope));
        },
        _ => {},
    }
}

/// Substitution changes nothing in a closed type.
pub proof fn subst_closed(t: Shape, scope: Scope)
    requires
        !has_var(t),
    ensures
        subst(t, scope) == t,
    decreases t,
{
    reveal(has_var);
    subst_unfold(t, scope);
    match t {
        Shape::Ptr(_, pointee) => {
            subst_closed(*pointee, scope);
        },
        Shape::Array(element, _) => {
            subst_closed(*element, scope);
        },
        Shape::List(element) => {
            subst_closed(*element, scope);
        },
        Shape::Function(f) => {
            assert forall|i: int| 0 <= i < f.params.len() implies subst(
                #[trigger] f.params[i],
                scope,
            ) == f.params[i] by {
                subst_closed(f.params[i], scope);
            }
            assert forall|i: int| 0 <= i < f.results.len() implies subst(
                #[trigger] f.results[i],
                scope,
            ) == f.results[i] by {
                subst_closed(f.results[i], scope);
            }
            assert(subst_all(f.params, scope) =~= f.params);
            assert(subst_all(f.results, scope) =~= f.results);
        },
        Shape::Struct(s) => {
            assert forall|i: int| 0 <= i < s.fields.len() implies subst(
                (#[trigger] s.fields[i]).ty,
                scope,
            ) == s.fields[i].ty by {
                subst_closed(s.fields[i].ty, scope);
            }
            assert(subst_fields(s.fields, scope) =~= s.fields);
        },
        Shape::Enum(e) => {
            subst_closed(*e.discriminant, scope);
            assert forall|i: int| 0 <= i < e.variants.len() implies (#[trigger] subst_variants(
                e.variants,
                scope,
            )[i]) == e.variants[i] by {
                if let Some(value) = e.variants[i].value {
                    assert(!has_var(value));
                    subst_closed(value, scope);
                }
            }
            assert(subst_variants(e.variants, scope) =~= e.variants);
        },
        _ => {},
    }
}

// ---------------------------------------------------------------------------------------------
// Names
// ---------------------------------------------------------------------------------------------

/// The names that a type mentions, in the order in which it mentions them.
pub open spec fn names(t: Shape) -> Seq<Seq<char>>
    decreases t,
{
    match t {
        Shape::Name(key) => seq![key],
        Shape::Ptr(_, pointee) => names(*pointee),
        Shape::Array(element, _) => names(*element),
        Shape::List(element) => names(*element),
        Shape::Function(f) => names_of_all(f.params) + names_of_all(f.results),
        Shape::Struct(s) => names_of_fields(s.fields),
        Shape::Enum(e) => names_of_variants(e.variants),
        _ => Seq::empty(),
    }
}

pub open spec fn names_of_all(types: Seq<Shape>) -> Seq<Seq<char>>
    decreases types,
{
    if types.len() == 0 {
        Seq::empty()
    } else {
        names_of_all(types.drop_last()) + names(types[types.len() - 1])
    }
}

pub open spec fn names_of_fields(fields: Seq<FieldShape>) -> Seq<Seq<char>>
    decreases fields,
{
    if fields.len() == 0 {
        Seq::empty()
    } else {
        names_of_fields(fields.drop_last()) + names(fields[fields.len() - 1].ty)
    }
}

pub open spec fn names_of_variants(variants: Seq<VariantShape>) -> Seq<Seq<char>>
    decreases variants,
{
    if variants.len() == 0 {
        Seq::empty()
    } else {
        names_of_variants(variants.drop_last()) + (match variants[variants.len() - 1].value {
            Some(value) => names(value),
            None => Seq::empty(),
        })
    }
}

// ---------------------------------------------------------------------------------------------
// Defects
// ---------------------------------------------------------------------------------------------

/// What makes a template no type.
#[verifier::ext_equal]
pub enum Defect {
    /// A name stands for nothing.
    Undefined(Seq<char>),
    /// An enum definition is invalid.
    Invalid(EnumFault),
}

/// The first defect of a type, its parts before itself.
pub open spec fn defect(t: Shape) -> Option<Defect>
    decreases t,
{
    match t {
        Shape::Name(key) => Some(Defect::Undefined(key)),
        Shape::Ptr(_, pointee) => defect(*pointee),
        Shape::Array(element, _) => defect(*element),
        Shape::List(element) => defect(*element),
        Shape::Function(f) => match defect_of_all(f.params) {
            Some(found) => Some(found),
            None => defect_of_all(f.results),
        },
        Shape::Struct(s) => defect_of_fields(s.fields),
        Shape::Enum(e) => match defect_of_variants(e.variants) {
            Some(found) => Some(found),
            None => match enum_fault(e) {
                Some(fault) => Some(Defect::Invalid(fault)),
                None => None,
            },
        },
        _ => None,
    }
}

pub open spec fn defect_of_all(types: Seq<Shape>) -> Option<Defect>
    decreases types,
{
    if types.len() == 0 {
        None
    } else {
        match defect_of_all(types.drop_last()) {
            Some(found) => Some(found),
            None => defect(types[types.len() - 1]),
        }
    }
}

pub open spec fn defect_of_fields(fields: Seq<FieldShape>) -> Option<Defect>
    decreases fields,
{
    if fields.len() == 0 {
        None
    } else {
        match defect_of_fields(fields.drop_last()) {
            Some(found) => Some(found),
            None => defect(fields[fields.len() - 1].ty),
        }
    }
}

pub open spec fn defect_of_variants(variants: Seq<VariantShape>) -> Option<Defect>
    decreases variants,
{
    if variants.len() == 0 {
        None
    } else {
        match defect_of_variants(variants.drop_last()) {
            Some(found) => Some(found),
            None => match variants[variants.len() - 1].value {
                Some(value) => defect(value),
                None => None,
            },
        }
    }
}

/// Every aggregate inside the type can be laid out.
#[verifier::opaque]
pub open spec fn fits(t: Shape, group: Seq<Metrics>) -> bool
    decreases t,
{
    match t {
        Shape::Ptr(_, pointee) => fits(*pointee, group),
        Shape::Array(element, _) => fits(*element, group),
        Shape::List(element) => fits(*element, group),
        Shape::Function(f) => {
            &&& forall|i: int| 0 <= i < f.params.len() ==> fits(#[trigger] f.params[i], group)
            &&& forall|i: int| 0 <= i < f.results.len() ==> fits(#[trigger] f.results[i], group)
        },
        Shape::Struct(s) => {
            &&& struct_fits(s.repr, field_metrics(s.fields, group))
            &&& forall|i: int| 0 <= i < s.fields.len() ==> fits((#[trigger] s.fields[i]).ty, group)
        },
        Shape::Enum(e) => {
            &&& enum_fits(metrics(*e.discriminant, group), payload_metrics(e.variants, group))
            &&& forall|i: int|
                0 <= i < e.variants.len() ==> ((#[trigger] e.variants[i]).value matches Some(value)
                    ==> fits(value, group))
        },
        _ => true,
    }
}

/// A well-formed type has no defect, and is laid out.
pub proof fn types_are_sound(t: &Type)
    requires
        wf(*t),
    ensures
        defect(t@) is None,
        fits(t@, Seq::empty()),
    decreases t,
{
    reveal(fits);
    wf_unfold(t);
    shape_unfold(t);
    match t {
        Type::Ptr(p) => {
            types_are_sound(&p.pointee);
        },
        Type::Array(a) => {
            types_are_sound(&a.ty);
        },
        Type::List(element) => {
            types_are_sound(&*element);
        },
        Type::Function(f) => {
            assert forall|i: int| 0 <= i < f.params@.len() implies fits(
                #[trigger] shapes(f.params@)[i],
                Seq::empty(),
            ) && defect(shapes(f.params@)[i]) is None by {
                types_are_sound(&f.params@[i]);
            }
            assert forall|i: int| 0 <= i < f.results@.len() implies fits(
                #[trigger] shapes(f.results@)[i],
                Seq::empty(),
            ) && defect(shapes(f.results@)[i]) is None by {
                types_are_sound(&f.results@[i]);
            }
            no_defect_of_all(shapes(f.params@));
            no_defect_of_all(shapes(f.results@));
        },
        Type::Struct(StructRef::Plain(s)) => {
            let fields = field_shapes(s.fields@);
            assert forall|i: int| 0 <= i < fields.len() implies fits(
                (#[trigger] fields[i]).ty,
                Seq::empty(),
            ) && defect(fields[i].ty) is None by {
                types_are_sound(&s.fields@[i].ty);
            }
            no_defect_of_fields(fields);
        },
        Type::Enum(EnumRef::Plain(e)) => {
            let variants = variant_shapes(e.variants@);
            assert forall|i: int|
                0 <= i < variants.len() && (#[trigger] variants[i]).value is Some implies fits(
                variants[i].value->0,
                Seq::empty(),
            ) && defect(variants[i].value->0) is None by {
                types_are_sound(&e.variants@[i].value->0);
            }
            no_defect_of_variants(variants);
        },
        _ => {},
    }
}

pub proof fn no_defect_of_all(types: Seq<Shape>)
    ensures
        defect_of_all(types) is None <==> forall|i: int|
            0 <= i < types.len() ==> defect(#[trigger] types[i]) is None,
    decreases types.len(),
{
    if types.len() > 0 {
        let rest = types.drop_last();
        no_defect_of_all(rest);
        if defect_of_all(types) is None {
            assert forall|i: int| 0 <= i < types.len() implies defect(#[trigger] types[i]) is None by {
                if i < rest.len() {
                    assert(rest[i] == types[i]);
                }
            }
        } else if defect_of_all(rest) is Some {
            let i = choose|i: int| 0 <= i < rest.len() && defect(#[trigger] rest[i]) is Some;
            assert(defect(types[i]) is Some);
        }
    }
}

pub proof fn no_defect_of_fields(fields: Seq<FieldShape>)
    ensures
        defect_of_fields(fields) is None <==> forall|i: int|
            0 <= i < fields.len() ==> defect((#[trigger] fields[i]).ty) is None,
    decreases fields.len(),
{
    if fields.len() > 0 {
        let rest = fields.drop_last();
        no_defect_of_fields(rest);
        if defect_of_fields(fields) is None {
            assert forall|i: int| 0 <= i < fields.len() implies defect(
                (#[trigger] fields[i]).ty,
            ) is None by {
                if i < rest.len() {
                    assert(rest[i] == fields[i]);
                }
            }
        } else if defect_of_fields(rest) is Some {
            let i = choose|i: int| 0 <= i < rest.len() && defect((#[trigger] rest[i]).ty) is Some;
            assert(defect(fields[i].ty) is Some);
        }
    }
}

pub proof fn no_defect_of_variants(variants: Seq<VariantShape>)
    ensures
        defect_of_variants(variants) is None <==> forall|i: int|
            0 <= i < variants.len() && (#[trigger] variants[i]).value is Some ==> defect(
                variants[i].value->0,
            ) is None,
    decreases variants.len(),
{
    if variants.len() > 0 {
        let rest = variants.drop_last();
        no_defect_of_variants(rest);
        if defect_of_variants(variants) is None {
            assert forall|i: int|
                0 <= i < variants.len() && (#[trigger] variants[i]).value is Some implies defect(
                variants[i].value->0,
            ) is None by {
                if i < rest.len() {
                    assert(rest[i] == variants[i]);
                }
            }
        } else if defect_of_variants(rest) is Some {
            let i = choose|i: int|
                0 <= i < rest.len() && (#[trigger] rest[i]).value is Some && defect(
                    rest[i].value->0,
                ) is Some;
            assert(defect(variants[i].value->0) is Some);
        }
    }
}

/// Whether a closed type can be laid out does not depend on the group around it.
pub proof fn closed_fits(t: Shape, group: Seq<Metrics>)
    requires
        !has_var(t),
    ensures
        fits(t, group) == fits(t, Seq::empty()),
    decreases t,
{
    reveal(fits);
    reveal(has_var);
    match t {
        Shape::Ptr(_, pointee) => {
            closed_fits(*pointee, group);
        },
        Shape::Array(element, _) => {
            closed_fits(*element, group);
        },
        Shape::List(element) => {
            closed_fits(*element, group);
        },
        Shape::Function(f) => {
            assert forall|i: int| 0 <= i < f.params.len() implies fits(
                #[trigger] f.params[i],
                group,
            ) == fits(f.params[i], Seq::empty()) by {
                closed_fits(f.params[i], group);
            }
            assert forall|i: int| 0 <= i < f.results.len() implies fits(
                #[trigger] f.results[i],
                group,
            ) == fits(f.results[i], Seq::empty()) by {
                closed_fits(f.results[i], group);
            }
        },
        Shape::Struct(s) => {
            assert forall|i: int| 0 <= i < s.fields.len() implies fits(
                (#[trigger] s.fields[i]).ty,
                group,
            ) == fits(s.fields[i].ty, Seq::empty()) && metrics(s.fields[i].ty, group) == metrics(
                s.fields[i].ty,
                Seq::empty(),
            ) by {
                closed_fits(s.fields[i].ty, group);
                closed_metrics(s.fields[i].ty, group);
            }
            assert(field_metrics(s.fields, group) =~= field_metrics(s.fields, Seq::empty()));
        },
        Shape::Enum(e) => {
            closed_metrics(*e.discriminant, group);
            assert forall|i: int| 0 <= i < e.variants.len() implies (#[trigger] payload_metrics(
                e.variants,
                group,
            )[i]) == payload_metrics(e.variants, Seq::empty())[i] by {
                if let Some(value) = e.variants[i].value {
                    assert(!has_var(value));
                    closed_metrics(value, group);
                }
            }
            assert forall|i: int|
                0 <= i < e.variants.len() && (#[trigger] e.variants[i]).value is Some implies fits(
                e.variants[i].value->0,
                group,
            ) == fits(e.variants[i].value->0, Seq::empty()) by {
                closed_fits(e.variants[i].value->0, group);
            }
            assert(payload_metrics(e.variants, group) =~= payload_metrics(
                e.variants,
                Seq::empty(),
            ));
        },
        _ => {},
    }
}

// ---------------------------------------------------------------------------------------------
// Computing them
// ---------------------------------------------------------------------------------------------

/// What a key stands for.
pub enum Meaning {
    /// A definition of the group that is being built.
    Slot(u16),
    /// A completed type.
    Done(Type),
    /// Nothing yet.
    Open,
}

/// The keys of the definitions, and what each stands for.
pub struct Names {
    pub keys: Vec<String>,
    pub meanings: Vec<Meaning>,
}

pub open spec fn texts(keys: Seq<String>) -> Seq<Seq<char>> {
    Seq::new(keys.len(), |i: int| keys[i]@)
}

pub open spec fn meaning(m: Meaning) -> Option<Shape> {
    match m {
        Meaning::Slot(slot) => Some(Shape::Var(slot as nat)),
        Meaning::Done(ty) => Some(shape(ty)),
        Meaning::Open => None,
    }
}

impl Names {
    pub open spec fn view(&self) -> Scope {
        Scope {
            keys: texts(self.keys@),
            values: Seq::new(self.meanings@.len(), |i: int| meaning(self.meanings@[i])),
        }
    }

    pub open spec fn wf(&self) -> bool {
        &&& self.keys@.len() == self.meanings@.len()
        &&& forall|i: int|
            0 <= i < self.meanings@.len() ==> ((#[trigger] self.meanings@[i]) matches Meaning::Done(
                ty,
            ) ==> wf(ty))
    }

    /// What `key` stands for.
    pub fn look_up(&self, key: &String) -> (found: &Meaning)
        requires
            self.wf(),
        ensures
            meaning(*found) == resolve(self@, key@),
            *found matches Meaning::Done(ty) ==> wf(ty),
    {
        proof {
            position_found(self@.keys, key@, 0);
        }
        match find(&self.keys, key) {
            Some(i) => &self.meanings[i],
            None => &Meaning::Open,
        }
    }
}

/// Where a key stands.
pub fn find(keys: &Vec<String>, key: &String) -> (found: Option<usize>)
    ensures
        match found {
            Some(i) => position(texts(keys@), key@, 0) == Some(i as int),
            None => position(texts(keys@), key@, 0) is None,
        },
{
    let ghost all = texts(keys@);
    let mut i: usize = 0;
    while i < keys.len()
        invariant
            i <= keys@.len(),
            all == texts(keys@),
            position(all, key@, 0) == position(all, key@, i as int),
        decreases keys@.len() - i,
    {
        assert(all[i as int] == keys@[i as int]@);
        if keys[i] == *key {
            return Some(i);
        }
        i += 1;
    }
    None
}

proof fn names_of_all_step(types: Seq<Shape>, i: int)
    requires
        0 <= i < types.len(),
    ensures
        names_of_all(types.take(i + 1)) == names_of_all(types.take(i)) + names(types[i]),
        defect_of_all(types.take(i + 1)) == (match defect_of_all(types.take(i)) {
            Some(found) => Some(found),
            None => defect(types[i]),
        }),
{
    assert(types.take(i + 1).drop_last() =~= types.take(i));
}

proof fn names_of_fields_step(fields: Seq<FieldShape>, i: int)
    requires
        0 <= i < fields.len(),
    ensures
        names_of_fields(fields.take(i + 1)) == names_of_fields(fields.take(i)) + names(
            fields[i].ty,
        ),
        defect_of_fields(fields.take(i + 1)) == (match defect_of_fields(fields.take(i)) {
            Some(found) => Some(found),
            None => defect(fields[i].ty),
        }),
{
    assert(fields.take(i + 1).drop_last() =~= fields.take(i));
}

proof fn names_of_variants_step(variants: Seq<VariantShape>, i: int)
    requires
        0 <= i < variants.len(),
    ensures
        names_of_variants(variants.take(i + 1)) == names_of_variants(variants.take(i)) + (
        match variants[i].value {
            Some(value) => names(value),
            None => Seq::empty(),
        }),
        defect_of_variants(variants.take(i + 1)) == (match defect_of_variants(variants.take(i)) {
            Some(found) => Some(found),
            None => match variants[i].value {
                Some(value) => defect(value),
                None => None,
            },
        }),
{
    assert(variants.take(i + 1).drop_last() =~= variants.take(i));
}

proof fn closed_types_name_nothing(t: Shape)
    requires
        !has_var(t),
    ensures
        names(t) == Seq::<Seq<char>>::empty(),
    decreases t,
{
    reveal(has_var);
    match t {
        Shape::Ptr(_, pointee) => {
            closed_types_name_nothing(*pointee);
        },
        Shape::Array(element, _) => {
            closed_types_name_nothing(*element);
        },
        Shape::List(element) => {
            closed_types_name_nothing(*element);
        },
        Shape::Function(f) => {
            closed_lists_name_nothing(f.params);
            closed_lists_name_nothing(f.results);
            assert(names(t) =~= Seq::<Seq<char>>::empty());
        },
        Shape::Struct(s) => {
            closed_fields_name_nothing(s.fields);
        },
        Shape::Enum(e) => {
            assert forall|i: int|
                0 <= i < e.variants.len() && (#[trigger] e.variants[i]).value
                    is Some implies !has_var(e.variants[i].value->0) by {}
            closed_variants_name_nothing(e.variants);
        },
        _ => {},
    }
}

proof fn closed_lists_name_nothing(types: Seq<Shape>)
    requires
        forall|i: int| 0 <= i < types.len() ==> !has_var(#[trigger] types[i]),
    ensures
        names_of_all(types) == Seq::<Seq<char>>::empty(),
    decreases types,
{
    if types.len() > 0 {
        let rest = types.drop_last();
        assert forall|i: int| 0 <= i < rest.len() implies !has_var(#[trigger] rest[i]) by {
            assert(rest[i] == types[i]);
        }
        closed_lists_name_nothing(rest);
        closed_types_name_nothing(types[types.len() - 1]);
        assert(names_of_all(types) =~= Seq::<Seq<char>>::empty());
    }
}

proof fn closed_fields_name_nothing(fields: Seq<FieldShape>)
    requires
        forall|i: int| 0 <= i < fields.len() ==> !has_var((#[trigger] fields[i]).ty),
    ensures
        names_of_fields(fields) == Seq::<Seq<char>>::empty(),
    decreases fields,
{
    if fields.len() > 0 {
        let rest = fields.drop_last();
        assert forall|i: int| 0 <= i < rest.len() implies !has_var((#[trigger] rest[i]).ty) by {
            assert(rest[i] == fields[i]);
        }
        closed_fields_name_nothing(rest);
        closed_types_name_nothing(fields[fields.len() - 1].ty);
        assert(names_of_fields(fields) =~= Seq::<Seq<char>>::empty());
    }
}

proof fn closed_variants_name_nothing(variants: Seq<VariantShape>)
    requires
        forall|i: int|
            0 <= i < variants.len() && (#[trigger] variants[i]).value is Some ==> !has_var(
                variants[i].value->0,
            ),
    ensures
        names_of_variants(variants) == Seq::<Seq<char>>::empty(),
    decreases variants,
{
    if variants.len() > 0 {
        let rest = variants.drop_last();
        assert forall|i: int|
            0 <= i < rest.len() && (#[trigger] rest[i]).value is Some implies !has_var(
            rest[i].value->0,
        ) by {
            assert(rest[i] == variants[i]);
        }
        closed_variants_name_nothing(rest);
        if let Some(value) = variants[variants.len() - 1].value {
            closed_types_name_nothing(value);
        }
        assert(names_of_variants(variants) =~= Seq::<Seq<char>>::empty());
    }
}

/// Collects the names that a template mentions, in the order in which it mentions them.
pub fn collect_ordered_references(t: &TypeTemplate, found: &mut Vec<String>)
    ensures
        texts(final(found)@) == texts(old(found)@) + names(t@),
    decreases *t,
{
    let ghost start = texts(found@);
    proof {
        template_shape_unfold(t);
    }
    match t {
        TypeTemplate::Type(ty) => {
            proof {
                types_are_closed(ty);
                closed_types_name_nothing(ty@);
                assert(start + names(t@) =~= start);
            }
        },
        TypeTemplate::Rec(key) => {
            found.push(key.clone());
            assert(texts(found@) =~= start + seq![key@]);
        },
        TypeTemplate::Ptr(_, pointee) => {
            collect_ordered_references(pointee, found);
        },
        TypeTemplate::Array(element, _) => {
            collect_ordered_references(element, found);
        },
        TypeTemplate::List(element) => {
            collect_ordered_references(element, found);
        },
        TypeTemplate::Function(f) => {
            collect_from_all(&f.params, found);
            collect_from_all(&f.results, found);
            assert(texts(found@) =~= start + (names_of_all(template_shapes(f.params@))
                + names_of_all(template_shapes(f.results@))));
        },
        TypeTemplate::Struct(s) => {
            collect_from_fields(&s.fields, found);
        },
        TypeTemplate::Enum(e) => {
            collect_from_variants(&e.variants, found);
        },
    }
}

fn collect_from_all(types: &Vec<TypeTemplate>, found: &mut Vec<String>)
    ensures
        texts(final(found)@) == texts(old(found)@) + names_of_all(template_shapes(types@)),
    decreases *types,
{
    let ghost start = texts(found@);
    let ghost all = template_shapes(types@);
    let mut i: usize = 0;
    assert(texts(found@) =~= start + names_of_all(all.take(0)));
    while i < types.len()
        invariant
            i <= types@.len(),
            all == template_shapes(types@),
            texts(found@) == start + names_of_all(all.take(i as int)),
        decreases types@.len() - i,
    {
        collect_ordered_references(&types[i], found);
        proof {
            names_of_all_step(all, i as int);
            assert(texts(found@) =~= start + names_of_all(all.take(i + 1)));
        }
        i += 1;
    }
    assert(all.take(types@.len() as int) =~= all);
}

/// Collects the names that the fields of a struct mention.
pub fn collect_from_fields(fields: &Vec<FieldTemplate>, found: &mut Vec<String>)
    ensures
        texts(final(found)@) == texts(old(found)@) + names_of_fields(
            field_template_shapes(fields@),
        ),
    decreases *fields,
{
    let ghost start = texts(found@);
    let ghost all = field_template_shapes(fields@);
    let mut i: usize = 0;
    assert(texts(found@) =~= start + names_of_fields(all.take(0)));
    while i < fields.len()
        invariant
            i <= fields@.len(),
            all == field_template_shapes(fields@),
            texts(found@) == start + names_of_fields(all.take(i as int)),
        decreases fields@.len() - i,
    {
        collect_ordered_references(&fields[i].ty, found);
        proof {
            names_of_fields_step(all, i as int);
            assert(texts(found@) =~= start + names_of_fields(all.take(i + 1)));
        }
        i += 1;
    }
    assert(all.take(fields@.len() as int) =~= all);
}

/// Collects the names that the payloads of an enum mention.
pub fn collect_from_variants(variants: &Vec<VariantTemplate>, found: &mut Vec<String>)
    ensures
        texts(final(found)@) == texts(old(found)@) + names_of_variants(
            variant_template_shapes(variants@),
        ),
    decreases *variants,
{
    let ghost start = texts(found@);
    let ghost all = variant_template_shapes(variants@);
    let mut i: usize = 0;
    assert(texts(found@) =~= start + names_of_variants(all.take(0)));
    while i < variants.len()
        invariant
            i <= variants@.len(),
            all == variant_template_shapes(variants@),
            texts(found@) == start + names_of_variants(all.take(i as int)),
        decreases variants@.len() - i,
    {
        if let Some(value) = &variants[i].value {
            collect_ordered_references(value, found);
        }
        proof {
            names_of_variants_step(all, i as int);
            assert(texts(found@) =~= start + names_of_variants(all.take(i + 1)));
        }
        i += 1;
    }
    assert(all.take(variants@.len() as int) =~= all);
}

/// Whether a back-reference remains in a template once its names are replaced.
pub fn mentions_group(t: &TypeTemplate, names: &Names) -> (mentions: bool)
    requires
        names.wf(),
    ensures
        mentions == has_var(subst(t@, names@)),
    decreases *t,
{
    proof {
        template_shape_unfold(t);
        subst_unfold(t@, names@);
        reveal(has_var);
    }
    match t {
        TypeTemplate::Type(ty) => {
            proof {
                types_are_closed(ty);
                subst_closed(ty@, names@);
            }
            false
        },
        TypeTemplate::Rec(key) => match names.look_up(key) {
            Meaning::Done(ty) => {
                proof {
                    types_are_closed(ty);
                }
                false
            },
            Meaning::Slot(_) => true,
            Meaning::Open => true,
        },
        TypeTemplate::Ptr(_, pointee) => mentions_group(pointee, names),
        TypeTemplate::Array(element, _) => mentions_group(element, names),
        TypeTemplate::List(element) => mentions_group(element, names),
        TypeTemplate::Function(f) => {
            let in_params: bool = any_mentions_group(&f.params, names);
            let in_results: bool = any_mentions_group(&f.results, names);
            proof {
                let made = subst(t@, names@)->Function_0;
                assert(in_params == any_var(made.params));
                assert(in_results == any_var(made.results));
            }
            in_params || in_results
        },
        TypeTemplate::Struct(s) => fields_mention_group(&s.fields, names),
        TypeTemplate::Enum(e) => {
            proof {
                types_are_closed(&e.discriminant);
                subst_closed(e.discriminant@, names@);
            }
            variants_mention_group(&e.variants, names)
        },
    }
}

fn fields_mention_group(fields: &Vec<FieldTemplate>, names: &Names) -> (mentions: bool)
    requires
        names.wf(),
    ensures
        mentions == exists|i: int|
            0 <= i < fields@.len() && has_var(
                (#[trigger] subst_fields(field_template_shapes(fields@), names@)[i]).ty,
            ),
    decreases *fields,
{
    let ghost all = subst_fields(field_template_shapes(fields@), names@);
    let mut i: usize = 0;
    while i < fields.len()
        invariant
            i <= fields@.len(),
            names.wf(),
            all == subst_fields(field_template_shapes(fields@), names@),
            forall|j: int| 0 <= j < i ==> !has_var((#[trigger] all[j]).ty),
        decreases fields@.len() - i,
    {
        if mentions_group(&fields[i].ty, names) {
            assert(has_var(all[i as int].ty));
            return true;
        }
        i += 1;
    }
    false
}

fn variants_mention_group(variants: &Vec<VariantTemplate>, names: &Names) -> (mentions: bool)
    requires
        names.wf(),
    ensures
        mentions == exists|i: int|
            0 <= i < variants@.len() && ((#[trigger] subst_variants(
                variant_template_shapes(variants@),
                names@,
            )[i]).value matches Some(value) && has_var(value)),
    decreases *variants,
{
    let ghost all = subst_variants(variant_template_shapes(variants@), names@);
    let mut i: usize = 0;
    while i < variants.len()
        invariant
            i <= variants@.len(),
            names.wf(),
            all == subst_variants(variant_template_shapes(variants@), names@),
            forall|j: int|
                0 <= j < i ==> !((#[trigger] all[j]).value matches Some(value) && has_var(value)),
        decreases variants@.len() - i,
    {
        assert(variant_template_shapes(variants@)[i as int] == variant_template_shape(
            variants@[i as int],
        ));
        if let Some(value) = &variants[i].value {
            if mentions_group(value, names) {
                assert(all[i as int].value matches Some(value) && has_var(value));
                return true;
            }
        }
        assert(!(all[i as int].value matches Some(value) && has_var(value)));
        i += 1;
    }
    false
}

spec fn any_var(types: Seq<Shape>) -> bool {
    exists|i: int| 0 <= i < types.len() && has_var(#[trigger] types[i])
}

fn any_mentions_group(types: &Vec<TypeTemplate>, names: &Names) -> (mentions: bool)
    requires
        names.wf(),
    ensures
        mentions == any_var(subst_all(template_shapes(types@), names@)),
    decreases *types,
{
    let ghost all = subst_all(template_shapes(types@), names@);
    let mut i: usize = 0;
    while i < types.len()
        invariant
            i <= types@.len(),
            names.wf(),
            all == subst_all(template_shapes(types@), names@),
            forall|j: int| 0 <= j < i ==> !has_var(#[trigger] all[j]),
        decreases types@.len() - i,
    {
        if mentions_group(&types[i], names) {
            assert(has_var(all[i as int]));
            return true;
        }
        i += 1;
    }
    false
}

/// What makes a template no type.
pub enum DefectFound {
    Undefined(String),
    Invalid(InvalidEnumTypeError),
}

impl DefectFound {
    pub open spec fn view(&self) -> Defect {
        match *self {
            DefectFound::Undefined(key) => Defect::Undefined(key@),
            DefectFound::Invalid(error) => Defect::Invalid(error@),
        }
    }
}

pub open spec fn found_is(found: Option<DefectFound>, expected: Option<Defect>) -> bool {
    match found {
        Some(found) => expected == Some(found@),
        None => expected is None,
    }
}

/// The first defect of a template whose names are replaced.
pub fn find_defect(t: &TypeTemplate, names: &Names) -> (found: Option<DefectFound>)
    requires
        names.wf(),
        template_wf(*t),
    ensures
        found_is(found, defect(subst(t@, names@))),
    decreases *t,
{
    proof {
        template_shape_unfold(t);
        subst_unfold(t@, names@);
        reveal(template_wf);
    }
    match t {
        TypeTemplate::Type(ty) => {
            proof {
                types_are_closed(ty);
                types_are_sound(ty);
                subst_closed(ty@, names@);
            }
            None
        },
        TypeTemplate::Rec(key) => match names.look_up(key) {
            Meaning::Done(ty) => {
                proof {
                    types_are_sound(ty);
                }
                None
            },
            Meaning::Slot(_) => None,
            Meaning::Open => Some(DefectFound::Undefined(key.clone())),
        },
        TypeTemplate::Ptr(_, pointee) => find_defect(pointee, names),
        TypeTemplate::Array(element, _) => find_defect(element, names),
        TypeTemplate::List(element) => find_defect(element, names),
        TypeTemplate::Function(f) => match find_defect_in_all(&f.params, names) {
            Some(found) => Some(found),
            None => find_defect_in_all(&f.results, names),
        },
        TypeTemplate::Struct(s) => find_defect_in_struct(s, names),
        TypeTemplate::Enum(e) => find_defect_in_enum(e, names),
    }
}

fn find_defect_in_all(types: &Vec<TypeTemplate>, names: &Names) -> (found: Option<DefectFound>)
    requires
        names.wf(),
        forall|i: int| 0 <= i < types@.len() ==> template_wf(#[trigger] types@[i]),
    ensures
        found_is(found, defect_of_all(subst_all(template_shapes(types@), names@))),
    decreases *types,
{
    let ghost all = subst_all(template_shapes(types@), names@);
    let mut i: usize = 0;
    while i < types.len()
        invariant
            i <= types@.len(),
            names.wf(),
            forall|i: int| 0 <= i < types@.len() ==> template_wf(#[trigger] types@[i]),
            all == subst_all(template_shapes(types@), names@),
            defect_of_all(all.take(i as int)) is None,
        decreases types@.len() - i,
    {
        proof {
            names_of_all_step(all, i as int);
        }
        if let Some(found) = find_defect(&types[i], names) {
            proof {
                defect_stays_in_all(all, i + 1);
            }
            return Some(found);
        }
        i += 1;
    }
    assert(all.take(types@.len() as int) =~= all);
    None
}

proof fn defect_stays_in_all(types: Seq<Shape>, i: int)
    requires
        0 <= i <= types.len(),
        defect_of_all(types.take(i)) is Some,
    ensures
        defect_of_all(types) == defect_of_all(types.take(i)),
    decreases types.len() - i,
{
    if i < types.len() {
        names_of_all_step(types, i);
        defect_stays_in_all(types, i + 1);
    } else {
        assert(types.take(i) =~= types);
    }
}

proof fn defect_stays_in_fields(fields: Seq<FieldShape>, i: int)
    requires
        0 <= i <= fields.len(),
        defect_of_fields(fields.take(i)) is Some,
    ensures
        defect_of_fields(fields) == defect_of_fields(fields.take(i)),
    decreases fields.len() - i,
{
    if i < fields.len() {
        names_of_fields_step(fields, i);
        defect_stays_in_fields(fields, i + 1);
    } else {
        assert(fields.take(i) =~= fields);
    }
}

proof fn defect_stays_in_variants(variants: Seq<VariantShape>, i: int)
    requires
        0 <= i <= variants.len(),
        defect_of_variants(variants.take(i)) is Some,
    ensures
        defect_of_variants(variants) == defect_of_variants(variants.take(i)),
    decreases variants.len() - i,
{
    if i < variants.len() {
        names_of_variants_step(variants, i);
        defect_stays_in_variants(variants, i + 1);
    } else {
        assert(variants.take(i) =~= variants);
    }
}

/// The first defect of a struct definition whose names are replaced.
pub fn find_defect_in_struct(s: &StructTemplate, names: &Names) -> (found: Option<DefectFound>)
    requires
        names.wf(),
        struct_template_wf(*s),
    ensures
        found_is(
            found,
            defect_of_fields(subst_fields(field_template_shapes(s.fields@), names@)),
        ),
    decreases *s,
{
    let ghost all = subst_fields(field_template_shapes(s.fields@), names@);
    let mut i: usize = 0;
    while i < s.fields.len()
        invariant
            i <= s.fields@.len(),
            names.wf(),
            struct_template_wf(*s),
            all == subst_fields(field_template_shapes(s.fields@), names@),
            defect_of_fields(all.take(i as int)) is None,
        decreases s.fields@.len() - i,
    {
        proof {
            names_of_fields_step(all, i as int);
        }
        if let Some(found) = find_defect(&s.fields[i].ty, names) {
            proof {
                defect_stays_in_fields(all, i + 1);
            }
            return Some(found);
        }
        i += 1;
    }
    assert(all.take(s.fields@.len() as int) =~= all);
    None
}

/// The first defect of an enum definition whose names are replaced.
pub fn find_defect_in_enum(e: &EnumTemplate, names: &Names) -> (found: Option<DefectFound>)
    requires
        names.wf(),
        enum_template_wf(*e),
    ensures
        found_is(found, defect(Shape::Enum(subst_enum(enum_template_shape(*e), names@)))),
    decreases *e,
{
    let ghost made = subst_enum(enum_template_shape(*e), names@);
    let ghost all = made.variants;
    let mut bare: Vec<Variant> = Vec::new();
    let mut i: usize = 0;
    while i < e.variants.len()
        invariant
            i <= e.variants@.len(),
            names.wf(),
            enum_template_wf(*e),
            all == subst_variants(variant_template_shapes(e.variants@), names@),
            made.variants == all,
            defect_of_variants(all.take(i as int)) is None,
            bare@.len() == i,
            forall|j: int|
                0 <= j < i ==> (#[trigger] bare@[j]).name@ == all[j].name
                    && bare@[j].discriminant_value == all[j].discriminant_value,
        decreases e.variants@.len() - i,
    {
        proof {
            names_of_variants_step(all, i as int);
            assert(variant_template_shapes(e.variants@)[i as int] == variant_template_shape(
                e.variants@[i as int],
            ));
        }
        let variant = &e.variants[i];
        if let Some(value) = &variant.value {
            if let Some(found) = find_defect(value, names) {
                proof {
                    defect_stays_in_variants(all, i + 1);
                }
                return Some(found);
            }
        }
        bare.push(
            Variant {
                name: variant.name.clone(),
                discriminant_value: variant.discriminant_value,
                value: None,
            },
        );
        i += 1;
    }
    proof {
        assert(all.take(e.variants@.len() as int) =~= all);
        types_are_closed(&e.discriminant);
        subst_closed(e.discriminant@, names@);
        let plain = EnumShape {
            name: e.name@,
            discriminant: Box::new(e.discriminant@),
            variants: variant_shapes(bare@),
        };
        validity_ignores_payloads(plain, made);
    }
    match examine(&e.name, &e.discriminant, &bare) {
        Some(error) => Some(DefectFound::Invalid(error)),
        None => None,
    }
}

} // verus!
