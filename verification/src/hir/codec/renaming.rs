//! How replacing names, replacing names again and naming back-references go together.
use vstd::prelude::*;

use crate::hir::codec::canonical::{
    renamed, renamed_all, renamed_fields, renamed_unfold, renamed_variants,
};
use crate::hir::recursive::key::{key, key_of_all, key_of_fields, key_of_variants, order_key};
use crate::hir::recursive::scope::{
    defect, defect_of_all, defect_of_fields, defect_of_variants, names, names_of_all,
    names_of_fields, names_of_variants, no_defect_of_all, no_defect_of_fields,
    no_defect_of_variants, resolve, subst, subst_all, subst_closed, subst_fields, subst_unfold,
    subst_variants, Scope,
};
use crate::hir::recursive::spelling::{
    spelled, spelled_all, spelled_fields, spelled_variants,
};
use crate::hir::shape::{has_var, FieldShape, Shape, VariantShape};

verus! {

/// What a key stands for: itself where nothing is known.
pub open spec fn stands(scope: Scope, key: Seq<char>) -> Shape {
    match resolve(scope, key) {
        Some(value) => value,
        None => Shape::Name(key),
    }
}

/// The type holds no back-reference, and the discriminants in it name nothing.
#[verifier::opaque]
pub open spec fn slotless(t: Shape) -> bool
    decreases t,
{
    match t {
        Shape::Var(_) => false,
        Shape::Ptr(_, pointee) => slotless(*pointee),
        Shape::Array(element, _) => slotless(*element),
        Shape::List(element) => slotless(*element),
        Shape::Function(f) => {
            &&& forall|i: int| 0 <= i < f.params.len() ==> slotless(#[trigger] f.params[i])
            &&& forall|i: int| 0 <= i < f.results.len() ==> slotless(#[trigger] f.results[i])
        },
        Shape::Struct(s) => forall|i: int|
            0 <= i < s.fields.len() ==> slotless((#[trigger] s.fields[i]).ty),
        Shape::Enum(e) => {
            &&& !has_var(*e.discriminant)
            &&& forall|i: int|
                0 <= i < e.variants.len() ==> ((#[trigger] e.variants[i]).value matches Some(value)
                    ==> slotless(value))
        },
        _ => true,
    }
}

/// Naming back-references changes nothing in a closed type.
pub proof fn renamed_closed(t: Shape)
    requires
        !has_var(t),
    ensures
        renamed(t) == t,
    decreases t,
{
    reveal(has_var);
    renamed_unfold(t);
    match t {
        Shape::Ptr(_, pointee) => {
            renamed_closed(*pointee);
        },
        Shape::Array(element, _) => {
            renamed_closed(*element);
        },
        Shape::List(element) => {
            renamed_closed(*element);
        },
        Shape::Function(f) => {
            assert forall|i: int| 0 <= i < f.params.len() implies renamed(#[trigger] f.params[i])
                == f.params[i] by {
                renamed_closed(f.params[i]);
            }
            assert forall|i: int| 0 <= i < f.results.len() implies renamed(#[trigger] f.results[i])
                == f.results[i] by {
                renamed_closed(f.results[i]);
            }
            assert(renamed_all(f.params) =~= f.params);
            assert(renamed_all(f.results) =~= f.results);
        },
        Shape::Struct(s) => {
            assert forall|i: int| 0 <= i < s.fields.len() implies renamed(
                (#[trigger] s.fields[i]).ty,
            ) == s.fields[i].ty by {
                renamed_closed(s.fields[i].ty);
            }
            assert(renamed_fields(s.fields) =~= s.fields);
        },
        Shape::Enum(e) => {
            assert forall|i: int| 0 <= i < e.variants.len() implies (#[trigger] renamed_variants(
                e.variants,
            )[i]) == e.variants[i] by {
                if let Some(value) = e.variants[i].value {
                    assert(!has_var(value));
                    renamed_closed(value);
                }
            }
            assert(renamed_variants(e.variants) =~= e.variants);
        },
        _ => {},
    }
}

/// Replacing names and then naming back-references is replacing names.
pub proof fn renamed_after(t: Shape, inner: Scope, outer: Scope)
    requires
        slotless(t),
        forall|key: Seq<char>| renamed(#[trigger] stands(inner, key)) == stands(outer, key),
    ensures
        renamed(subst(t, inner)) == subst(t, outer),
    decreases t,
{
    reveal(slotless);
    subst_unfold(t, inner);
    subst_unfold(t, outer);
    let made = subst(t, inner);
    renamed_unfold(made);
    match t {
        Shape::Name(key) => {
            assert(renamed(stands(inner, key)) == stands(outer, key));
        },
        Shape::Ptr(_, pointee) => {
            renamed_after(*pointee, inner, outer);
        },
        Shape::Array(element, _) => {
            renamed_after(*element, inner, outer);
        },
        Shape::List(element) => {
            renamed_after(*element, inner, outer);
        },
        Shape::Function(f) => {
            assert forall|i: int| 0 <= i < f.params.len() implies renamed(
                subst(#[trigger] f.params[i], inner),
            ) == subst(f.params[i], outer) by {
                renamed_after(f.params[i], inner, outer);
            }
            assert forall|i: int| 0 <= i < f.results.len() implies renamed(
                subst(#[trigger] f.results[i], inner),
            ) == subst(f.results[i], outer) by {
                renamed_after(f.results[i], inner, outer);
            }
            assert(renamed_all(subst_all(f.params, inner)) =~= subst_all(f.params, outer));
            assert(renamed_all(subst_all(f.results, inner)) =~= subst_all(f.results, outer));
        },
        Shape::Struct(s) => {
            assert forall|i: int| 0 <= i < s.fields.len() implies renamed(
                subst((#[trigger] s.fields[i]).ty, inner),
            ) == subst(s.fields[i].ty, outer) by {
                renamed_after(s.fields[i].ty, inner, outer);
            }
            assert(renamed_fields(subst_fields(s.fields, inner)) =~= subst_fields(s.fields, outer));
        },
        Shape::Enum(e) => {
            subst_closed(*e.discriminant, inner);
            subst_closed(*e.discriminant, outer);
            assert forall|i: int| 0 <= i < e.variants.len() implies (#[trigger] renamed_variants(
                subst_variants(e.variants, inner),
            )[i]) == subst_variants(e.variants, outer)[i] by {
                if let Some(value) = e.variants[i].value {
                    renamed_after(value, inner, outer);
                }
            }
            assert(renamed_variants(subst_variants(e.variants, inner)) =~= subst_variants(
                e.variants,
                outer,
            ));
        },
        _ => {},
    }
}

/// Replacing names twice is replacing them once, where nothing stays open in the end.
pub proof fn subst_after(t: Shape, first: Scope, second: Scope, both: Scope)
    requires
        slotless(t),
        defect(subst(t, both)) is None,
        forall|key: Seq<char>|
            (#[trigger] stands(both, key)) is Name || subst(stands(first, key), second) == stands(
                both,
                key,
            ),
    ensures
        subst(subst(t, first), second) == subst(t, both),
    decreases t,
{
    reveal(slotless);
    subst_unfold(t, first);
    subst_unfold(t, both);
    let made = subst(t, first);
    let end = subst(t, both);
    subst_unfold(made, second);
    match t {
        Shape::Name(key) => {
            assert(stands(both, key) is Name || subst(stands(first, key), second) == stands(
                both,
                key,
            ));
        },
        Shape::Ptr(_, pointee) => {
            subst_after(*pointee, first, second, both);
        },
        Shape::Array(element, _) => {
            subst_after(*element, first, second, both);
        },
        Shape::List(element) => {
            subst_after(*element, first, second, both);
        },
        Shape::Function(f) => {
            no_defect_of_all(end->Function_0.params);
            no_defect_of_all(end->Function_0.results);
            assert forall|i: int| 0 <= i < f.params.len() implies subst(
                subst(#[trigger] f.params[i], first),
                second,
            ) == subst(f.params[i], both) by {
                assert(end->Function_0.params[i] == subst(f.params[i], both));
                subst_after(f.params[i], first, second, both);
            }
            assert forall|i: int| 0 <= i < f.results.len() implies subst(
                subst(#[trigger] f.results[i], first),
                second,
            ) == subst(f.results[i], both) by {
                assert(end->Function_0.results[i] == subst(f.results[i], both));
                subst_after(f.results[i], first, second, both);
            }
            assert(subst_all(subst_all(f.params, first), second) =~= subst_all(f.params, both));
            assert(subst_all(subst_all(f.results, first), second) =~= subst_all(f.results, both));
        },
        Shape::Struct(s) => {
            no_defect_of_fields(end->Struct_0.fields);
            assert forall|i: int| 0 <= i < s.fields.len() implies subst(
                subst((#[trigger] s.fields[i]).ty, first),
                second,
            ) == subst(s.fields[i].ty, both) by {
                assert(end->Struct_0.fields[i].ty == subst(s.fields[i].ty, both));
                subst_after(s.fields[i].ty, first, second, both);
            }
            assert(subst_fields(subst_fields(s.fields, first), second) =~= subst_fields(
                s.fields,
                both,
            ));
        },
        Shape::Enum(e) => {
            subst_closed(*e.discriminant, first);
            subst_closed(*e.discriminant, second);
            subst_closed(*e.discriminant, both);
            no_defect_of_variants(end->Enum_0.variants);
            assert forall|i: int| 0 <= i < e.variants.len() implies (#[trigger] subst_variants(
                subst_variants(e.variants, first),
                second,
            )[i]) == subst_variants(e.variants, both)[i] by {
                if let Some(value) = e.variants[i].value {
                    assert(end->Enum_0.variants[i].value == Some(subst(value, both)));
                    subst_after(value, first, second, both);
                }
            }
            assert(subst_variants(subst_variants(e.variants, first), second) =~= subst_variants(
                e.variants,
                both,
            ));
        },
        _ => {},
    }
}

// ---------------------------------------------------------------------------------------------
// Names
// ---------------------------------------------------------------------------------------------

/// The names that are left of a list of names.
pub open spec fn names_left(found: Seq<Seq<char>>, scope: Scope) -> Seq<Seq<char>>
    decreases found.len(),
{
    if found.len() == 0 {
        Seq::empty()
    } else {
        names_left(found.drop_last(), scope) + names(stands(scope, found[found.len() - 1]))
    }
}

proof fn names_left_join(a: Seq<Seq<char>>, b: Seq<Seq<char>>, scope: Scope)
    ensures
        names_left(a + b, scope) == names_left(a, scope) + names_left(b, scope),
    decreases b.len(),
{
    if b.len() == 0 {
        assert(a + b =~= a);
        assert(names_left(a, scope) + names_left(b, scope) =~= names_left(a, scope));
    } else {
        names_left_join(a, b.drop_last(), scope);
        assert((a + b).drop_last() =~= a + b.drop_last());
        assert(names_left(a + b, scope) =~= names_left(a, scope) + names_left(b, scope));
    }
}

/// The names of a type after names in it were replaced.
pub proof fn names_after(t: Shape, scope: Scope)
    ensures
        names(subst(t, scope)) == names_left(names(t), scope),
    decreases t,
{
    subst_unfold(t, scope);
    match t {
        Shape::Name(key) => {
            let found = seq![key];
            assert(found.drop_last().len() == 0);
            assert(names_left(found.drop_last(), scope) == Seq::<Seq<char>>::empty());
            assert(found[0] == key);
            assert(names_left(found, scope) =~= names(stands(scope, key)));
        },
        Shape::Ptr(_, pointee) => {
            names_after(*pointee, scope);
        },
        Shape::Array(element, _) => {
            names_after(*element, scope);
        },
        Shape::List(element) => {
            names_after(*element, scope);
        },
        Shape::Function(f) => {
            names_of_all_after(f.params, scope);
            names_of_all_after(f.results, scope);
            names_left_join(names_of_all(f.params), names_of_all(f.results), scope);
        },
        Shape::Struct(s) => {
            names_of_fields_after(s.fields, scope);
        },
        Shape::Enum(e) => {
            names_of_variants_after(e.variants, scope);
        },
        _ => {},
    }
}

proof fn names_of_all_after(types: Seq<Shape>, scope: Scope)
    ensures
        names_of_all(subst_all(types, scope)) == names_left(names_of_all(types), scope),
    decreases types,
{
    let made = subst_all(types, scope);
    if types.len() > 0 {
        let rest = types.drop_last();
        let last = types[types.len() - 1];
        assert(made.drop_last() =~= subst_all(rest, scope));
        names_of_all_after(rest, scope);
        names_after(last, scope);
        names_left_join(names_of_all(rest), names(last), scope);
    }
}

proof fn names_of_fields_after(fields: Seq<FieldShape>, scope: Scope)
    ensures
        names_of_fields(subst_fields(fields, scope)) == names_left(names_of_fields(fields), scope),
    decreases fields,
{
    let made = subst_fields(fields, scope);
    if fields.len() > 0 {
        let rest = fields.drop_last();
        let last = fields[fields.len() - 1];
        assert(made.drop_last() =~= subst_fields(rest, scope));
        names_of_fields_after(rest, scope);
        names_after(last.ty, scope);
        names_left_join(names_of_fields(rest), names(last.ty), scope);
    }
}

proof fn names_of_variants_after(variants: Seq<VariantShape>, scope: Scope)
    ensures
        names_of_variants(subst_variants(variants, scope)) == names_left(
            names_of_variants(variants),
            scope,
        ),
    decreases variants,
{
    let made = subst_variants(variants, scope);
    if variants.len() > 0 {
        let rest = variants.drop_last();
        let last = variants[variants.len() - 1];
        assert(made.drop_last() =~= subst_variants(rest, scope));
        names_of_variants_after(rest, scope);
        match last.value {
            Some(value) => {
                names_after(value, scope);
                names_left_join(names_of_variants(rest), names(value), scope);
            },
            None => {
                names_left_join(names_of_variants(rest), Seq::empty(), scope);
            },
        }
    }
}

/// A type without defect names nothing.
pub proof fn sound_types_name_nothing(t: Shape)
    requires
        defect(t) is None,
    ensures
        names(t).len() == 0,
    decreases t,
{
    match t {
        Shape::Ptr(_, pointee) => {
            sound_types_name_nothing(*pointee);
        },
        Shape::Array(element, _) => {
            sound_types_name_nothing(*element);
        },
        Shape::List(element) => {
            sound_types_name_nothing(*element);
        },
        Shape::Function(f) => {
            sound_lists_name_nothing(f.params);
            sound_lists_name_nothing(f.results);
        },
        Shape::Struct(s) => {
            sound_fields_name_nothing(s.fields);
        },
        Shape::Enum(e) => {
            sound_variants_name_nothing(e.variants);
        },
        _ => {},
    }
}

proof fn sound_lists_name_nothing(types: Seq<Shape>)
    requires
        defect_of_all(types) is None,
    ensures
        names_of_all(types).len() == 0,
    decreases types,
{
    if types.len() > 0 {
        sound_lists_name_nothing(types.drop_last());
        sound_types_name_nothing(types[types.len() - 1]);
    }
}

proof fn sound_fields_name_nothing(fields: Seq<FieldShape>)
    requires
        defect_of_fields(fields) is None,
    ensures
        names_of_fields(fields).len() == 0,
    decreases fields,
{
    if fields.len() > 0 {
        sound_fields_name_nothing(fields.drop_last());
        sound_types_name_nothing(fields[fields.len() - 1].ty);
    }
}

proof fn sound_variants_name_nothing(variants: Seq<VariantShape>)
    requires
        defect_of_variants(variants) is None,
    ensures
        names_of_variants(variants).len() == 0,
    decreases variants,
{
    if variants.len() > 0 {
        sound_variants_name_nothing(variants.drop_last());
        if let Some(value) = variants[variants.len() - 1].value {
            sound_types_name_nothing(value);
        }
    }
}

// ---------------------------------------------------------------------------------------------
// Keys
// ---------------------------------------------------------------------------------------------

/// The keys read the same in a type's key: they stand for the same type, or both for a definition
/// of the group.
pub open spec fn reads_alike(a: Scope, b: Scope, key: Seq<char>) -> bool {
    let left = stands(a, key);
    let right = stands(b, key);
    left == right || ((left is Name || left is Var) && (right is Name || right is Var))
}

/// The key of a type does not depend on which definitions of the group it mentions.
pub proof fn keys_are_blind(t: Shape, a: Scope, b: Scope)
    requires
        slotless(t),
        forall|key: Seq<char>| #[trigger] reads_alike(a, b, key),
    ensures
        key(subst(t, a)) == key(subst(t, b)),
    decreases t,
{
    reveal(slotless);
    subst_unfold(t, a);
    subst_unfold(t, b);
    match t {
        Shape::Name(name) => {
            assert(reads_alike(a, b, name));
        },
        Shape::Ptr(_, pointee) => {
            keys_are_blind(*pointee, a, b);
        },
        Shape::Array(element, _) => {
            keys_are_blind(*element, a, b);
        },
        Shape::List(element) => {
            keys_are_blind(*element, a, b);
        },
        Shape::Function(f) => {
            list_keys_are_blind(f.params, a, b);
            list_keys_are_blind(f.results, a, b);
        },
        Shape::Struct(s) => {
            field_keys_are_blind(s.fields, a, b);
        },
        Shape::Enum(e) => {
            subst_closed(*e.discriminant, a);
            subst_closed(*e.discriminant, b);
            variant_keys_are_blind(e.variants, a, b);
        },
        _ => {},
    }
}

proof fn list_keys_are_blind(types: Seq<Shape>, a: Scope, b: Scope)
    requires
        forall|i: int| 0 <= i < types.len() ==> slotless(#[trigger] types[i]),
        forall|key: Seq<char>| #[trigger] reads_alike(a, b, key),
    ensures
        key_of_all(subst_all(types, a)) == key_of_all(subst_all(types, b)),
    decreases types,
{
    if types.len() > 0 {
        let rest = types.drop_last();
        assert forall|i: int| 0 <= i < rest.len() implies slotless(#[trigger] rest[i]) by {
            assert(rest[i] == types[i]);
        }
        assert(subst_all(types, a).drop_last() =~= subst_all(rest, a));
        assert(subst_all(types, b).drop_last() =~= subst_all(rest, b));
        list_keys_are_blind(rest, a, b);
        keys_are_blind(types[types.len() - 1], a, b);
    }
}

proof fn field_keys_are_blind(fields: Seq<FieldShape>, a: Scope, b: Scope)
    requires
        forall|i: int| 0 <= i < fields.len() ==> slotless((#[trigger] fields[i]).ty),
        forall|key: Seq<char>| #[trigger] reads_alike(a, b, key),
    ensures
        key_of_fields(subst_fields(fields, a)) == key_of_fields(subst_fields(fields, b)),
    decreases fields,
{
    if fields.len() > 0 {
        let rest = fields.drop_last();
        assert forall|i: int| 0 <= i < rest.len() implies slotless((#[trigger] rest[i]).ty) by {
            assert(rest[i] == fields[i]);
        }
        assert(subst_fields(fields, a).drop_last() =~= subst_fields(rest, a));
        assert(subst_fields(fields, b).drop_last() =~= subst_fields(rest, b));
        field_keys_are_blind(rest, a, b);
        keys_are_blind(fields[fields.len() - 1].ty, a, b);
    }
}

proof fn variant_keys_are_blind(variants: Seq<VariantShape>, a: Scope, b: Scope)
    requires
        forall|i: int|
            0 <= i < variants.len() ==> ((#[trigger] variants[i]).value matches Some(value)
                ==> slotless(value)),
        forall|key: Seq<char>| #[trigger] reads_alike(a, b, key),
    ensures
        key_of_variants(subst_variants(variants, a)) == key_of_variants(
            subst_variants(variants, b),
        ),
    decreases variants,
{
    if variants.len() > 0 {
        let rest = variants.drop_last();
        assert forall|i: int| 0 <= i < rest.len() implies ((#[trigger] rest[i]).value matches Some(
            value,
        ) ==> slotless(value)) by {
            assert(rest[i] == variants[i]);
        }
        assert(subst_variants(variants, a).drop_last() =~= subst_variants(rest, a));
        assert(subst_variants(variants, b).drop_last() =~= subst_variants(rest, b));
        variant_keys_are_blind(rest, a, b);
        if let Some(value) = variants[variants.len() - 1].value {
            keys_are_blind(value, a, b);
        }
    }
}

/// The spelling of a type does not depend on which definitions of the group it mentions.
pub proof fn spellings_are_blind(t: Shape, a: Scope, b: Scope)
    requires
        slotless(t),
        forall|key: Seq<char>| #[trigger] reads_alike(a, b, key),
    ensures
        spelled(subst(t, a), true) == spelled(subst(t, b), true),
    decreases t,
{
    reveal(slotless);
    subst_unfold(t, a);
    subst_unfold(t, b);
    match t {
        Shape::Name(name) => {
            assert(reads_alike(a, b, name));
        },
        Shape::Ptr(_, pointee) => {
            spellings_are_blind(*pointee, a, b);
        },
        Shape::Array(element, _) => {
            spellings_are_blind(*element, a, b);
        },
        Shape::List(element) => {
            spellings_are_blind(*element, a, b);
        },
        Shape::Function(f) => {
            list_spellings_are_blind(f.params, a, b);
            list_spellings_are_blind(f.results, a, b);
        },
        Shape::Struct(s) => {
            field_spellings_are_blind(s.fields, a, b);
        },
        Shape::Enum(e) => {
            subst_closed(*e.discriminant, a);
            subst_closed(*e.discriminant, b);
            variant_spellings_are_blind(e.variants, a, b);
        },
        _ => {},
    }
}

proof fn list_spellings_are_blind(types: Seq<Shape>, a: Scope, b: Scope)
    requires
        forall|i: int| 0 <= i < types.len() ==> slotless(#[trigger] types[i]),
        forall|key: Seq<char>| #[trigger] reads_alike(a, b, key),
    ensures
        spelled_all(subst_all(types, a), true) == spelled_all(subst_all(types, b), true),
    decreases types,
{
    if types.len() > 0 {
        let rest = types.drop_last();
        assert(subst_all(types, a).drop_last() =~= subst_all(rest, a));
        assert(subst_all(types, b).drop_last() =~= subst_all(rest, b));
        list_spellings_are_blind(rest, a, b);
        spellings_are_blind(types[types.len() - 1], a, b);
    }
}

proof fn field_spellings_are_blind(fields: Seq<FieldShape>, a: Scope, b: Scope)
    requires
        forall|i: int| 0 <= i < fields.len() ==> slotless((#[trigger] fields[i]).ty),
        forall|key: Seq<char>| #[trigger] reads_alike(a, b, key),
    ensures
        spelled_fields(subst_fields(fields, a), true) == spelled_fields(
            subst_fields(fields, b),
            true,
        ),
    decreases fields,
{
    if fields.len() > 0 {
        let rest = fields.drop_last();
        assert(subst_fields(fields, a).drop_last() =~= subst_fields(rest, a));
        assert(subst_fields(fields, b).drop_last() =~= subst_fields(rest, b));
        field_spellings_are_blind(rest, a, b);
        spellings_are_blind(fields[fields.len() - 1].ty, a, b);
    }
}

proof fn variant_spellings_are_blind(variants: Seq<VariantShape>, a: Scope, b: Scope)
    requires
        forall|i: int|
            0 <= i < variants.len() ==> ((#[trigger] variants[i]).value matches Some(value)
                ==> slotless(value)),
        forall|key: Seq<char>| #[trigger] reads_alike(a, b, key),
    ensures
        spelled_variants(subst_variants(variants, a), true) == spelled_variants(
            subst_variants(variants, b),
            true,
        ),
    decreases variants,
{
    if variants.len() > 0 {
        let rest = variants.drop_last();
        assert(subst_variants(variants, a).drop_last() =~= subst_variants(rest, a));
        assert(subst_variants(variants, b).drop_last() =~= subst_variants(rest, b));
        variant_spellings_are_blind(rest, a, b);
        if let Some(value) = variants[variants.len() - 1].value {
            spellings_are_blind(value, a, b);
        }
    }
}

/// What a definition is ordered by does not depend on which definitions of the group it mentions.
pub proof fn orders_are_blind(t: Shape, a: Scope, b: Scope)
    requires
        t is Struct || t is Enum,
        slotless(t),
        forall|key: Seq<char>| #[trigger] reads_alike(a, b, key),
    ensures
        order_key(subst(t, a)) == order_key(subst(t, b)),
{
    keys_are_blind(t, a, b);
    spellings_are_blind(t, a, b);
    subst_unfold(t, a);
    subst_unfold(t, b);
}

} // verus!
