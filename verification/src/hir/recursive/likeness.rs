//! Types that are the same but for the names in them.
use vstd::prelude::*;

use crate::hir::codec::renaming::{slotless, stands};
use crate::hir::recursive::scope::{
    names, names_of_all, names_of_fields, names_of_variants, subst, subst_all, subst_closed,
    subst_fields, subst_unfold, subst_variants, Scope,
};
use crate::hir::shape::{FieldShape, Shape, VariantShape};

verus! {

// ---------------------------------------------------------------------------------------------
// The names of the parts of a type
// ---------------------------------------------------------------------------------------------

pub proof fn names_of_all_cover(types: Seq<Shape>, i: int, key: Seq<char>)
    requires
        0 <= i < types.len(),
        names(types[i]).contains(key),
    ensures
        names_of_all(types).contains(key),
    decreases types.len(),
{
    let before = names_of_all(types.drop_last());
    let last = names(types[types.len() - 1]);
    let all = names_of_all(types);
    if i == types.len() - 1 {
        let j = last.index_of(key);
        assert(all[before.len() + j] == key);
    } else {
        assert(types.drop_last()[i] == types[i]);
        names_of_all_cover(types.drop_last(), i, key);
        let j = before.index_of(key);
        assert(all[j] == key);
    }
}

pub proof fn names_of_fields_cover(fields: Seq<FieldShape>, i: int, key: Seq<char>)
    requires
        0 <= i < fields.len(),
        names(fields[i].ty).contains(key),
    ensures
        names_of_fields(fields).contains(key),
    decreases fields.len(),
{
    let before = names_of_fields(fields.drop_last());
    let last = names(fields[fields.len() - 1].ty);
    let all = names_of_fields(fields);
    if i == fields.len() - 1 {
        let j = last.index_of(key);
        assert(all[before.len() + j] == key);
    } else {
        assert(fields.drop_last()[i] == fields[i]);
        names_of_fields_cover(fields.drop_last(), i, key);
        let j = before.index_of(key);
        assert(all[j] == key);
    }
}

pub proof fn names_of_variants_cover(variants: Seq<VariantShape>, i: int, key: Seq<char>)
    requires
        0 <= i < variants.len(),
        variants[i].value is Some,
        names(variants[i].value->0).contains(key),
    ensures
        names_of_variants(variants).contains(key),
    decreases variants.len(),
{
    let before = names_of_variants(variants.drop_last());
    let all = names_of_variants(variants);
    if i == variants.len() - 1 {
        let last = names(variants[i].value->0);
        let j = last.index_of(key);
        assert(all[before.len() + j] == key);
    } else {
        assert(variants.drop_last()[i] == variants[i]);
        names_of_variants_cover(variants.drop_last(), i, key);
        let j = before.index_of(key);
        assert(all[j] == key);
    }
}

pub proof fn joined_names_cover(a: Seq<Seq<char>>, b: Seq<Seq<char>>, key: Seq<char>)
    ensures
        a.contains(key) || b.contains(key) ==> (a + b).contains(key),
{
    if a.contains(key) {
        let j = a.index_of(key);
        assert((a + b)[j] == key);
    }
    if b.contains(key) {
        let j = b.index_of(key);
        assert((a + b)[a.len() + j] == key);
    }
}

/// Replacing names twice is replacing them once.
pub proof fn subst_twice(t: Shape, first: Scope, second: Scope, both: Scope)
    requires
        slotless(t),
        forall|key: Seq<char>|
            #![trigger stands(both, key)]
            names(t).contains(key) ==> subst(stands(first, key), second) == stands(both, key),
    ensures
        subst(subst(t, first), second) == subst(t, both),
    decreases t,
{
    reveal(slotless);
    subst_unfold(t, first);
    subst_unfold(t, both);
    let made = subst(t, first);
    subst_unfold(made, second);
    match t {
        Shape::Name(key) => {
            assert(names(t)[0] == key);
            assert(subst(stands(first, key), second) == stands(both, key));
        },
        Shape::Ptr(_, pointee) => {
            subst_twice(*pointee, first, second, both);
        },
        Shape::Array(element, _) => {
            subst_twice(*element, first, second, both);
        },
        Shape::List(element) => {
            subst_twice(*element, first, second, both);
        },
        Shape::Function(f) => {
            assert forall|i: int| 0 <= i < f.params.len() implies subst(
                subst(#[trigger] f.params[i], first),
                second,
            ) == subst(f.params[i], both) by {
                assert forall|key: Seq<char>|
                    #![trigger stands(both, key)]
                    names(f.params[i]).contains(key) implies names(t).contains(key) by {
                    names_of_all_cover(f.params, i, key);
                    joined_names_cover(names_of_all(f.params), names_of_all(f.results), key);
                }
                subst_twice(f.params[i], first, second, both);
            }
            assert forall|i: int| 0 <= i < f.results.len() implies subst(
                subst(#[trigger] f.results[i], first),
                second,
            ) == subst(f.results[i], both) by {
                assert forall|key: Seq<char>|
                    #![trigger stands(both, key)]
                    names(f.results[i]).contains(key) implies names(t).contains(key) by {
                    names_of_all_cover(f.results, i, key);
                    joined_names_cover(names_of_all(f.params), names_of_all(f.results), key);
                }
                subst_twice(f.results[i], first, second, both);
            }
            assert(subst_all(subst_all(f.params, first), second) =~= subst_all(f.params, both));
            assert(subst_all(subst_all(f.results, first), second) =~= subst_all(f.results, both));
        },
        Shape::Struct(s) => {
            assert forall|i: int| 0 <= i < s.fields.len() implies subst(
                subst((#[trigger] s.fields[i]).ty, first),
                second,
            ) == subst(s.fields[i].ty, both) by {
                assert forall|key: Seq<char>|
                    #![trigger stands(both, key)]
                    names(s.fields[i].ty).contains(key) implies names(t).contains(key) by {
                    names_of_fields_cover(s.fields, i, key);
                }
                subst_twice(s.fields[i].ty, first, second, both);
            }
            assert(subst_fields(subst_fields(s.fields, first), second) =~= subst_fields(
                s.fields,
                both,
            ));
        },
        Shape::Enum(e) => {
            subst_closed(*e.discriminant, first);
            subst_closed(*e.discriminant, second);
            subst_closed(*e.discriminant, both);
            assert forall|i: int| 0 <= i < e.variants.len() implies (#[trigger] subst_variants(
                subst_variants(e.variants, first),
                second,
            )[i]) == subst_variants(e.variants, both)[i] by {
                if let Some(value) = e.variants[i].value {
                    assert forall|key: Seq<char>|
                        #![trigger stands(both, key)]
                        names(value).contains(key) implies names(t).contains(key) by {
                        names_of_variants_cover(e.variants, i, key);
                    }
                    subst_twice(value, first, second, both);
                }
            }
            assert(subst_variants(subst_variants(e.variants, first), second) =~= subst_variants(
                e.variants,
                both,
            ));
        },
        _ => {},
    }
}

/// Where every name stands for a type without back-references, none comes in.
pub proof fn slotless_after(t: Shape, scope: Scope)
    requires
        slotless(t),
        forall|key: Seq<char>| slotless(#[trigger] stands(scope, key)),
    ensures
        slotless(subst(t, scope)),
    decreases t,
{
    reveal(slotless);
    subst_unfold(t, scope);
    let made = subst(t, scope);
    match t {
        Shape::Name(key) => {
            assert(slotless(stands(scope, key)));
        },
        Shape::Ptr(_, pointee) => {
            slotless_after(*pointee, scope);
        },
        Shape::Array(element, _) => {
            slotless_after(*element, scope);
        },
        Shape::List(element) => {
            slotless_after(*element, scope);
        },
        Shape::Function(f) => {
            let made = made->Function_0;
            assert forall|i: int| 0 <= i < made.params.len() implies slotless(
                #[trigger] made.params[i],
            ) by {
                slotless_after(f.params[i], scope);
            }
            assert forall|i: int| 0 <= i < made.results.len() implies slotless(
                #[trigger] made.results[i],
            ) by {
                slotless_after(f.results[i], scope);
            }
        },
        Shape::Struct(s) => {
            let made = made->Struct_0;
            assert forall|i: int| 0 <= i < made.fields.len() implies slotless(
                (#[trigger] made.fields[i]).ty,
            ) by {
                slotless_after(s.fields[i].ty, scope);
            }
        },
        Shape::Enum(e) => {
            let made = made->Enum_0;
            subst_closed(*e.discriminant, scope);
            assert forall|i: int| 0 <= i < made.variants.len() implies ((
            #[trigger] made.variants[i]).value matches Some(value) ==> slotless(value)) by {
                if let Some(value) = e.variants[i].value {
                    slotless_after(value, scope);
                }
            }
        },
        _ => {},
    }
}

// ---------------------------------------------------------------------------------------------
// Types that differ in their names alone
// ---------------------------------------------------------------------------------------------

/// Every name of a list stands for the same back-reference.
pub open spec fn hides(veil: Scope, found: Seq<Seq<char>>) -> bool {
    forall|key: Seq<char>| #[trigger]
        found.contains(key) ==> stands(veil, key) == Shape::Var(0)
}

pub proof fn hides_parts(veil: Scope, a: Seq<Seq<char>>, b: Seq<Seq<char>>)
    requires
        hides(veil, a + b),
    ensures
        hides(veil, a),
        hides(veil, b),
{
    assert forall|key: Seq<char>| #[trigger] a.contains(key) implies stands(veil, key)
        == Shape::Var(0) by {
        joined_names_cover(a, b, key);
    }
    assert forall|key: Seq<char>| #[trigger] b.contains(key) implies stands(veil, key)
        == Shape::Var(0) by {
        joined_names_cover(a, b, key);
    }
}

/// Types that are the same where their names are hidden have as many names.
pub proof fn names_are_as_many(a: Shape, b: Shape, veil: Scope)
    requires
        slotless(a),
        slotless(b),
        hides(veil, names(a)),
        hides(veil, names(b)),
        subst(a, veil) == subst(b, veil),
    ensures
        names(a).len() == names(b).len(),
        a is Name ==> b is Name,
        names(a) == names(b) ==> a == b,
    decreases a,
{
    reveal(slotless);
    subst_unfold(a, veil);
    subst_unfold(b, veil);
    if let Shape::Name(key) = b {
        assert(names(b)[0] == key);
        assert(names(b).contains(key));
        assert(stands(veil, key) == Shape::Var(0));
    }
    match a {
        Shape::Name(key) => {
            assert(names(a)[0] == key);
            assert(names(a).contains(key));
            assert(stands(veil, key) == Shape::Var(0));
            if let Shape::Name(other) = b {
                assert(names(b) == seq![other]);
                assert(names(a)[0] == key && names(b)[0] == other);
            }
        },
        Shape::Ptr(_, pointee) => {
            names_are_as_many(*pointee, *b->Ptr_1, veil);
        },
        Shape::Array(element, _) => {
            names_are_as_many(*element, *b->Array_0, veil);
        },
        Shape::List(element) => {
            names_are_as_many(*element, *b->List_0, veil);
        },
        Shape::Function(f) => {
            let g = b->Function_0;
            hides_parts(veil, names_of_all(f.params), names_of_all(f.results));
            hides_parts(veil, names_of_all(g.params), names_of_all(g.results));
            lists_are_as_many(f.params, g.params, veil);
            lists_are_as_many(f.results, g.results, veil);
            if names(a) == names(b) {
                split_evenly(
                    names_of_all(f.params),
                    names_of_all(f.results),
                    names_of_all(g.params),
                    names_of_all(g.results),
                );
            }
        },
        Shape::Struct(s) => {
            fields_are_as_many(s.fields, b->Struct_0.fields, veil);
        },
        Shape::Enum(e) => {
            let g = b->Enum_0;
            subst_closed(*e.discriminant, veil);
            subst_closed(*g.discriminant, veil);
            variants_are_as_many(e.variants, g.variants, veil);
        },
        _ => {},
    }
}

proof fn split_evenly(
    a: Seq<Seq<char>>,
    b: Seq<Seq<char>>,
    c: Seq<Seq<char>>,
    d: Seq<Seq<char>>,
)
    requires
        a + b == c + d,
        a.len() == c.len(),
    ensures
        a == c,
        b == d,
{
    assert((a + b).take(a.len() as int) =~= a);
    assert((c + d).take(c.len() as int) =~= c);
    assert((a + b).skip(a.len() as int) =~= b);
    assert((c + d).skip(c.len() as int) =~= d);
}

proof fn lists_are_as_many(a: Seq<Shape>, b: Seq<Shape>, veil: Scope)
    requires
        forall|i: int| 0 <= i < a.len() ==> slotless(#[trigger] a[i]),
        forall|i: int| 0 <= i < b.len() ==> slotless(#[trigger] b[i]),
        hides(veil, names_of_all(a)),
        hides(veil, names_of_all(b)),
        subst_all(a, veil) == subst_all(b, veil),
    ensures
        names_of_all(a).len() == names_of_all(b).len(),
        names_of_all(a) == names_of_all(b) ==> a == b,
    decreases a,
{
    assert(subst_all(a, veil).len() == a.len());
    assert(subst_all(b, veil).len() == b.len());
    if a.len() == 0 {
        assert(a =~= b);
    } else {
        let x = a.drop_last();
        let y = b.drop_last();
        let u = a[a.len() - 1];
        let v = b[b.len() - 1];
        assert(subst_all(a, veil)[a.len() - 1] == subst_all(b, veil)[a.len() - 1]);
        assert(subst_all(x, veil) =~= subst_all(a, veil).drop_last());
        assert(subst_all(y, veil) =~= subst_all(b, veil).drop_last());
        hides_parts(veil, names_of_all(x), names(u));
        hides_parts(veil, names_of_all(y), names(v));
        lists_are_as_many(x, y, veil);
        names_are_as_many(u, v, veil);
        if names_of_all(a) == names_of_all(b) {
            split_evenly(names_of_all(x), names(u), names_of_all(y), names(v));
            assert(a =~= x.push(u));
            assert(b =~= y.push(v));
        }
    }
}

proof fn fields_are_as_many(a: Seq<FieldShape>, b: Seq<FieldShape>, veil: Scope)
    requires
        forall|i: int| 0 <= i < a.len() ==> slotless((#[trigger] a[i]).ty),
        forall|i: int| 0 <= i < b.len() ==> slotless((#[trigger] b[i]).ty),
        hides(veil, names_of_fields(a)),
        hides(veil, names_of_fields(b)),
        subst_fields(a, veil) == subst_fields(b, veil),
    ensures
        names_of_fields(a).len() == names_of_fields(b).len(),
        names_of_fields(a) == names_of_fields(b) ==> a == b,
    decreases a,
{
    assert(subst_fields(a, veil).len() == a.len());
    assert(subst_fields(b, veil).len() == b.len());
    if a.len() == 0 {
        assert(a =~= b);
    } else {
        let x = a.drop_last();
        let y = b.drop_last();
        let u = a[a.len() - 1];
        let v = b[b.len() - 1];
        assert(subst_fields(a, veil)[a.len() - 1] == subst_fields(b, veil)[a.len() - 1]);
        assert(subst_fields(x, veil) =~= subst_fields(a, veil).drop_last());
        assert(subst_fields(y, veil) =~= subst_fields(b, veil).drop_last());
        hides_parts(veil, names_of_fields(x), names(u.ty));
        hides_parts(veil, names_of_fields(y), names(v.ty));
        fields_are_as_many(x, y, veil);
        names_are_as_many(u.ty, v.ty, veil);
        if names_of_fields(a) == names_of_fields(b) {
            split_evenly(names_of_fields(x), names(u.ty), names_of_fields(y), names(v.ty));
            assert(a =~= x.push(u));
            assert(b =~= y.push(v));
        }
    }
}

proof fn variants_are_as_many(a: Seq<VariantShape>, b: Seq<VariantShape>, veil: Scope)
    requires
        forall|i: int|
            0 <= i < a.len() ==> ((#[trigger] a[i]).value matches Some(value) ==> slotless(value)),
        forall|i: int|
            0 <= i < b.len() ==> ((#[trigger] b[i]).value matches Some(value) ==> slotless(value)),
        hides(veil, names_of_variants(a)),
        hides(veil, names_of_variants(b)),
        subst_variants(a, veil) == subst_variants(b, veil),
    ensures
        names_of_variants(a).len() == names_of_variants(b).len(),
        names_of_variants(a) == names_of_variants(b) ==> a == b,
    decreases a,
{
    assert(subst_variants(a, veil).len() == a.len());
    assert(subst_variants(b, veil).len() == b.len());
    if a.len() == 0 {
        assert(a =~= b);
    } else {
        let x = a.drop_last();
        let y = b.drop_last();
        let u = a[a.len() - 1];
        let v = b[b.len() - 1];
        let none = Seq::<Seq<char>>::empty();
        assert(subst_variants(a, veil)[a.len() - 1] == subst_variants(b, veil)[a.len() - 1]);
        assert(subst_variants(x, veil) =~= subst_variants(a, veil).drop_last());
        assert(subst_variants(y, veil) =~= subst_variants(b, veil).drop_last());
        let of_u = match u.value {
            Some(value) => names(value),
            None => none,
        };
        let of_v = match v.value {
            Some(value) => names(value),
            None => none,
        };
        hides_parts(veil, names_of_variants(x), of_u);
        hides_parts(veil, names_of_variants(y), of_v);
        variants_are_as_many(x, y, veil);
        if u.value is Some {
            names_are_as_many(u.value->0, v.value->0, veil);
        }
        if names_of_variants(a) == names_of_variants(b) {
            split_evenly(names_of_variants(x), of_u, names_of_variants(y), of_v);
            assert(a =~= x.push(u));
            assert(b =~= y.push(v));
        }
    }
}

} // verus!
