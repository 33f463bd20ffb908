//! Definitions of a group that are ordered alike are the same, but for what they refer to.
use vstd::prelude::*;
use vstd::utf8::{encode_utf8, encode_utf8_decode_utf8};

use crate::hir::codec::encode::{addrspace_tag, atom_tag};
use crate::hir::codec::rebuild::{keys_stand, members_are_listed, Part};
use crate::hir::codec::renaming::{names_after, names_left, slotless, stands};
use crate::hir::codec::written::closed_types_are_slotless;
use crate::hir::recursive::key::{body_name, decimal, key, order_key, widened};
use crate::hir::recursive::likeness::{hides, hides_parts, slotless_after, subst_twice};
use crate::hir::recursive::scope::{
    names, names_of_all, names_of_fields, names_of_variants, position, subst, subst_all,
    subst_closed, subst_fields, subst_unfold, subst_variants, Scope,
};
use crate::hir::recursive::spelling::{
    counted, spelled, spelled_abi, spelled_all, spelled_fields, spelled_label, spelled_repr,
    spelled_text, spelled_value, spelled_variants,
};
use crate::hir::shape::{has_var, AbiShape, FieldShape, Shape, TypeRepr, VariantShape};

verus! {

// ---------------------------------------------------------------------------------------------
// Numbers and texts
// ---------------------------------------------------------------------------------------------

/// What follows the same bytes is the same.
proof fn same_start(a: Seq<u8>, b: Seq<u8>, r: Seq<u8>, s: Seq<u8>)
    requires
        a + r == b + s,
        a.len() == b.len(),
    ensures
        a == b,
        r == s,
{
    assert((a + r).take(a.len() as int) =~= a);
    assert((b + s).take(b.len() as int) =~= b);
    assert((a + r).skip(a.len() as int) =~= r);
    assert((b + s).skip(b.len() as int) =~= s);
}

proof fn regroup(a: Seq<u8>, b: Seq<u8>, c: Seq<u8>)
    ensures
        a + b + c == a + (b + c),
{
    assert(a + b + c =~= a + (b + c));
}

/// The byte ends a number.
spec fn ends(r: Seq<u8>) -> bool {
    r.len() > 0 && r[0] == 93
}

proof fn decimals_are_digits(n: nat)
    ensures
        decimal(n).len() > 0,
        n >= 10 ==> decimal(n).len() > 1,
        forall|i: int| 0 <= i < decimal(n).len() ==> 48 <= #[trigger] decimal(n)[i] <= 57,
    decreases n,
{
    if n >= 10 {
        decimals_are_digits(n / 10);
    }
}

proof fn decimals_differ(n: nat, m: nat)
    requires
        decimal(n) == decimal(m),
    ensures
        n == m,
    decreases n,
{
    decimals_are_digits(n);
    decimals_are_digits(m);
    let a = decimal(n);
    let b = decimal(m);
    assert(a[a.len() - 1] == b[b.len() - 1]);
    if n >= 10 {
        assert(m >= 10);
        assert(a.drop_last() =~= decimal(n / 10));
        assert(b.drop_last() =~= decimal(m / 10));
        decimals_differ(n / 10, m / 10);
    }
}

proof fn decimals_end(n: nat, m: nat, r: Seq<u8>, s: Seq<u8>)
    requires
        decimal(n) + r == decimal(m) + s,
        ends(r),
        ends(s),
    ensures
        n == m,
        r == s,
{
    decimals_are_digits(n);
    decimals_are_digits(m);
    let a = decimal(n);
    let b = decimal(m);
    assert((a + r)[a.len() as int] == r[0]);
    assert((b + s)[b.len() as int] == s[0]);
    if a.len() < b.len() {
        assert((b + s)[a.len() as int] == b[a.len() as int]);
    }
    if b.len() < a.len() {
        assert((a + r)[b.len() as int] == a[b.len() as int]);
    }
    same_start(a, b, r, s);
    decimals_differ(n, m);
}

proof fn counts_end(n: nat, m: nat, r: Seq<u8>, s: Seq<u8>)
    requires
        counted(n) + r == counted(m) + s,
    ensures
        n == m,
        r == s,
{
    let close = seq![93u8];
    regroup(decimal(n), close, r);
    regroup(decimal(m), close, s);
    decimals_end(n, m, close + r, close + s);
    same_start(close, close, r, s);
}

proof fn texts_end(a: Seq<char>, b: Seq<char>, r: Seq<u8>, s: Seq<u8>)
    requires
        spelled_text(a) + r == spelled_text(b) + s,
    ensures
        a == b,
        r == s,
{
    let x = encode_utf8(a);
    let y = encode_utf8(b);
    regroup(counted(x.len()), x, r);
    regroup(counted(y.len()), y, s);
    counts_end(x.len(), y.len(), x + r, y + s);
    same_start(x, y, r, s);
    encode_utf8_decode_utf8(a);
    encode_utf8_decode_utf8(b);
}

proof fn labels_end(a: Option<Seq<char>>, b: Option<Seq<char>>, r: Seq<u8>, s: Seq<u8>)
    requires
        spelled_label(a) + r == spelled_label(b) + s,
    ensures
        a == b,
        r == s,
{
    let x = spelled_label(a) + r;
    let y = spelled_label(b) + s;
    assert(x[0] == spelled_label(a)[0] && y[0] == spelled_label(b)[0]);
    match a {
        Some(m) => {
            let n = b->0;
            regroup(seq![1u8], spelled_text(m), r);
            regroup(seq![1u8], spelled_text(n), s);
            same_start(seq![1u8], seq![1u8], spelled_text(m) + r, spelled_text(n) + s);
            texts_end(m, n, r, s);
        },
        None => {
            same_start(seq![0u8], seq![0u8], r, s);
        },
    }
}

proof fn values_end(a: Option<u128>, b: Option<u128>, r: Seq<u8>, s: Seq<u8>)
    requires
        spelled_value(a) + r == spelled_value(b) + s,
    ensures
        a == b,
        r == s,
{
    let x = spelled_value(a) + r;
    let y = spelled_value(b) + s;
    assert(x[0] == spelled_value(a)[0] && y[0] == spelled_value(b)[0]);
    match a {
        Some(m) => {
            let n = b->0;
            regroup(seq![1u8], counted(m as nat), r);
            regroup(seq![1u8], counted(n as nat), s);
            same_start(seq![1u8], seq![1u8], counted(m as nat) + r, counted(n as nat) + s);
            counts_end(m as nat, n as nat, r, s);
        },
        None => {
            same_start(seq![0u8], seq![0u8], r, s);
        },
    }
}

proof fn reprs_end(a: TypeRepr, b: TypeRepr, r: Seq<u8>, s: Seq<u8>)
    requires
        spelled_repr(a) + r == spelled_repr(b) + s,
    ensures
        a == b,
        r == s,
{
    let x = spelled_repr(a) + r;
    let y = spelled_repr(b) + s;
    assert(x[0] == spelled_repr(a)[0] && y[0] == spelled_repr(b)[0]);
    match a {
        TypeRepr::Align(m) => {
            let n = b->Align_0;
            regroup(seq![1u8], counted(m as nat), r);
            regroup(seq![1u8], counted(n as nat), s);
            same_start(seq![1u8], seq![1u8], counted(m as nat) + r, counted(n as nat) + s);
            counts_end(m as nat, n as nat, r, s);
        },
        TypeRepr::Packed(m) => {
            let n = b->Packed_0;
            regroup(seq![2u8], counted(m as nat), r);
            regroup(seq![2u8], counted(n as nat), s);
            same_start(seq![2u8], seq![2u8], counted(m as nat) + r, counted(n as nat) + s);
            counts_end(m as nat, n as nat, r, s);
        },
        _ => {
            same_start(spelled_repr(a), spelled_repr(b), r, s);
        },
    }
}

proof fn conventions_end(a: AbiShape, b: AbiShape, r: Seq<u8>, s: Seq<u8>)
    requires
        spelled_abi(a) + r == spelled_abi(b) + s,
    ensures
        a == b,
        r == s,
{
    let x = spelled_abi(a) + r;
    let y = spelled_abi(b) + s;
    assert(x[0] == spelled_abi(a)[0] && y[0] == spelled_abi(b)[0]);
    match a {
        AbiShape::Extern(m) => {
            let n = b->Extern_0;
            regroup(seq![4u8], spelled_text(m), r);
            regroup(seq![4u8], spelled_text(n), s);
            same_start(seq![4u8], seq![4u8], spelled_text(m) + r, spelled_text(n) + s);
            texts_end(m, n, r, s);
        },
        _ => {
            same_start(spelled_abi(a), spelled_abi(b), r, s);
        },
    }
}

// ---------------------------------------------------------------------------------------------
// Spellings
// ---------------------------------------------------------------------------------------------

/// The type has no parts.
pub open spec fn is_atom(t: Shape) -> bool {
    match t {
        Shape::Var(_)
        | Shape::Name(_)
        | Shape::Ptr(_, _)
        | Shape::Array(_, _)
        | Shape::List(_)
        | Shape::Function(_)
        | Shape::Struct(_)
        | Shape::Enum(_)
        | Shape::Rec(_, _) => false,
        _ => true,
    }
}

/// The byte that a spelling begins with.
spec fn head(t: Shape, hidden: bool) -> u8 {
    match t {
        Shape::Var(_) => if hidden {
            0
        } else {
            1
        },
        Shape::Name(_) => if hidden {
            0
        } else {
            2
        },
        Shape::Ptr(_, _) => 3,
        Shape::Array(_, _) => 4,
        Shape::List(_) => 5,
        Shape::Function(_) => 6,
        Shape::Struct(_) => 7,
        Shape::Enum(_) => 8,
        Shape::Rec(_, _) => 9,
        _ => (10 + atom_tag(t)) as u8,
    }
}

/// What a spelling goes on with.
spec fn tail(t: Shape, hidden: bool) -> Seq<u8> {
    match t {
        Shape::Var(i) => if hidden {
            Seq::empty()
        } else {
            counted(i)
        },
        Shape::Name(key) => if hidden {
            Seq::empty()
        } else {
            spelled_text(key)
        },
        Shape::Ptr(addrspace, pointee) => seq![addrspace_tag(addrspace)] + spelled(
            *pointee,
            hidden,
        ),
        Shape::Array(element, n) => counted(n) + spelled(*element, hidden),
        Shape::List(element) => spelled(*element, hidden),
        Shape::Function(f) => spelled_abi(f.abi) + (counted(f.params.len()) + (counted(
            f.results.len(),
        ) + (spelled_all(f.params, hidden) + spelled_all(f.results, hidden)))),
        Shape::Struct(s) => spelled_label(s.name) + (spelled_repr(s.repr) + (counted(s.fields.len())
            + spelled_fields(s.fields, hidden))),
        Shape::Enum(e) => spelled_text(e.name) + (spelled(*e.discriminant, false) + (counted(
            e.variants.len(),
        ) + spelled_variants(e.variants, hidden))),
        Shape::Rec(definitions, i) => counted(i) + (counted(definitions.len()) + spelled_all(
            definitions,
            false,
        )),
        _ => Seq::empty(),
    }
}

proof fn heads_come_first(t: Shape, hidden: bool, r: Seq<u8>)
    ensures
        spelled(t, hidden) + r == seq![head(t, hidden)] + (tail(t, hidden) + r),
{
    assert(spelled(t, hidden) =~= seq![head(t, hidden)] + tail(t, hidden));
    regroup(seq![head(t, hidden)], tail(t, hidden), r);
}

/// Types with the same spelling are the same, where the names are hidden if the spelling hides
/// them, and what follows the spellings is the same.
proof fn spellings_are_exact(
    a: Shape,
    b: Shape,
    r: Seq<u8>,
    s: Seq<u8>,
    hidden: bool,
    veil: Scope,
)
    requires
        hidden ==> slotless(a) && slotless(b) && hides(veil, names(a)) && hides(veil, names(b)),
        spelled(a, hidden) + r == spelled(b, hidden) + s,
    ensures
        r == s,
        hidden ==> subst(a, veil) == subst(b, veil),
        !hidden ==> a == b,
    decreases a,
{
    reveal(slotless);
    heads_come_first(a, hidden, r);
    heads_come_first(b, hidden, s);
    let u = tail(a, hidden) + r;
    let v = tail(b, hidden) + s;
    same_start(seq![head(a, hidden)], seq![head(b, hidden)], u, v);
    assert(seq![head(a, hidden)][0] == seq![head(b, hidden)][0]);
    if hidden {
        subst_unfold(a, veil);
        subst_unfold(b, veil);
    }
    match a {
        Shape::Var(i) => {
            if !hidden {
                counts_end(i, b->Var_0, r, s);
            }
        },
        Shape::Name(m) => {
            if hidden {
                assert(names(a)[0] == m);
                assert(names(a).contains(m));
                let n = b->Name_0;
                assert(names(b)[0] == n);
                assert(names(b).contains(n));
                assert(u =~= r && v =~= s);
            } else {
                texts_end(m, b->Name_0, r, s);
            }
        },
        Shape::Ptr(m, pointee) => {
            let n = b->Ptr_0;
            let other = b->Ptr_1;
            regroup(seq![addrspace_tag(m)], spelled(*pointee, hidden), r);
            regroup(seq![addrspace_tag(n)], spelled(*other, hidden), s);
            same_start(
                seq![addrspace_tag(m)],
                seq![addrspace_tag(n)],
                spelled(*pointee, hidden) + r,
                spelled(*other, hidden) + s,
            );
            assert(seq![addrspace_tag(m)][0] == seq![addrspace_tag(n)][0]);
            spellings_are_exact(*pointee, *other, r, s, hidden, veil);
        },
        Shape::Array(element, m) => {
            let n = b->Array_1;
            let other = b->Array_0;
            regroup(counted(m), spelled(*element, hidden), r);
            regroup(counted(n), spelled(*other, hidden), s);
            counts_end(m, n, spelled(*element, hidden) + r, spelled(*other, hidden) + s);
            spellings_are_exact(*element, *other, r, s, hidden, veil);
        },
        Shape::List(element) => {
            spellings_are_exact(*element, *b->List_0, r, s, hidden, veil);
        },
        Shape::Function(f) => {
            let g = b->Function_0;
            let u0 = spelled_all(f.results, hidden) + r;
            let v0 = spelled_all(g.results, hidden) + s;
            let u1 = spelled_all(f.params, hidden) + u0;
            let v1 = spelled_all(g.params, hidden) + v0;
            let u2 = counted(f.results.len()) + u1;
            let v2 = counted(g.results.len()) + v1;
            let u3 = counted(f.params.len()) + u2;
            let v3 = counted(g.params.len()) + v2;
            function_tail(a, hidden, r);
            function_tail(b, hidden, s);
            conventions_end(f.abi, g.abi, u3, v3);
            counts_end(f.params.len(), g.params.len(), u2, v2);
            counts_end(f.results.len(), g.results.len(), u1, v1);
            if hidden {
                hides_parts(veil, names_of_all(f.params), names_of_all(f.results));
                hides_parts(veil, names_of_all(g.params), names_of_all(g.results));
            }
            list_spellings_are_exact(f.params, g.params, u0, v0, hidden, veil);
            list_spellings_are_exact(f.results, g.results, r, s, hidden, veil);
        },
        Shape::Struct(f) => {
            let g = b->Struct_0;
            let u0 = spelled_fields(f.fields, hidden) + r;
            let v0 = spelled_fields(g.fields, hidden) + s;
            let u1 = counted(f.fields.len()) + u0;
            let v1 = counted(g.fields.len()) + v0;
            struct_tail(a, hidden, r);
            struct_tail(b, hidden, s);
            labels_end(f.name, g.name, spelled_repr(f.repr) + u1, spelled_repr(g.repr) + v1);
            reprs_end(f.repr, g.repr, u1, v1);
            counts_end(f.fields.len(), g.fields.len(), u0, v0);
            field_spellings_are_exact(f.fields, g.fields, r, s, hidden, veil);
        },
        Shape::Enum(f) => {
            let g = b->Enum_0;
            let u0 = spelled_variants(f.variants, hidden) + r;
            let v0 = spelled_variants(g.variants, hidden) + s;
            let u1 = counted(f.variants.len()) + u0;
            let v1 = counted(g.variants.len()) + v0;
            enum_tail(a, hidden, r);
            enum_tail(b, hidden, s);
            texts_end(
                f.name,
                g.name,
                spelled(*f.discriminant, false) + u1,
                spelled(*g.discriminant, false) + v1,
            );
            spellings_are_exact(*f.discriminant, *g.discriminant, u1, v1, false, veil);
            counts_end(f.variants.len(), g.variants.len(), u0, v0);
            variant_spellings_are_exact(f.variants, g.variants, r, s, hidden, veil);
        },
        Shape::Rec(definitions, i) => {
            let others = b->Rec_0;
            let j = b->Rec_1;
            let u0 = spelled_all(definitions, false) + r;
            let v0 = spelled_all(others, false) + s;
            regroup(counted(i), counted(definitions.len()) + spelled_all(definitions, false), r);
            regroup(counted(definitions.len()), spelled_all(definitions, false), r);
            regroup(counted(j), counted(others.len()) + spelled_all(others, false), s);
            regroup(counted(others.len()), spelled_all(others, false), s);
            counts_end(i, j, counted(definitions.len()) + u0, counted(others.len()) + v0);
            counts_end(definitions.len(), others.len(), u0, v0);
            list_spellings_are_exact(definitions, others, r, s, false, veil);
        },
        _ => {
            assert(is_atom(b));
            assert(u =~= r && v =~= s);
        },
    }
}

proof fn function_tail(t: Shape, hidden: bool, r: Seq<u8>)
    requires
        t is Function,
    ensures
        ({
            let f = t->Function_0;
            tail(t, hidden) + r == spelled_abi(f.abi) + (counted(f.params.len()) + (counted(
                f.results.len(),
            ) + (spelled_all(f.params, hidden) + (spelled_all(f.results, hidden) + r))))
        }),
{
    let f = t->Function_0;
    let d = spelled_all(f.params, hidden);
    let e = spelled_all(f.results, hidden);
    let c = counted(f.results.len());
    let b = counted(f.params.len());
    regroup(spelled_abi(f.abi), b + (c + (d + e)), r);
    regroup(b, c + (d + e), r);
    regroup(c, d + e, r);
    regroup(d, e, r);
}

proof fn struct_tail(t: Shape, hidden: bool, r: Seq<u8>)
    requires
        t is Struct,
    ensures
        ({
            let f = t->Struct_0;
            tail(t, hidden) + r == spelled_label(f.name) + (spelled_repr(f.repr) + (counted(
                f.fields.len(),
            ) + (spelled_fields(f.fields, hidden) + r)))
        }),
{
    let f = t->Struct_0;
    let d = spelled_fields(f.fields, hidden);
    let c = counted(f.fields.len());
    let b = spelled_repr(f.repr);
    regroup(spelled_label(f.name), b + (c + d), r);
    regroup(b, c + d, r);
    regroup(c, d, r);
}

proof fn enum_tail(t: Shape, hidden: bool, r: Seq<u8>)
    requires
        t is Enum,
    ensures
        ({
            let f = t->Enum_0;
            tail(t, hidden) + r == spelled_text(f.name) + (spelled(*f.discriminant, false) + (
            counted(f.variants.len()) + (spelled_variants(f.variants, hidden) + r)))
        }),
{
    let f = t->Enum_0;
    let d = spelled_variants(f.variants, hidden);
    let c = counted(f.variants.len());
    let b = spelled(*f.discriminant, false);
    regroup(spelled_text(f.name), b + (c + d), r);
    regroup(b, c + d, r);
    regroup(c, d, r);
}

proof fn list_spellings_are_exact(
    a: Seq<Shape>,
    b: Seq<Shape>,
    r: Seq<u8>,
    s: Seq<u8>,
    hidden: bool,
    veil: Scope,
)
    requires
        a.len() == b.len(),
        hidden ==> forall|i: int| 0 <= i < a.len() ==> slotless(#[trigger] a[i]),
        hidden ==> forall|i: int| 0 <= i < b.len() ==> slotless(#[trigger] b[i]),
        hidden ==> hides(veil, names_of_all(a)) && hides(veil, names_of_all(b)),
        spelled_all(a, hidden) + r == spelled_all(b, hidden) + s,
    ensures
        r == s,
        hidden ==> subst_all(a, veil) == subst_all(b, veil),
        !hidden ==> a == b,
    decreases a,
{
    if a.len() == 0 {
        assert(spelled_all(a, hidden) + r =~= r);
        assert(spelled_all(b, hidden) + s =~= s);
        assert(subst_all(a, veil) =~= subst_all(b, veil));
        assert(a =~= b);
    } else {
        let x = a.drop_last();
        let y = b.drop_last();
        let u = a[a.len() - 1];
        let v = b[b.len() - 1];
        regroup(spelled_all(x, hidden), spelled(u, hidden), r);
        regroup(spelled_all(y, hidden), spelled(v, hidden), s);
        if hidden {
            hides_parts(veil, names_of_all(x), names(u));
            hides_parts(veil, names_of_all(y), names(v));
        }
        list_spellings_are_exact(
            x,
            y,
            spelled(u, hidden) + r,
            spelled(v, hidden) + s,
            hidden,
            veil,
        );
        spellings_are_exact(u, v, r, s, hidden, veil);
        assert(subst_all(a, veil) =~= subst_all(x, veil).push(subst(u, veil)));
        assert(subst_all(b, veil) =~= subst_all(y, veil).push(subst(v, veil)));
        assert(a =~= x.push(u));
        assert(b =~= y.push(v));
    }
}

proof fn field_spellings_are_exact(
    a: Seq<FieldShape>,
    b: Seq<FieldShape>,
    r: Seq<u8>,
    s: Seq<u8>,
    hidden: bool,
    veil: Scope,
)
    requires
        a.len() == b.len(),
        hidden ==> forall|i: int| 0 <= i < a.len() ==> slotless((#[trigger] a[i]).ty),
        hidden ==> forall|i: int| 0 <= i < b.len() ==> slotless((#[trigger] b[i]).ty),
        hidden ==> hides(veil, names_of_fields(a)) && hides(veil, names_of_fields(b)),
        spelled_fields(a, hidden) + r == spelled_fields(b, hidden) + s,
    ensures
        r == s,
        hidden ==> subst_fields(a, veil) == subst_fields(b, veil),
        !hidden ==> a == b,
    decreases a,
{
    if a.len() == 0 {
        assert(spelled_fields(a, hidden) + r =~= r);
        assert(spelled_fields(b, hidden) + s =~= s);
        assert(subst_fields(a, veil) =~= subst_fields(b, veil));
        assert(a =~= b);
    } else {
        let x = a.drop_last();
        let y = b.drop_last();
        let u = a[a.len() - 1];
        let v = b[b.len() - 1];
        let u0 = spelled(u.ty, hidden) + r;
        let v0 = spelled(v.ty, hidden) + s;
        regroup(spelled_fields(x, hidden), spelled_label(u.name) + spelled(u.ty, hidden), r);
        regroup(spelled_label(u.name), spelled(u.ty, hidden), r);
        regroup(spelled_fields(y, hidden), spelled_label(v.name) + spelled(v.ty, hidden), s);
        regroup(spelled_label(v.name), spelled(v.ty, hidden), s);
        if hidden {
            hides_parts(veil, names_of_fields(x), names(u.ty));
            hides_parts(veil, names_of_fields(y), names(v.ty));
        }
        field_spellings_are_exact(
            x,
            y,
            spelled_label(u.name) + u0,
            spelled_label(v.name) + v0,
            hidden,
            veil,
        );
        labels_end(u.name, v.name, u0, v0);
        spellings_are_exact(u.ty, v.ty, r, s, hidden, veil);
        assert(subst_fields(a, veil) =~= subst_fields(x, veil).push(
            FieldShape { name: u.name, ty: subst(u.ty, veil) },
        ));
        assert(subst_fields(b, veil) =~= subst_fields(y, veil).push(
            FieldShape { name: v.name, ty: subst(v.ty, veil) },
        ));
        assert(a =~= x.push(u));
        assert(b =~= y.push(v));
    }
}

/// The spelling of what a variant holds.
spec fn spelled_payload(value: Option<Shape>, hidden: bool) -> Seq<u8> {
    match value {
        Some(value) => seq![1u8] + spelled(value, hidden),
        None => seq![0u8],
    }
}

spec fn payload_names(value: Option<Shape>) -> Seq<Seq<char>> {
    match value {
        Some(value) => names(value),
        None => Seq::empty(),
    }
}

proof fn variant_spellings_are_exact(
    a: Seq<VariantShape>,
    b: Seq<VariantShape>,
    r: Seq<u8>,
    s: Seq<u8>,
    hidden: bool,
    veil: Scope,
)
    requires
        a.len() == b.len(),
        hidden ==> forall|i: int|
            0 <= i < a.len() ==> ((#[trigger] a[i]).value matches Some(value) ==> slotless(value)),
        hidden ==> forall|i: int|
            0 <= i < b.len() ==> ((#[trigger] b[i]).value matches Some(value) ==> slotless(value)),
        hidden ==> hides(veil, names_of_variants(a)) && hides(veil, names_of_variants(b)),
        spelled_variants(a, hidden) + r == spelled_variants(b, hidden) + s,
    ensures
        r == s,
        hidden ==> subst_variants(a, veil) == subst_variants(b, veil),
        !hidden ==> a == b,
    decreases a,
{
    if a.len() == 0 {
        assert(spelled_variants(a, hidden) + r =~= r);
        assert(spelled_variants(b, hidden) + s =~= s);
        assert(subst_variants(a, veil) =~= subst_variants(b, veil));
        assert(a =~= b);
    } else {
        let x = a.drop_last();
        let y = b.drop_last();
        let u = a[a.len() - 1];
        let v = b[b.len() - 1];
        let u0 = spelled_payload(u.value, hidden) + r;
        let v0 = spelled_payload(v.value, hidden) + s;
        let u1 = spelled_value(u.discriminant_value) + u0;
        let v1 = spelled_value(v.discriminant_value) + v0;
        assert(a =~= x.push(u));
        assert(b =~= y.push(v));
        variant_parts(x, u, hidden, r);
        variant_parts(y, v, hidden, s);
        if hidden {
            hides_parts(veil, names_of_variants(x), payload_names(u.value));
            hides_parts(veil, names_of_variants(y), payload_names(v.value));
        }
        variant_spellings_are_exact(
            x,
            y,
            spelled_text(u.name) + u1,
            spelled_text(v.name) + v1,
            hidden,
            veil,
        );
        texts_end(u.name, v.name, u1, v1);
        values_end(u.discriminant_value, v.discriminant_value, u0, v0);
        assert(u0[0] == spelled_payload(u.value, hidden)[0]);
        assert(v0[0] == spelled_payload(v.value, hidden)[0]);
        match u.value {
            Some(m) => {
                let n = v.value->0;
                regroup(seq![1u8], spelled(m, hidden), r);
                regroup(seq![1u8], spelled(n, hidden), s);
                same_start(seq![1u8], seq![1u8], spelled(m, hidden) + r, spelled(n, hidden) + s);
                spellings_are_exact(m, n, r, s, hidden, veil);
            },
            None => {
                same_start(seq![0u8], seq![0u8], r, s);
            },
        }
        assert(subst_variants(a, veil) =~= subst_variants(x, veil).push(
            subst_variants(a, veil)[a.len() - 1],
        ));
        assert(subst_variants(b, veil) =~= subst_variants(y, veil).push(
            subst_variants(b, veil)[b.len() - 1],
        ));
    }
}

proof fn variant_parts(before: Seq<VariantShape>, last: VariantShape, hidden: bool, r: Seq<u8>)
    ensures
        spelled_variants(before.push(last), hidden) + r == spelled_variants(before, hidden) + (
        spelled_text(last.name) + (spelled_value(last.discriminant_value) + (spelled_payload(
            last.value,
            hidden,
        ) + r))),
{
    let all = before.push(last);
    assert(all.drop_last() =~= before);
    let a = spelled_text(last.name);
    let b = spelled_value(last.discriminant_value);
    let c = spelled_payload(last.value, hidden);
    assert(spelled_variants(all, hidden) == spelled_variants(before, hidden) + (a + (b + c)));
    regroup(spelled_variants(before, hidden), a + (b + c), r);
    regroup(a, b + c, r);
    regroup(b, c, r);
}

// ---------------------------------------------------------------------------------------------
// Definitions
// ---------------------------------------------------------------------------------------------

/// What is left of known names are keys of members.
proof fn members_are_left(x: Part, found: Seq<Seq<char>>)
    requires
        x.wf(),
        forall|key: Seq<char>| #[trigger] found.contains(key) ==> x.knows(key),
    ensures
        hides(x.veil(), names_left(found, x.plain())),
    decreases found.len(),
{
    let left = names_left(found, x.plain());
    if found.len() > 0 {
        let rest = found.drop_last();
        let last = found[found.len() - 1];
        let before = names_left(rest, x.plain());
        assert forall|key: Seq<char>| #[trigger] rest.contains(key) implies x.knows(key) by {
            let j = rest.index_of(key);
            assert(found[j] == key);
            assert(found.contains(key));
        }
        members_are_left(x, rest);
        assert(found.contains(last));
        keys_stand(x, last);
        let i = position(x.keys, last, 0)->0;
        assert forall|key: Seq<char>| #[trigger] left.contains(key) implies stands(x.veil(), key)
            == Shape::Var(0) by {
            let j = left.index_of(key);
            if j < before.len() {
                assert(before[j] == key);
                assert(before.contains(key));
            } else {
                assert(names(stands(x.plain(), last))[j - before.len()] == key);
                assert(x.members().contains(i));
                assert(key == last);
            }
        }
    }
}

proof fn veiled(x: Part, p: int)
    requires
        x.wf(),
        x.complete(),
        0 <= p < x.members().len(),
    ensures
        slotless(subst(x.body(p), x.plain())),
        hides(x.veil(), names(subst(x.body(p), x.plain()))),
        subst(subst(x.body(p), x.plain()), x.veil()) == subst(x.body(p), x.veil()),
{
    members_are_listed(x);
    let t = x.body(p);
    assert(slotless(x.bodies[x.members()[p]]));
    assert forall|key: Seq<char>| slotless(#[trigger] stands(x.plain(), key)) by {
        reveal(slotless);
        keys_stand(x, key);
        if !has_var(stands(x.plain(), key)) {
            closed_types_are_slotless(stands(x.plain(), key));
        }
    }
    slotless_after(t, x.plain());
    names_after(t, x.plain());
    assert forall|key: Seq<char>| #[trigger] names(t).contains(key) implies x.knows(key) by {
        assert(names(x.body(p)).contains(key));
    }
    members_are_left(x, names(t));
    assert forall|key: Seq<char>| #![trigger stands(x.veil(), key)] names(t).contains(key) implies
        subst(stands(x.plain(), key), x.veil()) == stands(x.veil(), key) by {
        assert(names(x.body(p)).contains(key));
        assert(x.knows(key));
        keys_stand(x, key);
        let i = position(x.keys, key, 0)->0;
        if x.members().contains(i) {
            subst_unfold(Shape::Name(key), x.veil());
        } else {
            assert(x.done[i] is Some);
            subst_closed(x.done[i]->0, x.veil());
        }
    }
    subst_twice(t, x.plain(), x.veil(), x.veil());
}

/// Aggregates that are ordered alike have the same spelling.
proof fn orders_hold_spellings(u: Shape, v: Shape)
    requires
        order_key(u) == order_key(v),
    ensures
        spelled(u, true) == spelled(v, true),
{
    let a = order_key(u);
    let b = order_key(v);
    let front_a = name_order(body_name(u));
    let front_b = name_order(body_name(v));
    assert(a[0] == front_a[0]);
    assert(b[0] == front_b[0]);
    assert(body_name(u) is Some == body_name(v) is Some);
    if let (Some(m), Some(n)) = (body_name(u), body_name(v)) {
        let m = encode_utf8(m);
        let n = encode_utf8(n);
        assert(a[m.len() + 1int] == 0);
        assert(b[n.len() + 1int] == 0);
        if m.len() < n.len() {
            assert(b[m.len() + 1int] == widened(n, 1)[m.len() as int]);
        }
        if n.len() < m.len() {
            assert(a[n.len() + 1int] == widened(m, 1)[n.len() as int]);
        }
    }
    let start: int = front_a.len() + 1int;
    assert(front_a.len() == front_b.len());
    let x = key(u);
    let y = key(v);
    assert(a[start + x.len()] == 0);
    assert(b[start + y.len()] == 0);
    if x.len() < y.len() {
        assert(b[start + x.len()] == widened(y, 1)[x.len() as int]);
    }
    if y.len() < x.len() {
        assert(a[start + y.len()] == widened(x, 1)[y.len() as int]);
    }
    let from = start + x.len() + 1;
    let p = spelled(u, true);
    let q = spelled(v, true);
    assert(a.len() == from + p.len());
    assert(b.len() == from + q.len());
    assert forall|i: int| 0 <= i < p.len() implies #[trigger] p[i] == q[i] by {
        assert(a[from + i] == widened(p, 0)[i]);
        assert(b[from + i] == widened(q, 0)[i]);
    }
    assert(p =~= q);
}

spec fn name_order(name: Option<Seq<char>>) -> Seq<u16> {
    match name {
        Some(name) => seq![1u16] + widened(encode_utf8(name), 1) + seq![0u16],
        None => seq![0u16],
    }
}

/// Members of a component that are ordered alike are the same definition, but for the members that
/// they refer to.
pub proof fn orders_tell_members_apart(x: Part)
    requires
        x.wf(),
        x.complete(),
    ensures
        x.told_apart(),
{
    members_are_listed(x);
    assert forall|p: int, q: int|
        0 <= p < x.members().len() && 0 <= q < x.members().len() && #[trigger] x.order_keys()[p]
            == #[trigger] x.order_keys()[q] implies subst(x.body(p), x.veil()) == subst(
        x.body(q),
        x.veil(),
    ) by {
        veiled(x, p);
        veiled(x, q);
        let u = subst(x.body(p), x.plain());
        let v = subst(x.body(q), x.plain());
        orders_hold_spellings(u, v);
        let none = Seq::<u8>::empty();
        assert(spelled(u, true) + none == spelled(v, true) + none);
        spellings_are_exact(u, v, none, none, true, x.veil());
    }
}

} // verus!
