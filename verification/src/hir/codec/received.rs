//! What is read is canonical.
use vstd::prelude::*;

use crate::hir::codec::parse::{
    assembled, at_depth, at_depth_parses, below, parse, parse_bodies, parse_closed, parse_compound,
    parse_entries, parse_entry, parse_enum, parse_field, parse_fields, parse_function, parse_group,
    parse_kinds, parse_open, parse_payload, parse_struct, parse_unfold, parse_variant,
    parse_variants, slot_keys, Inner, Input,
};
use crate::hir::codec::renaming::slotless;
use crate::hir::codec::written::{
    built_types_are_canonical, canonical_inside, closed_types_are_slotless, definable,
};
use crate::hir::recursive::invariance::what_builds_is_sound;
use crate::hir::recursive::rules::build;
use crate::hir::shape::{has_var, Shape};

verus! {

/// A type as it is read: its groups are canonical, and outside any group it is closed. Inside a
/// group, it names the definitions that it refers to.
pub open spec fn neat(t: Shape, group: Option<nat>) -> bool {
    &&& slotless(t)
    &&& canonical_inside(t)
    &&& group is None ==> !has_var(t)
}

/// Whatever is read is neat.
pub open spec fn reads_neat(inner: Inner) -> bool {
    forall|s: Input, group: Option<nat>| (#[trigger] inner(s, group)) matches Ok((t, _)) ==> neat(
        t,
        group,
    )
}

proof fn entries_are_neat(s: Input, inner: Inner, group: Option<nat>, total: nat, n: nat)
    requires
        reads_neat(inner),
    ensures
        parse_entries(s, inner, group, total, n) matches Ok((types, _)) ==> forall|i: int|
            0 <= i < types.len() ==> neat(#[trigger] types[i], group),
    decreases n,
{
    if n > 0 {
        entries_are_neat(s, inner, group, total, (n - 1) as nat);
        if let Ok((before, s)) = parse_entries(s, inner, group, total, (n - 1) as nat) {
            reveal(parse_entry);
            reveal(slotless);
            reveal(canonical_inside);
            reveal(has_var);
        }
    }
}

proof fn functions_are_neat(s: Input, inner: Inner, group: Option<nat>)
    requires
        reads_neat(inner),
    ensures
        parse_function(s, inner, group) matches Ok((f, _)) ==> neat(Shape::Function(f), group),
{
    reveal(parse_function);
    assert forall|s: Input, n: nat| #![trigger parse_entries(s, inner, group, n, n)]
        parse_entries(s, inner, group, n, n) matches Ok((types, _)) ==> forall|i: int|
            0 <= i < types.len() ==> neat(#[trigger] types[i], group) by {
        entries_are_neat(s, inner, group, n, n);
    }
    reveal(slotless);
    reveal(canonical_inside);
    reveal(has_var);
}

proof fn fields_are_neat(s: Input, inner: Inner, group: Option<nat>, n: nat)
    requires
        reads_neat(inner),
    ensures
        parse_fields(s, inner, group, n) matches Ok((fields, _)) ==> forall|i: int|
            0 <= i < fields.len() ==> neat((#[trigger] fields[i]).ty, group),
    decreases n,
{
    if n > 0 {
        fields_are_neat(s, inner, group, (n - 1) as nat);
        reveal(parse_field);
    }
}

proof fn structs_are_neat(s: Input, inner: Inner, group: Option<nat>)
    requires
        reads_neat(inner),
    ensures
        parse_struct(s, inner, group) matches Ok((f, _)) ==> neat(Shape::Struct(f), group),
{
    reveal(parse_struct);
    assert forall|s: Input, n: nat| (#[trigger] parse_fields(s, inner, group, n)) matches Ok(
        (fields, _),
    ) ==> forall|i: int| 0 <= i < fields.len() ==> neat((#[trigger] fields[i]).ty, group) by {
        fields_are_neat(s, inner, group, n);
    }
    reveal(slotless);
    reveal(canonical_inside);
    reveal(has_var);
}

proof fn variants_are_neat(s: Input, inner: Inner, group: Option<nat>, width: nat, n: nat)
    requires
        reads_neat(inner),
    ensures
        parse_variants(s, inner, group, width, n) matches Ok((variants, _)) ==> forall|i: int|
            0 <= i < variants.len() ==> ((#[trigger] variants[i]).value matches Some(value)
                ==> neat(value, group)),
    decreases n,
{
    if n > 0 {
        variants_are_neat(s, inner, group, width, (n - 1) as nat);
        reveal(parse_variant);
        reveal(parse_payload);
    }
}

proof fn enums_are_neat(s: Input, inner: Inner, group: Option<nat>)
    requires
        reads_neat(inner),
    ensures
        parse_enum(s, inner, group) matches Ok((e, _)) ==> neat(Shape::Enum(e), group),
{
    reveal(parse_enum);
    assert forall|s: Input, width: nat, n: nat|
        (#[trigger] parse_variants(s, inner, group, width, n)) matches Ok((variants, _))
            ==> forall|i: int|
            0 <= i < variants.len() ==> ((#[trigger] variants[i]).value matches Some(value)
                ==> neat(value, group)) by {
        variants_are_neat(s, inner, group, width, n);
    }
    reveal(slotless);
    reveal(canonical_inside);
    reveal(has_var);
}

pub proof fn kinds_are_counted(s: Input, n: nat)
    ensures
        parse_kinds(s, n) matches Ok((kinds, _)) ==> kinds.len() == n,
    decreases n,
{
    if n > 0 {
        kinds_are_counted(s, (n - 1) as nat);
    }
}

pub proof fn bodies_are_neat(s: Input, inner: Inner, kinds: Seq<bool>, n: nat)
    requires
        reads_neat(inner),
    ensures
        parse_bodies(s, inner, kinds, n) matches Ok((bodies, _)) ==> bodies.len() == n && definable(
            bodies,
        ),
    decreases n,
{
    if n > 0 {
        bodies_are_neat(s, inner, kinds, (n - 1) as nat);
        if let Ok((before, s)) = parse_bodies(s, inner, kinds, (n - 1) as nat) {
            enums_are_neat(s, inner, Some(kinds.len()));
            structs_are_neat(s, inner, Some(kinds.len()));
        }
    }
}

proof fn groups_are_neat(s: Input, inner: Inner)
    requires
        reads_neat(inner),
    ensures
        parse_group(s, inner) matches Ok((t, _)) ==> neat(t, None),
{
    reveal(parse_group);
    assert forall|s: Input, n: nat| (#[trigger] parse_kinds(s, n)) matches Ok((kinds, _))
        ==> kinds.len() == n by {
        kinds_are_counted(s, n);
    }
    assert forall|s: Input, kinds: Seq<bool>, n: nat|
        (#[trigger] parse_bodies(s, inner, kinds, n)) matches Ok((bodies, _)) ==> bodies.len() == n
            && definable(bodies) by {
        bodies_are_neat(s, inner, kinds, n);
    }
    assert forall|bodies: Seq<Shape>, root: nat|
        definable(bodies) && root < bodies.len() && (#[trigger] assembled(bodies, root))
            is Ok implies neat(assembled(bodies, root)->Ok_0, None) by {
        assembled_types_are_neat(bodies, root);
    }
}

proof fn assembled_types_are_neat(bodies: Seq<Shape>, root: nat)
    requires
        definable(bodies),
        root < bodies.len(),
        assembled(bodies, root) is Ok,
    ensures
        neat(assembled(bodies, root)->Ok_0, None),
{
    let keys = slot_keys(bodies.len());
    let built = build(keys, bodies)->Ok_0;
    what_builds_is_sound(keys, bodies);
    assert(built[root as int] is Some);
    built_types_are_canonical(keys, bodies, root as int);
    closed_types_are_slotless(built[root as int]->0);
}

proof fn compounds_are_neat(s: Input, tag: u8, inner: Inner, group: Option<nat>)
    requires
        reads_neat(inner),
    ensures
        parse_compound(s, tag, inner, group) matches Ok((t, _)) ==> neat(t, group),
{
    reveal(parse_compound);
    structs_are_neat(s, inner, group);
    functions_are_neat(s, inner, group);
    enums_are_neat(s, inner, group);
    reveal(slotless);
    reveal(canonical_inside);
    reveal(has_var);
}

proof fn closed_types_are_neat(s: Input, inner: Option<Inner>)
    requires
        inner matches Some(inner) ==> reads_neat(inner),
    ensures
        parse_closed(s, inner) matches Ok((t, _)) ==> neat(t, None),
{
    reveal(parse_closed);
    reveal(slotless);
    reveal(canonical_inside);
    reveal(has_var);
    if let Some(inner) = inner {
        assert forall|s: Input| (#[trigger] parse_group(s, inner)) matches Ok((t, _)) ==> neat(
            t,
            None,
        ) by {
            groups_are_neat(s, inner);
        }
        assert forall|s: Input, tag: u8|
            (#[trigger] parse_compound(s, tag, inner, None)) matches Ok((t, _)) ==> neat(
                t,
                None,
            ) by {
            compounds_are_neat(s, tag, inner, None);
        }
    }
}

/// Whatever is read has canonical groups only, so that a group in another order than the canonical
/// one is never read. Outside any group, what is read is closed.
pub proof fn what_is_read_is_canonical(s: Input, depth: nat, group: Option<nat>)
    ensures
        parse(s, depth, group) matches Ok((t, _)) ==> neat(t, group),
    decreases depth,
{
    parse_unfold(s, depth, group);
    let inner = below(depth);
    if depth > 0 {
        let before = (depth - 1) as nat;
        at_depth_parses(before);
        assert forall|s: Input, group: Option<nat>|
            (#[trigger] at_depth(before)(s, group)) matches Ok((t, _)) ==> neat(t, group) by {
            what_is_read_is_canonical(s, before, group);
        }
    }
    closed_types_are_neat(s, inner);
    if let Some(n) = group {
        reveal(parse_open);
        reveal(slotless);
        reveal(canonical_inside);
        if let Some(inner) = inner {
            assert forall|s: Input, tag: u8|
                (#[trigger] parse_compound(s, tag, inner, group)) matches Ok((t, _)) ==> neat(
                    t,
                    group,
                ) by {
                compounds_are_neat(s, tag, inner, group);
            }
        }
    }
}

} // verus!
