//! What is read can be written, and reads back as itself.
use vstd::prelude::*;
use vstd::utf8::{decode_utf8_encode_utf8, valid_utf8};

use crate::hir::codec::bytes::{from_le, from_le_bounded, pow256, pow256_values};
use crate::hir::codec::canonical::{canonical, own_references, renamed_all};
use crate::hir::codec::encode::{discriminant_width, enc, TAG_RECURSIVE_REF};
use crate::hir::codec::parse::{
    assembled, at_depth, at_depth_parses, below, order_fault, parse, parse_abi, parse_atom,
    parse_bodies, parse_bytes, parse_closed, parse_compound, parse_counted, parse_discriminant,
    parse_entries, parse_entry, parse_enum, parse_field, parse_fields, parse_function, parse_group,
    parse_kinds, parse_label, parse_open, parse_payload, parse_struct, parse_text, parse_unfold,
    parse_variant, parse_variants, slot_key, slot_keys, Counted, DecodeFault, Inner, Input,
    MAX_TYPE_NESTING,
};
use crate::hir::codec::rebuild::{classes_have_members, members_are_listed, slot_stands};
use crate::hir::codec::received::{
    bodies_are_neat, kinds_are_counted, neat, reads_neat, what_is_read_is_canonical,
};
use crate::hir::codec::round_trip::{
    abi_fits, all_read_as, behind, fields_read_as, label_fits, offers, parts_read_as, read_as,
    readable, reads_type, text_fits, value_fits, variant_read_as, variants_read_as,
};
use crate::hir::codec::written::left_over;
use crate::hir::enum_rules::is_discriminant;
use crate::hir::metrics::metrics;
use crate::hir::recursive::graph::{components_cover, square};
use crate::hir::recursive::invariance::{
    builds, built_before, built_types_stay, groups_of, open_definitions, part_at, parts_are_groups,
    stages_follow, stages_stand, what_builds_is_sound,
};
use crate::hir::recursive::rules::{build, is_recursive, mention_graph};
use crate::hir::recursive::scope::{subst, subst_unfold, Scope};
use crate::hir::shape::{EnumShape, FieldShape, FunctionShape, Shape, StructShape, VariantShape};
use crate::hir::types::MAX_RECURSIVE_GROUP_SIZE;

verus! {

/// What the keys of a group of `n` stand for in what was written: its definitions.
pub open spec fn slots(n: nat) -> Scope {
    Scope { keys: slot_keys(n), values: Seq::new(n, |i: int| Some(Shape::Var(i as nat))) }
}

/// What a type that was read was written as: inside a group, names of definitions were
/// back-references.
pub open spec fn back(t: Shape, group: Option<nat>) -> Shape {
    match group {
        None => t,
        Some(n) => subst(t, slots(n)),
    }
}

pub open spec fn all_back(types: Seq<Shape>, group: Option<nat>) -> Seq<Shape> {
    Seq::new(types.len(), |i: int| back(types[i], group))
}

pub open spec fn fields_back(fields: Seq<FieldShape>, group: Option<nat>) -> Seq<FieldShape> {
    Seq::new(
        fields.len(),
        |i: int| FieldShape { name: fields[i].name, ty: back(fields[i].ty, group) },
    )
}

pub open spec fn variants_back(
    variants: Seq<VariantShape>,
    group: Option<nat>,
) -> Seq<VariantShape> {
    Seq::new(
        variants.len(),
        |i: int|
            VariantShape {
                name: variants[i].name,
                value: match variants[i].value {
                    Some(value) => Some(back(value, group)),
                    None => None,
                },
                discriminant_value: variants[i].discriminant_value,
            },
    )
}

/// What a type was written as, in terms of its parts.
proof fn parts_go_back(t: Shape, group: Option<nat>)
    ensures
        match t {
            Shape::Ptr(addrspace, pointee) => back(t, group) == Shape::Ptr(
                addrspace,
                Box::new(back(*pointee, group)),
            ),
            Shape::Array(element, n) => back(t, group) == Shape::Array(
                Box::new(back(*element, group)),
                n,
            ),
            Shape::List(element) => back(t, group) == Shape::List(Box::new(back(*element, group))),
            Shape::Function(f) => back(t, group) == Shape::Function(
                FunctionShape {
                    abi: f.abi,
                    params: all_back(f.params, group),
                    results: all_back(f.results, group),
                },
            ),
            Shape::Struct(s) => back(t, group) == Shape::Struct(
                StructShape { name: s.name, repr: s.repr, fields: fields_back(s.fields, group) },
            ),
            Shape::Enum(e) => is_discriminant(*e.discriminant) ==> back(t, group) == Shape::Enum(
                EnumShape {
                    name: e.name,
                    discriminant: e.discriminant,
                    variants: variants_back(e.variants, group),
                },
            ),
            Shape::Name(_) => true,
            _ => back(t, group) == t,
        },
{
    if let Some(n) = group {
        subst_unfold(t, slots(n));
    }
    match t {
        Shape::Function(f) => {
            let made = back(t, group)->Function_0;
            assert(made.params =~= all_back(f.params, group));
            assert(made.results =~= all_back(f.results, group));
        },
        Shape::Struct(s) => {
            assert(back(t, group)->Struct_0.fields =~= fields_back(s.fields, group));
        },
        Shape::Enum(e) => {
            if let Some(n) = group {
                subst_unfold(*e.discriminant, slots(n));
            }
            assert forall|i: int| 0 <= i < e.variants.len() implies back(
                t,
                group,
            )->Enum_0.variants[i] == #[trigger] variants_back(e.variants, group)[i] by {
                assert(e.variants[i].value is Some || e.variants[i].value is None);
            }
            assert(back(t, group)->Enum_0.variants =~= variants_back(e.variants, group));
        },
        _ => {},
    }
}

/// What was read is what it was written as, read, and that can be written and read.
pub open spec fn comes_back(t: Shape, depth: nat, group: Option<nat>) -> bool {
    &&& readable(back(t, group), depth, group)
    &&& read_as(back(t, group), group) == t
}

/// A group is small enough.
pub open spec fn small(group: Option<nat>) -> bool {
    group matches Some(n) ==> n <= MAX_RECURSIVE_GROUP_SIZE
}

/// Whatever is read comes back.
pub open spec fn reads_what_comes_back(inner: Inner, depth: nat) -> bool {
    forall|s: Input, group: Option<nat>|
        small(group) ==> ((#[trigger] inner(s, group)) matches Ok((t, _)) ==> comes_back(
            t,
            depth,
            group,
        ))
}

// ---------------------------------------------------------------------------------------------
// Numbers and texts
// ---------------------------------------------------------------------------------------------

proof fn texts_fit(s: Input)
    ensures
        parse_text(s) matches Ok((text, _)) ==> text_fits(text),
{
    if let Ok((n, s)) = parse_counted(s, Counted::Bytes) {
        if let Ok((bytes, s)) = parse_bytes(s, n) {
            if valid_utf8(bytes) {
                decode_utf8_encode_utf8(bytes);
            }
        }
    }
}

proof fn labels_fit(s: Input)
    ensures
        parse_label(s) matches Ok((name, _)) ==> label_fits(name),
{
    assert forall|s: Input| (#[trigger] parse_text(s)) matches Ok((text, _)) ==> text_fits(
        text,
    ) by {
        texts_fit(s);
    }
}

proof fn conventions_fit(s: Input)
    ensures
        parse_abi(s) matches Ok((abi, _)) ==> abi_fits(abi),
{
    assert forall|s: Input| (#[trigger] parse_text(s)) matches Ok((text, _)) ==> text_fits(
        text,
    ) by {
        texts_fit(s);
    }
}

proof fn values_fit(s: Input, width: nat)
    requires
        width == 1 || width == 2 || width == 4 || width == 8 || width == 16,
    ensures
        parse_discriminant(s, width) matches Ok((value, _)) ==> value_fits(value, width),
{
    pow256_values();
    assert forall|s: Input| (#[trigger] parse_bytes(s, width)) matches Ok((bytes, _)) ==> from_le(
        bytes,
    ) < pow256(width) by {
        if let Ok((bytes, _)) = parse_bytes(s, width) {
            from_le_bounded(bytes);
        }
    }
}

// ---------------------------------------------------------------------------------------------
// Types
// ---------------------------------------------------------------------------------------------

/// An entry of a signature comes back, or is variadic and the last of the list.
pub open spec fn entry_comes_back(
    types: Seq<Shape>,
    i: int,
    total: nat,
    depth: nat,
    group: Option<nat>,
) -> bool {
    (types[i] is Variadic && i == total - 1) || comes_back(types[i], depth, group)
}

proof fn entries_come_back(
    s: Input,
    inner: Inner,
    depth: nat,
    group: Option<nat>,
    total: nat,
    n: nat,
)
    requires
        reads_what_comes_back(inner, depth),
        small(group),
    ensures
        parse_entries(s, inner, group, total, n) matches Ok((types, _)) ==> types.len() == n
            && forall|i: int|
            0 <= i < n ==> #[trigger] entry_comes_back(types, i, total, depth, group),
    decreases n,
{
    if n > 0 {
        let m = (n - 1) as nat;
        entries_come_back(s, inner, depth, group, total, m);
        if let Ok((before, s)) = parse_entries(s, inner, group, total, m) {
            reveal(parse_entry);
            if let Ok((t, s)) = parse_entry(s, inner, group, n == total) {
                let types = before.push(t);
                assert forall|i: int| 0 <= i < n implies #[trigger] entry_comes_back(
                    types,
                    i,
                    total,
                    depth,
                    group,
                ) by {
                    if i < m {
                        assert(entry_comes_back(before, i, total, depth, group));
                    }
                }
            }
        }
    }
}

/// A list of entries that come back reads as it was written.
proof fn lists_come_back(types: Seq<Shape>, depth: nat, group: Option<nat>)
    requires
        forall|i: int|
            0 <= i < types.len() ==> #[trigger] entry_comes_back(
                types,
                i,
                types.len(),
                depth,
                group,
            ),
    ensures
        all_read_as(all_back(types, group), group) == types,
        forall|i: int|
            0 <= i < types.len() ==> ((#[trigger] all_back(types, group)[i]) is Variadic && i
                == types.len() - 1) || readable(all_back(types, group)[i], depth, group),
{
    let all = all_back(types, group);
    assert forall|i: int| 0 <= i < types.len() implies read_as(#[trigger] all[i], group)
        == types[i] && ((all[i] is Variadic && i == types.len() - 1) || readable(
        all[i],
        depth,
        group,
    )) by {
        assert(entry_comes_back(types, i, types.len(), depth, group));
        if types[i] is Variadic {
            parts_go_back(types[i], group);
            parts_read_as(types[i], group);
        }
    }
    assert(all_read_as(all, group) =~= types);
}

proof fn functions_come_back(s: Input, inner: Inner, depth: nat, group: Option<nat>)
    requires
        reads_what_comes_back(inner, depth),
        small(group),
    ensures
        parse_function(s, inner, group) matches Ok((f, _)) ==> comes_back(
            Shape::Function(f),
            depth + 1,
            group,
        ),
{
    reveal(parse_function);
    conventions_fit(s);
    assert forall|s: Input, n: nat| #![trigger parse_entries(s, inner, group, n, n)]
        parse_entries(s, inner, group, n, n) matches Ok((types, _)) ==> types.len() == n
            && forall|i: int|
            0 <= i < n ==> #[trigger] entry_comes_back(types, i, n, depth, group) by {
        entries_come_back(s, inner, depth, group, n, n);
    }
    if let Ok((f, _)) = parse_function(s, inner, group) {
        let t = Shape::Function(f);
        lists_come_back(f.params, depth, group);
        lists_come_back(f.results, depth, group);
        parts_go_back(t, group);
        parts_read_as(back(t, group), group);
        reveal(readable);
    }
}

proof fn fields_come_back(s: Input, inner: Inner, depth: nat, group: Option<nat>, n: nat)
    requires
        reads_what_comes_back(inner, depth),
        small(group),
    ensures
        parse_fields(s, inner, group, n) matches Ok((fields, _)) ==> fields.len() == n
            && forall|i: int|
            0 <= i < n ==> {
                &&& label_fits((#[trigger] fields[i]).name)
                &&& comes_back(fields[i].ty, depth, group)
                &&& group is None ==> metrics(
                    fields[i].ty,
                    Seq::empty(),
                ).bytes() <= u32::MAX
            },
    decreases n,
{
    if n > 0 {
        fields_come_back(s, inner, depth, group, (n - 1) as nat);
        if let Ok((before, s)) = parse_fields(s, inner, group, (n - 1) as nat) {
            labels_fit(s);
            reveal(parse_field);
        }
    }
}

proof fn structs_come_back(s: Input, inner: Inner, depth: nat, group: Option<nat>)
    requires
        reads_what_comes_back(inner, depth),
        small(group),
    ensures
        parse_struct(s, inner, group) matches Ok((f, _)) ==> comes_back(
            Shape::Struct(f),
            depth + 1,
            group,
        ),
{
    reveal(parse_struct);
    labels_fit(s);
    assert forall|s: Input, n: nat| (#[trigger] parse_fields(s, inner, group, n)) matches Ok(
        (fields, _),
    ) ==> fields.len() == n && forall|i: int|
        0 <= i < n ==> {
            &&& label_fits((#[trigger] fields[i]).name)
            &&& comes_back(fields[i].ty, depth, group)
            &&& group is None ==> metrics(
                fields[i].ty,
                Seq::empty(),
            ).bytes() <= u32::MAX
        } by {
        fields_come_back(s, inner, depth, group, n);
    }
    if let Ok((made, _)) = parse_struct(s, inner, group) {
        let t = Shape::Struct(made);
        parts_go_back(t, group);
        parts_read_as(back(t, group), group);
        let fields = fields_back(made.fields, group);
        assert forall|i: int| 0 <= i < fields.len() implies {
            &&& label_fits((#[trigger] fields[i]).name)
            &&& readable(fields[i].ty, depth, group)
            &&& read_as(fields[i].ty, group) == made.fields[i].ty
            &&& group is None ==> fields[i] == made.fields[i]
        } by {
            assert(label_fits(made.fields[i].name));
        }
        assert(fields_read_as(fields, group) =~= made.fields);
        if group is None {
            assert(fields =~= made.fields);
        }
        reveal(readable);
    }
}

proof fn variants_come_back(
    s: Input,
    inner: Inner,
    depth: nat,
    group: Option<nat>,
    width: nat,
    n: nat,
)
    requires
        reads_what_comes_back(inner, depth),
        small(group),
        width == 1 || width == 2 || width == 4 || width == 8 || width == 16,
    ensures
        parse_variants(s, inner, group, width, n) matches Ok((variants, _)) ==> variants.len() == n
            && forall|i: int|
            0 <= i < n ==> {
                &&& text_fits((#[trigger] variants[i]).name)
                &&& value_fits(variants[i].discriminant_value, width)
                &&& variants[i].value matches Some(value) ==> comes_back(value, depth, group)
            },
    decreases n,
{
    if n > 0 {
        variants_come_back(s, inner, depth, group, width, (n - 1) as nat);
        if let Ok((before, s)) = parse_variants(s, inner, group, width, (n - 1) as nat) {
            texts_fit(s);
            assert forall|s: Input| (#[trigger] parse_discriminant(s, width)) matches Ok(
                (value, _),
            ) ==> value_fits(value, width) by {
                values_fit(s, width);
            }
            reveal(parse_variant);
            reveal(parse_payload);
        }
    }
}

proof fn enums_come_back(s: Input, inner: Inner, depth: nat, group: Option<nat>)
    requires
        reads_what_comes_back(inner, depth),
        small(group),
    ensures
        parse_enum(s, inner, group) matches Ok((e, _)) ==> comes_back(
            Shape::Enum(e),
            depth + 1,
            group,
        ),
{
    reveal(parse_enum);
    texts_fit(s);
    assert forall|s: Input, width: nat, n: nat|
        (width == 1 || width == 2 || width == 4 || width == 8 || width == 16) && (
        #[trigger] parse_variants(s, inner, group, width, n)) is Ok implies {
        let variants = parse_variants(s, inner, group, width, n)->Ok_0.0;
        variants.len() == n && forall|i: int|
            0 <= i < n ==> {
                &&& text_fits((#[trigger] variants[i]).name)
                &&& value_fits(variants[i].discriminant_value, width)
                &&& variants[i].value matches Some(value) ==> comes_back(value, depth, group)
            }
    } by {
        variants_come_back(s, inner, depth, group, width, n);
    }
    if let Ok((made, _)) = parse_enum(s, inner, group) {
        let t = Shape::Enum(made);
        assert(is_discriminant(*made.discriminant));
        parts_go_back(t, group);
        parts_read_as(back(t, group), group);
        let width = discriminant_width(*made.discriminant);
        let variants = variants_back(made.variants, group);
        assert forall|i: int| 0 <= i < variants.len() implies {
            &&& text_fits((#[trigger] variants[i]).name)
            &&& value_fits(variants[i].discriminant_value, width)
            &&& variants[i].value matches Some(value) ==> readable(value, depth, group)
            &&& variant_read_as(variants[i], group)
                == made.variants[i]
            &&& group is None ==> variants[i] == made.variants[i]
        } by {
            assert(text_fits(made.variants[i].name));
            assert(made.variants[i].value is Some || made.variants[i].value is None);
        }
        assert(variants_read_as(variants, group)
            =~= made.variants);
        if group is None {
            assert(variants =~= made.variants);
        }
        reveal(readable);
    }
}

proof fn compounds_come_back(s: Input, tag: u8, inner: Inner, depth: nat, group: Option<nat>)
    requires
        reads_what_comes_back(inner, depth),
        small(group),
    ensures
        parse_compound(s, tag, inner, group) matches Ok((t, _)) ==> comes_back(t, depth + 1, group),
{
    reveal(parse_compound);
    structs_come_back(s, inner, depth, group);
    functions_come_back(s, inner, depth, group);
    enums_come_back(s, inner, depth, group);
    if let Ok((t, _)) = parse_compound(s, tag, inner, group) {
        if t is Ptr || t is Array || t is List {
            parts_go_back(t, group);
            parts_read_as(back(t, group), group);
            reveal(readable);
        }
    }
}

// ---------------------------------------------------------------------------------------------
// Groups
// ---------------------------------------------------------------------------------------------

/// A group without an order fault lists every definition under its own number.
proof fn order_is_kept(built: Seq<Option<Shape>>, from: int, i: int)
    requires
        order_fault(built, from) is None,
        0 <= from <= i < built.len(),
    ensures
        built[i] matches Some(Shape::Rec(definitions, at)) && at == i && definitions.len()
            == built.len(),
    decreases i - from,
{
    if from < i {
        order_is_kept(built, from + 1, i);
    }
}

/// A group that was read holds the definitions that were written, in their order.
proof fn groups_hold_what_was_written(bodies: Seq<Shape>, i: int)
    requires
        open_definitions(bodies),
        bodies.len() <= MAX_RECURSIVE_GROUP_SIZE,
        0 <= i < bodies.len(),
        build(slot_keys(bodies.len()), bodies) is Ok,
        order_fault(build(slot_keys(bodies.len()), bodies)->Ok_0, 0) is None,
    ensures
        build(slot_keys(bodies.len()), bodies)->Ok_0[i] == Some(
            Shape::Rec(all_back(bodies, Some(bodies.len())), i as nat),
        ),
{
    let n = bodies.len();
    let keys = slot_keys(n);
    what_builds_is_sound(keys, bodies);
    let g = mention_graph(keys, bodies);
    assert(square(g));
    let all = build(keys, bodies)->Ok_0;
    let last = groups_of(keys, bodies).len() as int;
    let k = components_cover(g, i);
    assert(builds(keys, bodies, k));
    stages_stand(keys, bodies, k);
    stages_follow(keys, bodies, k);
    parts_are_groups(keys, bodies, k);
    let x = part_at(keys, bodies, k);
    members_are_listed(x);
    classes_have_members(x);
    let next = built_before(keys, bodies, (k + 1) as nat);
    assert forall|j: int| #[trigger] x.members().contains(j) implies 0 <= j < n && all[j] == next[j]
        && next[j] is Some by {
        let q = x.members().index_of(j);
        assert(x.members()[q] == j);
        assert(groups_of(keys, bodies)[k].contains(j));
        assert(next[j] is Some);
        built_types_stay(keys, bodies, j, k + 1, last);
    }
    assert(x.members().contains(i));
    order_is_kept(all, 0, i);
    if !is_recursive(keys, bodies, x.members()) {
        let first = x.members()[0];
        assert(x.members().contains(first));
        let p = x.members().index_of(i);
        assert(x.members()[p] == i);
        assert(i == first);
        subst_unfold(bodies[first], x.plain());
        assert(bodies[first] is Struct || bodies[first] is Enum);
    }
    let definitions = x.definitions();
    assert forall|j: int| #[trigger] x.members().contains(j) implies all[j] == Some(
        Shape::Rec(definitions, x.numbers()[x.members().index_of(j)]),
    ) && x.numbers()[x.members().index_of(j)] == j by {
        order_is_kept(all, 0, j);
    }
    assert(definitions.len() == n);
    assert forall|c: int| 0 <= c < n implies x.members()[#[trigger] x.spot(c as nat)] == c
        && x.members().contains(c) by {
        let p = x.spot(c as nat);
        let j = x.members()[p];
        assert(x.members().contains(j));
        assert(x.members().index_of(j) == p);
    }
    assert forall|c: int| 0 <= c < n implies x.members().contains(c) by {
        assert(x.members()[x.spot(c as nat)] == c);
    }
    assert(x.inner().values =~= slots(n).values);
    assert(definitions =~= all_back(bodies, Some(n))) by {
        assert forall|c: int| 0 <= c < n implies #[trigger] definitions[c] == subst(
            bodies[c],
            slots(n),
        ) by {
            assert(x.members()[x.spot(c as nat)] == c);
        }
    }
}

proof fn bodies_come_back(s: Input, inner: Inner, depth: nat, kinds: Seq<bool>, n: nat)
    requires
        reads_what_comes_back(inner, depth),
        kinds.len() <= MAX_RECURSIVE_GROUP_SIZE,
    ensures
        parse_bodies(s, inner, kinds, n) matches Ok((bodies, _)) ==> bodies.len() == n
            && forall|i: int|
            0 <= i < n ==> {
                &&& (#[trigger] bodies[i]) is Struct || bodies[i] is Enum
                &&& comes_back(bodies[i], depth + 1, Some(kinds.len()))
            },
    decreases n,
{
    if n > 0 {
        bodies_come_back(s, inner, depth, kinds, (n - 1) as nat);
        if let Ok((before, s)) = parse_bodies(s, inner, kinds, (n - 1) as nat) {
            enums_come_back(s, inner, depth, Some(kinds.len()));
            structs_come_back(s, inner, depth, Some(kinds.len()));
        }
    }
}

/// What the bodies of a group assemble comes back.
proof fn assembled_groups_come_back(bodies: Seq<Shape>, root: nat, depth: nat, group: Option<nat>)
    requires
        open_definitions(bodies),
        1 <= bodies.len() <= MAX_RECURSIVE_GROUP_SIZE,
        root < bodies.len(),
        assembled(bodies, root) is Ok,
        depth > 0,
        forall|i: int|
            0 <= i < bodies.len() ==> comes_back(
                #[trigger] bodies[i],
                depth,
                Some(bodies.len()),
            ),
    ensures
        comes_back(assembled(bodies, root)->Ok_0, depth, group),
{
    let n = bodies.len();
    let definitions = all_back(bodies, Some(n));
    let built = build(slot_keys(n), bodies)->Ok_0;
    what_builds_is_sound(slot_keys(n), bodies);
    assert forall|i: int| 0 <= i < n implies #[trigger] built[i] == own_references(
        definitions,
    )[i] by {
        groups_hold_what_was_written(bodies, i);
    }
    assert(built =~= own_references(definitions));
    assert(renamed_all(definitions) =~= bodies) by {
        assert forall|i: int| 0 <= i < n implies #[trigger] renamed_all(definitions)[i]
            == bodies[i] by {
            assert(comes_back(bodies[i], depth, Some(n)));
        }
    }
    assert(canonical(definitions));
    let t = Shape::Rec(definitions, root);
    assert(assembled(bodies, root)->Ok_0 == t);
    assert forall|k: int| 0 <= k < n implies ((#[trigger] definitions[k]) is Struct
        || definitions[k] is Enum) && readable(definitions[k], depth, Some(n)) by {
        assert(comes_back(bodies[k], depth, Some(n)));
        assert(bodies[k] is Struct || bodies[k] is Enum);
        subst_unfold(bodies[k], slots(n));
    }
    parts_go_back(t, group);
    parts_read_as(t, group);
    reveal(readable);
}

proof fn groups_come_back(s: Input, inner: Inner, depth: nat, group: Option<nat>)
    requires
        reads_what_comes_back(inner, depth),
        reads_neat(inner),
    ensures
        parse_group(s, inner) matches Ok((t, _)) ==> comes_back(t, depth + 1, group),
{
    reveal(parse_group);
    assert forall|s: Input, n: nat| (#[trigger] parse_kinds(s, n)) matches Ok((kinds, _))
        ==> kinds.len() == n by {
        kinds_are_counted(s, n);
    }
    assert forall|s: Input, kinds: Seq<bool>, n: nat|
        kinds.len() <= MAX_RECURSIVE_GROUP_SIZE && (#[trigger] parse_bodies(s, inner, kinds, n))
            is Ok implies {
        let bodies = parse_bodies(s, inner, kinds, n)->Ok_0.0;
        &&& bodies.len() == n
        &&& open_definitions(bodies)
        &&& forall|i: int|
            0 <= i < n ==> comes_back(#[trigger] bodies[i], depth + 1, Some(kinds.len()))
    } by {
        bodies_come_back(s, inner, depth, kinds, n);
        bodies_are_neat(s, inner, kinds, n);
    }
    assert forall|bodies: Seq<Shape>, root: nat|
        open_definitions(bodies) && 1 <= bodies.len() <= MAX_RECURSIVE_GROUP_SIZE && root
            < bodies.len() && (forall|i: int|
            0 <= i < bodies.len() ==> comes_back(
                #[trigger] bodies[i],
                depth + 1,
                Some(bodies.len()),
            )) && (#[trigger] assembled(bodies, root)) is Ok implies comes_back(
        assembled(bodies, root)->Ok_0,
        depth + 1,
        group,
    ) by {
        assembled_groups_come_back(bodies, root, depth + 1, group);
    }
}

/// A type without parts comes back.
proof fn atoms_come_back(tag: u8, depth: nat, group: Option<nat>)
    ensures
        parse_atom(tag) matches Ok(t) ==> comes_back(t, depth, group),
{
    if let Ok(t) = parse_atom(tag) {
        parts_go_back(t, group);
        parts_read_as(t, group);
        reveal(readable);
    }
}

/// Whatever is read can be written, and reads back as itself. Inside a group, what was read was
/// written with back-references in the place of names.
pub proof fn what_is_read_comes_back(s: Input, depth: nat, group: Option<nat>)
    requires
        small(group),
    ensures
        parse(s, depth, group) matches Ok((t, _)) ==> comes_back(t, depth, group),
    decreases depth,
{
    parse_unfold(s, depth, group);
    let inner = below(depth);
    assert forall|tag: u8| (#[trigger] parse_atom(tag)) matches Ok(t) ==> comes_back(
        t,
        depth,
        group,
    ) by {
        atoms_come_back(tag, depth, group);
    }
    if depth > 0 {
        let before = (depth - 1) as nat;
        let inner = inner->0;
        at_depth_parses(before);
        assert forall|s: Input, group: Option<nat>|
            small(group) && (#[trigger] at_depth(before)(s, group)) is Ok implies comes_back(
            at_depth(before)(s, group)->Ok_0.0,
            before,
            group,
        ) by {
            what_is_read_comes_back(s, before, group);
        }
        assert forall|s: Input, group: Option<nat>|
            (#[trigger] at_depth(before)(s, group)) matches Ok((t, _)) ==> neat(t, group) by {
            what_is_read_is_canonical(s, before, group);
        }
        assert(reads_what_comes_back(inner, before));
        assert(reads_neat(inner));
        assert forall|s: Input| (#[trigger] parse_group(s, inner)) matches Ok((t, _))
            ==> comes_back(t, depth, group) by {
            groups_come_back(s, inner, before, group);
        }
        assert forall|s: Input, tag: u8|
            (#[trigger] parse_compound(s, tag, inner, group)) matches Ok((t, _)) ==> comes_back(
                t,
                depth,
                group,
            ) by {
            compounds_come_back(s, tag, inner, before, group);
        }
    }
    reveal(parse_closed);
    if let Some(n) = group {
        reveal(parse_open);
        if s.rest.len() > 0 && s.rest[0] == TAG_RECURSIVE_REF {
            if let Ok((t, _)) = parse(s, depth, group) {
                let i = choose|i: nat| i < n && t == Shape::Name(#[trigger] slot_key(i));
                slot_stands(n, i);
                subst_unfold(t, slots(n));
                parts_read_as(back(t, group), group);
                reveal(readable);
            }
        }
    }
}

/// What was read, written again, reads back as itself, whatever follows it.
pub proof fn what_was_read_reads_back(s: Input, rest: Seq<u8>, budget: Option<nat>)
    requires
        parse(s, MAX_TYPE_NESTING as nat, None) is Ok,
        budget is Some ==> enc(parse(s, MAX_TYPE_NESTING as nat, None)->Ok_0.0).len() <= budget->0,
    ensures
        ({
            let t = parse(s, MAX_TYPE_NESTING as nat, None)->Ok_0.0;
            parse(Input { rest: enc(t) + rest, budget }, MAX_TYPE_NESTING as nat, None) == Ok::<
                (Shape, Input),
                DecodeFault,
            >((t, left_over(rest, budget, enc(t).len())))
        }),
{
    let t = parse(s, MAX_TYPE_NESTING as nat, None)->Ok_0.0;
    what_is_read_comes_back(s, MAX_TYPE_NESTING as nat, None);
    let again = Input { rest: enc(t) + rest, budget };
    assert(again.rest.take(enc(t).len() as int) =~= enc(t));
    assert(offers(again, enc(t)));
    reads_type(t, again, MAX_TYPE_NESTING as nat, None);
    assert(again.rest.skip(enc(t).len() as int) =~= rest);
    assert(behind(again, enc(t)) == left_over(rest, budget, enc(t).len()));
}

} // verus!
