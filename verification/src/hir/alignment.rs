//! Unfolding keeps alignment, whatever room the definitions of a group are given.
use vstd::arithmetic::div_mod::lemma_small_mod;
use vstd::prelude::*;

use crate::hir::layout::{align_bounds, closed_metrics, types_are_closed};
use crate::hir::metrics::{
    align_up, array_bits, end_offset, enum_align, enum_size, field_align, field_metrics,
    group_metrics, group_metrics_unfold, larger, metrics, metrics_unfold, padding_align,
    payload_metrics, repr_ok, struct_align, struct_size, widest, widest_field, Metrics,
};
use crate::hir::shape::{Shape, TypeRepr};
use crate::hir::types::{
    open_enum_shape, open_shape_unfold, open_struct_shape, open_wf, open_wf_unfold, OpenType,
};
use crate::hir::unfold::{bind, bind_closed, bind_enum, bind_struct, bind_unfold};

verus! {

/// Two layouts of the same alignment, both empty or neither.
pub open spec fn alike(a: Metrics, b: Metrics) -> bool {
    &&& a.align == b.align
    &&& 1 <= a.align
    &&& (a.bits == 0) == (b.bits == 0)
}

/// Padding leaves nothing only of nothing.
proof fn padding_is_empty(x: nat, align: nat)
    requires
        align > 0,
    ensures
        (align_up(x, align) == 0) == (x == 0),
{
    if x == 0 {
        lemma_small_mod(0, align);
    } else {
        assert(x % align < align);
    }
}

/// Fields that are alike make structs that are alike, as far as the first `n` go.
proof fn fields_alike(repr: TypeRepr, a: Seq<Metrics>, b: Seq<Metrics>, n: nat)
    requires
        repr_ok(repr),
        n <= a.len(),
        n <= b.len(),
        forall|i: int| 0 <= i < n ==> alike(#[trigger] a[i], b[i]),
    ensures
        (end_offset(repr, a, n) == 0) == (end_offset(repr, b, n) == 0),
        widest(a, n) == widest(b, n),
        widest(a, n) >= 1,
        widest_field(repr, a, n) == widest_field(repr, b, n),
        widest_field(repr, a, n) >= 1,
    decreases n,
{
    if n > 0 {
        fields_alike(repr, a, b, (n - 1) as nat);
        assert(alike(a[n - 1], b[n - 1]));
        let align = field_align(repr, a[n - 1]);
        assert(align == field_align(repr, b[n - 1]));
        assert(align > 0);
        padding_is_empty(end_offset(repr, a, (n - 1) as nat), align);
        padding_is_empty(end_offset(repr, b, (n - 1) as nat), align);
    }
}

/// Structs of fields that are alike are alike.
pub proof fn structs_alike(repr: TypeRepr, a: Seq<Metrics>, b: Seq<Metrics>)
    requires
        repr_ok(repr),
        a.len() == b.len(),
        forall|i: int| 0 <= i < a.len() ==> alike(#[trigger] a[i], b[i]),
    ensures
        struct_align(repr, a) == struct_align(repr, b),
        struct_align(repr, a) >= 1,
        (struct_size(repr, a) == 0) == (struct_size(repr, b) == 0),
{
    fields_alike(repr, a, b, a.len());
    let align = padding_align(repr, a);
    padding_is_empty(end_offset(repr, a, a.len()), align);
    padding_is_empty(end_offset(repr, b, b.len()), align);
}

/// Payloads that are alike make enums that are alike, as far as the first `n` go.
proof fn payloads_alike(
    discriminant: Metrics,
    a: Seq<Option<Metrics>>,
    b: Seq<Option<Metrics>>,
    n: nat,
)
    requires
        discriminant.align >= 1,
        n <= a.len(),
        n <= b.len(),
        forall|i: int|
            0 <= i < n ==> ((#[trigger] a[i]) is Some) == (b[i] is Some) && (a[i] is Some ==> alike(
                a[i]->0,
                b[i]->0,
            )),
    ensures
        enum_align(discriminant, a, n) == enum_align(discriminant, b, n),
        enum_align(discriminant, a, n) >= 1,
        (enum_size(discriminant, a, n) == 0) == (enum_size(discriminant, b, n) == 0),
    decreases n,
{
    if n > 0 {
        payloads_alike(discriminant, a, b, (n - 1) as nat);
        assert((a[n - 1] is Some) == (b[n - 1] is Some));
        if let (Some(p), Some(q)) = (a[n - 1], b[n - 1]) {
            let align = larger(discriminant.align, p.align);
            padding_is_empty(discriminant.bytes(), p.align);
            padding_is_empty(align_up(discriminant.bytes(), p.align) + p.bytes(), align);
            padding_is_empty(align_up(discriminant.bytes(), q.align) + q.bytes(), align);
        }
    }
}

/// An array is empty when it has no elements or empty ones.
proof fn arrays_alike(a: Metrics, b: Metrics, n: nat)
    requires
        alike(a, b),
    ensures
        (array_bits(a, n) == 0) == (array_bits(b, n) == 0),
{
    padding_is_empty(a.bits, 8 * a.align);
    padding_is_empty(b.bits, 8 * b.align);
    if n > 1 && a.bits == 0 {
        assert(0 * ((n - 1) as nat) == 0);
    }
}

/// Binding keeps the alignment of a type, and whether it is empty.
pub proof fn binding_keeps_alignment(t: &OpenType, definitions: Seq<Shape>)
    requires
        open_wf(*t, group_metrics(definitions, definitions.len())),
        forall|i: int|
            0 <= i < definitions.len() ==> (#[trigger] group_metrics(
                definitions,
                definitions.len(),
            )[i]).align >= 1,
    ensures
        alike(
            metrics(bind(t@, definitions), Seq::empty()),
            metrics(t@, group_metrics(definitions, definitions.len())),
        ),
    decreases t,
{
    let layouts = group_metrics(definitions, definitions.len());
    group_metrics_unfold(definitions, definitions.len());
    open_wf_unfold(t, layouts);
    open_shape_unfold(t);
    bind_unfold(t@, definitions);
    metrics_unfold(t@, layouts);
    metrics_unfold(bind(t@, definitions), Seq::empty());
    match t {
        OpenType::Closed(ty) => {
            types_are_closed(ty);
            bind_closed(ty@, definitions);
            closed_metrics(ty@, layouts);
            align_bounds(ty);
        },
        OpenType::Var(i) => {
            padding_is_empty(layouts[*i as int].bytes(), layouts[*i as int].align);
        },
        OpenType::Array(element, n) => {
            binding_keeps_alignment(&**element, definitions);
            arrays_alike(
                metrics(bind(element@, definitions), Seq::empty()),
                metrics(element@, layouts),
                *n as nat,
            );
        },
        OpenType::Struct(s) => {
            let made = open_struct_shape(**s);
            let here = field_metrics(made.fields, layouts);
            let there = field_metrics(bind_struct(made, definitions).fields, Seq::empty());
            assert forall|i: int| 0 <= i < here.len() implies alike(
                #[trigger] there[i],
                here[i],
            ) by {
                binding_keeps_alignment(&s.fields@[i].ty, definitions);
            }
            structs_alike(s.repr, there, here);
        },
        OpenType::Enum(e) => {
            let made = open_enum_shape(**e);
            let here = payload_metrics(made.variants, layouts);
            let there = payload_metrics(bind_enum(made, definitions).variants, Seq::empty());
            types_are_closed(&e.discriminant);
            bind_closed(e.discriminant@, definitions);
            closed_metrics(e.discriminant@, layouts);
            align_bounds(&e.discriminant);
            assert forall|i: int| 0 <= i < here.len() implies ((#[trigger] there[i]) is Some) == (
            here[i] is Some) && (there[i] is Some ==> alike(there[i]->0, here[i]->0)) by {
                if let Some(value) = &e.variants@[i].value {
                    binding_keeps_alignment(value, definitions);
                }
            }
            payloads_alike(metrics(e.discriminant@, Seq::empty()), there, here, here.len());
        },
        _ => {},
    }
}

} // verus!
