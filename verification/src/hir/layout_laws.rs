//! What the layout rules promise: sizes that hold every value, fields that keep apart, and
//! alignments that are kept.
use vstd::arithmetic::div_mod::{
    lemma_fundamental_div_mod, lemma_mod_multiples_basic, lemma_small_mod,
};
use vstd::arithmetic::mul::{
    lemma_mul_inequality, lemma_mul_is_associative, lemma_mul_is_commutative,
};
use vstd::arithmetic::power2::{lemma2_to64, lemma_pow2_adds, pow2};
use vstd::prelude::*;

use crate::hir::enum_rules::{discriminant_limit, is_discriminant, is_integer};
use crate::hir::kinds::is_numeric_shape;
use crate::hir::layout::offsets_grow;
use crate::hir::metrics::{
    align_up, array_metrics, end_offset, enum_align, enum_metrics, enum_size, field_align,
    field_metrics, field_offset, larger, metrics, metrics_unfold, padding_align, payload_metrics,
    payload_offset, repr_ok, smaller, struct_metrics, tagged_size, widest, widest_field, Metrics,
};
use crate::hir::render::atom_name;
use crate::hir::shape::{Shape, TypeRepr};

verus! {

/// The integers of a fixed width.
pub open spec fn is_fixed_width(t: Shape) -> bool {
    match t {
        Shape::I1 | Shape::I8 | Shape::U8 | Shape::I16 | Shape::U16 | Shape::I32 | Shape::U32
        | Shape::I64 | Shape::U64 | Shape::I128 | Shape::U128 | Shape::U256 => true,
        _ => false,
    }
}

/// The least value of an integer type.
pub open spec fn least(t: Shape) -> int {
    match t {
        Shape::I8 => i8::MIN as int,
        Shape::I16 => i16::MIN as int,
        Shape::I32 => i32::MIN as int,
        Shape::I64 => i64::MIN as int,
        Shape::I128 => i128::MIN as int,
        _ => 0,
    }
}

/// The greatest value of an integer type; an integer of 256 bits is a pair of 128-bit ones.
pub open spec fn greatest(t: Shape) -> int {
    match t {
        Shape::I1 => 1,
        Shape::I8 => i8::MAX as int,
        Shape::U8 => u8::MAX as int,
        Shape::I16 => i16::MAX as int,
        Shape::U16 => u16::MAX as int,
        Shape::I32 => i32::MAX as int,
        Shape::U32 => u32::MAX as int,
        Shape::I64 => i64::MAX as int,
        Shape::U64 => u64::MAX as int,
        Shape::I128 => i128::MAX as int,
        Shape::U128 => u128::MAX as int,
        _ => u128::MAX * (u128::MAX + 1) + u128::MAX,
    }
}

/// The powers of two that count the values of the integer types.
proof fn powers()
    ensures
        pow2(1) == 0x2,
        pow2(8) == 0x100,
        pow2(16) == 0x1_0000,
        pow2(32) == 0x1_0000_0000,
        pow2(64) == 0x1_0000_0000_0000_0000,
        pow2(128) == 0x1_0000_0000_0000_0000_0000_0000_0000_0000,
        pow2(256) == pow2(128) * pow2(128),
{
    lemma2_to64();
    lemma_pow2_adds(64, 64);
    lemma_pow2_adds(128, 128);
}

/// The size of an integer type in bits is the logarithm of the number of its values: as many
/// patterns of bits as values.
pub proof fn integers_have_a_pattern_for_each_value(t: Shape, group: Seq<Metrics>)
    requires
        is_fixed_width(t),
    ensures
        pow2(metrics(t, group).bits) == greatest(t) - least(t) + 1,
        !metrics(t, group).zst,
{
    metrics_unfold(t, group);
    powers();
}

/// The integral types are the integers of a fixed width and the field elements, and the numeric ones
/// are these and the floating-point numbers.
pub proof fn integers_are_fixed_width_or_field_elements(t: Shape)
    ensures
        is_integer(t) <==> is_fixed_width(t) || t is Felt,
        is_numeric_shape(t) <==> is_integer(t) || t is F64,
{
}

/// The decimal digits of a number.
pub open spec fn digits(n: nat) -> Seq<char>
    decreases n,
{
    if n < 10 {
        seq![('0' as u8 + n) as char]
    } else {
        digits(n / 10).push(('0' as u8 + n % 10) as char)
    }
}

/// The name of an integer type is a letter and its size in bits.
pub proof fn integers_are_named_by_their_size(t: Shape, group: Seq<Metrics>)
    requires
        is_fixed_width(t),
    ensures
        atom_name(t).drop_first() == digits(metrics(t, group).bits),
        atom_name(t)[0] == 'i' || atom_name(t)[0] == 'u',
{
    metrics_unfold(t, group);
    reveal_with_fuel(digits, 4);
    reveal_strlit("i1");
    reveal_strlit("i8");
    reveal_strlit("u8");
    reveal_strlit("i16");
    reveal_strlit("u16");
    reveal_strlit("i32");
    reveal_strlit("u32");
    reveal_strlit("i64");
    reveal_strlit("u64");
    reveal_strlit("i128");
    reveal_strlit("u128");
    reveal_strlit("u256");
    assert(atom_name(t).drop_first() =~= digits(metrics(t, group).bits));
}

/// An integer whose size is a number of bytes fills them: it is aligned to its size up to a word of
/// four bytes, and to four words from 128 bits on.
pub proof fn integers_are_aligned_to_words(t: Shape, group: Seq<Metrics>)
    requires
        is_fixed_width(t) || t is Felt,
        !(t is I1),
    ensures
        ({
            let m = metrics(t, group);
            &&& 8 * m.bytes() == m.bits
            &&& m.bits < 128 ==> m.align == smaller(m.bytes(), 4)
            &&& m.bits >= 128 ==> m.align == 16
            &&& m.bytes() % m.align == 0
        }),
{
    metrics_unfold(t, group);
    let m = metrics(t, group);
    if m.align == 1 {
        assert(m.bytes() % 1 == 0);
    } else if m.align == 2 {
        assert(m.bytes() % 2 == 0);
    } else if m.align == 4 {
        assert(m.bytes() % 4 == 0);
    } else {
        assert(m.bytes() % 16 == 0);
    }
}

/// Pointers and functions are one word of four bytes, and so is a field element; a list is two, its
/// address and its length; a floating-point number has the layout of a 64-bit integer.
pub proof fn references_are_words(t: Shape, group: Seq<Metrics>)
    ensures
        t is Ptr || t is Function || t is Felt ==> metrics(t, group) == metrics(Shape::U32, group),
        t is List ==> metrics(t, group).bits == 2 * metrics(Shape::U32, group).bits && metrics(
            t,
            group,
        ).align == metrics(Shape::U32, group).align,
        t is F64 ==> metrics(t, group) == metrics(Shape::U64, group),
{
    metrics_unfold(t, group);
    metrics_unfold(Shape::U32, group);
    metrics_unfold(Shape::U64, group);
}

/// A discriminant can take as many values as its type has patterns of bits.
pub proof fn discriminants_use_every_pattern(t: Shape, group: Seq<Metrics>)
    ensures
        is_discriminant(t) <==> (is_fixed_width(t) || t is Felt) && metrics(t, group).bits <= 128,
        is_discriminant(t) ==> discriminant_limit(t) == pow2(metrics(t, group).bits),
{
    metrics_unfold(t, group);
    powers();
}

/// Aligning up goes to a multiple, never below, and never a whole alignment further.
pub proof fn aligned_up(x: nat, align: nat)
    requires
        align > 0,
    ensures
        align_up(x, align) % align == 0,
        x <= align_up(x, align) < x + align,
{
    if x % align != 0 {
        lemma_fundamental_div_mod(x as int, align as int);
        let q = x as int / align as int;
        assert(align_up(x, align) == align * (q + 1)) by (nonlinear_arith)
            requires
                x == align * q + x % align,
                align_up(x, align) == x + align - x % align,
        ;
        lemma_mod_multiples_basic(q + 1, align as int);
        assert(align * (q + 1) == (q + 1) * align) by (nonlinear_arith);
    }
}

/// Where an array of `n` elements keeps element `i`, in bits: each lies behind the one before it,
/// at the next multiple of the alignment.
pub open spec fn element_offset(element: Metrics, i: nat) -> nat
    decreases i,
{
    if i == 0 {
        0
    } else {
        align_up(
            element_offset(element, (i - 1) as nat) + element.bits,
            8 * element.align,
        )
    }
}

/// Element `i` lies at `i` times the padded size of an element.
#[verifier::spinoff_prover]
proof fn elements_are_spaced(element: Metrics, i: nat)
    requires
        element.align > 0,
    ensures
        element_offset(element, i) == i * align_up(element.bits, 8 * element.align),
    decreases i,
{
    if i > 0 {
        let align = 8 * element.align;
        let stride = align_up(element.bits, align);
        elements_are_spaced(element, (i - 1) as nat);
        let before = element_offset(element, (i - 1) as nat);
        aligned_up(element.bits, align);
        aligned_up(before + element.bits, align);
        assert(before + stride == i * stride) by (nonlinear_arith)
            requires
                before == (i - 1) * stride,
        ;
        lemma_fundamental_div_mod(stride as int, align as int);
        let q = stride as int / align as int;
        let next = align_up(before + element.bits, align);
        lemma_fundamental_div_mod(next as int, align as int);
        let r = next as int / align as int;
        assert(next == i * stride) by (nonlinear_arith)
            requires
                align > 0,
                stride == align * q,
                next == align * r,
                before == (i - 1) * stride,
                before + element.bits <= next < before + element.bits + align,
                element.bits <= stride < element.bits + align,
        {
            let target = i * q;
            lemma_mul_is_commutative(align as int, q);
            lemma_mul_is_associative(i as int, q, align as int);
            lemma_mul_is_commutative(align as int, target);
            let gap = r - target;
            assert(align * gap == next - i * stride) by (nonlinear_arith)
                requires
                    next == align * r,
                    i * stride == align * target,
                    gap == r - target,
            ;
            assert(before + stride == i * stride) by (nonlinear_arith)
                requires
                    before == (i - 1) * stride,
            ;
            assert(gap == 0) by (nonlinear_arith)
                requires
                    align > 0,
                    -align < align * gap < align,
            ;
        }
    } else {
        assert(0 * align_up(element.bits, 8 * element.align) == 0) by (nonlinear_arith);
    }
}

/// An array holds its elements one behind the other, each at a multiple of the alignment, and ends
/// where its last element does.
#[verifier::spinoff_prover]
pub proof fn arrays_hold_their_elements(element: Metrics, n: nat, i: nat)
    requires
        element.align > 0,
        i < n,
    ensures
        ({
            let array = array_metrics(element, n);
            &&& element_offset(element, i) % (8 * element.align) == 0
            &&& element_offset(element, i) + element.bits <= array.bits
            &&& i == n - 1 ==> element_offset(element, i) + element.bits == array.bits
            &&& array.align == element.align
            &&& array.zst == element.zst
        }),
{
    let align = 8 * element.align;
    let stride = align_up(element.bits, align);
    let array = array_metrics(element, n);
    elements_are_spaced(element, i);
    elements_are_spaced(element, (n - 1) as nat);
    aligned_up(element.bits, align);
    assert(element_offset(element, i) % align == 0) by {
        if i > 0 {
            aligned_up(element_offset(element, (i - 1) as nat) + element.bits, align);
        } else {
            lemma_small_mod(0, align);
        }
    }
    lemma_mul_inequality(i as int, n - 1, stride as int);
    lemma_mul_is_commutative(stride as int, n - 1);
    let last = element_offset(element, (n - 1) as nat);
    assert(last == (n - 1) * stride);
    assert(element_offset(element, i) <= last);
    if n == 1 {
        assert(0 * stride == 0) by (nonlinear_arith);
        assert(array.bits == last + element.bits);
    } else {
        assert(array.bits == element.bits + stride * ((n - 1) as nat));
        assert(array.bits == last + element.bits);
    }
}

/// An array without elements has no size.
pub proof fn empty_arrays_are_nothing(element: Metrics)
    ensures
        array_metrics(element, 0).bits == 0,
        array_metrics(element, 0).zst,
{
}

/// The alignment given to a field: never above its own, nor above what packing allows.
proof fn field_alignments(repr: TypeRepr, fields: Seq<Metrics>, i: nat, n: nat)
    requires
        i < n <= fields.len(),
        repr_ok(repr),
        forall|j: int| 0 <= j < fields.len() ==> (#[trigger] fields[j]).align > 0,
    ensures
        0 < field_align(repr, fields[i as int]) <= widest_field(repr, fields, n),
        fields[i as int].align <= widest(fields, n),
    decreases n,
{
    if i < n - 1 {
        field_alignments(repr, fields, i, (n - 1) as nat);
    }
}

/// The fields of a struct keep apart: each starts where the one before it has ended, at a multiple
/// of the alignment it is given, with less padding than that alignment, and ends inside the struct.
pub proof fn fields_keep_apart(repr: TypeRepr, fields: Seq<Metrics>, i: nat)
    requires
        i < fields.len(),
        repr_ok(repr),
        !(repr is Transparent),
        forall|j: int| 0 <= j < fields.len() ==> (#[trigger] fields[j]).align > 0,
    ensures
        ({
            let start = field_offset(repr, fields, i);
            let align = field_align(repr, fields[i as int]);
            let free = if i == 0 {
                0
            } else {
                field_offset(repr, fields, (i - 1) as nat) + fields[i - 1].bytes()
            };
            &&& free <= start < free + align
            &&& start % align == 0
            &&& 8 * (start + fields[i as int].bytes()) <= struct_metrics(repr, fields).bits
            &&& align <= struct_metrics(repr, fields).align
            &&& align <= fields[i as int].align
            &&& repr matches TypeRepr::Packed(most) ==> align <= most && (align == most || align
                == fields[i as int].align)
            &&& !(repr is Packed) ==> align == fields[i as int].align
        }),
{
    offsets_grow(repr, fields, i, fields.len());
    field_alignments(repr, fields, i, fields.len());
    aligned_up(end_offset(repr, fields, i), field_align(repr, fields[i as int]));
    if i > 0 {
        assert(end_offset(repr, fields, i) == field_offset(repr, fields, (i - 1) as nat)
            + fields[i - 1].bytes());
    }
    assert(padding_align(repr, fields) > 0);
    aligned_up(end_offset(repr, fields, fields.len()), padding_align(repr, fields));
}

/// Some field, or the number one, has the largest alignment.
proof fn widest_is_reached(repr: TypeRepr, fields: Seq<Metrics>, n: nat)
    requires
        n <= fields.len(),
    ensures
        widest(fields, n) == 1 || exists|i: int|
            0 <= i < n && (#[trigger] fields[i]).align == widest(fields, n),
        widest_field(repr, fields, n) == 1 || exists|i: int|
            0 <= i < n && field_align(repr, #[trigger] fields[i]) == widest_field(
                repr,
                fields,
                n,
            ),
    decreases n,
{
    if n > 0 {
        widest_is_reached(repr, fields, (n - 1) as nat);
        assert(fields[n - 1].align == widest(fields, n) || widest(fields, n) == widest(
            fields,
            (n - 1) as nat,
        ));
        assert(field_align(repr, fields[n - 1]) == widest_field(repr, fields, n) || widest_field(
            repr,
            fields,
            n,
        ) == widest_field(repr, fields, (n - 1) as nat));
    }
}

/// Packing lowers the largest alignment of the fields to the one it names.
proof fn packing_lowers(most: u16, fields: Seq<Metrics>, n: nat)
    requires
        n <= fields.len(),
        most > 0,
    ensures
        widest_field(TypeRepr::Packed(most), fields, n) == smaller(
            most as nat,
            widest(fields, n),
        ),
    decreases n,
{
    if n > 0 {
        packing_lowers(most, fields, (n - 1) as nat);
    }
}

/// Where the fields keep their alignments, the largest given is the largest there is.
proof fn alignments_kept(repr: TypeRepr, fields: Seq<Metrics>, n: nat)
    requires
        n <= fields.len(),
        repr is Default || repr is Align,
    ensures
        widest_field(repr, fields, n) == widest(fields, n),
    decreases n,
{
    if n > 0 {
        alignments_kept(repr, fields, (n - 1) as nat);
    }
}

/// A struct ends at the first multiple of its alignment behind its last field, so that structs in
/// a row stay aligned. Its alignment is at least the one it names, at most the one it is packed to,
/// and otherwise that of one of its fields, or one.
pub proof fn structs_end_aligned(repr: TypeRepr, fields: Seq<Metrics>)
    requires
        repr_ok(repr),
        !(repr is Transparent),
        forall|j: int| 0 <= j < fields.len() ==> (#[trigger] fields[j]).align > 0,
    ensures
        ({
            let made = struct_metrics(repr, fields);
            let free = if fields.len() == 0 {
                0
            } else {
                field_offset(repr, fields, (fields.len() - 1) as nat) + fields.last().bytes()
            };
            &&& made.bytes() % made.align == 0
            &&& free <= made.bytes() < free + made.align
            &&& made.bits == 8 * made.bytes()
            &&& repr matches TypeRepr::Align(least) ==> made.align >= least
            &&& repr matches TypeRepr::Packed(most) ==> made.align <= most
            &&& made.align == 1 || (repr matches TypeRepr::Align(least) && made.align == least) || (
            repr matches TypeRepr::Packed(most) && made.align == most) || exists|i: int|
                0 <= i < fields.len() && (#[trigger] fields[i]).align == made.align
        }),
{
    let n = fields.len();
    match repr {
        TypeRepr::Packed(most) => packing_lowers(most, fields, n),
        _ => alignments_kept(repr, fields, n),
    }
    widest_is_reached(repr, fields, n);
    if n > 0 {
        field_alignments(repr, fields, 0, n);
        assert(end_offset(repr, fields, n) == field_offset(repr, fields, (n - 1) as nat)
            + fields.last().bytes());
    }
    assert(padding_align(repr, fields) > 0);
    aligned_up(end_offset(repr, fields, n), padding_align(repr, fields));
}

/// Where the fields of a transparent struct with one sized field end.
proof fn transparent_ends(fields: Seq<Metrics>, k: int, n: nat)
    requires
        0 <= k < fields.len(),
        n <= fields.len(),
        forall|i: int| 0 <= i < fields.len() && i != k ==> (#[trigger] fields[i]).bytes() == 0,
    ensures
        end_offset(TypeRepr::Transparent, fields, n) == if k < n {
            fields[k].bytes()
        } else {
            0
        },
        widest_field(TypeRepr::Transparent, fields, n) == if k < n && fields[k].bytes() != 0 {
            larger(1, fields[k].align)
        } else {
            1
        },
    decreases n,
{
    if n > 0 {
        transparent_ends(fields, k, (n - 1) as nat);
    }
}

/// A transparent struct is laid out as its one field that has a size, which starts at zero.
pub proof fn transparent_structs_are_their_field(fields: Seq<Metrics>, k: int)
    requires
        0 <= k < fields.len(),
        fields[k].align > 0,
        fields[k].bytes() > 0,
        forall|i: int| 0 <= i < fields.len() && i != k ==> (#[trigger] fields[i]).bytes() == 0,
    ensures
        struct_metrics(TypeRepr::Transparent, fields).bytes() == fields[k].bytes(),
        struct_metrics(TypeRepr::Transparent, fields).align == fields[k].align,
        field_offset(TypeRepr::Transparent, fields, k as nat) == 0,
{
    transparent_ends(fields, k, fields.len());
    transparent_ends(fields, k, k as nat);
}

/// An enum is at least as large and as aligned as each of its first variants.
proof fn variants_bound(discriminant: Metrics, payloads: Seq<Option<Metrics>>, i: int, n: nat)
    requires
        n <= payloads.len(),
        -1 <= i < n,
        0 <= i ==> payloads[i] is Some,
    ensures
        discriminant.bytes() <= enum_size(discriminant, payloads, n),
        discriminant.align <= enum_align(discriminant, payloads, n),
        0 <= i ==> tagged_size(discriminant, payloads[i]->0) <= enum_size(
            discriminant,
            payloads,
            n,
        ),
        0 <= i ==> payloads[i]->0.align <= enum_align(discriminant, payloads, n),
    decreases n,
{
    if n > 0 {
        if i == n - 1 {
            variants_bound(discriminant, payloads, -1, (n - 1) as nat);
        } else {
            variants_bound(discriminant, payloads, i, (n - 1) as nat);
        }
    }
}

/// The size and the alignment of an enum are those of one of its variants or of its discriminant.
proof fn bounds_are_reached(discriminant: Metrics, payloads: Seq<Option<Metrics>>, n: nat)
    requires
        n <= payloads.len(),
    ensures
        enum_size(discriminant, payloads, n) == discriminant.bytes() || exists|i: int|
            0 <= i < n && (#[trigger] payloads[i]) is Some && enum_size(discriminant, payloads, n)
                == tagged_size(discriminant, payloads[i]->0),
        enum_align(discriminant, payloads, n) == discriminant.align || exists|i: int|
            0 <= i < n && (#[trigger] payloads[i]) is Some && enum_align(discriminant, payloads, n)
                == payloads[i]->0.align,
    decreases n,
{
    if n > 0 {
        bounds_are_reached(discriminant, payloads, (n - 1) as nat);
        let last = payloads[n - 1];
        if last is Some {
            assert(enum_size(discriminant, payloads, n) == tagged_size(discriminant, last->0)
                || enum_size(discriminant, payloads, n) == enum_size(
                discriminant,
                payloads,
                (n - 1) as nat,
            ));
        }
    }
}

/// The payload of a variant lies behind the discriminant, at a multiple of its own alignment and
/// with less padding than that, and ends inside the enum.
pub proof fn payloads_lie_behind_the_discriminant(
    discriminant: Metrics,
    payloads: Seq<Option<Metrics>>,
    i: int,
)
    requires
        0 <= i < payloads.len(),
        payloads[i] is Some,
        discriminant.align > 0,
        payloads[i]->0.align > 0,
    ensures
        ({
            let made = enum_metrics(discriminant, payloads);
            let payload = payloads[i]->0;
            let start = payload_offset(discriminant, payloads[i]);
            &&& discriminant.bytes() <= start < discriminant.bytes() + payload.align
            &&& start % payload.align == 0
            &&& start + payload.bytes() <= made.bytes()
            &&& made.bits == 8 * made.bytes()
            &&& payload.align <= made.align
            &&& discriminant.align <= made.align
            &&& !made.zst
        }),
{
    let payload = payloads[i]->0;
    variants_bound(discriminant, payloads, i, payloads.len());
    aligned_up(discriminant.bytes(), payload.align);
    aligned_up(
        align_up(discriminant.bytes(), payload.align) + payload.bytes(),
        larger(discriminant.align, payload.align),
    );
}

/// An enum is no larger than it must be: it is its discriminant alone, or ends with one of its
/// variants, at the first multiple of the larger alignment behind the payload.
pub proof fn enums_are_no_larger_than_a_variant(
    discriminant: Metrics,
    payloads: Seq<Option<Metrics>>,
)
    requires
        payloads.len() > 0,
        discriminant.align > 0,
        forall|i: int|
            0 <= i < payloads.len() && (#[trigger] payloads[i]) is Some ==> payloads[i]->0.align
                > 0,
    ensures
        ({
            let made = enum_metrics(discriminant, payloads);
            &&& discriminant.bytes() <= made.bytes()
            &&& made.bytes() == discriminant.bytes() || exists|i: int|
                0 <= i < payloads.len() && (#[trigger] payloads[i]) is Some && {
                    let payload = payloads[i]->0;
                    let end = payload_offset(discriminant, payloads[i]) + payload.bytes();
                    let align = larger(discriminant.align, payload.align);
                    end <= made.bytes() < end + align && made.bytes() % align == 0
                }
            &&& made.align == discriminant.align || exists|i: int|
                0 <= i < payloads.len() && (#[trigger] payloads[i]) is Some && made.align
                    == payloads[i]->0.align
        }),
{
    let n = payloads.len();
    bounds_are_reached(discriminant, payloads, n);
    variants_bound(discriminant, payloads, -1, n);
    let made = enum_metrics(discriminant, payloads);
    if made.bytes() != discriminant.bytes() {
        let i = choose|i: int|
            0 <= i < n && (#[trigger] payloads[i]) is Some && enum_size(discriminant, payloads, n)
                == tagged_size(discriminant, payloads[i]->0);
        let payload = payloads[i]->0;
        aligned_up(
            align_up(discriminant.bytes(), payload.align) + payload.bytes(),
            larger(discriminant.align, payload.align),
        );
        assert(payloads[i] is Some);
    }
}

/// An aggregate is laid out by the layouts of its parts, and nothing else about them.
pub proof fn aggregates_follow_their_parts(t: Shape, group: Seq<Metrics>)
    ensures
        t matches Shape::Array(element, n) ==> metrics(t, group) == array_metrics(
            metrics(*element, group),
            n,
        ),
        t matches Shape::Struct(s) ==> metrics(t, group) == struct_metrics(
            s.repr,
            field_metrics(s.fields, group),
        ),
        t matches Shape::Enum(e) ==> metrics(t, group) == enum_metrics(
            metrics(*e.discriminant, group),
            payload_metrics(e.variants, group),
        ),
{
    metrics_unfold(t, group);
}

} // verus!
