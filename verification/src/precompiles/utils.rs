//! Packing of limbs and halves.

use crate::precompiles::field::{reps, FieldExpr, MODULUS};
use vstd::prelude::*;
use vstd::slice::slice_subrange;

verus! {

/// `sum(limbs[i] * base^i)`.
pub open spec fn packed(limbs: Seq<int>, base: int) -> int
    decreases limbs.len(),
{
    if limbs.len() == 0 {
        0
    } else {
        limbs[0] + base * packed(limbs.drop_first(), base)
    }
}

/// Packs limbs, least significant first.
pub fn pack_le<E: FieldExpr>(limbs: &[E], base: u64) -> (r: E)
    requires
        base < MODULUS,
    ensures
        r.rep() == packed(reps(limbs@), base as int),
{
    let mut sum = E::constant(0);
    let weight = E::constant(base);
    let mut i: usize = limbs.len();
    let ghost all = reps(limbs@);
    assert(all.skip(all.len() as int) =~= Seq::<int>::empty());
    while i > 0
        invariant
            i <= limbs@.len(),
            all == reps(limbs@),
            weight.rep() == base,
            sum.rep() == packed(all.skip(i as int), base as int),
        decreases i,
    {
        i = i - 1;
        sum = limbs[i].plus(&weight.times(&sum));
        proof {
            assert(all.skip(i as int).drop_first() =~= all.skip(i + 1));
            assert(all.skip(i as int)[0] == all[i as int]);
        }
    }
    assert(all.skip(0) =~= all);
    sum
}

/// The low and high halves of eight limbs, least significant first.
pub fn halves_le<E: FieldExpr>(limbs: &[E], base: u64) -> (r: (E, E))
    requires
        base < MODULUS,
        limbs@.len() == 8,
    ensures
        r.0.rep() == packed(reps(limbs@).subrange(0, 4), base as int),
        r.1.rep() == packed(reps(limbs@).subrange(4, 8), base as int),
{
    let lo = slice_subrange(limbs, 0, 4);
    let hi = slice_subrange(limbs, 4, 8);
    assert(reps(lo@) =~= reps(limbs@).subrange(0, 4));
    assert(reps(hi@) =~= reps(limbs@).subrange(4, 8));
    (pack_le(lo, base), pack_le(hi, base))
}

/// The columns `[lo, hi)` of a row.
pub fn band<E: FieldExpr>(row: &[E], lo: usize, hi: usize) -> (r: &[E])
    requires
        lo <= hi <= row@.len(),
    ensures
        r@.len() == hi - lo,
        reps(r@) == reps(row@).subrange(lo as int, hi as int),
{
    let part = slice_subrange(row, lo, hi);
    assert(reps(part@) =~= reps(row@).subrange(lo as int, hi as int));
    part
}

/// The low and high 32-bit halves of a 64-bit value.
pub fn split_u64(value: u64) -> (r: (u32, u32))
    ensures
        r.0 == value % 0x1_0000_0000,
        r.1 == value / 0x1_0000_0000,
{
    ((value % 0x1_0000_0000) as u32, (value / 0x1_0000_0000) as u32)
}

} // verus!
