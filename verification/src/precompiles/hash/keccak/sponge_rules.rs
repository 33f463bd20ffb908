//! The constraints of the sponge are its rules.

use crate::precompiles::field::MODULUS;
use crate::precompiles::hash::keccak::sponge::{
    selectors, sponge_demands, COL_ACT, COL_BYTES_LEFT, COL_B_BEGIN, COL_CHUNK_BYTES, COL_CHUNK_HI,
    COL_CHUNK_LO, COL_CHUNK_PTR, COL_CLEARED_BYTES, COL_CLEARED_LO, COL_IS_CHUNK_AVAIL,
    COL_IS_FIRST_BLOCK_OF_INVOCATION, COL_IS_ZERO, COL_PADDED_BYTES, COL_PADDED_LO,
    COL_SPONGE_SEQ_ID, COL_STATE_NEW_BYTES, COL_STATE_NEW_HI, COL_STATE_NEW_LO,
    COL_STATE_PREV_BYTES, COL_STATE_PREV_HI, COL_STATE_PREV_LO, NUM_MAIN_COLS,
};
use crate::precompiles::hash::keccak::sponge::program::SPONGE_PERIOD;
use crate::precompiles::hash::keccak::sponge_laws::{
    flags_hold, program_row, row_obeys, rows_obey, rows_step, satisfied, selected, slot_of,
};
use crate::precompiles::hash::keccak::sponge_meaning::{
    halves_match, lanes_agree_with_their_bytes, lanes_keep_or_absorb,
};
use crate::precompiles::logup::Rows;
use crate::precompiles::trace::{
    following, is_cell, is_enforced, is_flag, is_met, is_table, met_by_residue, switched, vanishes,
};
use vstd::prelude::*;

verus! {

/// The rules on the values of a row: lanes agree with their bytes, a first block starts from zero,
/// and lanes that take in nothing keep their state.
pub open spec fn lanes_hold(l: Seq<int>, slot: int) -> bool {
    &&& halves_match(l, COL_CHUNK_BYTES as int, COL_CHUNK_LO as int)
    &&& halves_match(l, COL_STATE_PREV_BYTES as int, COL_STATE_PREV_LO as int)
    &&& halves_match(l, COL_STATE_NEW_BYTES as int, COL_STATE_NEW_LO as int)
    &&& halves_match(l, COL_CLEARED_BYTES as int, COL_CLEARED_LO as int)
    &&& halves_match(l, COL_PADDED_BYTES as int, COL_PADDED_LO as int)
    &&& slot < 25 && l[COL_IS_FIRST_BLOCK_OF_INVOCATION as int] == 1
        ==> l[COL_STATE_PREV_LO as int] == 0 && l[COL_STATE_PREV_HI as int] == 0
    &&& (17 <= slot < 25) || (slot < 17 && l[COL_IS_ZERO as int] == 1)
        ==> l[COL_STATE_NEW_LO as int] == l[COL_STATE_PREV_LO as int] && l[COL_STATE_NEW_HI as int]
        == l[COL_STATE_PREV_HI as int]
}

/// The rules on a row and the next one: the table in use is a prefix that ends with a last block,
/// and the cursor of an invocation moves on with what is read.
pub open spec fn step_holds(l: Seq<int>, n: Seq<int>, slot: int) -> bool {
    let taken: int = if (slot < 17 || (26 <= slot < 29 && l[COL_IS_ZERO as int] == 1))
        && l[COL_IS_CHUNK_AVAIL as int] == 1 {
        1
    } else {
        0
    };
    &&& l[COL_ACT as int] == 0 ==> n[COL_ACT as int] == 0
    &&& l[COL_ACT as int] == 1 && n[COL_ACT as int] == 0 ==> slot == 31 && l[COL_IS_ZERO as int]
        == 1
    &&& !(slot == 31 && n[COL_IS_FIRST_BLOCK_OF_INVOCATION as int] == 1) ==> n[COL_CHUNK_PTR as int]
        == (l[COL_CHUNK_PTR as int] + taken) % (MODULUS as int)
}

/// The rules of the sponge.
pub open spec fn keeps_the_rules(rows: Seq<Seq<int>>) -> bool {
    &&& is_table(rows, NUM_MAIN_COLS as int)
    &&& rows.len() % (SPONGE_PERIOD as nat) == 0
    &&& forall|i: int|
        0 <= i < rows.len() ==> {
            &&& flags_hold(#[trigger] rows[i])
            &&& row_obeys(rows[i], following(rows, i), slot_of(i))
            &&& lanes_hold(rows[i], slot_of(i))
            &&& rows[i][COL_SPONGE_SEQ_ID as int] == i
        }
    &&& forall|i: int|
        0 <= i < rows.len() - 1 ==> step_holds(#[trigger] rows[i], rows[i + 1], slot_of(i))
}

/// The constraints on the control of a row vanish.
#[verifier::spinoff_prover]
#[verifier::rlimit(40)]
proof fn control_met(l: Seq<int>, n: Seq<int>, slot: int, k: int)
    requires
        flags_hold(l),
        flags_hold(n),
        row_obeys(l, n, slot),
        0 <= slot < 32,
        is_cell(l[COL_BYTES_LEFT as int]),
        0 <= k < 36,
        sponge_demands(l, n, program_row(slot))[k].0 == Rows::All,
    ensures
        sponge_demands(l, n, program_row(slot))[k].1 % (MODULUS as int) == 0,
{
    let d = sponge_demands(l, n, program_row(slot));
    let p = program_row(slot);
    selected(l);
    let act: int = l[COL_ACT as int];
    let left: int = l[COL_BYTES_LEFT as int];
    let left_next: int = n[COL_BYTES_LEFT as int];
    let zero: int = l[COL_IS_ZERO as int];
    let zero_next: int = n[COL_IS_ZERO as int];
    let first: int = l[COL_IS_FIRST_BLOCK_OF_INVOCATION as int];
    let first_next: int = n[COL_IS_FIRST_BLOCK_OF_INVOCATION as int];
    let avail: int = l[COL_IS_CHUNK_AVAIL as int];
    let avail_next: int = n[COL_IS_CHUNK_AVAIL as int];
    let (sum, weighted) = selectors(l);
    let p_last: int = p[2];
    let rate: int = p[3];
    vanishes(0, 0);
    if k < 14 {
        vanishes(act, 1 - act);
        vanishes(first, 1 - first);
        vanishes(zero, 1 - zero);
        vanishes(avail, 1 - avail);
        vanishes(1 - p_last, first_next - first);
        switched(act, rate);
        met_by_residue(act * rate, left_next, left - 8);
        assert(left_next - (left - 8) == left_next - left + 8);
        switched(p_last, first_next);
        switched(act, 1 - p_last * first_next);
        let free: int = act * (1 - p_last * first_next);
        switched(free, 1 - rate);
        vanishes(free * (1 - rate), left_next - left);
        vanishes(1 - avail, l[COL_CHUNK_LO as int]);
        vanishes(1 - avail, l[COL_CHUNK_HI as int]);
    } else if k < 22 {
        let b: int = l[COL_B_BEGIN + (k - 14)];
        assert(is_flag(l[COL_B_BEGIN + (k - 14)]));
        vanishes(b, 1 - b);
    } else if k < 25 {
        switched(1 - p_last, zero);
        vanishes((1 - p_last) * zero, 1 - zero_next);
        switched(1 - p_last, 1 - avail);
        vanishes((1 - p_last) * (1 - avail), avail_next);
        vanishes(p[1], zero);
    } else if k < 33 {
        let j: int = k - 25;
        let gap: int = n[COL_B_BEGIN + j] - l[COL_B_BEGIN + j];
        vanishes(1 - p_last, gap);
        assert(d[k].1 == (1 - p_last) * gap);
    } else {
        vanishes(1 - rate, sum - zero);
        switched(act, p_last);
        switched(act * p_last, first_next);
        vanishes(act * p_last * first_next, 1 - zero);
        switched(rate, zero_next - zero);
        vanishes(rate * (zero_next - zero), weighted - left);
    }
}

/// The constraints on the values of a row vanish.
#[verifier::spinoff_prover]
#[verifier::rlimit(40)]
proof fn lanes_met(l: Seq<int>, n: Seq<int>, slot: int, k: int)
    requires
        flags_hold(l),
        lanes_hold(l, slot),
        0 <= slot < 32,
        36 <= k < sponge_demands(l, n, program_row(slot)).len(),
    ensures
        sponge_demands(l, n, program_row(slot)).len() == 52,
        sponge_demands(l, n, program_row(slot))[k].1 % (MODULUS as int) == 0,
{
    let p = program_row(slot);
    let first: int = l[COL_IS_FIRST_BLOCK_OF_INVOCATION as int];
    let zero: int = l[COL_IS_ZERO as int];
    let rate: int = p[3];
    let capacity: int = p[4];
    if k < 42 {
        let lo: int = l[COL_STATE_NEW_LO as int] - l[COL_STATE_PREV_LO as int];
        let hi: int = l[COL_STATE_NEW_HI as int] - l[COL_STATE_PREV_HI as int];
        switched(first, rate + capacity);
        let fresh: int = (rate + capacity) * first;
        assert(fresh == first * (rate + capacity)) by (nonlinear_arith)
            requires
                fresh == (rate + capacity) * first,
        ;
        vanishes(fresh, l[COL_STATE_PREV_LO as int]);
        vanishes(fresh, l[COL_STATE_PREV_HI as int]);
        switched(rate, zero);
        vanishes(rate * zero, lo);
        vanishes(rate * zero, hi);
        vanishes(capacity, lo);
        vanishes(capacity, hi);
    }
}

/// The constraints on a row and the next one vanish.
#[verifier::spinoff_prover]
#[verifier::rlimit(40)]
proof fn step_met(l: Seq<int>, n: Seq<int>, slot: int, k: int)
    requires
        flags_hold(l),
        flags_hold(n),
        row_obeys(l, n, slot),
        step_holds(l, n, slot),
        n[COL_SPONGE_SEQ_ID as int] == l[COL_SPONGE_SEQ_ID as int] + 1,
        0 <= slot < 32,
        0 <= k < 36,
        sponge_demands(l, n, program_row(slot))[k].0 == Rows::AllButLast,
    ensures
        sponge_demands(l, n, program_row(slot))[k].1 % (MODULUS as int) == 0,
{
    let p = program_row(slot);
    selected(l);
    let act: int = l[COL_ACT as int];
    let next: int = n[COL_ACT as int];
    let sum: int = selectors(l).0;
    let p_last: int = p[2];
    let rate: int = p[3];
    let extra: int = p[10];
    let avail: int = l[COL_IS_CHUNK_AVAIL as int];
    let first_next: int = n[COL_IS_FIRST_BLOCK_OF_INVOCATION as int];
    vanishes(0, 0);
    vanishes(1 - act, next);
    switched(p_last, sum);
    vanishes(act - next, 1 - p_last * sum);
    switched(p_last, first_next);
    switched(extra, sum);
    switched(avail, rate + extra * sum);
    let taken: int = (rate + extra * sum) * avail;
    assert(taken == avail * (rate + extra * sum)) by (nonlinear_arith)
        requires
            taken == (rate + extra * sum) * avail,
    ;
    let moved: int = l[COL_CHUNK_PTR as int] + taken;
    met_by_residue(1 - p_last * first_next, n[COL_CHUNK_PTR as int], moved);
    assert(n[COL_CHUNK_PTR as int] - moved == n[COL_CHUNK_PTR as int] - l[COL_CHUNK_PTR as int]
        - taken);
    assert(k == 2 || k == 3 || k == 4 || k == 9);
}

/// Only the number of the row is asked on the first row.
#[verifier::spinoff_prover]
#[verifier::rlimit(40)]
proof fn first_asks_the_number(l: Seq<int>, n: Seq<int>, slot: int, k: int)
    requires
        0 <= k < 36,
        sponge_demands(l, n, program_row(slot))[k].0 == Rows::First,
    ensures
        sponge_demands(l, n, program_row(slot))[k].1 == l[COL_SPONGE_SEQ_ID as int],
{
    assert(k == 0);
}

/// The constraints of the sponge are its rules: no table that breaks one satisfies them, and every
/// table that keeps them does.
pub proof fn constraints_are_the_rules(rows: Seq<Seq<int>>)
    requires
        is_table(rows, NUM_MAIN_COLS as int),
        rows.len() % (SPONGE_PERIOD as nat) == 0,
    ensures
        satisfied(rows) <==> keeps_the_rules(rows),
{
    if satisfied(rows) {
        assert forall|i: int| 0 <= i < rows.len() implies flags_hold(#[trigger] rows[i])
            && row_obeys(rows[i], following(rows, i), slot_of(i)) && lanes_hold(
            rows[i],
            slot_of(i),
        ) && rows[i][COL_SPONGE_SEQ_ID as int] == i by {
            rows_obey(rows, i);
            rows_step(rows, i);
            lanes_agree_with_their_bytes(rows, i);
            lanes_keep_or_absorb(rows, i);
        }
        assert forall|i: int| 0 <= i < rows.len() - 1 implies step_holds(
            #[trigger] rows[i],
            rows[i + 1],
            slot_of(i),
        ) by {
            rows_step(rows, i);
        }
    }
    if keeps_the_rules(rows) {
        assert forall|i: int| 0 <= i < rows.len() implies is_met(
            #[trigger] sponge_demands(rows[i], following(rows, i), program_row(slot_of(i))),
            i == 0,
            i == rows.len() - 1,
        ) by {
            let l = rows[i];
            let n = following(rows, i);
            let slot = slot_of(i);
            let d = sponge_demands(l, n, program_row(slot));
            let next: int = if i + 1 < rows.len() { i + 1 } else { 0 };
            assert(flags_hold(rows[i]) && flags_hold(rows[next]) && n == rows[next]);
            assert(is_cell(rows[i][COL_BYTES_LEFT as int]));
            assert forall|k: int|
                0 <= k < d.len() && is_enforced(
                    (#[trigger] d[k]).0,
                    i == 0,
                    i == rows.len() - 1,
                ) implies d[k].1 % (MODULUS as int) == 0 by {
                if k >= 36 {
                    lanes_met(l, n, slot, k);
                } else if d[k].0 == Rows::All {
                    control_met(l, n, slot, k);
                } else if d[k].0 == Rows::AllButLast {
                    assert(step_holds(rows[i], rows[i + 1], slot_of(i)));
                    step_met(l, n, slot, k);
                } else {
                    first_asks_the_number(l, n, slot, k);
                    vanishes(0, 0);
                }
            }
        }
    }
}

} // verus!
