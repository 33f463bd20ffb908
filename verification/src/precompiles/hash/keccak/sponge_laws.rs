//! What the sponge proves: a message is absorbed eight bytes to a row, padded behind its last byte,
//! and spread over as many blocks as it needs.

use crate::precompiles::field::MODULUS;
use crate::precompiles::hash::keccak::sponge::program::{
    sponge_cell, NUM_PERIODIC_COLS, SPONGE_PERIOD,
};
use crate::precompiles::hash::keccak::sponge::{
    selectors, selectors_upto, sponge_demands, COL_ACT, COL_BYTES_LEFT, COL_B_BEGIN, COL_CHUNK_HI,
    COL_CHUNK_LO, COL_CHUNK_PTR, COL_IS_CHUNK_AVAIL, COL_IS_FIRST_BLOCK_OF_INVOCATION, COL_IS_ZERO,
    COL_SPONGE_SEQ_ID, NUM_MAIN_COLS,
};
use crate::precompiles::logup::{bool_poly, Rows};
use crate::precompiles::trace::{
    following, is_cell, is_flag, is_met, is_table, released, residue_of, same_cell, small_and_zero,
    switched, zero_or_one,
};
use vstd::arithmetic::div_mod::{lemma_fundamental_div_mod, lemma_small_mod, lemma_sub_mod_noop};
use vstd::prelude::*;

verus! {

/// The entries of the program on row `slot` of a block.
pub open spec fn program_row(slot: int) -> Seq<int> {
    Seq::new(NUM_PERIODIC_COLS as nat, |col: int| sponge_cell(col, slot) as int)
}

/// The place of a row in its block.
pub open spec fn slot_of(i: int) -> int {
    i % (SPONGE_PERIOD as int)
}

/// Whether a table of whole blocks satisfies the constraints of the sponge.
pub open spec fn satisfied(rows: Seq<Seq<int>>) -> bool {
    &&& is_table(rows, NUM_MAIN_COLS as int)
    &&& rows.len() % (SPONGE_PERIOD as nat) == 0
    &&& forall|i: int|
        0 <= i < rows.len() ==> is_met(
            #[trigger] sponge_demands(rows[i], following(rows, i), program_row(slot_of(i))),
            i == 0,
            i == rows.len() - 1,
        )
}

/// The flags of a row are zero or one.
pub open spec fn flags_hold(l: Seq<int>) -> bool {
    &&& is_flag(l[COL_ACT as int])
    &&& is_flag(l[COL_IS_FIRST_BLOCK_OF_INVOCATION as int])
    &&& is_flag(l[COL_IS_ZERO as int])
    &&& is_flag(l[COL_IS_CHUNK_AVAIL as int])
    &&& forall|j: int| 0 <= j < 8 ==> is_flag(#[trigger] l[COL_B_BEGIN + j])
}

/// The flags of every row are zero or one.
#[verifier::spinoff_prover]
#[verifier::rlimit(30)]
pub proof fn flags_are_zero_or_one(rows: Seq<Seq<int>>, i: int)
    requires
        satisfied(rows),
        0 <= i < rows.len(),
    ensures
        flags_hold(rows[i]),
{
    let l = rows[i];
    let d = sponge_demands(l, following(rows, i), program_row(slot_of(i)));
    assert(is_met(d, i == 0, i == rows.len() - 1));
    assert(d[1] == (Rows::All, bool_poly(l[COL_ACT as int])));
    assert(d[5] == (Rows::All, bool_poly(l[COL_IS_FIRST_BLOCK_OF_INVOCATION as int])));
    assert(d[12] == (Rows::All, bool_poly(l[COL_IS_ZERO as int])));
    assert(d[13] == (Rows::All, bool_poly(l[COL_IS_CHUNK_AVAIL as int])));
    assert(is_cell(l[COL_ACT as int]) && is_cell(l[COL_IS_FIRST_BLOCK_OF_INVOCATION as int]));
    assert(is_cell(l[COL_IS_ZERO as int]) && is_cell(l[COL_IS_CHUNK_AVAIL as int]));
    zero_or_one(l[COL_ACT as int]);
    zero_or_one(l[COL_IS_FIRST_BLOCK_OF_INVOCATION as int]);
    zero_or_one(l[COL_IS_ZERO as int]);
    zero_or_one(l[COL_IS_CHUNK_AVAIL as int]);
    assert forall|j: int| 0 <= j < 8 implies is_flag(#[trigger] l[COL_B_BEGIN + j]) by {
        assert(d[14 + j] == (Rows::All, bool_poly(l[COL_B_BEGIN + j])));
        assert(is_cell(l[COL_B_BEGIN + j]));
        zero_or_one(l[COL_B_BEGIN + j]);
    }
}

/// What the constraints ask of a row, as polynomials.
pub open spec fn is_asked(l: Seq<int>, n: Seq<int>, slot: int) -> bool {
    let m = MODULUS as int;
    let p_first: int = if slot == 0 { 1 } else { 0 };
    let p_last: int = if slot == 31 { 1 } else { 0 };
    let rate: int = if slot < 17 { 1 } else { 0 };
    let extra: int = if 26 <= slot < 29 { 1 } else { 0 };
    let act = l[COL_ACT as int];
    let left = l[COL_BYTES_LEFT as int];
    let left_next = n[COL_BYTES_LEFT as int];
    let zero = l[COL_IS_ZERO as int];
    let zero_next = n[COL_IS_ZERO as int];
    let first = l[COL_IS_FIRST_BLOCK_OF_INVOCATION as int];
    let first_next = n[COL_IS_FIRST_BLOCK_OF_INVOCATION as int];
    let avail = l[COL_IS_CHUNK_AVAIL as int];
    let avail_next = n[COL_IS_CHUNK_AVAIL as int];
    let (sum, weighted) = selectors(l);
    &&& ((1 - p_last) * (first_next - first)) % m == 0
    &&& (act * rate * (left_next - left + 8)) % m == 0
    &&& (act * (1 - p_last * first_next) * (1 - rate) * (left_next - left)) % m == 0
    &&& ((1 - avail) * l[COL_CHUNK_LO as int]) % m == 0
    &&& ((1 - avail) * l[COL_CHUNK_HI as int]) % m == 0
    &&& ((1 - p_last) * zero * (1 - zero_next)) % m == 0
    &&& ((1 - p_last) * (1 - avail) * avail_next) % m == 0
    &&& (p_first * zero) % m == 0
    &&& ((1 - rate) * (sum - zero)) % m == 0
    &&& (act * p_last * first_next * (1 - zero)) % m == 0
    &&& (rate * (zero_next - zero) * (weighted - left)) % m == 0
    &&& forall|j: int|
        0 <= j < 8 ==> ((1 - p_last) * (n[COL_B_BEGIN + j] - #[trigger] l[COL_B_BEGIN + j])) % m
            == 0
}

#[verifier::spinoff_prover]
#[verifier::rlimit(30)]
proof fn row_asked(rows: Seq<Seq<int>>, i: int)
    requires
        satisfied(rows),
        0 <= i < rows.len(),
    ensures
        is_asked(rows[i], following(rows, i), slot_of(i)),
{
    let l = rows[i];
    let n = following(rows, i);
    let slot = slot_of(i);
    let p = program_row(slot);
    let d = sponge_demands(l, n, p);
    assert(is_met(d, i == 0, i == rows.len() - 1));
    assert(d[6].0 == Rows::All && d[7].0 == Rows::All && d[8].0 == Rows::All);
    assert(d[10].0 == Rows::All && d[11].0 == Rows::All && d[22].0 == Rows::All);
    assert(d[23].0 == Rows::All && d[24].0 == Rows::All && d[33].0 == Rows::All);
    assert(d[34].0 == Rows::All && d[35].0 == Rows::All);
    assert forall|j: int| 0 <= j < 8 implies ((1 - p[2]) * (n[COL_B_BEGIN + j]
        - #[trigger] l[COL_B_BEGIN + j])) % (MODULUS as int) == 0 by {
        assert(d[25 + j].0 == Rows::All);
    }
}

/// What the constraints ask between a row and its successor, except on the last row.
#[verifier::spinoff_prover]
#[verifier::rlimit(30)]
proof fn step_asked(rows: Seq<Seq<int>>, i: int)
    requires
        satisfied(rows),
        0 <= i < rows.len(),
    ensures
        ({
            let l = rows[i];
            let n = following(rows, i);
            let slot = slot_of(i);
            let m = MODULUS as int;
            let p_last: int = if slot == 31 { 1 } else { 0 };
            let rate: int = if slot < 17 { 1 } else { 0 };
            let extra: int = if 26 <= slot < 29 { 1 } else { 0 };
            let act = l[COL_ACT as int];
            let next = n[COL_ACT as int];
            let first_next = n[COL_IS_FIRST_BLOCK_OF_INVOCATION as int];
            let sum = selectors(l).0;
            &&& i == 0 ==> l[COL_SPONGE_SEQ_ID as int] % m == 0
            &&& i < rows.len() - 1 ==> {
                &&& ((1 - act) * next) % m == 0
                &&& ((act - next) * (1 - p_last * sum)) % m == 0
                &&& (n[COL_SPONGE_SEQ_ID as int] - l[COL_SPONGE_SEQ_ID as int] - 1) % m == 0
                &&& ((1 - p_last * first_next) * (n[COL_CHUNK_PTR as int]
                    - l[COL_CHUNK_PTR as int] - (rate + extra * sum)
                    * l[COL_IS_CHUNK_AVAIL as int])) % m == 0
            }
        }),
{
    let l = rows[i];
    let n = following(rows, i);
    let d = sponge_demands(l, n, program_row(slot_of(i)));
    assert(is_met(d, i == 0, i == rows.len() - 1));
    assert(d[0].0 == Rows::First && d[2].0 == Rows::AllButLast && d[3].0 == Rows::AllButLast);
    assert(d[4].0 == Rows::AllButLast && d[9].0 == Rows::AllButLast);
}

/// Where one selector of a row is set, the weighted sum is its place.
pub proof fn selected(l: Seq<int>)
    requires
        flags_hold(l),
    ensures
        0 <= selectors(l).0 <= 8,
        0 <= selectors(l).1 <= 28,
        selectors(l).0 == 0 ==> forall|j: int| 0 <= j < 8 ==> #[trigger] l[COL_B_BEGIN + j] == 0,
        selectors(l).0 == 1 ==> 0 <= selectors(l).1 < 8 && forall|j: int|
            0 <= j < 8 ==> #[trigger] l[COL_B_BEGIN + j] == if j == selectors(l).1 {
                1int
            } else {
                0
            },
{
    reveal_with_fuel(selectors_upto, 9);
    assert(is_flag(l[COL_B_BEGIN + 0]) && is_flag(l[COL_B_BEGIN + 1]));
    assert(is_flag(l[COL_B_BEGIN + 2]) && is_flag(l[COL_B_BEGIN + 3]));
    assert(is_flag(l[COL_B_BEGIN + 4]) && is_flag(l[COL_B_BEGIN + 5]));
    assert(is_flag(l[COL_B_BEGIN + 6]) && is_flag(l[COL_B_BEGIN + 7]));
}

/// What the constraints say of a row and its successor.
pub open spec fn row_obeys(l: Seq<int>, n: Seq<int>, slot: int) -> bool {
    let act = l[COL_ACT as int];
    let zero = l[COL_IS_ZERO as int];
    let zero_next = n[COL_IS_ZERO as int];
    let starts = slot == 31 && n[COL_IS_FIRST_BLOCK_OF_INVOCATION as int] == 1;
    let (sum, weighted) = selectors(l);
    &&& slot != 31 ==> n[COL_IS_FIRST_BLOCK_OF_INVOCATION as int]
        == l[COL_IS_FIRST_BLOCK_OF_INVOCATION as int]
    &&& slot != 31 ==> forall|j: int|
        0 <= j < 8 ==> n[COL_B_BEGIN + j] == #[trigger] l[COL_B_BEGIN + j]
    &&& slot < 17 && act == 1 ==> n[COL_BYTES_LEFT as int] == (l[COL_BYTES_LEFT as int] - 8) % (
    MODULUS as int)
    &&& slot >= 17 && act == 1 && !starts ==> n[COL_BYTES_LEFT as int] == l[COL_BYTES_LEFT as int]
    &&& l[COL_IS_CHUNK_AVAIL as int] == 0 ==> l[COL_CHUNK_LO as int] == 0 && l[COL_CHUNK_HI as int]
        == 0
    &&& slot != 31 && zero == 1 ==> zero_next == 1
    &&& slot != 31 && l[COL_IS_CHUNK_AVAIL as int] == 0 ==> n[COL_IS_CHUNK_AVAIL as int] == 0
    &&& slot == 0 ==> zero == 0
    &&& slot >= 17 ==> sum == zero
    &&& act == 1 && starts ==> zero == 1
    &&& slot < 17 && zero == 0 && zero_next == 1 ==> l[COL_BYTES_LEFT as int] == weighted
}

/// The rules of a row follow from its constraints.
#[verifier::spinoff_prover]
#[verifier::rlimit(30)]
pub proof fn rows_obey(rows: Seq<Seq<int>>, i: int)
    requires
        satisfied(rows),
        0 <= i < rows.len(),
    ensures
        row_obeys(rows[i], following(rows, i), slot_of(i)),
        flags_hold(rows[i]),
        flags_hold(following(rows, i)),
{
    let l = rows[i];
    let n = following(rows, i);
    let next: int = if i + 1 < rows.len() { i + 1 } else { 0 };
    assert(n == rows[next]);
    let slot = slot_of(i);
    flags_are_zero_or_one(rows, i);
    flags_are_zero_or_one(rows, next);
    row_asked(rows, i);
    selected(l);
    let m = MODULUS as int;
    let act: int = l[COL_ACT as int];
    let left: int = l[COL_BYTES_LEFT as int];
    let left_next: int = n[COL_BYTES_LEFT as int];
    let zero: int = l[COL_IS_ZERO as int];
    let zero_next: int = n[COL_IS_ZERO as int];
    let first: int = l[COL_IS_FIRST_BLOCK_OF_INVOCATION as int];
    let first_next: int = n[COL_IS_FIRST_BLOCK_OF_INVOCATION as int];
    let avail: int = l[COL_IS_CHUNK_AVAIL as int];
    let avail_next: int = n[COL_IS_CHUNK_AVAIL as int];
    let (sum, weighted) = selectors(l);
    let p_last: int = if slot == 31 { 1 } else { 0 };
    let rate: int = if slot < 17 { 1 } else { 0 };
    assert(is_cell(rows[i][COL_BYTES_LEFT as int]) && is_cell(rows[next][COL_BYTES_LEFT as int]));
    assert(is_cell(rows[i][COL_CHUNK_LO as int]) && is_cell(rows[i][COL_CHUNK_HI as int]));
    if slot != 31 {
        released(1 - p_last, first_next - first);
        small_and_zero(first_next - first);
        assert forall|j: int| 0 <= j < 8 implies n[COL_B_BEGIN + j]
            == #[trigger] l[COL_B_BEGIN + j] by {
            released(1 - p_last, n[COL_B_BEGIN + j] - l[COL_B_BEGIN + j]);
            assert(is_flag(n[COL_B_BEGIN + j]));
            small_and_zero(n[COL_B_BEGIN + j] - l[COL_B_BEGIN + j]);
        }
        if zero == 1 {
            product(1 - p_last, zero);
            released((1 - p_last) * zero, 1 - zero_next);
            small_and_zero(1 - zero_next);
        }
        if avail == 0 {
            product(1 - p_last, 1 - avail);
            released((1 - p_last) * (1 - avail), avail_next);
            small_and_zero(avail_next);
        }
    }
    if slot < 17 && act == 1 {
        product(act, rate);
        released(act * rate, left_next - left + 8);
        residue_of(left_next, left - 8);
    }
    let starts = slot == 31 && first_next == 1;
    if slot >= 17 && act == 1 && !starts {
        switched(p_last, first_next);
        product(act, 1 - p_last * first_next);
        product(act * (1 - p_last * first_next), 1 - rate);
        released(act * (1 - p_last * first_next) * (1 - rate), left_next - left);
        same_cell(left_next, left);
    }
    if avail == 0 {
        released(1 - avail, l[COL_CHUNK_LO as int]);
        released(1 - avail, l[COL_CHUNK_HI as int]);
        small_and_zero(l[COL_CHUNK_LO as int]);
        small_and_zero(l[COL_CHUNK_HI as int]);
    }
    if slot == 0 {
        released(1, zero);
        small_and_zero(zero);
    }
    if slot >= 17 {
        released(1 - rate, sum - zero);
        small_and_zero(sum - zero);
    }
    if act == 1 && starts {
        product(act, p_last);
        product(act * p_last, first_next);
        released(act * p_last * first_next, 1 - zero);
        small_and_zero(1 - zero);
    }
    if slot < 17 && zero == 0 && zero_next == 1 {
        product(rate, zero_next - zero);
        released(rate * (zero_next - zero), weighted - left);
        same_cell(weighted, left);
    }
}

proof fn product(a: int, b: int)
    requires
        a == 1,
        b == 1,
    ensures
        a * b == 1,
{
    assert(a * b == 1) by (nonlinear_arith)
        requires
            a == 1,
            b == 1,
    ;
}

/// Rows are numbered, a table in use is a prefix of it, and use ends only with a last block.
#[verifier::spinoff_prover]
#[verifier::rlimit(30)]
pub proof fn rows_step(rows: Seq<Seq<int>>, i: int)
    requires
        satisfied(rows),
        0 <= i < rows.len(),
    ensures
        rows[i][COL_SPONGE_SEQ_ID as int] == i,
        i < rows.len() - 1 ==> {
            let l = rows[i];
            let n = rows[i + 1];
            let taken: int = if (slot_of(i) < 17 || (26 <= slot_of(i) < 29 && l[COL_IS_ZERO as int]
                == 1)) && l[COL_IS_CHUNK_AVAIL as int] == 1 {
                1
            } else {
                0
            };
            &&& l[COL_ACT as int] == 0 ==> n[COL_ACT as int] == 0
            &&& l[COL_ACT as int] == 1 && n[COL_ACT as int] == 0 ==> slot_of(i) == 31
                && l[COL_IS_ZERO as int] == 1
            &&& !(slot_of(i) == 31 && n[COL_IS_FIRST_BLOCK_OF_INVOCATION as int] == 1)
                ==> n[COL_CHUNK_PTR as int] == (l[COL_CHUNK_PTR as int] + taken) % (MODULUS as int)
        },
    decreases i,
{
    step_asked(rows, i);
    rows_obey(rows, i);
    selected(rows[i]);
    let l = rows[i];
    let n = following(rows, i);
    let m = MODULUS as int;
    assert(is_cell(rows[i][COL_SPONGE_SEQ_ID as int]));
    if i > 0 {
        rows_step(rows, i - 1);
        step_asked(rows, i - 1);
        assert(following(rows, i - 1) == rows[i]);
        same_cell(l[COL_SPONGE_SEQ_ID as int], i);
    } else {
        small_and_zero(l[COL_SPONGE_SEQ_ID as int]);
    }
    if i < rows.len() - 1 {
        let slot = slot_of(i);
        let act: int = l[COL_ACT as int];
        let next: int = n[COL_ACT as int];
        let sum: int = selectors(l).0;
        let p_last: int = if slot == 31 { 1 } else { 0 };
        let rate: int = if slot < 17 { 1 } else { 0 };
        let extra: int = if 26 <= slot < 29 { 1 } else { 0 };
        let avail: int = l[COL_IS_CHUNK_AVAIL as int];
        let first_next: int = n[COL_IS_FIRST_BLOCK_OF_INVOCATION as int];
        if act == 0 {
            released(1 - act, next);
            small_and_zero(next);
        }
        switched(p_last, sum);
        if act == 1 && next == 0 {
            released(act - next, 1 - p_last * sum);
            small_and_zero(1 - p_last * sum);
        }
        if !(slot == 31 && first_next == 1) {
            switched(p_last, first_next);
            switched(extra, sum);
            switched(avail, rate + extra * sum);
            let taken: int = (rate + extra * sum) * avail;
            assert(taken == avail * (rate + extra * sum)) by (nonlinear_arith)
                requires
                    taken == (rate + extra * sum) * avail,
            ;
            released(
                1 - p_last * first_next,
                n[COL_CHUNK_PTR as int] - l[COL_CHUNK_PTR as int] - taken,
            );
            assert(is_cell(rows[i + 1][COL_CHUNK_PTR as int]));
            residue_of(n[COL_CHUNK_PTR as int], l[COL_CHUNK_PTR as int] + taken);
        }
    }
}

/// A block: its number is in the table.
pub open spec fn is_block(rows: Seq<Seq<int>>, block: int) -> bool {
    0 <= block && SPONGE_PERIOD * block < rows.len()
}

/// A row of a block.
pub open spec fn row_at(rows: Seq<Seq<int>>, block: int, slot: int) -> Seq<int> {
    rows[SPONGE_PERIOD * block + slot]
}

/// The rows of a block are all in use or none of them is, and they agree on whether they start an
/// invocation and on where its padding lies.
pub proof fn blocks_are_uniform(rows: Seq<Seq<int>>, block: int, slot: int)
    requires
        satisfied(rows),
        is_block(rows, block),
        0 <= slot < SPONGE_PERIOD,
    ensures
        SPONGE_PERIOD * block + slot < rows.len(),
        slot_of(SPONGE_PERIOD * block + slot) == slot,
        slot < 31 ==> following(rows, SPONGE_PERIOD * block + slot) == row_at(
            rows,
            block,
            slot + 1,
        ),
        row_at(rows, block, slot)[COL_ACT as int] == row_at(rows, block, 0)[COL_ACT as int],
        row_at(rows, block, slot)[COL_IS_FIRST_BLOCK_OF_INVOCATION as int] == row_at(
            rows,
            block,
            0,
        )[COL_IS_FIRST_BLOCK_OF_INVOCATION as int],
        forall|j: int|
            0 <= j < 8 ==> #[trigger] row_at(rows, block, slot)[COL_B_BEGIN + j] == row_at(
                rows,
                block,
                0,
            )[COL_B_BEGIN + j],
    decreases slot,
{
    assert(SPONGE_PERIOD * block + slot < rows.len());
    assert(slot_of(SPONGE_PERIOD * block + slot) == slot);
    if slot > 0 {
        blocks_are_uniform(rows, block, slot - 1);
        let i: int = SPONGE_PERIOD * block + slot - 1;
        rows_obey(rows, i);
        rows_step(rows, i);
        assert forall|j: int| 0 <= j < 8 implies #[trigger] row_at(rows, block, slot)[COL_B_BEGIN
            + j] == row_at(rows, block, 0)[COL_B_BEGIN + j] by {
            assert(row_at(rows, block, slot - 1)[COL_B_BEGIN + j] == row_at(
                rows,
                block,
                0,
            )[COL_B_BEGIN + j]);
        }
    }
}

/// An invocation: `count` blocks in use of which the first one, and no other, starts it.
pub open spec fn is_invocation(rows: Seq<Seq<int>>, start: int, count: int) -> bool {
    &&& 0 <= start
    &&& 0 < count
    &&& SPONGE_PERIOD * (start + count) <= rows.len()
    &&& forall|t: int|
        0 <= t < count ==> (#[trigger] row_at(rows, start + t, 0))[COL_ACT as int] == 1
            && row_at(rows, start + t, 0)[COL_IS_FIRST_BLOCK_OF_INVOCATION as int] == if t == 0 {
            1int
        } else {
            0
        }
}

/// What follows the invocation is not in use or starts another one.
pub open spec fn is_over(rows: Seq<Seq<int>>, start: int, count: int) -> bool {
    let n = following(rows, SPONGE_PERIOD * (start + count) - 1);
    ||| n[COL_IS_FIRST_BLOCK_OF_INVOCATION as int] == 1
    ||| n[COL_ACT as int] == 0 && SPONGE_PERIOD * (start + count) < rows.len()
}

/// The length of the message of an invocation, in bytes: what is left to absorb on its first row.
pub open spec fn message_len(rows: Seq<Seq<int>>, start: int) -> int {
    row_at(rows, start, 0)[COL_BYTES_LEFT as int]
}

/// How many rows have absorbed a lane before row `slot` of block `t` of an invocation.
pub open spec fn absorbed_before(t: int, slot: int) -> int {
    17 * t + if slot < 17 { slot } else { 17 }
}

/// Along an invocation each absorbing row takes eight bytes: before row `slot` of block `t` the
/// bytes left are those of the message but eight for each absorbing row before it.
#[verifier::spinoff_prover]
#[verifier::rlimit(30)]
pub proof fn bytes_left_count_down(
    rows: Seq<Seq<int>>,
    start: int,
    count: int,
    t: int,
    slot: int,
)
    requires
        satisfied(rows),
        is_invocation(rows, start, count),
        0 <= t < count,
        0 <= slot < SPONGE_PERIOD,
    ensures
        row_at(rows, start + t, slot)[COL_BYTES_LEFT as int] == (message_len(rows, start) - 8
            * absorbed_before(t, slot)) % (MODULUS as int),
    decreases t, slot,
{
    let m = MODULUS as int;
    let len = message_len(rows, start);
    assert(row_at(rows, start + t, 0)[COL_ACT as int] == 1);
    assert(is_block(rows, start + t));
    if t == 0 && slot == 0 {
        assert(is_cell(rows[SPONGE_PERIOD * start][COL_BYTES_LEFT as int]));
        lemma_small_mod(len as nat, MODULUS as nat);
    } else if slot == 0 {
        bytes_left_count_down(rows, start, count, t - 1, 31);
        assert(row_at(rows, start + (t - 1), 0)[COL_ACT as int] == 1);
        blocks_are_uniform(rows, start + (t - 1), 31);
        let i: int = SPONGE_PERIOD * (start + (t - 1)) + 31;
        rows_obey(rows, i);
        assert(i + 1 == SPONGE_PERIOD * (start + t));
        assert(following(rows, i) == row_at(rows, start + t, 0));
    } else {
        bytes_left_count_down(rows, start, count, t, slot - 1);
        blocks_are_uniform(rows, start + t, slot - 1);
        let i: int = SPONGE_PERIOD * (start + t) + (slot - 1);
        rows_obey(rows, i);
        assert(following(rows, i) == row_at(rows, start + t, slot));
        if slot - 1 < 17 {
            let x: int = len - 8 * absorbed_before(t, slot - 1);
            assert(absorbed_before(t, slot) == absorbed_before(t, slot - 1) + 1);
            lemma_sub_mod_noop(x, 8, m);
            lemma_small_mod(8, MODULUS as nat);
        }
    }
}

/// The row of a block behind which its padding lies: its flag is off up to it and on after it.
pub open spec fn pads_at(rows: Seq<Seq<int>>, block: int, slot: int) -> bool {
    &&& 0 <= slot < 17
    &&& forall|s: int|
        0 <= s < SPONGE_PERIOD ==> (#[trigger] row_at(rows, block, s))[COL_IS_ZERO as int]
            == if s <= slot {
            0int
        } else {
            1
        }
}

/// Along a block the flag of the padding turns on at most once, and stays on.
proof fn padding_stays(rows: Seq<Seq<int>>, block: int, a: int, b: int)
    requires
        satisfied(rows),
        is_block(rows, block),
        0 <= a <= b < SPONGE_PERIOD,
        row_at(rows, block, a)[COL_IS_ZERO as int] == 1,
    ensures
        row_at(rows, block, b)[COL_IS_ZERO as int] == 1,
    decreases b - a,
{
    if a < b {
        padding_stays(rows, block, a, b - 1);
        blocks_are_uniform(rows, block, b - 1);
        rows_obey(rows, SPONGE_PERIOD * block + (b - 1));
    }
}

/// The first row behind which the padding lies, if the flag is on by row `slot`.
proof fn padding_begins(rows: Seq<Seq<int>>, block: int, slot: int) -> (at: int)
    requires
        satisfied(rows),
        is_block(rows, block),
        0 <= slot < SPONGE_PERIOD,
        row_at(rows, block, slot)[COL_IS_ZERO as int] == 1,
    ensures
        0 <= at < slot,
        row_at(rows, block, at)[COL_IS_ZERO as int] == 0,
        row_at(rows, block, at + 1)[COL_IS_ZERO as int] == 1,
    decreases slot,
{
    blocks_are_uniform(rows, block, slot);
    rows_obey(rows, SPONGE_PERIOD * block + slot);
    if slot > 0 {
        blocks_are_uniform(rows, block, slot - 1);
        rows_obey(rows, SPONGE_PERIOD * block + (slot - 1));
        if row_at(rows, block, slot - 1)[COL_IS_ZERO as int] == 1 {
            padding_begins(rows, block, slot - 1)
        } else {
            slot - 1
        }
    } else {
        0
    }
}

/// The selectors of a block are the same on all its rows.
proof fn selectors_uniform(rows: Seq<Seq<int>>, block: int, slot: int)
    requires
        satisfied(rows),
        is_block(rows, block),
        0 <= slot < SPONGE_PERIOD,
    ensures
        selectors(row_at(rows, block, slot)) == selectors(row_at(rows, block, 0)),
{
    reveal_with_fuel(selectors_upto, 9);
    blocks_are_uniform(rows, block, slot);
    let l = row_at(rows, block, slot);
    let o = row_at(rows, block, 0);
    assert(l[COL_B_BEGIN + 0] == o[COL_B_BEGIN + 0] && l[COL_B_BEGIN + 1] == o[COL_B_BEGIN + 1]);
    assert(l[COL_B_BEGIN + 2] == o[COL_B_BEGIN + 2] && l[COL_B_BEGIN + 3] == o[COL_B_BEGIN + 3]);
    assert(l[COL_B_BEGIN + 4] == o[COL_B_BEGIN + 4] && l[COL_B_BEGIN + 5] == o[COL_B_BEGIN + 5]);
    assert(l[COL_B_BEGIN + 6] == o[COL_B_BEGIN + 6] && l[COL_B_BEGIN + 7] == o[COL_B_BEGIN + 7]);
}

/// A block whose flag is on by its end pads once, on an absorbing row, at the byte that its one
/// selector names, and that many bytes are left there.
#[verifier::spinoff_prover]
#[verifier::rlimit(30)]
proof fn block_pads(rows: Seq<Seq<int>>, block: int) -> (at: int)
    requires
        satisfied(rows),
        is_block(rows, block),
        row_at(rows, block, 31)[COL_IS_ZERO as int] == 1,
    ensures
        pads_at(rows, block, at),
        selectors(row_at(rows, block, 0)).0 == 1,
        row_at(rows, block, at)[COL_BYTES_LEFT as int] == selectors(row_at(rows, block, 0)).1,
{
    blocks_are_uniform(rows, block, 31);
    rows_obey(rows, SPONGE_PERIOD * block + 31);
    selectors_uniform(rows, block, 31);
    blocks_are_uniform(rows, block, 17);
    rows_obey(rows, SPONGE_PERIOD * block + 17);
    selectors_uniform(rows, block, 17);
    let at = padding_begins(rows, block, 17);
    blocks_are_uniform(rows, block, at);
    rows_obey(rows, SPONGE_PERIOD * block + at);
    selectors_uniform(rows, block, at);
    assert forall|s: int| 0 <= s < SPONGE_PERIOD implies (#[trigger] row_at(
        rows,
        block,
        s,
    ))[COL_IS_ZERO as int] == if s <= at {
        0int
    } else {
        1
    } by {
        blocks_are_uniform(rows, block, s);
        rows_obey(rows, SPONGE_PERIOD * block + s);
        if s <= at {
            if row_at(rows, block, s)[COL_IS_ZERO as int] == 1 {
                padding_stays(rows, block, s, at);
            }
        } else {
            padding_stays(rows, block, at + 1, s);
        }
    }
    at
}

/// The padding of a block of an invocation lies at the end of the message.
#[verifier::spinoff_prover]
#[verifier::rlimit(30)]
proof fn padding_is_at_the_end(
    rows: Seq<Seq<int>>,
    start: int,
    count: int,
    t: int,
) -> (at: int)
    requires
        satisfied(rows),
        is_invocation(rows, start, count),
        0 <= t < count,
        136 * count < MODULUS,
        row_at(rows, start + t, 31)[COL_IS_ZERO as int] == 1,
    ensures
        pads_at(rows, start + t, at),
        selectors(row_at(rows, start + t, 0)).0 == 1,
        0 <= selectors(row_at(rows, start + t, 0)).1 < 8,
        message_len(rows, start) == 8 * absorbed_before(t, at) + selectors(
            row_at(rows, start + t, 0),
        ).1,
{
    assert(row_at(rows, start + t, 0)[COL_ACT as int] == 1);
    assert(is_block(rows, start + t));
    let at = block_pads(rows, start + t);
    bytes_left_count_down(rows, start, count, t, at);
    blocks_are_uniform(rows, start + t, 0);
    rows_obey(rows, SPONGE_PERIOD * (start + t) + 0);
    selected(row_at(rows, start + t, 0));
    let len = message_len(rows, start);
    let m = MODULUS as int;
    let j = selectors(row_at(rows, start + t, 0)).1;
    let x: int = len - 8 * absorbed_before(t, at);
    assert(is_cell(rows[SPONGE_PERIOD * start][COL_BYTES_LEFT as int]));
    lemma_fundamental_div_mod(x, m);
    let q = x / m;
    assert(q == 0) by (nonlinear_arith)
        requires
            x == m * q + j,
            0 <= j < 8,
            -(m - 8) <= x < m,
            m > 8,
    ;
    assert(m * q == 0) by (nonlinear_arith)
        requires
            q == 0,
    ;
    at
}

/// A message of `len` bytes takes `len / 136 + 1` blocks. Only the last one pads: behind the row that
/// absorbs byte `len`, at the byte of that row, so that the padding starts right behind the `len`
/// bytes of the message.
#[verifier::spinoff_prover]
#[verifier::rlimit(30)]
pub proof fn padding_starts_behind_the_message(rows: Seq<Seq<int>>, start: int, count: int)
    requires
        satisfied(rows),
        is_invocation(rows, start, count),
        is_over(rows, start, count),
        136 * count < MODULUS,
    ensures
        ({
            let len = message_len(rows, start);
            &&& count == len / 136 + 1
            &&& pads_at(rows, start + count - 1, (len % 136) / 8)
            &&& forall|j: int, slot: int|
                0 <= j < 8 && 0 <= slot < SPONGE_PERIOD ==> #[trigger] row_at(
                    rows,
                    start + count - 1,
                    slot,
                )[COL_B_BEGIN + j] == if j == len % 8 {
                    1int
                } else {
                    0
                }
            &&& forall|t: int, slot: int|
                0 <= t < count - 1 && 0 <= slot < SPONGE_PERIOD ==> (#[trigger] row_at(
                    rows,
                    start + t,
                    slot,
                ))[COL_IS_ZERO as int] == 0
            &&& forall|t: int, slot: int, j: int|
                0 <= t < count - 1 && 0 <= slot < SPONGE_PERIOD && 0 <= j < 8
                    ==> #[trigger] row_at(rows, start + t, slot)[COL_B_BEGIN + j] == 0
        }),
{
    let len = message_len(rows, start);
    let last: int = count - 1;
    assert(row_at(rows, start + last, 0)[COL_ACT as int] == 1);
    assert(is_block(rows, start + last));
    blocks_are_uniform(rows, start + last, 31);
    let i: int = SPONGE_PERIOD * (start + last) + 31;
    assert(i == SPONGE_PERIOD * (start + count) - 1);
    rows_obey(rows, i);
    rows_step(rows, i);
    assert(row_at(rows, start + last, 31)[COL_IS_ZERO as int] == 1);
    let at = padding_is_at_the_end(rows, start, count, last);
    let j = selectors(row_at(rows, start + last, 0)).1;
    assert(len == 136 * last + 8 * at + j);
    assert(len / 136 == last && (len % 136) / 8 == at && len % 8 == j);
    assert forall|k: int, slot: int| 0 <= k < 8 && 0 <= slot < SPONGE_PERIOD implies
        #[trigger] row_at(rows, start + count - 1, slot)[COL_B_BEGIN + k] == if k == len % 8 {
        1int
    } else {
        0
    } by {
        blocks_are_uniform(rows, start + last, slot);
        blocks_are_uniform(rows, start + last, 0);
        rows_obey(rows, SPONGE_PERIOD * (start + last) + 0);
        selected(row_at(rows, start + last, 0));
        assert(row_at(rows, start + last, slot)[COL_B_BEGIN + k] == row_at(
            rows,
            start + last,
            0,
        )[COL_B_BEGIN + k]);
    }
    assert forall|t: int, slot: int| 0 <= t < count - 1 && 0 <= slot < SPONGE_PERIOD implies (
    #[trigger] row_at(rows, start + t, slot))[COL_IS_ZERO as int] == 0 by {
        earlier_blocks_do_not_pad(rows, start, count, t, slot, at);
    }
    assert forall|t: int, slot: int, k: int|
        0 <= t < count - 1 && 0 <= slot < SPONGE_PERIOD && 0 <= k < 8 implies #[trigger] row_at(
        rows,
        start + t,
        slot,
    )[COL_B_BEGIN + k] == 0 by {
        earlier_blocks_do_not_pad(rows, start, count, t, slot, at);
    }
}

/// No block before the last one of an invocation pads.
#[verifier::spinoff_prover]
#[verifier::rlimit(30)]
proof fn earlier_blocks_do_not_pad(
    rows: Seq<Seq<int>>,
    start: int,
    count: int,
    t: int,
    slot: int,
    at: int,
)
    requires
        satisfied(rows),
        is_invocation(rows, start, count),
        136 * count < MODULUS,
        0 <= t < count - 1,
        0 <= slot < SPONGE_PERIOD,
        0 <= at < 17,
        0 <= message_len(rows, start) - 8 * absorbed_before(count - 1, at) < 8,
    ensures
        row_at(rows, start + t, slot)[COL_IS_ZERO as int] == 0,
        forall|k: int|
            0 <= k < 8 ==> #[trigger] row_at(rows, start + t, slot)[COL_B_BEGIN + k] == 0,
{
    assert(row_at(rows, start + t, 0)[COL_ACT as int] == 1);
    assert(is_block(rows, start + t));
    blocks_are_uniform(rows, start + t, slot);
    rows_obey(rows, SPONGE_PERIOD * (start + t) + slot);
    blocks_are_uniform(rows, start + t, 31);
    rows_obey(rows, SPONGE_PERIOD * (start + t) + 31);
    if row_at(rows, start + t, 31)[COL_IS_ZERO as int] == 1 {
        let here = padding_is_at_the_end(rows, start, count, t);
        assert(absorbed_before(t, here) < absorbed_before(count - 1, at));
        assert(false);
    }
    if row_at(rows, start + t, slot)[COL_IS_ZERO as int] == 1 {
        padding_stays(rows, start + t, slot, 31);
    }
    selectors_uniform(rows, start + t, 31);
    selectors_uniform(rows, start + t, slot);
    selected(row_at(rows, start + t, slot));
}

} // verus!
