//! What the messages of the sponge do: a block is absorbed byte by byte into the state, and the
//! lanes of a state lie where the round machine reads them and leaves them.

use crate::precompiles::field::MODULUS;
use crate::precompiles::hash::keccak::round::program::{slot_lane_prev, ROUND_PERIOD};
use crate::precompiles::hash::keccak::sponge::program::{KECCAK_RC, SPONGE_PERIOD};
use crate::precompiles::hash::keccak::sponge::{
    byte_of, mask_tables, mask_upto, selected_mask, selectors, selectors_upto, sponge_demands,
    sponge_fractions, ANDNOT_MASK_HI, ANDNOT_MASK_LO, COL_ACT, COL_BYTES_LEFT, COL_B_BEGIN,
    COL_CHUNK_BYTES, COL_CHUNK_HI, COL_CHUNK_LO, COL_CHUNK_PTR, COL_CLEARED_BYTES, COL_CLEARED_LO,
    COL_PADDED_LO, COL_IS_CHUNK_AVAIL, COL_IS_FIRST_BLOCK_OF_INVOCATION, COL_IS_ZERO,
    COL_PADDED_BYTES, COL_SPONGE_SEQ_ID, COL_STATE_NEW_BYTES, COL_STATE_NEW_HI, COL_STATE_NEW_LO,
    COL_STATE_OUT_HI, COL_STATE_OUT_LO, COL_STATE_PREV_BYTES, COL_STATE_PREV_HI, COL_STATE_PREV_LO,
    PADDING_MASK_HI, PADDING_MASK_LO,
};
use crate::precompiles::hash::keccak::sponge_laws::{
    blocks_are_uniform, flags_hold, is_invocation, is_over, message_len,
    padding_starts_behind_the_message, pads_at, program_row, row_at, rows_obey, rows_step,
    satisfied, selected, slot_of,
};
use crate::precompiles::hash::keccak::words::halves;
use crate::precompiles::hash::memory64::CHUNK_ADDR_BASE;
use crate::precompiles::logup::{Fraction, Rows};
use crate::precompiles::meaning::{byte_result, counts, is_byte, is_true, payload, Store};
use crate::precompiles::relations::BusId;
use crate::precompiles::trace::{
    following, is_cell, is_flag, is_met, released, same_cell, small_and_zero,
};
use crate::precompiles::utils::packed;
use vstd::arithmetic::div_mod::lemma_small_mod;
use vstd::prelude::*;

verus! {

/// The fractions of row `i`.
pub open spec fn fractions_of(rows: Seq<Seq<int>>, i: int) -> Seq<Fraction> {
    sponge_fractions(rows[i], following(rows, i), program_row(slot_of(i)))
}

/// Eight cells that hold the bytes of a lane.
pub open spec fn bytes_at(l: Seq<int>, col: int) -> Seq<int> {
    l.subrange(col, col + 8)
}

/// The bytes that a row asks the byte-pair table for are what the table holds.
pub open spec fn bytes_are_true(store: Store, rows: Seq<Seq<int>>, i: int) -> bool {
    forall|k: int|
        0 <= k < fractions_of(rows, i).len() && (#[trigger] fractions_of(rows, i)[k]).bus
            == BusId::BytePairLut ==> is_true(store, fractions_of(rows, i)[k])
}

proof fn one_times(one: int, x: int)
    requires
        is_flag(one),
    ensures
        one == 1 ==> one * x == x && x * one == x,
        one == 0 ==> one * x == 0 && x * one == 0,
{
    assert(one == 1 ==> one * x == x && x * one == x) by (nonlinear_arith);
    assert(one == 0 ==> one * x == 0 && x * one == 0) by (nonlinear_arith);
}

/// The masks of a row with one selector: all ones from its byte on, and a one at its byte.
proof fn masks(l: Seq<int>, j: int, i: int)
    requires
        flags_hold(l),
        0 <= j < 8,
        0 <= i < 8,
        forall|k: int|
            0 <= k < 8 ==> #[trigger] l[COL_B_BEGIN + k] == if k == j { 1int } else { 0 },
    ensures
        selected_mask(l, ANDNOT_MASK_LO@, ANDNOT_MASK_HI@)[i] == if i >= j { 255int } else { 0 },
        selected_mask(l, PADDING_MASK_LO@, PADDING_MASK_HI@)[i] == if i == j { 1int } else { 0 },
{
    picked(l, ANDNOT_MASK_LO@, ANDNOT_MASK_HI@, j, i, 8);
    picked(l, PADDING_MASK_LO@, PADDING_MASK_HI@, j, i, 8);
    mask_tables(j, i);
}

proof fn picked(l: Seq<int>, lo: Seq<u32>, hi: Seq<u32>, j: int, i: int, count: nat)
    requires
        0 <= j < 8,
        count <= 8,
        forall|k: int|
            0 <= k < 8 ==> #[trigger] l[COL_B_BEGIN + k] == if k == j { 1int } else { 0 },
    ensures
        mask_upto(l, lo, hi, i, count) == if j < count { byte_of(lo[j], hi[j], i) } else { 0 },
    decreases count,
{
    if count > 0 {
        picked(l, lo, hi, j, i, (count - 1) as nat);
        let k: int = count - 1;
        one_times(l[COL_B_BEGIN + k], byte_of(lo[k], hi[k], i));
    }
}

/// The byte requests of a row: when they count, and what they ask.
#[verifier::spinoff_prover]
#[verifier::rlimit(30)]
proof fn byte_requests(rows: Seq<Seq<int>>, i: int, b: int)
    requires
        satisfied(rows),
        0 <= i < rows.len(),
        rows[i][COL_ACT as int] == 1,
        0 <= b < 8,
    ensures
        ({
            let fs = fractions_of(rows, i);
            let l = rows[i];
            let slot = slot_of(i);
            let zero = l[COL_IS_ZERO as int];
            let zero_next = following(rows, i)[COL_IS_ZERO as int];
            let pads: int = if slot < 17 && zero == 0 && zero_next == 1 { 1 } else { 0 };
            let copies: int = if slot < 17 && zero_next == 0 { 1 } else { 0 };
            let closes: int = if slot == 25 && zero == 1 { 1 } else { 0 };
            let chunk = bytes_at(l, COL_CHUNK_BYTES as int)[b];
            let cleared = bytes_at(l, COL_CLEARED_BYTES as int)[b];
            let padded = bytes_at(l, COL_PADDED_BYTES as int)[b];
            let prev = bytes_at(l, COL_STATE_PREV_BYTES as int)[b];
            let new = bytes_at(l, COL_STATE_NEW_BYTES as int)[b];
            let clearing = selected_mask(l, ANDNOT_MASK_LO@, ANDNOT_MASK_HI@)[b];
            let setting = selected_mask(l, PADDING_MASK_LO@, PADDING_MASK_HI@)[b];
            &&& fs.len() == 48
            &&& forall|k: int| 6 <= k < 46 ==> (#[trigger] fs[k]).bus == BusId::BytePairLut
            &&& fs[6 + b].mult == pads
            &&& fs[6 + b].elems == seq![0, clearing, chunk, cleared]
            &&& fs[14 + b].mult == pads
            &&& fs[14 + b].elems == seq![1, cleared, setting, padded]
            &&& fs[22 + b].mult == pads
            &&& fs[22 + b].elems == seq![1, prev, padded, new]
            &&& fs[30 + b].mult == copies
            &&& fs[30 + b].elems == seq![1, prev, chunk, new]
            &&& fs[38 + b].mult == closes
            &&& fs[38 + b].elems == seq![1, prev, if b == 7 { 0x80int } else { 0 }, new]
        }),
{
    rows_obey(rows, i);
    selected(rows[i]);
    let l = rows[i];
    let p = program_row(slot_of(i));
    let act: int = l[COL_ACT as int];
    let zero: int = l[COL_IS_ZERO as int];
    let zero_next: int = following(rows, i)[COL_IS_ZERO as int];
    let rate: int = p[3];
    let closing: int = p[7];
    let sum: int = selectors(l).0;
    one_times(rate, zero_next - zero);
    one_times(act, rate * (zero_next - zero));
    one_times(rate, 1 - zero_next);
    one_times(act, rate * (1 - zero_next));
    one_times(closing, sum);
    one_times(act, closing * sum);
}

/// A byte request that counts is true of its cells.
proof fn heard(store: Store, rows: Seq<Seq<int>>, i: int, k: int)
    requires
        bytes_are_true(store, rows, i),
        0 <= k < fractions_of(rows, i).len(),
        ({
            let f = fractions_of(rows, i)[k];
            &&& f.bus == BusId::BytePairLut
            &&& f.mult == 1
            &&& f.elems.len() == 4
            &&& is_cell(f.elems[0]) && is_cell(f.elems[1]) && is_cell(f.elems[2]) && is_cell(
                f.elems[3],
            )
        }),
    ensures
        ({
            let e = fractions_of(rows, i)[k].elems;
            &&& is_byte(e[1]) && is_byte(e[2]) && is_byte(e[3])
            &&& e[3] == byte_result(e[0], e[1], e[2])
        }),
{
    let f = fractions_of(rows, i)[k];
    let e = f.elems;
    assert(is_true(store, f));
    assert(counts(f));
    lemma_small_mod(e[0] as nat, MODULUS as nat);
    lemma_small_mod(e[1] as nat, MODULUS as nat);
    lemma_small_mod(e[2] as nat, MODULUS as nat);
    lemma_small_mod(e[3] as nat, MODULUS as nat);
    assert(payload(f) =~= e);
}

/// Clearing and setting a byte: below the padding it stays, at the padding it becomes one, and
/// above it zero.
proof fn padded_byte(chunk: u8, at: int, b: int)
    ensures
        (!(255u8) & chunk) ^ 1 == 1,
        (!(255u8) & chunk) ^ 0 == 0,
        (!(0u8) & chunk) ^ 0 == chunk,
        chunk ^ 0 == chunk,
{
    assert((!(255u8) & chunk) ^ 1 == 1 && (!(255u8) & chunk) ^ 0 == 0 && (!(0u8) & chunk) ^ 0
        == chunk && chunk ^ 0 == chunk) by (bit_vector);
}

/// On an absorbing row in use the new state byte is the previous one with a byte of the block: the
/// byte of the input before the padding row and before the padding byte, one at the padding byte,
/// and zero behind it up to the end of that row. On the closing row the highest byte takes the last bit of the padding.
#[verifier::spinoff_prover]
#[verifier::rlimit(30)]
pub proof fn rows_absorb_their_bytes(store: Store, rows: Seq<Seq<int>>, i: int, b: int)
    requires
        satisfied(rows),
        0 <= i < rows.len(),
        rows[i][COL_ACT as int] == 1,
        0 <= b < 8,
        bytes_are_true(store, rows, i),
    ensures
        ({
            let l = rows[i];
            let slot = slot_of(i);
            let zero = l[COL_IS_ZERO as int];
            let zero_next = following(rows, i)[COL_IS_ZERO as int];
            let chunk = bytes_at(l, COL_CHUNK_BYTES as int)[b];
            let prev = bytes_at(l, COL_STATE_PREV_BYTES as int)[b];
            let new = bytes_at(l, COL_STATE_NEW_BYTES as int)[b];
            &&& slot < 17 && zero_next == 0 ==> {
                &&& is_byte(prev) && is_byte(chunk) && is_byte(new)
                &&& new == (prev as u8) ^ (chunk as u8)
            }
            &&& forall|j: int|
                slot < 17 && zero == 0 && zero_next == 1 && 0 <= j < 8
                    && #[trigger] l[COL_B_BEGIN + j] == 1 && selectors(l).0 == 1 ==> {
                    &&& is_byte(prev) && is_byte(chunk) && is_byte(new)
                    &&& new == (prev as u8) ^ (if b < j {
                        chunk as u8
                    } else if b == j {
                        1u8
                    } else {
                        0u8
                    })
                }
            &&& slot == 25 && zero == 1 ==> {
                &&& is_byte(prev) && is_byte(new)
                &&& new == (prev as u8) ^ (if b == 7 { 0x80u8 } else { 0u8 })
            }
        }),
{
    let l = rows[i];
    let slot = slot_of(i);
    let zero: int = l[COL_IS_ZERO as int];
    let zero_next: int = following(rows, i)[COL_IS_ZERO as int];
    let chunk = bytes_at(l, COL_CHUNK_BYTES as int)[b];
    let prev = bytes_at(l, COL_STATE_PREV_BYTES as int)[b];
    let new = bytes_at(l, COL_STATE_NEW_BYTES as int)[b];
    byte_requests(rows, i, b);
    rows_obey(rows, i);
    assert(is_cell(rows[i][COL_CHUNK_BYTES + b]) && is_cell(rows[i][COL_CLEARED_BYTES + b]));
    assert(is_cell(rows[i][COL_PADDED_BYTES + b]) && is_cell(rows[i][COL_STATE_PREV_BYTES + b]));
    assert(is_cell(rows[i][COL_STATE_NEW_BYTES + b]));
    if slot < 17 && zero_next == 0 {
        heard(store, rows, i, 30 + b);
    }
    if slot == 25 && zero == 1 {
        heard(store, rows, i, 38 + b);
    }
    assert forall|j: int|
        slot < 17 && zero == 0 && zero_next == 1 && 0 <= j < 8 && #[trigger] l[COL_B_BEGIN + j] == 1
            && selectors(l).0 == 1 implies is_byte(prev) && is_byte(chunk) && is_byte(new) && new
        == (prev as u8) ^ (if b < j {
        chunk as u8
    } else if b == j {
        1u8
    } else {
        0u8
    }) by {
        selected(l);
        masks(l, j, b);
        heard(store, rows, i, 6 + b);
        heard(store, rows, i, 14 + b);
        heard(store, rows, i, 22 + b);
        padded_byte(chunk as u8, j, b);
    }
}

/// The halves of a lane are those of its bytes.
pub open spec fn halves_match(l: Seq<int>, bytes: int, half: int) -> bool {
    &&& (packed(bytes_at(l, bytes).subrange(0, 4), 256) - l[half]) % (MODULUS as int) == 0
    &&& (packed(bytes_at(l, bytes).subrange(4, 8), 256) - l[half + 1]) % (MODULUS as int) == 0
}

/// What the constraints ask of the state of a row.
#[verifier::spinoff_prover]
#[verifier::rlimit(30)]
proof fn state_asked(rows: Seq<Seq<int>>, i: int)
    requires
        satisfied(rows),
        0 <= i < rows.len(),
    ensures
        ({
            let l = rows[i];
            let p = program_row(slot_of(i));
            let m = MODULUS as int;
            let first = l[COL_IS_FIRST_BLOCK_OF_INVOCATION as int];
            let zero = l[COL_IS_ZERO as int];
            let lo = l[COL_STATE_NEW_LO as int] - l[COL_STATE_PREV_LO as int];
            let hi = l[COL_STATE_NEW_HI as int] - l[COL_STATE_PREV_HI as int];
            &&& ((p[3] + p[4]) * first * l[COL_STATE_PREV_LO as int]) % m == 0
            &&& ((p[3] + p[4]) * first * l[COL_STATE_PREV_HI as int]) % m == 0
            &&& (p[3] * zero * lo) % m == 0
            &&& (p[3] * zero * hi) % m == 0
            &&& (p[4] * lo) % m == 0
            &&& (p[4] * hi) % m == 0
        }),
{
    let d = sponge_demands(rows[i], following(rows, i), program_row(slot_of(i)));
    assert(is_met(d, i == 0, i == rows.len() - 1));
    assert(d[36].0 == Rows::All && d[37].0 == Rows::All && d[38].0 == Rows::All);
    assert(d[39].0 == Rows::All && d[40].0 == Rows::All && d[41].0 == Rows::All);
}

/// Every lane agrees with its bytes.
#[verifier::spinoff_prover]
#[verifier::rlimit(30)]
pub proof fn lanes_agree_with_their_bytes(rows: Seq<Seq<int>>, i: int)
    requires
        satisfied(rows),
        0 <= i < rows.len(),
    ensures
        halves_match(rows[i], COL_CHUNK_BYTES as int, COL_CHUNK_LO as int),
        halves_match(rows[i], COL_STATE_PREV_BYTES as int, COL_STATE_PREV_LO as int),
        halves_match(rows[i], COL_STATE_NEW_BYTES as int, COL_STATE_NEW_LO as int),
        halves_match(rows[i], COL_CLEARED_BYTES as int, COL_CLEARED_LO as int),
        halves_match(rows[i], COL_PADDED_BYTES as int, COL_PADDED_LO as int),
{
    let d = sponge_demands(rows[i], following(rows, i), program_row(slot_of(i)));
    assert(is_met(d, i == 0, i == rows.len() - 1));
    assert(d[42].0 == Rows::All && d[43].0 == Rows::All && d[44].0 == Rows::All);
    assert(d[45].0 == Rows::All && d[46].0 == Rows::All && d[47].0 == Rows::All);
    assert(d[48].0 == Rows::All && d[49].0 == Rows::All && d[50].0 == Rows::All);
    assert(d[51].0 == Rows::All);
}

/// The state of a first block starts at zero, and the lanes that take in nothing keep their state:
/// those of the capacity, and those of the rate behind the padding. Without input a lane is zero.
#[verifier::spinoff_prover]
#[verifier::rlimit(30)]
pub proof fn lanes_keep_or_absorb(rows: Seq<Seq<int>>, i: int)
    requires
        satisfied(rows),
        0 <= i < rows.len(),
    ensures
        ({
            let l = rows[i];
            let slot = slot_of(i);
            &&& slot < 25 && l[COL_IS_FIRST_BLOCK_OF_INVOCATION as int] == 1
                ==> l[COL_STATE_PREV_LO as int] == 0 && l[COL_STATE_PREV_HI as int] == 0
            &&& (17 <= slot < 25) || (slot < 17 && l[COL_IS_ZERO as int] == 1)
                ==> l[COL_STATE_NEW_LO as int] == l[COL_STATE_PREV_LO as int]
                && l[COL_STATE_NEW_HI as int] == l[COL_STATE_PREV_HI as int]
            &&& l[COL_IS_CHUNK_AVAIL as int] == 0 ==> l[COL_CHUNK_LO as int] == 0
                && l[COL_CHUNK_HI as int] == 0
        }),
{
    rows_obey(rows, i);
    let l = rows[i];
    let slot = slot_of(i);
    let p = program_row(slot);
    state_asked(rows, i);
    let prev_lo: int = l[COL_STATE_PREV_LO as int];
    let prev_hi: int = l[COL_STATE_PREV_HI as int];
    let new_lo: int = l[COL_STATE_NEW_LO as int];
    let new_hi: int = l[COL_STATE_NEW_HI as int];
    assert(is_cell(rows[i][COL_STATE_PREV_LO as int]) && is_cell(rows[i][COL_STATE_PREV_HI as int]));
    assert(is_cell(rows[i][COL_STATE_NEW_LO as int]) && is_cell(rows[i][COL_STATE_NEW_HI as int]));
    let first: int = l[COL_IS_FIRST_BLOCK_OF_INVOCATION as int];
    let zero: int = l[COL_IS_ZERO as int];
    let rate: int = p[3];
    let capacity: int = p[4];
    if slot < 25 && first == 1 {
        one_times(rate + capacity, first);
        released((rate + capacity) * first, prev_lo);
        released((rate + capacity) * first, prev_hi);
        small_and_zero(prev_lo);
        small_and_zero(prev_hi);
    }
    if slot < 17 && zero == 1 {
        one_times(rate, zero);
        released(rate * zero, new_lo - prev_lo);
        released(rate * zero, new_hi - prev_hi);
        same_cell(new_lo, prev_lo);
        same_cell(new_hi, prev_hi);
    }
    if 17 <= slot < 25 {
        released(capacity, new_lo - prev_lo);
        released(capacity, new_hi - prev_hi);
        same_cell(new_lo, prev_lo);
        same_cell(new_hi, prev_hi);
    }
}

/// Where the first lane of the state of a block lies in memory, before its permutation.
pub open spec fn block_address(block: int) -> int {
    3200 * block
}

/// Where the lanes of the state of a block lie after its permutation: behind 24 rounds.
pub open spec fn output_address(block: int) -> int {
    block_address(block) + 24 * ROUND_PERIOD
}

/// Where the first of the 24 rounds of a block starts: behind the 25 lanes of its state.
pub open spec fn round_address(block: int, r: int) -> int {
    block_address(block) + 25 + ROUND_PERIOD * r
}

/// A memory message of a row: how often it counts, its address and its value.
pub open spec fn is_memory(f: Fraction, mult: int, address: int, value: (int, int)) -> bool {
    &&& f.bus == BusId::Memory64
    &&& f.mult == mult
    &&& mult != 0 ==> f.elems == seq![address, value.0, value.1]
}

/// The memory that a row in use reads and writes. Each of the 25 state rows writes the lane of its
/// block for the two reads of the first round, takes back the lane that the block before has left
/// unless the block is a first one, and the first 24 of them write the round constants. The closing
/// row changes lane 16 of a last block. A last block reads what its permutation leaves, except for
/// the four lanes of the digest. Absorbing rows read the input where there is any, and the spare
/// rows of a last block read what is left of it.
#[verifier::spinoff_prover]
#[verifier::rlimit(40)]
pub proof fn memory_is_laid_out_by_blocks(rows: Seq<Seq<int>>, block: int, slot: int)
    requires
        satisfied(rows),
        0 <= block,
        0 <= slot < SPONGE_PERIOD,
        SPONGE_PERIOD * block + slot < rows.len(),
        row_at(rows, block, slot)[COL_ACT as int] == 1,
    ensures
        ({
            let fs = fractions_of(rows, SPONGE_PERIOD * block + slot);
            let l = row_at(rows, block, slot);
            let prev = (l[COL_STATE_PREV_LO as int], l[COL_STATE_PREV_HI as int]);
            let new = (l[COL_STATE_NEW_LO as int], l[COL_STATE_NEW_HI as int]);
            let out = (l[COL_STATE_OUT_LO as int], l[COL_STATE_OUT_HI as int]);
            let chunk = (l[COL_CHUNK_LO as int], l[COL_CHUNK_HI as int]);
            let first = l[COL_IS_FIRST_BLOCK_OF_INVOCATION as int] == 1;
            let sum = selectors(l).0;
            &&& fs.len() == 48
            &&& is_memory(
                fs[0],
                if slot < 25 { -2 } else { 0 },
                block_address(block) + slot,
                new,
            )
            &&& is_memory(
                fs[1],
                if slot < 25 && !first { 2 } else { 0 },
                output_address(block - 1) + slot,
                prev,
            )
            &&& is_memory(
                fs[2],
                if slot < 24 { -1 } else { 0 },
                round_address(block, slot),
                halves(KECCAK_RC@[slot]),
            )
            &&& is_memory(
                fs[3],
                if slot == 25 { 2 * sum } else { 0 },
                block_address(block) + 16,
                prev,
            )
            &&& is_memory(
                fs[4],
                if slot == 25 { -(2 * sum) } else { 0 },
                block_address(block) + 16,
                new,
            )
            &&& is_memory(
                fs[5],
                if 4 <= slot < 25 { 2 * sum } else { 0 },
                output_address(block) + slot,
                out,
            )
            &&& is_memory(
                fs[47],
                if slot < 17 {
                    l[COL_IS_CHUNK_AVAIL as int]
                } else if 26 <= slot < 29 {
                    sum * l[COL_IS_CHUNK_AVAIL as int]
                } else {
                    0
                },
                CHUNK_ADDR_BASE + l[COL_CHUNK_PTR as int],
                chunk,
            )
            &&& fs[46].bus == BusId::KeccakSponge
            &&& fs[46].mult == if slot == 0 && first { 1int } else { 0 }
            &&& fs[46].elems == seq![
                SPONGE_PERIOD * block + slot,
                l[COL_CHUNK_PTR as int],
                l[COL_BYTES_LEFT as int],
            ]
        }),
{
    let i: int = SPONGE_PERIOD * block + slot;
    let l = rows[i];
    assert(slot_of(i) == slot);
    rows_obey(rows, i);
    rows_step(rows, i);
    selected(l);
    let p = program_row(slot);
    let act: int = l[COL_ACT as int];
    let first: int = l[COL_IS_FIRST_BLOCK_OF_INVOCATION as int];
    let avail: int = l[COL_IS_CHUNK_AVAIL as int];
    let sum: int = selectors(l).0;
    let state: int = p[3] + p[4];
    let twice: int = 2 * act;
    assert(l[COL_SPONGE_SEQ_ID as int] == i);
    one_times(state, 0 - twice);
    one_times(1 - first, twice);
    one_times(state, twice * (1 - first));
    one_times(act, p[5]);
    one_times(state, 0 - act * p[5]);
    one_times(p[7], twice * sum);
    one_times(p[7], 0 - twice * sum);
    one_times(p[6], twice);
    let half: int = twice * p[6];
    assert(half == if 4 <= slot < 25 { 2int } else { 0 });
    assert(half * sum == if 4 <= slot < 25 { 2 * sum } else { 0 }) by (nonlinear_arith)
        requires
            half == if 4 <= slot < 25 { 2int } else { 0 },
    ;
    assert(twice * sum == 2 * sum) by (nonlinear_arith)
        requires
            twice == 2,
    ;
    one_times(state, half * sum);
    one_times(p[1], first);
    one_times(act, p[1] * first);
    one_times(p[10], sum);
    one_times(act, p[3] + p[10] * sum);
    one_times(avail, act * (p[3] + p[10] * sum));
    one_times(avail, sum);
    let fs = fractions_of(rows, i);
    assert(fs[0].elems =~= seq![
        100 * i - 99 * slot,
        l[COL_STATE_NEW_LO as int],
        l[COL_STATE_NEW_HI as int],
    ]);
    if slot < 24 {
        assert(fs[2].elems =~= seq![
            round_address(block, slot),
            halves(KECCAK_RC@[slot]).0,
            halves(KECCAK_RC@[slot]).1,
        ]);
    }
}

/// A round of the round machine whose address is that of round `r` of a block reads the round
/// constant that the sponge writes for it; the first round reads the lanes of the block, each later
/// one what the round before has left, and the last one leaves the lanes where the sponge and the
/// next block take them.
pub proof fn rounds_meet_the_sponge(block: int, r: int, x: usize, y: usize)
    requires
        0 <= r < 24,
        x < 5,
        y < 5,
    ensures
        round_address(block, 0) - ROUND_PERIOD + slot_lane_prev(x, y) == block_address(block) + x
            + 5 * y,
        round_address(block, r + 1) - ROUND_PERIOD == round_address(block, r),
        round_address(block, 23) + slot_lane_prev(x, y) == output_address(block) + x + 5 * y,
        output_address(block) + 25 <= block_address(block + 1),
{
}

/// The byte of the padded message at a place of an invocation: the input byte before the end, a one
/// at the end, and zeroes behind it.
pub open spec fn message_byte(len: int, place: int, input: int) -> u8 {
    if place < len {
        input as u8
    } else if place == len {
        1
    } else {
        0
    }
}

/// An invocation absorbs its message byte by byte: up to the row where the message ends, byte `b`
/// of row `slot` of block `t` takes in the byte at place `136 * t + 8 * slot + b` of the padded
/// message.
#[verifier::spinoff_prover]
#[verifier::rlimit(30)]
pub proof fn invocations_absorb_the_message(
    store: Store,
    rows: Seq<Seq<int>>,
    start: int,
    count: int,
    t: int,
    slot: int,
    b: int,
)
    requires
        satisfied(rows),
        is_invocation(rows, start, count),
        is_over(rows, start, count),
        136 * count < MODULUS,
        0 <= t < count,
        0 <= slot < 17,
        0 <= b < 8,
        bytes_are_true(store, rows, SPONGE_PERIOD * (start + t) + slot),
        136 * t + 8 * slot <= message_len(rows, start),
    ensures
        ({
            let l = row_at(rows, start + t, slot);
            let len = message_len(rows, start);
            let prev = bytes_at(l, COL_STATE_PREV_BYTES as int)[b];
            let new = bytes_at(l, COL_STATE_NEW_BYTES as int)[b];
            let chunk = bytes_at(l, COL_CHUNK_BYTES as int)[b];
            &&& is_byte(prev) && is_byte(new) && is_byte(chunk)
            &&& new == (prev as u8) ^ message_byte(len, 136 * t + 8 * slot + b, chunk)
        }),
{
    padding_starts_behind_the_message(rows, start, count);
    let len = message_len(rows, start);
    let block: int = start + t;
    let i: int = SPONGE_PERIOD * block + slot;
    assert(row_at(rows, start + t, 0)[COL_ACT as int] == 1);
    blocks_are_uniform(rows, block, slot);
    rows_obey(rows, i);
    let l = row_at(rows, block, slot);
    let n = row_at(rows, block, slot + 1);
    assert(following(rows, i) == n);
    rows_absorb_their_bytes(store, rows, i, b);
    if t < count - 1 {
        assert(row_at(rows, start + t, slot + 1)[COL_IS_ZERO as int] == 0);
        assert(len >= 136 * (count - 1));
    } else {
        assert(block == start + count - 1);
        let at = (len % 136) / 8;
        assert(pads_at(rows, block, at));
        assert(row_at(rows, block, slot)[COL_IS_ZERO as int] == if slot <= at { 0int } else { 1 });
        assert(row_at(rows, block, slot + 1)[COL_IS_ZERO as int] == if slot + 1 <= at {
            0int
        } else {
            1
        });
        assert(len == 136 * t + len % 136);
        assert(slot <= at);
        let j = len % 8;
        assert(row_at(rows, start + count - 1, slot)[COL_B_BEGIN + j] == 1);
        if slot == at {
            assert(forall|k: int|
                0 <= k < 8 ==> #[trigger] row_at(rows, start + count - 1, slot)[COL_B_BEGIN + k]
                    == if k == j { 1int } else { 0 });
            reveal_with_fuel(selectors_upto, 9);
            assert(l[COL_B_BEGIN + 0] == row_at(rows, start + count - 1, slot)[COL_B_BEGIN + 0]);
            one_selector(l, j);
            assert(8 * at + j == len % 136);
        }
    }
}

proof fn one_selector(l: Seq<int>, j: int)
    requires
        0 <= j < 8,
        forall|k: int|
            0 <= k < 8 ==> #[trigger] l[COL_B_BEGIN + k] == if k == j { 1int } else { 0 },
    ensures
        selectors(l).0 == 1,
{
    reveal_with_fuel(selectors_upto, 9);
    assert(l[COL_B_BEGIN + 0] == if j == 0 { 1int } else { 0 });
    assert(l[COL_B_BEGIN + 1] == if j == 1 { 1int } else { 0 });
    assert(l[COL_B_BEGIN + 2] == if j == 2 { 1int } else { 0 });
    assert(l[COL_B_BEGIN + 3] == if j == 3 { 1int } else { 0 });
    assert(l[COL_B_BEGIN + 4] == if j == 4 { 1int } else { 0 });
    assert(l[COL_B_BEGIN + 5] == if j == 5 { 1int } else { 0 });
    assert(l[COL_B_BEGIN + 6] == if j == 6 { 1int } else { 0 });
    assert(l[COL_B_BEGIN + 7] == if j == 7 { 1int } else { 0 });
}

/// Byte `b` of a row in use is as it should be: absorbed as it is before the padding row, cleared,
/// set and absorbed on the padding row, and given the last bit of the padding on the closing row.
pub open spec fn byte_is_right(l: Seq<int>, n: Seq<int>, slot: int, b: int) -> bool {
    let zero = l[COL_IS_ZERO as int];
    let zero_next = n[COL_IS_ZERO as int];
    let chunk = bytes_at(l, COL_CHUNK_BYTES as int)[b];
    let cleared = bytes_at(l, COL_CLEARED_BYTES as int)[b];
    let padded = bytes_at(l, COL_PADDED_BYTES as int)[b];
    let prev = bytes_at(l, COL_STATE_PREV_BYTES as int)[b];
    let new = bytes_at(l, COL_STATE_NEW_BYTES as int)[b];
    let at = selectors(l).1;
    &&& slot < 17 && zero_next == 0 ==> is_byte(prev) && is_byte(chunk) && new == (prev as u8) ^ (
    chunk as u8)
    &&& slot < 17 && zero == 0 && zero_next == 1 ==> {
        &&& selectors(l).0 == 1
        &&& is_byte(prev) && is_byte(chunk)
        &&& cleared == if b < at { chunk } else { 0 }
        &&& padded == if b < at { chunk } else if b == at { 1 } else { 0 }
        &&& new == (prev as u8) ^ (padded as u8)
    }
    &&& slot == 25 && zero == 1 ==> is_byte(prev) && new == (prev as u8) ^ (if b == 7 {
        0x80u8
    } else {
        0u8
    })
}

proof fn masked(chunk: u8)
    ensures
        !(255u8) & chunk == 0,
        !(0u8) & chunk == chunk,
        chunk ^ 0 == chunk,
        0u8 ^ 1u8 == 1,
        0u8 ^ 0u8 == 0,
{
    assert(!(255u8) & chunk == 0 && !(0u8) & chunk == chunk && chunk ^ 0 == chunk && 0u8 ^ 1u8 == 1
        && 0u8 ^ 0u8 == 0) by (bit_vector);
}

/// A byte request with true bytes is true.
proof fn spoken(store: Store, f: Fraction, op: int, a: int, b: int, c: int)
    requires
        f.bus == BusId::BytePairLut,
        f.elems == seq![op, a, b, c],
        counts(f) ==> {
            &&& op == 0 || op == 1
            &&& is_byte(a) && is_byte(b)
            &&& c == byte_result(op, a, b)
        },
    ensures
        is_true(store, f),
{
    if counts(f) {
        lemma_small_mod(op as nat, MODULUS as nat);
        lemma_small_mod(a as nat, MODULUS as nat);
        lemma_small_mod(b as nat, MODULUS as nat);
        lemma_small_mod(c as nat, MODULUS as nat);
        assert(payload(f) =~= f.elems);
    }
}

/// Where the bytes of a row are as they should be, all it asks of the byte-pair table is true:
/// nothing more is asked.
#[verifier::spinoff_prover]
#[verifier::rlimit(30)]
pub proof fn right_bytes_are_accepted(store: Store, rows: Seq<Seq<int>>, i: int)
    requires
        satisfied(rows),
        0 <= i < rows.len(),
        rows[i][COL_ACT as int] == 1,
        forall|b: int|
            0 <= b < 8 ==> #[trigger] byte_is_right(
                rows[i],
                following(rows, i),
                slot_of(i),
                b,
            ),
    ensures
        bytes_are_true(store, rows, i),
{
    let fs = fractions_of(rows, i);
    byte_requests(rows, i, 0);
    assert forall|k: int|
        0 <= k < fs.len() && (#[trigger] fs[k]).bus == BusId::BytePairLut implies is_true(
        store,
        fs[k],
    ) by {
        memory_buses(rows, i, k);
        let b: int = (k - 6) % 8;
        accepted(store, rows, i, b);
        assert(k == 6 + b || k == 14 + b || k == 22 + b || k == 30 + b || k == 38 + b);
    }
}

/// The requests for one byte.
#[verifier::spinoff_prover]
#[verifier::rlimit(30)]
proof fn accepted(store: Store, rows: Seq<Seq<int>>, i: int, b: int)
    requires
        satisfied(rows),
        0 <= i < rows.len(),
        rows[i][COL_ACT as int] == 1,
        0 <= b < 8,
        byte_is_right(rows[i], following(rows, i), slot_of(i), b),
    ensures
        is_true(store, fractions_of(rows, i)[6 + b]),
        is_true(store, fractions_of(rows, i)[14 + b]),
        is_true(store, fractions_of(rows, i)[22 + b]),
        is_true(store, fractions_of(rows, i)[30 + b]),
        is_true(store, fractions_of(rows, i)[38 + b]),
{
    let fs = fractions_of(rows, i);
    let l = rows[i];
    byte_requests(rows, i, b);
    rows_obey(rows, i);
    selected(l);
    let chunk = bytes_at(l, COL_CHUNK_BYTES as int)[b];
    let cleared = bytes_at(l, COL_CLEARED_BYTES as int)[b];
    let padded = bytes_at(l, COL_PADDED_BYTES as int)[b];
    let prev = bytes_at(l, COL_STATE_PREV_BYTES as int)[b];
    let new = bytes_at(l, COL_STATE_NEW_BYTES as int)[b];
    let clearing = selected_mask(l, ANDNOT_MASK_LO@, ANDNOT_MASK_HI@)[b];
    let setting = selected_mask(l, PADDING_MASK_LO@, PADDING_MASK_HI@)[b];
    masked(chunk as u8);
    let pads = slot_of(i) < 17 && l[COL_IS_ZERO as int] == 0 && following(
        rows,
        i,
    )[COL_IS_ZERO as int] == 1;
    if pads {
        masks(l, selectors(l).1, b);
    }
    assert(fs[6 + b].bus == BusId::BytePairLut && fs[14 + b].bus == BusId::BytePairLut);
    assert(fs[22 + b].bus == BusId::BytePairLut && fs[30 + b].bus == BusId::BytePairLut);
    assert(fs[38 + b].bus == BusId::BytePairLut);
    lemma_small_mod(0, MODULUS as nat);
    spoken(store, fs[6 + b], 0, clearing, chunk, cleared);
    spoken(store, fs[14 + b], 1, cleared, setting, padded);
    spoken(store, fs[22 + b], 1, prev, padded, new);
    spoken(store, fs[30 + b], 1, prev, chunk, new);
    spoken(store, fs[38 + b], 1, prev, if b == 7 { 0x80 } else { 0 }, new);
}

/// The other messages of a row are on other buses.
#[verifier::spinoff_prover]
#[verifier::rlimit(30)]
proof fn memory_buses(rows: Seq<Seq<int>>, i: int, k: int)
    requires
        0 <= k < fractions_of(rows, i).len(),
        fractions_of(rows, i)[k].bus == BusId::BytePairLut,
    ensures
        fractions_of(rows, i).len() == 48,
        6 <= k < 46,
{
}

} // verus!
