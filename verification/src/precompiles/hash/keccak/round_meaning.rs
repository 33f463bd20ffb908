//! What the round machine proves: where its messages are true, each live row does the operation of
//! its slot, and the 128 rows of a live round write what one round of Keccak-f makes of the lanes
//! they read.

use crate::precompiles::field::MODULUS;
use crate::precompiles::hash::keccak::reference::{moved_from, rotl, round, rounds};
use crate::precompiles::hash::keccak::round::program::{
    b_slots_ordered, cell_value, half_swap, lane_at, lane_at_is, program_cell,
    program_computes_round, rotation_splits, slot_lane_prev, slot_reads_backwards, slot_spec, Op,
    Source, B_SLOTS, COL_BACK_A, COL_BACK_B, COL_DST_MULT, COL_IS_ANDNOT, COL_IS_ROL, COL_IS_XOR,
    COL_IS_XORROL, COL_K, COL_P_LAST, COL_SWAP, NUM_PERIODIC_COLS, ROUND_PERIOD,
    SLOT_APPLY_RPI_BEGIN, SLOT_CHI00, SLOT_CHI_ANDNOT_BEGIN, SLOT_CHI_XOR_BEGIN, SLOT_RC,
};
use crate::precompiles::hash::keccak::round::{
    four_limbs, limbs_give_rotation, rotated, round_demands, round_fractions, written, COL_ACT,
    COL_A_BYTES, COL_B_BYTES, COL_IP, COL_ROT_LIMBS, COL_R_BYTES, LANE_WIDTH, NUM_LANES,
    NUM_MAIN_COLS,
};
use crate::precompiles::hash::keccak::sponge::program::KECCAK_RC;
use crate::precompiles::hash::keccak::words::{
    are_bytes, bytes_make_halves, exchange_of_halves, four_bytes, halves, halves_work_alone,
    is_half, rotation_of_halves, word, words_have_halves,
};
use crate::precompiles::logup::{bool_poly, Rows};
use crate::precompiles::meaning::{byte_result, counts, is_byte, is_true, payload, says, Store};
use crate::precompiles::relations::BusId;
use crate::precompiles::trace::{
    following, is_cell, is_met, is_table, released, same_cell, small_and_zero,
};
use crate::precompiles::utils::packed;
use vstd::arithmetic::div_mod::{lemma_fundamental_div_mod, lemma_small_mod};
use vstd::prelude::*;

verus! {

/// The entries of the program for a slot.
pub open spec fn program_row(slot: int) -> Seq<int> {
    Seq::new(NUM_PERIODIC_COLS as nat, |col: int| program_cell(col, slot) as int)
}

/// Whether a table of whole rounds satisfies the constraints of the round machine.
pub open spec fn satisfied(rows: Seq<Seq<int>>) -> bool {
    &&& is_table(rows, NUM_MAIN_COLS as int)
    &&& rows.len() % (ROUND_PERIOD as nat) == 0
    &&& forall|i: int|
        0 <= i < rows.len() ==> is_met(
            #[trigger] round_demands(
                rows[i],
                following(rows, i),
                program_row(i % (ROUND_PERIOD as int)),
            ),
            i == 0,
            i == rows.len() - 1,
        )
}

/// A cell of a lane.
pub open spec fn lane_cell(l: Seq<int>, lane: int, col: int) -> int {
    l[lane * LANE_WIDTH + col]
}

/// Eight cells of a lane.
pub open spec fn lane_cells(l: Seq<int>, lane: int, col: int) -> Seq<int> {
    l.subrange(lane * LANE_WIDTH + col, lane * LANE_WIDTH + col + 8)
}

/// Every message that a row puts on a bus is true of the store.
pub open spec fn messages_hold(store: Store, l: Seq<int>, slot: int) -> bool {
    forall|k: int|
        0 <= k < round_fractions(l, program_row(slot)).len() ==> is_true(
            store,
            #[trigger] round_fractions(l, program_row(slot))[k],
        )
}

/// What an operation makes of its operands.
pub open spec fn op_result(op: Op, a: u64, b: u64) -> u64 {
    match op {
        Op::Nop => a,
        Op::Xor => a ^ b,
        Op::Andnot => !a & b,
        Op::Rol(s) => rotl(a, s),
        Op::XorRol(s) => rotl(a ^ b, s),
    }
}

/// The switches of a slot, by its operation.
pub proof fn switches(slot: int)
    requires
        0 <= slot < ROUND_PERIOD,
    ensures
        ({
            let p = program_row(slot);
            let op = slot_spec(slot).op;
            &&& p[COL_IS_XOR as int] == if op is Xor || op is XorRol { 1int } else { 0 }
            &&& p[COL_IS_ANDNOT as int] == if op is Andnot { 1int } else { 0 }
            &&& p[COL_IS_ROL as int] == if op is Rol || op is XorRol { 1int } else { 0 }
            &&& p[COL_IS_XORROL as int] == if op is XorRol { 1int } else { 0 }
            &&& p[COL_BACK_A as int] == slot_spec(slot).src_a.distance(slot)
            &&& p[COL_BACK_B as int] == slot_spec(slot).src_b.distance(slot)
            &&& p[COL_DST_MULT as int] == slot_spec(slot).dst_mult
            &&& p[COL_P_LAST as int] == if slot == ROUND_PERIOD - 1 { 1int } else { 0 }
            &&& 0 <= p[COL_BACK_A as int] <= 256
            &&& 0 <= p[COL_BACK_B as int] <= 256
        }),
{
    slot_reads_backwards(slot);
}

/// The fractions of one lane, in order.
#[verifier::spinoff_prover]
#[verifier::rlimit(30)]
pub proof fn lane_messages(l: Seq<int>, slot: int, lane: int)
    requires
        0 <= slot < ROUND_PERIOD,
        l.len() == NUM_MAIN_COLS,
        0 <= lane < NUM_LANES,
        lane_cell(l, lane, COL_ACT as int) == 1,
    ensures
        ({
            let p = program_row(slot);
            let op = slot_spec(slot).op;
            let fs = round_fractions(l, p);
            let o = 19 * lane;
            let logic = !(op is Nop) && !(op is Rol);
            let ip = lane_cell(l, lane, COL_IP as int);
            let a = lane_cells(l, lane, COL_A_BYTES as int);
            let b = lane_cells(l, lane, COL_B_BYTES as int);
            let r = lane_cells(l, lane, COL_R_BYTES as int);
            let limbs = lane_cells(l, lane, COL_ROT_LIMBS as int);
            let c = written(
                r,
                limbs,
                p[COL_K as int],
                p[COL_SWAP as int],
                p[COL_IS_ROL as int],
            );
            &&& fs.len() == 38
            &&& fs[o].mult == 0 - slot_spec(slot).dst_mult
            &&& fs[o].bus == BusId::Memory64
            &&& fs[o].elems == seq![ip, c.0, c.1]
            &&& fs[o + 1].mult == if op is Nop { 0int } else { 1 }
            &&& fs[o + 1].bus == BusId::Memory64
            &&& fs[o + 1].elems == seq![
                ip - p[COL_BACK_A as int],
                packed(a.subrange(0, 4), 256),
                packed(a.subrange(4, 8), 256),
            ]
            &&& fs[o + 2].mult == if logic { 1int } else { 0 }
            &&& fs[o + 2].bus == BusId::Memory64
            &&& fs[o + 2].elems == seq![
                ip - p[COL_BACK_B as int],
                packed(b.subrange(0, 4), 256),
                packed(b.subrange(4, 8), 256),
            ]
            &&& forall|j: int|
                0 <= j < 8 ==> {
                    let f = #[trigger] fs[o + 3 + j];
                    &&& f.mult == if op is Nop { 0int } else { 1 }
                    &&& f.bus == BusId::BytePairLut
                    &&& f.elems == seq![
                        if op is Andnot { 0int } else { 1 },
                        a[j],
                        if logic { b[j] } else { 0 },
                        r[j],
                    ]
                }
            &&& forall|j: int|
                0 <= j < 8 ==> {
                    let f = #[trigger] fs[o + 11 + j];
                    &&& f.mult == if op is Rol || op is XorRol { 1int } else { 0 }
                    &&& f.bus == BusId::Range16
                    &&& f.elems == seq![limbs[j]]
                }
        }),
{
    switches(slot);
    let p = program_row(slot);
    let op = slot_spec(slot).op;
    let act: int = lane_cell(l, lane, COL_ACT as int);
    let logic: int = p[COL_IS_XOR as int] + p[COL_IS_ANDNOT as int];
    let busy: int = p[COL_IS_XOR as int] + p[COL_IS_ANDNOT as int] + p[COL_IS_ROL as int]
        - p[COL_IS_XORROL as int];
    let mult: int = p[COL_DST_MULT as int];
    let rol: int = p[COL_IS_ROL as int];
    one_times(act, mult);
    one_times(act, logic);
    one_times(act, busy);
    one_times(act, rol);
    let b = lane_cells(l, lane, COL_B_BYTES as int);
    assert forall|j: int| 0 <= j < 8 implies #[trigger] (logic * b[j]) == if logic == 1 {
        b[j]
    } else {
        0
    } by {
        if logic == 1 {
            one_times(logic, b[j]);
        } else {
            assert(logic * b[j] == 0) by (nonlinear_arith)
                requires
                    logic == 0,
            ;
        }
    }
    let fs = round_fractions(l, p);
    if lane == 0 {
        assert(lane * LANE_WIDTH == 0);
        assert forall|j: int| 0 <= j < 8 implies (#[trigger] fs[0 + 3 + j]).elems =~= seq![
            if op is Andnot { 0int } else { 1 },
            lane_cells(l, lane, COL_A_BYTES as int)[j],
            logic * b[j],
            lane_cells(l, lane, COL_R_BYTES as int)[j],
        ] by {}
    } else {
        assert(lane * LANE_WIDTH == LANE_WIDTH);
        assert forall|j: int| 0 <= j < 8 implies (#[trigger] fs[19 + 3 + j]).elems =~= seq![
            if op is Andnot { 0int } else { 1 },
            lane_cells(l, lane, COL_A_BYTES as int)[j],
            logic * b[j],
            lane_cells(l, lane, COL_R_BYTES as int)[j],
        ] by {}
    }
}

proof fn one_times(one: int, x: int)
    requires
        one == 1,
    ensures
        one * x == x,
        x * one == x,
{
    assert(one * x == x && x * one == x) by (nonlinear_arith)
        requires
            one == 1,
    ;
}

/// A message with cells for elements that counts is true as it stands.
proof fn heard(store: Store, l: Seq<int>, slot: int, k: int)
    requires
        messages_hold(store, l, slot),
        0 <= k < round_fractions(l, program_row(slot)).len(),
        round_fractions(l, program_row(slot))[k].mult == 1,
    ensures
        ({
            let f = round_fractions(l, program_row(slot))[k];
            says(store, f.bus, payload(f))
        }),
{
    let f = round_fractions(l, program_row(slot))[k];
    assert(is_true(store, f));
    assert(counts(f));
}

/// On a live row the result is, byte by byte, what the operation of the slot makes of the operands
/// before it rotates.
pub proof fn bytes_follow_the_operation(store: Store, l: Seq<int>, slot: int, lane: int, j: int)
    requires
        0 <= slot < ROUND_PERIOD,
        l.len() == NUM_MAIN_COLS,
        forall|i: int| 0 <= i < NUM_MAIN_COLS ==> is_cell(#[trigger] l[i]),
        0 <= lane < NUM_LANES,
        lane_cell(l, lane, COL_ACT as int) == 1,
        messages_hold(store, l, slot),
        0 <= j < 8,
    ensures
        ({
            let a = lane_cells(l, lane, COL_A_BYTES as int)[j];
            let b = lane_cells(l, lane, COL_B_BYTES as int)[j];
            let r = lane_cells(l, lane, COL_R_BYTES as int)[j];
            let op = slot_spec(slot).op;
            &&& !(op is Nop) ==> is_byte(a) && is_byte(r)
            &&& op is Xor || op is XorRol || op is Andnot ==> is_byte(b)
            &&& op is Xor || op is XorRol ==> r == (a as u8) ^ (b as u8)
            &&& op is Andnot ==> r == !(a as u8) & (b as u8)
            &&& op is Rol ==> r == a
        }),
{
    lane_messages(l, slot, lane);
    let op = slot_spec(slot).op;
    let fs = round_fractions(l, program_row(slot));
    let k: int = 19 * lane + 3 + j;
    let f = fs[19 * lane + 3 + j];
    let a = lane_cells(l, lane, COL_A_BYTES as int)[j];
    let b = lane_cells(l, lane, COL_B_BYTES as int)[j];
    let r = lane_cells(l, lane, COL_R_BYTES as int)[j];
    assert(is_cell(l[lane * LANE_WIDTH + COL_A_BYTES + j]));
    assert(is_cell(l[lane * LANE_WIDTH + COL_B_BYTES + j]));
    assert(is_cell(l[lane * LANE_WIDTH + COL_R_BYTES + j]));
    if !(op is Nop) {
        heard(store, l, slot, k);
        lemma_small_mod(a as nat, MODULUS as nat);
        lemma_small_mod(b as nat, MODULUS as nat);
        lemma_small_mod(r as nat, MODULUS as nat);
        lemma_small_mod(0, MODULUS as nat);
        lemma_small_mod(1, MODULUS as nat);
        if op is Rol {
            let byte: u8 = a as u8;
            assert(byte ^ 0 == byte) by (bit_vector);
        }
    }
}

/// Both operands and the result as halves.
#[verifier::spinoff_prover]
#[verifier::rlimit(30)]
proof fn halves_follow_the_operation(store: Store, l: Seq<int>, slot: int, lane: int)
    requires
        0 <= slot < ROUND_PERIOD,
        l.len() == NUM_MAIN_COLS,
        forall|i: int| 0 <= i < NUM_MAIN_COLS ==> is_cell(#[trigger] l[i]),
        0 <= lane < NUM_LANES,
        lane_cell(l, lane, COL_ACT as int) == 1,
        messages_hold(store, l, slot),
        !(slot_spec(slot).op is Nop),
    ensures
        ({
            let op = slot_spec(slot).op;
            let logic = !(op is Rol);
            let p = program_row(slot);
            let ip = lane_cell(l, lane, COL_IP as int);
            let from_a = (store.lanes)((ip - p[COL_BACK_A as int]) % (MODULUS as int));
            let from_b = (store.lanes)((ip - p[COL_BACK_B as int]) % (MODULUS as int));
            let r = lane_cells(l, lane, COL_R_BYTES as int);
            let lo = packed(r.subrange(0, 4), 256);
            let hi = packed(r.subrange(4, 8), 256);
            &&& is_half(from_a.0) && is_half(from_a.1)
            &&& logic ==> is_half(from_b.0) && is_half(from_b.1)
            &&& is_half(lo) && is_half(hi)
            &&& (lo, hi) == halves(
                match op {
                    Op::Andnot => !word(from_a) & word(from_b),
                    Op::Rol(_) => word(from_a),
                    _ => word(from_a) ^ word(from_b),
                },
            )
        }),
{
    lane_messages(l, slot, lane);
    let op = slot_spec(slot).op;
    let p = program_row(slot);
    let o: int = 19 * lane;
    let fs = round_fractions(l, p);
    let ip = lane_cell(l, lane, COL_IP as int);
    let a = lane_cells(l, lane, COL_A_BYTES as int);
    let b = lane_cells(l, lane, COL_B_BYTES as int);
    let r = lane_cells(l, lane, COL_R_BYTES as int);
    let logic = !(op is Rol);
    assert forall|j: int| 0 <= j < 8 implies is_byte(#[trigger] a[j]) && is_byte(r[j]) && (logic
        ==> is_byte(b[j])) && (logic ==> r[j] == byte_result(
        if op is Andnot { 0int } else { 1 },
        a[j],
        b[j],
    )) && (!logic ==> r[j] == a[j]) by {
        bytes_follow_the_operation(store, l, slot, lane, j);
    }
    let (a_lo, a_hi) = (a.subrange(0, 4), a.subrange(4, 8));
    let (b_lo, b_hi) = (b.subrange(0, 4), b.subrange(4, 8));
    let (r_lo, r_hi) = (r.subrange(0, 4), r.subrange(4, 8));
    assert(are_bytes(a_lo) && are_bytes(a_hi) && are_bytes(r_lo) && are_bytes(r_hi)) by {
        assert forall|i: int| 0 <= i < 4 implies is_byte(#[trigger] a_lo[i]) by {
            assert(is_byte(a[i]));
        }
        assert forall|i: int| 0 <= i < 4 implies is_byte(#[trigger] a_hi[i]) by {
            assert(is_byte(a[i + 4]));
        }
        assert forall|i: int| 0 <= i < 4 implies is_byte(#[trigger] r_lo[i]) by {
            assert(is_byte(a[i]));
        }
        assert forall|i: int| 0 <= i < 4 implies is_byte(#[trigger] r_hi[i]) by {
            assert(is_byte(a[i + 4]));
        }
    }
    four_bytes(a_lo);
    four_bytes(a_hi);
    four_bytes(r_lo);
    four_bytes(r_hi);
    heard(store, l, slot, o + 1);
    lemma_small_mod(packed(a_lo, 256) as nat, MODULUS as nat);
    lemma_small_mod(packed(a_hi, 256) as nat, MODULUS as nat);
    let from_a = (packed(a_lo, 256), packed(a_hi, 256));
    assert(payload(fs[o + 1])[1] == from_a.0 && payload(fs[o + 1])[2] == from_a.1);
    words_have_halves(0, from_a.0, from_a.1);
    if logic {
        assert(are_bytes(b_lo) && are_bytes(b_hi)) by {
            assert forall|i: int| 0 <= i < 4 implies is_byte(#[trigger] b_lo[i]) by {
                assert(is_byte(a[i]));
            }
            assert forall|i: int| 0 <= i < 4 implies is_byte(#[trigger] b_hi[i]) by {
                assert(is_byte(a[i + 4]));
            }
        }
        four_bytes(b_lo);
        four_bytes(b_hi);
        heard(store, l, slot, o + 2);
        lemma_small_mod(packed(b_lo, 256) as nat, MODULUS as nat);
        lemma_small_mod(packed(b_hi, 256) as nat, MODULUS as nat);
        let from_b = (packed(b_lo, 256), packed(b_hi, 256));
        assert(payload(fs[o + 2])[1] == from_b.0 && payload(fs[o + 2])[2] == from_b.1);
        words_have_halves(0, from_b.0, from_b.1);
        let code: int = if op is Andnot { 0 } else { 1 };
        assert forall|i: int| 0 <= i < 4 implies #[trigger] r_lo[i] == byte_result(
            code,
            a_lo[i],
            b_lo[i],
        ) by {
            assert(is_byte(a[i]));
        }
        assert forall|i: int| 0 <= i < 4 implies #[trigger] r_hi[i] == byte_result(
            code,
            a_hi[i],
            b_hi[i],
        ) by {
            assert(is_byte(a[i + 4]));
        }
        bytes_make_halves(code, a_lo, b_lo, r_lo);
        bytes_make_halves(code, a_hi, b_hi, r_hi);
        halves_work_alone(word(from_a), word(from_b));
    } else {
        assert(r_lo =~= a_lo) by {
            assert forall|i: int| 0 <= i < 4 implies r_lo[i] == a_lo[i] by {
                assert(is_byte(a[i]));
            }
        }
        assert(r_hi =~= a_hi) by {
            assert forall|i: int| 0 <= i < 4 implies r_hi[i] == a_hi[i] by {
                assert(is_byte(a[i + 4]));
            }
        }
    }
}

/// What the constraints ask of a lane of a row.
#[verifier::spinoff_prover]
#[verifier::rlimit(30)]
pub proof fn lane_asked(rows: Seq<Seq<int>>, i: int, lane: int)
    requires
        satisfied(rows),
        0 <= i < rows.len(),
        0 <= lane < NUM_LANES,
    ensures
        ({
            let l = rows[i];
            let n = following(rows, i);
            let p = program_row(i % (ROUND_PERIOD as int));
            let m = MODULUS as int;
            let act = lane_cell(l, lane, COL_ACT as int);
            let r = lane_cells(l, lane, COL_R_BYTES as int);
            let limbs = lane_cells(l, lane, COL_ROT_LIMBS as int);
            &&& i < rows.len() - 1 ==> (lane_cell(n, lane, COL_IP as int) - lane_cell(
                l,
                lane,
                COL_IP as int,
            ) - 1) % m == 0
            &&& i == 0 && lane == 0 ==> (lane_cell(l, lane, COL_IP as int) - 25) % m == 0
            &&& bool_poly(act) % m == 0
            &&& ((1 - p[COL_P_LAST as int]) * (lane_cell(n, lane, COL_ACT as int) - act)) % m == 0
            &&& (act * p[COL_IS_ROL as int] * ((packed(r.subrange(0, 4), 256) + 0x1_0000_0000)
                * p[COL_K as int] - packed(limbs.subrange(0, 4), 65536))) % m == 0
            &&& (act * p[COL_IS_ROL as int] * ((packed(r.subrange(4, 8), 256) + 0x1_0000_0000)
                * p[COL_K as int] - packed(limbs.subrange(4, 8), 65536))) % m == 0
        }),
{
    let l = rows[i];
    let n = following(rows, i);
    let p = program_row(i % (ROUND_PERIOD as int));
    let d = round_demands(l, n, p);
    assert(is_met(d, i == 0, i == rows.len() - 1));
    if lane == 0 {
        assert(lane * LANE_WIDTH == 0);
        assert(d[0].0 == Rows::First && d[1].0 == Rows::AllButLast && d[2].0 == Rows::All);
        assert(d[3].0 == Rows::All && d[12].0 == Rows::All && d[13].0 == Rows::All);
    } else {
        assert(lane * LANE_WIDTH == LANE_WIDTH);
        assert(d[14].0 == Rows::AllButLast && d[15].0 == Rows::All && d[16].0 == Rows::All);
        assert(d[25].0 == Rows::All && d[26].0 == Rows::All);
    }
}

/// Four limbs that equal `(half + 2^32) * k` in the field equal it as numbers.
proof fn limbs_decompose(half: int, k: int, limbs: Seq<int>)
    requires
        is_half(half),
        0 < k <= 0x4000_0000,
        limbs.len() == 4,
        forall|i: int| 0 <= i < 4 ==> 0 <= #[trigger] limbs[i] < 65536,
        ((half + 0x1_0000_0000) * k - packed(limbs, 65536)) % (MODULUS as int) == 0,
    ensures
        (half + 0x1_0000_0000) * k == packed(limbs, 65536),
{
    four_limbs(limbs);
    let m = MODULUS as int;
    let x = (half + 0x1_0000_0000) * k;
    let y = packed(limbs, 65536);
    assert(0 <= limbs[0] < 65536 && 0 <= limbs[1] < 65536);
    assert(0 <= limbs[2] < 65536 && 0 <= limbs[3] < 65536);
    assert(0x1_0000_0000 <= x < 0x8000_0000_0000_0000) by (nonlinear_arith)
        requires
            0 <= half < 0x1_0000_0000,
            0 < k <= 0x4000_0000,
            x == (half + 0x1_0000_0000) * k,
    ;
    lemma_fundamental_div_mod(x - y, m);
    let q = (x - y) / m;
    assert(q == 0) by (nonlinear_arith)
        requires
            x - y == m * q,
            m == 0xffff_ffff_0000_0001,
            0x1_0000_0000 <= x < 0x8000_0000_0000_0000,
            0 <= y < 0x1_0000_0000_0000_0000,
    ;
    assert(m * q == 0) by (nonlinear_arith)
        requires
            q == 0,
    ;
}

/// What a live row that rotates writes.
#[verifier::spinoff_prover]
#[verifier::rlimit(30)]
proof fn rotation_is_written(store: Store, rows: Seq<Seq<int>>, i: int, lane: int, value: u64)
    requires
        satisfied(rows),
        0 <= i < rows.len(),
        0 <= lane < NUM_LANES,
        lane_cell(rows[i], lane, COL_ACT as int) == 1,
        messages_hold(store, rows[i], i % (ROUND_PERIOD as int)),
        ({
            let op = slot_spec(i % (ROUND_PERIOD as int)).op;
            op is Rol || op is XorRol
        }),
        ({
            let r = lane_cells(rows[i], lane, COL_R_BYTES as int);
            (packed(r.subrange(0, 4), 256), packed(r.subrange(4, 8), 256)) == halves(value)
        }),
    ensures
        ({
            let p = program_row(i % (ROUND_PERIOD as int));
            let r = lane_cells(rows[i], lane, COL_R_BYTES as int);
            let limbs = lane_cells(rows[i], lane, COL_ROT_LIMBS as int);
            let shift = match slot_spec(i % (ROUND_PERIOD as int)).op {
                Op::Rol(s) => s,
                Op::XorRol(s) => s,
                _ => 0,
            };
            written(r, limbs, p[COL_K as int], p[COL_SWAP as int], p[COL_IS_ROL as int]) == halves(
                rotl(value, shift),
            )
        }),
{
    let slot = i % (ROUND_PERIOD as int);
    let l = rows[i];
    let p = program_row(slot);
    let op = slot_spec(slot).op;
    lane_asked(rows, i, lane);
    lane_messages(l, slot, lane);
    switches(slot);
    slot_reads_backwards(slot);
    assert(forall|j: int| 0 <= j < NUM_MAIN_COLS ==> is_cell(#[trigger] rows[i][j]));
    let r = lane_cells(l, lane, COL_R_BYTES as int);
    let limbs = lane_cells(l, lane, COL_ROT_LIMBS as int);
    let fs = round_fractions(l, p);
    assert forall|j: int| 0 <= j < 8 implies 0 <= #[trigger] limbs[j] < 65536 by {
        let f = fs[19 * lane + 11 + j];
        heard(store, l, slot, 19 * lane + 11 + j);
        assert(is_cell(l[lane * LANE_WIDTH + COL_ROT_LIMBS + j]));
        lemma_small_mod(limbs[j] as nat, MODULUS as nat);
        assert(payload(f)[0] == limbs[j]);
    }
    let shift: u32 = match op {
        Op::Rol(s) => s,
        Op::XorRol(s) => if s >= 32 {
            (s - 32) as u32
        } else {
            s
        },
        _ => 0,
    };
    let swaps = op matches Op::XorRol(s) && s >= 32;
    let k: int = p[COL_K as int];
    let swap: int = p[COL_SWAP as int];
    let rol: int = p[COL_IS_ROL as int];
    assert(k == 1u64 << shift);
    assert(swap == if swaps { 1int } else { 0 });
    assert(0 < shift <= 30);
    rotation_of_halves(value, shift, 1u64 << shift);
    let act: int = lane_cell(l, lane, COL_ACT as int);
    one_times(act, rol);
    let (lo, hi) = halves(value);
    words_have_halves(value, lo, hi);
    let low = limbs.subrange(0, 4);
    let high = limbs.subrange(4, 8);
    assert forall|j: int| 0 <= j < 4 implies 0 <= #[trigger] low[j] < 65536 by {
        assert(0 <= limbs[j] < 65536);
    }
    assert forall|j: int| 0 <= j < 4 implies 0 <= #[trigger] high[j] < 65536 by {
        assert(0 <= limbs[j + 4] < 65536);
    }
    released(act * rol, (lo + 0x1_0000_0000) * k - packed(low, 65536));
    released(act * rol, (hi + 0x1_0000_0000) * k - packed(high, 65536));
    limbs_decompose(lo, k, low);
    limbs_decompose(hi, k, high);
    limbs_give_rotation(limbs, lo, hi, k);
    let turned = rotl(value, shift);
    assert(rotated(limbs, k, 0) == halves(turned));
    exchange_of_halves(turned);
    if swaps {
        assert(rotated(limbs, k, 1) == halves(half_swap(turned)));
        rotation_splits(value, op->XorRol_0);
    }
    let c = rotated(limbs, k, swap);
    one_times(rol, c.0 - lo);
    one_times(rol, c.1 - hi);
}

/// The value that a live row writes is what the operation of its slot makes of the lanes it reads.
#[verifier::spinoff_prover]
#[verifier::rlimit(30)]
pub proof fn rows_do_their_operation(store: Store, rows: Seq<Seq<int>>, i: int, lane: int)
    requires
        satisfied(rows),
        0 <= i < rows.len(),
        0 <= lane < NUM_LANES,
        lane_cell(rows[i], lane, COL_ACT as int) == 1,
        messages_hold(store, rows[i], i % (ROUND_PERIOD as int)),
        !(slot_spec(i % (ROUND_PERIOD as int)).op is Nop),
    ensures
        ({
            let slot = i % (ROUND_PERIOD as int);
            let ip = lane_cell(rows[i], lane, COL_IP as int);
            let m = MODULUS as int;
            let a = (store.lanes)((ip - slot_spec(slot).src_a.distance(slot)) % m);
            let b = (store.lanes)((ip - slot_spec(slot).src_b.distance(slot)) % m);
            slot_spec(slot).dst_mult > 0 ==> (store.lanes)(ip) == halves(
                op_result(slot_spec(slot).op, word(a), word(b)),
            )
        }),
{
    let slot = i % (ROUND_PERIOD as int);
    let l = rows[i];
    let p = program_row(slot);
    let op = slot_spec(slot).op;
    assert forall|j: int| 0 <= j < NUM_MAIN_COLS implies is_cell(#[trigger] l[j]) by {
        assert(is_cell(rows[i][j]));
    }
    switches(slot);
    lane_messages(l, slot, lane);
    halves_follow_the_operation(store, l, slot, lane);
    let ip = lane_cell(l, lane, COL_IP as int);
    assert(is_cell(l[lane * LANE_WIDTH + COL_IP]));
    let m = MODULUS as int;
    let a = word((store.lanes)((ip - p[COL_BACK_A as int]) % m));
    let b = word((store.lanes)((ip - p[COL_BACK_B as int]) % m));
    let value = match op {
        Op::Andnot => !a & b,
        Op::Rol(_) => a,
        _ => a ^ b,
    };
    let r = lane_cells(l, lane, COL_R_BYTES as int);
    let limbs = lane_cells(l, lane, COL_ROT_LIMBS as int);
    let rol: int = p[COL_IS_ROL as int];
    let c = written(r, limbs, p[COL_K as int], p[COL_SWAP as int], rol);
    let result = op_result(op, a, b);
    if op is Rol || op is XorRol {
        rotation_is_written(store, rows, i, lane, value);
    } else {
        let turned = rotated(limbs, p[COL_K as int], p[COL_SWAP as int]);
        let (lo, hi) = halves(value);
        assert(rol * (turned.0 - lo) == 0 && rol * (turned.1 - hi) == 0) by (nonlinear_arith)
            requires
                rol == 0,
        ;
    }
    assert(c == halves(result));
    let f = round_fractions(l, p)[19 * lane];
    words_have_halves(result, 0, 0);
    lemma_small_mod(ip as nat, MODULUS as nat);
    lemma_small_mod(c.0 as nat, MODULUS as nat);
    lemma_small_mod(c.1 as nat, MODULUS as nat);
    if slot_spec(slot).dst_mult > 0 {
        assert(is_true(store, f));
        let mult: int = slot_spec(slot).dst_mult as int;
        if (0 - mult) % m == 0 {
            small_and_zero(0 - mult);
        }
        assert(counts(f));
        assert(payload(f)[0] == ip && payload(f)[1] == c.0 && payload(f)[2] == c.1);
    }
}

/// Along a round the lane stays live and its address counts up.
proof fn rounds_run_through(rows: Seq<Seq<int>>, lane: int, at: int, slot: int)
    requires
        satisfied(rows),
        0 <= lane < NUM_LANES,
        0 <= at < rows.len(),
        at % (ROUND_PERIOD as int) == 0,
        0 <= slot < ROUND_PERIOD,
        lane_cell(rows[at], lane, COL_ACT as int) == 1,
        lane_cell(rows[at], lane, COL_IP as int) + ROUND_PERIOD < MODULUS,
    ensures
        at + slot < rows.len(),
        (at + slot) % (ROUND_PERIOD as int) == slot,
        lane_cell(rows[at + slot], lane, COL_ACT as int) == 1,
        lane_cell(rows[at + slot], lane, COL_IP as int) == lane_cell(
            rows[at],
            lane,
            COL_IP as int,
        ) + slot,
    decreases slot,
{
    if slot > 0 {
        rounds_run_through(rows, lane, at, slot - 1);
        let i: int = at + slot - 1;
        lane_asked(rows, i, lane);
        switches(slot - 1);
        let l = rows[i];
        let n = rows[i + 1];
        assert(following(rows, i) == n);
        let act: int = lane_cell(l, lane, COL_ACT as int);
        let next: int = lane_cell(n, lane, COL_ACT as int);
        assert(is_cell(rows[i][lane * LANE_WIDTH + COL_ACT]));
        assert(is_cell(rows[i + 1][lane * LANE_WIDTH + COL_ACT]));
        assert(is_cell(rows[i + 1][lane * LANE_WIDTH + COL_IP]));
        released(1 - program_row(slot - 1)[COL_P_LAST as int], next - act);
        same_cell(next, act);
        same_cell(
            lane_cell(n, lane, COL_IP as int),
            lane_cell(l, lane, COL_IP as int) + 1,
        );
    }
}

/// Every slot that works is read by others, and reads only slots that work, the round constant, or
/// input lanes.
proof fn slots_read_what_is_written(slot: int)
    requires
        0 <= slot < ROUND_PERIOD,
        !(slot_spec(slot).op is Nop),
    ensures
        slot > 0,
        slot_spec(slot).dst_mult > 0,
        slot_spec(slot).src_a matches Source::Local(s) ==> s == SLOT_RC || !(slot_spec(
            s as int,
        ).op is Nop),
        slot_spec(slot).src_b matches Source::Local(s) ==> s == SLOT_RC || !(slot_spec(
            s as int,
        ).op is Nop),
        slot_spec(slot).src_a is Absent ==> false,
        slot_spec(slot).src_b is Absent ==> slot_spec(slot).op is Rol,
{
    if SLOT_CHI_ANDNOT_BEGIN <= slot < SLOT_CHI_ANDNOT_BEGIN + 25 {
        let x: int = (slot - SLOT_CHI_ANDNOT_BEGIN) % 5;
        let y: int = (slot - SLOT_CHI_ANDNOT_BEGIN) / 5;
        moved_lanes_work((x + 1) % 5 + 5 * y);
        moved_lanes_work((x + 2) % 5 + 5 * y);
    } else if slot == SLOT_CHI00 {
        moved_lanes_work(0);
    } else if SLOT_CHI_XOR_BEGIN <= slot {
        moved_lanes_work(slot - SLOT_CHI_XOR_BEGIN + 1);
    } else if SLOT_APPLY_RPI_BEGIN <= slot < SLOT_CHI_ANDNOT_BEGIN {
        let lane = lane_at(slot)->0;
        assert(0 <= lane < 25);
        let (x, y) = moved_from(lane % 5, lane / 5);
        assert(0 <= x < 5);
    }
}

/// The slots of the lanes after rho and pi work.
proof fn moved_lanes_work(lane: int)
    requires
        0 <= lane < 25,
    ensures
        !(slot_spec(B_SLOTS@[lane] as int).op is Nop),
{
    lane_at_is(lane);
    b_slots_ordered(0, lane);
    b_slots_ordered(lane, 24);
}

/// The store holds a word at an address of the memory.
pub open spec fn holds(store: Store, address: int, value: u64) -> bool {
    (store.lanes)(address) == halves(value)
}

/// The store holds the input of a round whose first row has the address `ip`: the lanes where the
/// round before leaves them, and the round constant.
pub open spec fn holds_input(store: Store, ip: int, state: Seq<u64>, rc: u64) -> bool {
    &&& state.len() == 25
    &&& holds(store, ip, rc)
    &&& forall|x: usize, y: usize|
        x < 5 && y < 5 ==> holds(
            store,
            ip - ROUND_PERIOD + #[trigger] slot_lane_prev(x, y),
            state[x + 5 * y],
        )
}

/// Every working slot of a live round writes its cell of the program.
#[verifier::rlimit(30)]
proof fn slots_write_their_cell(
    store: Store,
    rows: Seq<Seq<int>>,
    lane: int,
    at: int,
    state: Seq<u64>,
    rc: u64,
    slot: int,
)
    requires
        satisfied(rows),
        0 <= lane < NUM_LANES,
        0 <= at < rows.len(),
        at % (ROUND_PERIOD as int) == 0,
        lane_cell(rows[at], lane, COL_ACT as int) == 1,
        25 <= lane_cell(rows[at], lane, COL_IP as int),
        lane_cell(rows[at], lane, COL_IP as int) + ROUND_PERIOD < MODULUS,
        forall|i: int|
            0 <= i < ROUND_PERIOD && at + i < rows.len() ==> #[trigger] messages_hold(
                store,
                rows[at + i],
                i,
            ),
        holds_input(store, lane_cell(rows[at], lane, COL_IP as int), state, rc),
        0 <= slot < ROUND_PERIOD,
        slot == SLOT_RC || !(slot_spec(slot).op is Nop),
    ensures
        holds(
            store,
            lane_cell(rows[at], lane, COL_IP as int) + slot,
            cell_value(state, rc, slot),
        ),
    decreases slot,
{
    let ip = lane_cell(rows[at], lane, COL_IP as int);
    if slot > 0 {
        let s = slot_spec(slot);
        rounds_run_through(rows, lane, at, slot);
        slots_read_what_is_written(slot);
        slot_reads_backwards(slot);
        assert(messages_hold(store, rows[at + slot], slot));
        rows_do_their_operation(store, rows, at + slot, lane);
        match s.src_a {
            Source::Local(from) => {
                slots_write_their_cell(store, rows, lane, at, state, rc, from as int);
                lemma_small_mod((ip + from) as nat, MODULUS as nat);
                words_have_halves(cell_value(state, rc, from as int), 0, 0);
            },
            Source::Lane(x, y) => {
                lemma_small_mod(
                    (ip - ROUND_PERIOD + slot_lane_prev(x, y)) as nat,
                    MODULUS as nat,
                );
                assert(holds(
                    store,
                    ip - ROUND_PERIOD + slot_lane_prev(x, y),
                    state[x + 5 * y],
                ));
                words_have_halves(state[x + 5 * y], 0, 0);
            },
            Source::Absent => {},
        }
        match s.src_b {
            Source::Local(from) => {
                slots_write_their_cell(store, rows, lane, at, state, rc, from as int);
                lemma_small_mod((ip + from) as nat, MODULUS as nat);
                words_have_halves(cell_value(state, rc, from as int), 0, 0);
            },
            Source::Lane(x, y) => {
                lemma_small_mod(
                    (ip - ROUND_PERIOD + slot_lane_prev(x, y)) as nat,
                    MODULUS as nat,
                );
                assert(holds(
                    store,
                    ip - ROUND_PERIOD + slot_lane_prev(x, y),
                    state[x + 5 * y],
                ));
                words_have_halves(state[x + 5 * y], 0, 0);
            },
            Source::Absent => {},
        }
    }
}

/// The 128 rows of a live round write, where the next round reads its input, what one round of
/// Keccak-f makes of the lanes and the round constant that they read.
pub proof fn rounds_compute_keccak(
    store: Store,
    rows: Seq<Seq<int>>,
    lane: int,
    at: int,
    state: Seq<u64>,
    rc: u64,
)
    requires
        satisfied(rows),
        0 <= lane < NUM_LANES,
        0 <= at < rows.len(),
        at % (ROUND_PERIOD as int) == 0,
        lane_cell(rows[at], lane, COL_ACT as int) == 1,
        25 <= lane_cell(rows[at], lane, COL_IP as int),
        lane_cell(rows[at], lane, COL_IP as int) + ROUND_PERIOD < MODULUS,
        forall|i: int|
            0 <= i < ROUND_PERIOD && at + i < rows.len() ==> #[trigger] messages_hold(
                store,
                rows[at + i],
                i,
            ),
        holds_input(store, lane_cell(rows[at], lane, COL_IP as int), state, rc),
    ensures
        forall|x: usize, y: usize|
            x < 5 && y < 5 ==> holds(
                store,
                lane_cell(rows[at], lane, COL_IP as int) + #[trigger] slot_lane_prev(x, y),
                round(state, rc)[x + 5 * y],
            ),
{
    assert forall|x: usize, y: usize| x < 5 && y < 5 implies holds(
        store,
        lane_cell(rows[at], lane, COL_IP as int) + #[trigger] slot_lane_prev(x, y),
        round(state, rc)[x + 5 * y],
    ) by {
        slots_write_their_cell(
            store,
            rows,
            lane,
            at,
            state,
            rc,
            slot_lane_prev(x, y) as int,
        );
        program_computes_round(state, rc, x, y);
    }
}

/// Addresses count up from row to row of a lane.
proof fn addresses_count_up(rows: Seq<Seq<int>>, lane: int, at: int, steps: int)
    requires
        satisfied(rows),
        0 <= lane < NUM_LANES,
        0 <= at,
        0 <= steps,
        at + steps < rows.len(),
        lane_cell(rows[at], lane, COL_IP as int) + steps < MODULUS,
    ensures
        lane_cell(rows[at + steps], lane, COL_IP as int) == lane_cell(
            rows[at],
            lane,
            COL_IP as int,
        ) + steps,
    decreases steps,
{
    if steps > 0 {
        addresses_count_up(rows, lane, at, steps - 1);
        let i: int = at + steps - 1;
        lane_asked(rows, i, lane);
        assert(following(rows, i) == rows[i + 1]);
        assert(is_cell(rows[i][lane * LANE_WIDTH + COL_IP]));
        assert(is_cell(rows[i + 1][lane * LANE_WIDTH + COL_IP]));
        same_cell(
            lane_cell(rows[i + 1], lane, COL_IP as int),
            lane_cell(rows[i], lane, COL_IP as int) + 1,
        );
    }
}

/// The rows of `count` live rounds from row `at` on, whose messages are true.
pub open spec fn rounds_are_live(
    store: Store,
    rows: Seq<Seq<int>>,
    lane: int,
    at: int,
    count: int,
) -> bool {
    &&& 0 <= at
    &&& at % (ROUND_PERIOD as int) == 0
    &&& at + ROUND_PERIOD * count <= rows.len()
    &&& forall|r: int|
        0 <= r < count ==> lane_cell(
            #[trigger] rows[at + ROUND_PERIOD * r],
            lane,
            COL_ACT as int,
        ) == 1
    &&& forall|i: int|
        at <= i < at + ROUND_PERIOD * count ==> #[trigger] messages_hold(
            store,
            rows[i],
            i % (ROUND_PERIOD as int),
        )
}

/// Live rounds, one behind the other, with the round constants where they start, leave the state
/// after as many rounds of Keccak-f; 24 of them are the permutation.
pub proof fn rounds_chain(
    store: Store,
    rows: Seq<Seq<int>>,
    lane: int,
    at: int,
    state: Seq<u64>,
    count: int,
)
    requires
        satisfied(rows),
        0 <= lane < NUM_LANES,
        0 < count <= 24,
        rounds_are_live(store, rows, lane, at, count),
        25 <= lane_cell(rows[at], lane, COL_IP as int),
        lane_cell(rows[at], lane, COL_IP as int) + ROUND_PERIOD * count < MODULUS,
        holds_input(store, lane_cell(rows[at], lane, COL_IP as int), state, KECCAK_RC@[0]),
        forall|r: int|
            0 <= r < count ==> holds(
                store,
                lane_cell(rows[at], lane, COL_IP as int) + ROUND_PERIOD * r,
                #[trigger] KECCAK_RC@[r],
            ),
    ensures
        forall|x: usize, y: usize|
            x < 5 && y < 5 ==> holds(
                store,
                lane_cell(rows[at], lane, COL_IP as int) + ROUND_PERIOD * (count - 1)
                    + #[trigger] slot_lane_prev(x, y),
                rounds(state, count as nat)[x + 5 * y],
            ),
    decreases count,
{
    let ip = lane_cell(rows[at], lane, COL_IP as int);
    let here: int = at + ROUND_PERIOD * (count - 1);
    let before = rounds(state, (count - 1) as nat);
    assert(lane_cell(rows[at + ROUND_PERIOD * (count - 1)], lane, COL_ACT as int) == 1);
    addresses_count_up(rows, lane, at, ROUND_PERIOD * (count - 1));
    let ip_here: int = ip + ROUND_PERIOD * (count - 1);
    assert(holds(store, ip + ROUND_PERIOD * (count - 1), KECCAK_RC@[count - 1]));
    if count > 1 {
        rounds_chain(store, rows, lane, at, state, count - 1);
        assert forall|x: usize, y: usize| x < 5 && y < 5 implies holds(
            store,
            ip_here - ROUND_PERIOD + #[trigger] slot_lane_prev(x, y),
            before[x + 5 * y],
        ) by {
            assert(ip_here - ROUND_PERIOD == ip + ROUND_PERIOD * (count - 2));
        }
    }
    assert(before.len() == 25);
    assert(holds_input(store, ip_here, before, KECCAK_RC@[count - 1]));
    assert forall|i: int| 0 <= i < ROUND_PERIOD && here + i < rows.len() implies
        #[trigger] messages_hold(store, rows[here + i], i) by {
        assert((here + i) % (ROUND_PERIOD as int) == i);
        assert(messages_hold(store, rows[here + i], (here + i) % (ROUND_PERIOD as int)));
    }
    rounds_compute_keccak(store, rows, lane, here, before, KECCAK_RC@[count - 1]);
    assert(rounds(state, count as nat) == round(before, KECCAK_RC@[count - 1]));
}

} // verus!
