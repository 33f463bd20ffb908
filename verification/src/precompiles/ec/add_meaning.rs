//! What an addition proves: where the messages it consumes are true, its result is the sum of its
//! operands by the group law.

use crate::precompiles::ec::add::{
    add_fractions, CELL_E, CELL_GROUP, CELL_LAMBDA, CELL_R, CELL_SBOUND, CELL_SLOPE_AUX, CELL_T,
    CELL_X3, CELL_Y3, COL_ACT, COL_A_PTR, COL_BETA_PTR, COL_BOUND_PTR, COL_B_PTR, COL_CANCEL,
    COL_DBL, COL_GEN, COL_LAMBDA_PTR, COL_MINTS, COL_PAI_P, COL_PAI_Q, COL_PX, COL_PY, COL_QX,
    COL_QY, COL_RP_HI, COL_RP_LO, COL_RQ_HI, COL_RQ_LO, NUM_MAIN_COLS, PERIOD, ROW_RES, ROW_SLOPE,
    ROW_TAIL, ROW_TERM, TERM_CELL_MULT, TERM_CELL_P, TERM_CELL_Q,
};
use crate::precompiles::ec::add_laws::{
    blocks_are_uniform, case_holds, results_follow_their_case, roles, rows_in_use_have_one_case,
    satisfied,
};
use crate::precompiles::field::MODULUS;
use crate::precompiles::logup::Fraction;
use crate::precompiles::meaning::{
    both_set, cells_are_residues, chords_sum, counts, is_member, is_sum, is_true, multiplies,
    on_curve, point_at, same, same_halved, same_itself, same_scaled, same_through, same_together,
    same_turned, says, sums, tangents_sum, third_on_line, Curve, Place, Point, Store,
};
use crate::precompiles::relations::BusId;
use crate::precompiles::trace::{following, is_cell, is_flag, switched};
use vstd::arithmetic::div_mod::lemma_small_mod;
use vstd::prelude::*;

verus! {

/// What one addition is about: its operands, its result, and what it works with, by pointers.
pub struct Addition {
    pub p: int,
    pub q: int,
    pub r: int,
    pub group: int,
    pub bound: int,
    pub px: int,
    pub py: int,
    pub qx: int,
    pub qy: int,
    pub a: int,
    pub slope: int,
    /// The denominator of the slope of a chord, the numerator of that of a tangent.
    pub aux: int,
    pub t: int,
    pub e: int,
    pub x3: int,
    pub y3: int,
}

/// The addition that a block of four rows records.
pub open spec fn addition(rows: Seq<Seq<int>>, block: int) -> Addition {
    let b = PERIOD * block;
    Addition {
        p: rows[b + ROW_TERM][TERM_CELL_P as int],
        q: rows[b + ROW_TERM][TERM_CELL_Q as int],
        r: rows[b + ROW_RES][CELL_R as int],
        group: rows[b + ROW_RES][CELL_GROUP as int],
        bound: rows[b][COL_BOUND_PTR as int],
        px: rows[b][COL_PX as int],
        py: rows[b][COL_PY as int],
        qx: rows[b][COL_QX as int],
        qy: rows[b][COL_QY as int],
        a: rows[b][COL_A_PTR as int],
        slope: rows[b + ROW_SLOPE][CELL_LAMBDA as int],
        aux: rows[b + ROW_SLOPE][CELL_SLOPE_AUX as int],
        t: rows[b + ROW_SLOPE][CELL_T as int],
        e: rows[b + ROW_TAIL][CELL_E as int],
        x3: rows[b + ROW_TAIL][CELL_X3 as int],
        y3: rows[b + ROW_TAIL][CELL_Y3 as int],
    }
}

/// The fractions of row `i`.
pub open spec fn fractions_of(rows: Seq<Seq<int>>, i: int) -> Seq<Fraction> {
    add_fractions(rows[i], following(rows, i), roles(i))
}

/// The messages that an addition provides; it consumes all others.
pub open spec fn is_provided(f: Fraction) -> bool {
    f.bus == BusId::EcGroupAdd || f.bus == BusId::EcOnCurveCert
}

/// Every message that the block consumes is true of the store.
pub open spec fn consumes_truth(store: Store, rows: Seq<Seq<int>>, block: int) -> bool {
    forall|row: int, k: int|
        0 <= row < PERIOD && 0 <= k < fractions_of(rows, PERIOD * block + row).len()
            && !is_provided(#[trigger] fractions_of(rows, PERIOD * block + row)[k]) ==> is_true(
            store,
            fractions_of(rows, PERIOD * block + row)[k],
        )
}

/// A block of a table that satisfies the constraints.
pub open spec fn is_block(rows: Seq<Seq<int>>, block: int) -> bool {
    &&& satisfied(rows)
    &&& 0 <= block
    &&& PERIOD * block < rows.len()
}

/// What holds of every block: its rows are there, its cells are residues, its flags are flags.
proof fn block_shape(rows: Seq<Seq<int>>, block: int)
    requires
        is_block(rows, block),
    ensures
        ({
            let b: int = PERIOD * block;
            &&& b + 4 <= rows.len()
            &&& forall|row: int, col: int|
                0 <= row < 4 && 0 <= col < NUM_MAIN_COLS ==> is_cell(#[trigger] rows[b + row][col])
            &&& forall|row: int, col: int|
                0 <= row < 4 && COL_PX <= col < NUM_MAIN_COLS ==> #[trigger] rows[b + row][col]
                    == rows[b][col]
            &&& forall|row: int| 0 <= row < 3 ==> #[trigger] following(rows, b + row) == rows[b
                + row + 1]
            &&& forall|row: int, role: int|
                0 <= row < 4 && 0 <= role < 4 ==> #[trigger] roles(b + row)[role] == if row
                    == role {
                    1int
                } else {
                    0int
                }
            &&& case_holds(rows[b])
        }),
{
    let b: int = PERIOD * block;
    rows_in_use_have_one_case(rows, b);
    assert forall|row: int, col: int|
        0 <= row < 4 && COL_PX <= col < NUM_MAIN_COLS implies #[trigger] rows[b + row][col]
            == rows[b][col] by {
        blocks_are_uniform(rows, block, row, col);
    }
    assert forall|row: int, role: int|
        0 <= row < 4 && 0 <= role < 4 implies #[trigger] roles(b + row)[role] == if row == role {
            1int
        } else {
            0int
        } by {
        assert((b + row) % (PERIOD as int) == row);
    }
}

/// A consumed message whose multiplicity is one is true.
proof fn heard(store: Store, rows: Seq<Seq<int>>, block: int, row: int, k: int)
    requires
        is_block(rows, block),
        consumes_truth(store, rows, block),
        0 <= row < PERIOD,
        0 <= k < fractions_of(rows, PERIOD * block + row).len(),
        ({
            let f = fractions_of(rows, PERIOD * block + row)[k];
            &&& !is_provided(f)
            &&& f.mult == 1
            &&& forall|i: int| 0 <= i < f.elems.len() ==> is_cell(#[trigger] f.elems[i])
        }),
    ensures
        ({
            let f = fractions_of(rows, PERIOD * block + row)[k];
            says(store, f.bus, f.elems)
        }),
{
    let f = fractions_of(rows, PERIOD * block + row)[k];
    cells_are_residues(f);
    assert(counts(f));
    assert(is_true(store, f));
}

/// What the certificates of a doubling say.
#[verifier::spinoff_prover]
#[verifier::rlimit(40)]
proof fn tangent_certificates(store: Store, rows: Seq<Seq<int>>, block: int)
    requires
        is_block(rows, block),
        consumes_truth(store, rows, block),
        rows[PERIOD * block][COL_DBL as int] == 1,
    ensures
        ({
            let o = addition(rows, block);
            let m = store.modulus(o.bound);
            let slope = store.value(o.slope);
            let x1 = store.value(o.px);
            let y1 = store.value(o.py);
            let s = store.value(o.aux);
            &&& same(3 * (x1 * x1) + 1 * store.value(o.a), s, m)
            &&& same(2 * (slope * y1) + 0 * store.value(o.bound), s, m)
            &&& same(1 * (slope * slope) - 2 * x1, store.value(o.x3), m)
            &&& same(store.value(o.x3) + store.value(o.e), x1, m)
            &&& same(1 * (slope * store.value(o.e)) - 1 * y1, store.value(o.y3), m)
        }),
{
    block_shape(rows, block);
    let b: int = PERIOD * block;
    let fs = fractions_of(rows, b + 0);
    let l = rows[b + 0];
    let n = rows[b + 0 + 1];
    assert(following(rows, b + 0) == n);
    let dbl: int = l[COL_DBL as int];
    let generic: int = l[COL_GEN as int];
    assert(roles(b + 0)[0] == 1);
    both_set(dbl, roles(b + 0)[0]);
    both_set(dbl + generic, roles(b + 0)[0]);
    assert(is_cell(rows[b + 0][CELL_LAMBDA as int]) && is_cell(rows[b + 0][CELL_SLOPE_AUX as int]));
    assert(is_cell(rows[b + 0][COL_PX as int]) && is_cell(rows[b + 0][COL_PY as int]));
    assert(is_cell(rows[b + 0][COL_A_PTR as int]) && is_cell(rows[b + 0][COL_BOUND_PTR as int]));
    assert(is_cell(rows[b + 1][CELL_E as int]) && is_cell(rows[b + 1][CELL_X3 as int]));
    assert(is_cell(rows[b + 1][CELL_Y3 as int]));
    assert(fs[9].bus == BusId::UintMul && fs[9].mult == 1);
    heard(store, rows, block, 0, 9);
    assert(fs[10].bus == BusId::UintMul && fs[10].mult == 1);
    heard(store, rows, block, 0, 10);
    assert(fs[13].bus == BusId::UintAdd && fs[13].mult == 1);
    heard(store, rows, block, 0, 13);
    assert(fs[14].bus == BusId::UintMul && fs[14].mult == 1);
    heard(store, rows, block, 0, 14);
    assert(fs[15].bus == BusId::UintMul && fs[15].mult == 1);
    heard(store, rows, block, 0, 15);
}

/// What the certificates of a chord say.
#[verifier::spinoff_prover]
#[verifier::rlimit(40)]
proof fn chord_certificates(store: Store, rows: Seq<Seq<int>>, block: int)
    requires
        is_block(rows, block),
        consumes_truth(store, rows, block),
        rows[PERIOD * block][COL_GEN as int] == 1,
    ensures
        ({
            let o = addition(rows, block);
            let m = store.modulus(o.bound);
            let slope = store.value(o.slope);
            let x1 = store.value(o.px);
            let y1 = store.value(o.py);
            let x2 = store.value(o.qx);
            let y2 = store.value(o.qy);
            let d = store.value(o.aux);
            let t = store.value(o.t);
            &&& same(x1 + d, x2, m)
            &&& !same(d, 0, m)
            &&& same(1 * (slope * d) + 1 * y1, y2, m)
            &&& same(x1 + x2, t, m)
            &&& same(1 * (slope * slope) - 1 * t, store.value(o.x3), m)
            &&& same(store.value(o.x3) + store.value(o.e), x1, m)
            &&& same(1 * (slope * store.value(o.e)) - 1 * y1, store.value(o.y3), m)
        }),
{
    block_shape(rows, block);
    let b: int = PERIOD * block;
    let fs = fractions_of(rows, b + 0);
    let l = rows[b + 0];
    let n = rows[b + 0 + 1];
    assert(following(rows, b + 0) == n);
    let dbl: int = l[COL_DBL as int];
    let generic: int = l[COL_GEN as int];
    assert(roles(b + 0)[0] == 1);
    both_set(generic, roles(b + 0)[0]);
    both_set(dbl + generic, roles(b + 0)[0]);
    assert(is_cell(rows[b + 0][CELL_LAMBDA as int]) && is_cell(rows[b + 0][CELL_SLOPE_AUX as int]));
    assert(is_cell(rows[b + 0][CELL_T as int]));
    assert(is_cell(rows[b + 0][COL_PX as int]) && is_cell(rows[b + 0][COL_PY as int]));
    assert(is_cell(rows[b + 0][COL_QX as int]) && is_cell(rows[b + 0][COL_QY as int]));
    assert(is_cell(rows[b + 0][COL_BOUND_PTR as int]));
    assert(is_cell(rows[b + 1][CELL_E as int]) && is_cell(rows[b + 1][CELL_X3 as int]));
    assert(is_cell(rows[b + 1][CELL_Y3 as int]));
    assert(fs[7].bus == BusId::UintAdd && fs[7].mult == 1);
    heard(store, rows, block, 0, 7);
    assert(fs[8].bus == BusId::UintMul && fs[8].mult == 1);
    heard(store, rows, block, 0, 8);
    assert(fs[11].bus == BusId::UintAdd && fs[11].mult == 1);
    heard(store, rows, block, 0, 11);
    assert(fs[12].bus == BusId::UintMul && fs[12].mult == 1);
    heard(store, rows, block, 0, 12);
    assert(fs[13].bus == BusId::UintAdd && fs[13].mult == 1);
    heard(store, rows, block, 0, 13);
    assert(fs[14].bus == BusId::UintMul && fs[14].mult == 1);
    heard(store, rows, block, 0, 14);
}

/// What the point and group messages of a block in use say.
#[verifier::spinoff_prover]
#[verifier::rlimit(40)]
proof fn places_certified(store: Store, rows: Seq<Seq<int>>, block: int)
    requires
        is_block(rows, block),
        consumes_truth(store, rows, block),
        rows[PERIOD * block][COL_ACT as int] == 1,
    ensures
        ({
            let l = rows[PERIOD * block];
            let o = addition(rows, block);
            let curve = (store.groups)(o.group);
            let finite = l[COL_CANCEL as int] + l[COL_DBL as int] + l[COL_GEN as int] == 1;
            &&& (store.points)(o.p) == (Place {
                group: o.group,
                x: o.px,
                y: o.py,
                infinite: l[COL_PAI_P as int] == 1,
            })
            &&& (store.points)(o.q) == (Place {
                group: o.group,
                x: o.qx,
                y: o.qy,
                infinite: l[COL_PAI_Q as int] == 1,
            })
            &&& finite ==> curve.a == o.a && curve.bound == o.bound && curve.b
                == l[COL_B_PTR as int] && curve.beta == l[COL_BETA_PTR as int] && curve.lambda
                == l[COL_LAMBDA_PTR as int] && curve.scalar_bound == rows[PERIOD * block
                + ROW_RES][CELL_SBOUND as int]
            &&& l[COL_CANCEL as int] == 1 ==> (store.points)(o.r) == (Place {
                group: o.group,
                x: 0,
                y: 0,
                infinite: true,
            }) && same(
                store.value(o.py) + store.value(o.qy),
                0,
                store.modulus(o.bound),
            )
            &&& l[COL_DBL as int] == 1 || l[COL_GEN as int] == 1 ==> (store.points)(o.r) == (
            Place { group: o.group, x: o.x3, y: o.y3, infinite: false })
        }),
{
    block_shape(rows, block);
    let b: int = PERIOD * block;
    let fs = fractions_of(rows, b + 2);
    let l = rows[b + 2];
    assert(following(rows, b + 2) == rows[b + 2 + 1]);
    let act: int = l[COL_ACT as int];
    let cancel: int = l[COL_CANCEL as int];
    let dbl: int = l[COL_DBL as int];
    let generic: int = l[COL_GEN as int];
    let live: int = cancel + dbl + generic;
    assert(act == rows[b][COL_ACT as int]);
    assert(cancel == rows[b][COL_CANCEL as int]);
    assert(dbl == rows[b][COL_DBL as int]);
    assert(generic == rows[b][COL_GEN as int]);
    assert(rows[b + 2][COL_PAI_P as int] == rows[b][COL_PAI_P as int]);
    assert(rows[b + 2][COL_PAI_Q as int] == rows[b][COL_PAI_Q as int]);
    assert(rows[b + 2][COL_PX as int] == rows[b][COL_PX as int]);
    assert(rows[b + 2][COL_PY as int] == rows[b][COL_PY as int]);
    assert(rows[b + 2][COL_QX as int] == rows[b][COL_QX as int]);
    assert(rows[b + 2][COL_QY as int] == rows[b][COL_QY as int]);
    assert(rows[b + 2][COL_A_PTR as int] == rows[b][COL_A_PTR as int]);
    assert(rows[b + 2][COL_B_PTR as int] == rows[b][COL_B_PTR as int]);
    assert(rows[b + 2][COL_BOUND_PTR as int] == rows[b][COL_BOUND_PTR as int]);
    assert(rows[b + 2][COL_BETA_PTR as int] == rows[b][COL_BETA_PTR as int]);
    assert(rows[b + 2][COL_LAMBDA_PTR as int] == rows[b][COL_LAMBDA_PTR as int]);
    assert(is_cell(rows[b + 2][COL_PX as int]) && is_cell(rows[b + 2][COL_PY as int]));
    assert(is_cell(rows[b + 2][COL_QX as int]) && is_cell(rows[b + 2][COL_QY as int]));
    assert(is_cell(rows[b + 2][COL_A_PTR as int]) && is_cell(rows[b + 2][COL_B_PTR as int]));
    assert(is_cell(rows[b + 2][COL_BOUND_PTR as int]) && is_cell(rows[b + 2][COL_BETA_PTR as int]));
    assert(is_cell(rows[b + 2][COL_LAMBDA_PTR as int]) && is_cell(rows[b + 2][CELL_R as int]));
    assert(is_cell(rows[b + 2][CELL_GROUP as int]) && is_cell(rows[b + 2][CELL_SBOUND as int]));
    assert(is_cell(rows[b + 3][TERM_CELL_P as int]) && is_cell(rows[b + 3][TERM_CELL_Q as int]));
    assert(is_cell(rows[b + 1][CELL_X3 as int]) && is_cell(rows[b + 1][CELL_Y3 as int]));
    assert(roles(b + 2)[2] == 1);
    both_set(act, roles(b + 2)[2]);
    assert(fs[1].bus == BusId::EcPoint && fs[1].mult == 1);
    heard(store, rows, block, 2, 1);
    assert(fs[2].bus == BusId::EcPoint && fs[2].mult == 1);
    heard(store, rows, block, 2, 2);
    if live == 1 {
        both_set(live, roles(b + 2)[2]);
        assert(fs[5].bus == BusId::EcGroup && fs[5].mult == 1);
        heard(store, rows, block, 2, 5);
    }
    if cancel == 1 {
        both_set(cancel, roles(b + 2)[2]);
        assert(fs[4].bus == BusId::EcPoint && fs[4].mult == 1);
        heard(store, rows, block, 2, 4);
        assert(fs[6].bus == BusId::UintAdd && fs[6].mult == 1);
        heard(store, rows, block, 2, 6);
    }
    if dbl + generic == 1 {
        let fs = fractions_of(rows, b + 1);
        assert(following(rows, b + 1) == rows[b + 1 + 1]);
        assert(rows[b + 1][COL_DBL as int] == rows[b][COL_DBL as int]);
        assert(rows[b + 1][COL_GEN as int] == rows[b][COL_GEN as int]);
        assert(roles(b + 1)[1] == 1);
        both_set(dbl + generic, roles(b + 1)[1]);
        assert(fs[3].bus == BusId::EcPoint && fs[3].mult == 1);
        heard(store, rows, block, 1, 3);
    }
}

/// Doubling follows the tangent: `2 * slope * y = 3 * x^2 + a`, `x3 = slope^2 - 2 * x` and
/// `y3 = slope * (x - x3) - y`.
pub proof fn doubling_follows_the_tangent(store: Store, rows: Seq<Seq<int>>, block: int)
    requires
        is_block(rows, block),
        consumes_truth(store, rows, block),
        rows[PERIOD * block][COL_DBL as int] == 1,
        store.modulus(addition(rows, block).bound) > 0,
    ensures
        ({
            let o = addition(rows, block);
            let m = store.modulus(o.bound);
            let slope = store.value(o.slope);
            let x = store.value(o.px);
            let y = store.value(o.py);
            let x3 = store.value(o.x3);
            let y3 = store.value(o.y3);
            &&& o.px == o.qx && o.py == o.qy
            &&& same(2 * slope * y, 3 * x * x + store.value(o.a), m)
            &&& same(x3, slope * slope - 2 * x, m)
            &&& same(y3, slope * (x - x3) - y, m)
            &&& third_on_line(slope, x, y, x, x3, y3, m)
        }),
{
    block_shape(rows, block);
    tangent_certificates(store, rows, block);
    let o = addition(rows, block);
    let m = store.modulus(o.bound);
    let slope = store.value(o.slope);
    let x = store.value(o.px);
    let y = store.value(o.py);
    let x3 = store.value(o.x3);
    let y3 = store.value(o.y3);
    let a = store.value(o.a);
    let s = store.value(o.aux);
    let e = store.value(o.e);
    assert(2 * (slope * y) + 0 * store.value(o.bound) == 2 * slope * y) by (nonlinear_arith);
    assert(3 * (x * x) + 1 * a == 3 * x * x + a) by (nonlinear_arith);
    same_turned(3 * x * x + a, s, m);
    same_through(2 * slope * y, s, 3 * x * x + a, m);
    assert(1 * (slope * slope) - 2 * x == slope * slope - x - x);
    same_turned(slope * slope - x - x, x3, m);
    tail_follows(slope, x, y, x3, y3, e, m);
}

/// The last step of both cases: where the line goes, mirrored.
proof fn tail_follows(slope: int, x: int, y: int, x3: int, y3: int, e: int, m: int)
    requires
        m > 0,
        same(x3 + e, x, m),
        same(1 * (slope * e) - 1 * y, y3, m),
    ensures
        same(y3, slope * (x - x3) - y, m),
{
    same_itself(x3, m);
    same_together(x3 + e, x, x3, x3, m);
    assert(x3 + e - x3 == e);
    same_scaled(slope, e, x - x3, m);
    same_itself(y, m);
    same_together(slope * e, slope * (x - x3), y, y, m);
    assert(1 * (slope * e) - 1 * y == slope * e - y);
    same_turned(slope * e - y, y3, m);
    same_through(y3, slope * e - y, slope * (x - x3) - y, m);
}

/// Other points add along the chord: `slope * (x2 - x1) = y2 - y1` with `x1` and `x2` apart,
/// `x3 = slope^2 - x1 - x2` and `y3 = slope * (x1 - x3) - y1`.
pub proof fn addition_follows_the_chord(store: Store, rows: Seq<Seq<int>>, block: int)
    requires
        is_block(rows, block),
        consumes_truth(store, rows, block),
        rows[PERIOD * block][COL_GEN as int] == 1,
        store.modulus(addition(rows, block).bound) > 0,
    ensures
        ({
            let o = addition(rows, block);
            let m = store.modulus(o.bound);
            let slope = store.value(o.slope);
            let x1 = store.value(o.px);
            let y1 = store.value(o.py);
            let x2 = store.value(o.qx);
            let y2 = store.value(o.qy);
            let x3 = store.value(o.x3);
            let y3 = store.value(o.y3);
            &&& !same(x1, x2, m)
            &&& same(slope * (x2 - x1), y2 - y1, m)
            &&& same(x3, slope * slope - x1 - x2, m)
            &&& same(y3, slope * (x1 - x3) - y1, m)
            &&& third_on_line(slope, x1, y1, x2, x3, y3, m)
        }),
{
    chord_certificates(store, rows, block);
    let o = addition(rows, block);
    let m = store.modulus(o.bound);
    let slope = store.value(o.slope);
    let x1 = store.value(o.px);
    let y1 = store.value(o.py);
    let x2 = store.value(o.qx);
    let y2 = store.value(o.qy);
    let x3 = store.value(o.x3);
    let y3 = store.value(o.y3);
    let d = store.value(o.aux);
    let t = store.value(o.t);
    let e = store.value(o.e);
    same_itself(x1, m);
    same_itself(y1, m);
    same_together(x1 + d, x2, x1, x1, m);
    assert(x1 + d - x1 == d);
    if same(x1, x2, m) {
        same_turned(x1, x2, m);
        same_together(x2, x1, x1, x1, m);
        same_through(d, x2 - x1, x1 - x1, m);
    }
    same_scaled(slope, d, x2 - x1, m);
    same_turned(slope * d, slope * (x2 - x1), m);
    assert(1 * (slope * d) + 1 * y1 == slope * d + y1);
    same_together(slope * d + y1, y2, y1, y1, m);
    assert(slope * d + y1 - y1 == slope * d);
    same_through(slope * (x2 - x1), slope * d, y2 - y1, m);
    let square = slope * slope;
    same_itself(square, m);
    same_together(square, square, x1 + x2, t, m);
    assert(1 * square - 1 * t == square - t);
    assert(square - (x1 + x2) == square - x1 - x2);
    same_through(square - x1 - x2, square - t, x3, m);
    same_turned(square - x1 - x2, x3, m);
    tail_follows(slope, x1, y1, x3, y3, e, m);
}

/// The cubic of a curve and its derivative vanish together.
pub open spec fn is_singular(a: int, b: int, m: int, x: int) -> bool {
    same(x * x * x + a * x + b, 0, m) && same(3 * x * x + a, 0, m)
}

/// A curve over an odd modulus without a singular point.
pub open spec fn is_smooth(store: Store, group: int) -> bool {
    let curve = (store.groups)(group);
    let a = store.value(curve.a);
    let b = store.value(curve.b);
    let m = store.modulus(curve.bound);
    &&& m > 0
    &&& m % 2 == 1
    &&& forall|x: int| !#[trigger] is_singular(a, b, m, x)
}

/// No point of a smooth curve that is its own mirror image has a tangent with a slope.
proof fn tangents_meet_no_mirrored_point(a: int, b: int, m: int, x: int, y: int, slope: int)
    requires
        m > 0,
        m % 2 == 1,
        on_curve(a, b, m, x, y),
        same(y + y, 0, m),
        same(2 * slope * y, 3 * x * x + a, m),
    ensures
        is_singular(a, b, m, x),
{
    same_halved(y, m);
    same_scaled(y, y, 0, m);
    assert(y * 0 == 0);
    same_turned(y * y, x * x * x + a * x + b, m);
    same_through(x * x * x + a * x + b, y * y, 0, m);
    same_scaled(slope, y + y, 0, m);
    assert(slope * (y + y) == 2 * slope * y && slope * 0 == 0) by (nonlinear_arith);
    same_turned(2 * slope * y, 3 * x * x + a, m);
    same_through(3 * x * x + a, 2 * slope * y, 0, m);
}

/// The result of a block in use is the sum of its operands by the group law, so the message that
/// it provides is true.
pub proof fn results_are_sums(store: Store, rows: Seq<Seq<int>>, block: int)
    requires
        is_block(rows, block),
        consumes_truth(store, rows, block),
        rows[PERIOD * block][COL_ACT as int] == 1,
        is_smooth(store, addition(rows, block).group),
        is_member(store, addition(rows, block).group, addition(rows, block).p),
    ensures
        ({
            let o = addition(rows, block);
            sums(store, o.group, o.p, o.q, o.r)
        }),
{
    block_shape(rows, block);
    places_certified(store, rows, block);
    results_follow_their_case(rows, block);
    let l = rows[PERIOD * block];
    let o = addition(rows, block);
    let curve = (store.groups)(o.group);
    let m = store.modulus(curve.bound);
    let a = store.value(curve.a);
    let pai_p: int = l[COL_PAI_P as int];
    let pai_q: int = l[COL_PAI_Q as int];
    assert(rows[PERIOD * block + 2][COL_PAI_P as int] == pai_p);
    assert(rows[PERIOD * block + 2][COL_PAI_Q as int] == pai_q);
    switched(pai_p, pai_q);
    let p = point_at(store, o.p);
    let q = point_at(store, o.q);
    let r = point_at(store, o.r);
    let x1 = store.value(o.px);
    let y1 = store.value(o.py);
    let x2 = store.value(o.qx);
    let y2 = store.value(o.qy);
    same_itself(x1, m);
    same_itself(x2, m);
    same_itself(y1, m);
    same_itself(y2, m);
    if pai_p == 1 {
        assert(is_sum(a, m, p, q, r));
    } else if pai_q == 1 {
        assert(is_sum(a, m, p, q, r));
    } else if l[COL_CANCEL as int] == 1 {
        assert(is_sum(a, m, p, q, r));
    } else if l[COL_DBL as int] == 1 {
        doubling_follows_the_tangent(store, rows, block);
        let slope = store.value(o.slope);
        if same(y1 + y2, 0, m) {
            tangents_meet_no_mirrored_point(a, store.value(curve.b), m, x1, y1, slope);
        }
        tangents_sum(a, m, x1, y1, x2, y2, store.value(o.x3), store.value(o.y3), slope);
        assert(is_sum(a, m, p, q, r));
    } else {
        addition_follows_the_chord(store, rows, block);
        let slope = store.value(o.slope);
        assert(l[COL_GEN as int] == 1 && m == store.modulus(o.bound));
        assert(p == Point::At(x1, y1) && q == Point::At(x2, y2));
        assert(r == Point::At(store.value(o.x3), store.value(o.y3)));
        chords_sum(a, m, x1, y1, x2, y2, store.value(o.x3), store.value(o.y3), slope);
        assert(is_sum(a, m, p, q, r));
    }
}

/// A switch that is off takes what it multiplies away, one that is on leaves it.
proof fn turned(x: int, switch: int)
    requires
        is_flag(switch),
    ensures
        switch == 0 ==> x * switch == 0 && switch * x == 0,
        switch == 1 ==> x * switch == x && switch * x == x,
{
    assert(switch == 0 ==> x * switch == 0 && switch * x == 0) by (nonlinear_arith);
    assert(switch == 1 ==> x * switch == x && switch * x == x) by (nonlinear_arith);
}

/// The multiplicities of a row: its role switches on what belongs to it.
#[verifier::spinoff_prover]
#[verifier::rlimit(60)]
proof fn multiplicities(rows: Seq<Seq<int>>, block: int, row: int)
    requires
        is_block(rows, block),
        0 <= row < PERIOD,
    ensures
        ({
            let fs = fractions_of(rows, PERIOD * block + row);
            let l = rows[PERIOD * block];
            let act = l[COL_ACT as int];
            let cancel = l[COL_CANCEL as int];
            let dbl = l[COL_DBL as int];
            let generic = l[COL_GEN as int];
            let mints = l[COL_MINTS as int];
            let at_slope: int = if row == 0 { 1 } else { 0 };
            let at_tail: int = if row == 1 { 1 } else { 0 };
            let at_res: int = if row == 2 { 1 } else { 0 };
            &&& fs.len() == 21
            &&& fs[0].mult == if at_res == 1 {
                0 - rows[PERIOD * block + ROW_TERM][TERM_CELL_MULT as int]
            } else {
                0
            }
            &&& fs[1].mult == if at_res == 1 { act } else { 0 }
            &&& fs[2].mult == if at_res == 1 { act } else { 0 }
            &&& fs[3].mult == if at_tail == 1 { dbl + generic } else { 0 }
            &&& fs[4].mult == if at_res == 1 { cancel } else { 0 }
            &&& fs[5].mult == if at_res == 1 { cancel + dbl + generic } else { 0 }
            &&& fs[6].mult == if at_res == 1 { cancel } else { 0 }
            &&& forall|k: int|
                k == 7 || k == 8 || k == 11 || k == 12 ==> (#[trigger] fs[k]).mult == if at_slope
                    == 1 {
                    generic
                } else {
                    0
                }
            &&& forall|k: int|
                k == 9 || k == 10 || k == 15 ==> (#[trigger] fs[k]).mult == if at_slope == 1 {
                    dbl
                } else {
                    0
                }
            &&& forall|k: int|
                k == 13 || k == 14 ==> (#[trigger] fs[k]).mult == if at_slope == 1 {
                    dbl + generic
                } else {
                    0
                }
            &&& forall|k: int|
                16 <= k < 20 ==> (#[trigger] fs[k]).mult == if at_res == 1 { mints } else { 0 }
            &&& fs[20].mult == if at_res == 1 { 0 - mints } else { 0 }
        }),
{
    block_shape(rows, block);
    let b: int = PERIOD * block;
    let l = rows[b + row];
    let n = following(rows, b + row);
    let p = roles(b + row);
    assert(p[0] == if row == 0 { 1int } else { 0int });
    assert(p[1] == if row == 1 { 1int } else { 0int });
    assert(p[2] == if row == 2 { 1int } else { 0int });
    assert(rows[b + row][COL_ACT as int] == rows[b][COL_ACT as int]);
    assert(rows[b + row][COL_CANCEL as int] == rows[b][COL_CANCEL as int]);
    assert(rows[b + row][COL_DBL as int] == rows[b][COL_DBL as int]);
    assert(rows[b + row][COL_GEN as int] == rows[b][COL_GEN as int]);
    assert(rows[b + row][COL_MINTS as int] == rows[b][COL_MINTS as int]);
    let act: int = l[COL_ACT as int];
    let cancel: int = l[COL_CANCEL as int];
    let dbl: int = l[COL_DBL as int];
    let generic: int = l[COL_GEN as int];
    let mints: int = l[COL_MINTS as int];
    turned(0 - n[TERM_CELL_MULT as int], p[2]);
    turned(act, p[2]);
    turned(dbl + generic, p[1]);
    turned(cancel, p[2]);
    turned(cancel + dbl + generic, p[2]);
    turned(generic, p[0]);
    turned(dbl, p[0]);
    turned(dbl + generic, p[0]);
    turned(mints, p[2]);
}

/// What the block claims of the stored values, case by case: the operands and the result are the
/// points of its group, and the intermediate values are those of the tangent or of the chord.
pub open spec fn is_certified(store: Store, rows: Seq<Seq<int>>, block: int) -> bool {
    let l = rows[PERIOD * block];
    let o = addition(rows, block);
    let m = store.modulus(o.bound);
    let slope = store.value(o.slope);
    let x1 = store.value(o.px);
    let y1 = store.value(o.py);
    let x2 = store.value(o.qx);
    let y2 = store.value(o.qy);
    let x3 = store.value(o.x3);
    let y3 = store.value(o.y3);
    let aux = store.value(o.aux);
    let e = store.value(o.e);
    let doubles = l[COL_DBL as int] == 1;
    let cancels = l[COL_CANCEL as int] == 1;
    let other = l[COL_GEN as int] == 1;
    &&& (store.points)(o.p) == (Place {
        group: o.group,
        x: o.px,
        y: o.py,
        infinite: l[COL_PAI_P as int] == 1,
    })
    &&& (store.points)(o.q) == (Place {
        group: o.group,
        x: o.qx,
        y: o.qy,
        infinite: l[COL_PAI_Q as int] == 1,
    })
    &&& doubles || cancels || other ==> (store.groups)(o.group) == (Curve {
        a: o.a,
        b: l[COL_B_PTR as int],
        bound: o.bound,
        scalar_bound: rows[PERIOD * block + ROW_RES][CELL_SBOUND as int],
        beta: l[COL_BETA_PTR as int],
        lambda: l[COL_LAMBDA_PTR as int],
    })
    &&& cancels ==> {
        &&& (store.points)(o.r) == (Place { group: o.group, x: 0, y: 0, infinite: true })
        &&& same(y1 + y2, 0, m)
    }
    &&& doubles || other ==> {
        &&& (store.points)(o.r) == (Place { group: o.group, x: o.x3, y: o.y3, infinite: false })
        &&& same(x3 + e, x1, m)
        &&& same(slope * e - y1, y3, m)
    }
    &&& doubles ==> {
        &&& same(3 * (x1 * x1) + store.value(o.a), aux, m)
        &&& same(2 * (slope * y1), aux, m)
        &&& same(slope * slope - 2 * x1, x3, m)
    }
    &&& other ==> {
        &&& same(x1 + aux, x2, m)
        &&& !same(aux, 0, m)
        &&& same(slope * aux + y1, y2, m)
        &&& same(x1 + x2, store.value(o.t), m)
        &&& same(slope * slope - store.value(o.t), x3, m)
    }
    &&& l[COL_MINTS as int] == 1 ==> {
        &&& l[COL_RP_LO as int] < 65536
        &&& l[COL_RP_HI as int] < 65536
        &&& l[COL_RQ_LO as int] < 65536
        &&& l[COL_RQ_HI as int] < 65536
    }
}

/// A fraction with cells for elements is true if what it says is.
proof fn spoken(store: Store, f: Fraction)
    requires
        counts(f) ==> {
            &&& forall|i: int| 0 <= i < f.elems.len() ==> is_cell(#[trigger] f.elems[i])
            &&& says(store, f.bus, f.elems)
        },
    ensures
        is_true(store, f),
{
    if counts(f) {
        cells_are_residues(f);
    }
}

/// The messages of a slope row are true of a certified block.
#[verifier::spinoff_prover]
#[verifier::rlimit(60)]
proof fn slope_row_is_true(store: Store, rows: Seq<Seq<int>>, block: int, k: int)
    requires
        is_block(rows, block),
        is_certified(store, rows, block),
        0 <= k < fractions_of(rows, PERIOD * block + 0).len(),
        !is_provided(fractions_of(rows, PERIOD * block + 0)[k]),
    ensures
        is_true(store, fractions_of(rows, PERIOD * block + 0)[k]),
{
    block_shape(rows, block);
    multiplicities(rows, block, 0);
    let b: int = PERIOD * block;
    let f = fractions_of(rows, b + 0)[k];
    assert(following(rows, b + 0) == rows[b + 0 + 1]);
    assert(forall|col: int|
        0 <= col < NUM_MAIN_COLS ==> is_cell(#[trigger] rows[b + 0][col]));
    assert(forall|col: int|
        0 <= col < NUM_MAIN_COLS ==> is_cell(#[trigger] rows[b + 1][col]));
    assert(counts(f) ==> k == 7 || k == 8 || k == 9 || k == 10 || k == 11 || k == 12 || k == 13
        || k == 14 || k == 15);
    if counts(f) {
        assert(is_cell(3) && is_cell(2) && is_cell(1) && is_cell(0));
        assert(forall|i: int| 0 <= i < f.elems.len() ==> is_cell(#[trigger] f.elems[i]));
        let o = addition(rows, block);
        let bound = store.value(o.bound);
        let slope = store.value(o.slope);
        let y = store.value(o.py);
        assert(2 * (slope * y) + 0 * bound == 2 * (slope * y)) by (nonlinear_arith);
        if k == 7 {
            assert(says(store, f.bus, f.elems));
        } else if k == 8 {
            let e = f.elems;
            turned(slope * store.value(o.aux), e[0]);
            turned(store.value(o.py), e[1]);
            assert(multiplies(store, e));
            assert(says(store, f.bus, f.elems));
        } else if k == 9 {
            assert(says(store, f.bus, f.elems));
        } else if k == 10 {
            assert(says(store, f.bus, f.elems));
        } else if k == 11 {
            assert(says(store, f.bus, f.elems));
        } else if k == 12 {
            let e = f.elems;
            turned(slope * slope, e[0]);
            turned(store.value(o.t), e[1]);
            assert(multiplies(store, e));
            assert(says(store, f.bus, f.elems));
        } else if k == 13 {
            assert(says(store, f.bus, f.elems));
        } else if k == 14 {
            assert(says(store, f.bus, f.elems));
        } else {
            assert(says(store, f.bus, f.elems));
        }
    }
    spoken(store, f);
}

/// The messages of the other rows are true of a certified block.
#[verifier::spinoff_prover]
#[verifier::rlimit(60)]
proof fn other_rows_are_true(store: Store, rows: Seq<Seq<int>>, block: int, row: int, k: int)
    requires
        is_block(rows, block),
        rows[PERIOD * block][COL_ACT as int] == 1,
        is_certified(store, rows, block),
        1 <= row < PERIOD,
        0 <= k < fractions_of(rows, PERIOD * block + row).len(),
        !is_provided(fractions_of(rows, PERIOD * block + row)[k]),
    ensures
        is_true(store, fractions_of(rows, PERIOD * block + row)[k]),
{
    block_shape(rows, block);
    multiplicities(rows, block, row);
    let b: int = PERIOD * block;
    let f = fractions_of(rows, b + row)[k];
    assert(forall|col: int|
        0 <= col < NUM_MAIN_COLS ==> is_cell(#[trigger] rows[b + row][col]));
    assert(forall|col: int|
        COL_PX <= col < NUM_MAIN_COLS ==> #[trigger] rows[b + row][col] == rows[b][col]);
    assert(counts(f) ==> (row == 1 && k == 3) || (row == 2 && (k == 1 || k == 2 || k == 4 || k == 5
        || k == 6 || 16 <= k < 20)));
    if counts(f) {
        assert(is_cell(1) && is_cell(0));
        assert(following(rows, b + row) == rows[b + row + 1]);
        assert(forall|col: int|
            0 <= col < NUM_MAIN_COLS ==> is_cell(#[trigger] rows[b + (row + 1)][col]));
        assert(forall|i: int| 0 <= i < f.elems.len() ==> is_cell(#[trigger] f.elems[i]));
        if k == 1 {
            assert(says(store, f.bus, f.elems));
        } else if k == 2 {
            assert(says(store, f.bus, f.elems));
        } else if k == 3 {
            assert(says(store, f.bus, f.elems));
        } else if k == 4 {
            assert(says(store, f.bus, f.elems));
        } else if k == 5 {
            assert(says(store, f.bus, f.elems));
        } else if k == 6 {
            assert(says(store, f.bus, f.elems));
        } else {
            assert(says(store, f.bus, f.elems));
        }
    }
    spoken(store, f);
}

/// The limbs of a fresh result are limbs of sixteen bits.
#[verifier::spinoff_prover]
#[verifier::rlimit(40)]
proof fn limbs_certified(store: Store, rows: Seq<Seq<int>>, block: int)
    requires
        is_block(rows, block),
        consumes_truth(store, rows, block),
        rows[PERIOD * block][COL_MINTS as int] == 1,
    ensures
        rows[PERIOD * block][COL_RP_LO as int] < 65536,
        rows[PERIOD * block][COL_RP_HI as int] < 65536,
        rows[PERIOD * block][COL_RQ_LO as int] < 65536,
        rows[PERIOD * block][COL_RQ_HI as int] < 65536,
{
    block_shape(rows, block);
    multiplicities(rows, block, 2);
    let b: int = PERIOD * block;
    let fs = fractions_of(rows, b + 2);
    assert(rows[b + 2][COL_RP_LO as int] == rows[b][COL_RP_LO as int]);
    assert(rows[b + 2][COL_RP_HI as int] == rows[b][COL_RP_HI as int]);
    assert(rows[b + 2][COL_RQ_LO as int] == rows[b][COL_RQ_LO as int]);
    assert(rows[b + 2][COL_RQ_HI as int] == rows[b][COL_RQ_HI as int]);
    assert(is_cell(rows[b + 2][COL_RP_LO as int]) && is_cell(rows[b + 2][COL_RP_HI as int]));
    assert(is_cell(rows[b + 2][COL_RQ_LO as int]) && is_cell(rows[b + 2][COL_RQ_HI as int]));
    assert(fs[16].bus == BusId::Range16);
    heard(store, rows, block, 2, 16);
    assert(fs[17].bus == BusId::Range16);
    heard(store, rows, block, 2, 17);
    assert(fs[18].bus == BusId::Range16);
    heard(store, rows, block, 2, 18);
    assert(fs[19].bus == BusId::Range16);
    heard(store, rows, block, 2, 19);
}

/// The messages that a block in use consumes are true exactly if its stored values are those of its
/// case: nothing less is checked, and nothing more is asked.
pub proof fn consumed_messages_certify_the_case(store: Store, rows: Seq<Seq<int>>, block: int)
    requires
        is_block(rows, block),
        rows[PERIOD * block][COL_ACT as int] == 1,
    ensures
        consumes_truth(store, rows, block) <==> is_certified(store, rows, block),
{
    block_shape(rows, block);
    let l = rows[PERIOD * block];
    let o = addition(rows, block);
    if consumes_truth(store, rows, block) {
        places_certified(store, rows, block);
        let slope = store.value(o.slope);
        let y = store.value(o.py);
        let bound = store.value(o.bound);
        assert(2 * (slope * y) + 0 * bound == 2 * (slope * y)) by (nonlinear_arith);
        if l[COL_DBL as int] == 1 {
            tangent_certificates(store, rows, block);
        }
        if l[COL_GEN as int] == 1 {
            chord_certificates(store, rows, block);
        }
        if l[COL_MINTS as int] == 1 {
            limbs_certified(store, rows, block);
        }
    }
    if is_certified(store, rows, block) {
        assert forall|row: int, k: int|
            0 <= row < PERIOD && 0 <= k < fractions_of(rows, PERIOD * block + row).len()
                && !is_provided(
                #[trigger] fractions_of(rows, PERIOD * block + row)[k],
            ) implies is_true(store, fractions_of(rows, PERIOD * block + row)[k]) by {
            if row == 0 {
                slope_row_is_true(store, rows, block, k);
            } else {
                other_rows_are_true(store, rows, block, row, k);
            }
        }
    }
}

/// Each message is consumed once or not at all, and a block that is not in use consumes none. The
/// sum is provided as often as its row counts, and membership once where the result is fresh.
#[verifier::spinoff_prover]
#[verifier::rlimit(40)]
pub proof fn messages_are_counted(rows: Seq<Seq<int>>, block: int, row: int, k: int)
    requires
        is_block(rows, block),
        0 <= row < PERIOD,
        0 <= k < fractions_of(rows, PERIOD * block + row).len(),
    ensures
        ({
            let f = fractions_of(rows, PERIOD * block + row)[k];
            let l = rows[PERIOD * block];
            let o = addition(rows, block);
            &&& !is_provided(f) ==> is_flag(f.mult)
            &&& !is_provided(f) && l[COL_ACT as int] == 0 ==> f.mult == 0
            &&& f.bus == BusId::EcGroupAdd ==> f.mult == if row == ROW_RES {
                0 - rows[PERIOD * block + ROW_TERM][TERM_CELL_MULT as int]
            } else {
                0
            }
            &&& f.bus == BusId::EcGroupAdd && row == ROW_RES ==> f.elems == seq![
                o.group,
                o.p,
                o.q,
                o.r,
            ]
            &&& f.bus == BusId::EcOnCurveCert ==> f.mult == if row == ROW_RES {
                0 - l[COL_MINTS as int]
            } else {
                0
            }
            &&& f.bus == BusId::EcOnCurveCert && row == ROW_RES ==> f.elems == seq![o.group, o.r]
        }),
{
    block_shape(rows, block);
    multiplicities(rows, block, row);
    let l = rows[PERIOD * block];
    switched(l[COL_PAI_P as int], l[COL_PAI_Q as int]);
    let b: int = PERIOD * block;
    let f = fractions_of(rows, b + row)[k];
    if row < 3 {
        assert(following(rows, b + row) == rows[b + row + 1]);
    }
    if f.bus == BusId::EcGroupAdd {
        assert(k == 0);
    } else if f.bus == BusId::EcOnCurveCert {
        assert(k == 20);
    } else {
        assert(1 <= k < 20);
    }
}

/// Every sum that a block in use provides is true, if what it consumes is.
pub proof fn provided_sums_are_true(
    store: Store,
    rows: Seq<Seq<int>>,
    block: int,
    row: int,
    k: int,
)
    requires
        is_block(rows, block),
        consumes_truth(store, rows, block),
        rows[PERIOD * block][COL_ACT as int] == 1,
        is_smooth(store, addition(rows, block).group),
        is_member(store, addition(rows, block).group, addition(rows, block).p),
        0 <= row < PERIOD,
        0 <= k < fractions_of(rows, PERIOD * block + row).len(),
        fractions_of(rows, PERIOD * block + row)[k].bus == BusId::EcGroupAdd,
    ensures
        is_true(store, fractions_of(rows, PERIOD * block + row)[k]),
{
    messages_are_counted(rows, block, row, k);
    block_shape(rows, block);
    results_are_sums(store, rows, block);
    let b: int = PERIOD * block;
    assert(is_cell(rows[b + 2][CELL_R as int]) && is_cell(rows[b + 2][CELL_GROUP as int]));
    assert(is_cell(rows[b + 3][TERM_CELL_P as int]) && is_cell(rows[b + 3][TERM_CELL_Q as int]));
    spoken(store, fractions_of(rows, PERIOD * block + row)[k]);
}

/// A fresh result lies above both operands, by less than `2^32`.
pub proof fn fresh_results_are_newer(store: Store, rows: Seq<Seq<int>>, block: int)
    requires
        is_block(rows, block),
        consumes_truth(store, rows, block),
        rows[PERIOD * block][COL_MINTS as int] == 1,
        addition(rows, block).p < MODULUS - 0x1_0000_0000,
        addition(rows, block).q < MODULUS - 0x1_0000_0000,
    ensures
        ({
            let o = addition(rows, block);
            &&& o.p < o.r <= o.p + 0x1_0000_0000
            &&& o.q < o.r <= o.q + 0x1_0000_0000
        }),
{
    block_shape(rows, block);
    limbs_certified(store, rows, block);
    results_follow_their_case(rows, block);
    let b: int = PERIOD * block;
    let o = addition(rows, block);
    let l = rows[b];
    assert(rows[b + 2][COL_MINTS as int] == rows[b][COL_MINTS as int]);
    assert(rows[b + 2][COL_RP_LO as int] == rows[b][COL_RP_LO as int]);
    assert(rows[b + 2][COL_RP_HI as int] == rows[b][COL_RP_HI as int]);
    assert(rows[b + 2][COL_RQ_LO as int] == rows[b][COL_RQ_LO as int]);
    assert(rows[b + 2][COL_RQ_HI as int] == rows[b][COL_RQ_HI as int]);
    assert(is_cell(rows[b + 0][COL_RP_LO as int]) && is_cell(rows[b + 0][COL_RP_HI as int]));
    assert(is_cell(rows[b + 0][COL_RQ_LO as int]) && is_cell(rows[b + 0][COL_RQ_HI as int]));
    assert(is_cell(rows[b + 3][TERM_CELL_P as int]) && is_cell(rows[b + 3][TERM_CELL_Q as int]));
    lemma_small_mod(
        (o.p + 1 + l[COL_RP_LO as int] + 65536 * l[COL_RP_HI as int]) as nat,
        MODULUS as nat,
    );
    lemma_small_mod(
        (o.q + 1 + l[COL_RQ_LO as int] + 65536 * l[COL_RQ_HI as int]) as nat,
        MODULUS as nat,
    );
}

} // verus!
