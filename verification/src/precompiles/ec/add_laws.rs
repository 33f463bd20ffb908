//! What the constraints of the addition table say of every table that satisfies them.

use crate::precompiles::ec::add::{
    add_demands, role_column, CELL_R, COL_ACT, COL_CANCEL, COL_DBL, COL_GEN, COL_MINTS, COL_PAI_P,
    COL_PAI_Q, COL_PX, COL_PY, COL_QX, COL_QY, COL_RP_HI, COL_RP_LO, COL_RQ_HI, COL_RQ_LO,
    NUM_MAIN_COLS, NUM_PERIODIC, PERIOD, ROW_RES, ROW_TERM, TERM_CELL_P, TERM_CELL_Q,
};
use crate::precompiles::field::MODULUS;
use crate::precompiles::logup::{bool_poly, Rows};
use crate::precompiles::trace::{
    following, is_cell, is_flag, is_met, is_table, met_by_residue, released, residue_of, same_cell,
    small_and_zero, switched, vanishes, zero_or_one,
};
use vstd::prelude::*;

verus! {

/// The values of the role columns on row `i`.
pub open spec fn roles(i: int) -> Seq<int> {
    Seq::new(NUM_PERIODIC as nat, |role: int| role_column(role)[i % (PERIOD as int)] as int)
}

/// Whether a table of whole blocks satisfies the constraints of the addition table.
pub open spec fn satisfied(rows: Seq<Seq<int>>) -> bool {
    &&& is_table(rows, NUM_MAIN_COLS as int)
    &&& rows.len() % (PERIOD as nat) == 0
    &&& forall|i: int|
        0 <= i < rows.len() ==> is_met(
            #[trigger] add_demands(rows[i], following(rows, i), roles(i)),
            i == 0,
            i == rows.len() - 1,
        )
}

/// The flags are zero or one; exactly one case holds in a row in use, except that both operands may
/// be at infinity; and the operands are equal where the case says so.
pub open spec fn case_holds(l: Seq<int>) -> bool {
    &&& is_flag(l[COL_PAI_P as int])
    &&& is_flag(l[COL_PAI_Q as int])
    &&& is_flag(l[COL_CANCEL as int])
    &&& is_flag(l[COL_DBL as int])
    &&& is_flag(l[COL_GEN as int])
    &&& is_flag(l[COL_ACT as int])
    &&& is_flag(l[COL_MINTS as int])
    &&& l[COL_PAI_P as int] + l[COL_PAI_Q as int] + l[COL_CANCEL as int] + l[COL_DBL as int]
        + l[COL_GEN as int] == l[COL_ACT as int] + l[COL_PAI_P as int] * l[COL_PAI_Q as int]
    &&& l[COL_CANCEL as int] == 1 || l[COL_DBL as int] == 1 ==> l[COL_PX as int]
        == l[COL_QX as int]
    &&& l[COL_DBL as int] == 1 ==> l[COL_PY as int] == l[COL_QY as int]
    &&& l[COL_MINTS as int] == 1 ==> l[COL_DBL as int] == 1 || l[COL_GEN as int] == 1
}

/// What the constraints ask of one row.
#[verifier::rlimit(40)]
proof fn row_asked(rows: Seq<Seq<int>>, i: int)
    requires
        satisfied(rows),
        0 <= i < rows.len(),
    ensures
        ({
            let l = rows[i];
            let m = MODULUS as int;
            &&& bool_poly(l[COL_PAI_P as int]) % m == 0
            &&& bool_poly(l[COL_PAI_Q as int]) % m == 0
            &&& bool_poly(l[COL_CANCEL as int]) % m == 0
            &&& bool_poly(l[COL_DBL as int]) % m == 0
            &&& bool_poly(l[COL_GEN as int]) % m == 0
            &&& bool_poly(l[COL_ACT as int]) % m == 0
            &&& bool_poly(l[COL_MINTS as int]) % m == 0
            &&& (l[COL_PAI_P as int] + l[COL_PAI_Q as int] + l[COL_CANCEL as int]
                + l[COL_DBL as int] + l[COL_GEN as int] - l[COL_ACT as int] - l[COL_PAI_P as int]
                * l[COL_PAI_Q as int]) % m == 0
            &&& ((l[COL_CANCEL as int] + l[COL_DBL as int]) * (l[COL_PX as int]
                - l[COL_QX as int])) % m == 0
            &&& (l[COL_DBL as int] * (l[COL_PY as int] - l[COL_QY as int])) % m == 0
            &&& (l[COL_MINTS as int] * (1 - l[COL_DBL as int] - l[COL_GEN as int])) % m == 0
        }),
{
    let d = add_demands(rows[i], following(rows, i), roles(i));
    assert(is_met(d, i == 0, i == rows.len() - 1));
    assert(d[0].0 == Rows::All && d[1].0 == Rows::All && d[2].0 == Rows::All);
    assert(d[3].0 == Rows::All && d[4].0 == Rows::All && d[5].0 == Rows::All);
    assert(d[6].0 == Rows::All && d[7].0 == Rows::All && d[8].0 == Rows::All);
    assert(d[9].0 == Rows::All && d[12].0 == Rows::All);
}

/// Every row in use has one case, and its operands are as the case says.
pub proof fn rows_in_use_have_one_case(rows: Seq<Seq<int>>, i: int)
    requires
        satisfied(rows),
        0 <= i < rows.len(),
    ensures
        case_holds(rows[i]),
{
    row_asked(rows, i);
    let l = rows[i];
    let pai_p: int = l[COL_PAI_P as int];
    let pai_q: int = l[COL_PAI_Q as int];
    let cancel: int = l[COL_CANCEL as int];
    let dbl: int = l[COL_DBL as int];
    let generic: int = l[COL_GEN as int];
    let act: int = l[COL_ACT as int];
    let mints: int = l[COL_MINTS as int];
    assert(is_cell(pai_p) && is_cell(pai_q) && is_cell(cancel) && is_cell(dbl));
    assert(is_cell(generic) && is_cell(act) && is_cell(mints));
    zero_or_one(pai_p);
    zero_or_one(pai_q);
    zero_or_one(cancel);
    zero_or_one(dbl);
    zero_or_one(generic);
    zero_or_one(act);
    zero_or_one(mints);
    switched(pai_p, pai_q);
    small_and_zero(pai_p + pai_q + cancel + dbl + generic - act - pai_p * pai_q);
    let px: int = l[COL_PX as int];
    let qx: int = l[COL_QX as int];
    let py: int = l[COL_PY as int];
    let qy: int = l[COL_QY as int];
    assert(is_cell(px) && is_cell(qx) && is_cell(py) && is_cell(qy));
    if cancel + dbl == 1 {
        released(cancel + dbl, px - qx);
        same_cell(px, qx);
    }
    if dbl == 1 {
        released(dbl, py - qy);
        same_cell(py, qy);
    }
    if mints == 1 {
        released(mints, 1 - dbl - generic);
        small_and_zero(1 - dbl - generic);
    }
}

/// Along a block every column but the cells keeps its value.
#[verifier::rlimit(40)]
pub proof fn blocks_are_uniform(rows: Seq<Seq<int>>, block: int, row: int, col: int)
    requires
        satisfied(rows),
        0 <= block,
        PERIOD * block < rows.len(),
        0 <= row < PERIOD,
        COL_PX <= col < NUM_MAIN_COLS,
    ensures
        rows[PERIOD * block + row][col] == rows[PERIOD * block][col],
    decreases row,
{
    if row > 0 {
        blocks_are_uniform(rows, block, row - 1, col);
        let i: int = PERIOD * block + row - 1;
        assert(i + 1 < rows.len());
        let d = add_demands(rows[i], following(rows, i), roles(i));
        assert(is_met(d, i == 0, i == rows.len() - 1));
        assert(i % (PERIOD as int) == row - 1);
        assert(roles(i)[ROW_TERM as int] == 0);
        let k: int = 15 + (col - COL_PX);
        assert(d[k].0 == Rows::All);
        assert(d[k].1 == 1 * (rows[i + 1][col] - rows[i][col]));
        assert(is_cell(rows[i + 1][col]) && is_cell(rows[i][col]));
        same_cell(rows[i + 1][col], rows[i][col]);
    }
}

/// An operand at infinity passes the other one through, and a fresh result is above both operands:
/// its pointer is theirs, one more, and the two limbs that the block holds, in the field.
#[verifier::rlimit(60)]
pub proof fn results_follow_their_case(rows: Seq<Seq<int>>, block: int)
    requires
        satisfied(rows),
        0 <= block,
        PERIOD * block < rows.len(),
    ensures
        ({
            let l = rows[PERIOD * block + ROW_RES];
            let r = l[CELL_R as int];
            let p = rows[PERIOD * block + ROW_TERM][TERM_CELL_P as int];
            let q = rows[PERIOD * block + ROW_TERM][TERM_CELL_Q as int];
            let m = MODULUS as int;
            &&& l[COL_PAI_P as int] == 1 ==> r == q
            &&& l[COL_PAI_Q as int] == 1 ==> r == p
            &&& l[COL_MINTS as int] == 1 ==> {
                &&& r == (p + 1 + l[COL_RP_LO as int] + 65536 * l[COL_RP_HI as int]) % m
                &&& r == (q + 1 + l[COL_RQ_LO as int] + 65536 * l[COL_RQ_HI as int]) % m
            }
        }),
{
    let i: int = PERIOD * block + ROW_RES;
    assert(i + 1 < rows.len());
    assert(i + 1 == PERIOD * block + ROW_TERM);
    rows_in_use_have_one_case(rows, i);
    let l = rows[i];
    let d = add_demands(l, following(rows, i), roles(i));
    assert(is_met(d, i == 0, i == rows.len() - 1));
    assert(i % (PERIOD as int) == ROW_RES);
    let role: int = roles(i)[ROW_RES as int];
    assert(role == 1);
    let r: int = l[CELL_R as int];
    let p: int = rows[i + 1][TERM_CELL_P as int];
    let q: int = rows[i + 1][TERM_CELL_Q as int];
    let pai_p: int = l[COL_PAI_P as int];
    let pai_q: int = l[COL_PAI_Q as int];
    let mints: int = l[COL_MINTS as int];
    let above_p: int = r - p - 1 - l[COL_RP_LO as int] - 65536 * l[COL_RP_HI as int];
    let above_q: int = r - q - 1 - l[COL_RQ_LO as int] - 65536 * l[COL_RQ_HI as int];
    assert(d[10] == (Rows::All, role * pai_p * (r - q)));
    assert(d[11] == (Rows::All, role * pai_q * (r - p)));
    assert(d[13] == (Rows::All, role * mints * above_p));
    assert(d[14] == (Rows::All, role * mints * above_q));
    assert(is_cell(r) && is_cell(p) && is_cell(q));
    if pai_p == 1 {
        released(role * pai_p, r - q);
        same_cell(r, q);
    }
    if pai_q == 1 {
        released(role * pai_q, r - p);
        same_cell(r, p);
    }
    if mints == 1 {
        released(role * mints, above_p);
        residue_of(r, r - above_p);
        released(role * mints, above_q);
        residue_of(r, r - above_q);
    }
}

/// What the row with the result keeps to: an operand at infinity passes the other one through, and
/// a fresh result lies above both operands by what the limbs hold.
pub open spec fn result_holds(l: Seq<int>, n: Seq<int>) -> bool {
    let r = l[CELL_R as int];
    let p = n[TERM_CELL_P as int];
    let q = n[TERM_CELL_Q as int];
    let m = MODULUS as int;
    &&& l[COL_PAI_P as int] == 1 ==> r == q
    &&& l[COL_PAI_Q as int] == 1 ==> r == p
    &&& l[COL_MINTS as int] == 1 ==> {
        &&& r == (p + 1 + l[COL_RP_LO as int] + 65536 * l[COL_RP_HI as int]) % m
        &&& r == (q + 1 + l[COL_RQ_LO as int] + 65536 * l[COL_RQ_HI as int]) % m
    }
}

/// The rows of one addition agree in every column but the cells.
pub open spec fn is_held(l: Seq<int>, n: Seq<int>) -> bool {
    forall|col: int| COL_PX <= col < NUM_MAIN_COLS ==> n[col] == #[trigger] l[col]
}

/// The rules of the addition table.
pub open spec fn keeps_the_rules(rows: Seq<Seq<int>>) -> bool {
    &&& is_table(rows, NUM_MAIN_COLS as int)
    &&& rows.len() % (PERIOD as nat) == 0
    &&& forall|i: int| 0 <= i < rows.len() ==> case_holds(#[trigger] rows[i])
    &&& forall|i: int|
        0 <= i < rows.len() && i % (PERIOD as int) != ROW_TERM ==> is_held(
            #[trigger] rows[i],
            rows[i + 1],
        )
    &&& forall|i: int|
        0 <= i < rows.len() && i % (PERIOD as int) == ROW_RES ==> result_holds(
            #[trigger] rows[i],
            rows[i + 1],
        )
}

/// Rows that keep the rules meet the constraints.
#[verifier::spinoff_prover]
#[verifier::rlimit(40)]
proof fn rules_meet_constraints(rows: Seq<Seq<int>>, i: int)
    requires
        keeps_the_rules(rows),
        0 <= i < rows.len(),
    ensures
        is_met(
            add_demands(rows[i], following(rows, i), roles(i)),
            i == 0,
            i == rows.len() - 1,
        ),
{
    let l = rows[i];
    let n = following(rows, i);
    let p = roles(i);
    let d = add_demands(l, n, p);
    assert(case_holds(rows[i]));
    let pai_p: int = l[COL_PAI_P as int];
    let pai_q: int = l[COL_PAI_Q as int];
    let cancel: int = l[COL_CANCEL as int];
    let dbl: int = l[COL_DBL as int];
    let generic: int = l[COL_GEN as int];
    let act: int = l[COL_ACT as int];
    let mints: int = l[COL_MINTS as int];
    let role: int = p[ROW_RES as int];
    assert(role == if i % (PERIOD as int) == ROW_RES { 1int } else { 0 });
    vanishes(pai_p, 1 - pai_p);
    vanishes(pai_q, 1 - pai_q);
    vanishes(cancel, 1 - cancel);
    vanishes(dbl, 1 - dbl);
    vanishes(generic, 1 - generic);
    vanishes(act, 1 - act);
    vanishes(mints, 1 - mints);
    switched(pai_p, pai_q);
    vanishes(cancel + dbl, l[COL_PX as int] - l[COL_QX as int]);
    vanishes(dbl, l[COL_PY as int] - l[COL_QY as int]);
    vanishes(mints, 1 - dbl - generic);
    let r: int = l[CELL_R as int];
    let tp: int = n[TERM_CELL_P as int];
    let tq: int = n[TERM_CELL_Q as int];
    if role == 1 {
        assert(n == rows[i + 1]);
        assert(result_holds(rows[i], rows[i + 1]));
    }
    switched(role, pai_p);
    switched(role, pai_q);
    switched(role, mints);
    vanishes(role * pai_p, r - tq);
    vanishes(role * pai_q, r - tp);
    let above_p: int = tp + 1 + l[COL_RP_LO as int] + 65536 * l[COL_RP_HI as int];
    let above_q: int = tq + 1 + l[COL_RQ_LO as int] + 65536 * l[COL_RQ_HI as int];
    met_by_residue(role * mints, r, above_p);
    met_by_residue(role * mints, r, above_q);
    assert(r - above_p == r - tp - 1 - l[COL_RP_LO as int] - 65536 * l[COL_RP_HI as int]);
    assert(r - above_q == r - tq - 1 - l[COL_RQ_LO as int] - 65536 * l[COL_RQ_HI as int]);
    let free: int = 1 - p[ROW_TERM as int];
    assert(p[ROW_TERM as int] == if i % (PERIOD as int) == ROW_TERM { 1int } else { 0 });
    assert forall|k: int| 15 <= k < d.len() implies (#[trigger] d[k]).1 % (MODULUS as int) == 0 by {
        let col: int = COL_PX + (k - 15);
        assert(d[k].1 == free * (n[col] - l[col]));
        if free == 1 {
            assert(n == rows[i + 1]);
            assert(is_held(rows[i], rows[i + 1]));
            assert(n[col] == l[col]);
        }
        vanishes(free, n[col] - l[col]);
    }
    assert forall|k: int| 0 <= k < 15 implies (#[trigger] d[k]).1 % (MODULUS as int) == 0 by {
        if k < 8 {
        } else {
        }
    }
}

/// The constraints of the addition table are its rules: no table that breaks one satisfies them,
/// and every table that keeps them does.
pub proof fn constraints_are_the_rules(rows: Seq<Seq<int>>)
    requires
        is_table(rows, NUM_MAIN_COLS as int),
        rows.len() % (PERIOD as nat) == 0,
    ensures
        satisfied(rows) <==> keeps_the_rules(rows),
{
    if satisfied(rows) {
        assert forall|i: int| 0 <= i < rows.len() implies case_holds(#[trigger] rows[i]) by {
            rows_in_use_have_one_case(rows, i);
        }
        assert forall|i: int|
            0 <= i < rows.len() && i % (PERIOD as int) != ROW_TERM implies is_held(
            #[trigger] rows[i],
            rows[i + 1],
        ) by {
            let block: int = i / (PERIOD as int);
            let row: int = i % (PERIOD as int);
            assert forall|col: int| COL_PX <= col < NUM_MAIN_COLS implies rows[i + 1][col]
                == #[trigger] rows[i][col] by {
                blocks_are_uniform(rows, block, row, col);
                blocks_are_uniform(rows, block, row + 1, col);
                assert(PERIOD * block + row == i);
                assert(PERIOD * block + (row + 1) == i + 1);
            }
        }
        assert forall|i: int|
            0 <= i < rows.len() && i % (PERIOD as int) == ROW_RES implies result_holds(
            #[trigger] rows[i],
            rows[i + 1],
        ) by {
            let block: int = i / (PERIOD as int);
            assert(PERIOD * block + ROW_RES == i);
            results_follow_their_case(rows, block);
        }
    }
    if keeps_the_rules(rows) {
        assert forall|i: int| 0 <= i < rows.len() implies is_met(
            #[trigger] add_demands(rows[i], following(rows, i), roles(i)),
            i == 0,
            i == rows.len() - 1,
        ) by {
            rules_meet_constraints(rows, i);
        }
    }
}

} // verus!
