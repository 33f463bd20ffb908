//! What the constraints of the multi-scalar table say of every table that satisfies them.

use crate::precompiles::ec::msm::{
    msm_demands, COL_ACT, COL_A_DIFF_HI, COL_A_DIFF_LO, COL_A_EXPR, COL_A_PTR, COL_BASE, COL_BASE_A,
    COL_BASE_B, COL_BETA_PTR, COL_BOUND_PTR, COL_B_DIFF_HI, COL_B_DIFF_LO, COL_B_EXPR, COL_B_PTR,
    COL_CLAIM_MULT, COL_ENDO_MINTED, COL_EXPR_PTR, COL_GROUP_PTR, COL_I, COL_IDX, COL_IS_BOUNDARY,
    COL_IS_COMBINE, COL_IS_INTRO, COL_IS_INTRO_ENDO, COL_IS_NEG, COL_J, COL_LAMBDA_PTR, COL_MULT,
    COL_NEG_MINTED, COL_SBOUND_PTR, COL_SCALAR, COL_S_A, COL_S_B, COL_TAKE_A, COL_TAKE_B,
    COL_TAKE_BOTH, COL_VAL, COL_VAL_A, COL_VAL_B, NUM_MAIN_COLS,
};
use crate::precompiles::field::MODULUS;
use crate::precompiles::logup::{bool_poly, Rows};
use crate::precompiles::trace::{
    following, is_cell, is_enforced, is_flag, is_met, is_table, met_by_residue, released, residue_of,
    same_cell, small_and_zero, switched, vanishes, zero_or_one,
};
use vstd::prelude::*;

verus! {

/// Whether a table satisfies the constraints of the multi-scalar table.
pub open spec fn satisfied(rows: Seq<Seq<int>>) -> bool {
    &&& is_table(rows, NUM_MAIN_COLS as int)
    &&& forall|i: int|
        0 <= i < rows.len() ==> is_met(
            #[trigger] msm_demands(rows[i], following(rows, i)),
            i == 0,
            i == rows.len() - 1,
        )
}

/// Every flag of the table is zero or one.
pub open spec fn flags_hold(l: Seq<int>) -> bool {
    &&& is_flag(l[COL_ACT as int])
    &&& is_flag(l[COL_IS_BOUNDARY as int])
    &&& is_flag(l[COL_IS_INTRO as int])
    &&& is_flag(l[COL_IS_INTRO_ENDO as int])
    &&& is_flag(l[COL_IS_COMBINE as int])
    &&& is_flag(l[COL_IS_NEG as int])
    &&& is_flag(l[COL_NEG_MINTED as int])
    &&& is_flag(l[COL_ENDO_MINTED as int])
    &&& is_flag(l[COL_TAKE_A as int])
    &&& is_flag(l[COL_TAKE_B as int])
    &&& is_flag(l[COL_TAKE_BOTH as int])
}

/// The flags of a row are zero or one.
#[verifier::rlimit(40)]
pub proof fn flags_are_zero_or_one(rows: Seq<Seq<int>>, i: int)
    requires
        satisfied(rows),
        0 <= i < rows.len(),
    ensures
        flags_hold(rows[i]),
{
    let l = rows[i];
    let d = msm_demands(l, following(rows, i));
    assert(is_met(d, i == 0, i == rows.len() - 1));
    assert(d[0] == (Rows::All, bool_poly(l[COL_ACT as int])));
    assert(is_cell(l[COL_ACT as int]));
    zero_or_one(l[COL_ACT as int]);
    assert(d[1] == (Rows::All, bool_poly(l[COL_IS_BOUNDARY as int])));
    assert(is_cell(l[COL_IS_BOUNDARY as int]));
    zero_or_one(l[COL_IS_BOUNDARY as int]);
    assert(d[2] == (Rows::All, bool_poly(l[COL_IS_INTRO as int])));
    assert(is_cell(l[COL_IS_INTRO as int]));
    zero_or_one(l[COL_IS_INTRO as int]);
    assert(d[3] == (Rows::All, bool_poly(l[COL_IS_INTRO_ENDO as int])));
    assert(is_cell(l[COL_IS_INTRO_ENDO as int]));
    zero_or_one(l[COL_IS_INTRO_ENDO as int]);
    assert(d[4] == (Rows::All, bool_poly(l[COL_IS_COMBINE as int])));
    assert(is_cell(l[COL_IS_COMBINE as int]));
    zero_or_one(l[COL_IS_COMBINE as int]);
    assert(d[5] == (Rows::All, bool_poly(l[COL_IS_NEG as int])));
    assert(is_cell(l[COL_IS_NEG as int]));
    zero_or_one(l[COL_IS_NEG as int]);
    assert(d[6] == (Rows::All, bool_poly(l[COL_NEG_MINTED as int])));
    assert(is_cell(l[COL_NEG_MINTED as int]));
    zero_or_one(l[COL_NEG_MINTED as int]);
    assert(d[8] == (Rows::All, bool_poly(l[COL_ENDO_MINTED as int])));
    assert(is_cell(l[COL_ENDO_MINTED as int]));
    zero_or_one(l[COL_ENDO_MINTED as int]);
    assert(d[41] == (Rows::All, bool_poly(l[COL_TAKE_A as int])));
    assert(is_cell(l[COL_TAKE_A as int]));
    zero_or_one(l[COL_TAKE_A as int]);
    assert(d[42] == (Rows::All, bool_poly(l[COL_TAKE_B as int])));
    assert(is_cell(l[COL_TAKE_B as int]));
    zero_or_one(l[COL_TAKE_B as int]);
    assert(d[43] == (Rows::All, bool_poly(l[COL_TAKE_BOTH as int])));
    assert(is_cell(l[COL_TAKE_BOTH as int]));
    zero_or_one(l[COL_TAKE_BOTH as int]);
}

/// A row that is not in use provides nothing, ends no expression and is of no kind. A row in use is
/// of exactly one kind.
pub open spec fn kind_holds(l: Seq<int>) -> bool {
    &&& l[COL_ACT as int] == 0 ==> {
        &&& l[COL_MULT as int] == 0
        &&& l[COL_CLAIM_MULT as int] == 0
        &&& l[COL_IS_BOUNDARY as int] == 0
    }
    &&& l[COL_IS_INTRO as int] + l[COL_IS_INTRO_ENDO as int] + l[COL_IS_COMBINE as int]
        + l[COL_IS_NEG as int] == l[COL_ACT as int]
    &&& l[COL_NEG_MINTED as int] <= l[COL_IS_NEG as int]
    &&& l[COL_ENDO_MINTED as int] <= l[COL_IS_INTRO_ENDO as int]
}

/// Every row is of one kind exactly when it is in use, and padding provides nothing.
#[verifier::rlimit(40)]
pub proof fn rows_in_use_have_one_kind(rows: Seq<Seq<int>>, i: int)
    requires
        satisfied(rows),
        0 <= i < rows.len(),
    ensures
        kind_holds(rows[i]),
{
    let l = rows[i];
    flags_are_zero_or_one(rows, i);
    let d = msm_demands(l, following(rows, i));
    assert(is_met(d, i == 0, i == rows.len() - 1));
    let act: int = l[COL_ACT as int];
    let kinds: int = l[COL_IS_INTRO as int] + l[COL_IS_INTRO_ENDO as int]
        + l[COL_IS_COMBINE as int] + l[COL_IS_NEG as int];
    assert(d[11] == (Rows::All, kinds - act));
    small_and_zero(kinds - act);
    assert(is_cell(l[COL_MULT as int]));
    assert(is_cell(l[COL_CLAIM_MULT as int]));
    assert(d[13] == (Rows::All, (1 - act) * l[COL_MULT as int]));
    assert(d[14] == (Rows::All, (1 - act) * l[COL_CLAIM_MULT as int]));
    assert(d[12] == (Rows::All, (1 - act) * l[COL_IS_BOUNDARY as int]));
    assert(d[7] == (Rows::All, (1 - l[COL_IS_NEG as int]) * l[COL_NEG_MINTED as int]));
    assert(d[9] == (Rows::All, (1 - l[COL_IS_INTRO_ENDO as int]) * l[COL_ENDO_MINTED as int]));
    if act == 0 {
        released(1 - act, l[COL_MULT as int]);
        small_and_zero(l[COL_MULT as int]);
        released(1 - act, l[COL_CLAIM_MULT as int]);
        small_and_zero(l[COL_CLAIM_MULT as int]);
        released(1 - act, l[COL_IS_BOUNDARY as int]);
        small_and_zero(l[COL_IS_BOUNDARY as int]);
    }
    if l[COL_IS_NEG as int] == 0 {
        released(1 - l[COL_IS_NEG as int], l[COL_NEG_MINTED as int]);
        small_and_zero(l[COL_NEG_MINTED as int]);
    }
    if l[COL_IS_INTRO_ENDO as int] == 0 {
        released(1 - l[COL_IS_INTRO_ENDO as int], l[COL_ENDO_MINTED as int]);
        small_and_zero(l[COL_ENDO_MINTED as int]);
    }
}

/// A point or its image is an expression of one row. A point is its own value, and its image
/// carries the endomorphism's scalar.
#[verifier::rlimit(40)]
pub proof fn points_are_one_row(rows: Seq<Seq<int>>, i: int)
    requires
        satisfied(rows),
        0 <= i < rows.len(),
    ensures
        rows[i][COL_IS_INTRO as int] == 1 ==> {
            &&& rows[i][COL_IS_BOUNDARY as int] == 1
            &&& rows[i][COL_VAL as int] == rows[i][COL_BASE as int]
        },
        rows[i][COL_IS_INTRO_ENDO as int] == 1 ==> {
            &&& rows[i][COL_IS_BOUNDARY as int] == 1
            &&& rows[i][COL_SCALAR as int] == rows[i][COL_LAMBDA_PTR as int]
        },
{
    let l = rows[i];
    flags_are_zero_or_one(rows, i);
    let d = msm_demands(l, following(rows, i));
    assert(is_met(d, i == 0, i == rows.len() - 1));
    let intro: int = l[COL_IS_INTRO as int];
    let endo: int = l[COL_IS_INTRO_ENDO as int];
    let boundary: int = l[COL_IS_BOUNDARY as int];
    assert(d[37] == (Rows::All, intro * (1 - boundary)));
    assert(d[38] == (Rows::All, intro * (l[COL_VAL as int] - l[COL_BASE as int])));
    assert(d[39] == (Rows::All, endo * (1 - boundary)));
    assert(d[40] == (Rows::All, endo * (l[COL_SCALAR as int] - l[COL_LAMBDA_PTR as int])));
    assert(is_cell(l[COL_VAL as int]));
    assert(is_cell(l[COL_BASE as int]));
    assert(is_cell(l[COL_SCALAR as int]));
    assert(is_cell(l[COL_LAMBDA_PTR as int]));
    if intro == 1 {
        released(intro, 1 - boundary);
        small_and_zero(1 - boundary);
        released(intro, l[COL_VAL as int] - l[COL_BASE as int]);
        same_cell(l[COL_VAL as int], l[COL_BASE as int]);
    }
    if endo == 1 {
        released(endo, 1 - boundary);
        small_and_zero(1 - boundary);
        released(endo, l[COL_SCALAR as int] - l[COL_LAMBDA_PTR as int]);
        same_cell(l[COL_SCALAR as int], l[COL_LAMBDA_PTR as int]);
    }
}

/// What the constraints on the first row ask.
#[verifier::rlimit(40)]
proof fn first_asked(rows: Seq<Seq<int>>)
    requires
        satisfied(rows),
    ensures
        (rows[0][COL_EXPR_PTR as int] - 1) % (MODULUS as int) == 0,
        rows[0][COL_IDX as int] % (MODULUS as int) == 0,
        rows[0][COL_I as int] % (MODULUS as int) == 0,
        rows[0][COL_J as int] % (MODULUS as int) == 0,
{
    let l = rows[0];
    let d = msm_demands(l, following(rows, 0));
    assert(is_met(d, true, 0 == rows.len() - 1));
    assert(d[15] == (Rows::First, l[COL_EXPR_PTR as int] - 1));
    assert(d[17] == (Rows::First, l[COL_IDX as int]));
    assert(d[45] == (Rows::First, l[COL_I as int]));
    assert(d[46] == (Rows::First, l[COL_J as int]));
}

/// What the constraints ask of the counters of a row and the next.
#[verifier::rlimit(40)]
proof fn step_asked(rows: Seq<Seq<int>>, i: int)
    requires
        satisfied(rows),
        0 < i < rows.len(),
    ensures
        ({
            let l = rows[i - 1];
            let n = rows[i];
            let open = 1 - l[COL_IS_BOUNDARY as int];
            let to_i = l[COL_I as int] + (l[COL_TAKE_A as int] + l[COL_TAKE_BOTH as int]
                + l[COL_IS_NEG as int]);
            let to_j = l[COL_J as int] + (l[COL_TAKE_B as int] + l[COL_TAKE_BOTH as int]);
            &&& ((1 - l[COL_ACT as int]) * n[COL_ACT as int]) % (MODULUS as int) == 0
            &&& (n[COL_EXPR_PTR as int] - l[COL_EXPR_PTR as int] - l[COL_IS_BOUNDARY as int]) % (
            MODULUS as int) == 0
            &&& (n[COL_IDX as int] - open * (l[COL_IDX as int] + 1)) % (MODULUS as int) == 0
            &&& (n[COL_I as int] - open * to_i) % (MODULUS as int) == 0
            &&& (n[COL_J as int] - open * to_j) % (MODULUS as int) == 0
        }),
{
    let l = rows[i - 1];
    let n = rows[i];
    assert(following(rows, i - 1) == n);
    let d = msm_demands(l, following(rows, i - 1));
    assert(is_met(d, i - 1 == 0, i - 1 == rows.len() - 1));
    assert(d[10].0 == Rows::AllButLast);
    assert(d[16].0 == Rows::AllButLast);
    assert(d[18].0 == Rows::AllButLast);
    assert(d[47].0 == Rows::AllButLast);
    assert(d[48].0 == Rows::AllButLast);
}

/// How many expressions end above row `i`.
pub open spec fn ended(rows: Seq<Seq<int>>, i: int) -> int
    decreases i,
{
    if i <= 0 {
        0
    } else {
        ended(rows, i - 1) + rows[i - 1][COL_IS_BOUNDARY as int]
    }
}

/// Rows in use come first; expressions are numbered from one in the order of their rows; and the
/// number of a term is how many terms of its expression stand above it.
#[verifier::rlimit(60)]
pub proof fn expressions_and_terms_count_up(rows: Seq<Seq<int>>, i: int)
    requires
        satisfied(rows),
        0 <= i < rows.len(),
    ensures
        rows[0][COL_EXPR_PTR as int] == 1,
        rows[0][COL_IDX as int] == 0,
        rows[i][COL_EXPR_PTR as int] == 1 + ended(rows, i),
        0 <= ended(rows, i) <= i,
        rows[i][COL_IDX as int] <= i,
        i > 0 ==> {
            &&& rows[i][COL_ACT as int] <= rows[i - 1][COL_ACT as int]
            &&& rows[i][COL_EXPR_PTR as int] == rows[i - 1][COL_EXPR_PTR as int]
                + rows[i - 1][COL_IS_BOUNDARY as int]
            &&& rows[i][COL_IDX as int] == (if rows[i - 1][COL_IS_BOUNDARY as int] == 1 {
                0
            } else {
                rows[i - 1][COL_IDX as int] + 1
            })
        },
    decreases i,
{
    if i == 0 {
        first_asked(rows);
        assert(is_cell(rows[0][COL_EXPR_PTR as int]));
        assert(is_cell(rows[0][COL_IDX as int]));
        small_and_zero(rows[0][COL_EXPR_PTR as int] - 1);
        small_and_zero(rows[0][COL_IDX as int]);
    } else {
        expressions_and_terms_count_up(rows, i - 1);
        flags_are_zero_or_one(rows, i - 1);
        flags_are_zero_or_one(rows, i);
        step_asked(rows, i);
        let l = rows[i - 1];
        let n = rows[i];
        let act: int = l[COL_ACT as int];
        let boundary: int = l[COL_IS_BOUNDARY as int];
        let ptr: int = l[COL_EXPR_PTR as int];
        let idx: int = l[COL_IDX as int];
        if act == 0 {
            released(1 - act, n[COL_ACT as int]);
            small_and_zero(n[COL_ACT as int]);
        }
        assert(is_cell(n[COL_EXPR_PTR as int]));
        assert(is_cell(n[COL_IDX as int]));
        assert(is_cell(idx));
        small_and_zero(n[COL_EXPR_PTR as int] - ptr - boundary);
        switched(1 - boundary, idx + 1);
        small_and_zero(n[COL_IDX as int] - (1 - boundary) * (idx + 1));
    }
}

/// What the rows of one expression share.
pub open spec fn is_same_expression(l: Seq<int>, n: Seq<int>) -> bool {
    &&& n[COL_GROUP_PTR as int] == l[COL_GROUP_PTR as int]
    &&& n[COL_SBOUND_PTR as int] == l[COL_SBOUND_PTR as int]
    &&& n[COL_VAL as int] == l[COL_VAL as int]
    &&& n[COL_MULT as int] == l[COL_MULT as int]
    &&& n[COL_CLAIM_MULT as int] == l[COL_CLAIM_MULT as int]
    &&& n[COL_IS_INTRO as int] == l[COL_IS_INTRO as int]
    &&& n[COL_IS_INTRO_ENDO as int] == l[COL_IS_INTRO_ENDO as int]
    &&& n[COL_IS_COMBINE as int] == l[COL_IS_COMBINE as int]
    &&& n[COL_IS_NEG as int] == l[COL_IS_NEG as int]
    &&& n[COL_A_EXPR as int] == l[COL_A_EXPR as int]
    &&& n[COL_B_EXPR as int] == l[COL_B_EXPR as int]
    &&& n[COL_VAL_A as int] == l[COL_VAL_A as int]
    &&& n[COL_VAL_B as int] == l[COL_VAL_B as int]
    &&& n[COL_A_PTR as int] == l[COL_A_PTR as int]
    &&& n[COL_B_PTR as int] == l[COL_B_PTR as int]
    &&& n[COL_BOUND_PTR as int] == l[COL_BOUND_PTR as int]
    &&& n[COL_BETA_PTR as int] == l[COL_BETA_PTR as int]
    &&& n[COL_LAMBDA_PTR as int] == l[COL_LAMBDA_PTR as int]
}

/// Along an expression its group, value, multiplicities, kind and operands stay the same.
#[verifier::rlimit(60)]
pub proof fn expressions_are_uniform(rows: Seq<Seq<int>>, i: int)
    requires
        satisfied(rows),
        0 <= i < rows.len() - 1,
        rows[i][COL_IS_BOUNDARY as int] == 0,
    ensures
        is_same_expression(rows[i], rows[i + 1]),
{
    let l = rows[i];
    let n = rows[i + 1];
    assert(following(rows, i) == n);
    let d = msm_demands(l, n);
    assert(is_met(d, i == 0, i == rows.len() - 1));
    let open: int = 1 - l[COL_IS_BOUNDARY as int];
    assert(d[19] == (Rows::AllButLast, open * (n[COL_GROUP_PTR as int] - l[COL_GROUP_PTR as int])));
    released(open, n[COL_GROUP_PTR as int] - l[COL_GROUP_PTR as int]);
    assert(is_cell(n[COL_GROUP_PTR as int]) && is_cell(l[COL_GROUP_PTR as int]));
    same_cell(n[COL_GROUP_PTR as int], l[COL_GROUP_PTR as int]);
    assert(d[20] == (
        Rows::AllButLast,
        open * (n[COL_SBOUND_PTR as int] - l[COL_SBOUND_PTR as int]),
    ));
    released(open, n[COL_SBOUND_PTR as int] - l[COL_SBOUND_PTR as int]);
    assert(is_cell(n[COL_SBOUND_PTR as int]) && is_cell(l[COL_SBOUND_PTR as int]));
    same_cell(n[COL_SBOUND_PTR as int], l[COL_SBOUND_PTR as int]);
    assert(d[21] == (Rows::AllButLast, open * (n[COL_VAL as int] - l[COL_VAL as int])));
    released(open, n[COL_VAL as int] - l[COL_VAL as int]);
    assert(is_cell(n[COL_VAL as int]) && is_cell(l[COL_VAL as int]));
    same_cell(n[COL_VAL as int], l[COL_VAL as int]);
    assert(d[22] == (Rows::AllButLast, open * (n[COL_MULT as int] - l[COL_MULT as int])));
    released(open, n[COL_MULT as int] - l[COL_MULT as int]);
    assert(is_cell(n[COL_MULT as int]) && is_cell(l[COL_MULT as int]));
    same_cell(n[COL_MULT as int], l[COL_MULT as int]);
    assert(d[23] == (
        Rows::AllButLast,
        open * (n[COL_CLAIM_MULT as int] - l[COL_CLAIM_MULT as int]),
    ));
    released(open, n[COL_CLAIM_MULT as int] - l[COL_CLAIM_MULT as int]);
    assert(is_cell(n[COL_CLAIM_MULT as int]) && is_cell(l[COL_CLAIM_MULT as int]));
    same_cell(n[COL_CLAIM_MULT as int], l[COL_CLAIM_MULT as int]);
    assert(d[24] == (Rows::AllButLast, open * (n[COL_IS_INTRO as int] - l[COL_IS_INTRO as int])));
    released(open, n[COL_IS_INTRO as int] - l[COL_IS_INTRO as int]);
    assert(is_cell(n[COL_IS_INTRO as int]) && is_cell(l[COL_IS_INTRO as int]));
    same_cell(n[COL_IS_INTRO as int], l[COL_IS_INTRO as int]);
    assert(d[25] == (
        Rows::AllButLast,
        open * (n[COL_IS_INTRO_ENDO as int] - l[COL_IS_INTRO_ENDO as int]),
    ));
    released(open, n[COL_IS_INTRO_ENDO as int] - l[COL_IS_INTRO_ENDO as int]);
    assert(is_cell(n[COL_IS_INTRO_ENDO as int]) && is_cell(l[COL_IS_INTRO_ENDO as int]));
    same_cell(n[COL_IS_INTRO_ENDO as int], l[COL_IS_INTRO_ENDO as int]);
    assert(d[26] == (
        Rows::AllButLast,
        open * (n[COL_IS_COMBINE as int] - l[COL_IS_COMBINE as int]),
    ));
    released(open, n[COL_IS_COMBINE as int] - l[COL_IS_COMBINE as int]);
    assert(is_cell(n[COL_IS_COMBINE as int]) && is_cell(l[COL_IS_COMBINE as int]));
    same_cell(n[COL_IS_COMBINE as int], l[COL_IS_COMBINE as int]);
    assert(d[27] == (Rows::AllButLast, open * (n[COL_IS_NEG as int] - l[COL_IS_NEG as int])));
    released(open, n[COL_IS_NEG as int] - l[COL_IS_NEG as int]);
    assert(is_cell(n[COL_IS_NEG as int]) && is_cell(l[COL_IS_NEG as int]));
    same_cell(n[COL_IS_NEG as int], l[COL_IS_NEG as int]);
    assert(d[28] == (Rows::AllButLast, open * (n[COL_A_EXPR as int] - l[COL_A_EXPR as int])));
    released(open, n[COL_A_EXPR as int] - l[COL_A_EXPR as int]);
    assert(is_cell(n[COL_A_EXPR as int]) && is_cell(l[COL_A_EXPR as int]));
    same_cell(n[COL_A_EXPR as int], l[COL_A_EXPR as int]);
    assert(d[29] == (Rows::AllButLast, open * (n[COL_B_EXPR as int] - l[COL_B_EXPR as int])));
    released(open, n[COL_B_EXPR as int] - l[COL_B_EXPR as int]);
    assert(is_cell(n[COL_B_EXPR as int]) && is_cell(l[COL_B_EXPR as int]));
    same_cell(n[COL_B_EXPR as int], l[COL_B_EXPR as int]);
    assert(d[30] == (Rows::AllButLast, open * (n[COL_VAL_A as int] - l[COL_VAL_A as int])));
    released(open, n[COL_VAL_A as int] - l[COL_VAL_A as int]);
    assert(is_cell(n[COL_VAL_A as int]) && is_cell(l[COL_VAL_A as int]));
    same_cell(n[COL_VAL_A as int], l[COL_VAL_A as int]);
    assert(d[31] == (Rows::AllButLast, open * (n[COL_VAL_B as int] - l[COL_VAL_B as int])));
    released(open, n[COL_VAL_B as int] - l[COL_VAL_B as int]);
    assert(is_cell(n[COL_VAL_B as int]) && is_cell(l[COL_VAL_B as int]));
    same_cell(n[COL_VAL_B as int], l[COL_VAL_B as int]);
    assert(d[32] == (Rows::AllButLast, open * (n[COL_A_PTR as int] - l[COL_A_PTR as int])));
    released(open, n[COL_A_PTR as int] - l[COL_A_PTR as int]);
    assert(is_cell(n[COL_A_PTR as int]) && is_cell(l[COL_A_PTR as int]));
    same_cell(n[COL_A_PTR as int], l[COL_A_PTR as int]);
    assert(d[33] == (Rows::AllButLast, open * (n[COL_B_PTR as int] - l[COL_B_PTR as int])));
    released(open, n[COL_B_PTR as int] - l[COL_B_PTR as int]);
    assert(is_cell(n[COL_B_PTR as int]) && is_cell(l[COL_B_PTR as int]));
    same_cell(n[COL_B_PTR as int], l[COL_B_PTR as int]);
    assert(d[34] == (Rows::AllButLast, open * (n[COL_BOUND_PTR as int] - l[COL_BOUND_PTR as int])));
    released(open, n[COL_BOUND_PTR as int] - l[COL_BOUND_PTR as int]);
    assert(is_cell(n[COL_BOUND_PTR as int]) && is_cell(l[COL_BOUND_PTR as int]));
    same_cell(n[COL_BOUND_PTR as int], l[COL_BOUND_PTR as int]);
    assert(d[35] == (Rows::AllButLast, open * (n[COL_BETA_PTR as int] - l[COL_BETA_PTR as int])));
    released(open, n[COL_BETA_PTR as int] - l[COL_BETA_PTR as int]);
    assert(is_cell(n[COL_BETA_PTR as int]) && is_cell(l[COL_BETA_PTR as int]));
    same_cell(n[COL_BETA_PTR as int], l[COL_BETA_PTR as int]);
    assert(d[36] == (
        Rows::AllButLast,
        open * (n[COL_LAMBDA_PTR as int] - l[COL_LAMBDA_PTR as int]),
    ));
    released(open, n[COL_LAMBDA_PTR as int] - l[COL_LAMBDA_PTR as int]);
    assert(is_cell(n[COL_LAMBDA_PTR as int]) && is_cell(l[COL_LAMBDA_PTR as int]));
    same_cell(n[COL_LAMBDA_PTR as int], l[COL_LAMBDA_PTR as int]);
}

/// A merge takes from one side or from both, and nothing else takes; what it takes is the term of
/// that side.
#[verifier::rlimit(60)]
pub proof fn merges_take_in_turn(rows: Seq<Seq<int>>, i: int)
    requires
        satisfied(rows),
        0 <= i < rows.len(),
    ensures
        rows[i][COL_TAKE_A as int] + rows[i][COL_TAKE_B as int] + rows[i][COL_TAKE_BOTH as int]
            == rows[i][COL_IS_COMBINE as int],
        rows[i][COL_TAKE_A as int] == 1 ==> {
            &&& rows[i][COL_BASE as int] == rows[i][COL_BASE_A as int]
            &&& rows[i][COL_SCALAR as int] == rows[i][COL_S_A as int]
        },
        rows[i][COL_TAKE_B as int] == 1 ==> {
            &&& rows[i][COL_BASE as int] == rows[i][COL_BASE_B as int]
            &&& rows[i][COL_SCALAR as int] == rows[i][COL_S_B as int]
        },
        rows[i][COL_TAKE_BOTH as int] == 1 ==> {
            &&& rows[i][COL_BASE as int] == rows[i][COL_BASE_A as int]
            &&& rows[i][COL_BASE as int] == rows[i][COL_BASE_B as int]
        },
        rows[i][COL_IS_NEG as int] == 1 ==> rows[i][COL_BASE as int] == rows[i][COL_BASE_A as int],
{
    flags_are_zero_or_one(rows, i);
    rows_in_use_have_one_kind(rows, i);
    let l = rows[i];
    let d = msm_demands(l, following(rows, i));
    assert(is_met(d, i == 0, i == rows.len() - 1));
    let take_a: int = l[COL_TAKE_A as int];
    let take_b: int = l[COL_TAKE_B as int];
    let take_both: int = l[COL_TAKE_BOTH as int];
    let neg: int = l[COL_IS_NEG as int];
    let base: int = l[COL_BASE as int];
    let base_a: int = l[COL_BASE_A as int];
    let base_b: int = l[COL_BASE_B as int];
    let scalar: int = l[COL_SCALAR as int];
    let s_a: int = l[COL_S_A as int];
    let s_b: int = l[COL_S_B as int];
    assert(is_cell(base) && is_cell(base_a) && is_cell(base_b));
    assert(is_cell(scalar) && is_cell(s_a) && is_cell(s_b));
    assert(d[44] == (Rows::All, take_a + take_b + take_both - l[COL_IS_COMBINE as int]));
    small_and_zero(take_a + take_b + take_both - l[COL_IS_COMBINE as int]);
    let on_a: int = take_a + take_both + neg;
    assert(d[49] == (Rows::All, on_a * (base - base_a) + take_b * (base - base_b)));
    assert(d[50] == (Rows::All, take_a * (scalar - s_a) + take_b * (scalar - s_b)));
    assert(d[51] == (Rows::All, take_both * (base_a - base_b)));
    switched(on_a, base - base_a);
    switched(take_b, base - base_b);
    switched(take_a, scalar - s_a);
    switched(take_b, scalar - s_b);
    if on_a == 1 {
        same_cell(base, base_a);
    }
    if take_a == 1 {
        same_cell(scalar, s_a);
    }
    if take_b == 1 {
        same_cell(base, base_b);
        same_cell(scalar, s_b);
    }
    if take_both == 1 {
        released(take_both, base_a - base_b);
        same_cell(base_a, base_b);
    }
}

/// Operands are older: at the end of an expression that has operands, its number is above theirs by
/// one more than the two limbs that the row holds, in the field.
#[verifier::rlimit(60)]
pub proof fn operands_are_older(rows: Seq<Seq<int>>, i: int)
    requires
        satisfied(rows),
        0 <= i < rows.len(),
        rows[i][COL_IS_BOUNDARY as int] == 1,
    ensures
        rows[i][COL_IS_COMBINE as int] == 1 || rows[i][COL_IS_NEG as int] == 1
            ==> rows[i][COL_EXPR_PTR as int] == (rows[i][COL_A_EXPR as int] + 1
            + rows[i][COL_A_DIFF_LO as int] + 65536 * rows[i][COL_A_DIFF_HI as int]) % (
        MODULUS as int),
        rows[i][COL_IS_COMBINE as int] == 1 ==> rows[i][COL_EXPR_PTR as int] == (
        rows[i][COL_B_EXPR as int] + 1 + rows[i][COL_B_DIFF_LO as int] + 65536
            * rows[i][COL_B_DIFF_HI as int]) % (MODULUS as int),
{
    flags_are_zero_or_one(rows, i);
    rows_in_use_have_one_kind(rows, i);
    let l = rows[i];
    let d = msm_demands(l, following(rows, i));
    assert(is_met(d, i == 0, i == rows.len() - 1));
    let ptr: int = l[COL_EXPR_PTR as int];
    let boundary: int = l[COL_IS_BOUNDARY as int];
    let switch_a: int = (l[COL_IS_COMBINE as int] + l[COL_IS_NEG as int]) * boundary;
    let switch_b: int = l[COL_IS_COMBINE as int] * boundary;
    let above_a: int = ptr - l[COL_A_EXPR as int] - 1 - l[COL_A_DIFF_LO as int] - 65536
        * l[COL_A_DIFF_HI as int];
    let above_b: int = ptr - l[COL_B_EXPR as int] - 1 - l[COL_B_DIFF_LO as int] - 65536
        * l[COL_B_DIFF_HI as int];
    assert(d[52] == (Rows::All, switch_a * above_a));
    assert(d[53] == (Rows::All, switch_b * above_b));
    assert(is_cell(ptr));
    if l[COL_IS_COMBINE as int] == 1 || l[COL_IS_NEG as int] == 1 {
        released(switch_a, above_a);
        residue_of(ptr, ptr - above_a);
    }
    if l[COL_IS_COMBINE as int] == 1 {
        released(switch_b, above_b);
        residue_of(ptr, ptr - above_b);
    }
}

/// A cursor into an operand starts at zero with each expression, and moves on by one where the row
/// takes from that operand.
#[verifier::rlimit(60)]
pub proof fn cursors_follow_what_is_taken(rows: Seq<Seq<int>>, i: int)
    requires
        satisfied(rows),
        0 <= i < rows.len(),
    ensures
        rows[0][COL_I as int] == 0,
        rows[0][COL_J as int] == 0,
        rows[i][COL_I as int] <= i,
        rows[i][COL_J as int] <= i,
        i > 0 ==> {
            let l = rows[i - 1];
            &&& rows[i][COL_I as int] == (if l[COL_IS_BOUNDARY as int] == 1 {
                0
            } else {
                l[COL_I as int] + l[COL_TAKE_A as int] + l[COL_TAKE_BOTH as int]
                    + l[COL_IS_NEG as int]
            })
            &&& rows[i][COL_J as int] == (if l[COL_IS_BOUNDARY as int] == 1 {
                0
            } else {
                l[COL_J as int] + l[COL_TAKE_B as int] + l[COL_TAKE_BOTH as int]
            })
        },
    decreases i,
{
    if i == 0 {
        first_asked(rows);
        assert(is_cell(rows[0][COL_I as int]));
        assert(is_cell(rows[0][COL_J as int]));
        small_and_zero(rows[0][COL_I as int]);
        small_and_zero(rows[0][COL_J as int]);
    } else {
        cursors_follow_what_is_taken(rows, i - 1);
        flags_are_zero_or_one(rows, i - 1);
        rows_in_use_have_one_kind(rows, i - 1);
        merges_take_in_turn(rows, i - 1);
        step_asked(rows, i);
        let l = rows[i - 1];
        let n = rows[i];
        let open: int = 1 - l[COL_IS_BOUNDARY as int];
        let to_i: int = l[COL_I as int] + (l[COL_TAKE_A as int] + l[COL_TAKE_BOTH as int]
            + l[COL_IS_NEG as int]);
        let to_j: int = l[COL_J as int] + (l[COL_TAKE_B as int] + l[COL_TAKE_BOTH as int]);
        assert(is_cell(l[COL_I as int]) && is_cell(l[COL_J as int]));
        assert(is_cell(n[COL_I as int]) && is_cell(n[COL_J as int]));
        switched(open, to_i);
        switched(open, to_j);
        small_and_zero(n[COL_I as int] - open * to_i);
        small_and_zero(n[COL_J as int] - open * to_j);
    }
}

/// The rules of one row: its flags, its kind, what it takes from its operands, and the order of
/// expressions.
pub open spec fn row_holds(l: Seq<int>) -> bool {
    let m = MODULUS as int;
    let combines = l[COL_IS_COMBINE as int] == 1;
    let negates = l[COL_IS_NEG as int] == 1;
    &&& flags_hold(l)
    &&& kind_holds(l)
    &&& l[COL_IS_INTRO as int] == 1 ==> l[COL_IS_BOUNDARY as int] == 1 && l[COL_VAL as int]
        == l[COL_BASE as int]
    &&& l[COL_IS_INTRO_ENDO as int] == 1 ==> l[COL_IS_BOUNDARY as int] == 1 && l[COL_SCALAR as int]
        == l[COL_LAMBDA_PTR as int]
    &&& l[COL_TAKE_A as int] + l[COL_TAKE_B as int] + l[COL_TAKE_BOTH as int]
        == l[COL_IS_COMBINE as int]
    &&& l[COL_TAKE_A as int] == 1 ==> l[COL_BASE as int] == l[COL_BASE_A as int]
        && l[COL_SCALAR as int] == l[COL_S_A as int]
    &&& l[COL_TAKE_B as int] == 1 ==> l[COL_BASE as int] == l[COL_BASE_B as int]
        && l[COL_SCALAR as int] == l[COL_S_B as int]
    &&& l[COL_TAKE_BOTH as int] == 1 ==> l[COL_BASE as int] == l[COL_BASE_A as int]
        && l[COL_BASE as int] == l[COL_BASE_B as int]
    &&& negates ==> l[COL_BASE as int] == l[COL_BASE_A as int]
    &&& l[COL_IS_BOUNDARY as int] == 1 && (combines || negates) ==> l[COL_EXPR_PTR as int] == (
    l[COL_A_EXPR as int] + 1 + l[COL_A_DIFF_LO as int] + 65536 * l[COL_A_DIFF_HI as int]) % m
    &&& l[COL_IS_BOUNDARY as int] == 1 && combines ==> l[COL_EXPR_PTR as int] == (
    l[COL_B_EXPR as int] + 1 + l[COL_B_DIFF_LO as int] + 65536 * l[COL_B_DIFF_HI as int]) % m
}

/// The rules of two rows: rows in use come first, expressions and terms count up, the cursors follow
/// what is taken, and the rows of one expression agree.
pub open spec fn step_holds(l: Seq<int>, n: Seq<int>) -> bool {
    let ends = l[COL_IS_BOUNDARY as int] == 1;
    &&& n[COL_ACT as int] <= l[COL_ACT as int]
    &&& n[COL_EXPR_PTR as int] == l[COL_EXPR_PTR as int] + l[COL_IS_BOUNDARY as int]
    &&& n[COL_IDX as int] == if ends { 0 } else { l[COL_IDX as int] + 1 }
    &&& n[COL_I as int] == if ends {
        0
    } else {
        l[COL_I as int] + l[COL_TAKE_A as int] + l[COL_TAKE_BOTH as int] + l[COL_IS_NEG as int]
    }
    &&& n[COL_J as int] == if ends {
        0
    } else {
        l[COL_J as int] + l[COL_TAKE_B as int] + l[COL_TAKE_BOTH as int]
    }
    &&& !ends ==> is_same_expression(l, n)
}

/// The rules of the multi-scalar table.
pub open spec fn keeps_the_rules(rows: Seq<Seq<int>>) -> bool {
    &&& is_table(rows, NUM_MAIN_COLS as int)
    &&& forall|i: int| 0 <= i < rows.len() ==> row_holds(#[trigger] rows[i])
    &&& forall|i: int| 0 <= i < rows.len() - 1 ==> step_holds(#[trigger] rows[i], rows[i + 1])
    &&& rows[0][COL_EXPR_PTR as int] == 1
    &&& rows[0][COL_IDX as int] == 0
    &&& rows[0][COL_I as int] == 0
    &&& rows[0][COL_J as int] == 0
}

/// The constraints of one row that keeps the rules vanish.
#[verifier::spinoff_prover]
#[verifier::rlimit(40)]
proof fn row_constraints_met(l: Seq<int>, n: Seq<int>, k: int)
    requires
        row_holds(l),
        0 <= k < msm_demands(l, n).len(),
        msm_demands(l, n)[k].0 == Rows::All,
    ensures
        msm_demands(l, n)[k].1 % (MODULUS as int) == 0,
{
    let d = msm_demands(l, n);
    let act: int = l[COL_ACT as int];
    let boundary: int = l[COL_IS_BOUNDARY as int];
    let intro: int = l[COL_IS_INTRO as int];
    let endo: int = l[COL_IS_INTRO_ENDO as int];
    let combine: int = l[COL_IS_COMBINE as int];
    let neg: int = l[COL_IS_NEG as int];
    let take_a: int = l[COL_TAKE_A as int];
    let take_b: int = l[COL_TAKE_B as int];
    let take_both: int = l[COL_TAKE_BOTH as int];
    let base: int = l[COL_BASE as int];
    let scalar: int = l[COL_SCALAR as int];
    vanishes(0, 0);
    if k < 15 {
        vanishes(act, 1 - act);
        vanishes(boundary, 1 - boundary);
        vanishes(intro, 1 - intro);
        vanishes(endo, 1 - endo);
        vanishes(combine, 1 - combine);
        vanishes(neg, 1 - neg);
        vanishes(l[COL_NEG_MINTED as int], 1 - l[COL_NEG_MINTED as int]);
        vanishes(1 - neg, l[COL_NEG_MINTED as int]);
        vanishes(l[COL_ENDO_MINTED as int], 1 - l[COL_ENDO_MINTED as int]);
        vanishes(1 - endo, l[COL_ENDO_MINTED as int]);
        vanishes(1 - act, boundary);
        vanishes(1 - act, l[COL_MULT as int]);
        vanishes(1 - act, l[COL_CLAIM_MULT as int]);
    } else if k < 45 {
        assert(k >= 37);
        vanishes(intro, 1 - boundary);
        vanishes(intro, l[COL_VAL as int] - base);
        vanishes(endo, 1 - boundary);
        vanishes(endo, scalar - l[COL_LAMBDA_PTR as int]);
        vanishes(take_a, 1 - take_a);
        vanishes(take_b, 1 - take_b);
        vanishes(take_both, 1 - take_both);
    } else {
        assert(k >= 49);
        vanishes(take_a + take_both + neg, base - l[COL_BASE_A as int]);
        vanishes(take_b, base - l[COL_BASE_B as int]);
        vanishes(take_a, scalar - l[COL_S_A as int]);
        vanishes(take_b, scalar - l[COL_S_B as int]);
        vanishes(take_both, l[COL_BASE_A as int] - l[COL_BASE_B as int]);
        switched(boundary, combine + neg);
        switched(boundary, combine);
        let bnd_a: int = (combine + neg) * boundary;
        let bnd_b: int = combine * boundary;
        assert(bnd_a == boundary * (combine + neg) && bnd_b == boundary * combine)
            by (nonlinear_arith)
            requires
                bnd_a == (combine + neg) * boundary,
                bnd_b == combine * boundary,
        ;
        let ptr: int = l[COL_EXPR_PTR as int];
        let from_a: int = l[COL_A_EXPR as int] + 1 + l[COL_A_DIFF_LO as int] + 65536
            * l[COL_A_DIFF_HI as int];
        let from_b: int = l[COL_B_EXPR as int] + 1 + l[COL_B_DIFF_LO as int] + 65536
            * l[COL_B_DIFF_HI as int];
        met_by_residue(bnd_a, ptr, from_a);
        met_by_residue(bnd_b, ptr, from_b);
        assert(ptr - from_a == ptr - l[COL_A_EXPR as int] - 1 - l[COL_A_DIFF_LO as int] - 65536
            * l[COL_A_DIFF_HI as int]);
        assert(ptr - from_b == ptr - l[COL_B_EXPR as int] - 1 - l[COL_B_DIFF_LO as int] - 65536
            * l[COL_B_DIFF_HI as int]);
    }
}

/// The constraints of two rows that keep the rules vanish.
#[verifier::spinoff_prover]
#[verifier::rlimit(40)]
proof fn step_constraints_met(l: Seq<int>, n: Seq<int>, k: int)
    requires
        row_holds(l),
        row_holds(n),
        step_holds(l, n),
        0 <= k < msm_demands(l, n).len(),
        msm_demands(l, n)[k].0 == Rows::AllButLast,
    ensures
        msm_demands(l, n)[k].1 % (MODULUS as int) == 0,
{
    let d = msm_demands(l, n);
    let act: int = l[COL_ACT as int];
    let boundary: int = l[COL_IS_BOUNDARY as int];
    let free: int = 1 - boundary;
    vanishes(0, 0);
    if k < 19 {
        vanishes(1 - act, n[COL_ACT as int]);
        switched(free, l[COL_IDX as int] + 1);
    } else if k < 37 {
        vanishes(free, n[COL_GROUP_PTR as int] - l[COL_GROUP_PTR as int]);
        vanishes(free, n[COL_SBOUND_PTR as int] - l[COL_SBOUND_PTR as int]);
        vanishes(free, n[COL_VAL as int] - l[COL_VAL as int]);
        vanishes(free, n[COL_MULT as int] - l[COL_MULT as int]);
        vanishes(free, n[COL_CLAIM_MULT as int] - l[COL_CLAIM_MULT as int]);
        vanishes(free, n[COL_IS_INTRO as int] - l[COL_IS_INTRO as int]);
        vanishes(free, n[COL_IS_INTRO_ENDO as int] - l[COL_IS_INTRO_ENDO as int]);
        vanishes(free, n[COL_IS_COMBINE as int] - l[COL_IS_COMBINE as int]);
        vanishes(free, n[COL_IS_NEG as int] - l[COL_IS_NEG as int]);
        vanishes(free, n[COL_A_EXPR as int] - l[COL_A_EXPR as int]);
        vanishes(free, n[COL_B_EXPR as int] - l[COL_B_EXPR as int]);
        vanishes(free, n[COL_VAL_A as int] - l[COL_VAL_A as int]);
        vanishes(free, n[COL_VAL_B as int] - l[COL_VAL_B as int]);
        vanishes(free, n[COL_A_PTR as int] - l[COL_A_PTR as int]);
        vanishes(free, n[COL_B_PTR as int] - l[COL_B_PTR as int]);
        vanishes(free, n[COL_BOUND_PTR as int] - l[COL_BOUND_PTR as int]);
        vanishes(free, n[COL_BETA_PTR as int] - l[COL_BETA_PTR as int]);
        vanishes(free, n[COL_LAMBDA_PTR as int] - l[COL_LAMBDA_PTR as int]);
    } else {
        assert(k == 47 || k == 48);
        switched(
            free,
            l[COL_I as int] + (l[COL_TAKE_A as int] + l[COL_TAKE_BOTH as int]
                + l[COL_IS_NEG as int]),
        );
        switched(free, l[COL_J as int] + (l[COL_TAKE_B as int] + l[COL_TAKE_BOTH as int]));
    }
}

/// The constraints of the multi-scalar table are its rules: no table that breaks one satisfies
/// them, and every table that keeps them does.
#[verifier::spinoff_prover]
#[verifier::rlimit(40)]
pub proof fn constraints_are_the_rules(rows: Seq<Seq<int>>)
    requires
        is_table(rows, NUM_MAIN_COLS as int),
    ensures
        satisfied(rows) <==> keeps_the_rules(rows),
{
    if satisfied(rows) {
        assert forall|i: int| 0 <= i < rows.len() implies row_holds(#[trigger] rows[i]) by {
            rows_in_use_have_one_kind(rows, i);
            flags_are_zero_or_one(rows, i);
            points_are_one_row(rows, i);
            merges_take_in_turn(rows, i);
            if rows[i][COL_IS_BOUNDARY as int] == 1 {
                operands_are_older(rows, i);
            }
        }
        assert forall|i: int| 0 <= i < rows.len() - 1 implies step_holds(
            #[trigger] rows[i],
            rows[i + 1],
        ) by {
            flags_are_zero_or_one(rows, i);
            expressions_and_terms_count_up(rows, i + 1);
            cursors_follow_what_is_taken(rows, i + 1);
            if rows[i][COL_IS_BOUNDARY as int] == 0 {
                expressions_are_uniform(rows, i);
            }
        }
        expressions_and_terms_count_up(rows, 0);
        cursors_follow_what_is_taken(rows, 0);
    }
    if keeps_the_rules(rows) {
        assert forall|i: int| 0 <= i < rows.len() implies is_met(
            #[trigger] msm_demands(rows[i], following(rows, i)),
            i == 0,
            i == rows.len() - 1,
        ) by {
            let l = rows[i];
            let n = following(rows, i);
            let d = msm_demands(l, n);
            assert(row_holds(rows[i]));
            assert forall|k: int|
                0 <= k < d.len() && is_enforced(
                    (#[trigger] d[k]).0,
                    i == 0,
                    i == rows.len() - 1,
                ) implies d[k].1 % (MODULUS as int) == 0 by {
                if d[k].0 == Rows::All {
                    row_constraints_met(l, n, k);
                } else if d[k].0 == Rows::AllButLast {
                    assert(step_holds(rows[i], rows[i + 1]));
                    assert(row_holds(rows[i + 1]));
                    step_constraints_met(l, n, k);
                } else {
                    vanishes(0, 0);
                    first_constraints(l, n, k);
                }
            }
        }
    }
}

/// The constraints on the first row: the first expression is one, and everything else starts at
/// zero.
#[verifier::spinoff_prover]
#[verifier::rlimit(40)]
proof fn first_constraints(l: Seq<int>, n: Seq<int>, k: int)
    requires
        0 <= k < msm_demands(l, n).len(),
        msm_demands(l, n)[k].0 == Rows::First,
    ensures
        msm_demands(l, n)[k].1 == l[COL_EXPR_PTR as int] - 1 || msm_demands(l, n)[k].1
            == l[COL_IDX as int] || msm_demands(l, n)[k].1 == l[COL_I as int] || msm_demands(
            l,
            n,
        )[k].1 == l[COL_J as int],
{
    assert(k == 15 || k == 17 || k == 45 || k == 46);
}

} // verus!
