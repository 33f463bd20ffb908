//! What the multi-scalar table proves: where the messages it consumes are true, the value of every
//! expression is the sum of its bases, each taken as often as its scalar says.

use crate::precompiles::ec::msm::{
    msm_fractions, COL_ACT, COL_A_DIFF_HI, COL_A_DIFF_LO, COL_A_EXPR, COL_A_PTR, COL_BASE,
    COL_BASE_A, COL_BASE_B, COL_BETA_PTR, COL_BOUND_PTR, COL_B_DIFF_HI, COL_B_DIFF_LO, COL_B_EXPR,
    COL_B_PTR, COL_CLAIM_MULT, COL_ENDO_BASE_X, COL_ENDO_MINTED, COL_ENDO_VAL_X, COL_ENDO_Y,
    COL_EXPR_PTR, COL_GROUP_PTR, COL_I, COL_IDX, COL_IS_BOUNDARY, COL_IS_COMBINE, COL_IS_INTRO,
    COL_IS_INTRO_ENDO, COL_IS_NEG, COL_J, COL_LAMBDA_PTR, COL_MULT, COL_NEG_MINTED, COL_NEG_X,
    COL_NEG_YA, COL_NEG_YR, COL_SBOUND_PTR, COL_SCALAR, COL_S_A, COL_S_B, COL_TAKE_A, COL_TAKE_B,
    COL_TAKE_BOTH, COL_VAL, COL_VAL_A, COL_VAL_B, NUM_MAIN_COLS,
};
use crate::precompiles::ec::msm_laws::{
    cursors_follow_what_is_taken, expressions_and_terms_count_up, expressions_are_uniform,
    flags_are_zero_or_one, flags_hold, is_same_expression, kind_holds, merges_take_in_turn,
    operands_are_older, points_are_one_row, rows_in_use_have_one_kind, satisfied,
};
use crate::precompiles::field::MODULUS;
use crate::precompiles::meaning::{
    cells_are_residues, is_member, limbs_from, multiplies, on_curve, payload, same, same_itself,
    same_means, same_scaled, same_through, same_together, same_turned, says, sums, Curve, Head,
    Place, Store,
};
use crate::precompiles::relations::BusId;
use crate::precompiles::trace::{is_cell, is_flag};
use vstd::arithmetic::div_mod::lemma_small_mod;
use vstd::prelude::*;

verus! {

/// Every message that the row consumes is true of the store.
pub open spec fn consumes_truth(store: Store, l: Seq<int>) -> bool {
    forall|k: int|
        0 <= k < msm_fractions(l).len() && (#[trigger] msm_fractions(l)[k]).mult > 0 ==> says(
            store,
            msm_fractions(l)[k].bus,
            payload(msm_fractions(l)[k]),
        )
}

/// How far the row moves on in its first operand.
pub open spec fn taken_a(l: Seq<int>) -> int {
    l[COL_TAKE_A as int] + l[COL_TAKE_BOTH as int] + l[COL_IS_NEG as int]
}

/// How far the row moves on in its second operand.
pub open spec fn taken_b(l: Seq<int>) -> int {
    l[COL_TAKE_B as int] + l[COL_TAKE_BOTH as int]
}

/// What a row claims of the stored values of its term: the scalar of a point is one, a term is
/// taken from where the cursors stand, scalars taken from both operands are added modulo the order
/// of the group, and a negated term has the opposite scalar.
pub open spec fn term_is_certified(store: Store, l: Seq<int>) -> bool {
    let order = store.modulus(l[COL_SBOUND_PTR as int]);
    let scalar = store.value(l[COL_SCALAR as int]);
    let s_a = store.value(l[COL_S_A as int]);
    let s_b = store.value(l[COL_S_B as int]);
    &&& l[COL_IS_INTRO as int] == 1 ==> {
        &&& scalar == 1
        &&& (store.bounds)(l[COL_SCALAR as int]) == l[COL_SBOUND_PTR as int]
    }
    &&& taken_a(l) == 1 ==> (store.terms)(l[COL_A_EXPR as int], l[COL_I as int]) == (
        l[COL_BASE_A as int],
        l[COL_S_A as int],
    )
    &&& taken_b(l) == 1 ==> (store.terms)(l[COL_B_EXPR as int], l[COL_J as int]) == (
        l[COL_BASE_B as int],
        l[COL_S_B as int],
    )
    &&& l[COL_TAKE_BOTH as int] == 1 ==> same(s_a + s_b, scalar, order)
    &&& l[COL_IS_NEG as int] == 1 ==> same(s_a + scalar, 0, order)
}

/// What the last row of an expression claims: its operands are used up, and its value is the sum of
/// theirs, or the opposite of the one, or the image of its base under the endomorphism.
pub open spec fn value_is_certified(store: Store, l: Seq<int>) -> bool {
    let group = l[COL_GROUP_PTR as int];
    let m = store.modulus(l[COL_BOUND_PTR as int]);
    let combines = l[COL_IS_COMBINE as int] == 1;
    let negates = l[COL_IS_NEG as int] == 1;
    let maps = l[COL_IS_INTRO_ENDO as int] == 1;
    &&& combines || negates ==> {
        &&& (store.heads)(l[COL_A_EXPR as int]) == (Head {
            group,
            val: l[COL_VAL_A as int],
            count: l[COL_I as int] + taken_a(l),
        })
        &&& l[COL_A_DIFF_LO as int] < 65536
        &&& l[COL_A_DIFF_HI as int] < 65536
    }
    &&& combines || negates || maps ==> (store.groups)(group) == (Curve {
        a: l[COL_A_PTR as int],
        b: l[COL_B_PTR as int],
        bound: l[COL_BOUND_PTR as int],
        scalar_bound: l[COL_SBOUND_PTR as int],
        beta: l[COL_BETA_PTR as int],
        lambda: l[COL_LAMBDA_PTR as int],
    })
    &&& combines ==> {
        &&& (store.heads)(l[COL_B_EXPR as int]) == (Head {
            group,
            val: l[COL_VAL_B as int],
            count: l[COL_J as int] + taken_b(l),
        })
        &&& l[COL_B_DIFF_LO as int] < 65536
        &&& l[COL_B_DIFF_HI as int] < 65536
        &&& sums(
            store,
            group,
            l[COL_VAL_A as int],
            l[COL_VAL_B as int],
            l[COL_VAL as int],
        )
    }
    &&& negates ==> {
        &&& (store.points)(l[COL_VAL_A as int]) == (Place {
            group,
            x: l[COL_NEG_X as int],
            y: l[COL_NEG_YA as int],
            infinite: false,
        })
        &&& (store.points)(l[COL_VAL as int]) == (Place {
            group,
            x: l[COL_NEG_X as int],
            y: l[COL_NEG_YR as int],
            infinite: false,
        })
        &&& same(
            store.value(l[COL_NEG_YA as int]) + store.value(l[COL_NEG_YR as int]),
            0,
            m,
        )
    }
    &&& maps ==> {
        &&& (store.points)(l[COL_BASE as int]) == (Place {
            group,
            x: l[COL_ENDO_BASE_X as int],
            y: l[COL_ENDO_Y as int],
            infinite: false,
        })
        &&& (store.points)(l[COL_VAL as int]) == (Place {
            group,
            x: l[COL_ENDO_VAL_X as int],
            y: l[COL_ENDO_Y as int],
            infinite: false,
        })
        &&& same(
            store.value(l[COL_BETA_PTR as int]) * store.value(l[COL_ENDO_BASE_X as int]),
            store.value(l[COL_ENDO_VAL_X as int]),
            m,
        )
    }
}

/// What a row claims.
pub open spec fn is_certified(store: Store, l: Seq<int>) -> bool {
    &&& term_is_certified(store, l)
    &&& l[COL_IS_BOUNDARY as int] == 1 ==> value_is_certified(store, l)
}

/// What the constraints say of one row, as far as its messages need it.
pub open spec fn is_row(l: Seq<int>) -> bool {
    &&& l.len() == NUM_MAIN_COLS
    &&& forall|j: int| 0 <= j < NUM_MAIN_COLS ==> is_cell(#[trigger] l[j])
    &&& flags_hold(l)
    &&& kind_holds(l)
    &&& l[COL_TAKE_A as int] + l[COL_TAKE_B as int] + l[COL_TAKE_BOTH as int]
        == l[COL_IS_COMBINE as int]
    &&& l[COL_IDX as int] + 1 < MODULUS
    &&& l[COL_I as int] + 1 < MODULUS
    &&& l[COL_J as int] + 1 < MODULUS
    &&& l[COL_IS_INTRO_ENDO as int] == 1 ==> l[COL_IS_BOUNDARY as int] == 1
}

/// The rows of a table that satisfies the constraints are such rows.
proof fn rows_are_rows(rows: Seq<Seq<int>>, i: int)
    requires
        satisfied(rows),
        0 <= i < rows.len(),
    ensures
        is_row(rows[i]),
{
    flags_are_zero_or_one(rows, i);
    rows_in_use_have_one_kind(rows, i);
    merges_take_in_turn(rows, i);
    expressions_and_terms_count_up(rows, i);
    cursors_follow_what_is_taken(rows, i);
    points_are_one_row(rows, i);
    assert forall|j: int| 0 <= j < NUM_MAIN_COLS implies is_cell(#[trigger] rows[i][j]) by {
        assert(is_cell(rows[i][j]));
    }
}

/// The multiplicities of a row.
#[verifier::spinoff_prover]
#[verifier::rlimit(30)]
proof fn multiplicities(l: Seq<int>)
    requires
        is_row(l),
    ensures
        ({
            let fs = msm_fractions(l);
            let boundary = l[COL_IS_BOUNDARY as int] == 1;
            let combine = l[COL_IS_COMBINE as int];
            let neg = l[COL_IS_NEG as int];
            let endo = l[COL_IS_INTRO_ENDO as int];
            let mult = l[COL_MULT as int];
            let claim = l[COL_CLAIM_MULT as int];
            &&& fs.len() == 24
            &&& fs[0].mult == 0 - mult
            &&& fs[1].mult == if boundary { 0 - mult - claim } else { 0 }
            &&& fs[2].mult == 0 - claim
            &&& fs[3].mult == if boundary { 0 - l[COL_NEG_MINTED as int] } else { 0 }
            &&& fs[4].mult == l[COL_IS_INTRO as int]
            &&& fs[5].mult == taken_a(l)
            &&& fs[6].mult == taken_b(l)
            &&& fs[7].mult == l[COL_TAKE_BOTH as int]
            &&& fs[8].mult == neg
            &&& forall|k: int|
                k == 9 || k == 13 || k == 14 ==> (#[trigger] fs[k]).mult == if boundary {
                    neg
                } else {
                    0
                }
            &&& forall|k: int|
                k == 10 || k == 16 || k == 17 ==> (#[trigger] fs[k]).mult == if boundary {
                    combine + neg
                } else {
                    0
                }
            &&& forall|k: int|
                k == 11 || k == 12 || k == 18 || k == 19 ==> (#[trigger] fs[k]).mult == if boundary {
                    combine
                } else {
                    0
                }
            &&& fs[15].mult == if boundary { combine + neg + endo } else { 0 }
            &&& forall|k: int| 20 <= k < 23 ==> (#[trigger] fs[k]).mult == endo
            &&& fs[23].mult == 0 - l[COL_ENDO_MINTED as int]
        }),
{
    let boundary: int = l[COL_IS_BOUNDARY as int];
    let combine: int = l[COL_IS_COMBINE as int];
    let neg: int = l[COL_IS_NEG as int];
    let endo: int = l[COL_IS_INTRO_ENDO as int];
    turned(0 - l[COL_MULT as int] + (0 - l[COL_CLAIM_MULT as int]), boundary);
    turned(l[COL_NEG_MINTED as int], boundary);
    turned(combine + neg, boundary);
    turned(combine, boundary);
    turned(neg, boundary);
    turned(combine + neg + endo, boundary);
    turned(endo, boundary);
}

/// A switch that is off takes what it multiplies away, one that is on leaves it.
proof fn turned(x: int, switch: int)
    requires
        is_flag(switch),
    ensures
        switch == 0 ==> x * switch == 0 && switch * x == 0,
        switch == 1 ==> x * switch == x && switch * x == x,
{
    assert(switch == 0 ==> x * switch == 0 && switch * x == 0) by (nonlinear_arith);
    assert(switch == 1 ==> x * switch == x && switch * x == x) by (nonlinear_arith);
}

/// The elements of every message of a row are residues.
#[verifier::spinoff_prover]
#[verifier::rlimit(30)]
proof fn elements_are_cells(l: Seq<int>, k: int)
    requires
        is_row(l),
        0 <= k < msm_fractions(l).len(),
    ensures
        payload(msm_fractions(l)[k]) == msm_fractions(l)[k].elems,
{
    let f = msm_fractions(l)[k];
    multiplicities(l);
    assert(is_cell(0) && is_cell(1));
    assert(is_cell(l[COL_IDX as int] + 1));
    assert(0 <= taken_a(l) <= 1 && 0 <= taken_b(l) <= 1);
    assert(is_cell(l[COL_I as int] + taken_a(l)));
    assert(is_cell(l[COL_J as int] + taken_b(l)));
    assert forall|i: int| 0 <= i < f.elems.len() implies is_cell(#[trigger] f.elems[i]) by {
        if k < 4 {
        } else if k < 8 {
        } else if k < 12 {
        } else if k < 16 {
        } else if k < 20 {
        } else {
        }
    }
    cells_are_residues(f);
}

/// A number of one limb.
proof fn one_limb(e: Seq<int>)
    requires
        e.len() == 10,
        e[2] == 1,
        forall|i: int| 3 <= i < 10 ==> #[trigger] e[i] == 0,
    ensures
        limbs_from(e, 2) == 1,
{
    reveal_with_fuel(limbs_from, 10);
    assert(e[3] == 0 && e[4] == 0 && e[5] == 0 && e[6] == 0 && e[7] == 0 && e[8] == 0 && e[9] == 0);
}

/// What each consumed message of a row says.
#[verifier::spinoff_prover]
#[verifier::rlimit(30)]
proof fn message_claims(store: Store, l: Seq<int>, k: int)
    requires
        is_row(l),
        4 <= k < 23,
    ensures
        msm_fractions(l).len() == 24,
        ({
            let f = msm_fractions(l)[k];
            let order = store.modulus(l[COL_SBOUND_PTR as int]);
            let m = store.modulus(l[COL_BOUND_PTR as int]);
            let group = l[COL_GROUP_PTR as int];
            let scalar = store.value(l[COL_SCALAR as int]);
            let s_a = store.value(l[COL_S_A as int]);
            let s_b = store.value(l[COL_S_B as int]);
            says(store, f.bus, f.elems) <==> if k == 4 {
                scalar == 1 && (store.bounds)(l[COL_SCALAR as int]) == l[COL_SBOUND_PTR as int]
            } else if k == 5 {
                (store.terms)(l[COL_A_EXPR as int], l[COL_I as int]) == (
                    l[COL_BASE_A as int],
                    l[COL_S_A as int],
                )
            } else if k == 6 {
                (store.terms)(l[COL_B_EXPR as int], l[COL_J as int]) == (
                    l[COL_BASE_B as int],
                    l[COL_S_B as int],
                )
            } else if k == 7 {
                same(s_a + s_b, scalar, order)
            } else if k == 8 {
                same(s_a + scalar, 0, order)
            } else if k == 9 {
                same(
                    store.value(l[COL_NEG_YA as int]) + store.value(l[COL_NEG_YR as int]),
                    0,
                    m,
                )
            } else if k == 10 {
                (store.heads)(l[COL_A_EXPR as int]) == (Head {
                    group,
                    val: l[COL_VAL_A as int],
                    count: l[COL_I as int] + taken_a(l),
                })
            } else if k == 11 {
                (store.heads)(l[COL_B_EXPR as int]) == (Head {
                    group,
                    val: l[COL_VAL_B as int],
                    count: l[COL_J as int] + taken_b(l),
                })
            } else if k == 12 {
                sums(store, group, l[COL_VAL_A as int], l[COL_VAL_B as int], l[COL_VAL as int])
            } else if k == 13 {
                (store.points)(l[COL_VAL_A as int]) == (Place {
                    group,
                    x: l[COL_NEG_X as int],
                    y: l[COL_NEG_YA as int],
                    infinite: false,
                })
            } else if k == 14 {
                (store.points)(l[COL_VAL as int]) == (Place {
                    group,
                    x: l[COL_NEG_X as int],
                    y: l[COL_NEG_YR as int],
                    infinite: false,
                })
            } else if k == 15 {
                (store.groups)(group) == (Curve {
                    a: l[COL_A_PTR as int],
                    b: l[COL_B_PTR as int],
                    bound: l[COL_BOUND_PTR as int],
                    scalar_bound: l[COL_SBOUND_PTR as int],
                    beta: l[COL_BETA_PTR as int],
                    lambda: l[COL_LAMBDA_PTR as int],
                })
            } else if k == 16 {
                l[COL_A_DIFF_LO as int] < 65536
            } else if k == 17 {
                l[COL_A_DIFF_HI as int] < 65536
            } else if k == 18 {
                l[COL_B_DIFF_LO as int] < 65536
            } else if k == 19 {
                l[COL_B_DIFF_HI as int] < 65536
            } else if k == 20 {
                (store.points)(l[COL_BASE as int]) == (Place {
                    group,
                    x: l[COL_ENDO_BASE_X as int],
                    y: l[COL_ENDO_Y as int],
                    infinite: false,
                })
            } else if k == 21 {
                (store.points)(l[COL_VAL as int]) == (Place {
                    group,
                    x: l[COL_ENDO_VAL_X as int],
                    y: l[COL_ENDO_Y as int],
                    infinite: false,
                })
            } else {
                same(
                    store.value(l[COL_BETA_PTR as int]) * store.value(l[COL_ENDO_BASE_X as int]),
                    store.value(l[COL_ENDO_VAL_X as int]),
                    m,
                )
            }
        }),
{
    let f = msm_fractions(l)[k];
    if k == 4 {
        one_limb(f.elems);
    } else if k < 8 {
    } else if k == 22 {
        let product = store.value(l[COL_BETA_PTR as int]) * store.value(l[COL_ENDO_BASE_X as int]);
        let bound = store.value(l[COL_BOUND_PTR as int]);
        let e = f.elems;
        turned(product, e[0]);
        turned(bound, e[1]);
        assert(says(store, f.bus, f.elems) == multiplies(store, e));
    } else if k < 12 {
    } else if k < 16 {
    } else if k < 20 {
    } else {
    }
}

/// The messages that a row consumes are true exactly if the stored values are what the row claims:
/// nothing less is checked, and nothing more is asked.
pub proof fn consumed_messages_certify_the_row(store: Store, rows: Seq<Seq<int>>, i: int)
    requires
        satisfied(rows),
        0 <= i < rows.len(),
    ensures
        consumes_truth(store, rows[i]) <==> is_certified(store, rows[i]),
{
    let l = rows[i];
    rows_are_rows(rows, i);
    multiplicities(l);
    if consumes_truth(store, l) {
        assert forall|k: int| 4 <= k < 23 && (#[trigger] msm_fractions(l)[k]).mult > 0 implies says(
            store,
            msm_fractions(l)[k].bus,
            msm_fractions(l)[k].elems,
        ) by {
            elements_are_cells(l, k);
        }
        message_claims(store, l, 4);
        message_claims(store, l, 5);
        message_claims(store, l, 6);
        message_claims(store, l, 7);
        message_claims(store, l, 8);
        message_claims(store, l, 9);
        message_claims(store, l, 10);
        message_claims(store, l, 11);
        message_claims(store, l, 12);
        message_claims(store, l, 13);
        message_claims(store, l, 14);
        message_claims(store, l, 15);
        message_claims(store, l, 16);
        message_claims(store, l, 17);
        message_claims(store, l, 18);
        message_claims(store, l, 19);
        message_claims(store, l, 20);
        message_claims(store, l, 21);
        message_claims(store, l, 22);
    }
    if is_certified(store, l) {
        assert forall|k: int|
            0 <= k < msm_fractions(l).len() && (#[trigger] msm_fractions(l)[k]).mult
                > 0 implies says(
            store,
            msm_fractions(l)[k].bus,
            payload(msm_fractions(l)[k]),
        ) by {
            elements_are_cells(l, k);
            assert(4 <= k < 23);
            message_claims(store, l, k);
        }
    }
}

/// The store holds the term of the row, and on the last row of an expression its head.
pub open spec fn is_recorded(store: Store, l: Seq<int>) -> bool {
    &&& (store.terms)(l[COL_EXPR_PTR as int], l[COL_IDX as int]) == (
        l[COL_BASE as int],
        l[COL_SCALAR as int],
    )
    &&& l[COL_IS_BOUNDARY as int] == 1 ==> (store.heads)(l[COL_EXPR_PTR as int]) == (Head {
        group: l[COL_GROUP_PTR as int],
        val: l[COL_VAL as int],
        count: l[COL_IDX as int] + 1,
    })
}

/// The terms and heads that a row provides are those it records.
#[verifier::spinoff_prover]
#[verifier::rlimit(40)]
pub proof fn provided_terms_are_recorded(store: Store, rows: Seq<Seq<int>>, i: int, k: int)
    requires
        satisfied(rows),
        0 <= i < rows.len(),
        is_recorded(store, rows[i]),
        rows[i][COL_IDX as int] < (store.heads)(rows[i][COL_EXPR_PTR as int]).count,
        0 <= k < msm_fractions(rows[i]).len(),
        msm_fractions(rows[i])[k].mult < 0,
        msm_fractions(rows[i])[k].bus != BusId::EcOnCurveCert,
    ensures
        says(store, msm_fractions(rows[i])[k].bus, payload(msm_fractions(rows[i])[k])),
{
    let l = rows[i];
    rows_are_rows(rows, i);
    multiplicities(l);
    elements_are_cells(l, k);
    let f = msm_fractions(l)[k];
    assert(msm_fractions(l)[3].bus == BusId::EcOnCurveCert);
    assert(msm_fractions(l)[23].bus == BusId::EcOnCurveCert);
    assert(k < 3);
    if k == 2 {
        let idx = l[COL_IDX as int];
        assert(is_cell(idx));
        assert((store.terms)(f.elems[0], idx) == (f.elems[1], f.elems[2]));
    }
}

/// How often the messages of a row count: each is consumed once or not at all, a term is provided
/// to later expressions and to claims as often as the expression is used by each, its head as often
/// as it is used by both, and membership once for a fresh result. A row that is not in use neither
/// consumes nor provides.
#[verifier::spinoff_prover]
#[verifier::rlimit(40)]
pub proof fn messages_are_counted(rows: Seq<Seq<int>>, i: int, k: int)
    requires
        satisfied(rows),
        0 <= i < rows.len(),
        0 <= k < msm_fractions(rows[i]).len(),
    ensures
        ({
            let l = rows[i];
            let f = msm_fractions(l)[k];
            let used = l[COL_MULT as int];
            let claimed = l[COL_CLAIM_MULT as int];
            &&& f.mult <= 1
            &&& f.mult < 0 ==> {
                ||| f.bus == BusId::MsmTerm && f.mult == -used
                ||| f.bus == BusId::MsmClaimTerm && f.mult == -claimed
                ||| f.bus == BusId::MsmExpr && f.mult == -(used + claimed)
                    && l[COL_IS_BOUNDARY as int] == 1
                ||| f.bus == BusId::EcOnCurveCert && f.mult == -1 && f.elems == seq![
                    l[COL_GROUP_PTR as int],
                    l[COL_VAL as int],
                ] && l[COL_NEG_MINTED as int] + l[COL_ENDO_MINTED as int] == 1
            }
            &&& l[COL_ACT as int] == 0 ==> f.mult == 0
        }),
{
    let l = rows[i];
    rows_are_rows(rows, i);
    multiplicities(l);
    let f = msm_fractions(l)[k];
    if k < 4 {
    } else if k < 9 {
    } else if k < 23 {
        assert(f.mult >= 0);
    } else {
    }
}

/// What the rows in use provide, whatever it is used for.
pub proof fn rows_provide_their_term(rows: Seq<Seq<int>>, i: int)
    requires
        satisfied(rows),
        0 <= i < rows.len(),
    ensures
        ({
            let l = rows[i];
            &&& exists|k: int|
                0 <= k < msm_fractions(l).len() && (#[trigger] msm_fractions(l)[k]).bus
                    == BusId::MsmTerm && msm_fractions(l)[k].mult == -l[COL_MULT as int]
            &&& exists|k: int|
                0 <= k < msm_fractions(l).len() && (#[trigger] msm_fractions(l)[k]).bus
                    == BusId::MsmClaimTerm && msm_fractions(l)[k].mult
                    == -l[COL_CLAIM_MULT as int]
            &&& l[COL_IS_BOUNDARY as int] == 1 ==> exists|k: int|
                0 <= k < msm_fractions(l).len() && (#[trigger] msm_fractions(l)[k]).bus
                    == BusId::MsmExpr && msm_fractions(l)[k].mult == -(l[COL_MULT as int]
                    + l[COL_CLAIM_MULT as int])
        }),
{
    let l = rows[i];
    rows_are_rows(rows, i);
    multiplicities(l);
    assert(msm_fractions(l)[0].bus == BusId::MsmTerm);
    assert(msm_fractions(l)[2].bus == BusId::MsmClaimTerm);
    assert(msm_fractions(l)[1].bus == BusId::MsmExpr);
}

// ---------------------------------------------------------------------------------------------
// Sums of scaled points
// ---------------------------------------------------------------------------------------------

/// A group that the stored points belong to: what a point is, and how two of them add.
#[verifier::reject_recursive_types(G)]
pub struct Model<G> {
    pub element: spec_fn(int) -> G,
    pub zero: G,
    pub plus: spec_fn(G, G) -> G,
}

/// Addition is that of a commutative group, as far as sums need it.
#[verifier::opaque]
pub open spec fn is_commutative<G>(model: Model<G>) -> bool {
    &&& forall|x: G, y: G| #[trigger] (model.plus)(x, y) == (model.plus)(y, x)
    &&& forall|x: G, y: G, z: G|
        #[trigger] (model.plus)((model.plus)(x, y), z) == (model.plus)(x, (model.plus)(y, z))
    &&& forall|x: G| #[trigger] (model.plus)(x, model.zero) == x
}

/// `x` added up `n` times.
pub open spec fn times<G>(model: Model<G>, n: int, x: G) -> G
    decreases n,
{
    if n <= 0 {
        model.zero
    } else {
        (model.plus)(times(model, n - 1, x), x)
    }
}

/// The sum of the first `k` terms of an expression, each base taken as often as its scalar says.
pub open spec fn total<G>(store: Store, model: Model<G>, e: int, k: int) -> G
    decreases k,
{
    if k <= 0 {
        model.zero
    } else {
        let (base, scalar) = (store.terms)(e, k - 1);
        (model.plus)(
            total(store, model, e, k - 1),
            times(model, store.value(scalar), (model.element)(base)),
        )
    }
}

/// The value of an expression is the sum of its terms.
pub open spec fn evaluates<G>(store: Store, model: Model<G>, e: int) -> bool {
    let head = (store.heads)(e);
    (model.element)(head.val) == total(store, model, e, head.count)
}

/// The stored points of a group are elements of the model: the group law adds them, mirrored points
/// are opposite, the order takes every point to zero, and the endomorphism scales by its factor.
pub open spec fn is_model<G>(store: Store, model: Model<G>, group: int) -> bool {
    let curve = (store.groups)(group);
    let m = store.modulus(curve.bound);
    let order = store.modulus(curve.scalar_bound);
    &&& is_commutative(model)
    &&& order > 0
    &&& forall|ptr: int| #[trigger] store.value(ptr) >= 0
    &&& forall|p: int, q: int, r: int|
        #[trigger] sums(store, group, p, q, r) ==> (model.element)(r) == (model.plus)(
            (model.element)(p),
            (model.element)(q),
        )
    &&& forall|p: int, r: int|
        #![trigger (store.points)(p), (store.points)(r)]
        is_mirrored(store, group, p, r) ==> (model.plus)((model.element)(r), (model.element)(p))
            == model.zero
    &&& forall|p: int| #[trigger] times(model, order, (model.element)(p)) == model.zero
    &&& forall|p: int, r: int|
        #![trigger (store.points)(p), (store.points)(r)]
        is_image(store, group, p, r) ==> (model.element)(r) == times(
            model,
            store.value(curve.lambda),
            (model.element)(p),
        )
}

/// Two points of a group with the same `x` and opposite `y`.
pub open spec fn is_mirrored(store: Store, group: int, p: int, r: int) -> bool {
    let m = store.modulus((store.groups)(group).bound);
    let from = (store.points)(p);
    let to = (store.points)(r);
    &&& from.group == group && to.group == group
    &&& !from.infinite && !to.infinite
    &&& store.value(from.x) == store.value(to.x)
    &&& same(store.value(from.y) + store.value(to.y), 0, m)
}

/// Two points of a group with the same `y`, where the `x` of the second is that of the first times
/// the factor of the endomorphism.
pub open spec fn is_image(store: Store, group: int, p: int, r: int) -> bool {
    let curve = (store.groups)(group);
    let m = store.modulus(curve.bound);
    let from = (store.points)(p);
    let to = (store.points)(r);
    &&& from.group == group && to.group == group
    &&& !from.infinite && !to.infinite
    &&& store.value(from.y) == store.value(to.y)
    &&& same(store.value(curve.beta) * store.value(from.x), store.value(to.x), m)
}

proof fn commutes<G>(model: Model<G>, x: G, y: G)
    requires
        is_commutative(model),
    ensures
        (model.plus)(x, y) == (model.plus)(y, x),
{
    reveal(is_commutative);
}

proof fn associates<G>(model: Model<G>, x: G, y: G, z: G)
    requires
        is_commutative(model),
    ensures
        (model.plus)((model.plus)(x, y), z) == (model.plus)(x, (model.plus)(y, z)),
{
    reveal(is_commutative);
}

proof fn zero_changes_nothing<G>(model: Model<G>, x: G)
    requires
        is_commutative(model),
    ensures
        (model.plus)(x, model.zero) == x,
        (model.plus)(model.zero, x) == x,
{
    reveal(is_commutative);
    assert((model.plus)(model.zero, x) == (model.plus)(x, model.zero));
}

/// Counts add.
proof fn times_add<G>(model: Model<G>, a: int, b: int, x: G)
    requires
        is_commutative(model),
        a >= 0,
        b >= 0,
    ensures
        times(model, a + b, x) == (model.plus)(times(model, a, x), times(model, b, x)),
    decreases b,
{
    if b > 0 {
        times_add(model, a, b - 1, x);
        assert(a + b - 1 == a + (b - 1));
        associates(model, times(model, a, x), times(model, b - 1, x), x);
    } else {
        zero_changes_nothing(model, times(model, a, x));
    }
}

/// A multiple of the order takes a point to zero.
proof fn times_order<G>(model: Model<G>, order: int, k: int, x: G)
    requires
        is_commutative(model),
        order > 0,
        k >= 0,
        times(model, order, x) == model.zero,
    ensures
        order * k >= 0,
        times(model, order * k, x) == model.zero,
    decreases k,
{
    if k > 0 {
        times_order(model, order, k - 1, x);
        assert(order * k == order * (k - 1) + order) by (nonlinear_arith);
        times_add(model, order * (k - 1), order, x);
        zero_changes_nothing(model, model.zero);
    } else {
        assert(order * k == 0) by (nonlinear_arith)
            requires
                k == 0,
        ;
    }
}

/// Counts that are the same modulo the order give the same.
proof fn times_same<G>(model: Model<G>, order: int, a: int, b: int, x: G)
    requires
        is_commutative(model),
        order > 0,
        a >= 0,
        b >= 0,
        same(a, b, order),
        times(model, order, x) == model.zero,
    ensures
        times(model, a, x) == times(model, b, x),
{
    let q = same_means(a, b, order);
    if q >= 0 {
        times_order(model, order, q, x);
        times_add(model, b, order * q, x);
        zero_changes_nothing(model, times(model, b, x));
    } else {
        times_order(model, order, -q, x);
        assert(order * (-q) == -(order * q)) by (nonlinear_arith);
        times_add(model, a, order * (-q), x);
        zero_changes_nothing(model, times(model, a, x));
    }
}

/// `(a + b) + (c + d)` is `(a + c) + (b + d)`.
proof fn regroup<G>(model: Model<G>, a: G, b: G, c: G, d: G)
    requires
        is_commutative(model),
    ensures
        (model.plus)((model.plus)(a, b), (model.plus)(c, d)) == (model.plus)(
            (model.plus)(a, c),
            (model.plus)(b, d),
        ),
{
    let p = model.plus;
    associates(model, a, b, p(c, d));
    associates(model, b, c, d);
    commutes(model, b, c);
    associates(model, c, b, d);
    associates(model, a, c, p(b, d));
}

/// A term of a merge is what was taken from the operands, in the group.
pub proof fn merged_terms_add_up<G>(
    store: Store,
    model: Model<G>,
    rows: Seq<Seq<int>>,
    i: int,
)
    requires
        satisfied(rows),
        0 <= i < rows.len(),
        rows[i][COL_IS_COMBINE as int] == 1,
        consumes_truth(store, rows[i]),
        is_model(store, model, rows[i][COL_GROUP_PTR as int]),
        (store.groups)(rows[i][COL_GROUP_PTR as int]).scalar_bound == rows[i][COL_SBOUND_PTR as int],
    ensures
        ({
            let l = rows[i];
            let term = times(
                model,
                store.value(l[COL_SCALAR as int]),
                (model.element)(l[COL_BASE as int]),
            );
            let (base_a, s_a) = (store.terms)(l[COL_A_EXPR as int], l[COL_I as int]);
            let (base_b, s_b) = (store.terms)(l[COL_B_EXPR as int], l[COL_J as int]);
            let from_a = times(model, store.value(s_a), (model.element)(base_a));
            let from_b = times(model, store.value(s_b), (model.element)(base_b));
            &&& l[COL_TAKE_A as int] == 1 ==> term == from_a
            &&& l[COL_TAKE_B as int] == 1 ==> term == from_b
            &&& l[COL_TAKE_BOTH as int] == 1 ==> {
                &&& base_a == base_b && base_a == l[COL_BASE as int]
                &&& same(
                    store.value(l[COL_SCALAR as int]),
                    store.value(s_a) + store.value(s_b),
                    store.modulus(l[COL_SBOUND_PTR as int]),
                )
                &&& term == (model.plus)(from_a, from_b)
            }
        }),
{
    let l = rows[i];
    rows_are_rows(rows, i);
    merges_take_in_turn(rows, i);
    consumed_messages_certify_the_row(store, rows, i);
    if l[COL_TAKE_BOTH as int] == 1 {
        let order = store.modulus(l[COL_SBOUND_PTR as int]);
        let x = (model.element)(l[COL_BASE as int]);
        let s_a = store.value(l[COL_S_A as int]);
        let s_b = store.value(l[COL_S_B as int]);
        let scalar = store.value(l[COL_SCALAR as int]);
        assert(times(model, order, x) == model.zero);
        same_turned(s_a + s_b, scalar, order);
        times_same(model, order, s_a + s_b, scalar, x);
        times_add(model, s_a, s_b, x);
    }
}

/// A term of a negation and the term it is taken from cancel, in the group.
pub proof fn negated_terms_cancel<G>(
    store: Store,
    model: Model<G>,
    rows: Seq<Seq<int>>,
    i: int,
)
    requires
        satisfied(rows),
        0 <= i < rows.len(),
        rows[i][COL_IS_NEG as int] == 1,
        consumes_truth(store, rows[i]),
        is_model(store, model, rows[i][COL_GROUP_PTR as int]),
        (store.groups)(rows[i][COL_GROUP_PTR as int]).scalar_bound == rows[i][COL_SBOUND_PTR as int],
    ensures
        ({
            let l = rows[i];
            let term = times(
                model,
                store.value(l[COL_SCALAR as int]),
                (model.element)(l[COL_BASE as int]),
            );
            let (base_a, s_a) = (store.terms)(l[COL_A_EXPR as int], l[COL_I as int]);
            let from_a = times(model, store.value(s_a), (model.element)(base_a));
            &&& base_a == l[COL_BASE as int]
            &&& same(
                store.value(l[COL_SCALAR as int]) + store.value(s_a),
                0,
                store.modulus(l[COL_SBOUND_PTR as int]),
            )
            &&& (model.plus)(term, from_a) == model.zero
        }),
{
    let l = rows[i];
    rows_are_rows(rows, i);
    merges_take_in_turn(rows, i);
    consumed_messages_certify_the_row(store, rows, i);
    let order = store.modulus(l[COL_SBOUND_PTR as int]);
    let x = (model.element)(l[COL_BASE as int]);
    let s_a = store.value(l[COL_S_A as int]);
    let scalar = store.value(l[COL_SCALAR as int]);
    assert(times(model, order, x) == model.zero);
    assert(s_a + scalar == scalar + s_a);
    times_same(model, order, scalar + s_a, 0, x);
    times_add(model, scalar, s_a, x);
}

/// The rows up to `last` from the first one of its expression: their messages are true and their
/// terms are stored.
pub open spec fn run_is_true(store: Store, rows: Seq<Seq<int>>, last: int) -> bool {
    forall|i: int|
        last - rows[last][COL_IDX as int] <= i <= last ==> consumes_truth(
            store,
            #[trigger] rows[i],
        ) && is_recorded(store, rows[i])
}

/// The first row of an expression, and what it shares with the rows before `i`.
proof fn run_before(store: Store, rows: Seq<Seq<int>>, i: int)
    requires
        satisfied(rows),
        0 <= i < rows.len(),
    ensures
        rows[i][COL_IDX as int] <= i,
        rows[i][COL_IDX as int] == 0 ==> rows[i][COL_I as int] == 0 && rows[i][COL_J as int] == 0,
        rows[i][COL_IDX as int] > 0 ==> {
            &&& i > 0
            &&& rows[i - 1][COL_IS_BOUNDARY as int] == 0
            &&& rows[i - 1][COL_IDX as int] == rows[i][COL_IDX as int] - 1
            &&& rows[i - 1][COL_EXPR_PTR as int] == rows[i][COL_EXPR_PTR as int]
            &&& is_same_expression(rows[i - 1], rows[i])
            &&& rows[i][COL_I as int] == rows[i - 1][COL_I as int] + taken_a(rows[i - 1])
            &&& rows[i][COL_J as int] == rows[i - 1][COL_J as int] + taken_b(rows[i - 1])
        },
{
    expressions_and_terms_count_up(rows, i);
    cursors_follow_what_is_taken(rows, i);
    if i > 0 {
        expressions_and_terms_count_up(rows, i - 1);
        flags_are_zero_or_one(rows, i - 1);
        rows_are_rows(rows, i - 1);
        if rows[i - 1][COL_IS_BOUNDARY as int] == 0 {
            expressions_are_uniform(rows, i - 1);
        }
    }
}

/// Up to any row of a merge, the terms add up to those taken from the operands.
#[verifier::spinoff_prover]
#[verifier::rlimit(30)]
proof fn merge_so_far<G>(store: Store, model: Model<G>, rows: Seq<Seq<int>>, i: int)
    requires
        satisfied(rows),
        0 <= i < rows.len(),
        rows[i][COL_IS_COMBINE as int] == 1,
        run_is_true(store, rows, i),
        is_model(store, model, rows[i][COL_GROUP_PTR as int]),
        (store.groups)(rows[i][COL_GROUP_PTR as int]).scalar_bound == rows[i][COL_SBOUND_PTR as int],
    ensures
        ({
            let l = rows[i];
            total(store, model, l[COL_EXPR_PTR as int], l[COL_IDX as int] + 1) == (model.plus)(
                total(store, model, l[COL_A_EXPR as int], l[COL_I as int] + taken_a(l)),
                total(store, model, l[COL_B_EXPR as int], l[COL_J as int] + taken_b(l)),
            )
        }),
    decreases i,
{
    let l = rows[i];
    rows_are_rows(rows, i);
    run_before(store, rows, i);
    merges_take_in_turn(rows, i);
    assert(consumes_truth(store, rows[i]) && is_recorded(store, rows[i]));
    merged_terms_add_up(store, model, rows, i);
    let e = l[COL_EXPR_PTR as int];
    let a = l[COL_A_EXPR as int];
    let b = l[COL_B_EXPR as int];
    let idx = l[COL_IDX as int];
    let at = l[COL_I as int];
    let bt = l[COL_J as int];
    assert(is_cell(idx) && is_cell(at) && is_cell(bt));
    if idx > 0 {
        assert(run_is_true(store, rows, i - 1)) by {
            assert forall|j: int|
                i - 1 - rows[i - 1][COL_IDX as int] <= j <= i - 1 implies consumes_truth(
                store,
                #[trigger] rows[j],
            ) && is_recorded(store, rows[j]) by {
                assert(i - rows[i][COL_IDX as int] <= j <= i);
            }
        }
        merge_so_far(store, model, rows, i - 1);
    } else {
        zero_changes_nothing(model, model.zero);
    }
    let before_a = total(store, model, a, at);
    let before_b = total(store, model, b, bt);
    assert(total(store, model, e, idx) == (model.plus)(before_a, before_b));
    let term = times(
        model,
        store.value(l[COL_SCALAR as int]),
        (model.element)(l[COL_BASE as int]),
    );
    let (base_a, s_a) = (store.terms)(a, at);
    let (base_b, s_b) = (store.terms)(b, bt);
    let from_a = times(model, store.value(s_a), (model.element)(base_a));
    let from_b = times(model, store.value(s_b), (model.element)(base_b));
    assert(total(store, model, e, idx + 1) == (model.plus)(total(store, model, e, idx), term));
    assert(total(store, model, a, at + 1) == (model.plus)(before_a, from_a));
    assert(total(store, model, b, bt + 1) == (model.plus)(before_b, from_b));
    if l[COL_TAKE_BOTH as int] == 1 {
        regroup(model, before_a, before_b, from_a, from_b);
    } else if l[COL_TAKE_A as int] == 1 {
        regroup(model, before_a, before_b, from_a, model.zero);
        zero_changes_nothing(model, before_b);
        zero_changes_nothing(model, from_a);
    } else {
        regroup(model, before_a, before_b, model.zero, from_b);
        zero_changes_nothing(model, before_a);
        zero_changes_nothing(model, from_b);
    }
}

/// Up to any row of a negation, the terms cancel those taken from the operand.
#[verifier::spinoff_prover]
#[verifier::rlimit(30)]
proof fn negation_so_far<G>(store: Store, model: Model<G>, rows: Seq<Seq<int>>, i: int)
    requires
        satisfied(rows),
        0 <= i < rows.len(),
        rows[i][COL_IS_NEG as int] == 1,
        run_is_true(store, rows, i),
        is_model(store, model, rows[i][COL_GROUP_PTR as int]),
        (store.groups)(rows[i][COL_GROUP_PTR as int]).scalar_bound == rows[i][COL_SBOUND_PTR as int],
    ensures
        ({
            let l = rows[i];
            (model.plus)(
                total(store, model, l[COL_EXPR_PTR as int], l[COL_IDX as int] + 1),
                total(store, model, l[COL_A_EXPR as int], l[COL_I as int] + taken_a(l)),
            ) == model.zero
        }),
    decreases i,
{
    let l = rows[i];
    rows_are_rows(rows, i);
    run_before(store, rows, i);
    merges_take_in_turn(rows, i);
    assert(consumes_truth(store, rows[i]) && is_recorded(store, rows[i]));
    negated_terms_cancel(store, model, rows, i);
    let e = l[COL_EXPR_PTR as int];
    let a = l[COL_A_EXPR as int];
    let idx = l[COL_IDX as int];
    let at = l[COL_I as int];
    assert(is_cell(idx) && is_cell(at));
    zero_changes_nothing(model, model.zero);
    if idx > 0 {
        assert(run_is_true(store, rows, i - 1)) by {
            assert forall|j: int|
                i - 1 - rows[i - 1][COL_IDX as int] <= j <= i - 1 implies consumes_truth(
                store,
                #[trigger] rows[j],
            ) && is_recorded(store, rows[j]) by {
                assert(i - rows[i][COL_IDX as int] <= j <= i);
            }
        }
        negation_so_far(store, model, rows, i - 1);
    }
    let term = times(
        model,
        store.value(l[COL_SCALAR as int]),
        (model.element)(l[COL_BASE as int]),
    );
    let (base_a, s_a) = (store.terms)(a, at);
    let from_a = times(model, store.value(s_a), (model.element)(base_a));
    assert(total(store, model, e, idx + 1) == (model.plus)(total(store, model, e, idx), term));
    assert(total(store, model, a, at + 1) == (model.plus)(total(store, model, a, at), from_a));
    regroup(model, total(store, model, e, idx), term, total(store, model, a, at), from_a);
}

/// What cancels the same is the same.
proof fn opposites_agree<G>(model: Model<G>, x: G, y: G, z: G)
    requires
        is_commutative(model),
        (model.plus)(x, z) == model.zero,
        (model.plus)(y, z) == model.zero,
    ensures
        x == y,
{
    let p = model.plus;
    zero_changes_nothing(model, x);
    zero_changes_nothing(model, y);
    associates(model, x, y, z);
    commutes(model, x, y);
    associates(model, y, x, z);
}

/// The value of an expression is the sum of its terms, if the values of its operands are the sums
/// of theirs.
#[verifier::spinoff_prover]
#[verifier::rlimit(30)]
pub proof fn expressions_evaluate<G>(
    store: Store,
    model: Model<G>,
    rows: Seq<Seq<int>>,
    last: int,
)
    requires
        satisfied(rows),
        0 <= last < rows.len(),
        rows[last][COL_IS_BOUNDARY as int] == 1,
        run_is_true(store, rows, last),
        is_model(store, model, rows[last][COL_GROUP_PTR as int]),
        rows[last][COL_IS_COMBINE as int] == 1 || rows[last][COL_IS_NEG as int] == 1 ==> evaluates(
            store,
            model,
            rows[last][COL_A_EXPR as int],
        ),
        rows[last][COL_IS_COMBINE as int] == 1 ==> evaluates(
            store,
            model,
            rows[last][COL_B_EXPR as int],
        ),
    ensures
        evaluates(store, model, rows[last][COL_EXPR_PTR as int]),
        (model.element)(rows[last][COL_VAL as int]) == total(
            store,
            model,
            rows[last][COL_EXPR_PTR as int],
            rows[last][COL_IDX as int] + 1,
        ),
{
    let l = rows[last];
    rows_are_rows(rows, last);
    run_before(store, rows, last);
    points_are_one_row(rows, last);
    assert(is_cell(l[COL_IDX as int]));
    assert(consumes_truth(store, rows[last]) && is_recorded(store, rows[last]));
    consumed_messages_certify_the_row(store, rows, last);
    let group = l[COL_GROUP_PTR as int];
    let e = l[COL_EXPR_PTR as int];
    let val = (model.element)(l[COL_VAL as int]);
    let p = model.plus;
    if l[COL_IS_COMBINE as int] == 1 {
        merge_so_far(store, model, rows, last);
        assert(sums(
            store,
            group,
            l[COL_VAL_A as int],
            l[COL_VAL_B as int],
            l[COL_VAL as int],
        ));
    } else if l[COL_IS_NEG as int] == 1 {
        negation_so_far(store, model, rows, last);
        let a = (model.element)(l[COL_VAL_A as int]);
        assert(is_mirrored(store, group, l[COL_VAL_A as int], l[COL_VAL as int]));
        assert(p(val, a) == model.zero);
        opposites_agree(
            model,
            val,
            total(store, model, e, l[COL_IDX as int] + 1),
            a,
        );
    } else {
        if l[COL_IDX as int] > 0 {
            assert(l[COL_IS_INTRO as int] + l[COL_IS_INTRO_ENDO as int] == 1);
            points_are_one_row(rows, last - 1);
            assert(false);
        }
        let base = (model.element)(l[COL_BASE as int]);
        let scalar = store.value(l[COL_SCALAR as int]);
        assert(total(store, model, e, 0) == model.zero);
        assert(total(store, model, e, 1) == p(model.zero, times(model, scalar, base)));
        zero_changes_nothing(model, times(model, scalar, base));
        if l[COL_IS_INTRO as int] == 1 {
            assert(times(model, 0, base) == model.zero);
            assert(times(model, 1, base) == p(model.zero, base));
            zero_changes_nothing(model, base);
        } else {
            assert(is_image(store, group, l[COL_BASE as int], l[COL_VAL as int]));
        }
    }
}

/// An expression that the table ends.
pub open spec fn is_ended(rows: Seq<Seq<int>>, last: int, e: int) -> bool {
    &&& 0 <= last < rows.len()
    &&& rows[last][COL_IS_BOUNDARY as int] == 1
    &&& rows[last][COL_EXPR_PTR as int] == e
}

/// Every expression that the table takes as an operand is one it ends itself.
pub open spec fn operands_are_ended(rows: Seq<Seq<int>>) -> bool {
    forall|i: int|
        0 <= i < rows.len() && (#[trigger] rows[i])[COL_IS_BOUNDARY as int] == 1 ==> {
            let l = rows[i];
            &&& l[COL_IS_COMBINE as int] == 1 || l[COL_IS_NEG as int] == 1 ==> exists|j: int|
                is_ended(rows, j, l[COL_A_EXPR as int])
            &&& l[COL_IS_COMBINE as int] == 1 ==> exists|j: int|
                is_ended(rows, j, l[COL_B_EXPR as int])
        }
}

/// In a table whose messages are true and whose operands are its own, the value of every expression
/// is the sum of its terms, each base taken as often as its scalar says.
#[verifier::spinoff_prover]
#[verifier::rlimit(30)]
pub proof fn values_are_sums_of_scaled_bases<G>(
    store: Store,
    model: Model<G>,
    rows: Seq<Seq<int>>,
    last: int,
)
    requires
        satisfied(rows),
        rows.len() < MODULUS - 0x1_0000_0000,
        forall|i: int|
            0 <= i < rows.len() ==> consumes_truth(store, #[trigger] rows[i]) && is_recorded(
                store,
                rows[i],
            ),
        operands_are_ended(rows),
        is_ended(rows, last, rows[last][COL_EXPR_PTR as int]),
        is_model(store, model, rows[last][COL_GROUP_PTR as int]),
    ensures
        evaluates(store, model, rows[last][COL_EXPR_PTR as int]),
    decreases rows[last][COL_EXPR_PTR as int],
{
    let l = rows[last];
    rows_are_rows(rows, last);
    expressions_and_terms_count_up(rows, last);
    operands_are_older(rows, last);
    assert(consumes_truth(store, rows[last]));
    consumed_messages_certify_the_row(store, rows, last);
    assert(is_cell(l[COL_A_DIFF_LO as int]) && is_cell(l[COL_A_DIFF_HI as int]));
    assert(is_cell(l[COL_B_DIFF_LO as int]) && is_cell(l[COL_B_DIFF_HI as int]));
    assert(is_cell(l[COL_EXPR_PTR as int]));
    if l[COL_IS_COMBINE as int] == 1 || l[COL_IS_NEG as int] == 1 {
        let a = l[COL_A_EXPR as int];
        let j = choose|j: int| is_ended(rows, j, a);
        expressions_and_terms_count_up(rows, j);
        lemma_small_mod(
            (a + 1 + l[COL_A_DIFF_LO as int] + 65536 * l[COL_A_DIFF_HI as int]) as nat,
            MODULUS as nat,
        );
        assert(is_recorded(store, rows[j]));
        values_are_sums_of_scaled_bases(store, model, rows, j);
    }
    if l[COL_IS_COMBINE as int] == 1 {
        let b = l[COL_B_EXPR as int];
        let j = choose|j: int| is_ended(rows, j, b);
        expressions_and_terms_count_up(rows, j);
        lemma_small_mod(
            (b + 1 + l[COL_B_DIFF_LO as int] + 65536 * l[COL_B_DIFF_HI as int]) as nat,
            MODULUS as nat,
        );
        assert(is_recorded(store, rows[j]));
        values_are_sums_of_scaled_bases(store, model, rows, j);
    }
    assert(run_is_true(store, rows, last));
    expressions_evaluate(store, model, rows, last);
}

// ---------------------------------------------------------------------------------------------
// Certificates
// ---------------------------------------------------------------------------------------------

/// Products of numbers that are the same are the same.
proof fn same_products(a: int, b: int, c: int, d: int, m: int)
    requires
        same(a, b, m),
        same(c, d, m),
        m > 0,
    ensures
        same(a * c, b * d, m),
{
    same_scaled(a, c, d, m);
    same_scaled(d, a, b, m);
    assert(a * d == d * a && b * d == d * b) by (nonlinear_arith);
    same_through(a * c, a * d, b * d, m);
}

/// The mirror image of a point of the curve is on it.
proof fn mirrored_on_curve(a: int, b: int, m: int, x: int, y: int, z: int)
    requires
        m > 0,
        on_curve(a, b, m, x, y),
        same(y + z, 0, m),
    ensures
        on_curve(a, b, m, x, z),
{
    same_scaled(z - y, y + z, 0, m);
    assert((z - y) * (y + z) == z * z - y * y && (z - y) * 0 == 0) by (nonlinear_arith);
    assert(same(z * z, y * y, m));
    same_through(z * z, y * y, x * x * x + a * x + b, m);
}

/// On a curve without a linear term, scaling `x` by a cube root of one leads to the curve again.
proof fn scaled_on_curve(a: int, b: int, m: int, beta: int, x: int, v: int, y: int)
    requires
        m > 0,
        on_curve(a, b, m, x, y),
        same(a, 0, m),
        same(beta * beta * beta, 1, m),
        same(beta * x, v, m),
    ensures
        on_curve(a, b, m, v, y),
{
    let w = beta * x;
    same_products(w, v, w, v, m);
    same_products(w * w, v * v, w, v, m);
    assert(w * w * w == beta * beta * beta * (x * x * x)) by (nonlinear_arith)
        requires
            w == beta * x,
    ;
    same_itself(x * x * x, m);
    same_products(beta * beta * beta, 1, x * x * x, x * x * x, m);
    assert(1 * (x * x * x) == x * x * x);
    same_turned(w * w * w, x * x * x, m);
    same_through(x * x * x, w * w * w, v * v * v, m);
    same_itself(x, m);
    same_itself(v, m);
    same_products(a, 0, x, x, m);
    same_products(a, 0, v, v, m);
    assert(0 * x == 0 && 0 * v == 0);
    same_turned(a * v, 0, m);
    same_through(a * x, 0, a * v, m);
    same_together(x * x * x, v * v * v, a * x, a * v, m);
    same_itself(b, m);
    same_together(x * x * x + a * x, v * v * v + a * v, b, b, m);
    same_through(y * y, x * x * x + a * x + b, v * v * v + a * v + b, m);
}

/// The factor of the endomorphism of a group is a cube root of one, and its curve has no linear
/// term.
pub open spec fn has_endomorphism(store: Store, group: int) -> bool {
    let curve = (store.groups)(group);
    let m = store.modulus(curve.bound);
    let beta = store.value(curve.beta);
    &&& same(beta * beta * beta, 1, m)
    &&& same(store.value(curve.a), 0, m)
}

/// A row vouches only for points of the curve: the opposite of a point of the curve, or its image
/// under the endomorphism.
pub proof fn certificates_are_true(store: Store, rows: Seq<Seq<int>>, i: int, k: int)
    requires
        satisfied(rows),
        0 <= i < rows.len(),
        consumes_truth(store, rows[i]),
        rows[i][COL_IS_BOUNDARY as int] == 1,
        store.modulus(rows[i][COL_BOUND_PTR as int]) > 0,
        rows[i][COL_IS_NEG as int] == 1 ==> is_member(
            store,
            rows[i][COL_GROUP_PTR as int],
            rows[i][COL_VAL_A as int],
        ),
        rows[i][COL_IS_INTRO_ENDO as int] == 1 ==> is_member(
            store,
            rows[i][COL_GROUP_PTR as int],
            rows[i][COL_BASE as int],
        ) && has_endomorphism(store, rows[i][COL_GROUP_PTR as int]),
        0 <= k < msm_fractions(rows[i]).len(),
        msm_fractions(rows[i])[k].bus == BusId::EcOnCurveCert,
        msm_fractions(rows[i])[k].mult != 0,
    ensures
        says(store, BusId::EcOnCurveCert, payload(msm_fractions(rows[i])[k])),
{
    let l = rows[i];
    rows_are_rows(rows, i);
    messages_are_counted(rows, i, k);
    elements_are_cells(l, k);
    consumed_messages_certify_the_row(store, rows, i);
    multiplicities(l);
    certificate_places(l, k);
    let m = store.modulus(l[COL_BOUND_PTR as int]);
    let a = store.value(l[COL_A_PTR as int]);
    let b = store.value(l[COL_B_PTR as int]);
    if l[COL_IS_NEG as int] == 1 {
        mirrored_on_curve(
            a,
            b,
            m,
            store.value(l[COL_NEG_X as int]),
            store.value(l[COL_NEG_YA as int]),
            store.value(l[COL_NEG_YR as int]),
        );
    } else {
        scaled_on_curve(
            a,
            b,
            m,
            store.value(l[COL_BETA_PTR as int]),
            store.value(l[COL_ENDO_BASE_X as int]),
            store.value(l[COL_ENDO_VAL_X as int]),
            store.value(l[COL_ENDO_Y as int]),
        );
    }
}

/// The certificates of a row stand behind its head and at its end.
#[verifier::spinoff_prover]
#[verifier::rlimit(30)]
proof fn certificate_places(l: Seq<int>, k: int)
    requires
        0 <= k < msm_fractions(l).len(),
        msm_fractions(l)[k].bus == BusId::EcOnCurveCert,
    ensures
        k == 3 || k == 23,
        msm_fractions(l)[k].elems == seq![l[COL_GROUP_PTR as int], l[COL_VAL as int]],
{
}

} // verus!
