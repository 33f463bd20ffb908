//! What the point store proves: its pointers are dense, and every stored point is at infinity or on
//! the curve of its group.

use crate::precompiles::ec::groups::group_fractions;
use crate::precompiles::ec::groups::{
    COL_A_PTR as GROUP_A_PTR, COL_BETA_PTR as GROUP_BETA_PTR, COL_BOUND_PTR as GROUP_BOUND_PTR,
    COL_B_PTR as GROUP_B_PTR, COL_LAMBDA_PTR as GROUP_LAMBDA_PTR, COL_MULT as GROUP_MULT,
    COL_PTR as GROUP_PTR, COL_SBOUND_PTR as GROUP_SBOUND_PTR, NUM_MAIN_COLS as GROUP_COLS,
};
use crate::precompiles::ec::{
    point_demands, point_fractions, COL_ACT, COL_A_PTR, COL_BETA_PTR, COL_BOUND_PTR, COL_B_PTR,
    COL_ECPOINT_MULT, COL_GROUP_PTR, COL_IS_CERT, COL_IS_PAI, COL_LAMBDA_PTR, COL_PTR,
    COL_SBOUND_PTR, COL_U_PTR, COL_W_PTR, COL_X_PTR, COL_Y_PTR, NUM_MAIN_COLS,
};
use crate::precompiles::field::MODULUS;
use crate::precompiles::logup::Rows;
use crate::precompiles::meaning::{
    cells_are_residues, counts, is_member, is_true, multiplies, payload, same, same_itself,
    same_scaled, same_through, same_together, same_turned, says, Curve, Place, Store,
};
use crate::precompiles::relations::BusId;
use crate::precompiles::trace::{
    following, is_cell, is_flag, is_met, is_table, met_by_residue, released, residue_of, same_cell,
    small_and_zero, switched, vanishes, zero_or_one,
};
use vstd::arithmetic::div_mod::lemma_small_mod;
use vstd::prelude::*;

verus! {

/// Whether a table satisfies the constraints of the point store.
pub open spec fn satisfied(rows: Seq<Seq<int>>) -> bool {
    &&& is_table(rows, NUM_MAIN_COLS as int)
    &&& forall|i: int|
        0 <= i < rows.len() ==> is_met(
            #[trigger] point_demands(rows[i], following(rows, i)),
            i == 0,
            i == rows.len() - 1,
        )
}

/// The rules of one row: its flags are flags, a point at infinity has no coordinates and needs no
/// certificate, only a finite point that is not certified has intermediate values, and only a row in
/// use provides its point.
pub open spec fn row_holds(l: Seq<int>) -> bool {
    &&& is_flag(l[COL_IS_PAI as int])
    &&& is_flag(l[COL_IS_CERT as int])
    &&& is_flag(l[COL_ACT as int])
    &&& l[COL_IS_PAI as int] == 1 ==> {
        &&& l[COL_IS_CERT as int] == 0
        &&& l[COL_X_PTR as int] == 0
        &&& l[COL_Y_PTR as int] == 0
    }
    &&& l[COL_IS_PAI as int] == 1 || l[COL_IS_CERT as int] == 1 ==> {
        &&& l[COL_U_PTR as int] == 0
        &&& l[COL_W_PTR as int] == 0
    }
    &&& l[COL_ACT as int] == 0 ==> l[COL_ECPOINT_MULT as int] == 0
}

/// The rule of two rows: the rows in use come first, and their pointers count up.
pub open spec fn step_holds(l: Seq<int>, n: Seq<int>) -> bool {
    n[COL_ACT as int] == 1 ==> {
        &&& l[COL_ACT as int] == 1
        &&& n[COL_PTR as int] == (l[COL_PTR as int] + 1) % (MODULUS as int)
    }
}

/// What the rules of the store are.
pub open spec fn is_store(rows: Seq<Seq<int>>) -> bool {
    &&& is_table(rows, NUM_MAIN_COLS as int)
    &&& forall|i: int| 0 <= i < rows.len() ==> row_holds(#[trigger] rows[i])
    &&& forall|i: int| 0 <= i < rows.len() - 1 ==> step_holds(#[trigger] rows[i], rows[i + 1])
    &&& rows[0][COL_PTR as int] == rows[0][COL_ACT as int]
}

proof fn off_or_zero(flag: int, x: int)
    requires
        is_flag(flag),
        is_cell(x),
        (flag * x) % (MODULUS as int) == 0,
    ensures
        flag == 1 ==> x == 0,
{
    if flag == 1 {
        released(flag, x);
        small_and_zero(x);
    }
}

/// The constraints of a row of the store say what its rules say.
#[verifier::spinoff_prover]
#[verifier::rlimit(30)]
proof fn rules_follow(rows: Seq<Seq<int>>, i: int)
    requires
        satisfied(rows),
        0 <= i < rows.len(),
    ensures
        row_holds(rows[i]),
        i < rows.len() - 1 ==> rows[i + 1][COL_ACT as int] == 1 ==> step_holds(rows[i], rows[i + 1]),
        i == 0 ==> rows[0][COL_PTR as int] == rows[0][COL_ACT as int],
{
    let l = rows[i];
    let n = following(rows, i);
    let d = point_demands(l, n);
    assert(is_met(d, i == 0, i == rows.len() - 1));
    let pai: int = l[COL_IS_PAI as int];
    let cert: int = l[COL_IS_CERT as int];
    let act: int = l[COL_ACT as int];
    assert(is_cell(rows[i][COL_IS_PAI as int]) && is_cell(rows[i][COL_IS_CERT as int]));
    assert(is_cell(rows[i][COL_ACT as int]) && is_cell(rows[i][COL_X_PTR as int]));
    assert(is_cell(rows[i][COL_Y_PTR as int]) && is_cell(rows[i][COL_U_PTR as int]));
    assert(is_cell(rows[i][COL_W_PTR as int]) && is_cell(rows[i][COL_ECPOINT_MULT as int]));
    assert(is_cell(rows[i][COL_PTR as int]));
    assert(d[0] == (Rows::All, pai * (1 - pai)));
    assert(d[1] == (Rows::All, cert * (1 - cert)));
    assert(d[2] == (Rows::All, act * (1 - act)));
    zero_or_one(pai);
    zero_or_one(cert);
    zero_or_one(act);
    assert(d[3] == (Rows::All, pai * cert));
    off_or_zero(pai, cert);
    assert(d[4] == (Rows::All, pai * l[COL_X_PTR as int]));
    off_or_zero(pai, l[COL_X_PTR as int]);
    assert(d[5] == (Rows::All, pai * l[COL_Y_PTR as int]));
    off_or_zero(pai, l[COL_Y_PTR as int]);
    assert(d[6] == (Rows::All, pai * l[COL_U_PTR as int]));
    off_or_zero(pai, l[COL_U_PTR as int]);
    assert(d[7] == (Rows::All, pai * l[COL_W_PTR as int]));
    off_or_zero(pai, l[COL_W_PTR as int]);
    assert(d[8] == (Rows::All, cert * l[COL_U_PTR as int]));
    off_or_zero(cert, l[COL_U_PTR as int]);
    assert(d[9] == (Rows::All, cert * l[COL_W_PTR as int]));
    off_or_zero(cert, l[COL_W_PTR as int]);
    assert(d[10] == (Rows::All, (1 - act) * l[COL_ECPOINT_MULT as int]));
    off_or_zero(1 - act, l[COL_ECPOINT_MULT as int]);
    if i < rows.len() - 1 && rows[i + 1][COL_ACT as int] == 1 {
        assert(n == rows[i + 1]);
        let next: int = n[COL_ACT as int];
        assert(is_cell(rows[i + 1][COL_ACT as int]) && is_cell(rows[i + 1][COL_PTR as int]));
        assert(d[11] == (Rows::AllButLast, (1 - act) * next));
        off_or_zero(1 - act, next);
        let step: int = n[COL_PTR as int] - l[COL_PTR as int] - 1;
        assert(d[12] == (Rows::AllButLast, next * step));
        released(next, step);
        residue_of(n[COL_PTR as int], l[COL_PTR as int] + 1);
    }
    if i == 0 {
        assert(d[13] == (Rows::First, l[COL_PTR as int] - act));
        same_cell(l[COL_PTR as int], act);
    }
}

/// The rules of a row say what its constraints say.
#[verifier::spinoff_prover]
#[verifier::rlimit(30)]
proof fn constraints_follow(rows: Seq<Seq<int>>, i: int)
    requires
        is_store(rows),
        0 <= i < rows.len(),
    ensures
        is_met(point_demands(rows[i], following(rows, i)), i == 0, i == rows.len() - 1),
{
    let l = rows[i];
    let n = following(rows, i);
    let d = point_demands(l, n);
    assert(row_holds(rows[i]));
    let pai: int = l[COL_IS_PAI as int];
    let cert: int = l[COL_IS_CERT as int];
    let act: int = l[COL_ACT as int];
    vanishes(pai, 1 - pai);
    vanishes(cert, 1 - cert);
    vanishes(act, 1 - act);
    vanishes(pai, cert);
    vanishes(pai, l[COL_X_PTR as int]);
    vanishes(pai, l[COL_Y_PTR as int]);
    vanishes(pai, l[COL_U_PTR as int]);
    vanishes(pai, l[COL_W_PTR as int]);
    vanishes(cert, l[COL_U_PTR as int]);
    vanishes(cert, l[COL_W_PTR as int]);
    vanishes(1 - act, l[COL_ECPOINT_MULT as int]);
    if i < rows.len() - 1 {
        assert(step_holds(rows[i], rows[i + 1]));
        assert(row_holds(rows[i + 1]));
        let next: int = n[COL_ACT as int];
        vanishes(1 - act, next);
        met_by_residue(next, n[COL_PTR as int], l[COL_PTR as int] + 1);
        assert(next * (n[COL_PTR as int] - l[COL_PTR as int] - 1) == next * (n[COL_PTR as int] - (
        l[COL_PTR as int] + 1)));
    }
    lemma_small_mod(0, MODULUS as nat);
    assert(d.len() == 14);
}

/// The constraints of the point store are its rules: no table that breaks one satisfies them, and
/// every table that keeps them does.
pub proof fn constraints_are_the_rules(rows: Seq<Seq<int>>)
    requires
        is_table(rows, NUM_MAIN_COLS as int),
    ensures
        satisfied(rows) <==> is_store(rows),
{
    if satisfied(rows) {
        assert forall|i: int| 0 <= i < rows.len() implies row_holds(#[trigger] rows[i]) by {
            rules_follow(rows, i);
        }
        assert forall|i: int| 0 <= i < rows.len() - 1 implies step_holds(
            #[trigger] rows[i],
            rows[i + 1],
        ) by {
            rules_follow(rows, i);
        }
        rules_follow(rows, 0);
    }
    if is_store(rows) {
        assert forall|i: int| 0 <= i < rows.len() implies is_met(
            #[trigger] point_demands(rows[i], following(rows, i)),
            i == 0,
            i == rows.len() - 1,
        ) by {
            constraints_follow(rows, i);
        }
    }
}

/// The rows in use are a prefix of the store, and each has its number for a pointer, from one on.
pub proof fn pointers_are_row_numbers(rows: Seq<Seq<int>>, i: int)
    requires
        satisfied(rows),
        0 <= i < rows.len(),
        rows[i][COL_ACT as int] == 1,
    ensures
        rows[i][COL_PTR as int] == i + 1,
        i > 0 ==> rows[i - 1][COL_ACT as int] == 1,
    decreases i,
{
    constraints_are_the_rules(rows);
    if i > 0 {
        assert(step_holds(rows[i - 1], rows[i - 1 + 1]));
        pointers_are_row_numbers(rows, i - 1);
        lemma_small_mod((i + 1) as nat, MODULUS as nat);
    }
}

/// Every message that the row consumes is true of the store.
pub open spec fn consumes_truth(store: Store, l: Seq<int>) -> bool {
    forall|k: int|
        0 <= k < point_fractions(l).len() && (#[trigger] point_fractions(l)[k]).bus
            != BusId::EcPoint ==> is_true(store, point_fractions(l)[k])
}

/// What a row claims: the parameters it holds are those of its group, and its point is certified, or
/// `u = x^2 + a`, `w = x * u + b` and `w = y^2`.
pub open spec fn is_certified(store: Store, l: Seq<int>) -> bool {
    let m = store.modulus(l[COL_BOUND_PTR as int]);
    let x = store.value(l[COL_X_PTR as int]);
    let y = store.value(l[COL_Y_PTR as int]);
    let u = store.value(l[COL_U_PTR as int]);
    let w = store.value(l[COL_W_PTR as int]);
    &&& (store.groups)(l[COL_GROUP_PTR as int]) == (Curve {
        a: l[COL_A_PTR as int],
        b: l[COL_B_PTR as int],
        bound: l[COL_BOUND_PTR as int],
        scalar_bound: l[COL_SBOUND_PTR as int],
        beta: l[COL_BETA_PTR as int],
        lambda: l[COL_LAMBDA_PTR as int],
    })
    &&& l[COL_IS_CERT as int] == 1 ==> is_member(
        store,
        l[COL_GROUP_PTR as int],
        l[COL_PTR as int],
    )
    &&& l[COL_IS_CERT as int] == 0 && l[COL_IS_PAI as int] == 0 ==> {
        &&& same(x * x + store.value(l[COL_A_PTR as int]), u, m)
        &&& same(x * u + store.value(l[COL_B_PTR as int]), w, m)
        &&& same(y * y, w, m)
    }
}

/// What each message of a row says, and how often it counts.
#[verifier::spinoff_prover]
#[verifier::rlimit(30)]
proof fn message_claims(store: Store, rows: Seq<Seq<int>>, i: int, k: int)
    requires
        satisfied(rows),
        0 <= i < rows.len(),
        0 <= k < point_fractions(rows[i]).len(),
    ensures
        ({
            let l = rows[i];
            let f = point_fractions(l)[k];
            let act = l[COL_ACT as int];
            let cert = l[COL_IS_CERT as int];
            let pai = l[COL_IS_PAI as int];
            let m = store.modulus(l[COL_BOUND_PTR as int]);
            let x = store.value(l[COL_X_PTR as int]);
            let y = store.value(l[COL_Y_PTR as int]);
            let u = store.value(l[COL_U_PTR as int]);
            let w = store.value(l[COL_W_PTR as int]);
            let member: int = if act == 1 && cert == 0 && pai == 0 { 1 } else { 0 };
            &&& point_fractions(l).len() == 6
            &&& payload(f) == f.elems
            &&& k == 0 ==> f.bus == BusId::EcPoint && f.mult == -l[COL_ECPOINT_MULT as int] && (
            says(store, f.bus, f.elems) <==> (store.points)(l[COL_PTR as int]) == (Place {
                group: l[COL_GROUP_PTR as int],
                x: l[COL_X_PTR as int],
                y: l[COL_Y_PTR as int],
                infinite: pai == 1,
            }))
            &&& k == 1 ==> f.bus == BusId::EcGroup && f.mult == act && (says(store, f.bus, f.elems)
                <==> (store.groups)(l[COL_GROUP_PTR as int]) == (Curve {
                a: l[COL_A_PTR as int],
                b: l[COL_B_PTR as int],
                bound: l[COL_BOUND_PTR as int],
                scalar_bound: l[COL_SBOUND_PTR as int],
                beta: l[COL_BETA_PTR as int],
                lambda: l[COL_LAMBDA_PTR as int],
            }))
            &&& k == 2 ==> f.bus == BusId::EcOnCurveCert && f.mult == (if act == 1 {
                cert
            } else {
                0
            }) && (says(store, f.bus, f.elems) <==> is_member(
                store,
                l[COL_GROUP_PTR as int],
                l[COL_PTR as int],
            ))
            &&& k == 3 ==> f.bus == BusId::UintMul && f.mult == member && (says(
                store,
                f.bus,
                f.elems,
            ) <==> same(x * x + store.value(l[COL_A_PTR as int]), u, m))
            &&& k == 4 ==> f.bus == BusId::UintMul && f.mult == member && (says(
                store,
                f.bus,
                f.elems,
            ) <==> same(x * u + store.value(l[COL_B_PTR as int]), w, m))
            &&& k == 5 ==> f.bus == BusId::UintMul && f.mult == member && (says(
                store,
                f.bus,
                f.elems,
            ) <==> same(y * y, w, m))
        }),
{
    let l = rows[i];
    let f = point_fractions(l)[k];
    rules_follow(rows, i);
    let act: int = l[COL_ACT as int];
    let cert: int = l[COL_IS_CERT as int];
    let pai: int = l[COL_IS_PAI as int];
    switched(act, 1 - pai);
    switched(act, cert);
    switched(1 - cert, act * (1 - pai));
    assert(act * (1 - pai) * (1 - cert) == (1 - cert) * (act * (1 - pai))) by (nonlinear_arith);
    assert forall|j: int| 0 <= j < f.elems.len() implies is_cell(#[trigger] f.elems[j]) by {
        assert(forall|c: int| 0 <= c < NUM_MAIN_COLS ==> is_cell(#[trigger] rows[i][c]));
        assert(is_cell(0) && is_cell(1));
        if k < 3 {
        } else {
        }
    }
    cells_are_residues(f);
    if k >= 3 {
        let e = f.elems;
        assert(says(store, f.bus, e) == multiplies(store, e));
        assert(e[0] == 1 && is_flag(e[1]));
        switched(e[0], store.value(e[2]) * store.value(e[3]));
        switched(e[1], store.value(e[4]));
    }
}

/// The messages that a row in use consumes are true exactly if the stored values are what it claims;
/// a row that is not in use puts nothing on any bus.
pub proof fn consumed_messages_certify_the_point(store: Store, rows: Seq<Seq<int>>, i: int)
    requires
        satisfied(rows),
        0 <= i < rows.len(),
    ensures
        rows[i][COL_ACT as int] == 1 ==> (consumes_truth(store, rows[i]) <==> is_certified(
            store,
            rows[i],
        )),
        rows[i][COL_ACT as int] == 0 ==> forall|k: int|
            0 <= k < point_fractions(rows[i]).len() ==> (#[trigger] point_fractions(
                rows[i],
            )[k]).mult == 0,
        forall|k: int|
            0 <= k < point_fractions(rows[i]).len() ==> (if (#[trigger] point_fractions(
                rows[i],
            )[k]).bus == BusId::EcPoint {
                point_fractions(rows[i])[k].mult == -rows[i][COL_ECPOINT_MULT as int]
            } else {
                is_flag(point_fractions(rows[i])[k].mult)
            }),
{
    let l = rows[i];
    rules_follow(rows, i);
    assert(point_fractions(l).len() == 6);
    message_claims(store, rows, i, 0);
    message_claims(store, rows, i, 1);
    message_claims(store, rows, i, 2);
    message_claims(store, rows, i, 3);
    message_claims(store, rows, i, 4);
    message_claims(store, rows, i, 5);
    lemma_small_mod(0, MODULUS as nat);
    lemma_small_mod(1, MODULUS as nat);
    if l[COL_ACT as int] == 1 && consumes_truth(store, l) {
        assert(is_true(store, point_fractions(l)[1]));
        assert(is_true(store, point_fractions(l)[2]));
        assert(is_true(store, point_fractions(l)[3]));
        assert(is_true(store, point_fractions(l)[4]));
        assert(is_true(store, point_fractions(l)[5]));
    }
    if l[COL_ACT as int] == 1 && is_certified(store, l) {
        assert forall|k: int|
            0 <= k < point_fractions(l).len() && (#[trigger] point_fractions(l)[k]).bus
                != BusId::EcPoint implies is_true(store, point_fractions(l)[k]) by {
            message_claims(store, rows, i, k);
        }
    }
}

/// Every stored point is at infinity or on the curve of its group: `y^2 = x^3 + a * x + b`. The
/// message that provides it is true.
pub proof fn stored_points_are_on_the_curve(store: Store, rows: Seq<Seq<int>>, i: int)
    requires
        satisfied(rows),
        0 <= i < rows.len(),
        rows[i][COL_ACT as int] == 1,
        consumes_truth(store, rows[i]),
        store.modulus(rows[i][COL_BOUND_PTR as int]) > 0,
        (store.points)(rows[i][COL_PTR as int]) == (Place {
            group: rows[i][COL_GROUP_PTR as int],
            x: rows[i][COL_X_PTR as int],
            y: rows[i][COL_Y_PTR as int],
            infinite: rows[i][COL_IS_PAI as int] == 1,
        }),
    ensures
        is_member(store, rows[i][COL_GROUP_PTR as int], rows[i][COL_PTR as int]),
        forall|k: int|
            0 <= k < point_fractions(rows[i]).len() && (#[trigger] point_fractions(rows[i])[k]).bus
                == BusId::EcPoint ==> says(
                store,
                BusId::EcPoint,
                payload(point_fractions(rows[i])[k]),
            ),
{
    let l = rows[i];
    rules_follow(rows, i);
    consumed_messages_certify_the_point(store, rows, i);
    assert forall|k: int|
        0 <= k < point_fractions(l).len() && (#[trigger] point_fractions(l)[k]).bus
            == BusId::EcPoint implies says(
        store,
        BusId::EcPoint,
        payload(point_fractions(l)[k]),
    ) by {
        message_claims(store, rows, i, k);
    }
    if l[COL_IS_CERT as int] == 0 && l[COL_IS_PAI as int] == 0 {
        let m = store.modulus(l[COL_BOUND_PTR as int]);
        let a = store.value(l[COL_A_PTR as int]);
        let b = store.value(l[COL_B_PTR as int]);
        let x = store.value(l[COL_X_PTR as int]);
        let y = store.value(l[COL_Y_PTR as int]);
        let u = store.value(l[COL_U_PTR as int]);
        let w = store.value(l[COL_W_PTR as int]);
        same_turned(x * u + b, w, m);
        same_through(y * y, w, x * u + b, m);
        same_turned(x * x + a, u, m);
        same_scaled(x, u, x * x + a, m);
        same_itself(b, m);
        same_together(x * u, x * (x * x + a), b, b, m);
        assert(x * (x * x + a) == x * x * x + a * x) by (nonlinear_arith);
        same_through(y * y, x * u + b, x * x * x + a * x + b, m);
    }
}

/// The group table provides, under the pointer of each row, the parameters that the row holds, as
/// often as the row counts.
pub proof fn groups_are_provided(store: Store, l: Seq<int>, k: int)
    requires
        l.len() == GROUP_COLS,
        forall|j: int| 0 <= j < GROUP_COLS ==> is_cell(#[trigger] l[j]),
        0 <= k < group_fractions(l).len(),
    ensures
        group_fractions(l).len() == 1,
        group_fractions(l)[k].mult == -l[GROUP_MULT as int],
        says(store, group_fractions(l)[k].bus, payload(group_fractions(l)[k])) <==> (store.groups)(
            l[GROUP_PTR as int],
        ) == (Curve {
            a: l[GROUP_A_PTR as int],
            b: l[GROUP_B_PTR as int],
            bound: l[GROUP_BOUND_PTR as int],
            scalar_bound: l[GROUP_SBOUND_PTR as int],
            beta: l[GROUP_BETA_PTR as int],
            lambda: l[GROUP_LAMBDA_PTR as int],
        }),
{
    let f = group_fractions(l)[k];
    cells_are_residues(f);
}

} // verus!
