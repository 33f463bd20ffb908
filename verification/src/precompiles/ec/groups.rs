//! The short-Weierstrass group table: one row per group, binding a pointer to a curve context.

use crate::precompiles::ec::EcGroupMsg;
use crate::precompiles::field::{reps, FieldExpr, MODULUS};
use crate::precompiles::logup::{
    demands, fractions, interact, require, Constraint, Deg, Fraction, FractionColumn, Interaction,
    Part, Rows,
};
use crate::precompiles::relations::BusId;
use vstd::arithmetic::div_mod::{lemma_add_mod_noop, lemma_small_mod};
use vstd::prelude::*;

verus! {

/// Group pointer. Zero is the none-sentinel.
pub const COL_PTR: usize = 0;
pub const COL_A_PTR: usize = 1;
pub const COL_B_PTR: usize = 2;
/// The base-field modulus.
pub const COL_BOUND_PTR: usize = 3;
/// The scalar-field modulus.
pub const COL_SBOUND_PTR: usize = 4;
/// How often the row's context is consumed. Zero on padding.
pub const COL_MULT: usize = 5;
pub const COL_BETA_PTR: usize = 6;
pub const COL_LAMBDA_PTR: usize = 7;
pub const NUM_MAIN_COLS: usize = 8;
pub const NUM_LOGUP_COLS: usize = 1;
pub const COLUMN_SHAPE: [usize; 1] = [1];

/// The group table.
#[derive(Debug, Default, Clone, Copy)]
pub struct EcGroupsAir;

/// Pointers count up from one, on every row.
pub open spec fn group_demands(l: Seq<int>, n: Seq<int>) -> Seq<(Rows, int)> {
    let s = Seq::<(Rows, int)>::empty();
    let ptr: int = l[COL_PTR as int];
    let ptr_next: int = n[COL_PTR as int];
    let s = s.push((Rows::AllButLast, ptr_next - ptr - 1));
    let s = s.push((Rows::First, ptr - 1));
    s
}

/// The constraints on a row and its successor.
pub fn eval_main<E: FieldExpr>(local: &[E], next: &[E]) -> (r: Vec<Constraint<E>>)
    requires
        local@.len() == NUM_MAIN_COLS,
        next@.len() == NUM_MAIN_COLS,
    ensures
        demands(r@) == group_demands(reps(local@), reps(next@)),
{
    let mut out: Vec<Constraint<E>> = Vec::new();
    assert(demands(out@) =~= Seq::<(Rows, int)>::empty());
    let ptr = &local[COL_PTR];
    let ptr_next = &next[COL_PTR];
    require(&mut out, Rows::AllButLast, ptr_next.minus(ptr).minus(&E::constant(1)));
    require(&mut out, Rows::First, ptr.minus(&E::constant(1)));
    out
}

/// Whether the rows of a trace satisfy the group table's constraints over the field.
pub open spec fn satisfied(rows: Seq<Seq<int>>) -> bool {
    &&& rows.len() > 0
    &&& forall|i: int|
        0 <= i < rows.len() ==> (#[trigger] rows[i]).len() == NUM_MAIN_COLS
    &&& group_demands(rows[0], rows[0])[1].1 % (MODULUS as int) == 0
    &&& forall|i: int|
        0 <= i < rows.len() - 1 ==> (#[trigger] group_demands(rows[i], rows[i + 1]))[0].1 % (
        MODULUS as int) == 0
}

/// The pointer of row `i` is `i + 1` on every trace that satisfies the constraints, so a pointer
/// names at most one row.
pub proof fn pointer_is_row_number(rows: Seq<Seq<int>>, i: int)
    requires
        satisfied(rows),
        0 <= i < rows.len(),
        rows.len() < MODULUS,
    ensures
        rows[i][COL_PTR as int] % (MODULUS as int) == i + 1,
    decreases i,
{
    let m = MODULUS as int;
    if i == 0 {
        let d = group_demands(rows[0], rows[0]);
        assert(d[1].1 == rows[0][0] - 1);
        lemma_add_mod_noop(rows[0][0] - 1, 1, m);
        lemma_small_mod(1, m as nat);
    } else {
        pointer_is_row_number(rows, i - 1);
        let here = rows[i - 1][0];
        let there = rows[i][0];
        let d = group_demands(rows[i - 1], rows[i - 1 + 1]);
        assert(d[0].1 == there - here - 1);
        lemma_add_mod_noop(there - here - 1, here + 1, m);
        lemma_add_mod_noop(here, 1, m);
        lemma_small_mod(1, m as nat);
        lemma_small_mod((i + 1) as nat, m as nat);
        lemma_small_mod(((here + 1) % m) as nat, m as nat);
        assert(there - here - 1 + (here + 1) == there);
    }
}

/// A row provides its curve context as often as its multiplicity says.
pub open spec fn group_fractions(l: Seq<int>) -> Seq<Fraction> {
    let s = Seq::<Fraction>::empty();
    let column = FractionColumn { index: 0, group: "ec-groups", deg: Deg { v: 1, u: 1 } };
    let s = s.push(
        Fraction {
            column,
            label: "provide-ecgroup",
            mult: 0 - l[COL_MULT as int],
            bus: BusId::EcGroup,
            part: Part::Whole,
            elems: seq![
                l[COL_PTR as int],
                l[COL_A_PTR as int],
                l[COL_B_PTR as int],
                l[COL_BOUND_PTR as int],
                l[COL_SBOUND_PTR as int],
                l[COL_BETA_PTR as int],
                l[COL_LAMBDA_PTR as int],
            ],
            deg: Deg { v: 1, u: 1 },
        }
    );
    s
}

/// The fractions of one row.
pub fn eval_lookups<E: FieldExpr>(local: &[E]) -> (r: Vec<Interaction<E>>)
    requires
        local@.len() == NUM_MAIN_COLS,
    ensures
        fractions(r@) == group_fractions(reps(local@)),
{
    let mut out: Vec<Interaction<E>> = Vec::new();
    assert(fractions(out@) =~= Seq::<Fraction>::empty());
    let column = FractionColumn { index: 0, group: "ec-groups", deg: Deg { v: 1, u: 1 } };
    interact(
        &mut out,
        column,
        "provide-ecgroup",
        E::constant(0).minus(&local[COL_MULT]),
        EcGroupMsg {
            group_ptr: local[COL_PTR].dup(),
            a_ptr: local[COL_A_PTR].dup(),
            b_ptr: local[COL_B_PTR].dup(),
            bound_ptr: local[COL_BOUND_PTR].dup(),
            scalar_bound_ptr: local[COL_SBOUND_PTR].dup(),
            beta_ptr: local[COL_BETA_PTR].dup(),
            lambda_ptr: local[COL_LAMBDA_PTR].dup(),
        }.message(),
        Deg { v: 1, u: 1 },
    );
    out
}

} // verus!
