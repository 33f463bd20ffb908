//! What it means for a table to satisfy the constraints of its chiplet over the field.

use crate::precompiles::field::MODULUS;
use crate::precompiles::logup::{bool_poly, Rows};
use crate::precompiles::prime::no_zero_divisors;
use vstd::arithmetic::div_mod::{
    lemma_fundamental_div_mod, lemma_fundamental_div_mod_converse, lemma_mod_multiples_basic,
    lemma_small_mod,
};
use vstd::prelude::*;

verus! {

/// A cell holds a residue of the modulus.
pub open spec fn is_cell(x: int) -> bool {
    0 <= x < MODULUS
}

/// A flag holds zero or one.
pub open spec fn is_flag(x: int) -> bool {
    x == 0 || x == 1
}

/// A table with at least one row, `width` cells to a row, and fewer rows than the field has
/// elements.
pub open spec fn is_table(rows: Seq<Seq<int>>, width: int) -> bool {
    &&& 0 < rows.len() < MODULUS
    &&& forall|i: int| 0 <= i < rows.len() ==> (#[trigger] rows[i]).len() == width
    &&& forall|i: int, j: int|
        0 <= i < rows.len() && 0 <= j < width ==> is_cell(#[trigger] rows[i][j])
}

/// The row after row `i`; the first one follows the last.
pub open spec fn following(rows: Seq<Seq<int>>, i: int) -> Seq<int> {
    if i + 1 < rows.len() {
        rows[i + 1]
    } else {
        rows[0]
    }
}

/// Whether a constraint on `rows` is enforced on a row that is or is not the first or the last.
pub open spec fn is_enforced(rows: Rows, first: bool, last: bool) -> bool {
    match rows {
        Rows::All => true,
        Rows::First => first,
        Rows::AllButLast => !last,
    }
}

/// Every polynomial that is enforced on the row is zero in the field.
pub open spec fn is_met(demands: Seq<(Rows, int)>, first: bool, last: bool) -> bool {
    forall|k: int|
        0 <= k < demands.len() && is_enforced((#[trigger] demands[k]).0, first, last)
            ==> demands[k].1 % (MODULUS as int) == 0
}

/// A cell that is a root of `x * (1 - x)` is zero or one.
pub proof fn zero_or_one(x: int)
    requires
        is_cell(x),
        bool_poly(x) % (MODULUS as int) == 0,
    ensures
        is_flag(x),
{
    no_zero_divisors(x, 1 - x);
    lemma_small_mod(x as nat, MODULUS as nat);
    if (1 - x) % (MODULUS as int) == 0 {
        small_and_zero(1 - x);
    }
}

/// The only number strictly between minus the modulus and the modulus that is zero in the field is
/// zero.
pub proof fn small_and_zero(x: int)
    requires
        x % (MODULUS as int) == 0,
        -(MODULUS as int) < x < MODULUS,
    ensures
        x == 0,
{
    let m = MODULUS as int;
    lemma_fundamental_div_mod(x, m);
    let k = x / m;
    assert(k == 0) by (nonlinear_arith)
        requires
            x == m * k,
            -m < x < m,
    ;
}

/// Where the switch is one, what it multiplies is zero.
pub proof fn released(switch: int, x: int)
    requires
        (switch * x) % (MODULUS as int) == 0,
        switch == 1,
    ensures
        x % (MODULUS as int) == 0,
{
    assert(switch * x == x) by (nonlinear_arith)
        requires
            switch == 1,
    ;
}

/// A value times a flag is the value or zero.
pub proof fn switched(flag: int, x: int)
    requires
        is_flag(flag),
    ensures
        flag * x == (if flag == 1 {
            x
        } else {
            0
        }),
{
    assert(1 * x == x && 0 * x == 0) by (nonlinear_arith);
}

/// A cell that differs from `y` by a multiple of the modulus is the residue of `y`.
pub proof fn residue_of(x: int, y: int)
    requires
        is_cell(x),
        (x - y) % (MODULUS as int) == 0,
    ensures
        x == y % (MODULUS as int),
{
    let m = MODULUS as int;
    lemma_fundamental_div_mod(x - y, m);
    let k = (x - y) / m;
    assert(y == (-k) * m + x) by (nonlinear_arith)
        requires
            x - y == m * k,
    ;
    lemma_fundamental_div_mod_converse(y, m, -k, x);
}

/// Two cells whose difference is zero in the field are the same.
pub proof fn same_cell(x: int, y: int)
    requires
        is_cell(x),
        is_cell(y),
        (x - y) % (MODULUS as int) == 0,
    ensures
        x == y,
{
    small_and_zero(x - y);
}

/// A product with a factor zero is zero in the field.
pub proof fn vanishes(a: int, b: int)
    requires
        a == 0 || b == 0,
    ensures
        a * b == 0,
        (a * b) % (MODULUS as int) == 0,
{
    assert(a * b == 0) by (nonlinear_arith)
        requires
            a == 0 || b == 0,
    ;
    lemma_small_mod(0, MODULUS as nat);
}

/// A number and its residue differ by nothing in the field.
pub proof fn residue_gap(x: int)
    ensures
        (x % (MODULUS as int) - x) % (MODULUS as int) == 0,
        0int % (MODULUS as int) == 0,
{
    let m = MODULUS as int;
    lemma_fundamental_div_mod(x, m);
    let q = x / m;
    assert(x % m - x == (-q) * m) by (nonlinear_arith)
        requires
            x == m * q + x % m,
    ;
    lemma_mod_multiples_basic(-q, m);
}

/// A switched difference of a cell and what it is the residue of vanishes.
pub proof fn met_by_residue(switch: int, cell: int, x: int)
    requires
        is_flag(switch),
        switch == 1 ==> cell == x % (MODULUS as int),
    ensures
        (switch * (cell - x)) % (MODULUS as int) == 0,
{
    residue_gap(x);
    switched(switch, cell - x);
}

} // verus!
