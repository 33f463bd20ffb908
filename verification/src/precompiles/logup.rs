//! The LogUp bus argument: what a chiplet's constraints and lookups are made of, how a message
//! is folded into one field element, and how the running sum closes.

use crate::precompiles::field::{reps, FieldExpr};
use crate::precompiles::relations::{BusId, MAX_MESSAGE_WIDTH};
use vstd::prelude::*;

verus! {

/// Random challenges each chiplet draws: `(alpha, beta)`.
pub const NUM_RANDOMNESS: usize = 2;

/// Public values each chiplet declares: the transcript root.
pub const NUM_PUBLIC_VALUES: usize = 4;

/// Committed residues each chiplet exposes.
pub const NUM_SIGMA_VALUES: usize = 1;

/// The rows a constraint is enforced on.
#[derive(Copy, Clone, Debug, PartialEq, Eq, Structural)]
pub enum Rows {
    /// Every row, with the last row followed by the first.
    All,
    /// The first row only.
    First,
    /// Every row but the last.
    AllButLast,
}

/// A value that must be zero on the rows it is enforced on.
#[derive(Debug)]
pub struct Constraint<E> {
    pub rows: Rows,
    pub value: E,
}

/// What a list of constraints demands: the rows and the polynomial of each.
pub open spec fn demands<E: FieldExpr>(list: Seq<Constraint<E>>) -> Seq<(Rows, int)> {
    Seq::new(list.len(), |i: int| (list[i].rows, list[i].value.rep()))
}

/// `x` is zero or one exactly when this polynomial vanishes over the integers.
pub open spec fn bool_poly(x: int) -> int {
    x * (1 - x)
}

/// Appends a constraint.
pub fn require<E: FieldExpr>(out: &mut Vec<Constraint<E>>, rows: Rows, value: E)
    ensures
        demands(final(out)@) == demands(old(out)@).push((rows, value.rep())),
{
    out.push(Constraint { rows, value });
    assert(demands(out@) =~= demands(old(out)@).push((rows, value.rep())));
}

/// Appends the constraint that `x` is zero or one, on every row.
pub fn require_bool<E: FieldExpr>(out: &mut Vec<Constraint<E>>, x: &E)
    ensures
        demands(final(out)@) == demands(old(out)@).push((Rows::All, bool_poly(x.rep()))),
{
    let one = E::constant(1);
    require(out, Rows::All, x.times(&one.minus(x)));
}

/// One constraint per column of `[lo, hi)`: where `factor` is nonzero, the column keeps its value.
pub open spec fn hold_demands(
    rows: Rows,
    factor: int,
    l: Seq<int>,
    n: Seq<int>,
    lo: int,
    hi: int,
) -> Seq<(Rows, int)> {
    Seq::new((hi - lo) as nat, |i: int| (rows, factor * (n[lo + i] - l[lo + i])))
}

/// Appends, for each column of `[lo, hi)`, that it keeps its value where `factor` is nonzero.
pub fn require_hold<E: FieldExpr>(
    out: &mut Vec<Constraint<E>>,
    rows: Rows,
    factor: &E,
    local: &[E],
    next: &[E],
    lo: usize,
    hi: usize,
)
    requires
        lo <= hi <= local@.len(),
        hi <= next@.len(),
    ensures
        demands(final(out)@) == demands(old(out)@) + hold_demands(
            rows,
            factor.rep(),
            reps(local@),
            reps(next@),
            lo as int,
            hi as int,
        ),
{
    let ghost start = demands(out@);
    let ghost full = hold_demands(rows, factor.rep(), reps(local@), reps(next@), lo as int, hi as int);
    let mut col: usize = lo;
    assert(full.take(0) =~= Seq::<(Rows, int)>::empty());
    assert(start + full.take(0) =~= start);
    while col < hi
        invariant
            lo <= col <= hi,
            hi <= local@.len(),
            hi <= next@.len(),
            full == hold_demands(
                rows,
                factor.rep(),
                reps(local@),
                reps(next@),
                lo as int,
                hi as int,
            ),
            demands(out@) == start + full.take(col - lo),
        decreases hi - col,
    {
        let value = factor.times(&next[col].minus(&local[col]));
        require(out, rows, value);
        assert(full[col - lo] == (rows, value.rep()));
        assert((start + full.take(col - lo)).push(full[col - lo]) =~= start + full.take(
            col - lo + 1,
        ));
        col = col + 1;
    }
    assert(full.take(hi - lo) =~= full);
}

/// Degree bounds of a fraction's numerator and denominator.
#[derive(Copy, Clone, Debug, PartialEq, Eq, Structural)]
pub struct Deg {
    pub v: usize,
    pub u: usize,
}

/// Which of a bus's tuple forms a message takes.
#[derive(Copy, Clone, Debug, PartialEq, Eq, Structural)]
pub enum Part {
    /// The bus has one form only.
    Whole,
    /// The first half of a sponge's rate.
    Rate0,
    /// The second half of a sponge's rate.
    Rate1,
    /// A sponge's capacity.
    Capacity,
    /// A statement that a hash stands for the truth.
    Truth,
}

/// A tuple sent to a bus.
#[derive(Debug)]
pub struct Message<E> {
    pub bus: BusId,
    pub part: Part,
    pub elems: Vec<E>,
}

/// The auxiliary column that a fraction is added to, with the column's degree bound.
#[derive(Copy, Clone, Debug)]
pub struct FractionColumn {
    pub index: usize,
    pub group: &'static str,
    pub deg: Deg,
}

/// One fraction of a LogUp column: `mult` over the encoding of the message.
#[derive(Debug)]
pub struct Interaction<E> {
    pub column: FractionColumn,
    pub label: &'static str,
    pub mult: E,
    pub message: Message<E>,
    pub deg: Deg,
}

/// What an [`Interaction`] says: its column, its multiplicity, and the tuple on its bus.
#[verifier::ext_equal]
pub ghost struct Fraction {
    pub column: FractionColumn,
    pub label: &'static str,
    pub mult: int,
    pub bus: BusId,
    pub part: Part,
    pub elems: Seq<int>,
    pub deg: Deg,
}

impl<E: FieldExpr> Interaction<E> {
    pub open spec fn says(self) -> Fraction {
        Fraction {
            column: self.column,
            label: self.label,
            mult: self.mult.rep(),
            bus: self.message.bus,
            part: self.message.part,
            elems: reps(self.message.elems@),
            deg: self.deg,
        }
    }
}

/// What a list of interactions says, in order.
pub open spec fn fractions<E: FieldExpr>(list: Seq<Interaction<E>>) -> Seq<Fraction> {
    Seq::new(list.len(), |i: int| list[i].says())
}

/// Appends a fraction to `column`.
pub fn interact<E: FieldExpr>(
    out: &mut Vec<Interaction<E>>,
    column: FractionColumn,
    label: &'static str,
    mult: E,
    message: Message<E>,
    deg: Deg,
)
    ensures
        fractions(final(out)@) == fractions(old(out)@).push(
            (Fraction {
                column,
                label,
                mult: mult.rep(),
                bus: message.bus,
                part: message.part,
                elems: reps(message.elems@),
                deg,
            }),
        ),
{
    let ghost before = fractions(out@);
    let item = Interaction { column, label, mult, message, deg };
    let ghost said = item.says();
    out.push(item);
    assert(fractions(out@) =~= before.push(said));
}

/// `base` raised to `exp`.
pub open spec fn power(base: int, exp: nat) -> int
    decreases exp,
{
    if exp == 0 {
        1
    } else {
        power(base, (exp - 1) as nat) * base
    }
}

/// `sum(beta^i * elems[i])`.
pub open spec fn weighted(beta: int, elems: Seq<int>) -> int
    decreases elems.len(),
{
    if elems.len() == 0 {
        0
    } else {
        weighted(beta, elems.drop_last()) + power(beta, (elems.len() - 1) as nat) * elems.last()
    }
}

/// The encoding of a tuple: a prefix that separates the buses, plus the tuple in base `beta`.
pub open spec fn encoding(alpha: int, beta: int, bus: BusId, elems: Seq<int>) -> int {
    alpha + (bus.number() + 1) * power(beta, MAX_MESSAGE_WIDTH as nat) + weighted(beta, elems)
}

/// The challenges that fold a bus tuple into one element.
#[derive(Debug)]
pub struct Challenges<E> {
    pub(crate) alpha: E,
    pub(crate) beta_powers: Vec<E>,
}

impl<E: FieldExpr> Challenges<E> {
    pub closed spec fn alpha(&self) -> int {
        self.alpha.rep()
    }

    pub closed spec fn beta(&self) -> int {
        self.beta_powers@[1].rep()
    }

    /// The power table holds `beta^0 ..= beta^W`.
    pub closed spec fn wf(&self) -> bool {
        &&& self.beta_powers@.len() == MAX_MESSAGE_WIDTH + 1
        &&& forall|i: int|
            0 <= i <= MAX_MESSAGE_WIDTH ==> #[trigger] self.beta_powers@[i].rep() == power(
                self.beta(),
                i as nat,
            )
    }

    /// Prepares the challenges drawn as `(alpha, beta)`.
    pub fn new(alpha: E, beta: E) -> (r: Self)
        ensures
            r.wf(),
            r.alpha() == alpha.rep(),
            r.beta() == beta.rep(),
    {
        let mut beta_powers: Vec<E> = Vec::new();
        beta_powers.push(E::constant(1));
        let mut i: usize = 0;
        while i < MAX_MESSAGE_WIDTH
            invariant
                i <= MAX_MESSAGE_WIDTH,
                beta_powers@.len() == i + 1,
                forall|j: int|
                    0 <= j <= i ==> #[trigger] beta_powers@[j].rep() == power(
                        beta.rep(),
                        j as nat,
                    ),
            decreases MAX_MESSAGE_WIDTH - i,
        {
            let p = beta_powers[i].times(&beta);
            beta_powers.push(p);
            i = i + 1;
        }
        proof {
            assert(power(beta.rep(), 0) == 1);
            assert(power(beta.rep(), 1) == power(beta.rep(), 0) * beta.rep());
            assert(beta_powers@[1].rep() == beta.rep());
        }
        Challenges { alpha, beta_powers }
    }

    /// Folds a bus tuple into one element.
    pub fn encode(&self, message: &Message<E>) -> (r: E)
        requires
            self.wf(),
            message.part == Part::Whole,
            message.elems@.len() <= MAX_MESSAGE_WIDTH,
        ensures
            r.rep() == encoding(self.alpha(), self.beta(), message.bus, reps(message.elems@)),
    {
        let number: usize = message.bus.index();
        let prefix = E::constant((number + 1) as u64).times(&self.beta_powers[MAX_MESSAGE_WIDTH]);
        let mut sum = E::constant(0);
        let ghost all = reps(message.elems@);
        assert(all.take(0) =~= Seq::<int>::empty());
        let mut i: usize = 0;
        while i < message.elems.len()
            invariant
                self.wf(),
                i <= message.elems@.len() <= MAX_MESSAGE_WIDTH,
                all == reps(message.elems@),
                sum.rep() == weighted(self.beta(), all.take(i as int)),
            decreases message.elems@.len() - i,
        {
            sum = sum.plus(&self.beta_powers[i].times(&message.elems[i]));
            proof {
                assert(all.take(i + 1).drop_last() =~= all.take(i as int));
                assert(all.take(i + 1).last() == message.elems@[i as int].rep());
            }
            i = i + 1;
        }
        assert(all.take(all.len() as int) =~= all);
        self.alpha.plus(&prefix).plus(&sum)
    }
}

/// Prepares the challenges from the drawn list, which starts with `alpha` and `beta`.
pub fn lookup_challenges_from_slice<E: FieldExpr>(drawn: &[E]) -> (r: Challenges<E>)
    requires
        drawn@.len() >= NUM_RANDOMNESS,
    ensures
        r.wf(),
        r.alpha() == drawn@[0].rep(),
        r.beta() == drawn@[1].rep(),
{
    Challenges::new(drawn[0].dup(), drawn[1].dup())
}

/// The sum of the residues that the chiplets expose.
pub open spec fn residue_total(rows: Seq<Seq<int>>) -> int
    decreases rows.len(),
{
    if rows.len() == 0 {
        0
    } else {
        residue_total(rows.drop_last()) + rows.last()[0]
    }
}

/// The exposed values of each chiplet, as integers.
pub open spec fn exposed<E: FieldExpr>(values: Seq<Vec<E>>) -> Seq<Seq<int>> {
    Seq::new(values.len(), |i: int| reps(values[i]@))
}

/// Adds up the residues that the chiplets expose. The buses balance when the sum vanishes.
pub fn sigma_sum<E: FieldExpr>(aux_values: &[Vec<E>]) -> (r: E)
    requires
        forall|i: int| 0 <= i < aux_values@.len() ==> (#[trigger] aux_values@[i])@.len() > 0,
    ensures
        r.rep() == residue_total(exposed(aux_values@)),
{
    let ghost all = exposed(aux_values@);
    let mut sum = E::constant(0);
    let mut i: usize = 0;
    assert(all.take(0) =~= Seq::empty());
    while i < aux_values.len()
        invariant
            i <= aux_values@.len(),
            all == exposed(aux_values@),
            forall|i: int| 0 <= i < aux_values@.len() ==> (#[trigger] aux_values@[i])@.len() > 0,
            sum.rep() == residue_total(all.take(i as int)),
        decreases aux_values@.len() - i,
    {
        sum = sum.plus(&aux_values[i][0]);
        proof {
            assert(all.take(i + 1).drop_last() =~= all.take(i as int));
            assert(all.take(i + 1).last()[0] == aux_values@[i as int]@[0].rep());
        }
        i = i + 1;
    }
    assert(all.take(all.len() as int) =~= all);
    sum
}

/// Turns a normalised running sum back into a plain one: row `r` of column 0 regains `r` times
/// the normalising step. Returns the step taken once for each row, which is the full residue.
pub fn restore_running_sum<E: FieldExpr>(
    aux: Vec<E>,
    num_cols: usize,
    num_rows: usize,
    step: &E,
) -> (r: (Vec<E>, E))
    requires
        num_cols > 0,
        aux@.len() == num_rows * num_cols,
    ensures
        r.0@.len() == aux@.len(),
        r.1.rep() == num_rows * step.rep(),
        forall|row: int, col: int|
            0 <= row < num_rows && 0 <= col < num_cols ==> #[trigger] reps(r.0@)[row * num_cols
                + col] == reps(aux@)[row * num_cols + col] + (if col == 0 {
                row * step.rep()
            } else {
                0
            }),
{
    let mut out: Vec<E> = Vec::new();
    let mut drift = E::constant(0);
    let mut row: usize = 0;
    assert(0 * step.rep() == 0) by (nonlinear_arith);
    while row < num_rows
        invariant
            num_cols > 0,
            row <= num_rows,
            aux@.len() == num_rows * num_cols,
            out@.len() == row * num_cols,
            drift.rep() == row * step.rep(),
            forall|i: int, col: int|
                0 <= i < row && 0 <= col < num_cols ==> #[trigger] reps(out@)[i * num_cols + col]
                    == reps(aux@)[i * num_cols + col] + (if col == 0 {
                    i * step.rep()
                } else {
                    0
                }),
        decreases num_rows - row,
    {
        let ghost before = out@;
        let mut col: usize = 0;
        assert(row * num_cols + num_cols <= num_rows * num_cols) by (nonlinear_arith)
            requires
                row + 1 <= num_rows,
        ;
        let start: usize = out.len();
        let size: usize = aux.len();
        while col < num_cols
            invariant
                row < num_rows,
                col <= num_cols,
                start == row * num_cols,
                start + num_cols <= size == aux@.len(),
                drift.rep() == row * step.rep(),
                out@.len() == start + col,
                before.len() == start,
                forall|k: int| 0 <= k < start ==> #[trigger] out@[k] == before[k],
                forall|c: int|
                    0 <= c < col ==> #[trigger] out@[start + c].rep() == aux@[start + c].rep() + (
                    if c == 0 {
                        row * step.rep()
                    } else {
                        0
                    }),
            decreases num_cols - col,
        {
            if col == 0 {
                out.push(aux[start].plus(&drift));
            } else {
                out.push(aux[start + col].dup());
            }
            col = col + 1;
        }
        proof {
            assert forall|i: int, c: int|
                0 <= i < row + 1 && 0 <= c < num_cols implies #[trigger] reps(out@)[i * num_cols
                + c] == reps(aux@)[i * num_cols + c] + (if c == 0 {
                i * step.rep()
            } else {
                0
            }) by {
                let k: int = i * num_cols + c;
                if i < row {
                    assert(k < start) by (nonlinear_arith)
                        requires
                            i + 1 <= row,
                            0 <= c < num_cols,
                            start == row * num_cols,
                            k == i * num_cols + c,
                    ;
                    assert(k >= 0) by (nonlinear_arith)
                        requires
                            0 <= i,
                            0 <= c < num_cols,
                            k == i * num_cols + c,
                    ;
                    assert(reps(before)[k] == reps(aux@)[k] + (if c == 0 {
                        i * step.rep()
                    } else {
                        0
                    })) by {
                        assert(reps(before)[i * num_cols + c] == before[k].rep());
                    }
                    assert(out@[k] == before[k]);
                } else {
                    assert(i == row);
                    assert(out@[start + c].rep() == aux@[start + c].rep() + (if c == 0 {
                        row * step.rep()
                    } else {
                        0
                    }));
                }
            }
            assert((row + 1) * num_cols == row * num_cols + num_cols) by (nonlinear_arith);
            assert((row + 1) * step.rep() == row * step.rep() + step.rep()) by (nonlinear_arith);
        }
        drift = drift.plus(step);
        row = row + 1;
    }
    (out, drift)
}

} // verus!
