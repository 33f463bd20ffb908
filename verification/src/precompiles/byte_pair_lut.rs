//! The byte-pair lookup table: byte-wise `ANDNOT` and `XOR`, and 16-bit range checks.

use crate::precompiles::field::{reps, Felt, FieldExpr};
use crate::precompiles::logup::{
    fractions, interact, Deg, Fraction, FractionColumn, Interaction, Message, Part,
};
use crate::precompiles::relations::BusId;
use vstd::prelude::*;

verus! {

/// A byte-wise operation of the table.
#[derive(Copy, Clone, Debug, PartialEq, Eq, Hash, Structural)]
pub enum BytePairOp {
    AndNot,
    Xor,
}

impl BytePairOp {
    /// What the operation makes of a pair of bytes.
    pub open spec fn result(self, a: u8, b: u8) -> u8 {
        match self {
            BytePairOp::AndNot => !a & b,
            BytePairOp::Xor => a ^ b,
        }
    }

    /// Applies the operation to a pair of bytes.
    pub fn apply(self, a: u8, b: u8) -> (r: u8)
        ensures
            r == self.result(a, b),
    {
        match self {
            BytePairOp::AndNot => (!a) & b,
            BytePairOp::Xor => a ^ b,
        }
    }

    /// The number that selects the operation on the bus.
    pub fn tag(self) -> (r: u8)
        ensures
            self == BytePairOp::AndNot ==> r == 0,
            self == BytePairOp::Xor ==> r == 1,
    {
        match self {
            BytePairOp::AndNot => 0,
            BytePairOp::Xor => 1,
        }
    }
}

pub const COL_MULT_ANDNOT: usize = 0;
pub const COL_MULT_XOR: usize = 1;
pub const COL_MULT_RANGE16: usize = 2;
pub const NUM_MAIN_COLS: usize = 3;
pub const NUM_AUX_COLS: usize = 2;
pub const NUM_PREPROCESSED_COLS: usize = 4;
pub const PRE_A: usize = 0;
pub const PRE_B: usize = 1;
pub const PRE_C_ANDNOT: usize = 2;
pub const PRE_C_XOR: usize = 3;
/// Width of a row with the fixed columns in front of the witness columns.
pub const NUM_LOOKUP_COLS: usize = 7;
/// One row for each pair of bytes.
pub const TRACE_HEIGHT: usize = 65536;
/// Fractions in each auxiliary column.
pub const COLUMN_SHAPE: [usize; 2] = [1, 2];

/// The byte-pair table.
#[derive(Debug, Default, Clone, Copy)]
pub struct BytePairLutAir;

/// The fixed columns of row `idx`: the pair of bytes, and both operations on it.
pub open spec fn fixed_row(idx: int) -> Seq<u8> {
    let a: u8 = (idx / 256) as u8;
    let b: u8 = (idx % 256) as u8;
    seq![a, b, BytePairOp::AndNot.result(a, b), BytePairOp::Xor.result(a, b)]
}

/// The fixed table, row after row.
pub fn preprocessed_table() -> (r: Vec<u8>)
    ensures
        r@.len() == TRACE_HEIGHT * NUM_PREPROCESSED_COLS,
        forall|idx: int, col: int|
            0 <= idx < TRACE_HEIGHT && 0 <= col < NUM_PREPROCESSED_COLS
                ==> #[trigger] r@[idx * NUM_PREPROCESSED_COLS + col] == fixed_row(idx)[col],
{
    let mut values: Vec<u8> = Vec::new();
    let mut idx: usize = 0;
    while idx < TRACE_HEIGHT
        invariant
            idx <= TRACE_HEIGHT,
            values@.len() == idx * NUM_PREPROCESSED_COLS,
            forall|i: int, col: int|
                0 <= i < idx && 0 <= col < NUM_PREPROCESSED_COLS
                    ==> #[trigger] values@[i * NUM_PREPROCESSED_COLS + col] == fixed_row(i)[col],
        decreases TRACE_HEIGHT - idx,
    {
        let a: u8 = (idx / 256) as u8;
        let b: u8 = (idx % 256) as u8;
        let ghost before = values@;
        values.push(a);
        values.push(b);
        values.push(BytePairOp::AndNot.apply(a, b));
        values.push(BytePairOp::Xor.apply(a, b));
        proof {
            assert forall|i: int, col: int|
                0 <= i < idx + 1 && 0 <= col < NUM_PREPROCESSED_COLS implies #[trigger] values@[i
                * NUM_PREPROCESSED_COLS + col] == fixed_row(i)[col] by {
                if i < idx {
                    assert(values@[i * NUM_PREPROCESSED_COLS + col] == before[i
                        * NUM_PREPROCESSED_COLS + col]);
                }
            }
        }
        idx = idx + 1;
    }
    values
}

/// Each witness row with its fixed columns in front.
pub fn combine_with_preprocessed(main: &[Felt]) -> (r: Vec<Felt>)
    requires
        main@.len() == TRACE_HEIGHT * NUM_MAIN_COLS,
    ensures
        r@.len() == TRACE_HEIGHT * NUM_LOOKUP_COLS,
        forall|i: int, col: int|
            0 <= i < TRACE_HEIGHT && 0 <= col < NUM_PREPROCESSED_COLS
                ==> #[trigger] r@[i * NUM_LOOKUP_COLS + col].rep() == fixed_row(i)[col],
        forall|i: int, col: int|
            0 <= i < TRACE_HEIGHT && 0 <= col < NUM_MAIN_COLS
                ==> #[trigger] r@[i * NUM_LOOKUP_COLS + NUM_PREPROCESSED_COLS + col].rep()
                == main@[i * NUM_MAIN_COLS + col].rep(),
{
    let table = preprocessed_table();
    let mut values: Vec<Felt> = Vec::new();
    let mut row: usize = 0;
    while row < TRACE_HEIGHT
        invariant
            row <= TRACE_HEIGHT,
            main@.len() == TRACE_HEIGHT * NUM_MAIN_COLS,
            table@.len() == TRACE_HEIGHT * NUM_PREPROCESSED_COLS,
            forall|idx: int, col: int|
                0 <= idx < TRACE_HEIGHT && 0 <= col < NUM_PREPROCESSED_COLS
                    ==> #[trigger] table@[idx * NUM_PREPROCESSED_COLS + col] == fixed_row(idx)[col],
            values@.len() == row * NUM_LOOKUP_COLS,
            forall|i: int, col: int|
                0 <= i < row && 0 <= col < NUM_PREPROCESSED_COLS
                    ==> #[trigger] values@[i * NUM_LOOKUP_COLS + col].rep() == fixed_row(i)[col],
            forall|i: int, col: int|
                0 <= i < row && 0 <= col < NUM_MAIN_COLS
                    ==> #[trigger] values@[i * NUM_LOOKUP_COLS + NUM_PREPROCESSED_COLS + col].rep()
                    == main@[i * NUM_MAIN_COLS + col].rep(),
        decreases TRACE_HEIGHT - row,
    {
        let ghost before = values@;
        let pre: usize = row * NUM_PREPROCESSED_COLS;
        let wit: usize = row * NUM_MAIN_COLS;
        proof {
            assert(table@[row * NUM_PREPROCESSED_COLS + 0] == fixed_row(row as int)[0]);
            assert(table@[row * NUM_PREPROCESSED_COLS + 1] == fixed_row(row as int)[1]);
            assert(table@[row * NUM_PREPROCESSED_COLS + 2] == fixed_row(row as int)[2]);
            assert(table@[row * NUM_PREPROCESSED_COLS + 3] == fixed_row(row as int)[3]);
        }
        values.push(Felt::constant(table[pre] as u64));
        values.push(Felt::constant(table[pre + 1] as u64));
        values.push(Felt::constant(table[pre + 2] as u64));
        values.push(Felt::constant(table[pre + 3] as u64));
        values.push(main[wit].dup());
        values.push(main[wit + 1].dup());
        values.push(main[wit + 2].dup());
        proof {
            assert forall|i: int, col: int|
                0 <= i < row + 1 && 0 <= col < NUM_PREPROCESSED_COLS implies #[trigger] values@[i
                * NUM_LOOKUP_COLS + col].rep() == fixed_row(i)[col] by {
                if i < row {
                    assert(values@[i * NUM_LOOKUP_COLS + col] == before[i * NUM_LOOKUP_COLS + col]);
                }
            }
            assert forall|i: int, col: int|
                0 <= i < row + 1 && 0 <= col < NUM_MAIN_COLS implies #[trigger] values@[i
                * NUM_LOOKUP_COLS + NUM_PREPROCESSED_COLS + col].rep() == main@[i * NUM_MAIN_COLS
                + col].rep() by {
                if i < row {
                    assert(values@[i * NUM_LOOKUP_COLS + NUM_PREPROCESSED_COLS + col] == before[i
                        * NUM_LOOKUP_COLS + NUM_PREPROCESSED_COLS + col]);
                }
            }
        }
        row = row + 1;
    }
    values
}

/// A byte-wise operation and its result.
#[derive(Debug, Clone)]
pub struct BytePairLutMsg<E> {
    pub op: E,
    pub a: E,
    pub b: E,
    pub c: E,
}

impl<E: FieldExpr> BytePairLutMsg<E> {
    /// The tuple this message puts on [`BusId::BytePairLut`].
    pub fn message(self) -> (r: Message<E>)
        ensures
            r.bus == BusId::BytePairLut,
            r.part == Part::Whole,
            reps(r.elems@) == seq![self.op.rep(), self.a.rep(), self.b.rep(), self.c.rep()],
    {
        let elems = vec![self.op, self.a, self.b, self.c];
        assert(reps(elems@) =~= seq![self.op.rep(), self.a.rep(), self.b.rep(), self.c.rep()]);
        Message { bus: BusId::BytePairLut, part: Part::Whole, elems }
    }
}

/// A value that fits sixteen bits.
#[derive(Debug, Clone)]
pub struct Range16Msg<E> {
    pub w: E,
}

impl<E: FieldExpr> Range16Msg<E> {
    /// The tuple this message puts on [`BusId::Range16`].
    pub fn message(self) -> (r: Message<E>)
        ensures
            r.bus == BusId::Range16,
            r.part == Part::Whole,
            reps(r.elems@) == seq![self.w.rep()],
    {
        let elems = vec![self.w];
        assert(reps(elems@) =~= seq![self.w.rep()]);
        Message { bus: BusId::Range16, part: Part::Whole, elems }
    }
}

/// The fractions that check eight bytes of `c = a OP b`, two to a column from `first` on.
pub open spec fn byte_fractions(
    first: FractionColumn,
    label: &'static str,
    mult: int,
    op: int,
    a: Seq<int>,
    b: Seq<int>,
    c: Seq<int>,
) -> Seq<Fraction> {
    Seq::new(
        8,
        |i: int|
            Fraction {
                column: FractionColumn {
                    index: (first.index + i / 2) as usize,
                    group: first.group,
                    deg: first.deg,
                },
                label,
                mult,
                bus: BusId::BytePairLut,
                part: Part::Whole,
                elems: seq![op, a[i], b[i], c[i]],
                deg: Deg { v: 1, u: 1 },
            },
    )
}

/// Asks the table to confirm eight bytes of `c = a OP b`.
pub fn require_bytes<E: FieldExpr>(
    out: &mut Vec<Interaction<E>>,
    first: FractionColumn,
    label: &'static str,
    mult: &E,
    op: &E,
    a: &[E],
    b: &[E],
    c: &[E],
)
    requires
        a@.len() == 8,
        b@.len() == 8,
        c@.len() == 8,
        first.index < 1000,
    ensures
        fractions(final(out)@) == fractions(old(out)@) + byte_fractions(
            first,
            label,
            mult.rep(),
            op.rep(),
            reps(a@),
            reps(b@),
            reps(c@),
        ),
{
    let ghost start = fractions(out@);
    let ghost full = byte_fractions(
        first,
        label,
        mult.rep(),
        op.rep(),
        reps(a@),
        reps(b@),
        reps(c@),
    );
    assert(start + full.take(0) =~= start);
    let mut i: usize = 0;
    while i < 8
        invariant
            i <= 8,
            a@.len() == 8,
            b@.len() == 8,
            c@.len() == 8,
            first.index < 1000,
            full == byte_fractions(
                first,
                label,
                mult.rep(),
                op.rep(),
                reps(a@),
                reps(b@),
                reps(c@),
            ),
            fractions(out@) == start + full.take(i as int),
        decreases 8 - i,
    {
        let column = FractionColumn {
            index: first.index + i / 2,
            group: first.group,
            deg: first.deg,
        };
        let message = BytePairLutMsg {
            op: op.dup(),
            a: a[i].dup(),
            b: b[i].dup(),
            c: c[i].dup(),
        }.message();
        interact(out, column, label, mult.dup(), message, Deg { v: 1, u: 1 });
        assert(fractions(out@).last() =~= full[i as int]);
        assert((start + full.take(i as int)).push(full[i as int]) =~= start + full.take(i + 1));
        i = i + 1;
    }
    assert(full.take(8) =~= full);
}

/// The fractions that range-check eight limbs, two to a column from `first` on.
pub open spec fn limb_fractions(
    first: FractionColumn,
    label: &'static str,
    mult: int,
    limbs: Seq<int>,
) -> Seq<Fraction> {
    Seq::new(
        8,
        |i: int|
            Fraction {
                column: FractionColumn {
                    index: (first.index + i / 2) as usize,
                    group: first.group,
                    deg: first.deg,
                },
                label,
                mult,
                bus: BusId::Range16,
                part: Part::Whole,
                elems: seq![limbs[i]],
                deg: Deg { v: 1, u: 1 },
            },
    )
}

/// Asks the table to confirm that eight limbs fit sixteen bits.
pub fn require_limbs<E: FieldExpr>(
    out: &mut Vec<Interaction<E>>,
    first: FractionColumn,
    label: &'static str,
    mult: &E,
    limbs: &[E],
)
    requires
        limbs@.len() == 8,
        first.index < 1000,
    ensures
        fractions(final(out)@) == fractions(old(out)@) + limb_fractions(
            first,
            label,
            mult.rep(),
            reps(limbs@),
        ),
{
    let ghost start = fractions(out@);
    let ghost full = limb_fractions(first, label, mult.rep(), reps(limbs@));
    assert(start + full.take(0) =~= start);
    let mut i: usize = 0;
    while i < 8
        invariant
            i <= 8,
            limbs@.len() == 8,
            first.index < 1000,
            full == limb_fractions(first, label, mult.rep(), reps(limbs@)),
            fractions(out@) == start + full.take(i as int),
        decreases 8 - i,
    {
        let column = FractionColumn {
            index: first.index + i / 2,
            group: first.group,
            deg: first.deg,
        };
        interact(
            out,
            column,
            label,
            mult.dup(),
            Range16Msg { w: limbs[i].dup() }.message(),
            Deg { v: 1, u: 1 },
        );
        assert(fractions(out@).last() =~= full[i as int]);
        assert((start + full.take(i as int)).push(full[i as int]) =~= start + full.take(i + 1));
        i = i + 1;
    }
    assert(full.take(8) =~= full);
}

/// What a row of the table provides: both operations on its pair of bytes, and the pair as a
/// 16-bit word.
pub open spec fn table_fractions(l: Seq<int>) -> Seq<Fraction> {
    let s = Seq::<Fraction>::empty();
    let a: int = l[PRE_A as int];
    let b: int = l[PRE_B as int];
    let c_andnot: int = l[PRE_C_ANDNOT as int];
    let c_xor: int = l[PRE_C_XOR as int];
    let mult_andnot: int = l[NUM_PREPROCESSED_COLS + COL_MULT_ANDNOT];
    let mult_xor: int = l[NUM_PREPROCESSED_COLS + COL_MULT_XOR];
    let mult_range16: int = l[NUM_PREPROCESSED_COLS + COL_MULT_RANGE16];
    let column = FractionColumn { index: 0, group: "bpl-self-provides", deg: Deg { v: 1, u: 2 } };
    let s = s.push(
        Fraction {
            column,
            label: "andnot",
            mult: 0 - mult_andnot,
            bus: BusId::BytePairLut,
            part: Part::Whole,
            elems: seq![0, a, b, c_andnot],
            deg: Deg { v: 1, u: 1 },
        }
    );
    let column = FractionColumn { index: 1, group: "bpl-self-provides", deg: Deg { v: 3, u: 2 } };
    let s = s.push(
        Fraction {
            column,
            label: "xor",
            mult: 0 - mult_xor,
            bus: BusId::BytePairLut,
            part: Part::Whole,
            elems: seq![1, a, b, c_xor],
            deg: Deg { v: 1, u: 1 },
        }
    );
    let s = s.push(
        Fraction {
            column,
            label: "range16",
            mult: 0 - mult_range16,
            bus: BusId::Range16,
            part: Part::Whole,
            elems: seq![a + 256 * b],
            deg: Deg { v: 1, u: 1 },
        }
    );
    s
}

/// The fractions of one row, given its fixed and witness columns.
pub fn eval_lookups<E: FieldExpr>(local: &[E]) -> (r: Vec<Interaction<E>>)
    requires
        local@.len() == NUM_LOOKUP_COLS,
    ensures
        fractions(r@) == table_fractions(reps(local@)),
{
    let mut out: Vec<Interaction<E>> = Vec::new();
    assert(fractions(out@) =~= Seq::<Fraction>::empty());
    let a = &local[PRE_A];
    let b = &local[PRE_B];
    let c_andnot = &local[PRE_C_ANDNOT];
    let c_xor = &local[PRE_C_XOR];
    let mult_andnot = &local[NUM_PREPROCESSED_COLS + COL_MULT_ANDNOT];
    let mult_xor = &local[NUM_PREPROCESSED_COLS + COL_MULT_XOR];
    let mult_range16 = &local[NUM_PREPROCESSED_COLS + COL_MULT_RANGE16];
    let column = FractionColumn { index: 0, group: "bpl-self-provides", deg: Deg { v: 1, u: 2 } };
    interact(
        &mut out,
        column,
        "andnot",
        E::constant(0).minus(mult_andnot),
        BytePairLutMsg { op: E::constant(0), a: a.dup(), b: b.dup(), c: c_andnot.dup() }.message(),
        Deg { v: 1, u: 1 },
    );
    let column = FractionColumn { index: 1, group: "bpl-self-provides", deg: Deg { v: 3, u: 2 } };
    interact(
        &mut out,
        column,
        "xor",
        E::constant(0).minus(mult_xor),
        BytePairLutMsg { op: E::constant(1), a: a.dup(), b: b.dup(), c: c_xor.dup() }.message(),
        Deg { v: 1, u: 1 },
    );
    interact(
        &mut out,
        column,
        "range16",
        E::constant(0).minus(mult_range16),
        Range16Msg { w: a.plus(&E::constant(256).times(b)) }.message(),
        Deg { v: 1, u: 1 },
    );
    out
}

} // verus!
