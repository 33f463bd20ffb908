//! Complete point addition over the group table and the point store.
//!
//! One addition takes four rows. A witnessed case selects the certificates that prove it: operands
//! at infinity pass the other operand through, cancelling operands give infinity, and doubling and
//! the chord share a tail that computes the result from the slope.

use crate::precompiles::byte_pair_lut::Range16Msg;
use crate::precompiles::ec::{EcGroupMsg, EcPointMsg};
use crate::precompiles::field::{reps, FieldExpr};
use crate::precompiles::logup::{
    demands, fractions, hold_demands, interact, require, require_hold, Constraint, Deg, Fraction,
    FractionColumn, Interaction, Message, Part, Rows,
};
use crate::precompiles::relations::BusId;
use crate::precompiles::uint::{UintAddMsg, UintMulMsg};
use vstd::prelude::*;

verus! {

/// `R = P + Q` in the group.
#[derive(Debug, Clone)]
pub struct EcGroupAddMsg<E> {
    pub group_ptr: E,
    pub p_ptr: E,
    pub q_ptr: E,
    pub r_ptr: E,
}

impl<E: FieldExpr> EcGroupAddMsg<E> {
    /// The tuple this message puts on [`BusId::EcGroupAdd`].
    pub fn message(self) -> (r: Message<E>)
        ensures
            r.bus == BusId::EcGroupAdd,
            r.part == Part::Whole,
            reps(r.elems@) == seq![
                self.group_ptr.rep(),
                self.p_ptr.rep(),
                self.q_ptr.rep(),
                self.r_ptr.rep(),
            ],
    {
        let elems = vec![self.group_ptr, self.p_ptr, self.q_ptr, self.r_ptr];
        assert(
            reps(elems@) =~= seq![
                self.group_ptr.rep(),
                self.p_ptr.rep(),
                self.q_ptr.rep(),
                self.r_ptr.rep(),
            ]
        );
        Message { bus: BusId::EcGroupAdd, part: Part::Whole, elems }
    }
}

/// Point `r` is on the curve because the group law is closed.
#[derive(Debug, Clone)]
pub struct EcOnCurveCertMsg<E> {
    pub group_ptr: E,
    pub r_ptr: E,
}

impl<E: FieldExpr> EcOnCurveCertMsg<E> {
    /// The tuple this message puts on [`BusId::EcOnCurveCert`].
    pub fn message(self) -> (r: Message<E>)
        ensures
            r.bus == BusId::EcOnCurveCert,
            r.part == Part::Whole,
            reps(r.elems@) == seq![self.group_ptr.rep(), self.r_ptr.rep()],
    {
        let elems = vec![self.group_ptr, self.r_ptr];
        assert(reps(elems@) =~= seq![self.group_ptr.rep(), self.r_ptr.rep()]);
        Message { bus: BusId::EcOnCurveCert, part: Part::Whole, elems }
    }
}

/// Pointer cells in front of the columns that stay constant along a block.
pub const NUM_CELLS: usize = 3;
/// Operand coordinates. Zero at infinity.
pub const COL_PX: usize = 3;
pub const COL_PY: usize = 4;
pub const COL_QX: usize = 5;
pub const COL_QY: usize = 6;
pub const COL_A_PTR: usize = 7;
pub const COL_B_PTR: usize = 8;
pub const COL_BOUND_PTR: usize = 9;
/// The case flags: an operand at infinity, cancelling operands, doubling, or the chord.
pub const COL_PAI_P: usize = 10;
pub const COL_PAI_Q: usize = 11;
pub const COL_CANCEL: usize = 12;
pub const COL_DBL: usize = 13;
pub const COL_GEN: usize = 14;
pub const COL_ACT: usize = 15;
/// The result is freshly allocated, so this operation owns its membership certificate.
pub const COL_MINTS: usize = 16;
/// Limbs of `r - p - 1`, which show that `r` is above `p`.
pub const COL_RP_LO: usize = 17;
pub const COL_RP_HI: usize = 18;
/// Limbs of `r - q - 1`, which show that `r` is above `q`.
pub const COL_RQ_LO: usize = 19;
pub const COL_RQ_HI: usize = 20;
pub const COL_BETA_PTR: usize = 21;
pub const COL_LAMBDA_PTR: usize = 22;
pub const NUM_MAIN_COLS: usize = 23;
/// Rows of one addition.
pub const PERIOD: usize = 4;
pub const ROW_SLOPE: usize = 0;
pub const ROW_TAIL: usize = 1;
pub const ROW_RES: usize = 2;
pub const ROW_TERM: usize = 3;
/// Slope row: `x2 - x1` for the chord, `3 x^2 + a` for doubling.
pub const CELL_SLOPE_AUX: usize = 0;
pub const CELL_LAMBDA: usize = 1;
pub const CELL_T: usize = 2;
pub const CELL_Y3: usize = 0;
pub const CELL_E: usize = 1;
pub const CELL_X3: usize = 2;
pub const CELL_R: usize = 0;
pub const CELL_SBOUND: usize = 1;
pub const CELL_GROUP: usize = 2;
pub const TERM_CELL_MULT: usize = 0;
pub const TERM_CELL_P: usize = 1;
pub const TERM_CELL_Q: usize = 2;
pub const PCOL_SLOPE: usize = 0;
pub const PCOL_TAIL: usize = 1;
pub const PCOL_RES: usize = 2;
pub const PCOL_TERM: usize = 3;
pub const NUM_PERIODIC: usize = 4;
pub const NUM_LOGUP_COLS: usize = 12;
/// Fractions in each auxiliary column.
pub const COLUMN_SHAPE: [usize; 12] = [1, 2, 2, 2, 2, 2, 2, 2, 1, 2, 2, 1];

/// The addition table.
#[derive(Debug, Default, Clone, Copy)]
pub struct EcGroupAddAir;

/// The column that marks the rows with a given role.
pub open spec fn role_column(role: int) -> Seq<u64> {
    Seq::new(PERIOD as nat, |row: int| if row == role { 1u64 } else { 0u64 })
}

/// Exactly one case per active block (both pass flags for `inf + inf`), equal operands where the
/// case says so, pass-through results tied to the other operand, fresh results above both operands,
/// and every column but the cells constant along a block.
pub open spec fn add_demands(l: Seq<int>, n: Seq<int>, p: Seq<int>) -> Seq<(Rows, int)> {
    let s = Seq::<(Rows, int)>::empty();
    let pai_p: int = l[COL_PAI_P as int];
    let pai_q: int = l[COL_PAI_Q as int];
    let cancel: int = l[COL_CANCEL as int];
    let dbl: int = l[COL_DBL as int];
    let generic: int = l[COL_GEN as int];
    let act: int = l[COL_ACT as int];
    let mints: int = l[COL_MINTS as int];
    let at_res: int = p[PCOL_RES as int];
    let s = s.push((Rows::All, pai_p * (1 - pai_p)));
    let s = s.push((Rows::All, pai_q * (1 - pai_q)));
    let s = s.push((Rows::All, cancel * (1 - cancel)));
    let s = s.push((Rows::All, dbl * (1 - dbl)));
    let s = s.push((Rows::All, generic * (1 - generic)));
    let s = s.push((Rows::All, act * (1 - act)));
    let s = s.push((Rows::All, mints * (1 - mints)));
    let s = s.push((Rows::All, pai_p + pai_q + cancel + dbl + generic - act - pai_p * pai_q));
    let px: int = l[COL_PX as int];
    let qx: int = l[COL_QX as int];
    let py: int = l[COL_PY as int];
    let qy: int = l[COL_QY as int];
    let s = s.push((Rows::All, (cancel + dbl) * (px - qx)));
    let s = s.push((Rows::All, dbl * (py - qy)));
    let r: int = l[CELL_R as int];
    let term_p: int = n[TERM_CELL_P as int];
    let term_q: int = n[TERM_CELL_Q as int];
    let s = s.push((Rows::All, at_res * pai_p * (r - term_q)));
    let s = s.push((Rows::All, at_res * pai_q * (r - term_p)));
    let s = s.push((Rows::All, mints * (1 - dbl - generic)));
    let two_16: int = 65536;
    let s = s.push(
        (
            Rows::All,
            at_res * mints * (r - term_p - 1 - l[COL_RP_LO as int] - two_16 * l[COL_RP_HI as int]),
        )
    );
    let s = s.push(
        (
            Rows::All,
            at_res * mints * (r - term_q - 1 - l[COL_RQ_LO as int] - two_16 * l[COL_RQ_HI as int]),
        )
    );
    let not_term: int = 1 - p[PCOL_TERM as int];
    let s = s + hold_demands(Rows::All, not_term, l, n, COL_PX as int, NUM_MAIN_COLS as int);
    s
}

/// The certificates that an addition consumes and provides, by row role and case.
pub open spec fn add_fractions(l: Seq<int>, n: Seq<int>, p: Seq<int>) -> Seq<Fraction> {
    let s = Seq::<Fraction>::empty();
    let px: int = l[COL_PX as int];
    let py: int = l[COL_PY as int];
    let qx: int = l[COL_QX as int];
    let qy: int = l[COL_QY as int];
    let a_ptr: int = l[COL_A_PTR as int];
    let b_ptr: int = l[COL_B_PTR as int];
    let bound_ptr: int = l[COL_BOUND_PTR as int];
    let pai_p: int = l[COL_PAI_P as int];
    let pai_q: int = l[COL_PAI_Q as int];
    let cancel: int = l[COL_CANCEL as int];
    let dbl: int = l[COL_DBL as int];
    let generic: int = l[COL_GEN as int];
    let act: int = l[COL_ACT as int];
    let mints: int = l[COL_MINTS as int];
    let rp_lo: int = l[COL_RP_LO as int];
    let rp_hi: int = l[COL_RP_HI as int];
    let rq_lo: int = l[COL_RQ_LO as int];
    let rq_hi: int = l[COL_RQ_HI as int];
    let beta_ptr: int = l[COL_BETA_PTR as int];
    let lambda_ptr: int = l[COL_LAMBDA_PTR as int];
    let live: int = cancel + dbl + generic;
    let tail: int = dbl + generic;
    let at_slope: int = p[PCOL_SLOPE as int];
    let at_tail: int = p[PCOL_TAIL as int];
    let at_res: int = p[PCOL_RES as int];
    let slope_aux: int = l[CELL_SLOPE_AUX as int];
    let lambda: int = l[CELL_LAMBDA as int];
    let t: int = l[CELL_T as int];
    let e: int = n[CELL_E as int];
    let x3_next: int = n[CELL_X3 as int];
    let y3_next: int = n[CELL_Y3 as int];
    let x3: int = l[CELL_X3 as int];
    let y3: int = l[CELL_Y3 as int];
    let r_next: int = n[CELL_R as int];
    let group_next: int = n[CELL_GROUP as int];
    let r: int = l[CELL_R as int];
    let sbound: int = l[CELL_SBOUND as int];
    let group: int = l[CELL_GROUP as int];
    let neg_mult: int = 0 - n[TERM_CELL_MULT as int];
    let p_ptr: int = n[TERM_CELL_P as int];
    let q_ptr: int = n[TERM_CELL_Q as int];
    let column = FractionColumn { index: 0, group: "ec-add-bindings", deg: Deg { v: 1, u: 2 } };
    let s = s.push(
        Fraction {
            column,
            label: "provide-ecgroupadd",
            mult: neg_mult * at_res,
            bus: BusId::EcGroupAdd,
            part: Part::Whole,
            elems: seq![group, p_ptr, q_ptr, r],
            deg: Deg { v: 2, u: 1 },
        }
    );
    let column = FractionColumn { index: 1, group: "ec-add-bindings", deg: Deg { v: 3, u: 2 } };
    let s = s.push(
        Fraction {
            column,
            label: "consume-ecpoint-p",
            mult: act * at_res,
            bus: BusId::EcPoint,
            part: Part::Whole,
            elems: seq![p_ptr, group, px, py, pai_p],
            deg: Deg { v: 2, u: 1 },
        }
    );
    let s = s.push(
        Fraction {
            column,
            label: "consume-ecpoint-q",
            mult: act * at_res,
            bus: BusId::EcPoint,
            part: Part::Whole,
            elems: seq![q_ptr, group, qx, qy, pai_q],
            deg: Deg { v: 2, u: 1 },
        }
    );
    let column = FractionColumn { index: 2, group: "ec-add-bindings", deg: Deg { v: 3, u: 2 } };
    let s = s.push(
        Fraction {
            column,
            label: "consume-ecpoint-r",
            mult: tail * at_tail,
            bus: BusId::EcPoint,
            part: Part::Whole,
            elems: seq![r_next, group_next, x3, y3, 0],
            deg: Deg { v: 2, u: 1 },
        }
    );
    let s = s.push(
        Fraction {
            column,
            label: "consume-ecpoint-r-pai",
            mult: cancel * at_res,
            bus: BusId::EcPoint,
            part: Part::Whole,
            elems: seq![r, group, 0, 0, 1],
            deg: Deg { v: 2, u: 1 },
        }
    );
    let column = FractionColumn { index: 3, group: "ec-add-bindings", deg: Deg { v: 3, u: 2 } };
    let s = s.push(
        Fraction {
            column,
            label: "consume-ecgroup",
            mult: live * at_res,
            bus: BusId::EcGroup,
            part: Part::Whole,
            elems: seq![group, a_ptr, b_ptr, bound_ptr, sbound, beta_ptr, lambda_ptr],
            deg: Deg { v: 2, u: 1 },
        }
    );
    let s = s.push(
        Fraction {
            column,
            label: "consume-cancel-zero",
            mult: cancel * at_res,
            bus: BusId::UintAdd,
            part: Part::Whole,
            elems: seq![bound_ptr, py, qy, 0, 0],
            deg: Deg { v: 2, u: 1 },
        }
    );
    let column = FractionColumn { index: 4, group: "ec-add-slope", deg: Deg { v: 3, u: 2 } };
    let s = s.push(
        Fraction {
            column,
            label: "consume-d-sub",
            mult: generic * at_slope,
            bus: BusId::UintAdd,
            part: Part::Whole,
            elems: seq![bound_ptr, px, slope_aux, qx, 1],
            deg: Deg { v: 2, u: 1 },
        }
    );
    let s = s.push(
        Fraction {
            column,
            label: "consume-chord",
            mult: generic * at_slope,
            bus: BusId::UintMul,
            part: Part::Whole,
            elems: seq![1, 1, lambda, slope_aux, py, qy, bound_ptr, 0],
            deg: Deg { v: 2, u: 1 },
        }
    );
    let column = FractionColumn { index: 5, group: "ec-add-slope", deg: Deg { v: 3, u: 2 } };
    let s = s.push(
        Fraction {
            column,
            label: "consume-tangent-s",
            mult: dbl * at_slope,
            bus: BusId::UintMul,
            part: Part::Whole,
            elems: seq![3, 1, px, px, a_ptr, slope_aux, bound_ptr, 0],
            deg: Deg { v: 2, u: 1 },
        }
    );
    let s = s.push(
        Fraction {
            column,
            label: "consume-tangent-2ly",
            mult: dbl * at_slope,
            bus: BusId::UintMul,
            part: Part::Whole,
            elems: seq![2, 0, lambda, py, bound_ptr, slope_aux, bound_ptr, 0],
            deg: Deg { v: 2, u: 1 },
        }
    );
    let column = FractionColumn { index: 6, group: "ec-add-tail", deg: Deg { v: 3, u: 2 } };
    let s = s.push(
        Fraction {
            column,
            label: "consume-t-add",
            mult: generic * at_slope,
            bus: BusId::UintAdd,
            part: Part::Whole,
            elems: seq![bound_ptr, px, qx, t, 0],
            deg: Deg { v: 2, u: 1 },
        }
    );
    let s = s.push(
        Fraction {
            column,
            label: "consume-x3-macsub-gen",
            mult: generic * at_slope,
            bus: BusId::UintMul,
            part: Part::Whole,
            elems: seq![1, 1, lambda, lambda, t, x3_next, bound_ptr, 1],
            deg: Deg { v: 2, u: 1 },
        }
    );
    let column = FractionColumn { index: 7, group: "ec-add-tail", deg: Deg { v: 3, u: 2 } };
    let s = s.push(
        Fraction {
            column,
            label: "consume-e-sub",
            mult: tail * at_slope,
            bus: BusId::UintAdd,
            part: Part::Whole,
            elems: seq![bound_ptr, x3_next, e, px, 0],
            deg: Deg { v: 2, u: 1 },
        }
    );
    let s = s.push(
        Fraction {
            column,
            label: "consume-y3-macsub",
            mult: tail * at_slope,
            bus: BusId::UintMul,
            part: Part::Whole,
            elems: seq![1, 1, lambda, e, py, y3_next, bound_ptr, 1],
            deg: Deg { v: 2, u: 1 },
        }
    );
    let column = FractionColumn { index: 8, group: "ec-add-tail", deg: Deg { v: 1, u: 2 } };
    let s = s.push(
        Fraction {
            column,
            label: "consume-x3-macsub-dbl",
            mult: dbl * at_slope,
            bus: BusId::UintMul,
            part: Part::Whole,
            elems: seq![1, 2, lambda, lambda, px, x3_next, bound_ptr, 1],
            deg: Deg { v: 2, u: 1 },
        }
    );
    let mint_here: int = at_res * mints;
    let column = FractionColumn { index: 9, group: "ec-add-mint", deg: Deg { v: 3, u: 2 } };
    let s = s.push(
        Fraction {
            column,
            label: "range16-rp-lo",
            mult: mint_here,
            bus: BusId::Range16,
            part: Part::Whole,
            elems: seq![rp_lo],
            deg: Deg { v: 2, u: 1 },
        }
    );
    let s = s.push(
        Fraction {
            column,
            label: "range16-rp-hi",
            mult: mint_here,
            bus: BusId::Range16,
            part: Part::Whole,
            elems: seq![rp_hi],
            deg: Deg { v: 2, u: 1 },
        }
    );
    let column = FractionColumn { index: 10, group: "ec-add-mint", deg: Deg { v: 3, u: 2 } };
    let s = s.push(
        Fraction {
            column,
            label: "range16-rq-lo",
            mult: mint_here,
            bus: BusId::Range16,
            part: Part::Whole,
            elems: seq![rq_lo],
            deg: Deg { v: 2, u: 1 },
        }
    );
    let s = s.push(
        Fraction {
            column,
            label: "range16-rq-hi",
            mult: mint_here,
            bus: BusId::Range16,
            part: Part::Whole,
            elems: seq![rq_hi],
            deg: Deg { v: 2, u: 1 },
        }
    );
    let column = FractionColumn { index: 11, group: "ec-add-mint", deg: Deg { v: 1, u: 2 } };
    let s = s.push(
        Fraction {
            column,
            label: "provide-ecgroupadd-cert",
            mult: 0 - mint_here,
            bus: BusId::EcOnCurveCert,
            part: Part::Whole,
            elems: seq![group, r],
            deg: Deg { v: 2, u: 1 },
        }
    );
    s
}

impl EcGroupAddAir {
    /// One column per row role, set on that role's row of each block and zero elsewhere.
    pub fn periodic_columns(&self) -> (r: Vec<Vec<u64>>)
        ensures
            r@.len() == NUM_PERIODIC,
            forall|col: int| 0 <= col < NUM_PERIODIC ==> (#[trigger] r@[col])@ == role_column(col),
    {
        let mut cols: Vec<Vec<u64>> = Vec::new();
        let mut role: usize = 0;
        while role < NUM_PERIODIC
            invariant
                role <= NUM_PERIODIC,
                cols@.len() == role,
                forall|col: int| 0 <= col < role ==> (#[trigger] cols@[col])@ == role_column(col),
            decreases NUM_PERIODIC - role,
        {
            let mut col: Vec<u64> = Vec::new();
            let mut row: usize = 0;
            while row < PERIOD
                invariant
                    row <= PERIOD,
                    col@ == role_column(role as int).take(row as int),
                decreases PERIOD - row,
            {
                col.push(if row == role { 1 } else { 0 });
                assert(col@ =~= role_column(role as int).take(row + 1));
                row = row + 1;
            }
            assert(col@ =~= role_column(role as int));
            cols.push(col);
            role = role + 1;
        }
        cols
    }

    /// The constraints on a row and its successor.
    #[verifier::spinoff_prover]
    pub fn eval<E: FieldExpr>(&self, local: &[E], next: &[E], periodic: &[E]) -> (r: Vec<Constraint<E>>)
        requires
            local@.len() == NUM_MAIN_COLS,
            next@.len() == NUM_MAIN_COLS,
            periodic@.len() == NUM_PERIODIC,
        ensures
            demands(r@) == add_demands(reps(local@), reps(next@), reps(periodic@)),
    {
        let mut out: Vec<Constraint<E>> = Vec::new();
        assert(demands(out@) =~= Seq::<(Rows, int)>::empty());
        let pai_p = &local[COL_PAI_P];
        let pai_q = &local[COL_PAI_Q];
        let cancel = &local[COL_CANCEL];
        let dbl = &local[COL_DBL];
        let generic = &local[COL_GEN];
        let act = &local[COL_ACT];
        let mints = &local[COL_MINTS];
        let at_res = &periodic[PCOL_RES];
        require(&mut out, Rows::All, pai_p.times(&E::constant(1).minus(pai_p)));
        require(&mut out, Rows::All, pai_q.times(&E::constant(1).minus(pai_q)));
        require(&mut out, Rows::All, cancel.times(&E::constant(1).minus(cancel)));
        require(&mut out, Rows::All, dbl.times(&E::constant(1).minus(dbl)));
        require(&mut out, Rows::All, generic.times(&E::constant(1).minus(generic)));
        require(&mut out, Rows::All, act.times(&E::constant(1).minus(act)));
        require(&mut out, Rows::All, mints.times(&E::constant(1).minus(mints)));
        require(
            &mut out,
            Rows::All,
            pai_p.plus(pai_q).plus(cancel).plus(dbl).plus(generic).minus(act).minus(&pai_p.times(pai_q)),
        );
        let px = &local[COL_PX];
        let qx = &local[COL_QX];
        let py = &local[COL_PY];
        let qy = &local[COL_QY];
        require(&mut out, Rows::All, cancel.plus(dbl).times(&px.minus(qx)));
        require(&mut out, Rows::All, dbl.times(&py.minus(qy)));
        let r = &local[CELL_R];
        let term_p = &next[TERM_CELL_P];
        let term_q = &next[TERM_CELL_Q];
        require(&mut out, Rows::All, at_res.times(pai_p).times(&r.minus(term_q)));
        require(&mut out, Rows::All, at_res.times(pai_q).times(&r.minus(term_p)));
        require(&mut out, Rows::All, mints.times(&E::constant(1).minus(dbl).minus(generic)));
        let two_16 = E::constant(65536);
        require(
            &mut out,
            Rows::All,
            at_res.times(mints).times(
                &r.minus(term_p).minus(&E::constant(1)).minus(&local[COL_RP_LO]).minus(
                    &two_16.times(&local[COL_RP_HI]),
                ),
            ),
        );
        require(
            &mut out,
            Rows::All,
            at_res.times(mints).times(
                &r.minus(term_q).minus(&E::constant(1)).minus(&local[COL_RQ_LO]).minus(
                    &two_16.times(&local[COL_RQ_HI]),
                ),
            ),
        );
        let not_term = E::constant(1).minus(&periodic[PCOL_TERM]);
        require_hold(&mut out, Rows::All, &not_term, local, next, COL_PX, NUM_MAIN_COLS);
        out
    }

    /// The fractions of a row and its successor.
    #[verifier::spinoff_prover]
    #[verifier::rlimit(50)]
    pub fn eval_lookups<E: FieldExpr>(&self, local: &[E], next: &[E], periodic: &[E]) -> (r: Vec<Interaction<E>>)
        requires
            local@.len() == NUM_MAIN_COLS,
            next@.len() == NUM_MAIN_COLS,
            periodic@.len() == NUM_PERIODIC,
        ensures
            fractions(r@) == add_fractions(reps(local@), reps(next@), reps(periodic@)),
    {
        let mut out: Vec<Interaction<E>> = Vec::new();
        assert(fractions(out@) =~= Seq::<Fraction>::empty());
        let px = &local[COL_PX];
        let py = &local[COL_PY];
        let qx = &local[COL_QX];
        let qy = &local[COL_QY];
        let a_ptr = &local[COL_A_PTR];
        let b_ptr = &local[COL_B_PTR];
        let bound_ptr = &local[COL_BOUND_PTR];
        let pai_p = &local[COL_PAI_P];
        let pai_q = &local[COL_PAI_Q];
        let cancel = &local[COL_CANCEL];
        let dbl = &local[COL_DBL];
        let generic = &local[COL_GEN];
        let act = &local[COL_ACT];
        let mints = &local[COL_MINTS];
        let rp_lo = &local[COL_RP_LO];
        let rp_hi = &local[COL_RP_HI];
        let rq_lo = &local[COL_RQ_LO];
        let rq_hi = &local[COL_RQ_HI];
        let beta_ptr = &local[COL_BETA_PTR];
        let lambda_ptr = &local[COL_LAMBDA_PTR];
        let live = cancel.plus(dbl).plus(generic);
        let tail = dbl.plus(generic);
        let at_slope = &periodic[PCOL_SLOPE];
        let at_tail = &periodic[PCOL_TAIL];
        let at_res = &periodic[PCOL_RES];
        let slope_aux = &local[CELL_SLOPE_AUX];
        let lambda = &local[CELL_LAMBDA];
        let t = &local[CELL_T];
        let e = &next[CELL_E];
        let x3_next = &next[CELL_X3];
        let y3_next = &next[CELL_Y3];
        let x3 = &local[CELL_X3];
        let y3 = &local[CELL_Y3];
        let r_next = &next[CELL_R];
        let group_next = &next[CELL_GROUP];
        let r = &local[CELL_R];
        let sbound = &local[CELL_SBOUND];
        let group = &local[CELL_GROUP];
        let neg_mult = E::constant(0).minus(&next[TERM_CELL_MULT]);
        let p_ptr = &next[TERM_CELL_P];
        let q_ptr = &next[TERM_CELL_Q];
        let column = FractionColumn { index: 0, group: "ec-add-bindings", deg: Deg { v: 1, u: 2 } };
        interact(
            &mut out,
            column,
            "provide-ecgroupadd",
            neg_mult.times(at_res),
            EcGroupAddMsg {
                group_ptr: group.dup(),
                p_ptr: p_ptr.dup(),
                q_ptr: q_ptr.dup(),
                r_ptr: r.dup(),
            }.message(),
            Deg { v: 2, u: 1 },
        );
        let column = FractionColumn { index: 1, group: "ec-add-bindings", deg: Deg { v: 3, u: 2 } };
        interact(
            &mut out,
            column,
            "consume-ecpoint-p",
            act.times(at_res),
            EcPointMsg {
                point_ptr: p_ptr.dup(),
                group_ptr: group.dup(),
                x_ptr: px.dup(),
                y_ptr: py.dup(),
                is_pai: pai_p.dup(),
            }.message(),
            Deg { v: 2, u: 1 },
        );
        interact(
            &mut out,
            column,
            "consume-ecpoint-q",
            act.times(at_res),
            EcPointMsg {
                point_ptr: q_ptr.dup(),
                group_ptr: group.dup(),
                x_ptr: qx.dup(),
                y_ptr: qy.dup(),
                is_pai: pai_q.dup(),
            }.message(),
            Deg { v: 2, u: 1 },
        );
        let column = FractionColumn { index: 2, group: "ec-add-bindings", deg: Deg { v: 3, u: 2 } };
        interact(
            &mut out,
            column,
            "consume-ecpoint-r",
            tail.times(at_tail),
            EcPointMsg {
                point_ptr: r_next.dup(),
                group_ptr: group_next.dup(),
                x_ptr: x3.dup(),
                y_ptr: y3.dup(),
                is_pai: E::constant(0),
            }.message(),
            Deg { v: 2, u: 1 },
        );
        interact(
            &mut out,
            column,
            "consume-ecpoint-r-pai",
            cancel.times(at_res),
            EcPointMsg {
                point_ptr: r.dup(),
                group_ptr: group.dup(),
                x_ptr: E::constant(0),
                y_ptr: E::constant(0),
                is_pai: E::constant(1),
            }.message(),
            Deg { v: 2, u: 1 },
        );
        let column = FractionColumn { index: 3, group: "ec-add-bindings", deg: Deg { v: 3, u: 2 } };
        interact(
            &mut out,
            column,
            "consume-ecgroup",
            live.times(at_res),
            EcGroupMsg {
                group_ptr: group.dup(),
                a_ptr: a_ptr.dup(),
                b_ptr: b_ptr.dup(),
                bound_ptr: bound_ptr.dup(),
                scalar_bound_ptr: sbound.dup(),
                beta_ptr: beta_ptr.dup(),
                lambda_ptr: lambda_ptr.dup(),
            }.message(),
            Deg { v: 2, u: 1 },
        );
        interact(
            &mut out,
            column,
            "consume-cancel-zero",
            cancel.times(at_res),
            UintAddMsg {
                bound_ptr: bound_ptr.dup(),
                a_ptr: py.dup(),
                b_ptr: qy.dup(),
                c_ptr: E::constant(0),
                nz: E::constant(0),
            }.message(),
            Deg { v: 2, u: 1 },
        );
        let column = FractionColumn { index: 4, group: "ec-add-slope", deg: Deg { v: 3, u: 2 } };
        interact(
            &mut out,
            column,
            "consume-d-sub",
            generic.times(at_slope),
            UintAddMsg {
                bound_ptr: bound_ptr.dup(),
                a_ptr: px.dup(),
                b_ptr: slope_aux.dup(),
                c_ptr: qx.dup(),
                nz: E::constant(1),
            }.message(),
            Deg { v: 2, u: 1 },
        );
        interact(
            &mut out,
            column,
            "consume-chord",
            generic.times(at_slope),
            UintMulMsg {
                kappa_a: E::constant(1),
                kappa_c: E::constant(1),
                a_ptr: lambda.dup(),
                b_ptr: slope_aux.dup(),
                c_ptr: py.dup(),
                r_ptr: qy.dup(),
                bound_ptr: bound_ptr.dup(),
                is_sub: E::constant(0),
            }.message(),
            Deg { v: 2, u: 1 },
        );
        let column = FractionColumn { index: 5, group: "ec-add-slope", deg: Deg { v: 3, u: 2 } };
        interact(
            &mut out,
            column,
            "consume-tangent-s",
            dbl.times(at_slope),
            UintMulMsg {
                kappa_a: E::constant(3),
                kappa_c: E::constant(1),
                a_ptr: px.dup(),
                b_ptr: px.dup(),
                c_ptr: a_ptr.dup(),
                r_ptr: slope_aux.dup(),
                bound_ptr: bound_ptr.dup(),
                is_sub: E::constant(0),
            }.message(),
            Deg { v: 2, u: 1 },
        );
        interact(
            &mut out,
            column,
            "consume-tangent-2ly",
            dbl.times(at_slope),
            UintMulMsg {
                kappa_a: E::constant(2),
                kappa_c: E::constant(0),
                a_ptr: lambda.dup(),
                b_ptr: py.dup(),
                c_ptr: bound_ptr.dup(),
                r_ptr: slope_aux.dup(),
                bound_ptr: bound_ptr.dup(),
                is_sub: E::constant(0),
            }.message(),
            Deg { v: 2, u: 1 },
        );
        let column = FractionColumn { index: 6, group: "ec-add-tail", deg: Deg { v: 3, u: 2 } };
        interact(
            &mut out,
            column,
            "consume-t-add",
            generic.times(at_slope),
            UintAddMsg {
                bound_ptr: bound_ptr.dup(),
                a_ptr: px.dup(),
                b_ptr: qx.dup(),
                c_ptr: t.dup(),
                nz: E::constant(0),
            }.message(),
            Deg { v: 2, u: 1 },
        );
        interact(
            &mut out,
            column,
            "consume-x3-macsub-gen",
            generic.times(at_slope),
            UintMulMsg {
                kappa_a: E::constant(1),
                kappa_c: E::constant(1),
                a_ptr: lambda.dup(),
                b_ptr: lambda.dup(),
                c_ptr: t.dup(),
                r_ptr: x3_next.dup(),
                bound_ptr: bound_ptr.dup(),
                is_sub: E::constant(1),
            }.message(),
            Deg { v: 2, u: 1 },
        );
        let column = FractionColumn { index: 7, group: "ec-add-tail", deg: Deg { v: 3, u: 2 } };
        interact(
            &mut out,
            column,
            "consume-e-sub",
            tail.times(at_slope),
            UintAddMsg {
                bound_ptr: bound_ptr.dup(),
                a_ptr: x3_next.dup(),
                b_ptr: e.dup(),
                c_ptr: px.dup(),
                nz: E::constant(0),
            }.message(),
            Deg { v: 2, u: 1 },
        );
        interact(
            &mut out,
            column,
            "consume-y3-macsub",
            tail.times(at_slope),
            UintMulMsg {
                kappa_a: E::constant(1),
                kappa_c: E::constant(1),
                a_ptr: lambda.dup(),
                b_ptr: e.dup(),
                c_ptr: py.dup(),
                r_ptr: y3_next.dup(),
                bound_ptr: bound_ptr.dup(),
                is_sub: E::constant(1),
            }.message(),
            Deg { v: 2, u: 1 },
        );
        let column = FractionColumn { index: 8, group: "ec-add-tail", deg: Deg { v: 1, u: 2 } };
        interact(
            &mut out,
            column,
            "consume-x3-macsub-dbl",
            dbl.times(at_slope),
            UintMulMsg {
                kappa_a: E::constant(1),
                kappa_c: E::constant(2),
                a_ptr: lambda.dup(),
                b_ptr: lambda.dup(),
                c_ptr: px.dup(),
                r_ptr: x3_next.dup(),
                bound_ptr: bound_ptr.dup(),
                is_sub: E::constant(1),
            }.message(),
            Deg { v: 2, u: 1 },
        );
        let mint_here = at_res.times(mints);
        let column = FractionColumn { index: 9, group: "ec-add-mint", deg: Deg { v: 3, u: 2 } };
        interact(
            &mut out,
            column,
            "range16-rp-lo",
            mint_here.dup(),
            Range16Msg { w: rp_lo.dup() }.message(),
            Deg { v: 2, u: 1 },
        );
        interact(
            &mut out,
            column,
            "range16-rp-hi",
            mint_here.dup(),
            Range16Msg { w: rp_hi.dup() }.message(),
            Deg { v: 2, u: 1 },
        );
        let column = FractionColumn { index: 10, group: "ec-add-mint", deg: Deg { v: 3, u: 2 } };
        interact(
            &mut out,
            column,
            "range16-rq-lo",
            mint_here.dup(),
            Range16Msg { w: rq_lo.dup() }.message(),
            Deg { v: 2, u: 1 },
        );
        interact(
            &mut out,
            column,
            "range16-rq-hi",
            mint_here.dup(),
            Range16Msg { w: rq_hi.dup() }.message(),
            Deg { v: 2, u: 1 },
        );
        let column = FractionColumn { index: 11, group: "ec-add-mint", deg: Deg { v: 1, u: 2 } };
        interact(
            &mut out,
            column,
            "provide-ecgroupadd-cert",
            E::constant(0).minus(&mint_here),
            EcOnCurveCertMsg { group_ptr: group.dup(), r_ptr: r.dup() }.message(),
            Deg { v: 2, u: 1 },
        );
        out
    }
}

} // verus!
