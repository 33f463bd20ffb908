//! Multi-scalar sums: expressions that list points with scalars, built by introducing a point,
//! merging two expressions, negating one, or applying the curve endomorphism.

use crate::precompiles::byte_pair_lut::Range16Msg;
use crate::precompiles::ec::add::{EcGroupAddMsg, EcOnCurveCertMsg};
use crate::precompiles::ec::{EcGroupMsg, EcPointMsg};
use crate::precompiles::field::{reps, FieldExpr};
use crate::precompiles::logup::{
    bool_poly, demands, fractions, interact, require, require_bool, Constraint, Deg, Fraction,
    FractionColumn, Interaction, Message, Part, Rows,
};
use crate::precompiles::relations::BusId;
use crate::precompiles::uint::{UintAddMsg, UintMulMsg, UintValMsg};
use vstd::prelude::*;

verus! {

/// Term `idx` of an expression: a point and its scalar.
#[derive(Debug, Clone)]
pub struct MsmTermMsg<E> {
    pub expr_ptr: E,
    pub idx: E,
    pub base_ptr: E,
    pub scalar_ptr: E,
}

impl<E: FieldExpr> MsmTermMsg<E> {
    /// The tuple this message puts on [`BusId::MsmTerm`].
    pub fn message(self) -> (r: Message<E>)
        ensures
            r.bus == BusId::MsmTerm,
            r.part == Part::Whole,
            reps(r.elems@) == seq![
                self.expr_ptr.rep(),
                self.idx.rep(),
                self.base_ptr.rep(),
                self.scalar_ptr.rep(),
            ],
    {
        let elems = vec![self.expr_ptr, self.idx, self.base_ptr, self.scalar_ptr];
        assert(
            reps(elems@) =~= seq![
                self.expr_ptr.rep(),
                self.idx.rep(),
                self.base_ptr.rep(),
                self.scalar_ptr.rep(),
            ]
        );
        Message { bus: BusId::MsmTerm, part: Part::Whole, elems }
    }
}

/// An expression as a whole: its group, its value, and its number of terms.
#[derive(Debug, Clone)]
pub struct MsmExprMsg<E> {
    pub expr_ptr: E,
    pub group_ptr: E,
    pub val_ptr: E,
    pub k: E,
}

impl<E: FieldExpr> MsmExprMsg<E> {
    /// The tuple this message puts on [`BusId::MsmExpr`].
    pub fn message(self) -> (r: Message<E>)
        ensures
            r.bus == BusId::MsmExpr,
            r.part == Part::Whole,
            reps(r.elems@) == seq![
                self.expr_ptr.rep(),
                self.group_ptr.rep(),
                self.val_ptr.rep(),
                self.k.rep(),
            ],
    {
        let elems = vec![self.expr_ptr, self.group_ptr, self.val_ptr, self.k];
        assert(
            reps(elems@) =~= seq![
                self.expr_ptr.rep(),
                self.group_ptr.rep(),
                self.val_ptr.rep(),
                self.k.rep(),
            ]
        );
        Message { bus: BusId::MsmExpr, part: Part::Whole, elems }
    }
}

/// A term of a claimed expression.
#[derive(Debug, Clone)]
pub struct MsmClaimTermMsg<E> {
    pub expr_ptr: E,
    pub base_ptr: E,
    pub scalar_ptr: E,
}

impl<E: FieldExpr> MsmClaimTermMsg<E> {
    /// The tuple this message puts on [`BusId::MsmClaimTerm`].
    pub fn message(self) -> (r: Message<E>)
        ensures
            r.bus == BusId::MsmClaimTerm,
            r.part == Part::Whole,
            reps(r.elems@) == seq![self.expr_ptr.rep(), self.base_ptr.rep(), self.scalar_ptr.rep()],
    {
        let elems = vec![self.expr_ptr, self.base_ptr, self.scalar_ptr];
        assert(
            reps(elems@) =~= seq![self.expr_ptr.rep(), self.base_ptr.rep(), self.scalar_ptr.rep()]
        );
        Message { bus: BusId::MsmClaimTerm, part: Part::Whole, elems }
    }
}

/// Row is in use.
pub const COL_ACT: usize = 0;
/// The expression this row belongs to.
pub const COL_EXPR_PTR: usize = 1;
/// Last term of its expression.
pub const COL_IS_BOUNDARY: usize = 2;
pub const COL_GROUP_PTR: usize = 3;
pub const COL_SBOUND_PTR: usize = 4;
/// Position of the term in its expression.
pub const COL_IDX: usize = 5;
pub const COL_BASE: usize = 6;
pub const COL_SCALAR: usize = 7;
pub const COL_VAL: usize = 8;
/// How often the expression is consumed.
pub const COL_MULT: usize = 9;
/// The expression is one point with scalar one.
pub const COL_IS_INTRO: usize = 10;
/// The expression merges two older ones.
pub const COL_IS_COMBINE: usize = 11;
pub const COL_A_EXPR: usize = 12;
pub const COL_B_EXPR: usize = 13;
/// Cursors into the merged expressions.
pub const COL_I: usize = 14;
pub const COL_J: usize = 15;
/// Which side a merge step takes a term from.
pub const COL_TAKE_A: usize = 16;
pub const COL_TAKE_B: usize = 17;
pub const COL_TAKE_BOTH: usize = 18;
pub const COL_BASE_A: usize = 19;
pub const COL_S_A: usize = 20;
pub const COL_BASE_B: usize = 21;
pub const COL_S_B: usize = 22;
pub const COL_VAL_A: usize = 23;
pub const COL_VAL_B: usize = 24;
pub const COL_A_PTR: usize = 25;
pub const COL_B_PTR: usize = 26;
pub const COL_BOUND_PTR: usize = 27;
/// Limbs that show the operands are older expressions.
pub const COL_A_DIFF_LO: usize = 28;
pub const COL_A_DIFF_HI: usize = 29;
pub const COL_B_DIFF_LO: usize = 30;
pub const COL_B_DIFF_HI: usize = 31;
/// The expression negates an older one.
pub const COL_IS_NEG: usize = 32;
pub const COL_NEG_X: usize = 33;
/// How often the expression is claimed as a whole.
pub const COL_CLAIM_MULT: usize = 34;
pub const COL_NEG_YA: usize = 35;
pub const COL_NEG_YR: usize = 36;
pub const COL_NEG_MINTED: usize = 37;
pub const COL_BETA_PTR: usize = 38;
pub const COL_LAMBDA_PTR: usize = 39;
/// The expression is the image of a point under the endomorphism.
pub const COL_IS_INTRO_ENDO: usize = 40;
pub const COL_ENDO_BASE_X: usize = 41;
pub const COL_ENDO_Y: usize = 42;
pub const COL_ENDO_VAL_X: usize = 43;
pub const COL_ENDO_MINTED: usize = 44;
pub const NUM_MAIN_COLS: usize = 45;
pub const NUM_LOGUP_COLS: usize = 13;
/// Fractions in each auxiliary column.
pub const COLUMN_SHAPE: [usize; 13] = [1, 2, 2, 1, 2, 2, 2, 2, 2, 2, 2, 2, 2];

/// The multi-scalar table.
#[derive(Debug, Default, Clone, Copy)]
pub struct EcMsmAir;

/// Kinds are exclusive and constant along an expression, expression and term numbers count up,
/// single-row kinds end at once, a merge takes from one side or from both and advances the cursors it
/// takes from, and operands are older than the expression they enter.
pub open spec fn msm_demands(l: Seq<int>, n: Seq<int>) -> Seq<(Rows, int)> {
    let s = Seq::<(Rows, int)>::empty();
    let act: int = l[COL_ACT as int];
    let is_boundary: int = l[COL_IS_BOUNDARY as int];
    let is_intro: int = l[COL_IS_INTRO as int];
    let is_intro_endo: int = l[COL_IS_INTRO_ENDO as int];
    let is_combine: int = l[COL_IS_COMBINE as int];
    let is_neg: int = l[COL_IS_NEG as int];
    let neg_minted: int = l[COL_NEG_MINTED as int];
    let endo_minted: int = l[COL_ENDO_MINTED as int];
    let idx: int = l[COL_IDX as int];
    let act_next: int = n[COL_ACT as int];
    let s = s.push((Rows::All, bool_poly(act)));
    let s = s.push((Rows::All, bool_poly(is_boundary)));
    let s = s.push((Rows::All, bool_poly(is_intro)));
    let s = s.push((Rows::All, bool_poly(is_intro_endo)));
    let s = s.push((Rows::All, bool_poly(is_combine)));
    let s = s.push((Rows::All, bool_poly(is_neg)));
    let s = s.push((Rows::All, bool_poly(neg_minted)));
    let s = s.push((Rows::All, (1 - is_neg) * neg_minted));
    let s = s.push((Rows::All, bool_poly(endo_minted)));
    let s = s.push((Rows::All, (1 - is_intro_endo) * endo_minted));
    let s = s.push((Rows::AllButLast, (1 - act) * act_next));
    let s = s.push((Rows::All, is_intro + is_intro_endo + is_combine + is_neg - act));
    let s = s.push((Rows::All, (1 - act) * is_boundary));
    let s = s.push((Rows::All, (1 - act) * l[COL_MULT as int]));
    let s = s.push((Rows::All, (1 - act) * l[COL_CLAIM_MULT as int]));
    let expr_ptr: int = l[COL_EXPR_PTR as int];
    let expr_ptr_next: int = n[COL_EXPR_PTR as int];
    let s = s.push((Rows::First, expr_ptr - 1));
    let s = s.push((Rows::AllButLast, expr_ptr_next - expr_ptr - is_boundary));
    let idx_next: int = n[COL_IDX as int];
    let s = s.push((Rows::First, idx));
    let not_boundary: int = 1 - is_boundary;
    let s = s.push((Rows::AllButLast, idx_next - not_boundary * (idx + 1)));
    let s = s.push(
        (Rows::AllButLast, not_boundary * (n[COL_GROUP_PTR as int] - l[COL_GROUP_PTR as int]))
    );
    let s = s.push(
        (Rows::AllButLast, not_boundary * (n[COL_SBOUND_PTR as int] - l[COL_SBOUND_PTR as int]))
    );
    let s = s.push((Rows::AllButLast, not_boundary * (n[COL_VAL as int] - l[COL_VAL as int])));
    let s = s.push((Rows::AllButLast, not_boundary * (n[COL_MULT as int] - l[COL_MULT as int])));
    let s = s.push(
        (Rows::AllButLast, not_boundary * (n[COL_CLAIM_MULT as int] - l[COL_CLAIM_MULT as int]))
    );
    let s = s.push(
        (Rows::AllButLast, not_boundary * (n[COL_IS_INTRO as int] - l[COL_IS_INTRO as int]))
    );
    let s = s.push(
        (
            Rows::AllButLast,
            not_boundary * (n[COL_IS_INTRO_ENDO as int] - l[COL_IS_INTRO_ENDO as int]),
        )
    );
    let s = s.push(
        (Rows::AllButLast, not_boundary * (n[COL_IS_COMBINE as int] - l[COL_IS_COMBINE as int]))
    );
    let s = s.push(
        (Rows::AllButLast, not_boundary * (n[COL_IS_NEG as int] - l[COL_IS_NEG as int]))
    );
    let s = s.push(
        (Rows::AllButLast, not_boundary * (n[COL_A_EXPR as int] - l[COL_A_EXPR as int]))
    );
    let s = s.push(
        (Rows::AllButLast, not_boundary * (n[COL_B_EXPR as int] - l[COL_B_EXPR as int]))
    );
    let s = s.push((Rows::AllButLast, not_boundary * (n[COL_VAL_A as int] - l[COL_VAL_A as int])));
    let s = s.push((Rows::AllButLast, not_boundary * (n[COL_VAL_B as int] - l[COL_VAL_B as int])));
    let s = s.push((Rows::AllButLast, not_boundary * (n[COL_A_PTR as int] - l[COL_A_PTR as int])));
    let s = s.push((Rows::AllButLast, not_boundary * (n[COL_B_PTR as int] - l[COL_B_PTR as int])));
    let s = s.push(
        (Rows::AllButLast, not_boundary * (n[COL_BOUND_PTR as int] - l[COL_BOUND_PTR as int]))
    );
    let s = s.push(
        (Rows::AllButLast, not_boundary * (n[COL_BETA_PTR as int] - l[COL_BETA_PTR as int]))
    );
    let s = s.push(
        (Rows::AllButLast, not_boundary * (n[COL_LAMBDA_PTR as int] - l[COL_LAMBDA_PTR as int]))
    );
    let s = s.push((Rows::All, is_intro * (1 - is_boundary)));
    let base: int = l[COL_BASE as int];
    let val: int = l[COL_VAL as int];
    let scalar: int = l[COL_SCALAR as int];
    let s = s.push((Rows::All, is_intro * (val - base)));
    let s = s.push((Rows::All, is_intro_endo * (1 - is_boundary)));
    let s = s.push((Rows::All, is_intro_endo * (scalar - l[COL_LAMBDA_PTR as int])));
    let take_a: int = l[COL_TAKE_A as int];
    let take_b: int = l[COL_TAKE_B as int];
    let take_both: int = l[COL_TAKE_BOTH as int];
    let s = s.push((Rows::All, bool_poly(take_a)));
    let s = s.push((Rows::All, bool_poly(take_b)));
    let s = s.push((Rows::All, bool_poly(take_both)));
    let s = s.push((Rows::All, take_a + take_b + take_both - is_combine));
    let i_cur: int = l[COL_I as int];
    let j_cur: int = l[COL_J as int];
    let i_next: int = n[COL_I as int];
    let j_next: int = n[COL_J as int];
    let s = s.push((Rows::First, i_cur));
    let s = s.push((Rows::First, j_cur));
    let adv_i: int = take_a + take_both + is_neg;
    let adv_j: int = take_b + take_both;
    let s = s.push((Rows::AllButLast, i_next - not_boundary * (i_cur + adv_i)));
    let s = s.push((Rows::AllButLast, j_next - not_boundary * (j_cur + adv_j)));
    let base_a: int = l[COL_BASE_A as int];
    let base_b: int = l[COL_BASE_B as int];
    let s_a: int = l[COL_S_A as int];
    let s_b: int = l[COL_S_B as int];
    let s = s.push((Rows::All, adv_i * (base - base_a) + take_b * (base - base_b)));
    let s = s.push((Rows::All, take_a * (scalar - s_a) + take_b * (scalar - s_b)));
    let s = s.push((Rows::All, take_both * (base_a - base_b)));
    let two_16: int = 65536;
    let bnd_a: int = (is_combine + is_neg) * is_boundary;
    let bnd_b: int = is_combine * is_boundary;
    let s = s.push(
        (
            Rows::All,
            bnd_a * (
                expr_ptr - l[COL_A_EXPR as int] - 1 - l[COL_A_DIFF_LO as int] - two_16 * l[COL_A_DIFF_HI as int]
            ),
        )
    );
    let s = s.push(
        (
            Rows::All,
            bnd_b * (
                expr_ptr - l[COL_B_EXPR as int] - 1 - l[COL_B_DIFF_LO as int] - two_16 * l[COL_B_DIFF_HI as int]
            ),
        )
    );
    s
}

/// The terms and claims that a row provides, and the terms, additions and certificates it consumes.
pub open spec fn msm_fractions(l: Seq<int>) -> Seq<Fraction> {
    let s = Seq::<Fraction>::empty();
    let expr_ptr: int = l[COL_EXPR_PTR as int];
    let is_boundary: int = l[COL_IS_BOUNDARY as int];
    let group_ptr: int = l[COL_GROUP_PTR as int];
    let sbound_ptr: int = l[COL_SBOUND_PTR as int];
    let idx: int = l[COL_IDX as int];
    let base: int = l[COL_BASE as int];
    let scalar: int = l[COL_SCALAR as int];
    let val: int = l[COL_VAL as int];
    let is_intro: int = l[COL_IS_INTRO as int];
    let is_combine: int = l[COL_IS_COMBINE as int];
    let a_expr: int = l[COL_A_EXPR as int];
    let b_expr: int = l[COL_B_EXPR as int];
    let i_cur: int = l[COL_I as int];
    let j_cur: int = l[COL_J as int];
    let take_a: int = l[COL_TAKE_A as int];
    let take_b: int = l[COL_TAKE_B as int];
    let take_both: int = l[COL_TAKE_BOTH as int];
    let base_a: int = l[COL_BASE_A as int];
    let s_a: int = l[COL_S_A as int];
    let base_b: int = l[COL_BASE_B as int];
    let s_b: int = l[COL_S_B as int];
    let val_a: int = l[COL_VAL_A as int];
    let val_b: int = l[COL_VAL_B as int];
    let a_ptr: int = l[COL_A_PTR as int];
    let b_ptr: int = l[COL_B_PTR as int];
    let bound_ptr: int = l[COL_BOUND_PTR as int];
    let a_diff_lo: int = l[COL_A_DIFF_LO as int];
    let a_diff_hi: int = l[COL_A_DIFF_HI as int];
    let b_diff_lo: int = l[COL_B_DIFF_LO as int];
    let b_diff_hi: int = l[COL_B_DIFF_HI as int];
    let is_neg: int = l[COL_IS_NEG as int];
    let neg_x: int = l[COL_NEG_X as int];
    let neg_ya: int = l[COL_NEG_YA as int];
    let neg_yr: int = l[COL_NEG_YR as int];
    let neg_minted: int = l[COL_NEG_MINTED as int];
    let beta_ptr: int = l[COL_BETA_PTR as int];
    let lambda_ptr: int = l[COL_LAMBDA_PTR as int];
    let is_intro_endo: int = l[COL_IS_INTRO_ENDO as int];
    let endo_base_x: int = l[COL_ENDO_BASE_X as int];
    let endo_y: int = l[COL_ENDO_Y as int];
    let endo_val_x: int = l[COL_ENDO_VAL_X as int];
    let endo_minted: int = l[COL_ENDO_MINTED as int];
    let neg_mult: int = 0 - l[COL_MULT as int];
    let neg_claim_mult: int = 0 - l[COL_CLAIM_MULT as int];
    let adv_i: int = take_a + take_both + is_neg;
    let adv_j: int = take_b + take_both;
    let bnd_a: int = (is_combine + is_neg) * is_boundary;
    let bnd_b: int = is_combine * is_boundary;
    let bnd_neg: int = is_neg * is_boundary;
    let bnd_group: int = (is_combine + is_neg + is_intro_endo) * is_boundary;
    let bnd_endo: int = is_intro_endo * is_boundary;
    let column = FractionColumn { index: 0, group: "ec-msm-provide", deg: Deg { v: 1, u: 2 } };
    let s = s.push(
        Fraction {
            column,
            label: "provide-msmterm",
            mult: neg_mult,
            bus: BusId::MsmTerm,
            part: Part::Whole,
            elems: seq![expr_ptr, idx, base, scalar],
            deg: Deg { v: 1, u: 1 },
        }
    );
    let column = FractionColumn { index: 1, group: "ec-msm-provide", deg: Deg { v: 3, u: 2 } };
    let s = s.push(
        Fraction {
            column,
            label: "provide-msmexpr",
            mult: (neg_mult + neg_claim_mult) * is_boundary,
            bus: BusId::MsmExpr,
            part: Part::Whole,
            elems: seq![expr_ptr, group_ptr, val, idx + 1],
            deg: Deg { v: 2, u: 1 },
        }
    );
    let s = s.push(
        Fraction {
            column,
            label: "provide-msmclaimterm",
            mult: neg_claim_mult,
            bus: BusId::MsmClaimTerm,
            part: Part::Whole,
            elems: seq![expr_ptr, base, scalar],
            deg: Deg { v: 1, u: 1 },
        }
    );
    let column = FractionColumn { index: 2, group: "ec-msm-provide", deg: Deg { v: 3, u: 2 } };
    let s = s.push(
        Fraction {
            column,
            label: "provide-oncurvecert-neg",
            mult: 0 - neg_minted * is_boundary,
            bus: BusId::EcOnCurveCert,
            part: Part::Whole,
            elems: seq![group_ptr, val],
            deg: Deg { v: 2, u: 1 },
        }
    );
    let s = s.push(
        Fraction {
            column,
            label: "consume-one",
            mult: is_intro,
            bus: BusId::UintVal,
            part: Part::Whole,
            elems: seq![scalar, sbound_ptr, 1, 0, 0, 0, 0, 0, 0, 0],
            deg: Deg { v: 1, u: 1 },
        }
    );
    let column = FractionColumn { index: 3, group: "ec-msm-walk", deg: Deg { v: 1, u: 2 } };
    let s = s.push(
        Fraction {
            column,
            label: "consume-term-a",
            mult: adv_i,
            bus: BusId::MsmTerm,
            part: Part::Whole,
            elems: seq![a_expr, i_cur, base_a, s_a],
            deg: Deg { v: 1, u: 1 },
        }
    );
    let column = FractionColumn { index: 4, group: "ec-msm-walk", deg: Deg { v: 3, u: 2 } };
    let s = s.push(
        Fraction {
            column,
            label: "consume-term-b",
            mult: adv_j,
            bus: BusId::MsmTerm,
            part: Part::Whole,
            elems: seq![b_expr, j_cur, base_b, s_b],
            deg: Deg { v: 1, u: 1 },
        }
    );
    let s = s.push(
        Fraction {
            column,
            label: "consume-uintadd",
            mult: take_both,
            bus: BusId::UintAdd,
            part: Part::Whole,
            elems: seq![sbound_ptr, s_a, s_b, scalar, 0],
            deg: Deg { v: 1, u: 1 },
        }
    );
    let column = FractionColumn { index: 5, group: "ec-msm-walk", deg: Deg { v: 3, u: 2 } };
    let s = s.push(
        Fraction {
            column,
            label: "consume-uintadd-neg",
            mult: is_neg,
            bus: BusId::UintAdd,
            part: Part::Whole,
            elems: seq![sbound_ptr, s_a, scalar, 0, 0],
            deg: Deg { v: 1, u: 1 },
        }
    );
    let s = s.push(
        Fraction {
            column,
            label: "consume-uintadd-neg-y",
            mult: bnd_neg,
            bus: BusId::UintAdd,
            part: Part::Whole,
            elems: seq![bound_ptr, neg_ya, neg_yr, 0, 0],
            deg: Deg { v: 2, u: 1 },
        }
    );
    let column = FractionColumn { index: 6, group: "ec-msm-heads", deg: Deg { v: 3, u: 2 } };
    let s = s.push(
        Fraction {
            column,
            label: "consume-head-a",
            mult: bnd_a,
            bus: BusId::MsmExpr,
            part: Part::Whole,
            elems: seq![a_expr, group_ptr, val_a, i_cur + adv_i],
            deg: Deg { v: 2, u: 1 },
        }
    );
    let s = s.push(
        Fraction {
            column,
            label: "consume-head-b",
            mult: bnd_b,
            bus: BusId::MsmExpr,
            part: Part::Whole,
            elems: seq![b_expr, group_ptr, val_b, j_cur + adv_j],
            deg: Deg { v: 2, u: 1 },
        }
    );
    let column = FractionColumn { index: 7, group: "ec-msm-heads", deg: Deg { v: 3, u: 2 } };
    let s = s.push(
        Fraction {
            column,
            label: "consume-ecgroupadd",
            mult: bnd_b,
            bus: BusId::EcGroupAdd,
            part: Part::Whole,
            elems: seq![group_ptr, val_a, val_b, val],
            deg: Deg { v: 2, u: 1 },
        }
    );
    let s = s.push(
        Fraction {
            column,
            label: "consume-ecpoint-val-a",
            mult: bnd_neg,
            bus: BusId::EcPoint,
            part: Part::Whole,
            elems: seq![val_a, group_ptr, neg_x, neg_ya, 0],
            deg: Deg { v: 2, u: 1 },
        }
    );
    let column = FractionColumn { index: 8, group: "ec-msm-heads", deg: Deg { v: 3, u: 2 } };
    let s = s.push(
        Fraction {
            column,
            label: "consume-ecpoint-neg",
            mult: bnd_neg,
            bus: BusId::EcPoint,
            part: Part::Whole,
            elems: seq![val, group_ptr, neg_x, neg_yr, 0],
            deg: Deg { v: 2, u: 1 },
        }
    );
    let s = s.push(
        Fraction {
            column,
            label: "consume-ecgroup",
            mult: bnd_group,
            bus: BusId::EcGroup,
            part: Part::Whole,
            elems: seq![group_ptr, a_ptr, b_ptr, bound_ptr, sbound_ptr, beta_ptr, lambda_ptr],
            deg: Deg { v: 2, u: 1 },
        }
    );
    let column = FractionColumn { index: 9, group: "ec-msm-order", deg: Deg { v: 3, u: 2 } };
    let s = s.push(
        Fraction {
            column,
            label: "range-a-lo",
            mult: bnd_a,
            bus: BusId::Range16,
            part: Part::Whole,
            elems: seq![a_diff_lo],
            deg: Deg { v: 2, u: 1 },
        }
    );
    let s = s.push(
        Fraction {
            column,
            label: "range-a-hi",
            mult: bnd_a,
            bus: BusId::Range16,
            part: Part::Whole,
            elems: seq![a_diff_hi],
            deg: Deg { v: 2, u: 1 },
        }
    );
    let column = FractionColumn { index: 10, group: "ec-msm-order", deg: Deg { v: 3, u: 2 } };
    let s = s.push(
        Fraction {
            column,
            label: "range-b-lo",
            mult: bnd_b,
            bus: BusId::Range16,
            part: Part::Whole,
            elems: seq![b_diff_lo],
            deg: Deg { v: 2, u: 1 },
        }
    );
    let s = s.push(
        Fraction {
            column,
            label: "range-b-hi",
            mult: bnd_b,
            bus: BusId::Range16,
            part: Part::Whole,
            elems: seq![b_diff_hi],
            deg: Deg { v: 2, u: 1 },
        }
    );
    let column = FractionColumn { index: 11, group: "ec-msm-endo", deg: Deg { v: 3, u: 2 } };
    let s = s.push(
        Fraction {
            column,
            label: "consume-ecpoint-endo-base",
            mult: bnd_endo,
            bus: BusId::EcPoint,
            part: Part::Whole,
            elems: seq![base, group_ptr, endo_base_x, endo_y, 0],
            deg: Deg { v: 2, u: 1 },
        }
    );
    let s = s.push(
        Fraction {
            column,
            label: "consume-ecpoint-endo-val",
            mult: bnd_endo,
            bus: BusId::EcPoint,
            part: Part::Whole,
            elems: seq![val, group_ptr, endo_val_x, endo_y, 0],
            deg: Deg { v: 2, u: 1 },
        }
    );
    let column = FractionColumn { index: 12, group: "ec-msm-endo", deg: Deg { v: 3, u: 2 } };
    let s = s.push(
        Fraction {
            column,
            label: "consume-uintmul-endo",
            mult: bnd_endo,
            bus: BusId::UintMul,
            part: Part::Whole,
            elems: seq![1, 0, beta_ptr, endo_base_x, bound_ptr, endo_val_x, bound_ptr, 0],
            deg: Deg { v: 2, u: 1 },
        }
    );
    let s = s.push(
        Fraction {
            column,
            label: "provide-oncurvecert-endo",
            mult: 0 - endo_minted,
            bus: BusId::EcOnCurveCert,
            part: Part::Whole,
            elems: seq![group_ptr, val],
            deg: Deg { v: 2, u: 1 },
        }
    );
    s
}

impl EcMsmAir {
    /// The constraints on a row and its successor.
    #[verifier::spinoff_prover]
    #[verifier::rlimit(50)]
    pub fn eval<E: FieldExpr>(&self, local: &[E], next: &[E]) -> (r: Vec<Constraint<E>>)
        requires
            local@.len() == NUM_MAIN_COLS,
            next@.len() == NUM_MAIN_COLS,
        ensures
            demands(r@) == msm_demands(reps(local@), reps(next@)),
    {
        let mut out: Vec<Constraint<E>> = Vec::new();
        assert(demands(out@) =~= Seq::<(Rows, int)>::empty());
        let act = &local[COL_ACT];
        let is_boundary = &local[COL_IS_BOUNDARY];
        let is_intro = &local[COL_IS_INTRO];
        let is_intro_endo = &local[COL_IS_INTRO_ENDO];
        let is_combine = &local[COL_IS_COMBINE];
        let is_neg = &local[COL_IS_NEG];
        let neg_minted = &local[COL_NEG_MINTED];
        let endo_minted = &local[COL_ENDO_MINTED];
        let idx = &local[COL_IDX];
        let act_next = &next[COL_ACT];
        require_bool(&mut out, act);
        require_bool(&mut out, is_boundary);
        require_bool(&mut out, is_intro);
        require_bool(&mut out, is_intro_endo);
        require_bool(&mut out, is_combine);
        require_bool(&mut out, is_neg);
        require_bool(&mut out, neg_minted);
        require(&mut out, Rows::All, E::constant(1).minus(is_neg).times(neg_minted));
        require_bool(&mut out, endo_minted);
        require(&mut out, Rows::All, E::constant(1).minus(is_intro_endo).times(endo_minted));
        require(&mut out, Rows::AllButLast, E::constant(1).minus(act).times(act_next));
        require(
            &mut out,
            Rows::All,
            is_intro.plus(is_intro_endo).plus(is_combine).plus(is_neg).minus(act),
        );
        require(&mut out, Rows::All, E::constant(1).minus(act).times(is_boundary));
        require(&mut out, Rows::All, E::constant(1).minus(act).times(&local[COL_MULT]));
        require(&mut out, Rows::All, E::constant(1).minus(act).times(&local[COL_CLAIM_MULT]));
        let expr_ptr = &local[COL_EXPR_PTR];
        let expr_ptr_next = &next[COL_EXPR_PTR];
        require(&mut out, Rows::First, expr_ptr.minus(&E::constant(1)));
        require(&mut out, Rows::AllButLast, expr_ptr_next.minus(expr_ptr).minus(is_boundary));
        let idx_next = &next[COL_IDX];
        require(&mut out, Rows::First, idx.dup());
        let not_boundary = E::constant(1).minus(is_boundary);
        require(
            &mut out,
            Rows::AllButLast,
            idx_next.minus(&not_boundary.times(&idx.plus(&E::constant(1)))),
        );
        require(
            &mut out,
            Rows::AllButLast,
            not_boundary.times(&next[COL_GROUP_PTR].minus(&local[COL_GROUP_PTR])),
        );
        require(
            &mut out,
            Rows::AllButLast,
            not_boundary.times(&next[COL_SBOUND_PTR].minus(&local[COL_SBOUND_PTR])),
        );
        require(&mut out, Rows::AllButLast, not_boundary.times(&next[COL_VAL].minus(&local[COL_VAL])));
        require(
            &mut out,
            Rows::AllButLast,
            not_boundary.times(&next[COL_MULT].minus(&local[COL_MULT])),
        );
        require(
            &mut out,
            Rows::AllButLast,
            not_boundary.times(&next[COL_CLAIM_MULT].minus(&local[COL_CLAIM_MULT])),
        );
        require(
            &mut out,
            Rows::AllButLast,
            not_boundary.times(&next[COL_IS_INTRO].minus(&local[COL_IS_INTRO])),
        );
        require(
            &mut out,
            Rows::AllButLast,
            not_boundary.times(&next[COL_IS_INTRO_ENDO].minus(&local[COL_IS_INTRO_ENDO])),
        );
        require(
            &mut out,
            Rows::AllButLast,
            not_boundary.times(&next[COL_IS_COMBINE].minus(&local[COL_IS_COMBINE])),
        );
        require(
            &mut out,
            Rows::AllButLast,
            not_boundary.times(&next[COL_IS_NEG].minus(&local[COL_IS_NEG])),
        );
        require(
            &mut out,
            Rows::AllButLast,
            not_boundary.times(&next[COL_A_EXPR].minus(&local[COL_A_EXPR])),
        );
        require(
            &mut out,
            Rows::AllButLast,
            not_boundary.times(&next[COL_B_EXPR].minus(&local[COL_B_EXPR])),
        );
        require(
            &mut out,
            Rows::AllButLast,
            not_boundary.times(&next[COL_VAL_A].minus(&local[COL_VAL_A])),
        );
        require(
            &mut out,
            Rows::AllButLast,
            not_boundary.times(&next[COL_VAL_B].minus(&local[COL_VAL_B])),
        );
        require(
            &mut out,
            Rows::AllButLast,
            not_boundary.times(&next[COL_A_PTR].minus(&local[COL_A_PTR])),
        );
        require(
            &mut out,
            Rows::AllButLast,
            not_boundary.times(&next[COL_B_PTR].minus(&local[COL_B_PTR])),
        );
        require(
            &mut out,
            Rows::AllButLast,
            not_boundary.times(&next[COL_BOUND_PTR].minus(&local[COL_BOUND_PTR])),
        );
        require(
            &mut out,
            Rows::AllButLast,
            not_boundary.times(&next[COL_BETA_PTR].minus(&local[COL_BETA_PTR])),
        );
        require(
            &mut out,
            Rows::AllButLast,
            not_boundary.times(&next[COL_LAMBDA_PTR].minus(&local[COL_LAMBDA_PTR])),
        );
        require(&mut out, Rows::All, is_intro.times(&E::constant(1).minus(is_boundary)));
        let base = &local[COL_BASE];
        let val = &local[COL_VAL];
        let scalar = &local[COL_SCALAR];
        require(&mut out, Rows::All, is_intro.times(&val.minus(base)));
        require(&mut out, Rows::All, is_intro_endo.times(&E::constant(1).minus(is_boundary)));
        require(&mut out, Rows::All, is_intro_endo.times(&scalar.minus(&local[COL_LAMBDA_PTR])));
        let take_a = &local[COL_TAKE_A];
        let take_b = &local[COL_TAKE_B];
        let take_both = &local[COL_TAKE_BOTH];
        require_bool(&mut out, take_a);
        require_bool(&mut out, take_b);
        require_bool(&mut out, take_both);
        require(&mut out, Rows::All, take_a.plus(take_b).plus(take_both).minus(is_combine));
        let i_cur = &local[COL_I];
        let j_cur = &local[COL_J];
        let i_next = &next[COL_I];
        let j_next = &next[COL_J];
        require(&mut out, Rows::First, i_cur.dup());
        require(&mut out, Rows::First, j_cur.dup());
        let adv_i = take_a.plus(take_both).plus(is_neg);
        let adv_j = take_b.plus(take_both);
        require(&mut out, Rows::AllButLast, i_next.minus(&not_boundary.times(&i_cur.plus(&adv_i))));
        require(&mut out, Rows::AllButLast, j_next.minus(&not_boundary.times(&j_cur.plus(&adv_j))));
        let base_a = &local[COL_BASE_A];
        let base_b = &local[COL_BASE_B];
        let s_a = &local[COL_S_A];
        let s_b = &local[COL_S_B];
        require(
            &mut out,
            Rows::All,
            adv_i.times(&base.minus(base_a)).plus(&take_b.times(&base.minus(base_b))),
        );
        require(
            &mut out,
            Rows::All,
            take_a.times(&scalar.minus(s_a)).plus(&take_b.times(&scalar.minus(s_b))),
        );
        require(&mut out, Rows::All, take_both.times(&base_a.minus(base_b)));
        let two_16 = E::constant(65536);
        let bnd_a = is_combine.plus(is_neg).times(is_boundary);
        let bnd_b = is_combine.times(is_boundary);
        require(
            &mut out,
            Rows::All,
            bnd_a.times(
                &expr_ptr.minus(&local[COL_A_EXPR]).minus(&E::constant(1)).minus(&local[COL_A_DIFF_LO]).minus(
                    &two_16.times(&local[COL_A_DIFF_HI]),
                ),
            ),
        );
        require(
            &mut out,
            Rows::All,
            bnd_b.times(
                &expr_ptr.minus(&local[COL_B_EXPR]).minus(&E::constant(1)).minus(&local[COL_B_DIFF_LO]).minus(
                    &two_16.times(&local[COL_B_DIFF_HI]),
                ),
            ),
        );
        out
    }

    /// The fractions of one row.
    #[verifier::spinoff_prover]
    #[verifier::rlimit(80)]
    pub fn eval_lookups<E: FieldExpr>(&self, local: &[E]) -> (r: Vec<Interaction<E>>)
        requires
            local@.len() == NUM_MAIN_COLS,
        ensures
            fractions(r@) == msm_fractions(reps(local@)),
    {
        let mut out: Vec<Interaction<E>> = Vec::new();
        assert(fractions(out@) =~= Seq::<Fraction>::empty());
        let expr_ptr = &local[COL_EXPR_PTR];
        let is_boundary = &local[COL_IS_BOUNDARY];
        let group_ptr = &local[COL_GROUP_PTR];
        let sbound_ptr = &local[COL_SBOUND_PTR];
        let idx = &local[COL_IDX];
        let base = &local[COL_BASE];
        let scalar = &local[COL_SCALAR];
        let val = &local[COL_VAL];
        let is_intro = &local[COL_IS_INTRO];
        let is_combine = &local[COL_IS_COMBINE];
        let a_expr = &local[COL_A_EXPR];
        let b_expr = &local[COL_B_EXPR];
        let i_cur = &local[COL_I];
        let j_cur = &local[COL_J];
        let take_a = &local[COL_TAKE_A];
        let take_b = &local[COL_TAKE_B];
        let take_both = &local[COL_TAKE_BOTH];
        let base_a = &local[COL_BASE_A];
        let s_a = &local[COL_S_A];
        let base_b = &local[COL_BASE_B];
        let s_b = &local[COL_S_B];
        let val_a = &local[COL_VAL_A];
        let val_b = &local[COL_VAL_B];
        let a_ptr = &local[COL_A_PTR];
        let b_ptr = &local[COL_B_PTR];
        let bound_ptr = &local[COL_BOUND_PTR];
        let a_diff_lo = &local[COL_A_DIFF_LO];
        let a_diff_hi = &local[COL_A_DIFF_HI];
        let b_diff_lo = &local[COL_B_DIFF_LO];
        let b_diff_hi = &local[COL_B_DIFF_HI];
        let is_neg = &local[COL_IS_NEG];
        let neg_x = &local[COL_NEG_X];
        let neg_ya = &local[COL_NEG_YA];
        let neg_yr = &local[COL_NEG_YR];
        let neg_minted = &local[COL_NEG_MINTED];
        let beta_ptr = &local[COL_BETA_PTR];
        let lambda_ptr = &local[COL_LAMBDA_PTR];
        let is_intro_endo = &local[COL_IS_INTRO_ENDO];
        let endo_base_x = &local[COL_ENDO_BASE_X];
        let endo_y = &local[COL_ENDO_Y];
        let endo_val_x = &local[COL_ENDO_VAL_X];
        let endo_minted = &local[COL_ENDO_MINTED];
        let neg_mult = E::constant(0).minus(&local[COL_MULT]);
        let neg_claim_mult = E::constant(0).minus(&local[COL_CLAIM_MULT]);
        let adv_i = take_a.plus(take_both).plus(is_neg);
        let adv_j = take_b.plus(take_both);
        let bnd_a = is_combine.plus(is_neg).times(is_boundary);
        let bnd_b = is_combine.times(is_boundary);
        let bnd_neg = is_neg.times(is_boundary);
        let bnd_group = is_combine.plus(is_neg).plus(is_intro_endo).times(is_boundary);
        let bnd_endo = is_intro_endo.times(is_boundary);
        let column = FractionColumn { index: 0, group: "ec-msm-provide", deg: Deg { v: 1, u: 2 } };
        interact(
            &mut out,
            column,
            "provide-msmterm",
            neg_mult.dup(),
            MsmTermMsg {
                expr_ptr: expr_ptr.dup(),
                idx: idx.dup(),
                base_ptr: base.dup(),
                scalar_ptr: scalar.dup(),
            }.message(),
            Deg { v: 1, u: 1 },
        );
        let column = FractionColumn { index: 1, group: "ec-msm-provide", deg: Deg { v: 3, u: 2 } };
        interact(
            &mut out,
            column,
            "provide-msmexpr",
            neg_mult.plus(&neg_claim_mult).times(is_boundary),
            MsmExprMsg {
                expr_ptr: expr_ptr.dup(),
                group_ptr: group_ptr.dup(),
                val_ptr: val.dup(),
                k: idx.plus(&E::constant(1)),
            }.message(),
            Deg { v: 2, u: 1 },
        );
        interact(
            &mut out,
            column,
            "provide-msmclaimterm",
            neg_claim_mult.dup(),
            MsmClaimTermMsg {
                expr_ptr: expr_ptr.dup(),
                base_ptr: base.dup(),
                scalar_ptr: scalar.dup(),
            }.message(),
            Deg { v: 1, u: 1 },
        );
        let column = FractionColumn { index: 2, group: "ec-msm-provide", deg: Deg { v: 3, u: 2 } };
        interact(
            &mut out,
            column,
            "provide-oncurvecert-neg",
            E::constant(0).minus(&neg_minted.times(is_boundary)),
            EcOnCurveCertMsg { group_ptr: group_ptr.dup(), r_ptr: val.dup() }.message(),
            Deg { v: 2, u: 1 },
        );
        interact(
            &mut out,
            column,
            "consume-one",
            is_intro.dup(),
            UintValMsg {
                ptr: scalar.dup(),
                bound_ptr: sbound_ptr.dup(),
                limbs: [
                    E::constant(1),
                    E::constant(0),
                    E::constant(0),
                    E::constant(0),
                    E::constant(0),
                    E::constant(0),
                    E::constant(0),
                    E::constant(0),
                ],
            }.message(),
            Deg { v: 1, u: 1 },
        );
        let column = FractionColumn { index: 3, group: "ec-msm-walk", deg: Deg { v: 1, u: 2 } };
        interact(
            &mut out,
            column,
            "consume-term-a",
            adv_i.dup(),
            MsmTermMsg {
                expr_ptr: a_expr.dup(),
                idx: i_cur.dup(),
                base_ptr: base_a.dup(),
                scalar_ptr: s_a.dup(),
            }.message(),
            Deg { v: 1, u: 1 },
        );
        let column = FractionColumn { index: 4, group: "ec-msm-walk", deg: Deg { v: 3, u: 2 } };
        interact(
            &mut out,
            column,
            "consume-term-b",
            adv_j.dup(),
            MsmTermMsg {
                expr_ptr: b_expr.dup(),
                idx: j_cur.dup(),
                base_ptr: base_b.dup(),
                scalar_ptr: s_b.dup(),
            }.message(),
            Deg { v: 1, u: 1 },
        );
        interact(
            &mut out,
            column,
            "consume-uintadd",
            take_both.dup(),
            UintAddMsg {
                bound_ptr: sbound_ptr.dup(),
                a_ptr: s_a.dup(),
                b_ptr: s_b.dup(),
                c_ptr: scalar.dup(),
                nz: E::constant(0),
            }.message(),
            Deg { v: 1, u: 1 },
        );
        let column = FractionColumn { index: 5, group: "ec-msm-walk", deg: Deg { v: 3, u: 2 } };
        interact(
            &mut out,
            column,
            "consume-uintadd-neg",
            is_neg.dup(),
            UintAddMsg {
                bound_ptr: sbound_ptr.dup(),
                a_ptr: s_a.dup(),
                b_ptr: scalar.dup(),
                c_ptr: E::constant(0),
                nz: E::constant(0),
            }.message(),
            Deg { v: 1, u: 1 },
        );
        interact(
            &mut out,
            column,
            "consume-uintadd-neg-y",
            bnd_neg.dup(),
            UintAddMsg {
                bound_ptr: bound_ptr.dup(),
                a_ptr: neg_ya.dup(),
                b_ptr: neg_yr.dup(),
                c_ptr: E::constant(0),
                nz: E::constant(0),
            }.message(),
            Deg { v: 2, u: 1 },
        );
        let column = FractionColumn { index: 6, group: "ec-msm-heads", deg: Deg { v: 3, u: 2 } };
        interact(
            &mut out,
            column,
            "consume-head-a",
            bnd_a.dup(),
            MsmExprMsg {
                expr_ptr: a_expr.dup(),
                group_ptr: group_ptr.dup(),
                val_ptr: val_a.dup(),
                k: i_cur.plus(&adv_i),
            }.message(),
            Deg { v: 2, u: 1 },
        );
        interact(
            &mut out,
            column,
            "consume-head-b",
            bnd_b.dup(),
            MsmExprMsg {
                expr_ptr: b_expr.dup(),
                group_ptr: group_ptr.dup(),
                val_ptr: val_b.dup(),
                k: j_cur.plus(&adv_j),
            }.message(),
            Deg { v: 2, u: 1 },
        );
        let column = FractionColumn { index: 7, group: "ec-msm-heads", deg: Deg { v: 3, u: 2 } };
        interact(
            &mut out,
            column,
            "consume-ecgroupadd",
            bnd_b.dup(),
            EcGroupAddMsg {
                group_ptr: group_ptr.dup(),
                p_ptr: val_a.dup(),
                q_ptr: val_b.dup(),
                r_ptr: val.dup(),
            }.message(),
            Deg { v: 2, u: 1 },
        );
        interact(
            &mut out,
            column,
            "consume-ecpoint-val-a",
            bnd_neg.dup(),
            EcPointMsg {
                point_ptr: val_a.dup(),
                group_ptr: group_ptr.dup(),
                x_ptr: neg_x.dup(),
                y_ptr: neg_ya.dup(),
                is_pai: E::constant(0),
            }.message(),
            Deg { v: 2, u: 1 },
        );
        let column = FractionColumn { index: 8, group: "ec-msm-heads", deg: Deg { v: 3, u: 2 } };
        interact(
            &mut out,
            column,
            "consume-ecpoint-neg",
            bnd_neg.dup(),
            EcPointMsg {
                point_ptr: val.dup(),
                group_ptr: group_ptr.dup(),
                x_ptr: neg_x.dup(),
                y_ptr: neg_yr.dup(),
                is_pai: E::constant(0),
            }.message(),
            Deg { v: 2, u: 1 },
        );
        interact(
            &mut out,
            column,
            "consume-ecgroup",
            bnd_group.dup(),
            EcGroupMsg {
                group_ptr: group_ptr.dup(),
                a_ptr: a_ptr.dup(),
                b_ptr: b_ptr.dup(),
                bound_ptr: bound_ptr.dup(),
                scalar_bound_ptr: sbound_ptr.dup(),
                beta_ptr: beta_ptr.dup(),
                lambda_ptr: lambda_ptr.dup(),
            }.message(),
            Deg { v: 2, u: 1 },
        );
        let column = FractionColumn { index: 9, group: "ec-msm-order", deg: Deg { v: 3, u: 2 } };
        interact(
            &mut out,
            column,
            "range-a-lo",
            bnd_a.dup(),
            Range16Msg { w: a_diff_lo.dup() }.message(),
            Deg { v: 2, u: 1 },
        );
        interact(
            &mut out,
            column,
            "range-a-hi",
            bnd_a.dup(),
            Range16Msg { w: a_diff_hi.dup() }.message(),
            Deg { v: 2, u: 1 },
        );
        let column = FractionColumn { index: 10, group: "ec-msm-order", deg: Deg { v: 3, u: 2 } };
        interact(
            &mut out,
            column,
            "range-b-lo",
            bnd_b.dup(),
            Range16Msg { w: b_diff_lo.dup() }.message(),
            Deg { v: 2, u: 1 },
        );
        interact(
            &mut out,
            column,
            "range-b-hi",
            bnd_b.dup(),
            Range16Msg { w: b_diff_hi.dup() }.message(),
            Deg { v: 2, u: 1 },
        );
        let column = FractionColumn { index: 11, group: "ec-msm-endo", deg: Deg { v: 3, u: 2 } };
        interact(
            &mut out,
            column,
            "consume-ecpoint-endo-base",
            bnd_endo.dup(),
            EcPointMsg {
                point_ptr: base.dup(),
                group_ptr: group_ptr.dup(),
                x_ptr: endo_base_x.dup(),
                y_ptr: endo_y.dup(),
                is_pai: E::constant(0),
            }.message(),
            Deg { v: 2, u: 1 },
        );
        interact(
            &mut out,
            column,
            "consume-ecpoint-endo-val",
            bnd_endo.dup(),
            EcPointMsg {
                point_ptr: val.dup(),
                group_ptr: group_ptr.dup(),
                x_ptr: endo_val_x.dup(),
                y_ptr: endo_y.dup(),
                is_pai: E::constant(0),
            }.message(),
            Deg { v: 2, u: 1 },
        );
        let column = FractionColumn { index: 12, group: "ec-msm-endo", deg: Deg { v: 3, u: 2 } };
        interact(
            &mut out,
            column,
            "consume-uintmul-endo",
            bnd_endo.dup(),
            UintMulMsg {
                kappa_a: E::constant(1),
                kappa_c: E::constant(0),
                a_ptr: beta_ptr.dup(),
                b_ptr: endo_base_x.dup(),
                c_ptr: bound_ptr.dup(),
                r_ptr: endo_val_x.dup(),
                bound_ptr: bound_ptr.dup(),
                is_sub: E::constant(0),
            }.message(),
            Deg { v: 2, u: 1 },
        );
        interact(
            &mut out,
            column,
            "provide-oncurvecert-endo",
            E::constant(0).minus(endo_minted),
            EcOnCurveCertMsg { group_ptr: group_ptr.dup(), r_ptr: val.dup() }.message(),
            Deg { v: 2, u: 1 },
        );
        out
    }
}

} // verus!
