//! Short-Weierstrass groups and points over the wide-integer store.
//!
//! The group table and the point store bind pointers to curve contexts and coordinates. Everything
//! heavy is delegated: canonicity to the integer store, membership to three multiply-adds that
//! share a result pointer, and group arithmetic to the addition table.

pub mod add;
pub mod add_laws;
pub mod add_meaning;
pub mod groups;
pub mod msm;
pub mod msm_laws;
pub mod msm_meaning;
pub mod point_laws;

use crate::precompiles::ec::add::EcOnCurveCertMsg;
use crate::precompiles::field::{reps, FieldExpr};
use crate::precompiles::logup::{
    demands, fractions, interact, require, Constraint, Deg, Fraction,
    FractionColumn, Interaction, Message, Part, Rows,
};
use crate::precompiles::relations::BusId;
use crate::precompiles::uint::UintMulMsg;
use vstd::prelude::*;

verus! {

/// A group: its curve parameters, moduli, and endomorphism constants.
#[derive(Debug, Clone)]
pub struct EcGroupMsg<E> {
    pub group_ptr: E,
    pub a_ptr: E,
    pub b_ptr: E,
    pub bound_ptr: E,
    pub scalar_bound_ptr: E,
    pub beta_ptr: E,
    pub lambda_ptr: E,
}

impl<E: FieldExpr> EcGroupMsg<E> {
    /// The tuple this message puts on [`BusId::EcGroup`].
    pub fn message(self) -> (r: Message<E>)
        ensures
            r.bus == BusId::EcGroup,
            r.part == Part::Whole,
            reps(r.elems@) == seq![
                self.group_ptr.rep(),
                self.a_ptr.rep(),
                self.b_ptr.rep(),
                self.bound_ptr.rep(),
                self.scalar_bound_ptr.rep(),
                self.beta_ptr.rep(),
                self.lambda_ptr.rep(),
            ],
    {
        let elems = vec![
            self.group_ptr,
            self.a_ptr,
            self.b_ptr,
            self.bound_ptr,
            self.scalar_bound_ptr,
            self.beta_ptr,
            self.lambda_ptr,
        ];
        assert(
            reps(elems@) =~= seq![
                self.group_ptr.rep(),
                self.a_ptr.rep(),
                self.b_ptr.rep(),
                self.bound_ptr.rep(),
                self.scalar_bound_ptr.rep(),
                self.beta_ptr.rep(),
                self.lambda_ptr.rep(),
            ]
        );
        Message { bus: BusId::EcGroup, part: Part::Whole, elems }
    }
}

/// A stored point: on the curve when finite, the group's infinity when `is_pai`.
#[derive(Debug, Clone)]
pub struct EcPointMsg<E> {
    pub point_ptr: E,
    pub group_ptr: E,
    pub x_ptr: E,
    pub y_ptr: E,
    pub is_pai: E,
}

impl<E: FieldExpr> EcPointMsg<E> {
    /// The tuple this message puts on [`BusId::EcPoint`].
    pub fn message(self) -> (r: Message<E>)
        ensures
            r.bus == BusId::EcPoint,
            r.part == Part::Whole,
            reps(r.elems@) == seq![
                self.point_ptr.rep(),
                self.group_ptr.rep(),
                self.x_ptr.rep(),
                self.y_ptr.rep(),
                self.is_pai.rep(),
            ],
    {
        let elems = vec![self.point_ptr, self.group_ptr, self.x_ptr, self.y_ptr, self.is_pai];
        assert(
            reps(elems@) =~= seq![
                self.point_ptr.rep(),
                self.group_ptr.rep(),
                self.x_ptr.rep(),
                self.y_ptr.rep(),
                self.is_pai.rep(),
            ]
        );
        Message { bus: BusId::EcPoint, part: Part::Whole, elems }
    }
}

/// Point pointer. Zero is the none-sentinel.
pub const COL_PTR: usize = 0;
/// The owning group.
pub const COL_GROUP_PTR: usize = 1;
pub const COL_A_PTR: usize = 2;
pub const COL_B_PTR: usize = 3;
pub const COL_BOUND_PTR: usize = 4;
pub const COL_SBOUND_PTR: usize = 5;
/// Coordinates. Zero at infinity.
pub const COL_X_PTR: usize = 6;
pub const COL_Y_PTR: usize = 7;
/// `u = x^2 + a`, zero when membership needs no transient.
pub const COL_U_PTR: usize = 8;
/// `w = x^3 + ax + b = y^2`, zero when membership needs no transient.
pub const COL_W_PTR: usize = 9;
/// The point is the group's infinity.
pub const COL_IS_PAI: usize = 10;
pub const COL_ECPOINT_MULT: usize = 11;
/// Row is in use. Padding is all zero.
pub const COL_ACT: usize = 12;
/// Membership rests on the closure certificate of the addition that made the point.
pub const COL_IS_CERT: usize = 13;
pub const COL_BETA_PTR: usize = 14;
pub const COL_LAMBDA_PTR: usize = 15;
pub const NUM_MAIN_COLS: usize = 16;
pub const NUM_LOGUP_COLS: usize = 5;
/// Fractions in each auxiliary column.
pub const COLUMN_SHAPE: [usize; 5] = [1, 2, 1, 1, 1];

/// The point store.
#[derive(Debug, Default, Clone, Copy)]
pub struct EcPointStoreAir;

/// Flags are bits, infinite points name no coordinates, certified points no transients, padding
/// provides nothing, and pointers are consecutive along the active prefix.
pub open spec fn point_demands(l: Seq<int>, n: Seq<int>) -> Seq<(Rows, int)> {
    let s = Seq::<(Rows, int)>::empty();
    let is_pai: int = l[COL_IS_PAI as int];
    let is_cert: int = l[COL_IS_CERT as int];
    let act: int = l[COL_ACT as int];
    let act_next: int = n[COL_ACT as int];
    let ptr: int = l[COL_PTR as int];
    let ptr_next: int = n[COL_PTR as int];
    let s = s.push((Rows::All, is_pai * (1 - is_pai)));
    let s = s.push((Rows::All, is_cert * (1 - is_cert)));
    let s = s.push((Rows::All, act * (1 - act)));
    let s = s.push((Rows::All, is_pai * is_cert));
    let s = s.push((Rows::All, is_pai * l[COL_X_PTR as int]));
    let s = s.push((Rows::All, is_pai * l[COL_Y_PTR as int]));
    let s = s.push((Rows::All, is_pai * l[COL_U_PTR as int]));
    let s = s.push((Rows::All, is_pai * l[COL_W_PTR as int]));
    let s = s.push((Rows::All, is_cert * l[COL_U_PTR as int]));
    let s = s.push((Rows::All, is_cert * l[COL_W_PTR as int]));
    let s = s.push((Rows::All, (1 - act) * l[COL_ECPOINT_MULT as int]));
    let s = s.push((Rows::AllButLast, (1 - act) * act_next));
    let s = s.push((Rows::AllButLast, act_next * (ptr_next - ptr - 1)));
    let s = s.push((Rows::First, ptr - act));
    s
}

/// The constraints on a row and its successor.
pub fn eval_point_store_main<E: FieldExpr>(local: &[E], next: &[E]) -> (r: Vec<Constraint<E>>)
    requires
        local@.len() == NUM_MAIN_COLS,
        next@.len() == NUM_MAIN_COLS,
    ensures
        demands(r@) == point_demands(reps(local@), reps(next@)),
{
    let mut out: Vec<Constraint<E>> = Vec::new();
    assert(demands(out@) =~= Seq::<(Rows, int)>::empty());
    let is_pai = &local[COL_IS_PAI];
    let is_cert = &local[COL_IS_CERT];
    let act = &local[COL_ACT];
    let act_next = &next[COL_ACT];
    let ptr = &local[COL_PTR];
    let ptr_next = &next[COL_PTR];
    require(&mut out, Rows::All, is_pai.times(&E::constant(1).minus(is_pai)));
    require(&mut out, Rows::All, is_cert.times(&E::constant(1).minus(is_cert)));
    require(&mut out, Rows::All, act.times(&E::constant(1).minus(act)));
    require(&mut out, Rows::All, is_pai.times(is_cert));
    require(&mut out, Rows::All, is_pai.times(&local[COL_X_PTR]));
    require(&mut out, Rows::All, is_pai.times(&local[COL_Y_PTR]));
    require(&mut out, Rows::All, is_pai.times(&local[COL_U_PTR]));
    require(&mut out, Rows::All, is_pai.times(&local[COL_W_PTR]));
    require(&mut out, Rows::All, is_cert.times(&local[COL_U_PTR]));
    require(&mut out, Rows::All, is_cert.times(&local[COL_W_PTR]));
    require(&mut out, Rows::All, E::constant(1).minus(act).times(&local[COL_ECPOINT_MULT]));
    require(&mut out, Rows::AllButLast, E::constant(1).minus(act).times(act_next));
    require(
        &mut out,
        Rows::AllButLast,
        act_next.times(&ptr_next.minus(ptr).minus(&E::constant(1))),
    );
    require(&mut out, Rows::First, ptr.minus(act));
    out
}

/// A point provides itself, consumes its group, and discharges membership either by a closure
/// certificate or by three multiply-adds that meet in `w = y^2 = x^3 + ax + b`.
pub open spec fn point_fractions(l: Seq<int>) -> Seq<Fraction> {
    let s = Seq::<Fraction>::empty();
    let ptr: int = l[COL_PTR as int];
    let group_ptr: int = l[COL_GROUP_PTR as int];
    let a_ptr: int = l[COL_A_PTR as int];
    let b_ptr: int = l[COL_B_PTR as int];
    let bound_ptr: int = l[COL_BOUND_PTR as int];
    let sbound_ptr: int = l[COL_SBOUND_PTR as int];
    let x_ptr: int = l[COL_X_PTR as int];
    let y_ptr: int = l[COL_Y_PTR as int];
    let u_ptr: int = l[COL_U_PTR as int];
    let w_ptr: int = l[COL_W_PTR as int];
    let is_pai: int = l[COL_IS_PAI as int];
    let is_cert: int = l[COL_IS_CERT as int];
    let act: int = l[COL_ACT as int];
    let beta_ptr: int = l[COL_BETA_PTR as int];
    let lambda_ptr: int = l[COL_LAMBDA_PTR as int];
    let neg_mult: int = 0 - l[COL_ECPOINT_MULT as int];
    let member_flag: int = act * (1 - is_pai) * (1 - is_cert);
    let cert_flag: int = act * is_cert;
    let column = FractionColumn { index: 0, group: "ec-points", deg: Deg { v: 1, u: 2 } };
    let s = s.push(
        Fraction {
            column,
            label: "provide-ecpoint",
            mult: neg_mult,
            bus: BusId::EcPoint,
            part: Part::Whole,
            elems: seq![ptr, group_ptr, x_ptr, y_ptr, is_pai],
            deg: Deg { v: 1, u: 1 },
        }
    );
    let column = FractionColumn { index: 1, group: "ec-points", deg: Deg { v: 3, u: 2 } };
    let s = s.push(
        Fraction {
            column,
            label: "consume-ecgroup",
            mult: act,
            bus: BusId::EcGroup,
            part: Part::Whole,
            elems: seq![group_ptr, a_ptr, b_ptr, bound_ptr, sbound_ptr, beta_ptr, lambda_ptr],
            deg: Deg { v: 1, u: 1 },
        }
    );
    let s = s.push(
        Fraction {
            column,
            label: "consume-ecgroupadd-cert",
            mult: cert_flag,
            bus: BusId::EcOnCurveCert,
            part: Part::Whole,
            elems: seq![group_ptr, ptr],
            deg: Deg { v: 2, u: 1 },
        }
    );
    let column = FractionColumn { index: 2, group: "ec-points", deg: Deg { v: 1, u: 2 } };
    let s = s.push(
        Fraction {
            column,
            label: "consume-mac-u",
            mult: member_flag,
            bus: BusId::UintMul,
            part: Part::Whole,
            elems: seq![1, 1, x_ptr, x_ptr, a_ptr, u_ptr, bound_ptr, 0],
            deg: Deg { v: 3, u: 1 },
        }
    );
    let column = FractionColumn { index: 3, group: "ec-points", deg: Deg { v: 1, u: 2 } };
    let s = s.push(
        Fraction {
            column,
            label: "consume-mac-w",
            mult: member_flag,
            bus: BusId::UintMul,
            part: Part::Whole,
            elems: seq![1, 1, x_ptr, u_ptr, b_ptr, w_ptr, bound_ptr, 0],
            deg: Deg { v: 3, u: 1 },
        }
    );
    let column = FractionColumn { index: 4, group: "ec-points", deg: Deg { v: 1, u: 2 } };
    let s = s.push(
        Fraction {
            column,
            label: "consume-mac-y",
            mult: member_flag,
            bus: BusId::UintMul,
            part: Part::Whole,
            elems: seq![1, 0, y_ptr, y_ptr, bound_ptr, w_ptr, bound_ptr, 0],
            deg: Deg { v: 3, u: 1 },
        }
    );
    s
}

/// The fractions of one row.
#[verifier::spinoff_prover]
pub fn eval_point_store_lookups<E: FieldExpr>(local: &[E]) -> (r: Vec<Interaction<E>>)
    requires
        local@.len() == NUM_MAIN_COLS,
    ensures
        fractions(r@) == point_fractions(reps(local@)),
{
    let mut out: Vec<Interaction<E>> = Vec::new();
    assert(fractions(out@) =~= Seq::<Fraction>::empty());
    let ptr = &local[COL_PTR];
    let group_ptr = &local[COL_GROUP_PTR];
    let a_ptr = &local[COL_A_PTR];
    let b_ptr = &local[COL_B_PTR];
    let bound_ptr = &local[COL_BOUND_PTR];
    let sbound_ptr = &local[COL_SBOUND_PTR];
    let x_ptr = &local[COL_X_PTR];
    let y_ptr = &local[COL_Y_PTR];
    let u_ptr = &local[COL_U_PTR];
    let w_ptr = &local[COL_W_PTR];
    let is_pai = &local[COL_IS_PAI];
    let is_cert = &local[COL_IS_CERT];
    let act = &local[COL_ACT];
    let beta_ptr = &local[COL_BETA_PTR];
    let lambda_ptr = &local[COL_LAMBDA_PTR];
    let neg_mult = E::constant(0).minus(&local[COL_ECPOINT_MULT]);
    let member_flag = act.times(&E::constant(1).minus(is_pai)).times(
        &E::constant(1).minus(is_cert),
    );
    let cert_flag = act.times(is_cert);
    let column = FractionColumn { index: 0, group: "ec-points", deg: Deg { v: 1, u: 2 } };
    interact(
        &mut out,
        column,
        "provide-ecpoint",
        neg_mult.dup(),
        EcPointMsg {
            point_ptr: ptr.dup(),
            group_ptr: group_ptr.dup(),
            x_ptr: x_ptr.dup(),
            y_ptr: y_ptr.dup(),
            is_pai: is_pai.dup(),
        }.message(),
        Deg { v: 1, u: 1 },
    );
    let column = FractionColumn { index: 1, group: "ec-points", deg: Deg { v: 3, u: 2 } };
    interact(
        &mut out,
        column,
        "consume-ecgroup",
        act.dup(),
        EcGroupMsg {
            group_ptr: group_ptr.dup(),
            a_ptr: a_ptr.dup(),
            b_ptr: b_ptr.dup(),
            bound_ptr: bound_ptr.dup(),
            scalar_bound_ptr: sbound_ptr.dup(),
            beta_ptr: beta_ptr.dup(),
            lambda_ptr: lambda_ptr.dup(),
        }.message(),
        Deg { v: 1, u: 1 },
    );
    interact(
        &mut out,
        column,
        "consume-ecgroupadd-cert",
        cert_flag.dup(),
        EcOnCurveCertMsg { group_ptr: group_ptr.dup(), r_ptr: ptr.dup() }.message(),
        Deg { v: 2, u: 1 },
    );
    let column = FractionColumn { index: 2, group: "ec-points", deg: Deg { v: 1, u: 2 } };
    interact(
        &mut out,
        column,
        "consume-mac-u",
        member_flag.dup(),
        UintMulMsg {
            kappa_a: E::constant(1),
            kappa_c: E::constant(1),
            a_ptr: x_ptr.dup(),
            b_ptr: x_ptr.dup(),
            c_ptr: a_ptr.dup(),
            r_ptr: u_ptr.dup(),
            bound_ptr: bound_ptr.dup(),
            is_sub: E::constant(0),
        }.message(),
        Deg { v: 3, u: 1 },
    );
    let column = FractionColumn { index: 3, group: "ec-points", deg: Deg { v: 1, u: 2 } };
    interact(
        &mut out,
        column,
        "consume-mac-w",
        member_flag.dup(),
        UintMulMsg {
            kappa_a: E::constant(1),
            kappa_c: E::constant(1),
            a_ptr: x_ptr.dup(),
            b_ptr: u_ptr.dup(),
            c_ptr: b_ptr.dup(),
            r_ptr: w_ptr.dup(),
            bound_ptr: bound_ptr.dup(),
            is_sub: E::constant(0),
        }.message(),
        Deg { v: 3, u: 1 },
    );
    let column = FractionColumn { index: 4, group: "ec-points", deg: Deg { v: 1, u: 2 } };
    interact(
        &mut out,
        column,
        "consume-mac-y",
        member_flag.dup(),
        UintMulMsg {
            kappa_a: E::constant(1),
            kappa_c: E::constant(0),
            a_ptr: y_ptr.dup(),
            b_ptr: y_ptr.dup(),
            c_ptr: bound_ptr.dup(),
            r_ptr: w_ptr.dup(),
            bound_ptr: bound_ptr.dup(),
            is_sub: E::constant(0),
        }.message(),
        Deg { v: 3, u: 1 },
    );
    out
}

} // verus!
