//! The Keccak round machine: a three-address machine over the 64-bit memory bus.
//!
//! Each row runs one slot of the [`program`] in each of its lanes. A row carries its operands and
//! its result as bytes, which the byte-pair table checks, and rotates its result through 16-bit
//! limbs. Twenty-four rounds make a permutation.

pub mod program;

use crate::precompiles::byte_pair_lut::{
    byte_fractions, limb_fractions, require_bytes, require_limbs,
};
use crate::precompiles::field::{reps, FieldExpr};
use crate::precompiles::hash::memory64::Memory64Msg;
use crate::precompiles::logup::{
    bool_poly, demands, fractions, interact, require, require_bool, Constraint, Deg, Fraction,
    FractionColumn, Interaction, Part, Rows,
};
use crate::precompiles::relations::BusId;
use crate::precompiles::utils::{band, halves_le, packed};
use program::{
    COL_BACK_A as PCOL_BACK_A, COL_BACK_B as PCOL_BACK_B, COL_DST_MULT as PCOL_DST_MULT,
    COL_IS_ANDNOT as PCOL_IS_ANDNOT, COL_IS_ROL as PCOL_IS_ROL, COL_IS_XOR as PCOL_IS_XOR,
    COL_IS_XORROL as PCOL_IS_XORROL, COL_K as PCOL_K, COL_P_LAST as PCOL_P_LAST,
    COL_SWAP as PCOL_SWAP, NUM_PERIODIC_COLS,
};
use vstd::prelude::*;

verus! {

/// Row counter, which is also the address that the row writes.
pub const COL_IP: usize = 0;
/// First operand, as bytes.
pub const COL_A_BYTES: usize = 1;
/// Second operand, as bytes.
pub const COL_B_BYTES: usize = 9;
/// Result before rotation, as bytes.
pub const COL_R_BYTES: usize = 17;
/// Limbs of the rotation of each half of the result.
pub const COL_ROT_LIMBS: usize = 25;
/// Row is part of a live round.
pub const COL_ACT: usize = 33;
/// Columns of one lane.
pub const LANE_WIDTH: usize = 34;
/// Permutations that run side by side on each row.
pub const NUM_LANES: usize = 2;
pub const NUM_MAIN_COLS: usize = 68;
/// Auxiliary columns of one lane.
pub const LANE_AUX_COLS: usize = 10;
pub const NUM_AUX_COLS: usize = 20;

/// The round machine.
#[derive(Debug, Default, Clone, Copy)]
pub struct KeccakRoundAir;

/// First column of a lane.
#[verifier::allow_in_spec]
pub fn lane_base(lane: usize) -> usize
    requires
        lane * LANE_WIDTH <= usize::MAX,
    returns
        (lane * LANE_WIDTH) as usize,
{
    lane * LANE_WIDTH
}

/// Fractions in each auxiliary column: one in the first of each lane, two in the others.
pub fn build_column_shape() -> (r: Vec<usize>)
    ensures
        r@ == Seq::new(
            NUM_AUX_COLS as nat,
            |i: int| if i % (LANE_AUX_COLS as int) == 0 { 1usize } else { 2usize },
        ),
{
    let ghost full = Seq::new(
        NUM_AUX_COLS as nat,
        |i: int| if i % (LANE_AUX_COLS as int) == 0 { 1usize } else { 2usize },
    );
    let mut shape: Vec<usize> = Vec::new();
    let mut i: usize = 0;
    while i < NUM_AUX_COLS
        invariant
            i <= NUM_AUX_COLS,
            full == Seq::new(
                NUM_AUX_COLS as nat,
                |i: int| if i % (LANE_AUX_COLS as int) == 0 { 1usize } else { 2usize },
            ),
            shape@ == full.take(i as int),
        decreases NUM_AUX_COLS - i,
    {
        shape.push(if i % LANE_AUX_COLS == 0 { 1 } else { 2 });
        assert(shape@ =~= full.take(i + 1));
        i = i + 1;
    }
    assert(shape@ =~= full);
    shape
}

/// The constraints of one lane, after those in `s`.
///
/// The address counts up, liveness only changes between rounds, a row without a logic operation
/// passes its first operand through, and a live rotating row's limbs decompose
/// `(half + 2^32) * k`.
pub open spec fn lane_demands(
    s: Seq<(Rows, int)>,
    l: Seq<int>,
    n: Seq<int>,
    p: Seq<int>,
    lane: int,
) -> Seq<(Rows, int)> {
    let base: int = lane * LANE_WIDTH;
    let is_rol: int = p[PCOL_IS_ROL as int];
    let k: int = p[PCOL_K as int];
    let ip: int = l[base + COL_IP];
    let act: int = l[base + COL_ACT];
    let no_logic: int = 1 - (p[PCOL_IS_XOR as int] + p[PCOL_IS_ANDNOT as int]);
    let r_bytes = l.subrange(base + COL_R_BYTES, base + COL_R_BYTES + 8);
    let rot_limbs = l.subrange(base + COL_ROT_LIMBS, base + COL_ROT_LIMBS + 8);
    let s = if lane == 0 {
        s.push((Rows::First, ip - 25))
    } else {
        s
    };
    let s = s.push((Rows::AllButLast, n[base + COL_IP] - ip - 1));
    let s = s.push((Rows::All, bool_poly(act)));
    let s = s.push((Rows::All, (1 - p[PCOL_P_LAST as int]) * (n[base + COL_ACT] - act)));
    let s = s + Seq::new(
        8,
        |i: int|
            (Rows::All, no_logic * (l[base + COL_R_BYTES + i] - l[base + COL_A_BYTES + i])),
    );
    let s = s.push(
        (
            Rows::All,
            act * is_rol * ((packed(r_bytes.subrange(0, 4), 256) + 0x1_0000_0000) * k - packed(
                rot_limbs.subrange(0, 4),
                65536,
            )),
        ),
    );
    s.push(
        (
            Rows::All,
            act * is_rol * ((packed(r_bytes.subrange(4, 8), 256) + 0x1_0000_0000) * k - packed(
                rot_limbs.subrange(4, 8),
                65536,
            )),
        ),
    )
}

/// The constraints of a row: those of each lane in turn.
pub open spec fn round_demands(l: Seq<int>, n: Seq<int>, p: Seq<int>) -> Seq<(Rows, int)> {
    lane_demands(lane_demands(Seq::empty(), l, n, p, 0), l, n, p, 1)
}

/// The rotated value's halves, put together from the limbs of both halves of the source.
pub open spec fn rotated(limbs: Seq<int>, k: int, swap: int) -> (int, int) {
    let lo: int = limbs[0] + limbs[6] + (limbs[1] + limbs[7]) * 65536 - k;
    let hi: int = limbs[2] + limbs[4] + (limbs[3] + limbs[5]) * 65536 - k;
    (lo + swap * (hi - lo), hi + swap * (lo - hi))
}

/// The value a row writes: its rotated result if it rotates, else its result.
pub open spec fn written(
    r_bytes: Seq<int>,
    limbs: Seq<int>,
    k: int,
    swap: int,
    is_rol: int,
) -> (int, int) {
    let r_lo: int = packed(r_bytes.subrange(0, 4), 256);
    let r_hi: int = packed(r_bytes.subrange(4, 8), 256);
    let (rot_lo, rot_hi) = rotated(limbs, k, swap);
    (r_lo + is_rol * (rot_lo - r_lo), r_hi + is_rol * (rot_hi - r_hi))
}

/// Puts the rotated value's halves together from the limbs.
pub fn rotated_halves<E: FieldExpr>(rot_limbs: &[E], k: &E, swap: &E) -> (r: (E, E))
    requires
        rot_limbs@.len() == 8,
    ensures
        (r.0.rep(), r.1.rep()) == rotated(reps(rot_limbs@), k.rep(), swap.rep()),
{
    let two_16 = E::constant(65536);
    let c0 = rot_limbs[0].plus(&rot_limbs[6]);
    let c1 = rot_limbs[1].plus(&rot_limbs[7]);
    let c2 = rot_limbs[2].plus(&rot_limbs[4]);
    let c3 = rot_limbs[3].plus(&rot_limbs[5]);
    let lo = c0.plus(&c1.times(&two_16)).minus(k);
    let hi = c2.plus(&c3.times(&two_16)).minus(k);
    (lo.plus(&swap.times(&hi.minus(&lo))), hi.plus(&swap.times(&lo.minus(&hi))))
}

/// The value a row writes.
pub fn memory_provide_c<E: FieldExpr>(
    r_bytes: &[E],
    rot_limbs: &[E],
    k: &E,
    swap: &E,
    is_rol: &E,
) -> (r: (E, E))
    requires
        r_bytes@.len() == 8,
        rot_limbs@.len() == 8,
    ensures
        (r.0.rep(), r.1.rep()) == written(
            reps(r_bytes@),
            reps(rot_limbs@),
            k.rep(),
            swap.rep(),
            is_rol.rep(),
        ),
{
    let (r_lo, r_hi) = halves_le(r_bytes, 256);
    let (rot_lo, rot_hi) = rotated_halves(rot_limbs, k, swap);
    (
        r_lo.plus(&is_rol.times(&rot_lo.minus(&r_lo))),
        r_hi.plus(&is_rol.times(&rot_hi.minus(&r_hi))),
    )
}

/// Limbs that decompose `(half + 2^32) * k` for both halves of a 64-bit value give back that
/// value rotated by `log2 k`, as integers and without reduction.
pub proof fn limbs_give_rotation(limbs: Seq<int>, lo: int, hi: int, k: int)
    requires
        limbs.len() == 8,
        forall|i: int| 0 <= i < 8 ==> 0 <= #[trigger] limbs[i] < 65536,
        0 <= lo < 0x1_0000_0000,
        0 <= hi < 0x1_0000_0000,
        0 < k <= 0x4000_0000,
        (lo + 0x1_0000_0000) * k == packed(limbs.subrange(0, 4), 65536),
        (hi + 0x1_0000_0000) * k == packed(limbs.subrange(4, 8), 65536),
    ensures
        ({
            let (rot_lo, rot_hi) = rotated(limbs, k, 0);
            &&& rot_lo == (lo * k) % 0x1_0000_0000 + (hi * k) / 0x1_0000_0000
            &&& rot_hi == (hi * k) % 0x1_0000_0000 + (lo * k) / 0x1_0000_0000
            &&& rotated(limbs, k, 1) == (rot_hi, rot_lo)
        }),
{
    let first = limbs.subrange(0, 4);
    let second = limbs.subrange(4, 8);
    four_limbs(first);
    four_limbs(second);
    assert((lo + 0x1_0000_0000) * k == lo * k + 0x1_0000_0000 * k) by (nonlinear_arith);
    assert((hi + 0x1_0000_0000) * k == hi * k + 0x1_0000_0000 * k) by (nonlinear_arith);
    let a: int = lo * k;
    let b: int = hi * k;
    assert(a == limbs[0] + 65536 * limbs[1] + 0x1_0000_0000 * (limbs[2] + 65536 * limbs[3] - k));
    assert(b == limbs[4] + 65536 * limbs[5] + 0x1_0000_0000 * (limbs[6] + 65536 * limbs[7] - k));
    let (rot_lo, rot_hi) = rotated(limbs, k, 0);
    assert(0 * (rot_hi - rot_lo) == 0);
}

pub proof fn four_limbs(limbs: Seq<int>)
    requires
        limbs.len() == 4,
    ensures
        packed(limbs, 65536) == limbs[0] + 65536 * limbs[1] + 0x1_0000_0000 * limbs[2]
            + 0x1_0000_0000_0000 * limbs[3],
{
    reveal_with_fuel(packed, 5);
    assert(limbs.drop_first().drop_first()[0] == limbs[2]);
    assert(limbs.drop_first().drop_first().drop_first()[0] == limbs[3]);
}

/// Appends the constraints of one lane.
#[verifier::spinoff_prover]
fn eval_lane<E: FieldExpr>(
    out: &mut Vec<Constraint<E>>,
    local: &[E],
    next: &[E],
    periodic: &[E],
    lane: usize,
)
    requires
        local@.len() == NUM_MAIN_COLS,
        next@.len() == NUM_MAIN_COLS,
        periodic@.len() == NUM_PERIODIC_COLS,
        lane < NUM_LANES,
    ensures
        demands(final(out)@) == lane_demands(
            demands(old(out)@),
            reps(local@),
            reps(next@),
            reps(periodic@),
            lane as int,
        ),
{
    let base: usize = lane_base(lane);
    let one = E::constant(1);
    let two_32 = E::constant(0x1_0000_0000);
    let is_rol = &periodic[PCOL_IS_ROL];
    let k = &periodic[PCOL_K];
    let ip = &local[base + COL_IP];
    let act = &local[base + COL_ACT];
    if lane == 0 {
        require(out, Rows::First, ip.minus(&E::constant(25)));
    }
    require(out, Rows::AllButLast, next[base + COL_IP].minus(ip).minus(&one));
    require_bool(out, act);
    let mid_round = one.minus(&periodic[PCOL_P_LAST]);
    require(out, Rows::All, mid_round.times(&next[base + COL_ACT].minus(act)));
    let no_logic = one.minus(&periodic[PCOL_IS_XOR].plus(&periodic[PCOL_IS_ANDNOT]));
    let ghost start = demands(out@);
    let ghost l = reps(local@);
    let ghost pass = Seq::new(
        8,
        |i: int|
            (
                Rows::All,
                no_logic.rep() * (l[base + COL_R_BYTES + i] - l[base + COL_A_BYTES + i]),
            ),
    );
    assert(start + pass.take(0) =~= start);
    let mut i: usize = 0;
    while i < 8
        invariant
            i <= 8,
            base + LANE_WIDTH <= NUM_MAIN_COLS,
            local@.len() == NUM_MAIN_COLS,
            l == reps(local@),
            pass == Seq::new(
                8,
                |i: int|
                    (
                        Rows::All,
                        no_logic.rep() * (l[base + COL_R_BYTES + i] - l[base + COL_A_BYTES + i]),
                    ),
            ),
            demands(out@) == start + pass.take(i as int),
        decreases 8 - i,
    {
        let diff = local[base + COL_R_BYTES + i].minus(&local[base + COL_A_BYTES + i]);
        let value = no_logic.times(&diff);
        require(out, Rows::All, value);
        assert(pass[i as int] == (Rows::All, value.rep()));
        assert((start + pass.take(i as int)).push(pass[i as int]) =~= start + pass.take(i + 1));
        i = i + 1;
    }
    assert(pass.take(8) =~= pass);
    let r_bytes = band(local, base + COL_R_BYTES, base + COL_R_BYTES + 8);
    let rot_limbs = band(local, base + COL_ROT_LIMBS, base + COL_ROT_LIMBS + 8);
    let (r_lo, r_hi) = halves_le(r_bytes, 256);
    let (lo, hi) = halves_le(rot_limbs, 65536);
    let rotating = act.times(is_rol);
    require(out, Rows::All, rotating.times(&r_lo.plus(&two_32).times(k).minus(&lo)));
    require(out, Rows::All, rotating.times(&r_hi.plus(&two_32).times(k).minus(&hi)));
}

/// The fractions of one lane, after those in `s`.
///
/// The row writes its value as often as it is read, reads its operands, has the byte-pair table
/// confirm its result, and has its limbs range-checked when it rotates.
pub open spec fn lane_fractions(
    s: Seq<Fraction>,
    l: Seq<int>,
    p: Seq<int>,
    lane: int,
) -> Seq<Fraction> {
    let base: int = lane * LANE_WIDTH;
    let first: int = lane * LANE_AUX_COLS;
    let is_xor: int = p[PCOL_IS_XOR as int];
    let is_andnot: int = p[PCOL_IS_ANDNOT as int];
    let is_rol: int = p[PCOL_IS_ROL as int];
    let logic: int = is_xor + is_andnot;
    let ip: int = l[base + COL_IP];
    let act: int = l[base + COL_ACT];
    let a_bytes = l.subrange(base + COL_A_BYTES, base + COL_A_BYTES + 8);
    let b_bytes = l.subrange(base + COL_B_BYTES, base + COL_B_BYTES + 8);
    let r_bytes = l.subrange(base + COL_R_BYTES, base + COL_R_BYTES + 8);
    let rot_limbs = l.subrange(base + COL_ROT_LIMBS, base + COL_ROT_LIMBS + 8);
    let (c_lo, c_hi) = written(
        r_bytes,
        rot_limbs,
        p[PCOL_K as int],
        p[PCOL_SWAP as int],
        is_rol,
    );
    let active: int = act * (is_xor + is_andnot + is_rol - p[PCOL_IS_XORROL as int]);
    let deg = Deg { v: 1, u: 1 };
    let s = s.push(
        Fraction {
            column: FractionColumn {
                index: first as usize,
                group: "memory64",
                deg: Deg { v: 5, u: 2 },
            },
            label: "dst",
            mult: 0 - act * p[PCOL_DST_MULT as int],
            bus: BusId::Memory64,
            part: Part::Whole,
            elems: seq![ip, c_lo, c_hi],
            deg,
        },
    );
    let sources = FractionColumn {
        index: (first + 1) as usize,
        group: "memory64",
        deg: Deg { v: 3, u: 3 },
    };
    let s = s.push(
        Fraction {
            column: sources,
            label: "src_a",
            mult: active,
            bus: BusId::Memory64,
            part: Part::Whole,
            elems: seq![
                ip - p[PCOL_BACK_A as int],
                packed(a_bytes.subrange(0, 4), 256),
                packed(a_bytes.subrange(4, 8), 256),
            ],
            deg,
        },
    );
    let s = s.push(
        Fraction {
            column: sources,
            label: "src_b",
            mult: act * logic,
            bus: BusId::Memory64,
            part: Part::Whole,
            elems: seq![
                ip - p[PCOL_BACK_B as int],
                packed(b_bytes.subrange(0, 4), 256),
                packed(b_bytes.subrange(4, 8), 256),
            ],
            deg,
        },
    );
    let s = s + byte_fractions(
        FractionColumn {
            index: (first + 2) as usize,
            group: "byte-pair-lut",
            deg: Deg { v: 2, u: 2 },
        },
        "byte-req",
        active,
        1 - is_andnot,
        a_bytes,
        Seq::new(8, |i: int| logic * b_bytes[i]),
        r_bytes,
    );
    s + limb_fractions(
        FractionColumn { index: (first + 6) as usize, group: "range16", deg: Deg { v: 2, u: 2 } },
        "limb",
        act * is_rol,
        rot_limbs,
    )
}

/// The fractions of a row: those of each lane in turn.
pub open spec fn round_fractions(l: Seq<int>, p: Seq<int>) -> Seq<Fraction> {
    lane_fractions(lane_fractions(Seq::empty(), l, p, 0), l, p, 1)
}

/// `factor` times each element.
fn scaled<E: FieldExpr>(factor: &E, row: &[E]) -> (r: Vec<E>)
    ensures
        r@.len() == row@.len(),
        reps(r@) == Seq::new(row@.len(), |i: int| factor.rep() * reps(row@)[i]),
{
    let mut out: Vec<E> = Vec::new();
    let mut i: usize = 0;
    while i < row.len()
        invariant
            i <= row@.len(),
            out@.len() == i,
            forall|j: int|
                0 <= j < i ==> (#[trigger] out@[j]).rep() == factor.rep() * row@[j].rep(),
        decreases row@.len() - i,
    {
        out.push(factor.times(&row[i]));
        i = i + 1;
    }
    assert(reps(out@) =~= Seq::new(row@.len(), |i: int| factor.rep() * reps(row@)[i]));
    out
}

/// Appends the fractions of one lane.
#[verifier::spinoff_prover]
fn eval_lane_lookups<E: FieldExpr>(
    out: &mut Vec<Interaction<E>>,
    local: &[E],
    periodic: &[E],
    lane: usize,
)
    requires
        local@.len() == NUM_MAIN_COLS,
        periodic@.len() == NUM_PERIODIC_COLS,
        lane < NUM_LANES,
    ensures
        fractions(final(out)@) == lane_fractions(
            fractions(old(out)@),
            reps(local@),
            reps(periodic@),
            lane as int,
        ),
{
    let base: usize = lane_base(lane);
    let first: usize = lane * LANE_AUX_COLS;
    let zero = E::constant(0);
    let is_xor = &periodic[PCOL_IS_XOR];
    let is_andnot = &periodic[PCOL_IS_ANDNOT];
    let is_rol = &periodic[PCOL_IS_ROL];
    let logic = is_xor.plus(is_andnot);
    let ip = &local[base + COL_IP];
    let act = &local[base + COL_ACT];
    let a_bytes = band(local, base + COL_A_BYTES, base + COL_A_BYTES + 8);
    let b_bytes = band(local, base + COL_B_BYTES, base + COL_B_BYTES + 8);
    let r_bytes = band(local, base + COL_R_BYTES, base + COL_R_BYTES + 8);
    let rot_limbs = band(local, base + COL_ROT_LIMBS, base + COL_ROT_LIMBS + 8);
    let (c_lo, c_hi) = memory_provide_c(
        r_bytes,
        rot_limbs,
        &periodic[PCOL_K],
        &periodic[PCOL_SWAP],
        is_rol,
    );
    let active = act.times(
        &is_xor.plus(is_andnot).plus(is_rol).minus(&periodic[PCOL_IS_XORROL]),
    );
    let deg = Deg { v: 1, u: 1 };
    let dst = FractionColumn { index: first, group: "memory64", deg: Deg { v: 5, u: 2 } };
    let neg_mult = zero.minus(&act.times(&periodic[PCOL_DST_MULT]));
    interact(
        out,
        dst,
        "dst",
        neg_mult,
        Memory64Msg { addr: ip.dup(), lo: c_lo, hi: c_hi }.message(),
        deg,
    );
    let sources = FractionColumn { index: first + 1, group: "memory64", deg: Deg { v: 3, u: 3 } };
    let (a_lo, a_hi) = halves_le(a_bytes, 256);
    let (b_lo, b_hi) = halves_le(b_bytes, 256);
    interact(
        out,
        sources,
        "src_a",
        active.dup(),
        Memory64Msg { addr: ip.minus(&periodic[PCOL_BACK_A]), lo: a_lo, hi: a_hi }.message(),
        deg,
    );
    interact(
        out,
        sources,
        "src_b",
        act.times(&logic),
        Memory64Msg { addr: ip.minus(&periodic[PCOL_BACK_B]), lo: b_lo, hi: b_hi }.message(),
        deg,
    );
    let gated_b = scaled(&logic, b_bytes);
    let op = E::constant(1).minus(is_andnot);
    let bytes = FractionColumn {
        index: first + 2,
        group: "byte-pair-lut",
        deg: Deg { v: 2, u: 2 },
    };
    require_bytes(out, bytes, "byte-req", &active, &op, a_bytes, &gated_b, r_bytes);
    let limbs = FractionColumn { index: first + 6, group: "range16", deg: Deg { v: 2, u: 2 } };
    require_limbs(out, limbs, "limb", &act.times(is_rol), rot_limbs);
    assert(reps(gated_b@) =~= Seq::new(8, |i: int| logic.rep() * reps(b_bytes@)[i]));
}

impl KeccakRoundAir {
    /// The constraints on a row and its successor.
    pub fn eval<E: FieldExpr>(&self, local: &[E], next: &[E], periodic: &[E]) -> (r: Vec<
        Constraint<E>,
    >)
        requires
            local@.len() == NUM_MAIN_COLS,
            next@.len() == NUM_MAIN_COLS,
            periodic@.len() == NUM_PERIODIC_COLS,
        ensures
            demands(r@) == round_demands(reps(local@), reps(next@), reps(periodic@)),
    {
        let mut out: Vec<Constraint<E>> = Vec::new();
        assert(demands(out@) =~= Seq::<(Rows, int)>::empty());
        eval_lane(&mut out, local, next, periodic, 0);
        eval_lane(&mut out, local, next, periodic, 1);
        out
    }

    /// The fractions of one row.
    pub fn eval_lookups<E: FieldExpr>(&self, local: &[E], periodic: &[E]) -> (r: Vec<
        Interaction<E>,
    >)
        requires
            local@.len() == NUM_MAIN_COLS,
            periodic@.len() == NUM_PERIODIC_COLS,
        ensures
            fractions(r@) == round_fractions(reps(local@), reps(periodic@)),
    {
        let mut out: Vec<Interaction<E>> = Vec::new();
        assert(fractions(out@) =~= Seq::<Fraction>::empty());
        eval_lane_lookups(&mut out, local, periodic, 0);
        eval_lane_lookups(&mut out, local, periodic, 1);
        out
    }
}

} // verus!
