//! The round program: 128 slots, each one operation `c = ROL(a OP b, s)` on 64-bit cells.
//!
//! ```text
//! [  0,   1)  round constant, written by the sponge
//! [  1,   2)  unused
//! [  2,  22)  theta: column parities
//! [ 22,  27)  theta: parities rotated by one
//! [ 27,  32)  theta: masks
//! [ 32,  69)  theta applied, rho and pi
//! [ 69,  94)  chi: the AND-NOT terms
//! [ 94, 102)  unused
//! [102, 103)  chi of lane (0, 0)
//! [103, 104)  iota: lane (0, 0) of the output
//! [104, 128)  chi: the other lanes of the output
//! ```

use crate::precompiles::hash::keccak::reference::{
    chi, moved_from, parity, rho_pi, rotl, round, theta, theta_mask, RHO,
};
use crate::precompiles::relations::ProvideMult;
use vstd::prelude::*;

verus! {

pub const ROUND_PERIOD: usize = 128;
pub const NUM_PERIODIC_COLS: usize = 10;
pub const COL_IS_XOR: usize = 0;
pub const COL_IS_ANDNOT: usize = 1;
pub const COL_IS_ROL: usize = 2;
pub const COL_BACK_A: usize = 3;
pub const COL_BACK_B: usize = 4;
pub const COL_K: usize = 5;
pub const COL_DST_MULT: usize = 6;
pub const COL_P_LAST: usize = 7;
pub const COL_IS_XORROL: usize = 8;
pub const COL_SWAP: usize = 9;
pub const SLOT_RC: usize = 0;
pub const SLOT_ZERO: usize = 1;
pub const SLOT_C_BEGIN: usize = 2;
pub const SLOT_D_ROL_BEGIN: usize = 22;
pub const SLOT_D_XOR_BEGIN: usize = 27;
pub const SLOT_APPLY_RPI_BEGIN: usize = 32;
pub const SLOT_CHI_ANDNOT_BEGIN: usize = 69;
pub const SLOT_CHI00: usize = 102;
pub const SLOT_IOTA: usize = 103;
pub const SLOT_CHI_XOR_BEGIN: usize = 104;

/// Slot of each lane after rho and pi, by lane index.
pub const B_SLOTS: [usize; 25] = [
    32, 34, 36, 37, 38, 39, 40, 41, 43, 46, 47, 48, 49, 50, 51, 52, 54, 55, 56, 58, 61, 63, 65, 67,
    68,
];

/// Slot of the parity of column `x`.
#[verifier::allow_in_spec]
pub fn slot_c(x: usize) -> usize
    requires
        x < 5,
    returns
        (SLOT_C_BEGIN + 4 * x + 3) as usize,
{
    SLOT_C_BEGIN + 4 * x + 3
}

/// Slot of the rotated parity that mask `x` uses.
#[verifier::allow_in_spec]
pub fn slot_d_rol(x: usize) -> usize
    requires
        x < 5,
    returns
        (SLOT_D_ROL_BEGIN + x) as usize,
{
    SLOT_D_ROL_BEGIN + x
}

/// Slot of the theta mask of column `x`.
#[verifier::allow_in_spec]
pub fn slot_d(x: usize) -> usize
    requires
        x < 5,
    returns
        (SLOT_D_XOR_BEGIN + x) as usize,
{
    SLOT_D_XOR_BEGIN + x
}

/// Slot, in the round before, that holds input lane `(x, y)`.
#[verifier::allow_in_spec]
pub fn slot_lane_prev(x: usize, y: usize) -> usize
    requires
        x < 5,
        y < 5,
    returns
        (if x == 0 && y == 0 {
            SLOT_IOTA
        } else {
            (SLOT_CHI_XOR_BEGIN + (x + 5 * y - 1)) as usize
        }),
{
    if x == 0 && y == 0 {
        SLOT_IOTA
    } else {
        SLOT_CHI_XOR_BEGIN + (x + 5 * y - 1)
    }
}

/// Slot of lane `(x, y)` after rho and pi.
#[verifier::allow_in_spec]
pub fn slot_b(x: usize, y: usize) -> usize
    requires
        x < 5,
        y < 5,
    returns
        B_SLOTS@[x + 5 * y],
{
    B_SLOTS[x + 5 * y]
}

/// The lane that rho and pi bring to `(out_x, out_y)`.
pub fn pi_inverse(out_x: usize, out_y: usize) -> (r: (usize, usize))
    requires
        out_x < 5,
        out_y < 5,
    ensures
        (r.0 as int, r.1 as int) == moved_from(out_x as int, out_y as int),
{
    ((3 * out_y + out_x) % 5, out_x)
}

/// Slot of the AND-NOT term of lane `(x, y)`.
#[verifier::allow_in_spec]
pub fn slot_t(x: usize, y: usize) -> usize
    requires
        x < 5,
        y < 5,
    returns
        (SLOT_CHI_ANDNOT_BEGIN + (x + 5 * y)) as usize,
{
    SLOT_CHI_ANDNOT_BEGIN + (x + 5 * y)
}

/// Where an operand comes from.
#[derive(Debug, Clone, Copy, PartialEq, Eq, Structural)]
pub enum Source {
    /// An earlier slot of the same round.
    Local(usize),
    /// An input lane.
    Lane(usize, usize),
    Absent,
}

impl Source {
    /// Whether a slot may read this operand.
    pub open spec fn readable(self, read_slot: int) -> bool {
        match self {
            Source::Local(s) => s < read_slot,
            Source::Lane(x, y) => x < 5 && y < 5,
            Source::Absent => true,
        }
    }

    /// How many rows back the operand was written.
    pub open spec fn distance(self, read_slot: int) -> int {
        match self {
            Source::Local(s) => read_slot - s,
            Source::Lane(x, y) => ROUND_PERIOD + read_slot - slot_lane_prev(x, y),
            Source::Absent => 0,
        }
    }

    /// How many rows back the operand was written.
    pub fn back_off(self, read_slot: usize) -> (r: u64)
        requires
            self.readable(read_slot as int),
            read_slot < ROUND_PERIOD,
        ensures
            r == self.distance(read_slot as int),
    {
        match self {
            Source::Local(s) => (read_slot - s) as u64,
            Source::Lane(x, y) => (ROUND_PERIOD + read_slot - slot_lane_prev(x, y)) as u64,
            Source::Absent => 0,
        }
    }
}

/// What a slot does with its operands.
#[derive(Debug, Clone, Copy, PartialEq, Eq, Structural)]
pub enum Op {
    Nop,
    Xor,
    Andnot,
    Rol(u32),
    XorRol(u32),
}

/// An operation, its operands, and how often its result is read.
#[derive(Debug, Clone, Copy, PartialEq, Eq, Structural)]
pub struct SlotSpec {
    pub op: Op,
    pub src_a: Source,
    pub src_b: Source,
    pub dst_mult: ProvideMult,
}

/// A slot with operands as back-offsets.
#[derive(Debug, Clone, Copy, PartialEq, Eq, Structural)]
pub struct Slot {
    pub op: Op,
    pub back_a: u64,
    pub back_b: u64,
    pub dst_mult: ProvideMult,
}

/// A slot that does nothing.
pub open spec fn nop_slot() -> SlotSpec {
    SlotSpec { op: Op::Nop, src_a: Source::Absent, src_b: Source::Absent, dst_mult: 0 }
}

/// The slot that computes lane `(out_x, out_y)` after theta, rho and pi.
pub open spec fn apply_slot(out_x: int, out_y: int) -> SlotSpec {
    let (in_x, in_y) = moved_from(out_x, out_y);
    let rho: u32 = RHO@[in_x]@[in_y];
    let lane = Source::Lane(in_x as usize, in_y as usize);
    let mask = Source::Local(slot_d(in_x as usize));
    SlotSpec {
        op: if rho == 0 {
            Op::Xor
        } else {
            Op::XorRol(rho)
        },
        src_a: if in_y == 0 {
            mask
        } else {
            lane
        },
        src_b: if in_y == 0 {
            lane
        } else {
            mask
        },
        dst_mult: 3,
    }
}

/// The lane that slot `i` computes, if it is one of the slots after rho and pi.
pub open spec fn lane_at(i: int) -> Option<int> {
    if exists|lane: int| 0 <= lane < 25 && #[trigger] B_SLOTS@[lane] == i {
        Some(choose|lane: int| 0 <= lane < 25 && #[trigger] B_SLOTS@[lane] == i)
    } else {
        None
    }
}

/// The operation of slot `i`.
pub open spec fn slot_spec(i: int) -> SlotSpec {
    if SLOT_C_BEGIN <= i < SLOT_D_ROL_BEGIN {
        let x: int = (i - SLOT_C_BEGIN) / 4;
        let step: int = (i - SLOT_C_BEGIN) % 4;
        SlotSpec {
            op: Op::Xor,
            src_a: if step == 0 {
                Source::Lane(x as usize, 0)
            } else {
                Source::Local((i - 1) as usize)
            },
            src_b: Source::Lane(x as usize, (step + 1) as usize),
            dst_mult: if step == 3 {
                2
            } else {
                1
            },
        }
    } else if SLOT_D_ROL_BEGIN <= i < SLOT_D_XOR_BEGIN {
        let x: int = i - SLOT_D_ROL_BEGIN;
        SlotSpec {
            op: Op::Rol(1),
            src_a: Source::Local(slot_c(((x + 1) % 5) as usize)),
            src_b: Source::Absent,
            dst_mult: 1,
        }
    } else if SLOT_D_XOR_BEGIN <= i < SLOT_APPLY_RPI_BEGIN {
        let x: int = i - SLOT_D_XOR_BEGIN;
        SlotSpec {
            op: Op::Xor,
            src_a: Source::Local(slot_c(((x + 4) % 5) as usize)),
            src_b: Source::Local(slot_d_rol(x as usize)),
            dst_mult: 5,
        }
    } else if SLOT_APPLY_RPI_BEGIN <= i < SLOT_CHI_ANDNOT_BEGIN {
        match lane_at(i) {
            Some(lane) => apply_slot(lane % 5, lane / 5),
            None => nop_slot(),
        }
    } else if SLOT_CHI_ANDNOT_BEGIN <= i < SLOT_CHI_ANDNOT_BEGIN + 25 {
        let x: int = (i - SLOT_CHI_ANDNOT_BEGIN) % 5;
        let y: int = (i - SLOT_CHI_ANDNOT_BEGIN) / 5;
        SlotSpec {
            op: Op::Andnot,
            src_a: Source::Local(slot_b(((x + 1) % 5) as usize, y as usize)),
            src_b: Source::Local(slot_b(((x + 2) % 5) as usize, y as usize)),
            dst_mult: 1,
        }
    } else if i == SLOT_CHI00 {
        SlotSpec {
            op: Op::Xor,
            src_a: Source::Local(slot_t(0, 0)),
            src_b: Source::Local(slot_b(0, 0)),
            dst_mult: 1,
        }
    } else if i == SLOT_IOTA {
        SlotSpec {
            op: Op::Xor,
            src_a: Source::Local(SLOT_CHI00),
            src_b: Source::Local(SLOT_RC),
            dst_mult: 2,
        }
    } else if SLOT_CHI_XOR_BEGIN <= i < ROUND_PERIOD {
        let lane: int = i - SLOT_CHI_XOR_BEGIN + 1;
        SlotSpec {
            op: Op::Xor,
            src_a: Source::Local(slot_t((lane % 5) as usize, (lane / 5) as usize)),
            src_b: Source::Local(slot_b((lane % 5) as usize, (lane / 5) as usize)),
            dst_mult: 2,
        }
    } else {
        nop_slot()
    }
}

/// The slots after rho and pi come in the order of their lanes, inside their block.
pub proof fn b_slots_ordered(a: int, b: int)
    requires
        0 <= a <= b < 25,
    ensures
        SLOT_APPLY_RPI_BEGIN <= B_SLOTS@[a] < SLOT_CHI_ANDNOT_BEGIN,
        B_SLOTS@[a] <= B_SLOTS@[b],
        a < b ==> B_SLOTS@[a] < B_SLOTS@[b],
    decreases b - a,
{
    assert(SLOT_APPLY_RPI_BEGIN <= B_SLOTS@[a] < SLOT_CHI_ANDNOT_BEGIN);
    if a < b {
        assert(B_SLOTS@[b - 1] < B_SLOTS@[b]);
        b_slots_ordered(a, b - 1);
    }
}

/// A slot computes at most one lane.
pub proof fn lane_at_is(lane: int)
    requires
        0 <= lane < 25,
    ensures
        lane_at(B_SLOTS@[lane] as int) == Some(lane),
{
    let i: int = B_SLOTS@[lane] as int;
    assert(0 <= lane < 25 && B_SLOTS@[lane] == i);
    let other = choose|lane: int| 0 <= lane < 25 && #[trigger] B_SLOTS@[lane] == i;
    if other < lane {
        b_slots_ordered(other, lane);
    } else {
        b_slots_ordered(lane, other);
    }
}

/// The slot that computes a lane after theta, rho and pi.
pub fn emit_apply_rpi(out_x: usize, out_y: usize) -> (r: SlotSpec)
    requires
        out_x < 5,
        out_y < 5,
    ensures
        r == apply_slot(out_x as int, out_y as int),
{
    let (in_x, in_y) = pi_inverse(out_x, out_y);
    let rho: u32 = RHO[in_x][in_y];
    let lane = Source::Lane(in_x, in_y);
    let mask = Source::Local(slot_d(in_x));
    let op = if rho == 0 {
        Op::Xor
    } else {
        Op::XorRol(rho)
    };
    if in_y == 0 {
        SlotSpec { op, src_a: mask, src_b: lane, dst_mult: 3 }
    } else {
        SlotSpec { op, src_a: lane, src_b: mask, dst_mult: 3 }
    }
}

/// The lane that slot `i` computes, if any.
fn find_lane(i: usize) -> (r: Option<usize>)
    ensures
        match r {
            Some(lane) => lane < 25 && lane_at(i as int) == Some(lane as int),
            None => lane_at(i as int) is None,
        },
{
    let mut lane: usize = 0;
    while lane < 25
        invariant
            lane <= 25,
            forall|k: int| 0 <= k < lane ==> #[trigger] B_SLOTS@[k] != i,
        decreases 25 - lane,
    {
        if B_SLOTS[lane] == i {
            proof {
                lane_at_is(lane as int);
            }
            return Some(lane);
        }
        lane = lane + 1;
    }
    None
}

/// The operation of slot `i`.
fn slot_at(i: usize) -> (r: SlotSpec)
    requires
        i < ROUND_PERIOD,
    ensures
        r == slot_spec(i as int),
{
    if SLOT_C_BEGIN <= i && i < SLOT_D_ROL_BEGIN {
        let x: usize = (i - SLOT_C_BEGIN) / 4;
        let step: usize = (i - SLOT_C_BEGIN) % 4;
        let src_a = if step == 0 {
            Source::Lane(x, 0)
        } else {
            Source::Local(i - 1)
        };
        let dst_mult: u32 = if step == 3 {
            2
        } else {
            1
        };
        SlotSpec { op: Op::Xor, src_a, src_b: Source::Lane(x, step + 1), dst_mult }
    } else if SLOT_D_ROL_BEGIN <= i && i < SLOT_D_XOR_BEGIN {
        let x: usize = i - SLOT_D_ROL_BEGIN;
        SlotSpec {
            op: Op::Rol(1),
            src_a: Source::Local(slot_c((x + 1) % 5)),
            src_b: Source::Absent,
            dst_mult: 1,
        }
    } else if SLOT_D_XOR_BEGIN <= i && i < SLOT_APPLY_RPI_BEGIN {
        let x: usize = i - SLOT_D_XOR_BEGIN;
        SlotSpec {
            op: Op::Xor,
            src_a: Source::Local(slot_c((x + 4) % 5)),
            src_b: Source::Local(slot_d_rol(x)),
            dst_mult: 5,
        }
    } else if SLOT_APPLY_RPI_BEGIN <= i && i < SLOT_CHI_ANDNOT_BEGIN {
        match find_lane(i) {
            Some(lane) => emit_apply_rpi(lane % 5, lane / 5),
            None => SlotSpec {
                op: Op::Nop,
                src_a: Source::Absent,
                src_b: Source::Absent,
                dst_mult: 0,
            },
        }
    } else if SLOT_CHI_ANDNOT_BEGIN <= i && i < SLOT_CHI_ANDNOT_BEGIN + 25 {
        let x: usize = (i - SLOT_CHI_ANDNOT_BEGIN) % 5;
        let y: usize = (i - SLOT_CHI_ANDNOT_BEGIN) / 5;
        SlotSpec {
            op: Op::Andnot,
            src_a: Source::Local(slot_b((x + 1) % 5, y)),
            src_b: Source::Local(slot_b((x + 2) % 5, y)),
            dst_mult: 1,
        }
    } else if i == SLOT_CHI00 {
        SlotSpec {
            op: Op::Xor,
            src_a: Source::Local(slot_t(0, 0)),
            src_b: Source::Local(slot_b(0, 0)),
            dst_mult: 1,
        }
    } else if i == SLOT_IOTA {
        SlotSpec {
            op: Op::Xor,
            src_a: Source::Local(SLOT_CHI00),
            src_b: Source::Local(SLOT_RC),
            dst_mult: 2,
        }
    } else if SLOT_CHI_XOR_BEGIN <= i {
        let lane: usize = i - SLOT_CHI_XOR_BEGIN + 1;
        SlotSpec {
            op: Op::Xor,
            src_a: Source::Local(slot_t(lane % 5, lane / 5)),
            src_b: Source::Local(slot_b(lane % 5, lane / 5)),
            dst_mult: 2,
        }
    } else {
        SlotSpec { op: Op::Nop, src_a: Source::Absent, src_b: Source::Absent, dst_mult: 0 }
    }
}

/// The whole program.
pub fn slot_table() -> (r: Vec<SlotSpec>)
    ensures
        r@ == Seq::new(ROUND_PERIOD as nat, |i: int| slot_spec(i)),
{
    let mut table: Vec<SlotSpec> = Vec::new();
    let ghost full = Seq::new(ROUND_PERIOD as nat, |i: int| slot_spec(i));
    let mut i: usize = 0;
    while i < ROUND_PERIOD
        invariant
            i <= ROUND_PERIOD,
            full == Seq::new(ROUND_PERIOD as nat, |i: int| slot_spec(i)),
            table@ == full.take(i as int),
        decreases ROUND_PERIOD - i,
    {
        table.push(slot_at(i));
        assert(table@ =~= full.take(i + 1));
        i = i + 1;
    }
    assert(table@ =~= full);
    table
}

/// Every slot reads input lanes or earlier slots only, and rotates by less than the lane width.
pub proof fn slot_reads_backwards(i: int)
    requires
        0 <= i < ROUND_PERIOD,
    ensures
        slot_spec(i).src_a.readable(i),
        slot_spec(i).src_b.readable(i),
        slot_spec(i).op matches Op::Rol(s) ==> s <= 30,
        slot_spec(i).op matches Op::XorRol(s) ==> 0 < s < 63 && !(31 <= s < 36),
{
    if SLOT_APPLY_RPI_BEGIN <= i < SLOT_CHI_ANDNOT_BEGIN {
        if lane_at(i) is Some {
            let lane = lane_at(i)->0;
            assert(0 <= lane < 25);
        }
    } else if SLOT_CHI_ANDNOT_BEGIN <= i < SLOT_CHI_ANDNOT_BEGIN + 25 {
        let x: int = (i - SLOT_CHI_ANDNOT_BEGIN) % 5;
        let y: int = (i - SLOT_CHI_ANDNOT_BEGIN) / 5;
        b_slots_ordered((x + 1) % 5 + 5 * y, 24);
        b_slots_ordered((x + 2) % 5 + 5 * y, 24);
    } else if SLOT_CHI_XOR_BEGIN <= i {
        b_slots_ordered(i - SLOT_CHI_XOR_BEGIN + 1, 24);
    } else if i == SLOT_CHI00 {
        b_slots_ordered(0, 24);
    }
}

/// Slot `i` with operands as back-offsets.
pub open spec fn encoded_slot(i: int) -> Slot {
    Slot {
        op: slot_spec(i).op,
        back_a: slot_spec(i).src_a.distance(i) as u64,
        back_b: slot_spec(i).src_b.distance(i) as u64,
        dst_mult: slot_spec(i).dst_mult,
    }
}

/// The program with operands as back-offsets.
pub fn slots() -> (r: Vec<Slot>)
    ensures
        r@ == Seq::new(ROUND_PERIOD as nat, |i: int| encoded_slot(i)),
{
    let table = slot_table();
    let mut out: Vec<Slot> = Vec::new();
    let ghost full = Seq::new(ROUND_PERIOD as nat, |i: int| encoded_slot(i));
    let mut i: usize = 0;
    while i < ROUND_PERIOD
        invariant
            i <= ROUND_PERIOD,
            table@ == Seq::new(ROUND_PERIOD as nat, |i: int| slot_spec(i)),
            full == Seq::new(ROUND_PERIOD as nat, |i: int| encoded_slot(i)),
            out@ == full.take(i as int),
        decreases ROUND_PERIOD - i,
    {
        let spec_i = table[i];
        proof {
            slot_reads_backwards(i as int);
        }
        out.push(
            Slot {
                op: spec_i.op,
                back_a: spec_i.src_a.back_off(i),
                back_b: spec_i.src_b.back_off(i),
                dst_mult: spec_i.dst_mult,
            },
        );
        assert(out@ =~= full.take(i + 1));
        i = i + 1;
    }
    assert(out@ =~= full);
    out
}

/// A rotation as a smaller rotation and an exchange of the 32-bit halves.
pub fn rol_decompose(s: u32) -> (r: (u32, bool))
    ensures
        r.1 == (s >= 32),
        s == r.0 + (if r.1 {
            32int
        } else {
            0int
        }),
{
    if s >= 32 {
        (s - 32, true)
    } else {
        (s, false)
    }
}

/// `value` with its 32-bit halves exchanged.
pub open spec fn half_swap(value: u64) -> u64 {
    (value << 32u32) | (value >> 32u32)
}

/// A rotation by 32 or more is the rest of the rotation followed by a half-swap.
pub proof fn rotation_splits(value: u64, s: u32)
    requires
        32 <= s < 64,
    ensures
        rotl(value, s) == half_swap(rotl(value, (s - 32) as u32)),
{
    if s == 32 {
    } else {
        assert((value << s) | (value >> ((64 - s) as u32)) == ((((value << ((s - 32) as u32)) | (
        value >> ((64 - (s - 32)) as u32))) << 32u32) | (((value << ((s - 32) as u32)) | (value >> (
        (64 - (s - 32)) as u32))) >> 32u32))) by (bit_vector)
            requires
                32 < s < 64,
        ;
    }
}

/// The entry of program column `col` for slot `i`.
pub open spec fn program_cell(col: int, i: int) -> u64 {
    let slot = slot_spec(i);
    let shift: u32 = match slot.op {
        Op::Rol(s) => s,
        Op::XorRol(s) => if s >= 32 {
            (s - 32) as u32
        } else {
            s
        },
        _ => 0,
    };
    let rotates = slot.op is Rol || slot.op is XorRol;
    if col == COL_IS_XOR {
        if slot.op is Xor || slot.op is XorRol { 1 } else { 0 }
    } else if col == COL_IS_ANDNOT {
        if slot.op is Andnot { 1 } else { 0 }
    } else if col == COL_IS_ROL {
        if rotates { 1 } else { 0 }
    } else if col == COL_BACK_A {
        slot.src_a.distance(i) as u64
    } else if col == COL_BACK_B {
        slot.src_b.distance(i) as u64
    } else if col == COL_K {
        if rotates { 1u64 << shift } else { 0 }
    } else if col == COL_DST_MULT {
        slot.dst_mult as u64
    } else if col == COL_P_LAST {
        if i == ROUND_PERIOD - 1 { 1 } else { 0 }
    } else if col == COL_IS_XORROL {
        if slot.op is XorRol { 1 } else { 0 }
    } else {
        if slot.op matches Op::XorRol(s) && s >= 32 { 1 } else { 0 }
    }
}

/// One column of the program.
pub open spec fn program_column(col: int) -> Seq<u64> {
    Seq::new(ROUND_PERIOD as nat, |i: int| program_cell(col, i))
}

/// The entry of program column `col` for slot `i`, whose operation is `slot`.
fn cell(col: usize, i: usize, slot: SlotSpec) -> (r: u64)
    requires
        col < NUM_PERIODIC_COLS,
        i < ROUND_PERIOD,
        slot == slot_spec(i as int),
    ensures
        r == program_cell(col as int, i as int),
{
    proof {
        slot_reads_backwards(i as int);
    }
    let (is_xor, is_andnot, is_rol, is_xorrol, k, swap): (u64, u64, u64, u64, u64, u64) =
        match slot.op {
        Op::Nop => (0, 0, 0, 0, 0, 0),
        Op::Xor => (1, 0, 0, 0, 0, 0),
        Op::Andnot => (0, 1, 0, 0, 0, 0),
        Op::Rol(s) => (0, 0, 1, 0, 1u64 << s, 0),
        Op::XorRol(s) => {
            let (shift, swap) = rol_decompose(s);
            (1, 0, 1, 1, 1u64 << shift, if swap { 1 } else { 0 })
        },
    };
    if col == COL_IS_XOR {
        is_xor
    } else if col == COL_IS_ANDNOT {
        is_andnot
    } else if col == COL_IS_ROL {
        is_rol
    } else if col == COL_BACK_A {
        slot.src_a.back_off(i)
    } else if col == COL_BACK_B {
        slot.src_b.back_off(i)
    } else if col == COL_K {
        k
    } else if col == COL_DST_MULT {
        slot.dst_mult as u64
    } else if col == COL_P_LAST {
        if i == ROUND_PERIOD - 1 { 1 } else { 0 }
    } else if col == COL_IS_XORROL {
        is_xorrol
    } else {
        swap
    }
}

/// The columns of the program, in the order of the `COL_*` constants.
pub fn round_program() -> (r: Vec<Vec<u64>>)
    ensures
        r@.len() == NUM_PERIODIC_COLS,
        forall|col: int|
            0 <= col < NUM_PERIODIC_COLS ==> (#[trigger] r@[col])@ == program_column(col),
{
    let table = slot_table();
    let mut cols: Vec<Vec<u64>> = Vec::new();
    let mut col: usize = 0;
    while col < NUM_PERIODIC_COLS
        invariant
            col <= NUM_PERIODIC_COLS,
            table@ == Seq::new(ROUND_PERIOD as nat, |i: int| slot_spec(i)),
            cols@.len() == col,
            forall|c: int| 0 <= c < col ==> (#[trigger] cols@[c])@ == program_column(c),
        decreases NUM_PERIODIC_COLS - col,
    {
        let mut values: Vec<u64> = Vec::new();
        let mut i: usize = 0;
        while i < ROUND_PERIOD
            invariant
                col < NUM_PERIODIC_COLS,
                i <= ROUND_PERIOD,
                table@ == Seq::new(ROUND_PERIOD as nat, |i: int| slot_spec(i)),
                values@ == program_column(col as int).take(i as int),
            decreases ROUND_PERIOD - i,
        {
            values.push(cell(col, i, table[i]));
            assert(values@ =~= program_column(col as int).take(i + 1));
            i = i + 1;
        }
        assert(values@ =~= program_column(col as int));
        cols.push(values);
        col = col + 1;
    }
    cols
}

/// The value that slot `i` writes when the round runs on `state` with round constant `rc`.
pub open spec fn cell_value(state: Seq<u64>, rc: u64, i: int) -> u64
    decreases i,
{
    if i <= 0 {
        rc
    } else {
        let slot = slot_spec(i);
        let a: u64 = match slot.src_a {
            Source::Local(s) => if s < i {
                cell_value(state, rc, s as int)
            } else {
                0
            },
            Source::Lane(x, y) => state[x + 5 * y],
            Source::Absent => 0,
        };
        let b: u64 = match slot.src_b {
            Source::Local(s) => if s < i {
                cell_value(state, rc, s as int)
            } else {
                0
            },
            Source::Lane(x, y) => state[x + 5 * y],
            Source::Absent => 0,
        };
        match slot.op {
            Op::Nop => 0,
            Op::Xor => a ^ b,
            Op::Andnot => !a & b,
            Op::Rol(s) => rotl(a, s),
            Op::XorRol(s) => rotl(a ^ b, s),
        }
    }
}

proof fn parity_cell(state: Seq<u64>, rc: u64, x: int)
    requires
        0 <= x < 5,
    ensures
        cell_value(state, rc, slot_c(x as usize) as int) == parity(state, x),
{
    let base: int = SLOT_C_BEGIN + 4 * x;
    assert(cell_value(state, rc, base) == state[x] ^ state[x + 5]);
    assert(cell_value(state, rc, base + 1) == cell_value(state, rc, base) ^ state[x + 10]);
    assert(cell_value(state, rc, base + 2) == cell_value(state, rc, base + 1) ^ state[x + 15]);
    assert(cell_value(state, rc, base + 3) == cell_value(state, rc, base + 2) ^ state[x + 20]);
}

proof fn mask_cell(state: Seq<u64>, rc: u64, x: int)
    requires
        0 <= x < 5,
    ensures
        cell_value(state, rc, slot_d(x as usize) as int) == theta_mask(state, x),
{
    parity_cell(state, rc, (x + 1) % 5);
    parity_cell(state, rc, (x + 4) % 5);
    assert(cell_value(state, rc, SLOT_D_ROL_BEGIN + x) == rotl(parity(state, (x + 1) % 5), 1));
}

proof fn moved_cell(state: Seq<u64>, rc: u64, lane: int)
    requires
        0 <= lane < 25,
        state.len() == 25,
    ensures
        cell_value(state, rc, B_SLOTS@[lane] as int) == rho_pi(theta(state))[lane],
{
    let (x, y) = moved_from(lane % 5, lane / 5);
    mask_cell(state, rc, x);
    lane_at_is(lane);
    b_slots_ordered(lane, 24);
    let a = state[x + 5 * y];
    let m = theta_mask(state, x);
    assert(a ^ m == m ^ a) by (bit_vector);
    assert((x + 5 * y) % 5 == x);
    assert(theta(state)[x + 5 * y] == a ^ m);
}

proof fn chi_cell(state: Seq<u64>, rc: u64, lane: int)
    requires
        0 <= lane < 25,
        state.len() == 25,
    ensures
        ({
            let b = rho_pi(theta(state));
            cell_value(state, rc, SLOT_CHI_ANDNOT_BEGIN + lane) == !b[(lane % 5 + 1) % 5 + 5 * (lane
                / 5)] & b[(lane % 5 + 2) % 5 + 5 * (lane / 5)]
        }),
{
    let one: int = (lane % 5 + 1) % 5 + 5 * (lane / 5);
    let two: int = (lane % 5 + 2) % 5 + 5 * (lane / 5);
    moved_cell(state, rc, one);
    moved_cell(state, rc, two);
    b_slots_ordered(one, 24);
    b_slots_ordered(two, 24);
}

proof fn output_cell(state: Seq<u64>, rc: u64, lane: int)
    requires
        0 < lane < 25,
    ensures
        cell_value(state, rc, SLOT_CHI_XOR_BEGIN + lane - 1) == cell_value(
            state,
            rc,
            SLOT_CHI_ANDNOT_BEGIN + lane,
        ) ^ cell_value(state, rc, B_SLOTS@[lane] as int),
{
    b_slots_ordered(lane, 24);
    let i: int = SLOT_CHI_XOR_BEGIN + lane - 1;
    assert(lane % 5 + 5 * (lane / 5) == lane);
    assert(slot_spec(i).src_a == Source::Local((SLOT_CHI_ANDNOT_BEGIN + lane) as usize));
    assert(slot_spec(i).src_b == Source::Local(B_SLOTS@[lane]));
}

proof fn first_output_cell(state: Seq<u64>, rc: u64)
    ensures
        cell_value(state, rc, SLOT_IOTA as int) == cell_value(
            state,
            rc,
            SLOT_CHI_ANDNOT_BEGIN as int,
        ) ^ cell_value(state, rc, B_SLOTS@[0] as int) ^ rc,
{
    b_slots_ordered(0, 24);
    assert(cell_value(state, rc, SLOT_CHI00 as int) == cell_value(
        state,
        rc,
        SLOT_CHI_ANDNOT_BEGIN as int,
    ) ^ cell_value(state, rc, B_SLOTS@[0] as int));
    assert(cell_value(state, rc, SLOT_RC as int) == rc);
}

/// Running the program on a state leaves, in the output slots, exactly what one round of
/// Keccak-f makes of that state. The output slots are where the next round reads its input.
pub proof fn program_computes_round(state: Seq<u64>, rc: u64, x: usize, y: usize)
    requires
        state.len() == 25,
        x < 5,
        y < 5,
    ensures
        cell_value(state, rc, slot_lane_prev(x, y) as int) == round(state, rc)[x + 5 * y],
{
    let lane: int = x + 5 * y;
    let b = rho_pi(theta(state));
    let t = cell_value(state, rc, SLOT_CHI_ANDNOT_BEGIN + lane);
    let v = cell_value(state, rc, B_SLOTS@[lane] as int);
    assert(v ^ t == chi(b)[lane]) by {
        chi_cell(state, rc, lane);
        moved_cell(state, rc, lane);
    }
    assert(t ^ v == v ^ t) by (bit_vector);
    if lane == 0 {
        first_output_cell(state, rc);
    } else {
        output_cell(state, rc, lane);
    }
}

} // verus!
