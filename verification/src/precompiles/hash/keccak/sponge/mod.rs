//! The Keccak sponge: one row per state lane, 32 rows per permutation.

pub mod program;

use crate::precompiles::byte_pair_lut::{byte_fractions, require_bytes};
use crate::precompiles::field::{reps, FieldExpr};
use crate::precompiles::hash::memory64::{Memory64Msg, CHUNK_ADDR_BASE};
use crate::precompiles::logup::{
    bool_poly, demands, fractions, hold_demands, interact, require, require_bool, require_hold,
    Constraint, Deg, Fraction, FractionColumn, Interaction, Message, Part, Rows,
};
use crate::precompiles::relations::BusId;
use crate::precompiles::utils::{band, halves_le, packed};
use program::{
    COL_CAPACITY as PCOL_CAPACITY, COL_EXTRA as PCOL_EXTRA, COL_FIRST as PCOL_FIRST,
    COL_IDX as PCOL_IDX, COL_LAST as PCOL_LAST, COL_PAD_0X80 as PCOL_PAD_0X80,
    COL_RATE_BLOCK as PCOL_RATE_BLOCK, COL_RC_ACTIVE as PCOL_RC_ACTIVE, COL_RC_HI as PCOL_RC_HI,
    COL_RC_LO as PCOL_RC_LO, COL_SQUEEZE_ACTIVE as PCOL_SQUEEZE_ACTIVE, NUM_PERIODIC_COLS,
};
use vstd::prelude::*;

verus! {

/// Row counter.
pub const COL_SPONGE_SEQ_ID: usize = 0;
/// Row is in use.
pub const COL_ACT: usize = 1;
/// Bytes left to absorb.
pub const COL_BYTES_LEFT: usize = 2;
/// Row belongs to the first block of its invocation.
pub const COL_IS_FIRST_BLOCK_OF_INVOCATION: usize = 3;
/// Cursor into the input tape.
pub const COL_CHUNK_PTR: usize = 4;
/// Padding lies behind this row.
pub const COL_IS_ZERO: usize = 5;
/// The input tape has a lane for this row.
pub const COL_IS_CHUNK_AVAIL: usize = 6;
/// First of the selectors of the padding byte. One is set on every row of a last block.
pub const COL_B_BEGIN: usize = 7;
/// Halves of the input lane.
pub const COL_CHUNK_LO: usize = 15;
pub const COL_CHUNK_HI: usize = 16;
/// Halves of the lane before this block.
pub const COL_STATE_PREV_LO: usize = 17;
pub const COL_STATE_PREV_HI: usize = 18;
/// Halves of the lane after absorption.
pub const COL_STATE_NEW_LO: usize = 19;
pub const COL_STATE_NEW_HI: usize = 20;
/// Halves of the lane after the permutation.
pub const COL_STATE_OUT_LO: usize = 21;
pub const COL_STATE_OUT_HI: usize = 22;
/// Input lane with the bytes from the padding byte on cleared.
pub const COL_CLEARED_LO: usize = 23;
pub const COL_CLEARED_HI: usize = 24;
/// Cleared lane with the padding byte set.
pub const COL_PADDED_LO: usize = 25;
pub const COL_PADDED_HI: usize = 26;
/// The same values as bytes.
pub const COL_CHUNK_BYTES: usize = 27;
pub const COL_STATE_PREV_BYTES: usize = 35;
pub const COL_STATE_NEW_BYTES: usize = 43;
pub const COL_CLEARED_BYTES: usize = 51;
pub const COL_PADDED_BYTES: usize = 59;
pub const NUM_B_SELECTORS: usize = 8;
pub const NUM_MAIN_COLS: usize = 67;
pub const NUM_AUX_COLS: usize = 24;

/// Low halves of `0xffff_ffff_ffff_ffff << (8 * j)`: the bytes from `j` on.
pub const ANDNOT_MASK_LO: [u32; 8] = [
    0xffff_ffff, 0xffff_ff00, 0xffff_0000, 0xff00_0000, 0, 0, 0, 0,
];
/// High halves of the same.
pub const ANDNOT_MASK_HI: [u32; 8] = [
    0xffff_ffff, 0xffff_ffff, 0xffff_ffff, 0xffff_ffff, 0xffff_ffff, 0xffff_ff00, 0xffff_0000,
    0xff00_0000,
];
/// Low halves of `1 << (8 * j)`: the padding byte at `j`.
pub const PADDING_MASK_LO: [u32; 8] = [
    0x0000_0001, 0x0000_0100, 0x0001_0000, 0x0100_0000, 0, 0, 0, 0,
];
/// High halves of the same.
pub const PADDING_MASK_HI: [u32; 8] = [
    0, 0, 0, 0, 0x0000_0001, 0x0000_0100, 0x0001_0000, 0x0100_0000,
];
pub const PAD_CONST_LO: u32 = 0;
pub const PAD_CONST_HI: u32 = 0x8000_0000;
/// The bytes of the closing padding bit of lane 16.
pub const PAD_CONST_BYTES: [u8; 8] = [0, 0, 0, 0, 0, 0, 0, 0x80];

/// The sponge.
#[derive(Debug, Default, Clone, Copy)]
pub struct KeccakSpongeAir;

/// A hash request: the first row, the input base, and the length in bytes.
#[derive(Debug, Clone)]
pub struct KeccakSpongeMsg<E> {
    pub sponge_seq_id: E,
    pub chunk_ptr: E,
    pub len_bytes: E,
}

impl<E: FieldExpr> KeccakSpongeMsg<E> {
    /// The tuple this message puts on [`BusId::KeccakSponge`].
    pub fn message(self) -> (r: Message<E>)
        ensures
            r.bus == BusId::KeccakSponge,
            r.part == Part::Whole,
            reps(r.elems@) == seq![
                self.sponge_seq_id.rep(),
                self.chunk_ptr.rep(),
                self.len_bytes.rep(),
            ],
    {
        let elems = vec![self.sponge_seq_id, self.chunk_ptr, self.len_bytes];
        assert(
            reps(elems@) =~= seq![
                self.sponge_seq_id.rep(),
                self.chunk_ptr.rep(),
                self.len_bytes.rep(),
            ]
        );
        Message { bus: BusId::KeccakSponge, part: Part::Whole, elems }
    }
}

/// Byte `i` of the 64-bit value with halves `lo` and `hi`.
pub open spec fn byte_of(lo: u32, hi: u32, i: int) -> int {
    let word: u32 = if i < 4 {
        lo
    } else {
        hi
    };
    let k: int = i % 4;
    if k == 0 {
        word as int % 256
    } else if k == 1 {
        word as int / 256 % 256
    } else if k == 2 {
        word as int / 65536 % 256
    } else {
        word as int / 16777216
    }
}

/// Byte `byte_idx` of the 64-bit value with halves `lo` and `hi`.
pub fn mask_byte(lo: u32, hi: u32, byte_idx: usize) -> (r: u8)
    requires
        byte_idx < 8,
    ensures
        r == byte_of(lo, hi, byte_idx as int),
{
    let word: u32 = if byte_idx < 4 {
        lo
    } else {
        hi
    };
    let k: usize = byte_idx % 4;
    if k == 0 {
        (word % 256) as u8
    } else if k == 1 {
        (word / 256 % 256) as u8
    } else if k == 2 {
        (word / 65536 % 256) as u8
    } else {
        (word / 16777216) as u8
    }
}

/// The padding masks, byte by byte: at selector `j` the clearing mask covers the bytes from `j`
/// on, and the setting mask is one at byte `j` alone.
pub proof fn mask_tables(j: int, i: int)
    requires
        0 <= j < 8,
        0 <= i < 8,
    ensures
        byte_of(ANDNOT_MASK_LO@[j], ANDNOT_MASK_HI@[j], i) == (if i >= j { 255int } else { 0int }),
        byte_of(PADDING_MASK_LO@[j], PADDING_MASK_HI@[j], i) == (if i == j { 1int } else { 0int }),
        byte_of(PAD_CONST_LO, PAD_CONST_HI, i) == PAD_CONST_BYTES@[i],
{
}

/// The sum of the first `count` selectors, plain and weighted by position.
pub open spec fn selectors_upto(l: Seq<int>, count: nat) -> (int, int)
    decreases count,
{
    if count == 0 {
        (0, 0)
    } else {
        let (sum, weighted) = selectors_upto(l, (count - 1) as nat);
        let b: int = l[COL_B_BEGIN + count - 1];
        (sum + b, weighted + (count - 1) * b)
    }
}

/// Whether the row is in a last block, and the byte its padding starts at.
pub open spec fn selectors(l: Seq<int>) -> (int, int) {
    selectors_upto(l, NUM_B_SELECTORS as nat)
}

/// Whether the row is in a last block, and the byte its padding starts at.
fn selector_sums<E: FieldExpr>(local: &[E]) -> (r: (E, E))
    requires
        local@.len() == NUM_MAIN_COLS,
    ensures
        (r.0.rep(), r.1.rep()) == selectors(reps(local@)),
{
    let mut sum = E::constant(0);
    let mut weighted = E::constant(0);
    let mut j: usize = 0;
    while j < NUM_B_SELECTORS
        invariant
            j <= NUM_B_SELECTORS,
            local@.len() == NUM_MAIN_COLS,
            (sum.rep(), weighted.rep()) == selectors_upto(reps(local@), j as nat),
        decreases NUM_B_SELECTORS - j,
    {
        let b = &local[COL_B_BEGIN + j];
        sum = sum.plus(b);
        weighted = weighted.plus(&E::constant(j as u64).times(b));
        j = j + 1;
    }
    (sum, weighted)
}

/// Byte `i` of the masks that the first `count` selectors pick.
pub open spec fn mask_upto(l: Seq<int>, lo: Seq<u32>, hi: Seq<u32>, i: int, count: nat) -> int
    decreases count,
{
    if count == 0 {
        0
    } else {
        let j: int = count - 1;
        mask_upto(l, lo, hi, i, (count - 1) as nat) + byte_of(lo[j], hi[j], i) * l[COL_B_BEGIN + j]
    }
}

/// The bytes of the mask that the selectors pick.
pub open spec fn selected_mask(l: Seq<int>, lo: Seq<u32>, hi: Seq<u32>) -> Seq<int> {
    Seq::new(8, |i: int| mask_upto(l, lo, hi, i, NUM_B_SELECTORS as nat))
}

/// The bytes of the mask that the selectors pick.
fn mask_bytes<E: FieldExpr>(local: &[E], lo: &[u32; 8], hi: &[u32; 8]) -> (r: Vec<E>)
    requires
        local@.len() == NUM_MAIN_COLS,
    ensures
        r@.len() == 8,
        reps(r@) == selected_mask(reps(local@), lo@, hi@),
{
    let mut out: Vec<E> = Vec::new();
    let ghost l = reps(local@);
    let mut i: usize = 0;
    while i < 8
        invariant
            i <= 8,
            local@.len() == NUM_MAIN_COLS,
            l == reps(local@),
            out@.len() == i,
            forall|m: int|
                0 <= m < i ==> (#[trigger] out@[m]).rep() == mask_upto(
                    l,
                    lo@,
                    hi@,
                    m,
                    NUM_B_SELECTORS as nat,
                ),
        decreases 8 - i,
    {
        let mut byte = E::constant(0);
        let mut j: usize = 0;
        while j < NUM_B_SELECTORS
            invariant
                i < 8,
                j <= NUM_B_SELECTORS,
                local@.len() == NUM_MAIN_COLS,
                l == reps(local@),
                byte.rep() == mask_upto(l, lo@, hi@, i as int, j as nat),
            decreases NUM_B_SELECTORS - j,
        {
            let weight = E::constant(mask_byte(lo[j], hi[j], i) as u64);
            byte = byte.plus(&weight.times(&local[COL_B_BEGIN + j]));
            j = j + 1;
        }
        out.push(byte);
        i = i + 1;
    }
    assert(reps(out@) =~= selected_mask(l, lo@, hi@));
    out
}

/// The bytes of the closing padding bit.
fn pad_const_bytes<E: FieldExpr>() -> (r: Vec<E>)
    ensures
        r@.len() == 8,
        reps(r@) == seq![0int, 0, 0, 0, 0, 0, 0, 0x80],
{
    let mut out: Vec<E> = Vec::new();
    let mut i: usize = 0;
    while i < 8
        invariant
            i <= 8,
            out@.len() == i,
            forall|m: int| 0 <= m < i ==> (#[trigger] out@[m]).rep() == PAD_CONST_BYTES@[m],
        decreases 8 - i,
    {
        out.push(E::constant(PAD_CONST_BYTES[i] as u64));
        i = i + 1;
    }
    assert(reps(out@) =~= seq![0int, 0, 0, 0, 0, 0, 0, 0x80]);
    out
}

/// Appends that each selector is a bit.
fn require_selector_bits<E: FieldExpr>(out: &mut Vec<Constraint<E>>, local: &[E])
    requires
        local@.len() == NUM_MAIN_COLS,
    ensures
        demands(final(out)@) == demands(old(out)@) + Seq::new(
            NUM_B_SELECTORS as nat,
            |j: int| (Rows::All, bool_poly(reps(local@)[COL_B_BEGIN + j])),
        ),
{
    let ghost start = demands(out@);
    let ghost full = Seq::new(
        NUM_B_SELECTORS as nat,
        |j: int| (Rows::All, bool_poly(reps(local@)[COL_B_BEGIN + j])),
    );
    assert(start + full.take(0) =~= start);
    let mut j: usize = 0;
    while j < NUM_B_SELECTORS
        invariant
            j <= NUM_B_SELECTORS,
            local@.len() == NUM_MAIN_COLS,
            full == Seq::new(
                NUM_B_SELECTORS as nat,
                |j: int| (Rows::All, bool_poly(reps(local@)[COL_B_BEGIN + j])),
            ),
            demands(out@) == start + full.take(j as int),
        decreases NUM_B_SELECTORS - j,
    {
        require_bool(out, &local[COL_B_BEGIN + j]);
        assert((start + full.take(j as int)).push(full[j as int]) =~= start + full.take(j + 1));
        j = j + 1;
    }
    assert(full.take(NUM_B_SELECTORS as int) =~= full);
}

/// After those in `s`: the halves at `half` and `half + 1` agree with the bytes from `bytes` on.
pub open spec fn match_demands(
    s: Seq<(Rows, int)>,
    l: Seq<int>,
    bytes: int,
    half: int,
) -> Seq<(Rows, int)> {
    let b = l.subrange(bytes, bytes + 8);
    s.push((Rows::All, packed(b.subrange(0, 4), 256) - l[half])).push(
        (Rows::All, packed(b.subrange(4, 8), 256) - l[half + 1]),
    )
}

/// Appends that two halves agree with eight bytes.
fn require_bytes_match<E: FieldExpr>(
    out: &mut Vec<Constraint<E>>,
    local: &[E],
    bytes: usize,
    half: usize,
)
    requires
        local@.len() == NUM_MAIN_COLS,
        bytes + 8 <= NUM_MAIN_COLS,
        half + 2 <= NUM_MAIN_COLS,
    ensures
        demands(final(out)@) == match_demands(
            demands(old(out)@),
            reps(local@),
            bytes as int,
            half as int,
        ),
{
    let (lo, hi) = halves_le(band(local, bytes, bytes + 8), 256);
    require(out, Rows::All, lo.minus(&local[half]));
    require(out, Rows::All, hi.minus(&local[half + 1]));
}

/// Fractions in each auxiliary column.
pub fn build_column_shape() -> (r: Vec<usize>)
    ensures
        r@ == Seq::new(
            NUM_AUX_COLS as nat,
            |i: int| if i == 1 { 3usize } else if i == 2 { 1usize } else { 2usize },
        ),
{
    let ghost full = Seq::new(
        NUM_AUX_COLS as nat,
        |i: int| if i == 1 { 3usize } else if i == 2 { 1usize } else { 2usize },
    );
    let mut shape: Vec<usize> = Vec::new();
    let mut i: usize = 0;
    while i < NUM_AUX_COLS
        invariant
            i <= NUM_AUX_COLS,
            full == Seq::new(
                NUM_AUX_COLS as nat,
                |i: int| if i == 1 { 3usize } else if i == 2 { 1usize } else { 2usize },
            ),
            shape@ == full.take(i as int),
        decreases NUM_AUX_COLS - i,
    {
        shape.push(if i == 1 { 3 } else if i == 2 { 1 } else { 2 });
        assert(shape@ =~= full.take(i + 1));
        i = i + 1;
    }
    assert(shape@ =~= full);
    shape
}

/// The sponge's constraints: activity ends only after a last block, rows and input cursors count
/// up, a block pads once and at the right byte, capacity and spent rate lanes keep their state, and every
/// value agrees with its bytes.
pub open spec fn sponge_demands(l: Seq<int>, n: Seq<int>, p: Seq<int>) -> Seq<(Rows, int)> {
    let s = Seq::<(Rows, int)>::empty();
    let p_first: int = p[PCOL_FIRST as int];
    let p_last: int = p[PCOL_LAST as int];
    let p_rate_block: int = p[PCOL_RATE_BLOCK as int];
    let p_capacity: int = p[PCOL_CAPACITY as int];
    let p_extra: int = p[PCOL_EXTRA as int];
    let p_state_lane: int = p_rate_block + p_capacity;
    let act: int = l[COL_ACT as int];
    let act_next: int = n[COL_ACT as int];
    let sponge_seq_id: int = l[COL_SPONGE_SEQ_ID as int];
    let sponge_seq_id_next: int = n[COL_SPONGE_SEQ_ID as int];
    let bytes_left: int = l[COL_BYTES_LEFT as int];
    let bytes_left_next: int = n[COL_BYTES_LEFT as int];
    let chunk_ptr: int = l[COL_CHUNK_PTR as int];
    let chunk_ptr_next: int = n[COL_CHUNK_PTR as int];
    let is_first_block: int = l[COL_IS_FIRST_BLOCK_OF_INVOCATION as int];
    let is_first_block_next: int = n[COL_IS_FIRST_BLOCK_OF_INVOCATION as int];
    let is_zero: int = l[COL_IS_ZERO as int];
    let is_zero_next: int = n[COL_IS_ZERO as int];
    let is_chunk_avail: int = l[COL_IS_CHUNK_AVAIL as int];
    let is_chunk_avail_next: int = n[COL_IS_CHUNK_AVAIL as int];
    let state_prev_lo: int = l[COL_STATE_PREV_LO as int];
    let state_prev_hi: int = l[COL_STATE_PREV_HI as int];
    let state_new_lo: int = l[COL_STATE_NEW_LO as int];
    let state_new_hi: int = l[COL_STATE_NEW_HI as int];
    let (b_sum, b_weighted) = selectors(l);
    let s = s.push((Rows::First, sponge_seq_id));
    let s = s.push((Rows::All, bool_poly(act)));
    let s = s.push((Rows::AllButLast, (1 - act) * act_next));
    let s = s.push((Rows::AllButLast, (act - act_next) * (1 - p_last * b_sum)));
    let s = s.push((Rows::AllButLast, sponge_seq_id_next - sponge_seq_id - 1));
    let s = s.push((Rows::All, bool_poly(is_first_block)));
    let s = s.push((Rows::All, (1 - p_last) * (is_first_block_next - is_first_block)));
    let s = s.push((Rows::All, act * p_rate_block * (bytes_left_next - bytes_left + 8)));
    let enters_new_invocation: int = p_last * is_first_block_next;
    let s = s.push(
        (
            Rows::All,
            act * (1 - enters_new_invocation) * (1 - p_rate_block) * (bytes_left_next - bytes_left),
        )
    );
    let s = s.push(
        (
            Rows::AllButLast,
            (1 - enters_new_invocation) * (
                chunk_ptr_next - chunk_ptr - (p_rate_block + p_extra * b_sum) * is_chunk_avail
            ),
        )
    );
    let s = s.push((Rows::All, (1 - is_chunk_avail) * l[COL_CHUNK_LO as int]));
    let s = s.push((Rows::All, (1 - is_chunk_avail) * l[COL_CHUNK_HI as int]));
    let s = s.push((Rows::All, bool_poly(is_zero)));
    let s = s.push((Rows::All, bool_poly(is_chunk_avail)));
    let s = s + Seq::new(
        NUM_B_SELECTORS as nat,
        |j: int| (Rows::All, bool_poly(l[COL_B_BEGIN + j])),
    );
    let s = s.push((Rows::All, (1 - p_last) * is_zero * (1 - is_zero_next)));
    let s = s.push((Rows::All, (1 - p_last) * (1 - is_chunk_avail) * is_chunk_avail_next));
    let s = s.push((Rows::All, p_first * is_zero));
    let inside: int = 1 - p_last;
    let s = s + hold_demands(
        Rows::All,
        inside,
        l,
        n,
        COL_B_BEGIN as int,
        COL_B_BEGIN + NUM_B_SELECTORS,
    );
    let s = s.push((Rows::All, (1 - p_rate_block) * (b_sum - is_zero)));
    let s = s.push((Rows::All, act * p_last * is_first_block_next * (1 - is_zero)));
    let s = s.push(
        (Rows::All, p_rate_block * (is_zero_next - is_zero) * (b_weighted - bytes_left))
    );
    let s = s.push((Rows::All, p_state_lane * is_first_block * state_prev_lo));
    let s = s.push((Rows::All, p_state_lane * is_first_block * state_prev_hi));
    let s = s.push((Rows::All, p_rate_block * is_zero * (state_new_lo - state_prev_lo)));
    let s = s.push((Rows::All, p_rate_block * is_zero * (state_new_hi - state_prev_hi)));
    let s = s.push((Rows::All, p_capacity * (state_new_lo - state_prev_lo)));
    let s = s.push((Rows::All, p_capacity * (state_new_hi - state_prev_hi)));
    let s = match_demands(s, l, COL_CHUNK_BYTES as int, COL_CHUNK_LO as int);
    let s = match_demands(s, l, COL_STATE_PREV_BYTES as int, COL_STATE_PREV_LO as int);
    let s = match_demands(s, l, COL_STATE_NEW_BYTES as int, COL_STATE_NEW_LO as int);
    let s = match_demands(s, l, COL_CLEARED_BYTES as int, COL_CLEARED_LO as int);
    let s = match_demands(s, l, COL_PADDED_BYTES as int, COL_PADDED_LO as int);
    s
}

/// The constraints on a row and its successor.
#[verifier::spinoff_prover]
#[verifier::rlimit(60)]
pub fn eval_main<E: FieldExpr>(local: &[E], next: &[E], periodic: &[E]) -> (r: Vec<Constraint<E>>)
    requires
        local@.len() == NUM_MAIN_COLS,
        next@.len() == NUM_MAIN_COLS,
        periodic@.len() == NUM_PERIODIC_COLS,
    ensures
        demands(r@) == sponge_demands(reps(local@), reps(next@), reps(periodic@)),
{
    let mut out: Vec<Constraint<E>> = Vec::new();
    assert(demands(out@) =~= Seq::<(Rows, int)>::empty());
    let p_first = &periodic[PCOL_FIRST];
    let p_last = &periodic[PCOL_LAST];
    let p_rate_block = &periodic[PCOL_RATE_BLOCK];
    let p_capacity = &periodic[PCOL_CAPACITY];
    let p_extra = &periodic[PCOL_EXTRA];
    let p_state_lane = p_rate_block.plus(p_capacity);
    let act = &local[COL_ACT];
    let act_next = &next[COL_ACT];
    let sponge_seq_id = &local[COL_SPONGE_SEQ_ID];
    let sponge_seq_id_next = &next[COL_SPONGE_SEQ_ID];
    let bytes_left = &local[COL_BYTES_LEFT];
    let bytes_left_next = &next[COL_BYTES_LEFT];
    let chunk_ptr = &local[COL_CHUNK_PTR];
    let chunk_ptr_next = &next[COL_CHUNK_PTR];
    let is_first_block = &local[COL_IS_FIRST_BLOCK_OF_INVOCATION];
    let is_first_block_next = &next[COL_IS_FIRST_BLOCK_OF_INVOCATION];
    let is_zero = &local[COL_IS_ZERO];
    let is_zero_next = &next[COL_IS_ZERO];
    let is_chunk_avail = &local[COL_IS_CHUNK_AVAIL];
    let is_chunk_avail_next = &next[COL_IS_CHUNK_AVAIL];
    let state_prev_lo = &local[COL_STATE_PREV_LO];
    let state_prev_hi = &local[COL_STATE_PREV_HI];
    let state_new_lo = &local[COL_STATE_NEW_LO];
    let state_new_hi = &local[COL_STATE_NEW_HI];
    let (b_sum, b_weighted) = selector_sums(local);
    require(&mut out, Rows::First, sponge_seq_id.dup());
    require_bool(&mut out, act);
    require(&mut out, Rows::AllButLast, E::constant(1).minus(act).times(act_next));
    require(
        &mut out,
        Rows::AllButLast,
        act.minus(act_next).times(&E::constant(1).minus(&p_last.times(&b_sum))),
    );
    require(
        &mut out,
        Rows::AllButLast,
        sponge_seq_id_next.minus(sponge_seq_id).minus(&E::constant(1)),
    );
    require_bool(&mut out, is_first_block);
    require(
        &mut out,
        Rows::All,
        E::constant(1).minus(p_last).times(&is_first_block_next.minus(is_first_block)),
    );
    require(
        &mut out,
        Rows::All,
        act.times(p_rate_block).times(&bytes_left_next.minus(bytes_left).plus(&E::constant(8))),
    );
    let enters_new_invocation = p_last.times(is_first_block_next);
    require(
        &mut out,
        Rows::All,
        act.times(
            &E::constant(1).minus(&enters_new_invocation),
        ).times(&E::constant(1).minus(p_rate_block)).times(&bytes_left_next.minus(bytes_left)),
    );
    require(
        &mut out,
        Rows::AllButLast,
        E::constant(1).minus(&enters_new_invocation).times(
            &chunk_ptr_next.minus(chunk_ptr).minus(
                &p_rate_block.plus(&p_extra.times(&b_sum)).times(is_chunk_avail),
            ),
        ),
    );
    require(&mut out, Rows::All, E::constant(1).minus(is_chunk_avail).times(&local[COL_CHUNK_LO]));
    require(&mut out, Rows::All, E::constant(1).minus(is_chunk_avail).times(&local[COL_CHUNK_HI]));
    require_bool(&mut out, is_zero);
    require_bool(&mut out, is_chunk_avail);
    require_selector_bits(&mut out, local);
    require(
        &mut out,
        Rows::All,
        E::constant(1).minus(p_last).times(is_zero).times(&E::constant(1).minus(is_zero_next)),
    );
    require(
        &mut out,
        Rows::All,
        E::constant(1).minus(p_last).times(
            &E::constant(1).minus(is_chunk_avail),
        ).times(is_chunk_avail_next),
    );
    require(&mut out, Rows::All, p_first.times(is_zero));
    let inside = E::constant(1).minus(p_last);
    require_hold(
        &mut out,
        Rows::All,
        &inside,
        local,
        next,
        COL_B_BEGIN,
        COL_B_BEGIN + NUM_B_SELECTORS,
    );
    require(&mut out, Rows::All, E::constant(1).minus(p_rate_block).times(&b_sum.minus(is_zero)));
    require(
        &mut out,
        Rows::All,
        act.times(p_last).times(is_first_block_next).times(&E::constant(1).minus(is_zero)),
    );
    require(
        &mut out,
        Rows::All,
        p_rate_block.times(&is_zero_next.minus(is_zero)).times(&b_weighted.minus(bytes_left)),
    );
    require(&mut out, Rows::All, p_state_lane.times(is_first_block).times(state_prev_lo));
    require(&mut out, Rows::All, p_state_lane.times(is_first_block).times(state_prev_hi));
    require(
        &mut out,
        Rows::All,
        p_rate_block.times(is_zero).times(&state_new_lo.minus(state_prev_lo)),
    );
    require(
        &mut out,
        Rows::All,
        p_rate_block.times(is_zero).times(&state_new_hi.minus(state_prev_hi)),
    );
    require(&mut out, Rows::All, p_capacity.times(&state_new_lo.minus(state_prev_lo)));
    require(&mut out, Rows::All, p_capacity.times(&state_new_hi.minus(state_prev_hi)));
    require_bytes_match(&mut out, local, COL_CHUNK_BYTES, COL_CHUNK_LO);
    require_bytes_match(&mut out, local, COL_STATE_PREV_BYTES, COL_STATE_PREV_LO);
    require_bytes_match(&mut out, local, COL_STATE_NEW_BYTES, COL_STATE_NEW_LO);
    require_bytes_match(&mut out, local, COL_CLEARED_BYTES, COL_CLEARED_LO);
    require_bytes_match(&mut out, local, COL_PADDED_BYTES, COL_PADDED_LO);
    out
}

/// The sponge's traffic: it writes each new state lane and round constant, takes back the lanes
/// of the permutation before and the spent output lanes, has padding and absorption checked byte by
/// byte, and takes its request and its input.
pub open spec fn sponge_fractions(l: Seq<int>, n: Seq<int>, p: Seq<int>) -> Seq<Fraction> {
    let s = Seq::<Fraction>::empty();
    let p_first: int = p[PCOL_FIRST as int];
    let p_rate_block: int = p[PCOL_RATE_BLOCK as int];
    let p_capacity: int = p[PCOL_CAPACITY as int];
    let p_rc_active: int = p[PCOL_RC_ACTIVE as int];
    let p_squeeze_active: int = p[PCOL_SQUEEZE_ACTIVE as int];
    let p_pad_0x80: int = p[PCOL_PAD_0X80 as int];
    let p_extra: int = p[PCOL_EXTRA as int];
    let p_idx: int = p[PCOL_IDX as int];
    let rc_lo: int = p[PCOL_RC_LO as int];
    let rc_hi: int = p[PCOL_RC_HI as int];
    let p_state_lane: int = p_rate_block + p_capacity;
    let act: int = l[COL_ACT as int];
    let sponge_seq_id: int = l[COL_SPONGE_SEQ_ID as int];
    let chunk_ptr: int = l[COL_CHUNK_PTR as int];
    let bytes_left: int = l[COL_BYTES_LEFT as int];
    let is_chunk_avail: int = l[COL_IS_CHUNK_AVAIL as int];
    let is_zero: int = l[COL_IS_ZERO as int];
    let chunk_lo: int = l[COL_CHUNK_LO as int];
    let chunk_hi: int = l[COL_CHUNK_HI as int];
    let state_prev_lo: int = l[COL_STATE_PREV_LO as int];
    let state_prev_hi: int = l[COL_STATE_PREV_HI as int];
    let state_new_lo: int = l[COL_STATE_NEW_LO as int];
    let state_new_hi: int = l[COL_STATE_NEW_HI as int];
    let state_out_lo: int = l[COL_STATE_OUT_LO as int];
    let state_out_hi: int = l[COL_STATE_OUT_HI as int];
    let is_first_block: int = l[COL_IS_FIRST_BLOCK_OF_INVOCATION as int];
    let is_zero_next: int = n[COL_IS_ZERO as int];
    let cleared_bytes = l.subrange(COL_CLEARED_BYTES as int, COL_CLEARED_BYTES + 8);
    let padded_bytes = l.subrange(COL_PADDED_BYTES as int, COL_PADDED_BYTES + 8);
    let chunk_bytes = l.subrange(COL_CHUNK_BYTES as int, COL_CHUNK_BYTES + 8);
    let state_prev_bytes = l.subrange(COL_STATE_PREV_BYTES as int, COL_STATE_PREV_BYTES + 8);
    let state_new_bytes = l.subrange(COL_STATE_NEW_BYTES as int, COL_STATE_NEW_BYTES + 8);
    let b_sum: int = selectors(l).0;
    let andnot_mask = selected_mask(l, ANDNOT_MASK_LO@, ANDNOT_MASK_HI@);
    let padding_mask = selected_mask(l, PADDING_MASK_LO@, PADDING_MASK_HI@);
    let pad_const = seq![0, 0, 0, 0, 0, 0, 0, 0x80];
    let hundred_seq: int = 100 * sponge_seq_id;
    let ninety_nine_idx: int = 99 * p_idx;
    let addr_state_lane_prev: int = hundred_seq - ninety_nine_idx - 128;
    let addr_state_lane_new: int = hundred_seq - ninety_nine_idx;
    let addr_rc: int = hundred_seq + 28 * p_idx + 25;
    let addr_squeeze: int = hundred_seq - ninety_nine_idx + 3072;
    let addr_lane16: int = hundred_seq - 2484;
    let addr_chunk: int = CHUNK_ADDR_BASE + chunk_ptr;
    let twice_act: int = 2 * act;
    let column = FractionColumn { index: 0, group: "memory64", deg: Deg { v: 4, u: 2 } };
    let s = s.push(
        Fraction {
            column,
            label: "new-state",
            mult: p_state_lane * (0 - twice_act),
            bus: BusId::Memory64,
            part: Part::Whole,
            elems: seq![addr_state_lane_new, state_new_lo, state_new_hi],
            deg: Deg { v: 1, u: 1 },
        }
    );
    let s = s.push(
        Fraction {
            column,
            label: "prev-perm",
            mult: p_state_lane * (twice_act * (1 - is_first_block)),
            bus: BusId::Memory64,
            part: Part::Whole,
            elems: seq![addr_state_lane_prev, state_prev_lo, state_prev_hi],
            deg: Deg { v: 1, u: 1 },
        }
    );
    let column = FractionColumn { index: 1, group: "memory64", deg: Deg { v: 5, u: 3 } };
    let s = s.push(
        Fraction {
            column,
            label: "rc",
            mult: p_state_lane * (0 - act * p_rc_active),
            bus: BusId::Memory64,
            part: Part::Whole,
            elems: seq![addr_rc, rc_lo, rc_hi],
            deg: Deg { v: 1, u: 1 },
        }
    );
    let s = s.push(
        Fraction {
            column,
            label: "lane16-consume",
            mult: p_pad_0x80 * (twice_act * b_sum),
            bus: BusId::Memory64,
            part: Part::Whole,
            elems: seq![addr_lane16, state_prev_lo, state_prev_hi],
            deg: Deg { v: 1, u: 1 },
        }
    );
    let s = s.push(
        Fraction {
            column,
            label: "lane16-provide",
            mult: p_pad_0x80 * (0 - twice_act * b_sum),
            bus: BusId::Memory64,
            part: Part::Whole,
            elems: seq![addr_lane16, state_new_lo, state_new_hi],
            deg: Deg { v: 1, u: 1 },
        }
    );
    let column = FractionColumn { index: 2, group: "memory64", deg: Deg { v: 4, u: 1 } };
    let s = s.push(
        Fraction {
            column,
            label: "squeeze",
            mult: p_state_lane * (twice_act * p_squeeze_active * b_sum),
            bus: BusId::Memory64,
            part: Part::Whole,
            elems: seq![addr_squeeze, state_out_lo, state_out_hi],
            deg: Deg { v: 1, u: 1 },
        }
    );
    let pad_mult: int = p_rate_block * (is_zero_next - is_zero) * act;
    let verbatim_mult: int = p_rate_block * (1 - is_zero_next) * act;
    let lane16_mult: int = p_pad_0x80 * b_sum * act;
    let andnot_tag: int = 0;
    let xor_tag: int = 1;
    let s = s + byte_fractions(
        FractionColumn { index: 3, group: "byte-pair-lut", deg: Deg { v: 4, u: 2 } },
        "andnot",
        pad_mult,
        andnot_tag,
        andnot_mask,
        chunk_bytes,
        cleared_bytes,
    );
    let s = s + byte_fractions(
        FractionColumn { index: 7, group: "byte-pair-lut", deg: Deg { v: 4, u: 2 } },
        "xor-padding",
        pad_mult,
        xor_tag,
        cleared_bytes,
        padding_mask,
        padded_bytes,
    );
    let s = s + byte_fractions(
        FractionColumn { index: 11, group: "byte-pair-lut", deg: Deg { v: 4, u: 2 } },
        "xor-state",
        pad_mult,
        xor_tag,
        state_prev_bytes,
        padded_bytes,
        state_new_bytes,
    );
    let s = s + byte_fractions(
        FractionColumn { index: 15, group: "byte-pair-lut", deg: Deg { v: 4, u: 2 } },
        "xor-state-verbatim",
        verbatim_mult,
        xor_tag,
        state_prev_bytes,
        chunk_bytes,
        state_new_bytes,
    );
    let s = s + byte_fractions(
        FractionColumn { index: 19, group: "byte-pair-lut", deg: Deg { v: 4, u: 2 } },
        "xor-lane16",
        lane16_mult,
        xor_tag,
        state_prev_bytes,
        pad_const,
        state_new_bytes,
    );
    let column = FractionColumn { index: 23, group: "ks-and-chunk", deg: Deg { v: 5, u: 2 } };
    let s = s.push(
        Fraction {
            column,
            label: "ks-request",
            mult: act * (p_first * is_first_block),
            bus: BusId::KeccakSponge,
            part: Part::Whole,
            elems: seq![sponge_seq_id, chunk_ptr, bytes_left],
            deg: Deg { v: 1, u: 1 },
        }
    );
    let s = s.push(
        Fraction {
            column,
            label: "chunk-consume",
            mult: act * (p_rate_block + p_extra * b_sum) * is_chunk_avail,
            bus: BusId::Memory64,
            part: Part::Whole,
            elems: seq![addr_chunk, chunk_lo, chunk_hi],
            deg: Deg { v: 1, u: 1 },
        }
    );
    s
}

/// The fractions of a row and its successor.
#[verifier::spinoff_prover]
#[verifier::rlimit(80)]
pub fn eval_lookups<E: FieldExpr>(local: &[E], next: &[E], periodic: &[E]) -> (r: Vec<Interaction<E>>)
    requires
        local@.len() == NUM_MAIN_COLS,
        next@.len() == NUM_MAIN_COLS,
        periodic@.len() == NUM_PERIODIC_COLS,
    ensures
        fractions(r@) == sponge_fractions(reps(local@), reps(next@), reps(periodic@)),
{
    let mut out: Vec<Interaction<E>> = Vec::new();
    assert(fractions(out@) =~= Seq::<Fraction>::empty());
    let p_first = &periodic[PCOL_FIRST];
    let p_rate_block = &periodic[PCOL_RATE_BLOCK];
    let p_capacity = &periodic[PCOL_CAPACITY];
    let p_rc_active = &periodic[PCOL_RC_ACTIVE];
    let p_squeeze_active = &periodic[PCOL_SQUEEZE_ACTIVE];
    let p_pad_0x80 = &periodic[PCOL_PAD_0X80];
    let p_extra = &periodic[PCOL_EXTRA];
    let p_idx = &periodic[PCOL_IDX];
    let rc_lo = &periodic[PCOL_RC_LO];
    let rc_hi = &periodic[PCOL_RC_HI];
    let p_state_lane = p_rate_block.plus(p_capacity);
    let act = &local[COL_ACT];
    let sponge_seq_id = &local[COL_SPONGE_SEQ_ID];
    let chunk_ptr = &local[COL_CHUNK_PTR];
    let bytes_left = &local[COL_BYTES_LEFT];
    let is_chunk_avail = &local[COL_IS_CHUNK_AVAIL];
    let is_zero = &local[COL_IS_ZERO];
    let chunk_lo = &local[COL_CHUNK_LO];
    let chunk_hi = &local[COL_CHUNK_HI];
    let state_prev_lo = &local[COL_STATE_PREV_LO];
    let state_prev_hi = &local[COL_STATE_PREV_HI];
    let state_new_lo = &local[COL_STATE_NEW_LO];
    let state_new_hi = &local[COL_STATE_NEW_HI];
    let state_out_lo = &local[COL_STATE_OUT_LO];
    let state_out_hi = &local[COL_STATE_OUT_HI];
    let is_first_block = &local[COL_IS_FIRST_BLOCK_OF_INVOCATION];
    let is_zero_next = &next[COL_IS_ZERO];
    let cleared_bytes = band(local, COL_CLEARED_BYTES, COL_CLEARED_BYTES + 8);
    let padded_bytes = band(local, COL_PADDED_BYTES, COL_PADDED_BYTES + 8);
    let chunk_bytes = band(local, COL_CHUNK_BYTES, COL_CHUNK_BYTES + 8);
    let state_prev_bytes = band(local, COL_STATE_PREV_BYTES, COL_STATE_PREV_BYTES + 8);
    let state_new_bytes = band(local, COL_STATE_NEW_BYTES, COL_STATE_NEW_BYTES + 8);
    let (b_sum, _) = selector_sums(local);
    let andnot_mask = mask_bytes(local, &ANDNOT_MASK_LO, &ANDNOT_MASK_HI);
    let padding_mask = mask_bytes(local, &PADDING_MASK_LO, &PADDING_MASK_HI);
    let pad_const = pad_const_bytes::<E>();
    let hundred_seq = E::constant(100).times(sponge_seq_id);
    let ninety_nine_idx = E::constant(99).times(p_idx);
    let addr_state_lane_prev = hundred_seq.minus(&ninety_nine_idx).minus(&E::constant(128));
    let addr_state_lane_new = hundred_seq.minus(&ninety_nine_idx);
    let addr_rc = hundred_seq.plus(&E::constant(28).times(p_idx)).plus(&E::constant(25));
    let addr_squeeze = hundred_seq.minus(&ninety_nine_idx).plus(&E::constant(3072));
    let addr_lane16 = hundred_seq.minus(&E::constant(2484));
    let addr_chunk = E::constant(CHUNK_ADDR_BASE).plus(chunk_ptr);
    let twice_act = E::constant(2).times(act);
    let column = FractionColumn { index: 0, group: "memory64", deg: Deg { v: 4, u: 2 } };
    interact(
        &mut out,
        column,
        "new-state",
        p_state_lane.times(&E::constant(0).minus(&twice_act)),
        Memory64Msg {
            addr: addr_state_lane_new.dup(),
            lo: state_new_lo.dup(),
            hi: state_new_hi.dup(),
        }.message(),
        Deg { v: 1, u: 1 },
    );
    interact(
        &mut out,
        column,
        "prev-perm",
        p_state_lane.times(&twice_act.times(&E::constant(1).minus(is_first_block))),
        Memory64Msg {
            addr: addr_state_lane_prev.dup(),
            lo: state_prev_lo.dup(),
            hi: state_prev_hi.dup(),
        }.message(),
        Deg { v: 1, u: 1 },
    );
    let column = FractionColumn { index: 1, group: "memory64", deg: Deg { v: 5, u: 3 } };
    interact(
        &mut out,
        column,
        "rc",
        p_state_lane.times(&E::constant(0).minus(&act.times(p_rc_active))),
        Memory64Msg { addr: addr_rc.dup(), lo: rc_lo.dup(), hi: rc_hi.dup() }.message(),
        Deg { v: 1, u: 1 },
    );
    interact(
        &mut out,
        column,
        "lane16-consume",
        p_pad_0x80.times(&twice_act.times(&b_sum)),
        Memory64Msg {
            addr: addr_lane16.dup(),
            lo: state_prev_lo.dup(),
            hi: state_prev_hi.dup(),
        }.message(),
        Deg { v: 1, u: 1 },
    );
    interact(
        &mut out,
        column,
        "lane16-provide",
        p_pad_0x80.times(&E::constant(0).minus(&twice_act.times(&b_sum))),
        Memory64Msg {
            addr: addr_lane16.dup(),
            lo: state_new_lo.dup(),
            hi: state_new_hi.dup(),
        }.message(),
        Deg { v: 1, u: 1 },
    );
    let column = FractionColumn { index: 2, group: "memory64", deg: Deg { v: 4, u: 1 } };
    interact(
        &mut out,
        column,
        "squeeze",
        p_state_lane.times(&twice_act.times(p_squeeze_active).times(&b_sum)),
        Memory64Msg {
            addr: addr_squeeze.dup(),
            lo: state_out_lo.dup(),
            hi: state_out_hi.dup(),
        }.message(),
        Deg { v: 1, u: 1 },
    );
    let pad_mult = p_rate_block.times(&is_zero_next.minus(is_zero)).times(act);
    let verbatim_mult = p_rate_block.times(&E::constant(1).minus(is_zero_next)).times(act);
    let lane16_mult = p_pad_0x80.times(&b_sum).times(act);
    let andnot_tag = E::constant(0);
    let xor_tag = E::constant(1);
    require_bytes(
        &mut out,
        FractionColumn { index: 3, group: "byte-pair-lut", deg: Deg { v: 4, u: 2 } },
        "andnot",
        &pad_mult,
        &andnot_tag,
        &andnot_mask,
        chunk_bytes,
        cleared_bytes,
    );
    require_bytes(
        &mut out,
        FractionColumn { index: 7, group: "byte-pair-lut", deg: Deg { v: 4, u: 2 } },
        "xor-padding",
        &pad_mult,
        &xor_tag,
        cleared_bytes,
        &padding_mask,
        padded_bytes,
    );
    require_bytes(
        &mut out,
        FractionColumn { index: 11, group: "byte-pair-lut", deg: Deg { v: 4, u: 2 } },
        "xor-state",
        &pad_mult,
        &xor_tag,
        state_prev_bytes,
        padded_bytes,
        state_new_bytes,
    );
    require_bytes(
        &mut out,
        FractionColumn { index: 15, group: "byte-pair-lut", deg: Deg { v: 4, u: 2 } },
        "xor-state-verbatim",
        &verbatim_mult,
        &xor_tag,
        state_prev_bytes,
        chunk_bytes,
        state_new_bytes,
    );
    require_bytes(
        &mut out,
        FractionColumn { index: 19, group: "byte-pair-lut", deg: Deg { v: 4, u: 2 } },
        "xor-lane16",
        &lane16_mult,
        &xor_tag,
        state_prev_bytes,
        &pad_const,
        state_new_bytes,
    );
    let column = FractionColumn { index: 23, group: "ks-and-chunk", deg: Deg { v: 5, u: 2 } };
    interact(
        &mut out,
        column,
        "ks-request",
        act.times(&p_first.times(is_first_block)),
        KeccakSpongeMsg {
            sponge_seq_id: sponge_seq_id.dup(),
            chunk_ptr: chunk_ptr.dup(),
            len_bytes: bytes_left.dup(),
        }.message(),
        Deg { v: 1, u: 1 },
    );
    interact(
        &mut out,
        column,
        "chunk-consume",
        act.times(&p_rate_block.plus(&p_extra.times(&b_sum))).times(is_chunk_avail),
        Memory64Msg { addr: addr_chunk.dup(), lo: chunk_lo.dup(), hi: chunk_hi.dup() }.message(),
        Deg { v: 1, u: 1 },
    );
    out
}

} // verus!
