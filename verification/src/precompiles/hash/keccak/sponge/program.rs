//! The sponge's program: the period-32 columns that say what each row of a permutation does.
//!
//! Rows `0..17` absorb a rate lane, rows `17..25` carry a capacity lane over, row `25` adds the
//! closing padding bit to lane 16, and rows `26..29` consume input left over by the last block.

use vstd::prelude::*;

verus! {

pub const SPONGE_PERIOD: usize = 32;
pub const NUM_PERIODIC_COLS: usize = 11;
pub const COL_IDX: usize = 0;
pub const COL_FIRST: usize = 1;
pub const COL_LAST: usize = 2;
pub const COL_RATE_BLOCK: usize = 3;
pub const COL_CAPACITY: usize = 4;
pub const COL_RC_ACTIVE: usize = 5;
pub const COL_SQUEEZE_ACTIVE: usize = 6;
pub const COL_PAD_0X80: usize = 7;
pub const COL_RC_LO: usize = 8;
pub const COL_RC_HI: usize = 9;
pub const COL_EXTRA: usize = 10;
pub const RATE_BLOCK_BEGIN: usize = 0;
pub const RATE_BLOCK_LEN: usize = 17;
pub const CAPACITY_BLOCK_BEGIN: usize = 17;
pub const CAPACITY_BLOCK_LEN: usize = 8;
pub const LANE_16_0X80_SLOT: usize = 25;
pub const EXTRA_BLOCK_BEGIN: usize = 26;
pub const EXTRA_BLOCK_LEN: usize = 3;
pub const NOP_SLACK_BEGIN: usize = 29;
pub const NOP_SLACK_LEN: usize = 3;
/// Round constants that the sponge provides per permutation.
pub const NUM_RC: usize = 24;

/// The Keccak-f\[1600] round constants.
pub const KECCAK_RC: [u64; 24] = [
    0x0000_0000_0000_0001,
    0x0000_0000_0000_8082,
    0x8000_0000_0000_808a,
    0x8000_0000_8000_8000,
    0x0000_0000_0000_808b,
    0x0000_0000_8000_0001,
    0x8000_0000_8000_8081,
    0x8000_0000_0000_8009,
    0x0000_0000_0000_008a,
    0x0000_0000_0000_0088,
    0x0000_0000_8000_8009,
    0x0000_0000_8000_000a,
    0x0000_0000_8000_808b,
    0x8000_0000_0000_008b,
    0x8000_0000_0000_8089,
    0x8000_0000_0000_8003,
    0x8000_0000_0000_8002,
    0x8000_0000_0000_0080,
    0x0000_0000_0000_800a,
    0x8000_0000_8000_000a,
    0x8000_0000_8000_8081,
    0x8000_0000_0000_8080,
    0x0000_0000_8000_0001,
    0x8000_0000_8000_8008,
];

/// One for true, zero for false.
pub open spec fn bit(b: bool) -> u64 {
    if b {
        1
    } else {
        0
    }
}

/// The entry of column `col` on row `slot` of the period.
pub open spec fn sponge_cell(col: int, slot: int) -> u64 {
    if col == COL_IDX {
        slot as u64
    } else if col == COL_FIRST {
        bit(slot == 0)
    } else if col == COL_LAST {
        bit(slot == SPONGE_PERIOD - 1)
    } else if col == COL_RATE_BLOCK {
        bit(slot < CAPACITY_BLOCK_BEGIN)
    } else if col == COL_CAPACITY {
        bit(CAPACITY_BLOCK_BEGIN <= slot < LANE_16_0X80_SLOT)
    } else if col == COL_RC_ACTIVE {
        bit(slot < NUM_RC)
    } else if col == COL_SQUEEZE_ACTIVE {
        bit(4 <= slot < LANE_16_0X80_SLOT)
    } else if col == COL_PAD_0X80 {
        bit(slot == LANE_16_0X80_SLOT)
    } else if col == COL_EXTRA {
        bit(EXTRA_BLOCK_BEGIN <= slot < NOP_SLACK_BEGIN)
    } else if slot >= NUM_RC {
        0
    } else if col == COL_RC_LO {
        KECCAK_RC@[slot] % 0x1_0000_0000
    } else {
        KECCAK_RC@[slot] / 0x1_0000_0000
    }
}

/// One column of the program.
pub open spec fn sponge_column(col: int) -> Seq<u64> {
    Seq::new(SPONGE_PERIOD as nat, |slot: int| sponge_cell(col, slot))
}

fn flag(b: bool) -> (r: u64)
    ensures
        r == bit(b),
{
    if b {
        1
    } else {
        0
    }
}

/// The entry of column `col` on row `slot`.
fn cell(col: usize, slot: usize) -> (r: u64)
    requires
        col < NUM_PERIODIC_COLS,
        slot < SPONGE_PERIOD,
    ensures
        r == sponge_cell(col as int, slot as int),
{
    if col == COL_IDX {
        slot as u64
    } else if col == COL_FIRST {
        flag(slot == 0)
    } else if col == COL_LAST {
        flag(slot == SPONGE_PERIOD - 1)
    } else if col == COL_RATE_BLOCK {
        flag(slot < CAPACITY_BLOCK_BEGIN)
    } else if col == COL_CAPACITY {
        flag(CAPACITY_BLOCK_BEGIN <= slot && slot < LANE_16_0X80_SLOT)
    } else if col == COL_RC_ACTIVE {
        flag(slot < NUM_RC)
    } else if col == COL_SQUEEZE_ACTIVE {
        flag(4 <= slot && slot < LANE_16_0X80_SLOT)
    } else if col == COL_PAD_0X80 {
        flag(slot == LANE_16_0X80_SLOT)
    } else if col == COL_EXTRA {
        flag(EXTRA_BLOCK_BEGIN <= slot && slot < NOP_SLACK_BEGIN)
    } else if slot >= NUM_RC {
        0
    } else if col == COL_RC_LO {
        KECCAK_RC[slot] % 0x1_0000_0000
    } else {
        KECCAK_RC[slot] / 0x1_0000_0000
    }
}

/// The columns of the program, in the order of the `COL_*` constants.
pub fn sponge_program() -> (r: Vec<Vec<u64>>)
    ensures
        r@.len() == NUM_PERIODIC_COLS,
        forall|col: int|
            0 <= col < NUM_PERIODIC_COLS ==> (#[trigger] r@[col])@ == sponge_column(col),
{
    let mut cols: Vec<Vec<u64>> = Vec::new();
    let mut col: usize = 0;
    while col < NUM_PERIODIC_COLS
        invariant
            col <= NUM_PERIODIC_COLS,
            cols@.len() == col,
            forall|c: int| 0 <= c < col ==> (#[trigger] cols@[c])@ == sponge_column(c),
        decreases NUM_PERIODIC_COLS - col,
    {
        let mut values: Vec<u64> = Vec::new();
        let mut slot: usize = 0;
        while slot < SPONGE_PERIOD
            invariant
                col < NUM_PERIODIC_COLS,
                slot <= SPONGE_PERIOD,
                values@ == sponge_column(col as int).take(slot as int),
            decreases SPONGE_PERIOD - slot,
        {
            values.push(cell(col, slot));
            assert(values@ =~= sponge_column(col as int).take(slot + 1));
            slot = slot + 1;
        }
        assert(values@ =~= sponge_column(col as int));
        cols.push(values);
        col = col + 1;
    }
    cols
}

/// Every row of the period is exactly one of: a rate row, a capacity row, the padding row, an
/// extra row, or slack.
pub proof fn row_classes_partition_the_period(slot: int)
    requires
        0 <= slot < SPONGE_PERIOD,
    ensures
        sponge_cell(COL_RATE_BLOCK as int, slot) + sponge_cell(COL_CAPACITY as int, slot)
            + sponge_cell(COL_PAD_0X80 as int, slot) + sponge_cell(COL_EXTRA as int, slot) + bit(
            slot >= NOP_SLACK_BEGIN,
        ) == 1,
{
}

/// The two halves of a round constant column hold the whole constant.
pub proof fn round_constant_halves(slot: int)
    requires
        0 <= slot < NUM_RC,
    ensures
        sponge_cell(COL_RC_LO as int, slot) + 0x1_0000_0000 * sponge_cell(COL_RC_HI as int, slot)
            == KECCAK_RC@[slot],
{
}

} // verus!
