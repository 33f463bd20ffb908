use std::collections::HashSet;

use miden_foundation::precompiles::hash::keccak::round::program::{
    round_program, slot_b, slot_table, Op, ROUND_PERIOD, SLOT_APPLY_RPI_BEGIN,
    SLOT_CHI_ANDNOT_BEGIN,
};
use miden_foundation::precompiles::hash::keccak::sponge::program::{
    sponge_program, COL_CAPACITY, COL_EXTRA, COL_FIRST, COL_IDX, COL_LAST, COL_PAD_0X80,
    COL_RATE_BLOCK, COL_RC_ACTIVE, COL_RC_HI, COL_RC_LO, COL_SQUEEZE_ACTIVE, EXTRA_BLOCK_BEGIN,
    KECCAK_RC, LANE_16_0X80_SLOT, NOP_SLACK_BEGIN, NUM_RC, SPONGE_PERIOD,
};

#[test]
fn op_counts_match_design() {
    let table = slot_table();
    let mut nop = 0;
    let mut xor = 0;
    let mut andnot = 0;
    let mut rol = 0;
    let mut xorrol = 0;
    for spec in &table {
        match spec.op {
            Op::Nop => nop += 1,
            Op::Xor => xor += 1,
            Op::Andnot => andnot += 1,
            Op::Rol(_) => rol += 1,
            Op::XorRol(_) => xorrol += 1,
        }
    }
    assert_eq!(nop, 22, "nop");
    assert_eq!(xor, 52, "xor");
    assert_eq!(andnot, 25, "andnot");
    assert_eq!(rol, 5, "rol");
    assert_eq!(xorrol, 24, "xorrol");
    assert_eq!(nop + xor + andnot + rol + xorrol, ROUND_PERIOD);
}

#[test]
fn b_slot_table_unique_and_in_range() {
    let mut seen = HashSet::new();
    for x in 0..5 {
        for y in 0..5 {
            let slot = slot_b(x, y);
            assert!(
                (SLOT_APPLY_RPI_BEGIN..SLOT_CHI_ANDNOT_BEGIN).contains(&slot),
                "B[{x}][{y}] at slot {slot} outside its block",
            );
            assert!(seen.insert(slot), "B slot {slot} reused");
        }
    }
}

#[test]
fn round_program_lengths() {
    let cols = round_program();
    for (i, col) in cols.iter().enumerate() {
        assert_eq!(col.len(), ROUND_PERIOD, "col {i} length");
    }
}

#[test]
fn periodic_columns_have_expected_lengths() {
    let cols = sponge_program();
    for col in &cols {
        assert_eq!(col.len(), SPONGE_PERIOD);
    }
}

#[test]
fn p_idx_enumerates_0_to_period() {
    let cols = sponge_program();
    for (slot, value) in cols[COL_IDX].iter().enumerate().take(SPONGE_PERIOD) {
        assert_eq!(*value, slot as u64);
    }
}

#[test]
fn row_class_flags_partition_the_period() {
    let cols = sponge_program();
    for slot in 0..SPONGE_PERIOD {
        let rb = cols[COL_RATE_BLOCK][slot];
        let cap = cols[COL_CAPACITY][slot];
        let pad80 = cols[COL_PAD_0X80][slot];
        let extra = cols[COL_EXTRA][slot];
        let nop_slack = (slot >= NOP_SLACK_BEGIN) as u64;
        assert_eq!(rb + cap + pad80 + extra + nop_slack, 1, "slot {slot} not covered exactly once");
    }
}

#[test]
fn p_extra_fires_on_slots_26_through_28() {
    let cols = sponge_program();
    for (slot, value) in cols[COL_EXTRA].iter().enumerate().take(SPONGE_PERIOD) {
        let expected = u64::from((EXTRA_BLOCK_BEGIN..NOP_SLACK_BEGIN).contains(&slot));
        assert_eq!(*value, expected, "slot {slot}");
    }
}

#[test]
fn p_first_fires_only_at_slot_0() {
    let cols = sponge_program();
    assert_eq!(cols[COL_FIRST][0], 1);
    for (slot, value) in cols[COL_FIRST].iter().enumerate().take(SPONGE_PERIOD).skip(1) {
        assert_eq!(*value, 0, "slot {slot}");
    }
}

#[test]
fn p_last_fires_only_at_last_slot() {
    let cols = sponge_program();
    for (slot, value) in cols[COL_LAST].iter().enumerate().take(SPONGE_PERIOD - 1) {
        assert_eq!(*value, 0, "slot {slot}");
    }
    assert_eq!(cols[COL_LAST][SPONGE_PERIOD - 1], 1);
}

#[test]
fn p_rc_active_covers_first_24_slots() {
    let cols = sponge_program();
    for (slot, value) in cols[COL_RC_ACTIVE].iter().enumerate().take(NUM_RC) {
        assert_eq!(*value, 1, "slot {slot}");
    }
    for (slot, value) in cols[COL_RC_ACTIVE].iter().enumerate().take(SPONGE_PERIOD).skip(NUM_RC) {
        assert_eq!(*value, 0, "slot {slot}");
    }
}

#[test]
fn p_squeeze_active_covers_slots_4_through_24() {
    let cols = sponge_program();
    let column = &cols[COL_SQUEEZE_ACTIVE];
    for (slot, value) in column.iter().enumerate().take(4) {
        assert_eq!(*value, 0, "slot {slot}");
    }
    for (slot, value) in column.iter().enumerate().take(LANE_16_0X80_SLOT).skip(4) {
        assert_eq!(*value, 1, "slot {slot}");
    }
    for (slot, value) in column.iter().enumerate().take(SPONGE_PERIOD).skip(LANE_16_0X80_SLOT) {
        assert_eq!(*value, 0, "slot {slot}");
    }
}

#[test]
fn p_pad_0x80_fires_only_at_slot_25() {
    let cols = sponge_program();
    for (slot, value) in cols[COL_PAD_0X80].iter().enumerate().take(SPONGE_PERIOD) {
        let expected = u64::from(slot == LANE_16_0X80_SLOT);
        assert_eq!(*value, expected, "slot {slot}");
    }
}

#[test]
fn rc_values_match_keccak_constants_on_active_rows() {
    let cols = sponge_program();
    for (slot, &rc) in KECCAK_RC.iter().enumerate().take(NUM_RC) {
        assert_eq!(cols[COL_RC_LO][slot], rc as u32 as u64);
        assert_eq!(cols[COL_RC_HI][slot], rc >> 32);
    }
    for (slot, value) in cols[COL_RC_LO].iter().enumerate().take(SPONGE_PERIOD).skip(NUM_RC) {
        assert_eq!(*value, 0, "slot {slot}");
        assert_eq!(cols[COL_RC_HI][slot], 0, "slot {slot}");
    }
}
