use std::collections::HashSet;

use miden_foundation::precompiles::ec::add::{EcGroupAddAir, PERIOD};
use miden_foundation::precompiles::ec::groups;
use miden_foundation::precompiles::ec::msm::{self, EcMsmAir};
use miden_foundation::precompiles::ec::{
    add, eval_point_store_lookups, eval_point_store_main, COLUMN_SHAPE, NUM_LOGUP_COLS,
    NUM_MAIN_COLS,
};
use miden_foundation::precompiles::field::{Felt, FieldExpr};
use miden_foundation::precompiles::fixed::{
    fixed_ecgroup_msgs, fixed_uints, fixed_uintval_msgs, Curve, Endomorphism, UintDomain,
};
use miden_foundation::precompiles::hash::chunk_node_sponge::{self, ChunkNodeSpongeAir};
use miden_foundation::precompiles::hash::keccak::node::{self, KeccakNodeAir};
use miden_foundation::precompiles::hash::keccak::round::program::{round_program, ROUND_PERIOD};
use miden_foundation::precompiles::hash::keccak::round::{self, KeccakRoundAir};
use miden_foundation::precompiles::hash::keccak::sponge;
use miden_foundation::precompiles::hash::keccak::sponge::program::sponge_program;
use miden_foundation::precompiles::logup::{Constraint, Interaction, Rows};

fn felt(value: u64) -> Felt {
    Felt::new(value).expect("a canonical element")
}

fn zeros(n: usize) -> Vec<Felt> {
    (0..n).map(|_| felt(0)).collect()
}

fn row(n: usize, set: &[(usize, u64)]) -> Vec<Felt> {
    let mut row = zeros(n);
    for &(column, value) in set {
        row[column] = felt(value);
    }
    row
}

/// How many constraints do not hold on a row that is neither the first nor the last.
fn broken(constraints: &[Constraint<Felt>]) -> usize {
    constraints.iter().filter(|c| c.rows != Rows::First && !c.value.is_zero()).count()
}

/// How many fractions each auxiliary column gets.
fn shape(interactions: &[Interaction<Felt>], columns: usize) -> Vec<usize> {
    let mut counts = vec![0; columns];
    for interaction in interactions {
        counts[interaction.column.index] += 1;
    }
    counts
}

#[test]
fn idle_rows_of_the_point_store_satisfy_its_constraints() {
    let idle = zeros(NUM_MAIN_COLS);
    let constraints = eval_point_store_main(&idle, &idle);
    assert!(!constraints.is_empty());
    // A flag that is neither zero nor one breaks a constraint.
    let wrong = row(NUM_MAIN_COLS, &[(miden_foundation::precompiles::ec::COL_IS_PAI, 2)]);
    assert!(broken(&eval_point_store_main(&wrong, &idle)) > broken(&constraints));
    let lookups = eval_point_store_lookups(&idle);
    assert_eq!(shape(&lookups, NUM_LOGUP_COLS), COLUMN_SHAPE);
}

#[test]
fn group_rows_provide_their_parameters() {
    let local = row(
        groups::NUM_MAIN_COLS,
        &[(groups::COL_PTR, 1), (groups::COL_A_PTR, 5), (groups::COL_MULT, 9)],
    );
    let lookups = groups::eval_lookups(&local);
    assert_eq!(shape(&lookups, groups::NUM_LOGUP_COLS), groups::COLUMN_SHAPE);
    let provided = lookups[0].mult.plus(&felt(9));
    assert!(provided.is_zero() || lookups[0].mult.as_canonical_u64() == 9);
    assert!(lookups[0].message.elems.iter().any(|e| e.as_canonical_u64() == 5));
}

#[test]
fn group_additions_follow_a_period_of_four_rows() {
    let columns = EcGroupAddAir.periodic_columns();
    assert_eq!(columns.len(), add::NUM_PERIODIC);
    for (i, column) in columns.iter().enumerate() {
        let expected: Vec<u64> = (0..PERIOD).map(|row| u64::from(row == i)).collect();
        assert_eq!(column, &expected);
    }
    let idle = zeros(add::NUM_MAIN_COLS);
    let periodic = row(add::NUM_PERIODIC, &[(add::PCOL_SLOPE, 1)]);
    let lookups = EcGroupAddAir.eval_lookups(&idle, &idle, &periodic);
    assert_eq!(shape(&lookups, add::NUM_LOGUP_COLS), add::COLUMN_SHAPE);
    let constraints = EcGroupAddAir.eval(&idle, &idle, &periodic);
    assert_eq!(broken(&constraints), 0);
    let wrong = row(add::NUM_MAIN_COLS, &[(add::COL_ACT, 2)]);
    assert!(broken(&EcGroupAddAir.eval(&wrong, &idle, &periodic)) > 0);
}

#[test]
fn idle_rows_of_the_multi_scalar_chiplet_satisfy_its_constraints() {
    let idle = zeros(msm::NUM_MAIN_COLS);
    let counted = row(msm::NUM_MAIN_COLS, &[(msm::COL_IDX, 1)]);
    // The index goes up by one inside a boundary.
    assert_eq!(broken(&EcMsmAir.eval(&idle, &counted)), 0);
    assert_eq!(broken(&EcMsmAir.eval(&idle, &idle)), 1);
    let wrong = row(msm::NUM_MAIN_COLS, &[(msm::COL_TAKE_A, 3)]);
    assert!(broken(&EcMsmAir.eval(&wrong, &counted)) > 0);
    assert_eq!(shape(&EcMsmAir.eval_lookups(&idle), msm::NUM_LOGUP_COLS), msm::COLUMN_SHAPE);
}

#[test]
fn idle_rows_of_the_keccak_chiplets_satisfy_their_constraints() {
    let idle = zeros(node::NUM_MAIN_COLS);
    assert_eq!(broken(&KeccakNodeAir.eval(&idle, &idle)), 0);

    let program = round_program();
    let at = |slot: usize| -> Vec<Felt> { program.iter().map(|col| felt(col[slot])).collect() };
    // The row counters of the two lanes go up by one on each row.
    let counter = |n: u64| {
        row(
            round::NUM_MAIN_COLS,
            &[(round::COL_IP, n), (round::LANE_WIDTH + round::COL_IP, n)],
        )
    };
    assert!(broken(&KeccakRoundAir.eval(&counter(4), &counter(9), &at(4))) > 0);
    let lookups = KeccakRoundAir.eval_lookups(&counter(4), &at(4));
    assert_eq!(shape(&lookups, round::NUM_AUX_COLS), round::build_column_shape());
    assert_eq!(program[0].len(), ROUND_PERIOD);

    let program = sponge_program();
    let at = |slot: usize| -> Vec<Felt> { program.iter().map(|col| felt(col[slot])).collect() };
    let idle = zeros(sponge::NUM_MAIN_COLS);
    let lookups = sponge::eval_lookups(&idle, &idle, &at(3));
    assert_eq!(shape(&lookups, sponge::NUM_AUX_COLS), sponge::build_column_shape());

    let idle = zeros(chunk_node_sponge::NUM_MAIN_COLS);
    assert_eq!(
        chunk_node_sponge::column_shape().len(),
        chunk_node_sponge::NUM_AUX_COLS
    );
    assert!(!ChunkNodeSpongeAir.eval(&idle, &idle, &at(3)).is_empty());
}

#[test]
fn fixed_values_are_moduli_then_parameters_then_endomorphisms() {
    let limbs = |value: u32| [value, 0, 0, 0, 0, 0, 0, 0];
    let domains = [
        UintDomain { bound_ptr: 1, minus_one: limbs(6) },
        UintDomain { bound_ptr: 2, minus_one: limbs(10) },
    ];
    let curves = [
        Curve {
            group_ptr: 1,
            a_ptr: 3,
            a_value: limbs(0),
            b_ptr: 4,
            b_value: limbs(7),
            base_bound_ptr: 1,
            scalar_bound_ptr: 2,
            endomorphism: Some(Endomorphism {
                beta_ptr: 5,
                beta: limbs(2),
                lambda_ptr: 6,
                lambda: limbs(3),
            }),
        },
    ];
    let uints = fixed_uints(&domains, &curves);
    let pointers: Vec<(u32, u32)> = uints.iter().map(|(ptr, bound, _)| (*ptr, *bound)).collect();
    assert_eq!(pointers, [(1, 1), (2, 2), (3, 1), (4, 1), (5, 1), (6, 2)]);
    let distinct: HashSet<u32> = pointers.iter().map(|(ptr, _)| *ptr).collect();
    assert_eq!(distinct.len(), uints.len());
    assert_eq!(fixed_uintval_msgs(&domains, &curves).len(), 6);
    assert_eq!(fixed_ecgroup_msgs(&curves).len(), 1);
}

#[test]
fn digest_nodes_leave_no_gaps_and_padding_is_silent() {
    let node_row = |act: u64, sponge: u64, chunk: u64, out: u64| {
        row(
            node::NUM_MAIN_COLS,
            &[
                (node::COL_ACT, act),
                (node::COL_SPONGE_SEQ_ID_HEAD, sponge),
                (node::COL_N_SPONGE_PERMS, 2),
                (node::COL_CHUNK_SEQ_ID_HEAD, chunk),
                (node::COL_N_CHUNKS, 3),
                (node::COL_OUT_MULT, out),
            ],
        )
    };
    let first = node_row(1, 0, 0, 5);
    assert_eq!(broken(&KeccakNodeAir.eval(&first, &node_row(1, 64, 3, 1))), 0);
    assert_eq!(broken(&KeccakNodeAir.eval(&first, &node_row(1, 65, 3, 1))), 1);
    assert_eq!(broken(&KeccakNodeAir.eval(&first, &node_row(1, 64, 4, 1))), 1);
    // The flag does not rise, is zero or one, and switches the output.
    assert_eq!(broken(&KeccakNodeAir.eval(&node_row(0, 0, 0, 0), &node_row(1, 64, 3, 1))), 1);
    assert!(broken(&KeccakNodeAir.eval(&node_row(2, 0, 0, 0), &node_row(0, 0, 0, 0))) > 0);
    assert_eq!(broken(&KeccakNodeAir.eval(&node_row(0, 0, 0, 1), &node_row(0, 0, 0, 0))), 1);
    let tag = zeros(4);
    let lookups =
        KeccakNodeAir.eval_lookups(&node_row(0, 9, 9, 0), &tag, &felt(1), &felt(2));
    assert!(lookups.iter().all(|lookup| lookup.mult.is_zero()));
}

#[test]
fn points_are_expressions_of_one_row() {
    let point = |set: &[(usize, u64)]| {
        let mut cells = vec![
            (msm::COL_ACT, 1),
            (msm::COL_EXPR_PTR, 1),
            (msm::COL_IS_BOUNDARY, 1),
            (msm::COL_IS_INTRO, 1),
            (msm::COL_BASE, 7),
            (msm::COL_VAL, 7),
        ];
        cells.extend_from_slice(set);
        row(msm::NUM_MAIN_COLS, &cells)
    };
    let second = row(msm::NUM_MAIN_COLS, &[(msm::COL_EXPR_PTR, 2)]);
    assert_eq!(broken(&EcMsmAir.eval(&point(&[]), &second)), 0);
    for wrong in [
        (msm::COL_VAL, 8),
        (msm::COL_IS_BOUNDARY, 0),
        (msm::COL_EXPR_PTR, 2),
        (msm::COL_IS_NEG, 1),
        (msm::COL_ACT, 0),
        (msm::COL_TAKE_A, 1),
    ] {
        assert!(broken(&EcMsmAir.eval(&point(&[wrong]), &second)) > 0, "{wrong:?}");
    }
    let padding = row(msm::NUM_MAIN_COLS, &[(msm::COL_MULT, 1), (msm::COL_EXPR_PTR, 2)]);
    assert!(broken(&EcMsmAir.eval(&padding, &second)) > 0);
}

#[test]
fn an_operand_at_infinity_passes_the_other_through() {
    let at_res = row(add::NUM_PERIODIC, &[(add::PCOL_RES, 1)]);
    let flags = [(add::COL_PAI_P, 1), (add::COL_ACT, 1)];
    let cells = |set: &[(usize, u64)]| {
        let mut all = flags.to_vec();
        all.extend_from_slice(set);
        row(add::NUM_MAIN_COLS, &all)
    };
    let result = cells(&[(add::CELL_R, 5)]);
    let holds = |l: &[Felt], n: &[Felt]| broken(&EcGroupAddAir.eval(l, n, &at_res)) == 0;
    assert!(holds(&result, &cells(&[(add::TERM_CELL_Q, 5)])));
    assert!(!holds(&result, &cells(&[(add::TERM_CELL_Q, 6)])));
    // Every column but the cells keeps its value, a case is missing, and nothing fresh passes.
    assert!(!holds(&result, &cells(&[(add::TERM_CELL_Q, 5), (add::COL_PX, 1)])));
    assert!(!holds(&cells(&[(add::COL_PAI_P, 0)]), &cells(&[(add::COL_PAI_P, 0)])));
    let fresh = [(add::COL_MINTS, 1), (add::TERM_CELL_Q, 5)];
    assert!(!holds(&cells(&[(add::CELL_R, 5), (add::COL_MINTS, 1)]), &cells(&fresh)));
}
