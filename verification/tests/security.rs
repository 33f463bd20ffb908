use miden_foundation::precompiles::security::{
    aligned, column_count, conjectured_security_level, conjectured_security_level_for_alignment,
    derive_air_shape, fixed_boundary_correction, num_deep_terms, precompile_pcs_params,
    protocol_params, quotient_column_count, security_report, AirShape, ChipletCounts,
    ChipletWidths, ProtocolParams, Round,
};

/// Fractions that every trace holds besides its rows.
const FIXED_COUNT: u32 = 8;

#[test]
fn deployed_preset_grades_by_trace_height() {
    let params = protocol_params(&precompile_pcs_params());

    for (log_height, expected_level, expected_binding) in [
        (16, 96, Round::FriQuery),
        (18, 96, Round::FriQuery),
        (20, 95, Round::LookupChallenge),
        (24, 91, Round::LookupChallenge),
    ] {
        let report = security_report(&params, log_height, FIXED_COUNT);
        assert_eq!(report.security_level(), expected_level, "level moved at {log_height}");
        assert_eq!(report.binding_term(), expected_binding, "binding round moved at {log_height}");
        assert_eq!(
            conjectured_security_level(&precompile_pcs_params(), log_height, FIXED_COUNT),
            expected_level
        );
    }
}

#[test]
fn security_report_matches_reference_vectors() {
    // (queries, query PoW, DEEP PoW, folding PoW, log height)
    //   -> [lookup, composition, ood, deep, folding, query, collision], level
    const VECTORS: &[((u32, u32, u32, u32, u32), [u64; 7], u32)] = &[
        (
            (27, 17, 12, 4, 6),
            [7_192_350, 7_786_018, 7_825_981, 8_323_072, 7_891_517, 6_335_399, 8_323_072],
            96,
        ),
        (
            (27, 17, 12, 4, 16),
            [6_537_038, 7_786_018, 7_170_621, 8_323_072, 7_236_157, 6_335_399, 8_323_072],
            96,
        ),
        (
            (27, 17, 12, 4, 19),
            [6_340_430, 7_786_018, 6_974_013, 8_323_072, 7_039_549, 6_335_399, 8_323_072],
            96,
        ),
        (
            (27, 17, 12, 4, 20),
            [6_274_894, 7_786_018, 6_908_477, 8_323_072, 6_974_013, 6_335_399, 8_323_072],
            95,
        ),
        (
            (27, 17, 12, 4, 24),
            [6_012_750, 7_786_018, 6_646_333, 8_323_072, 6_711_869, 6_335_399, 8_323_072],
            91,
        ),
        (
            (7, 0, 0, 0, 16),
            [6_537_038, 7_786_018, 7_170_621, 7_760_199, 6_974_013, 1_353_667, 8_323_072],
            20,
        ),
    ];

    let base = protocol_params(&precompile_pcs_params());
    for &((num_queries, query_pow_bits, deep_pow_bits, folding_pow_bits, log_height), rounds, level) in
        VECTORS
    {
        let params = ProtocolParams {
            num_queries,
            query_pow_bits,
            deep_pow_bits,
            folding_pow_bits,
            ..base
        };
        let report = security_report(&params, log_height, FIXED_COUNT);
        assert_eq!(report.terms(), rounds, "round bits moved at {params:?}, {log_height}");
        assert_eq!(report.security_level(), level, "level moved at {params:?}, {log_height}");
    }
}

#[test]
fn security_is_monotone_in_trace_height() {
    let params = protocol_params(&precompile_pcs_params());
    let mut previous = u32::MAX;
    for log_height in 6..=30u32 {
        let level = security_report(&params, log_height, FIXED_COUNT).security_level();
        assert!(level <= previous, "level rose at log height {log_height}");
        previous = level;
    }
}

#[test]
fn widths_are_padded_to_the_alignment() {
    assert_eq!(aligned(0, 8), 0);
    assert_eq!(aligned(1, 8), 8);
    assert_eq!(aligned(8, 8), 8);
    assert_eq!(aligned(9, 8), 16);
    assert_eq!(quotient_column_count(5, 8), 8);
    assert_eq!(quotient_column_count(6, 1), 16);
    assert_eq!(quotient_column_count(0, 1), 2);
}

#[test]
fn the_boundary_correction_rounds_up() {
    // 8 * 94549 / 244 = 3099.9...
    assert_eq!(fixed_boundary_correction(8, 0), 3100);
    assert_eq!(fixed_boundary_correction(8, 6), 49);
    assert_eq!(fixed_boundary_correction(8, 40), 1);
    assert_eq!(fixed_boundary_correction(0, 0), 0);
}

#[test]
fn the_shape_adds_up_over_the_chiplets() {
    let widths = [
        ChipletWidths { preprocessed: 4, main: 3, aux: 2 },
        ChipletWidths { preprocessed: 0, main: 20, aux: 1 },
    ];
    assert_eq!(column_count(&widths[0], 8), 24);
    assert_eq!(column_count(&widths[1], 8), 32);
    assert_eq!(column_count(&widths[1], 1), 22);
    assert_eq!(num_deep_terms(&widths, 8), 66);

    let counts = [
        ChipletCounts { constraints: 10, max_degree: 3, fractions: 2, widths: widths[0] },
        ChipletCounts { constraints: 5, max_degree: 9, fractions: 1, widths: widths[1] },
    ];
    assert_eq!(
        derive_air_shape(&counts, 8, 18),
        AirShape {
            num_composed_constraints: 16,
            max_constraint_degree: 9,
            num_deep_terms: 74,
            fractions_per_row: 3,
            max_message_width: 18,
        }
    );
}

#[test]
fn the_deployed_alignment_gives_the_deployed_level() {
    let params = precompile_pcs_params();
    // 760 committed columns, 8 of the quotient and 2 points are the 770 deployed terms.
    let widths = [ChipletWidths { preprocessed: 0, main: 760, aux: 0 }];
    assert_eq!(num_deep_terms(&widths, 8), 770);
    for log_height in [16, 20, 24] {
        assert_eq!(
            conjectured_security_level_for_alignment(&params, log_height, FIXED_COUNT, &widths, 8),
            conjectured_security_level(&params, log_height, FIXED_COUNT)
        );
    }
}
