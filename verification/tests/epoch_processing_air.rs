use zkp::epoch_processing_air::{
    COL_BALANCE_POST, COL_BALANCE_PRE, COL_DELTA_DOWN, COL_DELTA_UP, COL_DELTA_ZERO,
    COL_EB_POST_BYTE_OFFSET, COL_EFFECTIVE_BALANCE_POST, COL_EFFECTIVE_BALANCE_PRE, COL_IS_REAL,
    COL_REWARDS, COL_REWARDS_BYTE_OFFSET, COL_SLASHING_PENALTY, COL_SLASHING_PENALTY_BYTE_OFFSET,
    COL_VALIDATOR_INDEX, EFFECTIVE_BALANCE_INCREMENT, EpochProcessingConstraintSystem,
    EpochProcessingWitness, GWEI_PER_ETH, HYSTERESIS_DOWN_THRESHOLD, HYSTERESIS_UP_THRESHOLD,
    MAX_EFFECTIVE_BALANCE, MAX_EFFECTIVE_BALANCE_ELECTRA, NUM_COLUMNS, NUM_ROW_CONSTRAINTS,
    NUM_SHIFTED, build_trace_polynomials, from_validator_epoch,
    make_epoch_to_attestation_rewards_descriptor,
    make_epoch_to_attestation_rewards_descriptor_wide, make_epoch_to_proposer_slashing_descriptor,
    make_epoch_to_slashing_descriptor, make_epoch_to_validator_balances_descriptor,
};
use zkp::field::{CurveType, Scalar};
use zkp::trace::TracePolynomials;

fn evaluate_bodies(
    witness: &EpochProcessingWitness,
    curve: CurveType,
) -> (TracePolynomials, Vec<Vec<Scalar>>) {
    let trace = build_trace_polynomials(witness, curve);
    let cs = EpochProcessingConstraintSystem::new(trace.num_rows);
    let col_refs: Vec<&Vec<Scalar>> =
        trace.columns.iter().map(|p| &p.evaluations).collect();
    let bodies = cs.evaluate_on_domain(&col_refs, trace.num_rows);
    (trace, bodies)
}

fn assert_all_vanish(bodies: &[Vec<Scalar>]) {
    for (k, body) in bodies.iter().enumerate() {
        for (row, v) in body.iter().enumerate() {
            assert!(
                v.is_zero(),
                "constraint {} should vanish at row {} (got {:?})",
                k,
                row,
                v.to_u64(),
            );
        }
    }
}

#[test]
fn legacy_validator_balance_update_vanishes() {
    let curve = CurveType::Bls48581;
    let w = from_validator_epoch(
        42,
        32 * GWEI_PER_ETH,
        32 * GWEI_PER_ETH + 100_000,
        32 * GWEI_PER_ETH,
        32 * GWEI_PER_ETH,
        0,
        100_000,
        true,
        false,
    );
    let (trace, bodies) = evaluate_bodies(&w, curve);
    assert_eq!(trace.columns.len(), NUM_COLUMNS);
    assert_eq!(bodies.len(), NUM_ROW_CONSTRAINTS);
    assert_all_vanish(&bodies);
}

#[test]
fn compounding_validator_balance_update_vanishes() {
    let curve = CurveType::Bls48581;
    let w = from_validator_epoch(
        7,
        500 * GWEI_PER_ETH,
        500 * GWEI_PER_ETH + 1_500_000,
        500 * GWEI_PER_ETH,
        500 * GWEI_PER_ETH,
        0,
        1_500_000,
        true,
        true,
    );
    let (_trace, bodies) = evaluate_bodies(&w, curve);
    assert_all_vanish(&bodies);
}

#[test]
fn slashing_penalty_branch_vanishes() {
    let curve = CurveType::Bls48581;
    let w = from_validator_epoch(
        1,
        32 * GWEI_PER_ETH,
        32 * GWEI_PER_ETH - 500_000_000,
        32 * GWEI_PER_ETH,
        31 * GWEI_PER_ETH,
        500_000_000,
        0,
        true,
        false,
    );
    let (_trace, bodies) = evaluate_bodies(&w, curve);
    assert_all_vanish(&bodies);
}

#[test]
fn tampered_balance_post_detected() {
    let curve = CurveType::Bls48581;
    let w = from_validator_epoch(
        42,
        32 * GWEI_PER_ETH,
        32 * GWEI_PER_ETH + 100_000,
        32 * GWEI_PER_ETH,
        32 * GWEI_PER_ETH,
        0,
        100_000,
        true,
        false,
    );
    let trace = build_trace_polynomials(&w, curve);
    let mut cols: Vec<Vec<Scalar>> =
        trace.columns.iter().map(|p| p.evaluations.clone()).collect();
    cols[COL_BALANCE_POST][0] = Scalar::from_u64(32 * GWEI_PER_ETH + 999_999, curve);
    let cs = EpochProcessingConstraintSystem::new(trace.num_rows);
    let col_refs: Vec<&Vec<Scalar>> = cols.iter().collect();
    let bodies = cs.evaluate_on_domain(&col_refs, trace.num_rows);
    assert!(
        !bodies[3][0].is_zero(),
        "balance_update_bind should fire on tampered balance_post"
    );
}

#[test]
fn tampered_eb_post_non_multiple_detected() {
    let curve = CurveType::Bls48581;
    let w = from_validator_epoch(
        42,
        32 * GWEI_PER_ETH,
        32 * GWEI_PER_ETH,
        32 * GWEI_PER_ETH,
        32 * GWEI_PER_ETH,
        0,
        0,
        true,
        false,
    );
    let trace = build_trace_polynomials(&w, curve);
    let mut cols: Vec<Vec<Scalar>> =
        trace.columns.iter().map(|p| p.evaluations.clone()).collect();
    cols[COL_EFFECTIVE_BALANCE_POST][0] =
        Scalar::from_u64(32 * GWEI_PER_ETH + 1, curve);
    let cs = EpochProcessingConstraintSystem::new(trace.num_rows);
    let col_refs: Vec<&Vec<Scalar>> = cols.iter().collect();
    let bodies = cs.evaluate_on_domain(&col_refs, trace.num_rows);
    assert!(
        !bodies[4][0].is_zero(),
        "eb_step_bind should fire when eb_post is not a multiple of INCREMENT"
    );
}

#[test]
fn descriptors_well_formed() {
    let d1 = make_epoch_to_validator_balances_descriptor(0, 1);
    assert_eq!(d1.label, "epoch_processing_to_validator_balances_v1");
    assert_eq!(
        d1.a_columns,
        vec![COL_VALIDATOR_INDEX, COL_EFFECTIVE_BALANCE_PRE, COL_BALANCE_PRE],
    );
    assert_eq!(
        d1.b_columns,
        vec![
            zkp::validator_balances_air::COL_VALIDATOR_INDEX,
            zkp::validator_balances_air::COL_EFFECTIVE_BALANCE,
            zkp::validator_balances_air::COL_CURRENT_BALANCE,
        ],
    );
    assert_eq!(d1.a_selector_column, Some(COL_IS_REAL));
    assert_eq!(d1.a_columns.len(), 3);
    assert_eq!(d1.b_columns.len(), 3);
    for &c in &d1.a_columns {
        assert!(c < NUM_COLUMNS);
        assert_ne!(c, usize::MAX);
    }
    for &c in &d1.b_columns {
        assert!(c < zkp::validator_balances_air::NUM_COLUMNS);
        assert_ne!(c, usize::MAX);
    }

    let d2 = make_epoch_to_attestation_rewards_descriptor(0, 2);
    assert_eq!(d2.label, "epoch_processing_to_attestation_rewards_v1");
    assert_eq!(d2.a_columns, vec![COL_VALIDATOR_INDEX, COL_REWARDS]);
    assert_eq!(
        d2.b_columns,
        vec![
            zkp::attestation_rewards_air::COL_VALIDATOR_INDEX,
            zkp::attestation_rewards_air::COL_TOTAL_REWARD,
        ],
    );
    assert_eq!(d2.a_selector_column, Some(COL_IS_REAL));
    for &c in &d2.a_columns {
        assert!(c < NUM_COLUMNS);
        assert_ne!(c, usize::MAX);
    }
    for &c in &d2.b_columns {
        assert!(c < zkp::attestation_rewards_air::NUM_COLUMNS);
        assert_ne!(c, usize::MAX);
    }

    let d3 = make_epoch_to_slashing_descriptor(0, 3);
    assert_eq!(d3.label, "epoch_processing_to_slashing_v1");
    assert_eq!(
        d3.a_columns,
        vec![COL_VALIDATOR_INDEX, COL_SLASHING_PENALTY],
    );
    assert_eq!(d3.a_selector_column, Some(COL_IS_REAL));
    assert_eq!(
        d3.b_selector_column,
        Some(zkp::attester_slashing_air::COL_IS_REAL),
    );
    assert_eq!(d3.a_columns.len(), 2);
    assert_eq!(d3.b_columns.len(), 2);
    for &c in &d3.a_columns {
        assert!(c < NUM_COLUMNS);
        assert_ne!(c, usize::MAX);
    }
    for &c in &d3.b_columns {
        assert!(c < zkp::attester_slashing_air::NUM_COLUMNS);
        assert_ne!(c, usize::MAX);
    }
}

#[test]
fn column_layout_pinned() {
    assert_eq!(NUM_COLUMNS, 105);
    assert_eq!(NUM_ROW_CONSTRAINTS, 19);
    assert_eq!(NUM_SHIFTED, 0);
    assert_eq!(EFFECTIVE_BALANCE_INCREMENT, GWEI_PER_ETH);
    assert_eq!(MAX_EFFECTIVE_BALANCE, 32 * GWEI_PER_ETH);
    assert_eq!(MAX_EFFECTIVE_BALANCE_ELECTRA, 2048 * GWEI_PER_ETH);
    assert_eq!(HYSTERESIS_UP_THRESHOLD, GWEI_PER_ETH + GWEI_PER_ETH / 4);
    assert_eq!(HYSTERESIS_DOWN_THRESHOLD, GWEI_PER_ETH / 4);
}

#[test]
fn evaluate_at_point_matches_for_honest() {
    let curve = CurveType::Bls48581;
    let w = from_validator_epoch(
        42,
        32 * GWEI_PER_ETH,
        32 * GWEI_PER_ETH + 100_000,
        32 * GWEI_PER_ETH,
        32 * GWEI_PER_ETH,
        0,
        100_000,
        true,
        false,
    );
    let trace = build_trace_polynomials(&w, curve);
    let cs = EpochProcessingConstraintSystem::new(trace.num_rows);
    let col_refs: Vec<&Vec<Scalar>> =
        trace.columns.iter().map(|p| &p.evaluations).collect();
    let alpha = Scalar::from_u64(19, curve);
    let row0_evals: Vec<Scalar> = col_refs.iter().map(|c| c[0].clone()).collect();
    let agg = cs.evaluate_at_point(&row0_evals, &alpha);
    assert!(agg.is_zero(), "α-RLC aggregate must vanish on honest row");
}

#[test]
fn tampered_rewards_detected() {
    let curve = CurveType::Bls48581;
    let w = from_validator_epoch(
        42,
        32 * GWEI_PER_ETH,
        32 * GWEI_PER_ETH + 100_000,
        32 * GWEI_PER_ETH,
        32 * GWEI_PER_ETH,
        0,
        100_000,
        true,
        false,
    );
    let trace = build_trace_polynomials(&w, curve);
    let mut cols: Vec<Vec<Scalar>> =
        trace.columns.iter().map(|p| p.evaluations.clone()).collect();
    let new_rewards: u64 = 200_000;
    cols[COL_REWARDS][0] = Scalar::from_u64(new_rewards, curve);
    for (b, byte) in new_rewards.to_le_bytes().iter().enumerate() {
        cols[COL_REWARDS_BYTE_OFFSET + b][0] = Scalar::from_u64(*byte as u64, curve);
    }
    let cs = EpochProcessingConstraintSystem::new(trace.num_rows);
    let col_refs: Vec<&Vec<Scalar>> = cols.iter().collect();
    let bodies = cs.evaluate_on_domain(&col_refs, trace.num_rows);
    assert!(
        !bodies[3][0].is_zero(),
        "balance_update_bind should fire when rewards is tampered"
    );
}

#[test]
fn tampered_slashing_penalty_detected() {
    let curve = CurveType::Bls48581;
    let w = from_validator_epoch(
        7,
        32 * GWEI_PER_ETH,
        32 * GWEI_PER_ETH - 1_000_000,
        32 * GWEI_PER_ETH,
        32 * GWEI_PER_ETH,
        1_000_000,
        0,
        true,
        false,
    );
    let trace = build_trace_polynomials(&w, curve);
    let mut cols: Vec<Vec<Scalar>> =
        trace.columns.iter().map(|p| p.evaluations.clone()).collect();
    let new_penalty: u64 = 500_000;
    cols[COL_SLASHING_PENALTY][0] = Scalar::from_u64(new_penalty, curve);
    for (b, byte) in new_penalty.to_le_bytes().iter().enumerate() {
        cols[COL_SLASHING_PENALTY_BYTE_OFFSET + b][0] =
            Scalar::from_u64(*byte as u64, curve);
    }
    let cs = EpochProcessingConstraintSystem::new(trace.num_rows);
    let col_refs: Vec<&Vec<Scalar>> = cols.iter().collect();
    let bodies = cs.evaluate_on_domain(&col_refs, trace.num_rows);
    assert!(
        !bodies[3][0].is_zero(),
        "balance_update_bind should fire when slashing_penalty is tampered"
    );
}

#[test]
fn balance_update_gated_by_is_real() {
    let curve = CurveType::Bls48581;
    let w = from_validator_epoch(
        42,
        32 * GWEI_PER_ETH,
        32 * GWEI_PER_ETH + 100_000,
        32 * GWEI_PER_ETH,
        32 * GWEI_PER_ETH,
        0,
        100_000,
        true,
        false,
    );
    let trace = build_trace_polynomials(&w, curve);
    assert!(trace.padded_size > 1, "expected padding rows for gating test");
    let mut cols: Vec<Vec<Scalar>> =
        trace.columns.iter().map(|p| p.evaluations.clone()).collect();
    let pad = (trace.num_rows).min(cols[0].len() - 1);
    if pad < cols[0].len() && pad >= trace.num_rows {
        cols[COL_REWARDS][pad] = Scalar::from_u64(12345, curve);
        for (b, byte) in 12345u64.to_le_bytes().iter().enumerate() {
            cols[COL_REWARDS_BYTE_OFFSET + b][pad] =
                Scalar::from_u64(*byte as u64, curve);
        }
        let cs = EpochProcessingConstraintSystem::new(trace.num_rows);
        let col_refs: Vec<&Vec<Scalar>> = cols.iter().collect();
        let bodies = cs.evaluate_on_domain(&col_refs, trace.num_rows);
        assert!(
            bodies[3][pad].is_zero(),
            "balance_update_bind must be gated by IS_REAL on padding rows"
        );
    }
}

#[test]
fn wide_rewards_descriptor_well_formed() {
    let d = make_epoch_to_attestation_rewards_descriptor_wide(0, 4);
    assert_eq!(d.label, "epoch_processing_to_attestation_rewards_wide_v1");
    assert_eq!(
        d.a_columns,
        vec![COL_VALIDATOR_INDEX, COL_EFFECTIVE_BALANCE_POST, COL_REWARDS],
    );
    assert_eq!(
        d.b_columns,
        vec![
            zkp::attestation_rewards_air::COL_VALIDATOR_INDEX,
            zkp::attestation_rewards_air::COL_EFFECTIVE_BALANCE,
            zkp::attestation_rewards_air::COL_TOTAL_REWARD,
        ],
    );
    assert_eq!(d.a_selector_column, Some(COL_IS_REAL));
    assert_eq!(
        d.b_selector_column,
        Some(zkp::attestation_rewards_air::COL_IS_REAL),
    );
    for &c in &d.a_columns {
        assert!(c < NUM_COLUMNS);
    }
    for &c in &d.b_columns {
        assert!(c < zkp::attestation_rewards_air::NUM_COLUMNS);
    }
}

#[test]
fn proposer_slashing_descriptor_well_formed() {
    let d = make_epoch_to_proposer_slashing_descriptor(0, 5);
    assert_eq!(d.label, "epoch_processing_to_proposer_slashing_v1");
    assert_eq!(d.a_columns, vec![COL_VALIDATOR_INDEX, COL_SLASHING_PENALTY]);
    assert_eq!(
        d.b_columns,
        vec![
            zkp::proposer_slashing_air::COL_PROPOSER_INDEX_1,
            zkp::proposer_slashing_air::COL_BODY_ROOT_DIFF_INV,
        ],
    );
    assert_eq!(d.a_selector_column, Some(COL_IS_REAL));
    assert_eq!(
        d.b_selector_column,
        Some(zkp::proposer_slashing_air::COL_IS_REAL),
    );
    for &c in &d.a_columns {
        assert!(c < NUM_COLUMNS);
    }
    for &c in &d.b_columns {
        assert!(c < zkp::proposer_slashing_air::NUM_COLUMNS);
    }
}

#[test]
fn hysteresis_up_branch_vanishes() {
    let curve = CurveType::Bls48581;
    let w = from_validator_epoch(
        1,
        30 * GWEI_PER_ETH,
        32 * GWEI_PER_ETH,
        30 * GWEI_PER_ETH,
        31 * GWEI_PER_ETH,
        0,
        2 * GWEI_PER_ETH,
        true,
        false,
    );
    let (trace, bodies) = evaluate_bodies(&w, curve);
    assert_eq!(
        trace.columns[COL_DELTA_UP].evaluations[0].to_u64(),
        1
    );
    assert_eq!(
        trace.columns[COL_DELTA_DOWN].evaluations[0].to_u64(),
        0
    );
    assert_eq!(
        trace.columns[COL_DELTA_ZERO].evaluations[0].to_u64(),
        0
    );
    assert_all_vanish(&bodies);
}

#[test]
fn hysteresis_down_branch_vanishes() {
    let curve = CurveType::Bls48581;
    let w = from_validator_epoch(
        2,
        32 * GWEI_PER_ETH,
        32 * GWEI_PER_ETH - GWEI_PER_ETH / 2,
        32 * GWEI_PER_ETH,
        31 * GWEI_PER_ETH,
        GWEI_PER_ETH / 2,
        0,
        true,
        false,
    );
    let (trace, bodies) = evaluate_bodies(&w, curve);
    assert_eq!(
        trace.columns[COL_DELTA_DOWN].evaluations[0].to_u64(),
        1
    );
    assert_eq!(
        trace.columns[COL_DELTA_UP].evaluations[0].to_u64(),
        0
    );
    assert_all_vanish(&bodies);
}

#[test]
fn hysteresis_zero_branch_vanishes_within_band() {
    let curve = CurveType::Bls48581;
    let w = from_validator_epoch(
        3,
        32 * GWEI_PER_ETH,
        33 * GWEI_PER_ETH,
        32 * GWEI_PER_ETH,
        32 * GWEI_PER_ETH,
        0,
        GWEI_PER_ETH,
        true,
        false,
    );
    let (trace, bodies) = evaluate_bodies(&w, curve);
    assert_eq!(
        trace.columns[COL_DELTA_ZERO].evaluations[0].to_u64(),
        1
    );
    assert_all_vanish(&bodies);
}

#[test]
fn hysteresis_up_branch_exact_threshold_does_not_fire() {
    let curve = CurveType::Bls48581;
    let w = from_validator_epoch(
        4,
        30 * GWEI_PER_ETH,
        30 * GWEI_PER_ETH + HYSTERESIS_UP_THRESHOLD,
        30 * GWEI_PER_ETH,
        30 * GWEI_PER_ETH,
        0,
        HYSTERESIS_UP_THRESHOLD,
        true,
        false,
    );
    let (trace, bodies) = evaluate_bodies(&w, curve);
    assert_eq!(
        trace.columns[COL_DELTA_ZERO].evaluations[0].to_u64(),
        1
    );
    assert_all_vanish(&bodies);
}

#[test]
fn hysteresis_compounding_high_balance_step_up() {
    let curve = CurveType::Bls48581;
    let w = from_validator_epoch(
        5,
        100 * GWEI_PER_ETH,
        102 * GWEI_PER_ETH,
        100 * GWEI_PER_ETH,
        101 * GWEI_PER_ETH,
        0,
        2 * GWEI_PER_ETH,
        true,
        true,
    );
    let (_, bodies) = evaluate_bodies(&w, curve);
    assert_all_vanish(&bodies);
}

#[test]
fn tampered_delta_up_without_threshold_detected() {
    let curve = CurveType::Bls48581;
    let w = from_validator_epoch(
        8,
        32 * GWEI_PER_ETH,
        32 * GWEI_PER_ETH + 100_000,
        32 * GWEI_PER_ETH,
        32 * GWEI_PER_ETH,
        0,
        100_000,
        true,
        false,
    );
    let trace = build_trace_polynomials(&w, curve);
    let mut cols: Vec<Vec<Scalar>> =
        trace.columns.iter().map(|p| p.evaluations.clone()).collect();
    cols[COL_DELTA_UP][0] = Scalar::from_u64(1, curve);
    let cs = EpochProcessingConstraintSystem::new(trace.num_rows);
    let col_refs: Vec<&Vec<Scalar>> = cols.iter().collect();
    let bodies = cs.evaluate_on_domain(&col_refs, trace.num_rows);
    assert!(
        !bodies[15][0].is_zero(),
        "hysteresis_direction_mutex must fire on tampered delta_up"
    );
    assert!(
        !bodies[16][0].is_zero(),
        "hysteresis_up_bind must fire when threshold not met"
    );
}

#[test]
fn tampered_eb_post_step_mismatch_detected() {
    let curve = CurveType::Bls48581;
    let w = from_validator_epoch(
        9,
        30 * GWEI_PER_ETH,
        32 * GWEI_PER_ETH,
        30 * GWEI_PER_ETH,
        31 * GWEI_PER_ETH,
        0,
        2 * GWEI_PER_ETH,
        true,
        false,
    );
    let trace = build_trace_polynomials(&w, curve);
    let mut cols: Vec<Vec<Scalar>> =
        trace.columns.iter().map(|p| p.evaluations.clone()).collect();
    let tampered = 30 * GWEI_PER_ETH;
    cols[COL_EFFECTIVE_BALANCE_POST][0] = Scalar::from_u64(tampered, curve);
    for (b, byte) in tampered.to_le_bytes().iter().enumerate() {
        cols[COL_EB_POST_BYTE_OFFSET + b][0] =
            Scalar::from_u64(*byte as u64, curve);
    }
    let cs = EpochProcessingConstraintSystem::new(trace.num_rows);
    let col_refs: Vec<&Vec<Scalar>> = cols.iter().collect();
    let bodies = cs.evaluate_on_domain(&col_refs, trace.num_rows);
    assert!(
        !bodies[18][0].is_zero(),
        "hysteresis_step_bind must fire on missing up step"
    );
}

#[test]
fn tampered_delta_zero_when_must_step_detected() {
    let curve = CurveType::Bls48581;
    let w = from_validator_epoch(
        10,
        30 * GWEI_PER_ETH,
        32 * GWEI_PER_ETH,
        30 * GWEI_PER_ETH,
        31 * GWEI_PER_ETH,
        0,
        2 * GWEI_PER_ETH,
        true,
        false,
    );
    let trace = build_trace_polynomials(&w, curve);
    let mut cols: Vec<Vec<Scalar>> =
        trace.columns.iter().map(|p| p.evaluations.clone()).collect();
    cols[COL_DELTA_UP][0] = Scalar::zero(curve);
    cols[COL_DELTA_DOWN][0] = Scalar::zero(curve);
    cols[COL_DELTA_ZERO][0] = Scalar::zero(curve);
    let cs = EpochProcessingConstraintSystem::new(trace.num_rows);
    let col_refs: Vec<&Vec<Scalar>> = cols.iter().collect();
    let bodies = cs.evaluate_on_domain(&col_refs, trace.num_rows);
    assert!(
        !bodies[15][0].is_zero(),
        "mutex sum must fire when no direction selector is 1"
    );
}

#[test]
fn rewards_descriptor_tuple_matches_against_rewards_air() {
    let curve = CurveType::Bls48581;
    let validator_index: u64 = 42;
    let effective_balance: u64 = 32 * GWEI_PER_ETH;
    let base_reward: u64 = 64 * 100;
    let total_reward = base_reward * (14 + 26 + 14) / 64;
    let w = from_validator_epoch(
        validator_index,
        32 * GWEI_PER_ETH,
        32 * GWEI_PER_ETH + total_reward,
        effective_balance,
        effective_balance,
        0,
        total_reward,
        true,
        false,
    );
    let trace = build_trace_polynomials(&w, curve);
    let d = make_epoch_to_attestation_rewards_descriptor_wide(0, 1);
    let row: Vec<u64> = d.a_columns.iter().map(|c| trace.columns[*c].evaluations[0].to_u64()).collect();
    assert_eq!(row, vec![validator_index, effective_balance, total_reward]);
    let d = make_epoch_to_attestation_rewards_descriptor(0, 1);
    let row: Vec<u64> = d.a_columns.iter().map(|c| trace.columns[*c].evaluations[0].to_u64()).collect();
    assert_eq!(row, vec![validator_index, total_reward]);
}
