use zkp::evm_create2_input_air as create2;
use zkp::execution_payload_pair_air as pair;
use zkp::field::{CurveType, Scalar};
use zkp::final_exp_air as fe;

const CURVE: CurveType = CurveType::Bls12381;

fn small(x: u64) -> Scalar {
    Scalar::from_u64(x, CURVE)
}

fn at(p: &[Scalar], z: &Scalar) -> Scalar {
    let mut acc = Scalar::zero(CURVE);
    for c in p.iter().rev() {
        acc = acc.mul(z).add(c);
    }
    acc
}

fn columns(n: usize) -> Vec<Vec<Scalar>> {
    (0..n as u64).map(|c| vec![small(c * c + 1), small(3 * c + 2)]).collect()
}

fn evaluations(columns: &[Vec<Scalar>], z: &Scalar) -> Vec<Scalar> {
    columns.iter().map(|c| at(c, z)).collect()
}

#[test]
fn epoch_processing_polynomial_agrees_with_the_point() {
    let cs = zkp::epoch_processing_air::EpochProcessingConstraintSystem::new(4);
    let (alpha, z) = (small(5), small(123));
    let cols = columns(zkp::epoch_processing_air::NUM_COLUMNS);
    let p = cs.build_constraint_polynomial(&cols, &alpha, 8);
    let direct = cs.evaluate_at_point(&evaluations(&cols, &z), &alpha);
    assert!(!direct.is_zero());
    assert_eq!(at(&p, &z).to_bytes(), direct.to_bytes());
}

#[test]
fn epoch_processing_without_enough_columns_is_zero_at_a_point() {
    let cs = zkp::epoch_processing_air::EpochProcessingConstraintSystem::new(4);
    let row = vec![small(3); zkp::epoch_processing_air::NUM_COLUMNS - 1];
    assert!(cs.evaluate_at_point(&row, &small(5)).is_zero());
}

#[test]
fn epoch_processing_padding_is_cleared() {
    let curve = CurveType::Bls48581;
    let cs = zkp::epoch_processing_air::EpochProcessingConstraintSystem::new(1);
    let mut cols = vec![vec![Scalar::from_u64(9, curve); 4]; zkp::epoch_processing_air::NUM_COLUMNS];
    cs.fix_trace_padding(&mut cols, 1, 4);
    for c in &cols {
        assert_eq!(c.iter().map(|x| x.to_u64()).collect::<Vec<u64>>(), vec![9, 0, 0, 0]);
    }
}

#[test]
fn epoch_processing_shape() {
    let cs = zkp::epoch_processing_air::EpochProcessingConstraintSystem::new(4).with_omega_and_domain(small(7), 4);
    assert_eq!(cs.num_rows, 4);
    assert_eq!(cs.domain_size, Some(4));
    assert_eq!(cs.omega.unwrap().to_u64(), 7);
    let cs = zkp::epoch_processing_air::EpochProcessingConstraintSystem::new(4);
    assert_eq!(cs.num_constraints(), zkp::epoch_processing_air::NUM_ROW_CONSTRAINTS);
    let selectors = cs.selector_column_indices();
    assert!(!selectors.is_empty());
    assert!(selectors.iter().all(|c| *c < zkp::epoch_processing_air::NUM_COLUMNS));
    assert_eq!(cs.padding_selector_column(), None);
    let labels = cs.constraint_labels();
    let mut distinct = labels.clone();
    distinct.sort();
    distinct.dedup();
    assert_eq!(distinct.len(), labels.len());
    assert_eq!(labels.len(), zkp::epoch_processing_air::NUM_ROW_CONSTRAINTS);
    let lookups = cs.lookup_declarations();
    assert_eq!(lookups.declarations.len(), 88);
    assert_eq!(lookups.tables.len(), 1);
}

#[test]
fn eth1_data_voting_polynomial_agrees_with_the_point() {
    let cs = zkp::eth1_data_voting_air::Eth1DataVotingConstraintSystem::new(4);
    let (alpha, z) = (small(5), small(123));
    let cols = columns(zkp::eth1_data_voting_air::NUM_COLUMNS);
    let p = cs.build_constraint_polynomial(&cols, &alpha, 8);
    let direct = cs.evaluate_at_point(&evaluations(&cols, &z), &alpha);
    assert!(!direct.is_zero());
    assert_eq!(at(&p, &z).to_bytes(), direct.to_bytes());
}

#[test]
fn eth1_data_voting_without_enough_columns_is_zero_at_a_point() {
    let cs = zkp::eth1_data_voting_air::Eth1DataVotingConstraintSystem::new(4);
    let row = vec![small(3); zkp::eth1_data_voting_air::NUM_COLUMNS - 1];
    assert!(cs.evaluate_at_point(&row, &small(5)).is_zero());
}

#[test]
fn eth1_data_voting_padding_is_cleared() {
    let curve = CurveType::Bls48581;
    let cs = zkp::eth1_data_voting_air::Eth1DataVotingConstraintSystem::new(1);
    let mut cols = vec![vec![Scalar::from_u64(9, curve); 4]; zkp::eth1_data_voting_air::NUM_COLUMNS];
    cs.fix_trace_padding(&mut cols, 1, 4);
    for c in &cols {
        assert_eq!(c.iter().map(|x| x.to_u64()).collect::<Vec<u64>>(), vec![9, 0, 0, 0]);
    }
}

#[test]
fn eth1_data_voting_shape() {
    let cs = zkp::eth1_data_voting_air::Eth1DataVotingConstraintSystem::new(4).with_omega_and_domain(small(7), 4);
    assert_eq!(cs.num_rows, 4);
    assert_eq!(cs.domain_size, Some(4));
    assert_eq!(cs.omega.unwrap().to_u64(), 7);
    let cs = zkp::eth1_data_voting_air::Eth1DataVotingConstraintSystem::new(4);
    assert_eq!(cs.num_constraints(), zkp::eth1_data_voting_air::NUM_ROW_CONSTRAINTS);
    let selectors = cs.selector_column_indices();
    assert!(!selectors.is_empty());
    assert!(selectors.iter().all(|c| *c < zkp::eth1_data_voting_air::NUM_COLUMNS));
    assert_eq!(cs.padding_selector_column(), None);
    let labels = cs.constraint_labels();
    let mut distinct = labels.clone();
    distinct.sort();
    distinct.dedup();
    assert_eq!(distinct.len(), labels.len());
    assert_eq!(labels.len(), zkp::eth1_data_voting_air::NUM_ROW_CONSTRAINTS);
    let lookups = cs.lookup_declarations();
    assert_eq!(lookups.declarations.len(), 112);
    assert_eq!(lookups.tables.len(), 1);
}

#[test]
fn create2_input_polynomial_agrees_with_the_point() {
    let cs = zkp::evm_create2_input_air::Create2InputConstraintSystem::new(4);
    let (alpha, z) = (small(5), small(123));
    let cols = columns(zkp::evm_create2_input_air::NUM_COLUMNS);
    let p = cs.build_constraint_polynomial(&cols, &alpha, 8);
    let direct = cs.evaluate_at_point(&evaluations(&cols, &z), &alpha);
    assert!(!direct.is_zero());
    assert_eq!(at(&p, &z).to_bytes(), direct.to_bytes());
}

#[test]
fn create2_input_without_enough_columns_is_zero_at_a_point() {
    let cs = zkp::evm_create2_input_air::Create2InputConstraintSystem::new(4);
    let row = vec![small(3); zkp::evm_create2_input_air::NUM_COLUMNS - 1];
    assert!(cs.evaluate_at_point(&row, &small(5)).is_zero());
}

#[test]
fn create2_input_padding_is_cleared() {
    let curve = CurveType::Bls48581;
    let cs = zkp::evm_create2_input_air::Create2InputConstraintSystem::new(1);
    let mut cols = vec![vec![Scalar::from_u64(9, curve); 4]; zkp::evm_create2_input_air::NUM_COLUMNS];
    cs.fix_trace_padding(&mut cols, 1, 4);
    for c in &cols {
        assert_eq!(c.iter().map(|x| x.to_u64()).collect::<Vec<u64>>(), vec![9, 0, 0, 0]);
    }
}

#[test]
fn create2_input_shape() {
    let cs = zkp::evm_create2_input_air::Create2InputConstraintSystem::new(4).with_omega_and_domain(small(7), 4);
    assert_eq!(cs.num_rows, 4);
    assert_eq!(cs.domain_size, Some(4));
    assert_eq!(cs.omega.unwrap().to_u64(), 7);
    let cs = zkp::evm_create2_input_air::Create2InputConstraintSystem::new(4);
    assert_eq!(cs.num_constraints(), zkp::evm_create2_input_air::NUM_ROW_CONSTRAINTS);
    let selectors = cs.selector_column_indices();
    assert!(!selectors.is_empty());
    assert!(selectors.iter().all(|c| *c < zkp::evm_create2_input_air::NUM_COLUMNS));
    assert_eq!(cs.padding_selector_column(), None);
    let labels = cs.constraint_labels();
    let mut distinct = labels.clone();
    distinct.sort();
    distinct.dedup();
    assert_eq!(distinct.len(), labels.len());
    assert_eq!(labels.len(), zkp::evm_create2_input_air::NUM_ROW_CONSTRAINTS);
    let lookups = cs.lookup_declarations();
    assert_eq!(lookups.declarations.len(), 0);
    assert_eq!(lookups.tables.len(), 0);
}

#[test]
fn create_rlp_polynomial_agrees_with_the_point() {
    let cs = zkp::evm_create_rlp_air::CreateRlpConstraintSystem::new(4);
    let (alpha, z) = (small(5), small(123));
    let cols = columns(zkp::evm_create_rlp_air::NUM_COLUMNS);
    let p = cs.build_constraint_polynomial(&cols, &alpha, 8);
    let direct = cs.evaluate_at_point(&evaluations(&cols, &z), &alpha);
    assert!(!direct.is_zero());
    assert_eq!(at(&p, &z).to_bytes(), direct.to_bytes());
}

#[test]
fn create_rlp_without_enough_columns_is_zero_at_a_point() {
    let cs = zkp::evm_create_rlp_air::CreateRlpConstraintSystem::new(4);
    let row = vec![small(3); zkp::evm_create_rlp_air::NUM_COLUMNS - 1];
    assert!(cs.evaluate_at_point(&row, &small(5)).is_zero());
}

#[test]
fn create_rlp_padding_is_cleared() {
    let curve = CurveType::Bls48581;
    let cs = zkp::evm_create_rlp_air::CreateRlpConstraintSystem::new(1);
    let mut cols = vec![vec![Scalar::from_u64(9, curve); 4]; zkp::evm_create_rlp_air::NUM_COLUMNS];
    cs.fix_trace_padding(&mut cols, 1, 4);
    for c in &cols {
        assert_eq!(c.iter().map(|x| x.to_u64()).collect::<Vec<u64>>(), vec![9, 0, 0, 0]);
    }
}

#[test]
fn create_rlp_shape() {
    let cs = zkp::evm_create_rlp_air::CreateRlpConstraintSystem::new(4).with_omega_and_domain(small(7), 4);
    assert_eq!(cs.num_rows, 4);
    assert_eq!(cs.domain_size, Some(4));
    assert_eq!(cs.omega.unwrap().to_u64(), 7);
    let cs = zkp::evm_create_rlp_air::CreateRlpConstraintSystem::new(4);
    assert_eq!(cs.num_constraints(), zkp::evm_create_rlp_air::NUM_ROW_CONSTRAINTS);
    let selectors = cs.selector_column_indices();
    assert!(!selectors.is_empty());
    assert!(selectors.iter().all(|c| *c < zkp::evm_create_rlp_air::NUM_COLUMNS));
    assert_eq!(cs.padding_selector_column(), None);
    let labels = cs.constraint_labels();
    let mut distinct = labels.clone();
    distinct.sort();
    distinct.dedup();
    assert_eq!(distinct.len(), labels.len());
    assert_eq!(labels.len(), zkp::evm_create_rlp_air::NUM_ROW_CONSTRAINTS);
    let lookups = cs.lookup_declarations();
    assert_eq!(lookups.declarations.len(), 0);
    assert_eq!(lookups.tables.len(), 0);
}

#[test]
fn payload_pair_polynomial_agrees_with_the_point() {
    let cs = zkp::execution_payload_pair_air::ExecutionPayloadHeaderPairConstraintSystem::new(4);
    let (alpha, z) = (small(5), small(123));
    let cols = columns(zkp::execution_payload_pair_air::NUM_COLUMNS);
    let p = cs.build_constraint_polynomial(&cols, &alpha, 8);
    let direct = cs.evaluate_at_point(&evaluations(&cols, &z), &alpha);
    assert!(!direct.is_zero());
    assert_eq!(at(&p, &z).to_bytes(), direct.to_bytes());
}

#[test]
fn payload_pair_without_enough_columns_is_zero_at_a_point() {
    let cs = zkp::execution_payload_pair_air::ExecutionPayloadHeaderPairConstraintSystem::new(4);
    let row = vec![small(3); zkp::execution_payload_pair_air::NUM_COLUMNS - 1];
    assert!(cs.evaluate_at_point(&row, &small(5)).is_zero());
}

#[test]
fn payload_pair_padding_is_cleared() {
    let curve = CurveType::Bls48581;
    let cs = zkp::execution_payload_pair_air::ExecutionPayloadHeaderPairConstraintSystem::new(1);
    let mut cols = vec![vec![Scalar::from_u64(9, curve); 4]; zkp::execution_payload_pair_air::NUM_COLUMNS];
    cs.fix_trace_padding(&mut cols, 1, 4);
    for c in &cols {
        assert_eq!(c.iter().map(|x| x.to_u64()).collect::<Vec<u64>>(), vec![9, 0, 0, 0]);
    }
}

#[test]
fn payload_pair_shape() {
    let cs = zkp::execution_payload_pair_air::ExecutionPayloadHeaderPairConstraintSystem::new(4).with_omega_and_domain(small(7), 4);
    assert_eq!(cs.num_rows, 4);
    assert_eq!(cs.domain_size, Some(4));
    assert_eq!(cs.omega.unwrap().to_u64(), 7);
    let cs = zkp::execution_payload_pair_air::ExecutionPayloadHeaderPairConstraintSystem::new(4);
    assert_eq!(cs.num_constraints(), zkp::execution_payload_pair_air::NUM_ROW_CONSTRAINTS);
    let selectors = cs.selector_column_indices();
    assert!(!selectors.is_empty());
    assert!(selectors.iter().all(|c| *c < zkp::execution_payload_pair_air::NUM_COLUMNS));
    assert_eq!(cs.padding_selector_column(), None);
    let labels = cs.constraint_labels();
    let mut distinct = labels.clone();
    distinct.sort();
    distinct.dedup();
    assert_eq!(distinct.len(), labels.len());
    assert_eq!(labels.len(), 20);
}

#[test]
fn final_exp_polynomial_agrees_with_the_point() {
    let cs = zkp::final_exp_air::FinalExpConstraintSystem::new(4);
    let (alpha, z) = (small(5), small(123));
    let cols = columns(zkp::final_exp_air::NUM_COLUMNS);
    let p = cs.build_constraint_polynomial(&cols, &alpha, 8);
    let direct = cs.evaluate_at_point(&evaluations(&cols, &z), &alpha);
    assert!(!direct.is_zero());
    assert_eq!(at(&p, &z).to_bytes(), direct.to_bytes());
}

#[test]
fn final_exp_without_enough_columns_is_zero_at_a_point() {
    let cs = zkp::final_exp_air::FinalExpConstraintSystem::new(4);
    let row = vec![small(3); zkp::final_exp_air::NUM_COLUMNS - 1];
    assert!(cs.evaluate_at_point(&row, &small(5)).is_zero());
}

#[test]
fn final_exp_padding_is_cleared() {
    let curve = CurveType::Bls48581;
    let cs = zkp::final_exp_air::FinalExpConstraintSystem::new(1);
    let mut cols = vec![vec![Scalar::from_u64(9, curve); 4]; zkp::final_exp_air::NUM_COLUMNS];
    cs.fix_trace_padding(&mut cols, 1, 4);
    for c in &cols {
        assert_eq!(c.iter().map(|x| x.to_u64()).collect::<Vec<u64>>(), vec![9, 0, 0, 0]);
    }
}

#[test]
fn final_exp_shape() {
    let cs = zkp::final_exp_air::FinalExpConstraintSystem::new(4).with_omega_and_domain(small(7), 4);
    assert_eq!(cs.num_rows, 4);
    assert_eq!(cs.domain_size, Some(4));
    assert_eq!(cs.omega.unwrap().to_u64(), 7);
    let cs = zkp::final_exp_air::FinalExpConstraintSystem::new(4);
    assert_eq!(cs.num_constraints(), zkp::final_exp_air::NUM_ROW_CONSTRAINTS);
    let selectors = cs.selector_column_indices();
    assert!(!selectors.is_empty());
    assert!(selectors.iter().all(|c| *c < zkp::final_exp_air::NUM_COLUMNS));
    assert_eq!(cs.padding_selector_column(), None);
    let labels = cs.constraint_labels();
    let mut distinct = labels.clone();
    distinct.sort();
    distinct.dedup();
    assert_eq!(distinct.len(), labels.len());
    assert_eq!(labels.len(), zkp::final_exp_air::NUM_ROW_CONSTRAINTS);
    let lookups = cs.lookup_declarations();
    assert_eq!(lookups.declarations.len(), 0);
    assert_eq!(lookups.tables.len(), 0);
}

#[test]
fn byte_columns_of_epoch_processing_are_declared_in_order() {
    let r = zkp::epoch_processing_air::EpochProcessingConstraintSystem::new(1).lookup_declarations();
    assert_eq!(r.tables[0].size, 256);
    assert_eq!(r.declarations[0].0.label, "vi_byte_0_8bit");
    assert_eq!(
        r.declarations[0].0.column_index,
        zkp::epoch_processing_air::COL_VALIDATOR_INDEX + 1,
    );
    assert_eq!(r.declarations[87].0.label, "slack_down_byte_7_8bit");
    assert!(r.declarations.iter().all(|d| d.0.max_bits == 8 && d.1 == 0));
}

#[test]
fn payload_pair_two_row_polynomial_agrees_with_the_point() {
    let cs = pair::ExecutionPayloadHeaderPairConstraintSystem::new(4);
    let (alpha, z, omega) = (small(5), small(123), small(11));
    let cols = columns(pair::NUM_COLUMNS);
    let p = cs.build_shifted_constraint_polynomial(&cols, &alpha, 4, &omega, 3);
    let next = z.mul(&omega);
    let indices = cs.shifted_column_indices();
    assert_eq!(indices.len(), pair::NUM_SHIFTED_COLUMNS);
    let shifted: Vec<Scalar> = indices.iter().map(|c| at(&cols[*c], &next)).collect();
    let last = omega.mul(&omega).mul(&omega);
    let row = evaluations(&cols, &z);
    let direct = cs.evaluate_shifted_at_point(&row, &shifted, &z, &last, &alpha, 3);
    assert!(!direct.is_zero());
    assert_eq!(at(&p, &z).to_bytes(), direct.to_bytes());
    assert!(cs.evaluate_shifted_at_point(&row, &shifted, &last, &last, &alpha, 3).is_zero());
    assert!(cs.evaluate_shifted_at_point(&row, &shifted[1..], &z, &last, &alpha, 3).is_zero());
    assert_eq!(cs.num_shifted_constraints(), pair::NUM_SHIFTED);
}

#[test]
fn payload_pair_honest_rows_and_steps_vanish() {
    let mut p = zkp::execution_payload::ExecutionPayloadHeader::default();
    p.block_hash = [0xab; 32];
    p.logs_bloom = [0xcd; 256];
    p.extra_data = vec![1, 2, 3];
    p.timestamp = 1_700_000_000;
    let w = zkp::execution_payload_air::ExecutionPayloadHeaderHtrWitness::from_payload(p);
    let t = pair::build_trace_polynomials(&w, CURVE);
    let cs = pair::ExecutionPayloadHeaderPairConstraintSystem::new(t.num_rows);
    let refs: Vec<&Vec<Scalar>> = t.columns.iter().map(|c| &c.evaluations).collect();
    let values = cs.evaluate_on_domain(&refs, t.num_rows);
    assert_eq!(values.len(), pair::NUM_ROW_CONSTRAINTS);
    for (i, column) in values.iter().enumerate() {
        assert_eq!(column.len(), 32);
        for (r, v) in column.iter().enumerate() {
            assert!(v.is_zero(), "constraint {} on row {}", i, r);
        }
    }
    let indices = cs.shifted_column_indices();
    let (z, last, alpha) = (small(3), small(1), small(5));
    for r in 0..31 {
        let row: Vec<Scalar> = refs.iter().map(|c| c[r]).collect();
        let next: Vec<Scalar> = indices.iter().map(|c| refs[*c][r + 1]).collect();
        let v = cs.evaluate_shifted_at_point(&row, &next, &z, &last, &alpha, 0);
        assert!(v.is_zero(), "step from row {}", r);
    }
    let mut row: Vec<Scalar> = refs.iter().map(|c| c[0]).collect();
    let next: Vec<Scalar> = indices.iter().map(|c| refs[*c][1]).collect();
    row[pair::COL_CLAIMED_ROOT_OFFSET] = small(1000);
    assert!(!cs.evaluate_shifted_at_point(&row, &next, &z, &last, &alpha, 0).is_zero());
}

#[test]
fn payload_pair_byte_columns_are_declared() {
    let r = pair::ExecutionPayloadHeaderPairConstraintSystem::new(1).lookup_declarations();
    assert_eq!(r.tables.len(), 1);
    assert_eq!(r.tables[0].size, 256);
    let mut columns: Vec<usize> = r.declarations.iter().map(|d| d.0.column_index).collect();
    let n = columns.len();
    columns.sort();
    columns.dedup();
    assert_eq!(columns.len(), n);
    assert!(columns.iter().all(|c| *c < pair::NUM_COLUMNS));
    let labels: Vec<String> = r.declarations.iter().map(|d| d.0.label.clone()).collect();
    assert!(labels.iter().any(|l| l.ends_with("_31_8bit")));
}

#[test]
fn output_columns_of_the_claimed_roots() {
    let logs = pair::make_payload_pair_logs_bloom_root_output_column_indices();
    let extra = pair::make_payload_pair_extra_data_root_output_column_indices();
    for k in 0..32 {
        assert_eq!(logs[k], pair::COL_CLAIMED_LOGS_BLOOM_ROOT_OFFSET + k);
        assert_eq!(extra[k], pair::COL_CLAIMED_EXTRA_DATA_ROOT_OFFSET + k);
    }
}

#[test]
fn create2_link_to_the_main_trace() {
    let d = create2::make_evm_main_create2_input_linkage_descriptor(0, 1, 100, 200, 300, 50);
    assert_eq!(d.a_columns.len(), d.b_columns.len());
    assert_eq!(d.a_columns[0], 100);
    assert_eq!(d.b_columns[0], create2::COL_SENDER_LIMB_OFFSET);
    assert_eq!(d.a_selector_column, Some(50));
    assert_eq!(d.b_selector_column, Some(create2::COL_IS_REAL));
}

#[test]
fn selectors_of_final_exp_exclude_each_other() {
    let cs = fe::FinalExpConstraintSystem::new(1);
    assert_eq!(cs.selector_column_indices(), vec![fe::COL_IS_EASY_STEP, fe::COL_IS_HARD_STEP]);
    assert_eq!(cs.num_shifted_constraints(), fe::NUM_SHIFTED);
}

#[test]
fn columns_that_no_constraint_reads_may_lie_on_another_curve() {
    let cs = zkp::epoch_processing_air::EpochProcessingConstraintSystem::new(4);
    let (alpha, z) = (small(5), small(123));
    let cols = columns(zkp::epoch_processing_air::NUM_COLUMNS);
    let row = evaluations(&cols, &z);
    let direct = cs.evaluate_at_point(&row, &alpha);
    let unread = zkp::epoch_processing_air::COL_EB_STEP_COUNT_BYTE_OFFSET;
    let other = Scalar::one(CurveType::Bls48581);
    let mut mixed = row.clone();
    mixed[unread] = other;
    mixed.push(other);
    assert_eq!(cs.evaluate_at_point(&mixed, &alpha).to_bytes(), direct.to_bytes());
    let mut mixed_cols = cols.clone();
    mixed_cols[unread] = vec![other; 2];
    let p = cs.build_constraint_polynomial(&mixed_cols, &alpha, 8);
    assert_eq!(at(&p, &z).to_bytes(), direct.to_bytes());
    let few = cs.evaluate_at_point(&[other], &alpha);
    assert!(few.is_zero());
    assert_eq!(few.curve_type(), CURVE);
}

#[test]
fn eth1_data_link_up_to_the_last_column() {
    let from = usize::MAX - 71;
    let d = zkp::eth1_data_voting_air::make_eth1_data_to_bbb_descriptor(0, 1, from, 7);
    assert_eq!(d.b_columns.len(), 72);
    assert_eq!(d.b_columns[0], from);
    assert_eq!(d.b_columns[71], usize::MAX);
}

#[test]
fn polynomials_do_not_depend_on_the_domain() {
    let alpha = small(5);
    let cols = columns(zkp::epoch_processing_air::NUM_COLUMNS);
    let cs = zkp::epoch_processing_air::EpochProcessingConstraintSystem::new(4);
    let p = cs.build_constraint_polynomial(&cols, &alpha, 4);
    let q = cs.build_constraint_polynomial(&cols, &alpha, 1024);
    assert_eq!(p.len(), q.len());
    for (x, y) in p.iter().zip(q.iter()) {
        assert_eq!(x.to_bytes(), y.to_bytes());
    }
}

#[test]
fn a_point_is_the_weighted_sum_of_a_row() {
    let alpha = small(5);
    let cols = columns(zkp::epoch_processing_air::NUM_COLUMNS);
    let refs: Vec<&Vec<Scalar>> = cols.iter().collect();
    let cs = zkp::epoch_processing_air::EpochProcessingConstraintSystem::new(2);
    let bodies = cs.evaluate_on_domain(&refs, 2);
    for j in 0..2 {
        let row: Vec<Scalar> = cols.iter().map(|c| c[j]).collect();
        let values: Vec<Scalar> = bodies.iter().map(|b| b[j]).collect();
        let direct = cs.evaluate_at_point(&row, &alpha);
        assert!(!direct.is_zero());
        assert_eq!(at(&values, &alpha).to_bytes(), direct.to_bytes());
    }
}

#[test]
fn two_row_constraints_vanish_at_the_last_point() {
    let cs = pair::ExecutionPayloadHeaderPairConstraintSystem::new(4);
    let (alpha, omega) = (small(5), small(11));
    let cols = columns(pair::NUM_COLUMNS);
    let last = omega.mul(&omega).mul(&omega);
    let p = cs.build_shifted_constraint_polynomial(&cols, &alpha, 4, &omega, 3);
    assert!(at(&p, &last).is_zero());
    assert!(!at(&p, &small(123)).is_zero());
}
