use zkp::eth1_data_voting_air::{
    COL_BLOCK_HASH_OFFSET, COL_DEPOSIT_COUNT, COL_DEPOSIT_COUNT_BYTES_OFFSET,
    COL_DEPOSIT_ROOT_OFFSET, COL_ETH1_DATA_HTR_OFFSET, COL_IS_REAL, COL_IS_WINNING_VOTE, COL_SLOT,
    COL_SLOT_BYTES_OFFSET, COL_VOTE_COUNT, COL_VOTE_COUNT_THRESHOLD, COL_VOTE_MARGIN,
    DEPOSIT_ROOT_LEN, Eth1DataLite, Eth1DataVotingConstraintSystem, HTR_LEN, NUM_COLUMNS,
    NUM_ROW_CONSTRAINTS, build_trace_polynomials, from_eth1_data,
    make_eth1_data_to_bbb_descriptor, make_eth1_data_to_deposit_tree_descriptor,
    make_eth1_data_to_htr_descriptor,
};
use zkp::field::{CurveType, Scalar};

fn sample_data() -> Eth1DataLite {
    Eth1DataLite {
        deposit_root: [0xab; 32],
        deposit_count: 0x0102_0304_0506_0708,
        block_hash: [0xcd; 32],
    }
}

#[test]
fn mod_column_layout_pinned() {
    assert_eq!(COL_DEPOSIT_ROOT_OFFSET, 0);
    assert_eq!(COL_DEPOSIT_COUNT_BYTES_OFFSET, 32);
    assert_eq!(COL_DEPOSIT_COUNT, 40);
    assert_eq!(COL_BLOCK_HASH_OFFSET, 41);
    assert_eq!(COL_VOTE_COUNT, 73);
    assert_eq!(COL_VOTE_COUNT_THRESHOLD, 74);
    assert_eq!(COL_VOTE_MARGIN, 75);
    assert_eq!(COL_SLOT_BYTES_OFFSET, 76);
    assert_eq!(COL_SLOT, 84);
    assert_eq!(COL_ETH1_DATA_HTR_OFFSET, 85);
    assert_eq!(COL_IS_WINNING_VOTE, 117);
    assert_eq!(COL_IS_REAL, 118);
    assert_eq!(NUM_COLUMNS, 119);
    assert_eq!(NUM_ROW_CONSTRAINTS, 6);
}

#[test]
fn constraints_zero_on_honest_winning_vote() {
    let w = from_eth1_data(sample_data(), 12_345, 40, 64);
    let trace = build_trace_polynomials(&w, CurveType::Bls48581);
    let cs = Eth1DataVotingConstraintSystem::new(trace.num_rows);
    let col_refs: Vec<&Vec<Scalar>> =
        trace.columns.iter().map(|p| &p.evaluations).collect();
    let results = cs.evaluate_on_domain(&col_refs, trace.num_rows);
    assert_eq!(results.len(), NUM_ROW_CONSTRAINTS);
    for (i, col) in results.iter().enumerate() {
        for (r, val) in col.iter().enumerate() {
            assert!(
                val.is_zero(),
                "constraint {} row {} = {:?}, expected zero",
                i, r, val.to_u64(),
            );
        }
    }
    assert_eq!(
        trace.columns[COL_IS_WINNING_VOTE].evaluations[0].to_u64(),
        1,
    );
}

#[test]
fn losing_vote_records_zero_winning_selector() {
    let w = from_eth1_data(sample_data(), 12_345, 10, 64);
    assert!(!w.observations[0].is_winning_vote);
    let trace = build_trace_polynomials(&w, CurveType::Bls48581);
    let cs = Eth1DataVotingConstraintSystem::new(trace.num_rows);
    let col_refs: Vec<&Vec<Scalar>> =
        trace.columns.iter().map(|p| &p.evaluations).collect();
    let results = cs.evaluate_on_domain(&col_refs, trace.num_rows);
    for (i, col) in results.iter().enumerate() {
        for (r, val) in col.iter().enumerate() {
            assert!(
                val.is_zero(),
                "constraint {} row {} = {:?} (losing-vote witness)",
                i, r, val.to_u64(),
            );
        }
    }
    assert_eq!(
        trace.columns[COL_IS_WINNING_VOTE].evaluations[0].to_u64(),
        0,
    );
}

#[test]
fn tampered_winning_margin_fires_constraint() {
    let w = from_eth1_data(sample_data(), 12_345, 40, 64);
    let trace = build_trace_polynomials(&w, CurveType::Bls48581);
    let mut cols: Vec<Vec<Scalar>> =
        trace.columns.iter().map(|p| p.evaluations.clone()).collect();
    cols[COL_VOTE_MARGIN][0] = Scalar::from_u64(7, CurveType::Bls48581);
    let cs = Eth1DataVotingConstraintSystem::new(trace.num_rows);
    let col_refs: Vec<&Vec<Scalar>> = cols.iter().collect();
    let results = cs.evaluate_on_domain(&col_refs, trace.num_rows);
    assert!(
        !results[4][0].is_zero(),
        "winning_vote_margin_eq must fire on tampered margin",
    );
}

#[test]
fn tampered_deposit_count_byte_fires_le_decomp() {
    let w = from_eth1_data(sample_data(), 7, 40, 64);
    let trace = build_trace_polynomials(&w, CurveType::Bls48581);
    let mut cols: Vec<Vec<Scalar>> =
        trace.columns.iter().map(|p| p.evaluations.clone()).collect();
    cols[COL_DEPOSIT_COUNT_BYTES_OFFSET][0] =
        Scalar::from_u64(0xff, CurveType::Bls48581);
    let cs = Eth1DataVotingConstraintSystem::new(trace.num_rows);
    let col_refs: Vec<&Vec<Scalar>> = cols.iter().collect();
    let results = cs.evaluate_on_domain(&col_refs, trace.num_rows);
    assert!(
        !results[2][0].is_zero(),
        "deposit_count LE decomp must fire on tampered byte",
    );
}

#[test]
fn tampered_is_real_winning_fires_implication() {
    let w = from_eth1_data(sample_data(), 7, 40, 64);
    let trace = build_trace_polynomials(&w, CurveType::Bls48581);
    let mut cols: Vec<Vec<Scalar>> =
        trace.columns.iter().map(|p| p.evaluations.clone()).collect();
    cols[COL_IS_REAL][0] = Scalar::zero(CurveType::Bls48581);
    let cs = Eth1DataVotingConstraintSystem::new(trace.num_rows);
    let col_refs: Vec<&Vec<Scalar>> = cols.iter().collect();
    let results = cs.evaluate_on_domain(&col_refs, trace.num_rows);
    assert!(
        !results[5][0].is_zero(),
        "winning_implies_real must fire",
    );
}

#[test]
fn mod_descriptors_well_formed() {
    let d1 = make_eth1_data_to_deposit_tree_descriptor(0, 1);
    assert_eq!(d1.label, "eth1_data_to_deposit_tree_v1");
    assert_eq!(d1.a_columns.len(), 32);
    assert_eq!(d1.b_columns.len(), 32);
    for k in 0..DEPOSIT_ROOT_LEN {
        assert_eq!(d1.a_columns[k], COL_DEPOSIT_ROOT_OFFSET + k);
        assert_eq!(
            d1.b_columns[k],
            zkp::deposit_tree_air::COL_DEPOSIT_ROOT_OFFSET + k,
        );
    }

    let d2 = make_eth1_data_to_bbb_descriptor(0, 2, 500, 999);
    assert_eq!(d2.label, "eth1_data_to_bbb_v1");
    assert_eq!(d2.a_columns.len(), 32 + 8 + 32);
    assert_eq!(d2.b_columns.len(), 32 + 8 + 32);
    assert_eq!(d2.b_selector_column, Some(999));
    assert_eq!(d2.a_columns[0], COL_DEPOSIT_ROOT_OFFSET);
    assert_eq!(d2.a_columns[31], COL_DEPOSIT_ROOT_OFFSET + 31);
    assert_eq!(d2.a_columns[32], COL_DEPOSIT_COUNT_BYTES_OFFSET);
    assert_eq!(d2.a_columns[39], COL_DEPOSIT_COUNT_BYTES_OFFSET + 7);
    assert_eq!(d2.a_columns[40], COL_BLOCK_HASH_OFFSET);
    assert_eq!(d2.a_columns[71], COL_BLOCK_HASH_OFFSET + 31);
    for k in 0..72 {
        assert_eq!(d2.b_columns[k], 500 + k);
    }

    let d3 = make_eth1_data_to_htr_descriptor(0, 3);
    assert_eq!(d3.label, "eth1_data_to_htr_v1");
    assert_eq!(d3.a_columns.len(), 32);
    assert_eq!(d3.b_columns.len(), 32);
    for k in 0..HTR_LEN {
        assert_eq!(d3.a_columns[k], COL_ETH1_DATA_HTR_OFFSET + k);
        assert_eq!(
            d3.b_columns[k],
            zkp::sha256_extract::COL_OUTPUT_BYTE_OFFSET + k,
        );
    }
}

#[test]
fn htr_matches_manual_4_leaf_merkleization() {
    let data = sample_data();
    let computed = data.hash_tree_root();

    let mut count_leaf = [0u8; 32];
    count_leaf[..8].copy_from_slice(&data.deposit_count.to_le_bytes());
    let zero = [0u8; 32];
    let left = zkp::sha256::sha256_pair(&data.deposit_root, &count_leaf);
    let right = zkp::sha256::sha256_pair(&data.block_hash, &zero);
    let expected = zkp::sha256::sha256_pair(&left, &right);
    assert_eq!(computed, expected);
}

#[test]
fn from_eth1_data_threshold_boundary_loses() {
    let w = from_eth1_data(sample_data(), 1, 32, 64);
    assert!(!w.observations[0].is_winning_vote);
    assert_eq!(w.observations[0].vote_count_threshold, 32);
}

#[test]
fn deposit_count_byte_order_is_little_endian() {
    let data = Eth1DataLite {
        deposit_root: [0; 32],
        deposit_count: 0x0102_0304_0506_0708,
        block_hash: [0; 32],
    };
    let w = from_eth1_data(data, 0, 0, 64);
    let trace = build_trace_polynomials(&w, CurveType::Bls48581);
    assert_eq!(
        trace.columns[COL_DEPOSIT_COUNT_BYTES_OFFSET].evaluations[0].to_u64(),
        0x08,
    );
    assert_eq!(
        trace.columns[COL_DEPOSIT_COUNT_BYTES_OFFSET + 7].evaluations[0].to_u64(),
        0x01,
    );
}
