use zkp::execution_payload::ExecutionPayloadHeader;
use zkp::execution_payload_air::ExecutionPayloadHeaderHtrWitness;
use zkp::execution_payload_pair_air::{
    BLOCK_HASH_LEFT_INVOCATION, COL_CLAIMED_BLOCK_HASH_OFFSET, COL_CLAIMED_EXTRA_DATA_ROOT_OFFSET,
    COL_CLAIMED_LOGS_BLOOM_ROOT_OFFSET, COL_CLAIMED_ROOT_OFFSET, COL_HASH_OFFSET,
    COL_IS_BLOCK_HASH_BOUND_AT, COL_IS_EXTRA_DATA_LEAF_BOUND_AT, COL_IS_LOGS_BLOOM_LEAF_BOUND_AT,
    COL_IS_REAL, COL_IS_ROOT_BOUND_AT, COL_LEFT_OFFSET, COL_RIGHT_OFFSET,
    EXTRA_DATA_LEFT_INVOCATION, ExecutionPayloadHeaderPairConstraintSystem,
    LOGS_BLOOM_LEFT_INVOCATION, ROOT_INVOCATION_INDEX, build_trace_polynomials,
    make_payload_pair_block_hash_output_column_indices,
    make_payload_pair_root_output_column_indices,
    make_payload_pair_to_block_header_linkage_descriptor,
    make_payload_pair_to_sha256_extract_linkage_descriptor,
};
use zkp::field::{CurveType, Scalar};

fn sample_payload() -> ExecutionPayloadHeader {
    let mut p = ExecutionPayloadHeader::default();
    p.parent_hash = [0x11u8; 32];
    p.state_root = [0x22u8; 32];
    p.receipts_root = [0x33u8; 32];
    p.block_hash = [0xabu8; 32];
    p.block_number = 19_000_000;
    p.gas_limit = 30_000_000;
    p.timestamp = 1_700_000_000;
    p
}

#[test]
fn trace_builder_populates_20_real_rows() {
    let w = ExecutionPayloadHeaderHtrWitness::from_payload(sample_payload());
    let trace = build_trace_polynomials(&w, CurveType::Bls48581);
    assert_eq!(trace.num_rows, 20);
    assert_eq!(trace.padded_size, 32);
    for r in 0..20 {
        assert_eq!(trace.columns[COL_IS_REAL].evaluations[r].to_u64(), 1);
    }
    for r in 20..32 {
        assert!(trace.columns[COL_IS_REAL].evaluations[r].is_zero());
    }
}

#[test]
fn pair_rows_match_witness_invocations() {
    let w = ExecutionPayloadHeaderHtrWitness::from_payload(sample_payload());
    let trace = build_trace_polynomials(&w, CurveType::Bls48581);
    for (r, inv) in w.invocations.iter().enumerate() {
        for k in 0..32 {
            assert_eq!(
                trace.columns[COL_LEFT_OFFSET + k].evaluations[r].to_u64(),
                inv.left[k] as u64,
            );
            assert_eq!(
                trace.columns[COL_RIGHT_OFFSET + k].evaluations[r].to_u64(),
                inv.right[k] as u64,
            );
            assert_eq!(
                trace.columns[COL_HASH_OFFSET + k].evaluations[r].to_u64(),
                inv.hash[k] as u64,
            );
        }
    }
}

#[test]
fn is_real_binary_zero_on_honest_witness() {
    let w = ExecutionPayloadHeaderHtrWitness::from_payload(sample_payload());
    let trace = build_trace_polynomials(&w, CurveType::Bls48581);
    let cs = ExecutionPayloadHeaderPairConstraintSystem::new(trace.num_rows);
    let col_refs: Vec<&Vec<Scalar>> =
        trace.columns.iter().map(|p| &p.evaluations).collect();
    let res = cs.evaluate_on_domain(&col_refs, trace.num_rows);
    for v in &res[0] {
        assert!(v.is_zero());
    }
}

#[test]
fn is_real_binary_fires_on_tampered_selector() {
    let w = ExecutionPayloadHeaderHtrWitness::from_payload(sample_payload());
    let trace = build_trace_polynomials(&w, CurveType::Bls48581);
    let mut cols: Vec<Vec<Scalar>> =
        trace.columns.iter().map(|p| p.evaluations.clone()).collect();
    cols[COL_IS_REAL][0] = Scalar::from_u64(7, CurveType::Bls48581);
    let cs = ExecutionPayloadHeaderPairConstraintSystem::new(trace.num_rows);
    let col_refs: Vec<&Vec<Scalar>> = cols.iter().collect();
    let res = cs.evaluate_on_domain(&col_refs, trace.num_rows);
    assert!(!res[0][0].is_zero());
}

#[test]
fn claimed_root_populated_and_constant() {
    let w = ExecutionPayloadHeaderHtrWitness::from_payload(sample_payload());
    let trace = build_trace_polynomials(&w, CurveType::Bls48581);
    let root = w.root;
    for r in 0..trace.num_rows {
        for k in 0..32 {
            assert_eq!(
                trace.columns[COL_CLAIMED_ROOT_OFFSET + k].evaluations[r].to_u64(),
                root[k] as u64,
            );
        }
    }
    assert_eq!(
        trace.columns[COL_IS_ROOT_BOUND_AT].evaluations[ROOT_INVOCATION_INDEX].to_u64(),
        1,
    );
    for r in 0..32 {
        if r != ROOT_INVOCATION_INDEX {
            assert!(trace.columns[COL_IS_ROOT_BOUND_AT].evaluations[r].is_zero());
        }
    }
}

#[test]
fn claimed_block_hash_populated_and_constant() {
    let w = ExecutionPayloadHeaderHtrWitness::from_payload(sample_payload());
    let trace = build_trace_polynomials(&w, CurveType::Bls48581);
    for r in 0..trace.num_rows {
        for k in 0..32 {
            assert_eq!(
                trace.columns[COL_CLAIMED_BLOCK_HASH_OFFSET + k].evaluations[r].to_u64(),
                0xab,
            );
        }
    }
    assert_eq!(
        trace.columns[COL_IS_BLOCK_HASH_BOUND_AT].evaluations[BLOCK_HASH_LEFT_INVOCATION].to_u64(),
        1,
    );
    for k in 0..32 {
        assert_eq!(
            trace.columns[COL_LEFT_OFFSET + k].evaluations[BLOCK_HASH_LEFT_INVOCATION].to_u64(),
            0xab,
        );
    }
}

#[test]
fn hash_eq_claimed_root_fires_on_tamper() {
    let w = ExecutionPayloadHeaderHtrWitness::from_payload(sample_payload());
    let trace = build_trace_polynomials(&w, CurveType::Bls48581);
    let mut cols: Vec<Vec<Scalar>> =
        trace.columns.iter().map(|p| p.evaluations.clone()).collect();
    cols[COL_CLAIMED_ROOT_OFFSET][ROOT_INVOCATION_INDEX] =
        Scalar::from_u64(0xff, CurveType::Bls48581);
    let cs = ExecutionPayloadHeaderPairConstraintSystem::new(trace.num_rows);
    let col_refs: Vec<&Vec<Scalar>> = cols.iter().collect();
    let res = cs.evaluate_on_domain(&col_refs, trace.num_rows);
    assert!(!res[2][ROOT_INVOCATION_INDEX].is_zero());
}

#[test]
fn left_eq_claimed_block_hash_fires_on_tamper() {
    let w = ExecutionPayloadHeaderHtrWitness::from_payload(sample_payload());
    let trace = build_trace_polynomials(&w, CurveType::Bls48581);
    let mut cols: Vec<Vec<Scalar>> =
        trace.columns.iter().map(|p| p.evaluations.clone()).collect();
    cols[COL_CLAIMED_BLOCK_HASH_OFFSET][BLOCK_HASH_LEFT_INVOCATION] =
        Scalar::from_u64(0xff, CurveType::Bls48581);
    let cs = ExecutionPayloadHeaderPairConstraintSystem::new(trace.num_rows);
    let col_refs: Vec<&Vec<Scalar>> = cols.iter().collect();
    let res = cs.evaluate_on_domain(&col_refs, trace.num_rows);
    assert!(!res[4][BLOCK_HASH_LEFT_INVOCATION].is_zero());
}

#[test]
fn claimed_logs_bloom_root_populated_and_constant() {
    let mut p = sample_payload();
    p.logs_bloom = [0xCD; 256];
    let w = ExecutionPayloadHeaderHtrWitness::from_payload(p);
    let trace = build_trace_polynomials(&w, CurveType::Bls48581);
    let expected = w.field_roots[4];
    for r in 0..trace.num_rows {
        for k in 0..32 {
            assert_eq!(
                trace.columns[COL_CLAIMED_LOGS_BLOOM_ROOT_OFFSET + k]
                    .evaluations[r].to_u64(),
                expected[k] as u64,
            );
        }
    }
    assert_eq!(
        trace.columns[COL_IS_LOGS_BLOOM_LEAF_BOUND_AT]
            .evaluations[LOGS_BLOOM_LEFT_INVOCATION].to_u64(),
        1,
    );
    for r in 0..32 {
        if r != LOGS_BLOOM_LEFT_INVOCATION {
            assert!(trace.columns[COL_IS_LOGS_BLOOM_LEAF_BOUND_AT]
                .evaluations[r].is_zero());
        }
    }
}

#[test]
fn claimed_extra_data_root_populated_and_constant() {
    let mut p = sample_payload();
    p.extra_data = vec![0xDE, 0xAD, 0xBE, 0xEF];
    let w = ExecutionPayloadHeaderHtrWitness::from_payload(p);
    let trace = build_trace_polynomials(&w, CurveType::Bls48581);
    let expected = w.field_roots[10];
    for r in 0..trace.num_rows {
        for k in 0..32 {
            assert_eq!(
                trace.columns[COL_CLAIMED_EXTRA_DATA_ROOT_OFFSET + k]
                    .evaluations[r].to_u64(),
                expected[k] as u64,
            );
        }
    }
    assert_eq!(
        trace.columns[COL_IS_EXTRA_DATA_LEAF_BOUND_AT]
            .evaluations[EXTRA_DATA_LEFT_INVOCATION].to_u64(),
        1,
    );
}

#[test]
fn left_eq_claimed_logs_bloom_root_fires_on_tamper() {
    let w = ExecutionPayloadHeaderHtrWitness::from_payload(sample_payload());
    let trace = build_trace_polynomials(&w, CurveType::Bls48581);
    let mut cols: Vec<Vec<Scalar>> =
        trace.columns.iter().map(|p| p.evaluations.clone()).collect();
    cols[COL_CLAIMED_LOGS_BLOOM_ROOT_OFFSET][LOGS_BLOOM_LEFT_INVOCATION] =
        Scalar::from_u64(0xff, CurveType::Bls48581);
    let cs = ExecutionPayloadHeaderPairConstraintSystem::new(trace.num_rows);
    let col_refs: Vec<&Vec<Scalar>> = cols.iter().collect();
    let res = cs.evaluate_on_domain(&col_refs, trace.num_rows);
    assert!(!res[6][LOGS_BLOOM_LEFT_INVOCATION].is_zero());
}

#[test]
fn left_eq_claimed_extra_data_root_fires_on_tamper() {
    let w = ExecutionPayloadHeaderHtrWitness::from_payload(sample_payload());
    let trace = build_trace_polynomials(&w, CurveType::Bls48581);
    let mut cols: Vec<Vec<Scalar>> =
        trace.columns.iter().map(|p| p.evaluations.clone()).collect();
    cols[COL_CLAIMED_EXTRA_DATA_ROOT_OFFSET][EXTRA_DATA_LEFT_INVOCATION] =
        Scalar::from_u64(0xff, CurveType::Bls48581);
    let cs = ExecutionPayloadHeaderPairConstraintSystem::new(trace.num_rows);
    let col_refs: Vec<&Vec<Scalar>> = cols.iter().collect();
    let res = cs.evaluate_on_domain(&col_refs, trace.num_rows);
    assert!(!res[8][EXTRA_DATA_LEFT_INVOCATION].is_zero());
}

#[test]
fn block_header_linkage_descriptor_shape() {
    let d = make_payload_pair_to_block_header_linkage_descriptor(0, 1);
    assert_eq!(d.a_columns.len(), 32);
    assert_eq!(d.b_columns.len(), 32);
    assert_eq!(d.label, "payload_pair_block_hash_to_block_header_v1");
    assert_eq!(d.a_selector_column, Some(COL_IS_BLOCK_HASH_BOUND_AT));
    assert_eq!(d.b_selector_column, Some(zkp::block_header_air::COL_IS_REAL));
    assert_eq!(d.a_columns[0], COL_CLAIMED_BLOCK_HASH_OFFSET);
    assert_eq!(d.b_columns[0], zkp::block_header_air::COL_BLOCK_HASH_OFFSET);
}

#[test]
fn output_column_helpers_match_layout() {
    assert_eq!(make_payload_pair_root_output_column_indices().len(), 32);
    assert_eq!(make_payload_pair_block_hash_output_column_indices().len(), 32);
    assert_eq!(make_payload_pair_root_output_column_indices()[0], COL_CLAIMED_ROOT_OFFSET);
    assert_eq!(
        make_payload_pair_block_hash_output_column_indices()[0],
        COL_CLAIMED_BLOCK_HASH_OFFSET,
    );
}

#[test]
fn linkage_descriptor_shape() {
    let d = make_payload_pair_to_sha256_extract_linkage_descriptor(0, 1);
    assert_eq!(d.a_columns.len(), 96);
    assert_eq!(d.b_columns.len(), 96);
    assert_eq!(d.label, "execution_payload_header_pair_sha256_extract_v1");
    assert_eq!(d.a_selector_column, Some(COL_IS_REAL));
    assert_eq!(d.b_selector_column, Some(zkp::sha256_extract::COL_IS_REAL));
}
