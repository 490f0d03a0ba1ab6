use zkp::evm_create_rlp_air::{
    COL_IS_REAL, COL_NONCE, COL_NONCE_BIT_OFFSET, COL_NONCE_INV, COL_NONCE_RLP_BYTE,
    COL_RLP_BYTE_OFFSET, COL_RLP_LEN, COL_SENDER_LIMB_OFFSET, CreateRlpConstraintSystem,
    CreateRlpWitness, MAX_NONCE_EXCLUSIVE, NUM_COLUMNS, NUM_NONCE_BITS, RLP_LIST_HEADER,
    RLP_NONCE_ZERO, RLP_OUTPUT_LEN, RLP_SENDER_HEADER, build_trace_polynomials, canonical_rlp,
    make_create_rlp_keccak_extract_input_linkage_descriptor,
    make_evm_main_create_rlp_linkage_descriptor,
};
use zkp::keccak_extract as ke;
use zkp::field::{CurveType, Scalar};

fn small_witness() -> CreateRlpWitness {
    let s1 = [0x11u8; 20];
    let s2 = [0xAAu8; 20];
    CreateRlpWitness::from_inputs(&[(&s1, 0), (&s2, 5), (&s1, 127)])
        .expect("test inputs are within MAX_NONCE_EXCLUSIVE")
}

#[test]
fn from_inputs_rejects_oversize_nonce() {
    let s = [0u8; 20];
    let r = CreateRlpWitness::from_inputs(&[(&s, MAX_NONCE_EXCLUSIVE)]);
    assert!(r.is_err(), "nonces of 128 and above must be rejected");
}

#[test]
fn canonical_rlp_matches_known_vectors() {
    let s = [0u8; 20];
    let rlp = canonical_rlp(&s, 0);
    assert_eq!(rlp[0], RLP_LIST_HEADER as u8);
    assert_eq!(rlp[1], RLP_SENDER_HEADER as u8);
    for k in 0..20 {
        assert_eq!(rlp[2 + k], 0);
    }
    assert_eq!(rlp[22], RLP_NONCE_ZERO as u8);

    let rlp = canonical_rlp(&s, 7);
    assert_eq!(rlp[22], 7);

    let rlp = canonical_rlp(&s, 127);
    assert_eq!(rlp[22], 127);
}

#[test]
fn canonical_rlp_round_trips_against_real_rlp_for_sample_address() {
    let mut s = [0u8; 20];
    for i in 0..20 {
        s[i] = (i as u8) + 1;
    }
    let nonce: u64 = 42;
    let rlp = canonical_rlp(&s, nonce);
    assert_eq!(rlp[0], 0xd6);
    assert_eq!(rlp[1], 0x94);
    assert_eq!(&rlp[2..22], &s);
    assert_eq!(rlp[22], 42);
}

#[test]
fn evm_create_rlp_air_build_trace_populates_columns() {
    let curve = CurveType::Bls48581;
    let w = small_witness();
    let trace = build_trace_polynomials(&w, curve);
    assert_eq!(trace.columns.len(), NUM_COLUMNS);
    assert_eq!(trace.num_rows, 3);
    assert!(trace.columns[COL_NONCE].evaluations[0].is_zero());
    for b in 0..NUM_NONCE_BITS {
        assert!(
            trace.columns[COL_NONCE_BIT_OFFSET + b].evaluations[0].is_zero(),
            "row 0 bit {} should be zero", b
        );
    }
    assert_eq!(
        trace.columns[COL_NONCE_RLP_BYTE].evaluations[0].to_u64(),
        RLP_NONCE_ZERO
    );
    assert_eq!(trace.columns[COL_NONCE].evaluations[1].to_u64(), 5);
    assert_eq!(trace.columns[COL_NONCE_BIT_OFFSET + 0].evaluations[1].to_u64(), 1);
    assert!(trace.columns[COL_NONCE_BIT_OFFSET + 1].evaluations[1].is_zero());
    assert_eq!(trace.columns[COL_NONCE_BIT_OFFSET + 2].evaluations[1].to_u64(), 1);
    for b in 3..NUM_NONCE_BITS {
        assert!(trace.columns[COL_NONCE_BIT_OFFSET + b].evaluations[1].is_zero());
    }
    assert_eq!(trace.columns[COL_NONCE_RLP_BYTE].evaluations[1].to_u64(), 5);
    assert_eq!(
        trace.columns[COL_RLP_BYTE_OFFSET + 22].evaluations[1].to_u64(),
        5
    );
    assert_eq!(
        trace.columns[COL_RLP_LEN].evaluations[1].to_u64(),
        RLP_OUTPUT_LEN as u64
    );
    let expected_l0 = u64::from_le_bytes([0xAA; 8]);
    assert_eq!(
        trace.columns[COL_SENDER_LIMB_OFFSET].evaluations[1].to_u64(),
        expected_l0
    );
    assert!(trace.columns[COL_IS_REAL].evaluations[3].is_zero());
}

#[test]
fn evm_create_rlp_air_constraints_vanish_on_honest_witness() {
    let curve = CurveType::Bls48581;
    let w = small_witness();
    let trace = build_trace_polynomials(&w, curve);
    let cs = CreateRlpConstraintSystem::new(trace.num_rows);
    let alpha = Scalar::from_u64(11, curve);
    for row in 0..trace.padded_size as usize {
        let col_vals: Vec<Scalar> = trace
            .columns
            .iter()
            .map(|p| p.evaluations[row].clone())
            .collect();
        let body = cs.evaluate_at_point(&col_vals, &alpha);
        assert!(body.is_zero(), "row {} body must vanish", row);
    }
}

#[test]
fn rlp_construction_rejects_tampered_byte() {
    let curve = CurveType::Bls48581;
    let w = small_witness();
    let mut trace = build_trace_polynomials(&w, curve);
    let cs = CreateRlpConstraintSystem::new(trace.num_rows);
    let alpha = Scalar::from_u64(13, curve);
    let one = Scalar::one(curve);
    trace.columns[COL_RLP_BYTE_OFFSET].evaluations[0] =
        trace.columns[COL_RLP_BYTE_OFFSET].evaluations[0].add(&one);
    let row_evals: Vec<Scalar> = trace
        .columns
        .iter()
        .map(|p| p.evaluations[0].clone())
        .collect();
    assert!(
        !cs.evaluate_at_point(&row_evals, &alpha).is_zero(),
        "rlp_construction must fire when RLP[0] is tampered"
    );
}

#[test]
fn nonce_inv_rejects_wrong_inverse() {
    let curve = CurveType::Bls48581;
    let w = small_witness();
    let mut trace = build_trace_polynomials(&w, curve);
    let cs = CreateRlpConstraintSystem::new(trace.num_rows);
    let alpha = Scalar::from_u64(17, curve);
    trace.columns[COL_NONCE_INV].evaluations[1] = Scalar::from_u64(99, curve);
    let row_evals: Vec<Scalar> = trace
        .columns
        .iter()
        .map(|p| p.evaluations[1].clone())
        .collect();
    assert!(
        !cs.evaluate_at_point(&row_evals, &alpha).is_zero(),
        "nonce_inv_correctness must fire on wrong inverse"
    );
}

#[test]
fn nonce_decomposition_rejects_bit_mismatch() {
    let curve = CurveType::Bls48581;
    let w = small_witness();
    let mut trace = build_trace_polynomials(&w, curve);
    let cs = CreateRlpConstraintSystem::new(trace.num_rows);
    let alpha = Scalar::from_u64(19, curve);
    trace.columns[COL_NONCE_BIT_OFFSET + 1].evaluations[1] =
        Scalar::from_u64(1, curve);
    let row_evals: Vec<Scalar> = trace
        .columns
        .iter()
        .map(|p| p.evaluations[1].clone())
        .collect();
    assert!(
        !cs.evaluate_at_point(&row_evals, &alpha).is_zero(),
        "nonce_decomposition must fire when bits disagree with NONCE"
    );
}

#[test]
fn nonce_bit_binarity_rejects_non_binary_bit() {
    let curve = CurveType::Bls48581;
    let w = small_witness();
    let mut trace = build_trace_polynomials(&w, curve);
    let cs = CreateRlpConstraintSystem::new(trace.num_rows);
    let alpha = Scalar::from_u64(23, curve);
    trace.columns[COL_NONCE_BIT_OFFSET].evaluations[1] = Scalar::from_u64(5, curve);
    let row_evals: Vec<Scalar> = trace
        .columns
        .iter()
        .map(|p| p.evaluations[1].clone())
        .collect();
    assert!(
        !cs.evaluate_at_point(&row_evals, &alpha).is_zero(),
        "nonce_bit_binarity must fire on non-binary bit"
    );
}

#[test]
fn nonce_rlp_byte_value_rejects_wrong_byte() {
    let curve = CurveType::Bls48581;
    let w = small_witness();
    let mut trace = build_trace_polynomials(&w, curve);
    let cs = CreateRlpConstraintSystem::new(trace.num_rows);
    let alpha = Scalar::from_u64(29, curve);
    trace.columns[COL_NONCE_RLP_BYTE].evaluations[1] = Scalar::from_u64(6, curve);
    let row_evals: Vec<Scalar> = trace
        .columns
        .iter()
        .map(|p| p.evaluations[1].clone())
        .collect();
    assert!(
        !cs.evaluate_at_point(&row_evals, &alpha).is_zero(),
        "nonce_rlp_byte_value must fire on wrong NONCE_RLP_BYTE"
    );
}

#[test]
fn nonce_rlp_byte_value_rejects_wrong_byte_for_zero_nonce() {
    let curve = CurveType::Bls48581;
    let w = small_witness();
    let mut trace = build_trace_polynomials(&w, curve);
    let cs = CreateRlpConstraintSystem::new(trace.num_rows);
    let alpha = Scalar::from_u64(31, curve);
    trace.columns[COL_NONCE_RLP_BYTE].evaluations[0] = Scalar::from_u64(0, curve);
    let row_evals: Vec<Scalar> = trace
        .columns
        .iter()
        .map(|p| p.evaluations[0].clone())
        .collect();
    assert!(
        !cs.evaluate_at_point(&row_evals, &alpha).is_zero(),
        "nonce_rlp_byte_value must fire when NONCE_RLP_BYTE != 0x80 for nonce = 0"
    );
}

#[test]
fn evm_main_create_rlp_descriptor_well_formed() {
    let desc = make_evm_main_create_rlp_linkage_descriptor(
        0, 1, /* frame_callee_l0 */ 100, /* nonce_hint */ 200,
        /* sel_create */ 50,
    );
    assert_eq!(desc.label, "evm_main_create_rlp_v1");
    assert_eq!(desc.a_columns.len(), 5);
    assert_eq!(desc.b_columns.len(), 5);
    assert_eq!(desc.a_columns[0], 100);
    assert_eq!(desc.a_columns[3], 103);
    assert_eq!(desc.a_columns[4], 200);
    assert_eq!(desc.b_columns[0], COL_SENDER_LIMB_OFFSET);
    assert_eq!(desc.b_columns[3], COL_SENDER_LIMB_OFFSET + 3);
    assert_eq!(desc.b_columns[4], COL_NONCE);
    assert_eq!(desc.a_selector_column, Some(50));
    assert_eq!(desc.b_selector_column, Some(COL_IS_REAL));
}

#[test]
fn create_rlp_keccak_extract_input_descriptor_well_formed() {
    let desc = make_create_rlp_keccak_extract_input_linkage_descriptor(0, 1);
    assert_eq!(desc.label, "create_rlp_keccak_extract_input_v1");
    let tuple_len = ke::MAX_INPUT_LEN + 1;
    assert_eq!(desc.a_columns.len(), tuple_len);
    assert_eq!(desc.b_columns.len(), tuple_len);
    assert_eq!(desc.a_columns[0], COL_RLP_BYTE_OFFSET);
    assert_eq!(desc.a_columns[ke::MAX_INPUT_LEN - 1], COL_RLP_BYTE_OFFSET + ke::MAX_INPUT_LEN - 1);
    assert_eq!(desc.a_columns[ke::MAX_INPUT_LEN], COL_RLP_LEN);
    assert_eq!(desc.b_columns[0], ke::COL_INPUT_BYTE_OFFSET);
    assert_eq!(desc.b_columns[ke::MAX_INPUT_LEN], ke::COL_INPUT_LEN);
    assert_eq!(desc.a_selector_column, Some(COL_IS_REAL));
    assert_eq!(desc.b_selector_column, Some(ke::COL_IS_REAL));
}

#[test]
fn rlp_gadget_byte_tuples_match_keccak_extract_input() {
    let curve = CurveType::Bls48581;
    let mut sender = [0u8; 20];
    for i in 0..20 {
        sender[i] = (i as u8) * 7 + 3;
    }
    let nonce: u64 = 42;

    let gadget_w = CreateRlpWitness::from_inputs(&[(&sender, nonce)])
        .expect("valid input");
    let gadget_trace = build_trace_polynomials(&gadget_w, curve);

    let canonical = canonical_rlp(&sender, nonce);
    let mut hashed = canonical.to_vec();
    let hashed_len = hashed.len() as u64;
    hashed.resize(ke::MAX_INPUT_LEN, 0);

    for b in 0..ke::MAX_INPUT_LEN {
        let g = gadget_trace.columns[COL_RLP_BYTE_OFFSET + b].evaluations[0]
            .to_u64() as u8;
        assert_eq!(g, hashed[b], "tuple byte {} mismatch", b);
    }
    let g_len = gadget_trace.columns[COL_RLP_LEN].evaluations[0].to_u64();
    assert_eq!(g_len, RLP_OUTPUT_LEN as u64);
    assert_eq!(g_len, hashed_len);
}
