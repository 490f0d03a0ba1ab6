use zkp::evm_create2_input_air::{
    COL_INPUT_BYTE_OFFSET, COL_INPUT_LEN, COL_IS_REAL, COL_SALT_BYTE_OFFSET,
    COL_SENDER_LIMB_OFFSET, CREATE2_MAGIC_BYTE, Create2InputConstraintSystem, Create2InputWitness,
    INPUT_OUTPUT_LEN, NUM_COLUMNS, build_trace_polynomials, canonical_create2_input,
    make_create2_input_keccak_extract_input_linkage_descriptor,
};
use zkp::keccak_extract as ke;
use zkp::field::{CurveType, Scalar};

fn small_witness() -> Create2InputWitness {
    let s = [0x42u8; 20];
    let salt = [0x00u8; 32];
    let init = [0xAAu8; 32];
    Create2InputWitness::from_inputs(&[(&s, &salt, &init)])
}

#[test]
fn canonical_input_layout() {
    let s = [0x11u8; 20];
    let mut salt = [0u8; 32];
    for i in 0..32 { salt[i] = (i as u8) + 1; }
    let mut init = [0u8; 32];
    for i in 0..32 { init[i] = 0xff - (i as u8); }
    let out = canonical_create2_input(&s, &salt, &init);
    assert_eq!(out[0], 0xff);
    assert_eq!(&out[1..21], &s);
    assert_eq!(&out[21..53], &salt);
    assert_eq!(&out[53..85], &init);
}

#[test]
fn evm_create2_input_air_build_trace_populates_columns() {
    let curve = CurveType::Bls48581;
    let w = small_witness();
    let trace = build_trace_polynomials(&w, curve);
    assert_eq!(trace.columns.len(), NUM_COLUMNS);
    assert_eq!(trace.num_rows, 1);
    assert_eq!(
        trace.columns[COL_INPUT_BYTE_OFFSET].evaluations[0].to_u64(),
        CREATE2_MAGIC_BYTE
    );
    assert_eq!(
        trace.columns[COL_INPUT_BYTE_OFFSET + 1].evaluations[0].to_u64(),
        0x42
    );
    assert_eq!(
        trace.columns[COL_INPUT_BYTE_OFFSET + 21].evaluations[0].to_u64(),
        0x00
    );
    assert_eq!(
        trace.columns[COL_INPUT_BYTE_OFFSET + 53].evaluations[0].to_u64(),
        0xAA
    );
    assert_eq!(
        trace.columns[COL_INPUT_BYTE_OFFSET + 85].evaluations[0].to_u64(),
        0
    );
    assert_eq!(
        trace.columns[COL_INPUT_LEN].evaluations[0].to_u64(),
        INPUT_OUTPUT_LEN as u64
    );
    let expected_l0 = u64::from_le_bytes([0x42; 8]);
    assert_eq!(
        trace.columns[COL_SENDER_LIMB_OFFSET].evaluations[0].to_u64(),
        expected_l0
    );
}

#[test]
fn evm_create2_input_air_constraints_vanish_on_honest_witness() {
    let curve = CurveType::Bls48581;
    let w = small_witness();
    let trace = build_trace_polynomials(&w, curve);
    let cs = Create2InputConstraintSystem::new(trace.num_rows);
    let alpha = Scalar::from_u64(11, curve);
    for row in 0..trace.padded_size as usize {
        let col_vals: Vec<Scalar> = trace
            .columns
            .iter()
            .map(|p| p.evaluations[row].clone())
            .collect();
        let body = cs.evaluate_at_point(&col_vals, &alpha);
        assert!(body.is_zero(), "row {} body must vanish", row);
    }
}

#[test]
fn input_construction_rejects_tampered_magic_byte() {
    let curve = CurveType::Bls48581;
    let w = small_witness();
    let mut trace = build_trace_polynomials(&w, curve);
    let cs = Create2InputConstraintSystem::new(trace.num_rows);
    let alpha = Scalar::from_u64(13, curve);
    let one = Scalar::one(curve);
    trace.columns[COL_INPUT_BYTE_OFFSET].evaluations[0] =
        trace.columns[COL_INPUT_BYTE_OFFSET].evaluations[0].add(&one);
    let row_evals: Vec<Scalar> = trace
        .columns
        .iter()
        .map(|p| p.evaluations[0].clone())
        .collect();
    assert!(
        !cs.evaluate_at_point(&row_evals, &alpha).is_zero(),
        "input_construction must fire when INPUT_BYTE[0] != 0xff"
    );
}

#[test]
fn input_construction_rejects_tampered_salt() {
    let curve = CurveType::Bls48581;
    let w = small_witness();
    let mut trace = build_trace_polynomials(&w, curve);
    let cs = Create2InputConstraintSystem::new(trace.num_rows);
    let alpha = Scalar::from_u64(17, curve);
    let one = Scalar::one(curve);
    trace.columns[COL_SALT_BYTE_OFFSET + 5].evaluations[0] =
        trace.columns[COL_SALT_BYTE_OFFSET + 5].evaluations[0].add(&one);
    let row_evals: Vec<Scalar> = trace
        .columns
        .iter()
        .map(|p| p.evaluations[0].clone())
        .collect();
    assert!(
        !cs.evaluate_at_point(&row_evals, &alpha).is_zero(),
        "input_construction must fire when SALT_BYTE[5] disagrees with INPUT_BYTE[26]"
    );
}

#[test]
fn create2_input_keccak_extract_descriptor_well_formed() {
    let desc = make_create2_input_keccak_extract_input_linkage_descriptor(0, 1);
    assert_eq!(desc.label, "create2_input_keccak_extract_input_v1");
    let tuple_len = ke::MAX_INPUT_LEN + 1;
    assert_eq!(desc.a_columns.len(), tuple_len);
    assert_eq!(desc.b_columns.len(), tuple_len);
    assert_eq!(desc.a_columns[0], COL_INPUT_BYTE_OFFSET);
    assert_eq!(desc.a_columns[ke::MAX_INPUT_LEN - 1], COL_INPUT_BYTE_OFFSET + ke::MAX_INPUT_LEN - 1);
    assert_eq!(desc.a_columns[ke::MAX_INPUT_LEN], COL_INPUT_LEN);
    assert_eq!(desc.b_columns[0], ke::COL_INPUT_BYTE_OFFSET);
    assert_eq!(desc.b_columns[ke::MAX_INPUT_LEN], ke::COL_INPUT_LEN);
    assert_eq!(desc.a_selector_column, Some(COL_IS_REAL));
    assert_eq!(desc.b_selector_column, Some(ke::COL_IS_REAL));
}

#[test]
fn gadget_byte_tuples_match_keccak_extract_input() {
    let curve = CurveType::Bls48581;
    let mut sender = [0u8; 20];
    for i in 0..20 { sender[i] = (i as u8) * 11 + 7; }
    let mut salt = [0u8; 32];
    for i in 0..32 { salt[i] = (i as u8).wrapping_mul(13).wrapping_add(1); }
    let mut init = [0u8; 32];
    for i in 0..32 { init[i] = (i as u8).wrapping_mul(17).wrapping_add(3); }

    let gadget_w = Create2InputWitness::from_inputs(&[(&sender, &salt, &init)]);
    let gadget_trace = build_trace_polynomials(&gadget_w, curve);

    let canonical = canonical_create2_input(&sender, &salt, &init);
    let mut hashed = canonical.to_vec();
    let hashed_len = hashed.len() as u64;
    hashed.resize(ke::MAX_INPUT_LEN, 0);

    for b in 0..ke::MAX_INPUT_LEN {
        let g = gadget_trace.columns[COL_INPUT_BYTE_OFFSET + b].evaluations[0]
            .to_u64() as u8;
        assert_eq!(g, hashed[b], "tuple byte {} mismatch", b);
    }
    let g_len = gadget_trace.columns[COL_INPUT_LEN].evaluations[0].to_u64();
    assert_eq!(g_len, INPUT_OUTPUT_LEN as u64);
    assert_eq!(g_len, hashed_len);
}
