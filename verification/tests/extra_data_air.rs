use zkp::execution_payload::ExecutionPayloadHeader;
use zkp::execution_payload_air::ExecutionPayloadHeaderHtrWitness;
use zkp::extra_data_air::ExtraDataHtrWitness;
use zkp::ssz::{hash_tree_root_list_bytes, zero_chunk};

#[test]
fn witness_root_matches_canonical_empty() {
    let w = ExtraDataHtrWitness::from_extra_data(vec![]);
    let canonical = hash_tree_root_list_bytes(&[], 32);
    assert_eq!(w.root, canonical);
}

#[test]
fn witness_root_matches_canonical_one_byte() {
    let w = ExtraDataHtrWitness::from_extra_data(vec![0xAB]);
    let canonical = hash_tree_root_list_bytes(&[0xAB], 32);
    assert_eq!(w.root, canonical);
}

#[test]
fn witness_root_matches_canonical_full_32_bytes() {
    let bytes: Vec<u8> = (0..32).collect();
    let w = ExtraDataHtrWitness::from_extra_data(bytes.clone());
    let canonical = hash_tree_root_list_bytes(&bytes, 32);
    assert_eq!(w.root, canonical);
}

#[test]
fn witness_root_matches_canonical_mid_length() {
    let bytes = vec![0xDE, 0xAD, 0xBE, 0xEF];
    let w = ExtraDataHtrWitness::from_extra_data(bytes.clone());
    let canonical = hash_tree_root_list_bytes(&bytes, 32);
    assert_eq!(w.root, canonical);
}

#[test]
fn invocation_output_equals_witness_root() {
    let w = ExtraDataHtrWitness::from_extra_data(vec![0x42; 16]);
    assert_eq!(w.invocation.hash, w.root);
}

#[test]
fn length_chunk_is_le_encoded_length() {
    let w = ExtraDataHtrWitness::from_extra_data(vec![0x99; 7]);
    assert_eq!(w.length_chunk[0], 7);
    for k in 1..32 {
        assert_eq!(w.length_chunk[k], 0, "length_chunk[{}] should be 0", k);
    }
}

#[test]
fn packed_root_pads_with_zeros() {
    let w = ExtraDataHtrWitness::from_extra_data(vec![0x11, 0x22, 0x33]);
    assert_eq!(w.packed_root[0], 0x11);
    assert_eq!(w.packed_root[1], 0x22);
    assert_eq!(w.packed_root[2], 0x33);
    for k in 3..32 {
        assert_eq!(w.packed_root[k], 0, "packed_root[{}] should be 0", k);
    }
}

#[test]
fn empty_packed_root_is_zero_chunk() {
    let w = ExtraDataHtrWitness::from_extra_data(vec![]);
    assert_eq!(w.packed_root, zero_chunk());
}

#[test]
fn different_lengths_different_roots() {
    let w1 = ExtraDataHtrWitness::from_extra_data(vec![0xAB]);
    let w2 = ExtraDataHtrWitness::from_extra_data(vec![0xAB, 0x00]);
    assert_ne!(w1.root, w2.root, "mix_in_length must distinguish");
}

#[test]
fn composition_with_execution_payload_air() {
    let extra = vec![0xDE, 0xAD, 0xBE, 0xEF];
    let mut payload = ExecutionPayloadHeader::default();
    payload.extra_data = extra.clone();
    let payload_w = ExecutionPayloadHeaderHtrWitness::from_payload(payload);

    let extra_w = ExtraDataHtrWitness::from_extra_data(extra);
    assert_eq!(
        payload_w.field_roots[10],
        extra_w.root,
        "payload.field_roots[10] (extra_data root) must equal the witness root",
    );
}
