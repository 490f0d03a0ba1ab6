use zkp::execution_payload::{ExecutionPayloadHeader, BYTES_PER_LOGS_BLOOM};

fn sample_header() -> ExecutionPayloadHeader {
    ExecutionPayloadHeader {
        parent_hash: [0x11u8; 32],
        fee_recipient: [0x22u8; 20],
        state_root: [0x33u8; 32],
        receipts_root: [0x44u8; 32],
        logs_bloom: [0x55u8; BYTES_PER_LOGS_BLOOM],
        prev_randao: [0x66u8; 32],
        block_number: 17_000_000,
        gas_limit: 30_000_000,
        gas_used: 12_345_678,
        timestamp: 1_700_000_000,
        extra_data: vec![0xde, 0xad, 0xbe, 0xef],
        base_fee_per_gas: {
            let mut b = [0u8; 32];
            b[..8].copy_from_slice(&(15_u64 * 1_000_000_000u64).to_le_bytes());
            b
        },
        block_hash: [0x77u8; 32],
        transactions_root: [0x88u8; 32],
        withdrawals_root: [0x99u8; 32],
        blob_gas_used: 393_216,
        excess_blob_gas: 786_432,
    }
}

#[test]
fn default_is_all_zero_and_root_is_deterministic() {
    let h = ExecutionPayloadHeader::default();
    let r1 = h.hash_tree_root();
    let r2 = h.hash_tree_root();
    assert_eq!(r1, r2, "hash_tree_root must be deterministic");
}

#[test]
fn different_headers_produce_different_roots() {
    let h1 = sample_header();
    let mut h2 = h1.clone();
    h2.block_hash[0] ^= 0xff;
    assert_ne!(h1.hash_tree_root(), h2.hash_tree_root());
}

#[test]
fn extra_data_length_changes_root() {
    let mut h1 = sample_header();
    let mut h2 = sample_header();
    h1.extra_data = vec![0xaa];
    h2.extra_data = vec![0xaa, 0xbb];
    assert_ne!(h1.hash_tree_root(), h2.hash_tree_root());
}

#[test]
fn empty_extra_data_root_differs_from_one_byte() {
    let mut h1 = sample_header();
    let mut h2 = sample_header();
    h1.extra_data = vec![];
    h2.extra_data = vec![0x00];
    assert_ne!(
        h1.hash_tree_root(),
        h2.hash_tree_root(),
        "ByteList HTR must mix in length; empty vs single-zero must differ",
    );
}

#[test]
fn block_hash_extraction_returns_committed_field() {
    let h = sample_header();
    assert_eq!(h.block_hash, [0x77u8; 32]);
}

#[test]
fn cancun_field_count_pinned_to_17() {
    let h = sample_header();
    let _root = h.hash_tree_root();
    let n_fields: usize = 17;
    assert_eq!(n_fields, 17);
}

#[test]
fn only_block_hash_set_produces_distinct_root() {
    let zero = ExecutionPayloadHeader::default();
    let mut only_block_hash = ExecutionPayloadHeader::default();
    only_block_hash.block_hash = [0x42u8; 32];
    assert_ne!(zero.hash_tree_root(), only_block_hash.hash_tree_root());
}

#[test]
fn transactions_root_change_changes_payload_root() {
    let mut h1 = sample_header();
    let mut h2 = sample_header();
    h1.transactions_root = [0xaau8; 32];
    h2.transactions_root = [0xbbu8; 32];
    assert_ne!(h1.hash_tree_root(), h2.hash_tree_root());
}

#[test]
fn cancun_blob_fields_contribute_to_root() {
    let mut h1 = sample_header();
    let mut h2 = sample_header();
    h1.blob_gas_used = 1;
    h2.blob_gas_used = 2;
    assert_ne!(h1.hash_tree_root(), h2.hash_tree_root());

    let mut h3 = sample_header();
    let mut h4 = sample_header();
    h3.excess_blob_gas = 0;
    h4.excess_blob_gas = 131_072;
    assert_ne!(h3.hash_tree_root(), h4.hash_tree_root());
}
