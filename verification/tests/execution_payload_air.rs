use zkp::execution_payload::ExecutionPayloadHeader;
use zkp::execution_payload_air::{zero_hash, ExecutionPayloadHeaderHtrWitness};
use zkp::ssz::hash_tree_root_uint;

fn sample_payload() -> ExecutionPayloadHeader {
    let mut p = ExecutionPayloadHeader::default();
    p.parent_hash = [0x11u8; 32];
    p.state_root = [0x22u8; 32];
    p.receipts_root = [0x33u8; 32];
    p.prev_randao = [0x44u8; 32];
    p.block_number = 12345;
    p.gas_limit = 30_000_000;
    p.timestamp = 1_700_000_000;
    p.block_hash = [0xabu8; 32];
    p.transactions_root = [0x55u8; 32];
    p.withdrawals_root = [0x66u8; 32];
    p
}

#[test]
fn witness_root_matches_canonical_hash_tree_root() {
    let p = sample_payload();
    let w = ExecutionPayloadHeaderHtrWitness::from_payload(p.clone());
    assert_eq!(w.root, p.hash_tree_root());
}

#[test]
fn witness_has_exactly_20_invocations() {
    let w = ExecutionPayloadHeaderHtrWitness::from_payload(sample_payload());
    assert_eq!(w.invocations.len(), 20);
    assert_eq!(w.layer(0).len(), 9);
    assert_eq!(w.layer(1).len(), 5);
    assert_eq!(w.layer(2).len(), 3);
    assert_eq!(w.layer(3).len(), 2);
    assert_eq!(w.layer(4).len(), 1);
}

#[test]
fn layer_chaining_is_consistent() {
    let w = ExecutionPayloadHeaderHtrWitness::from_payload(sample_payload());
    for (next_layer, expected_zh) in [(1usize, 1u32), (2, 2), (3, 3), (4, 4)] {
        let prev = w.layer(next_layer - 1);
        let curr = w.layer(next_layer);
        for (i, inv) in curr.iter().enumerate() {
            assert_eq!(inv.left, prev[2 * i].hash, "layer{} pair{} left", next_layer, i);
            let right = if 2 * i + 1 < prev.len() {
                prev[2 * i + 1].hash
            } else {
                zero_hash(expected_zh)
            };
            assert_eq!(inv.right, right, "layer{} pair{} right", next_layer, i);
        }
    }
}

#[test]
fn zero_padding_at_correct_positions() {
    let w = ExecutionPayloadHeaderHtrWitness::from_payload(sample_payload());
    assert_eq!(w.layer(0)[8].right, zero_hash(0), "layer 0 last pair tail = ZH(0)");
    assert_eq!(w.layer(1)[4].right, zero_hash(1), "layer 1 last pair tail = ZH(1)");
    assert_eq!(w.layer(2)[2].right, zero_hash(2), "layer 2 last pair tail = ZH(2)");
    assert_eq!(w.layer(3)[1].right, zero_hash(3), "layer 3 last pair tail = ZH(3)");
}

#[test]
fn different_payloads_produce_different_roots() {
    let p1 = sample_payload();
    let mut p2 = p1.clone();
    p2.block_hash[0] ^= 0xff;
    let w1 = ExecutionPayloadHeaderHtrWitness::from_payload(p1);
    let w2 = ExecutionPayloadHeaderHtrWitness::from_payload(p2);
    assert_ne!(w1.root, w2.root);
    assert_ne!(w1.root_invocation().hash, w2.root_invocation().hash);
}

#[test]
fn root_invocation_output_equals_witness_root() {
    let w = ExecutionPayloadHeaderHtrWitness::from_payload(sample_payload());
    assert_eq!(w.root_invocation().hash, w.root);
}

#[test]
fn field_roots_match_canonical_per_field() {
    let p = sample_payload();
    let w = ExecutionPayloadHeaderHtrWitness::from_payload(p.clone());
    assert_eq!(w.field_roots[0], p.parent_hash);
    assert_eq!(w.field_roots[2], p.state_root);
    assert_eq!(w.field_roots[3], p.receipts_root);
    assert_eq!(w.field_roots[5], p.prev_randao);
    assert_eq!(w.field_roots[6], hash_tree_root_uint(p.block_number));
    assert_eq!(w.field_roots[11], p.base_fee_per_gas);
    assert_eq!(w.field_roots[12], p.block_hash);
    assert_eq!(w.field_roots[13], p.transactions_root);
    assert_eq!(w.field_roots[14], p.withdrawals_root);
}

#[test]
fn default_payload_witness_well_formed() {
    let p = ExecutionPayloadHeader::default();
    let w = ExecutionPayloadHeaderHtrWitness::from_payload(p.clone());
    assert_eq!(w.invocations.len(), 20);
    assert_eq!(w.root, p.hash_tree_root());
}
