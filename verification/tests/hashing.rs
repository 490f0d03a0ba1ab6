use zkp::execution_payload::ExecutionPayloadHeader;
use zkp::execution_payload_air::{zero_hash, ExecutionPayloadHeaderHtrWitness};
use zkp::extra_data_air::ExtraDataHtrWitness;
use zkp::label::decimal_string;
use zkp::lookup::byte_declaration;
use zkp::sha256::sha256_pair;
use zkp::ssz::{
    hash_tree_root_bytes_fixed, hash_tree_root_container, hash_tree_root_list_bytes,
    hash_tree_root_uint, merkleize, pack_bytes, tree_depth, zero_chunk,
};
use zkp::trace::nearest_power_of_two;

fn hex(b: &[u8]) -> String {
    b.iter().map(|x| format!("{:02x}", x)).collect()
}

#[test]
fn pair_hashes_of_zero_chunks() {
    let h1 = sha256_pair(&[0; 32], &[0; 32]);
    assert_eq!(hex(&h1), "f5a5fd42d16a20302798ef6ed309979b43003d2320d9f0e8ea9831a92759fb4b");
    let h2 = sha256_pair(&h1, &h1);
    assert_eq!(hex(&h2), "db56114e00fdd4c1f85c892bf35ac9a89289aaecb1ebd0a96cde606a748b5d71");
    assert_eq!(zero_hash(0), zero_chunk());
    assert_eq!(zero_hash(1), h1);
    assert_eq!(zero_hash(2), h2);
    assert_eq!(
        hex(&zero_hash(3)),
        "c78009fdf07fc56a11f122370658a353aaa542ed63e44c4bc15ff4cd105ab33c",
    );
}

#[test]
fn pair_hash_depends_on_the_order() {
    assert_ne!(sha256_pair(&[1; 32], &[2; 32]), sha256_pair(&[2; 32], &[1; 32]));
}

#[test]
fn integers_are_little_endian_chunks() {
    let mut want = [0u8; 32];
    want[0] = 0x34;
    want[1] = 0x12;
    assert_eq!(hash_tree_root_uint(0x1234), want);
}

#[test]
fn bytes_are_packed_into_chunks() {
    assert_eq!(pack_bytes(&[]).len(), 0);
    let chunks = pack_bytes(&[7; 33]);
    assert_eq!(chunks.len(), 2);
    assert_eq!(chunks[0], [7; 32]);
    let mut tail = [0u8; 32];
    tail[0] = 7;
    assert_eq!(chunks[1], tail);
}

#[test]
fn trees_are_padded_with_zero_hashes() {
    let (a, b, c) = ([1u8; 32], [2u8; 32], [3u8; 32]);
    let left = sha256_pair(&a, &b);
    let right = sha256_pair(&c, &zero_chunk());
    assert_eq!(merkleize(vec![a, b, c], 2), sha256_pair(&left, &right));
    assert_eq!(hash_tree_root_container(&[a, b, c]), sha256_pair(&left, &right));
    assert_eq!(merkleize(vec![a], 2), sha256_pair(&sha256_pair(&a, &zero_chunk()), &zero_hash(1)));
    assert_eq!(tree_depth(17), 5);
    assert_eq!(tree_depth(16), 4);
    assert_eq!(tree_depth(1), 0);
}

#[test]
fn fixed_bytes_and_lists() {
    let mut chunk = [0u8; 32];
    chunk[..20].copy_from_slice(&[9; 20]);
    assert_eq!(hash_tree_root_bytes_fixed(&[9; 20], 1), chunk);
    let mut data = [0u8; 32];
    data[0] = 5;
    let mut length = [0u8; 32];
    length[0] = 1;
    assert_eq!(hash_tree_root_list_bytes(&[5], 32), sha256_pair(&data, &length));
}

#[test]
fn extra_data_root_is_one_pair_hash() {
    let w = ExtraDataHtrWitness::from_extra_data(vec![1, 2, 3]);
    assert_eq!(w.root, sha256_pair(&w.packed_root, &w.length_chunk));
    assert_eq!(w.invocation.left, w.packed_root);
    assert_eq!(w.invocation.right, w.length_chunk);
}

#[test]
fn payload_root_is_the_last_pair_hash() {
    let mut p = ExecutionPayloadHeader::default();
    p.gas_used = 77;
    p.extra_data = vec![1; 32];
    let w = ExecutionPayloadHeaderHtrWitness::from_payload(p.clone());
    for inv in w.invocations.iter() {
        assert_eq!(inv.hash, sha256_pair(&inv.left, &inv.right));
    }
    assert_eq!(w.field_roots, p.compute_field_roots());
    assert_eq!(hash_tree_root_container(&w.field_roots), w.root);
    assert_eq!(w.root, p.hash_tree_root());
    assert_eq!(w.invocations[8].left, w.field_roots[16]);
}

#[test]
fn decimal_labels() {
    assert_eq!(decimal_string(0), "0");
    assert_eq!(decimal_string(10), "10");
    assert_eq!(decimal_string(u64::MAX), "18446744073709551615");
    let (d, table) = byte_declaration("left", 31, 40);
    assert_eq!(d.label, "left_31_8bit");
    assert_eq!((d.column_index, d.max_bits, d.selector_column, table), (40, 8, None, 0));
}

#[test]
fn padded_lengths() {
    for (n, want) in [(0, 2), (1, 2), (2, 2), (3, 4), (20, 32), (32, 32), (33, 64)] {
        assert_eq!(nearest_power_of_two(n), want);
    }
}
