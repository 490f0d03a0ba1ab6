//! Execution payload header (Cancun/Deneb shape).
//!
//! `ExecutionPayloadHeader` is the SSZ container carried inside a
//! `BeaconBlockBody.execution_payload_header` that commits to an
//! execution block. Its 17 fields (post-Cancun) mirror an Ethereum
//! execution block header, including `block_hash`, the keccak256 of
//! the canonical RLP-encoded header.
//!
//! ```text
//! class ExecutionPayloadHeader(Container):
//!     parent_hash:        Hash32          # Bytes32
//!     fee_recipient:      ExecutionAddress # Bytes20
//!     state_root:         Bytes32
//!     receipts_root:      Bytes32
//!     logs_bloom:         ByteVector[BYTES_PER_LOGS_BLOOM=256]
//!     prev_randao:        Bytes32
//!     block_number:       uint64
//!     gas_limit:          uint64
//!     gas_used:           uint64
//!     timestamp:          uint64
//!     extra_data:         ByteList[MAX_EXTRA_DATA_BYTES=32]
//!     base_fee_per_gas:   uint256
//!     block_hash:         Hash32
//!     transactions_root:  Root
//!     withdrawals_root:   Root
//!     blob_gas_used:      uint64
//!     excess_blob_gas:    uint64
//! ```

use crate::bytes;
use crate::sha256;
use crate::ssz;
use crate::ssz::{
    hash_tree_root_bytes_fixed, hash_tree_root_container, hash_tree_root_list_bytes,
    hash_tree_root_uint, Chunk,
};
use vstd::prelude::*;

verus! {

/// Maximum byte length of the `extra_data` field.
pub const MAX_EXTRA_DATA_BYTES: u64 = 32;

/// Length in bytes of the `logs_bloom` ByteVector.
pub const BYTES_PER_LOGS_BLOOM: usize = 256;

/// Length of an Ethereum address.
pub const EXECUTION_ADDRESS_BYTES: usize = 20;

/// Cancun/Deneb-shape `ExecutionPayloadHeader`. 17 fields.
#[derive(Clone, Debug, PartialEq, Eq)]
pub struct ExecutionPayloadHeader {
    pub parent_hash: [u8; 32],
    pub fee_recipient: [u8; 20],
    pub state_root: [u8; 32],
    pub receipts_root: [u8; 32],
    pub logs_bloom: [u8; 256],
    pub prev_randao: [u8; 32],
    pub block_number: u64,
    pub gas_limit: u64,
    pub gas_used: u64,
    pub timestamp: u64,
    pub extra_data: Vec<u8>,
    /// `uint256` as LE bytes (SSZ encoding).
    pub base_fee_per_gas: [u8; 32],
    /// The keccak256 of the canonical RLP-encoded execution block header.
    pub block_hash: [u8; 32],
    pub transactions_root: [u8; 32],
    pub withdrawals_root: [u8; 32],
    pub blob_gas_used: u64,
    pub excess_blob_gas: u64,
}

impl Default for ExecutionPayloadHeader {
    fn default() -> (r: Self)
        ensures
            r.is_default(),
    {
        Self {
            parent_hash: [0u8; 32],
            fee_recipient: [0u8; 20],
            state_root: [0u8; 32],
            receipts_root: [0u8; 32],
            logs_bloom: [0u8; 256],
            prev_randao: [0u8; 32],
            block_number: 0,
            gas_limit: 0,
            gas_used: 0,
            timestamp: 0,
            extra_data: Vec::new(),
            base_fee_per_gas: [0u8; 32],
            block_hash: [0u8; 32],
            transactions_root: [0u8; 32],
            withdrawals_root: [0u8; 32],
            blob_gas_used: 0,
            excess_blob_gas: 0,
        }
    }
}

/// All bytes are zero.
pub open spec fn all_zero(s: Seq<u8>) -> bool {
    forall|i: int| 0 <= i < s.len() ==> s[i] == 0
}

impl ExecutionPayloadHeader {
    /// Every field is zero or empty.
    pub open spec fn is_default(&self) -> bool {
        &&& all_zero(self.parent_hash@)
        &&& all_zero(self.fee_recipient@)
        &&& all_zero(self.state_root@)
        &&& all_zero(self.receipts_root@)
        &&& all_zero(self.logs_bloom@)
        &&& all_zero(self.prev_randao@)
        &&& self.block_number == 0
        &&& self.gas_limit == 0
        &&& self.gas_used == 0
        &&& self.timestamp == 0
        &&& self.extra_data@.len() == 0
        &&& all_zero(self.base_fee_per_gas@)
        &&& all_zero(self.block_hash@)
        &&& all_zero(self.transactions_root@)
        &&& all_zero(self.withdrawals_root@)
        &&& self.blob_gas_used == 0
        &&& self.excess_blob_gas == 0
    }

    /// The extra data has at most 32 bytes.
    pub open spec fn valid(&self) -> bool {
        self.extra_data.len() <= MAX_EXTRA_DATA_BYTES
    }

    /// The roots of the 17 fields.
    pub open spec fn field_roots(&self) -> Seq<Seq<u8>> {
        seq![
            self.parent_hash@,
            ssz::bytes_root(self.fee_recipient@, 1),
            self.state_root@,
            self.receipts_root@,
            ssz::bytes_root(self.logs_bloom@, 8),
            self.prev_randao@,
            ssz::uint_chunk(self.block_number as int),
            ssz::uint_chunk(self.gas_limit as int),
            ssz::uint_chunk(self.gas_used as int),
            ssz::uint_chunk(self.timestamp as int),
            ssz::list_root(self.extra_data@, 32),
            self.base_fee_per_gas@,
            self.block_hash@,
            self.transactions_root@,
            self.withdrawals_root@,
            ssz::uint_chunk(self.blob_gas_used as int),
            ssz::uint_chunk(self.excess_blob_gas as int),
        ]
    }

    /// The root of the container.
    pub open spec fn root(&self) -> Seq<u8> {
        ssz::merkle_root(self.field_roots(), ssz::depth_for(17))
    }

    /// The roots of the 17 fields.
    pub fn compute_field_roots(&self) -> (r: [Chunk; 17])
        requires
            self.valid(),
        ensures
            ssz::chunks(r@) == self.field_roots(),
    {
        let r: [Chunk; 17] = [
            self.parent_hash,
            // 20-byte fee_recipient padded into a single 32-byte chunk.
            hash_tree_root_bytes_fixed(self.fee_recipient.as_slice(), 1),
            self.state_root,
            self.receipts_root,
            // 256-byte logs_bloom merkleizes 8 chunks.
            hash_tree_root_bytes_fixed(self.logs_bloom.as_slice(), 8),
            self.prev_randao,
            hash_tree_root_uint(self.block_number),
            hash_tree_root_uint(self.gas_limit),
            hash_tree_root_uint(self.gas_used),
            hash_tree_root_uint(self.timestamp),
            // ByteList[MAX=32]: pack + mix-in-length.
            hash_tree_root_list_bytes(self.extra_data.as_slice(), MAX_EXTRA_DATA_BYTES),
            // uint256 = 32 LE bytes = single chunk.
            self.base_fee_per_gas,
            self.block_hash,
            self.transactions_root,
            self.withdrawals_root,
            hash_tree_root_uint(self.blob_gas_used),
            hash_tree_root_uint(self.excess_blob_gas),
        ];
        assert(ssz::chunks(r@) =~= self.field_roots());
        r
    }

    /// SSZ `hash_tree_root(ExecutionPayloadHeader)`: the container root over
    /// the 17 field roots.
    pub fn hash_tree_root(&self) -> (r: Chunk)
        requires
            self.valid(),
        ensures
            r@ == self.root(),
    {
        let field_roots: [Chunk; 17] = self.compute_field_roots();
        hash_tree_root_container(field_roots.as_slice())
    }
}

/// The root at each position of the container is that of the field declared
/// there: a 32-byte field is its own root, a number stands there in
/// little-endian form, the fee recipient is filled up with zeros, and the
/// extra data are hashed with their length.
pub proof fn law_field_roots(p: ExecutionPayloadHeader)
    ensures
        p.field_roots().len() == 17,
        p.field_roots()[0] == p.parent_hash@,
        p.field_roots()[2] == p.state_root@,
        p.field_roots()[3] == p.receipts_root@,
        p.field_roots()[5] == p.prev_randao@,
        p.field_roots()[11] == p.base_fee_per_gas@,
        p.field_roots()[12] == p.block_hash@,
        p.field_roots()[13] == p.transactions_root@,
        p.field_roots()[14] == p.withdrawals_root@,
        bytes::le_value(p.field_roots()[6]) == p.block_number,
        bytes::le_value(p.field_roots()[7]) == p.gas_limit,
        bytes::le_value(p.field_roots()[8]) == p.gas_used,
        bytes::le_value(p.field_roots()[9]) == p.timestamp,
        bytes::le_value(p.field_roots()[15]) == p.blob_gas_used,
        bytes::le_value(p.field_roots()[16]) == p.excess_blob_gas,
        forall|i: int|
            0 <= i < 20 ==> #[trigger] p.field_roots()[1][i] == p.fee_recipient@[i],
        forall|i: int| 20 <= i < 32 ==> #[trigger] p.field_roots()[1][i] == 0,
        p.field_roots()[10] == ssz::list_root(p.extra_data@, 32),
        forall|i: int| 0 <= i < 17 && i != 4 && i != 10 ==> (#[trigger] p.field_roots()[i]).len() == 32,
{
    ssz::law_uint_chunk(p.block_number);
    ssz::law_uint_chunk(p.gas_limit);
    ssz::law_uint_chunk(p.gas_used);
    ssz::law_uint_chunk(p.timestamp);
    ssz::law_uint_chunk(p.blob_gas_used);
    ssz::law_uint_chunk(p.excess_blob_gas);
    let s = p.fee_recipient@;
    assert(ssz::packed(s).len() == 1);
    assert(ssz::bytes_root(s, 1) == ssz::packed(s)[0]);
}

/// The root of the logs bloom is the root of the tree over its eight chunks.
pub proof fn law_logs_bloom_root(p: ExecutionPayloadHeader)
    ensures
        ({
            let c = |i: int| p.logs_bloom@.subrange(32 * i, 32 * i + 32);
            p.field_roots()[4] == sha256::hash_pair(
                sha256::hash_pair(
                    sha256::hash_pair(c(0), c(1)),
                    sha256::hash_pair(c(2), c(3)),
                ),
                sha256::hash_pair(
                    sha256::hash_pair(c(4), c(5)),
                    sha256::hash_pair(c(6), c(7)),
                ),
            )
        }),
{
    let s = p.logs_bloom@;
    let cs = ssz::packed(s);
    assert(cs.len() == 8);
    assert forall|i: int| 0 <= i < 8 implies #[trigger] cs[i] == s.subrange(32 * i, 32 * i + 32) by {
        assert(cs[i] =~= s.subrange(32 * i, 32 * i + 32));
    }
    reveal_with_fuel(ssz::depth_for, 5);
    reveal_with_fuel(ssz::tree, 4);
    reveal_with_fuel(ssz::pow2, 4);
}

/// The root of extra data: the data filled up with zeros to 32 bytes, hashed
/// with their length in little-endian form.
pub proof fn law_extra_data_root(p: ExecutionPayloadHeader, chunk: Seq<u8>, length: Seq<u8>)
    requires
        p.extra_data.len() <= 32,
        chunk.len() == 32,
        forall|i: int| 0 <= i < p.extra_data.len() ==> chunk[i] == #[trigger] p.extra_data@[i],
        forall|i: int| p.extra_data.len() <= i < 32 ==> #[trigger] chunk[i] == 0,
        length.len() == 32,
        length[0] == p.extra_data.len(),
        forall|i: int| 1 <= i < 32 ==> #[trigger] length[i] == 0,
    ensures
        p.field_roots()[10] == sha256::hash_pair(chunk, length),
{
    let s = p.extra_data@;
    let n = ssz::uint_chunk(s.len() as int);
    assert(ssz::bytes_root(s, 1) =~= chunk) by {
        if s.len() == 0 {
            assert(ssz::packed(s).len() == 0);
        } else {
            assert(ssz::packed(s).len() == 1);
            assert(ssz::packed(s)[0] =~= chunk);
        }
    }
    assert forall|i: int| 0 <= i < 32 implies n[i] == length[i] by {
        bytes::lemma_pow256_values();
        if 0 < i < 8 {
            bytes::lemma_pow256_pos((i - 1) as nat);
            lemma_small_over(s.len() as int, bytes::pow256(i as nat), bytes::pow256((i - 1) as nat));
        }
    }
    assert(n =~= length);
}

proof fn lemma_small_over(x: int, p: int, q: int)
    requires
        0 <= x < 256,
        p == 256 * q,
        q >= 1,
    ensures
        x / p == 0,
{
    vstd::arithmetic::div_mod::lemma_basic_div(x, p);
}

/// The root of the header is the root of a tree of 32 leaves, of which the
/// first 17 are the field roots and the others are zeros: the hash of the tree
/// of the first 16 and of the one that holds the last field.
pub proof fn law_root_of_fields(p: ExecutionPayloadHeader)
    ensures
        p.root() == ssz::merkle_root(p.field_roots(), 5),
        p.root() == sha256::hash_pair(
            ssz::merkle_root(p.field_roots().take(16), 4),
            ssz::merkle_root(p.field_roots().skip(16), 4),
        ),
{
    reveal_with_fuel(ssz::depth_for, 6);
    reveal_with_fuel(ssz::pow2, 5);
    ssz::law_root_of_halves(p.field_roots(), 4);
}

/// The default header: every field is empty or zero, so that every field root
/// but those of bloom and extra data is a chunk of zeros.
pub proof fn law_default_is_zero(p: ExecutionPayloadHeader, i: int, k: int)
    requires
        p.is_default(),
        0 <= i < 17,
        i != 4,
        i != 10,
        0 <= k < 32,
    ensures
        p.extra_data@.len() == 0,
        p.block_number == 0 && p.gas_limit == 0 && p.gas_used == 0 && p.timestamp == 0,
        p.blob_gas_used == 0 && p.excess_blob_gas == 0,
        p.field_roots()[i][k] == 0,
        p.field_roots()[4] == ssz::zero_root(3),
{
    law_field_roots(p);
    bytes::lemma_pow256_values();
    let s = p.logs_bloom@;
    let cs = ssz::packed(s);
    assert(cs.len() == 8);
    assert forall|j: int| 0 <= j < 8 implies #[trigger] cs[j] == sha256::zeros(32) by {
        assert(cs[j] =~= sha256::zeros(32));
    }
    reveal_with_fuel(ssz::depth_for, 5);
    reveal_with_fuel(ssz::tree, 4);
    reveal_with_fuel(ssz::pow2, 4);
    reveal_with_fuel(ssz::zero_root, 4);
    if i == 1 {
        let f = p.fee_recipient@;
        assert(ssz::packed(f).len() == 1);
        assert(ssz::bytes_root(f, 1) == ssz::packed(f)[0]);
    }
    if k < 8 {
        bytes::lemma_pow256_pos(k as nat);
        vstd::arithmetic::div_mod::lemma_div_basics(bytes::pow256(k as nat));
    }
}

} // verus!
