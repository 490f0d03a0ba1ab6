//! Witness of the `extra_data` sub-tree of an execution payload header.
//!
//! `extra_data: List[byte, 32]` packs into at most one chunk, which is its
//! own Merkle root. What is left is one `sha256_pair` invocation, the one
//! that mixes the length in.

use crate::bytes;
use crate::beacon_block_header_air::Sha256PairInvocation;
use crate::sha256;
use crate::sha256::sha256_pair;
use crate::ssz;
use crate::ssz::{hash_tree_root_uint, Chunk};
use vstd::prelude::*;

verus! {

/// Number of `sha256_pair` invocations for `extra_data`.
pub const NUM_PAIR_INVOCATIONS: usize = 1;

/// Maximum byte length of extra_data.
pub const MAX_EXTRA_DATA_BYTES: u64 = 32;

#[derive(Clone, Debug, PartialEq, Eq)]
pub struct ExtraDataHtrWitness {
    /// The actual extra_data bytes (0..=32).
    pub extra_data: Vec<u8>,
    /// The bytes in one chunk, padded with trailing zeros.
    pub packed_root: Chunk,
    /// The length of `extra_data` as 32 LE bytes.
    pub length_chunk: Chunk,
    /// The `sha256_pair(packed_root, length_chunk)` invocation.
    pub invocation: Sha256PairInvocation,
    /// The root of the list.
    pub root: Chunk,
}

/// At most 32 bytes in one chunk.
pub open spec fn padded_chunk(s: Seq<u8>) -> Seq<u8> {
    s + sha256::zeros((32 - s.len()) as nat)
}

impl ExtraDataHtrWitness {
    /// What a witness holds.
    pub open spec fn is_witness(&self) -> bool {
        &&& self.extra_data.len() <= 32
        &&& self.packed_root@ == padded_chunk(self.extra_data@)
        &&& self.length_chunk@ == ssz::uint_chunk(self.extra_data.len() as int)
        &&& self.invocation.left@ == self.packed_root@
        &&& self.invocation.right@ == self.length_chunk@
        &&& self.invocation.hash@ == self.root@
        &&& self.root@ == sha256::hash_pair(self.packed_root@, self.length_chunk@)
    }

    /// Build a witness from extra_data bytes, at most 32 of them.
    pub fn from_extra_data(extra_data: Vec<u8>) -> (r: Self)
        requires
            extra_data.len() <= MAX_EXTRA_DATA_BYTES,
        ensures
            r.extra_data@ == extra_data@,
            r.is_witness(),
            r.root@ == ssz::list_root(extra_data@, 32),
    {
        let mut packed_root: Chunk = [0u8; 32];
        let mut i: usize = 0;
        while i < extra_data.len()
            invariant
                i <= extra_data.len(),
                extra_data.len() <= 32,
                forall|k: int| 0 <= k < i ==> packed_root@[k] == extra_data@[k],
                forall|k: int| i <= k < 32 ==> packed_root@[k] == 0,
            decreases extra_data.len() - i,
        {
            packed_root[i] = extra_data[i];
            i = i + 1;
        }
        assert(packed_root@ =~= padded_chunk(extra_data@));
        let length_chunk: Chunk = hash_tree_root_uint(extra_data.len() as u64);
        let root: Chunk = sha256_pair(&packed_root, &length_chunk);
        proof {
            lemma_one_chunk(extra_data@);
        }
        Self {
            extra_data,
            packed_root,
            length_chunk,
            invocation: Sha256PairInvocation { left: packed_root, right: length_chunk, hash: root },
            root,
        }
    }
}

/// The root of at most one chunk of bytes is the chunk.
pub proof fn lemma_one_chunk(s: Seq<u8>)
    requires
        s.len() <= 32,
    ensures
        ssz::bytes_root(s, 1) == padded_chunk(s),
{
    let p = ssz::packed(s);
    if s.len() == 0 {
        assert(p.len() == 0);
        assert(padded_chunk(s) =~= sha256::zeros(32));
    } else {
        assert(p.len() == 1);
        assert(p[0] =~= padded_chunk(s));
    }
}

/// The witness root is the root that the list has as a field of a payload
/// header.
pub proof fn law_root_is_field_root(
    w: ExtraDataHtrWitness,
    p: crate::execution_payload::ExecutionPayloadHeader,
)
    requires
        w.is_witness(),
        w.extra_data@ == p.extra_data@,
    ensures
        w.root@ == p.field_roots()[10],
{
    lemma_one_chunk(w.extra_data@);
}

/// What a witness holds: the data filled up with zeros to one chunk, their
/// length in little-endian form, and the hash of the two as the root.
pub proof fn law_witness_fields(w: ExtraDataHtrWitness)
    requires
        w.is_witness(),
    ensures
        w.extra_data.len() <= 32,
        forall|i: int|
            0 <= i < w.extra_data.len() ==> #[trigger] w.packed_root@[i] == w.extra_data@[i],
        forall|i: int| w.extra_data.len() <= i < 32 ==> #[trigger] w.packed_root@[i] == 0,
        bytes::le_value(w.length_chunk@) == w.extra_data.len(),
        w.invocation.left@ == w.packed_root@,
        w.invocation.right@ == w.length_chunk@,
        w.invocation.hash@ == w.root@,
        w.root@ == sha256::sha256(w.packed_root@ + w.length_chunk@),
        w.root@ == ssz::list_root(w.extra_data@, 32),
{
    ssz::law_uint_chunk(w.extra_data.len() as u64);
    lemma_one_chunk(w.extra_data@);
}

} // verus!
