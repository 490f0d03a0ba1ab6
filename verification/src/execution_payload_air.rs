//! Witness of the SSZ `hash_tree_root` of an execution payload header.
//!
//! 17 fields, padded to 32 leaves (depth 5), take 20 pair invocations across
//! 5 layers:
//!
//! ```text
//! Layer 0 (17 → 9 nodes): pair (0,1), (2,3), ..., (14,15), (16, ZH(0))
//! Layer 1 (9  → 5 nodes): pair (0,1), (2,3), (4,5), (6,7), (8, ZH(1))
//! Layer 2 (5  → 3 nodes): pair (0,1), (2,3), (4, ZH(2))
//! Layer 3 (3  → 2 nodes): pair (0,1), (2, ZH(3))
//! Layer 4 (2  → 1 root):  pair (0,1)
//! ```
//!
//! where `ZH(d)` is the root of a subtree of depth `d` with zero leaves.

use crate::beacon_block_header_air;
use crate::beacon_block_header_air::{Pair, Sha256PairInvocation};
use crate::execution_payload::ExecutionPayloadHeader;
use crate::sha256::sha256_pair;
use crate::sha256;
use crate::ssz;
use crate::ssz::{zero_chunk, Chunk};
use vstd::prelude::*;

verus! {

/// Total number of container-level pair invocations for the 17-field
/// ExecutionPayloadHeader (padded to 32 leaves).
pub const NUM_CONTAINER_PAIR_INVOCATIONS: usize = 20;

/// Number of fields in the Deneb-shape ExecutionPayloadHeader.
pub const NUM_FIELDS: usize = 17;

/// Witness for the ExecutionPayloadHeader hash_tree_root computation.
/// Exposes every container-level `sha256_pair` invocation that the
/// merkleization performs.
#[derive(Clone, Debug, PartialEq, Eq)]
pub struct ExecutionPayloadHeaderHtrWitness {
    /// The source payload header.
    pub payload: ExecutionPayloadHeader,
    /// The 17 field roots passed to the container merkleizer.
    pub field_roots: [Chunk; 17],
    /// All 20 container-level `sha256_pair(left, right) -> hash`
    /// invocations in evaluation order (layer 0 first, then layer 1,
    /// ..., root last).
    pub invocations: [Sha256PairInvocation; 20],
    /// Computed payload root.
    pub root: Chunk,
}

/// The nodes of layer `l` above `leaves`.
pub open spec fn layer_nodes(leaves: Seq<Seq<u8>>, l: nat) -> Seq<Seq<u8>>
    decreases l,
{
    if l == 0 {
        leaves
    } else {
        ssz::parents(layer_nodes(leaves, (l - 1) as nat), ssz::zero_root((l - 1) as nat))
    }
}

/// The invocations that turn a layer of nodes into its parents.
pub open spec fn layer_pairs(nodes: Seq<Seq<u8>>, z: Seq<u8>) -> Seq<Pair> {
    Seq::new(
        ((nodes.len() + 1) / 2) as nat,
        |i: int|
            Pair {
                left: nodes[2 * i],
                right: ssz::node(nodes, z, 2 * i + 1),
                hash: ssz::parents(nodes, z)[i],
            },
    )
}

/// The invocations of the first `l` layers.
pub open spec fn all_pairs(leaves: Seq<Seq<u8>>, l: nat) -> Seq<Pair>
    decreases l,
{
    if l == 0 {
        Seq::empty()
    } else {
        all_pairs(leaves, (l - 1) as nat) + layer_pairs(
            layer_nodes(leaves, (l - 1) as nat),
            ssz::zero_root((l - 1) as nat),
        )
    }
}

/// The number of nodes in layer `l` above 17 leaves.
pub open spec fn layer_size(l: int) -> nat {
    if l == 0 {
        17
    } else if l == 1 {
        9
    } else if l == 2 {
        5
    } else if l == 3 {
        3
    } else if l == 4 {
        2
    } else {
        1
    }
}

/// The number of invocations before layer `l`.
pub open spec fn layer_start(l: int) -> int {
    if l == 0 {
        0
    } else if l == 1 {
        9
    } else if l == 2 {
        14
    } else if l == 3 {
        17
    } else if l == 4 {
        19
    } else {
        20
    }
}

/// The shape of the tree over 17 leaves, and its root.
pub proof fn lemma_shape(leaves: Seq<Seq<u8>>, l: nat)
    requires
        leaves.len() == 17,
        l <= 5,
    ensures
        layer_nodes(leaves, l).len() == layer_size(l as int),
        all_pairs(leaves, l).len() == layer_start(l as int),
        ssz::merkle_root(leaves, 5) == ssz::tree(
            layer_nodes(leaves, l),
            ssz::zero_root(l),
            0,
            (5 - l) as nat,
        ),
    decreases l,
{
    if l > 0 {
        let k = (l - 1) as nat;
        lemma_shape(leaves, k);
        ssz::lemma_parents(layer_nodes(leaves, k), ssz::zero_root(k), 0, (5 - l) as nat);
        assert((5 - l) as nat + 1 == (5 - k) as nat);
    }
}

/// `ZH(depth)`: `sha256_pair` applied `depth` times from the zero chunk.
pub fn zero_hash(depth: u32) -> (r: Chunk)
    ensures
        r@ == ssz::zero_root(depth as nat),
{
    let mut z: Chunk = zero_chunk();
    let mut d: u32 = 0;
    while d < depth
        invariant
            d <= depth,
            z@ == ssz::zero_root(d as nat),
        decreases depth - d,
    {
        z = sha256_pair(&z, &z);
        d = d + 1;
    }
    z
}

impl ExecutionPayloadHeaderHtrWitness {
    /// What a witness holds: the field roots of its payload, the invocations
    /// of the five layers above them, and the root.
    pub open spec fn is_witness(&self) -> bool {
        &&& ssz::chunks(self.field_roots@) == self.payload.field_roots()
        &&& beacon_block_header_air::pairs(self.invocations@) == all_pairs(
            self.payload.field_roots(),
            5,
        )
        &&& self.root@ == self.payload.root()
    }

    /// Build a witness from an `ExecutionPayloadHeader`. Computes all
    /// 20 container-level `sha256_pair` invocations and the final root.
    pub fn from_payload(payload: ExecutionPayloadHeader) -> (r: Self)
        requires
            payload.valid(),
        ensures
            r.payload == payload,
            r.is_witness(),
    {
        let field_roots: [Chunk; 17] = Self::compute_field_roots(&payload);
        let (invocations, root): ([Sha256PairInvocation; 20], Chunk) = Self::merkleize_container(
            &field_roots,
        );
        proof {
            lemma_depth_17();
        }
        Self { payload, field_roots, invocations, root }
    }

    /// Compute the 17 field roots.
    fn compute_field_roots(p: &ExecutionPayloadHeader) -> (r: [Chunk; 17])
        requires
            p.valid(),
        ensures
            ssz::chunks(r@) == p.field_roots(),
    {
        p.compute_field_roots()
    }

    /// Run the 5-layer container merkleization, capturing every pair
    /// invocation. Returns `(invocations, root)`.
    fn merkleize_container(field_roots: &[Chunk; 17]) -> (r: ([Sha256PairInvocation; 20], Chunk))
        ensures
            beacon_block_header_air::pairs(r.0@) == all_pairs(ssz::chunks(field_roots@), 5),
            r.1@ == ssz::merkle_root(ssz::chunks(field_roots@), 5),
    {
        let ghost leaves = ssz::chunks(field_roots@);
        let mut invocations: Vec<Sha256PairInvocation> = Vec::with_capacity(20);
        let mut layer: Vec<Chunk> = Vec::with_capacity(17);
        let mut j: usize = 0;
        while j < 17
            invariant
                j <= 17,
                layer@ =~= field_roots@.take(j as int),
            decreases 17 - j,
        {
            layer.push(field_roots[j]);
            j = j + 1;
        }
        assert(field_roots@.take(17) =~= field_roots@);
        assert(beacon_block_header_air::pairs(invocations@) =~= all_pairs(leaves, 0));
        let mut depth: u32 = 0;
        while depth < 5
            invariant
                depth <= 5,
                leaves.len() == 17,
                ssz::chunks(layer@) == layer_nodes(leaves, depth as nat),
                beacon_block_header_air::pairs(invocations@) == all_pairs(leaves, depth as nat),
            decreases 5 - depth,
        {
            let zh: Chunk = zero_hash(depth);
            let ghost nodes = layer_nodes(leaves, depth as nat);
            let ghost before = invocations@;
            let ghost lp = layer_pairs(nodes, zh@);
            proof {
                lemma_shape(leaves, depth as nat);
                assert(ssz::chunks(layer@).len() == layer@.len());
            }
            let mut next: Vec<Chunk> = Vec::with_capacity((layer.len() + 1) / 2);
            let mut i: usize = 0;
            while i < layer.len()
                invariant
                    i % 2 == 0,
                    i <= layer.len() + 1,
                    layer.len() <= 17,
                    ssz::chunks(layer@) == nodes,
                    lp == layer_pairs(nodes, zh@),
                    next.len() == i / 2,
                    forall|k: int|
                        0 <= k < next.len() ==> (#[trigger] next@[k])@ == ssz::parents(
                            nodes,
                            zh@,
                        )[k],
                    invocations.len() == before.len() + i / 2,
                    forall|k: int| 0 <= k < before.len() ==> invocations@[k] == before[k],
                    forall|k: int|
                        before.len() <= k < invocations.len() ==> (#[trigger] invocations@[k])@
                            == lp[k - before.len()],
                decreases layer.len() + 1 - i,
            {
                let left: Chunk = layer[i];
                let right: Chunk = if i + 1 < layer.len() {
                    layer[i + 1]
                } else {
                    zh
                };
                let hash: Chunk = sha256_pair(&left, &right);
                proof {
                    let k = (i / 2) as int;
                    assert(2 * k == i);
                    assert(nodes[i as int] == left@);
                    assert(ssz::node(nodes, zh@, i + 1) == right@);
                }
                invocations.push(Sha256PairInvocation { left, right, hash });
                next.push(hash);
                i = i + 2;
            }
            proof {
                assert(ssz::chunks(next@) =~= ssz::parents(nodes, zh@));
                assert(beacon_block_header_air::pairs(invocations@)
                    =~= beacon_block_header_air::pairs(before) + lp);
            }
            layer = next;
            depth = depth + 1;
        }
        proof {
            lemma_shape(leaves, 5);
            assert(ssz::chunks(layer@).len() == layer@.len());
            assert(beacon_block_header_air::pairs(invocations@).len() == invocations@.len());
            assert(layer@[0]@ == ssz::chunks(layer@)[0]);
        }
        let array: [Sha256PairInvocation; 20] = [
            invocations[0],
            invocations[1],
            invocations[2],
            invocations[3],
            invocations[4],
            invocations[5],
            invocations[6],
            invocations[7],
            invocations[8],
            invocations[9],
            invocations[10],
            invocations[11],
            invocations[12],
            invocations[13],
            invocations[14],
            invocations[15],
            invocations[16],
            invocations[17],
            invocations[18],
            invocations[19],
        ];
        assert(array@ =~= invocations@);
        (array, layer[0])
    }

    /// Pair invocations at layer `l` (0..=4).
    pub fn layer(&self, l: usize) -> (r: &[Sha256PairInvocation])
        requires
            l <= 4,
        ensures
            r@ == self.invocations@.subrange(layer_start(l as int), layer_start(l + 1)),
    {
        let (start, end): (usize, usize) = match l {
            0 => (0, 9),
            1 => (9, 14),
            2 => (14, 17),
            3 => (17, 19),
            _ => (19, 20),
        };
        vstd::slice::slice_subrange(self.invocations.as_slice(), start, end)
    }

    /// The root invocation (layer 4).
    pub fn root_invocation(&self) -> (r: &Sha256PairInvocation)
        ensures
            *r == self.invocations@[19],
    {
        &self.invocations[NUM_CONTAINER_PAIR_INVOCATIONS - 1]
    }
}

proof fn lemma_depth_17()
    ensures
        ssz::depth_for(17) == 5,
{
    reveal_with_fuel(ssz::depth_for, 6);
}

/// The pairs of layer `l` stand from `layer_start(l)` on.
pub proof fn lemma_pairs_at(leaves: Seq<Seq<u8>>, l: nat, top: nat, i: int)
    requires
        leaves.len() == 17,
        l < top <= 5,
        0 <= i < layer_start(l as int + 1) - layer_start(l as int),
    ensures
        all_pairs(leaves, top).len() == layer_start(top as int),
        all_pairs(leaves, top)[layer_start(l as int) + i] == layer_pairs(
            layer_nodes(leaves, l),
            ssz::zero_root(l),
        )[i],
    decreases top,
{
    lemma_shape(leaves, top);
    lemma_shape(leaves, l);
    lemma_shape(leaves, (top - 1) as nat);
    if l < top - 1 {
        lemma_pairs_at(leaves, l, (top - 1) as nat, i);
    }
}

/// Every invocation of a witness is an honest application of the pair hash.
pub proof fn law_invocations_honest(w: ExecutionPayloadHeaderHtrWitness, k: int)
    requires
        w.is_witness(),
        0 <= k < 20,
    ensures
        w.invocations@[k]@.honest(),
{
    let leaves = w.payload.field_roots();
    let l: nat = if k < 9 {
        0
    } else if k < 14 {
        1
    } else if k < 17 {
        2
    } else if k < 19 {
        3
    } else {
        4
    };
    lemma_pairs_at(leaves, l, 5, k - layer_start(l as int));
    lemma_shape(leaves, l);
    assert(beacon_block_header_air::pairs(w.invocations@)[k] == w.invocations@[k]@);
}

/// Each layer is built from the results of the one below it: pair `i` of
/// layer `l + 1` has the result of pair `2 i` of layer `l` on its left, and
/// on its right that of pair `2 i + 1`, or the zero root where layer `l` has
/// no such pair. Layer 0 is built from the field roots in the same way.
pub proof fn law_layers_chain(w: ExecutionPayloadHeaderHtrWitness, l: nat, i: int)
    requires
        w.is_witness(),
        l <= 4,
        0 <= i < layer_start(l as int + 1) - layer_start(l as int),
    ensures
        l == 0 ==> w.invocations@[i].left@ == w.field_roots@[2 * i]@,
        l == 0 && 2 * i + 1 < 17 ==> w.invocations@[i].right@ == w.field_roots@[2 * i + 1]@,
        l == 0 && 2 * i + 1 >= 17 ==> w.invocations@[i].right@ == ssz::zero_root(0),
        l > 0 ==> w.invocations@[layer_start(l as int) + i].left@ == w.invocations@[layer_start(
            l - 1,
        ) + 2 * i].hash@,
        l > 0 && 2 * i + 1 < layer_size(l as int) ==> w.invocations@[layer_start(l as int)
            + i].right@ == w.invocations@[layer_start(l - 1) + 2 * i + 1].hash@,
        l > 0 && 2 * i + 1 >= layer_size(l as int) ==> w.invocations@[layer_start(l as int)
            + i].right@ == ssz::zero_root(l),
{
    let leaves = w.payload.field_roots();
    let ps = beacon_block_header_air::pairs(w.invocations@);
    lemma_pairs_at(leaves, l, 5, i);
    lemma_shape(leaves, l);
    let at = layer_start(l as int) + i;
    assert(ps[at] == w.invocations@[at]@);
    if l == 0 {
        assert(ssz::chunks(w.field_roots@)[2 * i] == w.field_roots@[2 * i]@);
        if 2 * i + 1 < 17 {
            assert(ssz::chunks(w.field_roots@)[2 * i + 1] == w.field_roots@[2 * i + 1]@);
        }
    } else {
        let k = (l - 1) as nat;
        lemma_shape(leaves, k);
        lemma_pairs_at(leaves, k, 5, 2 * i);
        let below = layer_start(l - 1) + 2 * i;
        assert(ps[below] == w.invocations@[below]@);
        if 2 * i + 1 < layer_size(l as int) {
            lemma_pairs_at(leaves, k, 5, 2 * i + 1);
            assert(ps[below + 1] == w.invocations@[below + 1]@);
        }
    }
}

/// The result of the last invocation is the root of the payload header.
pub proof fn law_root_invocation(w: ExecutionPayloadHeaderHtrWitness)
    requires
        w.is_witness(),
    ensures
        w.invocations@[19].hash@ == w.root@,
        w.root@ == w.payload.root(),
{
    let leaves = w.payload.field_roots();
    lemma_depth_17();
    lemma_pairs_at(leaves, 4, 5, 0);
    lemma_shape(leaves, 5);
    assert(beacon_block_header_air::pairs(w.invocations@)[19] == w.invocations@[19]@);
    assert(layer_nodes(leaves, 5)[0] == ssz::tree(
        layer_nodes(leaves, 5),
        ssz::zero_root(5),
        0,
        0,
    ));
}

/// The shape of a witness, invocation by invocation: nine over the field
/// roots, then five, three, two and one over the results below, each with the
/// zero root of its layer where the layer below has no second node.
pub proof fn law_witness_shape(w: ExecutionPayloadHeaderHtrWitness)
    requires
        w.is_witness(),
    ensures
        forall|i: int| 0 <= i < 17 ==> (#[trigger] w.field_roots@[i])@ == w.payload.field_roots()[i],
        forall|i: int|
            0 <= i < 8 ==> (#[trigger] w.invocations@[i]).left@ == w.payload.field_roots()[2 * i]
                && w.invocations@[i].right@ == w.payload.field_roots()[2 * i + 1],
        w.invocations@[8].left@ == w.payload.field_roots()[16],
        w.invocations@[8].right@ == Seq::new(32, |i: int| 0u8),
        forall|i: int|
            0 <= i < 4 ==> (#[trigger] w.invocations@[9 + i]).left@ == w.invocations@[2 * i].hash@
                && w.invocations@[9 + i].right@ == w.invocations@[2 * i + 1].hash@,
        w.invocations@[13].left@ == w.invocations@[8].hash@,
        w.invocations@[13].right@ == ssz::zero_root(1),
        w.invocations@[14].left@ == w.invocations@[9].hash@,
        w.invocations@[14].right@ == w.invocations@[10].hash@,
        w.invocations@[15].left@ == w.invocations@[11].hash@,
        w.invocations@[15].right@ == w.invocations@[12].hash@,
        w.invocations@[16].left@ == w.invocations@[13].hash@,
        w.invocations@[16].right@ == ssz::zero_root(2),
        w.invocations@[17].left@ == w.invocations@[14].hash@,
        w.invocations@[17].right@ == w.invocations@[15].hash@,
        w.invocations@[18].left@ == w.invocations@[16].hash@,
        w.invocations@[18].right@ == ssz::zero_root(3),
        w.invocations@[19].left@ == w.invocations@[17].hash@,
        w.invocations@[19].right@ == w.invocations@[18].hash@,
        w.invocations@[19].hash@ == w.root@,
        w.root@ == w.payload.root(),
        forall|i: int|
            0 <= i < 20 ==> (#[trigger] w.invocations@[i]).hash@ == sha256::sha256(
                w.invocations@[i].left@ + w.invocations@[i].right@,
            ),
{
    assert forall|i: int| 0 <= i < 17 implies (#[trigger] w.field_roots@[i])@
        == w.payload.field_roots()[i] by {
        assert(ssz::chunks(w.field_roots@)[i] == w.field_roots@[i]@);
    }
    assert forall|i: int| 0 <= i < 8 implies (#[trigger] w.invocations@[i]).left@
        == w.payload.field_roots()[2 * i] && w.invocations@[i].right@ == w.payload.field_roots()[2
        * i + 1] by {
        law_layers_chain(w, 0, i);
        assert(w.field_roots@[2 * i]@ == w.payload.field_roots()[2 * i]);
        assert(w.field_roots@[2 * i + 1]@ == w.payload.field_roots()[2 * i + 1]);
    }
    law_layers_chain(w, 0, 8);
    assert(w.field_roots@[16]@ == w.payload.field_roots()[16]);
    assert(sha256::zeros(32) =~= Seq::new(32, |i: int| 0u8));
    assert forall|i: int| 0 <= i < 4 implies (#[trigger] w.invocations@[9 + i]).left@
        == w.invocations@[2 * i].hash@ && w.invocations@[9 + i].right@ == w.invocations@[2 * i
        + 1].hash@ by {
        law_layers_chain(w, 1, i);
    }
    law_layers_chain(w, 1, 4);
    law_layers_chain(w, 2, 0);
    law_layers_chain(w, 2, 1);
    law_layers_chain(w, 2, 2);
    law_layers_chain(w, 3, 0);
    law_layers_chain(w, 3, 1);
    law_layers_chain(w, 4, 0);
    law_root_invocation(w);
    assert forall|i: int| 0 <= i < 20 implies (#[trigger] w.invocations@[i]).hash@
        == sha256::sha256(w.invocations@[i].left@ + w.invocations@[i].right@) by {
        law_invocations_honest(w, i);
    }
}

/// The layers of a witness: nine, five, three, two and one invocations, one
/// layer after the other.
pub proof fn law_layer_bounds(l: int)
    requires
        0 <= l <= 4,
    ensures
        layer_start(0) == 0,
        layer_start(5) == 20,
        layer_start(l + 1) - layer_start(l) == (layer_size(l) + 1) / 2,
        layer_size(0) == 17,
        layer_size(l + 1) == (layer_size(l) + 1) / 2,
{
}

} // verus!
