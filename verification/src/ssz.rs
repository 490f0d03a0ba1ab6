//! SSZ merkleization.

use crate::bytes;
use crate::sha256;
use vstd::prelude::*;

verus! {

/// A leaf or node of a Merkle tree.
pub type Chunk = [u8; 32];

/// 2 to the power `d`.
pub open spec fn pow2(d: nat) -> int
    decreases d,
{
    if d == 0 {
        1
    } else {
        2 * pow2((d - 1) as nat)
    }
}

/// The bytes of chunks.
pub open spec fn chunks(v: Seq<Chunk>) -> Seq<Seq<u8>> {
    Seq::new(v.len(), |i: int| v[i]@)
}

/// Node `i`, or `z` beyond the last one.
pub open spec fn node(nodes: Seq<Seq<u8>>, z: Seq<u8>, i: int) -> Seq<u8> {
    if 0 <= i < nodes.len() {
        nodes[i]
    } else {
        z
    }
}

/// The root of the perfect binary tree of depth `d` over the nodes from
/// `start` on, with `z` for every node beyond the last one.
pub open spec fn tree(nodes: Seq<Seq<u8>>, z: Seq<u8>, start: int, d: nat) -> Seq<u8>
    decreases d,
{
    if d == 0 {
        node(nodes, z, start)
    } else {
        sha256::hash_pair(
            tree(nodes, z, start, (d - 1) as nat),
            tree(nodes, z, start + pow2((d - 1) as nat), (d - 1) as nat),
        )
    }
}

/// The Merkle root of `leaves` padded with zero chunks to `pow2(d)` leaves.
pub open spec fn merkle_root(leaves: Seq<Seq<u8>>, d: nat) -> Seq<u8> {
    tree(leaves, sha256::zeros(32), 0, d)
}

/// The depth of the smallest perfect tree with at least `n` leaves.
pub open spec fn depth_for(n: nat) -> nat
    decreases n,
{
    if n <= 1 {
        0
    } else {
        1 + depth_for((n + 1) / 2)
    }
}

/// The root of a subtree of depth `d` whose leaves are all zero.
pub open spec fn zero_root(d: nat) -> Seq<u8>
    decreases d,
{
    if d == 0 {
        sha256::zeros(32)
    } else {
        sha256::hash_pair(zero_root((d - 1) as nat), zero_root((d - 1) as nat))
    }
}

/// The parents of a layer of nodes, with `z` as the partner of an odd last
/// node.
pub open spec fn parents(nodes: Seq<Seq<u8>>, z: Seq<u8>) -> Seq<Seq<u8>> {
    Seq::new(
        (nodes.len() + 1) / 2,
        |i: int| sha256::hash_pair(nodes[2 * i], node(nodes, z, 2 * i + 1)),
    )
}

/// A layer above, the tree is one level lower and its filler is the parent of
/// two fillers.
pub proof fn lemma_parents(nodes: Seq<Seq<u8>>, z: Seq<u8>, s: int, d: nat)
    requires
        s >= 0,
    ensures
        tree(nodes, z, 2 * s, d + 1) == tree(parents(nodes, z), sha256::hash_pair(z, z), s, d),
    decreases d,
{
    let up = parents(nodes, z);
    if d == 0 {
        reveal_with_fuel(tree, 2);
        assert(pow2(0) == 1);
        if s < up.len() {
            assert(node(nodes, z, 2 * s) == nodes[2 * s]);
        }
    } else {
        let e = (d - 1) as nat;
        lemma_pow2_pos(e);
        lemma_parents(nodes, z, s, e);
        lemma_parents(nodes, z, s + pow2(e), e);
        assert(pow2(d) == 2 * pow2(e));
        assert(2 * (s + pow2(e)) == 2 * s + pow2(d));
        assert(e + 1 == d);
        assert(tree(nodes, z, 2 * s, d + 1) == sha256::hash_pair(
            tree(nodes, z, 2 * s, d),
            tree(nodes, z, 2 * s + pow2(d), d),
        ));
    }
}

pub proof fn lemma_pow2_pos(d: nat)
    ensures
        pow2(d) > 0,
    decreases d,
{
    if d > 0 {
        lemma_pow2_pos((d - 1) as nat);
    }
}

/// The tree of the depth for `n` leaves has room for all of them, and half of
/// it has not.
pub proof fn law_depth(n: nat)
    ensures
        n <= pow2(depth_for(n)),
        n > 1 ==> pow2((depth_for(n) - 1) as nat) < n,
    decreases n,
{
    if n > 1 {
        law_depth((n + 1) / 2);
        let d = depth_for((n + 1) / 2);
        if d > 0 {
            assert(pow2(d) == 2 * pow2((d - 1) as nat));
        }
    }
}

/// A chunk of zeros.
pub fn zero_chunk() -> (r: Chunk)
    ensures
        r@ == sha256::zeros(32),
{
    let r: Chunk = [0u8; 32];
    assert(r@ =~= sha256::zeros(32));
    r
}

/// The parents of a layer of nodes.
fn parent_layer(nodes: &Vec<Chunk>, z: &Chunk) -> (r: Vec<Chunk>)
    requires
        nodes.len() < usize::MAX,
    ensures
        chunks(r@) == parents(chunks(nodes@), z@),
{
    let n: usize = (nodes.len() + 1) / 2;
    let mut out: Vec<Chunk> = Vec::with_capacity(n);
    let mut i: usize = 0;
    let ghost up = parents(chunks(nodes@), z@);
    while i < n
        invariant
            i <= n,
            n == (nodes.len() + 1) / 2,
            nodes.len() < usize::MAX,
            up == parents(chunks(nodes@), z@),
            out.len() == i,
            forall|k: int| 0 <= k < i ==> (#[trigger] out@[k])@ == up[k],
        decreases n - i,
    {
        let right: Chunk = if 2 * i + 1 < nodes.len() {
            nodes[2 * i + 1]
        } else {
            *z
        };
        out.push(sha256::sha256_pair(&nodes[2 * i], &right));
        i = i + 1;
    }
    assert(chunks(out@) =~= up);
    out
}

/// Merkle root of `nodes` padded with zero chunks to a tree of depth `depth`.
/// Nodes beyond the tree do not count.
pub fn merkleize(nodes: Vec<Chunk>, depth: usize) -> (r: Chunk)
    requires
        nodes.len() < usize::MAX,
    ensures
        r@ == merkle_root(chunks(nodes@), depth as nat),
{
    let ghost want = merkle_root(chunks(nodes@), depth as nat);
    let mut layer: Vec<Chunk> = nodes;
    let mut z: Chunk = zero_chunk();
    let mut k: usize = 0;
    while k < depth
        invariant
            k <= depth,
            layer.len() < usize::MAX,
            tree(chunks(layer@), z@, 0, (depth - k) as nat) == want,
        decreases depth - k,
    {
        proof {
            lemma_parents(chunks(layer@), z@, 0, (depth - k - 1) as nat);
            assert((depth - k - 1) as nat + 1 == (depth - k) as nat);
        }
        let next: Vec<Chunk> = parent_layer(&layer, &z);
        proof {
            assert(chunks(next@).len() == next@.len());
            assert(parents(chunks(layer@), z@).len() <= layer@.len());
        }
        z = sha256::sha256_pair(&z, &z);
        layer = next;
        k = k + 1;
    }
    if layer.len() > 0 {
        layer[0]
    } else {
        z
    }
}

/// The depth for a number of leaves.
pub fn tree_depth(n: usize) -> (r: usize)
    ensures
        r == depth_for(n as nat),
        r <= n,
    decreases n,
{
    if n <= 1 {
        0
    } else {
        1 + tree_depth(n / 2 + n % 2)
    }
}

/// `hash_tree_root` of a container: the Merkle root of its field roots.
pub fn hash_tree_root_container(field_roots: &[Chunk]) -> (r: Chunk)
    requires
        field_roots.len() < usize::MAX,
    ensures
        r@ == merkle_root(chunks(field_roots@), depth_for(field_roots.len() as nat)),
{
    let mut nodes: Vec<Chunk> = Vec::with_capacity(field_roots.len());
    let mut i: usize = 0;
    while i < field_roots.len()
        invariant
            i <= field_roots.len(),
            nodes@ =~= field_roots@.take(i as int),
        decreases field_roots.len() - i,
    {
        nodes.push(field_roots[i]);
        i = i + 1;
    }
    assert(field_roots@.take(i as int) =~= field_roots@);
    let depth: usize = tree_depth(field_roots.len());
    merkleize(nodes, depth)
}

/// Bytes packed into chunks, the last one padded with zeros.
pub open spec fn packed(s: Seq<u8>) -> Seq<Seq<u8>> {
    Seq::new(
        ((s.len() + 31) / 32) as nat,
        |i: int|
            Seq::new(
                32,
                |j: int|
                    if 32 * i + j < s.len() {
                        s[32 * i + j]
                    } else {
                        0u8
                    },
            ),
    )
}

/// Packs bytes into chunks.
pub fn pack_bytes(data: &[u8]) -> (r: Vec<Chunk>)
    requires
        data.len() <= usize::MAX - 64,
    ensures
        r.len() == (data.len() + 31) / 32,
        chunks(r@) == packed(data@),
{
    let n: usize = (data.len() + 31) / 32;
    let mut out: Vec<Chunk> = Vec::with_capacity(n);
    let ghost want = packed(data@);
    let mut i: usize = 0;
    while i < n
        invariant
            i <= n,
            n == (data.len() + 31) / 32,
            data.len() <= usize::MAX - 64,
            want == packed(data@),
            out.len() == i,
            forall|k: int| 0 <= k < i ==> (#[trigger] out@[k])@ == want[k],
        decreases n - i,
    {
        let mut chunk: Chunk = [0u8; 32];
        let mut j: usize = 0;
        while j < 32
            invariant
                j <= 32,
                i < n,
                n == (data.len() + 31) / 32,
                data.len() <= usize::MAX - 64,
                forall|k: int|
                    0 <= k < j ==> chunk@[k] == (if 32 * i + k < data.len() {
                        data@[32 * i + k]
                    } else {
                        0u8
                    }),
            decreases 32 - j,
        {
            if 32 * i + j < data.len() {
                chunk[j] = data[32 * i + j];
            } else {
                chunk[j] = 0;
            }
            j = j + 1;
        }
        assert(chunk@ =~= want[i as int]);
        out.push(chunk);
        i = i + 1;
    }
    assert(chunks(out@) =~= want);
    out
}

/// `hash_tree_root` of a byte vector of `n_chunks` chunks.
pub open spec fn bytes_root(s: Seq<u8>, n_chunks: nat) -> Seq<u8> {
    merkle_root(packed(s), depth_for(n_chunks))
}

/// `hash_tree_root` of a byte vector of `n_chunks` chunks.
pub fn hash_tree_root_bytes_fixed(data: &[u8], n_chunks: usize) -> (r: Chunk)
    requires
        data.len() <= 32 * n_chunks,
        data.len() <= usize::MAX - 64,
    ensures
        r@ == bytes_root(data@, n_chunks as nat),
{
    let nodes: Vec<Chunk> = pack_bytes(data);
    let depth: usize = tree_depth(n_chunks);
    merkleize(nodes, depth)
}

/// A number as a chunk, little-endian.
pub open spec fn uint_chunk(x: int) -> Seq<u8> {
    Seq::new(
        32,
        |i: int|
            if i < 8 {
                bytes::le_byte(x, i) as u8
            } else {
                0u8
            },
    )
}

/// `hash_tree_root` of a `uint64`.
pub fn hash_tree_root_uint(x: u64) -> (r: Chunk)
    ensures
        r@ == uint_chunk(x as int),
{
    let le: [u8; 8] = bytes::u64_to_le(x);
    let mut out: Chunk = [0u8; 32];
    let mut i: usize = 0;
    while i < 8
        invariant
            i <= 8,
            forall|k: int| 0 <= k < i ==> out@[k] == le@[k],
            forall|k: int| i <= k < 32 ==> out@[k] == 0,
        decreases 8 - i,
    {
        out[i] = le[i];
        i = i + 1;
    }
    assert(out@ =~= uint_chunk(x as int));
    out
}

/// `hash_tree_root` of a byte list of at most `max` bytes: the root of its
/// chunks, mixed with its length.
pub open spec fn list_root(s: Seq<u8>, max: nat) -> Seq<u8> {
    sha256::hash_pair(bytes_root(s, ((max + 31) / 32) as nat), uint_chunk(s.len() as int))
}

/// `hash_tree_root` of a byte list of at most `max` bytes.
pub fn hash_tree_root_list_bytes(data: &[u8], max: u64) -> (r: Chunk)
    requires
        data.len() <= max,
        max <= usize::MAX - 64,
    ensures
        r@ == list_root(data@, max as nat),
{
    let limit: usize = (max as usize + 31) / 32;
    let root: Chunk = hash_tree_root_bytes_fixed(data, limit);
    let length: Chunk = hash_tree_root_uint(data.len() as u64);
    sha256::sha256_pair(&root, &length)
}

/// The chunk of a number: 32 bytes that hold it in little-endian form.
pub proof fn law_uint_chunk(x: u64)
    ensures
        uint_chunk(x as int).len() == 32,
        bytes::le_value(uint_chunk(x as int)) == x,
        forall|i: int| 8 <= i < 32 ==> #[trigger] uint_chunk(x as int)[i] == 0,
{
    let c = uint_chunk(x as int);
    bytes::law_eight_bytes(x);
    bytes::lemma_le_value_from_bytes(c, x as int, 8);
    bytes::lemma_le_byte_sum_u64(x);
    assert(c =~= c.take(8) + c.skip(8));
    bytes::lemma_le_trailing_zeros(c.take(8), c.skip(8));
}

/// Different numbers have different chunks.
pub proof fn law_uint_chunk_injective(x: u64, y: u64)
    requires
        uint_chunk(x as int) == uint_chunk(y as int),
    ensures
        x == y,
{
    law_uint_chunk(x);
    law_uint_chunk(y);
}

/// A tree of depth zero is its one leaf, or zeros; a deeper one hashes the
/// trees of its two halves, where what is missing are zeros.
pub proof fn law_root_of_halves(leaves: Seq<Seq<u8>>, d: nat)
    ensures
        leaves.len() >= 1 ==> merkle_root(leaves, 0) == leaves[0],
        leaves.len() == 0 ==> merkle_root(leaves, 0) == Seq::new(32, |i: int| 0u8),
        leaves.len() >= pow2(d) ==> merkle_root(leaves, d + 1) == sha256::hash_pair(
            merkle_root(leaves.take(pow2(d)), d),
            merkle_root(leaves.skip(pow2(d)), d),
        ),
        leaves.len() <= pow2(d) ==> merkle_root(leaves, d + 1) == sha256::hash_pair(
            merkle_root(leaves, d),
            merkle_root(Seq::empty(), d),
        ),
{
    let z = sha256::zeros(32);
    assert(z =~= Seq::new(32, |i: int| 0u8));
    lemma_pow2_pos(d);
    let h = pow2(d);
    assert(tree(leaves, z, 0, d + 1) == sha256::hash_pair(
        tree(leaves, z, 0, d),
        tree(leaves, z, h, d),
    ));
    if leaves.len() >= h {
        lemma_tree_local(leaves, leaves.take(h), z, 0, 0, d);
        lemma_tree_local(leaves, leaves.skip(h), z, h, 0, d);
    }
    if leaves.len() <= h {
        lemma_tree_local(leaves, Seq::empty(), z, h, 0, d);
    }
}

/// A tree depends only on the leaves under it.
proof fn lemma_tree_local(
    a: Seq<Seq<u8>>,
    b: Seq<Seq<u8>>,
    z: Seq<u8>,
    s: int,
    q: int,
    d: nat,
)
    requires
        forall|i: int| 0 <= i < pow2(d) ==> #[trigger] node(a, z, s + i) == node(b, z, q + i),
    ensures
        tree(a, z, s, d) == tree(b, z, q, d),
    decreases d,
{
    if d == 0 {
        assert(node(a, z, s + 0) == node(b, z, q + 0));
    } else {
        let k = (d - 1) as nat;
        let h = pow2(k);
        lemma_pow2_pos(k);
        assert forall|i: int| 0 <= i < h implies #[trigger] node(a, z, s + i) == node(
            b,
            z,
            q + i,
        ) by {}
        lemma_tree_local(a, b, z, s, q, k);
        assert forall|i: int| 0 <= i < h implies #[trigger] node(a, z, s + h + i) == node(
            b,
            z,
            q + h + i,
        ) by {
            assert(node(a, z, s + (h + i)) == node(b, z, q + (h + i)));
        }
        lemma_tree_local(a, b, z, s + h, q + h, k);
    }
}

/// Leaves of zeros at the end do not change a root, and a tree without leaves
/// has the root of zeros: at every depth the hash of two of the depth below.
pub proof fn law_zero_leaves(leaves: Seq<Seq<u8>>, d: nat)
    ensures
        merkle_root(leaves.push(Seq::new(32, |i: int| 0u8)), d) == merkle_root(leaves, d),
        merkle_root(Seq::empty(), d) == zero_root(d),
        zero_root(0) == Seq::new(32, |i: int| 0u8),
        zero_root(d + 1) == sha256::hash_pair(zero_root(d), zero_root(d)),
    decreases d,
{
    let z = sha256::zeros(32);
    assert(z =~= Seq::new(32, |i: int| 0u8));
    lemma_tree_local(leaves.push(z), leaves, z, 0, 0, d);
    if d > 0 {
        let k = (d - 1) as nat;
        law_zero_leaves(leaves, k);
        lemma_pow2_pos(k);
        lemma_tree_local(Seq::empty(), Seq::empty(), z, pow2(k), 0, k);
    }
}

/// Packing cuts a string into chunks of 32 bytes: byte `k` of the string is
/// byte `k mod 32` of chunk `k / 32`, the last chunk is filled up with zeros,
/// and no chunk is superfluous.
pub proof fn law_packed(s: Seq<u8>, k: int)
    requires
        0 <= k < 32 * packed(s).len(),
    ensures
        packed(s).len() > 0 ==> 32 * (packed(s).len() - 1) < s.len(),
        s.len() <= 32 * packed(s).len(),
        packed(s)[k / 32].len() == 32,
        k < s.len() ==> packed(s)[k / 32][k % 32] == s[k],
        k >= s.len() ==> packed(s)[k / 32][k % 32] == 0,
{
}

/// The root of a byte list: the root of its chunks in a tree with room for the
/// longest list, hashed with the length.
pub proof fn law_list_root(s: Seq<u8>, max: nat, d: nat)
    requires
        pow2(d) >= (max + 31) / 32,
        d > 0 ==> pow2((d - 1) as nat) < (max + 31) / 32,
        s.len() <= u64::MAX,
    ensures
        list_root(s, max) == sha256::hash_pair(
            merkle_root(packed(s), d),
            uint_chunk(s.len() as int),
        ),
{
    lemma_depth_unique(((max + 31) / 32) as nat, d);
}

/// The root of a byte vector: the root of its chunks in the smallest tree with
/// room for them.
pub proof fn law_bytes_root(s: Seq<u8>, n_chunks: nat, d: nat)
    requires
        pow2(d) >= n_chunks,
        d > 0 ==> pow2((d - 1) as nat) < n_chunks,
    ensures
        bytes_root(s, n_chunks) == merkle_root(packed(s), d),
{
    lemma_depth_unique(n_chunks, d);
}

/// There is one smallest depth.
proof fn lemma_depth_unique(n: nat, d: nat)
    requires
        pow2(d) >= n,
        d > 0 ==> pow2((d - 1) as nat) < n,
    ensures
        depth_for(n) == d,
{
    law_depth(n);
    let e = depth_for(n);
    if e < d {
        lemma_pow2_monotone(e, (d - 1) as nat);
    }
    if d < e {
        if n > 1 {
            lemma_pow2_monotone(d, (e - 1) as nat);
        }
    }
}

proof fn lemma_pow2_monotone(a: nat, b: nat)
    requires
        a <= b,
    ensures
        pow2(a) <= pow2(b),
    decreases b,
{
    if a < b {
        lemma_pow2_monotone(a, (b - 1) as nat);
        lemma_pow2_pos((b - 1) as nat);
    }
}

} // verus!
