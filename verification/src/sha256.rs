//! SHA-256, as FIPS 180-4 defines it, and its application to a pair of
//! 32-byte chunks.

use crate::bytes;
use vstd::prelude::*;

verus! {

/// The eight working words.
#[derive(Clone, Copy)]
pub struct Words {
    pub a: u32,
    pub b: u32,
    pub c: u32,
    pub d: u32,
    pub e: u32,
    pub f: u32,
    pub g: u32,
    pub h: u32,
}

/// Addition modulo `2^32`.
pub open spec fn add32(x: u32, y: u32) -> u32 {
    ((x + y) % 0x1_0000_0000) as u32
}

/// Rotation to the right by `n`, with `m = 32 - n`.
pub open spec fn rotr(x: u32, n: u32, m: u32) -> u32 {
    (x >> n) | (x << m)
}

pub open spec fn big_sigma0(x: u32) -> u32 {
    rotr(x, 2, 30) ^ rotr(x, 13, 19) ^ rotr(x, 22, 10)
}

pub open spec fn big_sigma1(x: u32) -> u32 {
    rotr(x, 6, 26) ^ rotr(x, 11, 21) ^ rotr(x, 25, 7)
}

pub open spec fn small_sigma0(x: u32) -> u32 {
    rotr(x, 7, 25) ^ rotr(x, 18, 14) ^ (x >> 3u32)
}

pub open spec fn small_sigma1(x: u32) -> u32 {
    rotr(x, 17, 15) ^ rotr(x, 19, 13) ^ (x >> 10u32)
}

pub open spec fn choose_bits(x: u32, y: u32, z: u32) -> u32 {
    (x & y) ^ (!x & z)
}

pub open spec fn majority(x: u32, y: u32, z: u32) -> u32 {
    (x & y) ^ (x & z) ^ (y & z)
}

/// The round constants.
pub open spec fn round_constants() -> Seq<u32> {
    seq![
        0x428a2f98u32, 0x71374491, 0xb5c0fbcf, 0xe9b5dba5, 0x3956c25b, 0x59f111f1, 0x923f82a4,
        0xab1c5ed5, 0xd807aa98, 0x12835b01, 0x243185be, 0x550c7dc3, 0x72be5d74, 0x80deb1fe,
        0x9bdc06a7, 0xc19bf174, 0xe49b69c1, 0xefbe4786, 0x0fc19dc6, 0x240ca1cc, 0x2de92c6f,
        0x4a7484aa, 0x5cb0a9dc, 0x76f988da, 0x983e5152, 0xa831c66d, 0xb00327c8, 0xbf597fc7,
        0xc6e00bf3, 0xd5a79147, 0x06ca6351, 0x14292967, 0x27b70a85, 0x2e1b2138, 0x4d2c6dfc,
        0x53380d13, 0x650a7354, 0x766a0abb, 0x81c2c92e, 0x92722c85, 0xa2bfe8a1, 0xa81a664b,
        0xc24b8b70, 0xc76c51a3, 0xd192e819, 0xd6990624, 0xf40e3585, 0x106aa070, 0x19a4c116,
        0x1e376c08, 0x2748774c, 0x34b0bcb5, 0x391c0cb3, 0x4ed8aa4a, 0x5b9cca4f, 0x682e6ff3,
        0x748f82ee, 0x78a5636f, 0x84c87814, 0x8cc70208, 0x90befffa, 0xa4506ceb, 0xbef9a3f7,
        0xc67178f2
    ]
}

/// The initial hash value.
pub open spec fn initial() -> Words {
    Words {
        a: 0x6a09e667,
        b: 0xbb67ae85,
        c: 0x3c6ef372,
        d: 0xa54ff53a,
        e: 0x510e527f,
        f: 0x9b05688c,
        g: 0x1f83d9ab,
        h: 0x5be0cd19,
    }
}

/// Word `t` of the message schedule of a block of 64 bytes.
pub open spec fn schedule(block: Seq<u8>, t: nat) -> u32
    decreases t,
{
    if t < 16 {
        let i = 4 * (t as int);
        (block[i] * 0x100_0000 + block[i + 1] * 0x1_0000 + block[i + 2] * 0x100 + block[i + 3]) as u32
    } else {
        add32(
            add32(
                add32(
                    small_sigma1(schedule(block, (t - 2) as nat)),
                    schedule(block, (t - 7) as nat),
                ),
                small_sigma0(schedule(block, (t - 15) as nat)),
            ),
            schedule(block, (t - 16) as nat),
        )
    }
}

/// One round with round constant `k` and schedule word `w`.
pub open spec fn round(s: Words, k: u32, w: u32) -> Words {
    let t1 = add32(add32(add32(add32(s.h, big_sigma1(s.e)), choose_bits(s.e, s.f, s.g)), k), w);
    let t2 = add32(big_sigma0(s.a), majority(s.a, s.b, s.c));
    Words { a: add32(t1, t2), b: s.a, c: s.b, d: s.c, e: add32(s.d, t1), f: s.e, g: s.f, h: s.g }
}

/// The first `t` rounds on a block.
pub open spec fn rounds(s: Words, block: Seq<u8>, t: nat) -> Words
    decreases t,
{
    if t == 0 {
        s
    } else {
        round(
            rounds(s, block, (t - 1) as nat),
            round_constants()[t - 1],
            schedule(block, (t - 1) as nat),
        )
    }
}

/// The compression function.
pub open spec fn compress(s: Words, block: Seq<u8>) -> Words {
    let r = rounds(s, block, 64);
    Words {
        a: add32(s.a, r.a),
        b: add32(s.b, r.b),
        c: add32(s.c, r.c),
        d: add32(s.d, r.d),
        e: add32(s.e, r.e),
        f: add32(s.f, r.f),
        g: add32(s.g, r.g),
        h: add32(s.h, r.h),
    }
}

/// The compression function applied to successive blocks.
pub open spec fn compress_all(s: Words, m: Seq<u8>) -> Words
    decreases m.len(),
{
    if m.len() < 64 {
        s
    } else {
        compress_all(compress(s, m.take(64)), m.skip(64))
    }
}

/// `n` zero bytes.
pub open spec fn zeros(n: nat) -> Seq<u8> {
    Seq::new(n, |i: int| 0u8)
}

/// A number as eight big-endian bytes.
pub open spec fn be8(x: int) -> Seq<u8> {
    seq![
        (x / 0x100_0000_0000_0000 % 256) as u8,
        (x / 0x1_0000_0000_0000 % 256) as u8,
        (x / 0x100_0000_0000 % 256) as u8,
        (x / 0x1_0000_0000 % 256) as u8,
        (x / 0x100_0000 % 256) as u8,
        (x / 0x1_0000 % 256) as u8,
        (x / 0x100 % 256) as u8,
        (x % 256) as u8,
    ]
}

/// The padded message: a one bit, zeros, and the bit length.
pub open spec fn padded(msg: Seq<u8>) -> Seq<u8> {
    msg + seq![0x80u8] + zeros(((119 - msg.len() % 64) % 64) as nat) + be8(8 * msg.len() as int)
}

/// A word as four big-endian bytes.
pub open spec fn be4(x: u32) -> Seq<u8> {
    seq![
        (x / 0x100_0000 % 256) as u8,
        (x / 0x1_0000 % 256) as u8,
        (x / 0x100 % 256) as u8,
        (x % 256) as u8,
    ]
}

/// The digest of a final state.
pub open spec fn digest(s: Words) -> Seq<u8> {
    be4(s.a) + be4(s.b) + be4(s.c) + be4(s.d) + be4(s.e) + be4(s.f) + be4(s.g) + be4(s.h)
}

/// SHA-256 of a message.
#[verifier::opaque]
pub open spec fn sha256(msg: Seq<u8>) -> Seq<u8> {
    digest(compress_all(initial(), padded(msg)))
}

/// SHA-256 of two chunks in a row.
pub open spec fn hash_pair(left: Seq<u8>, right: Seq<u8>) -> Seq<u8> {
    sha256(left + right)
}

fn wrapping(x: u32, y: u32) -> (r: u32)
    ensures
        r == add32(x, y),
{
    ((x as u64 + y as u64) % 0x1_0000_0000) as u32
}

fn constants() -> (r: [u32; 64])
    ensures
        r@ == round_constants(),
{
    let r: [u32; 64] = [
        0x428a2f98, 0x71374491, 0xb5c0fbcf, 0xe9b5dba5, 0x3956c25b, 0x59f111f1, 0x923f82a4,
        0xab1c5ed5, 0xd807aa98, 0x12835b01, 0x243185be, 0x550c7dc3, 0x72be5d74, 0x80deb1fe,
        0x9bdc06a7, 0xc19bf174, 0xe49b69c1, 0xefbe4786, 0x0fc19dc6, 0x240ca1cc, 0x2de92c6f,
        0x4a7484aa, 0x5cb0a9dc, 0x76f988da, 0x983e5152, 0xa831c66d, 0xb00327c8, 0xbf597fc7,
        0xc6e00bf3, 0xd5a79147, 0x06ca6351, 0x14292967, 0x27b70a85, 0x2e1b2138, 0x4d2c6dfc,
        0x53380d13, 0x650a7354, 0x766a0abb, 0x81c2c92e, 0x92722c85, 0xa2bfe8a1, 0xa81a664b,
        0xc24b8b70, 0xc76c51a3, 0xd192e819, 0xd6990624, 0xf40e3585, 0x106aa070, 0x19a4c116,
        0x1e376c08, 0x2748774c, 0x34b0bcb5, 0x391c0cb3, 0x4ed8aa4a, 0x5b9cca4f, 0x682e6ff3,
        0x748f82ee, 0x78a5636f, 0x84c87814, 0x8cc70208, 0x90befffa, 0xa4506ceb, 0xbef9a3f7,
        0xc67178f2,
    ];
    assert(r@ =~= round_constants());
    r
}

fn schedule_words(block: &[u8; 64]) -> (w: Vec<u32>)
    ensures
        w.len() == 64,
        forall|t: int| 0 <= t < 64 ==> w@[t] == schedule(block@, t as nat),
{
    let mut w: Vec<u32> = Vec::with_capacity(64);
    let mut t: usize = 0;
    while t < 64
        invariant
            t <= 64,
            w.len() == t,
            forall|i: int| 0 <= i < t ==> w@[i] == schedule(block@, i as nat),
        decreases 64 - t,
    {
        if t < 16 {
            let x: u32 = (block[4 * t] as u32) * 0x100_0000 + (block[4 * t + 1] as u32) * 0x1_0000
                + (block[4 * t + 2] as u32) * 0x100 + block[4 * t + 3] as u32;
            w.push(x);
        } else {
            let p: u32 = w[t - 2];
            let q: u32 = w[t - 15];
            let s1: u32 = ((p >> 17) | (p << 15)) ^ ((p >> 19) | (p << 13)) ^ (p >> 10);
            let s0: u32 = ((q >> 7) | (q << 25)) ^ ((q >> 18) | (q << 14)) ^ (q >> 3);
            let x: u32 = wrapping(wrapping(wrapping(s1, w[t - 7]), s0), w[t - 16]);
            w.push(x);
        }
        t = t + 1;
    }
    w
}

fn one_round(s: &Words, k: u32, w: u32) -> (r: Words)
    ensures
        r == round(*s, k, w),
{
    let e: u32 = s.e;
    let a: u32 = s.a;
    let s1: u32 = ((e >> 6) | (e << 26)) ^ ((e >> 11) | (e << 21)) ^ ((e >> 25) | (e << 7));
    let ch: u32 = (e & s.f) ^ (!e & s.g);
    let t1: u32 = wrapping(wrapping(wrapping(wrapping(s.h, s1), ch), k), w);
    let s0: u32 = ((a >> 2) | (a << 30)) ^ ((a >> 13) | (a << 19)) ^ ((a >> 22) | (a << 10));
    let maj: u32 = (a & s.b) ^ (a & s.c) ^ (s.b & s.c);
    let t2: u32 = wrapping(s0, maj);
    Words {
        a: wrapping(t1, t2),
        b: a,
        c: s.b,
        d: s.c,
        e: wrapping(s.d, t1),
        f: e,
        g: s.f,
        h: s.g,
    }
}

fn compress_block(s: &Words, block: &[u8; 64]) -> (r: Words)
    ensures
        r == compress(*s, block@),
{
    let w: Vec<u32> = schedule_words(block);
    let k: [u32; 64] = constants();
    let mut x: Words = *s;
    let mut t: usize = 0;
    while t < 64
        invariant
            t <= 64,
            w.len() == 64,
            forall|i: int| 0 <= i < 64 ==> w@[i] == schedule(block@, i as nat),
            k@ == round_constants(),
            x == rounds(*s, block@, t as nat),
        decreases 64 - t,
    {
        x = one_round(&x, k[t], w[t]);
        t = t + 1;
    }
    Words {
        a: wrapping(s.a, x.a),
        b: wrapping(s.b, x.b),
        c: wrapping(s.c, x.c),
        d: wrapping(s.d, x.d),
        e: wrapping(s.e, x.e),
        f: wrapping(s.f, x.f),
        g: wrapping(s.g, x.g),
        h: wrapping(s.h, x.h),
    }
}

fn word_bytes(x: u32) -> (r: [u8; 4])
    ensures
        r@ == be4(x),
{
    let r: [u8; 4] = [
        (x / 0x100_0000 % 256) as u8,
        (x / 0x1_0000 % 256) as u8,
        (x / 0x100 % 256) as u8,
        (x % 256) as u8,
    ];
    assert(r@ =~= be4(x));
    r
}

fn digest_bytes(s: &Words) -> (r: [u8; 32])
    ensures
        r@ == digest(*s),
{
    let words: [[u8; 4]; 8] = [
        word_bytes(s.a),
        word_bytes(s.b),
        word_bytes(s.c),
        word_bytes(s.d),
        word_bytes(s.e),
        word_bytes(s.f),
        word_bytes(s.g),
        word_bytes(s.h),
    ];
    let mut out: [u8; 32] = [0u8; 32];
    let ghost want = digest(*s);
    proof {
        assert forall|k: int| 0 <= k < 32 implies words@[k / 4]@[k % 4] == #[trigger] want[k] by {
            let q = k / 4;
            assert(q == 0 || q == 1 || q == 2 || q == 3 || q == 4 || q == 5 || q == 6 || q == 7);
        }
    }
    let mut i: usize = 0;
    while i < 32
        invariant
            i <= 32,
            want.len() == 32,
            forall|k: int| 0 <= k < 32 ==> words@[k / 4]@[k % 4] == #[trigger] want[k],
            forall|k: int| 0 <= k < i ==> out@[k] == want[k],
        decreases 32 - i,
    {
        out[i] = words[i / 4][i % 4];
        i = i + 1;
    }
    assert(out@ =~= want);
    out
}

/// The padded form of 64 bytes is those bytes and one constant block.
proof fn lemma_padded_pair(msg: Seq<u8>, tail: Seq<u8>)
    requires
        msg.len() == 64,
        tail.len() == 64,
        tail[0] == 0x80,
        tail[62] == 2,
        forall|i: int| 1 <= i < 62 ==> tail[i] == 0,
        tail[63] == 0,
    ensures
        sha256(msg) == digest(compress(compress(initial(), msg), tail)),
{
    reveal(sha256);
    let m = padded(msg);
    assert(m.len() == 128);
    assert(m.take(64) =~= msg);
    assert(m.skip(64) =~= tail);
    let mid = compress(initial(), msg);
    assert(compress_all(initial(), m) == compress_all(mid, tail));
    assert(tail.take(64) =~= tail);
    let end = compress(mid, tail);
    assert(tail.skip(64).len() == 0);
    assert(compress_all(end, tail.skip(64)) == end);
}

/// SHA-256 of two chunks in a row.
pub fn sha256_pair(left: &[u8; 32], right: &[u8; 32]) -> (r: [u8; 32])
    ensures
        r@ == hash_pair(left@, right@),
{
    let mut block: [u8; 64] = [0u8; 64];
    let mut i: usize = 0;
    while i < 32
        invariant
            i <= 32,
            forall|j: int| 0 <= j < i ==> block@[j] == left@[j],
            forall|j: int| 0 <= j < i ==> block@[32 + j] == right@[j],
        decreases 32 - i,
    {
        block[i] = left[i];
        block[32 + i] = right[i];
        i = i + 1;
    }
    let mut tail: [u8; 64] = [0u8; 64];
    tail[0] = 0x80;
    tail[62] = 0x02;
    let iv: Words = Words {
        a: 0x6a09e667,
        b: 0xbb67ae85,
        c: 0x3c6ef372,
        d: 0xa54ff53a,
        e: 0x510e527f,
        f: 0x9b05688c,
        g: 0x1f83d9ab,
        h: 0x5be0cd19,
    };
    let mid: Words = compress_block(&iv, &block);
    let end: Words = compress_block(&mid, &tail);
    proof {
        assert(left@ + right@ =~= block@);
        lemma_padded_pair(block@, tail@);
    }
    digest_bytes(&end)
}

/// A digest has 32 bytes.
pub proof fn law_digest_length(msg: Seq<u8>, left: Seq<u8>, right: Seq<u8>)
    ensures
        sha256(msg).len() == 32,
        hash_pair(left, right).len() == 32,
        hash_pair(left, right) == sha256(left + right),
{
    reveal(sha256);
}

proof fn lemma_be4(x: u32)
    ensures
        0x100_0000 * be4(x)[0] + 0x1_0000 * be4(x)[1] + 0x100 * be4(x)[2] + be4(x)[3] == x,
        be4(x).len() == 4,
{
}

proof fn lemma_be8(x: u64)
    ensures
        x == 0x100_0000_0000_0000 * be8(x as int)[0] + 0x1_0000_0000_0000 * be8(x as int)[1]
            + 0x100_0000_0000 * be8(x as int)[2] + 0x1_0000_0000 * be8(x as int)[3] + 0x100_0000
            * be8(x as int)[4] + 0x1_0000 * be8(x as int)[5] + 0x100 * be8(x as int)[6] + be8(
            x as int,
        )[7],
        be8(x as int).len() == 8,
{
    let v = x as int;
    let s = be8(v);
    bytes::law_eight_bytes(x);
    bytes::lemma_pow256_values();
    assert(v / 1 == v);
    assert(s[7] == bytes::le_byte(v, 0));
    assert(s[6] == bytes::le_byte(v, 1));
    assert(s[5] == bytes::le_byte(v, 2));
    assert(s[4] == bytes::le_byte(v, 3));
    assert(s[3] == bytes::le_byte(v, 4));
    assert(s[2] == bytes::le_byte(v, 5));
    assert(s[1] == bytes::le_byte(v, 6));
    assert(s[0] == bytes::le_byte(v, 7));
}

/// The number of the four bytes from position `i`, most significant first.
pub open spec fn word_at(s: Seq<u8>, i: int) -> int {
    0x100_0000 * s[i] + 0x1_0000 * s[i + 1] + 0x100 * s[i + 2] + s[i + 3]
}

/// The digest holds the eight words one after the other, each with its most
/// significant byte first.
pub proof fn law_digest_words(s: Words)
    ensures
        digest(s).len() == 32,
        word_at(digest(s), 0) == s.a,
        word_at(digest(s), 4) == s.b,
        word_at(digest(s), 8) == s.c,
        word_at(digest(s), 12) == s.d,
        word_at(digest(s), 16) == s.e,
        word_at(digest(s), 20) == s.f,
        word_at(digest(s), 24) == s.g,
        word_at(digest(s), 28) == s.h,
{
    let d = digest(s);
    lemma_be4(s.a);
    assert(d.subrange(0, 4) =~= be4(s.a));
    lemma_word_at(d, 0);
    lemma_be4(s.b);
    assert(d.subrange(4, 8) =~= be4(s.b));
    lemma_word_at(d, 4);
    lemma_be4(s.c);
    assert(d.subrange(8, 12) =~= be4(s.c));
    lemma_word_at(d, 8);
    lemma_be4(s.d);
    assert(d.subrange(12, 16) =~= be4(s.d));
    lemma_word_at(d, 12);
    lemma_be4(s.e);
    assert(d.subrange(16, 20) =~= be4(s.e));
    lemma_word_at(d, 16);
    lemma_be4(s.f);
    assert(d.subrange(20, 24) =~= be4(s.f));
    lemma_word_at(d, 20);
    lemma_be4(s.g);
    assert(d.subrange(24, 28) =~= be4(s.g));
    lemma_word_at(d, 24);
    lemma_be4(s.h);
    assert(d.subrange(28, 32) =~= be4(s.h));
    lemma_word_at(d, 28);
}

proof fn lemma_word_at(d: Seq<u8>, i: int)
    requires
        0 <= i,
        i + 4 <= d.len(),
    ensures
        word_at(d, i) == word_at(d.subrange(i, i + 4), 0),
{
}

/// A padded message is the message, a byte with the top bit set, fewer than 64
/// zeros, and the length of the message in bits as eight big-endian bytes; it
/// fills whole blocks of 64 bytes.
pub proof fn law_padding(msg: Seq<u8>, zero_count: int)
    requires
        msg.len() < 0x2000_0000_0000_0000,
        zero_count == padded(msg).len() - msg.len() - 9,
    ensures
        padded(msg).len() % 64 == 0,
        0 <= zero_count < 64,
        padded(msg).take(msg.len() as int) == msg,
        padded(msg)[msg.len() as int] == 0x80,
        forall|i: int|
            msg.len() < i <= msg.len() + zero_count ==> #[trigger] padded(msg)[i] == 0,
        8 * msg.len() == 0x1_0000_0000 * word_at(padded(msg), msg.len() + 1 + zero_count) + word_at(
            padded(msg),
            msg.len() + 5 + zero_count,
        ),
{
    let p = padded(msg);
    let n = (119 - msg.len() % 64) % 64;
    assert(p.len() == msg.len() + 9 + n);
    assert(p.take(msg.len() as int) =~= msg);
    let x = (8 * msg.len()) as u64;
    lemma_be8(x);
    let e = be8(x as int);
    let at = msg.len() + 1 + n;
    assert(p.subrange(at, at + 8) =~= e);
    assert(p.subrange(at, at + 4) =~= e.take(4));
    assert(p.subrange(at + 4, at + 8) =~= e.skip(4));
    lemma_word_at(p, at);
    lemma_word_at(p, at + 4);
}

/// Successive blocks are compressed one after the other.
pub proof fn law_blocks_in_order(s: Words, block: Seq<u8>, rest: Seq<u8>)
    requires
        block.len() == 64,
    ensures
        compress_all(s, block + rest) == compress_all(compress(s, block), rest),
        compress_all(s, Seq::empty()) == s,
{
    assert((block + rest).take(64) =~= block);
    assert((block + rest).skip(64) =~= rest);
}

/// The bits of the mixing functions: a rotation, a choice and a majority.
pub proof fn law_mixing(x: u32, y: u32, z: u32)
    ensures
        choose_bits(0xffff_ffff, y, z) == y,
        choose_bits(0, y, z) == z,
        majority(x, x, z) == x,
        majority(x, y, x) == x,
        majority(z, x, x) == x,
        choose_bits(x, y, y) == y,
{
    assert(choose_bits(0xffff_ffff, y, z) == y) by (bit_vector);
    assert(choose_bits(0, y, z) == z) by (bit_vector);
    assert(majority(x, x, z) == x) by (bit_vector);
    assert(majority(x, y, x) == x) by (bit_vector);
    assert(majority(z, x, x) == x) by (bit_vector);
    assert(choose_bits(x, y, y) == y) by (bit_vector);
}

/// Sums of words wrap around at `2^32`.
pub proof fn law_word_sum(x: u32, y: u32)
    ensures
        x + y < 0x1_0000_0000 ==> add32(x, y) == x + y,
        x + y >= 0x1_0000_0000 ==> add32(x, y) == x + y - 0x1_0000_0000,
{
}

} // verus!
