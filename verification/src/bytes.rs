//! Integers as byte strings, in both byte orders.

use vstd::arithmetic::div_mod::*;
use vstd::prelude::*;

verus! {

/// 256 to the power `k`.
pub open spec fn pow256(k: nat) -> int
    decreases k,
{
    if k == 0 {
        1
    } else {
        256 * pow256((k - 1) as nat)
    }
}

/// The integer that a big-endian byte string stands for.
pub open spec fn be_value(s: Seq<u8>) -> int
    decreases s.len(),
{
    if s.len() == 0 {
        0
    } else {
        be_value(s.drop_last()) * 256 + s.last()
    }
}

/// The integer that a little-endian byte string stands for.
pub open spec fn le_value(s: Seq<u8>) -> int
    decreases s.len(),
{
    if s.len() == 0 {
        0
    } else {
        le_value(s.drop_last()) + s.last() * pow256((s.len() - 1) as nat)
    }
}

/// Byte `k` of the little-endian form of `v`.
pub open spec fn le_byte(v: int, k: int) -> int {
    (v / pow256(k as nat)) % 256
}

/// The first `k` bytes of the little-endian form of `v`, weighted and added
/// up.
pub open spec fn le_byte_sum(v: int, k: nat) -> int
    decreases k,
{
    if k == 0 {
        0
    } else {
        le_byte_sum(v, (k - 1) as nat) + le_byte(v, k - 1) * pow256((k - 1) as nat)
    }
}

pub proof fn lemma_pow256_pos(k: nat)
    ensures
        pow256(k) > 0,
    decreases k,
{
    if k > 0 {
        lemma_pow256_pos((k - 1) as nat);
    }
}

/// The powers of 256 that fit in a `u64`, and the next one.
pub proof fn lemma_pow256_values()
    ensures
        pow256(0) == 1,
        pow256(1) == 0x100,
        pow256(2) == 0x1_0000,
        pow256(3) == 0x100_0000,
        pow256(4) == 0x1_0000_0000,
        pow256(5) == 0x100_0000_0000,
        pow256(6) == 0x1_0000_0000_0000,
        pow256(7) == 0x100_0000_0000_0000,
        pow256(8) == 0x1_0000_0000_0000_0000,
{
    reveal_with_fuel(pow256, 9);
}

pub proof fn lemma_pow256_add(a: nat, b: nat)
    ensures
        pow256(a + b) == pow256(a) * pow256(b),
    decreases a,
{
    if a == 0 {
        assert(1 * pow256(b) == pow256(b)) by (nonlinear_arith);
    } else {
        lemma_pow256_add((a - 1) as nat, b);
        let (x, y) = (pow256((a - 1) as nat), pow256(b));
        assert((a - 1) as nat + b == (a + b - 1) as nat);
        assert(256 * (x * y) == (256 * x) * y) by (nonlinear_arith);
    }
}

/// The first `k` bytes of `v` stand for `v` modulo `256^k`.
pub proof fn lemma_le_byte_sum(v: int, k: nat)
    requires
        v >= 0,
    ensures
        le_byte_sum(v, k) == v % pow256(k),
    decreases k,
{
    lemma_pow256_pos(k);
    if k > 0 {
        let j = (k - 1) as nat;
        lemma_le_byte_sum(v, j);
        lemma_pow256_pos(j);
        let p = pow256(j);
        lemma_mod_breakdown(v, p, 256);
        assert(p * 256 == pow256(k));
        assert(le_byte(v, k - 1) * p == p * ((v / p) % 256)) by (nonlinear_arith)
            requires
                le_byte(v, k - 1) == (v / p) % 256,
        ;
    }
}

/// Eight bytes hold a `u64` without loss.
pub proof fn lemma_le_byte_sum_u64(v: u64)
    ensures
        le_byte_sum(v as int, 8) == v,
{
    lemma_le_byte_sum(v as int, 8);
    lemma_pow256_values();
    lemma_small_mod(v as nat, 0x1_0000_0000_0000_0000);
}

pub proof fn lemma_le_bound(s: Seq<u8>)
    ensures
        0 <= le_value(s) < pow256(s.len()),
    decreases s.len(),
{
    if s.len() > 0 {
        lemma_le_bound(s.drop_last());
        lemma_pow256_pos((s.len() - 1) as nat);
        let p = pow256((s.len() - 1) as nat);
        let t = s.last() as int;
        assert(0 <= t * p <= 255 * p) by (nonlinear_arith)
            requires
                0 <= t <= 255,
                p > 0,
        ;
    }
}

pub proof fn lemma_le_push(s: Seq<u8>, b: u8)
    ensures
        le_value(s.push(b)) == le_value(s) + b * pow256(s.len()),
{
    assert(s.push(b).drop_last() =~= s);
}

/// Concatenation of little-endian strings.
pub proof fn lemma_le_concat(a: Seq<u8>, b: Seq<u8>)
    ensures
        le_value(a + b) == le_value(a) + pow256(a.len()) * le_value(b),
    decreases b.len(),
{
    if b.len() == 0 {
        assert(a + b =~= a);
        assert(pow256(a.len()) * 0 == 0) by (nonlinear_arith);
    } else {
        lemma_le_concat(a, b.drop_last());
        assert((a + b).drop_last() =~= a + b.drop_last());
        let k = (b.len() - 1) as nat;
        lemma_pow256_add(a.len(), k);
        let (p, q, v, l) = (pow256(a.len()), pow256(k), le_value(b.drop_last()), b.last() as int);
        assert(p * (v + l * q) == p * v + l * (p * q)) by (nonlinear_arith);
        assert((a + b).len() - 1 == a.len() + k);
    }
}

/// Leading zero bytes do not change a big-endian value.
pub proof fn lemma_be_leading_zeros(z: Seq<u8>, s: Seq<u8>)
    requires
        forall|i: int| 0 <= i < z.len() ==> z[i] == 0,
    ensures
        be_value(z + s) == be_value(s),
    decreases z.len() + s.len(),
{
    if s.len() > 0 {
        lemma_be_leading_zeros(z, s.drop_last());
        assert((z + s).drop_last() =~= z + s.drop_last());
    } else if z.len() > 0 {
        lemma_be_leading_zeros(z.drop_last(), s);
        assert((z + s).drop_last() =~= z.drop_last() + s);
    } else {
        assert(z + s =~= s);
    }
}

/// Trailing zero bytes do not change a little-endian value.
pub proof fn lemma_le_trailing_zeros(s: Seq<u8>, z: Seq<u8>)
    requires
        forall|i: int| 0 <= i < z.len() ==> z[i] == 0,
    ensures
        le_value(s + z) == le_value(s),
    decreases z.len(),
{
    if z.len() > 0 {
        lemma_le_trailing_zeros(s, z.drop_last());
        assert((s + z).drop_last() =~= s + z.drop_last());
        assert(0 * pow256(((s + z).len() - 1) as nat) == 0) by (nonlinear_arith);
    } else {
        assert(s + z =~= s);
    }
}

/// A big-endian string read backwards is a little-endian one.
pub proof fn lemma_be_as_le(s: Seq<u8>)
    ensures
        be_value(s) == le_value(s.reverse()),
    decreases s.len(),
{
    if s.len() > 0 {
        let t = s.drop_last();
        lemma_be_as_le(t);
        assert(s.reverse() =~= seq![s.last()] + t.reverse());
        lemma_le_concat(seq![s.last()], t.reverse());
        assert(le_value(seq![s.last()]) == s.last()) by {
            assert(seq![s.last()] =~= Seq::<u8>::empty().push(s.last()));
            lemma_le_push(Seq::<u8>::empty(), s.last());
            assert(s.last() * pow256(0) == s.last()) by (nonlinear_arith)
                requires
                    pow256(0) == 1,
            ;
        }
        lemma_pow256_values();
        assert(seq![s.last()].len() == 1);
        assert(pow256(1) * le_value(t.reverse()) == le_value(t.reverse()) * 256) by (nonlinear_arith)
            requires
                pow256(1) == 256,
        ;
    } else {
        assert(s.reverse() =~= s);
    }
}

/// The low bytes of a little-endian string give its remainder.
pub proof fn lemma_le_prefix(s: Seq<u8>, k: nat)
    requires
        k <= s.len(),
    ensures
        le_value(s) % pow256(k) == le_value(s.take(k as int)),
{
    assert(s =~= s.take(k as int) + s.skip(k as int));
    lemma_le_concat(s.take(k as int), s.skip(k as int));
    lemma_le_bound(s.take(k as int));
    lemma_pow256_pos(k);
    lemma_mod_multiples_vanish(le_value(s.skip(k as int)), le_value(s.take(k as int)), pow256(k));
    lemma_small_mod(le_value(s.take(k as int)) as nat, pow256(k) as nat);
}

/// Little-endian bytes of a `u64`.
pub fn u64_to_le(x: u64) -> (r: [u8; 8])
    ensures
        le_value(r@) == x,
        forall|k: int| 0 <= k < 8 ==> r@[k] == le_byte(x as int, k),
{
    let r: [u8; 8] = [
        (x % 0x100) as u8,
        (x / 0x100 % 0x100) as u8,
        (x / 0x1_0000 % 0x100) as u8,
        (x / 0x100_0000 % 0x100) as u8,
        (x / 0x1_0000_0000 % 0x100) as u8,
        (x / 0x100_0000_0000 % 0x100) as u8,
        (x / 0x1_0000_0000_0000 % 0x100) as u8,
        (x / 0x100_0000_0000_0000 % 0x100) as u8,
    ];
    proof {
        lemma_pow256_values();
        lemma_le_byte_sum_u64(x);
        assert forall|k: int| 0 <= k < 8 implies r@[k] == le_byte(x as int, k) by {
            assert(k == 0 || k == 1 || k == 2 || k == 3 || k == 4 || k == 5 || k == 6 || k == 7);
        }
        lemma_le_value_from_bytes(r@, x as int, 8);
        assert(r@.take(8) =~= r@);
    }
    r
}

/// A string whose bytes are those of `v` stands for their weighted sum.
pub proof fn lemma_le_value_from_bytes(s: Seq<u8>, v: int, k: nat)
    requires
        k <= s.len(),
        forall|i: int| 0 <= i < k ==> s[i] == le_byte(v, i),
    ensures
        le_value(s.take(k as int)) == le_byte_sum(v, k),
    decreases k,
{
    if k > 0 {
        lemma_le_value_from_bytes(s, v, (k - 1) as nat);
        assert(s.take(k as int) =~= s.take(k - 1).push(s[k - 1]));
        lemma_le_push(s.take(k - 1), s[k - 1]);
    }
}

/// Reads the little-endian `u64` at `at`.
pub fn u64_from_le(s: &[u8], at: usize) -> (r: u64)
    requires
        at + 8 <= s.len(),
    ensures
        r == le_value(s@.subrange(at as int, at + 8)),
{
    let mut r: u64 = 0;
    let mut w: u64 = 1;
    let mut i: usize = 0;
    let ghost part = s@.subrange(at as int, at + 8);
    while i < 8
        invariant
            i <= 8,
            at + 8 <= s.len(),
            part == s@.subrange(at as int, at + 8),
            r == le_value(part.take(i as int)),
            i < 8 ==> w == pow256(i as nat),
        decreases 8 - i,
    {
        let b: u8 = s[at + i];
        proof {
            lemma_pow256_values();
            assert(part.take(i + 1) =~= part.take(i as int).push(b));
            lemma_le_push(part.take(i as int), b);
            lemma_le_bound(part.take(i + 1));
            assert(i == 0 || i == 1 || i == 2 || i == 3 || i == 4 || i == 5 || i == 6 || i == 7);
            assert(pow256((i + 1) as nat) <= pow256(8));
            lemma_le_bound(part.take(i as int));
            assert(b * w >= 0) by (nonlinear_arith)
                requires
                    b >= 0,
                    w >= 0,
            ;
        }
        r = r + (b as u64) * w;
        i = i + 1;
        if i < 8 {
            w = w * 256;
        }
    }
    assert(part.take(8) =~= part);
    r
}

/// The eight little-endian bytes of a `u64`, weighted by the powers of 256, add
/// up to it, and each of them is a byte.
pub proof fn law_eight_bytes(v: u64)
    ensures
        v == le_byte(v as int, 0) + 0x100 * le_byte(v as int, 1) + 0x1_0000 * le_byte(v as int, 2)
            + 0x100_0000 * le_byte(v as int, 3) + 0x1_0000_0000 * le_byte(v as int, 4)
            + 0x100_0000_0000 * le_byte(v as int, 5) + 0x1_0000_0000_0000 * le_byte(v as int, 6)
            + 0x100_0000_0000_0000 * le_byte(v as int, 7),
        forall|k: int| 0 <= k < 8 ==> 0 <= #[trigger] le_byte(v as int, k) < 256,
{
    lemma_le_byte_sum_u64(v);
    lemma_pow256_values();
    reveal_with_fuel(le_byte_sum, 9);
}

/// What a byte is worth: one more byte in front shifts a little-endian string
/// up by one place, one more byte behind does so with a big-endian string, and
/// either way the same bytes in reverse stand for the same number the other way
/// round.
pub proof fn law_place_values(s: Seq<u8>, b: u8)
    ensures
        le_value(Seq::empty()) == 0,
        be_value(Seq::empty()) == 0,
        le_value(seq![b] + s) == b + 256 * le_value(s),
        be_value(s.push(b)) == 256 * be_value(s) + b,
        be_value(s) == le_value(s.reverse()),
{
    lemma_be_as_le(s);
    lemma_le_concat(seq![b], s);
    lemma_pow256_values();
    assert(seq![b] =~= Seq::<u8>::empty().push(b));
    lemma_le_push(Seq::<u8>::empty(), b);
    assert(b * pow256(0) == b) by (nonlinear_arith)
        requires
            pow256(0) == 1,
    ;
    assert(s.push(b).drop_last() =~= s);
}

} // verus!
