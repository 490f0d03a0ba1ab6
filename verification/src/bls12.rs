//! Scalars of BLS12-381: integers below the order of the groups, as four
//! 64-bit limbs.

use crate::bls48;
use crate::bls48::Big581;
use crate::bytes;
use crate::limbs;
use vstd::arithmetic::div_mod::*;
use vstd::prelude::*;

verus! {

/// A scalar below [`bls48::order381`].
#[derive(Clone, Copy)]
pub struct Fr {
    l: [u64; 4],
}

/// The limbs of the order.
fn order_limbs() -> (r: [u64; 4])
    ensures
        limbs::value(r@) == bls48::order381(),
        limbs::is_modulus(r@),
{
    let r: [u64; 4] = [
        0xffffffff00000001,
        0x53bda402fffe5bfe,
        0x3339d80809a1d805,
        0x73eda753299d7d48,
    ];
    proof {
        lemma_value4(r@);
    }
    r
}

/// Four limbs, written out.
proof fn lemma_value4(s: Seq<u64>)
    requires
        s.len() == 4,
    ensures
        limbs::value(s) == s[0] + 0x1_0000_0000_0000_0000 * s[1]
            + 0x1_0000_0000_0000_0000_0000_0000_0000_0000int * s[2]
            + 0x1_0000_0000_0000_0000_0000_0000_0000_0000_0000_0000_0000_0000int * s[3],
{
    reveal_with_fuel(limbs::radix_pow, 4);
    assert(s.take(0) =~= Seq::<u64>::empty());
    assert(s.take(4) =~= s);
    limbs::lemma_value_take_next(s, 0);
    limbs::lemma_value_take_next(s, 1);
    limbs::lemma_value_take_next(s, 2);
    limbs::lemma_value_take_next(s, 3);
    assert(limbs::radix_pow(0) == 1);
    assert(limbs::radix_pow(1) == 0x1_0000_0000_0000_0000);
    assert(limbs::radix_pow(2) == 0x1_0000_0000_0000_0000_0000_0000_0000_0000int);
    assert(limbs::radix_pow(3)
        == 0x1_0000_0000_0000_0000_0000_0000_0000_0000_0000_0000_0000_0000int);
}

impl Fr {
    #[verifier::type_invariant]
    spec fn inv(self) -> bool {
        limbs::value(self.l@) < bls48::order381()
    }

    /// The integer.
    pub closed spec fn value(&self) -> int {
        limbs::value(self.l@)
    }

    fn from_limbs(v: &Vec<u64>) -> (r: Self)
        requires
            v.len() == 4,
            limbs::value(v@) < bls48::order381(),
        ensures
            r.value() == limbs::value(v@),
    {
        let l: [u64; 4] = [v[0], v[1], v[2], v[3]];
        assert(l@ =~= v@);
        Fr { l }
    }

    pub fn zero() -> (r: Self)
        ensures
            r.value() == 0,
    {
        let l: [u64; 4] = [0, 0, 0, 0];
        proof {
            lemma_value4(l@);
        }
        Fr { l }
    }

    pub fn from_u64(x: u64) -> (r: Self)
        ensures
            r.value() == x,
    {
        let l: [u64; 4] = [x, 0, 0, 0];
        proof {
            lemma_value4(l@);
        }
        Fr { l }
    }

    /// The value lies below the order.
    pub(crate) fn bound(&self)
        ensures
            0 <= self.value() < bls48::order381(),
    {
        proof {
            use_type_invariant(self);
            limbs::lemma_value_bound(self.l@);
        }
    }

    pub fn is_zero(&self) -> (r: bool)
        ensures
            r == (self.value() == 0),
    {
        proof {
            lemma_value4(self.l@);
        }
        self.l[0] == 0 && self.l[1] == 0 && self.l[2] == 0 && self.l[3] == 0
    }

    pub fn is_one(&self) -> (r: bool)
        ensures
            r == (self.value() == 1),
    {
        proof {
            lemma_value4(self.l@);
        }
        self.l[0] == 1 && self.l[1] == 0 && self.l[2] == 0 && self.l[3] == 0
    }

    pub fn add_mod(&self, other: &Self) -> (r: Self)
        ensures
            r.value() == (self.value() + other.value()) % bls48::order381(),
    {
        let m: [u64; 4] = order_limbs();
        let v: Vec<u64> = limbs::add_mod(self.l.as_slice(), other.l.as_slice(), m.as_slice());
        Self::from_limbs(&v)
    }

    pub fn sub_mod(&self, other: &Self) -> (r: Self)
        ensures
            r.value() == (self.value() - other.value()) % bls48::order381(),
    {
        proof {
            use_type_invariant(other);
        }
        let m: [u64; 4] = order_limbs();
        let v: Vec<u64> = limbs::sub_mod(self.l.as_slice(), other.l.as_slice(), m.as_slice());
        Self::from_limbs(&v)
    }

    pub fn mul_mod(&self, other: &Self) -> (r: Self)
        ensures
            r.value() == (self.value() * other.value()) % bls48::order381(),
    {
        proof {
            use_type_invariant(self);
        }
        let m: [u64; 4] = order_limbs();
        let v: Vec<u64> = limbs::mul_mod(self.l.as_slice(), other.l.as_slice(), m.as_slice());
        Self::from_limbs(&v)
    }

    /// Little-endian bytes.
    pub fn to_le_bytes(&self) -> (r: Vec<u8>)
        ensures
            r.len() == 32,
            bytes::le_value(r@) == self.value(),
    {
        let mut out: Vec<u8> = Vec::with_capacity(32);
        let mut i: usize = 0;
        while i < 4
            invariant
                i <= 4,
                out.len() == 8 * i,
                bytes::le_value(out@) == limbs::value(self.l@.take(i as int)),
            decreases 4 - i,
        {
            let b: [u8; 8] = bytes::u64_to_le(self.l[i]);
            let ghost before = out@;
            let mut j: usize = 0;
            while j < 8
                invariant
                    j <= 8,
                    i < 4,
                    out@ =~= before + b@.take(j as int),
                decreases 8 - j,
            {
                out.push(b[j]);
                j = j + 1;
            }
            proof {
                assert(b@.take(8) =~= b@);
                bytes::lemma_le_concat(before, b@);
                limbs::lemma_value_take_next(self.l@, i as int);
                lemma_pow256_radix(i as nat);
                let (x, p) = (self.l@[i as int] as int, limbs::radix_pow(i as nat));
                assert(p * x == x * p) by (nonlinear_arith);
            }
            i = i + 1;
        }
        assert(self.l@.take(4) =~= self.l@);
        out
    }

    /// The remainder of a little-endian integer of 32 bytes.
    pub fn from_le_bytes(b: &[u8; 32]) -> (r: Self)
        ensures
            r.value() == bytes::le_value(b@) % bls48::order381(),
    {
        let mut wide: Vec<u64> = Vec::with_capacity(5);
        let mut i: usize = 0;
        while i < 4
            invariant
                i <= 4,
                wide.len() == i,
                limbs::value(wide@) == bytes::le_value(b@.take(8 * i as int)),
            decreases 4 - i,
        {
            let x: u64 = bytes::u64_from_le(b.as_slice(), 8 * i);
            proof {
                let lo = b@.take(8 * i as int);
                let part = b@.subrange(8 * i as int, 8 * i + 8);
                assert(b@.take(8 * (i + 1) as int) =~= lo + part);
                bytes::lemma_le_concat(lo, part);
                limbs::lemma_value_push(wide@, x);
                lemma_pow256_radix(i as nat);
                let p = limbs::radix_pow(i as nat);
                assert(p * x == x * p) by (nonlinear_arith);
            }
            wide.push(x);
            i = i + 1;
        }
        assert(b@.take(32) =~= b@);
        let ghost four = wide@;
        wide.push(0);
        let m: [u64; 4] = order_limbs();
        proof {
            limbs::lemma_value_push(four, 0);
            limbs::lemma_value_bound(four);
            limbs::lemma_modulus_pos(m@);
            let p = limbs::radix_pow(4);
            assert(0 * p == 0) by (nonlinear_arith);
            reveal_with_fuel(limbs::radix_pow, 5);
        }
        let v: Vec<u64> = limbs::reduce_wide(wide, m.as_slice());
        Self::from_limbs(&v)
    }

    /// The inverse modulo the order; zero for zero.
    pub fn inv_mod(&self) -> (r: Self)
        ensures
            self.value() == 0 ==> r.value() == 0,
            self.value() != 0 ==> (self.value() * r.value()) % bls48::order381() == 1,
    {
        self.bound();
        let le: Vec<u8> = self.to_le_bytes();
        let mut be: [u8; 73] = [0u8; 73];
        let mut i: usize = 0;
        while i < 32
            invariant
                i <= 32,
                le.len() == 32,
                forall|j: int| 0 <= j < i ==> be@[72 - j] == le@[j],
                forall|j: int| 0 <= j < 73 - i ==> be@[j] == 0,
            decreases 32 - i,
        {
            be[72 - i] = le[i];
            i = i + 1;
        }
        proof {
            let z = be@.take(41);
            let s = be@.skip(41);
            assert(be@ =~= z + s);
            bytes::lemma_be_leading_zeros(z, s);
            bytes::lemma_be_as_le(s);
            assert(s.reverse() =~= le@);
            lemma_small_mod(self.value() as nat, bls48::order381() as nat);
        }
        let x: Big581 = Big581::from_be_bytes(&be);
        let y: Big581 = x.inv_mod381();
        let out: [u8; 73] = y.to_be_bytes();
        let mut b: [u8; 32] = [0u8; 32];
        let mut k: usize = 0;
        while k < 32
            invariant
                k <= 32,
                forall|j: int| 0 <= j < k ==> b@[j] == out@[72 - j],
            decreases 32 - k,
        {
            b[k] = out[72 - k];
            k = k + 1;
        }
        let r: Fr = Self::from_le_bytes(&b);
        proof {
            let rev = out@.reverse();
            bytes::lemma_be_as_le(out@);
            bytes::lemma_le_prefix(rev, 32);
            assert(rev.take(32) =~= b@);
            bytes::lemma_le_bound(rev);
            lemma_pow256_radix(4);
            reveal_with_fuel(limbs::radix_pow, 5);
            lemma_small_mod(y.value() as nat, bytes::pow256(32) as nat);
            lemma_small_mod(y.value() as nat, bls48::order381() as nat);
        }
        r
    }
}

/// Eight bytes per limb.
proof fn lemma_pow256_radix(i: nat)
    ensures
        bytes::pow256(8 * i) == limbs::radix_pow(i),
    decreases i,
{
    if i > 0 {
        lemma_pow256_radix((i - 1) as nat);
        bytes::lemma_pow256_add(8, (8 * (i - 1)) as nat);
        bytes::lemma_pow256_values();
    }
}

} // verus!
