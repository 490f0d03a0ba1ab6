//! Scalars of BLS48-581, kept as the digits of `bls48581`'s big numbers.
//!
//! The arithmetic is that of the `bls48581` crate. The digits are what its
//! `BIG` holds: ten of them, least significant first, in radix `2^60`.

use crate::bytes;
use bls48581::bls48581::big::BIG;
use bls48581::bls48581::rom::CURVE_ORDER;
use vstd::prelude::*;

verus! {

/// Bytes of a serialized BLS48-581 scalar.
pub const MODBYTES: usize = 73;

/// The order of the BLS48-581 groups.
pub open spec fn order581() -> int {
    0x2386f8a925e2885e233a9ccc1615c0d6c635387a3f0b3cbe003fad6bc972c2e6e741969d34c4c92016a85c7cd0562303c4ccbe599467c24da118a5fe6fcd671c01int
}

/// The order of the BLS12-381 groups.
pub open spec fn order381() -> int {
    0x73eda753299d7d483339d80809a1d80553bda402fffe5bfeffffffff00000001int
}

/// The integer that ten digits in radix `2^60` stand for.
pub open spec fn digits_value(w: Seq<i64>) -> int {
    let b = 0x1000_0000_0000_0000int;
    w[0] + b * (w[1] + b * (w[2] + b * (w[3] + b * (w[4] + b * (w[5] + b * (w[6] + b * (w[7] + b * (
    w[8] + b * w[9]))))))))
}

/// Digits in range: nine of 60 bits and a top one of 44, 584 bits in all.
pub open spec fn normal(w: Seq<i64>) -> bool {
    &&& w.len() == 10
    &&& forall|i: int| 0 <= i < 10 ==> 0 <= #[trigger] w[i] < 0x1000_0000_0000_0000
    &&& w[9] < 0x1000_0000_0000
}

/// `BIG::iszilch`: whether all digits are zero.
#[verifier::external_body]
fn big_is_zero(w: &[i64; 10]) -> (r: bool)
    requires
        normal(w@),
    ensures
        r == (digits_value(w@) == 0),
{
    BIG { w: *w }.iszilch()
}

/// `BIG::isunity`: whether the number is one.
#[verifier::external_body]
fn big_is_one(w: &[i64; 10]) -> (r: bool)
    requires
        normal(w@),
    ensures
        r == (digits_value(w@) == 1),
{
    BIG { w: *w }.isunity()
}

/// `BIG::modadd` with the curve's order: the remainder of the sum.
#[verifier::external_body]
fn big_add_mod(a: &[i64; 10], b: &[i64; 10]) -> (r: [i64; 10])
    requires
        normal(a@),
        normal(b@),
    ensures
        normal(r@),
        digits_value(r@) == (digits_value(a@) + digits_value(b@)) % order581(),
{
    BIG::modadd(&BIG { w: *a }, &BIG { w: *b }, &BIG::new_ints(&CURVE_ORDER)).w
}

/// `BIG::modneg` with the curve's order: the order minus the remainder of the
/// argument. A multiple of the order gives the order itself, not zero.
#[verifier::external_body]
fn big_neg_mod(a: &[i64; 10]) -> (r: [i64; 10])
    requires
        normal(a@),
    ensures
        normal(r@),
        digits_value(r@) == order581() - digits_value(a@) % order581(),
{
    BIG::modneg(&BIG { w: *a }, &BIG::new_ints(&CURVE_ORDER)).w
}

/// `BIG::modmul` with the curve's order: the remainder of the product.
#[verifier::external_body]
fn big_mul_mod(a: &[i64; 10], b: &[i64; 10]) -> (r: [i64; 10])
    requires
        normal(a@),
        normal(b@),
    ensures
        normal(r@),
        digits_value(r@) == (digits_value(a@) * digits_value(b@)) % order581(),
{
    BIG::modmul(&BIG { w: *a }, &BIG { w: *b }, &BIG::new_ints(&CURVE_ORDER)).w
}

/// `BIG::rmod` with the curve's order: the remainder.
#[verifier::external_body]
fn big_reduce(a: &[i64; 10]) -> (r: [i64; 10])
    requires
        normal(a@),
    ensures
        normal(r@),
        digits_value(r@) == digits_value(a@) % order581(),
{
    let mut x = BIG { w: *a };
    x.rmod(&BIG::new_ints(&CURVE_ORDER));
    x.w
}

/// `BIG::invmodp` with the order of one of the two curves, which are primes:
/// the inverse below the order, or zero where the argument is a multiple of
/// the order.
#[verifier::external_body]
fn big_inv_mod(a: &[i64; 10], order: &[i64; 10]) -> (r: [i64; 10])
    requires
        normal(a@),
        normal(order@),
        digits_value(order@) == order581() || digits_value(order@) == order381(),
    ensures
        normal(r@),
        digits_value(r@) < digits_value(order@),
        digits_value(a@) % digits_value(order@) == 0 ==> digits_value(r@) == 0,
        digits_value(a@) % digits_value(order@) != 0 ==> (digits_value(a@) * digits_value(r@))
            % digits_value(order@) == 1,
{
    let mut x = BIG { w: *a };
    x.invmodp(&BIG { w: *order });
    x.w
}

/// `BIG::frombytes` on a full-length string: the big-endian integer.
#[verifier::external_body]
fn big_from_bytes(b: &[u8; 73]) -> (r: [i64; 10])
    ensures
        normal(r@),
        digits_value(r@) == bytes::be_value(b@),
{
    BIG::frombytes(b).w
}

/// `BIG::tobytes` into a full-length string: the big-endian form.
#[verifier::external_body]
fn big_to_bytes(a: &[i64; 10]) -> (r: [u8; 73])
    requires
        normal(a@),
    ensures
        bytes::be_value(r@) == digits_value(a@),
{
    let mut b = [0u8; 73];
    BIG { w: *a }.tobytes(&mut b);
    b
}

/// A number of at most 584 bits.
#[derive(Clone, Copy)]
pub struct Big581 {
    w: [i64; 10],
}

impl Big581 {
    #[verifier::type_invariant]
    spec fn inv(self) -> bool {
        normal(self.w@)
    }

    /// The number.
    pub closed spec fn value(&self) -> int {
        digits_value(self.w@)
    }

    /// The number is not negative.
    pub(crate) fn nonneg(&self)
        ensures
            self.value() >= 0,
    {
        proof {
            use_type_invariant(self);
        }
    }

    pub fn zero() -> (r: Self)
        ensures
            r.value() == 0,
    {
        let r = Big581 { w: [0, 0, 0, 0, 0, 0, 0, 0, 0, 0] };
        r
    }

    pub fn one() -> (r: Self)
        ensures
            r.value() == 1,
    {
        let r = Big581 { w: [1, 0, 0, 0, 0, 0, 0, 0, 0, 0] };
        r
    }

    pub fn is_zero(&self) -> (r: bool)
        ensures
            r == (self.value() == 0),
    {
        proof {
            use_type_invariant(self);
        }
        big_is_zero(&self.w)
    }

    pub fn is_one(&self) -> (r: bool)
        ensures
            r == (self.value() == 1),
    {
        proof {
            use_type_invariant(self);
        }
        big_is_one(&self.w)
    }

    pub fn add_mod(&self, other: &Self) -> (r: Self)
        ensures
            r.value() == (self.value() + other.value()) % order581(),
    {
        proof {
            use_type_invariant(self);
            use_type_invariant(other);
        }
        Big581 { w: big_add_mod(&self.w, &other.w) }
    }

    pub fn neg_mod(&self) -> (r: Self)
        ensures
            r.value() == order581() - self.value() % order581(),
    {
        proof {
            use_type_invariant(self);
        }
        Big581 { w: big_neg_mod(&self.w) }
    }

    pub fn mul_mod(&self, other: &Self) -> (r: Self)
        ensures
            r.value() == (self.value() * other.value()) % order581(),
    {
        proof {
            use_type_invariant(self);
            use_type_invariant(other);
        }
        Big581 { w: big_mul_mod(&self.w, &other.w) }
    }

    pub fn reduce(&self) -> (r: Self)
        ensures
            r.value() == self.value() % order581(),
    {
        proof {
            use_type_invariant(self);
        }
        Big581 { w: big_reduce(&self.w) }
    }

    /// The inverse modulo the order of BLS48-581; zero for its multiples.
    pub fn inv_mod581(&self) -> (r: Self)
        ensures
            r.value() < order581(),
            self.value() % order581() == 0 ==> r.value() == 0,
            self.value() % order581() != 0 ==> (self.value() * r.value()) % order581() == 1,
    {
        proof {
            use_type_invariant(self);
        }
        let order: [i64; 10] = [
            0x8A5FE6FCD671C01,
            0xBE599467C24DA11,
            0xC7CD0562303C4CC,
            0x9D34C4C92016A85,
            0xBC972C2E6E74196,
            0x3F0B3CBE003FAD6,
            0x615C0D6C635387A,
            0xE2885E233A9CCC1,
            0x2386F8A925,
            0,
        ];
        assert(normal(order@)) by {
            assert forall|i: int| 0 <= i < 10 implies 0 <= #[trigger] order@[i]
                < 0x1000_0000_0000_0000 by {
                assert(i == 0 || i == 1 || i == 2 || i == 3 || i == 4 || i == 5 || i == 6 || i == 7
                    || i == 8 || i == 9);
            }
        }
        Big581 { w: big_inv_mod(&self.w, &order) }
    }

    /// The inverse modulo the order of BLS12-381; zero for its multiples.
    pub fn inv_mod381(&self) -> (r: Self)
        ensures
            r.value() < order381(),
            self.value() % order381() == 0 ==> r.value() == 0,
            self.value() % order381() != 0 ==> (self.value() * r.value()) % order381() == 1,
    {
        proof {
            use_type_invariant(self);
        }
        let order: [i64; 10] = [
            0xfffffff00000001,
            0xbda402fffe5bfef,
            0x9d80809a1d80553,
            0xa753299d7d48333,
            0x73ed,
            0,
            0,
            0,
            0,
            0,
        ];
        assert(normal(order@)) by {
            assert forall|i: int| 0 <= i < 10 implies 0 <= #[trigger] order@[i]
                < 0x1000_0000_0000_0000 by {
                assert(i == 0 || i == 1 || i == 2 || i == 3 || i == 4 || i == 5 || i == 6 || i == 7
                    || i == 8 || i == 9);
            }
        }
        Big581 { w: big_inv_mod(&self.w, &order) }
    }

    pub fn from_be_bytes(b: &[u8; 73]) -> (r: Self)
        ensures
            r.value() == bytes::be_value(b@),
    {
        Big581 { w: big_from_bytes(b) }
    }

    pub fn to_be_bytes(&self) -> (r: [u8; 73])
        ensures
            bytes::be_value(r@) == self.value(),
    {
        proof {
            use_type_invariant(self);
        }
        big_to_bytes(&self.w)
    }
}

} // verus!
