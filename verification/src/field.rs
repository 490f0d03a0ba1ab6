//! Scalar fields of the two supported curves behind one type.
//!
//! A [`Scalar`] is an integer that stands for its class modulo the order of
//! its curve. The results of the field operations lie below the order, with
//! one exception that [`Scalar::neg`] states.

use crate::bls12::Fr;
use crate::bls48;
use crate::bls48::Big581;
use crate::bytes;
use vstd::arithmetic::div_mod::*;
use vstd::prelude::*;

verus! {

/// Which pairing-friendly curve to use for commitments.
#[derive(Clone, Copy, PartialEq, Eq, Debug, Structural)]
pub enum CurveType {
    Bls48581,
    Bls12381,
}

/// The order of the curve's groups, which is the modulus of its scalar field.
#[verifier::opaque]
pub open spec fn order(curve: CurveType) -> int {
    match curve {
        CurveType::Bls48581 => bls48::order581(),
        CurveType::Bls12381 => bls48::order381(),
    }
}

/// Both orders have more than 128 bits.
pub proof fn lemma_order(curve: CurveType)
    ensures
        order(curve) > 0x1_0000_0000_0000_0000_0000_0000_0000_0000int,
{
    reveal(order);
}

/// Bytes of a serialized scalar.
pub open spec fn byte_length(curve: CurveType) -> nat {
    match curve {
        CurveType::Bls48581 => 73,
        CurveType::Bls12381 => 32,
    }
}

/// A scalar field element of one of the curves.
#[derive(Clone, Copy)]
pub enum Scalar {
    Bls48581(Big581),
    Bls12381(Fr),
}

impl View for Scalar {
    type V = int;

    /// The integer that stands for the field element.
    open spec fn view(&self) -> int {
        match *self {
            Scalar::Bls48581(b) => b.value(),
            Scalar::Bls12381(f) => f.value(),
        }
    }
}

impl Scalar {
    /// The curve of the scalar.
    pub open spec fn curve(&self) -> CurveType {
        match *self {
            Scalar::Bls48581(_) => CurveType::Bls48581,
            Scalar::Bls12381(_) => CurveType::Bls12381,
        }
    }

    /// Whether the scalar stands for `x` on `curve` and is reduced.
    pub open spec fn is(&self, curve: CurveType, x: int) -> bool {
        self.curve() == curve && self@ == x % order(curve)
    }

    /// Create a zero scalar for the given curve.
    pub fn zero(curve: CurveType) -> (r: Self)
        ensures
            r.curve() == curve,
            r@ == 0,
    {
        match curve {
            CurveType::Bls48581 => Scalar::Bls48581(Big581::zero()),
            CurveType::Bls12381 => Scalar::Bls12381(Fr::zero()),
        }
    }

    /// Create a one scalar for the given curve.
    pub fn one(curve: CurveType) -> (r: Self)
        ensures
            r.curve() == curve,
            r@ == 1,
    {
        match curve {
            CurveType::Bls48581 => Scalar::Bls48581(Big581::one()),
            CurveType::Bls12381 => Scalar::Bls12381(Fr::from_u64(1)),
        }
    }

    /// Create a scalar from a u64 value.
    pub fn from_u64(val: u64, curve: CurveType) -> (r: Self)
        ensures
            r.curve() == curve,
            r@ == val,
    {
        match curve {
            CurveType::Bls48581 => {
                let le: [u8; 8] = bytes::u64_to_le(val);
                let mut buf: [u8; 73] = [0u8; 73];
                let mut i: usize = 0;
                while i < 8
                    invariant
                        i <= 8,
                        forall|j: int| 0 <= j < i ==> buf@[72 - j] == le@[j],
                        forall|j: int| 0 <= j < 73 - i ==> buf@[j] == 0,
                    decreases 8 - i,
                {
                    buf[72 - i] = le[i];
                    i = i + 1;
                }
                proof {
                    let z = buf@.take(65);
                    let s = buf@.skip(65);
                    assert(buf@ =~= z + s);
                    bytes::lemma_be_leading_zeros(z, s);
                    bytes::lemma_be_as_le(s);
                    assert(s.reverse() =~= le@);
                }
                Scalar::Bls48581(Big581::from_be_bytes(&buf))
            },
            CurveType::Bls12381 => Scalar::Bls12381(Fr::from_u64(val)),
        }
    }

    /// Check if this scalar is zero.
    pub fn is_zero(&self) -> (r: bool)
        ensures
            r == (self@ == 0),
    {
        match self {
            Scalar::Bls48581(b) => b.is_zero(),
            Scalar::Bls12381(f) => f.is_zero(),
        }
    }

    /// Field addition.
    pub fn add(&self, other: &Self) -> (r: Self)
        requires
            self.curve() == other.curve(),
        ensures
            r.curve() == self.curve(),
            r@ == (self@ + other@) % order(self.curve()),
    {
        proof {
            reveal(order);
        }
        match self {
            Scalar::Bls48581(a) => match other {
                Scalar::Bls48581(b) => Scalar::Bls48581(a.add_mod(b)),
                Scalar::Bls12381(_) => vstd::pervasive::unreached(),
            },
            Scalar::Bls12381(a) => match other {
                Scalar::Bls12381(b) => Scalar::Bls12381(a.add_mod(b)),
                Scalar::Bls48581(_) => vstd::pervasive::unreached(),
            },
        }
    }

    /// Field subtraction.
    pub fn sub(&self, other: &Self) -> (r: Self)
        requires
            self.curve() == other.curve(),
        ensures
            r.curve() == self.curve(),
            r@ == (self@ - other@) % order(self.curve()),
    {
        proof {
            reveal(order);
        }
        match self {
            Scalar::Bls48581(a) => match other {
                Scalar::Bls48581(b) => {
                    let n: Big581 = b.neg_mod();
                    proof {
                        let m = bls48::order581();
                        lemma_mod_add_multiples_vanish(a.value() - b.value() % m, m);
                        lemma_sub_mod_noop_right(a.value(), b.value(), m);
                    }
                    Scalar::Bls48581(a.add_mod(&n))
                },
                Scalar::Bls12381(_) => vstd::pervasive::unreached(),
            },
            Scalar::Bls12381(a) => match other {
                Scalar::Bls12381(b) => Scalar::Bls12381(a.sub_mod(b)),
                Scalar::Bls48581(_) => vstd::pervasive::unreached(),
            },
        }
    }

    /// Field multiplication.
    pub fn mul(&self, other: &Self) -> (r: Self)
        requires
            self.curve() == other.curve(),
        ensures
            r.curve() == self.curve(),
            r@ == (self@ * other@) % order(self.curve()),
    {
        proof {
            reveal(order);
        }
        match self {
            Scalar::Bls48581(a) => match other {
                Scalar::Bls48581(b) => Scalar::Bls48581(a.mul_mod(b)),
                Scalar::Bls12381(_) => vstd::pervasive::unreached(),
            },
            Scalar::Bls12381(a) => match other {
                Scalar::Bls12381(b) => Scalar::Bls12381(a.mul_mod(b)),
                Scalar::Bls48581(_) => vstd::pervasive::unreached(),
            },
        }
    }

    /// Field negation. On BLS48-581 a multiple of the order gives the order
    /// itself, which stands for zero but is not [`Scalar::is_zero`]; every
    /// other result is reduced.
    pub fn neg(&self) -> (r: Self)
        ensures
            r.curve() == self.curve(),
            r.curve() == CurveType::Bls48581 ==> r@ == order(self.curve()) - self@ % order(
                self.curve(),
            ),
            r.curve() == CurveType::Bls12381 ==> r@ == (-self@) % order(self.curve()),
            r@ % order(self.curve()) == (-self@) % order(self.curve()),
    {
        proof {
            reveal(order);
        }
        match self {
            Scalar::Bls48581(a) => {
                proof {
                    let m = bls48::order581();
                    lemma_mod_add_multiples_vanish(0 - a.value() % m, m);
                    lemma_sub_mod_noop_right(0, a.value(), m);
                }
                Scalar::Bls48581(a.neg_mod())
            },
            Scalar::Bls12381(a) => {
                proof {
                    lemma_mod_twice(-a.value(), bls48::order381());
                }
                Scalar::Bls12381(Fr::zero().sub_mod(a))
            },
        }
    }

    /// Serialize to bytes (big-endian). BLS48-581: 73 bytes. BLS12-381: 32
    /// bytes.
    pub fn to_bytes(&self) -> (r: Vec<u8>)
        ensures
            r.len() == byte_length(self.curve()),
            bytes::be_value(r@) == self@,
    {
        match self {
            Scalar::Bls48581(b) => {
                let a: [u8; 73] = b.to_be_bytes();
                let mut out: Vec<u8> = Vec::with_capacity(73);
                let mut i: usize = 0;
                while i < 73
                    invariant
                        i <= 73,
                        out@ =~= a@.take(i as int),
                    decreases 73 - i,
                {
                    out.push(a[i]);
                    i = i + 1;
                }
                assert(a@.take(73) =~= a@);
                out
            },
            Scalar::Bls12381(f) => {
                let le: Vec<u8> = f.to_le_bytes();
                let mut out: Vec<u8> = Vec::with_capacity(32);
                let mut i: usize = 0;
                while i < 32
                    invariant
                        i <= 32,
                        le.len() == 32,
                        out.len() == i,
                        forall|j: int| 0 <= j < i ==> #[trigger] out@[j] == le@[31 - j],
                    decreases 32 - i,
                {
                    out.push(le[31 - i]);
                    i = i + 1;
                }
                proof {
                    bytes::lemma_be_as_le(out@);
                    assert(out@.reverse() =~= le@);
                }
                out
            },
        }
    }

    /// Deserialize from bytes, reading at most as many as a serialized scalar
    /// has. BLS48-581: a big-endian integer, not reduced. BLS12-381: a
    /// little-endian integer, reduced. There the bytes of
    /// [`Scalar::to_bytes`], which are big-endian, give their scalar back only
    /// when reversed.
    pub fn from_bytes(bytes: &[u8], curve: CurveType) -> (r: Self)
        ensures
            r.curve() == curve,
            curve == CurveType::Bls48581 ==> r@ == bytes::be_value(
                bytes@.take(if bytes.len() < 73 { bytes.len() as int } else { 73 }),
            ),
            curve == CurveType::Bls12381 ==> r@ == bytes::le_value(
                bytes@.take(if bytes.len() < 32 { bytes.len() as int } else { 32 }),
            ) % order(curve),
    {
        match curve {
            CurveType::Bls48581 => {
                let n: usize = if bytes.len() < 73 {
                    bytes.len()
                } else {
                    73
                };
                let mut buf: [u8; 73] = [0u8; 73];
                let mut i: usize = 0;
                while i < n
                    invariant
                        i <= n,
                        n <= 73,
                        n <= bytes.len(),
                        forall|j: int| 0 <= j < i ==> buf@[73 - n + j] == bytes@[j],
                        forall|j: int| 0 <= j < 73 - n ==> buf@[j] == 0,
                    decreases n - i,
                {
                    buf[73 - n + i] = bytes[i];
                    i = i + 1;
                }
                proof {
                    let z = buf@.take(73 - n);
                    let s = buf@.skip(73 - n);
                    assert(buf@ =~= z + s);
                    bytes::lemma_be_leading_zeros(z, s);
                    assert(s =~= bytes@.take(n as int));
                }
                Scalar::Bls48581(Big581::from_be_bytes(&buf))
            },
            CurveType::Bls12381 => {
                let n: usize = if bytes.len() < 32 {
                    bytes.len()
                } else {
                    32
                };
                let mut buf: [u8; 32] = [0u8; 32];
                let mut i: usize = 0;
                while i < n
                    invariant
                        i <= n,
                        n <= 32,
                        n <= bytes.len(),
                        forall|j: int| 0 <= j < i ==> buf@[j] == bytes@[j],
                        forall|j: int| n <= j < 32 ==> buf@[j] == 0,
                    decreases n - i,
                {
                    buf[i] = bytes[i];
                    i = i + 1;
                }
                proof {
                    let s = buf@.take(n as int);
                    let z = buf@.skip(n as int);
                    assert(buf@ =~= s + z);
                    bytes::lemma_le_trailing_zeros(s, z);
                    assert(s =~= bytes@.take(n as int));
                    reveal(order);
                }
                Scalar::Bls12381(Fr::from_le_bytes(&buf))
            },
        }
    }

    /// Convert to u64 (for small values like instruction type/funct
    /// selectors): the low 64 bits.
    pub fn to_u64(&self) -> (r: u64)
        ensures
            r == self@ % 0x1_0000_0000_0000_0000,
    {
        match self {
            Scalar::Bls48581(b) => {
                let buf: [u8; 73] = b.to_be_bytes();
                let mut le: [u8; 8] = [0u8; 8];
                let mut i: usize = 0;
                while i < 8
                    invariant
                        i <= 8,
                        forall|j: int| 0 <= j < i ==> le@[j] == buf@[72 - j],
                    decreases 8 - i,
                {
                    le[i] = buf[72 - i];
                    i = i + 1;
                }
                proof {
                    let rev = buf@.reverse();
                    bytes::lemma_be_as_le(buf@);
                    bytes::lemma_le_prefix(rev, 8);
                    assert(rev.take(8) =~= le@);
                    assert(le@.subrange(0, 8) =~= le@);
                    bytes::lemma_pow256_values();
                }
                bytes::u64_from_le(le.as_slice(), 0)
            },
            Scalar::Bls12381(f) => {
                let buf: Vec<u8> = f.to_le_bytes();
                proof {
                    bytes::lemma_le_prefix(buf@, 8);
                    assert(buf@.subrange(0, 8) =~= buf@.take(8));
                    bytes::lemma_pow256_values();
                }
                bytes::u64_from_le(buf.as_slice(), 0)
            },
        }
    }

    /// Return the byte length of a serialized scalar for this curve.
    pub fn byte_len(&self) -> (r: usize)
        ensures
            r == byte_length(self.curve()),
    {
        match self {
            Scalar::Bls48581(_) => bls48::MODBYTES,
            Scalar::Bls12381(_) => 32,
        }
    }

    /// Return which curve this scalar belongs to.
    pub fn curve_type(&self) -> (r: CurveType)
        ensures
            r == self.curve(),
    {
        match self {
            Scalar::Bls48581(_) => CurveType::Bls48581,
            Scalar::Bls12381(_) => CurveType::Bls12381,
        }
    }

    /// Check if the scalar is one.
    pub fn is_one(&self) -> (r: bool)
        ensures
            r == (self@ == 1),
    {
        match self {
            Scalar::Bls48581(b) => b.is_one(),
            Scalar::Bls12381(f) => f.is_one(),
        }
    }

    /// Field multiplicative inverse: a^{-1} such that a * a^{-1} = 1.
    ///
    /// Zero has no inverse. A scalar that stands for zero without being zero,
    /// which [`Scalar::neg`] and [`Scalar::from_bytes`] can give on BLS48-581,
    /// gives zero.
    pub fn inverse(&self) -> (r: Self)
        requires
            self@ != 0,
        ensures
            r.curve() == self.curve(),
            self@ % order(self.curve()) != 0 ==> (self@ * r@) % order(self.curve()) == 1,
            self@ % order(self.curve()) == 0 ==> r@ == 0,
            0 <= r@ < order(self.curve()),
    {
        proof {
            reveal(order);
        }
        match self {
            Scalar::Bls48581(a) => {
                let r: Big581 = a.inv_mod581();
                r.nonneg();
                Scalar::Bls48581(r)
            },
            Scalar::Bls12381(a) => {
                a.bound();
                let r: Fr = a.inv_mod();
                r.bound();
                proof {
                    lemma_small_mod(a.value() as nat, bls48::order381() as nat);
                }
                Scalar::Bls12381(r)
            },
        }
    }

    /// Reduce modulo the curve order.
    pub fn reduce(&mut self)
        ensures
            final(self).curve() == old(self).curve(),
            final(self)@ == old(self)@ % order(old(self).curve()),
    {
        proof {
            reveal(order);
        }
        let r: Scalar = match self {
            Scalar::Bls48581(b) => Scalar::Bls48581(b.reduce()),
            Scalar::Bls12381(f) => {
                f.bound();
                proof {
                    lemma_small_mod(f.value() as nat, bls48::order381() as nat);
                }
                Scalar::Bls12381(*f)
            },
        };
        *self = r;
    }

    /// Convert 32 Fiat-Shamir challenge bytes to a scalar: a big-endian
    /// integer on BLS48-581, a little-endian one on BLS12-381.
    pub fn from_challenge_bytes(challenge_bytes: &[u8; 32], curve: CurveType) -> (r: Self)
        ensures
            r.curve() == curve,
            curve == CurveType::Bls48581 ==> r@ == bytes::be_value(challenge_bytes@) % order(curve),
            curve == CurveType::Bls12381 ==> r@ == bytes::le_value(challenge_bytes@) % order(curve),
    {
        assert(challenge_bytes@.take(32) =~= challenge_bytes@);
        let mut r: Scalar = Self::from_bytes(challenge_bytes.as_slice(), curve);
        proof {
            lemma_order(curve);
            lemma_mod_twice(bytes::le_value(challenge_bytes@), order(curve));
        }
        r.reduce();
        r
    }

    /// Return the scalar field byte length for a given curve type.
    pub fn byte_len_for_curve(curve: CurveType) -> (r: usize)
        ensures
            r == byte_length(curve),
    {
        match curve {
            CurveType::Bls48581 => bls48::MODBYTES,
            CurveType::Bls12381 => 32,
        }
    }
}

// ─── Laws ─────────────────────────────────────────────────────────────

/// What [`Scalar::add`] makes of two integers.
pub open spec fn sum(curve: CurveType, x: int, y: int) -> int {
    (x + y) % order(curve)
}

/// What [`Scalar::mul`] makes of two integers.
pub open spec fn product(curve: CurveType, x: int, y: int) -> int {
    (x * y) % order(curve)
}

/// Sums of scalars commute and associate.
pub proof fn law_sums(curve: CurveType, x: int, y: int, z: int)
    ensures
        sum(curve, x, y) == sum(curve, y, x),
        sum(curve, sum(curve, x, y), z) == sum(curve, x, sum(curve, y, z)),
        sum(curve, x, 0) == x % order(curve),
{
    lemma_order(curve);
    let m = order(curve);
    lemma_add_mod_noop_right(z, x + y, m);
    lemma_add_mod_noop_right(x, y + z, m);
}

/// Products of scalars commute, associate and distribute over sums.
pub proof fn law_products(curve: CurveType, x: int, y: int, z: int)
    ensures
        product(curve, x, y) == product(curve, y, x),
        product(curve, product(curve, x, y), z) == product(curve, x, product(curve, y, z)),
        product(curve, x, sum(curve, y, z)) == sum(
            curve,
            product(curve, x, y),
            product(curve, x, z),
        ),
        product(curve, x, 1) == x % order(curve),
        product(curve, x, 0) == 0,
{
    lemma_order(curve);
    let m = order(curve);
    assert(x * y == y * x) by (nonlinear_arith);
    assert((x * y) * z == x * (y * z)) by (nonlinear_arith);
    assert(x * (y + z) == x * y + x * z) by (nonlinear_arith);
    lemma_mul_mod_noop_left(x * y, z, m);
    lemma_mul_mod_noop_right(x, y * z, m);
    lemma_mul_mod_noop_right(x, y + z, m);
    lemma_add_mod_noop(x * y, x * z, m);
    assert(x * 1 == x && x * 0 == 0);
    lemma_small_mod(0, m as nat);
}

/// A scalar plus its negation is zero.
pub proof fn law_neg_add_is_zero(a: Scalar, negated: Scalar)
    requires
        negated@ % order(a.curve()) == (-a@) % order(a.curve()),
    ensures
        sum(a.curve(), a@, negated@) == 0,
{
    lemma_order(a.curve());
    let m = order(a.curve());
    lemma_add_mod_noop_right(a@, negated@, m);
    lemma_add_mod_noop_right(a@, -a@, m);
    lemma_small_mod(0, m as nat);
}

/// A difference is the sum with the negation.
pub proof fn law_sub_is_add_neg(a: Scalar, b: Scalar, negated: Scalar)
    requires
        negated@ % order(a.curve()) == (-b@) % order(a.curve()),
    ensures
        sum(a.curve(), a@, negated@) == (a@ - b@) % order(a.curve()),
{
    lemma_order(a.curve());
    let m = order(a.curve());
    lemma_add_mod_noop_right(a@, negated@, m);
    lemma_add_mod_noop_right(a@, -b@, m);
}

/// Reading back a `u64` gives it back.
pub proof fn law_u64_round_trip(a: Scalar, x: u64)
    requires
        a@ == x,
    ensures
        a@ % 0x1_0000_0000_0000_0000 == x,
{
}

/// The bytes of a scalar in the order in which [`Scalar::from_bytes`] reads
/// them: as [`Scalar::to_bytes`] writes them on BLS48-581, reversed on
/// BLS12-381.
pub open spec fn in_reading_order(curve: CurveType, written: Seq<u8>) -> Seq<u8> {
    match curve {
        CurveType::Bls48581 => written,
        CurveType::Bls12381 => written.reverse(),
    }
}

/// Reading back the bytes of a scalar in reading order gives it back: on
/// BLS48-581 as it is, on BLS12-381 reduced, which every scalar there is.
pub proof fn law_bytes_round_trip(a: Scalar, written: Seq<u8>, b: Scalar)
    requires
        written.len() == byte_length(a.curve()),
        bytes::be_value(written) == a@,
        ({
            let read = in_reading_order(a.curve(), written);
            &&& a.curve() == CurveType::Bls48581 ==> b@ == bytes::be_value(
                read.take(if read.len() < 73 { read.len() as int } else { 73 }),
            )
            &&& a.curve() == CurveType::Bls12381 ==> b@ == bytes::le_value(
                read.take(if read.len() < 32 { read.len() as int } else { 32 }),
            ) % order(a.curve())
        }),
    ensures
        a.curve() == CurveType::Bls48581 ==> b@ == a@,
        a.curve() == CurveType::Bls12381 ==> b@ == a@ % order(a.curve()),
        0 <= a@ < order(a.curve()) ==> b@ == a@,
{
    let read = in_reading_order(a.curve(), written);
    assert(read.take(read.len() as int) =~= read);
    bytes::lemma_be_as_le(written);
    if 0 <= a@ < order(a.curve()) {
        lemma_small_mod(a@ as nat, order(a.curve()) as nat);
    }
}

} // verus!
