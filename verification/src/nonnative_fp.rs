//! The base field of BLS12-381: integers modulo a 381-bit prime, as six
//! 64-bit limbs.

use crate::limbs;
use vstd::prelude::*;

verus! {

/// The prime.
pub open spec fn prime() -> int {
    0x1a0111ea397fe69a4b1ba7b6434bacd764774b84f38512bf6730d2a0f6b0f6241eabfffeb153ffffb9feffffffffaaabint
}

/// A field element; the most significant limb comes first.
#[derive(Clone, Copy, Debug, PartialEq, Eq)]
pub struct Fp {
    pub limbs: [u64; 6],
}

/// Six limbs, least significant first, written out.
proof fn lemma_value6(s: Seq<u64>)
    requires
        s.len() == 6,
    ensures
        limbs::value(s) == s[0] + 0x1_0000000000000000int * s[1]
            + 0x1_00000000000000000000000000000000int * s[2]
            + 0x1_000000000000000000000000000000000000000000000000int * s[3]
            + 0x1_0000000000000000000000000000000000000000000000000000000000000000int * s[4]
            + 0x1_00000000000000000000000000000000000000000000000000000000000000000000000000000000int
            * s[5],
{
    assert(s.take(0) =~= Seq::<u64>::empty());
    assert(s.take(6) =~= s);
    limbs::lemma_value_take_next(s, 0);
    limbs::lemma_value_take_next(s, 1);
    limbs::lemma_value_take_next(s, 2);
    limbs::lemma_value_take_next(s, 3);
    limbs::lemma_value_take_next(s, 4);
    limbs::lemma_value_take_next(s, 5);
    assert(limbs::radix_pow(0) == 1);
    assert(limbs::radix_pow(1) == 0x1_0000000000000000int);
    assert(limbs::radix_pow(2) == 0x1_00000000000000000000000000000000int);
    assert(limbs::radix_pow(3) == 0x1_000000000000000000000000000000000000000000000000int);
    assert(limbs::radix_pow(4) == 0x1_0000000000000000000000000000000000000000000000000000000000000000int);
    assert(limbs::radix_pow(5) == 0x1_00000000000000000000000000000000000000000000000000000000000000000000000000000000int);
    lemma_swap(s[0] as int, limbs::radix_pow(0));
    lemma_swap(s[1] as int, limbs::radix_pow(1));
    lemma_swap(s[2] as int, limbs::radix_pow(2));
    lemma_swap(s[3] as int, limbs::radix_pow(3));
    lemma_swap(s[4] as int, limbs::radix_pow(4));
    lemma_swap(s[5] as int, limbs::radix_pow(5));
}

proof fn lemma_swap(x: int, y: int)
    ensures
        x * y == y * x,
{
    vstd::arithmetic::mul::lemma_mul_is_commutative(x, y);
}

/// The limbs of the prime.
fn prime_limbs() -> (r: [u64; 6])
    ensures
        limbs::value(r@) == prime(),
        limbs::is_modulus(r@),
{
    let r: [u64; 6] = [
        0xb9feffffffffaaab,
        0x1eabfffeb153ffff,
        0x6730d2a0f6b0f624,
        0x64774b84f38512bf,
        0x4b1ba7b6434bacd7,
        0x1a0111ea397fe69a,
    ];
    proof {
        lemma_value6(r@);
    }
    r
}

/// What a number of six limbs is multiplied by in Montgomery form.
pub open spec fn montgomery() -> int {
    0x15f65ec3fa80e4935c071a97a256ec6d77ce5853705257455f48985753c758baebf4000bc40c0002760900000002fffdint
}

/// The inverse of [`montgomery`].
pub open spec fn montgomery_inverse() -> int {
    0x14fec701e8fb0ce9ed5e64273c4f538b1797ab1458a88de9343ea97914956dc87fe11274d898fafbf4d38259380b4820int
}

/// The Montgomery factor is the number of values of six limbs, and its inverse
/// is one.
pub proof fn law_montgomery()
    ensures
        montgomery() == limbs::radix_pow(6) % prime(),
        (montgomery() * montgomery_inverse()) % prime() == 1,
{
    assert(limbs::radix_pow(0) == 1);
    assert(limbs::radix_pow(1) == 0x1_0000000000000000int);
    assert(limbs::radix_pow(2) == 0x1_00000000000000000000000000000000int);
    assert(limbs::radix_pow(3) == 0x1_000000000000000000000000000000000000000000000000int);
    assert(limbs::radix_pow(4)
        == 0x1_0000000000000000000000000000000000000000000000000000000000000000int);
    assert(limbs::radix_pow(5)
        == 0x1_00000000000000000000000000000000000000000000000000000000000000000000000000000000int);
    assert(limbs::radix_pow(6)
        == 0x1_000000000000000000000000000000000000000000000000000000000000000000000000000000000000000000000000int);
}

impl Fp {
    /// The limbs, least significant first.
    pub open spec fn little_endian(&self) -> Seq<u64> {
        self.limbs@.reverse()
    }

    /// The integer that the limbs stand for.
    pub open spec fn value(&self) -> int {
        limbs::value(self.little_endian())
    }

    /// The limbs stand for an integer below the prime.
    pub open spec fn valid(&self) -> bool {
        self.value() < prime()
    }

    pub fn zero() -> (r: Self)
        ensures
            r.value() == 0,
            r.valid(),
    {
        Self::small(0)
    }

    pub fn one() -> (r: Self)
        ensures
            r.value() == 1,
            r.valid(),
    {
        Self::small(1)
    }

    fn small(x: u64) -> (r: Self)
        ensures
            r.value() == x,
            r.valid(),
    {
        let r: Fp = Fp { limbs: [0, 0, 0, 0, 0, x] };
        proof {
            lemma_value6(r.little_endian());
        }
        r
    }

    /// The limbs, least significant first.
    pub fn to_little_endian(&self) -> (r: [u64; 6])
        ensures
            r@ == self.little_endian(),
    {
        let l: [u64; 6] = self.limbs;
        let r: [u64; 6] = [l[5], l[4], l[3], l[2], l[1], l[0]];
        assert(r@ =~= self.little_endian());
        r
    }

    fn from_little_endian(v: &Vec<u64>) -> (r: Self)
        requires
            v.len() == 6,
        ensures
            r.value() == limbs::value(v@),
    {
        let r: Fp = Fp { limbs: [v[5], v[4], v[3], v[2], v[1], v[0]] };
        assert(r.little_endian() =~= v@);
        r
    }

    /// The product modulo the prime.
    pub fn mul(&self, other: &Self) -> (r: Self)
        ensures
            r.value() == (self.value() * other.value()) % prime(),
            r.valid(),
    {
        let m: [u64; 6] = prime_limbs();
        let one: [u64; 6] = [1, 0, 0, 0, 0, 0];
        proof {
            lemma_value6(one@);
            vstd::arithmetic::div_mod::lemma_mul_mod_noop_left(
                self.value(),
                other.value(),
                prime(),
            );
        }
        let a: [u64; 6] = self.to_little_endian();
        let b: [u64; 6] = other.to_little_endian();
        let reduced: Vec<u64> = limbs::mul_mod(one.as_slice(), a.as_slice(), m.as_slice());
        proof {
            let x = self.value();
            assert(limbs::value(one@) * x == x) by (nonlinear_arith)
                requires
                    limbs::value(one@) == 1,
            ;
            assert(limbs::value(reduced@) == x % prime());
        }
        Self::from_little_endian(
            &limbs::mul_mod(reduced.as_slice(), b.as_slice(), m.as_slice()),
        )
    }

    /// The Montgomery form, least significant limb first.
    pub fn to_montgomery(&self) -> (r: [u64; 6])
        ensures
            limbs::value(r@) == (montgomery() * self.value()) % prime(),
            limbs::value(r@) < prime(),
    {
        let m: [u64; 6] = prime_limbs();
        let factor: [u64; 6] = [
            0x760900000002fffd,
            0xebf4000bc40c0002,
            0x5f48985753c758ba,
            0x77ce585370525745,
            0x5c071a97a256ec6d,
            0x15f65ec3fa80e493,
        ];
        proof {
            lemma_value6(factor@);
        }
        let a: [u64; 6] = self.to_little_endian();
        let v: Vec<u64> = limbs::mul_mod(factor.as_slice(), a.as_slice(), m.as_slice());
        let r: [u64; 6] = [v[0], v[1], v[2], v[3], v[4], v[5]];
        assert(r@ =~= v@);
        r
    }

    /// The element with the given Montgomery form.
    pub fn from_montgomery(l: &[u64; 6]) -> (r: Self)
        ensures
            r.value() == (montgomery_inverse() * limbs::value(l@)) % prime(),
            r.valid(),
    {
        let m: [u64; 6] = prime_limbs();
        let factor: [u64; 6] = [
            0xf4d38259380b4820,
            0x7fe11274d898fafb,
            0x343ea97914956dc8,
            0x1797ab1458a88de9,
            0xed5e64273c4f538b,
            0x14fec701e8fb0ce9,
        ];
        proof {
            lemma_value6(factor@);
        }
        Self::from_little_endian(
            &limbs::mul_mod(factor.as_slice(), l.as_slice(), m.as_slice()),
        )
    }
}

/// Limb `j` of the number `x`, most significant of six first.
pub open spec fn limb_of(x: int, j: int) -> int {
    (x / limbs::radix_pow((5 - j) as nat)) % limbs::radix()
}

/// The limbs of an element are those of its number.
pub proof fn law_limbs(a: Fp, j: int)
    requires
        0 <= j < 6,
    ensures
        a.limbs@[j] == limb_of(a.value(), j),
{
    limbs::lemma_digit(a.little_endian(), 5 - j);
}

/// Limbs are determined by the integer.
pub proof fn lemma_limbs_injective(a: Fp, b: Fp)
    requires
        a.value() == b.value(),
    ensures
        a.limbs@ == b.limbs@,
{
    limbs::lemma_value_injective(a.little_endian(), b.little_endian());
    assert(a.limbs@ =~= a.little_endian().reverse());
    assert(b.limbs@ =~= b.little_endian().reverse());
}

/// The number of an element: its limbs, most significant first, in base 2^64.
pub proof fn law_value(a: Fp)
    ensures
        a.value() == a.limbs@[5] + 0x1_0000000000000000int * a.limbs@[4]
            + 0x1_00000000000000000000000000000000int * a.limbs@[3]
            + 0x1_000000000000000000000000000000000000000000000000int * a.limbs@[2]
            + 0x1_0000000000000000000000000000000000000000000000000000000000000000int * a.limbs@[1]
            + 0x1_00000000000000000000000000000000000000000000000000000000000000000000000000000000int
            * a.limbs@[0],
        a.little_endian().len() == 6,
        forall|j: int| 0 <= j < 6 ==> #[trigger] a.little_endian()[j] == a.limbs@[5 - j],
{
    lemma_value6(a.little_endian());
}

proof fn lemma_quotient(x: int, k: nat)
    requires
        0 <= x,
    ensures
        x / limbs::radix_pow(k) == 0x1_0000000000000000int * (x / limbs::radix_pow(k + 1)) + (x
            / limbs::radix_pow(k)) % limbs::radix(),
        0 <= x / limbs::radix_pow(k),
        0 <= (x / limbs::radix_pow(k)) % limbs::radix() < 0x1_0000000000000000int,
{
    let (p, r) = (limbs::radix_pow(k), limbs::radix());
    limbs::lemma_radix_pow_pos(k);
    vstd::arithmetic::div_mod::lemma_div_denominator(x, p, r);
    assert(p * r == limbs::radix_pow(k + 1)) by {
        vstd::arithmetic::mul::lemma_mul_is_commutative(p, r);
    }
    vstd::arithmetic::div_mod::lemma_fundamental_div_mod(x / p, r);
    vstd::arithmetic::div_mod::lemma_div_pos_is_pos(x, p);
}

/// A number below 2^384 is the sum of its limbs in base 2^64.
pub proof fn law_limbs_add_up(x: int)
    requires
        0 <= x < limbs::radix_pow(6),
    ensures
        x == limb_of(x, 5) + 0x1_0000000000000000int * limb_of(x, 4)
            + 0x1_00000000000000000000000000000000int * limb_of(x, 3)
            + 0x1_000000000000000000000000000000000000000000000000int * limb_of(x, 2)
            + 0x1_0000000000000000000000000000000000000000000000000000000000000000int * limb_of(x, 1)
            + 0x1_00000000000000000000000000000000000000000000000000000000000000000000000000000000int
            * limb_of(x, 0),
{
    lemma_quotient(x, 0);
    lemma_quotient(x, 1);
    lemma_quotient(x, 2);
    lemma_quotient(x, 3);
    lemma_quotient(x, 4);
    lemma_quotient(x, 5);
    assert(limbs::radix_pow(0) == 1);
    vstd::arithmetic::div_mod::lemma_div_by_self(1);
    assert(x / 1 == x);
    vstd::arithmetic::div_mod::lemma_basic_div(x, limbs::radix_pow(6));
}

/// The prime has room in six limbs.
pub proof fn lemma_prime_fits()
    ensures
        0 < prime() < limbs::radix_pow(6),
{
    assert(limbs::radix_pow(0) == 1);
    assert(limbs::radix_pow(1) == 0x1_0000000000000000int);
    assert(limbs::radix_pow(2) == 0x1_00000000000000000000000000000000int);
    assert(limbs::radix_pow(3) == 0x1_000000000000000000000000000000000000000000000000int);
    assert(limbs::radix_pow(4)
        == 0x1_0000000000000000000000000000000000000000000000000000000000000000int);
    assert(limbs::radix_pow(5)
        == 0x1_00000000000000000000000000000000000000000000000000000000000000000000000000000000int);
}

/// What goes into Montgomery form comes back out of it.
pub proof fn law_montgomery_round_trip(x: int)
    requires
        0 <= x < prime(),
    ensures
        (montgomery_inverse() * ((montgomery() * x) % prime())) % prime() == x,
{
    law_montgomery();
    let (m, k, p) = (montgomery(), montgomery_inverse(), prime());
    vstd::arithmetic::div_mod::lemma_mul_mod_noop_right(k, m * x, p);
    assert(k * (m * x) == (m * k) * x) by (nonlinear_arith);
    vstd::arithmetic::div_mod::lemma_mul_mod_noop_left(m * k, x, p);
    vstd::arithmetic::div_mod::lemma_small_mod(x as nat, p as nat);
}

} // verus!
