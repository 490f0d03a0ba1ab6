//! Modular arithmetic on little-endian sequences of 64-bit limbs.
//!
//! A sequence of `n` limbs stands for the integer [`value`]. The functions
//! here work modulo an arbitrary `n`-limb modulus whose top limb is not zero.

use vstd::arithmetic::div_mod::*;
use vstd::arithmetic::mul::*;
use vstd::prelude::*;

verus! {

/// The radix of the representation.
pub open spec fn radix() -> int {
    0x1_0000_0000_0000_0000
}

/// `radix()` to the power `i`.
pub open spec fn radix_pow(i: nat) -> int
    decreases i,
{
    if i == 0 {
        1
    } else {
        radix() * radix_pow((i - 1) as nat)
    }
}

/// The integer that a little-endian sequence of limbs stands for.
pub open spec fn value(s: Seq<u64>) -> int
    decreases s.len(),
{
    if s.len() == 0 {
        0
    } else {
        value(s.drop_last()) + s.last() * radix_pow((s.len() - 1) as nat)
    }
}

pub proof fn lemma_radix_pow_pos(i: nat)
    ensures
        radix_pow(i) > 0,
    decreases i,
{
    if i > 0 {
        lemma_radix_pow_pos((i - 1) as nat);
        lemma_mul_strictly_positive(radix(), radix_pow((i - 1) as nat));
    }
}

/// `n` limbs stand for a value below `radix_pow(n)`.
pub proof fn lemma_value_bound(s: Seq<u64>)
    ensures
        0 <= value(s) < radix_pow(s.len()),
    decreases s.len(),
{
    if s.len() > 0 {
        let k = (s.len() - 1) as nat;
        lemma_value_bound(s.drop_last());
        lemma_radix_pow_pos(k);
        let p = radix_pow(k);
        let t = s.last() as int;
        assert(0 <= t * p <= (radix() - 1) * p) by (nonlinear_arith)
            requires
                0 <= t <= radix() - 1,
                p > 0,
        ;
        assert((radix() - 1) * p + p == radix() * p) by (nonlinear_arith);
    }
}

pub proof fn lemma_value_push(s: Seq<u64>, x: u64)
    ensures
        value(s.push(x)) == value(s) + x * radix_pow(s.len()),
{
    assert(s.push(x).drop_last() =~= s);
}

pub proof fn lemma_value_take_next(s: Seq<u64>, i: int)
    requires
        0 <= i < s.len(),
    ensures
        value(s.take(i + 1)) == value(s.take(i)) + s[i] * radix_pow(i as nat),
{
    assert(s.take(i + 1) =~= s.take(i).push(s[i]));
    lemma_value_push(s.take(i), s[i]);
}

/// Putting a limb in front multiplies by the radix and adds the limb.
pub proof fn lemma_value_shift(x: u64, s: Seq<u64>)
    ensures
        value(seq![x] + s) == x + radix() * value(s),
    decreases s.len(),
{
    let t = seq![x] + s;
    if s.len() == 0 {
        assert(t =~= Seq::<u64>::empty().push(x));
        lemma_value_push(Seq::<u64>::empty(), x);
        assert(radix_pow(0) == 1);
        assert(value(s) == 0);
    } else {
        assert(t.drop_last() =~= seq![x] + s.drop_last());
        lemma_value_shift(x, s.drop_last());
        let k = (s.len() - 1) as nat;
        let l = s.last() as int;
        let p = radix_pow(k);
        let v = value(s.drop_last());
        assert(radix_pow(s.len()) == radix() * p);
        assert(radix() * (v + l * p) == radix() * v + l * (radix() * p)) by (nonlinear_arith);
    }
}

/// A trailing zero limb does not change the value.
pub proof fn lemma_value_top_zero(s: Seq<u64>)
    requires
        s.len() > 0,
        value(s) < radix_pow((s.len() - 1) as nat),
    ensures
        s.last() == 0,
        value(s.drop_last()) == value(s),
{
    let k = (s.len() - 1) as nat;
    lemma_value_bound(s.drop_last());
    lemma_radix_pow_pos(k);
    let p = radix_pow(k);
    let l = s.last() as int;
    if l != 0 {
        assert(l * p >= p) by (nonlinear_arith)
            requires
                l >= 1,
                p > 0,
        ;
    } else {
        assert(l * p == 0) by (nonlinear_arith)
            requires
                l == 0,
        ;
    }
}

proof fn lemma_radix_pow_sum(i: nat, j: nat)
    ensures
        radix_pow(i + j) == radix_pow(i) * radix_pow(j),
    decreases i,
{
    if i > 0 {
        lemma_radix_pow_sum((i - 1) as nat, j);
        assert((i + j - 1) as nat == (i - 1) as nat + j);
        assert(radix() * (radix_pow((i - 1) as nat) * radix_pow(j)) == (radix() * radix_pow(
            (i - 1) as nat,
        )) * radix_pow(j)) by (nonlinear_arith);
    }
}

/// A limb is a digit of the number to the base [`radix`].
pub proof fn lemma_digit(s: Seq<u64>, i: int)
    requires
        0 <= i < s.len(),
    ensures
        (value(s) / radix_pow(i as nat)) % radix() == s[i],
    decreases s.len(),
{
    let k = (s.len() - 1) as nat;
    let low = value(s.drop_last());
    let top = s.last() as int;
    let p = radix_pow(i as nat);
    lemma_value_bound(s.drop_last());
    lemma_radix_pow_pos(i as nat);
    if i == k {
        vstd::arithmetic::div_mod::lemma_fundamental_div_mod_converse(value(s), p, top, low);
        vstd::arithmetic::div_mod::lemma_small_mod(top as nat, radix() as nat);
    } else {
        lemma_digit(s.drop_last(), i);
        let q = radix_pow((k - i - 1) as nat);
        assert(radix_pow((k - i) as nat) == radix() * q);
        lemma_radix_pow_sum(i as nat, (k - i) as nat);
        assert(top * radix_pow(k) == p * (radix() * (top * q))) by (nonlinear_arith)
            requires
                radix_pow(k) == p * (radix() * q),
        ;
        vstd::arithmetic::div_mod::lemma_hoist_over_denominator(low, radix() * (top * q), p as nat);
        vstd::arithmetic::div_mod::lemma_mod_multiples_vanish(top * q, low / p, radix());
    }
}

/// Two sequences of the same length with the same value are equal.
pub proof fn lemma_value_injective(a: Seq<u64>, b: Seq<u64>)
    requires
        a.len() == b.len(),
        value(a) == value(b),
    ensures
        a == b,
    decreases a.len(),
{
    if a.len() > 0 {
        let k = (a.len() - 1) as nat;
        let p = radix_pow(k);
        lemma_radix_pow_pos(k);
        lemma_value_bound(a.drop_last());
        lemma_value_bound(b.drop_last());
        let (x, y) = (a.last() as int, b.last() as int);
        let (u, v) = (value(a.drop_last()), value(b.drop_last()));
        assert(x == y && u == v) by (nonlinear_arith)
            requires
                u + x * p == v + y * p,
                0 <= u < p,
                0 <= v < p,
        ;
        lemma_value_injective(a.drop_last(), b.drop_last());
        assert(a =~= a.drop_last().push(a.last()));
        assert(b =~= b.drop_last().push(b.last()));
    } else {
        assert(a =~= b);
    }
}

/// Sum of two numbers of `n` limbs, as `n + 1` limbs.
pub fn add_wide(a: &[u64], b: &[u64]) -> (r: Vec<u64>)
    requires
        a.len() == b.len(),
        a.len() < usize::MAX,
    ensures
        r.len() == a.len() + 1,
        value(r@) == value(a@) + value(b@),
{
    let n: usize = a.len();
    let mut out: Vec<u64> = Vec::with_capacity(n + 1);
    let mut carry: u64 = 0;
    let mut i: usize = 0;
    while i < n
        invariant
            n == a.len(),
            n == b.len(),
            i <= n,
            out.len() == i,
            carry <= 1,
            value(out@) + carry * radix_pow(i as nat) == value(a@.take(i as int)) + value(
                b@.take(i as int),
            ),
        decreases n - i,
    {
        let ghost before = out@;
        let t: u128 = a[i] as u128 + b[i] as u128 + carry as u128;
        let lo: u64 = (t % 0x1_0000_0000_0000_0000) as u64;
        let hi: u64 = (t / 0x1_0000_0000_0000_0000) as u64;
        out.push(lo);
        proof {
            lemma_value_push(before, lo);
            lemma_value_take_next(a@, i as int);
            lemma_value_take_next(b@, i as int);
            let p = radix_pow(i as nat);
            let (x, y, c, l, h) = (
                a[i as int] as int,
                b[i as int] as int,
                carry as int,
                lo as int,
                hi as int,
            );
            assert(l * p + h * (radix() * p) == x * p + y * p + c * p) by (nonlinear_arith)
                requires
                    l + h * radix() == x + y + c,
            ;
        }
        carry = hi;
        i = i + 1;
    }
    proof {
        assert(a@.take(n as int) =~= a@);
        assert(b@.take(n as int) =~= b@);
        lemma_value_push(out@, carry);
    }
    out.push(carry);
    out
}

/// Difference of two numbers of `n` limbs modulo `radix_pow(n)`, and whether
/// the true difference is negative.
pub fn sub_borrow(a: &[u64], b: &[u64]) -> (r: (Vec<u64>, bool))
    requires
        a.len() == b.len(),
    ensures
        r.0.len() == a.len(),
        r.1 == (value(a@) < value(b@)),
        value(r.0@) == value(a@) - value(b@) + (if r.1 {
            radix_pow(a.len() as nat)
        } else {
            0
        }),
{
    let n: usize = a.len();
    let mut out: Vec<u64> = Vec::with_capacity(n);
    let mut borrow: u64 = 0;
    let mut i: usize = 0;
    while i < n
        invariant
            n == a.len(),
            n == b.len(),
            i <= n,
            out.len() == i,
            borrow <= 1,
            value(out@) == value(a@.take(i as int)) - value(b@.take(i as int)) + borrow
                * radix_pow(i as nat),
        decreases n - i,
    {
        let ghost before = out@;
        let t: u128 = 0x1_0000_0000_0000_0000 + a[i] as u128 - b[i] as u128 - borrow as u128;
        let lo: u64 = (t % 0x1_0000_0000_0000_0000) as u64;
        let next: u64 = if t < 0x1_0000_0000_0000_0000 {
            1
        } else {
            0
        };
        out.push(lo);
        proof {
            lemma_value_push(before, lo);
            lemma_value_take_next(a@, i as int);
            lemma_value_take_next(b@, i as int);
            let p = radix_pow(i as nat);
            let (x, y, c, l, h) = (
                a[i as int] as int,
                b[i as int] as int,
                borrow as int,
                lo as int,
                next as int,
            );
            assert(l * p == x * p - y * p - c * p + h * (radix() * p)) by (nonlinear_arith)
                requires
                    l == x - y - c + h * radix(),
            ;
        }
        borrow = next;
        i = i + 1;
    }
    proof {
        assert(a@.take(n as int) =~= a@);
        assert(b@.take(n as int) =~= b@);
        lemma_value_bound(out@);
        let p = radix_pow(n as nat);
        assert(borrow * p == if borrow == 1 {
            p
        } else {
            0
        }) by (nonlinear_arith)
            requires
                borrow <= 1,
        ;
    }
    (out, borrow == 1)
}

/// Product of a number of `n` limbs and one limb, as `n + 1` limbs.
pub fn mul_limb(a: &[u64], q: u64) -> (r: Vec<u64>)
    requires
        a.len() < usize::MAX,
    ensures
        r.len() == a.len() + 1,
        value(r@) == value(a@) * q,
{
    let n: usize = a.len();
    let mut out: Vec<u64> = Vec::with_capacity(n + 1);
    let mut carry: u64 = 0;
    let mut i: usize = 0;
    proof {
        assert(0 * q == 0) by (nonlinear_arith);
    }
    while i < n
        invariant
            n == a.len(),
            i <= n,
            out.len() == i,
            value(out@) + carry * radix_pow(i as nat) == value(a@.take(i as int)) * q,
        decreases n - i,
    {
        let ghost before = out@;
        let ai: u64 = a[i];
        assert(ai * q + carry <= 0xffff_ffff_ffff_ffff * 0x1_0000_0000_0000_0000)
            by (nonlinear_arith)
            requires
                ai <= 0xffff_ffff_ffff_ffff,
                q <= 0xffff_ffff_ffff_ffff,
                carry <= 0xffff_ffff_ffff_ffff,
        ;
        assert(ai * q >= 0) by (nonlinear_arith);
        let t: u128 = (ai as u128) * (q as u128) + carry as u128;
        let lo: u64 = (t % 0x1_0000_0000_0000_0000) as u64;
        let hi: u64 = (t / 0x1_0000_0000_0000_0000) as u64;
        out.push(lo);
        proof {
            lemma_value_push(before, lo);
            lemma_value_take_next(a@, i as int);
            let p = radix_pow(i as nat);
            let v = value(a@.take(i as int));
            let (x, k, c, l, h) = (ai as int, q as int, carry as int, lo as int, hi as int);
            assert(l + h * radix() == x * k + c);
            assert(v * k - c * p + l * p + h * (radix() * p) == (v + x * p) * k)
                by (nonlinear_arith)
                requires
                    l + h * radix() == x * k + c,
            ;
        }
        carry = hi;
        i = i + 1;
    }
    proof {
        assert(a@.take(n as int) =~= a@);
        lemma_value_push(out@, carry);
    }
    out.push(carry);
    out
}

/// A modulus: at least one limb, and the top limb is not zero.
pub open spec fn is_modulus(m: Seq<u64>) -> bool {
    m.len() > 0 && m.last() > 0
}

pub proof fn lemma_modulus_pos(m: Seq<u64>)
    requires
        is_modulus(m),
    ensures
        0 < value(m) < radix_pow(m.len()),
        radix_pow((m.len() - 1) as nat) <= value(m),
{
    let k = (m.len() - 1) as nat;
    lemma_value_bound(m);
    lemma_value_bound(m.drop_last());
    lemma_radix_pow_pos(k);
    let p = radix_pow(k);
    let l = m.last() as int;
    assert(l * p >= p) by (nonlinear_arith)
        requires
            l >= 1,
            p > 0,
    ;
}

/// Subtracts the modulus until what is left is smaller.
fn sub_while(x: Vec<u64>, m: &[u64]) -> (r: Vec<u64>)
    requires
        is_modulus(m@),
        x.len() == m.len() + 1,
    ensures
        r.len() == m.len(),
        value(r@) == value(x@) % value(m@),
{
    let n: usize = m.len();
    let mut wide: Vec<u64> = Vec::with_capacity(n + 1);
    let mut j: usize = 0;
    while j < n
        invariant
            n == m.len(),
            j <= n,
            wide@ =~= m@.take(j as int),
        decreases n - j,
    {
        wide.push(m[j]);
        j = j + 1;
    }
    let ghost w = wide@;
    wide.push(0);
    proof {
        assert(w =~= m@);
        lemma_value_push(m@, 0);
        assert(0 * radix_pow(m@.len()) == 0) by (nonlinear_arith);
        lemma_modulus_pos(m@);
        lemma_value_bound(x@);
    }
    let ghost mv = value(m@);
    let ghost xv = value(x@);
    let mut y: Vec<u64> = x;
    let mut done: bool = false;
    while !done
        invariant
            y.len() == n + 1,
            wide.len() == n + 1,
            n == m.len(),
            value(wide@) == mv,
            mv == value(m@),
            is_modulus(m@),
            mv > 0,
            value(y@) >= 0,
            value(y@) % mv == xv % mv,
            done ==> value(y@) < mv,
        decreases value(y@) + (if done {
            0int
        } else {
            1int
        }),
    {
        let (d, negative): (Vec<u64>, bool) = sub_borrow(y.as_slice(), wide.as_slice());
        if negative {
            done = true;
        } else {
            proof {
                lemma_mod_sub_multiples_vanish(value(y@), mv);
                lemma_value_bound(d@);
                assert((value(y@) - mv) % mv == (value(y@) % mv)) by {
                    lemma_mod_sub_multiples_vanish(value(y@), mv);
                }
            }
            y = d;
        }
    }
    proof {
        lemma_modulus_pos(m@);
        lemma_value_top_zero(y@);
        lemma_small_mod(value(y@) as nat, mv as nat);
    }
    let ghost full = y@;
    let top: Option<u64> = y.pop();
    assert(y@ =~= full.drop_last());
    y
}

/// Remainder of a number of `n + 1` limbs, below `radix()` times the modulus.
pub fn reduce_wide(x: Vec<u64>, m: &[u64]) -> (r: Vec<u64>)
    requires
        is_modulus(m@),
        x.len() == m.len() + 1,
        value(x@) < value(m@) * radix(),
    ensures
        r.len() == m.len(),
        value(r@) == value(x@) % value(m@),
{
    let n: usize = m.len();
    let top: u128 = (x[n] as u128) * 0x1_0000_0000_0000_0000 + x[n - 1] as u128;
    let lead: u128 = m[n - 1] as u128 + 1;
    let q: u128 = top / lead;
    let ghost k = (n - 1) as nat;
    let ghost p = radix_pow(k);
    let ghost mv = value(m@);
    let ghost xv = value(x@);
    proof {
        lemma_modulus_pos(m@);
        lemma_value_bound(m@.drop_last());
        lemma_value_bound(x@.drop_last().drop_last());
        lemma_radix_pow_pos(k);
        let low = value(x@.drop_last().drop_last());
        let (x1, x0) = (x[n as int] as int, x[n - 1] as int);
        assert(radix_pow(n as nat) == radix() * p);
        assert(x@.drop_last().last() == x[n - 1]);
        let y = x@.drop_last();
        assert(xv == value(y) + x1 * radix_pow(n as nat));
        assert(value(y) == value(y.drop_last()) + y.last() * radix_pow((y.len() - 1) as nat));
        assert(xv == low + x0 * p + x1 * (radix() * p));
        assert(x0 * p + x1 * (radix() * p) == top * p) by (nonlinear_arith)
            requires
                top == x1 * radix() + x0,
        ;
        assert(mv < lead * p) by (nonlinear_arith)
            requires
                mv == value(m@.drop_last()) + (lead - 1) * p,
                value(m@.drop_last()) < p,
        ;
        assert(top < lead * radix()) by (nonlinear_arith)
            requires
                top * p <= xv,
                xv < mv * radix(),
                mv < lead * p,
                p > 0,
        ;
        lemma_fundamental_div_mod(top as int, lead as int);
        assert(q * lead <= top) by (nonlinear_arith)
            requires
                top == lead * (top / lead) + top % lead,
                q == top / lead,
                top % lead >= 0,
        ;
        assert(q < radix()) by (nonlinear_arith)
            requires
                q * lead <= top,
                top < lead * radix(),
                lead > 0,
        ;
        assert(mv * q <= xv) by (nonlinear_arith)
            requires
                q * lead <= top,
                mv < lead * p,
                top * p <= xv,
                p > 0,
                q >= 0,
        ;
    }
    let qm: Vec<u64> = mul_limb(m, q as u64);
    let (y, negative): (Vec<u64>, bool) = sub_borrow(x.as_slice(), qm.as_slice());
    let r: Vec<u64> = sub_while(y, m);
    proof {
        lemma_mod_multiples_vanish(-(q as int), xv, mv);
        assert(mv * -(q as int) + xv == xv - mv * q) by (nonlinear_arith);
    }
    r
}

/// `(a + b) mod m`.
pub fn add_mod(a: &[u64], b: &[u64], m: &[u64]) -> (r: Vec<u64>)
    requires
        is_modulus(m@),
        a.len() == m.len(),
        b.len() == m.len(),
        m.len() < usize::MAX,
    ensures
        r.len() == m.len(),
        value(r@) == (value(a@) + value(b@)) % value(m@),
{
    let s: Vec<u64> = add_wide(a, b);
    sub_while(s, m)
}

/// `(a - b) mod m`.
pub fn sub_mod(a: &[u64], b: &[u64], m: &[u64]) -> (r: Vec<u64>)
    requires
        is_modulus(m@),
        a.len() == m.len(),
        b.len() == m.len(),
        m.len() < usize::MAX,
        value(b@) <= value(m@),
    ensures
        r.len() == m.len(),
        value(r@) == (value(a@) - value(b@)) % value(m@),
{
    let (d, negative): (Vec<u64>, bool) = sub_borrow(m, b);
    proof {
        lemma_modulus_pos(m@);
        lemma_mod_add_multiples_vanish(value(a@) - value(b@), value(m@));
    }
    add_mod(a, d.as_slice(), m)
}

/// Puts `x` in front of the limbs of `s`.
fn shift_in(x: u64, s: &[u64]) -> (r: Vec<u64>)
    requires
        s.len() < usize::MAX,
    ensures
        r@ == seq![x] + s@,
{
    let mut out: Vec<u64> = Vec::with_capacity(s.len() + 1);
    out.push(x);
    let mut i: usize = 0;
    while i < s.len()
        invariant
            i <= s.len(),
            out@ =~= seq![x] + s@.take(i as int),
        decreases s.len() - i,
    {
        out.push(s[i]);
        i = i + 1;
    }
    assert(s@.take(i as int) =~= s@);
    out
}

pub fn zero_limbs(n: usize) -> (r: Vec<u64>)
    ensures
        r.len() == n,
        value(r@) == 0,
        forall|i: int| 0 <= i < n ==> r@[i] == 0,
{
    let mut out: Vec<u64> = Vec::with_capacity(n);
    let mut i: usize = 0;
    while i < n
        invariant
            i <= n,
            out.len() == i,
            value(out@) == 0,
            forall|j: int| 0 <= j < i ==> out@[j] == 0,
        decreases n - i,
    {
        proof {
            lemma_value_push(out@, 0);
            assert(0 * radix_pow(i as nat) == 0) by (nonlinear_arith);
        }
        out.push(0);
        i = i + 1;
    }
    out
}

/// `(a * b) mod m` for `a` below `m`.
pub fn mul_mod(a: &[u64], b: &[u64], m: &[u64]) -> (r: Vec<u64>)
    requires
        is_modulus(m@),
        a.len() == m.len(),
        b.len() == m.len(),
        m.len() < usize::MAX,
        value(a@) < value(m@),
    ensures
        r.len() == m.len(),
        value(r@) == (value(a@) * value(b@)) % value(m@),
{
    let n: usize = m.len();
    let mut acc: Vec<u64> = zero_limbs(n);
    let ghost mv = value(m@);
    let ghost av = value(a@);
    proof {
        lemma_modulus_pos(m@);
        lemma_value_bound(a@);
        assert(b@.skip(n as int) =~= Seq::<u64>::empty());
        assert(av * 0 == 0) by (nonlinear_arith);
        lemma_small_mod(0, mv as nat);
    }
    let mut i: usize = n;
    while i > 0
        invariant
            is_modulus(m@),
            n == m.len(),
            n == a.len(),
            n == b.len(),
            n < usize::MAX,
            i <= n,
            acc.len() == n,
            mv == value(m@),
            av == value(a@),
            0 <= av < mv,
            value(acc@) == (av * value(b@.skip(i as int))) % mv,
        decreases i,
    {
        i = i - 1;
        let bi: u64 = b[i];
        let ghost hi = value(b@.skip(i + 1));
        let ghost t = value(acc@);
        let shifted: Vec<u64> = shift_in(0, acc.as_slice());
        proof {
            lemma_value_shift(0, acc@);
            lemma_mod_bound(av * hi, mv);
            assert(radix() * t < mv * radix()) by (nonlinear_arith)
                requires
                    t < mv,
            ;
        }
        let r1: Vec<u64> = reduce_wide(shifted, m);
        let part: Vec<u64> = mul_limb(a, bi);
        proof {
            assert(av * bi < mv * radix()) by (nonlinear_arith)
                requires
                    0 <= av < mv,
                    0 <= bi < radix(),
            ;
        }
        let r2: Vec<u64> = reduce_wide(part, m);
        acc = add_mod(r1.as_slice(), r2.as_slice(), m);
        proof {
            assert(b@.skip(i as int) =~= seq![bi] + b@.skip(i + 1));
            lemma_value_shift(bi, b@.skip(i + 1));
            lemma_add_mod_noop(radix() * t, av * bi, mv);
            lemma_mul_mod_noop_right(radix(), av * hi, mv);
            lemma_add_mod_noop(radix() * (av * hi), av * bi, mv);
            assert(radix() * (av * hi) + av * bi == av * (bi + radix() * hi)) by (nonlinear_arith);
        }
    }
    proof {
        assert(b@.skip(0) =~= b@);
    }
    acc
}

} // verus!
