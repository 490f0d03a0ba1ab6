//! Congruences and powers of integers.

use vstd::arithmetic::div_mod::*;
use vstd::prelude::*;

verus! {

/// `x` and `y` are congruent modulo `m`.
pub open spec fn cong(x: int, y: int, m: int) -> bool {
    x % m == y % m
}

/// `a` to the power `n`.
pub open spec fn ipow(a: int, n: nat) -> int
    decreases n,
{
    if n == 0 {
        1
    } else {
        a * ipow(a, (n - 1) as nat)
    }
}

pub proof fn lemma_cong_add(x: int, x2: int, y: int, y2: int, m: int)
    requires
        m > 0,
        cong(x, x2, m),
        cong(y, y2, m),
    ensures
        cong(x + y, x2 + y2, m),
{
    lemma_add_mod_noop(x, y, m);
    lemma_add_mod_noop(x2, y2, m);
}

pub proof fn lemma_cong_sub(x: int, x2: int, y: int, y2: int, m: int)
    requires
        m > 0,
        cong(x, x2, m),
        cong(y, y2, m),
    ensures
        cong(x - y, x2 - y2, m),
{
    lemma_sub_mod_noop(x, y, m);
    lemma_sub_mod_noop(x2, y2, m);
}

pub proof fn lemma_cong_mul(x: int, x2: int, y: int, y2: int, m: int)
    requires
        m > 0,
        cong(x, x2, m),
        cong(y, y2, m),
    ensures
        cong(x * y, x2 * y2, m),
{
    lemma_mul_mod_noop(x, y, m);
    lemma_mul_mod_noop(x2, y2, m);
}

/// A number is congruent to its remainder.
pub proof fn lemma_cong_rem(x: int, m: int)
    requires
        m > 0,
    ensures
        cong(x % m, x, m),
{
    lemma_mod_twice(x, m);
}

/// The inverse of `x` modulo `m`, below `m`.
pub open spec fn inverse(x: int, m: int) -> int {
    choose|y: int| 0 <= y < m && #[trigger] (x * y) % m == 1
}

/// An inverse below the modulus is the inverse.
pub proof fn lemma_inverse_unique(x: int, y: int, m: int)
    requires
        m > 1,
        0 <= y < m,
        (x * y) % m == 1,
    ensures
        inverse(x, m) == y,
        (x * inverse(x, m)) % m == 1,
        0 <= inverse(x, m) < m,
{
    let z = inverse(x, m);
    assert(0 <= z < m && (x * z) % m == 1);
    vstd::arithmetic::div_mod::lemma_small_mod(1, m as nat);
    lemma_cong_mul(y, y, x * z, 1, m);
    lemma_cong_mul(z, z, x * y, 1, m);
    assert(y * (x * z) == z * (x * y)) by (nonlinear_arith);
    assert(y * 1 == y && z * 1 == z);
    vstd::arithmetic::div_mod::lemma_small_mod(y as nat, m as nat);
    vstd::arithmetic::div_mod::lemma_small_mod(z as nat, m as nat);
}

} // verus!
