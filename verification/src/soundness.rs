//! What vanishing constraints say of a row.
//!
//! A constraint vanishes when it denotes a multiple of the order. From that,
//! the laws here and in the modules of the tables conclude what the cells
//! hold. They rest on the order being a prime, which they ask for in the form
//! of [`integral`].
//!
//! A combination of several terms vanishes for some challenges though its
//! terms do not. It cannot do so for as many challenges as it has terms: see
//! [`law_combination_sound`].

use crate::constraints;
use crate::expr;
use crate::expr::Expr;
use crate::modular;
use crate::poly_arith;
use vstd::arithmetic::div_mod::*;
use vstd::prelude::*;

verus! {

/// A product vanishes modulo `m`.
pub open spec fn product_vanishes(x: int, y: int, m: int) -> bool {
    (x * y) % m == 0
}

/// A product vanishes modulo `m` only with one of its factors: `m` is a prime.
pub open spec fn integral(m: int) -> bool {
    m > 1 && forall|x: int, y: int| #[trigger]
        product_vanishes(x, y, m) ==> x % m == 0 || y % m == 0
}

/// The points differ modulo `m`.
pub open spec fn points_differ(points: Seq<int>, m: int) -> bool {
    forall|i: int, j: int|
        0 <= i < j < points.len() ==> (#[trigger] points[i] - #[trigger] points[j]) % m != 0
}

/// The quotient of a polynomial by `x - a`.
pub open spec fn quotient(p: Seq<int>, a: int) -> Seq<int> {
    Seq::new(
        (if p.len() == 0 {
            0
        } else {
            p.len() - 1
        }) as nat,
        |i: int| poly_arith::peval(p.skip(i + 1), a),
    )
}

/// Division by `x - a` leaves the value at `a`.
proof fn lemma_quotient(p: Seq<int>, a: int, x: int)
    ensures
        poly_arith::peval(p, x) == (x - a) * poly_arith::peval(quotient(p, a), x)
            + poly_arith::peval(p, a),
    decreases p.len(),
{
    let q = quotient(p, a);
    if p.len() == 0 {
        assert((x - a) * 0 == 0) by (nonlinear_arith);
    } else {
        let t = p.skip(1);
        lemma_quotient(t, a, x);
        if p.len() == 1 {
            assert(poly_arith::peval(t, x) == 0 && poly_arith::peval(t, a) == 0);
            assert((x - a) * 0 == 0 && x * 0 == 0 && a * 0 == 0) by (nonlinear_arith);
        } else {
            assert(q[0] == poly_arith::peval(t, a));
            assert(q.skip(1) =~= quotient(t, a)) by {
                assert forall|i: int| 0 <= i < q.len() - 1 implies q.skip(1)[i] == quotient(t, a)[i] by {
                    assert(p.skip(i + 2) =~= t.skip(i + 1));
                }
            }
            let (u, v) = (poly_arith::peval(quotient(t, a), x), poly_arith::peval(t, a));
            assert(p[0] + x * ((x - a) * u + v) == (x - a) * (v + x * u) + (p[0] + a * v))
                by (nonlinear_arith);
        }
    }
}

/// A polynomial that vanishes at as many points as it has coefficients has
/// none that does not vanish.
pub proof fn law_roots(p: Seq<int>, points: Seq<int>, m: int)
    requires
        integral(m),
        points_differ(points, m),
        p.len() <= points.len(),
        forall|i: int|
            0 <= i < points.len() ==> poly_arith::peval(p, #[trigger] points[i]) % m == 0,
    ensures
        forall|i: int| 0 <= i < p.len() ==> #[trigger] p[i] % m == 0,
    decreases p.len(),
{
    if p.len() > 0 {
        let a = points.last();
        let rest = points.drop_last();
        let q = quotient(p, a);
        assert forall|i: int| 0 <= i < rest.len() implies poly_arith::peval(
            q,
            #[trigger] rest[i],
        ) % m == 0 by {
            let x = points[i];
            let y = poly_arith::peval(q, x);
            lemma_quotient(p, a, x);
            modular::lemma_cong_sub(
                poly_arith::peval(p, x),
                0,
                poly_arith::peval(p, a),
                0,
                m,
            );
            lemma_small_mod(0, m as nat);
            assert(product_vanishes(x - a, y, m));
            assert((points[i] - points[points.len() - 1]) % m != 0);
        }
        assert(points_differ(rest, m)) by {
            assert forall|i: int, j: int| 0 <= i < j < rest.len() implies (#[trigger] rest[i]
                - #[trigger] rest[j]) % m != 0 by {
                assert((points[i] - points[j]) % m != 0);
            }
        }
        law_roots(q, rest, m);
        assert forall|i: int| 0 <= i < p.len() implies #[trigger] p[i] % m == 0 by {
            let here = poly_arith::peval(p.skip(i), a);
            let after = poly_arith::peval(p.skip(i + 1), a);
            assert(p.skip(i).skip(1) =~= p.skip(i + 1));
            assert(here == p[i] + a * after);
            assert(here % m == 0) by {
                if i == 0 {
                    assert(p.skip(0) =~= p);
                } else {
                    assert(q[i - 1] == here);
                }
            }
            assert(after % m == 0) by {
                if i == p.len() - 1 {
                    assert(p.skip(i + 1).len() == 0);
                    lemma_small_mod(0, m as nat);
                } else {
                    assert(q[i] == after);
                }
            }
            lemma_small_mod(0, m as nat);
            modular::lemma_cong_mul(a, a, after, 0, m);
            assert(a * 0 == 0);
            modular::lemma_cong_sub(here, 0, a * after, 0, m);
        }
    }
}

/// A combination that vanishes for as many challenges as it has terms has only
/// vanishing terms.
pub proof fn law_combination_sound(
    terms: Seq<Expr>,
    row: Seq<int>,
    next: Seq<int>,
    values: Seq<int>,
    points: Seq<int>,
    m: int,
)
    requires
        integral(m),
        points_differ(points, m),
        terms.len() <= points.len(),
        forall|ch: int| #[trigger] constraints::denoted(terms, row, next, ch) == values,
        forall|i: int|
            0 <= i < points.len() ==> expr::ev(
                constraints::rlc_of(terms),
                row,
                next,
                #[trigger] points[i],
            ) % m == 0,
    ensures
        values.len() == terms.len(),
        forall|i: int| 0 <= i < values.len() ==> #[trigger] values[i] % m == 0,
{
    assert(constraints::denoted(terms, row, next, 0) == values);
    assert forall|i: int| 0 <= i < points.len() implies poly_arith::peval(
        values,
        #[trigger] points[i],
    ) % m == 0 by {
        let ch = points[i];
        constraints::lemma_ev_rlc(terms, row, next, ch);
        assert(constraints::denoted(terms, row, next, ch) == values);
    }
    law_roots(values, points, m);
}

/// Numbers below `m` whose difference vanishes are equal.
pub proof fn lemma_equal(x: int, y: int, m: int)
    requires
        m > 0,
        -m < x - y < m,
        (x - y) % m == 0,
    ensures
        x == y,
{
    if x > y {
        lemma_small_mod((x - y) as nat, m as nat);
    } else if x < y {
        lemma_mod_add_multiples_vanish(x - y, m);
        lemma_small_mod((x - y + m) as nat, m as nat);
    }
}

/// A selector whose constraint vanishes is zero or one.
pub proof fn lemma_binary_sound(s: usize, row: Seq<int>, next: Seq<int>, ch: int, m: int)
    requires
        integral(m),
        0 <= row[s as int] < m,
        expr::ev(constraints::binary_of(s), row, next, ch) % m == 0,
    ensures
        row[s as int] == 0 || row[s as int] == 1,
{
    let b = row[s as int];
    constraints::lemma_ev_binary(s, row, next, ch);
    assert(product_vanishes(b, b - 1, m));
    if b % m == 0 {
        lemma_small_mod(b as nat, m as nat);
    } else {
        lemma_equal(b, 1, m);
    }
}

/// Behind a set selector, a vanishing constraint has a vanishing body.
pub proof fn lemma_gated_sound(
    s: usize,
    e: Expr,
    row: Seq<int>,
    next: Seq<int>,
    ch: int,
    m: int,
)
    requires
        row[s as int] == 1,
        expr::ev(constraints::mul_of(Expr::Col(s), e), row, next, ch) % m == 0,
    ensures
        expr::ev(e, row, next, ch) % m == 0,
{
    constraints::lemma_ev_gated(s, e, row, next, ch);
}

/// Behind a set selector, a combined difference of columns that vanishes for
/// as many challenges as there are columns makes the columns equal.
pub proof fn law_equality_sound(
    s: usize,
    a: usize,
    b: usize,
    n: nat,
    row: Seq<int>,
    points: Seq<int>,
    m: int,
)
    requires
        integral(m),
        points_differ(points, m),
        n <= points.len(),
        a + n <= row.len() <= usize::MAX,
        b + n <= row.len(),
        row[s as int] == 1,
        forall|c: int| 0 <= c < row.len() ==> 0 <= #[trigger] row[c] < m,
        forall|i: int|
            0 <= i < points.len() ==> expr::ev(
                constraints::mul_of(Expr::Col(s), constraints::rlc_diff_of(a, b, n)),
                row,
                Seq::empty(),
                #[trigger] points[i],
            ) % m == 0,
    ensures
        forall|k: int| 0 <= k < n ==> row[#[trigger] (a + k)] == row[b + k],
{
    let terms = constraints::diffs_of(a, b, n);
    let values = Seq::new(n, |k: int| row[a + k] - row[b + k]);
    assert forall|ch: int| #[trigger]
        constraints::denoted(terms, row, Seq::empty(), ch) == values by {
        let vs = constraints::denoted(terms, row, Seq::empty(), ch);
        assert forall|k: int| 0 <= k < n implies vs[k] == values[k] by {
            reveal_with_fuel(expr::ev, 2);
        }
        assert(vs =~= values);
    }
    assert forall|i: int| 0 <= i < points.len() implies expr::ev(
        constraints::rlc_of(terms),
        row,
        Seq::empty(),
        #[trigger] points[i],
    ) % m == 0 by {
        lemma_gated_sound(s, constraints::rlc_of(terms), row, Seq::empty(), points[i], m);
    }
    law_combination_sound(terms, row, Seq::empty(), values, points, m);
    assert forall|k: int| 0 <= k < n implies row[#[trigger] (a + k)] == row[b + k] by {
        assert(values[k] % m == 0);
        assert(0 <= row[a + k] < m && 0 <= row[b + k] < m);
        lemma_equal(row[a + k], row[b + k], m);
    }
}

/// Digits below `base` add up to less than the next power of `base`.
pub proof fn lemma_weighted_bound(row: Seq<int>, a: int, base: nat, n: nat)
    requires
        base > 0,
        forall|k: int| 0 <= k < n ==> 0 <= row[#[trigger] (a + k)] < base,
    ensures
        0 <= constraints::weighted_sum(row, a, base, n) < modular::ipow(base as int, n),
    decreases n,
{
    if n > 0 {
        let k = (n - 1) as nat;
        lemma_weighted_bound(row, a, base, k);
        assert(0 <= row[a + k] < base);
        let (d, w) = (row[a + k], modular::ipow(base as int, k));
        assert(0 <= d * w && d * w + w <= base * w) by (nonlinear_arith)
            requires
                0 <= d < base,
                0 < w,
        ;
    }
}

/// A number whose difference from eight bytes vanishes is what they add up to.
pub proof fn lemma_bytes_sound(row: Seq<int>, number: int, first_byte: int, m: int)
    requires
        m > 0x1_0000_0000_0000_0000,
        0 <= row[number] < m,
        forall|k: int| 0 <= k < 8 ==> 0 <= row[#[trigger] (first_byte + k)] < 256,
        (row[number] - constraints::weighted_sum(row, first_byte, 256, 8)) % m == 0,
    ensures
        row[number] == constraints::weighted_sum(row, first_byte, 256, 8),
        0 <= row[number] < 0x1_0000_0000_0000_0000,
{
    lemma_weighted_bound(row, first_byte, 256, 8);
    reveal_with_fuel(modular::ipow, 9);
    assert(modular::ipow(256, 8) == 0x1_0000_0000_0000_0000);
    lemma_equal(row[number], constraints::weighted_sum(row, first_byte, 256, 8), m);
}

/// Where a constraint counts with weight one, it vanishes only with its body.
pub proof fn lemma_weighted_sound(
    weight: Expr,
    e: Expr,
    row: Seq<int>,
    next: Seq<int>,
    ch: int,
    m: int,
)
    requires
        expr::ev(weight, row, next, ch) == 1,
        expr::ev(constraints::mul_of(weight, e), row, next, ch) % m == 0,
    ensures
        expr::ev(e, row, next, ch) % m == 0,
{
    let (w, v) = (expr::ev(weight, row, next, ch), expr::ev(e, row, next, ch));
    assert(expr::ev(constraints::mul_of(weight, e), row, next, ch) == w * v);
    assert(w * v == v) by (nonlinear_arith)
        requires
            w == 1,
    ;
}

} // verus!
