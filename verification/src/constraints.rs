//! Systems of constraints: lists of expressions, evaluated together.

use crate::expr;
use crate::expr::Expr;
use crate::field;
use crate::field::{CurveType, Scalar};
use crate::modular;
use crate::poly_arith;
use crate::trace;
use crate::trace::TracePolynomials;
use vstd::prelude::*;

verus! {

// ─── Building blocks ──────────────────────────────────────────────────

pub open spec fn add_of(a: Expr, b: Expr) -> Expr {
    Expr::Add(Box::new(a), Box::new(b))
}

pub open spec fn sub_of(a: Expr, b: Expr) -> Expr {
    Expr::Sub(Box::new(a), Box::new(b))
}

pub open spec fn mul_of(a: Expr, b: Expr) -> Expr {
    Expr::Mul(Box::new(a), Box::new(b))
}

pub fn plus(a: Expr, b: Expr) -> (r: Expr)
    ensures
        r == add_of(a, b),
{
    Expr::Add(Box::new(a), Box::new(b))
}

pub fn minus(a: Expr, b: Expr) -> (r: Expr)
    ensures
        r == sub_of(a, b),
{
    Expr::Sub(Box::new(a), Box::new(b))
}

pub fn times(a: Expr, b: Expr) -> (r: Expr)
    ensures
        r == mul_of(a, b),
{
    Expr::Mul(Box::new(a), Box::new(b))
}

/// `s (s - 1)`: the column is zero or one.
pub open spec fn binary_of(s: usize) -> Expr {
    mul_of(Expr::Col(s), sub_of(Expr::Col(s), Expr::Const(1)))
}

pub fn binary(s: usize) -> (r: Expr)
    ensures
        r == binary_of(s),
{
    times(Expr::Col(s), minus(Expr::Col(s), Expr::Const(1)))
}

/// The difference of two columns.
pub open spec fn diff_of(a: usize, b: usize) -> Expr {
    sub_of(Expr::Col(a), Expr::Col(b))
}

pub fn diff(a: usize, b: usize) -> (r: Expr)
    ensures
        r == diff_of(a, b),
{
    minus(Expr::Col(a), Expr::Col(b))
}

/// The terms weighted by the powers of the challenge and added up.
pub open spec fn rlc_of(terms: Seq<Expr>) -> Expr
    decreases terms.len(),
{
    if terms.len() == 0 {
        Expr::Const(0)
    } else if terms.len() == 1 {
        terms[0]
    } else {
        add_of(terms[0], mul_of(Expr::Challenge, rlc_of(terms.skip(1))))
    }
}

pub fn rlc(terms: Vec<Expr>) -> (r: Expr)
    requires
        terms.len() > 0,
    ensures
        r == rlc_of(terms@),
{
    let ghost all = terms@;
    let mut rest: Vec<Expr> = terms;
    let last: Option<Expr> = rest.pop();
    let mut acc: Expr = match last {
        Some(e) => e,
        None => Expr::Const(0),
    };
    proof {
        assert(all.skip(all.len() - 1).len() == 1);
        assert(all.skip(all.len() - 1)[0] == acc);
        assert(rest@ =~= all.take(all.len() - 1));
    }
    while rest.len() > 0
        invariant
            rest.len() < all.len(),
            rest@ == all.take(rest.len() as int),
            acc == rlc_of(all.skip(rest.len() as int)),
        decreases rest.len(),
    {
        let ghost k = rest.len();
        let next: Option<Expr> = rest.pop();
        let term: Expr = match next {
            Some(e) => e,
            None => Expr::Const(0),
        };
        proof {
            let s = all.skip(k - 1);
            assert(s[0] == term);
            assert(s.skip(1) =~= all.skip(k as int));
            assert(rest@ =~= all.take(k - 1));
        }
        acc = plus(term, times(Expr::Challenge, acc));
    }
    assert(all.skip(0) =~= all);
    acc
}

/// The differences of `n` pairs of columns.
pub open spec fn diffs_of(a: usize, b: usize, n: nat) -> Seq<Expr> {
    Seq::new(n, |k: int| diff_of((a + k) as usize, (b + k) as usize))
}

/// The combined difference of `n` pairs of columns.
pub open spec fn rlc_diff_of(a: usize, b: usize, n: nat) -> Expr {
    rlc_of(diffs_of(a, b, n))
}

pub fn rlc_diff(a: usize, b: usize, n: usize) -> (r: Expr)
    requires
        n > 0,
        a + n <= usize::MAX,
        b + n <= usize::MAX,
    ensures
        r == rlc_diff_of(a, b, n as nat),
{
    let mut terms: Vec<Expr> = Vec::with_capacity(n);
    push_diffs(&mut terms, a, b, n);
    assert(terms@ =~= diffs_of(a, b, n as nat));
    rlc(terms)
}

/// Appends the differences of `n` pairs of columns.
pub fn push_diffs(terms: &mut Vec<Expr>, a: usize, b: usize, n: usize)
    requires
        a + n <= usize::MAX,
        b + n <= usize::MAX,
    ensures
        final(terms)@ == old(terms)@ + diffs_of(a, b, n as nat),
{
    let mut k: usize = 0;
    while k < n
        invariant
            k <= n,
            a + n <= usize::MAX,
            b + n <= usize::MAX,
            terms@ == old(terms)@ + diffs_of(a, b, k as nat),
        decreases n - k,
    {
        terms.push(diff(a + k, b + k));
        proof {
            assert(diffs_of(a, b, (k + 1) as nat) =~= diffs_of(a, b, k as nat).push(
                diff_of((a + k) as usize, (b + k) as usize),
            ));
            assert(terms@ =~= old(terms)@ + diffs_of(a, b, (k + 1) as nat));
        }
        k = k + 1;
    }
}

/// `n` columns from `a`.
pub open spec fn cols_of(a: usize, n: nat) -> Seq<Expr> {
    Seq::new(n, |k: int| Expr::Col((a + k) as usize))
}

/// Appends `n` columns from `a`.
pub fn push_cols(terms: &mut Vec<Expr>, a: usize, n: usize)
    requires
        a + n <= usize::MAX,
    ensures
        final(terms)@ == old(terms)@ + cols_of(a, n as nat),
{
    let mut k: usize = 0;
    while k < n
        invariant
            k <= n,
            a + n <= usize::MAX,
            terms@ == old(terms)@ + cols_of(a, k as nat),
        decreases n - k,
    {
        terms.push(Expr::Col(a + k));
        proof {
            assert(cols_of(a, (k + 1) as nat) =~= cols_of(a, k as nat).push(
                Expr::Col((a + k) as usize),
            ));
            assert(terms@ =~= old(terms)@ + cols_of(a, (k + 1) as nat));
        }
        k = k + 1;
    }
}

/// `n` columns from `a`, weighted by the powers of `base` and added up:
/// `((w_0 col_0 + w_1 col_1) + ...) + w_{n-1} col_{n-1}` with `w_k = base^k`.
pub open spec fn weighted_of(a: usize, base: nat, n: nat) -> Expr
    decreases n,
{
    if n == 0 {
        Expr::Const(0)
    } else {
        add_of(
            weighted_of(a, base, (n - 1) as nat),
            mul_of(
                Expr::Col((a + n - 1) as usize),
                Expr::Const(modular::ipow(base as int, (n - 1) as nat) as u64),
            ),
        )
    }
}

/// The bytes from column `a` read as a little-endian number.
pub fn le_bytes_expr(a: usize, n: usize) -> (r: Expr)
    requires
        n <= 8,
        a + n <= usize::MAX,
    ensures
        r == weighted_of(a, 256, n as nat),
{
    let mut acc: Expr = Expr::Const(0);
    let mut w: u64 = 1;
    let mut k: usize = 0;
    while k < n
        invariant
            k <= n,
            n <= 8,
            a + n <= usize::MAX,
            k < n ==> w == modular::ipow(256, k as nat),
            acc == weighted_of(a, 256, k as nat),
        decreases n - k,
    {
        acc = plus(acc, times(Expr::Col(a + k), Expr::Const(w)));
        k = k + 1;
        if k < n {
            proof {
                lemma_ipow256();
                assert(k == 1 || k == 2 || k == 3 || k == 4 || k == 5 || k == 6 || k == 7);
            }
            w = w * 256;
        }
    }
    acc
}

pub proof fn lemma_ipow256()
    ensures
        modular::ipow(256, 0) == 1,
        modular::ipow(256, 1) == 0x100,
        modular::ipow(256, 2) == 0x1_0000,
        modular::ipow(256, 3) == 0x100_0000,
        modular::ipow(256, 4) == 0x1_0000_0000,
        modular::ipow(256, 5) == 0x100_0000_0000,
        modular::ipow(256, 6) == 0x1_0000_0000_0000,
        modular::ipow(256, 7) == 0x100_0000_0000_0000,
{
    reveal_with_fuel(modular::ipow, 8);
}

/// The bits from column `a` read as a number, lowest first.
pub fn le_bits_expr(a: usize, n: usize) -> (r: Expr)
    requires
        n <= 8,
        a + n <= usize::MAX,
    ensures
        r == weighted_of(a, 2, n as nat),
{
    let mut acc: Expr = Expr::Const(0);
    let mut w: u64 = 1;
    let mut k: usize = 0;
    while k < n
        invariant
            k <= n,
            n <= 8,
            a + n <= usize::MAX,
            w == modular::ipow(2, k as nat),
            w <= 256,
            acc == weighted_of(a, 2, k as nat),
        decreases n - k,
    {
        proof {
            reveal_with_fuel(modular::ipow, 9);
            assert(k == 0 || k == 1 || k == 2 || k == 3 || k == 4 || k == 5 || k == 6 || k == 7);
        }
        acc = plus(acc, times(Expr::Col(a + k), Expr::Const(w)));
        w = w * 2;
        k = k + 1;
    }
    acc
}

// ─── What the building blocks denote ──────────────────────────────────

pub proof fn lemma_ev_binary(s: usize, row: Seq<int>, next: Seq<int>, ch: int)
    ensures
        expr::ev(binary_of(s), row, next, ch) == row[s as int] * (row[s as int] - 1),
{
    reveal_with_fuel(expr::ev, 4);
}

/// The selector is zero or one, so the constraint holds.
pub proof fn lemma_binary_vanishes(s: usize, row: Seq<int>, next: Seq<int>, ch: int)
    requires
        row[s as int] == 0 || row[s as int] == 1,
    ensures
        expr::ev(binary_of(s), row, next, ch) == 0,
{
    lemma_ev_binary(s, row, next, ch);
    let b = row[s as int];
    assert(b * (b - 1) == 0) by (nonlinear_arith)
        requires
            b == 0 || b == 1,
    ;
}

/// What a constraint behind a selector denotes.
pub proof fn lemma_ev_gated(s: usize, e: Expr, row: Seq<int>, next: Seq<int>, ch: int)
    ensures
        expr::ev(mul_of(Expr::Col(s), e), row, next, ch) == row[s as int] * expr::ev(
            e,
            row,
            next,
            ch,
        ),
        row[s as int] == 0 || expr::ev(e, row, next, ch) == 0 ==> expr::ev(
            mul_of(Expr::Col(s), e),
            row,
            next,
            ch,
        ) == 0,
{
    assert(expr::ev(Expr::Col(s), row, next, ch) == row[s as int]);
    let (g, v) = (row[s as int], expr::ev(e, row, next, ch));
    assert(expr::ev(mul_of(Expr::Col(s), e), row, next, ch) == g * v);
    assert(g == 0 || v == 0 ==> g * v == 0) by (nonlinear_arith);
}

/// A combination of terms denotes the terms weighted by the powers of the
/// challenge.
pub proof fn lemma_ev_rlc(terms: Seq<Expr>, row: Seq<int>, next: Seq<int>, ch: int)
    ensures
        expr::ev(rlc_of(terms), row, next, ch) == poly_arith::peval(
            denoted(terms, row, next, ch),
            ch,
        ),
    decreases terms.len(),
{
    let vs = denoted(terms, row, next, ch);
    if terms.len() == 0 {
    } else {
        lemma_ev_rlc(terms.skip(1), row, next, ch);
        assert(vs.skip(1) =~= denoted(terms.skip(1), row, next, ch));
        if terms.len() == 1 {
            assert(ch * 0 == 0) by (nonlinear_arith);
        } else {
            let rest = rlc_of(terms.skip(1));
            assert(expr::ev(mul_of(Expr::Challenge, rest), row, next, ch) == ch * expr::ev(
                rest,
                row,
                next,
                ch,
            )) by {
                reveal_with_fuel(expr::ev, 2);
            }
        }
    }
}

/// What a list of expressions denotes on a row.
pub open spec fn denoted(es: Seq<Expr>, row: Seq<int>, next: Seq<int>, ch: int) -> Seq<int> {
    Seq::new(es.len(), |i: int| expr::ev(es[i], row, next, ch))
}

/// A polynomial without nonzero coefficients vanishes.
pub proof fn lemma_peval_zeros(p: Seq<int>, z: int)
    requires
        forall|i: int| 0 <= i < p.len() ==> #[trigger] p[i] == 0,
    ensures
        poly_arith::peval(p, z) == 0,
    decreases p.len(),
{
    if p.len() > 0 {
        assert forall|i: int| 0 <= i < p.skip(1).len() implies #[trigger] p.skip(1)[i] == 0 by {
            assert(p[i + 1] == 0);
        }
        lemma_peval_zeros(p.skip(1), z);
        assert(z * 0 == 0) by (nonlinear_arith);
    }
}

/// A combination of terms that all denote zero denotes zero.
pub proof fn lemma_rlc_vanishes(terms: Seq<Expr>, row: Seq<int>, next: Seq<int>, ch: int)
    requires
        forall|i: int|
            0 <= i < terms.len() ==> expr::ev(#[trigger] terms[i], row, next, ch) == 0,
    ensures
        expr::ev(rlc_of(terms), row, next, ch) == 0,
{
    lemma_ev_rlc(terms, row, next, ch);
    lemma_peval_zeros(denoted(terms, row, next, ch), ch);
}

/// The combined difference of equal columns is zero.
pub proof fn lemma_rlc_diff_vanishes(
    a: usize,
    b: usize,
    n: nat,
    row: Seq<int>,
    next: Seq<int>,
    ch: int,
)
    requires
        a + n <= usize::MAX,
        b + n <= usize::MAX,
        forall|k: int| 0 <= k < n ==> row[#[trigger] (a + k)] == row[b + k],
    ensures
        expr::ev(rlc_diff_of(a, b, n), row, next, ch) == 0,
{
    let terms = diffs_of(a, b, n);
    assert forall|i: int| 0 <= i < terms.len() implies expr::ev(
        #[trigger] terms[i],
        row,
        next,
        ch,
    ) == 0 by {
        reveal_with_fuel(expr::ev, 2);
        assert(row[a + i] == row[b + i]);
    }
    lemma_rlc_vanishes(terms, row, next, ch);
}

/// What a weighted sum of columns denotes.
pub open spec fn weighted_sum(row: Seq<int>, a: int, base: nat, n: nat) -> int
    decreases n,
{
    if n == 0 {
        0
    } else {
        weighted_sum(row, a, base, (n - 1) as nat) + row[a + n - 1] * modular::ipow(
            base as int,
            (n - 1) as nat,
        )
    }
}

pub proof fn lemma_ev_weighted(
    a: usize,
    base: nat,
    n: nat,
    row: Seq<int>,
    next: Seq<int>,
    ch: int,
)
    requires
        base == 256 || base == 2,
        n <= 8,
        a + n <= usize::MAX,
    ensures
        expr::ev(weighted_of(a, base, n), row, next, ch) == weighted_sum(row, a as int, base, n),
    decreases n,
{
    if n > 0 {
        let k = (n - 1) as nat;
        lemma_ev_weighted(a, base, k, row, next, ch);
        lemma_ipow256();
        reveal_with_fuel(modular::ipow, 9);
        assert(k == 0 || k == 1 || k == 2 || k == 3 || k == 4 || k == 5 || k == 6 || k == 7);
        reveal_with_fuel(expr::ev, 3);
    }
}

/// The bytes of a number, one per column, add up to the number.
pub proof fn lemma_le_bytes_sum(row: Seq<int>, a: int, v: u64, n: nat)
    requires
        n <= 8,
        forall|k: int| 0 <= k < n ==> row[#[trigger] (a + k)] == crate::bytes::le_byte(v as int, k),
    ensures
        weighted_sum(row, a, 256, n) == crate::bytes::le_byte_sum(v as int, n),
    decreases n,
{
    if n > 0 {
        lemma_le_bytes_sum(row, a, v, (n - 1) as nat);
        lemma_ipow256();
        crate::bytes::lemma_pow256_values();
        let k = n - 1;
        assert(k == 0 || k == 1 || k == 2 || k == 3 || k == 4 || k == 5 || k == 6 || k == 7);
        assert(row[a + k] == crate::bytes::le_byte(v as int, k));
    }
}

/// Columns that hold the bytes of a string add up to what it stands for.
pub proof fn lemma_weighted_value(row: Seq<int>, a: int, s: Seq<u8>)
    requires
        s.len() <= 8,
        forall|k: int| 0 <= k < s.len() ==> row[#[trigger] (a + k)] == s[k],
    ensures
        weighted_sum(row, a, 256, s.len()) == crate::bytes::le_value(s),
    decreases s.len(),
{
    if s.len() > 0 {
        lemma_weighted_value(row, a, s.drop_last());
        lemma_ipow256();
        crate::bytes::lemma_pow256_values();
        let k = s.len() - 1;
        assert(k == 0 || k == 1 || k == 2 || k == 3 || k == 4 || k == 5 || k == 6 || k == 7);
        assert(row[a + k] == s[k]);
    }
}

/// Columns of zeros add up to zero.
pub proof fn lemma_zero_sum(row: Seq<int>, a: int, base: nat, n: nat)
    requires
        forall|k: int| 0 <= k < n ==> row[#[trigger] (a + k)] == 0,
    ensures
        weighted_sum(row, a, base, n) == 0,
    decreases n,
{
    if n > 0 {
        lemma_zero_sum(row, a, base, (n - 1) as nat);
        assert(row[a + (n - 1)] == 0);
        let p = modular::ipow(base as int, (n - 1) as nat);
        assert(0 * p == 0) by (nonlinear_arith);
    }
}

// ─── Evaluation of a system ───────────────────────────────────────────

/// The expressions stay within the given columns, are products or sums, and
/// multiply at most three columns.
pub open spec fn well_formed(es: Seq<Expr>, columns: nat, next: nat) -> bool {
    forall|i: int|
        0 <= i < es.len() ==> {
            &&& expr::within(#[trigger] es[i], columns, next)
            &&& expr::compound(es[i])
            &&& expr::degree(es[i]) <= 3
        }
}

/// A system over some columns is one over more columns.
pub proof fn lemma_well_formed_more(es: Seq<Expr>, columns: nat, more: nat, next: nat)
    requires
        well_formed(es, columns, next),
        columns <= more,
    ensures
        well_formed(es, more, next),
{
    assert forall|i: int| 0 <= i < es.len() implies {
        &&& expr::within(#[trigger] es[i], more, next)
        &&& expr::compound(es[i])
        &&& expr::degree(es[i]) <= 3
    } by {
        assert(expr::within(es[i], columns, next));
        expr::lemma_within_more(es[i], columns, more, next);
    }
}

/// An expression stays within the given columns and has at most the given
/// degree.
pub open spec fn fits(e: Expr, columns: nat, next: nat, degree: nat) -> bool {
    expr::within(e, columns, next) && expr::degree(e) <= degree
}

pub proof fn lemma_fits_binary(s: usize, columns: nat, next: nat)
    requires
        s < columns,
    ensures
        fits(binary_of(s), columns, next, 2),
{
    reveal_with_fuel(expr::within, 4);
    reveal_with_fuel(expr::degree, 4);
}

pub proof fn lemma_fits_rlc(terms: Seq<Expr>, columns: nat, next: nat, degree: nat)
    requires
        forall|i: int| 0 <= i < terms.len() ==> fits(#[trigger] terms[i], columns, next, degree),
    ensures
        fits(rlc_of(terms), columns, next, degree),
    decreases terms.len(),
{
    if terms.len() > 1 {
        assert forall|i: int| 0 <= i < terms.skip(1).len() implies fits(
            #[trigger] terms.skip(1)[i],
            columns,
            next,
            degree,
        ) by {
            assert(fits(terms[i + 1], columns, next, degree));
        }
        lemma_fits_rlc(terms.skip(1), columns, next, degree);
        assert(fits(terms[0], columns, next, degree));
        reveal_with_fuel(expr::within, 3);
        reveal_with_fuel(expr::degree, 3);
    } else if terms.len() == 1 {
        assert(fits(terms[0], columns, next, degree));
    }
}

pub proof fn lemma_fits_rlc_diff(a: usize, b: usize, n: nat, columns: nat, next: nat)
    requires
        a + n <= columns,
        b + n <= columns,
        columns <= usize::MAX,
    ensures
        fits(rlc_diff_of(a, b, n), columns, next, 1),
{
    let terms = diffs_of(a, b, n);
    assert forall|i: int| 0 <= i < terms.len() implies fits(
        #[trigger] terms[i],
        columns,
        next,
        1,
    ) by {
        reveal_with_fuel(expr::within, 2);
        reveal_with_fuel(expr::degree, 2);
    }
    lemma_fits_rlc(terms, columns, next, 1);
}

pub proof fn lemma_fits_weighted(a: usize, base: nat, n: nat, columns: nat, next: nat)
    requires
        a + n <= columns,
        columns <= usize::MAX,
    ensures
        fits(weighted_of(a, base, n), columns, next, 1),
    decreases n,
{
    if n > 0 {
        lemma_fits_weighted(a, base, (n - 1) as nat, columns, next);
        reveal_with_fuel(expr::within, 3);
        reveal_with_fuel(expr::degree, 3);
    }
}

/// The columns that the expressions read are at least as long as the first
/// one, and lie on its curve.
pub open spec fn domain_readable(es: Seq<Expr>, columns: Seq<&Vec<Scalar>>) -> bool {
    &&& columns.len() > 0
    &&& columns[0].len() > 0
    &&& forall|i: int|
        0 <= i < es.len() ==> expr::readable(
            #[trigger] es[i],
            columns,
            columns[0].len() as nat,
            columns[0]@[0].curve(),
        )
}

/// The columns of a trace can be read by a system over them.
pub proof fn lemma_trace_readable(
    es: Seq<Expr>,
    t: TracePolynomials,
    columns: Seq<&Vec<Scalar>>,
    width: nat,
    rows: nat,
    curve: CurveType,
    cell: spec_fn(int, int) -> int,
)
    requires
        well_formed(es, width, 0),
        width > 0,
        trace::holds(t, width, rows, curve, cell),
        trace::columns_of(t, columns),
    ensures
        domain_readable(es, columns),
{
    let n = trace::padded_length(rows);
    trace::law_padded_length(rows, n);
    assert forall|c: int| 0 <= c < width implies (#[trigger] columns[c]).len() == n by {
        assert(t.columns@[c].evaluations.len() == n);
        assert(columns[c]@ == t.columns@[c].evaluations@);
    }
    assert forall|c: int, r: int| 0 <= c < width && 0 <= r < n implies (
    #[trigger] columns[c]@[r]).curve() == curve by {
        assert(columns[c]@ == t.columns@[c].evaluations@);
        assert(t.columns@[c].evaluations@[r].curve() == curve);
    }
    assert(columns[0].len() == n);
    assert(columns[0]@[0].curve() == curve);
    assert forall|i: int| 0 <= i < es.len() implies expr::readable(
        #[trigger] es[i],
        columns,
        columns[0].len() as nat,
        columns[0]@[0].curve(),
    ) by {
        expr::lemma_readable(es[i], columns, n, curve);
    }
}

/// The values of the expressions on every row, each reduced.
pub open spec fn domain_values(
    r: Seq<Vec<Scalar>>,
    es: Seq<Expr>,
    columns: Seq<&Vec<Scalar>>,
    ch: int,
) -> bool {
    &&& r.len() == es.len()
    &&& forall|i: int| 0 <= i < es.len() ==> (#[trigger] r[i]).len() == columns[0].len()
    &&& forall|i: int, j: int|
        0 <= i < es.len() && 0 <= j < columns[0].len() ==> (#[trigger] r[i]@[j]).is(
            columns[0]@[0].curve(),
            expr::ev(es[i], expr::row_values(columns, j), Seq::empty(), ch),
        )
}

/// Evaluates every expression on every row of a trace.
pub fn evaluate_on_domain(es: &Vec<Expr>, columns: &[&Vec<Scalar>], challenge: u64) -> (r: Vec<
    Vec<Scalar>,
>)
    requires
        domain_readable(es@, columns@),
        well_formed(es@, columns.len() as nat, 0),
    ensures
        domain_values(r@, es@, columns@, challenge as int),
{
    let n: usize = columns[0].len();
    let curve: CurveType = columns[0][0].curve_type();
    let ch: Scalar = Scalar::from_u64(challenge, curve);
    let mut out: Vec<Vec<Scalar>> = Vec::with_capacity(es.len());
    let mut i: usize = 0;
    while i < es.len()
        invariant
            i <= es.len(),
            domain_readable(es@, columns@),
            well_formed(es@, columns.len() as nat, 0),
            n == columns@[0].len(),
            curve == columns@[0]@[0].curve(),
            ch.curve() == curve,
            ch@ == challenge,
            out.len() == i,
            forall|k: int| 0 <= k < i ==> (#[trigger] out@[k]).len() == n,
            forall|k: int, j: int|
                0 <= k < i && 0 <= j < n ==> (#[trigger] out@[k]@[j]).is(
                    curve,
                    expr::ev(
                        es@[k],
                        expr::row_values(columns@, j),
                        Seq::empty(),
                        challenge as int,
                    ),
                ),
        decreases es.len() - i,
    {
        let mut body: Vec<Scalar> = Vec::with_capacity(n);
        let mut r: usize = 0;
        assert(expr::readable(es@[i as int], columns@, n as nat, curve));
        while r < n
            invariant
                r <= n,
                i < es.len(),
                expr::readable(es@[i as int], columns@, n as nat, curve),
                well_formed(es@, columns.len() as nat, 0),
                ch.curve() == curve,
                ch@ == challenge,
                body.len() == r,
                forall|j: int|
                    0 <= j < r ==> (#[trigger] body@[j]).is(
                        curve,
                        expr::ev(
                            es@[i as int],
                            expr::row_values(columns@, j),
                            Seq::empty(),
                            challenge as int,
                        ),
                    ),
            decreases n - r,
        {
            proof {
                lemma_readable_prefix(
                    es@[i as int],
                    columns@,
                    n as nat,
                    (r + 1) as nat,
                    curve,
                );
            }
            body.push(expr::eval_row(&es[i], columns, r, &ch));
            r = r + 1;
        }
        let ghost before = out@;
        out.push(body);
        assert(forall|k: int| 0 <= k < i ==> out@[k] == before[k]);
        i = i + 1;
    }
    out
}

proof fn lemma_readable_prefix(
    e: Expr,
    columns: Seq<&Vec<Scalar>>,
    n: nat,
    k: nat,
    curve: CurveType,
)
    requires
        k <= n,
        expr::readable(e, columns, n, curve),
    ensures
        expr::readable(e, columns, k, curve),
    decreases e,
{
    match e {
        Expr::Add(a, b) => {
            lemma_readable_prefix(*a, columns, n, k, curve);
            lemma_readable_prefix(*b, columns, n, k, curve);
        },
        Expr::Sub(a, b) => {
            lemma_readable_prefix(*a, columns, n, k, curve);
            lemma_readable_prefix(*b, columns, n, k, curve);
        },
        Expr::Mul(a, b) => {
            lemma_readable_prefix(*a, columns, n, k, curve);
            lemma_readable_prefix(*b, columns, n, k, curve);
        },
        _ => {},
    }
}

/// The sum of what the expressions denote at a point, weighted by the powers
/// of `alpha`.
pub open spec fn combined(
    es: Seq<Expr>,
    row: Seq<int>,
    next: Seq<int>,
    ch: int,
    alpha: int,
) -> int {
    poly_arith::peval(denoted(es, row, next, ch), alpha)
}

/// The evaluations that the expressions read, of the columns and of the listed
/// columns on the next row, lie on `curve`.
pub open spec fn point_readable(
    es: Seq<Expr>,
    row: Seq<Scalar>,
    next: Seq<Scalar>,
    curve: CurveType,
) -> bool {
    &&& forall|i: int, c: int|
        0 <= i < es.len() && 0 <= c < row.len() && expr::reads(#[trigger] es[i], c) ==> (
        #[trigger] row[c]).curve() == curve
    &&& forall|i: int, k: int|
        0 <= i < es.len() && 0 <= k < next.len() && expr::reads_next(#[trigger] es[i], k) ==> (
        #[trigger] next[k]).curve() == curve
}

/// The columns that the expressions read are in coefficient form on `curve`.
pub open spec fn coefficients_readable(
    es: Seq<Expr>,
    cols: Seq<Vec<Scalar>>,
    curve: CurveType,
) -> bool {
    forall|i: int, c: int|
        0 <= i < es.len() && 0 <= c < cols.len() && expr::reads(#[trigger] es[i], c)
            ==> expr::coefficient_form(#[trigger] cols[c], curve)
}

/// Evaluates the expressions at a point and combines them.
pub fn evaluate_at_point(
    es: &Vec<Expr>,
    row: &[Scalar],
    next: &[Scalar],
    ch: &Scalar,
    alpha: &Scalar,
) -> (r: Scalar)
    requires
        well_formed(es@, row.len() as nat, next.len() as nat),
        point_readable(es@, row@, next@, alpha.curve()),
        ch.curve() == alpha.curve(),
    ensures
        r.is(
            alpha.curve(),
            combined(es@, poly_arith::values(row@), poly_arith::values(next@), ch@, alpha@),
        ),
{
    let curve: CurveType = alpha.curve_type();
    let mut acc: Scalar = Scalar::zero(curve);
    let mut i: usize = es.len();
    let ghost rv = poly_arith::values(row@);
    let ghost nv = poly_arith::values(next@);
    let ghost vs = denoted(es@, rv, nv, ch@);
    let ghost m = field::order(curve);
    proof {
        field::lemma_order(curve);
        assert(vs.skip(es@.len() as int).len() == 0);
        vstd::arithmetic::div_mod::lemma_small_mod(0, m as nat);
    }
    while i > 0
        invariant
            i <= es.len(),
            well_formed(es@, row.len() as nat, next.len() as nat),
            point_readable(es@, row@, next@, curve),
            curve == alpha.curve(),
            ch.curve() == curve,
            m == field::order(curve),
            m > 0,
            rv == poly_arith::values(row@),
            nv == poly_arith::values(next@),
            vs == denoted(es@, rv, nv, ch@),
            acc.curve() == curve,
            acc@ == poly_arith::peval(vs.skip(i as int), alpha@) % m,
        decreases i,
    {
        i = i - 1;
        let body: Scalar = expr::eval_point(&es[i], row, next, ch);
        let ghost t = poly_arith::peval(vs.skip(i + 1), alpha@);
        proof {
            let s = vs.skip(i as int);
            assert(s.skip(1) =~= vs.skip(i + 1));
            assert(s[0] == vs[i as int]);
            modular::lemma_cong_rem(t, m);
            modular::lemma_cong_mul(alpha@, alpha@, acc@, t, m);
            modular::lemma_cong_rem(alpha@ * acc@, m);
            modular::lemma_cong_add(
                body@,
                vs[i as int],
                (alpha@ * acc@) % m,
                alpha@ * t,
                m,
            );
        }
        acc = body.add(&alpha.mul(&acc));
    }
    assert(vs.skip(0) =~= vs);
    acc
}

/// The polynomials that the expressions denote.
pub open spec fn denoted_polys(
    es: Seq<Expr>,
    cols: Seq<Seq<int>>,
    next: Seq<Seq<int>>,
    ch: int,
) -> Seq<Seq<int>> {
    Seq::new(es.len(), |i: int| expr::pv(es[i], cols, next, ch))
}

/// The sum of the polynomials that the expressions denote, weighted by the
/// powers of `alpha`.
pub open spec fn combined_poly(
    es: Seq<Expr>,
    cols: Seq<Seq<int>>,
    next: Seq<Seq<int>>,
    ch: int,
    alpha: int,
) -> Seq<int> {
    poly_arith::pcombine(denoted_polys(es, cols, next, ch), alpha)
}

/// Builds the combined polynomial of the expressions.
pub fn build_polynomial(
    es: &Vec<Expr>,
    cols: &[Vec<Scalar>],
    next: &[Vec<Scalar>],
    ch: &Scalar,
    alpha: &Scalar,
) -> (r: Vec<Scalar>)
    requires
        well_formed(es@, cols.len() as nat, next.len() as nat),
        coefficients_readable(es@, cols@, alpha.curve()),
        forall|k: int|
            0 <= k < next.len() ==> expr::coefficient_form(#[trigger] next@[k], alpha.curve()),
        ch.curve() == alpha.curve(),
    ensures
        poly_arith::reduced(
            r@,
            combined_poly(
                es@,
                expr::column_polys(cols@),
                expr::column_polys(next@),
                ch@,
                alpha@,
            ),
            alpha.curve(),
        ),
{
    let curve: CurveType = alpha.curve_type();
    let ghost cp = expr::column_polys(cols@);
    let ghost np = expr::column_polys(next@);
    let ghost ps = denoted_polys(es@, cp, np, ch@);
    let ghost m = field::order(curve);
    let mut acc: Vec<Scalar> = Vec::new();
    acc.push(Scalar::zero(curve));
    let mut i: usize = es.len();
    proof {
        field::lemma_order(curve);
        assert(ps.skip(es@.len() as int).len() == 0);
        vstd::arithmetic::div_mod::lemma_small_mod(0, m as nat);
    }
    while i > 0
        invariant
            i <= es.len(),
            well_formed(es@, cols.len() as nat, next.len() as nat),
            coefficients_readable(es@, cols@, curve),
            forall|k: int|
                0 <= k < next.len() ==> expr::coefficient_form(#[trigger] next@[k], curve),
            curve == alpha.curve(),
            ch.curve() == curve,
            m == field::order(curve),
            m > 0,
            cp == expr::column_polys(cols@),
            np == expr::column_polys(next@),
            ps == denoted_polys(es@, cp, np, ch@),
            poly_arith::reduced(acc@, poly_arith::pcombine(ps.skip(i as int), alpha@), curve),
        decreases i,
    {
        i = i - 1;
        let body: Vec<Scalar> = expr::eval_poly(&es[i], cols, next, ch);
        let ghost t = poly_arith::pcombine(ps.skip(i + 1), alpha@);
        proof {
            poly_arith::lemma_reduced_represents(acc@, t, curve);
        }
        let scaled: Vec<Scalar> = poly_arith::poly_scalar_mul(acc.as_slice(), alpha);
        let sum: Vec<Scalar> = poly_arith::poly_add(body.as_slice(), scaled.as_slice(), curve);
        proof {
            let s = ps.skip(i as int);
            assert(s.skip(1) =~= ps.skip(i + 1));
            assert(s[0] == ps[i as int]);
            let st = poly_arith::pscale(t, alpha@);
            expr::lemma_pscale_cong(poly_arith::values(acc@), t, alpha@, alpha@, m);
            expr::lemma_reduced_transfer(
                scaled@,
                poly_arith::pscale(poly_arith::values(acc@), alpha@),
                st,
                curve,
            );
            expr::lemma_padd_cong(
                poly_arith::values(body@),
                ps[i as int],
                poly_arith::values(scaled@),
                st,
                m,
            );
            expr::lemma_reduced_transfer(
                sum@,
                poly_arith::padd(poly_arith::values(body@), poly_arith::values(scaled@)),
                poly_arith::padd(ps[i as int], st),
                curve,
            );
        }
        acc = sum;
    }
    assert(ps.skip(0) =~= ps);
    acc
}

/// Congruent columns give congruent combined polynomials.
pub proof fn lemma_combined_cong(
    es: Seq<Expr>,
    cols: Seq<Seq<int>>,
    next: Seq<Seq<int>>,
    next2: Seq<Seq<int>>,
    ch: int,
    alpha: int,
    m: int,
)
    requires
        m > 0,
        forall|i: int| 0 <= i < es.len() ==> expr::within(#[trigger] es[i], cols.len(), next.len()),
        next.len() == next2.len(),
        forall|k: int| 0 <= k < next.len() ==> expr::pcong(#[trigger] next[k], next2[k], m),
    ensures
        expr::pcong(
            combined_poly(es, cols, next, ch, alpha),
            combined_poly(es, cols, next2, ch, alpha),
            m,
        ),
    decreases es.len(),
{
    let (ps, qs) = (denoted_polys(es, cols, next, ch), denoted_polys(es, cols, next2, ch));
    if es.len() > 0 {
        let rest = es.skip(1);
        assert forall|i: int| 0 <= i < rest.len() implies expr::within(
            #[trigger] rest[i],
            cols.len(),
            next.len(),
        ) by {
            assert(expr::within(es[i + 1], cols.len(), next.len()));
        }
        lemma_combined_cong(rest, cols, next, next2, ch, alpha, m);
        assert(expr::within(es[0], cols.len(), next.len()));
        expr::lemma_pv_cong(es[0], cols, next, next2, ch, m);
        assert(ps.skip(1) =~= denoted_polys(rest, cols, next, ch));
        assert(qs.skip(1) =~= denoted_polys(rest, cols, next2, ch));
        let (p, q) = (
            combined_poly(rest, cols, next, ch, alpha),
            combined_poly(rest, cols, next2, ch, alpha),
        );
        expr::lemma_pscale_cong(p, q, alpha, alpha, m);
        expr::lemma_padd_cong(
            ps[0],
            qs[0],
            poly_arith::pscale(p, alpha),
            poly_arith::pscale(q, alpha),
            m,
        );
    }
}

/// The length of a combined polynomial of constraints of degree three.
pub proof fn lemma_combined_len(
    es: Seq<Expr>,
    cols: Seq<Seq<int>>,
    next: Seq<Seq<int>>,
    ch: int,
    alpha: int,
    l: nat,
)
    requires
        forall|i: int|
            0 <= i < es.len() ==> fits(#[trigger] es[i], cols.len(), next.len(), 3),
        forall|i: int, c: int|
            0 <= i < es.len() && 0 <= c < cols.len() && expr::reads(#[trigger] es[i], c) ==> (
            #[trigger] cols[c]).len() <= l,
        forall|c: int| 0 <= c < next.len() ==> (#[trigger] next[c]).len() <= l,
    ensures
        combined_poly(es, cols, next, ch, alpha).len() <= 3 * l + 1,
    decreases es.len(),
{
    let ps = denoted_polys(es, cols, next, ch);
    if es.len() > 0 {
        let rest = es.skip(1);
        assert forall|i: int| 0 <= i < rest.len() implies fits(
            #[trigger] rest[i],
            cols.len(),
            next.len(),
            3,
        ) by {
            assert(fits(es[i + 1], cols.len(), next.len(), 3));
        }
        assert forall|i: int, c: int|
            0 <= i < rest.len() && 0 <= c < cols.len() && expr::reads(
                #[trigger] rest[i],
                c,
            ) implies (#[trigger] cols[c]).len() <= l by {
            assert(rest[i] == es[i + 1]);
        }
        lemma_combined_len(rest, cols, next, ch, alpha, l);
        assert(ps.skip(1) =~= denoted_polys(rest, cols, next, ch));
        assert(fits(es[0], cols.len(), next.len(), 3));
        expr::lemma_pv_len(es[0], cols, next, ch, l);
        let d = expr::degree(es[0]);
        assert(d * l <= 3 * l) by (nonlinear_arith)
            requires
                d <= 3,
                l >= 0,
        ;
    }
}

/// The combined polynomial of a system takes at every point the combined
/// value of the system over the columns evaluated there.
pub proof fn law_combined_reading(
    es: Seq<Expr>,
    cols: Seq<Seq<int>>,
    next: Seq<Seq<int>>,
    ch: int,
    alpha: int,
    z: int,
)
    requires
        well_formed(es, cols.len(), next.len()),
    ensures
        poly_arith::peval(combined_poly(es, cols, next, ch, alpha), z) == combined(
            es,
            expr::evals(cols, z),
            expr::evals(next, z),
            ch,
            alpha,
        ),
{
    let ps = denoted_polys(es, cols, next, ch);
    poly_arith::lemma_peval_combine(ps, alpha, z);
    let a = Seq::new(ps.len(), |i: int| poly_arith::peval(ps[i], z));
    let b = denoted(es, expr::evals(cols, z), expr::evals(next, z), ch);
    assert forall|i: int| 0 <= i < es.len() implies a[i] == b[i] by {
        assert(expr::within(es[i], cols.len(), next.len()));
        expr::law_poly_reading(es[i], cols, next, ch, z);
    }
    assert(a =~= b);
}

/// `row` holds the values of the first `n` columns at `z`, modulo `m`.
pub open spec fn evaluated(cols: Seq<Seq<int>>, n: nat, row: Seq<int>, z: int, m: int) -> bool {
    forall|c: int| 0 <= c < n ==> modular::cong(#[trigger] row[c], poly_arith::peval(cols[c], z), m)
}

/// Congruent columns give congruent combined values.
pub proof fn lemma_combined_value_cong(
    es: Seq<Expr>,
    width: nat,
    nexts: nat,
    row: Seq<int>,
    row2: Seq<int>,
    next: Seq<int>,
    next2: Seq<int>,
    ch: int,
    alpha: int,
    m: int,
)
    requires
        m > 0,
        well_formed(es, width, nexts),
        forall|c: int| 0 <= c < width ==> modular::cong(#[trigger] row[c], row2[c], m),
        forall|k: int| 0 <= k < nexts ==> modular::cong(#[trigger] next[k], next2[k], m),
    ensures
        modular::cong(combined(es, row, next, ch, alpha), combined(es, row2, next2, ch, alpha), m),
{
    let (a, b) = (denoted(es, row, next, ch), denoted(es, row2, next2, ch));
    assert forall|i: int| 0 <= i < a.len() implies modular::cong(#[trigger] a[i], b[i], m) by {
        assert(expr::within(es[i], width, nexts));
        expr::lemma_ev_cong(es[i], width, nexts, row, row2, next, next2, ch, m);
    }
    poly_arith::lemma_peval_cong(a, b, alpha, alpha, m);
}

/// The combined polynomial of a system takes at every point, modulo `m`, the
/// combined value of the system over numbers that are congruent to the values
/// of the columns there.
pub proof fn law_combined_reading_modulo(
    es: Seq<Expr>,
    width: nat,
    cols: Seq<Seq<int>>,
    next: Seq<Seq<int>>,
    row: Seq<int>,
    after: Seq<int>,
    ch: int,
    alpha: int,
    z: int,
    m: int,
)
    requires
        m > 0,
        well_formed(es, width, next.len()),
        cols.len() >= width,
        evaluated(cols, width, row, z, m),
        evaluated(next, next.len(), after, z, m),
    ensures
        modular::cong(
            poly_arith::peval(combined_poly(es, cols, next, ch, alpha), z),
            combined(es, row, after, ch, alpha),
            m,
        ),
{
    lemma_well_formed_more(es, width, cols.len(), next.len());
    law_combined_reading(es, cols, next, ch, alpha, z);
    let (x, y) = (expr::evals(cols, z), expr::evals(next, z));
    assert forall|c: int| 0 <= c < width implies modular::cong(#[trigger] x[c], row[c], m) by {
        assert(modular::cong(row[c], poly_arith::peval(cols[c], z), m));
    }
    assert forall|k: int| 0 <= k < next.len() implies modular::cong(
        #[trigger] y[k],
        after[k],
        m,
    ) by {
        assert(modular::cong(after[k], poly_arith::peval(next[k], z), m));
    }
    lemma_combined_value_cong(es, width, next.len(), x, row, y, after, ch, alpha, m);
}

/// What a system gives at a point is the sum of what it gives on a row that
/// holds the same numbers, weighted by the powers of `alpha`.
pub proof fn law_point_is_weighted_row(
    es: Seq<Expr>,
    width: nat,
    columns: Seq<&Vec<Scalar>>,
    j: int,
    row: Seq<int>,
    ch: int,
    alpha: int,
    d: Seq<Vec<Scalar>>,
)
    requires
        well_formed(es, width, 0),
        columns.len() >= width,
        columns.len() > 0,
        0 <= j < columns[0].len(),
        domain_values(d, es, columns, ch),
        forall|c: int|
            0 <= c < width ==> modular::cong(
                #[trigger] row[c],
                columns[c]@[j]@,
                field::order(columns[0]@[0].curve()),
            ),
    ensures
        modular::cong(
            combined(es, row, Seq::empty(), ch, alpha),
            poly_arith::peval(Seq::new(es.len(), |k: int| d[k]@[j]@), alpha),
            field::order(columns[0]@[0].curve()),
        ),
{
    let curve = columns[0]@[0].curve();
    let m = field::order(curve);
    field::lemma_order(curve);
    let e = Seq::<int>::empty();
    let cells = expr::row_values(columns, j);
    assert forall|c: int| 0 <= c < width implies modular::cong(#[trigger] row[c], cells[c], m) by {
        assert(modular::cong(row[c], columns[c]@[j]@, m));
    }
    lemma_combined_value_cong(es, width, 0, row, cells, e, e, ch, alpha, m);
    let a = denoted(es, cells, e, ch);
    let b = Seq::new(es.len(), |k: int| d[k]@[j]@);
    assert forall|k: int| 0 <= k < a.len() implies modular::cong(#[trigger] a[k], b[k], m) by {
        assert(d[k]@[j].is(curve, expr::ev(es[k], cells, e, ch)));
        modular::lemma_cong_rem(a[k], m);
    }
    poly_arith::lemma_peval_cong(a, b, alpha, alpha, m);
}

/// A system whose expressions all vanish on a row, modulo the order, has the
/// combined value zero there, whatever the weights.
pub proof fn law_combined_vanishes(
    es: Seq<Expr>,
    row: Seq<int>,
    next: Seq<int>,
    ch: int,
    alpha: int,
    m: int,
)
    requires
        m > 0,
        forall|i: int|
            0 <= i < es.len() ==> expr::ev(#[trigger] es[i], row, next, ch) % m == 0,
    ensures
        combined(es, row, next, ch, alpha) % m == 0,
{
    let vs = denoted(es, row, next, ch);
    let zs = Seq::new(vs.len(), |i: int| 0int);
    assert forall|i: int| 0 <= i < vs.len() implies modular::cong(#[trigger] vs[i], zs[i], m) by {
        vstd::arithmetic::div_mod::lemma_small_mod(0, m as nat);
        assert(expr::ev(es[i], row, next, ch) % m == 0);
    }
    poly_arith::lemma_peval_cong(vs, zs, alpha, alpha, m);
    lemma_peval_zeros(zs, alpha);
    vstd::arithmetic::div_mod::lemma_small_mod(0, m as nat);
}

// ─── Padding ──────────────────────────────────────────────────────────

/// A column with its cells from `rows` to `padded` cleared.
pub open spec fn cleared(col: Seq<Scalar>, new: Seq<Scalar>, rows: nat, padded: nat, curve: CurveType) -> bool {
    &&& new.len() == col.len()
    &&& forall|r: int|
        0 <= r < col.len() ==> if rows <= r < padded {
            (#[trigger] new[r]).curve() == curve && new[r]@ == 0
        } else {
            new[r] == col[r]
        }
}

/// The curve of the first cell of a trace, if there is one.
pub open spec fn padding_curve(columns: Seq<Vec<Scalar>>, default: CurveType) -> CurveType {
    if columns[0].len() > 0 {
        columns[0]@[0].curve()
    } else {
        default
    }
}

/// Whether clearing the padding does anything.
pub open spec fn clears_padding(available: nat, columns: nat, rows: nat, padded: nat) -> bool {
    rows != 0 && rows < padded && available >= columns
}

/// What clearing the padding leaves: the first `columns` columns with the
/// padding rows zero, the others untouched; nothing changes where there is
/// no padding or no full set of columns.
pub open spec fn padding_cleared(
    old_columns: Seq<Vec<Scalar>>,
    new_columns: Seq<Vec<Scalar>>,
    columns: nat,
    rows: nat,
    padded: nat,
    default: CurveType,
) -> bool {
    &&& new_columns.len() == old_columns.len()
    &&& forall|c: int|
        0 <= c < old_columns.len() ==> if clears_padding(old_columns.len(), columns, rows, padded)
            && c < columns {
            cleared(
                old_columns[c]@,
                (#[trigger] new_columns[c])@,
                rows,
                padded,
                padding_curve(old_columns, default),
            )
        } else {
            new_columns[c]@ == old_columns[c]@
        }
}

/// Clears the padding rows of the first `num_columns` columns.
pub fn clear_padding(
    columns: &mut [Vec<Scalar>],
    num_columns: usize,
    num_rows: usize,
    padded_size: usize,
    default: CurveType,
)
    requires
        num_columns > 0,
    ensures
        padding_cleared(
            old(columns)@,
            final(columns)@,
            num_columns as nat,
            num_rows as nat,
            padded_size as nat,
            default,
        ),
{
    if num_rows == 0 || num_rows >= padded_size {
        return;
    }
    if columns.len() < num_columns {
        return;
    }
    let curve: CurveType = if columns[0].len() > 0 {
        columns[0][0].curve_type()
    } else {
        default
    };
    let ghost before = columns@;
    let mut c: usize = 0;
    while c < num_columns
        invariant
            c <= num_columns,
            num_columns <= columns.len(),
            num_rows < padded_size,
            columns@.len() == before.len(),
            forall|k: int|
                0 <= k < c ==> cleared(
                    before[k]@,
                    (#[trigger] columns@[k])@,
                    num_rows as nat,
                    padded_size as nat,
                    curve,
                ),
            forall|k: int| c <= k < before.len() ==> (#[trigger] columns@[k])@ == before[k]@,
        decreases num_columns - c,
    {
        let len: usize = columns[c].len();
        let stop: usize = if len < padded_size {
            len
        } else {
            padded_size
        };
        let ghost entry = columns@;
        let mut r: usize = num_rows;
        while r < stop
            invariant
                c < columns.len(),
                num_rows <= r,
                num_rows < padded_size,
                stop <= padded_size,
                stop <= len,
                len == before[c as int].len(),
                columns@.len() == entry.len(),
                entry.len() == before.len(),
                columns@[c as int].len() == len,
                forall|k: int| 0 <= k < entry.len() && k != c ==> columns@[k] == entry[k],
                forall|j: int|
                    num_rows <= j < r && j < stop ==> (#[trigger] columns@[c as int]@[j]).curve()
                        == curve && columns@[c as int]@[j]@ == 0,
                forall|j: int|
                    0 <= j < len && !(num_rows <= j < r && j < stop) ==> columns@[c as int]@[j]
                        == before[c as int]@[j],
            decreases stop - r,
        {
            columns[c][r] = Scalar::zero(curve);
            r = r + 1;
        }
        proof {
            assert forall|k: int| 0 <= k < c + 1 implies cleared(
                before[k]@,
                (#[trigger] columns@[k])@,
                num_rows as nat,
                padded_size as nat,
                curve,
            ) by {
                if k < c {
                    assert(columns@[k] == entry[k]);
                    assert(cleared(
                        before[k]@,
                        entry[k]@,
                        num_rows as nat,
                        padded_size as nat,
                        curve,
                    ));
                }
            }
            assert forall|k: int| c + 1 <= k < before.len() implies (#[trigger] columns@[k])@
                == before[k]@ by {
                assert(columns@[k] == entry[k]);
                assert(entry[k]@ == before[k]@);
            }
        }
        c = c + 1;
    }
}

/// The number whose little-endian bytes are the eight entries from `a`.
pub open spec fn eight_bytes(row: Seq<int>, a: int) -> int {
    row[a] + 0x100 * row[a + 1] + 0x1_0000 * row[a + 2] + 0x100_0000 * row[a + 3]
        + 0x1_0000_0000 * row[a + 4] + 0x100_0000_0000 * row[a + 5] + 0x1_0000_0000_0000 * row[a
        + 6] + 0x100_0000_0000_0000 * row[a + 7]
}

/// The number whose little-endian bytes are the four entries from `a`.
pub open spec fn four_bytes(row: Seq<int>, a: int) -> int {
    row[a] + 0x100 * row[a + 1] + 0x1_0000 * row[a + 2] + 0x100_0000 * row[a + 3]
}

pub proof fn lemma_weighted_bytes(row: Seq<int>, a: int)
    ensures
        weighted_sum(row, a, 256, 8) == eight_bytes(row, a),
        weighted_sum(row, a, 256, 4) == four_bytes(row, a),
{
    lemma_ipow256();
    reveal_with_fuel(weighted_sum, 9);
}

/// What is left after the padding is cleared: with rows above and below the
/// padding and all columns present, the cells of the padding rows of the
/// table's columns are zero on the curve of the first cell; every other cell
/// stays as it was, and no column changes its length.
pub proof fn law_padding_cleared(
    before: Seq<Vec<Scalar>>,
    after: Seq<Vec<Scalar>>,
    columns: nat,
    rows: nat,
    padded: nat,
    default: CurveType,
    c: int,
    r: int,
)
    requires
        padding_cleared(before, after, columns, rows, padded, default),
        0 <= c < before.len(),
        0 <= r < before[c].len(),
    ensures
        after.len() == before.len(),
        after[c].len() == before[c].len(),
        0 < rows <= r < padded && c < columns <= before.len() ==> after[c]@[r]@ == 0,
        0 < rows <= r < padded && c < columns <= before.len() && before[0].len() > 0
            ==> after[c]@[r].curve() == before[0]@[0].curve(),
        0 < rows <= r < padded && c < columns <= before.len() && before[0].len() == 0
            ==> after[c]@[r].curve() == default,
        rows == 0 || rows >= padded || before.len() < columns || c >= columns || r < rows || r
            >= padded ==> after[c]@[r] == before[c]@[r],
{
    assert(after[c]@.len() == before[c]@.len());
    if clears_padding(before.len(), columns, rows, padded) && c < columns {
        assert(after[c]@[r] == after[c]@[r]);
    }
}

} // verus!
