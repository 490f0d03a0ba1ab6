//! Constraint expressions.
//!
//! A constraint is written once, as an [`Expr`] over the columns of a trace,
//! and read in three ways: on a row of a trace, at a point outside the trace
//! domain, and as a polynomial in the coefficient form of the columns. The
//! three readings agree: see [`law_poly_reading`].

use crate::field;
use crate::field::{CurveType, Scalar};
use crate::modular;
use crate::poly_arith;
use vstd::arithmetic::div_mod::*;
use vstd::prelude::*;

verus! {

/// An expression over the columns of a trace.
pub enum Expr {
    /// A column on the current row.
    Col(usize),
    /// An entry of the list of columns that are also read on the next row.
    Next(usize),
    /// A constant.
    Const(u64),
    /// The challenge that combines several bodies into one.
    Challenge,
    Add(Box<Expr>, Box<Expr>),
    Sub(Box<Expr>, Box<Expr>),
    Mul(Box<Expr>, Box<Expr>),
}

/// The integer that an expression denotes on a row, with `next` on the next
/// row and `ch` as the challenge.
pub open spec fn ev(e: Expr, row: Seq<int>, next: Seq<int>, ch: int) -> int
    decreases e,
{
    match e {
        Expr::Col(c) => row[c as int],
        Expr::Next(k) => next[k as int],
        Expr::Const(x) => x as int,
        Expr::Challenge => ch,
        Expr::Add(a, b) => ev(*a, row, next, ch) + ev(*b, row, next, ch),
        Expr::Sub(a, b) => ev(*a, row, next, ch) - ev(*b, row, next, ch),
        Expr::Mul(a, b) => ev(*a, row, next, ch) * ev(*b, row, next, ch),
    }
}

/// The polynomial that an expression denotes over columns in coefficient
/// form.
pub open spec fn pv(e: Expr, cols: Seq<Seq<int>>, next: Seq<Seq<int>>, ch: int) -> Seq<int>
    decreases e,
{
    match e {
        Expr::Col(c) => cols[c as int],
        Expr::Next(k) => next[k as int],
        Expr::Const(x) => seq![x as int],
        Expr::Challenge => seq![ch],
        Expr::Add(a, b) => poly_arith::padd(pv(*a, cols, next, ch), pv(*b, cols, next, ch)),
        Expr::Sub(a, b) => poly_arith::psub(pv(*a, cols, next, ch), pv(*b, cols, next, ch)),
        Expr::Mul(a, b) => poly_arith::pmul(pv(*a, cols, next, ch), pv(*b, cols, next, ch)),
    }
}

/// The columns that an expression reads lie below `cols` and `next`.
pub open spec fn within(e: Expr, cols: nat, next: nat) -> bool
    decreases e,
{
    match e {
        Expr::Col(c) => c < cols,
        Expr::Next(k) => k < next,
        Expr::Const(_) => true,
        Expr::Challenge => true,
        Expr::Add(a, b) => within(*a, cols, next) && within(*b, cols, next),
        Expr::Sub(a, b) => within(*a, cols, next) && within(*b, cols, next),
        Expr::Mul(a, b) => within(*a, cols, next) && within(*b, cols, next),
    }
}

/// Whether an expression reads column `c`.
pub open spec fn reads(e: Expr, c: int) -> bool
    decreases e,
{
    match e {
        Expr::Col(k) => c == k,
        Expr::Next(_) => false,
        Expr::Const(_) => false,
        Expr::Challenge => false,
        Expr::Add(a, b) => reads(*a, c) || reads(*b, c),
        Expr::Sub(a, b) => reads(*a, c) || reads(*b, c),
        Expr::Mul(a, b) => reads(*a, c) || reads(*b, c),
    }
}

/// Whether an expression reads entry `k` of the listed columns on the next
/// row.
pub open spec fn reads_next(e: Expr, k: int) -> bool
    decreases e,
{
    match e {
        Expr::Col(_) => false,
        Expr::Next(l) => k == l,
        Expr::Const(_) => false,
        Expr::Challenge => false,
        Expr::Add(a, b) => reads_next(*a, k) || reads_next(*b, k),
        Expr::Sub(a, b) => reads_next(*a, k) || reads_next(*b, k),
        Expr::Mul(a, b) => reads_next(*a, k) || reads_next(*b, k),
    }
}

/// The number of columns multiplied together in an expression, at most.
pub open spec fn degree(e: Expr) -> nat
    decreases e,
{
    match e {
        Expr::Col(_) => 1,
        Expr::Next(_) => 1,
        Expr::Const(_) => 0,
        Expr::Challenge => 0,
        Expr::Add(a, b) => poly_arith::longer(degree(*a), degree(*b)),
        Expr::Sub(a, b) => poly_arith::longer(degree(*a), degree(*b)),
        Expr::Mul(a, b) => degree(*a) + degree(*b),
    }
}

/// Whether the value of the expression comes out of a field operation.
pub open spec fn compound(e: Expr) -> bool {
    e is Add || e is Sub || e is Mul
}

/// The columns that an expression reads have at least `n` rows, and those
/// rows lie on `curve`.
pub open spec fn readable(e: Expr, columns: Seq<&Vec<Scalar>>, n: nat, curve: CurveType) -> bool
    decreases e,
{
    match e {
        Expr::Col(c) => {
            &&& c < columns.len()
            &&& columns[c as int].len() >= n
            &&& forall|r: int| 0 <= r < n ==> (#[trigger] columns[c as int]@[r]).curve() == curve
        },
        Expr::Next(_) => false,
        Expr::Const(_) => true,
        Expr::Challenge => true,
        Expr::Add(a, b) => readable(*a, columns, n, curve) && readable(*b, columns, n, curve),
        Expr::Sub(a, b) => readable(*a, columns, n, curve) && readable(*b, columns, n, curve),
        Expr::Mul(a, b) => readable(*a, columns, n, curve) && readable(*b, columns, n, curve),
    }
}

/// The values of all columns on row `r`.
pub open spec fn row_values(columns: Seq<&Vec<Scalar>>, r: int) -> Seq<int> {
    Seq::new(columns.len(), |c: int| columns[c]@[r]@)
}

/// Columns that all have `n` rows on one curve can be read by every
/// expression over them.
pub proof fn lemma_readable(e: Expr, columns: Seq<&Vec<Scalar>>, n: nat, curve: CurveType)
    requires
        within(e, columns.len(), 0),
        forall|c: int, r: int|
            0 <= c < columns.len() && 0 <= r < n ==> (#[trigger] columns[c]@[r]).curve() == curve,
        forall|c: int| 0 <= c < columns.len() ==> (#[trigger] columns[c]).len() >= n,
    ensures
        readable(e, columns, n, curve),
    decreases e,
{
    match e {
        Expr::Add(a, b) => {
            lemma_readable(*a, columns, n, curve);
            lemma_readable(*b, columns, n, curve);
        },
        Expr::Sub(a, b) => {
            lemma_readable(*a, columns, n, curve);
            lemma_readable(*b, columns, n, curve);
        },
        Expr::Mul(a, b) => {
            lemma_readable(*a, columns, n, curve);
            lemma_readable(*b, columns, n, curve);
        },
        _ => {},
    }
}

/// An expression over some columns is one over more columns.
pub proof fn lemma_within_more(e: Expr, cols: nat, more: nat, next: nat)
    requires
        within(e, cols, next),
        cols <= more,
    ensures
        within(e, more, next),
    decreases e,
{
    match e {
        Expr::Add(a, b) => {
            lemma_within_more(*a, cols, more, next);
            lemma_within_more(*b, cols, more, next);
        },
        Expr::Sub(a, b) => {
            lemma_within_more(*a, cols, more, next);
            lemma_within_more(*b, cols, more, next);
        },
        Expr::Mul(a, b) => {
            lemma_within_more(*a, cols, more, next);
            lemma_within_more(*b, cols, more, next);
        },
        _ => {},
    }
}

/// The polynomial reading of an expression agrees with its reading at a
/// point: evaluating the polynomial gives the expression over the evaluated
/// columns.
pub proof fn law_poly_reading(
    e: Expr,
    cols: Seq<Seq<int>>,
    next: Seq<Seq<int>>,
    ch: int,
    z: int,
)
    requires
        within(e, cols.len(), next.len()),
    ensures
        poly_arith::peval(pv(e, cols, next, ch), z) == ev(
            e,
            evals(cols, z),
            evals(next, z),
            ch,
        ),
    decreases e,
{
    match e {
        Expr::Add(a, b) => {
            law_poly_reading(*a, cols, next, ch, z);
            law_poly_reading(*b, cols, next, ch, z);
            poly_arith::lemma_peval_add(pv(*a, cols, next, ch), pv(*b, cols, next, ch), z);
        },
        Expr::Sub(a, b) => {
            law_poly_reading(*a, cols, next, ch, z);
            law_poly_reading(*b, cols, next, ch, z);
            poly_arith::lemma_peval_sub(pv(*a, cols, next, ch), pv(*b, cols, next, ch), z);
        },
        Expr::Mul(a, b) => {
            law_poly_reading(*a, cols, next, ch, z);
            law_poly_reading(*b, cols, next, ch, z);
            poly_arith::lemma_peval_mul(pv(*a, cols, next, ch), pv(*b, cols, next, ch), z);
        },
        Expr::Const(x) => {
            lemma_peval_constant(x as int, z);
        },
        Expr::Challenge => {
            lemma_peval_constant(ch, z);
        },
        _ => {},
    }
}

/// A constant polynomial.
pub proof fn lemma_peval_constant(x: int, z: int)
    ensures
        poly_arith::peval(seq![x], z) == x,
{
    assert(seq![x].skip(1).len() == 0);
    assert(poly_arith::peval(seq![x].skip(1), z) == 0);
    assert(z * 0 == 0) by (nonlinear_arith);
}

/// The columns evaluated at a point.
pub open spec fn evals(cols: Seq<Seq<int>>, z: int) -> Seq<int> {
    Seq::new(cols.len(), |c: int| poly_arith::peval(cols[c], z))
}

/// Congruent columns give congruent values.
pub proof fn lemma_ev_cong(
    e: Expr,
    cols: nat,
    nexts: nat,
    row: Seq<int>,
    row2: Seq<int>,
    next: Seq<int>,
    next2: Seq<int>,
    ch: int,
    m: int,
)
    requires
        m > 0,
        within(e, cols, nexts),
        forall|c: int| 0 <= c < cols ==> modular::cong(#[trigger] row[c], row2[c], m),
        forall|k: int| 0 <= k < nexts ==> modular::cong(#[trigger] next[k], next2[k], m),
    ensures
        modular::cong(ev(e, row, next, ch), ev(e, row2, next2, ch), m),
    decreases e,
{
    match e {
        Expr::Col(c) => {
            assert(modular::cong(row[c as int], row2[c as int], m));
        },
        Expr::Next(k) => {
            assert(modular::cong(next[k as int], next2[k as int], m));
        },
        Expr::Const(_) => {},
        Expr::Challenge => {},
        Expr::Add(a, b) => {
            lemma_ev_cong(*a, cols, nexts, row, row2, next, next2, ch, m);
            lemma_ev_cong(*b, cols, nexts, row, row2, next, next2, ch, m);
            let (x, y) = (ev(*a, row, next, ch), ev(*b, row, next, ch));
            let (x2, y2) = (ev(*a, row2, next2, ch), ev(*b, row2, next2, ch));
            modular::lemma_cong_add(x, x2, y, y2, m);
        },
        Expr::Sub(a, b) => {
            lemma_ev_cong(*a, cols, nexts, row, row2, next, next2, ch, m);
            lemma_ev_cong(*b, cols, nexts, row, row2, next, next2, ch, m);
            let (x, y) = (ev(*a, row, next, ch), ev(*b, row, next, ch));
            let (x2, y2) = (ev(*a, row2, next2, ch), ev(*b, row2, next2, ch));
            modular::lemma_cong_sub(x, x2, y, y2, m);
        },
        Expr::Mul(a, b) => {
            lemma_ev_cong(*a, cols, nexts, row, row2, next, next2, ch, m);
            lemma_ev_cong(*b, cols, nexts, row, row2, next, next2, ch, m);
            let (x, y) = (ev(*a, row, next, ch), ev(*b, row, next, ch));
            let (x2, y2) = (ev(*a, row2, next2, ch), ev(*b, row2, next2, ch));
            modular::lemma_cong_mul(x, x2, y, y2, m);
        },
    }
}

/// A product with a factor that stands for zero stands for zero.
proof fn lemma_zero_factor(u: int, v: int, m: int)
    requires
        m > 0,
        modular::cong(0, u, m) || modular::cong(0, v, m),
    ensures
        (u * v) % m == 0,
        0int % m == 0,
{
    lemma_small_mod(0, m as nat);
    if modular::cong(0, u, m) {
        modular::lemma_cong_mul(u, 0, v, v, m);
        assert(0 * v == 0);
    } else {
        modular::lemma_cong_mul(u, u, v, 0, m);
        assert(u * 0 == 0);
    }
}

/// Reads an expression on row `r` of a trace.
pub fn eval_row(e: &Expr, columns: &[&Vec<Scalar>], r: usize, ch: &Scalar) -> (res: Scalar)
    requires
        readable(*e, columns@, (r + 1) as nat, ch.curve()),
    ensures
        res.curve() == ch.curve(),
        modular::cong(
            res@,
            ev(*e, row_values(columns@, r as int), Seq::empty(), ch@),
            field::order(ch.curve()),
        ),
        compound(*e) ==> res@ == ev(*e, row_values(columns@, r as int), Seq::empty(), ch@)
            % field::order(ch.curve()),
    decreases e,
{
    let ghost row = row_values(columns@, r as int);
    let ghost m = field::order(ch.curve());
    proof {
        field::lemma_order(ch.curve());
    }
    match e {
        Expr::Col(c) => columns[*c][r],
        Expr::Next(_) => vstd::pervasive::unreached(),
        Expr::Const(x) => Scalar::from_u64(*x, ch.curve_type()),
        Expr::Challenge => *ch,
        Expr::Add(a, b) => {
            let x: Scalar = eval_row(a, columns, r, ch);
            let y: Scalar = eval_row(b, columns, r, ch);
            proof {
                let (u, v) = (ev(**a, row, Seq::empty(), ch@), ev(**b, row, Seq::empty(), ch@));
                modular::lemma_cong_add(x@, u, y@, v, m);
                modular::lemma_cong_rem(x@ + y@, m);
            }
            x.add(&y)
        },
        Expr::Sub(a, b) => {
            let x: Scalar = eval_row(a, columns, r, ch);
            let y: Scalar = eval_row(b, columns, r, ch);
            proof {
                let (u, v) = (ev(**a, row, Seq::empty(), ch@), ev(**b, row, Seq::empty(), ch@));
                modular::lemma_cong_sub(x@, u, y@, v, m);
                modular::lemma_cong_rem(x@ - y@, m);
            }
            x.sub(&y)
        },
        Expr::Mul(a, b) => {
            let x: Scalar = eval_row(a, columns, r, ch);
            let ghost (u, v) = (ev(**a, row, Seq::empty(), ch@), ev(**b, row, Seq::empty(), ch@));
            if x.is_zero() {
                proof {
                    lemma_zero_factor(u, v, m);
                }
                return Scalar::zero(ch.curve_type());
            }
            let y: Scalar = eval_row(b, columns, r, ch);
            if y.is_zero() {
                proof {
                    lemma_zero_factor(u, v, m);
                }
                return Scalar::zero(ch.curve_type());
            }
            proof {
                modular::lemma_cong_mul(x@, u, y@, v, m);
                modular::lemma_cong_rem(x@ * y@, m);
            }
            x.mul(&y)
        },
    }
}

/// Reads an expression at a point, given the columns evaluated there and the
/// listed columns evaluated at the next point.
pub fn eval_point(e: &Expr, row: &[Scalar], next: &[Scalar], ch: &Scalar) -> (res: Scalar)
    requires
        within(*e, row.len() as nat, next.len() as nat),
        forall|c: int|
            0 <= c < row.len() && reads(*e, c) ==> (#[trigger] row@[c]).curve() == ch.curve(),
        forall|k: int|
            0 <= k < next.len() && reads_next(*e, k) ==> (#[trigger] next@[k]).curve()
                == ch.curve(),
    ensures
        res.curve() == ch.curve(),
        modular::cong(
            res@,
            ev(*e, poly_arith::values(row@), poly_arith::values(next@), ch@),
            field::order(ch.curve()),
        ),
        compound(*e) ==> res@ == ev(
            *e,
            poly_arith::values(row@),
            poly_arith::values(next@),
            ch@,
        ) % field::order(ch.curve()),
    decreases e,
{
    let ghost rv = poly_arith::values(row@);
    let ghost nv = poly_arith::values(next@);
    let ghost m = field::order(ch.curve());
    proof {
        field::lemma_order(ch.curve());
    }
    match e {
        Expr::Col(c) => row[*c],
        Expr::Next(k) => next[*k],
        Expr::Const(x) => Scalar::from_u64(*x, ch.curve_type()),
        Expr::Challenge => *ch,
        Expr::Add(a, b) => {
            let x: Scalar = eval_point(a, row, next, ch);
            let y: Scalar = eval_point(b, row, next, ch);
            proof {
                modular::lemma_cong_add(x@, ev(**a, rv, nv, ch@), y@, ev(**b, rv, nv, ch@), m);
                modular::lemma_cong_rem(x@ + y@, m);
            }
            x.add(&y)
        },
        Expr::Sub(a, b) => {
            let x: Scalar = eval_point(a, row, next, ch);
            let y: Scalar = eval_point(b, row, next, ch);
            proof {
                modular::lemma_cong_sub(x@, ev(**a, rv, nv, ch@), y@, ev(**b, rv, nv, ch@), m);
                modular::lemma_cong_rem(x@ - y@, m);
            }
            x.sub(&y)
        },
        Expr::Mul(a, b) => {
            let x: Scalar = eval_point(a, row, next, ch);
            let ghost (u, v) = (ev(**a, rv, nv, ch@), ev(**b, rv, nv, ch@));
            if x.is_zero() {
                proof {
                    lemma_zero_factor(u, v, m);
                }
                return Scalar::zero(ch.curve_type());
            }
            let y: Scalar = eval_point(b, row, next, ch);
            if y.is_zero() {
                proof {
                    lemma_zero_factor(u, v, m);
                }
                return Scalar::zero(ch.curve_type());
            }
            proof {
                modular::lemma_cong_mul(x@, u, y@, v, m);
                modular::lemma_cong_rem(x@ * y@, m);
            }
            x.mul(&y)
        },
    }
}

/// The polynomials of columns in coefficient form.
pub open spec fn column_polys(cols: Seq<Vec<Scalar>>) -> Seq<Seq<int>> {
    Seq::new(cols.len(), |c: int| poly_arith::values(cols[c]@))
}

/// A column in coefficient form: on the curve, and short enough for products
/// of up to four such columns to have a length.
pub open spec fn coefficient_form(col: Vec<Scalar>, curve: CurveType) -> bool {
    poly_arith::on_curve(col@, curve) && col.len() <= usize::MAX / 8
}

/// The length of the polynomial reading.
pub proof fn lemma_pv_len(e: Expr, cols: Seq<Seq<int>>, next: Seq<Seq<int>>, ch: int, l: nat)
    requires
        within(e, cols.len(), next.len()),
        forall|c: int| 0 <= c < cols.len() && reads(e, c) ==> (#[trigger] cols[c]).len() <= l,
        forall|c: int| 0 <= c < next.len() ==> (#[trigger] next[c]).len() <= l,
    ensures
        pv(e, cols, next, ch).len() <= degree(e) * l + 1,
    decreases e,
{
    match e {
        Expr::Col(_) => {
            assert(1 * l == l) by (nonlinear_arith);
        },
        Expr::Next(_) => {
            assert(1 * l == l) by (nonlinear_arith);
        },
        Expr::Const(_) => {
            assert(0 * l == 0) by (nonlinear_arith);
        },
        Expr::Challenge => {
            assert(0 * l == 0) by (nonlinear_arith);
        },
        Expr::Add(a, b) => {
            lemma_pv_len(*a, cols, next, ch, l);
            lemma_pv_len(*b, cols, next, ch, l);
            lemma_longer(degree(*a), degree(*b), l);
        },
        Expr::Sub(a, b) => {
            lemma_pv_len(*a, cols, next, ch, l);
            lemma_pv_len(*b, cols, next, ch, l);
            lemma_longer(degree(*a), degree(*b), l);
        },
        Expr::Mul(a, b) => {
            lemma_pv_len(*a, cols, next, ch, l);
            lemma_pv_len(*b, cols, next, ch, l);
            poly_arith::lemma_pmul_len(pv(*a, cols, next, ch), pv(*b, cols, next, ch));
            let (x, y) = (degree(*a), degree(*b));
            assert((x + y) * l == x * l + y * l) by (nonlinear_arith);
            assert(x * l >= 0 && y * l >= 0) by (nonlinear_arith)
                requires
                    x >= 0,
                    y >= 0,
                    l >= 0,
            ;
        },
    }
}

proof fn lemma_longer(a: nat, b: nat, l: nat)
    ensures
        a * l <= poly_arith::longer(a, b) * l,
        b * l <= poly_arith::longer(a, b) * l,
{
    assert(a * l <= poly_arith::longer(a, b) * l) by (nonlinear_arith)
        requires
            a <= poly_arith::longer(a, b),
            l >= 0,
    ;
    assert(b * l <= poly_arith::longer(a, b) * l) by (nonlinear_arith)
        requires
            b <= poly_arith::longer(a, b),
            l >= 0,
    ;
}

/// Reads an expression as a polynomial. `next` holds the listed columns,
/// already moved to the next row.
pub fn eval_poly(e: &Expr, cols: &[Vec<Scalar>], next: &[Vec<Scalar>], ch: &Scalar) -> (res: Vec<
    Scalar,
>)
    requires
        within(*e, cols.len() as nat, next.len() as nat),
        forall|c: int|
            0 <= c < cols.len() && reads(*e, c) ==> coefficient_form(
                #[trigger] cols@[c],
                ch.curve(),
            ),
        forall|k: int| 0 <= k < next.len() ==> coefficient_form(#[trigger] next@[k], ch.curve()),
        degree(*e) <= 4,
    ensures
        poly_arith::represents(
            res@,
            pv(*e, column_polys(cols@), column_polys(next@), ch@),
            ch.curve(),
        ),
        compound(*e) ==> poly_arith::reduced(
            res@,
            pv(*e, column_polys(cols@), column_polys(next@), ch@),
            ch.curve(),
        ),
    decreases e,
{
    let ghost cp = column_polys(cols@);
    let ghost np = column_polys(next@);
    let ghost m = field::order(ch.curve());
    let curve: CurveType = ch.curve_type();
    proof {
        field::lemma_order(curve);
    }
    match e {
        Expr::Col(c) => copy_scalars(&cols[*c]),
        Expr::Next(k) => copy_scalars(&next[*k]),
        Expr::Const(x) => {
            let mut v: Vec<Scalar> = Vec::new();
            v.push(Scalar::from_u64(*x, curve));
            v
        },
        Expr::Challenge => {
            let mut v: Vec<Scalar> = Vec::new();
            v.push(*ch);
            v
        },
        Expr::Add(a, b) => {
            let x: Vec<Scalar> = eval_poly(a, cols, next, ch);
            let y: Vec<Scalar> = eval_poly(b, cols, next, ch);
            let res: Vec<Scalar> = poly_arith::poly_add(x.as_slice(), y.as_slice(), curve);
            proof {
                let (p, q) = (pv(**a, cp, np, ch@), pv(**b, cp, np, ch@));
                lemma_padd_cong(
                    poly_arith::values(x@),
                    p,
                    poly_arith::values(y@),
                    q,
                    m,
                );
                lemma_reduced_transfer(
                    res@,
                    poly_arith::padd(poly_arith::values(x@), poly_arith::values(y@)),
                    poly_arith::padd(p, q),
                    curve,
                );
            }
            res
        },
        Expr::Sub(a, b) => {
            let x: Vec<Scalar> = eval_poly(a, cols, next, ch);
            let y: Vec<Scalar> = eval_poly(b, cols, next, ch);
            let res: Vec<Scalar> = poly_arith::poly_sub(x.as_slice(), y.as_slice(), curve);
            proof {
                let (p, q) = (pv(**a, cp, np, ch@), pv(**b, cp, np, ch@));
                lemma_psub_cong(
                    poly_arith::values(x@),
                    p,
                    poly_arith::values(y@),
                    q,
                    m,
                );
                lemma_reduced_transfer(
                    res@,
                    poly_arith::psub(poly_arith::values(x@), poly_arith::values(y@)),
                    poly_arith::psub(p, q),
                    curve,
                );
            }
            res
        },
        Expr::Mul(a, b) => {
            let x: Vec<Scalar> = eval_poly(a, cols, next, ch);
            let y: Vec<Scalar> = eval_poly(b, cols, next, ch);
            proof {
                let l = (usize::MAX / 8) as nat;
                lemma_pv_len(**a, cp, np, ch@, l);
                lemma_pv_len(**b, cp, np, ch@, l);
                let (i, j) = (degree(**a), degree(**b));
                assert(i * l + j * l <= 4 * l) by (nonlinear_arith)
                    requires
                        i + j <= 4,
                        l >= 0,
                ;
                assert(4 * l + 2 < usize::MAX);
            }
            let res: Vec<Scalar> = poly_arith::poly_mul(x.as_slice(), y.as_slice(), curve);
            proof {
                let (p, q) = (pv(**a, cp, np, ch@), pv(**b, cp, np, ch@));
                lemma_pmul_cong(
                    poly_arith::values(x@),
                    p,
                    poly_arith::values(y@),
                    q,
                    m,
                );
                lemma_reduced_transfer(
                    res@,
                    poly_arith::pmul(poly_arith::values(x@), poly_arith::values(y@)),
                    poly_arith::pmul(p, q),
                    curve,
                );
            }
            res
        },
    }
}

/// Coefficientwise congruence.
pub open spec fn pcong(p: Seq<int>, q: Seq<int>, m: int) -> bool {
    p.len() == q.len() && forall|i: int|
        0 <= i < p.len() ==> modular::cong(#[trigger] p[i], q[i], m)
}

pub proof fn lemma_padd_cong(a: Seq<int>, a2: Seq<int>, b: Seq<int>, b2: Seq<int>, m: int)
    requires
        m > 0,
        pcong(a, a2, m),
        pcong(b, b2, m),
    ensures
        pcong(poly_arith::padd(a, b), poly_arith::padd(a2, b2), m),
{
    let (p, q) = (poly_arith::padd(a, b), poly_arith::padd(a2, b2));
    assert forall|i: int| 0 <= i < p.len() implies modular::cong(#[trigger] p[i], q[i], m) by {
        modular::lemma_cong_add(
            poly_arith::coeff(a, i),
            poly_arith::coeff(a2, i),
            poly_arith::coeff(b, i),
            poly_arith::coeff(b2, i),
            m,
        );
    }
}

pub proof fn lemma_psub_cong(a: Seq<int>, a2: Seq<int>, b: Seq<int>, b2: Seq<int>, m: int)
    requires
        m > 0,
        pcong(a, a2, m),
        pcong(b, b2, m),
    ensures
        pcong(poly_arith::psub(a, b), poly_arith::psub(a2, b2), m),
{
    let (p, q) = (poly_arith::psub(a, b), poly_arith::psub(a2, b2));
    assert forall|i: int| 0 <= i < p.len() implies modular::cong(#[trigger] p[i], q[i], m) by {
        modular::lemma_cong_sub(
            poly_arith::coeff(a, i),
            poly_arith::coeff(a2, i),
            poly_arith::coeff(b, i),
            poly_arith::coeff(b2, i),
            m,
        );
    }
}

pub proof fn lemma_pscale_cong(a: Seq<int>, a2: Seq<int>, k: int, k2: int, m: int)
    requires
        m > 0,
        pcong(a, a2, m),
        modular::cong(k, k2, m),
    ensures
        pcong(poly_arith::pscale(a, k), poly_arith::pscale(a2, k2), m),
{
    let (p, q) = (poly_arith::pscale(a, k), poly_arith::pscale(a2, k2));
    assert forall|i: int| 0 <= i < p.len() implies modular::cong(#[trigger] p[i], q[i], m) by {
        assert(modular::cong(a[i], a2[i], m));
        modular::lemma_cong_mul(a[i], a2[i], k, k2, m);
    }
}

pub proof fn lemma_pmul_cong(a: Seq<int>, a2: Seq<int>, b: Seq<int>, b2: Seq<int>, m: int)
    requires
        m > 0,
        pcong(a, a2, m),
        pcong(b, b2, m),
    ensures
        pcong(poly_arith::pmul(a, b), poly_arith::pmul(a2, b2), m),
    decreases a.len(),
{
    if a.len() > 0 && b.len() > 0 {
        assert(pcong(a.skip(1), a2.skip(1), m)) by {
            assert forall|i: int| 0 <= i < a.skip(1).len() implies modular::cong(
                #[trigger] a.skip(1)[i],
                a2.skip(1)[i],
                m,
            ) by {
                assert(modular::cong(a[i + 1], a2[i + 1], m));
            }
        }
        lemma_pmul_cong(a.skip(1), a2.skip(1), b, b2, m);
        assert(modular::cong(a[0], a2[0], m));
        lemma_pscale_cong(b, b2, a[0], a2[0], m);
        let (t, t2) = (poly_arith::pmul(a.skip(1), b), poly_arith::pmul(a2.skip(1), b2));
        let (x, x2) = (poly_arith::ptimes_x(t), poly_arith::ptimes_x(t2));
        assert(pcong(x, x2, m)) by {
            assert forall|i: int| 0 <= i < x.len() implies modular::cong(
                #[trigger] x[i],
                x2[i],
                m,
            ) by {
                if i > 0 {
                    assert(modular::cong(t[i - 1], t2[i - 1], m));
                }
            }
        }
        lemma_padd_cong(poly_arith::pscale(b, a[0]), poly_arith::pscale(b2, a2[0]), x, x2, m);
    }
}

/// Reduced coefficients represent every congruent polynomial.
pub proof fn lemma_reduced_transfer(
    v: Seq<Scalar>,
    p: Seq<int>,
    q: Seq<int>,
    curve: CurveType,
)
    requires
        poly_arith::reduced(v, p, curve),
        pcong(p, q, field::order(curve)),
    ensures
        poly_arith::reduced(v, q, curve),
        poly_arith::represents(v, q, curve),
{
    assert forall|i: int| 0 <= i < v.len() implies (#[trigger] v[i]).is(curve, q[i]) by {
        assert(v[i].is(curve, p[i]));
        assert(modular::cong(p[i], q[i], field::order(curve)));
    }
    poly_arith::lemma_reduced_represents(v, q, curve);
}

/// Congruent columns give congruent polynomials.
pub proof fn lemma_pv_cong(
    e: Expr,
    cols: Seq<Seq<int>>,
    next: Seq<Seq<int>>,
    next2: Seq<Seq<int>>,
    ch: int,
    m: int,
)
    requires
        m > 0,
        within(e, cols.len(), next.len()),
        next.len() == next2.len(),
        forall|k: int| 0 <= k < next.len() ==> pcong(#[trigger] next[k], next2[k], m),
    ensures
        pcong(pv(e, cols, next, ch), pv(e, cols, next2, ch), m),
    decreases e,
{
    match e {
        Expr::Col(_) => {},
        Expr::Next(k) => {
            assert(pcong(next[k as int], next2[k as int], m));
        },
        Expr::Const(_) => {},
        Expr::Challenge => {},
        Expr::Add(a, b) => {
            lemma_pv_cong(*a, cols, next, next2, ch, m);
            lemma_pv_cong(*b, cols, next, next2, ch, m);
            lemma_padd_cong(
                pv(*a, cols, next, ch),
                pv(*a, cols, next2, ch),
                pv(*b, cols, next, ch),
                pv(*b, cols, next2, ch),
                m,
            );
        },
        Expr::Sub(a, b) => {
            lemma_pv_cong(*a, cols, next, next2, ch, m);
            lemma_pv_cong(*b, cols, next, next2, ch, m);
            lemma_psub_cong(
                pv(*a, cols, next, ch),
                pv(*a, cols, next2, ch),
                pv(*b, cols, next, ch),
                pv(*b, cols, next2, ch),
                m,
            );
        },
        Expr::Mul(a, b) => {
            lemma_pv_cong(*a, cols, next, next2, ch, m);
            lemma_pv_cong(*b, cols, next, next2, ch, m);
            lemma_pmul_cong(
                pv(*a, cols, next, ch),
                pv(*a, cols, next2, ch),
                pv(*b, cols, next, ch),
                pv(*b, cols, next2, ch),
                m,
            );
        },
    }
}

/// A copy of a vector of scalars.
pub fn copy_scalars(v: &Vec<Scalar>) -> (r: Vec<Scalar>)
    ensures
        r@ == v@,
{
    let mut out: Vec<Scalar> = Vec::with_capacity(v.len());
    let mut i: usize = 0;
    while i < v.len()
        invariant
            i <= v.len(),
            out@ =~= v@.take(i as int),
        decreases v.len() - i,
    {
        out.push(v[i]);
        i = i + 1;
    }
    assert(v@.take(v.len() as int) =~= v@);
    out
}

} // verus!
