//! Polynomials with coefficients in a scalar field, lowest degree first.
//!
//! The specifications speak of polynomials over the integers. A vector of
//! scalars represents such a polynomial when its coefficients are congruent
//! modulo the order of the curve.

use crate::field;
use crate::field::{CurveType, Scalar};
use crate::modular;
use vstd::arithmetic::div_mod::*;
use vstd::prelude::*;

verus! {

/// Coefficient `i`, zero beyond the last one.
pub open spec fn coeff(p: Seq<int>, i: int) -> int {
    if 0 <= i < p.len() {
        p[i]
    } else {
        0
    }
}

pub open spec fn longer(a: nat, b: nat) -> nat {
    if a < b {
        b
    } else {
        a
    }
}

/// Sum of polynomials.
pub open spec fn padd(a: Seq<int>, b: Seq<int>) -> Seq<int> {
    Seq::new(longer(a.len(), b.len()), |i: int| coeff(a, i) + coeff(b, i))
}

/// Difference of polynomials.
pub open spec fn psub(a: Seq<int>, b: Seq<int>) -> Seq<int> {
    Seq::new(longer(a.len(), b.len()), |i: int| coeff(a, i) - coeff(b, i))
}

/// Polynomial times a number.
pub open spec fn pscale(a: Seq<int>, k: int) -> Seq<int> {
    Seq::new(a.len(), |i: int| a[i] * k)
}

/// Polynomial times `x`.
pub open spec fn ptimes_x(a: Seq<int>) -> Seq<int> {
    seq![0int] + a
}

/// Product of polynomials; without coefficients if one factor has none.
pub open spec fn pmul(a: Seq<int>, b: Seq<int>) -> Seq<int>
    decreases a.len(),
{
    if a.len() == 0 || b.len() == 0 {
        Seq::empty()
    } else {
        padd(pscale(b, a[0]), ptimes_x(pmul(a.skip(1), b)))
    }
}

/// `p(w x)`.
pub open spec fn pshift(a: Seq<int>, w: int) -> Seq<int> {
    Seq::new(a.len(), |i: int| a[i] * modular::ipow(w, i as nat))
}

/// Value of a polynomial at a point: the sum of `p[i] z^i`.
pub open spec fn peval(p: Seq<int>, z: int) -> int
    decreases p.len(),
{
    if p.len() == 0 {
        0
    } else {
        p[0] + z * peval(p.skip(1), z)
    }
}

/// Sum of the polynomials `ps[i]` weighted by `a^i`.
pub open spec fn pcombine(ps: Seq<Seq<int>>, a: int) -> Seq<int>
    decreases ps.len(),
{
    if ps.len() == 0 {
        seq![0int]
    } else {
        padd(ps[0], pscale(pcombine(ps.skip(1), a), a))
    }
}

/// The integers that the scalars of a sequence hold.
pub open spec fn values(v: Seq<Scalar>) -> Seq<int> {
    Seq::new(v.len(), |i: int| v[i]@)
}

/// All scalars of a sequence lie on one curve.
pub open spec fn on_curve(v: Seq<Scalar>, curve: CurveType) -> bool {
    forall|i: int| 0 <= i < v.len() ==> (#[trigger] v[i]).curve() == curve
}

/// The same scalars one by one.
pub open spec fn same_scalars(v: Seq<Scalar>, w: Seq<Scalar>) -> bool {
    &&& v.len() == w.len()
    &&& forall|i: int|
        0 <= i < v.len() ==> (#[trigger] v[i]).curve() == w[i].curve() && v[i]@ == w[i]@
}

/// The scalars represent the polynomial `p`.
pub open spec fn represents(v: Seq<Scalar>, p: Seq<int>, curve: CurveType) -> bool {
    &&& v.len() == p.len()
    &&& forall|i: int|
        0 <= i < v.len() ==> (#[trigger] v[i]).curve() == curve && modular::cong(
            v[i]@,
            p[i],
            field::order(curve),
        )
}

/// The scalars represent `p`, each in its reduced form.
pub open spec fn reduced(v: Seq<Scalar>, p: Seq<int>, curve: CurveType) -> bool {
    &&& v.len() == p.len()
    &&& forall|i: int| 0 <= i < v.len() ==> (#[trigger] v[i]).is(curve, p[i])
}

pub proof fn lemma_reduced_represents(v: Seq<Scalar>, p: Seq<int>, curve: CurveType)
    requires
        reduced(v, p, curve),
    ensures
        represents(v, p, curve),
{
    field::lemma_order(curve);
    assert forall|i: int| 0 <= i < v.len() implies (#[trigger] v[i]).curve() == curve
        && modular::cong(v[i]@, p[i], field::order(curve)) by {
        assert(v[i].is(curve, p[i]));
        modular::lemma_cong_rem(p[i], field::order(curve));
    }
}

/// Sum of two polynomials.
pub fn poly_add(a: &[Scalar], b: &[Scalar], curve: CurveType) -> (r: Vec<Scalar>)
    requires
        on_curve(a@, curve),
        on_curve(b@, curve),
    ensures
        reduced(r@, padd(values(a@), values(b@)), curve),
{
    let n: usize = if a.len() < b.len() {
        b.len()
    } else {
        a.len()
    };
    let mut out: Vec<Scalar> = Vec::with_capacity(n);
    let mut i: usize = 0;
    let ghost p = padd(values(a@), values(b@));
    while i < n
        invariant
            i <= n,
            n == longer(a.len() as nat, b.len() as nat),
            on_curve(a@, curve),
            on_curve(b@, curve),
            p == padd(values(a@), values(b@)),
            out.len() == i,
            forall|j: int| 0 <= j < i ==> (#[trigger] out@[j]).is(curve, p[j]),
        decreases n - i,
    {
        let x: Scalar = if i < a.len() {
            a[i]
        } else {
            Scalar::zero(curve)
        };
        let y: Scalar = if i < b.len() {
            b[i]
        } else {
            Scalar::zero(curve)
        };
        out.push(x.add(&y));
        i = i + 1;
    }
    out
}

/// Difference of two polynomials.
pub fn poly_sub(a: &[Scalar], b: &[Scalar], curve: CurveType) -> (r: Vec<Scalar>)
    requires
        on_curve(a@, curve),
        on_curve(b@, curve),
    ensures
        reduced(r@, psub(values(a@), values(b@)), curve),
{
    let n: usize = if a.len() < b.len() {
        b.len()
    } else {
        a.len()
    };
    let mut out: Vec<Scalar> = Vec::with_capacity(n);
    let mut i: usize = 0;
    let ghost p = psub(values(a@), values(b@));
    while i < n
        invariant
            i <= n,
            n == longer(a.len() as nat, b.len() as nat),
            on_curve(a@, curve),
            on_curve(b@, curve),
            p == psub(values(a@), values(b@)),
            out.len() == i,
            forall|j: int| 0 <= j < i ==> (#[trigger] out@[j]).is(curve, p[j]),
        decreases n - i,
    {
        let x: Scalar = if i < a.len() {
            a[i]
        } else {
            Scalar::zero(curve)
        };
        let y: Scalar = if i < b.len() {
            b[i]
        } else {
            Scalar::zero(curve)
        };
        out.push(x.sub(&y));
        i = i + 1;
    }
    out
}

/// A polynomial times a scalar.
pub fn poly_scalar_mul(a: &[Scalar], k: &Scalar) -> (r: Vec<Scalar>)
    requires
        on_curve(a@, k.curve()),
    ensures
        reduced(r@, pscale(values(a@), k@), k.curve()),
{
    let mut out: Vec<Scalar> = Vec::with_capacity(a.len());
    let mut i: usize = 0;
    let ghost p = pscale(values(a@), k@);
    while i < a.len()
        invariant
            i <= a.len(),
            on_curve(a@, k.curve()),
            p == pscale(values(a@), k@),
            out.len() == i,
            forall|j: int| 0 <= j < i ==> (#[trigger] out@[j]).is(k.curve(), p[j]),
        decreases a.len() - i,
    {
        out.push(a[i].mul(k));
        i = i + 1;
    }
    out
}

/// The polynomial `p(w x)`.
pub fn poly_shift(a: &[Scalar], w: &Scalar) -> (r: Vec<Scalar>)
    requires
        on_curve(a@, w.curve()),
    ensures
        reduced(r@, pshift(values(a@), w@), w.curve()),
{
    let curve: CurveType = w.curve_type();
    let mut out: Vec<Scalar> = Vec::with_capacity(a.len());
    let mut power: Scalar = Scalar::one(curve);
    let mut i: usize = 0;
    let ghost p = pshift(values(a@), w@);
    let ghost m = field::order(curve);
    proof {
        field::lemma_order(curve);
    }
    while i < a.len()
        invariant
            i <= a.len(),
            curve == w.curve(),
            m == field::order(curve),
            m > 0,
            on_curve(a@, curve),
            power.curve() == curve,
            modular::cong(power@, modular::ipow(w@, i as nat), m),
            p == pshift(values(a@), w@),
            out.len() == i,
            forall|j: int| 0 <= j < i ==> (#[trigger] out@[j]).is(curve, p[j]),
        decreases a.len() - i,
    {
        proof {
            let e = modular::ipow(w@, i as nat);
            modular::lemma_cong_mul(a@[i as int]@, a@[i as int]@, power@, e, m);
            modular::lemma_cong_mul(w@, w@, power@, e, m);
            assert(power@ * w@ == w@ * power@) by (nonlinear_arith);
            modular::lemma_cong_rem(power@ * w@, m);
        }
        out.push(a[i].mul(&power));
        power = power.mul(w);
        i = i + 1;
    }
    out
}

/// Product of two polynomials.
pub fn poly_mul(a: &[Scalar], b: &[Scalar], curve: CurveType) -> (r: Vec<Scalar>)
    requires
        on_curve(a@, curve),
        on_curve(b@, curve),
        a.len() + b.len() < usize::MAX,
    ensures
        reduced(r@, pmul(values(a@), values(b@)), curve),
{
    if a.len() == 0 || b.len() == 0 {
        return Vec::new();
    }
    let mut acc: Vec<Scalar> = Vec::new();
    let ghost pa = values(a@);
    let ghost pb = values(b@);
    let ghost m = field::order(curve);
    proof {
        field::lemma_order(curve);
        assert(pa.skip(a@.len() as int).len() == 0);
    }
    let mut i: usize = a.len();
    while i > 0
        invariant
            i <= a.len(),
            a.len() > 0,
            b.len() > 0,
            a.len() + b.len() < usize::MAX,
            on_curve(a@, curve),
            on_curve(b@, curve),
            pa == values(a@),
            pb == values(b@),
            m == field::order(curve),
            m > 0,
            reduced(acc@, pmul(pa.skip(i as int), pb), curve),
            acc.len() <= a.len() + b.len(),
        decreases i,
    {
        i = i - 1;
        let ghost tail = pmul(pa.skip(i + 1), pb);
        let ghost head = pa.skip(i as int);
        proof {
            assert(head.skip(1) =~= pa.skip(i + 1));
            assert(head[0] == pa[i as int]);
            lemma_pmul_len(pa.skip(i + 1), pb);
            lemma_pmul_len(head, pb);
        }
        let n: usize = if b.len() < acc.len() + 1 {
            acc.len() + 1
        } else {
            b.len()
        };
        let ghost p = pmul(head, pb);
        let mut out: Vec<Scalar> = Vec::with_capacity(n);
        let mut j: usize = 0;
        while j < n
            invariant
                j <= n,
                i < a.len(),
                b.len() > 0,
                n == longer(b.len() as nat, (acc.len() + 1) as nat),
                on_curve(a@, curve),
                on_curve(b@, curve),
                pa == values(a@),
                pb == values(b@),
                m == field::order(curve),
                m > 0,
                reduced(acc@, tail, curve),
                p == padd(pscale(pb, pa[i as int]), ptimes_x(tail)),
                out.len() == j,
                forall|k: int| 0 <= k < j ==> (#[trigger] out@[k]).is(curve, p[k]),
            decreases n - j,
        {
            let x: Scalar = if j < b.len() {
                b[j].mul(&a[i])
            } else {
                Scalar::zero(curve)
            };
            let y: Scalar = if 0 < j && j <= acc.len() {
                acc[j - 1]
            } else {
                Scalar::zero(curve)
            };
            proof {
                let u = coeff(pscale(pb, pa[i as int]), j as int);
                let v = coeff(ptimes_x(tail), j as int);
                if j < b.len() {
                    modular::lemma_cong_rem(u, m);
                }
                if 0 < j && j <= acc.len() {
                    assert(acc@[j - 1].is(curve, tail[j - 1]));
                    modular::lemma_cong_rem(v, m);
                }
                modular::lemma_cong_add(x@, u, y@, v, m);
            }
            out.push(x.add(&y));
            j = j + 1;
        }
        acc = out;
    }
    proof {
        assert(pa.skip(0) =~= pa);
    }
    acc
}

/// Degree bookkeeping of [`pmul`].
pub proof fn lemma_pmul_len(a: Seq<int>, b: Seq<int>)
    ensures
        a.len() == 0 || b.len() == 0 ==> pmul(a, b).len() == 0,
        a.len() > 0 && b.len() > 0 ==> pmul(a, b).len() == a.len() + b.len() - 1,
    decreases a.len(),
{
    if a.len() > 0 {
        lemma_pmul_len(a.skip(1), b);
    }
}

/// Evaluation of a sum.
pub proof fn lemma_peval_add(a: Seq<int>, b: Seq<int>, z: int)
    ensures
        peval(padd(a, b), z) == peval(a, z) + peval(b, z),
    decreases a.len() + b.len(),
{
    let s = padd(a, b);
    if a.len() == 0 && b.len() == 0 {
    } else if a.len() == 0 {
        assert(s =~= b);
    } else if b.len() == 0 {
        assert(s =~= a);
    } else {
        lemma_peval_add(a.skip(1), b.skip(1), z);
        assert(s.skip(1) =~= padd(a.skip(1), b.skip(1)));
        let (x, y) = (peval(a.skip(1), z), peval(b.skip(1), z));
        assert(z * (x + y) == z * x + z * y) by (nonlinear_arith);
    }
}

/// Evaluation of a difference.
pub proof fn lemma_peval_sub(a: Seq<int>, b: Seq<int>, z: int)
    ensures
        peval(psub(a, b), z) == peval(a, z) - peval(b, z),
    decreases a.len() + b.len(),
{
    let s = psub(a, b);
    if a.len() == 0 && b.len() == 0 {
    } else {
        let a1 = if a.len() > 0 { a.skip(1) } else { a };
        let b1 = if b.len() > 0 { b.skip(1) } else { b };
        lemma_peval_sub(a1, b1, z);
        assert(s.skip(1) =~= psub(a1, b1));
        let (x, y) = (peval(a1, z), peval(b1, z));
        assert(z * (x - y) == z * x - z * y) by (nonlinear_arith);
        assert(z * 0 == 0) by (nonlinear_arith);
    }
}

/// Evaluation of a multiple.
pub proof fn lemma_peval_scale(a: Seq<int>, k: int, z: int)
    ensures
        peval(pscale(a, k), z) == peval(a, z) * k,
    decreases a.len(),
{
    if a.len() == 0 {
        assert(0 * k == 0) by (nonlinear_arith);
    } else {
        lemma_peval_scale(a.skip(1), k, z);
        assert(pscale(a, k).skip(1) =~= pscale(a.skip(1), k));
        let (h, x) = (a[0], peval(a.skip(1), z));
        assert(h * k + z * (x * k) == (h + z * x) * k) by (nonlinear_arith);
    }
}

/// Evaluation of a product.
pub proof fn lemma_peval_mul(a: Seq<int>, b: Seq<int>, z: int)
    ensures
        peval(pmul(a, b), z) == peval(a, z) * peval(b, z),
    decreases a.len(),
{
    let y = peval(b, z);
    if a.len() == 0 {
        assert(0 * y == 0) by (nonlinear_arith);
    } else if b.len() == 0 {
        assert(peval(a, z) * 0 == 0) by (nonlinear_arith);
    } else {
        let t = pmul(a.skip(1), b);
        lemma_peval_mul(a.skip(1), b, z);
        lemma_peval_add(pscale(b, a[0]), ptimes_x(t), z);
        lemma_peval_scale(b, a[0], z);
        assert(ptimes_x(t).skip(1) =~= t);
        let (h, x) = (a[0], peval(a.skip(1), z));
        assert(y * h + (0 + z * (x * y)) == (h + z * x) * y) by (nonlinear_arith);
    }
}

/// Evaluation of `p(w x)`.
pub proof fn lemma_peval_shift(a: Seq<int>, w: int, z: int)
    ensures
        peval(pshift(a, w), z) == peval(a, w * z),
{
    lemma_peval_shift_from(a, w, z, 0);
    assert(Seq::new(a.len(), |i: int| a[i] * modular::ipow(w, (i + 0) as nat)) =~= pshift(a, w));
    assert(1 * peval(a, w * z) == peval(a, w * z)) by (nonlinear_arith);
}

proof fn lemma_peval_shift_from(a: Seq<int>, w: int, z: int, k: nat)
    ensures
        peval(Seq::new(a.len(), |i: int| a[i] * modular::ipow(w, (i + k) as nat)), z)
            == modular::ipow(w, k) * peval(a, w * z),
    decreases a.len(),
{
    let s = Seq::new(a.len(), |i: int| a[i] * modular::ipow(w, (i + k) as nat));
    let p = modular::ipow(w, k);
    if a.len() == 0 {
        assert(p * 0 == 0) by (nonlinear_arith);
    } else {
        lemma_peval_shift_from(a.skip(1), w, z, k + 1);
        assert(s.skip(1) =~= Seq::new(
            a.skip(1).len(),
            |i: int| a.skip(1)[i] * modular::ipow(w, (i + (k + 1)) as nat),
        ));
        let (h, x) = (a[0], peval(a.skip(1), w * z));
        assert(modular::ipow(w, k + 1) == w * p);
        assert(h * p + z * ((w * p) * x) == p * (h + (w * z) * x)) by (nonlinear_arith);
    }
}

/// Evaluation of a weighted sum of polynomials.
pub proof fn lemma_peval_combine(ps: Seq<Seq<int>>, a: int, z: int)
    ensures
        peval(pcombine(ps, a), z) == peval(Seq::new(ps.len(), |i: int| peval(ps[i], z)), a),
    decreases ps.len(),
{
    let vs = Seq::new(ps.len(), |i: int| peval(ps[i], z));
    if ps.len() == 0 {
        assert(seq![0int].skip(1).len() == 0);
        assert(z * 0 == 0) by (nonlinear_arith);
        assert(peval(seq![0int].skip(1), z) == 0);
    } else {
        lemma_peval_combine(ps.skip(1), a, z);
        assert(vs.skip(1) =~= Seq::new(ps.skip(1).len(), |i: int| peval(ps.skip(1)[i], z)));
        lemma_peval_add(ps[0], pscale(pcombine(ps.skip(1), a), a), z);
        lemma_peval_scale(pcombine(ps.skip(1), a), a, z);
        let x = peval(vs.skip(1), a);
        assert(x * a == a * x) by (nonlinear_arith);
    }
}

/// Congruent coefficients and points give congruent values.
pub proof fn lemma_peval_cong(p: Seq<int>, q: Seq<int>, y: int, z: int, m: int)
    requires
        m > 0,
        p.len() == q.len(),
        forall|i: int| 0 <= i < p.len() ==> modular::cong(#[trigger] p[i], q[i], m),
        modular::cong(y, z, m),
    ensures
        modular::cong(peval(p, y), peval(q, z), m),
    decreases p.len(),
{
    if p.len() > 0 {
        assert forall|i: int| 0 <= i < p.skip(1).len() implies modular::cong(
            #[trigger] p.skip(1)[i],
            q.skip(1)[i],
            m,
        ) by {
            assert(modular::cong(p[i + 1], q[i + 1], m));
        }
        lemma_peval_cong(p.skip(1), q.skip(1), y, z, m);
        let (x, w) = (peval(p.skip(1), y), peval(q.skip(1), z));
        modular::lemma_cong_mul(y, z, x, w, m);
        assert(modular::cong(p[0], q[0], m));
        modular::lemma_cong_add(p[0], q[0], y * x, z * w, m);
    }
}

/// The scalars of the reduced form of a polynomial take at every point the
/// value of the polynomial, modulo the order.
pub proof fn law_reduced_value(v: Seq<Scalar>, p: Seq<int>, curve: CurveType, z: int)
    requires
        reduced(v, p, curve),
    ensures
        modular::cong(peval(values(v), z), peval(p, z), field::order(curve)),
{
    field::lemma_order(curve);
    lemma_reduced_represents(v, p, curve);
    let x = values(v);
    assert forall|i: int| 0 <= i < x.len() implies modular::cong(
        #[trigger] x[i],
        p[i],
        field::order(curve),
    ) by {
        assert(v[i].curve() == curve);
    }
    lemma_peval_cong(x, p, z, z, field::order(curve));
}

/// A polynomial has one reduced form.
pub proof fn law_reduced_unique(v: Seq<Scalar>, w: Seq<Scalar>, p: Seq<int>, curve: CurveType)
    requires
        reduced(v, p, curve),
        reduced(w, p, curve),
    ensures
        same_scalars(v, w),
{
    assert forall|i: int| 0 <= i < v.len() implies (#[trigger] v[i]).curve() == w[i].curve()
        && v[i]@ == w[i]@ by {
        assert(v[i].is(curve, p[i]));
        assert(w[i].is(curve, p[i]));
    }
}

/// The operations on polynomials are those on their values: sum, difference,
/// multiple and product of the values at a point, the value at a multiple of
/// the point, and the sum of the values weighted by the powers of `k`.
pub proof fn law_values_of_operations(
    a: Seq<int>,
    b: Seq<int>,
    ps: Seq<Seq<int>>,
    k: int,
    z: int,
)
    ensures
        peval(padd(a, b), z) == peval(a, z) + peval(b, z),
        peval(psub(a, b), z) == peval(a, z) - peval(b, z),
        peval(pscale(a, k), z) == peval(a, z) * k,
        peval(pmul(a, b), z) == peval(a, z) * peval(b, z),
        peval(pshift(a, k), z) == peval(a, k * z),
        peval(pcombine(ps, k), z) == peval(Seq::new(ps.len(), |i: int| peval(ps[i], z)), k),
        a.len() > 0 && b.len() > 0 ==> pmul(a, b).len() == a.len() + b.len() - 1,
{
    lemma_peval_add(a, b, z);
    lemma_peval_sub(a, b, z);
    lemma_peval_scale(a, k, z);
    lemma_peval_mul(a, b, z);
    lemma_peval_shift(a, k, z);
    lemma_peval_combine(ps, k, z);
    lemma_pmul_len(a, b);
}

/// The value of a polynomial is the sum of its coefficients times the powers of
/// the point, the lowest power first.
pub proof fn law_value_is_power_sum(p: Seq<int>, c: int, z: int)
    ensures
        peval(Seq::empty(), z) == 0,
        peval(p.push(c), z) == peval(p, z) + c * modular::ipow(z, p.len()),
        modular::ipow(z, 0) == 1,
        modular::ipow(z, p.len() + 1) == z * modular::ipow(z, p.len()),
    decreases p.len(),
{
    let q = p.push(c);
    if p.len() == 0 {
        assert(q.skip(1) =~= Seq::empty());
        assert(peval(q.skip(1), z) == 0);
        assert(q[0] == c);
        assert(peval(p, z) == 0);
        assert(z * 0 == 0 && c * 1 == c) by (nonlinear_arith);
    } else {
        law_value_is_power_sum(p.skip(1), c, z);
        assert(q.skip(1) =~= p.skip(1).push(c));
        let (x, y) = (peval(p.skip(1), z), modular::ipow(z, (p.len() - 1) as nat));
        assert(z * (x + c * y) == z * x + c * (z * y)) by (nonlinear_arith);
        assert(q[0] == p[0]);
        assert(modular::ipow(z, p.len()) == z * y);
    }
}

} // verus!
