//! The final exponentiation of the BLS12-381 pairing.

use crate::limbs;
use crate::nonnative_fp;
use crate::nonnative_fp::Fp;
use crate::nonnative_tower::Fp12;
use vstd::prelude::*;

verus! {

/// The twelve coefficients of an element of the tower, each as its limbs.
pub open spec fn tower_limbs(f: [[[[u64; 6]; 2]; 3]; 2]) -> Seq<Seq<u64>> {
    Seq::new(12, |i: int| f@[i / 6]@[i % 6 / 2]@[i % 2]@)
}

/// What `blst_fp12::final_exp` makes of the limbs of an element: twelve
/// coefficients in Montgomery form, six limbs each, least significant first.
pub uninterp spec fn blst_final_exp(f: Seq<Seq<u64>>) -> Seq<Seq<u64>>;

/// `blst_fp12::final_exp` on coefficients in Montgomery form: the element
/// raised to the power of the final exponentiation, again in Montgomery form.
/// The contract says that the result depends on the coefficients alone; it
/// does not say what it is.
#[verifier::external_body]
fn fp12_final_exp(f: &[[[[u64; 6]; 2]; 3]; 2]) -> (r: [[[[u64; 6]; 2]; 3]; 2])
    requires
        forall|i: int|
            0 <= i < 12 ==> limbs::value(#[trigger] tower_limbs(*f)[i]) < nonnative_fp::prime(),
    ensures
        tower_limbs(r) == blst_final_exp(tower_limbs(*f)),
{
    let fp6 = f.map(|c6| blst::blst_fp6 {
        fp2: c6.map(|c2| blst::blst_fp2 { fp: c2.map(|l| blst::blst_fp { l }) }),
    });
    let out = blst::blst_fp12 { fp6 }.final_exp();
    out.fp6.map(|c6| c6.fp2.map(|c2| c2.fp.map(|c| c.l)))
}

/// The limbs of the coefficients in Montgomery form.
pub open spec fn montgomery_limbs(f: Fp12, s: Seq<Seq<u64>>) -> bool {
    &&& s.len() == 12
    &&& forall|i: int|
        0 <= i < 12 ==> {
            &&& (#[trigger] s[i]).len() == 6
            &&& limbs::value(s[i]) == (nonnative_fp::montgomery() * f.coefficient(i).value())
                % nonnative_fp::prime()
        }
}

/// The element with the given coefficients in Montgomery form.
pub open spec fn from_montgomery_limbs(s: Seq<Seq<u64>>, r: Fp12) -> bool {
    forall|i: int|
        0 <= i < 12 ==> (#[trigger] r.coefficient(i)).value() == (
        nonnative_fp::montgomery_inverse() * limbs::value(s[i])) % nonnative_fp::prime()
}

/// `r` is the final exponentiation of `f`.
pub open spec fn is_final_exponentiation(f: Fp12, r: Fp12) -> bool {
    exists|s: Seq<Seq<u64>>|
        #[trigger] montgomery_limbs(f, s) && from_montgomery_limbs(blst_final_exp(s), r)
}

/// An element has one final exponentiation.
pub proof fn law_final_exponentiation_unique(f: Fp12, a: Fp12, b: Fp12)
    requires
        is_final_exponentiation(f, a),
        is_final_exponentiation(f, b),
    ensures
        forall|i: int|
            0 <= i < 12 ==> (#[trigger] a.coefficient(i)).limbs@ == b.coefficient(i).limbs@,
{
    let s = choose|s: Seq<Seq<u64>>| #[trigger]
        montgomery_limbs(f, s) && from_montgomery_limbs(blst_final_exp(s), a);
    let t = choose|t: Seq<Seq<u64>>| #[trigger]
        montgomery_limbs(f, t) && from_montgomery_limbs(blst_final_exp(t), b);
    assert forall|i: int| 0 <= i < 12 implies s[i] == t[i] by {
        assert(s[i].len() == 6);
        assert(t[i].len() == 6);
        limbs::lemma_value_injective(s[i], t[i]);
    }
    assert(s =~= t);
    assert forall|i: int| 0 <= i < 12 implies (#[trigger] a.coefficient(i)).limbs@ == b.coefficient(
        i,
    ).limbs@ by {
        assert(b.coefficient(i).value() == a.coefficient(i).value());
        nonnative_fp::lemma_limbs_injective(a.coefficient(i), b.coefficient(i));
    }
}

/// The final exponentiation, by `blst`.
pub fn final_exponentiation(f: &Fp12) -> (r: Fp12)
    ensures
        r.valid(),
        is_final_exponentiation(*f, r),
{
    let m: [[[[u64; 6]; 2]; 3]; 2] = [
        [
            [f.c0.c0.c0.to_montgomery(), f.c0.c0.c1.to_montgomery()],
            [f.c0.c1.c0.to_montgomery(), f.c0.c1.c1.to_montgomery()],
            [f.c0.c2.c0.to_montgomery(), f.c0.c2.c1.to_montgomery()],
        ],
        [
            [f.c1.c0.c0.to_montgomery(), f.c1.c0.c1.to_montgomery()],
            [f.c1.c1.c0.to_montgomery(), f.c1.c1.c1.to_montgomery()],
            [f.c1.c2.c0.to_montgomery(), f.c1.c2.c1.to_montgomery()],
        ],
    ];
    let ghost s = tower_limbs(m);
    proof {
        assert forall|i: int| 0 <= i < 12 implies {
            &&& (#[trigger] s[i]).len() == 6
            &&& limbs::value(s[i]) == (nonnative_fp::montgomery() * f.coefficient(i).value())
                % nonnative_fp::prime()
            &&& limbs::value(s[i]) < nonnative_fp::prime()
        } by {
            assert(i == 0 || i == 1 || i == 2 || i == 3 || i == 4 || i == 5 || i == 6 || i == 7 || i
                == 8 || i == 9 || i == 10 || i == 11);
        }
    }
    let out: [[[[u64; 6]; 2]; 3]; 2] = fp12_final_exp(&m);
    let c: [Fp; 12] = [
        Fp::from_montgomery(&out[0][0][0]),
        Fp::from_montgomery(&out[0][0][1]),
        Fp::from_montgomery(&out[0][1][0]),
        Fp::from_montgomery(&out[0][1][1]),
        Fp::from_montgomery(&out[0][2][0]),
        Fp::from_montgomery(&out[0][2][1]),
        Fp::from_montgomery(&out[1][0][0]),
        Fp::from_montgomery(&out[1][0][1]),
        Fp::from_montgomery(&out[1][1][0]),
        Fp::from_montgomery(&out[1][1][1]),
        Fp::from_montgomery(&out[1][2][0]),
        Fp::from_montgomery(&out[1][2][1]),
    ];
    let r: Fp12 = Fp12::from_coefficients(&c);
    proof {
        let t = tower_limbs(out);
        assert forall|i: int| 0 <= i < 12 implies {
            &&& (#[trigger] r.coefficient(i)).value() == (nonnative_fp::montgomery_inverse()
                * limbs::value(t[i])) % nonnative_fp::prime()
            &&& r.coefficient(i).valid()
        } by {
            assert(i == 0 || i == 1 || i == 2 || i == 3 || i == 4 || i == 5 || i == 6 || i == 7 || i
                == 8 || i == 9 || i == 10 || i == 11);
        }
        assert(montgomery_limbs(*f, s) && from_montgomery_limbs(blst_final_exp(s), r));
    }
    r
}

/// The coefficients of an element of the tower in the order in which it nests
/// them.
pub proof fn law_tower_order(f: [[[[u64; 6]; 2]; 3]; 2])
    ensures
        tower_limbs(f).len() == 12,
        tower_limbs(f)[0] == f@[0]@[0]@[0]@,
        tower_limbs(f)[1] == f@[0]@[0]@[1]@,
        tower_limbs(f)[2] == f@[0]@[1]@[0]@,
        tower_limbs(f)[3] == f@[0]@[1]@[1]@,
        tower_limbs(f)[4] == f@[0]@[2]@[0]@,
        tower_limbs(f)[5] == f@[0]@[2]@[1]@,
        tower_limbs(f)[6] == f@[1]@[0]@[0]@,
        tower_limbs(f)[7] == f@[1]@[0]@[1]@,
        tower_limbs(f)[8] == f@[1]@[1]@[0]@,
        tower_limbs(f)[9] == f@[1]@[1]@[1]@,
        tower_limbs(f)[10] == f@[1]@[2]@[0]@,
        tower_limbs(f)[11] == f@[1]@[2]@[1]@,
{
}

} // verus!
