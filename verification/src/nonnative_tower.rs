//! The tower of extensions of the base field of BLS12-381.

use crate::nonnative_fp::Fp;
use vstd::prelude::*;

verus! {

#[derive(Clone, Copy, Debug, PartialEq, Eq)]
pub struct Fp2 {
    pub c0: Fp,
    pub c1: Fp,
}

#[derive(Clone, Copy, Debug, PartialEq, Eq)]
pub struct Fp6 {
    pub c0: Fp2,
    pub c1: Fp2,
    pub c2: Fp2,
}

#[derive(Clone, Copy, Debug, PartialEq, Eq)]
pub struct Fp12 {
    pub c0: Fp6,
    pub c1: Fp6,
}

impl Fp2 {
    pub open spec fn part(&self, i: int) -> Fp {
        if i == 0 {
            self.c0
        } else {
            self.c1
        }
    }
}

impl Fp6 {
    pub open spec fn part(&self, i: int) -> Fp2 {
        if i == 0 {
            self.c0
        } else if i == 1 {
            self.c1
        } else {
            self.c2
        }
    }
}

impl Fp12 {
    pub open spec fn part(&self, i: int) -> Fp6 {
        if i == 0 {
            self.c0
        } else {
            self.c1
        }
    }

    /// Coefficient `i` of twelve, from `c0.c0.c0` to `c1.c2.c1`.
    pub open spec fn coefficient(&self, i: int) -> Fp {
        self.part(i / 6).part(i % 6 / 2).part(i % 2)
    }

    /// All coefficients are below the prime.
    pub open spec fn valid(&self) -> bool {
        forall|i: int| 0 <= i < 12 ==> (#[trigger] self.coefficient(i)).valid()
    }

    /// Coefficient `i` of twelve.
    pub fn coefficient_at(&self, i: usize) -> (r: Fp)
        requires
            i < 12,
        ensures
            r == self.coefficient(i as int),
    {
        let half: Fp6 = if i / 6 == 0 {
            self.c0
        } else {
            self.c1
        };
        let pair: Fp2 = if i % 6 / 2 == 0 {
            half.c0
        } else if i % 6 / 2 == 1 {
            half.c1
        } else {
            half.c2
        };
        if i % 2 == 0 {
            pair.c0
        } else {
            pair.c1
        }
    }

    /// The element with the given coefficients.
    pub fn from_coefficients(c: &[Fp; 12]) -> (r: Self)
        ensures
            forall|i: int| 0 <= i < 12 ==> #[trigger] r.coefficient(i) == c@[i],
    {
        let r: Fp12 = Fp12 {
            c0: Fp6 {
                c0: Fp2 { c0: c[0], c1: c[1] },
                c1: Fp2 { c0: c[2], c1: c[3] },
                c2: Fp2 { c0: c[4], c1: c[5] },
            },
            c1: Fp6 {
                c0: Fp2 { c0: c[6], c1: c[7] },
                c1: Fp2 { c0: c[8], c1: c[9] },
                c2: Fp2 { c0: c[10], c1: c[11] },
            },
        };
        assert forall|i: int| 0 <= i < 12 implies #[trigger] r.coefficient(i) == c@[i] by {
            assert(i == 0 || i == 1 || i == 2 || i == 3 || i == 4 || i == 5 || i == 6 || i == 7 || i
                == 8 || i == 9 || i == 10 || i == 11);
        }
        r
    }

    /// The multiplicative identity.
    pub fn one() -> (r: Self)
        ensures
            r.valid(),
            forall|i: int|
                0 <= i < 12 ==> (#[trigger] r.coefficient(i)).value() == if i == 0 {
                    1int
                } else {
                    0int
                },
    {
        let z: Fp = Fp::zero();
        Self::from_coefficients(&[Fp::one(), z, z, z, z, z, z, z, z, z, z, z])
    }
}

/// The twelve coefficients in the order in which the tower nests them.
pub proof fn law_coefficients(f: Fp12)
    ensures
        f.coefficient(0) == f.c0.c0.c0,
        f.coefficient(1) == f.c0.c0.c1,
        f.coefficient(2) == f.c0.c1.c0,
        f.coefficient(3) == f.c0.c1.c1,
        f.coefficient(4) == f.c0.c2.c0,
        f.coefficient(5) == f.c0.c2.c1,
        f.coefficient(6) == f.c1.c0.c0,
        f.coefficient(7) == f.c1.c0.c1,
        f.coefficient(8) == f.c1.c1.c0,
        f.coefficient(9) == f.c1.c1.c1,
        f.coefficient(10) == f.c1.c2.c0,
        f.coefficient(11) == f.c1.c2.c1,
{
}

/// An element is its coefficients.
pub proof fn law_coefficients_determine(f: Fp12, g: Fp12)
    requires
        forall|i: int| 0 <= i < 12 ==> #[trigger] f.coefficient(i) == g.coefficient(i),
    ensures
        f == g,
{
    assert(f.coefficient(0) == g.coefficient(0));
    assert(f.coefficient(1) == g.coefficient(1));
    assert(f.coefficient(2) == g.coefficient(2));
    assert(f.coefficient(3) == g.coefficient(3));
    assert(f.coefficient(4) == g.coefficient(4));
    assert(f.coefficient(5) == g.coefficient(5));
    assert(f.coefficient(6) == g.coefficient(6));
    assert(f.coefficient(7) == g.coefficient(7));
    assert(f.coefficient(8) == g.coefficient(8));
    assert(f.coefficient(9) == g.coefficient(9));
    assert(f.coefficient(10) == g.coefficient(10));
    assert(f.coefficient(11) == g.coefficient(11));
}

} // verus!
