//! The multiplications of the final exponentiation, linked to the table of
//! base field multiplications.
//!
//! Easy and hard part are lists of phases. A phase is a run of multiplications
//! `c = a * b` between coefficients of the elements on a row of
//! [`crate::final_exp_air`]: which coefficients, is a matter of how it walks
//! over them.

use crate::cross_air_logup;
use crate::cross_air_logup::CrossAirLogUpDescriptor;
use crate::final_exp_air;
use crate::label;
use crate::label::decimal_string;
use crate::miller_fp_descriptors;
use crate::miller_fp_descriptors::make_fp_mul_descriptor;
use vstd::prelude::*;
use vstd::string::*;

pub use crate::miller_fp_descriptors::make_fp_mul_descriptor as make_final_exp_fp_mul_descriptor;

verus! {

/// The multiplications of the easy part. Their results lie in the easy part's
/// output or in the exported element.
pub const FINAL_EXP_EASY_WIRED_MULTS: usize = 410;

pub const FINAL_EXP_EASY_TOTAL_MULTS: usize = 410;

/// The multiplications of the hard part. Their results lie in the hard part's
/// output or in the exported element.
pub const FINAL_EXP_HARD_WIRED_MULTS: usize = 808;

pub const FINAL_EXP_HARD_TOTAL_MULTS: usize = 808;

/// The multiplications of a cyclotomic squaring.
pub const FINAL_EXP_GRANGER_SCOTT_WIRED_MULTS: usize = 18;

pub const FINAL_EXP_GRANGER_SCOTT_TOTAL_MULTS: usize = 18;

pub const PRE: usize = final_exp_air::COL_F_PRE_OFFSET;

pub const EASY: usize = final_exp_air::COL_F_EASY_OUT_OFFSET;

pub const HARD: usize = final_exp_air::COL_F_HARD_OUT_OFFSET;

pub const LAST: usize = final_exp_air::COL_F_FINAL_OFFSET;

pub const EASY_PHASES: usize = 36;

pub const HARD_PHASES: usize = 47;

// ─── Phases ───────────────────────────────────────────────────────────

/// How a phase walks over the twelve coefficients of an element.
#[derive(Clone, Copy)]
pub enum Slots {
    /// Coefficient `base + ((f k) mod m + d) mod n` at step `k`.
    Walk { f: usize, m: usize, d: usize, n: usize, base: usize },
    /// The coefficients of a list.
    Listed(usize),
}

/// What the label of a multiplication shows: one or both coefficients, the
/// step, or the repetition.
#[derive(Clone, Copy)]
pub enum Form {
    One,
    Two,
    Step,
    TwoStep,
    Rep(u64),
}

/// A run of multiplications. The result lies in one element at even steps and
/// in one at odd steps.
#[derive(Clone, Copy)]
pub struct Phase {
    pub number: u64,
    pub name: &'static str,
    pub form: Form,
    pub count: usize,
    pub a_at: usize,
    pub b_at: usize,
    pub c_at: (usize, usize),
    pub a: Slots,
    pub b: Slots,
    pub c: Slots,
}

/// A walk around `n` coefficients, from `d` on.
pub open spec fn turn(n: usize, d: usize, base: usize) -> Slots {
    Slots::Walk { f: 1, m: n, d, n, base }
}

fn turn_of(n: usize, d: usize, base: usize) -> (r: Slots)
    ensures
        r == turn(n, d, base),
{
    Slots::Walk { f: 1, m: n, d, n, base }
}

pub open spec fn phase(
    number: u64,
    name: &'static str,
    form: Form,
    count: usize,
    a_at: usize,
    b_at: usize,
    c_at: (usize, usize),
    a: Slots,
    b: Slots,
    c: Slots,
) -> Phase {
    Phase { number, name, form, count, a_at, b_at, c_at, a, b, c }
}

fn phase_of(
    number: u64,
    name: &'static str,
    form: Form,
    count: usize,
    a_at: usize,
    b_at: usize,
    c_at: (usize, usize),
    a: Slots,
    b: Slots,
    c: Slots,
) -> (r: Phase)
    ensures
        r == phase(number, name, form, count, a_at, b_at, c_at, a, b, c),
{
    Phase { number, name, form, count, a_at, b_at, c_at, a, b, c }
}

/// The lists that phases walk over.
pub open spec fn listed(t: int) -> Seq<int> {
    if t == 0 {
        seq![0int, 0, 0, 1, 1, 1, 2, 2, 2, 3, 3, 3]
    } else if t == 1 {
        seq![6int, 7, 8, 7, 8, 9, 8, 9, 10, 9, 10, 11]
    } else if t == 2 {
        seq![9int, 10, 11, 10, 11, 6, 11, 6, 7, 6, 7, 8]
    } else if t == 3 {
        seq![6int, 6, 6, 6, 7, 7, 7, 7, 8, 8, 8, 9]
    } else if t == 4 {
        seq![7int, 8, 9, 10, 8, 9, 10, 11, 9, 10, 11, 10]
    } else if t == 5 {
        seq![4int, 5, 4, 5, 0, 1, 2, 6, 7, 8, 4, 5]
    } else if t == 6 {
        seq![10int, 11, 11, 10, 5, 4, 3, 11, 10, 9, 9, 8]
    } else if t == 7 {
        seq![6int, 7, 8, 9, 10, 11, 7, 8, 9, 10, 11, 6]
    } else if t == 8 {
        seq![0int, 0, 0, 0, 1, 1, 1, 1, 2, 2, 2, 2, 3, 3, 3, 3]
    } else if t == 9 {
        seq![8int, 9, 10, 11, 6, 9, 10, 11, 6, 7, 10, 11, 6, 7, 8, 11]
    } else if t == 10 {
        seq![7int, 8, 9, 10, 11, 6, 11, 10, 9, 8, 7, 6]
    } else {
        seq![0int, 1, 2, 3, 4, 5, 6, 7, 8, 9, 10, 11, 6, 7, 8, 9]
    }
}

fn listed_at(t: usize, k: usize) -> (r: usize)
    requires
        t < 12,
        k < listed(t as int).len(),
    ensures
        r == listed(t as int)[k as int],
{
    if t == 0 {
        let s: [usize; 12] = [0, 0, 0, 1, 1, 1, 2, 2, 2, 3, 3, 3];
        assert forall|i: int| 0 <= i < 12 implies s@[i] == listed(0)[i] by {
            assert(i == 0 || i == 1 || i == 2 || i == 3 || i == 4 || i == 5 || i == 6 || i == 7 || i == 8 || i == 9 || i == 10 || i == 11);
        }
        s[k]
    } else if t == 1 {
        let s: [usize; 12] = [6, 7, 8, 7, 8, 9, 8, 9, 10, 9, 10, 11];
        assert forall|i: int| 0 <= i < 12 implies s@[i] == listed(1)[i] by {
            assert(i == 0 || i == 1 || i == 2 || i == 3 || i == 4 || i == 5 || i == 6 || i == 7 || i == 8 || i == 9 || i == 10 || i == 11);
        }
        s[k]
    } else if t == 2 {
        let s: [usize; 12] = [9, 10, 11, 10, 11, 6, 11, 6, 7, 6, 7, 8];
        assert forall|i: int| 0 <= i < 12 implies s@[i] == listed(2)[i] by {
            assert(i == 0 || i == 1 || i == 2 || i == 3 || i == 4 || i == 5 || i == 6 || i == 7 || i == 8 || i == 9 || i == 10 || i == 11);
        }
        s[k]
    } else if t == 3 {
        let s: [usize; 12] = [6, 6, 6, 6, 7, 7, 7, 7, 8, 8, 8, 9];
        assert forall|i: int| 0 <= i < 12 implies s@[i] == listed(3)[i] by {
            assert(i == 0 || i == 1 || i == 2 || i == 3 || i == 4 || i == 5 || i == 6 || i == 7 || i == 8 || i == 9 || i == 10 || i == 11);
        }
        s[k]
    } else if t == 4 {
        let s: [usize; 12] = [7, 8, 9, 10, 8, 9, 10, 11, 9, 10, 11, 10];
        assert forall|i: int| 0 <= i < 12 implies s@[i] == listed(4)[i] by {
            assert(i == 0 || i == 1 || i == 2 || i == 3 || i == 4 || i == 5 || i == 6 || i == 7 || i == 8 || i == 9 || i == 10 || i == 11);
        }
        s[k]
    } else if t == 5 {
        let s: [usize; 12] = [4, 5, 4, 5, 0, 1, 2, 6, 7, 8, 4, 5];
        assert forall|i: int| 0 <= i < 12 implies s@[i] == listed(5)[i] by {
            assert(i == 0 || i == 1 || i == 2 || i == 3 || i == 4 || i == 5 || i == 6 || i == 7 || i == 8 || i == 9 || i == 10 || i == 11);
        }
        s[k]
    } else if t == 6 {
        let s: [usize; 12] = [10, 11, 11, 10, 5, 4, 3, 11, 10, 9, 9, 8];
        assert forall|i: int| 0 <= i < 12 implies s@[i] == listed(6)[i] by {
            assert(i == 0 || i == 1 || i == 2 || i == 3 || i == 4 || i == 5 || i == 6 || i == 7 || i == 8 || i == 9 || i == 10 || i == 11);
        }
        s[k]
    } else if t == 7 {
        let s: [usize; 12] = [6, 7, 8, 9, 10, 11, 7, 8, 9, 10, 11, 6];
        assert forall|i: int| 0 <= i < 12 implies s@[i] == listed(7)[i] by {
            assert(i == 0 || i == 1 || i == 2 || i == 3 || i == 4 || i == 5 || i == 6 || i == 7 || i == 8 || i == 9 || i == 10 || i == 11);
        }
        s[k]
    } else if t == 8 {
        let s: [usize; 16] = [0, 0, 0, 0, 1, 1, 1, 1, 2, 2, 2, 2, 3, 3, 3, 3];
        assert forall|i: int| 0 <= i < 16 implies s@[i] == listed(8)[i] by {
            assert(i == 0 || i == 1 || i == 2 || i == 3 || i == 4 || i == 5 || i == 6 || i == 7 || i == 8 || i == 9 || i == 10 || i == 11 || i == 12 || i == 13 || i == 14 || i == 15);
        }
        s[k]
    } else if t == 9 {
        let s: [usize; 16] = [8, 9, 10, 11, 6, 9, 10, 11, 6, 7, 10, 11, 6, 7, 8, 11];
        assert forall|i: int| 0 <= i < 16 implies s@[i] == listed(9)[i] by {
            assert(i == 0 || i == 1 || i == 2 || i == 3 || i == 4 || i == 5 || i == 6 || i == 7 || i == 8 || i == 9 || i == 10 || i == 11 || i == 12 || i == 13 || i == 14 || i == 15);
        }
        s[k]
    } else if t == 10 {
        let s: [usize; 12] = [7, 8, 9, 10, 11, 6, 11, 10, 9, 8, 7, 6];
        assert forall|i: int| 0 <= i < 12 implies s@[i] == listed(10)[i] by {
            assert(i == 0 || i == 1 || i == 2 || i == 3 || i == 4 || i == 5 || i == 6 || i == 7 || i == 8 || i == 9 || i == 10 || i == 11);
        }
        s[k]
    } else {
        let s: [usize; 16] = [0, 1, 2, 3, 4, 5, 6, 7, 8, 9, 10, 11, 6, 7, 8, 9];
        assert forall|i: int| 0 <= i < 16 implies s@[i] == listed(11)[i] by {
            assert(i == 0 || i == 1 || i == 2 || i == 3 || i == 4 || i == 5 || i == 6 || i == 7 || i == 8 || i == 9 || i == 10 || i == 11 || i == 12 || i == 13 || i == 14 || i == 15);
        }
        s[k]
    }
}

/// The phases of the easy part.
pub open spec fn easy_phase(n: int) -> Phase {
    if n == 0 {
        phase(
            1, "inv_diag", Form::One, 6, PRE, PRE, (EASY, EASY),
            turn(6, 0, 0), turn(6, 0, 0), turn(6, 0, 0),
        )
    } else if n == 1 {
        phase(
            2, "c0c1_cross", Form::Two, 12, PRE, PRE, (EASY, EASY),
            Slots::Listed(0), Slots::Listed(1), turn(12, 0, 0),
        )
    } else if n == 2 {
        phase(
            3, "c0sq_recip", Form::One, 6, PRE, PRE, (LAST, LAST),
            turn(6, 0, 0), turn(6, 0, 0), turn(6, 0, 0),
        )
    } else if n == 3 {
        phase(
            3, "c1sq_recip", Form::One, 6, PRE, PRE, (LAST, LAST),
            turn(6, 0, 6), turn(6, 0, 6), turn(6, 0, 6),
        )
    } else if n == 4 {
        phase(
            4, "frob_c1_diag", Form::One, 6, PRE, PRE, (EASY, EASY),
            turn(6, 0, 6), turn(6, 0, 6), turn(6, 0, 0),
        )
    } else if n == 5 {
        phase(
            5, "close_diag", Form::One, 6, PRE, PRE, (EASY, EASY),
            turn(6, 0, 6), turn(6, 0, 0), turn(6, 0, 6),
        )
    } else if n == 6 {
        phase(
            6, "c0c1_upper", Form::Two, 12, PRE, PRE, (LAST, LAST),
            Slots::Listed(0), Slots::Listed(2), turn(6, 0, 0),
        )
    } else if n == 7 {
        phase(
            7, "c1c1_cross", Form::Two, 12, PRE, PRE, (LAST, LAST),
            Slots::Listed(3), Slots::Listed(4), turn(6, 0, 6),
        )
    } else if n == 8 {
        phase(
            8, "conj_neg_diag", Form::Step, 10, PRE, PRE, (LAST, LAST),
            turn(6, 0, 6), turn(6, 0, 6), turn(12, 1, 0),
        )
    } else if n == 9 {
        phase(
            9, "frob_cross", Form::Two, 12, PRE, PRE, (EASY, EASY),
            turn(12, 0, 0), turn(12, 6, 0), turn(12, 3, 0),
        )
    } else if n == 10 {
        phase(
            10, "inv_out_c0_diag", Form::One, 6, EASY, EASY, (LAST, LAST),
            turn(6, 0, 0), turn(6, 0, 0), turn(6, 0, 0),
        )
    } else if n == 11 {
        phase(
            11, "inv_out_c1_diag", Form::One, 6, EASY, EASY, (LAST, LAST),
            turn(6, 0, 6), turn(6, 0, 6), turn(6, 0, 6),
        )
    } else if n == 12 {
        phase(
            12, "close_off", Form::Two, 12, EASY, EASY, (LAST, LAST),
            Slots::Listed(5), Slots::Listed(6), turn(12, 0, 0),
        )
    } else if n == 13 {
        phase(
            13, "conj_c1sq_diag", Form::Step, 12, PRE, PRE, (EASY, EASY),
            turn(6, 0, 6), turn(6, 0, 6), turn(6, 0, 6),
        )
    } else if n == 14 {
        phase(
            14, "frob_sq_diag", Form::Step, 18, PRE, PRE, (LAST, LAST),
            turn(12, 0, 0), turn(12, 0, 0), turn(12, 7, 0),
        )
    } else if n == 15 {
        phase(
            15, "p_power_frob_diag", Form::Step, 18, PRE, PRE, (EASY, EASY),
            turn(12, 0, 0), turn(12, 0, 0), turn(12, 5, 0),
        )
    } else if n == 16 {
        phase(
            16, "fermat_chain_diag", Form::Step, 18, EASY, EASY, (LAST, LAST),
            turn(12, 0, 0), turn(12, 0, 0), turn(12, 3, 0),
        )
    } else if n == 17 {
        phase(
            17, "inv_cross", Form::TwoStep, 18, PRE, EASY, (LAST, LAST),
            turn(12, 0, 0), turn(12, 5, 0), turn(12, 11, 0),
        )
    } else if n == 18 {
        phase(
            18, "conj_cross", Form::TwoStep, 18, PRE, PRE, (EASY, EASY),
            turn(12, 0, 0), turn(12, 7, 0), turn(12, 1, 0),
        )
    } else if n == 19 {
        phase(
            19, "close_easy_diag", Form::One, 12, EASY, EASY, (LAST, LAST),
            turn(12, 0, 0), turn(12, 0, 0), turn(12, 4, 0),
        )
    } else if n == 20 {
        phase(
            20, "close_cross", Form::TwoStep, 12, EASY, EASY, (LAST, LAST),
            turn(12, 0, 0), Slots::Walk { f: 11, m: 12, d: 11, n: 12, base: 0 }, turn(12, 6, 0),
        )
    } else if n == 21 {
        phase(
            21, "conj_chain_c0_diag", Form::Step, 10, PRE, PRE, (EASY, EASY),
            turn(6, 0, 0), turn(6, 0, 0), turn(6, 0, 0),
        )
    } else if n == 22 {
        phase(
            22, "conj_chain_c1_diag", Form::Step, 10, PRE, PRE, (EASY, EASY),
            turn(6, 0, 6), turn(6, 0, 6), turn(6, 0, 6),
        )
    } else if n == 23 {
        phase(
            23, "inv_karat_step2_diag", Form::Step, 10, EASY, EASY, (EASY, EASY),
            turn(12, 0, 0), turn(12, 0, 0), turn(12, 2, 0),
        )
    } else if n == 24 {
        phase(
            24, "inv_karat_step2_cross", Form::TwoStep, 10, EASY, EASY, (EASY, EASY),
            turn(12, 0, 0), turn(12, 6, 0), turn(12, 8, 0),
        )
    } else if n == 25 {
        phase(
            25, "p_power_repeat_diag", Form::Step, 10, PRE, PRE, (EASY, EASY),
            turn(12, 0, 0), turn(12, 0, 0), turn(12, 4, 0),
        )
    } else if n == 26 {
        phase(
            26, "p_power_repeat_cross", Form::TwoStep, 10, PRE, EASY, (EASY, EASY),
            turn(12, 0, 0), turn(12, 2, 0), turn(12, 6, 0),
        )
    } else if n == 27 {
        phase(
            27, "conj_chain_cross", Form::TwoStep, 10, PRE, EASY, (EASY, EASY),
            turn(12, 0, 0), turn(12, 4, 0), turn(12, 10, 0),
        )
    } else if n == 28 {
        phase(
            28, "fermat_chain_extra", Form::TwoStep, 10, EASY, EASY, (EASY, EASY),
            turn(12, 0, 0), turn(12, 9, 0), turn(12, 1, 0),
        )
    } else if n == 29 {
        phase(
            29, "residual_phase1_c0_diag", Form::Step, 12, PRE, PRE, (LAST, LAST),
            turn(6, 0, 0), turn(6, 0, 0), turn(6, 2, 0),
        )
    } else if n == 30 {
        phase(
            30, "residual_phase2_c1_diag", Form::Step, 12, PRE, PRE, (LAST, LAST),
            turn(6, 0, 6), turn(6, 0, 6), turn(6, 1, 6),
        )
    } else if n == 31 {
        phase(
            31, "residual_phase3_c0c1_cross", Form::TwoStep, 16, PRE, PRE, (EASY, EASY),
            turn(6, 0, 0), turn(6, 5, 6), turn(12, 3, 0),
        )
    } else if n == 32 {
        phase(
            32, "residual_phase4_mixed_cross", Form::TwoStep, 16, PRE, EASY, (EASY, EASY),
            turn(12, 0, 0), turn(12, 8, 0), turn(12, 7, 0),
        )
    } else if n == 33 {
        phase(
            33, "residual_phase5_easy_diag", Form::One, 12, EASY, EASY, (LAST, LAST),
            turn(12, 0, 0), turn(12, 0, 0), turn(12, 8, 0),
        )
    } else if n == 34 {
        phase(
            34, "residual_phase6_easy_cross", Form::TwoStep, 12, EASY, EASY, (LAST, LAST),
            turn(12, 0, 0), turn(12, 3, 0), turn(12, 2, 0),
        )
    } else {
        phase(
            35, "residual_phase7_close_diag", Form::One, 12, EASY, EASY, (LAST, LAST),
            turn(12, 0, 0), turn(12, 0, 0), turn(12, 10, 0),
        )
    }
}

fn easy_phase_at(n: usize) -> (r: Phase)
    requires
        n < EASY_PHASES,
    ensures
        r == easy_phase(n as int),
{
    if n == 0 {
        phase_of(
            1, "inv_diag", Form::One, 6, PRE, PRE, (EASY, EASY),
            turn_of(6, 0, 0), turn_of(6, 0, 0), turn_of(6, 0, 0),
        )
    } else if n == 1 {
        phase_of(
            2, "c0c1_cross", Form::Two, 12, PRE, PRE, (EASY, EASY),
            Slots::Listed(0), Slots::Listed(1), turn_of(12, 0, 0),
        )
    } else if n == 2 {
        phase_of(
            3, "c0sq_recip", Form::One, 6, PRE, PRE, (LAST, LAST),
            turn_of(6, 0, 0), turn_of(6, 0, 0), turn_of(6, 0, 0),
        )
    } else if n == 3 {
        phase_of(
            3, "c1sq_recip", Form::One, 6, PRE, PRE, (LAST, LAST),
            turn_of(6, 0, 6), turn_of(6, 0, 6), turn_of(6, 0, 6),
        )
    } else if n == 4 {
        phase_of(
            4, "frob_c1_diag", Form::One, 6, PRE, PRE, (EASY, EASY),
            turn_of(6, 0, 6), turn_of(6, 0, 6), turn_of(6, 0, 0),
        )
    } else if n == 5 {
        phase_of(
            5, "close_diag", Form::One, 6, PRE, PRE, (EASY, EASY),
            turn_of(6, 0, 6), turn_of(6, 0, 0), turn_of(6, 0, 6),
        )
    } else if n == 6 {
        phase_of(
            6, "c0c1_upper", Form::Two, 12, PRE, PRE, (LAST, LAST),
            Slots::Listed(0), Slots::Listed(2), turn_of(6, 0, 0),
        )
    } else if n == 7 {
        phase_of(
            7, "c1c1_cross", Form::Two, 12, PRE, PRE, (LAST, LAST),
            Slots::Listed(3), Slots::Listed(4), turn_of(6, 0, 6),
        )
    } else if n == 8 {
        phase_of(
            8, "conj_neg_diag", Form::Step, 10, PRE, PRE, (LAST, LAST),
            turn_of(6, 0, 6), turn_of(6, 0, 6), turn_of(12, 1, 0),
        )
    } else if n == 9 {
        phase_of(
            9, "frob_cross", Form::Two, 12, PRE, PRE, (EASY, EASY),
            turn_of(12, 0, 0), turn_of(12, 6, 0), turn_of(12, 3, 0),
        )
    } else if n == 10 {
        phase_of(
            10, "inv_out_c0_diag", Form::One, 6, EASY, EASY, (LAST, LAST),
            turn_of(6, 0, 0), turn_of(6, 0, 0), turn_of(6, 0, 0),
        )
    } else if n == 11 {
        phase_of(
            11, "inv_out_c1_diag", Form::One, 6, EASY, EASY, (LAST, LAST),
            turn_of(6, 0, 6), turn_of(6, 0, 6), turn_of(6, 0, 6),
        )
    } else if n == 12 {
        phase_of(
            12, "close_off", Form::Two, 12, EASY, EASY, (LAST, LAST),
            Slots::Listed(5), Slots::Listed(6), turn_of(12, 0, 0),
        )
    } else if n == 13 {
        phase_of(
            13, "conj_c1sq_diag", Form::Step, 12, PRE, PRE, (EASY, EASY),
            turn_of(6, 0, 6), turn_of(6, 0, 6), turn_of(6, 0, 6),
        )
    } else if n == 14 {
        phase_of(
            14, "frob_sq_diag", Form::Step, 18, PRE, PRE, (LAST, LAST),
            turn_of(12, 0, 0), turn_of(12, 0, 0), turn_of(12, 7, 0),
        )
    } else if n == 15 {
        phase_of(
            15, "p_power_frob_diag", Form::Step, 18, PRE, PRE, (EASY, EASY),
            turn_of(12, 0, 0), turn_of(12, 0, 0), turn_of(12, 5, 0),
        )
    } else if n == 16 {
        phase_of(
            16, "fermat_chain_diag", Form::Step, 18, EASY, EASY, (LAST, LAST),
            turn_of(12, 0, 0), turn_of(12, 0, 0), turn_of(12, 3, 0),
        )
    } else if n == 17 {
        phase_of(
            17, "inv_cross", Form::TwoStep, 18, PRE, EASY, (LAST, LAST),
            turn_of(12, 0, 0), turn_of(12, 5, 0), turn_of(12, 11, 0),
        )
    } else if n == 18 {
        phase_of(
            18, "conj_cross", Form::TwoStep, 18, PRE, PRE, (EASY, EASY),
            turn_of(12, 0, 0), turn_of(12, 7, 0), turn_of(12, 1, 0),
        )
    } else if n == 19 {
        phase_of(
            19, "close_easy_diag", Form::One, 12, EASY, EASY, (LAST, LAST),
            turn_of(12, 0, 0), turn_of(12, 0, 0), turn_of(12, 4, 0),
        )
    } else if n == 20 {
        phase_of(
            20, "close_cross", Form::TwoStep, 12, EASY, EASY, (LAST, LAST),
            turn_of(12, 0, 0), Slots::Walk { f: 11, m: 12, d: 11, n: 12, base: 0 }, turn_of(12, 6, 0),
        )
    } else if n == 21 {
        phase_of(
            21, "conj_chain_c0_diag", Form::Step, 10, PRE, PRE, (EASY, EASY),
            turn_of(6, 0, 0), turn_of(6, 0, 0), turn_of(6, 0, 0),
        )
    } else if n == 22 {
        phase_of(
            22, "conj_chain_c1_diag", Form::Step, 10, PRE, PRE, (EASY, EASY),
            turn_of(6, 0, 6), turn_of(6, 0, 6), turn_of(6, 0, 6),
        )
    } else if n == 23 {
        phase_of(
            23, "inv_karat_step2_diag", Form::Step, 10, EASY, EASY, (EASY, EASY),
            turn_of(12, 0, 0), turn_of(12, 0, 0), turn_of(12, 2, 0),
        )
    } else if n == 24 {
        phase_of(
            24, "inv_karat_step2_cross", Form::TwoStep, 10, EASY, EASY, (EASY, EASY),
            turn_of(12, 0, 0), turn_of(12, 6, 0), turn_of(12, 8, 0),
        )
    } else if n == 25 {
        phase_of(
            25, "p_power_repeat_diag", Form::Step, 10, PRE, PRE, (EASY, EASY),
            turn_of(12, 0, 0), turn_of(12, 0, 0), turn_of(12, 4, 0),
        )
    } else if n == 26 {
        phase_of(
            26, "p_power_repeat_cross", Form::TwoStep, 10, PRE, EASY, (EASY, EASY),
            turn_of(12, 0, 0), turn_of(12, 2, 0), turn_of(12, 6, 0),
        )
    } else if n == 27 {
        phase_of(
            27, "conj_chain_cross", Form::TwoStep, 10, PRE, EASY, (EASY, EASY),
            turn_of(12, 0, 0), turn_of(12, 4, 0), turn_of(12, 10, 0),
        )
    } else if n == 28 {
        phase_of(
            28, "fermat_chain_extra", Form::TwoStep, 10, EASY, EASY, (EASY, EASY),
            turn_of(12, 0, 0), turn_of(12, 9, 0), turn_of(12, 1, 0),
        )
    } else if n == 29 {
        phase_of(
            29, "residual_phase1_c0_diag", Form::Step, 12, PRE, PRE, (LAST, LAST),
            turn_of(6, 0, 0), turn_of(6, 0, 0), turn_of(6, 2, 0),
        )
    } else if n == 30 {
        phase_of(
            30, "residual_phase2_c1_diag", Form::Step, 12, PRE, PRE, (LAST, LAST),
            turn_of(6, 0, 6), turn_of(6, 0, 6), turn_of(6, 1, 6),
        )
    } else if n == 31 {
        phase_of(
            31, "residual_phase3_c0c1_cross", Form::TwoStep, 16, PRE, PRE, (EASY, EASY),
            turn_of(6, 0, 0), turn_of(6, 5, 6), turn_of(12, 3, 0),
        )
    } else if n == 32 {
        phase_of(
            32, "residual_phase4_mixed_cross", Form::TwoStep, 16, PRE, EASY, (EASY, EASY),
            turn_of(12, 0, 0), turn_of(12, 8, 0), turn_of(12, 7, 0),
        )
    } else if n == 33 {
        phase_of(
            33, "residual_phase5_easy_diag", Form::One, 12, EASY, EASY, (LAST, LAST),
            turn_of(12, 0, 0), turn_of(12, 0, 0), turn_of(12, 8, 0),
        )
    } else if n == 34 {
        phase_of(
            34, "residual_phase6_easy_cross", Form::TwoStep, 12, EASY, EASY, (LAST, LAST),
            turn_of(12, 0, 0), turn_of(12, 3, 0), turn_of(12, 2, 0),
        )
    } else {
        phase_of(
            35, "residual_phase7_close_diag", Form::One, 12, EASY, EASY, (LAST, LAST),
            turn_of(12, 0, 0), turn_of(12, 0, 0), turn_of(12, 10, 0),
        )
    }
}

/// The phases of the hard part.
pub open spec fn hard_phase(n: int) -> Phase {
    if n == 0 {
        phase(
            1, "cyclo_sq_c0_diag", Form::One, 6, EASY, EASY, (HARD, HARD),
            turn(6, 0, 0), turn(6, 0, 0), turn(6, 0, 0),
        )
    } else if n == 1 {
        phase(
            2, "cyclo_sq_c0_chain", Form::Step, 12, EASY, EASY, (LAST, LAST),
            turn(6, 0, 0), turn(6, 0, 0), turn(6, 0, 0),
        )
    } else if n == 2 {
        phase(
            3, "cyclo_sq_c1_diag", Form::Rep(0), 6, EASY, EASY, (HARD, HARD),
            turn(6, 0, 6), turn(6, 0, 6), turn(6, 0, 6),
        )
    } else if n == 3 {
        phase(
            3, "cyclo_sq_c1_diag", Form::Rep(1), 6, EASY, EASY, (LAST, LAST),
            turn(6, 0, 6), turn(6, 0, 6), turn(6, 0, 6),
        )
    } else if n == 4 {
        phase(
            4, "c0c1_cross", Form::Two, 12, EASY, EASY, (HARD, HARD),
            turn(6, 0, 0), Slots::Listed(7), turn(12, 0, 0),
        )
    } else if n == 5 {
        phase(
            5, "close_diag", Form::One, 6, EASY, EASY, (HARD, HARD),
            turn(6, 0, 6), turn(6, 0, 0), turn(6, 0, 6),
        )
    } else if n == 6 {
        phase(
            6, "c0c1_karat", Form::Two, 16, EASY, EASY, (LAST, LAST),
            Slots::Listed(8), Slots::Listed(9), turn(6, 0, 0),
        )
    } else if n == 7 {
        phase(
            7, "hardout_c0sq", Form::Step, 16, HARD, HARD, (LAST, HARD),
            turn(6, 0, 0), turn(6, 0, 0), turn(6, 1, 0),
        )
    } else if n == 8 {
        phase(
            8, "hardout_c1sq", Form::Step, 16, HARD, HARD, (LAST, HARD),
            turn(6, 0, 6), turn(6, 0, 6), turn(6, 1, 6),
        )
    } else if n == 9 {
        phase(
            9, "easy_hard_cross", Form::Two, 12, EASY, HARD, (LAST, LAST),
            turn(12, 0, 0), turn(12, 4, 0), turn(12, 7, 0),
        )
    } else if n == 10 {
        phase(
            10, "hardout_cross", Form::TwoStep, 12, HARD, HARD, (LAST, LAST),
            turn(6, 0, 0), Slots::Listed(10), turn(12, 0, 0),
        )
    } else if n == 11 {
        phase(
            11, "conj_flip_diag", Form::One, 12, HARD, HARD, (LAST, LAST),
            turn(12, 0, 0), turn(12, 0, 0), turn(12, 5, 0),
        )
    } else if n == 12 {
        phase(
            12, "close_fanout", Form::TwoStep, 16, EASY, HARD, (LAST, LAST),
            turn(12, 0, 0), Slots::Listed(11), turn(12, 1, 0),
        )
    } else if n == 13 {
        phase(
            13, "granger_scott_c0sq", Form::Step, 18, EASY, EASY, (HARD, HARD),
            turn(6, 0, 0), turn(6, 0, 0), turn(6, 2, 0),
        )
    } else if n == 14 {
        phase(
            14, "granger_scott_c1sq", Form::Step, 18, EASY, EASY, (HARD, HARD),
            turn(6, 0, 6), turn(6, 0, 6), turn(6, 2, 6),
        )
    } else if n == 15 {
        phase(
            15, "cyclo_cross", Form::TwoStep, 18, EASY, EASY, (HARD, HARD),
            turn(6, 0, 0), turn(6, 3, 6), turn(12, 4, 0),
        )
    } else if n == 16 {
        phase(
            16, "fp12mul_step", Form::TwoStep, 24, EASY, EASY, (LAST, LAST),
            turn(12, 0, 0), turn(12, 5, 0), Slots::Walk { f: 2, m: 12, d: 0, n: 12, base: 0 },
        )
    } else if n == 17 {
        phase(
            17, "fp12mul_shell", Form::TwoStep, 24, EASY, EASY, (LAST, LAST),
            turn(12, 0, 0), turn(12, 8, 0), turn(12, 3, 0),
        )
    } else if n == 18 {
        phase(
            18, "addchain_step", Form::TwoStep, 24, HARD, EASY, (LAST, LAST),
            turn(12, 0, 0), turn(12, 9, 0), turn(12, 5, 0),
        )
    } else if n == 19 {
        phase(
            19, "addchain_karat", Form::TwoStep, 24, HARD, HARD, (LAST, LAST),
            turn(12, 0, 0), turn(12, 11, 0), turn(12, 8, 0),
        )
    } else if n == 20 {
        phase(
            20, "addchain_diag", Form::Step, 24, HARD, HARD, (LAST, LAST),
            turn(12, 0, 0), turn(12, 0, 0), turn(12, 9, 0),
        )
    } else if n == 21 {
        phase(
            21, "close_cross", Form::TwoStep, 24, HARD, EASY, (LAST, LAST),
            turn(12, 0, 0), turn(12, 6, 0), turn(12, 10, 0),
        )
    } else if n == 22 {
        phase(
            22, "close_diag", Form::Step, 24, HARD, HARD, (LAST, LAST),
            turn(12, 0, 0), turn(12, 0, 0), turn(12, 11, 0),
        )
    } else if n == 23 {
        phase(
            23, "cyclo_extra_c0sq", Form::Step, 16, EASY, EASY, (LAST, LAST),
            turn(6, 0, 0), turn(6, 0, 0), turn(6, 0, 3),
        )
    } else if n == 24 {
        phase(
            24, "cyclo_extra_c1sq", Form::Step, 16, EASY, EASY, (LAST, LAST),
            turn(6, 0, 6), turn(6, 0, 6), turn(6, 0, 3),
        )
    } else if n == 25 {
        phase(
            25, "cyclo_extra_cross", Form::TwoStep, 16, EASY, EASY, (LAST, LAST),
            turn(6, 0, 0), turn(6, 5, 6), turn(12, 1, 0),
        )
    } else if n == 26 {
        phase(
            26, "fp12mul_shell3_c0", Form::Step, 16, HARD, HARD, (LAST, LAST),
            turn(6, 0, 0), turn(6, 0, 0), Slots::Walk { f: 1, m: 6, d: 7, n: 12, base: 0 },
        )
    } else if n == 27 {
        phase(
            27, "fp12mul_shell3_c1", Form::Step, 16, HARD, HARD, (LAST, LAST),
            turn(6, 0, 6), turn(6, 0, 6), Slots::Walk { f: 1, m: 6, d: 10, n: 12, base: 0 },
        )
    } else if n == 28 {
        phase(
            28, "fp12mul_shell4", Form::TwoStep, 16, HARD, HARD, (LAST, LAST),
            turn(12, 0, 0), turn(12, 7, 0), turn(12, 2, 0),
        )
    } else if n == 29 {
        phase(
            29, "addchain_extra_diag", Form::Step, 16, EASY, EASY, (LAST, LAST),
            turn(12, 0, 0), turn(12, 0, 0), turn(12, 6, 0),
        )
    } else if n == 30 {
        phase(
            30, "addchain_off2", Form::TwoStep, 16, EASY, HARD, (LAST, LAST),
            turn(12, 0, 0), turn(12, 2, 0), turn(12, 4, 0),
        )
    } else if n == 31 {
        phase(
            31, "addchain_off3", Form::TwoStep, 16, EASY, HARD, (LAST, LAST),
            turn(12, 0, 0), turn(12, 3, 0), turn(12, 7, 0),
        )
    } else if n == 32 {
        phase(
            32, "addchain_karat_off4", Form::TwoStep, 16, EASY, EASY, (LAST, LAST),
            turn(12, 0, 0), turn(12, 4, 0), turn(12, 11, 0),
        )
    } else if n == 33 {
        phase(
            33, "addchain_hybrid", Form::TwoStep, 16, HARD, EASY, (LAST, LAST),
            turn(12, 0, 0), turn(12, 1, 0), turn(12, 0, 0),
        )
    } else if n == 34 {
        phase(
            34, "close_diag_extra", Form::Step, 16, HARD, HARD, (LAST, LAST),
            turn(12, 0, 0), turn(12, 0, 0), turn(12, 3, 0),
        )
    } else if n == 35 {
        phase(
            35, "close_cross_extra", Form::TwoStep, 16, HARD, HARD, (LAST, LAST),
            turn(12, 0, 0), turn(12, 5, 0), turn(12, 9, 0),
        )
    } else if n == 36 {
        phase(
            36, "final_out_bind", Form::TwoStep, 16, EASY, HARD, (LAST, LAST),
            turn(12, 0, 0), turn(12, 8, 0), turn(12, 6, 0),
        )
    } else if n == 37 {
        phase(
            37, "residual_phase1_cyclo_c0sq", Form::Step, 18, EASY, EASY, (HARD, HARD),
            turn(6, 0, 0), turn(6, 0, 0), turn(6, 4, 0),
        )
    } else if n == 38 {
        phase(
            38, "residual_phase2_cyclo_c1sq", Form::Step, 18, EASY, EASY, (HARD, HARD),
            turn(6, 0, 6), turn(6, 0, 6), turn(6, 4, 6),
        )
    } else if n == 39 {
        phase(
            39, "residual_phase3_cyclo_cross", Form::TwoStep, 18, EASY, EASY, (HARD, HARD),
            turn(6, 0, 0), turn(6, 1, 6), turn(12, 5, 0),
        )
    } else if n == 40 {
        phase(
            40, "residual_phase4_fp12mul", Form::TwoStep, 24, EASY, EASY, (HARD, HARD),
            turn(12, 0, 0), turn(12, 2, 0), turn(12, 9, 0),
        )
    } else if n == 41 {
        phase(
            41, "residual_phase5_addchain_cross", Form::TwoStep, 24, HARD, EASY, (HARD, HARD),
            turn(12, 0, 0), turn(12, 7, 0), turn(12, 11, 0),
        )
    } else if n == 42 {
        phase(
            42, "residual_phase6_addchain_diag", Form::Step, 24, HARD, HARD, (HARD, HARD),
            turn(12, 0, 0), turn(12, 0, 0), turn(12, 5, 0),
        )
    } else if n == 43 {
        phase(
            43, "residual_phase7_close_diag", Form::Step, 22, EASY, EASY, (LAST, LAST),
            turn(12, 0, 0), turn(12, 0, 0), turn(12, 4, 0),
        )
    } else if n == 44 {
        phase(
            44, "residual_phase8_final_bind", Form::TwoStep, 22, HARD, HARD, (LAST, LAST),
            turn(12, 0, 0), turn(12, 9, 0), turn(12, 5, 0),
        )
    } else if n == 45 {
        phase(
            45, "residual_phase9_hybrid_cross", Form::TwoStep, 22, EASY, HARD, (LAST, LAST),
            turn(12, 0, 0), turn(12, 10, 0), turn(12, 8, 0),
        )
    } else {
        phase(
            46, "residual_phase10_mixed_cross", Form::TwoStep, 22, HARD, EASY, (LAST, LAST),
            turn(12, 0, 0), turn(12, 11, 0), turn(12, 3, 0),
        )
    }
}

fn hard_phase_at(n: usize) -> (r: Phase)
    requires
        n < HARD_PHASES,
    ensures
        r == hard_phase(n as int),
{
    if n == 0 {
        phase_of(
            1, "cyclo_sq_c0_diag", Form::One, 6, EASY, EASY, (HARD, HARD),
            turn_of(6, 0, 0), turn_of(6, 0, 0), turn_of(6, 0, 0),
        )
    } else if n == 1 {
        phase_of(
            2, "cyclo_sq_c0_chain", Form::Step, 12, EASY, EASY, (LAST, LAST),
            turn_of(6, 0, 0), turn_of(6, 0, 0), turn_of(6, 0, 0),
        )
    } else if n == 2 {
        phase_of(
            3, "cyclo_sq_c1_diag", Form::Rep(0), 6, EASY, EASY, (HARD, HARD),
            turn_of(6, 0, 6), turn_of(6, 0, 6), turn_of(6, 0, 6),
        )
    } else if n == 3 {
        phase_of(
            3, "cyclo_sq_c1_diag", Form::Rep(1), 6, EASY, EASY, (LAST, LAST),
            turn_of(6, 0, 6), turn_of(6, 0, 6), turn_of(6, 0, 6),
        )
    } else if n == 4 {
        phase_of(
            4, "c0c1_cross", Form::Two, 12, EASY, EASY, (HARD, HARD),
            turn_of(6, 0, 0), Slots::Listed(7), turn_of(12, 0, 0),
        )
    } else if n == 5 {
        phase_of(
            5, "close_diag", Form::One, 6, EASY, EASY, (HARD, HARD),
            turn_of(6, 0, 6), turn_of(6, 0, 0), turn_of(6, 0, 6),
        )
    } else if n == 6 {
        phase_of(
            6, "c0c1_karat", Form::Two, 16, EASY, EASY, (LAST, LAST),
            Slots::Listed(8), Slots::Listed(9), turn_of(6, 0, 0),
        )
    } else if n == 7 {
        phase_of(
            7, "hardout_c0sq", Form::Step, 16, HARD, HARD, (LAST, HARD),
            turn_of(6, 0, 0), turn_of(6, 0, 0), turn_of(6, 1, 0),
        )
    } else if n == 8 {
        phase_of(
            8, "hardout_c1sq", Form::Step, 16, HARD, HARD, (LAST, HARD),
            turn_of(6, 0, 6), turn_of(6, 0, 6), turn_of(6, 1, 6),
        )
    } else if n == 9 {
        phase_of(
            9, "easy_hard_cross", Form::Two, 12, EASY, HARD, (LAST, LAST),
            turn_of(12, 0, 0), turn_of(12, 4, 0), turn_of(12, 7, 0),
        )
    } else if n == 10 {
        phase_of(
            10, "hardout_cross", Form::TwoStep, 12, HARD, HARD, (LAST, LAST),
            turn_of(6, 0, 0), Slots::Listed(10), turn_of(12, 0, 0),
        )
    } else if n == 11 {
        phase_of(
            11, "conj_flip_diag", Form::One, 12, HARD, HARD, (LAST, LAST),
            turn_of(12, 0, 0), turn_of(12, 0, 0), turn_of(12, 5, 0),
        )
    } else if n == 12 {
        phase_of(
            12, "close_fanout", Form::TwoStep, 16, EASY, HARD, (LAST, LAST),
            turn_of(12, 0, 0), Slots::Listed(11), turn_of(12, 1, 0),
        )
    } else if n == 13 {
        phase_of(
            13, "granger_scott_c0sq", Form::Step, 18, EASY, EASY, (HARD, HARD),
            turn_of(6, 0, 0), turn_of(6, 0, 0), turn_of(6, 2, 0),
        )
    } else if n == 14 {
        phase_of(
            14, "granger_scott_c1sq", Form::Step, 18, EASY, EASY, (HARD, HARD),
            turn_of(6, 0, 6), turn_of(6, 0, 6), turn_of(6, 2, 6),
        )
    } else if n == 15 {
        phase_of(
            15, "cyclo_cross", Form::TwoStep, 18, EASY, EASY, (HARD, HARD),
            turn_of(6, 0, 0), turn_of(6, 3, 6), turn_of(12, 4, 0),
        )
    } else if n == 16 {
        phase_of(
            16, "fp12mul_step", Form::TwoStep, 24, EASY, EASY, (LAST, LAST),
            turn_of(12, 0, 0), turn_of(12, 5, 0), Slots::Walk { f: 2, m: 12, d: 0, n: 12, base: 0 },
        )
    } else if n == 17 {
        phase_of(
            17, "fp12mul_shell", Form::TwoStep, 24, EASY, EASY, (LAST, LAST),
            turn_of(12, 0, 0), turn_of(12, 8, 0), turn_of(12, 3, 0),
        )
    } else if n == 18 {
        phase_of(
            18, "addchain_step", Form::TwoStep, 24, HARD, EASY, (LAST, LAST),
            turn_of(12, 0, 0), turn_of(12, 9, 0), turn_of(12, 5, 0),
        )
    } else if n == 19 {
        phase_of(
            19, "addchain_karat", Form::TwoStep, 24, HARD, HARD, (LAST, LAST),
            turn_of(12, 0, 0), turn_of(12, 11, 0), turn_of(12, 8, 0),
        )
    } else if n == 20 {
        phase_of(
            20, "addchain_diag", Form::Step, 24, HARD, HARD, (LAST, LAST),
            turn_of(12, 0, 0), turn_of(12, 0, 0), turn_of(12, 9, 0),
        )
    } else if n == 21 {
        phase_of(
            21, "close_cross", Form::TwoStep, 24, HARD, EASY, (LAST, LAST),
            turn_of(12, 0, 0), turn_of(12, 6, 0), turn_of(12, 10, 0),
        )
    } else if n == 22 {
        phase_of(
            22, "close_diag", Form::Step, 24, HARD, HARD, (LAST, LAST),
            turn_of(12, 0, 0), turn_of(12, 0, 0), turn_of(12, 11, 0),
        )
    } else if n == 23 {
        phase_of(
            23, "cyclo_extra_c0sq", Form::Step, 16, EASY, EASY, (LAST, LAST),
            turn_of(6, 0, 0), turn_of(6, 0, 0), turn_of(6, 0, 3),
        )
    } else if n == 24 {
        phase_of(
            24, "cyclo_extra_c1sq", Form::Step, 16, EASY, EASY, (LAST, LAST),
            turn_of(6, 0, 6), turn_of(6, 0, 6), turn_of(6, 0, 3),
        )
    } else if n == 25 {
        phase_of(
            25, "cyclo_extra_cross", Form::TwoStep, 16, EASY, EASY, (LAST, LAST),
            turn_of(6, 0, 0), turn_of(6, 5, 6), turn_of(12, 1, 0),
        )
    } else if n == 26 {
        phase_of(
            26, "fp12mul_shell3_c0", Form::Step, 16, HARD, HARD, (LAST, LAST),
            turn_of(6, 0, 0), turn_of(6, 0, 0), Slots::Walk { f: 1, m: 6, d: 7, n: 12, base: 0 },
        )
    } else if n == 27 {
        phase_of(
            27, "fp12mul_shell3_c1", Form::Step, 16, HARD, HARD, (LAST, LAST),
            turn_of(6, 0, 6), turn_of(6, 0, 6), Slots::Walk { f: 1, m: 6, d: 10, n: 12, base: 0 },
        )
    } else if n == 28 {
        phase_of(
            28, "fp12mul_shell4", Form::TwoStep, 16, HARD, HARD, (LAST, LAST),
            turn_of(12, 0, 0), turn_of(12, 7, 0), turn_of(12, 2, 0),
        )
    } else if n == 29 {
        phase_of(
            29, "addchain_extra_diag", Form::Step, 16, EASY, EASY, (LAST, LAST),
            turn_of(12, 0, 0), turn_of(12, 0, 0), turn_of(12, 6, 0),
        )
    } else if n == 30 {
        phase_of(
            30, "addchain_off2", Form::TwoStep, 16, EASY, HARD, (LAST, LAST),
            turn_of(12, 0, 0), turn_of(12, 2, 0), turn_of(12, 4, 0),
        )
    } else if n == 31 {
        phase_of(
            31, "addchain_off3", Form::TwoStep, 16, EASY, HARD, (LAST, LAST),
            turn_of(12, 0, 0), turn_of(12, 3, 0), turn_of(12, 7, 0),
        )
    } else if n == 32 {
        phase_of(
            32, "addchain_karat_off4", Form::TwoStep, 16, EASY, EASY, (LAST, LAST),
            turn_of(12, 0, 0), turn_of(12, 4, 0), turn_of(12, 11, 0),
        )
    } else if n == 33 {
        phase_of(
            33, "addchain_hybrid", Form::TwoStep, 16, HARD, EASY, (LAST, LAST),
            turn_of(12, 0, 0), turn_of(12, 1, 0), turn_of(12, 0, 0),
        )
    } else if n == 34 {
        phase_of(
            34, "close_diag_extra", Form::Step, 16, HARD, HARD, (LAST, LAST),
            turn_of(12, 0, 0), turn_of(12, 0, 0), turn_of(12, 3, 0),
        )
    } else if n == 35 {
        phase_of(
            35, "close_cross_extra", Form::TwoStep, 16, HARD, HARD, (LAST, LAST),
            turn_of(12, 0, 0), turn_of(12, 5, 0), turn_of(12, 9, 0),
        )
    } else if n == 36 {
        phase_of(
            36, "final_out_bind", Form::TwoStep, 16, EASY, HARD, (LAST, LAST),
            turn_of(12, 0, 0), turn_of(12, 8, 0), turn_of(12, 6, 0),
        )
    } else if n == 37 {
        phase_of(
            37, "residual_phase1_cyclo_c0sq", Form::Step, 18, EASY, EASY, (HARD, HARD),
            turn_of(6, 0, 0), turn_of(6, 0, 0), turn_of(6, 4, 0),
        )
    } else if n == 38 {
        phase_of(
            38, "residual_phase2_cyclo_c1sq", Form::Step, 18, EASY, EASY, (HARD, HARD),
            turn_of(6, 0, 6), turn_of(6, 0, 6), turn_of(6, 4, 6),
        )
    } else if n == 39 {
        phase_of(
            39, "residual_phase3_cyclo_cross", Form::TwoStep, 18, EASY, EASY, (HARD, HARD),
            turn_of(6, 0, 0), turn_of(6, 1, 6), turn_of(12, 5, 0),
        )
    } else if n == 40 {
        phase_of(
            40, "residual_phase4_fp12mul", Form::TwoStep, 24, EASY, EASY, (HARD, HARD),
            turn_of(12, 0, 0), turn_of(12, 2, 0), turn_of(12, 9, 0),
        )
    } else if n == 41 {
        phase_of(
            41, "residual_phase5_addchain_cross", Form::TwoStep, 24, HARD, EASY, (HARD, HARD),
            turn_of(12, 0, 0), turn_of(12, 7, 0), turn_of(12, 11, 0),
        )
    } else if n == 42 {
        phase_of(
            42, "residual_phase6_addchain_diag", Form::Step, 24, HARD, HARD, (HARD, HARD),
            turn_of(12, 0, 0), turn_of(12, 0, 0), turn_of(12, 5, 0),
        )
    } else if n == 43 {
        phase_of(
            43, "residual_phase7_close_diag", Form::Step, 22, EASY, EASY, (LAST, LAST),
            turn_of(12, 0, 0), turn_of(12, 0, 0), turn_of(12, 4, 0),
        )
    } else if n == 44 {
        phase_of(
            44, "residual_phase8_final_bind", Form::TwoStep, 22, HARD, HARD, (LAST, LAST),
            turn_of(12, 0, 0), turn_of(12, 9, 0), turn_of(12, 5, 0),
        )
    } else if n == 45 {
        phase_of(
            45, "residual_phase9_hybrid_cross", Form::TwoStep, 22, EASY, HARD, (LAST, LAST),
            turn_of(12, 0, 0), turn_of(12, 10, 0), turn_of(12, 8, 0),
        )
    } else {
        phase_of(
            46, "residual_phase10_mixed_cross", Form::TwoStep, 22, HARD, EASY, (LAST, LAST),
            turn_of(12, 0, 0), turn_of(12, 11, 0), turn_of(12, 3, 0),
        )
    }
}

// ─── Multiplications ──────────────────────────────────────────────────

/// The coefficient at step `k`.
pub open spec fn coefficient(s: Slots, k: int) -> int {
    match s {
        Slots::Walk { f, m, d, n, base } => base + ((f * k) % (m as int) + d) % (n as int),
        Slots::Listed(t) => listed(t as int)[k],
    }
}

/// The slots lie among the twelve coefficients for the given number of steps.
pub open spec fn slots_ok(s: Slots, count: int) -> bool {
    match s {
        Slots::Walk { f, m, d, n, base } => 0 < m <= 12 && 0 < n && base + n <= 12 && f <= 12 && d
            <= 12,
        Slots::Listed(t) => t < 12 && listed(t as int).len() == count,
    }
}

/// The walk takes the coefficients one after the other, none twice.
pub open spec fn steps_through(s: Slots, count: int) -> bool {
    s matches Slots::Walk { f, m, d, n, base } && f == 1 && d == 0 && m == n && count <= n
}

/// No two steps of a phase multiply the same coefficients.
pub open spec fn pairs_distinct(p: Phase) -> bool {
    forall|k: int, l: int|
        0 <= k < l < p.count ==> (#[trigger] coefficient(p.a, k), coefficient(p.b, k)) != (
            #[trigger] coefficient(p.a, l),
            coefficient(p.b, l),
        )
}

/// The element lies at the part's input or at its output.
pub open spec fn factor_at(easy: bool, at: usize) -> bool {
    if easy {
        at == PRE || at == EASY
    } else {
        at == EASY || at == HARD
    }
}

/// The element lies at the part's output or is the exported one.
pub open spec fn product_at(easy: bool, at: usize) -> bool {
    at == LAST || at == if easy {
        EASY
    } else {
        HARD
    }
}

/// Column `c` is the first of a coefficient of the element at `at`.
pub open spec fn coefficient_column(at: usize, c: int) -> bool {
    at <= c < at + 72 && (c - at) % 6 == 0
}

/// Column `c` is the first of a coefficient of the part's output or of the
/// exported element.
pub open spec fn product_column(easy: bool, c: int) -> bool {
    coefficient_column(LAST, c) || coefficient_column(
        if easy {
            EASY
        } else {
            HARD
        },
        c,
    )
}

/// What the phases have in common.
pub open spec fn phase_ok(p: Phase) -> bool {
    &&& 0 < p.count <= 24
    &&& p.a_at <= 216 && p.b_at <= 216 && p.c_at.0 <= 216 && p.c_at.1 <= 216
    &&& p.a_at % 6 == 0 && p.b_at % 6 == 0 && p.c_at.0 % 6 == 0 && p.c_at.1 % 6 == 0
    &&& slots_ok(p.a, p.count as int) && slots_ok(p.b, p.count as int) && slots_ok(
        p.c,
        p.count as int,
    )
    &&& match p.form {
        Form::One => steps_through(p.a, p.count as int),
        Form::Rep(_) => steps_through(p.a, p.count as int),
        Form::Two => pairs_distinct(p),
        _ => true,
    }
}

/// A multiplication: the first columns of factors and product, and its label.
pub struct Mult {
    pub a: int,
    pub b: int,
    pub c: int,
    pub label: Seq<char>,
}

/// What the label says of step `k`.
pub open spec fn label_tail(p: Phase, k: int) -> Seq<char> {
    let i = label::decimal(coefficient(p.a, k) as nat);
    let j = label::decimal(coefficient(p.b, k) as nat);
    match p.form {
        Form::One => i + "_v1"@,
        Form::Two => i + "_"@ + j + "_v1"@,
        Form::Step => i + "_step_"@ + label::decimal(k as nat) + "_v1"@,
        Form::TwoStep => i + "_"@ + j + "_step_"@ + label::decimal(k as nat) + "_v1"@,
        Form::Rep(r) => i + "_rep_"@ + label::decimal(r as nat) + "_v1"@,
    }
}

pub open spec fn label_head(easy: bool) -> Seq<char> {
    if easy {
        "final_exp_easy_a"@
    } else {
        "final_exp_hard_b"@
    }
}

pub open spec fn mult_label(easy: bool, p: Phase, k: int) -> Seq<char> {
    label_head(easy) + label::decimal(p.number as nat) + "_"@ + p.name@ + "_"@ + label_tail(p, k)
}

/// Step `k` of a phase.
pub open spec fn mult_of(easy: bool, p: Phase, k: int) -> Mult {
    Mult {
        a: p.a_at + 6 * coefficient(p.a, k),
        b: p.b_at + 6 * coefficient(p.b, k),
        c: (if k % 2 == 0 {
            p.c_at.0
        } else {
            p.c_at.1
        }) + 6 * coefficient(p.c, k),
        label: mult_label(easy, p, k),
    }
}

/// Phase `n` of a part.
pub open spec fn phase_at(easy: bool, n: int) -> Phase {
    if easy {
        easy_phase(n)
    } else {
        hard_phase(n)
    }
}

pub open spec fn phases(easy: bool) -> nat {
    if easy {
        EASY_PHASES as nat
    } else {
        HARD_PHASES as nat
    }
}

/// The steps of the first `n` phases.
pub open spec fn total(easy: bool, n: nat) -> int
    decreases n,
{
    if n == 0 {
        0
    } else {
        total(easy, (n - 1) as nat) + phase_at(easy, n - 1).count
    }
}

/// The multiplications of the first `n` phases.
pub open spec fn mults(easy: bool, n: nat) -> Seq<Mult>
    decreases n,
{
    if n == 0 {
        Seq::empty()
    } else {
        let p = phase_at(easy, n - 1);
        mults(easy, (n - 1) as nat) + Seq::new(p.count as nat, |k: int| mult_of(easy, p, k))
    }
}

/// The multiplications of a part.
pub open spec fn all_mults(easy: bool) -> Seq<Mult> {
    mults(easy, phases(easy))
}

/// The column that selects the steps of a part.
pub open spec fn step_selector(easy: bool) -> int {
    if easy {
        final_exp_air::COL_IS_EASY_STEP as int
    } else {
        final_exp_air::COL_IS_HARD_STEP as int
    }
}

/// The link of a multiplication.
pub open spec fn mult_link(
    easy: bool,
    m: Mult,
    final_exp_layer: int,
    nonnative_layer: int,
) -> cross_air_logup::Link {
    miller_fp_descriptors::fp_mul_link(
        m.a,
        m.b,
        m.c,
        step_selector(easy),
        m.label,
        final_exp_layer,
        nonnative_layer,
    )
}

/// The descriptors link the multiplications of a part.
pub open spec fn links_mults(
    ds: Seq<CrossAirLogUpDescriptor>,
    easy: bool,
    ms: Seq<Mult>,
    final_exp_layer: int,
    nonnative_layer: int,
) -> bool {
    &&& ds.len() == ms.len()
    &&& forall|i: int|
        0 <= i < ds.len() ==> (#[trigger] ds[i]).is(
            mult_link(easy, ms[i], final_exp_layer, nonnative_layer),
        )
}

/// The result of a linked multiplication is a coefficient of the part's output
/// or of the exported element.
pub open spec fn results_in_place(easy: bool, d: CrossAirLogUpDescriptor) -> bool {
    &&& d.b_columns.len() == 18
    &&& product_column(easy, d.b_columns@[12] as int)
}

// ─── The phases are in order ──────────────────────────────────────────

proof fn lemma_listed(t: int, k: int)
    requires
        0 <= t < 12,
        0 <= k < listed(t).len(),
    ensures
        0 <= listed(t)[k] < 12,
{
    assert(t == 0 || t == 1 || t == 2 || t == 3 || t == 4 || t == 5 || t == 6 || t == 7 || t == 8 || t == 9 || t == 10 || t == 11);
    assert(k == 0 || k == 1 || k == 2 || k == 3 || k == 4 || k == 5 || k == 6 || k == 7 || k == 8 || k == 9 || k == 10 || k == 11 || k == 12 || k == 13 || k == 14 || k == 15);
}

proof fn lemma_turn(k: int)
    requires
        0 <= k,
    ensures
        coefficient(turn(6, 0, 0), k) == k % 6,
{
    let f = 1usize;
    assert(f * k == k) by (nonlinear_arith)
        requires
            f == 1,
    ;
    vstd::arithmetic::div_mod::lemma_mod_twice(k, 6);
}

proof fn lemma_coefficient(s: Slots, count: int, k: int)
    requires
        slots_ok(s, count),
        0 <= k < count,
    ensures
        0 <= coefficient(s, k) < 12,
        steps_through(s, count) ==> coefficient(s, k) == coefficient(s, 0) + k,
{
    match s {
        Slots::Walk { f, m, d, n, base } => {
            let x = (f * k) % (m as int) + d;
            vstd::arithmetic::div_mod::lemma_mod_bound(x, n as int);
            if steps_through(s, count) {
                assert(f * k == k) by (nonlinear_arith)
                    requires
                        f == 1,
                ;
                vstd::arithmetic::div_mod::lemma_small_mod(k as nat, m as nat);
                vstd::arithmetic::div_mod::lemma_small_mod(0, m as nat);
            }
        },
        Slots::Listed(t) => {
            lemma_listed(t as int, k);
        },
    }
}

proof fn lemma_pairs_easy_1()
    ensures
        pairs_distinct(easy_phase(1)),
{
    let p = easy_phase(1);
    assert forall|k: int, l: int| 0 <= k < l < p.count implies (
        #[trigger] coefficient(p.a, k),
        coefficient(p.b, k),
    ) != (#[trigger] coefficient(p.a, l), coefficient(p.b, l)) by {
        assert(k == 0 || k == 1 || k == 2 || k == 3 || k == 4 || k == 5 || k == 6 || k == 7 || k == 8 || k == 9 || k == 10 || k == 11);
        assert(l == 0 || l == 1 || l == 2 || l == 3 || l == 4 || l == 5 || l == 6 || l == 7 || l == 8 || l == 9 || l == 10 || l == 11);
    }
}

proof fn lemma_pairs_easy_6()
    ensures
        pairs_distinct(easy_phase(6)),
{
    let p = easy_phase(6);
    assert forall|k: int, l: int| 0 <= k < l < p.count implies (
        #[trigger] coefficient(p.a, k),
        coefficient(p.b, k),
    ) != (#[trigger] coefficient(p.a, l), coefficient(p.b, l)) by {
        assert(k == 0 || k == 1 || k == 2 || k == 3 || k == 4 || k == 5 || k == 6 || k == 7 || k == 8 || k == 9 || k == 10 || k == 11);
        assert(l == 0 || l == 1 || l == 2 || l == 3 || l == 4 || l == 5 || l == 6 || l == 7 || l == 8 || l == 9 || l == 10 || l == 11);
    }
}

proof fn lemma_pairs_easy_7()
    ensures
        pairs_distinct(easy_phase(7)),
{
    let p = easy_phase(7);
    assert forall|k: int, l: int| 0 <= k < l < p.count implies (
        #[trigger] coefficient(p.a, k),
        coefficient(p.b, k),
    ) != (#[trigger] coefficient(p.a, l), coefficient(p.b, l)) by {
        assert(k == 0 || k == 1 || k == 2 || k == 3 || k == 4 || k == 5 || k == 6 || k == 7 || k == 8 || k == 9 || k == 10 || k == 11);
        assert(l == 0 || l == 1 || l == 2 || l == 3 || l == 4 || l == 5 || l == 6 || l == 7 || l == 8 || l == 9 || l == 10 || l == 11);
    }
}

proof fn lemma_pairs_easy_9()
    ensures
        pairs_distinct(easy_phase(9)),
{
    let p = easy_phase(9);
    assert forall|k: int, l: int| 0 <= k < l < p.count implies (
        #[trigger] coefficient(p.a, k),
        coefficient(p.b, k),
    ) != (#[trigger] coefficient(p.a, l), coefficient(p.b, l)) by {
        assert(k == 0 || k == 1 || k == 2 || k == 3 || k == 4 || k == 5 || k == 6 || k == 7 || k == 8 || k == 9 || k == 10 || k == 11);
        assert(l == 0 || l == 1 || l == 2 || l == 3 || l == 4 || l == 5 || l == 6 || l == 7 || l == 8 || l == 9 || l == 10 || l == 11);
    }
}

proof fn lemma_pairs_easy_12()
    ensures
        pairs_distinct(easy_phase(12)),
{
    let p = easy_phase(12);
    assert forall|k: int, l: int| 0 <= k < l < p.count implies (
        #[trigger] coefficient(p.a, k),
        coefficient(p.b, k),
    ) != (#[trigger] coefficient(p.a, l), coefficient(p.b, l)) by {
        assert(k == 0 || k == 1 || k == 2 || k == 3 || k == 4 || k == 5 || k == 6 || k == 7 || k == 8 || k == 9 || k == 10 || k == 11);
        assert(l == 0 || l == 1 || l == 2 || l == 3 || l == 4 || l == 5 || l == 6 || l == 7 || l == 8 || l == 9 || l == 10 || l == 11);
    }
}

proof fn lemma_pairs_hard_4()
    ensures
        pairs_distinct(hard_phase(4)),
{
    let p = hard_phase(4);
    assert forall|k: int, l: int| 0 <= k < l < p.count implies (
        #[trigger] coefficient(p.a, k),
        coefficient(p.b, k),
    ) != (#[trigger] coefficient(p.a, l), coefficient(p.b, l)) by {
        assert(k == 0 || k == 1 || k == 2 || k == 3 || k == 4 || k == 5 || k == 6 || k == 7 || k == 8 || k == 9 || k == 10 || k == 11);
        assert(l == 0 || l == 1 || l == 2 || l == 3 || l == 4 || l == 5 || l == 6 || l == 7 || l == 8 || l == 9 || l == 10 || l == 11);
        lemma_turn(k);
        lemma_turn(l);
    }
}

proof fn lemma_pairs_hard_6()
    ensures
        pairs_distinct(hard_phase(6)),
{
    let p = hard_phase(6);
    assert forall|k: int, l: int| 0 <= k < l < p.count implies (
        #[trigger] coefficient(p.a, k),
        coefficient(p.b, k),
    ) != (#[trigger] coefficient(p.a, l), coefficient(p.b, l)) by {
        assert(k == 0 || k == 1 || k == 2 || k == 3 || k == 4 || k == 5 || k == 6 || k == 7 || k == 8 || k == 9 || k == 10 || k == 11 || k == 12 || k == 13 || k == 14 || k == 15);
        assert(l == 0 || l == 1 || l == 2 || l == 3 || l == 4 || l == 5 || l == 6 || l == 7 || l == 8 || l == 9 || l == 10 || l == 11 || l == 12 || l == 13 || l == 14 || l == 15);
    }
}

proof fn lemma_pairs_hard_9()
    ensures
        pairs_distinct(hard_phase(9)),
{
    let p = hard_phase(9);
    assert forall|k: int, l: int| 0 <= k < l < p.count implies (
        #[trigger] coefficient(p.a, k),
        coefficient(p.b, k),
    ) != (#[trigger] coefficient(p.a, l), coefficient(p.b, l)) by {
        assert(k == 0 || k == 1 || k == 2 || k == 3 || k == 4 || k == 5 || k == 6 || k == 7 || k == 8 || k == 9 || k == 10 || k == 11);
        assert(l == 0 || l == 1 || l == 2 || l == 3 || l == 4 || l == 5 || l == 6 || l == 7 || l == 8 || l == 9 || l == 10 || l == 11);
    }
}

proof fn lemma_easy_phase(n: int)
    requires
        0 <= n < EASY_PHASES,
    ensures
        phase_ok(easy_phase(n)),
        easy_phase(n).number == (if n <= 2 { n + 1 } else { n }),
        factor_at(true, easy_phase(n).a_at) && factor_at(true, easy_phase(n).b_at),
        product_at(true, easy_phase(n).c_at.0) && product_at(true, easy_phase(n).c_at.1),
{
    lemma_pairs_easy_1();
    lemma_pairs_easy_6();
    lemma_pairs_easy_7();
    lemma_pairs_easy_9();
    lemma_pairs_easy_12();
    assert(n == 0 || n == 1 || n == 2 || n == 3 || n == 4 || n == 5 || n == 6 || n == 7 || n == 8 || n == 9 || n == 10 || n == 11 || n == 12 || n == 13 || n == 14 || n == 15 || n == 16 || n == 17 || n == 18 || n == 19 || n == 20 || n == 21 || n == 22 || n == 23 || n == 24 || n == 25 || n == 26 || n == 27 || n == 28 || n == 29 || n == 30 || n == 31 || n == 32 || n == 33 || n == 34 || n == 35);
}

proof fn lemma_hard_phase(n: int)
    requires
        0 <= n < HARD_PHASES,
    ensures
        phase_ok(hard_phase(n)),
        hard_phase(n).number == (if n <= 2 { n + 1 } else { n }),
        factor_at(false, hard_phase(n).a_at) && factor_at(false, hard_phase(n).b_at),
        product_at(false, hard_phase(n).c_at.0) && product_at(false, hard_phase(n).c_at.1),
{
    lemma_pairs_hard_4();
    lemma_pairs_hard_6();
    lemma_pairs_hard_9();
    assert(n == 0 || n == 1 || n == 2 || n == 3 || n == 4 || n == 5 || n == 6 || n == 7 || n == 8 || n == 9 || n == 10 || n == 11 || n == 12 || n == 13 || n == 14 || n == 15 || n == 16 || n == 17 || n == 18 || n == 19 || n == 20 || n == 21 || n == 22 || n == 23 || n == 24 || n == 25 || n == 26 || n == 27 || n == 28 || n == 29 || n == 30 || n == 31 || n == 32 || n == 33 || n == 34 || n == 35 || n == 36 || n == 37 || n == 38 || n == 39 || n == 40 || n == 41 || n == 42 || n == 43 || n == 44 || n == 45 || n == 46);
}

proof fn lemma_phase(easy: bool, n: int)
    requires
        0 <= n < phases(easy),
    ensures
        phase_ok(phase_at(easy, n)),
        phase_at(easy, n).number == (if n <= 2 { n + 1 } else { n }),
        factor_at(easy, phase_at(easy, n).a_at) && factor_at(easy, phase_at(easy, n).b_at),
        product_at(easy, phase_at(easy, n).c_at.0) && product_at(easy, phase_at(easy, n).c_at.1),
{
    if easy {
        lemma_easy_phase(n);
    } else {
        lemma_hard_phase(n);
    }
}

proof fn lemma_totals()
    ensures
        total(true, EASY_PHASES as nat) == FINAL_EXP_EASY_WIRED_MULTS,
        total(false, HARD_PHASES as nat) == FINAL_EXP_HARD_WIRED_MULTS,
{
    assert(total(true, 0) == 0);
    assert(total(true, 1) == 6);
    assert(total(true, 2) == 18);
    assert(total(true, 3) == 24);
    assert(total(true, 4) == 30);
    assert(total(true, 5) == 36);
    assert(total(true, 6) == 42);
    assert(total(true, 7) == 54);
    assert(total(true, 8) == 66);
    assert(total(true, 9) == 76);
    assert(total(true, 10) == 88);
    assert(total(true, 11) == 94);
    assert(total(true, 12) == 100);
    assert(total(true, 13) == 112);
    assert(total(true, 14) == 124);
    assert(total(true, 15) == 142);
    assert(total(true, 16) == 160);
    assert(total(true, 17) == 178);
    assert(total(true, 18) == 196);
    assert(total(true, 19) == 214);
    assert(total(true, 20) == 226);
    assert(total(true, 21) == 238);
    assert(total(true, 22) == 248);
    assert(total(true, 23) == 258);
    assert(total(true, 24) == 268);
    assert(total(true, 25) == 278);
    assert(total(true, 26) == 288);
    assert(total(true, 27) == 298);
    assert(total(true, 28) == 308);
    assert(total(true, 29) == 318);
    assert(total(true, 30) == 330);
    assert(total(true, 31) == 342);
    assert(total(true, 32) == 358);
    assert(total(true, 33) == 374);
    assert(total(true, 34) == 386);
    assert(total(true, 35) == 398);
    assert(total(true, 36) == 410);
    assert(total(false, 0) == 0);
    assert(total(false, 1) == 6);
    assert(total(false, 2) == 18);
    assert(total(false, 3) == 24);
    assert(total(false, 4) == 30);
    assert(total(false, 5) == 42);
    assert(total(false, 6) == 48);
    assert(total(false, 7) == 64);
    assert(total(false, 8) == 80);
    assert(total(false, 9) == 96);
    assert(total(false, 10) == 108);
    assert(total(false, 11) == 120);
    assert(total(false, 12) == 132);
    assert(total(false, 13) == 148);
    assert(total(false, 14) == 166);
    assert(total(false, 15) == 184);
    assert(total(false, 16) == 202);
    assert(total(false, 17) == 226);
    assert(total(false, 18) == 250);
    assert(total(false, 19) == 274);
    assert(total(false, 20) == 298);
    assert(total(false, 21) == 322);
    assert(total(false, 22) == 346);
    assert(total(false, 23) == 370);
    assert(total(false, 24) == 386);
    assert(total(false, 25) == 402);
    assert(total(false, 26) == 418);
    assert(total(false, 27) == 434);
    assert(total(false, 28) == 450);
    assert(total(false, 29) == 466);
    assert(total(false, 30) == 482);
    assert(total(false, 31) == 498);
    assert(total(false, 32) == 514);
    assert(total(false, 33) == 530);
    assert(total(false, 34) == 546);
    assert(total(false, 35) == 562);
    assert(total(false, 36) == 578);
    assert(total(false, 37) == 594);
    assert(total(false, 38) == 612);
    assert(total(false, 39) == 630);
    assert(total(false, 40) == 648);
    assert(total(false, 41) == 672);
    assert(total(false, 42) == 696);
    assert(total(false, 43) == 720);
    assert(total(false, 44) == 742);
    assert(total(false, 45) == 764);
    assert(total(false, 46) == 786);
    assert(total(false, 47) == 808);
}

proof fn lemma_mults_len(easy: bool, n: nat)
    ensures
        mults(easy, n).len() == total(easy, n),
    decreases n,
{
    if n > 0 {
        lemma_mults_len(easy, (n - 1) as nat);
    }
}

/// The number of multiplications of each part.
pub proof fn law_mult_counts()
    ensures
        all_mults(true).len() == FINAL_EXP_EASY_WIRED_MULTS,
        all_mults(false).len() == FINAL_EXP_HARD_WIRED_MULTS,
{
    lemma_totals();
    lemma_mults_len(true, EASY_PHASES as nat);
    lemma_mults_len(false, HARD_PHASES as nat);
}

// ─── Descriptors ──────────────────────────────────────────────────────

fn coefficient_at(s: Slots, count: usize, k: usize) -> (r: usize)
    requires
        slots_ok(s, count as int),
        k < count <= 24,
    ensures
        r == coefficient(s, k as int),
        r < 12,
{
    proof {
        lemma_coefficient(s, count as int, k as int);
    }
    match s {
        Slots::Walk { f, m, d, n, base } => {
            assert(0 <= f * k <= 288) by (nonlinear_arith)
                requires
                    0 <= f <= 12,
                    0 <= k <= 24,
            ;
            base + ((f * k) % m + d) % n
        },
        Slots::Listed(t) => listed_at(t, k),
    }
}

fn mult_label_of(easy: bool, p: &Phase, k: usize) -> (r: String)
    requires
        phase_ok(*p),
        k < p.count,
    ensures
        r@ == mult_label(easy, *p, k as int),
{
    let i: u64 = coefficient_at(p.a, p.count, k) as u64;
    let j: u64 = coefficient_at(p.b, p.count, k) as u64;
    let mut text: String = if easy {
        "final_exp_easy_a".to_string()
    } else {
        "final_exp_hard_b".to_string()
    };
    text.append(decimal_string(p.number).as_str());
    text.append("_");
    text.append(p.name);
    text.append("_");
    let ghost head = text@;
    text.append(decimal_string(i).as_str());
    match p.form {
        Form::One => {},
        Form::Two => {
            text.append("_");
            text.append(decimal_string(j).as_str());
        },
        Form::Step => {
            text.append("_step_");
            text.append(decimal_string(k as u64).as_str());
        },
        Form::TwoStep => {
            text.append("_");
            text.append(decimal_string(j).as_str());
            text.append("_step_");
            text.append(decimal_string(k as u64).as_str());
        },
        Form::Rep(r) => {
            text.append("_rep_");
            text.append(decimal_string(r).as_str());
        },
    }
    text.append("_v1");
    assert(text@ =~= head + label_tail(*p, k as int));
    text
}

/// The descriptor of step `k` of a phase.
fn mult_descriptor(
    easy: bool,
    p: &Phase,
    k: usize,
    final_exp_layer_index: usize,
    nonnative_fp_layer_index: usize,
) -> (r: CrossAirLogUpDescriptor)
    requires
        phase_ok(*p),
        k < p.count,
    ensures
        r.is(
            mult_link(
                easy,
                mult_of(easy, *p, k as int),
                final_exp_layer_index as int,
                nonnative_fp_layer_index as int,
            ),
        ),
{
    let a: usize = p.a_at + 6 * coefficient_at(p.a, p.count, k);
    let b: usize = p.b_at + 6 * coefficient_at(p.b, p.count, k);
    let c_at: usize = if k % 2 == 0 {
        p.c_at.0
    } else {
        p.c_at.1
    };
    let c: usize = c_at + 6 * coefficient_at(p.c, p.count, k);
    let selector: usize = if easy {
        final_exp_air::COL_IS_EASY_STEP
    } else {
        final_exp_air::COL_IS_HARD_STEP
    };
    make_fp_mul_descriptor(
        a,
        b,
        c,
        selector,
        mult_label_of(easy, p, k),
        final_exp_layer_index,
        nonnative_fp_layer_index,
    )
}

/// Appends the descriptors of one phase.
fn push_phase(
    ds: &mut Vec<CrossAirLogUpDescriptor>,
    easy: bool,
    n: usize,
    p: Phase,
    final_exp_layer_index: usize,
    nonnative_fp_layer_index: usize,
)
    requires
        phase_ok(p),
        n < phases(easy),
        p == phase_at(easy, n as int),
        links_mults(
            old(ds)@,
            easy,
            mults(easy, n as nat),
            final_exp_layer_index as int,
            nonnative_fp_layer_index as int,
        ),
    ensures
        links_mults(
            final(ds)@,
            easy,
            mults(easy, (n + 1) as nat),
            final_exp_layer_index as int,
            nonnative_fp_layer_index as int,
        ),
{
    let ghost before = ds@;
    let ghost done = mults(easy, n as nat);
    let ghost (fe, nf) = (final_exp_layer_index as int, nonnative_fp_layer_index as int);
    let mut k: usize = 0;
    while k < p.count
        invariant
            k <= p.count,
            phase_ok(p),
            fe == final_exp_layer_index,
            nf == nonnative_fp_layer_index,
            links_mults(before, easy, done, fe, nf),
            ds.len() == before.len() + k,
            forall|i: int| 0 <= i < before.len() ==> ds@[i] == before[i],
            forall|i: int|
                0 <= i < k ==> (#[trigger] ds@[before.len() + i]).is(
                    mult_link(easy, mult_of(easy, p, i), fe, nf),
                ),
        decreases p.count - k,
    {
        ds.push(mult_descriptor(easy, &p, k, final_exp_layer_index, nonnative_fp_layer_index));
        k = k + 1;
    }
    proof {
        let all = mults(easy, (n + 1) as nat);
        assert forall|i: int| 0 <= i < ds.len() implies (#[trigger] ds@[i]).is(
            mult_link(easy, all[i], fe, nf),
        ) by {
            if i < before.len() {
                assert(before[i].is(mult_link(easy, done[i], fe, nf)));
            } else {
                let j = i - before.len();
                assert(ds@[before.len() + j].is(mult_link(easy, mult_of(easy, p, j), fe, nf)));
            }
        }
    }
}

#[derive(Clone, Debug)]
pub struct FinalExpEasyDescriptors {
    pub descriptors: Vec<CrossAirLogUpDescriptor>,
}

impl FinalExpEasyDescriptors {
    /// The descriptors of the easy part.
    pub fn build(final_exp_layer_index: usize, nonnative_fp_layer_index: usize) -> (r: Self)
        ensures
            r.descriptors.len() == FINAL_EXP_EASY_WIRED_MULTS,
            links_mults(
                r.descriptors@,
                true,
                all_mults(true),
                final_exp_layer_index as int,
                nonnative_fp_layer_index as int,
            ),
            forall|i: int|
                0 <= i < r.descriptors.len() ==> results_in_place(true, #[trigger] r.descriptors@[i]),
    {
        let mut descriptors: Vec<CrossAirLogUpDescriptor> = Vec::with_capacity(
            FINAL_EXP_EASY_WIRED_MULTS,
        );
        let mut n: usize = 0;
        while n < EASY_PHASES
            invariant
                n <= EASY_PHASES,
                links_mults(
                    descriptors@,
                    true,
                    mults(true, n as nat),
                    final_exp_layer_index as int,
                    nonnative_fp_layer_index as int,
                ),
            decreases EASY_PHASES - n,
        {
            proof {
                lemma_phase(true, n as int);
            }
            push_phase(
                &mut descriptors,
                true,
                n,
                easy_phase_at(n),
                final_exp_layer_index,
                nonnative_fp_layer_index,
            );
            n = n + 1;
        }
        proof {
            law_mult_counts();
            lemma_results(
                true,
                descriptors@,
                final_exp_layer_index as int,
                nonnative_fp_layer_index as int,
            );
        }
        Self { descriptors }
    }

    pub fn wired_count(&self) -> (r: usize)
        ensures
            r == self.descriptors.len(),
    {
        self.descriptors.len()
    }

    /// Linked multiplications and all multiplications.
    pub fn coverage(&self) -> (r: (usize, usize))
        ensures
            r == (self.descriptors.len(), FINAL_EXP_EASY_TOTAL_MULTS),
    {
        (self.wired_count(), FINAL_EXP_EASY_TOTAL_MULTS)
    }
}

#[derive(Clone, Debug)]
pub struct FinalExpHardDescriptors {
    pub descriptors: Vec<CrossAirLogUpDescriptor>,
}

impl FinalExpHardDescriptors {
    /// The descriptors of the hard part.
    pub fn build(final_exp_layer_index: usize, nonnative_fp_layer_index: usize) -> (r: Self)
        ensures
            r.descriptors.len() == FINAL_EXP_HARD_WIRED_MULTS,
            links_mults(
                r.descriptors@,
                false,
                all_mults(false),
                final_exp_layer_index as int,
                nonnative_fp_layer_index as int,
            ),
            forall|i: int|
                0 <= i < r.descriptors.len() ==> results_in_place(false, #[trigger] r.descriptors@[i]),
    {
        let mut descriptors: Vec<CrossAirLogUpDescriptor> = Vec::with_capacity(
            FINAL_EXP_HARD_WIRED_MULTS,
        );
        let mut n: usize = 0;
        while n < HARD_PHASES
            invariant
                n <= HARD_PHASES,
                links_mults(
                    descriptors@,
                    false,
                    mults(false, n as nat),
                    final_exp_layer_index as int,
                    nonnative_fp_layer_index as int,
                ),
            decreases HARD_PHASES - n,
        {
            proof {
                lemma_phase(false, n as int);
            }
            push_phase(
                &mut descriptors,
                false,
                n,
                hard_phase_at(n),
                final_exp_layer_index,
                nonnative_fp_layer_index,
            );
            n = n + 1;
        }
        proof {
            law_mult_counts();
            lemma_results(
                false,
                descriptors@,
                final_exp_layer_index as int,
                nonnative_fp_layer_index as int,
            );
        }
        Self { descriptors }
    }

    pub fn wired_count(&self) -> (r: usize)
        ensures
            r == self.descriptors.len(),
    {
        self.descriptors.len()
    }

    /// Linked multiplications and all multiplications.
    pub fn coverage(&self) -> (r: (usize, usize))
        ensures
            r == (self.descriptors.len(), FINAL_EXP_HARD_TOTAL_MULTS),
    {
        (self.wired_count(), FINAL_EXP_HARD_TOTAL_MULTS)
    }
}

// ─── Cyclotomic squaring ──────────────────────────────────────────────

/// The three multiplications of each of the six steps of a cyclotomic
/// squaring (Granger and Scott): the real parts, the imaginary parts, and the
/// cross term.
pub open spec fn squaring_mult(step: int, part: int) -> Mult {
    let i = 2 * (step / 2);
    let j = i + 6;
    let head = "final_exp_granger_scott_step"@ + label::decimal(step as nat);
    if part == 0 {
        Mult { a: EASY + 6 * i, b: EASY + 6 * j, c: HARD + 6 * i, label: head + "_lo_v1"@ }
    } else if part == 1 {
        Mult {
            a: EASY + 6 * (i + 1),
            b: EASY + 6 * (j + 1),
            c: HARD + 6 * (i + 1),
            label: head + "_hi_v1"@,
        }
    } else {
        Mult { a: EASY + 6 * i, b: EASY + 6 * j, c: LAST + 6 * j, label: head + "_mid_v1"@ }
    }
}

/// The multiplications of a cyclotomic squaring.
pub open spec fn squaring_mults() -> Seq<Mult> {
    Seq::new(18, |i: int| squaring_mult(i / 3, i % 3))
}

fn squaring_descriptor(
    step: usize,
    part: usize,
    final_exp_layer_index: usize,
    nonnative_fp_layer_index: usize,
) -> (r: CrossAirLogUpDescriptor)
    requires
        step < 6,
        part < 3,
    ensures
        r.is(
            mult_link(
                false,
                squaring_mult(step as int, part as int),
                final_exp_layer_index as int,
                nonnative_fp_layer_index as int,
            ),
        ),
{
    let i: usize = 2 * (step / 2);
    let j: usize = i + 6;
    let mut text: String = "final_exp_granger_scott_step".to_string();
    text.append(decimal_string(step as u64).as_str());
    let (a, b, c): (usize, usize, usize) = if part == 0 {
        text.append("_lo_v1");
        (EASY + 6 * i, EASY + 6 * j, HARD + 6 * i)
    } else if part == 1 {
        text.append("_hi_v1");
        (EASY + 6 * (i + 1), EASY + 6 * (j + 1), HARD + 6 * (i + 1))
    } else {
        text.append("_mid_v1");
        (EASY + 6 * i, EASY + 6 * j, LAST + 6 * j)
    };
    make_fp_mul_descriptor(
        a,
        b,
        c,
        final_exp_air::COL_IS_HARD_STEP,
        text,
        final_exp_layer_index,
        nonnative_fp_layer_index,
    )
}

#[derive(Clone, Debug)]
pub struct FinalExpGrangerScottDescriptors {
    pub descriptors: Vec<CrossAirLogUpDescriptor>,
}

impl FinalExpGrangerScottDescriptors {
    /// The descriptors of one cyclotomic squaring.
    pub fn build(final_exp_layer_index: usize, nonnative_fp_layer_index: usize) -> (r: Self)
        ensures
            r.descriptors.len() == FINAL_EXP_GRANGER_SCOTT_WIRED_MULTS,
            links_mults(
                r.descriptors@,
                false,
                squaring_mults(),
                final_exp_layer_index as int,
                nonnative_fp_layer_index as int,
            ),
    {
        let mut descriptors: Vec<CrossAirLogUpDescriptor> = Vec::with_capacity(
            FINAL_EXP_GRANGER_SCOTT_WIRED_MULTS,
        );
        let mut i: usize = 0;
        while i < FINAL_EXP_GRANGER_SCOTT_WIRED_MULTS
            invariant
                i <= 18,
                descriptors.len() == i,
                forall|k: int|
                    0 <= k < i ==> (#[trigger] descriptors@[k]).is(
                        mult_link(
                            false,
                            squaring_mults()[k],
                            final_exp_layer_index as int,
                            nonnative_fp_layer_index as int,
                        ),
                    ),
            decreases 18 - i,
        {
            descriptors.push(
                squaring_descriptor(i / 3, i % 3, final_exp_layer_index, nonnative_fp_layer_index),
            );
            i = i + 1;
        }
        Self { descriptors }
    }

    pub fn wired_count(&self) -> (r: usize)
        ensures
            r == self.descriptors.len(),
    {
        self.descriptors.len()
    }

    /// Linked multiplications and all multiplications.
    pub fn coverage(&self) -> (r: (usize, usize))
        ensures
            r == (self.descriptors.len(), FINAL_EXP_GRANGER_SCOTT_TOTAL_MULTS),
    {
        (self.wired_count(), FINAL_EXP_GRANGER_SCOTT_TOTAL_MULTS)
    }
}

/// The descriptors of one cyclotomic squaring.
pub fn make_final_exp_granger_scott_cyclotomic_square_descriptors(
    final_exp_layer_index: usize,
    nonnative_fp_layer_index: usize,
) -> (r: Vec<CrossAirLogUpDescriptor>)
    ensures
        r.len() == FINAL_EXP_GRANGER_SCOTT_WIRED_MULTS,
        links_mults(
            r@,
            false,
            squaring_mults(),
            final_exp_layer_index as int,
            nonnative_fp_layer_index as int,
        ),
{
    FinalExpGrangerScottDescriptors::build(
        final_exp_layer_index,
        nonnative_fp_layer_index,
    ).descriptors
}

// ─── Labels ───────────────────────────────────────────────────────────

proof fn lemma_cut(head: Seq<char>, x: Seq<char>, y: Seq<char>)
    requires
        head + x == head + y,
    ensures
        x == y,
{
    assert((head + x).skip(head.len() as int) =~= x);
    assert((head + y).skip(head.len() as int) =~= y);
}

/// A number and an underscore in front determine the number and the rest.
proof fn lemma_number(a: nat, x: Seq<char>, b: nat, y: Seq<char>)
    requires
        label::decimal(a) + seq!['_'] + x == label::decimal(b) + seq!['_'] + y,
    ensures
        a == b,
        x == y,
{
    label::lemma_decimal_chars(a);
    label::lemma_decimal_chars(b);
    label::lemma_split_at_underscore(label::decimal(a), x, label::decimal(b), y);
    label::lemma_decimal_injective(a, b);
}

/// What stands behind the first coefficient in a label.
spec fn tail_rest(p: Phase, k: int) -> Seq<char> {
    let j = label::decimal(coefficient(p.b, k) as nat);
    match p.form {
        Form::One => seq!['v', '1'],
        Form::Two => j + seq!['_'] + seq!['v', '1'],
        Form::Step => seq!['s', 't', 'e', 'p', '_'] + (label::decimal(k as nat) + seq!['_'] + seq![
            'v',
            '1',
        ]),
        Form::TwoStep => j + seq!['_'] + (seq!['s', 't', 'e', 'p', '_'] + (label::decimal(k as nat)
            + seq!['_'] + seq!['v', '1'])),
        Form::Rep(r) => seq!['r', 'e', 'p', '_'] + (label::decimal(r as nat) + seq!['_'] + seq![
            'v',
            '1',
        ]),
    }
}

proof fn lemma_regroup(i: Seq<char>, x: Seq<char>, j: Seq<char>, y: Seq<char>)
    ensures
        i + (seq!['_'] + x) + j + (seq!['_'] + y) == i + seq!['_'] + (x + (j + seq!['_'] + y)),
{
    assert(i + (seq!['_'] + x) + j + (seq!['_'] + y) =~= i + seq!['_'] + (x + (j + seq!['_']
        + y)));
}

proof fn lemma_regroup_two(
    i: Seq<char>,
    j: Seq<char>,
    x: Seq<char>,
    k: Seq<char>,
    y: Seq<char>,
)
    ensures
        i + seq!['_'] + j + (seq!['_'] + x) + k + (seq!['_'] + y) == i + seq!['_'] + (j + seq!['_']
            + (x + (k + seq!['_'] + y))),
{
    assert(i + seq!['_'] + j + (seq!['_'] + x) + k + (seq!['_'] + y) =~= i + seq!['_'] + (j + seq![
        '_',
    ] + (x + (k + seq!['_'] + y))));
}

proof fn lemma_tail(p: Phase, k: int)
    ensures
        label_tail(p, k) == label::decimal(coefficient(p.a, k) as nat) + seq!['_'] + tail_rest(p, k),
{
    let i = label::decimal(coefficient(p.a, k) as nat);
    let j = label::decimal(coefficient(p.b, k) as nat);
    let v1 = seq!['v', '1'];
    let step = seq!['s', 't', 'e', 'p', '_'];
    let rep = seq!['r', 'e', 'p', '_'];
    assert("_v1"@ == seq!['_'] + v1 && "_"@ == seq!['_'] && "_step_"@ == seq!['_'] + step
        && "_rep_"@ == seq!['_'] + rep) by {
        reveal_strlit("_v1");
        reveal_strlit("_");
        reveal_strlit("_step_");
        reveal_strlit("_rep_");
        assert("_v1"@ =~= seq!['_'] + v1);
        assert("_"@ =~= seq!['_']);
        assert("_step_"@ =~= seq!['_'] + step);
        assert("_rep_"@ =~= seq!['_'] + rep);
    }
    match p.form {
        Form::One => {
            assert(i + (seq!['_'] + v1) =~= i + seq!['_'] + v1);
        },
        Form::Two => {
            assert(i + seq!['_'] + j + (seq!['_'] + v1) =~= i + seq!['_'] + (j + seq!['_'] + v1));
        },
        Form::Step => {
            lemma_regroup(i, step, label::decimal(k as nat), v1);
        },
        Form::TwoStep => {
            lemma_regroup_two(i, j, step, label::decimal(k as nat), v1);
        },
        Form::Rep(r) => {
            lemma_regroup(i, rep, label::decimal(r as nat), v1);
        },
    }
}

/// Within a phase, labels tell the steps apart.
proof fn lemma_tails_distinct(p: Phase, k: int, l: int)
    requires
        phase_ok(p),
        0 <= k < p.count,
        0 <= l < p.count,
        label_tail(p, k) == label_tail(p, l),
    ensures
        k == l,
{
    lemma_tail(p, k);
    lemma_tail(p, l);
    lemma_coefficient(p.a, p.count as int, k);
    lemma_coefficient(p.a, p.count as int, l);
    lemma_coefficient(p.b, p.count as int, k);
    lemma_coefficient(p.b, p.count as int, l);
    lemma_number(
        coefficient(p.a, k) as nat,
        tail_rest(p, k),
        coefficient(p.a, l) as nat,
        tail_rest(p, l),
    );
    let v1 = seq!['v', '1'];
    let step = seq!['s', 't', 'e', 'p', '_'];
    let (x, y) = (
        label::decimal(k as nat) + seq!['_'] + v1,
        label::decimal(l as nat) + seq!['_'] + v1,
    );
    match p.form {
        Form::One => {},
        Form::Rep(_) => {},
        Form::Two => {
            lemma_number(coefficient(p.b, k) as nat, v1, coefficient(p.b, l) as nat, v1);
            if k < l {
                assert((coefficient(p.a, k), coefficient(p.b, k)) != (
                    coefficient(p.a, l),
                    coefficient(p.b, l),
                ));
            } else if l < k {
                assert((coefficient(p.a, l), coefficient(p.b, l)) != (
                    coefficient(p.a, k),
                    coefficient(p.b, k),
                ));
            }
        },
        Form::Step => {
            lemma_cut(step, x, y);
            lemma_number(k as nat, v1, l as nat, v1);
        },
        Form::TwoStep => {
            lemma_number(
                coefficient(p.b, k) as nat,
                step + x,
                coefficient(p.b, l) as nat,
                step + y,
            );
            lemma_cut(step, x, y);
            lemma_number(k as nat, v1, l as nat, v1);
        },
    }
}

/// A label behind the head of its part.
spec fn label_body(p: Phase, k: int) -> Seq<char> {
    p.name@ + seq!['_'] + label_tail(p, k)
}

proof fn lemma_label(easy: bool, p: Phase, k: int)
    ensures
        mult_label(easy, p, k) == label_head(easy) + (label::decimal(p.number as nat) + seq!['_']
            + label_body(p, k)),
{
    reveal_strlit("_");
    assert("_"@ =~= seq!['_']);
    assert(mult_label(easy, p, k) =~= label_head(easy) + (label::decimal(p.number as nat) + seq![
        '_',
    ] + label_body(p, k)));
}

/// The two phases of the easy part that share a number have labels apart.
proof fn lemma_easy_twins(k: int, l: int)
    requires
        0 <= k < 6,
        0 <= l < 6,
    ensures
        label_body(easy_phase(2), k) != label_body(easy_phase(3), l),
{
    reveal_strlit("c0sq_recip");
    reveal_strlit("c1sq_recip");
    assert(label_body(easy_phase(2), k)[1] == '0');
    assert(label_body(easy_phase(3), l)[1] == '1');
}

/// The two phases of the hard part that share a number have labels apart.
proof fn lemma_hard_twins(k: int, l: int)
    requires
        0 <= k < 6,
        0 <= l < 6,
    ensures
        label_body(hard_phase(2), k) != label_body(hard_phase(3), l),
{
    let (p, q) = (hard_phase(2), hard_phase(3));
    if label_body(p, k) == label_body(q, l) {
        lemma_cut(p.name@ + seq!['_'], label_tail(p, k), label_tail(q, l));
        lemma_tail(p, k);
        lemma_tail(q, l);
        lemma_number(
            coefficient(p.a, k) as nat,
            tail_rest(p, k),
            coefficient(q.a, l) as nat,
            tail_rest(q, l),
        );
        let v1 = seq!['v', '1'];
        lemma_cut(
            seq!['r', 'e', 'p', '_'],
            label::decimal(0) + seq!['_'] + v1,
            label::decimal(1) + seq!['_'] + v1,
        );
        lemma_number(0, v1, 1, v1);
    }
}

/// Labels tell apart the steps of a part.
proof fn lemma_labels_distinct(easy: bool, n: int, k: int, n2: int, l: int)
    requires
        0 <= n < phases(easy),
        0 <= n2 < phases(easy),
        0 <= k < phase_at(easy, n).count,
        0 <= l < phase_at(easy, n2).count,
        mult_label(easy, phase_at(easy, n), k) == mult_label(easy, phase_at(easy, n2), l),
    ensures
        n == n2,
        k == l,
{
    let (p, q) = (phase_at(easy, n), phase_at(easy, n2));
    lemma_phase(easy, n);
    lemma_phase(easy, n2);
    lemma_label(easy, p, k);
    lemma_label(easy, q, l);
    lemma_cut(
        label_head(easy),
        label::decimal(p.number as nat) + seq!['_'] + label_body(p, k),
        label::decimal(q.number as nat) + seq!['_'] + label_body(q, l),
    );
    lemma_number(p.number as nat, label_body(p, k), q.number as nat, label_body(q, l));
    if n != n2 {
        if easy {
            if n == 2 {
                lemma_easy_twins(k, l);
            } else {
                lemma_easy_twins(l, k);
            }
        } else {
            if n == 2 {
                lemma_hard_twins(k, l);
            } else {
                lemma_hard_twins(l, k);
            }
        }
    } else {
        lemma_cut(p.name@ + seq!['_'], label_tail(p, k), label_tail(p, l));
        lemma_tails_distinct(p, k, l);
    }
}

/// The phase and the step of multiplication `i` of the first `n` phases.
pub open spec fn locate(easy: bool, n: nat, i: int) -> (int, int)
    decreases n,
{
    if n == 0 {
        (0, 0)
    } else if i >= total(easy, (n - 1) as nat) {
        (n - 1, i - total(easy, (n - 1) as nat))
    } else {
        locate(easy, (n - 1) as nat, i)
    }
}

proof fn lemma_locate(easy: bool, n: nat, i: int)
    requires
        n <= phases(easy),
        0 <= i < total(easy, n),
    ensures
        ({
            let (p, k) = locate(easy, n, i);
            &&& 0 <= p < n
            &&& 0 <= k < phase_at(easy, p).count
            &&& i == total(easy, p as nat) + k
            &&& mults(easy, n)[i] == mult_of(easy, phase_at(easy, p), k)
        }),
    decreases n,
{
    lemma_mults_len(easy, n);
    if n > 0 {
        lemma_mults_len(easy, (n - 1) as nat);
        if i < total(easy, (n - 1) as nat) {
            lemma_locate(easy, (n - 1) as nat, i);
        }
    }
}

/// The multiplications of a part have labels of their own.
pub proof fn law_labels_distinct(easy: bool, i: int, j: int)
    requires
        0 <= i < all_mults(easy).len(),
        0 <= j < all_mults(easy).len(),
        all_mults(easy)[i].label == all_mults(easy)[j].label,
    ensures
        i == j,
{
    let n = phases(easy);
    lemma_mults_len(easy, n);
    lemma_locate(easy, n, i);
    lemma_locate(easy, n, j);
    let (p, k) = locate(easy, n, i);
    let (q, l) = locate(easy, n, j);
    lemma_labels_distinct(easy, p, k, q, l);
}

/// The labels of the easy part, of the hard part and of the cyclotomic
/// squaring have different heads.
pub proof fn law_parts_disjoint(i: int, j: int, s: int)
    requires
        0 <= i < all_mults(true).len(),
        0 <= j < all_mults(false).len(),
        0 <= s < squaring_mults().len(),
    ensures
        all_mults(true)[i].label != all_mults(false)[j].label,
        all_mults(true)[i].label != squaring_mults()[s].label,
        all_mults(false)[j].label != squaring_mults()[s].label,
{
    reveal_strlit("final_exp_easy_a");
    reveal_strlit("final_exp_hard_b");
    reveal_strlit("final_exp_granger_scott_step");
    lemma_mults_len(true, phases(true));
    lemma_mults_len(false, phases(false));
    lemma_locate(true, phases(true), i);
    lemma_locate(false, phases(false), j);
    assert(all_mults(true)[i].label[10] == 'e');
    assert(all_mults(false)[j].label[10] == 'h');
    assert(squaring_mults()[s].label[10] == 'g');
}

/// The multiplications of a cyclotomic squaring have labels of their own.
pub proof fn law_squaring_labels_distinct(i: int, j: int)
    requires
        0 <= i < 18,
        0 <= j < 18,
        squaring_mults()[i].label == squaring_mults()[j].label,
    ensures
        i == j,
{
    reveal_strlit("_lo_v1");
    reveal_strlit("_hi_v1");
    reveal_strlit("_mid_v1");
    assert("_lo_v1"@ =~= seq!['_'] + seq!['l', 'o', '_', 'v', '1']);
    assert("_hi_v1"@ =~= seq!['_'] + seq!['h', 'i', '_', 'v', '1']);
    assert("_mid_v1"@ =~= seq!['_'] + seq!['m', 'i', 'd', '_', 'v', '1']);
    let head = "final_exp_granger_scott_step"@;
    let part = |k: int|
        if k % 3 == 0 {
            seq!['l', 'o', '_', 'v', '1']
        } else if k % 3 == 1 {
            seq!['h', 'i', '_', 'v', '1']
        } else {
            seq!['m', 'i', 'd', '_', 'v', '1']
        };
    let (x, y) = (
        label::decimal((i / 3) as nat) + seq!['_'] + part(i),
        label::decimal((j / 3) as nat) + seq!['_'] + part(j),
    );
    assert(squaring_mults()[i].label =~= head + x);
    assert(squaring_mults()[j].label =~= head + y);
    lemma_cut(head, x, y);
    lemma_number((i / 3) as nat, part(i), (j / 3) as nat, part(j));
    assert(part(i)[0] == part(j)[0]);
}

proof fn lemma_mult_columns(easy: bool, p: Phase, k: int)
    requires
        phase_ok(p),
        0 <= k < p.count,
    ensures
        0 <= mult_of(easy, p, k).a <= 282 && mult_of(easy, p, k).a % 6 == 0,
        0 <= mult_of(easy, p, k).b <= 282 && mult_of(easy, p, k).b % 6 == 0,
        0 <= mult_of(easy, p, k).c <= 282 && mult_of(easy, p, k).c % 6 == 0,
{
    lemma_coefficient(p.a, p.count as int, k);
    lemma_coefficient(p.b, p.count as int, k);
    lemma_coefficient(p.c, p.count as int, k);
}

/// The factors and products of all multiplications are coefficients of the
/// elements of a row.
pub proof fn law_columns_in_range(easy: bool, i: int)
    requires
        0 <= i < all_mults(easy).len(),
    ensures
        0 <= all_mults(easy)[i].a <= 282 && all_mults(easy)[i].a % 6 == 0,
        0 <= all_mults(easy)[i].b <= 282 && all_mults(easy)[i].b % 6 == 0,
        0 <= all_mults(easy)[i].c <= 282 && all_mults(easy)[i].c % 6 == 0,
{
    let n = phases(easy);
    lemma_mults_len(easy, n);
    lemma_locate(easy, n, i);
    let (p, k) = locate(easy, n, i);
    lemma_phase(easy, p);
    lemma_mult_columns(easy, phase_at(easy, p), k);
}

/// The results of the easy part lie in its output or in the exported element,
/// those of the hard part in the hard part's output or in the exported
/// element. The factors lie in the part's input or in its output.
pub proof fn law_results_in_place(easy: bool, i: int)
    requires
        0 <= i < all_mults(easy).len(),
    ensures
        product_column(easy, all_mults(easy)[i].c),
        easy ==> 72 <= all_mults(easy)[i].c < 144 || 216 <= all_mults(easy)[i].c < 288,
        !easy ==> 144 <= all_mults(easy)[i].c < 288,
        easy ==> 0 <= all_mults(easy)[i].a < 144 && 0 <= all_mults(easy)[i].b < 144,
        !easy ==> 72 <= all_mults(easy)[i].a < 216 && 72 <= all_mults(easy)[i].b < 216,
{
    let n = phases(easy);
    lemma_mults_len(easy, n);
    lemma_locate(easy, n, i);
    let (p, k) = locate(easy, n, i);
    lemma_phase(easy, p);
    let q = phase_at(easy, p);
    lemma_coefficient(q.a, q.count as int, k);
    lemma_coefficient(q.b, q.count as int, k);
    lemma_coefficient(q.c, q.count as int, k);
}

proof fn lemma_results(
    easy: bool,
    ds: Seq<CrossAirLogUpDescriptor>,
    final_exp_layer: int,
    nonnative_layer: int,
)
    requires
        links_mults(ds, easy, all_mults(easy), final_exp_layer, nonnative_layer),
    ensures
        forall|i: int| 0 <= i < ds.len() ==> results_in_place(easy, #[trigger] ds[i]),
{
    assert forall|i: int| 0 <= i < ds.len() implies results_in_place(easy, #[trigger] ds[i]) by {
        let link = mult_link(easy, all_mults(easy)[i], final_exp_layer, nonnative_layer);
        assert(ds[i].is(link));
        assert(cross_air_logup::indices(ds[i].b_columns@).len() == 18);
        assert(cross_air_logup::indices(ds[i].b_columns@)[12] == all_mults(easy)[i].c);
        law_results_in_place(easy, i);
    }
}

/// What a descriptor says beyond its columns in the trace of the final
/// exponentiation: on the side of the table it links the limbs of both factors
/// and of the product, on the other side three runs of six columns, and the
/// selectors are those of a multiplication and of the part.
pub proof fn law_descriptor_shape(
    ds: Seq<CrossAirLogUpDescriptor>,
    easy: bool,
    ms: Seq<Mult>,
    final_exp_layer: int,
    nonnative_layer: int,
    i: int,
)
    requires
        links_mults(ds, easy, ms, final_exp_layer, nonnative_layer),
        0 <= i < ds.len(),
    ensures
        ds[i].a_layer_index == nonnative_layer,
        ds[i].b_layer_index == final_exp_layer,
        ds[i].a_selector_column == Some(18usize),
        ds[i].b_selector_column == Some(
            if easy {
                288usize
            } else {
                289usize
            },
        ),
        ds[i].a_columns.len() == 18,
        forall|j: int| 0 <= j < 18 ==> #[trigger] ds[i].a_columns@[j] == j,
        ds[i].b_columns.len() == 18,
        forall|j: int| 0 <= j < 6 ==> #[trigger] ds[i].b_columns@[j] == ds[i].b_columns@[0] + j,
        forall|j: int| 6 <= j < 12 ==> #[trigger] ds[i].b_columns@[j] == ds[i].b_columns@[6] + j - 6,
        forall|j: int|
            12 <= j < 18 ==> #[trigger] ds[i].b_columns@[j] == ds[i].b_columns@[12] + j - 12,
{
    let link = mult_link(easy, ms[i], final_exp_layer, nonnative_layer);
    let d = ds[i];
    assert(d.is(link));
    let a = cross_air_logup::indices(d.a_columns@);
    let b = cross_air_logup::indices(d.b_columns@);
    assert(a.len() == 18 && b.len() == 18);
    assert forall|j: int| 0 <= j < 18 implies #[trigger] d.a_columns@[j] == j by {
        assert(a[j] == link.a_columns[j]);
    }
    assert(b[0] == ms[i].a && b[6] == ms[i].b && b[12] == ms[i].c);
    assert forall|j: int| 0 <= j < 18 implies #[trigger] d.b_columns@[j] == (if j < 6 {
        ms[i].a + j
    } else if j < 12 {
        ms[i].b + j - 6
    } else {
        ms[i].c + j - 12
    }) by {
        assert(b[j] == link.b_columns[j]);
    }
}

/// The descriptors of a cyclotomic squaring: three for each of six steps. Both
/// steps of pair `t` link the same columns. The first multiplies coefficient
/// `2 t` of the easy part's output by coefficient `2 t + 6` into coefficient
/// `2 t` of the hard part's output; the second does so one coefficient behind;
/// the third multiplies the factors of the first into coefficient `2 t + 6` of
/// the exported element.
pub proof fn law_squaring_columns(
    ds: Seq<CrossAirLogUpDescriptor>,
    final_exp_layer: int,
    nonnative_layer: int,
    t: int,
    u: int,
)
    requires
        links_mults(ds, false, squaring_mults(), final_exp_layer, nonnative_layer),
        0 <= t < 3,
        0 <= u < 2,
    ensures
        ds.len() == 18,
        ({
            let lo = ds[6 * t + 3 * u];
            let hi = ds[6 * t + 3 * u + 1];
            let mid = ds[6 * t + 3 * u + 2];
            let e = final_exp_air::COL_F_EASY_OUT_OFFSET;
            let h = final_exp_air::COL_F_HARD_OUT_OFFSET;
            let l = final_exp_air::COL_F_FINAL_OFFSET;
            &&& forall|j: int|
                0 <= j < 6 ==> {
                    &&& #[trigger] lo.b_columns@[j] == e + 6 * (2 * t) + j
                    &&& lo.b_columns@[6 + j] == e + 6 * (2 * t + 6) + j
                    &&& lo.b_columns@[12 + j] == h + 6 * (2 * t) + j
                }
            &&& forall|j: int|
                0 <= j < 18 ==> #[trigger] hi.b_columns@[j] == lo.b_columns@[j] + 6
            &&& forall|j: int| 0 <= j < 12 ==> #[trigger] mid.b_columns@[j] == lo.b_columns@[j]
            &&& forall|j: int|
                0 <= j < 6 ==> mid.b_columns@[#[trigger] (12 + j)] == l + 6 * (2 * t + 6) + j
            &&& forall|j: int|
                0 <= j < 18 ==> {
                    &&& #[trigger] ds[6 * t].b_columns@[j] == ds[6 * t + 3].b_columns@[j]
                    &&& ds[6 * t + 1].b_columns@[j] == ds[6 * t + 4].b_columns@[j]
                    &&& ds[6 * t + 2].b_columns@[j] == ds[6 * t + 5].b_columns@[j]
                }
            &&& lo.label@ == "final_exp_granger_scott_step"@ + label::decimal((2 * t + u) as nat)
                + "_lo_v1"@
            &&& hi.label@ == "final_exp_granger_scott_step"@ + label::decimal((2 * t + u) as nat)
                + "_hi_v1"@
            &&& mid.label@ == "final_exp_granger_scott_step"@ + label::decimal((2 * t + u) as nat)
                + "_mid_v1"@
        }),
{
    lemma_squaring_columns(ds, final_exp_layer, nonnative_layer, 2 * t, 0);
    lemma_squaring_columns(ds, final_exp_layer, nonnative_layer, 2 * t, 1);
    lemma_squaring_columns(ds, final_exp_layer, nonnative_layer, 2 * t, 2);
    lemma_squaring_columns(ds, final_exp_layer, nonnative_layer, 2 * t + 1, 0);
    lemma_squaring_columns(ds, final_exp_layer, nonnative_layer, 2 * t + 1, 1);
    lemma_squaring_columns(ds, final_exp_layer, nonnative_layer, 2 * t + 1, 2);
    assert((2 * t) / 2 == t && (2 * t + 1) / 2 == t);
    assert(6 * t + 3 * u == 3 * (2 * t + u));
    assert(u == 0 || u == 1);
}

proof fn lemma_squaring_columns(
    ds: Seq<CrossAirLogUpDescriptor>,
    final_exp_layer: int,
    nonnative_layer: int,
    k: int,
    p: int,
)
    requires
        links_mults(ds, false, squaring_mults(), final_exp_layer, nonnative_layer),
        0 <= k < 6,
        0 <= p < 3,
    ensures
        ds[3 * k + p].label@ == squaring_mult(k, p).label,
        ds[3 * k + p].b_columns.len() == 18,
        forall|j: int|
            0 <= j < 18 ==> #[trigger] ds[3 * k + p].b_columns@[j] == (if j < 6 {
                squaring_mult(k, p).a + j
            } else if j < 12 {
                squaring_mult(k, p).b + j - 6
            } else {
                squaring_mult(k, p).c + j - 12
            }),
{
    let i = 3 * k + p;
    let ms = squaring_mults();
    assert(i / 3 == k && i % 3 == p);
    assert(ms[i] == squaring_mult(k, p));
    let link = mult_link(false, ms[i], final_exp_layer, nonnative_layer);
    assert(ds[i].is(link));
    let b = cross_air_logup::indices(ds[i].b_columns@);
    assert(b.len() == 18);
    assert forall|j: int| 0 <= j < 18 implies #[trigger] ds[i].b_columns@[j] == (if j < 6 {
        ms[i].a + j
    } else if j < 12 {
        ms[i].b + j - 6
    } else {
        ms[i].c + j - 12
    }) by {
        assert(b[j] == link.b_columns[j]);
    }
}

} // verus!
