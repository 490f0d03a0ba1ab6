//! The final exponentiation of the BLS12-381 pairing: trace, constraints and
//! links.
//!
//! One row per step, easy or hard. The row holds the element before the step,
//! after the easy part, after the hard part, and as handed on, each as twelve
//! coefficients of six limbs. Behind them lies one slot of six limbs per
//! multiplication that the descriptors of
//! [`crate::final_exp_descriptors`] speak of.

use crate::constraints;
use crate::constraints::{binary, minus, rlc, rlc_diff, times};
use crate::cross_air_logup;
use crate::cross_air_logup::{column_run, push_run, CrossAirLogUpDescriptor};
use crate::expr;
use crate::expr::Expr;
use crate::field;
use crate::field::{CurveType, Scalar};
use crate::lookup::LookupRequirements;
use crate::final_exp_descriptors;
use crate::final_exp_descriptors::{FinalExpEasyDescriptors, FinalExpHardDescriptors};
use crate::miller_step_air;
use crate::modular;
use crate::nonnative_fp;
use crate::nonnative_fp::Fp;
use crate::nonnative_fp_air;
use crate::nonnative_tower::Fp12;
use crate::pairing;
use crate::poly_arith;
use crate::soundness;
use crate::trace;
use crate::trace::{trace_from_rows, TracePolynomials};
use vstd::prelude::*;

verus! {

pub const LIMBS_PER_FP: usize = 6;

pub const FP_PER_FP12: usize = 12;

pub const LIMBS_PER_FP12: usize = 72;

pub const FP_PER_FP6: usize = 6;

pub const LIMBS_PER_FP6: usize = 36;

pub const COL_F_PRE_OFFSET: usize = 0;

pub const COL_F_EASY_OUT_OFFSET: usize = 72;

pub const COL_F_HARD_OUT_OFFSET: usize = 144;

pub const COL_F_FINAL_OFFSET: usize = 216;

pub const COL_IS_EASY_STEP: usize = 288;

pub const COL_IS_HARD_STEP: usize = 289;

/// The columns before the slots of the multiplications.
pub const NUM_SCAFFOLD_COLUMNS: usize = 290;

/// The multiplications of the easy and the hard part.
pub const FE_INTERMEDIATE_NUM_DESCRIPTORS: usize = 1218;

pub const COL_FE_INTERMEDIATE_OFFSET: usize = 290;

pub const NUM_FE_INTERMEDIATE_COLUMNS: usize = 7308;

pub const NUM_COLUMNS: usize = 7598;

pub const NUM_ROW_CONSTRAINTS: usize = 5;

pub const NUM_SHIFTED: usize = 1;

/// The first column of the slot of a multiplication.
pub open spec fn slot(i: int) -> int {
    COL_FE_INTERMEDIATE_OFFSET + i * LIMBS_PER_FP
}

pub fn intermediate_c_base_for(descriptor_index: usize) -> (r: usize)
    requires
        COL_FE_INTERMEDIATE_OFFSET + descriptor_index * LIMBS_PER_FP <= usize::MAX,
    ensures
        r == slot(descriptor_index as int),
{
    COL_FE_INTERMEDIATE_OFFSET + descriptor_index * LIMBS_PER_FP
}

/// One step.
#[derive(Clone, Copy, Debug)]
pub struct FinalExpRow {
    pub f_pre: Fp12,
    pub f_easy_out: Fp12,
    pub f_hard_out: Fp12,
    pub f_final: Fp12,
    pub is_easy_step: bool,
    pub is_hard_step: bool,
}

#[derive(Clone, Debug, Default)]
pub struct FinalExpWitness {
    pub rows: Vec<FinalExpRow>,
}

/// An easy step hands its input on.
pub open spec fn easy_row(f_pre: Fp12) -> FinalExpRow {
    FinalExpRow {
        f_pre,
        f_easy_out: f_pre,
        f_hard_out: f_pre,
        f_final: f_pre,
        is_easy_step: true,
        is_hard_step: false,
    }
}

/// A hard step hands its output on.
pub open spec fn hard_row(f_pre: Fp12, f_hard_out: Fp12) -> FinalExpRow {
    FinalExpRow {
        f_pre,
        f_easy_out: f_pre,
        f_hard_out,
        f_final: f_hard_out,
        is_easy_step: false,
        is_hard_step: true,
    }
}

impl FinalExpWitness {
    pub fn new() -> (r: Self)
        ensures
            r.rows@ == Seq::<FinalExpRow>::empty(),
    {
        Self { rows: Vec::new() }
    }

    /// Appends an easy step.
    pub fn push_easy(&mut self, f_pre: Fp12)
        ensures
            final(self).rows@ == old(self).rows@.push(easy_row(f_pre)),
            final(self).rows@.last().f_pre == f_pre,
            final(self).rows@.last().f_easy_out == f_pre,
            final(self).rows@.last().f_hard_out == f_pre,
            final(self).rows@.last().f_final == f_pre,
            final(self).rows@.last().is_easy_step,
            !final(self).rows@.last().is_hard_step,
    {
        self.rows.push(
            FinalExpRow {
                f_pre,
                f_easy_out: f_pre,
                f_hard_out: f_pre,
                f_final: f_pre,
                is_easy_step: true,
                is_hard_step: false,
            },
        );
    }

    /// Appends a hard step.
    pub fn push_hard(&mut self, f_pre: Fp12, f_hard_out: Fp12)
        ensures
            final(self).rows@ == old(self).rows@.push(hard_row(f_pre, f_hard_out)),
            final(self).rows@.last().f_pre == f_pre,
            final(self).rows@.last().f_easy_out == f_pre,
            final(self).rows@.last().f_hard_out == f_hard_out,
            final(self).rows@.last().f_final == f_hard_out,
            !final(self).rows@.last().is_easy_step,
            final(self).rows@.last().is_hard_step,
    {
        self.rows.push(
            FinalExpRow {
                f_pre,
                f_easy_out: f_pre,
                f_hard_out,
                f_final: f_hard_out,
                is_easy_step: false,
                is_hard_step: true,
            },
        );
    }

    /// Appends a row as it is.
    pub fn push_raw(&mut self, row: FinalExpRow)
        ensures
            final(self).rows@ == old(self).rows@.push(row),
    {
        self.rows.push(row);
    }
}

// ─── Trace ────────────────────────────────────────────────────────────

/// Element `e` of a row: before, after the easy part, after the hard part, as
/// handed on.
pub open spec fn element(row: FinalExpRow, e: int) -> Fp12 {
    if e == 0 {
        row.f_pre
    } else if e == 1 {
        row.f_easy_out
    } else if e == 2 {
        row.f_hard_out
    } else {
        row.f_final
    }
}

/// Limb `j` of the 72 limbs of an element.
pub open spec fn limb(f: Fp12, j: int) -> int {
    f.coefficient(j / 6).limbs@[j % 6] as int
}

pub open spec fn bit(b: bool) -> int {
    if b {
        1
    } else {
        0
    }
}

/// The cell of a row in column `c`.
pub open spec fn row_cell(row: FinalExpRow, c: int) -> int {
    if c < COL_IS_EASY_STEP {
        limb(element(row, c / 72), c % 72)
    } else if c == COL_IS_EASY_STEP {
        bit(row.is_easy_step)
    } else if c == COL_IS_HARD_STEP {
        bit(row.is_hard_step)
    } else {
        0
    }
}

/// The cells of a witness.
pub open spec fn cells(rows: Seq<FinalExpRow>) -> spec_fn(int, int) -> int {
    |c: int, r: int| row_cell(rows[r], c)
}

fn element_at(row: &FinalExpRow, e: usize) -> (f: Fp12)
    ensures
        f == element(*row, e as int),
{
    if e == 0 {
        row.f_pre
    } else if e == 1 {
        row.f_easy_out
    } else if e == 2 {
        row.f_hard_out
    } else {
        row.f_final
    }
}

fn cell_value(row: &FinalExpRow, c: usize) -> (x: u64)
    requires
        c < NUM_COLUMNS,
    ensures
        x == row_cell(*row, c as int),
{
    if c < COL_IS_EASY_STEP {
        let j: usize = c % 72;
        element_at(row, c / 72).coefficient_at(j / 6).limbs[j % 6]
    } else if c == COL_IS_EASY_STEP {
        if row.is_easy_step {
            1
        } else {
            0
        }
    } else if c == COL_IS_HARD_STEP {
        if row.is_hard_step {
            1
        } else {
            0
        }
    } else {
        0
    }
}

fn row_scalars(row: &FinalExpRow, curve: CurveType) -> (v: Vec<Scalar>)
    ensures
        v.len() == NUM_COLUMNS,
        forall|c: int|
            0 <= c < NUM_COLUMNS ==> (#[trigger] v@[c]).curve() == curve && v@[c]@ == row_cell(
                *row,
                c,
            ),
{
    let mut v: Vec<Scalar> = Vec::with_capacity(NUM_COLUMNS);
    let mut c: usize = 0;
    while c < NUM_COLUMNS
        invariant
            c <= NUM_COLUMNS,
            v.len() == c,
            forall|k: int|
                0 <= k < c ==> (#[trigger] v@[k]).curve() == curve && v@[k]@ == row_cell(*row, k),
        decreases NUM_COLUMNS - c,
    {
        v.push(Scalar::from_u64(cell_value(row, c), curve));
        c = c + 1;
    }
    v
}

/// The trace of a witness; the slots of the multiplications are zero.
pub fn build_trace_polynomials(witness: &FinalExpWitness, curve: CurveType) -> (t: TracePolynomials)
    requires
        trace::paddable(witness.rows.len() as nat),
    ensures
        trace::holds(
            t,
            NUM_COLUMNS as nat,
            witness.rows.len() as nat,
            curve,
            cells(witness.rows@),
        ),
{
    let n: usize = witness.rows.len();
    let mut rows: Vec<Vec<Scalar>> = Vec::with_capacity(n);
    let ghost cell = cells(witness.rows@);
    let mut i: usize = 0;
    while i < n
        invariant
            i <= n,
            n == witness.rows.len(),
            cell == cells(witness.rows@),
            rows.len() == i,
            trace::rows_hold(rows@, NUM_COLUMNS as nat, curve, cell),
        decreases n - i,
    {
        let ghost before = rows@;
        rows.push(row_scalars(&witness.rows[i], curve));
        assert(forall|k: int| 0 <= k < i ==> rows@[k] == before[k]);
        i = i + 1;
    }
    trace_from_rows(&rows, NUM_COLUMNS, curve, Ghost(cell))
}

/// An easy step that is appended holds the same element everywhere and is
/// selected as easy alone; the steps before it stay.
pub proof fn law_easy_step(before: Seq<FinalExpRow>, after: Seq<FinalExpRow>, f: Fp12)
    requires
        after == before.push(easy_row(f)),
    ensures
        after.len() == before.len() + 1,
        forall|k: int| 0 <= k < before.len() ==> #[trigger] after[k] == before[k],
        after.last().f_pre == f,
        after.last().f_easy_out == f,
        after.last().f_hard_out == f,
        after.last().f_final == f,
        after.last().is_easy_step,
        !after.last().is_hard_step,
{
}

/// A hard step that is appended holds its input before the step and after the
/// easy part, holds its output after the hard part and as handed on, and is
/// selected as hard alone; the steps before it stay.
pub proof fn law_hard_step(before: Seq<FinalExpRow>, after: Seq<FinalExpRow>, f: Fp12, h: Fp12)
    requires
        after == before.push(hard_row(f, h)),
    ensures
        after.len() == before.len() + 1,
        forall|k: int| 0 <= k < before.len() ==> #[trigger] after[k] == before[k],
        after.last().f_pre == f,
        after.last().f_easy_out == f,
        after.last().f_easy_out == after.last().f_pre,
        after.last().f_hard_out == h,
        after.last().f_final == h,
        !after.last().is_easy_step,
        after.last().is_hard_step,
{
}

/// The trace of a witness holds, on the row of each step, the limbs of its four
/// elements, coefficient by coefficient, its selectors, and zeros behind them.
pub proof fn law_trace_holds_steps(
    w: FinalExpWitness,
    t: TracePolynomials,
    curve: CurveType,
    r: int,
)
    requires
        trace::holds(t, NUM_COLUMNS as nat, w.rows.len() as nat, curve, cells(w.rows@)),
        0 <= r < w.rows.len(),
    ensures
        holds_element(t, COL_F_PRE_OFFSET as int, r, w.rows@[r].f_pre),
        holds_element(t, COL_F_EASY_OUT_OFFSET as int, r, w.rows@[r].f_easy_out),
        holds_element(t, COL_F_HARD_OUT_OFFSET as int, r, w.rows@[r].f_hard_out),
        holds_element(t, COL_F_FINAL_OFFSET as int, r, w.rows@[r].f_final),
        trace::at(t, COL_IS_EASY_STEP as int, r) == (if w.rows@[r].is_easy_step {
            1int
        } else {
            0int
        }),
        trace::at(t, COL_IS_HARD_STEP as int, r) == (if w.rows@[r].is_hard_step {
            1int
        } else {
            0int
        }),
        forall|c: int| 290 <= c < 7598 ==> #[trigger] trace::at(t, c, r) == 0,
{
    trace::lemma_cells(t, NUM_COLUMNS as nat, w.rows.len() as nat, curve, cells(w.rows@), r);
    lemma_holds_elements(t, r, w.rows@[r]);
}

/// The 72 cells from column `from` are the limbs of an element: coefficient by
/// coefficient, and of each the most significant limb first.
pub open spec fn holds_element(t: TracePolynomials, from: int, r: int, f: Fp12) -> bool {
    forall|i: int, j: int|
        0 <= i < 12 && 0 <= j < 6 ==> trace::at(t, #[trigger] (from + 6 * i + j), r)
            == f.coefficient(i).limbs@[j]
}

proof fn lemma_holds_elements(t: TracePolynomials, r: int, row: FinalExpRow)
    requires
        forall|c: int|
            0 <= c < COL_IS_EASY_STEP ==> #[trigger] trace::at(t, c, r) == row_cell(row, c),
    ensures
        holds_element(t, COL_F_PRE_OFFSET as int, r, row.f_pre),
        holds_element(t, COL_F_EASY_OUT_OFFSET as int, r, row.f_easy_out),
        holds_element(t, COL_F_HARD_OUT_OFFSET as int, r, row.f_hard_out),
        holds_element(t, COL_F_FINAL_OFFSET as int, r, row.f_final),
{
    assert forall|e: int, i: int, j: int|
        0 <= e < 4 && 0 <= i < 12 && 0 <= j < 6 implies trace::at(
        t,
        #[trigger] (72 * e + 6 * i + j),
        r,
    ) == element(row, e).coefficient(i).limbs@[j] by {
        let c = 72 * e + 6 * i + j;
        assert(c / 72 == e && c % 72 == 6 * i + j);
        assert((6 * i + j) / 6 == i && (6 * i + j) % 6 == j);
        assert(trace::at(t, c, r) == row_cell(row, c));
    }
    assert forall|i: int, j: int| 0 <= i < 12 && 0 <= j < 6 implies {
        &&& trace::at(t, #[trigger] (COL_F_PRE_OFFSET + 6 * i + j), r)
            == row.f_pre.coefficient(i).limbs@[j]
        &&& trace::at(t, COL_F_EASY_OUT_OFFSET + 6 * i + j, r)
            == row.f_easy_out.coefficient(i).limbs@[j]
        &&& trace::at(t, COL_F_HARD_OUT_OFFSET + 6 * i + j, r)
            == row.f_hard_out.coefficient(i).limbs@[j]
        &&& trace::at(t, COL_F_FINAL_OFFSET + 6 * i + j, r)
            == row.f_final.coefficient(i).limbs@[j]
    } by {
        assert(72 * 0 + 6 * i + j == COL_F_PRE_OFFSET + 6 * i + j);
        assert(72 * 1 + 6 * i + j == COL_F_EASY_OUT_OFFSET + 6 * i + j);
        assert(72 * 2 + 6 * i + j == COL_F_HARD_OUT_OFFSET + 6 * i + j);
        assert(72 * 3 + 6 * i + j == COL_F_FINAL_OFFSET + 6 * i + j);
    }
}

// ─── Constraints ──────────────────────────────────────────────────────

/// The constraints on a row:
/// the selectors are bits and exclude each other; an easy step keeps the first
/// half of the element; a hard step hands its output on.
pub open spec fn row_constraints() -> Seq<Expr> {
    seq![
        constraints::binary_of(COL_IS_EASY_STEP),
        constraints::binary_of(COL_IS_HARD_STEP),
        constraints::mul_of(Expr::Col(COL_IS_EASY_STEP), Expr::Col(COL_IS_HARD_STEP)),
        constraints::mul_of(
            Expr::Col(COL_IS_EASY_STEP),
            constraints::rlc_diff_of(COL_F_EASY_OUT_OFFSET, COL_F_PRE_OFFSET, 36),
        ),
        constraints::mul_of(
            Expr::Col(COL_IS_HARD_STEP),
            constraints::rlc_diff_of(COL_F_FINAL_OFFSET, COL_F_HARD_OUT_OFFSET, 72),
        ),
    ]
}

fn constraint_list() -> (r: Vec<Expr>)
    ensures
        r@ == row_constraints(),
        constraints::well_formed(r@, NUM_SCAFFOLD_COLUMNS as nat, 0),
{
    let mut r: Vec<Expr> = Vec::with_capacity(NUM_ROW_CONSTRAINTS);
    r.push(binary(COL_IS_EASY_STEP));
    r.push(binary(COL_IS_HARD_STEP));
    r.push(times(Expr::Col(COL_IS_EASY_STEP), Expr::Col(COL_IS_HARD_STEP)));
    r.push(
        times(
            Expr::Col(COL_IS_EASY_STEP),
            rlc_diff(COL_F_EASY_OUT_OFFSET, COL_F_PRE_OFFSET, LIMBS_PER_FP6),
        ),
    );
    r.push(
        times(
            Expr::Col(COL_IS_HARD_STEP),
            rlc_diff(COL_F_FINAL_OFFSET, COL_F_HARD_OUT_OFFSET, LIMBS_PER_FP12),
        ),
    );
    assert(r@ =~= row_constraints());
    proof {
        lemma_well_formed();
    }
    r
}

proof fn lemma_well_formed()
    ensures
        constraints::well_formed(row_constraints(), NUM_SCAFFOLD_COLUMNS as nat, 0),
{
    let n = NUM_SCAFFOLD_COLUMNS as nat;
    let es = row_constraints();
    constraints::lemma_fits_binary(COL_IS_EASY_STEP, n, 0);
    constraints::lemma_fits_binary(COL_IS_HARD_STEP, n, 0);
    constraints::lemma_fits_rlc_diff(COL_F_EASY_OUT_OFFSET, COL_F_PRE_OFFSET, 36, n, 0);
    constraints::lemma_fits_rlc_diff(COL_F_FINAL_OFFSET, COL_F_HARD_OUT_OFFSET, 72, n, 0);
    assert forall|i: int| 0 <= i < es.len() implies {
        &&& expr::within(#[trigger] es[i], n, 0)
        &&& expr::compound(es[i])
        &&& expr::degree(es[i]) <= 3
    } by {
        reveal_with_fuel(expr::within, 2);
        reveal_with_fuel(expr::degree, 2);
        assert(i == 0 || i == 1 || i == 2 || i == 3 || i == 4);
    }
}

/// A row is consistent: at most one kind of step, an easy step keeps the first
/// half of the element, a hard step hands its output on.
pub open spec fn consistent(row: FinalExpRow) -> bool {
    &&& !(row.is_easy_step && row.is_hard_step)
    &&& row.is_easy_step ==> row.f_easy_out.c0 == row.f_pre.c0
    &&& row.is_hard_step ==> row.f_final == row.f_hard_out
}

/// Steps that are appended are consistent.
pub proof fn law_steps_consistent(f_pre: Fp12, f_hard_out: Fp12)
    ensures
        consistent(easy_row(f_pre)),
        consistent(hard_row(f_pre, f_hard_out)),
{
}

/// The columns of a trace of this width can be read by the constraints.
pub proof fn law_trace_readable(
    t: TracePolynomials,
    columns: Seq<&Vec<Scalar>>,
    rows: nat,
    curve: CurveType,
    cell: spec_fn(int, int) -> int,
)
    requires
        trace::holds(t, NUM_COLUMNS as nat, rows, curve, cell),
        trace::columns_of(t, columns),
    ensures
        columns.len() >= NUM_COLUMNS,
        constraints::domain_readable(row_constraints(), columns),
{
    lemma_well_formed();
    constraints::lemma_well_formed_more(
        row_constraints(),
        NUM_SCAFFOLD_COLUMNS as nat,
        NUM_COLUMNS as nat,
        0,
    );
    constraints::lemma_trace_readable(
        row_constraints(),
        t,
        columns,
        NUM_COLUMNS as nat,
        rows,
        curve,
        cell,
    );
}

/// Every constraint vanishes on every row of the trace of a consistent
/// witness, padding included.
pub proof fn law_honest_trace_vanishes(
    w: FinalExpWitness,
    t: TracePolynomials,
    columns: Seq<&Vec<Scalar>>,
    curve: CurveType,
    r: int,
    i: int,
    ch: int,
)
    requires
        trace::holds(t, NUM_COLUMNS as nat, w.rows.len() as nat, curve, cells(w.rows@)),
        trace::columns_of(t, columns),
        forall|k: int| 0 <= k < w.rows.len() ==> consistent(#[trigger] w.rows@[k]),
        0 <= r < trace::padded_length(w.rows.len() as nat),
        0 <= i < NUM_ROW_CONSTRAINTS,
    ensures
        expr::ev(row_constraints()[i], expr::row_values(columns, r), Seq::empty(), ch) == 0,
{
    let n = w.rows.len() as nat;
    let cell = cells(w.rows@);
    trace::lemma_trace_rows(t, columns, NUM_COLUMNS as nat, n, curve, cell, r);
    let row = trace::row_of(NUM_COLUMNS as nat, n, cell, r);
    let e = Seq::<int>::empty();
    if r < n {
        assert(consistent(w.rows@[r]));
    }
    if i == 0 {
        constraints::lemma_binary_vanishes(COL_IS_EASY_STEP, row, e, ch);
    } else if i == 1 {
        constraints::lemma_binary_vanishes(COL_IS_HARD_STEP, row, e, ch);
    } else if i == 2 {
        constraints::lemma_ev_gated(COL_IS_EASY_STEP, Expr::Col(COL_IS_HARD_STEP), row, e, ch);
    } else if i == 3 {
        let body = constraints::rlc_diff_of(COL_F_EASY_OUT_OFFSET, COL_F_PRE_OFFSET, 36);
        constraints::lemma_ev_gated(COL_IS_EASY_STEP, body, row, e, ch);
        if r < n && w.rows@[r].is_easy_step {
            let o = w.rows@[r];
            assert forall|k: int| 0 <= k < 36 implies row[#[trigger] (COL_F_EASY_OUT_OFFSET + k)]
                == row[COL_F_PRE_OFFSET + k] by {
                assert((72 + k) / 72 == 1 && (72 + k) % 72 == k && k / 72 == 0 && k % 72 == k);
                assert(k / 6 / 6 == 0);
                assert(o.f_easy_out.coefficient(k / 6) == o.f_pre.coefficient(k / 6));
            }
            constraints::lemma_rlc_diff_vanishes(
                COL_F_EASY_OUT_OFFSET,
                COL_F_PRE_OFFSET,
                36,
                row,
                e,
                ch,
            );
        }
    } else {
        let body = constraints::rlc_diff_of(COL_F_FINAL_OFFSET, COL_F_HARD_OUT_OFFSET, 72);
        constraints::lemma_ev_gated(COL_IS_HARD_STEP, body, row, e, ch);
        if r < n && w.rows@[r].is_hard_step {
            assert forall|k: int| 0 <= k < 72 implies row[#[trigger] (COL_F_FINAL_OFFSET + k)]
                == row[COL_F_HARD_OUT_OFFSET + k] by {
                assert((216 + k) / 72 == 3 && (216 + k) % 72 == k && (144 + k) / 72 == 2 && (144
                    + k) % 72 == k);
            }
            constraints::lemma_rlc_diff_vanishes(
                COL_F_FINAL_OFFSET,
                COL_F_HARD_OUT_OFFSET,
                72,
                row,
                e,
                ch,
            );
        }
    }
}

pub struct FinalExpConstraintSystem {
    pub num_rows: usize,
    pub omega: Option<Scalar>,
    pub domain_size: Option<u64>,
}

impl FinalExpConstraintSystem {
    pub fn new(num_rows: usize) -> (r: Self)
        ensures
            r.num_rows == num_rows,
            r.omega == None::<Scalar>,
            r.domain_size == None::<u64>,
    {
        Self { num_rows, omega: None, domain_size: None }
    }

    pub fn with_omega_and_domain(self, omega: Scalar, domain_size: u64) -> (r: Self)
        ensures
            r.num_rows == self.num_rows,
            r.omega == Some(omega),
            r.domain_size == Some(domain_size),
    {
        Self { num_rows: self.num_rows, omega: Some(omega), domain_size: Some(domain_size) }
    }

    pub fn num_constraints(&self) -> (r: usize)
        ensures
            r == row_constraints().len(),
    {
        NUM_ROW_CONSTRAINTS
    }

    pub fn constraint_labels(&self) -> (r: Vec<String>)
        ensures
            r.len() == 5,
            r@[0]@ == "is_easy_step_binary"@,
            r@[1]@ == "is_hard_step_binary"@,
            r@[2]@ == "selectors_mutually_exclusive"@,
            r@[3]@ == "easy_step_c0_passthrough"@,
            r@[4]@ == "hard_step_f_final_equals_f_hard_out"@,
    {
        vec![
            "is_easy_step_binary".to_string(),
            "is_hard_step_binary".to_string(),
            "selectors_mutually_exclusive".to_string(),
            "easy_step_c0_passthrough".to_string(),
            "hard_step_f_final_equals_f_hard_out".to_string(),
        ]
    }

    /// The value of every constraint on every row.
    pub fn evaluate_on_domain(&self, columns: &[&Vec<Scalar>], _num_rows: usize) -> (r: Vec<
        Vec<Scalar>,
    >)
        requires
            columns.len() >= NUM_COLUMNS,
            constraints::domain_readable(row_constraints(), columns@),
        ensures
            constraints::domain_values(r@, row_constraints(), columns@, 7),
    {
        let es: Vec<Expr> = constraint_list();
        proof {
            constraints::lemma_well_formed_more(
                es@,
                NUM_SCAFFOLD_COLUMNS as nat,
                columns.len() as nat,
                0,
            );
        }
        constraints::evaluate_on_domain(&es, columns, 7)
    }

    /// The constraints at a point, weighted by the powers of `alpha`; zero if
    /// columns are missing.
    pub fn evaluate_at_point(&self, col_evals: &[Scalar], alpha: &Scalar) -> (r: Scalar)
        requires
            col_evals.len() >= NUM_COLUMNS ==> constraints::point_readable(
                row_constraints(),
                col_evals@,
                Seq::empty(),
                alpha.curve(),
            ),
        ensures
            r.curve() == alpha.curve(),
            col_evals.len() < NUM_COLUMNS ==> r@ == 0,
            col_evals.len() >= NUM_COLUMNS ==> r@ == constraints::combined(
                row_constraints(),
                poly_arith::values(col_evals@),
                Seq::empty(),
                7,
                alpha@,
            ) % field::order(alpha.curve()),
    {
        let curve: CurveType = alpha.curve_type();
        if col_evals.len() < NUM_COLUMNS {
            return Scalar::zero(curve);
        }
        let es: Vec<Expr> = constraint_list();
        let none: Vec<Scalar> = Vec::new();
        proof {
            constraints::lemma_well_formed_more(
                es@,
                NUM_SCAFFOLD_COLUMNS as nat,
                col_evals.len() as nat,
                0,
            );
            assert(poly_arith::values(none@) =~= Seq::empty());
        }
        constraints::evaluate_at_point(
            &es,
            col_evals,
            none.as_slice(),
            &Scalar::from_u64(7, curve),
            alpha,
        )
    }

    /// The weighted sum of the constraints as a polynomial.
    pub fn build_constraint_polynomial(
        &self,
        col_coeffs: &[Vec<Scalar>],
        alpha: &Scalar,
        _domain_size: u64,
    ) -> (r: Vec<Scalar>)
        requires
            col_coeffs.len() >= NUM_SCAFFOLD_COLUMNS,
            constraints::coefficients_readable(row_constraints(), col_coeffs@, alpha.curve()),
        ensures
            poly_arith::reduced(
                r@,
                constraints::combined_poly(
                    row_constraints(),
                    expr::column_polys(col_coeffs@),
                    Seq::empty(),
                    7,
                    alpha@,
                ),
                alpha.curve(),
            ),
    {
        let curve: CurveType = alpha.curve_type();
        let es: Vec<Expr> = constraint_list();
        let none: Vec<Vec<Scalar>> = Vec::new();
        proof {
            constraints::lemma_well_formed_more(
                es@,
                NUM_SCAFFOLD_COLUMNS as nat,
                col_coeffs.len() as nat,
                0,
            );
            assert(expr::column_polys(none@) =~= Seq::empty());
        }
        constraints::build_polynomial(
            &es,
            col_coeffs,
            none.as_slice(),
            &Scalar::from_u64(7, curve),
            alpha,
        )
    }

    pub fn selector_column_indices(&self) -> (r: Vec<usize>)
        ensures
            r@ == seq![COL_IS_EASY_STEP, COL_IS_HARD_STEP],
    {
        let r: Vec<usize> = vec![COL_IS_EASY_STEP, COL_IS_HARD_STEP];
        assert(r@ =~= seq![COL_IS_EASY_STEP, COL_IS_HARD_STEP]);
        r
    }

    pub fn padding_selector_column(&self) -> (r: Option<usize>)
        ensures
            r == None::<usize>,
    {
        None
    }

    /// Clears the padding rows.
    pub fn fix_trace_padding(
        &self,
        columns: &mut [Vec<Scalar>],
        num_rows: usize,
        padded_size: usize,
    )
        ensures
            constraints::padding_cleared(
                old(columns)@,
                final(columns)@,
                NUM_COLUMNS as nat,
                num_rows as nat,
                padded_size as nat,
                CurveType::Bls12381,
            ),
    {
        constraints::clear_padding(
            columns,
            NUM_COLUMNS,
            num_rows,
            padded_size,
            CurveType::Bls12381,
        )
    }

    /// Nothing is looked up.
    pub fn lookup_declarations(&self) -> (r: LookupRequirements)
        ensures
            r.tables.len() == 0,
            r.declarations.len() == 0,
    {
        LookupRequirements::none()
    }

    /// The columns that are also read on the next row: the element before the
    /// step.
    pub fn shifted_column_indices(&self) -> (r: Vec<usize>)
        ensures
            cross_air_logup::indices(r@) == cross_air_logup::run(COL_F_PRE_OFFSET as int, 72),
    {
        column_run(COL_F_PRE_OFFSET, LIMBS_PER_FP12)
    }

    pub fn num_shifted_constraints(&self) -> (r: usize)
        ensures
            r == NUM_SHIFTED,
    {
        NUM_SHIFTED
    }
}

/// The polynomial reading of the system agrees with its reading at a point.
pub proof fn law_polynomial_at_point(cols: Seq<Seq<int>>, alpha: int, z: int)
    requires
        cols.len() >= NUM_SCAFFOLD_COLUMNS,
    ensures
        poly_arith::peval(
            constraints::combined_poly(row_constraints(), cols, Seq::empty(), 7, alpha),
            z,
        ) == constraints::combined(
            row_constraints(),
            expr::evals(cols, z),
            Seq::empty(),
            7,
            alpha,
        ),
{
    lemma_well_formed();
    constraints::lemma_well_formed_more(row_constraints(), NUM_SCAFFOLD_COLUMNS as nat, cols.len(), 0);
    constraints::law_combined_reading(row_constraints(), cols, Seq::empty(), 7, alpha, z);
    assert(expr::evals(Seq::empty(), z) =~= Seq::empty());
}

/// The polynomial reading of the system takes at every point, modulo the
/// order, the reading of the system over numbers that stand for the values of
/// the columns there.
pub proof fn law_polynomial_modulo(
    cols: Seq<Seq<int>>,
    e: Seq<int>,
    alpha: int,
    z: int,
    curve: CurveType,
)
    requires
        cols.len() >= NUM_SCAFFOLD_COLUMNS,
        forall|c: int|
            0 <= c < NUM_SCAFFOLD_COLUMNS ==> (#[trigger] e[c]) % field::order(curve) == poly_arith::peval(
                cols[c],
                z,
            ) % field::order(curve),
    ensures
        poly_arith::peval(
            constraints::combined_poly(row_constraints(), cols, Seq::empty(), 7, alpha),
            z,
        ) % field::order(curve) == constraints::combined(
            row_constraints(),
            e,
            Seq::empty(),
            7,
            alpha,
        ) % field::order(curve),
{
    field::lemma_order(curve);
    lemma_well_formed();
    constraints::law_combined_reading_modulo(
        row_constraints(),
        NUM_SCAFFOLD_COLUMNS as nat,
        cols,
        Seq::empty(),
        e,
        Seq::empty(),
        7,
        alpha,
        z,
        field::order(curve),
    );
}

/// The polynomial `p` of the constraints takes at `z` the value `v` of the
/// constraints at the point where the columns have the values `e`.
pub proof fn law_polynomial_value(
    col_coeffs: Seq<Vec<Scalar>>,
    e: Seq<Scalar>,
    z: Scalar,
    alpha: Scalar,
    p: Seq<Scalar>,
    v: Scalar,
)
    requires
        col_coeffs.len() >= NUM_SCAFFOLD_COLUMNS,
        e.len() >= NUM_COLUMNS,
        forall|c: int|
            0 <= c < NUM_SCAFFOLD_COLUMNS ==> (#[trigger] e[c])@ % field::order(alpha.curve())
                == poly_arith::peval(poly_arith::values(col_coeffs[c]@), z@) % field::order(
                alpha.curve(),
            ),
        poly_arith::reduced(
            p,
            constraints::combined_poly(
                row_constraints(),
                expr::column_polys(col_coeffs),
                Seq::empty(),
                7,
                alpha@,
            ),
            alpha.curve(),
        ),
        v@ == constraints::combined(
            row_constraints(),
            poly_arith::values(e),
            Seq::empty(),
            7,
            alpha@,
        ) % field::order(alpha.curve()),
    ensures
        poly_arith::peval(poly_arith::values(p), z@) % field::order(alpha.curve()) == v@,
{
    let cols = expr::column_polys(col_coeffs);
    let row = poly_arith::values(e);
    let m = field::order(alpha.curve());
    assert forall|c: int| 0 <= c < NUM_SCAFFOLD_COLUMNS implies (#[trigger] row[c]) % m == poly_arith::peval(
        cols[c],
        z@,
    ) % m by {
        assert(e[c]@ % m == poly_arith::peval(poly_arith::values(col_coeffs[c]@), z@) % m);
    }
    law_polynomial_modulo(cols, row, alpha@, z@, alpha.curve());
    poly_arith::law_reduced_value(
        p,
        constraints::combined_poly(row_constraints(), cols, Seq::empty(), 7, alpha@),
        alpha.curve(),
        z@,
    );
}

/// The polynomial of the constraints is the same whatever the domain.
pub proof fn law_polynomial_of_any_domain(
    col_coeffs: Seq<Vec<Scalar>>,
    alpha: Scalar,
    p: Seq<Scalar>,
    q: Seq<Scalar>,
)
    requires
        poly_arith::reduced(
            p,
            constraints::combined_poly(
                row_constraints(),
                expr::column_polys(col_coeffs),
                Seq::empty(),
                7,
                alpha@,
            ),
            alpha.curve(),
        ),
        poly_arith::reduced(
            q,
            constraints::combined_poly(
                row_constraints(),
                expr::column_polys(col_coeffs),
                Seq::empty(),
                7,
                alpha@,
            ),
            alpha.curve(),
        ),
    ensures
        poly_arith::same_scalars(p, q),
{
    poly_arith::law_reduced_unique(
        p,
        q,
        constraints::combined_poly(
            row_constraints(),
            expr::column_polys(col_coeffs),
            Seq::empty(),
            7,
            alpha@,
        ),
        alpha.curve(),
    );
}

/// The value `v` of the constraints at a point with the numbers `e` is the sum
/// of their values `d` on a row `j` that holds the same numbers, weighted by
/// the powers of `alpha`.
pub proof fn law_point_is_weighted_row(
    columns: Seq<&Vec<Scalar>>,
    j: int,
    e: Seq<Scalar>,
    alpha: Scalar,
    d: Seq<Vec<Scalar>>,
    v: Scalar,
)
    requires
        columns.len() >= NUM_COLUMNS,
        0 <= j < columns[0].len(),
        columns[0]@[0].curve() == alpha.curve(),
        e.len() >= NUM_COLUMNS,
        forall|c: int|
            0 <= c < NUM_SCAFFOLD_COLUMNS ==> (#[trigger] e[c])@ % field::order(alpha.curve())
                == columns[c]@[j]@ % field::order(alpha.curve()),
        constraints::domain_values(d, row_constraints(), columns, 7),
        v@ == constraints::combined(
            row_constraints(),
            poly_arith::values(e),
            Seq::empty(),
            7,
            alpha@,
        ) % field::order(alpha.curve()),
    ensures
        v@ == poly_arith::peval(
            Seq::new(NUM_ROW_CONSTRAINTS as nat, |k: int| d[k]@[j]@),
            alpha@,
        ) % field::order(alpha.curve()),
{
    let row = poly_arith::values(e);
    let m = field::order(alpha.curve());
    lemma_well_formed();
    assert forall|c: int| 0 <= c < NUM_SCAFFOLD_COLUMNS implies modular::cong(
        #[trigger] row[c],
        columns[c]@[j]@,
        m,
    ) by {
        assert(e[c]@ % m == columns[c]@[j]@ % m);
    }
    constraints::law_point_is_weighted_row(
        row_constraints(),
        NUM_SCAFFOLD_COLUMNS as nat,
        columns,
        j,
        row,
        7,
        alpha@,
        d,
    );
    assert(row_constraints().len() == NUM_ROW_CONSTRAINTS);
}

// ─── Constraint on two rows ───────────────────────────────────────────

/// The element before a step (on the next row) is the one that the step before
/// it handed on: limb by limb.
pub open spec fn handover_terms() -> Seq<Expr> {
    Seq::new(
        72,
        |j: int|
            constraints::sub_of(Expr::Next(j as usize), Expr::Col(j as usize)),
    )
}

/// The limbs combined by the challenge.
pub open spec fn handover() -> Expr {
    constraints::rlc_of(handover_terms())
}

fn handover_constraint() -> (r: Expr)
    ensures
        r == handover(),
        expr::within(r, 72, 72),
        expr::compound(r),
{
    let mut terms: Vec<Expr> = Vec::with_capacity(LIMBS_PER_FP12);
    let mut j: usize = 0;
    while j < LIMBS_PER_FP12
        invariant
            j <= 72,
            terms.len() == j,
            forall|k: int| 0 <= k < j ==> #[trigger] terms@[k] == handover_terms()[k],
        decreases 72 - j,
    {
        terms.push(minus(Expr::Next(j), Expr::Col(j)));
        j = j + 1;
    }
    assert(terms@ =~= handover_terms());
    proof {
        let ts = handover_terms();
        assert forall|k: int| 0 <= k < ts.len() implies constraints::fits(
            #[trigger] ts[k],
            72,
            72,
            1,
        ) by {
            reveal_with_fuel(expr::within, 2);
            reveal_with_fuel(expr::degree, 2);
        }
        constraints::lemma_fits_rlc(ts, 72, 72, 1);
    }
    rlc(terms)
}

/// The 72 columns from `from` can be read on row `r`, on one curve.
pub open spec fn element_readable(
    columns: Seq<&Vec<Scalar>>,
    r: int,
    from: int,
    curve: CurveType,
) -> bool {
    &&& columns.len() >= from + 72
    &&& forall|c: int|
        from <= c < from + 72 ==> r < (#[trigger] columns[c]).len() && columns[c]@[r].curve()
            == curve
}

/// The 72 cells from column `from` on row `r`.
pub open spec fn element_cells(columns: Seq<&Vec<Scalar>>, r: int, from: int) -> Seq<int> {
    Seq::new(72, |j: int| columns[from + j]@[r]@)
}

fn read_element(columns: &[&Vec<Scalar>], r: usize, from: usize, curve: CurveType) -> (v: Vec<
    Scalar,
>)
    requires
        element_readable(columns@, r as int, from as int, curve),
    ensures
        v.len() == 72,
        poly_arith::on_curve(v@, curve),
        poly_arith::values(v@) == element_cells(columns@, r as int, from as int),
{
    let mut v: Vec<Scalar> = Vec::with_capacity(LIMBS_PER_FP12);
    let mut j: usize = 0;
    while j < LIMBS_PER_FP12
        invariant
            j <= 72,
            element_readable(columns@, r as int, from as int, curve),
            v.len() == j,
            forall|k: int| 0 <= k < j ==> #[trigger] v@[k] == columns@[from + k]@[r as int],
        decreases 72 - j,
    {
        assert(r < columns@[from + j].len());
        assert(from + j < columns.len());
        v.push(columns[from + j][r]);
        j = j + 1;
    }
    proof {
        assert forall|k: int| 0 <= k < v.len() implies (#[trigger] v@[k]).curve() == curve by {
            assert(v@[k] == columns@[from + k]@[r as int]);
        }
        assert(poly_arith::values(v@) =~= element_cells(columns@, r as int, from as int));
    }
    v
}

/// The two-row constraint on rows `r` and `next`; zero for other indices.
pub fn evaluate_shifted_row(
    columns: &[&Vec<Scalar>],
    r: usize,
    next: usize,
    constraint_index: usize,
    alpha: &Scalar,
) -> (res: Scalar)
    requires
        constraint_index == 0 ==> element_readable(
            columns@,
            r as int,
            COL_F_FINAL_OFFSET as int,
            alpha.curve(),
        ),
        constraint_index == 0 ==> element_readable(
            columns@,
            next as int,
            COL_F_PRE_OFFSET as int,
            alpha.curve(),
        ),
    ensures
        res.curve() == alpha.curve(),
        constraint_index != 0 ==> res@ == 0,
        constraint_index == 0 ==> res@ == expr::ev(
            handover(),
            element_cells(columns@, r as int, COL_F_FINAL_OFFSET as int),
            element_cells(columns@, next as int, COL_F_PRE_OFFSET as int),
            alpha@,
        ) % field::order(alpha.curve()),
{
    let curve: CurveType = alpha.curve_type();
    if constraint_index != 0 {
        return Scalar::zero(curve);
    }
    let row: Vec<Scalar> = read_element(columns, r, COL_F_FINAL_OFFSET, curve);
    let after: Vec<Scalar> = read_element(columns, next, COL_F_PRE_OFFSET, curve);
    let e: Expr = handover_constraint();
    expr::eval_point(&e, row.as_slice(), after.as_slice(), alpha)
}

/// Where every step starts from what the step before it handed on, the two-row
/// constraint vanishes between the rows of the trace.
pub proof fn law_handover_vanishes(
    w: FinalExpWitness,
    t: TracePolynomials,
    columns: Seq<&Vec<Scalar>>,
    curve: CurveType,
    r: int,
    ch: int,
)
    requires
        trace::holds(t, NUM_COLUMNS as nat, w.rows.len() as nat, curve, cells(w.rows@)),
        trace::columns_of(t, columns),
        0 <= r,
        r + 1 < w.rows.len(),
        w.rows@[r + 1].f_pre == w.rows@[r].f_final,
    ensures
        expr::ev(
            handover(),
            element_cells(columns, r, COL_F_FINAL_OFFSET as int),
            element_cells(columns, r + 1, COL_F_PRE_OFFSET as int),
            ch,
        ) == 0,
{
    let n = w.rows.len() as nat;
    let cell = cells(w.rows@);
    trace::law_padded_length(n, 0);
    trace::lemma_trace_rows(t, columns, NUM_COLUMNS as nat, n, curve, cell, r);
    trace::lemma_trace_rows(t, columns, NUM_COLUMNS as nat, n, curve, cell, r + 1);
    let (a, b) = (expr::row_values(columns, r), expr::row_values(columns, r + 1));
    let row = element_cells(columns, r, COL_F_FINAL_OFFSET as int);
    let next = element_cells(columns, r + 1, COL_F_PRE_OFFSET as int);
    let ts = handover_terms();
    assert forall|j: int| 0 <= j < ts.len() implies expr::ev(#[trigger] ts[j], row, next, ch)
        == 0 by {
        reveal_with_fuel(expr::ev, 2);
        assert(row[j] == a[216 + j]);
        assert(next[j] == b[j]);
        assert((216 + j) / 72 == 3 && (216 + j) % 72 == j && j / 72 == 0 && j % 72 == j);
    }
    constraints::lemma_rlc_vanishes(ts, row, next, ch);
}

// ─── What vanishing constraints say ───────────────────────────────────

/// A row of field elements on which every constraint vanishes for each of the
/// challenges.
pub open spec fn row_vanishes(row: Seq<int>, points: Seq<int>, m: int) -> bool {
    &&& row.len() == NUM_COLUMNS
    &&& forall|c: int| 0 <= c < NUM_COLUMNS ==> 0 <= #[trigger] row[c] < m
    &&& forall|i: int, j: int|
        0 <= i < NUM_ROW_CONSTRAINTS && 0 <= j < points.len() ==> expr::ev(
            #[trigger] row_constraints()[i],
            row,
            Seq::empty(),
            #[trigger] points[j],
        ) % m == 0
}

/// Where the constraints vanish for as many challenges as an element has
/// limbs, a row is an easy step, a hard step or neither; an easy step keeps
/// the first half of the element, and a hard step hands its output on.
pub proof fn law_vanishing_row_sound(row: Seq<int>, points: Seq<int>, curve: CurveType)
    requires
        soundness::integral(field::order(curve)),
        soundness::points_differ(points, field::order(curve)),
        points.len() >= 72,
        row_vanishes(row, points, field::order(curve)),
    ensures
        ({
            let easy = row[COL_IS_EASY_STEP as int];
            let hard = row[COL_IS_HARD_STEP as int];
            &&& (easy == 0 && hard == 0) || (easy == 1 && hard == 0) || (easy == 0 && hard == 1)
            &&& easy == 1 ==> forall|k: int|
                0 <= k < 36 ==> row[#[trigger] (COL_F_EASY_OUT_OFFSET + k)] == row[COL_F_PRE_OFFSET
                    + k]
            &&& hard == 1 ==> forall|k: int|
                0 <= k < 72 ==> row[#[trigger] (COL_F_FINAL_OFFSET + k)]
                    == row[COL_F_HARD_OUT_OFFSET + k]
        }),
{
    let m = field::order(curve);
    field::lemma_order(curve);
    let e = Seq::<int>::empty();
    let es = row_constraints();
    let easy = row[COL_IS_EASY_STEP as int];
    let hard = row[COL_IS_HARD_STEP as int];
    assert(expr::ev(es[0], row, e, points[0]) % m == 0);
    soundness::lemma_binary_sound(COL_IS_EASY_STEP, row, e, points[0], m);
    assert(expr::ev(es[1], row, e, points[0]) % m == 0);
    soundness::lemma_binary_sound(COL_IS_HARD_STEP, row, e, points[0], m);
    if easy == 1 {
        assert(expr::ev(es[2], row, e, points[0]) % m == 0);
        soundness::lemma_gated_sound(
            COL_IS_EASY_STEP,
            Expr::Col(COL_IS_HARD_STEP),
            row,
            e,
            points[0],
            m,
        );
        soundness::lemma_equal(hard, 0, m);
        assert forall|j: int| 0 <= j < points.len() implies expr::ev(
            constraints::mul_of(
                Expr::Col(COL_IS_EASY_STEP),
                constraints::rlc_diff_of(COL_F_EASY_OUT_OFFSET, COL_F_PRE_OFFSET, 36),
            ),
            row,
            e,
            #[trigger] points[j],
        ) % m == 0 by {
            assert(expr::ev(es[3], row, e, points[j]) % m == 0);
        }
        soundness::law_equality_sound(
            COL_IS_EASY_STEP,
            COL_F_EASY_OUT_OFFSET,
            COL_F_PRE_OFFSET,
            36,
            row,
            points,
            m,
        );
    }
    if hard == 1 {
        assert forall|j: int| 0 <= j < points.len() implies expr::ev(
            constraints::mul_of(
                Expr::Col(COL_IS_HARD_STEP),
                constraints::rlc_diff_of(COL_F_FINAL_OFFSET, COL_F_HARD_OUT_OFFSET, 72),
            ),
            row,
            e,
            #[trigger] points[j],
        ) % m == 0 by {
            assert(expr::ev(es[4], row, e, points[j]) % m == 0);
        }
        soundness::law_equality_sound(
            COL_IS_HARD_STEP,
            COL_F_FINAL_OFFSET,
            COL_F_HARD_OUT_OFFSET,
            72,
            row,
            points,
            m,
        );
    }
}

/// Where the two-row constraint vanishes for as many challenges as an element
/// has limbs, a step starts from the element that the step before it handed
/// on.
pub proof fn law_vanishing_handover_sound(
    last: Seq<int>,
    first: Seq<int>,
    points: Seq<int>,
    curve: CurveType,
)
    requires
        soundness::integral(field::order(curve)),
        soundness::points_differ(points, field::order(curve)),
        points.len() >= 72,
        last.len() == 72,
        first.len() == 72,
        forall|k: int| 0 <= k < 72 ==> 0 <= #[trigger] last[k] < field::order(curve),
        forall|k: int| 0 <= k < 72 ==> 0 <= #[trigger] first[k] < field::order(curve),
        forall|j: int|
            0 <= j < points.len() ==> expr::ev(handover(), last, first, #[trigger] points[j])
                % field::order(curve) == 0,
    ensures
        first == last,
{
    let m = field::order(curve);
    let ts = handover_terms();
    let values = Seq::new(72, |k: int| first[k] - last[k]);
    assert forall|x: int| #[trigger] constraints::denoted(ts, last, first, x) == values by {
        let vs = constraints::denoted(ts, last, first, x);
        assert forall|k: int| 0 <= k < 72 implies vs[k] == values[k] by {
            reveal_with_fuel(expr::ev, 2);
        }
        assert(vs =~= values);
    }
    soundness::law_combination_sound(ts, last, first, values, points, m);
    assert forall|k: int| 0 <= k < 72 implies first[k] == last[k] by {
        assert(values[k] % m == 0);
        soundness::lemma_equal(first[k], last[k], m);
    }
    assert(first =~= last);
}

// ─── Links ────────────────────────────────────────────────────────────

/// The element before an easy step is what the Miller loop ended in.
pub fn make_final_exp_f_pre_to_miller_step_descriptor(
    final_exp_layer_index: usize,
    miller_step_layer_index: usize,
) -> (r: CrossAirLogUpDescriptor)
    ensures
        r.is(
            cross_air_logup::Link {
                label: "final_exp_f_pre_to_miller_step_v1"@,
                a_layer: miller_step_layer_index as int,
                a_columns: cross_air_logup::run(miller_step_air::COL_ACC_POST_OFFSET as int, 72),
                a_selector: miller_step_air::COL_IS_DOUBLING as int,
                b_layer: final_exp_layer_index as int,
                b_columns: cross_air_logup::run(COL_F_PRE_OFFSET as int, 72),
                b_selector: COL_IS_EASY_STEP as int,
            },
        ),
{
    CrossAirLogUpDescriptor {
        label: "final_exp_f_pre_to_miller_step_v1".to_string(),
        a_layer_index: miller_step_layer_index,
        a_columns: column_run(miller_step_air::COL_ACC_POST_OFFSET, LIMBS_PER_FP12),
        a_selector_column: Some(miller_step_air::COL_IS_DOUBLING),
        b_layer_index: final_exp_layer_index,
        b_columns: column_run(COL_F_PRE_OFFSET, LIMBS_PER_FP12),
        b_selector_column: Some(COL_IS_EASY_STEP),
    }
}

// ─── Multiplications ──────────────────────────────────────────────────

/// The traces of one easy and one hard step with all their multiplications
/// carried out, and the links between the traces.
pub struct FinalExpFpMultFixture {
    /// The two steps; each multiplication has its product in its own slot.
    pub final_exp_trace: TracePolynomials,
    /// The table of multiplications, one row per link.
    pub nonnative_fp_trace: TracePolynomials,
    /// The links that hold, one per row of the table.
    pub pinned_descriptors: Vec<CrossAirLogUpDescriptor>,
    pub all_easy_descriptors: Vec<CrossAirLogUpDescriptor>,
    pub all_hard_descriptors: Vec<CrossAirLogUpDescriptor>,
    pub num_populated_fp_mults: usize,
}

/// A multiplication with its product in slot `i`.
pub open spec fn in_slot(m: final_exp_descriptors::Mult, i: int) -> final_exp_descriptors::Mult {
    final_exp_descriptors::Mult { a: m.a, b: m.b, c: slot(i), label: m.label }
}

/// Multiplication `i` is one of the easy part.
pub open spec fn is_easy(i: int) -> bool {
    i < final_exp_descriptors::FINAL_EXP_EASY_WIRED_MULTS
}

/// Multiplication `i`, first those of the easy part, then those of the hard
/// part, each with its product in its own slot.
pub open spec fn slotted(i: int) -> final_exp_descriptors::Mult {
    if is_easy(i) {
        in_slot(final_exp_descriptors::all_mults(true)[i], i)
    } else {
        in_slot(
            final_exp_descriptors::all_mults(
                false,
            )[i - final_exp_descriptors::FINAL_EXP_EASY_WIRED_MULTS],
            i,
        )
    }
}

/// The link of multiplication `i`, with the final exponentiation in layer 1
/// and the table in layer 0.
pub open spec fn slotted_link(i: int) -> cross_air_logup::Link {
    final_exp_descriptors::mult_link(is_easy(i), slotted(i), 1, 0)
}

/// The element of the base field whose limbs start in column `base`.
pub open spec fn fp_at(row: FinalExpRow, base: int) -> Fp {
    element(row, base / 72).coefficient(base % 72 / 6)
}

/// The product of multiplication `i` on a row.
pub open spec fn product(row: FinalExpRow, i: int) -> int {
    (fp_at(row, slotted(i).a).value() * fp_at(row, slotted(i).b).value()) % nonnative_fp::prime()
}

/// The steps: an easy one on `f`, and a hard one from `f` to `g`.
pub open spec fn steps(f: Fp12, g: Fp12) -> Seq<FinalExpRow> {
    seq![easy_row(f), hard_row(f, g)]
}

/// The step on which multiplication `i` is carried out.
pub open spec fn step_of(i: int) -> int {
    if is_easy(i) {
        0
    } else {
        1
    }
}

/// The cells of the two steps: the elements and selectors, and in the slot of
/// each multiplication its product on its step.
pub open spec fn populated_cells(f: Fp12, g: Fp12) -> spec_fn(int, int) -> int {
    |c: int, r: int|
        if c < NUM_SCAFFOLD_COLUMNS {
            row_cell(steps(f, g)[r], c)
        } else {
            let i = (c - NUM_SCAFFOLD_COLUMNS) / 6;
            if r == step_of(i) {
                nonnative_fp::limb_of(
                    product(steps(f, g)[r], i),
                    (c - NUM_SCAFFOLD_COLUMNS) % 6,
                )
            } else {
                0
            }
        }
}

/// The cells of the table: the factors and the product of multiplication `i`,
/// and a set selector.
pub open spec fn table_cells(f: Fp12, g: Fp12) -> spec_fn(int, int) -> int {
    |c: int, i: int|
        {
            let row = steps(f, g)[step_of(i)];
            if c < nonnative_fp_air::COL_B_OFFSET {
                fp_at(row, slotted(i).a).limbs@[c] as int
            } else if c < nonnative_fp_air::COL_R_OFFSET {
                fp_at(row, slotted(i).b).limbs@[c - nonnative_fp_air::COL_B_OFFSET] as int
            } else if c < nonnative_fp_air::COL_SEL_MUL {
                nonnative_fp::limb_of(product(row, i), c - nonnative_fp_air::COL_R_OFFSET)
            } else {
                1
            }
        }
}

impl FinalExpFpMultFixture {
    /// The fixture of an easy step on `f` and a hard step from `f` to `g`.
    pub open spec fn populated(&self, f: Fp12, g: Fp12) -> bool {
        &&& trace::holds(
            self.final_exp_trace,
            NUM_COLUMNS as nat,
            2,
            CurveType::Bls12381,
            populated_cells(f, g),
        )
        &&& trace::holds(
            self.nonnative_fp_trace,
            nonnative_fp_air::NUM_NONNATIVE_FP_COLUMNS as nat,
            FE_INTERMEDIATE_NUM_DESCRIPTORS as nat,
            CurveType::Bls12381,
            table_cells(f, g),
        )
        &&& self.pinned_descriptors.len() == FE_INTERMEDIATE_NUM_DESCRIPTORS
        &&& forall|i: int|
            0 <= i < FE_INTERMEDIATE_NUM_DESCRIPTORS ==> (#[trigger] self.pinned_descriptors@[i]).is(
                slotted_link(i),
            )
        &&& self.all_easy_descriptors.len() == final_exp_descriptors::FINAL_EXP_EASY_WIRED_MULTS
        &&& forall|i: int|
            0 <= i < self.all_easy_descriptors.len() ==> (
            #[trigger] self.all_easy_descriptors@[i]).is(slotted_link(i))
        &&& self.all_hard_descriptors.len() == final_exp_descriptors::FINAL_EXP_HARD_WIRED_MULTS
        &&& forall|i: int|
            0 <= i < self.all_hard_descriptors.len() ==> (
            #[trigger] self.all_hard_descriptors@[i]).is(
                slotted_link(final_exp_descriptors::FINAL_EXP_EASY_WIRED_MULTS + i),
            )
        &&& self.num_populated_fp_mults == FE_INTERMEDIATE_NUM_DESCRIPTORS
    }
}

proof fn lemma_slotted(i: int)
    requires
        0 <= i < FE_INTERMEDIATE_NUM_DESCRIPTORS,
    ensures
        0 <= slotted(i).a <= 282,
        slotted(i).a % 6 == 0,
        0 <= slotted(i).b <= 282,
        slotted(i).b % 6 == 0,
        slotted(i).c == slot(i),
{
    final_exp_descriptors::law_mult_counts();
    if is_easy(i) {
        final_exp_descriptors::law_columns_in_range(true, i);
    } else {
        final_exp_descriptors::law_columns_in_range(
            false,
            i - final_exp_descriptors::FINAL_EXP_EASY_WIRED_MULTS,
        );
    }
}

/// The cells of an element of the base field.
proof fn lemma_fp_cells(row: FinalExpRow, base: int, j: int)
    requires
        0 <= base <= 282,
        base % 6 == 0,
        0 <= j < 6,
    ensures
        row_cell(row, base + j) == fp_at(row, base).limbs@[j],
{
    assert((base + j) / 72 == base / 72);
    assert((base + j) % 72 == base % 72 + j);
    assert((base % 72 + j) / 6 == base % 72 / 6);
    assert((base % 72 + j) % 6 == j);
}

/// The link of each multiplication holds: on its step the selector is set, on
/// the other step it is not, and the linked cells of the step are those of the
/// row of the table, whose selector is set.
pub proof fn law_links_hold(f: Fp12, g: Fp12, i: int, j: int)
    requires
        0 <= i < FE_INTERMEDIATE_NUM_DESCRIPTORS,
        0 <= j < 18,
    ensures
        ({
            let link = slotted_link(i);
            let cell = populated_cells(f, g);
            &&& link.a_columns.len() == 18 && link.b_columns.len() == 18
            &&& 0 <= link.a_columns[j] < nonnative_fp_air::NUM_NONNATIVE_FP_COLUMNS
            &&& 0 <= link.b_columns[j] < NUM_COLUMNS
            &&& cell(link.b_columns[j], step_of(i)) == table_cells(f, g)(link.a_columns[j], i)
            &&& cell(link.b_selector, step_of(i)) == 1
            &&& cell(link.b_selector, 1 - step_of(i)) == 0
            &&& table_cells(f, g)(link.a_selector, i) == 1
        }),
{
    lemma_slotted(i);
    let m = slotted(i);
    let link = slotted_link(i);
    let row = steps(f, g)[step_of(i)];
    if j < 6 {
        assert(link.b_columns[j] == m.a + j);
        assert(link.a_columns[j] == j);
        lemma_fp_cells(row, m.a, j);
    } else if j < 12 {
        assert(link.b_columns[j] == m.b + (j - 6));
        assert(link.a_columns[j] == j);
        lemma_fp_cells(row, m.b, j - 6);
    } else {
        assert(link.b_columns[j] == slot(i) + (j - 12));
        assert(link.a_columns[j] == j);
        let c = link.b_columns[j];
        assert(c - NUM_SCAFFOLD_COLUMNS == 6 * i + (j - 12));
        assert((c - NUM_SCAFFOLD_COLUMNS) / 6 == i);
        assert((c - NUM_SCAFFOLD_COLUMNS) % 6 == j - 12);
    }
}

/// The slots of two multiplications have no column in common.
pub proof fn law_slots_disjoint(i: int, k: int, j: int, l: int)
    requires
        0 <= j < LIMBS_PER_FP,
        0 <= l < LIMBS_PER_FP,
        slot(i) + j == slot(k) + l,
    ensures
        i == k,
        j == l,
{
}

/// A multiplication carried out.
struct Product {
    a: Fp,
    b: Fp,
    r: Fp,
}

spec fn carried_out(p: Product, row: FinalExpRow, i: int) -> bool {
    p.a == fp_at(row, slotted(i).a) && p.b == fp_at(row, slotted(i).b) && p.r.value() == product(
        row,
        i,
    )
}

fn fp_from(row: &FinalExpRow, base: usize) -> (r: Fp)
    requires
        base <= 282,
    ensures
        r == fp_at(*row, base as int),
{
    element_at(row, base / 72).coefficient_at(base % 72 / 6)
}

/// Moves the product of a link to slot `i`.
fn rewired(
    d: &CrossAirLogUpDescriptor,
    i: usize,
    Ghost(easy): Ghost<bool>,
    Ghost(m): Ghost<final_exp_descriptors::Mult>,
) -> (r: CrossAirLogUpDescriptor)
    requires
        i < FE_INTERMEDIATE_NUM_DESCRIPTORS,
        d.is(final_exp_descriptors::mult_link(easy, m, 1, 0)),
    ensures
        r.is(final_exp_descriptors::mult_link(easy, in_slot(m, i as int), 1, 0)),
{
    let mut r: CrossAirLogUpDescriptor = d.clone();
    assert(cross_air_logup::indices(d.b_columns@).len() == 18);
    r.b_columns.truncate(12);
    let ghost kept = cross_air_logup::indices(r.b_columns@);
    push_run(&mut r.b_columns, intermediate_c_base_for(i), LIMBS_PER_FP);
    proof {
        let link = final_exp_descriptors::mult_link(easy, m, 1, 0);
        let want = final_exp_descriptors::mult_link(easy, in_slot(m, i as int), 1, 0);
        assert(kept =~= link.b_columns.take(12));
        assert(kept =~= cross_air_logup::run(m.a, 6) + cross_air_logup::run(m.b, 6));
        assert(cross_air_logup::indices(r.b_columns@) =~= want.b_columns);
        assert(cross_air_logup::indices(r.a_columns@) =~= want.a_columns);
    }
    r
}

/// Moves the products of the links of a part to their slots.
fn rewire_all(ds: &Vec<CrossAirLogUpDescriptor>, easy: bool) -> (r: Vec<CrossAirLogUpDescriptor>)
    requires
        final_exp_descriptors::links_mults(
            ds@,
            easy,
            final_exp_descriptors::all_mults(easy),
            1,
            0,
        ),
    ensures
        r.len() == ds.len(),
        forall|i: int|
            0 <= i < r.len() ==> (#[trigger] r@[i]).is(
                slotted_link(
                    if easy {
                        i
                    } else {
                        final_exp_descriptors::FINAL_EXP_EASY_WIRED_MULTS + i
                    },
                ),
            ),
{
    proof {
        final_exp_descriptors::law_mult_counts();
    }
    let first: usize = if easy {
        0
    } else {
        final_exp_descriptors::FINAL_EXP_EASY_WIRED_MULTS
    };
    let mut out: Vec<CrossAirLogUpDescriptor> = Vec::with_capacity(ds.len());
    let mut i: usize = 0;
    while i < ds.len()
        invariant
            i <= ds.len(),
            first == if easy {
                0usize
            } else {
                final_exp_descriptors::FINAL_EXP_EASY_WIRED_MULTS
            },
            ds.len() == if easy {
                final_exp_descriptors::FINAL_EXP_EASY_WIRED_MULTS
            } else {
                final_exp_descriptors::FINAL_EXP_HARD_WIRED_MULTS
            },
            final_exp_descriptors::links_mults(
                ds@,
                easy,
                final_exp_descriptors::all_mults(easy),
                1,
                0,
            ),
            out.len() == i,
            forall|k: int| 0 <= k < i ==> (#[trigger] out@[k]).is(slotted_link(first + k)),
        decreases ds.len() - i,
    {
        let ghost m = final_exp_descriptors::all_mults(easy)[i as int];
        assert(ds@[i as int].is(final_exp_descriptors::mult_link(easy, m, 1, 0)));
        assert(slotted(first + i) == in_slot(m, first + i));
        out.push(rewired(&ds[i], first + i, Ghost(easy), Ghost(m)));
        i = i + 1;
    }
    out
}

/// Carries out the multiplications of the links on a row.
fn multiply(
    row: &FinalExpRow,
    ds: &Vec<CrossAirLogUpDescriptor>,
    products: &mut Vec<Product>,
    Ghost(f): Ghost<Fp12>,
    Ghost(g): Ghost<Fp12>,
)
    requires
        old(products).len() + ds.len() <= FE_INTERMEDIATE_NUM_DESCRIPTORS,
        forall|i: int|
            0 <= i < ds.len() ==> (#[trigger] ds@[i]).is(slotted_link(old(products).len() + i)),
        forall|i: int|
            old(products).len() <= i < old(products).len() + ds.len() ==> steps(f, g)[#[trigger] step_of(i)] == *row,
        forall|i: int|
            0 <= i < old(products).len() ==> carried_out(
                #[trigger] old(products)@[i],
                steps(f, g)[step_of(i)],
                i,
            ),
    ensures
        final(products).len() == old(products).len() + ds.len(),
        forall|i: int|
            0 <= i < final(products).len() ==> carried_out(
                #[trigger] final(products)@[i],
                steps(f, g)[step_of(i)],
                i,
            ),
{
    let ghost n = products.len() as int;
    let mut i: usize = 0;
    while i < ds.len()
        invariant
            i <= ds.len(),
            n + ds.len() <= FE_INTERMEDIATE_NUM_DESCRIPTORS,
            0 <= n,
            products.len() == n + i,
            forall|k: int| 0 <= k < ds.len() ==> (#[trigger] ds@[k]).is(slotted_link(n + k)),
            forall|k: int|
                n <= k < n + ds.len() ==> steps(f, g)[#[trigger] step_of(k)] == *row,
            forall|k: int|
                0 <= k < n + i ==> carried_out(
                    #[trigger] products@[k],
                    steps(f, g)[step_of(k)],
                    k,
                ),
        decreases ds.len() - i,
    {
        proof {
            lemma_slotted(n + i);
            let link = slotted_link(n + i);
            let cols = cross_air_logup::indices(ds@[i as int].b_columns@);
            assert(ds@[i as int].is(link));
            assert(cols.len() == 18);
            assert(cols[0] == slotted(n + i).a);
            assert(cols[6] == slotted(n + i).b);
            assert(steps(f, g)[step_of(n + i)] == *row);
        }
        let a: Fp = fp_from(row, ds[i].b_columns[0]);
        let b: Fp = fp_from(row, ds[i].b_columns[LIMBS_PER_FP]);
        let ghost before = products@;
        products.push(Product { a, b, r: a.mul(&b) });
        assert(forall|k: int| 0 <= k < n + i ==> products@[k] == before[k]);
        i = i + 1;
    }
}

/// The scalars of a step with the products in their slots.
fn populated_row(
    row: &FinalExpRow,
    easy: bool,
    products: &Vec<Product>,
    Ghost(f): Ghost<Fp12>,
    Ghost(g): Ghost<Fp12>,
) -> (v: Vec<Scalar>)
    requires
        products.len() == FE_INTERMEDIATE_NUM_DESCRIPTORS,
        forall|i: int|
            0 <= i < products.len() ==> carried_out(
                #[trigger] products@[i],
                steps(f, g)[step_of(i)],
                i,
            ),
        *row == steps(f, g)[if easy {
            0
        } else {
            1
        }],
    ensures
        v.len() == NUM_COLUMNS,
        forall|c: int|
            0 <= c < NUM_COLUMNS ==> (#[trigger] v@[c]).curve() == CurveType::Bls12381 && v@[c]@
                == populated_cells(f, g)(c, if easy {
                0
            } else {
                1
            }),
{
    let ghost r: int = if easy {
        0
    } else {
        1
    };
    let mut v: Vec<Scalar> = Vec::with_capacity(NUM_COLUMNS);
    let mut c: usize = 0;
    while c < NUM_COLUMNS
        invariant
            c <= NUM_COLUMNS,
            r == if easy {
                0int
            } else {
                1int
            },
            *row == steps(f, g)[r],
            products.len() == FE_INTERMEDIATE_NUM_DESCRIPTORS,
            forall|i: int|
                0 <= i < products.len() ==> carried_out(
                    #[trigger] products@[i],
                    steps(f, g)[step_of(i)],
                    i,
                ),
            v.len() == c,
            forall|k: int|
                0 <= k < c ==> (#[trigger] v@[k]).curve() == CurveType::Bls12381 && v@[k]@
                    == populated_cells(f, g)(k, r),
        decreases NUM_COLUMNS - c,
    {
        let x: u64 = if c < NUM_SCAFFOLD_COLUMNS {
            cell_value(row, c)
        } else {
            let i: usize = (c - NUM_SCAFFOLD_COLUMNS) / LIMBS_PER_FP;
            let j: usize = (c - NUM_SCAFFOLD_COLUMNS) % LIMBS_PER_FP;
            if (i < final_exp_descriptors::FINAL_EXP_EASY_WIRED_MULTS) == easy {
                proof {
                    assert(carried_out(products@[i as int], steps(f, g)[step_of(i as int)], i as int));
                    nonnative_fp::law_limbs(products@[i as int].r, j as int);
                }
                products[i].r.limbs[j]
            } else {
                0
            }
        };
        v.push(Scalar::from_u64(x, CurveType::Bls12381));
        c = c + 1;
    }
    v
}

/// The scalars of a row of the table.
fn table_row(p: &Product, Ghost(i): Ghost<int>, Ghost(f): Ghost<Fp12>, Ghost(g): Ghost<Fp12>) -> (v:
    Vec<Scalar>)
    requires
        carried_out(*p, steps(f, g)[step_of(i)], i),
    ensures
        v.len() == nonnative_fp_air::NUM_NONNATIVE_FP_COLUMNS,
        forall|c: int|
            0 <= c < v.len() ==> (#[trigger] v@[c]).curve() == CurveType::Bls12381 && v@[c]@
                == table_cells(f, g)(c, i),
{
    let mut v: Vec<Scalar> = Vec::with_capacity(nonnative_fp_air::NUM_NONNATIVE_FP_COLUMNS);
    let mut c: usize = 0;
    while c < nonnative_fp_air::NUM_NONNATIVE_FP_COLUMNS
        invariant
            c <= nonnative_fp_air::NUM_NONNATIVE_FP_COLUMNS,
            carried_out(*p, steps(f, g)[step_of(i)], i),
            v.len() == c,
            forall|k: int|
                0 <= k < c ==> (#[trigger] v@[k]).curve() == CurveType::Bls12381 && v@[k]@
                    == table_cells(f, g)(k, i),
        decreases nonnative_fp_air::NUM_NONNATIVE_FP_COLUMNS - c,
    {
        let x: u64 = if c < nonnative_fp_air::COL_B_OFFSET {
            p.a.limbs[c]
        } else if c < nonnative_fp_air::COL_R_OFFSET {
            p.b.limbs[c - nonnative_fp_air::COL_B_OFFSET]
        } else if c < nonnative_fp_air::COL_SEL_MUL {
            proof {
                nonnative_fp::law_limbs(p.r, c - nonnative_fp_air::COL_R_OFFSET);
            }
            p.r.limbs[c - nonnative_fp_air::COL_R_OFFSET]
        } else {
            1
        };
        v.push(Scalar::from_u64(x, CurveType::Bls12381));
        c = c + 1;
    }
    v
}

fn table(products: &Vec<Product>, Ghost(f): Ghost<Fp12>, Ghost(g): Ghost<Fp12>) -> (t:
    TracePolynomials)
    requires
        products.len() == FE_INTERMEDIATE_NUM_DESCRIPTORS,
        forall|i: int|
            0 <= i < products.len() ==> carried_out(
                #[trigger] products@[i],
                steps(f, g)[step_of(i)],
                i,
            ),
    ensures
        trace::holds(
            t,
            nonnative_fp_air::NUM_NONNATIVE_FP_COLUMNS as nat,
            FE_INTERMEDIATE_NUM_DESCRIPTORS as nat,
            CurveType::Bls12381,
            table_cells(f, g),
        ),
{
    let mut rows: Vec<Vec<Scalar>> = Vec::with_capacity(products.len());
    let mut i: usize = 0;
    while i < products.len()
        invariant
            i <= products.len(),
            products.len() == FE_INTERMEDIATE_NUM_DESCRIPTORS,
            forall|k: int|
                0 <= k < products.len() ==> carried_out(
                    #[trigger] products@[k],
                    steps(f, g)[step_of(k)],
                    k,
                ),
            rows.len() == i,
            trace::rows_hold(
                rows@,
                nonnative_fp_air::NUM_NONNATIVE_FP_COLUMNS as nat,
                CurveType::Bls12381,
                table_cells(f, g),
            ),
        decreases products.len() - i,
    {
        let ghost before = rows@;
        rows.push(table_row(&products[i], Ghost(i as int), Ghost(f), Ghost(g)));
        assert(forall|k: int| 0 <= k < i ==> rows@[k] == before[k]);
        i = i + 1;
    }
    trace_from_rows(
        &rows,
        nonnative_fp_air::NUM_NONNATIVE_FP_COLUMNS,
        CurveType::Bls12381,
        Ghost(table_cells(f, g)),
    )
}

/// The links of both parts, those of the easy part first.
fn both(easy: &Vec<CrossAirLogUpDescriptor>, hard: &Vec<CrossAirLogUpDescriptor>) -> (r: Vec<
    CrossAirLogUpDescriptor,
>)
    requires
        easy.len() == final_exp_descriptors::FINAL_EXP_EASY_WIRED_MULTS,
        hard.len() == final_exp_descriptors::FINAL_EXP_HARD_WIRED_MULTS,
        forall|i: int| 0 <= i < easy.len() ==> (#[trigger] easy@[i]).is(slotted_link(i)),
        forall|i: int|
            0 <= i < hard.len() ==> (#[trigger] hard@[i]).is(slotted_link(easy.len() + i)),
    ensures
        r.len() == FE_INTERMEDIATE_NUM_DESCRIPTORS,
        forall|i: int| 0 <= i < r.len() ==> (#[trigger] r@[i]).is(slotted_link(i)),
{
    let mut out: Vec<CrossAirLogUpDescriptor> = Vec::with_capacity(FE_INTERMEDIATE_NUM_DESCRIPTORS);
    let mut i: usize = 0;
    while i < FE_INTERMEDIATE_NUM_DESCRIPTORS
        invariant
            i <= FE_INTERMEDIATE_NUM_DESCRIPTORS,
            easy.len() == final_exp_descriptors::FINAL_EXP_EASY_WIRED_MULTS,
            hard.len() == final_exp_descriptors::FINAL_EXP_HARD_WIRED_MULTS,
            forall|k: int| 0 <= k < easy.len() ==> (#[trigger] easy@[k]).is(slotted_link(k)),
            forall|k: int|
                0 <= k < hard.len() ==> (#[trigger] hard@[k]).is(slotted_link(easy.len() + k)),
            out.len() == i,
            forall|k: int| 0 <= k < i ==> (#[trigger] out@[k]).is(slotted_link(k)),
        decreases FE_INTERMEDIATE_NUM_DESCRIPTORS - i,
    {
        if i < easy.len() {
            assert(easy@[i as int].is(slotted_link(i as int)));
            out.push(easy[i].clone());
        } else {
            let k: usize = i - easy.len();
            assert(hard@[k as int].is(slotted_link(easy.len() + k)));
            out.push(hard[k].clone());
        }
        i = i + 1;
    }
    out
}

/// Carries out all multiplications of an easy step on `f_input` and of a hard
/// step from `f_input` to `f_final`.
pub fn populate_steps(f_input: Fp12, f_final: Fp12) -> (r: FinalExpFpMultFixture)
    ensures
        r.populated(f_input, f_final),
{
    let ghost (f, g) = (f_input, f_final);
    let mut witness: FinalExpWitness = FinalExpWitness::new();
    witness.push_easy(f_input);
    witness.push_hard(f_input, f_final);
    assert(witness.rows@ =~= steps(f, g));
    let easy: Vec<CrossAirLogUpDescriptor> = rewire_all(
        &FinalExpEasyDescriptors::build(1, 0).descriptors,
        true,
    );
    let hard: Vec<CrossAirLogUpDescriptor> = rewire_all(
        &FinalExpHardDescriptors::build(1, 0).descriptors,
        false,
    );
    let mut products: Vec<Product> = Vec::with_capacity(FE_INTERMEDIATE_NUM_DESCRIPTORS);
    multiply(&witness.rows[0], &easy, &mut products, Ghost(f), Ghost(g));
    multiply(&witness.rows[1], &hard, &mut products, Ghost(f), Ghost(g));
    let mut rows: Vec<Vec<Scalar>> = Vec::with_capacity(2);
    rows.push(populated_row(&witness.rows[0], true, &products, Ghost(f), Ghost(g)));
    rows.push(populated_row(&witness.rows[1], false, &products, Ghost(f), Ghost(g)));
    let final_exp_trace: TracePolynomials = trace_from_rows(
        &rows,
        NUM_COLUMNS,
        CurveType::Bls12381,
        Ghost(populated_cells(f, g)),
    );
    let nonnative_fp_trace: TracePolynomials = table(&products, Ghost(f), Ghost(g));
    FinalExpFpMultFixture {
        final_exp_trace,
        nonnative_fp_trace,
        pinned_descriptors: both(&easy, &hard),
        all_easy_descriptors: easy,
        all_hard_descriptors: hard,
        num_populated_fp_mults: products.len(),
    }
}

/// Carries out all multiplications of an easy step on `f_input` and of a hard
/// step from `f_input` to its final exponentiation.
pub fn populate_final_exp_trace(f_input: Fp12) -> (r: FinalExpFpMultFixture)
    ensures
        exists|g: Fp12| #[trigger]
            pairing::is_final_exponentiation(f_input, g) && g.valid() && r.populated(f_input, g),
{
    let f_final: Fp12 = pairing::final_exponentiation(&f_input);
    populate_steps(f_input, f_final)
}

/// The steps of a fixture: on both rows the element after the easy part is the
/// element before the step, cell by cell. The first row holds `f` in all four
/// elements, the second holds `g` after the hard part and as handed on, and the
/// rows are selected as easy and as hard.
pub proof fn law_fixture_steps(x: FinalExpFpMultFixture, f: Fp12, g: Fp12)
    requires
        x.populated(f, g),
    ensures
        x.final_exp_trace.num_rows == 2,
        x.final_exp_trace.columns.len() == 7598,
        forall|j: int, r: int|
            0 <= j < 72 && 0 <= r < 2 ==> trace::at(
                x.final_exp_trace,
                #[trigger] (COL_F_EASY_OUT_OFFSET + j),
                r,
            ) == #[trigger] trace::at(x.final_exp_trace, j, r),
        holds_element(x.final_exp_trace, COL_F_PRE_OFFSET as int, 0, f),
        holds_element(x.final_exp_trace, COL_F_EASY_OUT_OFFSET as int, 0, f),
        holds_element(x.final_exp_trace, COL_F_HARD_OUT_OFFSET as int, 0, f),
        holds_element(x.final_exp_trace, COL_F_FINAL_OFFSET as int, 0, f),
        holds_element(x.final_exp_trace, COL_F_PRE_OFFSET as int, 1, f),
        holds_element(x.final_exp_trace, COL_F_EASY_OUT_OFFSET as int, 1, f),
        holds_element(x.final_exp_trace, COL_F_HARD_OUT_OFFSET as int, 1, g),
        holds_element(x.final_exp_trace, COL_F_FINAL_OFFSET as int, 1, g),
        trace::at(x.final_exp_trace, COL_IS_EASY_STEP as int, 0) == 1,
        trace::at(x.final_exp_trace, COL_IS_HARD_STEP as int, 0) == 0,
        trace::at(x.final_exp_trace, COL_IS_EASY_STEP as int, 1) == 0,
        trace::at(x.final_exp_trace, COL_IS_HARD_STEP as int, 1) == 1,
{
    let t = x.final_exp_trace;
    let cell = populated_cells(f, g);
    trace::lemma_cells(t, NUM_COLUMNS as nat, 2, CurveType::Bls12381, cell, 0);
    trace::lemma_cells(t, NUM_COLUMNS as nat, 2, CurveType::Bls12381, cell, 1);
    lemma_holds_elements(t, 0, steps(f, g)[0]);
    lemma_holds_elements(t, 1, steps(f, g)[1]);
    assert forall|j: int, r: int| 0 <= j < 72 && 0 <= r < 2 implies trace::at(
        t,
        #[trigger] (COL_F_EASY_OUT_OFFSET + j),
        r,
    ) == #[trigger] trace::at(t, j, r) by {
        let (i, k) = (j / 6, j % 6);
        assert(COL_F_PRE_OFFSET + 6 * i + k == j);
        assert(COL_F_EASY_OUT_OFFSET + 6 * i + k == COL_F_EASY_OUT_OFFSET + j);
        assert(r == 0 || r == 1);
    }
}

/// The number in the six cells from column `c`, most significant limb first.
#[verifier::opaque]
pub open spec fn number_at(t: TracePolynomials, c: int, r: int) -> int {
    trace::at(t, c + 5, r) + 0x1_0000000000000000int * trace::at(t, c + 4, r)
        + 0x1_00000000000000000000000000000000int * trace::at(t, c + 3, r)
        + 0x1_000000000000000000000000000000000000000000000000int * trace::at(t, c + 2, r)
        + 0x1_0000000000000000000000000000000000000000000000000000000000000000int * trace::at(
        t,
        c + 1,
        r,
    )
        + 0x1_00000000000000000000000000000000000000000000000000000000000000000000000000000000int
        * trace::at(t, c, r)
}

/// Link `i` of a fixture: the linked cells of its step are those of row `i` of
/// the table, both selectors are set there, and the product lies in slot `i`.
/// On the other step the slot is empty and the link is not selected.
pub proof fn law_fixture_cells(x: FinalExpFpMultFixture, f: Fp12, g: Fp12, i: int, r: int, s: int)
    requires
        x.populated(f, g),
        0 <= i < 1218,
        i < 410 ==> r == 0 && s == COL_IS_EASY_STEP,
        i >= 410 ==> r == 1 && s == COL_IS_HARD_STEP,
    ensures
        x.pinned_descriptors@[i].a_layer_index == 0,
        x.pinned_descriptors@[i].b_layer_index == 1,
        x.pinned_descriptors@[i].a_selector_column == Some(18usize),
        x.pinned_descriptors@[i].b_selector_column == Some(s as usize),
        x.pinned_descriptors@[i].a_columns.len() == 18,
        x.pinned_descriptors@[i].b_columns.len() == 18,
        forall|j: int| 0 <= j < 18 ==> #[trigger] x.pinned_descriptors@[i].a_columns@[j] == j,
        forall|j: int|
            0 <= j < 18 ==> trace::at(
                x.final_exp_trace,
                #[trigger] x.pinned_descriptors@[i].b_columns@[j] as int,
                r,
            ) == trace::at(x.nonnative_fp_trace, j, i),
        forall|j: int|
            1 <= j < 18 && j != 6 && j != 12 ==> #[trigger] x.pinned_descriptors@[i].b_columns@[j]
                == x.pinned_descriptors@[i].b_columns@[j - 1] + 1,
        x.pinned_descriptors@[i].b_columns@[12] == 290 + 6 * i,
        forall|j: int|
            0 <= j < 6 ==> trace::at(x.final_exp_trace, #[trigger] (290 + 6 * i + j), 1 - r) == 0,
        trace::at(x.final_exp_trace, s, r) == 1,
        trace::at(x.final_exp_trace, s, 1 - r) == 0,
        trace::at(x.nonnative_fp_trace, 18, i) == 1,
        x.nonnative_fp_trace.num_rows == 1218,
        x.pinned_descriptors.len() == 1218,
        x.num_populated_fp_mults == 1218,
{
    lemma_slotted(i);
    let d = x.pinned_descriptors@[i];
    let (t, u) = (x.final_exp_trace, x.nonnative_fp_trace);
    let cell = populated_cells(f, g);
    let m = slotted(i);
    let link = slotted_link(i);
    assert(d.is(link));
    let ac = cross_air_logup::indices(d.a_columns@);
    let bc = cross_air_logup::indices(d.b_columns@);
    assert(ac.len() == 18 && bc.len() == 18);
    trace::lemma_cells(t, NUM_COLUMNS as nat, 2, CurveType::Bls12381, cell, 0);
    trace::lemma_cells(t, NUM_COLUMNS as nat, 2, CurveType::Bls12381, cell, 1);
    trace::lemma_cells(u, 19, 1218, CurveType::Bls12381, table_cells(f, g), i);
    assert forall|j: int| 0 <= j < 18 implies {
        &&& #[trigger] d.a_columns@[j] == j
        &&& d.b_columns@[j] == (if j < 6 {
            m.a + j
        } else if j < 12 {
            m.b + j - 6
        } else {
            290 + 6 * i + j - 12
        })
        &&& trace::at(t, d.b_columns@[j] as int, r) == trace::at(u, j, i)
    } by {
        law_links_hold(f, g, i, j);
        assert(ac[j] == link.a_columns[j]);
        assert(bc[j] == link.b_columns[j]);
        assert(link.a_columns[j] == j);
    }
    assert forall|j: int| 1 <= j < 18 && j != 6 && j != 12 implies #[trigger] d.b_columns@[j]
        == d.b_columns@[j - 1] + 1 by {
        assert(d.a_columns@[j] == j && d.a_columns@[j - 1] == j - 1);
    }
    assert(d.a_columns@[12] == 12);
    assert forall|j: int| 0 <= j < 18 implies trace::at(t, #[trigger] d.b_columns@[j] as int, r)
        == trace::at(u, j, i) by {
        assert(d.a_columns@[j] == j);
    }
    assert forall|j: int| 0 <= j < 6 implies trace::at(t, #[trigger] (290 + 6 * i + j), 1 - r)
        == 0 by {
        let c = 290 + 6 * i + j;
        assert((c - 290) / 6 == i && (c - 290) % 6 == j);
        assert(trace::at(t, c, 1 - r) == cell(c, 1 - r));
    }
    law_links_hold(f, g, i, 0);
    assert(link.b_selector == s);
    assert(trace::at(t, s, r) == cell(s, r));
    assert(trace::at(t, s, 1 - r) == cell(s, 1 - r));
    assert(trace::at(u, 18, i) == table_cells(f, g)(18, i));
}

/// The product of link `i` of a fixture is the product of its two factors
/// modulo the prime, in the table and on its step.
pub proof fn law_fixture_products(x: FinalExpFpMultFixture, f: Fp12, g: Fp12, i: int, r: int)
    requires
        x.populated(f, g),
        0 <= i < 1218,
        i < 410 ==> r == 0,
        i >= 410 ==> r == 1,
    ensures
        number_at(x.nonnative_fp_trace, 12, i) == (number_at(x.nonnative_fp_trace, 0, i)
            * number_at(x.nonnative_fp_trace, 6, i)) % nonnative_fp::prime(),
        number_at(x.final_exp_trace, 290 + 6 * i, r) == (number_at(
            x.final_exp_trace,
            x.pinned_descriptors@[i].b_columns@[0] as int,
            r,
        ) * number_at(x.final_exp_trace, x.pinned_descriptors@[i].b_columns@[6] as int, r))
            % nonnative_fp::prime(),
{
    let s = if i < 410 {
        COL_IS_EASY_STEP as int
    } else {
        COL_IS_HARD_STEP as int
    };
    law_fixture_cells(x, f, g, i, r, s);
    let b = x.pinned_descriptors@[i].b_columns@;
    let (t, u) = (x.final_exp_trace, x.nonnative_fp_trace);
    trace::lemma_cells(u, 19, 1218, CurveType::Bls12381, table_cells(f, g), i);
    lemma_table_numbers(u, f, g, i);
    assert(b[1] == b[0] + 1 && b[2] == b[0] + 2 && b[3] == b[0] + 3 && b[4] == b[0] + 4 && b[5]
        == b[0] + 5);
    assert(b[7] == b[6] + 1 && b[8] == b[6] + 2 && b[9] == b[6] + 3 && b[10] == b[6] + 4 && b[11]
        == b[6] + 5);
    assert(b[13] == b[12] + 1 && b[14] == b[12] + 2 && b[15] == b[12] + 3 && b[16] == b[12] + 4
        && b[17] == b[12] + 5);
    lemma_same_number(t, b[0] as int, r, u, 0, i);
    lemma_same_number(t, b[6] as int, r, u, 6, i);
    lemma_same_number(t, b[12] as int, r, u, 12, i);
}

proof fn lemma_same_number(
    t: TracePolynomials,
    c: int,
    r: int,
    u: TracePolynomials,
    k: int,
    i: int,
)
    requires
        trace::at(t, c, r) == trace::at(u, k, i),
        trace::at(t, c + 1, r) == trace::at(u, k + 1, i),
        trace::at(t, c + 2, r) == trace::at(u, k + 2, i),
        trace::at(t, c + 3, r) == trace::at(u, k + 3, i),
        trace::at(t, c + 4, r) == trace::at(u, k + 4, i),
        trace::at(t, c + 5, r) == trace::at(u, k + 5, i),
    ensures
        number_at(t, c, r) == number_at(u, k, i),
{
    reveal(number_at);
}

/// The numbers on a row of the table.
proof fn lemma_table_numbers(u: TracePolynomials, f: Fp12, g: Fp12, i: int)
    requires
        0 <= i < 1218,
        forall|c: int| 0 <= c < 19 ==> #[trigger] trace::at(u, c, i) == table_cells(f, g)(c, i),
    ensures
        number_at(u, 12, i) == (number_at(u, 0, i) * number_at(u, 6, i)) % nonnative_fp::prime(),
{
    reveal(number_at);
    let row = steps(f, g)[step_of(i)];
    let (a, b) = (fp_at(row, slotted(i).a), fp_at(row, slotted(i).b));
    nonnative_fp::law_value(a);
    nonnative_fp::law_value(b);
    let p = product(row, i);
    assert(0 <= p < nonnative_fp::prime());
    nonnative_fp::lemma_prime_fits();
    nonnative_fp::law_limbs_add_up(p);
    assert(number_at(u, 0, i) == a.value());
    assert(number_at(u, 6, i) == b.value());
    assert(number_at(u, 12, i) == p);
}

/// The links of a fixture are those of the two parts with the product moved:
/// labels, selectors and the columns of the factors stay. The lists of the two
/// parts hold the same links as the list of both.
pub proof fn law_fixture_links(
    x: FinalExpFpMultFixture,
    f: Fp12,
    g: Fp12,
    easy: Seq<CrossAirLogUpDescriptor>,
    hard: Seq<CrossAirLogUpDescriptor>,
    i: int,
)
    requires
        x.populated(f, g),
        final_exp_descriptors::links_mults(
            easy,
            true,
            final_exp_descriptors::all_mults(true),
            1,
            0,
        ),
        final_exp_descriptors::links_mults(
            hard,
            false,
            final_exp_descriptors::all_mults(false),
            1,
            0,
        ),
        0 <= i < 1218,
    ensures
        ({
            let d = x.pinned_descriptors@[i];
            let (o, k) = if i < 410 {
                (easy[i], x.all_easy_descriptors@[i])
            } else {
                (hard[i - 410], x.all_hard_descriptors@[i - 410])
            };
            &&& d.label@ == o.label@ && k.label@ == o.label@
            &&& d.b_selector_column == o.b_selector_column
            &&& k.b_selector_column == o.b_selector_column
            &&& d.a_columns@ == o.a_columns@ && k.a_columns@ == o.a_columns@
            &&& d.b_columns@.take(12) == o.b_columns@.take(12)
            &&& k.b_columns@ == d.b_columns@
        }),
        easy.len() == 410,
        hard.len() == 808,
        x.all_easy_descriptors.len() == 410,
        x.all_hard_descriptors.len() == 808,
{
    final_exp_descriptors::law_mult_counts();
    let d = x.pinned_descriptors@[i];
    let (o, k, m) = if i < 410 {
        (easy[i], x.all_easy_descriptors@[i], final_exp_descriptors::all_mults(true)[i])
    } else {
        (
            hard[i - 410],
            x.all_hard_descriptors@[i - 410],
            final_exp_descriptors::all_mults(false)[i - 410],
        )
    };
    let link = slotted_link(i);
    let from = final_exp_descriptors::mult_link(is_easy(i), m, 1, 0);
    assert(d.is(link));
    assert(k.is(link));
    assert(o.is(from));
    lemma_same_indices(d.a_columns@, o.a_columns@);
    lemma_same_indices(k.a_columns@, o.a_columns@);
    lemma_same_indices(k.b_columns@, d.b_columns@);
    let (x1, x2) = (d.b_columns@, o.b_columns@);
    let (b1, b2) = (cross_air_logup::indices(x1), cross_air_logup::indices(x2));
    assert(b1.len() == 18 && b2.len() == 18);
    assert forall|j: int| 0 <= j < 12 implies x1[j] == x2[j] by {
        assert(b1[j] == link.b_columns[j] && b2[j] == from.b_columns[j]);
    }
    assert(x1.take(12) =~= x2.take(12));
}

proof fn lemma_same_indices(a: Seq<usize>, b: Seq<usize>)
    requires
        cross_air_logup::indices(a) == cross_air_logup::indices(b),
    ensures
        a == b,
{
    let (x, y) = (cross_air_logup::indices(a), cross_air_logup::indices(b));
    assert(x.len() == a.len() && y.len() == b.len());
    assert forall|j: int| 0 <= j < a.len() implies a[j] == b[j] by {
        assert(x[j] == y[j]);
    }
    assert(a =~= b);
}

/// The value of each constraint on a row, and of the two-row constraint between
/// two elements.
pub proof fn law_constraint_values(
    row: Seq<int>,
    ch: int,
    last: Seq<int>,
    first: Seq<int>,
)
    ensures
        ({
            let v = |i: int| expr::ev(row_constraints()[i], row, Seq::empty(), ch);
            let easy = row[288];
            let hard = row[289];
            &&& v(0) == easy * (easy - 1)
            &&& v(1) == hard * (hard - 1)
            &&& v(2) == easy * hard
            &&& v(3) == easy * poly_arith::peval(Seq::new(36, |k: int| row[72 + k] - row[k]), ch)
            &&& v(4) == hard * poly_arith::peval(
                Seq::new(72, |k: int| row[216 + k] - row[144 + k]),
                ch,
            )
        }),
        expr::ev(handover(), last, first, ch) == poly_arith::peval(
            Seq::new(72, |k: int| first[k] - last[k]),
            ch,
        ),
{
    let e = Seq::<int>::empty();
    constraints::lemma_ev_binary(COL_IS_EASY_STEP, row, e, ch);
    constraints::lemma_ev_binary(COL_IS_HARD_STEP, row, e, ch);
    reveal_with_fuel(expr::ev, 2);
    constraints::lemma_ev_gated(COL_IS_EASY_STEP, Expr::Col(COL_IS_HARD_STEP), row, e, ch);
    let x = constraints::diffs_of(COL_F_EASY_OUT_OFFSET, COL_F_PRE_OFFSET, 36);
    let y = constraints::diffs_of(COL_F_FINAL_OFFSET, COL_F_HARD_OUT_OFFSET, 72);
    constraints::lemma_ev_gated(COL_IS_EASY_STEP, constraints::rlc_of(x), row, e, ch);
    constraints::lemma_ev_gated(COL_IS_HARD_STEP, constraints::rlc_of(y), row, e, ch);
    constraints::lemma_ev_rlc(x, row, e, ch);
    constraints::lemma_ev_rlc(y, row, e, ch);
    constraints::lemma_ev_rlc(handover_terms(), last, first, ch);
    assert(constraints::denoted(x, row, e, ch) =~= Seq::new(36, |k: int| row[72 + k] - row[k]));
    assert(constraints::denoted(y, row, e, ch) =~= Seq::new(
        72,
        |k: int| row[216 + k] - row[144 + k],
    ));
    assert(constraints::denoted(handover_terms(), last, first, ch) =~= Seq::new(
        72,
        |k: int| first[k] - last[k],
    ));
}

} // verus!
