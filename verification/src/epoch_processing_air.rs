//! Epoch processing of validator balances: trace, constraints and links.
//!
//! One row per validator and epoch. The row holds the balance update, the
//! effective balance before and after, and the direction of the hysteresis
//! step between them.

use crate::attestation_rewards_air;
use crate::attester_slashing_air;
use crate::bytes;
use crate::constraints;
use crate::constraints::{binary, diff, le_bytes_expr, minus, plus, times};
use crate::cross_air_logup;
use crate::cross_air_logup::CrossAirLogUpDescriptor;
use crate::expr;
use crate::expr::Expr;
use crate::field;
use crate::field::{CurveType, Scalar};
use crate::label;
use crate::lookup;
use crate::lookup::LookupRequirements;
use crate::modular;
use crate::poly_arith;
use crate::proposer_slashing_air;
use crate::soundness;
use crate::trace;
use crate::trace::{trace_from_rows, TracePolynomials};
use crate::validator_balances_air;
use vstd::prelude::*;

verus! {

pub const GWEI_PER_ETH: u64 = 1_000_000_000;

pub const EFFECTIVE_BALANCE_INCREMENT: u64 = 1_000_000_000;

pub const HYSTERESIS_QUARTER_ETH: u64 = 250_000_000;

pub const MAX_EFFECTIVE_BALANCE: u64 = 32_000_000_000;

pub const MAX_EFFECTIVE_BALANCE_ELECTRA: u64 = 2_048_000_000_000;

/// A balance more than this above the effective balance moves it up.
pub const HYSTERESIS_UP_THRESHOLD: u64 = 1_250_000_000;

/// A balance more than this below the effective balance moves it down.
pub const HYSTERESIS_DOWN_THRESHOLD: u64 = 250_000_000;

pub const U64_BYTES: usize = 8;

pub const COL_VALIDATOR_INDEX: usize = 0;

pub const COL_VI_BYTE_OFFSET: usize = 1;

pub const COL_BALANCE_PRE: usize = 9;

pub const COL_BALANCE_PRE_BYTE_OFFSET: usize = 10;

pub const COL_BALANCE_POST: usize = 18;

pub const COL_BALANCE_POST_BYTE_OFFSET: usize = 19;

pub const COL_EFFECTIVE_BALANCE_PRE: usize = 27;

pub const COL_EB_PRE_BYTE_OFFSET: usize = 28;

pub const COL_EFFECTIVE_BALANCE_POST: usize = 36;

pub const COL_EB_POST_BYTE_OFFSET: usize = 37;

pub const COL_REWARDS: usize = 45;

pub const COL_REWARDS_BYTE_OFFSET: usize = 46;

pub const COL_SLASHING_PENALTY: usize = 54;

pub const COL_SLASHING_PENALTY_BYTE_OFFSET: usize = 55;

pub const COL_EB_STEP_COUNT: usize = 63;

pub const COL_EB_STEP_COUNT_BYTE_OFFSET: usize = 64;

pub const COL_CAP_SLACK: usize = 72;

pub const COL_CAP_SLACK_BYTE_OFFSET: usize = 73;

pub const COL_DELTA_UP: usize = 81;

pub const COL_DELTA_DOWN: usize = 82;

pub const COL_DELTA_ZERO: usize = 83;

/// On a step up, `balance - effective balance before - 1.25 ETH`.
pub const COL_SLACK_UP: usize = 84;

pub const COL_SLACK_UP_BYTE_OFFSET: usize = 85;

/// On a step down, `effective balance before - balance - 0.25 ETH`.
pub const COL_SLACK_DOWN: usize = 93;

pub const COL_SLACK_DOWN_BYTE_OFFSET: usize = 94;

pub const COL_IS_ACTIVE: usize = 102;

pub const COL_IS_COMPOUNDING: usize = 103;

pub const COL_IS_REAL: usize = 104;

pub const NUM_COLUMNS: usize = 105;

pub const NUM_ROW_CONSTRAINTS: usize = 19;

pub const NUM_SHIFTED: usize = 0;

#[derive(Clone, Copy, Debug)]
pub struct EpochProcessingRow {
    pub validator_index: u64,
    pub balance_pre: u64,
    pub balance_post: u64,
    pub effective_balance_pre: u64,
    pub effective_balance_post: u64,
    pub slashing_penalty: u64,
    pub rewards: u64,
    pub is_active: bool,
    pub is_compounding: bool,
    pub is_real: bool,
}

#[derive(Clone, Debug, Default)]
pub struct EpochProcessingWitness {
    pub rows: Vec<EpochProcessingRow>,
}

impl EpochProcessingWitness {
    pub fn from_rows(rows: Vec<EpochProcessingRow>) -> (r: Self)
        ensures
            r.rows == rows,
    {
        Self { rows }
    }
}

/// The largest effective balance.
pub open spec fn cap(is_compounding: bool) -> int {
    if is_compounding {
        MAX_EFFECTIVE_BALANCE_ELECTRA as int
    } else {
        MAX_EFFECTIVE_BALANCE as int
    }
}

pub open spec fn at_most(x: int, bound: int) -> int {
    if x < bound {
        x
    } else {
        bound
    }
}

/// The effective balance after an epoch and the direction of its step.
///
/// A balance far enough above moves it up by one increment unless that
/// exceeds the cap; one far enough below moves it down by one increment, at
/// most to zero; in every other case it stays. It never exceeds the cap.
pub open spec fn hysteresis(balance: int, effective: int, is_compounding: bool) -> (int, int) {
    let top = cap(is_compounding);
    if balance > effective + HYSTERESIS_UP_THRESHOLD {
        if effective + EFFECTIVE_BALANCE_INCREMENT <= top {
            (effective + EFFECTIVE_BALANCE_INCREMENT, 1)
        } else {
            (at_most(effective, top), 0)
        }
    } else if balance + HYSTERESIS_DOWN_THRESHOLD < effective {
        if effective < EFFECTIVE_BALANCE_INCREMENT {
            (0, -1)
        } else {
            (at_most(effective - EFFECTIVE_BALANCE_INCREMENT, top), -1)
        }
    } else {
        (at_most(effective, top), 0)
    }
}

fn cap_of(is_compounding: bool) -> (r: u64)
    ensures
        r == cap(is_compounding),
{
    if is_compounding {
        MAX_EFFECTIVE_BALANCE_ELECTRA
    } else {
        MAX_EFFECTIVE_BALANCE
    }
}

fn smaller(x: u64, y: u64) -> (r: u64)
    ensures
        r == at_most(x as int, y as int),
{
    if x < y {
        x
    } else {
        y
    }
}

/// One step of the effective balance, and its direction: 1, -1 or 0.
pub fn apply_hysteresis_step(
    balance_post: u64,
    effective_pre: u64,
    is_compounding: bool,
) -> (r: (u64, i32))
    ensures
        (r.0 as int, r.1 as int) == hysteresis(
            balance_post as int,
            effective_pre as int,
            is_compounding,
        ),
{
    let top: u64 = cap_of(is_compounding);
    let balance: u128 = balance_post as u128;
    let effective: u128 = effective_pre as u128;
    if balance > effective + HYSTERESIS_UP_THRESHOLD as u128 {
        if effective + EFFECTIVE_BALANCE_INCREMENT as u128 <= top as u128 {
            return (effective_pre + EFFECTIVE_BALANCE_INCREMENT, 1);
        }
        return (smaller(effective_pre, top), 0);
    }
    if balance + (HYSTERESIS_DOWN_THRESHOLD as u128) < effective {
        let stepped: u64 = if effective_pre < EFFECTIVE_BALANCE_INCREMENT {
            0
        } else {
            effective_pre - EFFECTIVE_BALANCE_INCREMENT
        };
        return (smaller(stepped, top), -1);
    }
    (smaller(effective_pre, top), 0)
}

/// What an epoch does to a validator: the balance changes by rewards and
/// penalty, and the effective balance is a multiple of the increment, within
/// the cap, and one hysteresis step away.
pub open spec fn consistent_epoch(
    balance_pre: int,
    balance_post: int,
    effective_balance_pre: int,
    effective_balance_post: int,
    slashing_penalty: int,
    rewards: int,
    is_compounding: bool,
) -> bool {
    &&& balance_pre + rewards <= u64::MAX
    &&& balance_post == balance_pre + rewards - slashing_penalty
    &&& effective_balance_post % (EFFECTIVE_BALANCE_INCREMENT as int) == 0
    &&& effective_balance_post <= cap(is_compounding)
    &&& effective_balance_post == hysteresis(
        balance_post,
        effective_balance_pre,
        is_compounding,
    ).0
}

impl EpochProcessingRow {
    /// The row describes what an epoch does to a validator.
    pub open spec fn consistent(&self) -> bool {
        consistent_epoch(
            self.balance_pre as int,
            self.balance_post as int,
            self.effective_balance_pre as int,
            self.effective_balance_post as int,
            self.slashing_penalty as int,
            self.rewards as int,
            self.is_compounding,
        )
    }

    /// The direction of the hysteresis step.
    pub open spec fn direction(&self) -> int {
        hysteresis(
            self.balance_post as int,
            self.effective_balance_pre as int,
            self.is_compounding,
        ).1
    }

    /// The effective balance moves by exactly one increment in the direction
    /// of the step: neither the cap nor zero cuts it short.
    pub open spec fn steps_exactly(&self) -> bool {
        self.effective_balance_post == self.effective_balance_pre + self.direction()
            * EFFECTIVE_BALANCE_INCREMENT
    }
}

/// The row of one validator in one epoch.
pub fn from_validator_epoch(
    validator_index: u64,
    balance_pre: u64,
    balance_post: u64,
    effective_balance_pre: u64,
    effective_balance_post: u64,
    slashing_penalty: u64,
    rewards: u64,
    is_active: bool,
    is_compounding: bool,
) -> (r: EpochProcessingWitness)
    requires
        consistent_epoch(
            balance_pre as int,
            balance_post as int,
            effective_balance_pre as int,
            effective_balance_post as int,
            slashing_penalty as int,
            rewards as int,
            is_compounding,
        ),
    ensures
        r.rows@ == seq![
            EpochProcessingRow {
                validator_index,
                balance_pre,
                balance_post,
                effective_balance_pre,
                effective_balance_post,
                slashing_penalty,
                rewards,
                is_active,
                is_compounding,
                is_real: true,
            },
        ],
        r.rows@[0].consistent(),
{
    let mut rows: Vec<EpochProcessingRow> = Vec::with_capacity(1);
    rows.push(
        EpochProcessingRow {
            validator_index,
            balance_pre,
            balance_post,
            effective_balance_pre,
            effective_balance_post,
            slashing_penalty,
            rewards,
            is_active,
            is_compounding,
            is_real: true,
        },
    );
    EpochProcessingWitness { rows }
}

/// From an effective balance within the cap, and from at least one increment
/// where the step goes down, the step is exact.
pub proof fn law_step_is_exact(row: EpochProcessingRow)
    requires
        row.consistent(),
        row.effective_balance_pre <= cap(row.is_compounding),
        row.direction() == -1 ==> row.effective_balance_pre >= EFFECTIVE_BALANCE_INCREMENT,
    ensures
        row.steps_exactly(),
{
}

/// A step keeps an effective balance within the cap and a multiple of the
/// increment, and moves it by at most one increment.
pub proof fn law_hysteresis_keeps_validity(balance: int, effective: int, is_compounding: bool)
    requires
        balance >= 0,
        0 <= effective <= cap(is_compounding),
        effective % (EFFECTIVE_BALANCE_INCREMENT as int) == 0,
    ensures
        ({
            let (e, d) = hysteresis(balance, effective, is_compounding);
            &&& 0 <= e <= cap(is_compounding)
            &&& e % (EFFECTIVE_BALANCE_INCREMENT as int) == 0
            &&& e == effective + d * EFFECTIVE_BALANCE_INCREMENT
        }),
{
}

/// Within the band around the effective balance nothing moves.
pub proof fn law_hysteresis_band(balance: int, effective: int, is_compounding: bool)
    requires
        0 <= effective <= cap(is_compounding),
        effective - HYSTERESIS_DOWN_THRESHOLD <= balance <= effective + HYSTERESIS_UP_THRESHOLD,
    ensures
        hysteresis(balance, effective, is_compounding) == (effective, 0int),
{
}

// ─── Trace ────────────────────────────────────────────────────────────

/// The numbers of a row that stand in the trace together with their bytes.
pub open spec fn number(row: EpochProcessingRow, g: int) -> int {
    if g == 0 {
        row.validator_index as int
    } else if g == 1 {
        row.balance_pre as int
    } else if g == 2 {
        row.balance_post as int
    } else if g == 3 {
        row.effective_balance_pre as int
    } else if g == 4 {
        row.effective_balance_post as int
    } else if g == 5 {
        row.rewards as int
    } else if g == 6 {
        row.slashing_penalty as int
    } else if g == 7 {
        row.effective_balance_post as int / EFFECTIVE_BALANCE_INCREMENT as int
    } else if g == 8 {
        cap(row.is_compounding) - row.effective_balance_post
    } else if g == 9 {
        if row.direction() == 1 {
            row.balance_post - row.effective_balance_pre - HYSTERESIS_UP_THRESHOLD
        } else {
            0
        }
    } else {
        if row.direction() == -1 {
            row.effective_balance_pre - row.balance_post - HYSTERESIS_DOWN_THRESHOLD
        } else {
            0
        }
    }
}

/// A number in the first column of its group, its bytes in the next eight.
pub open spec fn group_cell(x: int, k: int) -> int {
    if k == 0 {
        x
    } else {
        bytes::le_byte(x, k - 1)
    }
}

pub open spec fn bit(b: bool) -> int {
    if b {
        1
    } else {
        0
    }
}

/// The cell of a row in column `c`.
pub open spec fn row_cell(row: EpochProcessingRow, c: int) -> int {
    if c < COL_DELTA_UP {
        group_cell(number(row, c / 9), c % 9)
    } else if c == COL_DELTA_UP {
        bit(row.direction() == 1)
    } else if c == COL_DELTA_DOWN {
        bit(row.direction() == -1)
    } else if c == COL_DELTA_ZERO {
        bit(row.direction() == 0)
    } else if c < COL_SLACK_DOWN {
        group_cell(number(row, 9), c - COL_SLACK_UP)
    } else if c < COL_IS_ACTIVE {
        group_cell(number(row, 10), c - COL_SLACK_DOWN)
    } else if c == COL_IS_ACTIVE {
        bit(row.is_active)
    } else if c == COL_IS_COMPOUNDING {
        bit(row.is_compounding)
    } else {
        bit(row.is_real)
    }
}

/// The cells of a witness.
pub open spec fn cells(rows: Seq<EpochProcessingRow>) -> spec_fn(int, int) -> int {
    |c: int, r: int| row_cell(rows[r], c)
}

fn numbers(row: &EpochProcessingRow, direction: i32) -> (r: [u64; 11])
    requires
        row.effective_balance_post <= cap(row.is_compounding),
        direction == row.direction(),
    ensures
        forall|g: int| 0 <= g < 11 ==> r@[g] == number(*row, g),
{
    let slack_up: u64 = if direction == 1 {
        row.balance_post - row.effective_balance_pre - HYSTERESIS_UP_THRESHOLD
    } else {
        0
    };
    let slack_down: u64 = if direction == -1 {
        row.effective_balance_pre - row.balance_post - HYSTERESIS_DOWN_THRESHOLD
    } else {
        0
    };
    let r: [u64; 11] = [
        row.validator_index,
        row.balance_pre,
        row.balance_post,
        row.effective_balance_pre,
        row.effective_balance_post,
        row.rewards,
        row.slashing_penalty,
        row.effective_balance_post / EFFECTIVE_BALANCE_INCREMENT,
        cap_of(row.is_compounding) - row.effective_balance_post,
        slack_up,
        slack_down,
    ];
    assert forall|g: int| 0 <= g < 11 implies r@[g] == number(*row, g) by {
        assert(g == 0 || g == 1 || g == 2 || g == 3 || g == 4 || g == 5 || g == 6 || g == 7 || g
            == 8 || g == 9 || g == 10);
    }
    r
}

fn group_value(x: u64, k: usize) -> (r: u64)
    requires
        k < 9,
    ensures
        r == group_cell(x as int, k as int),
{
    if k == 0 {
        x
    } else {
        let le: [u8; 8] = bytes::u64_to_le(x);
        le[k - 1] as u64
    }
}

fn bit_value(b: bool) -> (r: u64)
    ensures
        r == bit(b),
{
    if b {
        1
    } else {
        0
    }
}

fn row_scalars(row: &EpochProcessingRow, curve: CurveType) -> (v: Vec<Scalar>)
    requires
        row.effective_balance_post <= cap(row.is_compounding),
    ensures
        v.len() == NUM_COLUMNS,
        forall|c: int|
            0 <= c < NUM_COLUMNS ==> (#[trigger] v@[c]).curve() == curve && v@[c]@ == row_cell(
                *row,
                c,
            ),
{
    let (_expected, direction): (u64, i32) = apply_hysteresis_step(
        row.balance_post,
        row.effective_balance_pre,
        row.is_compounding,
    );
    let ns: [u64; 11] = numbers(row, direction);
    let mut v: Vec<Scalar> = Vec::with_capacity(NUM_COLUMNS);
    let mut c: usize = 0;
    while c < NUM_COLUMNS
        invariant
            c <= NUM_COLUMNS,
            v.len() == c,
            direction == row.direction(),
            forall|g: int| 0 <= g < 11 ==> ns@[g] == number(*row, g),
            forall|k: int|
                0 <= k < c ==> (#[trigger] v@[k]).curve() == curve && v@[k]@ == row_cell(*row, k),
        decreases NUM_COLUMNS - c,
    {
        let x: u64 = if c < COL_DELTA_UP {
            group_value(ns[c / 9], c % 9)
        } else if c == COL_DELTA_UP {
            bit_value(direction == 1)
        } else if c == COL_DELTA_DOWN {
            bit_value(direction == -1)
        } else if c == COL_DELTA_ZERO {
            bit_value(direction == 0)
        } else if c < COL_SLACK_DOWN {
            group_value(ns[9], c - COL_SLACK_UP)
        } else if c < COL_IS_ACTIVE {
            group_value(ns[10], c - COL_SLACK_DOWN)
        } else if c == COL_IS_ACTIVE {
            bit_value(row.is_active)
        } else if c == COL_IS_COMPOUNDING {
            bit_value(row.is_compounding)
        } else {
            bit_value(row.is_real)
        };
        v.push(Scalar::from_u64(x, curve));
        c = c + 1;
    }
    v
}

/// The trace of a witness whose effective balances lie within the cap.
pub fn build_trace_polynomials(witness: &EpochProcessingWitness, curve: CurveType) -> (t:
    TracePolynomials)
    requires
        trace::paddable(witness.rows.len() as nat),
        forall|i: int|
            0 <= i < witness.rows.len() ==> (#[trigger] witness.rows@[i]).effective_balance_post
                <= cap(witness.rows@[i].is_compounding),
    ensures
        trace::holds(
            t,
            NUM_COLUMNS as nat,
            witness.rows.len() as nat,
            curve,
            cells(witness.rows@),
        ),
{
    let n: usize = witness.rows.len();
    let mut rows: Vec<Vec<Scalar>> = Vec::with_capacity(n);
    let ghost cell = cells(witness.rows@);
    let mut i: usize = 0;
    while i < n
        invariant
            i <= n,
            n == witness.rows.len(),
            forall|k: int|
                0 <= k < witness.rows.len() ==> (
                #[trigger] witness.rows@[k]).effective_balance_post <= cap(
                    witness.rows@[k].is_compounding,
                ),
            cell == cells(witness.rows@),
            rows.len() == i,
            trace::rows_hold(rows@, NUM_COLUMNS as nat, curve, cell),
        decreases n - i,
    {
        let ghost before = rows@;
        rows.push(row_scalars(&witness.rows[i], curve));
        assert(forall|k: int| 0 <= k < i ==> rows@[k] == before[k]);
        i = i + 1;
    }
    trace_from_rows(&rows, NUM_COLUMNS, curve, Ghost(cell))
}

// ─── Constraints ──────────────────────────────────────────────────────

/// The expression counts on real rows.
pub open spec fn gated_of(e: Expr) -> Expr {
    constraints::mul_of(Expr::Col(COL_IS_REAL), e)
}

fn gated(e: Expr) -> (r: Expr)
    ensures
        r == gated_of(e),
{
    times(Expr::Col(COL_IS_REAL), e)
}

/// A number equals its bytes.
pub open spec fn decomposition_of(number: usize, first_byte: usize) -> Expr {
    constraints::sub_of(Expr::Col(number), constraints::weighted_of(first_byte, 256, 8))
}

fn decomposition(number: usize, first_byte: usize) -> (r: Expr)
    requires
        first_byte + 8 <= usize::MAX,
    ensures
        r == decomposition_of(number, first_byte),
{
    minus(Expr::Col(number), le_bytes_expr(first_byte, 8))
}

/// `pre + rewards - penalty - post`.
pub open spec fn balance_update_of() -> Expr {
    constraints::sub_of(
        constraints::sub_of(
            constraints::add_of(Expr::Col(COL_BALANCE_PRE), Expr::Col(COL_REWARDS)),
            Expr::Col(COL_SLASHING_PENALTY),
        ),
        Expr::Col(COL_BALANCE_POST),
    )
}

/// `cap - effective balance - slack` for one cap.
pub open spec fn cap_residual_of(cap: u64) -> Expr {
    constraints::sub_of(
        constraints::sub_of(Expr::Const(cap), Expr::Col(COL_EFFECTIVE_BALANCE_POST)),
        Expr::Col(COL_CAP_SLACK),
    )
}

fn cap_residual(cap: u64) -> (r: Expr)
    ensures
        r == cap_residual_of(cap),
{
    minus(
        minus(Expr::Const(cap), Expr::Col(COL_EFFECTIVE_BALANCE_POST)),
        Expr::Col(COL_CAP_SLACK),
    )
}

/// The residual of the cap that applies.
pub open spec fn cap_of_kind() -> Expr {
    constraints::add_of(
        constraints::mul_of(
            Expr::Col(COL_IS_COMPOUNDING),
            cap_residual_of(MAX_EFFECTIVE_BALANCE_ELECTRA),
        ),
        constraints::mul_of(
            constraints::sub_of(Expr::Const(1), Expr::Col(COL_IS_COMPOUNDING)),
            cap_residual_of(MAX_EFFECTIVE_BALANCE),
        ),
    )
}

/// `up + down + zero - 1`.
pub open spec fn one_direction_of() -> Expr {
    constraints::sub_of(
        constraints::add_of(
            constraints::add_of(Expr::Col(COL_DELTA_UP), Expr::Col(COL_DELTA_DOWN)),
            Expr::Col(COL_DELTA_ZERO),
        ),
        Expr::Const(1),
    )
}

/// `balance - effective - threshold - slack`.
pub open spec fn up_residual_of() -> Expr {
    constraints::sub_of(
        constraints::sub_of(
            constraints::diff_of(COL_BALANCE_POST, COL_EFFECTIVE_BALANCE_PRE),
            Expr::Const(HYSTERESIS_UP_THRESHOLD),
        ),
        Expr::Col(COL_SLACK_UP),
    )
}

/// `effective - balance - threshold - slack`.
pub open spec fn down_residual_of() -> Expr {
    constraints::sub_of(
        constraints::sub_of(
            constraints::diff_of(COL_EFFECTIVE_BALANCE_PRE, COL_BALANCE_POST),
            Expr::Const(HYSTERESIS_DOWN_THRESHOLD),
        ),
        Expr::Col(COL_SLACK_DOWN),
    )
}

/// `after - before - (up - down) * increment`.
pub open spec fn step_residual_of() -> Expr {
    constraints::sub_of(
        constraints::diff_of(COL_EFFECTIVE_BALANCE_POST, COL_EFFECTIVE_BALANCE_PRE),
        constraints::mul_of(
            constraints::diff_of(COL_DELTA_UP, COL_DELTA_DOWN),
            Expr::Const(EFFECTIVE_BALANCE_INCREMENT),
        ),
    )
}

/// The constraints on a row.
pub open spec fn row_constraints() -> Seq<Expr> {
    seq![
        constraints::binary_of(COL_IS_REAL),
        constraints::binary_of(COL_IS_ACTIVE),
        constraints::binary_of(COL_IS_COMPOUNDING),
        gated_of(balance_update_of()),
        gated_of(
            constraints::sub_of(
                constraints::mul_of(
                    Expr::Col(COL_EB_STEP_COUNT),
                    Expr::Const(EFFECTIVE_BALANCE_INCREMENT),
                ),
                Expr::Col(COL_EFFECTIVE_BALANCE_POST),
            ),
        ),
        gated_of(cap_of_kind()),
        decomposition_of(COL_VALIDATOR_INDEX, COL_VI_BYTE_OFFSET),
        gated_of(decomposition_of(COL_BALANCE_PRE, COL_BALANCE_PRE_BYTE_OFFSET)),
        gated_of(decomposition_of(COL_BALANCE_POST, COL_BALANCE_POST_BYTE_OFFSET)),
        gated_of(decomposition_of(COL_EFFECTIVE_BALANCE_PRE, COL_EB_PRE_BYTE_OFFSET)),
        gated_of(decomposition_of(COL_EFFECTIVE_BALANCE_POST, COL_EB_POST_BYTE_OFFSET)),
        gated_of(decomposition_of(COL_REWARDS, COL_REWARDS_BYTE_OFFSET)),
        gated_of(decomposition_of(COL_SLASHING_PENALTY, COL_SLASHING_PENALTY_BYTE_OFFSET)),
        constraints::binary_of(COL_DELTA_UP),
        constraints::binary_of(COL_DELTA_DOWN),
        gated_of(one_direction_of()),
        gated_of(constraints::mul_of(Expr::Col(COL_DELTA_UP), up_residual_of())),
        gated_of(constraints::mul_of(Expr::Col(COL_DELTA_DOWN), down_residual_of())),
        gated_of(step_residual_of()),
    ]
}

fn constraint_list() -> (r: Vec<Expr>)
    ensures
        r@ == row_constraints(),
        constraints::well_formed(r@, NUM_COLUMNS as nat, 0),
{
    let mut r: Vec<Expr> = Vec::with_capacity(NUM_ROW_CONSTRAINTS);
    r.push(binary(COL_IS_REAL));
    r.push(binary(COL_IS_ACTIVE));
    r.push(binary(COL_IS_COMPOUNDING));
    r.push(
        gated(
            minus(
                minus(
                    plus(Expr::Col(COL_BALANCE_PRE), Expr::Col(COL_REWARDS)),
                    Expr::Col(COL_SLASHING_PENALTY),
                ),
                Expr::Col(COL_BALANCE_POST),
            ),
        ),
    );
    r.push(
        gated(
            minus(
                times(Expr::Col(COL_EB_STEP_COUNT), Expr::Const(EFFECTIVE_BALANCE_INCREMENT)),
                Expr::Col(COL_EFFECTIVE_BALANCE_POST),
            ),
        ),
    );
    r.push(
        gated(
            plus(
                times(Expr::Col(COL_IS_COMPOUNDING), cap_residual(MAX_EFFECTIVE_BALANCE_ELECTRA)),
                times(
                    minus(Expr::Const(1), Expr::Col(COL_IS_COMPOUNDING)),
                    cap_residual(MAX_EFFECTIVE_BALANCE),
                ),
            ),
        ),
    );
    r.push(decomposition(COL_VALIDATOR_INDEX, COL_VI_BYTE_OFFSET));
    r.push(gated(decomposition(COL_BALANCE_PRE, COL_BALANCE_PRE_BYTE_OFFSET)));
    r.push(gated(decomposition(COL_BALANCE_POST, COL_BALANCE_POST_BYTE_OFFSET)));
    r.push(gated(decomposition(COL_EFFECTIVE_BALANCE_PRE, COL_EB_PRE_BYTE_OFFSET)));
    r.push(gated(decomposition(COL_EFFECTIVE_BALANCE_POST, COL_EB_POST_BYTE_OFFSET)));
    r.push(gated(decomposition(COL_REWARDS, COL_REWARDS_BYTE_OFFSET)));
    r.push(gated(decomposition(COL_SLASHING_PENALTY, COL_SLASHING_PENALTY_BYTE_OFFSET)));
    r.push(binary(COL_DELTA_UP));
    r.push(binary(COL_DELTA_DOWN));
    r.push(
        gated(
            minus(
                plus(
                    plus(Expr::Col(COL_DELTA_UP), Expr::Col(COL_DELTA_DOWN)),
                    Expr::Col(COL_DELTA_ZERO),
                ),
                Expr::Const(1),
            ),
        ),
    );
    r.push(
        gated(
            times(
                Expr::Col(COL_DELTA_UP),
                minus(
                    minus(
                        diff(COL_BALANCE_POST, COL_EFFECTIVE_BALANCE_PRE),
                        Expr::Const(HYSTERESIS_UP_THRESHOLD),
                    ),
                    Expr::Col(COL_SLACK_UP),
                ),
            ),
        ),
    );
    r.push(
        gated(
            times(
                Expr::Col(COL_DELTA_DOWN),
                minus(
                    minus(
                        diff(COL_EFFECTIVE_BALANCE_PRE, COL_BALANCE_POST),
                        Expr::Const(HYSTERESIS_DOWN_THRESHOLD),
                    ),
                    Expr::Col(COL_SLACK_DOWN),
                ),
            ),
        ),
    );
    r.push(
        gated(
            minus(
                diff(COL_EFFECTIVE_BALANCE_POST, COL_EFFECTIVE_BALANCE_PRE),
                times(
                    diff(COL_DELTA_UP, COL_DELTA_DOWN),
                    Expr::Const(EFFECTIVE_BALANCE_INCREMENT),
                ),
            ),
        ),
    );
    assert(r@ =~= row_constraints());
    proof {
        lemma_well_formed();
    }
    r
}

/// The systems of a number in column `c` and its bytes after it.
proof fn lemma_fits_decomposition(c: usize)
    requires
        c + 9 <= NUM_COLUMNS,
    ensures
        constraints::fits(decomposition_of(c, (c + 1) as usize), NUM_COLUMNS as nat, 0, 1),
{
    constraints::lemma_fits_weighted((c + 1) as usize, 256, 8, NUM_COLUMNS as nat, 0);
    reveal_with_fuel(expr::within, 2);
    reveal_with_fuel(expr::degree, 2);
}

#[verifier::rlimit(50)]
proof fn lemma_well_formed()
    ensures
        constraints::well_formed(row_constraints(), NUM_COLUMNS as nat, 0),
{
    let n = NUM_COLUMNS as nat;
    lemma_fits_decomposition(COL_VALIDATOR_INDEX);
    lemma_fits_decomposition(COL_BALANCE_PRE);
    lemma_fits_decomposition(COL_BALANCE_POST);
    lemma_fits_decomposition(COL_EFFECTIVE_BALANCE_PRE);
    lemma_fits_decomposition(COL_EFFECTIVE_BALANCE_POST);
    lemma_fits_decomposition(COL_REWARDS);
    lemma_fits_decomposition(COL_SLASHING_PENALTY);
    assert(constraints::fits(balance_update_of(), n, 0, 1) && constraints::fits(
        cap_of_kind(),
        n,
        0,
        2,
    ) && constraints::fits(one_direction_of(), n, 0, 1) && constraints::fits(
        up_residual_of(),
        n,
        0,
        1,
    ) && constraints::fits(down_residual_of(), n, 0, 1) && constraints::fits(
        step_residual_of(),
        n,
        0,
        1,
    )) by {
        reveal_with_fuel(expr::within, 6);
        reveal_with_fuel(expr::degree, 6);
    }
    let es = row_constraints();
    assert forall|i: int| 0 <= i < es.len() implies {
        &&& expr::within(#[trigger] es[i], n, 0)
        &&& expr::compound(es[i])
        &&& expr::degree(es[i]) <= 3
    } by {
        reveal_with_fuel(expr::within, 4);
        reveal_with_fuel(expr::degree, 4);
        assert(i == 0 || i == 1 || i == 2 || i == 3 || i == 4 || i == 5 || i == 6 || i == 7 || i
            == 8 || i == 9 || i == 10 || i == 11 || i == 12 || i == 13 || i == 14 || i == 15 || i
            == 16 || i == 17 || i == 18);
    }
}

/// On a row that holds a number and its bytes, or nothing, the decomposition
/// vanishes.
proof fn lemma_decomposition_vanishes(row: Seq<int>, c: usize, x: u64, ch: int)
    requires
        c + 9 <= NUM_COLUMNS,
        forall|k: int| 0 <= k < 9 ==> row[#[trigger] (c + k)] == group_cell(x as int, k),
    ensures
        expr::ev(decomposition_of(c, (c + 1) as usize), row, Seq::empty(), ch) == 0,
{
    let first = (c + 1) as usize;
    assert forall|k: int| 0 <= k < 8 implies row[#[trigger] (first + k)] == bytes::le_byte(
        x as int,
        k,
    ) by {
        assert(row[c + (k + 1)] == group_cell(x as int, k + 1));
    }
    constraints::lemma_le_bytes_sum(row, first as int, x, 8);
    bytes::lemma_le_byte_sum_u64(x);
    constraints::lemma_ev_weighted(first, 256, 8, row, Seq::empty(), ch);
    assert(row[c + 0] == x);
    reveal_with_fuel(expr::ev, 2);
}

/// The numbers of a row, with a value that fits in a column of bytes.
pub open spec fn number_u64(row: EpochProcessingRow, g: int) -> u64 {
    number(row, g) as u64
}

/// The columns of a trace of this width can be read by the constraints.
pub proof fn law_trace_readable(
    t: TracePolynomials,
    columns: Seq<&Vec<Scalar>>,
    rows: nat,
    curve: CurveType,
    cell: spec_fn(int, int) -> int,
)
    requires
        trace::holds(t, NUM_COLUMNS as nat, rows, curve, cell),
        trace::columns_of(t, columns),
    ensures
        columns.len() >= NUM_COLUMNS,
        constraints::domain_readable(row_constraints(), columns),
{
    lemma_well_formed();
    constraints::lemma_trace_readable(
        row_constraints(),
        t,
        columns,
        NUM_COLUMNS as nat,
        rows,
        curve,
        cell,
    );
}

/// Every constraint vanishes on every row of the trace of a witness whose
/// real rows are consistent and step exactly, padding included.
pub proof fn law_honest_trace_vanishes(
    w: EpochProcessingWitness,
    t: TracePolynomials,
    columns: Seq<&Vec<Scalar>>,
    curve: CurveType,
    r: int,
    i: int,
    ch: int,
)
    requires
        trace::holds(t, NUM_COLUMNS as nat, w.rows.len() as nat, curve, cells(w.rows@)),
        trace::columns_of(t, columns),
        forall|k: int|
            0 <= k < w.rows.len() && (#[trigger] w.rows@[k]).is_real ==> w.rows@[k].consistent()
                && w.rows@[k].steps_exactly(),
        0 <= r < trace::padded_length(w.rows.len() as nat),
        0 <= i < NUM_ROW_CONSTRAINTS,
    ensures
        expr::ev(row_constraints()[i], expr::row_values(columns, r), Seq::empty(), ch) == 0,
{
    let n = w.rows.len() as nat;
    let cell = cells(w.rows@);
    trace::lemma_trace_rows(t, columns, NUM_COLUMNS as nat, n, curve, cell, r);
    let row = trace::row_of(NUM_COLUMNS as nat, n, cell, r);
    if r < n {
        let o = w.rows@[r];
        assert(o.is_real ==> o.consistent() && o.steps_exactly());
        lemma_row_groups(row, o);
        lemma_real_row_vanishes(row, o, i, ch);
    } else {
        lemma_padding_vanishes(row, i, ch);
    }
}

/// The first seven groups of a row hold a number and its bytes.
proof fn lemma_row_groups(row: Seq<int>, o: EpochProcessingRow)
    requires
        row.len() == NUM_COLUMNS,
        forall|c: int| 0 <= c < NUM_COLUMNS ==> #[trigger] row[c] == row_cell(o, c),
    ensures
        forall|g: int, k: int|
            0 <= g < 7 && 0 <= k < 9 ==> #[trigger] row[9 * g + k] == group_cell(number(o, g), k),
{
    assert forall|g: int, k: int| 0 <= g < 7 && 0 <= k < 9 implies #[trigger] row[9 * g + k]
        == group_cell(number(o, g), k) by {
        let c = 9 * g + k;
        assert(c / 9 == g && c % 9 == k);
        assert(row[c] == row_cell(o, c));
    }
}

proof fn lemma_group_vanishes(row: Seq<int>, o: EpochProcessingRow, g: int, ch: int)
    requires
        row.len() == NUM_COLUMNS,
        0 <= g < 7,
        forall|c: int| 0 <= c < NUM_COLUMNS ==> #[trigger] row[c] == row_cell(o, c),
    ensures
        expr::ev(
            decomposition_of((9 * g) as usize, (9 * g + 1) as usize),
            row,
            Seq::empty(),
            ch,
        ) == 0,
{
    lemma_row_groups(row, o);
    let c = (9 * g) as usize;
    assert forall|k: int| 0 <= k < 9 implies row[#[trigger] (c + k)] == group_cell(
        number_u64(o, g) as int,
        k,
    ) by {
        assert(row[9 * g + k] == group_cell(number(o, g), k));
    }
    lemma_decomposition_vanishes(row, c, number_u64(o, g), ch);
}

/// What the selector of real rows is multiplied with.
spec fn gated_body(i: int) -> Expr {
    match row_constraints()[i] {
        Expr::Mul(_, body) => *body,
        _ => Expr::Const(0),
    }
}

proof fn lemma_gated(row: Seq<int>, i: int, ch: int)
    requires
        i == 3 || i == 4 || i == 5 || 7 <= i <= 12 || 15 <= i <= 18,
    ensures
        row_constraints()[i] == gated_of(gated_body(i)),
        expr::ev(row_constraints()[i], row, Seq::empty(), ch) == row[COL_IS_REAL as int] * expr::ev(
            gated_body(i),
            row,
            Seq::empty(),
            ch,
        ),
        row[COL_IS_REAL as int] == 0 || expr::ev(gated_body(i), row, Seq::empty(), ch) == 0
            ==> expr::ev(row_constraints()[i], row, Seq::empty(), ch) == 0,
{
    assert(row_constraints()[i] == gated_of(gated_body(i))) by {
        assert(i == 3 || i == 4 || i == 5 || i == 7 || i == 8 || i == 9 || i == 10 || i == 11 || i
            == 12 || i == 15 || i == 16 || i == 17 || i == 18);
    }
    let body = gated_body(i);
    assert(expr::ev(gated_of(body), row, Seq::empty(), ch) == row[COL_IS_REAL as int] * expr::ev(
        body,
        row,
        Seq::empty(),
        ch,
    )) by {
        reveal_with_fuel(expr::ev, 2);
    }
    let g = row[COL_IS_REAL as int];
    let v = expr::ev(body, row, Seq::empty(), ch);
    assert(g == 0 || v == 0 ==> g * v == 0) by (nonlinear_arith);
}

/// What the constraints on real rows say of the numbers of such a row.
proof fn lemma_real_body_vanishes(row: Seq<int>, o: EpochProcessingRow, i: int, ch: int)
    requires
        row.len() == NUM_COLUMNS,
        forall|c: int| 0 <= c < NUM_COLUMNS ==> #[trigger] row[c] == row_cell(o, c),
        o.consistent() && o.steps_exactly(),
        i == 3 || i == 4 || i == 5 || 15 <= i <= 18,
    ensures
        expr::ev(gated_body(i), row, Seq::empty(), ch) == 0,
{
    let inc = EFFECTIVE_BALANCE_INCREMENT as int;
    assert(row[COL_BALANCE_PRE as int] == o.balance_pre);
    assert(row[COL_BALANCE_POST as int] == o.balance_post);
    assert(row[COL_EFFECTIVE_BALANCE_PRE as int] == o.effective_balance_pre);
    assert(row[COL_EFFECTIVE_BALANCE_POST as int] == o.effective_balance_post);
    assert(row[COL_REWARDS as int] == o.rewards);
    assert(row[COL_SLASHING_PENALTY as int] == o.slashing_penalty);
    assert(row[COL_EB_STEP_COUNT as int] == o.effective_balance_post as int / inc);
    assert(row[COL_CAP_SLACK as int] == cap(o.is_compounding) - o.effective_balance_post);
    assert(row[COL_SLACK_UP as int] == number(o, 9));
    assert(row[COL_SLACK_DOWN as int] == number(o, 10));
    let e = Seq::<int>::empty();
    if i == 3 {
        assert(gated_body(3) == balance_update_of());
        reveal_with_fuel(expr::ev, 4);
    } else if i == 4 {
        vstd::arithmetic::div_mod::lemma_fundamental_div_mod(o.effective_balance_post as int, inc);
        reveal_with_fuel(expr::ev, 3);
    } else if i == 5 {
        assert(gated_body(5) == cap_of_kind());
        let k = row[COL_IS_COMPOUNDING as int];
        let high = expr::ev(cap_residual_of(MAX_EFFECTIVE_BALANCE_ELECTRA), row, e, ch);
        let low = expr::ev(cap_residual_of(MAX_EFFECTIVE_BALANCE), row, e, ch);
        assert(high == MAX_EFFECTIVE_BALANCE_ELECTRA - row[COL_EFFECTIVE_BALANCE_POST as int]
            - row[COL_CAP_SLACK as int] && low == MAX_EFFECTIVE_BALANCE
            - row[COL_EFFECTIVE_BALANCE_POST as int] - row[COL_CAP_SLACK as int]) by {
            reveal_with_fuel(expr::ev, 3);
        }
        let legacy = constraints::sub_of(Expr::Const(1), Expr::Col(COL_IS_COMPOUNDING));
        assert(expr::ev(legacy, row, e, ch) == 1 - k) by {
            reveal_with_fuel(expr::ev, 2);
        }
        assert(expr::ev(Expr::Col(COL_IS_COMPOUNDING), row, e, ch) == k);
        let first = constraints::mul_of(
            Expr::Col(COL_IS_COMPOUNDING),
            cap_residual_of(MAX_EFFECTIVE_BALANCE_ELECTRA),
        );
        let second = constraints::mul_of(legacy, cap_residual_of(MAX_EFFECTIVE_BALANCE));
        assert(expr::ev(first, row, e, ch) == k * high);
        assert(expr::ev(second, row, e, ch) == (1 - k) * low);
        assert(expr::ev(cap_of_kind(), row, e, ch) == k * high + (1 - k) * low);
        assert(k * high + (1 - k) * low == 0) by (nonlinear_arith)
            requires
                (k == 1 && high == 0) || (k == 0 && low == 0),
        ;
    } else if i == 15 {
        assert(gated_body(15) == one_direction_of());
        reveal_with_fuel(expr::ev, 4);
    } else if i == 16 {
        let d = row[COL_DELTA_UP as int];
        let v = expr::ev(up_residual_of(), row, e, ch);
        assert(v == row[COL_BALANCE_POST as int] - row[COL_EFFECTIVE_BALANCE_PRE as int]
            - HYSTERESIS_UP_THRESHOLD - row[COL_SLACK_UP as int]) by {
            reveal_with_fuel(expr::ev, 5);
        }
        assert(gated_body(16) == constraints::mul_of(Expr::Col(COL_DELTA_UP), up_residual_of()));
        assert(expr::ev(gated_body(16), row, e, ch) == d * v) by {
            reveal_with_fuel(expr::ev, 2);
        }
        assert(d * v == 0) by (nonlinear_arith)
            requires
                d == 0 || v == 0,
        ;
    } else if i == 17 {
        let d = row[COL_DELTA_DOWN as int];
        let v = expr::ev(down_residual_of(), row, e, ch);
        assert(v == row[COL_EFFECTIVE_BALANCE_PRE as int] - row[COL_BALANCE_POST as int]
            - HYSTERESIS_DOWN_THRESHOLD - row[COL_SLACK_DOWN as int]) by {
            reveal_with_fuel(expr::ev, 6);
        }
        assert(gated_body(17) == constraints::mul_of(
            Expr::Col(COL_DELTA_DOWN),
            down_residual_of(),
        ));
        assert(expr::ev(gated_body(17), row, e, ch) == d * v) by {
            reveal_with_fuel(expr::ev, 2);
        }
        assert(d * v == 0) by (nonlinear_arith)
            requires
                d == 0 || v == 0,
        ;
    } else {
        assert(gated_body(18) == step_residual_of());
        reveal_with_fuel(expr::ev, 4);
    }
}

proof fn lemma_real_row_vanishes(row: Seq<int>, o: EpochProcessingRow, i: int, ch: int)
    requires
        row.len() == NUM_COLUMNS,
        forall|c: int| 0 <= c < NUM_COLUMNS ==> #[trigger] row[c] == row_cell(o, c),
        o.is_real ==> o.consistent() && o.steps_exactly(),
        0 <= i < NUM_ROW_CONSTRAINTS,
    ensures
        expr::ev(row_constraints()[i], row, Seq::empty(), ch) == 0,
{
    assert(row[COL_IS_REAL as int] == bit(o.is_real));
    assert(row[COL_IS_ACTIVE as int] == bit(o.is_active));
    assert(row[COL_IS_COMPOUNDING as int] == bit(o.is_compounding));
    assert(row[COL_DELTA_UP as int] == bit(o.direction() == 1));
    assert(row[COL_DELTA_DOWN as int] == bit(o.direction() == -1));
    if i == 6 {
        lemma_group_vanishes(row, o, 0, ch);
    } else if 7 <= i <= 12 {
        lemma_group_vanishes(row, o, i - 6, ch);
        assert(gated_body(i) == decomposition_of(
            (9 * (i - 6)) as usize,
            (9 * (i - 6) + 1) as usize,
        ));
        lemma_gated(row, i, ch);
    } else if i == 0 {
        constraints::lemma_binary_vanishes(COL_IS_REAL, row, Seq::empty(), ch);
    } else if i == 1 {
        constraints::lemma_binary_vanishes(COL_IS_ACTIVE, row, Seq::empty(), ch);
    } else if i == 2 {
        constraints::lemma_binary_vanishes(COL_IS_COMPOUNDING, row, Seq::empty(), ch);
    } else if i == 13 {
        constraints::lemma_binary_vanishes(COL_DELTA_UP, row, Seq::empty(), ch);
    } else if i == 14 {
        constraints::lemma_binary_vanishes(COL_DELTA_DOWN, row, Seq::empty(), ch);
    } else {
        if o.is_real {
            lemma_real_body_vanishes(row, o, i, ch);
        }
        lemma_gated(row, i, ch);
    }
}

proof fn lemma_padding_vanishes(row: Seq<int>, i: int, ch: int)
    requires
        row.len() == NUM_COLUMNS,
        forall|c: int| 0 <= c < NUM_COLUMNS ==> #[trigger] row[c] == 0,
        0 <= i < NUM_ROW_CONSTRAINTS,
    ensures
        expr::ev(row_constraints()[i], row, Seq::empty(), ch) == 0,
{
    assert(row[COL_IS_REAL as int] == 0);
    if i == 6 {
        bytes::lemma_pow256_values();
        assert forall|k: int| 0 <= k < 9 implies row[#[trigger] (COL_VALIDATOR_INDEX + k)]
            == group_cell(0, k) by {
            if k > 0 {
                assert(k == 1 || k == 2 || k == 3 || k == 4 || k == 5 || k == 6 || k == 7 || k
                    == 8);
            }
        }
        lemma_decomposition_vanishes(row, COL_VALIDATOR_INDEX, 0, ch);
    } else if i == 0 {
        constraints::lemma_binary_vanishes(COL_IS_REAL, row, Seq::empty(), ch);
    } else if i == 1 {
        constraints::lemma_binary_vanishes(COL_IS_ACTIVE, row, Seq::empty(), ch);
    } else if i == 2 {
        constraints::lemma_binary_vanishes(COL_IS_COMPOUNDING, row, Seq::empty(), ch);
    } else if i == 13 {
        constraints::lemma_binary_vanishes(COL_DELTA_UP, row, Seq::empty(), ch);
    } else if i == 14 {
        constraints::lemma_binary_vanishes(COL_DELTA_DOWN, row, Seq::empty(), ch);
    } else {
        lemma_gated(row, i, ch);
    }
}

pub struct EpochProcessingConstraintSystem {
    pub num_rows: usize,
    pub omega: Option<Scalar>,
    pub domain_size: Option<u64>,
}

/// The byte ranges of the trace: label, first column and length.
pub open spec fn byte_ranges() -> Seq<(Seq<char>, int, int)> {
    seq![
        ("vi_byte"@, COL_VI_BYTE_OFFSET as int, 8int),
        ("balance_pre_byte"@, COL_BALANCE_PRE_BYTE_OFFSET as int, 8int),
        ("balance_post_byte"@, COL_BALANCE_POST_BYTE_OFFSET as int, 8int),
        ("eb_pre_byte"@, COL_EB_PRE_BYTE_OFFSET as int, 8int),
        ("eb_post_byte"@, COL_EB_POST_BYTE_OFFSET as int, 8int),
        ("rewards_byte"@, COL_REWARDS_BYTE_OFFSET as int, 8int),
        ("slashing_penalty_byte"@, COL_SLASHING_PENALTY_BYTE_OFFSET as int, 8int),
        ("eb_step_count_byte"@, COL_EB_STEP_COUNT_BYTE_OFFSET as int, 8int),
        ("cap_slack_byte"@, COL_CAP_SLACK_BYTE_OFFSET as int, 8int),
        ("slack_up_byte"@, COL_SLACK_UP_BYTE_OFFSET as int, 8int),
        ("slack_down_byte"@, COL_SLACK_DOWN_BYTE_OFFSET as int, 8int),
    ]
}

impl EpochProcessingConstraintSystem {
    pub fn new(num_rows: usize) -> (r: Self)
        ensures
            r.num_rows == num_rows,
            r.omega == None::<Scalar>,
            r.domain_size == None::<u64>,
    {
        Self { num_rows, omega: None, domain_size: None }
    }

    pub fn with_omega_and_domain(self, omega: Scalar, domain_size: u64) -> (r: Self)
        ensures
            r.num_rows == self.num_rows,
            r.omega == Some(omega),
            r.domain_size == Some(domain_size),
    {
        Self { num_rows: self.num_rows, omega: Some(omega), domain_size: Some(domain_size) }
    }

    pub fn num_constraints(&self) -> (r: usize)
        ensures
            r == row_constraints().len(),
    {
        NUM_ROW_CONSTRAINTS
    }

    pub fn constraint_labels(&self) -> (r: Vec<String>)
        ensures
            r.len() == 19,
            r@[0]@ == "is_real_binary"@,
            r@[1]@ == "is_active_binary"@,
            r@[2]@ == "is_compounding_binary"@,
            r@[3]@ == "balance_update_bind"@,
            r@[4]@ == "eb_step_bind"@,
            r@[5]@ == "cap_bind"@,
            r@[6]@ == "vi_le_decomp"@,
            r@[7]@ == "balance_pre_le_decomp"@,
            r@[8]@ == "balance_post_le_decomp"@,
            r@[9]@ == "eb_pre_le_decomp"@,
            r@[10]@ == "eb_post_le_decomp"@,
            r@[11]@ == "rewards_le_decomp"@,
            r@[12]@ == "slashing_penalty_le_decomp"@,
            r@[13]@ == "delta_up_binary"@,
            r@[14]@ == "delta_down_binary"@,
            r@[15]@ == "hysteresis_direction_mutex"@,
            r@[16]@ == "hysteresis_up_bind"@,
            r@[17]@ == "hysteresis_down_bind"@,
            r@[18]@ == "hysteresis_step_bind"@,
    {
        vec![
            "is_real_binary".to_string(),
            "is_active_binary".to_string(),
            "is_compounding_binary".to_string(),
            "balance_update_bind".to_string(),
            "eb_step_bind".to_string(),
            "cap_bind".to_string(),
            "vi_le_decomp".to_string(),
            "balance_pre_le_decomp".to_string(),
            "balance_post_le_decomp".to_string(),
            "eb_pre_le_decomp".to_string(),
            "eb_post_le_decomp".to_string(),
            "rewards_le_decomp".to_string(),
            "slashing_penalty_le_decomp".to_string(),
            "delta_up_binary".to_string(),
            "delta_down_binary".to_string(),
            "hysteresis_direction_mutex".to_string(),
            "hysteresis_up_bind".to_string(),
            "hysteresis_down_bind".to_string(),
            "hysteresis_step_bind".to_string(),
        ]
    }

    /// The value of every constraint on every row.
    pub fn evaluate_on_domain(&self, columns: &[&Vec<Scalar>], _num_rows: usize) -> (r: Vec<
        Vec<Scalar>,
    >)
        requires
            columns.len() >= NUM_COLUMNS,
            constraints::domain_readable(row_constraints(), columns@),
        ensures
            constraints::domain_values(r@, row_constraints(), columns@, 0),
    {
        let es: Vec<Expr> = constraint_list();
        proof {
            constraints::lemma_well_formed_more(
                es@,
                NUM_COLUMNS as nat,
                columns.len() as nat,
                0,
            );
        }
        constraints::evaluate_on_domain(&es, columns, 0)
    }

    /// The constraints at a point, weighted by the powers of `alpha`; zero if
    /// columns are missing.
    pub fn evaluate_at_point(&self, col_evals: &[Scalar], alpha: &Scalar) -> (r: Scalar)
        requires
            col_evals.len() >= NUM_COLUMNS ==> constraints::point_readable(
                row_constraints(),
                col_evals@,
                Seq::empty(),
                alpha.curve(),
            ),
        ensures
            r.curve() == alpha.curve(),
            col_evals.len() < NUM_COLUMNS ==> r@ == 0,
            col_evals.len() >= NUM_COLUMNS ==> r@ == constraints::combined(
                row_constraints(),
                poly_arith::values(col_evals@),
                Seq::empty(),
                0,
                alpha@,
            ) % field::order(alpha.curve()),
    {
        let curve: CurveType = alpha.curve_type();
        if col_evals.len() < NUM_COLUMNS {
            return Scalar::zero(curve);
        }
        let es: Vec<Expr> = constraint_list();
        let none: Vec<Scalar> = Vec::new();
        proof {
            constraints::lemma_well_formed_more(
                es@,
                NUM_COLUMNS as nat,
                col_evals.len() as nat,
                0,
            );
            assert(poly_arith::values(none@) =~= Seq::empty());
        }
        constraints::evaluate_at_point(&es, col_evals, none.as_slice(), &Scalar::zero(curve), alpha)
    }

    /// The weighted sum of the constraints as a polynomial.
    pub fn build_constraint_polynomial(
        &self,
        col_coeffs: &[Vec<Scalar>],
        alpha: &Scalar,
        _domain_size: u64,
    ) -> (r: Vec<Scalar>)
        requires
            col_coeffs.len() >= NUM_COLUMNS,
            constraints::coefficients_readable(row_constraints(), col_coeffs@, alpha.curve()),
        ensures
            poly_arith::reduced(
                r@,
                constraints::combined_poly(
                    row_constraints(),
                    expr::column_polys(col_coeffs@),
                    Seq::empty(),
                    0,
                    alpha@,
                ),
                alpha.curve(),
            ),
    {
        let curve: CurveType = alpha.curve_type();
        let es: Vec<Expr> = constraint_list();
        let none: Vec<Vec<Scalar>> = Vec::new();
        proof {
            constraints::lemma_well_formed_more(
                es@,
                NUM_COLUMNS as nat,
                col_coeffs.len() as nat,
                0,
            );
            assert(expr::column_polys(none@) =~= Seq::empty());
        }
        constraints::build_polynomial(
            &es,
            col_coeffs,
            none.as_slice(),
            &Scalar::zero(curve),
            alpha,
        )
    }

    pub fn selector_column_indices(&self) -> (r: Vec<usize>)
        ensures
            r@ == seq![COL_IS_REAL],
    {
        let r: Vec<usize> = vec![COL_IS_REAL];
        assert(r@ =~= seq![COL_IS_REAL]);
        r
    }

    pub fn padding_selector_column(&self) -> (r: Option<usize>)
        ensures
            r == None::<usize>,
    {
        None
    }

    /// Clears the padding rows.
    pub fn fix_trace_padding(
        &self,
        columns: &mut [Vec<Scalar>],
        num_rows: usize,
        padded_size: usize,
    )
        ensures
            constraints::padding_cleared(
                old(columns)@,
                final(columns)@,
                NUM_COLUMNS as nat,
                num_rows as nat,
                padded_size as nat,
                CurveType::Bls48581,
            ),
    {
        constraints::clear_padding(
            columns,
            NUM_COLUMNS,
            num_rows,
            padded_size,
            CurveType::Bls48581,
        )
    }

    /// Every byte column lies in the table of bytes.
    pub fn lookup_declarations(&self) -> (r: LookupRequirements)
        ensures
            lookup::declares_bytes(r, byte_ranges()),
    {
        let names: [&'static str; 11] = [
            "vi_byte",
            "balance_pre_byte",
            "balance_post_byte",
            "eb_pre_byte",
            "eb_post_byte",
            "rewards_byte",
            "slashing_penalty_byte",
            "eb_step_count_byte",
            "cap_slack_byte",
            "slack_up_byte",
            "slack_down_byte",
        ];
        let offsets: [usize; 11] = [
            COL_VI_BYTE_OFFSET,
            COL_BALANCE_PRE_BYTE_OFFSET,
            COL_BALANCE_POST_BYTE_OFFSET,
            COL_EB_PRE_BYTE_OFFSET,
            COL_EB_POST_BYTE_OFFSET,
            COL_REWARDS_BYTE_OFFSET,
            COL_SLASHING_PENALTY_BYTE_OFFSET,
            COL_EB_STEP_COUNT_BYTE_OFFSET,
            COL_CAP_SLACK_BYTE_OFFSET,
            COL_SLACK_UP_BYTE_OFFSET,
            COL_SLACK_DOWN_BYTE_OFFSET,
        ];
        let lengths: [usize; 11] = [8, 8, 8, 8, 8, 8, 8, 8, 8, 8, 8];
        assert forall|i: int| 0 <= i < 11 implies (#[trigger] byte_ranges()[i]) == (
            names@[i]@,
            offsets@[i] as int,
            lengths@[i] as int,
        ) && lengths@[i] <= 32 && offsets@[i] <= 1000 by {
            assert(i == 0 || i == 1 || i == 2 || i == 3 || i == 4 || i == 5 || i == 6 || i == 7 || i
                == 8 || i == 9 || i == 10);
        }
        lookup::byte_lookups(
            names.as_slice(),
            offsets.as_slice(),
            lengths.as_slice(),
            Ghost(byte_ranges()),
        )
    }
}

/// The polynomial reading of the system agrees with its reading at a point.
pub proof fn law_polynomial_at_point(cols: Seq<Seq<int>>, alpha: int, z: int)
    requires
        cols.len() >= NUM_COLUMNS,
    ensures
        poly_arith::peval(
            constraints::combined_poly(row_constraints(), cols, Seq::empty(), 0, alpha),
            z,
        ) == constraints::combined(
            row_constraints(),
            expr::evals(cols, z),
            Seq::empty(),
            0,
            alpha,
        ),
{
    lemma_well_formed();
    constraints::lemma_well_formed_more(row_constraints(), NUM_COLUMNS as nat, cols.len(), 0);
    constraints::law_combined_reading(row_constraints(), cols, Seq::empty(), 0, alpha, z);
    assert(expr::evals(Seq::empty(), z) =~= Seq::empty());
}

/// The polynomial reading of the system takes at every point, modulo the
/// order, the reading of the system over numbers that stand for the values of
/// the columns there.
pub proof fn law_polynomial_modulo(
    cols: Seq<Seq<int>>,
    e: Seq<int>,
    alpha: int,
    z: int,
    curve: CurveType,
)
    requires
        cols.len() >= NUM_COLUMNS,
        forall|c: int|
            0 <= c < NUM_COLUMNS ==> (#[trigger] e[c]) % field::order(curve) == poly_arith::peval(
                cols[c],
                z,
            ) % field::order(curve),
    ensures
        poly_arith::peval(
            constraints::combined_poly(row_constraints(), cols, Seq::empty(), 0, alpha),
            z,
        ) % field::order(curve) == constraints::combined(
            row_constraints(),
            e,
            Seq::empty(),
            0,
            alpha,
        ) % field::order(curve),
{
    field::lemma_order(curve);
    lemma_well_formed();
    constraints::law_combined_reading_modulo(
        row_constraints(),
        NUM_COLUMNS as nat,
        cols,
        Seq::empty(),
        e,
        Seq::empty(),
        0,
        alpha,
        z,
        field::order(curve),
    );
}

/// The polynomial `p` of the constraints takes at `z` the value `v` of the
/// constraints at the point where the columns have the values `e`.
pub proof fn law_polynomial_value(
    col_coeffs: Seq<Vec<Scalar>>,
    e: Seq<Scalar>,
    z: Scalar,
    alpha: Scalar,
    p: Seq<Scalar>,
    v: Scalar,
)
    requires
        col_coeffs.len() >= NUM_COLUMNS,
        e.len() >= NUM_COLUMNS,
        forall|c: int|
            0 <= c < NUM_COLUMNS ==> (#[trigger] e[c])@ % field::order(alpha.curve())
                == poly_arith::peval(poly_arith::values(col_coeffs[c]@), z@) % field::order(
                alpha.curve(),
            ),
        poly_arith::reduced(
            p,
            constraints::combined_poly(
                row_constraints(),
                expr::column_polys(col_coeffs),
                Seq::empty(),
                0,
                alpha@,
            ),
            alpha.curve(),
        ),
        v@ == constraints::combined(
            row_constraints(),
            poly_arith::values(e),
            Seq::empty(),
            0,
            alpha@,
        ) % field::order(alpha.curve()),
    ensures
        poly_arith::peval(poly_arith::values(p), z@) % field::order(alpha.curve()) == v@,
{
    let cols = expr::column_polys(col_coeffs);
    let row = poly_arith::values(e);
    let m = field::order(alpha.curve());
    assert forall|c: int| 0 <= c < NUM_COLUMNS implies (#[trigger] row[c]) % m == poly_arith::peval(
        cols[c],
        z@,
    ) % m by {
        assert(e[c]@ % m == poly_arith::peval(poly_arith::values(col_coeffs[c]@), z@) % m);
    }
    law_polynomial_modulo(cols, row, alpha@, z@, alpha.curve());
    poly_arith::law_reduced_value(
        p,
        constraints::combined_poly(row_constraints(), cols, Seq::empty(), 0, alpha@),
        alpha.curve(),
        z@,
    );
}

/// The polynomial of the constraints is the same whatever the domain.
pub proof fn law_polynomial_of_any_domain(
    col_coeffs: Seq<Vec<Scalar>>,
    alpha: Scalar,
    p: Seq<Scalar>,
    q: Seq<Scalar>,
)
    requires
        poly_arith::reduced(
            p,
            constraints::combined_poly(
                row_constraints(),
                expr::column_polys(col_coeffs),
                Seq::empty(),
                0,
                alpha@,
            ),
            alpha.curve(),
        ),
        poly_arith::reduced(
            q,
            constraints::combined_poly(
                row_constraints(),
                expr::column_polys(col_coeffs),
                Seq::empty(),
                0,
                alpha@,
            ),
            alpha.curve(),
        ),
    ensures
        poly_arith::same_scalars(p, q),
{
    poly_arith::law_reduced_unique(
        p,
        q,
        constraints::combined_poly(
            row_constraints(),
            expr::column_polys(col_coeffs),
            Seq::empty(),
            0,
            alpha@,
        ),
        alpha.curve(),
    );
}

/// The value `v` of the constraints at a point with the numbers `e` is the sum
/// of their values `d` on a row `j` that holds the same numbers, weighted by
/// the powers of `alpha`.
pub proof fn law_point_is_weighted_row(
    columns: Seq<&Vec<Scalar>>,
    j: int,
    e: Seq<Scalar>,
    alpha: Scalar,
    d: Seq<Vec<Scalar>>,
    v: Scalar,
)
    requires
        columns.len() >= NUM_COLUMNS,
        0 <= j < columns[0].len(),
        columns[0]@[0].curve() == alpha.curve(),
        e.len() >= NUM_COLUMNS,
        forall|c: int|
            0 <= c < NUM_COLUMNS ==> (#[trigger] e[c])@ % field::order(alpha.curve())
                == columns[c]@[j]@ % field::order(alpha.curve()),
        constraints::domain_values(d, row_constraints(), columns, 0),
        v@ == constraints::combined(
            row_constraints(),
            poly_arith::values(e),
            Seq::empty(),
            0,
            alpha@,
        ) % field::order(alpha.curve()),
    ensures
        v@ == poly_arith::peval(
            Seq::new(NUM_ROW_CONSTRAINTS as nat, |k: int| d[k]@[j]@),
            alpha@,
        ) % field::order(alpha.curve()),
{
    let row = poly_arith::values(e);
    let m = field::order(alpha.curve());
    lemma_well_formed();
    assert forall|c: int| 0 <= c < NUM_COLUMNS implies modular::cong(
        #[trigger] row[c],
        columns[c]@[j]@,
        m,
    ) by {
        assert(e[c]@ % m == columns[c]@[j]@ % m);
    }
    constraints::law_point_is_weighted_row(
        row_constraints(),
        NUM_COLUMNS as nat,
        columns,
        j,
        row,
        0,
        alpha@,
        d,
    );
    assert(row_constraints().len() == NUM_ROW_CONSTRAINTS);
}

// ─── What vanishing constraints say ───────────────────────────────────

/// First columns of the numbers that constraints bind to their bytes.
pub open spec fn bound_numbers() -> Seq<int> {
    seq![
        COL_VALIDATOR_INDEX as int,
        COL_BALANCE_PRE as int,
        COL_BALANCE_POST as int,
        COL_EFFECTIVE_BALANCE_PRE as int,
        COL_EFFECTIVE_BALANCE_POST as int,
        COL_REWARDS as int,
        COL_SLASHING_PENALTY as int,
    ]
}

/// The cells are field elements, the bytes of the bound numbers are bytes,
/// and the remaining numbers have 64 bits.
pub open spec fn row_in_range(row: Seq<int>, m: int) -> bool {
    &&& row.len() >= NUM_COLUMNS
    &&& forall|c: int| 0 <= c < NUM_COLUMNS ==> 0 <= #[trigger] row[c] < m
    &&& forall|g: int, k: int|
        0 <= g < 7 && 0 <= k < 8 ==> 0 <= #[trigger] row[bound_numbers()[g] + 1 + k] < 256
    &&& row[COL_EB_STEP_COUNT as int] <= u64::MAX
    &&& row[COL_CAP_SLACK as int] <= u64::MAX
    &&& row[COL_SLACK_UP as int] <= u64::MAX
    &&& row[COL_SLACK_DOWN as int] <= u64::MAX
}

/// Every constraint vanishes on the row.
pub open spec fn row_vanishes(row: Seq<int>, ch: int, m: int) -> bool {
    forall|i: int|
        0 <= i < NUM_ROW_CONSTRAINTS ==> expr::ev(
            #[trigger] row_constraints()[i],
            row,
            Seq::empty(),
            ch,
        ) % m == 0
}

/// What the row of a validator says once its constraints vanish.
pub open spec fn row_sound(row: Seq<int>) -> bool {
    let balance = row[COL_BALANCE_POST as int];
    let before = row[COL_EFFECTIVE_BALANCE_PRE as int];
    let after = row[COL_EFFECTIVE_BALANCE_POST as int];
    let up = row[COL_DELTA_UP as int];
    let down = row[COL_DELTA_DOWN as int];
    let kind = row[COL_IS_COMPOUNDING as int];
    &&& kind == 0 || kind == 1
    &&& forall|g: int|
        0 <= g < 7 ==> {
            let c = #[trigger] bound_numbers()[g];
            row[c] == constraints::weighted_sum(row, c + 1, 256, 8) && row[c] <= u64::MAX
        }
    &&& balance == row[COL_BALANCE_PRE as int] + row[COL_REWARDS as int]
        - row[COL_SLASHING_PENALTY as int]
    &&& after == row[COL_EB_STEP_COUNT as int] * EFFECTIVE_BALANCE_INCREMENT
    &&& after <= cap(kind == 1)
    &&& (up == 0 && down == 0) || (up == 1 && down == 0) || (up == 0 && down == 1)
    &&& up == 1 ==> balance >= before + HYSTERESIS_UP_THRESHOLD && after == before
        + EFFECTIVE_BALANCE_INCREMENT
    &&& down == 1 ==> balance + HYSTERESIS_DOWN_THRESHOLD <= before && after == before
        - EFFECTIVE_BALANCE_INCREMENT
    &&& up == 0 && down == 0 ==> after == before
}

proof fn lemma_bound_number(row: Seq<int>, g: int, i: int, ch: int, m: int)
    requires
        m > 0x1_0000_0000_0000_0000,
        row_in_range(row, m),
        0 <= g < 7,
        row[COL_IS_REAL as int] == 1,
        i == 6 + g,
        expr::ev(row_constraints()[i], row, Seq::empty(), ch) % m == 0,
    ensures
        row[bound_numbers()[g]] == constraints::weighted_sum(row, bound_numbers()[g] + 1, 256, 8),
        row[bound_numbers()[g]] <= u64::MAX,
{
    let c = bound_numbers()[g] as usize;
    let e = decomposition_of(c, (c + 1) as usize);
    if g > 0 {
        assert(row_constraints()[i] == gated_of(e));
        soundness::lemma_gated_sound(COL_IS_REAL, e, row, Seq::empty(), ch, m);
    } else {
        assert(row_constraints()[i] == e);
    }
    constraints::lemma_ev_weighted((c + 1) as usize, 256, 8, row, Seq::empty(), ch);
    assert(expr::ev(e, row, Seq::empty(), ch) == row[c as int] - constraints::weighted_sum(
        row,
        c + 1,
        256,
        8,
    )) by {
        reveal_with_fuel(expr::ev, 2);
    }
    assert forall|k: int| 0 <= k < 8 implies 0 <= row[#[trigger] ((c + 1) + k)] < 256 by {
        assert(0 <= row[bound_numbers()[g] + 1 + k] < 256);
    }
    soundness::lemma_bytes_sound(row, c as int, c + 1, m);
}

/// What the bodies of the constraints on real rows denote.
proof fn lemma_bodies(row: Seq<int>, ch: int, m: int)
    requires
        m > 0x1_0000_0000_0000_0000,
        row.len() >= NUM_COLUMNS,
        row[COL_IS_REAL as int] == 1,
        row_vanishes(row, ch, m),
    ensures
        (row[COL_BALANCE_PRE as int] + row[COL_REWARDS as int] - row[COL_SLASHING_PENALTY as int]
            - row[COL_BALANCE_POST as int]) % m == 0,
        (row[COL_EB_STEP_COUNT as int] * EFFECTIVE_BALANCE_INCREMENT
            - row[COL_EFFECTIVE_BALANCE_POST as int]) % m == 0,
        (row[COL_IS_COMPOUNDING as int] * (MAX_EFFECTIVE_BALANCE_ELECTRA
            - row[COL_EFFECTIVE_BALANCE_POST as int] - row[COL_CAP_SLACK as int]) + (1
            - row[COL_IS_COMPOUNDING as int]) * (MAX_EFFECTIVE_BALANCE
            - row[COL_EFFECTIVE_BALANCE_POST as int] - row[COL_CAP_SLACK as int])) % m == 0,
        (row[COL_DELTA_UP as int] * (row[COL_BALANCE_POST as int]
            - row[COL_EFFECTIVE_BALANCE_PRE as int] - HYSTERESIS_UP_THRESHOLD
            - row[COL_SLACK_UP as int])) % m == 0,
        (row[COL_DELTA_DOWN as int] * (row[COL_EFFECTIVE_BALANCE_PRE as int]
            - row[COL_BALANCE_POST as int] - HYSTERESIS_DOWN_THRESHOLD
            - row[COL_SLACK_DOWN as int])) % m == 0,
        (row[COL_EFFECTIVE_BALANCE_POST as int] - row[COL_EFFECTIVE_BALANCE_PRE as int] - (
        row[COL_DELTA_UP as int] - row[COL_DELTA_DOWN as int]) * EFFECTIVE_BALANCE_INCREMENT) % m
            == 0,
{
    let e = Seq::<int>::empty();
    let es = row_constraints();
    assert(expr::ev(es[3], row, e, ch) % m == 0);
    soundness::lemma_gated_sound(COL_IS_REAL, balance_update_of(), row, e, ch, m);
    assert(expr::ev(es[4], row, e, ch) % m == 0);
    let multiple = constraints::sub_of(
        constraints::mul_of(Expr::Col(COL_EB_STEP_COUNT), Expr::Const(EFFECTIVE_BALANCE_INCREMENT)),
        Expr::Col(COL_EFFECTIVE_BALANCE_POST),
    );
    soundness::lemma_gated_sound(COL_IS_REAL, multiple, row, e, ch, m);
    assert(expr::ev(es[5], row, e, ch) % m == 0);
    soundness::lemma_gated_sound(COL_IS_REAL, cap_of_kind(), row, e, ch, m);
    assert(expr::ev(es[16], row, e, ch) % m == 0);
    let up = constraints::mul_of(Expr::Col(COL_DELTA_UP), up_residual_of());
    soundness::lemma_gated_sound(COL_IS_REAL, up, row, e, ch, m);
    assert(expr::ev(es[17], row, e, ch) % m == 0);
    let down = constraints::mul_of(Expr::Col(COL_DELTA_DOWN), down_residual_of());
    soundness::lemma_gated_sound(COL_IS_REAL, down, row, e, ch, m);
    assert(expr::ev(es[18], row, e, ch) % m == 0);
    soundness::lemma_gated_sound(COL_IS_REAL, step_residual_of(), row, e, ch, m);
    reveal_with_fuel(expr::ev, 6);
}

/// A real row on which every constraint vanishes describes what an epoch does
/// to a validator: the balance changes by rewards and penalty, the effective
/// balance is a multiple of the increment within the cap, and it moves one
/// increment up or down only if the balance is at the threshold or beyond, and
/// not at all otherwise.
pub proof fn law_vanishing_row_sound(row: Seq<int>, ch: int, curve: CurveType)
    requires
        soundness::integral(field::order(curve)),
        row_in_range(row, field::order(curve)),
        row[COL_IS_REAL as int] == 1,
        row_vanishes(row, ch, field::order(curve)),
    ensures
        row_sound(row),
{
    let m = field::order(curve);
    field::lemma_order(curve);
    let e = Seq::<int>::empty();
    let es = row_constraints();
    assert(expr::ev(es[2], row, e, ch) % m == 0);
    soundness::lemma_binary_sound(COL_IS_COMPOUNDING, row, e, ch, m);
    assert(expr::ev(es[13], row, e, ch) % m == 0);
    soundness::lemma_binary_sound(COL_DELTA_UP, row, e, ch, m);
    assert(expr::ev(es[14], row, e, ch) % m == 0);
    soundness::lemma_binary_sound(COL_DELTA_DOWN, row, e, ch, m);
    assert forall|g: int| 0 <= g < 7 implies {
        let c = #[trigger] bound_numbers()[g];
        row[c] == constraints::weighted_sum(row, c + 1, 256, 8) && row[c] <= u64::MAX
    } by {
        assert(expr::ev(es[6 + g], row, e, ch) % m == 0);
        lemma_bound_number(row, g, 6 + g, ch, m);
    }
    assert(bound_numbers()[1] == COL_BALANCE_PRE && bound_numbers()[2] == COL_BALANCE_POST
        && bound_numbers()[3] == COL_EFFECTIVE_BALANCE_PRE && bound_numbers()[4]
        == COL_EFFECTIVE_BALANCE_POST && bound_numbers()[5] == COL_REWARDS && bound_numbers()[6]
        == COL_SLASHING_PENALTY);
    lemma_bodies(row, ch, m);
    let pre = row[COL_BALANCE_PRE as int];
    let balance = row[COL_BALANCE_POST as int];
    let before = row[COL_EFFECTIVE_BALANCE_PRE as int];
    let after = row[COL_EFFECTIVE_BALANCE_POST as int];
    let rewards = row[COL_REWARDS as int];
    let penalty = row[COL_SLASHING_PENALTY as int];
    let up = row[COL_DELTA_UP as int];
    let down = row[COL_DELTA_DOWN as int];
    let kind = row[COL_IS_COMPOUNDING as int];
    let slack = row[COL_CAP_SLACK as int];
    soundness::lemma_equal(pre + rewards - penalty, balance, m);
    let steps = row[COL_EB_STEP_COUNT as int];
    soundness::lemma_equal(steps * EFFECTIVE_BALANCE_INCREMENT, after, m);
    let (p, q) = (
        MAX_EFFECTIVE_BALANCE_ELECTRA - after - slack,
        MAX_EFFECTIVE_BALANCE - after - slack,
    );
    assert(kind * p + (1 - kind) * q == if kind == 1 {
        p
    } else {
        q
    }) by (nonlinear_arith)
        requires
            kind == 0 || kind == 1,
    ;
    if kind == 1 {
        soundness::lemma_equal(MAX_EFFECTIVE_BALANCE_ELECTRA - after, slack, m);
    } else {
        soundness::lemma_equal(MAX_EFFECTIVE_BALANCE - after, slack, m);
    }
    let far_up = balance - before - HYSTERESIS_UP_THRESHOLD;
    let far_down = before - balance - HYSTERESIS_DOWN_THRESHOLD;
    if up == 1 {
        let d = far_up - row[COL_SLACK_UP as int];
        assert(up * d == d) by (nonlinear_arith)
            requires
                up == 1,
        ;
        soundness::lemma_equal(far_up, row[COL_SLACK_UP as int], m);
    }
    if down == 1 {
        let d = far_down - row[COL_SLACK_DOWN as int];
        assert(down * d == d) by (nonlinear_arith)
            requires
                down == 1,
        ;
        soundness::lemma_equal(far_down, row[COL_SLACK_DOWN as int], m);
    }
    soundness::lemma_equal(after - before, (up - down) * EFFECTIVE_BALANCE_INCREMENT, m);
}

// ─── Links ────────────────────────────────────────────────────────────

/// Index, effective balance and balance before the epoch are those of the
/// validator balance table.
pub fn make_epoch_to_validator_balances_descriptor(
    epoch_layer_index: usize,
    balances_layer_index: usize,
) -> (r: CrossAirLogUpDescriptor)
    ensures
        r.is(
            cross_air_logup::Link {
                label: "epoch_processing_to_validator_balances_v1"@,
                a_layer: epoch_layer_index as int,
                a_columns: seq![COL_VALIDATOR_INDEX as int, COL_EFFECTIVE_BALANCE_PRE as int, COL_BALANCE_PRE as int],
                a_selector: COL_IS_REAL as int,
                b_layer: balances_layer_index as int,
                b_columns: seq![validator_balances_air::COL_VALIDATOR_INDEX as int, validator_balances_air::COL_EFFECTIVE_BALANCE as int, validator_balances_air::COL_CURRENT_BALANCE as int],
                b_selector: validator_balances_air::COL_IS_REAL as int,
            },
        ),
{
    let a_columns: Vec<usize> = vec![COL_VALIDATOR_INDEX, COL_EFFECTIVE_BALANCE_PRE, COL_BALANCE_PRE];
    let b_columns: Vec<usize> = vec![validator_balances_air::COL_VALIDATOR_INDEX, validator_balances_air::COL_EFFECTIVE_BALANCE, validator_balances_air::COL_CURRENT_BALANCE];
    assert(cross_air_logup::indices(a_columns@) =~= seq![COL_VALIDATOR_INDEX as int, COL_EFFECTIVE_BALANCE_PRE as int, COL_BALANCE_PRE as int]);
    assert(cross_air_logup::indices(b_columns@) =~= seq![validator_balances_air::COL_VALIDATOR_INDEX as int, validator_balances_air::COL_EFFECTIVE_BALANCE as int, validator_balances_air::COL_CURRENT_BALANCE as int]);
    CrossAirLogUpDescriptor {
        label: "epoch_processing_to_validator_balances_v1".to_string(),
        a_layer_index: epoch_layer_index,
        a_columns,
        a_selector_column: Some(COL_IS_REAL),
        b_layer_index: balances_layer_index,
        b_columns,
        b_selector_column: Some(validator_balances_air::COL_IS_REAL),
    }
}

/// Index and rewards are those of the attestation reward table.
pub fn make_epoch_to_attestation_rewards_descriptor(
    epoch_layer_index: usize,
    rewards_layer_index: usize,
) -> (r: CrossAirLogUpDescriptor)
    ensures
        r.is(
            cross_air_logup::Link {
                label: "epoch_processing_to_attestation_rewards_v1"@,
                a_layer: epoch_layer_index as int,
                a_columns: seq![COL_VALIDATOR_INDEX as int, COL_REWARDS as int],
                a_selector: COL_IS_REAL as int,
                b_layer: rewards_layer_index as int,
                b_columns: seq![attestation_rewards_air::COL_VALIDATOR_INDEX as int, attestation_rewards_air::COL_TOTAL_REWARD as int],
                b_selector: attestation_rewards_air::COL_IS_REAL as int,
            },
        ),
{
    let a_columns: Vec<usize> = vec![COL_VALIDATOR_INDEX, COL_REWARDS];
    let b_columns: Vec<usize> = vec![attestation_rewards_air::COL_VALIDATOR_INDEX, attestation_rewards_air::COL_TOTAL_REWARD];
    assert(cross_air_logup::indices(a_columns@) =~= seq![COL_VALIDATOR_INDEX as int, COL_REWARDS as int]);
    assert(cross_air_logup::indices(b_columns@) =~= seq![attestation_rewards_air::COL_VALIDATOR_INDEX as int, attestation_rewards_air::COL_TOTAL_REWARD as int]);
    CrossAirLogUpDescriptor {
        label: "epoch_processing_to_attestation_rewards_v1".to_string(),
        a_layer_index: epoch_layer_index,
        a_columns,
        a_selector_column: Some(COL_IS_REAL),
        b_layer_index: rewards_layer_index,
        b_columns,
        b_selector_column: Some(attestation_rewards_air::COL_IS_REAL),
    }
}

/// Index, effective balance and rewards are those of the attestation reward
/// table.
pub fn make_epoch_to_attestation_rewards_descriptor_wide(
    epoch_layer_index: usize,
    rewards_layer_index: usize,
) -> (r: CrossAirLogUpDescriptor)
    ensures
        r.is(
            cross_air_logup::Link {
                label: "epoch_processing_to_attestation_rewards_wide_v1"@,
                a_layer: epoch_layer_index as int,
                a_columns: seq![COL_VALIDATOR_INDEX as int, COL_EFFECTIVE_BALANCE_POST as int, COL_REWARDS as int],
                a_selector: COL_IS_REAL as int,
                b_layer: rewards_layer_index as int,
                b_columns: seq![attestation_rewards_air::COL_VALIDATOR_INDEX as int, attestation_rewards_air::COL_EFFECTIVE_BALANCE as int, attestation_rewards_air::COL_TOTAL_REWARD as int],
                b_selector: attestation_rewards_air::COL_IS_REAL as int,
            },
        ),
{
    let a_columns: Vec<usize> = vec![COL_VALIDATOR_INDEX, COL_EFFECTIVE_BALANCE_POST, COL_REWARDS];
    let b_columns: Vec<usize> = vec![attestation_rewards_air::COL_VALIDATOR_INDEX, attestation_rewards_air::COL_EFFECTIVE_BALANCE, attestation_rewards_air::COL_TOTAL_REWARD];
    assert(cross_air_logup::indices(a_columns@) =~= seq![COL_VALIDATOR_INDEX as int, COL_EFFECTIVE_BALANCE_POST as int, COL_REWARDS as int]);
    assert(cross_air_logup::indices(b_columns@) =~= seq![attestation_rewards_air::COL_VALIDATOR_INDEX as int, attestation_rewards_air::COL_EFFECTIVE_BALANCE as int, attestation_rewards_air::COL_TOTAL_REWARD as int]);
    CrossAirLogUpDescriptor {
        label: "epoch_processing_to_attestation_rewards_wide_v1".to_string(),
        a_layer_index: epoch_layer_index,
        a_columns,
        a_selector_column: Some(COL_IS_REAL),
        b_layer_index: rewards_layer_index,
        b_columns,
        b_selector_column: Some(attestation_rewards_air::COL_IS_REAL),
    }
}

/// Index and penalty are linked to the attester slashing table.
pub fn make_epoch_to_slashing_descriptor(
    epoch_layer_index: usize,
    slashing_layer_index: usize,
) -> (r: CrossAirLogUpDescriptor)
    ensures
        r.is(
            cross_air_logup::Link {
                label: "epoch_processing_to_slashing_v1"@,
                a_layer: epoch_layer_index as int,
                a_columns: seq![COL_VALIDATOR_INDEX as int, COL_SLASHING_PENALTY as int],
                a_selector: COL_IS_REAL as int,
                b_layer: slashing_layer_index as int,
                b_columns: seq![attester_slashing_air::COL_ATTESTING_INDICES_1_OFFSET as int, attester_slashing_air::COL_INTERSECTION_COUNT as int],
                b_selector: attester_slashing_air::COL_IS_REAL as int,
            },
        ),
{
    let a_columns: Vec<usize> = vec![COL_VALIDATOR_INDEX, COL_SLASHING_PENALTY];
    let b_columns: Vec<usize> = vec![attester_slashing_air::COL_ATTESTING_INDICES_1_OFFSET, attester_slashing_air::COL_INTERSECTION_COUNT];
    assert(cross_air_logup::indices(a_columns@) =~= seq![COL_VALIDATOR_INDEX as int, COL_SLASHING_PENALTY as int]);
    assert(cross_air_logup::indices(b_columns@) =~= seq![attester_slashing_air::COL_ATTESTING_INDICES_1_OFFSET as int, attester_slashing_air::COL_INTERSECTION_COUNT as int]);
    CrossAirLogUpDescriptor {
        label: "epoch_processing_to_slashing_v1".to_string(),
        a_layer_index: epoch_layer_index,
        a_columns,
        a_selector_column: Some(COL_IS_REAL),
        b_layer_index: slashing_layer_index,
        b_columns,
        b_selector_column: Some(attester_slashing_air::COL_IS_REAL),
    }
}

/// Index and penalty are linked to the proposer slashing table.
pub fn make_epoch_to_proposer_slashing_descriptor(
    epoch_layer_index: usize,
    slashing_layer_index: usize,
) -> (r: CrossAirLogUpDescriptor)
    ensures
        r.is(
            cross_air_logup::Link {
                label: "epoch_processing_to_proposer_slashing_v1"@,
                a_layer: epoch_layer_index as int,
                a_columns: seq![COL_VALIDATOR_INDEX as int, COL_SLASHING_PENALTY as int],
                a_selector: COL_IS_REAL as int,
                b_layer: slashing_layer_index as int,
                b_columns: seq![proposer_slashing_air::COL_PROPOSER_INDEX_1 as int, proposer_slashing_air::COL_BODY_ROOT_DIFF_INV as int],
                b_selector: proposer_slashing_air::COL_IS_REAL as int,
            },
        ),
{
    let a_columns: Vec<usize> = vec![COL_VALIDATOR_INDEX, COL_SLASHING_PENALTY];
    let b_columns: Vec<usize> = vec![proposer_slashing_air::COL_PROPOSER_INDEX_1, proposer_slashing_air::COL_BODY_ROOT_DIFF_INV];
    assert(cross_air_logup::indices(a_columns@) =~= seq![COL_VALIDATOR_INDEX as int, COL_SLASHING_PENALTY as int]);
    assert(cross_air_logup::indices(b_columns@) =~= seq![proposer_slashing_air::COL_PROPOSER_INDEX_1 as int, proposer_slashing_air::COL_BODY_ROOT_DIFF_INV as int]);
    CrossAirLogUpDescriptor {
        label: "epoch_processing_to_proposer_slashing_v1".to_string(),
        a_layer_index: epoch_layer_index,
        a_columns,
        a_selector_column: Some(COL_IS_REAL),
        b_layer_index: slashing_layer_index,
        b_columns,
        b_selector_column: Some(proposer_slashing_air::COL_IS_REAL),
    }
}

// ─── What the table says of a validator ───────────────────────────────

/// A balance more than 0.25 ETH below the effective balance moves it one ETH
/// down, whatever the kind of the validator.
pub proof fn law_hysteresis_down(balance: int, effective: int, is_compounding: bool)
    requires
        balance >= 0,
        1_000_000_000 <= effective <= if is_compounding {
            2_048_000_000_000int
        } else {
            32_000_000_000int
        },
        balance + 250_000_000 < effective,
    ensures
        hysteresis(balance, effective, is_compounding) == (effective - 1_000_000_000, -1int),
{
}

/// A balance more than 1.25 ETH above the effective balance moves it one ETH
/// up, unless it would pass the cap; at the cap it stays.
pub proof fn law_hysteresis_up(balance: int, effective: int, is_compounding: bool)
    requires
        0 <= effective <= if is_compounding {
            2_048_000_000_000int
        } else {
            32_000_000_000int
        },
        balance > effective + 1_250_000_000,
    ensures
        effective + 1_000_000_000 <= (if is_compounding {
            2_048_000_000_000int
        } else {
            32_000_000_000int
        }) ==> hysteresis(balance, effective, is_compounding) == (
            effective + 1_000_000_000,
            1int,
        ),
        effective + 1_000_000_000 > (if is_compounding {
            2_048_000_000_000int
        } else {
            32_000_000_000int
        }) ==> hysteresis(balance, effective, is_compounding) == (effective, 0int),
{
}

/// An effective balance above the cap comes down to the cap unless the balance
/// moves it down, and one below an increment that moves down becomes zero.
pub proof fn law_hysteresis_edges(balance: int, effective: int, is_compounding: bool)
    requires
        balance >= 0,
        effective >= 0,
    ensures
        ({
            let top = if is_compounding {
                2_048_000_000_000int
            } else {
                32_000_000_000int
            };
            let (e, d) = hysteresis(balance, effective, is_compounding);
            &&& 0 <= e <= top
            &&& d == -1 || d == 0 || d == 1
            &&& d == -1 <==> balance + 250_000_000 < effective
            &&& d == 1 <==> balance > effective + 1_250_000_000 && effective + 1_000_000_000 <= top
            &&& effective > top && d == 0 ==> e == top
            &&& effective > top + 1_000_000_000 ==> e == top
            &&& effective < 1_000_000_000 && d == -1 ==> e == 0
        }),
{
}

/// More balance never means less effective balance, nor does a higher cap.
pub proof fn law_hysteresis_monotone(less: int, more: int, effective: int, is_compounding: bool)
    requires
        0 <= less <= more,
        effective >= 0,
    ensures
        hysteresis(less, effective, is_compounding).0 <= hysteresis(
            more,
            effective,
            is_compounding,
        ).0,
        hysteresis(less, effective, false).0 <= hysteresis(less, effective, true).0,
{
}

/// Every epoch in which the balance changes by rewards and penalty and the
/// effective balance makes its step is accepted, and no other.
pub proof fn law_epochs_accepted(
    balance_pre: int,
    balance_post: int,
    effective: int,
    stepped: int,
    penalty: int,
    rewards: int,
    is_compounding: bool,
)
    requires
        balance_pre >= 0,
        balance_post >= 0,
        rewards >= 0,
        penalty >= 0,
        0 <= effective <= if is_compounding {
            2_048_000_000_000int
        } else {
            32_000_000_000int
        },
        effective % 1_000_000_000 == 0,
    ensures
        consistent_epoch(
            balance_pre,
            balance_post,
            effective,
            stepped,
            penalty,
            rewards,
            is_compounding,
        ) <==> {
            &&& balance_pre + rewards <= 0xffff_ffff_ffff_ffff
            &&& balance_post + penalty == balance_pre + rewards
            &&& stepped == if balance_post + 250_000_000 < effective {
                effective - 1_000_000_000
            } else if balance_post > effective + 1_250_000_000 && (is_compounding || effective
                < 32_000_000_000) && effective < 2_048_000_000_000 {
                effective + 1_000_000_000
            } else {
                effective
            }
        },
{
}

/// What the trace of a witness holds of a validator: its numbers, each with
/// its bytes; the multiple of the increment and the room up to the cap; and
/// the direction of the step with its slack.
pub proof fn law_trace_holds_validator(
    w: EpochProcessingWitness,
    t: TracePolynomials,
    curve: CurveType,
    r: int,
)
    requires
        trace::holds(t, NUM_COLUMNS as nat, w.rows.len() as nat, curve, cells(w.rows@)),
        0 <= r < w.rows.len(),
        w.rows@[r].effective_balance_post <= if w.rows@[r].is_compounding {
            2_048_000_000_000u64
        } else {
            32_000_000_000u64
        },
    ensures
        ({
            let o = w.rows@[r];
            let top = if o.is_compounding {
                2_048_000_000_000int
            } else {
                32_000_000_000int
            };
            let rises = o.balance_post > o.effective_balance_pre + 1_250_000_000
                && o.effective_balance_pre + 1_000_000_000 <= top;
            let falls = o.balance_post + 250_000_000 < o.effective_balance_pre;
            &&& trace::at(t, COL_VALIDATOR_INDEX as int, r) == o.validator_index
            &&& trace::at(t, COL_BALANCE_PRE as int, r) == o.balance_pre
            &&& trace::at(t, COL_BALANCE_POST as int, r) == o.balance_post
            &&& trace::at(t, COL_EFFECTIVE_BALANCE_PRE as int, r) == o.effective_balance_pre
            &&& trace::at(t, COL_EFFECTIVE_BALANCE_POST as int, r) == o.effective_balance_post
            &&& trace::at(t, COL_REWARDS as int, r) == o.rewards
            &&& trace::at(t, COL_SLASHING_PENALTY as int, r) == o.slashing_penalty
            &&& 0 <= o.effective_balance_post - 1_000_000_000 * trace::at(
                t,
                COL_EB_STEP_COUNT as int,
                r,
            ) < 1_000_000_000
            &&& trace::at(t, COL_CAP_SLACK as int, r) + o.effective_balance_post == top
            &&& trace::at(t, COL_DELTA_UP as int, r) == if rises { 1int } else { 0int }
            &&& trace::at(t, COL_DELTA_DOWN as int, r) == if falls { 1int } else { 0int }
            &&& trace::at(t, COL_DELTA_ZERO as int, r) == if rises || falls { 0int } else { 1int }
            &&& trace::at(t, COL_SLACK_UP as int, r) == if rises {
                o.balance_post - o.effective_balance_pre - 1_250_000_000
            } else {
                0
            }
            &&& trace::at(t, COL_SLACK_DOWN as int, r) == if falls {
                o.effective_balance_pre - o.balance_post - 250_000_000
            } else {
                0
            }
            &&& trace::at(t, COL_IS_ACTIVE as int, r) == if o.is_active { 1int } else { 0int }
            &&& trace::at(t, COL_IS_COMPOUNDING as int, r) == if o.is_compounding {
                1int
            } else {
                0int
            }
            &&& trace::at(t, COL_IS_REAL as int, r) == if o.is_real { 1int } else { 0int }
            &&& forall|c: int|
                #![trigger is_number_column(c)]
                is_number_column(c) ==> trace::bytes_at(t, c + 1, r) == trace::at(t, c, r)
                    && trace::byte_cells(t, c + 1, r, 8)
        }),
{
    let o = w.rows@[r];
    trace::lemma_cells(t, NUM_COLUMNS as nat, w.rows.len() as nat, curve, cells(w.rows@), r);
    vstd::arithmetic::div_mod::lemma_fundamental_div_mod(
        o.effective_balance_post as int,
        1_000_000_000,
    );
    assert forall|c: int|
        #![trigger is_number_column(c)]
        is_number_column(c) implies trace::bytes_at(t, c + 1, r) == trace::at(t, c, r)
        && trace::byte_cells(t, c + 1, r, 8) by {
        let v = number(o, c / 9);
        bytes::law_eight_bytes(v as u64);
        assert forall|k: int| 0 <= k < 8 implies 0 <= trace::at(t, #[trigger] (c + 1 + k), r)
            < 256 && trace::at(t, c + 1 + k, r) == bytes::le_byte(v, k) by {
            assert(trace::at(t, c + 1 + k, r) == row_cell(o, c + 1 + k));
        }
        assert(trace::at(t, c, r) == v);
    }
}

/// The columns of the numbers that stand in the table together with their
/// bytes.
pub open spec fn is_number_column(c: int) -> bool {
    ||| c == COL_VALIDATOR_INDEX
    ||| c == COL_BALANCE_PRE
    ||| c == COL_BALANCE_POST
    ||| c == COL_EFFECTIVE_BALANCE_PRE
    ||| c == COL_EFFECTIVE_BALANCE_POST
    ||| c == COL_REWARDS
    ||| c == COL_SLASHING_PENALTY
    ||| c == COL_EB_STEP_COUNT
    ||| c == COL_CAP_SLACK
    ||| c == COL_SLACK_UP
    ||| c == COL_SLACK_DOWN
}

/// The value of every constraint on a row, in the order of the constraints.
pub proof fn law_constraint_values(row: Seq<int>, ch: int)
    ensures
        row_constraints().len() == 19,
        expr::ev(row_constraints()[0], row, Seq::empty(), ch) == row[COL_IS_REAL as int] * (row[COL_IS_REAL as int] - 1),
        expr::ev(row_constraints()[1], row, Seq::empty(), ch) == row[COL_IS_ACTIVE as int] * (row[COL_IS_ACTIVE as int] - 1),
        expr::ev(row_constraints()[2], row, Seq::empty(), ch) == row[COL_IS_COMPOUNDING as int] * (row[COL_IS_COMPOUNDING as int] - 1),
        expr::ev(row_constraints()[3], row, Seq::empty(), ch) == row[COL_IS_REAL as int] * (row[COL_BALANCE_PRE as int] + row[COL_REWARDS as int] - row[COL_SLASHING_PENALTY as int] - row[COL_BALANCE_POST as int]),
        expr::ev(row_constraints()[4], row, Seq::empty(), ch) == row[COL_IS_REAL as int] * (row[COL_EB_STEP_COUNT as int] * 1_000_000_000 - row[COL_EFFECTIVE_BALANCE_POST as int]),
        expr::ev(row_constraints()[5], row, Seq::empty(), ch) == row[COL_IS_REAL as int] * (row[COL_IS_COMPOUNDING as int] * (2_048_000_000_000 - row[COL_EFFECTIVE_BALANCE_POST as int] - row[COL_CAP_SLACK as int]) + (1 - row[COL_IS_COMPOUNDING as int]) * (32_000_000_000 - row[COL_EFFECTIVE_BALANCE_POST as int] - row[COL_CAP_SLACK as int])),
        expr::ev(row_constraints()[6], row, Seq::empty(), ch) == row[COL_VALIDATOR_INDEX as int] - constraints::eight_bytes(row, COL_VALIDATOR_INDEX + 1),
        expr::ev(row_constraints()[7], row, Seq::empty(), ch) == row[COL_IS_REAL as int] * (row[COL_BALANCE_PRE as int] - constraints::eight_bytes(row, COL_BALANCE_PRE + 1)),
        expr::ev(row_constraints()[8], row, Seq::empty(), ch) == row[COL_IS_REAL as int] * (row[COL_BALANCE_POST as int] - constraints::eight_bytes(row, COL_BALANCE_POST + 1)),
        expr::ev(row_constraints()[9], row, Seq::empty(), ch) == row[COL_IS_REAL as int] * (row[COL_EFFECTIVE_BALANCE_PRE as int] - constraints::eight_bytes(row, COL_EFFECTIVE_BALANCE_PRE + 1)),
        expr::ev(row_constraints()[10], row, Seq::empty(), ch) == row[COL_IS_REAL as int] * (row[COL_EFFECTIVE_BALANCE_POST as int] - constraints::eight_bytes(row, COL_EFFECTIVE_BALANCE_POST + 1)),
        expr::ev(row_constraints()[11], row, Seq::empty(), ch) == row[COL_IS_REAL as int] * (row[COL_REWARDS as int] - constraints::eight_bytes(row, COL_REWARDS + 1)),
        expr::ev(row_constraints()[12], row, Seq::empty(), ch) == row[COL_IS_REAL as int] * (row[COL_SLASHING_PENALTY as int] - constraints::eight_bytes(row, COL_SLASHING_PENALTY + 1)),
        expr::ev(row_constraints()[13], row, Seq::empty(), ch) == row[COL_DELTA_UP as int] * (row[COL_DELTA_UP as int] - 1),
        expr::ev(row_constraints()[14], row, Seq::empty(), ch) == row[COL_DELTA_DOWN as int] * (row[COL_DELTA_DOWN as int] - 1),
        expr::ev(row_constraints()[15], row, Seq::empty(), ch) == row[COL_IS_REAL as int] * (row[COL_DELTA_UP as int] + row[COL_DELTA_DOWN as int] + row[COL_DELTA_ZERO as int] - 1),
        expr::ev(row_constraints()[16], row, Seq::empty(), ch) == row[COL_IS_REAL as int] * (row[COL_DELTA_UP as int] * (row[COL_BALANCE_POST as int] - row[COL_EFFECTIVE_BALANCE_PRE as int] - 1_250_000_000 - row[COL_SLACK_UP as int])),
        expr::ev(row_constraints()[17], row, Seq::empty(), ch) == row[COL_IS_REAL as int] * (row[COL_DELTA_DOWN as int] * (row[COL_EFFECTIVE_BALANCE_PRE as int] - row[COL_BALANCE_POST as int] - 250_000_000 - row[COL_SLACK_DOWN as int])),
        expr::ev(row_constraints()[18], row, Seq::empty(), ch) == row[COL_IS_REAL as int] * (row[COL_EFFECTIVE_BALANCE_POST as int] - row[COL_EFFECTIVE_BALANCE_PRE as int] - (row[COL_DELTA_UP as int] - row[COL_DELTA_DOWN as int]) * 1_000_000_000),
{
    let e = Seq::<int>::empty();
    assert forall|g: int| 0 <= g < 7 implies expr::ev(
        #[trigger] decomposition_of((9 * g) as usize, (9 * g + 1) as usize),
        row,
        e,
        ch,
    ) == row[9 * g] - constraints::eight_bytes(row, 9 * g + 1) by {
        constraints::lemma_ev_weighted((9 * g + 1) as usize, 256, 8, row, e, ch);
        constraints::lemma_weighted_bytes(row, 9 * g + 1);
        reveal_with_fuel(expr::ev, 2);
    }
    assert(decomposition_of((9 * 0) as usize, (9 * 0 + 1) as usize) == decomposition_of(0, 1));
    assert(decomposition_of((9 * 1int) as usize, (9 * 1int + 1) as usize) == decomposition_of(9, 10));
    assert(decomposition_of((9 * 2int) as usize, (9 * 2int + 1) as usize) == decomposition_of(18, 19));
    assert(decomposition_of((9 * 3int) as usize, (9 * 3int + 1) as usize) == decomposition_of(27, 28));
    assert(decomposition_of((9 * 4int) as usize, (9 * 4int + 1) as usize) == decomposition_of(36, 37));
    assert(decomposition_of((9 * 5int) as usize, (9 * 5int + 1) as usize) == decomposition_of(45, 46));
    assert(decomposition_of((9 * 6int) as usize, (9 * 6int + 1) as usize) == decomposition_of(54, 55));
    reveal_with_fuel(expr::ev, 8);
}

/// What is looked up: every byte column of the table, and nothing else, in one
/// table of 256 values.
pub proof fn law_looked_up(r: LookupRequirements)
    requires
        lookup::declares_bytes(r, byte_ranges()),
    ensures
        r.tables.len() == 1,
        r.tables@[0].size == 256,
        r.declarations.len() == 88,
        forall|k: int|
            0 <= k < 8 ==> {
                let d = #[trigger] r.declarations@[0 + k];
                &&& d.0.column_index == COL_VI_BYTE_OFFSET + k
                &&& d.0.label@ == "vi_byte"@ + "_"@ + label::decimal(k as nat) + "_8bit"@
                &&& d.0.max_bits == 8
                &&& d.0.selector_column is None
                &&& d.1 == 0
            },
        forall|k: int|
            0 <= k < 8 ==> {
                let d = #[trigger] r.declarations@[8 + k];
                &&& d.0.column_index == COL_BALANCE_PRE_BYTE_OFFSET + k
                &&& d.0.label@ == "balance_pre_byte"@ + "_"@ + label::decimal(k as nat) + "_8bit"@
                &&& d.0.max_bits == 8
                &&& d.0.selector_column is None
                &&& d.1 == 0
            },
        forall|k: int|
            0 <= k < 8 ==> {
                let d = #[trigger] r.declarations@[16 + k];
                &&& d.0.column_index == COL_BALANCE_POST_BYTE_OFFSET + k
                &&& d.0.label@ == "balance_post_byte"@ + "_"@ + label::decimal(k as nat) + "_8bit"@
                &&& d.0.max_bits == 8
                &&& d.0.selector_column is None
                &&& d.1 == 0
            },
        forall|k: int|
            0 <= k < 8 ==> {
                let d = #[trigger] r.declarations@[24 + k];
                &&& d.0.column_index == COL_EB_PRE_BYTE_OFFSET + k
                &&& d.0.label@ == "eb_pre_byte"@ + "_"@ + label::decimal(k as nat) + "_8bit"@
                &&& d.0.max_bits == 8
                &&& d.0.selector_column is None
                &&& d.1 == 0
            },
        forall|k: int|
            0 <= k < 8 ==> {
                let d = #[trigger] r.declarations@[32 + k];
                &&& d.0.column_index == COL_EB_POST_BYTE_OFFSET + k
                &&& d.0.label@ == "eb_post_byte"@ + "_"@ + label::decimal(k as nat) + "_8bit"@
                &&& d.0.max_bits == 8
                &&& d.0.selector_column is None
                &&& d.1 == 0
            },
        forall|k: int|
            0 <= k < 8 ==> {
                let d = #[trigger] r.declarations@[40 + k];
                &&& d.0.column_index == COL_REWARDS_BYTE_OFFSET + k
                &&& d.0.label@ == "rewards_byte"@ + "_"@ + label::decimal(k as nat) + "_8bit"@
                &&& d.0.max_bits == 8
                &&& d.0.selector_column is None
                &&& d.1 == 0
            },
        forall|k: int|
            0 <= k < 8 ==> {
                let d = #[trigger] r.declarations@[48 + k];
                &&& d.0.column_index == COL_SLASHING_PENALTY_BYTE_OFFSET + k
                &&& d.0.label@ == "slashing_penalty_byte"@ + "_"@ + label::decimal(k as nat) + "_8bit"@
                &&& d.0.max_bits == 8
                &&& d.0.selector_column is None
                &&& d.1 == 0
            },
        forall|k: int|
            0 <= k < 8 ==> {
                let d = #[trigger] r.declarations@[56 + k];
                &&& d.0.column_index == COL_EB_STEP_COUNT_BYTE_OFFSET + k
                &&& d.0.label@ == "eb_step_count_byte"@ + "_"@ + label::decimal(k as nat) + "_8bit"@
                &&& d.0.max_bits == 8
                &&& d.0.selector_column is None
                &&& d.1 == 0
            },
        forall|k: int|
            0 <= k < 8 ==> {
                let d = #[trigger] r.declarations@[64 + k];
                &&& d.0.column_index == COL_CAP_SLACK_BYTE_OFFSET + k
                &&& d.0.label@ == "cap_slack_byte"@ + "_"@ + label::decimal(k as nat) + "_8bit"@
                &&& d.0.max_bits == 8
                &&& d.0.selector_column is None
                &&& d.1 == 0
            },
        forall|k: int|
            0 <= k < 8 ==> {
                let d = #[trigger] r.declarations@[72 + k];
                &&& d.0.column_index == COL_SLACK_UP_BYTE_OFFSET + k
                &&& d.0.label@ == "slack_up_byte"@ + "_"@ + label::decimal(k as nat) + "_8bit"@
                &&& d.0.max_bits == 8
                &&& d.0.selector_column is None
                &&& d.1 == 0
            },
        forall|k: int|
            0 <= k < 8 ==> {
                let d = #[trigger] r.declarations@[80 + k];
                &&& d.0.column_index == COL_SLACK_DOWN_BYTE_OFFSET + k
                &&& d.0.label@ == "slack_down_byte"@ + "_"@ + label::decimal(k as nat) + "_8bit"@
                &&& d.0.max_bits == 8
                &&& d.0.selector_column is None
                &&& d.1 == 0
            },
{
    reveal_with_fuel(lookup::columns_before, 12);
    assert(lookup::range_declared(r.declarations@, lookup::columns_before(byte_ranges(), 0), byte_ranges()[0]));
    assert(lookup::range_declared(r.declarations@, lookup::columns_before(byte_ranges(), 1), byte_ranges()[1]));
    assert(lookup::range_declared(r.declarations@, lookup::columns_before(byte_ranges(), 2), byte_ranges()[2]));
    assert(lookup::range_declared(r.declarations@, lookup::columns_before(byte_ranges(), 3), byte_ranges()[3]));
    assert(lookup::range_declared(r.declarations@, lookup::columns_before(byte_ranges(), 4), byte_ranges()[4]));
    assert(lookup::range_declared(r.declarations@, lookup::columns_before(byte_ranges(), 5), byte_ranges()[5]));
    assert(lookup::range_declared(r.declarations@, lookup::columns_before(byte_ranges(), 6), byte_ranges()[6]));
    assert(lookup::range_declared(r.declarations@, lookup::columns_before(byte_ranges(), 7), byte_ranges()[7]));
    assert(lookup::range_declared(r.declarations@, lookup::columns_before(byte_ranges(), 8), byte_ranges()[8]));
    assert(lookup::range_declared(r.declarations@, lookup::columns_before(byte_ranges(), 9), byte_ranges()[9]));
    assert(lookup::range_declared(r.declarations@, lookup::columns_before(byte_ranges(), 10), byte_ranges()[10]));
}

} // verus!
