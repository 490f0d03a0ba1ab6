//! Pair hashes of the execution payload header tree: trace, constraints and
//! links.
//!
//! One row per `sha256_pair(left, right) -> hash` invocation of the tree over
//! the 17 field roots, in layers of 9, 5, 3, 2 and 1. Beside the operands and
//! the hash, every row holds the outputs of the tree (root, block hash, roots
//! of logs bloom and extra data) and relays that carry a hash from the row
//! that computes it to the row that uses it.

use crate::beacon_block_header_air::Sha256PairInvocation;
use crate::block_header_air;
use crate::constraints;
use crate::constraints::{binary, minus, plus, rlc, rlc_diff, times};
use crate::cross_air_logup;
use crate::cross_air_logup::{column_run, push_run, CrossAirLogUpDescriptor};
use crate::execution_payload_air;
use crate::execution_payload_air::ExecutionPayloadHeaderHtrWitness;
use crate::expr;
use crate::expr::Expr;
use crate::field;
use crate::field::{CurveType, Scalar};
use crate::label;
use crate::lookup;
use crate::lookup::{byte_declaration, LookupDeclaration, LookupRequirements, LookupTable};
use crate::modular;
use crate::poly_arith;
use crate::poly_arith::{poly_mul, poly_scalar_mul, poly_shift};
use crate::sha256;
use crate::sha256_extract;
use crate::soundness;
use crate::ssz;
use crate::trace;
use crate::trace::{trace_from_rows, TracePolynomials};
use vstd::prelude::*;

verus! {

pub const COL_LEFT_OFFSET: usize = 0;

pub const COL_RIGHT_OFFSET: usize = 32;

pub const COL_HASH_OFFSET: usize = 64;

pub const COL_IS_REAL: usize = 96;

pub const COL_CLAIMED_ROOT_OFFSET: usize = 97;

pub const COL_IS_ROOT_BOUND_AT: usize = 129;

pub const COL_CLAIMED_BLOCK_HASH_OFFSET: usize = 130;

pub const COL_IS_BLOCK_HASH_BOUND_AT: usize = 162;

pub const COL_CLAIMED_LOGS_BLOOM_ROOT_OFFSET: usize = 163;

pub const COL_IS_LOGS_BLOOM_LEAF_BOUND_AT: usize = 195;

pub const COL_CLAIMED_EXTRA_DATA_ROOT_OFFSET: usize = 196;

pub const COL_IS_EXTRA_DATA_LEAF_BOUND_AT: usize = 228;

pub const COL_CLAIMED_LEFT_OFFSET: usize = 229;

pub const COL_CLAIMED_RIGHT_OFFSET: usize = 261;

pub const COL_IS_LAYER_0: usize = 293;

pub const COL_IS_PAIR8: usize = 294;

pub const COL_IS_PAIR13: usize = 295;

pub const COL_IS_PAIR16: usize = 296;

pub const COL_IS_PAIR18: usize = 297;

pub const COL_ZH0_OFFSET: usize = 298;

pub const COL_ZH1_OFFSET: usize = 330;

pub const COL_ZH2_OFFSET: usize = 362;

pub const COL_ZH3_OFFSET: usize = 394;

pub const COL_IS_ROW0: usize = 426;

pub const COL_IS_ROW1: usize = 427;

pub const COL_IS_ROW3: usize = 428;

pub const COL_IS_ROW4: usize = 429;

pub const COL_IS_ROW7: usize = 430;

pub const COL_IS_ROW9: usize = 431;

pub const COL_IS_ROW10: usize = 432;

pub const COL_IS_ROW11: usize = 433;

pub const COL_IS_ROW12: usize = 434;

pub const COL_IS_ROW14: usize = 435;

pub const COL_IS_ROW15: usize = 436;

pub const COL_IS_ROW17: usize = 437;

pub const COL_RELAY_OFFSET: usize = 438;

pub const NUM_RELAYS: usize = 15;

pub const NUM_COLUMNS: usize = 918;

/// The invocation that gives the root.
pub const ROOT_INVOCATION_INDEX: usize = 19;

/// The invocation whose left operand is the block hash.
pub const BLOCK_HASH_LEFT_INVOCATION: usize = 6;

/// The invocation whose left operand is the root of the logs bloom.
pub const LOGS_BLOOM_LEFT_INVOCATION: usize = 2;

/// The invocation whose left operand is the root of the extra data.
pub const EXTRA_DATA_LEFT_INVOCATION: usize = 5;

pub const NUM_ROW_CONSTRAINTS: usize = 62;

pub const NUM_SHIFTED: usize = 20;

/// The number of columns that are also read on the next row.
pub const NUM_SHIFTED_COLUMNS: usize = 642;

// ─── Layout ───────────────────────────────────────────────────────────

/// The column that selects invocation `row`.
pub open spec fn selector_column(row: int) -> usize {
    if row == 0 {
        COL_IS_ROW0
    } else if row == 1 {
        COL_IS_ROW1
    } else if row == 2 {
        COL_IS_LOGS_BLOOM_LEAF_BOUND_AT
    } else if row == 3 {
        COL_IS_ROW3
    } else if row == 4 {
        COL_IS_ROW4
    } else if row == 5 {
        COL_IS_EXTRA_DATA_LEAF_BOUND_AT
    } else if row == 6 {
        COL_IS_BLOCK_HASH_BOUND_AT
    } else if row == 7 {
        COL_IS_ROW7
    } else if row == 8 {
        COL_IS_PAIR8
    } else if row == 9 {
        COL_IS_ROW9
    } else if row == 10 {
        COL_IS_ROW10
    } else if row == 11 {
        COL_IS_ROW11
    } else if row == 12 {
        COL_IS_ROW12
    } else if row == 13 {
        COL_IS_PAIR13
    } else if row == 14 {
        COL_IS_ROW14
    } else if row == 15 {
        COL_IS_ROW15
    } else if row == 16 {
        COL_IS_PAIR16
    } else if row == 17 {
        COL_IS_ROW17
    } else if row == 18 {
        COL_IS_PAIR18
    } else {
        COL_IS_ROOT_BOUND_AT
    }
}

fn selector_column_of(row: usize) -> (r: usize)
    requires
        row < 20,
    ensures
        r == selector_column(row as int),
{
    if row == 0 {
        COL_IS_ROW0
    } else if row == 1 {
        COL_IS_ROW1
    } else if row == 2 {
        COL_IS_LOGS_BLOOM_LEAF_BOUND_AT
    } else if row == 3 {
        COL_IS_ROW3
    } else if row == 4 {
        COL_IS_ROW4
    } else if row == 5 {
        COL_IS_EXTRA_DATA_LEAF_BOUND_AT
    } else if row == 6 {
        COL_IS_BLOCK_HASH_BOUND_AT
    } else if row == 7 {
        COL_IS_ROW7
    } else if row == 8 {
        COL_IS_PAIR8
    } else if row == 9 {
        COL_IS_ROW9
    } else if row == 10 {
        COL_IS_ROW10
    } else if row == 11 {
        COL_IS_ROW11
    } else if row == 12 {
        COL_IS_ROW12
    } else if row == 13 {
        COL_IS_PAIR13
    } else if row == 14 {
        COL_IS_ROW14
    } else if row == 15 {
        COL_IS_ROW15
    } else if row == 16 {
        COL_IS_PAIR16
    } else if row == 17 {
        COL_IS_ROW17
    } else if row == 18 {
        COL_IS_PAIR18
    } else {
        COL_IS_ROOT_BOUND_AT
    }
}

/// The invocation that a selector column selects.
pub open spec fn selected_row(c: int) -> int {
    if c == COL_IS_ROOT_BOUND_AT {
        19
    } else if c == COL_IS_BLOCK_HASH_BOUND_AT {
        6
    } else if c == COL_IS_LOGS_BLOOM_LEAF_BOUND_AT {
        2
    } else if c == COL_IS_EXTRA_DATA_LEAF_BOUND_AT {
        5
    } else if c == COL_IS_PAIR8 {
        8
    } else if c == COL_IS_PAIR13 {
        13
    } else if c == COL_IS_PAIR16 {
        16
    } else if c == COL_IS_PAIR18 {
        18
    } else if c <= COL_IS_ROW1 {
        c - COL_IS_ROW0
    } else if c <= COL_IS_ROW4 {
        c - COL_IS_ROW3 + 3
    } else if c == COL_IS_ROW7 {
        7
    } else if c <= COL_IS_ROW12 {
        c - COL_IS_ROW9 + 9
    } else if c <= COL_IS_ROW15 {
        c - COL_IS_ROW14 + 14
    } else {
        17
    }
}

/// Whether a column selects one invocation.
pub open spec fn selects_row(c: int) -> bool {
    ||| c == COL_IS_ROOT_BOUND_AT
    ||| c == COL_IS_BLOCK_HASH_BOUND_AT
    ||| c == COL_IS_LOGS_BLOOM_LEAF_BOUND_AT
    ||| c == COL_IS_EXTRA_DATA_LEAF_BOUND_AT
    ||| COL_IS_PAIR8 <= c <= COL_IS_PAIR18
    ||| COL_IS_ROW0 <= c <= COL_IS_ROW17
}

fn selected_row_of(c: usize) -> (r: usize)
    requires
        selects_row(c as int),
    ensures
        r == selected_row(c as int),
{
    if c == COL_IS_ROOT_BOUND_AT {
        19
    } else if c == COL_IS_BLOCK_HASH_BOUND_AT {
        6
    } else if c == COL_IS_LOGS_BLOOM_LEAF_BOUND_AT {
        2
    } else if c == COL_IS_EXTRA_DATA_LEAF_BOUND_AT {
        5
    } else if c == COL_IS_PAIR8 {
        8
    } else if c == COL_IS_PAIR13 {
        13
    } else if c == COL_IS_PAIR16 {
        16
    } else if c == COL_IS_PAIR18 {
        18
    } else if c <= COL_IS_ROW1 {
        c - COL_IS_ROW0
    } else if c <= COL_IS_ROW4 {
        c - COL_IS_ROW3 + 3
    } else if c == COL_IS_ROW7 {
        7
    } else if c <= COL_IS_ROW12 {
        c - COL_IS_ROW9 + 9
    } else if c <= COL_IS_ROW15 {
        c - COL_IS_ROW14 + 14
    } else {
        17
    }
}

/// The invocation whose hash relay `idx` carries.
pub open spec fn producer(idx: int) -> int {
    if idx < 8 {
        idx
    } else if idx < 12 {
        idx + 1
    } else if idx < 14 {
        idx + 2
    } else {
        17
    }
}

/// The invocation that uses what relay `idx` carries: as its left operand for
/// even relays, as its right one for odd relays.
pub open spec fn consumer(idx: int) -> int {
    if idx < 8 {
        9 + idx / 2
    } else if idx < 12 {
        14 + (idx - 8) / 2
    } else if idx < 14 {
        17
    } else {
        19
    }
}

fn producer_of(idx: usize) -> (r: usize)
    requires
        idx < 15,
    ensures
        r == producer(idx as int),
{
    if idx < 8 {
        idx
    } else if idx < 12 {
        idx + 1
    } else if idx < 14 {
        idx + 2
    } else {
        17
    }
}

fn consumer_of(idx: usize) -> (r: usize)
    requires
        idx < 15,
    ensures
        r == consumer(idx as int),
{
    if idx < 8 {
        9 + idx / 2
    } else if idx < 12 {
        14 + (idx - 8) / 2
    } else if idx < 14 {
        17
    } else {
        19
    }
}

// ─── Trace ────────────────────────────────────────────────────────────

pub open spec fn bit(b: bool) -> int {
    if b {
        1
    } else {
        0
    }
}

/// Byte `k` of an output of the tree, or zero if its invocation is missing.
pub open spec fn output_byte(present: bool, bytes: Seq<u8>, k: int) -> int {
    if present {
        bytes[k] as int
    } else {
        0
    }
}

/// The cell of invocation `r` in column `c`.
pub open spec fn pair_cell(invocations: Seq<Sha256PairInvocation>, c: int, r: int) -> int {
    let n = invocations.len();
    if c < COL_RIGHT_OFFSET {
        invocations[r].left@[c] as int
    } else if c < COL_HASH_OFFSET {
        invocations[r].right@[c - COL_RIGHT_OFFSET] as int
    } else if c < COL_IS_REAL {
        invocations[r].hash@[c - COL_HASH_OFFSET] as int
    } else if c == COL_IS_REAL {
        1
    } else if selects_row(c) {
        bit(r == selected_row(c))
    } else if c < COL_IS_ROOT_BOUND_AT {
        output_byte(n > 19, invocations[19].hash@, c - COL_CLAIMED_ROOT_OFFSET)
    } else if c < COL_IS_BLOCK_HASH_BOUND_AT {
        output_byte(n > 6, invocations[6].left@, c - COL_CLAIMED_BLOCK_HASH_OFFSET)
    } else if c < COL_IS_LOGS_BLOOM_LEAF_BOUND_AT {
        output_byte(n > 2, invocations[2].left@, c - COL_CLAIMED_LOGS_BLOOM_ROOT_OFFSET)
    } else if c < COL_IS_EXTRA_DATA_LEAF_BOUND_AT {
        output_byte(n > 5, invocations[5].left@, c - COL_CLAIMED_EXTRA_DATA_ROOT_OFFSET)
    } else if c < COL_CLAIMED_RIGHT_OFFSET {
        output_byte(r < 9, invocations[r].left@, c - COL_CLAIMED_LEFT_OFFSET)
    } else if c < COL_IS_LAYER_0 {
        output_byte(r < 9, invocations[r].right@, c - COL_CLAIMED_RIGHT_OFFSET)
    } else if c == COL_IS_LAYER_0 {
        bit(r < 9)
    } else if c < COL_IS_ROW0 {
        ssz::zero_root(((c - COL_ZH0_OFFSET) / 32) as nat)[(c - COL_ZH0_OFFSET) % 32] as int
    } else {
        relay_byte(invocations, (c - COL_RELAY_OFFSET) / 32, (c - COL_RELAY_OFFSET) % 32, r)
    }
}

/// Byte `k` of relay `idx`: the hash of the producer, from its row to that of
/// the consumer.
pub open spec fn relay_byte(
    invocations: Seq<Sha256PairInvocation>,
    idx: int,
    k: int,
    r: int,
) -> int {
    output_byte(producer(idx) <= r <= consumer(idx), invocations[producer(idx)].hash@, k)
}

/// The cells of a list of invocations.
pub open spec fn cells(invocations: Seq<Sha256PairInvocation>) -> spec_fn(int, int) -> int {
    |c: int, r: int| pair_cell(invocations, c, r)
}

fn bit_value(b: bool) -> (r: u64)
    ensures
        r == bit(b),
{
    if b {
        1
    } else {
        0
    }
}

/// The roots of empty subtrees of depth 0 to 3.
fn zero_roots() -> (r: [[u8; 32]; 4])
    ensures
        forall|d: int| 0 <= d < 4 ==> (#[trigger] r@[d])@ == ssz::zero_root(d as nat),
{
    let z0: [u8; 32] = ssz::zero_chunk();
    let z1: [u8; 32] = sha256::sha256_pair(&z0, &z0);
    let z2: [u8; 32] = sha256::sha256_pair(&z1, &z1);
    let z3: [u8; 32] = sha256::sha256_pair(&z2, &z2);
    let r: [[u8; 32]; 4] = [z0, z1, z2, z3];
    assert forall|d: int| 0 <= d < 4 implies (#[trigger] r@[d])@ == ssz::zero_root(d as nat) by {
        assert(ssz::zero_root(0) == z0@);
        assert(ssz::zero_root(1) == z1@);
        assert(ssz::zero_root(2) == z2@);
        assert(ssz::zero_root(3) == z3@);
        assert(d == 0 || d == 1 || d == 2 || d == 3);
    }
    r
}

fn cell_value(
    invocations: &[Sha256PairInvocation],
    zh: &[[u8; 32]; 4],
    r: usize,
    c: usize,
) -> (x: u64)
    requires
        r < invocations.len(),
        c < NUM_COLUMNS,
        forall|d: int| 0 <= d < 4 ==> (#[trigger] zh@[d])@ == ssz::zero_root(d as nat),
    ensures
        x == pair_cell(invocations@, c as int, r as int),
{
    let n: usize = invocations.len();
    if c < COL_RIGHT_OFFSET {
        invocations[r].left[c] as u64
    } else if c < COL_HASH_OFFSET {
        invocations[r].right[c - COL_RIGHT_OFFSET] as u64
    } else if c < COL_IS_REAL {
        invocations[r].hash[c - COL_HASH_OFFSET] as u64
    } else if c == COL_IS_REAL {
        1
    } else if c == COL_IS_ROOT_BOUND_AT || c == COL_IS_BLOCK_HASH_BOUND_AT || c
        == COL_IS_LOGS_BLOOM_LEAF_BOUND_AT || c == COL_IS_EXTRA_DATA_LEAF_BOUND_AT || (COL_IS_PAIR8
        <= c && c <= COL_IS_PAIR18) || (COL_IS_ROW0 <= c && c <= COL_IS_ROW17) {
        bit_value(r == selected_row_of(c))
    } else if c < COL_IS_ROOT_BOUND_AT {
        if n > ROOT_INVOCATION_INDEX {
            invocations[ROOT_INVOCATION_INDEX].hash[c - COL_CLAIMED_ROOT_OFFSET] as u64
        } else {
            0
        }
    } else if c < COL_IS_BLOCK_HASH_BOUND_AT {
        if n > BLOCK_HASH_LEFT_INVOCATION {
            invocations[BLOCK_HASH_LEFT_INVOCATION].left[c - COL_CLAIMED_BLOCK_HASH_OFFSET] as u64
        } else {
            0
        }
    } else if c < COL_IS_LOGS_BLOOM_LEAF_BOUND_AT {
        if n > LOGS_BLOOM_LEFT_INVOCATION {
            invocations[LOGS_BLOOM_LEFT_INVOCATION].left[c
                - COL_CLAIMED_LOGS_BLOOM_ROOT_OFFSET] as u64
        } else {
            0
        }
    } else if c < COL_IS_EXTRA_DATA_LEAF_BOUND_AT {
        if n > EXTRA_DATA_LEFT_INVOCATION {
            invocations[EXTRA_DATA_LEFT_INVOCATION].left[c
                - COL_CLAIMED_EXTRA_DATA_ROOT_OFFSET] as u64
        } else {
            0
        }
    } else if c < COL_CLAIMED_RIGHT_OFFSET {
        if r < 9 {
            invocations[r].left[c - COL_CLAIMED_LEFT_OFFSET] as u64
        } else {
            0
        }
    } else if c < COL_IS_LAYER_0 {
        if r < 9 {
            invocations[r].right[c - COL_CLAIMED_RIGHT_OFFSET] as u64
        } else {
            0
        }
    } else if c == COL_IS_LAYER_0 {
        bit_value(r < 9)
    } else if c < COL_IS_ROW0 {
        let d: usize = (c - COL_ZH0_OFFSET) / 32;
        let k: usize = (c - COL_ZH0_OFFSET) % 32;
        assert(zh@[d as int]@ == ssz::zero_root(d as nat));
        zh[d][k] as u64
    } else {
        let idx: usize = (c - COL_RELAY_OFFSET) / 32;
        let k: usize = (c - COL_RELAY_OFFSET) % 32;
        let from: usize = producer_of(idx);
        if from <= r && r <= consumer_of(idx) {
            invocations[from].hash[k] as u64
        } else {
            0
        }
    }
}

fn row_scalars(
    invocations: &[Sha256PairInvocation],
    zh: &[[u8; 32]; 4],
    r: usize,
    curve: CurveType,
) -> (v: Vec<Scalar>)
    requires
        r < invocations.len(),
        forall|d: int| 0 <= d < 4 ==> (#[trigger] zh@[d])@ == ssz::zero_root(d as nat),
    ensures
        v.len() == NUM_COLUMNS,
        forall|c: int|
            0 <= c < NUM_COLUMNS ==> (#[trigger] v@[c]).curve() == curve && v@[c]@ == pair_cell(
                invocations@,
                c,
                r as int,
            ),
{
    let mut v: Vec<Scalar> = Vec::with_capacity(NUM_COLUMNS);
    let mut c: usize = 0;
    while c < NUM_COLUMNS
        invariant
            c <= NUM_COLUMNS,
            r < invocations.len(),
            forall|d: int| 0 <= d < 4 ==> (#[trigger] zh@[d])@ == ssz::zero_root(d as nat),
            v.len() == c,
            forall|k: int|
                0 <= k < c ==> (#[trigger] v@[k]).curve() == curve && v@[k]@ == pair_cell(
                    invocations@,
                    k,
                    r as int,
                ),
        decreases NUM_COLUMNS - c,
    {
        v.push(Scalar::from_u64(cell_value(invocations, zh, r, c), curve));
        c = c + 1;
    }
    v
}

/// The trace of a payload's invocations.
pub fn build_trace_polynomials(
    witness: &ExecutionPayloadHeaderHtrWitness,
    curve: CurveType,
) -> (t: TracePolynomials)
    ensures
        trace::holds(t, NUM_COLUMNS as nat, 20, curve, cells(witness.invocations@)),
{
    build_trace_polynomials_from_invocations(witness.invocations.as_slice(), curve)
}

/// The trace of a list of invocations.
pub fn build_trace_polynomials_from_invocations(
    invocations: &[Sha256PairInvocation],
    curve: CurveType,
) -> (t: TracePolynomials)
    requires
        trace::paddable(invocations.len() as nat),
    ensures
        trace::holds(
            t,
            NUM_COLUMNS as nat,
            invocations.len() as nat,
            curve,
            cells(invocations@),
        ),
{
    let n: usize = invocations.len();
    let zh: [[u8; 32]; 4] = zero_roots();
    let mut rows: Vec<Vec<Scalar>> = Vec::with_capacity(n);
    let ghost cell = cells(invocations@);
    let mut i: usize = 0;
    while i < n
        invariant
            i <= n,
            n == invocations.len(),
            forall|d: int| 0 <= d < 4 ==> (#[trigger] zh@[d])@ == ssz::zero_root(d as nat),
            cell == cells(invocations@),
            rows.len() == i,
            trace::rows_hold(rows@, NUM_COLUMNS as nat, curve, cell),
        decreases n - i,
    {
        let ghost before = rows@;
        rows.push(row_scalars(invocations, &zh, i, curve));
        assert(forall|k: int| 0 <= k < i ==> rows@[k] == before[k]);
        i = i + 1;
    }
    trace_from_rows(&rows, NUM_COLUMNS, curve, Ghost(cell))
}

// ─── Constraints on a row ─────────────────────────────────────────────

/// Whether constraint `i` says that a selector is a bit; the others say that
/// two runs of 32 columns are equal where a selector is set.
pub open spec fn is_bit_constraint(i: int) -> bool {
    i == 0 || i == 1 || i == 3 || i == 5 || i == 7 || i == 9 || 12 <= i < 16 || 20 <= i < 32
}

/// The relay of constraint `i`.
pub open spec fn relay_of(i: int) -> int {
    (i - 32) / 2
}

/// The selector of constraint `i`.
pub open spec fn constraint_selector(i: int) -> usize {
    if i == 0 {
        COL_IS_REAL
    } else if i <= 2 {
        COL_IS_ROOT_BOUND_AT
    } else if i <= 4 {
        COL_IS_BLOCK_HASH_BOUND_AT
    } else if i <= 6 {
        COL_IS_LOGS_BLOOM_LEAF_BOUND_AT
    } else if i <= 8 {
        COL_IS_EXTRA_DATA_LEAF_BOUND_AT
    } else if i <= 11 {
        COL_IS_LAYER_0
    } else if i < 16 {
        (COL_IS_PAIR8 + (i - 12)) as usize
    } else if i < 20 {
        (COL_IS_PAIR8 + (i - 16)) as usize
    } else if i < 32 {
        (COL_IS_ROW0 + (i - 20)) as usize
    } else if i % 2 == 0 {
        selector_column(producer(relay_of(i)))
    } else {
        selector_column(consumer(relay_of(i)))
    }
}

/// The first columns of the two runs of constraint `i`: root, block hash,
/// logs bloom, extra data, leaves, empty subtrees, and what goes into and
/// comes out of the relays.
pub open spec fn constraint_runs(i: int) -> (usize, usize) {
    if i == 2 {
        (COL_HASH_OFFSET, COL_CLAIMED_ROOT_OFFSET)
    } else if i == 4 {
        (COL_LEFT_OFFSET, COL_CLAIMED_BLOCK_HASH_OFFSET)
    } else if i == 6 {
        (COL_LEFT_OFFSET, COL_CLAIMED_LOGS_BLOOM_ROOT_OFFSET)
    } else if i == 8 {
        (COL_LEFT_OFFSET, COL_CLAIMED_EXTRA_DATA_ROOT_OFFSET)
    } else if i == 10 {
        (COL_LEFT_OFFSET, COL_CLAIMED_LEFT_OFFSET)
    } else if i == 11 {
        (COL_RIGHT_OFFSET, COL_CLAIMED_RIGHT_OFFSET)
    } else if i < 20 {
        (COL_RIGHT_OFFSET, (COL_ZH0_OFFSET + 32 * (i - 16)) as usize)
    } else {
        let relay = (COL_RELAY_OFFSET + 32 * relay_of(i)) as usize;
        if i % 2 == 0 {
            (relay, COL_HASH_OFFSET)
        } else if relay_of(i) % 2 == 0 {
            (COL_LEFT_OFFSET, relay)
        } else {
            (COL_RIGHT_OFFSET, relay)
        }
    }
}

pub open spec fn constraint_at(i: int) -> Expr {
    let s = constraint_selector(i);
    if is_bit_constraint(i) {
        constraints::binary_of(s)
    } else {
        let (a, b) = constraint_runs(i);
        constraints::mul_of(Expr::Col(s), constraints::rlc_diff_of(a, b, 32))
    }
}

/// The constraints on a row.
pub open spec fn row_constraints() -> Seq<Expr> {
    Seq::new(NUM_ROW_CONSTRAINTS as nat, |i: int| constraint_at(i))
}

fn constraint_selector_of(i: usize) -> (r: usize)
    requires
        i < NUM_ROW_CONSTRAINTS,
    ensures
        r == constraint_selector(i as int),
{
    if i == 0 {
        COL_IS_REAL
    } else if i <= 2 {
        COL_IS_ROOT_BOUND_AT
    } else if i <= 4 {
        COL_IS_BLOCK_HASH_BOUND_AT
    } else if i <= 6 {
        COL_IS_LOGS_BLOOM_LEAF_BOUND_AT
    } else if i <= 8 {
        COL_IS_EXTRA_DATA_LEAF_BOUND_AT
    } else if i <= 11 {
        COL_IS_LAYER_0
    } else if i < 16 {
        COL_IS_PAIR8 + (i - 12)
    } else if i < 20 {
        COL_IS_PAIR8 + (i - 16)
    } else if i < 32 {
        COL_IS_ROW0 + (i - 20)
    } else if i % 2 == 0 {
        selector_column_of(producer_of((i - 32) / 2))
    } else {
        selector_column_of(consumer_of((i - 32) / 2))
    }
}

fn constraint_runs_of(i: usize) -> (r: (usize, usize))
    requires
        i < NUM_ROW_CONSTRAINTS,
        !is_bit_constraint(i as int),
    ensures
        r == constraint_runs(i as int),
{
    if i == 2 {
        (COL_HASH_OFFSET, COL_CLAIMED_ROOT_OFFSET)
    } else if i == 4 {
        (COL_LEFT_OFFSET, COL_CLAIMED_BLOCK_HASH_OFFSET)
    } else if i == 6 {
        (COL_LEFT_OFFSET, COL_CLAIMED_LOGS_BLOOM_ROOT_OFFSET)
    } else if i == 8 {
        (COL_LEFT_OFFSET, COL_CLAIMED_EXTRA_DATA_ROOT_OFFSET)
    } else if i == 10 {
        (COL_LEFT_OFFSET, COL_CLAIMED_LEFT_OFFSET)
    } else if i == 11 {
        (COL_RIGHT_OFFSET, COL_CLAIMED_RIGHT_OFFSET)
    } else if i < 20 {
        (COL_RIGHT_OFFSET, COL_ZH0_OFFSET + 32 * (i - 16))
    } else {
        let relay: usize = COL_RELAY_OFFSET + 32 * ((i - 32) / 2);
        if i % 2 == 0 {
            (relay, COL_HASH_OFFSET)
        } else if (i - 32) / 2 % 2 == 0 {
            (COL_LEFT_OFFSET, relay)
        } else {
            (COL_RIGHT_OFFSET, relay)
        }
    }
}

proof fn lemma_constraint_bounds(i: int)
    requires
        0 <= i < NUM_ROW_CONSTRAINTS,
    ensures
        constraint_selector(i) < NUM_COLUMNS,
        !is_bit_constraint(i) ==> constraint_runs(i).0 + 32 <= NUM_COLUMNS,
        !is_bit_constraint(i) ==> constraint_runs(i).1 + 32 <= NUM_COLUMNS,
{
}

fn constraint_list() -> (r: Vec<Expr>)
    ensures
        r@ == row_constraints(),
        constraints::well_formed(r@, NUM_COLUMNS as nat, 0),
{
    let mut r: Vec<Expr> = Vec::with_capacity(NUM_ROW_CONSTRAINTS);
    let mut i: usize = 0;
    while i < NUM_ROW_CONSTRAINTS
        invariant
            i <= NUM_ROW_CONSTRAINTS,
            r.len() == i,
            forall|k: int| 0 <= k < i ==> #[trigger] r@[k] == constraint_at(k),
        decreases NUM_ROW_CONSTRAINTS - i,
    {
        let s: usize = constraint_selector_of(i);
        if i == 0 || i == 1 || i == 3 || i == 5 || i == 7 || i == 9 || (12 <= i && i < 16) || (20
            <= i && i < 32) {
            r.push(binary(s));
        } else {
            let (a, b): (usize, usize) = constraint_runs_of(i);
            proof {
                lemma_constraint_bounds(i as int);
            }
            r.push(times(Expr::Col(s), rlc_diff(a, b, 32)));
        }
        i = i + 1;
    }
    assert(r@ =~= row_constraints());
    proof {
        lemma_well_formed();
    }
    r
}

proof fn lemma_well_formed()
    ensures
        constraints::well_formed(row_constraints(), NUM_COLUMNS as nat, 0),
{
    let n = NUM_COLUMNS as nat;
    let es = row_constraints();
    assert forall|i: int| 0 <= i < es.len() implies {
        &&& expr::within(#[trigger] es[i], n, 0)
        &&& expr::compound(es[i])
        &&& expr::degree(es[i]) <= 3
    } by {
        lemma_constraint_bounds(i);
        if is_bit_constraint(i) {
            constraints::lemma_fits_binary(constraint_selector(i), n, 0);
        } else {
            let (a, b) = constraint_runs(i);
            constraints::lemma_fits_rlc_diff(a, b, 32, n, 0);
            reveal_with_fuel(expr::within, 2);
            reveal_with_fuel(expr::degree, 2);
        }
    }
}

// ─── What the constraints say ─────────────────────────────────────────

/// The operand that relay `idx` ends in.
pub open spec fn relay_operand(invocations: Seq<Sha256PairInvocation>, idx: int) -> Seq<u8> {
    if idx % 2 == 0 {
        invocations[consumer(idx)].left@
    } else {
        invocations[consumer(idx)].right@
    }
}

/// Twenty invocations in which the hashes of one layer are operands of the
/// next, and empty subtrees stand beside the odd last nodes.
pub open spec fn chained(invocations: Seq<Sha256PairInvocation>) -> bool {
    &&& invocations.len() == 20
    &&& invocations[8].right@ == ssz::zero_root(0)
    &&& invocations[13].right@ == ssz::zero_root(1)
    &&& invocations[16].right@ == ssz::zero_root(2)
    &&& invocations[18].right@ == ssz::zero_root(3)
    &&& invocations[19].right@ == invocations[18].hash@
    &&& forall|idx: int|
        0 <= idx < 15 ==> #[trigger] relay_operand(invocations, idx) == invocations[producer(
            idx,
        )].hash@
}

/// The invocations of a payload are chained.
pub proof fn law_payload_invocations_chained(w: ExecutionPayloadHeaderHtrWitness)
    requires
        w.is_witness(),
    ensures
        chained(w.invocations@),
{
    let v = w.invocations@;
    execution_payload_air::law_layers_chain(w, 0, 8);
    execution_payload_air::law_layers_chain(w, 1, 4);
    execution_payload_air::law_layers_chain(w, 2, 2);
    execution_payload_air::law_layers_chain(w, 3, 1);
    execution_payload_air::law_layers_chain(w, 4, 0);
    assert forall|idx: int| 0 <= idx < 15 implies #[trigger] relay_operand(v, idx) == v[producer(
        idx,
    )].hash@ by {
        if idx < 8 {
            execution_payload_air::law_layers_chain(w, 1, idx / 2);
        } else if idx < 12 {
            execution_payload_air::law_layers_chain(w, 2, (idx - 8) / 2);
        } else if idx < 14 {
            execution_payload_air::law_layers_chain(w, 3, 0);
        }
    }
}

proof fn lemma_selected(row: int)
    requires
        0 <= row < 20,
    ensures
        selects_row(selector_column(row) as int),
        selected_row(selector_column(row) as int) == row,
{
}

/// The two runs of an equality agree where its selector is set.
proof fn lemma_runs_agree(invocations: Seq<Sha256PairInvocation>, i: int, r: int, k: int)
    requires
        chained(invocations),
        0 <= i < NUM_ROW_CONSTRAINTS,
        !is_bit_constraint(i),
        0 <= r < 20,
        pair_cell(invocations, constraint_selector(i) as int, r) != 0,
        0 <= k < 32,
    ensures
        pair_cell(invocations, constraint_runs(i).0 + k, r) == pair_cell(
            invocations,
            constraint_runs(i).1 + k,
            r,
        ),
{
    if i >= 32 {
        let idx = relay_of(i);
        let c = COL_RELAY_OFFSET + 32 * idx + k;
        assert((c - COL_RELAY_OFFSET) / 32 == idx && (c - COL_RELAY_OFFSET) % 32 == k);
        assert(pair_cell(invocations, c, r) == relay_byte(invocations, idx, k, r));
        lemma_selected(producer(idx));
        lemma_selected(consumer(idx));
        assert(relay_operand(invocations, idx) == invocations[producer(idx)].hash@);
    } else if i >= 16 {
        let d = i - 16;
        let c = COL_ZH0_OFFSET + 32 * d + k;
        assert((c - COL_ZH0_OFFSET) / 32 == d && (c - COL_ZH0_OFFSET) % 32 == k);
        assert(d == 0 || d == 1 || d == 2 || d == 3);
        assert(pair_cell(invocations, c, r) == ssz::zero_root(d as nat)[k]);
    }
}

/// The columns of a trace of this width can be read by the constraints.
pub proof fn law_trace_readable(
    t: TracePolynomials,
    columns: Seq<&Vec<Scalar>>,
    rows: nat,
    curve: CurveType,
    cell: spec_fn(int, int) -> int,
)
    requires
        trace::holds(t, NUM_COLUMNS as nat, rows, curve, cell),
        trace::columns_of(t, columns),
    ensures
        columns.len() >= NUM_COLUMNS,
        constraints::domain_readable(row_constraints(), columns),
{
    lemma_well_formed();
    constraints::lemma_trace_readable(
        row_constraints(),
        t,
        columns,
        NUM_COLUMNS as nat,
        rows,
        curve,
        cell,
    );
}

/// Every constraint on a row vanishes on every row of the trace of chained
/// invocations, padding included.
pub proof fn law_honest_trace_vanishes(
    invocations: Seq<Sha256PairInvocation>,
    t: TracePolynomials,
    columns: Seq<&Vec<Scalar>>,
    curve: CurveType,
    r: int,
    i: int,
    ch: int,
)
    requires
        trace::holds(t, NUM_COLUMNS as nat, invocations.len(), curve, cells(invocations)),
        trace::columns_of(t, columns),
        chained(invocations),
        0 <= r < trace::padded_length(invocations.len()),
        0 <= i < NUM_ROW_CONSTRAINTS,
    ensures
        expr::ev(row_constraints()[i], expr::row_values(columns, r), Seq::empty(), ch) == 0,
{
    let n = invocations.len();
    let cell = cells(invocations);
    trace::lemma_trace_rows(t, columns, NUM_COLUMNS as nat, n, curve, cell, r);
    let row = trace::row_of(NUM_COLUMNS as nat, n, cell, r);
    let e = Seq::<int>::empty();
    let s = constraint_selector(i);
    lemma_constraint_bounds(i);
    if is_bit_constraint(i) {
        constraints::lemma_binary_vanishes(s, row, e, ch);
    } else {
        let (a, b) = constraint_runs(i);
        constraints::lemma_ev_gated(s, constraints::rlc_diff_of(a, b, 32), row, e, ch);
        if row[s as int] != 0 {
            assert forall|k: int| 0 <= k < 32 implies row[#[trigger] (a + k)] == row[b + k] by {
                lemma_runs_agree(invocations, i, r, k);
            }
            constraints::lemma_rlc_diff_vanishes(a, b, 32, row, e, ch);
        }
    }
}

// ─── Constraints on two rows ──────────────────────────────────────────

/// Entry `k` of the columns that are also read on the next row.
pub open spec fn shifted_column(k: int) -> int {
    if k == 0 {
        COL_IS_REAL as int
    } else if k < 33 {
        COL_CLAIMED_ROOT_OFFSET + (k - 1)
    } else if k < 65 {
        COL_CLAIMED_BLOCK_HASH_OFFSET + (k - 33)
    } else if k < 97 {
        COL_CLAIMED_LOGS_BLOOM_ROOT_OFFSET + (k - 65)
    } else if k < 129 {
        COL_CLAIMED_EXTRA_DATA_ROOT_OFFSET + (k - 97)
    } else if k == 129 {
        COL_IS_ROOT_BOUND_AT as int
    } else if k < 162 {
        COL_RIGHT_OFFSET + (k - 130)
    } else {
        COL_RELAY_OFFSET + (k - 162)
    }
}

fn shifted_column_of(k: usize) -> (r: usize)
    requires
        k < NUM_SHIFTED_COLUMNS,
    ensures
        r == shifted_column(k as int),
        r < NUM_COLUMNS,
{
    if k == 0 {
        COL_IS_REAL
    } else if k < 33 {
        COL_CLAIMED_ROOT_OFFSET + (k - 1)
    } else if k < 65 {
        COL_CLAIMED_BLOCK_HASH_OFFSET + (k - 33)
    } else if k < 97 {
        COL_CLAIMED_LOGS_BLOOM_ROOT_OFFSET + (k - 65)
    } else if k < 129 {
        COL_CLAIMED_EXTRA_DATA_ROOT_OFFSET + (k - 97)
    } else if k == 129 {
        COL_IS_ROOT_BOUND_AT
    } else if k < 162 {
        COL_RIGHT_OFFSET + (k - 130)
    } else {
        COL_RELAY_OFFSET + (k - 162)
    }
}

/// The sum of the selectors of invocations `from..to`.
pub open spec fn window_of(from: int, to: int) -> Expr
    decreases to - from,
{
    if to <= from {
        Expr::Const(0)
    } else {
        constraints::add_of(window_of(from, to - 1), Expr::Col(selector_column(to - 1)))
    }
}

fn window(from: usize, to: usize) -> (r: Expr)
    requires
        from <= to <= 20,
    ensures
        r == window_of(from as int, to as int),
{
    let mut acc: Expr = Expr::Const(0);
    let mut k: usize = from;
    while k < to
        invariant
            from <= k <= to,
            to <= 20,
            acc == window_of(from as int, k as int),
        decreases to - k,
    {
        acc = plus(acc, Expr::Col(selector_column_of(k)));
        k = k + 1;
    }
    acc
}

/// The 32 differences between entries on the next row and columns on this
/// one.
pub open spec fn steps_of(next: usize, col: usize) -> Seq<Expr> {
    Seq::new(
        32,
        |k: int|
            constraints::sub_of(Expr::Next((next + k) as usize), Expr::Col((col + k) as usize)),
    )
}

fn steps(next: usize, col: usize) -> (r: Expr)
    requires
        next + 32 <= NUM_SHIFTED_COLUMNS,
        col + 32 <= NUM_COLUMNS,
    ensures
        r == constraints::rlc_of(steps_of(next, col)),
{
    let mut terms: Vec<Expr> = Vec::with_capacity(32);
    let mut k: usize = 0;
    while k < 32
        invariant
            k <= 32,
            next + 32 <= NUM_SHIFTED_COLUMNS,
            col + 32 <= NUM_COLUMNS,
            terms.len() == k,
            forall|j: int| 0 <= j < k ==> #[trigger] terms@[j] == steps_of(next, col)[j],
        decreases 32 - k,
    {
        terms.push(minus(Expr::Next(next + k), Expr::Col(col + k)));
        k = k + 1;
    }
    assert(terms@ =~= steps_of(next, col));
    rlc(terms)
}

/// What two-row constraint `i` compares: the first entry on the next row and
/// the first column on this one.
pub open spec fn shifted_runs(i: int) -> (usize, usize) {
    if i == 0 {
        (1, COL_CLAIMED_ROOT_OFFSET)
    } else if i == 1 {
        (33, COL_CLAIMED_BLOCK_HASH_OFFSET)
    } else if i == 2 {
        (65, COL_CLAIMED_LOGS_BLOOM_ROOT_OFFSET)
    } else if i == 3 {
        (97, COL_CLAIMED_EXTRA_DATA_ROOT_OFFSET)
    } else if i == 4 {
        (130, COL_HASH_OFFSET)
    } else {
        ((162 + 32 * (i - 5)) as usize, (COL_RELAY_OFFSET + 32 * (i - 5)) as usize)
    }
}

/// Where two-row constraint `i` counts: the outputs between real rows, the
/// last right operand after invocation 18, a relay from producer to consumer.
pub open spec fn shifted_gate(i: int) -> Expr {
    if i < 4 {
        constraints::mul_of(Expr::Col(COL_IS_REAL), Expr::Next(0))
    } else if i == 4 {
        Expr::Col(COL_IS_PAIR18)
    } else {
        window_of(producer(i - 5), consumer(i - 5))
    }
}

pub open spec fn shifted_constraint_at(i: int) -> Expr {
    let (next, col) = shifted_runs(i);
    constraints::mul_of(shifted_gate(i), constraints::rlc_of(steps_of(next, col)))
}

/// The constraints on a row and the next one: outputs and relays stay, and
/// the last right operand is the hash before it.
pub open spec fn shifted_constraints() -> Seq<Expr> {
    Seq::new(NUM_SHIFTED as nat, |i: int| shifted_constraint_at(i))
}

fn shifted_constraint_list() -> (r: Vec<Expr>)
    ensures
        r@ == shifted_constraints(),
        constraints::well_formed(r@, NUM_COLUMNS as nat, NUM_SHIFTED_COLUMNS as nat),
{
    let mut r: Vec<Expr> = Vec::with_capacity(NUM_SHIFTED);
    let mut i: usize = 0;
    while i < NUM_SHIFTED
        invariant
            i <= NUM_SHIFTED,
            r.len() == i,
            forall|k: int| 0 <= k < i ==> #[trigger] r@[k] == shifted_constraint_at(k),
        decreases NUM_SHIFTED - i,
    {
        let (next, col): (usize, usize) = if i == 0 {
            (1, COL_CLAIMED_ROOT_OFFSET)
        } else if i == 1 {
            (33, COL_CLAIMED_BLOCK_HASH_OFFSET)
        } else if i == 2 {
            (65, COL_CLAIMED_LOGS_BLOOM_ROOT_OFFSET)
        } else if i == 3 {
            (97, COL_CLAIMED_EXTRA_DATA_ROOT_OFFSET)
        } else if i == 4 {
            (130, COL_HASH_OFFSET)
        } else {
            (162 + 32 * (i - 5), COL_RELAY_OFFSET + 32 * (i - 5))
        };
        let gate: Expr = if i < 4 {
            times(Expr::Col(COL_IS_REAL), Expr::Next(0))
        } else if i == 4 {
            Expr::Col(COL_IS_PAIR18)
        } else {
            window(producer_of(i - 5), consumer_of(i - 5))
        };
        r.push(times(gate, steps(next, col)));
        i = i + 1;
    }
    assert(r@ =~= shifted_constraints());
    proof {
        lemma_shifted_well_formed();
    }
    r
}

proof fn lemma_window_fits(from: int, to: int)
    requires
        0 <= from,
        to <= 20,
    ensures
        constraints::fits(
            window_of(from, to),
            NUM_COLUMNS as nat,
            NUM_SHIFTED_COLUMNS as nat,
            1,
        ),
    decreases to - from,
{
    if to > from {
        lemma_window_fits(from, to - 1);
        reveal_with_fuel(expr::within, 2);
        reveal_with_fuel(expr::degree, 2);
    }
}

proof fn lemma_shifted_well_formed()
    ensures
        constraints::well_formed(
            shifted_constraints(),
            NUM_COLUMNS as nat,
            NUM_SHIFTED_COLUMNS as nat,
        ),
{
    let (n, m) = (NUM_COLUMNS as nat, NUM_SHIFTED_COLUMNS as nat);
    let es = shifted_constraints();
    assert forall|i: int| 0 <= i < es.len() implies {
        &&& expr::within(#[trigger] es[i], n, m)
        &&& expr::compound(es[i])
        &&& expr::degree(es[i]) <= 3
    } by {
        let (next, col) = shifted_runs(i);
        let ts = steps_of(next, col);
        assert forall|k: int| 0 <= k < ts.len() implies constraints::fits(
            #[trigger] ts[k],
            n,
            m,
            1,
        ) by {
            reveal_with_fuel(expr::within, 2);
            reveal_with_fuel(expr::degree, 2);
        }
        constraints::lemma_fits_rlc(ts, n, m, 1);
        if i >= 5 {
            lemma_window_fits(producer(i - 5), consumer(i - 5));
        }
        assert(constraints::fits(shifted_gate(i), n, m, 2)) by {
            if i < 5 {
                reveal_with_fuel(expr::within, 2);
                reveal_with_fuel(expr::degree, 2);
            }
        }
        assert(expr::degree(es[i]) == expr::degree(shifted_gate(i)) + expr::degree(
            constraints::rlc_of(ts),
        ));
        assert(expr::within(es[i], n, m) == (expr::within(shifted_gate(i), n, m) && expr::within(
            constraints::rlc_of(ts),
            n,
            m,
        )));
    }
}

/// The entries that a row hands to the constraints on the row before it.
pub open spec fn next_values(row: Seq<int>) -> Seq<int> {
    Seq::new(NUM_SHIFTED_COLUMNS as nat, |k: int| row[shifted_column(k)])
}

/// Outside its window no selector of the window is set.
proof fn lemma_window_vanishes(
    from: int,
    to: int,
    row: Seq<int>,
    next: Seq<int>,
    ch: int,
)
    requires
        0 <= from,
        to <= 20,
        forall|x: int| from <= x < to ==> row[#[trigger] selector_column(x) as int] == 0,
    ensures
        expr::ev(window_of(from, to), row, next, ch) == 0,
    decreases to - from,
{
    if to > from {
        lemma_window_vanishes(from, to - 1, row, next, ch);
        assert(row[selector_column(to - 1) as int] == 0);
        assert(expr::ev(Expr::Col(selector_column(to - 1)), row, next, ch) == 0);
    }
}

proof fn lemma_steps_vanish(
    next_at: usize,
    col: usize,
    row: Seq<int>,
    next: Seq<int>,
    ch: int,
)
    requires
        next_at + 32 <= NUM_SHIFTED_COLUMNS,
        col + 32 <= NUM_COLUMNS,
        forall|k: int| 0 <= k < 32 ==> next[next_at + k] == row[#[trigger] (col + k)],
    ensures
        expr::ev(constraints::rlc_of(steps_of(next_at, col)), row, next, ch) == 0,
{
    let ts = steps_of(next_at, col);
    assert forall|k: int| 0 <= k < ts.len() implies expr::ev(#[trigger] ts[k], row, next, ch)
        == 0 by {
        assert(next[next_at + k] == row[col + k]);
        reveal_with_fuel(expr::ev, 2);
    }
    constraints::lemma_rlc_vanishes(ts, row, next, ch);
}

/// Every constraint on two rows vanishes on every row but the last of the
/// trace of chained invocations.
pub proof fn law_honest_steps_vanish(
    invocations: Seq<Sha256PairInvocation>,
    t: TracePolynomials,
    columns: Seq<&Vec<Scalar>>,
    curve: CurveType,
    r: int,
    i: int,
    ch: int,
)
    requires
        trace::holds(t, NUM_COLUMNS as nat, invocations.len(), curve, cells(invocations)),
        trace::columns_of(t, columns),
        chained(invocations),
        0 <= r,
        r + 1 < trace::padded_length(invocations.len()),
        0 <= i < NUM_SHIFTED,
    ensures
        expr::ev(
            shifted_constraints()[i],
            expr::row_values(columns, r),
            next_values(expr::row_values(columns, r + 1)),
            ch,
        ) == 0,
{
    let n = invocations.len();
    let cell = cells(invocations);
    trace::lemma_trace_rows(t, columns, NUM_COLUMNS as nat, n, curve, cell, r);
    trace::lemma_trace_rows(t, columns, NUM_COLUMNS as nat, n, curve, cell, r + 1);
    let row = trace::row_of(NUM_COLUMNS as nat, n, cell, r);
    let after = trace::row_of(NUM_COLUMNS as nat, n, cell, r + 1);
    let next = next_values(after);
    let (next_at, col) = shifted_runs(i);
    let body = constraints::rlc_of(steps_of(next_at, col));
    let (g, b) = (expr::ev(shifted_gate(i), row, next, ch), expr::ev(body, row, next, ch));
    assert(expr::ev(shifted_constraints()[i], row, next, ch) == g * b);
    if i < 4 {
        assert(g == row[COL_IS_REAL as int] * next[0]) by {
            reveal_with_fuel(expr::ev, 2);
        }
        assert(next[0] == after[COL_IS_REAL as int]);
        if r + 1 < 20 {
            assert forall|k: int| 0 <= k < 32 implies next[next_at + k] == row[#[trigger] (col
                + k)] by {
                assert(shifted_column(next_at + k) == col + k);
            }
            lemma_steps_vanish(next_at, col, row, next, ch);
        } else {
            assert(g == 0) by (nonlinear_arith)
                requires
                    g == row[COL_IS_REAL as int] * next[0],
                    next[0] == 0,
            ;
        }
    } else if i == 4 {
        assert(g == row[COL_IS_PAIR18 as int]);
        if r == 18 {
            assert forall|k: int| 0 <= k < 32 implies next[next_at + k] == row[#[trigger] (col
                + k)] by {
                assert(shifted_column(next_at + k) == COL_RIGHT_OFFSET + k);
                assert(after[COL_RIGHT_OFFSET + k] == pair_cell(
                    invocations,
                    COL_RIGHT_OFFSET + k,
                    19,
                ));
            }
            lemma_steps_vanish(next_at, col, row, next, ch);
        } else {
            assert(g == 0);
        }
    } else {
        let idx = i - 5;
        if producer(idx) <= r < consumer(idx) {
            assert forall|k: int| 0 <= k < 32 implies next[next_at + k] == row[#[trigger] (col
                + k)] by {
                let c = COL_RELAY_OFFSET + 32 * idx + k;
                assert(shifted_column(next_at + k) == c);
                assert((c - COL_RELAY_OFFSET) / 32 == idx && (c - COL_RELAY_OFFSET) % 32 == k);
                assert(row[c] == relay_byte(invocations, idx, k, r));
                assert(after[c] == relay_byte(invocations, idx, k, r + 1));
            }
            lemma_steps_vanish(next_at, col, row, next, ch);
        } else {
            assert forall|x: int| producer(idx) <= x < consumer(idx) implies row[
            #[trigger] selector_column(x) as int] == 0 by {
                lemma_selected(x);
            }
            lemma_window_vanishes(producer(idx), consumer(idx), row, next, ch);
        }
    }
    assert(g * b == 0) by (nonlinear_arith)
        requires
            g == 0 || b == 0,
    ;
}

/// The two-row constraints at a point `z`: weighted by the powers of `alpha`
/// from `offset` on, times `z` less the last point of the domain.
pub open spec fn shifted_value(
    row: Seq<int>,
    next: Seq<int>,
    z: int,
    last: int,
    alpha: int,
    offset: nat,
) -> int {
    constraints::combined(shifted_constraints(), row, next, alpha, alpha) * modular::ipow(
        alpha,
        offset,
    ) * (z - last)
}

/// The columns that are also read on the next row, shifted by `omega`.
pub open spec fn shifted_polys(cols: Seq<Seq<int>>, omega: int) -> Seq<Seq<int>> {
    Seq::new(
        NUM_SHIFTED_COLUMNS as nat,
        |k: int| poly_arith::pshift(cols[shifted_column(k)], omega),
    )
}

/// The two-row constraints as a polynomial.
pub open spec fn shifted_poly(
    cols: Seq<Seq<int>>,
    omega: int,
    alpha: int,
    offset: nat,
    domain_size: nat,
) -> Seq<int> {
    poly_arith::pmul(
        poly_arith::pscale(
            constraints::combined_poly(
                shifted_constraints(),
                cols,
                shifted_polys(cols, omega),
                alpha,
                alpha,
            ),
            modular::ipow(alpha, offset),
        ),
        seq![-modular::ipow(omega, (domain_size - 1) as nat), 1],
    )
}

/// The polynomial of the two-row constraints agrees with their reading at a
/// point, where the columns of the next row are read at `omega z`.
pub proof fn law_shifted_polynomial_at_point(
    cols: Seq<Seq<int>>,
    omega: int,
    alpha: int,
    offset: nat,
    domain_size: nat,
    z: int,
)
    requires
        cols.len() >= NUM_COLUMNS,
        domain_size >= 1,
    ensures
        poly_arith::peval(shifted_poly(cols, omega, alpha, offset, domain_size), z)
            == shifted_value(
            expr::evals(cols, z),
            next_values(expr::evals(cols, omega * z)),
            z,
            modular::ipow(omega, (domain_size - 1) as nat),
            alpha,
            offset,
        ),
{
    let next = shifted_polys(cols, omega);
    let es = shifted_constraints();
    lemma_shifted_well_formed();
    constraints::lemma_well_formed_more(es, NUM_COLUMNS as nat, cols.len(), next.len());
    constraints::law_combined_reading(es, cols, next, alpha, alpha, z);
    let nv = next_values(expr::evals(cols, omega * z));
    assert(expr::evals(next, z) =~= nv) by {
        assert forall|k: int| 0 <= k < next.len() implies expr::evals(next, z)[k] == nv[k] by {
            poly_arith::lemma_peval_shift(cols[shifted_column(k)], omega, z);
        }
    }
    let p = constraints::combined_poly(es, cols, next, alpha, alpha);
    let a = modular::ipow(alpha, offset);
    let w = modular::ipow(omega, (domain_size - 1) as nat);
    let f = seq![-w, 1int];
    poly_arith::lemma_peval_mul(poly_arith::pscale(p, a), f, z);
    poly_arith::lemma_peval_scale(p, a, z);
    assert(poly_arith::peval(f, z) == z - w) by {
        assert(f.skip(1) =~= seq![1int]);
        assert(f.skip(1).skip(1) =~= Seq::<int>::empty());
        reveal_with_fuel(poly_arith::peval, 4);
        assert(z * (1 + z * 0) == z) by (nonlinear_arith);
    }
}

/// The polynomial of the two-row constraints takes at every point, modulo the
/// order, their reading over numbers that stand for the values of the columns
/// there and, on the next row, at `omega z`. At the last point of the domain
/// both are zero.
pub proof fn law_shifted_polynomial_modulo(
    cols: Seq<Seq<int>>,
    e: Seq<int>,
    s: Seq<int>,
    omega: int,
    last: int,
    alpha: int,
    offset: nat,
    domain_size: nat,
    z: int,
    curve: CurveType,
)
    requires
        cols.len() >= NUM_COLUMNS,
        domain_size >= 1,
        forall|c: int|
            0 <= c < NUM_COLUMNS ==> (#[trigger] e[c]) % field::order(curve) == poly_arith::peval(
                cols[c],
                z,
            ) % field::order(curve),
        forall|k: int|
            0 <= k < NUM_SHIFTED_COLUMNS ==> (#[trigger] s[k]) % field::order(curve)
                == poly_arith::peval(cols[shifted_column(k)], omega * z) % field::order(curve),
        last % field::order(curve) == modular::ipow(omega, (domain_size - 1) as nat) % field::order(
            curve,
        ),
    ensures
        poly_arith::peval(shifted_poly(cols, omega, alpha, offset, domain_size), z) % field::order(
            curve,
        ) == shifted_value(e, s, z, last, alpha, offset) % field::order(curve),
        z % field::order(curve) == last % field::order(curve) ==> poly_arith::peval(
            shifted_poly(cols, omega, alpha, offset, domain_size),
            z,
        ) % field::order(curve) == 0,
{
    let m = field::order(curve);
    field::lemma_order(curve);
    law_shifted_polynomial_at_point(cols, omega, alpha, offset, domain_size, z);
    lemma_shifted_well_formed();
    let es = shifted_constraints();
    let w = modular::ipow(omega, (domain_size - 1) as nat);
    let a = modular::ipow(alpha, offset);
    let (x, y) = (expr::evals(cols, z), next_values(expr::evals(cols, omega * z)));
    assert forall|c: int| 0 <= c < NUM_COLUMNS implies modular::cong(
        #[trigger] x[c],
        e[c],
        m,
    ) by {
        assert(e[c] % m == poly_arith::peval(cols[c], z) % m);
    }
    assert forall|k: int| 0 <= k < NUM_SHIFTED_COLUMNS implies modular::cong(
        #[trigger] y[k],
        s[k],
        m,
    ) by {
        assert(s[k] % m == poly_arith::peval(cols[shifted_column(k)], omega * z) % m);
    }
    constraints::lemma_combined_value_cong(
        es,
        NUM_COLUMNS as nat,
        NUM_SHIFTED_COLUMNS as nat,
        x,
        e,
        y,
        s,
        alpha,
        alpha,
        m,
    );
    let (p, q) = (
        constraints::combined(es, x, y, alpha, alpha),
        constraints::combined(es, e, s, alpha, alpha),
    );
    modular::lemma_cong_mul(p, q, a, a, m);
    modular::lemma_cong_sub(z, z, w, last, m);
    modular::lemma_cong_mul(p * a, q * a, z - w, z - last, m);
    if z % m == last % m {
        modular::lemma_cong_sub(z, last, last, last, m);
        modular::lemma_cong_mul(q * a, q * a, z - last, 0, m);
        assert((q * a) * 0 == 0);
        vstd::arithmetic::div_mod::lemma_small_mod(0, m as nat);
    }
}

/// The polynomial `p` of the two-row constraints takes at `z` their value `v`
/// at the point where the columns have the values `e` and the columns that
/// are also read on the next row have the values `s` at `omega z`. At the last
/// point of the domain it is zero.
pub proof fn law_shifted_polynomial_value(
    column_coeffs: Seq<Vec<Scalar>>,
    e: Seq<Scalar>,
    s: Seq<Scalar>,
    z: Scalar,
    omega: Scalar,
    last: Scalar,
    alpha: Scalar,
    alpha_offset: nat,
    domain_size: nat,
    p: Seq<Scalar>,
    v: Scalar,
)
    requires
        column_coeffs.len() >= NUM_COLUMNS,
        domain_size >= 1,
        e.len() >= NUM_COLUMNS,
        s.len() == NUM_SHIFTED_COLUMNS,
        forall|c: int|
            0 <= c < NUM_COLUMNS ==> (#[trigger] e[c])@ % field::order(alpha.curve())
                == poly_arith::peval(poly_arith::values(column_coeffs[c]@), z@) % field::order(
                alpha.curve(),
            ),
        forall|k: int|
            0 <= k < NUM_SHIFTED_COLUMNS ==> (#[trigger] s[k])@ % field::order(alpha.curve())
                == poly_arith::peval(
                poly_arith::values(column_coeffs[shifted_column(k)]@),
                omega@ * z@,
            ) % field::order(alpha.curve()),
        last@ % field::order(alpha.curve()) == modular::ipow(omega@, (domain_size - 1) as nat)
            % field::order(alpha.curve()),
        poly_arith::reduced(
            p,
            shifted_poly(
                expr::column_polys(column_coeffs),
                omega@,
                alpha@,
                alpha_offset,
                domain_size,
            ),
            alpha.curve(),
        ),
        v@ == shifted_value(
            poly_arith::values(e),
            poly_arith::values(s),
            z@,
            last@,
            alpha@,
            alpha_offset,
        ) % field::order(alpha.curve()),
    ensures
        poly_arith::peval(poly_arith::values(p), z@) % field::order(alpha.curve()) == v@,
        z@ % field::order(alpha.curve()) == last@ % field::order(alpha.curve()) ==> v@ == 0,
{
    let cols = expr::column_polys(column_coeffs);
    let m = field::order(alpha.curve());
    let (row, after) = (poly_arith::values(e), poly_arith::values(s));
    assert forall|c: int| 0 <= c < NUM_COLUMNS implies (#[trigger] row[c]) % m == poly_arith::peval(
        cols[c],
        z@,
    ) % m by {
        assert(e[c]@ % m == poly_arith::peval(poly_arith::values(column_coeffs[c]@), z@) % m);
    }
    assert forall|k: int| 0 <= k < NUM_SHIFTED_COLUMNS implies (#[trigger] after[k]) % m
        == poly_arith::peval(cols[shifted_column(k)], omega@ * z@) % m by {
        assert(s[k]@ % m == poly_arith::peval(
            poly_arith::values(column_coeffs[shifted_column(k)]@),
            omega@ * z@,
        ) % m);
    }
    law_shifted_polynomial_modulo(
        cols,
        row,
        after,
        omega@,
        last@,
        alpha@,
        alpha_offset,
        domain_size,
        z@,
        alpha.curve(),
    );
    poly_arith::law_reduced_value(
        p,
        shifted_poly(cols, omega@, alpha@, alpha_offset, domain_size),
        alpha.curve(),
        z@,
    );
}

/// The power of a scalar.
fn power(base: &Scalar, n: u64) -> (r: Scalar)
    ensures
        r.curve() == base.curve(),
        modular::cong(r@, modular::ipow(base@, n as nat), field::order(base.curve())),
{
    let curve: CurveType = base.curve_type();
    let mut acc: Scalar = Scalar::one(curve);
    let mut i: u64 = 0;
    let ghost m = field::order(curve);
    proof {
        field::lemma_order(curve);
    }
    while i < n
        invariant
            i <= n,
            m == field::order(curve),
            m > 0,
            base.curve() == curve,
            acc.curve() == curve,
            modular::cong(acc@, modular::ipow(base@, i as nat), m),
        decreases n - i,
    {
        let ghost before = acc@;
        acc = acc.mul(base);
        proof {
            let p = modular::ipow(base@, i as nat);
            modular::lemma_cong_mul(before, p, base@, base@, m);
            modular::lemma_cong_rem(before * base@, m);
            let b = base@;
            assert(p * b == b * p) by (nonlinear_arith);
            assert(modular::ipow(b, (i + 1) as nat) == b * p);
        }
        i = i + 1;
    }
    acc
}

// ─── What vanishing constraints say ───────────────────────────────────

/// Twenty real rows of field elements, with every invocation selected on its
/// own row and the roots of empty subtrees in their columns.
pub open spec fn laid_out(rows: Seq<Seq<int>>, m: int) -> bool {
    &&& rows.len() >= 20
    &&& forall|r: int| 0 <= r < 20 ==> (#[trigger] rows[r]).len() == NUM_COLUMNS
    &&& forall|r: int, c: int|
        0 <= r < 20 && 0 <= c < NUM_COLUMNS ==> 0 <= #[trigger] rows[r][c] < m
    &&& forall|r: int, q: int|
        0 <= r < 20 && 0 <= q < 20 ==> #[trigger] rows[r][selector_column(q) as int] == bit(r == q)
    &&& forall|r: int| 0 <= r < 20 ==> (#[trigger] rows[r])[COL_IS_REAL as int] == 1
    &&& forall|r: int, d: int, k: int|
        0 <= r < 20 && 0 <= d < 4 && 0 <= k < 32 ==> #[trigger] rows[r][COL_ZH0_OFFSET + 32 * d
            + k] == ssz::zero_root(d as nat)[k]
}

/// Every constraint on a row vanishes on every row, for each of the
/// challenges.
pub open spec fn rows_vanish(rows: Seq<Seq<int>>, points: Seq<int>, m: int) -> bool {
    forall|r: int, i: int, j: int|
        0 <= r < 20 && 0 <= i < NUM_ROW_CONSTRAINTS && 0 <= j < points.len() ==> expr::ev(
            #[trigger] row_constraints()[i],
            #[trigger] rows[r],
            Seq::empty(),
            #[trigger] points[j],
        ) % m == 0
}

/// Every constraint on two rows vanishes between neighbouring rows, for each
/// of the challenges.
pub open spec fn steps_vanish(rows: Seq<Seq<int>>, points: Seq<int>, m: int) -> bool {
    forall|r: int, i: int, j: int|
        0 <= r < 19 && 0 <= i < NUM_SHIFTED && 0 <= j < points.len() ==> expr::ev(
            #[trigger] shifted_constraints()[i],
            #[trigger] rows[r],
            next_values(rows[r + 1]),
            #[trigger] points[j],
        ) % m == 0
}

/// Two runs of 32 cells hold the same.
pub open spec fn runs_equal(a: Seq<int>, from: int, b: Seq<int>, at: int) -> bool {
    forall|k: int| 0 <= k < 32 ==> a[#[trigger] (from + k)] == b[at + k]
}

/// The operand of a row: left or right.
pub open spec fn operand_column(idx: int) -> int {
    if idx % 2 == 0 {
        COL_LEFT_OFFSET as int
    } else {
        COL_RIGHT_OFFSET as int
    }
}

/// The rows form the tree of a payload: hashes are operands one layer up,
/// empty subtrees stand beside the odd last nodes, and the outputs are the
/// root, the block hash, and the roots of logs bloom and extra data.
pub open spec fn rows_tied(rows: Seq<Seq<int>>) -> bool {
    &&& forall|idx: int|
        0 <= idx < 15 ==> #[trigger] runs_equal(
            rows[consumer(idx)],
            operand_column(idx),
            rows[producer(idx)],
            COL_HASH_OFFSET as int,
        )
    &&& runs_equal(rows[19], COL_RIGHT_OFFSET as int, rows[18], COL_HASH_OFFSET as int)
    &&& forall|k: int|
        0 <= k < 32 ==> {
            &&& rows[8][#[trigger] (COL_RIGHT_OFFSET + k)] == ssz::zero_root(0)[k]
            &&& rows[13][COL_RIGHT_OFFSET + k] == ssz::zero_root(1)[k]
            &&& rows[16][COL_RIGHT_OFFSET + k] == ssz::zero_root(2)[k]
            &&& rows[18][COL_RIGHT_OFFSET + k] == ssz::zero_root(3)[k]
        }
    &&& forall|r: int|
        0 <= r < 20 ==> {
            &&& runs_equal(
                #[trigger] rows[r],
                COL_CLAIMED_ROOT_OFFSET as int,
                rows[19],
                COL_HASH_OFFSET as int,
            )
            &&& runs_equal(
                rows[r],
                COL_CLAIMED_BLOCK_HASH_OFFSET as int,
                rows[6],
                COL_LEFT_OFFSET as int,
            )
            &&& runs_equal(
                rows[r],
                COL_CLAIMED_LOGS_BLOOM_ROOT_OFFSET as int,
                rows[2],
                COL_LEFT_OFFSET as int,
            )
            &&& runs_equal(
                rows[r],
                COL_CLAIMED_EXTRA_DATA_ROOT_OFFSET as int,
                rows[5],
                COL_LEFT_OFFSET as int,
            )
        }
    &&& forall|r: int|
        0 <= r < 20 && (#[trigger] rows[r])[COL_IS_LAYER_0 as int] == 1 ==> {
            &&& runs_equal(
                rows[r],
                COL_LEFT_OFFSET as int,
                rows[r],
                COL_CLAIMED_LEFT_OFFSET as int,
            )
            &&& runs_equal(
                rows[r],
                COL_RIGHT_OFFSET as int,
                rows[r],
                COL_CLAIMED_RIGHT_OFFSET as int,
            )
        }
}

/// An equality on a row holds where its selector is set.
proof fn lemma_row_equality(
    rows: Seq<Seq<int>>,
    points: Seq<int>,
    m: int,
    r: int,
    i: int,
)
    requires
        soundness::integral(m),
        soundness::points_differ(points, m),
        points.len() >= 32,
        laid_out(rows, m),
        rows_vanish(rows, points, m),
        0 <= r < 20,
        0 <= i < NUM_ROW_CONSTRAINTS,
        !is_bit_constraint(i),
        rows[r][constraint_selector(i) as int] == 1,
    ensures
        runs_equal(
            rows[r],
            constraint_runs(i).0 as int,
            rows[r],
            constraint_runs(i).1 as int,
        ),
{
    let row = rows[r];
    let s = constraint_selector(i);
    let (a, b) = constraint_runs(i);
    lemma_constraint_bounds(i);
    assert(row_constraints()[i] == constraints::mul_of(
        Expr::Col(s),
        constraints::rlc_diff_of(a, b, 32),
    ));
    assert forall|j: int| 0 <= j < points.len() implies expr::ev(
        constraints::mul_of(Expr::Col(s), constraints::rlc_diff_of(a, b, 32)),
        row,
        Seq::empty(),
        #[trigger] points[j],
    ) % m == 0 by {
        assert(expr::ev(row_constraints()[i], rows[r], Seq::empty(), points[j]) % m == 0);
    }
    assert forall|c: int| 0 <= c < row.len() implies 0 <= #[trigger] row[c] < m by {
        assert(0 <= rows[r][c] < m);
    }
    soundness::law_equality_sound(s, a, b, 32, row, points, m);
    assert forall|k: int| 0 <= k < 32 implies row[#[trigger] (a as int + k)] == row[b + k] by {
        assert(row[a + k] == row[b + k]);
    }
}

/// The columns behind the entries that two-row constraints read.
proof fn lemma_shifted_entry(i: int, k: int)
    requires
        0 <= i < NUM_SHIFTED,
        0 <= k < 32,
    ensures
        shifted_runs(i).0 + 32 <= NUM_SHIFTED_COLUMNS,
        shifted_runs(i).1 + 32 <= NUM_COLUMNS,
        shifted_column(shifted_runs(i).0 + k) == if i == 4 {
            COL_RIGHT_OFFSET + k
        } else {
            shifted_runs(i).1 + k
        },
{
}

/// An equality between neighbouring rows holds where it counts.
proof fn lemma_step_equality(
    rows: Seq<Seq<int>>,
    points: Seq<int>,
    m: int,
    r: int,
    i: int,
)
    requires
        soundness::integral(m),
        soundness::points_differ(points, m),
        points.len() >= 32,
        laid_out(rows, m),
        steps_vanish(rows, points, m),
        0 <= r < 19,
        0 <= i < NUM_SHIFTED,
        forall|ch: int| #[trigger]
            expr::ev(shifted_gate(i), rows[r], next_values(rows[r + 1]), ch) == 1,
    ensures
        runs_equal(
            rows[r + 1],
            if i == 4 {
                COL_RIGHT_OFFSET as int
            } else {
                shifted_runs(i).1 as int
            },
            rows[r],
            shifted_runs(i).1 as int,
        ),
{
    let row = rows[r];
    let after = rows[r + 1];
    let next = next_values(after);
    let (at, col) = shifted_runs(i);
    let ts = steps_of(at, col);
    lemma_shifted_entry(i, 0);
    let values = Seq::new(32, |k: int| next[at + k] - row[col + k]);
    assert forall|x: int| #[trigger] constraints::denoted(ts, row, next, x) == values by {
        let vs = constraints::denoted(ts, row, next, x);
        assert forall|k: int| 0 <= k < 32 implies vs[k] == values[k] by {
            reveal_with_fuel(expr::ev, 2);
        }
        assert(vs =~= values);
    }
    assert(constraints::denoted(ts, row, next, 0).len() == 32);
    assert forall|j: int| 0 <= j < points.len() implies expr::ev(
        constraints::rlc_of(ts),
        row,
        next,
        #[trigger] points[j],
    ) % m == 0 by {
        let ch = points[j];
        assert(expr::ev(shifted_constraints()[i], rows[r], next_values(rows[r + 1]), points[j]) % m
            == 0);
        assert(expr::ev(shifted_gate(i), rows[r], next_values(rows[r + 1]), ch) == 1);
        soundness::lemma_weighted_sound(
            shifted_gate(i),
            constraints::rlc_of(ts),
            row,
            next,
            ch,
            m,
        );
    }
    soundness::law_combination_sound(ts, row, next, values, points, m);
    let from = if i == 4 {
        COL_RIGHT_OFFSET as int
    } else {
        col as int
    };
    assert forall|k: int| 0 <= k < 32 implies after[#[trigger] (from + k)] == row[col as int + k] by {
        lemma_shifted_entry(i, k);
        assert(values[k] % m == 0);
        assert(next[at + k] == after[from + k]);
        assert(0 <= rows[r + 1][from + k] < m);
        assert(0 <= rows[r][col + k] < m);
        soundness::lemma_equal(after[from + k], row[col + k], m);
    }
}

/// A relay is kept from its producer up to its consumer, and nowhere else.
proof fn lemma_window_one(rows: Seq<Seq<int>>, m: int, r: int, from: int, to: int, next: Seq<int>, ch: int)
    requires
        laid_out(rows, m),
        0 <= from <= to <= 20,
        0 <= r < 20,
    ensures
        expr::ev(window_of(from, to), rows[r], next, ch) == bit(from <= r < to),
    decreases to - from,
{
    if to > from {
        lemma_window_one(rows, m, r, from, to - 1, next, ch);
        assert(rows[r][selector_column(to - 1) as int] == bit(r == to - 1));
        assert(expr::ev(Expr::Col(selector_column(to - 1)), rows[r], next, ch) == rows[r][
            selector_column(to - 1) as int]);
    }
}

/// A relay carries the hash of its producer to its consumer.
proof fn lemma_relay_carries(
    rows: Seq<Seq<int>>,
    points: Seq<int>,
    m: int,
    idx: int,
    r: int,
)
    requires
        soundness::integral(m),
        soundness::points_differ(points, m),
        points.len() >= 32,
        laid_out(rows, m),
        rows_vanish(rows, points, m),
        steps_vanish(rows, points, m),
        0 <= idx < 15,
        producer(idx) <= r <= consumer(idx),
    ensures
        runs_equal(
            rows[r],
            COL_RELAY_OFFSET + 32 * idx,
            rows[producer(idx)],
            COL_HASH_OFFSET as int,
        ),
    decreases r,
{
    let p = producer(idx);
    let relay = COL_RELAY_OFFSET + 32 * idx;
    if r == p {
        let i = 32 + 2 * idx;
        assert(relay_of(i) == idx);
        assert(rows[p][selector_column(p) as int] == bit(p == p));
        lemma_row_equality(rows, points, m, p, i);
        assert forall|k: int| 0 <= k < 32 implies rows[r][#[trigger] (relay + k)]
            == rows[p][COL_HASH_OFFSET as int + k] by {
            assert(rows[p][constraint_runs(i).0 as int + k] == rows[p][constraint_runs(i).1 as int
                + k]);
        }
    } else {
        lemma_relay_carries(rows, points, m, idx, r - 1);
        let i = idx + 5;
        assert forall|ch: int| #[trigger]
            expr::ev(shifted_gate(i), rows[r - 1], next_values(rows[r - 1 + 1]), ch) == 1 by {
            lemma_window_one(
                rows,
                m,
                r - 1,
                p,
                consumer(idx),
                next_values(rows[r - 1 + 1]),
                ch,
            );
        }
        lemma_step_equality(rows, points, m, r - 1, i);
        assert forall|k: int| 0 <= k < 32 implies rows[r][#[trigger] (relay + k)]
            == rows[p][COL_HASH_OFFSET as int + k] by {
            assert(rows[r - 1 + 1][shifted_runs(i).1 as int + k] == rows[r - 1][
                shifted_runs(i).1 as int + k]);
            assert(rows[r - 1][relay + k] == rows[p][COL_HASH_OFFSET as int + k]);
        }
    }
}

/// An output is the same on all rows.
proof fn lemma_output_constant(
    rows: Seq<Seq<int>>,
    points: Seq<int>,
    m: int,
    i: int,
    q: int,
    r: int,
)
    requires
        soundness::integral(m),
        soundness::points_differ(points, m),
        points.len() >= 32,
        laid_out(rows, m),
        steps_vanish(rows, points, m),
        0 <= i < 4,
        0 <= q <= r < 20,
    ensures
        runs_equal(rows[q], shifted_runs(i).1 as int, rows[r], shifted_runs(i).1 as int),
    decreases r - q,
{
    let col = shifted_runs(i).1 as int;
    if q < r {
        lemma_output_constant(rows, points, m, i, q + 1, r);
        let next = next_values(rows[q + 1]);
        assert forall|ch: int| #[trigger]
            expr::ev(shifted_gate(i), rows[q], next_values(rows[q + 1]), ch) == 1 by {
            assert(rows[q][COL_IS_REAL as int] == 1);
            assert(rows[q + 1][COL_IS_REAL as int] == 1);
            assert(shifted_column(0) == COL_IS_REAL);
            assert(next[0] == 1);
            reveal_with_fuel(expr::ev, 2);
        }
        lemma_step_equality(rows, points, m, q, i);
        assert forall|k: int| 0 <= k < 32 implies rows[q][#[trigger] (col + k)] == rows[r][col
            + k] by {
            assert(rows[q + 1][col + k] == rows[q][col + k]);
        }
    }
}

/// An output that equals a run on one row equals it on all rows.
proof fn lemma_output(
    rows: Seq<Seq<int>>,
    points: Seq<int>,
    m: int,
    i: int,
    at: int,
    constraint: int,
    r: int,
)
    requires
        soundness::integral(m),
        soundness::points_differ(points, m),
        points.len() >= 32,
        laid_out(rows, m),
        rows_vanish(rows, points, m),
        steps_vanish(rows, points, m),
        0 <= i < 4,
        constraint == 2 * i + 2,
        0 <= at < 20,
        constraint_selector(constraint) == selector_column(at),
        0 <= r < 20,
    ensures
        runs_equal(
            rows[r],
            shifted_runs(i).1 as int,
            rows[at],
            constraint_runs(constraint).0 as int,
        ),
{
    let col = shifted_runs(i).1 as int;
    let from = constraint_runs(constraint).0 as int;
    assert(rows[at][selector_column(at) as int] == bit(at == at));
    lemma_row_equality(rows, points, m, at, constraint);
    assert(constraint_runs(constraint).1 == col);
    if r <= at {
        lemma_output_constant(rows, points, m, i, r, at);
    } else {
        lemma_output_constant(rows, points, m, i, at, r);
    }
    assert forall|k: int| 0 <= k < 32 implies rows[r][#[trigger] (col + k)] == rows[at][from
        + k] by {
        assert(rows[at][from + k] == rows[at][col + k]);
        if r > at {
            assert(rows[at][col + k] == rows[r][col + k]);
        }
    }
}

/// An empty subtree stands on the right of its row.
proof fn lemma_empty_subtree(rows: Seq<Seq<int>>, points: Seq<int>, m: int, d: int, q: int)
    requires
        soundness::integral(m),
        soundness::points_differ(points, m),
        points.len() >= 32,
        laid_out(rows, m),
        rows_vanish(rows, points, m),
        0 <= d < 4,
        0 <= q < 20,
        selector_column(q) == COL_IS_PAIR8 + d,
    ensures
        forall|k: int|
            0 <= k < 32 ==> rows[q][#[trigger] (COL_RIGHT_OFFSET + k)] == ssz::zero_root(
                d as nat,
            )[k],
{
    let i = 16 + d;
    assert(rows[q][selector_column(q) as int] == bit(q == q));
    lemma_row_equality(rows, points, m, q, i);
    assert forall|k: int| 0 <= k < 32 implies rows[q][#[trigger] (COL_RIGHT_OFFSET + k)]
        == ssz::zero_root(d as nat)[k] by {
        assert(rows[q][constraint_runs(i).0 as int + k] == rows[q][constraint_runs(i).1 as int
            + k]);
        assert(rows[q][COL_ZH0_OFFSET + 32 * d + k] == ssz::zero_root(d as nat)[k]);
    }
}

/// Rows on which all constraints vanish, for as many challenges as a hash has
/// bytes, form the tree of a payload with its outputs.
pub proof fn law_vanishing_rows_sound(rows: Seq<Seq<int>>, points: Seq<int>, curve: CurveType)
    requires
        soundness::integral(field::order(curve)),
        soundness::points_differ(points, field::order(curve)),
        points.len() >= 32,
        laid_out(rows, field::order(curve)),
        rows_vanish(rows, points, field::order(curve)),
        steps_vanish(rows, points, field::order(curve)),
    ensures
        rows_tied(rows),
{
    let m = field::order(curve);
    assert forall|idx: int| 0 <= idx < 15 implies #[trigger] runs_equal(
        rows[consumer(idx)],
        operand_column(idx),
        rows[producer(idx)],
        COL_HASH_OFFSET as int,
    ) by {
        let q = consumer(idx);
        let i = 33 + 2 * idx;
        assert(relay_of(i) == idx);
        lemma_relay_carries(rows, points, m, idx, q);
        assert(rows[q][selector_column(q) as int] == bit(q == q));
        lemma_row_equality(rows, points, m, q, i);
        assert forall|k: int| 0 <= k < 32 implies rows[q][#[trigger] (operand_column(idx) + k)]
            == rows[producer(idx)][COL_HASH_OFFSET as int + k] by {
            assert(rows[q][constraint_runs(i).0 as int + k] == rows[q][constraint_runs(i).1 as int
                + k]);
            assert(rows[q][COL_RELAY_OFFSET + 32 * idx + k] == rows[producer(idx)][
                COL_HASH_OFFSET as int + k]);
        }
    }
    assert(runs_equal(rows[19], COL_RIGHT_OFFSET as int, rows[18], COL_HASH_OFFSET as int)) by {
        assert forall|ch: int| #[trigger]
            expr::ev(shifted_gate(4), rows[18], next_values(rows[19]), ch) == 1 by {
            assert(rows[18][selector_column(18) as int] == bit(18int == 18));
        }
        lemma_step_equality(rows, points, m, 18, 4);
    }
    lemma_empty_subtree(rows, points, m, 0, 8);
    lemma_empty_subtree(rows, points, m, 1, 13);
    lemma_empty_subtree(rows, points, m, 2, 16);
    lemma_empty_subtree(rows, points, m, 3, 18);
    assert forall|k: int| 0 <= k < 32 implies {
        &&& rows[8][#[trigger] (COL_RIGHT_OFFSET + k)] == ssz::zero_root(0)[k]
        &&& rows[13][COL_RIGHT_OFFSET + k] == ssz::zero_root(1)[k]
        &&& rows[16][COL_RIGHT_OFFSET + k] == ssz::zero_root(2)[k]
        &&& rows[18][COL_RIGHT_OFFSET + k] == ssz::zero_root(3)[k]
    } by {}
    assert forall|r: int| 0 <= r < 20 implies {
        &&& runs_equal(
            #[trigger] rows[r],
            COL_CLAIMED_ROOT_OFFSET as int,
            rows[19],
            COL_HASH_OFFSET as int,
        )
        &&& runs_equal(
            rows[r],
            COL_CLAIMED_BLOCK_HASH_OFFSET as int,
            rows[6],
            COL_LEFT_OFFSET as int,
        )
        &&& runs_equal(
            rows[r],
            COL_CLAIMED_LOGS_BLOOM_ROOT_OFFSET as int,
            rows[2],
            COL_LEFT_OFFSET as int,
        )
        &&& runs_equal(
            rows[r],
            COL_CLAIMED_EXTRA_DATA_ROOT_OFFSET as int,
            rows[5],
            COL_LEFT_OFFSET as int,
        )
    } by {
        lemma_output(rows, points, m, 0, 19, 2, r);
        lemma_output(rows, points, m, 1, 6, 4, r);
        lemma_output(rows, points, m, 2, 2, 6, r);
        lemma_output(rows, points, m, 3, 5, 8, r);
    }
    assert forall|r: int|
        0 <= r < 20 && (#[trigger] rows[r])[COL_IS_LAYER_0 as int] == 1 implies {
        &&& runs_equal(rows[r], COL_LEFT_OFFSET as int, rows[r], COL_CLAIMED_LEFT_OFFSET as int)
        &&& runs_equal(rows[r], COL_RIGHT_OFFSET as int, rows[r], COL_CLAIMED_RIGHT_OFFSET as int)
    } by {
        lemma_row_equality(rows, points, m, r, 10);
        lemma_row_equality(rows, points, m, r, 11);
    }
}

// ─── Constraint system ────────────────────────────────────────────────

/// The label of the byte ranges in the order of their declarations.
pub open spec fn range_name(j: int) -> Seq<char> {
    if j == 0 {
        "payload_pair_left"@
    } else if j == 1 {
        "payload_pair_right"@
    } else if j == 2 {
        "payload_pair_hash"@
    } else if j == 3 {
        "payload_pair_claimed_root"@
    } else if j == 4 {
        "payload_pair_claimed_block_hash"@
    } else if j == 5 {
        "payload_pair_claimed_logs_bloom_root"@
    } else if j == 6 {
        "payload_pair_claimed_extra_data_root"@
    } else if j == 7 {
        "payload_pair_claimed_left"@
    } else if j == 8 {
        "payload_pair_claimed_right"@
    } else if j == 9 {
        "payload_pair_zh0"@
    } else if j == 10 {
        "payload_pair_zh1"@
    } else if j == 11 {
        "payload_pair_zh2"@
    } else {
        "payload_pair_zh3"@
    }
}

/// The first column of the byte ranges.
pub open spec fn range_column(j: int) -> int {
    if j < 3 {
        32 * j
    } else if j < 7 {
        COL_CLAIMED_ROOT_OFFSET + 33 * (j - 3)
    } else if j < 9 {
        COL_CLAIMED_LEFT_OFFSET + 32 * (j - 7)
    } else {
        COL_ZH0_OFFSET + 32 * (j - 9)
    }
}

fn byte_range(j: usize) -> (r: (&'static str, usize))
    requires
        j < 13,
    ensures
        r.0@ == range_name(j as int),
        r.1 == range_column(j as int),
{
    if j == 0 {
        ("payload_pair_left", COL_LEFT_OFFSET)
    } else if j == 1 {
        ("payload_pair_right", COL_RIGHT_OFFSET)
    } else if j == 2 {
        ("payload_pair_hash", COL_HASH_OFFSET)
    } else if j == 3 {
        ("payload_pair_claimed_root", COL_CLAIMED_ROOT_OFFSET)
    } else if j == 4 {
        ("payload_pair_claimed_block_hash", COL_CLAIMED_BLOCK_HASH_OFFSET)
    } else if j == 5 {
        ("payload_pair_claimed_logs_bloom_root", COL_CLAIMED_LOGS_BLOOM_ROOT_OFFSET)
    } else if j == 6 {
        ("payload_pair_claimed_extra_data_root", COL_CLAIMED_EXTRA_DATA_ROOT_OFFSET)
    } else if j == 7 {
        ("payload_pair_claimed_left", COL_CLAIMED_LEFT_OFFSET)
    } else if j == 8 {
        ("payload_pair_claimed_right", COL_CLAIMED_RIGHT_OFFSET)
    } else if j == 9 {
        ("payload_pair_zh0", COL_ZH0_OFFSET)
    } else if j == 10 {
        ("payload_pair_zh1", COL_ZH1_OFFSET)
    } else if j == 11 {
        ("payload_pair_zh2", COL_ZH2_OFFSET)
    } else {
        ("payload_pair_zh3", COL_ZH3_OFFSET)
    }
}

/// Every byte column is declared: byte after byte, range after range.
pub open spec fn bytes_declared(ds: Seq<(LookupDeclaration, usize)>, bytes: nat) -> bool {
    &&& ds.len() == 13 * bytes
    &&& forall|k: int, j: int|
        0 <= k < bytes && 0 <= j < 13 ==> lookup::is_byte_declaration(
            #[trigger] ds[13 * k + j],
            range_name(j),
            k as nat,
            range_column(j) + k,
        )
}

/// The declarations of one byte of every range.
fn push_byte_declarations(ds: &mut Vec<(LookupDeclaration, usize)>, k: usize)
    requires
        k < 32,
        bytes_declared(old(ds)@, k as nat),
    ensures
        bytes_declared(final(ds)@, (k + 1) as nat),
{
    let ghost before = ds@;
    let mut j: usize = 0;
    while j < 13
        invariant
            j <= 13,
            k < 32,
            bytes_declared(before, k as nat),
            ds.len() == 13 * k + j,
            forall|i: int| 0 <= i < before.len() ==> ds@[i] == before[i],
            forall|i: int|
                0 <= i < j ==> lookup::is_byte_declaration(
                    #[trigger] ds@[13 * k + i],
                    range_name(i),
                    k as nat,
                    range_column(i) + k,
                ),
        decreases 13 - j,
    {
        let (name, column): (&'static str, usize) = byte_range(j);
        ds.push(byte_declaration(name, k, column + k));
        j = j + 1;
    }
    assert forall|b: int, i: int| 0 <= b < k + 1 && 0 <= i < 13 implies lookup::is_byte_declaration(
        #[trigger] ds@[13 * b + i],
        range_name(i),
        b as nat,
        range_column(i) + b,
    ) by {
        if b < k {
            assert(13 * b + i < before.len());
            assert(lookup::is_byte_declaration(
                before[13 * b + i],
                range_name(i),
                b as nat,
                range_column(i) + b,
            ));
        } else {
            assert(lookup::is_byte_declaration(
                ds@[13 * k + i],
                range_name(i),
                k as nat,
                range_column(i) + k,
            ));
        }
    }
}

pub struct ExecutionPayloadHeaderPairConstraintSystem {
    pub num_rows: usize,
    pub omega: Option<Scalar>,
    pub domain_size: Option<u64>,
}

impl ExecutionPayloadHeaderPairConstraintSystem {
    pub fn new(num_rows: usize) -> (r: Self)
        ensures
            r.num_rows == num_rows,
            r.omega == None::<Scalar>,
            r.domain_size == None::<u64>,
    {
        Self { num_rows, omega: None, domain_size: None }
    }

    pub fn with_omega_and_domain(self, omega: Scalar, domain_size: u64) -> (r: Self)
        ensures
            r.num_rows == self.num_rows,
            r.omega == Some(omega),
            r.domain_size == Some(domain_size),
    {
        Self { num_rows: self.num_rows, omega: Some(omega), domain_size: Some(domain_size) }
    }

    pub fn num_constraints(&self) -> (r: usize)
        ensures
            r == row_constraints().len(),
    {
        NUM_ROW_CONSTRAINTS
    }

    /// The names of the constraints up to the empty subtrees.
    pub fn constraint_labels(&self) -> (r: Vec<String>)
        ensures
            r.len() == 20,
            r@[0]@ == "is_real_binary"@,
            r@[1]@ == "is_root_bound_at_binary"@,
            r@[2]@ == "hash_eq_claimed_root_at_root_invocation"@,
            r@[3]@ == "is_block_hash_bound_at_binary"@,
            r@[4]@ == "left_eq_claimed_block_hash_at_pair6"@,
            r@[5]@ == "is_logs_bloom_leaf_bound_at_binary"@,
            r@[6]@ == "left_eq_claimed_logs_bloom_root_at_pair2"@,
            r@[7]@ == "is_extra_data_leaf_bound_at_binary"@,
            r@[8]@ == "left_eq_claimed_extra_data_root_at_pair5"@,
            r@[9]@ == "is_layer_0_binary"@,
            r@[10]@ == "leaf_left_binding_rlc"@,
            r@[11]@ == "leaf_right_binding_rlc"@,
            r@[12]@ == "is_pair8_binary"@,
            r@[13]@ == "is_pair13_binary"@,
            r@[14]@ == "is_pair16_binary"@,
            r@[15]@ == "is_pair18_binary"@,
            r@[16]@ == "zh0_pin_right_at_pair8"@,
            r@[17]@ == "zh1_pin_right_at_pair13"@,
            r@[18]@ == "zh2_pin_right_at_pair16"@,
            r@[19]@ == "zh3_pin_right_at_pair18"@,
    {
        vec![
            "is_real_binary".to_string(),
            "is_root_bound_at_binary".to_string(),
            "hash_eq_claimed_root_at_root_invocation".to_string(),
            "is_block_hash_bound_at_binary".to_string(),
            "left_eq_claimed_block_hash_at_pair6".to_string(),
            "is_logs_bloom_leaf_bound_at_binary".to_string(),
            "left_eq_claimed_logs_bloom_root_at_pair2".to_string(),
            "is_extra_data_leaf_bound_at_binary".to_string(),
            "left_eq_claimed_extra_data_root_at_pair5".to_string(),
            "is_layer_0_binary".to_string(),
            "leaf_left_binding_rlc".to_string(),
            "leaf_right_binding_rlc".to_string(),
            "is_pair8_binary".to_string(),
            "is_pair13_binary".to_string(),
            "is_pair16_binary".to_string(),
            "is_pair18_binary".to_string(),
            "zh0_pin_right_at_pair8".to_string(),
            "zh1_pin_right_at_pair13".to_string(),
            "zh2_pin_right_at_pair16".to_string(),
            "zh3_pin_right_at_pair18".to_string(),
        ]
    }

    /// The value of every constraint on every row.
    pub fn evaluate_on_domain(&self, columns: &[&Vec<Scalar>], _num_rows: usize) -> (r: Vec<
        Vec<Scalar>,
    >)
        requires
            columns.len() >= NUM_COLUMNS,
            constraints::domain_readable(row_constraints(), columns@),
        ensures
            constraints::domain_values(r@, row_constraints(), columns@, 7),
    {
        let es: Vec<Expr> = constraint_list();
        proof {
            constraints::lemma_well_formed_more(
                es@,
                NUM_COLUMNS as nat,
                columns.len() as nat,
                0,
            );
        }
        constraints::evaluate_on_domain(&es, columns, 7)
    }

    /// The constraints at a point, weighted by the powers of `alpha`; zero if
    /// columns are missing.
    pub fn evaluate_at_point(&self, col_evals: &[Scalar], alpha: &Scalar) -> (r: Scalar)
        requires
            col_evals.len() >= NUM_COLUMNS ==> constraints::point_readable(
                row_constraints(),
                col_evals@,
                Seq::empty(),
                alpha.curve(),
            ),
        ensures
            r.curve() == alpha.curve(),
            col_evals.len() < NUM_COLUMNS ==> r@ == 0,
            col_evals.len() >= NUM_COLUMNS ==> r@ == constraints::combined(
                row_constraints(),
                poly_arith::values(col_evals@),
                Seq::empty(),
                alpha@,
                alpha@,
            ) % field::order(alpha.curve()),
    {
        if col_evals.len() < NUM_COLUMNS {
            return Scalar::zero(alpha.curve_type());
        }
        let es: Vec<Expr> = constraint_list();
        let none: Vec<Scalar> = Vec::new();
        proof {
            constraints::lemma_well_formed_more(
                es@,
                NUM_COLUMNS as nat,
                col_evals.len() as nat,
                0,
            );
            assert(poly_arith::values(none@) =~= Seq::empty());
        }
        constraints::evaluate_at_point(&es, col_evals, none.as_slice(), alpha, alpha)
    }

    /// The weighted sum of the constraints as a polynomial.
    pub fn build_constraint_polynomial(
        &self,
        col_coeffs: &[Vec<Scalar>],
        alpha: &Scalar,
        _domain_size: u64,
    ) -> (r: Vec<Scalar>)
        requires
            col_coeffs.len() >= NUM_COLUMNS,
            constraints::coefficients_readable(row_constraints(), col_coeffs@, alpha.curve()),
        ensures
            poly_arith::reduced(
                r@,
                constraints::combined_poly(
                    row_constraints(),
                    expr::column_polys(col_coeffs@),
                    Seq::empty(),
                    alpha@,
                    alpha@,
                ),
                alpha.curve(),
            ),
    {
        let es: Vec<Expr> = constraint_list();
        let none: Vec<Vec<Scalar>> = Vec::new();
        proof {
            constraints::lemma_well_formed_more(
                es@,
                NUM_COLUMNS as nat,
                col_coeffs.len() as nat,
                0,
            );
            assert(expr::column_polys(none@) =~= Seq::empty());
        }
        constraints::build_polynomial(
            &es,
            col_coeffs,
            none.as_slice(),
            alpha,
            alpha,
        )
    }

    pub fn num_shifted_constraints(&self) -> (r: usize)
        ensures
            r == shifted_constraints().len(),
    {
        NUM_SHIFTED
    }

    /// The columns that are also read on the next row.
    pub fn shifted_column_indices(&self) -> (r: Vec<usize>)
        ensures
            r.len() == NUM_SHIFTED_COLUMNS,
            forall|k: int| 0 <= k < NUM_SHIFTED_COLUMNS ==> r@[k] == shifted_column(k),
    {
        let mut r: Vec<usize> = Vec::with_capacity(NUM_SHIFTED_COLUMNS);
        let mut k: usize = 0;
        while k < NUM_SHIFTED_COLUMNS
            invariant
                k <= NUM_SHIFTED_COLUMNS,
                r.len() == k,
                forall|j: int| 0 <= j < k ==> r@[j] == shifted_column(j),
            decreases NUM_SHIFTED_COLUMNS - k,
        {
            r.push(shifted_column_of(k));
            k = k + 1;
        }
        r
    }

    /// The two-row constraints at a point; zero if columns are missing or the
    /// number of shifted columns is not the right one.
    pub fn evaluate_shifted_at_point(
        &self,
        col_evals_at_z: &[Scalar],
        shifted_evals: &[Scalar],
        z: &Scalar,
        omega_n_minus_1: &Scalar,
        alpha: &Scalar,
        alpha_offset: usize,
    ) -> (r: Scalar)
        requires
            shifted_evals.len() == NUM_SHIFTED_COLUMNS && col_evals_at_z.len() >= NUM_COLUMNS ==> {
                &&& constraints::point_readable(
                    shifted_constraints(),
                    col_evals_at_z@,
                    shifted_evals@,
                    alpha.curve(),
                )
                &&& z.curve() == alpha.curve()
                &&& omega_n_minus_1.curve() == alpha.curve()
            },
        ensures
            r.curve() == alpha.curve(),
            shifted_evals.len() != NUM_SHIFTED_COLUMNS || col_evals_at_z.len() < NUM_COLUMNS
                ==> r@ == 0,
            shifted_evals.len() == NUM_SHIFTED_COLUMNS && col_evals_at_z.len() >= NUM_COLUMNS
                ==> r@ == shifted_value(
                poly_arith::values(col_evals_at_z@),
                poly_arith::values(shifted_evals@),
                z@,
                omega_n_minus_1@,
                alpha@,
                alpha_offset as nat,
            ) % field::order(alpha.curve()),
    {
        if shifted_evals.len() != NUM_SHIFTED_COLUMNS || col_evals_at_z.len() < NUM_COLUMNS {
            return Scalar::zero(alpha.curve_type());
        }
        let es: Vec<Expr> = shifted_constraint_list();
        proof {
            constraints::lemma_well_formed_more(
                es@,
                NUM_COLUMNS as nat,
                col_evals_at_z.len() as nat,
                NUM_SHIFTED_COLUMNS as nat,
            );
        }
        let total: Scalar = constraints::evaluate_at_point(
            &es,
            col_evals_at_z,
            shifted_evals,
            alpha,
            alpha,
        );
        let weight: Scalar = power(alpha, alpha_offset as u64);
        let weighted: Scalar = total.mul(&weight);
        let factor: Scalar = z.sub(omega_n_minus_1);
        let r: Scalar = weighted.mul(&factor);
        proof {
            let m = field::order(alpha.curve());
            field::lemma_order(alpha.curve());
            let c = constraints::combined(
                es@,
                poly_arith::values(col_evals_at_z@),
                poly_arith::values(shifted_evals@),
                alpha@,
                alpha@,
            );
            let a = modular::ipow(alpha@, alpha_offset as nat);
            modular::lemma_cong_rem(c, m);
            modular::lemma_cong_mul(total@, c, weight@, a, m);
            modular::lemma_cong_rem(total@ * weight@, m);
            modular::lemma_cong_rem(z@ - omega_n_minus_1@, m);
            modular::lemma_cong_mul(weighted@, c * a, factor@, z@ - omega_n_minus_1@, m);
        }
        r
    }

    /// The two-row constraints as a polynomial.
    pub fn build_shifted_constraint_polynomial(
        &self,
        column_coeffs: &[Vec<Scalar>],
        alpha: &Scalar,
        domain_size: u64,
        omega: &Scalar,
        alpha_offset: usize,
    ) -> (r: Vec<Scalar>)
        requires
            column_coeffs.len() >= NUM_COLUMNS,
            constraints::coefficients_readable(
                shifted_constraints(),
                column_coeffs@,
                alpha.curve(),
            ),
            shifted_readable(column_coeffs@, alpha.curve()),
            omega.curve() == alpha.curve(),
            domain_size >= 1,
        ensures
            poly_arith::reduced(
                r@,
                shifted_poly(
                    expr::column_polys(column_coeffs@),
                    omega@,
                    alpha@,
                    alpha_offset as nat,
                    domain_size as nat,
                ),
                alpha.curve(),
            ),
    {
        let curve: CurveType = alpha.curve_type();
        let next: Vec<Vec<Scalar>> = shift_columns(column_coeffs, omega);
        let es: Vec<Expr> = shifted_constraint_list();
        let ghost cols = expr::column_polys(column_coeffs@);
        let ghost np = expr::column_polys(next@);
        let ghost m = field::order(curve);
        proof {
            constraints::lemma_well_formed_more(
                es@,
                NUM_COLUMNS as nat,
                column_coeffs.len() as nat,
                NUM_SHIFTED_COLUMNS as nat,
            );
        }
        let total: Vec<Scalar> = constraints::build_polynomial(
            &es,
            column_coeffs,
            next.as_slice(),
            alpha,
            alpha,
        );
        let ghost p = constraints::combined_poly(es@, cols, np, alpha@, alpha@);
        let ghost q = constraints::combined_poly(
            es@,
            cols,
            shifted_polys(cols, omega@),
            alpha@,
            alpha@,
        );
        proof {
            field::lemma_order(curve);
            constraints::lemma_combined_cong(
                es@,
                cols,
                np,
                shifted_polys(cols, omega@),
                alpha@,
                alpha@,
                m,
            );
            lemma_scaled_cong(total@, p, q, curve);
            let l = (usize::MAX / 8) as nat;
            assert forall|i: int| 0 <= i < es.len() implies constraints::fits(
                #[trigger] es@[i],
                cols.len(),
                np.len(),
                3,
            ) by {}
            constraints::lemma_combined_len(es@, cols, np, alpha@, alpha@, l);
        }
        let weight: Scalar = power(alpha, alpha_offset as u64);
        let weighted: Vec<Scalar> = poly_scalar_mul(total.as_slice(), &weight);
        let last: Scalar = power(omega, domain_size - 1);
        let neg: Scalar = Scalar::zero(curve).sub(&last);
        let factor: Vec<Scalar> = vec![neg, Scalar::one(curve)];
        assert(poly_arith::on_curve(factor@, curve));
        let r: Vec<Scalar> = poly_mul(weighted.as_slice(), factor.as_slice(), curve);
        proof {
            let a = modular::ipow(alpha@, alpha_offset as nat);
            let w = modular::ipow(omega@, (domain_size - 1) as nat);
            expr::lemma_pscale_cong(poly_arith::values(total@), q, weight@, a, m);
            lemma_scaled_cong(
                weighted@,
                poly_arith::pscale(poly_arith::values(total@), weight@),
                poly_arith::pscale(q, a),
                curve,
            );
            let f = seq![-w, 1int];
            let fv = poly_arith::values(factor@);
            assert(expr::pcong(fv, f, m)) by {
                modular::lemma_cong_rem(0 - last@, m);
                modular::lemma_cong_sub(0, 0, last@, w, m);
            }
            expr::lemma_pmul_cong(
                poly_arith::values(weighted@),
                poly_arith::pscale(q, a),
                fv,
                f,
                m,
            );
            expr::lemma_reduced_transfer(
                r@,
                poly_arith::pmul(poly_arith::values(weighted@), fv),
                poly_arith::pmul(poly_arith::pscale(q, a), f),
                curve,
            );
        }
        r
    }

    pub fn selector_column_indices(&self) -> (r: Vec<usize>)
        ensures
            r@ == seq![COL_IS_REAL, COL_IS_ROOT_BOUND_AT, COL_IS_BLOCK_HASH_BOUND_AT, COL_IS_LOGS_BLOOM_LEAF_BOUND_AT, COL_IS_EXTRA_DATA_LEAF_BOUND_AT, COL_IS_LAYER_0, COL_IS_PAIR8, COL_IS_PAIR13, COL_IS_PAIR16, COL_IS_PAIR18, COL_IS_ROW0, COL_IS_ROW1, COL_IS_ROW3, COL_IS_ROW4, COL_IS_ROW7, COL_IS_ROW9, COL_IS_ROW10, COL_IS_ROW11, COL_IS_ROW12, COL_IS_ROW14, COL_IS_ROW15, COL_IS_ROW17],
    {
        let r: Vec<usize> = vec![COL_IS_REAL, COL_IS_ROOT_BOUND_AT, COL_IS_BLOCK_HASH_BOUND_AT, COL_IS_LOGS_BLOOM_LEAF_BOUND_AT, COL_IS_EXTRA_DATA_LEAF_BOUND_AT, COL_IS_LAYER_0, COL_IS_PAIR8, COL_IS_PAIR13, COL_IS_PAIR16, COL_IS_PAIR18, COL_IS_ROW0, COL_IS_ROW1, COL_IS_ROW3, COL_IS_ROW4, COL_IS_ROW7, COL_IS_ROW9, COL_IS_ROW10, COL_IS_ROW11, COL_IS_ROW12, COL_IS_ROW14, COL_IS_ROW15, COL_IS_ROW17];
        assert(r@ =~= seq![COL_IS_REAL, COL_IS_ROOT_BOUND_AT, COL_IS_BLOCK_HASH_BOUND_AT, COL_IS_LOGS_BLOOM_LEAF_BOUND_AT, COL_IS_EXTRA_DATA_LEAF_BOUND_AT, COL_IS_LAYER_0, COL_IS_PAIR8, COL_IS_PAIR13, COL_IS_PAIR16, COL_IS_PAIR18, COL_IS_ROW0, COL_IS_ROW1, COL_IS_ROW3, COL_IS_ROW4, COL_IS_ROW7, COL_IS_ROW9, COL_IS_ROW10, COL_IS_ROW11, COL_IS_ROW12, COL_IS_ROW14, COL_IS_ROW15, COL_IS_ROW17]);
        r
    }

    pub fn padding_selector_column(&self) -> (r: Option<usize>)
        ensures
            r == None::<usize>,
    {
        None
    }

    /// Clears the padding rows.
    pub fn fix_trace_padding(
        &self,
        columns: &mut [Vec<Scalar>],
        num_rows: usize,
        padded_size: usize,
    )
        ensures
            constraints::padding_cleared(
                old(columns)@,
                final(columns)@,
                NUM_COLUMNS as nat,
                num_rows as nat,
                padded_size as nat,
                CurveType::Bls48581,
            ),
    {
        constraints::clear_padding(
            columns,
            NUM_COLUMNS,
            num_rows,
            padded_size,
            CurveType::Bls48581,
        )
    }

    /// Every byte column lies in the table of bytes.
    pub fn lookup_declarations(&self) -> (r: LookupRequirements)
        ensures
            r.tables.len() == 1,
            r.tables@[0].size == 256,
            bytes_declared(r.declarations@, 32),
    {
        let tables: Vec<LookupTable> = vec![LookupTable::range(256)];
        let mut declarations: Vec<(LookupDeclaration, usize)> = Vec::new();
        let mut k: usize = 0;
        while k < 32
            invariant
                k <= 32,
                bytes_declared(declarations@, k as nat),
            decreases 32 - k,
        {
            push_byte_declarations(&mut declarations, k);
            k = k + 1;
        }
        LookupRequirements { tables, declarations }
    }
}

/// Reduced coefficients of a polynomial are congruent to every polynomial
/// that is congruent to it.
proof fn lemma_scaled_cong(v: Seq<Scalar>, p: Seq<int>, q: Seq<int>, curve: CurveType)
    requires
        poly_arith::reduced(v, p, curve),
        expr::pcong(p, q, field::order(curve)),
    ensures
        expr::pcong(poly_arith::values(v), q, field::order(curve)),
{
    let m = field::order(curve);
    field::lemma_order(curve);
    let x = poly_arith::values(v);
    assert forall|i: int| 0 <= i < x.len() implies modular::cong(#[trigger] x[i], q[i], m) by {
        assert(v[i].is(curve, p[i]));
        assert(modular::cong(p[i], q[i], m));
        modular::lemma_cong_rem(p[i], m);
    }
}

/// The columns that are also read on the next row are in coefficient form on
/// `curve`.
pub open spec fn shifted_readable(columns: Seq<Vec<Scalar>>, curve: CurveType) -> bool {
    forall|k: int|
        0 <= k < NUM_SHIFTED_COLUMNS ==> expr::coefficient_form(
            columns[#[trigger] shifted_column(k)],
            curve,
        )
}

/// The columns that are also read on the next row, shifted.
fn shift_columns(columns: &[Vec<Scalar>], omega: &Scalar) -> (r: Vec<Vec<Scalar>>)
    requires
        columns.len() >= NUM_COLUMNS,
        shifted_readable(columns@, omega.curve()),
    ensures
        r.len() == NUM_SHIFTED_COLUMNS,
        forall|k: int|
            0 <= k < r.len() ==> expr::coefficient_form(#[trigger] r@[k], omega.curve()),
        forall|k: int|
            0 <= k < NUM_SHIFTED_COLUMNS ==> expr::pcong(
                #[trigger] expr::column_polys(r@)[k],
                shifted_polys(expr::column_polys(columns@), omega@)[k],
                field::order(omega.curve()),
            ),
{
    let mut r: Vec<Vec<Scalar>> = Vec::with_capacity(NUM_SHIFTED_COLUMNS);
    let ghost cols = expr::column_polys(columns@);
    let mut k: usize = 0;
    while k < NUM_SHIFTED_COLUMNS
        invariant
            k <= NUM_SHIFTED_COLUMNS,
            columns.len() >= NUM_COLUMNS,
            shifted_readable(columns@, omega.curve()),
            cols == expr::column_polys(columns@),
            r.len() == k,
            forall|j: int|
                0 <= j < k ==> poly_arith::reduced(
                    (#[trigger] r@[j])@,
                    poly_arith::pshift(cols[shifted_column(j)], omega@),
                    omega.curve(),
                ),
        decreases NUM_SHIFTED_COLUMNS - k,
    {
        let c: usize = shifted_column_of(k);
        r.push(poly_shift(columns[c].as_slice(), omega));
        k = k + 1;
    }
    proof {
        let m = field::order(omega.curve());
        field::lemma_order(omega.curve());
        assert forall|j: int| 0 <= j < NUM_SHIFTED_COLUMNS implies expr::pcong(
            #[trigger] expr::column_polys(r@)[j],
            shifted_polys(cols, omega@)[j],
            m,
        ) by {
            assert(poly_arith::reduced(
                r@[j]@,
                poly_arith::pshift(cols[shifted_column(j)], omega@),
                omega.curve(),
            ));
            lemma_scaled_cong(
                r@[j]@,
                poly_arith::pshift(cols[shifted_column(j)], omega@),
                poly_arith::pshift(cols[shifted_column(j)], omega@),
                omega.curve(),
            );
        }
        assert forall|j: int| 0 <= j < r.len() implies (#[trigger] r@[j]).len() <= usize::MAX / 8
            && poly_arith::on_curve(r@[j]@, omega.curve()) by {
            assert(columns@[shifted_column(j)].len() <= usize::MAX / 8);
            assert forall|i: int| 0 <= i < r@[j].len() implies (#[trigger] r@[j]@[i]).curve()
                == omega.curve() by {
                assert(r@[j]@[i].is(
                    omega.curve(),
                    poly_arith::pshift(cols[shifted_column(j)], omega@)[i],
                ));
            }
        }
    }
    r
}

/// The polynomial reading of the system agrees with its reading at a point.
pub proof fn law_polynomial_at_point(cols: Seq<Seq<int>>, alpha: int, z: int)
    requires
        cols.len() >= NUM_COLUMNS,
    ensures
        poly_arith::peval(
            constraints::combined_poly(row_constraints(), cols, Seq::empty(), alpha, alpha),
            z,
        ) == constraints::combined(
            row_constraints(),
            expr::evals(cols, z),
            Seq::empty(),
            alpha,
            alpha,
        ),
{
    lemma_well_formed();
    constraints::lemma_well_formed_more(row_constraints(), NUM_COLUMNS as nat, cols.len(), 0);
    constraints::law_combined_reading(row_constraints(), cols, Seq::empty(), alpha, alpha, z);
    assert(expr::evals(Seq::empty(), z) =~= Seq::empty());
}

/// The polynomial reading of the system takes at every point, modulo the
/// order, the reading of the system over numbers that stand for the values of
/// the columns there.
pub proof fn law_polynomial_modulo(
    cols: Seq<Seq<int>>,
    e: Seq<int>,
    alpha: int,
    z: int,
    curve: CurveType,
)
    requires
        cols.len() >= NUM_COLUMNS,
        forall|c: int|
            0 <= c < NUM_COLUMNS ==> (#[trigger] e[c]) % field::order(curve) == poly_arith::peval(
                cols[c],
                z,
            ) % field::order(curve),
    ensures
        poly_arith::peval(
            constraints::combined_poly(row_constraints(), cols, Seq::empty(), alpha, alpha),
            z,
        ) % field::order(curve) == constraints::combined(
            row_constraints(),
            e,
            Seq::empty(),
            alpha,
            alpha,
        ) % field::order(curve),
{
    field::lemma_order(curve);
    lemma_well_formed();
    constraints::law_combined_reading_modulo(
        row_constraints(),
        NUM_COLUMNS as nat,
        cols,
        Seq::empty(),
        e,
        Seq::empty(),
        alpha,
        alpha,
        z,
        field::order(curve),
    );
}

/// The polynomial `p` of the constraints takes at `z` the value `v` of the
/// constraints at the point where the columns have the values `e`.
pub proof fn law_polynomial_value(
    col_coeffs: Seq<Vec<Scalar>>,
    e: Seq<Scalar>,
    z: Scalar,
    alpha: Scalar,
    p: Seq<Scalar>,
    v: Scalar,
)
    requires
        col_coeffs.len() >= NUM_COLUMNS,
        e.len() >= NUM_COLUMNS,
        forall|c: int|
            0 <= c < NUM_COLUMNS ==> (#[trigger] e[c])@ % field::order(alpha.curve())
                == poly_arith::peval(poly_arith::values(col_coeffs[c]@), z@) % field::order(
                alpha.curve(),
            ),
        poly_arith::reduced(
            p,
            constraints::combined_poly(
                row_constraints(),
                expr::column_polys(col_coeffs),
                Seq::empty(),
                alpha@,
                alpha@,
            ),
            alpha.curve(),
        ),
        v@ == constraints::combined(
            row_constraints(),
            poly_arith::values(e),
            Seq::empty(),
            alpha@,
            alpha@,
        ) % field::order(alpha.curve()),
    ensures
        poly_arith::peval(poly_arith::values(p), z@) % field::order(alpha.curve()) == v@,
{
    let cols = expr::column_polys(col_coeffs);
    let row = poly_arith::values(e);
    let m = field::order(alpha.curve());
    assert forall|c: int| 0 <= c < NUM_COLUMNS implies (#[trigger] row[c]) % m == poly_arith::peval(
        cols[c],
        z@,
    ) % m by {
        assert(e[c]@ % m == poly_arith::peval(poly_arith::values(col_coeffs[c]@), z@) % m);
    }
    law_polynomial_modulo(cols, row, alpha@, z@, alpha.curve());
    poly_arith::law_reduced_value(
        p,
        constraints::combined_poly(row_constraints(), cols, Seq::empty(), alpha@, alpha@),
        alpha.curve(),
        z@,
    );
}

/// The polynomial of the constraints is the same whatever the domain.
pub proof fn law_polynomial_of_any_domain(
    col_coeffs: Seq<Vec<Scalar>>,
    alpha: Scalar,
    p: Seq<Scalar>,
    q: Seq<Scalar>,
)
    requires
        poly_arith::reduced(
            p,
            constraints::combined_poly(
                row_constraints(),
                expr::column_polys(col_coeffs),
                Seq::empty(),
                alpha@,
                alpha@,
            ),
            alpha.curve(),
        ),
        poly_arith::reduced(
            q,
            constraints::combined_poly(
                row_constraints(),
                expr::column_polys(col_coeffs),
                Seq::empty(),
                alpha@,
                alpha@,
            ),
            alpha.curve(),
        ),
    ensures
        poly_arith::same_scalars(p, q),
{
    poly_arith::law_reduced_unique(
        p,
        q,
        constraints::combined_poly(
            row_constraints(),
            expr::column_polys(col_coeffs),
            Seq::empty(),
            alpha@,
            alpha@,
        ),
        alpha.curve(),
    );
}

// ─── Links ────────────────────────────────────────────────────────────

/// Operands and hash are an invocation of the SHA-256 table.
pub fn make_payload_pair_to_sha256_extract_linkage_descriptor(
    payload_pair_layer_index: usize,
    sha256_extract_layer_index: usize,
) -> (r: CrossAirLogUpDescriptor)
    ensures
        r.is(
            cross_air_logup::Link {
                label: "execution_payload_header_pair_sha256_extract_v1"@,
                a_layer: payload_pair_layer_index as int,
                a_columns: cross_air_logup::run(COL_LEFT_OFFSET as int, 32) + cross_air_logup::run(
                    COL_RIGHT_OFFSET as int,
                    32,
                ) + cross_air_logup::run(COL_HASH_OFFSET as int, 32),
                a_selector: COL_IS_REAL as int,
                b_layer: sha256_extract_layer_index as int,
                b_columns: cross_air_logup::run(
                    sha256_extract::COL_INPUT_BYTE_OFFSET as int,
                    sha256_extract::NUM_INPUT_BYTES as nat,
                ) + cross_air_logup::run(
                    sha256_extract::COL_OUTPUT_BYTE_OFFSET as int,
                    sha256_extract::NUM_OUTPUT_BYTES as nat,
                ),
                b_selector: sha256_extract::COL_IS_REAL as int,
            },
        ),
{
    let mut a_columns: Vec<usize> = column_run(COL_LEFT_OFFSET, 32);
    push_run(&mut a_columns, COL_RIGHT_OFFSET, 32);
    push_run(&mut a_columns, COL_HASH_OFFSET, 32);
    let mut b_columns: Vec<usize> = column_run(
        sha256_extract::COL_INPUT_BYTE_OFFSET,
        sha256_extract::NUM_INPUT_BYTES,
    );
    push_run(
        &mut b_columns,
        sha256_extract::COL_OUTPUT_BYTE_OFFSET,
        sha256_extract::NUM_OUTPUT_BYTES,
    );
    CrossAirLogUpDescriptor {
        label: "execution_payload_header_pair_sha256_extract_v1".to_string(),
        a_layer_index: payload_pair_layer_index,
        a_columns,
        a_selector_column: Some(COL_IS_REAL),
        b_layer_index: sha256_extract_layer_index,
        b_columns,
        b_selector_column: Some(sha256_extract::COL_IS_REAL),
    }
}

/// The columns of the block hash.
pub fn make_payload_pair_block_hash_output_column_indices() -> (r: Vec<usize>)
    ensures
        cross_air_logup::indices(r@) == cross_air_logup::run(COL_CLAIMED_BLOCK_HASH_OFFSET as int, 32),
{
    column_run(COL_CLAIMED_BLOCK_HASH_OFFSET, 32)
}

/// The columns of the root.
pub fn make_payload_pair_root_output_column_indices() -> (r: Vec<usize>)
    ensures
        cross_air_logup::indices(r@) == cross_air_logup::run(COL_CLAIMED_ROOT_OFFSET as int, 32),
{
    column_run(COL_CLAIMED_ROOT_OFFSET, 32)
}

/// The columns of the root of the logs bloom.
pub fn make_payload_pair_logs_bloom_root_output_column_indices() -> (r: Vec<usize>)
    ensures
        cross_air_logup::indices(r@) == cross_air_logup::run(COL_CLAIMED_LOGS_BLOOM_ROOT_OFFSET as int, 32),
{
    column_run(COL_CLAIMED_LOGS_BLOOM_ROOT_OFFSET, 32)
}

/// The columns of the root of the extra data.
pub fn make_payload_pair_extra_data_root_output_column_indices() -> (r: Vec<usize>)
    ensures
        cross_air_logup::indices(r@) == cross_air_logup::run(COL_CLAIMED_EXTRA_DATA_ROOT_OFFSET as int, 32),
{
    column_run(COL_CLAIMED_EXTRA_DATA_ROOT_OFFSET, 32)
}

/// The block hash is that of the execution block header.
pub fn make_payload_pair_to_block_header_linkage_descriptor(
    payload_pair_layer_index: usize,
    block_header_layer_index: usize,
) -> (r: CrossAirLogUpDescriptor)
    ensures
        r.is(
            cross_air_logup::Link {
                label: "payload_pair_block_hash_to_block_header_v1"@,
                a_layer: payload_pair_layer_index as int,
                a_columns: cross_air_logup::run(COL_CLAIMED_BLOCK_HASH_OFFSET as int, 32),
                a_selector: COL_IS_BLOCK_HASH_BOUND_AT as int,
                b_layer: block_header_layer_index as int,
                b_columns: cross_air_logup::run(
                    block_header_air::COL_BLOCK_HASH_OFFSET as int,
                    32,
                ),
                b_selector: block_header_air::COL_IS_REAL as int,
            },
        ),
{
    CrossAirLogUpDescriptor {
        label: "payload_pair_block_hash_to_block_header_v1".to_string(),
        a_layer_index: payload_pair_layer_index,
        a_columns: column_run(COL_CLAIMED_BLOCK_HASH_OFFSET, 32),
        a_selector_column: Some(COL_IS_BLOCK_HASH_BOUND_AT),
        b_layer_index: block_header_layer_index,
        b_columns: column_run(block_header_air::COL_BLOCK_HASH_OFFSET, 32),
        b_selector_column: Some(block_header_air::COL_IS_REAL),
    }
}

// ─── What the trace holds ─────────────────────────────────────────────

/// The 32 cells from column `c` are zero.
pub open spec fn empty_at(t: TracePolynomials, c: int, r: int) -> bool {
    forall|k: int| 0 <= k < 32 ==> trace::at(t, #[trigger] (c + k), r) == 0
}

/// The trace of invocations holds, on the row of each, its operands and its
/// hash, and one set selector: that of its position.
pub proof fn law_trace_holds_invocations(
    invocations: Seq<Sha256PairInvocation>,
    t: TracePolynomials,
    curve: CurveType,
    r: int,
)
    requires
        trace::holds(t, NUM_COLUMNS as nat, invocations.len(), curve, cells(invocations)),
        0 <= r < invocations.len(),
    ensures
        trace::string_at(t, COL_LEFT_OFFSET as int, r, invocations[r].left@),
        trace::string_at(t, COL_RIGHT_OFFSET as int, r, invocations[r].right@),
        trace::string_at(t, COL_HASH_OFFSET as int, r, invocations[r].hash@),
        trace::at(t, COL_IS_REAL as int, r) == 1,
        trace::at(t, COL_IS_ROW0 as int, r) == (if r == 0 {
            1int
        } else {
            0int
        }),
        trace::at(t, COL_IS_ROW1 as int, r) == (if r == 1 {
            1int
        } else {
            0int
        }),
        trace::at(t, COL_IS_LOGS_BLOOM_LEAF_BOUND_AT as int, r) == (if r == 2 {
            1int
        } else {
            0int
        }),
        trace::at(t, COL_IS_ROW3 as int, r) == (if r == 3 {
            1int
        } else {
            0int
        }),
        trace::at(t, COL_IS_ROW4 as int, r) == (if r == 4 {
            1int
        } else {
            0int
        }),
        trace::at(t, COL_IS_EXTRA_DATA_LEAF_BOUND_AT as int, r) == (if r == 5 {
            1int
        } else {
            0int
        }),
        trace::at(t, COL_IS_BLOCK_HASH_BOUND_AT as int, r) == (if r == 6 {
            1int
        } else {
            0int
        }),
        trace::at(t, COL_IS_ROW7 as int, r) == (if r == 7 {
            1int
        } else {
            0int
        }),
        trace::at(t, COL_IS_PAIR8 as int, r) == (if r == 8 {
            1int
        } else {
            0int
        }),
        trace::at(t, COL_IS_ROW9 as int, r) == (if r == 9 {
            1int
        } else {
            0int
        }),
        trace::at(t, COL_IS_ROW10 as int, r) == (if r == 10 {
            1int
        } else {
            0int
        }),
        trace::at(t, COL_IS_ROW11 as int, r) == (if r == 11 {
            1int
        } else {
            0int
        }),
        trace::at(t, COL_IS_ROW12 as int, r) == (if r == 12 {
            1int
        } else {
            0int
        }),
        trace::at(t, COL_IS_PAIR13 as int, r) == (if r == 13 {
            1int
        } else {
            0int
        }),
        trace::at(t, COL_IS_ROW14 as int, r) == (if r == 14 {
            1int
        } else {
            0int
        }),
        trace::at(t, COL_IS_ROW15 as int, r) == (if r == 15 {
            1int
        } else {
            0int
        }),
        trace::at(t, COL_IS_PAIR16 as int, r) == (if r == 16 {
            1int
        } else {
            0int
        }),
        trace::at(t, COL_IS_ROW17 as int, r) == (if r == 17 {
            1int
        } else {
            0int
        }),
        trace::at(t, COL_IS_PAIR18 as int, r) == (if r == 18 {
            1int
        } else {
            0int
        }),
        trace::at(t, COL_IS_ROOT_BOUND_AT as int, r) == (if r == 19 {
            1int
        } else {
            0int
        }),
        trace::at(t, COL_IS_LAYER_0 as int, r) == (if r < 9 {
            1int
        } else {
            0int
        }),
{
    trace::lemma_cells(t, NUM_COLUMNS as nat, invocations.len(), curve, cells(invocations), r);
}

/// Every row of the trace holds the outputs of the tree, as far as there are
/// invocations that give them: the root, the block hash, and the roots of logs
/// bloom and extra data. The rows of the first layer repeat their operands as
/// claims, and every row holds the roots of empty trees.
pub proof fn law_trace_holds_outputs(
    invocations: Seq<Sha256PairInvocation>,
    t: TracePolynomials,
    curve: CurveType,
    r: int,
)
    requires
        trace::holds(t, NUM_COLUMNS as nat, invocations.len(), curve, cells(invocations)),
        0 <= r < invocations.len(),
    ensures
        invocations.len() > 19 ==> trace::string_at(
            t,
            COL_CLAIMED_ROOT_OFFSET as int,
            r,
            invocations[19].hash@,
        ),
        invocations.len() <= 19 ==> empty_at(t, COL_CLAIMED_ROOT_OFFSET as int, r),
        invocations.len() > 6 ==> trace::string_at(
            t,
            COL_CLAIMED_BLOCK_HASH_OFFSET as int,
            r,
            invocations[6].left@,
        ),
        invocations.len() <= 6 ==> empty_at(t, COL_CLAIMED_BLOCK_HASH_OFFSET as int, r),
        invocations.len() > 2 ==> trace::string_at(
            t,
            COL_CLAIMED_LOGS_BLOOM_ROOT_OFFSET as int,
            r,
            invocations[2].left@,
        ),
        invocations.len() <= 2 ==> empty_at(t, COL_CLAIMED_LOGS_BLOOM_ROOT_OFFSET as int, r),
        invocations.len() > 5 ==> trace::string_at(
            t,
            COL_CLAIMED_EXTRA_DATA_ROOT_OFFSET as int,
            r,
            invocations[5].left@,
        ),
        invocations.len() <= 5 ==> empty_at(t, COL_CLAIMED_EXTRA_DATA_ROOT_OFFSET as int, r),
        r < 9 ==> trace::string_at(t, COL_CLAIMED_LEFT_OFFSET as int, r, invocations[r].left@),
        r >= 9 ==> empty_at(t, COL_CLAIMED_LEFT_OFFSET as int, r),
        r < 9 ==> trace::string_at(t, COL_CLAIMED_RIGHT_OFFSET as int, r, invocations[r].right@),
        r >= 9 ==> empty_at(t, COL_CLAIMED_RIGHT_OFFSET as int, r),
        empty_at(t, COL_ZH0_OFFSET as int, r),
        trace::string_at(t, COL_ZH1_OFFSET as int, r, ssz::zero_root(1)),
        trace::string_at(t, COL_ZH2_OFFSET as int, r, ssz::zero_root(2)),
        trace::string_at(t, COL_ZH3_OFFSET as int, r, ssz::zero_root(3)),
{
    trace::lemma_cells(t, NUM_COLUMNS as nat, invocations.len(), curve, cells(invocations), r);
    lemma_zero_root_len(1);
    lemma_zero_root_len(2);
    lemma_zero_root_len(3);
    assert forall|d: int, k: int| 0 <= d < 4 && 0 <= k < 32 implies trace::at(
        t,
        #[trigger] (COL_ZH0_OFFSET + 32 * d + k),
        r,
    ) == ssz::zero_root(d as nat)[k] by {
        let c = COL_ZH0_OFFSET + 32 * d + k;
        assert((c - COL_ZH0_OFFSET) / 32 == d && (c - COL_ZH0_OFFSET) % 32 == k);
        assert(trace::at(t, c, r) == pair_cell(invocations, c, r));
    }
    assert forall|k: int| 0 <= k < 32 implies trace::at(t, #[trigger] (COL_ZH0_OFFSET + k), r)
        == 0 by {
        assert(COL_ZH0_OFFSET + 32 * 0 + k == COL_ZH0_OFFSET + k);
    }
    assert forall|k: int| 0 <= k < 32 implies trace::at(t, #[trigger] (COL_ZH1_OFFSET + k), r)
        == ssz::zero_root(1)[k] by {
        assert(COL_ZH0_OFFSET + 32 * 1 + k == COL_ZH1_OFFSET + k);
    }
    assert forall|k: int| 0 <= k < 32 implies trace::at(t, #[trigger] (COL_ZH2_OFFSET + k), r)
        == ssz::zero_root(2)[k] by {
        assert(COL_ZH0_OFFSET + 32 * 2 + k == COL_ZH2_OFFSET + k);
    }
    assert forall|k: int| 0 <= k < 32 implies trace::at(t, #[trigger] (COL_ZH3_OFFSET + k), r)
        == ssz::zero_root(3)[k] by {
        assert(COL_ZH0_OFFSET + 32 * 3 + k == COL_ZH3_OFFSET + k);
    }
}

proof fn lemma_zero_root_len(d: nat)
    ensures
        ssz::zero_root(d).len() == 32,
{
    if d > 0 {
        let z = ssz::zero_root((d - 1) as nat);
        sha256::law_digest_length(z, z, z);
    }
}

/// The 32 cells of relay `idx` carry the hash of invocation `from` on the rows
/// `from` to `to`, and are zero on other rows.
pub open spec fn relays(
    invocations: Seq<Sha256PairInvocation>,
    t: TracePolynomials,
    idx: int,
    r: int,
    from: int,
    to: int,
) -> bool {
    &&& from <= r <= to ==> trace::string_at(
        t,
        COL_RELAY_OFFSET + 32 * idx,
        r,
        invocations[from].hash@,
    )
    &&& r < from || to < r ==> empty_at(t, COL_RELAY_OFFSET + 32 * idx, r)
}

/// The relays of the trace: each carries the hash of an invocation from its row
/// to the row of the invocation that it is an operand of.
pub proof fn law_trace_holds_relays(
    invocations: Seq<Sha256PairInvocation>,
    t: TracePolynomials,
    curve: CurveType,
    r: int,
)
    requires
        trace::holds(t, NUM_COLUMNS as nat, invocations.len(), curve, cells(invocations)),
        0 <= r < invocations.len(),
    ensures
        relays(invocations, t, 0, r, 0, 9),
        relays(invocations, t, 1, r, 1, 9),
        relays(invocations, t, 2, r, 2, 10),
        relays(invocations, t, 3, r, 3, 10),
        relays(invocations, t, 4, r, 4, 11),
        relays(invocations, t, 5, r, 5, 11),
        relays(invocations, t, 6, r, 6, 12),
        relays(invocations, t, 7, r, 7, 12),
        relays(invocations, t, 8, r, 9, 14),
        relays(invocations, t, 9, r, 10, 14),
        relays(invocations, t, 10, r, 11, 15),
        relays(invocations, t, 11, r, 12, 15),
        relays(invocations, t, 12, r, 14, 17),
        relays(invocations, t, 13, r, 15, 17),
        relays(invocations, t, 14, r, 17, 19),
{
    trace::lemma_cells(t, NUM_COLUMNS as nat, invocations.len(), curve, cells(invocations), r);
    assert forall|idx: int| 0 <= idx < 15 implies #[trigger] relays(
        invocations,
        t,
        idx,
        r,
        producer(idx),
        consumer(idx),
    ) by {
        assert forall|k: int| 0 <= k < 32 implies trace::at(
            t,
            #[trigger] (COL_RELAY_OFFSET + 32 * idx + k),
            r,
        ) == relay_byte(invocations, idx, k, r) by {
            let c = COL_RELAY_OFFSET + 32 * idx + k;
            assert((c - COL_RELAY_OFFSET) / 32 == idx && (c - COL_RELAY_OFFSET) % 32 == k);
            assert(trace::at(t, c, r) == pair_cell(invocations, c, r));
        }
    }
    assert(relays(invocations, t, 0, r, producer(0), consumer(0)));
    assert(relays(invocations, t, 1, r, producer(1), consumer(1)));
    assert(relays(invocations, t, 2, r, producer(2), consumer(2)));
    assert(relays(invocations, t, 3, r, producer(3), consumer(3)));
    assert(relays(invocations, t, 4, r, producer(4), consumer(4)));
    assert(relays(invocations, t, 5, r, producer(5), consumer(5)));
    assert(relays(invocations, t, 6, r, producer(6), consumer(6)));
    assert(relays(invocations, t, 7, r, producer(7), consumer(7)));
    assert(relays(invocations, t, 8, r, producer(8), consumer(8)));
    assert(relays(invocations, t, 9, r, producer(9), consumer(9)));
    assert(relays(invocations, t, 10, r, producer(10), consumer(10)));
    assert(relays(invocations, t, 11, r, producer(11), consumer(11)));
    assert(relays(invocations, t, 12, r, producer(12), consumer(12)));
    assert(relays(invocations, t, 13, r, producer(13), consumer(13)));
    assert(relays(invocations, t, 14, r, producer(14), consumer(14)));
}

// ─── What the constraints are ─────────────────────────────────────────

/// The value of a constraint that a column is zero or one.
pub open spec fn bit_constraint(row: Seq<int>, s: usize) -> int {
    row[s as int] * (row[s as int] - 1)
}

/// The value of a constraint that compares the 32 columns from `a` with those
/// from `b` where column `s` is set.
pub open spec fn equality_constraint(row: Seq<int>, s: usize, a: int, b: int, ch: int) -> int {
    row[s as int] * poly_arith::peval(Seq::new(32, |k: int| row[a + k] - row[b + k]), ch)
}

proof fn lemma_constraint_value(row: Seq<int>, ch: int, i: int)
    requires
        0 <= i < NUM_ROW_CONSTRAINTS,
    ensures
        is_bit_constraint(i) ==> expr::ev(row_constraints()[i], row, Seq::empty(), ch)
            == bit_constraint(row, constraint_selector(i)),
        !is_bit_constraint(i) ==> expr::ev(row_constraints()[i], row, Seq::empty(), ch)
            == equality_constraint(
            row,
            constraint_selector(i),
            constraint_runs(i).0 as int,
            constraint_runs(i).1 as int,
            ch,
        ),
{
    let e = Seq::<int>::empty();
    let s = constraint_selector(i);
    let (a, b) = constraint_runs(i);
    lemma_constraint_bounds(i);
    assert(row_constraints()[i] == constraint_at(i));
    if is_bit_constraint(i) {
        constraints::lemma_ev_binary(s, row, e, ch);
    } else {
        let ds = constraints::diffs_of(a, b, 32);
        constraints::lemma_ev_gated(s, constraints::rlc_of(ds), row, e, ch);
        constraints::lemma_ev_rlc(ds, row, e, ch);
        reveal_with_fuel(expr::ev, 2);
        assert(constraints::denoted(ds, row, e, ch) =~= Seq::new(
            32,
            |k: int| row[a + k] - row[b + k],
        ));
    }
}

/// The constraints on a row, but for those on relays: which columns are bits,
/// and which columns are equal where a bit is set.
pub proof fn law_constraint_values(row: Seq<int>, ch: int)
    ensures
        row_constraints().len() == 62,
        ({
            let v = |i: int| expr::ev(row_constraints()[i], row, Seq::empty(), ch);
            &&& v(0) == bit_constraint(row, COL_IS_REAL)
            &&& v(1) == bit_constraint(row, COL_IS_ROOT_BOUND_AT)
            &&& v(2) == equality_constraint(
                row,
                COL_IS_ROOT_BOUND_AT,
                COL_HASH_OFFSET as int,
                COL_CLAIMED_ROOT_OFFSET as int,
                ch,
            )
            &&& v(3) == bit_constraint(row, COL_IS_BLOCK_HASH_BOUND_AT)
            &&& v(4) == equality_constraint(
                row,
                COL_IS_BLOCK_HASH_BOUND_AT,
                COL_LEFT_OFFSET as int,
                COL_CLAIMED_BLOCK_HASH_OFFSET as int,
                ch,
            )
            &&& v(5) == bit_constraint(row, COL_IS_LOGS_BLOOM_LEAF_BOUND_AT)
            &&& v(6) == equality_constraint(
                row,
                COL_IS_LOGS_BLOOM_LEAF_BOUND_AT,
                COL_LEFT_OFFSET as int,
                COL_CLAIMED_LOGS_BLOOM_ROOT_OFFSET as int,
                ch,
            )
            &&& v(7) == bit_constraint(row, COL_IS_EXTRA_DATA_LEAF_BOUND_AT)
            &&& v(8) == equality_constraint(
                row,
                COL_IS_EXTRA_DATA_LEAF_BOUND_AT,
                COL_LEFT_OFFSET as int,
                COL_CLAIMED_EXTRA_DATA_ROOT_OFFSET as int,
                ch,
            )
            &&& v(9) == bit_constraint(row, COL_IS_LAYER_0)
            &&& v(10) == equality_constraint(
                row,
                COL_IS_LAYER_0,
                COL_LEFT_OFFSET as int,
                COL_CLAIMED_LEFT_OFFSET as int,
                ch,
            )
            &&& v(11) == equality_constraint(
                row,
                COL_IS_LAYER_0,
                COL_RIGHT_OFFSET as int,
                COL_CLAIMED_RIGHT_OFFSET as int,
                ch,
            )
            &&& v(12) == bit_constraint(row, COL_IS_PAIR8)
            &&& v(13) == bit_constraint(row, COL_IS_PAIR13)
            &&& v(14) == bit_constraint(row, COL_IS_PAIR16)
            &&& v(15) == bit_constraint(row, COL_IS_PAIR18)
            &&& v(16) == equality_constraint(
                row,
                COL_IS_PAIR8,
                COL_RIGHT_OFFSET as int,
                COL_ZH0_OFFSET as int,
                ch,
            )
            &&& v(17) == equality_constraint(
                row,
                COL_IS_PAIR13,
                COL_RIGHT_OFFSET as int,
                COL_ZH1_OFFSET as int,
                ch,
            )
            &&& v(18) == equality_constraint(
                row,
                COL_IS_PAIR16,
                COL_RIGHT_OFFSET as int,
                COL_ZH2_OFFSET as int,
                ch,
            )
            &&& v(19) == equality_constraint(
                row,
                COL_IS_PAIR18,
                COL_RIGHT_OFFSET as int,
                COL_ZH3_OFFSET as int,
                ch,
            )
            &&& v(20) == bit_constraint(row, COL_IS_ROW0)
            &&& v(21) == bit_constraint(row, COL_IS_ROW1)
            &&& v(22) == bit_constraint(row, COL_IS_ROW3)
            &&& v(23) == bit_constraint(row, COL_IS_ROW4)
            &&& v(24) == bit_constraint(row, COL_IS_ROW7)
            &&& v(25) == bit_constraint(row, COL_IS_ROW9)
            &&& v(26) == bit_constraint(row, COL_IS_ROW10)
            &&& v(27) == bit_constraint(row, COL_IS_ROW11)
            &&& v(28) == bit_constraint(row, COL_IS_ROW12)
            &&& v(29) == bit_constraint(row, COL_IS_ROW14)
            &&& v(30) == bit_constraint(row, COL_IS_ROW15)
            &&& v(31) == bit_constraint(row, COL_IS_ROW17)
        }),
{
    lemma_constraint_value(row, ch, 0);
    lemma_constraint_value(row, ch, 1);
    lemma_constraint_value(row, ch, 2);
    lemma_constraint_value(row, ch, 3);
    lemma_constraint_value(row, ch, 4);
    lemma_constraint_value(row, ch, 5);
    lemma_constraint_value(row, ch, 6);
    lemma_constraint_value(row, ch, 7);
    lemma_constraint_value(row, ch, 8);
    lemma_constraint_value(row, ch, 9);
    lemma_constraint_value(row, ch, 10);
    lemma_constraint_value(row, ch, 11);
    lemma_constraint_value(row, ch, 12);
    lemma_constraint_value(row, ch, 13);
    lemma_constraint_value(row, ch, 14);
    lemma_constraint_value(row, ch, 15);
    lemma_constraint_value(row, ch, 16);
    lemma_constraint_value(row, ch, 17);
    lemma_constraint_value(row, ch, 18);
    lemma_constraint_value(row, ch, 19);
    lemma_constraint_value(row, ch, 20);
    lemma_constraint_value(row, ch, 21);
    lemma_constraint_value(row, ch, 22);
    lemma_constraint_value(row, ch, 23);
    lemma_constraint_value(row, ch, 24);
    lemma_constraint_value(row, ch, 25);
    lemma_constraint_value(row, ch, 26);
    lemma_constraint_value(row, ch, 27);
    lemma_constraint_value(row, ch, 28);
    lemma_constraint_value(row, ch, 29);
    lemma_constraint_value(row, ch, 30);
    lemma_constraint_value(row, ch, 31);
}

/// The constraints on the first eight relays: a relay equals the hash on the row
/// that computes it, and the operand on the row that uses it.
pub proof fn law_relay_constraint_values(row: Seq<int>, ch: int)
    ensures
        expr::ev(row_constraints()[32], row, Seq::empty(), ch) == equality_constraint(row, COL_IS_ROW0, 438, COL_HASH_OFFSET as int, ch),
        expr::ev(row_constraints()[33], row, Seq::empty(), ch) == equality_constraint(row, COL_IS_ROW9, COL_LEFT_OFFSET as int, 438, ch),
        expr::ev(row_constraints()[34], row, Seq::empty(), ch) == equality_constraint(row, COL_IS_ROW1, 470, COL_HASH_OFFSET as int, ch),
        expr::ev(row_constraints()[35], row, Seq::empty(), ch) == equality_constraint(row, COL_IS_ROW9, COL_RIGHT_OFFSET as int, 470, ch),
        expr::ev(row_constraints()[36], row, Seq::empty(), ch) == equality_constraint(row, COL_IS_LOGS_BLOOM_LEAF_BOUND_AT, 502, COL_HASH_OFFSET as int, ch),
        expr::ev(row_constraints()[37], row, Seq::empty(), ch) == equality_constraint(row, COL_IS_ROW10, COL_LEFT_OFFSET as int, 502, ch),
        expr::ev(row_constraints()[38], row, Seq::empty(), ch) == equality_constraint(row, COL_IS_ROW3, 534, COL_HASH_OFFSET as int, ch),
        expr::ev(row_constraints()[39], row, Seq::empty(), ch) == equality_constraint(row, COL_IS_ROW10, COL_RIGHT_OFFSET as int, 534, ch),
        expr::ev(row_constraints()[40], row, Seq::empty(), ch) == equality_constraint(row, COL_IS_ROW4, 566, COL_HASH_OFFSET as int, ch),
        expr::ev(row_constraints()[41], row, Seq::empty(), ch) == equality_constraint(row, COL_IS_ROW11, COL_LEFT_OFFSET as int, 566, ch),
        expr::ev(row_constraints()[42], row, Seq::empty(), ch) == equality_constraint(row, COL_IS_EXTRA_DATA_LEAF_BOUND_AT, 598, COL_HASH_OFFSET as int, ch),
        expr::ev(row_constraints()[43], row, Seq::empty(), ch) == equality_constraint(row, COL_IS_ROW11, COL_RIGHT_OFFSET as int, 598, ch),
        expr::ev(row_constraints()[44], row, Seq::empty(), ch) == equality_constraint(row, COL_IS_BLOCK_HASH_BOUND_AT, 630, COL_HASH_OFFSET as int, ch),
        expr::ev(row_constraints()[45], row, Seq::empty(), ch) == equality_constraint(row, COL_IS_ROW12, COL_LEFT_OFFSET as int, 630, ch),
        expr::ev(row_constraints()[46], row, Seq::empty(), ch) == equality_constraint(row, COL_IS_ROW7, 662, COL_HASH_OFFSET as int, ch),
        expr::ev(row_constraints()[47], row, Seq::empty(), ch) == equality_constraint(row, COL_IS_ROW12, COL_RIGHT_OFFSET as int, 662, ch),
{
    lemma_constraint_value(row, ch, 32);
    lemma_constraint_value(row, ch, 33);
    lemma_constraint_value(row, ch, 34);
    lemma_constraint_value(row, ch, 35);
    lemma_constraint_value(row, ch, 36);
    lemma_constraint_value(row, ch, 37);
    lemma_constraint_value(row, ch, 38);
    lemma_constraint_value(row, ch, 39);
    lemma_constraint_value(row, ch, 40);
    lemma_constraint_value(row, ch, 41);
    lemma_constraint_value(row, ch, 42);
    lemma_constraint_value(row, ch, 43);
    lemma_constraint_value(row, ch, 44);
    lemma_constraint_value(row, ch, 45);
    lemma_constraint_value(row, ch, 46);
    lemma_constraint_value(row, ch, 47);
}

/// The constraints on the other seven relays: a relay equals the hash on the row
/// that computes it, and the operand on the row that uses it.
pub proof fn law_upper_relay_constraint_values(row: Seq<int>, ch: int)
    ensures
        expr::ev(row_constraints()[48], row, Seq::empty(), ch) == equality_constraint(row, COL_IS_ROW9, 694, COL_HASH_OFFSET as int, ch),
        expr::ev(row_constraints()[49], row, Seq::empty(), ch) == equality_constraint(row, COL_IS_ROW14, COL_LEFT_OFFSET as int, 694, ch),
        expr::ev(row_constraints()[50], row, Seq::empty(), ch) == equality_constraint(row, COL_IS_ROW10, 726, COL_HASH_OFFSET as int, ch),
        expr::ev(row_constraints()[51], row, Seq::empty(), ch) == equality_constraint(row, COL_IS_ROW14, COL_RIGHT_OFFSET as int, 726, ch),
        expr::ev(row_constraints()[52], row, Seq::empty(), ch) == equality_constraint(row, COL_IS_ROW11, 758, COL_HASH_OFFSET as int, ch),
        expr::ev(row_constraints()[53], row, Seq::empty(), ch) == equality_constraint(row, COL_IS_ROW15, COL_LEFT_OFFSET as int, 758, ch),
        expr::ev(row_constraints()[54], row, Seq::empty(), ch) == equality_constraint(row, COL_IS_ROW12, 790, COL_HASH_OFFSET as int, ch),
        expr::ev(row_constraints()[55], row, Seq::empty(), ch) == equality_constraint(row, COL_IS_ROW15, COL_RIGHT_OFFSET as int, 790, ch),
        expr::ev(row_constraints()[56], row, Seq::empty(), ch) == equality_constraint(row, COL_IS_ROW14, 822, COL_HASH_OFFSET as int, ch),
        expr::ev(row_constraints()[57], row, Seq::empty(), ch) == equality_constraint(row, COL_IS_ROW17, COL_LEFT_OFFSET as int, 822, ch),
        expr::ev(row_constraints()[58], row, Seq::empty(), ch) == equality_constraint(row, COL_IS_ROW15, 854, COL_HASH_OFFSET as int, ch),
        expr::ev(row_constraints()[59], row, Seq::empty(), ch) == equality_constraint(row, COL_IS_ROW17, COL_RIGHT_OFFSET as int, 854, ch),
        expr::ev(row_constraints()[60], row, Seq::empty(), ch) == equality_constraint(row, COL_IS_ROW17, 886, COL_HASH_OFFSET as int, ch),
        expr::ev(row_constraints()[61], row, Seq::empty(), ch) == equality_constraint(row, COL_IS_ROOT_BOUND_AT, COL_LEFT_OFFSET as int, 886, ch),
{
    lemma_constraint_value(row, ch, 48);
    lemma_constraint_value(row, ch, 49);
    lemma_constraint_value(row, ch, 50);
    lemma_constraint_value(row, ch, 51);
    lemma_constraint_value(row, ch, 52);
    lemma_constraint_value(row, ch, 53);
    lemma_constraint_value(row, ch, 54);
    lemma_constraint_value(row, ch, 55);
    lemma_constraint_value(row, ch, 56);
    lemma_constraint_value(row, ch, 57);
    lemma_constraint_value(row, ch, 58);
    lemma_constraint_value(row, ch, 59);
    lemma_constraint_value(row, ch, 60);
    lemma_constraint_value(row, ch, 61);
}

/// The value of a two-row constraint that compares the 32 entries from `n` on
/// the next row with the columns from `c` on this one, under a gate.
pub open spec fn step_constraint(
    gate: int,
    row: Seq<int>,
    next: Seq<int>,
    n: int,
    c: int,
    ch: int,
) -> int {
    gate * poly_arith::peval(Seq::new(32, |k: int| next[n + k] - row[c + k]), ch)
}

proof fn lemma_step_value(row: Seq<int>, next: Seq<int>, ch: int, i: int)
    requires
        0 <= i < NUM_SHIFTED,
    ensures
        expr::ev(shifted_constraints()[i], row, next, ch) == step_constraint(
            expr::ev(shifted_gate(i), row, next, ch),
            row,
            next,
            shifted_runs(i).0 as int,
            shifted_runs(i).1 as int,
            ch,
        ),
{
    let (n, c) = shifted_runs(i);
    let ts = steps_of(n, c);
    reveal_with_fuel(expr::ev, 2);
    constraints::lemma_ev_rlc(ts, row, next, ch);
    assert(constraints::denoted(ts, row, next, ch) =~= Seq::new(
        32,
        |k: int| next[n + k] - row[c + k],
    ));
    assert(shifted_constraints()[i] == shifted_constraint_at(i));
}

proof fn lemma_window_value(from: int, to: int, row: Seq<int>, next: Seq<int>, ch: int)
    requires
        from < to,
    ensures
        expr::ev(window_of(from, to), row, next, ch) == expr::ev(
            window_of(from, to - 1),
            row,
            next,
            ch,
        ) + row[selector_column(to - 1) as int],
        expr::ev(window_of(from, from), row, next, ch) == 0,
{
    reveal_with_fuel(expr::ev, 2);
}

/// The two-row constraints on the outputs: they stay the same between real
/// rows, and the hash of invocation 18 is the right operand on the row below.
pub proof fn law_step_values(row: Seq<int>, next: Seq<int>, ch: int)
    ensures
        shifted_constraints().len() == 20,
        ({
            let v = |i: int| expr::ev(shifted_constraints()[i], row, next, ch);
            let both = row[COL_IS_REAL as int] * next[0];
            &&& v(0) == step_constraint(both, row, next, 1, COL_CLAIMED_ROOT_OFFSET as int, ch)
            &&& v(1) == step_constraint(
                both,
                row,
                next,
                33,
                COL_CLAIMED_BLOCK_HASH_OFFSET as int,
                ch,
            )
            &&& v(2) == step_constraint(
                both,
                row,
                next,
                65,
                COL_CLAIMED_LOGS_BLOOM_ROOT_OFFSET as int,
                ch,
            )
            &&& v(3) == step_constraint(
                both,
                row,
                next,
                97,
                COL_CLAIMED_EXTRA_DATA_ROOT_OFFSET as int,
                ch,
            )
            &&& v(4) == step_constraint(
                row[COL_IS_PAIR18 as int],
                row,
                next,
                130,
                COL_HASH_OFFSET as int,
                ch,
            )
        }),
{
    reveal_with_fuel(expr::ev, 2);
    lemma_step_value(row, next, ch, 0);
    lemma_step_value(row, next, ch, 1);
    lemma_step_value(row, next, ch, 2);
    lemma_step_value(row, next, ch, 3);
    lemma_step_value(row, next, ch, 4);
}

/// The two-row constraints on the first eight relays: a relay stays the same from
/// each row of its span to the next.
pub proof fn law_relay_step_values(row: Seq<int>, next: Seq<int>, ch: int)
    ensures
        ({
            let v = |i: int| expr::ev(shifted_constraints()[i], row, next, ch);
            let s = |c: usize| row[c as int];
            let relay = |idx: int| COL_RELAY_OFFSET + 32 * idx;
            &&& v(5) == step_constraint(s(COL_IS_ROW0) + s(COL_IS_ROW1) + s(COL_IS_LOGS_BLOOM_LEAF_BOUND_AT) + s(COL_IS_ROW3) + s(COL_IS_ROW4) + s(COL_IS_EXTRA_DATA_LEAF_BOUND_AT) + s(COL_IS_BLOCK_HASH_BOUND_AT) + s(COL_IS_ROW7) + s(COL_IS_PAIR8), row, next, 162, relay(0), ch)
            &&& v(6) == step_constraint(s(COL_IS_ROW1) + s(COL_IS_LOGS_BLOOM_LEAF_BOUND_AT) + s(COL_IS_ROW3) + s(COL_IS_ROW4) + s(COL_IS_EXTRA_DATA_LEAF_BOUND_AT) + s(COL_IS_BLOCK_HASH_BOUND_AT) + s(COL_IS_ROW7) + s(COL_IS_PAIR8), row, next, 194, relay(1), ch)
            &&& v(7) == step_constraint(s(COL_IS_LOGS_BLOOM_LEAF_BOUND_AT) + s(COL_IS_ROW3) + s(COL_IS_ROW4) + s(COL_IS_EXTRA_DATA_LEAF_BOUND_AT) + s(COL_IS_BLOCK_HASH_BOUND_AT) + s(COL_IS_ROW7) + s(COL_IS_PAIR8) + s(COL_IS_ROW9), row, next, 226, relay(2), ch)
            &&& v(8) == step_constraint(s(COL_IS_ROW3) + s(COL_IS_ROW4) + s(COL_IS_EXTRA_DATA_LEAF_BOUND_AT) + s(COL_IS_BLOCK_HASH_BOUND_AT) + s(COL_IS_ROW7) + s(COL_IS_PAIR8) + s(COL_IS_ROW9), row, next, 258, relay(3), ch)
            &&& v(9) == step_constraint(s(COL_IS_ROW4) + s(COL_IS_EXTRA_DATA_LEAF_BOUND_AT) + s(COL_IS_BLOCK_HASH_BOUND_AT) + s(COL_IS_ROW7) + s(COL_IS_PAIR8) + s(COL_IS_ROW9) + s(COL_IS_ROW10), row, next, 290, relay(4), ch)
            &&& v(10) == step_constraint(s(COL_IS_EXTRA_DATA_LEAF_BOUND_AT) + s(COL_IS_BLOCK_HASH_BOUND_AT) + s(COL_IS_ROW7) + s(COL_IS_PAIR8) + s(COL_IS_ROW9) + s(COL_IS_ROW10), row, next, 322, relay(5), ch)
            &&& v(11) == step_constraint(s(COL_IS_BLOCK_HASH_BOUND_AT) + s(COL_IS_ROW7) + s(COL_IS_PAIR8) + s(COL_IS_ROW9) + s(COL_IS_ROW10) + s(COL_IS_ROW11), row, next, 354, relay(6), ch)
            &&& v(12) == step_constraint(s(COL_IS_ROW7) + s(COL_IS_PAIR8) + s(COL_IS_ROW9) + s(COL_IS_ROW10) + s(COL_IS_ROW11), row, next, 386, relay(7), ch)
        }),
{
    lemma_window_value(0, 1, row, next, ch);
    lemma_window_value(0, 2, row, next, ch);
    lemma_window_value(0, 3, row, next, ch);
    lemma_window_value(0, 4, row, next, ch);
    lemma_window_value(0, 5, row, next, ch);
    lemma_window_value(0, 6, row, next, ch);
    lemma_window_value(0, 7, row, next, ch);
    lemma_window_value(0, 8, row, next, ch);
    lemma_window_value(0, 9, row, next, ch);
    lemma_step_value(row, next, ch, 5);
    lemma_window_value(1, 2, row, next, ch);
    lemma_window_value(1, 3, row, next, ch);
    lemma_window_value(1, 4, row, next, ch);
    lemma_window_value(1, 5, row, next, ch);
    lemma_window_value(1, 6, row, next, ch);
    lemma_window_value(1, 7, row, next, ch);
    lemma_window_value(1, 8, row, next, ch);
    lemma_window_value(1, 9, row, next, ch);
    lemma_step_value(row, next, ch, 6);
    lemma_window_value(2, 3, row, next, ch);
    lemma_window_value(2, 4, row, next, ch);
    lemma_window_value(2, 5, row, next, ch);
    lemma_window_value(2, 6, row, next, ch);
    lemma_window_value(2, 7, row, next, ch);
    lemma_window_value(2, 8, row, next, ch);
    lemma_window_value(2, 9, row, next, ch);
    lemma_window_value(2, 10, row, next, ch);
    lemma_step_value(row, next, ch, 7);
    lemma_window_value(3, 4, row, next, ch);
    lemma_window_value(3, 5, row, next, ch);
    lemma_window_value(3, 6, row, next, ch);
    lemma_window_value(3, 7, row, next, ch);
    lemma_window_value(3, 8, row, next, ch);
    lemma_window_value(3, 9, row, next, ch);
    lemma_window_value(3, 10, row, next, ch);
    lemma_step_value(row, next, ch, 8);
    lemma_window_value(4, 5, row, next, ch);
    lemma_window_value(4, 6, row, next, ch);
    lemma_window_value(4, 7, row, next, ch);
    lemma_window_value(4, 8, row, next, ch);
    lemma_window_value(4, 9, row, next, ch);
    lemma_window_value(4, 10, row, next, ch);
    lemma_window_value(4, 11, row, next, ch);
    lemma_step_value(row, next, ch, 9);
    lemma_window_value(5, 6, row, next, ch);
    lemma_window_value(5, 7, row, next, ch);
    lemma_window_value(5, 8, row, next, ch);
    lemma_window_value(5, 9, row, next, ch);
    lemma_window_value(5, 10, row, next, ch);
    lemma_window_value(5, 11, row, next, ch);
    lemma_step_value(row, next, ch, 10);
    lemma_window_value(6, 7, row, next, ch);
    lemma_window_value(6, 8, row, next, ch);
    lemma_window_value(6, 9, row, next, ch);
    lemma_window_value(6, 10, row, next, ch);
    lemma_window_value(6, 11, row, next, ch);
    lemma_window_value(6, 12, row, next, ch);
    lemma_step_value(row, next, ch, 11);
    lemma_window_value(7, 8, row, next, ch);
    lemma_window_value(7, 9, row, next, ch);
    lemma_window_value(7, 10, row, next, ch);
    lemma_window_value(7, 11, row, next, ch);
    lemma_window_value(7, 12, row, next, ch);
    lemma_step_value(row, next, ch, 12);
}

/// The two-row constraints on the other seven relays: a relay stays the same from
/// each row of its span to the next.
pub proof fn law_upper_relay_step_values(row: Seq<int>, next: Seq<int>, ch: int)
    ensures
        ({
            let v = |i: int| expr::ev(shifted_constraints()[i], row, next, ch);
            let s = |c: usize| row[c as int];
            let relay = |idx: int| COL_RELAY_OFFSET + 32 * idx;
            &&& v(13) == step_constraint(s(COL_IS_ROW9) + s(COL_IS_ROW10) + s(COL_IS_ROW11) + s(COL_IS_ROW12) + s(COL_IS_PAIR13), row, next, 418, relay(8), ch)
            &&& v(14) == step_constraint(s(COL_IS_ROW10) + s(COL_IS_ROW11) + s(COL_IS_ROW12) + s(COL_IS_PAIR13), row, next, 450, relay(9), ch)
            &&& v(15) == step_constraint(s(COL_IS_ROW11) + s(COL_IS_ROW12) + s(COL_IS_PAIR13) + s(COL_IS_ROW14), row, next, 482, relay(10), ch)
            &&& v(16) == step_constraint(s(COL_IS_ROW12) + s(COL_IS_PAIR13) + s(COL_IS_ROW14), row, next, 514, relay(11), ch)
            &&& v(17) == step_constraint(s(COL_IS_ROW14) + s(COL_IS_ROW15) + s(COL_IS_PAIR16), row, next, 546, relay(12), ch)
            &&& v(18) == step_constraint(s(COL_IS_ROW15) + s(COL_IS_PAIR16), row, next, 578, relay(13), ch)
            &&& v(19) == step_constraint(s(COL_IS_ROW17) + s(COL_IS_PAIR18), row, next, 610, relay(14), ch)
        }),
{
    lemma_window_value(9, 10, row, next, ch);
    lemma_window_value(9, 11, row, next, ch);
    lemma_window_value(9, 12, row, next, ch);
    lemma_window_value(9, 13, row, next, ch);
    lemma_window_value(9, 14, row, next, ch);
    lemma_step_value(row, next, ch, 13);
    lemma_window_value(10, 11, row, next, ch);
    lemma_window_value(10, 12, row, next, ch);
    lemma_window_value(10, 13, row, next, ch);
    lemma_window_value(10, 14, row, next, ch);
    lemma_step_value(row, next, ch, 14);
    lemma_window_value(11, 12, row, next, ch);
    lemma_window_value(11, 13, row, next, ch);
    lemma_window_value(11, 14, row, next, ch);
    lemma_window_value(11, 15, row, next, ch);
    lemma_step_value(row, next, ch, 15);
    lemma_window_value(12, 13, row, next, ch);
    lemma_window_value(12, 14, row, next, ch);
    lemma_window_value(12, 15, row, next, ch);
    lemma_step_value(row, next, ch, 16);
    lemma_window_value(14, 15, row, next, ch);
    lemma_window_value(14, 16, row, next, ch);
    lemma_window_value(14, 17, row, next, ch);
    lemma_step_value(row, next, ch, 17);
    lemma_window_value(15, 16, row, next, ch);
    lemma_window_value(15, 17, row, next, ch);
    lemma_step_value(row, next, ch, 18);
    lemma_window_value(17, 18, row, next, ch);
    lemma_window_value(17, 19, row, next, ch);
    lemma_step_value(row, next, ch, 19);
}

/// What is read on the next row: whether it is real, the outputs, the selector
/// of the root, the right operand, and the relays.
pub proof fn law_next_values(row: Seq<int>, k: int)
    requires
        0 <= k < 32,
    ensures
        next_values(row).len() == 642,
        next_values(row)[0] == row[COL_IS_REAL as int],
        next_values(row)[1 + k] == row[COL_CLAIMED_ROOT_OFFSET + k],
        next_values(row)[33 + k] == row[COL_CLAIMED_BLOCK_HASH_OFFSET + k],
        next_values(row)[65 + k] == row[COL_CLAIMED_LOGS_BLOOM_ROOT_OFFSET + k],
        next_values(row)[97 + k] == row[COL_CLAIMED_EXTRA_DATA_ROOT_OFFSET + k],
        next_values(row)[129] == row[COL_IS_ROOT_BOUND_AT as int],
        next_values(row)[130 + k] == row[COL_RIGHT_OFFSET + k],
        forall|idx: int|
            0 <= idx < 15 ==> #[trigger] next_values(row)[162 + 32 * idx + k]
                == row[COL_RELAY_OFFSET + 32 * idx + k],
{
}

/// The value of the two-row constraints at a point grows by their weighted sum
/// with the point, is zero at the point of the last row, and gains a power of
/// `alpha` with every constraint that stands before them.
pub proof fn law_shifted_value(
    row: Seq<int>,
    next: Seq<int>,
    z: int,
    last: int,
    alpha: int,
    offset: nat,
)
    ensures
        shifted_value(row, next, last, last, alpha, offset) == 0,
        shifted_value(row, next, z + 1, last, alpha, 0) - shifted_value(
            row,
            next,
            z,
            last,
            alpha,
            0,
        ) == poly_arith::peval(
            Seq::new(20, |i: int| expr::ev(shifted_constraints()[i], row, next, alpha)),
            alpha,
        ),
        shifted_value(row, next, z, last, alpha, offset + 1) == alpha * shifted_value(
            row,
            next,
            z,
            last,
            alpha,
            offset,
        ),
{
    let s = constraints::combined(shifted_constraints(), row, next, alpha, alpha);
    let p = modular::ipow(alpha, offset);
    assert(modular::ipow(alpha, 0) == 1);
    assert(modular::ipow(alpha, offset + 1) == alpha * p);
    assert(s * p * (last - last) == 0) by (nonlinear_arith);
    assert(s * 1 * (z + 1 - last) - s * 1 * (z - last) == s) by (nonlinear_arith);
    assert(s * (alpha * p) * (z - last) == alpha * (s * p * (z - last))) by (nonlinear_arith);
    assert(constraints::denoted(shifted_constraints(), row, next, alpha) =~= Seq::new(
        20,
        |i: int| expr::ev(shifted_constraints()[i], row, next, alpha),
    ));
}

/// A column is looked up as a byte under a label.
pub open spec fn looked_up(
    d: (LookupDeclaration, usize),
    name: Seq<char>,
    k: int,
    column: int,
) -> bool {
    &&& d.0.column_index == column
    &&& d.0.label@ == name + "_"@ + label::decimal(k as nat) + "_8bit"@
    &&& d.0.max_bits == 8
    &&& d.0.selector_column is None
    &&& d.1 == 0
}

/// What is looked up for byte `k` of the operands, the hash, the outputs, the
/// claims and the roots of empty trees, in this order.
pub proof fn law_looked_up(ds: Seq<(LookupDeclaration, usize)>, k: int)
    requires
        bytes_declared(ds, 32),
        0 <= k < 32,
    ensures
        ds.len() == 416,
        looked_up(ds[13 * k + 0], "payload_pair_left"@, k, COL_LEFT_OFFSET + k),
        looked_up(ds[13 * k + 1], "payload_pair_right"@, k, COL_RIGHT_OFFSET + k),
        looked_up(ds[13 * k + 2], "payload_pair_hash"@, k, COL_HASH_OFFSET + k),
        looked_up(ds[13 * k + 3], "payload_pair_claimed_root"@, k, COL_CLAIMED_ROOT_OFFSET + k),
        looked_up(ds[13 * k + 4], "payload_pair_claimed_block_hash"@, k, COL_CLAIMED_BLOCK_HASH_OFFSET + k),
        looked_up(ds[13 * k + 5], "payload_pair_claimed_logs_bloom_root"@, k, COL_CLAIMED_LOGS_BLOOM_ROOT_OFFSET + k),
        looked_up(ds[13 * k + 6], "payload_pair_claimed_extra_data_root"@, k, COL_CLAIMED_EXTRA_DATA_ROOT_OFFSET + k),
        looked_up(ds[13 * k + 7], "payload_pair_claimed_left"@, k, COL_CLAIMED_LEFT_OFFSET + k),
        looked_up(ds[13 * k + 8], "payload_pair_claimed_right"@, k, COL_CLAIMED_RIGHT_OFFSET + k),
        looked_up(ds[13 * k + 9], "payload_pair_zh0"@, k, COL_ZH0_OFFSET + k),
        looked_up(ds[13 * k + 10], "payload_pair_zh1"@, k, COL_ZH1_OFFSET + k),
        looked_up(ds[13 * k + 11], "payload_pair_zh2"@, k, COL_ZH2_OFFSET + k),
        looked_up(ds[13 * k + 12], "payload_pair_zh3"@, k, COL_ZH3_OFFSET + k),
{
    assert(lookup::is_byte_declaration(ds[13 * k + 0], range_name(0), k as nat, range_column(0) + k));
    assert(lookup::is_byte_declaration(ds[13 * k + 1], range_name(1), k as nat, range_column(1) + k));
    assert(lookup::is_byte_declaration(ds[13 * k + 2], range_name(2), k as nat, range_column(2) + k));
    assert(lookup::is_byte_declaration(ds[13 * k + 3], range_name(3), k as nat, range_column(3) + k));
    assert(lookup::is_byte_declaration(ds[13 * k + 4], range_name(4), k as nat, range_column(4) + k));
    assert(lookup::is_byte_declaration(ds[13 * k + 5], range_name(5), k as nat, range_column(5) + k));
    assert(lookup::is_byte_declaration(ds[13 * k + 6], range_name(6), k as nat, range_column(6) + k));
    assert(lookup::is_byte_declaration(ds[13 * k + 7], range_name(7), k as nat, range_column(7) + k));
    assert(lookup::is_byte_declaration(ds[13 * k + 8], range_name(8), k as nat, range_column(8) + k));
    assert(lookup::is_byte_declaration(ds[13 * k + 9], range_name(9), k as nat, range_column(9) + k));
    assert(lookup::is_byte_declaration(ds[13 * k + 10], range_name(10), k as nat, range_column(10) + k));
    assert(lookup::is_byte_declaration(ds[13 * k + 11], range_name(11), k as nat, range_column(11) + k));
    assert(lookup::is_byte_declaration(ds[13 * k + 12], range_name(12), k as nat, range_column(12) + k));
}

} // verus!
