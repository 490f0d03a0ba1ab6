//! Votes on Eth1 data: trace, constraints and links.
//!
//! One row per observed vote. The row holds the voted data, the number of
//! votes and the threshold of the voting period, and whether the vote wins.

use crate::bytes;
use crate::constraints;
use crate::constraints::{binary, le_bytes_expr, minus, times};
use crate::cross_air_logup;
use crate::cross_air_logup::{column_run, push_run, CrossAirLogUpDescriptor};
use crate::deposit_tree_air;
use crate::expr;
use crate::expr::Expr;
use crate::field;
use crate::field::{CurveType, Scalar};
use crate::label;
use crate::lookup;
use crate::lookup::LookupRequirements;
use crate::modular;
use crate::poly_arith;
use crate::sha256;
use crate::sha256_extract;
use crate::soundness;
use crate::ssz;
use crate::ssz::hash_tree_root_uint;
use crate::trace;
use crate::trace::{trace_from_rows, TracePolynomials};
use vstd::prelude::*;

verus! {

pub const DEPOSIT_ROOT_LEN: usize = 32;

pub const BLOCK_HASH_LEN: usize = 32;

pub const HTR_LEN: usize = 32;

pub const U64_BYTES: usize = 8;

pub const COL_DEPOSIT_ROOT_OFFSET: usize = 0;

pub const COL_DEPOSIT_COUNT_BYTES_OFFSET: usize = 32;

pub const COL_DEPOSIT_COUNT: usize = 40;

pub const COL_BLOCK_HASH_OFFSET: usize = 41;

pub const COL_VOTE_COUNT: usize = 73;

pub const COL_VOTE_COUNT_THRESHOLD: usize = 74;

pub const COL_VOTE_MARGIN: usize = 75;

pub const COL_SLOT_BYTES_OFFSET: usize = 76;

pub const COL_SLOT: usize = 84;

pub const COL_ETH1_DATA_HTR_OFFSET: usize = 85;

pub const COL_IS_WINNING_VOTE: usize = 117;

pub const COL_IS_REAL: usize = 118;

pub const NUM_COLUMNS: usize = 119;

pub const NUM_ROW_CONSTRAINTS: usize = 6;

pub const NUM_SHIFTED: usize = 0;

/// The data that a vote is for.
#[derive(Clone, Copy, Debug, PartialEq, Eq)]
pub struct Eth1DataLite {
    pub deposit_root: [u8; 32],
    pub deposit_count: u64,
    pub block_hash: [u8; 32],
}

impl Default for Eth1DataLite {
    fn default() -> (r: Self)
        ensures
            forall|i: int| 0 <= i < 32 ==> r.deposit_root@[i] == 0,
            r.deposit_count == 0,
            forall|i: int| 0 <= i < 32 ==> r.block_hash@[i] == 0,
    {
        Eth1DataLite { deposit_root: [0u8; 32], deposit_count: 0, block_hash: [0u8; 32] }
    }
}

impl Eth1DataLite {
    /// The root of the container of the three fields.
    pub open spec fn root(&self) -> Seq<u8> {
        ssz::merkle_root(
            seq![self.deposit_root@, ssz::uint_chunk(self.deposit_count as int), self.block_hash@],
            2,
        )
    }

    /// SSZ `hash_tree_root`: three leaves, padded to four.
    pub fn hash_tree_root(&self) -> (r: [u8; 32])
        ensures
            r@ == self.root(),
    {
        let count_leaf: [u8; 32] = hash_tree_root_uint(self.deposit_count);
        let zero: [u8; 32] = ssz::zero_chunk();
        let left: [u8; 32] = sha256::sha256_pair(&self.deposit_root, &count_leaf);
        let right: [u8; 32] = sha256::sha256_pair(&self.block_hash, &zero);
        proof {
            reveal_with_fuel(ssz::tree, 3);
            reveal_with_fuel(ssz::pow2, 2);
        }
        sha256::sha256_pair(&left, &right)
    }
}

#[derive(Clone, Copy, Debug)]
pub struct Eth1DataVotingRow {
    pub deposit_root: [u8; 32],
    pub deposit_count: u64,
    pub block_hash: [u8; 32],
    pub vote_count: u32,
    pub vote_count_threshold: u32,
    pub slot: u64,
    pub eth1_data_htr: [u8; 32],
    pub is_winning_vote: bool,
}

#[derive(Clone, Debug, Default)]
pub struct Eth1DataVotingWitness {
    pub observations: Vec<Eth1DataVotingRow>,
}

impl Eth1DataVotingWitness {
    pub fn from_rows(observations: Vec<Eth1DataVotingRow>) -> (r: Self)
        ensures
            r.observations == observations,
    {
        Self { observations }
    }
}

/// The row of one vote in a period: it wins if it has more than half of the
/// period's slots.
pub open spec fn is_vote_row(
    row: Eth1DataVotingRow,
    data: Eth1DataLite,
    slot: u64,
    vote_count: u32,
    slots_per_period: u32,
) -> bool {
    &&& row.deposit_root@ == data.deposit_root@
    &&& row.deposit_count == data.deposit_count
    &&& row.block_hash@ == data.block_hash@
    &&& row.vote_count == vote_count
    &&& row.vote_count_threshold == slots_per_period / 2
    &&& row.slot == slot
    &&& row.eth1_data_htr@ == data.root()
    &&& row.is_winning_vote == (vote_count > slots_per_period / 2)
}

pub fn from_eth1_data(
    data: Eth1DataLite,
    slot: u64,
    vote_count: u32,
    slots_per_period: u32,
) -> (r: Eth1DataVotingWitness)
    ensures
        r.observations.len() == 1,
        is_vote_row(r.observations@[0], data, slot, vote_count, slots_per_period),
{
    let threshold: u32 = slots_per_period / 2;
    let is_winning_vote: bool = vote_count > threshold;
    let row = Eth1DataVotingRow {
        deposit_root: data.deposit_root,
        deposit_count: data.deposit_count,
        block_hash: data.block_hash,
        vote_count,
        vote_count_threshold: threshold,
        slot,
        eth1_data_htr: data.hash_tree_root(),
        is_winning_vote,
    };
    let mut rows: Vec<Eth1DataVotingRow> = Vec::new();
    rows.push(row);
    Eth1DataVotingWitness::from_rows(rows)
}

// ─── Trace ────────────────────────────────────────────────────────────

/// By how much a vote exceeds the threshold, or zero.
pub open spec fn margin(row: Eth1DataVotingRow) -> int {
    if row.vote_count < row.vote_count_threshold {
        0
    } else {
        row.vote_count - row.vote_count_threshold
    }
}

/// The cell of a row in column `c`.
pub open spec fn row_cell(row: Eth1DataVotingRow, c: int) -> int {
    if c < COL_DEPOSIT_COUNT_BYTES_OFFSET {
        row.deposit_root@[c] as int
    } else if c < COL_DEPOSIT_COUNT {
        bytes::le_byte(row.deposit_count as int, c - COL_DEPOSIT_COUNT_BYTES_OFFSET)
    } else if c == COL_DEPOSIT_COUNT {
        row.deposit_count as int
    } else if c < COL_VOTE_COUNT {
        row.block_hash@[c - COL_BLOCK_HASH_OFFSET] as int
    } else if c == COL_VOTE_COUNT {
        row.vote_count as int
    } else if c == COL_VOTE_COUNT_THRESHOLD {
        row.vote_count_threshold as int
    } else if c == COL_VOTE_MARGIN {
        margin(row)
    } else if c < COL_SLOT {
        bytes::le_byte(row.slot as int, c - COL_SLOT_BYTES_OFFSET)
    } else if c == COL_SLOT {
        row.slot as int
    } else if c < COL_IS_WINNING_VOTE {
        row.eth1_data_htr@[c - COL_ETH1_DATA_HTR_OFFSET] as int
    } else if c == COL_IS_WINNING_VOTE {
        if row.is_winning_vote {
            1
        } else {
            0
        }
    } else {
        1
    }
}

/// The cells of a witness.
pub open spec fn cells(rows: Seq<Eth1DataVotingRow>) -> spec_fn(int, int) -> int {
    |c: int, r: int| row_cell(rows[r], c)
}

fn row_scalars(row: &Eth1DataVotingRow, curve: CurveType) -> (v: Vec<Scalar>)
    ensures
        v.len() == NUM_COLUMNS,
        forall|c: int|
            0 <= c < NUM_COLUMNS ==> (#[trigger] v@[c]).curve() == curve && v@[c]@ == row_cell(
                *row,
                c,
            ),
{
    let count: [u8; 8] = bytes::u64_to_le(row.deposit_count);
    let slot: [u8; 8] = bytes::u64_to_le(row.slot);
    let mut v: Vec<Scalar> = Vec::with_capacity(NUM_COLUMNS);
    let mut c: usize = 0;
    while c < NUM_COLUMNS
        invariant
            c <= NUM_COLUMNS,
            v.len() == c,
            forall|k: int| 0 <= k < 8 ==> count@[k] == bytes::le_byte(row.deposit_count as int, k),
            forall|k: int| 0 <= k < 8 ==> slot@[k] == bytes::le_byte(row.slot as int, k),
            forall|k: int|
                0 <= k < c ==> (#[trigger] v@[k]).curve() == curve && v@[k]@ == row_cell(*row, k),
        decreases NUM_COLUMNS - c,
    {
        let x: u64 = if c < COL_DEPOSIT_COUNT_BYTES_OFFSET {
            row.deposit_root[c] as u64
        } else if c < COL_DEPOSIT_COUNT {
            count[c - COL_DEPOSIT_COUNT_BYTES_OFFSET] as u64
        } else if c == COL_DEPOSIT_COUNT {
            row.deposit_count
        } else if c < COL_VOTE_COUNT {
            row.block_hash[c - COL_BLOCK_HASH_OFFSET] as u64
        } else if c == COL_VOTE_COUNT {
            row.vote_count as u64
        } else if c == COL_VOTE_COUNT_THRESHOLD {
            row.vote_count_threshold as u64
        } else if c == COL_VOTE_MARGIN {
            if row.vote_count < row.vote_count_threshold {
                0
            } else {
                (row.vote_count - row.vote_count_threshold) as u64
            }
        } else if c < COL_SLOT {
            slot[c - COL_SLOT_BYTES_OFFSET] as u64
        } else if c == COL_SLOT {
            row.slot
        } else if c < COL_IS_WINNING_VOTE {
            row.eth1_data_htr[c - COL_ETH1_DATA_HTR_OFFSET] as u64
        } else if c == COL_IS_WINNING_VOTE {
            if row.is_winning_vote {
                1
            } else {
                0
            }
        } else {
            1
        };
        v.push(Scalar::from_u64(x, curve));
        c = c + 1;
    }
    v
}

pub fn build_trace_polynomials(witness: &Eth1DataVotingWitness, curve: CurveType) -> (t:
    TracePolynomials)
    requires
        trace::paddable(witness.observations.len() as nat),
    ensures
        trace::holds(
            t,
            NUM_COLUMNS as nat,
            witness.observations.len() as nat,
            curve,
            cells(witness.observations@),
        ),
{
    let n: usize = witness.observations.len();
    let mut rows: Vec<Vec<Scalar>> = Vec::with_capacity(n);
    let ghost cell = cells(witness.observations@);
    let mut i: usize = 0;
    while i < n
        invariant
            i <= n,
            n == witness.observations.len(),
            cell == cells(witness.observations@),
            rows.len() == i,
            trace::rows_hold(rows@, NUM_COLUMNS as nat, curve, cell),
        decreases n - i,
    {
        let ghost before = rows@;
        rows.push(row_scalars(&witness.observations[i], curve));
        assert(forall|k: int| 0 <= k < i ==> rows@[k] == before[k]);
        i = i + 1;
    }
    trace_from_rows(&rows, NUM_COLUMNS, curve, Ghost(cell))
}

// ─── Constraints ──────────────────────────────────────────────────────

/// A number equals its bytes.
pub open spec fn decomposition_of(number: usize, first_byte: usize) -> Expr {
    constraints::sub_of(Expr::Col(number), constraints::weighted_of(first_byte, 256, 8))
}

/// The constraints on a row:
/// the two selectors are bits; deposit count and slot equal their bytes; the
/// margin of a winning vote is what it has above the threshold; only real
/// rows win.
pub open spec fn row_constraints() -> Seq<Expr> {
    seq![
        constraints::binary_of(COL_IS_REAL),
        constraints::binary_of(COL_IS_WINNING_VOTE),
        decomposition_of(COL_DEPOSIT_COUNT, COL_DEPOSIT_COUNT_BYTES_OFFSET),
        decomposition_of(COL_SLOT, COL_SLOT_BYTES_OFFSET),
        constraints::mul_of(
            Expr::Col(COL_IS_WINNING_VOTE),
            constraints::sub_of(
                constraints::diff_of(COL_VOTE_COUNT, COL_VOTE_COUNT_THRESHOLD),
                Expr::Col(COL_VOTE_MARGIN),
            ),
        ),
        constraints::mul_of(
            Expr::Col(COL_IS_WINNING_VOTE),
            constraints::sub_of(Expr::Const(1), Expr::Col(COL_IS_REAL)),
        ),
    ]
}

fn constraint_list() -> (r: Vec<Expr>)
    ensures
        r@ == row_constraints(),
        constraints::well_formed(r@, NUM_COLUMNS as nat, 0),
{
    let mut r: Vec<Expr> = Vec::with_capacity(NUM_ROW_CONSTRAINTS);
    r.push(binary(COL_IS_REAL));
    r.push(binary(COL_IS_WINNING_VOTE));
    r.push(
        minus(Expr::Col(COL_DEPOSIT_COUNT), le_bytes_expr(COL_DEPOSIT_COUNT_BYTES_OFFSET, 8)),
    );
    r.push(minus(Expr::Col(COL_SLOT), le_bytes_expr(COL_SLOT_BYTES_OFFSET, 8)));
    r.push(
        times(
            Expr::Col(COL_IS_WINNING_VOTE),
            minus(
                constraints::diff(COL_VOTE_COUNT, COL_VOTE_COUNT_THRESHOLD),
                Expr::Col(COL_VOTE_MARGIN),
            ),
        ),
    );
    r.push(times(Expr::Col(COL_IS_WINNING_VOTE), minus(Expr::Const(1), Expr::Col(COL_IS_REAL))));
    assert(r@ =~= row_constraints());
    proof {
        lemma_well_formed();
    }
    r
}

proof fn lemma_well_formed()
    ensures
        constraints::well_formed(row_constraints(), NUM_COLUMNS as nat, 0),
{
    let n = NUM_COLUMNS as nat;
    constraints::lemma_fits_weighted(COL_DEPOSIT_COUNT_BYTES_OFFSET, 256, 8, n, 0);
    constraints::lemma_fits_weighted(COL_SLOT_BYTES_OFFSET, 256, 8, n, 0);
    reveal_with_fuel(expr::within, 5);
    reveal_with_fuel(expr::degree, 5);
    let es = row_constraints();
    assert forall|i: int| 0 <= i < es.len() implies {
        &&& expr::within(#[trigger] es[i], n, 0)
        &&& expr::compound(es[i])
        &&& expr::degree(es[i]) <= 3
    } by {
        assert(i == 0 || i == 1 || i == 2 || i == 3 || i == 4 || i == 5);
    }
}

/// A row whose data can have come from a vote: a winning vote reaches the
/// threshold.
pub open spec fn consistent(row: Eth1DataVotingRow) -> bool {
    row.is_winning_vote ==> row.vote_count >= row.vote_count_threshold
}

/// Rows of votes are consistent.
pub proof fn law_vote_rows_consistent(
    row: Eth1DataVotingRow,
    data: Eth1DataLite,
    slot: u64,
    vote_count: u32,
    slots_per_period: u32,
)
    requires
        is_vote_row(row, data, slot, vote_count, slots_per_period),
    ensures
        consistent(row),
{
}

/// The columns of a trace of this width can be read by the constraints.
pub proof fn law_trace_readable(
    t: TracePolynomials,
    columns: Seq<&Vec<Scalar>>,
    rows: nat,
    curve: CurveType,
    cell: spec_fn(int, int) -> int,
)
    requires
        trace::holds(t, NUM_COLUMNS as nat, rows, curve, cell),
        trace::columns_of(t, columns),
    ensures
        columns.len() >= NUM_COLUMNS,
        constraints::domain_readable(row_constraints(), columns),
{
    lemma_well_formed();
    constraints::lemma_trace_readable(
        row_constraints(),
        t,
        columns,
        NUM_COLUMNS as nat,
        rows,
        curve,
        cell,
    );
}

/// Every constraint vanishes on every row of the trace of a consistent
/// witness, padding included.
pub proof fn law_honest_trace_vanishes(
    w: Eth1DataVotingWitness,
    t: TracePolynomials,
    columns: Seq<&Vec<Scalar>>,
    curve: CurveType,
    r: int,
    i: int,
    ch: int,
)
    requires
        trace::holds(
            t,
            NUM_COLUMNS as nat,
            w.observations.len() as nat,
            curve,
            cells(w.observations@),
        ),
        trace::columns_of(t, columns),
        forall|k: int| 0 <= k < w.observations.len() ==> consistent(#[trigger] w.observations@[k]),
        0 <= r < trace::padded_length(w.observations.len() as nat),
        0 <= i < NUM_ROW_CONSTRAINTS,
    ensures
        expr::ev(row_constraints()[i], expr::row_values(columns, r), Seq::empty(), ch) == 0,
{
    let n = w.observations.len() as nat;
    let cell = cells(w.observations@);
    trace::lemma_trace_rows(t, columns, NUM_COLUMNS as nat, n, curve, cell, r);
    let row = trace::row_of(NUM_COLUMNS as nat, n, cell, r);
    let e = Seq::<int>::empty();
    if r < n {
        assert(consistent(w.observations@[r]));
    }
    if i == 0 {
        constraints::lemma_binary_vanishes(COL_IS_REAL, row, e, ch);
    } else if i == 1 {
        constraints::lemma_binary_vanishes(COL_IS_WINNING_VOTE, row, e, ch);
    } else if i == 2 {
        let x = if r < n { w.observations@[r].deposit_count } else { 0 };
        lemma_decomposition_vanishes(
            row,
            COL_DEPOSIT_COUNT,
            COL_DEPOSIT_COUNT_BYTES_OFFSET,
            x,
            r < n,
            ch,
        );
    } else if i == 3 {
        let x = if r < n { w.observations@[r].slot } else { 0 };
        lemma_decomposition_vanishes(row, COL_SLOT, COL_SLOT_BYTES_OFFSET, x, r < n, ch);
    } else if i == 4 {
        let body = constraints::sub_of(
            constraints::diff_of(COL_VOTE_COUNT, COL_VOTE_COUNT_THRESHOLD),
            Expr::Col(COL_VOTE_MARGIN),
        );
        constraints::lemma_ev_gated(COL_IS_WINNING_VOTE, body, row, e, ch);
        reveal_with_fuel(expr::ev, 3);
    } else {
        let body = constraints::sub_of(Expr::Const(1), Expr::Col(COL_IS_REAL));
        constraints::lemma_ev_gated(COL_IS_WINNING_VOTE, body, row, e, ch);
        reveal_with_fuel(expr::ev, 2);
    }
}

/// A number beside its bytes, or beside zeros if it is zero.
proof fn lemma_decomposition_vanishes(
    row: Seq<int>,
    number: usize,
    first: usize,
    x: u64,
    present: bool,
    ch: int,
)
    requires
        first + 8 <= NUM_COLUMNS,
        number < NUM_COLUMNS,
        row[number as int] == x,
        !present ==> x == 0,
        forall|k: int|
            0 <= k < 8 ==> row[#[trigger] (first + k)] == if present {
                bytes::le_byte(x as int, k)
            } else {
                0
            },
    ensures
        expr::ev(decomposition_of(number, first), row, Seq::empty(), ch) == 0,
{
    if present {
        constraints::lemma_le_bytes_sum(row, first as int, x, 8);
        bytes::lemma_le_byte_sum_u64(x);
    } else {
        constraints::lemma_zero_sum(row, first as int, 256, 8);
    }
    constraints::lemma_ev_weighted(first, 256, 8, row, Seq::empty(), ch);
    reveal_with_fuel(expr::ev, 2);
}

pub struct Eth1DataVotingConstraintSystem {
    pub num_rows: usize,
    pub omega: Option<Scalar>,
    pub domain_size: Option<u64>,
}

/// The byte weights of a `u64`: position and power of 256.
pub fn le_u64_decomp_weights() -> (r: Vec<(usize, u64)>)
    ensures
        r.len() == 8,
        forall|k: int| 0 <= k < 8 ==> (#[trigger] r@[k]).0 == k && r@[k].1 == bytes::pow256(k as nat),
{
    let mut r: Vec<(usize, u64)> = Vec::with_capacity(U64_BYTES);
    let mut w: u64 = 1;
    let mut k: usize = 0;
    while k < U64_BYTES
        invariant
            k <= 8,
            r.len() == k,
            k < 8 ==> w == bytes::pow256(k as nat),
            forall|j: int|
                0 <= j < k ==> (#[trigger] r@[j]).0 == j && r@[j].1 == bytes::pow256(j as nat),
        decreases 8 - k,
    {
        r.push((k, w));
        k = k + 1;
        if k < U64_BYTES {
            proof {
                bytes::lemma_pow256_values();
                assert(k == 1 || k == 2 || k == 3 || k == 4 || k == 5 || k == 6 || k == 7);
            }
            w = w * 256;
        }
    }
    r
}

/// The byte ranges of the trace: label, first column and length.
pub open spec fn byte_ranges() -> Seq<(Seq<char>, int, int)> {
    seq![
        ("deposit_root"@, COL_DEPOSIT_ROOT_OFFSET as int, 32int),
        ("deposit_count_byte"@, COL_DEPOSIT_COUNT_BYTES_OFFSET as int, 8int),
        ("block_hash"@, COL_BLOCK_HASH_OFFSET as int, 32int),
        ("slot_byte"@, COL_SLOT_BYTES_OFFSET as int, 8int),
        ("eth1_data_htr"@, COL_ETH1_DATA_HTR_OFFSET as int, 32int),
    ]
}

impl Eth1DataVotingConstraintSystem {
    pub fn new(num_rows: usize) -> (r: Self)
        ensures
            r.num_rows == num_rows,
            r.omega == None::<Scalar>,
            r.domain_size == None::<u64>,
    {
        Self { num_rows, omega: None, domain_size: None }
    }

    pub fn with_omega_and_domain(self, omega: Scalar, domain_size: u64) -> (r: Self)
        ensures
            r.num_rows == self.num_rows,
            r.omega == Some(omega),
            r.domain_size == Some(domain_size),
    {
        Self { num_rows: self.num_rows, omega: Some(omega), domain_size: Some(domain_size) }
    }

    pub fn num_constraints(&self) -> (r: usize)
        ensures
            r == row_constraints().len(),
    {
        NUM_ROW_CONSTRAINTS
    }

    pub fn constraint_labels(&self) -> (r: Vec<String>)
        ensures
            r.len() == row_constraints().len(),
            r@[0]@ == "is_real_binary"@,
            r@[1]@ == "is_winning_vote_binary"@,
            r@[2]@ == "deposit_count_le_decomp"@,
            r@[3]@ == "slot_le_decomp"@,
            r@[4]@ == "winning_vote_margin_eq"@,
            r@[5]@ == "winning_implies_real"@,
    {
        vec![
            "is_real_binary".to_string(),
            "is_winning_vote_binary".to_string(),
            "deposit_count_le_decomp".to_string(),
            "slot_le_decomp".to_string(),
            "winning_vote_margin_eq".to_string(),
            "winning_implies_real".to_string(),
        ]
    }

    /// The value of every constraint on every row.
    pub fn evaluate_on_domain(&self, columns: &[&Vec<Scalar>], _num_rows: usize) -> (r: Vec<
        Vec<Scalar>,
    >)
        requires
            columns.len() >= NUM_COLUMNS,
            constraints::domain_readable(row_constraints(), columns@),
        ensures
            constraints::domain_values(r@, row_constraints(), columns@, 0),
    {
        let es: Vec<Expr> = constraint_list();
        proof {
            constraints::lemma_well_formed_more(
                es@,
                NUM_COLUMNS as nat,
                columns.len() as nat,
                0,
            );
        }
        constraints::evaluate_on_domain(&es, columns, 0)
    }

    /// The constraints at a point, weighted by the powers of `alpha`; zero if
    /// columns are missing.
    pub fn evaluate_at_point(&self, col_evals: &[Scalar], alpha: &Scalar) -> (r: Scalar)
        requires
            col_evals.len() >= NUM_COLUMNS ==> constraints::point_readable(
                row_constraints(),
                col_evals@,
                Seq::empty(),
                alpha.curve(),
            ),
        ensures
            r.curve() == alpha.curve(),
            col_evals.len() < NUM_COLUMNS ==> r@ == 0,
            col_evals.len() >= NUM_COLUMNS ==> r@ == constraints::combined(
                row_constraints(),
                poly_arith::values(col_evals@),
                Seq::empty(),
                0,
                alpha@,
            ) % field::order(alpha.curve()),
    {
        let curve: CurveType = alpha.curve_type();
        if col_evals.len() < NUM_COLUMNS {
            return Scalar::zero(curve);
        }
        let es: Vec<Expr> = constraint_list();
        let none: Vec<Scalar> = Vec::new();
        proof {
            constraints::lemma_well_formed_more(
                es@,
                NUM_COLUMNS as nat,
                col_evals.len() as nat,
                0,
            );
            assert(poly_arith::values(none@) =~= Seq::empty());
        }
        constraints::evaluate_at_point(&es, col_evals, none.as_slice(), &Scalar::zero(curve), alpha)
    }

    /// The weighted sum of the constraints as a polynomial.
    pub fn build_constraint_polynomial(
        &self,
        col_coeffs: &[Vec<Scalar>],
        alpha: &Scalar,
        _domain_size: u64,
    ) -> (r: Vec<Scalar>)
        requires
            col_coeffs.len() >= NUM_COLUMNS,
            constraints::coefficients_readable(row_constraints(), col_coeffs@, alpha.curve()),
        ensures
            poly_arith::reduced(
                r@,
                constraints::combined_poly(
                    row_constraints(),
                    expr::column_polys(col_coeffs@),
                    Seq::empty(),
                    0,
                    alpha@,
                ),
                alpha.curve(),
            ),
    {
        let curve: CurveType = alpha.curve_type();
        let es: Vec<Expr> = constraint_list();
        let none: Vec<Vec<Scalar>> = Vec::new();
        proof {
            constraints::lemma_well_formed_more(
                es@,
                NUM_COLUMNS as nat,
                col_coeffs.len() as nat,
                0,
            );
            assert(expr::column_polys(none@) =~= Seq::empty());
        }
        constraints::build_polynomial(
            &es,
            col_coeffs,
            none.as_slice(),
            &Scalar::zero(curve),
            alpha,
        )
    }

    pub fn selector_column_indices(&self) -> (r: Vec<usize>)
        ensures
            r@ == seq![COL_IS_REAL, COL_IS_WINNING_VOTE],
    {
        let r: Vec<usize> = vec![COL_IS_REAL, COL_IS_WINNING_VOTE];
        assert(r@ =~= seq![COL_IS_REAL, COL_IS_WINNING_VOTE]);
        r
    }

    pub fn padding_selector_column(&self) -> (r: Option<usize>)
        ensures
            r == None::<usize>,
    {
        None
    }

    /// Clears the padding rows.
    pub fn fix_trace_padding(
        &self,
        columns: &mut [Vec<Scalar>],
        num_rows: usize,
        padded_size: usize,
    )
        ensures
            constraints::padding_cleared(
                old(columns)@,
                final(columns)@,
                NUM_COLUMNS as nat,
                num_rows as nat,
                padded_size as nat,
                CurveType::Bls48581,
            ),
    {
        constraints::clear_padding(
            columns,
            NUM_COLUMNS,
            num_rows,
            padded_size,
            CurveType::Bls48581,
        )
    }

    /// Every byte column lies in the table of bytes.
    pub fn lookup_declarations(&self) -> (r: LookupRequirements)
        ensures
            lookup::declares_bytes(r, byte_ranges()),
    {
        let names: [&'static str; 5] = [
            "deposit_root",
            "deposit_count_byte",
            "block_hash",
            "slot_byte",
            "eth1_data_htr",
        ];
        let offsets: [usize; 5] = [
            COL_DEPOSIT_ROOT_OFFSET,
            COL_DEPOSIT_COUNT_BYTES_OFFSET,
            COL_BLOCK_HASH_OFFSET,
            COL_SLOT_BYTES_OFFSET,
            COL_ETH1_DATA_HTR_OFFSET,
        ];
        let lengths: [usize; 5] = [32, 8, 32, 8, 32];
        assert forall|i: int| 0 <= i < 5 implies (#[trigger] byte_ranges()[i]) == (
            names@[i]@,
            offsets@[i] as int,
            lengths@[i] as int,
        ) && lengths@[i] <= 32 && offsets@[i] <= 1000 by {
            assert(i == 0 || i == 1 || i == 2 || i == 3 || i == 4);
        }
        lookup::byte_lookups(
            names.as_slice(),
            offsets.as_slice(),
            lengths.as_slice(),
            Ghost(byte_ranges()),
        )
    }
}

/// The polynomial reading of the system agrees with its reading at a point.
pub proof fn law_polynomial_at_point(cols: Seq<Seq<int>>, alpha: int, z: int)
    requires
        cols.len() >= NUM_COLUMNS,
    ensures
        poly_arith::peval(
            constraints::combined_poly(row_constraints(), cols, Seq::empty(), 0, alpha),
            z,
        ) == constraints::combined(
            row_constraints(),
            expr::evals(cols, z),
            Seq::empty(),
            0,
            alpha,
        ),
{
    lemma_well_formed();
    constraints::lemma_well_formed_more(row_constraints(), NUM_COLUMNS as nat, cols.len(), 0);
    constraints::law_combined_reading(row_constraints(), cols, Seq::empty(), 0, alpha, z);
    assert(expr::evals(Seq::empty(), z) =~= Seq::empty());
}

/// The polynomial reading of the system takes at every point, modulo the
/// order, the reading of the system over numbers that stand for the values of
/// the columns there.
pub proof fn law_polynomial_modulo(
    cols: Seq<Seq<int>>,
    e: Seq<int>,
    alpha: int,
    z: int,
    curve: CurveType,
)
    requires
        cols.len() >= NUM_COLUMNS,
        forall|c: int|
            0 <= c < NUM_COLUMNS ==> (#[trigger] e[c]) % field::order(curve) == poly_arith::peval(
                cols[c],
                z,
            ) % field::order(curve),
    ensures
        poly_arith::peval(
            constraints::combined_poly(row_constraints(), cols, Seq::empty(), 0, alpha),
            z,
        ) % field::order(curve) == constraints::combined(
            row_constraints(),
            e,
            Seq::empty(),
            0,
            alpha,
        ) % field::order(curve),
{
    field::lemma_order(curve);
    lemma_well_formed();
    constraints::law_combined_reading_modulo(
        row_constraints(),
        NUM_COLUMNS as nat,
        cols,
        Seq::empty(),
        e,
        Seq::empty(),
        0,
        alpha,
        z,
        field::order(curve),
    );
}

/// The polynomial `p` of the constraints takes at `z` the value `v` of the
/// constraints at the point where the columns have the values `e`.
pub proof fn law_polynomial_value(
    col_coeffs: Seq<Vec<Scalar>>,
    e: Seq<Scalar>,
    z: Scalar,
    alpha: Scalar,
    p: Seq<Scalar>,
    v: Scalar,
)
    requires
        col_coeffs.len() >= NUM_COLUMNS,
        e.len() >= NUM_COLUMNS,
        forall|c: int|
            0 <= c < NUM_COLUMNS ==> (#[trigger] e[c])@ % field::order(alpha.curve())
                == poly_arith::peval(poly_arith::values(col_coeffs[c]@), z@) % field::order(
                alpha.curve(),
            ),
        poly_arith::reduced(
            p,
            constraints::combined_poly(
                row_constraints(),
                expr::column_polys(col_coeffs),
                Seq::empty(),
                0,
                alpha@,
            ),
            alpha.curve(),
        ),
        v@ == constraints::combined(
            row_constraints(),
            poly_arith::values(e),
            Seq::empty(),
            0,
            alpha@,
        ) % field::order(alpha.curve()),
    ensures
        poly_arith::peval(poly_arith::values(p), z@) % field::order(alpha.curve()) == v@,
{
    let cols = expr::column_polys(col_coeffs);
    let row = poly_arith::values(e);
    let m = field::order(alpha.curve());
    assert forall|c: int| 0 <= c < NUM_COLUMNS implies (#[trigger] row[c]) % m == poly_arith::peval(
        cols[c],
        z@,
    ) % m by {
        assert(e[c]@ % m == poly_arith::peval(poly_arith::values(col_coeffs[c]@), z@) % m);
    }
    law_polynomial_modulo(cols, row, alpha@, z@, alpha.curve());
    poly_arith::law_reduced_value(
        p,
        constraints::combined_poly(row_constraints(), cols, Seq::empty(), 0, alpha@),
        alpha.curve(),
        z@,
    );
}

/// The polynomial of the constraints is the same whatever the domain.
pub proof fn law_polynomial_of_any_domain(
    col_coeffs: Seq<Vec<Scalar>>,
    alpha: Scalar,
    p: Seq<Scalar>,
    q: Seq<Scalar>,
)
    requires
        poly_arith::reduced(
            p,
            constraints::combined_poly(
                row_constraints(),
                expr::column_polys(col_coeffs),
                Seq::empty(),
                0,
                alpha@,
            ),
            alpha.curve(),
        ),
        poly_arith::reduced(
            q,
            constraints::combined_poly(
                row_constraints(),
                expr::column_polys(col_coeffs),
                Seq::empty(),
                0,
                alpha@,
            ),
            alpha.curve(),
        ),
    ensures
        poly_arith::same_scalars(p, q),
{
    poly_arith::law_reduced_unique(
        p,
        q,
        constraints::combined_poly(
            row_constraints(),
            expr::column_polys(col_coeffs),
            Seq::empty(),
            0,
            alpha@,
        ),
        alpha.curve(),
    );
}

/// The value `v` of the constraints at a point with the numbers `e` is the sum
/// of their values `d` on a row `j` that holds the same numbers, weighted by
/// the powers of `alpha`.
pub proof fn law_point_is_weighted_row(
    columns: Seq<&Vec<Scalar>>,
    j: int,
    e: Seq<Scalar>,
    alpha: Scalar,
    d: Seq<Vec<Scalar>>,
    v: Scalar,
)
    requires
        columns.len() >= NUM_COLUMNS,
        0 <= j < columns[0].len(),
        columns[0]@[0].curve() == alpha.curve(),
        e.len() >= NUM_COLUMNS,
        forall|c: int|
            0 <= c < NUM_COLUMNS ==> (#[trigger] e[c])@ % field::order(alpha.curve())
                == columns[c]@[j]@ % field::order(alpha.curve()),
        constraints::domain_values(d, row_constraints(), columns, 0),
        v@ == constraints::combined(
            row_constraints(),
            poly_arith::values(e),
            Seq::empty(),
            0,
            alpha@,
        ) % field::order(alpha.curve()),
    ensures
        v@ == poly_arith::peval(
            Seq::new(NUM_ROW_CONSTRAINTS as nat, |k: int| d[k]@[j]@),
            alpha@,
        ) % field::order(alpha.curve()),
{
    let row = poly_arith::values(e);
    let m = field::order(alpha.curve());
    lemma_well_formed();
    assert forall|c: int| 0 <= c < NUM_COLUMNS implies modular::cong(
        #[trigger] row[c],
        columns[c]@[j]@,
        m,
    ) by {
        assert(e[c]@ % m == columns[c]@[j]@ % m);
    }
    constraints::law_point_is_weighted_row(
        row_constraints(),
        NUM_COLUMNS as nat,
        columns,
        j,
        row,
        0,
        alpha@,
        d,
    );
    assert(row_constraints().len() == NUM_ROW_CONSTRAINTS);
}

// ─── What vanishing constraints say ───────────────────────────────────

/// The cells are field elements, the bytes of count and slot are bytes, and
/// the votes have 64 bits.
pub open spec fn row_in_range(row: Seq<int>, m: int) -> bool {
    &&& row.len() >= NUM_COLUMNS
    &&& forall|c: int| 0 <= c < NUM_COLUMNS ==> 0 <= #[trigger] row[c] < m
    &&& forall|k: int|
        0 <= k < 8 ==> 0 <= row[#[trigger] (COL_DEPOSIT_COUNT_BYTES_OFFSET + k)] < 256
    &&& forall|k: int| 0 <= k < 8 ==> 0 <= row[#[trigger] (COL_SLOT_BYTES_OFFSET + k)] < 256
    &&& row[COL_VOTE_COUNT as int] <= u64::MAX
    &&& row[COL_VOTE_COUNT_THRESHOLD as int] <= u64::MAX
    &&& row[COL_VOTE_MARGIN as int] <= u64::MAX
}

/// Every constraint vanishes on the row.
pub open spec fn row_vanishes(row: Seq<int>, ch: int, m: int) -> bool {
    forall|i: int|
        0 <= i < NUM_ROW_CONSTRAINTS ==> expr::ev(
            #[trigger] row_constraints()[i],
            row,
            Seq::empty(),
            ch,
        ) % m == 0
}

/// What a row says once its constraints vanish.
pub open spec fn row_sound(row: Seq<int>) -> bool {
    let win = row[COL_IS_WINNING_VOTE as int];
    &&& row[COL_IS_REAL as int] == 0 || row[COL_IS_REAL as int] == 1
    &&& win == 0 || win == 1
    &&& row[COL_DEPOSIT_COUNT as int] == constraints::weighted_sum(
        row,
        COL_DEPOSIT_COUNT_BYTES_OFFSET as int,
        256,
        8,
    )
    &&& row[COL_SLOT as int] == constraints::weighted_sum(row, COL_SLOT_BYTES_OFFSET as int, 256, 8)
    &&& win == 1 ==> row[COL_IS_REAL as int] == 1
    &&& win == 1 ==> row[COL_VOTE_COUNT as int] == row[COL_VOTE_COUNT_THRESHOLD as int]
        + row[COL_VOTE_MARGIN as int]
}

proof fn lemma_number_sound(row: Seq<int>, number: usize, first_byte: usize, ch: int, m: int)
    requires
        m > 0x1_0000_0000_0000_0000,
        number < NUM_COLUMNS,
        first_byte + 8 <= NUM_COLUMNS,
        0 <= row[number as int] < m,
        forall|k: int| 0 <= k < 8 ==> 0 <= row[#[trigger] (first_byte + k)] < 256,
        expr::ev(decomposition_of(number, first_byte), row, Seq::empty(), ch) % m == 0,
    ensures
        row[number as int] == constraints::weighted_sum(row, first_byte as int, 256, 8),
{
    constraints::lemma_ev_weighted(first_byte, 256, 8, row, Seq::empty(), ch);
    assert(expr::ev(decomposition_of(number, first_byte), row, Seq::empty(), ch)
        == row[number as int] - constraints::weighted_sum(row, first_byte as int, 256, 8)) by {
        reveal_with_fuel(expr::ev, 2);
    }
    soundness::lemma_bytes_sound(row, number as int, first_byte as int, m);
}

/// On a row where every constraint vanishes, count and slot are what their
/// bytes add up to, and a winning vote is real and reaches the threshold by
/// its margin.
pub proof fn law_vanishing_row_sound(row: Seq<int>, ch: int, curve: CurveType)
    requires
        soundness::integral(field::order(curve)),
        row_in_range(row, field::order(curve)),
        row_vanishes(row, ch, field::order(curve)),
    ensures
        row_sound(row),
{
    let m = field::order(curve);
    field::lemma_order(curve);
    let e = Seq::<int>::empty();
    let es = row_constraints();
    assert(expr::ev(es[0], row, e, ch) % m == 0);
    soundness::lemma_binary_sound(COL_IS_REAL, row, e, ch, m);
    assert(expr::ev(es[1], row, e, ch) % m == 0);
    soundness::lemma_binary_sound(COL_IS_WINNING_VOTE, row, e, ch, m);
    assert(expr::ev(es[2], row, e, ch) % m == 0);
    lemma_number_sound(row, COL_DEPOSIT_COUNT, COL_DEPOSIT_COUNT_BYTES_OFFSET, ch, m);
    assert(expr::ev(es[3], row, e, ch) % m == 0);
    lemma_number_sound(row, COL_SLOT, COL_SLOT_BYTES_OFFSET, ch, m);
    if row[COL_IS_WINNING_VOTE as int] == 1 {
        let margin = constraints::sub_of(
            constraints::diff_of(COL_VOTE_COUNT, COL_VOTE_COUNT_THRESHOLD),
            Expr::Col(COL_VOTE_MARGIN),
        );
        let not_real = constraints::sub_of(Expr::Const(1), Expr::Col(COL_IS_REAL));
        assert(expr::ev(es[4], row, e, ch) % m == 0);
        soundness::lemma_gated_sound(COL_IS_WINNING_VOTE, margin, row, e, ch, m);
        assert(expr::ev(es[5], row, e, ch) % m == 0);
        soundness::lemma_gated_sound(COL_IS_WINNING_VOTE, not_real, row, e, ch, m);
        reveal_with_fuel(expr::ev, 3);
        soundness::lemma_equal(
            row[COL_VOTE_COUNT as int] - row[COL_VOTE_COUNT_THRESHOLD as int],
            row[COL_VOTE_MARGIN as int],
            m,
        );
        soundness::lemma_equal(1, row[COL_IS_REAL as int], m);
    }
}

// ─── Links ────────────────────────────────────────────────────────────

/// The deposit root of every row is the top of the deposit tree.
pub fn make_eth1_data_to_deposit_tree_descriptor(
    eth1_layer_index: usize,
    deposit_tree_layer_index: usize,
) -> (r: CrossAirLogUpDescriptor)
    ensures
        r.is(
            cross_air_logup::Link {
                label: "eth1_data_to_deposit_tree_v1"@,
                a_layer: eth1_layer_index as int,
                a_columns: cross_air_logup::run(COL_DEPOSIT_ROOT_OFFSET as int, 32),
                a_selector: COL_IS_REAL as int,
                b_layer: deposit_tree_layer_index as int,
                b_columns: cross_air_logup::run(
                    deposit_tree_air::COL_DEPOSIT_ROOT_OFFSET as int,
                    32,
                ),
                b_selector: deposit_tree_air::COL_IS_TOP as int,
            },
        ),
{
    CrossAirLogUpDescriptor {
        label: "eth1_data_to_deposit_tree_v1".to_string(),
        a_layer_index: eth1_layer_index,
        a_columns: column_run(COL_DEPOSIT_ROOT_OFFSET, DEPOSIT_ROOT_LEN),
        a_selector_column: Some(COL_IS_REAL),
        b_layer_index: deposit_tree_layer_index,
        b_columns: column_run(deposit_tree_air::COL_DEPOSIT_ROOT_OFFSET, DEPOSIT_ROOT_LEN),
        b_selector_column: Some(deposit_tree_air::COL_IS_TOP),
    }
}

/// The 72 bytes of the data of every row are bytes of the block body.
pub fn make_eth1_data_to_bbb_descriptor(
    eth1_layer_index: usize,
    bbb_layer_index: usize,
    bbb_eth1_data_byte_offset: usize,
    bbb_selector_column: usize,
) -> (r: CrossAirLogUpDescriptor)
    requires
        bbb_eth1_data_byte_offset + 71 <= usize::MAX,
    ensures
        r.is(
            cross_air_logup::Link {
                label: "eth1_data_to_bbb_v1"@,
                a_layer: eth1_layer_index as int,
                a_columns: cross_air_logup::run(COL_DEPOSIT_ROOT_OFFSET as int, 32)
                    + cross_air_logup::run(COL_DEPOSIT_COUNT_BYTES_OFFSET as int, 8)
                    + cross_air_logup::run(COL_BLOCK_HASH_OFFSET as int, 32),
                a_selector: COL_IS_REAL as int,
                b_layer: bbb_layer_index as int,
                b_columns: cross_air_logup::run(bbb_eth1_data_byte_offset as int, 72),
                b_selector: bbb_selector_column as int,
            },
        ),
{
    let mut a_columns: Vec<usize> = column_run(COL_DEPOSIT_ROOT_OFFSET, DEPOSIT_ROOT_LEN);
    push_run(&mut a_columns, COL_DEPOSIT_COUNT_BYTES_OFFSET, U64_BYTES);
    push_run(&mut a_columns, COL_BLOCK_HASH_OFFSET, BLOCK_HASH_LEN);
    CrossAirLogUpDescriptor {
        label: "eth1_data_to_bbb_v1".to_string(),
        a_layer_index: eth1_layer_index,
        a_columns,
        a_selector_column: Some(COL_IS_REAL),
        b_layer_index: bbb_layer_index,
        b_columns: column_run(
            bbb_eth1_data_byte_offset,
            DEPOSIT_ROOT_LEN + U64_BYTES + BLOCK_HASH_LEN,
        ),
        b_selector_column: Some(bbb_selector_column),
    }
}

/// The root of the data of every row is the output of a hash invocation.
pub fn make_eth1_data_to_htr_descriptor(
    eth1_layer_index: usize,
    sha256_extract_layer_index: usize,
) -> (r: CrossAirLogUpDescriptor)
    ensures
        r.is(
            cross_air_logup::Link {
                label: "eth1_data_to_htr_v1"@,
                a_layer: eth1_layer_index as int,
                a_columns: cross_air_logup::run(COL_ETH1_DATA_HTR_OFFSET as int, 32),
                a_selector: COL_IS_REAL as int,
                b_layer: sha256_extract_layer_index as int,
                b_columns: cross_air_logup::run(
                    sha256_extract::COL_OUTPUT_BYTE_OFFSET as int,
                    32,
                ),
                b_selector: sha256_extract::COL_IS_REAL as int,
            },
        ),
{
    CrossAirLogUpDescriptor {
        label: "eth1_data_to_htr_v1".to_string(),
        a_layer_index: eth1_layer_index,
        a_columns: column_run(COL_ETH1_DATA_HTR_OFFSET, HTR_LEN),
        a_selector_column: Some(COL_IS_REAL),
        b_layer_index: sha256_extract_layer_index,
        b_columns: column_run(sha256_extract::COL_OUTPUT_BYTE_OFFSET, HTR_LEN),
        b_selector_column: Some(sha256_extract::COL_IS_REAL),
    }
}

/// What is looked up: every byte column of the table, and nothing else, in one
/// table of 256 values.
pub proof fn law_looked_up(r: LookupRequirements)
    requires
        lookup::declares_bytes(r, byte_ranges()),
    ensures
        r.tables.len() == 1,
        r.tables@[0].size == 256,
        r.declarations.len() == 112,
        forall|k: int|
            0 <= k < 32 ==> {
                let d = #[trigger] r.declarations@[0 + k];
                &&& d.0.column_index == COL_DEPOSIT_ROOT_OFFSET + k
                &&& d.0.label@ == "deposit_root"@ + "_"@ + label::decimal(k as nat) + "_8bit"@
                &&& d.0.max_bits == 8
                &&& d.0.selector_column is None
                &&& d.1 == 0
            },
        forall|k: int|
            0 <= k < 8 ==> {
                let d = #[trigger] r.declarations@[32 + k];
                &&& d.0.column_index == COL_DEPOSIT_COUNT_BYTES_OFFSET + k
                &&& d.0.label@ == "deposit_count_byte"@ + "_"@ + label::decimal(k as nat) + "_8bit"@
                &&& d.0.max_bits == 8
                &&& d.0.selector_column is None
                &&& d.1 == 0
            },
        forall|k: int|
            0 <= k < 32 ==> {
                let d = #[trigger] r.declarations@[40 + k];
                &&& d.0.column_index == COL_BLOCK_HASH_OFFSET + k
                &&& d.0.label@ == "block_hash"@ + "_"@ + label::decimal(k as nat) + "_8bit"@
                &&& d.0.max_bits == 8
                &&& d.0.selector_column is None
                &&& d.1 == 0
            },
        forall|k: int|
            0 <= k < 8 ==> {
                let d = #[trigger] r.declarations@[72 + k];
                &&& d.0.column_index == COL_SLOT_BYTES_OFFSET + k
                &&& d.0.label@ == "slot_byte"@ + "_"@ + label::decimal(k as nat) + "_8bit"@
                &&& d.0.max_bits == 8
                &&& d.0.selector_column is None
                &&& d.1 == 0
            },
        forall|k: int|
            0 <= k < 32 ==> {
                let d = #[trigger] r.declarations@[80 + k];
                &&& d.0.column_index == COL_ETH1_DATA_HTR_OFFSET + k
                &&& d.0.label@ == "eth1_data_htr"@ + "_"@ + label::decimal(k as nat) + "_8bit"@
                &&& d.0.max_bits == 8
                &&& d.0.selector_column is None
                &&& d.1 == 0
            },
{
    reveal_with_fuel(lookup::columns_before, 6);
    assert(lookup::range_declared(r.declarations@, lookup::columns_before(byte_ranges(), 0), byte_ranges()[0]));
    assert(lookup::range_declared(r.declarations@, lookup::columns_before(byte_ranges(), 1), byte_ranges()[1]));
    assert(lookup::range_declared(r.declarations@, lookup::columns_before(byte_ranges(), 2), byte_ranges()[2]));
    assert(lookup::range_declared(r.declarations@, lookup::columns_before(byte_ranges(), 3), byte_ranges()[3]));
    assert(lookup::range_declared(r.declarations@, lookup::columns_before(byte_ranges(), 4), byte_ranges()[4]));
}

/// The value of every constraint on a row, in the order of the constraints.
pub proof fn law_constraint_values(row: Seq<int>, ch: int)
    ensures
        row_constraints().len() == 6,
        expr::ev(row_constraints()[0], row, Seq::empty(), ch) == row[COL_IS_REAL as int] * (row[COL_IS_REAL as int] - 1),
        expr::ev(row_constraints()[1], row, Seq::empty(), ch) == row[COL_IS_WINNING_VOTE as int] * (row[COL_IS_WINNING_VOTE as int] - 1),
        expr::ev(row_constraints()[2], row, Seq::empty(), ch) == row[COL_DEPOSIT_COUNT as int] - constraints::eight_bytes(row, COL_DEPOSIT_COUNT_BYTES_OFFSET as int),
        expr::ev(row_constraints()[3], row, Seq::empty(), ch) == row[COL_SLOT as int] - constraints::eight_bytes(row, COL_SLOT_BYTES_OFFSET as int),
        expr::ev(row_constraints()[4], row, Seq::empty(), ch) == row[COL_IS_WINNING_VOTE as int] * (row[COL_VOTE_COUNT as int] - row[COL_VOTE_COUNT_THRESHOLD as int] - row[COL_VOTE_MARGIN as int]),
        expr::ev(row_constraints()[5], row, Seq::empty(), ch) == row[COL_IS_WINNING_VOTE as int] * (1 - row[COL_IS_REAL as int]),
{
    let e = Seq::<int>::empty();
    constraints::lemma_ev_weighted(COL_DEPOSIT_COUNT_BYTES_OFFSET, 256, 8, row, e, ch);
    constraints::lemma_weighted_bytes(row, COL_DEPOSIT_COUNT_BYTES_OFFSET as int);
    constraints::lemma_ev_weighted(COL_SLOT_BYTES_OFFSET, 256, 8, row, e, ch);
    constraints::lemma_weighted_bytes(row, COL_SLOT_BYTES_OFFSET as int);
    reveal_with_fuel(expr::ev, 5);
}

// ─── What the table says of a vote ────────────────────────────────────

/// The root of the data is the root of a tree of four leaves: deposit root,
/// deposit count, block hash and zeros. The leaf of the count holds its
/// little-endian bytes.
pub proof fn law_root_of_data(data: Eth1DataLite)
    ensures
        data.root() == sha256::hash_pair(
            sha256::hash_pair(data.deposit_root@, ssz::uint_chunk(data.deposit_count as int)),
            sha256::hash_pair(data.block_hash@, Seq::new(32, |i: int| 0u8)),
        ),
        bytes::le_value(ssz::uint_chunk(data.deposit_count as int)) == data.deposit_count,
        ssz::uint_chunk(data.deposit_count as int).len() == 32,
{
    reveal_with_fuel(ssz::tree, 3);
    reveal_with_fuel(ssz::pow2, 2);
    assert(sha256::zeros(32) =~= Seq::new(32, |i: int| 0u8));
    ssz::law_uint_chunk(data.deposit_count);
}

/// The row of a vote holds its data with their root, and the vote wins exactly
/// if it has more than half of the slots of the period, halves not counted.
pub proof fn law_vote_row(
    row: Eth1DataVotingRow,
    data: Eth1DataLite,
    slot: u64,
    vote_count: u32,
    slots_per_period: u32,
)
    requires
        is_vote_row(row, data, slot, vote_count, slots_per_period),
    ensures
        row.deposit_root@ == data.deposit_root@,
        row.deposit_count == data.deposit_count,
        row.block_hash@ == data.block_hash@,
        row.slot == slot,
        row.vote_count == vote_count,
        row.eth1_data_htr@ == data.root(),
        2 * row.vote_count_threshold <= slots_per_period <= 2 * row.vote_count_threshold + 1,
        row.is_winning_vote <==> 2 * vote_count >= slots_per_period + 1 && vote_count
            > row.vote_count_threshold,
        row.is_winning_vote <==> 2 * vote_count > slots_per_period || 2 * vote_count
            == slots_per_period + 1,
        row.is_winning_vote ==> row.vote_count_threshold + margin(row) == vote_count && margin(row)
            >= 1,
        !row.is_winning_vote ==> margin(row) == 0,
{
}

/// What the trace of a witness holds of an observation: its data, byte for
/// byte, the root of the data, the slot, the votes and the margin.
pub proof fn law_trace_holds_vote(
    w: Eth1DataVotingWitness,
    t: TracePolynomials,
    curve: CurveType,
    r: int,
)
    requires
        trace::holds(
            t,
            NUM_COLUMNS as nat,
            w.observations.len() as nat,
            curve,
            cells(w.observations@),
        ),
        0 <= r < w.observations.len(),
    ensures
        ({
            let o = w.observations@[r];
            &&& trace::string_at(t, COL_DEPOSIT_ROOT_OFFSET as int, r, o.deposit_root@)
            &&& trace::string_at(t, COL_BLOCK_HASH_OFFSET as int, r, o.block_hash@)
            &&& trace::string_at(t, COL_ETH1_DATA_HTR_OFFSET as int, r, o.eth1_data_htr@)
            &&& trace::at(t, COL_DEPOSIT_COUNT as int, r) == o.deposit_count
            &&& trace::bytes_at(t, COL_DEPOSIT_COUNT_BYTES_OFFSET as int, r) == o.deposit_count
            &&& trace::byte_cells(t, COL_DEPOSIT_COUNT_BYTES_OFFSET as int, r, 8)
            &&& trace::at(t, COL_SLOT as int, r) == o.slot
            &&& trace::bytes_at(t, COL_SLOT_BYTES_OFFSET as int, r) == o.slot
            &&& trace::byte_cells(t, COL_SLOT_BYTES_OFFSET as int, r, 8)
            &&& trace::at(t, COL_VOTE_COUNT as int, r) == o.vote_count
            &&& trace::at(t, COL_VOTE_COUNT_THRESHOLD as int, r) == o.vote_count_threshold
            &&& o.vote_count >= o.vote_count_threshold ==> trace::at(t, COL_VOTE_MARGIN as int, r)
                + o.vote_count_threshold == o.vote_count
            &&& o.vote_count < o.vote_count_threshold ==> trace::at(t, COL_VOTE_MARGIN as int, r)
                == 0
            &&& trace::at(t, COL_IS_WINNING_VOTE as int, r) == if o.is_winning_vote {
                1int
            } else {
                0int
            }
            &&& trace::at(t, COL_IS_REAL as int, r) == 1
        }),
{
    let o = w.observations@[r];
    trace::lemma_cells(
        t,
        NUM_COLUMNS as nat,
        w.observations.len() as nat,
        curve,
        cells(w.observations@),
        r,
    );
    bytes::law_eight_bytes(o.deposit_count);
    bytes::law_eight_bytes(o.slot);
}

/// Witnesses with the same trace have the same data, slots and votes.
pub proof fn law_trace_determines_votes(
    v: Eth1DataVotingWitness,
    w: Eth1DataVotingWitness,
    t: TracePolynomials,
    curve: CurveType,
    r: int,
)
    requires
        trace::holds(
            t,
            NUM_COLUMNS as nat,
            v.observations.len() as nat,
            curve,
            cells(v.observations@),
        ),
        trace::holds(
            t,
            NUM_COLUMNS as nat,
            w.observations.len() as nat,
            curve,
            cells(w.observations@),
        ),
        0 <= r < v.observations.len(),
    ensures
        v.observations.len() == w.observations.len(),
        v.observations@[r].deposit_root@ == w.observations@[r].deposit_root@,
        v.observations@[r].block_hash@ == w.observations@[r].block_hash@,
        v.observations@[r].eth1_data_htr@ == w.observations@[r].eth1_data_htr@,
        v.observations@[r].deposit_count == w.observations@[r].deposit_count,
        v.observations@[r].slot == w.observations@[r].slot,
        v.observations@[r].vote_count == w.observations@[r].vote_count,
        v.observations@[r].vote_count_threshold == w.observations@[r].vote_count_threshold,
        v.observations@[r].is_winning_vote == w.observations@[r].is_winning_vote,
{
    law_trace_holds_vote(v, t, curve, r);
    law_trace_holds_vote(w, t, curve, r);
    let (a, b) = (v.observations@[r], w.observations@[r]);
    assert forall|k: int| 0 <= k < 32 implies a.deposit_root@[k] == b.deposit_root@[k]
        && a.block_hash@[k] == b.block_hash@[k] && a.eth1_data_htr@[k]
        == b.eth1_data_htr@[k] by {
        assert(trace::at(t, COL_DEPOSIT_ROOT_OFFSET + k, r) == a.deposit_root@[k]);
        assert(trace::at(t, COL_BLOCK_HASH_OFFSET + k, r) == a.block_hash@[k]);
        assert(trace::at(t, COL_ETH1_DATA_HTR_OFFSET + k, r) == a.eth1_data_htr@[k]);
    }
    assert(a.deposit_root@ =~= b.deposit_root@);
    assert(a.block_hash@ =~= b.block_hash@);
    assert(a.eth1_data_htr@ =~= b.eth1_data_htr@);
}

} // verus!
