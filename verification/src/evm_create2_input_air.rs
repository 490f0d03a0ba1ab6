//! Input of the CREATE2 address hash: trace, constraints and links.
//!
//! One row per invocation. The row holds sender, salt and hash of the init
//! code, as bytes and as limbs, and the 85 bytes that are hashed:
//! `0xff || sender || salt || hash`.

use crate::bytes;
use crate::constraints;
use crate::constraints::{binary, le_bytes_expr, minus, push_cols, push_diffs, rlc, times};
use crate::cross_air_logup;
use crate::cross_air_logup::{push_run, CrossAirLogUpDescriptor};
use crate::evm_address;
use crate::expr;
use crate::expr::Expr;
use crate::field;
use crate::field::{CurveType, Scalar};
use crate::keccak_extract;
use crate::lookup::LookupRequirements;
use crate::poly_arith;
use crate::soundness;
use crate::trace;
use crate::trace::{trace_from_rows, TracePolynomials};
use vstd::prelude::*;

verus! {

pub const CREATE2_MAGIC_BYTE: u64 = 0xff;

pub const INPUT_OUTPUT_LEN: usize = 85;

pub const NUM_SENDER_BYTES: usize = 20;

pub const NUM_SENDER_LIMBS: usize = 4;

pub const NUM_SALT_BYTES: usize = 32;

pub const NUM_INITCODE_HASH_BYTES: usize = 32;

pub const NUM_SALT_LIMBS: usize = 4;

pub const NUM_INITCODE_HASH_LIMBS: usize = 4;

pub const INPUT_BYTE_WIDTH: usize = keccak_extract::MAX_INPUT_LEN;

pub const COL_SENDER_BYTE_OFFSET: usize = 0;

pub const COL_SENDER_LIMB_OFFSET: usize = 20;

pub const COL_SALT_BYTE_OFFSET: usize = 24;

pub const COL_SALT_LIMB_OFFSET: usize = 56;

pub const COL_INITCODE_HASH_BYTE_OFFSET: usize = 60;

pub const COL_INITCODE_HASH_LIMB_OFFSET: usize = 92;

pub const COL_INPUT_BYTE_OFFSET: usize = 96;

pub const COL_INPUT_LEN: usize = COL_INPUT_BYTE_OFFSET + INPUT_BYTE_WIDTH;

pub const COL_IS_REAL: usize = COL_INPUT_LEN + 1;

pub const NUM_COLUMNS: usize = COL_IS_REAL + 1;

pub const NUM_ROW_CONSTRAINTS: usize = 14;

pub const NUM_SHIFTED: usize = 0;

#[derive(Clone, Copy, Debug, PartialEq, Eq)]
pub struct Create2InputRow {
    pub sender: [u8; 20],
    pub salt: [u8; 32],
    pub initcode_hash: [u8; 32],
}

#[derive(Clone, Debug, Default)]
pub struct Create2InputWitness {
    pub invocations: Vec<Create2InputRow>,
}

impl Create2InputWitness {
    /// One row per input, in order.
    pub fn from_inputs(inputs: &[(&[u8; 20], &[u8; 32], &[u8; 32])]) -> (r: Self)
        ensures
            r.invocations.len() == inputs.len(),
            forall|i: int|
                0 <= i < inputs.len() ==> {
                    &&& (#[trigger] r.invocations@[i]).sender == *inputs@[i].0
                    &&& r.invocations@[i].salt == *inputs@[i].1
                    &&& r.invocations@[i].initcode_hash == *inputs@[i].2
                },
    {
        let mut invocations: Vec<Create2InputRow> = Vec::with_capacity(inputs.len());
        let mut i: usize = 0;
        while i < inputs.len()
            invariant
                i <= inputs.len(),
                invocations.len() == i,
                forall|k: int|
                    0 <= k < i ==> {
                        &&& (#[trigger] invocations@[k]).sender == *inputs@[k].0
                        &&& invocations@[k].salt == *inputs@[k].1
                        &&& invocations@[k].initcode_hash == *inputs@[k].2
                    },
            decreases inputs.len() - i,
        {
            let (sender, salt, initcode_hash) = inputs[i];
            invocations.push(
                Create2InputRow { sender: *sender, salt: *salt, initcode_hash: *initcode_hash },
            );
            i = i + 1;
        }
        Self { invocations }
    }
}

/// The address as little-endian limbs of eight, eight and four bytes, and a
/// zero.
pub fn sender_limbs_from_bytes(sender: &[u8; 20]) -> (r: [u64; 4])
    ensures
        forall|k: int| 0 <= k < 4 ==> r@[k] == evm_address::limb(sender@, k),
{
    evm_address::limbs(sender)
}

/// 32 bytes as four little-endian limbs.
pub fn bytes32_to_le_limbs(bytes: &[u8; 32]) -> (r: [u64; 4])
    ensures
        forall|k: int| 0 <= k < 4 ==> r@[k] == evm_address::word(bytes@, k),
{
    evm_address::words(bytes)
}

/// `0xff || sender || salt || initcode_hash`.
pub open spec fn create2_input(sender: Seq<u8>, salt: Seq<u8>, initcode_hash: Seq<u8>) -> Seq<u8> {
    seq![0xffu8] + sender + salt + initcode_hash
}

/// The bytes whose hash gives the address.
pub fn canonical_create2_input(
    sender: &[u8; 20],
    salt: &[u8; 32],
    initcode_hash: &[u8; 32],
) -> (r: [u8; 85])
    ensures
        r@ == create2_input(sender@, salt@, initcode_hash@),
{
    let mut out: [u8; 85] = [0u8; 85];
    let ghost want = create2_input(sender@, salt@, initcode_hash@);
    let mut i: usize = 0;
    while i < INPUT_OUTPUT_LEN
        invariant
            i <= 85,
            want == create2_input(sender@, salt@, initcode_hash@),
            forall|k: int| 0 <= k < i ==> out@[k] == want[k],
        decreases 85 - i,
    {
        out[i] = if i == 0 {
            0xff
        } else if i < 21 {
            sender[i - 1]
        } else if i < 53 {
            salt[i - 21]
        } else {
            initcode_hash[i - 53]
        };
        i = i + 1;
    }
    assert(out@ =~= want);
    out
}

/// Inputs that differ give different bytes to hash.
pub proof fn law_input_injective(
    sender: Seq<u8>,
    salt: Seq<u8>,
    hash: Seq<u8>,
    sender2: Seq<u8>,
    salt2: Seq<u8>,
    hash2: Seq<u8>,
)
    requires
        sender.len() == 20,
        sender2.len() == 20,
        salt.len() == 32,
        salt2.len() == 32,
        hash.len() == 32,
        hash2.len() == 32,
        create2_input(sender, salt, hash) == create2_input(sender2, salt2, hash2),
    ensures
        sender == sender2,
        salt == salt2,
        hash == hash2,
{
    let (a, b) = (create2_input(sender, salt, hash), create2_input(sender2, salt2, hash2));
    assert forall|i: int| 0 <= i < 20 implies sender[i] == sender2[i] by {
        assert(a[i + 1] == b[i + 1]);
    }
    assert forall|i: int| 0 <= i < 32 implies salt[i] == salt2[i] by {
        assert(a[i + 21] == b[i + 21]);
    }
    assert forall|i: int| 0 <= i < 32 implies hash[i] == hash2[i] by {
        assert(a[i + 53] == b[i + 53]);
    }
    assert(sender =~= sender2);
    assert(salt =~= salt2);
    assert(hash =~= hash2);
}

// ─── Trace ────────────────────────────────────────────────────────────

/// The cell of a row in column `c`.
pub open spec fn row_cell(row: Create2InputRow, c: int) -> int {
    if c < COL_SENDER_LIMB_OFFSET {
        row.sender@[c] as int
    } else if c < COL_SALT_BYTE_OFFSET {
        evm_address::limb(row.sender@, c - COL_SENDER_LIMB_OFFSET)
    } else if c < COL_SALT_LIMB_OFFSET {
        row.salt@[c - COL_SALT_BYTE_OFFSET] as int
    } else if c < COL_INITCODE_HASH_BYTE_OFFSET {
        evm_address::word(row.salt@, c - COL_SALT_LIMB_OFFSET)
    } else if c < COL_INITCODE_HASH_LIMB_OFFSET {
        row.initcode_hash@[c - COL_INITCODE_HASH_BYTE_OFFSET] as int
    } else if c < COL_INPUT_BYTE_OFFSET {
        evm_address::word(row.initcode_hash@, c - COL_INITCODE_HASH_LIMB_OFFSET)
    } else if c < COL_INPUT_BYTE_OFFSET + INPUT_OUTPUT_LEN {
        create2_input(row.sender@, row.salt@, row.initcode_hash@)[c - COL_INPUT_BYTE_OFFSET] as int
    } else if c < COL_INPUT_LEN {
        0
    } else if c == COL_INPUT_LEN {
        INPUT_OUTPUT_LEN as int
    } else {
        1
    }
}

/// The cells of a witness.
pub open spec fn cells(rows: Seq<Create2InputRow>) -> spec_fn(int, int) -> int {
    |c: int, r: int| row_cell(rows[r], c)
}

fn row_scalars(row: &Create2InputRow, curve: CurveType) -> (v: Vec<Scalar>)
    ensures
        v.len() == NUM_COLUMNS,
        forall|c: int|
            0 <= c < NUM_COLUMNS ==> (#[trigger] v@[c]).curve() == curve && v@[c]@ == row_cell(
                *row,
                c,
            ),
{
    let sender: [u64; 4] = sender_limbs_from_bytes(&row.sender);
    let salt: [u64; 4] = bytes32_to_le_limbs(&row.salt);
    let hash: [u64; 4] = bytes32_to_le_limbs(&row.initcode_hash);
    let input: [u8; 85] = canonical_create2_input(&row.sender, &row.salt, &row.initcode_hash);
    let mut v: Vec<Scalar> = Vec::with_capacity(NUM_COLUMNS);
    let mut c: usize = 0;
    while c < NUM_COLUMNS
        invariant
            c <= NUM_COLUMNS,
            v.len() == c,
            forall|k: int| 0 <= k < 4 ==> sender@[k] == evm_address::limb(row.sender@, k),
            forall|k: int| 0 <= k < 4 ==> salt@[k] == evm_address::word(row.salt@, k),
            forall|k: int| 0 <= k < 4 ==> hash@[k] == evm_address::word(row.initcode_hash@, k),
            input@ == create2_input(row.sender@, row.salt@, row.initcode_hash@),
            forall|k: int|
                0 <= k < c ==> (#[trigger] v@[k]).curve() == curve && v@[k]@ == row_cell(*row, k),
        decreases NUM_COLUMNS - c,
    {
        let x: u64 = if c < COL_SENDER_LIMB_OFFSET {
            row.sender[c] as u64
        } else if c < COL_SALT_BYTE_OFFSET {
            sender[c - COL_SENDER_LIMB_OFFSET]
        } else if c < COL_SALT_LIMB_OFFSET {
            row.salt[c - COL_SALT_BYTE_OFFSET] as u64
        } else if c < COL_INITCODE_HASH_BYTE_OFFSET {
            salt[c - COL_SALT_LIMB_OFFSET]
        } else if c < COL_INITCODE_HASH_LIMB_OFFSET {
            row.initcode_hash[c - COL_INITCODE_HASH_BYTE_OFFSET] as u64
        } else if c < COL_INPUT_BYTE_OFFSET {
            hash[c - COL_INITCODE_HASH_LIMB_OFFSET]
        } else if c < COL_INPUT_BYTE_OFFSET + INPUT_OUTPUT_LEN {
            input[c - COL_INPUT_BYTE_OFFSET] as u64
        } else if c < COL_INPUT_LEN {
            0
        } else if c == COL_INPUT_LEN {
            INPUT_OUTPUT_LEN as u64
        } else {
            1
        };
        v.push(Scalar::from_u64(x, curve));
        c = c + 1;
    }
    v
}

pub fn build_trace_polynomials(witness: &Create2InputWitness, curve: CurveType) -> (t:
    TracePolynomials)
    requires
        trace::paddable(witness.invocations.len() as nat),
    ensures
        trace::holds(
            t,
            NUM_COLUMNS as nat,
            witness.invocations.len() as nat,
            curve,
            cells(witness.invocations@),
        ),
{
    let n: usize = witness.invocations.len();
    let mut rows: Vec<Vec<Scalar>> = Vec::with_capacity(n);
    let ghost cell = cells(witness.invocations@);
    let mut i: usize = 0;
    while i < n
        invariant
            i <= n,
            n == witness.invocations.len(),
            cell == cells(witness.invocations@),
            rows.len() == i,
            trace::rows_hold(rows@, NUM_COLUMNS as nat, curve, cell),
        decreases n - i,
    {
        let ghost before = rows@;
        rows.push(row_scalars(&witness.invocations[i], curve));
        assert(forall|k: int| 0 <= k < i ==> rows@[k] == before[k]);
        i = i + 1;
    }
    trace_from_rows(&rows, NUM_COLUMNS, curve, Ghost(cell))
}

// ─── Constraints ──────────────────────────────────────────────────────

/// On real rows, a limb equals the `n` bytes from column `first`.
pub open spec fn limb_of(limb: usize, first: usize, n: nat) -> Expr {
    constraints::mul_of(
        Expr::Col(COL_IS_REAL),
        constraints::sub_of(Expr::Col(limb), constraints::weighted_of(first, 256, n)),
    )
}

fn limb_binding(limb: usize, first: usize, n: usize) -> (r: Expr)
    requires
        n <= 8,
        first + n <= usize::MAX,
    ensures
        r == limb_of(limb, first, n as nat),
{
    times(Expr::Col(COL_IS_REAL), minus(Expr::Col(limb), le_bytes_expr(first, n)))
}

/// What the hashed bytes are: the marker, sender, salt and hash, zeros
/// behind them, and their length.
pub open spec fn input_terms() -> Seq<Expr> {
    seq![
        constraints::sub_of(Expr::Col(COL_INPUT_BYTE_OFFSET), Expr::Const(CREATE2_MAGIC_BYTE)),
    ] + constraints::diffs_of(97, COL_SENDER_BYTE_OFFSET, 20) + constraints::diffs_of(
        117,
        COL_SALT_BYTE_OFFSET,
        32,
    ) + constraints::diffs_of(149, COL_INITCODE_HASH_BYTE_OFFSET, 32) + constraints::cols_of(
        181,
        171,
    ) + seq![constraints::sub_of(Expr::Col(COL_INPUT_LEN), Expr::Const(INPUT_OUTPUT_LEN as u64))]
}

fn input_construction() -> (r: Expr)
    ensures
        r == constraints::mul_of(Expr::Col(COL_IS_REAL), constraints::rlc_of(input_terms())),
{
    let mut terms: Vec<Expr> = Vec::with_capacity(INPUT_BYTE_WIDTH + 1);
    terms.push(minus(Expr::Col(COL_INPUT_BYTE_OFFSET), Expr::Const(CREATE2_MAGIC_BYTE)));
    push_diffs(&mut terms, COL_INPUT_BYTE_OFFSET + 1, COL_SENDER_BYTE_OFFSET, NUM_SENDER_BYTES);
    push_diffs(&mut terms, COL_INPUT_BYTE_OFFSET + 21, COL_SALT_BYTE_OFFSET, NUM_SALT_BYTES);
    push_diffs(
        &mut terms,
        COL_INPUT_BYTE_OFFSET + 53,
        COL_INITCODE_HASH_BYTE_OFFSET,
        NUM_INITCODE_HASH_BYTES,
    );
    push_cols(
        &mut terms,
        COL_INPUT_BYTE_OFFSET + INPUT_OUTPUT_LEN,
        INPUT_BYTE_WIDTH - INPUT_OUTPUT_LEN,
    );
    terms.push(minus(Expr::Col(COL_INPUT_LEN), Expr::Const(INPUT_OUTPUT_LEN as u64)));
    assert(terms@ =~= input_terms());
    times(Expr::Col(COL_IS_REAL), rlc(terms))
}

/// The constraints on a row:
/// the selector is a bit, the limbs equal their bytes, and the hashed bytes
/// are put together as they should be.
pub open spec fn row_constraints() -> Seq<Expr> {
    seq![
        constraints::binary_of(COL_IS_REAL),
        limb_of(20, 0, 8),
        limb_of(21, 8, 8),
        limb_of(22, 16, 4),
        constraints::mul_of(Expr::Col(COL_IS_REAL), Expr::Col(23)),
        limb_of(56, 24, 8),
        limb_of(57, 32, 8),
        limb_of(58, 40, 8),
        limb_of(59, 48, 8),
        limb_of(92, 60, 8),
        limb_of(93, 68, 8),
        limb_of(94, 76, 8),
        limb_of(95, 84, 8),
        constraints::mul_of(Expr::Col(COL_IS_REAL), constraints::rlc_of(input_terms())),
    ]
}

fn constraint_list() -> (r: Vec<Expr>)
    ensures
        r@ == row_constraints(),
        constraints::well_formed(r@, NUM_COLUMNS as nat, 0),
{
    let mut r: Vec<Expr> = Vec::with_capacity(NUM_ROW_CONSTRAINTS);
    r.push(binary(COL_IS_REAL));
    r.push(limb_binding(COL_SENDER_LIMB_OFFSET, COL_SENDER_BYTE_OFFSET, 8));
    r.push(limb_binding(COL_SENDER_LIMB_OFFSET + 1, COL_SENDER_BYTE_OFFSET + 8, 8));
    r.push(limb_binding(COL_SENDER_LIMB_OFFSET + 2, COL_SENDER_BYTE_OFFSET + 16, 4));
    r.push(times(Expr::Col(COL_IS_REAL), Expr::Col(COL_SENDER_LIMB_OFFSET + 3)));
    r.push(limb_binding(COL_SALT_LIMB_OFFSET, COL_SALT_BYTE_OFFSET, 8));
    r.push(limb_binding(COL_SALT_LIMB_OFFSET + 1, COL_SALT_BYTE_OFFSET + 8, 8));
    r.push(limb_binding(COL_SALT_LIMB_OFFSET + 2, COL_SALT_BYTE_OFFSET + 16, 8));
    r.push(limb_binding(COL_SALT_LIMB_OFFSET + 3, COL_SALT_BYTE_OFFSET + 24, 8));
    r.push(limb_binding(COL_INITCODE_HASH_LIMB_OFFSET, COL_INITCODE_HASH_BYTE_OFFSET, 8));
    r.push(limb_binding(COL_INITCODE_HASH_LIMB_OFFSET + 1, COL_INITCODE_HASH_BYTE_OFFSET + 8, 8));
    r.push(limb_binding(COL_INITCODE_HASH_LIMB_OFFSET + 2, COL_INITCODE_HASH_BYTE_OFFSET + 16, 8));
    r.push(limb_binding(COL_INITCODE_HASH_LIMB_OFFSET + 3, COL_INITCODE_HASH_BYTE_OFFSET + 24, 8));
    r.push(input_construction());
    assert(r@ =~= row_constraints());
    proof {
        lemma_well_formed();
    }
    r
}

/// The limb and the first byte of the limb constraint `i`.
spec fn limb_position(i: int) -> (usize, usize) {
    if i <= 3 {
        ((19 + i) as usize, (8 * (i - 1)) as usize)
    } else if i <= 8 {
        ((51 + i) as usize, (24 + 8 * (i - 5)) as usize)
    } else {
        ((83 + i) as usize, (60 + 8 * (i - 9)) as usize)
    }
}

spec fn limb_length(i: int) -> nat {
    if i == 3 {
        4
    } else {
        8
    }
}

proof fn lemma_limb_constraint(i: int)
    requires
        1 <= i <= 12,
        i != 4,
    ensures
        row_constraints()[i] == limb_of(limb_position(i).0, limb_position(i).1, limb_length(i)),
{
    assert(i == 1 || i == 2 || i == 3 || i == 5 || i == 6 || i == 7 || i == 8 || i == 9 || i == 10
        || i == 11 || i == 12);
}

proof fn lemma_terms_fit()
    ensures
        forall|k: int|
            0 <= k < input_terms().len() ==> constraints::fits(
                #[trigger] input_terms()[k],
                NUM_COLUMNS as nat,
                0,
                1,
            ),
{
    let ts = input_terms();
    assert forall|k: int| 0 <= k < ts.len() implies constraints::fits(
        #[trigger] ts[k],
        NUM_COLUMNS as nat,
        0,
        1,
    ) by {
        reveal_with_fuel(expr::within, 2);
        reveal_with_fuel(expr::degree, 2);
    }
}

proof fn lemma_well_formed()
    ensures
        constraints::well_formed(row_constraints(), NUM_COLUMNS as nat, 0),
{
    let n = NUM_COLUMNS as nat;
    let es = row_constraints();
    lemma_terms_fit();
    constraints::lemma_fits_rlc(input_terms(), n, 0, 1);
    assert forall|i: int| 0 <= i < es.len() implies {
        &&& expr::within(#[trigger] es[i], n, 0)
        &&& expr::compound(es[i])
        &&& expr::degree(es[i]) <= 3
    } by {
        if i == 0 {
            constraints::lemma_fits_binary(COL_IS_REAL, n, 0);
        } else if i == 4 || i == 13 {
            reveal_with_fuel(expr::within, 2);
            reveal_with_fuel(expr::degree, 2);
        } else {
            lemma_limb_constraint(i);
            constraints::lemma_fits_weighted(limb_position(i).1, 256, limb_length(i), n, 0);
            reveal_with_fuel(expr::within, 3);
            reveal_with_fuel(expr::degree, 3);
        }
    }
}

/// The columns of a trace of this width can be read by the constraints.
pub proof fn law_trace_readable(
    t: TracePolynomials,
    columns: Seq<&Vec<Scalar>>,
    rows: nat,
    curve: CurveType,
    cell: spec_fn(int, int) -> int,
)
    requires
        trace::holds(t, NUM_COLUMNS as nat, rows, curve, cell),
        trace::columns_of(t, columns),
    ensures
        columns.len() >= NUM_COLUMNS,
        constraints::domain_readable(row_constraints(), columns),
{
    lemma_well_formed();
    constraints::lemma_trace_readable(
        row_constraints(),
        t,
        columns,
        NUM_COLUMNS as nat,
        rows,
        curve,
        cell,
    );
}

/// Every constraint vanishes on every row of the trace of a witness, padding
/// included.
pub proof fn law_honest_trace_vanishes(
    w: Create2InputWitness,
    t: TracePolynomials,
    columns: Seq<&Vec<Scalar>>,
    curve: CurveType,
    r: int,
    i: int,
    ch: int,
)
    requires
        trace::holds(t, NUM_COLUMNS as nat, w.invocations.len() as nat, curve, cells(
            w.invocations@,
        )),
        trace::columns_of(t, columns),
        0 <= r < trace::padded_length(w.invocations.len() as nat),
        0 <= i < NUM_ROW_CONSTRAINTS,
    ensures
        expr::ev(row_constraints()[i], expr::row_values(columns, r), Seq::empty(), ch) == 0,
{
    let n = w.invocations.len() as nat;
    let cell = cells(w.invocations@);
    trace::lemma_trace_rows(t, columns, NUM_COLUMNS as nat, n, curve, cell, r);
    let row = trace::row_of(NUM_COLUMNS as nat, n, cell, r);
    let e = Seq::<int>::empty();
    if i == 0 {
        constraints::lemma_binary_vanishes(COL_IS_REAL, row, e, ch);
    } else if i == 4 {
        constraints::lemma_ev_gated(COL_IS_REAL, Expr::Col(23), row, e, ch);
    } else if i == 13 {
        if r < n {
            lemma_terms_vanish(row, w.invocations@[r], ch);
        }
        constraints::lemma_ev_gated(
            COL_IS_REAL,
            constraints::rlc_of(input_terms()),
            row,
            e,
            ch,
        );
    } else {
        lemma_limb_constraint(i);
        let (limb, first) = limb_position(i);
        let body = constraints::sub_of(
            Expr::Col(limb),
            constraints::weighted_of(first, 256, limb_length(i)),
        );
        constraints::lemma_ev_gated(COL_IS_REAL, body, row, e, ch);
        if r < n {
            lemma_limb_vanishes(row, w.invocations@[r], i, ch);
        }
    }
}

proof fn lemma_limb_vanishes(row: Seq<int>, o: Create2InputRow, i: int, ch: int)
    requires
        row.len() == NUM_COLUMNS,
        forall|c: int| 0 <= c < NUM_COLUMNS ==> #[trigger] row[c] == row_cell(o, c),
        1 <= i <= 12,
        i != 4,
    ensures
        expr::ev(
            constraints::sub_of(
                Expr::Col(limb_position(i).0),
                constraints::weighted_of(limb_position(i).1, 256, limb_length(i)),
            ),
            row,
            Seq::empty(),
            ch,
        ) == 0,
{
    let (limb, first) = limb_position(i);
    let s = if i <= 3 {
        o.sender@.subrange(8 * (i - 1), 8 * (i - 1) + limb_length(i))
    } else if i <= 8 {
        o.salt@.subrange(8 * (i - 5), 8 * (i - 5) + 8)
    } else {
        o.initcode_hash@.subrange(8 * (i - 9), 8 * (i - 9) + 8)
    };
    assert forall|k: int| 0 <= k < s.len() implies row[#[trigger] (first + k)] == s[k] by {
        assert(row[first + k] == row_cell(o, first + k));
    }
    constraints::lemma_weighted_value(row, first as int, s);
    constraints::lemma_ev_weighted(first, 256, limb_length(i), row, Seq::empty(), ch);
    assert(row[limb as int] == bytes::le_value(s)) by {
        assert(i == 1 || i == 2 || i == 3 || i == 5 || i == 6 || i == 7 || i == 8 || i == 9 || i
            == 10 || i == 11 || i == 12);
    }
    reveal_with_fuel(expr::ev, 2);
}

proof fn lemma_terms_vanish(row: Seq<int>, o: Create2InputRow, ch: int)
    requires
        row.len() == NUM_COLUMNS,
        forall|c: int| 0 <= c < NUM_COLUMNS ==> #[trigger] row[c] == row_cell(o, c),
    ensures
        expr::ev(constraints::rlc_of(input_terms()), row, Seq::empty(), ch) == 0,
{
    let ts = input_terms();
    assert forall|k: int| 0 <= k < ts.len() implies expr::ev(
        #[trigger] ts[k],
        row,
        Seq::empty(),
        ch,
    ) == 0 by {
        reveal_with_fuel(expr::ev, 2);
        if k < 256 {
            assert(row[96 + k] == row_cell(o, 96 + k));
        }
    }
    constraints::lemma_rlc_vanishes(ts, row, Seq::empty(), ch);
}

pub struct Create2InputConstraintSystem {
    pub num_rows: usize,
    pub omega: Option<Scalar>,
    pub domain_size: Option<u64>,
}

impl Create2InputConstraintSystem {
    pub fn new(num_rows: usize) -> (r: Self)
        ensures
            r.num_rows == num_rows,
            r.omega == None::<Scalar>,
            r.domain_size == None::<u64>,
    {
        Self { num_rows, omega: None, domain_size: None }
    }

    pub fn with_omega_and_domain(self, omega: Scalar, domain_size: u64) -> (r: Self)
        ensures
            r.num_rows == self.num_rows,
            r.omega == Some(omega),
            r.domain_size == Some(domain_size),
    {
        Self { num_rows: self.num_rows, omega: Some(omega), domain_size: Some(domain_size) }
    }

    pub fn num_constraints(&self) -> (r: usize)
        ensures
            r == row_constraints().len(),
    {
        NUM_ROW_CONSTRAINTS
    }

    pub fn constraint_labels(&self) -> (r: Vec<String>)
        ensures
            r.len() == 14,
            r@[0]@ == "is_real_binary"@,
            r@[1]@ == "sender_limb_0_binding"@,
            r@[2]@ == "sender_limb_1_binding"@,
            r@[3]@ == "sender_limb_2_binding"@,
            r@[4]@ == "sender_limb_3_zero"@,
            r@[5]@ == "salt_limb_0_binding"@,
            r@[6]@ == "salt_limb_1_binding"@,
            r@[7]@ == "salt_limb_2_binding"@,
            r@[8]@ == "salt_limb_3_binding"@,
            r@[9]@ == "initcode_hash_limb_0_binding"@,
            r@[10]@ == "initcode_hash_limb_1_binding"@,
            r@[11]@ == "initcode_hash_limb_2_binding"@,
            r@[12]@ == "initcode_hash_limb_3_binding"@,
            r@[13]@ == "input_construction"@,
    {
        vec![
            "is_real_binary".to_string(),
            "sender_limb_0_binding".to_string(),
            "sender_limb_1_binding".to_string(),
            "sender_limb_2_binding".to_string(),
            "sender_limb_3_zero".to_string(),
            "salt_limb_0_binding".to_string(),
            "salt_limb_1_binding".to_string(),
            "salt_limb_2_binding".to_string(),
            "salt_limb_3_binding".to_string(),
            "initcode_hash_limb_0_binding".to_string(),
            "initcode_hash_limb_1_binding".to_string(),
            "initcode_hash_limb_2_binding".to_string(),
            "initcode_hash_limb_3_binding".to_string(),
            "input_construction".to_string(),
        ]
    }

    /// The value of every constraint on every row.
    pub fn evaluate_on_domain(&self, columns: &[&Vec<Scalar>], _num_rows: usize) -> (r: Vec<
        Vec<Scalar>,
    >)
        requires
            columns.len() >= NUM_COLUMNS,
            constraints::domain_readable(row_constraints(), columns@),
        ensures
            constraints::domain_values(r@, row_constraints(), columns@, 7),
    {
        let es: Vec<Expr> = constraint_list();
        proof {
            constraints::lemma_well_formed_more(
                es@,
                NUM_COLUMNS as nat,
                columns.len() as nat,
                0,
            );
        }
        constraints::evaluate_on_domain(&es, columns, 7)
    }

    /// The constraints at a point, weighted by the powers of `alpha`; zero if
    /// columns are missing.
    pub fn evaluate_at_point(&self, col_evals: &[Scalar], alpha: &Scalar) -> (r: Scalar)
        requires
            col_evals.len() >= NUM_COLUMNS ==> constraints::point_readable(
                row_constraints(),
                col_evals@,
                Seq::empty(),
                alpha.curve(),
            ),
        ensures
            r.curve() == alpha.curve(),
            col_evals.len() < NUM_COLUMNS ==> r@ == 0,
            col_evals.len() >= NUM_COLUMNS ==> r@ == constraints::combined(
                row_constraints(),
                poly_arith::values(col_evals@),
                Seq::empty(),
                alpha@,
                alpha@,
            ) % field::order(alpha.curve()),
    {
        if col_evals.len() < NUM_COLUMNS {
            return Scalar::zero(alpha.curve_type());
        }
        let es: Vec<Expr> = constraint_list();
        let none: Vec<Scalar> = Vec::new();
        proof {
            constraints::lemma_well_formed_more(
                es@,
                NUM_COLUMNS as nat,
                col_evals.len() as nat,
                0,
            );
            assert(poly_arith::values(none@) =~= Seq::empty());
        }
        constraints::evaluate_at_point(&es, col_evals, none.as_slice(), alpha, alpha)
    }

    /// The weighted sum of the constraints as a polynomial.
    pub fn build_constraint_polynomial(
        &self,
        col_coeffs: &[Vec<Scalar>],
        alpha: &Scalar,
        _domain_size: u64,
    ) -> (r: Vec<Scalar>)
        requires
            col_coeffs.len() >= NUM_COLUMNS,
            constraints::coefficients_readable(row_constraints(), col_coeffs@, alpha.curve()),
        ensures
            poly_arith::reduced(
                r@,
                constraints::combined_poly(
                    row_constraints(),
                    expr::column_polys(col_coeffs@),
                    Seq::empty(),
                    alpha@,
                    alpha@,
                ),
                alpha.curve(),
            ),
    {
        let es: Vec<Expr> = constraint_list();
        let none: Vec<Vec<Scalar>> = Vec::new();
        proof {
            constraints::lemma_well_formed_more(
                es@,
                NUM_COLUMNS as nat,
                col_coeffs.len() as nat,
                0,
            );
            assert(expr::column_polys(none@) =~= Seq::empty());
        }
        constraints::build_polynomial(
            &es,
            col_coeffs,
            none.as_slice(),
            alpha,
            alpha,
        )
    }

    pub fn selector_column_indices(&self) -> (r: Vec<usize>)
        ensures
            r@ == seq![COL_IS_REAL],
    {
        let r: Vec<usize> = vec![COL_IS_REAL];
        assert(r@ =~= seq![COL_IS_REAL]);
        r
    }

    pub fn padding_selector_column(&self) -> (r: Option<usize>)
        ensures
            r == None::<usize>,
    {
        None
    }

    /// Clears the padding rows.
    pub fn fix_trace_padding(
        &self,
        columns: &mut [Vec<Scalar>],
        num_rows: usize,
        padded_size: usize,
    )
        ensures
            constraints::padding_cleared(
                old(columns)@,
                final(columns)@,
                NUM_COLUMNS as nat,
                num_rows as nat,
                padded_size as nat,
                CurveType::Bls48581,
            ),
    {
        constraints::clear_padding(
            columns,
            NUM_COLUMNS,
            num_rows,
            padded_size,
            CurveType::Bls48581,
        )
    }

    /// Nothing is looked up.
    pub fn lookup_declarations(&self) -> (r: LookupRequirements)
        ensures
            r.tables.len() == 0,
            r.declarations.len() == 0,
    {
        LookupRequirements::none()
    }
}

/// The polynomial reading of the system agrees with its reading at a point.
pub proof fn law_polynomial_at_point(cols: Seq<Seq<int>>, alpha: int, z: int)
    requires
        cols.len() >= NUM_COLUMNS,
    ensures
        poly_arith::peval(
            constraints::combined_poly(row_constraints(), cols, Seq::empty(), alpha, alpha),
            z,
        ) == constraints::combined(
            row_constraints(),
            expr::evals(cols, z),
            Seq::empty(),
            alpha,
            alpha,
        ),
{
    lemma_well_formed();
    constraints::lemma_well_formed_more(row_constraints(), NUM_COLUMNS as nat, cols.len(), 0);
    constraints::law_combined_reading(row_constraints(), cols, Seq::empty(), alpha, alpha, z);
    assert(expr::evals(Seq::empty(), z) =~= Seq::empty());
}

/// The polynomial reading of the system takes at every point, modulo the
/// order, the reading of the system over numbers that stand for the values of
/// the columns there.
pub proof fn law_polynomial_modulo(
    cols: Seq<Seq<int>>,
    e: Seq<int>,
    alpha: int,
    z: int,
    curve: CurveType,
)
    requires
        cols.len() >= NUM_COLUMNS,
        forall|c: int|
            0 <= c < NUM_COLUMNS ==> (#[trigger] e[c]) % field::order(curve) == poly_arith::peval(
                cols[c],
                z,
            ) % field::order(curve),
    ensures
        poly_arith::peval(
            constraints::combined_poly(row_constraints(), cols, Seq::empty(), alpha, alpha),
            z,
        ) % field::order(curve) == constraints::combined(
            row_constraints(),
            e,
            Seq::empty(),
            alpha,
            alpha,
        ) % field::order(curve),
{
    field::lemma_order(curve);
    lemma_well_formed();
    constraints::law_combined_reading_modulo(
        row_constraints(),
        NUM_COLUMNS as nat,
        cols,
        Seq::empty(),
        e,
        Seq::empty(),
        alpha,
        alpha,
        z,
        field::order(curve),
    );
}

/// The polynomial `p` of the constraints takes at `z` the value `v` of the
/// constraints at the point where the columns have the values `e`.
pub proof fn law_polynomial_value(
    col_coeffs: Seq<Vec<Scalar>>,
    e: Seq<Scalar>,
    z: Scalar,
    alpha: Scalar,
    p: Seq<Scalar>,
    v: Scalar,
)
    requires
        col_coeffs.len() >= NUM_COLUMNS,
        e.len() >= NUM_COLUMNS,
        forall|c: int|
            0 <= c < NUM_COLUMNS ==> (#[trigger] e[c])@ % field::order(alpha.curve())
                == poly_arith::peval(poly_arith::values(col_coeffs[c]@), z@) % field::order(
                alpha.curve(),
            ),
        poly_arith::reduced(
            p,
            constraints::combined_poly(
                row_constraints(),
                expr::column_polys(col_coeffs),
                Seq::empty(),
                alpha@,
                alpha@,
            ),
            alpha.curve(),
        ),
        v@ == constraints::combined(
            row_constraints(),
            poly_arith::values(e),
            Seq::empty(),
            alpha@,
            alpha@,
        ) % field::order(alpha.curve()),
    ensures
        poly_arith::peval(poly_arith::values(p), z@) % field::order(alpha.curve()) == v@,
{
    let cols = expr::column_polys(col_coeffs);
    let row = poly_arith::values(e);
    let m = field::order(alpha.curve());
    assert forall|c: int| 0 <= c < NUM_COLUMNS implies (#[trigger] row[c]) % m == poly_arith::peval(
        cols[c],
        z@,
    ) % m by {
        assert(e[c]@ % m == poly_arith::peval(poly_arith::values(col_coeffs[c]@), z@) % m);
    }
    law_polynomial_modulo(cols, row, alpha@, z@, alpha.curve());
    poly_arith::law_reduced_value(
        p,
        constraints::combined_poly(row_constraints(), cols, Seq::empty(), alpha@, alpha@),
        alpha.curve(),
        z@,
    );
}

/// The polynomial of the constraints is the same whatever the domain.
pub proof fn law_polynomial_of_any_domain(
    col_coeffs: Seq<Vec<Scalar>>,
    alpha: Scalar,
    p: Seq<Scalar>,
    q: Seq<Scalar>,
)
    requires
        poly_arith::reduced(
            p,
            constraints::combined_poly(
                row_constraints(),
                expr::column_polys(col_coeffs),
                Seq::empty(),
                alpha@,
                alpha@,
            ),
            alpha.curve(),
        ),
        poly_arith::reduced(
            q,
            constraints::combined_poly(
                row_constraints(),
                expr::column_polys(col_coeffs),
                Seq::empty(),
                alpha@,
                alpha@,
            ),
            alpha.curve(),
        ),
    ensures
        poly_arith::same_scalars(p, q),
{
    poly_arith::law_reduced_unique(
        p,
        q,
        constraints::combined_poly(
            row_constraints(),
            expr::column_polys(col_coeffs),
            Seq::empty(),
            alpha@,
            alpha@,
        ),
        alpha.curve(),
    );
}

// ─── What vanishing constraints say ───────────────────────────────────

/// Every constraint vanishes on the row for each of the challenges.
pub open spec fn row_vanishes(row: Seq<int>, points: Seq<int>, m: int) -> bool {
    forall|i: int, j: int|
        0 <= i < NUM_ROW_CONSTRAINTS && 0 <= j < points.len() ==> expr::ev(
            #[trigger] row_constraints()[i],
            row,
            Seq::empty(),
            #[trigger] points[j],
        ) % m == 0
}

/// A real row of field elements holds the bytes of an invocation.
pub open spec fn row_holds_bytes(row: Seq<int>, o: Create2InputRow, m: int) -> bool {
    &&& row.len() >= NUM_COLUMNS
    &&& forall|c: int| 0 <= c < NUM_COLUMNS ==> 0 <= #[trigger] row[c] < m
    &&& forall|i: int| 0 <= i < 20 ==> #[trigger] row[i] == o.sender@[i]
    &&& forall|i: int| 0 <= i < 32 ==> row[#[trigger] (COL_SALT_BYTE_OFFSET + i)] == o.salt@[i]
    &&& forall|i: int|
        0 <= i < 32 ==> row[#[trigger] (COL_INITCODE_HASH_BYTE_OFFSET + i)] == o.initcode_hash@[i]
    &&& row[COL_IS_REAL as int] == 1
}

/// What term `k` of the input denotes.
spec fn term_value(row: Seq<int>, k: int) -> int {
    if k == 0 {
        row[96] - 0xff
    } else if k < 21 {
        row[96 + k] - row[k - 1]
    } else if k < 53 {
        row[96 + k] - row[k + 3]
    } else if k < 85 {
        row[96 + k] - row[k + 7]
    } else if k < 256 {
        row[96 + k]
    } else {
        row[COL_INPUT_LEN as int] - 85
    }
}

proof fn lemma_term_values(row: Seq<int>, ch: int)
    requires
        row.len() >= NUM_COLUMNS,
    ensures
        constraints::denoted(input_terms(), row, Seq::empty(), ch) == Seq::new(
            257,
            |k: int| term_value(row, k),
        ),
{
    let ts = input_terms();
    let vs = constraints::denoted(ts, row, Seq::empty(), ch);
    assert(ts.len() == 257);
    assert forall|k: int| 0 <= k < 257 implies vs[k] == term_value(row, k) by {
        reveal_with_fuel(expr::ev, 2);
        if k == 0 {
        } else if k < 21 {
            assert(ts[k] == constraints::diff_of((97 + (k - 1)) as usize, (k - 1) as usize));
        } else if k < 53 {
            assert(ts[k] == constraints::diff_of((117 + (k - 21)) as usize, (24 + (k - 21)) as usize));
        } else if k < 85 {
            assert(ts[k] == constraints::diff_of((149 + (k - 53)) as usize, (60 + (k - 53)) as usize));
        } else if k < 256 {
            assert(ts[k] == Expr::Col((181 + (k - 85)) as usize));
        }
    }
    assert(vs =~= Seq::new(257, |k: int| term_value(row, k)));
}

proof fn lemma_limb_sound(row: Seq<int>, o: Create2InputRow, i: int, ch: int, m: int)
    requires
        m > 0x1_0000_0000_0000_0000,
        row_holds_bytes(row, o, m),
        1 <= i <= 12,
        i != 4,
        expr::ev(row_constraints()[i], row, Seq::empty(), ch) % m == 0,
    ensures
        row[limb_position(i).0 as int] == row_cell(o, limb_position(i).0 as int),
{
    lemma_limb_constraint(i);
    let (limb, first) = limb_position(i);
    let n = limb_length(i);
    let body = constraints::sub_of(Expr::Col(limb), constraints::weighted_of(first, 256, n));
    soundness::lemma_gated_sound(COL_IS_REAL, body, row, Seq::empty(), ch, m);
    let s = if i <= 3 {
        o.sender@.subrange(8 * (i - 1), 8 * (i - 1) + n)
    } else if i <= 8 {
        o.salt@.subrange(8 * (i - 5), 8 * (i - 5) + 8)
    } else {
        o.initcode_hash@.subrange(8 * (i - 9), 8 * (i - 9) + 8)
    };
    assert forall|k: int| 0 <= k < s.len() implies row[#[trigger] (first + k)] == s[k] by {
        if i <= 3 {
            assert(row[first + k] == o.sender@[first + k]);
        } else if i <= 8 {
            assert(row[COL_SALT_BYTE_OFFSET + (first - 24 + k)] == o.salt@[first - 24 + k]);
        } else {
            assert(row[COL_INITCODE_HASH_BYTE_OFFSET + (first - 60 + k)]
                == o.initcode_hash@[first - 60 + k]);
        }
    }
    constraints::lemma_weighted_value(row, first as int, s);
    constraints::lemma_ev_weighted(first, 256, n, row, Seq::empty(), ch);
    assert(expr::ev(body, row, Seq::empty(), ch) == row[limb as int] - bytes::le_value(s)) by {
        reveal_with_fuel(expr::ev, 2);
    }
    bytes::lemma_le_bound(s);
    bytes::lemma_pow256_values();
    assert(0 <= row[limb as int] < m);
    soundness::lemma_equal(row[limb as int], bytes::le_value(s), m);
    assert(i == 1 || i == 2 || i == 3 || i == 5 || i == 6 || i == 7 || i == 8 || i == 9 || i == 10
        || i == 11 || i == 12);
}

/// A real row on which every constraint vanishes, for as many challenges as
/// the input has terms, is the row of the invocation whose bytes it holds.
pub proof fn law_vanishing_row_sound(
    row: Seq<int>,
    o: Create2InputRow,
    points: Seq<int>,
    curve: CurveType,
)
    requires
        soundness::integral(field::order(curve)),
        soundness::points_differ(points, field::order(curve)),
        points.len() >= 257,
        row_holds_bytes(row, o, field::order(curve)),
        row_vanishes(row, points, field::order(curve)),
    ensures
        forall|c: int| 0 <= c < NUM_COLUMNS ==> #[trigger] row[c] == row_cell(o, c),
{
    let m = field::order(curve);
    field::lemma_order(curve);
    let e = Seq::<int>::empty();
    let es = row_constraints();
    let ch = points[0];
    assert forall|i: int| 1 <= i <= 12 && i != 4 implies row[#[trigger] limb_position(i).0 as int]
        == row_cell(o, limb_position(i).0 as int) by {
        assert(expr::ev(es[i], row, e, points[0]) % m == 0);
        lemma_limb_sound(row, o, i, ch, m);
    }
    assert(row[23] == 0) by {
        assert(expr::ev(es[4], row, e, points[0]) % m == 0);
        soundness::lemma_gated_sound(COL_IS_REAL, Expr::Col(23), row, e, ch, m);
        soundness::lemma_equal(row[23], 0, m);
    }
    let values = Seq::new(257, |k: int| term_value(row, k));
    assert forall|x: int| #[trigger] constraints::denoted(input_terms(), row, e, x) == values by {
        lemma_term_values(row, x);
    }
    assert(constraints::denoted(input_terms(), row, e, 0).len() == 257);
    assert forall|j: int| 0 <= j < points.len() implies expr::ev(
        constraints::rlc_of(input_terms()),
        row,
        e,
        #[trigger] points[j],
    ) % m == 0 by {
        assert(expr::ev(es[13], row, e, points[j]) % m == 0);
        soundness::lemma_gated_sound(
            COL_IS_REAL,
            constraints::rlc_of(input_terms()),
            row,
            e,
            points[j],
            m,
        );
    }
    soundness::law_combination_sound(input_terms(), row, e, values, points, m);
    assert forall|c: int| 0 <= c < NUM_COLUMNS implies #[trigger] row[c] == row_cell(o, c) by {
        if c < 96 {
            if 20 <= c < 23 {
                assert(limb_position(c - 19).0 == c);
            } else if 56 <= c < 60 {
                assert(limb_position(c - 51).0 == c);
            } else if 92 <= c {
                assert(limb_position(c - 83).0 == c);
            } else if 24 <= c < 56 {
                assert(row[COL_SALT_BYTE_OFFSET + (c - 24)] == o.salt@[c - 24]);
            } else if 60 <= c {
                assert(row[COL_INITCODE_HASH_BYTE_OFFSET + (c - 60)] == o.initcode_hash@[c - 60]);
            }
        } else if c <= COL_INPUT_LEN {
            let k = c - 96;
            let v = values[k];
            assert(v == term_value(row, k));
            assert(v % m == 0);
            let want = row[c] - v;
            assert(want == row_cell(o, c)) by {
                if 1 <= k < 21 {
                    assert(row[k - 1] == o.sender@[k - 1]);
                } else if 21 <= k < 53 {
                    assert(row[COL_SALT_BYTE_OFFSET + (k - 21)] == o.salt@[k - 21]);
                } else if 53 <= k < 85 {
                    assert(row[COL_INITCODE_HASH_BYTE_OFFSET + (k - 53)]
                        == o.initcode_hash@[k - 53]);
                }
            }
            assert(0 <= row[c] < m);
            soundness::lemma_equal(row[c], want, m);
        }
    }
}

// ─── Links ────────────────────────────────────────────────────────────

/// Sender, salt and hash limbs are those of the main trace. Column numbers
/// of the main trace are given by their first limb.
pub fn make_evm_main_create2_input_linkage_descriptor(
    evm_layer_index: usize,
    gadget_layer_index: usize,
    evm_frame_callee_l0_col: usize,
    evm_create2_salt_hint_l0_col: usize,
    evm_create2_initcode_hash_hint_l0_col: usize,
    evm_sel_create2_col: usize,
) -> (r: CrossAirLogUpDescriptor)
    requires
        evm_frame_callee_l0_col + 3 <= usize::MAX,
        evm_create2_salt_hint_l0_col + 3 <= usize::MAX,
        evm_create2_initcode_hash_hint_l0_col + 3 <= usize::MAX,
    ensures
        r.is(
            cross_air_logup::Link {
                label: "evm_main_create2_input_v1"@,
                a_layer: evm_layer_index as int,
                a_columns: cross_air_logup::run(evm_frame_callee_l0_col as int, 4)
                    + cross_air_logup::run(evm_create2_salt_hint_l0_col as int, 4)
                    + cross_air_logup::run(evm_create2_initcode_hash_hint_l0_col as int, 4),
                a_selector: evm_sel_create2_col as int,
                b_layer: gadget_layer_index as int,
                b_columns: cross_air_logup::run(COL_SENDER_LIMB_OFFSET as int, 4)
                    + cross_air_logup::run(COL_SALT_LIMB_OFFSET as int, 4) + cross_air_logup::run(
                    COL_INITCODE_HASH_LIMB_OFFSET as int,
                    4,
                ),
                b_selector: COL_IS_REAL as int,
            },
        ),
{
    let mut a_columns: Vec<usize> = Vec::with_capacity(12);
    assert(cross_air_logup::indices(a_columns@) =~= Seq::empty());
    push_run(&mut a_columns, evm_frame_callee_l0_col, 4);
    push_run(&mut a_columns, evm_create2_salt_hint_l0_col, 4);
    push_run(&mut a_columns, evm_create2_initcode_hash_hint_l0_col, 4);
    let mut b_columns: Vec<usize> = Vec::with_capacity(12);
    assert(cross_air_logup::indices(b_columns@) =~= Seq::empty());
    push_run(&mut b_columns, COL_SENDER_LIMB_OFFSET, 4);
    push_run(&mut b_columns, COL_SALT_LIMB_OFFSET, 4);
    push_run(&mut b_columns, COL_INITCODE_HASH_LIMB_OFFSET, 4);
    proof {
        assert(cross_air_logup::indices(a_columns@) =~= cross_air_logup::run(
            evm_frame_callee_l0_col as int,
            4,
        ) + cross_air_logup::run(evm_create2_salt_hint_l0_col as int, 4) + cross_air_logup::run(
            evm_create2_initcode_hash_hint_l0_col as int,
            4,
        ));
        assert(cross_air_logup::indices(b_columns@) =~= cross_air_logup::run(
            COL_SENDER_LIMB_OFFSET as int,
            4,
        ) + cross_air_logup::run(COL_SALT_LIMB_OFFSET as int, 4) + cross_air_logup::run(
            COL_INITCODE_HASH_LIMB_OFFSET as int,
            4,
        ));
    }
    CrossAirLogUpDescriptor {
        label: "evm_main_create2_input_v1".to_string(),
        a_layer_index: evm_layer_index,
        a_columns,
        a_selector_column: Some(evm_sel_create2_col),
        b_layer_index: gadget_layer_index,
        b_columns,
        b_selector_column: Some(COL_IS_REAL),
    }
}

/// The hashed bytes and their length are an input of the Keccak table.
pub fn make_create2_input_keccak_extract_input_linkage_descriptor(
    gadget_layer_index: usize,
    keccak_extract_layer_index: usize,
) -> (r: CrossAirLogUpDescriptor)
    ensures
        r.is(
            cross_air_logup::Link {
                label: "create2_input_keccak_extract_input_v1"@,
                a_layer: gadget_layer_index as int,
                a_columns: cross_air_logup::run(
                    COL_INPUT_BYTE_OFFSET as int,
                    INPUT_BYTE_WIDTH as nat,
                ).push(COL_INPUT_LEN as int),
                a_selector: COL_IS_REAL as int,
                b_layer: keccak_extract_layer_index as int,
                b_columns: cross_air_logup::run(
                    keccak_extract::COL_INPUT_BYTE_OFFSET as int,
                    keccak_extract::MAX_INPUT_LEN as nat,
                ).push(keccak_extract::COL_INPUT_LEN as int),
                b_selector: keccak_extract::COL_IS_REAL as int,
            },
        ),
{
    let mut a_columns: Vec<usize> = cross_air_logup::column_run(
        COL_INPUT_BYTE_OFFSET,
        INPUT_BYTE_WIDTH,
    );
    let ghost a = a_columns@;
    a_columns.push(COL_INPUT_LEN);
    let mut b_columns: Vec<usize> = cross_air_logup::column_run(
        keccak_extract::COL_INPUT_BYTE_OFFSET,
        keccak_extract::MAX_INPUT_LEN,
    );
    let ghost b = b_columns@;
    b_columns.push(keccak_extract::COL_INPUT_LEN);
    proof {
        assert(cross_air_logup::indices(a_columns@) =~= cross_air_logup::indices(a).push(
            COL_INPUT_LEN as int,
        ));
        assert(cross_air_logup::indices(b_columns@) =~= cross_air_logup::indices(b).push(
            keccak_extract::COL_INPUT_LEN as int,
        ));
    }
    CrossAirLogUpDescriptor {
        label: "create2_input_keccak_extract_input_v1".to_string(),
        a_layer_index: gadget_layer_index,
        a_columns,
        a_selector_column: Some(COL_IS_REAL),
        b_layer_index: keccak_extract_layer_index,
        b_columns,
        b_selector_column: Some(keccak_extract::COL_IS_REAL),
    }
}

// ─── What the table holds ─────────────────────────────────────────────

/// The bytes that are hashed, position by position.
pub proof fn law_input_bytes(sender: Seq<u8>, salt: Seq<u8>, initcode_hash: Seq<u8>)
    requires
        sender.len() == 20,
        salt.len() == 32,
        initcode_hash.len() == 32,
    ensures
        create2_input(sender, salt, initcode_hash).len() == 85,
        create2_input(sender, salt, initcode_hash)[0] == 0xff,
        forall|i: int|
            1 <= i < 21 ==> #[trigger] create2_input(sender, salt, initcode_hash)[i] == sender[i - 1],
        forall|i: int|
            21 <= i < 53 ==> #[trigger] create2_input(sender, salt, initcode_hash)[i] == salt[i - 21],
        forall|i: int|
            53 <= i < 85 ==> #[trigger] create2_input(sender, salt, initcode_hash)[i]
                == initcode_hash[i - 53],
{
}

/// What the trace of a witness holds of an invocation: its bytes, their limbs,
/// and the input made of the bytes, filled up with zeros, with its length.
pub proof fn law_trace_holds_invocation(
    w: Create2InputWitness,
    t: TracePolynomials,
    curve: CurveType,
    r: int,
)
    requires
        trace::holds(
            t,
            NUM_COLUMNS as nat,
            w.invocations.len() as nat,
            curve,
            cells(w.invocations@),
        ),
        0 <= r < w.invocations.len(),
    ensures
        trace::string_at(t, COL_SENDER_BYTE_OFFSET as int, r, w.invocations@[r].sender@),
        trace::string_at(t, COL_SALT_BYTE_OFFSET as int, r, w.invocations@[r].salt@),
        trace::string_at(
            t,
            COL_INITCODE_HASH_BYTE_OFFSET as int,
            r,
            w.invocations@[r].initcode_hash@,
        ),
        trace::at(t, COL_INPUT_BYTE_OFFSET as int, r) == 0xff,
        trace::string_at(t, COL_INPUT_BYTE_OFFSET + 1, r, w.invocations@[r].sender@),
        trace::string_at(t, COL_INPUT_BYTE_OFFSET + 21, r, w.invocations@[r].salt@),
        trace::string_at(t, COL_INPUT_BYTE_OFFSET + 53, r, w.invocations@[r].initcode_hash@),
        forall|c: int|
            COL_INPUT_BYTE_OFFSET + 85 <= c < COL_INPUT_LEN ==> #[trigger] trace::at(t, c, r) == 0,
        trace::at(t, COL_INPUT_LEN as int, r) == 85,
        trace::at(t, COL_IS_REAL as int, r) == 1,
{
    trace::lemma_cells(
        t,
        NUM_COLUMNS as nat,
        w.invocations.len() as nat,
        curve,
        cells(w.invocations@),
        r,
    );
    let o = w.invocations@[r];
    law_input_bytes(o.sender@, o.salt@, o.initcode_hash@);
}

/// The limbs of the trace are those of its bytes: eight bytes each, lowest
/// first; the third limb of the sender has four, and the fourth none.
pub proof fn law_trace_holds_limbs(
    w: Create2InputWitness,
    t: TracePolynomials,
    curve: CurveType,
    r: int,
)
    requires
        trace::holds(
            t,
            NUM_COLUMNS as nat,
            w.invocations.len() as nat,
            curve,
            cells(w.invocations@),
        ),
        0 <= r < w.invocations.len(),
    ensures
        trace::at(t, COL_SENDER_LIMB_OFFSET as int, r) == trace::bytes_at(t, 0, r),
        trace::at(t, COL_SENDER_LIMB_OFFSET + 1, r) == trace::bytes_at(t, 8, r),
        trace::at(t, COL_SENDER_LIMB_OFFSET + 2, r) == trace::at(t, 16, r) + 0x100 * trace::at(
            t,
            17,
            r,
        ) + 0x1_0000 * trace::at(t, 18, r) + 0x100_0000 * trace::at(t, 19, r),
        trace::at(t, COL_SENDER_LIMB_OFFSET + 3, r) == 0,
        forall|k: int|
            0 <= k < 4 ==> #[trigger] trace::at(t, COL_SALT_LIMB_OFFSET + k, r) == trace::bytes_at(
                t,
                COL_SALT_BYTE_OFFSET + 8 * k,
                r,
            ),
        forall|k: int|
            0 <= k < 4 ==> #[trigger] trace::at(t, COL_INITCODE_HASH_LIMB_OFFSET + k, r)
                == trace::bytes_at(t, COL_INITCODE_HASH_BYTE_OFFSET + 8 * k, r),
{
    trace::lemma_cells(
        t,
        NUM_COLUMNS as nat,
        w.invocations.len() as nat,
        curve,
        cells(w.invocations@),
        r,
    );
    let o = w.invocations@[r];
    evm_address::law_limbs(o.sender@);
    assert forall|k: int| 0 <= k < 4 implies #[trigger] trace::at(t, COL_SALT_LIMB_OFFSET + k, r)
        == trace::bytes_at(t, COL_SALT_BYTE_OFFSET + 8 * k, r) by {
        evm_address::law_words(o.salt@, k);
    }
    assert forall|k: int| 0 <= k < 4 implies #[trigger] trace::at(
        t,
        COL_INITCODE_HASH_LIMB_OFFSET + k,
        r,
    ) == trace::bytes_at(t, COL_INITCODE_HASH_BYTE_OFFSET + 8 * k, r) by {
        evm_address::law_words(o.initcode_hash@, k);
    }
}

/// The value of each constraint on a row.
pub proof fn law_constraint_values(row: Seq<int>, ch: int)
    requires
        row.len() >= NUM_COLUMNS,
    ensures
        row_constraints().len() == 14,
        ({
            let v = |i: int| expr::ev(row_constraints()[i], row, Seq::empty(), ch);
            let x = row[COL_IS_REAL as int];
            &&& v(0) == x * (x - 1)
            &&& v(1) == x * (row[20] - constraints::eight_bytes(row, 0))
            &&& v(2) == x * (row[21] - constraints::eight_bytes(row, 8))
            &&& v(3) == x * (row[22] - constraints::four_bytes(row, 16))
            &&& v(4) == x * row[23]
            &&& v(5) == x * (row[56] - constraints::eight_bytes(row, 24))
            &&& v(6) == x * (row[57] - constraints::eight_bytes(row, 32))
            &&& v(7) == x * (row[58] - constraints::eight_bytes(row, 40))
            &&& v(8) == x * (row[59] - constraints::eight_bytes(row, 48))
            &&& v(9) == x * (row[92] - constraints::eight_bytes(row, 60))
            &&& v(10) == x * (row[93] - constraints::eight_bytes(row, 68))
            &&& v(11) == x * (row[94] - constraints::eight_bytes(row, 76))
            &&& v(12) == x * (row[95] - constraints::eight_bytes(row, 84))
        }),
        expr::ev(row_constraints()[13], row, Seq::empty(), ch) == row[COL_IS_REAL as int]
            * poly_arith::peval(
            Seq::new(
                257,
                |k: int|
                    if k == 0 {
                        row[96] - 0xff
                    } else if k < 21 {
                        row[96 + k] - row[k - 1]
                    } else if k < 53 {
                        row[96 + k] - row[24 + (k - 21)]
                    } else if k < 85 {
                        row[96 + k] - row[60 + (k - 53)]
                    } else if k < 256 {
                        row[96 + k]
                    } else {
                        row[COL_INPUT_LEN as int] - 85
                    },
            ),
            ch,
        ),
{
    let e = Seq::<int>::empty();
    constraints::lemma_ev_binary(COL_IS_REAL, row, e, ch);
    lemma_limb_value(20, 0, 8, row, ch);
    lemma_limb_value(21, 8, 8, row, ch);
    lemma_limb_value(22, 16, 4, row, ch);
    constraints::lemma_ev_gated(COL_IS_REAL, Expr::Col(23), row, e, ch);
    reveal_with_fuel(expr::ev, 2);
    lemma_limb_value(56, 24, 8, row, ch);
    lemma_limb_value(57, 32, 8, row, ch);
    lemma_limb_value(58, 40, 8, row, ch);
    lemma_limb_value(59, 48, 8, row, ch);
    lemma_limb_value(92, 60, 8, row, ch);
    lemma_limb_value(93, 68, 8, row, ch);
    lemma_limb_value(94, 76, 8, row, ch);
    lemma_limb_value(95, 84, 8, row, ch);
    let ts = input_terms();
    constraints::lemma_ev_gated(COL_IS_REAL, constraints::rlc_of(ts), row, e, ch);
    constraints::lemma_ev_rlc(ts, row, e, ch);
    lemma_term_values(row, ch);
    assert(Seq::new(257, |k: int| term_value(row, k)) =~= Seq::new(
        257,
        |k: int|
            if k == 0 {
                row[96] - 0xff
            } else if k < 21 {
                row[96 + k] - row[k - 1]
            } else if k < 53 {
                row[96 + k] - row[24 + (k - 21)]
            } else if k < 85 {
                row[96 + k] - row[60 + (k - 53)]
            } else if k < 256 {
                row[96 + k]
            } else {
                row[COL_INPUT_LEN as int] - 85
            },
    ));
}

proof fn lemma_limb_value(limb: usize, first: usize, n: nat, row: Seq<int>, ch: int)
    requires
        n == 8 || n == 4,
        first <= 100,
    ensures
        expr::ev(limb_of(limb, first, n), row, Seq::empty(), ch) == row[COL_IS_REAL as int] * (
        row[limb as int] - (if n == 8 {
            constraints::eight_bytes(row, first as int)
        } else {
            constraints::four_bytes(row, first as int)
        })),
{
    let e = Seq::<int>::empty();
    constraints::lemma_ev_weighted(first, 256, n, row, e, ch);
    constraints::lemma_weighted_bytes(row, first as int);
    reveal_with_fuel(expr::ev, 3);
}

} // verus!
