//! RLP of sender and nonce for CREATE addresses: trace, constraints and links.
//!
//! One row per invocation. The row holds the sender, as bytes and as limbs, the
//! nonce with its bits and its inverse, and the 23 bytes that are hashed:
//! `0xd6 || 0x94 || sender || nonce`, where the nonce zero stands as `0x80`.

use crate::bytes;
use crate::constraints;
use crate::constraints::{
    binary, le_bits_expr, le_bytes_expr, minus, push_cols, push_diffs, rlc, times,
};
use crate::cross_air_logup;
use crate::cross_air_logup::{push_run, CrossAirLogUpDescriptor};
use crate::evm_address;
use crate::expr;
use crate::expr::Expr;
use crate::field;
use crate::field::{CurveType, Scalar};
use crate::keccak_extract;
use crate::lookup::LookupRequirements;
use crate::modular;
use crate::poly_arith;
use crate::soundness;
use crate::trace;
use crate::trace::{trace_from_rows, TracePolynomials};
use vstd::prelude::*;

verus! {

pub const MAX_NONCE_EXCLUSIVE: u64 = 128;

pub const NUM_NONCE_BITS: usize = 7;

pub const RLP_OUTPUT_LEN: usize = 23;

pub const RLP_LIST_HEADER: u64 = 0xd6;

pub const RLP_SENDER_HEADER: u64 = 0x94;

pub const RLP_NONCE_ZERO: u64 = 0x80;

pub const NUM_SENDER_BYTES: usize = 20;

pub const NUM_SENDER_LIMBS: usize = 4;

pub const RLP_BYTE_WIDTH: usize = keccak_extract::MAX_INPUT_LEN;

pub const COL_SENDER_BYTE_OFFSET: usize = 0;

pub const COL_SENDER_LIMB_OFFSET: usize = 20;

pub const COL_NONCE: usize = 24;

pub const COL_NONCE_BIT_OFFSET: usize = 25;

pub const COL_NONCE_INV: usize = 32;

pub const COL_NONCE_RLP_BYTE: usize = 33;

pub const COL_RLP_BYTE_OFFSET: usize = 34;

pub const COL_RLP_LEN: usize = COL_RLP_BYTE_OFFSET + RLP_BYTE_WIDTH;

pub const COL_IS_REAL: usize = COL_RLP_LEN + 1;

pub const NUM_COLUMNS: usize = COL_IS_REAL + 1;

pub const NUM_ROW_CONSTRAINTS: usize = 10;

pub const NUM_SHIFTED: usize = 0;

#[derive(Clone, Copy, Debug, PartialEq, Eq)]
pub struct CreateRlpRow {
    pub sender: [u8; 20],
    pub nonce: u64,
}

#[derive(Clone, Debug, Default)]
pub struct CreateRlpWitness {
    pub invocations: Vec<CreateRlpRow>,
}

/// Every nonce fits in one byte of RLP.
pub open spec fn nonces_supported(rows: Seq<CreateRlpRow>) -> bool {
    forall|i: int| 0 <= i < rows.len() ==> (#[trigger] rows[i]).nonce < MAX_NONCE_EXCLUSIVE
}

impl CreateRlpWitness {
    /// One row per input, in order; an error if a nonce does not fit in one
    /// byte of RLP.
    pub fn from_inputs(inputs: &[(&[u8; 20], u64)]) -> (r: Result<Self, &'static str>)
        ensures
            r is Ok <==> forall|i: int|
                0 <= i < inputs.len() ==> (#[trigger] inputs@[i]).1 < MAX_NONCE_EXCLUSIVE,
            r matches Ok(w) ==> {
                &&& w.invocations.len() == inputs.len()
                &&& nonces_supported(w.invocations@)
                &&& forall|i: int|
                    0 <= i < inputs.len() ==> (#[trigger] w.invocations@[i]).sender
                        == *inputs@[i].0 && w.invocations@[i].nonce == inputs@[i].1
            },
            r matches Err(e) ==> e@
                == "evm_create_rlp_air: nonce ≥ MAX_NONCE_EXCLUSIVE; only nonces in [0, 128) are supported by this MVP gadget"@,
    {
        let mut invocations: Vec<CreateRlpRow> = Vec::with_capacity(inputs.len());
        let mut i: usize = 0;
        while i < inputs.len()
            invariant
                i <= inputs.len(),
                invocations.len() == i,
                nonces_supported(invocations@),
                forall|k: int| 0 <= k < i ==> (#[trigger] inputs@[k]).1 < MAX_NONCE_EXCLUSIVE,
                forall|k: int|
                    0 <= k < i ==> (#[trigger] invocations@[k]).sender == *inputs@[k].0
                        && invocations@[k].nonce == inputs@[k].1,
            decreases inputs.len() - i,
        {
            let (sender, nonce): (&[u8; 20], u64) = inputs[i];
            if nonce >= MAX_NONCE_EXCLUSIVE {
                assert(inputs@[i as int].1 >= MAX_NONCE_EXCLUSIVE);
                return Err(
                    "evm_create_rlp_air: nonce ≥ MAX_NONCE_EXCLUSIVE; only nonces in [0, 128) are supported by this MVP gadget",
                );
            }
            invocations.push(CreateRlpRow { sender: *sender, nonce });
            i = i + 1;
        }
        Ok(Self { invocations })
    }
}

/// The address as little-endian limbs of eight, eight and four bytes, and a
/// zero.
pub fn sender_limbs_from_bytes(sender: &[u8; 20]) -> (r: [u64; 4])
    ensures
        forall|k: int| 0 <= k < 4 ==> r@[k] == evm_address::limb(sender@, k),
{
    evm_address::limbs(sender)
}

/// The RLP byte of a nonce below 128.
pub open spec fn rlp_byte(nonce: int) -> int {
    if nonce == 0 {
        0x80
    } else {
        nonce
    }
}

pub fn nonce_rlp_byte(nonce: u64) -> (r: u64)
    ensures
        r == rlp_byte(nonce as int),
{
    if nonce == 0 {
        RLP_NONCE_ZERO
    } else {
        nonce
    }
}

/// `0xd6 || 0x94 || sender || nonce`.
pub open spec fn rlp(sender: Seq<u8>, nonce: int) -> Seq<u8> {
    seq![0xd6u8, 0x94u8] + sender + seq![rlp_byte(nonce) as u8]
}

/// The bytes whose hash gives the address.
pub fn canonical_rlp(sender: &[u8; 20], nonce: u64) -> (r: [u8; 23])
    requires
        nonce < MAX_NONCE_EXCLUSIVE,
    ensures
        r@ == rlp(sender@, nonce as int),
{
    let mut out: [u8; 23] = [0u8; 23];
    out[0] = 0xd6;
    out[1] = 0x94;
    let ghost want = rlp(sender@, nonce as int);
    let mut i: usize = 0;
    while i < NUM_SENDER_BYTES
        invariant
            i <= 20,
            want == rlp(sender@, nonce as int),
            forall|k: int| 0 <= k < i + 2 ==> out@[k] == want[k],
        decreases 20 - i,
    {
        out[2 + i] = sender[i];
        i = i + 1;
    }
    out[22] = nonce_rlp_byte(nonce) as u8;
    assert(out@ =~= want);
    out
}

/// Different senders or nonces give different bytes to hash.
pub proof fn law_rlp_injective(sender: Seq<u8>, nonce: int, sender2: Seq<u8>, nonce2: int)
    requires
        sender.len() == 20,
        sender2.len() == 20,
        0 <= nonce < 128,
        0 <= nonce2 < 128,
        rlp(sender, nonce) == rlp(sender2, nonce2),
    ensures
        sender == sender2,
        nonce == nonce2,
{
    let (a, b) = (rlp(sender, nonce), rlp(sender2, nonce2));
    assert forall|i: int| 0 <= i < 20 implies sender[i] == sender2[i] by {
        assert(a[i + 2] == b[i + 2]);
    }
    assert(sender =~= sender2);
    assert(a[22] == b[22]);
}

// ─── Trace ────────────────────────────────────────────────────────────

/// Bit `b` of a number.
pub open spec fn bit(x: int, b: int) -> int {
    (x / modular::ipow(2, b as nat)) % 2
}

/// The inverse of the nonce in the field; zero for zero.
pub open spec fn nonce_inverse(nonce: int, curve: CurveType) -> int {
    if nonce == 0 {
        0
    } else {
        modular::inverse(nonce, field::order(curve))
    }
}

/// The cell of a row in column `c`.
pub open spec fn row_cell(row: CreateRlpRow, curve: CurveType, c: int) -> int {
    if c < COL_SENDER_LIMB_OFFSET {
        row.sender@[c] as int
    } else if c < COL_NONCE {
        evm_address::limb(row.sender@, c - COL_SENDER_LIMB_OFFSET)
    } else if c == COL_NONCE {
        row.nonce as int
    } else if c < COL_NONCE_INV {
        bit(row.nonce as int, c - COL_NONCE_BIT_OFFSET)
    } else if c == COL_NONCE_INV {
        nonce_inverse(row.nonce as int, curve)
    } else if c == COL_NONCE_RLP_BYTE {
        rlp_byte(row.nonce as int)
    } else if c < COL_RLP_BYTE_OFFSET + RLP_OUTPUT_LEN {
        rlp(row.sender@, row.nonce as int)[c - COL_RLP_BYTE_OFFSET] as int
    } else if c < COL_RLP_LEN {
        0
    } else if c == COL_RLP_LEN {
        RLP_OUTPUT_LEN as int
    } else {
        1
    }
}

/// The cells of a witness.
pub open spec fn cells(rows: Seq<CreateRlpRow>, curve: CurveType) -> spec_fn(int, int) -> int {
    |c: int, r: int| row_cell(rows[r], curve, c)
}

/// The bits of a nonce.
fn nonce_bits(nonce: u64) -> (r: [u64; 7])
    ensures
        forall|b: int| 0 <= b < 7 ==> r@[b] == bit(nonce as int, b),
{
    let r: [u64; 7] = [
        nonce % 2,
        nonce / 2 % 2,
        nonce / 4 % 2,
        nonce / 8 % 2,
        nonce / 16 % 2,
        nonce / 32 % 2,
        nonce / 64 % 2,
    ];
    assert forall|b: int| 0 <= b < 7 implies r@[b] == bit(nonce as int, b) by {
        reveal_with_fuel(modular::ipow, 8);
        assert(b == 0 || b == 1 || b == 2 || b == 3 || b == 4 || b == 5 || b == 6);
    }
    r
}

fn inverse_scalar(nonce: u64, curve: CurveType) -> (r: Scalar)
    requires
        nonce < MAX_NONCE_EXCLUSIVE,
    ensures
        r.curve() == curve,
        r@ == nonce_inverse(nonce as int, curve),
{
    if nonce == 0 {
        Scalar::zero(curve)
    } else {
        let x: Scalar = Scalar::from_u64(nonce, curve);
        proof {
            lemma_nonce_below_order(nonce as int, curve);
        }
        let r: Scalar = x.inverse();
        proof {
            modular::lemma_inverse_unique(nonce as int, r@, field::order(curve));
        }
        r
    }
}

proof fn lemma_nonce_below_order(nonce: int, curve: CurveType)
    requires
        0 < nonce < 128,
    ensures
        128 < field::order(curve),
        nonce % field::order(curve) == nonce,
{
    field::lemma_order(curve);
    reveal(field::order);
    vstd::arithmetic::div_mod::lemma_small_mod(nonce as nat, field::order(curve) as nat);
}

fn row_scalars(row: &CreateRlpRow, curve: CurveType) -> (v: Vec<Scalar>)
    requires
        row.nonce < MAX_NONCE_EXCLUSIVE,
    ensures
        v.len() == NUM_COLUMNS,
        forall|c: int|
            0 <= c < NUM_COLUMNS ==> (#[trigger] v@[c]).curve() == curve && v@[c]@ == row_cell(
                *row,
                curve,
                c,
            ),
{
    let sender: [u64; 4] = sender_limbs_from_bytes(&row.sender);
    let bits: [u64; 7] = nonce_bits(row.nonce);
    let encoded: [u8; 23] = canonical_rlp(&row.sender, row.nonce);
    let mut v: Vec<Scalar> = Vec::with_capacity(NUM_COLUMNS);
    let mut c: usize = 0;
    while c < NUM_COLUMNS
        invariant
            c <= NUM_COLUMNS,
            v.len() == c,
            row.nonce < MAX_NONCE_EXCLUSIVE,
            forall|k: int| 0 <= k < 4 ==> sender@[k] == evm_address::limb(row.sender@, k),
            forall|k: int| 0 <= k < 7 ==> bits@[k] == bit(row.nonce as int, k),
            encoded@ == rlp(row.sender@, row.nonce as int),
            forall|k: int|
                0 <= k < c ==> (#[trigger] v@[k]).curve() == curve && v@[k]@ == row_cell(
                    *row,
                    curve,
                    k,
                ),
        decreases NUM_COLUMNS - c,
    {
        if c == COL_NONCE_INV {
            v.push(inverse_scalar(row.nonce, curve));
        } else {
            let x: u64 = if c < COL_SENDER_LIMB_OFFSET {
                row.sender[c] as u64
            } else if c < COL_NONCE {
                sender[c - COL_SENDER_LIMB_OFFSET]
            } else if c == COL_NONCE {
                row.nonce
            } else if c < COL_NONCE_INV {
                bits[c - COL_NONCE_BIT_OFFSET]
            } else if c == COL_NONCE_RLP_BYTE {
                nonce_rlp_byte(row.nonce)
            } else if c < COL_RLP_BYTE_OFFSET + RLP_OUTPUT_LEN {
                encoded[c - COL_RLP_BYTE_OFFSET] as u64
            } else if c < COL_RLP_LEN {
                0
            } else if c == COL_RLP_LEN {
                RLP_OUTPUT_LEN as u64
            } else {
                1
            };
            v.push(Scalar::from_u64(x, curve));
        }
        c = c + 1;
    }
    v
}

pub fn build_trace_polynomials(witness: &CreateRlpWitness, curve: CurveType) -> (t:
    TracePolynomials)
    requires
        trace::paddable(witness.invocations.len() as nat),
        nonces_supported(witness.invocations@),
    ensures
        trace::holds(
            t,
            NUM_COLUMNS as nat,
            witness.invocations.len() as nat,
            curve,
            cells(witness.invocations@, curve),
        ),
{
    let n: usize = witness.invocations.len();
    let mut rows: Vec<Vec<Scalar>> = Vec::with_capacity(n);
    let ghost cell = cells(witness.invocations@, curve);
    let mut i: usize = 0;
    while i < n
        invariant
            i <= n,
            n == witness.invocations.len(),
            nonces_supported(witness.invocations@),
            cell == cells(witness.invocations@, curve),
            rows.len() == i,
            trace::rows_hold(rows@, NUM_COLUMNS as nat, curve, cell),
        decreases n - i,
    {
        let ghost before = rows@;
        rows.push(row_scalars(&witness.invocations[i], curve));
        assert(forall|k: int| 0 <= k < i ==> rows@[k] == before[k]);
        i = i + 1;
    }
    trace_from_rows(&rows, NUM_COLUMNS, curve, Ghost(cell))
}

// ─── Constraints ──────────────────────────────────────────────────────

/// On real rows, a limb equals the `n` bytes from column `first`.
pub open spec fn limb_of(limb: usize, first: usize, n: nat) -> Expr {
    constraints::mul_of(
        Expr::Col(COL_IS_REAL),
        constraints::sub_of(Expr::Col(limb), constraints::weighted_of(first, 256, n)),
    )
}

fn limb_binding(limb: usize, first: usize, n: usize) -> (r: Expr)
    requires
        n <= 8,
        first + n <= usize::MAX,
    ensures
        r == limb_of(limb, first, n as nat),
{
    times(Expr::Col(COL_IS_REAL), minus(Expr::Col(limb), le_bytes_expr(first, n)))
}

/// The bits of the nonce are bits.
pub open spec fn bit_terms() -> Seq<Expr> {
    Seq::new(7, |b: int| constraints::binary_of((COL_NONCE_BIT_OFFSET + b) as usize))
}

fn nonce_bit_binarity() -> (r: Expr)
    ensures
        r == constraints::rlc_of(bit_terms()),
{
    let mut terms: Vec<Expr> = Vec::with_capacity(NUM_NONCE_BITS);
    let mut b: usize = 0;
    while b < NUM_NONCE_BITS
        invariant
            b <= 7,
            terms.len() == b,
            forall|k: int|
                0 <= k < b ==> #[trigger] terms@[k] == constraints::binary_of(
                    (COL_NONCE_BIT_OFFSET + k) as usize,
                ),
        decreases 7 - b,
    {
        terms.push(binary(COL_NONCE_BIT_OFFSET + b));
        b = b + 1;
    }
    assert(terms@ =~= bit_terms());
    rlc(terms)
}

/// `nonce * inverse`: one if the nonce is not zero.
pub open spec fn nonzero_of() -> Expr {
    constraints::mul_of(Expr::Col(COL_NONCE), Expr::Col(COL_NONCE_INV))
}

fn nonzero() -> (r: Expr)
    ensures
        r == nonzero_of(),
{
    times(Expr::Col(COL_NONCE), Expr::Col(COL_NONCE_INV))
}

/// `nonce * (nonce * inverse - 1)`.
pub open spec fn inverse_of() -> Expr {
    constraints::mul_of(
        Expr::Col(COL_NONCE),
        constraints::sub_of(nonzero_of(), Expr::Const(1)),
    )
}

/// `byte - nonce - 0x80 * (1 - nonce * inverse)`.
pub open spec fn rlp_byte_of() -> Expr {
    constraints::sub_of(
        constraints::diff_of(COL_NONCE_RLP_BYTE, COL_NONCE),
        constraints::mul_of(
            Expr::Const(RLP_NONCE_ZERO),
            constraints::sub_of(Expr::Const(1), nonzero_of()),
        ),
    )
}

/// What the hashed bytes are: the headers, the sender, the byte of the nonce,
/// zeros behind them, and their length.
pub open spec fn rlp_terms() -> Seq<Expr> {
    seq![
        constraints::sub_of(Expr::Col(34), Expr::Const(RLP_LIST_HEADER)),
        constraints::sub_of(Expr::Col(35), Expr::Const(RLP_SENDER_HEADER)),
    ] + constraints::diffs_of(36, COL_SENDER_BYTE_OFFSET, 20) + seq![
        constraints::diff_of(56, COL_NONCE_RLP_BYTE),
    ] + constraints::cols_of(57, 233) + seq![
        constraints::sub_of(Expr::Col(COL_RLP_LEN), Expr::Const(RLP_OUTPUT_LEN as u64)),
    ]
}

fn rlp_construction() -> (r: Expr)
    ensures
        r == constraints::mul_of(Expr::Col(COL_IS_REAL), constraints::rlc_of(rlp_terms())),
{
    let mut terms: Vec<Expr> = Vec::with_capacity(RLP_BYTE_WIDTH + 1);
    terms.push(minus(Expr::Col(COL_RLP_BYTE_OFFSET), Expr::Const(RLP_LIST_HEADER)));
    terms.push(minus(Expr::Col(COL_RLP_BYTE_OFFSET + 1), Expr::Const(RLP_SENDER_HEADER)));
    push_diffs(&mut terms, COL_RLP_BYTE_OFFSET + 2, COL_SENDER_BYTE_OFFSET, NUM_SENDER_BYTES);
    terms.push(constraints::diff(COL_RLP_BYTE_OFFSET + 22, COL_NONCE_RLP_BYTE));
    push_cols(&mut terms, COL_RLP_BYTE_OFFSET + RLP_OUTPUT_LEN, RLP_BYTE_WIDTH - RLP_OUTPUT_LEN);
    terms.push(minus(Expr::Col(COL_RLP_LEN), Expr::Const(RLP_OUTPUT_LEN as u64)));
    assert(terms@ =~= rlp_terms());
    times(Expr::Col(COL_IS_REAL), rlc(terms))
}

/// The constraints on a row:
/// the selector is a bit, the limbs equal their bytes, the nonce equals its
/// bits, its inverse is one, the RLP byte belongs to the nonce, and the hashed
/// bytes are put together as they should be.
pub open spec fn row_constraints() -> Seq<Expr> {
    seq![
        constraints::binary_of(COL_IS_REAL),
        limb_of(20, 0, 8),
        limb_of(21, 8, 8),
        limb_of(22, 16, 4),
        constraints::mul_of(Expr::Col(COL_IS_REAL), Expr::Col(23)),
        constraints::rlc_of(bit_terms()),
        constraints::sub_of(
            constraints::weighted_of(COL_NONCE_BIT_OFFSET, 2, 7),
            Expr::Col(COL_NONCE),
        ),
        inverse_of(),
        constraints::mul_of(Expr::Col(COL_IS_REAL), rlp_byte_of()),
        constraints::mul_of(Expr::Col(COL_IS_REAL), constraints::rlc_of(rlp_terms())),
    ]
}

fn constraint_list() -> (r: Vec<Expr>)
    ensures
        r@ == row_constraints(),
        constraints::well_formed(r@, NUM_COLUMNS as nat, 0),
{
    let mut r: Vec<Expr> = Vec::with_capacity(NUM_ROW_CONSTRAINTS);
    r.push(binary(COL_IS_REAL));
    r.push(limb_binding(COL_SENDER_LIMB_OFFSET, COL_SENDER_BYTE_OFFSET, 8));
    r.push(limb_binding(COL_SENDER_LIMB_OFFSET + 1, COL_SENDER_BYTE_OFFSET + 8, 8));
    r.push(limb_binding(COL_SENDER_LIMB_OFFSET + 2, COL_SENDER_BYTE_OFFSET + 16, 4));
    r.push(times(Expr::Col(COL_IS_REAL), Expr::Col(COL_SENDER_LIMB_OFFSET + 3)));
    r.push(nonce_bit_binarity());
    r.push(minus(le_bits_expr(COL_NONCE_BIT_OFFSET, NUM_NONCE_BITS), Expr::Col(COL_NONCE)));
    r.push(times(Expr::Col(COL_NONCE), minus(nonzero(), Expr::Const(1))));
    r.push(
        times(
            Expr::Col(COL_IS_REAL),
            minus(
                constraints::diff(COL_NONCE_RLP_BYTE, COL_NONCE),
                times(Expr::Const(RLP_NONCE_ZERO), minus(Expr::Const(1), nonzero())),
            ),
        ),
    );
    r.push(rlp_construction());
    assert(r@ =~= row_constraints());
    proof {
        lemma_well_formed();
    }
    r
}

spec fn limb_length(i: int) -> nat {
    if i == 3 {
        4
    } else {
        8
    }
}

proof fn lemma_limb_constraint(i: int)
    requires
        1 <= i <= 3,
    ensures
        row_constraints()[i] == limb_of((19 + i) as usize, (8 * (i - 1)) as usize, limb_length(i)),
{
    assert(i == 1 || i == 2 || i == 3);
}

proof fn lemma_terms_fit()
    ensures
        constraints::fits(constraints::rlc_of(bit_terms()), NUM_COLUMNS as nat, 0, 2),
        constraints::fits(constraints::rlc_of(rlp_terms()), NUM_COLUMNS as nat, 0, 1),
{
    let n = NUM_COLUMNS as nat;
    let ts = rlp_terms();
    assert forall|k: int| 0 <= k < ts.len() implies constraints::fits(
        #[trigger] ts[k],
        n,
        0,
        1,
    ) by {
        reveal_with_fuel(expr::within, 2);
        reveal_with_fuel(expr::degree, 2);
    }
    constraints::lemma_fits_rlc(ts, n, 0, 1);
    let bs = bit_terms();
    assert forall|k: int| 0 <= k < bs.len() implies constraints::fits(
        #[trigger] bs[k],
        n,
        0,
        2,
    ) by {
        constraints::lemma_fits_binary((COL_NONCE_BIT_OFFSET + k) as usize, n, 0);
    }
    constraints::lemma_fits_rlc(bs, n, 0, 2);
}

proof fn lemma_well_formed()
    ensures
        constraints::well_formed(row_constraints(), NUM_COLUMNS as nat, 0),
{
    let n = NUM_COLUMNS as nat;
    let es = row_constraints();
    lemma_terms_fit();
    assert forall|i: int| 0 <= i < es.len() implies {
        &&& expr::within(#[trigger] es[i], n, 0)
        &&& expr::compound(es[i])
        &&& expr::degree(es[i]) <= 3
    } by {
        if i == 0 {
            constraints::lemma_fits_binary(COL_IS_REAL, n, 0);
        } else if 1 <= i <= 3 {
            lemma_limb_constraint(i);
            constraints::lemma_fits_weighted((8 * (i - 1)) as usize, 256, limb_length(i), n, 0);
            reveal_with_fuel(expr::within, 3);
            reveal_with_fuel(expr::degree, 3);
        } else if i == 5 {
        } else if i == 6 {
            constraints::lemma_fits_weighted(COL_NONCE_BIT_OFFSET, 2, 7, n, 0);
            reveal_with_fuel(expr::within, 2);
            reveal_with_fuel(expr::degree, 2);
        } else if i == 7 || i == 8 {
            reveal_with_fuel(expr::within, 6);
            reveal_with_fuel(expr::degree, 6);
        } else {
            reveal_with_fuel(expr::within, 2);
            reveal_with_fuel(expr::degree, 2);
        }
    }
}

/// The columns of a trace of this width can be read by the constraints.
pub proof fn law_trace_readable(
    t: TracePolynomials,
    columns: Seq<&Vec<Scalar>>,
    rows: nat,
    curve: CurveType,
    cell: spec_fn(int, int) -> int,
)
    requires
        trace::holds(t, NUM_COLUMNS as nat, rows, curve, cell),
        trace::columns_of(t, columns),
    ensures
        columns.len() >= NUM_COLUMNS,
        constraints::domain_readable(row_constraints(), columns),
{
    lemma_well_formed();
    constraints::lemma_trace_readable(
        row_constraints(),
        t,
        columns,
        NUM_COLUMNS as nat,
        rows,
        curve,
        cell,
    );
}

/// In the field, every constraint vanishes on every row of the trace of a
/// witness, padding included.
pub proof fn law_honest_trace_vanishes(
    w: CreateRlpWitness,
    t: TracePolynomials,
    columns: Seq<&Vec<Scalar>>,
    curve: CurveType,
    r: int,
    i: int,
    ch: int,
)
    requires
        trace::holds(
            t,
            NUM_COLUMNS as nat,
            w.invocations.len() as nat,
            curve,
            cells(w.invocations@, curve),
        ),
        trace::columns_of(t, columns),
        nonces_supported(w.invocations@),
        0 <= r < trace::padded_length(w.invocations.len() as nat),
        0 <= i < NUM_ROW_CONSTRAINTS,
    ensures
        expr::ev(row_constraints()[i], expr::row_values(columns, r), Seq::empty(), ch)
            % field::order(curve) == 0,
{
    let n = w.invocations.len() as nat;
    let cell = cells(w.invocations@, curve);
    trace::lemma_trace_rows(t, columns, NUM_COLUMNS as nat, n, curve, cell, r);
    let row = trace::row_of(NUM_COLUMNS as nat, n, cell, r);
    let e = Seq::<int>::empty();
    let m = field::order(curve);
    field::lemma_order(curve);
    vstd::arithmetic::div_mod::lemma_small_mod(0, m as nat);
    if i == 7 || i == 8 {
        if r < n {
            assert(w.invocations@[r].nonce < MAX_NONCE_EXCLUSIVE);
            lemma_nonce_vanishes(
                row,
                w.invocations@[r].nonce as int,
                curve,
                i,
                ch,
            );
        } else {
            constraints::lemma_ev_gated(
                COL_NONCE,
                constraints::sub_of(nonzero_of(), Expr::Const(1)),
                row,
                e,
                ch,
            );
            constraints::lemma_ev_gated(COL_IS_REAL, rlp_byte_of(), row, e, ch);
        }
    } else if i == 0 {
        constraints::lemma_binary_vanishes(COL_IS_REAL, row, e, ch);
    } else if i == 4 {
        constraints::lemma_ev_gated(COL_IS_REAL, Expr::Col(23), row, e, ch);
    } else if i == 5 {
        lemma_bits_vanish(row, ch);
    } else if i == 6 {
        constraints::lemma_ev_weighted(COL_NONCE_BIT_OFFSET, 2, 7, row, e, ch);
        if r < n {
            assert(w.invocations@[r].nonce < MAX_NONCE_EXCLUSIVE);
            assert forall|b: int| 0 <= b < 7 implies row[#[trigger] (COL_NONCE_BIT_OFFSET + b)]
                == bit(w.invocations@[r].nonce as int, b) by {}
            lemma_bit_sum(row, w.invocations@[r].nonce as int);
        } else {
            constraints::lemma_zero_sum(row, COL_NONCE_BIT_OFFSET as int, 2, 7);
        }
        reveal_with_fuel(expr::ev, 2);
    } else if i == 9 {
        if r < n {
            assert(w.invocations@[r].nonce < MAX_NONCE_EXCLUSIVE);
            lemma_terms_vanish(row, w.invocations@[r], curve, ch);
        }
        constraints::lemma_ev_gated(COL_IS_REAL, constraints::rlc_of(rlp_terms()), row, e, ch);
    } else {
        lemma_limb_constraint(i);
        let (limb, first) = ((19 + i) as usize, (8 * (i - 1)) as usize);
        let body = constraints::sub_of(
            Expr::Col(limb),
            constraints::weighted_of(first, 256, limb_length(i)),
        );
        constraints::lemma_ev_gated(COL_IS_REAL, body, row, e, ch);
        if r < n {
            lemma_limb_vanishes(row, w.invocations@[r], curve, i, ch);
        }
    }
}

proof fn lemma_bits_vanish(row: Seq<int>, ch: int)
    requires
        forall|b: int|
            0 <= b < 7 ==> row[#[trigger] (COL_NONCE_BIT_OFFSET + b)] == 0
                || row[COL_NONCE_BIT_OFFSET + b] == 1,
    ensures
        expr::ev(constraints::rlc_of(bit_terms()), row, Seq::empty(), ch) == 0,
{
    let ts = bit_terms();
    assert forall|k: int| 0 <= k < ts.len() implies expr::ev(
        #[trigger] ts[k],
        row,
        Seq::empty(),
        ch,
    ) == 0 by {
        assert(row[COL_NONCE_BIT_OFFSET + k] == 0 || row[COL_NONCE_BIT_OFFSET + k] == 1);
        constraints::lemma_binary_vanishes(
            (COL_NONCE_BIT_OFFSET + k) as usize,
            row,
            Seq::empty(),
            ch,
        );
    }
    constraints::lemma_rlc_vanishes(ts, row, Seq::empty(), ch);
}

/// The bits of a nonce add up to it.
proof fn lemma_bit_sum(row: Seq<int>, nonce: int)
    requires
        0 <= nonce < 128,
        forall|b: int|
            0 <= b < 7 ==> row[#[trigger] (COL_NONCE_BIT_OFFSET + b)] == bit(nonce, b),
    ensures
        constraints::weighted_sum(row, COL_NONCE_BIT_OFFSET as int, 2, 7) == nonce,
{
    reveal_with_fuel(modular::ipow, 8);
    let a = COL_NONCE_BIT_OFFSET as int;
    assert(row[a + 0] == nonce % 2);
    assert(row[a + 1] == nonce / 2 % 2);
    assert(row[a + 2] == nonce / 4 % 2);
    assert(row[a + 3] == nonce / 8 % 2);
    assert(row[a + 4] == nonce / 16 % 2);
    assert(row[a + 5] == nonce / 32 % 2);
    assert(row[a + 6] == nonce / 64 % 2);
    assert(constraints::weighted_sum(row, a, 2, 0) == 0);
    assert(constraints::weighted_sum(row, a, 2, 1) == nonce % 2);
    assert(constraints::weighted_sum(row, a, 2, 2) == nonce % 4);
    assert(constraints::weighted_sum(row, a, 2, 3) == nonce % 8);
    assert(constraints::weighted_sum(row, a, 2, 4) == nonce % 16);
    assert(constraints::weighted_sum(row, a, 2, 5) == nonce % 32);
    assert(constraints::weighted_sum(row, a, 2, 6) == nonce % 64);
    assert(nonce % 128 == nonce % 64 + 64 * (nonce / 64 % 2));
    assert(modular::ipow(2, 6) == 64);
    assert(constraints::weighted_sum(row, a, 2, 7) == constraints::weighted_sum(row, a, 2, 6)
        + row[a + 6] * modular::ipow(2, 6));
    assert(constraints::weighted_sum(row, a, 2, 7) == nonce % 128);
}

proof fn lemma_nonce_vanishes(row: Seq<int>, nonce: int, curve: CurveType, i: int, ch: int)
    requires
        i == 7 || i == 8,
        0 <= nonce < 128,
        row[COL_NONCE as int] == nonce,
        row[COL_NONCE_INV as int] == nonce_inverse(nonce, curve),
        row[COL_NONCE_RLP_BYTE as int] == rlp_byte(nonce),
        row[COL_IS_REAL as int] == 1,
    ensures
        expr::ev(row_constraints()[i], row, Seq::empty(), ch) % field::order(curve) == 0,
{
    let m = field::order(curve);
    let e = Seq::<int>::empty();
    let inv = row[COL_NONCE_INV as int];
    let p = nonce * inv;
    field::lemma_order(curve);
    assert(expr::ev(nonzero_of(), row, e, ch) == p) by {
        reveal_with_fuel(expr::ev, 2);
    }
    if nonce == 0 {
        assert(p == 0) by (nonlinear_arith)
            requires
                p == nonce * inv,
                nonce == 0,
        ;
    } else {
        lemma_nonce_below_order(nonce, curve);
        lemma_inverse_exists(nonce, curve);
        vstd::arithmetic::div_mod::lemma_small_mod(1, m as nat);
    }
    vstd::arithmetic::div_mod::lemma_small_mod(0, m as nat);
    if i == 7 {
        let d = constraints::sub_of(nonzero_of(), Expr::Const(1));
        assert(expr::ev(Expr::Const(1), row, e, ch) == 1);
        assert(expr::ev(d, row, e, ch) == p - 1);
        assert(expr::ev(inverse_of(), row, e, ch) == nonce * (p - 1)) by {
            assert(expr::ev(Expr::Col(COL_NONCE), row, e, ch) == nonce);
        }
        if nonce == 0 {
            assert(nonce * (p - 1) == 0) by (nonlinear_arith)
                requires
                    nonce == 0,
            ;
        } else {
            modular::lemma_cong_sub(p, 1, 1, 1, m);
            modular::lemma_cong_mul(nonce, nonce, p - 1, 0, m);
            assert(nonce * 0 == 0);
        }
    } else {
        let z = constraints::sub_of(Expr::Const(1), nonzero_of());
        assert(expr::ev(Expr::Const(1), row, e, ch) == 1);
        assert(expr::ev(z, row, e, ch) == 1 - p);
        let s = constraints::mul_of(Expr::Const(RLP_NONCE_ZERO), z);
        assert(expr::ev(s, row, e, ch) == 128 * (1 - p)) by {
            assert(expr::ev(Expr::Const(RLP_NONCE_ZERO), row, e, ch) == 128);
        }
        let d = constraints::diff_of(COL_NONCE_RLP_BYTE, COL_NONCE);
        assert(expr::ev(d, row, e, ch) == rlp_byte(nonce) - nonce) by {
            reveal_with_fuel(expr::ev, 2);
        }
        let v = rlp_byte(nonce) - nonce - 128 * (1 - p);
        assert(expr::ev(rlp_byte_of(), row, e, ch) == v);
        constraints::lemma_ev_gated(COL_IS_REAL, rlp_byte_of(), row, e, ch);
        assert(1 * v == v);
        if nonce != 0 {
            modular::lemma_cong_sub(1, 1, p, 1, m);
            modular::lemma_cong_mul(128, 128, 1 - p, 0, m);
            modular::lemma_cong_sub(0, 0, 128 * (1 - p), 128int * 0, m);
        }
    }
}

/// A common multiple of all nonces but zero.
spec fn common_multiple() -> int {
    0x45b5b958f486887e2d3e2fd27f8830e26b0eb0a3c593c0int
}

proof fn lemma_divides(n: int)
    requires
        0 < n < 128,
    ensures
        common_multiple() % n == 0,
    decreases 128 - n,
{
    if n < 64 {
        lemma_divides(2 * n);
        let q = common_multiple() / (2 * n);
        vstd::arithmetic::div_mod::lemma_fundamental_div_mod(common_multiple(), 2 * n);
        assert(2 * n * q == (2 * q) * n) by (nonlinear_arith);
        vstd::arithmetic::div_mod::lemma_mod_multiples_basic(2 * q, n);
    } else {
        lemma_divides_large(n);
    }
}

proof fn lemma_divides_large(n: int)
    requires
        64 <= n < 128,
    ensures
        common_multiple() % n == 0,
{
    assert(common_multiple() % 64 == 0 && common_multiple() % 65 == 0);
    assert(common_multiple() % 66 == 0 && common_multiple() % 67 == 0);
    assert(common_multiple() % 68 == 0 && common_multiple() % 69 == 0);
    assert(common_multiple() % 70 == 0 && common_multiple() % 71 == 0);
    assert(common_multiple() % 72 == 0 && common_multiple() % 73 == 0);
    assert(common_multiple() % 74 == 0 && common_multiple() % 75 == 0);
    assert(common_multiple() % 76 == 0 && common_multiple() % 77 == 0);
    assert(common_multiple() % 78 == 0 && common_multiple() % 79 == 0);
    assert(common_multiple() % 80 == 0 && common_multiple() % 81 == 0);
    assert(common_multiple() % 82 == 0 && common_multiple() % 83 == 0);
    assert(common_multiple() % 84 == 0 && common_multiple() % 85 == 0);
    assert(common_multiple() % 86 == 0 && common_multiple() % 87 == 0);
    assert(common_multiple() % 88 == 0 && common_multiple() % 89 == 0);
    assert(common_multiple() % 90 == 0 && common_multiple() % 91 == 0);
    assert(common_multiple() % 92 == 0 && common_multiple() % 93 == 0);
    assert(common_multiple() % 94 == 0 && common_multiple() % 95 == 0);
    assert(common_multiple() % 96 == 0 && common_multiple() % 97 == 0);
    assert(common_multiple() % 98 == 0 && common_multiple() % 99 == 0);
    assert(common_multiple() % 100 == 0 && common_multiple() % 101 == 0);
    assert(common_multiple() % 102 == 0 && common_multiple() % 103 == 0);
    assert(common_multiple() % 104 == 0 && common_multiple() % 105 == 0);
    assert(common_multiple() % 106 == 0 && common_multiple() % 107 == 0);
    assert(common_multiple() % 108 == 0 && common_multiple() % 109 == 0);
    assert(common_multiple() % 110 == 0 && common_multiple() % 111 == 0);
    assert(common_multiple() % 112 == 0 && common_multiple() % 113 == 0);
    assert(common_multiple() % 114 == 0 && common_multiple() % 115 == 0);
    assert(common_multiple() % 116 == 0 && common_multiple() % 117 == 0);
    assert(common_multiple() % 118 == 0 && common_multiple() % 119 == 0);
    assert(common_multiple() % 120 == 0 && common_multiple() % 121 == 0);
    assert(common_multiple() % 122 == 0 && common_multiple() % 123 == 0);
    assert(common_multiple() % 124 == 0 && common_multiple() % 125 == 0);
    assert(common_multiple() % 126 == 0 && common_multiple() % 127 == 0);
    assert(n == 64 || n == 65 || n == 66 || n == 67 || n == 68 || n == 69 || n == 70 || n == 71 || n == 72 || n == 73 || n == 74 || n == 75 || n == 76 || n == 77 || n == 78 || n == 79 || n == 80 || n == 81 || n == 82 || n == 83 || n == 84 || n == 85 || n == 86 || n == 87 || n == 88 || n == 89 || n == 90 || n == 91 || n == 92 || n == 93 || n == 94 || n == 95 || n == 96 || n == 97 || n == 98 || n == 99 || n == 100 || n == 101 || n == 102 || n == 103 || n == 104 || n == 105 || n == 106 || n == 107 || n == 108 || n == 109 || n == 110 || n == 111 || n == 112 || n == 113 || n == 114 || n == 115 || n == 116 || n == 117 || n == 118 || n == 119 || n == 120 || n == 121 || n == 122 || n == 123 || n == 124 || n == 125 || n == 126 || n == 127);
}

/// The common multiple has an inverse modulo either order.
proof fn lemma_multiple_inverse(curve: CurveType) -> (y: int)
    ensures
        (common_multiple() * y) % field::order(curve) == 1,
{
    reveal(field::order);
    match curve {
        CurveType::Bls48581 => {
            0x1584ac3f7610a371e0db897b3c2048310ddc34d8ee71ac8b3dc59a199b7d7f7e88b24a2ac39c7fa2d0a3386fffe4dce4a0d9ad871545c7a2f50c33f6ef45fb9392int
        },
        CurveType::Bls12381 => {
            0x4ba1e12749015f4c6d7899c73ad5f1c924c25fa61196a279636bc619de1e9daint
        },
    }
}

/// A nonce has an inverse modulo the order of a curve.
proof fn lemma_inverse_exists(nonce: int, curve: CurveType)
    requires
        0 < nonce < 128,
    ensures
        (nonce * nonce_inverse(nonce, curve)) % field::order(curve) == 1,
{
    let m = field::order(curve);
    let y = lemma_multiple_inverse(curve);
    lemma_nonce_below_order(nonce, curve);
    lemma_divides(nonce);
    let k = common_multiple() / nonce;
    vstd::arithmetic::div_mod::lemma_fundamental_div_mod(common_multiple(), nonce);
    let z = (k * y) % m;
    assert(nonce * (k * y) == common_multiple() * y) by (nonlinear_arith)
        requires
            common_multiple() == nonce * k,
    ;
    vstd::arithmetic::div_mod::lemma_mul_mod_noop_right(nonce, k * y, m);
    modular::lemma_inverse_unique(nonce, z, m);
}

proof fn lemma_limb_vanishes(row: Seq<int>, o: CreateRlpRow, curve: CurveType, i: int, ch: int)
    requires
        row.len() == NUM_COLUMNS,
        forall|c: int| 0 <= c < NUM_COLUMNS ==> #[trigger] row[c] == row_cell(o, curve, c),
        1 <= i <= 3,
    ensures
        expr::ev(
            constraints::sub_of(
                Expr::Col((19 + i) as usize),
                constraints::weighted_of((8 * (i - 1)) as usize, 256, limb_length(i)),
            ),
            row,
            Seq::empty(),
            ch,
        ) == 0,
{
    let (limb, first) = ((19 + i) as usize, (8 * (i - 1)) as usize);
    let s = o.sender@.subrange(8 * (i - 1), 8 * (i - 1) + limb_length(i));
    assert forall|k: int| 0 <= k < s.len() implies row[#[trigger] (first + k)] == s[k] by {
        assert(row[first + k] == row_cell(o, curve, first + k));
    }
    constraints::lemma_weighted_value(row, first as int, s);
    constraints::lemma_ev_weighted(first, 256, limb_length(i), row, Seq::empty(), ch);
    assert(row[limb as int] == bytes::le_value(s)) by {
        assert(i == 1 || i == 2 || i == 3);
    }
    reveal_with_fuel(expr::ev, 2);
}

proof fn lemma_terms_vanish(row: Seq<int>, o: CreateRlpRow, curve: CurveType, ch: int)
    requires
        row.len() == NUM_COLUMNS,
        o.nonce < MAX_NONCE_EXCLUSIVE,
        forall|c: int| 0 <= c < NUM_COLUMNS ==> #[trigger] row[c] == row_cell(o, curve, c),
    ensures
        expr::ev(constraints::rlc_of(rlp_terms()), row, Seq::empty(), ch) == 0,
{
    let ts = rlp_terms();
    assert forall|k: int| 0 <= k < ts.len() implies expr::ev(
        #[trigger] ts[k],
        row,
        Seq::empty(),
        ch,
    ) == 0 by {
        reveal_with_fuel(expr::ev, 2);
        if k < 256 {
            assert(row[34 + k] == row_cell(o, curve, 34 + k));
        }
    }
    constraints::lemma_rlc_vanishes(ts, row, Seq::empty(), ch);
}

pub struct CreateRlpConstraintSystem {
    pub num_rows: usize,
    pub omega: Option<Scalar>,
    pub domain_size: Option<u64>,
}

impl CreateRlpConstraintSystem {
    pub fn new(num_rows: usize) -> (r: Self)
        ensures
            r.num_rows == num_rows,
            r.omega == None::<Scalar>,
            r.domain_size == None::<u64>,
    {
        Self { num_rows, omega: None, domain_size: None }
    }

    pub fn with_omega_and_domain(self, omega: Scalar, domain_size: u64) -> (r: Self)
        ensures
            r.num_rows == self.num_rows,
            r.omega == Some(omega),
            r.domain_size == Some(domain_size),
    {
        Self { num_rows: self.num_rows, omega: Some(omega), domain_size: Some(domain_size) }
    }

    pub fn num_constraints(&self) -> (r: usize)
        ensures
            r == row_constraints().len(),
    {
        NUM_ROW_CONSTRAINTS
    }

    pub fn constraint_labels(&self) -> (r: Vec<String>)
        ensures
            r.len() == 10,
            r@[0]@ == "is_real_binary"@,
            r@[1]@ == "sender_limb_0_binding"@,
            r@[2]@ == "sender_limb_1_binding"@,
            r@[3]@ == "sender_limb_2_binding"@,
            r@[4]@ == "sender_limb_3_zero"@,
            r@[5]@ == "nonce_bit_binarity"@,
            r@[6]@ == "nonce_decomposition"@,
            r@[7]@ == "nonce_inv_correctness"@,
            r@[8]@ == "nonce_rlp_byte_value"@,
            r@[9]@ == "rlp_construction"@,
    {
        vec![
            "is_real_binary".to_string(),
            "sender_limb_0_binding".to_string(),
            "sender_limb_1_binding".to_string(),
            "sender_limb_2_binding".to_string(),
            "sender_limb_3_zero".to_string(),
            "nonce_bit_binarity".to_string(),
            "nonce_decomposition".to_string(),
            "nonce_inv_correctness".to_string(),
            "nonce_rlp_byte_value".to_string(),
            "rlp_construction".to_string(),
        ]
    }

    /// The value of every constraint on every row.
    pub fn evaluate_on_domain(&self, columns: &[&Vec<Scalar>], _num_rows: usize) -> (r: Vec<
        Vec<Scalar>,
    >)
        requires
            columns.len() >= NUM_COLUMNS,
            constraints::domain_readable(row_constraints(), columns@),
        ensures
            constraints::domain_values(r@, row_constraints(), columns@, 7),
    {
        let es: Vec<Expr> = constraint_list();
        proof {
            constraints::lemma_well_formed_more(
                es@,
                NUM_COLUMNS as nat,
                columns.len() as nat,
                0,
            );
        }
        constraints::evaluate_on_domain(&es, columns, 7)
    }

    /// The constraints at a point, weighted by the powers of `alpha`; zero if
    /// columns are missing.
    pub fn evaluate_at_point(&self, col_evals: &[Scalar], alpha: &Scalar) -> (r: Scalar)
        requires
            col_evals.len() >= NUM_COLUMNS ==> constraints::point_readable(
                row_constraints(),
                col_evals@,
                Seq::empty(),
                alpha.curve(),
            ),
        ensures
            r.curve() == alpha.curve(),
            col_evals.len() < NUM_COLUMNS ==> r@ == 0,
            col_evals.len() >= NUM_COLUMNS ==> r@ == constraints::combined(
                row_constraints(),
                poly_arith::values(col_evals@),
                Seq::empty(),
                alpha@,
                alpha@,
            ) % field::order(alpha.curve()),
    {
        if col_evals.len() < NUM_COLUMNS {
            return Scalar::zero(alpha.curve_type());
        }
        let es: Vec<Expr> = constraint_list();
        let none: Vec<Scalar> = Vec::new();
        proof {
            constraints::lemma_well_formed_more(
                es@,
                NUM_COLUMNS as nat,
                col_evals.len() as nat,
                0,
            );
            assert(poly_arith::values(none@) =~= Seq::empty());
        }
        constraints::evaluate_at_point(&es, col_evals, none.as_slice(), alpha, alpha)
    }

    /// The weighted sum of the constraints as a polynomial.
    pub fn build_constraint_polynomial(
        &self,
        col_coeffs: &[Vec<Scalar>],
        alpha: &Scalar,
        _domain_size: u64,
    ) -> (r: Vec<Scalar>)
        requires
            col_coeffs.len() >= NUM_COLUMNS,
            constraints::coefficients_readable(row_constraints(), col_coeffs@, alpha.curve()),
        ensures
            poly_arith::reduced(
                r@,
                constraints::combined_poly(
                    row_constraints(),
                    expr::column_polys(col_coeffs@),
                    Seq::empty(),
                    alpha@,
                    alpha@,
                ),
                alpha.curve(),
            ),
    {
        let es: Vec<Expr> = constraint_list();
        let none: Vec<Vec<Scalar>> = Vec::new();
        proof {
            constraints::lemma_well_formed_more(
                es@,
                NUM_COLUMNS as nat,
                col_coeffs.len() as nat,
                0,
            );
            assert(expr::column_polys(none@) =~= Seq::empty());
        }
        constraints::build_polynomial(
            &es,
            col_coeffs,
            none.as_slice(),
            alpha,
            alpha,
        )
    }

    pub fn selector_column_indices(&self) -> (r: Vec<usize>)
        ensures
            r@ == seq![COL_IS_REAL],
    {
        let r: Vec<usize> = vec![COL_IS_REAL];
        assert(r@ =~= seq![COL_IS_REAL]);
        r
    }

    pub fn padding_selector_column(&self) -> (r: Option<usize>)
        ensures
            r == None::<usize>,
    {
        None
    }

    /// Clears the padding rows.
    pub fn fix_trace_padding(
        &self,
        columns: &mut [Vec<Scalar>],
        num_rows: usize,
        padded_size: usize,
    )
        ensures
            constraints::padding_cleared(
                old(columns)@,
                final(columns)@,
                NUM_COLUMNS as nat,
                num_rows as nat,
                padded_size as nat,
                CurveType::Bls48581,
            ),
    {
        constraints::clear_padding(
            columns,
            NUM_COLUMNS,
            num_rows,
            padded_size,
            CurveType::Bls48581,
        )
    }

    /// Nothing is looked up.
    pub fn lookup_declarations(&self) -> (r: LookupRequirements)
        ensures
            r.tables.len() == 0,
            r.declarations.len() == 0,
    {
        LookupRequirements::none()
    }
}

/// The polynomial reading of the system agrees with its reading at a point.
pub proof fn law_polynomial_at_point(cols: Seq<Seq<int>>, alpha: int, z: int)
    requires
        cols.len() >= NUM_COLUMNS,
    ensures
        poly_arith::peval(
            constraints::combined_poly(row_constraints(), cols, Seq::empty(), alpha, alpha),
            z,
        ) == constraints::combined(
            row_constraints(),
            expr::evals(cols, z),
            Seq::empty(),
            alpha,
            alpha,
        ),
{
    lemma_well_formed();
    constraints::lemma_well_formed_more(row_constraints(), NUM_COLUMNS as nat, cols.len(), 0);
    constraints::law_combined_reading(row_constraints(), cols, Seq::empty(), alpha, alpha, z);
    assert(expr::evals(Seq::empty(), z) =~= Seq::empty());
}

/// The polynomial reading of the system takes at every point, modulo the
/// order, the reading of the system over numbers that stand for the values of
/// the columns there.
pub proof fn law_polynomial_modulo(
    cols: Seq<Seq<int>>,
    e: Seq<int>,
    alpha: int,
    z: int,
    curve: CurveType,
)
    requires
        cols.len() >= NUM_COLUMNS,
        forall|c: int|
            0 <= c < NUM_COLUMNS ==> (#[trigger] e[c]) % field::order(curve) == poly_arith::peval(
                cols[c],
                z,
            ) % field::order(curve),
    ensures
        poly_arith::peval(
            constraints::combined_poly(row_constraints(), cols, Seq::empty(), alpha, alpha),
            z,
        ) % field::order(curve) == constraints::combined(
            row_constraints(),
            e,
            Seq::empty(),
            alpha,
            alpha,
        ) % field::order(curve),
{
    field::lemma_order(curve);
    lemma_well_formed();
    constraints::law_combined_reading_modulo(
        row_constraints(),
        NUM_COLUMNS as nat,
        cols,
        Seq::empty(),
        e,
        Seq::empty(),
        alpha,
        alpha,
        z,
        field::order(curve),
    );
}

/// The polynomial `p` of the constraints takes at `z` the value `v` of the
/// constraints at the point where the columns have the values `e`.
pub proof fn law_polynomial_value(
    col_coeffs: Seq<Vec<Scalar>>,
    e: Seq<Scalar>,
    z: Scalar,
    alpha: Scalar,
    p: Seq<Scalar>,
    v: Scalar,
)
    requires
        col_coeffs.len() >= NUM_COLUMNS,
        e.len() >= NUM_COLUMNS,
        forall|c: int|
            0 <= c < NUM_COLUMNS ==> (#[trigger] e[c])@ % field::order(alpha.curve())
                == poly_arith::peval(poly_arith::values(col_coeffs[c]@), z@) % field::order(
                alpha.curve(),
            ),
        poly_arith::reduced(
            p,
            constraints::combined_poly(
                row_constraints(),
                expr::column_polys(col_coeffs),
                Seq::empty(),
                alpha@,
                alpha@,
            ),
            alpha.curve(),
        ),
        v@ == constraints::combined(
            row_constraints(),
            poly_arith::values(e),
            Seq::empty(),
            alpha@,
            alpha@,
        ) % field::order(alpha.curve()),
    ensures
        poly_arith::peval(poly_arith::values(p), z@) % field::order(alpha.curve()) == v@,
{
    let cols = expr::column_polys(col_coeffs);
    let row = poly_arith::values(e);
    let m = field::order(alpha.curve());
    assert forall|c: int| 0 <= c < NUM_COLUMNS implies (#[trigger] row[c]) % m == poly_arith::peval(
        cols[c],
        z@,
    ) % m by {
        assert(e[c]@ % m == poly_arith::peval(poly_arith::values(col_coeffs[c]@), z@) % m);
    }
    law_polynomial_modulo(cols, row, alpha@, z@, alpha.curve());
    poly_arith::law_reduced_value(
        p,
        constraints::combined_poly(row_constraints(), cols, Seq::empty(), alpha@, alpha@),
        alpha.curve(),
        z@,
    );
}

/// The polynomial of the constraints is the same whatever the domain.
pub proof fn law_polynomial_of_any_domain(
    col_coeffs: Seq<Vec<Scalar>>,
    alpha: Scalar,
    p: Seq<Scalar>,
    q: Seq<Scalar>,
)
    requires
        poly_arith::reduced(
            p,
            constraints::combined_poly(
                row_constraints(),
                expr::column_polys(col_coeffs),
                Seq::empty(),
                alpha@,
                alpha@,
            ),
            alpha.curve(),
        ),
        poly_arith::reduced(
            q,
            constraints::combined_poly(
                row_constraints(),
                expr::column_polys(col_coeffs),
                Seq::empty(),
                alpha@,
                alpha@,
            ),
            alpha.curve(),
        ),
    ensures
        poly_arith::same_scalars(p, q),
{
    poly_arith::law_reduced_unique(
        p,
        q,
        constraints::combined_poly(
            row_constraints(),
            expr::column_polys(col_coeffs),
            Seq::empty(),
            alpha@,
            alpha@,
        ),
        alpha.curve(),
    );
}

// ─── What vanishing constraints say ───────────────────────────────────

/// Every constraint vanishes on the row for each of the challenges.
pub open spec fn row_vanishes(row: Seq<int>, points: Seq<int>, m: int) -> bool {
    forall|i: int, j: int|
        0 <= i < NUM_ROW_CONSTRAINTS && 0 <= j < points.len() ==> expr::ev(
            #[trigger] row_constraints()[i],
            row,
            Seq::empty(),
            #[trigger] points[j],
        ) % m == 0
}

/// A real row of field elements holds the bytes of a sender.
pub open spec fn row_holds_sender(row: Seq<int>, sender: [u8; 20], m: int) -> bool {
    &&& row.len() >= NUM_COLUMNS
    &&& forall|c: int| 0 <= c < NUM_COLUMNS ==> 0 <= #[trigger] row[c] < m
    &&& forall|i: int| 0 <= i < 20 ==> #[trigger] row[i] == sender@[i]
    &&& row[COL_IS_REAL as int] == 1
}

/// What term `k` of the hashed bytes denotes.
spec fn term_value(row: Seq<int>, k: int) -> int {
    if k == 0 {
        row[34] - 0xd6
    } else if k == 1 {
        row[35] - 0x94
    } else if k < 22 {
        row[34 + k] - row[k - 2]
    } else if k == 22 {
        row[56] - row[COL_NONCE_RLP_BYTE as int]
    } else if k < 256 {
        row[34 + k]
    } else {
        row[COL_RLP_LEN as int] - 23
    }
}

proof fn lemma_term_values(row: Seq<int>, ch: int)
    requires
        row.len() >= NUM_COLUMNS,
    ensures
        constraints::denoted(rlp_terms(), row, Seq::empty(), ch) == Seq::new(
            257,
            |k: int| term_value(row, k),
        ),
{
    let ts = rlp_terms();
    let vs = constraints::denoted(ts, row, Seq::empty(), ch);
    assert(ts.len() == 257);
    assert forall|k: int| 0 <= k < 257 implies vs[k] == term_value(row, k) by {
        reveal_with_fuel(expr::ev, 2);
        if k < 2 {
        } else if k < 22 {
            assert(ts[k] == constraints::diff_of((36 + (k - 2)) as usize, (k - 2) as usize));
        } else if 23 <= k < 256 {
            assert(ts[k] == Expr::Col((57 + (k - 23)) as usize));
        }
    }
    assert(vs =~= Seq::new(257, |k: int| term_value(row, k)));
}

/// The seven bits are bits.
proof fn lemma_bits_sound(row: Seq<int>, points: Seq<int>, m: int)
    requires
        soundness::integral(m),
        soundness::points_differ(points, m),
        points.len() >= 7,
        row.len() >= NUM_COLUMNS,
        forall|c: int| 0 <= c < NUM_COLUMNS ==> 0 <= #[trigger] row[c] < m,
        row_vanishes(row, points, m),
    ensures
        forall|b: int|
            0 <= b < 7 ==> row[#[trigger] (COL_NONCE_BIT_OFFSET + b)] == 0
                || row[COL_NONCE_BIT_OFFSET + b] == 1,
{
    let e = Seq::<int>::empty();
    let ts = bit_terms();
    let values = Seq::new(
        7,
        |b: int| row[COL_NONCE_BIT_OFFSET + b] * (row[COL_NONCE_BIT_OFFSET + b] - 1),
    );
    assert forall|x: int| #[trigger] constraints::denoted(ts, row, e, x) == values by {
        let vs = constraints::denoted(ts, row, e, x);
        assert forall|b: int| 0 <= b < 7 implies vs[b] == values[b] by {
            constraints::lemma_ev_binary((COL_NONCE_BIT_OFFSET + b) as usize, row, e, x);
        }
        assert(vs =~= values);
    }
    assert forall|j: int| 0 <= j < points.len() implies expr::ev(
        constraints::rlc_of(ts),
        row,
        e,
        #[trigger] points[j],
    ) % m == 0 by {
        assert(expr::ev(row_constraints()[5], row, e, points[j]) % m == 0);
    }
    soundness::law_combination_sound(ts, row, e, values, points, m);
    assert forall|b: int| 0 <= b < 7 implies row[#[trigger] (COL_NONCE_BIT_OFFSET + b)] == 0
        || row[COL_NONCE_BIT_OFFSET + b] == 1 by {
        let s = (COL_NONCE_BIT_OFFSET + b) as usize;
        assert(values[b] % m == 0);
        constraints::lemma_ev_binary(s, row, e, 0);
        assert(0 <= row[s as int] < m);
        soundness::lemma_binary_sound(s, row, e, 0, m);
    }
}

/// Seven bits that add up to a number are its bits.
proof fn lemma_bits_of_sum(row: Seq<int>)
    requires
        forall|b: int|
            0 <= b < 7 ==> row[#[trigger] (COL_NONCE_BIT_OFFSET + b)] == 0
                || row[COL_NONCE_BIT_OFFSET + b] == 1,
    ensures
        0 <= constraints::weighted_sum(row, COL_NONCE_BIT_OFFSET as int, 2, 7) < 128,
        forall|b: int|
            0 <= b < 7 ==> row[#[trigger] (COL_NONCE_BIT_OFFSET + b)] == bit(
                constraints::weighted_sum(row, COL_NONCE_BIT_OFFSET as int, 2, 7),
                b,
            ),
{
    let (b0, b1, b2, b3) = (row[25], row[26], row[27], row[28]);
    let (b4, b5, b6) = (row[29], row[30], row[31]);
    assert(row[COL_NONCE_BIT_OFFSET + 0] == b0 && row[COL_NONCE_BIT_OFFSET + 1] == b1
        && row[COL_NONCE_BIT_OFFSET + 2] == b2 && row[COL_NONCE_BIT_OFFSET + 3] == b3
        && row[COL_NONCE_BIT_OFFSET + 4] == b4 && row[COL_NONCE_BIT_OFFSET + 5] == b5
        && row[COL_NONCE_BIT_OFFSET + 6] == b6);
    let x = constraints::weighted_sum(row, 25, 2, 7);
    assert(x == b0 + 2 * b1 + 4 * b2 + 8 * b3 + 16 * b4 + 32 * b5 + 64 * b6) by {
        lemma_powers();
        assert(constraints::weighted_sum(row, 25, 2, 0) == 0);
        assert(constraints::weighted_sum(row, 25, 2, 1) == b0);
        assert(constraints::weighted_sum(row, 25, 2, 2) == b0 + 2 * b1);
        assert(constraints::weighted_sum(row, 25, 2, 3) == b0 + 2 * b1 + 4 * b2);
        assert(constraints::weighted_sum(row, 25, 2, 4) == b0 + 2 * b1 + 4 * b2 + 8 * b3);
        assert(constraints::weighted_sum(row, 25, 2, 5) == b0 + 2 * b1 + 4 * b2 + 8 * b3 + 16 * b4);
        assert(constraints::weighted_sum(row, 25, 2, 6) == b0 + 2 * b1 + 4 * b2 + 8 * b3 + 16 * b4
            + 32 * b5);
    }
    assert(x % 2 == b0);
    assert(x / 2 == b1 + 2 * (b2 + 2 * b3 + 4 * b4 + 8 * b5 + 16 * b6));
    assert(x / 4 == b2 + 2 * (b3 + 2 * b4 + 4 * b5 + 8 * b6));
    assert(x / 8 == b3 + 2 * (b4 + 2 * b5 + 4 * b6));
    assert(x / 16 == b4 + 2 * (b5 + 2 * b6));
    assert(x / 32 == b5 + 2 * b6);
    assert(x / 64 == b6);
    assert forall|b: int| 0 <= b < 7 implies row[#[trigger] (COL_NONCE_BIT_OFFSET + b)] == bit(
        x,
        b,
    ) by {
        lemma_powers();
        assert(b == 0 || b == 1 || b == 2 || b == 3 || b == 4 || b == 5 || b == 6);
    }
}

proof fn lemma_powers()
    ensures
        modular::ipow(2, 0) == 1,
        modular::ipow(2, 1) == 2,
        modular::ipow(2, 2) == 4,
        modular::ipow(2, 3) == 8,
        modular::ipow(2, 4) == 16,
        modular::ipow(2, 5) == 32,
        modular::ipow(2, 6) == 64,
{
    reveal_with_fuel(modular::ipow, 8);
}

/// The inverse and the RLP byte belong to the nonce.
proof fn lemma_nonce_sound(row: Seq<int>, ch: int, m: int)
    requires
        soundness::integral(m),
        m > 256,
        row.len() >= NUM_COLUMNS,
        forall|c: int| 0 <= c < NUM_COLUMNS ==> 0 <= #[trigger] row[c] < m,
        row[COL_NONCE as int] < 128,
        row[COL_IS_REAL as int] == 1,
        expr::ev(row_constraints()[7], row, Seq::empty(), ch) % m == 0,
        expr::ev(row_constraints()[8], row, Seq::empty(), ch) % m == 0,
    ensures
        row[COL_NONCE as int] != 0 ==> row[COL_NONCE_INV as int] == modular::inverse(
            row[COL_NONCE as int],
            m,
        ),
        row[COL_NONCE_RLP_BYTE as int] == rlp_byte(row[COL_NONCE as int]),
{
    let e = Seq::<int>::empty();
    let n = row[COL_NONCE as int];
    let v = row[COL_NONCE_INV as int];
    let b = row[COL_NONCE_RLP_BYTE as int];
    soundness::lemma_gated_sound(COL_IS_REAL, rlp_byte_of(), row, e, ch, m);
    assert(expr::ev(inverse_of(), row, e, ch) == n * (n * v - 1)) by {
        reveal_with_fuel(expr::ev, 4);
    }
    assert(expr::ev(rlp_byte_of(), row, e, ch) == b - n - 0x80 * (1 - n * v)) by {
        reveal_with_fuel(expr::ev, 5);
    }
    if n == 0 {
        assert(n * v == 0) by (nonlinear_arith)
            requires
                n == 0,
        ;
        soundness::lemma_equal(b, 0x80, m);
    } else {
        assert(soundness::product_vanishes(n, n * v - 1, m));
        vstd::arithmetic::div_mod::lemma_small_mod(n as nat, m as nat);
        vstd::arithmetic::div_mod::lemma_small_mod(1, m as nat);
        vstd::arithmetic::div_mod::lemma_small_mod(0, m as nat);
        modular::lemma_cong_add(n * v - 1, 0, 1, 1, m);
        assert((n * v) % m == 1);
        modular::lemma_inverse_unique(n, v, m);
        let d = 0x80 * (1 - n * v);
        modular::lemma_cong_sub(1, 1, n * v, 1, m);
        modular::lemma_cong_mul(0x80, 0x80, 1 - n * v, 0, m);
        assert(0x80 * 0 == 0);
        modular::lemma_cong_add(b - n - d, 0, d, 0, m);
        soundness::lemma_equal(b, n, m);
    }
}

/// A real row on which every constraint vanishes, for as many challenges as
/// there are hashed bytes and a length, has a supported nonce and is the row
/// of its sender and nonce; only the inverse of a zero nonce is free.
pub proof fn law_vanishing_row_sound(
    row: Seq<int>,
    sender: [u8; 20],
    points: Seq<int>,
    curve: CurveType,
)
    requires
        soundness::integral(field::order(curve)),
        soundness::points_differ(points, field::order(curve)),
        points.len() >= 257,
        row_holds_sender(row, sender, field::order(curve)),
        row_vanishes(row, points, field::order(curve)),
    ensures
        row[COL_NONCE as int] < MAX_NONCE_EXCLUSIVE,
        forall|c: int|
            0 <= c < NUM_COLUMNS && (c != COL_NONCE_INV || row[COL_NONCE as int] != 0)
                ==> #[trigger] row[c] == row_cell(
                CreateRlpRow { sender, nonce: row[COL_NONCE as int] as u64 },
                curve,
                c,
            ),
{
    let m = field::order(curve);
    field::lemma_order(curve);
    let e = Seq::<int>::empty();
    let es = row_constraints();
    let ch = points[0];
    lemma_bits_sound(row, points, m);
    lemma_bits_of_sum(row);
    let sum = constraints::weighted_sum(row, COL_NONCE_BIT_OFFSET as int, 2, 7);
    let nonce = row[COL_NONCE as int];
    assert(sum == nonce) by {
        assert(expr::ev(es[6], row, e, points[0]) % m == 0);
        constraints::lemma_ev_weighted(COL_NONCE_BIT_OFFSET, 2, 7, row, e, ch);
        assert(expr::ev(es[6], row, e, ch) == sum - nonce) by {
            reveal_with_fuel(expr::ev, 2);
        }
        soundness::lemma_equal(sum, nonce, m);
    }
    let o = CreateRlpRow { sender, nonce: nonce as u64 };
    assert(expr::ev(es[7], row, e, points[0]) % m == 0);
    assert(expr::ev(es[8], row, e, points[0]) % m == 0);
    lemma_nonce_sound(row, ch, m);
    assert forall|i: int| 1 <= i <= 3 implies row[#[trigger] (19 + i)] == row_cell(
        o,
        curve,
        19 + i,
    ) by {
        assert(expr::ev(es[i], row, e, points[0]) % m == 0);
        lemma_limb_sound(row, o, curve, i, ch, m);
    }
    assert(row[23] == 0) by {
        assert(expr::ev(es[4], row, e, points[0]) % m == 0);
        soundness::lemma_gated_sound(COL_IS_REAL, Expr::Col(23), row, e, ch, m);
        soundness::lemma_equal(row[23], 0, m);
    }
    let values = Seq::new(257, |k: int| term_value(row, k));
    assert forall|x: int| #[trigger] constraints::denoted(rlp_terms(), row, e, x) == values by {
        lemma_term_values(row, x);
    }
    assert(constraints::denoted(rlp_terms(), row, e, 0).len() == 257);
    assert forall|j: int| 0 <= j < points.len() implies expr::ev(
        constraints::rlc_of(rlp_terms()),
        row,
        e,
        #[trigger] points[j],
    ) % m == 0 by {
        assert(expr::ev(es[9], row, e, points[j]) % m == 0);
        soundness::lemma_gated_sound(
            COL_IS_REAL,
            constraints::rlc_of(rlp_terms()),
            row,
            e,
            points[j],
            m,
        );
    }
    soundness::law_combination_sound(rlp_terms(), row, e, values, points, m);
    assert forall|c: int|
        0 <= c < NUM_COLUMNS && (c != COL_NONCE_INV || nonce != 0) implies #[trigger] row[c]
        == row_cell(o, curve, c) by {
        if c < 34 {
            if 20 <= c < 23 {
                assert(row[19 + (c - 19)] == row_cell(o, curve, 19 + (c - 19)));
            } else if 25 <= c < 32 {
                assert(row[COL_NONCE_BIT_OFFSET + (c - 25)] == bit(sum, c - 25));
            }
        } else if c <= COL_RLP_LEN {
            let k = c - 34;
            let v = values[k];
            assert(v == term_value(row, k));
            assert(v % m == 0);
            let want = row[c] - v;
            assert(want == row_cell(o, curve, c)) by {
                if 2 <= k < 22 {
                    assert(row[k - 2] == sender@[k - 2]);
                }
            }
            assert(0 <= row[c] < m);
            soundness::lemma_equal(row[c], want, m);
        }
    }
}

proof fn lemma_limb_sound(
    row: Seq<int>,
    o: CreateRlpRow,
    curve: CurveType,
    i: int,
    ch: int,
    m: int,
)
    requires
        m > 0x1_0000_0000_0000_0000,
        row_holds_sender(row, o.sender, m),
        1 <= i <= 3,
        expr::ev(row_constraints()[i], row, Seq::empty(), ch) % m == 0,
    ensures
        row[19 + i] == row_cell(o, curve, 19 + i),
{
    lemma_limb_constraint(i);
    let (limb, first) = ((19 + i) as usize, (8 * (i - 1)) as usize);
    let n = limb_length(i);
    let body = constraints::sub_of(Expr::Col(limb), constraints::weighted_of(first, 256, n));
    soundness::lemma_gated_sound(COL_IS_REAL, body, row, Seq::empty(), ch, m);
    let s = o.sender@.subrange(8 * (i - 1), 8 * (i - 1) + n);
    assert forall|k: int| 0 <= k < s.len() implies row[#[trigger] (first + k)] == s[k] by {
        assert(row[first + k] == o.sender@[first + k]);
    }
    constraints::lemma_weighted_value(row, first as int, s);
    constraints::lemma_ev_weighted(first, 256, n, row, Seq::empty(), ch);
    assert(expr::ev(body, row, Seq::empty(), ch) == row[limb as int] - bytes::le_value(s)) by {
        reveal_with_fuel(expr::ev, 2);
    }
    bytes::lemma_le_bound(s);
    bytes::lemma_pow256_values();
    assert(0 <= row[limb as int] < m);
    soundness::lemma_equal(row[limb as int], bytes::le_value(s), m);
    assert(i == 1 || i == 2 || i == 3);
}

// ─── Links ────────────────────────────────────────────────────────────

/// Sender limbs and nonce are those of the main trace.
pub fn make_evm_main_create_rlp_linkage_descriptor(
    evm_layer_index: usize,
    rlp_layer_index: usize,
    evm_frame_callee_l0_col: usize,
    evm_create_nonce_hint_col: usize,
    evm_sel_create_col: usize,
) -> (r: CrossAirLogUpDescriptor)
    requires
        evm_frame_callee_l0_col + 3 <= usize::MAX,
    ensures
        r.is(
            cross_air_logup::Link {
                label: "evm_main_create_rlp_v1"@,
                a_layer: evm_layer_index as int,
                a_columns: cross_air_logup::run(evm_frame_callee_l0_col as int, 4).push(
                    evm_create_nonce_hint_col as int,
                ),
                a_selector: evm_sel_create_col as int,
                b_layer: rlp_layer_index as int,
                b_columns: cross_air_logup::run(COL_SENDER_LIMB_OFFSET as int, 4).push(
                    COL_NONCE as int,
                ),
                b_selector: COL_IS_REAL as int,
            },
        ),
{
    let a_columns: Vec<usize> = run_and(evm_frame_callee_l0_col, 4, evm_create_nonce_hint_col);
    let b_columns: Vec<usize> = run_and(COL_SENDER_LIMB_OFFSET, 4, COL_NONCE);
    CrossAirLogUpDescriptor {
        label: "evm_main_create_rlp_v1".to_string(),
        a_layer_index: evm_layer_index,
        a_columns,
        a_selector_column: Some(evm_sel_create_col),
        b_layer_index: rlp_layer_index,
        b_columns,
        b_selector_column: Some(COL_IS_REAL),
    }
}

/// A run of columns and one more.
fn run_and(from: usize, n: usize, last: usize) -> (r: Vec<usize>)
    requires
        from + n <= usize::MAX + 1,
        n <= usize::MAX,
    ensures
        cross_air_logup::indices(r@) == cross_air_logup::run(from as int, n as nat).push(
            last as int,
        ),
{
    let mut r: Vec<usize> = Vec::new();
    push_run(&mut r, from, n);
    assert(cross_air_logup::indices(r@) =~= cross_air_logup::run(from as int, n as nat));
    let ghost before = r@;
    r.push(last);
    assert(cross_air_logup::indices(r@) =~= cross_air_logup::indices(before).push(last as int));
    r
}

/// The hashed bytes and their length are an input of the Keccak table.
pub fn make_create_rlp_keccak_extract_input_linkage_descriptor(
    rlp_layer_index: usize,
    keccak_extract_layer_index: usize,
) -> (r: CrossAirLogUpDescriptor)
    ensures
        r.is(
            cross_air_logup::Link {
                label: "create_rlp_keccak_extract_input_v1"@,
                a_layer: rlp_layer_index as int,
                a_columns: cross_air_logup::run(
                    COL_RLP_BYTE_OFFSET as int,
                    RLP_BYTE_WIDTH as nat,
                ).push(COL_RLP_LEN as int),
                a_selector: COL_IS_REAL as int,
                b_layer: keccak_extract_layer_index as int,
                b_columns: cross_air_logup::run(
                    keccak_extract::COL_INPUT_BYTE_OFFSET as int,
                    keccak_extract::MAX_INPUT_LEN as nat,
                ).push(keccak_extract::COL_INPUT_LEN as int),
                b_selector: keccak_extract::COL_IS_REAL as int,
            },
        ),
{
    let a_columns: Vec<usize> = run_and(COL_RLP_BYTE_OFFSET, RLP_BYTE_WIDTH, COL_RLP_LEN);
    let b_columns: Vec<usize> = run_and(
        keccak_extract::COL_INPUT_BYTE_OFFSET,
        keccak_extract::MAX_INPUT_LEN,
        keccak_extract::COL_INPUT_LEN,
    );
    CrossAirLogUpDescriptor {
        label: "create_rlp_keccak_extract_input_v1".to_string(),
        a_layer_index: rlp_layer_index,
        a_columns,
        a_selector_column: Some(COL_IS_REAL),
        b_layer_index: keccak_extract_layer_index,
        b_columns,
        b_selector_column: Some(keccak_extract::COL_IS_REAL),
    }
}

// ─── What the table holds ─────────────────────────────────────────────

/// The bytes that are hashed, position by position: a list of 22 bytes, a
/// string of 20, and the nonce, where zero stands as an empty string.
pub proof fn law_rlp_bytes(sender: Seq<u8>, nonce: int)
    requires
        sender.len() == 20,
        0 <= nonce < 128,
    ensures
        rlp(sender, nonce).len() == 23,
        rlp(sender, nonce)[0] == 0xc0 + 22,
        rlp(sender, nonce)[1] == 0x80 + 20,
        forall|i: int| 2 <= i < 22 ==> #[trigger] rlp(sender, nonce)[i] == sender[i - 2],
        nonce == 0 ==> rlp(sender, nonce)[22] == 0x80,
        nonce > 0 ==> rlp(sender, nonce)[22] == nonce,
{
}

/// What the trace of a witness holds of an invocation: the bytes of the sender
/// and their limbs, the nonce with its bits and its inverse, and the bytes that
/// are hashed, filled up with zeros, with their length.
pub proof fn law_trace_holds_invocation(
    w: CreateRlpWitness,
    t: TracePolynomials,
    curve: CurveType,
    r: int,
)
    requires
        trace::holds(
            t,
            NUM_COLUMNS as nat,
            w.invocations.len() as nat,
            curve,
            cells(w.invocations@, curve),
        ),
        0 <= r < w.invocations.len(),
        w.invocations@[r].nonce < 128,
    ensures
        trace::string_at(t, COL_SENDER_BYTE_OFFSET as int, r, w.invocations@[r].sender@),
        trace::at(t, COL_SENDER_LIMB_OFFSET as int, r) == trace::bytes_at(t, 0, r),
        trace::at(t, COL_SENDER_LIMB_OFFSET + 1, r) == trace::bytes_at(t, 8, r),
        trace::at(t, COL_SENDER_LIMB_OFFSET + 2, r) == trace::at(t, 16, r) + 0x100 * trace::at(
            t,
            17,
            r,
        ) + 0x1_0000 * trace::at(t, 18, r) + 0x100_0000 * trace::at(t, 19, r),
        trace::at(t, COL_SENDER_LIMB_OFFSET + 3, r) == 0,
        trace::at(t, COL_NONCE as int, r) == w.invocations@[r].nonce,
        w.invocations@[r].nonce == 0 ==> trace::at(t, COL_NONCE_INV as int, r) == 0,
        w.invocations@[r].nonce > 0 ==> (w.invocations@[r].nonce * trace::at(
            t,
            COL_NONCE_INV as int,
            r,
        )) % field::order(curve) == 1,
        w.invocations@[r].nonce == 0 ==> trace::at(t, COL_NONCE_RLP_BYTE as int, r) == 0x80,
        w.invocations@[r].nonce > 0 ==> trace::at(t, COL_NONCE_RLP_BYTE as int, r)
            == w.invocations@[r].nonce,
        trace::at(t, COL_RLP_BYTE_OFFSET as int, r) == 0xd6,
        trace::at(t, COL_RLP_BYTE_OFFSET + 1, r) == 0x94,
        trace::string_at(t, COL_RLP_BYTE_OFFSET + 2, r, w.invocations@[r].sender@),
        trace::at(t, COL_RLP_BYTE_OFFSET + 22, r) == trace::at(t, COL_NONCE_RLP_BYTE as int, r),
        forall|c: int|
            COL_RLP_BYTE_OFFSET + 23 <= c < COL_RLP_LEN ==> #[trigger] trace::at(t, c, r) == 0,
        trace::at(t, COL_RLP_LEN as int, r) == 23,
        trace::at(t, COL_IS_REAL as int, r) == 1,
{
    trace::lemma_cells(
        t,
        NUM_COLUMNS as nat,
        w.invocations.len() as nat,
        curve,
        cells(w.invocations@, curve),
        r,
    );
    let o = w.invocations@[r];
    evm_address::law_limbs(o.sender@);
    law_rlp_bytes(o.sender@, o.nonce as int);
    if o.nonce > 0 {
        lemma_inverse_exists(o.nonce as int, curve);
    }
}

/// The bits of the nonce in the trace are bits, lowest first, and add up to it.
pub proof fn law_trace_holds_bits(
    w: CreateRlpWitness,
    t: TracePolynomials,
    curve: CurveType,
    r: int,
)
    requires
        trace::holds(
            t,
            NUM_COLUMNS as nat,
            w.invocations.len() as nat,
            curve,
            cells(w.invocations@, curve),
        ),
        0 <= r < w.invocations.len(),
        w.invocations@[r].nonce < 128,
    ensures
        ({
            let b = |k: int| trace::at(t, COL_NONCE_BIT_OFFSET + k, r);
            &&& forall|k: int| 0 <= k < 7 ==> 0 <= #[trigger] b(k) <= 1
            &&& w.invocations@[r].nonce == b(0) + 2 * b(1) + 4 * b(2) + 8 * b(3) + 16 * b(4) + 32
                * b(5) + 64 * b(6)
        }),
{
    trace::lemma_cells(
        t,
        NUM_COLUMNS as nat,
        w.invocations.len() as nat,
        curve,
        cells(w.invocations@, curve),
        r,
    );
    let n = w.invocations@[r].nonce as int;
    reveal_with_fuel(modular::ipow, 8);
    assert(trace::at(t, COL_NONCE_BIT_OFFSET + 0, r) == n % 2);
    assert(trace::at(t, COL_NONCE_BIT_OFFSET + 1, r) == n / 2 % 2);
    assert(trace::at(t, COL_NONCE_BIT_OFFSET + 2, r) == n / 4 % 2);
    assert(trace::at(t, COL_NONCE_BIT_OFFSET + 3, r) == n / 8 % 2);
    assert(trace::at(t, COL_NONCE_BIT_OFFSET + 4, r) == n / 16 % 2);
    assert(trace::at(t, COL_NONCE_BIT_OFFSET + 5, r) == n / 32 % 2);
    assert(trace::at(t, COL_NONCE_BIT_OFFSET + 6, r) == n / 64 % 2);
}

/// The value of each constraint on a row.
pub proof fn law_constraint_values(row: Seq<int>, ch: int)
    requires
        row.len() >= NUM_COLUMNS,
    ensures
        row_constraints().len() == 10,
        ({
            let v = |i: int| expr::ev(row_constraints()[i], row, Seq::empty(), ch);
            let x = row[COL_IS_REAL as int];
            let n = row[COL_NONCE as int];
            let p = n * row[COL_NONCE_INV as int];
            let b = |k: int| row[COL_NONCE_BIT_OFFSET + k];
            &&& v(0) == x * (x - 1)
            &&& v(1) == x * (row[20] - constraints::eight_bytes(row, 0))
            &&& v(2) == x * (row[21] - constraints::eight_bytes(row, 8))
            &&& v(3) == x * (row[22] - constraints::four_bytes(row, 16))
            &&& v(4) == x * row[23]
            &&& v(5) == poly_arith::peval(Seq::new(7, |k: int| b(k) * (b(k) - 1)), ch)
            &&& v(6) == b(0) + 2 * b(1) + 4 * b(2) + 8 * b(3) + 16 * b(4) + 32 * b(5) + 64 * b(6)
                - n
            &&& v(7) == n * (p - 1)
            &&& v(8) == x * (row[COL_NONCE_RLP_BYTE as int] - n - 0x80 * (1 - p))
        }),
        expr::ev(row_constraints()[9], row, Seq::empty(), ch) == row[COL_IS_REAL as int]
            * poly_arith::peval(
            Seq::new(
                257,
                |k: int|
                    if k == 0 {
                        row[34] - 0xd6
                    } else if k == 1 {
                        row[35] - 0x94
                    } else if k < 22 {
                        row[34 + k] - row[k - 2]
                    } else if k == 22 {
                        row[56] - row[COL_NONCE_RLP_BYTE as int]
                    } else if k < 256 {
                        row[34 + k]
                    } else {
                        row[COL_RLP_LEN as int] - 23
                    },
            ),
            ch,
        ),
{
    let e = Seq::<int>::empty();
    constraints::lemma_ev_binary(COL_IS_REAL, row, e, ch);
    lemma_limb_value(20, 0, 8, row, ch);
    lemma_limb_value(21, 8, 8, row, ch);
    lemma_limb_value(22, 16, 4, row, ch);
    constraints::lemma_ev_gated(COL_IS_REAL, Expr::Col(23), row, e, ch);
    lemma_nonce_values(row, ch);
    reveal_with_fuel(expr::ev, 2);
    let ts = rlp_terms();
    constraints::lemma_ev_gated(COL_IS_REAL, constraints::rlc_of(ts), row, e, ch);
    constraints::lemma_ev_rlc(ts, row, e, ch);
    lemma_term_values(row, ch);
    assert(Seq::new(257, |k: int| term_value(row, k)) =~= Seq::new(
        257,
        |k: int|
            if k == 0 {
                row[34] - 0xd6
            } else if k == 1 {
                row[35] - 0x94
            } else if k < 22 {
                row[34 + k] - row[k - 2]
            } else if k == 22 {
                row[56] - row[COL_NONCE_RLP_BYTE as int]
            } else if k < 256 {
                row[34 + k]
            } else {
                row[COL_RLP_LEN as int] - 23
            },
    ));
}

/// The values of the constraints on the nonce.
proof fn lemma_nonce_values(row: Seq<int>, ch: int)
    ensures
        ({
            let v = |i: int| expr::ev(row_constraints()[i], row, Seq::empty(), ch);
            let x = row[COL_IS_REAL as int];
            let n = row[COL_NONCE as int];
            let p = n * row[COL_NONCE_INV as int];
            let b = |k: int| row[COL_NONCE_BIT_OFFSET + k];
            &&& v(5) == poly_arith::peval(Seq::new(7, |k: int| b(k) * (b(k) - 1)), ch)
            &&& v(6) == b(0) + 2 * b(1) + 4 * b(2) + 8 * b(3) + 16 * b(4) + 32 * b(5) + 64 * b(6)
                - n
            &&& v(7) == n * (p - 1)
            &&& v(8) == x * (row[COL_NONCE_RLP_BYTE as int] - n - 0x80 * (1 - p))
        }),
{
    let e = Seq::<int>::empty();
    let b = |k: int| row[COL_NONCE_BIT_OFFSET + k];
    let ts = bit_terms();
    constraints::lemma_ev_rlc(ts, row, e, ch);
    let vs = constraints::denoted(ts, row, e, ch);
    assert forall|k: int| 0 <= k < 7 implies vs[k] == b(k) * (b(k) - 1) by {
        constraints::lemma_ev_binary((COL_NONCE_BIT_OFFSET + k) as usize, row, e, ch);
    }
    assert(vs =~= Seq::new(7, |k: int| b(k) * (b(k) - 1)));
    constraints::lemma_ev_weighted(COL_NONCE_BIT_OFFSET, 2, 7, row, e, ch);
    lemma_seven_bits(row);
    reveal_with_fuel(expr::ev, 6);
}

proof fn lemma_seven_bits(row: Seq<int>)
    ensures
        ({
            let b = |k: int| row[COL_NONCE_BIT_OFFSET + k];
            constraints::weighted_sum(row, COL_NONCE_BIT_OFFSET as int, 2, 7) == b(0) + 2 * b(1) + 4
                * b(2) + 8 * b(3) + 16 * b(4) + 32 * b(5) + 64 * b(6)
        }),
{
    reveal_with_fuel(modular::ipow, 8);
    assert(modular::ipow(2, 0) == 1);
    assert(modular::ipow(2, 1) == 2);
    assert(modular::ipow(2, 2) == 4);
    assert(modular::ipow(2, 3) == 8);
    assert(modular::ipow(2, 4) == 16);
    assert(modular::ipow(2, 5) == 32);
    assert(modular::ipow(2, 6) == 64);
    reveal_with_fuel(constraints::weighted_sum, 8);
}

proof fn lemma_limb_value(limb: usize, first: usize, n: nat, row: Seq<int>, ch: int)
    requires
        n == 8 || n == 4,
        first <= 100,
    ensures
        expr::ev(limb_of(limb, first, n), row, Seq::empty(), ch) == row[COL_IS_REAL as int] * (
        row[limb as int] - (if n == 8 {
            constraints::eight_bytes(row, first as int)
        } else {
            constraints::four_bytes(row, first as int)
        })),
{
    let e = Seq::<int>::empty();
    constraints::lemma_ev_weighted(first, 256, n, row, e, ch);
    constraints::lemma_weighted_bytes(row, first as int);
    reveal_with_fuel(expr::ev, 3);
}

} // verus!
