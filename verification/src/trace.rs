//! Execution traces: columns of scalars, padded to a power of two.

use crate::field::{CurveType, Scalar};
use vstd::prelude::*;

verus! {

/// A column of a trace in evaluation form.
pub struct Polynomial {
    pub evaluations: Vec<Scalar>,
    pub degree: usize,
}

/// A trace, column by column.
pub struct TracePolynomials {
    pub columns: Vec<Polynomial>,
    pub num_rows: usize,
    pub padded_size: u64,
    pub curve: CurveType,
}

/// `n` is a power of two.
pub open spec fn is_power_of_two(n: nat) -> bool
    decreases n,
{
    n == 1 || (n > 1 && n % 2 == 0 && is_power_of_two(n / 2))
}

/// The smallest power of two that is at least `from` and not below `n`,
/// where `from` is a power of two.
pub open spec fn power_at_least(n: nat, from: nat) -> nat
    decreases (if n > from { n - from } else { 0 }),
{
    if from == 0 || n <= from {
        from
    } else {
        power_at_least(n, 2 * from)
    }
}

/// The padded length of a trace of `n` rows: the smallest power of two that
/// is not below `n`, and at least two.
pub open spec fn padded_length(n: nat) -> nat {
    power_at_least(n, 2)
}

/// Row counts whose padded length fits in a `usize`.
pub open spec fn paddable(n: nat) -> bool {
    n <= usize::MAX / 2 + 1
}

/// What [`padded_length`] is: a power of two, at least two and the row count,
/// and the smallest such number.
pub proof fn law_padded_length(n: nat, q: nat)
    ensures
        is_power_of_two(padded_length(n)),
        padded_length(n) >= 2,
        padded_length(n) >= n,
        is_power_of_two(q) && q >= 2 && q >= n ==> padded_length(n) <= q,
{
    assert(is_power_of_two(1));
    assert(is_power_of_two(2));
    lemma_power_at_least(n, 2, q);
}

proof fn lemma_power_at_least(n: nat, from: nat, q: nat)
    requires
        is_power_of_two(from),
    ensures
        is_power_of_two(power_at_least(n, from)),
        power_at_least(n, from) >= from,
        power_at_least(n, from) >= n,
        is_power_of_two(q) && q >= from && q >= n ==> power_at_least(n, from) <= q,
    decreases (if n > from { n - from } else { 0 }),
{
    lemma_power_positive(from);
    if n > from {
        assert((2 * from) / 2 == from);
        assert(is_power_of_two(2 * from));
        lemma_power_at_least(n, 2 * from, q);
        if is_power_of_two(q) && q >= n {
            lemma_power_gap(from, q);
        }
    }
}

proof fn lemma_power_positive(n: nat)
    requires
        is_power_of_two(n),
    ensures
        n >= 1,
{
}

/// Between a power of two and its double there is no other.
proof fn lemma_power_gap(a: nat, b: nat)
    requires
        is_power_of_two(a),
        is_power_of_two(b),
        a < b,
    ensures
        2 * a <= b,
    decreases a,
{
    if a == 1 {
    } else {
        assert(b > 1);
        lemma_power_gap(a / 2, b / 2);
    }
}

/// Smallest power of two that is not below `n`, and at least two.
pub fn nearest_power_of_two(n: usize) -> (r: usize)
    requires
        paddable(n as nat),
    ensures
        r == padded_length(n as nat),
        r >= 2,
        r >= n,
{
    let mut p: usize = 2;
    while p < n
        invariant
            p >= 2,
            paddable(n as nat),
            power_at_least(n as nat, p as nat) == padded_length(n as nat),
        decreases (if n > p { n - p } else { 0 }),
    {
        p = p * 2;
    }
    p
}

/// What a trace holds: `columns` columns of padded length, where the cell in
/// column `c` and row `r` is `cell(c, r)` on the real rows and zero below
/// them.
pub open spec fn holds(
    t: TracePolynomials,
    columns: nat,
    rows: nat,
    curve: CurveType,
    cell: spec_fn(int, int) -> int,
) -> bool {
    &&& t.columns.len() == columns
    &&& t.num_rows == rows
    &&& t.padded_size == padded_length(rows)
    &&& t.curve == curve
    &&& forall|c: int|
        0 <= c < columns ==> (#[trigger] t.columns@[c]).degree == rows
            && t.columns@[c].evaluations.len() == padded_length(rows)
    &&& forall|c: int, r: int|
        0 <= c < columns && 0 <= r < padded_length(rows) ==> {
            &&& (#[trigger] t.columns@[c].evaluations@[r]).curve() == curve
            &&& t.columns@[c].evaluations@[r]@ == if r < rows {
                cell(c, r)
            } else {
                0
            }
        }
}

/// Row `r` of a trace with the given cells.
pub open spec fn row_of(
    columns: nat,
    rows: nat,
    cell: spec_fn(int, int) -> int,
    r: int,
) -> Seq<int> {
    Seq::new(
        columns,
        |c: int|
            if r < rows {
                cell(c, r)
            } else {
                0
            },
    )
}

/// The columns are those of the trace.
pub open spec fn columns_of(t: TracePolynomials, columns: Seq<&Vec<Scalar>>) -> bool {
    columns.len() == t.columns.len() && forall|c: int|
        0 <= c < columns.len() ==> (#[trigger] columns[c])@ == t.columns@[c].evaluations@
}

/// The rows of the columns of a trace.
pub proof fn lemma_trace_rows(
    t: TracePolynomials,
    columns: Seq<&Vec<Scalar>>,
    width: nat,
    rows: nat,
    curve: CurveType,
    cell: spec_fn(int, int) -> int,
    r: int,
)
    requires
        holds(t, width, rows, curve, cell),
        columns_of(t, columns),
        0 <= r < padded_length(rows),
    ensures
        crate::expr::row_values(columns, r) == row_of(width, rows, cell, r),
{
    let a = crate::expr::row_values(columns, r);
    let b = row_of(width, rows, cell, r);
    assert forall|c: int| 0 <= c < width implies a[c] == b[c] by {
        assert(columns[c]@ == t.columns@[c].evaluations@);
        assert(t.columns@[c].evaluations@[r].curve() == curve);
    }
    assert(a =~= b);
}

/// The rows of a trace, each with one scalar per column.
pub open spec fn rows_hold(
    rows: Seq<Vec<Scalar>>,
    columns: nat,
    curve: CurveType,
    cell: spec_fn(int, int) -> int,
) -> bool {
    &&& forall|r: int| 0 <= r < rows.len() ==> (#[trigger] rows[r]).len() == columns
    &&& forall|r: int, c: int|
        0 <= r < rows.len() && 0 <= c < columns ==> (#[trigger] rows[r]@[c]).curve() == curve
            && rows[r]@[c]@ == cell(c, r)
}

/// Turns rows into padded columns.
pub(crate) fn trace_from_rows(
    rows: &Vec<Vec<Scalar>>,
    columns: usize,
    curve: CurveType,
    Ghost(cell): Ghost<spec_fn(int, int) -> int>,
) -> (t: TracePolynomials)
    requires
        paddable(rows.len() as nat),
        rows_hold(rows@, columns as nat, curve, cell),
    ensures
        holds(t, columns as nat, rows.len() as nat, curve, cell),
{
    let num_rows: usize = rows.len();
    let padded: usize = nearest_power_of_two(num_rows);
    let mut cols: Vec<Polynomial> = Vec::with_capacity(columns);
    let mut c: usize = 0;
    while c < columns
        invariant
            c <= columns,
            num_rows == rows.len(),
            padded == padded_length(num_rows as nat),
            padded >= num_rows,
            rows_hold(rows@, columns as nat, curve, cell),
            cols.len() == c,
            forall|k: int|
                0 <= k < c ==> (#[trigger] cols@[k]).degree == num_rows
                    && cols@[k].evaluations.len() == padded,
            forall|k: int, r: int|
                0 <= k < c && 0 <= r < padded ==> {
                    &&& (#[trigger] cols@[k].evaluations@[r]).curve() == curve
                    &&& cols@[k].evaluations@[r]@ == if r < num_rows {
                        cell(k, r)
                    } else {
                        0
                    }
                },
        decreases columns - c,
    {
        let mut evaluations: Vec<Scalar> = Vec::with_capacity(padded);
        let mut r: usize = 0;
        while r < padded
            invariant
                r <= padded,
                c < columns,
                num_rows == rows.len(),
                rows_hold(rows@, columns as nat, curve, cell),
                evaluations.len() == r,
                forall|k: int|
                    0 <= k < r ==> {
                        &&& (#[trigger] evaluations@[k]).curve() == curve
                        &&& evaluations@[k]@ == if k < num_rows {
                            cell(c as int, k)
                        } else {
                            0
                        }
                    },
            decreases padded - r,
        {
            if r < num_rows {
                assert(rows@[r as int].len() == columns);
                let x: Scalar = rows[r][c];
                assert(rows@[r as int]@[c as int].curve() == curve);
                evaluations.push(x);
            } else {
                evaluations.push(Scalar::zero(curve));
            }
            r = r + 1;
        }
        let ghost before = cols@;
        cols.push(Polynomial { evaluations, degree: num_rows });
        assert(forall|k: int| 0 <= k < c ==> cols@[k] == before[k]);
        c = c + 1;
    }
    TracePolynomials { columns: cols, num_rows, padded_size: padded as u64, curve }
}

/// The number in column `c` and row `r`.
pub open spec fn at(t: TracePolynomials, c: int, r: int) -> int {
    t.columns@[c].evaluations@[r]@
}

/// The number whose little-endian bytes are the eight cells from column `c`.
pub open spec fn bytes_at(t: TracePolynomials, c: int, r: int) -> int {
    at(t, c, r) + 0x100 * at(t, c + 1, r) + 0x1_0000 * at(t, c + 2, r) + 0x100_0000 * at(
        t,
        c + 3,
        r,
    ) + 0x1_0000_0000 * at(t, c + 4, r) + 0x100_0000_0000 * at(t, c + 5, r)
        + 0x1_0000_0000_0000 * at(t, c + 6, r) + 0x100_0000_0000_0000 * at(t, c + 7, r)
}

/// The cells from column `c` are the bytes `s`.
pub open spec fn string_at(t: TracePolynomials, c: int, r: int, s: Seq<u8>) -> bool {
    forall|k: int| 0 <= k < s.len() ==> at(t, #[trigger] (c + k), r) == s[k]
}

/// The cells of `n` columns from column `c` are bytes.
pub open spec fn byte_cells(t: TracePolynomials, c: int, r: int, n: int) -> bool {
    forall|k: int| 0 <= k < n ==> 0 <= at(t, #[trigger] (c + k), r) < 256
}

/// A trace has as many columns as it should, each of a length that is a power
/// of two with room for all rows, all on one curve, and zero below the rows.
pub proof fn law_padding_is_zero(
    t: TracePolynomials,
    columns: nat,
    rows: nat,
    curve: CurveType,
    cell: spec_fn(int, int) -> int,
    c: int,
    r: int,
)
    requires
        holds(t, columns, rows, curve, cell),
        0 <= c < columns,
        0 <= r < t.columns@[c].evaluations.len(),
    ensures
        t.columns.len() == columns,
        t.num_rows == rows,
        t.curve == curve,
        t.padded_size == t.columns@[c].evaluations.len(),
        is_power_of_two(t.padded_size as nat),
        t.padded_size >= rows,
        t.padded_size >= 2,
        rows >= 2 ==> t.padded_size < 2 * rows,
        t.columns@[c].degree == rows,
        t.columns@[c].evaluations@[r].curve() == curve,
        r >= rows ==> at(t, c, r) == 0,
{
    law_padded_length(rows, rows);
    assert(t.columns@[c].evaluations.len() == padded_length(rows));
    assert(t.columns@[c].evaluations@[r].curve() == curve);
    if rows >= 2 {
        lemma_padding_is_short(rows, 2);
    }
}

proof fn lemma_padding_is_short(n: nat, from: nat)
    requires
        n >= 2,
        from > 0,
        from < 2 * n,
    ensures
        power_at_least(n, from) < 2 * n,
    decreases (if n > from { n - from } else { 0 }),
{
    if n > from {
        lemma_padding_is_short(n, 2 * from);
    }
}

/// The cells of a row are those that the trace should hold.
pub proof fn lemma_cells(
    t: TracePolynomials,
    columns: nat,
    rows: nat,
    curve: CurveType,
    cell: spec_fn(int, int) -> int,
    r: int,
)
    requires
        holds(t, columns, rows, curve, cell),
        0 <= r < rows,
    ensures
        forall|c: int| 0 <= c < columns ==> #[trigger] at(t, c, r) == cell(c, r),
{
    law_padded_length(rows, rows);
    assert forall|c: int| 0 <= c < columns implies #[trigger] at(t, c, r) == cell(c, r) by {
        assert(t.columns@[c].evaluations@[r].curve() == curve);
    }
}

} // verus!
