//! Range lookups that accompany a constraint system.

use crate::label;
use vstd::prelude::*;
use vstd::string::*;

verus! {

/// A table of the integers below a bound.
#[derive(Clone, Copy, Debug, PartialEq, Eq)]
pub struct LookupTable {
    pub size: u64,
}

impl LookupTable {
    /// The table of `0..size`.
    pub fn range(size: u64) -> (r: Self)
        ensures
            r.size == size,
    {
        LookupTable { size }
    }
}

/// One column whose cells lie in a table.
#[derive(Clone, Debug)]
pub struct LookupDeclaration {
    pub label: String,
    pub column_index: usize,
    pub max_bits: u32,
    pub selector_column: Option<usize>,
}

/// The tables that a constraint system uses, and which column goes with which
/// table.
#[derive(Clone, Debug)]
pub struct LookupRequirements {
    pub tables: Vec<LookupTable>,
    pub declarations: Vec<(LookupDeclaration, usize)>,
}

impl LookupRequirements {
    /// No lookups.
    pub fn none() -> (r: Self)
        ensures
            r.tables.len() == 0,
            r.declarations.len() == 0,
    {
        LookupRequirements { tables: Vec::new(), declarations: Vec::new() }
    }
}

/// The declaration that column `column` holds bytes, with entry `k` of the
/// range `name` in its label.
pub open spec fn is_byte_declaration(
    d: (LookupDeclaration, usize),
    name: Seq<char>,
    k: nat,
    column: int,
) -> bool {
    &&& d.0.label@ == name + "_"@ + label::decimal(k) + "_8bit"@
    &&& d.0.column_index == column
    &&& d.0.max_bits == 8
    &&& d.0.selector_column == None::<usize>
    &&& d.1 == 0
}

/// Declares that a column holds bytes.
pub fn byte_declaration(name: &str, k: usize, column: usize) -> (r: (LookupDeclaration, usize))
    ensures
        is_byte_declaration(r, name@, k as nat, column as int),
{
    let mut text: String = name.to_string();
    text.append("_");
    text.append(label::decimal_string(k as u64).as_str());
    text.append("_8bit");
    (
        LookupDeclaration { label: text, column_index: column, max_bits: 8, selector_column: None },
        0,
    )
}

/// A named range of byte columns: label, first column and length.
pub open spec fn range_declared(
    ds: Seq<(LookupDeclaration, usize)>,
    at: int,
    range: (Seq<char>, int, int),
) -> bool {
    forall|k: int|
        0 <= k < range.2 ==> is_byte_declaration(
            #[trigger] ds[at + k],
            range.0,
            k as nat,
            range.1 + k,
        )
}

/// The number of columns in the first `n` ranges.
pub open spec fn columns_before(ranges: Seq<(Seq<char>, int, int)>, n: nat) -> int
    decreases n,
{
    if n == 0 {
        0
    } else {
        columns_before(ranges, (n - 1) as nat) + ranges[n - 1].2
    }
}

/// The requirements hold the table of bytes and one declaration per column of
/// the ranges, range after range.
pub open spec fn declares_bytes(
    r: LookupRequirements,
    ranges: Seq<(Seq<char>, int, int)>,
) -> bool {
    &&& r.tables.len() == 1
    &&& r.tables@[0].size == 256
    &&& r.declarations.len() == columns_before(ranges, ranges.len())
    &&& forall|i: int|
        0 <= i < ranges.len() ==> range_declared(
            r.declarations@,
            columns_before(ranges, i as nat),
            #[trigger] ranges[i],
        )
}

proof fn lemma_columns_before(ranges: Seq<(Seq<char>, int, int)>, i: nat, j: nat)
    requires
        i <= j <= ranges.len(),
        forall|k: int| 0 <= k < ranges.len() ==> 0 <= (#[trigger] ranges[k]).2,
    ensures
        0 <= columns_before(ranges, i) <= columns_before(ranges, j),
    decreases j,
{
    if j > 0 {
        assert(0 <= ranges[j - 1].2);
        if i < j {
            lemma_columns_before(ranges, i, (j - 1) as nat);
        } else {
            lemma_columns_before(ranges, (j - 1) as nat, (j - 1) as nat);
        }
    }
}

/// Declares ranges of byte columns.
pub(crate) fn byte_lookups(
    names: &[&'static str],
    offsets: &[usize],
    lengths: &[usize],
    Ghost(ranges): Ghost<Seq<(Seq<char>, int, int)>>,
) -> (r: LookupRequirements)
    requires
        names.len() == ranges.len(),
        offsets.len() == ranges.len(),
        lengths.len() == ranges.len(),
        forall|i: int|
            0 <= i < ranges.len() ==> (#[trigger] ranges[i]) == (
                names@[i]@,
                offsets@[i] as int,
                lengths@[i] as int,
            ) && lengths@[i] <= 32 && offsets@[i] <= 1000,
    ensures
        declares_bytes(r, ranges),
{
    let mut tables: Vec<LookupTable> = Vec::with_capacity(1);
    tables.push(LookupTable::range(256));
    let mut declarations: Vec<(LookupDeclaration, usize)> = Vec::new();
    let mut i: usize = 0;
    while i < names.len()
        invariant
            i <= names.len(),
            names.len() == ranges.len(),
            offsets.len() == ranges.len(),
            lengths.len() == ranges.len(),
            forall|k: int|
                0 <= k < ranges.len() ==> (#[trigger] ranges[k]) == (
                    names@[k]@,
                    offsets@[k] as int,
                    lengths@[k] as int,
                ) && lengths@[k] <= 32 && offsets@[k] <= 1000,
            declarations.len() == columns_before(ranges, i as nat),
            forall|k: int|
                0 <= k < i ==> range_declared(
                    declarations@,
                    columns_before(ranges, k as nat),
                    #[trigger] ranges[k],
                ),
        decreases names.len() - i,
    {
        let ghost before = declarations@;
        let ghost base = columns_before(ranges, i as nat);
        assert(ranges[i as int] == (names@[i as int]@, offsets@[i as int] as int, lengths@[i as int] as int));
        let name: &'static str = names[i];
        let offset: usize = offsets[i];
        let length: usize = lengths[i];
        let mut k: usize = 0;
        while k < length
            invariant
                k <= length,
                length <= 32,
                offset <= 1000,
                base == before.len(),
                declarations.len() == base + k,
                forall|j: int| 0 <= j < before.len() ==> declarations@[j] == before[j],
                forall|j: int|
                    0 <= j < k ==> is_byte_declaration(
                        #[trigger] declarations@[base + j],
                        name@,
                        j as nat,
                        offset + j,
                    ),
            decreases length - k,
        {
            let ghost entry = declarations@;
            declarations.push(byte_declaration(name, k, offset + k));
            assert(forall|j: int| 0 <= j < entry.len() ==> declarations@[j] == entry[j]);
            k = k + 1;
        }
        proof {
            assert forall|j: int| 0 <= j < i + 1 implies range_declared(
                declarations@,
                columns_before(ranges, j as nat),
                #[trigger] ranges[j],
            ) by {
                if j < i {
                    let at = columns_before(ranges, j as nat);
                    lemma_columns_before(ranges, (j + 1) as nat, i as nat);
                    lemma_columns_before(ranges, j as nat, j as nat);
                    assert forall|q: int| 0 <= q < ranges[j].2 implies is_byte_declaration(
                        #[trigger] declarations@[at + q],
                        ranges[j].0,
                        q as nat,
                        ranges[j].1 + q,
                    ) by {
                        assert(is_byte_declaration(
                            before[at + q],
                            ranges[j].0,
                            q as nat,
                            ranges[j].1 + q,
                        ));
                        assert(declarations@[at + q] == before[at + q]);
                    }
                }
            }
        }
        i = i + 1;
    }
    LookupRequirements { tables, declarations }
}

} // verus!
