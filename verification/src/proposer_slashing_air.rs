//! Columns of the proposer slashing table.

use vstd::prelude::*;

verus! {

pub const COL_PROPOSER_INDEX_1: usize = 0;

pub const COL_BODY_ROOT_DIFF_INV: usize = 1;

pub const COL_IS_REAL: usize = 2;

pub const NUM_COLUMNS: usize = 3;

} // verus!
