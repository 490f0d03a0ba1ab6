//! Columns of the attester slashing table.

use vstd::prelude::*;

verus! {

pub const COL_ATTESTING_INDICES_1_OFFSET: usize = 0;

pub const COL_INTERSECTION_COUNT: usize = 1;

pub const COL_IS_REAL: usize = 2;

pub const NUM_COLUMNS: usize = 3;

} // verus!
