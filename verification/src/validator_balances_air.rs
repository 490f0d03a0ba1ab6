//! Columns of the validator balance table.

use vstd::prelude::*;

verus! {

pub const COL_VALIDATOR_INDEX: usize = 0;

pub const COL_EFFECTIVE_BALANCE: usize = 1;

pub const COL_CURRENT_BALANCE: usize = 2;

pub const COL_IS_REAL: usize = 3;

pub const NUM_COLUMNS: usize = 4;

} // verus!
