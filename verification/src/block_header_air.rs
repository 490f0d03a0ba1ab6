//! Columns of the execution block header table.

use vstd::prelude::*;

verus! {

pub const COL_BLOCK_HASH_OFFSET: usize = 0;

pub const COL_IS_REAL: usize = 32;

} // verus!
