//! Columns of the Miller loop table.

use vstd::prelude::*;

verus! {

pub const COL_ACC_POST_OFFSET: usize = 0;

pub const COL_IS_DOUBLING: usize = 72;

} // verus!
