//! Columns of the deposit tree table.

use vstd::prelude::*;

verus! {

pub const COL_DEPOSIT_ROOT_OFFSET: usize = 0;

pub const COL_IS_TOP: usize = 32;

} // verus!
