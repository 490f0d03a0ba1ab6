//! Columns of the table of Keccak invocations.

use vstd::prelude::*;

verus! {

pub const MAX_INPUT_LEN: usize = 256;

pub const COL_INPUT_BYTE_OFFSET: usize = 0;

pub const COL_INPUT_LEN: usize = 256;

pub const COL_IS_REAL: usize = 257;

} // verus!
