//! Columns of the table of SHA-256 invocations.

use vstd::prelude::*;

verus! {

pub const COL_INPUT_BYTE_OFFSET: usize = 0;

pub const NUM_INPUT_BYTES: usize = 64;

pub const COL_OUTPUT_BYTE_OFFSET: usize = 64;

pub const NUM_OUTPUT_BYTES: usize = 32;

pub const COL_IS_REAL: usize = 96;

} // verus!
