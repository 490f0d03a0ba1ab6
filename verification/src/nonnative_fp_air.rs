//! Columns of the table of base field operations.

use vstd::prelude::*;

verus! {

pub const LIMBS_PER_FP: usize = 6;

pub const COL_A_OFFSET: usize = 0;

pub const COL_B_OFFSET: usize = 6;

pub const COL_R_OFFSET: usize = 12;

pub const COL_SEL_MUL: usize = 18;

pub const NUM_NONNATIVE_FP_COLUMNS: usize = 19;

} // verus!
