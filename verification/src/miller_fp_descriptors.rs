//! Links to the table of base field multiplications.

use crate::cross_air_logup;
use crate::cross_air_logup::{column_run, push_run, CrossAirLogUpDescriptor};
use crate::nonnative_fp_air;
use vstd::prelude::*;

verus! {

/// The link of one multiplication: six limbs each of the factors from columns
/// `a_base` and `b_base` and of the product from column `c_base`.
pub open spec fn fp_mul_link(
    a_base: int,
    b_base: int,
    c_base: int,
    selector: int,
    label: Seq<char>,
    layer: int,
    nonnative_layer: int,
) -> cross_air_logup::Link {
    cross_air_logup::Link {
        label,
        a_layer: nonnative_layer,
        a_columns: cross_air_logup::run(nonnative_fp_air::COL_A_OFFSET as int, 6)
            + cross_air_logup::run(nonnative_fp_air::COL_B_OFFSET as int, 6) + cross_air_logup::run(
            nonnative_fp_air::COL_R_OFFSET as int,
            6,
        ),
        a_selector: nonnative_fp_air::COL_SEL_MUL as int,
        b_layer: layer,
        b_columns: cross_air_logup::run(a_base, 6) + cross_air_logup::run(b_base, 6)
            + cross_air_logup::run(c_base, 6),
        b_selector: selector,
    }
}

/// Links one multiplication of a trace to the table of multiplications.
pub fn make_fp_mul_descriptor(
    a_base: usize,
    b_base: usize,
    c_base: usize,
    selector_column: usize,
    label: String,
    layer_index: usize,
    nonnative_fp_layer_index: usize,
) -> (r: CrossAirLogUpDescriptor)
    requires
        a_base + 5 <= usize::MAX,
        b_base + 5 <= usize::MAX,
        c_base + 5 <= usize::MAX,
    ensures
        r.is(
            fp_mul_link(
                a_base as int,
                b_base as int,
                c_base as int,
                selector_column as int,
                label@,
                layer_index as int,
                nonnative_fp_layer_index as int,
            ),
        ),
{
    let mut a_columns: Vec<usize> = column_run(
        nonnative_fp_air::COL_A_OFFSET,
        nonnative_fp_air::LIMBS_PER_FP,
    );
    push_run(&mut a_columns, nonnative_fp_air::COL_B_OFFSET, nonnative_fp_air::LIMBS_PER_FP);
    push_run(&mut a_columns, nonnative_fp_air::COL_R_OFFSET, nonnative_fp_air::LIMBS_PER_FP);
    let mut b_columns: Vec<usize> = column_run(a_base, nonnative_fp_air::LIMBS_PER_FP);
    push_run(&mut b_columns, b_base, nonnative_fp_air::LIMBS_PER_FP);
    push_run(&mut b_columns, c_base, nonnative_fp_air::LIMBS_PER_FP);
    CrossAirLogUpDescriptor {
        label,
        a_layer_index: nonnative_fp_layer_index,
        a_columns,
        a_selector_column: Some(nonnative_fp_air::COL_SEL_MUL),
        b_layer_index: layer_index,
        b_columns,
        b_selector_column: Some(selector_column),
    }
}

} // verus!
