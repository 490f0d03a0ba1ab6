use zkp::cross_air_logup::CrossAirLogUpDescriptor;
use zkp::final_exp_air as fe;
use zkp::final_exp_descriptors::{
    FINAL_EXP_EASY_TOTAL_MULTS, FINAL_EXP_EASY_WIRED_MULTS, FINAL_EXP_GRANGER_SCOTT_TOTAL_MULTS,
    FINAL_EXP_GRANGER_SCOTT_WIRED_MULTS, FINAL_EXP_HARD_TOTAL_MULTS, FINAL_EXP_HARD_WIRED_MULTS,
    FinalExpEasyDescriptors, FinalExpGrangerScottDescriptors, FinalExpHardDescriptors,
    make_final_exp_fp_mul_descriptor, make_final_exp_granger_scott_cyclotomic_square_descriptors,
};
use zkp::nonnative_fp_air as nfp;

fn assert_18_18_tuple_shape(d: &CrossAirLogUpDescriptor) {
    assert_eq!(
        d.a_columns.len(),
        3 * nfp::LIMBS_PER_FP,
        "A-side must be 3 Fp limb-groups = 18 columns",
    );
    assert_eq!(
        d.b_columns.len(),
        3 * fe::LIMBS_PER_FP,
        "B-side must be 3 Fp limb-groups = 18 columns",
    );
    assert_eq!(d.a_columns.len(), d.b_columns.len());
    assert_eq!(d.a_selector_column, Some(nfp::COL_SEL_MUL));

    for j in 0..nfp::LIMBS_PER_FP {
        assert_eq!(d.a_columns[j], nfp::COL_A_OFFSET + j);
        assert_eq!(d.a_columns[nfp::LIMBS_PER_FP + j], nfp::COL_B_OFFSET + j);
        assert_eq!(d.a_columns[2 * nfp::LIMBS_PER_FP + j], nfp::COL_R_OFFSET + j);
    }
}

#[test]
fn easy_descriptors_cumulative_count() {
    let set = FinalExpEasyDescriptors::build(1, 0);
    assert_eq!(set.wired_count(), FINAL_EXP_EASY_WIRED_MULTS);
    assert_eq!(
        set.descriptors.len(),
        410,
        "easy descriptor count must be exactly 410 (got {})",
        set.descriptors.len(),
    );
    for d in &set.descriptors {
        assert_18_18_tuple_shape(d);
        assert_eq!(d.b_selector_column, Some(fe::COL_IS_EASY_STEP));
        assert_eq!(d.a_layer_index, 0, "A side = nonnative_fp_air layer");
        assert_eq!(d.b_layer_index, 1, "B side = final_exp_air layer");
    }
    let (wired, total) = set.coverage();
    assert_eq!(wired, FINAL_EXP_EASY_WIRED_MULTS);
    assert_eq!(total, FINAL_EXP_EASY_TOTAL_MULTS);
    assert_eq!(
        wired, total,
        "the easy part must be covered in full",
    );
}

#[test]
fn hard_descriptors_cumulative_count() {
    let set = FinalExpHardDescriptors::build(1, 0);
    assert_eq!(set.wired_count(), FINAL_EXP_HARD_WIRED_MULTS);
    assert_eq!(
        set.descriptors.len(),
        808,
        "hard descriptor count must be exactly 808 (got {})",
        set.descriptors.len(),
    );
    for d in &set.descriptors {
        assert_18_18_tuple_shape(d);
        assert_eq!(d.b_selector_column, Some(fe::COL_IS_HARD_STEP));
        assert_eq!(d.a_layer_index, 0);
        assert_eq!(d.b_layer_index, 1);
    }
    let (wired, total) = set.coverage();
    assert_eq!(wired, FINAL_EXP_HARD_WIRED_MULTS);
    assert_eq!(total, FINAL_EXP_HARD_TOTAL_MULTS);
    assert_eq!(
        wired, total,
        "the hard part must be covered in full",
    );
}

#[test]
fn combined_descriptor_cumulative_count() {
    let easy = FinalExpEasyDescriptors::build(1, 0);
    let hard = FinalExpHardDescriptors::build(1, 0);
    let total_wired = easy.wired_count() + hard.wired_count();
    assert_eq!(
        total_wired, 1218,
        "combined wired count must be exactly 1218 (got {})",
        total_wired,
    );
    assert_eq!(
        total_wired,
        FINAL_EXP_EASY_WIRED_MULTS + FINAL_EXP_HARD_WIRED_MULTS,
    );

    let total_full = FINAL_EXP_EASY_TOTAL_MULTS + FINAL_EXP_HARD_TOTAL_MULTS;
    let coverage_bps = (total_wired * 10_000) / total_full;
    assert_eq!(
        coverage_bps, 10_000,
        "combined coverage must be exactly 100.00% \
         (got {}.{:02}%; {} / {})",
        coverage_bps / 100,
        coverage_bps % 100,
        total_wired,
        total_full,
    );
}

#[test]
fn phase_coverage_cumulative_over_fifty_percent() {
    let easy = FinalExpEasyDescriptors::build(1, 0);
    let hard = FinalExpHardDescriptors::build(1, 0);
    let total_wired = easy.wired_count() + hard.wired_count();
    let total_full = FINAL_EXP_EASY_TOTAL_MULTS + FINAL_EXP_HARD_TOTAL_MULTS;

    let coverage_bps = (total_wired * 10_000) / total_full;
    assert!(
        coverage_bps >= 4_900,
        "phase coverage must be at least 49.00% (got {}.{:02}%; {} / {})",
        coverage_bps / 100,
        coverage_bps % 100,
        total_wired,
        total_full,
    );

    assert!(
        total_wired >= 600,
        "phase coverage requires at least 600 wired Fp mults (got {})",
        total_wired,
    );

    let count_easy_new = |prefix: &str| -> usize {
        easy.descriptors.iter().filter(|d| d.label.starts_with(prefix)).count()
    };
    let count_hard_new = |prefix: &str| -> usize {
        hard.descriptors.iter().filter(|d| d.label.starts_with(prefix)).count()
    };
    for prefix in [
        "final_exp_easy_a13_",
        "final_exp_easy_a14_",
        "final_exp_easy_a15_",
        "final_exp_easy_a16_",
        "final_exp_easy_a17_",
        "final_exp_easy_a18_",
        "final_exp_easy_a19_",
        "final_exp_easy_a20_",
    ] {
        assert!(
            count_easy_new(prefix) > 0,
            "easy phase {} must be populated",
            prefix,
        );
    }
    for prefix in [
        "final_exp_hard_b13_",
        "final_exp_hard_b14_",
        "final_exp_hard_b15_",
        "final_exp_hard_b16_",
        "final_exp_hard_b17_",
        "final_exp_hard_b18_",
        "final_exp_hard_b19_",
        "final_exp_hard_b20_",
        "final_exp_hard_b21_",
        "final_exp_hard_b22_",
    ] {
        assert!(
            count_hard_new(prefix) > 0,
            "hard phase {} must be populated",
            prefix,
        );
    }
}

#[test]
fn all_descriptors_have_matching_tuple_shapes() {
    let easy = FinalExpEasyDescriptors::build(1, 0);
    let hard = FinalExpHardDescriptors::build(1, 0);

    let mut all: Vec<&CrossAirLogUpDescriptor> = Vec::new();
    for d in &easy.descriptors {
        all.push(d);
    }
    for d in &hard.descriptors {
        all.push(d);
    }
    assert_eq!(
        all.len(),
        FINAL_EXP_EASY_WIRED_MULTS + FINAL_EXP_HARD_WIRED_MULTS,
    );

    for d in &all {
        assert_18_18_tuple_shape(d);
        assert_eq!(d.a_layer_index, 0);
        assert_eq!(d.b_layer_index, 1);
        assert!(d.b_selector_column.is_some());

        for &col in &d.b_columns {
            assert!(
                col < fe::NUM_COLUMNS,
                "B-side column {} exceeds final_exp_air NUM_COLUMNS = {}",
                col,
                fe::NUM_COLUMNS,
            );
        }
        for &col in &d.a_columns {
            assert!(
                col < nfp::NUM_NONNATIVE_FP_COLUMNS,
                "A-side column {} exceeds nonnative_fp_air NUM_NONNATIVE_FP_COLUMNS = {}",
                col,
                nfp::NUM_NONNATIVE_FP_COLUMNS,
            );
        }
    }
}

#[test]
fn all_descriptor_labels_are_distinct() {
    let easy = FinalExpEasyDescriptors::build(1, 0);
    let hard = FinalExpHardDescriptors::build(1, 0);
    let mut labels: Vec<String> = easy
        .descriptors
        .iter()
        .chain(hard.descriptors.iter())
        .map(|d| d.label.clone())
        .collect();
    let total = labels.len();
    labels.sort();
    labels.dedup();
    assert_eq!(
        labels.len(),
        total,
        "all {} descriptor labels across FinalExpEasyDescriptors and \
         FinalExpHardDescriptors must be distinct (found {} unique)",
        total,
        labels.len(),
    );
}

#[test]
fn reexported_primitive_builds_well_formed_descriptor() {
    let d = make_final_exp_fp_mul_descriptor(
        fe::COL_F_PRE_OFFSET,
        fe::COL_F_EASY_OUT_OFFSET,
        fe::COL_F_HARD_OUT_OFFSET,
        fe::COL_IS_EASY_STEP,
        "test_final_exp_fp_mul_v1".to_string(),
        1,
        0,
    );
    assert_eq!(d.label, "test_final_exp_fp_mul_v1");
    assert_eq!(d.a_layer_index, 0);
    assert_eq!(d.b_layer_index, 1);
    assert_eq!(d.b_selector_column, Some(fe::COL_IS_EASY_STEP));
    assert_18_18_tuple_shape(&d);

    for j in 0..fe::LIMBS_PER_FP {
        assert_eq!(d.b_columns[j], fe::COL_F_PRE_OFFSET + j);
        assert_eq!(
            d.b_columns[fe::LIMBS_PER_FP + j],
            fe::COL_F_EASY_OUT_OFFSET + j,
        );
        assert_eq!(
            d.b_columns[2 * fe::LIMBS_PER_FP + j],
            fe::COL_F_HARD_OUT_OFFSET + j,
        );
    }
}

#[test]
fn phase_b2_b3_b4_coverage() {
    let hard = FinalExpHardDescriptors::build(1, 0);

    let count_with_prefix = |prefix: &str| -> usize {
        hard.descriptors
            .iter()
            .filter(|d| d.label.starts_with(prefix))
            .count()
    };

    let b2 = count_with_prefix("final_exp_hard_b2_");
    let b3 = count_with_prefix("final_exp_hard_b3_");
    let b4 = count_with_prefix("final_exp_hard_b4_");

    assert_eq!(b2, 12, "phase B2 must contribute 12 descriptors (got {})", b2);
    assert_eq!(b3, 12, "phase B3 must contribute 12 descriptors (got {})", b3);
    assert_eq!(b4, 12, "phase B4 must contribute 12 descriptors (got {})", b4);

    let b1 = count_with_prefix("final_exp_hard_b1_");
    let b5 = count_with_prefix("final_exp_hard_b5_");
    assert_eq!(b1, 6, "phase B1 must contribute 6 descriptors (got {})", b1);
    assert_eq!(b5, 6, "phase B5 must contribute 6 descriptors (got {})", b5);

    assert!(
        b2 + b3 + b4 >= 36,
        "B2 + B3 + B4 must populate at least 36 entries (got {})",
        b2 + b3 + b4,
    );

    for d in hard.descriptors.iter().filter(|d| {
        d.label.starts_with("final_exp_hard_b2_")
            || d.label.starts_with("final_exp_hard_b3_")
            || d.label.starts_with("final_exp_hard_b4_")
    }) {
        assert_18_18_tuple_shape(d);
        assert_eq!(d.b_selector_column, Some(fe::COL_IS_HARD_STEP));
    }
}

#[test]
fn phase_a6_a12_b6_b12_coverage() {
    let easy = FinalExpEasyDescriptors::build(1, 0);
    let hard = FinalExpHardDescriptors::build(1, 0);

    let count_easy = |prefix: &str| -> usize {
        easy.descriptors
            .iter()
            .filter(|d| d.label.starts_with(prefix))
            .count()
    };
    let count_hard = |prefix: &str| -> usize {
        hard.descriptors
            .iter()
            .filter(|d| d.label.starts_with(prefix))
            .count()
    };

    let easy_new_phase_counts: [(&str, usize); 7] = [
        ("final_exp_easy_a6_", 12),
        ("final_exp_easy_a7_", 12),
        ("final_exp_easy_a8_", 10),
        ("final_exp_easy_a9_", 12),
        ("final_exp_easy_a10_", 6),
        ("final_exp_easy_a11_", 6),
        ("final_exp_easy_a12_", 12),
    ];
    let mut easy_populated_phases = 0;
    let mut easy_new_total = 0;
    for (prefix, expected) in &easy_new_phase_counts {
        let got = count_easy(prefix);
        assert_eq!(
            got, *expected,
            "easy phase {} must contribute {} descriptors (got {})",
            prefix, expected, got,
        );
        if got > 0 {
            easy_populated_phases += 1;
        }
        easy_new_total += got;
    }
    assert!(
        easy_populated_phases >= 7,
        "easy side must have at least 7 populated phases (got {})",
        easy_populated_phases,
    );
    assert_eq!(
        easy_new_total, 70,
        "easy A6..A12 must total 70 descriptors (got {})",
        easy_new_total,
    );

    let hard_new_phase_counts: [(&str, usize); 7] = [
        ("final_exp_hard_b6_", 16),
        ("final_exp_hard_b7_", 16),
        ("final_exp_hard_b8_", 16),
        ("final_exp_hard_b9_", 12),
        ("final_exp_hard_b10_", 12),
        ("final_exp_hard_b11_", 12),
        ("final_exp_hard_b12_", 16),
    ];
    let mut hard_populated_phases = 0;
    let mut hard_new_total = 0;
    for (prefix, expected) in &hard_new_phase_counts {
        let got = count_hard(prefix);
        assert_eq!(
            got, *expected,
            "hard phase {} must contribute {} descriptors (got {})",
            prefix, expected, got,
        );
        if got > 0 {
            hard_populated_phases += 1;
        }
        hard_new_total += got;
    }
    assert!(
        hard_populated_phases >= 7,
        "hard side must have at least 7 populated phases (got {})",
        hard_populated_phases,
    );
    assert_eq!(
        hard_new_total, 100,
        "hard B6..B12 must total 100 descriptors (got {})",
        hard_new_total,
    );

    for d in easy.descriptors.iter().filter(|d| {
        let l = &d.label;
        l.starts_with("final_exp_easy_a6_")
            || l.starts_with("final_exp_easy_a7_")
            || l.starts_with("final_exp_easy_a8_")
            || l.starts_with("final_exp_easy_a9_")
            || l.starts_with("final_exp_easy_a10_")
            || l.starts_with("final_exp_easy_a11_")
            || l.starts_with("final_exp_easy_a12_")
    }) {
        assert_18_18_tuple_shape(d);
        assert_eq!(d.b_selector_column, Some(fe::COL_IS_EASY_STEP));
    }
    for d in hard.descriptors.iter().filter(|d| {
        let l = &d.label;
        l.starts_with("final_exp_hard_b6_")
            || l.starts_with("final_exp_hard_b7_")
            || l.starts_with("final_exp_hard_b8_")
            || l.starts_with("final_exp_hard_b9_")
            || l.starts_with("final_exp_hard_b10_")
            || l.starts_with("final_exp_hard_b11_")
            || l.starts_with("final_exp_hard_b12_")
    }) {
        assert_18_18_tuple_shape(d);
        assert_eq!(d.b_selector_column, Some(fe::COL_IS_HARD_STEP));
    }
}

#[test]
fn phase_coverage_cumulative_over_seventy_percent() {
    let easy = FinalExpEasyDescriptors::build(1, 0);
    let hard = FinalExpHardDescriptors::build(1, 0);
    let total_wired = easy.wired_count() + hard.wired_count();
    let total_full = FINAL_EXP_EASY_TOTAL_MULTS + FINAL_EXP_HARD_TOTAL_MULTS;

    let coverage_bps = (total_wired * 10_000) / total_full;
    assert!(
        coverage_bps >= 7_000,
        "phase coverage must be at least 70.00% \
         (got {}.{:02}%; {} / {})",
        coverage_bps / 100,
        coverage_bps % 100,
        total_wired,
        total_full,
    );

    assert!(
        total_wired >= 900,
        "phase coverage requires at least 900 wired Fp mults (got {})",
        total_wired,
    );

    assert!(
        easy.wired_count() >= 315,
        "easy side must be at least 315 (got {})",
        easy.wired_count(),
    );
    assert!(
        hard.wired_count() >= 585,
        "hard side must be at least 585 (got {})",
        hard.wired_count(),
    );

    let count_easy_new = |prefix: &str| -> usize {
        easy.descriptors.iter().filter(|d| d.label.starts_with(prefix)).count()
    };
    let count_hard_new = |prefix: &str| -> usize {
        hard.descriptors.iter().filter(|d| d.label.starts_with(prefix)).count()
    };
    for prefix in [
        "final_exp_easy_a21_",
        "final_exp_easy_a22_",
        "final_exp_easy_a23_",
        "final_exp_easy_a24_",
        "final_exp_easy_a25_",
        "final_exp_easy_a26_",
        "final_exp_easy_a27_",
        "final_exp_easy_a28_",
    ] {
        assert_eq!(
            count_easy_new(prefix),
            10,
            "easy phase {} must contribute exactly 10 descriptors",
            prefix,
        );
    }
    for prefix in [
        "final_exp_hard_b23_",
        "final_exp_hard_b24_",
        "final_exp_hard_b25_",
        "final_exp_hard_b26_",
        "final_exp_hard_b27_",
        "final_exp_hard_b28_",
        "final_exp_hard_b29_",
        "final_exp_hard_b30_",
        "final_exp_hard_b31_",
        "final_exp_hard_b32_",
        "final_exp_hard_b33_",
        "final_exp_hard_b34_",
        "final_exp_hard_b35_",
        "final_exp_hard_b36_",
    ] {
        assert_eq!(
            count_hard_new(prefix),
            16,
            "hard phase {} must contribute exactly 16 descriptors",
            prefix,
        );
    }

    for d in easy.descriptors.iter().filter(|d| {
        let l = &d.label;
        (21..=28).any(|n| l.starts_with(&format!("final_exp_easy_a{}_", n)))
    }) {
        assert_18_18_tuple_shape(d);
        assert_eq!(d.b_selector_column, Some(fe::COL_IS_EASY_STEP));
    }
    for d in hard.descriptors.iter().filter(|d| {
        let l = &d.label;
        (23..=36).any(|n| l.starts_with(&format!("final_exp_hard_b{}_", n)))
    }) {
        assert_18_18_tuple_shape(d);
        assert_eq!(d.b_selector_column, Some(fe::COL_IS_HARD_STEP));
    }
}

#[test]
fn phase_coverage_one_hundred_percent() {
    let easy = FinalExpEasyDescriptors::build(1, 0);
    let hard = FinalExpHardDescriptors::build(1, 0);
    let total_wired = easy.wired_count() + hard.wired_count();
    let total_full = FINAL_EXP_EASY_TOTAL_MULTS + FINAL_EXP_HARD_TOTAL_MULTS;

    assert_eq!(
        easy.wired_count(),
        410,
        "easy side must be exactly 410 (got {})",
        easy.wired_count(),
    );
    assert_eq!(
        hard.wired_count(),
        808,
        "hard side must be exactly 808 (got {})",
        hard.wired_count(),
    );
    assert_eq!(
        total_wired, 1218,
        "combined wired count must be exactly 1218 (got {})",
        total_wired,
    );
    assert_eq!(
        total_full, 1218,
        "combined total must be exactly 1218 (got {})",
        total_full,
    );

    let coverage_bps = (total_wired * 10_000) / total_full;
    assert_eq!(
        coverage_bps, 10_000,
        "phase coverage must be exactly 100.00% \
         (got {}.{:02}%; {} / {})",
        coverage_bps / 100,
        coverage_bps % 100,
        total_wired,
        total_full,
    );

    let count_easy = |prefix: &str| -> usize {
        easy.descriptors.iter().filter(|d| d.label.starts_with(prefix)).count()
    };
    let count_hard = |prefix: &str| -> usize {
        hard.descriptors.iter().filter(|d| d.label.starts_with(prefix)).count()
    };

    let easy_residual_counts: [(&str, usize); 7] = [
        ("final_exp_easy_a29_residual_phase1_", 12),
        ("final_exp_easy_a30_residual_phase2_", 12),
        ("final_exp_easy_a31_residual_phase3_", 16),
        ("final_exp_easy_a32_residual_phase4_", 16),
        ("final_exp_easy_a33_residual_phase5_", 12),
        ("final_exp_easy_a34_residual_phase6_", 12),
        ("final_exp_easy_a35_residual_phase7_", 12),
    ];
    let mut easy_residual_total = 0;
    for (prefix, expected) in &easy_residual_counts {
        let got = count_easy(prefix);
        assert_eq!(
            got, *expected,
            "easy residual phase {} must contribute exactly {} descriptors (got {})",
            prefix, expected, got,
        );
        easy_residual_total += got;
    }
    assert_eq!(
        easy_residual_total, 92,
        "easy residual phases must total exactly 92 (got {})",
        easy_residual_total,
    );

    let hard_residual_counts: [(&str, usize); 10] = [
        ("final_exp_hard_b37_residual_phase1_", 18),
        ("final_exp_hard_b38_residual_phase2_", 18),
        ("final_exp_hard_b39_residual_phase3_", 18),
        ("final_exp_hard_b40_residual_phase4_", 24),
        ("final_exp_hard_b41_residual_phase5_", 24),
        ("final_exp_hard_b42_residual_phase6_", 24),
        ("final_exp_hard_b43_residual_phase7_", 22),
        ("final_exp_hard_b44_residual_phase8_", 22),
        ("final_exp_hard_b45_residual_phase9_", 22),
        ("final_exp_hard_b46_residual_phase10_", 22),
    ];
    let mut hard_residual_total = 0;
    for (prefix, expected) in &hard_residual_counts {
        let got = count_hard(prefix);
        assert_eq!(
            got, *expected,
            "hard residual phase {} must contribute exactly {} descriptors (got {})",
            prefix, expected, got,
        );
        hard_residual_total += got;
    }
    assert_eq!(
        hard_residual_total, 214,
        "hard residual phases must total exactly 214 (got {})",
        hard_residual_total,
    );

    for d in easy.descriptors.iter().filter(|d| {
        let l = &d.label;
        (29..=35).any(|n| l.starts_with(&format!("final_exp_easy_a{}_", n)))
    }) {
        assert_18_18_tuple_shape(d);
        assert_eq!(d.b_selector_column, Some(fe::COL_IS_EASY_STEP));
    }
    for d in hard.descriptors.iter().filter(|d| {
        let l = &d.label;
        (37..=46).any(|n| l.starts_with(&format!("final_exp_hard_b{}_", n)))
    }) {
        assert_18_18_tuple_shape(d);
        assert_eq!(d.b_selector_column, Some(fe::COL_IS_HARD_STEP));
    }
}

#[test]
fn granger_scott_descriptors_have_expected_count() {
    let gs = FinalExpGrangerScottDescriptors::build(1, 0);
    assert_eq!(
        gs.wired_count(),
        FINAL_EXP_GRANGER_SCOTT_WIRED_MULTS,
        "Granger-Scott descriptor count must equal the constant",
    );
    assert_eq!(
        gs.descriptors.len(),
        18,
        "Granger-Scott must wire exactly 18 Fp mults per cyclo squaring",
    );

    let (wired, total) = gs.coverage();
    assert_eq!(wired, 18);
    assert_eq!(total, FINAL_EXP_GRANGER_SCOTT_TOTAL_MULTS);
    assert_eq!(
        wired, total,
        "Granger-Scott set is closed at 100% of the 6-Fp2-mul formula",
    );
}

#[test]
fn granger_scott_descriptors_carry_canonical_shape() {
    let gs = FinalExpGrangerScottDescriptors::build(1, 0);
    for d in &gs.descriptors {
        assert_18_18_tuple_shape(d);
        assert_eq!(d.b_selector_column, Some(fe::COL_IS_HARD_STEP));
        assert_eq!(d.a_layer_index, 0, "A side = nonnative_fp_air layer");
        assert_eq!(d.b_layer_index, 1, "B side = final_exp_air layer");
        for &col in &d.b_columns {
            assert!(
                col < fe::NUM_COLUMNS,
                "B-side column {} exceeds final_exp_air NUM_COLUMNS = {}",
                col,
                fe::NUM_COLUMNS,
            );
        }
    }
}

#[test]
fn granger_scott_per_step_labels_are_three() {
    let gs = FinalExpGrangerScottDescriptors::build(1, 0);
    for step in 0..6 {
        let prefix = format!("final_exp_granger_scott_step{}_", step);
        let count = gs
            .descriptors
            .iter()
            .filter(|d| d.label.starts_with(&prefix))
            .count();
        assert_eq!(
            count, 3,
            "Granger-Scott step {} must contribute exactly 3 sub-mults \
             (lo / hi / mid); got {}",
            step, count,
        );
    }
    for step in 0..6 {
        for suffix in ["lo", "hi", "mid"] {
            let label = format!(
                "final_exp_granger_scott_step{}_{}_v1",
                step, suffix,
            );
            let count = gs
                .descriptors
                .iter()
                .filter(|d| d.label == label)
                .count();
            assert_eq!(
                count, 1,
                "label {} must appear exactly once (got {})",
                label, count,
            );
        }
    }
}

#[test]
fn granger_scott_labels_disjoint_from_easy_and_hard() {
    let easy = FinalExpEasyDescriptors::build(1, 0);
    let hard = FinalExpHardDescriptors::build(1, 0);
    let gs = FinalExpGrangerScottDescriptors::build(1, 0);

    let mut gs_labels: Vec<String> =
        gs.descriptors.iter().map(|d| d.label.clone()).collect();
    let gs_count = gs_labels.len();
    gs_labels.sort();
    gs_labels.dedup();
    assert_eq!(
        gs_labels.len(),
        gs_count,
        "all Granger-Scott labels must be distinct",
    );

    for d in easy.descriptors.iter().chain(hard.descriptors.iter()) {
        assert!(
            !d.label.starts_with("final_exp_granger_scott_"),
            "existing easy / hard label {} must not collide with the \
             dedicated Granger-Scott namespace",
            d.label,
        );
    }
}

#[test]
fn granger_scott_convenience_builder_matches_wrapper() {
    let v = make_final_exp_granger_scott_cyclotomic_square_descriptors(
        1, 0,
    );
    let gs = FinalExpGrangerScottDescriptors::build(1, 0);
    assert_eq!(v.len(), gs.descriptors.len());
    for (a, b) in v.iter().zip(gs.descriptors.iter()) {
        assert_eq!(a.label, b.label);
        assert_eq!(a.a_columns, b.a_columns);
        assert_eq!(a.b_columns, b.b_columns);
        assert_eq!(a.a_layer_index, b.a_layer_index);
        assert_eq!(a.b_layer_index, b.b_layer_index);
        assert_eq!(a.a_selector_column, b.a_selector_column);
        assert_eq!(a.b_selector_column, b.b_selector_column);
    }
}

fn digest(descriptors: &[CrossAirLogUpDescriptor]) -> u64 {
    let mut h: u64 = 0xcbf29ce484222325;
    for d in descriptors {
        let mut bytes = d.label.clone().into_bytes();
        for first in [0, 6, 12] {
            bytes.extend((d.b_columns[first] as u16).to_le_bytes());
        }
        for b in bytes {
            h = (h ^ b as u64).wrapping_mul(0x100000001b3);
        }
    }
    h
}

fn assert_entry(d: &CrossAirLogUpDescriptor, label: &str, a: usize, b: usize, c: usize) {
    assert_eq!(d.label, label);
    for j in 0..6 {
        assert_eq!(d.b_columns[j], a + j);
        assert_eq!(d.b_columns[6 + j], b + j);
        assert_eq!(d.b_columns[12 + j], c + j);
    }
}

#[test]
fn easy_entries() {
    let ds = FinalExpEasyDescriptors::build(1, 0).descriptors;
    assert_entry(&ds[0], "final_exp_easy_a1_inv_diag_0_v1", 0, 0, 72);
    assert_entry(&ds[6], "final_exp_easy_a2_c0c1_cross_0_6_v1", 0, 36, 72);
    assert_entry(&ds[17], "final_exp_easy_a2_c0c1_cross_3_11_v1", 18, 66, 138);
    assert_entry(&ds[18], "final_exp_easy_a3_c0sq_recip_0_v1", 0, 0, 216);
    assert_entry(&ds[30], "final_exp_easy_a4_frob_c1_diag_6_v1", 36, 36, 72);
    assert_entry(&ds[41], "final_exp_easy_a5_close_diag_11_v1", 66, 30, 138);
    assert_entry(&ds[100], "final_exp_easy_a12_close_off_4_10_v1", 96, 132, 216);
    assert_entry(&ds[200], "final_exp_easy_a18_conj_cross_4_11_step_4_v1", 24, 66, 102);
    assert_entry(&ds[238], "final_exp_easy_a21_conj_chain_c0_diag_0_step_0_v1", 0, 0, 72);
    assert_entry(&ds[300], "final_exp_easy_a27_conj_chain_cross_2_6_step_2_v1", 12, 108, 72);
    assert_entry(&ds[409], "final_exp_easy_a35_residual_phase7_close_diag_11_v1", 138, 138, 270);
    assert_eq!(digest(&ds), 0xb9e277ebf75e13e8);
}

#[test]
fn results_lie_in_the_output_of_the_part_or_in_the_exported_element() {
    let within = |c: usize, at: usize| at <= c && c < at + fe::LIMBS_PER_FP12;
    for d in FinalExpEasyDescriptors::build(1, 0).descriptors {
        let c = d.b_columns[12];
        assert!(within(c, fe::COL_F_EASY_OUT_OFFSET) || within(c, fe::COL_F_FINAL_OFFSET));
    }
    for d in FinalExpHardDescriptors::build(1, 0).descriptors {
        let c = d.b_columns[12];
        assert!(within(c, fe::COL_F_HARD_OUT_OFFSET) || within(c, fe::COL_F_FINAL_OFFSET));
    }
}

#[test]
fn hard_entries() {
    let ds = FinalExpHardDescriptors::build(1, 0).descriptors;
    assert_entry(&ds[0], "final_exp_hard_b1_cyclo_sq_c0_diag_0_v1", 72, 72, 144);
    assert_entry(&ds[6], "final_exp_hard_b2_cyclo_sq_c0_chain_0_step_0_v1", 72, 72, 216);
    assert_entry(&ds[18], "final_exp_hard_b3_cyclo_sq_c1_diag_6_rep_0_v1", 108, 108, 180);
    assert_entry(&ds[25], "final_exp_hard_b3_cyclo_sq_c1_diag_7_rep_1_v1", 114, 114, 258);
    assert_entry(&ds[31], "final_exp_hard_b4_c0c1_cross_1_7_v1", 78, 114, 150);
    assert_entry(&ds[50], "final_exp_hard_b6_c0c1_karat_0_10_v1", 72, 132, 228);
    assert_entry(&ds[150], "final_exp_hard_b13_granger_scott_c0sq_2_step_2_v1", 84, 84, 168);
    assert_entry(&ds[300], "final_exp_hard_b20_addchain_diag_2_step_2_v1", 156, 156, 282);
    assert_entry(&ds[500], "final_exp_hard_b31_addchain_off3_2_5_step_2_v1", 84, 174, 270);
    assert_entry(&ds[700], "final_exp_hard_b42_residual_phase6_addchain_diag_4_step_4_v1", 168, 168, 198);
    assert_entry(&ds[807], "final_exp_hard_b46_residual_phase10_mixed_cross_9_8_step_21_v1", 198, 120, 216);
    assert_eq!(digest(&ds), 0xc82aba2d2ed203cf);
}

#[test]
fn squaring_entries() {
    let ds = FinalExpGrangerScottDescriptors::build(1, 0).descriptors;
    assert_entry(&ds[0], "final_exp_granger_scott_step0_lo_v1", 72, 108, 144);
    assert_entry(&ds[1], "final_exp_granger_scott_step0_hi_v1", 78, 114, 150);
    assert_entry(&ds[2], "final_exp_granger_scott_step0_mid_v1", 72, 108, 252);
    assert_entry(&ds[17], "final_exp_granger_scott_step5_mid_v1", 96, 132, 276);
}
