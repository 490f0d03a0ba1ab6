use zkp::field::{CurveType, Scalar};
use zkp::final_exp_air::{
    COL_FE_INTERMEDIATE_OFFSET, COL_F_EASY_OUT_OFFSET, COL_F_FINAL_OFFSET, COL_F_HARD_OUT_OFFSET,
    COL_F_PRE_OFFSET, COL_IS_EASY_STEP, COL_IS_HARD_STEP, FE_INTERMEDIATE_NUM_DESCRIPTORS,
    FinalExpConstraintSystem, FinalExpWitness, LIMBS_PER_FP, LIMBS_PER_FP12, NUM_COLUMNS,
    NUM_FE_INTERMEDIATE_COLUMNS, NUM_ROW_CONSTRAINTS, NUM_SCAFFOLD_COLUMNS, NUM_SHIFTED,
    build_trace_polynomials, evaluate_shifted_row, intermediate_c_base_for,
    make_final_exp_f_pre_to_miller_step_descriptor, populate_final_exp_trace, populate_steps,
};
use zkp::nonnative_fp::Fp;
use zkp::nonnative_tower::Fp12;
use zkp::pairing::final_exponentiation;
use zkp::trace::TracePolynomials;

fn sample_input() -> Fp12 {
    Fp12::one()
}

fn honest_witness(num_rows: usize) -> FinalExpWitness {
    let mut w = FinalExpWitness::new();
    let mut f = sample_input();
    for i in 0..num_rows {
        if i % 2 == 0 {
            w.push_easy(f);
        } else {
            w.push_hard(f, f);
        }
        f = w.rows.last().unwrap().f_final;
    }
    w
}

#[test]
fn witness_builds_and_trace_has_expected_shape() {
    let w = honest_witness(2);
    assert_eq!(w.rows.len(), 2);
    assert!(w.rows[0].is_easy_step && !w.rows[0].is_hard_step);
    assert!(!w.rows[1].is_easy_step && w.rows[1].is_hard_step);

    assert_eq!(w.rows[1].f_pre, w.rows[0].f_final);
    assert_eq!(w.rows[1].f_final, w.rows[1].f_hard_out);

    let trace = build_trace_polynomials(&w, CurveType::Bls12381);
    assert_eq!(trace.columns.len(), NUM_COLUMNS);
    let curve = CurveType::Bls12381;
    let one = Scalar::one(curve);
    assert!(
        trace.columns[COL_IS_EASY_STEP].evaluations[0].sub(&one).is_zero(),
        "row 0 is_easy_step should be 1",
    );
    assert!(
        trace.columns[COL_IS_HARD_STEP].evaluations[0].is_zero(),
        "row 0 is_hard_step should be 0",
    );
    assert!(
        trace.columns[COL_IS_EASY_STEP].evaluations[1].is_zero(),
        "row 1 is_easy_step should be 0",
    );
    assert!(
        trace.columns[COL_IS_HARD_STEP].evaluations[1].sub(&one).is_zero(),
        "row 1 is_hard_step should be 1",
    );
}

#[test]
fn constraints_zero_on_honest_witness() {
    let w = honest_witness(2);
    let trace = build_trace_polynomials(&w, CurveType::Bls12381);
    let cs = FinalExpConstraintSystem::new(trace.num_rows);
    let col_refs: Vec<&Vec<Scalar>> =
        trace.columns.iter().map(|p| &p.evaluations).collect();
    let results = cs.evaluate_on_domain(&col_refs, trace.num_rows);
    assert_eq!(results.len(), NUM_ROW_CONSTRAINTS);
    for (i, col) in results.iter().enumerate() {
        for (r, val) in col.iter().enumerate() {
            assert!(
                val.is_zero(),
                "row-local constraint {} at row {} = {:?} (expected zero)",
                i, r, val.to_u64(),
            );
        }
    }
    let curve = CurveType::Bls12381;
    let alpha = Scalar::from_u64(7, curve);
    for cidx in 0..NUM_SHIFTED {
        let body = evaluate_shifted_row(&col_refs, 0, 1, cidx, &alpha);
        assert!(
            body.is_zero(),
            "shifted constraint {} at row 0 = {:?} (expected zero)",
            cidx, body.to_u64(),
        );
    }
}

#[test]
fn tampered_f_final_breaks_chain_continuity() {
    let w = honest_witness(2);
    let trace = build_trace_polynomials(&w, CurveType::Bls12381);
    let mut cols: Vec<Vec<Scalar>> =
        trace.columns.iter().map(|p| p.evaluations.clone()).collect();

    let curve = CurveType::Bls12381;
    let original = cols[COL_F_FINAL_OFFSET][0].clone();
    cols[COL_F_FINAL_OFFSET][0] = original.add(&Scalar::one(curve));

    let col_refs: Vec<&Vec<Scalar>> = cols.iter().collect();

    let alpha = Scalar::from_u64(7, curve);
    let body = evaluate_shifted_row(&col_refs, 0, 1, 0, &alpha);
    assert!(
        !body.is_zero(),
        "tampered f_final must break f chain continuity (shifted 0)",
    );
}

#[test]
fn hard_step_passthrough_fires_on_tampered_f_final() {
    let w = honest_witness(2);
    let trace = build_trace_polynomials(&w, CurveType::Bls12381);
    let mut cols: Vec<Vec<Scalar>> =
        trace.columns.iter().map(|p| p.evaluations.clone()).collect();
    let curve = CurveType::Bls12381;

    let original = cols[COL_F_FINAL_OFFSET + 3][1].clone();
    cols[COL_F_FINAL_OFFSET + 3][1] = original.add(&Scalar::one(curve));

    let col_refs: Vec<&Vec<Scalar>> = cols.iter().collect();
    let cs = FinalExpConstraintSystem::new(trace.num_rows);
    let results = cs.evaluate_on_domain(&col_refs, trace.num_rows);

    for i in 0..3 {
        for (r, val) in results[i].iter().enumerate() {
            assert!(
                val.is_zero(),
                "row-local constraint {} at row {} unexpectedly fired",
                i, r,
            );
        }
    }
    assert!(
        results[3][1].is_zero(),
        "easy-step c0 pass-through should NOT fire on a hard row",
    );

    assert!(
        !results[4][1].is_zero(),
        "tampered hard-step f_final must fire constraint 4",
    );
    assert!(
        results[4][0].is_zero(),
        "constraint 4 must NOT fire on an easy-step row",
    );
}

#[test]
fn is_easy_binary_and_mutual_exclusion_fire_on_tampered_selectors() {
    let w = honest_witness(1);
    let trace = build_trace_polynomials(&w, CurveType::Bls12381);
    let mut cols: Vec<Vec<Scalar>> =
        trace.columns.iter().map(|p| p.evaluations.clone()).collect();
    let curve = CurveType::Bls12381;
    let one = Scalar::one(curve);

    cols[COL_IS_EASY_STEP][0] = Scalar::from_u64(3, curve);
    let cs = FinalExpConstraintSystem::new(trace.num_rows);
    let col_refs: Vec<&Vec<Scalar>> = cols.iter().collect();
    let results = cs.evaluate_on_domain(&col_refs, trace.num_rows);
    assert!(
        !results[0][0].is_zero(),
        "non-binary is_easy_step must fire constraint 0",
    );

    cols[COL_IS_EASY_STEP][0] = one.clone();
    cols[COL_IS_HARD_STEP][0] = one;
    let col_refs: Vec<&Vec<Scalar>> = cols.iter().collect();
    let results = cs.evaluate_on_domain(&col_refs, trace.num_rows);
    assert!(
        !results[2][0].is_zero(),
        "both selectors = 1 must fire mutual-exclusion (constraint 2)",
    );
}

#[test]
fn f_pre_to_miller_step_descriptor_well_formed() {
    let d = make_final_exp_f_pre_to_miller_step_descriptor(1, 0);
    assert_eq!(d.label, "final_exp_f_pre_to_miller_step_v1");
    assert_eq!(d.a_layer_index, 0, "A side = miller_step layer");
    assert_eq!(d.b_layer_index, 1, "B side = final_exp layer");
    assert_eq!(d.a_columns.len(), LIMBS_PER_FP12);
    assert_eq!(d.b_columns.len(), LIMBS_PER_FP12);

    assert_eq!(d.a_columns[0], zkp::miller_step_air::COL_ACC_POST_OFFSET);
    assert_eq!(
        d.a_columns[LIMBS_PER_FP12 - 1],
        zkp::miller_step_air::COL_ACC_POST_OFFSET + LIMBS_PER_FP12 - 1,
    );
    assert_eq!(d.b_columns[0], COL_F_PRE_OFFSET);
    assert_eq!(d.b_columns[LIMBS_PER_FP12 - 1], COL_F_PRE_OFFSET + LIMBS_PER_FP12 - 1);

    assert_eq!(d.a_selector_column, Some(zkp::miller_step_air::COL_IS_DOUBLING));
    assert_eq!(d.b_selector_column, Some(COL_IS_EASY_STEP));
}

#[test]
fn column_layout_is_packed() {
    assert_eq!(COL_F_PRE_OFFSET, 0);
    assert_eq!(COL_F_EASY_OUT_OFFSET, LIMBS_PER_FP12);
    assert_eq!(COL_F_HARD_OUT_OFFSET, 2 * LIMBS_PER_FP12);
    assert_eq!(COL_F_FINAL_OFFSET, 3 * LIMBS_PER_FP12);
    assert_eq!(COL_IS_EASY_STEP, 4 * LIMBS_PER_FP12);
    assert_eq!(COL_IS_HARD_STEP, COL_IS_EASY_STEP + 1);
    assert_eq!(NUM_SCAFFOLD_COLUMNS, 290);
    assert_eq!(FE_INTERMEDIATE_NUM_DESCRIPTORS, 1218);
    assert_eq!(NUM_FE_INTERMEDIATE_COLUMNS, 7308);
    assert_eq!(COL_FE_INTERMEDIATE_OFFSET, NUM_SCAFFOLD_COLUMNS);
    assert_eq!(NUM_COLUMNS, NUM_SCAFFOLD_COLUMNS + NUM_FE_INTERMEDIATE_COLUMNS);
    assert_eq!(NUM_COLUMNS, 7598);
    assert_eq!(intermediate_c_base_for(0), COL_FE_INTERMEDIATE_OFFSET);
    assert_eq!(
        intermediate_c_base_for(FE_INTERMEDIATE_NUM_DESCRIPTORS - 1),
        COL_FE_INTERMEDIATE_OFFSET
            + (FE_INTERMEDIATE_NUM_DESCRIPTORS - 1) * LIMBS_PER_FP,
    );
}

#[test]
fn shifted_column_indices_cover_f_pre() {
    let cs = FinalExpConstraintSystem::new(2);
    let idx = cs.shifted_column_indices();
    assert_eq!(idx.len(), LIMBS_PER_FP12);
    for j in 0..LIMBS_PER_FP12 {
        assert_eq!(idx[j], COL_F_PRE_OFFSET + j);
    }
}

#[test]
fn populate_final_exp_trace_produces_pinned_descriptors() {
    let f = nontrivial_fp12_input();
    let fixture = populate_final_exp_trace(f);
    assert_eq!(fixture.all_easy_descriptors.len(), 410);
    assert_eq!(fixture.all_hard_descriptors.len(), 808);
    assert!(
        fixture.num_populated_fp_mults > 0,
        "must pin at least one Fp mult",
    );
    assert_eq!(
        fixture.pinned_descriptors.len(),
        fixture.num_populated_fp_mults,
    );
    assert_eq!(
        fixture.nonnative_fp_trace.num_rows,
        fixture.pinned_descriptors.len(),
    );
    assert_eq!(fixture.final_exp_trace.columns.len(), NUM_COLUMNS);
}

#[test]
fn populate_final_exp_trace_pins_at_least_one_per_phase() {
    let f = nontrivial_fp12_input();
    let fixture = populate_final_exp_trace(f);
    let easy_pinned = fixture
        .pinned_descriptors
        .iter()
        .filter(|d| d.b_selector_column == Some(COL_IS_EASY_STEP))
        .count();
    let hard_pinned = fixture
        .pinned_descriptors
        .iter()
        .filter(|d| d.b_selector_column == Some(COL_IS_HARD_STEP))
        .count();
    assert!(
        easy_pinned > 0,
        "must pin at least one easy-side Fp mult",
    );
    assert!(
        hard_pinned > 0,
        "must pin at least one hard-side Fp mult",
    );
    let total = fixture.pinned_descriptors.len();
    assert_eq!(
        total, 1218,
        "every descriptor must be pinned (410 easy + 808 hard)",
    );
    assert!(
        total <= 1218,
        "pinned subset must be at most the full descriptor count",
    );
    assert_eq!(easy_pinned, 410, "all easy descriptors must be pinned");
    assert_eq!(hard_pinned, 808, "all hard descriptors must be pinned");
}

const G1_GENERATOR: &str = "97f1d3a73197d7942695638c4fa9ac0fc3688c4f9774b905a14e3a3f171bac586c55e83ff97a1aeffb3af00adb22c6bb";

const G2_GENERATOR: &str = "93e02b6052719f607dacd3a088274f65596bd0d09920b61ab5da61bbdc7f5049334cf11213945d57e5ac7d055d042b7e024aa2b2f08f0a91260805272dc51051c6e47ad4fa403b02b4510b647ae3d1770bac0326a805bbefd48056c8c121bdb8";

fn unhex(s: &str) -> Vec<u8> {
    (0..s.len() / 2).map(|i| u8::from_str_radix(&s[2 * i..2 * i + 2], 16).unwrap()).collect()
}

fn generators_miller_loop() -> blst::blst_fp12 {
    let p = blst::min_pk::PublicKey::uncompress(&unhex(G1_GENERATOR)).unwrap();
    let q = blst::min_pk::Signature::uncompress(&unhex(G2_GENERATOR)).unwrap();
    let p: &blst::blst_p1_affine = (&p).into();
    let q: &blst::blst_p2_affine = (&q).into();
    blst::blst_fp12::miller_loop(q, p)
}

fn fp12_of(f: &blst::blst_fp12) -> Fp12 {
    let c: Vec<Fp> = (0..12)
        .map(|i| Fp::from_montgomery(&f.fp6[i / 6].fp2[i % 6 / 2].fp[i % 2].l))
        .collect();
    Fp12::from_coefficients(&c.try_into().unwrap())
}

fn nontrivial_fp12_input() -> Fp12 {
    fp12_of(&generators_miller_loop())
}

#[test]
fn final_exponentiation_is_that_of_the_pairing() {
    let f = generators_miller_loop();
    let r = final_exponentiation(&fp12_of(&f));
    assert_ne!(r, fp12_of(&f));
    assert_eq!(r, fp12_of(&f.final_exp()));
}

#[test]
fn final_exponentiation_of_one_is_one() {
    assert_eq!(final_exponentiation(&Fp12::one()), Fp12::one());
}

fn limbs_at(t: &TracePolynomials, columns: &[usize], row: usize) -> Vec<u64> {
    columns.iter().map(|c| t.columns[*c].evaluations[row].to_u64()).collect()
}

fn fp_of(limbs: &[u64]) -> Fp {
    Fp { limbs: limbs.try_into().unwrap() }
}

#[test]
fn populate_final_exp_trace_pinned_closures_hold() {
    let fixture = populate_final_exp_trace(nontrivial_fp12_input());
    let steps = &fixture.final_exp_trace;
    let products = &fixture.nonnative_fp_trace;
    for (i, d) in fixture.pinned_descriptors.iter().enumerate() {
        let gate = d.b_selector_column.unwrap();
        let rows: Vec<usize> = (0..steps.padded_size as usize)
            .filter(|r| !steps.columns[gate].evaluations[*r].is_zero())
            .collect();
        assert_eq!(rows.len(), 1, "{} must be selected on one row", d.label);
        let step = limbs_at(steps, &d.b_columns, rows[0]);
        assert_eq!(step, limbs_at(products, &d.a_columns, i), "{}", d.label);
        assert_eq!(fp_of(&step[..6]).mul(&fp_of(&step[6..12])), fp_of(&step[12..]), "{}", d.label);
        let selector = d.a_selector_column.unwrap();
        assert!(products.columns[selector].evaluations[i].is_one());
    }
    for r in fixture.pinned_descriptors.len()..products.padded_size as usize {
        for c in &products.columns {
            assert!(c.evaluations[r].is_zero());
        }
    }
}

#[test]
fn populated_slots_hold_the_products_of_their_step_alone() {
    let one = Fp12::one();
    let fixture = populate_steps(one, one);
    let steps = &fixture.final_exp_trace;
    for (i, d) in fixture.pinned_descriptors.iter().enumerate() {
        let easy = i < fixture.all_easy_descriptors.len();
        let base = intermediate_c_base_for(i);
        let columns: Vec<usize> = (base..base + LIMBS_PER_FP).collect();
        assert_eq!(&d.b_columns[2 * LIMBS_PER_FP..], &columns[..]);
        let (here, there) = if easy { (0, 1) } else { (1, 0) };
        assert_eq!(limbs_at(steps, &columns, there), vec![0; 6]);
        let both_one = d.b_columns[0] % LIMBS_PER_FP12 == 0
            && d.b_columns[LIMBS_PER_FP] % LIMBS_PER_FP12 == 0;
        let product = vec![0, 0, 0, 0, 0, both_one as u64];
        assert_eq!(limbs_at(steps, &columns, here), product, "{}", d.label);
    }
}

#[test]
fn multiplication_wraps_around_the_prime() {
    let minus_one = Fp {
        limbs: [
            0x1a0111ea397fe69a,
            0x4b1ba7b6434bacd7,
            0x64774b84f38512bf,
            0x6730d2a0f6b0f624,
            0x1eabfffeb153ffff,
            0xb9feffffffffaaaa,
        ],
    };
    assert_eq!(minus_one.mul(&minus_one), Fp::one());
    assert_eq!(minus_one.mul(&Fp::one()), minus_one);
    assert_eq!(Fp { limbs: [u64::MAX; 6] }.mul(&Fp::zero()), Fp::zero());
    assert_eq!(Fp::from_montgomery(&minus_one.to_montgomery()), minus_one);
}

#[test]
fn raw_rows_are_kept_and_handover_is_free_at_the_last_row() {
    let mut w = honest_witness(1);
    let row = w.rows[0];
    w.push_raw(row);
    assert_eq!(w.rows.len(), 2);
    assert_eq!(w.rows[1].f_final, row.f_final);
    let t = build_trace_polynomials(&w, CurveType::Bls12381);
    assert_eq!(t.columns[COL_F_PRE_OFFSET + 5].evaluations[0].to_u64(), 1);
    assert_eq!(t.columns[COL_F_PRE_OFFSET + 4].evaluations[0].to_u64(), 0);
}
