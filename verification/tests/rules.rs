use zkp::epoch_processing_air as epoch;
use zkp::eth1_data_voting_air as eth1;
use zkp::evm_create2_input_air as create2;
use zkp::evm_create_rlp_air as rlp;
use zkp::field::{CurveType, Scalar};

const ETH: u64 = epoch::GWEI_PER_ETH;

#[test]
fn hysteresis_steps() {
    let step = epoch::apply_hysteresis_step;
    assert_eq!(step(31 * ETH + ETH / 4, 30 * ETH, false), (30 * ETH, 0));
    assert_eq!(step(31 * ETH + ETH / 4 + 1, 30 * ETH, false), (31 * ETH, 1));
    assert_eq!(step(30 * ETH - ETH / 4, 30 * ETH, false), (30 * ETH, 0));
    assert_eq!(step(30 * ETH - ETH / 4 - 1, 30 * ETH, false), (29 * ETH, -1));
}

#[test]
fn hysteresis_at_the_cap_and_at_zero() {
    let step = epoch::apply_hysteresis_step;
    assert_eq!(step(40 * ETH, 32 * ETH, false), (32 * ETH, 0));
    assert_eq!(step(40 * ETH, 32 * ETH, true), (33 * ETH, 1));
    assert_eq!(step(3000 * ETH, 2048 * ETH, true), (2048 * ETH, 0));
    assert_eq!(step(0, ETH / 2, false), (0, -1));
    assert_eq!(step(40 * ETH, 50 * ETH, false), (32 * ETH, -1));
    assert_eq!(step(u64::MAX, 0, false), (ETH, 1));
    assert_eq!(step(0, u64::MAX, false), (32 * ETH, -1));
}

#[test]
fn effective_balances_stay_on_the_grid() {
    for start in [0, 1, 16, 31, 32] {
        for balance in [0, ETH / 3, 15 * ETH, 32 * ETH, 90 * ETH] {
            let (post, direction) = epoch::apply_hysteresis_step(balance, start * ETH, false);
            assert_eq!(post % ETH, 0);
            assert!(post <= 32 * ETH);
            assert_eq!(post as i128, (start * ETH) as i128 + direction as i128 * ETH as i128);
        }
    }
}

#[test]
fn epoch_row_holds_bytes_and_slacks() {
    let w = epoch::from_validator_epoch(
        0x0102,
        30 * ETH,
        32 * ETH,
        30 * ETH,
        31 * ETH,
        0,
        2 * ETH,
        true,
        false,
    );
    let t = epoch::build_trace_polynomials(&w, CurveType::Bls12381);
    let cell = |c: usize| t.columns[c].evaluations[0].to_u64();
    assert_eq!(cell(epoch::COL_VALIDATOR_INDEX), 0x0102);
    assert_eq!(cell(epoch::COL_VI_BYTE_OFFSET), 2);
    assert_eq!(cell(epoch::COL_VI_BYTE_OFFSET + 1), 1);
    assert_eq!(cell(epoch::COL_EB_STEP_COUNT), 31);
    assert_eq!(cell(epoch::COL_CAP_SLACK), ETH);
    assert_eq!(cell(epoch::COL_SLACK_UP), 32 * ETH - 30 * ETH - epoch::HYSTERESIS_UP_THRESHOLD);
    assert_eq!(cell(epoch::COL_IS_ACTIVE), 1);
    assert_eq!(cell(epoch::COL_IS_REAL), 1);
}

#[test]
fn epoch_row_holds_the_slack_of_a_step_down() {
    let w = epoch::from_validator_epoch(
        2,
        32_000_000_000,
        31_500_000_000,
        32_000_000_000,
        31_000_000_000,
        500_000_000,
        0,
        true,
        false,
    );
    let t = epoch::build_trace_polynomials(&w, CurveType::Bls12381);
    let cell = |c: usize| t.columns[c].evaluations[0].to_u64();
    assert_eq!(cell(epoch::COL_DELTA_UP), 0);
    assert_eq!(cell(epoch::COL_DELTA_DOWN), 1);
    assert_eq!(cell(epoch::COL_DELTA_ZERO), 0);
    assert_eq!(cell(epoch::COL_SLACK_UP), 0);
    assert_eq!(cell(epoch::COL_SLACK_DOWN), 250_000_000);
    let refs: Vec<&Vec<Scalar>> = t.columns.iter().map(|c| &c.evaluations).collect();
    let cs = epoch::EpochProcessingConstraintSystem::new(1);
    for column in cs.evaluate_on_domain(&refs, 1) {
        assert!(column.iter().all(|v| v.is_zero()));
    }
}

#[test]
fn several_validators_in_one_trace() {
    let a = epoch::from_validator_epoch(1, ETH, ETH, ETH, ETH, 0, 0, true, false).rows[0].clone();
    let b = epoch::from_validator_epoch(2, 5 * ETH, 5 * ETH, 5 * ETH, 5 * ETH, 7, 7, true, true)
        .rows[0]
        .clone();
    let w = epoch::EpochProcessingWitness::from_rows(vec![a, b.clone(), b]);
    let t = epoch::build_trace_polynomials(&w, CurveType::Bls12381);
    assert_eq!((t.num_rows, t.padded_size), (3, 4));
    let refs: Vec<&Vec<Scalar>> = t.columns.iter().map(|c| &c.evaluations).collect();
    let cs = epoch::EpochProcessingConstraintSystem::new(3);
    for column in cs.evaluate_on_domain(&refs, 3) {
        assert_eq!(column.len(), 4);
        assert!(column.iter().all(|v| v.is_zero()));
    }
}

#[test]
fn votes_win_above_half_of_the_period() {
    let data = eth1::Eth1DataLite { deposit_root: [1; 32], deposit_count: 9, block_hash: [2; 32] };
    let win = eth1::from_eth1_data(data.clone(), 5, 33, 64);
    assert!(win.observations[0].is_winning_vote);
    let odd = eth1::from_eth1_data(data.clone(), 5, 33, 65);
    assert_eq!(odd.observations[0].vote_count_threshold, 32);
    assert!(odd.observations[0].is_winning_vote);
    let t = eth1::build_trace_polynomials(&win, CurveType::Bls12381);
    let cell = |c: usize| t.columns[c].evaluations[0].to_u64();
    assert_eq!(cell(eth1::COL_VOTE_MARGIN), 1);
    assert_eq!(cell(eth1::COL_SLOT), 5);
    assert_eq!(cell(eth1::COL_ETH1_DATA_HTR_OFFSET), data.hash_tree_root()[0] as u64);
    let all = eth1::Eth1DataVotingWitness::from_rows(vec![
        win.observations[0].clone(),
        odd.observations[0].clone(),
    ]);
    assert_eq!(all.observations.len(), 2);
}

#[test]
fn rlp_of_different_accounts_differs() {
    let (a, b) = ([1u8; 20], [2u8; 20]);
    assert_ne!(rlp::canonical_rlp(&a, 5), rlp::canonical_rlp(&b, 5));
    assert_ne!(rlp::canonical_rlp(&a, 5), rlp::canonical_rlp(&a, 6));
    assert_ne!(rlp::canonical_rlp(&a, 0), rlp::canonical_rlp(&a, 1));
    assert_eq!(rlp::nonce_rlp_byte(0), 0x80);
    assert_eq!(rlp::nonce_rlp_byte(9), 9);
}

#[test]
fn rlp_nonce_inverse_column() {
    for curve in [CurveType::Bls48581, CurveType::Bls12381] {
        let s = [7u8; 20];
        let w = rlp::CreateRlpWitness::from_inputs(&[(&s, 5), (&s, 0)]).unwrap();
        let t = rlp::build_trace_polynomials(&w, curve);
        let inverse = &t.columns[rlp::COL_NONCE_INV].evaluations;
        assert!(inverse[0].mul(&Scalar::from_u64(5, curve)).is_one());
        assert!(inverse[1].is_zero());
    }
}

#[test]
fn oversize_nonce_message() {
    let s = [0u8; 20];
    match rlp::CreateRlpWitness::from_inputs(&[(&s, 1), (&s, 128)]) {
        Ok(_) => panic!("must be rejected"),
        Err(e) => assert!(e.contains("only nonces in [0, 128) are supported")),
    }
}

#[test]
fn sender_limbs_are_little_endian() {
    let mut s = [0u8; 20];
    s[0] = 1;
    s[8] = 2;
    s[19] = 3;
    assert_eq!(rlp::sender_limbs_from_bytes(&s), [1, 2, 3 << 24, 0]);
}

#[test]
fn create2_inputs_determine_the_bytes() {
    let (s, salt, init) = ([1u8; 20], [2u8; 32], [3u8; 32]);
    let base = create2::canonical_create2_input(&s, &salt, &init);
    assert_eq!(base.len(), 85);
    assert_ne!(base, create2::canonical_create2_input(&[9; 20], &salt, &init));
    assert_ne!(base, create2::canonical_create2_input(&s, &[9; 32], &init));
    assert_ne!(base, create2::canonical_create2_input(&s, &salt, &[9; 32]));
}

#[test]
fn byte_weights_are_powers_of_256() {
    let w = eth1::le_u64_decomp_weights();
    assert_eq!(w.len(), 8);
    for (k, (index, weight)) in w.iter().enumerate() {
        assert_eq!(*index, k);
        assert_eq!(*weight, 1u64 << (8 * k));
    }
}
