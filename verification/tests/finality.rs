use zkp::beacon::Checkpoint;
use zkp::epoch_transition::{
    compute_epoch_attesting_balance, verify_finalization_from_justification, verify_justification,
    EpochTransitionWitness,
};
use zkp::ffg_checkpoint_chain::{verify_checkpoint_chain, verify_finalization_reachable};
use zkp::validator_set::{is_supermajority, ValidatorState};

fn at(epoch: u64, tag: u8) -> Checkpoint {
    Checkpoint { epoch, root: [tag; 32] }
}

fn transition(attesting_balance: u64, total_balance: u64) -> EpochTransitionWitness {
    EpochTransitionWitness {
        epoch: 3,
        previous_justified: at(1, 1),
        current_justified: at(2, 2),
        finalized: at(1, 1),
        target_root: [9; 32],
        attesting_balance,
        total_balance,
    }
}

fn validator(effective_balance: u64, slashed: bool, from: u64, to: u64) -> ValidatorState {
    ValidatorState {
        pubkey: [0; 48],
        effective_balance,
        slashed,
        activation_epoch: from,
        exit_epoch: to,
    }
}

#[test]
fn two_thirds_justify_and_less_does_not() {
    assert_eq!(verify_justification(&transition(2, 3)), Ok(true));
    assert_eq!(verify_justification(&transition(1999, 3000)), Ok(false));
    assert!(is_supermajority(u64::MAX, u64::MAX));
    assert!(!is_supermajority(u64::MAX / 3, u64::MAX));
}

#[test]
fn more_support_keeps_a_target_justified() {
    let mut before = false;
    for attesting in 0..=12 {
        let now = verify_justification(&transition(attesting, 12)).unwrap();
        assert!(now || !before);
        assert_eq!(now, attesting >= 8);
        before = now;
    }
}

#[test]
fn empty_total_is_an_error() {
    assert_eq!(verify_justification(&transition(5, 0)), Err("zero total balance".to_string()));
}

#[test]
fn finalization_errors() {
    assert_eq!(
        verify_finalization_from_justification(8, &at(8, 0), 0),
        Err("justified epoch too recent for finalization".to_string()),
    );
    assert_eq!(
        verify_finalization_from_justification(8, &at(7, 0), 8),
        Err("finalized epoch ahead of justified epoch".to_string()),
    );
    assert_eq!(verify_finalization_from_justification(8, &at(7, 0), 7), Ok(()));
}

#[test]
fn only_active_unslashed_participants_attest() {
    let vs = vec![
        validator(1, false, 0, 10),
        validator(2, true, 0, 10),
        validator(4, false, 6, 10),
        validator(8, false, 0, 5),
        validator(16, false, 5, 6),
        validator(32, false, 0, 10),
    ];
    let marks = vec![true, true, true, true, true];
    assert_eq!(compute_epoch_attesting_balance(&vs, &marks, 5), (1 + 16, 1 + 2 + 16 + 32));
    assert_eq!(compute_epoch_attesting_balance(&vs, &[], 5), (0, 1 + 2 + 16 + 32));
}

#[test]
fn chain_errors() {
    assert_eq!(verify_checkpoint_chain(&[]), Err("empty checkpoint chain".to_string()));
    assert_eq!(verify_checkpoint_chain(&[at(5, 0)]), Ok(()));
    assert_eq!(
        verify_checkpoint_chain(&[at(5, 0), at(6, 1), at(6, 2)]),
        Err("epoch not strictly increasing: chain[2].epoch=6 <= chain[1].epoch=6".to_string()),
    );
}

#[test]
fn reachability_errors() {
    let chain = [at(1, 1), at(4, 4)];
    assert_eq!(verify_finalization_reachable(&at(1, 1), &at(4, 4), &chain), Ok(()));
    assert_eq!(
        verify_finalization_reachable(&at(1, 1), &at(4, 4), &[]),
        Err("empty chain".to_string()),
    );
    assert_eq!(
        verify_finalization_reachable(&at(1, 2), &at(4, 4), &chain),
        Err("chain doesn't start at anchor".to_string()),
    );
    assert_eq!(
        verify_finalization_reachable(&at(1, 1), &at(5, 4), &chain),
        Err("chain doesn't end at finalized".to_string()),
    );
    assert!(verify_finalization_reachable(&at(4, 4), &at(1, 1), &[at(4, 4), at(1, 1)]).is_err());
    assert_eq!(verify_finalization_reachable(&at(1, 1), &at(1, 1), &[at(1, 1)]), Ok(()));
}
