use zkp::beacon::Checkpoint;
use zkp::epoch_transition::{
    compute_epoch_attesting_balance, verify_finalization_from_justification, verify_justification,
    EpochTransitionWitness,
};
use zkp::validator_set::ValidatorState;

fn make_witness(attesting: u64, total: u64) -> EpochTransitionWitness {
    EpochTransitionWitness {
        epoch: 10,
        previous_justified: Checkpoint { epoch: 8, root: [0; 32] },
        current_justified: Checkpoint { epoch: 9, root: [1; 32] },
        finalized: Checkpoint { epoch: 8, root: [0; 32] },
        target_root: [2; 32],
        attesting_balance: attesting,
        total_balance: total,
    }
}

#[test]
fn justification_passes_supermajority() {
    let w = make_witness(700, 1000);
    assert!(verify_justification(&w).unwrap());
}

#[test]
fn justification_fails_below_threshold() {
    let w = make_witness(600, 1000);
    assert!(!verify_justification(&w).unwrap());
}

#[test]
fn justification_rejects_zero_balance() {
    let w = make_witness(0, 0);
    assert!(verify_justification(&w).is_err());
}

#[test]
fn finalization_valid() {
    let cp = Checkpoint { epoch: 8, root: [0; 32] };
    verify_finalization_from_justification(10, &cp, 8).unwrap();
}

#[test]
fn finalization_justified_too_recent() {
    let cp = Checkpoint { epoch: 10, root: [0; 32] };
    assert!(verify_finalization_from_justification(10, &cp, 9).is_err());
}

#[test]
fn epoch_balance_computation() {
    let vals: Vec<ValidatorState> = (0..10).map(|i| ValidatorState {
        pubkey: { let mut p = [0u8; 48]; p[0] = i; p },
        effective_balance: 32_000_000_000,
        slashed: false,
        activation_epoch: 0,
        exit_epoch: u64::MAX,
    }).collect();
    let part: Vec<bool> = (0..10).map(|i| i < 7).collect();
    let (att, tot) = compute_epoch_attesting_balance(&vals, &part, 5);
    assert_eq!(tot, 10 * 32_000_000_000);
    assert_eq!(att, 7 * 32_000_000_000);
}
