//! Epoch transition verification oracle.
//!
//! Verifies the justification and finalization state transitions
//! at epoch boundaries per Casper FFG rules.

use crate::beacon::Checkpoint;
use crate::validator_set;
use crate::validator_set::{
    is_supermajority, total_active_balance, total_attesting_balance, ValidatorState,
};
use vstd::prelude::*;

verus! {

#[derive(Clone, Debug)]
pub struct EpochTransitionWitness {
    pub epoch: u64,
    pub previous_justified: Checkpoint,
    pub current_justified: Checkpoint,
    pub finalized: Checkpoint,
    pub target_root: [u8; 32],
    pub attesting_balance: u64,
    pub total_balance: u64,
}

/// Whether the attesting balance justifies the target. An empty total is an
/// error.
pub fn verify_justification(w: &EpochTransitionWitness) -> (r: Result<bool, String>)
    ensures
        r is Err <==> w.total_balance == 0,
        r matches Err(e) ==> e@ == "zero total balance"@,
        r matches Ok(b) ==> b == validator_set::supermajority(
            w.attesting_balance as int,
            w.total_balance as int,
        ),
{
    if w.total_balance == 0 {
        return Err("zero total balance".to_string());
    }
    Ok(is_supermajority(w.attesting_balance, w.total_balance))
}

/// Checks that a checkpoint was justified before the current epoch and that
/// what is finalized does not lie ahead of it.
pub fn verify_finalization_from_justification(
    current_epoch: u64,
    justified: &Checkpoint,
    finalized_epoch: u64,
) -> (r: Result<(), String>)
    requires
        justified.epoch < u64::MAX,
    ensures
        r is Ok <==> justified.epoch < current_epoch && finalized_epoch <= justified.epoch,
        r matches Err(e) ==> e@ == if justified.epoch >= current_epoch {
            "justified epoch too recent for finalization"@
        } else {
            "finalized epoch ahead of justified epoch"@
        },
{
    if justified.epoch + 1 > current_epoch {
        return Err("justified epoch too recent for finalization".to_string());
    }
    if finalized_epoch > justified.epoch {
        return Err("finalized epoch ahead of justified epoch".to_string());
    }
    Ok(())
}

/// The balance of the validators that take part, and of all active ones.
pub fn compute_epoch_attesting_balance(
    validators: &[ValidatorState],
    participating: &[bool],
    epoch: u64,
) -> (r: (u64, u64))
    requires
        validator_set::active_balance(validators@, epoch, validators.len() as nat) <= u64::MAX,
    ensures
        r.0 == validator_set::attesting_balance(
            validators@,
            participating@,
            epoch,
            validators.len() as nat,
        ),
        r.1 == validator_set::active_balance(validators@, epoch, validators.len() as nat),
        r.0 <= r.1,
{
    let total: u64 = total_active_balance(validators, epoch);
    let attesting: u64 = total_attesting_balance(validators, participating, epoch);
    proof {
        validator_set::law_attesting_within_active(
            validators@,
            participating@,
            epoch,
            validators.len() as nat,
        );
    }
    (attesting, total)
}

/// More support never turns a justified target into an unjustified one.
pub proof fn law_justification_monotone(less: int, more: int, total: int)
    requires
        less <= more,
        validator_set::supermajority(less, total),
    ensures
        validator_set::supermajority(more, total),
{
}

} // verus!
