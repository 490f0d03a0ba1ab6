//! Casper FFG checkpoint chain oracle.
//!
//! Verifies that a sequence of checkpoints forms a valid FFG
//! justification chain: each target is at a higher epoch than what comes
//! before it.

use crate::beacon;
use crate::beacon::{same_checkpoint, Checkpoint};
use crate::label;
use vstd::prelude::*;
use vstd::string::*;

verus! {

/// Checkpoint `i` lies after the one before it.
pub open spec fn advances(chain: Seq<Checkpoint>, i: int) -> bool {
    chain[i - 1].epoch < chain[i].epoch
}

/// The first `n` checkpoints have strictly increasing epochs.
pub open spec fn increasing(chain: Seq<Checkpoint>, n: int) -> bool {
    forall|i: int| 1 <= i < n ==> #[trigger] advances(chain, i)
}

/// A chain is valid: it is not empty and its epochs strictly increase.
pub open spec fn valid_chain(chain: Seq<Checkpoint>) -> bool {
    chain.len() > 0 && increasing(chain, chain.len() as int)
}

/// The message about the first checkpoint that does not advance.
pub open spec fn stall_message(chain: Seq<Checkpoint>, i: int) -> Seq<char> {
    "epoch not strictly increasing: chain["@ + label::decimal(i as nat) + "].epoch="@
        + label::decimal(chain[i].epoch as nat) + " <= chain["@ + label::decimal((i - 1) as nat)
        + "].epoch="@ + label::decimal(chain[i - 1].epoch as nat)
}

/// What a check of a chain answers.
pub open spec fn chain_answer(chain: Seq<Checkpoint>, r: Result<(), String>) -> bool {
    &&& r is Ok <==> valid_chain(chain)
    &&& r matches Err(e) ==> {
        if chain.len() == 0 {
            e@ == "empty checkpoint chain"@
        } else {
            exists|i: int|
                1 <= i < chain.len() && increasing(chain, i) && !(#[trigger] advances(chain, i))
                    && e@ == stall_message(chain, i)
        }
    }
}

fn stall_text(i: usize, epoch: u64, before: u64) -> (r: String)
    requires
        i >= 1,
    ensures
        r@ == "epoch not strictly increasing: chain["@ + label::decimal(i as nat) + "].epoch="@
            + label::decimal(epoch as nat) + " <= chain["@ + label::decimal((i - 1) as nat)
            + "].epoch="@ + label::decimal(before as nat),
{
    let mut text: String = "epoch not strictly increasing: chain[".to_string();
    text.append(label::decimal_string(i as u64).as_str());
    text.append("].epoch=");
    text.append(label::decimal_string(epoch).as_str());
    text.append(" <= chain[");
    text.append(label::decimal_string((i - 1) as u64).as_str());
    text.append("].epoch=");
    text.append(label::decimal_string(before).as_str());
    text
}

/// Verify a sequence of checkpoints forms a valid FFG chain: it is not empty,
/// and its epochs are strictly increasing.
pub fn verify_checkpoint_chain(chain: &[Checkpoint]) -> (r: Result<(), String>)
    ensures
        chain_answer(chain@, r),
{
    if chain.is_empty() {
        return Err("empty checkpoint chain".to_string());
    }
    let mut i: usize = 1;
    while i < chain.len()
        invariant
            1 <= i <= chain.len(),
            increasing(chain@, i as int),
        decreases chain.len() - i,
    {
        if chain[i].epoch <= chain[i - 1].epoch {
            assert(!advances(chain@, i as int));
            return Err(stall_text(i, chain[i].epoch, chain[i - 1].epoch));
        }
        assert(advances(chain@, i as int));
        i = i + 1;
    }
    Ok(())
}

/// A finalized checkpoint is reachable from an anchor: the chain is valid,
/// starts at the anchor and ends at the checkpoint.
pub open spec fn reachable(anchor: Checkpoint, finalized: Checkpoint, chain: Seq<Checkpoint>) -> bool {
    valid_chain(chain) && beacon::same(chain[0], anchor) && beacon::same(chain.last(), finalized)
}

/// Verify that a finalized checkpoint is reachable from a genesis
/// anchor via a chain of justified checkpoints with strictly
/// increasing epochs.
pub fn verify_finalization_reachable(
    anchor: &Checkpoint,
    finalized: &Checkpoint,
    chain: &[Checkpoint],
) -> (r: Result<(), String>)
    ensures
        r is Ok <==> reachable(*anchor, *finalized, chain@),
        r matches Err(e) ==> {
            if chain.len() == 0 {
                e@ == "empty chain"@
            } else if !beacon::same(chain@[0], *anchor) {
                e@ == "chain doesn't start at anchor"@
            } else if !beacon::same(chain@.last(), *finalized) {
                e@ == "chain doesn't end at finalized"@
            } else {
                chain_answer(chain@, r)
            }
        },
{
    if chain.is_empty() {
        return Err("empty chain".to_string());
    }
    if !same_checkpoint(&chain[0], anchor) {
        return Err("chain doesn't start at anchor".to_string());
    }
    if !same_checkpoint(&chain[chain.len() - 1], finalized) {
        return Err("chain doesn't end at finalized".to_string());
    }
    verify_checkpoint_chain(chain)
}

/// In a valid chain a later checkpoint has a later epoch, however far apart
/// the two are.
pub proof fn law_epochs_increase(chain: Seq<Checkpoint>, i: int, j: int)
    requires
        valid_chain(chain),
        0 <= i < j < chain.len(),
    ensures
        chain[i].epoch < chain[j].epoch,
    decreases j - i,
{
    assert(advances(chain, j));
    if i < j - 1 {
        law_epochs_increase(chain, i, j - 1);
    }
}

/// What is finalized through a chain lies after its anchor, unless it is the
/// anchor.
pub proof fn law_finalized_after_anchor(
    anchor: Checkpoint,
    finalized: Checkpoint,
    chain: Seq<Checkpoint>,
)
    requires
        reachable(anchor, finalized, chain),
    ensures
        anchor.epoch < finalized.epoch || beacon::same(anchor, finalized),
{
    if chain.len() > 1 {
        law_epochs_increase(chain, 0, chain.len() - 1);
    }
}

/// A chain is valid exactly if it is not empty and every checkpoint has a later
/// epoch than all checkpoints before it.
pub proof fn law_valid_chain(chain: Seq<Checkpoint>)
    ensures
        valid_chain(chain) <==> chain.len() > 0 && forall|i: int, j: int|
            0 <= i < j < chain.len() ==> (#[trigger] chain[i]).epoch < (#[trigger] chain[j]).epoch,
{
    if valid_chain(chain) {
        assert forall|i: int, j: int| 0 <= i < j < chain.len() implies (
        #[trigger] chain[i]).epoch < (#[trigger] chain[j]).epoch by {
            law_epochs_increase(chain, i, j);
        }
    }
}

/// What a chain through which a checkpoint is reachable looks like: it starts
/// with the epoch and root of the anchor, and ends with those of the
/// checkpoint.
pub proof fn law_reachable_ends(anchor: Checkpoint, finalized: Checkpoint, chain: Seq<Checkpoint>)
    ensures
        reachable(anchor, finalized, chain) <==> valid_chain(chain) && chain[0].epoch
            == anchor.epoch && chain[0].root@ == anchor.root@ && chain[chain.len() - 1].epoch
            == finalized.epoch && chain[chain.len() - 1].root@ == finalized.root@,
{
}

} // verus!
