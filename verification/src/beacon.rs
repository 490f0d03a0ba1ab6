//! Beacon chain checkpoints.

use vstd::prelude::*;

verus! {

/// A beacon chain checkpoint.
#[derive(Clone, Copy, Debug, PartialEq, Eq)]
pub struct Checkpoint {
    pub epoch: u64,
    pub root: [u8; 32],
}

/// Two checkpoints have the same epoch and root.
pub open spec fn same(a: Checkpoint, b: Checkpoint) -> bool {
    a.epoch == b.epoch && a.root@ == b.root@
}

/// Compares two checkpoints.
pub fn same_checkpoint(a: &Checkpoint, b: &Checkpoint) -> (r: bool)
    ensures
        r == same(*a, *b),
{
    if a.epoch != b.epoch {
        return false;
    }
    let mut i: usize = 0;
    while i < 32
        invariant
            i <= 32,
            forall|k: int| 0 <= k < i ==> a.root@[k] == b.root@[k],
        decreases 32 - i,
    {
        if a.root[i] != b.root[i] {
            return false;
        }
        i = i + 1;
    }
    assert(a.root@ =~= b.root@);
    true
}

} // verus!
