//! Invocations of the pair hash in a Merkle tree.

use crate::sha256;
use vstd::prelude::*;

verus! {

/// One `sha256_pair(left, right) -> hash` invocation.
#[derive(Clone, Copy, Debug, PartialEq, Eq)]
pub struct Sha256PairInvocation {
    pub left: [u8; 32],
    pub right: [u8; 32],
    pub hash: [u8; 32],
}

/// The operands and the result of an invocation.
pub struct Pair {
    pub left: Seq<u8>,
    pub right: Seq<u8>,
    pub hash: Seq<u8>,
}

impl View for Sha256PairInvocation {
    type V = Pair;

    open spec fn view(&self) -> Pair {
        Pair { left: self.left@, right: self.right@, hash: self.hash@ }
    }
}

impl Pair {
    /// The result is the hash of the operands.
    pub open spec fn honest(self) -> bool {
        self.hash == sha256::hash_pair(self.left, self.right)
    }
}

/// The views of a list of invocations.
pub open spec fn pairs(v: Seq<Sha256PairInvocation>) -> Seq<Pair> {
    Seq::new(v.len(), |i: int| v[i]@)
}

} // verus!
