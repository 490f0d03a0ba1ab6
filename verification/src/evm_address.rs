//! Addresses as limbs: twenty bytes in words of eight, eight and four.

use crate::bytes;
use crate::constraints;
use vstd::prelude::*;

verus! {

/// Limb `k` of an address, little-endian; the fourth is zero.
pub open spec fn limb(sender: Seq<u8>, k: int) -> int {
    if k == 0 {
        bytes::le_value(sender.subrange(0, 8))
    } else if k == 1 {
        bytes::le_value(sender.subrange(8, 16))
    } else if k == 2 {
        bytes::le_value(sender.subrange(16, 20))
    } else {
        0
    }
}

/// Word `k` of a byte string, little-endian.
pub open spec fn word(s: Seq<u8>, k: int) -> int {
    bytes::le_value(s.subrange(8 * k, 8 * k + 8))
}

pub fn limbs(sender: &[u8; 20]) -> (r: [u64; 4])
    ensures
        forall|k: int| 0 <= k < 4 ==> r@[k] == limb(sender@, k),
{
    let top: [u8; 8] = [sender[16], sender[17], sender[18], sender[19], 0, 0, 0, 0];
    let l0: u64 = bytes::u64_from_le(sender.as_slice(), 0);
    let l1: u64 = bytes::u64_from_le(sender.as_slice(), 8);
    let l2: u64 = bytes::u64_from_le(top.as_slice(), 0);
    proof {
        let z = seq![0u8, 0u8, 0u8, 0u8];
        assert(top@.subrange(0, 8) =~= sender@.subrange(16, 20) + z);
        bytes::lemma_le_trailing_zeros(sender@.subrange(16, 20), z);
    }
    let r: [u64; 4] = [l0, l1, l2, 0];
    assert forall|k: int| 0 <= k < 4 implies r@[k] == limb(sender@, k) by {
        assert(k == 0 || k == 1 || k == 2 || k == 3);
    }
    r
}

pub fn words(s: &[u8; 32]) -> (r: [u64; 4])
    ensures
        forall|k: int| 0 <= k < 4 ==> r@[k] == word(s@, k),
{
    let r: [u64; 4] = [
        bytes::u64_from_le(s.as_slice(), 0),
        bytes::u64_from_le(s.as_slice(), 8),
        bytes::u64_from_le(s.as_slice(), 16),
        bytes::u64_from_le(s.as_slice(), 24),
    ];
    assert forall|k: int| 0 <= k < 4 implies r@[k] == word(s@, k) by {
        assert(k == 0 || k == 1 || k == 2 || k == 3);
    }
    r
}

proof fn lemma_little_endian(s: Seq<u8>)
    ensures
        s.len() == 8 ==> bytes::le_value(s) == s[0] + 0x100 * s[1] + 0x1_0000 * s[2] + 0x100_0000 * s[3] + 0x1_0000_0000 * s[4] + 0x100_0000_0000 * s[5] + 0x1_0000_0000_0000 * s[6] + 0x100_0000_0000_0000 * s[7],
        s.len() == 4 ==> bytes::le_value(s) == s[0] + 0x100 * s[1] + 0x1_0000 * s[2] + 0x100_0000 * s[3],
{
    if s.len() == 8 || s.len() == 4 {
        let row = Seq::new(s.len(), |k: int| s[k] as int);
        constraints::lemma_weighted_value(row, 0, s);
        constraints::lemma_weighted_bytes(row, 0);
    }
}

/// The limbs of an address: bytes 0 to 7, 8 to 15 and 16 to 19, each with the
/// lowest byte first, and zero.
pub proof fn law_limbs(a: Seq<u8>)
    requires
        a.len() == 20,
    ensures
        limb(a, 0) == a[0] + 0x100 * a[1] + 0x1_0000 * a[2] + 0x100_0000 * a[3] + 0x1_0000_0000 * a[4] + 0x100_0000_0000 * a[5] + 0x1_0000_0000_0000 * a[6] + 0x100_0000_0000_0000 * a[7],
        limb(a, 1) == a[8] + 0x100 * a[9] + 0x1_0000 * a[10] + 0x100_0000 * a[11] + 0x1_0000_0000 * a[12] + 0x100_0000_0000 * a[13] + 0x1_0000_0000_0000 * a[14] + 0x100_0000_0000_0000 * a[15],
        limb(a, 2) == a[16] + 0x100 * a[17] + 0x1_0000 * a[18] + 0x100_0000 * a[19],
        limb(a, 3) == 0,
{
    lemma_little_endian(a.subrange(0, 8));
    lemma_little_endian(a.subrange(8, 16));
    lemma_little_endian(a.subrange(16, 20));
}

/// The words of a byte string: eight bytes each, lowest first.
pub proof fn law_words(s: Seq<u8>, k: int)
    requires
        0 <= k,
        8 * k + 8 <= s.len(),
    ensures
        word(s, k) == s[8 * k + 0] + 0x100 * s[8 * k + 1] + 0x1_0000 * s[8 * k + 2] + 0x100_0000 * s[8 * k + 3] + 0x1_0000_0000 * s[8 * k + 4] + 0x100_0000_0000 * s[8 * k + 5] + 0x1_0000_0000_0000 * s[8 * k + 6] + 0x100_0000_0000_0000 * s[8 * k + 7],
{
    lemma_little_endian(s.subrange(8 * k, 8 * k + 8));
}

} // verus!
