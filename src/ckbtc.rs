//! Sub-account derivation for ledger addresses owned on a user's behalf.
use vstd::prelude::*;

verus! {

/// The sub-account of a principal: its bytes right-aligned in 32 bytes,
/// zero-padded on the left.
pub open spec fn sub_account_of(principal: Seq<u8>, j: int) -> u8 {
    let i = 31 - j;
    if i < principal.len() {
        principal[principal.len() - 1 - i]
    } else {
        0
    }
}

/// The 32-byte sub-account that stands for `principal`.
pub fn sub_account(principal: &[u8]) -> (r: [u8; 32])
    ensures
        forall|j: int| 0 <= j < 32 ==> r@[j] == sub_account_of(principal@, j),
{
    let mut buffer: [u8; 32] = [0u8; 32];
    let mut i: usize = 0;
    while i < 32
        invariant
            i <= 32,
            forall|k: int| 31 - i < k < 32 ==> buffer@[k] == sub_account_of(principal@, k),
        decreases 32 - i,
    {
        let b: u8 = if i < principal.len() {
            principal[principal.len() - 1 - i]
        } else {
            0
        };
        buffer[31 - i] = b;
        i = i + 1;
    }
    buffer
}

} // verus!
