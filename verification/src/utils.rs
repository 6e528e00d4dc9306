//! Small checks.
use vstd::prelude::*;
use crate::pubkey::Pubkey;

verus! {

/// Whether the signer is the expected key.
pub fn verify_signer(signer: &Pubkey, expected: &Pubkey) -> (r: bool)
    ensures
        r == (*signer == *expected),
{
    *signer == *expected
}

} // verus!
