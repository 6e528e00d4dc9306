//! A multisig configuration record.
use vstd::prelude::*;
use crate::pubkey::Pubkey;

verus! {

/// The admin, the number of nodes, the signatures a decision needs and the
/// bump of the record's address.
#[derive(Clone, Copy, Debug)]
pub struct OracleConfig {
    pub admin: Pubkey,
    pub node_count: u64,
    pub min_signers: u8,
    pub bump: u8,
}

} // verus!
