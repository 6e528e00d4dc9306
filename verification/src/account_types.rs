//! The node account that the node-registration instruction fills.
use vstd::prelude::*;
use crate::pubkey::Pubkey;

verus! {

/// A node account: its owner, id, status (0 inactive, 1 active, 2 disabled),
/// free-form metadata and the bump of its address.
#[derive(Clone, Copy, Debug)]
pub struct OracleNode {
    pub authority: Pubkey,
    pub node_id: u64,
    pub status: u8,
    pub metadata: [u8; 64],
    pub bump: u8,
}

} // verus!
