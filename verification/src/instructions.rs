//! Node registration.
use vstd::prelude::*;
use crate::account_types::OracleNode;
use crate::oracle::OracleError;
use crate::pubkey::Pubkey;

verus! {

/// Registers a node: the signing authority owns it, and it starts active.
pub fn handler(
    node: &mut OracleNode,
    authority: Pubkey,
    node_id: u64,
    metadata: [u8; 64],
    bump: u8,
) -> (r: Result<(), OracleError>)
    ensures
        r == Ok::<(), OracleError>(()),
        *final(node) == (OracleNode { authority, node_id, status: 1, metadata, bump }),
{
    node.authority = authority;
    node.node_id = node_id;
    node.status = 1;
    node.metadata = metadata;
    node.bump = bump;
    Ok(())
}

} // verus!
