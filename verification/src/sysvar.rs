//! The calls that read the instructions sysvar's account data: the index of
//! the running instruction and each instruction of the transaction. Each item
//! here is trusted: its contract restates what the called function's source
//! shows.
use vstd::prelude::*;
use crate::le::le_value;
use crate::pubkey::Pubkey;
use crate::sigverify::InstructionRecord;

verus! {

/// The program id and data of the instruction at `index` that the
/// instructions sysvar's account data `data` describes; `None` where that data
/// holds no such instruction.
pub uninterp spec fn sysvar_instruction(data: Seq<u8>, index: nat) -> Option<(Seq<u8>, Seq<u8>)>;

/// The address of the instructions sysvar,
/// `Sysvar1nstructions1111111111111111111111111`.
pub open spec fn instructions_sysvar_id() -> Seq<u8> {
    seq![
        6u8, 167, 213, 23, 24, 123, 209, 102, 53, 218, 212, 4, 85, 253, 194, 192,
        193, 36, 198, 143, 33, 86, 117, 165, 219, 186, 203, 95, 8, 0, 0, 0,
    ]
}

/// Compares with `solana_program::sysvar::instructions::ID`. Trusted: that
/// constant is the address `Sysvar1nstructions1111111111111111111111111`,
/// whose bytes `instructions_sysvar_id` spells out.
#[verifier::external_body]
pub(crate) fn is_instructions_sysvar(id: &Pubkey) -> (r: bool)
    ensures
        r == (id.bytes@ == instructions_sysvar_id()),
{
    solana_program::pubkey::Pubkey::new_from_array(id.bytes) == solana_program::sysvar::instructions::ID
}

/// Calls `solana_program::sysvar::instructions::load_current_index`. Trusted:
/// as its source shows, it reads the last two bytes of the data as a
/// little-endian number; it needs at least two bytes.
#[allow(deprecated)]
#[verifier::external_body]
pub(crate) fn load_current_index(data: &[u8]) -> (i: u16)
    requires
        data@.len() >= 2,
    ensures
        i as nat == le_value(data@.subrange(data@.len() - 2, data@.len() as int)),
{
    solana_program::sysvar::instructions::load_current_index(data)
}

/// Calls `solana_program::sysvar::instructions::load_instruction_at`. Trusted:
/// the result is the instruction named `sysvar_instruction`, by its program id
/// and data, and `None` where the crate returns an error. The source reads
/// every field with a bounds check, so it does not panic. How the data
/// lays out the instructions is left unsaid.
#[allow(deprecated)]
#[verifier::external_body]
pub(crate) fn load_instruction_at(data: &[u8], index: usize) -> (r: Option<InstructionRecord>)
    ensures
        match r {
            Some(rec) => sysvar_instruction(data@, index as nat) == Some(
                (rec.program_id.bytes@, rec.data@),
            ),
            None => sysvar_instruction(data@, index as nat) is None,
        },
{
    match solana_program::sysvar::instructions::load_instruction_at(index, data) {
        Ok(ix) => Some(InstructionRecord { program_id: Pubkey { bytes: ix.program_id.to_bytes() }, data: ix.data }),
        Err(_) => None,
    }
}

} // verus!
