//! The ramp program: its configuration, its errors, the events it emits and
//! the rules of each instruction. The current slot is handed in by the caller.
use vstd::prelude::*;
use crate::crypto::{keccak256, keccak256_hash};
use crate::frame::{parse_transmit_frame, recover_signers, recovered_signers, spec_parse_frame};
use crate::le::{le_bytes, le_value, lemma_pow256_values, push_le};
use crate::whitelist::{is_first_open_slot, is_first_slot_of, lemma_first_open_slot_unique, lemma_first_slot_of_unique, whitelist_after_add, whitelist_after_remove};
pub use crate::oracle::TokenTransferMetadata;
use crate::pubkey::{empty_key, Pubkey};
use crate::quorum::{count_validators, has_majority, keys_view, reaches_majority, validators};
use crate::wire::{encode_metadata, metadata_fits, push_bytes};
#[allow(unused_imports)]
use vstd::string::StringSliceAdditionalSpecFns;

verus! {

/// The ramp's configuration.
#[derive(Clone, Copy, Debug, PartialEq, Eq)]
pub struct RampConfig {
    pub is_initialized: bool,
    pub authority: Pubkey,
    pub oracle_nodes: [Pubkey; 8],
    pub sender_whitelist: [Pubkey; 8],
    pub source_chain_whitelist: [u64; 8],
    pub destination_chain_whitelist: [u64; 8],
}

/// The ramp program's errors.
#[derive(Clone, Copy, Debug, PartialEq, Eq, Structural)]
pub enum RampError {
    AlreadyInitialized,
    Unauthorized,
    SenderWhitelistFull,
    SenderNotFound,
}

impl RampError {
    /// The message the program attaches to the error.
    pub fn message(&self) -> (s: &'static str)
        ensures
            s@ == match *self {
                RampError::AlreadyInitialized => "Already initialized"@,
                RampError::Unauthorized => "Unauthorized"@,
                RampError::SenderWhitelistFull => "Sender whitelist full"@,
                RampError::SenderNotFound => "Sender not found"@,
            },
    {
        match self {
            RampError::AlreadyInitialized => "Already initialized",
            RampError::Unauthorized => "Unauthorized",
            RampError::SenderWhitelistFull => "Sender whitelist full",
            RampError::SenderNotFound => "Sender not found",
        }
    }
}

/// Emitted when a request is accepted.
#[derive(Clone, Debug)]
pub struct RequestSend {
    pub sender: Pubkey,
    pub dst_chain_id: u64,
    pub receiver: String,
    pub message_id: [u8; 32],
    pub slot: u64,
    pub token_transfer_metadata: TokenTransferMetadata,
}

/// Emitted when the ramp is set up.
#[derive(Clone, Copy, Debug, PartialEq, Eq)]
pub struct Initialized {
    pub authority: Pubkey,
    pub slot: u64,
}

/// Emitted when the authority changes.
#[derive(Clone, Copy, Debug, PartialEq, Eq)]
pub struct AdminUpdated {
    pub old_authority: Pubkey,
    pub new_authority: Pubkey,
    pub slot: u64,
}

/// Emitted when the node set changes.
#[derive(Clone, Copy, Debug, PartialEq, Eq)]
pub struct OracleNodesUpdated {
    pub authority: Pubkey,
    pub node_pubkeys: [Pubkey; 8],
    pub slot: u64,
}

/// Emitted when a sender is (or already was) whitelisted.
#[derive(Clone, Copy, Debug, PartialEq, Eq)]
pub struct SenderAdded {
    pub authority: Pubkey,
    pub sender: Pubkey,
    pub slot: u64,
}

/// Emitted when a sender is withdrawn.
#[derive(Clone, Copy, Debug, PartialEq, Eq)]
pub struct SenderRemoved {
    pub authority: Pubkey,
    pub sender: Pubkey,
    pub slot: u64,
}

/// Emitted when the chain whitelists change.
#[derive(Clone, Copy, Debug, PartialEq, Eq)]
pub struct ChainWhitelistUpdated {
    pub authority: Pubkey,
    pub source_chain_ids: [u64; 8],
    pub destination_chain_ids: [u64; 8],
    pub slot: u64,
}

/// Emitted when a report is accepted.
#[derive(Clone, Copy, Debug, PartialEq, Eq)]
pub struct Transmitted {
    pub authority: Pubkey,
    pub sig_count: u32,
    pub unique_validators: u32,
    pub slot: u64,
}

/// The two configurations differ at most in their sender whitelists.
pub open spec fn same_but_senders(a: RampConfig, b: RampConfig) -> bool {
    &&& a.is_initialized == b.is_initialized
    &&& a.authority == b.authority
    &&& a.oracle_nodes == b.oracle_nodes
    &&& a.source_chain_whitelist == b.source_chain_whitelist
    &&& a.destination_chain_whitelist == b.destination_chain_whitelist
}

/// Sets up the ramp once, with `authority` in charge.
pub fn initialize(config: &mut RampConfig, authority: Pubkey, slot: u64) -> (r: Result<
    Initialized,
    RampError,
>)
    ensures
        old(config).is_initialized ==> r == Err::<Initialized, RampError>(
            RampError::AlreadyInitialized,
        ) && *final(config) == *old(config),
        !old(config).is_initialized ==> r == Ok::<Initialized, RampError>(Initialized { authority, slot })
            && *final(config) == (RampConfig { is_initialized: true, authority, ..*old(config) }),
{
    if config.is_initialized {
        return Err(RampError::AlreadyInitialized);
    }
    config.is_initialized = true;
    config.authority = authority;
    Ok(Initialized { authority, slot })
}

/// Hands the authority to `new_authority`; only the current authority may.
pub fn set_admin(
    config: &mut RampConfig,
    current_authority: &Pubkey,
    new_authority: Pubkey,
    slot: u64,
) -> (r: Result<AdminUpdated, RampError>)
    ensures
        *current_authority != old(config).authority ==> r == Err::<AdminUpdated, RampError>(
            RampError::Unauthorized,
        ) && *final(config) == *old(config),
        *current_authority == old(config).authority ==> r == Ok::<AdminUpdated, RampError>(
            AdminUpdated { old_authority: old(config).authority, new_authority, slot },
        ) && *final(config) == (RampConfig { authority: new_authority, ..*old(config) }),
{
    if *current_authority != config.authority {
        return Err(RampError::Unauthorized);
    }
    let old_authority = config.authority;
    config.authority = new_authority;
    Ok(AdminUpdated { old_authority, new_authority, slot })
}

/// Replaces the node set; only the authority may.
pub fn set_oracle_nodes(
    config: &mut RampConfig,
    authority: &Pubkey,
    node_pubkeys: [Pubkey; 8],
    slot: u64,
) -> (r: Result<OracleNodesUpdated, RampError>)
    ensures
        *authority != old(config).authority ==> r == Err::<OracleNodesUpdated, RampError>(
            RampError::Unauthorized,
        ) && *final(config) == *old(config),
        *authority == old(config).authority ==> r == Ok::<OracleNodesUpdated, RampError>(
            OracleNodesUpdated { authority: *authority, node_pubkeys, slot },
        ) && *final(config) == (RampConfig { oracle_nodes: node_pubkeys, ..*old(config) }),
{
    if *authority != config.authority {
        return Err(RampError::Unauthorized);
    }
    config.oracle_nodes = node_pubkeys;
    Ok(OracleNodesUpdated { authority: *authority, node_pubkeys, slot })
}

/// Replaces both chain whitelists; only the authority may.
pub fn set_chain_whitelist(
    config: &mut RampConfig,
    authority: &Pubkey,
    source_chain_ids: [u64; 8],
    destination_chain_ids: [u64; 8],
    slot: u64,
) -> (r: Result<ChainWhitelistUpdated, RampError>)
    ensures
        *authority != old(config).authority ==> r == Err::<ChainWhitelistUpdated, RampError>(
            RampError::Unauthorized,
        ) && *final(config) == *old(config),
        *authority == old(config).authority ==> r == Ok::<ChainWhitelistUpdated, RampError>(
            ChainWhitelistUpdated {
                authority: *authority,
                source_chain_ids,
                destination_chain_ids,
                slot,
            },
        ) && *final(config) == (RampConfig {
            source_chain_whitelist: source_chain_ids,
            destination_chain_whitelist: destination_chain_ids,
            ..*old(config)
        }),
{
    if *authority != config.authority {
        return Err(RampError::Unauthorized);
    }
    config.source_chain_whitelist = source_chain_ids;
    config.destination_chain_whitelist = destination_chain_ids;
    Ok(ChainWhitelistUpdated { authority: *authority, source_chain_ids, destination_chain_ids, slot })
}


/// Whitelists `sender`: it goes into the first slot that is empty or already
/// holds it. Only the authority may; a whitelist full of other senders refuses.
pub fn add_sender(config: &mut RampConfig, authority: &Pubkey, sender: Pubkey, slot: u64) -> (r:
    Result<SenderAdded, RampError>)
    ensures
        *authority != old(config).authority ==> r == Err::<SenderAdded, RampError>(
            RampError::Unauthorized,
        ),
        *authority == old(config).authority && whitelist_after_add(
            old(config).sender_whitelist@,
            sender,
        ) is None ==> r == Err::<SenderAdded, RampError>(RampError::SenderWhitelistFull),
        r is Err ==> *final(config) == *old(config),
        *authority == old(config).authority && whitelist_after_add(
            old(config).sender_whitelist@,
            sender,
        ) is Some ==> {
            &&& r == Ok::<SenderAdded, RampError>(SenderAdded { authority: *authority, sender, slot })
            &&& same_but_senders(*final(config), *old(config))
            &&& Some(final(config).sender_whitelist@) == whitelist_after_add(
                old(config).sender_whitelist@,
                sender,
            )
        },
{
    if *authority != config.authority {
        return Err(RampError::Unauthorized);
    }
    let ghost w = config.sender_whitelist@;
    let mut i: usize = 0;
    while i < 8
        invariant
            i <= 8,
            *config == *old(config),
            *authority == old(config).authority,
            w == old(config).sender_whitelist@,
            forall|j: int| 0 <= j < i ==> !(#[trigger] w[j]).is_default() && w[j] != sender,
        decreases 8 - i,
    {
        if config.sender_whitelist[i].is_default_key() {
            config.sender_whitelist[i] = sender;
            proof {
                assert(is_first_open_slot(w, sender, i as int));
                let k = choose|k: int| is_first_open_slot(w, sender, k);
                lemma_first_open_slot_unique(w, sender, i as int, k);
                assert(config.sender_whitelist@ =~= w.update(i as int, sender));
            }
            return Ok(SenderAdded { authority: *authority, sender, slot });
        }
        if config.sender_whitelist[i] == sender {
            proof {
                assert(is_first_open_slot(w, sender, i as int));
                let k = choose|k: int| is_first_open_slot(w, sender, k);
                lemma_first_open_slot_unique(w, sender, i as int, k);
                assert(w.update(i as int, sender) =~= w);
            }
            return Ok(SenderAdded { authority: *authority, sender, slot });
        }
        i = i + 1;
    }
    Err(RampError::SenderWhitelistFull)
}

/// Withdraws `sender`: the first slot that holds it is emptied. Only the
/// authority may; a sender that no slot holds is refused.
pub fn remove_sender(config: &mut RampConfig, authority: &Pubkey, sender: Pubkey, slot: u64) -> (r:
    Result<SenderRemoved, RampError>)
    ensures
        *authority != old(config).authority ==> r == Err::<SenderRemoved, RampError>(
            RampError::Unauthorized,
        ),
        *authority == old(config).authority && whitelist_after_remove(
            old(config).sender_whitelist@,
            sender,
        ) is None ==> r == Err::<SenderRemoved, RampError>(RampError::SenderNotFound),
        r is Err ==> *final(config) == *old(config),
        *authority == old(config).authority && whitelist_after_remove(
            old(config).sender_whitelist@,
            sender,
        ) is Some ==> {
            &&& r == Ok::<SenderRemoved, RampError>(SenderRemoved { authority: *authority, sender, slot })
            &&& same_but_senders(*final(config), *old(config))
            &&& Some(final(config).sender_whitelist@) == whitelist_after_remove(
                old(config).sender_whitelist@,
                sender,
            )
        },
{
    if *authority != config.authority {
        return Err(RampError::Unauthorized);
    }
    let ghost w = config.sender_whitelist@;
    let mut i: usize = 0;
    while i < 8
        invariant
            i <= 8,
            *config == *old(config),
            *authority == old(config).authority,
            w == old(config).sender_whitelist@,
            forall|j: int| 0 <= j < i ==> #[trigger] w[j] != sender,
        decreases 8 - i,
    {
        if config.sender_whitelist[i] == sender {
            config.sender_whitelist[i] = Pubkey::default();
            proof {
                assert(is_first_slot_of(w, sender, i as int));
                let k = choose|k: int| is_first_slot_of(w, sender, k);
                lemma_first_slot_of_unique(w, sender, i as int, k);
                assert(config.sender_whitelist@ =~= w.update(i as int, empty_key()));
            }
            return Ok(SenderRemoved { authority: *authority, sender, slot });
        }
        i = i + 1;
    }
    Err(RampError::SenderNotFound)
}

/// Accepts a report once enough distinct nodes signed it: the signers are the
/// recovered keys.
pub fn finish_transmit(
    config: &RampConfig,
    recovered: &Vec<Option<[u8; 64]>>,
    sig_count: usize,
    slot: u64,
) -> (r: Result<Transmitted, RampError>)
    requires
        sig_count <= 0xffff_ffff,
    ensures
        !reaches_majority(config.oracle_nodes@, keys_view(recovered@)) ==> r == Err::<
            Transmitted,
            RampError,
        >(RampError::Unauthorized),
        reaches_majority(config.oracle_nodes@, keys_view(recovered@)) ==> r == Ok::<
            Transmitted,
            RampError,
        >(
            Transmitted {
                authority: config.authority,
                sig_count: sig_count as u32,
                unique_validators: validators(config.oracle_nodes@, keys_view(recovered@)).len() as u32,
                slot,
            },
        ),
{
    let unique = count_validators(&config.oracle_nodes, recovered);
    if !has_majority(&config.oracle_nodes, recovered) {
        return Err(RampError::Unauthorized);
    }
    proof {
        let vs = validators(config.oracle_nodes@, keys_view(recovered@));
        assert(vs.subset_of(config.oracle_nodes@.to_set()));
        config.oracle_nodes@.lemma_cardinality_of_set();
        vstd::set_lib::lemma_len_subset(vs, config.oracle_nodes@.to_set());
    }
    Ok(
        Transmitted {
            authority: config.authority,
            sig_count: sig_count as u32,
            unique_validators: unique as u32,
            slot,
        },
    )
}

/// Accepts a signed report: more than half of the non-empty node slots must
/// have signed the digest of its report context, message and metadata.
pub fn transmit(config: &RampConfig, data: &[u8], slot: u64) -> (r: Result<Transmitted, RampError>)
    requires
        spec_parse_frame(data@) is Some,
    ensures
        ({
            let f = spec_parse_frame(data@)->0;
            &&& !reaches_majority(config.oracle_nodes@, recovered_signers(f)) ==> r == Err::<
                Transmitted,
                RampError,
            >(RampError::Unauthorized)
            &&& reaches_majority(config.oracle_nodes@, recovered_signers(f)) ==> r == Ok::<
                Transmitted,
                RampError,
            >(
                Transmitted {
                    authority: config.authority,
                    sig_count: f.signatures.len() as u32,
                    unique_validators: validators(config.oracle_nodes@, recovered_signers(f)).len() as u32,
                    slot,
                },
            )
        }),
{
    let frame = match parse_transmit_frame(data) {
        Some(f) => f,
        None => {
            assert(false);
            return Err(RampError::Unauthorized);
        },
    };
    assert(frame@ == spec_parse_frame(data@)->0);
    assert(frame@.signatures.len() == frame.signatures@.len());
    let recovered = recover_signers(&frame);
    proof {
        let d = data@;
        let o = crate::frame::count_offset(d);
        crate::le::lemma_le_value_bound(d.subrange(o, o + 4));
        lemma_pow256_values();
    }
    finish_transmit(config, &recovered, frame.signatures.len(), slot)
}

/// The bytes whose Keccak-256 digest identifies a request.
pub open spec fn request_digest_input(
    sender: Pubkey,
    dst_chain_id: u64,
    receiver: Seq<u8>,
    message: Seq<u8>,
    token_transfer_metadata: TokenTransferMetadata,
    slot: u64,
) -> Seq<u8> {
    sender.bytes@ + le_bytes(dst_chain_id as nat, 8) + receiver + message + encode_metadata(
        token_transfer_metadata,
    ) + le_bytes(slot as nat, 8)
}

/// What the bytes behind a request's identifier hold, in order: the sender's
/// 32-byte address; the destination chain in eight little-endian bytes; the
/// receiver's bytes; the message; the metadata's wire form (fields in
/// declaration order, see `lemma_metadata_layout`); and the slot in eight
/// little-endian bytes.
pub proof fn lemma_request_digest_input_layout(
    sender: Pubkey,
    dst_chain_id: u64,
    receiver: Seq<u8>,
    message: Seq<u8>,
    token_transfer_metadata: TokenTransferMetadata,
    slot: u64,
)
    requires
        metadata_fits(token_transfer_metadata),
    ensures
        ({
            let p = request_digest_input(
                sender,
                dst_chain_id,
                receiver,
                message,
                token_transfer_metadata,
                slot,
            );
            let r = receiver.len() as int;
            let q = 40 + r + message.len();
            let t = q + 68 + vstd::utf8::encode_utf8(token_transfer_metadata.extra_data@).len();
            &&& p.len() == t + 8
            &&& p.subrange(0, 32) == sender.bytes@
            &&& le_value(p.subrange(32, 40)) == dst_chain_id
            &&& p.subrange(40, 40 + r) == receiver
            &&& p.subrange(40 + r, q) == message
            &&& p.subrange(q, t) == encode_metadata(token_transfer_metadata)
            &&& le_value(p.subrange(t, t + 8)) == slot
        }),
{
    let p = request_digest_input(
        sender,
        dst_chain_id,
        receiver,
        message,
        token_transfer_metadata,
        slot,
    );
    let e = encode_metadata(token_transfer_metadata);
    let r = receiver.len() as int;
    let q = 40 + r + message.len();
    let t = q + e.len();
    lemma_pow256_values();
    crate::wire::lemma_metadata_layout(token_transfer_metadata);
    crate::le::lemma_le_roundtrip(dst_chain_id as nat, 8);
    crate::le::lemma_le_roundtrip(slot as nat, 8);
    assert(p.subrange(0, 32) =~= sender.bytes@);
    assert(p.subrange(32, 40) =~= le_bytes(dst_chain_id as nat, 8));
    assert(p.subrange(40, 40 + r) =~= receiver);
    assert(p.subrange(40 + r, q) =~= message);
    assert(p.subrange(q, t) =~= e);
    assert(p.subrange(t, t + 8) =~= le_bytes(slot as nat, 8));
}

/// The same request in the same slot always gets the same identifier, whichever
/// copy of its metadata is given.
pub proof fn lemma_request_id_deterministic(
    sender: Pubkey,
    dst_chain_id: u64,
    receiver: Seq<u8>,
    message: Seq<u8>,
    a: TokenTransferMetadata,
    b: TokenTransferMetadata,
    slot: u64,
)
    requires
        crate::wire::same_metadata(a, b),
    ensures
        keccak256(request_digest_input(sender, dst_chain_id, receiver, message, a, slot))
            == keccak256(request_digest_input(sender, dst_chain_id, receiver, message, b, slot)),
{
    assert(a.token_address.bytes@ == b.token_address.bytes@);
    assert(a.symbol@ == b.symbol@);
    assert(encode_metadata(a) == encode_metadata(b));
}

/// Builds the bytes that identify a request: the sender's address, the
/// destination chain, the receiver's UTF-8 bytes, the message, the metadata's
/// wire form and the slot.
pub fn request_digest_input_bytes(
    sender: &Pubkey,
    dst_chain_id: u64,
    receiver: &str,
    message: &[u8],
    token_transfer_metadata: &TokenTransferMetadata,
    slot: u64,
) -> (v: Vec<u8>)
    requires
        metadata_fits(*token_transfer_metadata),
    ensures
        v@ == request_digest_input(
            *sender,
            dst_chain_id,
            receiver.spec_bytes(),
            message@,
            *token_transfer_metadata,
            slot,
        ),
{
    proof {
        lemma_pow256_values();
    }
    let mut out: Vec<u8> = Vec::new();
    push_bytes(&mut out, sender.bytes.as_slice());
    push_le(&mut out, dst_chain_id, 8);
    push_bytes(&mut out, receiver.as_bytes());
    push_bytes(&mut out, message);
    match token_transfer_metadata.try_to_vec() {
        Some(meta) => push_bytes(&mut out, meta.as_slice()),
        None => {},
    }
    push_le(&mut out, slot, 8);
    assert(out@ =~= request_digest_input(
        *sender,
        dst_chain_id,
        receiver.spec_bytes(),
        message@,
        *token_transfer_metadata,
        slot,
    ));
    out
}

/// Whether `chain_id` is a whitelisted destination.
fn destination_listed(chains: &[u64; 8], chain_id: u64) -> (r: bool)
    ensures
        r == chains@.contains(chain_id),
{
    let mut i: usize = 0;
    while i < 8
        invariant
            i <= 8,
            forall|j: int| 0 <= j < i ==> chains@[j] != chain_id,
        decreases 8 - i,
    {
        if chains[i] == chain_id {
            return true;
        }
        i = i + 1;
    }
    false
}

/// Whether `key` is a whitelisted sender.
fn sender_listed(keys: &[Pubkey; 8], key: &Pubkey) -> (r: bool)
    ensures
        r == keys@.contains(*key),
{
    let mut i: usize = 0;
    while i < 8
        invariant
            i <= 8,
            forall|j: int| 0 <= j < i ==> keys@[j] != *key,
        decreases 8 - i,
    {
        if keys[i] == *key {
            return true;
        }
        i = i + 1;
    }
    false
}

/// Accepts a cross-chain request from a whitelisted sender to a whitelisted
/// destination chain, and gives the event that announces it, with the
/// request's identifier.
pub fn send_request(
    config: &RampConfig,
    sender: &Pubkey,
    dst_chain_id: u64,
    receiver: String,
    message: Vec<u8>,
    token_transfer_metadata: TokenTransferMetadata,
    slot: u64,
) -> (r: Result<RequestSend, RampError>)
    requires
        config.sender_whitelist@.contains(*sender) && config.destination_chain_whitelist@.contains(
            dst_chain_id,
        ) ==> metadata_fits(token_transfer_metadata),
    ensures
        !(config.sender_whitelist@.contains(*sender) && config.destination_chain_whitelist@.contains(
            dst_chain_id,
        )) ==> r == Err::<RequestSend, RampError>(RampError::Unauthorized),
        config.sender_whitelist@.contains(*sender) && config.destination_chain_whitelist@.contains(
            dst_chain_id,
        ) ==> r == Ok::<RequestSend, RampError>(
            RequestSend {
                sender: *sender,
                dst_chain_id,
                receiver,
                message_id: r->Ok_0.message_id,
                slot,
                token_transfer_metadata,
            },
        ) && r->Ok_0.message_id@ == keccak256(
            request_digest_input(
                *sender,
                dst_chain_id,
                vstd::utf8::encode_utf8(receiver@),
                message@,
                token_transfer_metadata,
                slot,
            ),
        ),
{
    if !sender_listed(&config.sender_whitelist, sender) {
        return Err(RampError::Unauthorized);
    }
    if !destination_listed(&config.destination_chain_whitelist, dst_chain_id) {
        return Err(RampError::Unauthorized);
    }
    let input = request_digest_input_bytes(
        sender,
        dst_chain_id,
        receiver.as_str(),
        message.as_slice(),
        &token_transfer_metadata,
        slot,
    );
    let message_id = keccak256_hash(input.as_slice());
    Ok(
        RequestSend {
            sender: *sender,
            dst_chain_id,
            receiver,
            message_id,
            slot,
            token_transfer_metadata,
        },
    )
}

} // verus!
