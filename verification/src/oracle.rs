//! The oracle program: its accounts, its errors and the rules of each instruction.
use vstd::prelude::*;
use crate::crypto::{hex_encode, hex_lower, lemma_hex_lower_len, sha256, sha256_digest};
use crate::frame::{parse_transmit_frame, recover_signers, recovered_signers, spec_parse_frame, FrameParts};
use crate::le::{le_bytes, le_bytes_signed, lemma_le_roundtrip, lemma_le_signed_roundtrip, le_signed, le_value, pow256, push_le, read_i128_le, read_u64_le, lemma_pow256_values};
use crate::pubkey::{empty_key, Pubkey};
use crate::whitelist::{is_first_open_slot, is_first_slot_of, lemma_first_open_slot_unique, lemma_first_slot_of_unique, whitelist_after_add, whitelist_after_remove};
use crate::quorum::{has_two_thirds, keys_view, reaches_two_thirds};
use crate::sigverify::{
    account_instructions, find_signature, instructions_readable, is_readable, load_instructions,
    search_defined, search_is_defined, signature_found, InstructionsAccount, LoadedInstruction,
};
use crate::wire::{encode_metadata, encode_report_context, metadata_fits, push_bytes, report_context_fits};
#[allow(unused_imports)]
use vstd::string::StringSliceAdditionalSpecFns;

verus! {

/// A registered oracle node.
#[derive(Clone, Copy, Debug)]
pub struct OracleNode {
    pub node_id: u64,
    pub pubkey: Pubkey,
}

impl Default for OracleNode {
    fn default() -> (n: OracleNode)
        ensures
            n.node_id == 0,
            n.pubkey.is_default(),
    {
        OracleNode { node_id: 0, pubkey: Pubkey::default() }
    }
}

/// What a report says about the message it carries.
#[derive(Clone, Debug)]
pub struct ReportContext {
    pub message_id: String,
    pub sender: String,
    pub receiver: Pubkey,
    pub src_chain: u64,
    pub dst_chain: u64,
    pub epoch: u64,
}

impl Default for ReportContext {
    fn default() -> (r: ReportContext)
        ensures
            r.message_id@ == Seq::<char>::empty(),
            r.sender@ == Seq::<char>::empty(),
            r.receiver.is_default(),
            r.src_chain == 0,
            r.dst_chain == 0,
            r.epoch == 0,
    {
        ReportContext {
            message_id: String::new(),
            sender: String::new(),
            receiver: Pubkey::default(),
            src_chain: 0,
            dst_chain: 0,
            epoch: 0,
        }
    }
}

/// The token transfer that travels with a cross-chain request.
#[derive(Clone, Debug)]
pub struct TokenTransferMetadata {
    pub target_chain_id: u64,
    pub token_address: Pubkey,
    pub symbol: [u8; 16],
    pub amount: u64,
    pub extra_data: String,
}

impl Default for TokenTransferMetadata {
    fn default() -> (m: TokenTransferMetadata)
        ensures
            m.target_chain_id == 0,
            m.token_address.is_default(),
            forall|i: int| 0 <= i < 16 ==> #[trigger] m.symbol[i] == 0,
            m.amount == 0,
            m.extra_data@ == Seq::<char>::empty(),
    {
        TokenTransferMetadata {
            target_chain_id: 0,
            token_address: Pubkey::default(),
            symbol: [0u8; 16],
            amount: 0,
            extra_data: String::new(),
        }
    }
}

/// A cross-chain message account; `status` is 0 while pending, 1 once completed.
#[derive(Clone, Debug)]
pub struct CrossChainMessage {
    pub message_id: String,
    pub status: u8,
    pub bump: u8,
}

impl Default for CrossChainMessage {
    fn default() -> (m: CrossChainMessage)
        ensures
            m.message_id@ == Seq::<char>::empty(),
            m.status == 0,
            m.bump == 0,
    {
        CrossChainMessage { message_id: String::new(), status: 0, bump: 0 }
    }
}

/// The epoch counter account.
#[derive(Clone, Copy, Debug)]
pub struct EpochState {
    pub epoch: u64,
    pub bump: u8,
}

/// The oracle's global configuration.
#[derive(Clone, Copy, Debug, PartialEq, Eq)]
pub struct OracleConfig {
    pub admin: Pubkey,
    pub chain_whitelist: [u64; 8],
    pub oracle_nodes: [Pubkey; 8],
    pub sender_whitelist: [Pubkey; 8],
    pub is_initialized: bool,
}

/// A report read out of raw bytes.
#[derive(Clone, Copy, Debug, PartialEq, Eq, Structural)]
pub struct DecryptedReport {
    pub round_id: u64,
    pub answer: i128,
    pub timestamp: u64,
}

/// The oracle program's errors.
#[derive(Clone, Copy, Debug, PartialEq, Eq, Structural)]
pub enum OracleError {
    InvalidMetadata,
    NodeAlreadyExists,
    Unauthorized,
    InvalidWhitelistAction,
    DuplicateMessageId,
    InvalidSenderAddress,
    PayloadTooLarge,
}

impl OracleError {
    /// The message the program attaches to the error.
    pub fn message(&self) -> (s: &'static str)
        ensures
            s@ == match *self {
                OracleError::InvalidMetadata => "Invalid node metadata"@,
                OracleError::NodeAlreadyExists => "Node already exists"@,
                OracleError::Unauthorized => "Unauthorized operation"@,
                OracleError::InvalidWhitelistAction => "Invalid whitelist action"@,
                OracleError::DuplicateMessageId => "Duplicate message_id submitted"@,
                OracleError::InvalidSenderAddress => "Invalid sender address"@,
                OracleError::PayloadTooLarge => "Payload too large"@,
            },
    {
        match self {
            OracleError::InvalidMetadata => "Invalid node metadata",
            OracleError::NodeAlreadyExists => "Node already exists",
            OracleError::Unauthorized => "Unauthorized operation",
            OracleError::InvalidWhitelistAction => "Invalid whitelist action",
            OracleError::DuplicateMessageId => "Duplicate message_id submitted",
            OracleError::InvalidSenderAddress => "Invalid sender address",
            OracleError::PayloadTooLarge => "Payload too large",
        }
    }
}


// ---------------------------------------------------------------------------
// Whitelists

/// The two configurations differ at most in their sender whitelists.
pub open spec fn same_but_senders(a: OracleConfig, b: OracleConfig) -> bool {
    &&& a.admin == b.admin
    &&& a.chain_whitelist == b.chain_whitelist
    &&& a.oracle_nodes == b.oracle_nodes
    &&& a.is_initialized == b.is_initialized
}

/// Sets up the configuration once: the caller becomes the admin, and the chain
/// whitelist and the node set are installed.
pub fn initialize_logic(
    config: &mut OracleConfig,
    authority: &Pubkey,
    chain_ids: [u64; 8],
    node_pubkeys: [Pubkey; 8],
) -> (r: Result<(), OracleError>)
    ensures
        old(config).is_initialized ==> r == Err::<(), OracleError>(OracleError::InvalidMetadata)
            && *final(config) == *old(config),
        !old(config).is_initialized ==> r == Ok::<(), OracleError>(()) && *final(config) == (
        OracleConfig {
            admin: *authority,
            chain_whitelist: chain_ids,
            oracle_nodes: node_pubkeys,
            sender_whitelist: old(config).sender_whitelist,
            is_initialized: true,
        }),
{
    if config.is_initialized {
        return Err(OracleError::InvalidMetadata);
    }
    config.admin = *authority;
    config.chain_whitelist = chain_ids;
    config.oracle_nodes = node_pubkeys;
    config.is_initialized = true;
    Ok(())
}

/// Hands the admin role to `admin`, which may not be the empty address.
pub fn set_admin_logic(config: &mut OracleConfig, authority: &Pubkey, admin: Pubkey) -> (r: Result<
    (),
    OracleError,
>)
    ensures
        !old(config).is_initialized ==> r == Err::<(), OracleError>(OracleError::InvalidMetadata),
        old(config).is_initialized && *authority != old(config).admin ==> r == Err::<
            (),
            OracleError,
        >(OracleError::Unauthorized),
        old(config).is_initialized && *authority == old(config).admin && admin.is_default() ==> r
            == Err::<(), OracleError>(OracleError::InvalidMetadata),
        r is Err ==> *final(config) == *old(config),
        old(config).is_initialized && *authority == old(config).admin && !admin.is_default() ==> r
            == Ok::<(), OracleError>(()) && *final(config) == (OracleConfig { admin, ..*old(config) }),
{
    if !config.is_initialized {
        return Err(OracleError::InvalidMetadata);
    }
    if *authority != config.admin {
        return Err(OracleError::Unauthorized);
    }
    if admin.is_default_key() {
        return Err(OracleError::InvalidMetadata);
    }
    config.admin = admin;
    Ok(())
}

/// Replaces the chain whitelist; only the admin may.
pub fn set_chain_whitelist_logic(
    config: &mut OracleConfig,
    authority: &Pubkey,
    chain_ids: [u64; 8],
) -> (r: Result<(), OracleError>)
    ensures
        *authority != old(config).admin ==> r == Err::<(), OracleError>(OracleError::Unauthorized)
            && *final(config) == *old(config),
        *authority == old(config).admin ==> r == Ok::<(), OracleError>(()) && *final(config) == (
        OracleConfig { chain_whitelist: chain_ids, ..*old(config) }),
{
    if *authority != config.admin {
        return Err(OracleError::Unauthorized);
    }
    config.chain_whitelist = chain_ids;
    Ok(())
}

/// Replaces the oracle node set; only the admin may.
pub fn set_oracle_nodes_logic(
    config: &mut OracleConfig,
    authority: &Pubkey,
    node_pubkeys: [Pubkey; 8],
) -> (r: Result<(), OracleError>)
    ensures
        *authority != old(config).admin ==> r == Err::<(), OracleError>(OracleError::Unauthorized)
            && *final(config) == *old(config),
        *authority == old(config).admin ==> r == Ok::<(), OracleError>(()) && *final(config) == (
        OracleConfig { oracle_nodes: node_pubkeys, ..*old(config) }),
{
    if *authority != config.admin {
        return Err(OracleError::Unauthorized);
    }
    config.oracle_nodes = node_pubkeys;
    Ok(())
}


/// Lets `sender` make requests: it goes into the first slot that is empty or
/// already holds it. Only the admin may; a whitelist full of other senders refuses.
pub fn add_sender_logic(config: &mut OracleConfig, authority: &Pubkey, sender: Pubkey) -> (r: Result<
    (),
    OracleError,
>)
    ensures
        *authority != old(config).admin ==> r == Err::<(), OracleError>(OracleError::Unauthorized),
        *authority == old(config).admin && whitelist_after_add(
            old(config).sender_whitelist@,
            sender,
        ) is None ==> r == Err::<(), OracleError>(OracleError::InvalidWhitelistAction),
        r is Err ==> *final(config) == *old(config),
        *authority == old(config).admin && whitelist_after_add(
            old(config).sender_whitelist@,
            sender,
        ) is Some ==> {
            &&& r == Ok::<(), OracleError>(())
            &&& same_but_senders(*final(config), *old(config))
            &&& Some(final(config).sender_whitelist@) == whitelist_after_add(
                old(config).sender_whitelist@,
                sender,
            )
        },
{
    if *authority != config.admin {
        return Err(OracleError::Unauthorized);
    }
    let ghost w = config.sender_whitelist@;
    let mut i: usize = 0;
    while i < 8
        invariant
            i <= 8,
            *config == *old(config),
            *authority == old(config).admin,
            w == old(config).sender_whitelist@,
            forall|j: int| 0 <= j < i ==> !(#[trigger] w[j]).is_default() && w[j] != sender,
        decreases 8 - i,
    {
        if config.sender_whitelist[i].is_default_key() {
            config.sender_whitelist[i] = sender;
            proof {
                assert(is_first_open_slot(w, sender, i as int));
                let k = choose|k: int| is_first_open_slot(w, sender, k);
                lemma_first_open_slot_unique(w, sender, i as int, k);
                assert(config.sender_whitelist@ =~= w.update(i as int, sender));
            }
            return Ok(());
        }
        if config.sender_whitelist[i] == sender {
            proof {
                assert(is_first_open_slot(w, sender, i as int));
                let k = choose|k: int| is_first_open_slot(w, sender, k);
                lemma_first_open_slot_unique(w, sender, i as int, k);
                assert(w.update(i as int, sender) =~= w);
            }
            return Ok(());
        }
        i = i + 1;
    }
    Err(OracleError::InvalidWhitelistAction)
}

/// Withdraws `sender`: the first slot that holds it is emptied. Only the admin
/// may; a sender that no slot holds is refused.
pub fn remove_sender_logic(config: &mut OracleConfig, authority: &Pubkey, sender: Pubkey) -> (r:
    Result<(), OracleError>)
    ensures
        *authority != old(config).admin ==> r == Err::<(), OracleError>(OracleError::Unauthorized),
        *authority == old(config).admin && whitelist_after_remove(
            old(config).sender_whitelist@,
            sender,
        ) is None ==> r == Err::<(), OracleError>(OracleError::InvalidWhitelistAction),
        r is Err ==> *final(config) == *old(config),
        *authority == old(config).admin && whitelist_after_remove(
            old(config).sender_whitelist@,
            sender,
        ) is Some ==> {
            &&& r == Ok::<(), OracleError>(())
            &&& same_but_senders(*final(config), *old(config))
            &&& Some(final(config).sender_whitelist@) == whitelist_after_remove(
                old(config).sender_whitelist@,
                sender,
            )
        },
{
    if *authority != config.admin {
        return Err(OracleError::Unauthorized);
    }
    let ghost w = config.sender_whitelist@;
    let mut i: usize = 0;
    while i < 8
        invariant
            i <= 8,
            *config == *old(config),
            *authority == old(config).admin,
            w == old(config).sender_whitelist@,
            forall|j: int| 0 <= j < i ==> #[trigger] w[j] != sender,
        decreases 8 - i,
    {
        if config.sender_whitelist[i] == sender {
            config.sender_whitelist[i] = Pubkey::default();
            proof {
                assert(is_first_slot_of(w, sender, i as int));
                let k = choose|k: int| is_first_slot_of(w, sender, k);
                lemma_first_slot_of_unique(w, sender, i as int, k);
                assert(config.sender_whitelist@ =~= w.update(i as int, empty_key()));
            }
            return Ok(());
        }
        i = i + 1;
    }
    Err(OracleError::InvalidWhitelistAction)
}


// ---------------------------------------------------------------------------
// Requests

/// `x` in eight little-endian two's-complement bytes.
pub open spec fn i64_le_bytes(x: i64) -> Seq<u8> {
    le_bytes(
        (if x < 0 {
            x + pow256(8)
        } else {
            x as int
        }) as nat,
        8,
    )
}

/// The bytes whose SHA-256 digest identifies a request.
pub open spec fn request_preimage(
    sender: Seq<u8>,
    dst_chain_id: u64,
    receiver: Seq<u8>,
    message: Seq<u8>,
    token_transfer_metadata: TokenTransferMetadata,
    epoch: u64,
    blocktime: i64,
) -> Seq<u8> {
    sender + le_bytes(dst_chain_id as nat, 8) + receiver + message + encode_metadata(
        token_transfer_metadata,
    ) + le_bytes(epoch as nat, 8) + i64_le_bytes(blocktime)
}

/// What a request's preimage holds, in order: the sender's bytes; the
/// destination chain in eight little-endian bytes; the receiver's bytes; the
/// message; the metadata's wire form (fields in declaration order, see
/// `lemma_metadata_layout`); the epoch in eight little-endian bytes; and the
/// block time in eight little-endian two's-complement bytes.
pub proof fn lemma_request_preimage_layout(
    sender: Seq<u8>,
    dst_chain_id: u64,
    receiver: Seq<u8>,
    message: Seq<u8>,
    token_transfer_metadata: TokenTransferMetadata,
    epoch: u64,
    blocktime: i64,
)
    requires
        metadata_fits(token_transfer_metadata),
    ensures
        ({
            let p = request_preimage(
                sender,
                dst_chain_id,
                receiver,
                message,
                token_transfer_metadata,
                epoch,
                blocktime,
            );
            let k = sender.len() as int;
            let q = k + 8 + receiver.len() + message.len();
            let t = q + 68 + vstd::utf8::encode_utf8(token_transfer_metadata.extra_data@).len();
            &&& p.len() == t + 16
            &&& p.subrange(0, k) == sender
            &&& le_value(p.subrange(k, k + 8)) == dst_chain_id
            &&& p.subrange(k + 8, k + 8 + receiver.len()) == receiver
            &&& p.subrange(k + 8 + receiver.len(), q) == message
            &&& p.subrange(q, t) == encode_metadata(token_transfer_metadata)
            &&& le_value(p.subrange(t, t + 8)) == epoch
            &&& le_value(p.subrange(t + 8, t + 16)) == (if blocktime >= 0 {
                blocktime as int
            } else {
                blocktime + 0x1_0000_0000_0000_0000
            })
        }),
{
    let p = request_preimage(
        sender,
        dst_chain_id,
        receiver,
        message,
        token_transfer_metadata,
        epoch,
        blocktime,
    );
    let e = encode_metadata(token_transfer_metadata);
    let k = sender.len() as int;
    let q = k + 8 + receiver.len() + message.len();
    let t = q + e.len();
    lemma_pow256_values();
    crate::wire::lemma_metadata_layout(token_transfer_metadata);
    lemma_le_roundtrip(dst_chain_id as nat, 8);
    lemma_le_roundtrip(epoch as nat, 8);
    let bt: nat = (if blocktime < 0 {
        blocktime + pow256(8)
    } else {
        blocktime as int
    }) as nat;
    lemma_le_roundtrip(bt, 8);
    assert(p.subrange(0, k) =~= sender);
    assert(p.subrange(k, k + 8) =~= le_bytes(dst_chain_id as nat, 8));
    assert(p.subrange(k + 8, k + 8 + receiver.len()) =~= receiver);
    assert(p.subrange(k + 8 + receiver.len(), q) =~= message);
    assert(p.subrange(q, t) =~= e);
    assert(p.subrange(t, t + 8) =~= le_bytes(epoch as nat, 8));
    assert(p.subrange(t + 8, t + 16) =~= le_bytes(bt, 8));
}

/// The identifier of a request: the SHA-256 digest of its preimage in lower-case hex.
pub open spec fn request_message_id(
    sender: Seq<u8>,
    dst_chain_id: u64,
    receiver: Seq<u8>,
    message: Seq<u8>,
    token_transfer_metadata: TokenTransferMetadata,
    epoch: u64,
    blocktime: i64,
) -> Seq<char> {
    hex_lower(
        sha256(
            request_preimage(
                sender,
                dst_chain_id,
                receiver,
                message,
                token_transfer_metadata,
                epoch,
                blocktime,
            ),
        ),
    )
}

/// Builds the bytes that identify a request: the sender's and then the
/// receiver's UTF-8 bytes around the destination chain, the message, the
/// metadata's wire form, the epoch and the block time.
pub fn request_preimage_bytes(
    sender: &str,
    dst_chain_id: u64,
    receiver: &str,
    message: &[u8],
    token_transfer_metadata: &TokenTransferMetadata,
    epoch: u64,
    blocktime: i64,
) -> (v: Vec<u8>)
    requires
        metadata_fits(*token_transfer_metadata),
    ensures
        v@ == request_preimage(
            sender.spec_bytes(),
            dst_chain_id,
            receiver.spec_bytes(),
            message@,
            *token_transfer_metadata,
            epoch,
            blocktime,
        ),
{
    proof {
        lemma_pow256_values();
    }
    let mut out: Vec<u8> = Vec::new();
    push_bytes(&mut out, sender.as_bytes());
    push_le(&mut out, dst_chain_id, 8);
    push_bytes(&mut out, receiver.as_bytes());
    push_bytes(&mut out, message);
    match token_transfer_metadata.try_to_vec() {
        Some(meta) => push_bytes(&mut out, meta.as_slice()),
        None => {},
    }
    push_le(&mut out, epoch, 8);
    let bt: u64 = if blocktime < 0 {
        ((blocktime + 0x7fff_ffff_ffff_ffffi64 + 1) as u64) + 0x8000_0000_0000_0000u64
    } else {
        blocktime as u64
    };
    push_le(&mut out, bt, 8);
    assert(out@ =~= request_preimage(
        sender.spec_bytes(),
        dst_chain_id,
        receiver.spec_bytes(),
        message@,
        *token_transfer_metadata,
        epoch,
        blocktime,
    ));
    out
}

/// Whether `chain_id` is whitelisted.
fn chain_listed(chains: &[u64; 8], chain_id: u64) -> (r: bool)
    ensures
        r == chains@.contains(chain_id),
{
    let mut i: usize = 0;
    while i < 8
        invariant
            i <= 8,
            forall|j: int| 0 <= j < i ==> chains@[j] != chain_id,
        decreases 8 - i,
    {
        if chains[i] == chain_id {
            return true;
        }
        i = i + 1;
    }
    false
}

/// Whether `key` is whitelisted.
fn key_listed(keys: &[Pubkey; 8], key: &Pubkey) -> (r: bool)
    ensures
        r == keys@.contains(*key),
{
    let mut i: usize = 0;
    while i < 8
        invariant
            i <= 8,
            forall|j: int| 0 <= j < i ==> keys@[j] != *key,
        decreases 8 - i,
    {
        if keys[i] == *key {
            return true;
        }
        i = i + 1;
    }
    false
}

/// The most message bytes a request may carry.
pub const MAX_PAYLOAD_LEN: usize = 128;

/// Checks a cross-chain request and gives its identifier: the payer must be a
/// whitelisted sender, the destination chain a whitelisted chain, and the
/// message at most `MAX_PAYLOAD_LEN` bytes long.
pub fn send_request_logic(
    payer: &Pubkey,
    chain_whitelist: &[u64; 8],
    sender_whitelist: &[Pubkey; 8],
    sender: &str,
    dst_chain_id: u64,
    receiver: &str,
    message: &[u8],
    token_transfer_metadata: &TokenTransferMetadata,
    epoch: u64,
    blocktime: i64,
) -> (r: Result<String, OracleError>)
    requires
        sender_whitelist@.contains(*payer) && chain_whitelist@.contains(dst_chain_id)
            && message@.len() <= MAX_PAYLOAD_LEN ==> metadata_fits(*token_transfer_metadata),
    ensures
        !sender_whitelist@.contains(*payer) ==> r == Err::<String, OracleError>(
            OracleError::InvalidSenderAddress,
        ),
        sender_whitelist@.contains(*payer) && !chain_whitelist@.contains(dst_chain_id) ==> r
            == Err::<String, OracleError>(OracleError::Unauthorized),
        sender_whitelist@.contains(*payer) && chain_whitelist@.contains(dst_chain_id)
            && message@.len() > MAX_PAYLOAD_LEN ==> r == Err::<String, OracleError>(
            OracleError::PayloadTooLarge,
        ),
        sender_whitelist@.contains(*payer) && chain_whitelist@.contains(dst_chain_id)
            && message@.len() <= MAX_PAYLOAD_LEN ==> r is Ok && r->Ok_0@.len() == 64
            && r->Ok_0@ == request_message_id(
            sender.spec_bytes(),
            dst_chain_id,
            receiver.spec_bytes(),
            message@,
            *token_transfer_metadata,
            epoch,
            blocktime,
        ),
{
    if !key_listed(sender_whitelist, payer) {
        return Err(OracleError::InvalidSenderAddress);
    }
    if !chain_listed(chain_whitelist, dst_chain_id) {
        return Err(OracleError::Unauthorized);
    }
    if message.len() > MAX_PAYLOAD_LEN {
        return Err(OracleError::PayloadTooLarge);
    }
    let preimage = request_preimage_bytes(
        sender,
        dst_chain_id,
        receiver,
        message,
        token_transfer_metadata,
        epoch,
        blocktime,
    );
    let digest = sha256_digest(preimage.as_slice());
    let message_id = hex_encode(digest.as_slice());
    proof {
        lemma_hex_lower_len(digest@);
    }
    Ok(message_id)
}

/// The same request always gets the same identifier.
pub proof fn lemma_message_id_deterministic(
    sender: Seq<u8>,
    dst_chain_id: u64,
    receiver: Seq<u8>,
    message: Seq<u8>,
    a: TokenTransferMetadata,
    b: TokenTransferMetadata,
    epoch: u64,
    blocktime: i64,
)
    requires
        crate::wire::same_metadata(a, b),
    ensures
        request_message_id(sender, dst_chain_id, receiver, message, a, epoch, blocktime)
            == request_message_id(sender, dst_chain_id, receiver, message, b, epoch, blocktime),
{
    assert(a.token_address.bytes@ == b.token_address.bytes@);
    assert(a.symbol@ == b.symbol@);
    assert(encode_metadata(a) == encode_metadata(b));
}

// ---------------------------------------------------------------------------
// Reports

/// Reads a report: round id from bytes 0..8, answer from bytes 8..24 (two's
/// complement) and, when there are at least 32 bytes, timestamp from bytes
/// 24..32 (else 0), all little-endian. Fewer than 24 bytes are refused.
pub fn decrypt_report(data: &[u8]) -> (r: Result<DecryptedReport, OracleError>)
    ensures
        r is Ok <==> data@.len() >= 24,
        r is Err ==> r == Err::<DecryptedReport, OracleError>(OracleError::InvalidMetadata),
        r matches Ok(rep) ==> {
            &&& rep.round_id as nat == le_value(data@.subrange(0, 8))
            &&& rep.answer as int == le_signed(data@.subrange(8, 24))
            &&& data@.len() >= 32 ==> rep.timestamp as nat == le_value(data@.subrange(24, 32))
            &&& data@.len() < 32 ==> rep.timestamp == 0
        },
{
    if data.len() < 24 {
        return Err(OracleError::InvalidMetadata);
    }
    let round_id = read_u64_le(data, 0);
    let answer = read_i128_le(data, 8);
    let timestamp = if data.len() >= 32 {
        read_u64_le(data, 24)
    } else {
        0
    };
    Ok(DecryptedReport { round_id, answer, timestamp })
}

/// A report read back from its packed fields gives those fields: the round id
/// and timestamp as eight little-endian bytes and the answer as sixteen
/// little-endian two's-complement bytes, in that order, before any further bytes.
pub proof fn lemma_report_round_trip(round_id: u64, answer: i128, timestamp: u64, extra: Seq<u8>)
    ensures
        ({
            let data = le_bytes(round_id as nat, 8) + le_bytes_signed(answer as int, 16) + le_bytes(
                timestamp as nat,
                8,
            ) + extra;
            &&& data.len() >= 32
            &&& le_value(data.subrange(0, 8)) == round_id
            &&& le_signed(data.subrange(8, 24)) == answer
            &&& le_value(data.subrange(24, 32)) == timestamp
        }),
{
    lemma_pow256_values();
    let a = le_bytes(round_id as nat, 8);
    let b = le_bytes_signed(answer as int, 16);
    let c = le_bytes(timestamp as nat, 8);
    lemma_le_roundtrip(round_id as nat, 8);
    lemma_le_roundtrip(timestamp as nat, 8);
    lemma_le_signed_roundtrip(answer);
    let data = a + b + c + extra;
    assert(data.subrange(0, 8) =~= a);
    assert(data.subrange(8, 24) =~= b);
    assert(data.subrange(24, 32) =~= c);
}

// ---------------------------------------------------------------------------
// Nodes

/// Records a node's id and key.
pub fn register_node_logic(node: &mut OracleNode, node_id: u64, pubkey: Pubkey)
    ensures
        *final(node) == (OracleNode { node_id, pubkey }),
{
    node.node_id = node_id;
    node.pubkey = pubkey;
}

/// Replaces a node's id and key.
pub fn update_node_logic(node: &mut OracleNode, node_id: u64, pubkey: Pubkey)
    ensures
        *final(node) == (OracleNode { node_id, pubkey }),
{
    node.node_id = node_id;
    node.pubkey = pubkey;
}

// ---------------------------------------------------------------------------
// Signatures checked by the native secp256k1 program

/// Whether one of the instructions before the running one is a secp256k1
/// verification whose data holds `pubkey`, `signature` and `message`;
/// `false` when the account handed in is not the instructions sysvar.
pub fn verify_signature_secp256k1(
    message: &[u8],
    signature: &[u8],
    pubkey: &[u8],
    instructions_account: &InstructionsAccount,
) -> (r: bool)
    requires
        instructions_readable(instructions_account.key, instructions_account.data@),
        search_defined(
            account_instructions(instructions_account.key, instructions_account.data@),
            message@,
            signature@,
            pubkey@,
        ),
    ensures
        r == signature_found(
            account_instructions(instructions_account.key, instructions_account.data@),
            message@,
            signature@,
            pubkey@,
        ),
{
    match load_instructions(instructions_account) {
        None => false,
        Some(ixs) => find_signature(&ixs, message, signature, pubkey),
    }
}

/// Every pair of `signatures` and `pubkeys` was verified for `message`.
pub open spec fn all_signatures_found(
    loaded: Option<Seq<Option<LoadedInstruction>>>,
    message: Seq<u8>,
    signatures: Seq<Vec<u8>>,
    pubkeys: Seq<Vec<u8>>,
) -> bool {
    &&& signatures.len() == pubkeys.len()
    &&& forall|i: int|
        0 <= i < signatures.len() ==> #[trigger] signature_found(
            loaded,
            message,
            signatures[i]@,
            pubkeys[i]@,
        )
}

/// A batch is verified exactly when the two lists have the same length and
/// every pair, the last one included, is verified on its own; two empty lists
/// are a verified batch, a batch of one pair is verified as that pair is, and
/// a batch with one more pair is verified when the shorter batch and the new
/// pair are.
pub proof fn lemma_batch_means(
    loaded: Option<Seq<Option<LoadedInstruction>>>,
    message: Seq<u8>,
    signatures: Seq<Vec<u8>>,
    pubkeys: Seq<Vec<u8>>,
    signature: Vec<u8>,
    pubkey: Vec<u8>,
)
    ensures
        all_signatures_found(loaded, message, signatures, pubkeys) <==> (signatures.len()
            == pubkeys.len() && forall|i: int|
            0 <= i < signatures.len() ==> #[trigger] signature_found(
                loaded,
                message,
                signatures[i]@,
                pubkeys[i]@,
            )),
        all_signatures_found(loaded, message, Seq::empty(), Seq::empty()),
        all_signatures_found(loaded, message, seq![signature], seq![pubkey]) == signature_found(
            loaded,
            message,
            signature@,
            pubkey@,
        ),
        signatures.len() == pubkeys.len() ==> (all_signatures_found(
            loaded,
            message,
            signatures.push(signature),
            pubkeys.push(pubkey),
        ) <==> (all_signatures_found(loaded, message, signatures, pubkeys) && signature_found(
            loaded,
            message,
            signature@,
            pubkey@,
        ))),
{
    let one_s = seq![signature];
    let one_p = seq![pubkey];
    if signature_found(loaded, message, signature@, pubkey@) {
        assert forall|i: int| 0 <= i < one_s.len() implies #[trigger] signature_found(
            loaded,
            message,
            one_s[i]@,
            one_p[i]@,
        ) by {
            assert(one_s[i] == signature);
            assert(one_p[i] == pubkey);
        }
    }
    if all_signatures_found(loaded, message, one_s, one_p) {
        assert(signature_found(loaded, message, one_s[0]@, one_p[0]@));
    }
    if signatures.len() == pubkeys.len() {
        let ls = signatures.push(signature);
        let lp = pubkeys.push(pubkey);
        if all_signatures_found(loaded, message, ls, lp) {
            assert forall|i: int| 0 <= i < signatures.len() implies #[trigger] signature_found(
                loaded,
                message,
                signatures[i]@,
                pubkeys[i]@,
            ) by {
                assert(signature_found(loaded, message, ls[i]@, lp[i]@));
                assert(ls[i] == signatures[i]);
                assert(lp[i] == pubkeys[i]);
            }
            assert(signature_found(loaded, message, ls[signatures.len() as int]@, lp[signatures.len() as int]@));
        }
        if all_signatures_found(loaded, message, signatures, pubkeys) && signature_found(
            loaded,
            message,
            signature@,
            pubkey@,
        ) {
            assert forall|i: int| 0 <= i < ls.len() implies #[trigger] signature_found(
                loaded,
                message,
                ls[i]@,
                lp[i]@,
            ) by {
                if i < signatures.len() {
                    assert(ls[i] == signatures[i]);
                    assert(lp[i] == pubkeys[i]);
                    assert(signature_found(loaded, message, signatures[i]@, pubkeys[i]@));
                } else {
                    assert(ls[i] == signature);
                    assert(lp[i] == pubkey);
                }
            }
        }
    }
}

/// Every pair that the batch check reaches can be searched: the pairs are
/// checked in order and the check stops at the first one not found.
pub open spec fn batch_search_defined(
    loaded: Option<Seq<Option<LoadedInstruction>>>,
    message: Seq<u8>,
    signatures: Seq<Vec<u8>>,
    pubkeys: Seq<Vec<u8>>,
) -> bool {
    signatures.len() == pubkeys.len() ==> forall|i: int|
        0 <= i < signatures.len() && (forall|j: int|
            0 <= j < i ==> #[trigger] signature_found(loaded, message, signatures[j]@, pubkeys[j]@))
            ==> #[trigger] search_defined(loaded, message, signatures[i]@, pubkeys[i]@)
}

/// The batch check reads the instructions account: it does so when the two
/// lists have the same, non-zero length.
pub open spec fn batch_reads_account(signatures: Seq<Vec<u8>>, pubkeys: Seq<Vec<u8>>) -> bool {
    signatures.len() == pubkeys.len() && signatures.len() > 0
}

/// Whether each signature, paired with the key at the same position, was verified for `message`.
pub fn verify_signatures_secp256k1(
    message: &[u8],
    signatures: &[Vec<u8>],
    pubkeys: &[Vec<u8>],
    instructions_account: &InstructionsAccount,
) -> (r: bool)
    requires
        batch_reads_account(signatures@, pubkeys@) ==> instructions_readable(
            instructions_account.key,
            instructions_account.data@,
        ),
        batch_search_defined(
            account_instructions(instructions_account.key, instructions_account.data@),
            message@,
            signatures@,
            pubkeys@,
        ),
    ensures
        r == all_signatures_found(
            account_instructions(instructions_account.key, instructions_account.data@),
            message@,
            signatures@,
            pubkeys@,
        ),
{
    if signatures.len() != pubkeys.len() {
        return false;
    }
    let ghost loaded = account_instructions(instructions_account.key, instructions_account.data@);
    let mut i: usize = 0;
    while i < signatures.len()
        invariant
            i <= signatures@.len(),
            signatures@.len() == pubkeys@.len(),
            loaded == account_instructions(instructions_account.key, instructions_account.data@),
            signatures@.len() > 0 ==> instructions_readable(
                instructions_account.key,
                instructions_account.data@,
            ),
            batch_search_defined(loaded, message@, signatures@, pubkeys@),
            forall|j: int|
                0 <= j < i ==> #[trigger] signature_found(
                    loaded,
                    message@,
                    signatures@[j]@,
                    pubkeys@[j]@,
                ),
        decreases signatures@.len() - i,
    {
        assert(search_defined(loaded, message@, signatures@[i as int]@, pubkeys@[i as int]@));
        if !verify_signature_secp256k1(
            message,
            signatures[i].as_slice(),
            pubkeys[i].as_slice(),
            instructions_account,
        ) {
            return false;
        }
        i = i + 1;
    }
    true
}

/// Whether the batch check can run: the account can be read where the check
/// reads it, and every pair it reaches can be searched.
pub fn batch_search_is_defined(
    message: &[u8],
    signatures: &[Vec<u8>],
    pubkeys: &[Vec<u8>],
    instructions_account: &InstructionsAccount,
) -> (r: bool)
    ensures
        r == ((batch_reads_account(signatures@, pubkeys@) ==> instructions_readable(
            instructions_account.key,
            instructions_account.data@,
        )) && batch_search_defined(
            account_instructions(instructions_account.key, instructions_account.data@),
            message@,
            signatures@,
            pubkeys@,
        )),
{
    let ghost loaded = account_instructions(instructions_account.key, instructions_account.data@);
    if signatures.len() != pubkeys.len() || signatures.len() == 0 {
        return true;
    }
    if !is_readable(instructions_account) {
        return false;
    }
    let mut all_found = true;
    let mut i: usize = 0;
    while i < signatures.len()
        invariant
            i <= signatures@.len(),
            signatures@.len() == pubkeys@.len(),
            instructions_readable(instructions_account.key, instructions_account.data@),
            loaded == account_instructions(instructions_account.key, instructions_account.data@),
            all_found == forall|j: int|
                0 <= j < i ==> #[trigger] signature_found(
                    loaded,
                    message@,
                    signatures@[j]@,
                    pubkeys@[j]@,
                ),
            forall|k: int|
                0 <= k < i && (forall|j: int|
                    0 <= j < k ==> #[trigger] signature_found(
                        loaded,
                        message@,
                        signatures@[j]@,
                        pubkeys@[j]@,
                    )) ==> #[trigger] search_defined(
                    loaded,
                    message@,
                    signatures@[k]@,
                    pubkeys@[k]@,
                ),
        decreases signatures@.len() - i,
    {
        if all_found {
            if !search_is_defined(
                instructions_account,
                message,
                signatures[i].as_slice(),
                pubkeys[i].as_slice(),
            ) {
                return false;
            }
            all_found = verify_signature_secp256k1(
                message,
                signatures[i].as_slice(),
                pubkeys[i].as_slice(),
                instructions_account,
            );
        } else {
            proof {
                let w = choose|j: int|
                    0 <= j < i && !#[trigger] signature_found(
                        loaded,
                        message@,
                        signatures@[j]@,
                        pubkeys@[j]@,
                    );
                assert(!signature_found(loaded, message@, signatures@[w]@, pubkeys@[w]@));
            }
        }
        i = i + 1;
    }
    true
}

// ---------------------------------------------------------------------------
// Delivering a report

/// The bytes are the wire form of some report context.
pub open spec fn report_context_decodes(b: Seq<u8>) -> bool {
    exists|c: ReportContext| report_context_fits(c) && #[trigger] encode_report_context(c) == b
}

/// The message id of the report context whose wire form the bytes are.
pub open spec fn decoded_message_id(b: Seq<u8>) -> Seq<char> {
    (choose|c: ReportContext| report_context_fits(c) && #[trigger] encode_report_context(c) == b).message_id@
}

/// The bytes are the wire form of some token-transfer metadata.
pub open spec fn metadata_decodes(b: Seq<u8>) -> bool {
    exists|m: TokenTransferMetadata| metadata_fits(m) && #[trigger] encode_metadata(m) == b
}

/// Why delivering the frame `f` to a message with `status` and `message_id`
/// fails, checked in this order; `None` when it is delivered.
pub open spec fn transmit_refusal(
    nodes: Seq<Pubkey>,
    status: u8,
    message_id: Seq<char>,
    f: FrameParts,
) -> Option<OracleError> {
    if !report_context_decodes(f.report_context) {
        Some(OracleError::InvalidMetadata)
    } else if !metadata_decodes(f.token_transfer_metadata) {
        Some(OracleError::InvalidMetadata)
    } else if decoded_message_id(f.report_context) != message_id {
        Some(OracleError::InvalidMetadata)
    } else if !reaches_two_thirds(nodes, recovered_signers(f)) {
        Some(OracleError::Unauthorized)
    } else if status != 0 {
        Some(OracleError::DuplicateMessageId)
    } else {
        None
    }
}

/// Completes a message once enough distinct nodes signed: the signers are the
/// recovered keys; a message already completed is refused as a replay.
pub fn finish_transmit(
    config: &OracleConfig,
    message: &mut CrossChainMessage,
    recovered: &Vec<Option<[u8; 64]>>,
) -> (r: Result<(), OracleError>)
    ensures
        !reaches_two_thirds(config.oracle_nodes@, keys_view(recovered@)) ==> r == Err::<
            (),
            OracleError,
        >(OracleError::Unauthorized),
        reaches_two_thirds(config.oracle_nodes@, keys_view(recovered@)) && old(message).status != 0
            ==> r == Err::<(), OracleError>(OracleError::DuplicateMessageId),
        r is Err ==> *final(message) == *old(message),
        reaches_two_thirds(config.oracle_nodes@, keys_view(recovered@)) && old(message).status == 0
            ==> r == Ok::<(), OracleError>(()) && *final(message) == (CrossChainMessage {
            status: 1,
            ..*old(message)
        }),
{
    if !has_two_thirds(&config.oracle_nodes, recovered) {
        return Err(OracleError::Unauthorized);
    }
    if message.status != 0 {
        return Err(OracleError::DuplicateMessageId);
    }
    message.status = 1;
    Ok(())
}

/// Delivers a signed report to its message: the frame's report context and
/// metadata must decode, the report must name this message, at least two thirds of
/// the non-empty node slots must have signed its digest, and the message must
/// still be pending; it is then completed.
pub fn transmit(config: &OracleConfig, message: &mut CrossChainMessage, data: &[u8]) -> (r: Result<
    (),
    OracleError,
>)
    requires
        spec_parse_frame(data@) is Some,
    ensures
        ({
            let refusal = transmit_refusal(
                config.oracle_nodes@,
                old(message).status,
                old(message).message_id@,
                spec_parse_frame(data@)->0,
            );
            &&& refusal is Some ==> r == Err::<(), OracleError>(refusal->0) && *final(message)
                == *old(message)
            &&& refusal is None ==> r == Ok::<(), OracleError>(()) && *final(message) == (
            CrossChainMessage { status: 1, ..*old(message) })
        }),
{
    let frame = match parse_transmit_frame(data) {
        Some(f) => f,
        None => {
            assert(false);
            return Err(OracleError::InvalidMetadata);
        },
    };
    let ghost f = spec_parse_frame(data@)->0;
    assert(frame@ == f);
    let report_context = match ReportContext::try_from_slice(frame.report_context.as_slice()) {
        Some(c) => c,
        None => return Err(OracleError::InvalidMetadata),
    };
    match TokenTransferMetadata::try_from_slice(frame.token_transfer_metadata.as_slice()) {
        Some(_) => {},
        None => return Err(OracleError::InvalidMetadata),
    }
    proof {
        assert(report_context_decodes(f.report_context));
        let c = choose|c: ReportContext|
            report_context_fits(c) && #[trigger] encode_report_context(c) == f.report_context;
        crate::wire::lemma_report_context_encoding_injective(c, report_context);
        assert(metadata_decodes(f.token_transfer_metadata));
    }
    if !(message.message_id == report_context.message_id) {
        return Err(OracleError::InvalidMetadata);
    }
    let recovered = recover_signers(&frame);
    finish_transmit(config, message, &recovered)
}

/// A message that was delivered is never delivered again: once a delivery
/// succeeds, any later frame for the same message is refused.
pub proof fn lemma_no_replay(
    nodes: Seq<Pubkey>,
    message_id: Seq<char>,
    first: FrameParts,
    later: FrameParts,
)
    requires
        transmit_refusal(nodes, 0, message_id, first) is None,
    ensures
        transmit_refusal(nodes, 1, message_id, later) is Some,
{
}

} // verus!
