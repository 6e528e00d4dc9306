use crosschain::oracle::{
    add_sender_logic, decrypt_report, initialize_logic, register_node_logic, remove_sender_logic,
    send_request_logic, set_admin_logic, set_chain_whitelist_logic, set_oracle_nodes_logic,
    transmit, update_node_logic, verify_signature_secp256k1, verify_signatures_secp256k1,
    CrossChainMessage, OracleConfig, OracleError, OracleNode, ReportContext, TokenTransferMetadata,
};
use crosschain::pubkey::Pubkey;
use crosschain::sigverify::InstructionsAccount;
use std::sync::atomic::{AtomicU64, Ordering};

static NEXT_KEY: AtomicU64 = AtomicU64::new(1);

/// A fresh address, different from every other one made here.
fn new_unique() -> Pubkey {
    let n = NEXT_KEY.fetch_add(1, Ordering::SeqCst);
    let mut bytes = [0u8; 32];
    bytes[..8].copy_from_slice(&n.to_le_bytes());
    bytes[31] = 0xAA;
    Pubkey::new_from_array(bytes)
}

const PROGRAM_ID: &str = "Fg6PaFpoGXkYsidMpWTK6W2BeZ7FEfcYkgMQHGt1hFJk";

fn create_oracle_config(admin: Pubkey, is_initialized: bool) -> OracleConfig {
    OracleConfig {
        admin,
        chain_whitelist: [0; 8],
        oracle_nodes: [Pubkey::default(); 8],
        sender_whitelist: [Pubkey::default(); 8],
        is_initialized,
    }
}

fn create_cross_chain_message(id: &str, status: u8, bump: u8) -> CrossChainMessage {
    CrossChainMessage { message_id: id.to_string(), status, bump }
}

fn create_token_transfer_metadata(target_chain_id: u64, amount: u64) -> TokenTransferMetadata {
    TokenTransferMetadata {
        target_chain_id,
        token_address: new_unique(),
        symbol: [0u8; 16],
        amount,
        extra_data: "extra".to_string(),
    }
}

/// The frame the original tests build: each signature is preceded by its
/// length, which the frame layout does not expect.
fn build_frame(rc: &[u8], message: &[u8], meta: &[u8], signatures: &[Vec<u8>]) -> Vec<u8> {
    let mut data = vec![];
    let push_u32 = |v: u32, data: &mut Vec<u8>| data.extend_from_slice(&v.to_le_bytes());
    push_u32(rc.len() as u32, &mut data);
    data.extend_from_slice(rc);
    push_u32(message.len() as u32, &mut data);
    data.extend_from_slice(message);
    push_u32(meta.len() as u32, &mut data);
    data.extend_from_slice(meta);
    push_u32(signatures.len() as u32, &mut data);
    for sig in signatures {
        push_u32(sig.len() as u32, &mut data);
        data.extend_from_slice(sig);
    }
    data
}

#[test]
fn test_set_chain_whitelist_logic() {
    let mut config = OracleConfig {
        admin: new_unique(),
        chain_whitelist: [0; 8],
        oracle_nodes: [Pubkey::default(); 8],
        sender_whitelist: [Pubkey::default(); 8],
        is_initialized: true,
    };
    let authority = config.admin;
    let chain_ids = [10, 11, 12, 13, 14, 15, 16, 17];
    let result = set_chain_whitelist_logic(&mut config, &authority, chain_ids);
    assert!(result.is_ok());
    assert_eq!(config.chain_whitelist, chain_ids);
    let fake = new_unique();
    let result2 = set_chain_whitelist_logic(&mut config, &fake, [1; 8]);
    assert!(result2.is_err());
}

#[test]
fn test_set_oracle_nodes_logic() {
    let mut config = OracleConfig {
        admin: new_unique(),
        chain_whitelist: [0; 8],
        oracle_nodes: [Pubkey::default(); 8],
        sender_whitelist: [Pubkey::default(); 8],
        is_initialized: true,
    };
    let authority = config.admin;
    let node_pubkeys = [new_unique(); 8];
    let result = set_oracle_nodes_logic(&mut config, &authority, node_pubkeys);
    assert!(result.is_ok());
    assert_eq!(config.oracle_nodes, node_pubkeys);
    let fake = new_unique();
    let result2 = set_oracle_nodes_logic(&mut config, &fake, [Pubkey::default(); 8]);
    assert!(result2.is_err());
}

#[test]
fn test_add_sender_logic() {
    let mut config = OracleConfig {
        admin: new_unique(),
        chain_whitelist: [0; 8],
        oracle_nodes: [Pubkey::default(); 8],
        sender_whitelist: [Pubkey::default(); 8],
        is_initialized: true,
    };
    let authority = config.admin;
    let sender = new_unique();
    let result = add_sender_logic(&mut config, &authority, sender);
    assert!(result.is_ok());
    assert!(config.sender_whitelist.contains(&sender));
    let result2 = add_sender_logic(&mut config, &authority, sender);
    assert!(result2.is_ok());
    for i in 0..8 {
        config.sender_whitelist[i] = new_unique();
    }
    let result3 = add_sender_logic(&mut config, &authority, new_unique());
    assert!(result3.is_err());
    let fake = new_unique();
    let result4 = add_sender_logic(&mut config, &fake, new_unique());
    assert!(result4.is_err());
}

#[test]
fn test_remove_sender_logic() {
    let mut config = OracleConfig {
        admin: new_unique(),
        chain_whitelist: [0; 8],
        oracle_nodes: [Pubkey::default(); 8],
        sender_whitelist: [Pubkey::default(); 8],
        is_initialized: true,
    };
    let authority = config.admin;
    let sender = new_unique();
    config.sender_whitelist[0] = sender;
    let result = remove_sender_logic(&mut config, &authority, sender);
    assert!(result.is_ok());
    assert!(!config.sender_whitelist.contains(&sender));
    let result2 = remove_sender_logic(&mut config, &authority, sender);
    assert!(result2.is_err());
    let fake = new_unique();
    let result3 = remove_sender_logic(&mut config, &fake, new_unique());
    assert!(result3.is_err());
}

#[test]
fn test_send_request_logic() {
    let payer = new_unique();
    let mut chain_whitelist = [0u64; 8];
    chain_whitelist[0] = 42;
    let mut sender_whitelist = [Pubkey::default(); 8];
    sender_whitelist[0] = payer;
    let sender = PROGRAM_ID.to_string();
    let dst_chain_id = 42u64;
    let receiver = "evm_contract_address".to_string();
    let message = b"test message";
    let token_transfer_metadata = TokenTransferMetadata {
        target_chain_id: dst_chain_id,
        token_address: new_unique(),
        symbol: [0u8; 16],
        amount: 123,
        extra_data: "extra".to_string(),
    };
    let epoch = 1u64;
    let blocktime = 1234567890i64;
    let result = send_request_logic(
        &payer,
        &chain_whitelist,
        &sender_whitelist,
        &sender,
        dst_chain_id,
        &receiver,
        message,
        &token_transfer_metadata,
        epoch,
        blocktime,
    );
    assert!(result.is_ok());
    let fake = new_unique();
    let result2 = send_request_logic(
        &fake,
        &chain_whitelist,
        &sender_whitelist,
        &sender,
        dst_chain_id,
        &receiver,
        message,
        &token_transfer_metadata,
        epoch,
        blocktime,
    );
    assert!(result2.is_err());
    let result3 = send_request_logic(
        &payer,
        &[1u64; 8],
        &sender_whitelist,
        &sender,
        999,
        &receiver,
        message,
        &token_transfer_metadata,
        epoch,
        blocktime,
    );
    assert!(result3.is_err());
}

#[test]
fn test_verify_signature_secp256k1_always_false() {
    let message = b"hello world";
    let sig_bytes = [7u8; 64];
    let pubkey_bytes = [2u8; 33];
    // The account handed in is not the instructions sysvar: nothing can be loaded.
    let account = InstructionsAccount { key: Pubkey::default(), data: vec![] };
    let result = verify_signature_secp256k1(message, &sig_bytes, &pubkey_bytes, &account);
    assert!(!result);
}

#[test]
fn test_verify_signatures_secp256k1_always_false() {
    let message = b"batch test message";
    let mut signatures = Vec::new();
    let mut pubkeys = Vec::new();
    for i in 0..3u8 {
        signatures.push(vec![i + 1; 64]);
        pubkeys.push(vec![i + 10; 33]);
    }
    let account = InstructionsAccount { key: Pubkey::default(), data: vec![] };
    let result = verify_signatures_secp256k1(message, &signatures, &pubkeys, &account);
    assert!(!result);
}

#[test]
fn test_register_node_logic_success() {
    let mut node = OracleNode::default();
    let node_id = 42;
    let pubkey = new_unique();
    register_node_logic(&mut node, node_id, pubkey);
    assert_eq!(node.node_id, node_id);
    assert_eq!(node.pubkey, pubkey);
}

#[test]
fn test_update_node_logic_success() {
    let mut node = OracleNode { node_id: 1, pubkey: new_unique() };
    let new_id = 99;
    let new_pubkey = new_unique();
    update_node_logic(&mut node, new_id, new_pubkey);
    assert_eq!(node.node_id, new_id);
    assert_eq!(node.pubkey, new_pubkey);
}

#[test]
fn test_initialize_logic_success() {
    let mut config = OracleConfig {
        admin: Pubkey::default(),
        chain_whitelist: [0; 8],
        oracle_nodes: [Pubkey::default(); 8],
        sender_whitelist: [Pubkey::default(); 8],
        is_initialized: false,
    };
    let authority = new_unique();
    let chain_ids = [1, 2, 3, 4, 5, 6, 7, 8];
    let node_pubkeys = [new_unique(); 8];
    let result = initialize_logic(&mut config, &authority, chain_ids, node_pubkeys);
    assert!(result.is_ok());
    assert_eq!(config.admin, authority);
    assert_eq!(config.chain_whitelist, chain_ids);
    assert_eq!(config.oracle_nodes, node_pubkeys);
    assert!(config.is_initialized);
}

#[test]
fn test_initialize_logic_fail_already_initialized() {
    let mut config = OracleConfig {
        admin: Pubkey::default(),
        chain_whitelist: [0; 8],
        oracle_nodes: [Pubkey::default(); 8],
        sender_whitelist: [Pubkey::default(); 8],
        is_initialized: true,
    };
    let authority = new_unique();
    let chain_ids = [1, 2, 3, 4, 5, 6, 7, 8];
    let node_pubkeys = [new_unique(); 8];
    let result = initialize_logic(&mut config, &authority, chain_ids, node_pubkeys);
    assert!(result.is_err());
}

#[test]
fn test_set_admin_logic_success() {
    let mut config = OracleConfig {
        admin: new_unique(),
        chain_whitelist: [0; 8],
        oracle_nodes: [Pubkey::default(); 8],
        sender_whitelist: [Pubkey::default(); 8],
        is_initialized: true,
    };
    let authority = config.admin;
    let new_admin = new_unique();
    let result = set_admin_logic(&mut config, &authority, new_admin);
    assert!(result.is_ok());
    assert_eq!(config.admin, new_admin);
}

#[test]
fn test_set_admin_logic_fail_not_admin() {
    let mut config = OracleConfig {
        admin: new_unique(),
        chain_whitelist: [0; 8],
        oracle_nodes: [Pubkey::default(); 8],
        sender_whitelist: [Pubkey::default(); 8],
        is_initialized: true,
    };
    let fake = new_unique();
    let result = set_admin_logic(&mut config, &fake, new_unique());
    assert!(result.is_err());
}

#[test]
fn test_transmit_multisig_threshold() {
    let node1 = new_unique();
    let node2 = new_unique();
    let node3 = new_unique();
    let _named_message = create_cross_chain_message("msgid123", 0, 0);
    let mut oracle_nodes = [Pubkey::default(); 8];
    oracle_nodes[0] = node1;
    oracle_nodes[1] = node2;
    oracle_nodes[2] = node3;
    let mut config = create_oracle_config(new_unique(), true);
    config.oracle_nodes = oracle_nodes;
    let report_context = ReportContext {
        message_id: "msgid123".to_string(),
        sender: "sender_contract".to_string(),
        receiver: new_unique(),
        src_chain: 1,
        dst_chain: 2,
        epoch: 1,
    };
    let report_context_bytes = report_context.try_to_vec().unwrap();
    let token_transfer_metadata = create_token_transfer_metadata(2, 100);
    let token_transfer_metadata_bytes = token_transfer_metadata.try_to_vec().unwrap();
    let message = b"hello world".to_vec();
    let signatures = vec![vec![1u8; 64], vec![2u8; 64]];
    let data1 = build_frame(&report_context_bytes, &message, &token_transfer_metadata_bytes, &signatures);
    // The message account is the default one, whose id does not match the report's.
    let mut cross_chain_message = CrossChainMessage::default();
    let result = transmit(&config, &mut cross_chain_message, &data1);
    assert!(result.is_err());
    let signatures = vec![vec![1u8; 64]];
    let data2 = build_frame(&report_context_bytes, &message, &token_transfer_metadata_bytes, &signatures);
    let result2 = transmit(&config, &mut cross_chain_message, &data2);
    assert!(result2.is_err());
}

#[test]
fn test_transmit_signature_below_threshold() {
    let node1 = new_unique();
    let node2 = new_unique();
    let mut oracle_nodes = [Pubkey::default(); 8];
    oracle_nodes[0] = node1;
    oracle_nodes[1] = node2;
    let mut config = create_oracle_config(new_unique(), true);
    config.oracle_nodes = oracle_nodes;
    let report_context = ReportContext::default();
    let report_context_bytes = report_context.try_to_vec().unwrap();
    let token_transfer_metadata = create_token_transfer_metadata(0, 0);
    let token_transfer_metadata_bytes = token_transfer_metadata.try_to_vec().unwrap();
    let message = b"test".to_vec();
    let signatures = vec![vec![1u8; 64]];
    let data1 = build_frame(&report_context_bytes, &message, &token_transfer_metadata_bytes, &signatures);
    let mut cross_chain_message = CrossChainMessage::default();
    let result = transmit(&config, &mut cross_chain_message, &data1);
    assert!(result.is_err());
}

#[test]
fn test_transmit_with_duplicate_signatures() {
    let node1 = new_unique();
    let node2 = new_unique();
    let mut oracle_nodes = [Pubkey::default(); 8];
    oracle_nodes[0] = node1;
    oracle_nodes[1] = node2;
    let config = OracleConfig {
        admin: new_unique(),
        chain_whitelist: [0; 8],
        oracle_nodes,
        sender_whitelist: [Pubkey::default(); 8],
        is_initialized: true,
    };
    let report_context = ReportContext::default();
    let report_context_bytes = report_context.try_to_vec().unwrap();
    let token_transfer_metadata = TokenTransferMetadata::default();
    let token_transfer_metadata_bytes = token_transfer_metadata.try_to_vec().unwrap();
    let message = b"test".to_vec();
    let signatures = vec![vec![1u8; 64], vec![2u8; 64]];
    let data1 = build_frame(&report_context_bytes, &message, &token_transfer_metadata_bytes, &signatures);
    let mut cross_chain_message = CrossChainMessage::default();
    let result = transmit(&config, &mut cross_chain_message, &data1);
    assert!(result.is_err());
}

#[test]
fn test_transmit_with_too_many_signatures() {
    let node1 = new_unique();
    let node2 = new_unique();
    let mut oracle_nodes = [Pubkey::default(); 8];
    oracle_nodes[0] = node1;
    oracle_nodes[1] = node2;
    let config = OracleConfig {
        admin: new_unique(),
        chain_whitelist: [0; 8],
        oracle_nodes,
        sender_whitelist: [Pubkey::default(); 8],
        is_initialized: true,
    };
    let report_context = ReportContext::default();
    let report_context_bytes = report_context.try_to_vec().unwrap();
    let token_transfer_metadata = TokenTransferMetadata::default();
    let token_transfer_metadata_bytes = token_transfer_metadata.try_to_vec().unwrap();
    let message = b"test".to_vec();
    let signatures = vec![vec![1u8; 64], vec![2u8; 64], vec![3u8; 64], vec![4u8; 64]];
    let data1 = build_frame(&report_context_bytes, &message, &token_transfer_metadata_bytes, &signatures);
    let mut cross_chain_message = CrossChainMessage::default();
    let result = transmit(&config, &mut cross_chain_message, &data1);
    assert!(result.is_err());
}

#[test]
fn transmit_reports_mismatched_message_as_invalid_metadata() {
    let config = create_oracle_config(new_unique(), true);
    let report_context = ReportContext {
        message_id: "msgid123".to_string(),
        ..ReportContext::default()
    };
    let rc = report_context.try_to_vec().unwrap();
    let meta = TokenTransferMetadata::default().try_to_vec().unwrap();
    let data = build_frame(&rc, b"m", &meta, &[]);
    let mut message = CrossChainMessage::default();
    assert_eq!(transmit(&config, &mut message, &data), Err(OracleError::InvalidMetadata));
    assert_eq!(message.status, 0);
}

#[test]
fn transmit_refuses_undecodable_parts() {
    let config = create_oracle_config(new_unique(), true);
    let meta = TokenTransferMetadata::default().try_to_vec().unwrap();
    let rc = ReportContext::default().try_to_vec().unwrap();
    let mut message = CrossChainMessage::default();
    let bad_rc = build_frame(&[1, 2, 3], b"m", &meta, &[]);
    assert_eq!(transmit(&config, &mut message, &bad_rc), Err(OracleError::InvalidMetadata));
    let bad_meta = build_frame(&rc, b"m", &[9; 10], &[]);
    assert_eq!(transmit(&config, &mut message, &bad_meta), Err(OracleError::InvalidMetadata));
}

#[test]
fn transmit_without_signers_is_unauthorized() {
    let mut config = create_oracle_config(new_unique(), true);
    config.oracle_nodes[0] = new_unique();
    let rc = ReportContext::default().try_to_vec().unwrap();
    let meta = TokenTransferMetadata::default().try_to_vec().unwrap();
    let data = build_frame(&rc, b"test", &meta, &[vec![5u8; 64]]);
    let mut message = CrossChainMessage::default();
    assert_eq!(transmit(&config, &mut message, &data), Err(OracleError::Unauthorized));
}

#[test]
fn decrypt_report_reads_little_endian_fields() {
    let mut data = vec![];
    data.extend_from_slice(&7u64.to_le_bytes());
    data.extend_from_slice(&(-5i128).to_le_bytes());
    data.extend_from_slice(&1_700_000_000u64.to_le_bytes());
    let report = decrypt_report(&data).unwrap();
    assert_eq!(report.round_id, 7);
    assert_eq!(report.answer, -5);
    assert_eq!(report.timestamp, 1_700_000_000);
    // Without the timestamp bytes the timestamp is 0.
    let short = decrypt_report(&data[..24]).unwrap();
    assert_eq!(short.round_id, 7);
    assert_eq!(short.answer, -5);
    assert_eq!(short.timestamp, 0);
    // 31 bytes: still no timestamp.
    assert_eq!(decrypt_report(&data[..31]).unwrap().timestamp, 0);
    assert_eq!(decrypt_report(&data[..23]), Err(OracleError::InvalidMetadata));
    assert_eq!(decrypt_report(&[]), Err(OracleError::InvalidMetadata));
}

#[test]
fn decrypt_report_extreme_values() {
    let mut data = vec![0xffu8; 8];
    data.extend_from_slice(&i128::MIN.to_le_bytes());
    let report = decrypt_report(&data).unwrap();
    assert_eq!(report.round_id, u64::MAX);
    assert_eq!(report.answer, i128::MIN);
    let mut data = vec![0u8; 8];
    data.extend_from_slice(&i128::MAX.to_le_bytes());
    data.extend_from_slice(&[0x01, 0, 0, 0, 0, 0, 0, 0x80]);
    let report = decrypt_report(&data).unwrap();
    assert_eq!(report.answer, i128::MAX);
    assert_eq!(report.timestamp, 0x8000_0000_0000_0001);
}

#[test]
fn set_admin_refuses_empty_admin_and_uninitialized_config() {
    let admin = new_unique();
    let mut config = create_oracle_config(admin, true);
    assert_eq!(set_admin_logic(&mut config, &admin, Pubkey::default()), Err(OracleError::InvalidMetadata));
    assert_eq!(config.admin, admin);
    let mut fresh = create_oracle_config(admin, false);
    assert_eq!(set_admin_logic(&mut fresh, &admin, new_unique()), Err(OracleError::InvalidMetadata));
    let other = new_unique();
    assert_eq!(set_admin_logic(&mut config, &other, new_unique()), Err(OracleError::Unauthorized));
}

#[test]
fn whitelist_errors_name_their_cause() {
    let admin = new_unique();
    let mut config = create_oracle_config(admin, true);
    let stranger = new_unique();
    assert_eq!(add_sender_logic(&mut config, &stranger, new_unique()), Err(OracleError::Unauthorized));
    assert_eq!(remove_sender_logic(&mut config, &admin, new_unique()), Err(OracleError::InvalidWhitelistAction));
    for i in 0..8 {
        config.sender_whitelist[i] = new_unique();
    }
    let before = config;
    assert_eq!(add_sender_logic(&mut config, &admin, new_unique()), Err(OracleError::InvalidWhitelistAction));
    assert_eq!(config, before);
}

#[test]
fn add_sender_fills_first_free_slot_and_remove_empties_it() {
    let admin = new_unique();
    let mut config = create_oracle_config(admin, true);
    let a = new_unique();
    let b = new_unique();
    config.sender_whitelist[0] = a;
    config.sender_whitelist[2] = b;
    let sender = new_unique();
    let before = config;
    add_sender_logic(&mut config, &admin, sender).unwrap();
    assert_eq!(config.sender_whitelist[1], sender);
    // Adding again changes nothing.
    let after_add = config;
    add_sender_logic(&mut config, &admin, sender).unwrap();
    assert_eq!(config, after_add);
    // Removing gives back the whitelist as it was.
    remove_sender_logic(&mut config, &admin, sender).unwrap();
    assert_eq!(config, before);
}

#[test]
fn add_sender_already_listed_after_a_hole() {
    // The first free slot comes before the sender's own slot: it is filled again.
    let admin = new_unique();
    let mut config = create_oracle_config(admin, true);
    let sender = new_unique();
    config.sender_whitelist[1] = sender;
    add_sender_logic(&mut config, &admin, sender).unwrap();
    assert_eq!(config.sender_whitelist[0], sender);
    assert_eq!(config.sender_whitelist[1], sender);
}

#[test]
fn send_request_errors() {
    let payer = new_unique();
    let mut senders = [Pubkey::default(); 8];
    senders[3] = payer;
    let mut chains = [0u64; 8];
    chains[5] = 7;
    let meta = TokenTransferMetadata::default();
    let other = new_unique();
    assert_eq!(
        send_request_logic(&other, &chains, &senders, "s", 7, "r", b"m", &meta, 0, 0),
        Err(OracleError::InvalidSenderAddress)
    );
    assert_eq!(
        send_request_logic(&payer, &chains, &senders, "s", 8, "r", b"m", &meta, 0, 0),
        Err(OracleError::Unauthorized)
    );
    assert!(send_request_logic(&payer, &chains, &senders, "s", 7, "r", b"m", &meta, 0, 0).is_ok());
}

#[test]
fn error_messages() {
    assert_eq!(OracleError::InvalidMetadata.message(), "Invalid node metadata");
    assert_eq!(OracleError::DuplicateMessageId.message(), "Duplicate message_id submitted");
    assert_eq!(OracleError::InvalidSenderAddress.message(), "Invalid sender address");
}

#[test]
fn send_request_refuses_payload_over_128_bytes() {
    let payer = new_unique();
    let mut sender_whitelist = [Pubkey::default(); 8];
    sender_whitelist[2] = payer;
    let chain_whitelist = [9u64; 8];
    let meta = create_token_transfer_metadata(9, 1);
    let long = vec![0xabu8; 129];
    let result = send_request_logic(
        &payer, &chain_whitelist, &sender_whitelist, PROGRAM_ID, 9, "r", &long, &meta, 1, 2,
    );
    assert_eq!(result, Err(OracleError::PayloadTooLarge));
    let result = send_request_logic(
        &payer, &chain_whitelist, &sender_whitelist, PROGRAM_ID, 9, "r", &long[..128], &meta, 1, 2,
    );
    assert_eq!(result.unwrap().len(), 64);
    let stranger = new_unique();
    let result = send_request_logic(
        &stranger, &chain_whitelist, &sender_whitelist, PROGRAM_ID, 9, "r", &long, &meta, 1, 2,
    );
    assert_eq!(result, Err(OracleError::InvalidSenderAddress));
    assert_eq!(OracleError::PayloadTooLarge.message(), "Payload too large");
}

#[test]
fn oracle_quorum_is_two_thirds_of_the_active_nodes() {
    let nodes: Vec<Pubkey> = (0..5).map(|_| new_unique()).collect();
    let mut config = create_oracle_config(new_unique(), true);
    config.oracle_nodes[..5].copy_from_slice(&nodes);
    let signed = |k: usize| -> Vec<Option<[u8; 64]>> {
        nodes[..k]
            .iter()
            .map(|n| {
                let mut key = [0x11u8; 64];
                key[..32].copy_from_slice(&n.to_bytes());
                Some(key)
            })
            .collect()
    };
    let mut message = create_cross_chain_message("m", 0, 0);
    let result = crosschain::oracle::finish_transmit(&config, &mut message, &signed(3));
    assert_eq!(result, Err(OracleError::Unauthorized));
    assert_eq!(message.status, 0);
    let result = crosschain::oracle::finish_transmit(&config, &mut message, &signed(4));
    assert_eq!(result, Ok(()));
    assert_eq!(message.status, 1);
}
