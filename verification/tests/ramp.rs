use crosschain::pubkey::Pubkey;
use crosschain::ramp::{
    add_sender, finish_transmit, initialize, remove_sender, request_digest_input_bytes,
    send_request, set_admin, set_chain_whitelist, set_oracle_nodes, transmit, RampConfig,
    RampError, TokenTransferMetadata,
};
use std::sync::atomic::{AtomicU64, Ordering};

static NEXT_KEY: AtomicU64 = AtomicU64::new(1);

/// A fresh address, different from every other one made here.
fn new_unique() -> Pubkey {
    let n = NEXT_KEY.fetch_add(1, Ordering::SeqCst);
    let mut bytes = [0u8; 32];
    bytes[..8].copy_from_slice(&n.to_le_bytes());
    bytes[31] = 0xBB;
    Pubkey::new_from_array(bytes)
}

/// A recovered 64-byte key whose first half is `node`'s address.
fn key_of(node: &Pubkey) -> Option<[u8; 64]> {
    let mut k = [0x55u8; 64];
    k[..32].copy_from_slice(&node.to_bytes());
    Some(k)
}

fn three_node_config() -> (RampConfig, [Pubkey; 3]) {
    let nodes = [new_unique(), new_unique(), new_unique()];
    let config = RampConfig {
        is_initialized: true,
        authority: new_unique(),
        oracle_nodes: [
            nodes[0],
            nodes[1],
            nodes[2],
            Pubkey::default(),
            Pubkey::default(),
            Pubkey::default(),
            Pubkey::default(),
            Pubkey::default(),
        ],
        sender_whitelist: [Pubkey::default(); 8],
        source_chain_whitelist: [0; 8],
        destination_chain_whitelist: [0; 8],
    };
    (config, nodes)
}

#[test]
fn test_initialize() {
    let authority = Pubkey::default();
    let mut ramp_config = RampConfig {
        is_initialized: false,
        authority,
        oracle_nodes: [Pubkey::default(); 8],
        sender_whitelist: [Pubkey::default(); 8],
        source_chain_whitelist: [0; 8],
        destination_chain_whitelist: [0; 8],
    };
    assert!(!ramp_config.is_initialized);
    let authority = new_unique();
    let event = initialize(&mut ramp_config, authority, 5).unwrap();
    assert!(ramp_config.is_initialized);
    assert_eq!(ramp_config.authority, authority);
    assert_eq!(event.authority, authority);
    assert_eq!(event.slot, 5);
}

#[test]
fn test_set_admin() {
    let authority = new_unique();
    let new_authority = new_unique();
    let mut ramp_config = RampConfig {
        is_initialized: true,
        authority,
        oracle_nodes: [Pubkey::default(); 8],
        sender_whitelist: [Pubkey::default(); 8],
        source_chain_whitelist: [0; 8],
        destination_chain_whitelist: [0; 8],
    };
    let current_authority = authority;
    let result = set_admin(&mut ramp_config, &current_authority, new_authority, 1);
    assert!(result.is_ok());
    assert_eq!(ramp_config.authority, new_authority);
    let not_admin = new_unique();
    let result = set_admin(&mut ramp_config, &not_admin, authority, 2);
    assert!(matches!(result, Err(RampError::Unauthorized)));
}

#[test]
fn test_set_oracle_nodes() {
    let authority = new_unique();
    let mut ramp_config = RampConfig {
        is_initialized: true,
        authority,
        oracle_nodes: [Pubkey::default(); 8],
        sender_whitelist: [Pubkey::default(); 8],
        source_chain_whitelist: [0; 8],
        destination_chain_whitelist: [0; 8],
    };
    let new_nodes = [new_unique(); 8];
    set_oracle_nodes(&mut ramp_config, &authority, new_nodes, 0).unwrap();
    assert_eq!(ramp_config.oracle_nodes, new_nodes);
}

#[test]
fn test_initialize_already_initialized() {
    let authority = new_unique();
    let mut ramp_config = RampConfig {
        is_initialized: true,
        authority,
        oracle_nodes: [Pubkey::default(); 8],
        sender_whitelist: [Pubkey::default(); 8],
        source_chain_whitelist: [0; 8],
        destination_chain_whitelist: [0; 8],
    };
    let result = initialize(&mut ramp_config, new_unique(), 0);
    assert!(matches!(result, Err(RampError::AlreadyInitialized)));
    assert_eq!(ramp_config.authority, authority);
}

#[test]
fn test_set_chain_whitelist() {
    let authority = new_unique();
    let mut ramp_config = RampConfig {
        is_initialized: true,
        authority,
        oracle_nodes: [Pubkey::default(); 8],
        sender_whitelist: [Pubkey::default(); 8],
        source_chain_whitelist: [0; 8],
        destination_chain_whitelist: [0; 8],
    };
    let new_source_chains = [10, 11, 12, 13, 14, 15, 16, 17];
    let new_destination_chains = [20, 21, 22, 23, 24, 25, 26, 27];
    set_chain_whitelist(&mut ramp_config, &authority, new_source_chains, new_destination_chains, 0).unwrap();
    assert_eq!(ramp_config.source_chain_whitelist, new_source_chains);
    assert_eq!(ramp_config.destination_chain_whitelist, new_destination_chains);
    let not_admin = new_unique();
    let result = set_chain_whitelist(&mut ramp_config, &not_admin, [1; 8], [2; 8], 0);
    assert!(matches!(result, Err(RampError::Unauthorized)));
    assert_eq!(ramp_config.source_chain_whitelist, new_source_chains);
}

#[test]
fn test_add_sender() {
    let authority = new_unique();
    let sender = new_unique();
    let mut ramp_config = RampConfig {
        is_initialized: true,
        authority,
        oracle_nodes: [Pubkey::default(); 8],
        sender_whitelist: [Pubkey::default(); 8],
        source_chain_whitelist: [0; 8],
        destination_chain_whitelist: [0; 8],
    };
    let added = add_sender(&mut ramp_config, &authority, sender, 0).is_ok();
    assert!(added);
    assert!(ramp_config.sender_whitelist.contains(&sender));
    let duplicate = add_sender(&mut ramp_config, &authority, sender, 0).is_ok();
    assert!(duplicate);
    ramp_config.sender_whitelist = [new_unique(); 8];
    let full = matches!(
        add_sender(&mut ramp_config, &authority, sender, 0),
        Err(RampError::SenderWhitelistFull)
    );
    assert!(full);
}

#[test]
fn test_remove_sender() {
    let authority = new_unique();
    let sender = new_unique();
    let mut ramp_config = RampConfig {
        is_initialized: true,
        authority,
        oracle_nodes: [Pubkey::default(); 8],
        sender_whitelist: [Pubkey::default(); 8],
        source_chain_whitelist: [0; 8],
        destination_chain_whitelist: [0; 8],
    };
    ramp_config.sender_whitelist[0] = sender;
    let removed = remove_sender(&mut ramp_config, &authority, sender, 0).is_ok();
    assert!(removed);
    assert!(!ramp_config.sender_whitelist.contains(&sender));
    let not_exist = new_unique();
    let not_found = matches!(
        remove_sender(&mut ramp_config, &authority, not_exist, 0),
        Err(RampError::SenderNotFound)
    );
    assert!(not_found);
}

#[test]
fn test_add_sender_unauthorized() {
    let authority = new_unique();
    let not_admin = new_unique();
    let sender = new_unique();
    let mut ramp_config = RampConfig {
        is_initialized: true,
        authority,
        oracle_nodes: [Pubkey::default(); 8],
        sender_whitelist: [Pubkey::default(); 8],
        source_chain_whitelist: [0; 8],
        destination_chain_whitelist: [0; 8],
    };
    let result = add_sender(&mut ramp_config, &not_admin, sender, 0);
    assert!(matches!(result, Err(RampError::Unauthorized)));
    assert!(!ramp_config.sender_whitelist.contains(&sender));
}

#[test]
fn test_remove_sender_unauthorized() {
    let authority = new_unique();
    let not_admin = new_unique();
    let sender = new_unique();
    let mut ramp_config = RampConfig {
        is_initialized: true,
        authority,
        oracle_nodes: [Pubkey::default(); 8],
        sender_whitelist: [Pubkey::default(); 8],
        source_chain_whitelist: [0; 8],
        destination_chain_whitelist: [0; 8],
    };
    ramp_config.sender_whitelist[0] = sender;
    let result = remove_sender(&mut ramp_config, &not_admin, sender, 0);
    assert!(matches!(result, Err(RampError::Unauthorized)));
    assert!(ramp_config.sender_whitelist.contains(&sender));
}

#[test]
fn test_transmit_threshold() {
    // Three nodes: two distinct signers reach 3/2+1.
    let (ramp_config, nodes) = three_node_config();
    let recovered = vec![key_of(&nodes[0]), key_of(&nodes[2])];
    let result = finish_transmit(&ramp_config, &recovered, 2, 100);
    assert!(result.is_ok());
    let event = result.unwrap();
    assert_eq!(event.unique_validators, 2);
    assert_eq!(event.sig_count, 2);
    assert_eq!(event.authority, ramp_config.authority);
    assert_eq!(event.slot, 100);
}

#[test]
fn test_transmit_insufficient_signatures() {
    let (ramp_config, nodes) = three_node_config();
    let recovered = vec![key_of(&nodes[1])];
    let result = finish_transmit(&ramp_config, &recovered, 1, 0);
    assert!(matches!(result, Err(RampError::Unauthorized)));
}

#[test]
fn test_transmit_non_whitelisted_node() {
    let (ramp_config, _nodes) = three_node_config();
    let outsider = new_unique();
    let other = new_unique();
    let recovered = vec![key_of(&outsider), key_of(&other)];
    let result = finish_transmit(&ramp_config, &recovered, 2, 0);
    assert!(matches!(result, Err(RampError::Unauthorized)));
}

#[test]
fn test_transmit_duplicate_signatures() {
    let (ramp_config, nodes) = three_node_config();
    let recovered = vec![key_of(&nodes[0]), key_of(&nodes[0])];
    let result = finish_transmit(&ramp_config, &recovered, 2, 0);
    assert!(matches!(result, Err(RampError::Unauthorized)));
}

#[test]
fn test_transmit_data_tampered() {
    // A tampered report makes recovery fail or yield some unrelated key.
    let (ramp_config, nodes) = three_node_config();
    let mut wrong = key_of(&nodes[0]).unwrap();
    wrong[0] ^= 1;
    let recovered = vec![Some(wrong), None];
    let result = finish_transmit(&ramp_config, &recovered, 2, 0);
    assert!(matches!(result, Err(RampError::Unauthorized)));
}

#[test]
fn test_send_request_success() {
    let sender = new_unique();
    let dst_chain_id = 42;
    let receiver = "receiver_contract".to_string();
    let message = b"hello world".to_vec();
    let token_transfer_metadata = TokenTransferMetadata {
        target_chain_id: dst_chain_id,
        token_address: new_unique(),
        symbol: *b"USDC            ",
        amount: 1000,
        extra_data: "extra".to_string(),
    };
    let ramp_config = RampConfig {
        is_initialized: true,
        authority: new_unique(),
        oracle_nodes: [Pubkey::default(); 8],
        sender_whitelist: [sender, Pubkey::default(), Pubkey::default(), Pubkey::default(), Pubkey::default(), Pubkey::default(), Pubkey::default(), Pubkey::default()],
        source_chain_whitelist: [0; 8],
        destination_chain_whitelist: [dst_chain_id, 0, 0, 0, 0, 0, 0, 0],
    };
    let mut hasher = solana_program::keccak::Hasher::default();
    hasher.hash(&sender.to_bytes());
    hasher.hash(&dst_chain_id.to_le_bytes());
    hasher.hash(receiver.as_bytes());
    hasher.hash(&message);
    hasher.hash(&token_transfer_metadata.try_to_vec().unwrap());
    hasher.hash(&77u64.to_le_bytes());
    let expected_id = hasher.result().to_bytes();
    assert_eq!(expected_id.len(), 32);
    let event = send_request(&ramp_config, &sender, dst_chain_id, receiver.clone(), message, token_transfer_metadata, 77).unwrap();
    assert_eq!(event.message_id, expected_id);
    assert_eq!(event.sender, sender);
    assert_eq!(event.receiver, receiver);
    assert_eq!(event.slot, 77);
    assert_eq!(event.token_transfer_metadata.amount, 1000);
}

#[test]
fn test_send_request_sender_not_whitelisted() {
    let sender = new_unique();
    let dst_chain_id = 42;
    let message = b"hello world".to_vec();
    let ramp_config = RampConfig {
        is_initialized: true,
        authority: new_unique(),
        oracle_nodes: [Pubkey::default(); 8],
        sender_whitelist: [new_unique(); 8],
        source_chain_whitelist: [0; 8],
        destination_chain_whitelist: [dst_chain_id, 0, 0, 0, 0, 0, 0, 0],
    };
    let result = send_request(&ramp_config, &sender, dst_chain_id, "receiver".to_string(), message, TokenTransferMetadata::default(), 0);
    assert!(matches!(result, Err(RampError::Unauthorized)));
}

#[test]
fn test_send_request_chain_not_whitelisted() {
    let sender = new_unique();
    let dst_chain_id = 99;
    let message = b"hello world".to_vec();
    let ramp_config = RampConfig {
        is_initialized: true,
        authority: new_unique(),
        oracle_nodes: [Pubkey::default(); 8],
        sender_whitelist: [sender, Pubkey::default(), Pubkey::default(), Pubkey::default(), Pubkey::default(), Pubkey::default(), Pubkey::default(), Pubkey::default()],
        source_chain_whitelist: [0; 8],
        destination_chain_whitelist: [0, 0, 0, 0, 0, 0, 0, 0],
    };
    let result = send_request(&ramp_config, &sender, dst_chain_id, "receiver".to_string(), message, TokenTransferMetadata::default(), 0);
    assert!(matches!(result, Err(RampError::Unauthorized)));
}

#[test]
fn test_send_request_message_id_consistency() {
    let sender = new_unique();
    let dst_chain_id = 42;
    let receiver = "receiver".to_string();
    let message = b"hello world".to_vec();
    let ramp_config = RampConfig {
        is_initialized: true,
        authority: new_unique(),
        oracle_nodes: [Pubkey::default(); 8],
        sender_whitelist: [sender, Pubkey::default(), Pubkey::default(), Pubkey::default(), Pubkey::default(), Pubkey::default(), Pubkey::default(), Pubkey::default()],
        source_chain_whitelist: [0; 8],
        destination_chain_whitelist: [dst_chain_id, 0, 0, 0, 0, 0, 0, 0],
    };
    let id1 = send_request(&ramp_config, &sender, dst_chain_id, receiver.clone(), message.clone(), TokenTransferMetadata::default(), 3).unwrap().message_id;
    let id2 = send_request(&ramp_config, &sender, dst_chain_id, receiver.clone(), message.clone(), TokenTransferMetadata::default(), 3).unwrap().message_id;
    assert_eq!(id1, id2);
    let id3 = send_request(&ramp_config, &sender, dst_chain_id, receiver, message, TokenTransferMetadata::default(), 4).unwrap().message_id;
    assert_ne!(id1, id3);
}

#[test]
fn digest_input_layout() {
    let sender = Pubkey::new_from_array([3u8; 32]);
    let meta = TokenTransferMetadata::default();
    let bytes = request_digest_input_bytes(&sender, 0x0102, "ab", b"xyz", &meta, 9);
    let mut expected = vec![3u8; 32];
    expected.extend_from_slice(&0x0102u64.to_le_bytes());
    expected.extend_from_slice(b"ab");
    expected.extend_from_slice(b"xyz");
    expected.extend_from_slice(&meta.try_to_vec().unwrap());
    expected.extend_from_slice(&9u64.to_le_bytes());
    assert_eq!(bytes, expected);
}

#[test]
fn ramp_transmit_on_frame_without_signers_is_unauthorized() {
    let (ramp_config, _nodes) = three_node_config();
    let mut data = vec![];
    for part in [&b"rc"[..], &b"msg"[..], &b"meta"[..]] {
        data.extend_from_slice(&(part.len() as u32).to_le_bytes());
        data.extend_from_slice(part);
    }
    data.extend_from_slice(&1u32.to_le_bytes());
    data.extend_from_slice(&[9u8; 64]);
    data.push(7); // recovery id above 3: no key is recovered
    assert!(matches!(transmit(&ramp_config, &data, 0), Err(RampError::Unauthorized)));
}

#[test]
fn zero_nodes_never_reach_quorum() {
    let config = RampConfig {
        is_initialized: true,
        authority: new_unique(),
        oracle_nodes: [Pubkey::default(); 8],
        sender_whitelist: [Pubkey::default(); 8],
        source_chain_whitelist: [0; 8],
        destination_chain_whitelist: [0; 8],
    };
    let recovered = vec![key_of(&Pubkey::default()), key_of(&new_unique())];
    assert!(matches!(finish_transmit(&config, &recovered, 2, 0), Err(RampError::Unauthorized)));
}

#[test]
fn ramp_error_messages() {
    assert_eq!(RampError::AlreadyInitialized.message(), "Already initialized");
    assert_eq!(RampError::SenderNotFound.message(), "Sender not found");
}

#[test]
fn quorum_is_a_majority_of_the_active_nodes() {
    let nodes = [new_unique(), new_unique(), new_unique(), new_unique(), new_unique()];
    let mut oracle_nodes = [Pubkey::default(); 8];
    oracle_nodes[..5].copy_from_slice(&nodes);
    let config = RampConfig {
        is_initialized: true,
        authority: new_unique(),
        oracle_nodes,
        sender_whitelist: [Pubkey::default(); 8],
        source_chain_whitelist: [0; 8],
        destination_chain_whitelist: [0; 8],
    };
    let two: Vec<_> = nodes[..2].iter().map(key_of).collect();
    assert_eq!(finish_transmit(&config, &two, 2, 1), Err(RampError::Unauthorized));
    let three: Vec<_> = nodes[..3].iter().map(key_of).collect();
    let event = finish_transmit(&config, &three, 3, 1).unwrap();
    assert_eq!(event.unique_validators, 3);
    let empty = RampConfig { oracle_nodes: [Pubkey::default(); 8], ..config };
    assert_eq!(finish_transmit(&empty, &three, 3, 1), Err(RampError::Unauthorized));
}
