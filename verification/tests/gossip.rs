use alloy_signer::SignerSync;
use alloy_signer_local::PrivateKeySigner;
use exex_examples::gossip::{
    block_valid, block_valid_signed, route_message, BlockHandler, GossipDriverBuilder, IpAddress, SocketAddress,
    DEFAULT_CHAIN_ID,
};
use exex_examples::topics::BlocksTopic;

fn socket() -> SocketAddress {
    SocketAddress { ip: IpAddress::V4([0, 0, 0, 0]), port: 9222 }
}

#[test]
fn builder_moves_topics_to_the_chain() {
    let mut b = GossipDriverBuilder::new();
    b.with_blocks_topic_v1();
    b.with_chain_id(8453);
    b.with_blocks_topic_v2();
    b.with_blocks_topic_v3();
    b.with_unsafe_block_signer([7u8; 20]);
    b.with_socket(socket());
    let s = b.build().unwrap();
    assert_eq!(s.chain_id, 8453);
    assert_eq!(s.unsafe_block_signer, [7u8; 20]);
    assert_eq!(s.socket, socket());
    let texts: Vec<String> = s.topics.iter().map(|t: &BlocksTopic| t.to_string()).collect();
    assert_eq!(
        texts,
        vec!["/optimism/8453/0/blocks", "/optimism/8453/1/blocks", "/optimism/8453/2/blocks"]
    );
}

#[test]
fn topics_default_to_op_mainnet() {
    assert_eq!(DEFAULT_CHAIN_ID, 10);
    let mut b = GossipDriverBuilder::new();
    b.with_blocks_topic_v2();
    b.with_chain_id(5);
    b.with_unsafe_block_signer([1u8; 20]);
    b.with_socket(socket());
    let mut unset = GossipDriverBuilder::new();
    unset.with_blocks_topic_v1();
    unset.with_unsafe_block_signer([1u8; 20]);
    unset.with_socket(socket());
    assert_eq!(unset.build().unwrap_err(), "chain ID not set");
    assert_eq!(b.build().unwrap().topics[0].to_string(), "/optimism/5/1/blocks");
}

#[test]
fn builder_reports_the_first_missing_setting() {
    let mut b = GossipDriverBuilder::new();
    assert_eq!(GossipDriverBuilder::new().build().unwrap_err(), "chain ID not set");
    b.with_chain_id(10);
    let mut c = GossipDriverBuilder::new();
    c.with_chain_id(10);
    c.with_unsafe_block_signer([1u8; 20]);
    assert_eq!(b.build().unwrap_err(), "unsafe block signer not set");
    assert_eq!(c.build().unwrap_err(), "socket address not set");
}

#[test]
fn handler_topics_and_dispatch() {
    let h = BlockHandler::new(10);
    assert_eq!(h.topics(), vec!["/optimism/10/0/blocks".to_string(), "/optimism/10/1/blocks".to_string()]);
    assert_eq!(h.topic_version("/optimism/10/0/blocks"), Some(0));
    assert_eq!(h.topic_version("/optimism/10/1/blocks"), Some(1));
    assert_eq!(h.topic_version("/optimism/10/2/blocks"), Some(2));
    assert_eq!(h.topic_version("/optimism/11/0/blocks"), None);
}

#[test]
fn messages_go_to_the_first_handler_of_their_topic() {
    let handlers = vec![
        vec!["a".to_string()],
        vec!["b".to_string(), "c".to_string()],
        vec!["c".to_string()],
    ];
    assert_eq!(route_message(&handlers, "c"), Some(1));
    assert_eq!(route_message(&handlers, "a"), Some(0));
    assert_eq!(route_message(&handlers, "z"), None);
}

#[test]
fn block_time_and_signer() {
    let signer = [9u8; 20];
    let now = 1_700_000_000;
    assert!(block_valid(now, now, Some(signer), signer));
    assert!(block_valid(now + 5, now, Some(signer), signer));
    assert!(!block_valid(now + 6, now, Some(signer), signer));
    assert!(block_valid(now - 59, now, Some(signer), signer));
    assert!(!block_valid(now - 60, now, Some(signer), signer));
    assert!(!block_valid(now - 61, now, Some(signer), signer));
    assert!(!block_valid(now, now, Some([8u8; 20]), signer));
    assert!(!block_valid(now, now, None, signer));
}

#[test]
fn gossiped_block_signer_is_recovered() {
    let signer = PrivateKeySigner::from_slice(&[3u8; 32]).unwrap();
    let message = [0x5au8; 32];
    let sig = signer.sign_message_sync(&message).unwrap().as_bytes();
    let key = signer.address().0 .0;
    let now = 1_700_000_000u64;
    assert!(block_valid_signed(now, now, &sig, &message, key));
    assert!(block_valid_signed(now + 5, now, &sig, &message, key));
    assert!(!block_valid_signed(now + 6, now, &sig, &message, key));
    assert!(!block_valid_signed(now - 60, now, &sig, &message, key));
    assert!(block_valid_signed(now - 59, now, &sig, &message, key));
    assert!(!block_valid_signed(now, now, &sig, &message, [0u8; 20]));
    assert!(!block_valid_signed(now, now, &sig, &[0x5bu8; 32], key));
    assert!(!block_valid_signed(now, now, &sig[..64], &message, key));
}

#[test]
fn builder_keeps_the_keypair_or_makes_one() {
    let mut b = GossipDriverBuilder::new();
    b.with_chain_id(10);
    b.with_unsafe_block_signer([1u8; 20]);
    b.with_socket(socket());
    b.with_keypair([7u8; 32]);
    assert_eq!(b.build().unwrap().keypair, [7u8; 32]);
    let mut b = GossipDriverBuilder::new();
    b.with_chain_id(10);
    b.with_unsafe_block_signer([1u8; 20]);
    b.with_socket(socket());
    let fresh = b.build().unwrap().keypair;
    assert!(PrivateKeySigner::from_slice(&fresh).is_ok());
}
