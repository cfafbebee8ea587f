use exex_examples::oracle_conn::{AttestationTable, OracleConnectionState, PeerAction, Source};
use exex_examples::oracle_proto::{OracleProtoMessage, OracleProtoMessageKind, SignedTicker};
use exex_examples::oracle_signer::OracleSigner;
use exex_examples::ticker::Ticker;

fn ticker() -> Ticker {
    Ticker { event_type: "24hrTicker".to_string(), symbol: "BTCUSDT".to_string(), event_time: 7, ..Default::default() }
}

fn attestations_in(bytes: &[u8]) -> Vec<[u8; 20]> {
    match OracleProtoMessage::decode_message(&mut &bytes[..]).unwrap().message {
        OracleProtoMessageKind::Attestations(list) => list,
        _ => panic!("expected attestations"),
    }
}

#[test]
fn ping_is_answered() {
    let mut a = OracleConnectionState::<u8>::new(true);
    let mut b = OracleConnectionState::<u8>::new(false);
    assert!(b.take_initial_ping().is_none());
    let ping = a.take_initial_ping().unwrap();
    assert!(a.take_initial_ping().is_none());
    let pong = match b.on_peer_message(&ping) {
        PeerAction::Send(bytes) => bytes,
        _ => panic!("expected a pong"),
    };
    assert_eq!(pong, OracleProtoMessage::pong().encoded());
    assert!(matches!(a.on_peer_message(&pong), PeerAction::Continue));
}

#[test]
fn can_attest_multiple_times() {
    let mut a = OracleConnectionState::<u8>::new(true);
    let mut b = OracleConnectionState::<u8>::new(false);
    let first = OracleSigner::random();
    let second = OracleSigner::random();
    let t1 = first.sign_ticker(ticker()).unwrap();
    let t2 = second.sign_ticker(ticker()).unwrap();
    assert_eq!(t1.id, t2.id);

    // A asks B for the attestations of the ticker; B has no requester waiting.
    let request = a.on_attestation_request(t1.id, 1);
    assert!(attestations_in(&request).is_empty());
    assert!(matches!(b.on_peer_message(&request), PeerAction::Continue));

    // B attests the first signer and answers with its attestations.
    let reply = match b.on_peer_message(&OracleConnectionState::<u8>::on_local_tick(t1.clone())) {
        PeerAction::Send(bytes) => bytes,
        _ => panic!("expected attestations"),
    };
    assert_eq!(attestations_in(&reply), vec![first.address()]);
    match a.on_peer_message(&reply) {
        PeerAction::Deliver(who, list) => {
            assert_eq!(who, 1);
            assert_eq!(list, vec![first.address()]);
        }
        _ => panic!("expected delivery"),
    }

    // A second signer of the same ticker is attested after the first.
    a.on_attestation_request(t2.id, 2);
    let reply = match b.on_peer_message(&OracleConnectionState::<u8>::on_local_tick(t2)) {
        PeerAction::Send(bytes) => bytes,
        _ => panic!("expected attestations"),
    };
    match a.on_peer_message(&reply) {
        PeerAction::Deliver(who, list) => {
            assert_eq!(who, 2);
            assert_eq!(list, vec![first.address(), second.address()]);
        }
        _ => panic!("expected delivery"),
    }
}

#[test]
fn false_signers_are_not_attested_and_bad_messages_close() {
    let mut b = OracleConnectionState::<u8>::new(false);
    let signer = OracleSigner::random();
    let signed = signer.sign_ticker(ticker()).unwrap();
    let forged = SignedTicker { signer: [1u8; 20], ..signed.clone() };
    match b.on_peer_message(&OracleConnectionState::<u8>::on_local_tick(forged)) {
        PeerAction::Send(bytes) => assert!(attestations_in(&bytes).is_empty()),
        _ => panic!("expected attestations"),
    }
    let mut bad_signature = signed;
    bad_signature.signature = vec![0u8; 64];
    assert!(matches!(
        b.on_peer_message(&OracleConnectionState::<u8>::on_local_tick(bad_signature)),
        PeerAction::Close
    ));
    assert!(matches!(b.on_peer_message(&[0xff, 0x00]), PeerAction::Close));
}

#[test]
fn attestation_table_keeps_order() {
    let mut t = AttestationTable::new();
    assert!(t.get(&[1u8; 32]).is_empty());
    t.record([1u8; 32], [5u8; 20]);
    t.record([2u8; 32], [6u8; 20]);
    t.record([1u8; 32], [7u8; 20]);
    assert_eq!(t.get(&[1u8; 32]), vec![[5u8; 20], [7u8; 20]]);
    assert_eq!(t.get(&[2u8; 32]), vec![[6u8; 20]]);
}

#[test]
fn connection_serves_its_sources_in_order() {
    let mut s = OracleConnectionState::<u8>::new(true);
    assert_eq!(s.next_source(true, true), Source::InitialPing);
    assert!(s.take_initial_ping().is_some());
    assert_eq!(s.next_source(true, true), Source::Command);
    assert_eq!(s.next_source(false, true), Source::LocalTick);
    assert_eq!(s.next_source(false, false), Source::Peer);
}
