use exex_examples::oracle_conn::{OracleConnectionState, PeerAction};
use exex_examples::oracle_proto::{OracleProtoMessage, OracleProtoMessageKind};
use exex_examples::oracle_signer::{oracle_poll_step, OracleSigner, OracleStage, OracleStep, Polled};
use exex_examples::ticker::Ticker;

fn ticker() -> Ticker {
    Ticker {
        event_type: "24hrTicker".to_string(),
        symbol: "ETHUSDT".to_string(),
        last_price: "3000.5".to_string(),
        event_time: 1,
        ..Default::default()
    }
}

#[test]
fn signed_tickers_recover_to_the_signer() {
    let signer = OracleSigner::random();
    let t = ticker();
    let signed = signer.sign_ticker(t.clone()).unwrap();
    assert_eq!(signed.signer, signer.address());
    assert_eq!(signed.id, alloy_primitives::keccak256(t.encoded()).0);
    let sig = alloy_primitives::Signature::from_raw(&signed.signature).unwrap();
    let recovered = sig.recover_address_from_msg(t.encoded()).unwrap();
    assert_eq!(recovered.0 .0, signer.address());
}

#[test]
fn a_known_key_has_its_address() {
    let mut secret = [0u8; 32];
    secret[31] = 1;
    let signer = OracleSigner::from_secret(secret).unwrap();
    // The address of the secret key 1.
    let expected = alloy_signer_local::PrivateKeySigner::from_slice(&secret).unwrap().address();
    assert_eq!(signer.address(), expected.0 .0);
    assert!(OracleSigner::from_secret([0u8; 32]).is_none());
}

#[test]
fn peers_attest_signed_tickers() {
    let signer = OracleSigner::random();
    let signed = signer.sign_ticker(ticker()).unwrap();
    let wire = OracleConnectionState::<u8>::on_local_tick(signed.clone());
    let mut peer = OracleConnectionState::<u8>::new(false);
    match peer.on_peer_message(&wire) {
        PeerAction::Send(bytes) => {
            let reply = OracleProtoMessage::decode_message(&mut &bytes[..]).unwrap();
            match reply.message {
                OracleProtoMessageKind::Attestations(list) => {
                    assert_eq!(list, vec![signer.address()]);
                }
                _ => panic!("expected attestations"),
            }
        }
        _ => panic!("expected a reply"),
    }
}

#[test]
fn oracle_polls_network_then_feed_then_extension() {
    assert_eq!(oracle_poll_step(OracleStage::Network, Polled::Ready), OracleStep::Poll(OracleStage::Network));
    assert_eq!(oracle_poll_step(OracleStage::Network, Polled::Pending), OracleStep::Poll(OracleStage::DataFeed));
    assert_eq!(oracle_poll_step(OracleStage::DataFeed, Polled::Ready), OracleStep::Poll(OracleStage::DataFeed));
    assert_eq!(oracle_poll_step(OracleStage::DataFeed, Polled::Ended), OracleStep::Poll(OracleStage::ExEx));
    assert_eq!(oracle_poll_step(OracleStage::DataFeed, Polled::Pending), OracleStep::Poll(OracleStage::ExEx));
    assert_eq!(oracle_poll_step(OracleStage::ExEx, Polled::Ready), OracleStep::Poll(OracleStage::ExEx));
    assert_eq!(oracle_poll_step(OracleStage::ExEx, Polled::Pending), OracleStep::Wait);
    assert_eq!(oracle_poll_step(OracleStage::Network, Polled::Failed), OracleStep::Fail);
    assert_eq!(oracle_poll_step(OracleStage::DataFeed, Polled::Failed), OracleStep::Fail);
}
