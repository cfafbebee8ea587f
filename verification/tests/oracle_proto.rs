use alloy_signer::SignerSync;
use alloy_signer_local::PrivateKeySigner;
use exex_examples::oracle_proto::{
    OracleProtoMessage, OracleProtoMessageId, OracleProtoMessageKind, SignedTicker,
};
use exex_examples::ticker::Ticker;

fn mock_ticker() -> Ticker {
    Ticker {
        event_type: "24hrTicker".to_string(),
        event_time: 1622548800000,
        symbol: "BTCUSDT".to_string(),
        price_change: "100.0".to_string(),
        price_change_percent: "1.0".to_string(),
        weighted_avg_price: "50000.0".to_string(),
        prev_close_price: "49000.0".to_string(),
        last_price: "50000.0".to_string(),
        last_quantity: "0.1".to_string(),
        best_bid_price: "49950.0".to_string(),
        best_bid_quantity: "0.2".to_string(),
        best_ask_price: "50050.0".to_string(),
        best_ask_quantity: "0.3".to_string(),
        open_price: "49000.0".to_string(),
        high_price: "51000.0".to_string(),
        low_price: "48000.0".to_string(),
        volume: "1000.0".to_string(),
        quote_volume: "50000000.0".to_string(),
        open_time: 1622462400000,
        close_time: 1622548800000,
        first_trade_id: 100000,
        last_trade_id: 100100,
        num_trades: 100,
    }
}

fn test_msg(message: OracleProtoMessage) {
    let encoded = message.encoded();
    let mut rest = &encoded[..];
    let decoded = OracleProtoMessage::decode_message(&mut rest).unwrap();
    assert_eq!(message.message_type, decoded.message_type);
    assert_eq!(message.message, decoded.message);
    assert!(rest.is_empty());
}

#[test]
fn can_decode_msg() {
    test_msg(OracleProtoMessage::ping());
    test_msg(OracleProtoMessage::pong());

    // generate signer
    let signer = PrivateKeySigner::random();
    let signer_address = signer.address();

    // sign ticker data
    let ticker_data = mock_ticker();
    let buffer = ticker_data.encoded();
    let signature = signer.sign_message_sync(&buffer).unwrap();

    // recover signer address and verify it was signed properly
    let recovered_addr = signature.recover_address_from_msg(&buffer).unwrap();
    assert_eq!(recovered_addr, signer_address);

    // create signed ticker
    let signed_ticker = SignedTicker::new(ticker_data, signature.as_bytes(), signer_address.0 .0);

    // test the RLP encoding/decoding
    test_msg(OracleProtoMessage {
        message_type: OracleProtoMessageId::TickData,
        message: OracleProtoMessageKind::SignedTicker(Box::new(signed_ticker)),
    });
}

/// The ticker's encoding is the RLP list of its fields, as alloy-rlp encodes them.
#[test]
fn ticker_encoding_matches_alloy_rlp() {
    let t = mock_ticker();
    let mut payload = Vec::new();
    for s in [&t.event_type] {
        alloy_rlp::Encodable::encode(s, &mut payload);
    }
    alloy_rlp::Encodable::encode(&t.event_time, &mut payload);
    for s in [
        &t.symbol,
        &t.price_change,
        &t.price_change_percent,
        &t.weighted_avg_price,
        &t.prev_close_price,
        &t.last_price,
        &t.last_quantity,
        &t.best_bid_price,
        &t.best_bid_quantity,
        &t.best_ask_price,
        &t.best_ask_quantity,
        &t.open_price,
        &t.high_price,
        &t.low_price,
        &t.volume,
        &t.quote_volume,
    ] {
        alloy_rlp::Encodable::encode(s, &mut payload);
    }
    for n in [t.open_time, t.close_time, t.first_trade_id, t.last_trade_id, t.num_trades] {
        alloy_rlp::Encodable::encode(&n, &mut payload);
    }
    let mut expected = Vec::new();
    alloy_rlp::Header { list: true, payload_length: payload.len() }.encode(&mut expected);
    expected.extend_from_slice(&payload);
    assert_eq!(t.encoded(), expected);
}

/// The id of a signed ticker is the Keccak-256 digest of the ticker's encoding.
#[test]
fn signed_ticker_id_is_keccak_of_encoding() {
    let t = mock_ticker();
    let encoded = t.encoded();
    let st = SignedTicker::new(t, [1u8; 65], [2u8; 20]);
    assert_eq!(st.id, alloy_primitives::keccak256(&encoded).0);
    assert_ne!(st.id.to_vec(), encoded);
    assert_eq!(st.signature, vec![1u8; 65]);
    assert_eq!(st.signer, [2u8; 20]);
}

#[test]
fn attestations_roundtrip() {
    let msg = OracleProtoMessage::attestations(vec![[7u8; 20], [9u8; 20]]);
    let encoded = msg.encoded();
    // type byte, list header of two 21-byte items, then the items
    assert_eq!(encoded[0], 0x03);
    assert_eq!(encoded[1], 0xc0 + 42);
    assert_eq!(encoded[2], 0x94);
    test_msg(msg);
    test_msg(OracleProtoMessage::attestations(vec![]));
}

#[test]
fn ping_and_pong_bytes() {
    assert_eq!(OracleProtoMessage::ping().encoded(), vec![0x00]);
    assert_eq!(OracleProtoMessage::pong().encoded(), vec![0x01]);
}

#[test]
fn decode_ignores_trailing_bytes() {
    let bytes = [0x01u8, 0xff, 0xff];
    let mut rest = &bytes[..];
    let m = OracleProtoMessage::decode_message(&mut rest).unwrap();
    assert_eq!(m.message_type, OracleProtoMessageId::Pong);
    assert_eq!(m.message, OracleProtoMessageKind::Pong);
    assert_eq!(rest, &[0xffu8, 0xff][..]);
}

#[test]
fn decode_rejects_bad_input() {
    // empty buffer
    let mut empty: &[u8] = &[];
    assert!(OracleProtoMessage::decode_message(&mut empty).is_none());
    assert!(empty.is_empty());
    // unknown message type
    let unknown = [0x04u8, 0x05];
    let mut rest = &unknown[..];
    assert!(OracleProtoMessage::decode_message(&mut rest).is_none());
    assert_eq!(rest, &[0x05u8][..]);
    // attestations whose list holds a 19-byte item
    let mut bad = vec![0x03, 0xc0 + 20, 0x80 + 19];
    bad.extend_from_slice(&[1u8; 19]);
    assert!(OracleProtoMessage::decode_message(&mut &bad[..]).is_none());
    // attestations whose list is cut short
    assert!(OracleProtoMessage::decode_message(&mut &[0x03u8, 0xc5, 0x94][..]).is_none());
    // a ticker whose text is not UTF-8
    let mut t = mock_ticker().encoded();
    let pos = t.iter().position(|b| *b == b'B').unwrap();
    t[pos] = 0xff;
    let mut msg = vec![0x02];
    msg.extend_from_slice(&t);
    assert!(OracleProtoMessage::decode_message(&mut &msg[..]).is_none());
}
