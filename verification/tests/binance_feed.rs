use exex_examples::binance_feed::{
    connection_failed, stream_url, BinanceConnection, FeedAction, Reading, Reconnection,
    RetryDecision, MAX_CONNECT_ATTEMPTS,
};

#[test]
fn stream_urls() {
    assert_eq!(
        stream_url(&vec!["btcusdt".to_string(), "ethusdt".to_string()]),
        "wss://stream.binance.com/stream?streams=btcusdt@ticker/ethusdt@ticker"
    );
    assert_eq!(stream_url(&vec!["btcusdt".to_string()]), "wss://stream.binance.com/stream?streams=btcusdt@ticker");
    assert_eq!(stream_url(&vec![]), "wss://stream.binance.com/stream?streams=");
}

#[test]
fn connection_is_tried_ten_times() {
    assert_eq!(MAX_CONNECT_ATTEMPTS, 10);
    let mut attempts = 0;
    let mut waits = 0;
    loop {
        let (made, decision) = connection_failed(attempts);
        attempts = made;
        match decision {
            RetryDecision::WaitAndRetry => waits += 1,
            RetryDecision::GiveUp => break,
        }
    }
    assert_eq!(attempts, 10);
    assert_eq!(waits, 9);
}

#[test]
fn reconnection_cycle() {
    let mut c = BinanceConnection::new();
    assert!(!c.is_reconnecting());
    assert_eq!(c.on_reading(Reading::Ticker), FeedAction::YieldTicker);
    assert_eq!(c.on_reading(Reading::Nothing), FeedAction::WakeAndWait);
    assert_eq!(c.on_reading(Reading::Broken), FeedAction::Reconnect);
    assert!(c.is_reconnecting());
    assert_eq!(c.on_reconnection(Reconnection::Waiting), FeedAction::Wait);
    assert!(c.is_reconnecting());
    assert_eq!(c.on_reconnection(Reconnection::Connected), FeedAction::Read);
    assert!(!c.is_reconnecting());
    assert_eq!(c.on_reading(Reading::Broken), FeedAction::Reconnect);
    assert_eq!(c.on_reconnection(Reconnection::Failed), FeedAction::YieldError);
    assert!(!c.is_reconnecting());
    assert_eq!(c.on_reading(Reading::Ended), FeedAction::End);
}
