//! The price feed from the Binance WebSocket API: the stream's address, how often
//! a connection is tried, and when the feed reconnects. The host opens the
//! connections, waits and reads messages, and hands in what came of it.
use vstd::prelude::*;

verus! {

/// The streams of the symbols' tickers, joined by `/`: `<s1>@ticker/<s2>@ticker`.
pub open spec fn stream_query(symbols: Seq<Seq<char>>) -> Seq<char>
    decreases symbols.len(),
{
    if symbols.len() == 0 {
        Seq::empty()
    } else if symbols.len() == 1 {
        symbols[0] + "@ticker"@
    } else {
        stream_query(symbols.drop_last()) + "/"@ + symbols.last() + "@ticker"@
    }
}

/// `wss://stream.binance.com/stream?streams=<query>`.
pub open spec fn stream_url_text(symbols: Seq<Seq<char>>) -> Seq<char> {
    "wss://stream.binance.com/stream?streams="@ + stream_query(symbols)
}

/// The address of the combined ticker stream of `symbols`.
pub fn stream_url(symbols: &Vec<String>) -> (url: String)
    ensures
        url@ == stream_url_text(Seq::new(symbols@.len(), |k: int| symbols@[k]@)),
{
    let ghost texts = Seq::new(symbols@.len(), |k: int| symbols@[k]@);
    let mut url = String::from_str("wss://stream.binance.com/stream?streams=");
    let n = symbols.len();
    let mut i: usize = 0;
    assert(texts.subrange(0, 0) =~= Seq::<Seq<char>>::empty());
    while i < n
        invariant
            n == symbols@.len(),
            texts == Seq::new(symbols@.len(), |k: int| symbols@[k]@),
            i <= n,
            url@ == "wss://stream.binance.com/stream?streams="@ + stream_query(
                texts.subrange(0, i as int),
            ),
        decreases n - i,
    {
        let ghost before = url@;
        assert(texts.subrange(0, i + 1).drop_last() =~= texts.subrange(0, i as int));
        assert(texts.subrange(0, i + 1).last() == symbols@[i as int]@);
        if i > 0 {
            url.append("/");
        }
        url.append(symbols[i].as_str());
        url.append("@ticker");
        proof {
            if i == 0 {
                assert(texts.subrange(0, 1) =~= seq![symbols@[0]@]);
                assert(stream_query(texts.subrange(0, 0)) =~= Seq::<char>::empty());
            }
        }
        assert(url@ =~= "wss://stream.binance.com/stream?streams="@ + stream_query(
            texts.subrange(0, i + 1),
        ));
        i = i + 1;
    }
    assert(texts.subrange(0, n as int) =~= texts);
    url
}

/// The number of times a connection is tried before the feed gives up.
pub const MAX_CONNECT_ATTEMPTS: u32 = 10;

/// What follows a failed connection attempt.
#[derive(Clone, Copy, Debug, PartialEq, Eq, Structural)]
pub enum RetryDecision {
    /// Wait two seconds, then try again.
    WaitAndRetry,
    /// Give up: the maximum number of attempts was reached.
    GiveUp,
}

/// The attempts made after a failed one, and what follows.
pub open spec fn after_failure(attempts: u32) -> (u32, RetryDecision) {
    let made = (attempts + 1) as u32;
    (made, if made < MAX_CONNECT_ATTEMPTS {
        RetryDecision::WaitAndRetry
    } else {
        RetryDecision::GiveUp
    })
}

/// Counts a failed connection attempt, `attempts` having failed before it, and
/// says whether to try again.
pub fn connection_failed(attempts: u32) -> (r: (u32, RetryDecision))
    requires
        attempts < MAX_CONNECT_ATTEMPTS,
    ensures
        r == after_failure(attempts),
{
    let made = attempts + 1;
    if made < MAX_CONNECT_ATTEMPTS {
        (made, RetryDecision::WaitAndRetry)
    } else {
        (made, RetryDecision::GiveUp)
    }
}

/// The decisions after `k` failed attempts in a row, from none.
pub open spec fn failures(k: nat) -> (u32, RetryDecision)
    decreases k,
{
    if k == 0 {
        (0, RetryDecision::WaitAndRetry)
    } else {
        after_failure(failures((k - 1) as nat).0)
    }
}

/// Failing every time, a connection is tried exactly ten times: the first nine
/// failures are followed by a wait and another try, the tenth by giving up.
pub proof fn lemma_ten_attempts(k: nat)
    requires
        1 <= k <= 10,
    ensures
        failures(k).0 == k,
        k < 10 ==> failures(k).1 == RetryDecision::WaitAndRetry,
        k == 10 ==> failures(k).1 == RetryDecision::GiveUp,
    decreases k,
{
    assert(failures(0) == (0u32, RetryDecision::WaitAndRetry));
    if k > 1 {
        lemma_ten_attempts((k - 1) as nat);
    }
    assert(failures(k) == after_failure(failures((k - 1) as nat).0));
}

/// What came of waiting on a reconnection.
#[derive(Clone, Copy, Debug, PartialEq, Eq, Structural)]
pub enum Reconnection {
    /// A new connection is open.
    Connected,
    /// It failed.
    Failed,
    /// It is not done yet.
    Waiting,
}

/// What came of reading the connection.
#[derive(Clone, Copy, Debug, PartialEq, Eq, Structural)]
pub enum Reading {
    /// A ticker.
    Ticker,
    /// The connection broke.
    Broken,
    /// The stream ended.
    Ended,
    /// Nothing yet.
    Nothing,
}

/// What the feed does in turn.
#[derive(Clone, Copy, Debug, PartialEq, Eq, Structural)]
pub enum FeedAction {
    /// Read the connection (a new one replaces the old one first, where it came).
    Read,
    /// Hand out the ticker read.
    YieldTicker,
    /// Hand out the error of the failed reconnection.
    YieldError,
    /// Start reconnecting with the same symbols, and come back soon.
    Reconnect,
    /// Hand out the end of the stream.
    End,
    /// Wait to be woken.
    Wait,
    /// Wake up soon and read again.
    WakeAndWait,
}

/// The feed's state after a reconnection outcome, and what it does.
pub open spec fn after_reconnection(r: Reconnection) -> (bool, FeedAction) {
    match r {
        Reconnection::Connected => (false, FeedAction::Read),
        Reconnection::Failed => (false, FeedAction::YieldError),
        Reconnection::Waiting => (true, FeedAction::Wait),
    }
}

/// The feed's state after a reading, and what it does.
pub open spec fn after_reading(r: Reading) -> (bool, FeedAction) {
    match r {
        Reading::Ticker => (false, FeedAction::YieldTicker),
        Reading::Broken => (true, FeedAction::Reconnect),
        Reading::Ended => (false, FeedAction::End),
        Reading::Nothing => (false, FeedAction::WakeAndWait),
    }
}

/// A feed that reconnects when its connection breaks.
pub struct BinanceConnection {
    reconnecting: bool,
}

impl BinanceConnection {
    /// Whether a reconnection is under way.
    pub closed spec fn spec_reconnecting(&self) -> bool {
        self.reconnecting
    }

    /// A feed on an open connection.
    pub fn new() -> (c: BinanceConnection)
        ensures
            !c.spec_reconnecting(),
    {
        BinanceConnection { reconnecting: false }
    }

    /// Whether a reconnection is under way, which is waited on before anything is
    /// read.
    pub fn is_reconnecting(&self) -> (b: bool)
        ensures
            b == self.spec_reconnecting(),
    {
        self.reconnecting
    }

    /// Takes what came of waiting on the reconnection: a new connection is read
    /// from, a failure is handed out (and the old connection stays), and otherwise
    /// the feed waits.
    pub fn on_reconnection(&mut self, r: Reconnection) -> (a: FeedAction)
        requires
            old(self).spec_reconnecting(),
        ensures
            (final(self).spec_reconnecting(), a) == after_reconnection(r),
    {
        match r {
            Reconnection::Connected => {
                self.reconnecting = false;
                FeedAction::Read
            },
            Reconnection::Failed => {
                self.reconnecting = false;
                FeedAction::YieldError
            },
            Reconnection::Waiting => FeedAction::Wait,
        }
    }

    /// Takes what came of reading the connection: a ticker is handed out, a broken
    /// connection starts a reconnection, an end is handed out, and on nothing the
    /// feed wakes itself to read again.
    pub fn on_reading(&mut self, r: Reading) -> (a: FeedAction)
        requires
            !old(self).spec_reconnecting(),
        ensures
            (final(self).spec_reconnecting(), a) == after_reading(r),
    {
        match r {
            Reading::Ticker => FeedAction::YieldTicker,
            Reading::Broken => {
                self.reconnecting = true;
                FeedAction::Reconnect
            },
            Reading::Ended => FeedAction::End,
            Reading::Nothing => FeedAction::WakeAndWait,
        }
    }
}

/// A broken connection is never read again before the reconnection is over: the
/// feed waits until it ends, and then reads only from a new connection.
pub proof fn lemma_no_reading_while_reconnecting(w: Reconnection)
    ensures
        after_reading(Reading::Broken).0,
        after_reconnection(w).1 == FeedAction::Read ==> w == Reconnection::Connected,
        after_reconnection(w).0 <==> w == Reconnection::Waiting,
{
}

} // verus!
