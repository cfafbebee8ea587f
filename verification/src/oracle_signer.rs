//! The oracle's signing key: it signs the tickers it streams, and peers recover
//! the signer of each ticker to attest it. Also the order in which the oracle
//! polls its network, its price feed and its node extension, and when it stops.
use vstd::prelude::*;
use crate::crypto::{
    random_secret, sign_message, signer_address, spec_recover_signer, spec_sign_message,
    spec_signer_address, spec_keccak256,
};
use crate::oracle_conn::{list_of, table_after_tick};
use crate::oracle_proto::{SignedTicker, SignedTickerView};
use crate::ticker::{enc_ticker, Ticker};

verus! {

/// The key with which the oracle signs tickers.
pub struct OracleSigner {
    secret: [u8; 32],
    address: [u8; 20],
}

impl OracleSigner {
    /// The key's secret bytes.
    pub closed spec fn spec_secret(&self) -> Seq<u8> {
        self.secret@
    }

    /// The address is that of the key.
    pub closed spec fn wf(&self) -> bool {
        spec_signer_address(self.secret@) == Some(self.address@)
    }

    /// The key's address.
    pub closed spec fn spec_address(&self) -> Seq<u8> {
        self.address@
    }

    /// A signer with the given secret key; `None` where the bytes are no valid key.
    pub fn from_secret(secret: [u8; 32]) -> (r: Option<OracleSigner>)
        ensures
            r is Some <==> spec_signer_address(secret@) is Some,
            r matches Some(s) ==> s.wf() && s.spec_secret() == secret@,
    {
        match signer_address(&secret) {
            Some(address) => Some(OracleSigner { secret, address }),
            None => None,
        }
    }

    /// A signer with a fresh random key.
    pub fn random() -> (s: OracleSigner)
        ensures
            s.wf(),
    {
        let secret = random_secret();
        match signer_address(&secret) {
            Some(address) => OracleSigner { secret, address },
            None => {
                proof {
                    assert(false);
                }
                OracleSigner { secret, address: [0u8; 20] }
            },
        }
    }

    /// The key's address.
    pub fn address(&self) -> (a: [u8; 20])
        ensures
            a@ == self.spec_address(),
    {
        self.address
    }

    /// Signs a ticker: the signature is over the ticker's RLP encoding, and the
    /// signed ticker names this key's address as its signer. `None` where signing
    /// fails.
    pub fn sign_ticker(&self, ticker: Ticker) -> (r: Option<SignedTicker>)
        requires
            self.wf(),
        ensures
            r is Some <==> spec_sign_message(self.spec_secret(), enc_ticker(ticker@)) is Some,
            r matches Some(t) ==> {
                &&& t@.ticker == ticker@
                &&& Some(t@.signature) == spec_sign_message(self.spec_secret(), enc_ticker(ticker@))
                &&& t@.signer == self.spec_address()
                &&& t@.id == spec_keccak256(enc_ticker(ticker@))
                &&& spec_recover_signer(t@.signature, enc_ticker(t@.ticker)) == Some(t@.signer)
            },
    {
        let buffer = ticker.encoded();
        match sign_message(&self.secret, buffer.as_slice()) {
            Some(signature) => Some(SignedTicker::new(ticker, signature, self.address)),
            None => None,
        }
    }
}

/// A ticker that the oracle signed is attested by whoever receives it: its signer
/// is recovered from its signature and appended to the attestations of its id.
pub proof fn lemma_signed_ticker_is_attested(
    t: Map<Seq<u8>, Seq<Seq<u8>>>,
    v: SignedTickerView,
)
    requires
        spec_recover_signer(v.signature, enc_ticker(v.ticker)) == Some(v.signer),
    ensures
        table_after_tick(t, v) == Some(t.insert(v.id, list_of(t, v.id).push(v.signer))),
{
}

/// The parts of the oracle, in the order it polls them.
#[derive(Clone, Copy, Debug, PartialEq, Eq, Structural)]
pub enum OracleStage {
    /// Discovery and the peer-to-peer protocol.
    Network,
    /// The price feed: each ticker is signed and sent to the peers.
    DataFeed,
    /// The node extension.
    ExEx,
}

/// What polling a part gave.
#[derive(Clone, Copy, Debug, PartialEq, Eq, Structural)]
pub enum Polled {
    /// It made progress: the network or the extension completed a step, or the
    /// feed gave a ticker, which was signed and sent.
    Ready,
    /// It failed, or (for the feed) signing its ticker failed.
    Failed,
    /// The feed ended.
    Ended,
    /// It has nothing now.
    Pending,
}

/// What the oracle does next.
#[derive(Clone, Copy, Debug, PartialEq, Eq, Structural)]
pub enum OracleStep {
    /// Poll this part.
    Poll(OracleStage),
    /// Stop with the error.
    Fail,
    /// Wait until woken.
    Wait,
}

/// The oracle's polling: each part is polled until it has nothing more (the
/// feed also until it ends), then the next one; the extension having nothing
/// makes the oracle wait, and any failure stops it.
pub open spec fn oracle_next(stage: OracleStage, polled: Polled) -> OracleStep {
    match polled {
        Polled::Failed => OracleStep::Fail,
        Polled::Ready => OracleStep::Poll(stage),
        Polled::Ended => match stage {
            OracleStage::DataFeed => OracleStep::Poll(OracleStage::ExEx),
            _ => OracleStep::Poll(stage),
        },
        Polled::Pending => match stage {
            OracleStage::Network => OracleStep::Poll(OracleStage::DataFeed),
            OracleStage::DataFeed => OracleStep::Poll(OracleStage::ExEx),
            OracleStage::ExEx => OracleStep::Wait,
        },
    }
}

/// What the oracle does after polling `stage` gave `polled` (see `oracle_next`).
/// A poll starts with the network.
pub fn oracle_poll_step(stage: OracleStage, polled: Polled) -> (s: OracleStep)
    ensures
        s == oracle_next(stage, polled),
{
    match polled {
        Polled::Failed => OracleStep::Fail,
        Polled::Ready => OracleStep::Poll(stage),
        Polled::Ended => match stage {
            OracleStage::DataFeed => OracleStep::Poll(OracleStage::ExEx),
            _ => OracleStep::Poll(stage),
        },
        Polled::Pending => match stage {
            OracleStage::Network => OracleStep::Poll(OracleStage::DataFeed),
            OracleStage::DataFeed => OracleStep::Poll(OracleStage::ExEx),
            OracleStage::ExEx => OracleStep::Wait,
        },
    }
}

/// The position of a part in the polling order.
pub open spec fn stage_rank(s: OracleStage) -> int {
    match s {
        OracleStage::Network => 0,
        OracleStage::DataFeed => 1,
        OracleStage::ExEx => 2,
    }
}

/// Within one poll the oracle never goes back to a part it left; it waits only
/// after the extension had nothing, and every failure stops it.
pub proof fn lemma_oracle_polls_in_order(stage: OracleStage, polled: Polled)
    ensures
        oracle_next(stage, polled) matches OracleStep::Poll(next) ==> stage_rank(stage) <= stage_rank(next),
        oracle_next(stage, polled) == OracleStep::Wait <==> (stage == OracleStage::ExEx && polled
            == Polled::Pending),
        oracle_next(stage, polled) == OracleStep::Fail <==> polled == Polled::Failed,
{
}

} // verus!
