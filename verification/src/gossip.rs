//! The OP Stack block gossip service: how its settings are gathered, which
//! topics its block handler listens on, which handler takes a message, and when a
//! gossiped block is recent enough and signed by the right key. The host builds the
//! swarm and reads the clock.
use vstd::prelude::*;
use crate::crypto::{random_secret, recover_signer, spec_recover_signer, spec_signer_address};
use crate::topics::{topic_string, topic_text, BlocksTopic, BlocksTopicV1, BlocksTopicV2, BlocksTopicV3};
use crate::bytes::same_bytes;
use crate::text::same_text;

verus! {

/// The chain a topic is for when no chain id was set: OP Mainnet.
pub const DEFAULT_CHAIN_ID: u64 = 10;

/// An IP address.
#[derive(Clone, Copy, Debug, PartialEq, Eq)]
pub enum IpAddress {
    V4([u8; 4]),
    V6([u8; 16]),
}

/// The socket address the service listens on.
#[derive(Clone, Copy, Debug, PartialEq, Eq)]
pub struct SocketAddress {
    pub ip: IpAddress,
    pub port: u16,
}

/// A topic as plain values: its chain id and payload version.
pub open spec fn topic_view(t: BlocksTopic) -> (u64, nat) {
    (t.spec_chain_id(), t.version())
}

/// Topics as plain values.
pub open spec fn topics_view(ts: Seq<BlocksTopic>) -> Seq<(u64, nat)> {
    Seq::new(ts.len(), |k: int| topic_view(ts[k]))
}

/// The settings gathered so far.
pub struct BuilderView {
    pub chain_id: Option<u64>,
    pub unsafe_block_signer: Option<[u8; 20]>,
    pub socket: Option<SocketAddress>,
    pub keypair: Option<[u8; 32]>,
    pub topics: Seq<(u64, nat)>,
}

/// The chain that topics are added for: the chain id set, or OP Mainnet.
pub open spec fn topic_chain(b: BuilderView) -> u64 {
    match b.chain_id {
        Some(c) => c,
        None => DEFAULT_CHAIN_ID,
    }
}

/// Every topic gathered is for the chain that topics are added for.
pub open spec fn topics_on_chain(b: BuilderView) -> bool {
    forall|k: int| 0 <= k < b.topics.len() ==> (#[trigger] b.topics[k]).0 == topic_chain(b)
}

/// The settings after the chain id was set: every topic moves to that chain.
pub open spec fn after_chain_id(b: BuilderView, chain_id: u64) -> BuilderView {
    BuilderView {
        chain_id: Some(chain_id),
        topics: Seq::new(b.topics.len(), |k: int| (chain_id, b.topics[k].1)),
        ..b
    }
}

/// The settings after a topic of a payload version was added.
pub open spec fn after_topic(b: BuilderView, version: nat) -> BuilderView {
    BuilderView { topics: b.topics.push((topic_chain(b), version)), ..b }
}

/// Setting the chain id and adding topics keep every topic on the chain that
/// topics are added for (the chain id set, or OP Mainnet before one is set).
pub proof fn lemma_topics_stay_on_chain(b: BuilderView, chain_id: u64, version: nat)
    requires
        topics_on_chain(b),
    ensures
        topics_on_chain(after_chain_id(b, chain_id)),
        topics_on_chain(after_topic(b, version)),
{
    let t = after_topic(b, version);
    assert forall|k: int| 0 <= k < t.topics.len() implies (#[trigger] t.topics[k]).0 == topic_chain(t) by {
        if k < b.topics.len() {
            assert(t.topics[k] == b.topics[k]);
        }
    }
}

/// The settings of a gossip service, complete.
#[derive(Debug)]
pub struct GossipSettings {
    pub chain_id: u64,
    pub unsafe_block_signer: [u8; 20],
    pub socket: SocketAddress,
    /// The secret of the node's secp256k1 keypair.
    pub keypair: [u8; 32],
    pub topics: Vec<BlocksTopic>,
}

/// What building gives: the settings, or the first one missing.
pub open spec fn built(b: BuilderView) -> Result<(u64, [u8; 20], SocketAddress, Seq<(u64, nat)>), Seq<char>> {
    match b.chain_id {
        None => Err("chain ID not set"@),
        Some(c) => match b.unsafe_block_signer {
            None => Err("unsafe block signer not set"@),
            Some(s) => match b.socket {
                None => Err("socket address not set"@),
                Some(a) => Ok((c, s, a, b.topics)),
            },
        },
    }
}

/// Gathers the settings of a gossip service.
pub struct GossipDriverBuilder {
    chain_id: Option<u64>,
    unsafe_block_signer: Option<[u8; 20]>,
    socket: Option<SocketAddress>,
    keypair: Option<[u8; 32]>,
    topics: Vec<BlocksTopic>,
}

impl View for GossipDriverBuilder {
    type V = BuilderView;

    closed spec fn view(&self) -> BuilderView {
        BuilderView {
            chain_id: self.chain_id,
            unsafe_block_signer: self.unsafe_block_signer,
            socket: self.socket,
            keypair: self.keypair,
            topics: topics_view(self.topics@),
        }
    }
}

/// A topic of a version for a chain.
fn topic_for(version: u64, chain_id: u64) -> (t: BlocksTopic)
    requires
        version < 3,
    ensures
        topic_view(t) == (chain_id, version as nat),
{
    if version == 0 {
        BlocksTopic::V1(BlocksTopicV1::new(chain_id))
    } else if version == 1 {
        BlocksTopic::V2(BlocksTopicV2::new(chain_id))
    } else {
        BlocksTopic::V3(BlocksTopicV3::new(chain_id))
    }
}

/// The payload version of a topic.
fn version_of(t: &BlocksTopic) -> (v: u64)
    ensures
        v == t.version(),
        v < 3,
{
    match t {
        BlocksTopic::V1(_) => 0,
        BlocksTopic::V2(_) => 1,
        BlocksTopic::V3(_) => 2,
    }
}

impl GossipDriverBuilder {
    /// Nothing set, no topics.
    pub fn new() -> (b: GossipDriverBuilder)
        ensures
            b@.chain_id is None,
            b@.unsafe_block_signer is None,
            b@.socket is None,
            b@.keypair is None,
            b@.topics == Seq::<(u64, nat)>::empty(),
            topics_on_chain(b@),
    {
        let b = GossipDriverBuilder {
            chain_id: None,
            unsafe_block_signer: None,
            socket: None,
            keypair: None,
            topics: Vec::new(),
        };
        assert(topics_view(b.topics@) =~= Seq::<(u64, nat)>::empty());
        b
    }

    /// Sets the chain id, and moves every topic added so far to that chain.
    pub fn with_chain_id(&mut self, chain_id: u64)
        ensures
            final(self)@ == after_chain_id(old(self)@, chain_id),
            topics_on_chain(final(self)@),
    {
        self.chain_id = Some(chain_id);
        let n = self.topics.len();
        let mut moved: Vec<BlocksTopic> = Vec::new();
        let mut i: usize = 0;
        while i < n
            invariant
                n == self.topics@.len(),
                self.topics == old(self).topics,
                i <= n,
                moved@.len() == i,
                forall|k: int| 0 <= k < i ==> topic_view(#[trigger] moved@[k]) == (chain_id, self.topics@[k].version()),
            decreases n - i,
        {
            let v = version_of(&self.topics[i]);
            moved.push(topic_for(v, chain_id));
            i = i + 1;
        }
        self.topics = moved;
        assert(topics_view(self.topics@) =~= Seq::new(old(self)@.topics.len(), |k: int| (chain_id, old(self)@.topics[k].1)));
    }

    /// Sets the secret of the node's secp256k1 keypair.
    pub fn with_keypair(&mut self, keypair: [u8; 32])
        ensures
            final(self)@ == (BuilderView { keypair: Some(keypair), ..old(self)@ }),
    {
        self.keypair = Some(keypair);
    }

    /// Sets the key that signs unsafe blocks.
    pub fn with_unsafe_block_signer(&mut self, signer: [u8; 20])
        ensures
            final(self)@ == (BuilderView { unsafe_block_signer: Some(signer), ..old(self)@ }),
    {
        self.unsafe_block_signer = Some(signer);
    }

    /// Sets the socket address to listen on.
    pub fn with_socket(&mut self, socket: SocketAddress)
        ensures
            final(self)@ == (BuilderView { socket: Some(socket), ..old(self)@ }),
    {
        self.socket = Some(socket);
    }

    /// Adds a topic of a version, for the chain set so far or OP Mainnet.
    fn with_topic(&mut self, version: u64)
        requires
            version < 3,
        ensures
            final(self)@ == after_topic(old(self)@, version as nat),
            topics_on_chain(old(self)@) ==> topics_on_chain(final(self)@),
    {
        proof {
            if topics_on_chain(self@) {
                lemma_topics_stay_on_chain(self@, 0, version as nat);
            }
        }
        let chain_id = match self.chain_id {
            Some(c) => c,
            None => DEFAULT_CHAIN_ID,
        };
        self.topics.push(topic_for(version, chain_id));
        assert(topics_view(self.topics@) =~= topics_view(old(self).topics@).push((chain_id, version as nat)));
    }

    /// Adds the topic of payload version 0.
    pub fn with_blocks_topic_v1(&mut self)
        ensures
            final(self)@ == after_topic(old(self)@, 0),
            topics_on_chain(old(self)@) ==> topics_on_chain(final(self)@),
    {
        self.with_topic(0);
    }

    /// Adds the topic of payload version 1.
    pub fn with_blocks_topic_v2(&mut self)
        ensures
            final(self)@ == after_topic(old(self)@, 1),
            topics_on_chain(old(self)@) ==> topics_on_chain(final(self)@),
    {
        self.with_topic(1);
    }

    /// Adds the topic of payload version 2.
    pub fn with_blocks_topic_v3(&mut self)
        ensures
            final(self)@ == after_topic(old(self)@, 2),
            topics_on_chain(old(self)@) ==> topics_on_chain(final(self)@),
    {
        self.with_topic(2);
    }

    /// The settings, or the first one missing: chain id, unsafe block signer,
    /// socket address. The keypair is the one set, or a fresh random one.
    pub fn build(self) -> (r: Result<GossipSettings, String>)
        ensures
            match built(self@) {
                Ok((c, s, a, t)) => r matches Ok(g) && g.chain_id == c && g.unsafe_block_signer == s
                    && g.socket == a && topics_view(g.topics@) == t && match self@.keypair {
                    Some(k) => g.keypair == k,
                    None => spec_signer_address(g.keypair@) is Some,
                },
                Err(e) => r matches Err(m) && m@ == e,
            },
            topics_on_chain(self@) ==> (r matches Ok(g) ==> forall|k: int|
                0 <= k < g.topics@.len() ==> (#[trigger] topic_view(g.topics@[k])).0 == g.chain_id),
    {
        let chain_id = match self.chain_id {
            Some(c) => c,
            None => {
                return Err(String::from_str("chain ID not set"));
            },
        };
        let unsafe_block_signer = match self.unsafe_block_signer {
            Some(s) => s,
            None => {
                return Err(String::from_str("unsafe block signer not set"));
            },
        };
        let socket = match self.socket {
            Some(a) => a,
            None => {
                return Err(String::from_str("socket address not set"));
            },
        };
        let keypair = match self.keypair {
            Some(k) => k,
            None => random_secret(),
        };
        let g = GossipSettings { chain_id, unsafe_block_signer, socket, keypair, topics: self.topics };
        proof {
            if topics_on_chain(self@) {
                assert forall|k: int| 0 <= k < g.topics@.len() implies (#[trigger] topic_view(
                    g.topics@[k],
                )).0 == g.chain_id by {
                    assert(self@.topics[k] == topic_view(self.topics@[k]));
                    assert(self@.topics[k].0 == topic_chain(self@));
                }
            }
        }
        Ok(g)
    }
}

/// The topics of the block handler of a chain, by payload version 0, 1 and 2.
pub struct BlockHandler {
    chain_id: u64,
    blocks_v1_topic: String,
    blocks_v2_topic: String,
    blocks_v3_topic: String,
}

impl BlockHandler {
    /// The chain id.
    pub closed spec fn spec_chain_id(&self) -> u64 {
        self.chain_id
    }

    /// The handler's topics are those of the chain.
    pub closed spec fn wf(&self) -> bool {
        &&& self.blocks_v1_topic@ == topic_text(self.chain_id, 0)
        &&& self.blocks_v2_topic@ == topic_text(self.chain_id, 1)
        &&& self.blocks_v3_topic@ == topic_text(self.chain_id, 2)
    }

    /// A handler of the blocks of a chain.
    pub fn new(chain_id: u64) -> (h: BlockHandler)
        ensures
            h.wf(),
            h.spec_chain_id() == chain_id,
    {
        BlockHandler {
            chain_id,
            blocks_v1_topic: topic_string(chain_id, 0),
            blocks_v2_topic: topic_string(chain_id, 1),
            blocks_v3_topic: topic_string(chain_id, 2),
        }
    }

    /// The topics it takes blocks from: those of payload versions 0 and 1.
    pub fn topics(&self) -> (r: Vec<String>)
        requires
            self.wf(),
        ensures
            r@.len() == 2,
            r@[0]@ == topic_text(self.spec_chain_id(), 0),
            r@[1]@ == topic_text(self.spec_chain_id(), 1),
    {
        let mut r: Vec<String> = Vec::new();
        r.push(self.blocks_v1_topic.clone());
        r.push(self.blocks_v2_topic.clone());
        r
    }

    /// The payload version of a message's topic; `None` (the message is rejected)
    /// for a topic of another chain or kind.
    pub fn topic_version(&self, topic: &str) -> (v: Option<u64>)
        requires
            self.wf(),
        ensures
            topic@ == topic_text(self.spec_chain_id(), 0) ==> v == Some(0u64),
            topic@ != topic_text(self.spec_chain_id(), 0) && topic@ == topic_text(self.spec_chain_id(), 1)
                ==> v == Some(1u64),
            topic@ != topic_text(self.spec_chain_id(), 0) && topic@ != topic_text(self.spec_chain_id(), 1)
                && topic@ == topic_text(self.spec_chain_id(), 2) ==> v == Some(2u64),
            v is None <==> (topic@ != topic_text(self.spec_chain_id(), 0) && topic@ != topic_text(
                self.spec_chain_id(),
                1,
            ) && topic@ != topic_text(self.spec_chain_id(), 2)),
    {
        if same_text(topic, self.blocks_v1_topic.as_str()) {
            Some(0)
        } else if same_text(topic, self.blocks_v2_topic.as_str()) {
            Some(1)
        } else if same_text(topic, self.blocks_v3_topic.as_str()) {
            Some(2)
        } else {
            None
        }
    }
}

/// Whether `t` is one of `topics`.
pub open spec fn listens_on(topics: Seq<String>, t: Seq<char>) -> bool {
    exists|k: int| 0 <= k < topics.len() && (#[trigger] topics[k])@ == t
}

/// The first handler, by position, whose topics hold the message's topic.
pub fn route_message(handlers: &Vec<Vec<String>>, topic: &str) -> (r: Option<usize>)
    ensures
        r matches Some(k) ==> k < handlers@.len() && listens_on(handlers@[k as int]@, topic@)
            && forall|j: int| 0 <= j < k ==> !listens_on(#[trigger] handlers@[j]@, topic@),
        r is None ==> forall|j: int| 0 <= j < handlers@.len() ==> !listens_on(#[trigger] handlers@[j]@, topic@),
{
    let n = handlers.len();
    let mut k: usize = 0;
    while k < n
        invariant
            n == handlers@.len(),
            k <= n,
            forall|j: int| 0 <= j < k ==> !listens_on(#[trigger] handlers@[j]@, topic@),
        decreases n - k,
    {
        let topics = &handlers[k];
        let m = topics.len();
        let mut i: usize = 0;
        while i < m
            invariant
                n == handlers@.len(),
                k < n,
                *topics == handlers@[k as int],
                forall|j: int| 0 <= j < k ==> !listens_on(#[trigger] handlers@[j]@, topic@),
                m == topics@.len(),
                i <= m,
                forall|j: int| 0 <= j < i ==> (#[trigger] topics@[j])@ != topic@,
            decreases m - i,
        {
            if same_text(topics[i].as_str(), topic) {
                assert(handlers@[k as int]@[i as int]@ == topic@);
                return Some(k);
            }
            i = i + 1;
        }
        assert(!listens_on(handlers@[k as int]@, topic@));
        k = k + 1;
    }
    None
}

/// A gossiped block is valid when it is at most five seconds ahead of `now` and
/// less than a minute old, and the key that signed it is the unsafe block signer.
pub open spec fn block_valid_spec(timestamp: u64, now: u64, signer: Option<[u8; 20]>, unsafe_block_signer: [u8; 20]) -> bool {
    &&& timestamp <= now + 5
    &&& now - 60 < timestamp
    &&& signer == Some(unsafe_block_signer)
}

/// Whether a gossiped block with this timestamp, whose signature was recovered to
/// `signer` (`None` where recovery failed), is valid at time `now` (seconds since
/// the Unix epoch).
pub fn block_valid(timestamp: u64, now: u64, signer: Option<[u8; 20]>, unsafe_block_signer: [u8; 20]) -> (b: bool)
    requires
        60 <= now <= u64::MAX - 5,
    ensures
        b == block_valid_spec(timestamp, now, signer, unsafe_block_signer),
{
    let is_future = timestamp > now + 5;
    let is_past = timestamp <= now - 60;
    let time_valid = !(is_future || is_past);
    match signer {
        None => false,
        Some(s) => {
            let same = same_bytes(&s, &unsafe_block_signer);
            proof {
                if same {
                    assert(s =~= unsafe_block_signer) by {
                        assert(s@ =~= unsafe_block_signer@);
                    }
                }
            }
            time_valid && same
        },
    }
}

/// Whether a gossiped block with this timestamp and this 65-byte signature over
/// `signature_message` (the message that the unsafe block signer signs for the
/// block's payload hash on this chain) is valid at time `now` (at most five
/// seconds ahead and less than a minute old): the signer is
/// recovered from the signature, and a signature that does not recover makes the
/// block invalid.
pub fn block_valid_signed(
    timestamp: u64,
    now: u64,
    signature: &[u8],
    signature_message: &[u8; 32],
    unsafe_block_signer: [u8; 20],
) -> (b: bool)
    requires
        60 <= now <= u64::MAX - 5,
    ensures
        b == (timestamp <= now + 5 && now - 60 < timestamp && spec_recover_signer(
            signature@,
            signature_message@,
        ) == Some(unsafe_block_signer@)),
{
    let signer = recover_signer(signature, signature_message);
    let b = block_valid(timestamp, now, signer, unsafe_block_signer);
    proof {
        if let Some(a) = signer {
            if a@ == unsafe_block_signer@ {
                assert(a =~= unsafe_block_signer) by {
                    assert(a@ =~= unsafe_block_signer@);
                }
            }
        }
    }
    b
}

} // verus!
