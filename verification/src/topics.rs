//! Gossip topics of the OP Stack block network, one per payload version.
use vstd::prelude::*;
use crate::decimal::{decimal, digit_char, push_decimal};

verus! {

/// `/optimism/<chain id>/<version>/blocks`, the topic on which blocks of a payload
/// version are gossiped.
pub open spec fn topic_text(chain_id: u64, version: nat) -> Seq<char> {
    seq!['/', 'o', 'p', 't', 'i', 'm', 'i', 's', 'm', '/'] + decimal(chain_id as nat) + seq![
        '/',
        digit_char(version),
    ] + seq!['/', 'b', 'l', 'o', 'c', 'k', 's']
}

/// The topic text for a chain and a payload version below ten.
pub fn topic_string(chain_id: u64, version: u64) -> (s: String)
    requires
        version < 10,
    ensures
        s@ == topic_text(chain_id, version as nat),
{
    let mut s = String::from_str("/optimism/");
    proof {
        reveal_strlit("/optimism/");
    }
    push_decimal(&mut s, chain_id);
    s.append("/");
    proof {
        reveal_strlit("/");
    }
    push_decimal(&mut s, version);
    proof {
        reveal_with_fuel(decimal, 2);
    }
    s.append("/blocks");
    proof {
        reveal_strlit("/blocks");
    }
    assert(s@ =~= topic_text(chain_id, version as nat));
    s
}

/// Blocks Topics
#[derive(Debug, Clone, Copy, PartialEq, Eq)]
pub enum BlocksTopic {
    V1(BlocksTopicV1),
    V2(BlocksTopicV2),
    V3(BlocksTopicV3),
}

impl BlocksTopic {
    /// The chain id of the topic.
    pub open spec fn spec_chain_id(&self) -> u64 {
        match self {
            BlocksTopic::V1(t) => t@,
            BlocksTopic::V2(t) => t@,
            BlocksTopic::V3(t) => t@,
        }
    }

    /// The payload version of the topic: 0, 1 or 2.
    pub open spec fn version(&self) -> nat {
        match self {
            BlocksTopic::V1(_) => 0,
            BlocksTopic::V2(_) => 1,
            BlocksTopic::V3(_) => 2,
        }
    }

    /// The chain id of the topic.
    pub fn chain_id(&self) -> (c: u64)
        ensures
            c == self.spec_chain_id(),
    {
        match self {
            BlocksTopic::V1(t) => t.chain_id(),
            BlocksTopic::V2(t) => t.chain_id(),
            BlocksTopic::V3(t) => t.chain_id(),
        }
    }

    /// The same topic for another chain.
    pub fn set_chain_id(&mut self, chain_id: u64)
        ensures
            final(self).spec_chain_id() == chain_id,
            final(self).version() == old(self).version(),
    {
        match self {
            BlocksTopic::V1(t) => t.0 = chain_id,
            BlocksTopic::V2(t) => t.0 = chain_id,
            BlocksTopic::V3(t) => t.0 = chain_id,
        }
    }

    /// The topic's text.
    pub fn to_string(&self) -> (s: String)
        ensures
            s@ == topic_text(self.spec_chain_id(), self.version()),
    {
        match self {
            BlocksTopic::V1(t) => t.to_string(),
            BlocksTopic::V2(t) => t.to_string(),
            BlocksTopic::V3(t) => t.to_string(),
        }
    }
}

/// Blocks Topics V1 (payload version 0)
#[derive(Debug, Clone, Copy, PartialEq, Eq)]
pub struct BlocksTopicV1(pub(crate) u64);

impl View for BlocksTopicV1 {
    /// The chain id.
    type V = u64;

    closed spec fn view(&self) -> u64 {
        self.0
    }
}

impl BlocksTopicV1 {
    /// Creates a new [BlocksTopicV1] with the given chain id.
    pub fn new(chain_id: u64) -> (t: Self)
        ensures
            t@ == chain_id,
    {
        Self(chain_id)
    }

    /// The chain id.
    pub fn chain_id(&self) -> (c: u64)
        ensures
            c == self@,
    {
        self.0
    }

    /// The topic's text, `/optimism/<chain id>/0/blocks`.
    pub fn to_string(&self) -> (s: String)
        ensures
            s@ == topic_text(self@, 0),
    {
        topic_string(self.0, 0)
    }
}

/// Converts a [u64] chain id into a [BlocksTopicV1]
impl From<u64> for BlocksTopicV1 {
    fn from(chain_id: u64) -> (t: Self)
        ensures
            t@ == chain_id,
    {
        Self(chain_id)
    }
}

impl vstd::std_specs::convert::FromSpecImpl<u64> for BlocksTopicV1 {
    open spec fn obeys_from_spec() -> bool {
        true
    }

    closed spec fn from_spec(chain_id: u64) -> BlocksTopicV1 {
        BlocksTopicV1(chain_id)
    }
}

/// Blocks Topics V2 (payload version 1)
#[derive(Debug, Clone, Copy, PartialEq, Eq)]
pub struct BlocksTopicV2(pub(crate) u64);

impl View for BlocksTopicV2 {
    /// The chain id.
    type V = u64;

    closed spec fn view(&self) -> u64 {
        self.0
    }
}

impl BlocksTopicV2 {
    /// Creates a new [BlocksTopicV2] with the given chain id.
    pub fn new(chain_id: u64) -> (t: Self)
        ensures
            t@ == chain_id,
    {
        Self(chain_id)
    }

    /// The chain id.
    pub fn chain_id(&self) -> (c: u64)
        ensures
            c == self@,
    {
        self.0
    }

    /// The topic's text, `/optimism/<chain id>/1/blocks`.
    pub fn to_string(&self) -> (s: String)
        ensures
            s@ == topic_text(self@, 1),
    {
        topic_string(self.0, 1)
    }
}

/// Converts a [u64] chain id into a [BlocksTopicV2]
impl From<u64> for BlocksTopicV2 {
    fn from(chain_id: u64) -> (t: Self)
        ensures
            t@ == chain_id,
    {
        Self(chain_id)
    }
}

impl vstd::std_specs::convert::FromSpecImpl<u64> for BlocksTopicV2 {
    open spec fn obeys_from_spec() -> bool {
        true
    }

    closed spec fn from_spec(chain_id: u64) -> BlocksTopicV2 {
        BlocksTopicV2(chain_id)
    }
}

/// Blocks Topics V3 (payload version 2)
#[derive(Debug, Clone, Copy, PartialEq, Eq)]
pub struct BlocksTopicV3(pub(crate) u64);

impl View for BlocksTopicV3 {
    /// The chain id.
    type V = u64;

    closed spec fn view(&self) -> u64 {
        self.0
    }
}

impl BlocksTopicV3 {
    /// Creates a new [BlocksTopicV3] with the given chain id.
    pub fn new(chain_id: u64) -> (t: Self)
        ensures
            t@ == chain_id,
    {
        Self(chain_id)
    }

    /// The chain id.
    pub fn chain_id(&self) -> (c: u64)
        ensures
            c == self@,
    {
        self.0
    }

    /// The topic's text, `/optimism/<chain id>/2/blocks`.
    pub fn to_string(&self) -> (s: String)
        ensures
            s@ == topic_text(self@, 2),
    {
        topic_string(self.0, 2)
    }
}

/// Converts a [u64] chain id into a [BlocksTopicV3]
impl From<u64> for BlocksTopicV3 {
    fn from(chain_id: u64) -> (t: Self)
        ensures
            t@ == chain_id,
    {
        Self(chain_id)
    }
}

impl vstd::std_specs::convert::FromSpecImpl<u64> for BlocksTopicV3 {
    open spec fn obeys_from_spec() -> bool {
        true
    }

    closed spec fn from_spec(chain_id: u64) -> BlocksTopicV3 {
        BlocksTopicV3(chain_id)
    }
}

} // verus!
