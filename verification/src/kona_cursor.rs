//! The decisions of the derivation extension: which L2 block the derivation
//! pipeline stands on, what to do with the attributes it prepared once they were
//! validated, and where to go back to when the L1 chain is reverted. The host runs
//! the pipeline, the validator and the providers and hands their results in.
use vstd::prelude::*;
use crate::bytes::same_bytes;

verus! {

/// A block: hash, number, timestamp and parent hash.
#[derive(Clone, Copy, Debug, PartialEq, Eq)]
pub struct BlockInfo {
    pub hash: [u8; 32],
    pub number: u64,
    pub timestamp: u64,
    pub parent_hash: [u8; 32],
}

/// An L1 block by number and hash.
#[derive(Clone, Copy, Debug, PartialEq, Eq)]
pub struct BlockNumHash {
    pub number: u64,
    pub hash: [u8; 32],
}

/// An L2 block with its L1 origin and its sequence number within the epoch.
#[derive(Clone, Copy, Debug, PartialEq, Eq)]
pub struct L2BlockInfo {
    pub block_info: BlockInfo,
    pub l1_origin: BlockNumHash,
    pub seq_num: u64,
}

/// The L2 genesis block of a rollup, from its configuration: the L2 genesis hash
/// and number (timestamp and parent hash left zero), with the L1 genesis as origin.
pub fn l2_genesis_info_from_config(l2_hash: [u8; 32], l2_number: u64, l1: BlockNumHash) -> (r:
    L2BlockInfo)
    ensures
        r.block_info.hash == l2_hash,
        r.block_info.number == l2_number,
        r.block_info.timestamp == 0,
        r.block_info.parent_hash@ == Seq::new(32, |i: int| 0u8),
        r.l1_origin == l1,
        r.seq_num == 0,
{
    let zero: [u8; 32] = [0u8; 32];
    assert(zero@ =~= Seq::new(32, |i: int| 0u8));
    L2BlockInfo {
        block_info: BlockInfo { hash: l2_hash, number: l2_number, timestamp: 0, parent_hash: zero },
        l1_origin: l1,
        seq_num: 0,
    }
}

/// Whether two blocks are the same block.
fn same_block(a: &BlockInfo, b: &BlockInfo) -> (r: bool)
    ensures
        r == (*a == *b),
{
    let r = same_bytes(&a.hash, &b.hash) && a.number == b.number && a.timestamp == b.timestamp
        && same_bytes(&a.parent_hash, &b.parent_hash);
    proof {
        if a.hash@ == b.hash@ && a.parent_hash@ == b.parent_hash@ {
            assert(a.hash == b.hash) by {
                assert(a.hash@ =~= b.hash@);
            }
            assert(a.parent_hash == b.parent_hash) by {
                assert(a.parent_hash@ =~= b.parent_hash@);
            }
        }
    }
    r
}

/// What became of the attributes that the pipeline prepared.
#[derive(Clone, Copy, Debug, PartialEq, Eq, Structural)]
pub enum ValidationOutcome {
    /// The pipeline had none prepared.
    NoAttributes,
    /// The validator accepted them.
    Valid,
    /// The validator rejected them.
    Invalid,
    /// Validating them failed.
    Failed,
}

/// What the host does with the pipeline after a step.
#[derive(Clone, Copy, Debug, PartialEq, Eq, Structural)]
pub enum PipelineAction {
    /// Leave the prepared attributes where they are.
    Keep,
    /// Take them out and drop them.
    Discard,
    /// Take them out as derived.
    Take,
}

/// The pipeline's position as plain values.
pub struct CursorView {
    pub l2_block_cursor: L2BlockInfo,
    pub l1_to_l2: Map<BlockInfo, L2BlockInfo>,
    pub should_advance: bool,
    pub derived_payloads_count: u64,
}

/// The state after attributes were validated with `outcome`, and the action.
pub open spec fn after_validation(c: CursorView, outcome: ValidationOutcome) -> (CursorView, PipelineAction) {
    match outcome {
        ValidationOutcome::Valid => (
            CursorView {
                derived_payloads_count: (c.derived_payloads_count + 1) as u64,
                should_advance: true,
                ..c
            },
            PipelineAction::Take,
        ),
        ValidationOutcome::Invalid => (c, PipelineAction::Discard),
        _ => (c, PipelineAction::Keep),
    }
}

/// The state after the L2 block after the cursor was fetched, with the L1 block
/// of its origin.
pub open spec fn after_fetch(c: CursorView, tip: BlockInfo, next: L2BlockInfo) -> CursorView {
    CursorView {
        l2_block_cursor: next,
        l1_to_l2: c.l1_to_l2.insert(tip, next),
        should_advance: false,
        derived_payloads_count: c.derived_payloads_count,
    }
}

/// The state after the L1 chain was reverted to a tip, or `None` where no cursor
/// was recorded for that tip.
pub open spec fn after_revert(c: CursorView, tip: BlockInfo) -> Option<CursorView> {
    if c.l1_to_l2.dom().contains(tip) {
        Some(CursorView { l2_block_cursor: c.l1_to_l2[tip], ..c })
    } else {
        None
    }
}

/// Where the derivation pipeline stands.
pub struct KonaCursor {
    l2_block_cursor: L2BlockInfo,
    l1_to_l2: Vec<(BlockInfo, L2BlockInfo)>,
    should_advance: bool,
    derived_payloads_count: u64,
}

/// The cursor recorded last for an L1 block among `entries`.
pub open spec fn entries_map(entries: Seq<(BlockInfo, L2BlockInfo)>) -> Map<BlockInfo, L2BlockInfo>
    decreases entries.len(),
{
    if entries.len() == 0 {
        Map::empty()
    } else {
        entries_map(entries.drop_last()).insert(entries.last().0, entries.last().1)
    }
}

impl View for KonaCursor {
    type V = CursorView;

    closed spec fn view(&self) -> CursorView {
        CursorView {
            l2_block_cursor: self.l2_block_cursor,
            l1_to_l2: entries_map(self.l1_to_l2@),
            should_advance: self.should_advance,
            derived_payloads_count: self.derived_payloads_count,
        }
    }
}

/// The last position in `entries` holding `key`, if any.
pub open spec fn last_index(entries: Seq<(BlockInfo, L2BlockInfo)>, key: BlockInfo) -> int
    decreases entries.len(),
{
    if entries.len() == 0 {
        -1
    } else if entries.last().0 == key {
        entries.len() - 1
    } else {
        last_index(entries.drop_last(), key)
    }
}

proof fn lemma_entries_map(entries: Seq<(BlockInfo, L2BlockInfo)>, key: BlockInfo)
    ensures
        -1 <= last_index(entries, key) < entries.len(),
        entries_map(entries).dom().contains(key) <==> last_index(entries, key) >= 0,
        last_index(entries, key) >= 0 ==> entries[last_index(entries, key)].0 == key
            && entries_map(entries)[key] == entries[last_index(entries, key)].1,
        forall|j: int| last_index(entries, key) < j < entries.len() ==> entries[j].0 != key,
    decreases entries.len(),
{
    if entries.len() > 0 {
        let init = entries.drop_last();
        lemma_entries_map(init, key);
        assert forall|j: int| last_index(entries, key) < j < entries.len() implies entries[j].0
            != key by {
            if j < entries.len() - 1 {
                assert(entries[j] == init[j]);
            }
        }
    }
}

impl KonaCursor {
    /// A cursor at the L2 genesis block, with nothing derived yet.
    pub fn new(genesis: L2BlockInfo) -> (c: KonaCursor)
        ensures
            c@.l2_block_cursor == genesis,
            c@.l1_to_l2 == Map::<BlockInfo, L2BlockInfo>::empty(),
            !c@.should_advance,
            c@.derived_payloads_count == 0,
    {
        KonaCursor {
            l2_block_cursor: genesis,
            l1_to_l2: Vec::new(),
            should_advance: false,
            derived_payloads_count: 0,
        }
    }

    /// The L2 block the pipeline stands on.
    pub fn l2_block_cursor(&self) -> (b: L2BlockInfo)
        ensures
            b == self@.l2_block_cursor,
    {
        self.l2_block_cursor
    }

    /// Whether the cursor is due to move to the next L2 block.
    pub fn should_advance(&self) -> (b: bool)
        ensures
            b == self@.should_advance,
    {
        self.should_advance
    }

    /// The number of payloads derived so far.
    pub fn derived_payloads_count(&self) -> (n: u64)
        ensures
            n == self@.derived_payloads_count,
    {
        self.derived_payloads_count
    }

    /// Takes the outcome of validating the prepared attributes: valid ones are taken
    /// out as derived and the cursor is due to advance, rejected ones are dropped,
    /// and on no attributes or a failed validation they stay for another try.
    pub fn step_l2(&mut self, outcome: ValidationOutcome) -> (a: PipelineAction)
        requires
            outcome == ValidationOutcome::Valid ==> old(self)@.derived_payloads_count < u64::MAX,
        ensures
            (final(self)@, a) == after_validation(old(self)@, outcome),
    {
        match outcome {
            ValidationOutcome::Valid => {
                self.derived_payloads_count = self.derived_payloads_count + 1;
                self.should_advance = true;
                PipelineAction::Take
            },
            ValidationOutcome::Invalid => PipelineAction::Discard,
            _ => PipelineAction::Keep,
        }
    }

    /// The number of the L2 block after the cursor, which is fetched to advance.
    pub fn next_l2_block_number(&self) -> (n: u64)
        requires
            self@.l2_block_cursor.block_info.number < u64::MAX,
        ensures
            n == self@.l2_block_cursor.block_info.number + 1,
    {
        self.l2_block_cursor.block_info.number + 1
    }

    /// Moves the cursor to the fetched L2 block `next`, recording it for `tip`, the
    /// L1 block of its origin.
    pub fn advance_l2_cursor(&mut self, tip: BlockInfo, next: L2BlockInfo)
        ensures
            final(self)@ == after_fetch(old(self)@, tip, next),
    {
        self.l1_to_l2.push((tip, next));
        self.l2_block_cursor = next;
        self.should_advance = false;
        proof {
            assert(self.l1_to_l2@.drop_last() =~= old(self).l1_to_l2@);
        }
    }

    /// Goes back to the cursor recorded for `tip`, the tip of a reverted L1 chain,
    /// and gives it (the pipeline is reset to it); an error where none was recorded.
    pub fn revert_to(&mut self, tip: &BlockInfo) -> (r: Result<L2BlockInfo, String>)
        ensures
            after_revert(old(self)@, *tip) matches Some(c) ==> final(self)@ == c && r
                == Ok::<L2BlockInfo, String>(c.l2_block_cursor),
            after_revert(old(self)@, *tip) is None ==> final(self)@ == old(self)@ && (r matches Err(
                e,
            ) && e@ == "Critical: Failed to get previous cursor for old chain tip"@),
    {
        let n = self.l1_to_l2.len();
        let mut k: usize = n;
        proof {
            lemma_entries_map(self.l1_to_l2@, *tip);
        }
        while k > 0
            invariant
                k <= n,
                n == self.l1_to_l2@.len(),
                self == old(self),
                forall|j: int| k <= j < n ==> self.l1_to_l2@[j].0 != *tip,
            decreases k,
        {
            let (b, l2) = self.l1_to_l2[k - 1];
            if same_block(&b, tip) {
                proof {
                    lemma_entries_map(self.l1_to_l2@, *tip);
                }
                self.l2_block_cursor = l2;
                return Ok(l2);
            }
            k = k - 1;
        }
        proof {
            lemma_entries_map(self.l1_to_l2@, *tip);
        }
        Err(String::from_str("Critical: Failed to get previous cursor for old chain tip"))
    }
}

/// Whether the L1 chain reached the L1 block that the rollup's genesis rests on,
/// so that derivation can start from its tip.
pub fn genesis_reached(tip_number: u64, genesis_l1_number: u64) -> (b: bool)
    ensures
        b == (tip_number >= genesis_l1_number),
{
    tip_number >= genesis_l1_number
}

/// After the cursor advanced to an L2 block for an L1 tip, reverting to that tip
/// goes back to that L2 block.
pub proof fn lemma_revert_after_advance(c: CursorView, tip: BlockInfo, next: L2BlockInfo)
    ensures
        after_revert(after_fetch(c, tip, next), tip) == Some(
            CursorView { l2_block_cursor: next, ..after_fetch(c, tip, next) },
        ),
{
}

/// Advancing records the cursor for its tip and keeps what was recorded for every
/// other L1 block.
pub proof fn lemma_advance_keeps_other_tips(
    c: CursorView,
    tip: BlockInfo,
    next: L2BlockInfo,
    other: BlockInfo,
)
    requires
        other != tip,
    ensures
        after_revert(after_fetch(c, tip, next), other) matches Some(d) ==> c.l1_to_l2.dom().contains(
            other,
        ) && d.l2_block_cursor == c.l1_to_l2[other],
        c.l1_to_l2.dom().contains(other) ==> after_revert(after_fetch(c, tip, next), other) is Some,
{
}

/// The count of derived payloads grows by one exactly for valid attributes, and a
/// refused or failed validation changes nothing.
pub proof fn lemma_only_valid_attributes_count(c: CursorView, outcome: ValidationOutcome)
    requires
        c.derived_payloads_count < u64::MAX,
    ensures
        after_validation(c, outcome).0.derived_payloads_count == c.derived_payloads_count + (
        if outcome == ValidationOutcome::Valid {
            1int
        } else {
            0int
        }),
        outcome != ValidationOutcome::Valid ==> after_validation(c, outcome).0 == c,
{
}

} // verus!
