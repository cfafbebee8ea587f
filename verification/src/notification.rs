//! Notifications of the node about its canonical chain, as the extensions read
//! them: which chain was committed and which reverted, the height reported as
//! finished, where the execution state goes back to, and the text logged.
use vstd::prelude::*;
use crate::decimal::{decimal, push_decimal};

verus! {

/// A chain of blocks by its first and last block.
#[derive(Clone, Copy, Debug, PartialEq, Eq)]
pub struct ChainRange {
    pub first: u64,
    pub tip: u64,
    pub tip_hash: [u8; 32],
}

/// A change of the canonical chain.
#[derive(Clone, Copy, Debug, PartialEq, Eq)]
pub enum ChainNotification {
    /// A chain was appended.
    Committed { new: ChainRange },
    /// A chain was replaced by another.
    Reorged { old: ChainRange, new: ChainRange },
    /// A chain was taken away.
    Reverted { old: ChainRange },
}

impl ChainNotification {
    /// The chain that became canonical, if any.
    pub open spec fn spec_committed(&self) -> Option<ChainRange> {
        match *self {
            ChainNotification::Committed { new } => Some(new),
            ChainNotification::Reorged { new, .. } => Some(new),
            ChainNotification::Reverted { .. } => None,
        }
    }

    /// The chain that stopped being canonical, if any.
    pub open spec fn spec_reverted(&self) -> Option<ChainRange> {
        match *self {
            ChainNotification::Committed { .. } => None,
            ChainNotification::Reorged { old, .. } => Some(old),
            ChainNotification::Reverted { old } => Some(old),
        }
    }

    /// The chain that became canonical, if any.
    pub fn committed_chain(&self) -> (r: Option<ChainRange>)
        ensures
            r == self.spec_committed(),
    {
        match *self {
            ChainNotification::Committed { new } => Some(new),
            ChainNotification::Reorged { new, .. } => Some(new),
            ChainNotification::Reverted { .. } => None,
        }
    }

    /// The chain that stopped being canonical, if any.
    pub fn reverted_chain(&self) -> (r: Option<ChainRange>)
        ensures
            r == self.spec_reverted(),
    {
        match *self {
            ChainNotification::Committed { .. } => None,
            ChainNotification::Reorged { old, .. } => Some(old),
            ChainNotification::Reverted { old } => Some(old),
        }
    }

    /// The height to report as finished once the notification is handled: the tip
    /// of the committed chain, if any.
    pub fn finished_height(&self) -> (r: Option<u64>)
        ensures
            r == (match self.spec_committed() {
                Some(c) => Some(c.tip),
                None => None,
            }),
    {
        match self.committed_chain() {
            Some(c) => Some(c.tip),
            None => None,
        }
    }

    /// The block to report as finished once the notification is handled, by
    /// number and hash: the tip of the committed chain, if any.
    pub fn finished_block(&self) -> (r: Option<(u64, [u8; 32])>)
        ensures
            r == (match self.spec_committed() {
                Some(c) => Some((c.tip, c.tip_hash)),
                None => None,
            }),
    {
        match self.committed_chain() {
            Some(c) => Some((c.tip, c.tip_hash)),
            None => None,
        }
    }

    /// The block the execution state goes back to before the notification's
    /// chain is applied: the block before the first block of the new chain of a
    /// reorg, or of the reverted chain of a revert; none for a commit.
    pub fn revert_target(&self) -> (r: Option<u64>)
        requires
            self matches ChainNotification::Reorged { new, .. } ==> new.first >= 1,
            self matches ChainNotification::Reverted { old } ==> old.first >= 1,
        ensures
            r == (match *self {
                ChainNotification::Committed { .. } => None,
                ChainNotification::Reorged { new, .. } => Some((new.first - 1) as u64),
                ChainNotification::Reverted { old } => Some((old.first - 1) as u64),
            }),
    {
        match *self {
            ChainNotification::Committed { .. } => None,
            ChainNotification::Reorged { new, .. } => Some(new.first - 1),
            ChainNotification::Reverted { old } => Some(old.first - 1),
        }
    }

    /// `Received commit: a..=b`, `Received reorg: a..=b c..=d` or
    /// `Received revert: a..=b`.
    pub fn describe(&self) -> (s: String)
        ensures
            s@ == describe_text(*self),
    {
        match *self {
            ChainNotification::Committed { new } => {
                let mut s = String::from_str("Received commit: ");
                push_range(&mut s, &new);
                s
            },
            ChainNotification::Reorged { old, new } => {
                let mut s = String::from_str("Received reorg: ");
                push_range(&mut s, &old);
                s.append(" ");
                push_range(&mut s, &new);
                s
            },
            ChainNotification::Reverted { old } => {
                let mut s = String::from_str("Received revert: ");
                push_range(&mut s, &old);
                s
            },
        }
    }
}

/// `first..=tip`
pub open spec fn range_text(r: ChainRange) -> Seq<char> {
    decimal(r.first as nat) + "..="@ + decimal(r.tip as nat)
}

/// The text logged for a notification.
pub open spec fn describe_text(n: ChainNotification) -> Seq<char> {
    match n {
        ChainNotification::Committed { new } => "Received commit: "@ + range_text(new),
        ChainNotification::Reorged { old, new } => "Received reorg: "@ + range_text(old) + " "@
            + range_text(new),
        ChainNotification::Reverted { old } => "Received revert: "@ + range_text(old),
    }
}

/// Appends `first..=tip`.
fn push_range(s: &mut String, r: &ChainRange)
    ensures
        final(s)@ == old(s)@ + range_text(*r),
{
    push_decimal(s, r.first);
    s.append("..=");
    push_decimal(s, r.tip);
    assert(s@ =~= old(s)@ + range_text(*r));
}

/// A commit brings a chain and takes none away, a revert takes one away and brings
/// none, and a reorg does both.
pub proof fn lemma_committed_and_reverted(n: ChainNotification)
    ensures
        n is Committed ==> n.spec_committed() is Some && n.spec_reverted() is None,
        n is Reverted ==> n.spec_committed() is None && n.spec_reverted() is Some,
        n is Reorged ==> n.spec_committed() is Some && n.spec_reverted() is Some,
{
}

} // verus!
