use exex_examples::notification::{ChainNotification, ChainRange};

fn range(first: u64, tip: u64) -> ChainRange {
    ChainRange { first, tip, tip_hash: [tip as u8; 32] }
}

#[test]
fn committed_reorged_reverted() {
    let c = ChainNotification::Committed { new: range(5, 7) };
    let g = ChainNotification::Reorged { old: range(5, 7), new: range(5, 8) };
    let r = ChainNotification::Reverted { old: range(6, 7) };
    assert_eq!(c.committed_chain(), Some(range(5, 7)));
    assert_eq!(c.reverted_chain(), None);
    assert_eq!(g.committed_chain(), Some(range(5, 8)));
    assert_eq!(g.reverted_chain(), Some(range(5, 7)));
    assert_eq!(r.committed_chain(), None);
    assert_eq!(c.finished_height(), Some(7));
    assert_eq!(g.finished_height(), Some(8));
    assert_eq!(r.finished_height(), None);
    assert_eq!(g.finished_block(), Some((8, [8u8; 32])));
    assert_eq!(r.finished_block(), None);
    assert_eq!(c.revert_target(), None);
    assert_eq!(g.revert_target(), Some(4));
    assert_eq!(r.revert_target(), Some(5));
}

#[test]
fn notification_texts() {
    assert_eq!(ChainNotification::Committed { new: range(5, 7) }.describe(), "Received commit: 5..=7");
    assert_eq!(
        ChainNotification::Reorged { old: range(5, 7), new: range(5, 8) }.describe(),
        "Received reorg: 5..=7 5..=8"
    );
    assert_eq!(ChainNotification::Reverted { old: range(0, 0) }.describe(), "Received revert: 0..=0");
}
