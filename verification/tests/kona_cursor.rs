use exex_examples::kona_cursor::{
    genesis_reached, l2_genesis_info_from_config, BlockInfo, BlockNumHash, KonaCursor, L2BlockInfo,
    PipelineAction, ValidationOutcome,
};

fn l1(number: u64) -> BlockInfo {
    BlockInfo { hash: [number as u8; 32], number, timestamp: number * 12, parent_hash: [0u8; 32] }
}

fn l2(number: u64, origin: u64) -> L2BlockInfo {
    L2BlockInfo {
        block_info: BlockInfo { hash: [number as u8 + 100; 32], number, timestamp: number * 2, parent_hash: [0u8; 32] },
        l1_origin: BlockNumHash { number: origin, hash: [origin as u8; 32] },
        seq_num: 0,
    }
}

#[test]
fn genesis_cursor() {
    let g = l2_genesis_info_from_config([5u8; 32], 105235063, BlockNumHash { number: 17422590, hash: [6u8; 32] });
    assert_eq!(g.block_info.number, 105235063);
    assert_eq!(g.block_info.hash, [5u8; 32]);
    assert_eq!(g.block_info.timestamp, 0);
    assert_eq!(g.block_info.parent_hash, [0u8; 32]);
    assert_eq!(g.l1_origin.number, 17422590);
    assert_eq!(g.seq_num, 0);
    assert!(genesis_reached(17422590, 17422590));
    assert!(!genesis_reached(17422589, 17422590));
}

#[test]
fn validation_outcomes() {
    let mut c = KonaCursor::new(l2(10, 1));
    assert_eq!(c.step_l2(ValidationOutcome::NoAttributes), PipelineAction::Keep);
    assert_eq!(c.step_l2(ValidationOutcome::Failed), PipelineAction::Keep);
    assert_eq!(c.step_l2(ValidationOutcome::Invalid), PipelineAction::Discard);
    assert_eq!(c.derived_payloads_count(), 0);
    assert!(!c.should_advance());
    assert_eq!(c.step_l2(ValidationOutcome::Valid), PipelineAction::Take);
    assert_eq!(c.derived_payloads_count(), 1);
    assert!(c.should_advance());
    assert_eq!(c.next_l2_block_number(), 11);
}

#[test]
fn advance_and_revert() {
    let mut c = KonaCursor::new(l2(10, 1));
    c.step_l2(ValidationOutcome::Valid);
    c.advance_l2_cursor(l1(2), l2(11, 2));
    assert!(!c.should_advance());
    assert_eq!(c.l2_block_cursor(), l2(11, 2));
    c.advance_l2_cursor(l1(3), l2(12, 3));
    assert_eq!(c.l2_block_cursor(), l2(12, 3));

    assert_eq!(c.revert_to(&l1(2)), Ok(l2(11, 2)));
    assert_eq!(c.l2_block_cursor(), l2(11, 2));
    assert_eq!(
        c.revert_to(&l1(9)),
        Err("Critical: Failed to get previous cursor for old chain tip".to_string())
    );
    assert_eq!(c.l2_block_cursor(), l2(11, 2));

    // The cursor recorded last for a tip wins.
    c.advance_l2_cursor(l1(2), l2(13, 2));
    assert_eq!(c.revert_to(&l1(2)), Ok(l2(13, 2)));
}
