use exex_examples::topics::{BlocksTopic, BlocksTopicV1, BlocksTopicV2, BlocksTopicV3};

#[test]
fn topic_v1_text() {
    assert_eq!(BlocksTopicV1::new(10).to_string(), "/optimism/10/0/blocks");
}

#[test]
fn topic_v2_text() {
    assert_eq!(BlocksTopicV2::new(8453).to_string(), "/optimism/8453/1/blocks");
}

#[test]
fn topic_v3_text() {
    assert_eq!(BlocksTopicV3::new(0).to_string(), "/optimism/0/2/blocks");
    assert_eq!(
        BlocksTopicV3::new(u64::MAX).to_string(),
        "/optimism/18446744073709551615/2/blocks"
    );
}

#[test]
fn topic_from_chain_id() {
    let t: BlocksTopicV1 = 420u64.into();
    assert_eq!(t.chain_id(), 420);
    let t: BlocksTopicV2 = BlocksTopicV2::from(7);
    assert_eq!(t.to_string(), "/optimism/7/1/blocks");
    let t: BlocksTopicV3 = BlocksTopicV3::from(9);
    assert_eq!(t.chain_id(), 9);
}

#[test]
fn topic_set_chain_id_keeps_version() {
    let mut t = BlocksTopic::V2(BlocksTopicV2::new(10));
    t.set_chain_id(11155420);
    assert_eq!(t.chain_id(), 11155420);
    assert_eq!(t.to_string(), "/optimism/11155420/1/blocks");
}
