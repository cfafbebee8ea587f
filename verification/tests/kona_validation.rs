use exex_examples::kona_validation::{
    attributes_match, engine_verdict, expected_block_number, get_payload, PayloadAttributes,
    Withdrawal,
};

fn payload(timestamp: u64) -> PayloadAttributes {
    get_payload(timestamp, Some([3u8; 32]), [4u8; 20], None, 30_000_000, vec![vec![1, 2, 3]], 1_704_992_401)
}

#[test]
fn trusted_payloads() {
    let after = payload(1_704_992_401);
    assert_eq!(after.withdrawals, Some(vec![]));
    assert_eq!(after.prev_randao, [3u8; 32]);
    assert_eq!(after.fee_recipient, [4u8; 20]);
    assert!(after.no_tx_pool);
    assert_eq!(after.gas_limit, Some(30_000_000));
    let before = payload(1_704_992_400);
    assert_eq!(before.withdrawals, None);
    let no_mix = get_payload(1, None, [0u8; 20], Some([9u8; 32]), 1, vec![], 0);
    assert_eq!(no_mix.prev_randao, [0u8; 32]);
    assert_eq!(no_mix.parent_beacon_block_root, Some([9u8; 32]));
    assert_eq!(expected_block_number(41), 42);
}

#[test]
fn attributes_are_compared_field_by_field() {
    let a = payload(1_704_992_401);
    assert!(attributes_match(&a, &a.clone()));
    let mut b = a.clone();
    b.transactions[0][2] = 4;
    assert!(!attributes_match(&a, &b));
    let mut c = a.clone();
    c.withdrawals = Some(vec![Withdrawal { index: 0, validator_index: 1, address: [0u8; 20], amount: 5 }]);
    assert!(!attributes_match(&a, &c));
    let mut d = a.clone();
    d.no_tx_pool = false;
    assert!(!attributes_match(&a, &d));
}

#[test]
fn engine_verdicts() {
    assert_eq!(engine_verdict(200, Some("VALID")), Some(true));
    assert_eq!(engine_verdict(200, Some("INVALID")), Some(false));
    assert_eq!(engine_verdict(200, None), Some(false));
    assert_eq!(engine_verdict(500, Some("VALID")), None);
}
