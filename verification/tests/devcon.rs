use exex_examples::devcon::{
    deposit_contract_address, devcon_commit_actions, devcon_notification_actions,
    devcon_revert_actions, DevconAction,
    DevconBlock, DevconLog, DevconTx,
};

fn block() -> DevconBlock {
    let contract = deposit_contract_address();
    DevconBlock {
        number: 21,
        hash: [0x21u8; 32],
        transactions: vec![
            DevconTx { hash: [1u8; 32], to: Some(contract), sender: Some([0xaau8; 20]) },
            DevconTx { hash: [2u8; 32], to: Some([3u8; 20]), sender: None },
            DevconTx { hash: [4u8; 32], to: None, sender: None },
        ],
        receipts: vec![
            Some(vec![
                DevconLog { deposit_amount: Some(vec![0x00, 0x40, 0x59, 0x73, 0x07]) },
                DevconLog { deposit_amount: None },
            ]),
            None,
            Some(vec![]),
        ],
    }
}

#[test]
fn deposit_contract() {
    assert_eq!(deposit_contract_address()[4], 0x21);
    assert_eq!(deposit_contract_address()[19], 0xfa);
}

#[test]
fn committed_deposits_are_inserted() {
    assert_eq!(
        devcon_commit_actions(&[block()]),
        vec![
            DevconAction::Insert {
                tx_hash: [1u8; 32],
                from: [0xaau8; 20],
                amount: vec![0x00, 0x40, 0x59, 0x73, 0x07],
            },
            DevconAction::FinishedHeight { number: 21, hash: [0x21u8; 32] },
        ]
    );
}

#[test]
fn reverted_transactions_are_all_deleted() {
    assert_eq!(
        devcon_revert_actions(&[block()]),
        vec![
            DevconAction::Delete { tx_hash: [1u8; 32] },
            DevconAction::Delete { tx_hash: [2u8; 32] },
            DevconAction::Delete { tx_hash: [4u8; 32] },
        ]
    );
}

#[test]
fn devcon_reports_a_committed_tip_once() {
    let quiet = DevconBlock { number: 22, hash: [0x22u8; 32], transactions: vec![], receipts: vec![] };
    let chain = vec![block(), quiet];
    let actions = devcon_notification_actions(None, Some(&chain));
    assert_eq!(actions.len(), 2);
    assert_eq!(actions[1], DevconAction::FinishedHeight { number: 22, hash: [0x22u8; 32] });
    let reverted = devcon_notification_actions(Some(&chain), None);
    assert_eq!(reverted, devcon_revert_actions(&chain));
    assert!(reverted.iter().all(|a| matches!(a, DevconAction::Delete { .. })));
    let reorg = devcon_notification_actions(Some(&chain), Some(&chain[1..]));
    let mut expected = devcon_revert_actions(&chain);
    expected.push(DevconAction::FinishedHeight { number: 22, hash: [0x22u8; 32] });
    assert_eq!(reorg, expected);
}
