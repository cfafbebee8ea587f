use exex_examples::daimo::{
    daimo_commit_actions, daimo_notification_actions, daimo_revert_actions, decode_daimo_events, name_registry_address,
    DaimoAction, DaimoBlock, DaimoEvent, DaimoLog, DaimoRecord, DaimoTx, NameRow, TransferRow,
};

fn registered() -> DaimoEvent {
    let mut name = [0u8; 32];
    name[30] = 0x05;
    name[31] = 0x39; // 1337
    DaimoEvent::Registered { name, addr: [0x42u8; 20] }
}

fn block() -> DaimoBlock {
    let reg = name_registry_address();
    DaimoBlock {
        number: 12,
        hash: [0xbbu8; 32],
        transactions: vec![
            DaimoTx { hash: [1u8; 32], chain_id: Some(8453) },
            DaimoTx { hash: [2u8; 32], chain_id: None },
        ],
        receipts: vec![
            None,
            Some(vec![
                DaimoLog { address: [7u8; 20], event: Some(registered()) },
                DaimoLog { address: reg, event: Some(registered()) },
            ]),
            Some(vec![DaimoLog {
                address: reg,
                event: Some(DaimoEvent::Transfer { from: [1u8; 20], to: [2u8; 20], value: [3u8; 32] }),
            }]),
        ],
    }
}

#[test]
fn registry_address() {
    assert_eq!(name_registry_address()[0], 0x66);
    assert_eq!(name_registry_address()[19], 0x89);
}

#[test]
fn events_are_found_with_their_positions() {
    let records = decode_daimo_events(&[block()]);
    let reg = name_registry_address();
    assert_eq!(
        records,
        vec![
            DaimoRecord {
                block_number: 12,
                block_hash: [0xbbu8; 32],
                tx_index: 0,
                tx: DaimoTx { hash: [1u8; 32], chain_id: Some(8453) },
                log_index: 1,
                log_address: reg,
                event: registered(),
            },
            DaimoRecord {
                block_number: 12,
                block_hash: [0xbbu8; 32],
                tx_index: 1,
                tx: DaimoTx { hash: [2u8; 32], chain_id: None },
                log_index: 0,
                log_address: reg,
                event: DaimoEvent::Transfer { from: [1u8; 20], to: [2u8; 20], value: [3u8; 32] },
            },
        ]
    );
}

#[test]
fn commit_and_revert_actions() {
    let records = decode_daimo_events(&[block()]);
    let reg = name_registry_address();
    let name = match registered() {
        DaimoEvent::Registered { name, .. } => name,
        _ => unreachable!(),
    };
    assert_eq!(
        daimo_commit_actions(&records, 12),
        vec![
            DaimoAction::InsertName(NameRow {
                chain_id: 8453,
                block_number: 12,
                block_hash: [0xbbu8; 32],
                tx_index: 0,
                tx_hash: [1u8; 32],
                log_address: reg,
                log_index: 1,
                name,
                addr: [0x42u8; 20],
            }),
            DaimoAction::InsertTransfer(TransferRow {
                chain_id: 0,
                block_number: 12,
                block_hash: [0xbbu8; 32],
                tx_index: 1,
                tx_hash: [2u8; 32],
                log_address: reg,
                log_index: 0,
                from: [1u8; 20],
                to: [2u8; 20],
                amount: [3u8; 32],
            }),
            DaimoAction::FinishedHeight(12),
        ]
    );
    assert_eq!(
        daimo_revert_actions(&records),
        vec![
            DaimoAction::DeleteNames { tx_hash: [1u8; 32] },
            DaimoAction::DeleteTransfers { tx_hash: [2u8; 32] },
        ]
    );
}

#[test]
fn daimo_reports_a_committed_tip_once() {
    let rec = DaimoRecord {
        block_number: 1,
        block_hash: [0u8; 32],
        tx_index: 0,
        tx: DaimoTx { hash: [9u8; 32], chain_id: Some(u64::MAX) },
        log_index: 0,
        log_address: name_registry_address(),
        event: DaimoEvent::Other,
    };
    assert_eq!(daimo_commit_actions(&[rec, rec], 5), vec![DaimoAction::FinishedHeight(5)]);
    assert!(daimo_revert_actions(&[rec]).is_empty());
    assert_eq!(daimo_commit_actions(&[], 5), vec![DaimoAction::FinishedHeight(5)]);
}

#[test]
fn numbers_are_stored_in_their_low_32_bits() {
    let rec = DaimoRecord {
        block_number: (1u64 << 32) + 3,
        block_hash: [0u8; 32],
        tx_index: 0,
        tx: DaimoTx { hash: [9u8; 32], chain_id: Some(u64::MAX) },
        log_index: 0,
        log_address: name_registry_address(),
        event: registered(),
    };
    match daimo_commit_actions(&[rec], 5)[0] {
        DaimoAction::InsertName(row) => {
            assert_eq!(row.block_number, 3);
            assert_eq!(row.chain_id, -1);
        }
        _ => panic!("expected a name row"),
    }
}

/// Runs actions against two in-memory tables, as the database does.
fn run(names: &mut Vec<NameRow>, transfers: &mut Vec<TransferRow>, actions: &[DaimoAction]) {
    for a in actions {
        match a {
            DaimoAction::DeleteNames { tx_hash } => names.retain(|r| r.tx_hash != *tx_hash),
            DaimoAction::DeleteTransfers { tx_hash } => transfers.retain(|r| r.tx_hash != *tx_hash),
            DaimoAction::InsertName(r) => names.push(*r),
            DaimoAction::InsertTransfer(r) => transfers.push(*r),
            DaimoAction::FinishedHeight(_) => {}
        }
    }
}

#[test]
fn daimo_commit_then_revert_restores_the_tables() {
    let records = decode_daimo_events(&[block()]);
    let earlier = NameRow {
        chain_id: 1,
        block_number: 1,
        block_hash: [0u8; 32],
        tx_index: 0,
        tx_hash: [0xeeu8; 32],
        log_address: name_registry_address(),
        log_index: 0,
        name: [0u8; 32],
        addr: [0u8; 20],
    };
    let mut names = vec![earlier];
    let mut transfers = vec![];
    run(&mut names, &mut transfers, &daimo_commit_actions(&records, 12));
    assert_eq!(names.len(), 2);
    assert_eq!(transfers.len(), 1);
    run(&mut names, &mut transfers, &daimo_revert_actions(&records));
    assert_eq!(names, vec![earlier]);
    assert!(transfers.is_empty());
}

#[test]
fn daimo_notification_reports_the_chain_tip() {
    let quiet = DaimoBlock { number: 13, hash: [0x13u8; 32], transactions: vec![], receipts: vec![] };
    let chain = vec![block(), quiet];
    let records = decode_daimo_events(&chain);
    let actions = daimo_notification_actions(None, Some(&chain));
    assert_eq!(actions, daimo_commit_actions(&records, 13));
    assert_eq!(actions.last(), Some(&DaimoAction::FinishedHeight(13)));
    let reverted = daimo_notification_actions(Some(&chain), None);
    assert_eq!(reverted, daimo_revert_actions(&records));
    let empty = daimo_notification_actions(None, Some(&chain[1..]));
    assert_eq!(empty, vec![DaimoAction::FinishedHeight(13)]);
}
