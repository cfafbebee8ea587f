use std::collections::BTreeMap;
use exex_examples::bridge::{
    bridge_name, chain_tip, commit_statements, decode_chain_into_events, is_op_bridge, op_bridge,
    revert_statements, handle_notification, BridgeStep, BridgeEvent, BridgeLog, BridgeRecord, BridgeRow, ChainBlock, Statement,
    Table,
};

fn amount(v: u8) -> [u8; 32] {
    let mut a = [0u8; 32];
    a[31] = v;
    a
}

fn scenario() -> (ChainBlock, BridgeEvent, BridgeEvent) {
    let from = [0x11u8; 20];
    let to = [0x22u8; 20];
    let deposit = BridgeEvent::Initiated { from, to, amount: amount(100) };
    let withdrawal = BridgeEvent::Finalized { from, to, amount: amount(200) };
    let block = ChainBlock {
        number: 7,
        hash: [0xabu8; 32],
        transactions: vec![[1u8; 32], [2u8; 32]],
        receipts: vec![
            vec![BridgeLog { address: op_bridge(0), event: Some(deposit) }],
            vec![BridgeLog { address: op_bridge(1), event: Some(withdrawal) }],
        ],
    };
    (block, deposit, withdrawal)
}

#[test]
fn bridge_addresses_and_names() {
    assert_eq!(op_bridge(0)[0], 0x31);
    assert_eq!(op_bridge(5)[19], 0xe5);
    for i in 0..6 {
        assert!(is_op_bridge(&op_bridge(i)));
    }
    assert!(!is_op_bridge(&[0u8; 20]));
    assert_eq!(bridge_name(&op_bridge(0)), Some("Base"));
    assert_eq!(bridge_name(&op_bridge(1)), Some("Blast"));
    assert_eq!(bridge_name(&op_bridge(2)), Some("Blast"));
    assert_eq!(bridge_name(&op_bridge(3)), Some("Optimism"));
    assert_eq!(bridge_name(&op_bridge(4)), Some("Mode"));
    assert_eq!(bridge_name(&op_bridge(5)), Some("Manta"));
    assert_eq!(bridge_name(&[1u8; 20]), None);
}

#[test]
fn committed_chain_becomes_rows() {
    let (block, deposit, withdrawal) = scenario();
    let records = decode_chain_into_events(&[block.clone()]);
    assert_eq!(
        records,
        vec![
            BridgeRecord { block_number: 7, tx_hash: [1u8; 32], contract_address: op_bridge(0), event: deposit },
            BridgeRecord { block_number: 7, tx_hash: [2u8; 32], contract_address: op_bridge(1), event: withdrawal },
        ]
    );
    let stmts = commit_statements(&records);
    assert_eq!(
        stmts,
        vec![
            Statement::Insert {
                table: Table::Deposits,
                row: BridgeRow {
                    block_number: 7,
                    tx_hash: [1u8; 32],
                    contract_address: op_bridge(0),
                    from: [0x11u8; 20],
                    to: [0x22u8; 20],
                    amount: amount(100),
                },
            },
            Statement::Insert {
                table: Table::Withdrawals,
                row: BridgeRow {
                    block_number: 7,
                    tx_hash: [2u8; 32],
                    contract_address: op_bridge(1),
                    from: [0x11u8; 20],
                    to: [0x22u8; 20],
                    amount: amount(200),
                },
            },
        ]
    );
    assert_eq!(chain_tip(&[block]), Some((7, [0xabu8; 32])));
}

#[test]
fn reverted_chain_deletes_its_rows() {
    let (block, _, _) = scenario();
    let records = decode_chain_into_events(&[block]);
    assert_eq!(
        revert_statements(&records),
        vec![
            Statement::Delete { table: Table::Deposits, tx_hash: [1u8; 32] },
            Statement::Delete { table: Table::Withdrawals, tx_hash: [2u8; 32] },
        ]
    );
}

#[test]
fn other_logs_are_skipped() {
    let (mut block, deposit, _) = scenario();
    block.receipts[0].push(BridgeLog { address: [9u8; 20], event: Some(deposit) });
    block.receipts[0].push(BridgeLog { address: op_bridge(3), event: None });
    // A transaction without a receipt is not looked at.
    block.transactions.push([3u8; 32]);
    let records = decode_chain_into_events(&[block]);
    assert_eq!(records.len(), 2);
    assert_eq!(chain_tip(&[]), None);
}

#[test]
fn bridge_commit_then_revert_restores_the_tables() {
    let (block, _, _) = scenario();
    let records = decode_chain_into_events(&[block]);
    let mut deposits: BTreeMap<[u8; 32], BridgeRow> = BTreeMap::new();
    let mut withdrawals: BTreeMap<[u8; 32], BridgeRow> = BTreeMap::new();
    let mut run = |stmts: Vec<Statement>| {
        for s in stmts {
            match s {
                Statement::Insert { table, row } => {
                    let t = if table == Table::Deposits { &mut deposits } else { &mut withdrawals };
                    assert!(t.insert(row.tx_hash, row).is_none(), "unique transaction hash");
                }
                Statement::Delete { table, tx_hash } => {
                    let t = if table == Table::Deposits { &mut deposits } else { &mut withdrawals };
                    t.remove(&tx_hash);
                }
            }
        }
    };
    run(commit_statements(&records));
    run(revert_statements(&records));
    assert!(deposits.is_empty());
    assert!(withdrawals.is_empty());
}

#[test]
fn bridge_reports_a_committed_tip_once() {
    let (block, _, _) = scenario();
    let chain = vec![block];
    let steps = handle_notification(None, Some(&chain));
    let events = decode_chain_into_events(&chain);
    let mut expected: Vec<BridgeStep> =
        commit_statements(&events).into_iter().map(BridgeStep::Run).collect();
    expected.push(BridgeStep::FinishedHeight { number: 7, hash: [0xabu8; 32] });
    assert_eq!(steps, expected);
    let reverted = handle_notification(Some(&chain), None);
    let undo: Vec<BridgeStep> = revert_statements(&events).into_iter().map(BridgeStep::Run).collect();
    assert_eq!(reverted, undo);
    let empty = ChainBlock { number: 9, hash: [0xcdu8; 32], transactions: vec![], receipts: vec![] };
    let reorg = handle_notification(Some(&chain), Some(std::slice::from_ref(&empty)));
    let mut expected = undo.clone();
    expected.push(BridgeStep::FinishedHeight { number: 9, hash: [0xcdu8; 32] });
    assert_eq!(reorg, expected);
}
