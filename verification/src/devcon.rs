//! Indexing deposits to the beacon chain deposit contract: the rows that a
//! committed chain adds and the rows that a reverted chain takes out. The host
//! decodes logs, recovers senders and runs the statements against its database.
use vstd::prelude::*;
use crate::seq_facts::lemma_contains_concat;
use crate::bytes::same_bytes;

verus! {

/// The address of the beacon chain deposit contract.
pub open spec fn deposit_contract() -> Seq<u8> {
    seq![0x00u8, 0x00, 0x00, 0x00, 0x21, 0x9a, 0xb5, 0x40, 0x35, 0x6c, 0xbb, 0x83, 0x9c, 0xbe, 0x05, 0x30, 0x3d, 0x77, 0x05, 0xfa]
}

/// The address of the beacon chain deposit contract.
pub fn deposit_contract_address() -> (a: [u8; 20])
    ensures
        a@ == deposit_contract(),
{
    let a: [u8; 20] = [0x00, 0x00, 0x00, 0x00, 0x21, 0x9a, 0xb5, 0x40, 0x35, 0x6c, 0xbb, 0x83, 0x9c, 0xbe, 0x05, 0x30, 0x3d, 0x77, 0x05, 0xfa];
    assert(a@ =~= deposit_contract());
    a
}

/// A transaction: its hash, the account it calls, if any, and its sender, where
/// it could be recovered.
#[derive(Clone, Copy, Debug, PartialEq, Eq)]
pub struct DevconTx {
    pub hash: [u8; 32],
    pub to: Option<[u8; 20]>,
    pub sender: Option<[u8; 20]>,
}

/// A receipt log: the amount field of the `DepositEvent` it carries, where it
/// decodes as one.
#[derive(Clone, Debug, PartialEq, Eq)]
pub struct DevconLog {
    pub deposit_amount: Option<Vec<u8>>,
}

/// A block: its number and hash, its transactions and their receipts, some of
/// which may be missing.
#[derive(Clone, Debug)]
pub struct DevconBlock {
    pub number: u64,
    pub hash: [u8; 32],
    pub transactions: Vec<DevconTx>,
    pub receipts: Vec<Option<Vec<DevconLog>>>,
}

/// A block as plain values.
pub struct DevconBlockView {
    pub number: u64,
    pub hash: [u8; 32],
    pub transactions: Seq<DevconTx>,
    pub receipts: Seq<Option<Seq<Option<Seq<u8>>>>>,
}

/// A receipt's logs as plain values.
pub open spec fn logs_view(logs: Seq<DevconLog>) -> Seq<Option<Seq<u8>>> {
    Seq::new(
        logs.len(),
        |k: int|
            match logs[k].deposit_amount {
                Some(a) => Some(a@),
                None => None,
            },
    )
}

impl View for DevconBlock {
    type V = DevconBlockView;

    open spec fn view(&self) -> DevconBlockView {
        DevconBlockView {
            number: self.number,
            hash: self.hash,
            transactions: self.transactions@,
            receipts: Seq::new(
                self.receipts@.len(),
                |k: int|
                    match self.receipts@[k] {
                        Some(logs) => Some(logs_view(logs@)),
                        None => None,
                    },
            ),
        }
    }
}

/// The blocks of a chain as plain values.
pub open spec fn devcon_chain_view(chain: Seq<DevconBlock>) -> Seq<DevconBlockView> {
    Seq::new(chain.len(), |k: int| chain[k]@)
}

/// What the host does for a notification.
#[derive(Clone, Debug, PartialEq, Eq)]
pub enum DevconAction {
    /// Delete the deposit of a transaction.
    Delete { tx_hash: [u8; 32] },
    /// Insert a deposit: transaction hash, sender and amount.
    Insert { tx_hash: [u8; 32], from: [u8; 20], amount: Vec<u8> },
    /// Report the committed chain's tip, by number and hash, as finished.
    FinishedHeight { number: u64, hash: [u8; 32] },
}

/// An action as plain values.
pub enum DevconActionView {
    Delete { tx_hash: [u8; 32] },
    Insert { tx_hash: [u8; 32], from: [u8; 20], amount: Seq<u8> },
    FinishedHeight { number: u64, hash: [u8; 32] },
}

/// Actions as plain values.
pub open spec fn actions_view(a: Seq<DevconAction>) -> Seq<DevconActionView> {
    Seq::new(
        a.len(),
        |k: int|
            match a[k] {
                DevconAction::Delete { tx_hash } => DevconActionView::Delete { tx_hash },
                DevconAction::Insert { tx_hash, from, amount } => DevconActionView::Insert {
                    tx_hash,
                    from,
                    amount: amount@,
                },
                DevconAction::FinishedHeight { number, hash } => DevconActionView::FinishedHeight {
                    number,
                    hash,
                },
            },
    )
}

/// The deletions for the first `k` transactions of a block.
pub open spec fn block_deletes(txs: Seq<DevconTx>, k: int) -> Seq<DevconActionView>
    decreases k,
{
    if k <= 0 {
        Seq::empty()
    } else {
        block_deletes(txs, k - 1).push(DevconActionView::Delete { tx_hash: txs[k - 1].hash })
    }
}

/// Reverting a chain deletes the deposits of all its transactions, block by block.
pub open spec fn revert_deletes(chain: Seq<DevconBlockView>) -> Seq<DevconActionView>
    decreases chain.len(),
{
    if chain.len() == 0 {
        Seq::empty()
    } else {
        revert_deletes(chain.drop_last()) + block_deletes(
            chain.last().transactions,
            chain.last().transactions.len() as int,
        )
    }
}

/// The number of transactions of a block that have a receipt slot.
pub open spec fn devcon_paired(b: DevconBlockView) -> int {
    if b.transactions.len() <= b.receipts.len() {
        b.transactions.len() as int
    } else {
        b.receipts.len() as int
    }
}

/// Whether a transaction calls the deposit contract.
pub open spec fn to_deposit_contract(tx: DevconTx) -> bool {
    tx.to matches Some(a) && a@ == deposit_contract()
}

/// The insertions for the first `l` logs of a deposit transaction's receipt.
pub open spec fn log_inserts(tx: DevconTx, logs: Seq<Option<Seq<u8>>>, l: int) -> Seq<DevconActionView>
    decreases l,
{
    if l <= 0 {
        Seq::empty()
    } else {
        log_inserts(tx, logs, l - 1) + match logs[l - 1] {
            Some(amount) => seq![DevconActionView::Insert {
                tx_hash: tx.hash,
                from: tx.sender.unwrap(),
                amount,
            }],
            None => Seq::empty(),
        }
    }
}

/// The insertions for the first `k` paired transactions of a block: one per
/// deposit log of each transaction to the deposit contract.
pub open spec fn block_inserts(b: DevconBlockView, k: int) -> Seq<DevconActionView>
    decreases k,
{
    if k <= 0 {
        Seq::empty()
    } else {
        let tx = b.transactions[k - 1];
        block_inserts(b, k - 1) + if to_deposit_contract(tx) {
            let logs = b.receipts[k - 1].unwrap();
            log_inserts(tx, logs, logs.len() as int)
        } else {
            Seq::empty()
        }
    }
}

/// Committing a chain inserts its deposits, block by block.
pub open spec fn commit_inserts(chain: Seq<DevconBlockView>) -> Seq<DevconActionView>
    decreases chain.len(),
{
    if chain.len() == 0 {
        Seq::empty()
    } else {
        commit_inserts(chain.drop_last()) + block_inserts(chain.last(), devcon_paired(chain.last()))
    }
}

/// A transaction to the deposit contract has its receipt, and its sender is known
/// where one of its logs is a deposit.
pub open spec fn block_readable(b: DevconBlockView) -> bool {
    forall|k: int|
        0 <= k < devcon_paired(b) && to_deposit_contract(#[trigger] b.transactions[k]) ==> {
            &&& b.receipts[k] is Some
            &&& (b.transactions[k].sender is Some || forall|l: int|
                0 <= l < b.receipts[k].unwrap().len() ==> (#[trigger] b.receipts[k].unwrap()[l]) is None)
        }
}

/// The deletions that revert a chain.
pub fn devcon_revert_actions(chain: &[DevconBlock]) -> (r: Vec<DevconAction>)
    ensures
        actions_view(r@) == revert_deletes(devcon_chain_view(chain@)),
{
    let ghost blocks = devcon_chain_view(chain@);
    let mut out: Vec<DevconAction> = Vec::new();
    let n = chain.len();
    let mut i: usize = 0;
    assert(blocks.subrange(0, 0) =~= Seq::<DevconBlockView>::empty());
    assert(actions_view(out@) =~= Seq::<DevconActionView>::empty());
    while i < n
        invariant
            n == chain@.len(),
            blocks == devcon_chain_view(chain@),
            i <= n,
            actions_view(out@) == revert_deletes(blocks.subrange(0, i as int)),
        decreases n - i,
    {
        let block = &chain[i];
        let ghost bv = block@;
        assert(bv == blocks[i as int]);
        let ghost before = actions_view(out@);
        let m = block.transactions.len();
        let mut k: usize = 0;
        while k < m
            invariant
                bv == block@,
                m == block.transactions@.len(),
                k <= m,
                actions_view(out@) == before + block_deletes(bv.transactions, k as int),
            decreases m - k,
        {
            let ghost prev = out@;
            out.push(DevconAction::Delete { tx_hash: block.transactions[k].hash });
            assert(actions_view(out@) =~= actions_view(prev).push(
                DevconActionView::Delete { tx_hash: bv.transactions[k as int].hash },
            ));
            k = k + 1;
        }
        assert(blocks.subrange(0, i + 1).drop_last() =~= blocks.subrange(0, i as int));
        i = i + 1;
    }
    assert(blocks.subrange(0, n as int) =~= blocks);
    out
}

/// What committing a chain does: insert its deposits, block by block, and then
/// report its tip (the last block's number and hash) as finished, once.
pub open spec fn commit_actions(chain: Seq<DevconBlockView>) -> Seq<DevconActionView> {
    commit_inserts(chain).push(
        DevconActionView::FinishedHeight { number: chain.last().number, hash: chain.last().hash },
    )
}

/// The actions that commit a chain (see `commit_actions`). A committed chain has
/// at least one block.
pub fn devcon_commit_actions(chain: &[DevconBlock]) -> (r: Vec<DevconAction>)
    requires
        chain@.len() > 0,
        forall|i: int| 0 <= i < chain@.len() ==> block_readable(#[trigger] chain@[i]@),
    ensures
        actions_view(r@) == commit_actions(devcon_chain_view(chain@)),
{
    let ghost blocks = devcon_chain_view(chain@);
    let contract = deposit_contract_address();
    let mut out: Vec<DevconAction> = Vec::new();
    let n = chain.len();
    let mut i: usize = 0;
    assert(blocks.subrange(0, 0) =~= Seq::<DevconBlockView>::empty());
    assert(actions_view(out@) =~= Seq::<DevconActionView>::empty());
    while i < n
        invariant
            n == chain@.len(),
            blocks == devcon_chain_view(chain@),
            contract@ == deposit_contract(),
            forall|j: int| 0 <= j < chain@.len() ==> block_readable(#[trigger] chain@[j]@),
            i <= n,
            actions_view(out@) == commit_inserts(blocks.subrange(0, i as int)),
        decreases n - i,
    {
        let block = &chain[i];
        let ghost bv = block@;
        assert(bv == blocks[i as int]);
        assert(block_readable(bv));
        let ghost before = actions_view(out@);
        let txs = block.transactions.len();
        let receipts = block.receipts.len();
        let m: usize = if txs <= receipts {
            txs
        } else {
            receipts
        };
        let mut k: usize = 0;
        while k < m
            invariant
                bv == block@,
                block_readable(bv),
                contract@ == deposit_contract(),
                m == devcon_paired(bv),
                m <= block.transactions@.len(),
                m <= block.receipts@.len(),
                k <= m,
                actions_view(out@) == before + block_inserts(bv, k as int),
            decreases m - k,
        {
            let tx = block.transactions[k];
            let ghost before_tx = actions_view(out@);
            let calls_contract = match tx.to {
                Some(a) => same_bytes(&a, &contract),
                None => false,
            };
            assert(calls_contract == to_deposit_contract(bv.transactions[k as int]));
            if calls_contract {
                let logs = match &block.receipts[k] {
                    Some(logs) => logs,
                    None => {
                        proof {
                            assert(bv.receipts[k as int] is Some);
                        }
                        return out;
                    },
                };
                let ghost lv = logs_view(logs@);
                assert(bv.receipts[k as int] == Some(lv));
                assert(bv.transactions[k as int].sender is Some || forall|j: int|
                    0 <= j < bv.receipts[k as int].unwrap().len() ==> (#[trigger] bv.receipts[k as int].unwrap()[j]) is None);
                assert(tx.sender is Some || forall|j: int| 0 <= j < lv.len() ==> (#[trigger] lv[j]) is None);
                let count = logs.len();
                let mut l: usize = 0;
                while l < count
                    invariant
                        count == logs@.len(),
                        lv == logs_view(logs@),
                        l <= count,
                        tx == bv.transactions[k as int],
                        bv.receipts[k as int] == Some(lv),
                        tx.sender is Some || forall|j: int| 0 <= j < lv.len() ==> (#[trigger] lv[j]) is None,
                        actions_view(out@) == before_tx + log_inserts(tx, lv, l as int),
                    decreases count - l,
                {
                    let ghost prev = out@;
                    match &logs[l].deposit_amount {
                        Some(amount) => {
                            assert(lv[l as int] == Some(amount@));
                            let from = match tx.sender {
                                Some(s) => s,
                                None => {
                                    proof {
                                        assert(lv[l as int] is None);
                                    }
                                    return out;
                                },
                            };
                            out.push(DevconAction::Insert { tx_hash: tx.hash, from, amount: amount.clone() });
                            assert(actions_view(out@) =~= actions_view(prev) + seq![
                                DevconActionView::Insert { tx_hash: tx.hash, from, amount: amount@ },
                            ]);
                        },
                        None => {
                            assert(lv[l as int] is None);
                            assert(actions_view(out@) =~= actions_view(prev));
                        },
                    }
                    l = l + 1;
                }
            } else {
                assert(actions_view(out@) =~= before_tx + Seq::<DevconActionView>::empty());
            }
            k = k + 1;
        }
        assert(blocks.subrange(0, i + 1).drop_last() =~= blocks.subrange(0, i as int));
        i = i + 1;
    }
    assert(blocks.subrange(0, n as int) =~= blocks);
    let tip = &chain[n - 1];
    let ghost before = out@;
    out.push(DevconAction::FinishedHeight { number: tip.number, hash: tip.hash });
    assert(actions_view(out@) =~= actions_view(before).push(
        DevconActionView::FinishedHeight { number: tip.number, hash: tip.hash },
    ));
    out
}

/// Every action is an insertion.
pub open spec fn all_inserts(a: Seq<DevconActionView>) -> bool {
    forall|i: int| 0 <= i < a.len() ==> (#[trigger] a[i]) is Insert
}

/// Every action is a deletion.
pub open spec fn all_deletes(a: Seq<DevconActionView>) -> bool {
    forall|i: int| 0 <= i < a.len() ==> (#[trigger] a[i]) is Delete
}

proof fn lemma_concat_inserts(a: Seq<DevconActionView>, b: Seq<DevconActionView>)
    requires
        all_inserts(a),
        all_inserts(b),
    ensures
        all_inserts(a + b),
{
    assert forall|i: int| 0 <= i < (a + b).len() implies (#[trigger] (a + b)[i]) is Insert by {
        if i >= a.len() {
            assert((a + b)[i] == b[i - a.len()]);
        } else {
            assert((a + b)[i] == a[i]);
        }
    }
}

proof fn lemma_log_inserts(tx: DevconTx, logs: Seq<Option<Seq<u8>>>, l: int)
    ensures
        all_inserts(log_inserts(tx, logs, l)),
    decreases l,
{
    if l > 0 {
        lemma_log_inserts(tx, logs, l - 1);
        let tail = match logs[l - 1] {
            Some(amount) => seq![DevconActionView::Insert {
                tx_hash: tx.hash,
                from: tx.sender.unwrap(),
                amount,
            }],
            None => Seq::empty(),
        };
        lemma_concat_inserts(log_inserts(tx, logs, l - 1), tail);
    }
}

proof fn lemma_block_inserts(b: DevconBlockView, k: int)
    ensures
        all_inserts(block_inserts(b, k)),
    decreases k,
{
    if k > 0 {
        lemma_block_inserts(b, k - 1);
        let tx = b.transactions[k - 1];
        if to_deposit_contract(tx) {
            let logs = b.receipts[k - 1].unwrap();
            lemma_log_inserts(tx, logs, logs.len() as int);
            lemma_concat_inserts(block_inserts(b, k - 1), log_inserts(tx, logs, logs.len() as int));
        } else {
            lemma_concat_inserts(block_inserts(b, k - 1), Seq::empty());
        }
    }
}

proof fn lemma_commit_inserts(chain: Seq<DevconBlockView>)
    ensures
        all_inserts(commit_inserts(chain)),
    decreases chain.len(),
{
    if chain.len() > 0 {
        lemma_commit_inserts(chain.drop_last());
        lemma_block_inserts(chain.last(), devcon_paired(chain.last()));
        lemma_concat_inserts(
            commit_inserts(chain.drop_last()),
            block_inserts(chain.last(), devcon_paired(chain.last())),
        );
    }
}

proof fn lemma_block_deletes(txs: Seq<DevconTx>, k: int)
    ensures
        all_deletes(block_deletes(txs, k)),
    decreases k,
{
    if k > 0 {
        lemma_block_deletes(txs, k - 1);
    }
}

proof fn lemma_revert_deletes(chain: Seq<DevconBlockView>)
    ensures
        all_deletes(revert_deletes(chain)),
    decreases chain.len(),
{
    if chain.len() > 0 {
        let a = revert_deletes(chain.drop_last());
        let b = block_deletes(chain.last().transactions, chain.last().transactions.len() as int);
        lemma_revert_deletes(chain.drop_last());
        lemma_block_deletes(chain.last().transactions, chain.last().transactions.len() as int);
        assert forall|i: int| 0 <= i < (a + b).len() implies (#[trigger] (a + b)[i]) is Delete by {
            if i >= a.len() {
                assert((a + b)[i] == b[i - a.len()]);
            } else {
                assert((a + b)[i] == a[i]);
            }
        }
    }
}

/// What a notification makes the host do: delete the deposits of the reverted
/// chain's transactions, if any; then insert the committed chain's deposits and
/// report its tip, if there is a committed chain.
pub open spec fn notification_actions(
    reverted: Option<Seq<DevconBlockView>>,
    committed: Option<Seq<DevconBlockView>>,
) -> Seq<DevconActionView> {
    let undo = match reverted {
        Some(c) => revert_deletes(c),
        None => Seq::empty(),
    };
    match committed {
        Some(c) => undo + commit_actions(c),
        None => undo,
    }
}

/// A chain as plain values, where there is one.
pub open spec fn opt_devcon_chain(c: Option<&[DevconBlock]>) -> Option<Seq<DevconBlockView>> {
    match c {
        Some(blocks) => Some(devcon_chain_view(blocks@)),
        None => None,
    }
}

/// What a notification makes the host do (see `notification_actions`).
pub fn devcon_notification_actions(
    reverted: Option<&[DevconBlock]>,
    committed: Option<&[DevconBlock]>,
) -> (r: Vec<DevconAction>)
    requires
        committed matches Some(c) ==> c@.len() > 0 && forall|i: int|
            0 <= i < c@.len() ==> block_readable(#[trigger] c@[i]@),
    ensures
        actions_view(r@) == notification_actions(opt_devcon_chain(reverted), opt_devcon_chain(committed)),
{
    let mut out: Vec<DevconAction> = match reverted {
        Some(chain) => devcon_revert_actions(chain),
        None => Vec::new(),
    };
    assert(actions_view(out@) =~= match opt_devcon_chain(reverted) {
        Some(c) => revert_deletes(c),
        None => Seq::<DevconActionView>::empty(),
    });
    if let Some(chain) = committed {
        let ghost before = out@;
        let mut more = devcon_commit_actions(chain);
        out.append(&mut more);
        assert(actions_view(out@) =~= actions_view(before) + commit_actions(devcon_chain_view(chain@)));
    }
    out
}

/// A notification reports a tip exactly where it commits a chain: then once, as
/// its last action, with the number and hash of the chain's last block, after the
/// deletions of the reverted chain and the insertions of the committed one; a pure
/// revert reports nothing.
pub proof fn lemma_devcon_tip_reported_once(
    reverted: Option<Seq<DevconBlockView>>,
    committed: Option<Seq<DevconBlockView>>,
)
    ensures
        committed matches Some(c) ==> notification_actions(reverted, committed).last()
            == (DevconActionView::FinishedHeight { number: c.last().number, hash: c.last().hash }),
        forall|i: int|
            0 <= i < notification_actions(reverted, committed).len() && (committed is Some ==> i
                < notification_actions(reverted, committed).len() - 1) ==> !((#[trigger] notification_actions(
                reverted,
                committed,
            )[i]) is FinishedHeight),
{
    let undo = match reverted {
        Some(c) => revert_deletes(c),
        None => Seq::<DevconActionView>::empty(),
    };
    match reverted {
        Some(c) => lemma_revert_deletes(c),
        None => {},
    }
    assert forall|i: int| 0 <= i < undo.len() implies (#[trigger] undo[i]) is Delete by {}
    match committed {
        Some(c) => {
            lemma_commit_inserts(c);
            let ins = commit_inserts(c);
            let body = undo + ins;
            assert forall|i: int| 0 <= i < body.len() implies !((#[trigger] body[i]) is FinishedHeight) by {
                if i >= undo.len() {
                    assert(body[i] == ins[i - undo.len()]);
                } else {
                    assert(body[i] == undo[i]);
                }
            }
            assert(notification_actions(reverted, committed) =~= body.push(
                DevconActionView::FinishedHeight { number: c.last().number, hash: c.last().hash },
            ));
            assert forall|i: int|
                0 <= i < notification_actions(reverted, committed).len() - 1 implies !((
            #[trigger] notification_actions(reverted, committed)[i]) is FinishedHeight) by {
                assert(notification_actions(reverted, committed)[i] == body[i]);
            }
        },
        None => {},
    }
}

proof fn lemma_log_inserts_has(tx: DevconTx, logs: Seq<Option<Seq<u8>>>, n: int, l: int)
    requires
        0 <= l < n <= logs.len(),
        logs[l] is Some,
    ensures
        log_inserts(tx, logs, n).contains(
            DevconActionView::Insert { tx_hash: tx.hash, from: tx.sender.unwrap(), amount: logs[l].unwrap() },
        ),
    decreases n,
{
    let x = DevconActionView::Insert { tx_hash: tx.hash, from: tx.sender.unwrap(), amount: logs[l].unwrap() };
    let tail = match logs[n - 1] {
        Some(amount) => seq![DevconActionView::Insert { tx_hash: tx.hash, from: tx.sender.unwrap(), amount }],
        None => Seq::<DevconActionView>::empty(),
    };
    if l == n - 1 {
        assert(tail[0] == x);
    } else {
        lemma_log_inserts_has(tx, logs, n - 1, l);
    }
    lemma_contains_concat(log_inserts(tx, logs, n - 1), tail, x);
}

proof fn lemma_block_inserts_has(b: DevconBlockView, m: int, k: int, x: DevconActionView)
    requires
        0 <= k < m,
        to_deposit_contract(b.transactions[k]),
        log_inserts(b.transactions[k], b.receipts[k].unwrap(), b.receipts[k].unwrap().len() as int).contains(x),
    ensures
        block_inserts(b, m).contains(x),
    decreases m,
{
    if k < m - 1 {
        lemma_block_inserts_has(b, m - 1, k, x);
    }
    let tx = b.transactions[m - 1];
    let tail = if to_deposit_contract(tx) {
        let logs = b.receipts[m - 1].unwrap();
        log_inserts(tx, logs, logs.len() as int)
    } else {
        Seq::<DevconActionView>::empty()
    };
    lemma_contains_concat(block_inserts(b, m - 1), tail, x);
}

/// Every deposit of a committed chain is inserted: for every block, every
/// transaction that has its receipt (those before the shorter of the two lists
/// ends) and calls the deposit contract, and every deposit log of that receipt,
/// the insertions hold one with the transaction's hash, its sender and the
/// deposit's amount.
pub proof fn lemma_every_deposit_inserted(chain: Seq<DevconBlockView>, i: int, k: int, l: int)
    requires
        0 <= i < chain.len(),
        0 <= k < chain[i].transactions.len(),
        k < chain[i].receipts.len(),
        to_deposit_contract(chain[i].transactions[k]),
        chain[i].receipts[k] is Some,
        0 <= l < chain[i].receipts[k].unwrap().len(),
        chain[i].receipts[k].unwrap()[l] is Some,
    ensures
        commit_inserts(chain).contains(
            DevconActionView::Insert {
                tx_hash: chain[i].transactions[k].hash,
                from: chain[i].transactions[k].sender.unwrap(),
                amount: chain[i].receipts[k].unwrap()[l].unwrap(),
            },
        ),
        commit_actions(chain).contains(
            DevconActionView::Insert {
                tx_hash: chain[i].transactions[k].hash,
                from: chain[i].transactions[k].sender.unwrap(),
                amount: chain[i].receipts[k].unwrap()[l].unwrap(),
            },
        ),
    decreases chain.len(),
{
    let b = chain[i];
    let tx = b.transactions[k];
    let logs = b.receipts[k].unwrap();
    let x = DevconActionView::Insert { tx_hash: tx.hash, from: tx.sender.unwrap(), amount: logs[l].unwrap() };
    lemma_insert_in_commit(chain, i, k, l);
    let fh = DevconActionView::FinishedHeight { number: chain.last().number, hash: chain.last().hash };
    lemma_contains_concat(commit_inserts(chain), seq![fh], x);
    assert(commit_inserts(chain) + seq![fh] =~= commit_actions(chain));
}

proof fn lemma_insert_in_commit(chain: Seq<DevconBlockView>, i: int, k: int, l: int)
    requires
        0 <= i < chain.len(),
        0 <= k < chain[i].transactions.len(),
        k < chain[i].receipts.len(),
        to_deposit_contract(chain[i].transactions[k]),
        chain[i].receipts[k] is Some,
        0 <= l < chain[i].receipts[k].unwrap().len(),
        chain[i].receipts[k].unwrap()[l] is Some,
    ensures
        commit_inserts(chain).contains(
            DevconActionView::Insert {
                tx_hash: chain[i].transactions[k].hash,
                from: chain[i].transactions[k].sender.unwrap(),
                amount: chain[i].receipts[k].unwrap()[l].unwrap(),
            },
        ),
    decreases chain.len(),
{
    let b = chain[i];
    let tx = b.transactions[k];
    let logs = b.receipts[k].unwrap();
    let x = DevconActionView::Insert { tx_hash: tx.hash, from: tx.sender.unwrap(), amount: logs[l].unwrap() };
    if i == chain.len() - 1 {
        lemma_log_inserts_has(tx, logs, logs.len() as int, l);
        lemma_block_inserts_has(b, devcon_paired(b), k, x);
        lemma_contains_concat(commit_inserts(chain.drop_last()), block_inserts(b, devcon_paired(b)), x);
    } else {
        assert(chain.drop_last()[i] == b);
        lemma_insert_in_commit(chain.drop_last(), i, k, l);
        lemma_contains_concat(
            commit_inserts(chain.drop_last()),
            block_inserts(chain.last(), devcon_paired(chain.last())),
            x,
        );
    }
}

/// The insertions of a chain are those of its first part followed by those of
/// the rest, whatever the split.
pub proof fn lemma_commit_inserts_concat(a: Seq<DevconBlockView>, b: Seq<DevconBlockView>)
    ensures
        commit_inserts(a + b) == commit_inserts(a) + commit_inserts(b),
    decreases b.len(),
{
    if b.len() == 0 {
        assert(a + b =~= a);
        assert(commit_inserts(a) + commit_inserts(b) =~= commit_inserts(a));
    } else {
        assert((a + b).drop_last() =~= a + b.drop_last());
        assert((a + b).last() == b.last());
        lemma_commit_inserts_concat(a, b.drop_last());
        let last = block_inserts(b.last(), devcon_paired(b.last()));
        assert(commit_inserts(a + b) =~= commit_inserts(a) + commit_inserts(b.drop_last()) + last);
        assert(commit_inserts(a) + commit_inserts(b) =~= commit_inserts(a) + (commit_inserts(b.drop_last())
            + last));
    }
}

/// The deletions that revert a chain are those of its first part followed by
/// those of the rest, whatever the split.
pub proof fn lemma_revert_deletes_concat(a: Seq<DevconBlockView>, b: Seq<DevconBlockView>)
    ensures
        revert_deletes(a + b) == revert_deletes(a) + revert_deletes(b),
    decreases b.len(),
{
    if b.len() == 0 {
        assert(a + b =~= a);
        assert(revert_deletes(a) + revert_deletes(b) =~= revert_deletes(a));
    } else {
        assert((a + b).drop_last() =~= a + b.drop_last());
        assert((a + b).last() == b.last());
        lemma_revert_deletes_concat(a, b.drop_last());
        let last = block_deletes(b.last().transactions, b.last().transactions.len() as int);
        assert(revert_deletes(a + b) =~= revert_deletes(a) + revert_deletes(b.drop_last()) + last);
        assert(revert_deletes(a) + revert_deletes(b) =~= revert_deletes(a) + (revert_deletes(b.drop_last())
            + last));
    }
}

/// Reverting a block deletes the deposits of each of its transactions, one
/// deletion per transaction, in order.
pub proof fn lemma_block_deletes_each(txs: Seq<DevconTx>)
    ensures
        block_deletes(txs, txs.len() as int).len() == txs.len(),
        forall|k: int|
            0 <= k < txs.len() ==> #[trigger] block_deletes(txs, txs.len() as int)[k]
                == (DevconActionView::Delete { tx_hash: txs[k].hash }),
{
    lemma_block_deletes_prefix(txs, txs.len() as int);
}

proof fn lemma_block_deletes_prefix(txs: Seq<DevconTx>, n: int)
    requires
        0 <= n <= txs.len(),
    ensures
        block_deletes(txs, n).len() == n,
        forall|k: int|
            0 <= k < n ==> #[trigger] block_deletes(txs, n)[k] == (DevconActionView::Delete { tx_hash: txs[k].hash }),
    decreases n,
{
    if n > 0 {
        lemma_block_deletes_prefix(txs, n - 1);
        assert forall|k: int| 0 <= k < n implies #[trigger] block_deletes(txs, n)[k] == (DevconActionView::Delete {
            tx_hash: txs[k].hash,
        }) by {
            if k < n - 1 {
                assert(block_deletes(txs, n)[k] == block_deletes(txs, n - 1)[k]);
            }
        }
    }
}

} // verus!
