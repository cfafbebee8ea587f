//! Indexing names registered with the Daimo name registry, and token transfers it
//! emits: which logs count, where each was found, and the statements that a
//! committed or reverted chain gives. The host decodes logs and runs the
//! statements against its database.
use vstd::prelude::*;
use crate::seq_facts::lemma_contains_concat;
use crate::bytes::same_bytes;

verus! {

/// The address of the Daimo name registry.
pub open spec fn name_registry() -> Seq<u8> {
    seq![0x66u8, 0xd9, 0xd1, 0xdd, 0x3b, 0x56, 0x67, 0xda, 0xe4, 0x9f, 0x13, 0x5c, 0xc8, 0xf6, 0xb3, 0x62, 0xf9, 0x90, 0x8d, 0x89]
}

/// The address of the Daimo name registry.
pub fn name_registry_address() -> (a: [u8; 20])
    ensures
        a@ == name_registry(),
{
    let a: [u8; 20] = [0x66, 0xd9, 0xd1, 0xdd, 0x3b, 0x56, 0x67, 0xda, 0xe4, 0x9f, 0x13, 0x5c, 0xc8, 0xf6, 0xb3, 0x62, 0xf9, 0x90, 0x8d, 0x89];
    assert(a@ =~= name_registry());
    a
}

/// An event decoded from a log of the registry.
#[derive(Clone, Copy, Debug, PartialEq, Eq)]
pub enum DaimoEvent {
    /// `Registered(name, addr)`: a name was registered for an address.
    Registered { name: [u8; 32], addr: [u8; 20] },
    /// `Transfer(from, to, value)` of an ERC-20 token.
    Transfer { from: [u8; 20], to: [u8; 20], value: [u8; 32] },
    /// Another event of the registry.
    Other,
}

/// A receipt log: the contract that emitted it and, where it decodes as one, the
/// registry or token event that it carries.
#[derive(Clone, Copy, Debug, PartialEq, Eq)]
pub struct DaimoLog {
    pub address: [u8; 20],
    pub event: Option<DaimoEvent>,
}

/// A transaction: its hash and the chain id it was signed for, if any.
#[derive(Clone, Copy, Debug, PartialEq, Eq)]
pub struct DaimoTx {
    pub hash: [u8; 32],
    pub chain_id: Option<u64>,
}

/// A block: its number and hash, its transactions, and its receipts, some of
/// which may be missing.
#[derive(Clone, Debug)]
pub struct DaimoBlock {
    pub number: u64,
    pub hash: [u8; 32],
    pub transactions: Vec<DaimoTx>,
    pub receipts: Vec<Option<Vec<DaimoLog>>>,
}

/// A block as plain values.
pub struct DaimoBlockView {
    pub number: u64,
    pub hash: [u8; 32],
    pub transactions: Seq<DaimoTx>,
    pub receipts: Seq<Option<Seq<DaimoLog>>>,
}

impl View for DaimoBlock {
    type V = DaimoBlockView;

    open spec fn view(&self) -> DaimoBlockView {
        DaimoBlockView {
            number: self.number,
            hash: self.hash,
            transactions: self.transactions@,
            receipts: Seq::new(
                self.receipts@.len(),
                |k: int|
                    match self.receipts@[k] {
                        Some(logs) => Some(logs@),
                        None => None,
                    },
            ),
        }
    }
}

/// The blocks of a chain as plain values.
pub open spec fn daimo_chain_view(chain: Seq<DaimoBlock>) -> Seq<DaimoBlockView> {
    Seq::new(chain.len(), |k: int| chain[k]@)
}

/// An event found in a chain, with where it was found: the position of its
/// transaction among those paired with a receipt, and its position in the receipt.
#[derive(Clone, Copy, Debug, PartialEq, Eq)]
pub struct DaimoRecord {
    pub block_number: u64,
    pub block_hash: [u8; 32],
    pub tx_index: u64,
    pub tx: DaimoTx,
    pub log_index: u64,
    pub log_address: [u8; 20],
    pub event: DaimoEvent,
}

/// The receipts that are there, in order.
pub open spec fn present(receipts: Seq<Option<Seq<DaimoLog>>>) -> Seq<Seq<DaimoLog>>
    decreases receipts.len(),
{
    if receipts.len() == 0 {
        Seq::empty()
    } else {
        match receipts.last() {
            Some(logs) => present(receipts.drop_last()).push(logs),
            None => present(receipts.drop_last()),
        }
    }
}

/// The records of the first `l` logs of a receipt.
pub open spec fn receipt_records(
    b: DaimoBlockView,
    tx_index: int,
    tx: DaimoTx,
    logs: Seq<DaimoLog>,
    l: int,
) -> Seq<DaimoRecord>
    decreases l,
{
    if l <= 0 {
        Seq::empty()
    } else {
        let log = logs[l - 1];
        receipt_records(b, tx_index, tx, logs, l - 1) + match log.event {
            Some(e) => if log.address@ == name_registry() {
                seq![DaimoRecord {
                    block_number: b.number,
                    block_hash: b.hash,
                    tx_index: tx_index as u64,
                    tx: tx,
                    log_index: (l - 1) as u64,
                    log_address: log.address,
                    event: e,
                }]
            } else {
                Seq::empty()
            },
            None => Seq::empty(),
        }
    }
}

/// The number of transactions of a block paired with a receipt that is there.
pub open spec fn daimo_paired(b: DaimoBlockView) -> int {
    let r = present(b.receipts).len();
    if b.transactions.len() <= r {
        b.transactions.len() as int
    } else {
        r as int
    }
}

/// The records of the first `k` paired transactions of a block.
pub open spec fn daimo_block_records(b: DaimoBlockView, k: int) -> Seq<DaimoRecord>
    decreases k,
{
    if k <= 0 {
        Seq::empty()
    } else {
        let logs = present(b.receipts)[k - 1];
        daimo_block_records(b, k - 1) + receipt_records(
            b,
            k - 1,
            b.transactions[k - 1],
            logs,
            logs.len() as int,
        )
    }
}

/// The records of a chain, block by block.
pub open spec fn daimo_chain_records(chain: Seq<DaimoBlockView>) -> Seq<DaimoRecord>
    decreases chain.len(),
{
    if chain.len() == 0 {
        Seq::empty()
    } else {
        daimo_chain_records(chain.drop_last()) + daimo_block_records(
            chain.last(),
            daimo_paired(chain.last()),
        )
    }
}

/// The receipts of a block that are there, in order.
fn present_receipts(receipts: &Vec<Option<Vec<DaimoLog>>>) -> (r: Vec<&Vec<DaimoLog>>)
    ensures
        r@.len() == present(
            Seq::new(
                receipts@.len(),
                |k: int|
                    match receipts@[k] {
                        Some(logs) => Some(logs@),
                        None => None,
                    },
            ),
        ).len(),
        forall|j: int|
            0 <= j < r@.len() ==> (#[trigger] r@[j])@ == present(
                Seq::new(
                    receipts@.len(),
                    |k: int|
                        match receipts@[k] {
                            Some(logs) => Some(logs@),
                            None => None,
                        },
                ),
            )[j],
{
    let ghost all = Seq::new(
        receipts@.len(),
        |k: int|
            match receipts@[k] {
                Some(logs) => Some(logs@),
                None => None,
            },
    );
    let mut out: Vec<&Vec<DaimoLog>> = Vec::new();
    let n = receipts.len();
    let mut i: usize = 0;
    assert(all.subrange(0, 0) =~= Seq::<Option<Seq<DaimoLog>>>::empty());
    while i < n
        invariant
            n == receipts@.len(),
            i <= n,
            all.len() == n,
            forall|k: int|
                0 <= k < n ==> #[trigger] all[k] == match receipts@[k] {
                    Some(logs) => Some(logs@),
                    None => None,
                },
            out@.len() == present(all.subrange(0, i as int)).len(),
            forall|j: int|
                0 <= j < out@.len() ==> (#[trigger] out@[j])@ == present(
                    all.subrange(0, i as int),
                )[j],
        decreases n - i,
    {
        assert(all.subrange(0, i + 1).drop_last() =~= all.subrange(0, i as int));
        assert(all.subrange(0, i + 1).last() == all[i as int]);
        match &receipts[i] {
            Some(logs) => {
                out.push(logs);
            },
            None => {},
        }
        i = i + 1;
    }
    assert(all.subrange(0, n as int) =~= all);
    out
}

/// The registry and token events of a chain, in order.
pub fn decode_daimo_events(chain: &[DaimoBlock]) -> (r: Vec<DaimoRecord>)
    ensures
        r@ == daimo_chain_records(daimo_chain_view(chain@)),
{
    let ghost blocks = daimo_chain_view(chain@);
    let registry = name_registry_address();
    let mut out: Vec<DaimoRecord> = Vec::new();
    let n = chain.len();
    let mut i: usize = 0;
    assert(blocks.subrange(0, 0) =~= Seq::<DaimoBlockView>::empty());
    while i < n
        invariant
            n == chain@.len(),
            blocks == daimo_chain_view(chain@),
            registry@ == name_registry(),
            i <= n,
            out@ == daimo_chain_records(blocks.subrange(0, i as int)),
        decreases n - i,
    {
        let block = &chain[i];
        let ghost bv = block@;
        assert(bv == blocks[i as int]);
        let receipts = present_receipts(&block.receipts);
        let txs = block.transactions.len();
        let m: usize = if txs <= receipts.len() {
            txs
        } else {
            receipts.len()
        };
        assert(m == daimo_paired(bv));
        let ghost before = out@;
        let mut k: usize = 0;
        while k < m
            invariant
                bv == block@,
                registry@ == name_registry(),
                m == daimo_paired(bv),
                m <= block.transactions@.len(),
                m <= receipts@.len(),
                receipts@.len() == present(bv.receipts).len(),
                forall|j: int|
                    0 <= j < receipts@.len() ==> (#[trigger] receipts@[j])@ == present(
                        bv.receipts,
                    )[j],
                k <= m,
                out@ == before + daimo_block_records(bv, k as int),
            decreases m - k,
        {
            let tx = block.transactions[k];
            let logs: &Vec<DaimoLog> = receipts[k];
            assert(logs@ == present(bv.receipts)[k as int]);
            let ghost before_tx = out@;
            let count = logs.len();
            let mut l: usize = 0;
            while l < count
                invariant
                    bv == block@,
                    registry@ == name_registry(),
                    count == logs@.len(),
                    k < m,
                    m <= block.transactions@.len(),
                    tx == bv.transactions[k as int],
                    l <= count,
                    out@ == before_tx + receipt_records(bv, k as int, tx, logs@, l as int),
                decreases count - l,
            {
                let log = logs[l];
                let ghost prev = out@;
                match log.event {
                    Some(e) => {
                        if same_bytes(&log.address, &registry) {
                            out.push(
                                DaimoRecord {
                                    block_number: block.number,
                                    block_hash: block.hash,
                                    tx_index: k as u64,
                                    tx,
                                    log_index: l as u64,
                                    log_address: log.address,
                                    event: e,
                                },
                            );
                        }
                    },
                    None => {},
                }
                assert(out@ =~= before_tx + receipt_records(bv, k as int, tx, logs@, l + 1));
                l = l + 1;
            }
            k = k + 1;
        }
        assert(blocks.subrange(0, i + 1).drop_last() =~= blocks.subrange(0, i as int));
        i = i + 1;
    }
    assert(blocks.subrange(0, n as int) =~= blocks);
    out
}


/// A row of the names table.
#[derive(Clone, Copy, Debug, PartialEq, Eq)]
pub struct NameRow {
    pub chain_id: i32,
    pub block_number: i32,
    pub block_hash: [u8; 32],
    pub tx_index: i32,
    pub tx_hash: [u8; 32],
    pub log_address: [u8; 20],
    pub log_index: i32,
    pub name: [u8; 32],
    pub addr: [u8; 20],
}

/// A row of the transfers table.
#[derive(Clone, Copy, Debug, PartialEq, Eq)]
pub struct TransferRow {
    pub chain_id: i32,
    pub block_number: i32,
    pub block_hash: [u8; 32],
    pub tx_index: i32,
    pub tx_hash: [u8; 32],
    pub log_address: [u8; 20],
    pub log_index: i32,
    pub from: [u8; 20],
    pub to: [u8; 20],
    pub amount: [u8; 32],
}

/// What the host does for a notification: run a statement, or report the height
/// below which blocks are no longer needed.
#[derive(Clone, Copy, Debug, PartialEq, Eq)]
pub enum DaimoAction {
    /// Delete the transfer rows of a transaction.
    DeleteTransfers { tx_hash: [u8; 32] },
    /// Delete the name rows of a transaction.
    DeleteNames { tx_hash: [u8; 32] },
    /// Insert a transfer row.
    InsertTransfer(TransferRow),
    /// Insert a name row.
    InsertName(NameRow),
    /// Report the height of the committed chain's tip as finished.
    FinishedHeight(u64),
}

/// The chain id column: the transaction's chain id as a 32-bit integer (its low
/// bits), or 0 where it has none.
pub open spec fn chain_id_column(tx: DaimoTx) -> i32 {
    match tx.chain_id {
        Some(c) => c as i32,
        None => 0,
    }
}

/// What reverting a record does.
pub open spec fn revert_action(r: DaimoRecord) -> Seq<DaimoAction> {
    match r.event {
        DaimoEvent::Transfer { .. } => seq![DaimoAction::DeleteTransfers { tx_hash: r.tx.hash }],
        DaimoEvent::Registered { .. } => seq![DaimoAction::DeleteNames { tx_hash: r.tx.hash }],
        DaimoEvent::Other => Seq::empty(),
    }
}

/// What reverting records does, in order.
pub open spec fn revert_actions(recs: Seq<DaimoRecord>) -> Seq<DaimoAction>
    decreases recs.len(),
{
    if recs.len() == 0 {
        Seq::empty()
    } else {
        revert_actions(recs.drop_last()) + revert_action(recs.last())
    }
}

/// What committing a record does: insert its row, where it has one.
pub open spec fn commit_action(r: DaimoRecord) -> Seq<DaimoAction> {
    match r.event {
        DaimoEvent::Transfer { from, to, value } => seq![
            DaimoAction::InsertTransfer(
                TransferRow {
                    chain_id: chain_id_column(r.tx),
                    block_number: r.block_number as i32,
                    block_hash: r.block_hash,
                    tx_index: r.tx_index as i32,
                    tx_hash: r.tx.hash,
                    log_address: r.log_address,
                    log_index: r.log_index as i32,
                    from,
                    to,
                    amount: value,
                },
            ),
        ],
        DaimoEvent::Registered { name, addr } => seq![
            DaimoAction::InsertName(
                NameRow {
                    chain_id: chain_id_column(r.tx),
                    block_number: r.block_number as i32,
                    block_hash: r.block_hash,
                    tx_index: r.tx_index as i32,
                    tx_hash: r.tx.hash,
                    log_address: r.log_address,
                    log_index: r.log_index as i32,
                    name,
                    addr,
                },
            ),
        ],
        DaimoEvent::Other => Seq::empty(),
    }
}

/// The rows that committing records inserts, in order.
pub open spec fn row_actions(recs: Seq<DaimoRecord>) -> Seq<DaimoAction>
    decreases recs.len(),
{
    if recs.len() == 0 {
        Seq::empty()
    } else {
        row_actions(recs.drop_last()) + commit_action(recs.last())
    }
}

/// What committing the records of a chain whose tip is at `tip` does: insert their
/// rows, in order, and then report the tip's height as finished, once.
pub open spec fn commit_actions(recs: Seq<DaimoRecord>, tip: u64) -> Seq<DaimoAction> {
    row_actions(recs).push(DaimoAction::FinishedHeight(tip))
}

/// The chain id column of a transaction.
fn chain_id_of(tx: &DaimoTx) -> (c: i32)
    ensures
        c == chain_id_column(*tx),
{
    match tx.chain_id {
        Some(c) => c as i32,
        None => 0,
    }
}

/// The actions that revert records, in order.
pub fn daimo_revert_actions(records: &[DaimoRecord]) -> (r: Vec<DaimoAction>)
    ensures
        r@ == revert_actions(records@),
{
    let mut out: Vec<DaimoAction> = Vec::new();
    let n = records.len();
    let mut i: usize = 0;
    assert(records@.subrange(0, 0) =~= Seq::<DaimoRecord>::empty());
    while i < n
        invariant
            n == records@.len(),
            i <= n,
            out@ == revert_actions(records@.subrange(0, i as int)),
        decreases n - i,
    {
        let r = records[i];
        let ghost prev = out@;
        match r.event {
            DaimoEvent::Transfer { .. } => out.push(DaimoAction::DeleteTransfers { tx_hash: r.tx.hash }),
            DaimoEvent::Registered { .. } => out.push(DaimoAction::DeleteNames { tx_hash: r.tx.hash }),
            DaimoEvent::Other => {},
        }
        assert(records@.subrange(0, i + 1).drop_last() =~= records@.subrange(0, i as int));
        assert(out@ =~= prev + revert_action(r));
        i = i + 1;
    }
    assert(records@.subrange(0, n as int) =~= records@);
    out
}

/// The actions that commit records of a chain whose tip is at `tip`, in order.
pub fn daimo_commit_actions(records: &[DaimoRecord], tip: u64) -> (r: Vec<DaimoAction>)
    ensures
        r@ == commit_actions(records@, tip),
{
    let mut out: Vec<DaimoAction> = Vec::new();
    let n = records.len();
    let mut i: usize = 0;
    assert(records@.subrange(0, 0) =~= Seq::<DaimoRecord>::empty());
    while i < n
        invariant
            n == records@.len(),
            i <= n,
            out@ == row_actions(records@.subrange(0, i as int)),
        decreases n - i,
    {
        let r = records[i];
        let ghost prev = out@;
        let chain_id = chain_id_of(&r.tx);
        match r.event {
            DaimoEvent::Transfer { from, to, value } => out.push(
                DaimoAction::InsertTransfer(
                    TransferRow {
                        chain_id,
                        block_number: r.block_number as i32,
                        block_hash: r.block_hash,
                        tx_index: r.tx_index as i32,
                        tx_hash: r.tx.hash,
                        log_address: r.log_address,
                        log_index: r.log_index as i32,
                        from,
                        to,
                        amount: value,
                    },
                ),
            ),
            DaimoEvent::Registered { name, addr } => out.push(
                DaimoAction::InsertName(
                    NameRow {
                        chain_id,
                        block_number: r.block_number as i32,
                        block_hash: r.block_hash,
                        tx_index: r.tx_index as i32,
                        tx_hash: r.tx.hash,
                        log_address: r.log_address,
                        log_index: r.log_index as i32,
                        name,
                        addr,
                    },
                ),
            ),
            DaimoEvent::Other => {},
        }
        assert(records@.subrange(0, i + 1).drop_last() =~= records@.subrange(0, i as int));
        assert(out@ =~= prev + commit_action(r));
        i = i + 1;
    }
    assert(records@.subrange(0, n as int) =~= records@);
    out.push(DaimoAction::FinishedHeight(tip));
    out
}

/// The two tables as plain values, rows in the order they were inserted.
pub struct DaimoTables {
    pub names: Seq<NameRow>,
    pub transfers: Seq<TransferRow>,
}

/// `rows` without those whose key is `h`.
pub open spec fn drop_key<R>(rows: Seq<R>, key: spec_fn(R) -> [u8; 32], h: [u8; 32]) -> Seq<R>
    decreases rows.len(),
{
    if rows.len() == 0 {
        Seq::empty()
    } else {
        drop_key(rows.drop_last(), key, h) + if key(rows.last()) == h {
            Seq::empty()
        } else {
            seq![rows.last()]
        }
    }
}

/// `rows` without those whose key is among `hs`.
pub open spec fn drop_keys<R>(rows: Seq<R>, key: spec_fn(R) -> [u8; 32], hs: Seq<[u8; 32]>) -> Seq<R>
    decreases rows.len(),
{
    if rows.len() == 0 {
        Seq::empty()
    } else {
        drop_keys(rows.drop_last(), key, hs) + if hs.contains(key(rows.last())) {
            Seq::empty()
        } else {
            seq![rows.last()]
        }
    }
}

/// The key of a name row: its transaction hash.
pub open spec fn name_key() -> spec_fn(NameRow) -> [u8; 32] {
    |r: NameRow| r.tx_hash
}

/// The key of a transfer row: its transaction hash.
pub open spec fn transfer_key() -> spec_fn(TransferRow) -> [u8; 32] {
    |r: TransferRow| r.tx_hash
}

/// What an action does to the tables: a deletion takes out every row of its
/// transaction in its table, an insertion appends a row.
pub open spec fn apply_action(t: DaimoTables, a: DaimoAction) -> DaimoTables {
    match a {
        DaimoAction::DeleteTransfers { tx_hash } => DaimoTables {
            names: t.names,
            transfers: drop_key(t.transfers, transfer_key(), tx_hash),
        },
        DaimoAction::DeleteNames { tx_hash } => DaimoTables {
            names: drop_key(t.names, name_key(), tx_hash),
            transfers: t.transfers,
        },
        DaimoAction::InsertTransfer(row) => DaimoTables { names: t.names, transfers: t.transfers.push(row) },
        DaimoAction::InsertName(row) => DaimoTables { names: t.names.push(row), transfers: t.transfers },
        DaimoAction::FinishedHeight(_) => t,
    }
}

/// What actions do, one after the other.
pub open spec fn apply_actions(t: DaimoTables, acts: Seq<DaimoAction>) -> DaimoTables
    decreases acts.len(),
{
    if acts.len() == 0 {
        t
    } else {
        apply_action(apply_actions(t, acts.drop_last()), acts.last())
    }
}

/// The transaction hashes of the registrations among records, in order.
pub open spec fn name_hashes(recs: Seq<DaimoRecord>) -> Seq<[u8; 32]>
    decreases recs.len(),
{
    if recs.len() == 0 {
        Seq::empty()
    } else if recs.last().event is Registered {
        name_hashes(recs.drop_last()).push(recs.last().tx.hash)
    } else {
        name_hashes(recs.drop_last())
    }
}

/// The transaction hashes of the transfers among records, in order.
pub open spec fn transfer_hashes(recs: Seq<DaimoRecord>) -> Seq<[u8; 32]>
    decreases recs.len(),
{
    if recs.len() == 0 {
        Seq::empty()
    } else if recs.last().event is Transfer {
        transfer_hashes(recs.drop_last()).push(recs.last().tx.hash)
    } else {
        transfer_hashes(recs.drop_last())
    }
}

proof fn lemma_apply_concat(t: DaimoTables, a: Seq<DaimoAction>, b: Seq<DaimoAction>)
    ensures
        apply_actions(t, a + b) == apply_actions(apply_actions(t, a), b),
    decreases b.len(),
{
    if b.len() == 0 {
        assert(a + b =~= a);
    } else {
        assert((a + b).drop_last() =~= a + b.drop_last());
        lemma_apply_concat(t, a, b.drop_last());
    }
}

proof fn lemma_drop_key_step<R>(rows: Seq<R>, key: spec_fn(R) -> [u8; 32], hs: Seq<[u8; 32]>, h: [u8; 32])
    ensures
        drop_key(drop_keys(rows, key, hs), key, h) == drop_keys(rows, key, hs.push(h)),
    decreases rows.len(),
{
    if rows.len() > 0 {
        let init = rows.drop_last();
        lemma_drop_key_step(init, key, hs, h);
        let kept = drop_keys(init, key, hs);
        let last = rows.last();
        assert(hs.push(h).contains(key(last)) == (hs.contains(key(last)) || key(last) == h)) by {
            if hs.push(h).contains(key(last)) {
                let j = choose|j: int| 0 <= j < hs.push(h).len() && hs.push(h)[j] == key(last);
                if j < hs.len() {
                    assert(hs[j] == key(last));
                }
            }
            if hs.contains(key(last)) {
                let j = choose|j: int| 0 <= j < hs.len() && hs[j] == key(last);
                assert(hs.push(h)[j] == key(last));
            }
            if key(last) == h {
                assert(hs.push(h)[hs.len() as int] == key(last));
            }
        }
        if hs.contains(key(last)) {
            assert(drop_keys(rows, key, hs) =~= kept);
        } else {
            let with_last = kept + seq![last];
            assert(drop_keys(rows, key, hs) =~= with_last);
            assert(with_last.drop_last() =~= kept);
            assert(with_last.last() == last);
        }
        assert(drop_key(drop_keys(rows, key, hs), key, h) =~= drop_keys(rows, key, hs.push(h)));
    }
}

proof fn lemma_drop_keys_concat<R>(a: Seq<R>, b: Seq<R>, key: spec_fn(R) -> [u8; 32], hs: Seq<[u8; 32]>)
    ensures
        drop_keys(a + b, key, hs) == drop_keys(a, key, hs) + drop_keys(b, key, hs),
    decreases b.len(),
{
    if b.len() == 0 {
        assert(a + b =~= a);
        assert(drop_keys(a, key, hs) + drop_keys(b, key, hs) =~= drop_keys(a, key, hs));
    } else {
        assert((a + b).drop_last() =~= a + b.drop_last());
        assert((a + b).last() == b.last());
        lemma_drop_keys_concat(a, b.drop_last(), key, hs);
        assert(drop_keys(a + b, key, hs) =~= drop_keys(a, key, hs) + drop_keys(b, key, hs));
    }
}

proof fn lemma_drop_keys_none<R>(rows: Seq<R>, key: spec_fn(R) -> [u8; 32], hs: Seq<[u8; 32]>)
    requires
        forall|i: int| 0 <= i < rows.len() ==> !hs.contains(key(#[trigger] rows[i])),
    ensures
        drop_keys(rows, key, hs) == rows,
    decreases rows.len(),
{
    if rows.len() > 0 {
        let init = rows.drop_last();
        assert forall|i: int| 0 <= i < init.len() implies !hs.contains(key(#[trigger] init[i])) by {
            assert(init[i] == rows[i]);
        }
        lemma_drop_keys_none(init, key, hs);
        assert(!hs.contains(key(rows[rows.len() - 1])));
        assert(drop_keys(rows, key, hs) =~= rows);
    }
}

proof fn lemma_drop_keys_all<R>(rows: Seq<R>, key: spec_fn(R) -> [u8; 32], hs: Seq<[u8; 32]>)
    requires
        forall|i: int| 0 <= i < rows.len() ==> hs.contains(key(#[trigger] rows[i])),
    ensures
        drop_keys(rows, key, hs) == Seq::<R>::empty(),
    decreases rows.len(),
{
    if rows.len() > 0 {
        let init = rows.drop_last();
        assert forall|i: int| 0 <= i < init.len() implies hs.contains(key(#[trigger] init[i])) by {
            assert(init[i] == rows[i]);
        }
        lemma_drop_keys_all(init, key, hs);
        assert(hs.contains(key(rows[rows.len() - 1])));
        assert(drop_keys(rows, key, hs) =~= Seq::<R>::empty());
    }
}

/// The name rows and transfer rows that committing records inserts, in order.
pub open spec fn inserted(recs: Seq<DaimoRecord>) -> DaimoTables {
    apply_actions(DaimoTables { names: Seq::empty(), transfers: Seq::empty() }, row_actions(recs))
}

proof fn lemma_commit_appends(t: DaimoTables, recs: Seq<DaimoRecord>)
    ensures
        apply_actions(t, row_actions(recs)).names == t.names + inserted(recs).names,
        apply_actions(t, row_actions(recs)).transfers == t.transfers + inserted(recs).transfers,
        forall|i: int| 0 <= i < inserted(recs).names.len() ==> name_hashes(recs).contains(
            (#[trigger] inserted(recs).names[i]).tx_hash),
        forall|i: int| 0 <= i < inserted(recs).transfers.len() ==> transfer_hashes(recs).contains(
            (#[trigger] inserted(recs).transfers[i]).tx_hash),
    decreases recs.len(),
{
    let e = DaimoTables { names: Seq::empty(), transfers: Seq::empty() };
    if recs.len() == 0 {
        assert(t.names + e.names =~= t.names);
        assert(t.transfers + e.transfers =~= t.transfers);
    } else {
        let init = recs.drop_last();
        let last = recs.last();
        lemma_commit_appends(t, init);
        lemma_apply_concat(t, row_actions(init), commit_action(last));
        lemma_apply_concat(e, row_actions(init), commit_action(last));
        let a = commit_action(last);
        reveal_with_fuel(apply_actions, 3);
        let t1 = apply_actions(t, row_actions(init));
        let e1 = apply_actions(e, row_actions(init));
        assert forall|i: int| 0 <= i < name_hashes(init).len() implies name_hashes(recs).contains(
            #[trigger] name_hashes(init)[i]) by {
            assert(name_hashes(recs)[i] == name_hashes(init)[i]);
        }
        assert forall|i: int| 0 <= i < transfer_hashes(init).len() implies transfer_hashes(recs).contains(
            #[trigger] transfer_hashes(init)[i]) by {
            assert(transfer_hashes(recs)[i] == transfer_hashes(init)[i]);
        }
        match last.event {
            DaimoEvent::Registered { .. } => {
                assert(a.drop_last() =~= Seq::<DaimoAction>::empty());
                let row = choose|r: NameRow| a[0] == DaimoAction::InsertName(r);
                assert(apply_actions(t1, a).names =~= t1.names.push(row));
                assert(apply_actions(e1, a).names =~= e1.names.push(row));
                assert(apply_actions(t1, a).transfers =~= t1.transfers);
                assert(apply_actions(e1, a).transfers =~= e1.transfers);
                assert(name_hashes(recs)[name_hashes(recs).len() - 1] == last.tx.hash);
            },
            DaimoEvent::Transfer { .. } => {
                assert(a.drop_last() =~= Seq::<DaimoAction>::empty());
                let row = choose|r: TransferRow| a[0] == DaimoAction::InsertTransfer(r);
                assert(apply_actions(t1, a).transfers =~= t1.transfers.push(row));
                assert(apply_actions(e1, a).transfers =~= e1.transfers.push(row));
                assert(apply_actions(t1, a).names =~= t1.names);
                assert(apply_actions(e1, a).names =~= e1.names);
                assert(transfer_hashes(recs)[transfer_hashes(recs).len() - 1] == last.tx.hash);
            },
            DaimoEvent::Other => {
                assert(a =~= Seq::<DaimoAction>::empty());
                assert(row_actions(recs) =~= row_actions(init));
            },
        }
        assert(apply_actions(t, row_actions(recs)).names =~= t.names + inserted(recs).names);
        assert(apply_actions(t, row_actions(recs)).transfers =~= t.transfers + inserted(recs).transfers);
    }
}

proof fn lemma_revert_drops(u: DaimoTables, recs: Seq<DaimoRecord>)
    ensures
        apply_actions(u, revert_actions(recs)).names == drop_keys(u.names, name_key(), name_hashes(recs)),
        apply_actions(u, revert_actions(recs)).transfers == drop_keys(
            u.transfers,
            transfer_key(),
            transfer_hashes(recs),
        ),
    decreases recs.len(),
{
    if recs.len() == 0 {
        lemma_drop_keys_none(u.names, name_key(), Seq::empty());
        lemma_drop_keys_none(u.transfers, transfer_key(), Seq::empty());
    } else {
        let init = recs.drop_last();
        let last = recs.last();
        lemma_revert_drops(u, init);
        lemma_apply_concat(u, revert_actions(init), revert_action(last));
        let u1 = apply_actions(u, revert_actions(init));
        let a = revert_action(last);
        reveal_with_fuel(apply_actions, 2);
        match last.event {
            DaimoEvent::Registered { .. } => {
                assert(a.drop_last() =~= Seq::<DaimoAction>::empty());
                lemma_drop_key_step(u.names, name_key(), name_hashes(init), last.tx.hash);
            },
            DaimoEvent::Transfer { .. } => {
                assert(a.drop_last() =~= Seq::<DaimoAction>::empty());
                lemma_drop_key_step(u.transfers, transfer_key(), transfer_hashes(init), last.tx.hash);
            },
            DaimoEvent::Other => {
                assert(a =~= Seq::<DaimoAction>::empty());
                assert(revert_actions(recs) =~= revert_actions(init));
            },
        }
    }
}

/// Committing the registrations and transfers of a chain and then reverting the
/// same chain leaves the tables as they were, wherever no name row there was has
/// the transaction of one of the chain's registrations and no transfer row there
/// was has the transaction of one of its transfers. Elsewhere it cannot hold: a
/// revert takes out every row of a transaction in its table, old ones too.
pub proof fn lemma_daimo_commit_then_revert(t: DaimoTables, recs: Seq<DaimoRecord>, tip: u64)
    requires
        forall|i: int| 0 <= i < t.names.len() ==> !name_hashes(recs).contains((#[trigger] t.names[i]).tx_hash),
        forall|i: int| 0 <= i < t.transfers.len() ==> !transfer_hashes(recs).contains(
            (#[trigger] t.transfers[i]).tx_hash),
    ensures
        apply_actions(apply_actions(t, commit_actions(recs, tip)), revert_actions(recs)) == t,
{
    let c = apply_actions(t, commit_actions(recs, tip));
    let ins = inserted(recs);
    lemma_commit_appends(t, recs);
    reveal_with_fuel(apply_actions, 2);
    assert(commit_actions(recs, tip).drop_last() =~= row_actions(recs));
    lemma_revert_drops(c, recs);
    lemma_drop_keys_concat(t.names, ins.names, name_key(), name_hashes(recs));
    lemma_drop_keys_concat(t.transfers, ins.transfers, transfer_key(), transfer_hashes(recs));
    lemma_drop_keys_none(t.names, name_key(), name_hashes(recs));
    lemma_drop_keys_none(t.transfers, transfer_key(), transfer_hashes(recs));
    lemma_drop_keys_all(ins.names, name_key(), name_hashes(recs));
    lemma_drop_keys_all(ins.transfers, transfer_key(), transfer_hashes(recs));
    let r = apply_actions(c, revert_actions(recs));
    assert(r.names =~= t.names);
    assert(r.transfers =~= t.transfers);
}

proof fn lemma_rows_report_nothing(recs: Seq<DaimoRecord>)
    ensures
        forall|i: int| 0 <= i < row_actions(recs).len() ==> !(#[trigger] row_actions(recs)[i] is FinishedHeight),
    decreases recs.len(),
{
    if recs.len() > 0 {
        let init = recs.drop_last();
        lemma_rows_report_nothing(init);
        let a = commit_action(recs.last());
        assert forall|i: int| 0 <= i < row_actions(recs).len() implies !(#[trigger] row_actions(
            recs,
        )[i] is FinishedHeight) by {
            if i < row_actions(init).len() {
                assert(row_actions(recs)[i] == row_actions(init)[i]);
            } else {
                assert(row_actions(recs)[i] == a[i - row_actions(init).len()]);
            }
        }
    }
}

/// Committing a chain reports its tip's height as finished exactly once, after all
/// of its rows, whether or not it holds any registration or transfer.
pub proof fn lemma_daimo_tip_reported_once(recs: Seq<DaimoRecord>, tip: u64)
    ensures
        commit_actions(recs, tip).len() >= 1,
        commit_actions(recs, tip).last() == DaimoAction::FinishedHeight(tip),
        forall|i: int|
            0 <= i < commit_actions(recs, tip).len() - 1 ==> !(#[trigger] commit_actions(recs, tip)[i] is FinishedHeight),
{
    lemma_rows_report_nothing(recs);
    assert forall|i: int|
        0 <= i < commit_actions(recs, tip).len() - 1 implies !(#[trigger] commit_actions(recs, tip)[i] is FinishedHeight) by {
        assert(commit_actions(recs, tip)[i] == row_actions(recs)[i]);
    }
}

/// What a notification makes the host do: take out the rows of the reverted
/// chain's registrations and transfers, if any; then insert the committed chain's
/// rows and report its tip, the number of its last block, as finished, once.
pub open spec fn notification_actions(
    reverted: Option<Seq<DaimoBlockView>>,
    committed: Option<Seq<DaimoBlockView>>,
) -> Seq<DaimoAction> {
    let undo = match reverted {
        Some(c) => revert_actions(daimo_chain_records(c)),
        None => Seq::empty(),
    };
    match committed {
        Some(c) => undo + commit_actions(daimo_chain_records(c), c.last().number),
        None => undo,
    }
}

/// A chain as plain values, where there is one.
pub open spec fn opt_daimo_chain(c: Option<&[DaimoBlock]>) -> Option<Seq<DaimoBlockView>> {
    match c {
        Some(blocks) => Some(daimo_chain_view(blocks@)),
        None => None,
    }
}

/// What a notification makes the host do (see `notification_actions`). A
/// committed chain has at least one block.
pub fn daimo_notification_actions(
    reverted: Option<&[DaimoBlock]>,
    committed: Option<&[DaimoBlock]>,
) -> (r: Vec<DaimoAction>)
    requires
        committed matches Some(c) ==> c@.len() > 0,
    ensures
        r@ == notification_actions(opt_daimo_chain(reverted), opt_daimo_chain(committed)),
{
    let mut out: Vec<DaimoAction> = match reverted {
        Some(chain) => {
            let records = decode_daimo_events(chain);
            daimo_revert_actions(records.as_slice())
        },
        None => Vec::new(),
    };
    assert(out@ =~= match opt_daimo_chain(reverted) {
        Some(c) => revert_actions(daimo_chain_records(c)),
        None => Seq::<DaimoAction>::empty(),
    });
    if let Some(chain) = committed {
        let records = decode_daimo_events(chain);
        let tip = chain[chain.len() - 1].number;
        let ghost before = out@;
        let mut more = daimo_commit_actions(records.as_slice(), tip);
        out.append(&mut more);
        assert(out@ =~= before + commit_actions(daimo_chain_records(daimo_chain_view(chain@)), tip));
    }
    out
}

proof fn lemma_revert_reports_nothing(recs: Seq<DaimoRecord>)
    ensures
        forall|i: int| 0 <= i < revert_actions(recs).len() ==> !(#[trigger] revert_actions(recs)[i] is FinishedHeight),
    decreases recs.len(),
{
    if recs.len() > 0 {
        let init = recs.drop_last();
        lemma_revert_reports_nothing(init);
        let a = revert_action(recs.last());
        assert forall|i: int| 0 <= i < revert_actions(recs).len() implies !(#[trigger] revert_actions(
            recs,
        )[i] is FinishedHeight) by {
            if i < revert_actions(init).len() {
                assert(revert_actions(recs)[i] == revert_actions(init)[i]);
            } else {
                assert(revert_actions(recs)[i] == a[i - revert_actions(init).len()]);
            }
        }
    }
}

/// A notification reports a height exactly where it commits a chain: then once,
/// as its last action, with the number of the chain's last block, whether or not
/// the chain holds any registration or transfer; a pure revert reports nothing.
pub proof fn lemma_daimo_notification_reports_tip(
    reverted: Option<Seq<DaimoBlockView>>,
    committed: Option<Seq<DaimoBlockView>>,
)
    ensures
        committed matches Some(c) ==> notification_actions(reverted, committed).last()
            == DaimoAction::FinishedHeight(c.last().number),
        forall|i: int|
            0 <= i < notification_actions(reverted, committed).len() && (committed is Some ==> i
                < notification_actions(reverted, committed).len() - 1) ==> !((#[trigger] notification_actions(
                reverted,
                committed,
            )[i]) is FinishedHeight),
{
    let undo = match reverted {
        Some(c) => revert_actions(daimo_chain_records(c)),
        None => Seq::<DaimoAction>::empty(),
    };
    match reverted {
        Some(c) => lemma_revert_reports_nothing(daimo_chain_records(c)),
        None => {},
    }
    match committed {
        Some(c) => {
            let recs = daimo_chain_records(c);
            lemma_rows_report_nothing(recs);
            let body = undo + row_actions(recs);
            assert forall|i: int| 0 <= i < body.len() implies !((#[trigger] body[i]) is FinishedHeight) by {
                if i >= undo.len() {
                    assert(body[i] == row_actions(recs)[i - undo.len()]);
                } else {
                    assert(body[i] == undo[i]);
                }
            }
            assert(notification_actions(reverted, committed) =~= body.push(
                DaimoAction::FinishedHeight(c.last().number),
            ));
            assert forall|i: int|
                0 <= i < notification_actions(reverted, committed).len() - 1 implies !((
            #[trigger] notification_actions(reverted, committed)[i]) is FinishedHeight) by {
                assert(notification_actions(reverted, committed)[i] == body[i]);
            }
        },
        None => {},
    }
}

/// The records of a chain are those of its first part followed by those of the
/// rest: no block is dropped, repeated or reordered, whatever the split.
pub proof fn lemma_daimo_chain_records_concat(a: Seq<DaimoBlockView>, b: Seq<DaimoBlockView>)
    ensures
        daimo_chain_records(a + b) == daimo_chain_records(a) + daimo_chain_records(b),
    decreases b.len(),
{
    if b.len() == 0 {
        assert(a + b =~= a);
        assert(daimo_chain_records(a) + daimo_chain_records(b) =~= daimo_chain_records(a));
    } else {
        assert((a + b).drop_last() =~= a + b.drop_last());
        assert((a + b).last() == b.last());
        lemma_daimo_chain_records_concat(a, b.drop_last());
        let last = daimo_block_records(b.last(), daimo_paired(b.last()));
        assert(daimo_chain_records(a + b) =~= daimo_chain_records(a) + daimo_chain_records(b.drop_last())
            + last);
        assert(daimo_chain_records(a) + daimo_chain_records(b) =~= daimo_chain_records(a) + (
        daimo_chain_records(b.drop_last()) + last));
    }
}

/// The records of a one-block chain are those of the block.
pub proof fn lemma_daimo_chain_records_single(blk: DaimoBlockView)
    ensures
        daimo_chain_records(seq![blk]) == daimo_block_records(blk, daimo_paired(blk)),
{
    assert(seq![blk].drop_last() =~= Seq::<DaimoBlockView>::empty());
    assert(seq![blk].last() == blk);
    assert(daimo_chain_records(Seq::<DaimoBlockView>::empty()) == Seq::<DaimoRecord>::empty());
    assert(Seq::<DaimoRecord>::empty() + daimo_block_records(blk, daimo_paired(blk)) =~= daimo_block_records(
        blk,
        daimo_paired(blk),
    ));
}

/// The record that the `l`-th log of the receipt of the `k`-th paired transaction
/// of a block gives.
pub open spec fn log_record(b: DaimoBlockView, k: int, logs: Seq<DaimoLog>, l: int) -> DaimoRecord {
    DaimoRecord {
        block_number: b.number,
        block_hash: b.hash,
        tx_index: k as u64,
        tx: b.transactions[k],
        log_index: l as u64,
        log_address: logs[l].address,
        event: logs[l].event.unwrap(),
    }
}

proof fn lemma_receipt_records_has(b: DaimoBlockView, k: int, logs: Seq<DaimoLog>, n: int, l: int)
    requires
        0 <= l < n <= logs.len(),
        logs[l].event is Some,
        logs[l].address@ == name_registry(),
    ensures
        receipt_records(b, k, b.transactions[k], logs, n).contains(log_record(b, k, logs, l)),
    decreases n,
{
    let x = log_record(b, k, logs, l);
    let log = logs[n - 1];
    let tail = match log.event {
        Some(e) => if log.address@ == name_registry() {
            seq![DaimoRecord {
                block_number: b.number,
                block_hash: b.hash,
                tx_index: k as u64,
                tx: b.transactions[k],
                log_index: (n - 1) as u64,
                log_address: log.address,
                event: e,
            }]
        } else {
            Seq::<DaimoRecord>::empty()
        },
        None => Seq::<DaimoRecord>::empty(),
    };
    if l == n - 1 {
        assert(tail[0] == x);
    } else {
        lemma_receipt_records_has(b, k, logs, n - 1, l);
    }
    lemma_contains_concat(receipt_records(b, k, b.transactions[k], logs, n - 1), tail, x);
}

proof fn lemma_daimo_block_records_has(b: DaimoBlockView, m: int, k: int, x: DaimoRecord)
    requires
        0 <= k < m,
        receipt_records(
            b,
            k,
            b.transactions[k],
            present(b.receipts)[k],
            present(b.receipts)[k].len() as int,
        ).contains(x),
    ensures
        daimo_block_records(b, m).contains(x),
    decreases m,
{
    if k < m - 1 {
        lemma_daimo_block_records_has(b, m - 1, k, x);
    }
    let logs = present(b.receipts)[m - 1];
    lemma_contains_concat(
        daimo_block_records(b, m - 1),
        receipt_records(b, m - 1, b.transactions[m - 1], logs, logs.len() as int),
        x,
    );
}

/// Every registry event of a chain is recorded: for every block, every
/// transaction paired with a receipt that is there (those before the shorter of
/// the transactions and the present receipts ends), and every log of that
/// receipt that the name registry emitted with an event, the chain's records
/// hold it with its block, the transaction's position, the log's position in
/// its receipt, and the event.
pub proof fn lemma_every_daimo_event_recorded(chain: Seq<DaimoBlockView>, i: int, k: int, l: int)
    requires
        0 <= i < chain.len(),
        0 <= k < chain[i].transactions.len(),
        k < present(chain[i].receipts).len(),
        0 <= l < present(chain[i].receipts)[k].len(),
        present(chain[i].receipts)[k][l].event is Some,
        present(chain[i].receipts)[k][l].address@ == name_registry(),
    ensures
        daimo_chain_records(chain).contains(log_record(chain[i], k, present(chain[i].receipts)[k], l)),
    decreases chain.len(),
{
    let b = chain[i];
    let logs = present(b.receipts)[k];
    let x = log_record(b, k, logs, l);
    if i == chain.len() - 1 {
        lemma_receipt_records_has(b, k, logs, logs.len() as int, l);
        lemma_daimo_block_records_has(b, daimo_paired(b), k, x);
        lemma_contains_concat(daimo_chain_records(chain.drop_last()), daimo_block_records(b, daimo_paired(b)), x);
    } else {
        assert(chain.drop_last()[i] == b);
        lemma_every_daimo_event_recorded(chain.drop_last(), i, k, l);
        lemma_contains_concat(
            daimo_chain_records(chain.drop_last()),
            daimo_block_records(chain.last(), daimo_paired(chain.last())),
            x,
        );
    }
}

/// The receipts that are there, of a list split in two, are those of the first
/// part followed by those of the second: a missing receipt is skipped and every
/// present one kept, in order.
pub proof fn lemma_present_concat(a: Seq<Option<Seq<DaimoLog>>>, b: Seq<Option<Seq<DaimoLog>>>)
    ensures
        present(a + b) == present(a) + present(b),
    decreases b.len(),
{
    if b.len() == 0 {
        assert(a + b =~= a);
        assert(present(a) + present(b) =~= present(a));
    } else {
        assert((a + b).drop_last() =~= a + b.drop_last());
        assert((a + b).last() == b.last());
        lemma_present_concat(a, b.drop_last());
        match b.last() {
            Some(logs) => {
                assert(present(a + b) =~= present(a) + present(b.drop_last()).push(logs));
            },
            None => {},
        }
    }
}

/// A present receipt is kept, a missing one skipped.
pub proof fn lemma_present_single(r: Option<Seq<DaimoLog>>)
    ensures
        present(seq![r]) == match r {
            Some(logs) => seq![logs],
            None => Seq::<Seq<DaimoLog>>::empty(),
        },
{
    assert(seq![r].drop_last() =~= Seq::<Option<Seq<DaimoLog>>>::empty());
    assert(seq![r].last() == r);
    assert(present(Seq::<Option<Seq<DaimoLog>>>::empty()) == Seq::<Seq<DaimoLog>>::empty());
    if let Some(logs) = r {
        assert(Seq::<Seq<DaimoLog>>::empty().push(logs) =~= seq![logs]);
    }
}

/// The rows that committing records inserts are those of each record, in order:
/// the actions of records split in two are those of the first part followed by
/// those of the second, and one record gives its own.
pub proof fn lemma_row_actions_concat(a: Seq<DaimoRecord>, b: Seq<DaimoRecord>, r: DaimoRecord)
    ensures
        row_actions(a + b) == row_actions(a) + row_actions(b),
        row_actions(seq![r]) == commit_action(r),
    decreases b.len(),
{
    assert(seq![r].drop_last() =~= Seq::<DaimoRecord>::empty());
    assert(seq![r].last() == r);
    assert(row_actions(Seq::<DaimoRecord>::empty()) == Seq::<DaimoAction>::empty());
    assert(Seq::<DaimoAction>::empty() + commit_action(r) =~= commit_action(r));
    if b.len() == 0 {
        assert(a + b =~= a);
        assert(row_actions(a) + row_actions(b) =~= row_actions(a));
    } else {
        assert((a + b).drop_last() =~= a + b.drop_last());
        assert((a + b).last() == b.last());
        lemma_row_actions_concat(a, b.drop_last(), r);
        assert(row_actions(a + b) =~= row_actions(a) + row_actions(b.drop_last()) + commit_action(b.last()));
        assert(row_actions(a) + row_actions(b) =~= row_actions(a) + (row_actions(b.drop_last()) + commit_action(b.last())));
    }
}

/// The deletions that reverting records makes are those of each record, in order:
/// the actions of records split in two are those of the first part followed by
/// those of the second, and one record gives its own.
pub proof fn lemma_revert_actions_concat(a: Seq<DaimoRecord>, b: Seq<DaimoRecord>, r: DaimoRecord)
    ensures
        revert_actions(a + b) == revert_actions(a) + revert_actions(b),
        revert_actions(seq![r]) == revert_action(r),
    decreases b.len(),
{
    assert(seq![r].drop_last() =~= Seq::<DaimoRecord>::empty());
    assert(seq![r].last() == r);
    assert(revert_actions(Seq::<DaimoRecord>::empty()) == Seq::<DaimoAction>::empty());
    assert(Seq::<DaimoAction>::empty() + revert_action(r) =~= revert_action(r));
    if b.len() == 0 {
        assert(a + b =~= a);
        assert(revert_actions(a) + revert_actions(b) =~= revert_actions(a));
    } else {
        assert((a + b).drop_last() =~= a + b.drop_last());
        assert((a + b).last() == b.last());
        lemma_revert_actions_concat(a, b.drop_last(), r);
        assert(revert_actions(a + b) =~= revert_actions(a) + revert_actions(b.drop_last()) + revert_action(b.last()));
        assert(revert_actions(a) + revert_actions(b) =~= revert_actions(a) + (revert_actions(b.drop_last()) + revert_action(b.last())));
    }
}

} // verus!
