//! Indexing ETH bridged through the L1 standard bridges of OP Stack chains:
//! which receipt logs count, the rows that a committed chain adds to the
//! deposits and withdrawals tables, and the rows that a reverted chain takes out.
//! The host decodes logs and runs the statements against its database.
use vstd::prelude::*;
use crate::bytes::same_bytes;
use crate::seq_facts::lemma_contains_concat;

verus! {

/// The L1 standard bridge contracts whose events are indexed (Base, Blast twice,
/// Optimism, Mode, Manta).
pub open spec fn op_bridges() -> Seq<Seq<u8>> {
    seq![
        seq![0x31u8, 0x54, 0xcf, 0x16, 0xcc, 0xdb, 0x4c, 0x6d, 0x92, 0x26, 0x29, 0x66, 0x41, 0x74, 0xb9, 0x04, 0xd8, 0x0f, 0x2c, 0x35],
        seq![0x3au8, 0x05, 0xe5, 0xd3, 0x3d, 0x7a, 0xb3, 0x86, 0x4d, 0x53, 0xaa, 0xec, 0x93, 0xc8, 0x30, 0x1c, 0x1f, 0xa4, 0x91, 0x15],
        seq![0x69u8, 0x74, 0x02, 0x16, 0x6f, 0xbf, 0x2f, 0x22, 0xe9, 0x70, 0xdf, 0x8a, 0x64, 0x86, 0xef, 0x17, 0x1d, 0xbf, 0xc5, 0x24],
        seq![0x99u8, 0xc9, 0xfc, 0x46, 0xf9, 0x2e, 0x8a, 0x1c, 0x0d, 0xec, 0x1b, 0x17, 0x47, 0xd0, 0x10, 0x90, 0x3e, 0x88, 0x4b, 0xe1],
        seq![0x73u8, 0x5a, 0xdb, 0xbe, 0x72, 0x22, 0x6b, 0xd5, 0x2e, 0x81, 0x8e, 0x71, 0x81, 0x95, 0x3f, 0x42, 0xe3, 0xb0, 0xff, 0x21],
        seq![0x3bu8, 0x95, 0xbc, 0x95, 0x1e, 0xe0, 0xf5, 0x53, 0xba, 0x48, 0x73, 0x27, 0x27, 0x8c, 0xac, 0x44, 0xf2, 0x97, 0x15, 0xe5],
    ]
}

/// The names of the chains of the bridge contracts, in the same order.
pub open spec fn op_bridge_names() -> Seq<Seq<char>> {
    seq!["Base"@, "Blast"@, "Blast"@, "Optimism"@, "Mode"@, "Manta"@]
}

/// The bridge contract at a position of the list.
pub fn op_bridge(i: usize) -> (a: [u8; 20])
    requires
        i < 6,
    ensures
        a@ == op_bridges()[i as int],
{
    let a: [u8; 20] = if i == 0 {
        [0x31, 0x54, 0xcf, 0x16, 0xcc, 0xdb, 0x4c, 0x6d, 0x92, 0x26, 0x29, 0x66, 0x41, 0x74, 0xb9, 0x04, 0xd8, 0x0f, 0x2c, 0x35]
    } else if i == 1 {
        [0x3a, 0x05, 0xe5, 0xd3, 0x3d, 0x7a, 0xb3, 0x86, 0x4d, 0x53, 0xaa, 0xec, 0x93, 0xc8, 0x30, 0x1c, 0x1f, 0xa4, 0x91, 0x15]
    } else if i == 2 {
        [0x69, 0x74, 0x02, 0x16, 0x6f, 0xbf, 0x2f, 0x22, 0xe9, 0x70, 0xdf, 0x8a, 0x64, 0x86, 0xef, 0x17, 0x1d, 0xbf, 0xc5, 0x24]
    } else if i == 3 {
        [0x99, 0xc9, 0xfc, 0x46, 0xf9, 0x2e, 0x8a, 0x1c, 0x0d, 0xec, 0x1b, 0x17, 0x47, 0xd0, 0x10, 0x90, 0x3e, 0x88, 0x4b, 0xe1]
    } else if i == 4 {
        [0x73, 0x5a, 0xdb, 0xbe, 0x72, 0x22, 0x6b, 0xd5, 0x2e, 0x81, 0x8e, 0x71, 0x81, 0x95, 0x3f, 0x42, 0xe3, 0xb0, 0xff, 0x21]
    } else {
        [0x3b, 0x95, 0xbc, 0x95, 0x1e, 0xe0, 0xf5, 0x53, 0xba, 0x48, 0x73, 0x27, 0x27, 0x8c, 0xac, 0x44, 0xf2, 0x97, 0x15, 0xe5]
    };
    assert(a@ =~= op_bridges()[i as int]);
    a
}

/// Whether `a` is one of the indexed bridge contracts.
pub fn is_op_bridge(a: &[u8; 20]) -> (r: bool)
    ensures
        r == op_bridges().contains(a@),
{
    let mut i: usize = 0;
    while i < 6
        invariant
            i <= 6,
            forall|j: int| 0 <= j < i ==> op_bridges()[j] != a@,
        decreases 6 - i,
    {
        let b = op_bridge(i);
        if same_bytes(&b, a) {
            assert(op_bridges()[i as int] == a@);
            return true;
        }
        i = i + 1;
    }
    assert(!op_bridges().contains(a@)) by {
        if op_bridges().contains(a@) {
            let j = choose|j: int| 0 <= j < op_bridges().len() && op_bridges()[j] == a@;
            assert(op_bridges()[j] != a@);
        }
    }
    false
}

/// The chain that a bridge contract serves.
pub fn bridge_name(a: &[u8; 20]) -> (r: Option<&'static str>)
    ensures
        r is Some <==> op_bridges().contains(a@),
        r matches Some(n) ==> exists|j: int|
            0 <= j < 6 && op_bridges()[j] == a@ && op_bridge_names()[j] == n@ && (forall|k: int|
                0 <= k < j ==> op_bridges()[k] != a@),
{
    let mut i: usize = 0;
    while i < 6
        invariant
            i <= 6,
            forall|j: int| 0 <= j < i ==> op_bridges()[j] != a@,
        decreases 6 - i,
    {
        let b = op_bridge(i);
        if same_bytes(&b, a) {
            let n: &'static str = if i == 0 {
                "Base"
            } else if i == 1 || i == 2 {
                "Blast"
            } else if i == 3 {
                "Optimism"
            } else if i == 4 {
                "Mode"
            } else {
                "Manta"
            };
            assert(op_bridge_names()[i as int] == n@);
            return Some(n);
        }
        i = i + 1;
    }
    assert(!op_bridges().contains(a@)) by {
        if op_bridges().contains(a@) {
            let j = choose|j: int| 0 <= j < op_bridges().len() && op_bridges()[j] == a@;
            assert(op_bridges()[j] != a@);
        }
    }
    None
}

/// An ETH bridge event of an L1 standard bridge, as decoded from a receipt log.
#[derive(Clone, Copy, Debug, PartialEq, Eq)]
pub enum BridgeEvent {
    /// `ETHBridgeInitiated`: a deposit from L1 to L2.
    Initiated { from: [u8; 20], to: [u8; 20], amount: [u8; 32] },
    /// `ETHBridgeFinalized`: a withdrawal from L2 to L1, paid out.
    Finalized { from: [u8; 20], to: [u8; 20], amount: [u8; 32] },
}

/// A receipt log: the contract that emitted it and, where it decodes as one, the
/// ETH bridge event that it carries.
#[derive(Clone, Copy, Debug, PartialEq, Eq)]
pub struct BridgeLog {
    pub address: [u8; 20],
    pub event: Option<BridgeEvent>,
}

/// A block of a chain: its number and hash, its transactions' hashes, and the logs
/// of each transaction's receipt, in the same order.
#[derive(Clone, Debug)]
pub struct ChainBlock {
    pub number: u64,
    pub hash: [u8; 32],
    pub transactions: Vec<[u8; 32]>,
    pub receipts: Vec<Vec<BridgeLog>>,
}

/// A block as plain values.
pub struct ChainBlockView {
    pub number: u64,
    pub hash: [u8; 32],
    pub transactions: Seq<[u8; 32]>,
    pub receipts: Seq<Seq<BridgeLog>>,
}

impl View for ChainBlock {
    type V = ChainBlockView;

    open spec fn view(&self) -> ChainBlockView {
        ChainBlockView {
            number: self.number,
            hash: self.hash,
            transactions: self.transactions@,
            receipts: Seq::new(self.receipts@.len(), |k: int| self.receipts@[k]@),
        }
    }
}

/// The blocks of a chain as plain values.
pub open spec fn chain_view(chain: Seq<ChainBlock>) -> Seq<ChainBlockView> {
    Seq::new(chain.len(), |k: int| chain[k]@)
}

/// A bridge event found in a chain, with where it was found.
#[derive(Clone, Copy, Debug, PartialEq, Eq)]
pub struct BridgeRecord {
    pub block_number: u64,
    pub tx_hash: [u8; 32],
    pub contract_address: [u8; 20],
    pub event: BridgeEvent,
}

/// The record of one log: one where it comes from a bridge contract and carries a
/// bridge event, none otherwise.
pub open spec fn log_records(number: u64, tx: [u8; 32], log: BridgeLog) -> Seq<BridgeRecord> {
    match log.event {
        Some(e) => if op_bridges().contains(log.address@) {
            seq![BridgeRecord { block_number: number, tx_hash: tx, contract_address: log.address, event: e }]
        } else {
            Seq::empty()
        },
        None => Seq::empty(),
    }
}

/// The records of a transaction's logs, in order.
pub open spec fn tx_records(number: u64, tx: [u8; 32], logs: Seq<BridgeLog>) -> Seq<BridgeRecord>
    decreases logs.len(),
{
    if logs.len() == 0 {
        Seq::empty()
    } else {
        tx_records(number, tx, logs.drop_last()) + log_records(number, tx, logs.last())
    }
}

/// The number of transactions of a block that have a receipt.
pub open spec fn paired(b: ChainBlockView) -> int {
    if b.transactions.len() <= b.receipts.len() {
        b.transactions.len() as int
    } else {
        b.receipts.len() as int
    }
}

/// The records of the first `k` transactions of a block.
pub open spec fn block_records(b: ChainBlockView, k: int) -> Seq<BridgeRecord>
    decreases k,
{
    if k <= 0 {
        Seq::empty()
    } else {
        block_records(b, k - 1) + tx_records(b.number, b.transactions[k - 1], b.receipts[k - 1])
    }
}

/// The records of a chain: block by block, transaction by transaction (each with
/// its receipt), log by log.
pub open spec fn chain_records(chain: Seq<ChainBlockView>) -> Seq<BridgeRecord>
    decreases chain.len(),
{
    if chain.len() == 0 {
        Seq::empty()
    } else {
        chain_records(chain.drop_last()) + block_records(chain.last(), paired(chain.last()))
    }
}

/// The bridge events of a chain, in order.
pub fn decode_chain_into_events(chain: &[ChainBlock]) -> (r: Vec<BridgeRecord>)
    ensures
        r@ == chain_records(chain_view(chain@)),
{
    let ghost blocks = chain_view(chain@);
    let mut out: Vec<BridgeRecord> = Vec::new();
    let n = chain.len();
    let mut i: usize = 0;
    assert(blocks.subrange(0, 0) =~= Seq::<ChainBlockView>::empty());
    while i < n
        invariant
            n == chain@.len(),
            blocks == chain_view(chain@),
            i <= n,
            out@ == chain_records(blocks.subrange(0, i as int)),
        decreases n - i,
    {
        let block = &chain[i];
        let ghost bv = block@;
        assert(bv == blocks[i as int]);
        let txs = block.transactions.len();
        let receipts = block.receipts.len();
        let m: usize = if txs <= receipts {
            txs
        } else {
            receipts
        };
        assert(m == paired(bv));
        let ghost before = out@;
        let mut k: usize = 0;
        while k < m
            invariant
                bv == block@,
                m == paired(bv),
                m <= block.transactions@.len(),
                m <= block.receipts@.len(),
                k <= m,
                out@ == before + block_records(bv, k as int),
            decreases m - k,
        {
            let tx = block.transactions[k];
            let logs = &block.receipts[k];
            assert(bv.receipts[k as int] == logs@);
            let ghost before_tx = out@;
            let count = logs.len();
            let mut l: usize = 0;
            assert(logs@.subrange(0, 0) =~= Seq::<BridgeLog>::empty());
            while l < count
                invariant
                    bv == block@,
                    count == logs@.len(),
                    l <= count,
                    out@ == before_tx + tx_records(bv.number, tx, logs@.subrange(0, l as int)),
                decreases count - l,
            {
                let log = logs[l];
                assert(logs@.subrange(0, l + 1).drop_last() =~= logs@.subrange(0, l as int));
                let ghost prev = out@;
                match log.event {
                    Some(e) => {
                        if is_op_bridge(&log.address) {
                            out.push(
                                BridgeRecord {
                                    block_number: block.number,
                                    tx_hash: tx,
                                    contract_address: log.address,
                                    event: e,
                                },
                            );
                        }
                    },
                    None => {},
                }
                assert(out@ =~= prev + log_records(bv.number, tx, log));
                l = l + 1;
            }
            assert(logs@.subrange(0, count as int) =~= logs@);
            k = k + 1;
        }
        assert(blocks.subrange(0, i + 1).drop_last() =~= blocks.subrange(0, i as int));
        i = i + 1;
    }
    assert(blocks.subrange(0, n as int) =~= blocks);
    out
}

/// The block at the tip of a chain: its number and hash.
pub fn chain_tip(chain: &[ChainBlock]) -> (r: Option<(u64, [u8; 32])>)
    ensures
        chain@.len() == 0 ==> r is None,
        chain@.len() > 0 ==> r == Some((chain@.last().number, chain@.last().hash)),
{
    if chain.len() == 0 {
        None
    } else {
        let b = &chain[chain.len() - 1];
        Some((b.number, b.hash))
    }
}


/// The two tables of the index.
#[derive(Clone, Copy, Debug, PartialEq, Eq, Structural)]
pub enum Table {
    /// ETH deposited from L1 to L2.
    Deposits,
    /// ETH withdrawn from L2 to L1.
    Withdrawals,
}

/// A row of either table; the transaction hash is unique within a table.
#[derive(Clone, Copy, Debug, PartialEq, Eq)]
pub struct BridgeRow {
    pub block_number: u64,
    pub tx_hash: [u8; 32],
    pub contract_address: [u8; 20],
    pub from: [u8; 20],
    pub to: [u8; 20],
    pub amount: [u8; 32],
}

/// A statement against the tables.
#[derive(Clone, Copy, Debug, PartialEq, Eq)]
pub enum Statement {
    /// Delete the rows of a transaction.
    Delete { table: Table, tx_hash: [u8; 32] },
    /// Insert a row.
    Insert { table: Table, row: BridgeRow },
}

/// The table that an event belongs in.
pub open spec fn table_of(e: BridgeEvent) -> Table {
    match e {
        BridgeEvent::Initiated { .. } => Table::Deposits,
        BridgeEvent::Finalized { .. } => Table::Withdrawals,
    }
}

/// The row that a record becomes.
pub open spec fn row_of(r: BridgeRecord) -> BridgeRow {
    match r.event {
        BridgeEvent::Initiated { from, to, amount } => BridgeRow {
            block_number: r.block_number,
            tx_hash: r.tx_hash,
            contract_address: r.contract_address,
            from,
            to,
            amount,
        },
        BridgeEvent::Finalized { from, to, amount } => BridgeRow {
            block_number: r.block_number,
            tx_hash: r.tx_hash,
            contract_address: r.contract_address,
            from,
            to,
            amount,
        },
    }
}

/// The statement that records an event of a committed chain.
pub open spec fn insert_of(r: BridgeRecord) -> Statement {
    Statement::Insert { table: table_of(r.event), row: row_of(r) }
}

/// The statement that takes out an event of a reverted chain.
pub open spec fn delete_of(r: BridgeRecord) -> Statement {
    Statement::Delete { table: table_of(r.event), tx_hash: r.tx_hash }
}

/// The statements that record the events of a committed chain.
pub open spec fn inserts(recs: Seq<BridgeRecord>) -> Seq<Statement> {
    recs.map_values(|x: BridgeRecord| insert_of(x))
}

/// The statements that take out the events of a reverted chain.
pub open spec fn deletes(recs: Seq<BridgeRecord>) -> Seq<Statement> {
    recs.map_values(|x: BridgeRecord| delete_of(x))
}

/// The table and row of a record.
fn place(r: &BridgeRecord) -> (p: (Table, BridgeRow))
    ensures
        p.0 == table_of(r.event),
        p.1 == row_of(*r),
{
    match r.event {
        BridgeEvent::Initiated { from, to, amount } => (
            Table::Deposits,
            BridgeRow {
                block_number: r.block_number,
                tx_hash: r.tx_hash,
                contract_address: r.contract_address,
                from,
                to,
                amount,
            },
        ),
        BridgeEvent::Finalized { from, to, amount } => (
            Table::Withdrawals,
            BridgeRow {
                block_number: r.block_number,
                tx_hash: r.tx_hash,
                contract_address: r.contract_address,
                from,
                to,
                amount,
            },
        ),
    }
}

/// The statements that record the events of a committed chain, in order.
pub fn commit_statements(records: &[BridgeRecord]) -> (r: Vec<Statement>)
    ensures
        r@ == inserts(records@),
{
    let mut out: Vec<Statement> = Vec::new();
    let n = records.len();
    let mut i: usize = 0;
    while i < n
        invariant
            n == records@.len(),
            i <= n,
            out@ == inserts(records@.subrange(0, i as int)),
        decreases n - i,
    {
        let (table, row) = place(&records[i]);
        out.push(Statement::Insert { table, row });
        assert(records@.subrange(0, i + 1) =~= records@.subrange(0, i as int).push(records@[i as int]));
        i = i + 1;
    }
    assert(records@.subrange(0, n as int) =~= records@);
    out
}

/// The statements that take out the events of a reverted chain, in order.
pub fn revert_statements(records: &[BridgeRecord]) -> (r: Vec<Statement>)
    ensures
        r@ == deletes(records@),
{
    let mut out: Vec<Statement> = Vec::new();
    let n = records.len();
    let mut i: usize = 0;
    while i < n
        invariant
            n == records@.len(),
            i <= n,
            out@ == deletes(records@.subrange(0, i as int)),
        decreases n - i,
    {
        let (table, _row) = place(&records[i]);
        out.push(Statement::Delete { table, tx_hash: records[i].tx_hash });
        assert(records@.subrange(0, i + 1) =~= records@.subrange(0, i as int).push(records@[i as int]));
        i = i + 1;
    }
    assert(records@.subrange(0, n as int) =~= records@);
    out
}

/// What the host does for a notification: run a statement, or report a block,
/// by number and hash, as the height below which blocks are no longer needed.
#[derive(Clone, Copy, Debug, PartialEq, Eq)]
pub enum BridgeStep {
    /// Run a statement against the tables.
    Run(Statement),
    /// Report the height of the committed chain's tip as finished.
    FinishedHeight { number: u64, hash: [u8; 32] },
}

/// Statements to run, in order.
pub open spec fn runs(stmts: Seq<Statement>) -> Seq<BridgeStep> {
    stmts.map_values(|x: Statement| BridgeStep::Run(x))
}

/// What a notification makes the host do: take out the events of the reverted
/// chain, if any; then record the events of the committed chain, if any, and
/// report its tip once, after its rows.
pub open spec fn notification_steps(
    reverted: Option<Seq<ChainBlockView>>,
    committed: Option<Seq<ChainBlockView>>,
) -> Seq<BridgeStep> {
    let undo = match reverted {
        Some(c) => runs(deletes(chain_records(c))),
        None => Seq::empty(),
    };
    match committed {
        Some(c) => (undo + runs(inserts(chain_records(c)))).push(
            BridgeStep::FinishedHeight { number: c.last().number, hash: c.last().hash },
        ),
        None => undo,
    }
}

/// A chain as plain values, where there is one.
pub open spec fn opt_chain_view(c: Option<&[ChainBlock]>) -> Option<Seq<ChainBlockView>> {
    match c {
        Some(blocks) => Some(chain_view(blocks@)),
        None => None,
    }
}

/// Appends statements to run.
fn push_runs(out: &mut Vec<BridgeStep>, stmts: &Vec<Statement>)
    ensures
        final(out)@ == old(out)@ + runs(stmts@),
{
    let n = stmts.len();
    let mut i: usize = 0;
    while i < n
        invariant
            n == stmts@.len(),
            i <= n,
            out@ == old(out)@ + runs(stmts@.subrange(0, i as int)),
        decreases n - i,
    {
        out.push(BridgeStep::Run(stmts[i]));
        assert(runs(stmts@.subrange(0, i + 1)) =~= runs(stmts@.subrange(0, i as int)).push(
            BridgeStep::Run(stmts@[i as int]),
        ));
        i = i + 1;
    }
    assert(stmts@.subrange(0, n as int) =~= stmts@);
}

/// What a notification makes the host do (see `notification_steps`). A committed
/// chain has at least one block.
pub fn handle_notification(reverted: Option<&[ChainBlock]>, committed: Option<&[ChainBlock]>) -> (r: Vec<BridgeStep>)
    requires
        committed matches Some(c) ==> c@.len() > 0,
    ensures
        r@ == notification_steps(opt_chain_view(reverted), opt_chain_view(committed)),
{
    let mut out: Vec<BridgeStep> = Vec::new();
    if let Some(chain) = reverted {
        let events = decode_chain_into_events(chain);
        let stmts = revert_statements(events.as_slice());
        push_runs(&mut out, &stmts);
    }
    assert(out@ =~= match opt_chain_view(reverted) {
        Some(c) => runs(deletes(chain_records(c))),
        None => Seq::<BridgeStep>::empty(),
    });
    if let Some(chain) = committed {
        let events = decode_chain_into_events(chain);
        let stmts = commit_statements(events.as_slice());
        push_runs(&mut out, &stmts);
        let b = &chain[chain.len() - 1];
        out.push(BridgeStep::FinishedHeight { number: b.number, hash: b.hash });
    }
    out
}

/// A notification reports a tip exactly where it commits a chain: then once, as
/// its last step, with the number and hash of the chain's last block; a pure
/// revert reports nothing.
pub proof fn lemma_tip_reported_once(
    reverted: Option<Seq<ChainBlockView>>,
    committed: Option<Seq<ChainBlockView>>,
)
    ensures
        committed matches Some(c) ==> notification_steps(reverted, committed).last()
            == (BridgeStep::FinishedHeight { number: c.last().number, hash: c.last().hash }),
        forall|i: int|
            0 <= i < notification_steps(reverted, committed).len() && (committed is Some ==> i
                < notification_steps(reverted, committed).len() - 1) ==> (#[trigger] notification_steps(
                reverted,
                committed,
            )[i]) is Run,
{
    let undo = match reverted {
        Some(c) => runs(deletes(chain_records(c))),
        None => Seq::<BridgeStep>::empty(),
    };
    assert forall|i: int| 0 <= i < undo.len() implies (#[trigger] undo[i]) is Run by {}
    match committed {
        Some(c) => {
            let body = undo + runs(inserts(chain_records(c)));
            assert forall|i: int| 0 <= i < body.len() implies (#[trigger] body[i]) is Run by {
                if i >= undo.len() {
                    assert(body[i] == runs(inserts(chain_records(c)))[i - undo.len()]);
                }
            }
            assert forall|i: int|
                0 <= i < notification_steps(reverted, committed).len() - 1 implies (
            #[trigger] notification_steps(reverted, committed)[i]) is Run by {
                assert(notification_steps(reverted, committed)[i] == body[i]);
            }
        },
        None => {},
    }
}

/// The contents of the two tables, each keyed by transaction hash.
pub struct TablesView {
    pub deposits: Map<Seq<u8>, BridgeRow>,
    pub withdrawals: Map<Seq<u8>, BridgeRow>,
}

/// The rows of one table.
pub open spec fn rows(t: TablesView, w: Table) -> Map<Seq<u8>, BridgeRow> {
    match w {
        Table::Deposits => t.deposits,
        Table::Withdrawals => t.withdrawals,
    }
}

/// The tables with one of them replaced.
pub open spec fn with_rows(t: TablesView, w: Table, m: Map<Seq<u8>, BridgeRow>) -> TablesView {
    match w {
        Table::Deposits => TablesView { deposits: m, withdrawals: t.withdrawals },
        Table::Withdrawals => TablesView { deposits: t.deposits, withdrawals: m },
    }
}

/// What a statement does to the tables; `None` where the database refuses it, as it
/// refuses a second row for a transaction hash.
pub open spec fn apply(t: TablesView, s: Statement) -> Option<TablesView> {
    match s {
        Statement::Delete { table, tx_hash } => Some(
            with_rows(t, table, rows(t, table).remove(tx_hash@)),
        ),
        Statement::Insert { table, row } => if rows(t, table).dom().contains(row.tx_hash@) {
            None
        } else {
            Some(with_rows(t, table, rows(t, table).insert(row.tx_hash@, row)))
        },
    }
}

/// What statements do, one after the other; `None` once one is refused.
pub open spec fn apply_all(t: TablesView, stmts: Seq<Statement>) -> Option<TablesView>
    decreases stmts.len(),
{
    if stmts.len() == 0 {
        Some(t)
    } else {
        match apply_all(t, stmts.drop_last()) {
            Some(t1) => apply(t1, stmts.last()),
            None => None,
        }
    }
}

/// The transaction hashes of the records that belong in a table.
pub open spec fn hashes_in(recs: Seq<BridgeRecord>, w: Table) -> Set<Seq<u8>>
    decreases recs.len(),
{
    if recs.len() == 0 {
        Set::empty()
    } else if table_of(recs.last().event) == w {
        hashes_in(recs.drop_last(), w).insert(recs.last().tx_hash@)
    } else {
        hashes_in(recs.drop_last(), w)
    }
}

/// No two records of one table share a transaction, and no record's transaction
/// has a row in its table yet.
pub open spec fn fresh(t: TablesView, recs: Seq<BridgeRecord>) -> bool {
    &&& forall|i: int, j: int|
        0 <= i < j < recs.len() && table_of(recs[i].event) == table_of(recs[j].event) ==> (
        #[trigger] recs[i]).tx_hash@ != (#[trigger] recs[j]).tx_hash@
    &&& forall|i: int|
        0 <= i < recs.len() ==> !rows(t, table_of(recs[i].event)).dom().contains(
            (#[trigger] recs[i]).tx_hash@,
        )
}

proof fn lemma_hashes_in(recs: Seq<BridgeRecord>, w: Table, h: Seq<u8>)
    ensures
        hashes_in(recs, w).contains(h) <==> exists|i: int|
            0 <= i < recs.len() && table_of(recs[i].event) == w && (#[trigger] recs[i]).tx_hash@
                == h,
    decreases recs.len(),
{
    if recs.len() > 0 {
        let init = recs.drop_last();
        lemma_hashes_in(init, w, h);
        if hashes_in(recs, w).contains(h) {
            if hashes_in(init, w).contains(h) {
                let i = choose|i: int|
                    0 <= i < init.len() && table_of(init[i].event) == w && (#[trigger] init[i]).tx_hash@
                        == h;
                assert(recs[i] == init[i]);
            } else {
                assert(recs[recs.len() - 1] == recs.last());
            }
        }
        if exists|i: int|
            0 <= i < recs.len() && table_of(recs[i].event) == w && (#[trigger] recs[i]).tx_hash@
                == h {
            let i = choose|i: int|
                0 <= i < recs.len() && table_of(recs[i].event) == w && (#[trigger] recs[i]).tx_hash@
                    == h;
            if i < recs.len() - 1 {
                assert(init[i] == recs[i]);
            }
        }
    }
}

proof fn lemma_map_drop_last(recs: Seq<BridgeRecord>)
    requires
        recs.len() > 0,
    ensures
        inserts(recs).drop_last() == inserts(recs.drop_last()),
        deletes(recs).drop_last() == deletes(recs.drop_last()),
{
    assert(inserts(recs).drop_last() =~= inserts(recs.drop_last()));
    assert(deletes(recs).drop_last() =~= deletes(recs.drop_last()));
}

/// Reverting takes out of each table the rows of the records' transactions that
/// belong in it, and is never refused.
pub proof fn lemma_revert_takes_out(t: TablesView, recs: Seq<BridgeRecord>)
    ensures
        apply_all(t, deletes(recs)) is Some,
        forall|w: Table|
            #![trigger rows(apply_all(t, deletes(recs)).unwrap(), w)]
            rows(apply_all(t, deletes(recs)).unwrap(), w)
                == rows(t, w).remove_keys(hashes_in(recs, w)),
    decreases recs.len(),
{
    let stmts = deletes(recs);
    if recs.len() == 0 {
        assert forall|w: Table| #[trigger] rows(t, w) == rows(t, w).remove_keys(hashes_in(recs, w)) by {
            assert(rows(t, w) =~= rows(t, w).remove_keys(hashes_in(recs, w)));
        }
    } else {
        let init = recs.drop_last();
        lemma_map_drop_last(recs);
        lemma_revert_takes_out(t, init);
        let t1 = apply_all(t, deletes(init)).unwrap();
        let last = recs.last();
        assert(stmts.last() == delete_of(last));
        let t2 = apply_all(t, stmts).unwrap();
        assert forall|w: Table| #[trigger] rows(t2, w) == rows(t, w).remove_keys(hashes_in(recs, w)) by {
            assert(rows(t1, w) == rows(t, w).remove_keys(hashes_in(init, w)));
            if table_of(last.event) == w {
                assert(rows(t2, w) =~= rows(t, w).remove_keys(hashes_in(recs, w)));
            } else {
                assert(rows(t2, w) =~= rows(t, w).remove_keys(hashes_in(recs, w)));
            }
        }
    }
}

/// Committing records that are fresh to the tables is not refused; it keeps every
/// row there was and adds the row of each record under its transaction hash.
pub proof fn lemma_commit_adds(t: TablesView, recs: Seq<BridgeRecord>)
    requires
        fresh(t, recs),
    ensures
        apply_all(t, inserts(recs)) is Some,
        forall|w: Table|
            #![trigger rows(apply_all(t, inserts(recs)).unwrap(), w)]
            rows(apply_all(t, inserts(recs)).unwrap(), w).dom()
                == rows(t, w).dom() + hashes_in(recs, w),
        forall|w: Table, h: Seq<u8>|
            rows(t, w).dom().contains(h) ==> #[trigger] rows(
                apply_all(t, inserts(recs)).unwrap(),
                w,
            )[h] == rows(t, w)[h],
        forall|i: int|
            0 <= i < recs.len() ==> rows(
                apply_all(t, inserts(recs)).unwrap(),
                table_of(recs[i].event),
            )[(#[trigger] recs[i]).tx_hash@] == row_of(recs[i]),
    decreases recs.len(),
{
    let stmts = inserts(recs);
    if recs.len() == 0 {
        assert forall|w: Table| #[trigger] rows(t, w).dom() == rows(t, w).dom() + hashes_in(recs, w) by {
            assert(rows(t, w).dom() =~= rows(t, w).dom() + hashes_in(recs, w));
        }
    } else {
        let init = recs.drop_last();
        let last = recs.last();
        let n = recs.len() - 1;
        assert(last == recs[n]);
        assert(fresh(t, init)) by {
            assert forall|i: int, j: int|
                0 <= i < j < init.len() && table_of(init[i].event) == table_of(
                    init[j].event,
                ) implies (#[trigger] init[i]).tx_hash@ != (#[trigger] init[j]).tx_hash@ by {
                assert(init[i] == recs[i] && init[j] == recs[j]);
            }
            assert forall|i: int| 0 <= i < init.len() implies !rows(
                t,
                table_of(init[i].event),
            ).dom().contains((#[trigger] init[i]).tx_hash@) by {
                assert(init[i] == recs[i]);
            }
        }
        lemma_map_drop_last(recs);
        lemma_commit_adds(t, init);
        let t1 = apply_all(t, inserts(init)).unwrap();
        assert(stmts.last() == insert_of(last));
        let w0 = table_of(last.event);
        let h0 = last.tx_hash@;
        assert(row_of(last).tx_hash@ == h0);
        assert(!hashes_in(init, w0).contains(h0)) by {
            lemma_hashes_in(init, w0, h0);
            if hashes_in(init, w0).contains(h0) {
                let i = choose|i: int|
                    0 <= i < init.len() && table_of(init[i].event) == w0 && (#[trigger] init[i]).tx_hash@
                        == h0;
                assert(init[i] == recs[i]);
            }
        }
        assert(!rows(t, w0).dom().contains(h0));
        assert(!rows(t1, w0).dom().contains(h0));
        let t2 = apply_all(t, stmts).unwrap();
        assert(rows(t2, w0) == rows(t1, w0).insert(h0, row_of(last)));
        assert forall|w: Table| #[trigger] rows(t2, w).dom() == rows(t, w).dom() + hashes_in(recs, w) by {
            if w == w0 {
                assert(rows(t2, w).dom() =~= rows(t, w).dom() + hashes_in(recs, w));
            } else {
                assert(rows(t2, w) == rows(t1, w));
                assert(rows(t2, w).dom() =~= rows(t, w).dom() + hashes_in(recs, w));
            }
        }
        assert forall|w: Table, h: Seq<u8>| rows(t, w).dom().contains(h) implies #[trigger] rows(
            t2,
            w,
        )[h] == rows(t, w)[h] by {
            assert(rows(t1, w)[h] == rows(t, w)[h]);
            if w == w0 {
                assert(h != h0);
            } else {
                assert(rows(t2, w) == rows(t1, w));
            }
        }
        assert forall|i: int| 0 <= i < recs.len() implies rows(t2, table_of(recs[i].event))[(
        #[trigger] recs[i]).tx_hash@] == row_of(recs[i]) by {
            if i < n {
                assert(init[i] == recs[i]);
                let wi = table_of(recs[i].event);
                assert(rows(t1, wi)[recs[i].tx_hash@] == row_of(recs[i]));
                if wi == w0 {
                    assert(recs[i].tx_hash@ != recs[n].tx_hash@);
                } else {
                    assert(rows(t2, wi) == rows(t1, wi));
                }
            }
        }
    }
}

/// Committing the bridge events of a chain and then reverting the same chain leaves
/// the tables as they were: no row of its transactions was there before, and no
/// transaction carries two events that belong in one table.
pub proof fn lemma_commit_then_revert(t: TablesView, chain: Seq<ChainBlockView>)
    requires
        fresh(t, chain_records(chain)),
    ensures
        ({
            let recs = chain_records(chain);
            let committed = apply_all(t, inserts(recs));
            &&& committed is Some
            &&& apply_all(committed.unwrap(), deletes(recs))
                == Some(t)
        }),
{
    let recs = chain_records(chain);
    lemma_commit_adds(t, recs);
    let t2 = apply_all(t, inserts(recs)).unwrap();
    lemma_revert_takes_out(t2, recs);
    let t3 = apply_all(t2, deletes(recs)).unwrap();
    assert forall|w: Table| #[trigger] rows(t3, w) == rows(t, w) by {
        assert(rows(t3, w) == rows(t2, w).remove_keys(hashes_in(recs, w)));
        assert forall|h: Seq<u8>| rows(t, w).dom().contains(h) implies !hashes_in(recs, w).contains(
            h,
        ) by {
            lemma_hashes_in(recs, w, h);
            if hashes_in(recs, w).contains(h) {
                let i = choose|i: int|
                    0 <= i < recs.len() && table_of(recs[i].event) == w && (#[trigger] recs[i]).tx_hash@
                        == h;
                assert(!rows(t, table_of(recs[i].event)).dom().contains(recs[i].tx_hash@));
            }
        }
        assert(rows(t3, w) =~= rows(t, w));
    }
    assert(rows(t3, Table::Deposits) == rows(t, Table::Deposits));
    assert(rows(t3, Table::Withdrawals) == rows(t, Table::Withdrawals));
}

/// After a chain is committed, each of its bridge events can be read back from its
/// table under its transaction hash.
pub proof fn lemma_committed_rows_read_back(t: TablesView, chain: Seq<ChainBlockView>, i: int)
    requires
        fresh(t, chain_records(chain)),
        0 <= i < chain_records(chain).len(),
    ensures
        ({
            let recs = chain_records(chain);
            let committed = apply_all(t, inserts(recs));
            rows(committed.unwrap(), table_of(recs[i].event))[recs[i].tx_hash@] == row_of(recs[i])
        }),
{
    lemma_commit_adds(t, chain_records(chain));
}
/// The records of a chain are those of its first part followed by those of the
/// rest: no block is dropped, repeated or reordered, whatever the split.
pub proof fn lemma_chain_records_concat(a: Seq<ChainBlockView>, b: Seq<ChainBlockView>)
    ensures
        chain_records(a + b) == chain_records(a) + chain_records(b),
    decreases b.len(),
{
    if b.len() == 0 {
        assert(a + b =~= a);
        assert(chain_records(a) + chain_records(b) =~= chain_records(a));
    } else {
        assert((a + b).drop_last() =~= a + b.drop_last());
        assert((a + b).last() == b.last());
        lemma_chain_records_concat(a, b.drop_last());
        let last = block_records(b.last(), paired(b.last()));
        assert(chain_records(a + b) =~= chain_records(a) + chain_records(b.drop_last()) + last);
        assert(chain_records(a) + chain_records(b) =~= chain_records(a) + (chain_records(b.drop_last()) + last));
    }
}

/// The records of a one-block chain are those of the block.
pub proof fn lemma_chain_records_single(blk: ChainBlockView)
    ensures
        chain_records(seq![blk]) == block_records(blk, paired(blk)),
{
    assert(seq![blk].drop_last() =~= Seq::<ChainBlockView>::empty());
    assert(seq![blk].last() == blk);
    assert(chain_records(Seq::<ChainBlockView>::empty()) == Seq::<BridgeRecord>::empty());
    assert(Seq::<BridgeRecord>::empty() + block_records(blk, paired(blk)) =~= block_records(blk, paired(blk)));
}

proof fn lemma_tx_records_has(number: u64, tx: [u8; 32], logs: Seq<BridgeLog>, l: int)
    requires
        0 <= l < logs.len(),
        logs[l].event is Some,
        op_bridges().contains(logs[l].address@),
    ensures
        tx_records(number, tx, logs).contains(
            BridgeRecord {
                block_number: number,
                tx_hash: tx,
                contract_address: logs[l].address,
                event: logs[l].event.unwrap(),
            },
        ),
    decreases logs.len(),
{
    let x = BridgeRecord {
        block_number: number,
        tx_hash: tx,
        contract_address: logs[l].address,
        event: logs[l].event.unwrap(),
    };
    if l == logs.len() - 1 {
        assert(log_records(number, tx, logs.last())[0] == x);
        lemma_contains_concat(tx_records(number, tx, logs.drop_last()), log_records(number, tx, logs.last()), x);
    } else {
        assert(logs.drop_last()[l] == logs[l]);
        lemma_tx_records_has(number, tx, logs.drop_last(), l);
        lemma_contains_concat(tx_records(number, tx, logs.drop_last()), log_records(number, tx, logs.last()), x);
    }
}

proof fn lemma_block_records_has(b: ChainBlockView, m: int, k: int, x: BridgeRecord)
    requires
        0 <= k < m,
        tx_records(b.number, b.transactions[k], b.receipts[k]).contains(x),
    ensures
        block_records(b, m).contains(x),
    decreases m,
{
    if k < m - 1 {
        lemma_block_records_has(b, m - 1, k, x);
    }
    lemma_contains_concat(
        block_records(b, m - 1),
        tx_records(b.number, b.transactions[m - 1], b.receipts[m - 1]),
        x,
    );
}

/// Every bridge event of a chain is recorded: for every block, every transaction
/// that has its receipt (those before the shorter of the two lists ends), and
/// every log of that receipt that a bridge contract emitted with an ETH bridge
/// event, the chain's records hold that event with its block number, transaction
/// hash and contract.
pub proof fn lemma_every_bridge_event_recorded(chain: Seq<ChainBlockView>, i: int, k: int, l: int)
    requires
        0 <= i < chain.len(),
        0 <= k < chain[i].transactions.len(),
        k < chain[i].receipts.len(),
        0 <= l < chain[i].receipts[k].len(),
        chain[i].receipts[k][l].event is Some,
        op_bridges().contains(chain[i].receipts[k][l].address@),
    ensures
        chain_records(chain).contains(
            BridgeRecord {
                block_number: chain[i].number,
                tx_hash: chain[i].transactions[k],
                contract_address: chain[i].receipts[k][l].address,
                event: chain[i].receipts[k][l].event.unwrap(),
            },
        ),
    decreases chain.len(),
{
    let b = chain[i];
    let x = BridgeRecord {
        block_number: b.number,
        tx_hash: b.transactions[k],
        contract_address: b.receipts[k][l].address,
        event: b.receipts[k][l].event.unwrap(),
    };
    if i == chain.len() - 1 {
        lemma_tx_records_has(b.number, b.transactions[k], b.receipts[k], l);
        lemma_block_records_has(b, paired(b), k, x);
        lemma_contains_concat(chain_records(chain.drop_last()), block_records(b, paired(b)), x);
    } else {
        assert(chain.drop_last()[i] == b);
        lemma_every_bridge_event_recorded(chain.drop_last(), i, k, l);
        lemma_contains_concat(
            chain_records(chain.drop_last()),
            block_records(chain.last(), paired(chain.last())),
            x,
        );
    }
}

} // verus!
