//! Validating the payload attributes that derivation produced: against the block
//! that a trusted L2 node has at the next height, or by the verdict of an L2
//! engine API. The host fetches blocks and talks to the engine.
use vstd::prelude::*;
use crate::bytes::same_bytes;
use crate::text::same_text;

verus! {

/// A withdrawal in payload attributes.
#[derive(Clone, Copy, Debug, PartialEq, Eq)]
pub struct Withdrawal {
    pub index: u64,
    pub validator_index: u64,
    pub address: [u8; 20],
    pub amount: u64,
}

/// Payload attributes of an L2 block.
#[derive(Clone, Debug, PartialEq, Eq)]
pub struct PayloadAttributes {
    pub timestamp: u64,
    pub prev_randao: [u8; 32],
    pub fee_recipient: [u8; 20],
    pub withdrawals: Option<Vec<Withdrawal>>,
    pub parent_beacon_block_root: Option<[u8; 32]>,
    pub transactions: Vec<Vec<u8>>,
    pub no_tx_pool: bool,
    pub gas_limit: Option<u64>,
}

/// Payload attributes as plain values.
pub struct AttributesView {
    pub timestamp: u64,
    pub prev_randao: Seq<u8>,
    pub fee_recipient: [u8; 20],
    pub withdrawals: Option<Seq<Withdrawal>>,
    pub parent_beacon_block_root: Option<[u8; 32]>,
    pub transactions: Seq<Seq<u8>>,
    pub no_tx_pool: bool,
    pub gas_limit: Option<u64>,
}

impl View for PayloadAttributes {
    type V = AttributesView;

    open spec fn view(&self) -> AttributesView {
        AttributesView {
            timestamp: self.timestamp,
            prev_randao: self.prev_randao@,
            fee_recipient: self.fee_recipient,
            withdrawals: match self.withdrawals {
                Some(w) => Some(w@),
                None => None,
            },
            parent_beacon_block_root: self.parent_beacon_block_root,
            transactions: Seq::new(self.transactions@.len(), |k: int| self.transactions@[k]@),
            no_tx_pool: self.no_tx_pool,
            gas_limit: self.gas_limit,
        }
    }
}

/// The number of the L2 block that attributes built on `parent_number` are for.
pub fn expected_block_number(parent_number: u64) -> (n: u64)
    requires
        parent_number < u64::MAX,
    ensures
        n == parent_number + 1,
{
    parent_number + 1
}

/// The attributes of a block of a trusted L2 node: its timestamp, mix hash (zero
/// where it has none) as randomness, miner as fee recipient, parent beacon block
/// root, gas limit and raw transactions, with no transactions from the pool, and
/// an empty list of withdrawals once Canyon is active (none before).
pub open spec fn attributes_of_block(
    timestamp: u64,
    mix_hash: Option<[u8; 32]>,
    miner: [u8; 20],
    parent_beacon_block_root: Option<[u8; 32]>,
    gas_limit: u64,
    transactions: Seq<Seq<u8>>,
    canyon_activation: u64,
) -> AttributesView {
    AttributesView {
        timestamp,
        prev_randao: match mix_hash {
            Some(h) => h@,
            None => Seq::new(32, |i: int| 0u8),
        },
        fee_recipient: miner,
        withdrawals: if timestamp >= canyon_activation {
            Some(Seq::empty())
        } else {
            None
        },
        parent_beacon_block_root,
        transactions,
        no_tx_pool: true,
        gas_limit: Some(gas_limit),
    }
}

/// The payload attributes of a block of a trusted L2 node (see `attributes_of_block`).
pub fn get_payload(
    timestamp: u64,
    mix_hash: Option<[u8; 32]>,
    miner: [u8; 20],
    parent_beacon_block_root: Option<[u8; 32]>,
    gas_limit: u64,
    transactions: Vec<Vec<u8>>,
    canyon_activation: u64,
) -> (p: PayloadAttributes)
    ensures
        p@ == attributes_of_block(
            timestamp,
            mix_hash,
            miner,
            parent_beacon_block_root,
            gas_limit,
            Seq::new(transactions@.len(), |k: int| transactions@[k]@),
            canyon_activation,
        ),
{
    let zero: [u8; 32] = [0u8; 32];
    assert(zero@ =~= Seq::new(32, |i: int| 0u8));
    let prev_randao = match mix_hash {
        Some(h) => h,
        None => zero,
    };
    let withdrawals = if timestamp >= canyon_activation {
        Some(Vec::new())
    } else {
        None
    };
    let p = PayloadAttributes {
        timestamp,
        prev_randao,
        fee_recipient: miner,
        withdrawals,
        parent_beacon_block_root,
        transactions,
        no_tx_pool: true,
        gas_limit: Some(gas_limit),
    };
    proof {
        if timestamp >= canyon_activation {
            assert(p@.withdrawals.unwrap() =~= Seq::<Withdrawal>::empty());
        }
    }
    p
}

/// Whether two byte strings are equal.
fn same_byte_vec(a: &Vec<u8>, b: &Vec<u8>) -> (r: bool)
    ensures
        r == (a@ == b@),
{
    if a.len() != b.len() {
        return false;
    }
    let n = a.len();
    let mut i: usize = 0;
    while i < n
        invariant
            n == a@.len(),
            n == b@.len(),
            i <= n,
            forall|j: int| 0 <= j < i ==> a@[j] == b@[j],
        decreases n - i,
    {
        if a[i] != b[i] {
            return false;
        }
        i = i + 1;
    }
    assert(a@ =~= b@);
    true
}

/// Whether two 32-byte values are equal.
fn same_hash(a: &[u8; 32], b: &[u8; 32]) -> (r: bool)
    ensures
        r == (*a == *b),
{
    let r = same_bytes(a, b);
    proof {
        if r {
            assert(*a =~= *b) by {
                assert(a@ =~= b@);
            }
        }
    }
    r
}

/// Whether two optional 32-byte values are equal.
fn same_opt_hash(a: &Option<[u8; 32]>, b: &Option<[u8; 32]>) -> (r: bool)
    ensures
        r == (*a == *b),
{
    match (a, b) {
        (Some(x), Some(y)) => same_hash(x, y),
        (None, None) => true,
        _ => false,
    }
}

/// Whether two withdrawals are equal.
fn same_withdrawal(a: &Withdrawal, b: &Withdrawal) -> (r: bool)
    ensures
        r == (*a == *b),
{
    let r = a.index == b.index && a.validator_index == b.validator_index && same_bytes(
        &a.address,
        &b.address,
    ) && a.amount == b.amount;
    proof {
        if r {
            assert(a.address =~= b.address) by {
                assert(a.address@ =~= b.address@);
            }
        }
    }
    r
}

/// Whether two lists of withdrawals are equal.
fn same_withdrawals(a: &Option<Vec<Withdrawal>>, b: &Option<Vec<Withdrawal>>) -> (r: bool)
    ensures
        r == ((match *a {
            Some(w) => Some(w@),
            None => None,
        }) == (match *b {
            Some(w) => Some(w@),
            None => None,
        })),
{
    match (a, b) {
        (Some(x), Some(y)) => {
            if x.len() != y.len() {
                return false;
            }
            let n = x.len();
            let mut i: usize = 0;
            while i < n
                invariant
                    *a == Some(*x),
                    *b == Some(*y),
                    n == x@.len(),
                    n == y@.len(),
                    i <= n,
                    forall|j: int| 0 <= j < i ==> x@[j] == y@[j],
                decreases n - i,
            {
                if !same_withdrawal(&x[i], &y[i]) {
                    assert(x@[i as int] != y@[i as int]);
                    assert(x@ != y@);
                    return false;
                }
                i = i + 1;
            }
            assert(x@ =~= y@);
            true
        },
        (None, None) => true,
        _ => false,
    }
}

/// Whether derived attributes equal the ones of the trusted node's block: the
/// verdict of the trusted validator.
pub fn attributes_match(derived: &PayloadAttributes, expected: &PayloadAttributes) -> (r: bool)
    ensures
        r == (derived@ == expected@),
{
    if derived.timestamp != expected.timestamp || derived.no_tx_pool != expected.no_tx_pool
        || derived.gas_limit != expected.gas_limit {
        return false;
    }
    if !same_bytes(&derived.prev_randao, &expected.prev_randao) {
        return false;
    }
    let same_recipient = same_bytes(&derived.fee_recipient, &expected.fee_recipient);
    if !same_recipient {
        return false;
    }
    assert(derived.fee_recipient =~= expected.fee_recipient) by {
        assert(derived.fee_recipient@ =~= expected.fee_recipient@);
    }
    if !same_withdrawals(&derived.withdrawals, &expected.withdrawals) {
        return false;
    }
    if !same_opt_hash(&derived.parent_beacon_block_root, &expected.parent_beacon_block_root) {
        return false;
    }
    let n = derived.transactions.len();
    if n != expected.transactions.len() {
        assert(derived@.transactions.len() != expected@.transactions.len());
        return false;
    }
    let mut i: usize = 0;
    while i < n
        invariant
            n == derived.transactions@.len(),
            n == expected.transactions@.len(),
            i <= n,
            forall|j: int| 0 <= j < i ==> derived.transactions@[j]@ == expected.transactions@[j]@,
        decreases n - i,
    {
        if !same_byte_vec(&derived.transactions[i], &expected.transactions[i]) {
            assert(derived@.transactions[i as int] != expected@.transactions[i as int]);
            return false;
        }
        i = i + 1;
    }
    assert(derived@.transactions =~= expected@.transactions);
    true
}

/// The verdict of an engine API: `None` (an error) unless it answered with HTTP
/// status 200, else whether the status in its result is `VALID`.
pub fn engine_verdict(http_status: u16, result_status: Option<&str>) -> (r: Option<bool>)
    ensures
        http_status != 200 ==> r is None,
        http_status == 200 ==> r == Some(
            match result_status {
                Some(s) => s@ == "VALID"@,
                None => false,
            },
        ),
{
    if http_status != 200 {
        return None;
    }
    match result_status {
        Some(s) => Some(same_text(s, "VALID")),
        None => Some(false),
    }
}

} // verus!
