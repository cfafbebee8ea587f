//! The rules of the rollup's block execution that do not need the EVM: the chain
//! id a block must carry, the fields of its header, which blobs hold its data, the
//! check of its data against the committed hash, which transactions it runs, and
//! the gas accounting of the block. The host fetches blobs, decodes and runs
//! transactions and hands the results in.
use vstd::prelude::*;
use alloy_consensus::transaction::SignerRecoverable;
use alloy_consensus::Transaction;
use alloy_eips::eip2718::Decodable2718;
use alloy_eips::eip4844::builder::SidecarCoder;
use crate::crypto::{keccak256, spec_keccak256};
use crate::bytes::same_bytes;
use crate::rlp::{extend_bytes, be_value, dec_bytes, dec_fixed, dec_list, decode_bytes, decode_fixed, decode_list, rest, copy_range};
use crate::oracle_proto::to_hash;

verus! {

/// The base fee of the block where EIP-1559 activates.
pub const INITIAL_BASE_FEE: u64 = 1_000_000_000;

/// Name for the versioned hash of a KZG commitment as
/// `alloy_eips::eip4844::kzg_to_versioned_hash` computes it (SHA-256 of the
/// commitment with its first byte set to the KZG version).
pub uninterp spec fn spec_kzg_to_versioned_hash(commitment: Seq<u8>) -> Seq<u8>;

/// Versioned hash of a blob's KZG commitment.
///
/// Trusted: calls `alloy_eips::eip4844::kzg_to_versioned_hash`, which asserts (in
/// debug builds) that the commitment has 48 bytes. The contract claims that the
/// 32-byte result is the named hash of the commitment and that its first byte is
/// the KZG version, 1, as the source sets it.
#[verifier::external_body]
fn kzg_to_versioned_hash(commitment: &[u8]) -> (h: [u8; 32])
    requires
        commitment@.len() == 48,
    ensures
        h@ == spec_kzg_to_versioned_hash(commitment@),
        h@[0] == 1,
{
    alloy_eips::eip4844::kzg_to_versioned_hash(commitment).0
}

/// A 256-bit number, big-endian, as a 64-bit one where it fits.
pub fn u256_to_u64(n: &[u8; 32]) -> (r: Option<u64>)
    ensures
        r is Some <==> be_value(n@) < 0x1_0000_0000_0000_0000,
        r matches Some(v) ==> v == be_value(n@),
{
    let mut v: u64 = 0;
    let mut overflow = false;
    let mut i: usize = 0;
    while i < 32
        invariant
            i <= 32,
            n@.len() == 32,
            !overflow ==> v as nat == be_value(n@.subrange(0, i as int)),
            overflow ==> be_value(n@.subrange(0, i as int)) >= 0x1_0000_0000_0000_0000,
        decreases 32 - i,
    {
        let ghost prev = n@.subrange(0, i as int);
        let ghost next = n@.subrange(0, i + 1);
        assert(next.drop_last() =~= prev);
        assert(next.last() == n[i as int]);
        let b = n[i];
        assert(be_value(next) == be_value(prev) * 256 + b);
        if !overflow {
            if v <= (u64::MAX - b as u64) / 256 {
                v = v * 256 + b as u64;
            } else {
                overflow = true;
            }
        }
        i = i + 1;
    }
    assert(n@.subrange(0, 32) =~= n@);
    if overflow {
        None
    } else {
        Some(v)
    }
}

/// `Invalid rollup chain ID` unless the block's rollup chain id is `chain_id`.
pub fn check_rollup_chain_id(rollup_chain_id: &[u8; 32], chain_id: u64) -> (r: Result<(), String>)
    ensures
        r is Ok <==> be_value(rollup_chain_id@) == chain_id,
        r matches Err(e) ==> e@ == "Invalid rollup chain ID"@,
{
    match u256_to_u64(rollup_chain_id) {
        Some(v) => if v == chain_id {
            return Ok(());
        },
        None => {},
    }
    Err(String::from_str("Invalid rollup chain ID"))
}

/// Why a block header could not be made.
#[derive(Clone, Copy, Debug, PartialEq, Eq, Structural)]
pub enum HeaderError {
    /// The sequence number does not fit in 64 bits.
    NumberTooLarge,
    /// The parent block is unknown.
    ParentNotFound,
    /// The parent's next base fee could not be computed.
    BaseFeeUnknown,
    /// The gas limit does not fit in 64 bits.
    GasLimitTooLarge,
    /// The confirmation time does not fit in 64 bits.
    TimestampTooLarge,
}

/// The parent of a rollup block, as the host found it (the block whose number is
/// one less): its hash, the gas it used, its gas limit and its base fee, where it
/// has one.
#[derive(Clone, Copy, Debug, PartialEq, Eq)]
pub struct ParentBlock {
    pub hash: [u8; 32],
    pub gas_used: u64,
    pub gas_limit: u64,
    pub base_fee_per_gas: Option<u64>,
}

/// The EIP-1559 parameters of a chain at a block: the bound on the base fee's
/// change and the ratio of the gas limit to the gas target.
#[derive(Clone, Copy, Debug, PartialEq, Eq)]
pub struct BaseFeeParams {
    pub max_change_denominator: u128,
    pub elasticity_multiplier: u128,
}

/// The gas target of a block: its gas limit over the elasticity multiplier.
pub open spec fn gas_target(gas_limit: u64, params: BaseFeeParams) -> int {
    gas_limit as int / params.elasticity_multiplier as int
}

/// The base fee of the block after one that used `gas_used` of `gas_limit` gas
/// at base fee `base_fee` (EIP-1559): unchanged where a parameter or the gas
/// target is zero or the target was met; raised by at least one where more was
/// used, lowered (not below zero) where less, by the fee times the distance
/// from the target over the target times the change denominator.
pub open spec fn next_base_fee(gas_used: u64, gas_limit: u64, base_fee: u64, params: BaseFeeParams) -> int {
    let t = gas_target(gas_limit, params);
    let d = params.max_change_denominator as int;
    if params.elasticity_multiplier == 0 || d == 0 || t == 0 || gas_used == t {
        base_fee as int
    } else if gas_used > t {
        let delta = (base_fee as int * (gas_used - t)) / (t * d);
        base_fee + if delta < 1 { 1 } else { delta }
    } else {
        let delta = (base_fee as int * (t - gas_used)) / (t * d);
        if delta >= base_fee { 0 } else { base_fee - delta }
    }
}

/// Whether the EIP-1559 computation stays within its integer types: where the
/// fee changes, the target times the change denominator fits in 128 bits, and a
/// raised fee in 64.
pub open spec fn base_fee_fits(gas_used: u64, gas_limit: u64, base_fee: u64, params: BaseFeeParams) -> bool {
    params.elasticity_multiplier == 0 || params.max_change_denominator == 0 || gas_target(
        gas_limit,
        params,
    ) == 0 || gas_used == gas_target(gas_limit, params) || (gas_target(gas_limit, params)
        * params.max_change_denominator < 0x1_0000_0000_0000_0000_0000_0000_0000_0000
        && next_base_fee(gas_used, gas_limit, base_fee, params) <= u64::MAX)
}

/// The base fee that follows a block.
///
/// Trusted: calls `alloy_eips::eip1559::calc_next_block_base_fee`. The contract
/// claims the EIP-1559 formula that its source computes (`next_base_fee`), on the
/// inputs where its arithmetic does not overflow.
#[verifier::external_body]
fn calc_next_block_base_fee(gas_used: u64, gas_limit: u64, base_fee: u64, params: BaseFeeParams) -> (r: u64)
    requires
        base_fee_fits(gas_used, gas_limit, base_fee, params),
    ensures
        r == next_base_fee(gas_used, gas_limit, base_fee, params),
{
    alloy_eips::eip1559::calc_next_block_base_fee(
        gas_used,
        gas_limit,
        base_fee,
        alloy_eips::eip1559::BaseFeeParams::new(params.max_change_denominator, params.elasticity_multiplier),
    )
}

/// Whether the base fee that follows the parent can be computed without overflow.
pub open spec fn parent_fits(parent: Option<ParentBlock>, params: BaseFeeParams) -> bool {
    parent matches Some(p) && p.base_fee_per_gas matches Some(b) ==> base_fee_fits(
        p.gas_used,
        p.gas_limit,
        b,
        params,
    )
}

/// The hash of no block: 32 zero bytes.
pub open spec fn zero_hash() -> [u8; 32] {
    [0u8, 0u8, 0u8, 0u8, 0u8, 0u8, 0u8, 0u8, 0u8, 0u8, 0u8, 0u8, 0u8, 0u8, 0u8, 0u8, 0u8, 0u8, 0u8, 0u8, 0u8, 0u8, 0u8, 0u8, 0u8, 0u8, 0u8, 0u8, 0u8, 0u8, 0u8, 0u8]
}

/// The fields of a rollup block's header.
#[derive(Clone, Copy, Debug, PartialEq, Eq)]
pub struct HeaderFields {
    pub parent_hash: [u8; 32],
    pub number: u64,
    pub gas_limit: u64,
    pub timestamp: u64,
    pub base_fee_per_gas: u64,
}

/// The header of a block with sequence number `sequence`, gas limit `gas_limit`
/// and confirmation time `confirm_by` (all 256-bit, big-endian). `london_at` says
/// whether EIP-1559 activates at this block; `parent` is the parent block, where
/// there is one, and `params` the chain's EIP-1559 parameters at this block. The
/// parent hash is the parent's, or zero without a parent; the base fee is the
/// initial one where EIP-1559 activates, else the one that follows the parent.
pub open spec fn header_fields(
    sequence: Seq<u8>,
    gas_limit: Seq<u8>,
    confirm_by: Seq<u8>,
    london_at: bool,
    parent: Option<ParentBlock>,
    params: BaseFeeParams,
) -> Result<HeaderFields, HeaderError> {
    if be_value(sequence) >= 0x1_0000_0000_0000_0000 {
        Err(HeaderError::NumberTooLarge)
    } else {
        let base_fee: Result<u64, HeaderError> = if london_at {
            Ok(INITIAL_BASE_FEE)
        } else {
            match parent {
                None => Err(HeaderError::ParentNotFound),
                Some(p) => match p.base_fee_per_gas {
                    None => Err(HeaderError::BaseFeeUnknown),
                    Some(b) => Ok(next_base_fee(p.gas_used, p.gas_limit, b, params) as u64),
                },
            }
        };
        match base_fee {
            Err(e) => Err(e),
            Ok(f) => if be_value(gas_limit) >= 0x1_0000_0000_0000_0000 {
                Err(HeaderError::GasLimitTooLarge)
            } else if be_value(confirm_by) >= 0x1_0000_0000_0000_0000 {
                Err(HeaderError::TimestampTooLarge)
            } else {
                Ok(
                    HeaderFields {
                        parent_hash: match parent {
                            Some(p) => p.hash,
                            None => zero_hash(),
                        },
                        number: be_value(sequence) as u64,
                        gas_limit: be_value(gas_limit) as u64,
                        timestamp: be_value(confirm_by) as u64,
                        base_fee_per_gas: f,
                    },
                )
            },
        }
    }
}

/// Makes the header of a rollup block (see `header_fields`).
pub fn construct_header(
    sequence: &[u8; 32],
    gas_limit: &[u8; 32],
    confirm_by: &[u8; 32],
    london_at: bool,
    parent: Option<ParentBlock>,
    params: BaseFeeParams,
) -> (r: Result<HeaderFields, HeaderError>)
    requires
        parent_fits(parent, params),
    ensures
        r == header_fields(sequence@, gas_limit@, confirm_by@, london_at, parent, params),
{
    let number = match u256_to_u64(sequence) {
        Some(n) => n,
        None => {
            return Err(HeaderError::NumberTooLarge);
        },
    };
    let base_fee_per_gas = if london_at {
        INITIAL_BASE_FEE
    } else {
        match parent {
            None => {
                return Err(HeaderError::ParentNotFound);
            },
            Some(p) => match p.base_fee_per_gas {
                None => {
                    return Err(HeaderError::BaseFeeUnknown);
                },
                Some(b) => calc_next_block_base_fee(p.gas_used, p.gas_limit, b, params),
            },
        }
    };
    let gas_limit = match u256_to_u64(gas_limit) {
        Some(g) => g,
        None => {
            return Err(HeaderError::GasLimitTooLarge);
        },
    };
    let timestamp = match u256_to_u64(confirm_by) {
        Some(t) => t,
        None => {
            return Err(HeaderError::TimestampTooLarge);
        },
    };
    let parent_hash = match parent {
        Some(p) => p.hash,
        None => {
            let z: [u8; 32] = [0u8; 32];
            assert(z =~= zero_hash());
            z
        },
    };
    Ok(HeaderFields { parent_hash, number, gas_limit, timestamp, base_fee_per_gas })
}

/// Whether a block's sequence number is not zero, so that it has a parent.
pub fn has_parent(sequence: &[u8; 32]) -> (b: bool)
    ensures
        b == (be_value(sequence@) != 0),
{
    let mut i: usize = 0;
    while i < 32
        invariant
            i <= 32,
            sequence@.len() == 32,
            be_value(sequence@.subrange(0, i as int)) == 0,
        decreases 32 - i,
    {
        let ghost next = sequence@.subrange(0, i + 1);
        assert(next.drop_last() =~= sequence@.subrange(0, i as int));
        if sequence[i] != 0 {
            assert(be_value(next) >= 1);
            proof {
                lemma_be_value_prefix(sequence@, i + 1);
            }
            return true;
        }
        i = i + 1;
    }
    assert(sequence@.subrange(0, 32) =~= sequence@);
    false
}

/// A number is at least what any prefix of its bytes stands for.
proof fn lemma_be_value_prefix(s: Seq<u8>, k: int)
    requires
        0 <= k <= s.len(),
    ensures
        be_value(s.subrange(0, k)) <= be_value(s),
    decreases s.len() - k,
{
    if k < s.len() {
        lemma_be_value_prefix(s, k + 1);
        let a = s.subrange(0, k + 1);
        assert(a.drop_last() =~= s.subrange(0, k));
        assert(be_value(a) >= be_value(s.subrange(0, k)) * 256);
    } else {
        assert(s.subrange(0, k) =~= s);
    }
}

/// The positions of the blobs whose versioned hash the block lists, in order.
pub open spec fn wanted_blobs(hashes: Seq<Seq<u8>>, wanted: Seq<Seq<u8>>) -> Seq<int>
    decreases hashes.len(),
{
    if hashes.len() == 0 {
        Seq::empty()
    } else if wanted.contains(hashes.last()) {
        wanted_blobs(hashes.drop_last(), wanted).push(hashes.len() - 1)
    } else {
        wanted_blobs(hashes.drop_last(), wanted)
    }
}

/// The KZG commitments' versioned hashes, one per commitment.
pub open spec fn versioned_hashes(commitments: Seq<Seq<u8>>) -> Seq<Seq<u8>> {
    Seq::new(commitments.len(), |k: int| spec_kzg_to_versioned_hash(commitments[k]))
}

/// Selects the blobs that hold a block's data: those whose commitment's versioned
/// hash the block lists, in the order they come. `some blobs not found` unless
/// there are as many as the block lists.
pub fn select_blobs(commitments: &Vec<[u8; 48]>, wanted: &Vec<[u8; 32]>) -> (r: Result<
    Vec<usize>,
    String,
>)
    ensures
        ({
            let hashes = versioned_hashes(Seq::new(commitments@.len(), |k: int| commitments@[k]@));
            let want = Seq::new(wanted@.len(), |k: int| wanted@[k]@);
            let picked = wanted_blobs(hashes, want);
            &&& r is Ok <==> picked.len() == wanted@.len()
            &&& r matches Ok(v) ==> v@.len() == picked.len() && forall|k: int|
                0 <= k < v@.len() ==> v@[k] as int == picked[k]
            &&& r matches Err(e) ==> e@ == "some blobs not found"@
        }),
{
    let ghost hashes = versioned_hashes(Seq::new(commitments@.len(), |k: int| commitments@[k]@));
    let ghost want = Seq::new(wanted@.len(), |k: int| wanted@[k]@);
    let mut picked: Vec<usize> = Vec::new();
    let n = commitments.len();
    let mut i: usize = 0;
    while i < n
        invariant
            n == commitments@.len(),
            i <= n,
            hashes == versioned_hashes(Seq::new(commitments@.len(), |k: int| commitments@[k]@)),
            want == Seq::new(wanted@.len(), |k: int| wanted@[k]@),
            picked@.len() == wanted_blobs(hashes.subrange(0, i as int), want).len(),
            forall|k: int|
                0 <= k < picked@.len() ==> picked@[k] as int == wanted_blobs(
                    hashes.subrange(0, i as int),
                    want,
                )[k],
        decreases n - i,
    {
        let c: &[u8; 48] = &commitments[i];
        let h = kzg_to_versioned_hash(c.as_slice());
        assert(h@ == hashes[i as int]);
        assert(hashes.subrange(0, i + 1).drop_last() =~= hashes.subrange(0, i as int));
        assert(hashes.subrange(0, i + 1).last() == hashes[i as int]);
        let m = wanted.len();
        let mut j: usize = 0;
        let mut found = false;
        while j < m
            invariant
                m == wanted@.len(),
                want == Seq::new(wanted@.len(), |k: int| wanted@[k]@),
                j <= m,
                found == (exists|k: int| 0 <= k < j && want[k] == h@),
            decreases m - j,
        {
            assert(want[j as int] == wanted@[j as int]@);
            if same_bytes(&wanted[j], &h) {
                found = true;
            }
            j = j + 1;
        }
        assert(found == want.contains(h@));
        if found {
            picked.push(i);
        }
        i = i + 1;
    }
    assert(hashes.subrange(0, n as int) =~= hashes);
    if picked.len() != wanted.len() {
        return Err(String::from_str("some blobs not found"));
    }
    Ok(picked)
}

/// The byte strings that fill `payload`, one after the other, or `None` where it
/// is not such a sequence.
pub open spec fn dec_byte_strings(payload: Seq<u8>) -> Option<Seq<Seq<u8>>>
    decreases payload.len(),
{
    if payload.len() == 0 {
        Some(Seq::empty())
    } else {
        match dec_bytes(payload) {
            Some((item, k)) => if 0 < k <= payload.len() {
                match dec_byte_strings(payload.subrange(k as int, payload.len() as int)) {
                    Some(items) => Some(seq![item] + items),
                    None => None,
                }
            } else {
                None
            },
            None => None,
        }
    }
}

/// The raw transactions of a block's data: an RLP list of byte strings that fills
/// the data exactly.
pub open spec fn raw_transactions(data: Seq<u8>) -> Option<Seq<Seq<u8>>> {
    match dec_list(data) {
        Some((s, e)) => if e == data.len() {
            dec_byte_strings(data.subrange(s as int, e as int))
        } else {
            None
        },
        None => None,
    }
}

/// Why a block's data was refused.
#[derive(Clone, Copy, Debug, PartialEq, Eq, Structural)]
pub enum BlockDataError {
    /// `block data hash mismatch`: the data's Keccak-256 hash is not the committed one.
    HashMismatch,
    /// The data is no RLP list of byte strings.
    Malformed,
}

/// Checks a block's data against the committed hash and splits it into raw
/// transactions.
pub fn decode_block_data(data: &[u8], expected_hash: &[u8; 32]) -> (r: Result<
    Vec<Vec<u8>>,
    BlockDataError,
>)
    ensures
        spec_keccak256(data@) != expected_hash@ ==> r == Err::<Vec<Vec<u8>>, BlockDataError>(
            BlockDataError::HashMismatch,
        ),
        spec_keccak256(data@) == expected_hash@ ==> match raw_transactions(data@) {
            None => r == Err::<Vec<Vec<u8>>, BlockDataError>(BlockDataError::Malformed),
            Some(txs) => r matches Ok(v) && v@.len() == txs.len() && forall|k: int|
                0 <= k < txs.len() ==> (#[trigger] v@[k])@ == txs[k],
        },
{
    let h = keccak256(data);
    if !same_bytes(&h, expected_hash) {
        return Err(BlockDataError::HashMismatch);
    }
    let n = data.len();
    let (s, e) = match decode_list(data, 0) {
        Some(p) => p,
        None => {
            assert(rest(data@, 0) =~= data@);
            return Err(BlockDataError::Malformed);
        },
    };
    assert(rest(data@, 0) =~= data@);
    if e != n {
        return Err(BlockDataError::Malformed);
    }
    let ghost payload = data@.subrange(s as int, e as int);
    let mut out: Vec<Vec<u8>> = Vec::new();
    let mut pos: usize = s;
    while pos < e
        invariant
            s <= pos <= e,
            e == n,
            spec_keccak256(data@) == expected_hash@,
            n == data@.len(),
            payload == data@.subrange(s as int, e as int),
            raw_transactions(data@) == dec_byte_strings(payload),
            dec_byte_strings(payload) matches Some(all) ==> (dec_byte_strings(
                data@.subrange(pos as int, e as int),
            ) matches Some(tail) && all =~= Seq::new(out@.len(), |k: int| out@[k]@) + tail),
            dec_byte_strings(payload) is None ==> dec_byte_strings(
                data@.subrange(pos as int, e as int),
            ) is None,
        decreases e - pos,
    {
        let ghost here = data@.subrange(pos as int, e as int);
        assert(rest(data@, pos as int) =~= here);
        match decode_bytes(data, pos) {
            None => {
                return Err(BlockDataError::Malformed);
            },
            Some((bs, be)) => {
                let ghost k = (be - pos) as nat;
                assert(here.subrange(k as int, here.len() as int) =~= data@.subrange(be as int, e as int));
                let item = copy_range(data, bs, be);
                let ghost before = Seq::new(out@.len(), |k: int| out@[k]@);
                out.push(item);
                assert(Seq::new(out@.len(), |k: int| out@[k]@) =~= before.push(item@));
                pos = be;
                proof {
                    if let Some(all) = dec_byte_strings(payload) {
                        let tail = dec_byte_strings(here).unwrap();
                        assert(tail =~= seq![item@] + dec_byte_strings(data@.subrange(pos as int, e as int)).unwrap());
                    }
                }
            },
        }
    }
    assert(data@.subrange(e as int, e as int) =~= Seq::<u8>::empty());
    proof {
        if let Some(all) = dec_byte_strings(payload) {
            assert(all =~= Seq::new(out@.len(), |k: int| out@[k]@));
        }
    }
    Ok(out)
}

/// The positions of the transactions that the rollup runs: those signed for its
/// chain id.
pub open spec fn chain_transactions(chain_ids: Seq<Option<u64>>, chain_id: u64) -> Seq<int>
    decreases chain_ids.len(),
{
    if chain_ids.len() == 0 {
        Seq::empty()
    } else if chain_ids.last() == Some(chain_id) {
        chain_transactions(chain_ids.drop_last(), chain_id).push(chain_ids.len() - 1)
    } else {
        chain_transactions(chain_ids.drop_last(), chain_id)
    }
}

/// Keeps the transactions signed for the rollup's chain id, by position.
pub fn keep_chain_transactions(chain_ids: &[Option<u64>], chain_id: u64) -> (r: Vec<usize>)
    ensures
        r@.len() == chain_transactions(chain_ids@, chain_id).len(),
        forall|k: int|
            0 <= k < r@.len() ==> r@[k] as int == chain_transactions(chain_ids@, chain_id)[k],
{
    let mut out: Vec<usize> = Vec::new();
    let n = chain_ids.len();
    let mut i: usize = 0;
    while i < n
        invariant
            n == chain_ids@.len(),
            i <= n,
            out@.len() == chain_transactions(chain_ids@.subrange(0, i as int), chain_id).len(),
            forall|k: int|
                0 <= k < out@.len() ==> out@[k] as int == chain_transactions(
                    chain_ids@.subrange(0, i as int),
                    chain_id,
                )[k],
        decreases n - i,
    {
        assert(chain_ids@.subrange(0, i + 1).drop_last() =~= chain_ids@.subrange(0, i as int));
        if chain_ids[i] == Some(chain_id) {
            out.push(i);
        }
        i = i + 1;
    }
    assert(chain_ids@.subrange(0, n as int) =~= chain_ids@);
    out
}


/// A log that a transaction emitted: the emitting contract, its topics and its
/// data.
#[derive(Clone, Debug, PartialEq, Eq)]
pub struct ReceiptLog {
    pub address: [u8; 20],
    pub topics: Vec<[u8; 32]>,
    pub data: Vec<u8>,
}

/// What the EVM made of a transaction.
#[derive(Clone, Debug, PartialEq, Eq)]
pub enum TxOutcome {
    /// It ran, using `gas_used` gas, succeeded or not, and emitted `logs`.
    Executed { gas_used: u64, success: bool, logs: Vec<ReceiptLog> },
    /// It is invalid, and is skipped.
    Invalid,
    /// The state could not be read or written.
    Fatal,
}

/// The receipt of an executed transaction: its position among the block's
/// transactions, its type, whether it succeeded, the gas used in the block up to
/// it, and the logs it emitted.
#[derive(Clone, Debug, PartialEq, Eq)]
pub struct ReceiptSummary {
    pub tx_index: u64,
    pub tx_type: u8,
    pub success: bool,
    pub cumulative_gas_used: u64,
    pub logs: Vec<ReceiptLog>,
}

/// Why a block could not be executed.
#[derive(Clone, Copy, Debug, PartialEq, Eq, Structural)]
pub enum ExecutionError {
    /// A transaction asks for more gas than the block has left.
    GasLimitMoreThanAvailable { transaction_gas_limit: u64, block_available_gas: u64 },
    /// `db error`: the EVM failed for another reason than an invalid transaction.
    Fatal,
}

/// The gas accounting of a block as plain values.
pub struct BlockGasView {
    pub gas_limit: u64,
    pub cumulative_gas_used: u64,
    pub receipts: Seq<ReceiptSummary>,
}

/// The gas accounting of a block being executed.
pub struct BlockGas {
    gas_limit: u64,
    cumulative_gas_used: u64,
    receipts: Vec<ReceiptSummary>,
}

impl View for BlockGas {
    type V = BlockGasView;

    closed spec fn view(&self) -> BlockGasView {
        BlockGasView {
            gas_limit: self.gas_limit,
            cumulative_gas_used: self.cumulative_gas_used,
            receipts: self.receipts@,
        }
    }
}

/// The block's gas is never overspent, and the receipts' cumulative gas grows up
/// to what was used so far.
pub open spec fn gas_wf(g: BlockGasView) -> bool {
    &&& g.cumulative_gas_used <= g.gas_limit
    &&& forall|i: int, j: int|
        0 <= i <= j < g.receipts.len() ==> (#[trigger] g.receipts[i]).cumulative_gas_used <= (
        #[trigger] g.receipts[j]).cumulative_gas_used
    &&& forall|i: int|
        0 <= i < g.receipts.len() ==> (#[trigger] g.receipts[i]).cumulative_gas_used
            <= g.cumulative_gas_used
}

/// The accounting after the `tx_index`-th transaction, of type `tx_type`, ran
/// with `outcome`.
pub open spec fn after_outcome(g: BlockGasView, tx_index: u64, tx_type: u8, outcome: TxOutcome) -> Result<
    BlockGasView,
    ExecutionError,
> {
    match outcome {
        TxOutcome::Executed { gas_used, success, logs } => {
            let cumulative = (g.cumulative_gas_used + gas_used) as u64;
            Ok(
                BlockGasView {
                    cumulative_gas_used: cumulative,
                    receipts: g.receipts.push(
                        ReceiptSummary { tx_index, tx_type, success, cumulative_gas_used: cumulative, logs },
                    ),
                    ..g
                },
            )
        },
        TxOutcome::Invalid => Ok(g),
        TxOutcome::Fatal => Err(ExecutionError::Fatal),
    }
}

impl BlockGas {
    /// Nothing spent yet of a block's gas limit.
    pub fn new(gas_limit: u64) -> (g: BlockGas)
        ensures
            gas_wf(g@),
            g@.gas_limit == gas_limit,
            g@.cumulative_gas_used == 0,
            g@.receipts == Seq::<ReceiptSummary>::empty(),
    {
        BlockGas { gas_limit, cumulative_gas_used: 0, receipts: Vec::new() }
    }

    /// The gas the block has left.
    pub fn available(&self) -> (a: u64)
        requires
            gas_wf(self@),
        ensures
            a == self@.gas_limit - self@.cumulative_gas_used,
    {
        self.gas_limit - self.cumulative_gas_used
    }

    /// Whether a transaction asking for `tx_gas_limit` gas may run: its gas limit
    /// must not exceed what the block has left.
    pub fn check_gas_limit(&self, tx_gas_limit: u64) -> (r: Result<(), ExecutionError>)
        requires
            gas_wf(self@),
        ensures
            r is Ok <==> tx_gas_limit <= self@.gas_limit - self@.cumulative_gas_used,
            r is Err ==> r == Err::<(), ExecutionError>(
                ExecutionError::GasLimitMoreThanAvailable {
                    transaction_gas_limit: tx_gas_limit,
                    block_available_gas: (self@.gas_limit - self@.cumulative_gas_used) as u64,
                },
            ),
    {
        let available = self.gas_limit - self.cumulative_gas_used;
        if tx_gas_limit > available {
            Err(
                ExecutionError::GasLimitMoreThanAvailable {
                    transaction_gas_limit: tx_gas_limit,
                    block_available_gas: available,
                },
            )
        } else {
            Ok(())
        }
    }

    /// Records what came of an accepted transaction, the `tx_index`-th of the block,
    /// of type `tx_type`: an executed one adds its gas and a receipt with its type,
    /// success and logs, an invalid one is skipped, and any other failure of the
    /// EVM stops the block.
    pub fn record(&mut self, tx_index: u64, tx_type: u8, tx_gas_limit: u64, outcome: TxOutcome) -> (r: Result<
        (),
        ExecutionError,
    >)
        requires
            gas_wf(old(self)@),
            tx_gas_limit <= old(self)@.gas_limit - old(self)@.cumulative_gas_used,
            outcome matches TxOutcome::Executed { gas_used, .. } ==> gas_used <= tx_gas_limit,
        ensures
            gas_wf(final(self)@),
            after_outcome(old(self)@, tx_index, tx_type, outcome) matches Ok(g) ==> r is Ok && final(self)@
                == g,
            after_outcome(old(self)@, tx_index, tx_type, outcome) matches Err(e) ==> r == Err::<
                (),
                ExecutionError,
            >(e) && final(self)@ == old(self)@,
    {
        match outcome {
            TxOutcome::Executed { gas_used, success, logs } => {
                self.cumulative_gas_used = self.cumulative_gas_used + gas_used;
                self.receipts.push(
                    ReceiptSummary {
                        tx_index,
                        tx_type,
                        success,
                        cumulative_gas_used: self.cumulative_gas_used,
                        logs,
                    },
                );
                Ok(())
            },
            TxOutcome::Invalid => Ok(()),
            TxOutcome::Fatal => Err(ExecutionError::Fatal),
        }
    }

    /// The gas used by the block so far.
    pub fn cumulative_gas_used(&self) -> (c: u64)
        ensures
            c == self@.cumulative_gas_used,
    {
        self.cumulative_gas_used
    }

    /// The receipts so far, in order.
    pub fn receipts(&self) -> (r: &Vec<ReceiptSummary>)
        ensures
            r@ == self@.receipts,
    {
        &self.receipts
    }
}

/// A transaction that runs adds exactly the gas it used, and the last receipt
/// carries the block's gas used so far, the transaction's type, its success and
/// its logs; a skipped one changes nothing.
pub proof fn lemma_outcome_accounting(g: BlockGasView, tx_index: u64, tx_type: u8, outcome: TxOutcome)
    requires
        gas_wf(g),
        outcome matches TxOutcome::Executed { gas_used, .. } ==> g.cumulative_gas_used + gas_used
            <= g.gas_limit,
    ensures
        outcome matches TxOutcome::Executed { gas_used, success, logs } ==> (after_outcome(
            g,
            tx_index,
            tx_type,
            outcome,
        ) matches Ok(h) && h.cumulative_gas_used == g.cumulative_gas_used + gas_used
            && h.receipts.len() == g.receipts.len() + 1 && h.receipts.last().cumulative_gas_used
            == h.cumulative_gas_used && h.receipts.last().tx_index == tx_index
            && h.receipts.last().tx_type == tx_type && h.receipts.last().success == success
            && h.receipts.last().logs == logs && gas_wf(h)),
        outcome == TxOutcome::Invalid ==> after_outcome(g, tx_index, tx_type, outcome) == Ok::<
            BlockGasView,
            ExecutionError,
        >(g),
{
}

/// Name for what decoding a raw EIP-2718 transaction gives, as
/// `EthereumTxEnvelope::<TxEip4844>::decode_2718` followed by `chain_id` and
/// `recover_signer` computes it: `None` where the bytes are no transaction, else the
/// chain id it was signed for (if any) and its signer, where the signature recovers.
pub uninterp spec fn spec_decode_transaction(raw: Seq<u8>) -> Option<(Option<u64>, Option<Seq<u8>>)>;

/// Name for the pieces of data that blobs hold, as
/// `SimpleCoder::decode_all` computes them; `None` where they do not decode.
pub uninterp spec fn spec_decode_blobs(blobs: Seq<Seq<u8>>) -> Option<Seq<Seq<u8>>>;

/// The number of bytes of a blob.
pub const BLOB_SIZE: usize = 131072;

/// Decodes a raw transaction, its chain id and its signer.
///
/// Trusted: calls `alloy_eips::eip2718::Decodable2718::decode_2718` for
/// `alloy_consensus::EthereumTxEnvelope<TxEip4844>`, then `Transaction::chain_id`
/// and `SignerRecoverable::recover_signer`. The contract claims only that the
/// result is the named decoding of the bytes.
#[verifier::external_body]
fn decode_transaction(raw: &[u8]) -> (r: Option<(Option<u64>, Option<[u8; 20]>)>)
    ensures
        r is None <==> spec_decode_transaction(raw@) is None,
        r matches Some((c, s)) ==> spec_decode_transaction(raw@) == Some(
            (
                c,
                match s {
                    Some(a) => Some(a@),
                    None => None,
                },
            ),
        ),
{
    match alloy_consensus::EthereumTxEnvelope::<alloy_consensus::TxEip4844>::decode_2718(&mut &raw[..]) {
        Ok(tx) => Some((tx.chain_id(), tx.recover_signer().ok().map(|a| a.0.0))),
        Err(_) => None,
    }
}

/// Decodes the data that blobs hold.
///
/// Trusted: makes each 131072-byte blob an `alloy_eips::eip4844::Blob` and calls
/// `SimpleCoder::decode_all`. The contract claims only that the result is the named
/// decoding of the blobs.
#[verifier::external_body]
fn decode_blobs(blobs: &Vec<Vec<u8>>) -> (r: Option<Vec<Vec<u8>>>)
    requires
        forall|k: int| 0 <= k < blobs@.len() ==> (#[trigger] blobs@[k])@.len() == BLOB_SIZE,
    ensures
        r is None <==> spec_decode_blobs(Seq::new(blobs@.len(), |k: int| blobs@[k]@)) is None,
        r matches Some(v) ==> spec_decode_blobs(Seq::new(blobs@.len(), |k: int| blobs@[k]@)) == Some(
            Seq::new(v@.len(), |k: int| v@[k]@),
        ),
{
    let blobs: Vec<alloy_eips::eip4844::Blob> =
        blobs.iter().map(|b| alloy_eips::eip4844::Blob::from_slice(b)).collect();
    alloy_eips::eip4844::builder::SimpleCoder::default().decode_all(&blobs)
}

/// The 32-byte strings that fill `payload`, one after the other.
pub open spec fn dec_hash_items(payload: Seq<u8>) -> Option<Seq<Seq<u8>>>
    decreases payload.len(),
{
    if payload.len() == 0 {
        Some(Seq::empty())
    } else {
        match dec_fixed(payload, 32) {
            Some((item, k)) => if 0 < k <= payload.len() {
                match dec_hash_items(payload.subrange(k as int, payload.len() as int)) {
                    Some(items) => Some(seq![item] + items),
                    None => None,
                }
            } else {
                None
            },
            None => None,
        }
    }
}

/// The blob hashes that the data of a blob transaction lists: an RLP list of
/// 32-byte strings at its start (what follows the list is not read).
pub open spec fn blob_hashes_of(data: Seq<u8>) -> Option<Seq<Seq<u8>>> {
    match dec_list(data) {
        Some((s, e)) => dec_hash_items(data.subrange(s as int, e as int)),
        None => None,
    }
}

/// Reads the blob hashes that the data of a blob transaction lists.
pub fn decode_blob_hashes(data: &[u8]) -> (r: Option<Vec<[u8; 32]>>)
    ensures
        r is None <==> blob_hashes_of(data@) is None,
        r matches Some(v) ==> blob_hashes_of(data@) == Some(Seq::new(v@.len(), |k: int| v@[k]@)),
{
    let (s, e) = match decode_list(data, 0) {
        Some(p) => p,
        None => {
            assert(rest(data@, 0) =~= data@);
            return None;
        },
    };
    assert(rest(data@, 0) =~= data@);
    let ghost payload = data@.subrange(s as int, e as int);
    let mut out: Vec<[u8; 32]> = Vec::new();
    let mut pos: usize = s;
    while pos < e
        invariant
            s <= pos <= e,
            e <= data@.len(),
            payload == data@.subrange(s as int, e as int),
            blob_hashes_of(data@) == dec_hash_items(payload),
            dec_hash_items(payload) matches Some(all) ==> (dec_hash_items(
                data@.subrange(pos as int, e as int),
            ) matches Some(tail) && all =~= Seq::new(out@.len(), |k: int| out@[k]@) + tail),
            dec_hash_items(payload) is None ==> dec_hash_items(data@.subrange(pos as int, e as int))
                is None,
        decreases e - pos,
    {
        let ghost here = data@.subrange(pos as int, e as int);
        let sub = copy_range(data, pos, e);
        assert(rest(sub@, 0) =~= here);
        match decode_fixed(sub.as_slice(), 0, 32) {
            None => {
                return None;
            },
            Some((bs, be)) => {
                let ghost k = be as nat;
                assert(here.subrange(k as int, here.len() as int) =~= data@.subrange(pos + be, e as int));
                let item = to_hash(&sub.as_slice()[bs..be]);
                let ghost before = Seq::new(out@.len(), |k: int| out@[k]@);
                out.push(item);
                assert(Seq::new(out@.len(), |k: int| out@[k]@) =~= before.push(item@));
                pos = pos + be;
                proof {
                    if let Some(all) = dec_hash_items(payload) {
                        assert(dec_hash_items(here).unwrap() =~= seq![item@] + dec_hash_items(
                            data@.subrange(pos as int, e as int),
                        ).unwrap());
                    }
                }
            },
        }
    }
    assert(data@.subrange(e as int, e as int) =~= Seq::<u8>::empty());
    proof {
        if let Some(all) = dec_hash_items(payload) {
            assert(all =~= Seq::new(out@.len(), |k: int| out@[k]@));
        }
    }
    Some(out)
}

/// Why the transactions of a rollup block could not be read.
#[derive(Clone, Copy, Debug, PartialEq, Eq, Structural)]
pub enum DecodeError {
    /// The block data lists no blob hashes, or is no RLP list of transactions.
    Malformed,
    /// `some blobs not found`: fewer blobs than the block lists have its hashes.
    SomeBlobsNotFound,
    /// `failed to decode blobs`
    BlobsUndecodable,
    /// `block data hash mismatch`
    HashMismatch,
    /// A transaction does not decode.
    TransactionUndecodable,
    /// The signer of a transaction of the rollup's chain does not recover.
    SignerUnrecoverable,
}

/// The transactions that a block's raw transactions give: those signed for the
/// rollup's chain id, with their signers, in order; the first raw transaction that
/// does not decode, or of the rollup's chain whose signer does not recover, fails
/// them all.
pub open spec fn chain_transactions_with_signers(raws: Seq<Seq<u8>>, chain_id: u64) -> Result<
    Seq<(Seq<u8>, Seq<u8>)>,
    DecodeError,
>
    decreases raws.len(),
{
    if raws.len() == 0 {
        Ok(Seq::empty())
    } else {
        match chain_transactions_with_signers(raws.drop_last(), chain_id) {
            Err(e) => Err(e),
            Ok(kept) => match spec_decode_transaction(raws.last()) {
                None => Err(DecodeError::TransactionUndecodable),
                Some((c, s)) => if c == Some(chain_id) {
                    match s {
                        None => Err(DecodeError::SignerUnrecoverable),
                        Some(a) => Ok(kept.push((raws.last(), a))),
                    }
                } else {
                    Ok(kept)
                },
            },
        }
    }
}

/// The concatenation of pieces of data.
pub open spec fn concat(pieces: Seq<Seq<u8>>) -> Seq<u8>
    decreases pieces.len(),
{
    if pieces.len() == 0 {
        Seq::empty()
    } else {
        concat(pieces.drop_last()) + pieces.last()
    }
}

/// The raw transactions of a rollup block: for a blob transaction, the data of the
/// blobs (paired with their commitments, in order) whose versioned hashes the block
/// data lists, which must all be there; else the block data itself.
pub open spec fn block_transactions_data(
    blob_tx: bool,
    blobs: Seq<Seq<u8>>,
    commitments: Seq<Seq<u8>>,
    block_data: Seq<u8>,
) -> Result<Seq<u8>, DecodeError> {
    if !blob_tx {
        Ok(block_data)
    } else {
        match blob_hashes_of(block_data) {
            None => Err(DecodeError::Malformed),
            Some(wanted) => {
                let n = if blobs.len() <= commitments.len() {
                    blobs.len()
                } else {
                    commitments.len()
                };
                let picked = wanted_blobs(versioned_hashes(commitments.subrange(0, n as int)), wanted);
                if picked.len() != wanted.len() {
                    Err(DecodeError::SomeBlobsNotFound)
                } else {
                    match spec_decode_blobs(Seq::new(picked.len(), |k: int| blobs[picked[k]])) {
                        None => Err(DecodeError::BlobsUndecodable),
                        Some(pieces) => Ok(concat(pieces)),
                    }
                }
            },
        }
    }
}

/// The transactions of a rollup block with their signers (see
/// `block_transactions_data` and `chain_transactions_with_signers`); the data must
/// hash to the committed hash.
pub open spec fn block_transactions(
    blob_tx: bool,
    blobs: Seq<Seq<u8>>,
    commitments: Seq<Seq<u8>>,
    block_data: Seq<u8>,
    block_data_hash: Seq<u8>,
    chain_id: u64,
) -> Result<Seq<(Seq<u8>, Seq<u8>)>, DecodeError> {
    match block_transactions_data(blob_tx, blobs, commitments, block_data) {
        Err(e) => Err(e),
        Ok(data) => if spec_keccak256(data) != block_data_hash {
            Err(DecodeError::HashMismatch)
        } else {
            match raw_transactions(data) {
                None => Err(DecodeError::Malformed),
                Some(raws) => chain_transactions_with_signers(raws, chain_id),
            }
        },
    }
}

/// The views of blobs.
pub open spec fn blob_views(blobs: Seq<Vec<u8>>) -> Seq<Seq<u8>> {
    Seq::new(blobs.len(), |k: int| blobs[k]@)
}

/// The views of commitments.
pub open spec fn commitment_views(c: Seq<[u8; 48]>) -> Seq<Seq<u8>> {
    Seq::new(c.len(), |k: int| c[k]@)
}

/// The data of a block's transactions (see `block_transactions_data`).
fn transactions_data(
    blob_tx: bool,
    blobs: &Vec<Vec<u8>>,
    commitments: &Vec<[u8; 48]>,
    block_data: &[u8],
) -> (r: Result<Vec<u8>, DecodeError>)
    requires
        forall|k: int| 0 <= k < blobs@.len() ==> (#[trigger] blobs@[k])@.len() == BLOB_SIZE,
    ensures
        match block_transactions_data(blob_tx, blob_views(blobs@), commitment_views(commitments@), block_data@) {
            Ok(d) => r matches Ok(v) && v@ == d,
            Err(e) => r == Err::<Vec<u8>, DecodeError>(e),
        },
{
    if !blob_tx {
        return Ok(copy_range(block_data, 0, block_data.len()));
    }
    let wanted = match decode_blob_hashes(block_data) {
        Some(h) => h,
        None => {
            return Err(DecodeError::Malformed);
        },
    };
    let n = if blobs.len() <= commitments.len() {
        blobs.len()
    } else {
        commitments.len()
    };
    let mut paired: Vec<[u8; 48]> = Vec::new();
    let mut i: usize = 0;
    while i < n
        invariant
            n <= commitments@.len(),
            i <= n,
            paired@ == commitments@.subrange(0, i as int),
        decreases n - i,
    {
        paired.push(commitments[i]);
        assert(paired@ =~= commitments@.subrange(0, i + 1));
        i = i + 1;
    }
    assert(Seq::new(paired@.len(), |k: int| paired@[k]@) =~= commitment_views(commitments@).subrange(
        0,
        n as int,
    ));
    let picked = match select_blobs(&paired, &wanted) {
        Ok(p) => p,
        Err(_) => {
            return Err(DecodeError::SomeBlobsNotFound);
        },
    };
    let ghost picked_spec = wanted_blobs(
        versioned_hashes(commitment_views(commitments@).subrange(0, n as int)),
        Seq::new(wanted@.len(), |k: int| wanted@[k]@),
    );
    proof {
        lemma_wanted_blobs_below(
            versioned_hashes(commitment_views(commitments@).subrange(0, n as int)),
            Seq::new(wanted@.len(), |k: int| wanted@[k]@),
        );
    }
    let mut selected: Vec<Vec<u8>> = Vec::new();
    let m = picked.len();
    let mut j: usize = 0;
    while j < m
        invariant
            m == picked@.len(),
            m == picked_spec.len(),
            forall|k: int| 0 <= k < m ==> picked@[k] as int == picked_spec[k],
            forall|k: int| 0 <= k < m ==> 0 <= #[trigger] picked_spec[k] < n,
            n <= blobs@.len(),
            forall|k: int| 0 <= k < blobs@.len() ==> (#[trigger] blobs@[k])@.len() == BLOB_SIZE,
            j <= m,
            selected@.len() == j,
            forall|k: int| 0 <= k < j ==> (#[trigger] selected@[k])@ == blobs@[picked_spec[k]]@,
        decreases m - j,
    {
        assert(0 <= picked_spec[j as int] < n);
        let b = &blobs[picked[j]];
        selected.push(copy_range(b.as_slice(), 0, b.len()));
        assert(b@.subrange(0, b@.len() as int) =~= b@);
        j = j + 1;
    }
    assert(Seq::new(selected@.len(), |k: int| selected@[k]@) =~= Seq::new(
        picked_spec.len(),
        |k: int| blob_views(blobs@)[picked_spec[k]],
    ));
    let pieces = match decode_blobs(&selected) {
        Some(p) => p,
        None => {
            return Err(DecodeError::BlobsUndecodable);
        },
    };
    let ghost pv = Seq::new(pieces@.len(), |k: int| pieces@[k]@);
    let mut data: Vec<u8> = Vec::new();
    let mut k: usize = 0;
    assert(pv.subrange(0, 0) =~= Seq::<Seq<u8>>::empty());
    while k < pieces.len()
        invariant
            pv == Seq::new(pieces@.len(), |k: int| pieces@[k]@),
            k <= pieces@.len(),
            data@ == concat(pv.subrange(0, k as int)),
        decreases pieces@.len() - k,
    {
        extend_bytes(&mut data, pieces[k].as_slice());
        assert(pv.subrange(0, k + 1).drop_last() =~= pv.subrange(0, k as int));
        k = k + 1;
    }
    assert(pv.subrange(0, pieces@.len() as int) =~= pv);
    Ok(data)
}

/// Every picked blob is one of those looked at.
proof fn lemma_wanted_blobs_below(hashes: Seq<Seq<u8>>, wanted: Seq<Seq<u8>>)
    ensures
        forall|k: int|
            0 <= k < wanted_blobs(hashes, wanted).len() ==> 0 <= #[trigger] wanted_blobs(hashes, wanted)[k]
                < hashes.len(),
    decreases hashes.len(),
{
    if hashes.len() > 0 {
        let init = hashes.drop_last();
        lemma_wanted_blobs_below(init, wanted);
        assert forall|k: int| 0 <= k < wanted_blobs(hashes, wanted).len() implies 0
            <= #[trigger] wanted_blobs(hashes, wanted)[k] < hashes.len() by {
            if k < wanted_blobs(init, wanted).len() {
                assert(wanted_blobs(hashes, wanted)[k] == wanted_blobs(init, wanted)[k]);
            }
        }
    }
}

/// The transactions of a rollup block that the rollup runs, with their signers
/// (see `block_transactions`). The host fetches the blobs of a blob transaction.
pub fn decode_transactions(
    blob_tx: bool,
    blobs: &Vec<Vec<u8>>,
    commitments: &Vec<[u8; 48]>,
    block_data: &[u8],
    block_data_hash: &[u8; 32],
    chain_id: u64,
) -> (r: Result<Vec<(Vec<u8>, [u8; 20])>, DecodeError>)
    requires
        forall|k: int| 0 <= k < blobs@.len() ==> (#[trigger] blobs@[k])@.len() == BLOB_SIZE,
    ensures
        match block_transactions(
            blob_tx,
            blob_views(blobs@),
            commitment_views(commitments@),
            block_data@,
            block_data_hash@,
            chain_id,
        ) {
            Ok(txs) => r matches Ok(v) && v@.len() == txs.len() && forall|k: int|
                0 <= k < txs.len() ==> (v@[k].0@, v@[k].1@) == #[trigger] txs[k],
            Err(e) => r == Err::<Vec<(Vec<u8>, [u8; 20])>, DecodeError>(e),
        },
{
    let data = match transactions_data(blob_tx, blobs, commitments, block_data) {
        Ok(d) => d,
        Err(e) => {
            return Err(e);
        },
    };
    let raws = match decode_block_data(data.as_slice(), block_data_hash) {
        Ok(v) => v,
        Err(BlockDataError::HashMismatch) => {
            return Err(DecodeError::HashMismatch);
        },
        Err(BlockDataError::Malformed) => {
            return Err(DecodeError::Malformed);
        },
    };
    let ghost rv = Seq::new(raws@.len(), |k: int| raws@[k]@);
    assert(raw_transactions(data@) == Some(rv)) by {
        assert(raw_transactions(data@).unwrap() =~= rv);
    }
    assert(block_transactions(
        blob_tx,
        blob_views(blobs@),
        commitment_views(commitments@),
        block_data@,
        block_data_hash@,
        chain_id,
    ) == chain_transactions_with_signers(rv, chain_id));
    let mut out: Vec<(Vec<u8>, [u8; 20])> = Vec::new();
    let n = raws.len();
    let mut i: usize = 0;
    assert(rv.subrange(0, 0) =~= Seq::<Seq<u8>>::empty());
    while i < n
        invariant
            n == raws@.len(),
            rv == Seq::new(raws@.len(), |k: int| raws@[k]@),
            block_transactions(
                blob_tx,
                blob_views(blobs@),
                commitment_views(commitments@),
                block_data@,
                block_data_hash@,
                chain_id,
            ) == chain_transactions_with_signers(rv, chain_id),
            i <= n,
            chain_transactions_with_signers(rv.subrange(0, i as int), chain_id) matches Ok(kept) && out@.len()
                == kept.len() && forall|k: int|
                0 <= k < kept.len() ==> (out@[k].0@, out@[k].1@) == #[trigger] kept[k],
        decreases n - i,
    {
        let ghost init = rv.subrange(0, i as int);
        let ghost next = rv.subrange(0, i + 1);
        assert(next.drop_last() =~= init);
        assert(next.last() == raws@[i as int]@);
        match decode_transaction(raws[i].as_slice()) {
            None => {
                proof {
                    lemma_transactions_error_stays(rv, chain_id, i as int + 1);
                }
                return Err(DecodeError::TransactionUndecodable);
            },
            Some((c, signer)) => {
                if c == Some(chain_id) {
                    match signer {
                        None => {
                            proof {
                                lemma_transactions_error_stays(rv, chain_id, i as int + 1);
                            }
                            return Err(DecodeError::SignerUnrecoverable);
                        },
                        Some(a) => {
                            let raw = copy_range(raws[i].as_slice(), 0, raws[i].len());
                            assert(raws@[i as int]@.subrange(0, raws@[i as int]@.len() as int) =~= raws@[i as int]@);
                            out.push((raw, a));
                        },
                    }
                }
            },
        }
        i = i + 1;
    }
    assert(rv.subrange(0, n as int) =~= rv);
    Ok(out)
}

/// Once a prefix of the raw transactions fails, so do all of them.
proof fn lemma_transactions_error_stays(raws: Seq<Seq<u8>>, chain_id: u64, k: int)
    requires
        0 <= k <= raws.len(),
        chain_transactions_with_signers(raws.subrange(0, k), chain_id) is Err,
    ensures
        chain_transactions_with_signers(raws, chain_id) == chain_transactions_with_signers(
            raws.subrange(0, k),
            chain_id,
        ),
    decreases raws.len() - k,
{
    if k < raws.len() {
        let next = raws.subrange(0, k + 1);
        assert(next.drop_last() =~= raws.subrange(0, k));
        lemma_transactions_error_stays(raws, chain_id, k + 1);
    } else {
        assert(raws.subrange(0, k) =~= raws);
    }
}
/// Reading the raw transactions of a block in two parts gives those of the
/// first part followed by those of the second: every transaction of the
/// rollup's chain is kept, in order, none replaced; the first failure, in order,
/// fails them all.
pub proof fn lemma_chain_transactions_concat(a: Seq<Seq<u8>>, b: Seq<Seq<u8>>, chain_id: u64)
    ensures
        chain_transactions_with_signers(a + b, chain_id) == match chain_transactions_with_signers(
            a,
            chain_id,
        ) {
            Err(e) => Err(e),
            Ok(x) => match chain_transactions_with_signers(b, chain_id) {
                Err(e) => Err(e),
                Ok(y) => Ok(x + y),
            },
        },
    decreases b.len(),
{
    if b.len() == 0 {
        assert(a + b =~= a);
        if let Ok(x) = chain_transactions_with_signers(a, chain_id) {
            assert(x + Seq::<(Seq<u8>, Seq<u8>)>::empty() =~= x);
        }
    } else {
        assert((a + b).drop_last() =~= a + b.drop_last());
        assert((a + b).last() == b.last());
        lemma_chain_transactions_concat(a, b.drop_last(), chain_id);
        if let Ok(x) = chain_transactions_with_signers(a, chain_id) {
            if let Ok(y) = chain_transactions_with_signers(b.drop_last(), chain_id) {
                if let Some((c, s)) = spec_decode_transaction(b.last()) {
                    if c == Some(chain_id) {
                        if let Some(addr) = s {
                            assert((x + y).push((b.last(), addr)) =~= x + y.push((b.last(), addr)));
                        }
                    }
                }
            }
        }
    }
}

/// What one raw transaction gives: its bytes and signer where it is signed for
/// the rollup's chain and its signer recovers; nothing where it is for another
/// chain; a failure where it does not decode or its signer does not recover.
pub proof fn lemma_chain_transactions_single(raw: Seq<u8>, chain_id: u64)
    ensures
        chain_transactions_with_signers(seq![raw], chain_id) == match spec_decode_transaction(raw) {
            None => Err(DecodeError::TransactionUndecodable),
            Some((c, s)) => if c == Some(chain_id) {
                match s {
                    None => Err(DecodeError::SignerUnrecoverable),
                    Some(addr) => Ok(seq![(raw, addr)]),
                }
            } else {
                Ok(Seq::<(Seq<u8>, Seq<u8>)>::empty())
            },
        },
{
    assert(seq![raw].drop_last() =~= Seq::<Seq<u8>>::empty());
    assert(seq![raw].last() == raw);
    assert(chain_transactions_with_signers(Seq::<Seq<u8>>::empty(), chain_id) == Ok::<
        Seq<(Seq<u8>, Seq<u8>)>,
        DecodeError,
    >(Seq::empty()));
    if let Some((c, s)) = spec_decode_transaction(raw) {
        if let Some(addr) = s {
            assert(Seq::<(Seq<u8>, Seq<u8>)>::empty().push((raw, addr)) =~= seq![(raw, addr)]);
        }
    }
}

} // verus!
