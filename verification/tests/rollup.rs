use alloy_consensus::{EthereumTxEnvelope, SignableTransaction, TxEip1559, TxEip4844};
use alloy_eips::eip2718::Encodable2718;
use alloy_eips::eip4844::builder::{SidecarBuilder, SimpleCoder};
use alloy_primitives::{Address, TxKind, U256};
use alloy_signer::SignerSync;
use alloy_signer_local::PrivateKeySigner;
use exex_examples::rollup::{
    check_rollup_chain_id, construct_header, decode_block_data, decode_transactions, has_parent, DecodeError,
    keep_chain_transactions, select_blobs, u256_to_u64, BlockDataError, BlockGas, ExecutionError, HeaderError,
    BaseFeeParams, HeaderFields, ParentBlock, ReceiptLog, ReceiptSummary, TxOutcome, INITIAL_BASE_FEE,
};

fn eth() -> BaseFeeParams {
    BaseFeeParams { max_change_denominator: 8, elasticity_multiplier: 2 }
}

fn u256(v: u64) -> [u8; 32] {
    let mut a = [0u8; 32];
    a[24..].copy_from_slice(&v.to_be_bytes());
    a
}

#[test]
fn u256_conversions() {
    assert_eq!(u256_to_u64(&u256(0)), Some(0));
    assert_eq!(u256_to_u64(&u256(u64::MAX)), Some(u64::MAX));
    let mut big = u256(0);
    big[23] = 1;
    assert_eq!(u256_to_u64(&big), None);
    assert!(!has_parent(&u256(0)));
    assert!(has_parent(&u256(1)));
    assert!(has_parent(&big));
}

#[test]
fn rollup_chain_id_is_checked() {
    assert_eq!(check_rollup_chain_id(&u256(17001), 17001), Ok(()));
    assert_eq!(check_rollup_chain_id(&u256(1), 17001), Err("Invalid rollup chain ID".to_string()));
}

#[test]
fn header_fields() {
    assert_eq!(
        construct_header(&u256(0), &u256(1_500_000), &u256(1_700_000_000), true, None, eth()),
        Ok(HeaderFields {
            parent_hash: [0u8; 32],
            number: 0,
            gas_limit: 1_500_000,
            timestamp: 1_700_000_000,
            base_fee_per_gas: INITIAL_BASE_FEE
        })
    );
    assert_eq!(INITIAL_BASE_FEE, 1_000_000_000);
    assert_eq!(INITIAL_BASE_FEE, alloy_eips::eip1559::INITIAL_BASE_FEE);
    assert_eq!(
        construct_header(
            &u256(5),
            &u256(30_000_000),
            &u256(9),
            false,
            Some(ParentBlock { hash: [4u8; 32], gas_used: 15_000_000, gas_limit: 30_000_000, base_fee_per_gas: Some(875_000_000) }),
            eth()
        ),
        Ok(HeaderFields {
            parent_hash: [4u8; 32],
            number: 5,
            gas_limit: 30_000_000,
            timestamp: 9,
            base_fee_per_gas: 875_000_000
        })
    );
    assert_eq!(construct_header(&u256(5), &u256(1), &u256(1), false, None, eth()), Err(HeaderError::ParentNotFound));
    assert_eq!(construct_header(&u256(5), &u256(1), &u256(1), false, Some(ParentBlock { hash: [4u8; 32], gas_used: 0, gas_limit: 30_000_000, base_fee_per_gas: None }), eth()), Err(HeaderError::BaseFeeUnknown));
    let mut big = u256(0);
    big[0] = 1;
    assert_eq!(construct_header(&big, &u256(1), &u256(1), true, None, eth()), Err(HeaderError::NumberTooLarge));
    assert_eq!(construct_header(&u256(1), &big, &u256(1), true, None, eth()), Err(HeaderError::GasLimitTooLarge));
    assert_eq!(construct_header(&u256(1), &u256(1), &big, true, None, eth()), Err(HeaderError::TimestampTooLarge));
}

#[test]
fn block_data_is_checked_and_split() {
    // RLP list of two byte strings: [0x01], [0xaa, 0xbb]
    let data = vec![0xc4u8, 0x01, 0x82, 0xaa, 0xbb];
    let hash = alloy_primitives::keccak256(&data).0;
    let txs = decode_block_data(&data, &hash).unwrap();
    assert_eq!(txs, vec![vec![0x01u8], vec![0xaa, 0xbb]]);
    assert_eq!(decode_block_data(&data, &[0u8; 32]), Err(BlockDataError::HashMismatch));
    let bad = vec![0xc4u8, 0x01, 0x82, 0xaa, 0xbb, 0x00];
    let bad_hash = alloy_primitives::keccak256(&bad).0;
    assert_eq!(decode_block_data(&bad, &bad_hash), Err(BlockDataError::Malformed));
    let empty = vec![0xc0u8];
    let empty_hash = alloy_primitives::keccak256(&empty).0;
    assert_eq!(decode_block_data(&empty, &empty_hash), Ok(vec![]));
}

#[test]
fn chain_transactions_are_kept() {
    assert_eq!(keep_chain_transactions(&[Some(17001), None, Some(1), Some(17001)], 17001), vec![0, 3]);
}

#[test]
fn gas_accounting() {
    let mut g = BlockGas::new(1_500_000);
    assert_eq!(g.available(), 1_500_000);
    assert_eq!(g.check_gas_limit(1_000_000), Ok(()));
    let deposit_log = ReceiptLog { address: [0xeeu8; 20], topics: vec![[0xd0u8; 32]], data: vec![0, 1] };
    assert_eq!(
        g.record(0, 2, 1_000_000, TxOutcome::Executed { gas_used: 50_000, success: true, logs: vec![deposit_log.clone()] }),
        Ok(())
    );
    assert_eq!(g.record(1, 2, 1_000_000, TxOutcome::Invalid), Ok(()));
    assert_eq!(g.record(2, 1, 100_000, TxOutcome::Executed { gas_used: 21_000, success: false, logs: vec![] }), Ok(()));
    assert_eq!(g.cumulative_gas_used(), 71_000);
    assert_eq!(
        g.receipts(),
        &vec![
            ReceiptSummary { tx_index: 0, tx_type: 2, success: true, cumulative_gas_used: 50_000, logs: vec![deposit_log] },
            ReceiptSummary { tx_index: 2, tx_type: 1, success: false, cumulative_gas_used: 71_000, logs: vec![] },
        ]
    );
    assert_eq!(
        g.check_gas_limit(1_500_000),
        Err(ExecutionError::GasLimitMoreThanAvailable { transaction_gas_limit: 1_500_000, block_available_gas: 1_429_000 })
    );
    assert_eq!(g.record(3, 2, 10, TxOutcome::Fatal), Err(ExecutionError::Fatal));
    assert_eq!(g.cumulative_gas_used(), 71_000);
}

#[test]
fn blobs_are_selected_by_versioned_hash() {
    let commitments = vec![[1u8; 48], [2u8; 48], [3u8; 48]];
    let hash = |c: &[u8; 48]| alloy_eips::eip4844::kzg_to_versioned_hash(c).0;
    assert_eq!(hash(&commitments[0])[0], 1);
    let wanted = vec![hash(&commitments[2]), hash(&commitments[0])];
    assert_eq!(select_blobs(&commitments, &wanted), Ok(vec![0, 2]));
    let missing = vec![hash(&commitments[1]), [0u8; 32]];
    assert_eq!(select_blobs(&commitments, &missing), Err("some blobs not found".to_string()));
}

fn signed_transfer(signer: &PrivateKeySigner, chain_id: u64, nonce: u64) -> Vec<u8> {
    let tx = TxEip1559 {
        chain_id,
        nonce,
        gas_limit: 21_000,
        max_fee_per_gas: 2_000_000_000,
        max_priority_fee_per_gas: 1_000_000_000,
        to: TxKind::Call(Address::repeat_byte(0x11)),
        value: U256::from(5u64),
        ..Default::default()
    };
    let sig = signer.sign_hash_sync(&tx.signature_hash()).unwrap();
    let envelope: EthereumTxEnvelope<TxEip4844> = EthereumTxEnvelope::Eip1559(tx.into_signed(sig));
    envelope.encoded_2718()
}

fn rlp_list_of_strings(items: &[Vec<u8>]) -> Vec<u8> {
    let mut payload = Vec::new();
    for item in items {
        alloy_rlp::Header { list: false, payload_length: item.len() }.encode(&mut payload);
        payload.extend_from_slice(item);
    }
    let mut out = Vec::new();
    alloy_rlp::Header { list: true, payload_length: payload.len() }.encode(&mut out);
    out.extend_from_slice(&payload);
    out
}

#[test]
fn rollup_transactions_are_decoded_with_their_signers() {
    let signer = PrivateKeySigner::from_slice(&[7u8; 32]).unwrap();
    let mine = signed_transfer(&signer, 17001, 0);
    let other = signed_transfer(&signer, 1, 1);
    let data = rlp_list_of_strings(&[mine.clone(), other]);
    let hash = alloy_primitives::keccak256(&data).0;
    let txs = decode_transactions(false, &vec![], &vec![], &data, &hash, 17001).unwrap();
    assert_eq!(txs, vec![(mine.clone(), signer.address().0 .0)]);
    assert_eq!(decode_transactions(false, &vec![], &vec![], &data, &hash, 5).unwrap(), vec![]);
    assert_eq!(
        decode_transactions(false, &vec![], &vec![], &data, &[0u8; 32], 17001),
        Err(DecodeError::HashMismatch)
    );
    let garbage = rlp_list_of_strings(&[vec![0x01u8, 0x02], mine]);
    let garbage_hash = alloy_primitives::keccak256(&garbage).0;
    assert_eq!(
        decode_transactions(false, &vec![], &vec![], &garbage, &garbage_hash, 17001),
        Err(DecodeError::TransactionUndecodable)
    );
    let not_a_list = vec![0x82u8, 0xaa, 0xbb];
    let not_a_list_hash = alloy_primitives::keccak256(&not_a_list).0;
    assert_eq!(
        decode_transactions(false, &vec![], &vec![], &not_a_list, &not_a_list_hash, 17001),
        Err(DecodeError::Malformed)
    );
}

#[test]
fn rollup_transactions_are_read_from_blobs() {
    let signer = PrivateKeySigner::from_slice(&[9u8; 32]).unwrap();
    let mine = signed_transfer(&signer, 17001, 3);
    let data = rlp_list_of_strings(&[mine.clone()]);
    let hash = alloy_primitives::keccak256(&data).0;
    let blobs: Vec<Vec<u8>> =
        SidecarBuilder::<SimpleCoder>::from_slice(&data).take().into_iter().map(|b| b.to_vec()).collect();
    assert_eq!(blobs.len(), 1);
    let commitments = vec![[4u8; 48], [5u8; 48]];
    let versioned = alloy_eips::eip4844::kzg_to_versioned_hash(&commitments[1]).0;
    let other = alloy_eips::eip4844::kzg_to_versioned_hash(&commitments[0]).0;
    let filler = vec![0xffu8; blobs[0].len()];
    let both = vec![filler, blobs[0].clone()];
    let block_data = rlp_list_of_strings(&[versioned.to_vec()]);
    assert_eq!(
        decode_transactions(true, &both, &commitments, &block_data, &hash, 17001).unwrap(),
        vec![(mine, signer.address().0 .0)]
    );
    let unknown = rlp_list_of_strings(&[[0u8; 32].to_vec()]);
    assert_eq!(
        decode_transactions(true, &both, &commitments, &unknown, &hash, 17001),
        Err(DecodeError::SomeBlobsNotFound)
    );
    let wrong_blob = rlp_list_of_strings(&[other.to_vec()]);
    assert_eq!(
        decode_transactions(true, &both, &commitments, &wrong_blob, &hash, 17001),
        Err(DecodeError::BlobsUndecodable)
    );
    assert_eq!(
        decode_transactions(true, &both, &commitments, &[0x01u8], &hash, 17001),
        Err(DecodeError::Malformed)
    );
}

#[test]
fn base_fee_follows_the_parent() {
    let parent = |used: u64, fee: u64| {
        Some(ParentBlock { hash: [1u8; 32], gas_used: used, gas_limit: 30_000_000, base_fee_per_gas: Some(fee) })
    };
    let fee = |used: u64, fee: u64| {
        construct_header(&u256(9), &u256(30_000_000), &u256(1), false, parent(used, fee), eth())
            .unwrap()
            .base_fee_per_gas
    };
    assert_eq!(fee(15_000_000, 1_000_000_000), 1_000_000_000);
    assert_eq!(fee(30_000_000, 1_000_000_000), 1_125_000_000);
    assert_eq!(fee(0, 1_000_000_000), 875_000_000);
    assert_eq!(fee(15_000_001, 7), 8);
    for (used, base) in [(0u64, 1u64), (1, 1_000), (29_999_999, 123_456_789), (20_000_000, 10_000_000_000)] {
        assert_eq!(
            fee(used, base),
            alloy_eips::eip1559::calc_next_block_base_fee(
                used,
                30_000_000,
                base,
                alloy_eips::eip1559::BaseFeeParams::ethereum()
            )
        );
    }
}
