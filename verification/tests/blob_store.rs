use exex_examples::blob_store::BlobStore;

#[test]
fn blobs_are_read_back_per_hash_asked() {
    let mut s = BlobStore::with_capacity(256);
    s.insert_blobs([1u8; 32], vec![vec![1, 2], vec![3]]);
    assert_eq!(s.memory_blob_load(&[1u8; 32], 1), Some(vec![vec![1, 2], vec![3]]));
    assert_eq!(
        s.memory_blob_load(&[1u8; 32], 2),
        Some(vec![vec![1, 2], vec![3], vec![1, 2], vec![3]])
    );
    assert_eq!(s.memory_blob_load(&[1u8; 32], 0), Some(vec![]));
    assert_eq!(s.memory_blob_load(&[2u8; 32], 1), None);
}

#[test]
fn blobs_accumulate_per_block() {
    let mut s = BlobStore::with_capacity(2);
    s.insert_blobs([1u8; 32], vec![vec![1]]);
    s.insert_blobs([1u8; 32], vec![vec![2]]);
    assert_eq!(s.memory_blob_load(&[1u8; 32], 1), Some(vec![vec![1], vec![2]]));
}

#[test]
fn the_oldest_block_is_forgotten_when_full() {
    let mut s = BlobStore::with_capacity(2);
    s.insert_blobs([1u8; 32], vec![vec![1]]);
    s.insert_blobs([2u8; 32], vec![vec![2]]);
    s.insert_blobs([3u8; 32], vec![vec![3]]);
    assert_eq!(s.memory_blob_load(&[1u8; 32], 1), None);
    assert_eq!(s.memory_blob_load(&[2u8; 32], 1), Some(vec![vec![2]]));
    assert_eq!(s.memory_blob_load(&[3u8; 32], 1), Some(vec![vec![3]]));
    let mut none = BlobStore::with_capacity(0);
    none.insert_blobs([1u8; 32], vec![vec![1]]);
    assert_eq!(none.memory_blob_load(&[1u8; 32], 1), None);
}
