//! Blobs kept in memory by the block they came with, for the derivation pipeline:
//! a store of bounded size that forgets the block it learned of first when it
//! is full, and gives a block's blobs back for the blob hashes asked for.
use vstd::prelude::*;
use crate::bytes::same_bytes;

verus! {

/// The blobs of each block, in the order the blocks were first stored.
pub type EntriesView = Seq<(Seq<u8>, Seq<Seq<u8>>)>;

/// Blobs as plain values.
pub open spec fn blobs_view(v: Seq<Vec<u8>>) -> Seq<Seq<u8>> {
    Seq::new(v.len(), |k: int| v[k]@)
}

/// The position of a block among the entries, or -1.
pub open spec fn index_of(e: EntriesView, key: Seq<u8>) -> int
    decreases e.len(),
{
    if e.len() == 0 {
        -1
    } else if e.last().0 == key {
        e.len() - 1
    } else {
        index_of(e.drop_last(), key)
    }
}

/// The entries after blobs came for a block: they are added to the block's blobs
/// where the block is stored; else the block is stored last, after the block
/// stored first was forgotten where the store was full. A store of capacity 0
/// keeps nothing.
pub open spec fn after_insert(e: EntriesView, capacity: nat, key: Seq<u8>, blobs: Seq<Seq<u8>>) -> EntriesView {
    let i = index_of(e, key);
    if i >= 0 {
        e.update(i, (key, e[i].1 + blobs))
    } else if capacity == 0 {
        e
    } else if e.len() >= capacity {
        e.drop_first().push((key, blobs))
    } else {
        e.push((key, blobs))
    }
}

/// What the store gives for a block and a number of blob hashes asked for: for
/// each hash, all the blobs of the block; `None` where the block is not stored.
pub open spec fn loaded(e: EntriesView, key: Seq<u8>, hashes: nat) -> Option<Seq<Seq<u8>>> {
    let i = index_of(e, key);
    if i >= 0 {
        Some(repeat(e[i].1, hashes))
    } else {
        None
    }
}

/// `s`, `n` times over.
pub open spec fn repeat(s: Seq<Seq<u8>>, n: nat) -> Seq<Seq<u8>>
    decreases n,
{
    if n == 0 {
        Seq::empty()
    } else {
        repeat(s, (n - 1) as nat) + s
    }
}

proof fn lemma_index_of(e: EntriesView, key: Seq<u8>)
    ensures
        -1 <= index_of(e, key) < e.len(),
        index_of(e, key) >= 0 ==> e[index_of(e, key)].0 == key,
        forall|j: int| index_of(e, key) < j < e.len() ==> e[j].0 != key,
    decreases e.len(),
{
    if e.len() > 0 {
        let init = e.drop_last();
        lemma_index_of(init, key);
        assert forall|j: int| index_of(e, key) < j < e.len() implies e[j].0 != key by {
            if j < e.len() - 1 {
                assert(e[j] == init[j]);
            }
        }
    }
}

/// A copy of some bytes.
fn copy_bytes(v: &Vec<u8>) -> (r: Vec<u8>)
    ensures
        r@ == v@,
{
    let mut r: Vec<u8> = Vec::new();
    let n = v.len();
    let mut i: usize = 0;
    while i < n
        invariant
            n == v@.len(),
            i <= n,
            r@ == v@.subrange(0, i as int),
        decreases n - i,
    {
        r.push(v[i]);
        assert(r@ =~= v@.subrange(0, i + 1));
        i = i + 1;
    }
    assert(r@ =~= v@);
    r
}

/// Blobs kept by block.
pub struct BlobStore {
    capacity: usize,
    entries: Vec<([u8; 32], Vec<Vec<u8>>)>,
}

impl View for BlobStore {
    type V = EntriesView;

    closed spec fn view(&self) -> EntriesView {
        Seq::new(self.entries@.len(), |k: int| (self.entries@[k].0@, blobs_view(self.entries@[k].1@)))
    }
}

impl BlobStore {
    /// The number of blocks kept at most.
    pub closed spec fn spec_capacity(&self) -> nat {
        self.capacity as nat
    }

    /// No block is held twice, and no more than the capacity are held.
    pub closed spec fn wf(&self) -> bool {
        &&& self@.len() <= self.capacity
        &&& forall|i: int, j: int| 0 <= i < j < self@.len() ==> self@[i].0 != self@[j].0
    }

    /// An empty store for at most `capacity` blocks.
    pub fn with_capacity(capacity: usize) -> (s: BlobStore)
        ensures
            s.wf(),
            s.spec_capacity() == capacity,
            s@ == Seq::<(Seq<u8>, Seq<Seq<u8>>)>::empty(),
    {
        let s = BlobStore { capacity, entries: Vec::new() };
        assert(s@ =~= Seq::<(Seq<u8>, Seq<Seq<u8>>)>::empty());
        s
    }

    /// The position of a block.
    fn position(&self, key: &[u8; 32]) -> (r: Option<usize>)
        ensures
            r is None ==> index_of(self@, key@) == -1,
            r matches Some(k) ==> k as int == index_of(self@, key@) && k < self.entries@.len(),
    {
        proof {
            lemma_index_of(self@, key@);
        }
        let n = self.entries.len();
        let mut k: usize = n;
        while k > 0
            invariant
                k <= n,
                n == self@.len(),
                n == self.entries@.len(),
                -1 <= index_of(self@, key@) < k,
            decreases k,
        {
            assert(self@[k - 1].0 == self.entries@[k - 1].0@);
            if same_bytes(&self.entries[k - 1].0, key) {
                proof {
                    lemma_index_of(self@, key@);
                }
                return Some(k - 1);
            }
            proof {
                lemma_index_of(self@, key@);
            }
            k = k - 1;
        }
        None
    }

    /// Keeps blobs that came with a block (see `after_insert`).
    pub fn insert_blobs(&mut self, block_hash: [u8; 32], blobs: Vec<Vec<u8>>)
        requires
            old(self).wf(),
        ensures
            final(self).wf(),
            final(self).spec_capacity() == old(self).spec_capacity(),
            final(self)@ == after_insert(old(self)@, old(self).spec_capacity(), block_hash@, blobs_view(blobs@)),
    {
        proof {
            lemma_index_of(self@, block_hash@);
        }
        let ghost added = blobs_view(blobs@);
        match self.position(&block_hash) {
            Some(k) => {
                let (key, mut existing) = self.entries.remove(k);
                let ghost before = existing@;
                let mut more = blobs;
                existing.append(&mut more);
                assert(blobs_view(existing@) =~= blobs_view(before) + added);
                self.entries.insert(k, (key, existing));
                assert(self@ =~= old(self)@.update(k as int, (block_hash@, old(self)@[k as int].1 + added)));
            },
            None => {
                if self.capacity == 0 {
                    return;
                }
                if self.entries.len() >= self.capacity {
                    self.entries.remove(0);
                    assert(self@ =~= old(self)@.drop_first());
                }
                let ghost mid = self@;
                self.entries.push((block_hash, blobs));
                assert(self@ =~= mid.push((block_hash@, added)));
                proof {
                    assert forall|j: int| 0 <= j < mid.len() implies mid[j].0 != block_hash@ by {
                        if old(self).entries@.len() >= old(self).capacity {
                            assert(mid[j] == old(self)@[j + 1]);
                        } else {
                            assert(mid[j] == old(self)@[j]);
                        }
                    }
                }
            },
        }
    }

    /// The blobs of a block, all of them once for each of `hashes` blob hashes
    /// asked for; `None` where the block is not kept.
    pub fn memory_blob_load(&self, block_hash: &[u8; 32], hashes: usize) -> (r: Option<Vec<Vec<u8>>>)
        ensures
            r is None <==> loaded(self@, block_hash@, hashes as nat) is None,
            r matches Some(v) ==> loaded(self@, block_hash@, hashes as nat) == Some(blobs_view(v@)),
    {
        match self.position(block_hash) {
            None => None,
            Some(k) => {
                let stored = &self.entries[k].1;
                assert(self@[k as int].1 == blobs_view(stored@));
                let mut out: Vec<Vec<u8>> = Vec::new();
                let mut h: usize = 0;
                assert(blobs_view(out@) =~= repeat(blobs_view(stored@), 0));
                while h < hashes
                    invariant
                        h <= hashes,
                        blobs_view(out@) == repeat(blobs_view(stored@), h as nat),
                    decreases hashes - h,
                {
                    let ghost prev = blobs_view(out@);
                    let m = stored.len();
                    let mut i: usize = 0;
                    while i < m
                        invariant
                            m == stored@.len(),
                            i <= m,
                            blobs_view(out@) == prev + blobs_view(stored@).subrange(0, i as int),
                        decreases m - i,
                    {
                        let b = copy_bytes(&stored[i]);
                        let ghost old_out = out@;
                        out.push(b);
                        assert(blobs_view(out@) =~= blobs_view(old_out).push(stored@[i as int]@));
                        assert(blobs_view(stored@).subrange(0, i + 1) =~= blobs_view(stored@).subrange(
                            0,
                            i as int,
                        ).push(stored@[i as int]@));
                        assert(blobs_view(out@) =~= prev + blobs_view(stored@).subrange(0, i + 1));
                        i = i + 1;
                    }
                    assert(blobs_view(stored@).subrange(0, m as int) =~= blobs_view(stored@));
                    h = h + 1;
                }
                Some(out)
            },
        }
    }
}

/// Blobs stored for a block not yet kept, in a store that can keep blocks, are
/// given back whole for one blob hash asked for.
pub proof fn lemma_read_after_insert(e: EntriesView, capacity: nat, key: Seq<u8>, blobs: Seq<Seq<u8>>)
    requires
        capacity > 0,
        index_of(e, key) == -1,
    ensures
        loaded(after_insert(e, capacity, key, blobs), key, 1) == Some(blobs),
{
    let e2 = after_insert(e, capacity, key, blobs);
    lemma_index_of(e2, key);
    assert(e2.last().0 == key);
    assert(repeat(blobs, 1) =~= blobs) by {
        assert(repeat(blobs, 0) =~= Seq::<Seq<u8>>::empty());
    }
}

/// Blobs that come for a block already kept are added after the ones it had.
pub proof fn lemma_blobs_accumulate(e: EntriesView, capacity: nat, key: Seq<u8>, blobs: Seq<Seq<u8>>)
    requires
        index_of(e, key) >= 0,
    ensures
        loaded(after_insert(e, capacity, key, blobs), key, 1) == Some(e[index_of(e, key)].1 + blobs),
{
    lemma_index_of(e, key);
    let i = index_of(e, key);
    let e2 = after_insert(e, capacity, key, blobs);
    lemma_index_of(e2, key);
    assert(e2[i].0 == key);
    assert forall|j: int| i < j < e2.len() implies e2[j].0 != key by {
        assert(e2[j] == e[j]);
    }
    assert(index_of(e2, key) == i) by {
        if index_of(e2, key) > i {
            assert(e2[index_of(e2, key)].0 != key);
        }
        if index_of(e2, key) < i {
            assert(e2[i].0 != key);
        }
    }
    assert(repeat(e[i].1 + blobs, 1) =~= e[i].1 + blobs) by {
        assert(repeat(e[i].1 + blobs, 0) =~= Seq::<Seq<u8>>::empty());
    }
}

} // verus!
