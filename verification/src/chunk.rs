use vstd::prelude::*;

use crate::crypto::{content_hash, HashUtils};
use crate::error::P2PError;
use crate::num_map::NumMap;
use crate::str_map::StrMap;

verus! {

/// The chunk size for a file of `file_size` bytes: a file of at most 4 KiB is
/// one chunk, a small file gets 4 KiB chunks, a medium one 16 KiB, a large one 64 KiB.
pub open spec fn chunk_size_for(file_size: int) -> int {
    if file_size <= 4096 {
        file_size
    } else if file_size <= 32768 {
        4096
    } else if file_size <= 131072 {
        16384
    } else {
        65536
    }
}

/// The chunk size for a file of `file_size` bytes.
pub fn optimal_chunk_size(file_size: usize) -> (s: usize)
    ensures
        s == chunk_size_for(file_size as int),
        file_size > 131072 ==> s == CHUNK_SIZE,
        s <= CHUNK_SIZE,
{
    if file_size <= 4096 {
        file_size
    } else if file_size <= 32768 {
        4096
    } else if file_size <= 131072 {
        16384
    } else {
        64 * 1024
    }
}

/// The chunk size of large files (64 KiB).
pub const CHUNK_SIZE: usize = 65536;

/// Every file larger than 128 KiB is cut into chunks of exactly `CHUNK_SIZE`
/// bytes; no file gets chunks larger than `CHUNK_SIZE`; a non-empty file gets
/// a positive chunk size no larger than the file; and a larger file never gets
/// smaller chunks than a smaller one.
pub proof fn lemma_chunk_size_law(n: int, m: int)
    ensures
        n > 131072 ==> chunk_size_for(n) == CHUNK_SIZE,
        chunk_size_for(n) <= CHUNK_SIZE,
        n > 0 ==> 0 < chunk_size_for(n) <= n,
        n <= m ==> chunk_size_for(n) <= chunk_size_for(m),
{
}

/// A piece of a file, addressed by the hex SHA-256 of its data.
#[derive(Clone, Debug)]
pub struct Chunk {
    pub index: usize,
    pub hash: String,
    pub data: Vec<u8>,
    pub size: usize,
}

/// Whether a chunk's data hashes to its recorded hash.
pub open spec fn chunk_valid(c: Chunk) -> bool {
    content_hash(c.data@) == c.hash@
}

impl Chunk {
    /// The chunk at `index` holding `data`, with its hash and size.
    pub fn new(index: usize, data: Vec<u8>) -> (c: Chunk)
        ensures
            c.index == index,
            c.data@ == data@,
            c.hash@ == content_hash(data@),
            c.size == data@.len(),
            chunk_valid(c),
    {
        let hash = HashUtils::hash_data(data.as_slice());
        let size = data.len();
        Chunk { index, hash, data, size }
    }

    /// Whether the data matches the recorded hash.
    pub fn verify(&self) -> (ok: bool)
        ensures
            ok == chunk_valid(*self),
    {
        let computed = HashUtils::hash_data(self.data.as_slice());
        computed == self.hash
    }

    /// Whether the chunk holds data that matches its hash.
    pub fn is_complete(&self) -> (ok: bool)
        ensures
            ok == (self.data@.len() > 0 && chunk_valid(*self)),
    {
        !self.data.is_empty() && self.verify()
    }
}

/// The strings' character sequences.
pub open spec fn views(s: Seq<String>) -> Seq<Seq<char>> {
    s.map_values(|h: String| h@)
}

/// `k` is the first position in `hashes` that names no chunk.
pub open spec fn first_missing(hashes: Seq<Seq<char>>, chunks: Map<Seq<char>, Chunk>, k: int) -> bool {
    &&& 0 <= k < hashes.len()
    &&& !chunks.dom().contains(hashes[k])
    &&& forall|j: int| 0 <= j < k ==> chunks.dom().contains(#[trigger] hashes[j])
}

/// Each chunk of `m` is filed under its own hash, and its data matches it.
pub open spec fn stored_under_own_hash(m: Map<Seq<char>, Chunk>) -> bool {
    forall|h: Seq<char>| #[trigger] m.dom().contains(h) ==> m[h].hash@ == h && chunk_valid(m[h])
}

/// Chunks by hash, and the hash of the chunk last added at each index.
pub struct ChunkManager {
    chunks: StrMap<Chunk>,
    chunk_by_index: NumMap<String>,
}

impl ChunkManager {
    /// The chunks, by hash.
    pub closed spec fn chunks(&self) -> Map<Seq<char>, Chunk> {
        self.chunks.view()
    }

    /// The hash recorded for each index.
    pub closed spec fn by_index(&self) -> Map<int, Seq<char>> {
        Map::new(
            |i: int| 0 <= i <= u128::MAX && self.chunk_by_index.view().dom().contains(i as u128),
            |i: int| self.chunk_by_index.view()[i as u128]@,
        )
    }

    pub closed spec fn wf(&self) -> bool {
        &&& self.chunks.wf()
        &&& self.chunk_by_index.wf()
        &&& stored_under_own_hash(self.chunks.view())
    }

    /// Every stored chunk sits under its own hash, and its data matches that
    /// hash; a chunk that the index leads to is that chunk.
    pub proof fn lemma_store_valid(&self)
        requires
            self.wf(),
        ensures
            stored_under_own_hash(self.chunks()),
            self.chunks().dom().finite(),
            forall|i: int| #[trigger] self.by_index().dom().contains(i) && self.chunks().dom().contains(self.by_index()[i])
                ==> self.chunks()[self.by_index()[i]].hash@ == self.by_index()[i],
    {
        self.chunks.lemma_view();
    }

    /// An empty manager.
    pub fn new() -> (m: ChunkManager)
        ensures
            m.wf(),
            m.chunks() == Map::<Seq<char>, Chunk>::empty(),
            m.by_index() == Map::<int, Seq<char>>::empty(),
    {
        let m = ChunkManager { chunks: StrMap::new(), chunk_by_index: NumMap::new() };
        assert(m.by_index() =~= Map::<int, Seq<char>>::empty());
        m
    }

    /// Add a chunk whose data matches its hash; a chunk that does not match is
    /// refused with `ChunkVerificationFailed` and its hash.
    pub fn add_chunk(&mut self, chunk: Chunk) -> (r: Result<(), P2PError>)
        requires
            old(self).wf(),
        ensures
            final(self).wf(),
            chunk_valid(chunk) ==> {
                &&& r is Ok
                &&& final(self).chunks() == old(self).chunks().insert(chunk.hash@, chunk)
                &&& final(self).by_index() == old(self).by_index().insert(chunk.index as int, chunk.hash@)
                &&& final(self).chunks().len() == old(self).chunks().len() + if old(self).chunks().dom().contains(
                    chunk.hash@,
                ) {
                    0int
                } else {
                    1int
                }
            },
            !chunk_valid(chunk) ==> {
                &&& r matches Err(P2PError::ChunkVerificationFailed(h)) && h@ == chunk.hash@
                &&& final(self).chunks() == old(self).chunks()
                &&& final(self).by_index() == old(self).by_index()
            },
    {
        if !chunk.verify() {
            return Err(P2PError::ChunkVerificationFailed(chunk.hash.clone()));
        }
        let ghost old_index = self.chunk_by_index.view();
        self.chunk_by_index.insert(chunk.index as u128, chunk.hash.clone());
        let key = chunk.hash.clone();
        let ghost c = chunk;
        proof {
            self.chunks.lemma_view();
        }
        self.chunks.insert(key, chunk);
        proof {
            self.chunks.lemma_view();
            let om = old(self).chunks();
            if om.dom().contains(c.hash@) {
                assert(om.insert(c.hash@, c).dom() =~= om.dom());
            } else {
                assert(om.insert(c.hash@, c).dom() =~= om.dom().insert(c.hash@));
            }
        }
        assert(self.by_index() =~= old(self).by_index().insert(c.index as int, c.hash@));
        Ok(())
    }

    /// The chunk with hash `hash`.
    pub fn get_chunk(&self, hash: &str) -> (r: Option<&Chunk>)
        requires
            self.wf(),
        ensures
            r matches Some(c) ==> self.chunks().dom().contains(hash@) && *c == self.chunks()[hash@] && c.hash@ == hash@
                && chunk_valid(*c),
            r is None ==> !self.chunks().dom().contains(hash@),
    {
        self.chunks.get(hash)
    }

    /// The chunk whose hash is recorded at `index`.
    pub fn get_chunk_by_index(&self, index: usize) -> (r: Option<&Chunk>)
        requires
            self.wf(),
        ensures
            r matches Some(c) ==> self.by_index().dom().contains(index as int) && self.chunks().dom().contains(
                self.by_index()[index as int],
            ) && *c == self.chunks()[self.by_index()[index as int]] && c.hash@ == self.by_index()[index as int]
                && chunk_valid(*c),
            r is None ==> !self.by_index().dom().contains(index as int) || !self.chunks().dom().contains(
                self.by_index()[index as int],
            ),
    {
        match self.chunk_by_index.get(index as u128) {
            Some(hash) => self.chunks.get(hash.as_str()),
            None => None,
        }
    }

    /// Whether a chunk has hash `hash`.
    pub fn has_chunk(&self, hash: &str) -> (r: bool)
        requires
            self.wf(),
        ensures
            r == self.chunks().dom().contains(hash@),
    {
        self.chunks.contains_key(hash)
    }

    /// The number of chunks.
    pub fn chunk_count(&self) -> (n: usize)
        requires
            self.wf(),
        ensures
            n == self.chunks().len(),
    {
        self.chunks.len()
    }

    /// Remove the chunk with hash `hash`, and the hash recorded at its index.
    pub fn remove_chunk(&mut self, hash: &str) -> (r: Option<Chunk>)
        requires
            old(self).wf(),
        ensures
            final(self).wf(),
            match r {
                Some(c) => {
                    &&& old(self).chunks().dom().contains(hash@)
                    &&& c == old(self).chunks()[hash@]
                    &&& final(self).chunks() == old(self).chunks().remove(hash@)
                    &&& final(self).by_index() == old(self).by_index().remove(c.index as int)
                    &&& final(self).chunks().len() == old(self).chunks().len() - 1
                },
                None => {
                    &&& !old(self).chunks().dom().contains(hash@)
                    &&& final(self).chunks() == old(self).chunks()
                    &&& final(self).by_index() == old(self).by_index()
                },
            },
    {
        proof {
            self.chunks.lemma_view();
        }
        match self.chunks.remove(hash) {
            Some(chunk) => {
                proof {
                    self.chunks.lemma_view();
                    assert(old(self).chunks().remove(hash@).dom() =~= old(self).chunks().dom().remove(hash@));
                }
                self.chunk_by_index.remove(chunk.index as u128);
                assert(self.by_index() =~= old(self).by_index().remove(chunk.index as int));
                Some(chunk)
            },
            None => None,
        }
    }

    /// The data of the chunks named by `chunk_hashes`, in that order; the first
    /// hash that names no chunk is reported as `ChunkNotFound`.
    pub fn get_chunks_ordered(&self, chunk_hashes: &[String]) -> (r: Result<Vec<Vec<u8>>, P2PError>)
        requires
            self.wf(),
        ensures
            match r {
                Ok(datas) => {
                    &&& datas@.len() == chunk_hashes@.len()
                    &&& forall|i: int| 0 <= i < chunk_hashes@.len() ==> {
                        &&& self.chunks().dom().contains(#[trigger] chunk_hashes@[i]@)
                        &&& datas@[i]@ == self.chunks()[chunk_hashes@[i]@].data@
                    }
                },
                Err(e) => exists|k: int| {
                    &&& #[trigger] first_missing(views(chunk_hashes@), self.chunks(), k)
                    &&& e matches P2PError::ChunkNotFound(h) && h@ == chunk_hashes@[k]@
                },
            },
    {
        let ghost hs = views(chunk_hashes@);
        let mut chunks: Vec<Vec<u8>> = Vec::new();
        for i in 0..chunk_hashes.len()
            invariant
                self.wf(),
                hs == views(chunk_hashes@),
                chunks@.len() == i,
                forall|j: int| 0 <= j < i ==> {
                    &&& self.chunks().dom().contains(#[trigger] chunk_hashes@[j]@)
                    &&& chunks@[j]@ == self.chunks()[chunk_hashes@[j]@].data@
                },
        {
            match self.get_chunk(chunk_hashes[i].as_str()) {
                Some(chunk) => {
                    chunks.push(copy_bytes(&chunk.data));
                },
                None => {
                    proof {
                        assert(first_missing(hs, self.chunks(), i as int)) by {
                            assert forall|j: int| 0 <= j < i implies self.chunks().dom().contains(#[trigger] hs[j]) by {
                                assert(hs[j] == chunk_hashes@[j]@);
                            }
                        }
                    }
                    return Err(P2PError::ChunkNotFound(chunk_hashes[i].clone()));
                },
            }
        }
        Ok(chunks)
    }
}

/// One call in the history of a chunk manager, as `add_chunk` (of a valid
/// chunk, `(true, c)`) and `remove_chunk` (of a stored chunk, `(false, c)`)
/// state it: `a` becomes `b`.
pub open spec fn chunk_step(a: ChunkManager, b: ChunkManager, e: (bool, Chunk)) -> bool {
    if e.0 {
        &&& b.chunks() == a.chunks().insert(e.1.hash@, e.1)
        &&& b.by_index() == a.by_index().insert(e.1.index as int, e.1.hash@)
    } else {
        &&& b.chunks() == a.chunks().remove(e.1.hash@)
        &&& b.by_index() == a.by_index().remove(e.1.index as int)
    }
}

/// What the index holds after a history of adds and removes from an empty
/// manager: nothing at an index where no chunk was ever added; and the hash of
/// the last chunk added at an index, when no later call added or removed a
/// chunk of that index. (Removing a chunk clears the entry of its own index,
/// even when a later chunk was added there since: then neither holds.)
/// With `get_chunk_by_index`, a lookup at such an index gives the chunk
/// stored under that hash, if it is still stored.
pub proof fn lemma_index_history(ms: Seq<ChunkManager>, evs: Seq<(bool, Chunk)>, i: int)
    requires
        ms.len() == evs.len() + 1,
        ms[0].by_index() == Map::<int, Seq<char>>::empty(),
        forall|k: int| 0 <= k < evs.len() ==> #[trigger] chunk_step(ms[k], ms[k + 1], evs[k]),
    ensures
        (forall|k: int| 0 <= k < evs.len() && (#[trigger] evs[k]).0 ==> evs[k].1.index as int != i) ==> !ms.last().by_index().dom().contains(i),
        forall|p: int|
            0 <= p < evs.len() && (#[trigger] evs[p]).0 && evs[p].1.index as int == i && (forall|q: int| p < q < evs.len() ==> (#[trigger] evs[q]).1.index as int != i)
                ==> ms.last().by_index().dom().contains(i) && ms.last().by_index()[i] == evs[p].1.hash@,
    decreases evs.len(),
{
    let n = evs.len() as int;
    if n > 0 {
        let ms0 = ms.drop_last();
        let evs0 = evs.drop_last();
        assert forall|k: int| 0 <= k < evs0.len() implies #[trigger] chunk_step(ms0[k], ms0[k + 1], evs0[k]) by {
            assert(chunk_step(ms[k], ms[k + 1], evs[k]));
        }
        lemma_index_history(ms0, evs0, i);
        assert(chunk_step(ms[n - 1], ms[n], evs[n - 1]));
        assert(ms0.last() == ms[n - 1]);
        if forall|k: int| 0 <= k < evs.len() && (#[trigger] evs[k]).0 ==> evs[k].1.index as int != i {
            assert forall|k: int| 0 <= k < evs0.len() && (#[trigger] evs0[k]).0 implies evs0[k].1.index as int != i by {
                assert(evs0[k] == evs[k]);
            }
        }
        assert forall|p: int|
            0 <= p < evs.len() && (#[trigger] evs[p]).0 && evs[p].1.index as int == i && (forall|q: int| p < q < evs.len() ==> (#[trigger] evs[q]).1.index as int != i)
                implies ms.last().by_index().dom().contains(i) && ms.last().by_index()[i] == evs[p].1.hash@ by {
            if p < n - 1 {
                assert(evs0[p] == evs[p]);
                assert forall|q: int| p < q < evs0.len() implies (#[trigger] evs0[q]).1.index as int != i by {
                    assert(evs0[q] == evs[q]);
                }
                assert(evs[n - 1].1.index as int != i);
            }
        }
    }
}

/// A copy of a byte vector.
pub fn copy_bytes(v: &Vec<u8>) -> (r: Vec<u8>)
    ensures
        r@ == v@,
{
    let mut r: Vec<u8> = Vec::with_capacity(v.len());
    for i in 0..v.len()
        invariant
            r@ == v@.take(i as int),
    {
        r.push(v[i]);
        assert(r@ =~= v@.take(i + 1));
    }
    assert(v@.take(v@.len() as int) =~= v@);
    r
}

} // verus!
