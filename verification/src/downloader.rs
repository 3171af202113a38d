use vstd::prelude::*;

use crate::error::P2PError;
use crate::file_manager::{copy_strings, FileInfo};
use crate::str_map::StrMap;
use crate::text::{decimal, with_number};

verus! {

/// The most chunks fetched at once.
pub const MAX_CONCURRENT_CHUNKS: usize = 5;

/// How far a download has come.
#[derive(Clone, Copy, Debug)]
pub struct DownloadProgress {
    pub total_chunks: usize,
    pub completed_chunks: usize,
    pub bytes_downloaded: u64,
    pub total_bytes: u64,
    pub peers_count: usize,
}

/// A chunk to fetch in a round: its position, its hash, and the position of
/// the peer to ask among the peers of the round.
#[derive(Clone, Debug)]
pub struct ChunkTask {
    pub index: usize,
    pub hash: String,
    pub peer: usize,
}

/// `t` asks for the chunk at position `i`, whose hash is `hashes[i]`, from
/// the peer at position `i` modulo `peer_count`.
pub open spec fn is_task_for(t: ChunkTask, i: int, hashes: Seq<String>, peer_count: usize) -> bool {
    &&& t.index == i
    &&& t.hash == hashes[i]
    &&& t.peer == i % (peer_count as int)
}

/// The positions of the chunks not yet received, in increasing order.
pub open spec fn pending_indices(r: Seq<Option<Vec<u8>>>) -> Seq<int>
    decreases r.len(),
{
    if r.len() == 0 {
        Seq::empty()
    } else if r.last() is None {
        pending_indices(r.drop_last()).push(r.len() - 1)
    } else {
        pending_indices(r.drop_last())
    }
}

/// The positions of the chunks received.
pub open spec fn received_count(r: Seq<Option<Vec<u8>>>) -> int {
    r.len() - pending_indices(r).len()
}

/// The pending positions are exactly the positions without data, increasing.
pub proof fn lemma_pending_indices(r: Seq<Option<Vec<u8>>>)
    ensures
        forall|j: int| 0 <= j < pending_indices(r).len() ==> 0 <= #[trigger] pending_indices(r)[j] < r.len() && r[pending_indices(r)[j]] is None,
        forall|a: int, b: int| 0 <= a < b < pending_indices(r).len() ==> pending_indices(r)[a] < pending_indices(r)[b],
        forall|i: int| 0 <= i < r.len() && #[trigger] r[i] is None ==> pending_indices(r).contains(i),
        pending_indices(r).len() <= r.len(),
    decreases r.len(),
{
    if r.len() > 0 {
        let s = r.drop_last();
        lemma_pending_indices(s);
        let p = pending_indices(s);
        assert forall|i: int| 0 <= i < r.len() && #[trigger] r[i] is None implies pending_indices(r).contains(i) by {
            if i < r.len() - 1 {
                assert(s[i] is None);
                let j = choose|j: int| 0 <= j < p.len() && p[j] == i;
                assert(pending_indices(r)[j] == i);
            } else {
                assert(pending_indices(r)[p.len() as int] == i);
            }
        }
    }
}

/// The pending positions among the first `i` chunks begin those among all.
pub proof fn lemma_pending_prefix(r: Seq<Option<Vec<u8>>>, i: int)
    requires
        0 <= i <= r.len(),
    ensures
        pending_indices(r.take(i)).len() <= pending_indices(r).len(),
        pending_indices(r).take(pending_indices(r.take(i)).len() as int) == pending_indices(r.take(i)),
        forall|j: int| pending_indices(r.take(i)).len() <= j < pending_indices(r).len() ==> #[trigger] pending_indices(r)[j] >= i,
    decreases r.len() - i,
{
    if i < r.len() {
        lemma_pending_prefix(r, i + 1);
        let t = r.take(i + 1);
        assert(t.drop_last() =~= r.take(i));
        lemma_pending_indices(r);
        assert(pending_indices(r).take(pending_indices(r.take(i)).len() as int) =~= pending_indices(r.take(i)));
    } else {
        assert(r.take(i) =~= r);
        assert(pending_indices(r).take(pending_indices(r).len() as int) =~= pending_indices(r));
    }
}

/// Each round makes progress: recording data for a missing chunk removes
/// exactly that chunk from the missing ones, keeping their order.
pub proof fn lemma_record_progress(r: Seq<Option<Vec<u8>>>, i: int, data: Vec<u8>)
    requires
        0 <= i < r.len(),
        r[i] is None,
    ensures
        pending_indices(r.update(i, Some(data))) == pending_indices(r).remove(pending_indices(r).index_of(i)),
        pending_indices(r.update(i, Some(data))).len() == pending_indices(r).len() - 1,
    decreases r.len(),
{
    let u = r.update(i, Some(data));
    lemma_pending_indices(r);
    if i == r.len() - 1 {
        assert(u.drop_last() =~= r.drop_last());
        let p = pending_indices(r.drop_last());
        assert(pending_indices(r) == p.push(i));
        lemma_pending_indices(r.drop_last());
        assert(!p.contains(i)) by {
            if p.contains(i) {
                let j = choose|j: int| 0 <= j < p.len() && p[j] == i;
                assert(p[j] < r.drop_last().len());
            }
        }
        assert(pending_indices(r).index_of(i) == p.len()) by {
            assert(pending_indices(r)[p.len() as int] == i);
            assert forall|j: int| 0 <= j < p.len() implies pending_indices(r)[j] != i by {
                assert(pending_indices(r)[j] == p[j]);
            }
        }
        assert(pending_indices(r).remove(p.len() as int) =~= p);
    } else {
        lemma_record_progress(r.drop_last(), i, data);
        assert(u.drop_last() =~= r.drop_last().update(i, Some(data)));
        let p = pending_indices(r.drop_last());
        let q = pending_indices(u.drop_last());
        lemma_pending_indices(r.drop_last());
        assert(p.contains(i)) by {
            assert(r.drop_last()[i] is None);
        }
        let k = p.index_of(i);
        assert(p[k] == i);
        if r.last() is None {
            assert(pending_indices(r) == p.push(r.len() - 1));
            assert(pending_indices(u) == q.push(r.len() - 1));
            assert(pending_indices(r).index_of(i) == k) by {
                assert(pending_indices(r)[k] == i);
                assert forall|j: int| 0 <= j < k implies pending_indices(r)[j] != i by {
                    assert(pending_indices(r)[j] == p[j]);
                }
            }
            assert(pending_indices(r).remove(k) =~= p.remove(k).push(r.len() - 1));
        } else {
            assert(pending_indices(r) == p);
            assert(pending_indices(u) == q);
        }
    }
}

/// The fetching of the chunks of one file from the peers, round by round.
/// Each round asks for at most five of the chunks still missing, the one at
/// position `i` from the peer at position `i` modulo the number of peers; the
/// data that comes back is recorded until every chunk is in.
pub struct ChunkDownload {
    chunk_hashes: Vec<String>,
    received: Vec<Option<Vec<u8>>>,
}

impl ChunkDownload {
    /// The hashes of the chunks, in order.
    pub closed spec fn hashes(&self) -> Seq<String> {
        self.chunk_hashes@
    }

    /// What has been received for each chunk.
    pub closed spec fn got(&self) -> Seq<Option<Vec<u8>>> {
        self.received@
    }

    pub closed spec fn wf(&self) -> bool {
        self.chunk_hashes@.len() == self.received@.len()
    }

    /// A download of the chunks of `file_info`, none received yet.
    pub fn new(file_info: &FileInfo) -> (d: ChunkDownload)
        ensures
            d.wf(),
            d.hashes() == file_info.chunk_hashes@,
            d.got() == Seq::new(file_info.chunk_hashes@.len(), |i: int| None::<Vec<u8>>),
    {
        let hashes = copy_strings(&file_info.chunk_hashes);
        let mut received: Vec<Option<Vec<u8>>> = Vec::with_capacity(hashes.len());
        for i in 0..hashes.len()
            invariant
                received@ == Seq::new(i as nat, |j: int| None::<Vec<u8>>),
        {
            received.push(None);
            assert(received@ =~= Seq::new((i + 1) as nat, |j: int| None::<Vec<u8>>));
        }
        ChunkDownload { chunk_hashes: hashes, received }
    }

    /// Whether every chunk is in.
    pub fn is_finished(&self) -> (b: bool)
        requires
            self.wf(),
        ensures
            b == (pending_indices(self.got()).len() == 0),
    {
        proof {
            lemma_pending_indices(self.got());
        }
        let mut i: usize = 0;
        while i < self.received.len()
            invariant
                i <= self.received@.len(),
                forall|j: int| 0 <= j < i ==> self.received@[j] is Some,
            decreases self.received@.len() - i,
        {
            if self.received[i].is_none() {
                proof {
                    lemma_pending_indices(self.got());
                    assert(self.got()[i as int] is None);
                    assert(pending_indices(self.got()).contains(i as int));
                }
                return false;
            }
            i += 1;
        }
        proof {
            if pending_indices(self.got()).len() > 0 {
                let k = pending_indices(self.got())[0];
                assert(self.got()[k] is None);
            }
        }
        true
    }

    /// The number of chunks received.
    pub fn completed_count(&self) -> (n: usize)
        requires
            self.wf(),
        ensures
            n == received_count(self.got()),
    {
        let mut n: usize = 0;
        let mut i: usize = 0;
        while i < self.received.len()
            invariant
                i <= self.received@.len(),
                n == received_count(self.received@.take(i as int)),
                n <= i,
            decreases self.received@.len() - i,
        {
            proof {
                let t = self.received@.take(i + 1);
                assert(t.drop_last() =~= self.received@.take(i as int));
                lemma_pending_indices(self.received@.take(i as int));
            }
            if self.received[i].is_some() {
                n += 1;
            }
            i += 1;
        }
        assert(self.received@.take(self.received@.len() as int) =~= self.received@);
        n
    }

    /// The chunks to ask for in the next round from `peer_count` peers: the
    /// first five still missing, each with the peer at its position modulo
    /// the number of peers.
    pub fn next_batch(&self, peer_count: usize) -> (r: Vec<ChunkTask>)
        requires
            self.wf(),
            peer_count > 0,
        ensures
            r@.len() == if pending_indices(self.got()).len() < MAX_CONCURRENT_CHUNKS {
                pending_indices(self.got()).len() as int
            } else {
                MAX_CONCURRENT_CHUNKS as int
            },
            forall|j: int| 0 <= j < r@.len() ==> is_task_for(#[trigger] r@[j], pending_indices(self.got())[j], self.hashes(), peer_count),
    {
        let ghost g = self.got();
        let mut batch: Vec<ChunkTask> = Vec::new();
        let mut i: usize = 0;
        while i < self.received.len() && batch.len() < MAX_CONCURRENT_CHUNKS
            invariant
                self.wf(),
                peer_count > 0,
                g == self.got(),
                i <= g.len(),
                batch@.len() == pending_indices(g.take(i as int)).len(),
                batch@.len() <= MAX_CONCURRENT_CHUNKS,
                forall|j: int| 0 <= j < batch@.len() ==> is_task_for(#[trigger] batch@[j], pending_indices(g.take(i as int))[j], self.hashes(), peer_count),
            decreases g.len() - i,
        {
            proof {
                let t = g.take(i + 1);
                assert(t.drop_last() =~= g.take(i as int));
                lemma_pending_indices(g.take(i as int));
            }
            if self.received[i].is_none() {
                batch.push(ChunkTask { index: i, hash: self.chunk_hashes[i].clone(), peer: i % peer_count });
            }
            i += 1;
        }
        proof {
            lemma_pending_prefix(g, i as int);
            let p = pending_indices(g);
            let q = pending_indices(g.take(i as int));
            assert forall|j: int| 0 <= j < q.len() implies p[j] == q[j] by {
                assert(p.take(q.len() as int)[j] == p[j]);
            }
            if i == g.len() {
                assert(g.take(i as int) =~= g);
            }
            assert forall|j: int| 0 <= j < batch@.len() implies is_task_for(#[trigger] batch@[j], p[j], self.hashes(), peer_count) by {
                assert(p[j] == q[j]);
            }
        }
        batch
    }

    /// Record the data received for the chunk at `index`.
    pub fn record_chunk(&mut self, index: usize, data: Vec<u8>)
        requires
            old(self).wf(),
            index < old(self).got().len(),
        ensures
            final(self).wf(),
            final(self).hashes() == old(self).hashes(),
            final(self).got() == old(self).got().update(index as int, Some(data)),
    {
        self.received.set(index, Some(data));
    }

    /// The data of every chunk, in order; the first missing chunk, if any, is
    /// an incomplete download.
    pub fn assemble(self) -> (r: Result<Vec<Vec<u8>>, P2PError>)
        requires
            self.wf(),
        ensures
            pending_indices(self.got()).len() == 0 ==> (r matches Ok(v) && v@.len() == self.got().len()
                && forall|i: int| 0 <= i < v@.len() ==> self.got()[i] == Some(#[trigger] v@[i])),
            pending_indices(self.got()).len() > 0 ==> (r matches Err(P2PError::IncompleteDownload(s))
                && s@ == "Missing chunk "@ + decimal(pending_indices(self.got())[0] as nat)),
    {
        proof {
            lemma_pending_indices(self.got());
        }
        let ghost g = self.got();
        let mut received = self.received;
        let mut out: Vec<Vec<u8>> = Vec::with_capacity(received.len());
        let n = received.len();
        let mut i: usize = 0;
        while i < n
            invariant
                g == self.got(),
                n == g.len(),
                i <= n,
                received@.len() == n,
                forall|j: int| i <= j < n ==> received@[j] == g[j],
                out@.len() == i,
                forall|j: int| 0 <= j < i ==> g[j] == Some(#[trigger] out@[j]),
            decreases n - i,
        {
            let mut slot: Option<Vec<u8>> = None;
            std::mem::swap(&mut slot, &mut received[i]);
            match slot {
                Some(data) => {
                    out.push(data);
                },
                None => {
                    proof {
                        lemma_pending_indices(g);
                        assert(g[i as int] is None);
                        let p = pending_indices(g);
                        assert(p.contains(i as int));
                        let j = choose|j: int| 0 <= j < p.len() && p[j] == i as int;
                        if j > 0 {
                            assert(p[0] < p[j]);
                            let k = p[0];
                            assert(0 <= k < g.len());
                            assert(g[k] is None);
                            assert(g[k] == Some(out@[k]));
                        }
                        assert(p[0] == i as int);
                    }
                    return Err(P2PError::IncompleteDownload(with_number("Missing chunk ", i as u64)));
                },
            }
            i += 1;
        }
        proof {
            lemma_pending_indices(g);
            if pending_indices(g).len() > 0 {
                let k = pending_indices(g)[0];
                assert(g[k] is None);
                assert(g[k] == Some(out@[k]));
            }
        }
        Ok(out)
    }
}

/// The error when no peer could give the information of `file_hash`: no peer
/// at all, or none that had it.
pub fn file_info_failure(peer_count: usize, file_hash: &str) -> (e: P2PError)
    ensures
        peer_count == 0 ==> e matches P2PError::NoPeersAvailable,
        peer_count > 0 ==> (e matches P2PError::FileNotFound(h) && h@ == file_hash@),
{
    if peer_count == 0 {
        P2PError::NoPeersAvailable
    } else {
        P2PError::FileNotFound(String::from_str(file_hash))
    }
}

/// The downloads under way, by file hash.
pub struct Downloader {
    active_downloads: StrMap<DownloadProgress>,
}

impl Downloader {
    /// The progress of each download under way.
    pub closed spec fn downloads(&self) -> Map<Seq<char>, DownloadProgress> {
        self.active_downloads.view()
    }

    pub closed spec fn wf(&self) -> bool {
        self.active_downloads.wf()
    }

    pub fn new() -> (d: Downloader)
        ensures
            d.wf(),
            d.downloads() == Map::<Seq<char>, DownloadProgress>::empty(),
    {
        Downloader { active_downloads: StrMap::new() }
    }

    /// Start tracking the download of `file_info`: nothing received yet.
    pub fn start_download(&mut self, file_info: &FileInfo)
        requires
            old(self).wf(),
        ensures
            final(self).wf(),
            final(self).downloads() == old(self).downloads().insert(
                file_info.hash@,
                DownloadProgress {
                    total_chunks: file_info.chunk_count,
                    completed_chunks: 0,
                    bytes_downloaded: 0,
                    total_bytes: file_info.size,
                    peers_count: 0,
                },
            ),
    {
        let progress = DownloadProgress {
            total_chunks: file_info.chunk_count,
            completed_chunks: 0,
            bytes_downloaded: 0,
            total_bytes: file_info.size,
            peers_count: 0,
        };
        self.active_downloads.insert(file_info.hash.clone(), progress);
    }

    /// Note, at the start of a round, the chunks received and the peers used.
    pub fn update_progress(&mut self, file_hash: &str, completed_chunks: usize, peers_count: usize)
        requires
            old(self).wf(),
        ensures
            final(self).wf(),
            old(self).downloads().dom().contains(file_hash@) ==> final(self).downloads() == old(self).downloads().insert(
                file_hash@,
                DownloadProgress { completed_chunks, peers_count, ..old(self).downloads()[file_hash@] },
            ),
            !old(self).downloads().dom().contains(file_hash@) ==> final(self).downloads() == old(self).downloads(),
    {
        let found = match self.active_downloads.get(file_hash) {
            Some(p) => Some(*p),
            None => None,
        };
        if let Some(p) = found {
            let updated = DownloadProgress { completed_chunks, peers_count, ..p };
            self.active_downloads.insert(String::from_str(file_hash), updated);
        }
    }

    /// Stop tracking the download of `file_hash`.
    pub fn finish_download(&mut self, file_hash: &str)
        requires
            old(self).wf(),
        ensures
            final(self).wf(),
            final(self).downloads() == old(self).downloads().remove(file_hash@),
    {
        self.active_downloads.remove(file_hash);
    }

    /// The progress of the download of `file_hash`, if under way.
    pub fn get_download_progress(&self, file_hash: &str) -> (r: Option<DownloadProgress>)
        requires
            self.wf(),
        ensures
            r matches Some(p) ==> self.downloads().dom().contains(file_hash@) && p == self.downloads()[file_hash@],
            r is None ==> !self.downloads().dom().contains(file_hash@),
    {
        match self.active_downloads.get(file_hash) {
            Some(p) => Some(*p),
            None => None,
        }
    }
}

} // verus!
