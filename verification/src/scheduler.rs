use vstd::prelude::*;

use crate::clock::{elapsed_ms, elapsed_millis};
use crate::num_map::{lemma_push_contains, lemma_take_one_more};
use crate::str_map::{distinct, StrMap};

verus! {

/// A request for a chunk; `requested_at` is in milliseconds of the clock.
#[derive(Clone, Debug)]
pub struct ChunkRequest {
    pub chunk_hash: String,
    pub chunk_index: usize,
    pub requested_at: u64,
    pub peer_id: Option<u128>,
}

/// A request in progress since `r.requested_at` is stale at `now` when more
/// than `timeout_secs` seconds have passed.
pub open spec fn request_stale(r: ChunkRequest, timeout_secs: u64, now: u64) -> bool {
    elapsed_ms(r.requested_at, now) > timeout_secs * 1000
}

/// The first position in `s` of a request for `hash`.
pub open spec fn first_request_for(s: Seq<ChunkRequest>, hash: Seq<char>, i: int) -> bool {
    &&& 0 <= i < s.len()
    &&& s[i].chunk_hash@ == hash
    &&& forall|j: int| 0 <= j < i ==> (#[trigger] s[j]).chunk_hash@ != hash
}

/// The chunk requests of a download: waiting, in progress, and done.
pub struct ChunkScheduler {
    pending_requests: Vec<ChunkRequest>,
    in_progress: StrMap<ChunkRequest>,
    completed: StrMap<Vec<u8>>,
    rarest_first: bool,
}

impl ChunkScheduler {
    /// The requests waiting, oldest first.
    pub closed spec fn pending(&self) -> Seq<ChunkRequest> {
        self.pending_requests@
    }

    /// The requests being served, by chunk hash.
    pub closed spec fn active(&self) -> Map<Seq<char>, ChunkRequest> {
        self.in_progress.view()
    }

    /// The chunks received, by hash.
    pub closed spec fn done(&self) -> Map<Seq<char>, Vec<u8>> {
        self.completed.view()
    }

    pub closed spec fn wf(&self) -> bool {
        &&& self.in_progress.wf()
        &&& self.completed.wf()
    }

    pub fn new() -> (s: ChunkScheduler)
        ensures
            s.wf(),
            s.pending() == Seq::<ChunkRequest>::empty(),
            s.active() == Map::<Seq<char>, ChunkRequest>::empty(),
            s.done() == Map::<Seq<char>, Vec<u8>>::empty(),
    {
        ChunkScheduler {
            pending_requests: Vec::new(),
            in_progress: StrMap::new(),
            completed: StrMap::new(),
            rarest_first: true,
        }
    }

    /// Queue a request for chunk `chunk_index` with hash `chunk_hash`, made at `now`.
    pub fn add_chunk_request(&mut self, chunk_hash: String, chunk_index: usize, now: u64)
        requires
            old(self).wf(),
        ensures
            final(self).wf(),
            final(self).pending() == old(self).pending().push(
                ChunkRequest { chunk_hash, chunk_index, requested_at: now, peer_id: None },
            ),
            final(self).active() == old(self).active(),
            final(self).done() == old(self).done(),
    {
        self.pending_requests.push(ChunkRequest { chunk_hash, chunk_index, requested_at: now, peer_id: None });
    }

    /// Take the oldest waiting request.
    pub fn get_next_request(&mut self) -> (r: Option<ChunkRequest>)
        requires
            old(self).wf(),
        ensures
            final(self).wf(),
            old(self).pending().len() == 0 ==> r is None && final(self).pending() == old(self).pending(),
            old(self).pending().len() > 0 ==> r == Some(old(self).pending()[0]) && final(self).pending()
                == old(self).pending().drop_first(),
            final(self).active() == old(self).active(),
            final(self).done() == old(self).done(),
    {
        if self.pending_requests.len() == 0 {
            None
        } else {
            let r = self.pending_requests.remove(0);
            assert(self.pending_requests@ =~= old(self).pending().drop_first());
            Some(r)
        }
    }

    /// Hand the oldest waiting request for `chunk_hash` to peer `peer_id` at
    /// `now`; nothing happens when none waits.
    pub fn mark_in_progress(&mut self, chunk_hash: String, peer_id: u128, now: u64)
        requires
            old(self).wf(),
        ensures
            final(self).wf(),
            final(self).done() == old(self).done(),
            (forall|j: int| 0 <= j < old(self).pending().len() ==> (#[trigger] old(self).pending()[j]).chunk_hash@ != chunk_hash@)
                ==> final(self).pending() == old(self).pending() && final(self).active() == old(self).active(),
            forall|i: int| first_request_for(old(self).pending(), chunk_hash@, i) ==> {
                &&& final(self).pending() == old(self).pending().remove(i)
                &&& final(self).active() == old(self).active().insert(
                    chunk_hash@,
                    ChunkRequest { peer_id: Some(peer_id), requested_at: now, ..old(self).pending()[i] },
                )
            },
    {
        let mut i: usize = 0;
        while i < self.pending_requests.len()
            invariant
                *self == *old(self),
                self.wf(),
                i <= self.pending_requests@.len(),
                forall|j: int| 0 <= j < i ==> (#[trigger] self.pending_requests@[j]).chunk_hash@ != chunk_hash@,
            decreases self.pending_requests@.len() - i,
        {
            if self.pending_requests[i].chunk_hash == chunk_hash {
                let mut request = self.pending_requests.remove(i);
                let ghost found = request;
                request.peer_id = Some(peer_id);
                request.requested_at = now;
                self.in_progress.insert(chunk_hash, request);
                proof {
                    assert(self.pending_requests@ =~= old(self).pending().remove(i as int));
                    assert forall|k: int| first_request_for(old(self).pending(), chunk_hash@, k) implies k == i by {
                        if k < i {
                            assert(old(self).pending()[k].chunk_hash@ != chunk_hash@);
                        } else if k > i {
                            assert(old(self).pending()[i as int].chunk_hash@ != chunk_hash@);
                        }
                    }
                }
                return;
            }
            i += 1;
        }
    }

    /// Record the data of chunk `chunk_hash`; it is no longer in progress.
    pub fn mark_completed(&mut self, chunk_hash: String, data: Vec<u8>)
        requires
            old(self).wf(),
        ensures
            final(self).wf(),
            final(self).pending() == old(self).pending(),
            final(self).active() == old(self).active().remove(chunk_hash@),
            final(self).done() == old(self).done().insert(chunk_hash@, data),
    {
        self.in_progress.remove(chunk_hash.as_str());
        self.completed.insert(chunk_hash, data);
    }

    /// Put the request for `chunk_hash` back at the end of the queue, if it
    /// was in progress.
    pub fn mark_failed(&mut self, chunk_hash: &str)
        requires
            old(self).wf(),
        ensures
            final(self).wf(),
            final(self).done() == old(self).done(),
            final(self).active() == old(self).active().remove(chunk_hash@),
            old(self).active().dom().contains(chunk_hash@) ==> final(self).pending() == old(self).pending().push(
                old(self).active()[chunk_hash@],
            ),
            !old(self).active().dom().contains(chunk_hash@) ==> final(self).pending() == old(self).pending(),
    {
        if let Some(request) = self.in_progress.remove(chunk_hash) {
            self.pending_requests.push(request);
        }
    }

    /// The numbers of chunks done, in progress and waiting.
    pub fn get_progress(&self) -> (r: (usize, usize, usize))
        requires
            self.wf(),
        ensures
            r == (self.done().len() as usize, self.active().len() as usize, self.pending().len() as usize),
    {
        (self.completed.len(), self.in_progress.len(), self.pending_requests.len())
    }

    /// Put back in the queue, in some order, every request in progress that
    /// is stale at `now`.
    pub fn cleanup_stale_requests(&mut self, timeout_secs: u64, now: u64)
        requires
            old(self).wf(),
        ensures
            final(self).wf(),
            final(self).done() == old(self).done(),
            forall|k: Seq<char>| #[trigger] final(self).active().dom().contains(k) <==> old(self).active().dom().contains(k)
                && !request_stale(old(self).active()[k], timeout_secs, now),
            forall|k: Seq<char>| #[trigger] final(self).active().dom().contains(k) ==> final(self).active()[k] == old(self).active()[k],
            exists|ks: Seq<Seq<char>>| {
                &&& distinct(ks)
                &&& forall|k: Seq<char>| #[trigger] ks.contains(k) <==> old(self).active().dom().contains(k) && request_stale(
                    old(self).active()[k],
                    timeout_secs,
                    now,
                )
                &&& #[trigger] final(self).pending() == old(self).pending() + ks.map_values(|k: Seq<char>| old(self).active()[k])
            },
    {
        let keys = self.in_progress.keys();
        let ghost ks = keys@.map_values(|k: String| k@);
        let ghost m = old(self).active();
        let ghost p0 = old(self).pending();
        let ghost mut moved: Seq<Seq<char>> = Seq::empty();
        let mut i: usize = 0;
        while i < keys.len()
            invariant
                self.wf(),
                self.done() == old(self).done(),
                ks == keys@.map_values(|k: String| k@),
                distinct(ks),
                forall|k: Seq<char>| #[trigger] m.dom().contains(k) <==> ks.contains(k),
                i <= ks.len(),
                distinct(moved),
                forall|k: Seq<char>| #[trigger] moved.contains(k) <==> ks.take(i as int).contains(k) && request_stale(m[k], timeout_secs, now),
                self.pending() == p0 + moved.map_values(|k: Seq<char>| m[k]),
                forall|k: Seq<char>| #[trigger] self.active().dom().contains(k) <==> m.dom().contains(k) && !(ks.take(i as int).contains(k)
                    && request_stale(m[k], timeout_secs, now)),
                forall|k: Seq<char>| #[trigger] self.active().dom().contains(k) ==> self.active()[k] == m[k],
            decreases ks.len() - i,
        {
            let ghost k = ks[i as int];
            assert(keys@[i as int]@ == k);
            proof {
                assert(ks.contains(k));
                lemma_take_one_more(ks, i as int);
                if ks.take(i as int).contains(k) {
                    let j = choose|j: int| 0 <= j < i && ks.take(i as int)[j] == k;
                    assert(ks[j] == ks[i as int]);
                }
                assert(self.active().dom().contains(k));
            }
            let stale = match self.in_progress.get(keys[i].as_str()) {
                Some(req) => {
                    let e = elapsed_millis(req.requested_at, now);
                    timeout_secs <= u64::MAX / 1000 && e > timeout_secs * 1000
                },
                None => false,
            };
            assert(stale == request_stale(m[k], timeout_secs, now));
            if stale {
                let ghost before = self.pending();
                self.mark_failed(keys[i].as_str());
                proof {
                    assert(!moved.contains(k));
                    let moved2 = moved.push(k);
                    assert(moved2.map_values(|x: Seq<char>| m[x]) =~= moved.map_values(|x: Seq<char>| m[x]).push(m[k]));
                    assert(self.pending() =~= p0 + moved2.map_values(|x: Seq<char>| m[x]));
                    lemma_push_contains(moved, k);
                    moved = moved2;
                }
            }
            i += 1;
        }
        proof {
            assert(ks.take(ks.len() as int) =~= ks);
        }
    }
}

} // verus!
