use vstd::prelude::*;

use crate::num_map::lemma_push_contains;
use crate::str_map::StrMap;

verus! {

/// The peers and finished chunks of the swarm that shares one file.
#[derive(Clone, Debug)]
pub struct SwarmInfo {
    pub file_hash: String,
    pub peers: Vec<u128>,
    pub completed_chunks: Vec<String>,
    pub total_chunks: usize,
}

/// The peers of a swarm.
pub open spec fn peer_set(s: SwarmInfo) -> Set<u128> {
    s.peers@.to_set()
}

/// The finished chunks of a swarm, by hash.
pub open spec fn chunk_set(s: SwarmInfo) -> Set<Seq<char>> {
    s.completed_chunks@.map_values(|c: String| c@).to_set()
}

/// Neither a peer nor a chunk is listed twice.
pub open spec fn swarm_wf(s: SwarmInfo) -> bool {
    &&& s.peers@.no_duplicates()
    &&& s.completed_chunks@.map_values(|c: String| c@).no_duplicates()
}

/// Whether `v` holds a string with view `x`.
fn holds_string(v: &Vec<String>, x: &String) -> (r: bool)
    ensures
        r == v@.map_values(|c: String| c@).contains(x@),
{
    let ghost vs = v@.map_values(|c: String| c@);
    let mut i: usize = 0;
    while i < v.len()
        invariant
            vs == v@.map_values(|c: String| c@),
            i <= v@.len(),
            forall|j: int| 0 <= j < i ==> vs[j] != x@,
        decreases v@.len() - i,
    {
        if v[i] == *x {
            assert(vs[i as int] == x@);
            return true;
        }
        i += 1;
    }
    false
}

/// Whether `v` holds `x`.
fn holds_id(v: &Vec<u128>, x: u128) -> (r: bool)
    ensures
        r == v@.contains(x),
{
    let mut i: usize = 0;
    while i < v.len()
        invariant
            i <= v@.len(),
            forall|j: int| 0 <= j < i ==> v@[j] != x,
        decreases v@.len() - i,
    {
        if v[i] == x {
            return true;
        }
        i += 1;
    }
    false
}

/// The swarms the node takes part in, by file hash.
pub struct SwarmManager {
    swarms: StrMap<SwarmInfo>,
}

impl SwarmManager {
    /// The swarms, by file hash.
    pub closed spec fn swarms(&self) -> Map<Seq<char>, SwarmInfo> {
        self.swarms.view()
    }

    pub closed spec fn wf(&self) -> bool {
        &&& self.swarms.wf()
        &&& forall|k: Seq<char>| #[trigger] self.swarms.view().dom().contains(k) ==> swarm_wf(self.swarms.view()[k])
    }

    pub fn new() -> (m: SwarmManager)
        ensures
            m.wf(),
            m.swarms() == Map::<Seq<char>, SwarmInfo>::empty(),
    {
        SwarmManager { swarms: StrMap::new() }
    }

    /// Start (or restart) the swarm of `file_hash`, of `total_chunks` chunks,
    /// with no peers and no chunks done.
    pub fn join_swarm(&mut self, file_hash: String, total_chunks: usize)
        requires
            old(self).wf(),
        ensures
            final(self).wf(),
            final(self).swarms().dom() == old(self).swarms().dom().insert(file_hash@),
            forall|k: Seq<char>| k != file_hash@ && #[trigger] old(self).swarms().dom().contains(k) ==> final(self).swarms()[k] == old(self).swarms()[k],
            final(self).swarms()[file_hash@].file_hash@ == file_hash@,
            peer_set(final(self).swarms()[file_hash@]) == Set::<u128>::empty(),
            chunk_set(final(self).swarms()[file_hash@]) == Set::<Seq<char>>::empty(),
            final(self).swarms()[file_hash@].total_chunks == total_chunks,
    {
        let swarm = SwarmInfo {
            file_hash: file_hash.clone(),
            peers: Vec::new(),
            completed_chunks: Vec::new(),
            total_chunks,
        };
        assert(swarm.peers@.to_set() =~= Set::<u128>::empty());
        assert(swarm.completed_chunks@.map_values(|c: String| c@) =~= Seq::<Seq<char>>::empty());
        assert(chunk_set(swarm) =~= Set::<Seq<char>>::empty());
        self.swarms.insert(file_hash, swarm);
        assert(self.swarms().dom() =~= old(self).swarms().dom().insert(swarm.file_hash@));
    }

    /// Add `peer_id` to the swarm of `file_hash`, if the node is in it.
    pub fn add_peer_to_swarm(&mut self, file_hash: &str, peer_id: u128)
        requires
            old(self).wf(),
        ensures
            final(self).wf(),
            final(self).swarms().dom() == old(self).swarms().dom(),
            forall|k: Seq<char>| k != file_hash@ && #[trigger] old(self).swarms().dom().contains(k) ==> final(self).swarms()[k] == old(self).swarms()[k],
            old(self).swarms().dom().contains(file_hash@) ==> {
                let (s0, s1) = (old(self).swarms()[file_hash@], final(self).swarms()[file_hash@]);
                &&& peer_set(s1) == peer_set(s0).insert(peer_id)
                &&& chunk_set(s1) == chunk_set(s0)
                &&& s1.total_chunks == s0.total_chunks
                &&& s1.file_hash == s0.file_hash
            },
    {
        if let Some(mut swarm) = self.swarms.remove(file_hash) {
            if !holds_id(&swarm.peers, peer_id) {
                let ghost before = swarm.peers@;
                swarm.peers.push(peer_id);
                proof {
                    lemma_push_contains(before, peer_id);
                    assert(swarm.peers@ == before.push(peer_id));
                    assert(swarm.peers@.to_set() =~= before.to_set().insert(peer_id));
                }
            } else {
                assert(swarm.peers@.to_set() =~= swarm.peers@.to_set().insert(peer_id));
            }
            let key = String::from_str(file_hash);
            self.swarms.insert(key, swarm);
            proof {
                assert(self.swarms().dom() =~= old(self).swarms().dom());
            }
        }
    }

    /// Record chunk `chunk_hash` of the swarm of `file_hash` as done, if the
    /// node is in it.
    pub fn mark_chunk_completed(&mut self, file_hash: &str, chunk_hash: String)
        requires
            old(self).wf(),
        ensures
            final(self).wf(),
            final(self).swarms().dom() == old(self).swarms().dom(),
            forall|k: Seq<char>| k != file_hash@ && #[trigger] old(self).swarms().dom().contains(k) ==> final(self).swarms()[k] == old(self).swarms()[k],
            old(self).swarms().dom().contains(file_hash@) ==> {
                let (s0, s1) = (old(self).swarms()[file_hash@], final(self).swarms()[file_hash@]);
                &&& chunk_set(s1) == chunk_set(s0).insert(chunk_hash@)
                &&& peer_set(s1) == peer_set(s0)
                &&& s1.total_chunks == s0.total_chunks
                &&& s1.file_hash == s0.file_hash
            },
    {
        if let Some(mut swarm) = self.swarms.remove(file_hash) {
            let ghost before = swarm.completed_chunks@.map_values(|c: String| c@);
            if !holds_string(&swarm.completed_chunks, &chunk_hash) {
                let ghost h = chunk_hash@;
                swarm.completed_chunks.push(chunk_hash);
                proof {
                    let after = swarm.completed_chunks@.map_values(|c: String| c@);
                    assert(after =~= before.push(h));
                    lemma_push_contains(before, h);
                    assert(after.to_set() =~= before.to_set().insert(h));
                }
            } else {
                assert(before.to_set() =~= before.to_set().insert(chunk_hash@));
            }
            let key = String::from_str(file_hash);
            self.swarms.insert(key, swarm);
            proof {
                assert(self.swarms().dom() =~= old(self).swarms().dom());
            }
        }
    }

    /// The peers of the swarm of `file_hash`, each once; none if the node is
    /// not in it.
    pub fn get_swarm_peers(&self, file_hash: &str) -> (r: Vec<u128>)
        requires
            self.wf(),
        ensures
            r@.no_duplicates(),
            self.swarms().dom().contains(file_hash@) ==> r@.to_set() == peer_set(self.swarms()[file_hash@]),
            !self.swarms().dom().contains(file_hash@) ==> r@.len() == 0,
    {
        match self.swarms.get(file_hash) {
            Some(swarm) => swarm.peers.clone(),
            None => Vec::new(),
        }
    }

    /// The number of finished chunks and the number of chunks of the swarm of
    /// `file_hash`, if the node is in it.
    pub fn completion_counts(&self, file_hash: &str) -> (r: Option<(usize, usize)>)
        requires
            self.wf(),
        ensures
            self.swarms().dom().contains(file_hash@) ==> r == Some(
                (
                    chunk_set(self.swarms()[file_hash@]).len() as usize,
                    self.swarms()[file_hash@].total_chunks,
                ),
            ),
            !self.swarms().dom().contains(file_hash@) ==> r is None,
    {
        match self.swarms.get(file_hash) {
            Some(swarm) => {
                proof {
                    swarm.completed_chunks@.map_values(|c: String| c@).unique_seq_to_set();
                }
                Some((swarm.completed_chunks.len(), swarm.total_chunks))
            },
            None => None,
        }
    }

    /// Leave the swarm of `file_hash`.
    pub fn leave_swarm(&mut self, file_hash: &str)
        requires
            old(self).wf(),
        ensures
            final(self).wf(),
            final(self).swarms() == old(self).swarms().remove(file_hash@),
    {
        self.swarms.remove(file_hash);
    }
}

} // verus!
