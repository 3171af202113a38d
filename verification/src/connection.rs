use vstd::prelude::*;

use crate::clock::{elapsed_ms, elapsed_millis};
use crate::error::P2PError;
use crate::net::SocketAddress;
use crate::num_map::{lemma_push_contains, lemma_take_one_more, NumMap};

verus! {

/// Milliseconds of silence after which a connection is stale: five minutes.
pub const CONNECTION_TIMEOUT_MS: u64 = 300000;

/// A connection to a peer; times are milliseconds of the clock.
#[derive(Clone, Copy, Debug)]
pub struct ConnectionInfo {
    pub peer_id: u128,
    pub addr: SocketAddress,
    pub connected_at: u64,
    pub last_activity: u64,
    pub bytes_sent: u64,
    pub bytes_received: u64,
}

/// A connection last active at `c.last_activity` is stale at `now` when more
/// than five minutes have passed.
pub open spec fn is_stale(c: ConnectionInfo, now: u64) -> bool {
    elapsed_ms(c.last_activity, now) > CONNECTION_TIMEOUT_MS
}

/// The open connections of a node, by peer, never more than its limit.
pub struct ConnectionManager {
    connections: NumMap<ConnectionInfo>,
    max_connections: usize,
    connection_timeout: u64,
}

impl ConnectionManager {
    /// The connections, by peer.
    pub closed spec fn conns(&self) -> Map<u128, ConnectionInfo> {
        self.connections.view()
    }

    /// The most connections allowed.
    pub closed spec fn max(&self) -> usize {
        self.max_connections
    }

    pub closed spec fn wf(&self) -> bool {
        &&& self.connections.wf()
        &&& self.connections.view().len() <= self.max_connections
        &&& self.connection_timeout == CONNECTION_TIMEOUT_MS
    }

    /// A manager of at most `max_connections` connections, with none yet.
    pub fn new(max_connections: usize) -> (m: ConnectionManager)
        ensures
            m.wf(),
            m.max() == max_connections,
            m.conns() == Map::<u128, ConnectionInfo>::empty(),
    {
        ConnectionManager {
            connections: NumMap::new(),
            max_connections,
            connection_timeout: CONNECTION_TIMEOUT_MS,
        }
    }

    /// Record a new connection to `peer_id` at `addr`, made at `now`; refused
    /// when the limit is reached.
    pub fn add_connection(&mut self, peer_id: u128, addr: SocketAddress, now: u64) -> (r: Result<(), P2PError>)
        requires
            old(self).wf(),
        ensures
            final(self).wf(),
            final(self).max() == old(self).max(),
            old(self).conns().len() < old(self).max() ==> r is Ok && final(self).conns() == old(self).conns().insert(
                peer_id,
                ConnectionInfo { peer_id, addr, connected_at: now, last_activity: now, bytes_sent: 0, bytes_received: 0 },
            ),
            old(self).conns().len() >= old(self).max() ==> r == Err::<(), P2PError>(P2PError::TooManyPeers(old(self).max()))
                && final(self).conns() == old(self).conns(),
    {
        if self.connections.len() >= self.max_connections {
            return Err(P2PError::TooManyPeers(self.max_connections));
        }
        let info = ConnectionInfo { peer_id, addr, connected_at: now, last_activity: now, bytes_sent: 0, bytes_received: 0 };
        proof {
            self.connections.lemma_view();
        }
        self.connections.insert(peer_id, info);
        proof {
            self.connections.lemma_view();
            let m = old(self).conns();
            if m.dom().contains(peer_id) {
                assert(m.insert(peer_id, info).dom() =~= m.dom());
            } else {
                assert(m.insert(peer_id, info).dom() =~= m.dom().insert(peer_id));
            }
        }
        Ok(())
    }

    /// Forget the connection to `peer_id`; whether there was one.
    pub fn remove_connection(&mut self, peer_id: u128) -> (removed: bool)
        requires
            old(self).wf(),
        ensures
            final(self).wf(),
            final(self).max() == old(self).max(),
            final(self).conns() == old(self).conns().remove(peer_id),
            removed == old(self).conns().dom().contains(peer_id),
    {
        proof {
            self.connections.lemma_view();
        }
        let r = self.connections.remove(peer_id);
        proof {
            self.connections.lemma_view();
            let m = old(self).conns();
            if m.dom().contains(peer_id) {
                assert(m.remove(peer_id).dom() =~= m.dom().remove(peer_id));
            } else {
                assert(m.remove(peer_id).dom() =~= m.dom());
            }
        }
        r.is_some()
    }

    /// Count traffic on the connection to `peer_id` and mark it active at `now`.
    pub fn update_activity(&mut self, peer_id: u128, bytes_sent: u64, bytes_received: u64, now: u64)
        requires
            old(self).wf(),
            old(self).conns().dom().contains(peer_id) ==> old(self).conns()[peer_id].bytes_sent + bytes_sent <= u64::MAX
                && old(self).conns()[peer_id].bytes_received + bytes_received <= u64::MAX,
        ensures
            final(self).wf(),
            final(self).max() == old(self).max(),
            old(self).conns().dom().contains(peer_id) ==> final(self).conns() == old(self).conns().insert(
                peer_id,
                ConnectionInfo {
                    last_activity: now,
                    bytes_sent: (old(self).conns()[peer_id].bytes_sent + bytes_sent) as u64,
                    bytes_received: (old(self).conns()[peer_id].bytes_received + bytes_received) as u64,
                    ..old(self).conns()[peer_id]
                },
            ),
            !old(self).conns().dom().contains(peer_id) ==> final(self).conns() == old(self).conns(),
    {
        proof {
            self.connections.lemma_view();
        }
        let found = match self.connections.get(peer_id) {
            Some(c) => Some(*c),
            None => None,
        };
        if let Some(c) = found {
            let updated = ConnectionInfo {
                last_activity: now,
                bytes_sent: c.bytes_sent + bytes_sent,
                bytes_received: c.bytes_received + bytes_received,
                ..c
            };
            self.connections.insert(peer_id, updated);
            proof {
                self.connections.lemma_view();
                assert(old(self).conns().insert(peer_id, updated).dom() =~= old(self).conns().dom());
            }
        }
    }

    /// Drop the connections that are stale at `now`, giving their peers.
    pub fn cleanup_stale_connections(&mut self, now: u64) -> (r: Vec<u128>)
        requires
            old(self).wf(),
        ensures
            final(self).wf(),
            final(self).max() == old(self).max(),
            r@.no_duplicates(),
            forall|k: u128| #[trigger] r@.contains(k) <==> old(self).conns().dom().contains(k) && is_stale(
                old(self).conns()[k],
                now,
            ),
            forall|k: u128| #[trigger] final(self).conns().dom().contains(k) <==> old(self).conns().dom().contains(k)
                && !is_stale(old(self).conns()[k], now),
            forall|k: u128| #[trigger] final(self).conns().dom().contains(k) ==> final(self).conns()[k] == old(self).conns()[k],
    {
        let ks = self.connections.keys();
        let ghost m = old(self).conns();
        let mut stale: Vec<u128> = Vec::new();
        let mut i: usize = 0;
        while i < ks.len()
            invariant
                self.wf(),
                self.max() == old(self).max(),
                ks@.no_duplicates(),
                forall|k: u128| #[trigger] m.dom().contains(k) <==> ks@.contains(k),
                i <= ks@.len(),
                stale@.no_duplicates(),
                forall|k: u128| #[trigger] stale@.contains(k) <==> ks@.take(i as int).contains(k) && is_stale(m[k], now),
                forall|k: u128| #[trigger] self.conns().dom().contains(k) <==> m.dom().contains(k) && !(ks@.take(i as int).contains(k)
                    && is_stale(m[k], now)),
                forall|k: u128| #[trigger] self.conns().dom().contains(k) ==> self.conns()[k] == m[k],
            decreases ks@.len() - i,
        {
            let k = ks[i];
            proof {
                self.connections.lemma_view();
                assert(ks@.contains(k));
                assert(self.conns().dom().contains(k)) by {
                    if ks@.take(i as int).contains(k) {
                        let j = choose|j: int| 0 <= j < i && ks@.take(i as int)[j] == k;
                        assert(ks@[j] == ks@[i as int]);
                    }
                }
            }
            let c = match self.connections.get(k) {
                Some(c) => *c,
                None => {
                    return stale;
                },
            };
            let gone = elapsed_millis(c.last_activity, now) > self.connection_timeout;
            assert(c == m[k]);
            assert(gone == is_stale(m[k], now));
            let ghost before = stale@;
            if gone {
                self.connections.remove(k);
                proof {
                    self.connections.lemma_view();
                    assert(!stale@.contains(k));
                }
                stale.push(k);
                proof {
                    lemma_push_contains(before, k);
                    assert(stale@ == before.push(k));
                }
            }
            proof {
                self.connections.lemma_view();
                lemma_take_one_more(ks@, i as int);
            }
            i += 1;
        }
        proof {
            assert(ks@.take(ks@.len() as int) =~= ks@);
        }
        stale
    }

    /// A manager never holds more connections than its limit.
    pub proof fn lemma_connection_limit(&self)
        requires
            self.wf(),
        ensures
            self.conns().len() <= self.max(),
    {
    }

    /// The number of open connections.
    pub fn get_connection_count(&self) -> (n: usize)
        requires
            self.wf(),
        ensures
            n == self.conns().len(),
    {
        self.connections.len()
    }

    /// The connection to `peer_id`.
    pub fn get_connection_info(&self, peer_id: u128) -> (r: Option<ConnectionInfo>)
        requires
            self.wf(),
        ensures
            r matches Some(c) ==> self.conns().dom().contains(peer_id) && c == self.conns()[peer_id],
            r is None ==> !self.conns().dom().contains(peer_id),
    {
        match self.connections.get(peer_id) {
            Some(c) => Some(*c),
            None => None,
        }
    }

    /// Every connection, each once.
    pub fn list_connections(&self) -> (r: Vec<ConnectionInfo>)
        requires
            self.wf(),
        ensures
            r@.len() == self.conns().len(),
            exists|ids: Seq<u128>| {
                &&& #[trigger] ids.len() == r@.len()
                &&& ids.no_duplicates()
                &&& forall|i: int| 0 <= i < r@.len() ==> self.conns().dom().contains(#[trigger] ids[i]) && r@[i] == self.conns()[ids[i]]
            },
    {
        let refs = self.connections.values();
        let ks = self.connections.keys();
        let mut r: Vec<ConnectionInfo> = Vec::with_capacity(refs.len());
        for i in 0..refs.len()
            invariant
                r@.len() == i,
                forall|j: int| 0 <= j < i ==> #[trigger] r@[j] == *refs@[j],
        {
            r.push(*refs[i]);
        }
        proof {
            assert(ks@.len() == r@.len());
        }
        r
    }
}

} // verus!
