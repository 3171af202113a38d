use vstd::prelude::*;

use crate::clock::{elapsed_ms, elapsed_millis};
use crate::encoding::{hex_decode, hex_decode_result, hex_decode_spec, hex_error_text, is_valid_hex, HexError};
use crate::error::P2PError;
use crate::file_manager::FileInfo;
use crate::net::SocketAddress;
use crate::num_map::{lemma_take_one_more, NumMap};
use crate::protocol::{Message, MessageType, Payload};
use crate::text::{decimal, with_number, with_text};

verus! {

/// The most peers a node keeps.
pub const MAX_PEERS: usize = 50;

/// The most addresses of discovered peers a node remembers.
pub const MAX_DISCOVERED: usize = 100;

/// Milliseconds without an answer after which a peer counts as gone.
pub const PEER_TIMEOUT_MS: u64 = 60000;

/// What is known of a peer; `last_seen` is in milliseconds of the clock.
#[derive(Clone, Debug)]
pub struct PeerInfo {
    pub id: u128,
    pub addr: SocketAddress,
    pub last_seen: u64,
    pub name: String,
}

/// A connected peer: its identifier, address and display name. The stream
/// that reaches it stays with the caller.
#[derive(Clone, Debug)]
pub struct Peer {
    pub id: u128,
    pub addr: SocketAddress,
    pub name: String,
}

/// The port of an address.
pub open spec fn port_of(addr: SocketAddress) -> u16 {
    match addr {
        SocketAddress::V4 { port, .. } => port,
        SocketAddress::V6 { port, .. } => port,
    }
}

/// `r` is the error `InvalidResponse` with message `text`.
pub open spec fn is_invalid_response<T>(r: Result<T, P2PError>, text: Seq<char>) -> bool {
    r matches Err(P2PError::InvalidResponse(s)) && s@ == text
}

/// `r` is the error `SerializationError` with message `text`.
pub open spec fn is_serialization_error<T>(r: Result<T, P2PError>, text: Seq<char>) -> bool {
    r matches Err(P2PError::SerializationError(s)) && s@ == text
}

impl Peer {
    /// The peer `id` at `addr`, named `Peer-<port>`.
    pub fn new(id: u128, addr: SocketAddress) -> (p: Peer)
        ensures
            p.id == id,
            p.addr == addr,
            p.name@ == "Peer-"@ + decimal(port_of(addr) as nat),
    {
        let name = with_number("Peer-", addr.port() as u64);
        Peer { id, addr, name }
    }

    /// Whether a peer last heard from at `last_ping` still counts as alive at
    /// `now`: less than a minute has passed.
    pub fn is_alive_at(last_ping: u64, now: u64) -> (b: bool)
        ensures
            b == (elapsed_ms(last_ping, now) < PEER_TIMEOUT_MS),
    {
        elapsed_millis(last_ping, now) < PEER_TIMEOUT_MS
    }

    /// The file list in the answer to a file list request: the `files` of
    /// its data. A value that the receiver could not read gives the reader's
    /// message; any other payload has no `files`, which reads as `null`.
    pub fn read_file_list(response: Message) -> (r: Result<Vec<FileInfo>, P2PError>)
        ensures
            response.msg_type == MessageType::FileListResponse ==> match response.data {
                Some(Payload::Files(fs)) => r == Ok::<Vec<FileInfo>, P2PError>(fs),
                Some(Payload::Unreadable(msg)) => is_serialization_error(r, msg@),
                Some(_) => is_serialization_error(r, "invalid type: null, expected a sequence"@),
                None => is_invalid_response(r, "Expected file list response"@),
            },
            response.msg_type != MessageType::FileListResponse ==> is_invalid_response(r, "Expected file list response"@),
    {
        if response.msg_type == MessageType::FileListResponse {
            match response.data {
                Some(Payload::Files(fs)) => return Ok(fs),
                Some(Payload::Unreadable(msg)) => return Err(P2PError::SerializationError(msg)),
                Some(_) => return Err(
                    P2PError::SerializationError(String::from_str("invalid type: null, expected a sequence")),
                ),
                None => {},
            }
        }
        Err(P2PError::InvalidResponse(String::from_str("Expected file list response")))
    }

    /// The file record in the answer to a file information request: its data.
    /// A value that the receiver could not read gives the reader's message;
    /// `null` is not a record, and any other payload lacks the `hash` field.
    pub fn read_file_info(response: Message) -> (r: Result<FileInfo, P2PError>)
        ensures
            response.msg_type == MessageType::FileInfoResponse ==> match response.data {
                Some(Payload::Info(i)) => r == Ok::<FileInfo, P2PError>(i),
                Some(Payload::Unreadable(msg)) => is_serialization_error(r, msg@),
                Some(Payload::Other) => is_serialization_error(r, "invalid type: null, expected struct FileInfo"@),
                Some(_) => is_serialization_error(r, "missing field `hash`"@),
                None => is_invalid_response(r, "Expected file info response"@),
            },
            response.msg_type != MessageType::FileInfoResponse ==> is_invalid_response(r, "Expected file info response"@),
    {
        if response.msg_type == MessageType::FileInfoResponse {
            match response.data {
                Some(Payload::Info(i)) => return Ok(i),
                Some(Payload::Unreadable(msg)) => return Err(P2PError::SerializationError(msg)),
                Some(Payload::Other) => return Err(
                    P2PError::SerializationError(String::from_str("invalid type: null, expected struct FileInfo")),
                ),
                Some(_) => return Err(P2PError::SerializationError(String::from_str("missing field `hash`"))),
                None => {},
            }
        }
        Err(P2PError::InvalidResponse(String::from_str("Expected file info response")))
    }

    /// The bytes in the answer to a chunk request, decoded from hex.
    pub fn read_chunk(response: Message) -> (r: Result<Vec<u8>, P2PError>)
        ensures
            response.msg_type == MessageType::ChunkResponse ==> match response.data {
                Some(Payload::ChunkData { data, .. }) => if is_valid_hex(data@) {
                    r matches Ok(v) && v@ == hex_decode_spec(data@)
                } else {
                    r matches Err(P2PError::InvalidResponse(s)) && (exists|e: HexError| s@ == "Invalid hex data: "@ + hex_error_text(e)
                        && (vstd::utf8::is_ascii_chars(data@) ==> hex_decode_result(data@) == Err::<Seq<u8>, HexError>(e)))
                },
                Some(_) => is_invalid_response(r, "Missing chunk data"@),
                None => is_invalid_response(r, "Expected chunk response"@),
            },
            response.msg_type != MessageType::ChunkResponse ==> is_invalid_response(r, "Expected chunk response"@),
    {
        if response.msg_type == MessageType::ChunkResponse {
            match response.data {
                Some(Payload::ChunkData { data, .. }) => {
                    return match hex_decode(data.as_str()) {
                        Ok(bytes) => Ok(bytes),
                        Err(e) => {
                            let text = e.message();
                            Err(P2PError::InvalidResponse(with_text("Invalid hex data: ", text.as_str())))
                        },
                    };
                },
                Some(_) => return Err(P2PError::InvalidResponse(String::from_str("Missing chunk data"))),
                None => {},
            }
        }
        Err(P2PError::InvalidResponse(String::from_str("Expected chunk response")))
    }

    /// Whether the answer to a ping is a pong.
    pub fn read_pong(response: &Message) -> (r: Result<(), P2PError>)
        ensures
            response.msg_type == MessageType::Pong ==> r is Ok,
            response.msg_type != MessageType::Pong ==> is_invalid_response(r, "Expected pong response"@),
    {
        if response.msg_type == MessageType::Pong {
            Ok(())
        } else {
            Err(P2PError::InvalidResponse(String::from_str("Expected pong response")))
        }
    }
}

/// The peers of a node, by identifier, and the addresses of peers it has
/// heard of. `P` is the caller's handle on a connected peer.
pub struct PeerManager<P> {
    peers: NumMap<P>,
    discovered_peers: Vec<SocketAddress>,
    max_peers: usize,
}

impl<P> PeerManager<P> {
    /// The connected peers.
    pub closed spec fn peers(&self) -> Map<u128, P> {
        self.peers.view()
    }

    /// The addresses of discovered peers, in the order they were found.
    pub closed spec fn discovered(&self) -> Seq<SocketAddress> {
        self.discovered_peers@
    }

    /// At most fifty peers; at most a hundred discovered addresses, none twice.
    pub closed spec fn wf(&self) -> bool {
        &&& self.peers.wf()
        &&& self.max_peers == MAX_PEERS
        &&& self.peers.view().len() <= MAX_PEERS
        &&& self.discovered_peers@.len() <= MAX_DISCOVERED
        &&& self.discovered_peers@.no_duplicates()
    }

    pub fn new() -> (m: PeerManager<P>)
        ensures
            m.wf(),
            m.peers() == Map::<u128, P>::empty(),
            m.discovered() == Seq::<SocketAddress>::empty(),
    {
        PeerManager { peers: NumMap::new(), discovered_peers: Vec::new(), max_peers: MAX_PEERS }
    }

    /// Take in the peer `id`; refused when fifty peers are already connected.
    pub fn add_peer(&mut self, id: u128, peer: P) -> (r: Result<(), P2PError>)
        requires
            old(self).wf(),
        ensures
            final(self).wf(),
            final(self).discovered() == old(self).discovered(),
            old(self).peers().len() < MAX_PEERS ==> r is Ok && final(self).peers() == old(self).peers().insert(id, peer),
            old(self).peers().len() >= MAX_PEERS ==> r == Err::<(), P2PError>(P2PError::TooManyPeers(MAX_PEERS))
                && final(self).peers() == old(self).peers(),
    {
        if self.peers.len() >= self.max_peers {
            return Err(P2PError::TooManyPeers(self.max_peers));
        }
        proof {
            self.peers.lemma_view();
        }
        self.peers.insert(id, peer);
        proof {
            self.peers.lemma_view();
            let old_m = old(self).peers();
            if old_m.dom().contains(id) {
                assert(old_m.insert(id, peer).dom() =~= old_m.dom());
            } else {
                assert(old_m.insert(id, peer).dom() =~= old_m.dom().insert(id));
            }
        }
        Ok(())
    }

    /// Remember the address of a discovered peer, unless it is known already
    /// or a hundred are remembered.
    pub fn add_discovered_peer(&mut self, addr: SocketAddress)
        requires
            old(self).wf(),
        ensures
            final(self).wf(),
            final(self).peers() == old(self).peers(),
            (!old(self).discovered().contains(addr) && old(self).discovered().len() < MAX_DISCOVERED)
                ==> final(self).discovered() == old(self).discovered().push(addr),
            (old(self).discovered().contains(addr) || old(self).discovered().len() >= MAX_DISCOVERED)
                ==> final(self).discovered() == old(self).discovered(),
    {
        let mut found = false;
        let mut i: usize = 0;
        while i < self.discovered_peers.len()
            invariant
                i <= self.discovered_peers@.len(),
                found <==> exists|j: int| 0 <= j < i && self.discovered_peers@[j] == addr,
            decreases self.discovered_peers@.len() - i,
        {
            if self.discovered_peers[i] == addr {
                found = true;
            }
            i += 1;
        }
        assert(found <==> self.discovered_peers@.contains(addr));
        if !found && self.discovered_peers.len() < MAX_DISCOVERED {
            self.discovered_peers.push(addr);
        }
    }

    /// The addresses of discovered peers.
    pub fn discovered_peers(&self) -> (r: &Vec<SocketAddress>)
        ensures
            r@ == self.discovered(),
    {
        &self.discovered_peers
    }

    /// The peer `id`.
    pub fn get_peer(&self, id: u128) -> (r: Option<&P>)
        requires
            self.wf(),
        ensures
            r matches Some(p) ==> self.peers().dom().contains(id) && *p == self.peers()[id],
            r is None ==> !self.peers().dom().contains(id),
    {
        self.peers.get(id)
    }

    /// Every peer, each once.
    pub fn get_all_peers(&self) -> (r: Vec<&P>)
        requires
            self.wf(),
        ensures
            r@.len() == self.peers().len(),
            exists|ids: Seq<u128>| {
                &&& #[trigger] ids.len() == r@.len()
                &&& ids.no_duplicates()
                &&& forall|i: int| 0 <= i < r@.len() ==> self.peers().dom().contains(#[trigger] ids[i]) && *r@[i] == self.peers()[ids[i]]
            },
    {
        let r = self.peers.values();
        proof {
            let ks = self.peers.key_seq();
            assert(ks.len() == r@.len());
            assert(ks.no_duplicates()) by {
                assert forall|a: int, b: int| 0 <= a < ks.len() && 0 <= b < ks.len() && a != b implies ks[a] != ks[b] by {
                    if a > b {
                        assert(ks[b] != ks[a]);
                    }
                }
            }
        }
        r
    }

    /// Drop the peer `id`.
    pub fn remove_peer(&mut self, id: u128)
        requires
            old(self).wf(),
        ensures
            final(self).wf(),
            final(self).peers() == old(self).peers().remove(id),
            final(self).discovered() == old(self).discovered(),
    {
        proof {
            self.peers.lemma_view();
        }
        self.peers.remove(id);
        proof {
            self.peers.lemma_view();
            let old_m = old(self).peers();
            if old_m.dom().contains(id) {
                assert(old_m.remove(id).dom() =~= old_m.dom().remove(id));
            } else {
                assert(old_m.remove(id).dom() =~= old_m.dom());
            }
        }
    }

    /// Drop every peer of `dead`, the peers that no longer answer.
    pub fn cleanup_dead_peers(&mut self, dead: &Vec<u128>)
        requires
            old(self).wf(),
        ensures
            final(self).wf(),
            final(self).peers() == old(self).peers().remove_keys(dead@.to_set()),
            final(self).discovered() == old(self).discovered(),
    {
        let mut i: usize = 0;
        while i < dead.len()
            invariant
                self.wf(),
                i <= dead@.len(),
                self.peers() == old(self).peers().remove_keys(dead@.take(i as int).to_set()),
                self.discovered() == old(self).discovered(),
            decreases dead@.len() - i,
        {
            self.remove_peer(dead[i]);
            proof {
                lemma_take_one_more(dead@, i as int);
                let a = dead@.take(i as int);
                let b = dead@.take(i + 1);
                assert(b.to_set() =~= a.to_set().insert(dead@[i as int]));
                assert(old(self).peers().remove_keys(dead@.take(i + 1).to_set()) =~= old(self).peers().remove_keys(
                    dead@.take(i as int).to_set(),
                ).remove(dead@[i as int]));
            }
            i += 1;
        }
        assert(dead@.take(dead@.len() as int) =~= dead@);
    }

    /// A node never holds more than fifty peers, nor remembers more than a
    /// hundred discovered addresses, and it remembers none twice.
    pub proof fn lemma_peer_limits(&self)
        requires
            self.wf(),
        ensures
            self.peers().len() <= MAX_PEERS,
            self.discovered().len() <= MAX_DISCOVERED,
            self.discovered().no_duplicates(),
    {
    }

    /// The number of connected peers.
    pub fn peer_count(&self) -> (n: usize)
        requires
            self.wf(),
        ensures
            n == self.peers().len(),
    {
        self.peers.len()
    }
}

} // verus!
