use vstd::prelude::*;

use crate::clock::now_millis;
use crate::contact::Contact;
use crate::net::SocketAddress;
use crate::node_id::{string_id, NodeId};
use crate::routing_table::{add_result, closest_contacts, RoutingTable};
use crate::rpc::{sender_of, DhtMessage};
use crate::str_map::StrMap;

verus! {

/// Number of contacts a node returns or queries.
pub const K: usize = 20;

/// A copy of a list of contacts.
pub fn copy_contacts(v: &Vec<Contact>) -> (r: Vec<Contact>)
    ensures
        r@ == v@,
{
    let mut r: Vec<Contact> = Vec::new();
    for i in 0..v.len()
        invariant
            r@ == v@.take(i as int),
    {
        r.push(v[i]);
        assert(r@ =~= v@.take(i + 1));
    }
    assert(v@.take(v@.len() as int) =~= v@);
    r
}

/// The state of a DHT node: its identity, its routing table, and for each key
/// (a file hash) the contacts that announced they have it. The node answers
/// each request with the message that `handle_message` returns; the socket
/// that carries the messages lives outside.
pub struct DhtNode {
    node_id: NodeId,
    local_contact: Contact,
    routing_table: RoutingTable,
    storage: StrMap<Vec<Contact>>,
}

impl DhtNode {
    pub closed spec fn id(&self) -> NodeId {
        self.node_id
    }

    pub closed spec fn local(&self) -> Contact {
        self.local_contact
    }

    pub closed spec fn table(&self) -> RoutingTable {
        self.routing_table
    }

    /// For each key, the contacts that stored it.
    pub closed spec fn stored(&self) -> Map<Seq<char>, Seq<Contact>> {
        self.storage.view().map_values(|v: Vec<Contact>| v@)
    }

    pub closed spec fn wf(&self) -> bool {
        &&& self.routing_table.wf()
        &&& self.routing_table.local() == self.node_id
        &&& self.storage.wf()
        &&& self.local_contact.node_id == self.node_id
    }

    /// A node with a random identifier, reachable at `local_addr`.
    pub fn new(local_addr: SocketAddress) -> (n: DhtNode)
        ensures
            n.wf(),
            n.local().addr == local_addr,
            n.table().all_contacts().len() == 0,
            n.stored() == Map::<Seq<char>, Seq<Contact>>::empty(),
    {
        Self::new_with_id(NodeId::random(), local_addr, now_millis())
    }

    /// A node with identifier `node_id`, reachable at `local_addr`, created at `now`.
    pub fn new_with_id(node_id: NodeId, local_addr: SocketAddress, now: u64) -> (n: DhtNode)
        ensures
            n.wf(),
            n.id() == node_id,
            n.local() == (Contact { node_id, addr: local_addr, last_seen: Some(now) }),
            n.table().all_contacts().len() == 0,
            n.stored() == Map::<Seq<char>, Seq<Contact>>::empty(),
    {
        let routing_table = RoutingTable::new(node_id);
        proof {
            lemma_empty_table(routing_table);
        }
        let storage: StrMap<Vec<Contact>> = StrMap::new();
        let n = DhtNode {
            node_id,
            local_contact: Contact::new_at(node_id, local_addr, now),
            routing_table,
            storage,
        };
        assert(n.stored() =~= Map::<Seq<char>, Seq<Contact>>::empty());
        n
    }

    /// The node's identifier.
    pub fn node_id(&self) -> (id: NodeId)
        ensures
            id == self.id(),
    {
        self.node_id
    }

    /// The node's own contact.
    pub fn local_contact(&self) -> (c: Contact)
        ensures
            c == self.local(),
    {
        self.local_contact
    }

    /// The number of contacts in the routing table.
    pub fn contact_count(&self) -> (n: usize)
        requires
            self.wf(),
        ensures
            n == self.table().all_contacts().len(),
    {
        self.routing_table.contact_count()
    }

    /// Handle a message received now; see `handle_message_at`.
    pub fn handle_message(&mut self, message: DhtMessage) -> (r: Option<DhtMessage>)
        requires
            old(self).wf(),
        ensures
            final(self).wf(),
            exists|now: u64| #[trigger] handled(*old(self), *final(self), message, now, r),
    {
        let now = now_millis();
        self.handle_message_at(message, now)
    }

    /// Handle a message received at `now`: add its sender to the routing
    /// table, then answer a request (`None` for a response message).
    pub fn handle_message_at(&mut self, message: DhtMessage, now: u64) -> (r: Option<DhtMessage>)
        requires
            old(self).wf(),
        ensures
            final(self).wf(),
            handled(*old(self), *final(self), message, now, r),
    {
        let sender = *message.sender();
        self.routing_table.add_contact_at(sender, now);
        match message {
            DhtMessage::Ping { .. } => Some(DhtMessage::Pong { sender: self.local_contact }),
            DhtMessage::FindNode { target, .. } => {
                let contacts = self.routing_table.find_closest_contacts(&target, K);
                Some(DhtMessage::FindNodeResponse { sender: self.local_contact, contacts })
            },
            DhtMessage::FindValue { key, .. } => {
                proof {
                    self.storage.lemma_view();
                }
                match self.storage.get(key.as_str()) {
                    Some(peers) => {
                        let value = copy_contacts(peers);
                        Some(
                            DhtMessage::FindValueResponse {
                                sender: self.local_contact,
                                value: Some(value),
                                contacts: Vec::new(),
                            },
                        )
                    },
                    None => {
                        let target = NodeId::from_string(key.as_str());
                        let contacts = self.routing_table.find_closest_contacts(&target, K);
                        Some(
                            DhtMessage::FindValueResponse {
                                sender: self.local_contact,
                                value: None,
                                contacts,
                            },
                        )
                    },
                }
            },
            DhtMessage::Store { sender, key } => {
                let ghost before = self.storage.view();
                let mut peers = match self.storage.remove(key.as_str()) {
                    Some(v) => v,
                    None => Vec::new(),
                };
                peers.push(sender);
                self.storage.insert(key, peers);
                proof {
                    assert(self.stored() =~= old(self).stored().insert(
                        key@,
                        stored_list(old(self).stored(), key@).push(sender),
                    ));
                }
                Some(DhtMessage::StoreResponse { sender: self.local_contact, success: true })
            },
            _ => None,
        }
    }

    /// The message that starts a bootstrap through a known node: a FindNode
    /// for the node's own identifier.
    pub fn bootstrap(&self) -> (m: DhtMessage)
        ensures
            m == (DhtMessage::FindNode { sender: self.local(), target: self.id() }),
    {
        DhtMessage::FindNode { sender: self.local_contact, target: self.node_id }
    }

    /// The Store messages that announce `key`: one to each of the k contacts
    /// closest to the key's identifier, with the contact's address.
    pub fn store(&self, key: String) -> (r: Vec<(SocketAddress, DhtMessage)>)
        requires
            self.wf(),
        ensures
            exists|cs: Seq<Contact>| {
                &&& #[trigger] closest_contacts(self.table().all_contacts(), string_id(key@), K as int, cs)
                &&& r@.len() == cs.len()
                &&& forall|i: int| 0 <= i < cs.len() ==> #[trigger] r@[i].0 == cs[i].addr && is_store(r@[i].1, self.local(), key@)
            },
    {
        let target = NodeId::from_string(key.as_str());
        let closest = self.routing_table.find_closest_contacts(&target, K);
        let mut r: Vec<(SocketAddress, DhtMessage)> = Vec::new();
        for i in 0..closest.len()
            invariant
                r@.len() == i,
                forall|j: int| 0 <= j < i ==> #[trigger] r@[j].0 == closest@[j].addr && is_store(r@[j].1, self.local(), key@),
        {
            r.push((closest[i].addr, DhtMessage::Store { sender: self.local_contact, key: key.clone() }));
        }
        assert(closest_contacts(self.table().all_contacts(), string_id(key@), K as int, closest@));
        r
    }

    /// The FindValue messages that look up `key`: one to each of the k
    /// contacts closest to the key's identifier, with the contact's address.
    pub fn find_value(&self, key: String) -> (r: Vec<(SocketAddress, DhtMessage)>)
        requires
            self.wf(),
        ensures
            exists|cs: Seq<Contact>| {
                &&& #[trigger] closest_contacts(self.table().all_contacts(), string_id(key@), K as int, cs)
                &&& r@.len() == cs.len()
                &&& forall|i: int| 0 <= i < cs.len() ==> #[trigger] r@[i].0 == cs[i].addr && is_find_value(r@[i].1, self.local(), key@)
            },
    {
        let target = NodeId::from_string(key.as_str());
        let closest = self.routing_table.find_closest_contacts(&target, K);
        let mut r: Vec<(SocketAddress, DhtMessage)> = Vec::new();
        for i in 0..closest.len()
            invariant
                r@.len() == i,
                forall|j: int| 0 <= j < i ==> #[trigger] r@[j].0 == closest@[j].addr && is_find_value(r@[j].1, self.local(), key@),
        {
            r.push((closest[i].addr, DhtMessage::FindValue { sender: self.local_contact, key: key.clone() }));
        }
        assert(closest_contacts(self.table().all_contacts(), string_id(key@), K as int, closest@));
        r
    }
}

/// What a node stores it gives back: once a node has handled a Store of a key
/// from some contact, a FindValue of that key handled next is answered with
/// the contacts stored under the key before, followed by that contact.
pub proof fn lemma_store_then_find(
    n0: DhtNode,
    n1: DhtNode,
    n2: DhtNode,
    store: DhtMessage,
    find: DhtMessage,
    t1: u64,
    t2: u64,
    r1: Option<DhtMessage>,
    r2: Option<DhtMessage>,
)
    requires
        handled(n0, n1, store, t1, r1),
        handled(n1, n2, find, t2, r2),
        store is Store,
        find is FindValue,
        find->FindValue_key@ == store->Store_key@,
    ensures
        is_value_answer(r2, n0.local(), stored_list(n0.stored(), store->Store_key@).push(store->Store_sender)),
{
}

/// An empty routing table has no contacts.
proof fn lemma_empty_table(t: RoutingTable)
    requires
        t.bucket_seqs().len() == crate::routing_table::BUCKET_COUNT,
        forall|b: int| 0 <= b < crate::routing_table::BUCKET_COUNT ==> #[trigger] t.bucket_seqs()[b].len() == 0,
    ensures
        t.all_contacts().len() == 0,
{
    lemma_concat_empty(t.bucket_seqs());
}

proof fn lemma_concat_empty(s: Seq<Seq<Contact>>)
    requires
        forall|b: int| 0 <= b < s.len() ==> #[trigger] s[b].len() == 0,
    ensures
        crate::routing_table::concat_all(s).len() == 0,
    decreases s.len(),
{
    if s.len() > 0 {
        lemma_concat_empty(s.drop_last());
    }
}

/// `m` is a Store of `key` from `local`.
pub open spec fn is_store(m: DhtMessage, local: Contact, key: Seq<char>) -> bool {
    match m {
        DhtMessage::Store { sender, key: k } => sender == local && k@ == key,
        _ => false,
    }
}

/// `m` is a FindValue of `key` from `local`.
pub open spec fn is_find_value(m: DhtMessage, local: Contact, key: Seq<char>) -> bool {
    match m {
        DhtMessage::FindValue { sender, key: k } => sender == local && k@ == key,
        _ => false,
    }
}

/// `r` answers a FindNode for `target` from `local`, with `table`'s closest contacts.
pub open spec fn is_find_node_answer(r: Option<DhtMessage>, local: Contact, table: RoutingTable, target: Seq<u8>) -> bool {
    match r {
        Some(DhtMessage::FindNodeResponse { sender, contacts }) => sender == local && closest_contacts(
            table.all_contacts(),
            target,
            K as int,
            contacts@,
        ),
        _ => false,
    }
}

/// `r` answers a FindValue with the stored contacts `v`.
pub open spec fn is_value_answer(r: Option<DhtMessage>, local: Contact, v: Seq<Contact>) -> bool {
    match r {
        Some(DhtMessage::FindValueResponse { sender, value: Some(found), contacts }) => sender == local && found@ == v
            && contacts@.len() == 0,
        _ => false,
    }
}

/// `r` answers a FindValue of an unknown key with `table`'s contacts closest to it.
pub open spec fn is_closest_answer(r: Option<DhtMessage>, local: Contact, table: RoutingTable, target: Seq<u8>) -> bool {
    match r {
        Some(DhtMessage::FindValueResponse { sender, value: None, contacts }) => sender == local && closest_contacts(
            table.all_contacts(),
            target,
            K as int,
            contacts@,
        ),
        _ => false,
    }
}

/// The contacts stored under a key (none if the key is unknown).
pub open spec fn stored_list(m: Map<Seq<char>, Seq<Contact>>, key: Seq<char>) -> Seq<Contact> {
    if m.dom().contains(key) {
        m[key]
    } else {
        Seq::empty()
    }
}

/// The outcome of node `old` handling `message` at `now`: it becomes `new`
/// and answers `r`. The sender enters the routing table; a Ping gets a Pong, a
/// FindNode the k closest contacts, a FindValue the stored contacts or else the
/// k contacts closest to the key, and a Store is recorded and acknowledged.
pub open spec fn handled(old: DhtNode, new: DhtNode, message: DhtMessage, now: u64, r: Option<DhtMessage>) -> bool {
    &&& new.id() == old.id()
    &&& new.local() == old.local()
    &&& add_result(old.table(), new.table(), sender_of(message), now, true) || add_result(old.table(), new.table(), sender_of(message), now, false)
    &&& match message {
        DhtMessage::Ping { .. } => new.stored() == old.stored() && r == Some(DhtMessage::Pong { sender: old.local() }),
        DhtMessage::FindNode { target, .. } => {
            &&& new.stored() == old.stored()
            &&& is_find_node_answer(r, old.local(), new.table(), target@)
        },
        DhtMessage::FindValue { key, .. } => {
            &&& new.stored() == old.stored()
            &&& if old.stored().dom().contains(key@) {
                is_value_answer(r, old.local(), old.stored()[key@])
            } else {
                is_closest_answer(r, old.local(), new.table(), string_id(key@))
            }
        },
        DhtMessage::Store { sender, key } => {
            &&& new.stored() == old.stored().insert(key@, stored_list(old.stored(), key@).push(sender))
            &&& r == Some(DhtMessage::StoreResponse { sender: old.local(), success: true })
        },
        _ => new.stored() == old.stored() && r is None,
    }
}

} // verus!
