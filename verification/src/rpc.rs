use vstd::prelude::*;

use crate::contact::Contact;
use crate::node_id::NodeId;

verus! {

/// DHT RPC messages.
#[derive(Clone, Debug)]
pub enum DhtMessage {
    /// Check if a node is alive.
    Ping { sender: Contact },
    /// Response to a ping.
    Pong { sender: Contact },
    /// Find the k closest nodes to a target identifier.
    FindNode { sender: Contact, target: NodeId },
    /// The k closest nodes.
    FindNodeResponse { sender: Contact, contacts: Vec<Contact> },
    /// Find the peers that have a file (the key is its hash).
    FindValue { sender: Contact, key: String },
    /// The peers that have the file if known, else the closest nodes.
    FindValueResponse { sender: Contact, value: Option<Vec<Contact>>, contacts: Vec<Contact> },
    /// Announce that the sender has a file.
    Store { sender: Contact, key: String },
    /// Acknowledge a store.
    StoreResponse { sender: Contact, success: bool },
}

/// The sender of a message.
pub open spec fn sender_of(m: DhtMessage) -> Contact {
    match m {
        DhtMessage::Ping { sender } => sender,
        DhtMessage::Pong { sender } => sender,
        DhtMessage::FindNode { sender, .. } => sender,
        DhtMessage::FindNodeResponse { sender, .. } => sender,
        DhtMessage::FindValue { sender, .. } => sender,
        DhtMessage::FindValueResponse { sender, .. } => sender,
        DhtMessage::Store { sender, .. } => sender,
        DhtMessage::StoreResponse { sender, .. } => sender,
    }
}

/// Whether a message is a request, which asks for a response.
pub open spec fn is_request_msg(m: DhtMessage) -> bool {
    m is Ping || m is FindNode || m is FindValue || m is Store
}

impl DhtMessage {
    /// The sender contact of any message.
    pub fn sender(&self) -> (c: &Contact)
        ensures
            *c == sender_of(*self),
    {
        match self {
            DhtMessage::Ping { sender } => sender,
            DhtMessage::Pong { sender } => sender,
            DhtMessage::FindNode { sender, .. } => sender,
            DhtMessage::FindNodeResponse { sender, .. } => sender,
            DhtMessage::FindValue { sender, .. } => sender,
            DhtMessage::FindValueResponse { sender, .. } => sender,
            DhtMessage::Store { sender, .. } => sender,
            DhtMessage::StoreResponse { sender, .. } => sender,
        }
    }

    /// Whether this is a request (Ping, FindNode, FindValue or Store).
    pub fn is_request(&self) -> (r: bool)
        ensures
            r == is_request_msg(*self),
    {
        match self {
            DhtMessage::Ping { .. } => true,
            DhtMessage::FindNode { .. } => true,
            DhtMessage::FindValue { .. } => true,
            DhtMessage::Store { .. } => true,
            _ => false,
        }
    }

    /// Whether this is a response: every message that is not a request.
    pub fn is_response(&self) -> (r: bool)
        ensures
            r == !is_request_msg(*self),
    {
        !self.is_request()
    }
}

} // verus!
