use vstd::prelude::*;

use crate::clock::now_secs;
use crate::net::{IpAddress, SocketAddress};

verus! {

/// The UDP port of local discovery.
pub const DEFAULT_DISCOVERY_PORT: u16 = 9999;

/// The multicast group that announcements go to: 239.255.255.250:9999.
pub fn multicast_addr() -> (a: SocketAddress)
    ensures
        a == (SocketAddress::V4 { ip: 0xEFFF_FFFAu32, port: DEFAULT_DISCOVERY_PORT }),
{
    SocketAddress::V4 { ip: 0xEFFF_FFFAu32, port: DEFAULT_DISCOVERY_PORT }
}

/// The broadcast address that announcements and requests go to:
/// 255.255.255.255:9999.
pub fn broadcast_addr() -> (a: SocketAddress)
    ensures
        a == (SocketAddress::V4 { ip: 0xFFFF_FFFFu32, port: DEFAULT_DISCOVERY_PORT }),
{
    SocketAddress::V4 { ip: 0xFFFF_FFFFu32, port: DEFAULT_DISCOVERY_PORT }
}

/// The kinds of discovery datagram.
#[derive(Clone, Copy, Debug, PartialEq, Eq, Hash, Structural)]
pub enum DiscoveryMessageType {
    Announcement,
    Request,
    Response,
}

/// A discovery datagram: who sends it, the TCP port it listens on, when (in
/// seconds since the Unix epoch) and what kind it is.
#[derive(Clone, Debug)]
pub struct DiscoveryMessage {
    pub node_id: u128,
    pub node_name: String,
    pub listen_port: u16,
    pub timestamp: u64,
    pub message_type: DiscoveryMessageType,
}

/// `m` comes from node `id` named `name` listening on `port`, and is of kind `t`.
pub open spec fn is_message_of(m: DiscoveryMessage, id: u128, name: Seq<char>, port: u16, t: DiscoveryMessageType) -> bool {
    &&& m.node_id == id
    &&& m.node_name@ == name
    &&& m.listen_port == port
    &&& m.message_type == t
}

/// Local peer discovery by UDP broadcast.
pub struct Discovery {
    node_id: u128,
    node_name: String,
    listen_port: u16,
    discovery_port: Option<u16>,
}

impl Discovery {
    pub closed spec fn id(&self) -> u128 {
        self.node_id
    }

    pub closed spec fn name(&self) -> Seq<char> {
        self.node_name@
    }

    /// The TCP port that the node listens on.
    pub closed spec fn port(&self) -> u16 {
        self.listen_port
    }

    /// The UDP port that discovery listens on, if any.
    pub closed spec fn disc_port(&self) -> Option<u16> {
        self.discovery_port
    }

    /// Discovery for node `node_id` named `node_name`, listening on 8080 until
    /// told otherwise, with no discovery port.
    pub fn new(node_id: u128, node_name: String) -> (d: Discovery)
        ensures
            d.id() == node_id,
            d.name() == node_name@,
            d.port() == 8080,
            d.disc_port() is None,
    {
        Discovery { node_id, node_name, listen_port: 8080, discovery_port: None }
    }

    /// Record the node's TCP port and the discovery port; gives the UDP port
    /// to listen on, if discovery is to listen at all.
    pub fn configure_listener(&mut self, listen_port: u16, discovery_port: Option<u16>) -> (r: Option<u16>)
        ensures
            final(self).id() == old(self).id(),
            final(self).name() == old(self).name(),
            final(self).port() == listen_port,
            final(self).disc_port() == discovery_port,
            r == discovery_port,
    {
        self.listen_port = listen_port;
        self.discovery_port = discovery_port;
        discovery_port
    }

    /// The node's identifier.
    pub fn node_id(&self) -> (id: u128)
        ensures
            id == self.id(),
    {
        self.node_id
    }

    /// The node's name.
    pub fn node_name(&self) -> (n: &String)
        ensures
            n@ == self.name(),
    {
        &self.node_name
    }

    /// The node's TCP port.
    pub fn listen_port(&self) -> (p: u16)
        ensures
            p == self.port(),
    {
        self.listen_port
    }

    /// A message of kind `t` from this node, stamped with the current time.
    fn message(&self, t: DiscoveryMessageType) -> (m: DiscoveryMessage)
        ensures
            is_message_of(m, self.id(), self.name(), self.port(), t),
    {
        DiscoveryMessage {
            node_id: self.node_id,
            node_name: self.node_name.clone(),
            listen_port: self.listen_port,
            timestamp: now_secs(),
            message_type: t,
        }
    }

    /// The announcement of this node's presence.
    pub fn announcement(&self) -> (m: DiscoveryMessage)
        ensures
            is_message_of(m, self.id(), self.name(), self.port(), DiscoveryMessageType::Announcement),
    {
        self.message(DiscoveryMessageType::Announcement)
    }

    /// The request that asks the nodes around to answer.
    pub fn discovery_request(&self) -> (m: DiscoveryMessage)
        ensures
            is_message_of(m, self.id(), self.name(), self.port(), DiscoveryMessageType::Request),
    {
        self.message(DiscoveryMessageType::Request)
    }

    /// What the discovery listener of node `node_id` named `node_name`, with
    /// TCP port `listen_port`, sends back to a datagram: a response to a
    /// request, nothing to an announcement or a response.
    pub fn listen_reply(node_id: u128, node_name: &String, listen_port: u16, message: &DiscoveryMessage) -> (r: Option<DiscoveryMessage>)
        ensures
            message.message_type == DiscoveryMessageType::Request ==> (r matches Some(m)
                && is_message_of(m, node_id, node_name@, listen_port, DiscoveryMessageType::Response)),
            message.message_type != DiscoveryMessageType::Request ==> r is None,
    {
        match message.message_type {
            DiscoveryMessageType::Request => Some(
                DiscoveryMessage {
                    node_id,
                    node_name: node_name.clone(),
                    listen_port,
                    timestamp: now_secs(),
                    message_type: DiscoveryMessageType::Response,
                },
            ),
            _ => None,
        }
    }

    /// The address of the peer that answered from `from` with `message`: its
    /// IP and the TCP port it announces; none for this node's own datagrams.
    pub fn peer_from_reply(&self, from: SocketAddress, message: &DiscoveryMessage) -> (r: Option<SocketAddress>)
        ensures
            message.node_id == self.id() ==> r is None,
            message.node_id != self.id() ==> r == Some(
                match from {
                    SocketAddress::V4 { ip, .. } => SocketAddress::V4 { ip, port: message.listen_port },
                    SocketAddress::V6 { ip, .. } => SocketAddress::V6 { ip, port: message.listen_port, flowinfo: 0, scope_id: 0 },
                },
            ),
    {
        if message.node_id != self.node_id {
            Some(SocketAddress::new(from.ip(), message.listen_port))
        } else {
            None
        }
    }
}

} // verus!
