use vstd::prelude::*;

use crate::config::Config;
use crate::net::SocketAddress;
use crate::peer::port_of;
use crate::protocol::{is_v4_uuid, Message, MessageType, Payload};
use crate::error::{error_text, P2PError};
use crate::text::{decimal, with_number, with_text};

verus! {

/// Whether and where the DHT is to run.
#[derive(Clone, Copy, Debug, PartialEq, Eq, Structural)]
pub enum DhtSetup {
    Disabled,
    /// Enabled, but no port is configured.
    NoPort,
    Port(u16),
}

/// The ports to map on the gateway.
#[derive(Clone, Copy, Debug, PartialEq, Eq, Structural)]
pub struct NatSetup {
    pub tcp_port: Option<u16>,
    pub udp_port: Option<u16>,
}

/// What a node sets up when it is made and started.
#[derive(Clone, Copy, Debug)]
pub struct NodeSetup {
    /// Run discovery (and listen for peers): the node has a port.
    pub listen: bool,
    /// The upload rate limit and its burst, in bytes.
    pub upload_limit: Option<(u64, u64)>,
    /// The download rate limit and its burst, in bytes.
    pub download_limit: Option<(u64, u64)>,
    pub dht: DhtSetup,
    /// NAT traversal, if enabled: UPnP mappings to ask for, then STUN.
    pub nat_traversal: Option<NatSetup>,
}

/// A rate limit of `rate` bytes per second with twice that as burst.
pub open spec fn limit_of(rate: Option<u64>) -> Option<(u64, u64)> {
    match rate {
        Some(r) => Some((r, (2 * r) as u64)),
        None => None,
    }
}

/// The bursts of the limits fit in 64 bits.
pub open spec fn rates_fit(config: Config) -> bool {
    &&& (config.max_upload_speed matches Some(r) ==> 2 * r <= u64::MAX)
    &&& (config.max_download_speed matches Some(r) ==> 2 * r <= u64::MAX)
}

/// The limit of `rate` with a burst of twice the rate.
fn limit(rate: Option<u64>) -> (r: Option<(u64, u64)>)
    requires
        rate matches Some(x) ==> 2 * x <= u64::MAX,
    ensures
        r == limit_of(rate),
{
    match rate {
        Some(x) => Some((x, 2 * x)),
        None => None,
    }
}

/// A peer-to-peer node. Its tasks, sockets and files are run by the caller;
/// these are its decisions.
pub struct Node;

impl Node {
    /// What a node with `config` sets up: discovery and the listener when it
    /// has a port; rate limiters with a burst of twice the rate; the DHT when
    /// enabled, on its port; NAT traversal when enabled, mapping the TCP port
    /// (if any) and the DHT's UDP port (if configured).
    pub fn plan(config: &Config) -> (s: NodeSetup)
        requires
            rates_fit(*config),
        ensures
            s.listen == (config.port > 0),
            s.upload_limit == limit_of(config.max_upload_speed),
            s.download_limit == limit_of(config.max_download_speed),
            s.dht == (if !config.dht_enabled {
                DhtSetup::Disabled
            } else {
                match config.dht_port {
                    Some(p) => DhtSetup::Port(p),
                    None => DhtSetup::NoPort,
                }
            }),
            s.nat_traversal == (if config.nat_traversal_enabled {
                Some(NatSetup { tcp_port: if config.port > 0 { Some(config.port) } else { None }, udp_port: config.dht_port })
            } else {
                None
            }),
    {
        let dht = if !config.dht_enabled {
            DhtSetup::Disabled
        } else {
            match config.dht_port {
                Some(p) => DhtSetup::Port(p),
                None => DhtSetup::NoPort,
            }
        };
        let nat_setup = if config.nat_traversal_enabled {
            Some(NatSetup { tcp_port: if config.port > 0 { Some(config.port) } else { None }, udp_port: config.dht_port })
        } else {
            None
        };
        NodeSetup {
            listen: config.port > 0,
            upload_limit: limit(config.max_upload_speed),
            download_limit: limit(config.max_download_speed),
            dht,
            nat_traversal: nat_setup,
        }
    }

    /// What the bootstrap peer's answer to the handshake means: no answer in
    /// time or a failed receive refuses the connection; any message is
    /// accepted, and `true` tells that it was a handshake.
    pub fn check_handshake_reply(reply: Option<Result<Message, P2PError>>) -> (r: Result<bool, P2PError>)
        ensures
            match reply {
                None => r matches Err(P2PError::ConnectionFailed(s)) && s@ == "Handshake timeout"@,
                Some(Err(e)) => r matches Err(P2PError::ConnectionFailed(s)) && s@ == "Handshake failed: "@ + error_text(e),
                Some(Ok(m)) => r == Ok::<bool, P2PError>(m.msg_type == MessageType::Handshake),
            },
    {
        match reply {
            None => Err(P2PError::ConnectionFailed(String::from_str("Handshake timeout"))),
            Some(Err(e)) => {
                let text = e.message();
                Err(P2PError::ConnectionFailed(with_text("Handshake failed: ", text.as_str())))
            },
            Some(Ok(m)) => Ok(m.msg_type == MessageType::Handshake),
        }
    }

    /// The handshake sent to a peer `peer_id` that connected from `addr`: it
    /// names the node `Node-<port of addr>`.
    pub fn greeting(peer_id: u128, addr: SocketAddress) -> (m: Message)
        ensures
            m.msg_type == MessageType::Handshake,
            m.data matches Some(Payload::Handshake { node_id: i, node_name: n, protocol_version: v })
                && i == peer_id && n@ == "Node-"@ + decimal(port_of(addr) as nat) && v@ == "1.0"@,
            is_v4_uuid(m.id),
    {
        Message::handshake(peer_id, with_number("Node-", addr.port() as u64))
    }
}

} // verus!
