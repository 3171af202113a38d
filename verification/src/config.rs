use vstd::prelude::*;

use crate::discovery::DEFAULT_DISCOVERY_PORT;
use crate::text::{decimal, with_number};

verus! {

/// The port that the DHT listens on unless told otherwise.
pub const DEFAULT_DHT_PORT: u16 = 6881;

/// How a node is set up.
#[derive(Clone, Debug)]
pub struct Config {
    pub port: u16,
    pub shared_dir: String,
    pub bootstrap_peer: Option<String>,
    pub node_name: String,
    pub discovery_port: Option<u16>,
    pub max_upload_speed: Option<u64>,
    pub max_download_speed: Option<u64>,
    pub dht_enabled: bool,
    pub dht_port: Option<u16>,
    pub dht_bootstrap: Option<String>,
    /// Whether to try UPnP and STUN.
    pub nat_traversal_enabled: bool,
}

impl Default for Config {
    /// Port 8080, sharing `./shared`, named `DefaultNode`, with no bootstrap
    /// peer, no discovery listener, no speed limits, the DHT off (port 6881)
    /// and NAT traversal on.
    fn default() -> (c: Config)
        ensures
            c.port == 8080,
            c.shared_dir@ == "./shared"@,
            c.bootstrap_peer is None,
            c.node_name@ == "DefaultNode"@,
            c.discovery_port is None,
            c.max_upload_speed is None,
            c.max_download_speed is None,
            !c.dht_enabled,
            c.dht_port == Some(DEFAULT_DHT_PORT),
            c.dht_bootstrap is None,
            c.nat_traversal_enabled,
    {
        Config {
            port: 8080,
            shared_dir: String::from_str("./shared"),
            bootstrap_peer: None,
            node_name: String::from_str("DefaultNode"),
            discovery_port: None,
            max_upload_speed: None,
            max_download_speed: None,
            dht_enabled: false,
            dht_port: Some(DEFAULT_DHT_PORT),
            dht_bootstrap: None,
            nat_traversal_enabled: true,
        }
    }
}

impl Config {
    /// The setup of a node started from the command line: it listens on
    /// `port` and shares `dir`; it is named `name`, or `Node-<port>`; it runs
    /// the discovery listener on port 9999 if asked; the DHT is on if asked,
    /// on `dht_port`; NAT traversal is on unless refused.
    pub fn for_start(
        port: u16,
        dir: String,
        bootstrap: Option<String>,
        name: Option<String>,
        discovery: bool,
        dht: bool,
        dht_port: u16,
        dht_bootstrap: Option<String>,
        no_nat: bool,
    ) -> (c: Config)
        ensures
            c.port == port,
            c.shared_dir == dir,
            c.bootstrap_peer == bootstrap,
            name matches Some(n) ==> c.node_name == n,
            name is None ==> c.node_name@ == "Node-"@ + decimal(port as nat),
            c.discovery_port == (if discovery { Some(DEFAULT_DISCOVERY_PORT) } else { None }),
            c.max_upload_speed is None,
            c.max_download_speed is None,
            c.dht_enabled == dht,
            c.dht_port == Some(dht_port),
            c.dht_bootstrap == dht_bootstrap,
            c.nat_traversal_enabled == !no_nat,
    {
        let node_name = match name {
            Some(n) => n,
            None => with_number("Node-", port as u64),
        };
        Config {
            port,
            shared_dir: dir,
            bootstrap_peer: bootstrap,
            node_name,
            discovery_port: if discovery { Some(DEFAULT_DISCOVERY_PORT) } else { None },
            max_upload_speed: None,
            max_download_speed: None,
            dht_enabled: dht,
            dht_port: Some(dht_port),
            dht_bootstrap,
            nat_traversal_enabled: !no_nat,
        }
    }

    /// The setup of a short-lived client node named `node_name` that talks to
    /// `peer` only: no listening port, `./downloads` as its directory, the DHT
    /// off, NAT traversal on.
    pub fn for_client(peer: String, node_name: String) -> (c: Config)
        ensures
            c.port == 0,
            c.shared_dir@ == "./downloads"@,
            c.bootstrap_peer == Some(peer),
            c.node_name == node_name,
            c.discovery_port is None,
            c.max_upload_speed is None,
            c.max_download_speed is None,
            !c.dht_enabled,
            c.dht_port == Some(DEFAULT_DHT_PORT),
            c.dht_bootstrap is None,
            c.nat_traversal_enabled,
    {
        Config {
            port: 0,
            shared_dir: String::from_str("./downloads"),
            bootstrap_peer: Some(peer),
            node_name,
            discovery_port: None,
            max_upload_speed: None,
            max_download_speed: None,
            dht_enabled: false,
            dht_port: Some(DEFAULT_DHT_PORT),
            dht_bootstrap: None,
            nat_traversal_enabled: true,
        }
    }
}

} // verus!
