//! Mini P2P file sharing: the verified core of a BitTorrent-like node.
//!
//! The library holds the data structures, protocol decisions and parsers of the
//! node; sockets, files, timers and task scheduling live in the binary around it.

pub mod chunk;
pub mod clock;
pub mod config;
pub mod connection;
pub mod contact;
pub mod crypto;
pub mod dht_node;
pub mod discovery;
pub mod downloader;
pub mod encoding;
pub mod error;
pub mod file_manager;
pub mod messaging;
pub mod metrics;
pub mod nat_traversal;
pub mod net;
pub mod node;
pub mod peer;
pub mod node_id;
pub mod node_utils;
pub mod routing_table;
pub mod rpc;
pub mod scheduler;
pub mod num_map;
pub mod protocol;
pub mod storage_engine;
pub mod str_map;
pub mod swarm;
pub mod text;
pub mod transport;
pub mod uploader;

pub use contact::Contact;
pub use crypto::{CryptoUtils, HashUtils};
pub use error::P2PError;
pub use net::{IpAddress, SocketAddress};
pub use node_id::NodeId;
