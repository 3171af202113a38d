use mini_p2p::config::Config;
use mini_p2p::encoding::HexError;
use mini_p2p::error::P2PError;
use mini_p2p::metrics::{MetricsCollector, NetworkMetrics};
use mini_p2p::net::SocketAddress;
use mini_p2p::node::{DhtSetup, Node};
use mini_p2p::node_utils::NodeUtils;
use mini_p2p::protocol::{MessageType, Payload};
use mini_p2p::text::{decimal_string, with_number};

#[test]
fn default_config() {
    let c = Config::default();
    assert_eq!(c.port, 8080);
    assert_eq!(c.shared_dir, "./shared");
    assert_eq!(c.node_name, "DefaultNode");
    assert_eq!(c.dht_port, Some(6881));
    assert!(!c.dht_enabled);
    assert!(c.nat_traversal_enabled);
    assert!(c.bootstrap_peer.is_none() && c.discovery_port.is_none());
}

#[test]
fn command_line_configs() {
    let c = Config::for_start(9000, "d".to_string(), None, None, true, true, 7000, None, true);
    assert_eq!(c.node_name, "Node-9000");
    assert_eq!(c.discovery_port, Some(9999));
    assert_eq!(c.dht_port, Some(7000));
    assert!(c.dht_enabled && !c.nat_traversal_enabled);
    let named = Config::for_start(1, "d".to_string(), None, Some("x".to_string()), false, false, 6881, None, false);
    assert_eq!(named.node_name, "x");
    assert_eq!(named.discovery_port, None);
    let d = Config::for_client("1.2.3.4:5".to_string(), "Downloader".to_string());
    assert_eq!(d.port, 0);
    assert_eq!(d.shared_dir, "./downloads");
    assert_eq!(d.bootstrap_peer.as_deref(), Some("1.2.3.4:5"));
}

#[test]
fn node_plan_follows_config() {
    let mut c = Config::default();
    c.max_upload_speed = Some(1000);
    let s = Node::plan(&c);
    assert!(s.listen);
    assert_eq!(s.upload_limit, Some((1000, 2000)));
    assert_eq!(s.download_limit, None);
    assert_eq!(s.dht, DhtSetup::Disabled);
    let n = s.nat_traversal.unwrap();
    assert_eq!((n.tcp_port, n.udp_port), (Some(8080), Some(6881)));
    c.port = 0;
    c.dht_enabled = true;
    c.dht_port = None;
    c.nat_traversal_enabled = false;
    let s = Node::plan(&c);
    assert!(!s.listen);
    assert_eq!(s.dht, DhtSetup::NoPort);
    assert!(s.nat_traversal.is_none());
    c.dht_port = Some(1234);
    assert_eq!(Node::plan(&c).dht, DhtSetup::Port(1234));
}

#[test]
fn greeting_names_the_port() {
    let m = Node::greeting(3, SocketAddress::v4(1, 4242));
    assert_eq!(m.msg_type, MessageType::Handshake);
    assert!(matches!(m.data, Some(Payload::Handshake { node_id: 3, ref node_name, .. }) if node_name == "Node-4242"));
}

#[test]
fn port_candidates() {
    let p = NodeUtils::port_candidates(8080);
    assert_eq!(p.len(), 100);
    assert_eq!((p[0], p[99]), (8080, 8179));
    assert!(matches!(NodeUtils::no_port_error(), P2PError::NetworkError(ref s) if s == "No available ports found"));
    assert!(NodeUtils::needs_other_port(80, false));
    assert!(!NodeUtils::needs_other_port(0, false));
    assert!(!NodeUtils::needs_other_port(80, true));
}

#[test]
fn metrics_count() {
    let mut m = MetricsCollector::starting_at(1_000);
    m.record_bytes_sent(10);
    m.record_bytes_sent(5);
    m.record_bytes_received(7);
    m.record_message_sent();
    m.record_message_received();
    m.record_connection_established();
    m.record_connection_failed();
    m.record_file_downloaded();
    m.record_chunk_uploaded();
    m.record_chunk_downloaded();
    let s = m.get_metrics(4_000);
    assert_eq!((s.bytes_sent, s.bytes_received, s.messages_sent, s.uptime_ms), (15, 7, 1, 3_000));
    assert_eq!((s.connections_established, s.connections_failed, s.files_downloaded), (1, 1, 1));
    assert_eq!((s.chunks_uploaded, s.chunks_downloaded, s.files_shared), (1, 1, 0));
    let d = NetworkMetrics::default();
    assert_eq!(d.bytes_sent, 0);
    assert_eq!(d.uptime_ms, 0);
}

#[test]
fn decimal_text() {
    assert_eq!(decimal_string(0), "0");
    assert_eq!(decimal_string(9), "9");
    assert_eq!(decimal_string(10), "10");
    assert_eq!(decimal_string(u64::MAX), u64::MAX.to_string());
    assert_eq!(with_number("Peer-", 65535), "Peer-65535");
}

#[test]
fn hex_error_messages() {
    assert_eq!(HexError::OddLength.message(), "Odd number of digits");
    assert_eq!(HexError::InvalidStringLength.message(), "Invalid string length");
    assert_eq!(HexError::InvalidHexCharacter { c: 'z', index: 12 }.message(), "Invalid character 'z' at position 12");
}

#[test]
fn error_messages() {
    assert_eq!(P2PError::NoPeersAvailable.message(), "No peers available");
    assert_eq!(P2PError::MessageTooLarge(12).message(), "Message too large: 12 bytes");
    assert_eq!(P2PError::TooManyPeers(50).message(), "Too many peers: 50");
    assert_eq!(P2PError::NetworkError("x".to_string()).message(), "Network error: x");
    assert_eq!(P2PError::IncompleteDownload("y".to_string()).message(), "Download incomplete: y");
}

#[test]
fn bootstrap_handshake_replies() {
    let ok = Node::check_handshake_reply(Some(Ok(mini_p2p::protocol::Message::handshake(1, "n".to_string()))));
    assert!(ok.unwrap());
    let other = Node::check_handshake_reply(Some(Ok(mini_p2p::protocol::Message::pong())));
    assert!(!other.unwrap());
    match Node::check_handshake_reply(None) {
        Err(P2PError::ConnectionFailed(s)) => assert_eq!(s, "Handshake timeout"),
        other => panic!("unexpected {:?}", other),
    }
    match Node::check_handshake_reply(Some(Err(P2PError::NetworkError("Receive timeout".to_string())))) {
        Err(P2PError::ConnectionFailed(s)) => assert_eq!(s, "Handshake failed: Network error: Receive timeout"),
        other => panic!("unexpected {:?}", other),
    }
}
