use mini_p2p::connection::ConnectionManager;
use mini_p2p::discovery::{broadcast_addr, multicast_addr, Discovery, DiscoveryMessage, DiscoveryMessageType};
use mini_p2p::error::P2PError;
use mini_p2p::nat_traversal::NatManager;
use mini_p2p::net::{IpAddress, SocketAddress};
use mini_p2p::transport::{Transport, MAX_MESSAGE_SIZE};

fn stun_header() -> Vec<u8> {
    let mut b = vec![0x01, 0x01, 0x00, 0x00, 0x21, 0x12, 0xA4, 0x42];
    b.extend_from_slice(&[7u8; 12]);
    b
}

#[test]
fn discovery_messages() {
    let mut d = Discovery::new(11, "node-a".to_string());
    assert_eq!(d.listen_port(), 8080);
    assert_eq!(d.configure_listener(9000, Some(9999)), Some(9999));
    assert_eq!(d.listen_port(), 9000);
    let a = d.announcement();
    assert_eq!(a.node_id, 11);
    assert_eq!(a.node_name, "node-a");
    assert_eq!(a.listen_port, 9000);
    assert_eq!(a.message_type, DiscoveryMessageType::Announcement);
    assert_eq!(d.discovery_request().message_type, DiscoveryMessageType::Request);
    assert_eq!(d.configure_listener(9000, None), None);

    let req = DiscoveryMessage {
        node_id: 22,
        node_name: "b".to_string(),
        listen_port: 7000,
        timestamp: 0,
        message_type: DiscoveryMessageType::Request,
    };
    let reply = Discovery::listen_reply(11, &"node-a".to_string(), 9000, &req).unwrap();
    assert_eq!(reply.message_type, DiscoveryMessageType::Response);
    assert_eq!(reply.listen_port, 9000);
    let ann = DiscoveryMessage { message_type: DiscoveryMessageType::Announcement, ..req.clone() };
    assert!(Discovery::listen_reply(11, &"node-a".to_string(), 9000, &ann).is_none());

    let from = SocketAddress::v4(0x0a00_0005, 40000);
    assert_eq!(d.peer_from_reply(from, &req), Some(SocketAddress::v4(0x0a00_0005, 7000)));
    let own = DiscoveryMessage { node_id: 11, ..req };
    assert!(d.peer_from_reply(from, &own).is_none());

    assert_eq!(multicast_addr(), SocketAddress::v4(0xEFFF_FFFA, 9999));
    assert_eq!(broadcast_addr(), SocketAddress::v4(0xFFFF_FFFF, 9999));
}

#[test]
fn frames_carry_their_length() {
    assert_eq!(Transport::length_prefix(0x0102_0304), [1, 2, 3, 4]);
    assert_eq!(Transport::read_length([0, 0, 1, 0]), 256);
    let f = Transport::frame(b"hey");
    assert_eq!(f, vec![0, 0, 0, 3, b'h', b'e', b'y']);
    let len = Transport::read_length([f[0], f[1], f[2], f[3]]);
    assert_eq!(len, 3);
    assert_eq!(Transport::check_length(len, MAX_MESSAGE_SIZE).unwrap(), 3);
    match Transport::check_length(10_000_001, MAX_MESSAGE_SIZE) {
        Err(P2PError::MessageTooLarge(n)) => assert_eq!(n, 10_000_001),
        other => panic!("unexpected {:?}", other),
    }
}

#[test]
fn transfers_are_paced_in_pieces() {
    assert_eq!(Transport::pieces(0), Vec::<usize>::new());
    assert_eq!(Transport::pieces(4096), vec![4096]);
    assert_eq!(Transport::pieces(10000), vec![4096, 4096, 1808]);
}

#[test]
fn stun_request_layout() {
    let on = NatManager::new(true);
    assert!(on.enabled());
    let p = on.stun_request([9u8; 12]).unwrap();
    assert_eq!(&p[..8], &[0x00, 0x01, 0x00, 0x00, 0x21, 0x12, 0xA4, 0x42]);
    assert_eq!(&p[8..], &[9u8; 12]);
    let off = NatManager::new(false);
    match off.stun_request([0u8; 12]) {
        Err(P2PError::NetworkError(s)) => assert_eq!(s, "NAT traversal disabled"),
        other => panic!("unexpected {:?}", other),
    }
    assert!(off.check_enabled().is_err());
    assert_eq!(NatManager::new_transaction_id().len(), 12);
}

#[test]
fn stun_xor_mapped_address() {
    // 203.0.113.7 XORed with the cookie.
    let mut b = stun_header();
    b.extend_from_slice(&[0x00, 0x20, 0x00, 0x08, 0x00, 0x01, 0x12, 0x34]);
    b.extend_from_slice(&[203 ^ 0x21, 0 ^ 0x12, 113 ^ 0xA4, 7 ^ 0x42]);
    assert_eq!(NatManager::parse_stun_response(&b).unwrap(), IpAddress::V4(0xCB00_7107));
}

#[test]
fn stun_mapped_address_after_other_attribute() {
    let mut b = stun_header();
    // An unknown attribute of 5 bytes, padded to 8.
    b.extend_from_slice(&[0x80, 0x22, 0x00, 0x05, 1, 2, 3, 4, 5, 0, 0, 0]);
    b.extend_from_slice(&[0x00, 0x01, 0x00, 0x08, 0x00, 0x01, 0x00, 0x50, 192, 168, 1, 20]);
    assert_eq!(NatManager::parse_stun_response(&b).unwrap(), IpAddress::V4(0xC0A8_0114));
}

#[test]
fn stun_errors() {
    let err = |b: &[u8]| match NatManager::parse_stun_response(b) {
        Err(P2PError::NetworkError(s)) => s,
        other => panic!("unexpected {:?}", other),
    };
    assert_eq!(err(&[1u8; 10]), "STUN response too short");
    let mut t = stun_header();
    t[1] = 0x11;
    assert_eq!(err(&t), "Invalid STUN response type");
    let mut c = stun_header();
    c[5] = 0;
    assert_eq!(err(&c), "Invalid STUN cookie");
    assert_eq!(err(&stun_header()), "Public IP not found in STUN response");
    let mut v6 = stun_header();
    v6.extend_from_slice(&[0x00, 0x20, 0x00, 0x08, 0x00, 0x02, 0, 0, 1, 2, 3, 4]);
    assert_eq!(err(&v6), "Public IP not found in STUN response");
    let mut cut = stun_header();
    cut.extend_from_slice(&[0x00, 0x20, 0x00, 0x08, 0x00, 0x01]);
    assert_eq!(err(&cut), "Public IP not found in STUN response");
}

#[test]
fn connections_are_limited_and_expire() {
    let mut cm = ConnectionManager::new(2);
    let a = SocketAddress::v4(1, 1);
    cm.add_connection(1, a, 1_000).unwrap();
    cm.add_connection(2, a, 2_000).unwrap();
    match cm.add_connection(3, a, 3_000) {
        Err(P2PError::TooManyPeers(n)) => assert_eq!(n, 2),
        other => panic!("unexpected {:?}", other),
    }
    assert_eq!(cm.get_connection_count(), 2);
    cm.update_activity(1, 10, 20, 250_000);
    let c = cm.get_connection_info(1).unwrap();
    assert_eq!((c.bytes_sent, c.bytes_received, c.last_activity, c.connected_at), (10, 20, 250_000, 1_000));
    let stale = cm.cleanup_stale_connections(302_001);
    assert_eq!(stale, vec![2]);
    assert_eq!(cm.list_connections().len(), 1);
    assert!(cm.remove_connection(1));
    assert!(!cm.remove_connection(1));
    assert_eq!(cm.get_connection_count(), 0);
}
