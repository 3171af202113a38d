use mini_p2p::contact::Contact;
use mini_p2p::dht_node::DhtNode;
use mini_p2p::net::SocketAddress;
use mini_p2p::node_id::NodeId;
use mini_p2p::routing_table::RoutingTable;
use mini_p2p::rpc::DhtMessage;

/// 127.0.0.1:port
fn localhost(port: u16) -> SocketAddress {
    SocketAddress::v4(0x7f00_0001, port)
}

#[test]
fn test_distance() {
    let id1 = NodeId::from_string("node1");
    let id2 = NodeId::from_string("node2");
    let dist = id1.distance(&id2);

    // Distance should be symmetric
    assert_eq!(dist, id2.distance(&id1));

    // Distance to self should be zero
    let zero_dist = id1.distance(&id1);
    assert_eq!(*zero_dist.as_bytes(), [0u8; 20]);
}

#[test]
fn test_bucket_index() {
    let id1 = NodeId::new([0xFF; 20]);
    let id2 = NodeId::new([0x7F; 20]);

    // First bit differs, so bucket index should be 159
    assert_eq!(id1.bucket_index(&id2), Some(159));
}

#[test]
fn test_hex_conversion() {
    let id = NodeId::random();
    let hex = id.to_hex();
    let id2 = NodeId::from_hex(&hex).unwrap();
    assert_eq!(id, id2);
}

#[test]
fn test_contact_creation() {
    let node_id = NodeId::random();
    let addr = localhost(8080);
    let contact = Contact::new(node_id, addr);

    assert_eq!(contact.node_id, node_id);
    assert_eq!(contact.addr, addr);
    assert!(contact.last_seen.is_some());
}

#[test]
fn test_staleness() {
    let node_id = NodeId::random();
    let addr = localhost(8080);
    let mut contact = Contact::new(node_id, addr);

    // Should not be stale immediately
    assert!(!contact.is_stale(1));

    // Manually set last_seen to None
    contact.last_seen = None;
    assert!(contact.is_stale(0));
}

#[test]
fn test_routing_table() {
    let local_id = NodeId::random();
    let mut table = RoutingTable::new(local_id);

    // Add some contacts
    for i in 0..5 {
        let node_id = NodeId::random();
        let contact = Contact::new(node_id, localhost(8080 + i));
        table.add_contact(contact);
    }

    assert_eq!(table.contact_count(), 5);
}

#[test]
fn test_find_closest() {
    let local_id = NodeId::random();
    let mut table = RoutingTable::new(local_id);

    // Add contacts
    let mut contacts = Vec::new();
    for i in 0..10 {
        let node_id = NodeId::random();
        let contact = Contact::new(node_id, localhost(8080 + i));
        contacts.push(contact.clone());
        table.add_contact(contact);
    }

    // Find closest to a target
    let target = NodeId::random();
    let closest = table.find_closest_contacts(&target, 3);
    assert_eq!(closest.len(), 3);
}

#[test]
fn test_is_request() {
    let node_id = NodeId::random();
    let contact = Contact::new(node_id, localhost(8080));

    let ping = DhtMessage::Ping { sender: contact.clone() };
    assert!(ping.is_request());

    let pong = DhtMessage::Pong { sender: contact.clone() };
    assert!(pong.is_response());
}

#[test]
fn store_then_find_value_returns_the_storer() {
    let mut node = DhtNode::new_with_id(NodeId::from_string("me"), localhost(6881), 0);
    let a = Contact::new_at(NodeId::from_string("a"), localhost(7001), 0);
    let b = Contact::new_at(NodeId::from_string("b"), localhost(7002), 0);
    let ack = node.handle_message_at(DhtMessage::Store { sender: a, key: "file".to_string() }, 10);
    assert!(matches!(ack, Some(DhtMessage::StoreResponse { success: true, .. })));
    match node.handle_message_at(DhtMessage::FindValue { sender: b, key: "file".to_string() }, 20) {
        Some(DhtMessage::FindValueResponse { value: Some(v), contacts, .. }) => {
            assert_eq!(v.len(), 1);
            assert_eq!(v[0].node_id, a.node_id);
            assert!(contacts.is_empty());
        }
        other => panic!("unexpected {:?}", other),
    }
    match node.handle_message_at(DhtMessage::FindValue { sender: b, key: "other".to_string() }, 30) {
        Some(DhtMessage::FindValueResponse { value: None, contacts, .. }) => assert_eq!(contacts.len(), 2),
        other => panic!("unexpected {:?}", other),
    }
    assert_eq!(node.contact_count(), 2);
    assert!(node.handle_message_at(DhtMessage::Pong { sender: a }, 40).is_none());
    assert!(matches!(node.handle_message_at(DhtMessage::Ping { sender: a }, 50), Some(DhtMessage::Pong { .. })));
}

#[test]
fn bucket_index_of_equal_ids_is_none() {
    let id = NodeId::from_string("x");
    assert_eq!(id.bucket_index(&id), None);
    let lowest = NodeId::new([0; 20]);
    let mut one = [0u8; 20];
    one[19] = 1;
    assert_eq!(lowest.bucket_index(&NodeId::new(one)), Some(0));
}

#[test]
fn hex_ids_parse_or_fail() {
    let id = NodeId::new([0xab; 20]);
    assert_eq!(id.to_hex(), "ab".repeat(20));
    assert_eq!(id.short_hex(), "abababab");
    assert!(NodeId::from_hex("abc").is_err());
    assert!(NodeId::from_hex("zz").is_err());
}

#[test]
fn removing_contacts() {
    let mut table = RoutingTable::new(NodeId::from_string("local"));
    let c = Contact::new(NodeId::from_string("peer"), localhost(1));
    assert!(table.add_contact(c));
    assert_eq!(table.get_all_contacts().len(), 1);
    assert!(table.remove_contact(&c.node_id));
    assert!(!table.remove_contact(&c.node_id));
    assert_eq!(table.contact_count(), 0);
}

#[test]
fn closest_contacts_are_strictly_ordered() {
    let mut table = RoutingTable::new(NodeId::from_string("local"));
    let mut all = Vec::new();
    for i in 0..10u16 {
        let c = Contact::new(NodeId::from_string(&format!("peer{}", i)), localhost(9000 + i));
        all.push(c);
        table.add_contact(c);
    }
    let target = NodeId::from_string("target");
    let closest = table.find_closest_contacts(&target, 3);
    assert_eq!(closest.len(), 3);
    for w in closest.windows(2) {
        assert!(w[0].node_id.distance(&target) < w[1].node_id.distance(&target));
    }
    let last = closest[2].node_id.distance(&target);
    for c in table.get_all_contacts() {
        if !closest.iter().any(|r| r.node_id == c.node_id) {
            assert!(last < c.node_id.distance(&target));
        }
    }
}
