use mini_p2p::error::P2PError;
use mini_p2p::file_manager::FileManager;
use mini_p2p::messaging::{HandshakeProcessor, MessageEnvelope, MessageHandler, MessageProcessor, PingProcessor};
use mini_p2p::net::SocketAddress;
use mini_p2p::peer::{Peer, PeerManager};
use mini_p2p::protocol::{new_node_id, Message, MessageType, Payload};
use mini_p2p::uploader::Uploader;

fn is_v4(id: u128) -> bool {
    (id >> 76) & 0xF == 4 && (id >> 62) & 3 == 2
}

fn envelope(message: Message) -> MessageEnvelope {
    MessageEnvelope { from: 1, to: None, message }
}

#[test]
fn messages_have_kind_data_and_v4_ids() {
    let p = Message::ping();
    assert_eq!(p.msg_type, MessageType::Ping);
    assert!(p.data.is_none());
    assert!(is_v4(p.id));
    assert!(is_v4(new_node_id()));
    assert_ne!(Message::pong().id, Message::pong().id);
    match Message::handshake(42, "alice".to_string()).data {
        Some(Payload::Handshake { node_id, node_name, protocol_version }) => {
            assert_eq!(node_id, 42);
            assert_eq!(node_name, "alice");
            assert_eq!(protocol_version, "1.0");
        }
        other => panic!("unexpected {:?}", other),
    }
    let r = Message::chunk_response("h".to_string(), vec![0x00, 0xab, 0xff]);
    assert_eq!(r.msg_type, MessageType::ChunkResponse);
    match r.data {
        Some(Payload::ChunkData { chunk_hash, data }) => {
            assert_eq!(chunk_hash, "h");
            assert_eq!(data, "00abff");
        }
        other => panic!("unexpected {:?}", other),
    }
    match Message::error("boom".to_string()).data {
        Some(Payload::Error(e)) => assert_eq!(e, "boom"),
        other => panic!("unexpected {:?}", other),
    }
    assert!(matches!(Message::file_info_request("f".to_string()).data, Some(Payload::FileHash(ref f)) if f == "f"));
    assert!(matches!(Message::chunk_request("c".to_string()).data, Some(Payload::ChunkHash(ref c)) if c == "c"));
    assert_eq!(Message::file_list_request().msg_type, MessageType::FileListRequest);
}

#[test]
fn uploader_answers_requests() {
    let mut fm = FileManager::new("s".to_string());
    let hash = fm.add_file("a.txt".to_string(), b"hello world", 11, 5);
    let chunk_hash = fm.get_file_info(&hash).unwrap().chunk_hashes[0].clone();
    let up = Uploader::new();

    let pong = up.handle_request(&fm, &Message::ping()).unwrap();
    assert_eq!(pong.msg_type, MessageType::Pong);

    let list = up.handle_request(&fm, &Message::file_list_request()).unwrap();
    match list.data {
        Some(Payload::Files(fs)) => {
            assert_eq!(fs.len(), 1);
            assert_eq!(fs[0].hash, hash);
        }
        other => panic!("unexpected {:?}", other),
    }

    let info = up.handle_request(&fm, &Message::file_info_request(hash.clone())).unwrap();
    assert_eq!(info.msg_type, MessageType::FileInfoResponse);
    let missing = up.handle_request(&fm, &Message::file_info_request("zz".to_string())).unwrap();
    assert_eq!(missing.msg_type, MessageType::Error);
    assert!(matches!(missing.data, Some(Payload::Error(ref e)) if e == "File not found: zz"));

    let chunk = up.handle_request(&fm, &Message::chunk_request(chunk_hash.clone())).unwrap();
    assert_eq!(Peer::read_chunk(chunk).unwrap(), b"hello world".to_vec());
    let no_chunk = up.handle_request(&fm, &Message::chunk_request("q".to_string())).unwrap();
    assert!(matches!(no_chunk.data, Some(Payload::Error(ref e)) if e == "Chunk not found: q"));

    assert!(up.handle_request(&fm, &Message::handshake(1, "n".to_string())).is_none());
    assert!(up.handle_request(&fm, &Message::new(MessageType::FileInfoRequest, None)).is_none());
}

#[test]
fn peer_reads_responses() {
    let files = Peer::read_file_list(Message::file_list_response(vec![])).unwrap();
    assert!(files.is_empty());
    match Peer::read_file_list(Message::pong()) {
        Err(P2PError::InvalidResponse(s)) => assert_eq!(s, "Expected file list response"),
        other => panic!("unexpected {:?}", other),
    }
    match Peer::read_file_info(Message::new(MessageType::FileInfoResponse, Some(Payload::Other))) {
        Err(P2PError::SerializationError(s)) => assert_eq!(s, "invalid type: null, expected struct FileInfo"),
        other => panic!("unexpected {:?}", other),
    }
    match Peer::read_file_info(Message::new(MessageType::FileInfoResponse, Some(Payload::FileHash("h".to_string())))) {
        Err(P2PError::SerializationError(s)) => assert_eq!(s, "missing field `hash`"),
        other => panic!("unexpected {:?}", other),
    }
    match Peer::read_file_list(Message::new(MessageType::FileListResponse, Some(Payload::Error("e".to_string())))) {
        Err(P2PError::SerializationError(s)) => {
            let serde_text = serde_json::from_value::<Vec<u8>>(serde_json::Value::Null).unwrap_err().to_string();
            assert_eq!(s, serde_text);
        }
        other => panic!("unexpected {:?}", other),
    }
    match Peer::read_file_list(Message::new(MessageType::FileListResponse, Some(Payload::Unreadable("bad".to_string())))) {
        Err(P2PError::SerializationError(s)) => assert_eq!(s, "bad"),
        other => panic!("unexpected {:?}", other),
    }
    let bad_hex = Message::new(
        MessageType::ChunkResponse,
        Some(Payload::ChunkData { chunk_hash: "h".to_string(), data: "0g".to_string() }),
    );
    match Peer::read_chunk(bad_hex) {
        Err(P2PError::InvalidResponse(s)) => assert_eq!(s, "Invalid hex data: Invalid character 'g' at position 1"),
        other => panic!("unexpected {:?}", other),
    }
    let odd = Message::new(
        MessageType::ChunkResponse,
        Some(Payload::ChunkData { chunk_hash: "h".to_string(), data: "abc".to_string() }),
    );
    match Peer::read_chunk(odd) {
        Err(P2PError::InvalidResponse(s)) => assert_eq!(s, "Invalid hex data: Odd number of digits"),
        other => panic!("unexpected {:?}", other),
    }
    match Peer::read_chunk(Message::new(MessageType::ChunkResponse, Some(Payload::Other))) {
        Err(P2PError::InvalidResponse(s)) => assert_eq!(s, "Missing chunk data"),
        other => panic!("unexpected {:?}", other),
    }
    assert!(Peer::read_pong(&Message::pong()).is_ok());
    assert!(matches!(Peer::read_pong(&Message::ping()), Err(P2PError::InvalidResponse(ref s)) if s == "Expected pong response"));
}

#[test]
fn peer_names_and_liveness() {
    let p = Peer::new(7, SocketAddress::v4(0x7f00_0001, 9001));
    assert_eq!(p.name, "Peer-9001");
    assert!(Peer::is_alive_at(1_000, 60_999));
    assert!(!Peer::is_alive_at(1_000, 61_000));
    assert!(Peer::is_alive_at(5_000, 1_000));
}

#[test]
fn peer_manager_limits() {
    let mut pm: PeerManager<&str> = PeerManager::new();
    for i in 0..50u128 {
        pm.add_peer(i, "p").unwrap();
    }
    assert_eq!(pm.peer_count(), 50);
    match pm.add_peer(99, "q") {
        Err(P2PError::TooManyPeers(n)) => assert_eq!(n, 50),
        other => panic!("unexpected {:?}", other),
    }
    assert!(pm.get_peer(99).is_none());
    pm.remove_peer(3);
    assert_eq!(pm.peer_count(), 49);
    pm.add_peer(99, "q").unwrap();
    assert_eq!(pm.get_peer(99), Some(&"q"));
    pm.cleanup_dead_peers(&vec![0, 1, 2, 1000]);
    assert_eq!(pm.peer_count(), 47);
    assert_eq!(pm.get_all_peers().len(), 47);

    let a = SocketAddress::v4(1, 1);
    pm.add_discovered_peer(a);
    pm.add_discovered_peer(a);
    assert_eq!(pm.discovered_peers().len(), 1);
    for i in 0..200u16 {
        pm.add_discovered_peer(SocketAddress::v4(2, i));
    }
    assert_eq!(pm.discovered_peers().len(), 100);
}

#[test]
fn handlers_answer_their_kind() {
    let e = envelope(Message::ping());
    let r = PingProcessor.process(&e).unwrap().unwrap();
    assert_eq!(r.msg_type, MessageType::Pong);
    assert!(PingProcessor.process(&envelope(Message::pong())).unwrap().is_none());

    let h = HandshakeProcessor::new(5, "me".to_string());
    let reply = h.process(&envelope(Message::handshake(9, "you".to_string()))).unwrap().unwrap();
    assert!(matches!(reply.data, Some(Payload::Handshake { node_id: 5, ref node_name, .. }) if node_name == "me"));
    assert!(h.process(&e).unwrap().is_none());
}

#[test]
fn first_registered_handler_wins() {
    let mut mh: MessageHandler<&str> = MessageHandler::new();
    mh.register_handler(MessageType::Pong, "pong");
    mh.register_handler(MessageType::Ping, "first");
    mh.register_handler(MessageType::Ping, "second");
    let i = mh.handle_message(envelope(Message::ping())).unwrap();
    assert_eq!(*mh.handler(i), "first");
    assert!(mh.handle_message(envelope(Message::file_list_request())).is_none());
    let drained = mh.process_queue();
    assert_eq!(drained.len(), 2);
    assert_eq!(drained[0].message.msg_type, MessageType::Ping);
    assert!(mh.process_queue().is_empty());
}
