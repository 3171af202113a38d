use vstd::prelude::*;

use crate::clock::now_secs;
use crate::encoding::{hex_encode, hex_encode_spec};
use crate::file_manager::FileInfo;

verus! {

/// The kinds of message that peers exchange.
#[derive(Clone, Copy, Debug, PartialEq, Eq, Hash, Structural)]
pub enum MessageType {
    Ping,
    Pong,
    Handshake,
    Disconnect,
    FileListRequest,
    FileListResponse,
    FileInfoRequest,
    FileInfoResponse,
    ChunkRequest,
    ChunkResponse,
    ChunkAvailable,
    PeerDiscovery,
    PeerAnnouncement,
    Error,
}

/// What a message carries. On the wire each is a JSON object:
/// `Handshake` is `{"node_id", "node_name", "protocol_version"}`, `Files` is
/// `{"files": [...]}`, `FileHash` is `{"file_hash"}`, `Info` is the file record
/// itself, `ChunkHash` is `{"chunk_hash"}`, `ChunkData` is `{"chunk_hash",
/// "data"}` with the bytes in hex, and `Error` is `{"error"}`. `Unreadable`
/// is a value that the receiver could not read as the kind of message asks,
/// with the reader's message; `Other` is any other value (sent as `null`).
#[derive(Clone, Debug)]
pub enum Payload {
    Handshake { node_id: u128, node_name: String, protocol_version: String },
    Files(Vec<FileInfo>),
    FileHash(String),
    Info(FileInfo),
    ChunkHash(String),
    ChunkData { chunk_hash: String, data: String },
    Error(String),
    Unreadable(String),
    Other,
}

/// A message between peers: a random identifier, its kind, the time it was
/// made (seconds since the Unix epoch) and what it carries.
#[derive(Clone, Debug)]
pub struct Message {
    pub id: u128,
    pub msg_type: MessageType,
    pub timestamp: u64,
    pub data: Option<Payload>,
}

/// A version 4 (random) UUID of the RFC 4122 variant, as a 128-bit
/// big-endian number: the version nibble is 4 and the variant bits are `10`.
pub open spec fn is_v4_uuid(v: u128) -> bool {
    &&& (v >> 76u128) & 0xFu128 == 4u128
    &&& (v >> 62u128) & 3u128 == 2u128
}

/// `uuid::Uuid::new_v4`, as its 128-bit number: random bits with the version
/// and variant set; only those bits are stated.
#[verifier::external_body]
pub(crate) fn random_uuid() -> (id: u128)
    ensures
        is_v4_uuid(id),
{
    uuid::Uuid::new_v4().as_u128()
}

/// A fresh node or peer identifier.
pub fn new_node_id() -> (id: u128)
    ensures
        is_v4_uuid(id),
{
    random_uuid()
}

impl Message {
    /// A message of kind `msg_type` carrying `data`, with a fresh identifier
    /// and the current time.
    pub fn new(msg_type: MessageType, data: Option<Payload>) -> (m: Message)
        ensures
            m.msg_type == msg_type,
            m.data == data,
            is_v4_uuid(m.id),
    {
        Message { id: random_uuid(), msg_type, timestamp: now_secs(), data }
    }

    pub fn ping() -> (m: Message)
        ensures
            m.msg_type == MessageType::Ping,
            m.data is None,
            is_v4_uuid(m.id),
    {
        Self::new(MessageType::Ping, None)
    }

    pub fn pong() -> (m: Message)
        ensures
            m.msg_type == MessageType::Pong,
            m.data is None,
            is_v4_uuid(m.id),
    {
        Self::new(MessageType::Pong, None)
    }

    /// The greeting of node `node_id` named `node_name`, at protocol version 1.0.
    pub fn handshake(node_id: u128, node_name: String) -> (m: Message)
        ensures
            m.msg_type == MessageType::Handshake,
            m.data matches Some(Payload::Handshake { node_id: i, node_name: n, protocol_version: v })
                && i == node_id && n == node_name && v@ == "1.0"@,
            is_v4_uuid(m.id),
    {
        let v = String::from_str("1.0");
        Self::new(
            MessageType::Handshake,
            Some(Payload::Handshake { node_id, node_name, protocol_version: v }),
        )
    }

    pub fn file_list_request() -> (m: Message)
        ensures
            m.msg_type == MessageType::FileListRequest,
            m.data is None,
            is_v4_uuid(m.id),
    {
        Self::new(MessageType::FileListRequest, None)
    }

    pub fn file_list_response(files: Vec<FileInfo>) -> (m: Message)
        ensures
            m.msg_type == MessageType::FileListResponse,
            m.data == Some(Payload::Files(files)),
            is_v4_uuid(m.id),
    {
        Self::new(MessageType::FileListResponse, Some(Payload::Files(files)))
    }

    pub fn file_info_request(file_hash: String) -> (m: Message)
        ensures
            m.msg_type == MessageType::FileInfoRequest,
            m.data == Some(Payload::FileHash(file_hash)),
            is_v4_uuid(m.id),
    {
        Self::new(MessageType::FileInfoRequest, Some(Payload::FileHash(file_hash)))
    }

    pub fn file_info_response(file_info: FileInfo) -> (m: Message)
        ensures
            m.msg_type == MessageType::FileInfoResponse,
            m.data == Some(Payload::Info(file_info)),
            is_v4_uuid(m.id),
    {
        Self::new(MessageType::FileInfoResponse, Some(Payload::Info(file_info)))
    }

    pub fn chunk_request(chunk_hash: String) -> (m: Message)
        ensures
            m.msg_type == MessageType::ChunkRequest,
            m.data == Some(Payload::ChunkHash(chunk_hash)),
            is_v4_uuid(m.id),
    {
        Self::new(MessageType::ChunkRequest, Some(Payload::ChunkHash(chunk_hash)))
    }

    /// The chunk `chunk_hash` with its bytes `data`, sent in lowercase hex.
    pub fn chunk_response(chunk_hash: String, data: Vec<u8>) -> (m: Message)
        ensures
            m.msg_type == MessageType::ChunkResponse,
            m.data matches Some(Payload::ChunkData { chunk_hash: h, data: d }) && h == chunk_hash
                && d@ == hex_encode_spec(data@),
            is_v4_uuid(m.id),
    {
        let hex = hex_encode(data.as_slice());
        Self::new(MessageType::ChunkResponse, Some(Payload::ChunkData { chunk_hash, data: hex }))
    }

    pub fn error(message: String) -> (m: Message)
        ensures
            m.msg_type == MessageType::Error,
            m.data == Some(Payload::Error(message)),
            is_v4_uuid(m.id),
    {
        Self::new(MessageType::Error, Some(Payload::Error(message)))
    }
}

} // verus!
