use vstd::prelude::*;

use crate::chunk::Chunk;
use crate::encoding::{hex_decode_spec, hex_encode_spec, is_valid_hex, lemma_hex_roundtrip};
use crate::file_manager::{same_info, FileInfo, FileManager};
use crate::protocol::{Message, MessageType, Payload};
use crate::str_map::distinct;
use crate::text::with_text;

verus! {

/// `fs` lists the files of `files`, each once, in some order.
pub open spec fn lists_files(fs: Seq<FileInfo>, files: Map<Seq<char>, FileInfo>) -> bool {
    &&& fs.len() == files.len()
    &&& exists|ks: Seq<Seq<char>>| {
        &&& #[trigger] ks.len() == fs.len()
        &&& distinct(ks)
        &&& forall|i: int| 0 <= i < fs.len() ==> files.dom().contains(#[trigger] ks[i]) && same_info(fs[i], files[ks[i]])
    }
}

/// `r` is a message of kind `t` carrying the error text `text`.
pub open spec fn is_error_reply(r: Option<Message>, text: Seq<char>) -> bool {
    r matches Some(m) && m.msg_type == MessageType::Error && (m.data matches Some(Payload::Error(e)) && e@ == text)
}

/// The reply that a node serving the files of `fm` owes to `req`: a pong to a
/// ping; the list of its files to a file list request; the record of the asked
/// file, or an error naming it, to a file information request; the asked chunk
/// in hex, or an error naming it, to a chunk request; and nothing to anything
/// else, or to a request that does not say what it asks for.
pub open spec fn reply_to(fm: FileManager, req: Message, r: Option<Message>) -> bool {
    match req.msg_type {
        MessageType::Ping => r matches Some(m) && m.msg_type == MessageType::Pong && m.data is None,
        MessageType::FileListRequest => r matches Some(m) && m.msg_type == MessageType::FileListResponse
            && (m.data matches Some(Payload::Files(fs)) && lists_files(fs@, fm.files())),
        MessageType::FileInfoRequest => match req.data {
            Some(Payload::FileHash(h)) => if fm.files().dom().contains(h@) {
                r matches Some(m) && m.msg_type == MessageType::FileInfoResponse
                    && (m.data matches Some(Payload::Info(i)) && same_info(i, fm.files()[h@]))
            } else {
                is_error_reply(r, "File not found: "@ + h@)
            },
            _ => r is None,
        },
        MessageType::ChunkRequest => match req.data {
            Some(Payload::ChunkHash(h)) => if fm.chunk_store().chunks().dom().contains(h@) {
                r matches Some(m) && m.msg_type == MessageType::ChunkResponse
                    && (m.data matches Some(Payload::ChunkData { chunk_hash: ch, data: d }) && ch@ == h@
                    && d@ == hex_encode_spec(fm.chunk_store().chunks()[h@].data@))
            } else {
                is_error_reply(r, "Chunk not found: "@ + h@)
            },
            _ => r is None,
        },
        _ => r is None,
    }
}

/// A peer that asks for a chunk the node holds reads back exactly the chunk's
/// bytes: the reply carries hex digits that decode to the stored data.
pub proof fn lemma_chunk_reply_decodes(fm: FileManager, req: Message, h: String, r: Option<Message>)
    requires
        reply_to(fm, req, r),
        req.msg_type == MessageType::ChunkRequest,
        req.data == Some(Payload::ChunkHash(h)),
        fm.chunk_store().chunks().dom().contains(h@),
    ensures
        r matches Some(m) && (m.data matches Some(Payload::ChunkData { data: d, .. }) && is_valid_hex(d@)
            && hex_decode_spec(d@) == fm.chunk_store().chunks()[h@].data@),
{
    lemma_hex_roundtrip(fm.chunk_store().chunks()[h@].data@);
}

/// Serves the requests of peers from the node's shared files.
pub struct Uploader;

impl Uploader {
    pub fn new() -> Uploader {
        Uploader
    }

    /// The reply to a request of a peer, if one is owed.
    pub fn handle_request(&self, fm: &FileManager, message: &Message) -> (r: Option<Message>)
        requires
            fm.wf(),
        ensures
            reply_to(*fm, *message, r),
    {
        match message.msg_type {
            MessageType::Ping => Some(Message::pong()),
            MessageType::FileListRequest => Some(Self::file_list(fm)),
            MessageType::FileInfoRequest => match &message.data {
                Some(Payload::FileHash(h)) => match fm.get_file_info(h.as_str()) {
                    Some(info) => Some(Message::file_info_response(info.duplicate())),
                    None => Some(Message::error(with_text("File not found: ", h.as_str()))),
                },
                _ => None,
            },
            MessageType::ChunkRequest => match &message.data {
                Some(Payload::ChunkHash(h)) => match fm.get_chunk(h.as_str()) {
                    Some(chunk) => Some(Self::chunk_reply(h, chunk)),
                    None => Some(Message::error(with_text("Chunk not found: ", h.as_str()))),
                },
                _ => None,
            },
            _ => None,
        }
    }

    /// The list of the shared files.
    fn file_list(fm: &FileManager) -> (m: Message)
        requires
            fm.wf(),
        ensures
            m.msg_type == MessageType::FileListResponse,
            m.data matches Some(Payload::Files(fs)) && lists_files(fs@, fm.files()),
    {
        let refs = fm.list_files();
        let mut files: Vec<FileInfo> = Vec::with_capacity(refs.len());
        for i in 0..refs.len()
            invariant
                files@.len() == i,
                forall|j: int| 0 <= j < i ==> same_info(#[trigger] files@[j], *refs@[j]),
        {
            files.push(refs[i].duplicate());
        }
        proof {
            let ks = choose|ks: Seq<Seq<char>>| {
                &&& #[trigger] ks.len() == refs@.len()
                &&& distinct(ks)
                &&& forall|i: int| 0 <= i < refs@.len() ==> fm.files().dom().contains(#[trigger] ks[i]) && *refs@[i] == fm.files()[ks[i]]
            };
            assert(ks.len() == files@.len());
        }
        Message::file_list_response(files)
    }

    /// The chunk `h`, in hex.
    fn chunk_reply(h: &String, chunk: &Chunk) -> (m: Message)
        ensures
            m.msg_type == MessageType::ChunkResponse,
            m.data matches Some(Payload::ChunkData { chunk_hash: ch, data: d }) && ch@ == h@
                && d@ == hex_encode_spec(chunk.data@),
    {
        let data = crate::chunk::copy_bytes(&chunk.data);
        Message::chunk_response(h.clone(), data)
    }
}

} // verus!
