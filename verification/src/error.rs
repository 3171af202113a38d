use vstd::prelude::*;

use crate::text::{decimal, decimal_string, with_text};

verus! {

/// Errors of the node.
#[derive(Clone, Debug)]
pub enum P2PError {
    IoError(String),
    NetworkError(String),
    ConnectionFailed(String),
    SerializationError(String),
    FileNotFound(String),
    ChunkNotFound(String),
    ChunkVerificationFailed(String),
    InvalidResponse(String),
    MessageTooLarge(usize),
    NoPeersAvailable,
    TooManyPeers(usize),
    IncompleteDownload(String),
    ConfigError(String),
}

/// The message of an error.
pub open spec fn error_text(e: P2PError) -> Seq<char> {
    match e {
        P2PError::IoError(s) => "I/O error: "@ + s@,
        P2PError::NetworkError(s) => "Network error: "@ + s@,
        P2PError::ConnectionFailed(s) => "Connection failed: "@ + s@,
        P2PError::SerializationError(s) => "Serialization error: "@ + s@,
        P2PError::FileNotFound(s) => "File not found: "@ + s@,
        P2PError::ChunkNotFound(s) => "Chunk not found: "@ + s@,
        P2PError::ChunkVerificationFailed(s) => "Chunk verification failed: "@ + s@,
        P2PError::InvalidResponse(s) => "Invalid response: "@ + s@,
        P2PError::MessageTooLarge(n) => "Message too large: "@ + decimal(n as nat) + " bytes"@,
        P2PError::NoPeersAvailable => "No peers available"@,
        P2PError::TooManyPeers(n) => "Too many peers: "@ + decimal(n as nat),
        P2PError::IncompleteDownload(s) => "Download incomplete: "@ + s@,
        P2PError::ConfigError(s) => "Configuration error: "@ + s@,
    }
}

impl P2PError {
    /// The message of the error.
    pub fn message(&self) -> (s: String)
        ensures
            s@ == error_text(*self),
    {
        match self {
            P2PError::IoError(s) => with_text("I/O error: ", s.as_str()),
            P2PError::NetworkError(s) => with_text("Network error: ", s.as_str()),
            P2PError::ConnectionFailed(s) => with_text("Connection failed: ", s.as_str()),
            P2PError::SerializationError(s) => with_text("Serialization error: ", s.as_str()),
            P2PError::FileNotFound(s) => with_text("File not found: ", s.as_str()),
            P2PError::ChunkNotFound(s) => with_text("Chunk not found: ", s.as_str()),
            P2PError::ChunkVerificationFailed(s) => with_text("Chunk verification failed: ", s.as_str()),
            P2PError::InvalidResponse(s) => with_text("Invalid response: ", s.as_str()),
            P2PError::MessageTooLarge(n) => {
                let d = decimal_string(*n as u64);
                let mut s = with_text("Message too large: ", d.as_str());
                s.append(" bytes");
                s
            },
            P2PError::NoPeersAvailable => String::from_str("No peers available"),
            P2PError::TooManyPeers(n) => {
                let d = decimal_string(*n as u64);
                with_text("Too many peers: ", d.as_str())
            },
            P2PError::IncompleteDownload(s) => with_text("Download incomplete: ", s.as_str()),
            P2PError::ConfigError(s) => with_text("Configuration error: ", s.as_str()),
        }
    }
}

} // verus!
