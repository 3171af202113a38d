use vstd::prelude::*;

use crate::error::P2PError;

verus! {

/// How many ports are tried when looking for a free one.
pub const PORT_SEARCH_SPAN: u16 = 100;

/// Helpers to start nodes; the sockets are opened by the caller.
pub struct NodeUtils;

impl NodeUtils {
    /// The ports tried, in order, when looking for a free one from
    /// `start_port`: the hundred ports from it up.
    pub fn port_candidates(start_port: u16) -> (r: Vec<u16>)
        requires
            start_port + PORT_SEARCH_SPAN <= u16::MAX,
        ensures
            r@.len() == PORT_SEARCH_SPAN,
            forall|i: int| 0 <= i < r@.len() ==> #[trigger] r@[i] == start_port + i,
    {
        let mut r: Vec<u16> = Vec::new();
        let mut port = start_port;
        while port < start_port + PORT_SEARCH_SPAN
            invariant
                start_port + PORT_SEARCH_SPAN <= u16::MAX,
                start_port <= port <= start_port + PORT_SEARCH_SPAN,
                r@.len() == port - start_port,
                forall|i: int| 0 <= i < r@.len() ==> #[trigger] r@[i] == start_port + i,
            decreases start_port + PORT_SEARCH_SPAN - port,
        {
            r.push(port);
            port = port + 1;
        }
        r
    }

    /// The error when no candidate port is free.
    pub fn no_port_error() -> (e: P2PError)
        ensures
            e matches P2PError::NetworkError(s) && s@ == "No available ports found"@,
    {
        P2PError::NetworkError(String::from_str("No available ports found"))
    }

    /// Whether a node configured with `port` must look for another: it wants
    /// a port and that one is taken.
    pub fn needs_other_port(port: u16, available: bool) -> (b: bool)
        ensures
            b == (port > 0 && !available),
    {
        port > 0 && !available
    }
}

} // verus!
