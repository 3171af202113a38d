use vstd::prelude::*;

use crate::clock::{elapsed_ms, elapsed_millis, now_millis};
use crate::net::SocketAddress;
use crate::node_id::NodeId;

verus! {

/// A contact (peer) in the DHT network. Times are milliseconds of the clock.
#[derive(Clone, Copy, Debug)]
pub struct Contact {
    pub node_id: NodeId,
    pub addr: SocketAddress,
    pub last_seen: Option<u64>,
}

impl PartialEq for Contact {
    fn eq(&self, other: &Contact) -> (r: bool) {
        self.node_id == other.node_id && self.addr == other.addr
    }
}

impl vstd::std_specs::cmp::PartialEqSpecImpl for Contact {
    open spec fn obeys_eq_spec() -> bool {
        true
    }

    open spec fn eq_spec(&self, other: &Contact) -> bool {
        self.node_id@ == other.node_id@ && self.addr == other.addr
    }
}

impl Eq for Contact {}

/// Whether a contact last seen at `last_seen` is stale at `now`: not seen for
/// more than `timeout_secs` whole seconds, or never seen.
pub open spec fn stale(last_seen: Option<u64>, timeout_secs: u64, now: u64) -> bool {
    match last_seen {
        Some(t) => elapsed_ms(t, now) / 1000 > timeout_secs,
        None => true,
    }
}

impl Contact {
    /// A contact seen now.
    pub fn new(node_id: NodeId, addr: SocketAddress) -> (c: Contact)
        ensures
            c.node_id == node_id,
            c.addr == addr,
            c.last_seen is Some,
    {
        Self::new_at(node_id, addr, now_millis())
    }

    /// A contact seen at `now`.
    pub fn new_at(node_id: NodeId, addr: SocketAddress, now: u64) -> (c: Contact)
        ensures
            c == (Contact { node_id, addr, last_seen: Some(now) }),
    {
        Contact { node_id, addr, last_seen: Some(now) }
    }

    /// Mark the contact as seen now.
    pub fn update_last_seen(&mut self)
        ensures
            final(self).node_id == old(self).node_id,
            final(self).addr == old(self).addr,
            final(self).last_seen is Some,
    {
        let now = now_millis();
        self.update_last_seen_at(now);
    }

    /// Mark the contact as seen at `now`.
    pub fn update_last_seen_at(&mut self, now: u64)
        ensures
            *final(self) == (Contact { last_seen: Some(now), ..*old(self) }),
    {
        self.last_seen = Some(now);
    }

    /// Whether the contact has not been seen for more than `timeout_secs`
    /// seconds (a contact never seen is stale).
    pub fn is_stale(&self, timeout_secs: u64) -> (r: bool)
        ensures
            self.last_seen is None ==> r,
            exists|now: u64| r == stale(self.last_seen, timeout_secs, now),
    {
        let now = now_millis();
        self.is_stale_at(timeout_secs, now)
    }

    /// Whether the contact is stale at `now`.
    pub fn is_stale_at(&self, timeout_secs: u64, now: u64) -> (r: bool)
        ensures
            r == stale(self.last_seen, timeout_secs, now),
    {
        match self.last_seen {
            Some(t) => elapsed_millis(t, now) / 1000 > timeout_secs,
            None => true,
        }
    }
}

} // verus!
