use vstd::prelude::*;

use crate::error::P2PError;
use crate::protocol::{is_v4_uuid, Message, MessageType, Payload};

verus! {

/// A message with its sender and its addressee (`None` for everyone).
#[derive(Clone, Debug)]
pub struct MessageEnvelope {
    pub from: u128,
    pub to: Option<u128>,
    pub message: Message,
}

/// Something that answers messages of a kind.
pub trait MessageProcessor {
    /// The answer to `envelope`, if any.
    fn process(&self, envelope: &MessageEnvelope) -> (r: Result<Option<Message>, P2PError>);
}

/// Answers a ping with a pong.
pub struct PingProcessor;

impl MessageProcessor for PingProcessor {
    fn process(&self, envelope: &MessageEnvelope) -> (r: Result<Option<Message>, P2PError>)
        ensures
            envelope.message.msg_type == MessageType::Ping ==> (r matches Ok(Some(m))
                && m.msg_type == MessageType::Pong && m.data is None && is_v4_uuid(m.id)),
            envelope.message.msg_type != MessageType::Ping ==> r matches Ok(None),
    {
        if envelope.message.msg_type == MessageType::Ping {
            Ok(Some(Message::pong()))
        } else {
            Ok(None)
        }
    }
}

/// Answers a handshake with the node's own.
pub struct HandshakeProcessor {
    node_id: u128,
    node_name: String,
}

impl HandshakeProcessor {
    pub fn new(node_id: u128, node_name: String) -> (p: HandshakeProcessor)
        ensures
            p.id() == node_id,
            p.name() == node_name@,
    {
        HandshakeProcessor { node_id, node_name }
    }

    pub closed spec fn id(&self) -> u128 {
        self.node_id
    }

    pub closed spec fn name(&self) -> Seq<char> {
        self.node_name@
    }
}

impl MessageProcessor for HandshakeProcessor {
    fn process(&self, envelope: &MessageEnvelope) -> (r: Result<Option<Message>, P2PError>)
        ensures
            envelope.message.msg_type == MessageType::Handshake ==> (r matches Ok(Some(m))
                && m.msg_type == MessageType::Handshake && (m.data matches Some(
                Payload::Handshake { node_id: i, node_name: n, protocol_version: v },
            ) && i == self.id() && n@ == self.name() && v@ == "1.0"@)),
            envelope.message.msg_type != MessageType::Handshake ==> r matches Ok(None),
    {
        if envelope.message.msg_type == MessageType::Handshake {
            Ok(Some(Message::handshake(self.node_id, self.node_name.clone())))
        } else {
            Ok(None)
        }
    }
}

/// The position of the first handler registered for `t`, if any.
pub open spec fn first_handler(kinds: Seq<MessageType>, t: MessageType) -> Option<int> {
    if exists|i: int| 0 <= i < kinds.len() && kinds[i] == t {
        Some(choose|i: int| 0 <= i < kinds.len() && kinds[i] == t && forall|j: int| 0 <= j < i ==> kinds[j] != t)
    } else {
        None
    }
}

proof fn lemma_first_handler(ks: Seq<MessageType>, t: MessageType, i: int)
    requires
        0 <= i < ks.len(),
        ks[i] == t,
        forall|j: int| 0 <= j < i ==> ks[j] != t,
    ensures
        first_handler(ks, t) == Some(i),
{
    assert(exists|k: int| 0 <= k < ks.len() && ks[k] == t);
    let w = choose|w: int| 0 <= w < ks.len() && ks[w] == t && forall|j: int| 0 <= j < w ==> ks[j] != t;
    if w < i {
        assert(ks[w] != t);
    } else if w > i {
        assert(ks[i] != t);
    }
}

proof fn lemma_no_handler(ks: Seq<MessageType>, t: MessageType)
    requires
        forall|j: int| 0 <= j < ks.len() ==> ks[j] != t,
    ensures
        first_handler(ks, t) is None,
{
}

/// Incoming messages and the handlers registered for their kinds. `H` is the
/// caller's handler.
pub struct MessageHandler<H> {
    message_queue: Vec<MessageEnvelope>,
    handlers: Vec<(MessageType, H)>,
}

impl<H> MessageHandler<H> {
    /// The messages taken in and not yet drained.
    pub closed spec fn queue(&self) -> Seq<MessageEnvelope> {
        self.message_queue@
    }

    /// The kinds handled, in order of registration.
    pub closed spec fn kinds(&self) -> Seq<MessageType> {
        self.handlers@.map_values(|p: (MessageType, H)| p.0)
    }

    /// The handlers, in order of registration.
    pub closed spec fn handler_seq(&self) -> Seq<H> {
        self.handlers@.map_values(|p: (MessageType, H)| p.1)
    }

    pub fn new() -> (m: MessageHandler<H>)
        ensures
            m.queue() == Seq::<MessageEnvelope>::empty(),
            m.kinds() == Seq::<MessageType>::empty(),
    {
        let m = MessageHandler { message_queue: Vec::new(), handlers: Vec::new() };
        assert(m.kinds() =~= Seq::<MessageType>::empty());
        m
    }

    /// Add a handler for messages of kind `msg_type`.
    pub fn register_handler(&mut self, msg_type: MessageType, handler: H)
        ensures
            final(self).kinds() == old(self).kinds().push(msg_type),
            final(self).handler_seq() == old(self).handler_seq().push(handler),
            final(self).queue() == old(self).queue(),
    {
        self.handlers.push((msg_type, handler));
        assert(self.kinds() =~= old(self).kinds().push(msg_type));
        assert(self.handler_seq() =~= old(self).handler_seq().push(handler));
    }

    /// Take in a message: queue it, and give the position of the first
    /// handler registered for its kind.
    pub fn handle_message(&mut self, envelope: MessageEnvelope) -> (r: Option<usize>)
        ensures
            final(self).queue() == old(self).queue().push(envelope),
            final(self).kinds() == old(self).kinds(),
            final(self).handler_seq() == old(self).handler_seq(),
            match first_handler(old(self).kinds(), envelope.message.msg_type) {
                Some(i) => r == Some(i as usize),
                None => r is None,
            },
            r matches Some(j) ==> j < old(self).kinds().len() && old(self).kinds()[j as int] == envelope.message.msg_type
                && forall|k: int| 0 <= k < j ==> old(self).kinds()[k] != envelope.message.msg_type,
            r is None ==> forall|k: int| 0 <= k < old(self).kinds().len() ==> old(self).kinds()[k] != envelope.message.msg_type,
    {
        let t = envelope.message.msg_type;
        self.message_queue.push(envelope);
        let ghost ks = self.kinds();
        let ghost q = self.queue();
        let ghost hs = self.handler_seq();
        assert(q == old(self).queue().push(envelope));
        let mut i: usize = 0;
        while i < self.handlers.len()
            invariant
                ks == self.kinds(),
                ks == old(self).kinds(),
                q == self.queue(),
                hs == self.handler_seq(),
                hs == old(self).handler_seq(),
                q == old(self).queue().push(envelope),
                t == envelope.message.msg_type,
                ks.len() == self.handlers@.len(),
                i <= ks.len(),
                forall|j: int| 0 <= j < i ==> ks[j] != t,
            decreases ks.len() - i,
        {
            if self.handlers[i].0 == t {
                proof {
                    lemma_first_handler(ks, t, i as int);
                }
                return Some(i);
            }
            i += 1;
        }
        proof {
            lemma_no_handler(ks, t);
        }
        None
    }

    /// The handler at position `i`.
    pub fn handler(&self, i: usize) -> (h: &H)
        requires
            i < self.kinds().len(),
        ensures
            *h == self.handler_seq()[i as int],
    {
        &self.handlers[i].1
    }

    /// Take every queued message out, oldest first.
    pub fn process_queue(&mut self) -> (r: Vec<MessageEnvelope>)
        ensures
            r@ == old(self).queue(),
            final(self).queue() == Seq::<MessageEnvelope>::empty(),
            final(self).kinds() == old(self).kinds(),
            final(self).handler_seq() == old(self).handler_seq(),
    {
        let mut taken: Vec<MessageEnvelope> = Vec::new();
        std::mem::swap(&mut taken, &mut self.message_queue);
        taken
    }
}

} // verus!
