//! The envelopes in which requests, replies, protocol messages and state
//! transfer messages travel between nodes.

use vstd::prelude::*;
use crate::ordering::SeqNo;
use crate::message::{Header, RequestMessage, StoredRequestMessage};

verus! {

/// A reply to a client request: its session, its place in the session, and
/// the payload.
pub struct ReplyMessage<P> {
    pub session_id: SeqNo,
    pub operation_id: SeqNo,
    pub payload: P,
}

impl<P> ReplyMessage<P> {
    pub fn new(sess: SeqNo, id: SeqNo, payload: P) -> (r: ReplyMessage<P>)
        ensures
            r == (ReplyMessage { session_id: sess, operation_id: id, payload }),
    {
        ReplyMessage { session_id: sess, operation_id: id, payload }
    }

    pub fn payload(&self) -> (r: &P)
        ensures
            *r == self.payload,
    {
        &self.payload
    }

    pub fn session_id(&self) -> (r: SeqNo)
        ensures
            r == self.session_id,
    {
        self.session_id
    }

    pub fn sequence_number(&self) -> (r: SeqNo)
        ensures
            r == self.operation_id,
    {
        self.operation_id
    }

    pub fn into_inner(self) -> (r: (SeqNo, SeqNo, P))
        ensures
            r == (self.session_id, self.operation_id, self.payload),
    {
        (self.session_id, self.operation_id, self.payload)
    }
}

/// A message of the ordering protocol.
pub struct Protocol<P> {
    pub payload: P,
}

impl<P> Protocol<P> {
    pub fn new(payload: P) -> (r: Protocol<P>)
        ensures
            r.payload == payload,
    {
        Protocol { payload }
    }

    pub fn payload(&self) -> (r: &P)
        ensures
            *r == self.payload,
    {
        &self.payload
    }

    pub fn into_inner(self) -> (r: P)
        ensures
            r == self.payload,
    {
        self.payload
    }
}

/// A message of the state transfer protocol.
pub struct StateTransfer<P> {
    pub payload: P,
}

impl<P> StateTransfer<P> {
    pub fn new(payload: P) -> (r: StateTransfer<P>)
        ensures
            r.payload == payload,
    {
        StateTransfer { payload }
    }

    pub fn payload(&self) -> (r: &P)
        ensures
            *r == self.payload,
    {
        &self.payload
    }

    pub fn into_inner(self) -> (r: P)
        ensures
            r == self.payload,
    {
        self.payload
    }
}

/// Client requests that a replica forwards to the others.
pub struct ForwardedRequestsMessage {
    pub inner: Vec<StoredRequestMessage>,
}

impl ForwardedRequestsMessage {
    pub fn new(inner: Vec<StoredRequestMessage>) -> (r: ForwardedRequestsMessage)
        ensures
            r.inner@ == inner@,
    {
        ForwardedRequestsMessage { inner }
    }

    pub fn requests(&self) -> (r: &Vec<StoredRequestMessage>)
        ensures
            r@ == self.inner@,
    {
        &self.inner
    }

    pub fn into_inner(self) -> (r: Vec<StoredRequestMessage>)
        ensures
            r@ == self.inner@,
    {
        self.inner
    }
}

/// A protocol message that a replica forwards, with the header it came under.
pub struct ForwardedProtocolMessage<P> {
    pub header: Header,
    pub message: Protocol<P>,
}

impl<P> ForwardedProtocolMessage<P> {
    pub fn new(header: Header, message: Protocol<P>) -> (r: ForwardedProtocolMessage<P>)
        ensures
            r == (ForwardedProtocolMessage { header, message }),
    {
        ForwardedProtocolMessage { header, message }
    }

    pub fn message(&self) -> (r: &Protocol<P>)
        ensures
            *r == self.message,
    {
        &self.message
    }

    pub fn into_inner(self) -> (r: (Header, Protocol<P>))
        ensures
            r == (self.header, self.message),
    {
        (self.header, self.message)
    }
}

/// Every message that nodes exchange.
pub enum SystemMessage<R, P, ST> {
    OrderedRequest(RequestMessage),
    UnorderedRequest(RequestMessage),
    OrderedReply(ReplyMessage<R>),
    UnorderedReply(ReplyMessage<R>),
    ForwardedRequestMessage(ForwardedRequestsMessage),
    ProtocolMessage(Protocol<P>),
    ForwardedProtocolMessage(ForwardedProtocolMessage<P>),
    StateTransferMessage(StateTransfer<ST>),
}

impl<R, P, ST> SystemMessage<R, P, ST> {
    pub fn from_protocol_message(msg: P) -> (r: SystemMessage<R, P, ST>)
        ensures
            r == SystemMessage::<R, P, ST>::ProtocolMessage(Protocol { payload: msg }),
    {
        SystemMessage::ProtocolMessage(Protocol::new(msg))
    }

    pub fn from_state_transfer_message(msg: ST) -> (r: SystemMessage<R, P, ST>)
        ensures
            r == SystemMessage::<R, P, ST>::StateTransferMessage(StateTransfer { payload: msg }),
    {
        SystemMessage::StateTransferMessage(StateTransfer::new(msg))
    }

    /// The protocol message inside; only for a protocol message.
    pub fn into_protocol_message(self) -> (r: P)
        requires
            self is ProtocolMessage,
        ensures
            r == (self->ProtocolMessage_0).payload,
    {
        match self {
            SystemMessage::ProtocolMessage(prot) => prot.into_inner(),
            _ => vstd::pervasive::unreached(),
        }
    }

    /// The state transfer message inside; only for a state transfer message.
    pub fn into_state_tranfer_message(self) -> (r: ST)
        requires
            self is StateTransferMessage,
        ensures
            r == (self->StateTransferMessage_0).payload,
    {
        match self {
            SystemMessage::StateTransferMessage(s) => s.into_inner(),
            _ => vstd::pervasive::unreached(),
        }
    }
}

} // verus!
