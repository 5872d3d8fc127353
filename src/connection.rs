//! The decisions of connection establishment: which socket of a peer to
//! dial, whether a link runs in plain text or under TLS, and whether an
//! inbound connection is accepted. The sockets themselves are the caller's.

use vstd::prelude::*;
use crate::message::{NodeId, Digest, Signature, Header};

verus! {

/// How many times an outbound connection is attempted.
pub const CONNECT_RETRIES: u32 = 180;

/// Seconds to wait between two attempts.
pub const RETRY_DELAY_SECS: u64 = 1;

/// Which of a peer's sockets to dial.
#[derive(Clone, Copy, PartialEq, Eq, Structural, Debug)]
pub enum SocketChoice {
    ClientFacing,
    ReplicaFacing,
}

/// Whether a link runs in plain text or under TLS.
#[derive(Clone, Copy, PartialEq, Eq, Structural, Debug)]
pub enum Security {
    Plain,
    Tls,
}

/// Why an inbound connection is refused.
#[derive(Clone, Copy, PartialEq, Eq, Structural, Debug)]
pub enum InboundRejection {
    /// Two clients never talk to each other.
    ClientToClient,
    /// The header names another node as destination.
    WrongDestination,
}

/// What to do with an inbound connection after reading its header.
#[derive(Clone, Copy, PartialEq, Eq, Structural, Debug)]
pub enum InboundDecision {
    Reject(InboundRejection),
    Accept { peer: NodeId, security: Security },
}

/// Whether `id` is a client: ids from `first_cli` on are.
pub open spec fn is_client(id: NodeId, first_cli: NodeId) -> bool {
    id >= first_cli
}

/// A client dials every peer on its client-facing socket; a replica dials
/// clients there and replicas on their replica-facing socket.
pub fn choose_socket(my_id: NodeId, peer_id: NodeId, first_cli: NodeId) -> (r: SocketChoice)
    ensures
        r == if is_client(my_id, first_cli) || is_client(peer_id, first_cli) {
            SocketChoice::ClientFacing
        } else {
            SocketChoice::ReplicaFacing
        },
{
    if my_id >= first_cli || peer_id >= first_cli {
        SocketChoice::ClientFacing
    } else {
        SocketChoice::ReplicaFacing
    }
}

/// Links that involve a client are plain; links between replicas use TLS.
pub fn connection_security(my_id: NodeId, peer_id: NodeId, first_cli: NodeId) -> (r: Security)
    ensures
        r == if is_client(my_id, first_cli) || is_client(peer_id, first_cli) { Security::Plain } else { Security::Tls },
{
    if my_id >= first_cli || peer_id >= first_cli {
        Security::Plain
    } else {
        Security::Tls
    }
}

/// The header a node sends first on an outbound connection: who it is, whom
/// it dials, a fresh nonce, and no payload.
pub fn connect_header(my_id: NodeId, peer_id: NodeId, nonce: u64) -> (r: Header)
    ensures
        r.from == my_id,
        r.to == peer_id,
        r.nonce == nonce,
        r.length == 0,
        r.digest == (Digest { w0: 0, w1: 0, w2: 0, w3: 0 }),
{
    let empty = Digest::empty();
    Header { from: my_id, to: peer_id, nonce, digest: empty, signature: Signature { lo: empty, hi: empty }, length: 0 }
}

/// Decides on an inbound connection from the header it sent first: a
/// client may not connect to a client, the header must name this node, and
/// the sender becomes the peer.
pub fn accept_inbound(header: &Header, my_id: NodeId, first_cli: NodeId) -> (r: InboundDecision)
    ensures
        is_client(header.from, first_cli) && is_client(my_id, first_cli)
            ==> r == InboundDecision::Reject(InboundRejection::ClientToClient),
        !(is_client(header.from, first_cli) && is_client(my_id, first_cli)) && header.to != my_id
            ==> r == InboundDecision::Reject(InboundRejection::WrongDestination),
        !(is_client(header.from, first_cli) && is_client(my_id, first_cli)) && header.to == my_id
            ==> r == (InboundDecision::Accept {
                peer: header.from,
                security: if is_client(header.from, first_cli) || is_client(my_id, first_cli) {
                    Security::Plain
                } else {
                    Security::Tls
                },
            }),
{
    if header.from >= first_cli && my_id >= first_cli {
        return InboundDecision::Reject(InboundRejection::ClientToClient);
    }
    if header.to != my_id {
        return InboundDecision::Reject(InboundRejection::WrongDestination);
    }
    InboundDecision::Accept { peer: header.from, security: connection_security(my_id, header.from, first_cli) }
}

/// Whether another attempt follows attempt number `attempt` (counted from
/// zero) that failed.
pub fn should_retry(attempt: u32) -> (r: bool)
    ensures
        r == (attempt + 1 < CONNECT_RETRIES),
{
    attempt < CONNECT_RETRIES - 1
}

} // verus!
