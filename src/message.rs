//! Message shapes that the ordering core consumes and produces.

use vstd::prelude::*;
use crate::ordering::SeqNo;

verus! {

/// Identifier of a replica or client.
pub type NodeId = u32;

/// A 32-byte hash digest, held as four little-endian words.
#[derive(Clone, Copy, PartialEq, Eq, Structural, Debug)]
pub struct Digest {
    pub w0: u64,
    pub w1: u64,
    pub w2: u64,
    pub w3: u64,
}

/// A 64-byte signature, held as two 32-byte halves.
#[derive(Clone, Copy, PartialEq, Eq, Structural, Debug)]
pub struct Signature {
    pub lo: Digest,
    pub hi: Digest,
}

/// The fixed-size envelope in front of every peer-to-peer message.
#[derive(Clone, Copy, PartialEq, Eq, Structural, Debug)]
pub struct Header {
    pub from: NodeId,
    pub to: NodeId,
    pub nonce: u64,
    pub digest: Digest,
    pub signature: Signature,
    pub length: u32,
}

impl Digest {
    /// The all-zero digest, used where a message has no payload.
    pub fn empty() -> (r: Digest)
        ensures
            r == (Digest { w0: 0, w1: 0, w2: 0, w3: 0 }),
    {
        Digest { w0: 0, w1: 0, w2: 0, w3: 0 }
    }
}

impl Header {
    pub fn from(&self) -> (r: NodeId)
        ensures
            r == self.from,
    {
        self.from
    }

    pub fn to(&self) -> (r: NodeId)
        ensures
            r == self.to,
    {
        self.to
    }

    pub fn digest(&self) -> (r: Digest)
        ensures
            r == self.digest,
    {
        self.digest
    }
}

/// A client request: its session, its place in the session, and the operation.
pub struct RequestMessage {
    pub session_id: SeqNo,
    pub operation_id: SeqNo,
    pub operation: Vec<u8>,
}

impl RequestMessage {
    pub fn new(sess: SeqNo, id: SeqNo, operation: Vec<u8>) -> (r: RequestMessage)
        ensures
            r.session_id == sess,
            r.operation_id == id,
            r.operation@ == operation@,
    {
        RequestMessage { session_id: sess, operation_id: id, operation }
    }

    pub fn operation(&self) -> (r: &Vec<u8>)
        ensures
            r@ == self.operation@,
    {
        &self.operation
    }

    pub fn session_id(&self) -> (r: SeqNo)
        ensures
            r == self.session_id,
    {
        self.session_id
    }

    pub fn sequence_number(&self) -> (r: SeqNo)
        ensures
            r == self.operation_id,
    {
        self.operation_id
    }

    pub fn into_inner_operation(self) -> (r: Vec<u8>)
        ensures
            r@ == self.operation@,
    {
        self.operation
    }
}

/// A client request together with the header it arrived under.
pub struct StoredRequestMessage {
    pub header: Header,
    pub message: RequestMessage,
}

/// What a consensus message says.
pub enum ConsensusMessageKind {
    /// The leader's proposal of a batch for a slot.
    PrePrepare(Vec<StoredRequestMessage>),
    /// A backup's vote for the batch with this digest.
    Prepare(Digest),
    /// A replica's commitment to the batch with this digest.
    Commit(Digest),
}

/// The three phases in which a slot receives messages.
#[derive(Clone, Copy, PartialEq, Eq, Structural, Debug)]
pub enum MessagePhase {
    PrePrepare,
    Prepare,
    Commit,
}

/// A message of the three-phase agreement for slot `seq` in view `view`.
pub struct ConsensusMessage {
    pub seq: SeqNo,
    pub view: SeqNo,
    pub kind: ConsensusMessageKind,
}

pub open spec fn kind_phase(k: ConsensusMessageKind) -> MessagePhase {
    match k {
        ConsensusMessageKind::PrePrepare(_) => MessagePhase::PrePrepare,
        ConsensusMessageKind::Prepare(_) => MessagePhase::Prepare,
        ConsensusMessageKind::Commit(_) => MessagePhase::Commit,
    }
}

impl ConsensusMessage {
    pub fn new(seq: SeqNo, view: SeqNo, kind: ConsensusMessageKind) -> (r: ConsensusMessage)
        ensures
            r == (ConsensusMessage { seq, view, kind }),
    {
        ConsensusMessage { seq, view, kind }
    }

    pub fn sequence_number(&self) -> (r: SeqNo)
        ensures
            r == self.seq,
    {
        self.seq
    }

    pub fn view(&self) -> (r: SeqNo)
        ensures
            r == self.view,
    {
        self.view
    }

    pub fn kind(&self) -> (r: &ConsensusMessageKind)
        ensures
            *r == self.kind,
    {
        &self.kind
    }

    /// Which of the three phases this message belongs to.
    pub fn phase(&self) -> (r: MessagePhase)
        ensures
            r == kind_phase(self.kind),
    {
        match &self.kind {
            ConsensusMessageKind::PrePrepare(_) => MessagePhase::PrePrepare,
            ConsensusMessageKind::Prepare(_) => MessagePhase::Prepare,
            ConsensusMessageKind::Commit(_) => MessagePhase::Commit,
        }
    }
}

/// A consensus message together with the header it arrived under.
pub struct StoredMessage {
    pub header: Header,
    pub message: ConsensusMessage,
}

impl StoredMessage {
    pub fn new(header: Header, message: ConsensusMessage) -> (r: StoredMessage)
        ensures
            r == (StoredMessage { header, message }),
    {
        StoredMessage { header, message }
    }

    pub fn into_inner(self) -> (r: (Header, ConsensusMessage))
        ensures
            r == (self.header, self.message),
    {
        (self.header, self.message)
    }
}

/// A snapshot of a view: its number, the fault bound `f` and the leader set.
pub struct ViewInfo {
    pub seq: SeqNo,
    pub f: u32,
    pub leaders: Vec<NodeId>,
}

impl ViewInfo {
    /// Well-formed: `n = 3f + 1` fits in 32 bits.
    pub open spec fn wf(&self) -> bool {
        3 * self.f + 1 <= u32::MAX
    }

    pub open spec fn quorum_spec(&self) -> int {
        2 * self.f + 1
    }

    pub open spec fn is_leader_spec(&self, node: NodeId) -> bool {
        self.leaders@.contains(node)
    }

    pub fn new(seq: SeqNo, f: u32, leaders: Vec<NodeId>) -> (r: ViewInfo)
        requires
            3 * f + 1 <= u32::MAX,
        ensures
            r.seq == seq,
            r.f == f,
            r.leaders@ == leaders@,
            r.wf(),
    {
        ViewInfo { seq, f, leaders }
    }

    pub fn sequence_number(&self) -> (r: SeqNo)
        ensures
            r == self.seq,
    {
        self.seq
    }

    /// Number of replicas, `3f + 1`.
    pub fn n(&self) -> (r: u32)
        requires
            self.wf(),
        ensures
            r == 3 * self.f + 1,
    {
        3 * self.f + 1
    }

    /// Size of a quorum, `2f + 1`.
    pub fn quorum(&self) -> (r: u32)
        requires
            self.wf(),
        ensures
            r == self.quorum_spec(),
    {
        2 * self.f + 1
    }

    pub fn leader_set(&self) -> (r: &Vec<NodeId>)
        ensures
            r@ == self.leaders@,
    {
        &self.leaders
    }

    /// Whether `node` may issue pre-prepares in this view.
    pub fn is_leader(&self, node: NodeId) -> (r: bool)
        ensures
            r == self.is_leader_spec(node),
    {
        let mut i: usize = 0;
        while i < self.leaders.len()
            invariant
                i <= self.leaders@.len(),
                forall|j: int| 0 <= j < i ==> self.leaders@[j] != node,
            decreases self.leaders@.len() - i,
        {
            if self.leaders[i] == node {
                return true;
            }
            i += 1;
        }
        false
    }

    /// A copy of this view.
    pub fn duplicate(&self) -> (r: ViewInfo)
        ensures
            r.seq == self.seq,
            r.f == self.f,
            r.leaders@ == self.leaders@,
    {
        let mut leaders: Vec<NodeId> = Vec::new();
        let mut i: usize = 0;
        while i < self.leaders.len()
            invariant
                i <= self.leaders@.len(),
                leaders@ == self.leaders@.subrange(0, i as int),
            decreases self.leaders@.len() - i,
        {
            leaders.push(self.leaders[i]);
            i += 1;
        }
        proof {
            assert(leaders@ =~= self.leaders@);
        }
        ViewInfo { seq: self.seq, f: self.f, leaders }
    }
}

} // verus!
