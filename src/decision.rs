//! One agreement slot: PrePrepare, then Prepare, then Commit, then Decided.

use vstd::prelude::*;
use crate::ordering::SeqNo;
use crate::message::{
    NodeId, Digest, Header, ConsensusMessage, ConsensusMessageKind, StoredMessage,
    StoredRequestMessage, MessagePhase, ViewInfo, kind_phase,
};
use crate::tbo::MessageQueue;

verus! {

/// The phase of a slot.
#[derive(Clone, Copy, PartialEq, Eq, Structural, Debug)]
pub enum DecisionPhase {
    /// Owned by a leader that has not yet offered the slot to its proposer.
    Init,
    PrePreparing,
    Preparing,
    Commiting,
    Decided,
}

pub open spec fn phase_rank(p: DecisionPhase) -> int {
    match p {
        DecisionPhase::Init => 0,
        DecisionPhase::PrePreparing => 1,
        DecisionPhase::Preparing => 2,
        DecisionPhase::Commiting => 3,
        DecisionPhase::Decided => 4,
    }
}

/// The phase whose messages a slot in phase `p` consumes next.
pub open spec fn consumed_phase(p: DecisionPhase) -> Option<MessagePhase> {
    match p {
        DecisionPhase::Init => None,
        DecisionPhase::PrePreparing => Some(MessagePhase::PrePrepare),
        DecisionPhase::Preparing => Some(MessagePhase::Prepare),
        DecisionPhase::Commiting => Some(MessagePhase::Commit),
        DecisionPhase::Decided => None,
    }
}

/// What processing one message did to a slot.
#[derive(Clone, Copy, PartialEq, Eq, Structural, Debug)]
pub enum DecisionStatus {
    /// The sender had already voted in this phase; nothing changed.
    VotedTwice(NodeId),
    /// The message was taken into account (or ignored); no phase changed.
    Deciding,
    /// The message belongs to a later phase and was put aside.
    Queued,
    /// The slot moved to a later phase, short of Decided.
    Transitioned,
    /// The slot reached Decided.
    Decided,
}

/// What polling a slot produced.
pub enum DecisionPollStatus {
    /// Nothing to do until more messages arrive.
    Recv,
    /// A queued message of the current phase, to be processed next.
    NextMessage(Header, ConsensusMessage),
    /// The slot is this leader's to propose into.
    TryPropose,
}

/// The outcome of a decided slot.
pub struct CompletedBatch {
    pub seq: SeqNo,
    pub batch_digest: Digest,
    pub requests: Vec<StoredRequestMessage>,
    /// The digests of the pre-prepares that the log must persist.
    pub pre_prepare_digests_to_persist: Vec<Digest>,
}

/// The voters of a tally, in order of arrival.
pub open spec fn voters(v: Seq<(NodeId, Digest)>) -> Seq<NodeId> {
    v.map_values(|e: (NodeId, Digest)| e.0)
}

/// Number of votes for digest `d`.
pub open spec fn tally(v: Seq<(NodeId, Digest)>, d: Digest) -> nat
    decreases v.len(),
{
    if v.len() == 0 {
        0
    } else {
        tally(v.drop_last(), d) + if v.last().1 == d { 1nat } else { 0nat }
    }
}

fn contains_node(v: &Vec<NodeId>, n: NodeId) -> (r: bool)
    ensures
        r == v@.contains(n),
{
    let mut i: usize = 0;
    while i < v.len()
        invariant
            i <= v@.len(),
            forall|j: int| 0 <= j < i ==> v@[j] != n,
        decreases v@.len() - i,
    {
        if v[i] == n {
            return true;
        }
        i += 1;
    }
    false
}

fn has_voted(v: &Vec<(NodeId, Digest)>, n: NodeId) -> (r: bool)
    ensures
        r == voters(v@).contains(n),
{
    let mut i: usize = 0;
    while i < v.len()
        invariant
            i <= v@.len(),
            forall|j: int| 0 <= j < i ==> v@[j].0 != n,
        decreases v@.len() - i,
    {
        if v[i].0 == n {
            proof {
                assert(voters(v@)[i as int] == n);
            }
            return true;
        }
        i += 1;
    }
    proof {
        if voters(v@).contains(n) {
            let k = choose|k: int| 0 <= k < voters(v@).len() && voters(v@)[k] == n;
            assert(v@[k].0 == n);
        }
    }
    false
}

fn count_votes(v: &Vec<(NodeId, Digest)>, d: Digest) -> (r: usize)
    ensures
        r == tally(v@, d),
{
    let mut i: usize = 0;
    let mut c: usize = 0;
    while i < v.len()
        invariant
            i <= v@.len(),
            c == tally(v@.subrange(0, i as int), d),
            c <= i,
        decreases v@.len() - i,
    {
        proof {
            assert(v@.subrange(0, i as int + 1).drop_last() =~= v@.subrange(0, i as int));
        }
        if v[i].1 == d {
            c += 1;
        }
        i += 1;
    }
    proof {
        assert(v@.subrange(0, v@.len() as int) =~= v@);
    }
    c
}

pub proof fn lemma_tally_push(v: Seq<(NodeId, Digest)>, e: (NodeId, Digest), d: Digest)
    ensures
        tally(v.push(e), d) == tally(v, d) + if e.1 == d { 1nat } else { 0nat },
{
    assert(v.push(e).drop_last() =~= v);
}

pub proof fn lemma_voters_push(v: Seq<(NodeId, Digest)>, e: (NodeId, Digest))
    ensures
        voters(v.push(e)) == voters(v).push(e.0),
{
    assert(voters(v.push(e)) =~= voters(v).push(e.0));
}

/// What processing `message` under `header` does to slot `old`, giving
/// slot `new` and result `r` (status and message to broadcast).
pub open spec fn processed(
    old: ConsensusDecision,
    header: Header,
    message: ConsensusMessage,
    new: ConsensusDecision,
    r: (DecisionStatus, Option<ConsensusMessage>),
) -> bool {
    &&& (new.wf())
    &&& (new.node_spec() == old.node_spec())
    &&& (new.seq_spec() == old.seq_spec())
    &&& (new.view_spec() == old.view_spec())
    &&& (new.f_spec() == old.f_spec())
    &&& (new.leaders_spec() == old.leaders_spec())
    &&& (new.strict_spec() == old.strict_spec())
    &&& (new.persisted_spec() == old.persisted_spec())
    &&& (phase_rank(new.phase_spec()) >= phase_rank(old.phase_spec()))
    &&& ((r.0 == DecisionStatus::Decided) == (old.phase_spec() != DecisionPhase::Decided
            && new.phase_spec() == DecisionPhase::Decided))
    &&& (r.0 is VotedTwice ==> r.0 == DecisionStatus::VotedTwice(header.from) && new == old)
    &&& (r.0 is Deciding ==> new.phase_spec() == old.phase_spec()
            && forall|p: MessagePhase| #[trigger] new.queued(p) == old.queued(p))
    &&& (!old.addressed_here(message) ==> r == (DecisionStatus::Deciding, None::<ConsensusMessage>)
            && new == old)
    &&& (old.addressed_here(message) ==> ({
            let from = header.from;
            let o = old.phase_spec();
            match message.kind {
                ConsensusMessageKind::PrePrepare(reqs) => {
                    if phase_rank(o) <= 1 {
                        if old.leaders_spec().contains(from) {
                            &&& new.batch_digest_spec() == Some(header.digest)
                            &&& new.batch_spec() == reqs@
                            &&& new.pre_prepare_voters() == old.pre_prepare_voters().push(from)
                            &&& phase_rank(new.phase_spec()) >= 2
                            &&& !old.leaders_spec().contains(old.node_spec()) ==>
                                    new.prepare_votes_spec() == seq![(old.node_spec(), header.digest)]
                            &&& old.leaders_spec().contains(old.node_spec()) ==>
                                    new.prepare_votes_spec().len() == 0
                            &&& new.prepare_decided(old, header.digest, r, if old.leaders_spec().contains(old.node_spec()) {
                                    None
                                } else {
                                    Some(ConsensusMessage {
                                        seq: SeqNo { value: old.seq_spec() },
                                        view: SeqNo { value: old.view_spec() },
                                        kind: ConsensusMessageKind::Prepare(header.digest),
                                    })
                                }, DecisionStatus::Transitioned)
                            &&& forall|p: MessagePhase| #[trigger] new.queued(p) == old.queued(p)
                        } else {
                            r == (DecisionStatus::Deciding, None::<ConsensusMessage>) && new == old
                        }
                    } else {
                        &&& new == old
                        &&& r.1.is_none()
                        &&& r.0 == if old.pre_prepare_voters().contains(from) {
                                DecisionStatus::VotedTwice(from)
                            } else {
                                DecisionStatus::Deciding
                            }
                    }
                },
                ConsensusMessageKind::Prepare(d) => {
                    if phase_rank(o) <= 1 {
                        &&& r == (DecisionStatus::Queued, None::<ConsensusMessage>)
                        &&& new.same_votes(&old)
                        &&& new.phase_spec() == o
                        &&& new.queued(MessagePhase::Prepare)
                                == old.queued(MessagePhase::Prepare).push(StoredMessage { header, message })
                    } else if voters(old.prepare_votes_spec()).contains(from) {
                        r.0 == DecisionStatus::VotedTwice(from)
                    } else {
                        &&& new.prepare_votes_spec() == old.prepare_votes_spec().push((from, d))
                        &&& new.batch_digest_spec() == old.batch_digest_spec()
                        &&& (o != DecisionPhase::Preparing ==> new.phase_spec() == o
                                && r == (DecisionStatus::Deciding, None::<ConsensusMessage>))
                        &&& (o == DecisionPhase::Preparing ==> new.prepare_decided(old, old.batch_digest_spec().unwrap(), r,
                                None, DecisionStatus::Deciding))
                    }
                },
                ConsensusMessageKind::Commit(d) => {
                    if phase_rank(o) <= 2 {
                        &&& r == (DecisionStatus::Queued, None::<ConsensusMessage>)
                        &&& new.same_votes(&old)
                        &&& new.phase_spec() == o
                        &&& new.queued(MessagePhase::Commit)
                                == old.queued(MessagePhase::Commit).push(StoredMessage { header, message })
                    } else if voters(old.commit_votes_spec()).contains(from) {
                        r.0 == DecisionStatus::VotedTwice(from)
                    } else {
                        &&& new.commit_votes_spec() == old.commit_votes_spec().push((from, d))
                        &&& new.same_votes_but_commits(&old)
                        &&& r.1.is_none()
                        &&& new.phase_spec() == if o == DecisionPhase::Commiting
                                && tally(old.commit_votes_spec().push((from, d)), old.batch_digest_spec().unwrap())
                                    >= old.commit_threshold() {
                                DecisionPhase::Decided
                            } else {
                                o
                            }
                        &&& r.0 == if new.phase_spec() != o { DecisionStatus::Decided } else { DecisionStatus::Deciding }
                    }
                },
            }
        }))
}

/// A single agreement slot.
pub struct ConsensusDecision {
    node_id: NodeId,
    seq: SeqNo,
    view: ViewInfo,
    phase: DecisionPhase,
    pre_prepare_from: Vec<NodeId>,
    prepare_votes: Vec<(NodeId, Digest)>,
    commit_votes: Vec<(NodeId, Digest)>,
    batch_digest: Option<Digest>,
    batch: Vec<StoredRequestMessage>,
    message_queue: MessageQueue,
    strict_persistence: bool,
    persisted: Vec<Digest>,
}

impl ConsensusDecision {
    pub closed spec fn node_spec(&self) -> NodeId {
        self.node_id
    }

    pub closed spec fn seq_spec(&self) -> u32 {
        self.seq.value
    }

    pub closed spec fn view_spec(&self) -> u32 {
        self.view.seq.value
    }

    pub closed spec fn f_spec(&self) -> u32 {
        self.view.f
    }

    pub closed spec fn leaders_spec(&self) -> Seq<NodeId> {
        self.view.leaders@
    }

    pub closed spec fn phase_spec(&self) -> DecisionPhase {
        self.phase
    }

    pub closed spec fn pre_prepare_voters(&self) -> Seq<NodeId> {
        self.pre_prepare_from@
    }

    pub closed spec fn prepare_votes_spec(&self) -> Seq<(NodeId, Digest)> {
        self.prepare_votes@
    }

    pub closed spec fn commit_votes_spec(&self) -> Seq<(NodeId, Digest)> {
        self.commit_votes@
    }

    pub closed spec fn batch_digest_spec(&self) -> Option<Digest> {
        self.batch_digest
    }

    pub closed spec fn batch_spec(&self) -> Seq<StoredRequestMessage> {
        self.batch@
    }

    /// Whether finalizing waits for the log to confirm the pre-prepare.
    pub closed spec fn strict_spec(&self) -> bool {
        self.strict_persistence
    }

    /// The digests whose writes the log confirmed for this slot.
    pub closed spec fn persisted_spec(&self) -> Seq<Digest> {
        self.persisted@
    }

    /// Decided, and under the strict discipline the log confirmed the
    /// pre-prepare of the batch.
    pub open spec fn finalizeable_spec(&self) -> bool {
        &&& self.phase_spec() == DecisionPhase::Decided
        &&& self.strict_spec() ==> self.persisted_spec().contains(self.batch_digest_spec().unwrap())
    }

    /// The messages put aside for later phases.
    pub closed spec fn queued(&self, p: MessagePhase) -> Seq<StoredMessage> {
        self.message_queue.phase_queue(p)
    }

    /// The prepares that count: votes for the adopted batch.
    pub open spec fn prepare_count(&self) -> nat {
        match self.batch_digest_spec() {
            Some(d) => tally(self.prepare_votes_spec(), d),
            None => 0,
        }
    }

    /// The commits that count: votes for the adopted batch.
    pub open spec fn commit_count(&self) -> nat {
        match self.batch_digest_spec() {
            Some(d) => tally(self.commit_votes_spec(), d),
            None => 0,
        }
    }

    /// Prepares needed to move on to Commiting (`2f`).
    pub open spec fn prepare_threshold(&self) -> int {
        2 * self.f_spec()
    }

    /// Commits needed to decide (`2f + 1`).
    pub open spec fn commit_threshold(&self) -> int {
        2 * self.f_spec() + 1
    }

    pub closed spec fn wf(&self) -> bool {
        &&& self.view.wf()
        &&& self.pre_prepare_from@.no_duplicates()
        &&& voters(self.prepare_votes@).no_duplicates()
        &&& voters(self.commit_votes@).no_duplicates()
        &&& (phase_rank(self.phase) >= 2 <==> self.batch_digest.is_some())
        &&& (self.phase == DecisionPhase::Init ==> self.view.leaders@.contains(self.node_id))
        &&& (phase_rank(self.phase) <= 1 ==> self.pre_prepare_from@.len() == 0
                && self.prepare_votes@.len() == 0 && self.commit_votes@.len() == 0)
        &&& (phase_rank(self.phase) <= 2 ==> self.commit_votes@.len() == 0)
        &&& (phase_rank(self.phase) >= 3 ==> self.prepare_count() >= self.prepare_threshold())
        &&& (self.phase == DecisionPhase::Decided ==> self.commit_count() >= self.commit_threshold())
        &&& (self.phase == DecisionPhase::Commiting ==> self.commit_count() < self.commit_threshold())
        &&& (self.phase == DecisionPhase::Preparing ==> self.prepare_count() < self.prepare_threshold())
    }

    /// A fresh slot for `seq` in `view`: a leader starts in Init, any other
    /// replica waits for the pre-prepare right away.
    pub fn init_decision(node_id: NodeId, seq: SeqNo, view: &ViewInfo, strict: bool) -> (r: ConsensusDecision)
        requires
            view.wf(),
        ensures
            r.wf(),
            r.node_spec() == node_id,
            r.seq_spec() == seq.value,
            r.view_spec() == view.seq.value,
            r.f_spec() == view.f,
            r.leaders_spec() == view.leaders@,
            r.phase_spec() == if view.leaders@.contains(node_id) { DecisionPhase::Init } else { DecisionPhase::PrePreparing },
            r.is_fresh(),
            r.strict_spec() == strict,
            forall|p: MessagePhase| r.queued(p) == Seq::<StoredMessage>::empty(),
    {
        Self::init_with_msg_log(node_id, seq, view, strict, MessageQueue::new())
    }

    /// No vote and no batch yet.
    pub open spec fn is_fresh(&self) -> bool {
        &&& self.pre_prepare_voters().len() == 0
        &&& self.prepare_votes_spec().len() == 0
        &&& self.commit_votes_spec().len() == 0
        &&& self.batch_digest_spec().is_none()
        &&& self.persisted_spec().len() == 0
    }

    /// A fresh slot that starts out with the messages in `queue`.
    pub fn init_with_msg_log(node_id: NodeId, seq: SeqNo, view: &ViewInfo, strict: bool, queue: MessageQueue) -> (r: ConsensusDecision)
        requires
            view.wf(),
        ensures
            r.wf(),
            r.node_spec() == node_id,
            r.seq_spec() == seq.value,
            r.view_spec() == view.seq.value,
            r.f_spec() == view.f,
            r.leaders_spec() == view.leaders@,
            r.phase_spec() == if view.leaders@.contains(node_id) { DecisionPhase::Init } else { DecisionPhase::PrePreparing },
            r.is_fresh(),
            r.strict_spec() == strict,
            forall|p: MessagePhase| r.queued(p) == queue.phase_queue(p),
    {
        let leader = view.is_leader(node_id);
        let phase = if leader { DecisionPhase::Init } else { DecisionPhase::PrePreparing };
        let r = ConsensusDecision {
            node_id,
            seq,
            view: view.duplicate(),
            phase,
            pre_prepare_from: Vec::new(),
            prepare_votes: Vec::new(),
            commit_votes: Vec::new(),
            batch_digest: None,
            batch: Vec::new(),
            message_queue: queue,
            strict_persistence: strict,
            persisted: Vec::new(),
        };
        proof {
            assert(r.pre_prepare_from@.no_duplicates());
            assert(voters(r.prepare_votes@) =~= Seq::<NodeId>::empty());
            assert(voters(r.commit_votes@) =~= Seq::<NodeId>::empty());
        }
        r
    }

    pub fn sequence_number(&self) -> (r: SeqNo)
        ensures
            r.value == self.seq_spec(),
    {
        self.seq
    }

    pub fn phase(&self) -> (r: DecisionPhase)
        ensures
            r == self.phase_spec(),
    {
        self.phase
    }

    /// Whether the slot may be handed to the log and executor.
    pub fn is_finalizeable(&self) -> (r: bool)
        requires
            self.wf(),
        ensures
            r == self.finalizeable_spec(),
    {
        if self.phase != DecisionPhase::Decided {
            return false;
        }
        if !self.strict_persistence {
            return true;
        }
        let d = self.batch_digest.unwrap();
        let mut i: usize = 0;
        while i < self.persisted.len()
            invariant
                i <= self.persisted@.len(),
                self.phase == DecisionPhase::Decided,
                self.strict_persistence,
                d == self.batch_digest.unwrap(),
                forall|j: int| 0 <= j < i ==> self.persisted@[j] != d,
            decreases self.persisted@.len() - i,
        {
            if self.persisted[i] == d {
                proof {
                    assert(self.persisted@[i as int] == d);
                }
                return true;
            }
            i += 1;
        }
        false
    }

    /// The log confirmed that it wrote the message with digest `digest`.
    pub fn message_persisted(&mut self, digest: Digest)
        requires
            old(self).wf(),
        ensures
            final(self).wf(),
            final(self).persisted_spec() == old(self).persisted_spec().push(digest),
            final(self).phase_spec() == old(self).phase_spec(),
            final(self).strict_spec() == old(self).strict_spec(),
            final(self).node_spec() == old(self).node_spec(),
            final(self).seq_spec() == old(self).seq_spec(),
            final(self).view_spec() == old(self).view_spec(),
            final(self).f_spec() == old(self).f_spec(),
            final(self).leaders_spec() == old(self).leaders_spec(),
            final(self).batch_digest_spec() == old(self).batch_digest_spec(),
            forall|p: MessagePhase| final(self).queued(p) == old(self).queued(p),
    {
        self.persisted.push(digest);
    }

    /// Puts a message aside in this slot's queue.
    pub fn queue(&mut self, header: Header, message: ConsensusMessage)
        requires
            old(self).wf(),
        ensures
            final(self).wf(),
            final(self).same_votes(old(self)),
            final(self).phase_spec() == old(self).phase_spec(),
            forall|p: MessagePhase| final(self).queued(p) == if p == kind_phase(message.kind) {
                old(self).queued(p).push(StoredMessage { header, message })
            } else {
                old(self).queued(p)
            },
    {
        self.message_queue.queue(header, message);
    }

    /// Everything but the queued messages and the phase is unchanged.
    pub open spec fn same_votes(&self, other: &ConsensusDecision) -> bool {
        &&& self.node_spec() == other.node_spec()
        &&& self.seq_spec() == other.seq_spec()
        &&& self.view_spec() == other.view_spec()
        &&& self.f_spec() == other.f_spec()
        &&& self.leaders_spec() == other.leaders_spec()
        &&& self.pre_prepare_voters() == other.pre_prepare_voters()
        &&& self.prepare_votes_spec() == other.prepare_votes_spec()
        &&& self.commit_votes_spec() == other.commit_votes_spec()
        &&& self.batch_digest_spec() == other.batch_digest_spec()
        &&& self.batch_spec() == other.batch_spec()
        &&& self.strict_spec() == other.strict_spec()
        &&& self.persisted_spec() == other.persisted_spec()
    }

    /// Leaves Init without offering the slot to the proposer.
    pub fn skip_init_phase(&mut self)
        requires
            old(self).wf(),
        ensures
            final(self).wf(),
            final(self).same_votes(old(self)),
            forall|p: MessagePhase| final(self).queued(p) == old(self).queued(p),
            final(self).phase_spec() == if old(self).phase_spec() == DecisionPhase::Init {
                DecisionPhase::PrePreparing
            } else {
                old(self).phase_spec()
            },
    {
        if self.phase == DecisionPhase::Init {
            self.phase = DecisionPhase::PrePreparing;
        }
    }

    /// Hands out the next queued message of the current phase; a leader's
    /// slot in Init is offered to the proposer once and moves on.
    pub fn poll(&mut self) -> (r: DecisionPollStatus)
        requires
            old(self).wf(),
        ensures
            final(self).wf(),
            final(self).same_votes(old(self)),
            old(self).phase_spec() == DecisionPhase::Init ==> r is TryPropose
                && final(self).phase_spec() == DecisionPhase::PrePreparing
                && forall|p: MessagePhase| final(self).queued(p) == old(self).queued(p),
            old(self).phase_spec() != DecisionPhase::Init ==> final(self).phase_spec() == old(self).phase_spec(),
            consumed_phase(old(self).phase_spec()) is None && old(self).phase_spec() != DecisionPhase::Init
                ==> r is Recv && forall|p: MessagePhase| final(self).queued(p) == old(self).queued(p),
            ({
                match consumed_phase(old(self).phase_spec()) {
                    Some(p) => {
                        &&& old(self).queued(p).len() == 0 ==> r is Recv
                            && forall|q: MessagePhase| final(self).queued(q) == old(self).queued(q)
                        &&& old(self).queued(p).len() > 0 ==> r == DecisionPollStatus::NextMessage(
                                old(self).queued(p)[0].header, old(self).queued(p)[0].message)
                            && final(self).queued(p) == old(self).queued(p).drop_first()
                            && forall|q: MessagePhase| q != p ==> final(self).queued(q) == old(self).queued(q)
                    },
                    None => true,
                }
            }),
    {
        let p = match self.phase {
            DecisionPhase::Init => {
                self.phase = DecisionPhase::PrePreparing;
                return DecisionPollStatus::TryPropose;
            },
            DecisionPhase::PrePreparing => MessagePhase::PrePrepare,
            DecisionPhase::Preparing => MessagePhase::Prepare,
            DecisionPhase::Commiting => MessagePhase::Commit,
            DecisionPhase::Decided => {
                return DecisionPollStatus::Recv;
            },
        };
        match self.message_queue.pop_phase(p) {
            Some(stored) => {
                let (h, m) = stored.into_inner();
                DecisionPollStatus::NextMessage(h, m)
            },
            None => DecisionPollStatus::Recv,
        }
    }

    /// Moves from Commiting to Decided once the commits reach `2f + 1`.
    fn check_decided(&mut self) -> (decided: bool)
        requires
            old(self).wf() || (old(self).wf_but_commit_bound() && old(self).phase_spec() == DecisionPhase::Commiting),
        ensures
            final(self).wf(),
            final(self).same_votes(old(self)),
            forall|p: MessagePhase| final(self).queued(p) == old(self).queued(p),
            decided == (old(self).phase_spec() == DecisionPhase::Commiting
                && old(self).commit_count() >= old(self).commit_threshold()),
            final(self).phase_spec() == if decided { DecisionPhase::Decided } else { old(self).phase_spec() },
    {
        if self.phase == DecisionPhase::Commiting {
            let d = self.batch_digest.unwrap();
            let c = count_votes(&self.commit_votes, d);
            let q = self.view.quorum();
            if c >= q as usize {
                self.phase = DecisionPhase::Decided;
                return true;
            }
        }
        false
    }

    /// All of `wf` but the bound that holds a slot in Commiting short of a quorum.
    pub closed spec fn wf_but_commit_bound(&self) -> bool {
        &&& self.view.wf()
        &&& self.pre_prepare_from@.no_duplicates()
        &&& voters(self.prepare_votes@).no_duplicates()
        &&& voters(self.commit_votes@).no_duplicates()
        &&& (phase_rank(self.phase) >= 2 <==> self.batch_digest.is_some())
        &&& (self.phase == DecisionPhase::Init ==> self.view.leaders@.contains(self.node_id))
        &&& (phase_rank(self.phase) <= 1 ==> self.pre_prepare_from@.len() == 0
                && self.prepare_votes@.len() == 0 && self.commit_votes@.len() == 0)
        &&& (phase_rank(self.phase) <= 2 ==> self.commit_votes@.len() == 0)
        &&& (phase_rank(self.phase) >= 3 ==> self.prepare_count() >= self.prepare_threshold())
        &&& (self.phase == DecisionPhase::Decided ==> self.commit_count() >= self.commit_threshold())
        &&& (self.phase == DecisionPhase::Preparing ==> self.prepare_count() < self.prepare_threshold())
    }

    /// All of `wf` but the bound that holds a slot in Preparing short of `2f` prepares.
    pub closed spec fn wf_but_prepare_bound(&self) -> bool {
        &&& self.view.wf()
        &&& self.pre_prepare_from@.no_duplicates()
        &&& voters(self.prepare_votes@).no_duplicates()
        &&& voters(self.commit_votes@).no_duplicates()
        &&& (phase_rank(self.phase) >= 2 <==> self.batch_digest.is_some())
        &&& (self.phase == DecisionPhase::Init ==> self.view.leaders@.contains(self.node_id))
        &&& (phase_rank(self.phase) <= 1 ==> self.pre_prepare_from@.len() == 0
                && self.prepare_votes@.len() == 0 && self.commit_votes@.len() == 0)
        &&& (phase_rank(self.phase) <= 2 ==> self.commit_votes@.len() == 0)
        &&& (phase_rank(self.phase) >= 3 ==> self.prepare_count() >= self.prepare_threshold())
        &&& (self.phase == DecisionPhase::Decided ==> self.commit_count() >= self.commit_threshold())
        &&& (self.phase == DecisionPhase::Commiting ==> self.commit_count() < self.commit_threshold())
    }

    /// Moves from Preparing to Commiting once the prepares reach `2f`: records
    /// this replica's commit and returns the commit to broadcast. A quorum of
    /// one decides at once.
    fn check_prepared(&mut self) -> (r: (DecisionStatus, Option<ConsensusMessage>))
        requires
            old(self).wf_but_prepare_bound(),
        ensures
            final(self).wf(),
            forall|p: MessagePhase| final(self).queued(p) == old(self).queued(p),
            final(self).node_spec() == old(self).node_spec(),
            final(self).seq_spec() == old(self).seq_spec(),
            final(self).view_spec() == old(self).view_spec(),
            final(self).f_spec() == old(self).f_spec(),
            final(self).leaders_spec() == old(self).leaders_spec(),
            final(self).pre_prepare_voters() == old(self).pre_prepare_voters(),
            final(self).prepare_votes_spec() == old(self).prepare_votes_spec(),
            final(self).batch_digest_spec() == old(self).batch_digest_spec(),
            final(self).batch_spec() == old(self).batch_spec(),
            final(self).strict_spec() == old(self).strict_spec(),
            final(self).persisted_spec() == old(self).persisted_spec(),
            ({
                let moved = old(self).phase_spec() == DecisionPhase::Preparing
                    && old(self).prepare_count() >= old(self).prepare_threshold();
                &&& !moved ==> *final(self) == *old(self) && r == (DecisionStatus::Deciding, None::<ConsensusMessage>)
                &&& moved ==> final(self).commit_votes_spec()
                        == seq![(old(self).node_spec(), old(self).batch_digest_spec().unwrap())]
                    && r.1 == Some(ConsensusMessage {
                        seq: SeqNo { value: old(self).seq_spec() },
                        view: SeqNo { value: old(self).view_spec() },
                        kind: ConsensusMessageKind::Commit(old(self).batch_digest_spec().unwrap()),
                    })
                    && (final(self).phase_spec() == DecisionPhase::Decided <==> old(self).commit_threshold() <= 1)
                    && (final(self).phase_spec() == DecisionPhase::Commiting <==> old(self).commit_threshold() > 1)
                    && r.0 == if old(self).commit_threshold() <= 1 { DecisionStatus::Decided } else { DecisionStatus::Transitioned }
            }),
    {
        if self.phase == DecisionPhase::Preparing {
            let d = self.batch_digest.unwrap();
            let c = count_votes(&self.prepare_votes, d);
            let t = 2 * self.view.f;
            if c >= t as usize {
                let ghost before = self.commit_votes@;
                self.commit_votes.push((self.node_id, d));
                proof {
                    lemma_tally_push(before, (self.node_id, d), d);
                    lemma_voters_push(before, (self.node_id, d));
                    assert(voters(self.commit_votes@) =~= seq![self.node_id]);
                    assert(self.commit_votes@ =~= seq![(self.node_id, d)]);
                }
                self.phase = DecisionPhase::Commiting;
                let decided = self.check_decided();
                let commit = ConsensusMessage::new(self.seq, self.view.seq, ConsensusMessageKind::Commit(d));
                if decided {
                    return (DecisionStatus::Decided, Some(commit));
                } else {
                    return (DecisionStatus::Transitioned, Some(commit));
                }
            }
        }
        (DecisionStatus::Deciding, None)
    }

    /// Whether `m` belongs to this slot: same sequence number and view.
    pub open spec fn addressed_here(&self, m: ConsensusMessage) -> bool {
        m.seq.value == self.seq_spec() && m.view.value == self.view_spec()
    }

    /// Processes one message of this slot.
    ///
    /// A message of another slot or view is ignored. A pre-prepare from a
    /// leader of the view is adopted while the slot awaits one: its batch and
    /// the header's digest become the slot's, a backup records its own prepare
    /// and broadcasts it. Prepares and commits that arrive before their phase
    /// are put aside. A second vote of one sender in one phase is refused as
    /// `VotedTwice` and changes nothing. `2f` prepares for the adopted digest
    /// move the slot to Commiting (with this replica's commit recorded and
    /// broadcast), `2f + 1` commits to Decided. The second component is the
    /// message to broadcast, if any.
    pub fn process_message(&mut self, header: Header, message: ConsensusMessage) -> (r: (DecisionStatus, Option<ConsensusMessage>))
        requires
            old(self).wf(),
        ensures
            final(self).wf(),
            processed(*old(self), header, message, *final(self), r),
    {
        if message.seq.value != self.seq.value || message.view.value != self.view.seq.value {
            return (DecisionStatus::Deciding, None);
        }
        let from = header.from;
        match self.phase {
            DecisionPhase::Init | DecisionPhase::PrePreparing => {
                match message.kind {
                    ConsensusMessageKind::PrePrepare(reqs) => {
                        if !self.view.is_leader(from) {
                            return (DecisionStatus::Deciding, None);
                        }
                        let d = header.digest;
                        self.pre_prepare_from.push(from);
                        proof {
                            assert(self.pre_prepare_from@ =~= seq![from]);
                        }
                        self.batch_digest = Some(d);
                        self.batch = reqs;
                        self.phase = DecisionPhase::Preparing;
                        let mut bcast: Option<ConsensusMessage> = None;
                        if !self.view.is_leader(self.node_id) {
                            let ghost before = self.prepare_votes@;
                            self.prepare_votes.push((self.node_id, d));
                            proof {
                                lemma_voters_push(before, (self.node_id, d));
                                assert(voters(self.prepare_votes@) =~= seq![self.node_id]);
                                assert(self.prepare_votes@ =~= seq![(self.node_id, d)]);
                            }
                            bcast = Some(ConsensusMessage::new(self.seq, self.view.seq, ConsensusMessageKind::Prepare(d)));
                        }
                        let (st, commit) = self.check_prepared();
                        match commit {
                            Some(c) => {
                                // the prepare and then the commit go out; the commit supersedes
                                return (st, Some(c));
                            },
                            None => {
                                return (DecisionStatus::Transitioned, bcast);
                            },
                        }
                    },
                    ConsensusMessageKind::Prepare(_) | ConsensusMessageKind::Commit(_) => {
                        self.message_queue.queue(header, message);
                        return (DecisionStatus::Queued, None);
                    },
                }
            },
            _ => {},
        }
        match message.kind {
            ConsensusMessageKind::PrePrepare(_) => {
                if contains_node(&self.pre_prepare_from, from) {
                    (DecisionStatus::VotedTwice(from), None)
                } else {
                    (DecisionStatus::Deciding, None)
                }
            },
            ConsensusMessageKind::Prepare(d) => {
                if has_voted(&self.prepare_votes, from) {
                    return (DecisionStatus::VotedTwice(from), None);
                }
                let ghost before = self.prepare_votes@;
                self.prepare_votes.push((from, d));
                proof {
                    lemma_voters_push(before, (from, d));
                    lemma_tally_push(before, (from, d), self.batch_digest.unwrap());
                }
                if self.phase == DecisionPhase::Preparing {
                    self.check_prepared()
                } else {
                    (DecisionStatus::Deciding, None)
                }
            },
            ConsensusMessageKind::Commit(d) => {
                if self.phase == DecisionPhase::Preparing {
                    self.message_queue.queue(header, message);
                    return (DecisionStatus::Queued, None);
                }
                if has_voted(&self.commit_votes, from) {
                    return (DecisionStatus::VotedTwice(from), None);
                }
                let ghost before = self.commit_votes@;
                self.commit_votes.push((from, d));
                proof {
                    lemma_voters_push(before, (from, d));
                    lemma_tally_push(before, (from, d), self.batch_digest.unwrap());
                }
                if self.check_decided() {
                    (DecisionStatus::Decided, None)
                } else {
                    (DecisionStatus::Deciding, None)
                }
            },
        }
    }

    /// After the prepares of slot `old` changed: with `2f` prepares for
    /// digest `d` the slot commits (its own commit recorded and broadcast,
    /// and decided at once when one commit is a quorum); otherwise it stays
    /// in Preparing, with no commit, reporting `status` and broadcasting
    /// `bcast`.
    pub open spec fn prepare_decided(
        &self,
        old: ConsensusDecision,
        d: Digest,
        r: (DecisionStatus, Option<ConsensusMessage>),
        bcast: Option<ConsensusMessage>,
        status: DecisionStatus,
    ) -> bool {
        if tally(self.prepare_votes_spec(), d) >= self.prepare_threshold() {
            &&& self.commit_votes_spec() == seq![(old.node_spec(), d)]
            &&& r.1 == Some(ConsensusMessage {
                    seq: SeqNo { value: old.seq_spec() },
                    view: SeqNo { value: old.view_spec() },
                    kind: ConsensusMessageKind::Commit(d),
                })
            &&& self.phase_spec() == if self.commit_threshold() <= 1 { DecisionPhase::Decided } else { DecisionPhase::Commiting }
            &&& r.0 == if self.commit_threshold() <= 1 { DecisionStatus::Decided } else { DecisionStatus::Transitioned }
        } else {
            &&& self.commit_votes_spec().len() == 0
            &&& self.phase_spec() == DecisionPhase::Preparing
            &&& r == (status, bcast)
        }
    }

    /// Everything but the commit votes and the phase is unchanged.
    pub open spec fn same_votes_but_commits(&self, other: &ConsensusDecision) -> bool {
        &&& self.node_spec() == other.node_spec()
        &&& self.pre_prepare_voters() == other.pre_prepare_voters()
        &&& self.prepare_votes_spec() == other.prepare_votes_spec()
        &&& self.batch_digest_spec() == other.batch_digest_spec()
        &&& self.batch_spec() == other.batch_spec()
        &&& forall|p: MessagePhase| self.queued(p) == other.queued(p)
    }

    /// Hands out the decided batch, consuming the slot.
    pub fn finalize(self) -> (r: CompletedBatch)
        requires
            self.wf(),
            self.phase_spec() == DecisionPhase::Decided,
        ensures
            r.seq.value == self.seq_spec(),
            Some(r.batch_digest) == self.batch_digest_spec(),
            r.requests@ == self.batch_spec(),
            r.pre_prepare_digests_to_persist@ == seq![r.batch_digest],
    {
        let d = self.batch_digest.unwrap();
        let mut to_persist: Vec<Digest> = Vec::new();
        to_persist.push(d);
        proof {
            assert(to_persist@ =~= seq![d]);
        }
        CompletedBatch { seq: self.seq, batch_digest: d, requests: self.batch, pre_prepare_digests_to_persist: to_persist }
    }
}

/// No double vote: in each phase of a slot, every sender is counted at most once.
pub proof fn lemma_no_double_vote(d: &ConsensusDecision)
    requires
        d.wf(),
    ensures
        d.pre_prepare_voters().no_duplicates(),
        voters(d.prepare_votes_spec()).no_duplicates(),
        voters(d.commit_votes_spec()).no_duplicates(),
{
}

/// Quorum: a decided slot holds at least `2f + 1` commits, from distinct
/// senders, for the digest of its batch.
pub proof fn lemma_decided_has_quorum(d: &ConsensusDecision)
    requires
        d.wf(),
        d.phase_spec() == DecisionPhase::Decided,
    ensures
        d.batch_digest_spec().is_some(),
        tally(d.commit_votes_spec(), d.batch_digest_spec().unwrap()) >= 2 * d.f_spec() + 1,
        voters(d.commit_votes_spec()).no_duplicates(),
{
}

/// Whether the sender of `header` already has a vote of `m`'s phase in `d`.
pub open spec fn already_counted(d: ConsensusDecision, header: Header, m: ConsensusMessage) -> bool {
    match m.kind {
        ConsensusMessageKind::PrePrepare(_) => phase_rank(d.phase_spec()) >= 2
            && d.pre_prepare_voters().contains(header.from),
        ConsensusMessageKind::Prepare(_) => phase_rank(d.phase_spec()) >= 2
            && voters(d.prepare_votes_spec()).contains(header.from),
        ConsensusMessageKind::Commit(_) => phase_rank(d.phase_spec()) >= 3
            && voters(d.commit_votes_spec()).contains(header.from),
    }
}

/// A message delivered again to the slot where its sender's vote is
/// already counted is refused as a double vote and counts nothing.
pub proof fn lemma_redelivery_counted_once(
    d0: ConsensusDecision,
    header: Header,
    m: ConsensusMessage,
    d1: ConsensusDecision,
    r: (DecisionStatus, Option<ConsensusMessage>),
)
    requires
        processed(d0, header, m, d1, r),
        d0.addressed_here(m),
        already_counted(d0, header, m),
    ensures
        d1 == d0,
        r.0 == DecisionStatus::VotedTwice(header.from),
{
}

/// Only a leader of the view holds a slot in Init.
pub proof fn lemma_init_is_leader(d: &ConsensusDecision)
    requires
        d.wf(),
        d.phase_spec() == DecisionPhase::Init,
    ensures
        d.leaders_spec().contains(d.node_spec()),
{
}

} // verus!
