//! The agreement engine: a window of `watermark` slots starting at the
//! current sequence number, finalized strictly in order.

use vstd::prelude::*;
use crate::ordering::{
    SeqNo, SeqIndex, SEQ_HALF, seq_add, index_spec, lemma_add_succ, lemma_add_add, lemma_add_zero,
    lemma_offset_of_add,
};
use crate::message::{
    NodeId, Digest, Header, ConsensusMessage, ConsensusMessageKind, StoredMessage, StoredRequestMessage, ViewInfo, MessagePhase,
    kind_phase,
};
use crate::tbo::{TboQueue, push_into_slot, slot_of};
use crate::signals::Signals;
use crate::decision::{
    ConsensusDecision, DecisionPhase, DecisionStatus, DecisionPollStatus, CompletedBatch, phase_rank, processed,
    consumed_phase,
};
use crate::guard::{ProposerConsensusGuard, ClientRqInfo, lookup_last, latest_seq};

verus! {

/// Status returned from processing a consensus message.
#[derive(Clone, Copy, PartialEq, Eq, Structural, Debug)]
pub enum ConsensusStatus {
    /// A node tried voting twice.
    VotedTwice(NodeId),
    /// No decision was reached by this message.
    Deciding,
    /// The slot of this message reached Decided.
    Decided,
}

/// What polling the engine produced.
pub enum ConsensusPollStatus {
    /// Nothing to do until more messages arrive.
    Recv,
    /// A queued message, to be processed next.
    NextMessage(Header, ConsensusMessage),
    /// The first slot is decided and must be finalized.
    Decided,
}

/// The engine.
pub struct Consensus {
    node_id: NodeId,
    watermark: u32,
    seq_no: SeqNo,
    signalled: Signals,
    curr_view: ViewInfo,
    decisions: Vec<ConsensusDecision>,
    tbo_queue: TboQueue,
    view_queue: Vec<Vec<StoredMessage>>,
    is_recovering: bool,
    cancel_client_timeouts: bool,
    strict_persistence: bool,
}

impl Consensus {
    pub closed spec fn node_spec(&self) -> NodeId {
        self.node_id
    }

    pub closed spec fn watermark_spec(&self) -> u32 {
        self.watermark
    }

    pub closed spec fn seq_no_spec(&self) -> u32 {
        self.seq_no.value
    }

    pub closed spec fn view_seq_spec(&self) -> u32 {
        self.curr_view.seq.value
    }

    pub closed spec fn view_f_spec(&self) -> u32 {
        self.curr_view.f
    }

    pub closed spec fn view_leaders_spec(&self) -> Seq<NodeId> {
        self.curr_view.leaders@
    }

    pub closed spec fn decisions_spec(&self) -> Seq<ConsensusDecision> {
        self.decisions@
    }

    pub closed spec fn tbo_spec(&self) -> TboQueue {
        self.tbo_queue
    }

    pub closed spec fn signalled_spec(&self) -> Signals {
        self.signalled
    }

    /// Messages of later views: entry `k` holds those of view `curr + k + 1`.
    pub closed spec fn view_queue_spec(&self) -> Seq<Seq<StoredMessage>> {
        self.view_queue@.map_values(|v: Vec<StoredMessage>| v@)
    }

    /// The messages held for view `curr + k + 1`.
    pub closed spec fn view_slot(&self, k: int) -> Seq<StoredMessage> {
        slot_of(self.view_queue@, k)
    }

    pub closed spec fn is_recovering_spec(&self) -> bool {
        self.is_recovering
    }

    pub closed spec fn cancel_timeouts_spec(&self) -> bool {
        self.cancel_client_timeouts
    }

    /// Whether a decided slot also waits for the log to confirm its pre-prepare.
    pub closed spec fn strict_spec(&self) -> bool {
        self.strict_persistence
    }

    /// Slot `d` fits position `i` of the window.
    pub open spec fn slot_fits(&self, d: ConsensusDecision, i: int) -> bool {
        &&& d.wf()
        &&& d.seq_spec() == seq_add(self.seq_no_spec(), i)
        &&& d.view_spec() == self.view_seq_spec()
        &&& d.node_spec() == self.node_spec()
        &&& d.f_spec() == self.view_f_spec()
        &&& d.leaders_spec() == self.view_leaders_spec()
        &&& d.strict_spec() == self.strict_spec()
    }

    /// The slots held so far fit their positions.
    pub open spec fn window_prefix_ok(&self) -> bool {
        &&& self.decisions_spec().len() <= self.watermark_spec()
        &&& forall|i: int| 0 <= i < self.decisions_spec().len() ==> #[trigger] self.slot_fits(self.decisions_spec()[i], i)
    }

    /// Everything the engine keeps besides the window of slots.
    pub open spec fn parts_ok(&self) -> bool {
        &&& self.view_wf()
        &&& 1 <= self.watermark_spec() <= SEQ_HALF
        &&& self.tbo_spec().wf()
        &&& self.tbo_spec().curr_seq_spec() == self.seq_no_spec()
        &&& self.tbo_spec().watermark_spec() == self.watermark_spec()
        &&& self.tbo_spec().is_empty_spec()
        &&& self.tbo_spec().held_slots() == 0
        &&& self.signalled_spec().wf()
    }

    pub closed spec fn view_wf(&self) -> bool {
        self.curr_view.wf()
    }

    /// The engine's invariant: the window holds exactly `watermark` slots, for
    /// `seq_no, seq_no + 1, ...`, all of the current view, and the reorder
    /// buffer is aligned with `seq_no`.
    pub open spec fn wf(&self) -> bool {
        &&& self.parts_ok()
        &&& self.window_prefix_ok()
        &&& self.decisions_spec().len() == self.watermark_spec()
        &&& self.signals_cover()
    }

    /// Every slot with work waiting is signalled: one in Init, or one that
    /// holds queued messages of the phase it is in.
    pub open spec fn signals_cover(&self) -> bool {
        forall|j: int| 0 <= j < self.decisions_spec().len() && #[trigger] needs_poll(self.decisions_spec()[j])
            ==> self.signalled_spec().pending_set().contains(self.decisions_spec()[j].seq_spec())
    }

    /// A fresh slot of the current view for position `i`.
    pub open spec fn fresh_at(&self, d: ConsensusDecision, i: int) -> bool {
        &&& self.slot_fits(d, i)
        &&& d.is_fresh()
        &&& d.phase_spec() == if self.view_leaders_spec().contains(self.node_spec()) {
                DecisionPhase::Init
            } else {
                DecisionPhase::PrePreparing
            }
    }

    /// Appends fresh slots until the window is full.
    fn fill_window(&mut self)
        requires
            old(self).parts_ok(),
            old(self).window_prefix_ok(),
            old(self).signals_cover(),
        ensures
            final(self).wf(),
            final(self).node_spec() == old(self).node_spec(),
            final(self).seq_no_spec() == old(self).seq_no_spec(),
            final(self).view_seq_spec() == old(self).view_seq_spec(),
            final(self).view_f_spec() == old(self).view_f_spec(),
            final(self).view_leaders_spec() == old(self).view_leaders_spec(),
            final(self).tbo_spec() == old(self).tbo_spec(),
            final(self).view_queue_spec() == old(self).view_queue_spec(),
            final(self).is_recovering_spec() == old(self).is_recovering_spec(),
            final(self).cancel_timeouts_spec() == old(self).cancel_timeouts_spec(),
            final(self).strict_spec() == old(self).strict_spec(),
            final(self).decisions_spec().subrange(0, old(self).decisions_spec().len() as int) == old(self).decisions_spec(),
            forall|i: int| old(self).decisions_spec().len() <= i < final(self).decisions_spec().len()
                ==> #[trigger] final(self).fresh_at(final(self).decisions_spec()[i], i),
            forall|i: int, p: MessagePhase| old(self).decisions_spec().len() <= i < final(self).decisions_spec().len()
                ==> #[trigger] final(self).decisions_spec()[i].queued(p) == Seq::<StoredMessage>::empty(),
            final(self).signalled_spec().pending_set() == old(self).signalled_spec().pending_set().union(
                Set::new(|s: u32| exists|i: int| old(self).decisions_spec().len() <= i < final(self).decisions_spec().len()
                    && s == seq_add(old(self).seq_no_spec(), i))),
    {
        let ghost start = self.decisions@.len();
        while self.decisions.len() < self.watermark as usize
            invariant
                self.parts_ok(),
                self.window_prefix_ok(),
                start <= self.decisions@.len(),
                self.node_id == old(self).node_id,
                self.seq_no == old(self).seq_no,
                self.curr_view == old(self).curr_view,
                self.watermark == old(self).watermark,
                self.tbo_queue == old(self).tbo_queue,
                self.view_queue == old(self).view_queue,
                self.is_recovering == old(self).is_recovering,
                self.cancel_client_timeouts == old(self).cancel_client_timeouts,
                self.strict_persistence == old(self).strict_persistence,
                start == old(self).decisions@.len(),
                self.decisions@.subrange(0, start as int) == old(self).decisions@,
                forall|i: int| start <= i < self.decisions@.len() ==> #[trigger] self.fresh_at(self.decisions@[i], i),
                forall|i: int, p: MessagePhase| start <= i < self.decisions@.len()
                    ==> #[trigger] self.decisions@[i].queued(p) == Seq::<StoredMessage>::empty(),
                self.signalled.pending_set() == old(self).signalled.pending_set().union(
                    Set::new(|s: u32| exists|i: int| start <= i < self.decisions@.len() && s == seq_add(self.seq_no.value, i))),
                self.signals_cover(),
            decreases self.watermark - self.decisions@.len(),
        {
            let k = self.decisions.len();
            let seq = self.seq_no.advance(k as u32);
            let d = ConsensusDecision::init_decision(self.node_id, seq, &self.curr_view, self.strict_persistence);
            let ghost before = self.decisions@;
            let ghost s0 = *self;
            self.signalled.push_signalled(seq);
            self.decisions.push(d);
            proof {
                assert(self.decisions@ == before.push(d));
                assert(self.decisions@.subrange(0, start as int) =~= before.subrange(0, start as int));
                assert forall|i: int| 0 <= i < self.decisions@.len() implies #[trigger] self.slot_fits(self.decisions@[i], i) by {
                    if i < k {
                        assert(self.decisions@[i] == before[i]);
                        assert(s0.slot_fits(before[i], i));
                    }
                }
                assert forall|i: int| start <= i < self.decisions@.len() implies #[trigger] self.fresh_at(self.decisions@[i], i) by {
                    if i < k {
                        assert(self.decisions@[i] == before[i]);
                        assert(s0.fresh_at(before[i], i));
                    }
                }
                assert forall|i: int, p: MessagePhase| start <= i < self.decisions@.len()
                    implies #[trigger] self.decisions@[i].queued(p) == Seq::<StoredMessage>::empty() by {
                    if i < k {
                        assert(self.decisions@[i] == before[i]);
                    }
                }
                let na = Set::new(|s: u32| exists|i: int| start <= i < self.decisions@.len() && s == seq_add(self.seq_no.value, i));
                let nb = Set::new(|s: u32| exists|i: int| start <= i < before.len() && s == seq_add(self.seq_no.value, i));
                assert(na =~= nb.insert(seq.value));
                assert(self.signalled.pending_set() =~= old(self).signalled.pending_set().union(na));
                assert forall|j: int| 0 <= j < self.decisions_spec().len() && #[trigger] needs_poll(self.decisions_spec()[j])
                    implies self.signalled_spec().pending_set().contains(self.decisions_spec()[j].seq_spec()) by {
                    if j < k {
                        assert(self.decisions@[j] == before[j]);
                        assert(needs_poll(s0.decisions_spec()[j]));
                    }
                }
            }
        }
    }

    /// An engine for `node_id` at `seq_no` in `view`, with `watermark` fresh
    /// slots.
    pub fn new_replica(node_id: NodeId, view: &ViewInfo, seq_no: SeqNo, watermark: u32, strict_persistence: bool) -> (r: Consensus)
        requires
            view.wf(),
            1 <= watermark <= SEQ_HALF,
        ensures
            r.wf(),
            r.node_spec() == node_id,
            r.seq_no_spec() == seq_no.value,
            r.watermark_spec() == watermark,
            r.view_seq_spec() == view.seq.value,
            r.view_f_spec() == view.f,
            r.view_leaders_spec() == view.leaders@,
            r.strict_spec() == strict_persistence,
            !r.is_recovering_spec(),
            !r.cancel_timeouts_spec(),
            r.view_queue_spec().len() == 0,
            forall|i: int| 0 <= i < watermark ==> #[trigger] r.fresh_at(r.decisions_spec()[i], i),
    {
        let mut c = Consensus {
            node_id,
            watermark,
            seq_no,
            signalled: Signals::new(),
            curr_view: view.duplicate(),
            decisions: Vec::new(),
            tbo_queue: TboQueue::new(seq_no, watermark),
            view_queue: Vec::new(),
            is_recovering: false,
            cancel_client_timeouts: false,
            strict_persistence,
        };
        proof {
            assert(c.view_queue_spec() =~= Seq::<Seq<StoredMessage>>::empty());
        }
        c.fill_window();
        c
    }

    /// The sequence number of the first slot of the window.
    pub fn sequence_number(&self) -> (r: SeqNo)
        ensures
            r.value == self.seq_no_spec(),
    {
        self.seq_no
    }

    pub fn watermark(&self) -> (r: u32)
        ensures
            r == self.watermark_spec(),
    {
        self.watermark
    }

    /// The number of the current view.
    pub fn view_sequence_number(&self) -> (r: SeqNo)
        ensures
            r.value == self.view_seq_spec(),
    {
        self.curr_view.seq
    }

    /// The phase of the slot at position `i` of the window.
    pub fn decision_phase(&self, i: usize) -> (r: DecisionPhase)
        requires
            self.wf(),
            i < self.watermark_spec(),
        ensures
            r == self.decisions_spec()[i as int].phase_spec(),
    {
        self.decisions[i].phase()
    }

    /// The sequence number of the slot at position `i` of the window.
    pub fn decision_sequence_number(&self, i: usize) -> (r: SeqNo)
        requires
            self.wf(),
            i < self.watermark_spec(),
        ensures
            r.value == self.decisions_spec()[i as int].seq_spec(),
    {
        self.decisions[i].sequence_number()
    }

    /// The sequence number at which the reorder buffer stands.
    pub fn tbo_sequence_number(&self) -> (r: SeqNo)
        ensures
            r.value == self.tbo_spec().curr_seq_spec(),
    {
        self.tbo_queue.sequence_number()
    }

    /// The number of sequence numbers waiting to be polled.
    pub fn signalled_count(&self) -> (r: usize)
        ensures
            r == self.signalled_spec().pending().len(),
    {
        self.signalled.len()
    }

    /// Whether the engine is catching up after a state transfer.
    pub fn is_catching_up(&self) -> (r: bool)
        ensures
            r == self.is_recovering_spec(),
    {
        self.is_recovering
    }

    /// Whether catching up ended, so that pending client request timeouts
    /// are to be cancelled; reading it resets it.
    pub fn take_timeout_cancellation(&mut self) -> (r: bool)
        ensures
            r == old(self).cancel_timeouts_spec(),
            !final(self).cancel_timeouts_spec(),
            old(self).wf() ==> final(self).wf(),
            final(self).same_config(old(self)),
            final(self).seq_no_spec() == old(self).seq_no_spec(),
            final(self).decisions_spec() == old(self).decisions_spec(),
            final(self).is_recovering_spec() == old(self).is_recovering_spec(),
    {
        let ghost s0 = *self;
        let r = self.cancel_client_timeouts;
        self.cancel_client_timeouts = false;
        proof {
            if s0.wf() {
                lemma_slots_still_fit(&s0, self);
            }
        }
        r
    }

    /// Whether the first slot of the window is decided.
    pub fn can_finalize(&self) -> (r: bool)
        requires
            self.wf(),
        ensures
            r == self.decisions_spec()[0].finalizeable_spec(),
    {
        proof {
            assert(self.slot_fits(self.decisions_spec()[0], 0));
        }
        self.decisions[0].is_finalizeable()
    }

    /// How many slots, from the first on, are decided in a row.
    pub fn finalizeable_count(&self) -> (r: usize)
        requires
            self.wf(),
        ensures
            r <= self.watermark_spec(),
            forall|i: int| 0 <= i < r ==> #[trigger] self.decisions_spec()[i].finalizeable_spec(),
            r < self.watermark_spec() ==> !self.decisions_spec()[r as int].finalizeable_spec(),
    {
        let mut count: usize = 0;
        while count < self.decisions.len()
            invariant
                self.wf(),
                count <= self.decisions@.len(),
                forall|i: int| 0 <= i < count ==> #[trigger] self.decisions@[i].finalizeable_spec(),
            ensures
                count <= self.decisions@.len(),
                forall|i: int| 0 <= i < count ==> #[trigger] self.decisions@[i].finalizeable_spec(),
                count < self.decisions@.len() ==> !self.decisions@[count as int].finalizeable_spec(),
            decreases self.decisions@.len() - count,
        {
            proof {
                assert(self.slot_fits(self.decisions_spec()[count as int], count as int));
            }
            if !self.decisions[count].is_finalizeable() {
                break;
            }
            count += 1;
        }
        count
    }

    /// The log confirmed the write of the message with digest `digest` of
    /// slot `seq`; a slot outside the window ignores it.
    pub fn message_persisted(&mut self, seq: SeqNo, digest: Digest)
        requires
            old(self).wf(),
        ensures
            final(self).wf(),
            final(self).same_config(old(self)),
            final(self).seq_no_spec() == old(self).seq_no_spec(),
            final(self).signalled_spec() == old(self).signalled_spec(),
            final(self).view_queue_spec() == old(self).view_queue_spec(),
            final(self).is_recovering_spec() == old(self).is_recovering_spec(),
            match index_spec(seq.value, old(self).seq_no_spec()) {
                SeqIndex::Right(i) => if i < old(self).watermark_spec() {
                    &&& final(self).decisions_spec().len() == old(self).decisions_spec().len()
                    &&& forall|j: int| 0 <= j < old(self).decisions_spec().len() && j != i
                            ==> #[trigger] final(self).decisions_spec()[j] == old(self).decisions_spec()[j]
                    &&& final(self).decisions_spec()[i as int].persisted_spec()
                            == old(self).decisions_spec()[i as int].persisted_spec().push(digest)
                    &&& final(self).decisions_spec()[i as int].phase_spec() == old(self).decisions_spec()[i as int].phase_spec()
                    &&& final(self).decisions_spec()[i as int].batch_digest_spec()
                            == old(self).decisions_spec()[i as int].batch_digest_spec()
                } else {
                    *final(self) == *old(self)
                },
                SeqIndex::Left(_) => *final(self) == *old(self),
            },
    {
        let i = match seq.index(self.seq_no) {
            SeqIndex::Right(i) => i,
            SeqIndex::Left(_) => {
                return;
            },
        };
        if i >= self.watermark {
            return;
        }
        let ghost s0 = *self;
        let iu = i as usize;
        proof {
            assert(s0.slot_fits(s0.decisions@[iu as int], iu as int));
        }
        self.decisions[iu].message_persisted(digest);
        proof {
            lemma_slots_still_fit(&s0, self);
            lemma_window_distinct(&s0);
            crate::ordering::lemma_add_offset(seq.value, s0.seq_no.value);
            let d0 = s0.decisions_spec()[iu as int];
            let d1 = self.decisions_spec()[iu as int];
            if needs_poll(d1) {
                assert(d1.queued(MessagePhase::PrePrepare) == d0.queued(MessagePhase::PrePrepare));
                assert(d1.queued(MessagePhase::Prepare) == d0.queued(MessagePhase::Prepare));
                assert(d1.queued(MessagePhase::Commit) == d0.queued(MessagePhase::Commit));
                assert(needs_poll(d0));
            }
            lemma_cover_after(&s0, self, d0.seq_spec());
        }
    }

    /// Slides the window by one: the first slot leaves, a fresh one joins at
    /// the end, with whatever the reorder buffer held for it.
    pub fn next_instance(&mut self) -> (r: ConsensusDecision)
        requires
            old(self).wf(),
        ensures
            final(self).wf(),
            r == old(self).decisions_spec()[0],
            final(self).seq_no_spec() == seq_add(old(self).seq_no_spec(), 1),
            final(self).same_config(old(self)),
            final(self).view_queue_spec() == old(self).view_queue_spec(),
            forall|i: int| 0 <= i < old(self).watermark_spec() - 1
                ==> #[trigger] final(self).decisions_spec()[i] == old(self).decisions_spec()[i + 1],
            final(self).fresh_at(final(self).decisions_spec()[old(self).watermark_spec() - 1], old(self).watermark_spec() - 1),
            old(self).is_recovering_spec() ==> !final(self).is_recovering_spec() && final(self).cancel_timeouts_spec(),
            !old(self).is_recovering_spec() ==> !final(self).is_recovering_spec()
                && final(self).cancel_timeouts_spec() == old(self).cancel_timeouts_spec(),
    {
        let ghost s0 = *self;
        let decision = self.decisions.remove(0);
        self.seq_no = self.seq_no.next();
        let queue = self.tbo_queue.advance_queue();
        proof {
            assert(queue.is_empty_spec());
        }
        if !queue.is_signalled() && self.is_recovering {
            // the buffer ran dry: catching up is over
            self.is_recovering = false;
            self.cancel_client_timeouts = true;
        }
        let len = self.decisions.len();
        let new_seq = if len > 0 {
            self.decisions[len - 1].sequence_number().next()
        } else {
            self.seq_no
        };
        proof {
            let w = s0.watermark as int;
            lemma_add_add(s0.seq_no.value, 1, w - 1);
            if len > 0 {
                assert(s0.slot_fits(s0.decisions@[w - 1], w - 1));
                lemma_add_add(s0.seq_no.value, w - 1, 1);
            } else {
                lemma_add_zero(self.seq_no.value);
            }
            assert(new_seq.value == seq_add(self.seq_no.value, w - 1));
            assert forall|i: int| 0 <= i < len implies #[trigger] self.slot_fits(self.decisions@[i], i) by {
                assert(self.decisions@[i] == s0.decisions@[i + 1]);
                assert(s0.slot_fits(s0.decisions@[i + 1], i + 1));
                lemma_add_add(s0.seq_no.value, 1, i);
            }
        }
        let ghost s1 = *self;
        let novel = ConsensusDecision::init_with_msg_log(self.node_id, new_seq, &self.curr_view, self.strict_persistence, queue);
        self.signalled.push_signalled(new_seq);
        let ghost mid = self.decisions@;
        self.decisions.push(novel);
        proof {
            assert forall|i: int| 0 <= i < self.decisions@.len() implies #[trigger] self.slot_fits(self.decisions@[i], i) by {
                if i < len {
                    assert(self.decisions@[i] == mid[i]);
                    assert(s1.slot_fits(mid[i], i));
                }
            }
            assert forall|i: int| 0 <= i < s0.watermark - 1
                implies #[trigger] self.decisions@[i] == s0.decisions@[i + 1] by {
                assert(self.decisions@[i] == mid[i]);
            }
        }
        decision
    }

    /// Catches up with the decision of a quorum on the first slot, once the
    /// log has installed its proof: the window slides by one, and the slot
    /// that was first is returned.
    pub fn catch_up_to_quorum(&mut self) -> (r: ConsensusDecision)
        requires
            old(self).wf(),
        ensures
            final(self).wf(),
            r == old(self).decisions_spec()[0],
            final(self).seq_no_spec() == seq_add(old(self).seq_no_spec(), 1),
            final(self).same_config(old(self)),
            forall|i: int| 0 <= i < old(self).watermark_spec() - 1
                ==> #[trigger] final(self).decisions_spec()[i] == old(self).decisions_spec()[i + 1],
            final(self).fresh_at(final(self).decisions_spec()[old(self).watermark_spec() - 1], old(self).watermark_spec() - 1),
    {
        self.next_instance()
    }

    /// Configuration that no slot operation changes.
    pub open spec fn same_config(&self, other: &Consensus) -> bool {
        &&& self.node_spec() == other.node_spec()
        &&& self.watermark_spec() == other.watermark_spec()
        &&& self.view_seq_spec() == other.view_seq_spec()
        &&& self.view_f_spec() == other.view_f_spec()
        &&& self.view_leaders_spec() == other.view_leaders_spec()
        &&& self.strict_spec() == other.strict_spec()
    }

    /// Finalizes the first slot if it is decided: the window slides by one
    /// and the decided batch is returned. Otherwise nothing changes.
    pub fn finalize(&mut self) -> (r: Option<CompletedBatch>)
        requires
            old(self).wf(),
        ensures
            final(self).wf(),
            final(self).same_config(old(self)),
            old(self).finalized(final(self), r),
    {
        proof {
            assert(self.slot_fits(self.decisions_spec()[0], 0));
        }
        if !self.decisions[0].is_finalizeable() {
            return None;
        }
        proof {
            assert(self.slot_fits(self.decisions@[0], 0));
        }
        let decision = self.next_instance();
        let batch = decision.finalize();
        Some(batch)
    }

    /// Everything but the view queue is unchanged.
    pub open spec fn same_but_view_queue(&self, other: &Consensus) -> bool {
        &&& self.same_config(other)
        &&& self.seq_no_spec() == other.seq_no_spec()
        &&& self.decisions_spec() == other.decisions_spec()
        &&& self.tbo_spec() == other.tbo_spec()
        &&& self.signalled_spec() == other.signalled_spec()
        &&& self.is_recovering_spec() == other.is_recovering_spec()
        &&& self.cancel_timeouts_spec() == other.cancel_timeouts_spec()
    }

    /// The view queue after `m` was held for view `curr + k` (`k >= 1`).
    pub open spec fn view_queued(&self, other: &Consensus, k: int, m: StoredMessage) -> bool {
        &&& forall|j: int| j != k - 1 ==> #[trigger] self.view_slot(j) == other.view_slot(j)
        &&& self.view_slot(k - 1) == other.view_slot(k - 1).push(m)
    }

    /// Holds a message of view `curr + index` until that view is installed.
    fn enqueue_other_view_message(&mut self, index: u32, header: Header, message: ConsensusMessage)
        requires
            old(self).wf(),
            index >= 1,
        ensures
            final(self).wf(),
            final(self).same_but_view_queue(old(self)),
            final(self).view_queued(old(self), index as int, StoredMessage { header, message }),
    {
        let ghost s0 = *self;
        let stored = StoredMessage::new(header, message);
        push_into_slot(&mut self.view_queue, (index - 1) as usize, stored);
        proof {
            lemma_slots_still_fit(&s0, self);
        }
    }

    /// Where a message of the current view belongs: its offset in the window.
    pub open spec fn window_offset(&self, m: ConsensusMessage) -> Option<int> {
        match index_spec(m.seq.value, self.seq_no_spec()) {
            SeqIndex::Right(i) => if i < self.watermark_spec() { Some(i as int) } else { None },
            SeqIndex::Left(_) => None,
        }
    }

    /// What queueing `message` under `header` does: `self` becomes `c1`.
    pub open spec fn queued_by(&self, header: Header, message: ConsensusMessage, c1: &Consensus) -> bool {
        &&& c1.wf()
        &&& ({
            let vi = index_spec(message.view.value, self.view_seq_spec());
            let m = StoredMessage { header, message };
            &&& vi is Left ==> *c1 == *self
            &&& (vi is Right && vi->Right_0 > 0) ==> c1.same_but_view_queue(self)
                    && c1.view_queued(self, vi->Right_0 as int, m)
            &&& vi == SeqIndex::Right(0) ==> match self.window_offset(message) {
                    None => *c1 == *self,
                    Some(i) => {
                        &&& c1.same_config(self)
                        &&& c1.seq_no_spec() == self.seq_no_spec()
                        &&& c1.view_queue_spec() == self.view_queue_spec()
                        &&& c1.tbo_spec() == self.tbo_spec()
                        &&& c1.is_recovering_spec() == self.is_recovering_spec()
                        &&& c1.cancel_timeouts_spec() == self.cancel_timeouts_spec()
                        &&& c1.decisions_spec().len() == self.decisions_spec().len()
                        &&& forall|j: int| 0 <= j < self.decisions_spec().len() && j != i ==> #[trigger] c1.decisions_spec()[j] == self.decisions_spec()[j]
                        &&& c1.decisions_spec()[i].same_votes(&self.decisions_spec()[i])
                        &&& c1.decisions_spec()[i].phase_spec() == self.decisions_spec()[i].phase_spec()
                        &&& forall|p: MessagePhase| #[trigger] c1.decisions_spec()[i].queued(p) == if p == kind_phase(message.kind) {
                                self.decisions_spec()[i].queued(p).push(m)
                            } else {
                                self.decisions_spec()[i].queued(p)
                            }
                        &&& c1.signalled_spec().pending_set() == self.signalled_spec().pending_set().insert(message.seq.value)
                    },
                }
        })
    }

    /// What processing `message` under `header` does: `self` becomes `c1`,
    /// with result `r`.
    pub open spec fn processed_by(&self, header: Header, message: ConsensusMessage, c1: &Consensus, r: (ConsensusStatus, Option<ConsensusMessage>)) -> bool {
        &&& c1.wf()
        &&& ({
            let vi = index_spec(message.view.value, self.view_seq_spec());
            let m = StoredMessage { header, message };
            &&& vi is Left ==> *c1 == *self && r == (ConsensusStatus::Deciding, None::<ConsensusMessage>)
            &&& (vi is Right && vi->Right_0 > 0) ==> c1.same_but_view_queue(self)
                    && c1.view_queued(self, vi->Right_0 as int, m)
                    && r == (ConsensusStatus::Deciding, None::<ConsensusMessage>)
            &&& vi == SeqIndex::Right(0) ==> match self.window_offset(message) {
                    None => *c1 == *self && r == (ConsensusStatus::Deciding, None::<ConsensusMessage>),
                    Some(i) => c1.processed_in_window(self, i, header, message, r),
                }
        })
    }

    /// Queues a message for later processing: one of a later view is held
    /// until that view is installed; one of an earlier view, of an earlier
    /// slot, or past the window is dropped; any other goes to the queue of
    /// its slot, which is signalled.
    pub fn queue(&mut self, header: Header, message: ConsensusMessage)
        requires
            old(self).wf(),
        ensures
            old(self).queued_by(header, message, final(self)),
    {
        let vi = message.view.index(self.curr_view.seq);
        match vi {
            SeqIndex::Left(_) => {
                return;
            },
            SeqIndex::Right(k) => {
                if k > 0 {
                    self.enqueue_other_view_message(k, header, message);
                    return;
                }
            },
        }
        let si = message.seq.index(self.seq_no);
        let i = match si {
            SeqIndex::Left(_) => {
                return;
            },
            SeqIndex::Right(i) => i,
        };
        if i >= self.watermark {
            // past the window: the reorder buffer drops it
            let ghost t0 = self.tbo_queue;
            self.tbo_queue.queue(header, message);
            proof {
                assert(self.tbo_queue == t0);
            }
            return;
        }
        let ghost s0 = *self;
        let seq = message.seq;
        let iu = i as usize;
        proof {
            assert(s0.slot_fits(s0.decisions@[iu as int], iu as int));
        }
        self.decisions[iu].queue(header, message);
        self.signalled.push_signalled(seq);
        proof {
            lemma_slots_still_fit(&s0, self);
        }
    }

    /// Processing `message` in the slot at offset `i` turned `old` into `self`.
    pub open spec fn processed_in_window(
        &self,
        old: &Consensus,
        i: int,
        header: Header,
        message: ConsensusMessage,
        r: (ConsensusStatus, Option<ConsensusMessage>),
    ) -> bool {
            &&& self.same_config(old)
            &&& self.seq_no_spec() == old.seq_no_spec()
            &&& self.view_queue_spec() == old.view_queue_spec()
            &&& self.tbo_spec() == old.tbo_spec()
            &&& self.is_recovering_spec() == old.is_recovering_spec()
            &&& self.cancel_timeouts_spec() == old.cancel_timeouts_spec()
            &&& self.decisions_spec().len() == old.decisions_spec().len()
            &&& forall|j: int| 0 <= j < old.decisions_spec().len() && j != i
                    ==> #[trigger] self.decisions_spec()[j] == old.decisions_spec()[j]
            &&& exists|ds: DecisionStatus| {
                &&& #[trigger] processed(old.decisions_spec()[i], header, message, self.decisions_spec()[i], (ds, r.1))
                &&& r.0 == status_of(ds)
                &&& self.signalled_spec().pending_set() == if ds is Queued || ds is Transitioned {
                        old.signalled_spec().pending_set().insert(message.seq.value)
                    } else {
                        old.signalled_spec().pending_set()
                    }
            }

    }

    /// Processes a message: one of a later view is held until that view is
    /// installed; one of an earlier view, of an earlier slot, or past the
    /// window is dropped; any other is processed by its slot. When the slot
    /// put it aside or changed phase, the slot is signalled again. The second
    /// component is the message to broadcast, if any.
    pub fn process_message(&mut self, header: Header, message: ConsensusMessage) -> (r: (ConsensusStatus, Option<ConsensusMessage>))
        requires
            old(self).wf(),
        ensures
            old(self).processed_by(header, message, final(self), r),
    {
        let vi = message.view.index(self.curr_view.seq);
        match vi {
            SeqIndex::Left(_) => {
                return (ConsensusStatus::Deciding, None);
            },
            SeqIndex::Right(k) => {
                if k > 0 {
                    self.enqueue_other_view_message(k, header, message);
                    return (ConsensusStatus::Deciding, None);
                }
            },
        }
        let si = message.seq.index(self.seq_no);
        let i = match si {
            SeqIndex::Left(_) => {
                return (ConsensusStatus::Deciding, None);
            },
            SeqIndex::Right(i) => i,
        };
        if i >= self.watermark {
            let ghost t0 = self.tbo_queue;
            self.tbo_queue.queue(header, message);
            proof {
                assert(self.tbo_queue == t0);
            }
            return (ConsensusStatus::Deciding, None);
        }
        let ghost s0 = *self;
        let seq = message.seq;
        let iu = i as usize;
        proof {
            assert(s0.slot_fits(s0.decisions@[iu as int], iu as int));
        }
        let (ds, bcast) = self.decisions[iu].process_message(header, message);
        let ghost s1 = *self;
        match ds {
            DecisionStatus::Queued | DecisionStatus::Transitioned => {
                self.signalled.push_signalled(seq);
            },
            _ => {},
        }
        proof {
            lemma_slots_still_fit(&s0, self);
            assert(processed(s0.decisions@[iu as int], header, message, self.decisions@[iu as int], (ds, bcast)));
        }
        let res = (status_of_exec(ds), bcast);
        proof {
            assert(processed(s0.decisions_spec()[iu as int], header, message, self.decisions_spec()[iu as int], (ds, res.1)));
            assert(self.processed_in_window(&s0, iu as int, header, message, res));
            lemma_window_distinct(&s0);
            crate::ordering::lemma_add_offset(seq.value, s0.seq_no.value);
            assert(s0.decisions_spec()[iu as int].seq_spec() == seq.value);
            let d0 = s0.decisions_spec()[iu as int];
            let d1 = self.decisions_spec()[iu as int];
            if ds is Deciding {
                assert(d1.queued(MessagePhase::PrePrepare) == d0.queued(MessagePhase::PrePrepare));
                assert(d1.queued(MessagePhase::Prepare) == d0.queued(MessagePhase::Prepare));
                assert(d1.queued(MessagePhase::Commit) == d0.queued(MessagePhase::Commit));
                if needs_poll(d1) {
                    assert(needs_poll(d0));
                }
            }
            lemma_cover_after(&s0, self, seq.value);
        }
        res
    }

    /// The guard after polling: the sequence number of every slot that left
    /// Init was made available, and nothing else was added.
    pub open spec fn offered(&self, g0: &ProposerConsensusGuard, c1: &Consensus, g1: &ProposerConsensusGuard) -> bool {
        &&& forall|j: int| 0 <= j < self.watermark_spec() && #[trigger] self.decisions_spec()[j].phase_spec() == DecisionPhase::Init
                && c1.decisions_spec()[j].phase_spec() == DecisionPhase::PrePreparing
                ==> g1.available().contains(c1.decisions_spec()[j].seq_spec())
        &&& forall|x: u32| #[trigger] g0.available().contains(x) ==> g1.available().contains(x)
        &&& forall|x: u32| #[trigger] g1.available().contains(x) ==> g0.available().contains(x)
                || exists|j: int| 0 <= j < self.watermark_spec()
                    && self.decisions_spec()[j].phase_spec() == DecisionPhase::Init
                    && c1.decisions_spec()[j].phase_spec() == DecisionPhase::PrePreparing
                    && #[trigger] c1.decisions_spec()[j].seq_spec() == x
    }

    /// What polling does: engine `self` and guard `g0` become `c1` and `g1`,
    /// with result `r`.
    pub open spec fn polled(&self, g0: &ProposerConsensusGuard, c1: &Consensus, g1: &ProposerConsensusGuard, r: ConsensusPollStatus) -> bool {
        &&& (c1.wf())
        &&& (g1.wf())
        &&& (c1.same_config(self))
        &&& (c1.seq_no_spec() == self.seq_no_spec())
        &&& (c1.view_queue_spec() == self.view_queue_spec())
        &&& (c1.tbo_spec() == self.tbo_spec())
        &&& (c1.is_recovering_spec() == self.is_recovering_spec())
        &&& (c1.cancel_timeouts_spec() == self.cancel_timeouts_spec())
        &&& (forall|j: int| 0 <= j < self.watermark_spec() ==> {
            let d0 = #[trigger] self.decisions_spec()[j];
            let d1 = c1.decisions_spec()[j];
            &&& d1.same_votes(&d0)
            &&& (d1.phase_spec() == d0.phase_spec()
                || (d0.phase_spec() == DecisionPhase::Init && d1.phase_spec() == DecisionPhase::PrePreparing))
        })
        &&& (g1.can_propose_spec() == g0.can_propose_spec())
        &&& (g1.view_seq_spec() == g0.view_seq_spec())
        &&& (g1.sync_entries() == g0.sync_entries())
        &&& (self.offered(g0, c1, g1))
        &&& (r is Recv ==> c1.signalled_spec().pending().len() == 0
            && !c1.decisions_spec()[0].finalizeable_spec()
            && forall|j: int| 0 <= j < c1.watermark_spec() ==> !#[trigger] needs_poll(c1.decisions_spec()[j]))
        &&& (r is Decided ==> c1.signalled_spec().pending().len() == 0
            && c1.decisions_spec()[0].finalizeable_spec())
        &&& (!(r is NextMessage) ==> forall|j: int, p: MessagePhase| 0 <= j < self.watermark_spec()
            ==> #[trigger] c1.decisions_spec()[j].queued(p) == self.decisions_spec()[j].queued(p))
        &&& (r is NextMessage ==> exists|i: int, p: MessagePhase| {
            &&& 0 <= i < self.watermark_spec()
            &&& consumed_phase(c1.decisions_spec()[i].phase_spec()) == Some(p)
            &&& #[trigger] self.decisions_spec()[i].queued(p).len() > 0
            &&& r == ConsensusPollStatus::NextMessage(
                    self.decisions_spec()[i].queued(p)[0].header, self.decisions_spec()[i].queued(p)[0].message)
            &&& c1.decisions_spec()[i].queued(p) == self.decisions_spec()[i].queued(p).drop_first()
            &&& forall|j: int, q: MessagePhase| 0 <= j < self.watermark_spec() && (j != i || q != p)
                    ==> #[trigger] c1.decisions_spec()[j].queued(q) == self.decisions_spec()[j].queued(q)
        })
    }

    /// Polls the signalled slots, smallest sequence number first: hands out
    /// the next queued message of a slot (the slot stays signalled), offers a
    /// leader's fresh slot to the proposer guard, and reports `Decided` when
    /// the first slot awaits finalization, `Recv` when nothing is left.
    pub fn poll(&mut self, guard: &mut ProposerConsensusGuard) -> (r: ConsensusPollStatus)
        requires
            old(self).wf(),
            old(guard).wf(),
        ensures
            old(self).polled(old(guard), final(self), final(guard), r),
    {
        loop
            invariant
                self.wf(),
                guard.wf(),
                self.same_config(old(self)),
                self.seq_no_spec() == old(self).seq_no_spec(),
                self.view_queue_spec() == old(self).view_queue_spec(),
                self.tbo_spec() == old(self).tbo_spec(),
                self.is_recovering_spec() == old(self).is_recovering_spec(),
                self.cancel_timeouts_spec() == old(self).cancel_timeouts_spec(),
                forall|j: int| 0 <= j < old(self).watermark_spec() ==> {
                    let d0 = #[trigger] old(self).decisions_spec()[j];
                    let d1 = self.decisions_spec()[j];
                    &&& d1.same_votes(&d0)
                    &&& (d1.phase_spec() == d0.phase_spec()
                        || (d0.phase_spec() == DecisionPhase::Init && d1.phase_spec() == DecisionPhase::PrePreparing))
                },
                guard.can_propose_spec() == old(guard).can_propose_spec(),
                guard.view_seq_spec() == old(guard).view_seq_spec(),
                guard.sync_entries() == old(guard).sync_entries(),
                forall|j: int, p: MessagePhase| 0 <= j < old(self).watermark_spec()
                    ==> #[trigger] self.decisions_spec()[j].queued(p) == old(self).decisions_spec()[j].queued(p),
                old(self).offered(old(guard), self, guard),
                old(self).decisions_spec().len() == old(self).watermark_spec(),
            ensures
                self.wf(),
                self.signalled_spec().pending().len() == 0,
            decreases self.signalled_spec().pending().len() + 2 * init_count(self.decisions_spec()),
        {
            let ghost s0 = *self;
            let ghost h0 = *guard;
            let ghost mut moved: bool = false;
            let ghost mut mi: int = 0;
            let popped = self.signalled.pop_signalled();
            proof {
                lemma_slots_still_fit(&s0, self);
            }
            let seq = match popped {
                None => {
                    break;
                },
                Some(seq) => seq,
            };
            let ghost s1 = *self;
            let idx = seq.index(self.seq_no);
            if let SeqIndex::Right(i) = idx {
                if i < self.watermark {
                    let iu = i as usize;
                    proof {
                        assert(self.slot_fits(self.decisions@[iu as int], iu as int));
                    }
                    let st = self.decisions[iu].poll();
                    proof {
                        lemma_init_count_update(s1.decisions@, iu as int, self.decisions@[iu as int]);
                        assert(self.decisions@ == s1.decisions@.update(iu as int, self.decisions@[iu as int]));
                        lemma_slots_still_fit(&s1, self);
                    }
                    match st {
                        DecisionPollStatus::NextMessage(h, m) => {
                            self.signalled.push_signalled(seq);
                            proof {
                                let d1 = s1.decisions_spec()[iu as int];
                                let p = consumed_phase(d1.phase_spec()).unwrap();
                                assert(d1.queued(p) == old(self).decisions_spec()[iu as int].queued(p));
                                assert(consumed_phase(self.decisions_spec()[iu as int].phase_spec()) == Some(p));
                                lemma_slots_still_fit(&s1, self);
                                lemma_window_distinct(&s0);
                                lemma_cover_after(&s0, self, seq.value);
                                lemma_offered_step(old(self), old(guard), &s0, &h0, self, guard, mi, moved);
                            }
                            return ConsensusPollStatus::NextMessage(h, m);
                        },
                        DecisionPollStatus::TryPropose => {
                            self.signalled.push_signalled(seq);
                            proof {
                                assert(s1.slot_fits(s1.decisions@[iu as int], iu as int));
                                assert(s1.decisions_spec()[iu as int].phase_spec() == DecisionPhase::Init);
                                crate::decision::lemma_init_is_leader(&s1.decisions_spec()[iu as int]);
                                assert(self.curr_view.leaders@.contains(self.node_id));
                            }
                            if self.curr_view.is_leader(self.node_id) {
                                guard.make_seq_available(seq);
                                proof {
                                    moved = true;
                                    mi = iu as int;
                                }
                            }
                        },
                        DecisionPollStatus::Recv => {},
                    }
                    proof {
                        lemma_slots_still_fit(&s1, self);
                    }
                }
            }
            proof {
                lemma_window_distinct(&s0);
                assert forall|j: int| 0 <= j < s0.decisions_spec().len() && s0.decisions_spec()[j].seq_spec() == seq.value
                    implies idx == SeqIndex::Right(j as u32) && j < s0.watermark by {
                    assert(s0.slot_fits(s0.decisions_spec()[j], j));
                    lemma_offset_of_add(s0.seq_no.value, j);
                }
                lemma_cover_after(&s0, self, seq.value);
                lemma_offered_step(old(self), old(guard), &s0, &h0, self, guard, mi, moved);
            }
        }
        proof {
            assert(self.signalled_spec().pending_set() =~= Set::<u32>::empty());
            assert forall|j: int| 0 <= j < self.watermark_spec() implies !#[trigger] needs_poll(self.decisions_spec()[j]) by {
                if needs_poll(self.decisions_spec()[j]) {
                    assert(self.signalled_spec().pending_set().contains(self.decisions_spec()[j].seq_spec()));
                }
            }
        }
        if self.can_finalize() {
            ConsensusPollStatus::Decided
        } else {
            ConsensusPollStatus::Recv
        }
    }

    /// Drops every slot and every queued message; the guard withdraws its
    /// sequence numbers.
    fn clear_all_queues(&mut self, guard: &mut ProposerConsensusGuard)
        requires
            old(self).wf(),
            old(guard).wf(),
        ensures
            final(self).parts_ok(),
            final(self).window_prefix_ok(),
            final(self).decisions_spec().len() == 0,
            final(self).same_config(old(self)),
            final(self).seq_no_spec() == old(self).seq_no_spec(),
            final(self).view_queue_spec() == old(self).view_queue_spec(),
            final(self).is_recovering_spec() == old(self).is_recovering_spec(),
            final(self).cancel_timeouts_spec() == old(self).cancel_timeouts_spec(),
            final(self).signalled_spec().pending().len() == 0,
            !final(self).tbo_spec().get_queue_spec(),
            final(guard).wf(),
            final(guard).available().len() == 0,
            final(guard).can_propose_spec() == old(guard).can_propose_spec(),
            final(guard).view_seq_spec() == old(guard).view_seq_spec(),
            final(guard).view_f_spec() == old(guard).view_f_spec(),
            final(guard).view_leaders_spec() == old(guard).view_leaders_spec(),
            final(guard).pending_sync_spec() == old(guard).pending_sync_spec(),
            final(guard).sync_entries() == old(guard).sync_entries(),
    {
        self.decisions.clear();
        self.tbo_queue.clear();
        self.signalled.clear();
        guard.clear();
    }

    /// What installing `view` does, as a relation between the engine and
    /// guard before (`self`, `g0`) and after (`c1`, `g1`).
    pub open spec fn view_installed(
        &self,
        g0: &ProposerConsensusGuard,
        view: &ViewInfo,
        c1: &Consensus,
        g1: &ProposerConsensusGuard,
    ) -> bool {
        let vi = index_spec(view.seq.value, self.view_seq_spec());
        &&& c1.wf()
        &&& g1.wf()
        &&& !(vi is Right && vi->Right_0 > 0) ==> *c1 == *self && *g1 == *g0
        &&& (vi is Right && vi->Right_0 > 0) ==> {
            &&& c1.view_seq_spec() == view.seq.value
            &&& c1.view_f_spec() == view.f
            &&& c1.view_leaders_spec() == view.leaders@
            &&& c1.node_spec() == self.node_spec()
            &&& c1.watermark_spec() == self.watermark_spec()
            &&& c1.strict_spec() == self.strict_spec()
            &&& c1.seq_no_spec() == self.seq_no_spec()
            &&& c1.is_recovering_spec() == self.is_recovering_spec()
            &&& forall|i: int| 0 <= i < c1.watermark_spec() ==> {
                let d = #[trigger] c1.decisions_spec()[i];
                &&& d.is_fresh()
                &&& d.phase_spec() == if view.leaders@.contains(self.node_spec()) {
                        DecisionPhase::Init
                    } else {
                        DecisionPhase::PrePreparing
                    }
            }
            &&& g1.view_seq_spec() == view.seq.value
            &&& g1.view_f_spec() == view.f
            &&& g1.view_leaders_spec() == view.leaders@
            &&& g1.available().len() == 0
            &&& g1.can_propose_spec() == g0.can_propose_spec()
            &&& g1.sync_entries() == g0.sync_entries()
            &&& exists|mid: Consensus| {
                &&& mid.wf()
                &&& mid.all_fresh()
                &&& mid.view_seq_spec() == view.seq.value
                &&& mid.seq_no_spec() == self.seq_no_spec()
                &&& forall|i: int, p: MessagePhase| 0 <= i < mid.watermark_spec()
                        ==> #[trigger] mid.decisions_spec()[i].queued(p) == Seq::<StoredMessage>::empty()
                &&& mid.view_queue_spec() == dropped_views(self.view_queue_spec(), vi->Right_0 as int)
                &&& #[trigger] requeued(mid, self.view_slot(vi->Right_0 - 1), *c1)
            }
        }
    }

    /// Installs a later view: every slot restarts fresh in it at the current
    /// sequence number, the reorder buffers and the guard are cleared, held
    /// messages of views in between are dropped and those of `view` itself
    /// are queued again. A view that is not later changes nothing.
    pub fn install_view(&mut self, view: &ViewInfo, guard: &mut ProposerConsensusGuard)
        requires
            old(self).wf(),
            old(guard).wf(),
            view.wf(),
        ensures
            old(self).view_installed(old(guard), view, final(self), final(guard)),
    {
        let k = match view.seq.index(self.curr_view.seq) {
            SeqIndex::Right(k) => k,
            SeqIndex::Left(_) => {
                return;
            },
        };
        if k == 0 {
            return;
        }
        self.clear_all_queues(guard);
        self.curr_view = view.duplicate();
        guard.install_view(view.duplicate());
        self.fill_window();
        let ghost filled = *self;
        let ghost vq0 = old(self).view_queue_spec();
        proof {
            assert(self.all_fresh()) by {
                assert forall|i: int| 0 <= i < self.watermark_spec() implies #[trigger] self.fresh_at(self.decisions_spec()[i], i) by {}
            }
        }
        // the views in between are over: their messages are of no use
        let mut dropped: u32 = 1;
        while dropped < k && self.view_queue.len() > 0
            invariant
                self.wf(),
                self.same_but_view_queue(&filled),
                filled.all_fresh(),
                1 <= dropped <= k,
                dropped - 1 <= vq0.len(),
                vq0 == old(self).view_queue_spec(),
                self.view_queue_spec() == vq0.subrange(dropped - 1, vq0.len() as int),
            decreases k - dropped,
        {
            let ghost s0 = *self;
            proof {
                assert(s0.view_queue_spec().len() == s0.view_queue@.len());
            }
            self.view_queue.remove(0);
            proof {
                lemma_wf_same_but_view_queue(&s0, self);
                assert forall|j: int| 0 <= j < self.view_queue@.len() implies #[trigger] self.view_queue_spec()[j] == s0.view_queue_spec()[j + 1] by {
                    assert(self.view_queue@[j] == s0.view_queue@[j + 1]);
                }
                assert(self.view_queue_spec() =~= vq0.subrange(dropped as int, vq0.len() as int));
            }
            dropped += 1;
        }
        proof {
            lemma_all_fresh_same(&filled, self);
        }
        let ghost mut mid = *self;
        proof {
            assert(self.view_queue@.len() == self.view_queue_spec().len());
        }
        if self.view_queue.len() > 0 {
            let ghost s0 = *self;
            proof {
                assert(s0.view_queue_spec().len() == s0.view_queue@.len());
                assert(s0.view_queue_spec()[0] == s0.view_queue@[0]@);
            }
            let mut messages = self.view_queue.remove(0);
            proof {
                lemma_wf_same_but_view_queue(&s0, self);
                lemma_all_fresh_same(&s0, self);
                assert forall|j: int| 0 <= j < self.view_queue@.len() implies #[trigger] self.view_queue_spec()[j] == s0.view_queue_spec()[j + 1] by {
                    assert(self.view_queue@[j] == s0.view_queue@[j + 1]);
                }
                assert(dropped == k);
                assert(messages@ == vq0[k - 1]);
                assert(self.view_queue_spec() =~= vq0.subrange(k as int, vq0.len() as int));
                mid = *self;
                assert(mid.view_queue_spec() == dropped_views(vq0, k as int));
                assert(mid.same_but_view_queue(&filled));
            }
            let ghost msgs0 = messages@;
            let ghost mut done: int = 0;
            let ghost mut states: Seq<Consensus> = seq![*self];
            let ghost before = *self;
            proof {
                assert(msgs0.subrange(0, 0) =~= Seq::<StoredMessage>::empty());
            }
            while messages.len() > 0
                invariant
                    self.wf(),
                    self.same_config(&before),
                    self.seq_no_spec() == before.seq_no_spec(),
                    self.is_recovering_spec() == before.is_recovering_spec(),
                    self.all_fresh(),
                    0 <= done <= msgs0.len(),
                    messages@ == msgs0.subrange(done, msgs0.len() as int),
                    queue_chain(mid, msgs0.subrange(0, done), states, *self),
                decreases messages@.len(),
            {
                let stored = messages.remove(0);
                let (h, m) = stored.into_inner();
                let ghost s0 = *self;
                self.queue(h, m);
                proof {
                    assert(stored == msgs0[done]);
                    assert(msgs0.subrange(0, done + 1).drop_last() =~= msgs0.subrange(0, done));
                    assert(msgs0.subrange(0, done + 1).last() == msgs0[done]);
                    assert(s0.queued_by(h, m, self));
                    let msgs = msgs0.subrange(0, done + 1);
                    let old_states = states;
                    states = states.push(*self);
                    assert(msgs.last().header == h && msgs.last().message == m);
                    assert forall|i: int| 0 <= i < msgs.len()
                        implies #[trigger] states[i].queued_by(msgs[i].header, msgs[i].message, &states[i + 1]) by {
                        if i < done {
                            assert(msgs[i] == msgs0.subrange(0, done)[i]);
                            assert(states[i] == old_states[i] && states[i + 1] == old_states[i + 1]);
                        } else {
                            assert(states[i] == s0);
                        }
                    }
                    assert(queue_chain(mid, msgs, states, *self));
                    done = done + 1;
                    assert(messages@ =~= msgs0.subrange(done, msgs0.len() as int));
                }
                proof {
                    assert forall|i: int| 0 <= i < self.watermark_spec() implies #[trigger] self.fresh_at(self.decisions_spec()[i], i) by {
                        assert(s0.fresh_at(s0.decisions_spec()[i], i));
                        assert(self.slot_fits(self.decisions_spec()[i], i));
                    }
                }
            }
            proof {
                assert(msgs0.subrange(0, msgs0.len() as int) =~= msgs0);
                assert(old(self).view_slot(k - 1) == msgs0);
                assert(queue_chain(mid, msgs0, states, *self));
            }
        } else {
            proof {
                assert(self.view_queue_spec().len() == 0);
                assert(old(self).view_slot(k - 1) =~= Seq::<StoredMessage>::empty());
                assert(mid.view_queue_spec() =~= dropped_views(vq0, k as int));
                assert(mid.same_but_view_queue(&filled));
                assert(queue_chain(mid, Seq::<StoredMessage>::empty(), seq![mid], *self));
            }
        }
        proof {
            assert(mid.wf());
            lemma_all_fresh_same(&filled, &mid);
            assert forall|i: int, p: MessagePhase| 0 <= i < mid.watermark_spec()
                implies #[trigger] mid.decisions_spec()[i].queued(p) == Seq::<StoredMessage>::empty() by {
                assert(mid.decisions_spec()[i] == filled.decisions_spec()[i]);
            }
        }
        proof {
            assert(self.view_seq_spec() == view.seq.value);
            assert(self.view_leaders_spec() == view.leaders@);
            assert(old(self).view_slot(k - 1) == if k - 1 < vq0.len() { vq0[k - 1] } else { Seq::<StoredMessage>::empty() });
            assert(requeued(mid, old(self).view_slot(k - 1), *self));
            assert forall|i: int| 0 <= i < self.watermark_spec() implies {
                let d = #[trigger] self.decisions_spec()[i];
                &&& d.is_fresh()
                &&& d.phase_spec() == if view.leaders@.contains(old(self).node_spec()) {
                        DecisionPhase::Init
                    } else {
                        DecisionPhase::PrePreparing
                    }
            } by {
                assert(self.fresh_at(self.decisions_spec()[i], i));
            }
        }
    }

    /// Every slot of the window is fresh.
    pub open spec fn all_fresh(&self) -> bool {
        forall|i: int| 0 <= i < self.watermark_spec() ==> #[trigger] self.fresh_at(self.decisions_spec()[i], i)
    }

    /// What installing sequence number `s` does, as a relation between the
    /// engine and guard before (`self`, `g0`) and after (`c1`, `g1`).
    pub open spec fn seq_installed(
        &self,
        g0: &ProposerConsensusGuard,
        s: SeqNo,
        c1: &Consensus,
        g1: &ProposerConsensusGuard,
    ) -> bool {
        let si = index_spec(s.value, self.seq_no_spec());
        let w = self.watermark_spec() as int;
        &&& c1.wf()
        &&& g1.wf()
        &&& c1.seq_no_spec() == s.value
        &&& c1.same_config(self)
        &&& c1.view_queue_spec() == self.view_queue_spec()
        &&& c1.is_recovering_spec() == self.is_recovering_spec()
        &&& c1.tbo_spec().get_queue_spec()
        &&& forall|j: int| 0 <= j < g1.available().len() ==> #[trigger] g1.available()[j] >= s.value
        &&& g1.can_propose_spec() == g0.can_propose_spec()
        &&& g1.view_seq_spec() == g0.view_seq_spec()
        &&& g1.sync_entries() == g0.sync_entries()
        &&& si == SeqIndex::Right(0) ==> {
            &&& self.tbo_spec().get_queue_spec() ==> *c1 == *self
            &&& c1.decisions_spec() == self.decisions_spec()
            &&& (forall|j: int| 0 <= j < g0.available().len() ==> #[trigger] g0.available()[j] >= s.value) ==> *g1 == *g0
        }
        &&& (si is Right && 0 < si->Right_0 < w) ==> {
            &&& forall|i: int| 0 <= i < w - si->Right_0 ==> #[trigger] c1.decisions_spec()[i] == self.decisions_spec()[i + si->Right_0]
            &&& forall|i: int| w - si->Right_0 <= i < w ==> #[trigger] c1.fresh_at(c1.decisions_spec()[i], i)
            &&& forall|i: int, p: MessagePhase| w - si->Right_0 <= i < w
                    ==> #[trigger] c1.decisions_spec()[i].queued(p) == Seq::<StoredMessage>::empty()
        }
        &&& (si is Left || (si is Right && si->Right_0 >= w)) ==> {
            &&& c1.all_fresh()
            &&& g1.available().len() == 0
            &&& forall|i: int, p: MessagePhase| 0 <= i < w
                    ==> #[trigger] c1.decisions_spec()[i].queued(p) == Seq::<StoredMessage>::empty()
            &&& c1.signalled_spec().pending_set() == Set::new(|x: u32| exists|i: int| 0 <= i < w && x == seq_add(s.value, i))
        }
    }

    /// Moves the window to start at `novel_seq_no`. Going back restarts every
    /// slot there; going forward by less than the window keeps the slots
    /// that remain in it and appends fresh ones; going further restarts every
    /// slot, after skipping what the reorder buffer held for the slots passed
    /// over. The guard withdraws the sequence numbers below `novel_seq_no`.
    pub fn install_sequence_number(&mut self, novel_seq_no: SeqNo, guard: &mut ProposerConsensusGuard)
        requires
            old(self).wf(),
            old(guard).wf(),
        ensures
            old(self).seq_installed(old(guard), novel_seq_no, final(self), final(guard)),
    {
        let ghost c0 = *self;
        let ghost g0 = *guard;
        match novel_seq_no.index(self.seq_no) {
            SeqIndex::Left(_) => {
                self.clear_all_queues(guard);
                self.tbo_queue.set_sequence_number(novel_seq_no);
                self.seq_no = novel_seq_no;
                proof {
                    assert(self.signalled_spec().pending() =~= Seq::<u32>::empty());
                    assert(self.signalled_spec().pending_set() =~= Set::<u32>::empty());
                }
                self.fill_window();
                proof {
                    assert(self.signalled_spec().pending_set() =~= Set::new(|x: u32| exists|i: int| 0 <= i < self.watermark && x == seq_add(novel_seq_no.value, i)));
                }
                proof {
                    assert forall|i: int| 0 <= i < self.watermark_spec() implies #[trigger] self.fresh_at(self.decisions_spec()[i], i) by {}
                }
            },
            SeqIndex::Right(limit) => {
                if limit == 0 {
                } else if limit >= self.watermark {
                    self.decisions.clear();
                    self.signalled.clear();
                    proof {
                        assert(self.signalled_spec().pending() =~= Seq::<u32>::empty());
                        assert(self.signalled_spec().pending_set() =~= Set::<u32>::empty());
                    }
                    guard.clear();
                    let overflow = limit - self.watermark;
                    if overflow as usize >= self.tbo_queue.len() {
                        // everything buffered belongs to slots that are passed over
                        self.tbo_queue.clear();
                    } else {
                        let mut skipped: u32 = 0;
                        while skipped < overflow
                            invariant
                                self.tbo_queue.wf(),
                                self.tbo_queue.is_empty_spec(),
                                self.tbo_queue.held_slots() == 0,
                                self.tbo_queue.watermark_spec() == self.watermark,
                            decreases overflow - skipped,
                        {
                            self.tbo_queue.next_instance_queue();
                            skipped += 1;
                        }
                    }
                    self.tbo_queue.set_sequence_number(novel_seq_no);
                    self.seq_no = novel_seq_no;
                    proof {
                        assert(self.window_prefix_ok());
                    }
                    self.fill_window();
                    proof {
                        assert(self.signalled_spec().pending_set() =~= Set::new(|x: u32| exists|i: int| 0 <= i < self.watermark && x == seq_add(novel_seq_no.value, i)));
                    }
                    proof {
                        assert forall|i: int| 0 <= i < self.watermark_spec() implies #[trigger] self.fresh_at(self.decisions_spec()[i], i) by {}
                    }
                } else {
                    let mut popped: u32 = 0;
                    while popped < limit
                        invariant
                            self.parts_ok(),
                            self.same_config(&c0),
                            self.seq_no == c0.seq_no,
                            self.view_queue == c0.view_queue,
                            self.tbo_queue == c0.tbo_queue,
                            self.is_recovering == c0.is_recovering,
                            self.cancel_client_timeouts == c0.cancel_client_timeouts,
                            popped <= limit,
                            limit < self.watermark,
                            c0.decisions@.len() == self.watermark,
                            self.decisions@ == c0.decisions@.subrange(popped as int, c0.decisions@.len() as int),
                            self.signals_cover(),
                        decreases limit - popped,
                    {
                        let ghost before = *self;
                        self.decisions.remove(0);
                        proof {
                            assert(self.decisions@ =~= c0.decisions@.subrange(popped as int + 1, c0.decisions@.len() as int));
                            assert forall|j: int| 0 <= j < self.decisions_spec().len() && #[trigger] needs_poll(self.decisions_spec()[j])
                                implies self.signalled_spec().pending_set().contains(self.decisions_spec()[j].seq_spec()) by {
                                assert(self.decisions@[j] == before.decisions@[j + 1]);
                                assert(needs_poll(before.decisions_spec()[j + 1]));
                            }
                        }
                        popped += 1;
                    }
                    let ghost popped_state = *self;
                    self.seq_no = novel_seq_no;
                    proof {
                        assert forall|j: int| 0 <= j < self.decisions_spec().len() && #[trigger] needs_poll(self.decisions_spec()[j])
                            implies self.signalled_spec().pending_set().contains(self.decisions_spec()[j].seq_spec()) by {
                            assert(needs_poll(popped_state.decisions_spec()[j]));
                        }
                        crate::ordering::lemma_add_offset(novel_seq_no.value, c0.seq_no.value);
                        assert forall|i: int| 0 <= i < self.decisions@.len() implies #[trigger] self.slot_fits(self.decisions@[i], i) by {
                            assert(self.decisions@[i] == c0.decisions@[i + limit]);
                            assert(c0.slot_fits(c0.decisions@[i + limit], i + limit));
                            lemma_add_add(c0.seq_no.value, limit as int, i);
                        }
                    }
                    let ghost kept = self.decisions@;
                    while self.decisions.len() < self.watermark as usize
                        invariant
                            self.view_wf(),
                            1 <= self.watermark_spec() <= SEQ_HALF,
                            self.tbo_spec().wf(),
                            self.tbo_spec().watermark_spec() == self.watermark_spec(),
                            self.tbo_spec().is_empty_spec(),
                            self.tbo_spec().held_slots() == 0,
                            self.tbo_spec().curr_seq_spec() == seq_add(c0.seq_no.value, self.decisions@.len() + limit - self.watermark),
                            self.signalled_spec().wf(),
                            self.window_prefix_ok(),
                            self.same_config(&c0),
                            self.seq_no == novel_seq_no,
                            self.view_queue == c0.view_queue,
                            self.is_recovering == c0.is_recovering,
                            self.cancel_client_timeouts == c0.cancel_client_timeouts,
                            self.watermark - limit <= self.decisions@.len(),
                            self.decisions@.subrange(0, self.watermark - limit) == kept,
                            kept.len() == self.watermark - limit,
                            forall|i: int| self.watermark - limit <= i < self.decisions@.len() ==> #[trigger] self.fresh_at(self.decisions@[i], i),
                            forall|i: int, p: MessagePhase| self.watermark - limit <= i < self.decisions@.len()
                                ==> #[trigger] self.decisions@[i].queued(p) == Seq::<StoredMessage>::empty(),
                            novel_seq_no.value == seq_add(c0.seq_no.value, limit as int),
                            self.signals_cover(),
                        decreases self.watermark - self.decisions@.len(),
                    {
                        let ghost s0 = *self;
                        let k = self.decisions.len();
                        let queue = self.tbo_queue.advance_queue();
                        proof {
                            lemma_add_succ(c0.seq_no.value, k + limit - self.watermark);
                        }
                        let seq = self.seq_no.advance(k as u32);
                        let d = ConsensusDecision::init_with_msg_log(self.node_id, seq, &self.curr_view, self.strict_persistence, queue);
                        self.signalled.push_signalled(seq);
                        self.decisions.push(d);
                        proof {
                            assert forall|i: int| 0 <= i < self.decisions@.len() implies #[trigger] self.slot_fits(self.decisions@[i], i) by {
                                if i < k {
                                    assert(s0.slot_fits(s0.decisions@[i], i));
                                }
                            }
                            assert forall|i: int| self.watermark - limit <= i < self.decisions@.len() implies #[trigger] self.fresh_at(self.decisions@[i], i) by {
                                if i < k {
                                    assert(s0.fresh_at(s0.decisions@[i], i));
                                }
                            }
                            assert forall|i: int, p: MessagePhase| self.watermark - limit <= i < self.decisions@.len()
                                implies #[trigger] self.decisions@[i].queued(p) == Seq::<StoredMessage>::empty() by {
                                if i < k {
                                    assert(self.decisions@[i] == s0.decisions@[i]);
                                } else {
                                    assert(queue.phase_queue(p) =~= Seq::<StoredMessage>::empty());
                                }
                            }
                            assert(self.decisions@.subrange(0, self.watermark - limit) =~= s0.decisions@.subrange(0, self.watermark - limit));
                            assert forall|j: int| 0 <= j < self.decisions_spec().len() && #[trigger] needs_poll(self.decisions_spec()[j])
                                implies self.signalled_spec().pending_set().contains(self.decisions_spec()[j].seq_spec()) by {
                                if j < k {
                                    assert(self.decisions@[j] == s0.decisions@[j]);
                                    assert(needs_poll(s0.decisions_spec()[j]));
                                }
                            }
                        }
                    }
                    proof {
                        assert(self.tbo_spec().curr_seq_spec() == novel_seq_no.value);
                        assert forall|i: int| 0 <= i < self.watermark - limit implies #[trigger] self.decisions@[i] == c0.decisions@[i + limit] by {
                            assert(self.decisions@[i] == kept[i]);
                        }
                    }
                }
            },
        }
        guard.install_seq_no(novel_seq_no);
        let ghost s9 = *self;
        self.tbo_queue.signal();
        proof {
            lemma_slots_still_fit(&s9, self);
            assert forall|j: int| 0 <= j < self.decisions_spec().len() && #[trigger] needs_poll(self.decisions_spec()[j])
                implies self.signalled_spec().pending_set().contains(self.decisions_spec()[j].seq_spec()) by {
                assert(needs_poll(s9.decisions_spec()[j]));
            }
            assert forall|i: int| 0 <= i < self.watermark_spec() && !(index_spec(novel_seq_no.value, c0.seq_no.value) == SeqIndex::Right(0))
                && !(index_spec(novel_seq_no.value, c0.seq_no.value) is Right && 0 < index_spec(novel_seq_no.value, c0.seq_no.value)->Right_0 < self.watermark)
                implies #[trigger] self.fresh_at(self.decisions_spec()[i], i) by {
                assert(s9.fresh_at(s9.decisions_spec()[i], i));
            }
            let si = index_spec(novel_seq_no.value, c0.seq_no_spec());
            let w = c0.watermark_spec() as int;
            if si is Right && 0 < si->Right_0 < w {
                let k = si->Right_0 as int;
                assert forall|i: int| w - k <= i < w implies #[trigger] self.fresh_at(self.decisions_spec()[i], i) by {
                    assert(s9.fresh_at(s9.decisions_spec()[i], i));
                }
            }
        }
    }

    /// What finalizing does, as a relation between the engine before
    /// (`self`) and after (`c1`) and the result `r`.
    pub open spec fn finalized(&self, c1: &Consensus, r: Option<CompletedBatch>) -> bool {
        &&& c1.wf()
        &&& c1.same_config(self)
        &&& !self.decisions_spec()[0].finalizeable_spec() ==> r.is_none() && *c1 == *self
        &&& self.decisions_spec()[0].finalizeable_spec() ==> {
            &&& r.is_some()
            &&& r.unwrap().seq.value == self.seq_no_spec()
            &&& Some(r.unwrap().batch_digest) == self.decisions_spec()[0].batch_digest_spec()
            &&& r.unwrap().requests@ == self.decisions_spec()[0].batch_spec()
            &&& r.unwrap().pre_prepare_digests_to_persist@ == seq![r.unwrap().batch_digest]
            &&& c1.seq_no_spec() == seq_add(self.seq_no_spec(), 1)
            &&& forall|i: int| 0 <= i < self.watermark_spec() - 1
                    ==> #[trigger] c1.decisions_spec()[i] == self.decisions_spec()[i + 1]
            &&& c1.fresh_at(c1.decisions_spec()[self.watermark_spec() - 1], self.watermark_spec() - 1)
            &&& c1.view_queue_spec() == self.view_queue_spec()
        }
    }

    /// A pre-prepare of `requests` for the first slot of the window in view
    /// `view_seq`, as a leader of a new view forges it; nothing is sent.
    pub fn forge_propose(&self, requests: Vec<StoredRequestMessage>, view_seq: SeqNo) -> (r: ConsensusMessage)
        ensures
            r.seq.value == self.seq_no_spec(),
            r.view == view_seq,
            r.kind == ConsensusMessageKind::PrePrepare(requests),
    {
        ConsensusMessage::new(self.seq_no, view_seq, ConsensusMessageKind::PrePrepare(requests))
    }

    /// `self` is `c` after the first slot skipped Init.
    pub open spec fn skipped_init(&self, c: &Consensus) -> bool {
        let d0 = c.decisions_spec()[0];
        let d1 = self.decisions_spec()[0];
        &&& self.wf()
        &&& self.same_config(c)
        &&& self.seq_no_spec() == c.seq_no_spec()
        &&& self.view_queue_spec() == c.view_queue_spec()
        &&& self.tbo_spec() == c.tbo_spec()
        &&& self.signalled_spec() == c.signalled_spec()
        &&& self.is_recovering_spec() == c.is_recovering_spec()
        &&& self.decisions_spec().len() == c.decisions_spec().len()
        &&& forall|j: int| 1 <= j < c.decisions_spec().len() ==> #[trigger] self.decisions_spec()[j] == c.decisions_spec()[j]
        &&& d1.same_votes(&d0)
        &&& forall|p: MessagePhase| #[trigger] d1.queued(p) == d0.queued(p)
        &&& d1.phase_spec() == if d0.phase_spec() == DecisionPhase::Init { DecisionPhase::PrePreparing } else { d0.phase_spec() }
    }

    /// Ends a view change: installs `view`, records the requests that the
    /// forged pre-prepare carries so the proposer does not propose them
    /// again, lets the first slot skip Init, processes the pre-prepare and
    /// opens the guard.
    pub fn finalize_view_change(
        &mut self,
        header: Header,
        message: ConsensusMessage,
        view: &ViewInfo,
        guard: &mut ProposerConsensusGuard,
    ) -> (r: (ConsensusStatus, Option<ConsensusMessage>))
        requires
            old(self).wf(),
            old(guard).wf(),
            view.wf(),
        ensures
            final(self).wf(),
            final(guard).wf(),
            final(guard).can_propose_spec(),
            final(self).node_spec() == old(self).node_spec(),
            final(self).seq_no_spec() == old(self).seq_no_spec(),
            index_spec(view.seq.value, old(self).view_seq_spec()) is Right && index_spec(view.seq.value, old(self).view_seq_spec())->Right_0 > 0
                ==> final(self).view_seq_spec() == view.seq.value,
            final(self).decisions_spec()[0].phase_spec() != DecisionPhase::Init,
            final(self).watermark_spec() == old(self).watermark_spec(),
            final(self).strict_spec() == old(self).strict_spec(),
            exists|c_inst: Consensus, g_inst: ProposerConsensusGuard, mid: Consensus| {
                &&& #[trigger] old(self).view_installed(old(guard), view, &c_inst, &g_inst)
                &&& mid.skipped_init(&c_inst)
                &&& #[trigger] mid.processed_by(header, message, final(self), r)
                &&& final(guard).available() == g_inst.available()
                &&& final(guard).view_seq_spec() == g_inst.view_seq_spec()
            },
            match message.kind {
                ConsensusMessageKind::PrePrepare(reqs) => {
                    &&& final(guard).pending_sync_spec()
                    &&& final(guard).sync_entries().is_some()
                    &&& forall|sender: NodeId, session: u32|
                        lookup_last(final(guard).sync_entries().unwrap(), sender, session)
                            == #[trigger] latest_seq(rq_infos(reqs@), sender, session)
                },
                _ => final(guard).sync_entries() == old(guard).sync_entries(),
            },
    {
        self.install_view(view, guard);
        let ghost s1 = *self;
        let ghost g1 = *guard;
        if let ConsensusMessageKind::PrePrepare(reqs) = &message.kind {
            let mut infos: Vec<ClientRqInfo> = Vec::new();
            let mut i: usize = 0;
            while i < reqs.len()
                invariant
                    i <= reqs@.len(),
                    infos@ == rq_infos(reqs@.subrange(0, i as int)),
                decreases reqs@.len() - i,
            {
                let rq = &reqs[i];
                infos.push(ClientRqInfo { sender: rq.header.from, session: rq.message.session_id, seq_no: rq.message.operation_id });
                proof {
                    assert(infos@ =~= rq_infos(reqs@.subrange(0, i as int + 1)));
                }
                i += 1;
            }
            proof {
                assert(reqs@.subrange(0, reqs@.len() as int) =~= reqs@);
            }
            guard.install_sync_message_requests(infos);
        }
        let ghost g2 = *guard;
        proof {
            assert(self.slot_fits(self.decisions@[0], 0));
        }
        let ghost s2 = *self;
        self.decisions[0].skip_init_phase();
        proof {
            lemma_slots_still_fit(&s2, self);
            lemma_window_distinct(&s2);
            let d0 = s2.decisions_spec()[0];
            let d1 = self.decisions_spec()[0];
            if needs_poll(d1) {
                assert(d1.queued(MessagePhase::PrePrepare) == d0.queued(MessagePhase::PrePrepare));
                assert(d1.queued(MessagePhase::Prepare) == d0.queued(MessagePhase::Prepare));
                assert(d1.queued(MessagePhase::Commit) == d0.queued(MessagePhase::Commit));
                assert(needs_poll(d0));
            }
            lemma_cover_after(&s2, self, d0.seq_spec());
        }
        let ghost s3 = *self;
        proof {
            assert(s3.skipped_init(&s1));
        }
        let r = self.process_message(header, message);
        proof {
            assert(old(self).view_installed(old(guard), view, &s1, &g1));
            assert(s3.processed_by(header, message, self, r));
        }
        proof {
            let d0 = s3.decisions_spec()[0];
            assert(d0.phase_spec() != DecisionPhase::Init);
            let vi = index_spec(message.view.value, s3.view_seq_spec());
            if vi == SeqIndex::Right(0) {
                match s3.window_offset(message) {
                    Some(i) => {
                        if i == 0 {
                            let ds = choose|ds: DecisionStatus| {
                                &&& #[trigger] processed(s3.decisions_spec()[i], header, message, self.decisions_spec()[i], (ds, r.1))
                                &&& r.0 == status_of(ds)
                                &&& self.signalled_spec().pending_set() == if ds is Queued || ds is Transitioned {
                                        s3.signalled_spec().pending_set().insert(message.seq.value)
                                    } else {
                                        s3.signalled_spec().pending_set()
                                    }
                            };
                            assert(phase_rank(self.decisions_spec()[0].phase_spec()) >= phase_rank(d0.phase_spec()));
                        } else {
                            assert(self.decisions_spec()[0] == s3.decisions_spec()[0]);
                        }
                    },
                    None => {},
                }
            }
        }
        guard.unlock_consensus();
        r
    }

    /// Installs a transferred state: the window moves past the last executed
    /// sequence number of `dec_log` (or stays, when it names none), `view` is
    /// installed, and the operations of the pre-prepares of its proofs are
    /// returned in order, for the executor to replay. A state past sequence
    /// number zero starts a catch-up, which silences client request timeouts
    /// until the reorder buffer runs dry.
    pub fn install_state(&mut self, view: &ViewInfo, dec_log: &DecisionLog, guard: &mut ProposerConsensusGuard) -> (r: Vec<Vec<u8>>)
        requires
            old(self).wf(),
            old(guard).wf(),
            view.wf(),
        ensures
            final(self).wf(),
            final(guard).wf(),
            ({
                let last = match dec_log.last_exec {
                    Some(s) => s.value,
                    None => old(self).seq_no_spec(),
                };
                &&& final(self).seq_no_spec() == seq_add(last, 1)
                &&& (last > 0 ==> final(self).is_recovering_spec())
                &&& (last == 0 ==> final(self).is_recovering_spec() == old(self).is_recovering_spec())
            }),
            index_spec(view.seq.value, old(self).view_seq_spec()) is Right ==> final(self).view_seq_spec() == view.seq.value,
            index_spec(view.seq.value, old(self).view_seq_spec()) is Left ==> final(self).view_seq_spec() == old(self).view_seq_spec(),
            r@.map_values(|v: Vec<u8>| v@) == ops_of_proofs(dec_log.proofs@),
    {
        let seq = match dec_log.last_exec {
            Some(s) => s,
            None => self.seq_no,
        };
        if seq.value > 0 {
            self.is_recovering = true;
        }
        proof {
            lemma_slots_still_fit(old(self), self);
        }
        let ghost c0 = *self;
        let ghost g0 = *guard;
        let next = seq.next();
        self.install_sequence_number(next, guard);
        let ghost c1 = *self;
        let ghost g1 = *guard;
        self.install_view(view, guard);
        proof {
            assert(c0.seq_installed(&g0, next, &c1, &g1));
            assert(c1.view_installed(&g1, view, self, guard));
            crate::ordering::lemma_offset_bounds(c1.view_seq_spec(), c1.view_seq_spec());
        }
        replay_operations(&dec_log.proofs)
    }
}

/// The history a state transfer brings: the last executed sequence number
/// and the proofs of the decisions that led there.
pub struct DecisionLog {
    pub last_exec: Option<SeqNo>,
    pub proofs: Vec<Proof>,
}

/// The messages that decided one slot.
pub struct Proof {
    pub seq: SeqNo,
    pub pre_prepares: Vec<StoredMessage>,
    pub prepares: Vec<StoredMessage>,
    pub commits: Vec<StoredMessage>,
}

/// The operations of a batch, in order.
pub open spec fn ops_of_requests(rs: Seq<StoredRequestMessage>) -> Seq<Seq<u8>> {
    rs.map_values(|r: StoredRequestMessage| r.message.operation@)
}

/// The operations of the pre-prepares among `ms`, in order.
pub open spec fn ops_of_messages(ms: Seq<StoredMessage>) -> Seq<Seq<u8>>
    decreases ms.len(),
{
    if ms.len() == 0 {
        Seq::empty()
    } else {
        ops_of_messages(ms.drop_last()) + match ms.last().message.kind {
            ConsensusMessageKind::PrePrepare(rs) => ops_of_requests(rs@),
            _ => Seq::empty(),
        }
    }
}

/// The operations of the pre-prepares of `ps`, proof after proof.
pub open spec fn ops_of_proofs(ps: Seq<Proof>) -> Seq<Seq<u8>>
    decreases ps.len(),
{
    if ps.len() == 0 {
        Seq::empty()
    } else {
        ops_of_proofs(ps.drop_last()) + ops_of_messages(ps.last().pre_prepares@)
    }
}

fn copy_bytes(v: &Vec<u8>) -> (r: Vec<u8>)
    ensures
        r@ == v@,
{
    let mut r: Vec<u8> = Vec::new();
    let mut i: usize = 0;
    while i < v.len()
        invariant
            i <= v@.len(),
            r@ == v@.subrange(0, i as int),
        decreases v@.len() - i,
    {
        r.push(v[i]);
        i += 1;
    }
    proof {
        assert(r@ =~= v@);
    }
    r
}

/// The operations to replay after a state transfer: those of every
/// pre-prepare of every proof, in order.
fn replay_operations(proofs: &Vec<Proof>) -> (r: Vec<Vec<u8>>)
    ensures
        r@.map_values(|v: Vec<u8>| v@) == ops_of_proofs(proofs@),
{
    let mut out: Vec<Vec<u8>> = Vec::new();
    let mut i: usize = 0;
    while i < proofs.len()
        invariant
            i <= proofs@.len(),
            out@.map_values(|v: Vec<u8>| v@) == ops_of_proofs(proofs@.subrange(0, i as int)),
        decreases proofs@.len() - i,
    {
        let ms = &proofs[i].pre_prepares;
        let ghost base = out@.map_values(|v: Vec<u8>| v@);
        let mut j: usize = 0;
        while j < ms.len()
            invariant
                i < proofs@.len(),
                *ms == proofs@[i as int].pre_prepares,
                j <= ms@.len(),
                out@.map_values(|v: Vec<u8>| v@) == base + ops_of_messages(ms@.subrange(0, j as int)),
            decreases ms@.len() - j,
        {
            let ghost mid = out@.map_values(|v: Vec<u8>| v@);
            proof {
                assert(ms@.subrange(0, j as int + 1).drop_last() =~= ms@.subrange(0, j as int));
            }
            if let ConsensusMessageKind::PrePrepare(rs) = &ms[j].message.kind {
                let mut k: usize = 0;
                while k < rs.len()
                    invariant
                        k <= rs@.len(),
                        out@.map_values(|v: Vec<u8>| v@) == mid + ops_of_requests(rs@.subrange(0, k as int)),
                    decreases rs@.len() - k,
                {
                    let ghost before = out@;
                    out.push(copy_bytes(&rs[k].message.operation));
                    proof {
                        assert(out@.map_values(|v: Vec<u8>| v@) =~= before.map_values(|v: Vec<u8>| v@).push(rs@[k as int].message.operation@));
                        assert(ops_of_requests(rs@.subrange(0, k as int + 1)) =~= ops_of_requests(rs@.subrange(0, k as int)).push(rs@[k as int].message.operation@));
                    }
                    k += 1;
                }
                proof {
                    assert(rs@.subrange(0, rs@.len() as int) =~= rs@);
                    assert(base + ops_of_messages(ms@.subrange(0, j as int + 1)) =~= base + ops_of_messages(ms@.subrange(0, j as int)) + ops_of_requests(rs@));
                }
            } else {
                proof {
                    assert(base + ops_of_messages(ms@.subrange(0, j as int + 1)) =~= base + ops_of_messages(ms@.subrange(0, j as int)));
                }
            }
            j += 1;
        }
        proof {
            assert(ms@.subrange(0, ms@.len() as int) =~= ms@);
            assert(proofs@.subrange(0, i as int + 1).drop_last() =~= proofs@.subrange(0, i as int));
        }
        i += 1;
    }
    proof {
        assert(proofs@.subrange(0, proofs@.len() as int) =~= proofs@);
    }
    out
}

/// Finalized sequence numbers are consecutive: two finalizations in a row
/// hand out `s` and then `s + 1`.
pub proof fn lemma_in_order_finalize(
    c0: &Consensus,
    c1: &Consensus,
    r1: Option<CompletedBatch>,
    c2: &Consensus,
    r2: Option<CompletedBatch>,
)
    requires
        c0.wf(),
        c0.finalized(c1, r1),
        c1.finalized(c2, r2),
        r1.is_some(),
        r2.is_some(),
    ensures
        r2.unwrap().seq.value == seq_add(r1.unwrap().seq.value, 1),
{
}

/// After a state install, finalization goes on right after the installed
/// state: the first batch finalized hands out `last + 1`, given an engine
/// that the install left at `last + 1`, as `install_state` guarantees.
pub proof fn lemma_finalize_after_state(c1: &Consensus, last: u32, c2: &Consensus, r: Option<CompletedBatch>)
    requires
        c1.wf(),
        c1.seq_no_spec() == seq_add(last, 1),
        c1.finalized(c2, r),
        r.is_some(),
    ensures
        r.unwrap().seq.value == seq_add(last, 1),
{
}

/// No regression: a finalization moves the window by exactly one, and
/// installing a later view leaves the engine in that view.
pub proof fn lemma_no_regression(
    c0: &Consensus,
    c1: &Consensus,
    b: Option<CompletedBatch>,
    g0: &ProposerConsensusGuard,
    view: &ViewInfo,
    c2: &Consensus,
    g2: &ProposerConsensusGuard,
)
    requires
        c0.finalized(c1, b),
        b.is_some(),
        c0.view_installed(g0, view, c2, g2),
    ensures
        c1.seq_no_spec() == seq_add(c0.seq_no_spec(), 1),
        (index_spec(view.seq.value, c0.view_seq_spec()) is Right && index_spec(view.seq.value, c0.view_seq_spec())->Right_0 > 0)
            ==> c2.view_seq_spec() == view.seq.value,
{
}

/// Installing a sequence number twice has the effect of installing it once.
pub proof fn lemma_install_sequence_number_idempotent(
    c0: &Consensus,
    g0: &ProposerConsensusGuard,
    s: SeqNo,
    c1: &Consensus,
    g1: &ProposerConsensusGuard,
    c2: &Consensus,
    g2: &ProposerConsensusGuard,
)
    requires
        c0.seq_installed(g0, s, c1, g1),
        c1.seq_installed(g1, s, c2, g2),
    ensures
        *c2 == *c1,
        *g2 == *g1,
{
    crate::ordering::lemma_offset_bounds(s.value, s.value);
    assert(index_spec(s.value, c1.seq_no_spec()) == SeqIndex::Right(0));
}

/// The slots of a window have distinct sequence numbers.
proof fn lemma_window_distinct(c: &Consensus)
    requires
        c.window_prefix_ok(),
        c.watermark_spec() <= SEQ_HALF,
    ensures
        forall|j: int, k: int| 0 <= j < c.decisions_spec().len() && 0 <= k < c.decisions_spec().len() && j != k
            ==> #[trigger] c.decisions_spec()[j].seq_spec() != #[trigger] c.decisions_spec()[k].seq_spec(),
{
    assert forall|j: int, k: int| 0 <= j < c.decisions_spec().len() && 0 <= k < c.decisions_spec().len() && j != k
        implies #[trigger] c.decisions_spec()[j].seq_spec() != #[trigger] c.decisions_spec()[k].seq_spec() by {
        assert(c.slot_fits(c.decisions_spec()[j], j));
        assert(c.slot_fits(c.decisions_spec()[k], k));
        if c.decisions_spec()[j].seq_spec() == c.decisions_spec()[k].seq_spec() {
            crate::ordering::lemma_add_injective(c.seq_no_spec(), j, k);
        }
    }
}

/// Coverage survives a step that changed only the slots of sequence number
/// `s`, and dropped at most `s` from the signals.
proof fn lemma_cover_after(a: &Consensus, b: &Consensus, s: u32)
    requires
        a.signals_cover(),
        b.decisions_spec().len() == a.decisions_spec().len(),
        forall|j: int| 0 <= j < a.decisions_spec().len() ==> #[trigger] b.decisions_spec()[j].seq_spec() == a.decisions_spec()[j].seq_spec(),
        forall|j: int| 0 <= j < a.decisions_spec().len() && a.decisions_spec()[j].seq_spec() != s
            ==> #[trigger] b.decisions_spec()[j] == a.decisions_spec()[j],
        forall|j: int| 0 <= j < a.decisions_spec().len() && a.decisions_spec()[j].seq_spec() == s
            && #[trigger] needs_poll(b.decisions_spec()[j]) ==> b.signalled_spec().pending_set().contains(s),
        forall|x: u32| x != s && #[trigger] a.signalled_spec().pending_set().contains(x) ==> b.signalled_spec().pending_set().contains(x),
    ensures
        b.signals_cover(),
{
    assert forall|j: int| 0 <= j < b.decisions_spec().len() && #[trigger] needs_poll(b.decisions_spec()[j])
        implies b.signalled_spec().pending_set().contains(b.decisions_spec()[j].seq_spec()) by {
        let x = a.decisions_spec()[j].seq_spec();
        if x != s {
            assert(b.decisions_spec()[j] == a.decisions_spec()[j]);
            assert(needs_poll(a.decisions_spec()[j]));
            assert(a.signalled_spec().pending_set().contains(x));
        }
    }
}

proof fn lemma_wf_same_but_view_queue(a: &Consensus, b: &Consensus)
    requires
        a.wf(),
        b.same_but_view_queue(a),
    ensures
        b.wf(),
{
    assert forall|j: int| 0 <= j < b.decisions_spec().len() && #[trigger] needs_poll(b.decisions_spec()[j])
        implies b.signalled_spec().pending_set().contains(b.decisions_spec()[j].seq_spec()) by {
        assert(needs_poll(a.decisions_spec()[j]));
    }
    assert forall|j: int| 0 <= j < b.decisions_spec().len() implies #[trigger] b.slot_fits(b.decisions_spec()[j], j) by {
        assert(a.slot_fits(a.decisions_spec()[j], j));
    }
}

proof fn lemma_all_fresh_same(a: &Consensus, b: &Consensus)
    requires
        a.all_fresh(),
        b.same_but_view_queue(a),
    ensures
        b.all_fresh(),
{
    assert forall|i: int| 0 <= i < b.watermark_spec() implies #[trigger] b.fresh_at(b.decisions_spec()[i], i) by {
        assert(a.fresh_at(a.decisions_spec()[i], i));
    }
}

/// Installing a view twice has the effect of installing it once.
pub proof fn lemma_install_view_idempotent(
    c0: &Consensus,
    g0: &ProposerConsensusGuard,
    view: &ViewInfo,
    c1: &Consensus,
    g1: &ProposerConsensusGuard,
    c2: &Consensus,
    g2: &ProposerConsensusGuard,
)
    requires
        c0.view_installed(g0, view, c1, g1),
        c1.view_installed(g1, view, c2, g2),
    ensures
        *c2 == *c1,
        *g2 == *g1,
{
    let vi = index_spec(view.seq.value, c0.view_seq_spec());
    if vi is Right && vi->Right_0 > 0 {
        crate::ordering::lemma_offset_bounds(view.seq.value, view.seq.value);
        assert(index_spec(view.seq.value, c1.view_seq_spec()) == SeqIndex::Right(0));
    }
}

/// Views never go back: installing a view leaves the engine in a view at
/// or after the one it was in.
pub proof fn lemma_view_monotone(
    c0: &Consensus,
    g0: &ProposerConsensusGuard,
    view: &ViewInfo,
    c1: &Consensus,
    g1: &ProposerConsensusGuard,
)
    requires
        c0.view_installed(g0, view, c1, g1),
    ensures
        index_spec(c1.view_seq_spec(), c0.view_seq_spec()) is Right,
{
    let vi = index_spec(view.seq.value, c0.view_seq_spec());
    if !(vi is Right && vi->Right_0 > 0) {
        crate::ordering::lemma_offset_bounds(c0.view_seq_spec(), c0.view_seq_spec());
    }
}

/// The client requests of a batch as the proposer tracks them.
pub open spec fn rq_infos(reqs: Seq<StoredRequestMessage>) -> Seq<ClientRqInfo> {
    reqs.map_values(|r: StoredRequestMessage| ClientRqInfo {
        sender: r.header.from,
        session: r.message.session_id,
        seq_no: r.message.operation_id,
    })
}

/// What is left of the view queue once the views up to `k` after the
/// current one are over.
pub open spec fn dropped_views(vq: Seq<Seq<StoredMessage>>, k: int) -> Seq<Seq<StoredMessage>> {
    if k <= vq.len() {
        vq.subrange(k, vq.len() as int)
    } else {
        Seq::empty()
    }
}

/// `states` runs from `c0` to `c1`, each step queueing the next of `msgs`.
pub open spec fn queue_chain(c0: Consensus, msgs: Seq<StoredMessage>, states: Seq<Consensus>, c1: Consensus) -> bool {
    &&& states.len() == msgs.len() + 1
    &&& states[0] == c0
    &&& states.last() == c1
    &&& forall|i: int| 0 <= i < msgs.len()
            ==> #[trigger] states[i].queued_by(msgs[i].header, msgs[i].message, &states[i + 1])
}

/// Engine `c0` becomes `c1` by queueing `msgs`, one after the other.
pub open spec fn requeued(c0: Consensus, msgs: Seq<StoredMessage>, c1: Consensus) -> bool {
    exists|states: Seq<Consensus>| #[trigger] queue_chain(c0, msgs, states, c1)
}

/// Whether slot `d` has work that a poll would find.
pub open spec fn needs_poll(d: ConsensusDecision) -> bool {
    d.phase_spec() == DecisionPhase::Init || match consumed_phase(d.phase_spec()) {
        Some(p) => d.queued(p).len() > 0,
        None => false,
    }
}

/// One poll step keeps `offered`: slots keep their sequence numbers, at
/// most slot `i` left Init (and then its number was made available), and the
/// guard gained at most that number.
proof fn lemma_offered_step(
    c0: &Consensus,
    g0: &ProposerConsensusGuard,
    s0: &Consensus,
    h0: &ProposerConsensusGuard,
    c: &Consensus,
    g: &ProposerConsensusGuard,
    i: int,
    moved: bool,
)
    requires
        c0.offered(g0, s0, h0),
        c0.decisions_spec().len() == c0.watermark_spec(),
        s0.decisions_spec().len() == c0.watermark_spec(),
        c.decisions_spec().len() == c0.watermark_spec(),
        forall|j: int| 0 <= j < c0.watermark_spec() ==> {
            let d0 = #[trigger] c0.decisions_spec()[j];
            let d1 = s0.decisions_spec()[j];
            (d1.phase_spec() == d0.phase_spec()
                || (d0.phase_spec() == DecisionPhase::Init && d1.phase_spec() == DecisionPhase::PrePreparing))
        },
        forall|j: int| 0 <= j < c0.watermark_spec() ==> #[trigger] c.decisions_spec()[j].seq_spec() == s0.decisions_spec()[j].seq_spec(),
        forall|j: int| 0 <= j < c0.watermark_spec() && !(moved && j == i)
            ==> #[trigger] c.decisions_spec()[j].phase_spec() == s0.decisions_spec()[j].phase_spec(),
        moved ==> 0 <= i < c0.watermark_spec() && s0.decisions_spec()[i].phase_spec() == DecisionPhase::Init
            && c.decisions_spec()[i].phase_spec() == DecisionPhase::PrePreparing
            && g.available().contains(c.decisions_spec()[i].seq_spec()),
        forall|x: u32| #[trigger] h0.available().contains(x) ==> g.available().contains(x),
        forall|x: u32| #[trigger] g.available().contains(x) ==> h0.available().contains(x)
            || (moved && x == c.decisions_spec()[i].seq_spec()),
    ensures
        c0.offered(g0, c, g),
{
    assert forall|j: int| 0 <= j < c0.watermark_spec() && #[trigger] c0.decisions_spec()[j].phase_spec() == DecisionPhase::Init
        && c.decisions_spec()[j].phase_spec() == DecisionPhase::PrePreparing
        implies g.available().contains(c.decisions_spec()[j].seq_spec()) by {
        if !(moved && j == i) {
            assert(h0.available().contains(s0.decisions_spec()[j].seq_spec()));
        }
    }
    assert forall|x: u32| #[trigger] g.available().contains(x) implies g0.available().contains(x)
        || exists|j: int| 0 <= j < c0.watermark_spec()
            && c0.decisions_spec()[j].phase_spec() == DecisionPhase::Init
            && c.decisions_spec()[j].phase_spec() == DecisionPhase::PrePreparing
            && #[trigger] c.decisions_spec()[j].seq_spec() == x by {
        if h0.available().contains(x) {
            if !g0.available().contains(x) {
                let j = choose|j: int| 0 <= j < c0.watermark_spec()
                    && c0.decisions_spec()[j].phase_spec() == DecisionPhase::Init
                    && s0.decisions_spec()[j].phase_spec() == DecisionPhase::PrePreparing
                    && #[trigger] s0.decisions_spec()[j].seq_spec() == x;
                assert(c.decisions_spec()[j].seq_spec() == x);
            }
        } else {
            assert(moved && x == c.decisions_spec()[i].seq_spec());
            assert(c0.decisions_spec()[i].phase_spec() == DecisionPhase::Init);
        }
    }
}

/// Number of slots in Init.
pub open spec fn init_count(ds: Seq<ConsensusDecision>) -> nat
    decreases ds.len(),
{
    if ds.len() == 0 {
        0
    } else {
        init_count(ds.drop_last()) + if ds.last().phase_spec() == DecisionPhase::Init { 1nat } else { 0nat }
    }
}

proof fn lemma_init_count_update(ds: Seq<ConsensusDecision>, i: int, d: ConsensusDecision)
    requires
        0 <= i < ds.len(),
    ensures
        init_count(ds.update(i, d)) + (if ds[i].phase_spec() == DecisionPhase::Init { 1int } else { 0int })
            == init_count(ds) + (if d.phase_spec() == DecisionPhase::Init { 1int } else { 0int }),
    decreases ds.len(),
{
    let u = ds.update(i, d);
    if i == ds.len() - 1 {
        assert(u.drop_last() =~= ds.drop_last());
    } else {
        assert(u.drop_last() =~= ds.drop_last().update(i, d));
        lemma_init_count_update(ds.drop_last(), i, d);
    }
}

/// How the engine reports a slot's status.
pub open spec fn status_of(ds: DecisionStatus) -> ConsensusStatus {
    match ds {
        DecisionStatus::VotedTwice(n) => ConsensusStatus::VotedTwice(n),
        DecisionStatus::Decided => ConsensusStatus::Decided,
        _ => ConsensusStatus::Deciding,
    }
}

fn status_of_exec(ds: DecisionStatus) -> (r: ConsensusStatus)
    ensures
        r == status_of(ds),
{
    match ds {
        DecisionStatus::VotedTwice(n) => ConsensusStatus::VotedTwice(n),
        DecisionStatus::Decided => ConsensusStatus::Decided,
        _ => ConsensusStatus::Deciding,
    }
}

/// The slots of `b` still fit their positions when each is `a`'s slot, or a
/// well-formed slot with the same sequence number, view and configuration.
proof fn lemma_slots_still_fit(a: &Consensus, b: &Consensus)
    requires
        a.window_prefix_ok(),
        b.decisions_spec().len() == a.decisions_spec().len(),
        b.watermark_spec() == a.watermark_spec(),
        b.seq_no_spec() == a.seq_no_spec(),
        b.same_config(a),
        forall|j: int| 0 <= j < a.decisions_spec().len() ==> {
            let d0 = a.decisions_spec()[j];
            let d1 = #[trigger] b.decisions_spec()[j];
            d1 == d0 || {
                &&& d1.wf()
                &&& d1.seq_spec() == d0.seq_spec()
                &&& d1.view_spec() == d0.view_spec()
                &&& d1.node_spec() == d0.node_spec()
                &&& d1.f_spec() == d0.f_spec()
                &&& d1.leaders_spec() == d0.leaders_spec()
                &&& d1.strict_spec() == d0.strict_spec()
            }
        },
    ensures
        forall|j: int| 0 <= j < b.decisions_spec().len() ==> #[trigger] b.slot_fits(b.decisions_spec()[j], j),
{
    assert forall|j: int| 0 <= j < b.decisions_spec().len() implies #[trigger] b.slot_fits(b.decisions_spec()[j], j) by {
        assert(a.slot_fits(a.decisions_spec()[j], j));
    }
}

/// The window: the engine holds `watermark` slots whose sequence numbers run
/// from `seq_no` upwards, one apart.
pub proof fn lemma_window(c: &Consensus)
    requires
        c.wf(),
    ensures
        c.decisions_spec().len() == c.watermark_spec(),
        forall|i: int| 0 <= i < c.watermark_spec() ==> #[trigger] c.decisions_spec()[i].seq_spec() == seq_add(c.seq_no_spec(), i),
{
    assert forall|i: int| 0 <= i < c.watermark_spec() implies #[trigger] c.decisions_spec()[i].seq_spec() == seq_add(c.seq_no_spec(), i) by {
        assert(c.slot_fits(c.decisions_spec()[i], i));
    }
}

/// The reorder buffer is aligned with the engine: it starts at `seq_no`.
pub proof fn lemma_tbo_aligned(c: &Consensus)
    requires
        c.wf(),
    ensures
        c.tbo_spec().curr_seq_spec() == c.seq_no_spec(),
{
}

/// No pending sequence number is held twice by the engine's signal queue.
pub proof fn lemma_engine_signals_dedup(c: &Consensus)
    requires
        c.wf(),
    ensures
        c.signalled_spec().pending_set().len() == c.signalled_spec().pending().len(),
{
    crate::signals::lemma_signals_dedup(&c.signalled_spec());
}

} // verus!
