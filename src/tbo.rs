//! Reorder buffers: the messages of one slot, and a window of slots by
//! sequence number.

use vstd::prelude::*;
use crate::ordering::{SeqNo, SeqIndex, seq_add, index_spec};
use crate::message::{Header, ConsensusMessage, StoredMessage, MessagePhase, kind_phase};

verus! {

/// The messages of slot `k` of a window, empty past its end.
pub open spec fn slot_of(q: Seq<Vec<StoredMessage>>, k: int) -> Seq<StoredMessage> {
    if 0 <= k < q.len() {
        q[k]@
    } else {
        Seq::empty()
    }
}

/// Appends `m` to slot `k`, growing the window with empty slots as needed.
pub(crate) fn push_into_slot(q: &mut Vec<Vec<StoredMessage>>, k: usize, m: StoredMessage)
    requires
        k < usize::MAX,
    ensures
        final(q)@.len() == if k < old(q)@.len() { old(q)@.len() as int } else { k + 1 },
        forall|j: int| j != k ==> slot_of(final(q)@, j) == slot_of(old(q)@, j),
        slot_of(final(q)@, k as int) == slot_of(old(q)@, k as int).push(m),
{
    while q.len() <= k
        invariant
            k < usize::MAX,
            old(q)@.len() <= q@.len() <= if k < old(q)@.len() { old(q)@.len() as int } else { k + 1 },
            forall|j: int| slot_of(q@, j) == slot_of(old(q)@, j),
        decreases k + 1 - q@.len(),
    {
        let ghost before = q@;
        q.push(Vec::new());
        proof {
            assert forall|j: int| slot_of(q@, j) == slot_of(old(q)@, j) by {
                if j == before.len() {
                    assert(slot_of(before, j) == Seq::<StoredMessage>::empty());
                } else {
                    assert(slot_of(q@, j) == slot_of(before, j));
                }
            }
        }
    }
    let ghost mid = q@;
    let mut inner = q.remove(k);
    inner.push(m);
    q.insert(k, inner);
    proof {
        assert forall|j: int| j != k implies slot_of(q@, j) == slot_of(old(q)@, j) by {
            assert(slot_of(q@, j) == slot_of(mid, j));
        }
    }
}

/// Removes the first slot, returning its messages (none if the window is empty).
fn pop_front_slot(q: &mut Vec<Vec<StoredMessage>>) -> (r: Vec<StoredMessage>)
    ensures
        r@ == slot_of(old(q)@, 0),
        final(q)@.len() == (if old(q)@.len() == 0 { 0int } else { old(q)@.len() - 1 }),
        forall|j: int| 0 <= j ==> slot_of(final(q)@, j) == slot_of(old(q)@, j + 1),
{
    if q.len() == 0 {
        Vec::new()
    } else {
        q.remove(0)
    }
}

/// The messages that one slot holds, by phase, in order of arrival.
pub struct MessageQueue {
    pub pre_prepares: Vec<StoredMessage>,
    pub prepares: Vec<StoredMessage>,
    pub commits: Vec<StoredMessage>,
}

impl MessageQueue {
    pub open spec fn is_empty_spec(&self) -> bool {
        self.pre_prepares@.len() == 0 && self.prepares@.len() == 0 && self.commits@.len() == 0
    }

    pub open spec fn phase_queue(&self, p: MessagePhase) -> Seq<StoredMessage> {
        match p {
            MessagePhase::PrePrepare => self.pre_prepares@,
            MessagePhase::Prepare => self.prepares@,
            MessagePhase::Commit => self.commits@,
        }
    }

    pub fn new() -> (r: MessageQueue)
        ensures
            r.is_empty_spec(),
    {
        MessageQueue { pre_prepares: Vec::new(), prepares: Vec::new(), commits: Vec::new() }
    }

    pub fn from_messages(
        pre_prepares: Vec<StoredMessage>,
        prepares: Vec<StoredMessage>,
        commits: Vec<StoredMessage>,
    ) -> (r: MessageQueue)
        ensures
            r.pre_prepares@ == pre_prepares@,
            r.prepares@ == prepares@,
            r.commits@ == commits@,
    {
        MessageQueue { pre_prepares, prepares, commits }
    }

    /// Whether any message waits here.
    pub fn is_signalled(&self) -> (r: bool)
        ensures
            r == !self.is_empty_spec(),
    {
        self.pre_prepares.len() > 0 || self.prepares.len() > 0 || self.commits.len() > 0
    }

    /// Appends `m` to the queue of its phase.
    pub fn queue(&mut self, header: Header, message: ConsensusMessage)
        ensures
            forall|p: MessagePhase| final(self).phase_queue(p) == if p == kind_phase(message.kind) {
                old(self).phase_queue(p).push(StoredMessage { header, message })
            } else {
                old(self).phase_queue(p)
            },
    {
        let p = message.phase();
        let stored = StoredMessage::new(header, message);
        match p {
            MessagePhase::PrePrepare => self.pre_prepares.push(stored),
            MessagePhase::Prepare => self.prepares.push(stored),
            MessagePhase::Commit => self.commits.push(stored),
        }
    }

    /// Takes the oldest message of phase `p`, if any.
    pub fn pop_phase(&mut self, p: MessagePhase) -> (r: Option<StoredMessage>)
        ensures
            old(self).phase_queue(p).len() == 0 ==> r.is_none() && *final(self) == *old(self),
            old(self).phase_queue(p).len() > 0 ==> r == Some(old(self).phase_queue(p)[0])
                && final(self).phase_queue(p) == old(self).phase_queue(p).drop_first(),
            forall|q: MessagePhase| q != p ==> final(self).phase_queue(q) == old(self).phase_queue(q),
    {
        let v = match p {
            MessagePhase::PrePrepare => &mut self.pre_prepares,
            MessagePhase::Prepare => &mut self.prepares,
            MessagePhase::Commit => &mut self.commits,
        };
        if v.len() == 0 {
            None
        } else {
            Some(v.remove(0))
        }
    }
}

/// A window of per-slot queues: slot `k` collects the messages of sequence
/// number `curr_seq + k`, for `k` below the watermark.
pub struct TboQueue {
    curr_seq: SeqNo,
    watermark: u32,
    get_queue: bool,
    pre_prepares: Vec<Vec<StoredMessage>>,
    prepares: Vec<Vec<StoredMessage>>,
    commits: Vec<Vec<StoredMessage>>,
}

impl TboQueue {
    pub closed spec fn curr_seq_spec(&self) -> u32 {
        self.curr_seq.value
    }

    pub closed spec fn watermark_spec(&self) -> u32 {
        self.watermark
    }

    pub closed spec fn get_queue_spec(&self) -> bool {
        self.get_queue
    }

    /// The messages of phase `p` waiting for slot `k`.
    pub closed spec fn slot(&self, p: MessagePhase, k: int) -> Seq<StoredMessage> {
        match p {
            MessagePhase::PrePrepare => slot_of(self.pre_prepares@, k),
            MessagePhase::Prepare => slot_of(self.prepares@, k),
            MessagePhase::Commit => slot_of(self.commits@, k),
        }
    }

    /// Number of slots held, counted on the pre-prepare window.
    pub closed spec fn held_slots(&self) -> int {
        self.pre_prepares@.len() as int
    }

    /// The window never grows past the watermark.
    pub closed spec fn wf(&self) -> bool {
        &&& self.pre_prepares@.len() <= self.watermark
        &&& self.prepares@.len() <= self.watermark
        &&& self.commits@.len() <= self.watermark
    }

    pub open spec fn is_empty_spec(&self) -> bool {
        forall|p: MessagePhase, k: int| #[trigger] self.slot(p, k) == Seq::<StoredMessage>::empty()
    }

    pub fn new(curr_seq: SeqNo, watermark: u32) -> (r: TboQueue)
        ensures
            r.wf(),
            r.curr_seq_spec() == curr_seq.value,
            r.watermark_spec() == watermark,
            !r.get_queue_spec(),
            r.is_empty_spec(),
            r.held_slots() == 0,
    {
        TboQueue {
            curr_seq,
            watermark,
            get_queue: false,
            pre_prepares: Vec::new(),
            prepares: Vec::new(),
            commits: Vec::new(),
        }
    }

    pub fn sequence_number(&self) -> (r: SeqNo)
        ensures
            r.value == self.curr_seq_spec(),
    {
        self.curr_seq
    }

    /// Number of slots that currently hold a (possibly empty) queue.
    pub fn len(&self) -> (r: usize)
        ensures
            r == self.held_slots(),
    {
        self.pre_prepares.len()
    }

    /// The exclusive upper bound of accepted sequence numbers.
    pub fn base_seq(&self) -> (r: SeqNo)
        ensures
            r.value == seq_add(self.curr_seq_spec(), self.watermark_spec() as int),
    {
        self.curr_seq.advance(self.watermark)
    }

    /// Signal that new messages may be extracted.
    pub fn signal(&mut self)
        ensures
            final(self).get_queue_spec(),
            final(self).curr_seq_spec() == old(self).curr_seq_spec(),
            final(self).watermark_spec() == old(self).watermark_spec(),
            final(self).held_slots() == old(self).held_slots(),
            forall|p: MessagePhase, k: int| final(self).slot(p, k) == old(self).slot(p, k),
            old(self).is_empty_spec() ==> final(self).is_empty_spec(),
            old(self).wf() ==> final(self).wf(),
            old(self).get_queue_spec() ==> *final(self) == *old(self),
    {
        self.get_queue = true;
        proof {
            if old(self).is_empty_spec() {
                assert forall|p: MessagePhase, k: int| #[trigger] self.slot(p, k) == Seq::<StoredMessage>::empty() by {
                    assert(old(self).slot(p, k) == Seq::<StoredMessage>::empty());
                }
            }
        }
    }

    /// Queues `m` in the slot of its sequence number, or drops it when that
    /// number lies before `curr_seq` or at or past `curr_seq + watermark`.
    pub fn queue(&mut self, h: Header, m: ConsensusMessage)
        requires
            old(self).wf(),
        ensures
            final(self).wf(),
            final(self).curr_seq_spec() == old(self).curr_seq_spec(),
            final(self).watermark_spec() == old(self).watermark_spec(),
            final(self).get_queue_spec() == old(self).get_queue_spec(),
            !(index_spec(m.seq.value, old(self).curr_seq_spec()) is Right
                && index_spec(m.seq.value, old(self).curr_seq_spec())->Right_0 < old(self).watermark_spec())
                ==> *final(self) == *old(self),
            ({
                let idx = index_spec(m.seq.value, old(self).curr_seq_spec());
                forall|p: MessagePhase, k: int| #[trigger] final(self).slot(p, k) == (
                    if idx == SeqIndex::Right(k as u32) && 0 <= k < old(self).watermark_spec() && p == kind_phase(m.kind) {
                        old(self).slot(p, k).push(StoredMessage { header: h, message: m })
                    } else {
                        old(self).slot(p, k)
                    })
            }),
    {
        let idx = m.seq.index(self.curr_seq);
        match idx {
            SeqIndex::Right(k) => {
                if k < self.watermark {
                    let p = m.phase();
                    let k = k as usize;
                    let stored = StoredMessage::new(h, m);
                    match p {
                        MessagePhase::PrePrepare => push_into_slot(&mut self.pre_prepares, k, stored),
                        MessagePhase::Prepare => push_into_slot(&mut self.prepares, k, stored),
                        MessagePhase::Commit => push_into_slot(&mut self.commits, k, stored),
                    }
                    proof {
                        assert forall|p2: MessagePhase, j: int| #[trigger] self.slot(p2, j) == (
                            if idx == SeqIndex::Right(j as u32) && 0 <= j < old(self).watermark_spec() && p2 == kind_phase(m.kind) {
                                old(self).slot(p2, j).push(StoredMessage { header: h, message: m })
                            } else {
                                old(self).slot(p2, j)
                            }) by {
                            if 0 <= j < old(self).watermark_spec() && idx == SeqIndex::Right(j as u32) {
                                assert(j == k);
                            }
                        }
                    }
                }
            },
            SeqIndex::Left(_) => {},
        }
    }

    /// Moves to the next sequence number and hands out the messages that
    /// waited for the slot that was first.
    pub fn advance_queue(&mut self) -> (r: MessageQueue)
        requires
            old(self).wf(),
        ensures
            final(self).wf(),
            final(self).curr_seq_spec() == seq_add(old(self).curr_seq_spec(), 1),
            final(self).watermark_spec() == old(self).watermark_spec(),
            final(self).get_queue_spec() == old(self).get_queue_spec(),
            final(self).held_slots() == (if old(self).held_slots() == 0 { 0 } else { old(self).held_slots() - 1 }),
            forall|p: MessagePhase| r.phase_queue(p) == old(self).slot(p, 0),
            forall|p: MessagePhase, k: int| 0 <= k ==> #[trigger] final(self).slot(p, k) == old(self).slot(p, k + 1),
            old(self).is_empty_spec() ==> final(self).is_empty_spec() && r.is_empty_spec(),
    {
        self.curr_seq = self.curr_seq.next();
        let pre_prepares = pop_front_slot(&mut self.pre_prepares);
        let prepares = pop_front_slot(&mut self.prepares);
        let commits = pop_front_slot(&mut self.commits);
        proof {
            if old(self).is_empty_spec() {
                assert(old(self).slot(MessagePhase::PrePrepare, 0) == Seq::<StoredMessage>::empty());
                assert(old(self).slot(MessagePhase::Prepare, 0) == Seq::<StoredMessage>::empty());
                assert(old(self).slot(MessagePhase::Commit, 0) == Seq::<StoredMessage>::empty());
                assert forall|p: MessagePhase, k: int| #[trigger] self.slot(p, k) == Seq::<StoredMessage>::empty() by {
                    if k >= 0 {
                        assert(old(self).slot(p, k + 1) == Seq::<StoredMessage>::empty());
                    }
                }
            }
        }
        MessageQueue::from_messages(pre_prepares, prepares, commits)
    }

    /// Moves to the next sequence number, discarding the first slot.
    pub fn next_instance_queue(&mut self)
        requires
            old(self).wf(),
        ensures
            final(self).wf(),
            final(self).curr_seq_spec() == seq_add(old(self).curr_seq_spec(), 1),
            final(self).watermark_spec() == old(self).watermark_spec(),
            final(self).get_queue_spec() == old(self).get_queue_spec(),
            final(self).held_slots() == (if old(self).held_slots() == 0 { 0 } else { old(self).held_slots() - 1 }),
            forall|p: MessagePhase, k: int| 0 <= k ==> #[trigger] final(self).slot(p, k) == old(self).slot(p, k + 1),
            old(self).is_empty_spec() ==> final(self).is_empty_spec(),
    {
        self.curr_seq = self.curr_seq.next();
        let _ = pop_front_slot(&mut self.pre_prepares);
        let _ = pop_front_slot(&mut self.prepares);
        let _ = pop_front_slot(&mut self.commits);
        proof {
            if old(self).is_empty_spec() {
                assert forall|p: MessagePhase, k: int| #[trigger] self.slot(p, k) == Seq::<StoredMessage>::empty() by {
                    if k >= 0 {
                        assert(old(self).slot(p, k + 1) == Seq::<StoredMessage>::empty());
                    }
                }
            }
        }
    }

    /// Places the window at `seq`, keeping what it holds.
    pub fn set_sequence_number(&mut self, seq: SeqNo)
        requires
            old(self).wf(),
        ensures
            final(self).wf(),
            final(self).curr_seq_spec() == seq.value,
            final(self).watermark_spec() == old(self).watermark_spec(),
            final(self).get_queue_spec() == old(self).get_queue_spec(),
            final(self).held_slots() == old(self).held_slots(),
            forall|p: MessagePhase, k: int| final(self).slot(p, k) == old(self).slot(p, k),
            old(self).is_empty_spec() ==> final(self).is_empty_spec(),
    {
        self.curr_seq = seq;
        proof {
            if old(self).is_empty_spec() {
                assert forall|p: MessagePhase, k: int| #[trigger] self.slot(p, k) == Seq::<StoredMessage>::empty() by {
                    assert(old(self).slot(p, k) == Seq::<StoredMessage>::empty());
                }
            }
        }
    }

    /// Drops every queued message.
    pub fn clear(&mut self)
        requires
            old(self).wf(),
        ensures
            final(self).wf(),
            final(self).curr_seq_spec() == old(self).curr_seq_spec(),
            final(self).watermark_spec() == old(self).watermark_spec(),
            !final(self).get_queue_spec(),
            final(self).is_empty_spec(),
            final(self).held_slots() == 0,
    {
        self.get_queue = false;
        self.pre_prepares.clear();
        self.prepares.clear();
        self.commits.clear();
    }
}

} // verus!
