//! The persistence backlog: decided batches wait here until the persistent
//! log confirms every message that they need stored, and leave in order.
//!
//! The backlog is a state machine fed with two kinds of events, a decided
//! batch and a write confirmation of the log; whoever drives it hands the
//! batches that it releases to the executor.

use vstd::prelude::*;
use crate::ordering::SeqNo;
use crate::message::Digest;
use crate::decision::CompletedBatch;

verus! {

/// Whether executing a batch must also produce a checkpoint.
#[derive(Clone, Copy, PartialEq, Eq, Structural, Debug)]
pub enum Info {
    Nil,
    BeginCheckpoint,
}

/// A decided batch, how to execute it, and the messages that must be
/// persisted before it may execute.
pub struct BatchExecutionInfo {
    pub info: Info,
    pub batch: CompletedBatch,
    pub messages_to_persist: Vec<Digest>,
}

/// What the executor is asked to do with a released batch.
pub enum ExecutorAction {
    QueueUpdate(BatchExecutionInfo),
    QueueUpdateAndGetAppstate(BatchExecutionInfo),
}

/// The position at which `d` first occurs in `v`, if it does.
pub open spec fn first_index(v: Seq<Digest>, d: Digest) -> Option<int> {
    if v.contains(d) {
        Some(choose|i: int| 0 <= i < v.len() && v[i] == d && forall|j: int| 0 <= j < i ==> v[j] != d)
    } else {
        None
    }
}

/// `v` without the first occurrence of `d`, whose place the last entry takes.
pub open spec fn swap_removed(v: Seq<Digest>, d: Digest) -> Seq<Digest> {
    match first_index(v, d) {
        Some(i) => v.update(i, v.last()).drop_last(),
        None => v,
    }
}

/// `v` after removing each of `ds` in turn.
pub open spec fn remove_each(v: Seq<Digest>, ds: Seq<Digest>) -> Seq<Digest>
    decreases ds.len(),
{
    if ds.len() == 0 {
        v
    } else {
        swap_removed(remove_each(v, ds.drop_last()), ds.last())
    }
}

/// The confirmations held for sequence number `s`, in order of arrival.
pub open spec fn ahead_of(pairs: Seq<(SeqNo, Digest)>, s: u32) -> Seq<Digest>
    decreases pairs.len(),
{
    if pairs.len() == 0 {
        Seq::empty()
    } else {
        ahead_of(pairs.drop_last(), s) + if pairs.last().0.value == s {
            seq![pairs.last().1]
        } else {
            Seq::empty()
        }
    }
}

proof fn lemma_first_index(v: Seq<Digest>, d: Digest, i: int)
    requires
        0 <= i < v.len(),
        v[i] == d,
        forall|j: int| 0 <= j < i ==> v[j] != d,
    ensures
        first_index(v, d) == Some(i),
{
    let k = choose|k: int| 0 <= k < v.len() && v[k] == d && forall|j: int| 0 <= j < k ==> v[j] != d;
    if k < i {
        assert(v[k] != d);
    } else if k > i {
        assert(v[i] != d);
    }
}

/// A batch that waits for write confirmations.
pub struct AwaitingPersistence {
    info: BatchExecutionInfo,
    pending_requests: Vec<Digest>,
}

impl AwaitingPersistence {
    pub closed spec fn info_spec(&self) -> BatchExecutionInfo {
        self.info
    }

    pub closed spec fn pending_spec(&self) -> Seq<Digest> {
        self.pending_requests@
    }

    /// Starts waiting for every message that `value` needs persisted.
    pub fn from(value: BatchExecutionInfo) -> (r: AwaitingPersistence)
        ensures
            r.info_spec() == value,
            r.pending_spec() == value.messages_to_persist@,
    {
        let mut pending: Vec<Digest> = Vec::new();
        let mut i: usize = 0;
        while i < value.messages_to_persist.len()
            invariant
                i <= value.messages_to_persist@.len(),
                pending@ == value.messages_to_persist@.subrange(0, i as int),
            decreases value.messages_to_persist@.len() - i,
        {
            pending.push(value.messages_to_persist[i]);
            i += 1;
        }
        proof {
            assert(pending@ =~= value.messages_to_persist@);
        }
        AwaitingPersistence { info: value, pending_requests: pending }
    }

    pub fn into_info(self) -> (r: BatchExecutionInfo)
        ensures
            r == self.info_spec(),
    {
        self.info
    }

    pub fn info(&self) -> (r: &BatchExecutionInfo)
        ensures
            *r == self.info_spec(),
    {
        &self.info
    }

    pub fn pending_requests(&self) -> (r: &Vec<Digest>)
        ensures
            r@ == self.pending_spec(),
    {
        &self.pending_requests
    }
}

/// The backlog: at most one batch waits, and confirmations that arrive for
/// later batches are kept until those batches come.
pub struct ConsensusBacklog {
    currently_waiting_for: Option<AwaitingPersistence>,
    messages_received_ahead: Vec<(SeqNo, Digest)>,
}

impl ConsensusBacklog {
    pub closed spec fn waiting(&self) -> Option<AwaitingPersistence> {
        self.currently_waiting_for
    }

    /// Confirmations held for batches that have not arrived yet.
    pub closed spec fn ahead(&self) -> Seq<(SeqNo, Digest)> {
        self.messages_received_ahead@
    }

    /// A waiting batch always misses at least one confirmation.
    pub open spec fn wf(&self) -> bool {
        match self.waiting() {
            Some(a) => a.pending_spec().len() > 0,
            None => true,
        }
    }

    /// An empty backlog.
    pub fn init_backlog() -> (r: ConsensusBacklog)
        ensures
            r.wf(),
            r.waiting().is_none(),
            r.ahead().len() == 0,
    {
        ConsensusBacklog { currently_waiting_for: None, messages_received_ahead: Vec::new() }
    }

    /// Whether a batch waits, so that the next event to feed is a confirmation.
    pub fn is_waiting(&self) -> (r: bool)
        ensures
            r == self.waiting().is_some(),
    {
        self.currently_waiting_for.is_some()
    }

    /// Takes a decided batch: the confirmations already held for it are
    /// applied; if none is missing the batch is released at once, otherwise
    /// it waits.
    pub fn receive_batch(&mut self, batch_info: BatchExecutionInfo) -> (r: Option<BatchExecutionInfo>)
        requires
            old(self).wf(),
            old(self).waiting().is_none(),
        ensures
            final(self).wf(),
            ({
                let s = batch_info.batch.seq.value;
                let left = remove_each(batch_info.messages_to_persist@, ahead_of(old(self).ahead(), s));
                &&& forall|t: u32| t != s ==> #[trigger] ahead_of(final(self).ahead(), t) == ahead_of(old(self).ahead(), t)
                &&& ahead_of(final(self).ahead(), s).len() == 0
                &&& left.len() == 0 ==> r == Some(batch_info) && final(self).waiting().is_none()
                &&& left.len() > 0 ==> r.is_none() && final(self).waiting().is_some()
                        && final(self).waiting().unwrap().info_spec() == batch_info
                        && final(self).waiting().unwrap().pending_spec() == left
            }),
    {
        let seq = batch_info.batch.seq;
        let mut awaiting = AwaitingPersistence::from(batch_info);
        let ghost pairs = self.messages_received_ahead@;
        // split off what was confirmed ahead for this batch
        let mut taken: Vec<Digest> = Vec::new();
        let mut kept: Vec<(SeqNo, Digest)> = Vec::new();
        let mut i: usize = 0;
        while i < self.messages_received_ahead.len()
            invariant
                self.messages_received_ahead@ == pairs,
                i <= pairs.len(),
                taken@ == ahead_of(pairs.subrange(0, i as int), seq.value),
                ahead_of(kept@, seq.value).len() == 0,
                forall|t: u32| t != seq.value ==> #[trigger] ahead_of(kept@, t) == ahead_of(pairs.subrange(0, i as int), t),
            decreases pairs.len() - i,
        {
            let p = self.messages_received_ahead[i];
            let ghost kb = kept@;
            proof {
                assert(pairs.subrange(0, i as int + 1).drop_last() =~= pairs.subrange(0, i as int));
            }
            if p.0.value == seq.value {
                taken.push(p.1);
            } else {
                kept.push(p);
                proof {
                    assert(kept@.drop_last() =~= kb);
                }
            }
            proof {
                assert forall|t: u32| t != seq.value implies #[trigger] ahead_of(kept@, t) == ahead_of(pairs.subrange(0, i as int + 1), t) by {
                    assert(pairs.subrange(0, i as int + 1).last() == p);
                    assert(ahead_of(kb, t) == ahead_of(pairs.subrange(0, i as int), t));
                    if p.0.value != seq.value {
                        assert(kept@.drop_last() =~= kb);
                        assert(kept@.last() == p);
                    } else {
                        assert(ahead_of(pairs.subrange(0, i as int + 1), t) =~= ahead_of(pairs.subrange(0, i as int), t));
                    }
                }
                if p.0.value != seq.value {
                    assert(kept@.drop_last() =~= kb);
                }
            }
            i += 1;
        }
        proof {
            assert(pairs.subrange(0, pairs.len() as int) =~= pairs);
        }
        self.messages_received_ahead = kept;
        let mut j: usize = 0;
        while j < taken.len()
            invariant
                j <= taken@.len(),
                awaiting.info_spec() == batch_info,
                awaiting.pending_spec() == remove_each(batch_info.messages_to_persist@, taken@.subrange(0, j as int)),
            decreases taken@.len() - j,
        {
            // a confirmation that matches nothing is ignored
            let _ = Self::remove_from_vec(&mut awaiting.pending_requests, &taken[j]);
            proof {
                assert(taken@.subrange(0, j as int + 1).drop_last() =~= taken@.subrange(0, j as int));
            }
            j += 1;
        }
        proof {
            assert(taken@.subrange(0, taken@.len() as int) =~= taken@);
        }
        if awaiting.pending_requests.len() == 0 {
            return Some(awaiting.into_info());
        }
        self.currently_waiting_for = Some(awaiting);
        None
    }

    /// Takes a write confirmation of the log for `seq`: one for the waiting
    /// batch crosses off its message (and releases the batch when nothing
    /// else is missing); one for a later batch is kept for it.
    pub fn message_persisted(&mut self, seq: SeqNo, digest: Digest) -> (r: Option<BatchExecutionInfo>)
        requires
            old(self).wf(),
            old(self).waiting().is_some(),
        ensures
            final(self).wf(),
            ({
                let a = old(self).waiting().unwrap();
                let cur = a.info_spec().batch.seq.value;
                &&& seq.value != cur ==> r.is_none() && final(self).waiting() == old(self).waiting()
                        && final(self).ahead() == old(self).ahead().push((seq, digest))
                &&& seq.value == cur ==> {
                    let left = swap_removed(a.pending_spec(), digest);
                    &&& final(self).ahead() == old(self).ahead()
                    &&& left.len() == 0 ==> r == Some(a.info_spec()) && final(self).waiting().is_none()
                    &&& left.len() > 0 ==> r.is_none() && final(self).waiting().is_some()
                            && final(self).waiting().unwrap().info_spec() == a.info_spec()
                            && final(self).waiting().unwrap().pending_spec() == left
                }
            }),
    {
        let mut awaiting = self.currently_waiting_for.take().unwrap();
        let cur = awaiting.info.batch.seq;
        if cur.value != seq.value {
            self.messages_received_ahead.push((seq, digest));
            self.currently_waiting_for = Some(awaiting);
            return None;
        }
        let _ = Self::remove_from_vec(&mut awaiting.pending_requests, &digest);
        if awaiting.pending_requests.len() == 0 {
            return Some(awaiting.into_info());
        }
        self.currently_waiting_for = Some(awaiting);
        None
    }

    /// Removes the first occurrence of `persisted_message` from `missing_msgs`,
    /// moving the last entry into its place; tells whether there was one.
    pub fn remove_from_vec(missing_msgs: &mut Vec<Digest>, persisted_message: &Digest) -> (r: bool)
        ensures
            r == old(missing_msgs)@.contains(*persisted_message),
            final(missing_msgs)@ == swap_removed(old(missing_msgs)@, *persisted_message),
    {
        let mut i: usize = 0;
        while i < missing_msgs.len()
            invariant
                missing_msgs@ == old(missing_msgs)@,
                i <= missing_msgs@.len(),
                forall|j: int| 0 <= j < i ==> missing_msgs@[j] != *persisted_message,
            decreases missing_msgs@.len() - i,
        {
            if missing_msgs[i] == *persisted_message {
                proof {
                    lemma_first_index(missing_msgs@, *persisted_message, i as int);
                }
                missing_msgs.swap_remove(i);
                proof {
                    let o = old(missing_msgs)@;
                    assert(missing_msgs@ =~= o.update(i as int, o.last()).drop_last());
                }
                return true;
            }
            i += 1;
        }
        false
    }

    /// How a released batch goes to the executor: with a checkpoint request
    /// when its info says so.
    pub fn dispatch_batch(batch: BatchExecutionInfo) -> (r: ExecutorAction)
        ensures
            batch.info == Info::Nil ==> r == ExecutorAction::QueueUpdate(batch),
            batch.info == Info::BeginCheckpoint ==> r == ExecutorAction::QueueUpdateAndGetAppstate(batch),
    {
        match batch.info {
            Info::Nil => ExecutorAction::QueueUpdate(batch),
            Info::BeginCheckpoint => ExecutorAction::QueueUpdateAndGetAppstate(batch),
        }
    }
}

} // verus!
