//! The guard between the agreement engine and the proposer: whether the
//! proposer may propose, and into which sequence numbers.

use vstd::prelude::*;
use crate::ordering::SeqNo;
use crate::message::{NodeId, ViewInfo};

verus! {

/// A client request as the proposer tracks it: who sent it, in which
/// session, and at which place in that session.
#[derive(Clone, Copy, PartialEq, Eq, Structural, Debug)]
pub struct ClientRqInfo {
    pub sender: NodeId,
    pub session: SeqNo,
    pub seq_no: SeqNo,
}

/// Whether `s` is sorted in non-decreasing order.
pub open spec fn sorted(s: Seq<u32>) -> bool {
    forall|i: int, j: int| 0 <= i <= j < s.len() ==> s[i] <= s[j]
}

/// The latest place recorded for `(sender, session)` among `rqs`: the
/// largest one, as folding the requests into a map keeps it.
pub open spec fn latest_seq(rqs: Seq<ClientRqInfo>, sender: NodeId, session: u32) -> Option<u32>
    decreases rqs.len(),
{
    if rqs.len() == 0 {
        None
    } else {
        let prev = latest_seq(rqs.drop_last(), sender, session);
        let last = rqs.last();
        if last.sender == sender && last.session.value == session {
            match prev {
                Some(v) => if v < last.seq_no.value { Some(last.seq_no.value) } else { Some(v) },
                None => Some(last.seq_no.value),
            }
        } else {
            prev
        }
    }
}

/// The entry of `(sender, session)` that was recorded last, if any.
pub open spec fn lookup_last(e: Seq<ClientRqInfo>, sender: NodeId, session: u32) -> Option<u32>
    decreases e.len(),
{
    if e.len() == 0 {
        None
    } else if e.last().sender == sender && e.last().session.value == session {
        Some(e.last().seq_no.value)
    } else {
        lookup_last(e.drop_last(), sender, session)
    }
}

/// The proposer guard.
pub struct ProposerConsensusGuard {
    can_propose: bool,
    seq_no_queue: Vec<SeqNo>,
    view: ViewInfo,
    has_pending_view_change_reqs: bool,
    last_view_change: Option<Vec<ClientRqInfo>>,
}

impl ProposerConsensusGuard {
    pub closed spec fn can_propose_spec(&self) -> bool {
        self.can_propose
    }

    /// The sequence numbers available to the proposer, smallest first.
    pub closed spec fn available(&self) -> Seq<u32> {
        self.seq_no_queue@.map_values(|s: SeqNo| s.value)
    }

    pub closed spec fn view_seq_spec(&self) -> u32 {
        self.view.seq.value
    }

    pub closed spec fn view_f_spec(&self) -> u32 {
        self.view.f
    }

    pub closed spec fn view_leaders_spec(&self) -> Seq<NodeId> {
        self.view.leaders@
    }

    pub closed spec fn pending_sync_spec(&self) -> bool {
        self.has_pending_view_change_reqs
    }

    /// The requests of the last synchronisation, if any are held.
    pub closed spec fn sync_entries(&self) -> Option<Seq<ClientRqInfo>> {
        match self.last_view_change {
            Some(v) => Some(v@),
            None => None,
        }
    }

    /// The available numbers are kept in order, smallest first.
    pub open spec fn wf(&self) -> bool {
        sorted(self.available())
    }

    /// A closed guard for `view` with no sequence number available.
    pub fn new(view: ViewInfo) -> (r: ProposerConsensusGuard)
        ensures
            r.wf(),
            !r.can_propose_spec(),
            r.available().len() == 0,
            r.view_seq_spec() == view.seq.value,
            r.view_f_spec() == view.f,
            r.view_leaders_spec() == view.leaders@,
            !r.pending_sync_spec(),
            r.sync_entries().is_none(),
    {
        let r = ProposerConsensusGuard {
            can_propose: false,
            seq_no_queue: Vec::new(),
            view,
            has_pending_view_change_reqs: false,
            last_view_change: None,
        };
        proof {
            assert(r.available() =~= Seq::<u32>::empty());
        }
        r
    }

    /// Whether the proposer may propose now.
    pub fn can_propose(&self) -> (r: bool)
        ensures
            r == self.can_propose_spec(),
    {
        self.can_propose
    }

    /// Everything but the open/closed bit is unchanged.
    pub open spec fn same_but_lock(&self, other: &ProposerConsensusGuard) -> bool {
        &&& self.wf() == other.wf()
        &&& self.available() == other.available()
        &&& self.view_seq_spec() == other.view_seq_spec()
        &&& self.view_f_spec() == other.view_f_spec()
        &&& self.view_leaders_spec() == other.view_leaders_spec()
        &&& self.pending_sync_spec() == other.pending_sync_spec()
        &&& self.sync_entries() == other.sync_entries()
    }

    /// Closes the guard: the proposer may not propose.
    pub fn lock_consensus(&mut self)
        ensures
            !final(self).can_propose_spec(),
            final(self).same_but_lock(old(self)),
    {
        self.can_propose = false;
    }

    /// Opens the guard; parked proposers are woken by whoever holds the guard.
    pub fn unlock_consensus(&mut self)
        ensures
            final(self).can_propose_spec(),
            final(self).same_but_lock(old(self)),
    {
        self.can_propose = true;
    }

    /// Takes the smallest available sequence number, bound to the current view.
    pub fn next_seq_no(&mut self) -> (r: Option<(SeqNo, ViewInfo)>)
        requires
            old(self).wf(),
        ensures
            final(self).wf(),
            final(self).can_propose_spec() == old(self).can_propose_spec(),
            final(self).view_seq_spec() == old(self).view_seq_spec(),
            final(self).view_f_spec() == old(self).view_f_spec(),
            final(self).view_leaders_spec() == old(self).view_leaders_spec(),
            final(self).pending_sync_spec() == old(self).pending_sync_spec(),
            final(self).sync_entries() == old(self).sync_entries(),
            old(self).available().len() == 0 ==> r.is_none() && final(self).available() == old(self).available(),
            old(self).available().len() > 0 ==> r.is_some()
                && r.unwrap().0.value == old(self).available()[0]
                && r.unwrap().1.seq.value == old(self).view_seq_spec()
                && r.unwrap().1.leaders@ == old(self).view_leaders_spec()
                && r.unwrap().1.f == old(self).view_f_spec()
                && final(self).available() == old(self).available().drop_first(),
    {
        if self.seq_no_queue.len() == 0 {
            return None;
        }
        let s = self.seq_no_queue.remove(0);
        proof {
            assert(self.available() =~= old(self).available().drop_first());
        }
        Some((s, self.view.duplicate()))
    }

    /// Makes `seq` available to the proposer.
    pub fn make_seq_available(&mut self, seq: SeqNo)
        requires
            old(self).wf(),
        ensures
            final(self).wf(),
            final(self).can_propose_spec() == old(self).can_propose_spec(),
            final(self).view_seq_spec() == old(self).view_seq_spec(),
            final(self).view_f_spec() == old(self).view_f_spec(),
            final(self).view_leaders_spec() == old(self).view_leaders_spec(),
            final(self).pending_sync_spec() == old(self).pending_sync_spec(),
            final(self).sync_entries() == old(self).sync_entries(),
            exists|k: int| 0 <= k <= old(self).available().len()
                && final(self).available() == old(self).available().insert(k, seq.value),
            forall|x: u32| #[trigger] final(self).available().contains(x)
                <==> (old(self).available().contains(x) || x == seq.value),
    {
        let mut i: usize = 0;
        while i < self.seq_no_queue.len() && self.seq_no_queue[i].value <= seq.value
            invariant
                self.wf(),
                self.seq_no_queue@ == old(self).seq_no_queue@,
                self.view == old(self).view,
                i <= self.seq_no_queue@.len(),
                forall|j: int| 0 <= j < i ==> self.available()[j] <= seq.value,
            decreases self.seq_no_queue@.len() - i,
        {
            i += 1;
        }
        let ghost o = self.available();
        self.seq_no_queue.insert(i, seq);
        proof {
            let n = self.available();
            assert(n =~= o.insert(i as int, seq.value));
            assert forall|x: u32| #[trigger] n.contains(x) <==> (o.contains(x) || x == seq.value) by {
                if n.contains(x) {
                    let j = choose|j: int| 0 <= j < n.len() && n[j] == x;
                    if j < i { assert(o[j] == x); } else if j > i { assert(o[j - 1] == x); }
                }
                if o.contains(x) {
                    let j = choose|j: int| 0 <= j < o.len() && o[j] == x;
                    if j < i { assert(n[j] == x); } else { assert(n[j + 1] == x); }
                }
                if x == seq.value {
                    assert(n[i as int] == x);
                }
            }
            assert forall|a: int, b: int| 0 <= a <= b < n.len() implies n[a] <= n[b] by {
                if b < i {
                } else if a < i && b == i {
                } else if a < i {
                    assert(o[a] <= o[b - 1]);
                } else if a == i && b > i {
                    assert(seq.value < o[i as int]);
                    assert(o[i as int] <= o[b - 1]);
                } else if a > i {
                    assert(o[a - 1] <= o[b - 1]);
                }
            }
        }
    }

    /// Withdraws every available sequence number below `installed_seq`.
    pub fn install_seq_no(&mut self, installed_seq: SeqNo)
        requires
            old(self).wf(),
        ensures
            final(self).wf(),
            final(self).can_propose_spec() == old(self).can_propose_spec(),
            final(self).view_seq_spec() == old(self).view_seq_spec(),
            final(self).view_f_spec() == old(self).view_f_spec(),
            final(self).view_leaders_spec() == old(self).view_leaders_spec(),
            final(self).pending_sync_spec() == old(self).pending_sync_spec(),
            final(self).sync_entries() == old(self).sync_entries(),
            exists|k: int| 0 <= k <= old(self).available().len()
                && final(self).available() == old(self).available().subrange(k, old(self).available().len() as int)
                && (forall|j: int| 0 <= j < k ==> old(self).available()[j] < installed_seq.value)
                && (forall|j: int| k <= j < old(self).available().len() ==> old(self).available()[j] >= installed_seq.value),
            (forall|j: int| 0 <= j < old(self).available().len() ==> old(self).available()[j] >= installed_seq.value)
                ==> *final(self) == *old(self),
    {
        let ghost o = self.available();
        let ghost mut k: int = 0;
        while self.seq_no_queue.len() > 0 && self.seq_no_queue[0].value < installed_seq.value
            invariant
                self.wf(),
                sorted(o),
                o == old(self).available(),
                self.can_propose == old(self).can_propose,
                self.view == old(self).view,
                self.has_pending_view_change_reqs == old(self).has_pending_view_change_reqs,
                self.last_view_change == old(self).last_view_change,
                k == 0 ==> *self == *old(self),
                0 <= k <= o.len(),
                self.available() == o.subrange(k, o.len() as int),
                forall|j: int| 0 <= j < k ==> o[j] < installed_seq.value,
            decreases self.seq_no_queue@.len(),
        {
            let ghost before = self.available();
            proof {
                assert(before.len() == self.seq_no_queue@.len());
                assert(before[0] == self.seq_no_queue@[0].value);
                assert(before[0] == o.subrange(k, o.len() as int)[0]);
                assert(o[k] == before[0]);
            }
            self.seq_no_queue.remove(0);
            proof {
                assert(self.available() =~= before.drop_first());
                assert(self.available() =~= o.subrange(k + 1, o.len() as int));
                k = k + 1;
            }
        }
        proof {
            assert forall|j: int| k <= j < o.len() implies o[j] >= installed_seq.value by {
                assert(o[k] == self.available()[0]);
                assert(o[k] <= o[j]);
            }
            if forall|j: int| 0 <= j < o.len() ==> #[trigger] o[j] >= installed_seq.value {
                if k > 0 {
                    assert(o[0] < installed_seq.value);
                }
            }
        }
    }

    /// Installs a new view; the sequence numbers of the old one are withdrawn.
    pub fn install_view(&mut self, view: ViewInfo)
        ensures
            final(self).wf(),
            final(self).can_propose_spec() == old(self).can_propose_spec(),
            final(self).available().len() == 0,
            final(self).view_seq_spec() == view.seq.value,
            final(self).view_f_spec() == view.f,
            final(self).view_leaders_spec() == view.leaders@,
            final(self).pending_sync_spec() == old(self).pending_sync_spec(),
            final(self).sync_entries() == old(self).sync_entries(),
    {
        self.view = view;
        self.seq_no_queue.clear();
        proof {
            assert(self.available() =~= Seq::<u32>::empty());
        }
    }

    /// Withdraws every available sequence number, keeping the view.
    pub fn clear(&mut self)
        ensures
            final(self).wf(),
            final(self).can_propose_spec() == old(self).can_propose_spec(),
            final(self).available().len() == 0,
            final(self).view_seq_spec() == old(self).view_seq_spec(),
            final(self).view_f_spec() == old(self).view_f_spec(),
            final(self).view_leaders_spec() == old(self).view_leaders_spec(),
            final(self).pending_sync_spec() == old(self).pending_sync_spec(),
            final(self).sync_entries() == old(self).sync_entries(),
    {
        self.seq_no_queue.clear();
        proof {
            assert(self.available() =~= Seq::<u32>::empty());
        }
    }

    /// Number of available sequence numbers.
    pub fn available_count(&self) -> (r: usize)
        ensures
            r == self.available().len(),
    {
        self.seq_no_queue.len()
    }

    pub fn has_pending_view_change_reqs(&self) -> (r: bool)
        ensures
            r == self.pending_sync_spec(),
    {
        self.has_pending_view_change_reqs
    }

    /// The latest place in `(sender, session)` that the last synchronisation
    /// carried, if it carried any request of that session.
    pub fn last_view_change(&self, sender: NodeId, session: SeqNo) -> (r: Option<SeqNo>)
        ensures
            self.sync_entries().is_none() ==> r.is_none(),
            self.sync_entries().is_some() ==> match r {
                Some(s) => lookup_last(self.sync_entries().unwrap(), sender, session.value) == Some(s.value),
                None => lookup_last(self.sync_entries().unwrap(), sender, session.value).is_none(),
            },
    {
        match &self.last_view_change {
            None => None,
            Some(e) => lookup_entries(e, sender, session),
        }
    }

    /// Records the requests that a synchronisation carried, keeping for each
    /// client session the latest place, so that the proposer does not
    /// propose them again.
    pub fn install_sync_message_requests(&mut self, rqs: Vec<ClientRqInfo>)
        requires
            old(self).wf(),
        ensures
            final(self).wf(),
            final(self).pending_sync_spec(),
            final(self).sync_entries().is_some(),
            forall|sender: NodeId, session: u32|
                lookup_last(final(self).sync_entries().unwrap(), sender, session) == #[trigger] latest_seq(rqs@, sender, session),
            final(self).can_propose_spec() == old(self).can_propose_spec(),
            final(self).available() == old(self).available(),
            final(self).view_seq_spec() == old(self).view_seq_spec(),
            final(self).view_f_spec() == old(self).view_f_spec(),
            final(self).view_leaders_spec() == old(self).view_leaders_spec(),
    {
        let mut entries: Vec<ClientRqInfo> = Vec::new();
        let mut i: usize = 0;
        while i < rqs.len()
            invariant
                i <= rqs@.len(),
                forall|sender: NodeId, session: u32|
                    lookup_last(entries@, sender, session) == #[trigger] latest_seq(rqs@.subrange(0, i as int), sender, session),
            decreases rqs@.len() - i,
        {
            let rq = rqs[i];
            let ghost pre = rqs@.subrange(0, i as int);
            let ghost before = entries@;
            proof {
                assert(rqs@.subrange(0, i as int + 1).drop_last() =~= pre);
            }
            let cur = lookup_entries(&entries, rq.sender, rq.session);
            let keep = match cur {
                Some(v) => v.value >= rq.seq_no.value,
                None => false,
            };
            if !keep {
                entries.push(rq);
            }
            proof {
                assert forall|sender: NodeId, session: u32|
                    lookup_last(entries@, sender, session) == #[trigger] latest_seq(rqs@.subrange(0, i as int + 1), sender, session) by {
                    assert(rqs@.subrange(0, i as int + 1).last() == rq);
                    assert(lookup_last(before, sender, session) == latest_seq(pre, sender, session));
                    assert(lookup_last(before, rq.sender, rq.session.value) == latest_seq(pre, rq.sender, rq.session.value));
                    if !keep {
                        assert(entries@.drop_last() =~= before);
                    }
                }
            }
            i += 1;
        }
        proof {
            assert(rqs@.subrange(0, rqs@.len() as int) =~= rqs@);
        }
        self.last_view_change = Some(entries);
        self.has_pending_view_change_reqs = true;
    }

    /// Forgets the requests of the last synchronisation.
    pub fn sync_messages_clear(&mut self)
        ensures
            !final(self).pending_sync_spec(),
            final(self).sync_entries().is_none(),
            final(self).wf() == old(self).wf(),
            final(self).can_propose_spec() == old(self).can_propose_spec(),
            final(self).available() == old(self).available(),
            final(self).view_seq_spec() == old(self).view_seq_spec(),
            final(self).view_f_spec() == old(self).view_f_spec(),
            final(self).view_leaders_spec() == old(self).view_leaders_spec(),
    {
        self.last_view_change = None;
        self.has_pending_view_change_reqs = false;
    }
}

fn lookup_entries(e: &Vec<ClientRqInfo>, sender: NodeId, session: SeqNo) -> (r: Option<SeqNo>)
    ensures
        match r {
            Some(s) => lookup_last(e@, sender, session.value) == Some(s.value),
            None => lookup_last(e@, sender, session.value).is_none(),
        },
{
    let mut i: usize = e.len();
    proof {
        assert(e@.subrange(0, e@.len() as int) =~= e@);
    }
    while i > 0
        invariant
            i <= e@.len(),
            lookup_last(e@, sender, session.value) == lookup_last(e@.subrange(0, i as int), sender, session.value),
        decreases i,
    {
        proof {
            assert(e@.subrange(0, i as int).drop_last() =~= e@.subrange(0, i - 1));
        }
        if e[i - 1].sender == sender && e[i - 1].session.value == session.value {
            return Some(e[i - 1].seq_no);
        }
        i -= 1;
    }
    None
}

} // verus!
