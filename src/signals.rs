//! A deduplicated min-queue of sequence numbers that await a poll.

use vstd::prelude::*;
use crate::ordering::SeqNo;

verus! {

/// The sequence numbers that were signalled, smallest first, each at most once.
pub struct Signals {
    signaled: Vec<SeqNo>,
}

impl Signals {
    /// The pending numbers in the order in which they leave.
    pub closed spec fn pending(&self) -> Seq<u32> {
        self.signaled@.map_values(|s: SeqNo| s.value)
    }

    /// The set of pending numbers.
    pub open spec fn pending_set(&self) -> Set<u32> {
        self.pending().to_set()
    }

    /// Strictly increasing, so no number is held twice.
    pub closed spec fn wf(&self) -> bool {
        forall|i: int, j: int| 0 <= i < j < self.pending().len() ==> self.pending()[i] < self.pending()[j]
    }

    pub fn new() -> (r: Signals)
        ensures
            r.wf(),
            r.pending().len() == 0,
    {
        Signals { signaled: Vec::new() }
    }

    pub fn len(&self) -> (r: usize)
        ensures
            r == self.pending().len(),
    {
        self.signaled.len()
    }

    /// Removes and returns the smallest pending number.
    pub fn pop_signalled(&mut self) -> (r: Option<SeqNo>)
        requires
            old(self).wf(),
        ensures
            final(self).wf(),
            old(self).pending().len() == 0 ==> r.is_none() && final(self).pending() == old(self).pending(),
            final(self).pending().len() == if old(self).pending().len() == 0 { 0int } else { old(self).pending().len() - 1 },
            old(self).pending().len() > 0 ==> r.is_some() && r.unwrap().value == old(self).pending()[0]
                && final(self).pending() == old(self).pending().drop_first(),
            r.is_some() ==> forall|x: u32| #[trigger] old(self).pending_set().contains(x) ==> r.unwrap().value <= x,
            r.is_some() ==> final(self).pending_set() == old(self).pending_set().remove(r.unwrap().value),
    {
        if self.signaled.len() == 0 {
            return None;
        }
        let s = self.signaled.remove(0);
        proof {
            let o = old(self).pending();
            assert(self.pending() =~= o.drop_first());
            assert forall|x: u32| #[trigger] o.to_set().contains(x) implies s.value <= x by {
                let k = choose|k: int| 0 <= k < o.len() && o[k] == x;
                if k > 0 {
                    assert(o[0] < o[k]);
                }
            }
            assert forall|x: u32| #[trigger] self.pending().to_set().contains(x) <==> o.to_set().remove(s.value).contains(x) by {
                if self.pending().to_set().contains(x) {
                    let k = choose|k: int| 0 <= k < self.pending().len() && self.pending()[k] == x;
                    assert(o[k + 1] == x);
                    assert(o[0] < o[k + 1]);
                }
                if o.to_set().remove(s.value).contains(x) {
                    let k = choose|k: int| 0 <= k < o.len() && o[k] == x;
                    assert(k != 0);
                    assert(self.pending()[k - 1] == x);
                }
            }
            assert(self.pending_set() =~= o.to_set().remove(s.value));
        }
        Some(s)
    }

    /// Marks `seq` as pending; nothing changes if it already is.
    pub fn push_signalled(&mut self, seq: SeqNo)
        requires
            old(self).wf(),
        ensures
            final(self).wf(),
            final(self).pending_set() == old(self).pending_set().insert(seq.value),
            old(self).pending_set().contains(seq.value) ==> final(self).pending() == old(self).pending(),
            final(self).pending().len() == old(self).pending().len()
                + if old(self).pending_set().contains(seq.value) { 0int } else { 1int },
    {
        let mut i: usize = 0;
        while i < self.signaled.len() && self.signaled[i].value < seq.value
            invariant
                self.wf(),
                self.signaled@ == old(self).signaled@,
                i <= self.signaled@.len(),
                forall|j: int| 0 <= j < i ==> self.pending()[j] < seq.value,
            decreases self.signaled@.len() - i,
        {
            i += 1;
        }
        if i < self.signaled.len() && self.signaled[i].value == seq.value {
            proof {
                assert(self.pending()[i as int] == seq.value);
                assert(self.pending().to_set().contains(seq.value));
                assert(self.pending_set().insert(seq.value) =~= self.pending_set());
            }
            return;
        }
        let ghost o = self.pending();
        proof {
            assert forall|k: int| 0 <= k < o.len() implies o[k] != seq.value by {
                if k > i {
                    assert(o[i as int] < o[k]);
                }
            }
        }
        self.signaled.insert(i, seq);
        proof {
            let n = self.pending();
            assert(n =~= o.insert(i as int, seq.value));
            assert forall|a: int, b: int| 0 <= a < b < n.len() implies n[a] < n[b] by {
                if b < i {
                } else if a < i && b == i {
                } else if a < i {
                    assert(n[b] == o[b - 1]);
                    if a < b - 1 { assert(o[a] < o[b - 1]); }
                    else { assert(o[a] < seq.value); }
                } else if a == i {
                    assert(n[b] == o[b - 1]);
                    assert(seq.value < o[i as int]);
                    if b - 1 > i { assert(o[i as int] < o[b - 1]); }
                } else {
                    assert(o[a - 1] < o[b - 1]);
                }
            }
            assert forall|x: u32| #[trigger] n.to_set().contains(x) <==> o.to_set().insert(seq.value).contains(x) by {
                if n.to_set().contains(x) {
                    let k = choose|k: int| 0 <= k < n.len() && n[k] == x;
                    if k < i { assert(o[k] == x); }
                    else if k > i { assert(o[k - 1] == x); }
                }
                if o.to_set().contains(x) {
                    let k = choose|k: int| 0 <= k < o.len() && o[k] == x;
                    if k < i { assert(n[k] == x); }
                    else { assert(n[k + 1] == x); }
                }
                if x == seq.value {
                    assert(n[i as int] == x);
                }
            }
            assert(n.to_set() =~= o.to_set().insert(seq.value));
            assert(!o.to_set().contains(seq.value));
        }
    }

    pub fn clear(&mut self)
        ensures
            final(self).wf(),
            final(self).pending().len() == 0,
    {
        self.signaled.clear();
    }
}

/// Each pending number is held exactly once: the set of pending numbers has
/// as many members as the queue has entries.
pub proof fn lemma_signals_dedup(s: &Signals)
    requires
        s.wf(),
    ensures
        s.pending_set().len() == s.pending().len(),
{
    let p = s.pending();
    assert(p.no_duplicates()) by {
        assert forall|i: int, j: int| 0 <= i < p.len() && 0 <= j < p.len() && i != j implies p[i] != p[j] by {
            if i < j { assert(p[i] < p[j]); } else { assert(p[j] < p[i]); }
        }
    }
    p.unique_seq_to_set();
}

} // verus!
