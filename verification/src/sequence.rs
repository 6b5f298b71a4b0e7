//! Acquisition sequencing: a per-lock counter that stamps every acquisition
//! attempt with a strictly increasing sequence number, starting at 1, used
//! to correlate the "requested", "acquired" and "released" trace lines of
//! one logical operation.

use vstd::prelude::*;

verus! {

/// A per-lock acquisition sequencer. `issued` is the history of the numbers
/// handed out so far, oldest first.
pub struct Sequencer {
    pub count: u64,
    pub issued: Ghost<Seq<u64>>,
}

impl Sequencer {
    /// The sequencer has issued exactly the numbers `1..=count`, in order.
    pub open spec fn wf(self) -> bool {
        &&& self.issued@.len() == self.count
        &&& forall|i: int| 0 <= i < self.issued@.len() ==> self.issued@[i] == i + 1
    }

    /// A fresh sequencer that has issued nothing.
    pub fn new() -> (r: Self)
        ensures
            r.wf(),
            r.count == 0,
            r.issued@ == Seq::<u64>::empty(),
    {
        Sequencer { count: 0, issued: Ghost(Seq::empty()) }
    }

    /// Issues the next sequence number: one more than everything issued
    /// before.
    pub fn next(&mut self) -> (r: u64)
        requires
            old(self).wf(),
            old(self).count < u64::MAX,
        ensures
            final(self).wf(),
            r == old(self).count + 1,
            final(self).count == r,
            final(self).issued@ == old(self).issued@.push(r),
    {
        self.count = self.count + 1;
        let ghost history = self.issued@.push(self.count);
        proof {
            self.issued@ = history;
        }
        self.count
    }
}

/// Law: no two acquisitions ever observe the same sequence number — the
/// issued history is pairwise distinct.
pub proof fn lemma_issued_distinct(s: Sequencer, i: int, j: int)
    requires
        s.wf(),
        0 <= i < s.issued@.len(),
        0 <= j < s.issued@.len(),
        i != j,
    ensures
        s.issued@[i] != s.issued@[j],
{
}

/// Law: after `count` acquisitions the issued numbers are exactly a
/// permutation of `1..=count` — no gaps and no duplicates.
pub proof fn lemma_issued_permutation(s: Sequencer)
    requires
        s.wf(),
    ensures
        forall|v: u64| s.issued@.contains(v) <==> 1 <= v <= s.count,
{
    assert forall|v: u64| s.issued@.contains(v) <==> 1 <= v <= s.count by {
        if 1 <= v <= s.count {
            assert(s.issued@[v - 1] == v);
        }
        if s.issued@.contains(v) {
            let i = choose|i: int| 0 <= i < s.issued@.len() && s.issued@[i] == v;
            assert(v == i + 1);
        }
    }
}

} // verus!
