use vstd::prelude::*;
use crate::error::ContractError;
use crate::state::{PendingRequest, PendingView};

verus! {

/// Whether an entry for `id` is outstanding.
pub open spec fn pending_has(s: Seq<(u64, PendingView)>, id: u64) -> bool {
    exists|i: int| 0 <= i < s.len() && s[i].0 == id
}

/// The position of the entry for `id`; unique while ids strictly increase.
pub open spec fn pending_idx(s: Seq<(u64, PendingView)>, id: u64) -> int {
    choose|i: int| 0 <= i < s.len() && s[i].0 == id
}

/// The pending request recorded under `id`.
pub open spec fn pending_at(s: Seq<(u64, PendingView)>, id: u64) -> PendingView {
    s[pending_idx(s, id)].1
}

/// Correlation ids stand in strictly increasing order of allocation.
pub open spec fn ids_increasing(s: Seq<(u64, PendingView)>) -> bool {
    forall|i: int, j: int| 0 <= i < j < s.len() ==> (#[trigger] s[i]).0 < (#[trigger] s[j]).0
}

/// A position holding `id` under strictly increasing ids is the position
/// `pending_idx` picks.
pub proof fn lemma_pending_unique_idx(s: Seq<(u64, PendingView)>, id: u64, i: int)
    requires
        ids_increasing(s),
        0 <= i < s.len(),
        s[i].0 == id,
    ensures
        pending_has(s, id),
        pending_idx(s, id) == i,
{
    assert(pending_has(s, id));
}

/// Once the entry for `id` is removed, no entry for `id` remains: a
/// consumed correlation id cannot be matched a second time.
pub proof fn lemma_consumed_id_not_pending(s: Seq<(u64, PendingView)>, id: u64)
    requires
        ids_increasing(s),
        pending_has(s, id),
    ensures
        !pending_has(s.remove(pending_idx(s, id)), id),
{
    let i = pending_idx(s, id);
    let t = s.remove(i);
    assert forall|j: int| 0 <= j < t.len() implies (#[trigger] t[j]).0 != id by {
        if j < i {
            assert(t[j] == s[j]);
        } else {
            assert(t[j] == s[j + 1]);
        }
    }
}

/// The pending-request tracker: the correlation-id counter together with
/// the outstanding requests, oldest first.
pub struct PendingTracker {
    counter: u64,
    entries: Vec<(u64, PendingRequest)>,
}

/// What the tracker abstracts to.
#[verifier::ext_equal]
pub struct TrackerView {
    pub counter: u64,
    pub entries: Seq<(u64, PendingView)>,
}

impl View for PendingTracker {
    type V = TrackerView;

    closed spec fn view(&self) -> TrackerView {
        TrackerView {
            counter: self.counter,
            entries: self.entries@.map_values(|p: (u64, PendingRequest)| (p.0, p.1@)),
        }
    }
}

impl PendingTracker {
    /// Well-formedness: ids strictly increase with allocation order, and
    /// none exceeds the counter.
    pub open spec fn wf(&self) -> bool {
        &&& ids_increasing(self@.entries)
        &&& forall|i: int|
            0 <= i < self@.entries.len() ==> (#[trigger] self@.entries[i]).0 <= self@.counter
    }

    /// A fresh tracker: counter at zero, nothing outstanding.
    pub fn new() -> (t: Self)
        ensures
            t.wf(),
            t@.counter == 0,
            t@.entries == Seq::<(u64, PendingView)>::empty(),
    {
        let t = PendingTracker { counter: 0, entries: Vec::new() };
        proof {
            assert(t@.entries =~= Seq::<(u64, PendingView)>::empty());
        }
        t
    }

    /// Increments the counter and records a new pending request under the
    /// fresh id, which is returned. Ids are never reused.
    pub fn allocate(&mut self, creator: String, authorized_address: String) -> (id: u64)
        requires
            old(self).wf(),
            old(self)@.counter < u64::MAX,
        ensures
            final(self).wf(),
            id == old(self)@.counter + 1,
            final(self)@.counter == id,
            final(self)@.entries == old(self)@.entries.push(
                (id, PendingView { creator: creator@, authorized_address: authorized_address@ }),
            ),
    {
        let ghost pre = self@;
        self.counter = self.counter + 1;
        let id = self.counter;
        self.entries.push((id, PendingRequest { creator, authorized_address }));
        proof {
            assert(self@.entries =~= pre.entries.push((id, self@.entries[pre.entries.len() as int].1)));
        }
        id
    }

    /// Loads the pending request under `id` without consuming it, or fails
    /// with `PendingRequestNotFound`. Removal is the caller's decision.
    pub fn take(&self, id: u64) -> (r: Result<PendingRequest, ContractError>)
        requires
            self.wf(),
        ensures
            match r {
                Ok(p) => pending_has(self@.entries, id) && p@ == pending_at(self@.entries, id),
                Err(e) => {
                    &&& e matches ContractError::PendingRequestNotFound { id: missing }
                        && missing == id
                    &&& !pending_has(self@.entries, id)
                },
            },
    {
        let mut i: usize = 0;
        while i < self.entries.len()
            invariant
                self.wf(),
                i <= self.entries.len(),
                self@.entries.len() == self.entries@.len(),
                forall|j: int| 0 <= j < i ==> (#[trigger] self@.entries[j]).0 != id,
            decreases self.entries.len() - i,
        {
            if self.entries[i].0 == id {
                proof {
                    lemma_pending_unique_idx(self@.entries, id, i as int);
                }
                return Ok(self.entries[i].1.clone());
            }
            i = i + 1;
        }
        Err(ContractError::PendingRequestNotFound { id })
    }

    /// Deletes the entry under `id` if one is outstanding; idempotent.
    pub fn remove(&mut self, id: u64)
        requires
            old(self).wf(),
        ensures
            final(self).wf(),
            final(self)@.counter == old(self)@.counter,
            pending_has(old(self)@.entries, id) ==> final(self)@.entries == old(
                self,
            )@.entries.remove(pending_idx(old(self)@.entries, id)),
            !pending_has(old(self)@.entries, id) ==> final(self)@ == old(self)@,
    {
        let ghost pre = self@;
        let mut i: usize = 0;
        while i < self.entries.len()
            invariant
                self.wf(),
                i <= self.entries.len(),
                self@.entries.len() == self.entries@.len(),
                self@ == pre,
                pre == old(self)@,
                forall|j: int| 0 <= j < i ==> (#[trigger] self@.entries[j]).0 != id,
            decreases self.entries.len() - i,
        {
            if self.entries[i].0 == id {
                proof {
                    lemma_pending_unique_idx(pre.entries, id, i as int);
                }
                self.entries.remove(i);
                proof {
                    assert(self@.entries =~= pre.entries.remove(i as int));
                    assert forall|p: int, q: int|
                        0 <= p < q < self@.entries.len() implies (#[trigger] self@.entries[p]).0
                        < (#[trigger] self@.entries[q]).0 by {
                        if p < i as int {
                            assert(self@.entries[p] == pre.entries[p]);
                        } else {
                            assert(self@.entries[p] == pre.entries[p + 1]);
                        }
                        if q < i as int {
                            assert(self@.entries[q] == pre.entries[q]);
                        } else {
                            assert(self@.entries[q] == pre.entries[q + 1]);
                        }
                    }
                    assert forall|p: int| 0 <= p < self@.entries.len() implies (
                    #[trigger] self@.entries[p]).0 <= self@.counter by {
                        if p < i as int {
                            assert(self@.entries[p] == pre.entries[p]);
                        } else {
                            assert(self@.entries[p] == pre.entries[p + 1]);
                        }
                    }
                }
                return ;
            }
            i = i + 1;
        }
        proof {
            assert(self@ =~= pre);
        }
    }

    /// The counter's current value: the most recently allocated id, or zero.
    pub fn counter_value(&self) -> (c: u64)
        ensures
            c == self@.counter,
    {
        self.counter
    }

    /// Every outstanding entry, oldest first.
    pub fn entries_list(&self) -> (r: Vec<(u64, PendingRequest)>)
        ensures
            r@.len() == self@.entries.len(),
            forall|i: int|
                0 <= i < self@.entries.len() ==> ((#[trigger] r@[i]).0, r@[i].1@)
                    == self@.entries[i],
    {
        let mut r: Vec<(u64, PendingRequest)> = Vec::new();
        let mut i: usize = 0;
        while i < self.entries.len()
            invariant
                i <= self.entries.len(),
                self@.entries.len() == self.entries@.len(),
                r@.len() == i,
                forall|j: int|
                    0 <= j < i ==> ((#[trigger] r@[j]).0, r@[j].1@) == self@.entries[j],
            decreases self.entries.len() - i,
        {
            let id = self.entries[i].0;
            r.push((id, self.entries[i].1.clone()));
            i = i + 1;
        }
        r
    }

    /// Rebuilds a tracker from a counter and entries as `entries_list`
    /// hands them out: ids strictly increasing, none above the counter.
    pub fn from_entries(counter: u64, entries: Vec<(u64, PendingRequest)>) -> (t: Self)
        requires
            ids_increasing(entries@.map_values(|p: (u64, PendingRequest)| (p.0, p.1@))),
            forall|i: int| 0 <= i < entries@.len() ==> (#[trigger] entries@[i]).0 <= counter,
        ensures
            t.wf(),
            t@.counter == counter,
            t@.entries == entries@.map_values(|p: (u64, PendingRequest)| (p.0, p.1@)),
    {
        let t = PendingTracker { counter, entries };
        proof {
            assert(forall|i: int| 0 <= i < t@.entries.len() ==> (#[trigger] t@.entries[i]).0
                == t.entries@[i].0);
        }
        t
    }
}

/// One allocation, seen abstractly: the id handed out is the successor of
/// the counter before the call, and becomes the new counter value.
pub open spec fn allocate_step(pre: TrackerView, post: TrackerView, id: u64) -> bool {
    id == pre.counter + 1 && post.counter == id
}

/// From a fresh tracker, the ids handed out by any sequence of allocations
/// are exactly 1, 2, ..., N in issuance order; in particular they strictly
/// increase and never repeat.
pub proof fn lemma_correlation_ids(states: Seq<TrackerView>, ids: Seq<u64>)
    requires
        states.len() == ids.len() + 1,
        states[0].counter == 0,
        forall|k: int| 0 <= k < ids.len() ==> allocate_step(states[k], states[k + 1], #[trigger] ids[k]),
    ensures
        forall|k: int| 0 <= k < ids.len() ==> #[trigger] ids[k] == k + 1,
        forall|p: int, q: int| 0 <= p < q < ids.len() ==> #[trigger] ids[p] < #[trigger] ids[q],
{
    assert forall|k: int| 0 <= k < ids.len() implies #[trigger] ids[k] == k + 1 by {
        lemma_counter_after(states, ids, k);
    }
}

proof fn lemma_counter_after(states: Seq<TrackerView>, ids: Seq<u64>, k: int)
    requires
        states.len() == ids.len() + 1,
        states[0].counter == 0,
        forall|j: int| 0 <= j < ids.len() ==> allocate_step(states[j], states[j + 1], #[trigger] ids[j]),
        0 <= k < ids.len(),
    ensures
        states[k].counter == k,
        ids[k] == k + 1,
    decreases k,
{
    if k > 0 {
        lemma_counter_after(states, ids, k - 1);
    }
}

} // verus!
