use vstd::prelude::*;
use crate::check::CheckResult;

verus! {

/// Most host checks in flight at once in parallel mode.
pub const MAX_CONCURRENT_CHECKS: usize = 20;

/// What the runner of a batch of checks is to do next.
#[derive(Debug, Clone, Copy, PartialEq, Eq, Structural)]
pub enum ScheduleStep {
    /// Start the check of the host at this index (after `launch`).
    Launch(usize),
    /// Wait for a check in flight to complete.
    Wait,
    /// Every check has completed: take the results.
    Done,
}

/// The admission control and the ordered collection of a batch of host checks.
/// Checks start in host order, at most `limit` of them in flight at once;
/// each result goes to the slot of its host, whatever the order in which
/// they complete.
pub struct CheckSchedule {
    /// Number of hosts in the batch.
    pub total: usize,
    /// Most checks in flight at once.
    pub limit: usize,
    /// Index of the next host to start.
    pub next: usize,
    /// Checks started and not yet completed.
    pub in_flight: usize,
    /// The result of each host, once its check has completed.
    pub slots: Vec<Option<CheckResult>>,
}

/// How many of the first `upto` slots are still empty.
pub open spec fn pending(slots: Seq<Option<CheckResult>>, upto: int) -> nat
    decreases upto,
{
    if upto <= 0 {
        0
    } else {
        pending(slots, upto - 1) + (if slots[upto - 1] is None {
            1nat
        } else {
            0nat
        })
    }
}

proof fn lemma_pending_fill(slots: Seq<Option<CheckResult>>, upto: int, idx: int, r: CheckResult)
    requires
        0 <= idx < upto <= slots.len(),
        slots[idx] is None,
    ensures
        pending(slots, upto) == pending(slots.update(idx, Some(r)), upto) + 1,
    decreases upto,
{
    if upto - 1 > idx {
        lemma_pending_fill(slots, upto - 1, idx, r);
    } else {
        lemma_pending_same(slots, slots.update(idx, Some(r)), upto - 1);
    }
}

proof fn lemma_pending_same(a: Seq<Option<CheckResult>>, b: Seq<Option<CheckResult>>, upto: int)
    requires
        0 <= upto <= a.len(),
        upto <= b.len(),
        forall|i: int| 0 <= i < upto ==> a[i] == b[i],
    ensures
        pending(a, upto) == pending(b, upto),
    decreases upto,
{
    if upto > 0 {
        lemma_pending_same(a, b, upto - 1);
    }
}

proof fn lemma_pending_zero(slots: Seq<Option<CheckResult>>, upto: int)
    requires
        0 <= upto <= slots.len(),
        pending(slots, upto) == 0,
    ensures
        forall|i: int| 0 <= i < upto ==> (#[trigger] slots[i]) is Some,
    decreases upto,
{
    if upto > 0 {
        lemma_pending_zero(slots, upto - 1);
    }
}

impl CheckSchedule {
    pub open spec fn wf(&self) -> bool {
        &&& 1 <= self.limit <= MAX_CONCURRENT_CHECKS
        &&& self.next <= self.total
        &&& self.slots@.len() == self.total
        &&& self.in_flight == pending(self.slots@, self.next as int)
        &&& self.in_flight <= self.limit
        &&& forall|i: int| self.next <= i < self.total ==> (#[trigger] self.slots@[i]) is None
    }

    /// A schedule for `total` hosts: up to the concurrency cap in flight in
    /// parallel mode, one at a time otherwise.
    pub fn new(total: usize, parallel: bool) -> (r: Self)
        ensures
            r.wf(),
            r.total == total,
            r.limit == (if parallel {
                MAX_CONCURRENT_CHECKS
            } else {
                1
            }),
            r.next == 0,
            r.in_flight == 0,
    {
        let mut slots: Vec<Option<CheckResult>> = Vec::new();
        let mut i: usize = 0;
        while i < total
            invariant
                i <= total,
                slots@.len() == i,
                forall|k: int| 0 <= k < i ==> (#[trigger] slots@[k]) is None,
            decreases total - i,
        {
            slots.push(None);
            i = i + 1;
        }
        let limit = if parallel {
            MAX_CONCURRENT_CHECKS
        } else {
            1
        };
        CheckSchedule { total, limit, next: 0, in_flight: 0, slots }
    }

    /// What to do next: start the next host while a slot is free, else wait
    /// while checks are in flight, else take the results.
    pub fn next_step(&self) -> (r: ScheduleStep)
        requires
            self.wf(),
        ensures
            self.next < self.total && self.in_flight < self.limit ==> r == ScheduleStep::Launch(
                self.next,
            ),
            !(self.next < self.total && self.in_flight < self.limit) && self.in_flight > 0 ==> r
                == ScheduleStep::Wait,
            !(self.next < self.total && self.in_flight < self.limit) && self.in_flight == 0 ==> r
                == ScheduleStep::Done,
            r == ScheduleStep::Done ==> self.next == self.total && self.in_flight == 0,
    {
        if self.next < self.total && self.in_flight < self.limit {
            ScheduleStep::Launch(self.next)
        } else if self.in_flight > 0 {
            ScheduleStep::Wait
        } else {
            ScheduleStep::Done
        }
    }

    /// Admits the next host: takes one of the admission slots and returns the host's
    /// index.
    pub fn launch(&mut self) -> (idx: usize)
        requires
            old(self).wf(),
            old(self).next < old(self).total,
            old(self).in_flight < old(self).limit,
        ensures
            final(self).wf(),
            idx == old(self).next,
            final(self).next == old(self).next + 1,
            final(self).in_flight == old(self).in_flight + 1,
            final(self).total == old(self).total,
            final(self).limit == old(self).limit,
            final(self).slots@ == old(self).slots@,
    {
        let idx = self.next;
        self.next = self.next + 1;
        self.in_flight = self.in_flight + 1;
        idx
    }

    /// Whether the host at `idx` has been started and has no result yet.
    pub fn is_pending(&self, idx: usize) -> (r: bool)
        requires
            self.wf(),
        ensures
            r == (idx < self.next && self.slots@[idx as int] is None),
    {
        idx < self.next && self.slots[idx].is_none()
    }

    /// Stores the result of the host at `idx` and frees its admission slot.
    pub fn complete(&mut self, idx: usize, result: CheckResult)
        requires
            old(self).wf(),
            idx < old(self).next,
            old(self).slots@[idx as int] is None,
        ensures
            final(self).wf(),
            final(self).slots@ == old(self).slots@.update(idx as int, Some(result)),
            final(self).in_flight == old(self).in_flight - 1,
            final(self).next == old(self).next,
            final(self).total == old(self).total,
            final(self).limit == old(self).limit,
    {
        proof {
            lemma_pending_fill(self.slots@, self.next as int, idx as int, result);
        }
        self.slots.set(idx, Some(result));
        self.in_flight = self.in_flight - 1;
    }

    /// The results, in the order of the hosts: one per host, the one that
    /// was stored at its index.
    pub fn finish(self) -> (r: Vec<CheckResult>)
        requires
            self.wf(),
            self.next == self.total,
            self.in_flight == 0,
        ensures
            r@.len() == self.total,
            forall|i: int| 0 <= i < self.total ==> Some(#[trigger] r@[i]) == self.slots@[i],
    {
        proof {
            lemma_pending_zero(self.slots@, self.total as int);
        }
        let ghost all = self.slots@;
        let mut slots = self.slots;
        let mut out: Vec<CheckResult> = Vec::new();
        while slots.len() > 0
            invariant
                out@.len() + slots@.len() == all.len(),
                slots@ == all.subrange(out@.len() as int, all.len() as int),
                forall|i: int| 0 <= i < all.len() ==> (#[trigger] all[i]) is Some,
                forall|i: int| 0 <= i < out@.len() ==> Some(#[trigger] out@[i]) == all[i],
            decreases slots@.len(),
        {
            let ghost k = out@.len() as int;
            assert(slots@[0] == all[k]);
            let first = slots.remove(0);
            assert(slots@ =~= all.subrange(k + 1, all.len() as int));
            match first {
                Some(result) => {
                    out.push(result);
                },
                None => {
                    assert(false);
                },
            }
        }
        out
    }
}

/// However the checks complete, no more than the concurrency cap of them
/// are ever in flight.
pub proof fn lemma_in_flight_bounded(s: CheckSchedule)
    requires
        s.wf(),
    ensures
        s.in_flight <= MAX_CONCURRENT_CHECKS,
{
}

} // verus!
