use vstd::prelude::*;

verus! {

/// A job with the time, in milliseconds, at which it falls due.
pub struct Schedule<J> {
    pub job: J,
    pub due: u64,
}

impl<J> Schedule<J> {
    /// A job that falls due at `due`.
    pub fn new(job: J, due: u64) -> (r: Schedule<J>)
        ensures
            r.job == job,
            r.due == due,
    {
        Schedule { job, due }
    }

    /// A job that is due already at `now`.
    pub fn instant(job: J, now: u64) -> (r: Schedule<J>)
        ensures
            r.job == job,
            r.due == now,
    {
        Schedule { job, due: now }
    }
}

/// Entries ordered by due time, earliest first.
pub open spec fn sorted<J>(s: Seq<Schedule<J>>) -> bool {
    forall|i: int, j: int| 0 <= i < j < s.len() ==> s[i].due <= s[j].due
}

/// `new` is `old` with `e` placed after every entry due no later than it and before every
/// entry due later: ties keep the order in which they were pushed.
pub open spec fn inserted<J>(old: Seq<Schedule<J>>, new: Seq<Schedule<J>>, e: Schedule<J>) -> bool {
    exists|k: int|
        0 <= k <= old.len() && new == old.insert(k, e) && (forall|i: int|
            0 <= i < k ==> old[i].due <= e.due) && (forall|i: int|
            k <= i < old.len() ==> old[i].due > e.due)
}

/// Pending jobs of one worker, popped in order of due time.
pub struct ScheduleQueue<J> {
    entries: Vec<Schedule<J>>,
}

impl<J> View for ScheduleQueue<J> {
    type V = Seq<Schedule<J>>;

    closed spec fn view(&self) -> Seq<Schedule<J>> {
        self.entries@
    }
}

impl<J> ScheduleQueue<J> {
    pub open spec fn wf(&self) -> bool {
        sorted(self@)
    }

    pub fn new() -> (r: ScheduleQueue<J>)
        ensures
            r.wf(),
            r@ == Seq::<Schedule<J>>::empty(),
    {
        ScheduleQueue { entries: Vec::new() }
    }

    pub fn len(&self) -> (r: usize)
        ensures
            r == self@.len(),
    {
        self.entries.len()
    }

    /// Adds an entry behind all entries due no later than it.
    pub fn push(&mut self, e: Schedule<J>)
        requires
            old(self).wf(),
        ensures
            final(self).wf(),
            inserted(old(self)@, final(self)@, e),
    {
        let ghost before = self@;
        let mut k: usize = self.entries.len();
        while k > 0 && self.entries[k - 1].due > e.due
            invariant
                self@ == before,
                sorted(before),
                k <= before.len(),
                forall|i: int| k <= i < before.len() ==> before[i].due > e.due,
            decreases k,
        {
            k = k - 1;
        }
        let ghost due = e.due;
        self.entries.insert(k, e);
        assert(forall|i: int| 0 <= i < k ==> before[i].due <= due) by {
            if k > 0 {
                assert(before[k - 1].due <= due);
            }
        }
        assert(inserted(before, self@, e));
    }

    /// Whether the earliest entry is due at `now`.
    pub fn is_first_due(&self, now: u64) -> (r: bool)
        ensures
            r == (self@.len() > 0 && self@[0].due <= now),
    {
        self.entries.len() > 0 && self.entries[0].due <= now
    }

    /// The due time of the earliest entry: what a timer waits for.
    pub fn first_due(&self) -> (r: Option<u64>)
        ensures
            self@.len() == 0 ==> r is None,
            self@.len() > 0 ==> r == Some(self@[0].due),
    {
        if self.entries.len() == 0 {
            None
        } else {
            Some(self.entries[0].due)
        }
    }

    /// Removes and returns the earliest entry.
    pub fn pop(&mut self) -> (r: Option<Schedule<J>>)
        requires
            old(self).wf(),
        ensures
            final(self).wf(),
            old(self)@.len() == 0 ==> r is None && final(self)@ == old(self)@,
            old(self)@.len() > 0 ==> r == Some(old(self)@[0]) && final(self)@ == old(self)@.drop_first(),
    {
        if self.entries.len() == 0 {
            None
        } else {
            Some(self.entries.remove(0))
        }
    }

    /// The earliest job, removed, where it is due at `now`; otherwise nothing changes.
    pub fn take_due(&mut self, now: u64) -> (r: Option<J>)
        requires
            old(self).wf(),
        ensures
            final(self).wf(),
            old(self)@.len() > 0 && old(self)@[0].due <= now ==> r == Some(old(self)@[0].job)
                && final(self)@ == old(self)@.drop_first(),
            !(old(self)@.len() > 0 && old(self)@[0].due <= now) ==> r is None && final(self)@
                == old(self)@,
    {
        if self.is_first_due(now) {
            match self.pop() {
                Some(s) => Some(s.job),
                None => None,
            }
        } else {
            None
        }
    }
}

/// Where any entry is due at `now`, the earliest entry is: a due job is taken before the
/// worker waits on sockets.
pub proof fn lemma_due_first<J>(q: Seq<Schedule<J>>, now: u64, i: int)
    requires
        sorted(q),
        0 <= i < q.len(),
        q[i].due <= now,
    ensures
        q[0].due <= now,
{
}

/// Pushing an entry due at `now` or later never places it ahead of an entry already due
/// at `now`: such an entry keeps its place, so it is taken within as many turns as there
/// are entries ahead of it, however much new work arrives.
pub proof fn lemma_due_keeps_place<J>(
    old: Seq<Schedule<J>>,
    new: Seq<Schedule<J>>,
    e: Schedule<J>,
    now: u64,
    i: int,
)
    requires
        sorted(old),
        inserted(old, new, e),
        0 <= i < old.len(),
        old[i].due <= now,
        e.due >= now,
    ensures
        new[i] == old[i],
{
    let k = choose|k: int|
        0 <= k <= old.len() && new == old.insert(k, e) && (forall|j: int|
            0 <= j < k ==> old[j].due <= e.due) && (forall|j: int|
            k <= j < old.len() ==> old[j].due > e.due);
    if i >= k {
        assert(old[i].due > e.due);
    }
}

} // verus!
