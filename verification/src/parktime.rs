//! Park deadline table: absolute tick deadlines for blocked waits.
//!
//! The kernel polls it with the current tick count and cancels the tasks whose
//! deadline has passed.
use vstd::prelude::*;
use crate::runqueue::TaskId;

verus! {

/// Concurrent armed park deadlines.
pub const MAX_ARMED: usize = 16;

/// Why [`Table::arm`] failed.
#[derive(Clone, Copy, Debug, PartialEq, Eq, Structural)]
pub enum ArmError {
    /// Table full, and no entry was armed for the task.
    Full,
}

/// One armed deadline, as the table's model sees it.
pub type Armed = Option<(TaskId, u64)>;

/// First entry at or after `from` armed for `task` (`s.len()` if none).
pub open spec fn live_from(s: Seq<Armed>, task: TaskId, from: int) -> int
    decreases s.len() - from,
{
    if from < 0 || from >= s.len() {
        s.len() as int
    } else if s[from] is Some && (s[from]->0).0 == task {
        from
    } else {
        live_from(s, task, from + 1)
    }
}

/// First unarmed entry at or after `from` (`s.len()` if none).
pub open spec fn free_from(s: Seq<Armed>, from: int) -> int
    decreases s.len() - from,
{
    if from < 0 || from >= s.len() {
        s.len() as int
    } else if s[from] is None {
        from
    } else {
        free_from(s, from + 1)
    }
}

/// Whether entry `e` is due at tick `now`.
pub open spec fn due(e: Armed, now: u64) -> bool {
    e is Some && (e->0).1 <= now
}

/// The tasks of the first `n` entries that are due at `now`, in table order.
pub open spec fn due_upto(s: Seq<Armed>, now: u64, n: int) -> Seq<TaskId>
    decreases n,
{
    if n <= 0 {
        Seq::empty()
    } else if due(s[n - 1], now) {
        due_upto(s, now, n - 1).push((s[n - 1]->0).0)
    } else {
        due_upto(s, now, n - 1)
    }
}

/// The table after a poll at `now`: every due entry cleared.
pub open spec fn after_poll(s: Seq<Armed>, now: u64) -> Seq<Armed> {
    Seq::new(s.len(), |i: int| if due(s[i], now) { None } else { s[i] })
}

proof fn lemma_live_from(s: Seq<Armed>, task: TaskId, from: int)
    requires
        0 <= from <= s.len(),
    ensures
        from <= live_from(s, task, from) <= s.len(),
        live_from(s, task, from) < s.len() ==> s[live_from(s, task, from)] is Some
            && (s[live_from(s, task, from)]->0).0 == task,
    decreases s.len() - from,
{
    if from < s.len() && !(s[from] is Some && (s[from]->0).0 == task) {
        lemma_live_from(s, task, from + 1);
    }
}

proof fn lemma_free_from(s: Seq<Armed>, from: int)
    requires
        0 <= from <= s.len(),
    ensures
        from <= free_from(s, from) <= s.len(),
        free_from(s, from) < s.len() ==> s[free_from(s, from)] is None,
    decreases s.len() - from,
{
    if from < s.len() && s[from] is Some {
        lemma_free_from(s, from + 1);
    }
}

proof fn lemma_due_upto_len(s: Seq<Armed>, now: u64, n: int)
    requires
        0 <= n,
    ensures
        due_upto(s, now, n).len() <= n,
    decreases n,
{
    if n > 0 {
        lemma_due_upto_len(s, now, n - 1);
    }
}

#[derive(Clone, Copy)]
struct Entry {
    live: bool,
    task: TaskId,
    deadline: u64,
}

fn empty_entry() -> (e: Entry)
    ensures
        !e.live,
{
    Entry { live: false, task: TaskId::new(0, 0), deadline: 0 }
}

/// Pure park-deadline table.
#[derive(Clone)]
pub struct Table {
    entries: Vec<Entry>,
}

impl Table {
    /// The armed deadlines, one per entry.
    pub closed spec fn armed(&self) -> Seq<Armed> {
        Seq::new(self.entries@.len(), |i: int| {
            let e = self.entries@[i];
            if e.live { Some((e.task, e.deadline)) } else { None }
        })
    }

    pub closed spec fn wf(&self) -> bool {
        self.entries@.len() == MAX_ARMED
    }

    /// No deadline armed.
    pub fn new() -> (t: Table)
        ensures
            t.wf(),
            t.armed() == Seq::new(MAX_ARMED as nat, |i: int| None::<(TaskId, u64)>),
    {
        let mut entries: Vec<Entry> = Vec::new();
        let mut i: usize = 0;
        while i < MAX_ARMED
            invariant
                i <= MAX_ARMED,
                entries@.len() == i,
                forall|j: int| 0 <= j < i ==> !(#[trigger] entries@[j]).live,
            decreases MAX_ARMED - i,
        {
            entries.push(empty_entry());
            i = i + 1;
        }
        let t = Table { entries };
        assert(t.armed() =~= Seq::new(MAX_ARMED as nat, |i: int| None::<(TaskId, u64)>));
        t
    }

    fn find(&self, task: TaskId) -> (r: Option<usize>)
        requires
            self.wf(),
        ensures
            ({
                let k = live_from(self.armed(), task, 0);
                if k < MAX_ARMED { r == Some(k as usize) } else { r is None }
            }),
    {
        let ghost s = self.armed();
        proof {
            lemma_live_from(s, task, 0);
        }
        let mut i: usize = 0;
        while i < self.entries.len()
            invariant
                self.wf(),
                s == self.armed(),
                i <= MAX_ARMED,
                live_from(s, task, 0) == live_from(s, task, i as int),
            decreases MAX_ARMED - i,
        {
            if self.entries[i].live && self.entries[i].task == task {
                return Some(i);
            }
            i = i + 1;
        }
        None
    }

    /// Arm or replace the deadline for `task`: an entry already armed for it
    /// takes the new deadline, otherwise the first free entry does.
    pub fn arm(&mut self, task: TaskId, deadline: u64) -> (r: Result<(), ArmError>)
        requires
            old(self).wf(),
        ensures
            final(self).wf(),
            ({
                let s = old(self).armed();
                let k = live_from(s, task, 0);
                let f = free_from(s, 0);
                if k < MAX_ARMED {
                    r is Ok && final(self).armed() == s.update(k, Some((task, deadline)))
                } else if f < MAX_ARMED {
                    r is Ok && final(self).armed() == s.update(f, Some((task, deadline)))
                } else {
                    r == Err::<(), ArmError>(ArmError::Full) && final(self).armed() == s
                }
            }),
    {
        let ghost s = self.armed();
        proof {
            lemma_free_from(s, 0);
            lemma_live_from(s, task, 0);
        }
        if let Some(i) = self.find(task) {
            self.entries.set(i, Entry { live: true, task, deadline });
            assert(self.armed() =~= s.update(i as int, Some((task, deadline))));
            return Ok(());
        }
        let mut j: usize = 0;
        while j < self.entries.len()
            invariant
                self.wf(),
                s == self.armed(),
                s == old(self).armed(),
                j <= MAX_ARMED,
                live_from(s, task, 0) >= MAX_ARMED,
                free_from(s, 0) == free_from(s, j as int),
            decreases MAX_ARMED - j,
        {
            if !self.entries[j].live {
                self.entries.set(j, Entry { live: true, task, deadline });
                assert(self.armed() =~= s.update(j as int, Some((task, deadline))));
                return Ok(());
            }
            j = j + 1;
        }
        Err(ArmError::Full)
    }

    /// Clear any deadline for `task`.
    pub fn disarm(&mut self, task: TaskId)
        requires
            old(self).wf(),
        ensures
            final(self).wf(),
            ({
                let s = old(self).armed();
                let k = live_from(s, task, 0);
                if k < MAX_ARMED {
                    final(self).armed() == s.update(k, None)
                } else {
                    final(self).armed() == s
                }
            }),
    {
        let ghost s = self.armed();
        proof {
            lemma_live_from(s, task, 0);
        }
        if let Some(i) = self.find(task) {
            self.entries.set(i, empty_entry());
            assert(self.armed() =~= s.update(i as int, None));
        }
    }

    /// Remove every task whose deadline is `<= now`, writing them to the front
    /// of `out` in table order; returns how many were written.
    pub fn poll(&mut self, now: u64, out: &mut [TaskId; MAX_ARMED]) -> (n: usize)
        requires
            old(self).wf(),
        ensures
            final(self).wf(),
            final(self).armed() == after_poll(old(self).armed(), now),
            n == due_upto(old(self).armed(), now, MAX_ARMED as int).len(),
            final(out)@.subrange(0, n as int) == due_upto(old(self).armed(), now, MAX_ARMED as int),
            final(out)@.subrange(n as int, MAX_ARMED as int) == old(out)@.subrange(n as int, MAX_ARMED as int),
    {
        let ghost s = self.armed();
        let ghost o = out@;
        let mut n: usize = 0;
        let mut i: usize = 0;
        while i < self.entries.len()
            invariant
                self.wf(),
                s == old(self).armed(),
                s.len() == MAX_ARMED,
                o == old(out)@,
                out@.len() == MAX_ARMED,
                i <= MAX_ARMED,
                n == due_upto(s, now, i as int).len(),
                n <= i,
                out@.subrange(0, n as int) == due_upto(s, now, i as int),
                out@.subrange(n as int, MAX_ARMED as int) == o.subrange(n as int, MAX_ARMED as int),
                forall|j: int| 0 <= j < i ==> #[trigger] self.armed()[j] == after_poll(s, now)[j],
                forall|j: int| i <= j < MAX_ARMED ==> #[trigger] self.armed()[j] == s[j],
            decreases MAX_ARMED - i,
        {
            let e = self.entries[i];
            let ghost prev = self.armed();
            assert(prev[i as int] == s[i as int]);
            if e.live && e.deadline <= now {
                if n < MAX_ARMED {
                    let ghost before = out@;
                    out[n] = e.task;
                    assert(out@.subrange(0, n + 1) =~= before.subrange(0, n as int).push(e.task));
                    assert(out@.subrange(n + 1, MAX_ARMED as int) =~= before.subrange(n as int, MAX_ARMED as int).subrange(1, MAX_ARMED - n));
                    assert(o.subrange(n + 1, MAX_ARMED as int) =~= o.subrange(n as int, MAX_ARMED as int).subrange(1, MAX_ARMED - n));
                    n = n + 1;
                }
                self.entries.set(i, empty_entry());
                assert(due(s[i as int], now));
            } else {
                assert(!due(s[i as int], now));
            }
            assert(self.armed() =~= prev.update(i as int, after_poll(s, now)[i as int]));
            i = i + 1;
        }
        assert(self.armed() =~= after_poll(s, now));
        n
    }
}

/// A deadline armed for `task` is due exactly when the clock reaches it, and a
/// poll then clears it; a disarmed entry is never due.
pub proof fn lemma_armed_deadline_expires(s: Seq<Armed>, k: int, task: TaskId, deadline: u64, now: u64)
    requires
        0 <= k < s.len(),
    ensures
        due(s.update(k, Some((task, deadline)))[k], now) <==> deadline <= now,
        deadline <= now ==> after_poll(s.update(k, Some((task, deadline))), now)[k] is None,
        !due(s.update(k, None)[k], now),
{
}

impl Default for Table {
    fn default() -> (r: Self)
        ensures
            r.wf(),
            r.armed() == Seq::new(MAX_ARMED as nat, |i: int| None::<(TaskId, u64)>),
    {
        Self::new()
    }
}


} // verus!
