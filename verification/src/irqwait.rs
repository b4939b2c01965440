//! IRQ wait table: one waiter per cookie, one cookie per waiter.
//!
//! Pending marks carry the full task id, so a delivery posted for a task that
//! has since exited cannot be consumed by the slot's next tenant.
use vstd::prelude::*;
use crate::runqueue::TaskId;

verus! {

/// How many concurrent IRQ waits the table can hold.
pub const MAX_WAITERS: usize = 8;

/// Task slot space for pending marks.
pub const MAX_TASK_IDS: usize = 64;

/// Why `arm` refused.
#[derive(Clone, Copy, Debug, PartialEq, Eq, Structural)]
pub enum ArmError {
    /// `task` is out of range for the pending marks.
    BadTask,
    /// Another task waits on this cookie.
    CookieBusy,
    /// The task waits on another cookie.
    TaskBusy,
    /// Every waiter slot is in use.
    Full,
}

/// One waiter slot: the cookie and the task armed on it (if any).
pub type Waiter = (u32, Option<TaskId>);

/// The first conflict an arm of `task` on `cookie` meets, scanning slots from
/// `from`: a slot armed on the same cookie, or one holding the same task.
pub open spec fn conflict_from(w: Seq<Waiter>, cookie: u32, task: TaskId, from: int) -> Option<ArmError>
    decreases w.len() - from,
{
    if from < 0 || from >= w.len() {
        None
    } else if w[from].1 is Some && w[from].0 == cookie {
        Some(ArmError::CookieBusy)
    } else if w[from].1 == Some(task) {
        Some(ArmError::TaskBusy)
    } else {
        conflict_from(w, cookie, task, from + 1)
    }
}

/// First unarmed slot at or after `from`.
pub open spec fn idle_from(w: Seq<Waiter>, from: int) -> int
    decreases w.len() - from,
{
    if from < 0 || from >= w.len() {
        w.len() as int
    } else if w[from].1 is None {
        from
    } else {
        idle_from(w, from + 1)
    }
}

/// First slot at or after `from` armed on `cookie`.
pub open spec fn armed_from(w: Seq<Waiter>, cookie: u32, from: int) -> int
    decreases w.len() - from,
{
    if from < 0 || from >= w.len() {
        w.len() as int
    } else if w[from].1 is Some && w[from].0 == cookie {
        from
    } else {
        armed_from(w, cookie, from + 1)
    }
}

proof fn lemma_idle_from(w: Seq<Waiter>, from: int)
    requires
        0 <= from <= w.len(),
    ensures
        from <= idle_from(w, from) <= w.len(),
        idle_from(w, from) < w.len() ==> w[idle_from(w, from)].1 is None,
    decreases w.len() - from,
{
    if from < w.len() && w[from].1 is Some {
        lemma_idle_from(w, from + 1);
    }
}

proof fn lemma_armed_from(w: Seq<Waiter>, cookie: u32, from: int)
    requires
        0 <= from <= w.len(),
    ensures
        from <= armed_from(w, cookie, from) <= w.len(),
        armed_from(w, cookie, from) < w.len() ==> w[armed_from(w, cookie, from)].1 is Some
            && w[armed_from(w, cookie, from)].0 == cookie,
    decreases w.len() - from,
{
    if from < w.len() && !(w[from].1 is Some && w[from].0 == cookie) {
        lemma_armed_from(w, cookie, from + 1);
    }
}

/// Pure wait table: arm on the voluntary path, signal from IRQ logic.
#[derive(Clone, Debug)]
pub struct WaitTable {
    cookies: Vec<u32>,
    tasks: Vec<Option<TaskId>>,
    pending: Vec<Option<TaskId>>,
}

impl WaitTable {
    /// The waiter slots.
    pub closed spec fn waiters(&self) -> Seq<Waiter> {
        Seq::new(MAX_WAITERS as nat, |i: int| (self.cookies@[i], self.tasks@[i]))
    }

    /// Pending marks, by task slot.
    pub closed spec fn pending(&self) -> Seq<Option<TaskId>> {
        self.pending@
    }

    pub closed spec fn wf(&self) -> bool {
        &&& self.cookies@.len() == MAX_WAITERS
        &&& self.tasks@.len() == MAX_WAITERS
        &&& self.pending@.len() == MAX_TASK_IDS
    }

    /// Nothing armed, nothing pending.
    pub fn new() -> (t: WaitTable)
        ensures
            t.wf(),
            forall|i: int| 0 <= i < MAX_WAITERS ==> #[trigger] t.waiters()[i].1 is None,
            forall|i: int| 0 <= i < MAX_TASK_IDS ==> #[trigger] t.pending()[i] is None,
    {
        let mut cookies: Vec<u32> = Vec::new();
        let mut tasks: Vec<Option<TaskId>> = Vec::new();
        let mut i: usize = 0;
        while i < MAX_WAITERS
            invariant
                i <= MAX_WAITERS,
                cookies@.len() == i,
                tasks@.len() == i,
                forall|j: int| 0 <= j < i ==> tasks@[j] is None,
            decreases MAX_WAITERS - i,
        {
            cookies.push(0);
            tasks.push(None);
            i = i + 1;
        }
        let mut pending: Vec<Option<TaskId>> = Vec::new();
        let mut k: usize = 0;
        while k < MAX_TASK_IDS
            invariant
                k <= MAX_TASK_IDS,
                pending@.len() == k,
                forall|j: int| 0 <= j < k ==> pending@[j] is None,
            decreases MAX_TASK_IDS - k,
        {
            pending.push(None);
            k = k + 1;
        }
        WaitTable { cookies, tasks, pending }
    }

    /// Arm `task` to wake when `cookie` is signalled. Refusals, in order: a
    /// task outside the pending range, then the first slot that conflicts
    /// (same cookie, or same task), then a full table.
    pub fn arm(&mut self, cookie: u32, task: TaskId) -> (r: Result<(), ArmError>)
        requires
            old(self).wf(),
        ensures
            final(self).wf(),
            final(self).pending() == old(self).pending(),
            ({
                let w = old(self).waiters();
                if task.spec_slot() >= MAX_TASK_IDS {
                    r == Err::<(), ArmError>(ArmError::BadTask) && final(self).waiters() == w
                } else if conflict_from(w, cookie, task, 0) is Some {
                    r == Err::<(), ArmError>(conflict_from(w, cookie, task, 0)->0) && final(self).waiters() == w
                } else if idle_from(w, 0) < w.len() {
                    r == Ok::<(), ArmError>(()) && final(self).waiters() == w.update(idle_from(w, 0), (cookie, Some(task)))
                } else {
                    r == Err::<(), ArmError>(ArmError::Full) && final(self).waiters() == w
                }
            }),
    {
        let ghost w = self.waiters();
        proof {
            lemma_idle_from(w, 0);
        }
        if task.slot() >= MAX_TASK_IDS {
            return Err(ArmError::BadTask);
        }
        let mut i: usize = 0;
        while i < MAX_WAITERS
            invariant
                self.wf(),
                self.waiters() == w,
                self.pending@ == old(self).pending@,
                w == old(self).waiters(),
                i <= MAX_WAITERS,
                task.spec_slot() < MAX_TASK_IDS,
                conflict_from(w, cookie, task, 0) == conflict_from(w, cookie, task, i as int),
            decreases MAX_WAITERS - i,
        {
            assert(w[i as int] == (self.cookies@[i as int], self.tasks@[i as int]));
            if let Some(t) = self.tasks[i] {
                if self.cookies[i] == cookie {
                    assert(conflict_from(w, cookie, task, i as int) == Some(ArmError::CookieBusy));
                    return Err(ArmError::CookieBusy);
                }
                if t == task {
                    assert(conflict_from(w, cookie, task, i as int) == Some(ArmError::TaskBusy));
                    return Err(ArmError::TaskBusy);
                }
            }
            assert(conflict_from(w, cookie, task, i as int) == conflict_from(w, cookie, task, i + 1));
            i = i + 1;
        }
        let mut j: usize = 0;
        while j < MAX_WAITERS
            invariant
                self.wf(),
                self.waiters() == w,
                self.pending@ == old(self).pending@,
                w == old(self).waiters(),
                j <= MAX_WAITERS,
                task.spec_slot() < MAX_TASK_IDS,
                conflict_from(w, cookie, task, 0) is None,
                idle_from(w, 0) == idle_from(w, j as int),
            decreases MAX_WAITERS - j,
        {
            assert(w[j as int] == (self.cookies@[j as int], self.tasks@[j as int]));
            if self.tasks[j].is_none() {
                assert(idle_from(w, j as int) == j);
                self.cookies.set(j, cookie);
                self.tasks.set(j, Some(task));
                assert(self.waiters() =~= w.update(j as int, (cookie, Some(task))));
                return Ok(());
            }
            j = j + 1;
        }
        Err(ArmError::Full)
    }

    /// Drop every arm held by `task`.
    pub fn disarm_task(&mut self, task: TaskId)
        requires
            old(self).wf(),
        ensures
            final(self).wf(),
            final(self).pending() == old(self).pending(),
            final(self).waiters() == Seq::new(MAX_WAITERS as nat, |i: int| {
                let e = old(self).waiters()[i];
                if e.1 == Some(task) { (e.0, None::<TaskId>) } else { e }
            }),
    {
        let ghost w = self.waiters();
        let mut i: usize = 0;
        while i < MAX_WAITERS
            invariant
                self.wf(),
                self.pending@ == old(self).pending@,
                w == old(self).waiters(),
                i <= MAX_WAITERS,
                forall|j: int| 0 <= j < MAX_WAITERS ==> #[trigger] self.cookies@[j] == w[j].0,
                forall|j: int| 0 <= j < MAX_WAITERS ==> #[trigger] self.tasks@[j] == if j < i && w[j].1 == Some(task) { None::<TaskId> } else { w[j].1 },
            decreases MAX_WAITERS - i,
        {
            if self.tasks[i] == Some(task) {
                self.tasks.set(i, None);
            }
            i = i + 1;
        }
        assert(self.waiters() =~= Seq::new(MAX_WAITERS as nat, |i: int| {
            let e = w[i];
            if e.1 == Some(task) { (e.0, None::<TaskId>) } else { e }
        }));
    }

    /// IRQ path: the first waiter armed on `cookie` is disarmed, marked
    /// pending under its full id, and returned for waking.
    pub fn signal(&mut self, cookie: u32) -> (r: Option<TaskId>)
        requires
            old(self).wf(),
        ensures
            final(self).wf(),
            ({
                let w = old(self).waiters();
                let k = armed_from(w, cookie, 0);
                if k < w.len() {
                    let t = w[k].1->0;
                    &&& r == Some(t)
                    &&& final(self).waiters() == w.update(k, (w[k].0, None::<TaskId>))
                    &&& final(self).pending() == if t.spec_slot() < MAX_TASK_IDS {
                        old(self).pending().update(t.spec_slot() as int, Some(t))
                    } else {
                        old(self).pending()
                    }
                } else {
                    r is None && *final(self) == *old(self)
                }
            }),
    {
        let ghost w = self.waiters();
        proof {
            lemma_armed_from(w, cookie, 0);
        }
        let mut i: usize = 0;
        while i < MAX_WAITERS
            invariant
                self.wf(),
                *self == *old(self),
                self.waiters() == w,
                w == old(self).waiters(),
                i <= MAX_WAITERS,
                armed_from(w, cookie, 0) == armed_from(w, cookie, i as int),
            decreases MAX_WAITERS - i,
        {
            if self.tasks[i].is_some() && self.cookies[i] == cookie {
                assert(armed_from(w, cookie, i as int) == i);
                let task = self.tasks[i].unwrap();
                self.tasks.set(i, None);
                assert(self.waiters() =~= w.update(i as int, (w[i as int].0, None::<TaskId>)));
                if task.slot() < MAX_TASK_IDS {
                    self.pending.set(task.slot(), Some(task));
                }
                return Some(task);
            }
            i = i + 1;
        }
        None
    }

    /// Consume the pending mark for exactly this id. A mark left for the
    /// slot's previous tenant is neither consumed nor cleared.
    pub fn take_pending(&mut self, task: TaskId) -> (r: bool)
        requires
            old(self).wf(),
        ensures
            final(self).wf(),
            final(self).waiters() == old(self).waiters(),
            r == (task.spec_slot() < MAX_TASK_IDS && old(self).pending()[task.spec_slot() as int] == Some(task)),
            r ==> final(self).pending() == old(self).pending().update(task.spec_slot() as int, None),
            !r ==> final(self).pending() == old(self).pending(),
    {
        let i = task.slot();
        if i >= MAX_TASK_IDS || self.pending[i] != Some(task) {
            return false;
        }
        self.pending.set(i, None);
        true
    }

    /// Whether `task` still has a pending delivery (non-consuming).
    pub fn is_pending(&self, task: TaskId) -> (r: bool)
        requires
            self.wf(),
        ensures
            r == (task.spec_slot() < MAX_TASK_IDS && self.pending()[task.spec_slot() as int] == Some(task)),
    {
        let i = task.slot();
        i < MAX_TASK_IDS && self.pending[i] == Some(task)
    }
}

/// No lost wake-up: once a waiter armed on a cookie is signalled, its own id
/// (and only its own id) finds the delivery pending.
pub proof fn lemma_signal_then_pending(pending: Seq<Option<TaskId>>, t: TaskId, other: TaskId)
    requires
        pending.len() == MAX_TASK_IDS,
        t.spec_slot() < MAX_TASK_IDS,
        other.spec_slot() == t.spec_slot(),
        other != t,
    ensures
        pending.update(t.spec_slot() as int, Some(t))[t.spec_slot() as int] == Some(t),
        pending.update(t.spec_slot() as int, Some(t))[other.spec_slot() as int] != Some(other),
{
}

impl Default for WaitTable {
    fn default() -> (r: Self)
        ensures
            r.wf(),
            forall|i: int| 0 <= i < MAX_WAITERS ==> #[trigger] r.waiters()[i].1 is None,
            forall|i: int| 0 <= i < MAX_TASK_IDS ==> #[trigger] r.pending()[i] is None,
    {
        Self::new()
    }
}


} // verus!
