//! FIFO run queue of task ids — the scheduler's decision half.
//!
//! The queue answers *who runs next*; switching to it stays with the kernel.
use vstd::prelude::*;

verus! {

/// A task id: table slot plus the epoch that tells one tenant of a slot from
/// the next.
#[derive(Clone, Copy, Debug, PartialEq, Eq, Hash, Structural)]
pub struct TaskId {
    slot: u16,
    epoch: u16,
}

impl TaskId {
    pub closed spec fn spec_slot(self) -> u16 {
        self.slot
    }

    pub closed spec fn spec_epoch(self) -> u16 {
        self.epoch
    }

    /// Build from slot and epoch.
    pub fn new(slot: u16, epoch: u16) -> (t: TaskId)
        ensures
            t.spec_slot() == slot,
            t.spec_epoch() == epoch,
    {
        TaskId { slot, epoch }
    }

    /// Table slot.
    pub fn slot(self) -> (r: usize)
        ensures
            r == self.spec_slot(),
    {
        self.slot as usize
    }

    /// Epoch of this tenant.
    pub fn epoch(self) -> (r: u16)
        ensures
            r == self.spec_epoch(),
    {
        self.epoch
    }

    /// Raw transport form: epoch in the high half, slot in the low half.
    pub fn to_raw(self) -> (r: u32)
        ensures
            r == self.spec_epoch() * 0x1_0000 + self.spec_slot(),
    {
        (self.epoch as u32) * 0x1_0000 + self.slot as u32
    }

    /// Inverse of [`Self::to_raw`].
    pub fn from_raw(raw: u32) -> (t: TaskId)
        ensures
            t.spec_slot() == raw % 0x1_0000,
            t.spec_epoch() == raw / 0x1_0000,
    {
        TaskId { slot: (raw % 0x1_0000) as u16, epoch: (raw / 0x1_0000) as u16 }
    }
}

/// Equal ids are equal slot-and-epoch pairs.
pub proof fn lemma_task_id_eq(a: TaskId, b: TaskId)
    ensures
        a == b <==> (a.spec_slot() == b.spec_slot() && a.spec_epoch() == b.spec_epoch()),
{
}

/// The raw transport form round-trips.
pub proof fn lemma_raw_round_trip(t: TaskId)
    ensures
        ({
            let raw = t.spec_epoch() * 0x1_0000 + t.spec_slot();
            raw % 0x1_0000 == t.spec_slot() && raw / 0x1_0000 == t.spec_epoch()
        }),
{
}

/// The queue refused an enqueue because it is at capacity.
#[derive(Clone, Copy, Debug, PartialEq, Eq, Structural)]
pub struct Full;

/// Ring position `i` places after `head` in a ring of `cap`.
pub open spec fn ring_index(head: int, i: int, cap: int) -> int {
    if head + i < cap { head + i } else { head + i - cap }
}

/// Fixed-capacity FIFO of task ids.
#[derive(Clone, Debug)]
pub struct RunQueue<const CAP: usize> {
    slots: Vec<TaskId>,
    head: usize,
    len: usize,
}

impl<const CAP: usize> RunQueue<CAP> {
    /// Head to tail.
    pub closed spec fn view(&self) -> Seq<TaskId> {
        Seq::new(self.len as nat, |i: int| self.slots@[ring_index(self.head as int, i, CAP as int)])
    }

    pub closed spec fn wf(&self) -> bool {
        &&& self.slots@.len() == CAP
        &&& self.len <= CAP
        &&& (CAP == 0 ==> self.head == 0)
        &&& (CAP > 0 ==> self.head < CAP)
    }

    /// Empty queue.
    pub fn new() -> (q: Self)
        ensures
            q.wf(),
            q@ == Seq::<TaskId>::empty(),
    {
        let mut slots: Vec<TaskId> = Vec::new();
        let mut i: usize = 0;
        while i < CAP
            invariant
                i <= CAP,
                slots@.len() == i,
            decreases CAP - i,
        {
            slots.push(TaskId { slot: 0, epoch: 0 });
            i = i + 1;
        }
        let q = RunQueue { slots, head: 0, len: 0 };
        assert(q@ =~= Seq::<TaskId>::empty());
        q
    }

    /// How many ids the queue can hold.
    pub fn capacity(&self) -> (r: usize)
        ensures
            r == CAP,
    {
        CAP
    }

    /// Ids currently queued.
    pub fn len(&self) -> (r: usize)
        ensures
            r == self@.len(),
    {
        self.len
    }

    pub fn is_empty(&self) -> (r: bool)
        ensures
            r == (self@.len() == 0),
    {
        self.len == 0
    }

    pub fn is_full(&self) -> (r: bool)
        ensures
            r == (self@.len() == CAP),
    {
        self.len == CAP
    }

    /// Append at the tail; refused, with the queue untouched, when full.
    pub fn enqueue(&mut self, id: TaskId) -> (r: Result<(), Full>)
        requires
            old(self).wf(),
        ensures
            final(self).wf(),
            old(self)@.len() == CAP ==> r == Err::<(), Full>(Full) && final(self)@ == old(self)@,
            old(self)@.len() < CAP ==> r == Ok::<(), Full>(()) && final(self)@ == old(self)@.push(id),
    {
        if self.len == CAP {
            return Err(Full);
        }
        let tail: usize = if self.head < CAP - self.len {
            self.head + self.len
        } else {
            self.head - (CAP - self.len)
        };
        let ghost before = self@;
        self.slots.set(tail, id);
        self.len = self.len + 1;
        assert(self@ =~= before.push(id));
        Ok(())
    }

    /// Remove and return the head, or `None` when empty.
    pub fn dequeue(&mut self) -> (r: Option<TaskId>)
        requires
            old(self).wf(),
        ensures
            final(self).wf(),
            old(self)@.len() == 0 ==> r is None && final(self)@ == old(self)@,
            old(self)@.len() > 0 ==> r == Some(old(self)@[0]) && final(self)@ == old(self)@.drop_first(),
    {
        if self.len == 0 {
            return None;
        }
        let ghost before = self@;
        let id = self.slots[self.head];
        self.head = if self.head + 1 == CAP { 0 } else { self.head + 1 };
        self.len = self.len - 1;
        assert(self@ =~= before.drop_first());
        Some(id)
    }

    /// The head, without removing it.
    pub fn front(&self) -> (r: Option<TaskId>)
        requires
            self.wf(),
        ensures
            self@.len() == 0 ==> r is None,
            self@.len() > 0 ==> r == Some(self@[0]),
    {
        if self.len == 0 {
            None
        } else {
            Some(self.slots[self.head])
        }
    }

    /// The ready ids in the order a walk visits them: head to tail, following
    /// the ring rather than the slot order.
    pub fn for_each_ready(&self) -> (r: Vec<TaskId>)
        requires
            self.wf(),
        ensures
            r@ == self@,
    {
        let mut out: Vec<TaskId> = Vec::new();
        let mut i: usize = 0;
        while i < self.len
            invariant
                self.wf(),
                i <= self.len,
                out@ == self@.take(i as int),
            decreases self.len - i,
        {
            let at: usize = if self.head < CAP - i { self.head + i } else { self.head - (CAP - i) };
            out.push(self.slots[at]);
            i = i + 1;
            assert(out@ =~= self@.take(i as int));
        }
        assert(self@.take(self.len as int) =~= self@);
        out
    }

    /// Requeue the yielding task (if any), then pick the next one to run.
    ///
    /// A full queue refuses the requeue and is left untouched.
    pub fn after_yield(&mut self, requeue: Option<TaskId>) -> (r: Result<Option<TaskId>, Full>)
        requires
            old(self).wf(),
        ensures
            final(self).wf(),
            ({
                let q = match requeue {
                    Some(id) => old(self)@.push(id),
                    None => old(self)@,
                };
                if requeue is Some && old(self)@.len() == CAP {
                    r == Err::<Option<TaskId>, Full>(Full) && final(self)@ == old(self)@
                } else if q.len() == 0 {
                    r == Ok::<Option<TaskId>, Full>(None) && final(self)@ == q
                } else {
                    r == Ok::<Option<TaskId>, Full>(Some(q[0])) && final(self)@ == q.drop_first()
                }
            }),
    {
        if let Some(id) = requeue {
            let e = self.enqueue(id);
            if e.is_err() {
                return Err(Full);
            }
        }
        Ok(self.dequeue())
    }
}

/// Round-robin: after a yield with others ready, the yielder goes to the back
/// and the old head runs.
pub proof fn lemma_yield_rotates(q: Seq<TaskId>, me: TaskId)
    requires
        q.len() > 0,
    ensures
        q.push(me)[0] == q[0],
        q.push(me).drop_first() == q.drop_first().push(me),
{
    assert(q.push(me).drop_first() =~= q.drop_first().push(me));
}

impl<const CAP: usize> Default for RunQueue<CAP> {
    fn default() -> (r: Self)
        ensures
            r.wf(),
            r@ == Seq::<TaskId>::empty(),
    {
        Self::new()
    }
}


} // verus!
