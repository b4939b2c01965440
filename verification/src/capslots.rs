//! Per-task capability slots.
//!
//! The whole of what an EL0 agent may name is a slot index into its own row
//! here. This table owns the storage and every slot decision: resolution,
//! install occupancy, the transfer arithmetic with its endpoint-only filter,
//! and the drain on exit. The kernel keeps what a pure table cannot know: who
//! is asking and whether the destination task is live.
//!
//! An out-of-range row refuses like an out-of-range slot rather than
//! panicking.
use vstd::prelude::*;
use crate::cap::{CapClass, CapId, SlotError, class_of, from_slot, spec_from_slot};

verus! {

/// Why [`Table::install`] refused: slot out of range and slot occupied are
/// one class on purpose.
#[derive(Clone, Copy, Debug, PartialEq, Eq, Structural)]
pub enum InstallError {
    BadSlot,
}

/// Why [`Table::transfer`] refused. Destination liveness is not slot
/// arithmetic, and stays a kernel refusal.
#[derive(Clone, Copy, Debug, PartialEq, Eq, Structural)]
pub enum TransferError {
    /// Source slot empty or out of range.
    BadFromSlot,
    /// Destination slot already holds a cap.
    ToSlotFull,
    /// Destination slot index out of range.
    ToSlotOob,
    /// Moved object is not an IPC endpoint cap.
    Untransferable,
}

/// The bounds check of a transfer: source first, then destination.
pub open spec fn bounds_spec(slots: usize, from_slot: usize, to_slot: usize) -> Result<(), TransferError> {
    if from_slot >= slots {
        Err(TransferError::BadFromSlot)
    } else if to_slot >= slots {
        Err(TransferError::ToSlotOob)
    } else {
        Ok(())
    }
}

/// A row of `n` empty slots.
pub open spec fn empty_row(n: nat) -> Seq<Option<CapId>> {
    Seq::new(n, |i: int| None::<CapId>)
}

/// Pure slot table: `TASKS` rows of `SLOTS` capability slots.
#[derive(Clone)]
pub struct Table<const TASKS: usize, const SLOTS: usize> {
    slots: Vec<Vec<Option<CapId>>>,
}

impl<const TASKS: usize, const SLOTS: usize> Table<TASKS, SLOTS> {
    /// Each task's row of slots.
    pub closed spec fn rows(&self) -> Seq<Seq<Option<CapId>>> {
        Seq::new(self.slots@.len(), |i: int| self.slots@[i]@)
    }

    pub closed spec fn wf(&self) -> bool {
        &&& self.slots@.len() == TASKS
        &&& forall|i: int| 0 <= i < TASKS ==> (#[trigger] self.slots@[i])@.len() == SLOTS
    }

    fn empty_vec_row() -> (r: Vec<Option<CapId>>)
        ensures
            r@ == empty_row(SLOTS as nat),
    {
        let mut row: Vec<Option<CapId>> = Vec::new();
        let mut j: usize = 0;
        while j < SLOTS
            invariant
                j <= SLOTS,
                row@ == empty_row(j as nat),
            decreases SLOTS - j,
        {
            row.push(None);
            j = j + 1;
            assert(row@ =~= empty_row(j as nat));
        }
        row
    }

    /// Every slot empty.
    pub fn new() -> (t: Self)
        ensures
            t.wf(),
            t.rows() == Seq::new(TASKS as nat, |i: int| empty_row(SLOTS as nat)),
    {
        let mut slots: Vec<Vec<Option<CapId>>> = Vec::new();
        let mut i: usize = 0;
        while i < TASKS
            invariant
                i <= TASKS,
                slots@.len() == i,
                forall|k: int| 0 <= k < i ==> (#[trigger] slots@[k])@ == empty_row(SLOTS as nat),
            decreases TASKS - i,
        {
            slots.push(Self::empty_vec_row());
            i = i + 1;
        }
        let t = Table { slots };
        assert(t.rows() =~= Seq::new(TASKS as nat, |i: int| empty_row(SLOTS as nat)));
        t
    }

    /// Resolve `slot` in `task`'s row; an out-of-range task answers as a row
    /// with no slots.
    pub fn get(&self, task: usize, slot: usize) -> (r: Result<CapId, SlotError>)
        requires
            self.wf(),
        ensures
            r == if task < TASKS {
                spec_from_slot(self.rows()[task as int], slot)
            } else {
                Err(SlotError::OutOfRange { slot, slots: 0 })
            },
    {
        if task >= self.slots.len() {
            return Err(SlotError::OutOfRange { slot, slots: 0 });
        }
        from_slot(self.slots[task].as_slice(), slot)
    }

    /// Whether `task`'s row holds `cap` in any slot.
    pub fn holds(&self, task: usize, cap: CapId) -> (r: bool)
        requires
            self.wf(),
        ensures
            r == (task < TASKS && self.rows()[task as int].contains(Some(cap))),
    {
        if task >= self.slots.len() {
            return false;
        }
        let row = &self.slots[task];
        let mut i: usize = 0;
        while i < row.len()
            invariant
                i <= row@.len(),
                task < TASKS,
                self.wf(),
                row@ == self.rows()[task as int],
                forall|j: int| 0 <= j < i ==> row@[j] != Some(cap),
            decreases row@.len() - i,
        {
            if row[i] == Some(cap) {
                assert(row@[i as int] == Some(cap));
                return true;
            }
            i = i + 1;
        }
        false
    }

    /// A spawn's initial row, holes included. Slots past `caps.len()` are
    /// cleared; an out-of-range task changes nothing.
    pub fn seed(&mut self, task: usize, caps: &[Option<CapId>])
        requires
            old(self).wf(),
        ensures
            final(self).wf(),
            task >= TASKS ==> final(self).rows() == old(self).rows(),
            task < TASKS ==> final(self).rows() == old(self).rows().update(
                task as int,
                Seq::new(SLOTS as nat, |i: int| if i < caps@.len() { caps@[i] } else { None::<CapId> }),
            ),
    {
        if task >= self.slots.len() {
            return;
        }
        let mut row: Vec<Option<CapId>> = Vec::new();
        let mut i: usize = 0;
        while i < SLOTS
            invariant
                i <= SLOTS,
                row@ == Seq::new(i as nat, |k: int| if k < caps@.len() { caps@[k] } else { None::<CapId> }),
            decreases SLOTS - i,
        {
            let v = if i < caps.len() { caps[i] } else { None };
            row.push(v);
            i = i + 1;
            assert(row@ =~= Seq::new(i as nat, |k: int| if k < caps@.len() { caps@[k] } else { None::<CapId> }));
        }
        let ghost before = self.rows();
        self.slots.set(task, row);
        assert(self.rows() =~= before.update(
            task as int,
            Seq::new(SLOTS as nat, |i: int| if i < caps@.len() { caps@[i] } else { None::<CapId> }),
        ));
    }

    /// Install `cap` into `task`'s empty `slot`.
    pub fn install(&mut self, task: usize, slot: usize, cap: CapId) -> (r: Result<(), InstallError>)
        requires
            old(self).wf(),
        ensures
            final(self).wf(),
            task < TASKS && slot < SLOTS && old(self).rows()[task as int][slot as int] is None ==> r is Ok
                && final(self).rows() == old(self).rows().update(
                task as int,
                old(self).rows()[task as int].update(slot as int, Some(cap)),
            ),
            !(task < TASKS && slot < SLOTS && old(self).rows()[task as int][slot as int] is None) ==> r
                == Err::<(), InstallError>(InstallError::BadSlot) && final(self).rows() == old(self).rows(),
    {
        if task >= self.slots.len() || slot >= SLOTS {
            return Err(InstallError::BadSlot);
        }
        if self.slots[task][slot].is_some() {
            return Err(InstallError::BadSlot);
        }
        let ghost before = self.rows();
        let mut row: Vec<Option<CapId>> = Vec::new();
        self.slots.set_and_swap(task, &mut row);
        row.set(slot, Some(cap));
        self.slots.set(task, row);
        assert(self.rows() =~= before.update(task as int, before[task as int].update(slot as int, Some(cap))));
        Ok(())
    }

    /// The bounds half of [`Self::transfer`], callable on its own: the kernel
    /// asks it before its liveness check, then the full transfer.
    pub fn transfer_bounds(from_slot: usize, to_slot: usize) -> (r: Result<(), TransferError>)
        ensures
            r == bounds_spec(SLOTS, from_slot, to_slot),
    {
        if from_slot >= SLOTS {
            return Err(TransferError::BadFromSlot);
        }
        if to_slot >= SLOTS {
            return Err(TransferError::ToSlotOob);
        }
        Ok(())
    }

    /// Move `from_task`'s cap at `from_slot` into `to_task`'s empty `to_slot`.
    /// Refusals, in order: source row or slot out of range, destination row or
    /// slot out of range, then (unless it
    /// is the same slot, a no-op) an empty source, a moved object that is not
    /// an endpoint cap, an occupied destination.
    pub fn transfer(&mut self, from_task: usize, from_slot: usize, to_task: usize, to_slot: usize) -> (r: Result<(), TransferError>)
        requires
            old(self).wf(),
        ensures
            final(self).wf(),
            ({
                let rows = old(self).rows();
                let src = rows[from_task as int][from_slot as int];
                if from_task >= TASKS || from_slot >= SLOTS {
                    r == Err::<(), TransferError>(TransferError::BadFromSlot) && final(self).rows() == rows
                } else if to_task >= TASKS || to_slot >= SLOTS {
                    r == Err::<(), TransferError>(TransferError::ToSlotOob) && final(self).rows() == rows
                } else if from_task == to_task && from_slot == to_slot {
                    r is Ok && final(self).rows() == rows
                } else if src is None {
                    r == Err::<(), TransferError>(TransferError::BadFromSlot) && final(self).rows() == rows
                } else if !(class_of(src->0.spec_index()) is Endpoint) {
                    r == Err::<(), TransferError>(TransferError::Untransferable) && final(self).rows() == rows
                } else if rows[to_task as int][to_slot as int] is Some {
                    r == Err::<(), TransferError>(TransferError::ToSlotFull) && final(self).rows() == rows
                } else {
                    let cleared = rows.update(from_task as int, rows[from_task as int].update(from_slot as int, None));
                    &&& r is Ok
                    &&& final(self).rows() == cleared.update(to_task as int, cleared[to_task as int].update(to_slot as int, src))
                }
            }),
    {
        // An out-of-range row refuses like an out-of-range slot.
        if from_task >= TASKS || from_slot >= SLOTS {
            return Err(TransferError::BadFromSlot);
        }
        if to_task >= TASKS || to_slot >= SLOTS {
            return Err(TransferError::ToSlotOob);
        }
        if from_task == to_task && from_slot == to_slot {
            return Ok(());
        }
        let cap = match self.slots[from_task][from_slot] {
            Some(c) => c,
            None => return Err(TransferError::BadFromSlot),
        };
        match cap.classify() {
            CapClass::Endpoint(_) => {},
            _ => return Err(TransferError::Untransferable),
        }
        if self.slots[to_task][to_slot].is_some() {
            return Err(TransferError::ToSlotFull);
        }
        let ghost rows = self.rows();
        let mut row: Vec<Option<CapId>> = Vec::new();
        self.slots.set_and_swap(from_task, &mut row);
        row.set(from_slot, None);
        self.slots.set(from_task, row);
        let ghost cleared = rows.update(from_task as int, rows[from_task as int].update(from_slot as int, None));
        assert(self.rows() =~= cleared);
        let mut row2: Vec<Option<CapId>> = Vec::new();
        self.slots.set_and_swap(to_task, &mut row2);
        row2.set(to_slot, Some(cap));
        self.slots.set(to_task, row2);
        assert(self.rows() =~= cleared.update(to_task as int, cleared[to_task as int].update(to_slot as int, Some(cap))));
        Ok(())
    }

    /// Take and clear `task`'s row (on exit), for hold release. An
    /// out-of-range task drains an empty row.
    pub fn drain(&mut self, task: usize) -> (r: Vec<Option<CapId>>)
        requires
            old(self).wf(),
        ensures
            final(self).wf(),
            task >= TASKS ==> r@ == empty_row(SLOTS as nat) && final(self).rows() == old(self).rows(),
            task < TASKS ==> r@ == old(self).rows()[task as int] && final(self).rows() == old(self).rows().update(
                task as int,
                empty_row(SLOTS as nat),
            ),
    {
        let mut row = Self::empty_vec_row();
        if task >= self.slots.len() {
            return row;
        }
        let ghost rows = self.rows();
        self.slots.set_and_swap(task, &mut row);
        assert(self.rows() =~= rows.update(task as int, empty_row(SLOTS as nat)));
        row
    }
}

/// A transfer conserves capabilities: the moved id leaves its source and
/// appears at its destination, and every other slot keeps what it held.
pub proof fn lemma_transfer_conserves(
    rows: Seq<Seq<Option<CapId>>>,
    from_task: int,
    from_slot: int,
    to_task: int,
    to_slot: int,
    t: int,
    s: int,
)
    requires
        0 <= from_task < rows.len(),
        0 <= to_task < rows.len(),
        0 <= from_slot < rows[from_task].len(),
        0 <= to_slot < rows[to_task].len(),
        !(from_task == to_task && from_slot == to_slot),
        0 <= t < rows.len(),
        0 <= s < rows[t].len(),
        !(t == from_task && s == from_slot),
        !(t == to_task && s == to_slot),
    ensures
        ({
            let src = rows[from_task][from_slot];
            let cleared = rows.update(from_task, rows[from_task].update(from_slot, None));
            let moved = cleared.update(to_task, cleared[to_task].update(to_slot, src));
            &&& moved[to_task][to_slot] == src
            &&& moved[from_task][from_slot] is None
            &&& moved[t][s] == rows[t][s]
        }),
{
}

impl<const TASKS: usize, const SLOTS: usize> Default for Table<TASKS, SLOTS> {
    fn default() -> (r: Self)
        ensures
            r.wf(),
            r.rows() == Seq::new(TASKS as nat, |i: int| empty_row(SLOTS as nat)),
    {
        Self::new()
    }
}


} // verus!
