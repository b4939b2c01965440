//! What the loader will do with a manifest, as data.
//!
//! [`bind`] answers whether the loader may grant an entry and
//! [`AgentEntry::validate`] whether the entry is self-consistent. This module
//! is their composition: the order they are asked in, what an empty table
//! means, and which refusal a caller reports. The loader builds a plan, then
//! walks it.
//!
//! `validate` runs before `bind`: an entry both malformed and over-reaching
//! is reported as malformed.
use vstd::prelude::*;
use crate::cap::CapId;
use crate::manifest::{AgentEntry, BindError, MAX_SLOTS, bind, bound_slot, first_slot_fault, slot_fault, validate_spec};

verus! {

/// Which manifest a plan was made from.
#[derive(Clone, Copy, Debug, PartialEq, Eq, Structural)]
pub enum Source {
    /// An agent store parsed out of the image.
    Store { agents: usize },
    /// The table compiled into the kernel.
    Builtin,
}

/// Why an entry will not be spawned: which check refused, with its error.
#[derive(Clone, Copy, Debug, PartialEq, Eq, Structural)]
pub enum Refusal {
    /// `validate` refused: geometry, image size, or home CPU.
    Invalid(BindError),
    /// `bind` refused: the entry named a capability the loader does not hold.
    Unheld(BindError),
}

/// What the loader will do with one entry.
#[derive(Clone, Copy, Debug, PartialEq, Eq)]
pub enum EntryPlan {
    /// Spawn it, on its home CPU, with these slots already resolved.
    Spawn { index: u8, home_cpu: u8, slots: [Option<CapId>; 4] },
    /// Refuse it, and say which check refused.
    Refuse(Refusal),
}

/// Why no plan could be made at all.
#[derive(Clone, Copy, Debug, PartialEq, Eq, Structural)]
pub enum PlanError {
    /// The manifest has no entries: nothing was asked, so nothing was denied.
    Empty,
    /// `out` is shorter than the table.
    OutTooSmall { entries: usize, capacity: usize },
}

/// Whether `p` is the plan for entry `e` at position `index`: refused by
/// `validate` if it refuses, else by `bind` if it refuses, else spawned with
/// the bound slots.
pub open spec fn planned(p: EntryPlan, e: AgentEntry, index: int, held: Seq<Option<CapId>>, frame_size: usize) -> bool {
    let v = validate_spec(e.text_pages, e.stack_pages, e.image@.len() as usize, e.home_cpu, frame_size);
    let f = first_slot_fault(e.slots@, e.packet_pool, held, 0);
    if v is Err {
        p == EntryPlan::Refuse(Refusal::Invalid(v->Err_0))
    } else if f < MAX_SLOTS {
        p == EntryPlan::Refuse(Refusal::Unheld(slot_fault(e.slots@, e.packet_pool, held, f)->0))
    } else {
        &&& p matches EntryPlan::Spawn { index: i, home_cpu: h, slots }
        &&& i == index as u8
        &&& h == e.home_cpu
        &&& forall|k: int| 0 <= k < MAX_SLOTS ==> #[trigger] slots@[k] == bound_slot(e.slots@, held, k)
    }
}

/// Whether `validate` can be asked of `e` without its capacity overflowing.
pub open spec fn sized(e: AgentEntry, frame_size: usize) -> bool {
    e.text_pages == 0 || e.stack_pages == 0 || e.text_pages * frame_size <= usize::MAX
}

/// Plan every entry of `table` into the front of `out`; returns how many
/// were written. One refusal does not stop the entries after it.
pub fn plan(table: &[AgentEntry], held: &[Option<CapId>], frame_size: usize, out: &mut [EntryPlan]) -> (r: Result<usize, PlanError>)
    requires
        forall|i: int| 0 <= i < table@.len() ==> sized(#[trigger] table@[i], frame_size),
    ensures
        final(out)@.len() == old(out)@.len(),
        table@.len() == 0 ==> r == Err::<usize, PlanError>(PlanError::Empty) && final(out)@ == old(out)@,
        table@.len() > 0 && old(out)@.len() < table@.len() ==> r == Err::<usize, PlanError>(
            PlanError::OutTooSmall { entries: table@.len() as usize, capacity: old(out)@.len() as usize },
        ) && final(out)@ == old(out)@,
        table@.len() > 0 && old(out)@.len() >= table@.len() ==> {
            &&& r == Ok::<usize, PlanError>(table@.len() as usize)
            &&& forall|i: int| 0 <= i < table@.len() ==> planned(#[trigger] final(out)@[i], table@[i], i, held@, frame_size)
            &&& forall|i: int| table@.len() <= i < old(out)@.len() ==> #[trigger] final(out)@[i] == old(out)@[i]
        },
{
    if table.len() == 0 {
        return Err(PlanError::Empty);
    }
    if out.len() < table.len() {
        return Err(PlanError::OutTooSmall { entries: table.len(), capacity: out.len() });
    }
    let ghost o = out@;
    let mut index: usize = 0;
    while index < table.len()
        invariant
            forall|i: int| 0 <= i < table@.len() ==> sized(#[trigger] table@[i], frame_size),
            index <= table@.len(),
            table@.len() <= o.len(),
            out@.len() == o.len(),
            o == old(out)@,
            forall|i: int| 0 <= i < index ==> planned(#[trigger] out@[i], table@[i], i, held@, frame_size),
            forall|i: int| index <= i < o.len() ==> #[trigger] out@[i] == o[i],
        decreases table@.len() - index,
    {
        let entry = &table[index];
        assert(sized(table@[index as int], frame_size));
        let p = match entry.validate(frame_size) {
            Err(e) => EntryPlan::Refuse(Refusal::Invalid(e)),
            Ok(()) => match bind(entry, held) {
                Err(e) => EntryPlan::Refuse(Refusal::Unheld(e)),
                Ok(slots) => EntryPlan::Spawn { index: index as u8, home_cpu: entry.home_cpu, slots },
            },
        };
        out[index] = p;
        index = index + 1;
    }
    Ok(table.len())
}

} // verus!
