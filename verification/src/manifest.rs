//! The table that says which agents exist and what authority each is given.
//!
//! An entry cannot name a capability. It names an index into the loader's
//! own list of capabilities, and [`bind`] turns that index into a [`CapId`] by
//! indexing: there is nothing outside the loader's list for an entry to reach,
//! so a manifest cannot escalate whatever it says. The same holds one layer
//! over for device windows and [`bind_window`].
use vstd::prelude::*;
use crate::cap::CapId;
use crate::held::Window;
use crate::paging::Perms;
use crate::tasks::N_CPUS;

verus! {

/// Capability slots an agent may be given.
pub const MAX_SLOTS: usize = 4;

/// Capability indices at and above this boundary belong to the network
/// packet-pool vocabulary and require an explicit packet-pool grant.
pub const PACKET_CAPABILITY_START: u8 = 3;

/// One page of MMIO an agent is allowed to reach: where it lands, and which
/// declared window it is. The physical address is not here at all.
#[derive(Clone, Copy, Debug, PartialEq, Eq, Structural)]
pub struct DeviceGrant {
    /// Virtual address inside the agent's own window.
    pub va: u64,
    /// Index into the loader's window vocabulary.
    pub window: u8,
}

/// One agent, as data.
#[derive(Clone, Copy, Debug)]
pub struct AgentEntry {
    /// What the boot log calls it.
    pub name: &'static str,
    /// The flat image, mapped at the window base and entered at offset 0.
    pub image: &'static [u8],
    /// Executable pages. The image must fit inside them.
    pub text_pages: usize,
    /// Writable pages above the text, ending at the initial stack pointer.
    pub stack_pages: usize,
    /// Slot `i` holds the capability at index `slots[i]` of the loader's list.
    pub slots: [Option<u8>; 4],
    /// Permit this agent to use the non-ambient resolve grant.
    pub may_resolve: bool,
    /// One optional device page.
    pub device: Option<DeviceGrant>,
    /// Grant the fixed packet-pool mapping owned by the network service.
    pub packet_pool: bool,
    /// Sticky home CPU, in `0 .. N_CPUS`.
    pub home_cpu: u8,
}

/// Why an entry could not be turned into a task's capability table or a
/// window.
#[derive(Clone, Copy, Debug, PartialEq, Eq, Structural)]
pub enum BindError {
    /// The entry named a capability the loader does not hold.
    NoSuchCapability { slot: usize, index: u8, held: usize },
    /// The entry named a position that exists in the vocabulary and holds
    /// nothing.
    HeldVacant { slot: usize, index: u8 },
    /// A network capability was named without the packet-pool mapping.
    PacketPoolRequired { slot: usize, index: u8 },
    /// The entry named a device window past the end of the vocabulary.
    NoSuchWindow { index: u8, windows: usize },
    /// The entry named a declared window that holds nothing this boot.
    WindowVacant { index: u8 },
    /// The image does not fit in the text pages the entry declared.
    ImageTooLarge { bytes: usize, capacity: usize },
    /// Zero text pages, or a window with no stack.
    BadGeometry { text_pages: usize, stack_pages: usize },
    /// `home_cpu` outside `0 .. N_CPUS`.
    BadHome { home_cpu: u8, max: u8 },
}

/// What [`AgentEntry::validate`] answers for an entry with these fields.
pub open spec fn validate_spec(text_pages: usize, stack_pages: usize, image_len: usize, home_cpu: u8, frame_size: usize) -> Result<(), BindError> {
    if text_pages == 0 || stack_pages == 0 {
        Err(BindError::BadGeometry { text_pages, stack_pages })
    } else if image_len > text_pages * frame_size {
        Err(BindError::ImageTooLarge { bytes: image_len, capacity: (text_pages * frame_size) as usize })
    } else if home_cpu >= N_CPUS {
        Err(BindError::BadHome { home_cpu, max: N_CPUS as u8 })
    } else {
        Ok(())
    }
}

impl AgentEntry {
    /// Total pages of the agent's window: text then stack.
    pub fn total_pages(&self) -> (r: usize)
        requires
            self.text_pages + self.stack_pages <= usize::MAX,
        ensures
            r == self.text_pages + self.stack_pages,
    {
        self.text_pages + self.stack_pages
    }

    /// Check the entry against a frame size, before anything is allocated:
    /// geometry first, then the image's fit, then the home CPU.
    pub fn validate(&self, frame_size: usize) -> (r: Result<(), BindError>)
        requires
            self.text_pages == 0 || self.stack_pages == 0 || self.text_pages * frame_size <= usize::MAX,
        ensures
            r == validate_spec(self.text_pages, self.stack_pages, self.image@.len() as usize, self.home_cpu, frame_size),
    {
        if self.text_pages == 0 || self.stack_pages == 0 {
            return Err(BindError::BadGeometry { text_pages: self.text_pages, stack_pages: self.stack_pages });
        }
        let capacity = self.text_pages * frame_size;
        if self.image.len() > capacity {
            return Err(BindError::ImageTooLarge { bytes: self.image.len(), capacity });
        }
        let max = N_CPUS as u8;
        if self.home_cpu >= max {
            return Err(BindError::BadHome { home_cpu: self.home_cpu, max });
        }
        Ok(())
    }
}

/// Why slot `slot` of an entry cannot be bound against `held`, if it cannot.
pub open spec fn slot_fault(slots: Seq<Option<u8>>, packet_pool: bool, held: Seq<Option<CapId>>, slot: int) -> Option<BindError> {
    match slots[slot] {
        None => None,
        Some(index) => if index >= held.len() {
            Some(BindError::NoSuchCapability { slot: slot as usize, index, held: held.len() as usize })
        } else if index >= PACKET_CAPABILITY_START && !packet_pool {
            Some(BindError::PacketPoolRequired { slot: slot as usize, index })
        } else if held[index as int] is None {
            Some(BindError::HeldVacant { slot: slot as usize, index })
        } else {
            None
        },
    }
}

/// The first slot at or after `from` that cannot be bound (`MAX_SLOTS` if
/// none).
pub open spec fn first_slot_fault(slots: Seq<Option<u8>>, packet_pool: bool, held: Seq<Option<CapId>>, from: int) -> int
    decreases MAX_SLOTS - from,
{
    if from < 0 || from >= MAX_SLOTS {
        MAX_SLOTS as int
    } else if slot_fault(slots, packet_pool, held, from) is Some {
        from
    } else {
        first_slot_fault(slots, packet_pool, held, from + 1)
    }
}

/// What slot `slot` binds to once every slot binds: the capability at the
/// position it names, or nothing for a hole.
pub open spec fn bound_slot(slots: Seq<Option<u8>>, held: Seq<Option<CapId>>, slot: int) -> Option<CapId> {
    match slots[slot] {
        None => None,
        Some(index) => held[index as int],
    }
}

/// Turn an entry's slot indices into the capability table a task is spawned
/// with. The first slot (in order) naming a position that does not exist, a
/// packet capability without the pool, or a vacant position is refused;
/// otherwise every slot holds exactly the capability at the position it
/// names, holes kept in place.
pub fn bind(entry: &AgentEntry, held: &[Option<CapId>]) -> (r: Result<[Option<CapId>; 4], BindError>)
    ensures
        ({
            let f = first_slot_fault(entry.slots@, entry.packet_pool, held@, 0);
            if f < MAX_SLOTS {
                r == Err::<[Option<CapId>; 4], BindError>(slot_fault(entry.slots@, entry.packet_pool, held@, f)->0)
            } else {
                r is Ok && forall|i: int| 0 <= i < MAX_SLOTS ==> #[trigger] r->Ok_0@[i] == bound_slot(entry.slots@, held@, i)
            }
        }),
{
    let mut out: [Option<CapId>; 4] = [None, None, None, None];
    let mut slot: usize = 0;
    while slot < MAX_SLOTS
        invariant
            slot <= MAX_SLOTS,
            entry.slots@.len() == MAX_SLOTS,
            first_slot_fault(entry.slots@, entry.packet_pool, held@, 0) == first_slot_fault(entry.slots@, entry.packet_pool, held@, slot as int),
            forall|i: int| 0 <= i < slot ==> #[trigger] out@[i] == bound_slot(entry.slots@, held@, i),
        decreases MAX_SLOTS - slot,
    {
        match entry.slots[slot] {
            None => {
                out[slot] = None;
            },
            Some(index) => {
                let i = index as usize;
                if i >= held.len() {
                    return Err(BindError::NoSuchCapability { slot, index, held: held.len() });
                }
                if index >= PACKET_CAPABILITY_START && !entry.packet_pool {
                    return Err(BindError::PacketPoolRequired { slot, index });
                }
                match held[i] {
                    Some(cap) => {
                        out[slot] = Some(cap);
                    },
                    None => {
                        return Err(BindError::HeldVacant { slot, index });
                    },
                }
            },
        }
        slot = slot + 1;
    }
    Ok(out)
}

/// A device page the loader may now map: where the composition asked for
/// it, and what the board says it is.
#[derive(Clone, Copy, Debug, PartialEq, Eq, Structural)]
pub struct ResolvedWindow {
    /// From the entry: inside the agent's own window.
    pub va: u64,
    /// From the vocabulary, never from the entry.
    pub pa: u64,
    /// From the vocabulary, so a read-only device stays read-only.
    pub perms: Perms,
}

/// Resolve an entry's device grant against the loader's window vocabulary.
/// `Ok(None)` means the entry asked for no device.
pub fn bind_window(entry: &AgentEntry, windows: &[Option<Window>]) -> (r: Result<Option<ResolvedWindow>, BindError>)
    ensures
        match entry.device {
            None => r == Ok::<Option<ResolvedWindow>, BindError>(None),
            Some(g) => if g.window >= windows@.len() {
                r == Err::<Option<ResolvedWindow>, BindError>(BindError::NoSuchWindow { index: g.window, windows: windows@.len() as usize })
            } else {
                match windows@[g.window as int] {
                    None => r == Err::<Option<ResolvedWindow>, BindError>(BindError::WindowVacant { index: g.window }),
                    Some(w) => r == Ok::<Option<ResolvedWindow>, BindError>(Some(ResolvedWindow { va: g.va, pa: w.pa, perms: w.perms })),
                }
            },
        },
{
    let grant = match entry.device {
        Some(g) => g,
        None => return Ok(None),
    };
    let i = grant.window as usize;
    if i >= windows.len() {
        return Err(BindError::NoSuchWindow { index: grant.window, windows: windows.len() });
    }
    match windows[i] {
        Some(window) => Ok(Some(ResolvedWindow { va: grant.va, pa: window.pa, perms: window.perms })),
        None => Err(BindError::WindowVacant { index: grant.window }),
    }
}

/// A bound table holds only capabilities the loader already held: every
/// capability in it is at some position of `held`.
pub proof fn lemma_bind_cannot_mint(slots: Seq<Option<u8>>, held: Seq<Option<CapId>>, i: int)
    requires
        slots.len() == MAX_SLOTS,
        0 <= i < MAX_SLOTS,
        forall|k: int| 0 <= k < MAX_SLOTS ==> (#[trigger] slots[k] matches Some(index) ==> (index as int) < held.len()),
    ensures
        (bound_slot(slots, held, i) matches Some(c) ==> exists|j: int| 0 <= j < held.len() && held[j] == Some(c)),
{
    if let Some(index) = slots[i] {
        if let Some(c) = held[index as int] {
            assert(held[index as int] == Some(c));
        }
    }
}

} // verus!
