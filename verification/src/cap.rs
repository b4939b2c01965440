//! Capability id encoding.
//!
//! A `CapId` packs a table index (low half) and a generation (high half) so a
//! recycled slot cannot be confused with a stale handle. Unforgeability is a
//! property of the lookups that resolve an id, not of this type: anyone can
//! build any id.
use vstd::prelude::*;

verus! {

/// Opaque capability handle.
#[derive(Clone, Copy, Debug, PartialEq, Eq, Hash, Structural)]
pub struct CapId(u32);

/// Band bit for task-caps (bit 14).
pub const TASK_BAND: u16 = 0x4000;

/// Band bit for IRQ caps (bit 15).
pub const IRQ_BAND: u16 = 0x8000;

/// Local payload below the class bits (13:0).
pub const CLASS_PAYLOAD_MASK: u16 = 0x3FFF;

/// Index bits (low).
pub const INDEX_BITS: u32 = 16;

/// Generation bits (high).
pub const GEN_BITS: u32 = 16;

pub const INDEX_MASK: u32 = 0xFFFF;

/// What a CapId's index names, by its class bits.
#[derive(Clone, Copy, Debug, PartialEq, Eq, Structural)]
pub enum CapClass {
    /// No band bit: an IPC endpoint index.
    Endpoint(u16),
    /// Task band: a task-cap local index.
    Task(u16),
    /// IRQ band: an IRQ-cap local index.
    Irq(u16),
    /// Both band bits: decodable by no table.
    Invalid,
}

/// The class an index decodes to: bits 15:14 pick the class, 13:0 are the
/// payload.
pub open spec fn class_of(idx: u16) -> CapClass {
    let payload = (idx % 0x4000) as u16;
    let irq = idx >= 0x8000;
    let task = (idx / 0x4000) % 2 == 1;
    if !irq && !task {
        CapClass::Endpoint(payload)
    } else if !irq && task {
        CapClass::Task(payload)
    } else if irq && !task {
        CapClass::Irq(payload)
    } else {
        CapClass::Invalid
    }
}

impl CapId {
    pub closed spec fn spec_raw(self) -> u32 {
        self.0
    }

    pub open spec fn spec_index(self) -> u16 {
        (self.spec_raw() % 0x1_0000) as u16
    }

    pub open spec fn spec_generation(self) -> u16 {
        (self.spec_raw() / 0x1_0000) as u16
    }

    /// Build from table index and generation.
    pub fn new(index: u16, generation: u16) -> (c: CapId)
        ensures
            c.spec_raw() == generation * 0x1_0000 + index,
            c.spec_index() == index,
            c.spec_generation() == generation,
    {
        CapId((generation as u32) * 0x1_0000 + index as u32)
    }

    /// Table index.
    pub fn index(self) -> (r: u16)
        ensures
            r == self.spec_index(),
    {
        (self.0 % 0x1_0000) as u16
    }

    /// Generation counter at mint time.
    pub fn generation(self) -> (r: u16)
        ensures
            r == self.spec_generation(),
    {
        (self.0 / 0x1_0000) as u16
    }

    /// Raw bits.
    pub fn raw(self) -> (r: u32)
        ensures
            r == self.spec_raw(),
    {
        self.0
    }

    /// Reconstruct from raw bits (does not validate against a table).
    pub fn from_raw(raw: u32) -> (c: CapId)
        ensures
            c.spec_raw() == raw,
    {
        CapId(raw)
    }

    /// Decode the index's class bits.
    pub fn classify(self) -> (c: CapClass)
        ensures
            c == class_of(self.spec_index()),
    {
        let idx = self.index();
        let payload: u16 = idx % 0x4000;
        let irq = idx >= 0x8000;
        let task = (idx / 0x4000) % 2 == 1;
        if !irq && !task {
            CapClass::Endpoint(payload)
        } else if !irq && task {
            CapClass::Task(payload)
        } else if irq && !task {
            CapClass::Irq(payload)
        } else {
            CapClass::Invalid
        }
    }
}

/// An id is exactly its index and generation: two ids are equal iff both
/// fields are, and the raw form round-trips.
pub proof fn lemma_cap_id_fields(a: CapId, b: CapId)
    ensures
        a == b <==> (a.spec_index() == b.spec_index() && a.spec_generation() == b.spec_generation()),
        a.spec_raw() == a.spec_generation() * 0x1_0000 + a.spec_index(),
{
    assert(a.spec_raw() == a.spec_generation() * 0x1_0000 + a.spec_index());
    assert(b.spec_raw() == b.spec_generation() * 0x1_0000 + b.spec_index());
}

/// The class decode is the band bits: the payload never carries a band bit
/// back out, and re-banking a payload decodes to its own class.
pub proof fn lemma_classify_bands(payload: u16)
    requires
        payload <= CLASS_PAYLOAD_MASK,
    ensures
        class_of(payload) == CapClass::Endpoint(payload),
        class_of((TASK_BAND + payload) as u16) == CapClass::Task(payload),
        class_of((IRQ_BAND + payload) as u16) == CapClass::Irq(payload),
        class_of((TASK_BAND + IRQ_BAND + payload) as u16) == CapClass::Invalid,
{
}

/// Endpoint rights (bit flags).
#[derive(Clone, Copy, Debug, PartialEq, Eq, Structural)]
pub struct CapRights(u8);

impl CapRights {
    pub closed spec fn bits(self) -> u8 {
        self.0
    }

    pub fn send() -> (r: CapRights)
        ensures
            r.bits() == 1,
    {
        CapRights(1)
    }

    pub fn recv() -> (r: CapRights)
        ensures
            r.bits() == 2,
    {
        CapRights(2)
    }

    /// Wait on an IRQ notification cookie.
    pub fn irq() -> (r: CapRights)
        ensures
            r.bits() == 4,
    {
        CapRights(4)
    }

    pub fn empty() -> (r: CapRights)
        ensures
            r.bits() == 0,
    {
        CapRights(0)
    }

    /// Every right in `other` is also in `self`.
    pub fn contains(self, other: CapRights) -> (r: bool)
        ensures
            r == (self.bits() & other.bits() == other.bits()),
    {
        (self.0 & other.0) == other.0
    }

    /// The rights of both.
    pub fn union(self, other: CapRights) -> (r: CapRights)
        ensures
            r.bits() == self.bits() | other.bits(),
    {
        CapRights(self.0 | other.0)
    }
}

/// Rights form a lattice under `contains` and `union`: containment is
/// reflexive and transitive, the empty set is contained by all, a union
/// contains both sides, granting a right twice changes nothing, and the
/// three named rights are distinct single bits.
pub proof fn lemma_rights_lattice(a: u8, b: u8, c: u8)
    ensures
        a & a == a,
        a & 0 == 0,
        (a | b) & a == a,
        (a | b) & b == b,
        (a | a) == a,
        (a & b == b && b & c == c) ==> a & c == c,
        1u8 & 2u8 != 2u8,
        2u8 & 1u8 != 1u8,
        1u8 & 4u8 != 4u8,
        2u8 & 4u8 != 4u8,
        4u8 & 1u8 != 1u8,
        0u8 & 4u8 != 4u8,
{
    assert(a & a == a && a & 0 == 0 && (a | b) & a == a && (a | b) & b == b && (a | a) == a && ((
    a & b == b && b & c == c) ==> a & c == c) && 1u8 & 2u8 != 2u8 && 2u8 & 1u8 != 1u8 && 1u8 & 4u8
        != 4u8 && 2u8 & 4u8 != 4u8 && 4u8 & 1u8 != 1u8 && 0u8 & 4u8 != 4u8) by (bit_vector);
}

/// Why a slot did not name a capability.
#[derive(Clone, Copy, Debug, PartialEq, Eq, Structural)]
pub enum SlotError {
    /// The slot is beyond the task's capability table.
    OutOfRange { slot: usize, slots: usize },
    /// The slot exists and holds nothing.
    Empty { slot: usize },
}

pub open spec fn spec_from_slot(caps: Seq<Option<CapId>>, slot: usize) -> Result<CapId, SlotError> {
    if slot >= caps.len() {
        Err(SlotError::OutOfRange { slot, slots: caps.len() as usize })
    } else {
        match caps[slot as int] {
            Some(cap) => Ok(cap),
            None => Err(SlotError::Empty { slot }),
        }
    }
}

/// Resolve a slot index against a task's own capability table. Nothing
/// outside the table can be named: the bound is the whole check.
pub fn from_slot(caps: &[Option<CapId>], slot: usize) -> (r: Result<CapId, SlotError>)
    ensures
        r == spec_from_slot(caps@, slot),
{
    if slot >= caps.len() {
        return Err(SlotError::OutOfRange { slot, slots: caps.len() });
    }
    match caps[slot] {
        Some(cap) => Ok(cap),
        None => Err(SlotError::Empty { slot }),
    }
}

/// Every id a slot lookup returns was in the table.
pub proof fn lemma_from_slot_stays_in_table(caps: Seq<Option<CapId>>, slot: usize)
    ensures
        spec_from_slot(caps, slot) matches Ok(c) ==> exists|i: int|
            0 <= i < caps.len() && caps[i] == Some(c),
{
    if let Ok(c) = spec_from_slot(caps, slot) {
        assert(caps[slot as int] == Some(c));
    }
}

} // verus!
