//! MBR partition-table reader.
//!
//! One decision lives here: which LBA window on the card is the durable
//! store's. The card's own partition table names it, by an entry of type
//! [`STORE_TYPE`]. Four primary entries, no extended chase, and a GPT
//! protective entry fails the lookup closed.
use vstd::prelude::*;
use crate::wire::{le32_at, read_le32};
use crate::durable_media::MIN_PARTITION_SECTORS;

verus! {

/// Partition type designated for experimental use: the store's tag.
pub const STORE_TYPE: u8 = 0x7F;

/// GPT protective type: the MBR no longer describes the disk.
pub const GPT_PROTECTIVE: u8 = 0xEE;

/// Offset of the first primary entry in sector 0.
pub const ENTRY_BASE: usize = 446;

/// Bytes per primary entry.
pub const ENTRY_LEN: usize = 16;

/// One primary entry, as much of it as any caller decides on.
#[derive(Clone, Copy, Debug, PartialEq, Eq, Structural)]
pub struct PartitionEntry {
    pub kind: u8,
    pub first_lba: u32,
    pub sectors: u32,
}

/// Why sector 0 gave no table.
#[derive(Clone, Copy, Debug, PartialEq, Eq, Structural)]
pub enum MbrError {
    /// No `0x55AA` boot signature: not an MBR.
    NoTable,
    /// A GPT protective entry is present: the real layout is elsewhere.
    GptProtective,
}

/// Primary entry `i` of sector `s`.
pub open spec fn entry_at(s: Seq<u8>, i: int) -> PartitionEntry {
    let at = ENTRY_BASE + i * ENTRY_LEN;
    PartitionEntry { kind: s[at + 4], first_lba: le32_at(s, at + 8), sectors: le32_at(s, at + 12) }
}

/// Whether sector `s` carries the boot signature.
pub open spec fn has_signature(s: Seq<u8>) -> bool {
    s[510] == 0x55 && s[511] == 0xAA
}

/// Whether any primary entry of `s` is GPT protective.
pub open spec fn has_gpt(s: Seq<u8>) -> bool {
    exists|i: int| 0 <= i < 4 && #[trigger] entry_at(s, i).kind == GPT_PROTECTIVE
}

/// Parse sector 0 into the four primary entries.
pub fn parse(sector0: &[u8; 512]) -> (r: Result<[PartitionEntry; 4], MbrError>)
    ensures
        !has_signature(sector0@) ==> r == Err::<[PartitionEntry; 4], MbrError>(MbrError::NoTable),
        has_signature(sector0@) && has_gpt(sector0@) ==> r == Err::<[PartitionEntry; 4], MbrError>(MbrError::GptProtective),
        has_signature(sector0@) && !has_gpt(sector0@) ==> r is Ok && forall|i: int| 0 <= i < 4 ==> #[trigger] r->Ok_0@[i] == entry_at(sector0@, i),
{
    let s = sector0.as_slice();
    if s[510] != 0x55 || s[511] != 0xAA {
        return Err(MbrError::NoTable);
    }
    let mut entries: [PartitionEntry; 4] = [PartitionEntry { kind: 0, first_lba: 0, sectors: 0 }; 4];
    let mut i: usize = 0;
    while i < 4
        invariant
            s@ == sector0@,
            s@.len() == 512,
            has_signature(sector0@),
            i <= 4,
            forall|j: int| 0 <= j < i ==> entries@[j] == entry_at(s@, j),
            forall|j: int| 0 <= j < i ==> #[trigger] entry_at(s@, j).kind != GPT_PROTECTIVE,
        decreases 4 - i,
    {
        let at = ENTRY_BASE + i * ENTRY_LEN;
        let kind = s[at + 4];
        if kind == GPT_PROTECTIVE {
            assert(entry_at(s@, i as int).kind == GPT_PROTECTIVE);
            return Err(MbrError::GptProtective);
        }
        entries[i] = PartitionEntry { kind, first_lba: read_le32(s, at + 8), sectors: read_le32(s, at + 12) };
        i = i + 1;
    }
    assert(!has_gpt(s@));
    Ok(entries)
}

/// Whether entry `e` names a usable store partition.
pub open spec fn is_store(e: PartitionEntry) -> bool {
    e.kind == STORE_TYPE && e.sectors >= MIN_PARTITION_SECTORS && e.first_lba != 0
}

/// The first store entry at or after `from` (4 if none).
pub open spec fn store_from(entries: Seq<PartitionEntry>, from: int) -> int
    decreases 4 - from,
{
    if from < 0 || from >= 4 {
        4
    } else if is_store(entries[from]) {
        from
    } else {
        store_from(entries, from + 1)
    }
}

/// The store partition's `(first_lba, sectors)`: the first entry of the store
/// type, large enough for the A/B layout, and not starting at the table
/// itself.
pub fn find_store_partition(entries: &[PartitionEntry; 4]) -> (r: Option<(u32, u32)>)
    ensures
        ({
            let k = store_from(entries@, 0);
            if k < 4 {
                r == Some((entries@[k].first_lba, entries@[k].sectors))
            } else {
                r is None
            }
        }),
{
    let mut i: usize = 0;
    while i < 4
        invariant
            i <= 4,
            entries@.len() == 4,
            store_from(entries@, 0) == store_from(entries@, i as int),
        decreases 4 - i,
    {
        let e = entries[i];
        if e.kind == STORE_TYPE && e.sectors >= MIN_PARTITION_SECTORS && e.first_lba != 0 {
            return Some((e.first_lba, e.sectors));
        }
        i = i + 1;
    }
    None
}

} // verus!
