//! AArch64 stage-1 descriptor encoding for the kernel's identity map.
//!
//! Descriptor bits, level geometry, the walk from a region to block and page
//! chunks, and the TLB-invalidation plan — arithmetic only; the arch layer
//! writes the tables.
use vstd::prelude::*;

verus! {

pub const DESC_BLOCK: u64 = 0b01;
pub const DESC_TABLE: u64 = 0b11;
pub const DESC_PAGE: u64 = 0b11;
pub const DESC_AF: u64 = 0x400;
pub const DESC_SH_IS: u64 = 0x300;
pub const DESC_AP_EL1_RW: u64 = 0;
pub const DESC_AP_EL1_RO: u64 = 0x80;
pub const DESC_UXN: u64 = 0x40_0000_0000_0000;
pub const DESC_PXN: u64 = 0x20_0000_0000_0000;

pub const ATTR_IDX_NORMAL: u64 = 0;
pub const ATTR_IDX_DEVICE: u64 = 0x4;

pub const MAIR_NORMAL_WB: u64 = 0xFF;
pub const MAIR_DEVICE_NGNRNE: u64 = 0x00;

/// `MAIR_EL1`: attribute 0 normal write-back, attribute 1 device nGnRnE.
pub fn mair_el1() -> (r: u64)
    ensures
        r == MAIR_NORMAL_WB | (MAIR_DEVICE_NGNRNE << 8u64),
{
    MAIR_NORMAL_WB | (MAIR_DEVICE_NGNRNE << 8u64)
}

pub const L1_BLOCK_SIZE: u64 = 0x4000_0000;
pub const L2_BLOCK_SIZE: u64 = 0x20_0000;
pub const PAGE_SIZE: u64 = 0x1000;

pub const ENTRIES_PER_TABLE: usize = 512;

/// Output-address bits of a descriptor.
pub const ADDR_MASK: u64 = 0x0000_FFFF_FFFF_F000;

/// Exclusive bound of a 48-bit physical address.
pub const PA_LIMIT: u64 = 0x1_0000_0000_0000;

/// Translation level.
#[derive(Clone, Copy, Debug, PartialEq, Eq, PartialOrd, Ord, Hash)]
pub enum Level {
    L1,
    L2,
    L3,
}

pub open spec fn spec_entry_size(level: Level) -> u64 {
    match level {
        Level::L1 => L1_BLOCK_SIZE,
        Level::L2 => L2_BLOCK_SIZE,
        Level::L3 => PAGE_SIZE,
    }
}

pub open spec fn level_shift(level: Level) -> u64 {
    match level {
        Level::L1 => 30,
        Level::L2 => 21,
        Level::L3 => 12,
    }
}

impl Level {
    /// Bytes mapped by one entry at this level.
    pub fn entry_size(self) -> (r: u64)
        ensures
            r == spec_entry_size(self),
    {
        match self {
            Level::L1 => L1_BLOCK_SIZE,
            Level::L2 => L2_BLOCK_SIZE,
            Level::L3 => PAGE_SIZE,
        }
    }

    /// Table index of `va` at this level.
    pub fn index(self, va: u64) -> (r: usize)
        ensures
            r == ((va >> level_shift(self)) % 512) as usize,
            r < ENTRIES_PER_TABLE,
    {
        let shift: u64 = match self {
            Level::L1 => 30,
            Level::L2 => 21,
            Level::L3 => 12,
        };
        ((va >> shift) % 512) as usize
    }

    /// The level below, or `None` at the page level.
    pub fn next(self) -> (r: Option<Level>)
        ensures
            r == match self {
                Level::L1 => Some(Level::L2),
                Level::L2 => Some(Level::L3),
                Level::L3 => None::<Level>,
            },
    {
        match self {
            Level::L1 => Some(Level::L2),
            Level::L2 => Some(Level::L3),
            Level::L3 => None,
        }
    }
}

/// Memory type of a mapping.
#[derive(Clone, Copy, Debug, PartialEq, Eq, Hash)]
pub enum MemKind {
    NormalWb,
    Device,
}

/// Access permissions of a mapping.
#[derive(Clone, Copy, Debug, PartialEq, Eq, Hash, Structural)]
pub struct Perms {
    pub write: bool,
    pub execute: bool,
}

impl Perms {
    /// Kernel read-write, never executable.
    pub fn rw() -> (p: Perms)
        ensures
            p == (Perms { write: true, execute: false }),
    {
        Perms { write: true, execute: false }
    }

    /// Kernel read-execute.
    pub fn rx() -> (p: Perms)
        ensures
            p == (Perms { write: false, execute: true }),
    {
        Perms { write: false, execute: true }
    }

    /// Read-only, never executable.
    pub fn ro() -> (p: Perms)
        ensures
            p == (Perms { write: false, execute: false }),
    {
        Perms { write: false, execute: false }
    }

    /// User read-write data page.
    pub fn user_rw() -> (p: Perms)
        ensures
            p == (Perms { write: true, execute: false }),
    {
        Perms { write: true, execute: false }
    }

    /// User read-only data page.
    pub fn user_ro() -> (p: Perms)
        ensures
            p == (Perms { write: false, execute: false }),
    {
        Perms { write: false, execute: false }
    }
}

/// Table descriptor for a next-level table at `pa`.
pub open spec fn spec_table_descriptor(pa: u64) -> Option<u64> {
    if pa % PAGE_SIZE != 0 || pa >= PA_LIMIT {
        None
    } else {
        Some((pa & ADDR_MASK) | DESC_TABLE)
    }
}

pub fn table_descriptor(pa: u64) -> (r: Option<u64>)
    ensures
        r == spec_table_descriptor(pa),
{
    if pa % PAGE_SIZE != 0 || pa >= PA_LIMIT {
        return None;
    }
    Some((pa & ADDR_MASK) | DESC_TABLE)
}

/// Attribute, access and execute-never bits for a mapping.
pub open spec fn attr_bits(kind: MemKind, perms: Perms) -> u64 {
    (match kind {
        MemKind::NormalWb => ATTR_IDX_NORMAL,
        MemKind::Device => ATTR_IDX_DEVICE,
    }) | (if perms.write { DESC_AP_EL1_RW } else { DESC_AP_EL1_RO }) | DESC_UXN | (if perms.execute {
        0u64
    } else {
        DESC_PXN
    })
}

/// Leaf descriptor (block or page) mapping `pa` at `level`.
pub open spec fn spec_leaf(level: Level, pa: u64, kind: MemKind, perms: Perms) -> Option<u64> {
    if pa % spec_entry_size(level) != 0 || pa >= PA_LIMIT {
        None
    } else {
        let kind_bits: u64 = match level {
            Level::L3 => DESC_PAGE,
            _ => DESC_BLOCK,
        };
        Some((pa & ADDR_MASK) | DESC_AF | DESC_SH_IS | kind_bits | attr_bits(kind, perms))
    }
}

fn attrs(kind: MemKind, perms: Perms) -> (r: u64)
    ensures
        r == attr_bits(kind, perms),
{
    let k: u64 = match kind {
        MemKind::NormalWb => ATTR_IDX_NORMAL,
        MemKind::Device => ATTR_IDX_DEVICE,
    };
    let w: u64 = if perms.write { DESC_AP_EL1_RW } else { DESC_AP_EL1_RO };
    let x: u64 = if perms.execute { 0u64 } else { DESC_PXN };
    k | w | DESC_UXN | x
}

/// Build a leaf descriptor: `None` when `pa` is not aligned to the level's
/// entry size or lies beyond 48 bits.
pub fn leaf(level: Level, pa: u64, kind: MemKind, perms: Perms) -> (r: Option<u64>)
    ensures
        r == spec_leaf(level, pa, kind, perms),
{
    let size = level.entry_size();
    if pa % size != 0 || pa >= PA_LIMIT {
        return None;
    }
    let kind_bits: u64 = match level {
        Level::L3 => DESC_PAGE,
        _ => DESC_BLOCK,
    };
    Some((pa & ADDR_MASK) | DESC_AF | DESC_SH_IS | kind_bits | attrs(kind, perms))
}

/// Low two bits clear: the entry translates nothing.
pub fn is_invalid(entry: u64) -> (r: bool)
    ensures
        r == (entry & 0b11 == 0),
{
    entry & 0b11 == 0
}

/// A next-level table pointer (only meaningful at L1 and L2).
pub open spec fn spec_is_table(entry: u64, level: Level) -> bool {
    level != Level::L3 && (entry & 0b11) == DESC_TABLE
}

pub fn is_table(entry: u64, level: Level) -> (r: bool)
    ensures
        r == spec_is_table(entry, level),
{
    match level {
        Level::L3 => false,
        _ => (entry & 0b11) == DESC_TABLE,
    }
}

/// A block (L1/L2) or page (L3) mapping.
pub open spec fn spec_is_leaf(entry: u64, level: Level) -> bool {
    match level {
        Level::L3 => (entry & 0b11) == DESC_PAGE,
        _ => (entry & 0b11) == DESC_BLOCK,
    }
}

pub fn is_leaf(entry: u64, level: Level) -> (r: bool)
    ensures
        r == spec_is_leaf(entry, level),
{
    match level {
        Level::L3 => (entry & 0b11) == DESC_PAGE,
        _ => (entry & 0b11) == DESC_BLOCK,
    }
}

/// Output address held by a descriptor.
pub fn descriptor_address(entry: u64) -> (r: u64)
    ensures
        r == entry & ADDR_MASK,
{
    entry & ADDR_MASK
}

/// What a leaf maps: its address, memory type and permissions.
pub open spec fn spec_decode_leaf(entry: u64, level: Level) -> Option<(u64, MemKind, Perms)> {
    if !spec_is_leaf(entry, level) {
        None
    } else {
        Some(
            (
                entry & ADDR_MASK,
                if (entry & 0x1C) == ATTR_IDX_DEVICE {
                    MemKind::Device
                } else {
                    MemKind::NormalWb
                },
                Perms { write: (entry & 0xC0) == DESC_AP_EL1_RW, execute: (entry & DESC_PXN) == 0 },
            ),
        )
    }
}

pub fn decode_leaf(entry: u64, level: Level) -> (r: Option<(u64, MemKind, Perms)>)
    ensures
        r == spec_decode_leaf(entry, level),
{
    if !is_leaf(entry, level) {
        return None;
    }
    let pa = descriptor_address(entry);
    let kind = if (entry & 0x1C) == ATTR_IDX_DEVICE {
        MemKind::Device
    } else {
        MemKind::NormalWb
    };
    let write = (entry & 0xC0) == DESC_AP_EL1_RW;
    let execute = (entry & DESC_PXN) == 0;
    Some((pa, kind, Perms { write, execute }))
}

/// Decoding a leaf gives back exactly what built it: address, memory type and
/// permissions.
pub proof fn lemma_leaf_round_trip(level: Level, pa: u64, kind: MemKind, perms: Perms)
    requires
        spec_leaf(level, pa, kind, perms) is Some,
    ensures
        spec_decode_leaf(spec_leaf(level, pa, kind, perms)->0, level) == Some((pa, kind, perms)),
{
    let e = spec_leaf(level, pa, kind, perms)->0;
    let kb: u64 = match level {
        Level::L3 => DESC_PAGE,
        _ => DESC_BLOCK,
    };
    let k: u64 = match kind {
        MemKind::NormalWb => 0u64,
        MemKind::Device => 4u64,
    };
    let w: u64 = if perms.write { 0u64 } else { 0x80u64 };
    let x: u64 = if perms.execute { 0u64 } else { 0x20_0000_0000_0000u64 };
    assert(pa % 0x1000 == 0) by {
        let sz = spec_entry_size(level) as int;
        let q = sz / 0x1000;
        assert(sz == 0x1000 * q);
        vstd::arithmetic::div_mod::lemma_mod_mod(pa as int, 0x1000, q);
    }
    assert(pa % 0x1000 == 0 && pa < 0x1_0000_0000_0000 && (kb == 1 || kb == 3) && (k == 0 || k
        == 4) && (w == 0 || w == 0x80) && (x == 0 || x == 0x20_0000_0000_0000) ==> {
        let e2 = (pa & 0x0000_FFFF_FFFF_F000) | 0x400 | 0x300 | kb | (k | w | 0x40_0000_0000_0000
            | x);
        &&& e2 & 0x0000_FFFF_FFFF_F000 == pa
        &&& e2 & 0b11 == kb
        &&& e2 & 0x1C == k
        &&& e2 & 0xC0 == w
        &&& e2 & 0x20_0000_0000_0000 == x
    }) by (bit_vector);
    assert(e == (pa & ADDR_MASK) | DESC_AF | DESC_SH_IS | kb | (k | w | DESC_UXN | x));
}

/// One block or page of a region walk.
#[derive(Clone, Copy, Debug, PartialEq, Eq)]
pub struct Chunk {
    pub level: Level,
    pub va: u64,
    pub pa: u64,
}

impl Chunk {
    /// Bytes this chunk maps.
    pub fn size(self) -> (r: u64)
        ensures
            r == spec_entry_size(self.level),
    {
        self.level.entry_size()
    }
}

/// The largest level at which `va`, `pa` and `remaining` allow one entry.
pub open spec fn chunk_level(va: u64, pa: u64, remaining: u64) -> Level {
    if va % L1_BLOCK_SIZE == 0 && pa % L1_BLOCK_SIZE == 0 && remaining >= L1_BLOCK_SIZE {
        Level::L1
    } else if va % L2_BLOCK_SIZE == 0 && pa % L2_BLOCK_SIZE == 0 && remaining >= L2_BLOCK_SIZE {
        Level::L2
    } else {
        Level::L3
    }
}

proof fn lemma_page_multiple(x: u64, size: u64)
    requires
        x % PAGE_SIZE == 0,
        size == L1_BLOCK_SIZE || size == L2_BLOCK_SIZE || size == PAGE_SIZE,
    ensures
        (x + size) % (PAGE_SIZE as int) == 0,
{
}

proof fn lemma_page_multiple_sub(x: u64, size: u64)
    requires
        x % PAGE_SIZE == 0,
        x >= size,
        size == L1_BLOCK_SIZE || size == L2_BLOCK_SIZE || size == PAGE_SIZE,
    ensures
        (x - size) % (PAGE_SIZE as int) == 0,
{
}

/// The walk of a page-aligned region into the largest chunks that fit.
#[derive(Clone, Copy, Debug)]
pub struct Chunks {
    va: u64,
    pa: u64,
    remaining: u64,
}

impl Chunks {
    /// Still-unwalked bytes and where they start.
    pub closed spec fn state(self) -> (u64, u64, u64) {
        (self.va, self.pa, self.remaining)
    }

    /// Page alignment of the cursor and of what is left, and no wrap ahead.
    pub closed spec fn wf(self) -> bool {
        &&& self.va % PAGE_SIZE == 0
        &&& self.pa % PAGE_SIZE == 0
        &&& self.remaining % PAGE_SIZE == 0
        &&& self.va + self.remaining <= u64::MAX
        &&& self.pa + self.remaining <= u64::MAX
    }

    /// The next chunk: the largest level whose entry size divides both
    /// addresses and fits in what remains; `None` once the region is done.
    pub fn next_chunk(&mut self) -> (r: Option<Chunk>)
        requires
            old(self).wf(),
        ensures
            final(self).wf(),
            old(self).state().2 == 0 ==> r is None && final(self).state() == old(self).state(),
            old(self).state().2 != 0 ==> {
                let (va, pa, rem) = old(self).state();
                let level = chunk_level(va, pa, rem);
                &&& r == Some(Chunk { level, va, pa })
                &&& final(self).state() == (
                    (va + spec_entry_size(level)) as u64,
                    (pa + spec_entry_size(level)) as u64,
                    (rem - spec_entry_size(level)) as u64,
                )
            },
    {
        if self.remaining == 0 {
            return None;
        }
        let level = if self.va % L1_BLOCK_SIZE == 0 && self.pa % L1_BLOCK_SIZE == 0
            && self.remaining >= L1_BLOCK_SIZE {
            Level::L1
        } else if self.va % L2_BLOCK_SIZE == 0 && self.pa % L2_BLOCK_SIZE == 0 && self.remaining
            >= L2_BLOCK_SIZE {
            Level::L2
        } else {
            Level::L3
        };
        let size = level.entry_size();
        let chunk = Chunk { level, va: self.va, pa: self.pa };
        proof {
            lemma_page_multiple(self.va, size);
            lemma_page_multiple(self.pa, size);
            lemma_page_multiple_sub(self.remaining, size);
        }
        self.va = self.va + size;
        self.pa = self.pa + size;
        self.remaining = self.remaining - size;
        Some(chunk)
    }
}

/// Start a walk of `len` bytes mapping `va` to `pa`; `None` when any of the
/// three is not page aligned or the region would wrap.
pub fn chunks(va: u64, pa: u64, len: u64) -> (r: Option<Chunks>)
    ensures
        r is Some <==> (va % PAGE_SIZE == 0 && pa % PAGE_SIZE == 0 && len % PAGE_SIZE == 0 && va
            + len <= u64::MAX && pa + len <= u64::MAX),
        r matches Some(c) ==> c.wf() && c.state() == (va, pa, len),
{
    if va % PAGE_SIZE != 0 || pa % PAGE_SIZE != 0 || len % PAGE_SIZE != 0 {
        return None;
    }
    if len > u64::MAX - va || len > u64::MAX - pa {
        return None;
    }
    Some(Chunks { va, pa, remaining: len })
}

/// L1 block descriptor for a 1 GiB-aligned `pa`.
pub open spec fn spec_l1_block(pa: u64, kind: MemKind, perms: Perms) -> Option<u64> {
    if pa % L1_BLOCK_SIZE != 0 || pa >= PA_LIMIT {
        None
    } else {
        Some((pa & 0x0000_FFFF_C000_0000) | DESC_AF | DESC_SH_IS | DESC_BLOCK | attr_bits(kind, perms))
    }
}

pub fn l1_block(pa: u64, kind: MemKind, perms: Perms) -> (r: Option<u64>)
    ensures
        r == spec_l1_block(pa, kind, perms),
{
    if pa % L1_BLOCK_SIZE != 0 {
        return None;
    }
    if pa >= PA_LIMIT {
        return None;
    }
    Some((pa & 0x0000_FFFF_C000_0000) | DESC_AF | DESC_SH_IS | DESC_BLOCK | attrs(kind, perms))
}

/// Disable walks through `TTBR1_EL1`.
pub const TCR_EPD1: u64 = 0x80_0000;

/// `TCR_EL1` for a TTBR0-only regime with the given `T0SZ`.
pub open spec fn spec_tcr(t0sz: u64) -> u64 {
    t0sz | 0x100 | 0x400 | 0x3000 | 0x19_0000 | TCR_EPD1 | 0x8000_0000 | 0x2_0000_0000
}

pub fn tcr_el1_ttbr0_only(t0sz: u64) -> (r: u64)
    ensures
        r == spec_tcr(t0sz),
{
    t0sz | 0x100 | 0x400 | 0x3000 | 0x19_0000 | TCR_EPD1 | 0x8000_0000 | 0x2_0000_0000
}

/// Above this many pages a full invalidate is cheaper than per-page ones.
pub const TLBI_PAGE_LIMIT: u64 = 64;

/// How to invalidate a range.
#[derive(Clone, Copy, Debug, PartialEq, Eq)]
pub enum TlbiPlan {
    ByPage { first: u64, pages: u64 },
    Everything,
}

pub open spec fn spec_tlbi_plan(va: u64, len: u64) -> Option<TlbiPlan> {
    if va % PAGE_SIZE != 0 || len % PAGE_SIZE != 0 || len == 0 {
        None
    } else if len / PAGE_SIZE > TLBI_PAGE_LIMIT {
        Some(TlbiPlan::Everything)
    } else {
        Some(TlbiPlan::ByPage { first: va / PAGE_SIZE, pages: len / PAGE_SIZE })
    }
}

/// Plan the invalidation of `len` bytes at `va`.
pub fn tlbi_plan(va: u64, len: u64) -> (r: Option<TlbiPlan>)
    ensures
        r == spec_tlbi_plan(va, len),
{
    if va % PAGE_SIZE != 0 || len % PAGE_SIZE != 0 || len == 0 {
        return None;
    }
    let pages = len / PAGE_SIZE;
    if pages > TLBI_PAGE_LIMIT {
        return Some(TlbiPlan::Everything);
    }
    Some(TlbiPlan::ByPage { first: va / PAGE_SIZE, pages })
}

/// The `TLBI VAE1` operand for page `index` of a plan starting at `first`.
pub fn tlbi_operand(first: u64, index: u64) -> (r: u64)
    requires
        first + index <= u64::MAX,
    ensures
        r == first + index,
{
    first + index
}


/// Every leaf descriptor is built accessed and inner-shareable, at every
/// level: the access flag (bit 10) and both shareability bits (9:8) are set,
/// so the first access through it takes no access-flag fault.
pub proof fn lemma_leaf_accessed_and_shared(level: Level, pa: u64, kind: MemKind, perms: Perms)
    ensures
        spec_leaf(level, pa, kind, perms) is Some ==> spec_leaf(level, pa, kind, perms)->0 & 0x400u64 == 0x400u64,
        spec_leaf(level, pa, kind, perms) is Some ==> spec_leaf(level, pa, kind, perms)->0 & 0x300u64 == 0x300u64,
{
    if let Some(v) = spec_leaf(level, pa, kind, perms) {
        let a = pa & ADDR_MASK;
        let kb: u64 = match level {
            Level::L3 => DESC_PAGE,
            _ => DESC_BLOCK,
        };
        let at = attr_bits(kind, perms);
        assert(v == a | 0x400u64 | 0x300u64 | kb | at);
        assert(v & 0x400u64 == 0x400u64 && v & 0x300u64 == 0x300u64) by (bit_vector)
            requires
                v == a | 0x400u64 | 0x300u64 | kb | at;
    }
}


/// A leaf descriptor says what it maps and how: it exists exactly when `pa`
/// is aligned to the level's entry size (1 GiB, 2 MiB, 4 KiB) and below
/// 2^48; its output-address field is `pa`; its type bits say block (L1, L2)
/// or page (L3); its attribute index picks normal memory (0) or device
/// memory (1); it is read-only exactly when the mapping is not writable; it
/// is never executable at EL0; and it is executable at EL1 exactly when the
/// mapping is.
pub proof fn lemma_leaf_fields(level: Level, pa: u64, kind: MemKind, perms: Perms)
    ensures
        spec_leaf(level, pa, kind, perms) is Some <==> pa < 0x1_0000_0000_0000 && pa % (match level {
            Level::L1 => 0x4000_0000u64,
            Level::L2 => 0x20_0000u64,
            Level::L3 => 0x1000u64,
        }) == 0,
        spec_leaf(level, pa, kind, perms) matches Some(v) ==> {
            &&& v & 0x0000_FFFF_FFFF_F000u64 == pa
            &&& v & 0x3u64 == (if level == Level::L3 { 0x3u64 } else { 0x1u64 })
            &&& (v >> 2u64) & 0x7u64 == (if kind == MemKind::Device { 1u64 } else { 0u64 })
            &&& (v & 0x80u64 != 0) == !perms.write
            &&& v & 0x40_0000_0000_0000u64 != 0
            &&& (v & 0x20_0000_0000_0000u64 != 0) == !perms.execute
        },
{
    if let Some(v) = spec_leaf(level, pa, kind, perms) {
        let m: int = match level {
            Level::L1 => 0x4_0000,
            Level::L2 => 0x200,
            Level::L3 => 1,
        };
        vstd::arithmetic::div_mod::lemma_mod_mod(pa as int, 0x1000, m);
        assert(pa % 0x1000 == 0);
        let a = pa & ADDR_MASK;
        let kb: u64 = match level {
            Level::L3 => DESC_PAGE,
            _ => DESC_BLOCK,
        };
        let k: u64 = match kind {
            MemKind::NormalWb => 0u64,
            MemKind::Device => 4u64,
        };
        let w: u64 = if perms.write { 0u64 } else { 0x80u64 };
        let x: u64 = if perms.execute { 0u64 } else { 0x20_0000_0000_0000u64 };
        assert(v == a | 0x400u64 | 0x300u64 | kb | (k | w | 0x40_0000_0000_0000u64 | x));
        assert({
            &&& v & 0x0000_FFFF_FFFF_F000u64 == pa
            &&& v & 0x3u64 == kb
            &&& (v >> 2u64) & 0x7u64 == (if k == 4 { 1u64 } else { 0u64 })
            &&& v & 0x80u64 == w
            &&& v & 0x40_0000_0000_0000u64 != 0
            &&& v & 0x20_0000_0000_0000u64 == x
        }) by (bit_vector)
            requires
                a == pa & 0x0000_FFFF_FFFF_F000u64,
                v == a | 0x400u64 | 0x300u64 | kb | (k | w | 0x40_0000_0000_0000u64 | x),
                pa % 0x1000 == 0,
                pa < 0x1_0000_0000_0000u64,
                kb == 1 || kb == 3,
                k == 0 || k == 4,
                w == 0 || w == 0x80,
                x == 0 || x == 0x20_0000_0000_0000u64;
    }
}
} // verus!
