//! Device-tree binding for the BCM2711 GENET v5 backend.
//!
//! Separate from the closed platform-information extraction in
//! [`crate::fdt`]: it translates only the GENET node's parent bus, resolves
//! its MDIO PHY, and returns a bounded binding contract. No address,
//! interrupt, or PHY number is compiled into the backend.
//!
//! [`boot_report`] is the printable product line: FDT extract only, never an
//! MMIO probe, never a service bind. An unmapped blob is reported as absent
//! even if a slice is supplied.
use vstd::prelude::*;
use vstd::string::*;
use crate::fdt::{
    bare_name, cells, cells_of, cstr, cstr_at, is_address_cells, is_reg, is_size_cells, n_address_cells, n_reg, n_size_cells,
    prop_u32_of, round4, strip_nul, strip_nul_spec, Bounds, FDT_MAGIC,
};
use crate::genet::{DmaWindow, DmaWindows};
use crate::text::{hex, push_hex};
use crate::wire::{be32_at, bytes_eq, find_byte, position_of, read_be32};

verus! {

pub const BEGIN_NODE: u32 = 1;
pub const END_NODE: u32 = 2;
pub const PROP: u32 = 3;
pub const NOP: u32 = 4;
pub const END: u32 = 9;
pub const MAX_DEPTH: usize = 8;
pub const MAX_RANGES: usize = 4;
pub const MAX_RANGE_BYTES: usize = 256;

#[derive(Debug, Clone, Copy, PartialEq, Eq, Structural)]
pub enum Error {
    Truncated,
    BadMagic,
    BadStructure,
    TooDeep,
    UnsupportedCells,
    Missing,
    Ambiguous,
    Incompatible,
    Disabled,
    InvalidRange,
    InvalidInterrupts,
    InvalidPhy,
}

#[derive(Debug, Clone, Copy, PartialEq, Eq, Structural)]
pub struct Interrupt {
    /// First interrupt-specifier cell; the phandle is [`Binding::interrupt_parent`].
    pub specifier0: u32,
    pub number: u32,
    pub flags: u32,
}

#[derive(Debug, Clone, Copy, PartialEq, Eq)]
pub struct Binding {
    pub mmio_base: u64,
    pub mmio_len: u64,
    pub interrupt_parent: u32,
    pub interrupts: [Interrupt; 2],
    pub dma: DmaWindows,
    pub phy_addr: u32,
    pub phy_mode_rgmii_rxid: bool,
}

/// Boot line for the GENET FDT binding. Not a device probe and not a
/// discovered platform fact.
#[derive(Debug, Clone, Copy, PartialEq, Eq)]
pub enum Report {
    Binding(Binding),
    Unavailable(Unavailable),
}

/// Why the GENET binding is not printable as present.
#[derive(Debug, Clone, Copy, PartialEq, Eq, Structural)]
pub enum Unavailable {
    NoDtb,
    Extract(Error),
}

/// One `ranges` / `dma-ranges` entry of the GENET's parent bus.
#[derive(Clone, Copy, Debug, PartialEq, Eq, Structural)]
pub struct Range {
    pub child: u64,
    pub parent: u64,
    pub size: u64,
}

// ---- names ----

/// `scb`
pub open spec fn n_scb() -> Seq<u8> {
    seq![0x73u8, 0x63, 0x62]
}

fn is_scb(n: &[u8]) -> (r: bool)
    ensures
        r == (n@ == n_scb()),
{
    let w: [u8; 3] = [0x73, 0x63, 0x62];
    assert(w@ =~= n_scb());
    bytes_eq(n, &w)
}

/// `ethernet`
pub open spec fn n_ethernet() -> Seq<u8> {
    seq![0x65u8, 0x74, 0x68, 0x65, 0x72, 0x6e, 0x65, 0x74]
}

fn is_ethernet(n: &[u8]) -> (r: bool)
    ensures
        r == (n@ == n_ethernet()),
{
    let w: [u8; 8] = [0x65, 0x74, 0x68, 0x65, 0x72, 0x6e, 0x65, 0x74];
    assert(w@ =~= n_ethernet());
    bytes_eq(n, &w)
}

/// `mdio`
pub open spec fn n_mdio() -> Seq<u8> {
    seq![0x6du8, 0x64, 0x69, 0x6f]
}

fn is_mdio(n: &[u8]) -> (r: bool)
    ensures
        r == (n@ == n_mdio()),
{
    let w: [u8; 4] = [0x6d, 0x64, 0x69, 0x6f];
    assert(w@ =~= n_mdio());
    bytes_eq(n, &w)
}

/// `ethernet-phy`
pub open spec fn n_ethernet_phy() -> Seq<u8> {
    seq![0x65u8, 0x74, 0x68, 0x65, 0x72, 0x6e, 0x65, 0x74, 0x2d, 0x70, 0x68, 0x79]
}

fn is_ethernet_phy(n: &[u8]) -> (r: bool)
    ensures
        r == (n@ == n_ethernet_phy()),
{
    let w: [u8; 12] = [0x65, 0x74, 0x68, 0x65, 0x72, 0x6e, 0x65, 0x74, 0x2d, 0x70, 0x68, 0x79];
    assert(w@ =~= n_ethernet_phy());
    bytes_eq(n, &w)
}

/// `interrupt-parent`
pub open spec fn n_interrupt_parent() -> Seq<u8> {
    seq![0x69u8, 0x6e, 0x74, 0x65, 0x72, 0x72, 0x75, 0x70, 0x74, 0x2d, 0x70, 0x61, 0x72, 0x65, 0x6e, 0x74]
}

fn is_interrupt_parent(n: &[u8]) -> (r: bool)
    ensures
        r == (n@ == n_interrupt_parent()),
{
    let w: [u8; 16] = [0x69, 0x6e, 0x74, 0x65, 0x72, 0x72, 0x75, 0x70, 0x74, 0x2d, 0x70, 0x61, 0x72, 0x65, 0x6e, 0x74];
    assert(w@ =~= n_interrupt_parent());
    bytes_eq(n, &w)
}

/// `ranges`
pub open spec fn n_ranges() -> Seq<u8> {
    seq![0x72u8, 0x61, 0x6e, 0x67, 0x65, 0x73]
}

fn is_ranges(n: &[u8]) -> (r: bool)
    ensures
        r == (n@ == n_ranges()),
{
    let w: [u8; 6] = [0x72, 0x61, 0x6e, 0x67, 0x65, 0x73];
    assert(w@ =~= n_ranges());
    bytes_eq(n, &w)
}

/// `dma-ranges`
pub open spec fn n_dma_ranges() -> Seq<u8> {
    seq![0x64u8, 0x6d, 0x61, 0x2d, 0x72, 0x61, 0x6e, 0x67, 0x65, 0x73]
}

fn is_dma_ranges(n: &[u8]) -> (r: bool)
    ensures
        r == (n@ == n_dma_ranges()),
{
    let w: [u8; 10] = [0x64, 0x6d, 0x61, 0x2d, 0x72, 0x61, 0x6e, 0x67, 0x65, 0x73];
    assert(w@ =~= n_dma_ranges());
    bytes_eq(n, &w)
}

/// `status`
pub open spec fn n_status() -> Seq<u8> {
    seq![0x73u8, 0x74, 0x61, 0x74, 0x75, 0x73]
}

fn is_status(n: &[u8]) -> (r: bool)
    ensures
        r == (n@ == n_status()),
{
    let w: [u8; 6] = [0x73, 0x74, 0x61, 0x74, 0x75, 0x73];
    assert(w@ =~= n_status());
    bytes_eq(n, &w)
}

/// `okay`
pub open spec fn n_okay() -> Seq<u8> {
    seq![0x6fu8, 0x6b, 0x61, 0x79]
}

fn is_okay(n: &[u8]) -> (r: bool)
    ensures
        r == (n@ == n_okay()),
{
    let w: [u8; 4] = [0x6f, 0x6b, 0x61, 0x79];
    assert(w@ =~= n_okay());
    bytes_eq(n, &w)
}

/// `interrupts`
pub open spec fn n_interrupts() -> Seq<u8> {
    seq![0x69u8, 0x6e, 0x74, 0x65, 0x72, 0x72, 0x75, 0x70, 0x74, 0x73]
}

fn is_interrupts(n: &[u8]) -> (r: bool)
    ensures
        r == (n@ == n_interrupts()),
{
    let w: [u8; 10] = [0x69, 0x6e, 0x74, 0x65, 0x72, 0x72, 0x75, 0x70, 0x74, 0x73];
    assert(w@ =~= n_interrupts());
    bytes_eq(n, &w)
}

/// `phy-handle`
pub open spec fn n_phy_handle() -> Seq<u8> {
    seq![0x70u8, 0x68, 0x79, 0x2d, 0x68, 0x61, 0x6e, 0x64, 0x6c, 0x65]
}

fn is_phy_handle(n: &[u8]) -> (r: bool)
    ensures
        r == (n@ == n_phy_handle()),
{
    let w: [u8; 10] = [0x70, 0x68, 0x79, 0x2d, 0x68, 0x61, 0x6e, 0x64, 0x6c, 0x65];
    assert(w@ =~= n_phy_handle());
    bytes_eq(n, &w)
}

/// `phy-mode`
pub open spec fn n_phy_mode() -> Seq<u8> {
    seq![0x70u8, 0x68, 0x79, 0x2d, 0x6d, 0x6f, 0x64, 0x65]
}

fn is_phy_mode(n: &[u8]) -> (r: bool)
    ensures
        r == (n@ == n_phy_mode()),
{
    let w: [u8; 8] = [0x70, 0x68, 0x79, 0x2d, 0x6d, 0x6f, 0x64, 0x65];
    assert(w@ =~= n_phy_mode());
    bytes_eq(n, &w)
}

/// `rgmii-rxid`
pub open spec fn n_rgmii_rxid() -> Seq<u8> {
    seq![0x72u8, 0x67, 0x6d, 0x69, 0x69, 0x2d, 0x72, 0x78, 0x69, 0x64]
}

fn is_rgmii_rxid(n: &[u8]) -> (r: bool)
    ensures
        r == (n@ == n_rgmii_rxid()),
{
    let w: [u8; 10] = [0x72, 0x67, 0x6d, 0x69, 0x69, 0x2d, 0x72, 0x78, 0x69, 0x64];
    assert(w@ =~= n_rgmii_rxid());
    bytes_eq(n, &w)
}

/// `phandle`
pub open spec fn n_phandle() -> Seq<u8> {
    seq![0x70u8, 0x68, 0x61, 0x6e, 0x64, 0x6c, 0x65]
}

fn is_phandle(n: &[u8]) -> (r: bool)
    ensures
        r == (n@ == n_phandle()),
{
    let w: [u8; 7] = [0x70, 0x68, 0x61, 0x6e, 0x64, 0x6c, 0x65];
    assert(w@ =~= n_phandle());
    bytes_eq(n, &w)
}

/// `brcm,bcm2711-genet-v5`
pub open spec fn genet_compat() -> Seq<u8> {
    seq![0x62u8, 0x72, 0x63, 0x6d, 0x2c, 0x62, 0x63, 0x6d, 0x32, 0x37, 0x31, 0x31, 0x2d, 0x67, 0x65, 0x6e, 0x65, 0x74, 0x2d, 0x76, 0x35]
}

fn is_genet_compat(n: &[u8]) -> (r: bool)
    ensures
        r == (n@ == genet_compat()),
{
    let w: [u8; 21] = [0x62, 0x72, 0x63, 0x6d, 0x2c, 0x62, 0x63, 0x6d, 0x32, 0x37, 0x31, 0x31, 0x2d, 0x67, 0x65, 0x6e, 0x65, 0x74, 0x2d, 0x76, 0x35];
    assert(w@ =~= genet_compat());
    bytes_eq(n, &w)
}

// ---- property pieces ----

/// Some NUL-separated entry of `v` equals the GENET v5 compatible string;
/// `s` is where the entry being read at `i` started.
pub open spec fn entry_at(v: Seq<u8>, s: int, i: int) -> bool
    decreases v.len() - i,
{
    if i >= v.len() {
        0 <= s <= v.len() && v.subrange(s, v.len() as int) == genet_compat()
    } else if i < 0 {
        false
    } else if v[i] == 0 {
        (0 <= s <= i && v.subrange(s, i) == genet_compat()) || entry_at(v, i + 1, i + 1)
    } else {
        entry_at(v, s, i + 1)
    }
}

/// The compatible list names the GENET v5.
fn compatible(value: &[u8]) -> (r: bool)
    ensures
        r == entry_at(value@, 0, 0),
{
    let mut s: usize = 0;
    let mut i: usize = 0;
    while i < value.len()
        invariant
            s <= i <= value@.len(),
            entry_at(value@, s as int, i as int) == entry_at(value@, 0, 0),
        decreases value@.len() - i,
    {
        if value[i] == 0 {
            let entry = vstd::slice::slice_subrange(value, s, i);
            if is_genet_compat(entry) {
                return true;
            }
            s = i + 1;
        }
        i = i + 1;
    }
    let entry = vstd::slice::slice_subrange(value, s, value.len());
    is_genet_compat(entry)
}

/// The `k`th entry of a `ranges` value with the given cell counts.
pub open spec fn range_at(v: Seq<u8>, k: int, cac: int, pac: int, sc: int) -> Range {
    let o = k * ((cac + pac + sc) * 4);
    Range {
        child: cells_of(v, o, cac),
        parent: cells_of(v, o + cac * 4, pac),
        size: cells_of(v, o + (cac + pac) * 4, sc),
    }
}

/// A usable entry: non-empty, and neither side wraps.
pub open spec fn range_ok(r: Range) -> bool {
    r.size != 0 && r.child + r.size <= u64::MAX && r.parent + r.size <= u64::MAX
}

/// The entries from the `k`th of `n`, at most [`MAX_RANGES`] in all.
pub open spec fn ranges_from(v: Seq<u8>, cac: int, pac: int, sc: int, k: int, n: int) -> Result<Seq<Range>, Error>
    decreases n - k,
{
    if k >= n {
        Ok(Seq::empty())
    } else if k == MAX_RANGES {
        Err(Error::Ambiguous)
    } else if !range_ok(range_at(v, k, cac, pac, sc)) {
        Err(Error::InvalidRange)
    } else {
        match ranges_from(v, cac, pac, sc, k + 1, n) {
            Ok(rest) => Ok(seq![range_at(v, k, cac, pac, sc)] + rest),
            Err(e) => Err(e),
        }
    }
}

/// A whole `ranges` value.
pub open spec fn parse_ranges(v: Seq<u8>, cac: u32, pac: u32, sc: u32) -> Result<Seq<Range>, Error> {
    if !(1 <= cac <= 2) || !(1 <= pac <= 2) || !(1 <= sc <= 2) {
        Err(Error::UnsupportedCells)
    } else {
        let stride = (cac + pac + sc) * 4;
        if (v.len() as int) % stride != 0 {
            Err(Error::UnsupportedCells)
        } else {
            ranges_from(v, cac as int, pac as int, sc as int, 0, (v.len() as int) / stride)
        }
    }
}

proof fn lemma_ranges_from_len(v: Seq<u8>, cac: int, pac: int, sc: int, k: int, n: int)
    requires
        0 <= k <= MAX_RANGES,
    ensures
        ranges_from(v, cac, pac, sc, k, n) is Ok ==> ranges_from(v, cac, pac, sc, k, n)->Ok_0.len() == (if k >= n { 0 } else { n - k }),
        ranges_from(v, cac, pac, sc, k, n) is Ok ==> n <= MAX_RANGES || k >= n,
        ranges_from(v, cac, pac, sc, k, n) is Ok ==> forall|j: int| 0 <= j < ranges_from(v, cac, pac, sc, k, n)->Ok_0.len()
            ==> range_ok(#[trigger] ranges_from(v, cac, pac, sc, k, n)->Ok_0[j]),
    decreases n - k,
{
    if k < n && k != MAX_RANGES && range_ok(range_at(v, k, cac, pac, sc)) {
        lemma_ranges_from_len(v, cac, pac, sc, k + 1, n);
        if let Ok(rest) = ranges_from(v, cac, pac, sc, k + 1, n) {
            let all = seq![range_at(v, k, cac, pac, sc)] + rest;
            assert forall|j: int| 0 <= j < all.len() implies range_ok(#[trigger] all[j]) by {
                if j > 0 {
                    assert(all[j] == rest[j - 1]);
                }
            }
        }
    }
}

/// Parse a `ranges` value (child cells, parent cells, size cells).
fn ranges(value: &[u8], child_ac: u32, parent_ac: u32, sc: u32) -> (r: Result<([Range; MAX_RANGES], usize), Error>)
    ensures
        match parse_ranges(value@, child_ac, parent_ac, sc) {
            Ok(rs) => (r is Ok) && r->Ok_0.1 == rs.len() && rs.len() <= MAX_RANGES
                && (value@.len() > 0 ==> rs.len() >= 1)
                && forall|j: int| 0 <= j < rs.len() ==> #[trigger] r->Ok_0.0[j] == rs[j] && range_ok(rs[j]),
            Err(e) => (r is Err) && r->Err_0 == e,
        },
{
    if child_ac < 1 || child_ac > 2 || parent_ac < 1 || parent_ac > 2 || sc < 1 || sc > 2 {
        return Err(Error::UnsupportedCells);
    }
    let stride = (child_ac + parent_ac + sc) as usize * 4;
    if value.len() % stride != 0 {
        return Err(Error::UnsupportedCells);
    }
    let ghost n = value.len() / stride;
    let ghost (cac, pac, scc) = (child_ac as int, parent_ac as int, sc as int);
    let mut out = [Range { child: 0, parent: 0, size: 0 }; MAX_RANGES];
    let mut count: usize = 0;
    let mut off: usize = 0;
    proof {
        assert(value.len() == n * stride) by (nonlinear_arith)
            requires value.len() % stride == 0, n == value.len() / stride, stride > 0;
        lemma_ranges_from_len(value@, cac, pac, scc, 0, n as int);
    }
    while off < value.len()
        invariant
            1 <= child_ac <= 2,
            1 <= parent_ac <= 2,
            1 <= sc <= 2,
            cac == child_ac,
            pac == parent_ac,
            scc == sc,
            stride == (child_ac + parent_ac + sc) * 4,
            value.len() == n * stride,
            off == count * stride,
            count <= n,
            count <= MAX_RANGES,
            forall|j: int| 0 <= j < count ==> #[trigger] out[j] == range_at(value@, j, cac, pac, scc),
            parse_ranges(value@, child_ac, parent_ac, sc) == (match ranges_from(value@, cac, pac, scc, count as int, n as int) {
                Ok(rest) => Ok::<Seq<Range>, Error>(out@.take(count as int) + rest),
                Err(e) => Err::<Seq<Range>, Error>(e),
            }),
        decreases value.len() - off,
    {
        proof {
            assert(count < n && off + stride <= value.len()) by (nonlinear_arith)
                requires off == count * stride, value.len() == n * stride, off < value.len(), stride > 0;
        }
        if count == MAX_RANGES {
            return Err(Error::Ambiguous);
        }
        let child_bytes = child_ac as usize * 4;
        let parent_bytes = parent_ac as usize * 4;
        let child = cells(value, off, child_ac as usize);
        let parent = cells(value, off + child_bytes, parent_ac as usize);
        let size = cells(value, off + child_bytes + parent_bytes, sc as usize);
        assert(Range { child, parent, size } == range_at(value@, count as int, cac, pac, scc));
        if size == 0 || child.checked_add(size).is_none() || parent.checked_add(size).is_none() {
            return Err(Error::InvalidRange);
        }
        let ghost before = out@.take(count as int);
        out[count] = Range { child, parent, size };
        proof {
            assert(out@.take(count as int + 1) =~= before.push(Range { child, parent, size }));
            if let Ok(rest) = ranges_from(value@, cac, pac, scc, count as int + 1, n as int) {
                assert(before + (seq![range_at(value@, count as int, cac, pac, scc)] + rest)
                    =~= before.push(Range { child, parent, size }) + rest);
            }
        }
        count = count + 1;
        off = off + stride;
        proof {
            assert(off == count * stride) by (nonlinear_arith)
                requires off == (count - 1) * stride + stride;
        }
    }
    proof {
        assert(count == n) by (nonlinear_arith)
            requires off == count * stride, value.len() == n * stride, off >= value.len(), count <= n, stride > 0;
        assert(value.len() > 0 ==> n >= 1) by (nonlinear_arith)
            requires value.len() == n * stride, stride > 0;
        lemma_ranges_from_len(value@, cac, pac, scc, 0, n as int);
        assert(out@.take(count as int) + Seq::<Range>::empty() =~= out@.take(count as int));
    }
    Ok((out, count))
}

/// Bus address `[address, address + len)` through an ordered `ranges` map:
/// the first entry that covers it wins.
pub open spec fn translate_from(address: u64, end: int, m: Seq<Range>, i: int) -> Result<u64, Error>
    decreases m.len() - i,
{
    if i < 0 || i >= m.len() {
        Err(Error::InvalidRange)
    } else if address >= m[i].child && end <= m[i].child + m[i].size {
        if m[i].parent + (address - m[i].child) > u64::MAX {
            Err(Error::InvalidRange)
        } else {
            Ok((m[i].parent + (address - m[i].child)) as u64)
        }
    } else {
        translate_from(address, end, m, i + 1)
    }
}

/// The whole translation.
pub open spec fn translate_spec(address: u64, len: u64, m: Seq<Range>) -> Result<u64, Error> {
    if address + len > u64::MAX { Err(Error::InvalidRange) } else { translate_from(address, address + len, m, 0) }
}

fn translate(address: u64, len: u64, map: &[Range; MAX_RANGES], count: usize) -> (r: Result<u64, Error>)
    requires
        count <= MAX_RANGES,
        forall|j: int| 0 <= j < count ==> range_ok(#[trigger] map[j]),
    ensures
        r == translate_spec(address, len, map@.take(count as int)),
{
    let end = match address.checked_add(len) {
        Some(e) => e,
        None => return Err(Error::InvalidRange),
    };
    let ghost m = map@.take(count as int);
    let mut i: usize = 0;
    while i < count
        invariant
            count <= MAX_RANGES,
            m == map@.take(count as int),
            forall|j: int| 0 <= j < count ==> range_ok(#[trigger] map[j]),
            i <= count,
            end == address + len,
            translate_from(address, end as int, m, i as int) == translate_from(address, end as int, m, 0),
        decreases count - i,
    {
        let r = map[i];
        assert(m[i as int] == r);
        if address >= r.child && end <= r.child + r.size {
            // Ranges are an ordered mapping; the first applicable window
            // wins. BCM2711 ends with a broad fallback range that overlaps
            // its device windows.
            return match r.parent.checked_add(address - r.child) {
                Some(a) => Ok(a),
                None => Err(Error::InvalidRange),
            };
        }
        i = i + 1;
    }
    Err(Error::InvalidRange)
}


// ---- the walk ----

/// What the walk has gathered so far.
pub struct Scan {
    pub depth: int,
    pub scb: bool,
    pub genet: bool,
    pub mdio: bool,
    pub phy: bool,
    pub genet_count: nat,
    pub genet_reg: Option<(u64, u64)>,
    pub interrupts: (Interrupt, Interrupt),
    pub interrupt_count: nat,
    pub status_okay: bool,
    pub compat: bool,
    pub phy_handle: Option<u32>,
    pub phy_candidate: Option<(u32, u32)>,
    pub phy_mode: bool,
    pub interrupt_parent: Option<u32>,
    pub scb_ac: u32,
    pub scb_sc: u32,
    pub ranges_raw: Seq<u8>,
    pub dma_ranges_raw: Seq<u8>,
}

/// The all-zero interrupt.
pub open spec fn no_interrupt() -> Interrupt {
    Interrupt { specifier0: 0, number: 0, flags: 0 }
}

/// Nothing seen yet.
pub open spec fn initial_scan() -> Scan {
    Scan {
        depth: 0,
        scb: false,
        genet: false,
        mdio: false,
        phy: false,
        genet_count: 0,
        genet_reg: None,
        interrupts: (no_interrupt(), no_interrupt()),
        interrupt_count: 0,
        status_okay: false,
        compat: false,
        phy_handle: None,
        phy_candidate: None,
        phy_mode: false,
        interrupt_parent: None,
        scb_ac: 0,
        scb_sc: 0,
        ranges_raw: Seq::empty(),
        dma_ranges_raw: Seq::empty(),
    }
}

/// Entering a node named `name`: `/scb`, then its `ethernet`, that node's
/// `mdio`, and the `ethernet-phy` under it are tracked.
pub open spec fn enter_node(sc: Scan, name: Seq<u8>) -> Scan {
    let bare = bare_name(name);
    let d = sc.depth + 1;
    if d == 2 && bare == n_scb() {
        Scan { depth: d, scb: true, ..sc }
    } else if d == 3 && sc.scb && bare == n_ethernet() {
        Scan { depth: d, genet: true, genet_count: sc.genet_count + 1, ..sc }
    } else if d == 4 && sc.genet && bare == n_mdio() {
        Scan { depth: d, mdio: true, ..sc }
    } else if d == 5 && sc.mdio && bare == n_ethernet_phy() {
        Scan { depth: d, phy: true, ..sc }
    } else {
        Scan { depth: d, ..sc }
    }
}

/// Leaving a node closes the tracked node at that depth.
pub open spec fn leave_node(sc: Scan) -> Scan {
    let d = sc.depth;
    let s2 = if d == 5 {
        Scan { phy: false, ..sc }
    } else if d == 4 {
        Scan { mdio: false, ..sc }
    } else if d == 3 {
        Scan { genet: false, ..sc }
    } else if d == 2 {
        Scan { scb: false, ..sc }
    } else {
        sc
    };
    Scan { depth: d - 1, ..s2 }
}

/// The interrupt specifier of three cells at `o`.
pub open spec fn irq_at(v: Seq<u8>, o: int) -> Interrupt {
    Interrupt { specifier0: be32_at(v, o), number: be32_at(v, o + 4), flags: be32_at(v, o + 8) }
}

/// A one-cell property, or `BadStructure`.
pub open spec fn cell_of(v: Seq<u8>) -> Result<u32, Error> {
    match prop_u32_of(v) {
        Some(x) => Ok(x),
        None => Err(Error::BadStructure),
    }
}

/// A property of the `/scb` node.
pub open spec fn absorb_scb(sc: Scan, name: Seq<u8>, v: Seq<u8>) -> Result<Scan, Error> {
    if name == n_address_cells() {
        match cell_of(v) {
            Ok(x) => Ok(Scan { scb_ac: x, ..sc }),
            Err(e) => Err(e),
        }
    } else if name == n_size_cells() {
        match cell_of(v) {
            Ok(x) => Ok(Scan { scb_sc: x, ..sc }),
            Err(e) => Err(e),
        }
    } else if name == n_ranges() {
        if v.len() > MAX_RANGE_BYTES { Err(Error::Ambiguous) } else { Ok(Scan { ranges_raw: v, ..sc }) }
    } else if name == n_dma_ranges() {
        if v.len() > MAX_RANGE_BYTES { Err(Error::Ambiguous) } else { Ok(Scan { dma_ranges_raw: v, ..sc }) }
    } else {
        Ok(sc)
    }
}

/// A property of the GENET node.
pub open spec fn absorb_genet(sc: Scan, name: Seq<u8>, v: Seq<u8>) -> Result<Scan, Error> {
    if name == crate::fdt::n_compatible() {
        Ok(Scan { compat: entry_at(v, 0, 0), ..sc })
    } else if name == n_status() {
        Ok(Scan { status_okay: strip_nul_spec(v) == n_okay(), ..sc })
    } else if name == n_reg() {
        if v.len() != 16 {
            Err(Error::BadStructure)
        } else {
            Ok(Scan { genet_reg: Some((cells_of(v, 0, 2), cells_of(v, 8, 2))), ..sc })
        }
    } else if name == n_interrupts() {
        if v.len() != 24 {
            Err(Error::InvalidInterrupts)
        } else {
            Ok(Scan { interrupts: (irq_at(v, 0), irq_at(v, 12)), interrupt_count: 2, ..sc })
        }
    } else if name == n_phy_handle() {
        match cell_of(v) {
            Ok(x) => Ok(Scan { phy_handle: Some(x), ..sc }),
            Err(e) => Err(e),
        }
    } else if name == n_phy_mode() {
        Ok(Scan { phy_mode: strip_nul_spec(v) == n_rgmii_rxid(), ..sc })
    } else {
        Ok(sc)
    }
}

/// A property of the PHY node: its phandle and its MDIO address.
pub open spec fn absorb_phy(sc: Scan, name: Seq<u8>, v: Seq<u8>) -> Result<Scan, Error> {
    let first = if name == n_phandle() {
        match cell_of(v) {
            Ok(p) => Ok(Scan {
                phy_candidate: Some((p, match sc.phy_candidate { Some(c) => c.1, None => 0 })),
                ..sc
            }),
            Err(e) => Err(e),
        }
    } else {
        Ok(sc)
    };
    match first {
        Err(e) => Err(e),
        Ok(s2) => if name == n_reg() {
            match cell_of(v) {
                Ok(a) => Ok(Scan {
                    phy_candidate: Some((match s2.phy_candidate { Some(c) => c.0, None => 0 }, a)),
                    ..s2
                }),
                Err(e) => Err(e),
            }
        } else {
            Ok(s2)
        },
    }
}

/// One property, routed by where the walk is.
pub open spec fn absorb_spec(sc: Scan, name: Seq<u8>, v: Seq<u8>) -> Result<Scan, Error> {
    if sc.depth == 1 && name == n_interrupt_parent() {
        match cell_of(v) {
            Ok(x) => Ok(Scan { interrupt_parent: Some(x), ..sc }),
            Err(e) => Err(e),
        }
    } else if sc.depth == 2 && sc.scb {
        absorb_scb(sc, name, v)
    } else if sc.depth == 3 && sc.genet {
        absorb_genet(sc, name, v)
    } else if sc.depth == 5 && sc.phy {
        absorb_phy(sc, name, v)
    } else {
        Ok(sc)
    }
}

/// A `BEGIN_NODE` whose name starts at `p`: where the next token is, and
/// the scan inside the node.
pub open spec fn begin_step(data: Seq<u8>, b: Bounds, p: int, sc: Scan) -> Result<(int, Scan), Error> {
    match cstr_at(data, p, b.struct_end) {
        None => Err(Error::BadStructure),
        Some(name) => if sc.depth == MAX_DEPTH {
            Err(Error::TooDeep)
        } else {
            Ok((round4(p + name.len() + 1), enter_node(sc, name)))
        },
    }
}

/// A `PROP` whose header starts at `p`: where the next token is, and the
/// scan with the property folded in.
pub open spec fn prop_step(data: Seq<u8>, b: Bounds, p: int, sc: Scan) -> Result<(int, Scan), Error> {
    if p + 8 > data.len() {
        Err(Error::Truncated)
    } else {
        let vo = p + 8;
        let ve = vo + be32_at(data, p);
        let at = b.strings_off + be32_at(data, p + 4);
        if ve > usize::MAX || ve > b.struct_end || at > usize::MAX {
            Err(Error::BadStructure)
        } else {
            match cstr_at(data, at, b.strings_end) {
                None => Err(Error::BadStructure),
                Some(name) => match absorb_spec(sc, name, data.subrange(vo, ve)) {
                    Err(e) => Err(e),
                    Ok(s2) => Ok((round4(ve), s2)),
                },
            }
        }
    }
}

/// The walk from the token at `off`, with at most `budget` tokens left.
pub open spec fn walk(data: Seq<u8>, b: Bounds, off: int, sc: Scan, budget: nat) -> Result<Scan, Error>
    decreases budget,
{
    if budget == 0 {
        Err(Error::BadStructure)
    } else if off + 4 > data.len() {
        Err(Error::Truncated)
    } else {
        let token = be32_at(data, off);
        let p = off + 4;
        let left = (budget - 1) as nat;
        if token == BEGIN_NODE {
            match begin_step(data, b, p, sc) {
                Err(e) => Err(e),
                Ok((o, s2)) => walk(data, b, o, s2, left),
            }
        } else if token == END_NODE {
            if sc.depth == 0 { Err(Error::BadStructure) } else { walk(data, b, p, leave_node(sc), left) }
        } else if token == PROP {
            match prop_step(data, b, p, sc) {
                Err(e) => Err(e),
                Ok((o, s2)) => walk(data, b, o, s2, left),
            }
        } else if token == NOP {
            walk(data, b, p, sc, left)
        } else if token == END {
            if sc.depth != 0 { Err(Error::BadStructure) } else { Ok(sc) }
        } else {
            Err(Error::BadStructure)
        }
    }
}

/// A validated binding, with its DMA windows unbounded.
pub struct BindingModel {
    pub mmio_base: u64,
    pub mmio_len: u64,
    pub interrupt_parent: u32,
    pub interrupts: (Interrupt, Interrupt),
    pub dma: Seq<DmaWindow>,
    pub phy_addr: u32,
    pub phy_mode_rgmii_rxid: bool,
}

/// The DMA window of a `dma-ranges` entry.
pub open spec fn window_of(r: Range) -> DmaWindow {
    DmaWindow { base: r.child, cpu_base: r.parent, len: r.size }
}

/// The checks after the walk, in order, and the binding they leave.
pub open spec fn finish_spec(sc: Scan) -> Result<BindingModel, Error> {
    if sc.genet_count != 1 {
        if sc.genet_count == 0 { Err(Error::Missing) } else { Err(Error::Ambiguous) }
    } else if !sc.compat {
        Err(Error::Incompatible)
    } else if !sc.status_okay {
        Err(Error::Disabled)
    } else if !sc.phy_mode {
        Err(Error::Incompatible)
    } else if sc.scb_ac == 0 || sc.scb_sc == 0 || sc.ranges_raw.len() == 0 || sc.dma_ranges_raw.len() == 0 {
        Err(Error::Missing)
    } else {
        match parse_ranges(sc.ranges_raw, sc.scb_ac, 2, sc.scb_sc) {
            Err(e) => Err(e),
            Ok(rs) => match parse_ranges(sc.dma_ranges_raw, sc.scb_ac, 2, sc.scb_sc) {
                Err(e) => Err(e),
                Ok(ds) => match sc.genet_reg {
                    None => Err(Error::Missing),
                    Some(reg) => if reg.1 != 0x10000 {
                        Err(Error::Incompatible)
                    } else {
                        match translate_spec(reg.0, reg.1, rs) {
                            Err(e) => Err(e),
                            Ok(base) => {
                                let phy_ok = match sc.phy_candidate {
                                    Some(c) => sc.phy_handle == Some(c.0),
                                    None => false,
                                };
                                if !phy_ok {
                                    Err(Error::InvalidPhy)
                                } else if sc.interrupt_count != 2 || sc.interrupts.0.flags != 4 || sc.interrupts.1.flags != 4 {
                                    Err(Error::InvalidInterrupts)
                                } else if sc.interrupt_parent is None {
                                    Err(Error::InvalidInterrupts)
                                } else {
                                    Ok(BindingModel {
                                        mmio_base: base,
                                        mmio_len: reg.1,
                                        interrupt_parent: sc.interrupt_parent->0,
                                        interrupts: sc.interrupts,
                                        dma: ds.map_values(|r: Range| window_of(r)),
                                        phy_addr: (sc.phy_candidate->0).1,
                                        phy_mode_rgmii_rxid: sc.phy_mode,
                                    })
                                }
                            },
                        }
                    },
                },
            },
        }
    }
}

/// The whole extraction: header checks, the walk, the checks after it.
/// Header words as in [`crate::fdt::extract_spec`]; no version check here.
pub open spec fn extract_spec(data: Seq<u8>) -> Result<BindingModel, Error> {
    if data.len() < 40 {
        Err(Error::Truncated)
    } else if be32_at(data, 0) != FDT_MAGIC {
        Err(Error::BadMagic)
    } else {
        let total = be32_at(data, 4) as int;
        let struct_off = be32_at(data, 8) as int;
        let strings_off = be32_at(data, 12) as int;
        let strings_len = be32_at(data, 32) as int;
        let struct_len = be32_at(data, 36) as int;
        if struct_off + struct_len > usize::MAX || strings_off + strings_len > usize::MAX || total > data.len()
            || struct_off + struct_len > total || strings_off + strings_len > total {
            Err(Error::Truncated)
        } else {
            match walk(
                data,
                Bounds { struct_end: struct_off + struct_len, strings_off, strings_end: strings_off + strings_len },
                struct_off,
                initial_scan(),
                (struct_len / 4 + 1) as nat,
            ) {
                Err(e) => Err(e),
                Ok(sc) => finish_spec(sc),
            }
        }
    }
}

impl Binding {
    /// `self` is the bounded form of `m`.
    pub open spec fn models(&self, m: BindingModel) -> bool {
        &&& self.mmio_base == m.mmio_base
        &&& self.mmio_len == m.mmio_len
        &&& self.interrupt_parent == m.interrupt_parent
        &&& self.interrupts[0] == m.interrupts.0
        &&& self.interrupts[1] == m.interrupts.1
        &&& self.dma.count == m.dma.len()
        &&& forall|j: int| 0 <= j < self.dma.count ==> #[trigger] self.dma.windows[j] == m.dma[j]
        &&& forall|j: int| self.dma.count <= j < 4 ==> #[trigger] self.dma.windows[j] == (DmaWindow { base: 0, cpu_base: 0, len: 0 })
        &&& self.phy_addr == m.phy_addr
        &&& self.phy_mode_rgmii_rxid == m.phy_mode_rgmii_rxid
    }
}


/// The walker's state. The raw `ranges` values are kept until the walk
/// ends, when the cell counts are final.
struct State {
    depth: usize,
    scb: bool,
    genet: bool,
    mdio: bool,
    phy: bool,
    genet_count: u32,
    genet_reg: Option<(u64, u64)>,
    interrupts: [Interrupt; 2],
    interrupt_count: usize,
    status_okay: bool,
    compat: bool,
    phy_handle: Option<u32>,
    phy_candidate: Option<(u32, u32)>,
    phy_mode: bool,
    interrupt_parent: Option<u32>,
    scb_ac: u32,
    scb_sc: u32,
    ranges_raw: [u8; MAX_RANGE_BYTES],
    ranges_raw_len: usize,
    dma_ranges_raw: [u8; MAX_RANGE_BYTES],
    dma_ranges_raw_len: usize,
}

impl State {
    spec fn models(&self, sc: Scan) -> bool {
        &&& self.depth == sc.depth
        &&& self.scb == sc.scb
        &&& self.genet == sc.genet
        &&& self.mdio == sc.mdio
        &&& self.phy == sc.phy
        &&& self.genet_count == sc.genet_count
        &&& self.genet_reg == sc.genet_reg
        &&& self.interrupts[0] == sc.interrupts.0
        &&& self.interrupts[1] == sc.interrupts.1
        &&& self.interrupt_count == sc.interrupt_count
        &&& self.status_okay == sc.status_okay
        &&& self.compat == sc.compat
        &&& self.phy_handle == sc.phy_handle
        &&& self.phy_candidate == sc.phy_candidate
        &&& self.phy_mode == sc.phy_mode
        &&& self.interrupt_parent == sc.interrupt_parent
        &&& self.scb_ac == sc.scb_ac
        &&& self.scb_sc == sc.scb_sc
        &&& self.ranges_raw_len <= MAX_RANGE_BYTES
        &&& self.ranges_raw@.take(self.ranges_raw_len as int) == sc.ranges_raw
        &&& self.dma_ranges_raw_len <= MAX_RANGE_BYTES
        &&& self.dma_ranges_raw@.take(self.dma_ranges_raw_len as int) == sc.dma_ranges_raw
    }

    fn new() -> (r: Self)
        ensures
            r.models(initial_scan()),
    {
        let r = Self {
            depth: 0,
            scb: false,
            genet: false,
            mdio: false,
            phy: false,
            genet_count: 0,
            genet_reg: None,
            interrupts: [Interrupt { specifier0: 0, number: 0, flags: 0 }; 2],
            interrupt_count: 0,
            status_okay: false,
            compat: false,
            phy_handle: None,
            phy_candidate: None,
            phy_mode: false,
            interrupt_parent: None,
            scb_ac: 0,
            scb_sc: 0,
            ranges_raw: [0; MAX_RANGE_BYTES],
            ranges_raw_len: 0,
            dma_ranges_raw: [0; MAX_RANGE_BYTES],
            dma_ranges_raw_len: 0,
        };
        assert(r.ranges_raw@.take(0) =~= Seq::<u8>::empty());
        assert(r.dma_ranges_raw@.take(0) =~= Seq::<u8>::empty());
        r
    }
}

/// Copy `value` into the front of `buf`.
fn store_raw(buf: &mut [u8; MAX_RANGE_BYTES], value: &[u8])
    requires
        value@.len() <= MAX_RANGE_BYTES,
    ensures
        final(buf)@.take(value@.len() as int) == value@,
{
    let mut i: usize = 0;
    while i < value.len()
        invariant
            value@.len() <= MAX_RANGE_BYTES,
            i <= value@.len(),
            buf@.len() == MAX_RANGE_BYTES,
            forall|j: int| 0 <= j < i ==> buf@[j] == value@[j],
        decreases value@.len() - i,
    {
        buf[i] = value[i];
        i = i + 1;
    }
    assert(buf@.take(value@.len() as int) =~= value@);
}

fn prop_u32(value: &[u8]) -> (r: Result<u32, Error>)
    ensures
        r == cell_of(value@),
{
    if value.len() != 4 {
        return Err(Error::BadStructure);
    }
    Ok(read_be32(value, 0))
}

#[verifier::rlimit(60)]
fn absorb(s: &mut State, name: &[u8], value: &[u8], Ghost(sc): Ghost<Scan>) -> (r: Result<(), Error>)
    requires
        old(s).models(sc),
    ensures
        match absorb_spec(sc, name@, value@) {
            Ok(s2) => (r is Ok) && final(s).models(s2),
            Err(e) => (r is Err) && r->Err_0 == e,
        },
        final(s).depth == old(s).depth,
        final(s).genet_count == old(s).genet_count,
        !((old(s).depth == 1 && name@ == n_interrupt_parent()) || (old(s).depth == 2 && old(s).scb)
            || (old(s).depth == 3 && old(s).genet) || (old(s).depth == 5 && old(s).phy))
            ==> (r is Ok) && *final(s) == *old(s),
{
    if s.depth == 1 && is_interrupt_parent(name) {
        match prop_u32(value) {
            Ok(v) => s.interrupt_parent = Some(v),
            Err(e) => return Err(e),
        }
    } else if s.depth == 2 && s.scb {
        if is_address_cells(name) {
            match prop_u32(value) {
                Ok(v) => s.scb_ac = v,
                Err(e) => return Err(e),
            }
        } else if is_size_cells(name) {
            match prop_u32(value) {
                Ok(v) => s.scb_sc = v,
                Err(e) => return Err(e),
            }
        } else if is_ranges(name) {
            if value.len() > MAX_RANGE_BYTES {
                return Err(Error::Ambiguous);
            }
            store_raw(&mut s.ranges_raw, value);
            s.ranges_raw_len = value.len();
        } else if is_dma_ranges(name) {
            if value.len() > MAX_RANGE_BYTES {
                return Err(Error::Ambiguous);
            }
            store_raw(&mut s.dma_ranges_raw, value);
            s.dma_ranges_raw_len = value.len();
        }
    } else if s.depth == 3 && s.genet {
        if crate::fdt::is_compatible(name) {
            s.compat = compatible(value);
        } else if is_status(name) {
            s.status_okay = is_okay(strip_nul(value));
        } else if is_reg(name) {
            if value.len() != 16 {
                return Err(Error::BadStructure);
            }
            s.genet_reg = Some((cells(value, 0, 2), cells(value, 8, 2)));
        } else if is_interrupts(name) {
            if value.len() != 24 {
                return Err(Error::InvalidInterrupts);
            }
            s.interrupts[0] = Interrupt {
                specifier0: read_be32(value, 0),
                number: read_be32(value, 4),
                flags: read_be32(value, 8),
            };
            s.interrupts[1] = Interrupt {
                specifier0: read_be32(value, 12),
                number: read_be32(value, 16),
                flags: read_be32(value, 20),
            };
            s.interrupt_count = 2;
        } else if is_phy_handle(name) {
            match prop_u32(value) {
                Ok(v) => s.phy_handle = Some(v),
                Err(e) => return Err(e),
            }
        } else if is_phy_mode(name) {
            s.phy_mode = is_rgmii_rxid(strip_nul(value));
        }
    } else if s.depth == 5 && s.phy {
        if is_phandle(name) {
            let p = match prop_u32(value) {
                Ok(v) => v,
                Err(e) => return Err(e),
            };
            let addr = match s.phy_candidate {
                Some(c) => c.1,
                None => 0,
            };
            s.phy_candidate = Some((p, addr));
        }
        if is_reg(name) {
            let addr = match prop_u32(value) {
                Ok(v) => v,
                Err(e) => return Err(e),
            };
            let p = match s.phy_candidate {
                Some(c) => c.0,
                None => 0,
            };
            s.phy_candidate = Some((p, addr));
        }
    }
    Ok(())
}


/// The checks after the walk.
fn finish(s: &State, Ghost(sc): Ghost<Scan>) -> (r: Result<Binding, Error>)
    requires
        s.models(sc),
    ensures
        match finish_spec(sc) {
            Ok(m) => (r is Ok) && r->Ok_0.models(m),
            Err(e) => (r is Err) && r->Err_0 == e,
        },
{
    if s.genet_count != 1 {
        return Err(if s.genet_count == 0 { Error::Missing } else { Error::Ambiguous });
    }
    if !s.compat {
        return Err(Error::Incompatible);
    }
    if !s.status_okay {
        return Err(Error::Disabled);
    }
    if !s.phy_mode {
        return Err(Error::Incompatible);
    }
    if s.scb_ac == 0 || s.scb_sc == 0 || s.ranges_raw_len == 0 || s.dma_ranges_raw_len == 0 {
        return Err(Error::Missing);
    }
    let raw = vstd::slice::slice_subrange(s.ranges_raw.as_slice(), 0, s.ranges_raw_len);
    assert(raw@ == sc.ranges_raw);
    let (bus_map, range_count) = match ranges(raw, s.scb_ac, 2, s.scb_sc) {
        Ok(x) => x,
        Err(e) => return Err(e),
    };
    let dma_raw = vstd::slice::slice_subrange(s.dma_ranges_raw.as_slice(), 0, s.dma_ranges_raw_len);
    assert(dma_raw@ == sc.dma_ranges_raw);
    let (dma_ranges, dma_count) = match ranges(dma_raw, s.scb_ac, 2, s.scb_sc) {
        Ok(x) => x,
        Err(e) => return Err(e),
    };
    let ghost rs = parse_ranges(sc.ranges_raw, sc.scb_ac, 2, sc.scb_sc)->Ok_0;
    let ghost ds = parse_ranges(sc.dma_ranges_raw, sc.scb_ac, 2, sc.scb_sc)->Ok_0;
    let (bus_addr, mmio_len) = match s.genet_reg {
        Some(reg) => reg,
        None => return Err(Error::Missing),
    };
    if mmio_len != 0x10000 {
        return Err(Error::Incompatible);
    }
    assert(bus_map@.take(range_count as int) =~= rs);
    let mmio_base = match translate(bus_addr, mmio_len, &bus_map, range_count) {
        Ok(b) => b,
        Err(e) => return Err(e),
    };
    let mut dma_windows = [DmaWindow { base: 0, cpu_base: 0, len: 0 }; MAX_RANGES];
    let mut index: usize = 0;
    while index < dma_count
        invariant
            dma_count == ds.len(),
            dma_count <= MAX_RANGES,
            index <= dma_count,
            forall|j: int| 0 <= j < dma_count ==> #[trigger] dma_ranges[j] == ds[j] && range_ok(ds[j]),
            forall|j: int| 0 <= j < index ==> #[trigger] dma_windows[j] == window_of(ds[j]),
            forall|j: int| index <= j < MAX_RANGES ==> #[trigger] dma_windows[j] == (DmaWindow { base: 0, cpu_base: 0, len: 0 }),
        decreases dma_count - index,
    {
        let range = dma_ranges[index];
        match DmaWindow::mapped(range.child, range.parent, range.size) {
            Some(w) => dma_windows[index] = w,
            None => return Err(Error::InvalidRange),
        }
        index = index + 1;
    }
    let dma = match DmaWindows::new(dma_windows, dma_count as u8) {
        Some(d) => d,
        None => return Err(Error::InvalidRange),
    };
    let phy_addr = match s.phy_candidate {
        Some((phandle, addr)) => {
            let same = match s.phy_handle {
                Some(h) => h == phandle,
                None => false,
            };
            if !same {
                return Err(Error::InvalidPhy);
            }
            addr
        },
        None => return Err(Error::InvalidPhy),
    };
    if s.interrupt_count != 2 || s.interrupts[0].flags != 4 || s.interrupts[1].flags != 4 {
        return Err(Error::InvalidInterrupts);
    }
    let interrupt_parent = match s.interrupt_parent {
        Some(p) => p,
        None => return Err(Error::InvalidInterrupts),
    };
    Ok(Binding {
        mmio_base,
        mmio_len,
        interrupt_parent,
        interrupts: s.interrupts,
        dma,
        phy_addr,
        phy_mode_rgmii_rxid: s.phy_mode,
    })
}

/// A `BEGIN_NODE` token: read the name at `off`, enter the node.
fn begin_node(s: &mut State, data: &[u8], off: usize, struct_end: usize, Ghost(sc): Ghost<Scan>, Ghost(b): Ghost<Bounds>) -> (r: Result<usize, Error>)
    requires
        old(s).models(sc),
        old(s).depth <= MAX_DEPTH,
        old(s).genet_count < u32::MAX,
        b.struct_end == struct_end,
        struct_end <= data.len(),
        data.len() <= usize::MAX - 8,
    ensures
        match begin_step(data@, b, off as int, sc) {
            Err(e) => (r is Err) && r->Err_0 == e,
            Ok((o, s2)) => (r is Ok) && r->Ok_0 == o && final(s).models(s2) && final(s).depth <= MAX_DEPTH
                && final(s).genet_count <= old(s).genet_count + 1 && o <= data.len() + 3,
        },
{
    let name = match cstr(data, off, struct_end) {
        Ok(n) => n,
        Err(_) => return Err(Error::BadStructure),
    };
    let past = off + name.len() + 1;
    let next = (past + 3) / 4 * 4;
    if s.depth == MAX_DEPTH {
        return Err(Error::TooDeep);
    }
    let bare = vstd::slice::slice_subrange(name, 0, position_of(name, 0x40));
    assert(bare@ == bare_name(name@));
    s.depth = s.depth + 1;
    let parent = s.depth == 2 && is_scb(bare);
    let genet = s.depth == 3 && s.scb && is_ethernet(bare);
    let mdio = s.depth == 4 && s.genet && is_mdio(bare);
    let phy = s.depth == 5 && s.mdio && is_ethernet_phy(bare);
    if parent {
        s.scb = true;
    } else if genet {
        s.genet = true;
        s.genet_count = s.genet_count + 1;
    } else if mdio {
        s.mdio = true;
    } else if phy {
        s.phy = true;
    }
    Ok(next)
}

/// A `PROP` token: read its header at `off`, fold the property in.
fn property(
    s: &mut State,
    data: &[u8],
    off: usize,
    struct_end: usize,
    strings_off: usize,
    strings_end: usize,
    Ghost(sc): Ghost<Scan>,
    Ghost(b): Ghost<Bounds>,
) -> (r: Result<usize, Error>)
    requires
        old(s).models(sc),
        b == (Bounds { struct_end: struct_end as int, strings_off: strings_off as int, strings_end: strings_end as int }),
        struct_end <= data.len(),
        strings_end <= data.len(),
        off <= data.len(),
        data.len() <= usize::MAX - 8,
    ensures
        match prop_step(data@, b, off as int, sc) {
            Err(e) => (r is Err) && r->Err_0 == e,
            Ok((o, s2)) => (r is Ok) && r->Ok_0 == o && final(s).models(s2) && o <= data.len() + 3,
        },
        final(s).depth == old(s).depth,
        final(s).genet_count == old(s).genet_count,
{
    if off + 8 > data.len() {
        return Err(Error::Truncated);
    }
    let len = read_be32(data, off) as usize;
    let name_off = read_be32(data, off + 4) as usize;
    let value_off = off + 8;
    let value_end = match value_off.checked_add(len) {
        Some(e) => e,
        None => return Err(Error::BadStructure),
    };
    if value_end > struct_end {
        return Err(Error::BadStructure);
    }
    let strings_at = match strings_off.checked_add(name_off) {
        Some(a) => a,
        None => return Err(Error::BadStructure),
    };
    let name = match cstr(data, strings_at, strings_end) {
        Ok(n) => n,
        Err(_) => return Err(Error::BadStructure),
    };
    let value = vstd::slice::slice_subrange(data, value_off, value_end);
    match absorb(s, name, value, Ghost(sc)) {
        Ok(()) => {},
        Err(e) => return Err(e),
    }
    Ok((value_end + 3) / 4 * 4)
}

/// Extract and validate the Pi 4 GENET v5 binding from a complete DTB.
#[verifier::rlimit(100)]
#[verifier::spinoff_prover]
pub fn extract(data: &[u8]) -> (r: Result<Binding, Error>)
    requires
        data.len() <= usize::MAX - 8,
    ensures
        match extract_spec(data@) {
            Ok(m) => (r is Ok) && r->Ok_0.models(m),
            Err(e) => (r is Err) && r->Err_0 == e,
        },
{
    if data.len() < 40 {
        return Err(Error::Truncated);
    }
    if read_be32(data, 0) != FDT_MAGIC {
        return Err(Error::BadMagic);
    }
    let total = read_be32(data, 4) as usize;
    let struct_off = read_be32(data, 8) as usize;
    let strings_off = read_be32(data, 12) as usize;
    let strings_len = read_be32(data, 32) as usize;
    let struct_len = read_be32(data, 36) as usize;
    let struct_end = match struct_off.checked_add(struct_len) {
        Some(e) => e,
        None => return Err(Error::Truncated),
    };
    let strings_end = match strings_off.checked_add(strings_len) {
        Some(e) => e,
        None => return Err(Error::Truncated),
    };
    if total > data.len() || struct_end > total || strings_end > total {
        return Err(Error::Truncated);
    }
    let mut s = State::new();
    let mut off = struct_off;
    let mut budget: usize = struct_len / 4 + 1;
    let ghost b = Bounds { struct_end: struct_end as int, strings_off: strings_off as int, strings_end: strings_end as int };
    let ghost mut sc = initial_scan();
    loop
        invariant
            data.len() <= usize::MAX - 8,
            struct_end <= data.len(),
            strings_end <= data.len(),
            struct_len <= u32::MAX,
            b == (Bounds { struct_end: struct_end as int, strings_off: strings_off as int, strings_end: strings_end as int }),
            off <= data.len() + 3,
            s.models(sc),
            s.depth <= MAX_DEPTH,
            sc.genet_count + budget <= struct_len / 4 + 1,
            match walk(data@, b, off as int, sc, budget as nat) {
                Err(e) => extract_spec(data@) == Err::<BindingModel, Error>(e),
                Ok(end) => extract_spec(data@) == finish_spec(end),
            },
        decreases budget,
    {
        if budget == 0 {
            return Err(Error::BadStructure);
        }
        budget = budget - 1;
        if off + 4 > data.len() {
            return Err(Error::Truncated);
        }
        let token = read_be32(data, off);
        off = off + 4;
        if token == BEGIN_NODE {
            let ghost sc0 = sc;
            let ghost p = off as int;
            off = match begin_node(&mut s, data, off, struct_end, Ghost(sc), Ghost(b)) {
                Ok(o) => o,
                Err(e) => return Err(e),
            };
            proof {
                sc = begin_step(data@, b, p, sc0)->Ok_0.1;
            }
        } else if token == END_NODE {
            if s.depth == 0 {
                return Err(Error::BadStructure);
            }
            if s.depth == 5 {
                s.phy = false;
            } else if s.depth == 4 {
                s.mdio = false;
            } else if s.depth == 3 {
                s.genet = false;
            } else if s.depth == 2 {
                s.scb = false;
            }
            s.depth = s.depth - 1;
            proof {
                sc = leave_node(sc);
            }
        } else if token == PROP {
            let ghost sc0 = sc;
            let ghost p = off as int;
            off = match property(&mut s, data, off, struct_end, strings_off, strings_end, Ghost(sc), Ghost(b)) {
                Ok(o) => o,
                Err(e) => return Err(e),
            };
            proof {
                sc = prop_step(data@, b, p, sc0)->Ok_0.1;
            }
        } else if token == NOP {
        } else if token == END {
            if s.depth != 0 {
                return Err(Error::BadStructure);
            }
            return finish(&s, Ghost(sc));
        } else {
            return Err(Error::BadStructure);
        }
    }
}

/// Classify the boot-time GENET FDT report.
///
/// `dtb_mapped` is the MMU fact from the caller. A false flag is `NoDtb`
/// even when `bytes` is `Some`: an unmapped firmware blob must not be read.
pub fn boot_report(dtb_mapped: bool, bytes: Option<&[u8]>) -> (r: Report)
    requires
        bytes is Some ==> bytes->0.len() <= usize::MAX - 8,
    ensures
        !dtb_mapped || bytes is None ==> r == Report::Unavailable(Unavailable::NoDtb),
        dtb_mapped && bytes is Some ==> match extract_spec(bytes->0@) {
            Ok(m) => (r is Binding) && r->Binding_0.models(m),
            Err(e) => r == Report::Unavailable(Unavailable::Extract(e)),
        },
{
    if !dtb_mapped {
        return Report::Unavailable(Unavailable::NoDtb);
    }
    match bytes {
        None => Report::Unavailable(Unavailable::NoDtb),
        Some(data) => match extract(data) {
            Ok(binding) => Report::Binding(binding),
            Err(error) => Report::Unavailable(Unavailable::Extract(error)),
        },
    }
}

/// The name an error prints as.
pub open spec fn error_text(e: Error) -> Seq<char> {
    match e {
        Error::Truncated => "Truncated"@,
        Error::BadMagic => "BadMagic"@,
        Error::BadStructure => "BadStructure"@,
        Error::TooDeep => "TooDeep"@,
        Error::UnsupportedCells => "UnsupportedCells"@,
        Error::Missing => "Missing"@,
        Error::Ambiguous => "Ambiguous"@,
        Error::Incompatible => "Incompatible"@,
        Error::Disabled => "Disabled"@,
        Error::InvalidRange => "InvalidRange"@,
        Error::InvalidInterrupts => "InvalidInterrupts"@,
        Error::InvalidPhy => "InvalidPhy"@,
    }
}

fn error_name(e: Error) -> (r: &'static str)
    ensures
        r@ == error_text(e),
{
    match e {
        Error::Truncated => "Truncated",
        Error::BadMagic => "BadMagic",
        Error::BadStructure => "BadStructure",
        Error::TooDeep => "TooDeep",
        Error::UnsupportedCells => "UnsupportedCells",
        Error::Missing => "Missing",
        Error::Ambiguous => "Ambiguous",
        Error::Incompatible => "Incompatible",
        Error::Disabled => "Disabled",
        Error::InvalidRange => "InvalidRange",
        Error::InvalidInterrupts => "InvalidInterrupts",
        Error::InvalidPhy => "InvalidPhy",
    }
}

/// The boot line for a report.
pub open spec fn report_text(r: Report) -> Seq<char> {
    match r {
        Report::Binding(b) => "genet: binding ok base=0x"@ + hex(b.mmio_base as nat) + " len=0x"@ + hex(b.mmio_len as nat)
            + " phy="@ + (if b.phy_mode_rgmii_rxid { "rgmii-rxid"@ } else { "other"@ }) + " (fdt, not probed)"@,
        Report::Unavailable(Unavailable::NoDtb) => "genet: unavailable (no dtb)"@,
        Report::Unavailable(Unavailable::Extract(e)) => "genet: unavailable ("@ + error_text(e) + ")"@,
    }
}

impl Report {
    /// The boot line.
    pub fn line(&self) -> (r: String)
        ensures
            r@ == report_text(*self),
    {
        match self {
            Report::Binding(binding) => {
                let mut s = String::from_str("genet: binding ok base=0x");
                push_hex(&mut s, binding.mmio_base);
                s.append(" len=0x");
                push_hex(&mut s, binding.mmio_len);
                s.append(" phy=");
                s.append(if binding.phy_mode_rgmii_rxid { "rgmii-rxid" } else { "other" });
                s.append(" (fdt, not probed)");
                s
            },
            Report::Unavailable(Unavailable::NoDtb) => String::from_str("genet: unavailable (no dtb)"),
            Report::Unavailable(Unavailable::Extract(error)) => {
                let mut s = String::from_str("genet: unavailable (");
                s.append(error_name(*error));
                s.append(")");
                s
            },
        }
    }
}



/// The GENET node's `interrupts` property is read as two specifiers of three
/// big-endian cells each, in order: of each 12-byte chunk the first cell is
/// the specifier's first cell, the second its interrupt number and the third
/// its flags; nothing else of the walk changes.
pub proof fn lemma_interrupts_are_cells(sc: Scan, v: Seq<u8>)
    requires
        sc.depth == 3,
        sc.genet,
        v.len() == 24,
    ensures
        absorb_spec(sc, n_interrupts(), v) is Ok,
        ({
            let r = absorb_spec(sc, n_interrupts(), v)->Ok_0;
            &&& r.interrupt_count == 2
            &&& r.interrupts.0.specifier0 as int == v[0] * 0x100_0000 + v[1] * 0x1_0000 + v[2] * 0x100 + v[3]
            &&& r.interrupts.0.number as int == v[4] * 0x100_0000 + v[5] * 0x1_0000 + v[6] * 0x100 + v[7]
            &&& r.interrupts.0.flags as int == v[8] * 0x100_0000 + v[9] * 0x1_0000 + v[10] * 0x100 + v[11]
            &&& r.interrupts.1.specifier0 as int == v[12] * 0x100_0000 + v[13] * 0x1_0000 + v[14] * 0x100 + v[15]
            &&& r.interrupts.1.number as int == v[16] * 0x100_0000 + v[17] * 0x1_0000 + v[18] * 0x100 + v[19]
            &&& r.interrupts.1.flags as int == v[20] * 0x100_0000 + v[21] * 0x1_0000 + v[22] * 0x100 + v[23]
            &&& r == Scan { interrupts: r.interrupts, interrupt_count: 2, ..sc }
        }),
{
    assert(n_interrupts()[0] != crate::fdt::n_compatible()[0]);
    assert(n_interrupts() != crate::fdt::n_compatible());
    assert(n_interrupts().len() != n_status().len());
    assert(n_interrupts().len() != n_reg().len());
}


/// An `interrupts` value that is not exactly two three-cell specifiers is
/// refused as invalid interrupts.
pub proof fn lemma_interrupts_length_refused(sc: Scan, v: Seq<u8>)
    requires
        sc.depth == 3,
        sc.genet,
        v.len() != 24,
    ensures
        absorb_spec(sc, n_interrupts(), v) == Err::<Scan, Error>(Error::InvalidInterrupts),
{
    assert(n_interrupts()[0] != crate::fdt::n_compatible()[0]);
    assert(n_interrupts() != crate::fdt::n_compatible());
    assert(n_interrupts().len() != n_status().len());
    assert(n_interrupts().len() != n_reg().len());
}

/// The GENET node's `reg` is one address and one size of two big-endian
/// cells each, most significant cell first; any other length is refused.
pub proof fn lemma_genet_reg_cells(sc: Scan, v: Seq<u8>)
    requires
        sc.depth == 3,
        sc.genet,
    ensures
        v.len() != 16 ==> absorb_spec(sc, n_reg(), v) == Err::<Scan, Error>(Error::BadStructure),
        v.len() == 16 ==> absorb_spec(sc, n_reg(), v) is Ok && ({
            let r = absorb_spec(sc, n_reg(), v)->Ok_0;
            &&& r.genet_reg is Some
            &&& (r.genet_reg->0).0 as int == (v[0] * 0x100_0000 + v[1] * 0x1_0000 + v[2] * 0x100 + v[3]) * 0x1_0000_0000
                + v[4] * 0x100_0000 + v[5] * 0x1_0000 + v[6] * 0x100 + v[7]
            &&& (r.genet_reg->0).1 as int == (v[8] * 0x100_0000 + v[9] * 0x1_0000 + v[10] * 0x100 + v[11]) * 0x1_0000_0000
                + v[12] * 0x100_0000 + v[13] * 0x1_0000 + v[14] * 0x100 + v[15]
            &&& r == Scan { genet_reg: r.genet_reg, ..sc }
        }),
{
    assert(n_reg().len() != crate::fdt::n_compatible().len());
    assert(n_reg().len() != n_status().len());
}

/// The PHY node's `phandle` and `reg` are single cells: the first names the
/// PHY, the second is its MDIO address, each kept beside the other.
pub proof fn lemma_phy_cells(sc: Scan, v: Seq<u8>)
    requires
        sc.depth == 5,
        sc.phy,
        v.len() == 4,
    ensures
        absorb_spec(sc, n_phandle(), v) == Ok::<Scan, Error>(Scan {
            phy_candidate: Some(((v[0] * 0x100_0000 + v[1] * 0x1_0000 + v[2] * 0x100 + v[3]) as u32,
                match sc.phy_candidate { Some(c) => c.1, None => 0 })),
            ..sc
        }),
        absorb_spec(sc, n_reg(), v) == Ok::<Scan, Error>(Scan {
            phy_candidate: Some((match sc.phy_candidate { Some(c) => c.0, None => 0 },
                (v[0] * 0x100_0000 + v[1] * 0x1_0000 + v[2] * 0x100 + v[3]) as u32)),
            ..sc
        }),
{
    assert(n_reg().len() != n_phandle().len());
}
} // verus!
