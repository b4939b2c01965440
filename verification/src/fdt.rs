//! Flattened device-tree reader with a closed extraction list.
//!
//! Pure and total over `&[u8]`: no recursion (an explicit depth counter),
//! every read bounds-checked, big-endian words decoded by `be32_at`. The
//! header is validated here even where a caller already looked at the magic.
//!
//! What it extracts, and nothing else: the root `model`, first `compatible`,
//! `#address-cells` and `#size-cells`; the `/memory*` `reg` ranges; the
//! `/cpus` cpu count; and `/system` `linux,revision` (patched in by the Pi
//! firmware, absent from distributed blobs). No phandles, no overlays, no
//! memory-reservation block, no `/chosen`, no `/soc`.
//!
//! The accepted grammar is the spec function [`extract_spec`]: a header
//! check, then [`walk`], one structure-block token per step.
use vstd::prelude::*;
use vstd::string::StringSliceAdditionalSpecFns;
use crate::wire::{be32_at, bytes_eq, find_byte, is_utf8, position_of, read_be32, str_from_utf8};

verus! {

/// `FDT_MAGIC`, big endian on the wire.
pub const FDT_MAGIC: u32 = 0xd00d_feed;

pub const FDT_BEGIN_NODE: u32 = 0x1;
pub const FDT_END_NODE: u32 = 0x2;
pub const FDT_PROP: u32 = 0x3;
pub const FDT_NOP: u32 = 0x4;
pub const FDT_END: u32 = 0x9;

/// Deep enough for `/cpus/cpu@N/…`; a deeper tree is not one we read from.
pub const MAX_DEPTH: u32 = 8;

/// Ranges kept from `/memory` nodes; more are counted but not stored.
pub const MAX_MEM_RANGES: usize = 4;

/// Why a blob was refused. Every variant is a refusal of the whole parse:
/// a tree that lies about its own structure is not selectively trustworthy.
#[derive(Debug, Clone, Copy, PartialEq, Eq, Structural)]
pub enum FdtError {
    /// Shorter than its header, or a field points past the end.
    Truncated,
    /// First word is not `FDT_MAGIC`.
    BadMagic,
    /// Header version older than 17 (no `size_dt_struct`).
    OldVersion,
    /// A token, name, or property overruns its block.
    BadStructure,
    /// Node nesting beyond [`MAX_DEPTH`].
    TooDeep,
    /// `#address-cells` / `#size-cells` outside 1..=2.
    BadCells,
}

/// Inline NUL-free string, truncated visibly at capacity.
#[derive(Debug, Clone, Copy)]
pub struct Str64 {
    buf: [u8; 64],
    len: u8,
    truncated: bool,
}

/// What a `Str64` made from `src` holds: its first 64 bytes.
pub open spec fn str64_text(src: Seq<u8>) -> Seq<u8> {
    if src.len() <= 64 { src } else { src.take(64) }
}

impl View for Str64 {
    type V = Seq<u8>;

    /// The bytes held.
    closed spec fn view(&self) -> Seq<u8> {
        self.buf@.take(self.len as int)
    }
}

impl Str64 {
    #[verifier::type_invariant]
    spec fn inv(&self) -> bool {
        self.len <= 64
    }

    /// Whether the source was longer than the capacity.
    pub closed spec fn cut(&self) -> bool {
        self.truncated
    }

    /// `self` is what `from_bytes(src)` makes.
    pub open spec fn holds(&self, src: Seq<u8>) -> bool {
        self@ == str64_text(src) && self.cut() == (src.len() > 64)
    }

    pub fn empty() -> (r: Self)
        ensures
            r.holds(Seq::empty()),
    {
        let r = Self { buf: [0; 64], len: 0, truncated: false };
        assert(r@ =~= Seq::<u8>::empty());
        r
    }

    fn from_bytes(bytes: &[u8]) -> (r: Self)
        ensures
            r.holds(bytes@),
    {
        let mut buf = [0u8; 64];
        let take: usize = if bytes.len() < 64 { bytes.len() } else { 64 };
        let mut i: usize = 0;
        while i < take
            invariant
                take <= 64,
                take <= bytes@.len(),
                i <= take,
                buf@.len() == 64,
                forall|j: int| 0 <= j < i ==> buf@[j] == bytes@[j],
            decreases take - i,
        {
            buf[i] = bytes[i];
            i = i + 1;
        }
        let r = Self { buf, len: take as u8, truncated: bytes.len() > 64 };
        assert(r@ =~= str64_text(bytes@));
        r
    }

    /// The held bytes as text, or `"<non-utf8>"` when they are not UTF-8.
    pub fn as_str(&self) -> (r: &str)
        ensures
            is_utf8(self@) ==> r.spec_bytes() == self@,
            !is_utf8(self@) ==> r@ == "<non-utf8>"@,
    {
        proof {
            use_type_invariant(self);
        }
        let held = vstd::slice::slice_subrange(self.buf.as_slice(), 0, self.len as usize);
        assert(held@ == self@);
        match str_from_utf8(held) {
            Some(s) => s,
            None => "<non-utf8>",
        }
    }

    pub fn is_empty(&self) -> (r: bool)
        ensures
            r == (self@.len() == 0),
    {
        proof {
            use_type_invariant(self);
        }
        self.len == 0
    }

    /// True when the source was longer than the 64-byte capacity.
    pub fn is_truncated(&self) -> (r: bool)
        ensures
            r == self.cut(),
    {
        self.truncated
    }
}

/// One `/memory` `reg` entry.
#[derive(Debug, Clone, Copy, PartialEq, Eq, Default)]
pub struct MemRange {
    pub base: u64,
    pub len: u64,
}

/// Everything the closed list extracts. Fields default to "absent", so a
/// tree that lacks a node yields zeros/None rather than an error — absence
/// is a fact to report, not a malformation.
#[derive(Debug, Clone, Copy)]
pub struct Extract {
    pub model: Str64,
    pub compatible: Str64,
    pub address_cells: u32,
    pub size_cells: u32,
    pub memory: [MemRange; MAX_MEM_RANGES],
    /// Ranges seen (may exceed the stored [`MAX_MEM_RANGES`]).
    pub memory_ranges: usize,
    /// Sum of every `/memory` range length, including unstored ones.
    pub memory_total: u64,
    pub cpus: u32,
    pub revision: Option<u32>,
}

/// What the walk has gathered so far, unbounded: the source bytes of the
/// two strings and every memory range seen.
pub struct Facts {
    pub model: Seq<u8>,
    pub compatible: Seq<u8>,
    pub address_cells: u32,
    pub size_cells: u32,
    pub ranges: Seq<MemRange>,
    pub cpus: nat,
    pub revision: Option<u32>,
}

/// The facts before any property: spec defaults for the cell counts.
pub open spec fn initial_facts() -> Facts {
    Facts {
        model: Seq::empty(),
        compatible: Seq::empty(),
        address_cells: 2,
        size_cells: 1,
        ranges: Seq::empty(),
        cpus: 0,
        revision: None,
    }
}

/// `a + b`, saturating at `u64::MAX`.
pub open spec fn sat_add(a: u64, b: u64) -> u64 {
    if a + b > u64::MAX { u64::MAX } else { (a + b) as u64 }
}

/// Saturating sum of the lengths of `s`.
pub open spec fn sat_total(s: Seq<MemRange>) -> u64
    decreases s.len(),
{
    if s.len() == 0 { 0 } else { sat_add(sat_total(s.drop_last()), s.last().len) }
}

/// The zero range, held in the unused stored slots.
pub open spec fn no_range() -> MemRange {
    MemRange { base: 0, len: 0 }
}

impl Extract {
    /// `self` is the bounded record of `f`: strings cut at 64 bytes, the
    /// first [`MAX_MEM_RANGES`] ranges stored, every range counted and summed.
    pub open spec fn reports(&self, f: Facts) -> bool {
        &&& self.model.holds(f.model)
        &&& self.compatible.holds(f.compatible)
        &&& self.address_cells == f.address_cells
        &&& self.size_cells == f.size_cells
        &&& self.memory_ranges == f.ranges.len()
        &&& forall|i: int| 0 <= i < MAX_MEM_RANGES ==> #[trigger] self.memory[i] == (if i < f.ranges.len() { f.ranges[i] } else { no_range() })
        &&& self.memory_total == sat_total(f.ranges)
        &&& self.cpus as nat == f.cpus
        &&& self.revision == f.revision
    }

    fn new() -> (r: Self)
        ensures
            r.reports(initial_facts()),
    {
        Self {
            model: Str64::empty(),
            compatible: Str64::empty(),
            address_cells: 2,
            size_cells: 1,
            memory: [MemRange { base: 0, len: 0 }; MAX_MEM_RANGES],
            memory_ranges: 0,
            memory_total: 0,
            cpus: 0,
            revision: None,
        }
    }
}

// ---- property and node names ----

/// `memory`
pub open spec fn n_memory() -> Seq<u8> { seq![0x6du8, 0x65, 0x6d, 0x6f, 0x72, 0x79] }
/// `cpus`
pub open spec fn n_cpus() -> Seq<u8> { seq![0x63u8, 0x70, 0x75, 0x73] }
/// `system`
pub open spec fn n_system() -> Seq<u8> { seq![0x73u8, 0x79, 0x73, 0x74, 0x65, 0x6d] }
/// `model`
pub open spec fn n_model() -> Seq<u8> { seq![0x6du8, 0x6f, 0x64, 0x65, 0x6c] }
/// `compatible`
pub open spec fn n_compatible() -> Seq<u8> { seq![0x63u8, 0x6f, 0x6d, 0x70, 0x61, 0x74, 0x69, 0x62, 0x6c, 0x65] }
/// `#address-cells`
pub open spec fn n_address_cells() -> Seq<u8> {
    seq![0x23u8, 0x61, 0x64, 0x64, 0x72, 0x65, 0x73, 0x73, 0x2d, 0x63, 0x65, 0x6c, 0x6c, 0x73]
}
/// `#size-cells`
pub open spec fn n_size_cells() -> Seq<u8> { seq![0x23u8, 0x73, 0x69, 0x7a, 0x65, 0x2d, 0x63, 0x65, 0x6c, 0x6c, 0x73] }
/// `reg`
pub open spec fn n_reg() -> Seq<u8> { seq![0x72u8, 0x65, 0x67] }
/// `linux,revision`
pub open spec fn n_revision() -> Seq<u8> {
    seq![0x6cu8, 0x69, 0x6e, 0x75, 0x78, 0x2c, 0x72, 0x65, 0x76, 0x69, 0x73, 0x69, 0x6f, 0x6e]
}
/// `device_type`
pub open spec fn n_device_type() -> Seq<u8> { seq![0x64u8, 0x65, 0x76, 0x69, 0x63, 0x65, 0x5f, 0x74, 0x79, 0x70, 0x65] }
/// `cpu`
pub open spec fn n_cpu() -> Seq<u8> { seq![0x63u8, 0x70, 0x75] }

fn is_memory(n: &[u8]) -> (r: bool) ensures r == (n@ == n_memory()) {
    let w: [u8; 6] = [0x6d, 0x65, 0x6d, 0x6f, 0x72, 0x79];
    assert(w@ =~= n_memory());
    bytes_eq(n, &w)
}

fn is_cpus(n: &[u8]) -> (r: bool) ensures r == (n@ == n_cpus()) {
    let w: [u8; 4] = [0x63, 0x70, 0x75, 0x73];
    assert(w@ =~= n_cpus());
    bytes_eq(n, &w)
}

fn is_system(n: &[u8]) -> (r: bool) ensures r == (n@ == n_system()) {
    let w: [u8; 6] = [0x73, 0x79, 0x73, 0x74, 0x65, 0x6d];
    assert(w@ =~= n_system());
    bytes_eq(n, &w)
}

fn is_model(n: &[u8]) -> (r: bool) ensures r == (n@ == n_model()) {
    let w: [u8; 5] = [0x6d, 0x6f, 0x64, 0x65, 0x6c];
    assert(w@ =~= n_model());
    bytes_eq(n, &w)
}

pub(crate) fn is_compatible(n: &[u8]) -> (r: bool) ensures r == (n@ == n_compatible()) {
    let w: [u8; 10] = [0x63, 0x6f, 0x6d, 0x70, 0x61, 0x74, 0x69, 0x62, 0x6c, 0x65];
    assert(w@ =~= n_compatible());
    bytes_eq(n, &w)
}

pub(crate) fn is_address_cells(n: &[u8]) -> (r: bool) ensures r == (n@ == n_address_cells()) {
    let w: [u8; 14] = [0x23, 0x61, 0x64, 0x64, 0x72, 0x65, 0x73, 0x73, 0x2d, 0x63, 0x65, 0x6c, 0x6c, 0x73];
    assert(w@ =~= n_address_cells());
    bytes_eq(n, &w)
}

pub(crate) fn is_size_cells(n: &[u8]) -> (r: bool) ensures r == (n@ == n_size_cells()) {
    let w: [u8; 11] = [0x23, 0x73, 0x69, 0x7a, 0x65, 0x2d, 0x63, 0x65, 0x6c, 0x6c, 0x73];
    assert(w@ =~= n_size_cells());
    bytes_eq(n, &w)
}

pub(crate) fn is_reg(n: &[u8]) -> (r: bool) ensures r == (n@ == n_reg()) {
    let w: [u8; 3] = [0x72, 0x65, 0x67];
    assert(w@ =~= n_reg());
    bytes_eq(n, &w)
}

fn is_revision(n: &[u8]) -> (r: bool) ensures r == (n@ == n_revision()) {
    let w: [u8; 14] = [0x6c, 0x69, 0x6e, 0x75, 0x78, 0x2c, 0x72, 0x65, 0x76, 0x69, 0x73, 0x69, 0x6f, 0x6e];
    assert(w@ =~= n_revision());
    bytes_eq(n, &w)
}

fn is_device_type(n: &[u8]) -> (r: bool) ensures r == (n@ == n_device_type()) {
    let w: [u8; 11] = [0x64, 0x65, 0x76, 0x69, 0x63, 0x65, 0x5f, 0x74, 0x79, 0x70, 0x65];
    assert(w@ =~= n_device_type());
    bytes_eq(n, &w)
}

fn is_cpu(n: &[u8]) -> (r: bool) ensures r == (n@ == n_cpu()) {
    let w: [u8; 3] = [0x63, 0x70, 0x75];
    assert(w@ =~= n_cpu());
    bytes_eq(n, &w)
}

// ---- byte-level pieces ----

/// `value` without one trailing NUL, if it has one.
pub open spec fn strip_nul_spec(v: Seq<u8>) -> Seq<u8> {
    if v.len() > 0 && v.last() == 0 { v.drop_last() } else { v }
}

/// The bytes of `v` before its first NUL (all of `v` when it has none).
pub open spec fn first_entry(v: Seq<u8>) -> Seq<u8> {
    v.take(find_byte(v, 0, 0))
}

/// A node name without its `@unit-address`.
pub open spec fn bare_name(n: Seq<u8>) -> Seq<u8> {
    n.take(find_byte(n, 0x40, 0))
}

/// The NUL-terminated string starting at `off`, looked for before `end`.
pub open spec fn cstr_at(data: Seq<u8>, off: int, end: int) -> Option<Seq<u8>> {
    if off > end || end > data.len() {
        None
    } else {
        let s = data.subrange(off, end);
        let k = find_byte(s, 0, 0);
        if k == s.len() { None } else { Some(s.take(k)) }
    }
}

/// A one-cell property's value.
pub open spec fn prop_u32_of(v: Seq<u8>) -> Option<u32> {
    if v.len() == 4 { Some(be32_at(v, 0)) } else { None }
}

/// `n` (1 or 2) big-endian cells at `off`, most significant first.
pub open spec fn cells_of(v: Seq<u8>, off: int, n: int) -> u64 {
    if n == 1 {
        be32_at(v, off) as u64
    } else {
        (be32_at(v, off) * 0x1_0000_0000int + be32_at(v, off + 4)) as u64
    }
}

/// The ranges of a `reg` value made of `(ac, sc)`-cell pairs.
pub open spec fn reg_ranges(v: Seq<u8>, ac: int, sc: int) -> Seq<MemRange> {
    let pair = (ac + sc) * 4;
    Seq::new(((v.len() as int) / pair) as nat, |k: int| MemRange {
        base: cells_of(v, k * pair, ac),
        len: cells_of(v, k * pair + ac * 4, sc),
    })
}

/// `x` rounded up to a multiple of four.
pub open spec fn round4(x: int) -> int {
    (x + 3) / 4 * 4
}

pub(crate) fn strip_nul(value: &[u8]) -> (r: &[u8])
    ensures
        r@ == strip_nul_spec(value@),
{
    if value.len() > 0 && value[value.len() - 1] == 0 {
        let r = vstd::slice::slice_subrange(value, 0, value.len() - 1);
        assert(r@ =~= value@.drop_last());
        r
    } else {
        value
    }
}

fn prop_u32(value: &[u8]) -> (r: Result<u32, FdtError>)
    ensures
        match prop_u32_of(value@) {
            Some(v) => r == Ok::<u32, FdtError>(v),
            None => r == Err::<u32, FdtError>(FdtError::BadStructure),
        },
{
    if value.len() != 4 {
        return Err(FdtError::BadStructure);
    }
    Ok(read_be32(value, 0))
}

pub(crate) fn cells(value: &[u8], off: usize, n: usize) -> (r: u64)
    requires
        n == 1 || n == 2,
        off + n * 4 <= value@.len(),
    ensures
        r == cells_of(value@, off as int, n as int),
{
    let hi = read_be32(value, off) as u64;
    if n == 1 {
        hi
    } else {
        assert(n == 2);
        assert(off + 8 <= value.len());
        let lo = read_be32(value, off + 4) as u64;
        hi * 0x1_0000_0000 + lo
    }
}

fn be32(data: &[u8], off: usize) -> (r: Result<u32, FdtError>)
    ensures
        off + 4 <= data@.len() ==> r == Ok::<u32, FdtError>(be32_at(data@, off as int)),
        off + 4 > data@.len() ==> r == Err::<u32, FdtError>(FdtError::Truncated),
{
    if off > data.len() || data.len() - off < 4 {
        return Err(FdtError::Truncated);
    }
    Ok(read_be32(data, off))
}

/// NUL-terminated string at `off`, bounded by `end`.
pub(crate) fn cstr(data: &[u8], off: usize, end: usize) -> (r: Result<&[u8], FdtError>)
    ensures
        match cstr_at(data@, off as int, end as int) {
            Some(s) => (r is Ok) && r->Ok_0@ == s,
            None => (r is Err) && r->Err_0 == FdtError::BadStructure,
        },
        (r is Ok) ==> off + r->Ok_0@.len() < end,
{
    if off > end || end > data.len() {
        return Err(FdtError::BadStructure);
    }
    let slice = vstd::slice::slice_subrange(data, off, end);
    let nul = position_of(slice, 0);
    if nul == slice.len() {
        return Err(FdtError::BadStructure);
    }
    let r = vstd::slice::slice_subrange(slice, 0, nul);
    assert(r@ =~= slice@.take(nul as int));
    Ok(r)
}


// ---- the walk ----

/// Which top-level (or `/cpus`-child) context the walker is inside.
#[derive(Clone, Copy, PartialEq, Eq, Structural)]
pub enum Node {
    Other,
    Memory,
    Cpus,
    System,
    /// Depth-3 child of `/cpus`; `true` once `device_type = "cpu"` is seen.
    CpusChild(bool),
}

/// The context a depth-2 node's bare name opens.
pub open spec fn top_node(bare: Seq<u8>) -> Node {
    if bare == n_memory() {
        Node::Memory
    } else if bare == n_cpus() {
        Node::Cpus
    } else if bare == n_system() {
        Node::System
    } else {
        Node::Other
    }
}

/// The context after entering a node named `name` at depth `d`.
pub open spec fn enter(ctx: Node, d: int, name: Seq<u8>) -> Node {
    if d == 2 {
        top_node(bare_name(name))
    } else if d == 3 && ctx == Node::Cpus {
        Node::CpusChild(false)
    } else {
        ctx
    }
}

/// Facts and context after leaving a node, `d` being the depth left at.
/// A `/cpus` child counts as a cpu when it said `device_type = "cpu"`.
pub open spec fn leave(f: Facts, ctx: Node, d: int) -> (Facts, Node) {
    match ctx {
        Node::CpusChild(counted) => (if counted { Facts { cpus: f.cpus + 1, ..f } } else { f }, Node::Cpus),
        _ => if d <= 1 { (f, Node::Other) } else { (f, ctx) },
    }
}

/// A `/memory` `reg` value folded into `f`.
pub open spec fn memory_reg(f: Facts, v: Seq<u8>) -> Result<Facts, FdtError> {
    let ac = f.address_cells as int;
    let sc = f.size_cells as int;
    if !(1 <= ac <= 2) || !(1 <= sc <= 2) {
        Err(FdtError::BadCells)
    } else if (v.len() as int) % ((ac + sc) * 4) != 0 {
        Err(FdtError::BadStructure)
    } else {
        Ok(Facts { ranges: f.ranges + reg_ranges(v, ac, sc), ..f })
    }
}

/// A one-cell property folded into `f` by `set`.
pub open spec fn with_u32(f: Facts, ctx: Node, v: Seq<u8>, which: int) -> Result<(Facts, Node), FdtError> {
    match prop_u32_of(v) {
        None => Err(FdtError::BadStructure),
        Some(x) => Ok((
            if which == 0 {
                Facts { address_cells: x, ..f }
            } else if which == 1 {
                Facts { size_cells: x, ..f }
            } else {
                Facts { revision: Some(x), ..f }
            },
            ctx,
        )),
    }
}

/// One property `name = v` at `depth` in context `ctx`, per the closed list.
pub open spec fn absorb_spec(f: Facts, depth: int, ctx: Node, name: Seq<u8>, v: Seq<u8>) -> Result<(Facts, Node), FdtError> {
    if depth == 1 {
        if name == n_model() {
            Ok((Facts { model: strip_nul_spec(v), ..f }, ctx))
        } else if name == n_compatible() {
            Ok((Facts { compatible: first_entry(v), ..f }, ctx))
        } else if name == n_address_cells() {
            with_u32(f, ctx, v, 0)
        } else if name == n_size_cells() {
            with_u32(f, ctx, v, 1)
        } else {
            Ok((f, ctx))
        }
    } else if ctx == Node::Memory && depth == 2 && name == n_reg() {
        match memory_reg(f, v) {
            Ok(g) => Ok((g, ctx)),
            Err(e) => Err(e),
        }
    } else if ctx == Node::System && depth == 2 && name == n_revision() {
        with_u32(f, ctx, v, 2)
    } else if (ctx is CpusChild) && depth == 3 && name == n_device_type() && strip_nul_spec(v) == n_cpu() {
        Ok((f, Node::CpusChild(true)))
    } else {
        Ok((f, ctx))
    }
}

/// Where the structure block ends and where the strings block lies.
pub struct Bounds {
    pub struct_end: int,
    pub strings_off: int,
    pub strings_end: int,
}

/// The walk from the token at `off`, with at most `budget` tokens left.
pub open spec fn walk(data: Seq<u8>, b: Bounds, off: int, depth: int, ctx: Node, f: Facts, budget: nat) -> Result<Facts, FdtError>
    decreases budget,
{
    if budget == 0 || off + 4 > b.struct_end {
        Err(FdtError::BadStructure)
    } else {
        let token = be32_at(data, off);
        let p = off + 4;
        let left = (budget - 1) as nat;
        if token == FDT_BEGIN_NODE {
            match cstr_at(data, p, b.struct_end) {
                None => Err(FdtError::BadStructure),
                Some(name) => if depth + 1 > MAX_DEPTH {
                    Err(FdtError::TooDeep)
                } else {
                    walk(data, b, round4(p + name.len() + 1), depth + 1, enter(ctx, depth + 1, name), f, left)
                },
            }
        } else if token == FDT_END_NODE {
            if depth == 0 {
                Err(FdtError::BadStructure)
            } else {
                let (g, c) = leave(f, ctx, depth - 1);
                walk(data, b, p, depth - 1, c, g, left)
            }
        } else if token == FDT_PROP {
            if p + 8 > data.len() {
                Err(FdtError::Truncated)
            } else {
                let vo = p + 8;
                let ve = vo + be32_at(data, p);
                let at = b.strings_off + be32_at(data, p + 4);
                if ve > usize::MAX || ve > b.struct_end || at > usize::MAX {
                    Err(FdtError::BadStructure)
                } else {
                    match cstr_at(data, at, b.strings_end) {
                        None => Err(FdtError::BadStructure),
                        Some(name) => match absorb_spec(f, depth, ctx, name, data.subrange(vo, ve)) {
                            Err(e) => Err(e),
                            Ok((g, c)) => walk(data, b, round4(ve), depth, c, g, left),
                        },
                    }
                }
            }
        } else if token == FDT_NOP {
            walk(data, b, p, depth, ctx, f, left)
        } else if token == FDT_END {
            if depth != 0 { Err(FdtError::BadStructure) } else { Ok(f) }
        } else {
            Err(FdtError::BadStructure)
        }
    }
}

/// The whole parse: header checks, then the walk of the structure block.
/// Header words: magic(0) totalsize(4) off_dt_struct(8) off_dt_strings(12)
/// off_mem_rsvmap(16) version(20) last_comp(24) boot_cpuid(28)
/// size_dt_strings(32) size_dt_struct(36).
pub open spec fn extract_spec(data: Seq<u8>) -> Result<Facts, FdtError> {
    if data.len() < 40 {
        Err(FdtError::Truncated)
    } else if be32_at(data, 0) != FDT_MAGIC {
        Err(FdtError::BadMagic)
    } else if be32_at(data, 4) < 40 || be32_at(data, 4) > data.len() {
        Err(FdtError::Truncated)
    } else if be32_at(data, 20) < 17 {
        Err(FdtError::OldVersion)
    } else {
        let total = be32_at(data, 4) as int;
        let struct_off = be32_at(data, 8) as int;
        let strings_off = be32_at(data, 12) as int;
        let strings_len = be32_at(data, 32) as int;
        let struct_len = be32_at(data, 36) as int;
        if struct_off + struct_len > usize::MAX || strings_off + strings_len > usize::MAX
            || struct_off + struct_len > total || strings_off + strings_len > total {
            Err(FdtError::Truncated)
        } else {
            walk(
                data,
                Bounds { struct_end: struct_off + struct_len, strings_off, strings_end: strings_off + strings_len },
                struct_off,
                0,
                Node::Other,
                initial_facts(),
                (struct_len / 4 + 1) as nat,
            )
        }
    }
}


/// `reg` = N pairs of (`#address-cells` + `#size-cells`) cells.
fn absorb_memory_reg(out: &mut Extract, value: &[u8], Ghost(f): Ghost<Facts>) -> (r: Result<(), FdtError>)
    requires
        old(out).reports(f),
        old(out).memory_ranges + value.len() <= usize::MAX,
    ensures
        match memory_reg(f, value@) {
            Ok(g) => (r is Ok) && final(out).reports(g) && final(out).memory_ranges <= old(out).memory_ranges + value.len(),
            Err(e) => (r is Err) && r->Err_0 == e,
        },
{
    let ac = out.address_cells as usize;
    let sc = out.size_cells as usize;
    if ac < 1 || ac > 2 || sc < 1 || sc > 2 {
        return Err(FdtError::BadCells);
    }
    let pair = (ac + sc) * 4;
    if value.len() % pair != 0 {
        return Err(FdtError::BadStructure);
    }
    let ghost rs = reg_ranges(value@, ac as int, sc as int);
    let ghost n = value.len() / pair;
    let ghost mut k: int = 0;
    proof {
        assert(value.len() == n * pair) by (nonlinear_arith)
            requires value.len() % pair == 0, n == value.len() / pair, pair > 0;
        assert(f.ranges + rs.take(0) =~= f.ranges);
    }
    let mut off: usize = 0;
    while off < value.len()
        invariant
            1 <= ac <= 2,
            1 <= sc <= 2,
            ac == f.address_cells,
            sc == f.size_cells,
            pair == (ac + sc) * 4,
            value.len() == n * pair,
            rs == reg_ranges(value@, ac as int, sc as int),
            rs.len() == n,
            0 <= k <= n,
            off == k * pair,
            f.ranges.len() + value.len() <= usize::MAX,
            out.reports(Facts { ranges: f.ranges + rs.take(k), ..f }),
        decreases value.len() - off,
    {
        proof {
            assert(k < n && off + pair <= value.len()) by (nonlinear_arith)
                requires off == k * pair, value.len() == n * pair, off < value.len(), pair > 0;
            assert(n <= value.len()) by (nonlinear_arith)
                requires value.len() == n * pair, pair >= 8, n >= 0;
        }
        let base = cells(value, off, ac);
        let len = cells(value, off + ac * 4, sc);
        assert(MemRange { base, len } == rs[k]);
        let ghost before = f.ranges + rs.take(k);
        let ghost after = f.ranges + rs.take(k + 1);
        assert(after =~= before.push(rs[k]));
        assert(after.drop_last() =~= before);
        if out.memory_ranges < MAX_MEM_RANGES {
            out.memory[out.memory_ranges] = MemRange { base, len };
        }
        out.memory_ranges = out.memory_ranges + 1;
        out.memory_total = out.memory_total.saturating_add(len);
        off = off + pair;
        proof {
            k = k + 1;
            assert(off == k * pair) by (nonlinear_arith)
                requires off == (k - 1) * pair + pair;
        }
    }
    proof {
        assert(k == n) by (nonlinear_arith)
            requires off == k * pair, value.len() == n * pair, off >= value.len(), k <= n, pair > 0;
        assert(rs.take(k) =~= rs);
    }
    Ok(())
}

/// Fold one property into the extract, per the closed list.
fn absorb(out: &mut Extract, depth: u32, context: &mut Node, name: &[u8], value: &[u8], Ghost(f): Ghost<Facts>) -> (r: Result<(), FdtError>)
    requires
        old(out).reports(f),
        old(out).memory_ranges + value.len() <= usize::MAX,
    ensures
        match absorb_spec(f, depth as int, *old(context), name@, value@) {
            Ok((g, c)) => (r is Ok) && final(out).reports(g) && *final(context) == c
                && final(out).memory_ranges <= old(out).memory_ranges + value.len(),
            Err(e) => (r is Err) && r->Err_0 == e,
        },
{
    if depth == 1 {
        if is_model(name) {
            out.model = Str64::from_bytes(strip_nul(value));
        } else if is_compatible(name) {
            // Only the first (most specific) compatible entry.
            let first = vstd::slice::slice_subrange(value, 0, position_of(value, 0));
            assert(first@ =~= first_entry(value@));
            out.compatible = Str64::from_bytes(first);
        } else if is_address_cells(name) {
            out.address_cells = match prop_u32(value) {
                Ok(v) => v,
                Err(e) => return Err(e),
            };
        } else if is_size_cells(name) {
            out.size_cells = match prop_u32(value) {
                Ok(v) => v,
                Err(e) => return Err(e),
            };
        }
        return Ok(());
    }
    let ctx = *context;
    let cpu_child = match ctx {
        Node::CpusChild(_) => true,
        _ => false,
    };
    if ctx == Node::Memory && depth == 2 && is_reg(name) {
        if let Err(e) = absorb_memory_reg(out, value, Ghost(f)) {
            return Err(e);
        }
    } else if ctx == Node::System && depth == 2 && is_revision(name) {
        match prop_u32(value) {
            Ok(v) => out.revision = Some(v),
            Err(e) => return Err(e),
        }
    } else if cpu_child && depth == 3 && is_device_type(name) && is_cpu(strip_nul(value)) {
        *context = Node::CpusChild(true);
    }
    Ok(())
}

/// Parse `data` and run the closed extraction list.
#[verifier::rlimit(80)]
#[verifier::spinoff_prover]
pub fn extract(data: &[u8]) -> (r: Result<Extract, FdtError>)
    requires
        data.len() <= usize::MAX - 8,
    ensures
        match extract_spec(data@) {
            Ok(f) => (r is Ok) && r->Ok_0.reports(f),
            Err(e) => (r is Err) && r->Err_0 == e,
        },
{
    if data.len() < 40 {
        return Err(FdtError::Truncated);
    }
    if read_be32(data, 0) != FDT_MAGIC {
        return Err(FdtError::BadMagic);
    }
    let total = read_be32(data, 4) as usize;
    if total < 40 || total > data.len() {
        return Err(FdtError::Truncated);
    }
    if read_be32(data, 20) < 17 {
        return Err(FdtError::OldVersion);
    }
    let struct_off = read_be32(data, 8) as usize;
    let strings_off = read_be32(data, 12) as usize;
    let strings_len = read_be32(data, 32) as usize;
    let struct_len = read_be32(data, 36) as usize;
    let struct_end = match struct_off.checked_add(struct_len) {
        Some(e) => e,
        None => return Err(FdtError::Truncated),
    };
    let strings_end = match strings_off.checked_add(strings_len) {
        Some(e) => e,
        None => return Err(FdtError::Truncated),
    };
    if struct_end > total || strings_end > total {
        return Err(FdtError::Truncated);
    }

    let mut out = Extract::new();
    let mut off = struct_off;
    let mut depth: u32 = 0;
    // Context of the nearest enclosing named node per depth of interest.
    let mut context = Node::Other;
    let mut token_budget: usize = struct_len / 4 + 1;
    let ghost b = Bounds { struct_end: struct_end as int, strings_off: strings_off as int, strings_end: strings_end as int };
    let ghost mut f = initial_facts();

    loop
        invariant
            data.len() <= usize::MAX - 8,
            struct_end <= data.len(),
            strings_end <= data.len(),
            struct_len <= u32::MAX,
            b == (Bounds { struct_end: struct_end as int, strings_off: strings_off as int, strings_end: strings_end as int }),
            off <= struct_end + 3,
            depth <= MAX_DEPTH,
            out.reports(f),
            out.memory_ranges <= off,
            f.cpus + token_budget <= struct_len / 4 + 1,
            walk(data@, b, off as int, depth as int, context, f, token_budget as nat) == extract_spec(data@),
        decreases token_budget,
    {
        // Every token is at least one word; a walk that outlives the block's
        // own word count is cyclic or corrupt.
        if token_budget == 0 {
            return Err(FdtError::BadStructure);
        }
        token_budget = token_budget - 1;
        if off + 4 > struct_end {
            return Err(FdtError::BadStructure);
        }
        let token = read_be32(data, off);
        off = off + 4;
        if token == FDT_BEGIN_NODE {
            let name = match cstr(data, off, struct_end) {
                Ok(n) => n,
                Err(e) => return Err(e),
            };
            let past = off + name.len() + 1;
            off = (past + 3) / 4 * 4;
            depth = depth + 1;
            if depth > MAX_DEPTH {
                return Err(FdtError::TooDeep);
            }
            // Depth 1 is the root; depth 2 its children; depth 3 the
            // `/cpus` children we count.
            if depth == 2 {
                let bare = vstd::slice::slice_subrange(name, 0, position_of(name, 0x40));
                context = if is_memory(bare) {
                    Node::Memory
                } else if is_cpus(bare) {
                    Node::Cpus
                } else if is_system(bare) {
                    Node::System
                } else {
                    Node::Other
                };
            } else if depth == 3 && context == Node::Cpus {
                context = Node::CpusChild(false);
            }
        } else if token == FDT_END_NODE {
            if depth == 0 {
                return Err(FdtError::BadStructure);
            }
            depth = depth - 1;
            match context {
                Node::CpusChild(counted) => {
                    if counted {
                        out.cpus = out.cpus + 1;
                        proof {
                            f = Facts { cpus: f.cpus + 1, ..f };
                        }
                    }
                    context = Node::Cpus;
                },
                _ => {
                    if depth <= 1 {
                        context = Node::Other;
                    }
                },
            }
        } else if token == FDT_PROP {
            if off + 8 > data.len() {
                return Err(FdtError::Truncated);
            }
            let len = read_be32(data, off) as usize;
            let name_off = read_be32(data, off + 4) as usize;
            let value_off = off + 8;
            let value_end = match value_off.checked_add(len) {
                Some(e) => e,
                None => return Err(FdtError::BadStructure),
            };
            if value_end > struct_end {
                return Err(FdtError::BadStructure);
            }
            let strings_at = match strings_off.checked_add(name_off) {
                Some(a) => a,
                None => return Err(FdtError::BadStructure),
            };
            let name = match cstr(data, strings_at, strings_end) {
                Ok(n) => n,
                Err(e) => return Err(e),
            };
            let value = vstd::slice::slice_subrange(data, value_off, value_end);
            let ghost ctx0 = context;
            let ghost f0 = f;
            match absorb(&mut out, depth, &mut context, name, value, Ghost(f)) {
                Ok(()) => {},
                Err(e) => return Err(e),
            }
            proof {
                f = absorb_spec(f0, depth as int, ctx0, name@, value@)->Ok_0.0;
            }
            off = (value_end + 3) / 4 * 4;
        } else if token == FDT_NOP {
        } else if token == FDT_END {
            if depth != 0 {
                return Err(FdtError::BadStructure);
            }
            return Ok(out);
        } else {
            return Err(FdtError::BadStructure);
        }
    }
}


} // verus!
