//! Kernel memory layout: turning linker boundaries into mapped regions.
//!
//! The builder validates rather than trusts: regions must be ascending,
//! non-overlapping and page-aligned, nothing may be writable and executable
//! at once, and each stack's guard page must exist, touch its stack, and be
//! mapped by nothing.
use vstd::prelude::*;
use crate::paging::{MemKind, PAGE_SIZE, Perms};

verus! {

/// A region to identity-map.
#[derive(Clone, Copy, Debug, PartialEq, Eq)]
pub struct Region {
    pub base: u64,
    pub len: u64,
    pub kind: MemKind,
    pub perms: Perms,
    /// Shown in diagnostics when mapping fails.
    pub name: &'static str,
}

impl Region {
    /// One past the last byte.
    pub fn end(&self) -> (r: u64)
        requires
            self.base + self.len <= u64::MAX,
        ensures
            r == self.base + self.len,
    {
        self.base + self.len
    }

    /// True if this region can be written and executed.
    pub fn is_write_execute(&self) -> (r: bool)
        ensures
            r == (self.perms.write && self.perms.execute),
    {
        self.perms.write && self.perms.execute
    }
}

/// A device MMIO window supplied by the board.
#[derive(Clone, Copy, Debug, PartialEq, Eq)]
pub struct DeviceWindow {
    pub base: u64,
    pub len: u64,
    pub name: &'static str,
}

/// A stack and the unmapped page immediately below it.
#[derive(Clone, Copy, Debug, PartialEq, Eq)]
pub struct GuardedStack {
    /// Deliberately not mapped; present so the builder can check that the
    /// stack really is fenced off from what precedes it.
    pub guard: (u64, u64),
    pub stack: (u64, u64),
    pub name: &'static str,
}

/// Linker-provided boundaries, `(start, end)` pairs with exclusive ends.
#[derive(Clone, Copy, Debug)]
pub struct Boundaries {
    pub image_start: u64,
    pub text: (u64, u64),
    pub rodata: (u64, u64),
    pub data: (u64, u64),
    pub pagetables: (u64, u64),
    /// The stack the kernel runs on.
    pub kernel_stack: GuardedStack,
    /// The stack exceptions are taken on.
    pub exception_stack: GuardedStack,
    pub heap: (u64, u64),
    /// Physical frame pool for user address spaces.
    pub frame_pool: (u64, u64),
}

/// Why a layout could not be built.
#[derive(Clone, Copy, Debug, PartialEq, Eq)]
pub enum LayoutError {
    /// The output slice is shorter than the number of regions.
    TooManyRegions,
    /// A boundary is not page aligned.
    Unaligned { name: &'static str, addr: u64 },
    /// A region ends at or before it starts.
    Empty { name: &'static str },
    /// Two regions overlap, or they are not in ascending order.
    Overlap { first: &'static str, second: &'static str },
    /// A region is both writable and executable.
    WriteExecute { name: &'static str },
    /// The guard page is mapped by some region, so it guards nothing.
    GuardMapped { by: &'static str },
    /// The guard page is empty, or does not sit immediately below the stack.
    GuardIneffective { guard_start: u64, guard_end: u64, stack_base: u64 },
}

/// The region of `(base, end)`: empty when `end` is not above `base`.
pub open spec fn region_spec(span: (u64, u64), kind: MemKind, perms: Perms, name: &'static str) -> Region {
    Region { base: span.0, len: if span.1 >= span.0 { (span.1 - span.0) as u64 } else { 0 }, kind, perms, name }
}

fn region(span: (u64, u64), kind: MemKind, perms: Perms, name: &'static str) -> (r: Region)
    ensures
        r == region_spec(span, kind, perms, name),
{
    Region { base: span.0, len: span.1.saturating_sub(span.0), kind, perms, name }
}

pub open spec fn data_perms() -> Perms {
    Perms { write: true, execute: false }
}

/// The kernel's regions, in order: low RAM, the image sections, the two
/// stacks (exception first), the heap, the frame pool, then each device.
pub open spec fn planned_regions(b: Boundaries, devices: Seq<DeviceWindow>) -> Seq<Region> {
    seq![
        region_spec((0, b.image_start), MemKind::NormalWb, data_perms(), "low RAM"),
        region_spec(b.text, MemKind::NormalWb, Perms { write: false, execute: true }, ".text"),
        region_spec(b.rodata, MemKind::NormalWb, Perms { write: false, execute: false }, ".rodata"),
        region_spec(b.data, MemKind::NormalWb, data_perms(), ".data/.bss"),
        region_spec(b.pagetables, MemKind::NormalWb, data_perms(), "page tables"),
        region_spec(b.exception_stack.stack, MemKind::NormalWb, data_perms(), b.exception_stack.name),
        region_spec(b.kernel_stack.stack, MemKind::NormalWb, data_perms(), b.kernel_stack.name),
        region_spec(b.heap, MemKind::NormalWb, data_perms(), "heap"),
        region_spec(b.frame_pool, MemKind::NormalWb, data_perms(), "frame pool"),
    ] + Seq::new(
        devices.len(),
        |i: int| Region { base: devices[i].base, len: devices[i].len, kind: MemKind::Device, perms: data_perms(), name: devices[i].name },
    )
}

/// What [`validate_guarded_stack`] answers.
pub open spec fn guard_fault(g: GuardedStack) -> Option<LayoutError> {
    if g.guard.1 < g.guard.0 + PAGE_SIZE || g.guard.1 != g.stack.0 {
        Some(LayoutError::GuardIneffective { guard_start: g.guard.0, guard_end: g.guard.1, stack_base: g.stack.0 })
    } else if g.stack.1 <= g.stack.0 {
        Some(LayoutError::Empty { name: g.name })
    } else if g.guard.0 % PAGE_SIZE != 0 || g.stack.0 % PAGE_SIZE != 0 || g.stack.1 % PAGE_SIZE != 0 {
        Some(LayoutError::Unaligned { name: g.name, addr: g.guard.0 })
    } else {
        None
    }
}

/// Whether region `r` maps any of guard `g`.
pub open spec fn covers_guard(r: Region, g: GuardedStack) -> bool {
    r.base < g.guard.1 && g.guard.0 < r.base + r.len
}

/// Why region `r` alone is refused, if it is.
pub open spec fn region_fault(r: Region, b: Boundaries) -> Option<LayoutError> {
    if r.len == 0 {
        Some(LayoutError::Empty { name: r.name })
    } else if r.base % PAGE_SIZE != 0 || r.len % PAGE_SIZE != 0 {
        Some(LayoutError::Unaligned { name: r.name, addr: r.base })
    } else if r.perms.write && r.perms.execute {
        Some(LayoutError::WriteExecute { name: r.name })
    } else if covers_guard(r, b.kernel_stack) || covers_guard(r, b.exception_stack) {
        Some(LayoutError::GuardMapped { by: r.name })
    } else {
        None
    }
}

/// The first region at or after `from` refused alone (`rs.len()` if none).
pub open spec fn first_region_fault(rs: Seq<Region>, b: Boundaries, from: int) -> int
    decreases rs.len() - from,
{
    if from < 0 || from >= rs.len() {
        rs.len() as int
    } else if region_fault(rs[from], b) is Some {
        from
    } else {
        first_region_fault(rs, b, from + 1)
    }
}

/// The first `i` at or after `from` where region `i + 1` starts before
/// region `i` ends (`rs.len()` if none).
pub open spec fn first_overlap(rs: Seq<Region>, from: int) -> int
    decreases rs.len() - from,
{
    if from < 0 || from + 1 >= rs.len() {
        rs.len() as int
    } else if rs[from + 1].base < rs[from].base + rs[from].len {
        from
    } else {
        first_overlap(rs, from + 1)
    }
}

/// What validating regions `rs` against boundaries `b` answers: the guards
/// (kernel stack first), then every region alone, then the ordering.
pub open spec fn validate_spec(rs: Seq<Region>, b: Boundaries) -> Result<(), LayoutError> {
    let fr = first_region_fault(rs, b, 0);
    let fo = first_overlap(rs, 0);
    if guard_fault(b.kernel_stack) is Some {
        Err(guard_fault(b.kernel_stack)->0)
    } else if guard_fault(b.exception_stack) is Some {
        Err(guard_fault(b.exception_stack)->0)
    } else if fr < rs.len() {
        Err(region_fault(rs[fr], b)->0)
    } else if fo < rs.len() {
        Err(LayoutError::Overlap { first: rs[fo].name, second: rs[fo + 1].name })
    } else {
        Ok(())
    }
}

/// Whether `validate_guarded_stack` can be asked of `g` without overflow.
pub open spec fn guard_sized(g: GuardedStack) -> bool {
    g.guard.0 + PAGE_SIZE <= u64::MAX
}

/// Check one stack and its guard: the guard is at least one page and ends
/// exactly where the stack begins, the stack is not empty, and all three
/// addresses are page aligned.
pub fn validate_guarded_stack(guarded: &GuardedStack) -> (r: Result<(), LayoutError>)
    requires
        guard_sized(*guarded),
    ensures
        r == match guard_fault(*guarded) {
            Some(e) => Err::<(), LayoutError>(e),
            None => Ok(()),
        },
{
    if guarded.guard.1 < guarded.guard.0 + PAGE_SIZE || guarded.guard.1 != guarded.stack.0 {
        return Err(LayoutError::GuardIneffective {
            guard_start: guarded.guard.0,
            guard_end: guarded.guard.1,
            stack_base: guarded.stack.0,
        });
    }
    if guarded.stack.1 <= guarded.stack.0 {
        return Err(LayoutError::Empty { name: guarded.name });
    }
    if guarded.guard.0 % PAGE_SIZE != 0 || guarded.stack.0 % PAGE_SIZE != 0 || guarded.stack.1 % PAGE_SIZE != 0 {
        return Err(LayoutError::Unaligned { name: guarded.name, addr: guarded.guard.0 });
    }
    Ok(())
}

/// Whether every region's end fits in an address.
pub open spec fn ends_fit(rs: Seq<Region>) -> bool {
    forall|i: int| 0 <= i < rs.len() ==> (#[trigger] rs[i]).base + rs[i].len <= u64::MAX
}

fn validate(regions: &[Region], bounds: &Boundaries) -> (r: Result<(), LayoutError>)
    requires
        ends_fit(regions@),
        guard_sized(bounds.kernel_stack),
        guard_sized(bounds.exception_stack),
    ensures
        r == validate_spec(regions@, *bounds),
{
    validate_guarded_stack(&bounds.kernel_stack)?;
    validate_guarded_stack(&bounds.exception_stack)?;
    let mut i: usize = 0;
    while i < regions.len()
        invariant
            ends_fit(regions@),
            i <= regions@.len(),
            guard_fault(bounds.kernel_stack) is None,
            guard_fault(bounds.exception_stack) is None,
            first_region_fault(regions@, *bounds, 0) == first_region_fault(regions@, *bounds, i as int),
        decreases regions@.len() - i,
    {
        let r = regions[i];
        assert(r.base + r.len <= u64::MAX);
        if r.len == 0 {
            return Err(LayoutError::Empty { name: r.name });
        }
        if r.base % PAGE_SIZE != 0 || r.len % PAGE_SIZE != 0 {
            return Err(LayoutError::Unaligned { name: r.name, addr: r.base });
        }
        if r.is_write_execute() {
            return Err(LayoutError::WriteExecute { name: r.name });
        }
        let k = bounds.kernel_stack;
        let e = bounds.exception_stack;
        if (r.base < k.guard.1 && k.guard.0 < r.end()) || (r.base < e.guard.1 && e.guard.0 < r.end()) {
            return Err(LayoutError::GuardMapped { by: r.name });
        }
        i = i + 1;
    }
    let mut j: usize = 0;
    while regions.len() > 1 && j < regions.len() - 1
        invariant
            ends_fit(regions@),
            j <= regions@.len(),
            first_region_fault(regions@, *bounds, 0) == regions@.len(),
            guard_fault(bounds.kernel_stack) is None,
            guard_fault(bounds.exception_stack) is None,
            first_overlap(regions@, 0) == first_overlap(regions@, j as int),
        decreases regions@.len() - j,
    {
        let a = regions[j];
        let b = regions[j + 1];
        assert(first_overlap(regions@, j as int) == if b.base < a.base + a.len { j as int } else { first_overlap(regions@, j + 1) });
        assert(a.base + a.len <= u64::MAX);
        if b.base < a.end() {
            return Err(LayoutError::Overlap { first: a.name, second: b.name });
        }
        j = j + 1;
    }
    Ok(())
}

/// Build the kernel's region list into the front of `out` and validate it;
/// returns how many regions there are. The list is written before it is
/// validated.
pub fn kernel_regions(bounds: &Boundaries, devices: &[DeviceWindow], out: &mut [Region]) -> (r: Result<usize, LayoutError>)
    requires
        forall|i: int| 0 <= i < devices@.len() ==> (#[trigger] devices@[i]).base + devices@[i].len <= u64::MAX,
        guard_sized(bounds.kernel_stack),
        guard_sized(bounds.exception_stack),
    ensures
        final(out)@.len() == old(out)@.len(),
        old(out)@.len() < 9 + devices@.len() ==> r == Err::<usize, LayoutError>(LayoutError::TooManyRegions)
            && final(out)@ == old(out)@,
        old(out)@.len() >= 9 + devices@.len() ==> {
            let plan = planned_regions(*bounds, devices@);
            &&& final(out)@ == plan + old(out)@.subrange(plan.len() as int, old(out)@.len() as int)
            &&& r == match validate_spec(plan, *bounds) {
                Ok(()) => Ok::<usize, LayoutError>(plan.len() as usize),
                Err(e) => Err(e),
            }
        },
{
    let ram_count: usize = 9;
    if out.len() < ram_count || out.len() - ram_count < devices.len() {
        return Err(LayoutError::TooManyRegions);
    }
    let ghost o = out@;
    let rw = Perms::rw();
    out[0] = region((0, bounds.image_start), MemKind::NormalWb, rw, "low RAM");
    out[1] = region(bounds.text, MemKind::NormalWb, Perms::rx(), ".text");
    out[2] = region(bounds.rodata, MemKind::NormalWb, Perms::ro(), ".rodata");
    out[3] = region(bounds.data, MemKind::NormalWb, rw, ".data/.bss");
    out[4] = region(bounds.pagetables, MemKind::NormalWb, rw, "page tables");
    out[5] = region(bounds.exception_stack.stack, MemKind::NormalWb, rw, bounds.exception_stack.name);
    out[6] = region(bounds.kernel_stack.stack, MemKind::NormalWb, rw, bounds.kernel_stack.name);
    out[7] = region(bounds.heap, MemKind::NormalWb, rw, "heap");
    out[8] = region(bounds.frame_pool, MemKind::NormalWb, rw, "frame pool");
    let ghost plan = planned_regions(*bounds, devices@);
    let total = out.len();
    let mut i: usize = 0;
    while i < devices.len()
        invariant
            ram_count == 9,
            total == o.len(),
            rw == data_perms(),
            out@.len() == o.len(),
            o.len() >= 9 + devices@.len(),
            i <= devices@.len(),
            plan == planned_regions(*bounds, devices@),
            forall|k: int| 0 <= k < 9 + i ==> #[trigger] out@[k] == plan[k],
            forall|k: int| 9 + devices@.len() <= k < o.len() ==> #[trigger] out@[k] == o[k],
        decreases devices@.len() - i,
    {
        let w = devices[i];
        assert(plan[9 + i] == Region { base: w.base, len: w.len, kind: MemKind::Device, perms: data_perms(), name: w.name });
        out[ram_count + i] = Region { base: w.base, len: w.len, kind: MemKind::Device, perms: rw, name: w.name };
        i = i + 1;
    }
    assert(out@ =~= plan + o.subrange(plan.len() as int, o.len() as int));
    let n = ram_count + devices.len();
    let filled = vstd::slice::slice_subrange(out, 0, n);
    assert(filled@ =~= plan);
    assert forall|k: int| 0 <= k < plan.len() implies (#[trigger] plan[k]).base + plan[k].len <= u64::MAX by {
        if k >= 9 {
            assert(devices@[k - 9].base + devices@[k - 9].len <= u64::MAX);
        }
    }
    match validate(filled, bounds) {
        Ok(()) => Ok(n),
        Err(e) => Err(e),
    }
}

/// The private address window an EL0 agent runs in: page 0 is its text,
/// mapped executable; the pages above are its stack, the stack pointer
/// starting at the top.
#[derive(Clone, Copy, Debug, PartialEq, Eq, Structural)]
pub struct UserWindow {
    /// Lowest address: the text page.
    pub base: u64,
    /// Total pages, text included. At least two.
    pub pages: usize,
    /// Page size in bytes.
    pub frame: usize,
}

/// Why an access to a [`UserWindow`] was refused.
#[derive(Clone, Copy, Debug, PartialEq, Eq, Structural)]
pub enum WindowError {
    /// Fewer than two pages: no room for both text and a stack.
    TooSmall,
    /// The write would leave the text page.
    OutOfTextPage,
}

impl UserWindow {
    /// Exclusive top of the window: the initial stack pointer.
    pub fn stack_top(&self) -> (r: u64)
        requires
            self.base + self.pages * self.frame <= u64::MAX,
        ensures
            r == self.base + self.pages * self.frame,
    {
        proof {
            assert(0 <= self.pages * self.frame) by (nonlinear_arith);
        }
        let size: u64 = (self.pages as u64) * (self.frame as u64);
        self.base + size
    }

    /// Where EL0 starts executing: the beginning of the text page.
    pub fn entry(&self) -> (r: u64)
        ensures
            r == self.base,
    {
        self.base
    }

    /// True for the one page mapped executable rather than writable: the
    /// lowest.
    pub fn is_text_page(&self, index: usize) -> (r: bool)
        ensures
            r == (index == 0),
    {
        index == 0
    }

    /// Whether the window has room for both text and a stack.
    pub fn validate(&self) -> (r: Result<(), WindowError>)
        ensures
            r == if self.pages < 2 { Err::<(), WindowError>(WindowError::TooSmall) } else { Ok(()) },
    {
        if self.pages < 2 {
            return Err(WindowError::TooSmall);
        }
        Ok(())
    }

    /// Bound a write of `len` bytes at `offset` into the text page: one page,
    /// not the whole window.
    pub fn bound_text_write(&self, offset: usize, len: usize) -> (r: Result<(), WindowError>)
        ensures
            r == if offset + len <= self.frame { Ok::<(), WindowError>(()) } else { Err(WindowError::OutOfTextPage) },
    {
        match offset.checked_add(len) {
            Some(end) => if end <= self.frame {
                Ok(())
            } else {
                Err(WindowError::OutOfTextPage)
            },
            None => Err(WindowError::OutOfTextPage),
        }
    }
}

/// A validated layout keeps its promises: no region is writable and
/// executable, each region ends at or before the next begins, and no region
/// maps either guard page.
pub proof fn lemma_valid_layout_is_safe(rs: Seq<Region>, b: Boundaries, i: int)
    requires
        validate_spec(rs, b) is Ok,
        0 <= i < rs.len(),
    ensures
        !(rs[i].perms.write && rs[i].perms.execute),
        !covers_guard(rs[i], b.kernel_stack),
        !covers_guard(rs[i], b.exception_stack),
        rs[i].len > 0,
        i + 1 < rs.len() ==> rs[i].base + rs[i].len <= rs[i + 1].base,
{
    lemma_no_fault_from(rs, b, 0, i);
    lemma_no_overlap_from(rs, 0, i);
}

proof fn lemma_no_fault_from(rs: Seq<Region>, b: Boundaries, from: int, i: int)
    requires
        0 <= from <= i < rs.len(),
        first_region_fault(rs, b, from) >= rs.len(),
    ensures
        region_fault(rs[i], b) is None,
    decreases i - from,
{
    if from < i {
        lemma_no_fault_from(rs, b, from + 1, i);
    }
}

proof fn lemma_no_overlap_from(rs: Seq<Region>, from: int, i: int)
    requires
        0 <= from <= i < rs.len(),
        first_overlap(rs, from) >= rs.len(),
    ensures
        i + 1 < rs.len() ==> rs[i].base + rs[i].len <= rs[i + 1].base,
    decreases i - from,
{
    if from < i {
        lemma_no_overlap_from(rs, from + 1, i);
    }
}


/// The plan maps RAM as RAM and devices as devices: its first nine regions
/// (low RAM, the image sections, page tables, both stacks, heap, frame pool)
/// are normal write-back memory over the spans the boundaries give, only the
/// device windows after them are device memory, and only `.text` is
/// executable.
pub proof fn lemma_plan_memory_kinds(b: Boundaries, devices: Seq<DeviceWindow>)
    ensures
        planned_regions(b, devices).len() == 9 + devices.len(),
        forall|i: int| 0 <= i < 9 ==> (#[trigger] planned_regions(b, devices)[i]).kind == MemKind::NormalWb,
        forall|i: int| 9 <= i < 9 + devices.len() ==> (#[trigger] planned_regions(b, devices)[i]).kind == MemKind::Device
            && planned_regions(b, devices)[i].base == devices[i - 9].base
            && planned_regions(b, devices)[i].len == devices[i - 9].len,
        forall|i: int| 0 <= i < 9 + devices.len() && i != 1 ==> !(#[trigger] planned_regions(b, devices)[i]).perms.execute,
        planned_regions(b, devices)[1].perms.execute && !planned_regions(b, devices)[1].perms.write,
        planned_regions(b, devices)[0].base == 0,
        planned_regions(b, devices)[1].base == b.text.0,
        planned_regions(b, devices)[2].base == b.rodata.0,
        planned_regions(b, devices)[3].base == b.data.0,
        planned_regions(b, devices)[4].base == b.pagetables.0,
        planned_regions(b, devices)[5].base == b.exception_stack.stack.0,
        planned_regions(b, devices)[6].base == b.kernel_stack.stack.0,
        planned_regions(b, devices)[7].base == b.heap.0,
        planned_regions(b, devices)[8].base == b.frame_pool.0,
{
    let p = planned_regions(b, devices);
    assert forall|i: int| 9 <= i < 9 + devices.len() implies (#[trigger] p[i]).kind == MemKind::Device
        && p[i].base == devices[i - 9].base && p[i].len == devices[i - 9].len by {
    }
}

} // verus!
