//! Agent density arithmetic — how many task stacks fit in a heap budget.
use vstd::prelude::*;
use crate::paging::PAGE_SIZE;

verus! {

/// Kernel stack class chosen at spawn.
#[derive(Clone, Copy, Debug, PartialEq, Eq, Structural)]
pub enum StackClass {
    /// 16 KiB usable — full agent/driver depth.
    Full,
    /// 4 KiB usable — short workers.
    Thin,
    /// One mapped page with no unmapped guard below it.
    Mini,
}

pub open spec fn spec_usable_bytes(class: StackClass) -> usize {
    match class {
        StackClass::Full => 16384usize,
        _ => 4096usize,
    }
}

pub open spec fn spec_has_guard_page(class: StackClass) -> bool {
    class != StackClass::Mini
}

pub open spec fn spec_bytes_per_task(class: StackClass) -> usize {
    if spec_has_guard_page(class) {
        (spec_usable_bytes(class) + PAGE_SIZE) as usize
    } else {
        spec_usable_bytes(class)
    }
}

pub open spec fn spec_max_tasks(heap_bytes: usize, class: StackClass) -> usize {
    (heap_bytes / spec_bytes_per_task(class)) as usize
}

/// Usable stack bytes (the mapped region the SP grows down through).
pub fn usable_bytes(class: StackClass) -> (r: usize)
    ensures
        r == spec_usable_bytes(class),
{
    match class {
        StackClass::Full => 16 * 1024,
        StackClass::Thin | StackClass::Mini => 4 * 1024,
    }
}

/// Whether this class carves an unmapped guard page below the usable region.
pub fn has_guard_page(class: StackClass) -> (r: bool)
    ensures
        r == spec_has_guard_page(class),
{
    !matches!(class, StackClass::Mini)
}

/// Heap bytes consumed per task: usable bytes plus the guard page, if any.
pub fn bytes_per_task(class: StackClass) -> (r: usize)
    ensures
        r == spec_bytes_per_task(class),
        r > 0,
{
    let usable = usable_bytes(class);
    if has_guard_page(class) {
        usable + PAGE_SIZE as usize
    } else {
        usable
    }
}

/// How many tasks of `class` fit in `heap_bytes`.
pub fn max_tasks_for_heap(heap_bytes: usize, class: StackClass) -> (r: usize)
    ensures
        r == spec_max_tasks(heap_bytes, class),
{
    let each = bytes_per_task(class);
    heap_bytes / each
}

/// `a - b`, or zero.
pub open spec fn sat_sub(a: usize, b: usize) -> usize {
    if a >= b { (a - b) as usize } else { 0 }
}

/// Extra tasks of `Thin` over `Full` for the same heap budget.
pub fn thin_advantage(heap_bytes: usize) -> (r: usize)
    ensures
        r == sat_sub(
            spec_max_tasks(heap_bytes, StackClass::Thin),
            spec_max_tasks(heap_bytes, StackClass::Full),
        ),
{
    max_tasks_for_heap(heap_bytes, StackClass::Thin).saturating_sub(
        max_tasks_for_heap(heap_bytes, StackClass::Full),
    )
}

/// Extra tasks of `Mini` over `Thin` for the same heap budget.
pub fn mini_advantage(heap_bytes: usize) -> (r: usize)
    ensures
        r == sat_sub(
            spec_max_tasks(heap_bytes, StackClass::Mini),
            spec_max_tasks(heap_bytes, StackClass::Thin),
        ),
{
    max_tasks_for_heap(heap_bytes, StackClass::Mini).saturating_sub(
        max_tasks_for_heap(heap_bytes, StackClass::Thin),
    )
}

/// Whether `class` is the short-worker band (Thin or Mini).
pub fn is_short_worker(class: StackClass) -> (r: bool)
    ensures
        r == (class == StackClass::Thin || class == StackClass::Mini),
{
    matches!(class, StackClass::Thin | StackClass::Mini)
}

/// A smaller stack never fits fewer tasks: for any heap, Mini fits at least as
/// many as Thin and Thin at least as many as Full.
pub proof fn lemma_density_ordering(heap_bytes: usize)
    ensures
        spec_max_tasks(heap_bytes, StackClass::Full) <= spec_max_tasks(heap_bytes, StackClass::Thin),
        spec_max_tasks(heap_bytes, StackClass::Thin) <= spec_max_tasks(heap_bytes, StackClass::Mini),
{
    vstd::arithmetic::div_mod::lemma_div_is_ordered_by_denominator(heap_bytes as int, 8192, 20480);
    vstd::arithmetic::div_mod::lemma_div_is_ordered_by_denominator(heap_bytes as int, 4096, 8192);
}

} // verus!
