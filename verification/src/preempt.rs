//! Preemption decision: whether the timer tick should request a reschedule.
use vstd::prelude::*;
use crate::budget;

verus! {

/// Set the reschedule request when the current task is not idle and its slice
/// has expired.
pub fn should_set(slice_start: u64, now: u64, quantum: u64, current_is_idle: bool) -> (r: bool)
    ensures
        r == (!current_is_idle && budget::spec_expired(slice_start, now, quantum)),
{
    !current_is_idle && budget::expired(slice_start, now, quantum)
}

} // verus!
