//! Cooperative CPU budget arithmetic — pure.
use vstd::prelude::*;

verus! {

/// Elapsed ticks since the slice began, clamped at zero when the clock reads
/// earlier than the start.
pub open spec fn elapsed(slice_start: u64, now: u64) -> int {
    if now >= slice_start { now - slice_start } else { 0 }
}

/// The expiry rule: a zero quantum never expires; otherwise the slice has run
/// out once at least `quantum` ticks elapsed.
pub open spec fn spec_expired(slice_start: u64, now: u64, quantum: u64) -> bool {
    quantum != 0 && elapsed(slice_start, now) >= quantum
}

/// True when the running slice has consumed at least `quantum` ticks.
pub fn expired(slice_start: u64, now: u64, quantum: u64) -> (r: bool)
    ensures
        r == spec_expired(slice_start, now, quantum),
{
    if quantum == 0 {
        return false;
    }
    now.saturating_sub(slice_start) >= quantum
}

} // verus!
