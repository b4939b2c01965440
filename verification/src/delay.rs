//! Wall-time delay arithmetic for a free-running counter.
use vstd::prelude::*;

verus! {

/// Nanoseconds per second.
pub const NS_PER_SEC: u64 = 1_000_000_000;

/// Ceiling of `a / b` for positive `b`.
pub open spec fn ceil_div(a: int, b: int) -> int {
    (a + b - 1) / b
}

/// Counter ticks covering `ns` nanoseconds at `freq_hz`: zero for a zero
/// input, at least one tick for a positive duration, rounded up, saturating
/// at `u64::MAX`.
pub open spec fn spec_ns_to_counts(freq_hz: u64, ns: u64) -> u64 {
    if freq_hz == 0 || ns == 0 {
        0
    } else {
        let c = ceil_div(freq_hz * ns, NS_PER_SEC as int);
        if c == 0 {
            1
        } else if c > u64::MAX {
            u64::MAX
        } else {
            c as u64
        }
    }
}

/// Counter ticks that cover at least `ns` nanoseconds at `freq_hz`.
pub fn ns_to_counts(freq_hz: u64, ns: u64) -> (r: u64)
    ensures
        r == spec_ns_to_counts(freq_hz, ns),
{
    if freq_hz == 0 || ns == 0 {
        return 0;
    }
    let f: u128 = freq_hz as u128;
    let n: u128 = ns as u128;
    assert(f * n <= 0xFFFF_FFFF_FFFF_FFFFu128 * 0xFFFF_FFFF_FFFF_FFFFu128) by (nonlinear_arith)
        requires
            f <= 0xFFFF_FFFF_FFFF_FFFFu128,
            n <= 0xFFFF_FFFF_FFFF_FFFFu128,
    ;
    let num: u128 = f * n;
    let den: u128 = 1_000_000_000u128;
    let counts: u128 = (num + (den - 1)) / den;
    if counts == 0 {
        1
    } else if counts > u64::MAX as u128 {
        u64::MAX
    } else {
        counts as u64
    }
}

/// Milliseconds to nanoseconds (a `u32` count of milliseconds always fits).
pub open spec fn ms_ns(ms: u32) -> u64 {
    (ms * 1_000_000int) as u64
}

/// Microseconds to nanoseconds.
pub open spec fn us_ns(us: u32) -> u64 {
    (us * 1_000int) as u64
}

/// Counter ticks that cover at least `ms` milliseconds at `freq_hz`.
pub fn ms_to_counts(freq_hz: u64, ms: u32) -> (r: u64)
    ensures
        r == spec_ns_to_counts(freq_hz, ms_ns(ms)),
{
    let ns: u64 = (ms as u64) * 1_000_000;
    ns_to_counts(freq_hz, ns)
}

/// Counter ticks that cover at least `us` microseconds at `freq_hz`.
pub fn us_to_counts(freq_hz: u64, us: u32) -> (r: u64)
    ensures
        r == spec_ns_to_counts(freq_hz, us_ns(us)),
{
    let ns: u64 = (us as u64) * 1_000;
    ns_to_counts(freq_hz, ns)
}

} // verus!
