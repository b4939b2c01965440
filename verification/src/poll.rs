//! Bounded waiting on a hardware condition.
//!
//! Every `while status_bit_set() {}` in a driver is a hang waiting for a
//! wedged device, and the paths that most need to survive one — a panic
//! handler that has already masked interrupts — are the least able to report
//! that they are stuck. Giving the wait a budget turns "the board went quiet"
//! into "a character was dropped".
//!
//! Here rather than in the driver so the budget behaviour is testable: a
//! condition that never clears is exactly what cannot be produced on demand
//! from real hardware.
use vstd::prelude::*;

verus! {

/// Poll `ready` until it returns `true`, at most `budget` times.
///
/// Returns `true` if the condition was observed, `false` if the budget ran out.
/// A `budget` of zero checks once: the caller asked for no *waiting*, not for
/// no *look*.
pub fn until<F: FnMut() -> bool>(budget: u32, mut ready: F) -> (r: bool)
    requires
        forall|f: F| call_requires(f, ()),
    ensures
        r ==> exists|f: F| call_ensures(f, (), true),
        !r ==> exists|f: F| call_ensures(f, (), false),
{
    let mut attempts: u32 = 0;
    loop
        invariant
            attempts <= budget,
            forall|f: F| call_requires(f, ()),
        decreases budget - attempts,
    {
        let seen = ready();
        if seen {
            return true;
        }
        if attempts >= budget {
            return false;
        }
        attempts += 1;
    }
}

} // verus!
