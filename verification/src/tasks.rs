//! Task-table vocabulary shared by the loader and the lifecycle verdicts.
use vstd::prelude::*;

verus! {

/// Cores a task may be homed on (`0 .. N_CPUS`).
pub const N_CPUS: usize = 2;

/// Model state of a task slot.
#[derive(Clone, Copy, Debug, PartialEq, Eq, Structural)]
pub enum State {
    Empty,
    Ready,
    Running,
    Blocked,
}

} // verus!
