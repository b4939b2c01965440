//! Supervisor lifecycle verdicts — what a supervisor may do to a task, given
//! whether it is idle and its model state. Acting on the verdict stays with
//! the kernel.
use vstd::prelude::*;
use crate::tasks::State;

verus! {

/// Why a supervisor reap was refused.
#[derive(Clone, Copy, Debug, PartialEq, Eq, Structural)]
pub enum ReapError {
    /// Target is the idle task.
    Idle,
    /// Unknown task id (or stale epoch).
    BadId,
    /// Task is not currently blocked — an empty slot included.
    NotBlocked,
}

/// Why a force-exit was refused.
#[derive(Clone, Copy, Debug, PartialEq, Eq, Structural)]
pub enum ForceError {
    Idle,
    BadId,
    /// Slot already empty.
    Empty,
}

/// What `reap` decided.
#[derive(Clone, Copy, Debug, PartialEq, Eq, Structural)]
pub enum ReapVerdict {
    Cancel,
    Refuse(ReapError),
}

/// What `force` decided.
#[derive(Clone, Copy, Debug, PartialEq, Eq, Structural)]
pub enum ForceVerdict {
    /// Flag and cancel the wait: the victim is parked.
    FlagAndCancel,
    /// Flag and nudge the home CPU: the victim is runnable or running.
    FlagAndNudge,
    Refuse(ForceError),
}

/// What `cancel` decided.
#[derive(Clone, Copy, Debug, PartialEq, Eq, Structural)]
pub enum CancelVerdict {
    MarkAndWake,
    Refuse,
}

pub open spec fn spec_reap(is_idle: bool, state: Option<State>) -> ReapVerdict {
    if is_idle {
        ReapVerdict::Refuse(ReapError::Idle)
    } else {
        match state {
            None => ReapVerdict::Refuse(ReapError::BadId),
            Some(State::Blocked) => ReapVerdict::Cancel,
            Some(_) => ReapVerdict::Refuse(ReapError::NotBlocked),
        }
    }
}

pub open spec fn spec_force(is_idle: bool, state: Option<State>) -> ForceVerdict {
    if is_idle {
        ForceVerdict::Refuse(ForceError::Idle)
    } else {
        match state {
            None => ForceVerdict::Refuse(ForceError::BadId),
            Some(State::Empty) => ForceVerdict::Refuse(ForceError::Empty),
            Some(State::Blocked) => ForceVerdict::FlagAndCancel,
            Some(_) => ForceVerdict::FlagAndNudge,
        }
    }
}

pub open spec fn spec_cancel(state: Option<State>) -> CancelVerdict {
    if state == Some(State::Blocked) {
        CancelVerdict::MarkAndWake
    } else {
        CancelVerdict::Refuse
    }
}

/// Reap verdict for a target that is `is_idle`, in `state` (`None` for an
/// unknown id or stale epoch).
pub fn reap(is_idle: bool, state: Option<State>) -> (v: ReapVerdict)
    ensures
        v == spec_reap(is_idle, state),
{
    if is_idle {
        return ReapVerdict::Refuse(ReapError::Idle);
    }
    match state {
        None => ReapVerdict::Refuse(ReapError::BadId),
        Some(State::Blocked) => ReapVerdict::Cancel,
        Some(_) => ReapVerdict::Refuse(ReapError::NotBlocked),
    }
}

/// Force-exit verdict.
pub fn force(is_idle: bool, state: Option<State>) -> (v: ForceVerdict)
    ensures
        v == spec_force(is_idle, state),
{
    if is_idle {
        return ForceVerdict::Refuse(ForceError::Idle);
    }
    match state {
        None => ForceVerdict::Refuse(ForceError::BadId),
        Some(State::Empty) => ForceVerdict::Refuse(ForceError::Empty),
        Some(State::Blocked) => ForceVerdict::FlagAndCancel,
        Some(_) => ForceVerdict::FlagAndNudge,
    }
}

/// Cancel-wait verdict.
pub fn cancel(state: Option<State>) -> (v: CancelVerdict)
    ensures
        v == spec_cancel(state),
{
    match state {
        Some(State::Blocked) => CancelVerdict::MarkAndWake,
        _ => CancelVerdict::Refuse,
    }
}

/// The three verdicts agree on exactly one input: a blocked, non-idle task
/// is cancelled by reap, flagged-and-cancelled by force and woken by cancel;
/// for every other input at least one of them refuses.
pub proof fn lemma_verdicts_agree_only_on_blocked(is_idle: bool, state: Option<State>)
    ensures
        (spec_reap(is_idle, state) == ReapVerdict::Cancel) <==> (!is_idle && state == Some(
            State::Blocked,
        )),
        (spec_force(is_idle, state) == ForceVerdict::FlagAndCancel) <==> (!is_idle && state
            == Some(State::Blocked)),
        !is_idle ==> (spec_cancel(state) == CancelVerdict::MarkAndWake <==> spec_reap(is_idle, state)
            == ReapVerdict::Cancel),
{
}

/// An empty slot is answered differently by reap (not blocked) and by force
/// (empty): each is asked a different question.
pub proof fn lemma_empty_slot_divergence()
    ensures
        spec_reap(false, Some(State::Empty)) == ReapVerdict::Refuse(ReapError::NotBlocked),
        spec_force(false, Some(State::Empty)) == ForceVerdict::Refuse(ForceError::Empty),
{
}

} // verus!
