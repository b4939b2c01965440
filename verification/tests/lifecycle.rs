use kernel_core::lifecycle::{CancelVerdict, ForceError, ForceVerdict, ReapError, ReapVerdict, cancel, force, reap};
use kernel_core::tasks::{State};

const STATES: [Option<State>; 5] = [
    None,
    Some(State::Empty),
    Some(State::Ready),
    Some(State::Running),
    Some(State::Blocked),
];

#[test]
fn idle_is_refused_first_whatever_the_state() {
    for s in STATES {
        assert_eq!(reap(true, s), ReapVerdict::Refuse(ReapError::Idle));
        assert_eq!(force(true, s), ForceVerdict::Refuse(ForceError::Idle));
    }
}

#[test]
fn an_unknown_or_stale_id_is_bad_id() {
    assert_eq!(reap(false, None), ReapVerdict::Refuse(ReapError::BadId));
    assert_eq!(force(false, None), ForceVerdict::Refuse(ForceError::BadId));
}

#[test]
fn reap_cancels_only_a_blocked_task() {
    assert_eq!(reap(false, Some(State::Blocked)), ReapVerdict::Cancel);
    for s in [State::Empty, State::Ready, State::Running] {
        assert_eq!(
            reap(false, Some(s)),
            ReapVerdict::Refuse(ReapError::NotBlocked)
        );
    }
}

#[test]
fn force_cancels_a_blocked_task_and_nudges_a_runnable_one() {
    assert_eq!(
        force(false, Some(State::Blocked)),
        ForceVerdict::FlagAndCancel
    );
    for s in [State::Ready, State::Running] {
        assert_eq!(force(false, Some(s)), ForceVerdict::FlagAndNudge);
    }
}

#[test]
fn an_empty_slot_answers_differently_to_reap_and_to_force() {
    // Deliberate, and ABI (ADR-0061 detail codes): reap asks whether the
    // target is blocked — an empty slot is not — while force asks about
    // the slot itself, where "nothing here" is its own answer. If one of
    // these ever changes, it is an ABI change and this test is where the
    // decision has to be re-made.
    assert_eq!(
        reap(false, Some(State::Empty)),
        ReapVerdict::Refuse(ReapError::NotBlocked)
    );
    assert_eq!(
        force(false, Some(State::Empty)),
        ForceVerdict::Refuse(ForceError::Empty)
    );
}

#[test]
fn cancel_marks_only_a_blocked_task() {
    assert_eq!(cancel(Some(State::Blocked)), CancelVerdict::MarkAndWake);
    for s in STATES {
        if s == Some(State::Blocked) {
            continue;
        }
        assert_eq!(cancel(s), CancelVerdict::Refuse);
    }
}

#[test]
fn every_state_gets_exactly_one_verdict() {
    // A table with a hole would compile: `Option<State>` has five
    // inhabitants and each function matches on it. This walks all ten
    // (is_idle × state) inputs of each and asserts none panics or falls
    // into an unintended arm — the property a mutant that reorders the
    // arms would break.
    for idle in [true, false] {
        for s in STATES {
            let r = reap(idle, s);
            let f = force(idle, s);
            if idle {
                assert_eq!(r, ReapVerdict::Refuse(ReapError::Idle));
                assert_eq!(f, ForceVerdict::Refuse(ForceError::Idle));
            } else {
                assert_eq!(r == ReapVerdict::Cancel, s == Some(State::Blocked));
                assert_eq!(f == ForceVerdict::FlagAndCancel, s == Some(State::Blocked));
            }
        }
    }
}

#[test]
fn a_blocked_task_is_the_only_input_all_three_agree_on() {
    // The one row where the three verdicts line up — worth pinning,
    // because it is the row every supervisor demo exercises.
    assert_eq!(reap(false, Some(State::Blocked)), ReapVerdict::Cancel);
    assert_eq!(
        force(false, Some(State::Blocked)),
        ForceVerdict::FlagAndCancel
    );
    assert_eq!(cancel(Some(State::Blocked)), CancelVerdict::MarkAndWake);
}
