use kernel_core::irqwait::{ArmError, MAX_TASK_IDS, WaitTable};
use kernel_core::runqueue::{TaskId};

fn tid(n: u16) -> TaskId {
    TaskId::new(n, 0)
}

#[test]
fn arm_signal_round_trip() {
    let mut t = WaitTable::new();
    t.arm(1, tid(3)).unwrap();
    assert_eq!(t.signal(1), Some(tid(3)));
    assert!(t.take_pending(tid(3)));
    assert_eq!(t.signal(1), None);
}

#[test]
fn cookie_busy_is_refused() {
    let mut t = WaitTable::new();
    t.arm(1, tid(2)).unwrap();
    assert_eq!(t.arm(1, tid(4)), Err(ArmError::CookieBusy));
}

#[test]
fn task_busy_is_refused() {
    let mut t = WaitTable::new();
    t.arm(1, tid(2)).unwrap();
    assert_eq!(t.arm(2, tid(2)), Err(ArmError::TaskBusy));
}

#[test]
fn two_cookies_two_waiters() {
    let mut t = WaitTable::new();
    t.arm(1, tid(2)).unwrap();
    t.arm(2, tid(3)).unwrap();
    assert_eq!(t.signal(2), Some(tid(3)));
    assert_eq!(t.signal(1), Some(tid(2)));
}

#[test]
fn lost_wakeup_pending_before_block() {
    let mut t = WaitTable::new();
    t.arm(1, tid(5)).unwrap();
    // IRQ fires before the task parks.
    assert_eq!(t.signal(1), Some(tid(5)));
    assert!(t.take_pending(tid(5)));
    // No second delivery.
    assert!(!t.take_pending(tid(5)));
}

#[test]
fn disarm_clears_arm_without_pending() {
    let mut t = WaitTable::new();
    t.arm(1, tid(5)).unwrap();
    t.disarm_task(tid(5));
    assert_eq!(t.signal(1), None);
}

#[test]
fn an_out_of_range_slot_is_never_pending() {
    // The bound is the claim: one past it must answer false, not index the
    // array (which is what the `<` → `<=` mutant would do).
    let t = WaitTable::new();
    assert!(!t.is_pending(TaskId::new(MAX_TASK_IDS as u16, 0)));
}

#[test]
fn a_pending_mark_is_not_consumable_by_the_slots_next_tenant() {
    // ADR-0062: the mark carries the full id. The next tenant of the same
    // slot (new epoch) must neither observe nor consume it — and the stale
    // mark does not linger to satisfy a later wait either.
    let mut t = WaitTable::new();
    let old = TaskId::new(5, 0);
    let new = TaskId::new(5, 1);
    t.arm(1, old).unwrap();
    assert_eq!(t.signal(1), Some(old));
    assert!(!t.take_pending(new), "new tenant cannot consume");
    assert!(!t.is_pending(new));
    assert!(t.is_pending(old));
    assert!(t.take_pending(old), "the posted epoch still can");
}
