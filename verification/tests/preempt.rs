use kernel_core::preempt::{should_set};

#[test]
fn sets_at_and_after_quantum() {
    assert!(should_set(10, 12, 2, false));
    assert!(should_set(10, 100, 2, false));
}

#[test]
fn not_before_quantum() {
    assert!(!should_set(10, 10, 2, false));
    assert!(!should_set(10, 11, 2, false));
}

#[test]
fn idle_never_sets() {
    assert!(!should_set(10, 100, 2, true));
}

#[test]
fn zero_quantum_never_sets() {
    assert!(!should_set(0, u64::MAX, 0, false));
}
