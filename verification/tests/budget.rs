use kernel_core::budget::{expired};

#[test]
fn not_expired_before_quantum() {
    assert!(!expired(10, 11, 2));
    assert!(!expired(10, 10, 2));
}

#[test]
fn expired_at_and_after_quantum() {
    assert!(expired(10, 12, 2));
    assert!(expired(10, 100, 2));
}

#[test]
fn zero_quantum_never_expires() {
    assert!(!expired(0, u64::MAX, 0));
}

#[test]
fn saturating_sub_handles_clock_skew() {
    // now < start should not panic or wrap into a huge elapsed.
    assert!(!expired(100, 50, 1));
}
