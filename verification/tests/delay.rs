use kernel_core::delay::{ms_to_counts, ns_to_counts, us_to_counts};

#[test]
fn one_second_at_54_mhz_is_the_frequency() {
    // Pi 4 silicon CNTFRQ is 54 MHz; one second is exactly that many ticks.
    assert_eq!(ns_to_counts(54_000_000, 1_000_000_000), 54_000_000);
    assert_eq!(ms_to_counts(54_000_000, 1000), 54_000_000);
}

#[test]
fn one_ms_at_54_mhz() {
    assert_eq!(ms_to_counts(54_000_000, 1), 54_000);
}

#[test]
fn sub_tick_positive_duration_is_at_least_one_count() {
    // 1 ns at 1 Hz is a fraction of a tick; still must wait once.
    assert_eq!(ns_to_counts(1, 1), 1);
}

#[test]
fn zero_inputs_yield_zero() {
    assert_eq!(ns_to_counts(0, 1_000), 0);
    assert_eq!(ns_to_counts(54_000_000, 0), 0);
    assert_eq!(ms_to_counts(54_000_000, 0), 0);
}

#[test]
fn rounds_up_partial_ticks() {
    // 1 ns at 2 Hz: 2 * 1 / 1e9 = 0 with truncate; ceil → 1.
    assert_eq!(ns_to_counts(2, 1), 1);
    // Half a second at 3 Hz: 3 * 5e8 / 1e9 = 1.5 → 2.
    assert_eq!(ns_to_counts(3, 500_000_000), 2);
}

#[test]
fn huge_duration_saturates_instead_of_wrapping() {
    assert_eq!(ns_to_counts(u64::MAX, u64::MAX), u64::MAX);
}

#[test]
fn us_scale() {
    assert_eq!(us_to_counts(1_000_000, 1), 1);
    assert_eq!(us_to_counts(54_000_000, 1), 54);
}
