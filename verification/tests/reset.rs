use kernel_core::reset::{HADPOR, ResetCause, cause, partition};

#[test]
fn a_clean_power_cycle_is_recognised() {
    assert_eq!(cause(HADPOR), ResetCause::PowerOn);
}

#[test]
fn every_flavour_of_a_cause_reports_that_cause() {
    // Request, full and hard are three ways for the same thing to have
    // happened. Testing only one of the three would leave two thirds of
    // each mask unexercised, and the masks are where a typo lives.
    for bit in [0x10, 0x20, 0x40] {
        assert_eq!(cause(bit), ResetCause::Watchdog, "watchdog bit {bit:#x}");
    }
    for bit in [0x100, 0x200, 0x400] {
        assert_eq!(cause(bit), ResetCause::Software, "software bit {bit:#x}");
    }
    for bit in [0x1, 0x2, 0x4] {
        assert_eq!(cause(bit), ResetCause::Debug, "debug bit {bit:#x}");
    }
}

#[test]
fn a_watchdog_reset_that_also_set_power_on_reads_as_a_watchdog() {
    // The case the ordering exists for: the board really was reset by the
    // watchdog, and reporting `PowerOn` would answer the question wrongly
    // in the one direction that matters.
    assert_eq!(cause(HADPOR | 0x20), ResetCause::Watchdog);
    assert_eq!(cause(HADPOR | 0x200), ResetCause::Software);
}

#[test]
fn nothing_set_is_not_the_same_as_a_power_on() {
    // Calling an empty register `PowerOn` would manufacture an answer out
    // of a block that said nothing, which is the failure this whole module
    // exists to avoid.
    assert_eq!(cause(0), ResetCause::NoCause);
    assert_ne!(cause(0), ResetCause::PowerOn);
}

#[test]
fn the_partition_field_does_not_leak_into_the_cause() {
    // Partition bits live in 0..11 and overlap the debug-reset mask, so a
    // non-zero partition must not be read as a reset cause on its own.
    // Partition 0 with only the power-on bit is the ordinary case.
    assert_eq!(partition(HADPOR), 0);
    assert_eq!(cause(HADPOR), ResetCause::PowerOn);
}

#[test]
fn the_partition_field_is_six_interleaved_bits() {
    // Bit 2n of the register is bit n of the partition number.
    assert_eq!(partition(0), 0);
    assert_eq!(partition(0b01), 1);
    assert_eq!(partition(0b0100), 2);
    assert_eq!(partition(0b0101), 3);
    // All six set is the firmware's "no partition" pattern, 63.
    assert_eq!(partition(0b0101_0101_0101), 63);
}
