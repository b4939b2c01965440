use kernel_core::rng::{BLOCK_SIZE, CTRL_DIV_MASK, CTRL_DIV_SHIFT, CTRL_RBGEN, INT_MASTER_FAIL_LOCKOUT, INT_NIST_FAIL, INT_STARTUP_TRANSITIONS_MET, INT_TOTAL_BITS_COUNT, RBG_SOFT_RESET, RNG_CTRL, RNG_FIFO_COUNT, RNG_FIFO_DATA, RNG_INT_ENABLE, RNG_INT_STATUS, RNG_SOFT_RESET, RNG_TOTAL_BIT_COUNT, RNG_TOTAL_BIT_COUNT_THRESHOLD, SAMPLE_DIVISOR_DEFAULT, WARMUP_BIT_THRESHOLD, ctrl_enable, fifo_available, health_failed, warmup_done};

#[test]
fn ctrl_rbgen_only() {
    assert_eq!(ctrl_enable(0), CTRL_RBGEN);
    assert_eq!(ctrl_enable(0) & !CTRL_RBGEN, 0);
}

#[test]
fn ctrl_with_default_divisor() {
    let c = ctrl_enable(SAMPLE_DIVISOR_DEFAULT);
    assert_eq!(c & CTRL_RBGEN, CTRL_RBGEN);
    assert_eq!((c >> CTRL_DIV_SHIFT) & CTRL_DIV_MASK, 0x3);
}

#[test]
fn ctrl_divisor_max_byte() {
    let c = ctrl_enable(0xFF);
    assert_eq!((c >> CTRL_DIV_SHIFT) & CTRL_DIV_MASK, 0xFF);
    assert_eq!(c & CTRL_RBGEN, CTRL_RBGEN);
}

#[test]
fn fifo_available_masks_low_byte() {
    assert_eq!(fifo_available(0), 0);
    assert_eq!(fifo_available(1), 1);
    assert_eq!(fifo_available(0xFF), 255);
    assert_eq!(fifo_available(0xABCD_0010), 0x10);
    assert_eq!(fifo_available(0xFFFF_FF00), 0);
}

#[test]
fn health_failed_on_lockout_or_nist() {
    assert!(!health_failed(0));
    assert!(!health_failed(INT_TOTAL_BITS_COUNT));
    assert!(!health_failed(INT_STARTUP_TRANSITIONS_MET));
    assert!(health_failed(INT_MASTER_FAIL_LOCKOUT));
    assert!(health_failed(INT_NIST_FAIL));
    assert!(health_failed(INT_MASTER_FAIL_LOCKOUT | INT_NIST_FAIL));
    assert!(health_failed(INT_NIST_FAIL | INT_TOTAL_BITS_COUNT));
}

#[test]
fn warmup_threshold() {
    assert!(!warmup_done(0));
    assert!(!warmup_done(WARMUP_BIT_THRESHOLD));
    assert!(warmup_done(WARMUP_BIT_THRESHOLD + 1));
    assert!(warmup_done(u32::MAX));
}

#[test]
fn offsets_are_within_block() {
    for off in [
        RNG_CTRL,
        RNG_SOFT_RESET,
        RBG_SOFT_RESET,
        RNG_TOTAL_BIT_COUNT,
        RNG_TOTAL_BIT_COUNT_THRESHOLD,
        RNG_INT_STATUS,
        RNG_INT_ENABLE,
        RNG_FIFO_DATA,
        RNG_FIFO_COUNT,
    ] {
        assert!(off < BLOCK_SIZE, "offset {off:#x} past block");
        assert_eq!(off % 4, 0, "offset {off:#x} not word-aligned");
    }
}
