use kernel_core::spi::{CDIV_ENCODE_65536, ClockDivError, clock_divisor, effective_hz};

/// 500 MHz core (Pi 4 `core_freq_min=500`) toward a 16 MHz panel ceiling.
#[test]
fn waveshare_class_16mhz_ceiling() {
    let cdiv = clock_divisor(500_000_000, 16_000_000).expect("programmable");
    assert_eq!(cdiv, 32);
    assert!(effective_hz(500_000_000, cdiv) <= 16_000_000);
    assert_eq!(effective_hz(500_000_000, cdiv), 15_625_000);
}

#[test]
fn already_even_ceil_is_preserved() {
    // 100 / 25 = 4 exactly.
    assert_eq!(clock_divisor(100, 25), Ok(4));
}

#[test]
fn odd_ceil_rounds_up_to_even() {
    // ceil(100/30) = 4 — already even.
    assert_eq!(clock_divisor(100, 30), Ok(4));
    // ceil(100/40) = 3 → 4.
    assert_eq!(clock_divisor(100, 40), Ok(4));
    assert!(effective_hz(100, 4) <= 40);
}

#[test]
fn never_exceeds_target() {
    let core = 500_000_000u32;
    for target in [1_000_000u32, 8_000_000, 16_000_000, 32_000_000, 50_000_000] {
        let cdiv = clock_divisor(core, target).expect("in range");
        assert!(
            effective_hz(core, cdiv) <= target,
            "cdiv={cdiv} effective={} > target={target}",
            effective_hz(core, cdiv)
        );
    }
}

#[test]
fn max_divider_encodes_as_zero() {
    // Need div 65536: core/target = 65536 → target = core/65536.
    let core = 65_536u32 * 100;
    let target = 100;
    assert_eq!(clock_divisor(core, target), Ok(CDIV_ENCODE_65536));
    assert_eq!(effective_hz(core, 0), 100);
}

#[test]
fn target_slower_than_max_division_is_refused() {
    // Even /65536 is still too fast.
    assert_eq!(
        clock_divisor(65_536 * 200, 100),
        Err(ClockDivError::TargetTooSlow {
            core_hz: 65_536 * 200,
            target_hz: 100,
        })
    );
}

#[test]
fn zero_frequencies_are_refused() {
    assert_eq!(
        clock_divisor(0, 1_000_000),
        Err(ClockDivError::ZeroFrequency)
    );
    assert_eq!(
        clock_divisor(500_000_000, 0),
        Err(ClockDivError::ZeroFrequency)
    );
}

#[test]
fn target_at_or_above_core_uses_minimum_divider() {
    // Cannot go faster than core/2 on this block.
    assert_eq!(clock_divisor(100, 100), Ok(2));
    assert_eq!(effective_hz(100, 2), 50);
}

/// The widest ratio a `u32` pair can express. Rounding this up to an even
/// divider wraps, and the wrapped value `0` is a *legal* encoding meaning
/// divide-by-65536 — so the failure is not a panic but a plausible answer
/// that is maximally wrong: the fastest request becomes the slowest clock.
#[test]
fn the_widest_possible_ratio_is_refused_rather_than_wrapping() {
    assert_eq!(
        clock_divisor(u32::MAX, 1),
        Err(ClockDivError::TargetTooSlow {
            core_hz: u32::MAX,
            target_hz: 1,
        })
    );
}

/// The boundary the check above must not move: an odd divider of 65 535
/// still has an even value in range, and must round up rather than refuse.
#[test]
fn the_largest_odd_divider_in_range_still_rounds_up() {
    // ceil(65_535 * 7 / 7) = 65_535, odd, one below the maximum.
    assert_eq!(clock_divisor(65_535 * 7, 7), Ok(CDIV_ENCODE_65536));
    assert_eq!(effective_hz(65_535 * 7, CDIV_ENCODE_65536), 6);
}
