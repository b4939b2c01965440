//! SPI0 clock-divider arithmetic.
use vstd::prelude::*;

verus! {

pub const CDIV_MAX_EVEN: u32 = 65_534;
/// A divisor of 65536 is written as 0.
pub const CDIV_ENCODE_65536: u32 = 0;

/// Why no divisor could be chosen.
#[derive(Clone, Copy, Debug, PartialEq, Eq, Structural)]
pub enum ClockDivError {
    ZeroFrequency,
    TargetTooSlow { core_hz: u32, target_hz: u32 },
}

/// The divisor before encoding: the ceiling of `core / target`, at least 2,
/// rounded up to even.
pub open spec fn raw_divisor(core_hz: u32, target_hz: u32) -> int {
    let d = (core_hz + target_hz - 1) / (target_hz as int);
    let d2 = if d < 2 { 2 } else { d };
    if d2 % 2 != 0 { d2 + 1 } else { d2 }
}

pub open spec fn spec_clock_divisor(core_hz: u32, target_hz: u32) -> Result<u32, ClockDivError> {
    if core_hz == 0 || target_hz == 0 {
        Err(ClockDivError::ZeroFrequency)
    } else if (core_hz + target_hz - 1) / (target_hz as int) > 65_536 {
        Err(ClockDivError::TargetTooSlow { core_hz, target_hz })
    } else if raw_divisor(core_hz, target_hz) == 65_536 {
        Ok(CDIV_ENCODE_65536)
    } else {
        Ok(raw_divisor(core_hz, target_hz) as u32)
    }
}

/// The slowest even divisor that does not exceed `target_hz`.
pub fn clock_divisor(core_hz: u32, target_hz: u32) -> (r: Result<u32, ClockDivError>)
    ensures
        r == spec_clock_divisor(core_hz, target_hz),
{
    if core_hz == 0 || target_hz == 0 {
        return Err(ClockDivError::ZeroFrequency);
    }
    let mut div: u64 = (core_hz as u64 + target_hz as u64 - 1) / (target_hz as u64);
    if div < 2 {
        div = 2;
    }
    if (core_hz as u64 + target_hz as u64 - 1) / (target_hz as u64) > 65_536 {
        return Err(ClockDivError::TargetTooSlow { core_hz, target_hz });
    }
    if div % 2 != 0 {
        div = div + 1;
    }
    if div == 65_536 {
        Ok(CDIV_ENCODE_65536)
    } else {
        Ok(div as u32)
    }
}

/// The divisor a `CDIV` value really applies (0 is 65536, odd rounds up).
pub open spec fn applied_divisor(cdiv: u32) -> int {
    if cdiv == 0 {
        65_536
    } else if cdiv % 2 != 0 {
        cdiv + 1
    } else {
        cdiv as int
    }
}

/// The SPI clock a `CDIV` value yields.
pub fn effective_hz(core_hz: u32, cdiv: u32) -> (r: u32)
    ensures
        r == (core_hz as int) / applied_divisor(cdiv),
{
    let div: u64 = if cdiv == 0 {
        65_536
    } else if cdiv % 2 != 0 {
        cdiv as u64 + 1
    } else {
        cdiv as u64
    };
    (core_hz as u64 / div) as u32
}

} // verus!
