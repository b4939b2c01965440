//! BCM2711 RNG200 register arithmetic.
use vstd::prelude::*;

verus! {

pub const RNG_CTRL: usize = 0x00;
pub const RNG_SOFT_RESET: usize = 0x04;
pub const RBG_SOFT_RESET: usize = 0x08;
pub const RNG_TOTAL_BIT_COUNT: usize = 0x0C;
pub const RNG_TOTAL_BIT_COUNT_THRESHOLD: usize = 0x10;
pub const RNG_INT_STATUS: usize = 0x18;
pub const RNG_INT_ENABLE: usize = 0x1C;
pub const RNG_FIFO_DATA: usize = 0x20;
pub const RNG_FIFO_COUNT: usize = 0x24;
pub const BLOCK_SIZE: usize = 0x28;
pub const CTRL_RBGEN: u32 = 1;
pub const CTRL_DIV_SHIFT: u32 = 13;
pub const CTRL_DIV_MASK: u32 = 0xFF;
pub const SAMPLE_DIVISOR_DEFAULT: u8 = 0x3;
pub const SOFT_RESET_BIT: u32 = 1;
pub const INT_MASTER_FAIL_LOCKOUT: u32 = 0x8000_0000;
pub const INT_NIST_FAIL: u32 = 0x20;
pub const INT_STARTUP_TRANSITIONS_MET: u32 = 0x2_0000;
pub const INT_TOTAL_BITS_COUNT: u32 = 1;
pub const INT_HEALTH_FAIL_MASK: u32 = 0x8000_0020;
pub const FIFO_COUNT_MASK: u32 = 0xFF;
pub const INT_STATUS_CLEAR_ALL: u32 = 0xFFFF_FFFF;
pub const WARMUP_BIT_THRESHOLD: u32 = 16;

/// Control word enabling the generator with a sample divisor (0 leaves the
/// field clear).
pub fn ctrl_enable(divisor: u8) -> (r: u32)
    ensures
        r == (if divisor != 0 { CTRL_RBGEN | ((divisor as u32) << CTRL_DIV_SHIFT) } else { CTRL_RBGEN }),
{
    let mut ctrl: u32 = CTRL_RBGEN;
    if divisor != 0 {
        ctrl = ctrl | ((divisor as u32) << CTRL_DIV_SHIFT);
    }
    ctrl
}

/// Words waiting in the FIFO.
pub fn fifo_available(fifo_count_reg: u32) -> (r: u8)
    ensures
        r == (fifo_count_reg & FIFO_COUNT_MASK) as u8,
{
    (fifo_count_reg & FIFO_COUNT_MASK) as u8
}

/// A health test failed (master lockout or NIST failure).
pub fn health_failed(int_status: u32) -> (r: bool)
    ensures
        r == (int_status & INT_HEALTH_FAIL_MASK != 0),
{
    (int_status & INT_HEALTH_FAIL_MASK) != 0
}

/// Enough bits have been generated to trust the output.
pub fn warmup_done(total_bit_count: u32) -> (r: bool)
    ensures
        r == (total_bit_count > WARMUP_BIT_THRESHOLD),
{
    total_bit_count > WARMUP_BIT_THRESHOLD
}

} // verus!
