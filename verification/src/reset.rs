//! Why the board last reset, decoded from the watchdog's `RSTS` register.
use vstd::prelude::*;

verus! {

/// The reset cause, most specific first.
#[derive(Clone, Copy, Debug, PartialEq, Eq, Structural)]
pub enum ResetCause {
    PowerOn,
    Watchdog,
    Software,
    Debug,
    /// No cause bit set: the register says nothing, and nothing is invented.
    NoCause,
}

pub const HADPOR: u32 = 0x0000_1000;
pub const HADWR: u32 = 0x0000_0070;
pub const HADSR: u32 = 0x0000_0700;
pub const HADDR: u32 = 0x0000_0007;

pub open spec fn spec_cause(rsts: u32) -> ResetCause {
    if rsts & HADWR != 0 {
        ResetCause::Watchdog
    } else if rsts & HADSR != 0 {
        ResetCause::Software
    } else if rsts & HADDR != 0 {
        ResetCause::Debug
    } else if rsts & HADPOR != 0 {
        ResetCause::PowerOn
    } else {
        ResetCause::NoCause
    }
}

/// Decode the reset cause.
pub fn cause(rsts: u32) -> (c: ResetCause)
    ensures
        c == spec_cause(rsts),
{
    if rsts & HADWR != 0 {
        ResetCause::Watchdog
    } else if rsts & HADSR != 0 {
        ResetCause::Software
    } else if rsts & HADDR != 0 {
        ResetCause::Debug
    } else if rsts & HADPOR != 0 {
        ResetCause::PowerOn
    } else {
        ResetCause::NoCause
    }
}

/// The boot partition number: the even-indexed bits `2*k` of `RSTS`
/// (k < 6), gathered into bit `k`.
pub open spec fn partition_bits(rsts: u32, n: nat) -> u32
    decreases n,
{
    if n == 0 {
        0
    } else {
        let k = (n - 1) as nat;
        partition_bits(rsts, k) | (((rsts >> (2 * k) as u32) & 1) << k as u32)
    }
}

/// Decode the partition field.
pub fn partition(rsts: u32) -> (r: u32)
    ensures
        r == partition_bits(rsts, 6),
{
    let mut partition: u32 = 0;
    let mut bit: u32 = 0;
    while bit < 6
        invariant
            bit <= 6,
            partition == partition_bits(rsts, bit as nat),
        decreases 6 - bit,
    {
        partition = partition | (((rsts >> (bit * 2)) & 1) << bit);
        bit = bit + 1;
    }
    partition
}

} // verus!
