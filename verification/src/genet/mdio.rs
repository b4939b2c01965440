//! Clause-22 MDIO command word at `registers::UMAC_MDIO_CMD`.
use vstd::prelude::*;

verus! {

/// `1 << 29`
pub const START_BUSY: u32 = 0x20000000;
/// `1 << 28`
pub const READ_FAIL: u32 = 0x10000000;
/// `2 << 26`
pub const READ: u32 = 0x8000000;
/// `1 << 26`
pub const WRITE: u32 = 0x4000000;
pub const PHY_SHIFT: u32 = 21;
pub const PHY_MASK: u32 = 0x1f;
pub const REG_SHIFT: u32 = 16;
pub const REG_MASK: u32 = 0x1f;
pub const DATA_MASK: u32 = 0xffff;
pub const PHYIDR1: u8 = 2;
pub const PHYIDR2: u8 = 3;

} // verus!
