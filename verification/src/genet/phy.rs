//! IEEE 802.3 clause-22 PHY registers used by the bring-up.
use vstd::prelude::*;

verus! {

pub const BMCR: u8 = 0;
pub const BMSR: u8 = 1;
/// `1 << 15`
pub const BMCR_RESET: u16 = 0x8000;
/// `1 << 12`
pub const BMCR_ANENABLE: u16 = 0x1000;
/// `1 << 9`
pub const BMCR_ANRESTART: u16 = 0x200;
/// `1 << 2`
pub const BMSR_LINK: u16 = 4;
/// `1 << 5`
pub const BMSR_ANEG_DONE: u16 = 0x20;
pub const LPA: u8 = 5;
pub const CTRL1000: u8 = 9;
pub const STAT1000: u8 = 10;
/// ANLPAR 10 Mb/s half|full.
/// `(1 << 5) | (1 << 6)`
pub const LPA_10: u16 = 0x60;
/// ANLPAR 100 Mb/s half|full.
/// `(1 << 7) | (1 << 8)`
pub const LPA_100: u16 = 0x180;
/// Local 1000BASE-T advertise (CTRL1000 bits 8..=9).
/// `(1 << 8) | (1 << 9)`
pub const CTRL1000_1000: u16 = 0x300;
/// Link-partner 1000BASE-T (STAT1000 bits 10..=11).
/// `(1 << 10) | (1 << 11)`
pub const STAT1000_1000: u16 = 0xc00;

} // verus!
