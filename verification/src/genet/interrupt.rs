//! GENET interrupt bits from the two INTRL2 instances.
use vstd::prelude::*;

verus! {

/// `(1 << 4) | (1 << 5)`
pub const LINK_EVENT: u32 = 0x30;
/// `(1 << 23) | (1 << 24)`
pub const MDIO_EVENT: u32 = 0x1800000;
/// `1 << 13`
pub const RX_DONE: u32 = 0x2000;
/// `1 << 16`
pub const TX_DONE: u32 = 0x10000;
pub const QUEUE_RX_SHIFT: u32 = 16;
pub const QUEUE_TX_MASK: u32 = 0xffff;

} // verus!
