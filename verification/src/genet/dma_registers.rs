//! GENET v5 register layout shared by the RDMA and TDMA blocks.
//!
//! Descriptor RAM occupies the first [`DESCRIPTOR_RAM_BYTES`] of each block.
//! Per-ring registers start after that RAM; the common control block
//! follows all 17 rings. Offsets are relative to `registers::RDMA` or
//! `registers::TDMA`.
use vstd::prelude::*;

verus! {

pub const RING_BYTES: u32 = 0x40;
pub const RING_COUNT: u16 = 17;
/// v4+ descriptor is three 32-bit words; start/end pointers are in words.
pub const WORDS_PER_DESCRIPTOR: u32 = 3;
/// `TOTAL_DESCRIPTORS * DESCRIPTOR_BYTES`
pub const DESCRIPTOR_RAM_BYTES: u32 = 0xc00;
/// `DESCRIPTOR_RAM_BYTES`
pub const RING_BASE: u32 = 0xc00;
/// `RING_BASE + RING_BYTES * RING_COUNT`
pub const COMMON_BASE: u32 = 0x1040;
/// `COMMON_BASE + 0x04`
pub const CTRL: u32 = 0x1044;
/// `COMMON_BASE + 0x08`
pub const STATUS: u32 = 0x1048;
/// `COMMON_BASE + 0x0c`
pub const SCB_BURST_SIZE: u32 = 0x104c;
/// `COMMON_BASE + 0x2c`
pub const ARB_CTRL: u32 = 0x106c;
/// `COMMON_BASE`
pub const RING_CFG: u32 = 0x1040;
/// `RING_BASE`
pub const RING0: u32 = 0xc00;
/// `1 << 0`
pub const DMA_ENABLE: u32 = 1;
pub const RING_BUF_EN_SHIFT: u32 = 1;

/// Per-ring offsets for the v4+ 40-bit pointer layout.
pub const READ_PTR: u32 = 0x00;
pub const READ_PTR_HI: u32 = 0x04;
pub const CONS_INDEX: u32 = 0x08;
pub const PROD_INDEX: u32 = 0x0c;
pub const RING_BUF_SIZE: u32 = 0x10;
pub const START_ADDR: u32 = 0x14;
pub const START_ADDR_HI: u32 = 0x18;
pub const END_ADDR: u32 = 0x1c;
pub const END_ADDR_HI: u32 = 0x20;
pub const MBUF_DONE_THRESH: u32 = 0x24;
pub const FLOW_PERIOD: u32 = 0x28;
pub const WRITE_PTR: u32 = 0x2c;
pub const WRITE_PTR_HI: u32 = 0x30;
pub const RING_SIZE_SHIFT: u32 = 16;

} // verus!
