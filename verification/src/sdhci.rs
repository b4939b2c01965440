//! EMMC2 (SDHCI-style) register arithmetic: clock divider fields, command
//! words, and interrupt classification.
use vstd::prelude::*;

verus! {

pub const ARG2: usize = 0x00;
pub const BLKSIZECNT: usize = 0x04;
pub const ARG1: usize = 0x08;
pub const CMDTM: usize = 0x0C;
pub const RESP0: usize = 0x10;
pub const RESP1: usize = 0x14;
pub const RESP2: usize = 0x18;
pub const RESP3: usize = 0x1C;
pub const DATA: usize = 0x20;
pub const STATUS: usize = 0x24;
pub const CONTROL0: usize = 0x28;
pub const CONTROL1: usize = 0x2C;
pub const INTERRUPT: usize = 0x30;
pub const IRPT_MASK: usize = 0x34;
pub const IRPT_EN: usize = 0x38;
pub const CONTROL2: usize = 0x3C;
pub const SLOTISR_VER: usize = 0xFC;
pub const BLOCK_SIZE: usize = 0x100;
pub const SECTOR_SIZE: u32 = 512;
pub const STATUS_CMD_INHIBIT: u32 = 0x1;
pub const STATUS_DAT_INHIBIT: u32 = 0x2;
pub const C0_BUS_POWER: u32 = 0x100;
pub const C0_VOLTAGE_3V3: u32 = 0xE00;
pub const C1_CLK_INTLEN: u32 = 0x1;
pub const C1_CLK_STABLE: u32 = 0x2;
pub const C1_CLK_EN: u32 = 0x4;
pub const C1_TOUNIT_MAX: u32 = 0xE_0000;
pub const C1_SRST_HC: u32 = 0x100_0000;
pub const C1_SRST_CMD: u32 = 0x200_0000;
pub const C1_SRST_DATA: u32 = 0x400_0000;

/// `CONTROL1` clock-divider field for a 10-bit divisor: low eight bits at
/// 15:8, high two at 7:6.
pub fn c1_clock_bits(divisor10: u16) -> (r: u32)
    ensures
        ({
            let d = (divisor10 as u32) & 0x3FF;
            r == ((d & 0xFF) << 8u32) | ((d >> 8u32) << 6u32)
        }),
{
    let d: u32 = divisor10 as u32 & 0x3FF;
    ((d & 0xFF) << 8u32) | ((d >> 8u32) << 6u32)
}

/// The divider that brings `base_hz` to at most `target_hz`: 0 (undivided)
/// when the target is at or above the base, the slowest (0x3FF) for a zero
/// target, else the ceiling of `base / (2 * target)` capped at 0x3FF.
pub open spec fn spec_divider(base_hz: u32, target_hz: u32) -> u16 {
    if target_hz == 0 {
        0x3FF
    } else if target_hz >= base_hz {
        0
    } else {
        let d = (base_hz + 2 * target_hz - 1) / (2 * target_hz);
        if d > 0x3FF { 0x3FF } else { d as u16 }
    }
}

pub fn divider_for(base_hz: u32, target_hz: u32) -> (r: u16)
    requires
        target_hz >= base_hz || 2 * target_hz <= u32::MAX,
    ensures
        r == spec_divider(base_hz, target_hz),
{
    if target_hz == 0 {
        return 0x3FF;
    }
    if target_hz >= base_hz {
        return 0;
    }
    let two: u64 = 2 * target_hz as u64;
    let div: u64 = (base_hz as u64 + two - 1) / two;
    if div > 0x3FF {
        0x3FF
    } else {
        div as u16
    }
}

/// The card clock a divisor yields.
pub fn divided_clock_hz(base_hz: u32, divisor10: u16) -> (r: u32)
    ensures
        r == (if divisor10 == 0 { base_hz as int } else { base_hz as int / (2 * divisor10) }),
{
    if divisor10 == 0 {
        base_hz
    } else {
        base_hz / (2 * divisor10 as u32)
    }
}

/// Response type of a command.
#[derive(Clone, Copy, Debug, PartialEq, Eq, Structural)]
pub enum RespType {
    NoResponse,
    Long,
    Short,
    ShortBusy,
}

/// Data phase of a command.
#[derive(Clone, Copy, Debug, PartialEq, Eq, Structural)]
pub enum DataDir {
    NoData,
    Read,
    Write,
}

pub const TM_DAT_DIR_READ: u32 = 0x10;
pub const TM_ISDATA: u32 = 0x20_0000;
pub const TM_CRCCHK_EN: u32 = 0x8_0000;
pub const TM_IXCHK_EN: u32 = 0x10_0000;

pub open spec fn resp_bits(resp: RespType) -> u32 {
    match resp {
        RespType::NoResponse => 0,
        RespType::Long => 0x1_0000 | TM_CRCCHK_EN,
        RespType::Short => 0x2_0000 | TM_CRCCHK_EN | TM_IXCHK_EN,
        RespType::ShortBusy => 0x3_0000 | TM_CRCCHK_EN | TM_IXCHK_EN,
    }
}

pub open spec fn dir_bits(dir: DataDir) -> u32 {
    match dir {
        DataDir::NoData => 0,
        DataDir::Read => TM_ISDATA | TM_DAT_DIR_READ,
        DataDir::Write => TM_ISDATA,
    }
}

pub open spec fn spec_cmdtm(index: u8, resp: RespType, dir: DataDir) -> u32 {
    ((((index as u32) & 0x3F) << 24u32) | resp_bits(resp)) | dir_bits(dir)
}

/// `CMDTM` for a command index, response type and data direction.
pub fn cmdtm(index: u8, resp: RespType, dir: DataDir) -> (w: u32)
    ensures
        w == spec_cmdtm(index, resp, dir),
{
    let mut w: u32 = (index as u32 & 0x3F) << 24u32;
    let rb: u32 = match resp {
        RespType::NoResponse => 0,
        RespType::Long => 0x1_0000 | TM_CRCCHK_EN,
        RespType::Short => 0x2_0000 | TM_CRCCHK_EN | TM_IXCHK_EN,
        RespType::ShortBusy => 0x3_0000 | TM_CRCCHK_EN | TM_IXCHK_EN,
    };
    w = w | rb;
    let db: u32 = match dir {
        DataDir::NoData => 0,
        DataDir::Read => TM_ISDATA | TM_DAT_DIR_READ,
        DataDir::Write => TM_ISDATA,
    };
    w | db
}

/// `CMDTM` with the CRC and index checks cleared.
pub fn cmdtm_no_checks(index: u8, resp: RespType, dir: DataDir) -> (w: u32)
    ensures
        w == spec_cmdtm(index, resp, dir) & !(TM_CRCCHK_EN | TM_IXCHK_EN),
{
    cmdtm(index, resp, dir) & !(TM_CRCCHK_EN | TM_IXCHK_EN)
}

pub const INT_CMD_DONE: u32 = 0x1;
pub const INT_DATA_DONE: u32 = 0x2;
pub const INT_WRITE_RDY: u32 = 0x10;
pub const INT_READ_RDY: u32 = 0x20;
pub const INT_ERR: u32 = 0x8000;
pub const INT_CTO_ERR: u32 = 0x1_0000;
pub const INT_CCRC_ERR: u32 = 0x2_0000;
pub const INT_DTO_ERR: u32 = 0x10_0000;
pub const INT_DCRC_ERR: u32 = 0x20_0000;
pub const INT_ERROR_MASK: u32 = 0xFFFF_8000;

/// The only error bits set are the command-timeout ones.
pub fn is_timeout_only(interrupt: u32) -> (r: bool)
    ensures
        r == (interrupt & INT_ERROR_MASK != 0 && interrupt & INT_ERROR_MASK & !(INT_ERR
            | INT_CTO_ERR) == 0),
{
    interrupt & INT_ERROR_MASK != 0 && interrupt & INT_ERROR_MASK & !(INT_ERR | INT_CTO_ERR) == 0
}

} // verus!
