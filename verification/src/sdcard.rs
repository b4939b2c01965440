//! SD card initialisation as a state machine: the driver issues the command
//! `request` names, reads the response, and `advance` says where to go next.
use vstd::prelude::*;
use crate::sdhci::{DataDir, RespType};

verus! {

pub const IF_COND_ARG: u32 = 0x1AA;
pub const OP_COND_ARG: u32 = 0x4030_0000;
pub const OCR_BUSY_DONE: u32 = 0x8000_0000;
pub const OCR_CCS: u32 = 0x4000_0000;
pub const OP_COND_ATTEMPTS: u32 = 1000;

/// One command to issue.
#[derive(Clone, Copy, Debug, PartialEq, Eq, Structural)]
pub struct CmdReq {
    pub index: u8,
    pub arg: u32,
    pub resp: RespType,
    pub dir: DataDir,
    pub checks: bool,
}

/// Where initialisation stands.
#[derive(Clone, Copy, Debug, PartialEq, Eq, Structural)]
pub enum InitState {
    GoIdle,
    IfCond,
    OpCondPrefix { attempt: u32 },
    OpCond { attempt: u32 },
    Cid,
    Rca,
    Select { rca: u16 },
    Done { rca: u16, high_capacity: bool },
}

/// Why initialisation stopped.
#[derive(Clone, Copy, Debug, PartialEq, Eq, Structural)]
pub enum InitError {
    Unsupported,
    NoResponse,
    BadIfCond,
    PowerUpTimeout,
    Protocol,
}

pub open spec fn spec_request(state: InitState) -> Option<CmdReq> {
    match state {
        InitState::GoIdle => Some(CmdReq { index: 0, arg: 0, resp: RespType::NoResponse, dir: DataDir::NoData, checks: false }),
        InitState::IfCond => Some(CmdReq { index: 8, arg: IF_COND_ARG, resp: RespType::Short, dir: DataDir::NoData, checks: true }),
        InitState::OpCondPrefix { .. } => Some(CmdReq { index: 55, arg: 0, resp: RespType::Short, dir: DataDir::NoData, checks: true }),
        InitState::OpCond { .. } => Some(CmdReq { index: 41, arg: OP_COND_ARG, resp: RespType::Short, dir: DataDir::NoData, checks: false }),
        InitState::Cid => Some(CmdReq { index: 2, arg: 0, resp: RespType::Long, dir: DataDir::NoData, checks: true }),
        InitState::Rca => Some(CmdReq { index: 3, arg: 0, resp: RespType::Short, dir: DataDir::NoData, checks: true }),
        InitState::Select { rca } => Some(CmdReq { index: 7, arg: (rca as u32 * 0x1_0000) as u32, resp: RespType::ShortBusy, dir: DataDir::NoData, checks: true }),
        InitState::Done { .. } => None,
    }
}

/// The command this state issues; `None` once initialisation is done.
pub fn request(state: InitState) -> (r: Option<CmdReq>)
    ensures
        r == spec_request(state),
{
    match state {
        InitState::GoIdle => Some(CmdReq { index: 0, arg: 0, resp: RespType::NoResponse, dir: DataDir::NoData, checks: false }),
        InitState::IfCond => Some(CmdReq { index: 8, arg: IF_COND_ARG, resp: RespType::Short, dir: DataDir::NoData, checks: true }),
        InitState::OpCondPrefix { .. } => Some(CmdReq { index: 55, arg: 0, resp: RespType::Short, dir: DataDir::NoData, checks: true }),
        InitState::OpCond { .. } => Some(CmdReq { index: 41, arg: OP_COND_ARG, resp: RespType::Short, dir: DataDir::NoData, checks: false }),
        InitState::Cid => Some(CmdReq { index: 2, arg: 0, resp: RespType::Long, dir: DataDir::NoData, checks: true }),
        InitState::Rca => Some(CmdReq { index: 3, arg: 0, resp: RespType::Short, dir: DataDir::NoData, checks: true }),
        InitState::Select { rca } => Some(CmdReq { index: 7, arg: rca as u32 * 0x1_0000, resp: RespType::ShortBusy, dir: DataDir::NoData, checks: true }),
        InitState::Done { .. } => None,
    }
}

pub open spec fn spec_advance(state: InitState, resp0: u32) -> Result<InitState, InitError> {
    match state {
        InitState::GoIdle => Ok(InitState::IfCond),
        InitState::IfCond => if resp0 % 0x1000 == IF_COND_ARG {
            Ok(InitState::OpCondPrefix { attempt: 0 })
        } else {
            Err(InitError::BadIfCond)
        },
        InitState::OpCondPrefix { attempt } => Ok(InitState::OpCond { attempt }),
        InitState::OpCond { attempt } => if resp0 < OCR_BUSY_DONE {
            if attempt + 1 >= OP_COND_ATTEMPTS {
                Err(InitError::PowerUpTimeout)
            } else {
                Ok(InitState::OpCondPrefix { attempt: (attempt + 1) as u32 })
            }
        } else if resp0 % 0x8000_0000 < OCR_CCS {
            Err(InitError::Unsupported)
        } else {
            Ok(InitState::Cid)
        },
        InitState::Cid => Ok(InitState::Rca),
        InitState::Rca => Ok(InitState::Select { rca: (resp0 / 0x1_0000) as u16 }),
        InitState::Select { rca } => Ok(InitState::Done { rca, high_capacity: true }),
        InitState::Done { .. } => Err(InitError::Protocol),
    }
}

/// The next state after a response `resp0` to this state's command.
pub fn advance(state: InitState, resp0: u32) -> (r: Result<InitState, InitError>)
    ensures
        r == spec_advance(state, resp0),
{
    match state {
        InitState::GoIdle => Ok(InitState::IfCond),
        InitState::IfCond => {
            if resp0 % 0x1000 == IF_COND_ARG {
                Ok(InitState::OpCondPrefix { attempt: 0 })
            } else {
                Err(InitError::BadIfCond)
            }
        },
        InitState::OpCondPrefix { attempt } => Ok(InitState::OpCond { attempt }),
        InitState::OpCond { attempt } => {
            if resp0 < OCR_BUSY_DONE {
                if attempt >= OP_COND_ATTEMPTS - 1 {
                    Err(InitError::PowerUpTimeout)
                } else {
                    Ok(InitState::OpCondPrefix { attempt: attempt + 1 })
                }
            } else if resp0 % 0x8000_0000 < OCR_CCS {
                Err(InitError::Unsupported)
            } else {
                Ok(InitState::Cid)
            }
        },
        InitState::Cid => Ok(InitState::Rca),
        InitState::Rca => Ok(InitState::Select { rca: (resp0 / 0x1_0000) as u16 }),
        InitState::Select { rca } => Ok(InitState::Done { rca, high_capacity: true }),
        InitState::Done { .. } => Err(InitError::Protocol),
    }
}

/// What a command timeout means in this state.
pub fn on_timeout(state: InitState) -> (e: InitError)
    ensures
        e == (if state == InitState::IfCond { InitError::NoResponse } else { InitError::PowerUpTimeout }),
{
    match state {
        InitState::IfCond => InitError::NoResponse,
        _ => InitError::PowerUpTimeout,
    }
}

/// The power-up loop is bounded: from attempt `a`, a card that stays busy is
/// given up on once the attempt count reaches the limit, never later.
pub proof fn lemma_op_cond_bounded(attempt: u32, resp0: u32)
    requires
        resp0 < OCR_BUSY_DONE,
    ensures
        spec_advance(InitState::OpCond { attempt }, resp0) matches Ok(InitState::OpCondPrefix { attempt: a }) ==> a == attempt + 1 && a < OP_COND_ATTEMPTS,
{
}

} // verus!
