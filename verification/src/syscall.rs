//! System call numbers and reply status codes.
use vstd::prelude::*;

verus! {

pub const SYS_PING: u16 = 0;
pub const SYS_EXIT: u16 = 1;
pub const SYS_SEND: u16 = 3;
pub const SYS_RECV: u16 = 4;
pub const SYS_TRY_RECV: u16 = 5;
pub const SYS_WAIT_IRQ: u16 = 6;
pub const SYS_RESOLVE: u16 = 7;
pub const SYS_TRANSFER: u16 = 8;
pub const SYS_RECV_TIMEOUT: u16 = 9;

/// Status word returned in `x0`.
#[derive(Clone, Copy, Debug, PartialEq, Eq, Structural)]
pub enum Status {
    Success,
    Authority,
    Full,
    Empty,
    Busy,
    Cancelled,
}

pub open spec fn status_code(s: Status) -> u64 {
    match s {
        Status::Success => 0,
        Status::Authority => 1,
        Status::Full => 2,
        Status::Empty => 3,
        Status::Busy => 4,
        Status::Cancelled => 5,
    }
}

impl Status {
    /// The ABI value.
    pub fn as_u64(self) -> (r: u64)
        ensures
            r == status_code(self),
    {
        match self {
            Status::Success => 0,
            Status::Authority => 1,
            Status::Full => 2,
            Status::Empty => 3,
            Status::Busy => 4,
            Status::Cancelled => 5,
        }
    }
}

/// Distinct statuses have distinct ABI values.
pub proof fn lemma_status_codes_distinct(a: Status, b: Status)
    ensures
        status_code(a) == status_code(b) <==> a == b,
{
}

/// A decoded `svc` immediate.
#[derive(Clone, Copy, Debug, PartialEq, Eq, Structural)]
pub enum Syscall {
    Ping,
    Exit,
    Send,
    Recv,
    TryRecv,
    WaitIrq,
    Resolve,
    Unknown { imm: u16 },
}

pub open spec fn spec_decode(imm: u16) -> Syscall {
    if imm == SYS_PING {
        Syscall::Ping
    } else if imm == SYS_EXIT {
        Syscall::Exit
    } else if imm == SYS_SEND {
        Syscall::Send
    } else if imm == SYS_RECV {
        Syscall::Recv
    } else if imm == SYS_TRY_RECV {
        Syscall::TryRecv
    } else if imm == SYS_WAIT_IRQ {
        Syscall::WaitIrq
    } else if imm == SYS_RESOLVE {
        Syscall::Resolve
    } else {
        Syscall::Unknown { imm }
    }
}

/// Decode an `svc` immediate; anything unassigned is carried as `Unknown`.
pub fn decode(imm: u16) -> (r: Syscall)
    ensures
        r == spec_decode(imm),
{
    if imm == SYS_PING {
        Syscall::Ping
    } else if imm == SYS_EXIT {
        Syscall::Exit
    } else if imm == SYS_SEND {
        Syscall::Send
    } else if imm == SYS_RECV {
        Syscall::Recv
    } else if imm == SYS_TRY_RECV {
        Syscall::TryRecv
    } else if imm == SYS_WAIT_IRQ {
        Syscall::WaitIrq
    } else if imm == SYS_RESOLVE {
        Syscall::Resolve
    } else {
        Syscall::Unknown { imm }
    }
}

} // verus!
