//! Syscall reply mapping: which subsystem answer becomes which [`Status`],
//! which counter bumps, and which reply registers get written.
//!
//! The kernel converts each subsystem result into an outcome, calls the mapper
//! and applies the [`Reply`]. The decision after the answer lives here.
use vstd::prelude::*;
use crate::syscall::Status;

verus! {

/// Why a call refused, as the stable `x1` detail code.
#[derive(Clone, Copy, Debug, PartialEq, Eq, Structural)]
pub enum RefusalDetail {
    BadCap,
    UnknownDest,
    BadFromSlot,
    BadToTask,
    ToSlotFull,
    ToSlotOob,
    Untransferable,
    NoGrant,
    BadNameLen,
    Missing,
    BadSlot,
    NotIrqCap,
}

/// The ABI code of each detail.
pub open spec fn detail_code(d: RefusalDetail) -> u64 {
    match d {
        RefusalDetail::BadCap => 1,
        RefusalDetail::UnknownDest => 2,
        RefusalDetail::BadFromSlot => 3,
        RefusalDetail::BadToTask => 4,
        RefusalDetail::ToSlotFull => 5,
        RefusalDetail::ToSlotOob => 6,
        RefusalDetail::Untransferable => 7,
        RefusalDetail::NoGrant => 8,
        RefusalDetail::BadNameLen => 9,
        RefusalDetail::Missing => 10,
        RefusalDetail::BadSlot => 11,
        RefusalDetail::NotIrqCap => 12,
    }
}

impl RefusalDetail {
    /// The `x1` code.
    pub fn as_u64(self) -> (r: u64)
        ensures
            r == detail_code(self),
    {
        match self {
            RefusalDetail::BadCap => 1,
            RefusalDetail::UnknownDest => 2,
            RefusalDetail::BadFromSlot => 3,
            RefusalDetail::BadToTask => 4,
            RefusalDetail::ToSlotFull => 5,
            RefusalDetail::ToSlotOob => 6,
            RefusalDetail::Untransferable => 7,
            RefusalDetail::NoGrant => 8,
            RefusalDetail::BadNameLen => 9,
            RefusalDetail::Missing => 10,
            RefusalDetail::BadSlot => 11,
            RefusalDetail::NotIrqCap => 12,
        }
    }
}

/// Distinct details have distinct codes, all in `1..=12`.
pub proof fn lemma_detail_codes_distinct(a: RefusalDetail, b: RefusalDetail)
    ensures
        1 <= detail_code(a) <= 12,
        a != b ==> detail_code(a) != detail_code(b),
{
}

/// Which session counters bump, and by how much (applied saturating).
#[derive(Clone, Copy, Debug, PartialEq, Eq, Structural)]
pub struct StatDelta {
    pub sends: u32,
    pub recvs: u32,
    pub recv_empties: u32,
    pub wait_irqs: u32,
    pub authority_refusals: u32,
}

/// No counter moves.
pub open spec fn no_delta() -> StatDelta {
    StatDelta { sends: 0, recvs: 0, recv_empties: 0, wait_irqs: 0, authority_refusals: 0 }
}

impl Default for StatDelta {
    fn default() -> (d: StatDelta)
        ensures
            d == no_delta(),
    {
        StatDelta { sends: 0, recvs: 0, recv_empties: 0, wait_irqs: 0, authority_refusals: 0 }
    }
}

/// One syscall's reply: status for `x0`, optional `x1..x3` payload, the `x1`
/// detail on a refusal, and the counters to bump.
#[derive(Clone, Copy, Debug, PartialEq, Eq)]
pub struct Reply {
    pub status: Status,
    pub payload: Option<[u64; 3]>,
    pub detail: Option<RefusalDetail>,
    pub delta: StatDelta,
}

/// An authority refusal: its detail, and exactly one count.
pub open spec fn refused_spec(d: RefusalDetail) -> Reply {
    Reply {
        status: Status::Authority,
        payload: None,
        detail: Some(d),
        delta: StatDelta { authority_refusals: 1, ..no_delta() },
    }
}

/// A status that is neither success data nor an authority event: nothing
/// written beyond `x0`, no counter.
pub open spec fn bare_spec(s: Status) -> Reply {
    Reply { status: s, payload: None, detail: None, delta: no_delta() }
}

/// What every reply keeps: data only on success, and the authority counter
/// moves exactly on an authority status, which always carries its detail.
pub open spec fn reply_shape(r: Reply) -> bool {
    &&& r.payload is Some ==> r.status == Status::Success
    &&& (r.status == Status::Authority) == (r.detail is Some)
    &&& (r.status == Status::Authority) == (r.delta.authority_refusals == 1)
    &&& r.delta.authority_refusals <= 1
}

fn refused(detail: RefusalDetail) -> (r: Reply)
    ensures
        r == refused_spec(detail),
{
    Reply {
        status: Status::Authority,
        payload: None,
        detail: Some(detail),
        delta: StatDelta { sends: 0, recvs: 0, recv_empties: 0, wait_irqs: 0, authority_refusals: 1 },
    }
}

fn bare(status: Status) -> (r: Reply)
    ensures
        r == bare_spec(status),
{
    Reply {
        status,
        payload: None,
        detail: None,
        delta: StatDelta { sends: 0, recvs: 0, recv_empties: 0, wait_irqs: 0, authority_refusals: 0 },
    }
}

/// What the IPC layer answered a receive.
#[derive(Clone, Copy, Debug, PartialEq, Eq, Structural)]
pub enum RecvOutcome {
    Got { tag: u32, a: u64, b: u64 },
    Empty,
    Busy,
    Cancelled,
    BadCap,
}

/// The reply to every receive flavour: only the waiting differs.
pub fn recv(outcome: RecvOutcome) -> (r: Reply)
    ensures
        reply_shape(r),
        r == match outcome {
            RecvOutcome::Got { tag, a, b } => Reply {
                status: Status::Success,
                payload: Some([tag as u64, a, b]),
                detail: None,
                delta: StatDelta { recvs: 1, ..no_delta() },
            },
            RecvOutcome::Empty => Reply {
                status: Status::Empty,
                payload: None,
                detail: None,
                delta: StatDelta { recv_empties: 1, ..no_delta() },
            },
            RecvOutcome::Busy => bare_spec(Status::Busy),
            RecvOutcome::Cancelled => bare_spec(Status::Cancelled),
            RecvOutcome::BadCap => refused_spec(RefusalDetail::BadCap),
        },
{
    match outcome {
        RecvOutcome::Got { tag, a, b } => Reply {
            status: Status::Success,
            payload: Some([tag as u64, a, b]),
            detail: None,
            delta: StatDelta { sends: 0, recvs: 1, recv_empties: 0, wait_irqs: 0, authority_refusals: 0 },
        },
        RecvOutcome::Empty => Reply {
            status: Status::Empty,
            payload: None,
            detail: None,
            delta: StatDelta { sends: 0, recvs: 0, recv_empties: 1, wait_irqs: 0, authority_refusals: 0 },
        },
        RecvOutcome::Busy => bare(Status::Busy),
        RecvOutcome::Cancelled => bare(Status::Cancelled),
        RecvOutcome::BadCap => refused(RefusalDetail::BadCap),
    }
}

/// What the IPC layer answered a send.
#[derive(Clone, Copy, Debug, PartialEq, Eq, Structural)]
pub enum SendOutcome {
    Sent,
    /// Flow control, not a violation.
    Full,
    Refused,
}

/// The reply to a send.
pub fn send(outcome: SendOutcome) -> (r: Reply)
    ensures
        reply_shape(r),
        r == match outcome {
            SendOutcome::Sent => Reply {
                status: Status::Success,
                payload: None,
                detail: None,
                delta: StatDelta { sends: 1, ..no_delta() },
            },
            SendOutcome::Full => bare_spec(Status::Full),
            SendOutcome::Refused => refused_spec(RefusalDetail::BadCap),
        },
{
    match outcome {
        SendOutcome::Sent => Reply {
            status: Status::Success,
            payload: None,
            detail: None,
            delta: StatDelta { sends: 1, recvs: 0, recv_empties: 0, wait_irqs: 0, authority_refusals: 0 },
        },
        SendOutcome::Full => bare(Status::Full),
        SendOutcome::Refused => refused(RefusalDetail::BadCap),
    }
}

/// What the wait-on-IRQ path answered.
#[derive(Clone, Copy, Debug, PartialEq, Eq, Structural)]
pub enum WaitIrqOutcome {
    Woken,
    /// Cookie or task already armed: state, not authority.
    Busy,
    /// Slot empty, out of range or not held.
    BadCap,
    /// Held, but not an IRQ notification cap.
    NotIrqCap,
}

/// The reply to a wait on an IRQ.
pub fn wait_irq(outcome: WaitIrqOutcome) -> (r: Reply)
    ensures
        reply_shape(r),
        r == match outcome {
            WaitIrqOutcome::Woken => Reply {
                status: Status::Success,
                payload: None,
                detail: None,
                delta: StatDelta { wait_irqs: 1, ..no_delta() },
            },
            WaitIrqOutcome::Busy => bare_spec(Status::Busy),
            WaitIrqOutcome::BadCap => refused_spec(RefusalDetail::BadCap),
            WaitIrqOutcome::NotIrqCap => refused_spec(RefusalDetail::NotIrqCap),
        },
{
    match outcome {
        WaitIrqOutcome::Woken => Reply {
            status: Status::Success,
            payload: None,
            detail: None,
            delta: StatDelta { sends: 0, recvs: 0, recv_empties: 0, wait_irqs: 1, authority_refusals: 0 },
        },
        WaitIrqOutcome::Busy => bare(Status::Busy),
        WaitIrqOutcome::BadCap => refused(RefusalDetail::BadCap),
        WaitIrqOutcome::NotIrqCap => refused(RefusalDetail::NotIrqCap),
    }
}

/// What the transfer path answered.
#[derive(Clone, Copy, Debug, PartialEq, Eq, Structural)]
pub enum TransferOutcome {
    Moved,
    /// The destination selector is one this kernel does not decode.
    UnknownDest,
    /// Source slot empty or out of range.
    BadFromSlot,
    /// Target dead, unknown, self, or named by a stale or absent task cap.
    BadToTask,
    /// Destination slot occupied.
    ToSlotFull,
    /// Destination slot index out of range.
    ToSlotOob,
    /// Moved object not an endpoint cap.
    Untransferable,
}

/// The reply to a transfer.
pub fn transfer(outcome: TransferOutcome) -> (r: Reply)
    ensures
        reply_shape(r),
        r == match outcome {
            TransferOutcome::Moved => bare_spec(Status::Success),
            TransferOutcome::UnknownDest => refused_spec(RefusalDetail::UnknownDest),
            TransferOutcome::BadFromSlot => refused_spec(RefusalDetail::BadFromSlot),
            TransferOutcome::BadToTask => refused_spec(RefusalDetail::BadToTask),
            TransferOutcome::ToSlotFull => refused_spec(RefusalDetail::ToSlotFull),
            TransferOutcome::ToSlotOob => refused_spec(RefusalDetail::ToSlotOob),
            TransferOutcome::Untransferable => refused_spec(RefusalDetail::Untransferable),
        },
{
    match outcome {
        TransferOutcome::Moved => bare(Status::Success),
        TransferOutcome::UnknownDest => refused(RefusalDetail::UnknownDest),
        TransferOutcome::BadFromSlot => refused(RefusalDetail::BadFromSlot),
        TransferOutcome::BadToTask => refused(RefusalDetail::BadToTask),
        TransferOutcome::ToSlotFull => refused(RefusalDetail::ToSlotFull),
        TransferOutcome::ToSlotOob => refused(RefusalDetail::ToSlotOob),
        TransferOutcome::Untransferable => refused(RefusalDetail::Untransferable),
    }
}

/// What the resolve path answered: four causes, four details.
#[derive(Clone, Copy, Debug, PartialEq, Eq, Structural)]
pub enum ResolveOutcome {
    Installed,
    NoGrant,
    BadNameLen,
    Missing,
    BadSlot,
}

/// The reply to a resolve.
pub fn resolve(outcome: ResolveOutcome) -> (r: Reply)
    ensures
        reply_shape(r),
        r == match outcome {
            ResolveOutcome::Installed => bare_spec(Status::Success),
            ResolveOutcome::NoGrant => refused_spec(RefusalDetail::NoGrant),
            ResolveOutcome::BadNameLen => refused_spec(RefusalDetail::BadNameLen),
            ResolveOutcome::Missing => refused_spec(RefusalDetail::Missing),
            ResolveOutcome::BadSlot => refused_spec(RefusalDetail::BadSlot),
        },
{
    match outcome {
        ResolveOutcome::Installed => bare(Status::Success),
        ResolveOutcome::NoGrant => refused(RefusalDetail::NoGrant),
        ResolveOutcome::BadNameLen => refused(RefusalDetail::BadNameLen),
        ResolveOutcome::Missing => refused(RefusalDetail::Missing),
        ResolveOutcome::BadSlot => refused(RefusalDetail::BadSlot),
    }
}

/// Byte `i` (little-endian) of `packed`.
pub open spec fn le_byte(packed: u64, i: int) -> u8 {
    ((packed >> (8 * i) as u64) & 0xff) as u8
}

/// Unpack a resolve name from its registers: `len` in `1..=8`, bytes
/// little-endian in `packed`, the rest zero. `None` is the bad-length refusal.
pub fn unpack_name(len: usize, packed: u64) -> (r: Option<[u8; 8]>)
    ensures
        !(1 <= len <= 8) ==> r is None,
        1 <= len <= 8 ==> r is Some && (forall|i: int|
            0 <= i < 8 ==> #[trigger] r->0@[i] == if i < len { le_byte(packed, i) } else { 0u8 }),
{
    if len < 1 || len > 8 {
        return None;
    }
    let mut name: [u8; 8] = [0u8; 8];
    let mut i: usize = 0;
    while i < len
        invariant
            1 <= len <= 8,
            i <= len,
            forall|j: int| 0 <= j < 8 ==> #[trigger] name@[j] == if j < i { le_byte(packed, j) } else { 0u8 },
        decreases len - i,
    {
        name[i] = ((packed >> (8 * i as u64)) & 0xff) as u8;
        i = i + 1;
    }
    Some(name)
}

} // verus!
