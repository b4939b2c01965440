//! Network-service wire protocol and packet ownership.
//!
//! Messages carry packet-pool identity only: slot, generation and length.
//! Physical addresses, descriptor indices and MMIO never cross this boundary.
use vstd::prelude::*;
use crate::ipc::Message;

verus! {

pub const TAG_TX_SUBMIT: u32 = 0x1101;
pub const TAG_RX_RETURN: u32 = 0x1102;
pub const TAG_TX_COMPLETE: u32 = 0x1103;
pub const TAG_RX_AVAILABLE: u32 = 0x1104;
pub const TAG_REFUSED: u32 = 0x1105;

/// Fixed packet slot size.
pub const PACKET_BYTES: usize = 2048;

/// Bounded pool size: the first half transmits, the second half receives.
pub const PACKET_SLOTS: usize = 16;

/// A service request decoded from a message.
#[derive(Clone, Copy, Debug, PartialEq, Eq, Structural)]
pub enum Request {
    TxSubmit(PacketToken),
    RxReturn(PacketToken),
}

/// Why a message did not decode.
#[derive(Clone, Copy, Debug, PartialEq, Eq, Structural)]
pub enum DecodeError {
    UnknownTag,
    ReservedBits,
    LengthOutOfRange,
}

/// A packet reference carried across the service boundary.
#[derive(Clone, Copy, Debug, PartialEq, Eq, Structural)]
pub struct PacketToken {
    pub slot: u8,
    pub generation: u32,
    pub len: u16,
}

/// The packed form of a token: slot in bits 0..8, generation in 8..40,
/// length in 40..56, the rest zero.
pub open spec fn pack_spec(t: PacketToken) -> u64 {
    (t.slot + t.generation * 0x100 + t.len * 0x100_0000_0000) as u64
}

/// What unpacking `v` gives.
pub open spec fn unpack_spec(v: u64) -> Result<PacketToken, DecodeError> {
    if v >= 0x100_0000_0000_0000 {
        Err(DecodeError::ReservedBits)
    } else if v / 0x100_0000_0000 > PACKET_BYTES {
        Err(DecodeError::LengthOutOfRange)
    } else {
        Ok(
            PacketToken {
                slot: (v % 0x100) as u8,
                generation: ((v / 0x100) % 0x1_0000_0000) as u32,
                len: (v / 0x100_0000_0000) as u16,
            },
        )
    }
}

fn pack(token: PacketToken) -> (r: u64)
    ensures
        r == pack_spec(token),
{
    let s = token.slot as u64;
    let g = token.generation as u64;
    let l = token.len as u64;
    let r = s | (g << 8u64) | (l << 40u64);
    assert(s | (g << 8u64) | (l << 40u64) == s + g * 0x100 + l * 0x100_0000_0000) by (bit_vector)
        requires
            s < 0x100,
            g < 0x1_0000_0000,
            l < 0x1_0000,
    ;
    r
}

fn unpack(value: u64) -> (r: Result<PacketToken, DecodeError>)
    ensures
        r == unpack_spec(value),
{
    if value & 0xFF00_0000_0000_0000u64 != 0 {
        assert(value & 0xFF00_0000_0000_0000u64 != 0 ==> value >= 0x100_0000_0000_0000) by (bit_vector);
        return Err(DecodeError::ReservedBits);
    }
    assert(value & 0xFF00_0000_0000_0000u64 == 0 ==> value < 0x100_0000_0000_0000) by (bit_vector);
    let len: u64 = (value >> 40u64) & 0xFFFF;
    assert(value < 0x100_0000_0000_0000 ==> (value >> 40u64) & 0xFFFF == value / 0x100_0000_0000) by (bit_vector);
    if len > PACKET_BYTES as u64 {
        return Err(DecodeError::LengthOutOfRange);
    }
    assert(value as u8 == value % 0x100) by (bit_vector);
    assert((value >> 8u64) as u32 == (value / 0x100) % 0x1_0000_0000) by (bit_vector);
    Ok(PacketToken { slot: value as u8, generation: (value >> 8u64) as u32, len: len as u16 })
}

/// A token of legal length survives packing and unpacking.
pub proof fn lemma_pack_round_trip(t: PacketToken)
    requires
        t.len <= PACKET_BYTES,
    ensures
        unpack_spec(pack_spec(t)) == Ok::<PacketToken, DecodeError>(t),
{
    let v = pack_spec(t) as int;
    assert(v == t.slot + t.generation * 0x100 + t.len * 0x100_0000_0000);
    assert(v / 0x100_0000_0000 == t.len) by (nonlinear_arith)
        requires
            v == t.slot + t.generation * 0x100 + t.len * 0x100_0000_0000,
            0 <= t.slot < 0x100,
            0 <= t.generation < 0x1_0000_0000,
    ;
    assert(v % 0x100 == t.slot) by (nonlinear_arith)
        requires
            v == t.slot + t.generation * 0x100 + t.len * 0x100_0000_0000,
            0 <= t.slot < 0x100,
    ;
    let w: int = t.generation + t.len * 0x1_0000_0000;
    assert(v / 0x100 == w) by (nonlinear_arith)
        requires
            v == t.slot + t.generation * 0x100 + t.len * 0x100_0000_0000,
            w == t.generation + t.len * 0x1_0000_0000,
            0 <= t.slot < 0x100,
            0 <= w,
    ;
    assert(w % 0x1_0000_0000 == t.generation) by (nonlinear_arith)
        requires
            w == t.generation + t.len * 0x1_0000_0000,
            0 <= t.generation < 0x1_0000_0000,
            0 <= t.len,
    ;
}

/// A transmit request for `token`.
pub fn tx_submit(token: PacketToken) -> (m: Message)
    ensures
        m == (Message { tag: TAG_TX_SUBMIT, a: pack_spec(token), b: 0 }),
{
    Message { tag: TAG_TX_SUBMIT, a: pack(token), b: 0 }
}

/// A receive-slot return for `token`.
pub fn rx_return(token: PacketToken) -> (m: Message)
    ensures
        m == (Message { tag: TAG_RX_RETURN, a: pack_spec(token), b: 0 }),
{
    Message { tag: TAG_RX_RETURN, a: pack(token), b: 0 }
}

/// Packed token representation used in the message ABI.
pub fn packed_token(token: PacketToken) -> (r: u64)
    ensures
        r == pack_spec(token),
{
    pack(token)
}

/// What decoding `m` gives.
pub open spec fn decode_spec(m: Message) -> Result<Request, DecodeError> {
    match unpack_spec(m.a) {
        Err(e) => Err(e),
        Ok(t) => if m.tag == TAG_TX_SUBMIT {
            Ok(Request::TxSubmit(t))
        } else if m.tag == TAG_RX_RETURN {
            Ok(Request::RxReturn(t))
        } else {
            Err(DecodeError::UnknownTag)
        },
    }
}

/// Decode a service request. The token is checked before the tag.
pub fn decode(message: Message) -> (r: Result<Request, DecodeError>)
    ensures
        r == decode_spec(message),
{
    let token = match unpack(message.a) {
        Ok(t) => t,
        Err(e) => return Err(e),
    };
    if message.tag == TAG_TX_SUBMIT {
        Ok(Request::TxSubmit(token))
    } else if message.tag == TAG_RX_RETURN {
        Ok(Request::RxReturn(token))
    } else {
        Err(DecodeError::UnknownTag)
    }
}

/// A transmit completion for `token`.
pub fn tx_complete(token: PacketToken) -> (m: Message)
    ensures
        m == (Message { tag: TAG_TX_COMPLETE, a: pack_spec(token), b: 0 }),
{
    Message { tag: TAG_TX_COMPLETE, a: pack(token), b: 0 }
}

/// A received-frame notice for `token`.
pub fn rx_available(token: PacketToken) -> (m: Message)
    ensures
        m == (Message { tag: TAG_RX_AVAILABLE, a: pack_spec(token), b: 0 }),
{
    Message { tag: TAG_RX_AVAILABLE, a: pack(token), b: 0 }
}

/// A refusal carrying `code`.
pub fn refused(code: u64) -> (m: Message)
    ensures
        m == (Message { tag: TAG_REFUSED, a: code, b: 0 }),
{
    Message { tag: TAG_REFUSED, a: code, b: 0 }
}

/// Requests round-trip through their messages.
pub proof fn lemma_requests_round_trip(t: PacketToken)
    requires
        t.len <= PACKET_BYTES,
    ensures
        decode_spec(Message { tag: TAG_TX_SUBMIT, a: pack_spec(t), b: 0 }) == Ok::<Request, DecodeError>(Request::TxSubmit(t)),
        decode_spec(Message { tag: TAG_RX_RETURN, a: pack_spec(t), b: 0 }) == Ok::<Request, DecodeError>(Request::RxReturn(t)),
{
    lemma_pack_round_trip(t);
}

/// Who holds a packet slot, and which way it is moving.
#[derive(Clone, Copy, Debug, PartialEq, Eq, Structural)]
pub enum SlotState {
    TxAgent,
    TxService,
    RxService,
    RxAgent,
}

/// Why a packet operation was refused before touching device state.
#[derive(Clone, Copy, Debug, PartialEq, Eq, Structural)]
pub enum PacketError {
    SlotOutOfRange,
    StaleGeneration,
    WrongDirection,
    WrongOwner,
    Oversize,
}

/// The state slot `i` starts in, and returns to on reset.
pub open spec fn home_state(i: int) -> SlotState {
    if i < PACKET_SLOTS / 2 { SlotState::TxAgent } else { SlotState::RxService }
}

/// Whether state `st` belongs to slot `i`'s direction.
pub open spec fn in_direction(i: int, st: SlotState) -> bool {
    if i < PACKET_SLOTS / 2 {
        st == SlotState::TxAgent || st == SlotState::TxService
    } else {
        st == SlotState::RxService || st == SlotState::RxAgent
    }
}

/// The check every token-carrying operation makes first.
pub open spec fn token_check(pool: Seq<(u32, SlotState)>, t: PacketToken) -> Option<PacketError> {
    if t.len > PACKET_BYTES {
        Some(PacketError::Oversize)
    } else if t.slot >= PACKET_SLOTS {
        Some(PacketError::SlotOutOfRange)
    } else if pool[t.slot as int].0 != t.generation {
        Some(PacketError::StaleGeneration)
    } else {
        None
    }
}

/// A bounded TX/RX packet ownership table.
#[derive(Clone, Debug)]
pub struct PacketPool {
    slots: Vec<(u32, SlotState)>,
}

impl PacketPool {
    /// Each slot's generation and owner.
    pub closed spec fn pool(&self) -> Seq<(u32, SlotState)> {
        self.slots@
    }

    /// Every slot stays in its own direction.
    pub closed spec fn wf(&self) -> bool {
        &&& self.slots@.len() == PACKET_SLOTS
        &&& forall|i: int| 0 <= i < PACKET_SLOTS ==> in_direction(i, (#[trigger] self.slots@[i]).1)
    }

    /// A reset pool: transmit slots with the agent, receive slots with the
    /// service, generation zero.
    pub fn new() -> (p: PacketPool)
        ensures
            p.wf(),
            p.pool() == Seq::new(PACKET_SLOTS as nat, |i: int| (0u32, home_state(i))),
    {
        let mut slots: Vec<(u32, SlotState)> = Vec::new();
        let mut i: usize = 0;
        while i < PACKET_SLOTS
            invariant
                i <= PACKET_SLOTS,
                slots@ == Seq::new(i as nat, |j: int| (0u32, home_state(j))),
            decreases PACKET_SLOTS - i,
        {
            let st = if i < PACKET_SLOTS / 2 { SlotState::TxAgent } else { SlotState::RxService };
            slots.push((0, st));
            i = i + 1;
            assert(slots@ =~= Seq::new(i as nat, |j: int| (0u32, home_state(j))));
        }
        PacketPool { slots }
    }

    /// Submit a frame from an agent transmit slot to the service.
    pub fn submit_tx(&mut self, slot: usize, generation: u32, len: usize) -> (r: Result<PacketToken, PacketError>)
        requires
            old(self).wf(),
        ensures
            final(self).wf(),
            ({
                let p = old(self).pool();
                if slot >= PACKET_SLOTS {
                    r == Err::<PacketToken, PacketError>(PacketError::SlotOutOfRange) && final(self).pool() == p
                } else if p[slot as int].0 != generation {
                    r == Err::<PacketToken, PacketError>(PacketError::StaleGeneration) && final(self).pool() == p
                } else if slot >= PACKET_SLOTS / 2 {
                    r == Err::<PacketToken, PacketError>(PacketError::WrongDirection) && final(self).pool() == p
                } else if p[slot as int].1 != SlotState::TxAgent {
                    r == Err::<PacketToken, PacketError>(PacketError::WrongOwner) && final(self).pool() == p
                } else if len > PACKET_BYTES {
                    r == Err::<PacketToken, PacketError>(PacketError::Oversize) && final(self).pool() == p
                } else {
                    &&& r == Ok::<PacketToken, PacketError>(PacketToken { slot: slot as u8, generation, len: len as u16 })
                    &&& final(self).pool() == p.update(slot as int, (generation, SlotState::TxService))
                }
            }),
    {
        if slot >= PACKET_SLOTS {
            return Err(PacketError::SlotOutOfRange);
        }
        let current = self.slots[slot];
        if current.0 != generation {
            return Err(PacketError::StaleGeneration);
        }
        if slot >= PACKET_SLOTS / 2 {
            return Err(PacketError::WrongDirection);
        }
        if current.1 != SlotState::TxAgent {
            return Err(PacketError::WrongOwner);
        }
        if len > PACKET_BYTES {
            return Err(PacketError::Oversize);
        }
        self.slots.set(slot, (generation, SlotState::TxService));
        Ok(PacketToken { slot: slot as u8, generation, len: len as u16 })
    }

    /// Accept a token received over the service endpoint after validating its
    /// length, slot, generation, direction and current owner.
    pub fn accept_tx(&mut self, token: PacketToken) -> (r: Result<(), PacketError>)
        requires
            old(self).wf(),
        ensures
            final(self).wf(),
            ({
                let p = old(self).pool();
                match token_check(p, token) {
                    Some(e) => r == Err::<(), PacketError>(e) && final(self).pool() == p,
                    None => if token.slot >= PACKET_SLOTS / 2 {
                        r == Err::<(), PacketError>(PacketError::WrongDirection) && final(self).pool() == p
                    } else if p[token.slot as int].1 != SlotState::TxAgent {
                        r == Err::<(), PacketError>(PacketError::WrongOwner) && final(self).pool() == p
                    } else {
                        r is Ok && final(self).pool() == p.update(token.slot as int, (token.generation, SlotState::TxService))
                    },
                }
            }),
    {
        self.checked_token(token)?;
        let i = token.slot as usize;
        if i >= PACKET_SLOTS / 2 {
            return Err(PacketError::WrongDirection);
        }
        if self.slots[i].1 != SlotState::TxAgent {
            return Err(PacketError::WrongOwner);
        }
        self.slots.set(i, (token.generation, SlotState::TxService));
        Ok(())
    }

    /// Return a completed transmit slot to the agent.
    pub fn complete_tx(&mut self, token: PacketToken) -> (r: Result<(), PacketError>)
        requires
            old(self).wf(),
        ensures
            final(self).wf(),
            ({
                let p = old(self).pool();
                match token_check(p, token) {
                    Some(e) => r == Err::<(), PacketError>(e) && final(self).pool() == p,
                    None => if p[token.slot as int].1 != SlotState::TxService {
                        r == Err::<(), PacketError>(PacketError::WrongOwner) && final(self).pool() == p
                    } else {
                        r is Ok && final(self).pool() == p.update(token.slot as int, (token.generation, SlotState::TxAgent))
                    },
                }
            }),
    {
        self.checked_token(token)?;
        let i = token.slot as usize;
        if self.slots[i].1 != SlotState::TxService {
            return Err(PacketError::WrongOwner);
        }
        self.slots.set(i, (token.generation, SlotState::TxAgent));
        Ok(())
    }

    /// Publish a received frame into a service-owned receive slot, handing it
    /// to the agent.
    pub fn publish_rx(&mut self, slot: usize, len: usize) -> (r: Result<PacketToken, PacketError>)
        requires
            old(self).wf(),
        ensures
            final(self).wf(),
            ({
                let p = old(self).pool();
                if slot >= PACKET_SLOTS {
                    r == Err::<PacketToken, PacketError>(PacketError::SlotOutOfRange) && final(self).pool() == p
                } else if slot < PACKET_SLOTS / 2 {
                    r == Err::<PacketToken, PacketError>(PacketError::WrongDirection) && final(self).pool() == p
                } else if p[slot as int].1 != SlotState::RxService {
                    r == Err::<PacketToken, PacketError>(PacketError::WrongOwner) && final(self).pool() == p
                } else if len > PACKET_BYTES {
                    r == Err::<PacketToken, PacketError>(PacketError::Oversize) && final(self).pool() == p
                } else {
                    &&& r == Ok::<PacketToken, PacketError>(PacketToken { slot: slot as u8, generation: p[slot as int].0, len: len as u16 })
                    &&& final(self).pool() == p.update(slot as int, (p[slot as int].0, SlotState::RxAgent))
                }
            }),
    {
        if slot >= PACKET_SLOTS {
            return Err(PacketError::SlotOutOfRange);
        }
        if slot < PACKET_SLOTS / 2 {
            return Err(PacketError::WrongDirection);
        }
        let current = self.slots[slot];
        if current.1 != SlotState::RxService {
            return Err(PacketError::WrongOwner);
        }
        if len > PACKET_BYTES {
            return Err(PacketError::Oversize);
        }
        self.slots.set(slot, (current.0, SlotState::RxAgent));
        Ok(PacketToken { slot: slot as u8, generation: current.0, len: len as u16 })
    }

    /// Return a receive slot after the agent consumed it.
    pub fn return_rx(&mut self, token: PacketToken) -> (r: Result<(), PacketError>)
        requires
            old(self).wf(),
        ensures
            final(self).wf(),
            ({
                let p = old(self).pool();
                match token_check(p, token) {
                    Some(e) => r == Err::<(), PacketError>(e) && final(self).pool() == p,
                    None => if p[token.slot as int].1 != SlotState::RxAgent {
                        r == Err::<(), PacketError>(PacketError::WrongOwner) && final(self).pool() == p
                    } else {
                        r is Ok && final(self).pool() == p.update(token.slot as int, (token.generation, SlotState::RxService))
                    },
                }
            }),
    {
        self.checked_token(token)?;
        let i = token.slot as usize;
        if self.slots[i].1 != SlotState::RxAgent {
            return Err(PacketError::WrongOwner);
        }
        self.slots.set(i, (token.generation, SlotState::RxService));
        Ok(())
    }

    /// Reset the device contract: every slot returns home in a new
    /// generation, which invalidates every outstanding token.
    pub fn reset(&mut self)
        requires
            old(self).wf(),
        ensures
            final(self).wf(),
            final(self).pool() == Seq::new(PACKET_SLOTS as nat, |i: int|
                ((if old(self).pool()[i].0 == u32::MAX { 0u32 } else { (old(self).pool()[i].0 + 1) as u32 }), home_state(i))),
    {
        let ghost p = self.pool();
        let mut i: usize = 0;
        while i < PACKET_SLOTS
            invariant
                i <= PACKET_SLOTS,
                self.slots@.len() == PACKET_SLOTS,
                p == old(self).pool(),
                p.len() == PACKET_SLOTS,
                forall|j: int| 0 <= j < i ==> #[trigger] self.slots@[j] == ((if p[j].0 == u32::MAX { 0u32 } else { (p[j].0 + 1) as u32 }), home_state(j)),
                forall|j: int| i <= j < PACKET_SLOTS ==> #[trigger] self.slots@[j] == p[j],
            decreases PACKET_SLOTS - i,
        {
            let g = self.slots[i].0;
            let ng: u32 = if g == u32::MAX { 0 } else { g + 1 };
            let st = if i < PACKET_SLOTS / 2 { SlotState::TxAgent } else { SlotState::RxService };
            self.slots.set(i, (ng, st));
            i = i + 1;
        }
        assert(self.pool() =~= Seq::new(PACKET_SLOTS as nat, |i: int|
            ((if p[i].0 == u32::MAX { 0u32 } else { (p[i].0 + 1) as u32 }), home_state(i))));
    }

    fn checked_token(&self, token: PacketToken) -> (r: Result<(), PacketError>)
        requires
            self.wf(),
        ensures
            r == match token_check(self.pool(), token) {
                Some(e) => Err::<(), PacketError>(e),
                None => Ok(()),
            },
    {
        if token.len as usize > PACKET_BYTES {
            return Err(PacketError::Oversize);
        }
        let i = token.slot as usize;
        if i >= PACKET_SLOTS {
            return Err(PacketError::SlotOutOfRange);
        }
        if self.slots[i].0 != token.generation {
            return Err(PacketError::StaleGeneration);
        }
        Ok(())
    }
}

/// After a reset, a token minted before it names its slot in a generation
/// the slot no longer has, and is refused as stale.
pub proof fn lemma_reset_invalidates(old_pool: Seq<(u32, SlotState)>, t: PacketToken)
    requires
        old_pool.len() == PACKET_SLOTS,
        t.slot < PACKET_SLOTS,
        t.len <= PACKET_BYTES,
        old_pool[t.slot as int].0 == t.generation,
    ensures
        token_check(
            Seq::new(PACKET_SLOTS as nat, |i: int|
                ((if old_pool[i].0 == u32::MAX { 0u32 } else { (old_pool[i].0 + 1) as u32 }), home_state(i))),
            t,
        ) == Some(PacketError::StaleGeneration),
{
}

} // verus!
