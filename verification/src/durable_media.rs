//! How the durable store's 4 KiB block sits on SD sectors, so that a power
//! cut mid-flush loses at most the newest write, never the last good state:
//! two slots, a header sector per slot carrying a sequence number and a CRC32
//! of the payload, and the header written last.
//!
//! Load validates both slots and takes the highest valid sequence. The driver
//! performs the reads and writes; every decision is made here.
use vstd::prelude::*;
use crate::durable::REGION_SIZE;
use crate::wire::{le32_at, le32_bytes, le64_at, le64_bytes, read_le32, read_le64, write_le32, lemma_le32_round_trip, lemma_le64_round_trip};

verus! {

/// SD sector size this layout is written in.
pub const SECTOR_SIZE: usize = 512;

/// Payload sectors per slot (the 4 KiB block).
pub const PAYLOAD_SECTORS: usize = 8;

/// Sector offsets inside the store partition.
pub const SLOT_A_HEADER: u32 = 0;
pub const SLOT_A_PAYLOAD: u32 = 1;
pub const SLOT_B_HEADER: u32 = 16;
pub const SLOT_B_PAYLOAD: u32 = 17;

/// Smallest partition this layout fits in (sectors).
pub const MIN_PARTITION_SECTORS: u32 = 32;

/// Header magic: "DMH1" little-endian.
pub const MAGIC: u32 = 0x3148_4D44;
pub const VERSION: u32 = 1;

/// One slot of the double buffer.
#[derive(Clone, Copy, Debug, PartialEq, Eq, Structural)]
pub enum Slot {
    A,
    B,
}

impl Slot {
    /// The slot's header sector.
    pub fn header_sector(self) -> (r: u32)
        ensures
            r == match self {
                Slot::A => SLOT_A_HEADER,
                Slot::B => SLOT_B_HEADER,
            },
    {
        match self {
            Slot::A => SLOT_A_HEADER,
            Slot::B => SLOT_B_HEADER,
        }
    }

    /// The slot's first payload sector.
    pub fn payload_sector(self) -> (r: u32)
        ensures
            r == match self {
                Slot::A => SLOT_A_PAYLOAD,
                Slot::B => SLOT_B_PAYLOAD,
            },
    {
        match self {
            Slot::A => SLOT_A_PAYLOAD,
            Slot::B => SLOT_B_PAYLOAD,
        }
    }
}

/// The slot the next flush must write: always the one not holding the
/// current good state, so a torn write cannot destroy it.
pub fn next_slot(winner: Option<Slot>) -> (s: Slot)
    ensures
        s == match winner {
            Some(Slot::A) => Slot::B,
            _ => Slot::A,
        },
        winner matches Some(w) ==> s != w,
{
    match winner {
        Some(Slot::A) => Slot::B,
        _ => Slot::A,
    }
}

/// Decoded, validated header.
#[derive(Clone, Copy, Debug, PartialEq, Eq, Structural)]
pub struct Header {
    pub seq: u64,
    pub crc: u32,
}

/// One shift step of the reflected CRC32 register.
pub open spec fn crc_step(c: u32) -> u32 {
    (c >> 1u32) ^ (if c & 1 != 0 { 0xEDB8_8320u32 } else { 0u32 })
}

/// `n` shift steps.
pub open spec fn crc_steps(c: u32, n: nat) -> u32
    decreases n,
{
    if n == 0 {
        c
    } else {
        crc_steps(crc_step(c), (n - 1) as nat)
    }
}

/// The CRC register after the first `n` bytes of `bytes`.
pub open spec fn crc_register(bytes: Seq<u8>, n: int) -> u32
    decreases n,
{
    if n <= 0 {
        0xFFFF_FFFF
    } else {
        crc_steps(crc_register(bytes, n - 1) ^ (bytes[n - 1] as u32), 8)
    }
}

/// CRC32 (IEEE 802.3: reflected, polynomial `0xEDB88320`, initial value and
/// final xor `0xFFFF_FFFF`).
pub open spec fn crc32_spec(bytes: Seq<u8>) -> u32 {
    !crc_register(bytes, bytes.len() as int)
}

/// CRC32 of `bytes`, bit by bit: the inputs are 4 KiB once per boot.
pub fn crc32(bytes: &[u8]) -> (r: u32)
    ensures
        r == crc32_spec(bytes@),
{
    let mut crc: u32 = 0xFFFF_FFFF;
    let mut i: usize = 0;
    while i < bytes.len()
        invariant
            i <= bytes@.len(),
            crc == crc_register(bytes@, i as int),
        decreases bytes@.len() - i,
    {
        crc = crc ^ (bytes[i] as u32);
        let ghost start = crc;
        let mut bit: u32 = 0;
        while bit < 8
            invariant
                bit <= 8,
                crc_steps(crc, (8 - bit) as nat) == crc_steps(start, 8),
            decreases 8 - bit,
        {
            let mask: u32 = if crc & 1 != 0 { 0xEDB8_8320 } else { 0 };
            crc = (crc >> 1) ^ mask;
            bit = bit + 1;
        }
        i = i + 1;
    }
    !crc
}

/// The header sector committing a payload of CRC `crc` at sequence `seq`:
/// magic, version, sequence and CRC little-endian, the rest zero.
pub open spec fn header_bytes(seq: u64, crc: u32) -> Seq<u8> {
    le32_bytes(MAGIC) + le32_bytes(VERSION) + le64_bytes(seq) + le32_bytes(crc) + Seq::new(492, |i: int| 0u8)
}

/// Encode a header sector committing `payload` at sequence `seq`.
pub fn encode_header(seq: u64, payload: &[u8; 4096]) -> (out: [u8; 512])
    ensures
        out@ == header_bytes(seq, crc32_spec(payload@)),
{
    let mut out: [u8; 512] = [0u8; 512];
    let crc = crc32(payload.as_slice());
    write_le32(&mut out, 0, MAGIC);
    write_le32(&mut out, 4, VERSION);
    write_le32(&mut out, 8, (seq % 0x1_0000_0000) as u32);
    write_le32(&mut out, 12, (seq / 0x1_0000_0000) as u32);
    write_le32(&mut out, 16, crc);
    assert(out@ =~= header_bytes(seq, crc));
    out
}

/// What decoding a header sector gives: `None` for anything but this exact
/// magic and version.
pub open spec fn decode_header_spec(s: Seq<u8>) -> Option<Header> {
    if le32_at(s, 0) != MAGIC || le32_at(s, 4) != VERSION {
        None
    } else {
        Some(Header { seq: le64_at(s, 8), crc: le32_at(s, 16) })
    }
}

/// Decode a header sector.
pub fn decode_header(sector: &[u8; 512]) -> (r: Option<Header>)
    ensures
        r == decode_header_spec(sector@),
{
    let s = sector.as_slice();
    let magic = read_le32(s, 0);
    let version = read_le32(s, 4);
    if magic != MAGIC || version != VERSION {
        return None;
    }
    Some(Header { seq: read_le64(s, 8), crc: read_le32(s, 16) })
}

/// What validating a slot gives: its header, when it decodes and commits
/// exactly this payload.
pub open spec fn validate_spec(header: Seq<u8>, payload: Seq<u8>) -> Option<Header> {
    match decode_header_spec(header) {
        Some(h) => if crc32_spec(payload) == h.crc { Some(h) } else { None },
        None => None,
    }
}

/// A slot is valid when its header decodes and commits exactly its payload.
pub fn validate(header: &[u8; 512], payload: &[u8; 4096]) -> (r: Option<Header>)
    ensures
        r == validate_spec(header@, payload@),
{
    let h = match decode_header(header) {
        Some(h) => h,
        None => return None,
    };
    if crc32(payload.as_slice()) != h.crc {
        return None;
    }
    Some(h)
}

/// The good state among two validated slots: the higher sequence, A on a tie.
pub open spec fn winner_of(a: Option<Header>, b: Option<Header>) -> Option<(Slot, Header)> {
    match (a, b) {
        (None, None) => None,
        (Some(h), None) => Some((Slot::A, h)),
        (None, Some(h)) => Some((Slot::B, h)),
        (Some(ha), Some(hb)) => if ha.seq >= hb.seq { Some((Slot::A, ha)) } else { Some((Slot::B, hb)) },
    }
}

/// Pick the good state among two read-back slots; `None` is fresh media.
pub fn pick_winner(header_a: &[u8; 512], payload_a: &[u8; 4096], header_b: &[u8; 512], payload_b: &[u8; 4096]) -> (r: Option<(Slot, Header)>)
    ensures
        r == winner_of(validate_spec(header_a@, payload_a@), validate_spec(header_b@, payload_b@)),
{
    let a = validate(header_a, payload_a);
    let b = validate(header_b, payload_b);
    match (a, b) {
        (None, None) => None,
        (Some(h), None) => Some((Slot::A, h)),
        (None, Some(h)) => Some((Slot::B, h)),
        (Some(ha), Some(hb)) => {
            if ha.seq >= hb.seq {
                Some((Slot::A, ha))
            } else {
                Some((Slot::B, hb))
            }
        },
    }
}

/// A header written for a payload reads back as that sequence and CRC, and
/// validates against the same payload.
pub proof fn lemma_header_round_trip(seq: u64, payload: Seq<u8>)
    ensures
        decode_header_spec(header_bytes(seq, crc32_spec(payload))) == Some(Header { seq, crc: crc32_spec(payload) }),
        validate_spec(header_bytes(seq, crc32_spec(payload)), payload) == Some(Header { seq, crc: crc32_spec(payload) }),
{
    let c = crc32_spec(payload);
    let h = header_bytes(seq, c);
    lemma_le32_round_trip(MAGIC);
    lemma_le32_round_trip(VERSION);
    lemma_le32_round_trip(c);
    lemma_le64_round_trip(seq);
    assert(h.subrange(8, 16) =~= le64_bytes(seq));
    assert(le64_at(h, 8) == le64_at(h.subrange(8, 16), 0));
}

/// The winner is never older than a valid loser: a flush that committed a
/// higher sequence wins, a tie goes to slot A, and a torn slot never wins.
pub proof fn lemma_winner_is_newest(a: Option<Header>, b: Option<Header>)
    ensures
        (a is Some && (b is None || a->0.seq >= b->0.seq)) ==> winner_of(a, b) == Some((Slot::A, a->0)),
        (b is Some && (a is None || b->0.seq > a->0.seq)) ==> winner_of(a, b) == Some((Slot::B, b->0)),
        winner_of(a, b) matches Some((s, h)) ==> (s == Slot::A ==> a == Some(h)) && (s == Slot::B ==> b == Some(h)),
        (a is Some || b is Some) ==> winner_of(a, b) is Some,
        winner_of(a, b) matches Some((s, h)) ==> (a matches Some(ha) ==> h.seq >= ha.seq) && (b matches Some(hb)
            ==> h.seq >= hb.seq),
        a is None && b is None ==> winner_of(a, b) is None,
{
}

} // verus!
