//! Durable-blob endpoint protocol.
//!
//! The wire format fits one [`Message`]. Each data field carries its length in
//! the top byte and up to seven bytes below it, little-endian. Larger keys or
//! payloads are refused at this boundary rather than truncated.
use vstd::prelude::*;
use crate::ipc::Message;

verus! {

pub const TAG_PUT: u32 = 0x1001;
pub const TAG_GET: u32 = 0x1002;
pub const TAG_OK: u32 = 0x1003;
pub const TAG_MISSING: u32 = 0x1004;
pub const TAG_BAD_REQUEST: u32 = 0x1005;
pub const TAG_STORE_ERROR: u32 = 0x1006;
pub const MAX_WIRE_BYTES: usize = 7;

/// Byte `i` of `v`, least significant first.
pub open spec fn byte_of(v: u64, i: int) -> u64 {
    (v >> (8 * i) as u64) & 0xff
}

/// The length byte of a packed field: the length, held at 255 for any
/// longer field so that it can never read back as a short one.
pub open spec fn length_byte(len: nat) -> u64 {
    if len > 255 { 255 } else { len as u64 }
}

/// What packing `bytes` gives: the length byte on top, the first seven bytes
/// below it, the rest zero.
pub open spec fn packed_as(v: u64, bytes: Seq<u8>) -> bool {
    &&& v >> 56u64 == length_byte(bytes.len())
    &&& forall|i: int| 0 <= i < 7 ==> #[trigger] byte_of(v, i) == if i < bytes.len() { bytes[i] as u64 } else { 0 }
}

proof fn lemma_byte_or(v: u64, b: u64, si: u64, sj: u64)
    by (bit_vector)
    requires
        b < 256,
        si % 8 == 0,
        si < 56,
        sj % 8 == 0,
        sj < 64,
        (v >> si) & 0xff == 0,
    ensures
        ((v | (b << si)) >> sj) & 0xff == if sj == si { b } else { (v >> sj) & 0xff },
        (v | (b << si)) >> 56 == v >> 56,
{
}

proof fn lemma_len_top(l: u64, sj: u64)
    by (bit_vector)
    requires
        sj % 8 == 0,
        sj < 56,
    ensures
        ((l << 56) >> sj) & 0xff == 0,
        (l << 56) >> 56 == l % 256,
{
}

/// One data field: a length and up to seven bytes.
#[derive(Clone, Copy, Debug, PartialEq, Eq)]
pub struct Field {
    pub len: usize,
    pub bytes: [u8; 7],
}

impl Field {
    /// No bytes.
    pub fn empty() -> (f: Field)
        ensures
            f.len == 0,
            f.bytes@ == Seq::new(7, |i: int| 0u8),
    {
        let f = Field { len: 0, bytes: [0u8; 7] };
        assert(f.bytes@ =~= Seq::new(7, |i: int| 0u8));
        f
    }

    /// The wire form of `bytes`. A field longer than seven bytes packs to a
    /// value that [`Field::unpack`] refuses: it is refused, never truncated.
    pub fn pack(bytes: &[u8]) -> (v: u64)
        ensures
            packed_as(v, bytes@),
            bytes@.len() > 7 ==> !field_ok(v),
    {
        let n = bytes.len();
        let top: u64 = if n > 255 { 255 } else { n as u64 };
        let mut value: u64 = top << 56u64;
        proof {
            assert forall|j: int| 0 <= j < 7 implies #[trigger] byte_of(value, j) == 0 by {
                lemma_len_top(top, (8 * j) as u64);
            }
            lemma_len_top(top, 0);
        }
        let mut i: usize = 0;
        while i < n && i < MAX_WIRE_BYTES
            invariant
                n == bytes@.len(),
                i <= 7,
                i <= n,
                value >> 56u64 == length_byte(n as nat),
                forall|j: int| 0 <= j < 7 ==> #[trigger] byte_of(value, j) == if j < i { bytes@[j] as u64 } else { 0 },
            decreases 7 - i,
        {
            let ghost v0 = value;
            let b = bytes[i] as u64;
            value = value | (b << (8 * i as u64));
            proof {
                assert(byte_of(v0, i as int) == 0);
                assert forall|j: int| 0 <= j < 7 implies #[trigger] byte_of(value, j) == if j < i + 1 { bytes@[j] as u64 } else { 0 } by {
                    lemma_byte_or(v0, b, (8 * i) as u64, (8 * j) as u64);
                    assert(value == v0 | (b << ((8 * i) as u64)));
                    assert(byte_of(value, j) == ((v0 | (b << ((8 * i) as u64))) >> ((8 * j) as u64)) & 0xff);
                    if j != i {
                        assert(byte_of(v0, j) == if j < i { bytes@[j] as u64 } else { 0 });
                    }
                }
                lemma_byte_or(v0, b, (8 * i) as u64, 56);
            }
            i = i + 1;
        }
        value
    }

    /// The field a wire value carries: `None` for a length of zero or over
    /// seven.
    pub fn unpack(value: u64) -> (r: Option<Field>)
        ensures
            ({
                let len = value >> 56u64;
                if len == 0 || len > 7 {
                    r is None
                } else {
                    &&& r is Some
                    &&& r->0.len == len
                    &&& forall|i: int| 0 <= i < 7 ==> #[trigger] r->0.bytes@[i] == if i < len { byte_of(value, i) as u8 } else { 0u8 }
                }
            }),
    {
        assert(value >> 56u64 <= 255) by (bit_vector);
        let len = (value >> 56u64) as usize;
        if len == 0 || len > MAX_WIRE_BYTES {
            return None;
        }
        let mut bytes: [u8; 7] = [0u8; 7];
        let mut i: usize = 0;
        while i < len
            invariant
                1 <= len <= 7,
                len == value >> 56u64,
                i <= len,
                forall|j: int| 0 <= j < 7 ==> #[trigger] bytes@[j] == if j < i { byte_of(value, j) as u8 } else { 0u8 },
            decreases len - i,
        {
            let b = ((value >> (8 * i as u64)) & 0xff) as u8;
            bytes[i] = b;
            i = i + 1;
        }
        Some(Field { len, bytes })
    }

    /// The field's bytes.
    pub fn as_slice(&self) -> (s: &[u8])
        requires
            self.len <= 7,
        ensures
            s@ == self.bytes@.subrange(0, self.len as int),
    {
        vstd::slice::slice_subrange(self.bytes.as_slice(), 0, self.len)
    }
}

/// A field of one to seven bytes survives packing and unpacking.
pub proof fn lemma_field_round_trip(v: u64, bytes: Seq<u8>)
    requires
        packed_as(v, bytes),
        1 <= bytes.len() <= 7,
    ensures
        v >> 56u64 == bytes.len(),
        forall|i: int| 0 <= i < bytes.len() ==> #[trigger] byte_of(v, i) as u8 == bytes[i],
{
    assert forall|i: int| 0 <= i < bytes.len() implies #[trigger] byte_of(v, i) as u8 == bytes[i] by {
        assert(byte_of(v, i) == bytes[i] as u64);
    }
}

/// A request decoded from a message.
#[derive(Clone, Copy, Debug, PartialEq, Eq)]
pub enum Request {
    Put { key: Field, payload: Field },
    Get { key: Field },
}

/// Why a message did not decode.
#[derive(Clone, Copy, Debug, PartialEq, Eq, Structural)]
pub enum DecodeError {
    UnknownTag,
    BadKey,
    BadPayload,
}

/// Whether a wire value carries a field at all.
pub open spec fn field_ok(v: u64) -> bool {
    1 <= v >> 56u64 <= 7
}

/// Decode a request: the tag first, then the key, then the payload.
pub fn decode(message: Message) -> (r: Result<Request, DecodeError>)
    ensures
        message.tag != TAG_PUT && message.tag != TAG_GET ==> r == Err::<Request, DecodeError>(DecodeError::UnknownTag),
        (message.tag == TAG_PUT || message.tag == TAG_GET) && !field_ok(message.a) ==> r == Err::<Request, DecodeError>(DecodeError::BadKey),
        message.tag == TAG_PUT && field_ok(message.a) && !field_ok(message.b) ==> r == Err::<Request, DecodeError>(DecodeError::BadPayload),
        message.tag == TAG_PUT && field_ok(message.a) && field_ok(message.b) ==> (r matches Ok(Request::Put { key, payload })
            && Field::unpack_ok(message.a, key) && Field::unpack_ok(message.b, payload)),
        message.tag == TAG_GET && field_ok(message.a) ==> (r matches Ok(Request::Get { key }) && Field::unpack_ok(message.a, key)),
{
    if message.tag == TAG_PUT {
        let key = match Field::unpack(message.a) {
            Some(k) => k,
            None => return Err(DecodeError::BadKey),
        };
        let payload = match Field::unpack(message.b) {
            Some(p) => p,
            None => return Err(DecodeError::BadPayload),
        };
        Ok(Request::Put { key, payload })
    } else if message.tag == TAG_GET {
        let key = match Field::unpack(message.a) {
            Some(k) => k,
            None => return Err(DecodeError::BadKey),
        };
        Ok(Request::Get { key })
    } else {
        Err(DecodeError::UnknownTag)
    }
}

impl Field {
    /// `f` is what unpacking `v` gives.
    pub open spec fn unpack_ok(v: u64, f: Field) -> bool {
        &&& f.len == v >> 56u64
        &&& forall|i: int| 0 <= i < 7 ==> #[trigger] f.bytes@[i] == if i < f.len { byte_of(v, i) as u8 } else { 0u8 }
    }
}

/// A success reply carrying `payload`.
pub fn ok(payload: u64) -> (m: Message)
    ensures
        m == (Message { tag: TAG_OK, a: payload, b: 0 }),
{
    Message { tag: TAG_OK, a: payload, b: 0 }
}

/// The key has no blob.
pub fn missing() -> (m: Message)
    ensures
        m == (Message { tag: TAG_MISSING, a: 0, b: 0 }),
{
    Message { tag: TAG_MISSING, a: 0, b: 0 }
}

/// The request did not decode.
pub fn bad_request() -> (m: Message)
    ensures
        m == (Message { tag: TAG_BAD_REQUEST, a: 0, b: 0 }),
{
    Message { tag: TAG_BAD_REQUEST, a: 0, b: 0 }
}

/// The backing store failed with `code`.
pub fn store_error(code: u64) -> (m: Message)
    ensures
        m == (Message { tag: TAG_STORE_ERROR, a: code, b: 0 }),
{
    Message { tag: TAG_STORE_ERROR, a: code, b: 0 }
}

} // verus!
