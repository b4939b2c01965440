//! Durable multi-blob wire format: fixed-capacity encoding into a byte
//! buffer. Not a filesystem.
//!
//! A 16-byte header (magic, version, count, zero), then one record per blob:
//! the key length, the key, the payload length in two little-endian bytes,
//! the payload.
use vstd::prelude::*;
use crate::wire::{le32_at, le32_bytes, read_le32, write_bytes, write_le32, lemma_le32_round_trip};

verus! {

/// `b"DURB"` little-endian.
pub const MAGIC: u32 = 0x4252_5544;
pub const VERSION: u32 = 1;
pub const MAX_BLOBS: usize = 4;
pub const MAX_KEY_LEN: usize = 16;
pub const MAX_PAYLOAD: usize = 64;
/// Header and four records, worst case.
pub const REGION_SIZE: usize = 4096;

/// Why [`encode`] refused.
#[derive(Clone, Copy, Debug, PartialEq, Eq, Structural)]
pub enum EncodeError {
    TooLarge,
    BadKey,
}

/// Why [`decode`] refused.
#[derive(Clone, Copy, Debug, PartialEq, Eq, Structural)]
pub enum DecodeError {
    TooShort,
    BadMagic,
    BadVersion,
    BadCount,
    Truncated,
    BadKey,
}

/// One blob to encode.
#[derive(Clone, Copy, Debug, PartialEq, Eq)]
pub struct Blob<'a> {
    pub key: &'a [u8],
    pub payload: &'a [u8],
}

/// The encoded record of one blob.
pub open spec fn record_bytes(key: Seq<u8>, payload: Seq<u8>) -> Seq<u8> {
    seq![key.len() as u8] + key + seq![(payload.len() % 256) as u8, (payload.len() / 256) as u8] + payload
}

/// The records of the first `n` blobs, in order.
pub open spec fn records(blobs: Seq<Blob>, n: int) -> Seq<u8>
    decreases n,
{
    if n <= 0 {
        Seq::empty()
    } else {
        records(blobs, n - 1) + record_bytes(blobs[n - 1].key@, blobs[n - 1].payload@)
    }
}

/// The header for `count` blobs.
pub open spec fn region_header(count: u32) -> Seq<u8> {
    le32_bytes(MAGIC) + le32_bytes(VERSION) + le32_bytes(count) + le32_bytes(0)
}

/// Why blob `b` cannot be written at `off` of a buffer of `len` bytes.
pub open spec fn record_fault(b: Blob, off: int, len: int) -> Option<EncodeError> {
    if b.key@.len() == 0 || b.key@.len() > MAX_KEY_LEN {
        Some(EncodeError::BadKey)
    } else if b.payload@.len() > MAX_PAYLOAD {
        Some(EncodeError::TooLarge)
    } else if off + b.key@.len() + 3 + b.payload@.len() > len {
        Some(EncodeError::TooLarge)
    } else {
        None
    }
}

/// Whether blob `i` is the one that cannot be written.
pub open spec fn faults_at(blobs: Seq<Blob>, len: int, i: int) -> bool {
    record_fault(blobs[i], 16 + records(blobs, i).len() as int, len) is Some
}

/// The first blob at or after `from` that cannot be written (`blobs.len()`
/// if none).
pub open spec fn first_fault(blobs: Seq<Blob>, len: int, from: int) -> int
    decreases blobs.len() - from,
{
    if from < 0 || from >= blobs.len() {
        blobs.len() as int
    } else if faults_at(blobs, len, from) {
        from
    } else {
        first_fault(blobs, len, from + 1)
    }
}

proof fn lemma_first_fault(blobs: Seq<Blob>, len: int, from: int)
    requires
        0 <= from <= blobs.len(),
    ensures
        from <= first_fault(blobs, len, from) <= blobs.len(),
        first_fault(blobs, len, from) < blobs.len() ==> faults_at(blobs, len, first_fault(blobs, len, from)),
    decreases blobs.len() - from,
{
    if from < blobs.len() && !faults_at(blobs, len, from) {
        lemma_first_fault(blobs, len, from + 1);
    }
}

/// Encode `blobs` into `out`, zeroing the unused tail; returns the bytes
/// used. A blob that cannot be written stops the encoding with the records
/// before it in place.
pub fn encode(blobs: &[Blob], out: &mut [u8]) -> (r: Result<usize, EncodeError>)
    ensures
        final(out)@.len() == old(out)@.len(),
        old(out)@.len() < 16 || blobs@.len() > MAX_BLOBS ==> r == Err::<usize, EncodeError>(EncodeError::TooLarge)
            && final(out)@ == old(out)@,
        !(old(out)@.len() < 16 || blobs@.len() > MAX_BLOBS) ==> ({
            let len = old(out)@.len() as int;
            let f = first_fault(blobs@, len, 0);
            let body = region_header(blobs@.len() as u32) + records(blobs@, f);
            &&& final(out)@ == body + Seq::new((len - body.len()) as nat, |i: int| 0u8)
            &&& f < blobs@.len() ==> r == Err::<usize, EncodeError>(record_fault(blobs@[f], body.len() as int, len)->0)
            &&& f == blobs@.len() ==> r == Ok::<usize, EncodeError>(body.len() as usize)
        }),
{
    if out.len() < 16 {
        return Err(EncodeError::TooLarge);
    }
    if blobs.len() > MAX_BLOBS {
        return Err(EncodeError::TooLarge);
    }
    let len = out.len();
    let mut z: usize = 0;
    while z < len
        invariant
            out@.len() == len,
            z <= len,
            forall|k: int| 0 <= k < z ==> out@[k] == 0u8,
        decreases len - z,
    {
        out[z] = 0;
        z = z + 1;
    }
    write_le32(out, 0, MAGIC);
    write_le32(out, 4, VERSION);
    write_le32(out, 8, blobs.len() as u32);
    write_le32(out, 12, 0);
    let ghost n = blobs@.len();
    let ghost hdr = region_header(n as u32);
    assert(out@ =~= hdr + Seq::new((len - 16) as nat, |i: int| 0u8));
    proof {
        lemma_first_fault(blobs@, len as int, 0);
    }
    let mut off: usize = 16;
    let mut i: usize = 0;
    while i < blobs.len()
        invariant
            n == blobs@.len(),
            n <= MAX_BLOBS,
            len == out@.len(),
            len == old(out)@.len(),
            hdr == region_header(n as u32),
            16 <= len,
            i <= n,
            off == 16 + records(blobs@, i as int).len(),
            off <= len,
            off <= 16 + i * 83,
            out@ == hdr + records(blobs@, i as int) + Seq::new((len - off) as nat, |k: int| 0u8),
            first_fault(blobs@, len as int, 0) == first_fault(blobs@, len as int, i as int),
        decreases n - i,
    {
        let b = blobs[i];
        let klen = b.key.len();
        if klen == 0 || klen > MAX_KEY_LEN {
            assert(faults_at(blobs@, len as int, i as int));
            return Err(EncodeError::BadKey);
        }
        let plen = b.payload.len();
        if plen > MAX_PAYLOAD {
            assert(faults_at(blobs@, len as int, i as int));
            return Err(EncodeError::TooLarge);
        }
        let need = klen + 3 + plen;
        if off + need > len {
            assert(faults_at(blobs@, len as int, i as int));
            return Err(EncodeError::TooLarge);
        }
        assert(!faults_at(blobs@, len as int, i as int));
        let mut rec: Vec<u8> = Vec::new();
        rec.push(klen as u8);
        let mut k: usize = 0;
        while k < klen
            invariant
                klen == b.key@.len(),
                k <= klen,
                rec@ == seq![klen as u8] + b.key@.subrange(0, k as int),
            decreases klen - k,
        {
            rec.push(b.key[k]);
            k = k + 1;
            assert(rec@ =~= seq![klen as u8] + b.key@.subrange(0, k as int));
        }
        rec.push((plen % 256) as u8);
        rec.push((plen / 256) as u8);
        let mut q: usize = 0;
        let ghost pre = rec@;
        while q < plen
            invariant
                plen == b.payload@.len(),
                q <= plen,
                rec@ == pre + b.payload@.subrange(0, q as int),
            decreases plen - q,
        {
            rec.push(b.payload[q]);
            q = q + 1;
            assert(rec@ =~= pre + b.payload@.subrange(0, q as int));
        }
        assert(rec@ =~= record_bytes(b.key@, b.payload@));
        let ghost before = out@;
        write_bytes(out, off, rec.as_slice());
        let ghost prev = records(blobs@, i as int);
        assert(records(blobs@, i + 1) == prev + record_bytes(b.key@, b.payload@));
        assert(before.subrange(0, off as int) =~= hdr + prev);
        assert(before.subrange(off + rec@.len(), len as int) =~= Seq::new((len - off - rec@.len()) as nat, |k: int| 0u8));
        off = off + need;
        i = i + 1;
        assert(out@ =~= hdr + records(blobs@, i as int) + Seq::new((len - off) as nat, |k: int| 0u8));
    }
    Ok(off)
}

/// What parsing the record at `off` of `buf` gives: its key and payload and
/// the offset after it; or the refusal, with the key when the key was read
/// before the payload failed.
pub open spec fn parse_record(buf: Seq<u8>, off: int) -> Result<(Seq<u8>, Seq<u8>, int), (DecodeError, Option<Seq<u8>>)> {
    if off >= buf.len() {
        Err((DecodeError::Truncated, None))
    } else {
        let klen = buf[off] as int;
        let k0 = off + 1;
        if klen == 0 || klen > MAX_KEY_LEN {
            Err((DecodeError::BadKey, None))
        } else if k0 + klen > buf.len() {
            Err((DecodeError::Truncated, None))
        } else {
            let key = buf.subrange(k0, k0 + klen);
            let p = k0 + klen;
            if p + 1 >= buf.len() {
                Err((DecodeError::Truncated, Some(key)))
            } else {
                let plen = buf[p] + buf[p + 1] * 256;
                if plen > MAX_PAYLOAD {
                    Err((DecodeError::Truncated, Some(key)))
                } else if p + 2 + plen > buf.len() {
                    Err((DecodeError::Truncated, Some(key)))
                } else {
                    Ok((key, buf.subrange(p + 2, p + 2 + plen), p + 2 + plen))
                }
            }
        }
    }
}

/// Parsing `count - i` records from `off`: the records read, and the refusal
/// that stopped the parse, if any.
pub open spec fn parse_from(buf: Seq<u8>, count: int, i: int, off: int) -> (Seq<(Seq<u8>, Seq<u8>)>, Option<(DecodeError, Option<Seq<u8>>)>)
    decreases count - i,
{
    if i >= count {
        (Seq::empty(), None)
    } else {
        match parse_record(buf, off) {
            Err(e) => (Seq::empty(), Some(e)),
            Ok((key, payload, next)) => {
                let rest = parse_from(buf, count, i + 1, next);
                (seq![(key, payload)] + rest.0, rest.1)
            },
        }
    }
}

/// Why the header of `buf` is refused, if it is.
pub open spec fn header_fault(buf: Seq<u8>) -> Option<DecodeError> {
    if buf.len() < 16 {
        Some(DecodeError::TooShort)
    } else if le32_at(buf, 0) != MAGIC {
        Some(DecodeError::BadMagic)
    } else if le32_at(buf, 4) != VERSION {
        Some(DecodeError::BadVersion)
    } else if le32_at(buf, 8) > MAX_BLOBS {
        Some(DecodeError::BadCount)
    } else {
        None
    }
}

/// The key a refused record had already read, if any.
pub open spec fn fault_key(fault: Option<(DecodeError, Option<Seq<u8>>)>) -> Option<Seq<u8>> {
    match fault {
        Some((_, k)) => k,
        None => None,
    }
}

/// Scratch row `row` with its prefix replaced by `bytes`.
pub open spec fn filled(row: Seq<u8>, bytes: Seq<u8>) -> Seq<u8> {
    bytes + row.subrange(bytes.len() as int, row.len() as int)
}

/// Decode into caller-owned scratch: record `i`'s key fills the front of
/// `keys[i]` (length in `key_lens[i]`), its payload the front of
/// `payloads[i]`. Returns the count. A refused record stops the decode with
/// the records before it (and its own key, if read) in place.
pub fn decode(
    buf: &[u8],
    keys: &mut [[u8; 16]; 4],
    key_lens: &mut [usize; 4],
    payloads: &mut [[u8; 64]; 4],
    payload_lens: &mut [usize; 4],
) -> (r: Result<usize, DecodeError>)
    ensures
        header_fault(buf@) is Some ==> r == Err::<usize, DecodeError>(header_fault(buf@)->0)
            && final(keys)@ == old(keys)@ && final(key_lens)@ == old(key_lens)@
            && final(payloads)@ == old(payloads)@ && final(payload_lens)@ == old(payload_lens)@,
        header_fault(buf@) is None ==> ({
            let count = le32_at(buf@, 8) as int;
            let (recs, fault) = parse_from(buf@, count, 0, 16);
            let n = recs.len() as int;
            &&& fault is None ==> r == Ok::<usize, DecodeError>(count as usize) && n == count
            &&& fault is Some ==> r == Err::<usize, DecodeError>((fault->0).0) && n < count
            &&& forall|j: int| 0 <= j < n ==> {
                &&& #[trigger] final(key_lens)@[j] == recs[j].0.len()
                &&& final(keys)@[j]@ == filled(old(keys)@[j]@, recs[j].0)
                &&& final(payload_lens)@[j] == recs[j].1.len()
                &&& final(payloads)@[j]@ == filled(old(payloads)@[j]@, recs[j].1)
            }
            &&& forall|j: int| n <= j < 4 ==> #[trigger] final(payload_lens)@[j] == old(payload_lens)@[j]
                && final(payloads)@[j] == old(payloads)@[j]
            &&& forall|j: int| n <= j < 4 ==> {
                if j == n && fault_key(fault) is Some {
                    &&& #[trigger] final(key_lens)@[j] == fault_key(fault)->0.len()
                    &&& final(keys)@[j]@ == filled(old(keys)@[j]@, fault_key(fault)->0)
                } else {
                    &&& final(key_lens)@[j] == old(key_lens)@[j]
                    &&& final(keys)@[j] == old(keys)@[j]
                }
            }
        }),
{
    if buf.len() < 16 {
        return Err(DecodeError::TooShort);
    }
    if read_le32(buf, 0) != MAGIC {
        return Err(DecodeError::BadMagic);
    }
    if read_le32(buf, 4) != VERSION {
        return Err(DecodeError::BadVersion);
    }
    let count32 = read_le32(buf, 8);
    if count32 as usize > MAX_BLOBS {
        return Err(DecodeError::BadCount);
    }
    let count = count32 as usize;
    let ghost ok0 = old(keys)@;
    let ghost ol0 = old(key_lens)@;
    let ghost op0 = old(payloads)@;
    let ghost opl0 = old(payload_lens)@;
    let ghost recs = parse_from(buf@, count as int, 0, 16).0;
    let ghost fault = parse_from(buf@, count as int, 0, 16).1;
    let ghost mut done: Seq<(Seq<u8>, Seq<u8>)> = Seq::empty();
    let total = buf.len();
    let mut off: usize = 16;
    let mut i: usize = 0;
    assert(recs =~= done + parse_from(buf@, count as int, 0, 16).0);
    while i < count
        invariant
            header_fault(buf@) is None,
            total == buf@.len(),
            count <= MAX_BLOBS,
            count == le32_at(buf@, 8),
            i <= count,
            16 <= off <= total,
            done.len() == i,
            recs == parse_from(buf@, count as int, 0, 16).0,
            fault == parse_from(buf@, count as int, 0, 16).1,
            recs == done + parse_from(buf@, count as int, i as int, off as int).0,
            fault == parse_from(buf@, count as int, i as int, off as int).1,
            forall|j: int| 0 <= j < i ==> #[trigger] key_lens@[j] == done[j].0.len(),
            forall|j: int| 0 <= j < i ==> (#[trigger] keys@[j])@ == filled(ok0[j]@, done[j].0),
            forall|j: int| 0 <= j < i ==> #[trigger] payload_lens@[j] == done[j].1.len(),
            forall|j: int| 0 <= j < i ==> (#[trigger] payloads@[j])@ == filled(op0[j]@, done[j].1),
            ok0 == old(keys)@,
            ol0 == old(key_lens)@,
            op0 == old(payloads)@,
            opl0 == old(payload_lens)@,
            forall|j: int| i <= j < 4 ==> #[trigger] key_lens@[j] == ol0[j],
            forall|j: int| i <= j < 4 ==> #[trigger] keys@[j] == ok0[j],
            forall|j: int| i <= j < 4 ==> #[trigger] payload_lens@[j] == opl0[j],
            forall|j: int| i <= j < 4 ==> #[trigger] payloads@[j] == op0[j],
        decreases count - i,
    {
        let ghost off0 = off as int;
        let ghost done0 = done;
        if off >= buf.len() {
            proof {
                lemma_stop(buf@, count as int, i as int, off0, DecodeError::Truncated, None);
                assert(recs =~= done);
            }
            return Err(DecodeError::Truncated);
        }
        let klen = buf[off] as usize;
        off = off + 1;
        if klen == 0 || klen > MAX_KEY_LEN {
            proof {
                lemma_stop(buf@, count as int, i as int, off0, DecodeError::BadKey, None);
                assert(recs =~= done);
            }
            return Err(DecodeError::BadKey);
        }
        if klen > buf.len() - off {
            proof {
                lemma_stop(buf@, count as int, i as int, off0, DecodeError::Truncated, None);
                assert(recs =~= done);
            }
            return Err(DecodeError::Truncated);
        }
        let mut krow: [u8; 16] = keys[i];
        let mut k: usize = 0;
        while k < klen
            invariant
                klen <= 16,
                off + klen <= total,
                total == buf@.len(),
                k <= klen,
                krow@.len() == 16,
                forall|t: int| 0 <= t < k ==> krow@[t] == buf@[off + t],
                forall|t: int| k <= t < 16 ==> krow@[t] == ok0[i as int]@[t],
            decreases klen - k,
        {
            krow[k] = buf[off + k];
            k = k + 1;
        }
        let ghost key = buf@.subrange(off as int, off + klen);
        assert(krow@ =~= filled(ok0[i as int]@, key));
        keys[i] = krow;
        key_lens[i] = klen;
        off = off + klen;
        if off >= buf.len() - 1 {
            proof {
                lemma_stop(buf@, count as int, i as int, off0, DecodeError::Truncated, Some(key));
                assert(recs =~= done);
            }
            return Err(DecodeError::Truncated);
        }
        let plen = buf[off] as usize + (buf[off + 1] as usize) * 256;
        off = off + 2;
        if plen > MAX_PAYLOAD {
            proof {
                lemma_stop(buf@, count as int, i as int, off0, DecodeError::Truncated, Some(key));
                assert(recs =~= done);
            }
            return Err(DecodeError::Truncated);
        }
        if plen > buf.len() - off {
            proof {
                lemma_stop(buf@, count as int, i as int, off0, DecodeError::Truncated, Some(key));
                assert(recs =~= done);
            }
            return Err(DecodeError::Truncated);
        }
        let mut prow: [u8; 64] = payloads[i];
        let mut q: usize = 0;
        while q < plen
            invariant
                plen <= 64,
                off + plen <= total,
                total == buf@.len(),
                q <= plen,
                prow@.len() == 64,
                forall|t: int| 0 <= t < q ==> prow@[t] == buf@[off + t],
                forall|t: int| q <= t < 64 ==> prow@[t] == op0[i as int]@[t],
            decreases plen - q,
        {
            prow[q] = buf[off + q];
            q = q + 1;
        }
        let ghost payload = buf@.subrange(off as int, off + plen);
        assert(prow@ =~= filled(op0[i as int]@, payload));
        payloads[i] = prow;
        payload_lens[i] = plen;
        off = off + plen;
        proof {
            assert(parse_record(buf@, off0) == Ok::<(Seq<u8>, Seq<u8>, int), (DecodeError, Option<Seq<u8>>)>((key, payload, off as int)));
            let rest = parse_from(buf@, count as int, i + 1, off as int);
            assert(parse_from(buf@, count as int, i as int, off0).0 == seq![(key, payload)] + rest.0);
            assert(recs =~= done.push((key, payload)) + rest.0);
            done = done.push((key, payload));
            assert forall|j: int| 0 <= j < i implies done[j] == done0[j] by {}
        }
        i = i + 1;
    }
    assert(recs =~= done);
    Ok(count)
}

/// The error a record refusal answers.
pub open spec fn stop(e: DecodeError, key: Option<Seq<u8>>) -> Result<(Seq<u8>, Seq<u8>, int), (DecodeError, Option<Seq<u8>>)> {
    Err((e, key))
}

proof fn lemma_stop(buf: Seq<u8>, count: int, i: int, off: int, e: DecodeError, key: Option<Seq<u8>>)
    requires
        i < count,
        parse_record(buf, off) == stop(e, key),
    ensures
        parse_from(buf, count, i, off) == (Seq::<(Seq<u8>, Seq<u8>)>::empty(), Some((e, key))),
{
}

/// A record written by [`encode`] parses back to the same key and payload.
pub proof fn lemma_record_round_trip(key: Seq<u8>, payload: Seq<u8>, prefix: Seq<u8>, suffix: Seq<u8>)
    requires
        0 < key.len() <= MAX_KEY_LEN,
        payload.len() <= MAX_PAYLOAD,
    ensures
        parse_record(prefix + record_bytes(key, payload) + suffix, prefix.len() as int) == Ok::<
            (Seq<u8>, Seq<u8>, int),
            (DecodeError, Option<Seq<u8>>),
        >((key, payload, (prefix.len() + record_bytes(key, payload).len()) as int)),
{
    let buf = prefix + record_bytes(key, payload) + suffix;
    let off = prefix.len() as int;
    let k0 = off + 1;
    let p = k0 + key.len();
    assert(buf[off] == key.len() as u8);
    assert(buf.subrange(k0, k0 + key.len()) =~= key);
    assert(buf[p] == (payload.len() % 256) as u8);
    assert(buf[p + 1] == (payload.len() / 256) as u8);
    assert(buf.subrange(p + 2, p + 2 + payload.len()) =~= payload);
}

/// The header [`encode`] writes is one [`decode`] accepts, with its count.
pub proof fn lemma_header_round_trip(count: u32, rest: Seq<u8>)
    requires
        count <= MAX_BLOBS,
    ensures
        header_fault(region_header(count) + rest) is None,
        le32_at(region_header(count) + rest, 8) == count,
{
    let b = region_header(count) + rest;
    lemma_le32_round_trip(MAGIC);
    lemma_le32_round_trip(VERSION);
    lemma_le32_round_trip(count);
    assert(b[0] == le32_bytes(MAGIC)[0] && b[1] == le32_bytes(MAGIC)[1] && b[2] == le32_bytes(MAGIC)[2] && b[3] == le32_bytes(MAGIC)[3]);
    assert(b[4] == le32_bytes(VERSION)[0] && b[5] == le32_bytes(VERSION)[1] && b[6] == le32_bytes(VERSION)[2] && b[7] == le32_bytes(VERSION)[3]);
    assert(b[8] == le32_bytes(count)[0] && b[9] == le32_bytes(count)[1] && b[10] == le32_bytes(count)[2] && b[11] == le32_bytes(count)[3]);
}

proof fn lemma_records_prefix(blobs: Seq<Blob>, i: int, n: int)
    requires
        0 <= i <= n,
    ensures
        records(blobs, i).len() <= records(blobs, n).len(),
        records(blobs, n).subrange(0, records(blobs, i).len() as int) == records(blobs, i),
    decreases n - i,
{
    if i < n {
        lemma_records_prefix(blobs, i, n - 1);
        let a = records(blobs, n - 1);
        let b = records(blobs, i);
        assert(records(blobs, n).subrange(0, b.len() as int) =~= a.subrange(0, b.len() as int));
    } else {
        assert(records(blobs, n).subrange(0, records(blobs, n).len() as int) =~= records(blobs, n));
    }
}

/// The records from `i` on parse back as the blobs they were written from.
proof fn lemma_parse_records(blobs: Seq<Blob>, buf: Seq<u8>, n: int, i: int, len: int)
    requires
        0 <= i <= n,
        n == blobs.len(),
        first_fault(blobs, len, 0) == n,
        buf.subrange(0, 16 + records(blobs, n).len() as int) == region_header(n as u32) + records(blobs, n),
        16 + records(blobs, n).len() as int <= buf.len(),
    ensures
        parse_from(buf, n, i, 16 + records(blobs, i).len() as int) == (
            Seq::new((n - i) as nat, |j: int| (blobs[i + j].key@, blobs[i + j].payload@)),
            None::<(DecodeError, Option<Seq<u8>>)>,
        ),
    decreases n - i,
{
    if i < n {
        let b = blobs[i];
        assert(!faults_at(blobs, len, i)) by {
            lemma_first_fault_none(blobs, len, 0, i);
        }
        let prefix = buf.subrange(0, 16 + records(blobs, i).len() as int);
        let rec = record_bytes(b.key@, b.payload@);
        let suffix = buf.subrange(16 + records(blobs, i + 1).len() as int, buf.len() as int);
        lemma_records_prefix(blobs, i + 1, n);
        assert(records(blobs, i + 1) == records(blobs, i) + rec);
        assert(buf =~= prefix + rec + suffix) by {
            let body = region_header(n as u32) + records(blobs, n);
            assert forall|k: int| 0 <= k < buf.len() implies #[trigger] buf[k] == (prefix + rec + suffix)[k] by {
                if k >= 16 + records(blobs, i).len() as int && k < 16 + records(blobs, i + 1).len() as int {
                    assert(buf[k] == buf.subrange(0, 16 + records(blobs, n).len() as int)[k]);
                    assert(body[k] == records(blobs, n)[k - 16]);
                    assert(records(blobs, n)[k - 16] == records(blobs, n).subrange(0, records(blobs, i + 1).len() as int)[k - 16]);
                }
            }
        }
        lemma_record_round_trip(b.key@, b.payload@, prefix, suffix);
        lemma_parse_records(blobs, buf, n, i + 1, len);
        assert(seq![(b.key@, b.payload@)] + Seq::new((n - i - 1) as nat, |j: int| (blobs[i + 1 + j].key@, blobs[i + 1 + j].payload@))
            =~= Seq::new((n - i) as nat, |j: int| (blobs[i + j].key@, blobs[i + j].payload@)));
    } else {
        assert(Seq::<(Seq<u8>, Seq<u8>)>::empty() =~= Seq::new(0, |j: int| (blobs[i + j].key@, blobs[i + j].payload@)));
    }
}

proof fn lemma_first_fault_none(blobs: Seq<Blob>, len: int, from: int, i: int)
    requires
        0 <= from <= i < blobs.len(),
        first_fault(blobs, len, from) == blobs.len(),
    ensures
        !faults_at(blobs, len, i),
    decreases i - from,
{
    if from < i {
        lemma_first_fault_none(blobs, len, from + 1, i);
    }
}

/// Encode then decode gives the blobs back: a region that [`encode`] wrote
/// for blobs it accepted passes the header checks, counts those blobs, and
/// parses back to each key and payload in order.
pub proof fn lemma_region_round_trip(blobs: Seq<Blob>, len: int)
    requires
        blobs.len() <= MAX_BLOBS,
        len >= 16,
        first_fault(blobs, len, 0) == blobs.len(),
    ensures
        ({
            let body = region_header(blobs.len() as u32) + records(blobs, blobs.len() as int);
            let buf = body + Seq::new((len - body.len()) as nat, |i: int| 0u8);
            &&& header_fault(buf) is None
            &&& le32_at(buf, 8) == blobs.len()
            &&& parse_from(buf, blobs.len() as int, 0, 16) == (
                Seq::new(blobs.len(), |j: int| (blobs[j].key@, blobs[j].payload@)),
                None::<(DecodeError, Option<Seq<u8>>)>,
            )
        }),
{
    let n = blobs.len() as int;
    let body = region_header(n as u32) + records(blobs, n);
    let zeros = Seq::new((len - body.len()) as nat, |i: int| 0u8);
    let buf = body + zeros;
    if n > 0 {
        assert(!faults_at(blobs, len, n - 1)) by {
            lemma_first_fault_none(blobs, len, 0, n - 1);
        }
    }
    assert(body.len() <= len);
    lemma_header_round_trip(n as u32, records(blobs, n) + zeros);
    assert(buf =~= region_header(n as u32) + (records(blobs, n) + zeros));
    assert(buf.subrange(0, 16 + records(blobs, n).len() as int) =~= body);
    assert(records(blobs, 0) =~= Seq::<u8>::empty());
    lemma_parse_records(blobs, buf, n, 0, len);
    assert(Seq::new((n - 0) as nat, |j: int| (blobs[0 + j].key@, blobs[0 + j].payload@))
        =~= Seq::new(blobs.len(), |j: int| (blobs[j].key@, blobs[j].payload@)));
}


} // verus!
