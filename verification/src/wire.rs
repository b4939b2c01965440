//! Byte-level helpers shared by the wire formats: little- and big-endian
//! word reads and byte-string comparison.
use vstd::prelude::*;
use vstd::string::StringSliceAdditionalSpecFns;

verus! {

/// Little-endian value of four bytes.
pub open spec fn le32(b0: u8, b1: u8, b2: u8, b3: u8) -> u32 {
    (b0 + b1 * 0x100 + b2 * 0x1_0000 + b3 * 0x100_0000) as u32
}

/// Big-endian value of four bytes.
pub open spec fn be32(b0: u8, b1: u8, b2: u8, b3: u8) -> u32 {
    (b3 + b2 * 0x100 + b1 * 0x1_0000 + b0 * 0x100_0000) as u32
}

/// Little-endian `u32` at `off` of `s`.
pub open spec fn le32_at(s: Seq<u8>, off: int) -> u32 {
    le32(s[off], s[off + 1], s[off + 2], s[off + 3])
}

/// Big-endian `u32` at `off` of `s`.
pub open spec fn be32_at(s: Seq<u8>, off: int) -> u32 {
    be32(s[off], s[off + 1], s[off + 2], s[off + 3])
}

/// Little-endian `u64` at `off` of `s`.
pub open spec fn le64_at(s: Seq<u8>, off: int) -> u64 {
    (le32_at(s, off) + le32_at(s, off + 4) * 0x1_0000_0000int) as u64
}

/// Little-endian bytes of a `u32`.
pub open spec fn le32_bytes(v: u32) -> Seq<u8> {
    seq![(v % 0x100) as u8, ((v / 0x100) % 0x100) as u8, ((v / 0x1_0000) % 0x100) as u8, (v / 0x100_0000) as u8]
}

/// Little-endian bytes of a `u64`.
pub open spec fn le64_bytes(v: u64) -> Seq<u8> {
    le32_bytes((v % 0x1_0000_0000) as u32) + le32_bytes((v / 0x1_0000_0000) as u32)
}

pub fn read_le32(s: &[u8], off: usize) -> (r: u32)
    requires
        off + 4 <= s.len(),
    ensures
        r == le32_at(s@, off as int),
{
    s[off] as u32 + (s[off + 1] as u32) * 0x100 + (s[off + 2] as u32) * 0x1_0000 + (s[off + 3] as u32)
        * 0x100_0000
}

pub fn read_be32(s: &[u8], off: usize) -> (r: u32)
    requires
        off + 4 <= s.len(),
    ensures
        r == be32_at(s@, off as int),
{
    s[off + 3] as u32 + (s[off + 2] as u32) * 0x100 + (s[off + 1] as u32) * 0x1_0000 + (s[off] as u32)
        * 0x100_0000
}

pub fn read_le64(s: &[u8], off: usize) -> (r: u64)
    requires
        off + 8 <= s.len(),
    ensures
        r == le64_at(s@, off as int),
{
    let lo = read_le32(s, off);
    let hi = read_le32(s, off + 4);
    lo as u64 + (hi as u64) * 0x1_0000_0000
}

/// Little-endian bytes of a `u32`, appended.
pub fn push_le32(out: &mut Vec<u8>, v: u32)
    ensures
        final(out)@ == old(out)@ + le32_bytes(v),
{
    out.push((v % 0x100) as u8);
    out.push(((v / 0x100) % 0x100) as u8);
    out.push(((v / 0x1_0000) % 0x100) as u8);
    out.push((v / 0x100_0000) as u8);
}

/// Decoding the little-endian bytes of `v` gives back `v`.
pub proof fn lemma_le32_round_trip(v: u32)
    ensures
        le32(le32_bytes(v)[0], le32_bytes(v)[1], le32_bytes(v)[2], le32_bytes(v)[3]) == v,
{
}

/// Byte-for-byte equality.
pub fn bytes_eq(a: &[u8], b: &[u8]) -> (r: bool)
    ensures
        r == (a@ == b@),
{
    if a.len() != b.len() {
        return false;
    }
    let mut i: usize = 0;
    while i < a.len()
        invariant
            a@.len() == b@.len(),
            i <= a@.len(),
            forall|j: int| 0 <= j < i ==> a@[j] == b@[j],
        decreases a@.len() - i,
    {
        if a[i] != b[i] {
            return false;
        }
        i = i + 1;
    }
    assert(a@ =~= b@);
    true
}

/// Copy of `s[lo..hi]`.
pub fn copy_range(s: &[u8], lo: usize, hi: usize) -> (r: Vec<u8>)
    requires
        lo <= hi <= s@.len(),
    ensures
        r@ == s@.subrange(lo as int, hi as int),
{
    let mut out: Vec<u8> = Vec::new();
    let mut i: usize = lo;
    while i < hi
        invariant
            lo <= i <= hi,
            hi <= s@.len(),
            out@ == s@.subrange(lo as int, i as int),
        decreases hi - i,
    {
        out.push(s[i]);
        i = i + 1;
        assert(out@ =~= s@.subrange(lo as int, i as int));
    }
    out
}

/// Write the little-endian bytes of `v` at `off`.
pub fn write_le32(out: &mut [u8], off: usize, v: u32)
    requires
        off + 4 <= old(out)@.len(),
    ensures
        final(out)@.len() == old(out)@.len(),
        final(out)@.subrange(off as int, off + 4) == le32_bytes(v),
        forall|i: int| 0 <= i < old(out)@.len() && !(off <= i < off + 4) ==> #[trigger] final(out)@[i] == old(out)@[i],
{
    out[off] = (v % 0x100) as u8;
    out[off + 1] = ((v / 0x100) % 0x100) as u8;
    out[off + 2] = ((v / 0x1_0000) % 0x100) as u8;
    out[off + 3] = (v / 0x100_0000) as u8;
    assert(out@.subrange(off as int, off + 4) =~= le32_bytes(v));
}

/// Decoding the little-endian bytes of a `u64` gives back the `u64`.
pub proof fn lemma_le64_round_trip(v: u64)
    ensures
        le64_bytes(v).len() == 8,
        le64_at(le64_bytes(v), 0) == v,
{
    let lo = (v % 0x1_0000_0000) as u32;
    let hi = (v / 0x1_0000_0000) as u32;
    lemma_le32_round_trip(lo);
    lemma_le32_round_trip(hi);
    assert(le32_at(le64_bytes(v), 0) == lo);
    assert(le32_at(le64_bytes(v), 4) == hi);
}

/// Write `src` into `out` at `off`.
pub fn write_bytes(out: &mut [u8], off: usize, src: &[u8])
    requires
        off + src@.len() <= old(out)@.len(),
    ensures
        final(out)@ == old(out)@.subrange(0, off as int) + src@ + old(out)@.subrange(off + src@.len(), old(out)@.len() as int),
{
    let ghost o = out@;
    let total = out.len();
    let mut j: usize = 0;
    while j < src.len()
        invariant
            off + src@.len() <= o.len(),
            total == o.len(),
            out@.len() == o.len(),
            j <= src@.len(),
            forall|k: int| 0 <= k < off ==> out@[k] == o[k],
            forall|k: int| 0 <= k < j ==> out@[off + k] == src@[k],
            forall|k: int| off + j <= k < o.len() ==> out@[k] == o[k],
        decreases src@.len() - j,
    {
        out[off + j] = src[j];
        j = j + 1;
    }
    assert(out@ =~= o.subrange(0, off as int) + src@ + o.subrange(off + src@.len(), o.len() as int));
}

/// Index of the first `b` in `s` at or after `i`, or `s.len()` when none is.
pub open spec fn find_byte(s: Seq<u8>, b: u8, i: int) -> int
    decreases s.len() - i,
{
    if i < 0 || i >= s.len() {
        s.len() as int
    } else if s[i] == b {
        i
    } else {
        find_byte(s, b, i + 1)
    }
}

/// Index of the first `b` in `s`, or `s.len()` when none is.
pub fn position_of(s: &[u8], b: u8) -> (r: usize)
    ensures
        r == find_byte(s@, b, 0),
        r <= s@.len(),
        forall|j: int| 0 <= j < r ==> s@[j] != b,
        r < s@.len() ==> s@[r as int] == b,
{
    let mut i: usize = 0;
    while i < s.len() && s[i] != b
        invariant
            i <= s@.len(),
            find_byte(s@, b, i as int) == find_byte(s@, b, 0),
            forall|j: int| 0 <= j < i ==> s@[j] != b,
        decreases s@.len() - i,
    {
        i = i + 1;
    }
    i
}

/// A UTF-8 continuation byte.
pub open spec fn cont(b: u8) -> bool {
    0x80 <= b <= 0xBF
}

/// Length of the well-formed UTF-8 sequence starting at `i` of `s`, or 0 when
/// none starts there (Unicode, table 3-7).
pub open spec fn utf8_seq_len(s: Seq<u8>, i: int) -> int {
    let n = s.len();
    let b0 = s[i];
    if b0 < 0x80 {
        1
    } else if 0xC2 <= b0 <= 0xDF {
        if i + 1 < n && cont(s[i + 1]) { 2 } else { 0 }
    } else if b0 == 0xE0 {
        if i + 2 < n && 0xA0 <= s[i + 1] <= 0xBF && cont(s[i + 2]) { 3 } else { 0 }
    } else if (0xE1 <= b0 <= 0xEC) || (0xEE <= b0 <= 0xEF) {
        if i + 2 < n && cont(s[i + 1]) && cont(s[i + 2]) { 3 } else { 0 }
    } else if b0 == 0xED {
        if i + 2 < n && 0x80 <= s[i + 1] <= 0x9F && cont(s[i + 2]) { 3 } else { 0 }
    } else if b0 == 0xF0 {
        if i + 3 < n && 0x90 <= s[i + 1] <= 0xBF && cont(s[i + 2]) && cont(s[i + 3]) { 4 } else { 0 }
    } else if 0xF1 <= b0 <= 0xF3 {
        if i + 3 < n && cont(s[i + 1]) && cont(s[i + 2]) && cont(s[i + 3]) { 4 } else { 0 }
    } else if b0 == 0xF4 {
        if i + 3 < n && 0x80 <= s[i + 1] <= 0x8F && cont(s[i + 2]) && cont(s[i + 3]) { 4 } else { 0 }
    } else {
        0
    }
}

/// Whether `s` from `i` on is a sequence of well-formed UTF-8 characters.
pub open spec fn utf8_from(s: Seq<u8>, i: int) -> bool
    decreases s.len() - i,
{
    if i < 0 || i >= s.len() {
        true
    } else {
        let n = utf8_seq_len(s, i);
        n > 0 && utf8_from(s, i + n)
    }
}

/// Whether `s` is well-formed UTF-8.
pub open spec fn is_utf8(s: Seq<u8>) -> bool {
    utf8_from(s, 0)
}

/// A well-formed first scalar, as the standard library's encoder checks it,
/// is a well-formed sequence of the same length by the Unicode table.
proof fn lemma_first_scalar_len(s: Seq<u8>)
    requires
        vstd::utf8::valid_first_scalar(s),
    ensures
        utf8_seq_len(s, 0) == vstd::utf8::length_of_first_scalar(s),
        utf8_seq_len(s, 0) > 0,
{
    let b0 = s[0];
    if vstd::utf8::is_leading_byte_width_2(b0) {
        let b1 = s[1];
        assert(vstd::utf8::codepoint_width_2(b0, b1) >= 0x80 && 0xc0 <= b0 <= 0xdf ==> b0 >= 0xc2) by (bit_vector);
    } else if vstd::utf8::is_leading_byte_width_3(b0) {
        let b1 = s[1];
        let b2 = s[2];
        assert(0xe0 <= b0 <= 0xef && 0x80 <= b1 <= 0xbf && vstd::utf8::codepoint_width_3(b0, b1, b2) >= 0x800
            && !(0xd800 <= vstd::utf8::codepoint_width_3(b0, b1, b2) <= 0xdfff)
            ==> (b0 == 0xe0 ==> b1 >= 0xa0) && (b0 == 0xed ==> b1 <= 0x9f)) by (bit_vector);
    } else if vstd::utf8::is_leading_byte_width_4(b0) {
        let b1 = s[1];
        let b2 = s[2];
        let b3 = s[3];
        assert(0xf0 <= b0 <= 0xf7 && 0x80 <= b1 <= 0xbf && 0x10000 <= vstd::utf8::codepoint_width_4(b0, b1, b2, b3) <= 0x10ffff
            ==> b0 <= 0xf4 && (b0 == 0xf0 ==> b1 >= 0x90) && (b0 == 0xf4 ==> b1 <= 0x8f)) by (bit_vector);
    }
}

/// The sequence length at `i` reads only the bytes from `i` on.
proof fn lemma_seq_len_suffix(s: Seq<u8>, i: int)
    requires
        0 <= i < s.len(),
    ensures
        utf8_seq_len(s, i) == utf8_seq_len(s.subrange(i, s.len() as int), 0),
{
    let t = s.subrange(i, s.len() as int);
    assert(t[0] == s[i]);
    if i + 1 < s.len() {
        assert(t[1] == s[i + 1]);
    }
    if i + 2 < s.len() {
        assert(t[2] == s[i + 2]);
    }
    if i + 3 < s.len() {
        assert(t[3] == s[i + 3]);
    }
}

/// Bytes that are well-formed UTF-8 from `i` on, as the standard library's
/// encoder sees it, are well-formed by the Unicode table.
proof fn lemma_valid_utf8_from(s: Seq<u8>, i: int)
    requires
        0 <= i <= s.len(),
        vstd::utf8::valid_utf8(s.subrange(i, s.len() as int)),
    ensures
        utf8_from(s, i),
    decreases s.len() - i,
{
    if i < s.len() {
        let t = s.subrange(i, s.len() as int);
        lemma_first_scalar_len(t);
        lemma_seq_len_suffix(s, i);
        let m = utf8_seq_len(s, i);
        assert(vstd::utf8::pop_first_scalar(t) =~= s.subrange(i + m, s.len() as int));
        lemma_valid_utf8_from(s, i + m);
    }
}

/// The bytes of a string are well-formed UTF-8.
pub proof fn lemma_str_is_utf8(s: &str)
    ensures
        is_utf8(s.spec_bytes()),
{
    let b = s.spec_bytes();
    vstd::utf8::encode_utf8_valid_utf8(s@);
    assert(b.subrange(0, b.len() as int) =~= b);
    lemma_valid_utf8_from(b, 0);
}

fn in_range(b: u8, lo: u8, hi: u8) -> (r: bool)
    ensures
        r == (lo <= b <= hi),
{
    lo <= b && b <= hi
}

fn utf8_len_at(s: &[u8], i: usize) -> (r: usize)
    requires
        i < s@.len(),
    ensures
        r == utf8_seq_len(s@, i as int),
{
    let n = s.len();
    let b0 = s[i];
    if b0 < 0x80 {
        1
    } else if in_range(b0, 0xC2, 0xDF) {
        if 1 < n - i && in_range(s[i + 1], 0x80, 0xBF) { 2 } else { 0 }
    } else if b0 == 0xE0 {
        if 2 < n - i && in_range(s[i + 1], 0xA0, 0xBF) && in_range(s[i + 2], 0x80, 0xBF) { 3 } else { 0 }
    } else if in_range(b0, 0xE1, 0xEC) || in_range(b0, 0xEE, 0xEF) {
        if 2 < n - i && in_range(s[i + 1], 0x80, 0xBF) && in_range(s[i + 2], 0x80, 0xBF) { 3 } else { 0 }
    } else if b0 == 0xED {
        if 2 < n - i && in_range(s[i + 1], 0x80, 0x9F) && in_range(s[i + 2], 0x80, 0xBF) { 3 } else { 0 }
    } else if b0 == 0xF0 {
        if 3 < n - i && in_range(s[i + 1], 0x90, 0xBF) && in_range(s[i + 2], 0x80, 0xBF) && in_range(s[i + 3], 0x80, 0xBF) {
            4
        } else {
            0
        }
    } else if in_range(b0, 0xF1, 0xF3) {
        if 3 < n - i && in_range(s[i + 1], 0x80, 0xBF) && in_range(s[i + 2], 0x80, 0xBF) && in_range(s[i + 3], 0x80, 0xBF) {
            4
        } else {
            0
        }
    } else if b0 == 0xF4 {
        if 3 < n - i && in_range(s[i + 1], 0x80, 0x8F) && in_range(s[i + 2], 0x80, 0xBF) && in_range(s[i + 3], 0x80, 0xBF) {
            4
        } else {
            0
        }
    } else {
        0
    }
}

/// Whether `s` is well-formed UTF-8.
pub fn utf8_valid(s: &[u8]) -> (r: bool)
    ensures
        r == is_utf8(s@),
{
    let mut i: usize = 0;
    while i < s.len()
        invariant
            i <= s@.len(),
            is_utf8(s@) == utf8_from(s@, i as int),
        decreases s@.len() - i,
    {
        let n = utf8_len_at(s, i);
        if n == 0 {
            return false;
        }
        if n > s.len() - i {
            return false;
        }
        i = i + n;
    }
    true
}

/// `core::str::from_utf8`, as an `Option`. Claimed of it: it succeeds exactly
/// when the bytes are well-formed UTF-8 (`is_utf8`), and the string it then
/// gives is made of those same bytes.
#[verifier::external_body]
pub(crate) fn str_from_utf8(b: &[u8]) -> (r: Option<&str>)
    ensures
        r is Some <==> is_utf8(b@),
        r is Some ==> r->0.spec_bytes() == b@,
{
    core::str::from_utf8(b).ok()
}

} // verus!
