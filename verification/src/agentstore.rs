//! External agent store wire format: a packed composition of agents that may
//! sit outside the kernel image. The loader maps a physical range and calls
//! [`parse`]; no MMIO lives here.
//!
//! A 16-byte header (magic, version, count, reserved), then one record per
//! agent: a 16-byte NUL-padded UTF-8 name, text and stack pages, four slot
//! indices, a reserved word carrying the home CPU, a device word carrying a
//! window index, the window's virtual address, the image length and the image,
//! padded to four bytes.
use vstd::prelude::*;
use vstd::string::StringSliceAdditionalSpecFns;
use crate::manifest::{AgentEntry, DeviceGrant};
use crate::tasks::N_CPUS;
use crate::wire::{is_utf8, lemma_str_is_utf8, le32_at, le32_bytes, le64_at, le64_bytes, lemma_le32_round_trip, lemma_le64_round_trip, push_le32, read_le32, read_le64, utf8_valid};

verus! {

/// `b"HARB"` little-endian.
pub const MAGIC: u32 = 0x4252_4148;

/// Format version accepted by this parser. Version 1 is refused rather than
/// read with defaults.
pub const VERSION: u32 = 2;

/// Hard cap on agents in one store: a wire-format bound.
pub const MAX_AGENTS: usize = 8;

/// Fixed name field width (UTF-8, NUL-padded).
pub const NAME_LEN: usize = 16;

/// Empty slot marker in the wire format.
pub const SLOT_NONE: u8 = 0xFF;

/// "No device window" marker in the wire format.
pub const WINDOW_NONE: u8 = 0xFF;

/// Why a store could not be parsed.
#[derive(Clone, Copy, Debug, PartialEq, Eq, Structural)]
pub enum ParseError {
    TooShort,
    BadMagic,
    BadVersion,
    BadCount,
    Truncated,
    BadName,
    BadGeometry,
    ImageTooLarge,
    /// Reserved word high bytes non-zero, or a home CPU out of range.
    BadHome,
    /// The device word's high bytes are non-zero, a window index came with an
    /// unaligned virtual address, or no window came with a non-zero one.
    BadWindow,
}

/// One agent record borrowing image bytes from the store blob.
#[derive(Clone, Copy, Debug)]
pub struct StoreAgent<'a> {
    pub name: &'a [u8],
    pub text_pages: u32,
    pub stack_pages: u32,
    pub slots: [u8; 4],
    /// Sticky home CPU: low byte of the wire reserved word.
    pub home_cpu: u8,
    /// Index into the loader's window vocabulary, or [`WINDOW_NONE`].
    pub window: u8,
    /// Where the window lands in the agent's own address space; zero when
    /// no window is named.
    pub device_va: u64,
    pub image: &'a [u8],
}

/// A validated store.
#[derive(Clone, Copy, Debug)]
pub struct Store<'a> {
    pub agents: &'a [StoreAgent<'a>],
}

/// One parsed record, as the model sees it.
pub struct AgentFields {
    pub name: Seq<u8>,
    pub text_pages: u32,
    pub stack_pages: u32,
    pub slots: Seq<u8>,
    pub home_cpu: u8,
    pub window: u8,
    pub device_va: u64,
    pub image: Seq<u8>,
}

/// Whether record `a` carries exactly fields `f`.
pub open spec fn agent_is(a: StoreAgent, f: AgentFields) -> bool {
    &&& a.name@ == f.name
    &&& a.text_pages == f.text_pages
    &&& a.stack_pages == f.stack_pages
    &&& a.slots@ == f.slots
    &&& a.home_cpu == f.home_cpu
    &&& a.window == f.window
    &&& a.device_va == f.device_va
    &&& a.image@ == f.image
}

/// Index of the first NUL in `name` at or after `from` (`name.len()` if none).
pub open spec fn first_nul(name: Seq<u8>, from: int) -> int
    decreases name.len() - from,
{
    if from < 0 || from >= name.len() {
        name.len() as int
    } else if name[from] == 0 {
        from
    } else {
        first_nul(name, from + 1)
    }
}

/// `n` rounded up to a multiple of four.
pub open spec fn align4(n: int) -> int {
    (n + 3) / 4 * 4
}

/// Bytes `text_pages` pages hold, saturating at the machine limit.
pub open spec fn text_capacity(text_pages: u32) -> int {
    if text_pages * 4096 > usize::MAX { usize::MAX as int } else { text_pages * 4096 }
}

/// What parsing the record at `off` of `buf` gives: its fields and the
/// offset of the next record, or the refusal.
pub open spec fn parse_agent(buf: Seq<u8>, off: int) -> Result<(AgentFields, int), ParseError> {
    let len = buf.len() as int;
    if off + 16 > len {
        Err(ParseError::Truncated)
    } else {
        let field = buf.subrange(off, off + 16);
        let nl = first_nul(field, 0);
        let o1 = off + 16;
        if nl == 0 || !is_utf8(field.subrange(0, nl)) {
            Err(ParseError::BadName)
        } else if o1 + 8 > len {
            Err(ParseError::Truncated)
        } else if le32_at(buf, o1) == 0 || le32_at(buf, o1 + 4) == 0 {
            Err(ParseError::BadGeometry)
        } else if o1 + 16 > len {
            Err(ParseError::Truncated)
        } else if le32_at(buf, o1 + 12) > 0xff || le32_at(buf, o1 + 12) >= N_CPUS {
            Err(ParseError::BadHome)
        } else if o1 + 20 > len {
            Err(ParseError::Truncated)
        } else if le32_at(buf, o1 + 16) > 0xff {
            Err(ParseError::BadWindow)
        } else if o1 + 28 > len {
            Err(ParseError::Truncated)
        } else {
            let window = le32_at(buf, o1 + 16) as u8;
            let va = le64_at(buf, o1 + 20);
            if (window == WINDOW_NONE && va != 0) || (window != WINDOW_NONE && va % 4096 != 0) {
                Err(ParseError::BadWindow)
            } else if o1 + 32 > len {
                Err(ParseError::Truncated)
            } else {
                let il = le32_at(buf, o1 + 28) as int;
                let o7 = o1 + 32;
                if o7 + il > len {
                    Err(ParseError::Truncated)
                } else if il > text_capacity(le32_at(buf, o1)) {
                    Err(ParseError::ImageTooLarge)
                } else {
                    Ok(
                        (
                            AgentFields {
                                name: field.subrange(0, nl),
                                text_pages: le32_at(buf, o1),
                                stack_pages: le32_at(buf, o1 + 4),
                                slots: buf.subrange(o1 + 8, o1 + 12),
                                home_cpu: le32_at(buf, o1 + 12) as u8,
                                window,
                                device_va: va,
                                image: buf.subrange(o7, o7 + il),
                            },
                            align4(o7 + il),
                        ),
                    )
                }
            }
        }
    }
}

/// Parsing records `i .. count` from `off`: the records read, and the
/// refusal that stopped the parse, if any.
pub open spec fn parse_agents(buf: Seq<u8>, count: int, i: int, off: int) -> (Seq<AgentFields>, Option<ParseError>)
    decreases count - i,
{
    if i >= count {
        (Seq::empty(), None)
    } else {
        match parse_agent(buf, off) {
            Err(e) => (Seq::empty(), Some(e)),
            Ok((f, next)) => {
                let rest = parse_agents(buf, count, i + 1, next);
                (seq![f] + rest.0, rest.1)
            },
        }
    }
}

/// Why the header of `buf` is refused, if it is.
pub open spec fn header_fault(buf: Seq<u8>) -> Option<ParseError> {
    if buf.len() < 16 {
        Some(ParseError::TooShort)
    } else if le32_at(buf, 0) != MAGIC {
        Some(ParseError::BadMagic)
    } else if le32_at(buf, 4) != VERSION {
        Some(ParseError::BadVersion)
    } else if le32_at(buf, 8) == 0 || le32_at(buf, 8) > MAX_AGENTS {
        Some(ParseError::BadCount)
    } else {
        None
    }
}

fn read_u32_at(buf: &[u8], off: usize) -> (r: Result<u32, ParseError>)
    ensures
        off + 4 > buf@.len() ==> r == Err::<u32, ParseError>(ParseError::Truncated),
        off + 4 <= buf@.len() ==> r == Ok::<u32, ParseError>(le32_at(buf@, off as int)),
{
    if buf.len() < 4 || off > buf.len() - 4 {
        return Err(ParseError::Truncated);
    }
    Ok(read_le32(buf, off))
}

fn read_u64_at(buf: &[u8], off: usize) -> (r: Result<u64, ParseError>)
    ensures
        off + 8 > buf@.len() ==> r == Err::<u64, ParseError>(ParseError::Truncated),
        off + 8 <= buf@.len() ==> r == Ok::<u64, ParseError>(le64_at(buf@, off as int)),
{
    if buf.len() < 8 || off > buf.len() - 8 {
        return Err(ParseError::Truncated);
    }
    Ok(read_le64(buf, off))
}

/// The record at `off`, or why it is refused.
fn parse_one<'a>(buf: &'a [u8], off: usize) -> (r: Result<(StoreAgent<'a>, usize), ParseError>)
    requires
        buf@.len() + 3 <= usize::MAX,
        off <= buf@.len(),
    ensures
        match parse_agent(buf@, off as int) {
            Err(e) => r == Err::<(StoreAgent<'a>, usize), ParseError>(e),
            Ok((f, next)) => r is Ok && agent_is(r->Ok_0.0, f) && r->Ok_0.1 == next,
        },
{
    if buf.len() - off < NAME_LEN {
        return Err(ParseError::Truncated);
    }
    let field = vstd::slice::slice_subrange(buf, off, off + NAME_LEN);
    let mut nl: usize = 0;
    while nl < NAME_LEN && field[nl] != 0
        invariant
            field@.len() == NAME_LEN,
            nl <= NAME_LEN,
            first_nul(field@, 0) == first_nul(field@, nl as int),
        decreases NAME_LEN - nl,
    {
        nl = nl + 1;
    }
    if nl == 0 {
        return Err(ParseError::BadName);
    }
    let name = vstd::slice::slice_subrange(field, 0, nl);
    if !utf8_valid(name) {
        return Err(ParseError::BadName);
    }
    let o1 = off + NAME_LEN;
    let text_pages = read_u32_at(buf, o1)?;
    let stack_pages = read_u32_at(buf, o1 + 4)?;
    if text_pages == 0 || stack_pages == 0 {
        return Err(ParseError::BadGeometry);
    }
    if buf.len() - o1 < 12 {
        return Err(ParseError::Truncated);
    }
    let mut slots: [u8; 4] = [SLOT_NONE; 4];
    slots[0] = buf[o1 + 8];
    slots[1] = buf[o1 + 9];
    slots[2] = buf[o1 + 10];
    slots[3] = buf[o1 + 11];
    assert(slots@ =~= buf@.subrange(o1 + 8, o1 + 12));
    let reserved = read_u32_at(buf, o1 + 12)?;
    if reserved > 0xff {
        return Err(ParseError::BadHome);
    }
    let home_cpu = reserved as u8;
    if home_cpu as usize >= N_CPUS {
        return Err(ParseError::BadHome);
    }
    let device_word = read_u32_at(buf, o1 + 16)?;
    if device_word > 0xff {
        return Err(ParseError::BadWindow);
    }
    let window = device_word as u8;
    let device_va = read_u64_at(buf, o1 + 20)?;
    if window == WINDOW_NONE {
        if device_va != 0 {
            return Err(ParseError::BadWindow);
        }
    } else if device_va % 4096 != 0 {
        return Err(ParseError::BadWindow);
    }
    let image_len = read_u32_at(buf, o1 + 28)? as usize;
    let o7 = o1 + 32;
    if image_len > buf.len() - o7 {
        return Err(ParseError::Truncated);
    }
    let img_end = o7 + image_len;
    let image = vstd::slice::slice_subrange(buf, o7, img_end);
    let capacity: usize = if text_pages as usize > usize::MAX / 4096 { usize::MAX } else { text_pages as usize * 4096 };
    if image_len > capacity {
        return Err(ParseError::ImageTooLarge);
    }
    let next = (img_end + 3) / 4 * 4;
    Ok((StoreAgent { name, text_pages, stack_pages, slots, home_cpu, window, device_va, image }, next))
}

/// Parse a store blob into the front of `out`; on success the returned slice
/// is that prefix. A refused record stops the parse with the records before
/// it in place.
pub fn parse<'a>(buf: &'a [u8], out: &'a mut [StoreAgent<'a>; 8]) -> (r: Result<&'a [StoreAgent<'a>], ParseError>)
    requires
        buf@.len() + 3 <= usize::MAX,
    ensures
        header_fault(buf@) is Some ==> r == Err::<&'a [StoreAgent<'a>], ParseError>(header_fault(buf@)->0),
        header_fault(buf@) is None ==> ({
            let count = le32_at(buf@, 8) as int;
            let (recs, fault) = parse_agents(buf@, count, 0, 16);
            &&& fault is Some ==> r == Err::<&'a [StoreAgent<'a>], ParseError>(fault->0)
            &&& fault is None ==> r is Ok && r->Ok_0@.len() == count && recs.len() == count
                && forall|j: int| 0 <= j < count ==> agent_is(#[trigger] r->Ok_0@[j], recs[j])
        }),
{
    if buf.len() < 16 {
        return Err(ParseError::TooShort);
    }
    if read_le32(buf, 0) != MAGIC {
        return Err(ParseError::BadMagic);
    }
    if read_le32(buf, 4) != VERSION {
        return Err(ParseError::BadVersion);
    }
    let count32 = read_le32(buf, 8);
    if count32 == 0 || count32 as usize > MAX_AGENTS {
        return Err(ParseError::BadCount);
    }
    let count = count32 as usize;
    let ghost recs = parse_agents(buf@, count as int, 0, 16).0;
    let ghost fault = parse_agents(buf@, count as int, 0, 16).1;
    let ghost mut done: Seq<AgentFields> = Seq::empty();
    let mut off: usize = 16;
    let mut i: usize = 0;
    assert(recs =~= done + parse_agents(buf@, count as int, 0, 16).0);
    while i < count
        invariant
            buf@.len() + 3 <= usize::MAX,
            header_fault(buf@) is None,
            1 <= count <= MAX_AGENTS,
            count == le32_at(buf@, 8),
            i <= count,
            off <= buf@.len() + 3,
            done.len() == i,
            recs == parse_agents(buf@, count as int, 0, 16).0,
            fault == parse_agents(buf@, count as int, 0, 16).1,
            recs == done + parse_agents(buf@, count as int, i as int, off as int).0,
            fault == parse_agents(buf@, count as int, i as int, off as int).1,
            forall|j: int| 0 <= j < i ==> agent_is(#[trigger] out@[j], done[j]),
        decreases count - i,
    {
        if off > buf.len() {
            assert(parse_agent(buf@, off as int) == Err::<(AgentFields, int), ParseError>(ParseError::Truncated));
            assert(recs =~= done);
            return Err(ParseError::Truncated);
        }
        let ghost off0 = off as int;
        match parse_one(buf, off) {
            Err(e) => {
                assert(recs =~= done);
                return Err(e);
            },
            Ok((agent, next)) => {
                proof {
                    let f = parse_agent(buf@, off0)->Ok_0.0;
                    let rest = parse_agents(buf@, count as int, i + 1, next as int);
                    assert(recs =~= done.push(f) + rest.0);
                    done = done.push(f);
                }
                out[i] = agent;
                off = next;
            },
        }
        i = i + 1;
    }
    assert(recs =~= done);
    let r = vstd::slice::slice_subrange(out.as_slice(), 0, count);
    Ok(r)
}

/// The wire record of one agent, before padding.
pub open spec fn record_spec(name_field: Seq<u8>, text_pages: u32, stack_pages: u32, slots: Seq<u8>, home_cpu: u8, window: u8, device_va: u64, image: Seq<u8>) -> Seq<u8> {
    name_field + le32_bytes(text_pages) + le32_bytes(stack_pages) + slots + le32_bytes(home_cpu as u32)
        + le32_bytes(window as u32) + le64_bytes(device_va) + le32_bytes(image.len() as u32) + image
}

/// The name field for `name`: its first sixteen bytes, NUL-padded.
pub open spec fn name_field(name: Seq<u8>) -> Seq<u8> {
    Seq::new(16, |i: int| if i < name.len() { name[i] } else { 0u8 })
}

fn agent_record(
    name: &str,
    text_pages: u32,
    stack_pages: u32,
    slots: [u8; 4],
    home_cpu: u8,
    window: u8,
    device_va: u64,
    image: &[u8],
) -> (r: Vec<u8>)
    requires
        image@.len() <= u32::MAX,
    ensures
        r@ == record_spec(name_field(name.spec_bytes()), text_pages, stack_pages, slots@, home_cpu, window, device_va, image@),
{
    let nb = name.as_bytes();
    let mut rec: Vec<u8> = Vec::new();
    let mut i: usize = 0;
    while i < NAME_LEN
        invariant
            i <= NAME_LEN,
            nb@ == name.spec_bytes(),
            rec@ == name_field(nb@).subrange(0, i as int),
        decreases NAME_LEN - i,
    {
        let b: u8 = if i < nb.len() { nb[i] } else { 0 };
        rec.push(b);
        i = i + 1;
        assert(rec@ =~= name_field(nb@).subrange(0, i as int));
    }
    assert(rec@ =~= name_field(nb@));
    let ghost s0 = rec@;
    push_le32(&mut rec, text_pages);
    push_le32(&mut rec, stack_pages);
    let ghost s1 = rec@;
    rec.push(slots[0]);
    rec.push(slots[1]);
    rec.push(slots[2]);
    rec.push(slots[3]);
    assert(rec@ =~= s1 + slots@);
    push_le32(&mut rec, home_cpu as u32);
    push_le32(&mut rec, window as u32);
    let ghost s2 = rec@;
    push_le32(&mut rec, (device_va % 0x1_0000_0000) as u32);
    push_le32(&mut rec, (device_va / 0x1_0000_0000) as u32);
    assert(rec@ =~= s2 + le64_bytes(device_va));
    push_le32(&mut rec, image.len() as u32);
    let ghost pre = rec@;
    let mut k: usize = 0;
    while k < image.len()
        invariant
            k <= image@.len(),
            rec@ == pre + image@.subrange(0, k as int),
        decreases image@.len() - k,
    {
        rec.push(image[k]);
        k = k + 1;
        assert(rec@ =~= pre + image@.subrange(0, k as int));
    }
    assert(image@.subrange(0, image@.len() as int) =~= image@);
    rec
}

/// Append one agent's record to `buf`, then pad `buf` with zeros to a
/// multiple of four.
pub fn append_agent(
    buf: &mut Vec<u8>,
    name: &str,
    text_pages: u32,
    stack_pages: u32,
    slots: [u8; 4],
    home_cpu: u8,
    window: u8,
    device_va: u64,
    image: &[u8],
)
    requires
        image@.len() <= u32::MAX,
    ensures
        ({
            let rec = old(buf)@ + record_spec(name_field(name.spec_bytes()), text_pages, stack_pages, slots@, home_cpu, window, device_va, image@);
            &&& final(buf)@.subrange(0, rec.len() as int) == rec
            &&& final(buf)@.len() == align4(rec.len() as int)
            &&& forall|i: int| rec.len() <= i < final(buf)@.len() ==> #[trigger] final(buf)@[i] == 0u8
        }),
{
    let mut rec = agent_record(name, text_pages, stack_pages, slots, home_cpu, window, device_va, image);
    buf.append(&mut rec);
    let ghost all = buf@;
    assert(all.subrange(0, all.len() as int) =~= all);
    while buf.len() % 4 != 0
        invariant
            all.len() <= buf@.len() < all.len() + 4,
            buf@.subrange(0, all.len() as int) == all,
            buf@.len() % 4 != 0 ==> buf@.len() < align4(all.len() as int),
            buf@.len() <= align4(all.len() as int),
            forall|i: int| all.len() <= i < buf@.len() ==> #[trigger] buf@[i] == 0u8,
        decreases 4 - (buf@.len() - all.len()),
    {
        buf.push(0);
        assert(buf@.subrange(0, all.len() as int) =~= all);
    }
}

/// One agent for [`pack`]: name, text pages, stack pages, slots, home CPU,
/// image. No device window.
pub type PackAgent<'a> = (&'a str, u32, u32, [u8; 4], u8, &'a [u8]);

/// `s` followed by zeros up to a multiple of four bytes.
pub open spec fn padded(s: Seq<u8>) -> Seq<u8> {
    s + Seq::new((align4(s.len() as int) - s.len()) as nat, |i: int| 0u8)
}

/// The padded record [`pack`] writes for one agent.
#[verifier::opaque]
pub open spec fn pack_record(a: PackAgent) -> Seq<u8> {
    padded(record_spec(name_field(a.0.spec_bytes()), a.1, a.2, a.3@, a.4, WINDOW_NONE, 0, a.5@))
}

/// The records of the first `n` agents, in order.
pub open spec fn pack_records(agents: Seq<PackAgent>, n: int) -> Seq<u8>
    decreases n,
{
    if n <= 0 || n > agents.len() {
        Seq::empty()
    } else {
        pack_records(agents, n - 1) + pack_record(agents[n - 1])
    }
}

/// The store header for `count` agents.
pub open spec fn pack_header(count: u32) -> Seq<u8> {
    le32_bytes(MAGIC) + le32_bytes(VERSION) + le32_bytes(count) + le32_bytes(0)
}

/// What [`append_agent`] leaves after a four-byte-aligned blob: the blob,
/// then the record padded to four bytes.
proof fn lemma_append_padded(before: Seq<u8>, after: Seq<u8>, rec: Seq<u8>)
    requires
        before.len() % 4 == 0,
        after.subrange(0, (before + rec).len() as int) == before + rec,
        after.len() == align4((before + rec).len() as int),
        forall|i: int| (before + rec).len() <= i < after.len() ==> #[trigger] after[i] == 0u8,
    ensures
        after == before + padded(rec),
        after.len() % 4 == 0,
{
    let b = before.len() as int;
    let r = rec.len() as int;
    assert(align4(b + r) == b + align4(r));
    assert forall|k: int| 0 <= k < after.len() implies #[trigger] after[k] == (before + padded(rec))[k] by {
        if k < b + r {
            assert(after[k] == after.subrange(0, b + r)[k]);
        }
    }
    assert(after =~= before + padded(rec));
}

/// Build a complete store blob, every agent without a device window: the
/// header, then each agent's record padded to four bytes, in order.
pub fn pack(agents: &[PackAgent]) -> (buf: Vec<u8>)
    requires
        agents@.len() <= u32::MAX,
        forall|i: int| 0 <= i < agents@.len() ==> (#[trigger] agents@[i]).5@.len() <= u32::MAX,
    ensures
        buf@ == pack_header(agents@.len() as u32) + pack_records(agents@, agents@.len() as int),
        buf@.subrange(0, 16) == pack_header(agents@.len() as u32),
        buf@.len() % 4 == 0,
{
    let mut buf: Vec<u8> = Vec::new();
    push_le32(&mut buf, MAGIC);
    push_le32(&mut buf, VERSION);
    push_le32(&mut buf, agents.len() as u32);
    push_le32(&mut buf, 0);
    let ghost head = buf@;
    assert(head =~= pack_header(agents@.len() as u32));
    assert(head + pack_records(agents@, 0) =~= head);
    let mut i: usize = 0;
    while i < agents.len()
        invariant
            i <= agents@.len(),
            forall|j: int| 0 <= j < agents@.len() ==> (#[trigger] agents@[j]).5@.len() <= u32::MAX,
            head.len() == 16,
            buf@ == head + pack_records(agents@, i as int),
            buf@.len() % 4 == 0,
        decreases agents@.len() - i,
    {
        let (name, tp, sp, slots, home, image) = agents[i];
        assert(agents@[i as int].5@.len() <= u32::MAX);
        let ghost before = buf@;
        append_agent(&mut buf, name, tp, sp, slots, home, WINDOW_NONE, 0, image);
        proof {
            let rec = record_spec(name_field(name.spec_bytes()), tp, sp, slots@, home, WINDOW_NONE, 0, image@);
            lemma_append_padded(before, buf@, rec);
            assert(agents@[i as int] == (name, tp, sp, slots, home, image));
            reveal(pack_record);
            assert(pack_record(agents@[i as int]) == padded(rec));
            assert(head + pack_records(agents@, i + 1) =~= head + pack_records(agents@, i as int) + pack_record(agents@[i as int]));
        }
        i = i + 1;
    }
    assert(buf@.subrange(0, 16) =~= head);
    buf
}

/// Convert a store agent into a manifest entry, with caller-provided
/// `'static` name and image storage. Slot markers become holes, and the
/// window marker becomes no device.
pub fn to_entry(agent: &StoreAgent, name: &'static str, image: &'static [u8]) -> (e: AgentEntry)
    ensures
        e.name == name,
        e.image == image,
        e.text_pages == agent.text_pages as usize,
        e.stack_pages == agent.stack_pages as usize,
        forall|i: int| 0 <= i < 4 ==> #[trigger] e.slots@[i] == if agent.slots@[i] == SLOT_NONE { None } else { Some(agent.slots@[i]) },
        e.device == if agent.window == WINDOW_NONE { None } else { Some(DeviceGrant { va: agent.device_va, window: agent.window }) },
        e.home_cpu == agent.home_cpu,
        !e.may_resolve,
        !e.packet_pool,
{
    let mut slots: [Option<u8>; 4] = [None, None, None, None];
    let mut i: usize = 0;
    while i < 4
        invariant
            i <= 4,
            forall|j: int| 0 <= j < i ==> #[trigger] slots@[j] == if agent.slots@[j] == SLOT_NONE { None } else { Some(agent.slots@[j]) },
            forall|j: int| i <= j < 4 ==> #[trigger] slots@[j] == None::<u8>,
        decreases 4 - i,
    {
        let s = agent.slots[i];
        if s != SLOT_NONE {
            slots[i] = Some(s);
        }
        i = i + 1;
    }
    let device = if agent.window != WINDOW_NONE {
        Some(DeviceGrant { va: agent.device_va, window: agent.window })
    } else {
        None
    };
    AgentEntry {
        name,
        image,
        text_pages: agent.text_pages as usize,
        stack_pages: agent.stack_pages as usize,
        slots,
        may_resolve: false,
        device,
        packet_pool: false,
        home_cpu: agent.home_cpu,
    }
}

// ---- pack, then parse ----

/// An agent [`pack`] writes and [`parse`] accepts: a name of one to sixteen
/// bytes with no NUL, non-zero text and stack pages, a home CPU in range, and
/// an image its text pages hold. (A name is a string, so its bytes are
/// UTF-8 already.)
pub open spec fn packable(a: PackAgent) -> bool {
    let name = a.0.spec_bytes();
    &&& 1 <= name.len() <= NAME_LEN
    &&& forall|i: int| 0 <= i < name.len() ==> #[trigger] name[i] != 0
    &&& a.1 > 0
    &&& a.2 > 0
    &&& (a.4 as int) < N_CPUS
    &&& a.5@.len() <= u32::MAX
    &&& a.5@.len() <= text_capacity(a.1)
}

/// The fields [`parse`] reads back for a packed agent.
pub open spec fn packed_fields(a: PackAgent) -> AgentFields {
    AgentFields {
        name: a.0.spec_bytes(),
        text_pages: a.1,
        stack_pages: a.2,
        slots: a.3@,
        home_cpu: a.4,
        window: WINDOW_NONE,
        device_va: 0,
        image: a.5@,
    }
}

proof fn lemma_le32_slice(buf: Seq<u8>, off: int, v: u32)
    requires
        0 <= off,
        off + 4 <= buf.len(),
        buf.subrange(off, off + 4) == le32_bytes(v),
    ensures
        le32_at(buf, off) == v,
{
    lemma_le32_round_trip(v);
    let s = buf.subrange(off, off + 4);
    assert(buf[off] == s[0] && buf[off + 1] == s[1] && buf[off + 2] == s[2] && buf[off + 3] == s[3]);
}

proof fn lemma_le64_slice(buf: Seq<u8>, off: int, v: u64)
    requires
        0 <= off,
        off + 8 <= buf.len(),
        buf.subrange(off, off + 8) == le64_bytes(v),
    ensures
        le64_at(buf, off) == v,
{
    lemma_le64_round_trip(v);
    let s = buf.subrange(off, off + 8);
    assert(forall|k: int| 0 <= k < 8 ==> buf[off + k] == #[trigger] s[k]);
    assert(le32_at(buf, off) == le32_at(s, 0));
    assert(le32_at(buf, off + 4) == le32_at(s, 4));
}

proof fn lemma_first_nul_name(name: Seq<u8>, from: int)
    requires
        0 <= from <= name.len(),
        name.len() <= 16,
        forall|i: int| 0 <= i < name.len() ==> #[trigger] name[i] != 0,
    ensures
        first_nul(name_field(name), from) == name.len(),
    decreases name.len() - from,
{
    if from < name.len() {
        lemma_first_nul_name(name, from + 1);
    }
}

/// Where the fields lie in a record.
proof fn lemma_record_layout(nf: Seq<u8>, tp: u32, sp: u32, slots: Seq<u8>, home: u8, window: u8, va: u64, image: Seq<u8>)
    requires
        nf.len() == 16,
        slots.len() == 4,
    ensures
        ({
            let rec = record_spec(nf, tp, sp, slots, home, window, va, image);
            &&& rec.len() == 48 + image.len()
            &&& rec.subrange(0, 16) == nf
            &&& rec.subrange(16, 20) == le32_bytes(tp)
            &&& rec.subrange(20, 24) == le32_bytes(sp)
            &&& rec.subrange(24, 28) == slots
            &&& rec.subrange(28, 32) == le32_bytes(home as u32)
            &&& rec.subrange(32, 36) == le32_bytes(window as u32)
            &&& rec.subrange(36, 44) == le64_bytes(va)
            &&& rec.subrange(44, 48) == le32_bytes(image.len() as u32)
            &&& rec.subrange(48, 48 + image.len() as int) == image
        }),
{
    let rec = record_spec(nf, tp, sp, slots, home, window, va, image);
    assert(rec.subrange(0, 16) =~= nf);
    assert(rec.subrange(16, 20) =~= le32_bytes(tp));
    assert(rec.subrange(20, 24) =~= le32_bytes(sp));
    assert(rec.subrange(24, 28) =~= slots);
    assert(rec.subrange(28, 32) =~= le32_bytes(home as u32));
    assert(rec.subrange(32, 36) =~= le32_bytes(window as u32));
    assert(rec.subrange(36, 44) =~= le64_bytes(va));
    assert(rec.subrange(44, 48) =~= le32_bytes(image.len() as u32));
    assert(rec.subrange(48, 48 + image.len() as int) =~= image);
}

/// A piece of a record placed at `off` of `buf` is the same piece of `buf`.
proof fn lemma_embedded(buf: Seq<u8>, off: int, rec: Seq<u8>, x: int, y: int)
    requires
        0 <= off,
        0 <= x <= y <= rec.len(),
        off + rec.len() <= buf.len(),
        buf.subrange(off, off + rec.len()) == rec,
    ensures
        buf.subrange(off + x, off + y) == rec.subrange(x, y),
{
    assert forall|k: int| 0 <= k < y - x implies #[trigger] buf.subrange(off + x, off + y)[k] == rec.subrange(x, y)[k] by {
        assert(buf[off + x + k] == buf.subrange(off, off + rec.len())[x + k]);
    }
    assert(buf.subrange(off + x, off + y) =~= rec.subrange(x, y));
}

/// One packed record parses back to its agent's fields, and the next record
/// starts right after its padding.
#[verifier::spinoff_prover]
#[verifier::rlimit(80)]
proof fn lemma_parse_packed_record(prefix: Seq<u8>, a: PackAgent, suffix: Seq<u8>)
    requires
        packable(a),
        prefix.len() % 4 == 0,
    ensures
        parse_agent(prefix + pack_record(a) + suffix, prefix.len() as int) == Ok::<(AgentFields, int), ParseError>(
            (packed_fields(a), (prefix.len() + pack_record(a).len()) as int),
        ),
{
    let name = a.0.spec_bytes();
    lemma_str_is_utf8(a.0);
    let nf = name_field(name);
    let rec = record_spec(nf, a.1, a.2, a.3@, a.4, WINDOW_NONE, 0, a.5@);
    let buf = prefix + pack_record(a) + suffix;
    let off = prefix.len() as int;
    let o1 = off + 16;
    let il = a.5@.len() as int;
    reveal(pack_record);
    lemma_record_layout(nf, a.1, a.2, a.3@, a.4, WINDOW_NONE, 0, a.5@);
    assert(buf.subrange(off, off + rec.len()) =~= rec) by {
        assert forall|k: int| 0 <= k < rec.len() implies #[trigger] buf.subrange(off, off + rec.len())[k] == rec[k] by {
            assert(buf[off + k] == pack_record(a)[k]);
        }
    }
    lemma_embedded(buf, off, rec, 0, 16);
    lemma_first_nul_name(name, 0);
    assert(nf.subrange(0, name.len() as int) =~= name);
    lemma_embedded(buf, off, rec, 16, 20);
    lemma_le32_slice(buf, o1, a.1);
    lemma_embedded(buf, off, rec, 20, 24);
    lemma_le32_slice(buf, o1 + 4, a.2);
    lemma_embedded(buf, off, rec, 24, 28);
    lemma_embedded(buf, off, rec, 28, 32);
    lemma_le32_slice(buf, o1 + 12, a.4 as u32);
    lemma_embedded(buf, off, rec, 32, 36);
    lemma_le32_slice(buf, o1 + 16, WINDOW_NONE as u32);
    lemma_embedded(buf, off, rec, 36, 44);
    lemma_le64_slice(buf, o1 + 20, 0);
    lemma_embedded(buf, off, rec, 44, 48);
    lemma_le32_slice(buf, o1 + 28, il as u32);
    lemma_embedded(buf, off, rec, 48, 48 + il);
    assert(align4(off + 48 + il) == off + align4(48 + il));
    assert(pack_record(a).len() == align4(48 + il));
}

/// The records from `i` on parse back as the agents they were packed from.
#[verifier::spinoff_prover]
#[verifier::rlimit(80)]
proof fn lemma_parse_packed_records(agents: Seq<PackAgent>, buf: Seq<u8>, i: int)
    requires
        0 <= i <= agents.len(),
        forall|j: int| 0 <= j < agents.len() ==> packable(#[trigger] agents[j]),
        buf == pack_header(agents.len() as u32) + pack_records(agents, agents.len() as int),
    ensures
        parse_agents(buf, agents.len() as int, i, 16 + pack_records(agents, i).len() as int) == (
            Seq::new((agents.len() - i) as nat, |j: int| packed_fields(agents[i + j])),
            None::<ParseError>,
        ),
    decreases agents.len() - i,
{
    let n = agents.len() as int;
    if i < n {
        let a = agents[i];
        let prefix = pack_header(n as u32) + pack_records(agents, i);
        lemma_pack_records_prefix(agents, i + 1, n);
        assert(pack_records(agents, i + 1) == pack_records(agents, i) + pack_record(a));
        let mid_end = 16 + pack_records(agents, i + 1).len();
        let suffix = buf.subrange(mid_end as int, buf.len() as int);
        assert(buf =~= prefix + pack_record(a) + suffix) by {
            assert forall|k: int| 0 <= k < buf.len() implies #[trigger] buf[k] == (prefix + pack_record(a) + suffix)[k] by {
                if 16 <= k < mid_end {
                    assert(buf[k] == pack_records(agents, n)[k - 16]);
                    assert(pack_records(agents, n)[k - 16] == pack_records(agents, n).subrange(0, pack_records(agents, i + 1).len() as int)[k - 16]);
                }
            }
        }
        lemma_pack_records_aligned(agents, i);
        lemma_parse_packed_record(prefix, a, suffix);
        lemma_parse_packed_records(agents, buf, i + 1);
        assert(seq![packed_fields(a)] + Seq::new((n - i - 1) as nat, |j: int| packed_fields(agents[i + 1 + j]))
            =~= Seq::new((n - i) as nat, |j: int| packed_fields(agents[i + j])));
    } else {
        assert(Seq::<AgentFields>::empty() =~= Seq::new(0, |j: int| packed_fields(agents[i + j])));
    }
}

proof fn lemma_pack_records_prefix(agents: Seq<PackAgent>, i: int, n: int)
    requires
        0 <= i <= n <= agents.len(),
    ensures
        pack_records(agents, i).len() <= pack_records(agents, n).len(),
        pack_records(agents, n).subrange(0, pack_records(agents, i).len() as int) == pack_records(agents, i),
    decreases n - i,
{
    if i < n {
        lemma_pack_records_prefix(agents, i, n - 1);
        let b = pack_records(agents, i);
        assert(pack_records(agents, n).subrange(0, b.len() as int) =~= pack_records(agents, n - 1).subrange(0, b.len() as int));
    } else {
        assert(pack_records(agents, n).subrange(0, pack_records(agents, n).len() as int) =~= pack_records(agents, n));
    }
}

proof fn lemma_pack_records_aligned(agents: Seq<PackAgent>, i: int)
    requires
        0 <= i <= agents.len(),
    ensures
        pack_records(agents, i).len() % 4 == 0,
    decreases i,
{
    if i > 0 {
        lemma_pack_records_aligned(agents, i - 1);
        lemma_pack_record_len(agents[i - 1]);
    }
}

proof fn lemma_pack_record_len(a: PackAgent)
    ensures
        pack_record(a).len() == align4(48 + a.5@.len() as int),
        pack_record(a).len() % 4 == 0,
{
    reveal(pack_record);
    lemma_record_layout(name_field(a.0.spec_bytes()), a.1, a.2, a.3@, a.4, WINDOW_NONE, 0, a.5@);
}

/// Pack, then parse: a store packed from one to eight acceptable agents
/// passes the header checks and parses back to each agent, in order, with no
/// device window.
pub proof fn lemma_pack_then_parse(agents: Seq<PackAgent>)
    requires
        1 <= agents.len() <= MAX_AGENTS,
        forall|j: int| 0 <= j < agents.len() ==> packable(#[trigger] agents[j]),
    ensures
        ({
            let buf = pack_header(agents.len() as u32) + pack_records(agents, agents.len() as int);
            &&& header_fault(buf) is None
            &&& le32_at(buf, 8) == agents.len()
            &&& parse_agents(buf, agents.len() as int, 0, 16) == (
                Seq::new(agents.len(), |j: int| packed_fields(agents[j])),
                None::<ParseError>,
            )
        }),
{
    let n = agents.len() as int;
    let buf = pack_header(n as u32) + pack_records(agents, n);
    lemma_le32_round_trip(MAGIC);
    lemma_le32_round_trip(VERSION);
    lemma_le32_round_trip(n as u32);
    assert(buf.subrange(0, 4) =~= le32_bytes(MAGIC));
    lemma_le32_slice(buf, 0, MAGIC);
    assert(buf.subrange(4, 8) =~= le32_bytes(VERSION));
    lemma_le32_slice(buf, 4, VERSION);
    assert(buf.subrange(8, 12) =~= le32_bytes(n as u32));
    lemma_le32_slice(buf, 8, n as u32);
    assert(pack_records(agents, 0) =~= Seq::<u8>::empty());
    lemma_parse_packed_records(agents, buf, 0);
    assert(Seq::new((n - 0) as nat, |j: int| packed_fields(agents[0 + j])) =~= Seq::new(agents.len(), |j: int| packed_fields(agents[j])));
}


} // verus!
