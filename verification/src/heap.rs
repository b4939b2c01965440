//! First-fit free-list allocator with splitting and coalescing.
//!
//! The bump allocator in [`crate::bump`] cannot free, which is fine for early
//! boot and useless for tasks, mailboxes or anything with a lifetime. This one
//! is the general allocator behind the kernel's global allocator.
//!
//! # Why it works on a byte slice
//!
//! Bookkeeping lives inside the memory being managed, as it must for a kernel
//! heap — but it is addressed by *offset* into a `&mut [u8]` rather than by
//! raw pointer. That keeps every index check, split, merge and alignment
//! calculation in safe code, and leaves the kernel with nothing to get wrong
//! but the base address.
//!
//! Layout of the arena:
//!
//! ```text
//! [ header | payload ......... ][ header | payload ... ] ...
//!   ^ block start                ^ next block
//! ```
//!
//! A header is [`HEADER`] bytes: block size, then (free blocks only) the
//! offset of the next free block. Allocated blocks store the block start just
//! below the payload so `dealloc` can find it even when alignment pushed the
//! payload forward. Words are little-endian.
//!
//! The proof keeps a ghost list of the blocks that tile the arena, each free
//! or holding one live payload; [`FreeList::inv`] ties it to the bytes.
use vstd::prelude::*;
use crate::wire::{le32_bytes, le64_at, le64_bytes, lemma_le64_round_trip, read_le64, write_le32};

verus! {

/// Bytes of bookkeeping at the start of every block.
pub const HEADER: usize = 16;

/// Allocation granularity. Every block start and size is a multiple of this,
/// which keeps headers naturally aligned and bounds fragmentation.
pub const GRAIN: usize = 16;

/// Smallest block worth leaving behind when splitting.
pub const MIN_BLOCK: usize = 32;

/// Sentinel for "no next block" — no real offset can reach it.
pub const NIL: u64 = 0xffff_ffff_ffff_ffff;

/// Marks a block as handed out, in the low bit of its size word.
///
/// Sizes are multiples of [`GRAIN`], so the low four bits of that word are
/// always zero and cost nothing to use. This is what lets `dealloc` tell a
/// live block from one already on the free list, which is the whole of the
/// double-free defence.
pub const ALLOCATED: u64 = 1;

/// Why a [`FreeList::dealloc`] was refused.
///
/// Refused, not ignored: in every case the free list is left exactly as it
/// was, so a bad free leaks rather than corrupting the heap.
#[derive(Clone, Copy, Debug, PartialEq, Eq, Structural)]
pub enum FreeError {
    /// The payload offset, or the block header it points at, lies outside the
    /// arena — the pointer did not come from this allocator.
    OutOfBounds,
    /// The block header is not one this allocator could have written:
    /// misaligned, or inconsistent with the payload it claims to own.
    Corrupt,
    /// The block is not marked as allocated. Either it has already been
    /// freed, or the pointer was never handed out.
    NotAllocated,
}

/// One block of the arena: where it starts, how long it is, and the payload
/// offset handed out from it (`None` while it is free).
pub struct Blk {
    pub start: int,
    pub size: int,
    pub payload: Option<int>,
}

/// A free-list allocator over a caller-owned byte arena.
///
/// The arena must be the same slice on every call; the allocator stores only
/// offsets into it.
#[derive(Clone, Copy)]
pub struct FreeList {
    /// Offset of the first free block, or `None` when full.
    head: Option<usize>,
    /// Total arena length, to catch a caller passing a different slice.
    len: usize,
    /// The blocks that tile the arena, in address order.
    blocks: Ghost<Seq<Blk>>,
    /// Payloads freed since the last allocation, each with the block start
    /// it was handed out from.
    freed: Ghost<Map<int, int>>,
}

/// The little-endian word at `off` of the arena.
#[verifier::opaque]
pub open spec fn word(a: Seq<u8>, off: int) -> u64 {
    le64_at(a, off)
}

pub open spec fn is_free(b: Blk) -> bool {
    b.payload is None
}

/// A link word as the free list writes them: the sentinel, or a grain-aligned
/// block start at or after `lo` with room for a header.
pub open spec fn link_ok(w: u64, lo: int, len: int) -> bool {
    w == NIL || (w % 16 == 0 && w >= lo && w + HEADER <= len)
}

/// Payload `p`, handed out from the block that started at `s`, has been
/// freed and not handed out again: both lie in one free block, the old
/// header at `s` carries no allocated mark, and the word below `p` is either
/// the old back-pointer or (when it is the old link word) a link past `p`.
pub open spec fn stale_at(bs: Seq<Blk>, a: Seq<u8>, len: int, p: int, s: int) -> bool {
    &&& s % 16 == 0
    &&& p % 16 == 0
    &&& 0 <= s
    &&& s + HEADER <= p <= len
    &&& in_free_block(bs, s, p)
    &&& word(a, s) & 1 == 0
    &&& p == s + HEADER ==> link_ok(word(a, s + 8), p, len)
    &&& p > s + HEADER ==> word(a, p - 8) == s
}

/// The first free block at or after index `k`.
pub open spec fn next_free_from(bs: Seq<Blk>, k: int) -> Option<int>
    decreases bs.len() - k,
{
    if k < 0 || k >= bs.len() {
        None
    } else if is_free(bs[k]) {
        Some(k)
    } else {
        next_free_from(bs, k + 1)
    }
}

/// The last free block before index `k`.
pub open spec fn prev_free_before(bs: Seq<Blk>, k: int) -> Option<int>
    decreases k,
{
    if k <= 0 || k > bs.len() {
        None
    } else if is_free(bs[k - 1]) {
        Some(k - 1)
    } else {
        prev_free_before(bs, k - 1)
    }
}

/// The offset of block `j`, if any.
pub open spec fn start_of(bs: Seq<Blk>, j: Option<int>) -> Option<usize> {
    match j {
        Some(i) => Some(bs[i].start as usize),
        None => None,
    }
}

/// The next-free word that links to block `j`, or the sentinel.
pub open spec fn link_word(bs: Seq<Blk>, j: Option<int>) -> u64 {
    match j {
        Some(i) => bs[i].start as u64,
        None => NIL,
    }
}

/// A block's own words are what this allocator writes: its size (with the
/// allocated mark when live) and, when live, the back-pointer below the
/// payload.
pub open spec fn block_ok(b: Blk, a: Seq<u8>) -> bool {
    &&& b.start % 16 == 0
    &&& b.size % 16 == 0
    &&& b.size >= MIN_BLOCK
    &&& match b.payload {
        None => word(a, b.start) == b.size,
        Some(p) => word(a, b.start) == b.size + 1 && b.start + HEADER <= p < b.start + b.size
            && p % 16 == 0 && word(a, p - 8) == b.start,
    }
}

/// Sum of the sizes of the free blocks among the first `k`.
pub open spec fn sum_free(bs: Seq<Blk>, k: int) -> int
    decreases k,
{
    if k <= 0 || k > bs.len() {
        0
    } else {
        sum_free(bs, k - 1) + if is_free(bs[k - 1]) { bs[k - 1].size } else { 0 }
    }
}

/// Number of free blocks among the first `k`.
pub open spec fn count_free(bs: Seq<Blk>, k: int) -> int
    decreases k,
{
    if k <= 0 || k > bs.len() {
        0
    } else {
        count_free(bs, k - 1) + if is_free(bs[k - 1]) { 1int } else { 0 }
    }
}

/// The arena length rounded down to the grain: what the blocks tile.
pub open spec fn tiled_end(len: int) -> int {
    len - len % 16
}

/// The blocks tile `[0, end)` in address order, each well-formed, with no
/// two free blocks side by side, and the free ones linked in order.
#[verifier::opaque]
pub open spec fn tiles(bs: Seq<Blk>, a: Seq<u8>, end: int) -> bool {
    &&& bs.len() >= 1
    &&& bs[0].start == 0
    &&& forall|i: int| 0 <= i < bs.len() - 1 ==> #[trigger] bs[i].start + bs[i].size == bs[i + 1].start
    &&& forall|i: int, k: int| 0 <= i < k < bs.len() ==> #[trigger] bs[i].start + bs[i].size <= #[trigger] bs[k].start
    &&& bs.last().start + bs.last().size == end
    &&& forall|i: int| 0 <= i < bs.len() ==> block_ok(#[trigger] bs[i], a)
    &&& forall|i: int| 0 <= i < bs.len() - 1 ==> !(is_free(#[trigger] bs[i]) && is_free(bs[i + 1]))
    &&& forall|i: int| 0 <= i < bs.len() && is_free(#[trigger] bs[i])
        ==> word(a, bs[i].start + 8) == link_word(bs, next_free_from(bs, i + 1))
}

impl FreeList {
    /// The blocks, in address order.
    pub closed spec fn model(&self) -> Seq<Blk> {
        self.blocks@
    }

    /// `self` describes `arena`.
    pub closed spec fn inv(&self, a: Seq<u8>) -> bool {
        &&& a.len() == self.len
        &&& tiles(self.blocks@, a, tiled_end(self.len as int))
        &&& self.head == start_of(self.blocks@, next_free_from(self.blocks@, 0))
        &&& forall|p: int| #[trigger] self.freed@.contains_key(p) ==> stale_at(self.blocks@, a, self.len as int, p, self.freed@[p])
    }

    /// Payloads freed since the last allocation.
    pub closed spec fn freed(&self) -> Set<int> {
        self.freed@.dom()
    }

    /// `p` is a payload handed out and not yet freed.
    pub open spec fn live(&self, p: int) -> bool {
        holds_payload(self.model(), p)
    }
}

// ---- words in the arena ----

/// `an` is `ao` with at most the word at `w` rewritten.
pub open spec fn moved_only(ao: Seq<u8>, an: Seq<u8>, w: int) -> bool {
    &&& an.len() == ao.len()
    &&& forall|q: int| 0 <= q && q + 8 <= ao.len() && (q + 8 <= w || w + 8 <= q) ==> #[trigger] word(an, q) == word(ao, q)
}

/// The little-endian word at `at`.
pub fn read_u64(arena: &[u8], at: usize) -> (r: u64)
    requires
        at + 8 <= arena.len(),
    ensures
        r == word(arena@, at as int),
{
    reveal(word);
    read_le64(arena, at)
}

proof fn lemma_word_of_bytes(a: Seq<u8>, at: int, v: u64)
    requires
        0 <= at,
        at + 8 <= a.len(),
        a.subrange(at, at + 8) == le64_bytes(v),
    ensures
        word(a, at) == v,
{
    lemma_le64_round_trip(v);
    reveal(word);
    let s = a.subrange(at, at + 8);
    assert(forall|i: int| 0 <= i < 8 ==> a[at + i] == #[trigger] s[i]);
    assert(le64_at(a, at) == le64_at(s, 0));
}

/// Write the little-endian word `value` at `at`; every word that does not
/// overlap it keeps its value.
#[verifier::rlimit(50)]
#[verifier::spinoff_prover]
fn write_u64(arena: &mut [u8], at: usize, value: u64)
    requires
        at + 8 <= old(arena).len(),
    ensures
        final(arena)@.len() == old(arena)@.len(),
        word(final(arena)@, at as int) == value,
        moved_only(old(arena)@, final(arena)@, at as int),
{
    let ghost before = arena@;
    write_le32(arena, at, (value % 0x1_0000_0000) as u32);
    write_le32(arena, at + 4, (value / 0x1_0000_0000) as u32);
    proof {
        let a = arena@;
        assert(a.subrange(at as int, at + 8) =~= le64_bytes(value)) by {
            assert(le64_bytes(value) == le32_bytes((value % 0x1_0000_0000) as u32) + le32_bytes((value / 0x1_0000_0000) as u32));
            assert forall|i: int| 0 <= i < 8 implies #[trigger] a.subrange(at as int, at + 8)[i] == le64_bytes(value)[i] by {
                if i < 4 {
                    assert(a[at + i] == a.subrange(at as int, at + 4)[i]);
                } else {
                    assert(a[at + i] == a.subrange(at + 4, at + 8)[i - 4]);
                }
            }
        }
        lemma_word_of_bytes(a, at as int, value);
        reveal(word);
        assert forall|q: int| 0 <= q && q + 8 <= before.len() && (q + 8 <= at || at + 8 <= q)
            implies #[trigger] word(a, q) == word(before, q) by {
            assert forall|i: int| 0 <= i < 8 implies #[trigger] a[q + i] == before[q + i] by {}
        }
    }
}

proof fn lemma_mark_bits(sz: u64)
    requires
        sz % 16 == 0,
        sz <= 0xffff_ffff_ffff_fff0,
    ensures
        sz & !1u64 == sz,
        sz & 1 == 0,
        sz | 1 == sz + 1,
        (sz + 1) as u64 & !1u64 == sz,
        (sz + 1) as u64 & 1 == 1,
{
    assert(sz & 15 == 0) by (bit_vector)
        requires sz % 16 == 0;
    assert(sz & !1u64 == sz && sz & 1 == 0 && sz | 1 == sz + 1 && (sz + 1) as u64 & !1u64 == sz && (sz + 1) as u64 & 1 == 1)
        by (bit_vector)
        requires sz & 15 == 0, sz <= 0xffff_ffff_ffff_fff0;
}

/// The size field of the block at `block`.
pub fn block_size(arena: &[u8], block: usize) -> (r: usize)
    requires
        block + 8 <= arena.len(),
    ensures
        r == (word(arena@, block as int) & !1u64) as usize,
{
    (read_u64(arena, block) & !ALLOCATED) as usize
}

/// Write a size and clear the allocated mark: every caller of this is either
/// creating a free block or returning one to the list.
fn set_block_size(arena: &mut [u8], block: usize, size: usize)
    requires
        block + 8 <= old(arena).len(),
    ensures
        final(arena)@.len() == old(arena)@.len(),
        word(final(arena)@, block as int) == size as u64,
        moved_only(old(arena)@, final(arena)@, block as int),
{
    write_u64(arena, block, size as u64);
}

/// Whether the block at `block` carries the allocated mark.
pub fn is_allocated(arena: &[u8], block: usize) -> (r: bool)
    requires
        block + 8 <= arena.len(),
    ensures
        r == (word(arena@, block as int) & 1 != 0),
{
    read_u64(arena, block) & ALLOCATED != 0
}

fn mark_allocated(arena: &mut [u8], block: usize)
    requires
        block + 8 <= old(arena).len(),
    ensures
        final(arena)@.len() == old(arena)@.len(),
        word(final(arena)@, block as int) == word(old(arena)@, block as int) | 1,
        moved_only(old(arena)@, final(arena)@, block as int),
{
    let word = read_u64(arena, block);
    write_u64(arena, block, word | ALLOCATED);
}

fn next_free(arena: &[u8], block: usize) -> (r: Option<usize>)
    requires
        block + 16 <= arena.len(),
    ensures
        word(arena@, block + 8) == NIL ==> r is None,
        word(arena@, block + 8) != NIL ==> r == Some(word(arena@, block + 8) as usize),
{
    let w = read_u64(arena, block + 8);
    if w == NIL {
        None
    } else {
        Some(w as usize)
    }
}

fn set_next_free(arena: &mut [u8], block: usize, next: Option<usize>)
    requires
        block + 16 <= old(arena).len(),
    ensures
        final(arena)@.len() == old(arena)@.len(),
        word(final(arena)@, block + 8) == (match next {
            Some(n) => n as u64,
            None => NIL,
        }),
        moved_only(old(arena)@, final(arena)@, block + 8),
{
    let w = match next {
        Some(n) => n as u64,
        None => NIL,
    };
    write_u64(arena, block + 8, w);
}

/// `value` rounded up to a multiple of `align`.
pub open spec fn align_up_spec(value: int, align: int) -> int {
    (value + align - 1) / align * align
}

#[verifier::rlimit(50)]
#[verifier::spinoff_prover]
fn align_up(value: usize, align: usize) -> (r: usize)
    requires
        align > 0,
        value + align - 1 <= usize::MAX,
    ensures
        r == align_up_spec(value as int, align as int),
        r >= value,
        r % align == 0,
        r <= value + align - 1,
{
    let q = (value + (align - 1)) / align;
    proof {
        let (v, a, qq) = (value as int, align as int, q as int);
        assert(qq * a <= v + a - 1) by (nonlinear_arith)
            requires qq == (v + (a - 1)) / a, a > 0;
    }
    let r = q * align;
    proof {
        let v = value as int;
        let a = align as int;
        assert(((v + a - 1) / a * a) % a == 0) by (nonlinear_arith)
            requires a > 0, v >= 0;
        assert((v + a - 1) / a * a >= v) by (nonlinear_arith)
            requires a > 0, v >= 0;
        assert((v + a - 1) / a * a <= v + a - 1) by (nonlinear_arith)
            requires a > 0, v >= 0;
    }
    r
}

// ---- facts about the block list ----

/// What a tiling says of one block.
proof fn lemma_block_facts(bs: Seq<Blk>, a: Seq<u8>, end: int, j: int)
    requires
        tiles(bs, a, end),
        0 <= j < bs.len(),
    ensures
        block_ok(bs[j], a),
        0 <= bs[j].start,
        bs[j].start + bs[j].size <= end,
        j + 1 < bs.len() ==> bs[j].start + bs[j].size == bs[j + 1].start,
        is_free(bs[j]) ==> word(a, bs[j].start + 8) == link_word(bs, next_free_from(bs, j + 1)),
        bs.len() >= 1,
        bs[0].start == 0,
{
    reveal(tiles);
    if j < bs.len() - 1 {
        assert(bs[j].start + bs[j].size <= bs[bs.len() - 1].start);
    }
    if j > 0 {
        assert(bs[0].start + bs[0].size <= bs[j].start);
    }
}

/// The size and mark bits of a block's first word.
proof fn lemma_size_word(bs: Seq<Blk>, a: Seq<u8>, end: int, j: int)
    requires
        tiles(bs, a, end),
        0 <= j < bs.len(),
        end <= usize::MAX,
        end % 16 == 0,
    ensures
        (word(a, bs[j].start) & !1u64) as int == bs[j].size,
        (word(a, bs[j].start) & 1 != 0) == !is_free(bs[j]),
{
    lemma_block_facts(bs, a, end, j);
    lemma_mark_bits(bs[j].size as u64);
}

/// What a tiling says of the list as a whole.
proof fn lemma_tiling_facts(bs: Seq<Blk>, a: Seq<u8>, end: int)
    requires
        tiles(bs, a, end),
    ensures
        bs.len() >= 1,
        bs[0].start == 0,
        forall|i: int| 0 <= i < bs.len() - 1 ==> #[trigger] bs[i].start + bs[i].size == bs[i + 1].start,
        forall|i: int| 0 <= i < bs.len() ==> #[trigger] bs[i].size >= MIN_BLOCK,
        bs.last().start + bs.last().size == end,
{
    reveal(tiles);
    assert forall|i: int| 0 <= i < bs.len() implies #[trigger] bs[i].size >= MIN_BLOCK by {
        assert(block_ok(bs[i], a));
    }
}


proof fn lemma_next_free_range(bs: Seq<Blk>, k: int)
    requires
        0 <= k <= bs.len(),
    ensures
        match next_free_from(bs, k) {
            Some(j) => k <= j < bs.len() && is_free(bs[j]) && forall|i: int| k <= i < j ==> !is_free(#[trigger] bs[i]),
            None => forall|i: int| k <= i < bs.len() ==> !is_free(#[trigger] bs[i]),
        },
    decreases bs.len() - k,
{
    if k < bs.len() && !is_free(bs[k]) {
        lemma_next_free_range(bs, k + 1);
    }
}

proof fn lemma_sum_skip(bs: Seq<Blk>, k: int, j: int)
    requires
        0 <= k <= j <= bs.len(),
        forall|i: int| k <= i < j ==> !is_free(#[trigger] bs[i]),
    ensures
        sum_free(bs, j) == sum_free(bs, k),
        count_free(bs, j) == count_free(bs, k),
    decreases j - k,
{
    if j > k {
        lemma_sum_skip(bs, k, j - 1);
    }
}

proof fn lemma_sum_bound(bs: Seq<Blk>, k: int)
    requires
        0 <= k <= bs.len(),
        bs.len() >= 1,
        bs[0].start == 0,
        forall|i: int| 0 <= i < bs.len() - 1 ==> #[trigger] bs[i].start + bs[i].size == bs[i + 1].start,
        forall|i: int| 0 <= i < bs.len() ==> #[trigger] bs[i].size >= MIN_BLOCK,
    ensures
        sum_free(bs, k) <= (if k < bs.len() { bs[k].start } else { bs.last().start + bs.last().size }),
        sum_free(bs, k) >= 0,
        count_free(bs, k) <= k,
        count_free(bs, k) >= 0,
        count_free(bs, k) * MIN_BLOCK <= sum_free(bs, k),
    decreases k,
{
    if k > 0 {
        lemma_sum_bound(bs, k - 1);
        if k < bs.len() {
            assert(bs[k - 1].start + bs[k - 1].size == bs[k].start);
        }
    }
}

impl FreeList {
    /// Take ownership of `arena` as one free block.
    ///
    /// `None` if the arena is too small to hold a single block.
    #[verifier::rlimit(50)]
    #[verifier::spinoff_prover]
    pub fn new(arena: &mut [u8]) -> (r: Option<Self>)
        ensures
            tiled_end(old(arena)@.len() as int) < MIN_BLOCK ==> r is None && final(arena)@ == old(arena)@,
            tiled_end(old(arena)@.len() as int) >= MIN_BLOCK ==> (r is Some) && r->0.inv(final(arena)@)
                && r->0.model() == seq![Blk { start: 0, size: tiled_end(old(arena)@.len() as int), payload: None }],
    {
        let len = arena.len() / GRAIN * GRAIN;
        if len < MIN_BLOCK {
            return None;
        }
        set_block_size(arena, 0, len);
        set_next_free(arena, 0, None);
        let ghost bs = seq![Blk { start: 0, size: len as int, payload: None }];
        let r = Self { head: Some(0), len: arena.len(), blocks: Ghost(bs), freed: Ghost(Map::empty()) };
        proof {
            assert(next_free_from(bs, 1) is None);
            assert(next_free_from(bs, 0) == Some(0int));
            assert(block_ok(bs[0], arena@));
            reveal(tiles);
        }
        Some(r)
    }

    /// Bytes still free, including per-block headers.
    #[verifier::rlimit(20)]
    #[verifier::spinoff_prover]
    pub fn free_bytes(&self, arena: &[u8]) -> (r: usize)
        requires
            self.inv(arena@),
        ensures
            r == sum_free(self.model(), self.model().len() as int),
    {
        let ghost bs = self.blocks@;
        let mut total: usize = 0;
        let mut cursor = self.head;
        let ghost mut k: int = 0;
        proof {
            lemma_next_free_range(bs, 0);
        }
        loop
            invariant
                self.inv(arena@),
                bs == self.blocks@,
                0 <= k <= bs.len(),
                cursor == start_of(bs, next_free_from(bs, k)),
                total == sum_free(bs, k),
            decreases bs.len() - k,
        {
            proof {
                lemma_next_free_range(bs, k);
            }
            match cursor {
                None => {
                    proof {
                        lemma_sum_skip(bs, k, bs.len() as int);
                    }
                    return total;
                },
                Some(block) => {
                    let ghost j = next_free_from(bs, k)->0;
                    proof {
                        lemma_sum_skip(bs, k, j);
                        lemma_block_facts(bs, arena@, tiled_end(self.len as int), j);
                        lemma_tiling_facts(bs, arena@, tiled_end(self.len as int));
                        lemma_sum_bound(bs, j + 1);
                        lemma_size_word(bs, arena@, tiled_end(self.len as int), j);
                    }
                    let size = block_size(arena, block);
                    assert(size == bs[j].size);
                    total = total + size;
                    cursor = next_free(arena, block);
                    proof {
                        k = j + 1;
                        lemma_next_free_range(bs, k);
                        if let Some(i) = next_free_from(bs, k) {
                            lemma_block_facts(bs, arena@, tiled_end(self.len as int), i);
                        }
                    }
                },
            }
        }
    }

    /// Number of free blocks — a fragmentation signal.
    #[verifier::rlimit(20)]
    #[verifier::spinoff_prover]
    pub fn free_blocks(&self, arena: &[u8]) -> (r: usize)
        requires
            self.inv(arena@),
        ensures
            r == count_free(self.model(), self.model().len() as int),
    {
        let ghost bs = self.blocks@;
        let mut count: usize = 0;
        let mut cursor = self.head;
        let ghost mut k: int = 0;
        loop
            invariant
                self.inv(arena@),
                bs == self.blocks@,
                0 <= k <= bs.len(),
                cursor == start_of(bs, next_free_from(bs, k)),
                count == count_free(bs, k),
            decreases bs.len() - k,
        {
            proof {
                lemma_next_free_range(bs, k);
            }
            match cursor {
                None => {
                    proof {
                        lemma_sum_skip(bs, k, bs.len() as int);
                    }
                    return count;
                },
                Some(block) => {
                    let ghost j = next_free_from(bs, k)->0;
                    proof {
                        lemma_sum_skip(bs, k, j);
                        lemma_block_facts(bs, arena@, tiled_end(self.len as int), j);
                        lemma_tiling_facts(bs, arena@, tiled_end(self.len as int));
                        lemma_sum_bound(bs, j + 1);
                    }
                    count = count + 1;
                    cursor = next_free(arena, block);
                    proof {
                        k = j + 1;
                        lemma_next_free_range(bs, k);
                        if let Some(i) = next_free_from(bs, k) {
                            lemma_block_facts(bs, arena@, tiled_end(self.len as int), i);
                        }
                    }
                },
            }
        }
    }
}


// ---- replacing a run of blocks ----

/// `bs` with the blocks `lo..hi` replaced by `mid`.
pub open spec fn splice(bs: Seq<Blk>, lo: int, hi: int, mid: Seq<Blk>) -> Seq<Blk> {
    bs.take(lo) + mid + bs.skip(hi)
}

proof fn lemma_splice_index(bs: Seq<Blk>, lo: int, hi: int, mid: Seq<Blk>)
    requires
        0 <= lo <= hi <= bs.len(),
    ensures
        splice(bs, lo, hi, mid).len() == bs.len() - (hi - lo) + mid.len(),
        forall|i: int| 0 <= i < lo ==> #[trigger] splice(bs, lo, hi, mid)[i] == bs[i],
        forall|i: int| lo <= i < lo + mid.len() ==> #[trigger] splice(bs, lo, hi, mid)[i] == mid[i - lo],
        forall|i: int| lo + mid.len() <= i < bs.len() - (hi - lo) + mid.len()
            ==> #[trigger] splice(bs, lo, hi, mid)[i] == bs[i - mid.len() + (hi - lo)],
{
    let n = splice(bs, lo, hi, mid);
    assert forall|i: int| lo + mid.len() <= i < bs.len() - (hi - lo) + mid.len() implies #[trigger] n[i] == bs[i - mid.len() + (hi - lo)] by {
        assert(n[i] == bs.skip(hi)[i - lo - mid.len()]);
    }
    assert forall|i: int| lo <= i < lo + mid.len() implies #[trigger] n[i] == mid[i - lo] by {
        assert(n[i] == (bs.take(lo) + mid)[i]);
    }
    assert forall|i: int| 0 <= i < lo implies #[trigger] n[i] == bs[i] by {
        assert(n[i] == (bs.take(lo) + mid)[i]);
    }
}

/// Below the splice, the free-block search finds what it found before.
proof fn lemma_next_free_below(bs: Seq<Blk>, n: Seq<Blk>, lo: int, i: int)
    requires
        0 <= i <= lo,
        lo <= bs.len(),
        lo <= n.len(),
        forall|q: int| 0 <= q < lo ==> #[trigger] n[q] == bs[q],
        next_free_from(bs, i) is Some,
        next_free_from(bs, i)->0 < lo,
    ensures
        next_free_from(n, i) == next_free_from(bs, i),
    decreases lo - i,
{
    lemma_next_free_range(bs, i);
    if !is_free(bs[i]) {
        lemma_next_free_below(bs, n, lo, i + 1);
    }
}

/// Above the splice, the free-block search finds the same block, moved.
proof fn lemma_next_free_above(bs: Seq<Blk>, lo: int, hi: int, mid: Seq<Blk>, i: int)
    requires
        0 <= lo <= hi <= bs.len(),
        lo + mid.len() <= i <= bs.len() - (hi - lo) + mid.len(),
    ensures
        next_free_from(splice(bs, lo, hi, mid), i) == (match next_free_from(bs, i - mid.len() + (hi - lo)) {
            Some(x) => Some(x + mid.len() - (hi - lo)),
            None => None,
        }),
    decreases bs.len() - (hi - lo) + mid.len() - i,
{
    lemma_splice_index(bs, lo, hi, mid);
    if i < bs.len() - (hi - lo) + mid.len() {
        lemma_next_free_above(bs, lo, hi, mid, i + 1);
    }
}

/// Within or just before the splice: the search from `i` in `mid` finds
/// the first free `mid` block, else continues above it.
#[verifier::rlimit(50)]
#[verifier::spinoff_prover]
proof fn lemma_next_free_in_mid(bs: Seq<Blk>, lo: int, hi: int, mid: Seq<Blk>, m: int)
    requires
        0 <= lo <= hi <= bs.len(),
        0 <= m <= mid.len(),
    ensures
        next_free_from(splice(bs, lo, hi, mid), lo + m) == (match next_free_from(mid, m) {
            Some(x) => Some(lo + x),
            None => match next_free_from(bs, hi) {
                Some(x) => Some(x + mid.len() - (hi - lo)),
                None => None,
            },
        }),
    decreases mid.len() - m,
{
    lemma_splice_index(bs, lo, hi, mid);
    if m < mid.len() {
        lemma_next_free_in_mid(bs, lo, hi, mid, m + 1);
    } else {
        lemma_next_free_above(bs, lo, hi, mid, lo + mid.len());
    }
}


proof fn lemma_adjacent_ordered(bs: Seq<Blk>)
    requires
        forall|i: int| 0 <= i < bs.len() - 1 ==> #[trigger] bs[i].start + bs[i].size == bs[i + 1].start,
        forall|i: int| 0 <= i < bs.len() ==> #[trigger] bs[i].size >= 0,
    ensures
        forall|i: int, k: int| 0 <= i < k < bs.len() ==> #[trigger] bs[i].start + bs[i].size <= #[trigger] bs[k].start,
{
    assert forall|i: int, k: int| 0 <= i < k < bs.len() implies #[trigger] bs[i].start + bs[i].size <= #[trigger] bs[k].start by {
        lemma_adjacent_step(bs, i, k);
    }
}

proof fn lemma_adjacent_step(bs: Seq<Blk>, i: int, k: int)
    requires
        0 <= i < k < bs.len(),
        forall|q: int| 0 <= q < bs.len() - 1 ==> #[trigger] bs[q].start + bs[q].size == bs[q + 1].start,
        forall|q: int| 0 <= q < bs.len() ==> #[trigger] bs[q].size >= 0,
    ensures
        bs[i].start + bs[i].size <= bs[k].start,
    decreases k - i,
{
    if k > i + 1 {
        lemma_adjacent_step(bs, i, k - 1);
        assert(bs[k - 1].start + bs[k - 1].size == bs[k].start);
    }
}

/// The frame a splice leaves: every word outside the replaced bytes is
/// untouched but the link word of the free block before them.
pub open spec fn splice_frame(bs: Seq<Blk>, ao: Seq<u8>, an: Seq<u8>, lo: int, hi: int) -> bool {
    forall|q: int| 0 <= q && q + 8 <= ao.len() && (q + 8 <= bs[lo].start || bs[hi - 1].start + bs[hi - 1].size <= q)
        && (prev_free_before(bs, lo) is Some ==> (q + 8 <= bs[prev_free_before(bs, lo)->0].start + 8
            || bs[prev_free_before(bs, lo)->0].start + 16 <= q))
        ==> #[trigger] word(an, q) == word(ao, q)
}

/// `mid` covers blocks `lo..hi` exactly, with well-formed blocks and no two
/// free ones side by side, inside or at its edges.
pub open spec fn splice_fits(bs: Seq<Blk>, an: Seq<u8>, lo: int, hi: int, mid: Seq<Blk>) -> bool {
    &&& 0 <= lo < hi <= bs.len()
    &&& mid.len() >= 1
    &&& mid[0].start == bs[lo].start
    &&& forall|m: int| 0 <= m < mid.len() - 1 ==> #[trigger] mid[m].start + mid[m].size == mid[m + 1].start
    &&& mid.last().start + mid.last().size == bs[hi - 1].start + bs[hi - 1].size
    &&& forall|m: int| 0 <= m < mid.len() ==> block_ok(#[trigger] mid[m], an)
    &&& forall|m: int| 0 <= m < mid.len() - 1 ==> !(is_free(#[trigger] mid[m]) && is_free(mid[m + 1]))
    &&& (lo > 0 ==> !(is_free(bs[lo - 1]) && is_free(mid[0])))
    &&& (hi < bs.len() ==> !(is_free(mid.last()) && is_free(bs[hi])))
}

/// Every link in and into `mid` points at the right block of the result.
pub open spec fn splice_links(bs: Seq<Blk>, an: Seq<u8>, lo: int, hi: int, mid: Seq<Blk>) -> bool {
    let n = splice(bs, lo, hi, mid);
    &&& (prev_free_before(bs, lo) is Some ==> word(an, bs[prev_free_before(bs, lo)->0].start + 8)
        == link_word(n, next_free_from(n, prev_free_before(bs, lo)->0 + 1)))
    &&& forall|m: int| 0 <= m < mid.len() && is_free(#[trigger] mid[m])
        ==> word(an, mid[m].start + 8) == link_word(n, next_free_from(n, lo + m + 1))
}

/// The shape of the result: adjacency, order, first and last edges.
#[verifier::spinoff_prover]
#[verifier::rlimit(40)]
proof fn lemma_splice_shape(bs: Seq<Blk>, ao: Seq<u8>, an: Seq<u8>, end: int, lo: int, hi: int, mid: Seq<Blk>)
    requires
        tiles(bs, ao, end),
        splice_fits(bs, an, lo, hi, mid),
    ensures
        ({
            let n = splice(bs, lo, hi, mid);
            &&& n.len() >= 1
            &&& n[0].start == 0
            &&& forall|i: int| 0 <= i < n.len() - 1 ==> #[trigger] n[i].start + n[i].size == n[i + 1].start
            &&& forall|i: int, k: int| 0 <= i < k < n.len() ==> #[trigger] n[i].start + n[i].size <= #[trigger] n[k].start
            &&& n.last().start + n.last().size == end
        }),
{
    let n = splice(bs, lo, hi, mid);
    let d = mid.len() - (hi - lo);
    lemma_splice_index(bs, lo, hi, mid);
    lemma_tiling_facts(bs, ao, end);
    assert forall|i: int| 0 <= i < n.len() implies #[trigger] n[i].size >= 0 by {
        if lo <= i < lo + mid.len() {
            assert(n[i] == mid[i - lo]);
            assert(block_ok(mid[i - lo], an));
        }
    }
    assert forall|i: int| 0 <= i < n.len() - 1 implies #[trigger] n[i].start + n[i].size == n[i + 1].start by {
        if i < lo - 1 {
        } else if i == lo - 1 {
        } else if i < lo + mid.len() - 1 {
            assert(n[i] == mid[i - lo]);
            assert(n[i + 1] == mid[i + 1 - lo]);
        } else if i == lo + mid.len() - 1 {
            assert(n[i] == mid.last());
            assert(n[i + 1] == bs[hi]);
        } else {
            assert(n[i] == bs[i - d]);
            assert(n[i + 1] == bs[i + 1 - d]);
        }
    }
    lemma_adjacent_ordered(n);
    if lo == 0 {
        assert(n[0] == mid[0]);
    }
    if hi == bs.len() {
        assert(n.last() == mid.last());
    } else {
        assert(n.last() == bs.last());
    }
}

/// The words of the blocks outside the splice are untouched.
#[verifier::spinoff_prover]
#[verifier::rlimit(40)]
proof fn lemma_splice_outside(bs: Seq<Blk>, ao: Seq<u8>, an: Seq<u8>, end: int, lo: int, hi: int, i: int)
    requires
        tiles(bs, ao, end),
        end <= ao.len(),
        0 <= lo < hi <= bs.len(),
        0 <= i < bs.len(),
        i < lo || i >= hi,
        splice_frame(bs, ao, an, lo, hi),
    ensures
        block_ok(bs[i], ao),
        word(an, bs[i].start) == word(ao, bs[i].start),
        bs[i].payload is Some ==> word(an, bs[i].payload->0 - 8) == word(ao, bs[i].payload->0 - 8),
        is_free(bs[i]) && Some(i) != prev_free_before(bs, lo) ==> word(an, bs[i].start + 8) == word(ao, bs[i].start + 8),
{
    lemma_tiling_facts(bs, ao, end);
    lemma_block_facts(bs, ao, end, i);
    lemma_prev_free_range(bs, lo);
    if i < lo {
        lemma_adjacent_step(bs, i, lo);
    } else if i > hi - 1 {
        lemma_adjacent_step(bs, hi - 1, i);
    }
    if let Some(x) = prev_free_before(bs, lo) {
        lemma_block_facts(bs, ao, end, x);
        if x != i {
            if x < i {
                lemma_adjacent_step(bs, x, i);
            } else {
                lemma_adjacent_step(bs, i, x);
            }
        }
    }
}

/// No two free blocks of a tiling lie side by side.
proof fn lemma_tiles_apart(bs: Seq<Blk>, a: Seq<u8>, end: int)
    requires
        tiles(bs, a, end),
    ensures
        forall|i: int| 0 <= i < bs.len() - 1 ==> !(is_free(#[trigger] bs[i]) && is_free(bs[i + 1])),
{
    reveal(tiles);
}

/// The clauses of a tiling, one by one.
proof fn lemma_tiles_intro(n: Seq<Blk>, a: Seq<u8>, end: int)
    requires
        n.len() >= 1,
        n[0].start == 0,
        forall|i: int| 0 <= i < n.len() - 1 ==> #[trigger] n[i].start + n[i].size == n[i + 1].start,
        forall|i: int, k: int| 0 <= i < k < n.len() ==> #[trigger] n[i].start + n[i].size <= #[trigger] n[k].start,
        n.last().start + n.last().size == end,
        forall|i: int| 0 <= i < n.len() ==> block_ok(#[trigger] n[i], a),
        forall|i: int| 0 <= i < n.len() - 1 ==> !(is_free(#[trigger] n[i]) && is_free(n[i + 1])),
        forall|i: int| 0 <= i < n.len() && is_free(#[trigger] n[i]) ==> word(a, n[i].start + 8) == link_word(n, next_free_from(n, i + 1)),
    ensures
        tiles(n, a, end),
{
    reveal(tiles);
}

#[verifier::spinoff_prover]
#[verifier::rlimit(40)]
proof fn lemma_splice_blocks_ok(bs: Seq<Blk>, ao: Seq<u8>, an: Seq<u8>, end: int, lo: int, hi: int, mid: Seq<Blk>)
    requires
        tiles(bs, ao, end),
        end <= ao.len(),
        splice_fits(bs, an, lo, hi, mid),
        splice_frame(bs, ao, an, lo, hi),
    ensures
        forall|i: int| 0 <= i < splice(bs, lo, hi, mid).len() ==> block_ok(#[trigger] splice(bs, lo, hi, mid)[i], an),
{
    let n = splice(bs, lo, hi, mid);
    let d = mid.len() - (hi - lo);
    lemma_splice_index(bs, lo, hi, mid);
    assert forall|i: int| 0 <= i < n.len() implies block_ok(#[trigger] n[i], an) by {
        if i < lo {
            lemma_splice_outside(bs, ao, an, end, lo, hi, i);
        } else if i < lo + mid.len() {
            assert(n[i] == mid[i - lo]);
        } else {
            assert(n[i] == bs[i - d]);
            lemma_splice_outside(bs, ao, an, end, lo, hi, i - d);
        }
    }
}

#[verifier::spinoff_prover]
#[verifier::rlimit(40)]
proof fn lemma_splice_apart(bs: Seq<Blk>, ao: Seq<u8>, an: Seq<u8>, end: int, lo: int, hi: int, mid: Seq<Blk>)
    requires
        tiles(bs, ao, end),
        splice_fits(bs, an, lo, hi, mid),
    ensures
        forall|i: int| 0 <= i < splice(bs, lo, hi, mid).len() - 1
            ==> !(is_free(#[trigger] splice(bs, lo, hi, mid)[i]) && is_free(splice(bs, lo, hi, mid)[i + 1])),
{
    let n = splice(bs, lo, hi, mid);
    let d = mid.len() - (hi - lo);
    lemma_splice_index(bs, lo, hi, mid);
    lemma_tiles_apart(bs, ao, end);
    assert forall|i: int| 0 <= i < n.len() - 1 implies !(is_free(#[trigger] n[i]) && is_free(n[i + 1])) by {
        if i < lo - 1 {
        } else if i == lo - 1 {
        } else if i < lo + mid.len() - 1 {
            assert(n[i] == mid[i - lo]);
            assert(n[i + 1] == mid[i + 1 - lo]);
        } else if i == lo + mid.len() - 1 {
            assert(n[i] == mid.last());
        } else {
            assert(n[i] == bs[i - d]);
            assert(n[i + 1] == bs[i + 1 - d]);
        }
    }
}

#[verifier::spinoff_prover]
#[verifier::rlimit(40)]
proof fn lemma_splice_relinks(bs: Seq<Blk>, ao: Seq<u8>, an: Seq<u8>, end: int, lo: int, hi: int, mid: Seq<Blk>)
    requires
        tiles(bs, ao, end),
        end <= ao.len(),
        splice_fits(bs, an, lo, hi, mid),
        splice_frame(bs, ao, an, lo, hi),
        splice_links(bs, an, lo, hi, mid),
    ensures
        forall|i: int| 0 <= i < splice(bs, lo, hi, mid).len() && is_free(#[trigger] splice(bs, lo, hi, mid)[i])
            ==> word(an, splice(bs, lo, hi, mid)[i].start + 8)
                == link_word(splice(bs, lo, hi, mid), next_free_from(splice(bs, lo, hi, mid), i + 1)),
{
    let n = splice(bs, lo, hi, mid);
    let d = mid.len() - (hi - lo);
    lemma_splice_index(bs, lo, hi, mid);
    let pj = prev_free_before(bs, lo);
    lemma_prev_free_range(bs, lo);
    assert forall|i: int| 0 <= i < n.len() && is_free(#[trigger] n[i])
        implies word(an, n[i].start + 8) == link_word(n, next_free_from(n, i + 1)) by {
        if i < lo {
            if Some(i) != pj {
                lemma_splice_outside(bs, ao, an, end, lo, hi, i);
                lemma_block_facts(bs, ao, end, i);
                lemma_prev_free_max(bs, lo, i);
                lemma_next_free_range(bs, i + 1);
                lemma_next_free_below(bs, n, lo, i + 1);
            }
        } else if i < lo + mid.len() {
            assert(n[i] == mid[i - lo]);
        } else {
            let oi = i - d;
            assert(n[i] == bs[oi]);
            lemma_splice_outside(bs, ao, an, end, lo, hi, oi);
            lemma_block_facts(bs, ao, end, oi);
            lemma_next_free_above(bs, lo, hi, mid, i + 1);
            lemma_next_free_range(bs, oi + 1);
        }
    }
}

/// Replacing blocks `lo..hi` by `mid` keeps a tiling, given that `mid`
/// fits, the frame holds, and the links in and into `mid` are right.
proof fn lemma_tiles_splice(bs: Seq<Blk>, ao: Seq<u8>, an: Seq<u8>, end: int, lo: int, hi: int, mid: Seq<Blk>)
    requires
        tiles(bs, ao, end),
        an.len() == ao.len(),
        end <= ao.len(),
        splice_fits(bs, an, lo, hi, mid),
        splice_frame(bs, ao, an, lo, hi),
        splice_links(bs, an, lo, hi, mid),
    ensures
        tiles(splice(bs, lo, hi, mid), an, end),
{
    lemma_splice_shape(bs, ao, an, end, lo, hi, mid);
    lemma_splice_blocks_ok(bs, ao, an, end, lo, hi, mid);
    lemma_splice_apart(bs, ao, an, end, lo, hi, mid);
    lemma_splice_relinks(bs, ao, an, end, lo, hi, mid);
    lemma_tiles_intro(splice(bs, lo, hi, mid), an, end);
}

proof fn lemma_prev_free_range(bs: Seq<Blk>, k: int)
    requires
        0 <= k <= bs.len(),
    ensures
        match prev_free_before(bs, k) {
            Some(j) => 0 <= j < k && is_free(bs[j]) && forall|i: int| j < i < k ==> !is_free(#[trigger] bs[i]),
            None => forall|i: int| 0 <= i < k ==> !is_free(#[trigger] bs[i]),
        },
    decreases k,
{
    if k > 0 && !is_free(bs[k - 1]) {
        lemma_prev_free_range(bs, k - 1);
    }
}

proof fn lemma_prev_free_max(bs: Seq<Blk>, k: int, i: int)
    requires
        0 <= i < k <= bs.len(),
        is_free(bs[i]),
    ensures
        prev_free_before(bs, k) is Some,
        i <= prev_free_before(bs, k)->0,
{
    lemma_prev_free_range(bs, k);
}


// ---- allocation ----

/// `x` is a power of two.
pub open spec fn is_pow2(x: usize) -> bool {
    x != 0 && x & ((x - 1) as usize) == 0
}

/// Where the payload lands in block `b` for alignment `align`.
pub open spec fn payload_in(b: Blk, align: int) -> int {
    align_up_spec(b.start + HEADER, align)
}

/// First fit from block `k`: the first free block whose aligned payload of
/// `sz` bytes fits, with that payload; `None` when no block fits, or when
/// the payload end of the block being looked at would overflow.
pub open spec fn fit_from(bs: Seq<Blk>, k: int, sz: int, align: int) -> Option<(int, int)>
    decreases bs.len() - k,
{
    if k < 0 || k >= bs.len() {
        None
    } else if !is_free(bs[k]) {
        fit_from(bs, k + 1, sz, align)
    } else if payload_in(bs[k], align) + sz > usize::MAX {
        None
    } else if payload_in(bs[k], align) + sz <= bs[k].start + bs[k].size {
        Some((k, payload_in(bs[k], align)))
    } else {
        fit_from(bs, k + 1, sz, align)
    }
}

/// The blocks that replace free block `b` when payload `p` of `sz` bytes is
/// handed out of it: split when the remainder is worth a block.
pub open spec fn carve_mid(b: Blk, p: int, sz: int) -> Seq<Blk> {
    let t = p + sz;
    let e = b.start + b.size;
    if e - t >= MIN_BLOCK {
        seq![Blk { start: b.start, size: t - b.start, payload: Some(p) }, Blk { start: t, size: e - t, payload: None }]
    } else {
        seq![Blk { start: b.start, size: b.size, payload: Some(p) }]
    }
}

/// The blocks after handing out payload `p` of `sz` bytes from block `j`.
pub open spec fn carve(bs: Seq<Blk>, j: int, p: int, sz: int) -> Seq<Blk> {
    splice(bs, j, j + 1, carve_mid(bs[j], p, sz))
}

proof fn lemma_next_free_skip(n: Seq<Blk>, i: int, j: int)
    requires
        0 <= i <= j <= n.len(),
        forall|q: int| i <= q < j ==> !is_free(#[trigger] n[q]),
    ensures
        next_free_from(n, i) == next_free_from(n, j),
    decreases j - i,
{
    if i < j {
        lemma_next_free_skip(n, i + 1, j);
    }
}

proof fn lemma_fit_skip(bs: Seq<Blk>, i: int, j: int, sz: int, align: int)
    requires
        0 <= i <= j <= bs.len(),
        forall|q: int| i <= q < j ==> !is_free(#[trigger] bs[q]),
    ensures
        fit_from(bs, i, sz, align) == fit_from(bs, j, sz, align),
    decreases j - i,
{
    if i < j {
        lemma_fit_skip(bs, i + 1, j, sz, align);
    }
}

proof fn lemma_pow2_grain(a: usize)
    requires
        is_pow2(a),
    ensures
        a % 16 == 0 || a == 1 || a == 2 || a == 4 || a == 8,
{
    assert(a & 15 == 0 || a == 1 || a == 2 || a == 4 || a == 8) by (bit_vector)
        requires a != 0, a & ((a - 1) as usize) == 0;
    assert(a & 15 == 0 ==> a % 16 == 0) by (bit_vector);
}

proof fn lemma_align_up_facts(v: int, a: int)
    requires
        a > 0,
        v >= 0,
    ensures
        align_up_spec(v, a) >= v,
        align_up_spec(v, a) % a == 0,
        align_up_spec(v, a) <= v + a - 1,
        v % a == 0 ==> align_up_spec(v, a) == v,
{
    assert((v + a - 1) / a * a >= v) by (nonlinear_arith)
        requires a > 0, v >= 0;
    assert(((v + a - 1) / a * a) % a == 0) by (nonlinear_arith)
        requires a > 0, v >= 0;
    assert((v + a - 1) / a * a <= v + a - 1) by (nonlinear_arith)
        requires a > 0, v >= 0;
    if v % a == 0 {
        assert((v + a - 1) / a * a == v) by (nonlinear_arith)
            requires a > 0, v >= 0, v % a == 0;
    }
}

/// An aligned payload after a grain-aligned header stays on the grain.
#[verifier::spinoff_prover]
#[verifier::rlimit(40)]
proof fn lemma_payload_grain(start: int, a: usize)
    requires
        start >= 0,
        start % 16 == 0,
        is_pow2(a),
    ensures
        align_up_spec(start + HEADER, a as int) % 16 == 0,
        align_up_spec(start + HEADER, a as int) >= start + HEADER,
{
    lemma_pow2_grain(a);
    let v = start + 16;
    let ai = a as int;
    lemma_align_up_facts(v, ai);
    if a % 16 == 0 {
        let q = align_up_spec(v, ai) / ai;
        assert(align_up_spec(v, ai) == q * ai) by {
            vstd::arithmetic::div_mod::lemma_fundamental_div_mod(align_up_spec(v, ai), ai);
        }
        let m = ai / 16;
        assert(ai == m * 16);
        vstd::arithmetic::mul::lemma_mul_is_associative(q, m, 16);
        vstd::arithmetic::div_mod::lemma_mod_multiples_basic(q * m, 16);
    } else {
        assert(v % ai == 0);
    }
}

/// Carving a block out of a tiling keeps it one, and the new head is the
/// first free block of the result.
#[verifier::spinoff_prover]
#[verifier::rlimit(40)]
proof fn lemma_carve_ok(bs: Seq<Blk>, a0: Seq<u8>, an: Seq<u8>, end: int, j: int, p: int, sz: int)
    requires
        tiles(bs, a0, end),
        end <= a0.len(),
        an.len() == a0.len(),
        0 <= j < bs.len(),
        is_free(bs[j]),
        p % 16 == 0,
        sz % 16 == 0,
        sz >= 16,
        bs[j].start + HEADER <= p,
        p + sz <= bs[j].start + bs[j].size,
        ({
            let s = bs[j].start;
            let e = s + bs[j].size;
            let t = p + sz;
            let split = e - t >= MIN_BLOCK;
            let link = link_word(bs, next_free_from(bs, j + 1));
            &&& word(an, s) == (if split { t - s } else { e - s }) + 1
            &&& word(an, p - 8) == s
            &&& (split ==> word(an, t) == e - t && word(an, t + 8) == link)
            &&& (prev_free_before(bs, j) is Some ==> word(an, bs[prev_free_before(bs, j)->0].start + 8)
                == (if split { t as u64 } else { link }))
        }),
        splice_frame(bs, a0, an, j, j + 1),
    ensures
        tiles(carve(bs, j, p, sz), an, end),
        prev_free_before(bs, j) is Some ==> next_free_from(carve(bs, j, p, sz), 0) == next_free_from(bs, 0),
        prev_free_before(bs, j) is None ==> start_of(carve(bs, j, p, sz), next_free_from(carve(bs, j, p, sz), 0)) == (
            if bs[j].start + bs[j].size - (p + sz) >= MIN_BLOCK { Some((p + sz) as usize) } else { start_of(bs, next_free_from(bs, j + 1)) }),
{
    let s = bs[j].start;
    let e = s + bs[j].size;
    let t = p + sz;
    let mid = carve_mid(bs[j], p, sz);
    let n = carve(bs, j, p, sz);
    let d = mid.len() - 1;
    lemma_block_facts(bs, a0, end, j);
    lemma_tiles_apart(bs, a0, end);
    lemma_splice_index(bs, j, j + 1, mid);
    lemma_prev_free_range(bs, j);
    lemma_next_free_range(bs, j + 1);
    // The search from just below the new blocks.
    lemma_next_free_in_mid(bs, j, j + 1, mid, 0);
    if mid.len() == 2 {
        lemma_next_free_in_mid(bs, j, j + 1, mid, 2);
        assert(next_free_from(mid, 0) == Some(1int));
    } else {
        assert(next_free_from(mid, 1) is None);
        assert(next_free_from(mid, 0) is None);
    }
    if let Some(x) = next_free_from(bs, j + 1) {
        assert(n[x + d] == bs[x]);
    }
    if let Some(pj) = prev_free_before(bs, j) {
        lemma_next_free_skip(n, pj + 1, j);
        lemma_block_facts(bs, a0, end, pj);
        lemma_next_free_range(bs, 0);
        lemma_next_free_below(bs, n, j, 0);
    } else {
        lemma_next_free_skip(n, 0, j);
    }
    assert(block_ok(mid[0], an));
    if mid.len() == 2 {
        assert(block_ok(mid[1], an));
        assert(next_free_from(mid, 2) is None);
    }
    assert(splice_fits(bs, an, j, j + 1, mid));
    assert(splice_links(bs, an, j, j + 1, mid));
    lemma_tiles_splice(bs, a0, an, end, j, j + 1, mid);
}


impl FreeList {
    /// Point `prev`'s next pointer (or the head) at `target`.
    fn relink(&mut self, arena: &mut [u8], prev: Option<usize>, target: Option<usize>)
        requires
            prev is Some ==> prev->0 + 16 <= old(arena).len(),
        ensures
            final(self).len == old(self).len,
            final(self).blocks == old(self).blocks,
            final(self).freed == old(self).freed,
            final(arena)@.len() == old(arena)@.len(),
            prev is None ==> final(self).head == target && final(arena)@ == old(arena)@,
            prev is Some ==> final(self).head == old(self).head
                && word(final(arena)@, prev->0 + 8) == (match target {
                    Some(n) => n as u64,
                    None => NIL,
                })
                && moved_only(old(arena)@, final(arena)@, prev->0 + 8),
    {
        match prev {
            Some(block) => set_next_free(arena, block, target),
            None => self.head = target,
        }
    }

    /// Allocate `size` bytes aligned to `align`, returning a payload offset.
    ///
    /// `None` if `align` is not a power of two, the request is empty, or no
    /// block can host it. Otherwise the payload sits in the first free block,
    /// in address order, that can host it (first fit).
    #[verifier::rlimit(100)]
    #[verifier::spinoff_prover]
    pub fn allocate(&mut self, arena: &mut [u8], size: usize, align: usize) -> (r: Option<usize>)
        requires
            old(self).inv(old(arena)@),
            size != 0 && is_pow2(align) ==> size <= usize::MAX - 15 && old(arena).len() + align <= usize::MAX,
        ensures
            ({
                let sz = align_up_spec(size as int, 16);
                let fit = fit_from(old(self).model(), 0, sz, align as int);
                if size == 0 || !is_pow2(align) || fit is None {
                    r is None && *final(self) == *old(self) && final(arena)@ == old(arena)@
                } else {
                    &&& r == Some((fit->0).1 as usize)
                    &&& final(self).inv(final(arena)@)
                    &&& final(self).model() == carve(old(self).model(), (fit->0).0, (fit->0).1, sz)
                }
            }),
            r is Some ==> final(self).live(r->0 as int) && (r->0 as int) % (align as int) == 0,
            r is Some ==> final(self).freed() == Set::<int>::empty(),
            r is Some ==> !old(self).live(r->0 as int),
            r is Some ==> forall|q: int| #[trigger] final(self).live(q) == (old(self).live(q) || q == r->0),
            r is Some ==> r->0 >= HEADER && r->0 + size <= final(arena)@.len(),
            r is Some ==> exists|k: int| 0 <= k < final(self).model().len() && #[trigger] final(self).model()[k].payload == Some(r->0 as int)
                && r->0 + size <= final(self).model()[k].start + final(self).model()[k].size,
    {
        if size == 0 || !(align != 0 && align & (align - 1) == 0) || arena.len() != self.len {
            return None;
        }
        let rounded = align_up(size, GRAIN);
        let ghost bs = self.blocks@;
        let ghost a0 = arena@;
        let ghost end = tiled_end(self.len as int);
        proof {
            lemma_tiling_facts(bs, a0, end);
            lemma_next_free_range(bs, 0);
            lemma_prev_free_range(bs, 0);
            if let Some(x) = next_free_from(bs, 0) {
                lemma_block_facts(bs, a0, end, x);
            }
        }

        // First fit, tracking the predecessor so the block can be unlinked.
        let mut prev: Option<usize> = None;
        let mut cursor = self.head;
        let ghost mut k: int = 0;

        loop
            invariant
                self.inv(arena@),
                *self == *old(self),
                arena@ == old(arena)@,
                bs == self.blocks@,
                a0 == arena@,
                end == tiled_end(self.len as int),
                rounded == align_up_spec(size as int, 16),
                rounded % 16 == 0,
                rounded >= 16,
                is_pow2(align),
                self.len + align <= usize::MAX,
                0 <= k <= bs.len(),
                cursor == start_of(bs, next_free_from(bs, k)),
                prev == start_of(bs, prev_free_before(bs, k)),
                prev_free_before(bs, k) is Some ==> bs[prev_free_before(bs, k)->0].start + 16 <= end,
                next_free_from(bs, k) is Some ==> bs[next_free_from(bs, k)->0].start + bs[next_free_from(bs, k)->0].size <= end,
                fit_from(bs, 0, rounded as int, align as int) == fit_from(bs, k, rounded as int, align as int),
            decreases bs.len() - k,
        {
            proof {
                lemma_next_free_range(bs, k);
                lemma_prev_free_range(bs, k);
            }
            let block = match cursor {
                None => {
                    proof {
                        lemma_fit_skip(bs, k, bs.len() as int, rounded as int, align as int);
                    }
                    return None;
                },
                Some(b) => b,
            };
            let ghost j = next_free_from(bs, k)->0;
            proof {
                lemma_fit_skip(bs, k, j, rounded as int, align as int);
                lemma_block_facts(bs, a0, end, j);
                lemma_size_word(bs, a0, end, j);
                lemma_tiling_facts(bs, a0, end);
                lemma_prev_free_range(bs, j);
                lemma_next_free_range(bs, j + 1);
                lemma_payload_grain(bs[j].start, align);
                lemma_align_up_facts(bs[j].start + HEADER, align as int);
                if let Some(x) = next_free_from(bs, j + 1) {
                    lemma_block_facts(bs, a0, end, x);
                }
            }
            let block_end = block + block_size(arena, block);
            // The payload starts after the header, pushed up to `align`.
            let payload = align_up(block + HEADER, align);
            let payload_end = match payload.checked_add(rounded) {
                Some(e) => e,
                None => return None,
            };
            if payload_end <= block_end {
                proof {
                    lemma_prev_free_skip(bs, k, j);
                    if holds_payload(bs, payload as int) {
                        let i = choose|i: int| 0 <= i < bs.len() && #[trigger] bs[i].payload == Some(payload as int);
                        lemma_block_facts(bs, a0, end, i);
                        lemma_same_block(bs, a0, end, i, j, payload as int);
                    }
                }
                self.carve_block(arena, prev, block, payload, rounded, Ghost(j));
                return Some(payload);
            }
            prev = Some(block);
            cursor = next_free(arena, block);
            proof {
                k = j + 1;
                assert(prev_free_before(bs, k) == Some(j));
                lemma_next_free_range(bs, k);
                if let Some(x) = next_free_from(bs, k) {
                    lemma_block_facts(bs, a0, end, x);
                }
            }
        }
    }
}

/// The words a carve writes, composed: what [`lemma_carve_ok`] needs.
#[verifier::spinoff_prover]
#[verifier::rlimit(60)]
proof fn lemma_carve_final(
    bs: Seq<Blk>,
    a0: Seq<u8>,
    a1: Seq<u8>,
    a2: Seq<u8>,
    a3: Seq<u8>,
    a4: Seq<u8>,
    a5: Seq<u8>,
    an: Seq<u8>,
    end: int,
    j: int,
    prev: Option<usize>,
    p: int,
    sz: int,
)
    requires
        tiles(bs, a0, end),
        end <= a0.len(),
        end <= usize::MAX,
        end % 16 == 0,
        0 <= j < bs.len(),
        is_free(bs[j]),
        prev == start_of(bs, prev_free_before(bs, j)),
        p % 16 == 0,
        sz % 16 == 0,
        sz >= 16,
        bs[j].start + HEADER <= p,
        p + sz <= bs[j].start + bs[j].size,
        ({
            let s = bs[j].start;
            let e = s + bs[j].size;
            let t = p + sz;
            let link = link_word(bs, next_free_from(bs, j + 1));
            &&& (e - t >= MIN_BLOCK ==> {
                &&& moved_only(a0, a1, t) && word(a1, t) == e - t
                &&& moved_only(a1, a2, t + 8) && word(a2, t + 8) == link
                &&& (prev is Some ==> moved_only(a2, a3, prev->0 + 8) && word(a3, prev->0 + 8) == t as u64)
                &&& (prev is None ==> a3 == a2)
                &&& moved_only(a3, a4, s) && word(a4, s) == t - s
            })
            &&& (e - t < MIN_BLOCK ==> {
                &&& (prev is Some ==> moved_only(a0, a4, prev->0 + 8) && word(a4, prev->0 + 8) == link)
                &&& (prev is None ==> a4 == a0)
            })
            &&& moved_only(a4, a5, p - 8) && word(a5, p - 8) == s
            &&& moved_only(a5, an, s) && word(an, s) == word(a5, s) | 1
        }),
    ensures
        tiles(carve(bs, j, p, sz), an, end),
        an.len() == a0.len(),
        prev is Some ==> start_of(carve(bs, j, p, sz), next_free_from(carve(bs, j, p, sz), 0))
            == start_of(bs, next_free_from(bs, 0)),
        prev is None ==> start_of(carve(bs, j, p, sz), next_free_from(carve(bs, j, p, sz), 0)) == (
            if bs[j].start + bs[j].size - (p + sz) >= MIN_BLOCK { Some((p + sz) as usize) } else { start_of(bs, next_free_from(bs, j + 1)) }),
{
    let s = bs[j].start;
    let e = s + bs[j].size;
    let t = p + sz;
    let split = e - t >= MIN_BLOCK;
    lemma_block_facts(bs, a0, end, j);
    lemma_size_word(bs, a0, end, j);
    lemma_prev_free_range(bs, j);
    let pw: int = match prev { Some(x) => x + 8, None => -16 };
    if let Some(x) = prev_free_before(bs, j) {
        lemma_block_facts(bs, a0, end, x);
        lemma_tiling_facts(bs, a0, end);
        lemma_adjacent_ordered(bs);
        assert(bs[x].start + bs[x].size <= bs[j].start);
    }
    // Outside the block and the previous link, nothing moved.
    assert forall|q: int| 0 <= q && q + 8 <= a0.len() && (q + 8 <= s || e <= q) && (q + 8 <= pw || pw + 8 <= q)
        implies #[trigger] word(an, q) == word(a0, q) by {
        assert(word(an, q) == word(a5, q));
        assert(word(a5, q) == word(a4, q));
        if split {
            assert(word(a4, q) == word(a3, q));
            assert(word(a3, q) == word(a2, q));
            assert(word(a2, q) == word(a1, q));
            assert(word(a1, q) == word(a0, q));
        }
    }
    assert(word(a5, s) == word(a4, s));
    if !split {
        assert(word(a4, s) == word(a0, s));
    }
    lemma_mark_bits((if split { t - s } else { e - s }) as u64);
    assert(word(an, p - 8) == word(a5, p - 8));
    if split {
        assert(word(an, t) == word(a1, t)) by {
            assert(word(an, t) == word(a5, t));
            assert(word(a5, t) == word(a4, t));
            assert(word(a4, t) == word(a3, t));
            assert(word(a3, t) == word(a2, t));
            assert(word(a2, t) == word(a1, t));
        }
        assert(word(an, t + 8) == word(a2, t + 8)) by {
            assert(word(an, t + 8) == word(a5, t + 8));
            assert(word(a5, t + 8) == word(a4, t + 8));
            assert(word(a4, t + 8) == word(a3, t + 8));
            assert(word(a3, t + 8) == word(a2, t + 8));
        }
    }
    if prev is Some {
        assert(word(an, pw) == word(a5, pw));
        assert(word(a5, pw) == word(a4, pw));
        if split {
            assert(word(a4, pw) == word(a3, pw));
        }
    }
    assert(splice_frame(bs, a0, an, j, j + 1));
    lemma_carve_ok(bs, a0, an, end, j, p, sz);
    let nb = carve(bs, j, p, sz);
    lemma_splice_index(bs, j, j + 1, carve_mid(bs[j], p, sz));
    if prev is Some {
        lemma_next_free_range(bs, 0);
        if let Some(x) = next_free_from(bs, 0) {
            lemma_prev_free_max(bs, j, x);
        }
    }
}

impl FreeList {
    /// Hand out `payload` of `size` bytes from free block `j`, which starts
    /// at `block`; `prev` is the free block before it.
    #[verifier::rlimit(60)]
    #[verifier::spinoff_prover]
    fn carve_block(&mut self, arena: &mut [u8], prev: Option<usize>, block: usize, payload: usize, size: usize, Ghost(j): Ghost<int>)
        requires
            old(self).inv(old(arena)@),
            0 <= j < old(self).model().len(),
            is_free(old(self).model()[j]),
            block == old(self).model()[j].start,
            prev == start_of(old(self).model(), prev_free_before(old(self).model(), j)),
            payload % 16 == 0,
            size % 16 == 0,
            size >= 16,
            block + HEADER <= payload,
            payload + size <= block + old(self).model()[j].size,
        ensures
            final(self).inv(final(arena)@),
            final(self).model() == carve(old(self).model(), j, payload as int, size as int),
            final(self).freed() == Set::<int>::empty(),
            j < final(self).model().len(),
            final(self).model()[j].payload == Some(payload as int),
            payload + size <= final(self).model()[j].start + final(self).model()[j].size,
            payload + size <= final(arena)@.len(),
            forall|q: int| #[trigger] final(self).live(q) == (old(self).live(q) || q == payload),
    {
        let ghost bs = self.blocks@;
        let ghost a0 = arena@;
        let ghost end = tiled_end(self.len as int);
        proof {
            lemma_block_facts(bs, a0, end, j);
            lemma_size_word(bs, a0, end, j);
            lemma_tiling_facts(bs, a0, end);
            lemma_prev_free_range(bs, j);
            lemma_next_free_range(bs, j + 1);
            if let Some(x) = next_free_from(bs, j + 1) {
                lemma_block_facts(bs, a0, end, x);
            }
            if let Some(x) = prev_free_before(bs, j) {
                lemma_block_facts(bs, a0, end, x);
                lemma_adjacent_ordered(bs);
                assert(bs[x].start + bs[x].size <= bs[j].start);
            }
        }
        let block_end = block + block_size(arena, block);
        let next = next_free(arena, block);
        // Anything before the payload beyond the header is padding we cannot
        // hand back; it stays part of this block.
        let tail = payload + size;
        let ghost (mut a1, mut a2, mut a3) = (a0, a0, a0);
        if block_end - tail >= MIN_BLOCK {
            // Split: the remainder becomes a free block of its own.
            set_block_size(arena, tail, block_end - tail);
            proof {
                a1 = arena@;
            }
            set_next_free(arena, tail, next);
            proof {
                a2 = arena@;
            }
            self.relink(arena, prev, Some(tail));
            proof {
                a3 = arena@;
            }
            set_block_size(arena, block, tail - block);
        } else {
            // Too small to split: the whole block goes to the caller.
            self.relink(arena, prev, next);
        }
        let ghost a4 = arena@;
        // Record where the block starts so `dealloc` can find it after
        // alignment moved the payload away from `block + HEADER`.
        write_u64(arena, payload - 8, block as u64);
        let ghost a5 = arena@;
        // Mark it live. `dealloc` refuses any block without this, which is
        // what makes a double free a rejection instead of a second insertion
        // into an address-ordered list — that would build a cycle and hand
        // the same memory out twice.
        mark_allocated(arena, block);
        proof {
            lemma_carve_final(bs, a0, a1, a2, a3, a4, a5, arena@, end, j, prev, payload as int, size as int);
        }
        self.blocks = Ghost(carve(bs, j, payload as int, size as int));
        self.freed = Ghost(Map::empty());
        assert(self.freed@.dom() =~= Set::<int>::empty());
        proof {
            lemma_splice_index(bs, j, j + 1, carve_mid(bs[j], payload as int, size as int));
            assert(self.model()[j].payload == Some(payload as int));
            lemma_block_facts(self.model(), arena@, end, j);
            assert forall|q: int| #[trigger] self.live(q) == (old(self).live(q) || q == payload) by {
                lemma_carve_live(bs, a0, end, j, payload as int, size as int, q);
            }
        }
    }
}

proof fn lemma_prev_free_skip(bs: Seq<Blk>, k: int, j: int)
    requires
        0 <= k <= j <= bs.len(),
        forall|q: int| k <= q < j ==> !is_free(#[trigger] bs[q]),
    ensures
        prev_free_before(bs, j) == prev_free_before(bs, k),
    decreases j - k,
{
    if k < j {
        lemma_prev_free_skip(bs, k, j - 1);
    }
}


// ---- freeing ----

/// Blocks `lo..hi` that freeing live block `k` merges into one free block:
/// `k` itself, with each free neighbour.
pub open spec fn release_lo(bs: Seq<Blk>, k: int) -> int {
    if k > 0 && is_free(bs[k - 1]) { k - 1 } else { k }
}

pub open spec fn release_hi(bs: Seq<Blk>, k: int) -> int {
    if k + 1 < bs.len() && is_free(bs[k + 1]) { k + 2 } else { k + 1 }
}

/// The free block that replaces them.
pub open spec fn released_block(bs: Seq<Blk>, k: int) -> Blk {
    let lo = release_lo(bs, k);
    let hi = release_hi(bs, k);
    Blk { start: bs[lo].start, size: bs[hi - 1].start + bs[hi - 1].size - bs[lo].start, payload: None }
}

/// The blocks after freeing live block `k`: it is free again, merged with
/// the free blocks on either side.
pub open spec fn release(bs: Seq<Blk>, k: int) -> Seq<Blk> {
    splice(bs, release_lo(bs, k), release_hi(bs, k), seq![released_block(bs, k)])
}

/// The word facts a free must leave behind.
pub open spec fn release_words(bs: Seq<Blk>, an: Seq<u8>, k: int) -> bool {
    let lo = release_lo(bs, k);
    let hi = release_hi(bs, k);
    let b = released_block(bs, k);
    &&& word(an, b.start) == b.size
    &&& word(an, b.start + 8) == link_word(bs, next_free_from(bs, hi))
    &&& (prev_free_before(bs, lo) is Some ==> word(an, bs[prev_free_before(bs, lo)->0].start + 8) == b.start as u64)
}

#[verifier::spinoff_prover]
#[verifier::rlimit(60)]
proof fn lemma_release_fits(bs: Seq<Blk>, a0: Seq<u8>, an: Seq<u8>, end: int, k: int)
    requires
        tiles(bs, a0, end),
        end <= a0.len(),
        0 <= k < bs.len(),
        !is_free(bs[k]),
        release_words(bs, an, k),
    ensures
        splice_fits(bs, an, release_lo(bs, k), release_hi(bs, k), seq![released_block(bs, k)]),
{
    let lo = release_lo(bs, k);
    let hi = release_hi(bs, k);
    let b = released_block(bs, k);
    lemma_tiles_apart(bs, a0, end);
    lemma_block_facts(bs, a0, end, k);
    lemma_block_facts(bs, a0, end, lo);
    lemma_block_facts(bs, a0, end, hi - 1);
    if lo > 0 {
        assert(!is_free(bs[lo - 1]));
    }
    if hi < bs.len() {
        assert(!is_free(bs[hi]));
    }
    assert(block_ok(b, an));
    assert(seq![b][0] == b);
}

#[verifier::spinoff_prover]
#[verifier::rlimit(60)]
proof fn lemma_release_links(bs: Seq<Blk>, a0: Seq<u8>, an: Seq<u8>, end: int, k: int)
    requires
        tiles(bs, a0, end),
        0 <= k < bs.len(),
        !is_free(bs[k]),
        release_words(bs, an, k),
    ensures
        splice_links(bs, an, release_lo(bs, k), release_hi(bs, k), seq![released_block(bs, k)]),
{
    let lo = release_lo(bs, k);
    let hi = release_hi(bs, k);
    let b = released_block(bs, k);
    let mid = seq![b];
    let n = release(bs, k);
    let d = 1 - (hi - lo);
    lemma_splice_index(bs, lo, hi, mid);
    lemma_next_free_range(bs, hi);
    lemma_next_free_in_mid(bs, lo, hi, mid, 1);
    assert(next_free_from(mid, 1) is None);
    if let Some(x) = next_free_from(bs, hi) {
        assert(n[x + d] == bs[x]);
    }
    if let Some(pj) = prev_free_before(bs, lo) {
        lemma_prev_free_range(bs, lo);
        lemma_next_free_in_mid(bs, lo, hi, mid, 0);
        assert(next_free_from(mid, 0) == Some(0int));
        lemma_next_free_skip(n, pj + 1, lo);
    }
}

#[verifier::spinoff_prover]
#[verifier::rlimit(60)]
proof fn lemma_release_head(bs: Seq<Blk>, k: int)
    requires
        0 <= k < bs.len(),
        !is_free(bs[k]),
    ensures
        prev_free_before(bs, k) is Some ==> start_of(release(bs, k), next_free_from(release(bs, k), 0))
            == start_of(bs, next_free_from(bs, 0)),
        prev_free_before(bs, k) is None ==> start_of(release(bs, k), next_free_from(release(bs, k), 0)) == Some(bs[k].start as usize),
{
    let lo = release_lo(bs, k);
    let hi = release_hi(bs, k);
    let b = released_block(bs, k);
    let mid = seq![b];
    let n = release(bs, k);
    lemma_splice_index(bs, lo, hi, mid);
    lemma_prev_free_range(bs, k);
    lemma_next_free_in_mid(bs, lo, hi, mid, 0);
    assert(next_free_from(mid, 0) == Some(0int));
    if prev_free_before(bs, k) is Some {
        lemma_next_free_range(bs, 0);
        let x = next_free_from(bs, 0)->0;
        lemma_prev_free_max(bs, k, x);
        if x < lo {
            lemma_next_free_below(bs, n, lo, 0);
        } else {
            assert(x == lo);
            lemma_next_free_skip(n, 0, lo);
        }
    } else {
        lemma_next_free_skip(n, 0, lo);
        assert(lo == k);
    }
}

/// Freeing keeps a tiling, and the head follows.
proof fn lemma_release_ok(bs: Seq<Blk>, a0: Seq<u8>, an: Seq<u8>, end: int, k: int)
    requires
        tiles(bs, a0, end),
        end <= a0.len(),
        an.len() == a0.len(),
        0 <= k < bs.len(),
        !is_free(bs[k]),
        release_words(bs, an, k),
        splice_frame(bs, a0, an, release_lo(bs, k), release_hi(bs, k)),
    ensures
        tiles(release(bs, k), an, end),
        prev_free_before(bs, k) is Some ==> start_of(release(bs, k), next_free_from(release(bs, k), 0))
            == start_of(bs, next_free_from(bs, 0)),
        prev_free_before(bs, k) is None ==> start_of(release(bs, k), next_free_from(release(bs, k), 0)) == Some(bs[k].start as usize),
{
    lemma_release_fits(bs, a0, an, end, k);
    lemma_release_links(bs, a0, an, end, k);
    lemma_tiles_splice(bs, a0, an, end, release_lo(bs, k), release_hi(bs, k), seq![released_block(bs, k)]);
    lemma_release_head(bs, k);
}

/// The words a free writes, composed: what [`lemma_release_ok`] needs.
#[verifier::spinoff_prover]
#[verifier::rlimit(100)]
proof fn lemma_free_final(
    bs: Seq<Blk>,
    b0: Seq<u8>,
    b1: Seq<u8>,
    b2: Seq<u8>,
    b3: Seq<u8>,
    b4: Seq<u8>,
    b5: Seq<u8>,
    b6: Seq<u8>,
    b7: Seq<u8>,
    end: int,
    k: int,
    prev: Option<usize>,
    cursor: Option<usize>,
    merge_next: bool,
    merge_prev: bool,
)
    requires
        tiles(bs, b0, end),
        end <= b0.len(),
        end <= usize::MAX,
        end % 16 == 0,
        0 <= k < bs.len(),
        !is_free(bs[k]),
        prev == start_of(bs, prev_free_before(bs, k)),
        cursor == start_of(bs, next_free_from(bs, k + 1)),
        merge_next == (cursor is Some && bs[k].start + bs[k].size == cursor->0),
        merge_prev == (prev is Some && prev->0 + bs[prev_free_before(bs, k)->0].size == bs[k].start),
        moved_only(b0, b1, bs[k].start) && word(b1, bs[k].start) == bs[k].size,
        moved_only(b1, b2, bs[k].start + 8) && word(b2, bs[k].start + 8) == link_word(bs, next_free_from(bs, k + 1)),
        prev is Some ==> moved_only(b2, b3, prev->0 + 8) && word(b3, prev->0 + 8) == bs[k].start as u64,
        prev is None ==> b3 == b2,
        merge_next ==> moved_only(b3, b4, bs[k].start)
            && word(b4, bs[k].start) == bs[k].size + bs[next_free_from(bs, k + 1)->0].size
            && moved_only(b4, b5, bs[k].start + 8)
            && word(b5, bs[k].start + 8) == link_word(bs, next_free_from(bs, next_free_from(bs, k + 1)->0 + 1)),
        !merge_next ==> b5 == b3,
        merge_prev ==> moved_only(b5, b6, prev->0 as int)
            && word(b6, prev->0 as int) == bs[prev_free_before(bs, k)->0].size + (word(b5, bs[k].start) & !1u64) as int
            && moved_only(b6, b7, prev->0 + 8) && word(b7, prev->0 + 8) == word(b5, bs[k].start + 8),
        !merge_prev ==> b7 == b5,
    ensures
        release_words(bs, b7, k),
        splice_frame(bs, b0, b7, release_lo(bs, k), release_hi(bs, k)),
        b7.len() == b0.len(),
{
    let s = bs[k].start;
    let size = bs[k].size;
    let lo = release_lo(bs, k);
    let hi = release_hi(bs, k);
    lemma_tiling_facts(bs, b0, end);
    lemma_adjacent_ordered(bs);
    lemma_block_facts(bs, b0, end, k);
    lemma_prev_free_range(bs, k);
    lemma_next_free_range(bs, k + 1);
    let pw: int = match prev { Some(x) => x + 8, None => -16 };
    // Which neighbours merge.
    if let Some(pj) = prev_free_before(bs, k) {
        lemma_block_facts(bs, b0, end, pj);
        if pj < k - 1 {
            assert(bs[pj].start + bs[pj].size == bs[pj + 1].start);
            assert(bs[pj + 1].start + bs[pj + 1].size <= bs[k].start);
        }
        assert(merge_prev == (pj == k - 1));
    }
    assert(merge_prev == (lo == k - 1));
    if let Some(nj) = next_free_from(bs, k + 1) {
        lemma_block_facts(bs, b0, end, nj);
        if nj > k + 1 {
            assert(bs[k + 1].start + bs[k + 1].size <= bs[nj].start);
        }
        assert(merge_next == (nj == k + 1));
    }
    assert(merge_next == (hi == k + 2));
    lemma_block_facts(bs, b0, end, hi - 1);
    // The size word of the freed block, before the backward merge.
    let mid_size = if merge_next { size + bs[k + 1].size } else { size };
    assert(word(b5, s) == mid_size) by {
        if !merge_next {
            assert(word(b3, s) == word(b2, s));
            assert(word(b2, s) == word(b1, s));
        }
    }
    lemma_mark_bits(mid_size as u64);
    assert(word(b5, s + 8) == link_word(bs, next_free_from(bs, hi))) by {
        if !merge_next {
            assert(word(b3, s + 8) == word(b2, s + 8));
        } else {
            lemma_next_free_range(bs, k + 2);
        }
    }
    // The frame.
    assert forall|q: int| 0 <= q && q + 8 <= b0.len() && (q + 8 <= bs[lo].start || bs[hi - 1].start + bs[hi - 1].size <= q)
        && (prev_free_before(bs, lo) is Some ==> (q + 8 <= bs[prev_free_before(bs, lo)->0].start + 8
            || bs[prev_free_before(bs, lo)->0].start + 16 <= q))
        implies #[trigger] word(b7, q) == word(b0, q) by {
        if merge_prev {
            assert(word(b7, q) == word(b6, q));
            assert(word(b6, q) == word(b5, q));
        }
        if merge_next {
            assert(word(b5, q) == word(b4, q));
            assert(word(b4, q) == word(b3, q));
        }
        if prev is Some {
            assert(word(b3, q) == word(b2, q));
        }
        assert(word(b2, q) == word(b1, q));
        assert(word(b1, q) == word(b0, q));
    }
    // The new block's words.
    if merge_prev {
        let pj = prev_free_before(bs, k)->0;
        assert(word(b7, bs[lo].start) == word(b6, bs[lo].start));
        if let Some(pp) = prev_free_before(bs, lo) {
            lemma_prev_free_range(bs, lo);
            lemma_block_facts(bs, b0, end, pp);
            lemma_next_free_range(bs, pp + 1);
            lemma_next_free_skip(bs, pp + 1, lo);
            let w = bs[pp].start + 8;
            assert(word(b7, w) == word(b0, w)) by {
                assert(bs[pp].start + bs[pp].size <= bs[lo].start);
                assert(word(b7, w) == word(b6, w));
                assert(word(b6, w) == word(b5, w));
                if merge_next {
                    assert(word(b5, w) == word(b4, w));
                    assert(word(b4, w) == word(b3, w));
                }
                assert(word(b3, w) == word(b2, w));
                assert(word(b2, w) == word(b1, w));
                assert(word(b1, w) == word(b0, w));
            }
        }
    } else {
        assert(word(b7, s) == word(b5, s));
        assert(word(b7, s + 8) == word(b5, s + 8));
        if prev is Some {
            assert(word(b7, pw) == word(b3, pw)) by {
                if merge_next {
                    assert(word(b5, pw) == word(b4, pw));
                    assert(word(b4, pw) == word(b3, pw));
                }
            }
        }
    }
}

/// What `next_free` then `set_next_free` copy: the link word itself, when
/// it fits an offset.
pub open spec fn copied_link(w: u64) -> u64 {
    if w == NIL { NIL } else { (w as usize) as u64 }
}

/// Absorb the free block at `cursor` when it starts where this one ends.
#[verifier::rlimit(50)]
#[verifier::spinoff_prover]
fn merge_forward(arena: &mut [u8], block: usize, size: usize, cursor: Option<usize>) -> (r: (bool, Ghost<Seq<u8>>))
    requires
        block + 16 <= old(arena).len(),
        block + size <= old(arena).len(),
        cursor is Some ==> cursor->0 + 16 <= old(arena).len() && block + 16 <= cursor->0,
        cursor is Some && block + size == cursor->0 ==> size + (word(old(arena)@, cursor->0 as int) & !1u64) <= old(arena).len() - block,
    ensures
        r.0 == (cursor is Some && block + size == cursor->0),
        r.0 ==> moved_only(old(arena)@, r.1@, block as int)
            && word(r.1@, block as int) == size + (word(old(arena)@, cursor->0 as int) & !1u64)
            && moved_only(r.1@, final(arena)@, block + 8)
            && word(final(arena)@, block + 8) == copied_link(word(old(arena)@, cursor->0 + 8)),
        !r.0 ==> final(arena)@ == old(arena)@,
{
    let ghost a = arena@;
    if let Some(next) = cursor {
        if block + size == next {
            let merged = size + block_size(arena, next);
            let link = next_free(arena, next);
            set_block_size(arena, block, merged);
            let ghost b4 = arena@;
            set_next_free(arena, block, link);
            return (true, Ghost(b4));
        }
    }
    (false, Ghost(a))
}

/// Let the free block at `prev` absorb this one when it ends where this one
/// starts.
#[verifier::rlimit(50)]
#[verifier::spinoff_prover]
fn merge_backward(arena: &mut [u8], block: usize, prev: Option<usize>) -> (r: (bool, Ghost<Seq<u8>>))
    requires
        block + 16 <= old(arena).len(),
        prev is Some ==> prev->0 + 16 <= block,
        prev is Some ==> prev->0 + (word(old(arena)@, prev->0 as int) & !1u64) <= old(arena).len(),
        (word(old(arena)@, block as int) & !1u64) <= old(arena).len() - block,
    ensures
        r.0 == (prev is Some && prev->0 + (word(old(arena)@, prev->0 as int) & !1u64) == block),
        r.0 ==> moved_only(old(arena)@, r.1@, prev->0 as int)
            && word(r.1@, prev->0 as int) == (word(old(arena)@, prev->0 as int) & !1u64) + (word(old(arena)@, block as int) & !1u64)
            && moved_only(r.1@, final(arena)@, prev->0 + 8)
            && word(final(arena)@, prev->0 + 8) == copied_link(word(old(arena)@, block + 8)),
        !r.0 ==> final(arena)@ == old(arena)@,
{
    let ghost a = arena@;
    if let Some(previous) = prev {
        let previous_size = block_size(arena, previous);
        if previous + previous_size == block {
            let merged = previous_size + block_size(arena, block);
            let link = next_free(arena, block);
            set_block_size(arena, previous, merged);
            let ghost b6 = arena@;
            set_next_free(arena, previous, link);
            return (true, Ghost(b6));
        }
    }
    (false, Ghost(a))
}

impl FreeList {
    /// The free blocks on either side of `block`: the last one that starts
    /// at or before it, and the first one after it.
    #[verifier::rlimit(60)]
    #[verifier::spinoff_prover]
    fn insertion_point(&self, arena: &[u8], block: usize, Ghost(legit): Ghost<Option<int>>) -> (r: (Option<usize>, Option<usize>, Ghost<int>))
        requires
            self.inv(arena@),
            block + 16 <= arena.len(),
            legit is Some ==> 0 <= legit->0 < self.model().len() && !is_free(self.model()[legit->0])
                && self.model()[legit->0].start == block,
        ensures
            0 <= r.2@ <= self.model().len(),
            r.0 == start_of(self.model(), prev_free_before(self.model(), r.2@)),
            r.1 == start_of(self.model(), next_free_from(self.model(), r.2@)),
            forall|i: int| 0 <= i < r.2@ && is_free(#[trigger] self.model()[i]) ==> self.model()[i].start <= block,
            next_free_from(self.model(), r.2@) is Some ==> self.model()[next_free_from(self.model(), r.2@)->0].start > block,
            legit is Some ==> r.2@ <= legit->0,
    {
        let ghost bs = self.blocks@;
        let ghost end = tiled_end(self.len as int);
        proof {
            lemma_next_free_range(bs, 0);
            if let Some(x) = next_free_from(bs, 0) {
                lemma_block_facts(bs, arena@, end, x);
            }
        }
        let mut prev: Option<usize> = None;
        let mut cursor = self.head;
        let ghost mut kk: int = 0;
        loop
            invariant
                self.inv(arena@),
                bs == self.blocks@,
                end == tiled_end(self.len as int),
                block + 16 <= arena.len(),
                0 <= kk <= bs.len(),
                cursor == start_of(bs, next_free_from(bs, kk)),
                prev == start_of(bs, prev_free_before(bs, kk)),
                forall|i: int| 0 <= i < kk && is_free(#[trigger] bs[i]) ==> bs[i].start <= block,
                next_free_from(bs, kk) is Some ==> bs[next_free_from(bs, kk)->0].start + 16 <= arena.len(),
                legit is Some ==> 0 <= legit->0 < bs.len() && !is_free(bs[legit->0]) && bs[legit->0].start == block
                    && kk <= legit->0,
            decreases bs.len() - kk,
        {
            proof {
                lemma_next_free_range(bs, kk);
            }
            let candidate = match cursor {
                None => {
                    return (prev, cursor, Ghost(kk));
                },
                Some(c) => c,
            };
            let ghost j = next_free_from(bs, kk)->0;
            proof {
                lemma_block_facts(bs, arena@, end, j);
            }
            if candidate > block {
                return (prev, cursor, Ghost(kk));
            }
            proof {
                lemma_next_free_range(bs, j + 1);
                if let Some(x) = next_free_from(bs, j + 1) {
                    lemma_block_facts(bs, arena@, end, x);
                }
                if let Some(k) = legit {
                    assert(j != k);
                    if j > k {
                        lemma_tiling_facts(bs, arena@, end);
                        lemma_adjacent_ordered(bs);
                        assert(bs[k].start + bs[k].size <= bs[j].start);
                    }
                }
            }
            prev = Some(candidate);
            cursor = next_free(arena, candidate);
            proof {
                kk = j + 1;
                assert(prev_free_before(bs, kk) == Some(j));
            }
        }
    }

    /// Put the block at `block` of `size` bytes back on the list, in address
    /// order, merging it with free neighbours. When it is live block `k` of
    /// the model (`legit`), the result is the model with `k` released.
    #[verifier::rlimit(100)]
    #[verifier::spinoff_prover]
    fn insert_free(&mut self, arena: &mut [u8], block: usize, size: usize, Ghost(legit): Ghost<Option<int>>)
        requires
            old(self).inv(old(arena)@),
            block % 16 == 0,
            block + 16 <= old(arena).len(),
            size >= MIN_BLOCK,
            block + size <= old(arena).len(),
            word(old(arena)@, block as int) & 1 != 0,
            legit is Some ==> 0 <= legit->0 < old(self).model().len() && !is_free(old(self).model()[legit->0])
                && old(self).model()[legit->0].start == block && old(self).model()[legit->0].size == size,
        ensures
            legit is Some ==> final(self).inv(final(arena)@) && final(self).model() == release(old(self).model(), legit->0)
                && free_check(final(arena)@, old(self).model()[legit->0].payload->0) is Some
                && final(self).freed() == old(self).freed().insert(old(self).model()[legit->0].payload->0),
    {
        let ghost bs = self.blocks@;
        let ghost b0 = arena@;
        let ghost end = tiled_end(self.len as int);
        proof {
            lemma_tiling_facts(bs, b0, end);
            lemma_next_free_range(bs, 0);
            if let Some(x) = next_free_from(bs, 0) {
                lemma_block_facts(bs, b0, end, x);
            }
        }
        // Find the insertion point that keeps the list address-ordered.
        let (prev, cursor, Ghost(kk)) = self.insertion_point(arena, block, Ghost(legit));
        let ghost pj = prev_free_before(bs, kk);
        let ghost nj = next_free_from(bs, kk);
        proof {
            lemma_insert_neighbours(bs, b0, end, block, kk);
        }
        set_block_size(arena, block, size);
        let ghost b1 = arena@;
        set_next_free(arena, block, cursor);
        let ghost b2 = arena@;
        self.relink(arena, prev, Some(block));
        let ghost b3 = arena@;
        proof {
            lemma_after_link(bs, b0, b1, b2, b3, end, block, size, prev, cursor, kk);
        }
        // Merge forward first: merging backward would move the block we are
        // holding, and the successor offset would no longer be reachable.
        let (merged_next, Ghost(b4)) = merge_forward(arena, block, size, cursor);
        let ghost b5 = arena@;
        proof {
            lemma_after_forward(bs, b0, b3, b4, b5, end, block, size, prev, cursor, kk, merged_next);
        }
        let (merged_prev, Ghost(b6)) = merge_backward(arena, block, prev);
        let ghost fm = self.freed@;
        proof {
            if let Some(k) = legit {
                lemma_insert_legit(bs, b0, b1, b2, b3, b4, b5, b6, arena@, end, k, kk, prev, cursor, merged_next, merged_prev);
                lemma_insert_words(bs, b0, b1, b2, b3, b4, b5, b6, arena@, end, k, kk, prev, cursor, merged_next, merged_prev);
                lemma_free_keeps_freed(bs, b0, arena@, end, k, prev, fm);
            }
        }
        self.blocks = Ghost(match legit {
            Some(k) => release(bs, k),
            None => bs,
        });
        self.freed = Ghost(match legit {
            Some(k) => fm.insert(bs[k].payload->0, bs[k].start),
            None => fm,
        });
        proof {
            if let Some(k) = legit {
                assert(self.freed@.dom() =~= fm.dom().insert(bs[k].payload->0));
            }
        }
    }
}

/// The free blocks around an insertion point, relative to the block.
#[verifier::rlimit(50)]
#[verifier::spinoff_prover]
proof fn lemma_insert_neighbours(bs: Seq<Blk>, b0: Seq<u8>, end: int, block: usize, kk: int)
    requires
        tiles(bs, b0, end),
        end <= b0.len(),
        end <= usize::MAX,
        end % 16 == 0,
        block % 16 == 0,
        word(b0, block as int) & 1 != 0,
        0 <= kk <= bs.len(),
        forall|i: int| 0 <= i < kk && is_free(#[trigger] bs[i]) ==> bs[i].start <= block,
        next_free_from(bs, kk) is Some ==> bs[next_free_from(bs, kk)->0].start > block,
    ensures
        prev_free_before(bs, kk) is Some ==> ({
            let x = prev_free_before(bs, kk)->0;
            &&& 0 <= x < kk && is_free(bs[x])
            &&& 0 <= bs[x].start
            &&& bs[x].size >= MIN_BLOCK
            &&& bs[x].start + 16 <= block
            &&& bs[x].start + bs[x].size <= end
            &&& (word(b0, bs[x].start) & !1u64) as int == bs[x].size
        }),
        next_free_from(bs, kk) is Some ==> ({
            let x = next_free_from(bs, kk)->0;
            &&& kk <= x < bs.len() && is_free(bs[x])
            &&& bs[x].size >= MIN_BLOCK
            &&& block + 16 <= bs[x].start
            &&& bs[x].start + bs[x].size <= end
            &&& (word(b0, bs[x].start) & !1u64) as int == bs[x].size
            &&& word(b0, bs[x].start + 8) == link_word(bs, next_free_from(bs, x + 1))
        }),
        prev_free_before(bs, kk) is Some && next_free_from(bs, kk) is Some ==>
            bs[prev_free_before(bs, kk)->0].start + 16 <= bs[next_free_from(bs, kk)->0].start,
{
    lemma_prev_free_range(bs, kk);
    lemma_next_free_range(bs, kk);
    if let Some(x) = prev_free_before(bs, kk) {
        lemma_block_facts(bs, b0, end, x);
        lemma_size_word(bs, b0, end, x);
    }
    if let Some(x) = next_free_from(bs, kk) {
        lemma_block_facts(bs, b0, end, x);
        lemma_size_word(bs, b0, end, x);
        if let Some(y) = prev_free_before(bs, kk) {
            lemma_tiling_facts(bs, b0, end);
            lemma_adjacent_ordered(bs);
            assert(bs[y].start + bs[y].size <= bs[x].start);
        }
    }
}

/// After the block is written and linked in: what the merges read.
#[verifier::rlimit(50)]
#[verifier::spinoff_prover]
proof fn lemma_after_link(
    bs: Seq<Blk>,
    b0: Seq<u8>,
    b1: Seq<u8>,
    b2: Seq<u8>,
    b3: Seq<u8>,
    end: int,
    block: usize,
    size: usize,
    prev: Option<usize>,
    cursor: Option<usize>,
    kk: int,
)
    requires
        0 <= kk <= bs.len(),
        end <= b0.len(),
        end <= usize::MAX,
        prev == start_of(bs, prev_free_before(bs, kk)),
        cursor == start_of(bs, next_free_from(bs, kk)),
        prev_free_before(bs, kk) is Some ==> ({
            let x = prev_free_before(bs, kk)->0;
            &&& 0 <= x < kk && is_free(bs[x])
            &&& 0 <= bs[x].start
            &&& bs[x].size >= MIN_BLOCK
            &&& bs[x].start + 16 <= block
            &&& bs[x].start + bs[x].size <= end
            &&& (word(b0, bs[x].start) & !1u64) as int == bs[x].size
        }),
        next_free_from(bs, kk) is Some ==> ({
            let x = next_free_from(bs, kk)->0;
            &&& kk <= x < bs.len() && is_free(bs[x])
            &&& bs[x].size >= MIN_BLOCK
            &&& block + 16 <= bs[x].start
            &&& bs[x].start + bs[x].size <= end
            &&& (word(b0, bs[x].start) & !1u64) as int == bs[x].size
        }),
        prev_free_before(bs, kk) is Some && next_free_from(bs, kk) is Some ==>
            bs[prev_free_before(bs, kk)->0].start + 16 <= bs[next_free_from(bs, kk)->0].start,
        moved_only(b0, b1, block as int),
        word(b1, block as int) == size,
        moved_only(b1, b2, block + 8),
        prev is Some ==> moved_only(b2, b3, prev->0 + 8),
        prev is None ==> b3 == b2,
        block + 16 <= b0.len(),
    ensures
        b3.len() == b0.len(),
        word(b3, block as int) == size,
        cursor is Some ==> cursor->0 + 16 <= b3.len() && block + 16 <= cursor->0
            && word(b3, cursor->0 as int) == word(b0, cursor->0 as int)
            && word(b3, cursor->0 + 8) == word(b0, cursor->0 + 8)
            && (block + size == cursor->0 ==> size + (word(b3, cursor->0 as int) & !1u64) <= b3.len() - block),
        prev is Some ==> prev->0 + 16 <= block && word(b3, prev->0 as int) == word(b0, prev->0 as int)
            && prev->0 + (word(b3, prev->0 as int) & !1u64) <= b3.len(),
{
    assert(word(b3, block as int) == word(b2, block as int));
    assert(word(b2, block as int) == word(b1, block as int));
    if let Some(c) = cursor {
        let c = c as int;
        assert(word(b3, c) == word(b2, c));
        assert(word(b2, c) == word(b1, c));
        assert(word(b1, c) == word(b0, c));
        assert(word(b3, c + 8) == word(b2, c + 8));
        assert(word(b2, c + 8) == word(b1, c + 8));
        assert(word(b1, c + 8) == word(b0, c + 8));
    }
    if let Some(pv) = prev {
        let pv = pv as int;
        assert(word(b3, pv) == word(b2, pv));
        assert(word(b2, pv) == word(b1, pv));
        assert(word(b1, pv) == word(b0, pv));
    }
}

/// After the forward merge: what the backward merge reads.
#[verifier::rlimit(50)]
#[verifier::spinoff_prover]
proof fn lemma_after_forward(
    bs: Seq<Blk>,
    b0: Seq<u8>,
    b3: Seq<u8>,
    b4: Seq<u8>,
    b5: Seq<u8>,
    end: int,
    block: usize,
    size: usize,
    prev: Option<usize>,
    cursor: Option<usize>,
    kk: int,
    merged_next: bool,
)
    requires
        b3.len() == b0.len(),
        block + 16 <= b0.len(),
        block + size <= b0.len(),
        word(b3, block as int) == size,
        cursor is Some ==> block + 16 <= cursor->0,
        cursor is Some && block + size == cursor->0 ==> size + (word(b3, cursor->0 as int) & !1u64) <= b3.len() - block,
        prev is Some ==> prev->0 + 16 <= block && prev->0 + (word(b3, prev->0 as int) & !1u64) <= b3.len(),
        merged_next == (cursor is Some && block + size == cursor->0),
        merged_next ==> moved_only(b3, b4, block as int)
            && word(b4, block as int) == size + (word(b3, cursor->0 as int) & !1u64)
            && moved_only(b4, b5, block + 8),
        !merged_next ==> b5 == b3,
        b0.len() <= usize::MAX,
    ensures
        block + 16 <= b5.len(),
        (word(b5, block as int) & !1u64) <= b5.len() - block,
        prev is Some ==> prev->0 + 16 <= block && word(b5, prev->0 as int) == word(b3, prev->0 as int)
            && prev->0 + (word(b5, prev->0 as int) & !1u64) <= b5.len(),
{
    if merged_next {
        assert(word(b5, block as int) == word(b4, block as int));
    }
    let v = word(b5, block as int);
    assert(v & !1u64 <= v) by (bit_vector);
    if let Some(pv) = prev {
        let pv = pv as int;
        if merged_next {
            assert(word(b5, pv) == word(b4, pv));
            assert(word(b4, pv) == word(b3, pv));
        }
    }
}

/// The legitimate free: everything [`lemma_free_final`] and
/// [`lemma_release_ok`] need, from what the writes said.
#[verifier::spinoff_prover]
#[verifier::rlimit(80)]
proof fn lemma_insert_legit(
    bs: Seq<Blk>,
    b0: Seq<u8>,
    b1: Seq<u8>,
    b2: Seq<u8>,
    b3: Seq<u8>,
    b4: Seq<u8>,
    b5: Seq<u8>,
    b6: Seq<u8>,
    b7: Seq<u8>,
    end: int,
    k: int,
    kk: int,
    prev: Option<usize>,
    cursor: Option<usize>,
    merged_next: bool,
    merged_prev: bool,
)
    requires
        tiles(bs, b0, end),
        end <= b0.len(),
        end <= usize::MAX,
        end % 16 == 0,
        0 <= k < bs.len(),
        !is_free(bs[k]),
        0 <= kk <= k,
        forall|i: int| 0 <= i < kk && is_free(#[trigger] bs[i]) ==> bs[i].start <= bs[k].start,
        next_free_from(bs, kk) is Some ==> bs[next_free_from(bs, kk)->0].start > bs[k].start,
        prev == start_of(bs, prev_free_before(bs, kk)),
        cursor == start_of(bs, next_free_from(bs, kk)),
        moved_only(b0, b1, bs[k].start),
        word(b1, bs[k].start) == bs[k].size,
        moved_only(b1, b2, bs[k].start + 8),
        word(b2, bs[k].start + 8) == (match cursor {
            Some(n) => n as u64,
            None => NIL,
        }),
        prev is Some ==> moved_only(b2, b3, prev->0 + 8) && word(b3, prev->0 + 8) == bs[k].start as u64,
        prev is None ==> b3 == b2,
        merged_next == (cursor is Some && bs[k].start + bs[k].size == cursor->0),
        merged_next ==> moved_only(b3, b4, bs[k].start)
            && word(b4, bs[k].start) == bs[k].size + (word(b3, cursor->0 as int) & !1u64)
            && moved_only(b4, b5, bs[k].start + 8)
            && word(b5, bs[k].start + 8) == copied_link(word(b3, cursor->0 + 8)),
        !merged_next ==> b5 == b3,
        merged_prev == (prev is Some && prev->0 + (word(b5, prev->0 as int) & !1u64) == bs[k].start),
        merged_prev ==> moved_only(b5, b6, prev->0 as int)
            && word(b6, prev->0 as int) == (word(b5, prev->0 as int) & !1u64) + (word(b5, bs[k].start) & !1u64)
            && moved_only(b6, b7, prev->0 + 8)
            && word(b7, prev->0 + 8) == copied_link(word(b5, bs[k].start + 8)),
        !merged_prev ==> b7 == b5,
    ensures
        tiles(release(bs, k), b7, end),
        b7.len() == b0.len(),
        prev is Some ==> start_of(release(bs, k), next_free_from(release(bs, k), 0)) == start_of(bs, next_free_from(bs, 0)),
        prev is None ==> start_of(release(bs, k), next_free_from(release(bs, k), 0)) == Some(bs[k].start as usize),
        free_check(b7, bs[k].payload->0) is Some,
{
    let s = bs[k].start;
    lemma_tiling_facts(bs, b0, end);
    lemma_adjacent_ordered(bs);
    lemma_block_facts(bs, b0, end, k);
    lemma_next_free_range(bs, kk);
    lemma_prev_free_range(bs, kk);
    // Nothing free between the insertion point and the block.
    assert forall|q: int| kk <= q < k + 1 implies !is_free(#[trigger] bs[q]) by {
        if is_free(bs[q]) {
            let x = next_free_from(bs, kk)->0;
            assert(x <= q);
            if x < k {
                assert(bs[x].start + bs[x].size <= bs[k].start);
            }
        }
    }
    lemma_next_free_skip(bs, kk, k + 1);
    lemma_prev_free_skip(bs, kk, k);
    let nj = next_free_from(bs, k + 1);
    let pj = prev_free_before(bs, k);
    if let Some(x) = nj {
        lemma_block_facts(bs, b0, end, x);
        lemma_size_word(bs, b0, end, x);
        lemma_next_free_range(bs, x + 1);
        if let Some(y) = next_free_from(bs, x + 1) {
            lemma_block_facts(bs, b0, end, y);
        }
        assert(bs[k].start + bs[k].size <= bs[x].start);
        let c = bs[x].start;
        assert(word(b3, c) == word(b0, c)) by {
            if let Some(pv) = prev {
                let y = pj->0;
                lemma_block_facts(bs, b0, end, y);
                assert(bs[y].start + bs[y].size <= bs[k].start);
                assert(word(b3, c) == word(b2, c));
            }
            assert(word(b2, c) == word(b1, c));
            assert(word(b1, c) == word(b0, c));
        }
        assert(word(b3, c + 8) == word(b0, c + 8)) by {
            if let Some(pv) = prev {
                let y = pj->0;
                lemma_block_facts(bs, b0, end, y);
                assert(bs[y].start + bs[y].size <= bs[k].start);
                assert(word(b3, c + 8) == word(b2, c + 8));
            }
            assert(word(b2, c + 8) == word(b1, c + 8));
            assert(word(b1, c + 8) == word(b0, c + 8));
        }
    }
    if let Some(y) = pj {
        lemma_block_facts(bs, b0, end, y);
        lemma_size_word(bs, b0, end, y);
        assert(bs[y].start + bs[y].size <= bs[k].start);
        let pv = bs[y].start;
        assert(word(b5, pv) == word(b0, pv)) by {
            if merged_next {
                assert(word(b5, pv) == word(b4, pv));
                assert(word(b4, pv) == word(b3, pv));
            }
            assert(word(b3, pv) == word(b2, pv));
            assert(word(b2, pv) == word(b1, pv));
            assert(word(b1, pv) == word(b0, pv));
        }
    }
    // The link the block carries before the backward merge is a real one.
    assert(word(b5, s + 8) == link_word(bs, next_free_from(bs, release_hi(bs, k)))
        || word(b5, s + 8) == link_word(bs, nj)) by {
        if !merged_next {
            assert(word(b3, s + 8) == word(b2, s + 8));
        }
    }
    assert(copied_link(word(b5, s + 8)) == word(b5, s + 8)) by {
        if !merged_next {
            assert(word(b3, s + 8) == word(b2, s + 8));
        } else {
            let x = nj->0;
            if let Some(y) = next_free_from(bs, x + 1) {
                lemma_block_facts(bs, b0, end, y);
            }
        }
    }
    lemma_free_final(bs, b0, b1, b2, b3, b4, b5, b6, b7, end, k, prev, cursor, merged_next, merged_prev);
    lemma_release_ok(bs, b0, b7, end, k);
    // A second free of the same payload is refused.
    let p = bs[k].payload->0;
    let size = bs[k].size;
    assert(s + size >= p + 16);
    let mid_size = if merged_next { size + bs[nj->0].size } else { size };
    assert(word(b5, s) == mid_size) by {
        if merged_next {
            let x = nj->0;
            lemma_size_word(bs, b0, end, x);
            assert(word(b5, s) == word(b4, s));
        } else {
            assert(word(b3, s) == word(b2, s));
            assert(word(b2, s) == word(b1, s));
        }
    }
    if merged_next {
        lemma_block_facts(bs, b0, end, nj->0);
    }
    lemma_mark_bits(mid_size as u64);
    if let Some(y) = pj {
        lemma_block_facts(bs, b0, end, y);
        assert(bs[y].start + bs[y].size <= s);
    }
    assert(word(b7, s) == word(b5, s)) by {
        if merged_prev {
            assert(word(b7, s) == word(b6, s));
        }
    }
    if p == s + 16 {
        assert(word(b7, s + 8) == word(b5, s + 8)) by {
            if merged_prev {
                assert(word(b7, s + 8) == word(b6, s + 8));
            }
        }
        if let Some(x) = next_free_from(bs, release_hi(bs, k)) {
            lemma_next_free_range(bs, release_hi(bs, k));
            lemma_block_facts(bs, b0, end, x);
            assert(bs[k].start + bs[k].size <= bs[x].start);
        }
        if let Some(x) = nj {
            assert(bs[k].start + bs[k].size <= bs[x].start);
        }
    } else {
        assert(p >= s + 32);
        assert(word(b7, p - 8) == word(b0, p - 8)) by {
            if merged_prev {
                assert(word(b7, p - 8) == word(b6, p - 8));
                assert(word(b6, p - 8) == word(b5, p - 8));
            }
            if merged_next {
                assert(word(b5, p - 8) == word(b4, p - 8));
                assert(word(b4, p - 8) == word(b3, p - 8));
            }
            if prev is Some {
                assert(word(b3, p - 8) == word(b2, p - 8));
            }
            assert(word(b2, p - 8) == word(b1, p - 8));
            assert(word(b1, p - 8) == word(b0, p - 8));
        }
    }
}


/// The checks a free makes before it touches anything, in order: the first
/// that fails is the refusal.
pub open spec fn free_check(a: Seq<u8>, p: int) -> Option<FreeError> {
    if p < HEADER || p > a.len() {
        Some(FreeError::OutOfBounds)
    } else if word(a, p - 8) == NIL {
        Some(FreeError::NotAllocated)
    } else {
        let block = (word(a, p - 8) as usize) as int;
        if block + HEADER > usize::MAX || block + HEADER > a.len() {
            Some(FreeError::OutOfBounds)
        } else if block % 16 != 0 || block + HEADER > p {
            Some(FreeError::Corrupt)
        } else if word(a, block) & 1 == 0 {
            Some(FreeError::NotAllocated)
        } else {
            let size = ((word(a, block) & !1u64) as usize) as int;
            if block + size > usize::MAX || size < MIN_BLOCK || block + size > a.len() || p >= block + size {
                Some(FreeError::Corrupt)
            } else {
                None
            }
        }
    }
}

/// The block whose payload is `p`.
pub open spec fn live_index(bs: Seq<Blk>, p: int) -> int {
    choose|k: int| 0 <= k < bs.len() && #[trigger] bs[k].payload == Some(p)
}

impl FreeList {
    /// Return a payload offset previously produced by
    /// [`allocate`](Self::allocate).
    ///
    /// Blocks are kept sorted by address and merged with their neighbours, so
    /// a heap that is fully freed goes back to a single block.
    ///
    /// # Refusing bad frees
    ///
    /// A free that cannot be justified is refused and the list left
    /// untouched. This matters most for the double free: the list is ordered
    /// by address, so inserting the same block twice links it to itself, and
    /// from then on the allocator hands the same memory to two owners.
    /// Silently. The allocated mark makes the second attempt an error
    /// instead.
    ///
    /// The check is sound in the direction that matters — a legitimate free
    /// is never refused. The converse does not hold: metadata lives in the
    /// arena it manages, so a wild pointer into memory that happens to look
    /// like a live header can still be accepted. Detecting every bad free
    /// needs out-of-band metadata, which costs memory this kernel would
    /// rather spend elsewhere.
    #[verifier::spinoff_prover]
    #[verifier::rlimit(50)]
    pub fn dealloc(&mut self, arena: &mut [u8], payload: usize) -> (r: Result<(), FreeError>)
        requires
            old(self).inv(old(arena)@),
        ensures
            match free_check(old(arena)@, payload as int) {
                Some(e) => r == Err::<(), FreeError>(e) && *final(self) == *old(self) && final(arena)@ == old(arena)@,
                None => r is Ok,
            },
            old(self).live(payload as int) ==> (r is Ok) && final(self).inv(final(arena)@)
                && final(self).model() == release(old(self).model(), live_index(old(self).model(), payload as int)),
            old(self).live(payload as int) ==> free_check(final(arena)@, payload as int) is Some,
            old(self).live(payload as int) ==> forall|q: int| #[trigger] final(self).live(q) == (old(self).live(q) && q != payload),
            old(self).live(payload as int) ==> final(self).freed() == old(self).freed().insert(payload as int),
            old(self).freed().contains(payload as int) ==> r == Err::<(), FreeError>(FreeError::NotAllocated)
                || r == Err::<(), FreeError>(FreeError::Corrupt),
    {
        let ghost bs = self.blocks@;
        let ghost end = tiled_end(self.len as int);
        let ghost legit: Option<int> = if self.live(payload as int) { Some(live_index(bs, payload as int)) } else { None };
        proof {
            if self.freed@.contains_key(payload as int) {
                lemma_stale_refused(bs, arena@, self.len as int, payload as int, self.freed@[payload as int]);
            }
            if let Some(k) = legit {
                lemma_block_facts(bs, arena@, end, k);
                lemma_size_word(bs, arena@, end, k);
            }
        }
        if payload < HEADER || payload > arena.len() {
            return Err(FreeError::OutOfBounds);
        }
        // These eight bytes are the block's back-pointer while it is
        // allocated, and its next-free pointer once it is not — the two uses
        // overlap whenever alignment leaves the payload at `block + HEADER`.
        // So the sentinel appearing here is itself evidence: the block is
        // already on the free list, and this is a second free of it.
        let recorded = read_u64(arena, payload - 8);
        if recorded == NIL {
            return Err(FreeError::NotAllocated);
        }
        let block = recorded as usize;

        // Arithmetic on a value read out of the arena has to be checked: a
        // corrupt header is exactly the case this function exists to survive.
        let header_end = match block.checked_add(HEADER) {
            Some(h) => h,
            None => return Err(FreeError::OutOfBounds),
        };
        if header_end > arena.len() {
            return Err(FreeError::OutOfBounds);
        }
        // Every block this allocator creates starts on a `GRAIN` boundary and
        // begins at least `HEADER` bytes before its own payload.
        if block % GRAIN != 0 || header_end > payload {
            return Err(FreeError::Corrupt);
        }
        if !is_allocated(arena, block) {
            return Err(FreeError::NotAllocated);
        }
        let size = block_size(arena, block);
        let block_end = match block.checked_add(size) {
            Some(e) => e,
            None => return Err(FreeError::Corrupt),
        };
        if size < MIN_BLOCK || block_end > arena.len() || payload >= block_end {
            return Err(FreeError::Corrupt);
        }
        self.insert_free(arena, block, size, Ghost(legit));
        proof {
            if let Some(k) = legit {
                assert forall|q: int| #[trigger] self.live(q) == (old(self).live(q) && q != payload) by {
                    lemma_release_live(bs, old(arena)@, end, k, q);
                }
            }
        }
        Ok(())
    }
}


// ---- laws ----

/// First fit gives a free block, an aligned payload past its header, and
/// room for the whole request inside the block; every free block before it
/// was too small.
#[verifier::rlimit(50)]
#[verifier::spinoff_prover]
pub proof fn lemma_fit_is_first_and_fits(bs: Seq<Blk>, sz: int, align: usize, k: int)
    requires
        is_pow2(align),
        0 <= k <= bs.len(),
        forall|i: int| 0 <= i < bs.len() ==> (#[trigger] bs[i]).start >= 0,
        fit_from(bs, k, sz, align as int) is Some,
    ensures
        ({
            let (j, p) = fit_from(bs, k, sz, align as int)->0;
            &&& k <= j < bs.len()
            &&& is_free(bs[j])
            &&& p == payload_in(bs[j], align as int)
            &&& p % (align as int) == 0
            &&& bs[j].start + HEADER <= p
            &&& p + sz <= bs[j].start + bs[j].size
            &&& forall|i: int| k <= i < j && is_free(#[trigger] bs[i]) ==> payload_in(bs[i], align as int) + sz > bs[i].start + bs[i].size
        }),
    decreases bs.len() - k,
{
    if !is_free(bs[k]) || payload_in(bs[k], align as int) + sz > bs[k].start + bs[k].size {
        lemma_fit_is_first_and_fits(bs, sz, align, k + 1);
    } else {
        lemma_align_up_facts(bs[k].start + HEADER, align as int);
    }
}

/// Live allocations never overlap: of two different live payloads, the
/// lower one's block ends at or before the higher one's payload.
pub proof fn lemma_live_allocations_disjoint(fl: FreeList, a: Seq<u8>, k1: int, k2: int)
    requires
        fl.inv(a),
        0 <= k1 < k2 < fl.model().len(),
        fl.model()[k1].payload is Some,
        fl.model()[k2].payload is Some,
    ensures
        fl.model()[k1].payload->0 < fl.model()[k1].start + fl.model()[k1].size,
        fl.model()[k1].start + fl.model()[k1].size <= fl.model()[k2].start,
        fl.model()[k2].start < fl.model()[k2].payload->0,
{
    let bs = fl.model();
    let end = tiled_end(fl.len as int);
    lemma_block_facts(bs, a, end, k1);
    lemma_block_facts(bs, a, end, k2);
    lemma_tiling_facts(bs, a, end);
    lemma_adjacent_ordered(bs);
}

/// A heap with nothing live — every payload handed out has been freed, in
/// whatever order allocations and frees came — is one free block spanning the
/// whole arena.
pub proof fn lemma_fully_freed_is_one_block(fl: FreeList, a: Seq<u8>)
    requires
        fl.inv(a),
        forall|q: int| !#[trigger] fl.live(q),
    ensures
        fl.model().len() == 1,
        fl.model()[0].start == 0,
        fl.model()[0].size == tiled_end(a.len() as int),
        sum_free(fl.model(), fl.model().len() as int) == tiled_end(a.len() as int),
        count_free(fl.model(), fl.model().len() as int) == 1,
{
    let bs = fl.model();
    let end = tiled_end(fl.len as int);
    lemma_tiles_apart(bs, a, end);
    lemma_tiling_facts(bs, a, end);
    assert forall|k: int| 0 <= k < bs.len() implies is_free(#[trigger] bs[k]) by {
        if let Some(q) = bs[k].payload {
            assert(!fl.live(q));
        }
    }
    if bs.len() > 1 {
        assert(!(is_free(bs[0]) && is_free(bs[1])));
    }
    assert(sum_free(bs, 0) == 0);
    assert(count_free(bs, 0) == 0);
}

/// Freeing what an allocation just handed out gives back the blocks as they
/// were: the carved block merges with the remainder it split off, and its
/// other neighbours were live.
#[verifier::rlimit(50)]
#[verifier::spinoff_prover]
pub proof fn lemma_free_undoes_allocate(fl: FreeList, a: Seq<u8>, j: int, p: int, sz: int)
    requires
        fl.inv(a),
        0 <= j < fl.model().len(),
        is_free(fl.model()[j]),
        p % 16 == 0,
        sz % 16 == 0,
        sz >= 16,
        fl.model()[j].start + HEADER <= p,
        p + sz <= fl.model()[j].start + fl.model()[j].size,
    ensures
        live_index(carve(fl.model(), j, p, sz), p) == j,
        release(carve(fl.model(), j, p, sz), j) =~= fl.model(),
{
    let bs = fl.model();
    let end = tiled_end(fl.len as int);
    let mid = carve_mid(bs[j], p, sz);
    let n = carve(bs, j, p, sz);
    lemma_tiles_apart(bs, a, end);
    lemma_tiling_facts(bs, a, end);
    lemma_block_facts(bs, a, end, j);
    lemma_splice_index(bs, j, j + 1, mid);
    assert(n[j].payload == Some(p));
    assert forall|k: int| 0 <= k < n.len() && #[trigger] n[k].payload == Some(p) implies k == j by {
        if k < j {
            assert(n[k] == bs[k]);
            lemma_block_facts(bs, a, end, k);
            lemma_adjacent_ordered(bs);
            assert(bs[k].start + bs[k].size <= bs[j].start);
        } else if k > j + mid.len() - 1 {
            assert(n[k] == bs[k - mid.len() + 1]);
            lemma_block_facts(bs, a, end, k - mid.len() + 1);
            lemma_adjacent_ordered(bs);
            assert(bs[j].start + bs[j].size <= bs[k - mid.len() + 1].start);
        } else if k > j {
            assert(n[k] == mid[1]);
        }
    }
    if j > 0 {
        assert(!is_free(bs[j - 1]));
        assert(n[j - 1] == bs[j - 1]);
    }
    let r = release(n, j);
    if mid.len() == 2 {
        assert(n[j + 1] == mid[1]);
        if j + 2 < n.len() {
            assert(n[j + 2] == bs[j + 1]);
        }
        lemma_splice_index(n, j, j + 2, seq![released_block(n, j)]);
    } else {
        if j + 1 < n.len() {
            assert(n[j + 1] == bs[j + 1]);
            assert(!is_free(bs[j + 1]));
        }
        lemma_splice_index(n, j, j + 1, seq![released_block(n, j)]);
    }
    assert forall|i: int| 0 <= i < bs.len() implies #[trigger] r[i] == bs[i] by {
        if i > j {
            if mid.len() == 2 {
                assert(r[i] == n[i + 1]);
            } else {
                assert(r[i] == n[i]);
            }
        }
    }
}


/// `a2` differs from `a` only inside live payloads: from a payload offset
/// to the end of its block, the bytes its owner may write.
pub open spec fn only_payloads_changed(fl: FreeList, a: Seq<u8>, a2: Seq<u8>) -> bool {
    &&& a2.len() == a.len()
    &&& forall|x: int| 0 <= x < a.len() && a2[x] != a[x] ==> exists|k: int| 0 <= k < fl.model().len()
        && (#[trigger] fl.model()[k]).payload is Some && fl.model()[k].payload->0 <= x < fl.model()[k].start + fl.model()[k].size
}

proof fn lemma_word_same(a: Seq<u8>, a2: Seq<u8>, q: int)
    requires
        0 <= q,
        q + 8 <= a.len(),
        a2.len() == a.len(),
        forall|x: int| q <= x < q + 8 ==> a2[x] == a[x],
    ensures
        word(a2, q) == word(a, q),
{
    reveal(word);
    assert(a2[q] == a[q] && a2[q + 1] == a[q + 1] && a2[q + 2] == a[q + 2] && a2[q + 3] == a[q + 3]);
    assert(a2[q + 4] == a[q + 4] && a2[q + 5] == a[q + 5] && a2[q + 6] == a[q + 6] && a2[q + 7] == a[q + 7]);
}

/// A byte of block `i`'s bookkeeping (before its payload, or anywhere in it
/// when free) lies in no live payload, so it is unchanged.
#[verifier::rlimit(50)]
#[verifier::spinoff_prover]
proof fn lemma_bookkeeping_byte(fl: FreeList, a: Seq<u8>, a2: Seq<u8>, i: int, x: int)
    requires
        fl.inv(a),
        only_payloads_changed(fl, a, a2),
        0 <= i < fl.model().len(),
        fl.model()[i].start <= x < fl.model()[i].start + fl.model()[i].size,
        fl.model()[i].payload is None || x < fl.model()[i].payload->0,
        0 <= x < a.len(),
    ensures
        a2[x] == a[x],
{
    let bs = fl.model();
    let end = tiled_end(fl.len as int);
    if a2[x] != a[x] {
        let k = choose|k: int| 0 <= k < bs.len() && (#[trigger] bs[k]).payload is Some
            && bs[k].payload->0 <= x < bs[k].start + bs[k].size;
        lemma_block_facts(bs, a, end, k);
        lemma_block_facts(bs, a, end, i);
        lemma_tiling_facts(bs, a, end);
        lemma_adjacent_ordered(bs);
        if k < i {
            assert(bs[k].start + bs[k].size <= bs[i].start);
        } else if i < k {
            assert(bs[i].start + bs[i].size <= bs[k].start);
        }
    }
}

/// The tiling survives writes into live payloads.
#[verifier::rlimit(50)]
#[verifier::spinoff_prover]
proof fn lemma_payload_writes_keep_tiles(fl: FreeList, a: Seq<u8>, a2: Seq<u8>)
    requires
        fl.inv(a),
        only_payloads_changed(fl, a, a2),
    ensures
        tiles(fl.model(), a2, tiled_end(fl.len as int)),
{
    let bs = fl.model();
    let end = tiled_end(fl.len as int);
    lemma_tiling_facts(bs, a, end);
    lemma_adjacent_ordered(bs);
    lemma_tiles_apart(bs, a, end);
    assert forall|i: int| 0 <= i < bs.len() implies block_ok(#[trigger] bs[i], a2) by {
        lemma_block_facts(bs, a, end, i);
        assert forall|x: int| bs[i].start <= x < bs[i].start + 8 implies a2[x] == a[x] by {
            lemma_bookkeeping_byte(fl, a, a2, i, x);
        }
        lemma_word_same(a, a2, bs[i].start);
        if let Some(p) = bs[i].payload {
            assert forall|x: int| p - 8 <= x < p implies a2[x] == a[x] by {
                lemma_bookkeeping_byte(fl, a, a2, i, x);
            }
            lemma_word_same(a, a2, p - 8);
        }
    }
    assert forall|i: int| 0 <= i < bs.len() && is_free(#[trigger] bs[i])
        implies word(a2, bs[i].start + 8) == link_word(bs, next_free_from(bs, i + 1)) by {
        lemma_block_facts(bs, a, end, i);
        assert forall|x: int| bs[i].start + 8 <= x < bs[i].start + 16 implies a2[x] == a[x] by {
            lemma_bookkeeping_byte(fl, a, a2, i, x);
        }
        lemma_word_same(a, a2, bs[i].start + 8);
    }
    lemma_tiles_intro(bs, a2, end);
}


/// A freed payload stays freed across writes into live payloads: its words
/// lie in a free block.
#[verifier::rlimit(40)]
#[verifier::spinoff_prover]
proof fn lemma_payload_writes_keep_stale(fl: FreeList, a: Seq<u8>, a2: Seq<u8>, q: int)
    requires
        fl.inv(a),
        only_payloads_changed(fl, a, a2),
        fl.freed@.contains_key(q),
    ensures
        stale_at(fl.blocks@, a2, fl.len as int, q, fl.freed@[q]),
{
    let bs = fl.blocks@;
    let s = fl.freed@[q];
    let kf = choose|j: int| 0 <= j < bs.len() && is_free(#[trigger] bs[j]) && bs[j].start <= s && q < bs[j].start + bs[j].size;
    assert forall|x: int| s <= x < s + 8 implies a2[x] == a[x] by {
        lemma_bookkeeping_byte(fl, a, a2, kf, x);
    }
    lemma_word_same(a, a2, s);
    if q == s + HEADER {
        assert forall|x: int| s + 8 <= x < s + 16 implies a2[x] == a[x] by {
            lemma_bookkeeping_byte(fl, a, a2, kf, x);
        }
        lemma_word_same(a, a2, s + 8);
    } else {
        assert forall|x: int| q - 8 <= x < q implies a2[x] == a[x] by {
            lemma_bookkeeping_byte(fl, a, a2, kf, x);
        }
        lemma_word_same(a, a2, q - 8);
    }
}

/// What the owner of an allocation writes into it never disturbs the heap:
/// every header, link and back-pointer lies outside the live payloads.
pub proof fn lemma_payload_writes_keep_inv(fl: FreeList, a: Seq<u8>, a2: Seq<u8>)
    requires
        fl.inv(a),
        only_payloads_changed(fl, a, a2),
    ensures
        fl.inv(a2),
{
    lemma_payload_writes_keep_tiles(fl, a, a2);
    assert forall|q: int| #[trigger] fl.freed@.contains_key(q) implies stale_at(fl.blocks@, a2, fl.len as int, q, fl.freed@[q]) by {
        lemma_payload_writes_keep_stale(fl, a, a2, q);
    }
}


/// The payloads of a tiling's live blocks are distinct.
proof fn lemma_payloads_distinct(bs: Seq<Blk>, a: Seq<u8>, end: int, i: int, j: int)
    requires
        tiles(bs, a, end),
        0 <= i < bs.len(),
        0 <= j < bs.len(),
        i != j,
        bs[i].payload is Some,
        bs[j].payload is Some,
    ensures
        bs[i].payload != bs[j].payload,
{
    lemma_block_facts(bs, a, end, i);
    lemma_block_facts(bs, a, end, j);
    lemma_tiling_facts(bs, a, end);
    lemma_adjacent_ordered(bs);
    if i < j {
        assert(bs[i].start + bs[i].size <= bs[j].start);
    } else {
        assert(bs[j].start + bs[j].size <= bs[i].start);
    }
}

/// `q` is the payload of some block of `bs`.
pub open spec fn holds_payload(bs: Seq<Blk>, q: int) -> bool {
    exists|k: int| 0 <= k < bs.len() && #[trigger] bs[k].payload == Some(q)
}

/// Carving adds exactly its payload to the live ones.
proof fn lemma_carve_live(bs: Seq<Blk>, a: Seq<u8>, end: int, j: int, p: int, sz: int, q: int)
    requires
        tiles(bs, a, end),
        0 <= j < bs.len(),
        is_free(bs[j]),
    ensures
        holds_payload(carve(bs, j, p, sz), q) == (holds_payload(bs, q) || q == p),
{
    let mid = carve_mid(bs[j], p, sz);
    let n = carve(bs, j, p, sz);
    let d = mid.len() - 1;
    lemma_splice_index(bs, j, j + 1, mid);
    assert(n[j] == mid[0]);
    if q == p {
        assert(n[j].payload == Some(p));
    }
    if holds_payload(n, q) {
        let k = choose|k: int| 0 <= k < n.len() && #[trigger] n[k].payload == Some(q);
        if k < j {
            assert(bs[k].payload == Some(q));
        } else if k > j + d {
            assert(bs[k - d].payload == Some(q));
        } else if k == j + 1 && d == 1 {
            assert(n[k] == mid[1]);
        }
    }
    if holds_payload(bs, q) {
        let k = choose|k: int| 0 <= k < bs.len() && #[trigger] bs[k].payload == Some(q);
        if k < j {
            assert(n[k] == bs[k]);
        } else if k > j {
            assert(n[k + d] == bs[k]);
        }
    }
}

/// Freeing live block `k` removes exactly its payload from the live ones.
proof fn lemma_release_live(bs: Seq<Blk>, a: Seq<u8>, end: int, k: int, q: int)
    requires
        tiles(bs, a, end),
        0 <= k < bs.len(),
        bs[k].payload is Some,
    ensures
        holds_payload(release(bs, k), q) == (holds_payload(bs, q) && q != bs[k].payload->0),
{
    let lo = release_lo(bs, k);
    let hi = release_hi(bs, k);
    let mid = seq![released_block(bs, k)];
    let n = release(bs, k);
    let d = 1 - (hi - lo);
    lemma_splice_index(bs, lo, hi, mid);
    if holds_payload(n, q) {
        let i = choose|i: int| 0 <= i < n.len() && #[trigger] n[i].payload == Some(q);
        if i < lo {
            assert(bs[i].payload == Some(q));
            lemma_payloads_distinct(bs, a, end, i, k);
        } else if i > lo {
            assert(bs[i - d].payload == Some(q));
            lemma_payloads_distinct(bs, a, end, i - d, k);
        } else {
            assert(n[i] == mid[0]);
        }
    }
    if holds_payload(bs, q) && q != bs[k].payload->0 {
        let i = choose|i: int| 0 <= i < bs.len() && #[trigger] bs[i].payload == Some(q);
        if i < lo {
            assert(n[i] == bs[i]);
        } else if i >= hi {
            assert(n[i + d] == bs[i]);
        } else {
            assert(i == k);
        }
    }
}


/// A new allocation overlaps nothing live: if `p` is the payload of block
/// `k` and the request `[p, p + size)` ends inside that block, then every
/// other live payload `q` lies in a block wholly below `p` or wholly at or
/// after `p + size`.
pub proof fn lemma_allocation_disjoint_from_live(fl: FreeList, a: Seq<u8>, k: int, size: int, q: int)
    requires
        fl.inv(a),
        0 <= k < fl.model().len(),
        fl.model()[k].payload is Some,
        fl.model()[k].payload->0 + size <= fl.model()[k].start + fl.model()[k].size,
        fl.live(q),
        q != fl.model()[k].payload->0,
    ensures
        exists|j: int| 0 <= j < fl.model().len() && #[trigger] fl.model()[j].payload == Some(q) && (
            fl.model()[j].start + fl.model()[j].size <= fl.model()[k].payload->0
            || fl.model()[k].payload->0 + size <= fl.model()[j].start),
{
    let bs = fl.model();
    let end = tiled_end(fl.len as int);
    let j = choose|j: int| 0 <= j < bs.len() && #[trigger] bs[j].payload == Some(q);
    lemma_block_facts(bs, a, end, k);
    lemma_block_facts(bs, a, end, j);
    lemma_tiling_facts(bs, a, end);
    lemma_adjacent_ordered(bs);
    if j < k {
        assert(bs[j].start + bs[j].size <= bs[k].start);
    } else {
        assert(j != k);
        assert(bs[k].start + bs[k].size <= bs[j].start);
    }
}


// ---- freed payloads ----

/// A freed payload is refused, as not allocated or as corrupt.
proof fn lemma_stale_refused(bs: Seq<Blk>, a: Seq<u8>, len: int, p: int, s: int)
    requires
        stale_at(bs, a, len, p, s),
        a.len() == len,
        len <= usize::MAX,
    ensures
        free_check(a, p) == Some(FreeError::NotAllocated) || free_check(a, p) == Some(FreeError::Corrupt),
{
    if p > s + HEADER {
        assert(word(a, p - 8) == s);
        assert((s as u64) as usize == s);
    } else {
        let w = word(a, s + 8);
        if w != NIL {
            assert((w as usize) as int == w);
        }
    }
}

/// Two blocks of a tiling are one where their ranges meet.
proof fn lemma_same_block(bs: Seq<Blk>, a: Seq<u8>, end: int, i: int, j: int, x: int)
    requires
        tiles(bs, a, end),
        0 <= i < bs.len(),
        0 <= j < bs.len(),
        bs[i].start <= x < bs[i].start + bs[i].size,
        bs[j].start <= x < bs[j].start + bs[j].size,
    ensures
        i == j,
{
    lemma_tiling_facts(bs, a, end);
    lemma_adjacent_ordered(bs);
    if i < j {
        assert(bs[i].start + bs[i].size <= bs[j].start);
    } else if j < i {
        assert(bs[j].start + bs[j].size <= bs[i].start);
    }
}

/// A payload freed since the last allocation is not live.
pub proof fn lemma_freed_not_live(fl: FreeList, a: Seq<u8>, p: int)
    requires
        fl.inv(a),
        fl.freed().contains(p),
    ensures
        !fl.live(p),
{
    let bs = fl.blocks@;
    let end = tiled_end(fl.len as int);
    let s = fl.freed@[p];
    assert(stale_at(bs, a, fl.len as int, p, s));
    if holds_payload(bs, p) {
        let j = choose|j: int| 0 <= j < bs.len() && #[trigger] bs[j].payload == Some(p);
        let kf = choose|k: int| 0 <= k < bs.len() && is_free(#[trigger] bs[k]) && bs[k].start <= s && p < bs[k].start + bs[k].size;
        lemma_block_facts(bs, a, end, j);
        lemma_same_block(bs, a, end, j, kf, p);
    }
}

/// Grain-aligned offsets and the words beside them.
proof fn lemma_grain_mod(x: int)
    requires
        x % 16 == 0,
    ensures
        x % 8 == 0,
        (x + 8) % 8 == 0,
        (x - 8) % 8 == 0,
{
    vstd::arithmetic::div_mod::lemma_fundamental_div_mod(x, 16);
}

/// Two word-aligned offsets that differ are a whole word apart.
proof fn lemma_words_apart(x: int, y: int)
    requires
        x % 8 == 0,
        y % 8 == 0,
        x != y,
    ensures
        x + 8 <= y || y + 8 <= x,
{
    vstd::arithmetic::div_mod::lemma_fundamental_div_mod(x, 8);
    vstd::arithmetic::div_mod::lemma_fundamental_div_mod(y, 8);
}

/// The words a free of block `k` writes, in the order `insert_free` writes
/// them: the block's header and link, the previous free block's link, then
/// the forward and the backward merge.
spec fn free_writes(
    bs: Seq<Blk>,
    b0: Seq<u8>,
    b1: Seq<u8>,
    b2: Seq<u8>,
    b3: Seq<u8>,
    b4: Seq<u8>,
    b5: Seq<u8>,
    b6: Seq<u8>,
    b7: Seq<u8>,
    k: int,
    prev: Option<usize>,
    cursor: Option<usize>,
    merged_next: bool,
    merged_prev: bool,
) -> bool {
    &&& moved_only(b0, b1, bs[k].start)
    &&& word(b1, bs[k].start) == bs[k].size
    &&& moved_only(b1, b2, bs[k].start + 8)
    &&& word(b2, bs[k].start + 8) == (match cursor {
        Some(n) => n as u64,
        None => NIL,
    })
    &&& prev is Some ==> moved_only(b2, b3, prev->0 + 8) && word(b3, prev->0 + 8) == bs[k].start as u64
    &&& prev is None ==> b3 == b2
    &&& merged_next == (cursor is Some && bs[k].start + bs[k].size == cursor->0)
    &&& merged_next ==> moved_only(b3, b4, bs[k].start)
        && word(b4, bs[k].start) == bs[k].size + (word(b3, cursor->0 as int) & !1u64)
        && moved_only(b4, b5, bs[k].start + 8)
        && word(b5, bs[k].start + 8) == copied_link(word(b3, cursor->0 + 8))
    &&& !merged_next ==> b5 == b3
    &&& merged_prev == (prev is Some && prev->0 + (word(b5, prev->0 as int) & !1u64) == bs[k].start)
    &&& merged_prev ==> moved_only(b5, b6, prev->0 as int)
        && word(b6, prev->0 as int) == (word(b5, prev->0 as int) & !1u64) + (word(b5, bs[k].start) & !1u64)
        && moved_only(b6, b7, prev->0 + 8)
        && word(b7, prev->0 + 8) == copied_link(word(b5, bs[k].start + 8))
    &&& !merged_prev ==> b7 == b5
}

/// Where a free of live block `k` sits among the free blocks.
spec fn free_site(bs: Seq<Blk>, b0: Seq<u8>, end: int, k: int, prev: Option<usize>, cursor: Option<usize>) -> bool {
    &&& tiles(bs, b0, end)
    &&& end <= b0.len()
    &&& end <= usize::MAX
    &&& end % 16 == 0
    &&& 0 <= k < bs.len()
    &&& !is_free(bs[k])
    &&& prev == start_of(bs, prev_free_before(bs, k))
    &&& cursor == start_of(bs, next_free_from(bs, k + 1))
}

/// The insertion point found by the walk is the one around block `k`.
#[verifier::spinoff_prover]
#[verifier::rlimit(40)]
proof fn lemma_insert_point(bs: Seq<Blk>, b0: Seq<u8>, end: int, k: int, kk: int)
    requires
        tiles(bs, b0, end),
        0 <= k < bs.len(),
        !is_free(bs[k]),
        0 <= kk <= k,
        forall|i: int| 0 <= i < kk && is_free(#[trigger] bs[i]) ==> bs[i].start <= bs[k].start,
        next_free_from(bs, kk) is Some ==> bs[next_free_from(bs, kk)->0].start > bs[k].start,
    ensures
        prev_free_before(bs, kk) == prev_free_before(bs, k),
        next_free_from(bs, kk) == next_free_from(bs, k + 1),
{
    lemma_tiling_facts(bs, b0, end);
    lemma_adjacent_ordered(bs);
    lemma_next_free_range(bs, kk);
    assert forall|q: int| kk <= q < k + 1 implies !is_free(#[trigger] bs[q]) by {
        if is_free(bs[q]) {
            let x = next_free_from(bs, kk)->0;
            assert(x <= q);
            if x < k {
                assert(bs[x].start + bs[x].size <= bs[k].start);
            }
        }
    }
    lemma_next_free_skip(bs, kk, k + 1);
    lemma_prev_free_skip(bs, kk, k);
}

/// Outside the four words a free writes, nothing moved.
#[verifier::spinoff_prover]
#[verifier::rlimit(40)]
proof fn lemma_insert_frame(
    bs: Seq<Blk>,
    b0: Seq<u8>,
    b1: Seq<u8>,
    b2: Seq<u8>,
    b3: Seq<u8>,
    b4: Seq<u8>,
    b5: Seq<u8>,
    b6: Seq<u8>,
    b7: Seq<u8>,
    k: int,
    prev: Option<usize>,
    cursor: Option<usize>,
    merged_next: bool,
    merged_prev: bool,
)
    requires
        0 <= k < bs.len(),
        bs[k].start % 16 == 0,
        prev is Some ==> prev->0 % 16 == 0,
        free_writes(bs, b0, b1, b2, b3, b4, b5, b6, b7, k, prev, cursor, merged_next, merged_prev),
    ensures
        b7.len() == b0.len(),
        forall|x: int| 0 <= x && x + 8 <= b0.len() && x % 8 == 0 && x != bs[k].start && x != bs[k].start + 8
            && (prev is Some ==> x != prev->0 && x != prev->0 + 8) ==> #[trigger] word(b7, x) == word(b0, x),
{
    let s = bs[k].start;
    lemma_grain_mod(s);
    if let Some(pv) = prev {
        lemma_grain_mod(pv as int);
    }
    assert forall|x: int| 0 <= x && x + 8 <= b0.len() && x % 8 == 0 && x != s && x != s + 8
        && (prev is Some ==> x != prev->0 && x != prev->0 + 8) implies #[trigger] word(b7, x) == word(b0, x) by {
        lemma_words_apart(x, s);
        lemma_words_apart(x, s + 8);
        if let Some(pv) = prev {
            lemma_words_apart(x, pv as int);
            lemma_words_apart(x, pv + 8);
        }
        if merged_prev {
            assert(word(b7, x) == word(b6, x));
            assert(word(b6, x) == word(b5, x));
        }
        if merged_next {
            assert(word(b5, x) == word(b4, x));
            assert(word(b4, x) == word(b3, x));
        }
        if prev is Some {
            assert(word(b3, x) == word(b2, x));
        }
        assert(word(b2, x) == word(b1, x));
        assert(word(b1, x) == word(b0, x));
    }
}

/// The size a free gives the block before the backward merge.
pub open spec fn merged_size(bs: Seq<Blk>, k: int, merged_next: bool) -> int {
    if merged_next { bs[k].size + bs[next_free_from(bs, k + 1)->0].size } else { bs[k].size }
}

/// After the forward merge: the block's header and link, and the previous
/// free block's words.
#[verifier::spinoff_prover]
#[verifier::rlimit(80)]
proof fn lemma_insert_b5(
    bs: Seq<Blk>,
    b0: Seq<u8>,
    b1: Seq<u8>,
    b2: Seq<u8>,
    b3: Seq<u8>,
    b4: Seq<u8>,
    b5: Seq<u8>,
    b6: Seq<u8>,
    b7: Seq<u8>,
    end: int,
    k: int,
    prev: Option<usize>,
    cursor: Option<usize>,
    merged_next: bool,
    merged_prev: bool,
)
    requires
        free_site(bs, b0, end, k, prev, cursor),
        free_writes(bs, b0, b1, b2, b3, b4, b5, b6, b7, k, prev, cursor, merged_next, merged_prev),
    ensures
        word(b5, bs[k].start) == merged_size(bs, k, merged_next),
        merged_size(bs, k, merged_next) % 16 == 0,
        bs[k].start + merged_size(bs, k, merged_next) <= end,
        link_ok(word(b5, bs[k].start + 8), bs[k].start + bs[k].size, b0.len() as int),
        copied_link(word(b5, bs[k].start + 8)) == word(b5, bs[k].start + 8),
        prev is Some ==> word(b5, prev->0 as int) == bs[prev_free_before(bs, k)->0].size
            && word(b5, prev->0 + 8) == bs[k].start as u64,
{
    let s = bs[k].start;
    let size = bs[k].size;
    lemma_tiling_facts(bs, b0, end);
    lemma_adjacent_ordered(bs);
    lemma_block_facts(bs, b0, end, k);
    lemma_next_free_range(bs, k + 1);
    lemma_prev_free_range(bs, k);
    let nj = next_free_from(bs, k + 1);
    let pj = prev_free_before(bs, k);
    if let Some(y) = pj {
        lemma_block_facts(bs, b0, end, y);
        assert(bs[y].start + bs[y].size <= s);
    }
    if let Some(x) = nj {
        lemma_block_facts(bs, b0, end, x);
        lemma_size_word(bs, b0, end, x);
        lemma_next_free_range(bs, x + 1);
        if let Some(y) = next_free_from(bs, x + 1) {
            lemma_block_facts(bs, b0, end, y);
            assert(bs[x].start + bs[x].size <= bs[y].start);
        }
        assert(s + size <= bs[x].start);
        let c = bs[x].start;
        assert(word(b3, c) == word(b0, c)) by {
            if prev is Some {
                assert(word(b3, c) == word(b2, c));
            }
            assert(word(b2, c) == word(b1, c));
            assert(word(b1, c) == word(b0, c));
        }
        assert(word(b3, c + 8) == word(b0, c + 8)) by {
            if prev is Some {
                assert(word(b3, c + 8) == word(b2, c + 8));
            }
            assert(word(b2, c + 8) == word(b1, c + 8));
            assert(word(b1, c + 8) == word(b0, c + 8));
        }
    }
    if merged_next {
        assert(word(b5, s) == word(b4, s));
    } else {
        assert(word(b3, s) == word(b2, s));
        assert(word(b2, s) == word(b1, s));
        assert(word(b3, s + 8) == word(b2, s + 8));
    }
    if let Some(pv) = prev {
        let y = pj->0;
        assert(pv as int == bs[y].start);
        assert(word(b5, pv as int) == word(b0, pv as int)) by {
            if merged_next {
                assert(word(b5, pv as int) == word(b4, pv as int));
                assert(word(b4, pv as int) == word(b3, pv as int));
            }
            assert(word(b3, pv as int) == word(b2, pv as int));
            assert(word(b2, pv as int) == word(b1, pv as int));
            assert(word(b1, pv as int) == word(b0, pv as int));
        }
        assert(word(b5, pv + 8) == word(b3, pv + 8)) by {
            if merged_next {
                assert(word(b5, pv + 8) == word(b4, pv + 8));
                assert(word(b4, pv + 8) == word(b3, pv + 8));
            }
        }
    }
}

/// After the backward merge: the old header carries no mark, its link points
/// past the block, and the previous free block's header carries no mark and
/// links at or past the block.
#[verifier::spinoff_prover]
#[verifier::rlimit(80)]
proof fn lemma_insert_b7(
    bs: Seq<Blk>,
    b0: Seq<u8>,
    b1: Seq<u8>,
    b2: Seq<u8>,
    b3: Seq<u8>,
    b4: Seq<u8>,
    b5: Seq<u8>,
    b6: Seq<u8>,
    b7: Seq<u8>,
    end: int,
    k: int,
    prev: Option<usize>,
    cursor: Option<usize>,
    merged_next: bool,
    merged_prev: bool,
)
    requires
        free_site(bs, b0, end, k, prev, cursor),
        free_writes(bs, b0, b1, b2, b3, b4, b5, b6, b7, k, prev, cursor, merged_next, merged_prev),
        word(b5, bs[k].start) == merged_size(bs, k, merged_next),
        merged_size(bs, k, merged_next) % 16 == 0,
        bs[k].start + merged_size(bs, k, merged_next) <= end,
        link_ok(word(b5, bs[k].start + 8), bs[k].start + bs[k].size, b0.len() as int),
        copied_link(word(b5, bs[k].start + 8)) == word(b5, bs[k].start + 8),
        prev is Some ==> word(b5, prev->0 as int) == bs[prev_free_before(bs, k)->0].size
            && word(b5, prev->0 + 8) == bs[k].start as u64,
    ensures
        word(b7, bs[k].start) & 1 == 0,
        link_ok(word(b7, bs[k].start + 8), bs[k].start + bs[k].size, b0.len() as int),
        prev is Some ==> word(b7, prev->0 as int) & 1 == 0 && link_ok(word(b7, prev->0 + 8), bs[k].start, b0.len() as int),
{
    let s = bs[k].start;
    let mid = merged_size(bs, k, merged_next);
    lemma_block_facts(bs, b0, end, k);
    lemma_prev_free_range(bs, k);
    lemma_mark_bits(mid as u64);
    if let Some(pv) = prev {
        let y = prev_free_before(bs, k)->0;
        lemma_tiling_facts(bs, b0, end);
        lemma_adjacent_ordered(bs);
        lemma_block_facts(bs, b0, end, y);
        assert(bs[y].start + bs[y].size <= s);
        let psize = bs[y].size;
        lemma_mark_bits(psize as u64);
        if merged_prev {
            assert(word(b7, s) == word(b6, s));
            assert(word(b6, s) == word(b5, s));
            assert(word(b7, s + 8) == word(b6, s + 8));
            assert(word(b6, s + 8) == word(b5, s + 8));
            assert(word(b7, pv as int) == word(b6, pv as int));
            assert(psize + mid <= end);
            lemma_mark_bits((psize + mid) as u64);
        } else {
            assert(word(b7, pv + 8) == word(b5, pv + 8));
        }
    }
}

/// The words a legitimate free of block `k` leaves: outside the words it
/// writes nothing moved; the old header and the previous free block's
/// header carry no mark; links point past the freed block.
#[verifier::spinoff_prover]
#[verifier::rlimit(60)]
proof fn lemma_insert_words(
    bs: Seq<Blk>,
    b0: Seq<u8>,
    b1: Seq<u8>,
    b2: Seq<u8>,
    b3: Seq<u8>,
    b4: Seq<u8>,
    b5: Seq<u8>,
    b6: Seq<u8>,
    b7: Seq<u8>,
    end: int,
    k: int,
    kk: int,
    prev: Option<usize>,
    cursor: Option<usize>,
    merged_next: bool,
    merged_prev: bool,
)
    requires
        tiles(bs, b0, end),
        end <= b0.len(),
        end <= usize::MAX,
        end % 16 == 0,
        0 <= k < bs.len(),
        !is_free(bs[k]),
        0 <= kk <= k,
        forall|i: int| 0 <= i < kk && is_free(#[trigger] bs[i]) ==> bs[i].start <= bs[k].start,
        next_free_from(bs, kk) is Some ==> bs[next_free_from(bs, kk)->0].start > bs[k].start,
        prev == start_of(bs, prev_free_before(bs, kk)),
        cursor == start_of(bs, next_free_from(bs, kk)),
        free_writes(bs, b0, b1, b2, b3, b4, b5, b6, b7, k, prev, cursor, merged_next, merged_prev),
    ensures
        prev == start_of(bs, prev_free_before(bs, k)),
        b7.len() == b0.len(),
        ({
            let s = bs[k].start;
            let p = bs[k].payload->0;
            &&& forall|x: int| 0 <= x && x + 8 <= b0.len() && x % 8 == 0 && x != s && x != s + 8
                && (prev is Some ==> x != prev->0 && x != prev->0 + 8) ==> #[trigger] word(b7, x) == word(b0, x)
            &&& word(b7, s) & 1 == 0
            &&& p == s + HEADER ==> link_ok(word(b7, s + 8), s + bs[k].size, b0.len() as int)
            &&& p > s + HEADER ==> word(b7, p - 8) == s
            &&& prev is Some ==> word(b7, prev->0 as int) & 1 == 0 && link_ok(word(b7, prev->0 + 8), s, b0.len() as int)
        }),
{
    let s = bs[k].start;
    let p = bs[k].payload->0;
    lemma_insert_point(bs, b0, end, k, kk);
    lemma_block_facts(bs, b0, end, k);
    lemma_prev_free_range(bs, k);
    if let Some(pv) = prev {
        let y = prev_free_before(bs, k)->0;
        lemma_block_facts(bs, b0, end, y);
        lemma_tiling_facts(bs, b0, end);
        lemma_adjacent_ordered(bs);
        assert(bs[y].start + bs[y].size <= s);
    }
    assert(free_site(bs, b0, end, k, prev, cursor));
    lemma_insert_frame(bs, b0, b1, b2, b3, b4, b5, b6, b7, k, prev, cursor, merged_next, merged_prev);
    lemma_insert_b5(bs, b0, b1, b2, b3, b4, b5, b6, b7, end, k, prev, cursor, merged_next, merged_prev);
    lemma_insert_b7(bs, b0, b1, b2, b3, b4, b5, b6, b7, end, k, prev, cursor, merged_next, merged_prev);
    if p > s + HEADER {
        lemma_grain_mod(p);
        assert(word(b7, p - 8) == word(b0, p - 8));
    }
}

/// Payload `p`, freed from the block that started at `s`, lies with `s` in
/// one free block.
pub open spec fn in_free_block(bs: Seq<Blk>, s: int, p: int) -> bool {
    exists|k: int| 0 <= k < bs.len() && is_free(#[trigger] bs[k]) && bs[k].start <= s && p < bs[k].start + bs[k].size
}

/// A free block stays inside a free block when another block is freed.
#[verifier::spinoff_prover]
#[verifier::rlimit(60)]
proof fn lemma_stale_block(bs: Seq<Blk>, b0: Seq<u8>, end: int, k: int, p: int, s: int, kf: int)
    requires
        tiles(bs, b0, end),
        0 <= k < bs.len(),
        !is_free(bs[k]),
        0 <= kf < bs.len(),
        is_free(bs[kf]),
        bs[kf].start <= s,
        p < bs[kf].start + bs[kf].size,
    ensures
        in_free_block(release(bs, k), s, p),
{
    let lo = release_lo(bs, k);
    let hi = release_hi(bs, k);
    let mid = seq![released_block(bs, k)];
    let n = release(bs, k);
    let d = 1 - (hi - lo);
    lemma_tiling_facts(bs, b0, end);
    lemma_adjacent_ordered(bs);
    lemma_splice_index(bs, lo, hi, mid);
    lemma_block_facts(bs, b0, end, lo);
    lemma_block_facts(bs, b0, end, hi - 1);
    lemma_block_facts(bs, b0, end, kf);
    if lo <= kf < hi {
        assert(n[lo] == released_block(bs, k));
        if kf > lo {
            assert(bs[lo].start + bs[lo].size <= bs[kf].start);
        }
        if kf < hi - 1 {
            assert(bs[kf].start + bs[kf].size <= bs[hi - 1].start);
        }
        assert(is_free(n[lo]) && n[lo].start <= s && p < n[lo].start + n[lo].size);
    } else if kf < lo {
        assert(n[kf] == bs[kf]);
        assert(is_free(n[kf]) && n[kf].start <= s && p < n[kf].start + n[kf].size);
    } else {
        assert(n[kf + d] == bs[kf]);
        assert(is_free(n[kf + d]) && n[kf + d].start <= s && p < n[kf + d].start + n[kf + d].size);
    }
}

/// The words that mark a freed payload survive another block's free.
#[verifier::spinoff_prover]
#[verifier::rlimit(60)]
proof fn lemma_stale_words(bs: Seq<Blk>, b0: Seq<u8>, b7: Seq<u8>, end: int, k: int, prev: Option<usize>, p: int, s: int, kf: int)
    requires
        tiles(bs, b0, end),
        end <= b0.len(),
        end <= usize::MAX,
        b7.len() == b0.len(),
        0 <= k < bs.len(),
        !is_free(bs[k]),
        prev == start_of(bs, prev_free_before(bs, k)),
        stale_at(bs, b0, b0.len() as int, p, s),
        0 <= kf < bs.len(),
        is_free(bs[kf]),
        bs[kf].start <= s,
        p < bs[kf].start + bs[kf].size,
        forall|x: int| 0 <= x && x + 8 <= b0.len() && x % 8 == 0 && x != bs[k].start && x != bs[k].start + 8
            && (prev is Some ==> x != prev->0 && x != prev->0 + 8) ==> #[trigger] word(b7, x) == word(b0, x),
        prev is Some ==> word(b7, prev->0 as int) & 1 == 0 && link_ok(word(b7, prev->0 + 8), bs[k].start, b0.len() as int),
    ensures
        word(b7, s) & 1 == 0,
        p == s + HEADER ==> link_ok(word(b7, s + 8), p, b0.len() as int),
        p > s + HEADER ==> word(b7, p - 8) == s,
{
    let sk = bs[k].start;
    lemma_tiling_facts(bs, b0, end);
    lemma_adjacent_ordered(bs);
    lemma_block_facts(bs, b0, end, kf);
    lemma_block_facts(bs, b0, end, k);
    lemma_grain_mod(s);
    lemma_grain_mod(p);
    lemma_grain_mod(sk);
    assert(kf != k);
    if kf < k {
        assert(bs[kf].start + bs[kf].size <= sk);
    } else {
        assert(bs[k].start + bs[k].size <= bs[kf].start);
    }
    let is_prev = prev is Some && prev->0 == s;
    if let Some(pv) = prev {
        let y = prev_free_before(bs, k)->0;
        lemma_prev_free_range(bs, k);
        lemma_block_facts(bs, b0, end, y);
        assert(pv as int == bs[y].start);
        lemma_grain_mod(pv as int);
        if y != kf {
            if y < kf {
                assert(bs[y].start + bs[y].size <= bs[kf].start);
            } else {
                assert(bs[kf].start + bs[kf].size <= bs[y].start);
            }
        } else {
            assert(bs[kf].start + bs[kf].size <= sk);
        }
    }
    if !is_prev {
        assert(word(b7, s) == word(b0, s));
    }
    if p == s + HEADER {
        if !is_prev {
            assert(word(b7, s + 8) == word(b0, s + 8));
        }
    } else {
        assert(word(b7, p - 8) == word(b0, p - 8));
    }
}

/// A freed payload of another block stays freed after a legitimate free.
proof fn lemma_stale_preserved(bs: Seq<Blk>, b0: Seq<u8>, b7: Seq<u8>, end: int, k: int, prev: Option<usize>, p: int, s: int)
    requires
        tiles(bs, b0, end),
        end <= b0.len(),
        end <= usize::MAX,
        b7.len() == b0.len(),
        0 <= k < bs.len(),
        !is_free(bs[k]),
        prev == start_of(bs, prev_free_before(bs, k)),
        stale_at(bs, b0, b0.len() as int, p, s),
        forall|x: int| 0 <= x && x + 8 <= b0.len() && x % 8 == 0 && x != bs[k].start && x != bs[k].start + 8
            && (prev is Some ==> x != prev->0 && x != prev->0 + 8) ==> #[trigger] word(b7, x) == word(b0, x),
        prev is Some ==> word(b7, prev->0 as int) & 1 == 0 && link_ok(word(b7, prev->0 + 8), bs[k].start, b0.len() as int),
    ensures
        stale_at(release(bs, k), b7, b0.len() as int, p, s),
{
    let kf = choose|j: int| 0 <= j < bs.len() && is_free(#[trigger] bs[j]) && bs[j].start <= s && p < bs[j].start + bs[j].size;
    lemma_stale_block(bs, b0, end, k, p, s, kf);
    lemma_stale_words(bs, b0, b7, end, k, prev, p, s, kf);
}

/// A legitimate free of block `k` keeps every freed payload freed, and its
/// own payload joins them.
#[verifier::spinoff_prover]
#[verifier::rlimit(40)]
proof fn lemma_free_keeps_freed(bs: Seq<Blk>, b0: Seq<u8>, b7: Seq<u8>, end: int, k: int, prev: Option<usize>, fm: Map<int, int>)
    requires
        tiles(bs, b0, end),
        end <= b0.len(),
        end <= usize::MAX,
        b7.len() == b0.len(),
        0 <= k < bs.len(),
        !is_free(bs[k]),
        prev == start_of(bs, prev_free_before(bs, k)),
        forall|q: int| #[trigger] fm.contains_key(q) ==> stale_at(bs, b0, b0.len() as int, q, fm[q]),
        forall|x: int| 0 <= x && x + 8 <= b0.len() && x % 8 == 0 && x != bs[k].start && x != bs[k].start + 8
            && (prev is Some ==> x != prev->0 && x != prev->0 + 8) ==> #[trigger] word(b7, x) == word(b0, x),
        prev is Some ==> word(b7, prev->0 as int) & 1 == 0 && link_ok(word(b7, prev->0 + 8), bs[k].start, b0.len() as int),
        word(b7, bs[k].start) & 1 == 0,
        bs[k].payload->0 == bs[k].start + HEADER ==> link_ok(word(b7, bs[k].start + 8), bs[k].start + bs[k].size, b0.len() as int),
        bs[k].payload->0 > bs[k].start + HEADER ==> word(b7, bs[k].payload->0 - 8) == bs[k].start,
    ensures
        forall|q: int| #[trigger] fm.insert(bs[k].payload->0, bs[k].start).contains_key(q)
            ==> stale_at(release(bs, k), b7, b0.len() as int, q, fm.insert(bs[k].payload->0, bs[k].start)[q]),
{
    let p = bs[k].payload->0;
    let s = bs[k].start;
    lemma_new_stale(bs, b0, b7, end, k);
    assert forall|q: int| #[trigger] fm.insert(p, s).contains_key(q) implies stale_at(release(bs, k), b7, b0.len() as int, q, fm.insert(p, s)[q]) by {
        if q != p {
            lemma_stale_preserved(bs, b0, b7, end, k, prev, q, fm[q]);
        }
    }
}

/// The payload a legitimate free releases is freed.
proof fn lemma_new_stale(bs: Seq<Blk>, b0: Seq<u8>, b7: Seq<u8>, end: int, k: int)
    requires
        tiles(bs, b0, end),
        end <= b0.len(),
        b7.len() == b0.len(),
        0 <= k < bs.len(),
        !is_free(bs[k]),
        word(b7, bs[k].start) & 1 == 0,
        bs[k].payload->0 == bs[k].start + HEADER ==> link_ok(word(b7, bs[k].start + 8), bs[k].start + bs[k].size, b0.len() as int),
        bs[k].payload->0 > bs[k].start + HEADER ==> word(b7, bs[k].payload->0 - 8) == bs[k].start,
    ensures
        stale_at(release(bs, k), b7, b0.len() as int, bs[k].payload->0, bs[k].start),
{
    let lo = release_lo(bs, k);
    let hi = release_hi(bs, k);
    let mid = seq![released_block(bs, k)];
    let n = release(bs, k);
    lemma_splice_index(bs, lo, hi, mid);
    lemma_block_facts(bs, b0, end, k);
    lemma_block_facts(bs, b0, end, lo);
    lemma_block_facts(bs, b0, end, hi - 1);
    assert(n[lo] == released_block(bs, k));
    assert(is_free(n[lo]) && n[lo].start <= bs[k].start && bs[k].payload->0 < n[lo].start + n[lo].size);
}


} // verus!
