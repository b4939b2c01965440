//! Bump allocator bookkeeping: address arithmetic over a half-open region.
use vstd::prelude::*;

verus! {

/// `align` is a power of two: non-zero with a single bit set.
pub open spec fn is_pow2(align: usize) -> bool {
    align != 0 && align & ((align - 1) as usize) == 0
}

/// `cur` rounded up to `align` (for a power of two).
pub open spec fn round_up(cur: usize, align: usize) -> usize {
    ((cur + align - 1) as usize) & !((align - 1) as usize)
}

/// A half-open region `[cur, end)` handed out from the bottom up.
#[derive(Clone, Copy, Debug, PartialEq, Eq, Structural)]
pub struct Bump {
    cur: usize,
    end: usize,
}

impl Bump {
    pub closed spec fn spec_cur(self) -> usize {
        self.cur
    }

    pub closed spec fn spec_end(self) -> usize {
        self.end
    }

    /// An exhausted allocator.
    pub fn empty() -> (b: Bump)
        ensures
            b.spec_cur() == 0,
            b.spec_end() == 0,
    {
        Bump { cur: 0, end: 0 }
    }

    /// An allocator over `[start, end)`; `None` if the region is empty.
    pub fn new(start: usize, end: usize) -> (r: Option<Bump>)
        ensures
            end <= start ==> r is None,
            end > start ==> (r matches Some(b) && b.spec_cur() == start && b.spec_end() == end),
    {
        if end <= start {
            return None;
        }
        Some(Bump { cur: start, end })
    }

    /// Bytes still available (ignoring alignment padding).
    pub fn remaining(&self) -> (r: usize)
        ensures
            r == (if self.spec_end() >= self.spec_cur() {
                self.spec_end() - self.spec_cur()
            } else {
                0
            }),
    {
        self.end.saturating_sub(self.cur)
    }

    /// Next address that would be handed out before alignment.
    pub fn cursor(&self) -> (r: usize)
        ensures
            r == self.spec_cur(),
    {
        self.cur
    }

    /// Carve out `size` bytes aligned to `align`.
    ///
    /// Refused (with the cursor untouched) when `align` is not a power of two,
    /// when rounding up or adding `size` would wrap, or when the request does
    /// not fit before `end`.
    pub fn allocate(&mut self, size: usize, align: usize) -> (r: Option<usize>)
        ensures
            ({
                let cur = old(self).spec_cur();
                let ok = is_pow2(align) && cur + align - 1 <= usize::MAX && round_up(cur, align)
                    + size <= old(self).spec_end();
                &&& ok ==> r == Some(round_up(cur, align)) && final(self).spec_cur() == round_up(
                    cur,
                    align,
                ) + size && final(self).spec_end() == old(self).spec_end()
                &&& !ok ==> r is None && *final(self) == *old(self)
            }),
    {
        if align == 0 || align & (align - 1) != 0 {
            return None;
        }
        if self.cur > usize::MAX - (align - 1) {
            return None;
        }
        let aligned = (self.cur + (align - 1)) & !(align - 1);
        if size > usize::MAX - aligned {
            return None;
        }
        let next = aligned + size;
        if next > self.end {
            return None;
        }
        self.cur = next;
        Some(aligned)
    }
}

/// What an allocation hands out is aligned, starts at or after the old
/// cursor, and ends where the new cursor begins — so successive allocations
/// never overlap.
pub proof fn lemma_round_up(cur: usize, align: usize)
    requires
        is_pow2(align),
        cur + align - 1 <= usize::MAX,
    ensures
        round_up(cur, align) >= cur,
        round_up(cur, align) & ((align - 1) as usize) == 0,
{
    let a1 = (align - 1) as usize;
    let s = (cur + a1) as usize;
    assert((s & !a1) >= cur && (s & !a1) & a1 == 0) by (bit_vector)
        requires
            align & a1 == 0,
            align != 0,
            a1 == align - 1,
            s == cur + a1,
    ;
}

} // verus!
