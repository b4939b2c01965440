//! Physical frame free-list arithmetic.
//!
//! Tracks a fixed pool of same-sized frames by index only; the kernel maps
//! index to physical address. `allocate` hands out an index that was free,
//! `free` accepts only indices this pool handed out, and the capacity is fixed
//! at construction.
use vstd::prelude::*;

verus! {

/// Maximum frames a single [`FramePool`] can manage.
pub const MAX_FRAMES: usize = 1024;

/// Opaque frame index into a pool (`0 .. capacity`).
#[derive(Clone, Copy, Debug, PartialEq, Eq, Hash, Structural)]
pub struct FrameId(u32);

impl FrameId {
    pub closed spec fn spec_index(self) -> u32 {
        self.0
    }

    /// Index as `u32`.
    pub fn index(self) -> (r: u32)
        ensures
            r == self.spec_index(),
    {
        self.0
    }

    /// Build from a raw index (the pool checks it on free).
    pub fn from_index(index: u32) -> (f: FrameId)
        ensures
            f.spec_index() == index,
    {
        FrameId(index)
    }
}

/// Why [`FramePool::free`] refused.
#[derive(Clone, Copy, Debug, PartialEq, Eq, Structural)]
pub enum FrameFreeError {
    /// Index at or past the capacity.
    OutOfBounds,
    /// Index is not currently allocated (double free or never allocated).
    NotAllocated,
}

/// Fixed-capacity pool of frames: free frames sit on a stack, and a flag per
/// frame marks those handed out, so a free can refuse a double free without
/// scanning the stack.
#[derive(Clone, Debug)]
pub struct FramePool {
    capacity: u32,
    free_stack: Vec<u32>,
    allocated: Vec<bool>,
}

impl FramePool {
    /// Frames in the pool.
    pub closed spec fn spec_capacity(&self) -> u32 {
        self.capacity
    }

    /// Free frames, the next one to be handed out last.
    pub closed spec fn free_stack(&self) -> Seq<u32> {
        self.free_stack@
    }

    /// Whether frame `i` is handed out.
    pub closed spec fn is_allocated(&self, i: int) -> bool {
        self.allocated@[i]
    }

    /// Every frame below the capacity is either on the free stack, once, or
    /// handed out; nothing else is on the stack.
    pub closed spec fn wf(&self) -> bool {
        &&& self.capacity <= MAX_FRAMES
        &&& self.allocated@.len() == self.capacity
        &&& self.free_stack@.len() <= self.capacity
        &&& forall|k: int| 0 <= k < self.free_stack@.len() ==> #[trigger] self.free_stack@[k] < self.capacity
        &&& forall|k: int, l: int| 0 <= k < l < self.free_stack@.len() ==> self.free_stack@[k] != self.free_stack@[l]
        &&& forall|i: int| 0 <= i < self.capacity ==> (#[trigger] self.allocated@[i] <==> !self.free_stack@.contains(i as u32))
        &&& self.free_stack@.len() + count_true(self.allocated@, self.capacity as int) == self.capacity
    }

    /// Pool that cannot allocate (capacity 0).
    pub fn empty() -> (p: FramePool)
        ensures
            p.wf(),
            p.spec_capacity() == 0,
            p.free_stack() == Seq::<u32>::empty(),
    {
        FramePool { capacity: 0, free_stack: Vec::new(), allocated: Vec::new() }
    }

    /// Pool of `capacity` frames (clamped to [`MAX_FRAMES`]), all free, low
    /// indices handed out first.
    pub fn new(capacity: u32) -> (p: FramePool)
        ensures
            p.wf(),
            p.spec_capacity() == if capacity <= MAX_FRAMES { capacity } else { MAX_FRAMES as u32 },
            p.free_stack() == Seq::new(p.spec_capacity() as nat, |k: int| (p.spec_capacity() - 1 - k) as u32),
    {
        let cap: u32 = if capacity <= MAX_FRAMES as u32 { capacity } else { MAX_FRAMES as u32 };
        let mut free_stack: Vec<u32> = Vec::new();
        let mut allocated: Vec<bool> = Vec::new();
        let mut i: u32 = 0;
        while i < cap
            invariant
                i <= cap,
                cap <= MAX_FRAMES,
                free_stack@ == Seq::new(i as nat, |k: int| (cap - 1 - k) as u32),
                allocated@ == Seq::new(i as nat, |k: int| false),
            decreases cap - i,
        {
            free_stack.push(cap - 1 - i);
            allocated.push(false);
            i = i + 1;
            assert(free_stack@ =~= Seq::new(i as nat, |k: int| (cap - 1 - k) as u32));
            assert(allocated@ =~= Seq::new(i as nat, |k: int| false));
        }
        let p = FramePool { capacity: cap, free_stack, allocated };
        proof {
            lemma_count_zero(p.allocated@, cap as int);
        }
        assert forall|j: int| 0 <= j < cap implies (#[trigger] p.allocated@[j] <==> !p.free_stack@.contains(j as u32)) by {
            assert(p.free_stack@[cap - 1 - j] == j as u32);
        }
        p
    }

    /// Configured capacity.
    pub fn capacity(&self) -> (r: u32)
        ensures
            r == self.spec_capacity(),
    {
        self.capacity
    }

    /// Frames still free.
    pub fn free_count(&self) -> (r: u32)
        requires
            self.wf(),
        ensures
            r == self.free_stack().len(),
    {
        self.free_stack.len() as u32
    }

    /// Frames currently handed out.
    pub fn used_count(&self) -> (r: u32)
        requires
            self.wf(),
        ensures
            r == self.spec_capacity() - self.free_stack().len(),
    {
        self.capacity - self.free_stack.len() as u32
    }

    /// Hand out the frame on top of the free stack, or `None` when none is
    /// free.
    pub fn allocate(&mut self) -> (r: Option<FrameId>)
        requires
            old(self).wf(),
        ensures
            final(self).wf(),
            final(self).spec_capacity() == old(self).spec_capacity(),
            old(self).free_stack().len() == 0 ==> r is None && final(self).free_stack() == old(self).free_stack(),
            old(self).free_stack().len() > 0 ==> {
                &&& r is Some && r->0.spec_index() == old(self).free_stack().last()
                &&& !old(self).is_allocated(old(self).free_stack().last() as int)
                &&& final(self).is_allocated(old(self).free_stack().last() as int)
                &&& final(self).free_stack() == old(self).free_stack().drop_last()
            },
    {
        let ghost st = self.free_stack@;
        let ghost fl = self.allocated@;
        match self.free_stack.pop() {
            None => None,
            Some(idx) => {
                assert(st.contains(idx)) by {
                    assert(st[st.len() - 1] == idx);
                }
                self.allocated.set(idx as usize, true);
                proof {
                    lemma_count_update(fl, idx as int, true, self.capacity as int);
                }
                assert forall|i: int| 0 <= i < self.capacity implies (#[trigger] self.allocated@[i] <==> !self.free_stack@.contains(i as u32)) by {
                    if self.free_stack@.contains(i as u32) {
                        let k = choose|k: int| 0 <= k < self.free_stack@.len() && self.free_stack@[k] == i as u32;
                        assert(st[k] == i as u32);
                    }
                    if i != idx && !self.free_stack@.contains(i as u32) {
                        if st.contains(i as u32) {
                            let k = choose|k: int| 0 <= k < st.len() && st[k] == i as u32;
                            assert(k < st.len() - 1);
                            assert(self.free_stack@[k] == i as u32);
                        }
                    }
                    if i == idx {
                        if self.free_stack@.contains(i as u32) {
                            let k = choose|k: int| 0 <= k < self.free_stack@.len() && self.free_stack@[k] == i as u32;
                            assert(st[k] == st[st.len() - 1]);
                        }
                    }
                }
                Some(FrameId(idx))
            },
        }
    }

    /// Return a frame previously handed out.
    pub fn free(&mut self, id: FrameId) -> (r: Result<(), FrameFreeError>)
        requires
            old(self).wf(),
        ensures
            final(self).wf(),
            final(self).spec_capacity() == old(self).spec_capacity(),
            id.spec_index() >= old(self).spec_capacity() ==> r == Err::<(), FrameFreeError>(FrameFreeError::OutOfBounds)
                && *final(self) == *old(self),
            id.spec_index() < old(self).spec_capacity() && !old(self).is_allocated(id.spec_index() as int) ==> r
                == Err::<(), FrameFreeError>(FrameFreeError::NotAllocated) && *final(self) == *old(self),
            id.spec_index() < old(self).spec_capacity() && old(self).is_allocated(id.spec_index() as int) ==> {
                &&& r is Ok
                &&& !final(self).is_allocated(id.spec_index() as int)
                &&& final(self).free_stack() == old(self).free_stack().push(id.spec_index())
            },
    {
        let idx = id.0;
        if idx >= self.capacity {
            return Err(FrameFreeError::OutOfBounds);
        }
        if !self.allocated[idx as usize] {
            return Err(FrameFreeError::NotAllocated);
        }
        let ghost st = self.free_stack@;
        let ghost fl = self.allocated@;
        proof {
            lemma_count_pos(fl, idx as int, self.capacity as int);
            lemma_count_update(fl, idx as int, false, self.capacity as int);
        }
        self.allocated.set(idx as usize, false);
        self.free_stack.push(idx);
        assert forall|i: int| 0 <= i < self.capacity implies (#[trigger] self.allocated@[i] <==> !self.free_stack@.contains(i as u32)) by {
            if i == idx {
                assert(self.free_stack@[st.len() as int] == idx);
            } else {
                if self.free_stack@.contains(i as u32) {
                    let k = choose|k: int| 0 <= k < self.free_stack@.len() && self.free_stack@[k] == i as u32;
                    assert(k < st.len());
                    assert(st[k] == i as u32);
                }
                if st.contains(i as u32) {
                    let k = choose|k: int| 0 <= k < st.len() && st[k] == i as u32;
                    assert(self.free_stack@[k] == i as u32);
                }
            }
        }
        Ok(())
    }
}

/// How many of the first `n` flags are set.
pub open spec fn count_true(s: Seq<bool>, n: int) -> nat
    decreases n,
{
    if n <= 0 {
        0
    } else {
        count_true(s, n - 1) + if s[n - 1] { 1nat } else { 0nat }
    }
}

proof fn lemma_count_update(s: Seq<bool>, i: int, v: bool, n: int)
    requires
        0 <= i < s.len(),
        0 <= n <= s.len(),
    ensures
        i < n ==> count_true(s.update(i, v), n) + (if s[i] { 1int } else { 0int }) == count_true(s, n) + (if v { 1int } else { 0int }),
        i >= n ==> count_true(s.update(i, v), n) == count_true(s, n),
    decreases n,
{
    if n > 0 {
        lemma_count_update(s, i, v, n - 1);
    }
}

proof fn lemma_count_pos(s: Seq<bool>, i: int, n: int)
    requires
        0 <= i < n <= s.len(),
        s[i],
    ensures
        count_true(s, n) >= 1,
    decreases n,
{
    if i < n - 1 {
        lemma_count_pos(s, i, n - 1);
    }
}

proof fn lemma_count_zero(s: Seq<bool>, n: int)
    requires
        0 <= n <= s.len(),
        forall|k: int| 0 <= k < n ==> !#[trigger] s[k],
    ensures
        count_true(s, n) == 0,
    decreases n,
{
    if n > 0 {
        lemma_count_zero(s, n - 1);
    }
}

/// A frame handed out and then freed is the next one handed out again, and
/// the same frame cannot be freed twice.
pub proof fn lemma_free_then_allocate(stack: Seq<u32>, idx: u32)
    ensures
        stack.push(idx).last() == idx,
        stack.push(idx).drop_last() == stack,
{
    assert(stack.push(idx).drop_last() =~= stack);
}

} // verus!
