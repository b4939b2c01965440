//! ASID pool and TTBR0 packing.
//!
//! AArch64 stage-1 takes the ASID from `TTBR0_EL1[63:48]`. ASID 0 is reserved
//! for the kernel root; user address spaces take a free ASID from an 8-bit
//! pool.
use vstd::prelude::*;

verus! {

/// ASID width programmed into `TCR_EL1`.
pub const ASID_BITS: u32 = 8;

/// Number of distinct ASID values.
pub const ASID_COUNT: usize = 256;

/// Bit position of the ASID field in `TTBR0_EL1`.
pub const ASID_SHIFT: u32 = 48;

/// Mask for the ASID field once shifted down.
pub const ASID_MASK: u16 = 0xFF;

/// Reserved for the kernel identity root.
pub const KERNEL_ASID: u16 = 0;

/// Physical root bits that may sit under the ASID field.
pub const ROOT_MASK: u64 = 0xFFFF_FFFF_FFFF;

pub open spec fn spec_pack_ttbr0(root_phys: u64, asid: u16) -> u64 {
    (root_phys & ROOT_MASK) | (((asid as u64) & (ASID_MASK as u64)) << 48u64)
}

/// Pack a page-table root with an ASID for `TTBR0_EL1`.
pub fn pack_ttbr0(root_phys: u64, asid: u16) -> (r: u64)
    ensures
        r == spec_pack_ttbr0(root_phys, asid),
{
    (root_phys & ROOT_MASK) | (((asid as u64) & (ASID_MASK as u64)) << 48u64)
}

/// Recover the physical root from a packed value.
pub fn unpack_root(ttbr: u64) -> (r: u64)
    ensures
        r == ttbr & ROOT_MASK,
{
    ttbr & ROOT_MASK
}

/// Recover the ASID from a packed value.
pub fn unpack_asid(ttbr: u64) -> (r: u16)
    ensures
        r == ((ttbr >> 48u64) as u16) & ASID_MASK,
{
    ((ttbr >> 48u64) as u16) & ASID_MASK
}

/// Packing then unpacking gives back the root's low 48 bits and the ASID's
/// low 8 bits — the two fields never bleed into each other.
pub proof fn lemma_ttbr0_round_trip(root_phys: u64, asid: u16)
    ensures
        spec_pack_ttbr0(root_phys, asid) & ROOT_MASK == root_phys & ROOT_MASK,
        ((spec_pack_ttbr0(root_phys, asid) >> 48u64) as u16) & ASID_MASK == asid & ASID_MASK,
{
    let a = asid as u64;
    assert(((root_phys & 0xFFFF_FFFF_FFFF) | ((a & 0xFF) << 48u64)) & 0xFFFF_FFFF_FFFF == root_phys
        & 0xFFFF_FFFF_FFFF && ((((root_phys & 0xFFFF_FFFF_FFFF) | ((a & 0xFF) << 48u64)) >> 48u64)
        & 0xFF) == a & 0xFF) by (bit_vector);
    assert((asid as u64) & 0xFF == (asid & 0xFF) as u64) by (bit_vector);
    let w = spec_pack_ttbr0(root_phys, asid);
    assert(((w >> 48u64) as u16) & 0xFF == ((w >> 48u64) & 0xFF) as u16) by (bit_vector);
}

/// Cyclic distance from `start` forward to `i` in the 256-entry ring.
pub open spec fn ring_distance(start: int, i: int) -> int {
    if i >= start { i - start } else { i - start + 256 }
}

/// Fixed-size pool of non-kernel ASIDs.
///
/// ASID 0 is never allocated; exhaustion answers `None` rather than reusing a
/// live tag.
#[derive(Clone, Debug)]
pub struct AsidPool {
    /// `free[i]` ⇒ ASID `i` is free; `free[0]` is always clear.
    free: Vec<bool>,
    /// Next index to scan (round-robin hint).
    next: u16,
    /// How many non-kernel ASIDs are currently free.
    free_count: u16,
}

impl AsidPool {
    /// The free ASIDs.
    pub closed spec fn view(&self) -> Set<u16> {
        Set::new(|a: u16| (a as int) < 256 && self.free@[a as int])
    }

    /// Where the next scan starts.
    pub closed spec fn hint(&self) -> u16 {
        self.next
    }

    pub closed spec fn wf(&self) -> bool {
        &&& self.free@.len() == 256
        &&& !self.free@[0]
        &&& self.next < 256
        &&& self@.finite()
        &&& self.free_count == self@.len()
    }

    /// Fresh pool: every ASID except the kernel's is free.
    pub fn new() -> (p: AsidPool)
        ensures
            p.wf(),
            p@ == Set::new(|a: u16| 0 < a < 256),
            p@.len() == 255,
    {
        let mut free: Vec<bool> = Vec::new();
        free.push(false);
        let mut i: usize = 1;
        while i < ASID_COUNT
            invariant
                1 <= i <= 256,
                free@.len() == i,
                !free@[0],
                forall|j: int| 1 <= j < i ==> free@[j],
            decreases 256 - i,
        {
            free.push(true);
            i = i + 1;
        }
        let p = AsidPool { free, next: 1, free_count: 255 };
        assert(p@ =~= Set::new(|a: u16| 0 < a < 256));
        proof {
            lemma_u16_range_len();
        }
        p
    }

    /// Allocate the first free ASID at or after the hint (cyclically), or
    /// `None` if the pool is empty.
    pub fn allocate(&mut self) -> (r: Option<u16>)
        requires
            old(self).wf(),
        ensures
            final(self).wf(),
            old(self)@.len() == 0 ==> r is None && final(self)@ == old(self)@,
            old(self)@.len() > 0 ==> (r matches Some(a) && {
                &&& old(self)@.contains(a)
                &&& a != KERNEL_ASID
                &&& final(self)@ == old(self)@.remove(a)
                &&& forall|b: u16| #[trigger] old(self)@.contains(b) ==> ring_distance(
                    old(self).hint() as int,
                    a as int,
                ) <= ring_distance(old(self).hint() as int, b as int)
                &&& final(self).hint() == (a + 1) % 256
                &&& 0 < a < 256
                &&& final(self)@.finite()
                &&& final(self)@.len() == old(self)@.len() - 1
            }),
    {
        if self.free_count == 0 {
            return None;
        }
        let start: usize = self.next as usize;
        let mut i: usize = start;
        let mut steps: usize = 0;
        while steps < ASID_COUNT
            invariant
                self.wf(),
                self.free@ == old(self).free@,
                self.next == old(self).next,
                self.free_count == old(self).free_count,
                start == self.next,
                steps <= 256,
                i < 256,
                i == (start + steps) % 256,
                forall|b: u16| #[trigger] self@.contains(b) ==> ring_distance(start as int, b as int)
                    >= steps,
            decreases 256 - steps,
        {
            if self.free[i] {
                let ghost before = self@;
                let a = i as u16;
                self.free.set(i, false);
                assert(self@ =~= before.remove(a));
                self.free_count = self.free_count - 1;
                self.next = ((i + 1) % ASID_COUNT) as u16;
                return Some(a);
            }
            i = if i + 1 == ASID_COUNT { 0 } else { i + 1 };
            steps = steps + 1;
        }
        proof {
            assert forall|b: u16| !self@.contains(b) by {
                if self@.contains(b) {
                    assert(ring_distance(start as int, b as int) < 256);
                }
            }
            assert(self@ =~= Set::<u16>::empty());
        }
        None
    }

    /// Return `asid` to the pool. `true` if it was live and is now free;
    /// `false`, with nothing changed, for the kernel ASID, an out-of-range
    /// value, or one already free.
    pub fn free(&mut self, asid: u16) -> (r: bool)
        requires
            old(self).wf(),
        ensures
            final(self).wf(),
            r == (asid != KERNEL_ASID && asid < 256 && !old(self)@.contains(asid)),
            r ==> final(self)@ == old(self)@.insert(asid) && final(self)@.len() == old(self)@.len() + 1,
            !r ==> final(self)@ == old(self)@,
            final(self).hint() == old(self).hint(),
    {
        if asid == KERNEL_ASID || asid as usize >= ASID_COUNT {
            return false;
        }
        if self.free[asid as usize] {
            return false;
        }
        let ghost before = self@;
        self.free.set(asid as usize, true);
        assert(self@ =~= before.insert(asid));
        proof {
            self.lemma_len_bound();
        }
        self.free_count = self.free_count + 1;
        true
    }

    /// ASIDs still available for user address spaces.
    pub fn free_count(&self) -> (r: u16)
        requires
            self.wf(),
        ensures
            r == self@.len(),
    {
        self.free_count
    }

    /// True if `asid` is currently free (or out of range / kernel reserved).
    pub fn is_free(&self, asid: u16) -> (r: bool)
        requires
            self.wf(),
        ensures
            r == (asid == KERNEL_ASID || asid >= 256 || self@.contains(asid)),
    {
        if asid == KERNEL_ASID || asid as usize >= ASID_COUNT {
            return true;
        }
        self.free[asid as usize]
    }

    /// What a pool holds: only ASIDs from 1 to 255, finitely many, at most
    /// 255 of them.
    pub proof fn lemma_pool_bounds(&self)
        requires
            self.wf(),
        ensures
            self@.finite(),
            self@.len() <= 255,
            forall|a: u16| #[trigger] self@.contains(a) ==> 0 < a < 256,
    {
        self.lemma_len_bound();
    }

    proof fn lemma_len_bound(&self)
        requires
            self.free@.len() == 256,
            !self.free@[0],
            self@.finite(),
        ensures
            self@.len() <= 255,
    {
        let full = Set::new(|a: u16| 0 < a < 256);
        lemma_u16_range_len();
        assert(self@.subset_of(full));
        vstd::set_lib::lemma_len_subset(self@, full);
    }
}

/// The non-kernel ASIDs number 255.
proof fn lemma_u16_range_len()
    ensures
        Set::new(|a: u16| 0 < a < 256).finite(),
        Set::new(|a: u16| 0 < a < 256).len() == 255,
{
    let s = Set::new(|a: u16| 0 < a < 256);
    let r = vstd::set_lib::set_int_range(1, 256);
    vstd::set_lib::lemma_int_range(1, 256);
    let f = |i: int| i as u16;
    assert forall|a: u16| s.contains(a) implies #[trigger] r.map(f).contains(a) by {
        assert(r.contains(a as int));
        assert(f(a as int) == a);
    }
    assert forall|a: u16| r.map(f).contains(a) implies #[trigger] s.contains(a) by {
        let i = choose|i: int| r.contains(i) && f(i) == a;
        assert(1 <= i < 256);
    }
    assert(s =~= r.map(f));
    assert(vstd::relations::injective_on(f, r)) by {
        assert forall|x1: int, x2: int| r.contains(x1) && r.contains(x2) && #[trigger] f(x1) == #[trigger] f(x2) implies x1 == x2 by {
            assert(f(x1) as int == x1);
            assert(f(x2) as int == x2);
        }
    }
    vstd::set_lib::lemma_map_size(r, s, f);
}

impl Default for AsidPool {
    fn default() -> (r: Self)
        ensures
            r.wf(),
            r@ == Set::new(|a: u16| 0 < a < 256),
    {
        Self::new()
    }
}


} // verus!
