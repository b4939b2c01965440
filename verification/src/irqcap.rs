//! IRQ notification capabilities: minting a capability for an IRQ cookie and
//! resolving it back.
//!
//! Indices for this table sit in the IRQ band so they never collide with IPC
//! endpoint indices.
use vstd::prelude::*;
use crate::cap::{CapClass, CapId, class_of};

verus! {

/// Concurrent notification objects.
pub const MAX_IRQ_CAPS: usize = 8;

/// IRQ-band base: IRQ-cap indices are `INDEX_BASE | local`.
pub const INDEX_BASE: u16 = 0x8000;

/// Why `mint` failed.
#[derive(Clone, Copy, Debug, PartialEq, Eq, Structural)]
pub enum MintError {
    Full,
}

/// Why `lookup` refused.
#[derive(Clone, Copy, Debug, PartialEq, Eq, Structural)]
pub enum LookupError {
    BadCap,
}

/// One entry: `(live, generation, cookie)`.
pub type IrqEntry = (bool, u16, u32);

/// First entry at or after `from` that is not live.
pub open spec fn first_dead(s: Seq<IrqEntry>, from: int) -> int
    decreases s.len() - from,
{
    if from < 0 || from >= s.len() {
        s.len() as int
    } else if !s[from].0 {
        from
    } else {
        first_dead(s, from + 1)
    }
}

proof fn lemma_first_dead(s: Seq<IrqEntry>, from: int)
    requires
        0 <= from <= s.len(),
    ensures
        from <= first_dead(s, from) <= s.len(),
        first_dead(s, from) < s.len() ==> !s[first_dead(s, from)].0,
    decreases s.len() - from,
{
    if from < s.len() && s[from].0 {
        lemma_first_dead(s, from + 1);
    }
}

/// The generation a re-mint of a slot whose last generation was `g` gets:
/// the next one, skipping zero.
pub open spec fn next_generation(g: u16) -> u16 {
    if g == 0xFFFF { 1 } else { (g + 1) as u16 }
}

/// What looking `cap` up answers.
pub open spec fn spec_lookup(s: Seq<IrqEntry>, cap: CapId) -> Result<u32, LookupError> {
    match class_of(cap.spec_index()) {
        CapClass::Irq(local) => if (local as int) < s.len() && s[local as int].0 && s[local as int].1
            == cap.spec_generation() {
            Ok(s[local as int].2)
        } else {
            Err(LookupError::BadCap)
        },
        _ => Err(LookupError::BadCap),
    }
}

/// Pure table: mint cookie → CapId, lookup CapId → cookie.
#[derive(Clone, Debug)]
pub struct Table {
    live: Vec<bool>,
    generations: Vec<u16>,
    cookies: Vec<u32>,
}

impl Table {
    pub closed spec fn view(&self) -> Seq<IrqEntry> {
        Seq::new(MAX_IRQ_CAPS as nat, |i: int| (self.live@[i], self.generations@[i], self.cookies@[i]))
    }

    pub closed spec fn wf(&self) -> bool {
        &&& self.live@.len() == MAX_IRQ_CAPS
        &&& self.generations@.len() == MAX_IRQ_CAPS
        &&& self.cookies@.len() == MAX_IRQ_CAPS
    }

    /// Empty table: nothing live, every generation zero.
    pub fn new() -> (t: Table)
        ensures
            t.wf(),
            t@ == Seq::new(MAX_IRQ_CAPS as nat, |i: int| (false, 0u16, 0u32)),
    {
        let mut live: Vec<bool> = Vec::new();
        let mut generations: Vec<u16> = Vec::new();
        let mut cookies: Vec<u32> = Vec::new();
        let mut i: usize = 0;
        while i < MAX_IRQ_CAPS
            invariant
                i <= MAX_IRQ_CAPS,
                live@.len() == i,
                generations@.len() == i,
                cookies@.len() == i,
                forall|j: int| 0 <= j < i ==> !live@[j] && generations@[j] == 0 && cookies@[j] == 0,
            decreases MAX_IRQ_CAPS - i,
        {
            live.push(false);
            generations.push(0);
            cookies.push(0);
            i = i + 1;
        }
        let t = Table { live, generations, cookies };
        assert(t@ =~= Seq::new(MAX_IRQ_CAPS as nat, |i: int| (false, 0u16, 0u32)));
        t
    }

    /// Mint a notification for `cookie` in the first dead slot, in that
    /// slot's next generation. The returned capability resolves to `cookie`.
    pub fn mint(&mut self, cookie: u32) -> (r: Result<CapId, MintError>)
        requires
            old(self).wf(),
        ensures
            final(self).wf(),
            ({
                let s = old(self)@;
                let k = first_dead(s, 0);
                if k < s.len() {
                    let g = next_generation(s[k].1);
                    &&& r matches Ok(cap) && cap.spec_index() == INDEX_BASE + k && cap.spec_generation() == g
                    &&& final(self)@ == s.update(k, (true, g, cookie))
                    &&& spec_lookup(final(self)@, r->Ok_0) == Ok::<u32, LookupError>(cookie)
                } else {
                    r == Err::<CapId, MintError>(MintError::Full) && final(self)@ == s
                }
            }),
    {
        let ghost s = self@;
        proof {
            lemma_first_dead(s, 0);
        }
        let mut i: usize = 0;
        while i < MAX_IRQ_CAPS
            invariant
                self.wf(),
                self@ == s,
                s == old(self)@,
                i <= MAX_IRQ_CAPS,
                first_dead(s, 0) == first_dead(s, i as int),
            decreases MAX_IRQ_CAPS - i,
        {
            if !self.live[i] {
                assert(first_dead(s, i as int) == i);
                let generation: u16 = if self.generations[i] == 0xFFFF { 1 } else { self.generations[i] + 1 };
                self.live.set(i, true);
                self.generations.set(i, generation);
                self.cookies.set(i, cookie);
                assert(self@ =~= s.update(i as int, (true, generation, cookie)));
                let cap = CapId::new(INDEX_BASE + i as u16, generation);
                return Ok(cap);
            }
            i = i + 1;
        }
        Err(MintError::Full)
    }

    /// Resolve a capability to its cookie when it is in the IRQ band, names a
    /// live slot, and carries that slot's current generation.
    pub fn lookup(&self, cap: CapId) -> (r: Result<u32, LookupError>)
        requires
            self.wf(),
        ensures
            r == spec_lookup(self@, cap),
    {
        let local: usize = match cap.classify() {
            CapClass::Irq(local) => local as usize,
            _ => return Err(LookupError::BadCap),
        };
        if local >= MAX_IRQ_CAPS {
            return Err(LookupError::BadCap);
        }
        if !self.live[local] || self.generations[local] != cap.generation() {
            return Err(LookupError::BadCap);
        }
        Ok(self.cookies[local])
    }
}

/// A capability outside the IRQ band never resolves, whatever the table
/// holds — an endpoint-shaped id with the same local index and generation
/// included.
pub proof fn lemma_only_irq_band_resolves(s: Seq<IrqEntry>, cap: CapId)
    requires
        !(class_of(cap.spec_index()) is Irq),
    ensures
        spec_lookup(s, cap) == Err::<u32, LookupError>(LookupError::BadCap),
{
}

impl Default for Table {
    fn default() -> (r: Self)
        ensures
            r.wf(),
            r@ == Seq::new(MAX_IRQ_CAPS as nat, |i: int| (false, 0u16, 0u32)),
    {
        Self::new()
    }
}


} // verus!
