//! IRQ dispatch table: which handler owns a line, and when that stops changing.
//!
//! Mutable during bring-up, frozen by [`Table::seal`] afterwards, so after
//! sealing there is no writer left to race with the IRQ path's read.
//!
//! Generic over the handler type so the crate stays free of kernel types.
use vstd::prelude::*;

verus! {

/// Why a registration was refused.
#[derive(Clone, Copy, Debug, PartialEq, Eq, Structural)]
pub enum RegisterError {
    /// The id is beyond the table.
    OutOfRange { irq: u32, slots: usize },
    /// Bring-up is over and the table is immutable.
    Sealed { irq: u32 },
}

/// What the table says about an interrupt that was just claimed.
#[derive(Clone, Copy, Debug, PartialEq, Eq)]
pub enum Dispatch<T> {
    /// Call this handler with this cookie.
    Handle { handler: T, cookie: u32 },
    /// In range, no handler registered.
    Unhandled,
    /// Beyond the table.
    OutOfRange,
}

/// What `lookup` answers for `irq` on slots `s`.
pub open spec fn dispatch_of<T>(s: Seq<Option<(T, u32)>>, irq: u32) -> Dispatch<T> {
    if irq >= s.len() {
        Dispatch::OutOfRange
    } else {
        match s[irq as int] {
            Some(p) => Dispatch::Handle { handler: p.0, cookie: p.1 },
            None => Dispatch::Unhandled,
        }
    }
}

/// How many of the first `n` slots hold a handler.
pub open spec fn handled_upto<T>(s: Seq<Option<(T, u32)>>, n: int) -> nat
    decreases n,
{
    if n <= 0 {
        0
    } else {
        handled_upto(s, n - 1) + if s[n - 1] is Some { 1nat } else { 0nat }
    }
}

proof fn lemma_handled_upto_bound<T>(s: Seq<Option<(T, u32)>>, n: int)
    requires
        0 <= n,
    ensures
        handled_upto(s, n) <= n,
    decreases n,
{
    if n > 0 {
        lemma_handled_upto_bound(s, n - 1);
    }
}

/// Fixed-size dispatch table with a one-way seal.
pub struct Table<T, const SLOTS: usize> {
    slots: Vec<Option<(T, u32)>>,
    sealed: bool,
}

impl<T: Copy, const SLOTS: usize> Table<T, SLOTS> {
    /// The handler (and cookie) registered on each line.
    pub closed spec fn lines(&self) -> Seq<Option<(T, u32)>> {
        self.slots@
    }

    /// Whether the table is frozen.
    pub closed spec fn spec_sealed(&self) -> bool {
        self.sealed
    }

    pub closed spec fn wf(&self) -> bool {
        self.slots@.len() == SLOTS
    }

    /// Empty and unsealed.
    pub fn new() -> (t: Self)
        ensures
            t.wf(),
            !t.spec_sealed(),
            t.lines() == Seq::new(SLOTS as nat, |i: int| None::<(T, u32)>),
    {
        let mut slots: Vec<Option<(T, u32)>> = Vec::new();
        let mut i: usize = 0;
        while i < SLOTS
            invariant
                i <= SLOTS,
                slots@ == Seq::new(i as nat, |j: int| None::<(T, u32)>),
            decreases SLOTS - i,
        {
            slots.push(None);
            i = i + 1;
        }
        Table { slots, sealed: false }
    }

    /// Freeze the table. One-way: there is no unseal.
    pub fn seal(&mut self)
        ensures
            final(self).spec_sealed(),
            final(self).lines() == old(self).lines(),
            final(self).wf() == old(self).wf(),
    {
        self.sealed = true;
    }

    /// Whether the table is frozen.
    pub fn is_sealed(&self) -> (r: bool)
        ensures
            r == self.spec_sealed(),
    {
        self.sealed
    }

    /// Claim `irq` for `handler`, replacing any previous handler. A sealed
    /// table refuses every registration alike, whatever the id.
    pub fn register(&mut self, irq: u32, handler: T, cookie: u32) -> (r: Result<(), RegisterError>)
        requires
            old(self).wf(),
        ensures
            final(self).wf(),
            final(self).spec_sealed() == old(self).spec_sealed(),
            old(self).spec_sealed() ==> r == Err::<(), RegisterError>(RegisterError::Sealed { irq })
                && final(self).lines() == old(self).lines(),
            !old(self).spec_sealed() && irq >= SLOTS ==> r == Err::<(), RegisterError>(
                RegisterError::OutOfRange { irq, slots: SLOTS },
            ) && final(self).lines() == old(self).lines(),
            !old(self).spec_sealed() && irq < SLOTS ==> r == Ok::<(), RegisterError>(())
                && final(self).lines() == old(self).lines().update(irq as int, Some((handler, cookie))),
    {
        if self.sealed {
            return Err(RegisterError::Sealed { irq });
        }
        if irq as usize >= SLOTS {
            return Err(RegisterError::OutOfRange { irq, slots: SLOTS });
        }
        self.slots.set(irq as usize, Some((handler, cookie)));
        Ok(())
    }

    /// What to do with a claimed interrupt.
    pub fn lookup(&self, irq: u32) -> (r: Dispatch<T>)
        requires
            self.wf(),
        ensures
            r == dispatch_of(self.lines(), irq),
    {
        if irq as usize >= self.slots.len() {
            return Dispatch::OutOfRange;
        }
        match self.slots[irq as usize] {
            Some(p) => Dispatch::Handle { handler: p.0, cookie: p.1 },
            None => Dispatch::Unhandled,
        }
    }

    /// How many lines have a handler.
    pub fn registered(&self) -> (r: usize)
        requires
            self.wf(),
        ensures
            r == handled_upto(self.lines(), SLOTS as int),
    {
        let mut n: usize = 0;
        let mut i: usize = 0;
        while i < self.slots.len()
            invariant
                self.wf(),
                i <= SLOTS,
                n == handled_upto(self.lines(), i as int),
            decreases SLOTS - i,
        {
            proof {
                lemma_handled_upto_bound(self.lines(), i as int);
            }
            if self.slots[i].is_some() {
                n = n + 1;
            }
            i = i + 1;
        }
        n
    }
}

/// A registered handler comes back with its cookie, and no other line moves.
pub proof fn lemma_register_then_lookup<T>(s: Seq<Option<(T, u32)>>, irq: u32, handler: T, cookie: u32, other: u32)
    requires
        irq < s.len(),
        other != irq,
    ensures
        dispatch_of(s.update(irq as int, Some((handler, cookie))), irq) == (Dispatch::Handle { handler, cookie }),
        dispatch_of(s.update(irq as int, Some((handler, cookie))), other) == dispatch_of(s, other),
{
}

impl<T: Copy, const SLOTS: usize> Default for Table<T, SLOTS> {
    fn default() -> (r: Self)
        ensures
            r.wf(),
            !r.spec_sealed(),
            r.lines() == Seq::new(SLOTS as nat, |i: int| None::<(T, u32)>),
    {
        Self::new()
    }
}


} // verus!
