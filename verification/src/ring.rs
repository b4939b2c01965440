//! Single-producer / single-consumer byte ring.
//!
//! Capacity is `N - 1` usable bytes (`N` must be a power of two ≥ 2). One slot
//! is left empty so full and empty are distinguishable without a third flag.
//!
//! The producer owns `head` and the consumer owns `tail`: `push` writes the
//! slot at `head` and then advances it, `pop` reads the slot at `tail` and
//! then advances it. Here the two sides take `&mut self`; sharing one ring
//! between an interrupt handler and the main loop is the caller's concern.
use vstd::prelude::*;

verus! {

/// Fixed-capacity SPSC byte queue.
pub struct ByteRing<const N: usize> {
    buf: [u8; N],
    /// Next slot to write. Mutated only by the producer.
    head: usize,
    /// Next slot to read. Mutated only by the consumer.
    tail: usize,
}

impl<const N: usize> View for ByteRing<N> {
    type V = Seq<u8>;

    /// The bytes queued, oldest first.
    closed spec fn view(&self) -> Seq<u8> {
        let count = if self.head >= self.tail { self.head - self.tail } else { self.head + N - self.tail };
        Seq::new(count as nat, |i: int| self.buf@[(self.tail + i) % (N as int)])
    }
}

impl<const N: usize> ByteRing<N> {
    /// Both cursors lie inside a ring of a power-of-two size of at least 2.
    pub closed spec fn wf(&self) -> bool {
        &&& N >= 2
        &&& self.head < N
        &&& self.tail < N
        &&& self.buf@.len() == N
    }

    /// Empty ring. `N` must be a power of two and at least 2.
    pub fn new() -> (r: Self)
        requires
            N >= 2,
            N & ((N - 1) as usize) == 0,
        ensures
            r.wf(),
            r@ == Seq::<u8>::empty(),
    {
        let r = Self { buf: [0; N], head: 0, tail: 0 };
        assert(r@ =~= Seq::<u8>::empty());
        r
    }

    /// Push one byte. Returns `false` if the ring is full (byte not stored):
    /// it holds at most `N - 1` bytes.
    ///
    /// Only one producer may call this.
    pub fn push(&mut self, byte: u8) -> (r: bool)
        requires
            old(self).wf(),
        ensures
            final(self).wf(),
            r == (old(self)@.len() < N - 1),
            r ==> final(self)@ == old(self)@.push(byte),
            !r ==> final(self)@ == old(self)@,
    {
        let head = self.head;
        let next = if head + 1 == N { 0 } else { head + 1 };
        if next == self.tail {
            return false;
        }
        let ghost before = self@;
        self.buf[head] = byte;
        self.head = next;
        proof {
            let n = N as int;
            assert forall|i: int| 0 <= i < before.len() implies #[trigger] self@[i] == before[i] by {
                assert((self.tail + i) % n != head as int) by (nonlinear_arith)
                    requires
                        0 <= i < before.len(),
                        before.len() == (if head >= self.tail { head - self.tail } else { head + n - self.tail }),
                        0 <= self.tail < n,
                        0 <= head < n;
            }
            assert(self@[before.len() as int] == byte) by {
                assert((self.tail + before.len()) % n == head as int) by (nonlinear_arith)
                    requires
                        before.len() == (if head >= self.tail { head - self.tail } else { head + n - self.tail }),
                        0 <= self.tail < n,
                        0 <= head < n;
            }
            assert(self@ =~= before.push(byte));
        }
        true
    }

    /// Pop one byte, or `None` if empty.
    ///
    /// Only one consumer may call this.
    pub fn pop(&mut self) -> (r: Option<u8>)
        requires
            old(self).wf(),
        ensures
            final(self).wf(),
            old(self)@.len() == 0 ==> r is None && final(self)@ == old(self)@,
            old(self)@.len() > 0 ==> r == Some(old(self)@[0]) && final(self)@ == old(self)@.drop_first(),
    {
        let tail = self.tail;
        if tail == self.head {
            return None;
        }
        let ghost before = self@;
        let byte = self.buf[tail];
        self.tail = if tail + 1 == N { 0 } else { tail + 1 };
        proof {
            let n = N as int;
            assert(before[0] == byte) by {
                assert((tail + 0) % n == tail as int) by (nonlinear_arith)
                    requires 0 <= tail < n;
            }
            assert forall|i: int| 0 <= i < before.len() - 1 implies #[trigger] self@[i] == before[i + 1] by {
                assert((self.tail + i) % n == (tail + (i + 1)) % n) by (nonlinear_arith)
                    requires
                        self.tail == (if tail + 1 == n { 0 } else { tail + 1 }),
                        0 <= tail < n,
                        0 <= i;
            }
            assert(self@ =~= before.drop_first());
        }
        Some(byte)
    }

    /// `true` when there are no bytes to pop.
    pub fn is_empty(&self) -> (r: bool)
        requires
            self.wf(),
        ensures
            r == (self@.len() == 0),
    {
        self.tail == self.head
    }

    /// Bytes currently stored (not capacity).
    pub fn len(&self) -> (r: usize)
        requires
            self.wf(),
        ensures
            r == self@.len(),
    {
        if self.head >= self.tail { self.head - self.tail } else { N - self.tail + self.head }
    }
}

} // verus!
