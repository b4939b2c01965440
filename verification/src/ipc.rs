//! Mailboxes and capability lookup: the decision half of IPC.
//!
//! Which endpoint a capability names, whether it still names it, whether the
//! holder has the right, and where a message goes. [`Table::send`] returns the
//! task to wake instead of waking it; the kernel supplies the global, the
//! interrupt mask and the calls into the scheduler.
//!
//! A [`CapId`] carries a generation so a recycled slot cannot be mistaken for a
//! live one; every lookup checks it.
use vstd::prelude::*;
use crate::cap::{CapId, CapRights};
use crate::runqueue::{TaskId, ring_index};

verus! {

/// Fixed message: small enough to copy, no heap.
#[derive(Clone, Copy, Debug, PartialEq, Eq, Structural)]
pub struct Message {
    pub tag: u32,
    pub a: u64,
    pub b: u64,
}

/// Pair of capabilities for one mailbox.
#[derive(Clone, Copy, Debug, PartialEq, Eq, Structural)]
pub struct Channel {
    pub send: CapId,
    pub recv: CapId,
}

/// Why a channel could not be created.
#[derive(Clone, Copy, Debug, PartialEq, Eq, Structural)]
pub enum CreateError {
    NoMailbox,
    NoEndpoint,
}

/// Why send failed.
#[derive(Clone, Copy, Debug, PartialEq, Eq, Structural)]
pub enum SendError {
    BadCap,
    Full,
}

/// Why recv failed.
#[derive(Clone, Copy, Debug, PartialEq, Eq, Structural)]
pub enum RecvError {
    /// Another task is already blocked on this mailbox (one waiter slot).
    Busy,
    BadCap,
    Empty,
    /// The wait was cancelled: an ephemeral channel with no sender left.
    Cancelled,
}

/// Why a depth observation failed. Never counted as a refusal.
#[derive(Clone, Copy, Debug, PartialEq, Eq, Structural)]
pub enum QueuedError {
    BadCap,
}

/// Refusal counts, kept apart by what they mean.
#[derive(Clone, Copy, Debug, PartialEq, Eq, Structural)]
pub struct Refusals {
    /// The caller had no right.
    pub authority: u32,
    /// A send met a full mailbox: flow control, not a violation.
    pub full: u32,
    /// Kernel bookkeeping asked for something impossible.
    pub state: u32,
}

impl Default for Refusals {
    fn default() -> (r: Refusals)
        ensures
            r == (Refusals { authority: 0, full: 0, state: 0 }),
    {
        Refusals { authority: 0, full: 0, state: 0 }
    }
}

/// The rights bit a send needs.
pub open spec fn send_bit() -> u8 {
    1
}

/// The rights bit a receive needs.
pub open spec fn recv_bit() -> u8 {
    2
}

/// One endpoint slot, as the model sees it.
pub struct EndpointState {
    pub live: bool,
    pub generation: u16,
    pub rights: u8,
    pub mailbox: usize,
}

/// One mailbox, as the model sees it: its queue oldest first.
pub struct MailboxState {
    pub live: bool,
    pub queue: Seq<Message>,
    pub waiter: Option<TaskId>,
    pub send_holders: u32,
    pub auto_reap: bool,
}

/// The whole table, as the model sees it.
pub struct IpcState {
    pub endpoints: Seq<EndpointState>,
    pub mailboxes: Seq<MailboxState>,
    pub next_gen: u16,
    pub refusals: Refusals,
}

/// The mailbox `cap` names when it is asked for the rights in `need`: the
/// endpoint exists, is live, is of the same generation, and holds every bit.
pub open spec fn resolve(eps: Seq<EndpointState>, cap: CapId, need: u8) -> Option<usize> {
    let i = cap.spec_index() as int;
    if i < eps.len() && eps[i].live && eps[i].generation == cap.spec_generation() && eps[i].rights
        & need == need {
        Some(eps[i].mailbox)
    } else {
        None
    }
}

/// What the table keeps true: a live endpoint names a live mailbox, carries a
/// non-zero generation and exactly one of the send or receive rights; the
/// next generation handed out is never zero.
pub open spec fn state_ok(s: IpcState) -> bool {
    &&& s.next_gen != 0
    &&& forall|i: int|
        0 <= i < s.endpoints.len() && #[trigger] s.endpoints[i].live ==> {
            &&& s.endpoints[i].mailbox < s.mailboxes.len()
            &&& s.mailboxes[s.endpoints[i].mailbox as int].live
            &&& s.endpoints[i].generation != 0
            &&& (s.endpoints[i].rights == send_bit() || s.endpoints[i].rights == recv_bit())
        }
}

/// Room in every refusal counter for one more count.
pub open spec fn refusal_room(r: Refusals) -> bool {
    r.authority < u32::MAX && r.full < u32::MAX && r.state < u32::MAX
}

/// The generation after `g`: wraps to 1, never to 0.
pub open spec fn next_generation(g: u16) -> u16 {
    if g == u16::MAX { 1 } else { (g + 1) as u16 }
}

pub open spec fn bump_authority(s: IpcState) -> IpcState {
    IpcState { refusals: Refusals { authority: (s.refusals.authority + 1) as u32, ..s.refusals }, ..s }
}

pub open spec fn bump_full(s: IpcState) -> IpcState {
    IpcState { refusals: Refusals { full: (s.refusals.full + 1) as u32, ..s.refusals }, ..s }
}

pub open spec fn bump_state(s: IpcState) -> IpcState {
    IpcState { refusals: Refusals { state: (s.refusals.state + 1) as u32, ..s.refusals }, ..s }
}

pub open spec fn with_mailboxes(s: IpcState, ms: Seq<MailboxState>) -> IpcState {
    IpcState { mailboxes: ms, ..s }
}

pub open spec fn with_refusals(s: IpcState, r: Refusals) -> IpcState {
    IpcState { refusals: r, ..s }
}

/// `n`, or `u32::MAX` where it does not fit.
pub open spec fn saturated(n: nat) -> nat {
    if n <= u32::MAX { n } else { u32::MAX as nat }
}

pub open spec fn with_mailbox(s: IpcState, mb: int, m: MailboxState) -> IpcState {
    IpcState { mailboxes: s.mailboxes.update(mb, m), ..s }
}

/// A send of `msg` on `cap`, over mailboxes of `depth` messages.
pub open spec fn send_spec(s: IpcState, depth: nat, cap: CapId, msg: Message) -> (IpcState, Result<Option<TaskId>, SendError>) {
    match resolve(s.endpoints, cap, send_bit()) {
        None => (bump_authority(s), Err(SendError::BadCap)),
        Some(mb) => {
            let m = s.mailboxes[mb as int];
            if !m.live {
                (bump_state(s), Err(SendError::BadCap))
            } else if m.queue.len() == depth {
                (bump_full(s), Err(SendError::Full))
            } else {
                (
                    with_mailbox(s, mb as int, MailboxState { queue: m.queue.push(msg), waiter: None, ..m }),
                    Ok(m.waiter),
                )
            }
        },
    }
}

/// A non-blocking receive on `cap`.
pub open spec fn try_recv_spec(s: IpcState, cap: CapId) -> (IpcState, Result<Message, RecvError>) {
    match resolve(s.endpoints, cap, recv_bit()) {
        None => (bump_authority(s), Err(RecvError::BadCap)),
        Some(mb) => {
            let m = s.mailboxes[mb as int];
            if !m.live {
                (bump_state(s), Err(RecvError::BadCap))
            } else if m.queue.len() == 0 {
                (s, Err(RecvError::Empty))
            } else {
                (with_mailbox(s, mb as int, MailboxState { queue: m.queue.drop_first(), ..m }), Ok(m.queue[0]))
            }
        },
    }
}

/// A park of `me` on `cap`: take a message that arrived first, else claim
/// the waiter slot.
pub open spec fn park_spec(s: IpcState, cap: CapId, me: TaskId) -> (IpcState, Result<Option<Message>, RecvError>) {
    match resolve(s.endpoints, cap, recv_bit()) {
        None => (bump_authority(s), Err(RecvError::BadCap)),
        Some(mb) => {
            let m = s.mailboxes[mb as int];
            if !m.live {
                (bump_state(s), Err(RecvError::BadCap))
            } else if m.queue.len() > 0 {
                (
                    with_mailbox(s, mb as int, MailboxState { queue: m.queue.drop_first(), ..m }),
                    Ok(Some(m.queue[0])),
                )
            } else if m.auto_reap && m.send_holders == 0 {
                (s, Err(RecvError::Cancelled))
            } else if m.waiter is Some && m.waiter->0 != me {
                (bump_state(s), Err(RecvError::Busy))
            } else {
                (with_mailbox(s, mb as int, MailboxState { waiter: Some(me), ..m }), Ok(None))
            }
        },
    }
}

/// The mailbox a depth observation reads: `cap` with the send right, else
/// with the receive right.
pub open spec fn queued_target(s: IpcState, cap: CapId) -> Option<usize> {
    match resolve(s.endpoints, cap, send_bit()) {
        Some(mb) => Some(mb),
        None => resolve(s.endpoints, cap, recv_bit()),
    }
}

/// The table after the send holds named by the first `n` of `caps` are
/// registered.
pub open spec fn holds_after(s: IpcState, caps: Seq<Option<CapId>>, n: int) -> IpcState
    decreases n,
{
    if n <= 0 {
        s
    } else {
        let p = holds_after(s, caps, n - 1);
        match caps[n - 1] {
            Some(c) => match resolve(p.endpoints, c, send_bit()) {
                Some(mb) => {
                    let m = p.mailboxes[mb as int];
                    let h: u32 = if m.send_holders == u32::MAX { u32::MAX } else { (m.send_holders + 1) as u32 };
                    with_mailbox(p, mb as int, MailboxState { send_holders: h, ..m })
                },
                None => p,
            },
            None => p,
        }
    }
}

/// The table after the send holds named by the first `n` of `caps` are
/// released, and the waiters cancelled on the way, in order.
pub open spec fn release_after(s: IpcState, caps: Seq<Option<CapId>>, n: int) -> (IpcState, Seq<TaskId>)
    decreases n,
{
    if n <= 0 {
        (s, Seq::empty())
    } else {
        let (p, out) = release_after(s, caps, n - 1);
        match caps[n - 1] {
            Some(c) => match resolve(p.endpoints, c, send_bit()) {
                Some(mb) => {
                    let m = p.mailboxes[mb as int];
                    let h: u32 = if m.send_holders > 0 { (m.send_holders - 1) as u32 } else { 0 };
                    if h == 0 && m.auto_reap && m.waiter is Some {
                        (
                            with_mailbox(p, mb as int, MailboxState { send_holders: h, waiter: None, ..m }),
                            out.push(m.waiter->0),
                        )
                    } else {
                        (with_mailbox(p, mb as int, MailboxState { send_holders: h, ..m }), out)
                    }
                },
                None => (p, out),
            },
            None => (p, out),
        }
    }
}

/// Mailboxes after every waiter slot holding `id` is cleared.
pub open spec fn cleared_of(ms: Seq<MailboxState>, id: TaskId) -> Seq<MailboxState> {
    Seq::new(
        ms.len(),
        |i: int| if ms[i].waiter == Some(id) { MailboxState { waiter: None, ..ms[i] } } else { ms[i] },
    )
}

/// How many of the first `n` mailboxes have `id` as their waiter.
pub open spec fn waiting_upto(ms: Seq<MailboxState>, id: TaskId, n: int) -> nat
    decreases n,
{
    if n <= 0 {
        0
    } else {
        waiting_upto(ms, id, n - 1) + if ms[n - 1].waiter == Some(id) { 1nat } else { 0nat }
    }
}

/// First index at or after `from` whose element satisfies `p`.
pub open spec fn first_from<A>(s: Seq<A>, p: spec_fn(A) -> bool, from: int) -> int
    decreases s.len() - from,
{
    if from < 0 || from >= s.len() {
        s.len() as int
    } else if p(s[from]) {
        from
    } else {
        first_from(s, p, from + 1)
    }
}

proof fn lemma_first_from<A>(s: Seq<A>, p: spec_fn(A) -> bool, from: int)
    requires
        0 <= from <= s.len(),
    ensures
        from <= first_from(s, p, from) <= s.len(),
        first_from(s, p, from) < s.len() ==> p(s[first_from(s, p, from)]),
        forall|j: int| from <= j < first_from(s, p, from) ==> !p(#[trigger] s[j]),
    decreases s.len() - from,
{
    if from < s.len() && !p(s[from]) {
        lemma_first_from(s, p, from + 1);
    }
}

pub open spec fn free_endpoint() -> spec_fn(EndpointState) -> bool {
    |e: EndpointState| !e.live
}

pub open spec fn free_mailbox() -> spec_fn(MailboxState) -> bool {
    |m: MailboxState| !m.live
}

#[derive(Clone, Copy)]
struct Endpoint {
    live: bool,
    generation: u16,
    rights: CapRights,
    mailbox: usize,
}

struct Mailbox {
    live: bool,
    buf: Vec<Message>,
    head: usize,
    len: usize,
    waiter: Option<TaskId>,
    send_holders: u32,
    auto_reap: bool,
}

spec fn endpoint_state(e: Endpoint) -> EndpointState {
    EndpointState { live: e.live, generation: e.generation, rights: e.rights.bits(), mailbox: e.mailbox }
}

spec fn mailbox_state(m: Mailbox, depth: int) -> MailboxState {
    MailboxState {
        live: m.live,
        queue: Seq::new(m.len as nat, |i: int| m.buf@[ring_index(m.head as int, i, depth)]),
        waiter: m.waiter,
        send_holders: m.send_holders,
        auto_reap: m.auto_reap,
    }
}

spec fn mailbox_wf(m: Mailbox, depth: int) -> bool {
    &&& m.buf@.len() == depth
    &&& m.len <= depth
    &&& (depth == 0 ==> m.head == 0)
    &&& (depth > 0 ==> m.head < depth)
}

fn idle_mailbox() -> (m: Mailbox)
    ensures
        !m.live,
        m.buf@.len() == 0,
        m.head == 0,
        m.len == 0,
        m.waiter is None,
        m.send_holders == 0,
        !m.auto_reap,
{
    Mailbox {
        live: false,
        buf: Vec::new(),
        head: 0,
        len: 0,
        waiter: None,
        send_holders: 0,
        auto_reap: false,
    }
}

impl Mailbox {
    fn push(&mut self, depth: usize, msg: Message)
        requires
            mailbox_wf(*old(self), depth as int),
            old(self).len < depth,
        ensures
            mailbox_wf(*final(self), depth as int),
            mailbox_state(*final(self), depth as int) == (MailboxState {
                queue: mailbox_state(*old(self), depth as int).queue.push(msg),
                ..mailbox_state(*old(self), depth as int)
            }),
    {
        let ghost before = mailbox_state(*self, depth as int);
        let at: usize = if self.head < depth - self.len {
            self.head + self.len
        } else {
            self.head - (depth - self.len)
        };
        self.buf.set(at, msg);
        self.len = self.len + 1;
        assert(mailbox_state(*self, depth as int).queue =~= before.queue.push(msg));
    }

    fn pop(&mut self, depth: usize) -> (msg: Message)
        requires
            mailbox_wf(*old(self), depth as int),
            old(self).len > 0,
        ensures
            mailbox_wf(*final(self), depth as int),
            msg == mailbox_state(*old(self), depth as int).queue[0],
            mailbox_state(*final(self), depth as int) == (MailboxState {
                queue: mailbox_state(*old(self), depth as int).queue.drop_first(),
                ..mailbox_state(*old(self), depth as int)
            }),
    {
        let ghost before = mailbox_state(*self, depth as int);
        let msg = self.buf[self.head];
        self.head = if self.head + 1 == depth { 0 } else { self.head + 1 };
        self.len = self.len - 1;
        assert(mailbox_state(*self, depth as int).queue =~= before.queue.drop_first());
        msg
    }
}

/// Endpoints, mailboxes and the refusal counts, with no globals and no
/// locking.
pub struct Table<const MAILBOXES: usize, const ENDPOINTS: usize, const DEPTH: usize> {
    endpoints: Vec<Endpoint>,
    mailboxes: Vec<Mailbox>,
    next_gen: u16,
    refusals: Refusals,
}

impl<const MAILBOXES: usize, const ENDPOINTS: usize, const DEPTH: usize> Table<MAILBOXES, ENDPOINTS, DEPTH> {
    /// The table's model.
    pub closed spec fn view(&self) -> IpcState {
        IpcState {
            endpoints: Seq::new(self.endpoints@.len(), |i: int| endpoint_state(self.endpoints@[i])),
            mailboxes: Seq::new(self.mailboxes@.len(), |i: int| mailbox_state(self.mailboxes@[i], DEPTH as int)),
            next_gen: self.next_gen,
            refusals: self.refusals,
        }
    }

    pub closed spec fn wf(&self) -> bool {
        &&& self.endpoints@.len() == ENDPOINTS
        &&& self.mailboxes@.len() == MAILBOXES
        &&& forall|i: int| 0 <= i < MAILBOXES ==> mailbox_wf(#[trigger] self.mailboxes@[i], DEPTH as int)
        &&& state_ok(self.view())
    }

    /// What a well-formed table keeps true of its model.
    pub proof fn lemma_wf_state(&self)
        requires
            self.wf(),
        ensures
            state_ok(self.view()),
            self.view().endpoints.len() == ENDPOINTS,
            self.view().mailboxes.len() == MAILBOXES,
            forall|i: int| 0 <= i < MAILBOXES ==> (#[trigger] self.view().mailboxes[i]).queue.len() <= DEPTH,
    {
        assert forall|i: int| 0 <= i < MAILBOXES implies (#[trigger] self.view().mailboxes[i]).queue.len() <= DEPTH by {
            assert(mailbox_wf(self.mailboxes@[i], DEPTH as int));
        }
    }

    /// Empty table. Generations start at 1, so zero is never a live
    /// generation.
    pub fn new() -> (t: Self)
        ensures
            t.wf(),
            t.view().next_gen == 1,
            t.view().refusals == (Refusals { authority: 0, full: 0, state: 0 }),
            forall|i: int| 0 <= i < ENDPOINTS ==> !(#[trigger] t.view().endpoints[i]).live,
            forall|i: int| 0 <= i < MAILBOXES ==> !(#[trigger] t.view().mailboxes[i]).live,
    {
        let mut endpoints: Vec<Endpoint> = Vec::new();
        let mut i: usize = 0;
        while i < ENDPOINTS
            invariant
                i <= ENDPOINTS,
                endpoints@.len() == i,
                forall|j: int| 0 <= j < i ==> !(#[trigger] endpoints@[j]).live,
            decreases ENDPOINTS - i,
        {
            endpoints.push(Endpoint { live: false, generation: 0, rights: CapRights::empty(), mailbox: 0 });
            i = i + 1;
        }
        let mut mailboxes: Vec<Mailbox> = Vec::new();
        let mut k: usize = 0;
        while k < MAILBOXES
            invariant
                k <= MAILBOXES,
                mailboxes@.len() == k,
                forall|j: int| 0 <= j < k ==> !(#[trigger] mailboxes@[j]).live,
                forall|j: int| 0 <= j < k ==> mailbox_wf(#[trigger] mailboxes@[j], DEPTH as int),
            decreases MAILBOXES - k,
        {
            let mut buf: Vec<Message> = Vec::new();
            let mut d: usize = 0;
            while d < DEPTH
                invariant
                    d <= DEPTH,
                    buf@.len() == d,
                decreases DEPTH - d,
            {
                buf.push(Message { tag: 0, a: 0, b: 0 });
                d = d + 1;
            }
            mailboxes.push(Mailbox {
                live: false,
                buf,
                head: 0,
                len: 0,
                waiter: None,
                send_holders: 0,
                auto_reap: false,
            });
            k = k + 1;
        }
        let t = Table { endpoints, mailboxes, next_gen: 1, refusals: Refusals { authority: 0, full: 0, state: 0 } };
        assert(forall|j: int| 0 <= j < ENDPOINTS ==> !(#[trigger] t.view().endpoints[j]).live);
        t
    }

    /// Refusals so far, by reason.
    pub fn refusals(&self) -> (r: Refusals)
        ensures
            r == self.view().refusals,
    {
        self.refusals
    }

    /// Record an authority refusal the table could not detect itself (the
    /// kernel's check that the caller was given the capability at all).
    pub fn note_authority_refusal(&mut self)
        requires
            old(self).wf(),
            old(self).view().refusals.authority < u32::MAX,
        ensures
            final(self).wf(),
            final(self).view() == bump_authority(old(self).view()),
    {
        self.refusals.authority = self.refusals.authority + 1;
    }

    /// Count a refusal that means kernel bookkeeping asked for something
    /// impossible, detected outside this module.
    pub fn note_state_refusal(&mut self)
        requires
            old(self).wf(),
            old(self).view().refusals.state < u32::MAX,
        ensures
            final(self).wf(),
            final(self).view() == bump_state(old(self).view()),
    {
        self.refusals.state = self.refusals.state + 1;
    }

    /// Allocate a mailbox and mint one send and one recv capability for it;
    /// a last send hold dropping does not cancel a waiter.
    pub fn create_channel(&mut self) -> (r: Result<Channel, CreateError>)
        requires
            old(self).wf(),
        ensures
            final(self).wf(),
            created(old(self).view(), final(self).view(), false, r),
    {
        self.create_channel_with_auto_reap(false)
    }

    /// Like [`Self::create_channel`], but the last send hold dropping cancels
    /// a parked waiter.
    pub fn create_channel_ephemeral(&mut self) -> (r: Result<Channel, CreateError>)
        requires
            old(self).wf(),
        ensures
            final(self).wf(),
            created(old(self).view(), final(self).view(), true, r),
    {
        self.create_channel_with_auto_reap(true)
    }

    fn create_channel_with_auto_reap(&mut self, auto_reap: bool) -> (r: Result<Channel, CreateError>)
        requires
            old(self).wf(),
        ensures
            final(self).wf(),
            created(old(self).view(), final(self).view(), auto_reap, r),
    {
        let ghost s = self.view();
        proof {
            lemma_first_from(s.mailboxes, free_mailbox(), 0);
            lemma_first_from(s.endpoints, free_endpoint(), 0);
        }
        let mut mb: usize = 0;
        while mb < self.mailboxes.len() && self.mailboxes[mb].live
            invariant
                self.wf(),
                self.view() == s,
                mb <= MAILBOXES,
                first_from(s.mailboxes, free_mailbox(), 0) == first_from(s.mailboxes, free_mailbox(), mb as int),
            decreases MAILBOXES - mb,
        {
            mb = mb + 1;
        }
        if mb == self.mailboxes.len() {
            return Err(CreateError::NoMailbox);
        }
        assert(first_from(s.mailboxes, free_mailbox(), mb as int) == mb);
        let mut se: usize = 0;
        while se < self.endpoints.len() && self.endpoints[se].live
            invariant
                self.wf(),
                self.view() == s,
                se <= ENDPOINTS,
                first_from(s.endpoints, free_endpoint(), 0) == first_from(s.endpoints, free_endpoint(), se as int),
            decreases ENDPOINTS - se,
        {
            se = se + 1;
        }
        if se == self.endpoints.len() {
            assert(first_from(s.endpoints, free_endpoint(), se as int + 1) == ENDPOINTS);
            return Err(CreateError::NoEndpoint);
        }
        assert(first_from(s.endpoints, free_endpoint(), se as int) == se);
        proof {
            lemma_first_from(s.endpoints, free_endpoint(), se + 1);
        }
        let mut re: usize = se + 1;
        while re < self.endpoints.len() && self.endpoints[re].live
            invariant
                self.wf(),
                self.view() == s,
                se < re <= ENDPOINTS,
                first_from(s.endpoints, free_endpoint(), se + 1) == first_from(s.endpoints, free_endpoint(), re as int),
            decreases ENDPOINTS - re,
        {
            re = re + 1;
        }
        if re == self.endpoints.len() {
            return Err(CreateError::NoEndpoint);
        }
        assert(first_from(s.endpoints, free_endpoint(), re as int) == re);
        let generation = self.next_gen;
        self.next_gen = if self.next_gen == u16::MAX { 1 } else { self.next_gen + 1 };
        let mut m = idle_mailbox();
        self.mailboxes.set_and_swap(mb, &mut m);
        m.live = true;
        m.head = 0;
        m.len = 0;
        m.waiter = None;
        m.send_holders = 0;
        m.auto_reap = auto_reap;
        assert(mailbox_state(m, DEPTH as int).queue =~= Seq::<Message>::empty());
        self.mailboxes.set(mb, m);
        self.endpoints.set(se, Endpoint { live: true, generation, rights: CapRights::send(), mailbox: mb });
        self.endpoints.set(re, Endpoint { live: true, generation, rights: CapRights::recv(), mailbox: mb });
        let ch = Channel { send: CapId::new(se as u16, generation), recv: CapId::new(re as u16, generation) };
        let ghost t = self.view();
        assert(t.mailboxes =~= s.mailboxes.update(mb as int, MailboxState {
            live: true,
            queue: Seq::empty(),
            waiter: None,
            send_holders: 0,
            auto_reap,
        }));
        assert(t.endpoints =~= s.endpoints.update(se as int, EndpointState {
            live: true,
            generation,
            rights: send_bit(),
            mailbox: mb,
        }).update(re as int, EndpointState { live: true, generation, rights: recv_bit(), mailbox: mb }));
        assert forall|i: int| 0 <= i < MAILBOXES implies mailbox_wf(#[trigger] self.mailboxes@[i], DEPTH as int) by {
            if i != mb {
                assert(self.mailboxes@[i] == old(self).mailboxes@[i]);
            }
        }
        assert forall|i: int| 0 <= i < t.endpoints.len() && #[trigger] t.endpoints[i].live implies {
            &&& t.endpoints[i].mailbox < t.mailboxes.len()
            &&& t.mailboxes[t.endpoints[i].mailbox as int].live
            &&& t.endpoints[i].generation != 0
            &&& (t.endpoints[i].rights == send_bit() || t.endpoints[i].rights == recv_bit())
        } by {
            if i != se && i != re {
                assert(t.endpoints[i] == s.endpoints[i]);
                assert(s.endpoints[i].live);
            }
        }
        Ok(ch)
    }

    /// Record the send holds among `caps`, installed into one task's table.
    /// Capabilities that do not resolve with the send right are ignored.
    pub fn register_holds(&mut self, caps: &[Option<CapId>])
        requires
            old(self).wf(),
        ensures
            final(self).wf(),
            final(self).view() == holds_after(old(self).view(), caps@, caps@.len() as int),
    {
        let ghost s = self.view();
        let mut i: usize = 0;
        while i < caps.len()
            invariant
                self.wf(),
                i <= caps@.len(),
                s == old(self).view(),
                self.view() == holds_after(s, caps@, i as int),
                self.view().endpoints == s.endpoints,
            decreases caps@.len() - i,
        {
            let ghost p = self.view();
            if let Some(cap) = caps[i] {
                if let Some(mb) = self.lookup(cap, CapRights::send()) {
                    let mut m = idle_mailbox();
                    self.mailboxes.set_and_swap(mb, &mut m);
                    m.send_holders = if m.send_holders == u32::MAX { u32::MAX } else { m.send_holders + 1 };
                    self.mailboxes.set(mb, m);
                    proof {
                        self.lemma_set_mailbox(p, mb as int);
                    }
                }
            }
            i = i + 1;
        }
    }

    /// The mailbox at `mb` was replaced and nothing else changed: the model
    /// changes in that one mailbox, and the table stays well-formed while the
    /// replacement is well-formed and keeps liveness.
    proof fn lemma_set_mailbox(&self, p: IpcState, mb: int)
        requires
            0 <= mb < MAILBOXES,
            self.endpoints@.len() == ENDPOINTS,
            self.mailboxes@.len() == MAILBOXES,
            state_ok(p),
            p.endpoints == Seq::new(self.endpoints@.len(), |i: int| endpoint_state(self.endpoints@[i])),
            p.mailboxes.len() == MAILBOXES,
            forall|i: int| 0 <= i < MAILBOXES && i != mb ==> #[trigger] mailbox_state(self.mailboxes@[i], DEPTH as int) == p.mailboxes[i],
            forall|i: int| 0 <= i < MAILBOXES ==> mailbox_wf(#[trigger] self.mailboxes@[i], DEPTH as int),
            self.mailboxes@[mb].live == p.mailboxes[mb].live,
            self.next_gen == p.next_gen,
        ensures
            self.view() == with_refusals(with_mailboxes(p, p.mailboxes.update(mb, mailbox_state(self.mailboxes@[mb], DEPTH as int))), self.refusals),
            self.wf(),
    {
        assert(self.view().mailboxes =~= p.mailboxes.update(mb, mailbox_state(self.mailboxes@[mb], DEPTH as int)));
        assert(self.view().endpoints == p.endpoints);
    }

    /// Drop the send holds among `caps`, leaving one task's table. Returns, in
    /// order and padded with `None` to `N`, the waiters to cancel: those of
    /// ephemeral mailboxes whose last send hold dropped (already cleared).
    pub fn release_holds<const N: usize>(&mut self, caps: &[Option<CapId>; N]) -> (r: Vec<Option<TaskId>>)
        requires
            old(self).wf(),
        ensures
            final(self).wf(),
            final(self).view() == release_after(old(self).view(), caps@, N as int).0,
            r@.len() == N,
            ({
                let out = release_after(old(self).view(), caps@, N as int).1;
                &&& out.len() <= N
                &&& forall|i: int| 0 <= i < N ==> #[trigger] r@[i] == if i < out.len() { Some(out[i]) } else { None::<TaskId> }
            }),
    {
        let ghost s = self.view();
        let mut out: Vec<Option<TaskId>> = Vec::new();
        let mut i: usize = 0;
        while i < N
            invariant
                self.wf(),
                i <= N,
                caps@.len() == N,
                s == old(self).view(),
                self.view() == release_after(s, caps@, i as int).0,
                out@ == release_after(s, caps@, i as int).1.map_values(|t: TaskId| Some(t)),
                out@.len() <= i,
                self.view().endpoints == s.endpoints,
            decreases N - i,
        {
            let ghost p = self.view();
            let ghost before = out@;
            if let Some(cap) = caps[i] {
                if let Some(mb) = self.lookup(cap, CapRights::send()) {
                    let mut m = idle_mailbox();
                    self.mailboxes.set_and_swap(mb, &mut m);
                    if m.send_holders > 0 {
                        m.send_holders = m.send_holders - 1;
                    }
                    if m.send_holders == 0 && m.auto_reap && m.waiter.is_some() {
                        let w = m.waiter.unwrap();
                        m.waiter = None;
                        if out.len() < N {
                            out.push(Some(w));
                        }
                    }
                    self.mailboxes.set(mb, m);
                    proof {
                        self.lemma_set_mailbox(p, mb as int);
                    }
                }
            }
            assert(out@ =~= release_after(s, caps@, i + 1).1.map_values(|t: TaskId| Some(t)));
            i = i + 1;
        }
        let ghost k = out@.len();
        while out.len() < N
            invariant
                k <= out@.len() <= N,
                forall|j: int| 0 <= j < k ==> #[trigger] out@[j] == release_after(s, caps@, N as int).1.map_values(|t: TaskId| Some(t))[j],
                forall|j: int| k <= j < out@.len() ==> #[trigger] out@[j] == None::<TaskId>,
            decreases N - out@.len(),
        {
            out.push(None);
        }
        out
    }

    /// How many task tables hold the send end of the mailbox `cap` names.
    pub fn send_holders(&self, cap: CapId) -> (r: Option<u32>)
        requires
            self.wf(),
        ensures
            r == match resolve(self.view().endpoints, cap, send_bit()) {
                Some(mb) => Some(self.view().mailboxes[mb as int].send_holders),
                None => None,
            },
    {
        match self.lookup(cap, CapRights::send()) {
            Some(mb) => Some(self.mailboxes[mb].send_holders),
            None => None,
        }
    }

    /// Resolve a capability to its mailbox. Out of range, dead, from another
    /// generation, or lacking the right: all the same answer.
    fn lookup(&self, cap: CapId, need: CapRights) -> (r: Option<usize>)
        requires
            self.wf(),
        ensures
            r == resolve(self.view().endpoints, cap, need.bits()),
            r is Some ==> r->0 < MAILBOXES && self.view().mailboxes[r->0 as int].live,
    {
        let i = cap.index() as usize;
        if i >= self.endpoints.len() {
            return None;
        }
        let ep = self.endpoints[i];
        assert(self.view().endpoints[i as int] == endpoint_state(ep));
        if !ep.live || ep.generation != cap.generation() {
            return None;
        }
        if !ep.rights.contains(need) {
            return None;
        }
        Some(ep.mailbox)
    }

    /// Queue `msg`, and report the task that should now be woken.
    pub fn send(&mut self, cap: CapId, msg: Message) -> (r: Result<Option<TaskId>, SendError>)
        requires
            old(self).wf(),
            refusal_room(old(self).view().refusals),
        ensures
            final(self).wf(),
            (final(self).view(), r) == send_spec(old(self).view(), DEPTH as nat, cap, msg),
    {
        let ghost s = self.view();
        let mb = match self.lookup(cap, CapRights::send()) {
            Some(mb) => mb,
            None => {
                self.refusals.authority = self.refusals.authority + 1;
                return Err(SendError::BadCap);
            },
        };
        if !self.mailboxes[mb].live {
            self.refusals.state = self.refusals.state + 1;
            return Err(SendError::BadCap);
        }
        assert(mailbox_wf(self.mailboxes@[mb as int], DEPTH as int));
        if self.mailboxes[mb].len == DEPTH {
            self.refusals.full = self.refusals.full + 1;
            return Err(SendError::Full);
        }
        let mut m = idle_mailbox();
        self.mailboxes.set_and_swap(mb, &mut m);
        m.push(DEPTH, msg);
        let w = m.waiter;
        m.waiter = None;
        self.mailboxes.set(mb, m);
        proof {
            self.lemma_set_mailbox(s, mb as int);
        }
        Ok(w)
    }

    /// Take one message if there is one. Never parks.
    pub fn try_recv(&mut self, cap: CapId) -> (r: Result<Message, RecvError>)
        requires
            old(self).wf(),
            refusal_room(old(self).view().refusals),
        ensures
            final(self).wf(),
            (final(self).view(), r) == try_recv_spec(old(self).view(), cap),
    {
        let ghost s = self.view();
        let mb = match self.lookup(cap, CapRights::recv()) {
            Some(mb) => mb,
            None => {
                self.refusals.authority = self.refusals.authority + 1;
                return Err(RecvError::BadCap);
            },
        };
        if !self.mailboxes[mb].live {
            self.refusals.state = self.refusals.state + 1;
            return Err(RecvError::BadCap);
        }
        assert(mailbox_wf(self.mailboxes@[mb as int], DEPTH as int));
        if self.mailboxes[mb].len == 0 {
            return Err(RecvError::Empty);
        }
        let mut m = idle_mailbox();
        self.mailboxes.set_and_swap(mb, &mut m);
        let msg = m.pop(DEPTH);
        self.mailboxes.set(mb, m);
        proof {
            self.lemma_set_mailbox(s, mb as int);
        }
        Ok(msg)
    }

    /// Drop any mailbox waiter slot held by `id`; returns how many were
    /// cleared. Messages and refusal counts are untouched.
    pub fn clear_waiter(&mut self, id: TaskId) -> (r: u32)
        requires
            old(self).wf(),
        ensures
            final(self).wf(),
            final(self).view() == with_mailboxes(old(self).view(), cleared_of(old(self).view().mailboxes, id)),
            r == saturated(waiting_upto(old(self).view().mailboxes, id, MAILBOXES as int)),
    {
        let ghost s = self.view();
        let mut n: u32 = 0;
        let mut i: usize = 0;
        assert(self.view().mailboxes =~= Seq::new(MAILBOXES as nat, |j: int| if j < 0 { cleared_of(s.mailboxes, id)[j] } else { s.mailboxes[j] }));
        while i < self.mailboxes.len()
            invariant
                self.wf(),
                i <= MAILBOXES,
                s == old(self).view(),
                s.mailboxes.len() == MAILBOXES,
                self.view() == with_mailboxes(s, Seq::new(MAILBOXES as nat, |j: int| if j < i { cleared_of(s.mailboxes, id)[j] } else { s.mailboxes[j] })),
                n == saturated(waiting_upto(s.mailboxes, id, i as int)),
            decreases MAILBOXES - i,
        {
            let ghost p = self.view();
            if self.mailboxes[i].waiter == Some(id) {
                let mut m = idle_mailbox();
                self.mailboxes.set_and_swap(i, &mut m);
                m.waiter = None;
                self.mailboxes.set(i, m);
                proof {
                    self.lemma_set_mailbox(p, i as int);
                }
                n = if n == u32::MAX { u32::MAX } else { n + 1 };
            }
            i = i + 1;
            assert(self.view().mailboxes =~= Seq::new(MAILBOXES as nat, |j: int| if j < i { cleared_of(s.mailboxes, id)[j] } else { s.mailboxes[j] }));
        }
        assert(self.view().mailboxes =~= cleared_of(s.mailboxes, id));
        n
    }

    /// Messages queued on the mailbox `cap` names, through either end. Never
    /// counted as a refusal.
    pub fn queued(&self, cap: CapId) -> (r: Result<usize, QueuedError>)
        requires
            self.wf(),
        ensures
            r == match queued_target(self.view(), cap) {
                Some(mb) => if self.view().mailboxes[mb as int].live {
                    Ok::<usize, QueuedError>(self.view().mailboxes[mb as int].queue.len() as usize)
                } else {
                    Err(QueuedError::BadCap)
                },
                None => Err(QueuedError::BadCap),
            },
    {
        let mb = match self.lookup(cap, CapRights::send()) {
            Some(mb) => mb,
            None => match self.lookup(cap, CapRights::recv()) {
                Some(mb) => mb,
                None => return Err(QueuedError::BadCap),
            },
        };
        if !self.mailboxes[mb].live {
            return Err(QueuedError::BadCap);
        }
        Ok(self.mailboxes[mb].len)
    }

    /// Claim the waiter slot for `me`, unless a message arrived first. One
    /// slot per mailbox: a second task is refused, not swapped in.
    pub fn park(&mut self, cap: CapId, me: TaskId) -> (r: Result<Option<Message>, RecvError>)
        requires
            old(self).wf(),
            refusal_room(old(self).view().refusals),
        ensures
            final(self).wf(),
            (final(self).view(), r) == park_spec(old(self).view(), cap, me),
    {
        let ghost s = self.view();
        let mb = match self.lookup(cap, CapRights::recv()) {
            Some(mb) => mb,
            None => {
                self.refusals.authority = self.refusals.authority + 1;
                return Err(RecvError::BadCap);
            },
        };
        if !self.mailboxes[mb].live {
            self.refusals.state = self.refusals.state + 1;
            return Err(RecvError::BadCap);
        }
        assert(mailbox_wf(self.mailboxes@[mb as int], DEPTH as int));
        if self.mailboxes[mb].len > 0 {
            let mut m = idle_mailbox();
            self.mailboxes.set_and_swap(mb, &mut m);
            let msg = m.pop(DEPTH);
            self.mailboxes.set(mb, m);
            proof {
                self.lemma_set_mailbox(s, mb as int);
            }
            return Ok(Some(msg));
        }
        if self.mailboxes[mb].auto_reap && self.mailboxes[mb].send_holders == 0 {
            return Err(RecvError::Cancelled);
        }
        match self.mailboxes[mb].waiter {
            Some(existing) if existing != me => {
                self.refusals.state = self.refusals.state + 1;
                Err(RecvError::Busy)
            },
            _ => {
                let mut m = idle_mailbox();
                self.mailboxes.set_and_swap(mb, &mut m);
                m.waiter = Some(me);
                self.mailboxes.set(mb, m);
                proof {
                    self.lemma_set_mailbox(s, mb as int);
                }
                Ok(None)
            },
        }
    }
}

/// What creating a channel does: the first free mailbox and the first two
/// free endpoints are taken, in this generation; or, with none left, the
/// table is untouched.
pub open spec fn created(s: IpcState, t: IpcState, auto_reap: bool, r: Result<Channel, CreateError>) -> bool {
    let mb = first_from(s.mailboxes, free_mailbox(), 0);
    let se = first_from(s.endpoints, free_endpoint(), 0);
    let re = first_from(s.endpoints, free_endpoint(), se + 1);
    if mb >= s.mailboxes.len() {
        r == Err::<Channel, CreateError>(CreateError::NoMailbox) && t == s
    } else if re >= s.endpoints.len() {
        r == Err::<Channel, CreateError>(CreateError::NoEndpoint) && t == s
    } else {
        &&& r is Ok
        &&& r->Ok_0.send.spec_index() == se as u16
        &&& r->Ok_0.recv.spec_index() == re as u16
        &&& r->Ok_0.send.spec_generation() == s.next_gen
        &&& r->Ok_0.recv.spec_generation() == s.next_gen
        &&& t == IpcState {
            endpoints: s.endpoints.update(
                se,
                EndpointState { live: true, generation: s.next_gen, rights: send_bit(), mailbox: mb as usize },
            ).update(re, EndpointState { live: true, generation: s.next_gen, rights: recv_bit(), mailbox: mb as usize }),
            mailboxes: s.mailboxes.update(
                mb,
                MailboxState { live: true, queue: Seq::empty(), waiter: None, send_holders: 0, auto_reap },
            ),
            next_gen: next_generation(s.next_gen),
            refusals: s.refusals,
        }
    }
}

/// Messages come out in the order they went in: a receive after a send on
/// the same mailbox takes the oldest message, which is the one just sent when
/// the mailbox was empty.
pub proof fn lemma_fifo(s: IpcState, depth: nat, tx: CapId, rx: CapId, msg: Message)
    requires
        state_ok(s),
        resolve(s.endpoints, tx, send_bit()) is Some,
        resolve(s.endpoints, tx, send_bit()) == resolve(s.endpoints, rx, recv_bit()),
        s.mailboxes[resolve(s.endpoints, tx, send_bit())->0 as int].queue.len() < depth,
    ensures
        ({
            let q = s.mailboxes[resolve(s.endpoints, tx, send_bit())->0 as int].queue;
            let after = try_recv_spec(send_spec(s, depth, tx, msg).0, rx);
            &&& send_spec(s, depth, tx, msg).1 is Ok
            &&& after.1 == Ok::<Message, RecvError>(if q.len() == 0 { msg } else { q[0] })
        }),
{
    let mb = resolve(s.endpoints, tx, send_bit())->0;
    let i = tx.spec_index() as int;
    assert(s.endpoints[i].live);
}

/// The state after sending each of `msgs` on `cap`, in order.
pub open spec fn send_all(s: IpcState, depth: nat, cap: CapId, msgs: Seq<Message>) -> IpcState
    decreases msgs.len(),
{
    if msgs.len() == 0 {
        s
    } else {
        send_all(send_spec(s, depth, cap, msgs[0]).0, depth, cap, msgs.drop_first())
    }
}

/// Whether every send of `msgs` on `cap`, in order, is accepted.
pub open spec fn sends_ok(s: IpcState, depth: nat, cap: CapId, msgs: Seq<Message>) -> bool
    decreases msgs.len(),
{
    msgs.len() == 0 || (send_spec(s, depth, cap, msgs[0]).1 is Ok
        && sends_ok(send_spec(s, depth, cap, msgs[0]).0, depth, cap, msgs.drop_first()))
}

/// The state and the answers of `n` receives on `cap`, in order.
pub open spec fn recv_n(s: IpcState, cap: CapId, n: nat) -> (IpcState, Seq<Result<Message, RecvError>>)
    decreases n,
{
    if n == 0 {
        (s, Seq::empty())
    } else {
        let first = try_recv_spec(s, cap);
        let rest = recv_n(first.0, cap, (n - 1) as nat);
        (rest.0, seq![first.1] + rest.1)
    }
}

proof fn lemma_send_all_appends(s: IpcState, depth: nat, tx: CapId, msgs: Seq<Message>, mb: usize)
    requires
        resolve(s.endpoints, tx, send_bit()) == Some(mb),
        (mb as int) < s.mailboxes.len(),
        s.mailboxes[mb as int].live,
        s.mailboxes[mb as int].queue.len() + msgs.len() <= depth,
    ensures
        sends_ok(s, depth, tx, msgs),
        send_all(s, depth, tx, msgs).endpoints == s.endpoints,
        send_all(s, depth, tx, msgs).refusals == s.refusals,
        send_all(s, depth, tx, msgs).mailboxes.len() == s.mailboxes.len(),
        send_all(s, depth, tx, msgs).mailboxes[mb as int].live,
        send_all(s, depth, tx, msgs).mailboxes[mb as int].queue == s.mailboxes[mb as int].queue + msgs,
    decreases msgs.len(),
{
    if msgs.len() > 0 {
        let s1 = send_spec(s, depth, tx, msgs[0]).0;
        lemma_send_all_appends(s1, depth, tx, msgs.drop_first(), mb);
        assert(s.mailboxes[mb as int].queue.push(msgs[0]) + msgs.drop_first() =~= s.mailboxes[mb as int].queue + msgs);
    } else {
        assert(s.mailboxes[mb as int].queue + msgs =~= s.mailboxes[mb as int].queue);
    }
}

proof fn lemma_recv_n_pops(s: IpcState, rx: CapId, n: nat, mb: usize)
    requires
        resolve(s.endpoints, rx, recv_bit()) == Some(mb),
        (mb as int) < s.mailboxes.len(),
        s.mailboxes[mb as int].live,
        n <= s.mailboxes[mb as int].queue.len(),
    ensures
        recv_n(s, rx, n).1 == Seq::new(n, |i: int| Ok::<Message, RecvError>(s.mailboxes[mb as int].queue[i])),
        recv_n(s, rx, n).0.endpoints == s.endpoints,
        recv_n(s, rx, n).0.refusals == s.refusals,
        recv_n(s, rx, n).0.mailboxes.len() == s.mailboxes.len(),
        recv_n(s, rx, n).0.mailboxes[mb as int].live,
        recv_n(s, rx, n).0.mailboxes[mb as int].queue == s.mailboxes[mb as int].queue.skip(n as int),
    decreases n,
{
    let q = s.mailboxes[mb as int].queue;
    if n > 0 {
        let s1 = try_recv_spec(s, rx).0;
        lemma_recv_n_pops(s1, rx, (n - 1) as nat, mb);
        assert(s1.mailboxes[mb as int].queue == q.drop_first());
        assert(q.drop_first().skip((n - 1) as int) =~= q.skip(n as int));
        assert(recv_n(s, rx, n).1 =~= Seq::new(n, |i: int| Ok::<Message, RecvError>(q[i])));
    } else {
        assert(q.skip(0) =~= q);
        assert(recv_n(s, rx, n).1 =~= Seq::new(n, |i: int| Ok::<Message, RecvError>(q[i])));
    }
}

/// First in, first out, across any number of messages and the ring's wrap:
/// on a channel whose mailbox holds `q`, sending `msgs` (room permitting) is
/// accepted every time, the next `q.len() + msgs.len()` receives give back
/// `q` then `msgs` in order, the one after finds the mailbox empty, and no
/// refusal is counted throughout.
pub proof fn lemma_fifo_many(s: IpcState, depth: nat, tx: CapId, rx: CapId, msgs: Seq<Message>)
    requires
        state_ok(s),
        resolve(s.endpoints, tx, send_bit()) is Some,
        resolve(s.endpoints, tx, send_bit()) == resolve(s.endpoints, rx, recv_bit()),
        s.mailboxes[resolve(s.endpoints, tx, send_bit())->0 as int].queue.len() + msgs.len() <= depth,
    ensures
        ({
            let mb = resolve(s.endpoints, tx, send_bit())->0 as int;
            let q = s.mailboxes[mb].queue;
            let sent = send_all(s, depth, tx, msgs);
            let n = (q.len() + msgs.len()) as nat;
            let got = recv_n(sent, rx, n);
            &&& sends_ok(s, depth, tx, msgs)
            &&& got.1 == Seq::new(n, |i: int| Ok::<Message, RecvError>((q + msgs)[i]))
            &&& try_recv_spec(got.0, rx).1 == Err::<Message, RecvError>(RecvError::Empty)
            &&& sent.refusals == s.refusals
            &&& got.0.refusals == s.refusals
        }),
{
    let mb = resolve(s.endpoints, tx, send_bit())->0;
    let i = tx.spec_index() as int;
    assert(s.endpoints[i].live);
    let q = s.mailboxes[mb as int].queue;
    lemma_send_all_appends(s, depth, tx, msgs, mb);
    let sent = send_all(s, depth, tx, msgs);
    let n = (q.len() + msgs.len()) as nat;
    lemma_recv_n_pops(sent, rx, n, mb);
    let got = recv_n(sent, rx, n);
    assert(got.0.mailboxes[mb as int].queue.len() == 0);
}

/// The two ends of a channel are not interchangeable: no capability resolves
/// for both sending and receiving.
pub proof fn lemma_ends_not_interchangeable(s: IpcState, cap: CapId)
    requires
        state_ok(s),
    ensures
        !(resolve(s.endpoints, cap, send_bit()) is Some && resolve(s.endpoints, cap, recv_bit()) is Some),
{
    assert(1u8 & 2u8 == 0u8 && 2u8 & 1u8 == 0u8) by (bit_vector);
    let i = cap.spec_index() as int;
    if resolve(s.endpoints, cap, send_bit()) is Some {
        assert(s.endpoints[i].live);
    }
}

/// A handle whose generation differs from its endpoint's (a stale handle
/// from a recycled slot, or a forged one) resolves to nothing.
pub proof fn lemma_stale_generation_refused(s: IpcState, cap: CapId, need: u8)
    requires
        (cap.spec_index() as int) < s.endpoints.len(),
        s.endpoints[cap.spec_index() as int].generation != cap.spec_generation(),
    ensures
        resolve(s.endpoints, cap, need) is None,
{
}

/// Refusal counts move only for their own reason: on a well-formed table, a
/// send refused for its capability moves the authority count by exactly one
/// and nothing else, a full mailbox moves only the full count, and a send
/// that goes through moves none.
pub proof fn lemma_send_refusals_by_reason(s: IpcState, depth: nat, cap: CapId, msg: Message)
    requires
        state_ok(s),
    ensures
        ({
            let (t, r) = send_spec(s, depth, cap, msg);
            &&& r == Err::<Option<TaskId>, SendError>(SendError::BadCap) ==> t == bump_authority(s)
            &&& r == Err::<Option<TaskId>, SendError>(SendError::Full) ==> t == bump_full(s)
            &&& r is Ok ==> t.refusals == s.refusals
        }),
{
    if resolve(s.endpoints, cap, send_bit()) is Some {
        assert(s.endpoints[cap.spec_index() as int].live);
    }
}

/// One waiter slot per mailbox: with an empty, non-cancelled mailbox, a park
/// by the waiter already there is accepted again, and a park by anyone else
/// is refused as busy without displacing it.
pub proof fn lemma_one_waiter(s: IpcState, cap: CapId, first: TaskId, second: TaskId)
    requires
        state_ok(s),
        resolve(s.endpoints, cap, recv_bit()) is Some,
        s.mailboxes[resolve(s.endpoints, cap, recv_bit())->0 as int].queue.len() == 0,
        !(s.mailboxes[resolve(s.endpoints, cap, recv_bit())->0 as int].auto_reap
            && s.mailboxes[resolve(s.endpoints, cap, recv_bit())->0 as int].send_holders == 0),
        first != second,
    ensures
        ({
            let (t, r) = park_spec(s, cap, first);
            &&& r == Ok::<Option<Message>, RecvError>(None)
            &&& park_spec(t, cap, first).1 == Ok::<Option<Message>, RecvError>(None)
            &&& park_spec(t, cap, second).1 == Err::<Option<Message>, RecvError>(RecvError::Busy)
            &&& park_spec(t, cap, second).0.mailboxes == t.mailboxes
        }) || park_spec(s, cap, first).1 == Err::<Option<Message>, RecvError>(RecvError::Busy),
{
    assert(s.endpoints[cap.spec_index() as int].live);
}

/// Each channel is minted in its own generation: the next generation differs
/// from the current one and is never zero.
pub proof fn lemma_generations_advance(g: u16)
    ensures
        next_generation(g) != g,
        next_generation(g) != 0,
{
}

/// A new channel's two capabilities resolve, each with its own right, to the
/// newly taken mailbox, which no live endpoint named before.
pub proof fn lemma_created_channel_resolves(s: IpcState, t: IpcState, auto_reap: bool, r: Result<Channel, CreateError>)
    requires
        state_ok(s),
        created(s, t, auto_reap, r),
        r is Ok,
        s.endpoints.len() <= 0x1_0000,
    ensures
        ({
            let mb = first_from(s.mailboxes, free_mailbox(), 0) as usize;
            &&& resolve(t.endpoints, r->Ok_0.send, send_bit()) == Some(mb)
            &&& resolve(t.endpoints, r->Ok_0.recv, recv_bit()) == Some(mb)
            &&& forall|i: int| 0 <= i < s.endpoints.len() && #[trigger] s.endpoints[i].live
                ==> s.endpoints[i].mailbox as int != first_from(s.mailboxes, free_mailbox(), 0)
        }),
{
    let mbi = first_from(s.mailboxes, free_mailbox(), 0);
    let se = first_from(s.endpoints, free_endpoint(), 0);
    let re = first_from(s.endpoints, free_endpoint(), se + 1);
    lemma_first_from(s.mailboxes, free_mailbox(), 0);
    lemma_first_from(s.endpoints, free_endpoint(), 0);
    if se < s.endpoints.len() {
        lemma_first_from(s.endpoints, free_endpoint(), se + 1);
    }
    assert(1u8 & 1u8 == 1u8 && 2u8 & 2u8 == 2u8) by (bit_vector);
    assert(!s.mailboxes[mbi].live);
    assert forall|i: int| 0 <= i < s.endpoints.len() && #[trigger] s.endpoints[i].live implies s.endpoints[i].mailbox as int != mbi by {
        assert(s.mailboxes[s.endpoints[i].mailbox as int].live);
    }
}

} // verus!
