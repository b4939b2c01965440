//! Who owns the UART receive line, and the order in which it changes hands.
//!
//! The receive interrupt is level-triggered: armed while the handler has no
//! MMIO view to drain through, an arriving byte re-presents forever. That one
//! state — armed, no view — is what every plan here avoids: suspending masks
//! before it clears the view, resuming publishes the view before it arms.
//!
//! The type decides and never acts: steps are values the kernel performs.
use vstd::prelude::*;

verus! {

/// One hardware action in a handover, in the order the plan lists them.
#[derive(Clone, Copy, Debug, PartialEq, Eq, Structural)]
pub enum Step {
    /// Mask RX/RT, drop the FIFO and acknowledge.
    MaskAndAck,
    /// Stop publishing an MMIO base: the handler will return immediately.
    ClearView,
    /// Publish an MMIO base the handler may drain through.
    PublishView(usize),
    /// Unmask RX/RT.
    Arm,
}

/// The line's state as `(armed, view)` after `step` is applied to `s`.
pub open spec fn after_step(s: (bool, usize), step: Step) -> (bool, usize) {
    match step {
        Step::MaskAndAck => (false, s.1),
        Step::ClearView => (s.0, 0usize),
        Step::PublishView(base) => (s.0, base),
        Step::Arm => (true, s.1),
    }
}

/// Armed with no view: the state a handover must never pass through.
pub open spec fn storm(s: (bool, usize)) -> bool {
    s.0 && s.1 == 0
}

/// The receive line's ownership state: whether it is armed, and the MMIO base
/// the handler may use (zero for none).
#[derive(Clone, Copy, Debug, PartialEq, Eq, Structural)]
pub struct RxLine {
    armed: bool,
    view: usize,
}

impl RxLine {
    /// `(armed, view)`.
    pub closed spec fn state(&self) -> (bool, usize) {
        (self.armed, self.view)
    }

    /// Masked, and no view.
    pub fn new() -> (l: RxLine)
        ensures
            l.state() == (false, 0usize),
    {
        RxLine { armed: false, view: 0 }
    }

    /// Armed with no view: a level-triggered line the handler cannot clear.
    pub fn is_unclearable(&self) -> (r: bool)
        ensures
            r == storm(self.state()),
    {
        self.armed && self.view == 0
    }

    /// The base the interrupt handler may drain through, if any.
    pub fn may_drain(&self) -> (r: Option<usize>)
        ensures
            r == (if self.state().1 == 0 { None } else { Some(self.state().1) }),
    {
        if self.view == 0 {
            None
        } else {
            Some(self.view)
        }
    }

    /// Apply one step. The caller performs the corresponding hardware action.
    pub fn apply(&mut self, step: Step)
        ensures
            final(self).state() == after_step(old(self).state(), step),
    {
        match step {
            Step::MaskAndAck => self.armed = false,
            Step::ClearView => self.view = 0,
            Step::PublishView(base) => self.view = base,
            Step::Arm => self.armed = true,
        }
    }

    /// Arm the kernel drain for the first time: view before arm. `None` for a
    /// zero base.
    pub fn plan_install(&self, base: usize) -> (r: Option<[Step; 2]>)
        ensures
            base == 0 ==> r is None,
            base != 0 ==> r == Some([Step::PublishView(base), Step::Arm]),
    {
        if base == 0 {
            return None;
        }
        Some([Step::PublishView(base), Step::Arm])
    }

    /// Hand the line to an agent: the base to give back later, and mask before
    /// clearing the view. `None` when the kernel does not hold the line.
    pub fn plan_suspend(&self) -> (r: Option<(usize, [Step; 2])>)
        ensures
            self.state().1 == 0 ==> r is None,
            self.state().1 != 0 ==> r == Some((self.state().1, [Step::MaskAndAck, Step::ClearView])),
    {
        if self.view == 0 {
            return None;
        }
        Some((self.view, [Step::MaskAndAck, Step::ClearView]))
    }

    /// Take the line back: view before arm. `None` for a zero base.
    pub fn plan_resume(&self, base: usize) -> (r: Option<[Step; 2]>)
        ensures
            base == 0 ==> r is None,
            base != 0 ==> r == Some([Step::PublishView(base), Step::Arm]),
    {
        if base == 0 {
            return None;
        }
        Some([Step::PublishView(base), Step::Arm])
    }
}

/// Installing or resuming with a non-zero base, from any state that is not a
/// storm, passes through no storm and ends armed on that base.
pub proof fn lemma_resume_never_storms(s: (bool, usize), base: usize)
    requires
        !storm(s),
        base != 0,
    ensures
        !storm(after_step(s, Step::PublishView(base))),
        !storm(after_step(after_step(s, Step::PublishView(base)), Step::Arm)),
        after_step(after_step(s, Step::PublishView(base)), Step::Arm) == (true, base),
{
}

/// Suspending, from any state, passes through no storm and ends masked with
/// no view.
pub proof fn lemma_suspend_never_storms(s: (bool, usize))
    requires
        !storm(s),
    ensures
        !storm(after_step(s, Step::MaskAndAck)),
        !storm(after_step(after_step(s, Step::MaskAndAck), Step::ClearView)),
        after_step(after_step(s, Step::MaskAndAck), Step::ClearView) == (false, 0usize),
{
}

/// The reverse orders are exactly the storm: clearing the view of an armed
/// line, or arming a line with no view.
pub proof fn lemma_wrong_orders_storm(s: (bool, usize))
    ensures
        s.0 ==> storm(after_step(s, Step::ClearView)),
        s.1 == 0 ==> storm(after_step(s, Step::Arm)),
{
}

impl Default for RxLine {
    fn default() -> (r: Self)
        ensures
            r.state() == (false, 0usize),
    {
        Self::new()
    }
}


} // verus!
