use kernel_core::rxline::{RxLine, Step};

/// Walk a plan, asserting after **every** step that a byte arriving at that
/// instant could still be cleared.
///
/// This is the whole point of the module. Asserting that a plan equals a
/// two-element array tests that a constant is a constant; asserting that no
/// intermediate state is unclearable is the invariant the hardware cares
/// about, and it is what goes red when the two steps are swapped.
fn walk(line: &mut RxLine, steps: &[Step]) {
    assert!(
        !line.is_unclearable(),
        "unclearable before the plan started"
    );
    for (i, &step) in steps.iter().enumerate() {
        line.apply(step);
        assert!(
            !line.is_unclearable(),
            "step {i} ({step:?}) left the line armed with no view"
        );
    }
}

fn kernel_owned(base: usize) -> RxLine {
    let mut line = RxLine::new();
    let plan = line.plan_install(base).expect("non-zero base");
    walk(&mut line, &plan);
    line
}

#[test]
fn a_handover_never_passes_through_the_unclearable_state() {
    let mut line = kernel_owned(0xFE20_1000);
    assert_eq!(line.may_drain(), Some(0xFE20_1000));

    let (base, steps) = line.plan_suspend().expect("the kernel holds it");
    assert_eq!(base, 0xFE20_1000);
    walk(&mut line, &steps);
    assert_eq!(line.may_drain(), None, "the handler must return at once");

    let plan = line.plan_resume(base).expect("non-zero base");
    walk(&mut line, &plan);
    assert_eq!(line.may_drain(), Some(0xFE20_1000), "and back again");
}

#[test]
fn suspending_in_the_wrong_order_builds_the_storm() {
    // The defect as it was written: the view is disarmed before `IMSC` is
    // masked. This is the test that fails if someone puts it back, and it
    // fails at the exact step, not at the end.
    let mut line = kernel_owned(0xFE20_1000);
    line.apply(Step::ClearView);
    assert!(
        line.is_unclearable(),
        "armed with no view — a byte here re-presents forever"
    );
}

#[test]
fn resuming_in_the_wrong_order_builds_the_same_storm() {
    // The mirror image, which the original code also had.
    let mut line = kernel_owned(0xFE20_1000);
    let (base, steps) = line.plan_suspend().unwrap();
    walk(&mut line, &steps);

    line.apply(Step::Arm);
    assert!(line.is_unclearable(), "armed before the view was published");

    line.apply(Step::PublishView(base));
    assert!(!line.is_unclearable(), "and cleared again once it is");
}

#[test]
fn a_second_suspend_is_refused_rather_than_returning_zero_as_a_base() {
    // Two agents, or one agent twice: the second call must not report a
    // base of zero as if it were one, because the caller would later
    // `plan_resume(0)` and publish "no view" before arming.
    let mut line = kernel_owned(0xFE20_1000);
    let (_, steps) = line.plan_suspend().unwrap();
    walk(&mut line, &steps);

    assert_eq!(line.plan_suspend(), None, "nothing left to hand over");
}

#[test]
fn resuming_with_a_zero_base_is_refused() {
    // `plan_resume(0)` would be `PublishView(0)` then `Arm` — the storm,
    // assembled out of two individually reasonable steps.
    let mut line = kernel_owned(0xFE20_1000);
    let (_, steps) = line.plan_suspend().unwrap();
    walk(&mut line, &steps);

    assert_eq!(line.plan_resume(0), None);
    assert!(!line.is_unclearable(), "and the line is untouched");
}

#[test]
fn installing_a_zero_base_is_refused() {
    // Same shape at the other end: `enable_rx_irq` with no MMIO base.
    let line = RxLine::new();
    assert_eq!(line.plan_install(0), None);
}

#[test]
fn the_handler_may_drain_exactly_when_the_kernel_holds_the_line() {
    let mut line = RxLine::new();
    assert_eq!(line.may_drain(), None, "before install");

    let plan = line.plan_install(0x1000).unwrap();
    walk(&mut line, &plan);
    assert_eq!(line.may_drain(), Some(0x1000));

    let (base, steps) = line.plan_suspend().unwrap();
    walk(&mut line, &steps);
    assert_eq!(line.may_drain(), None, "while the agent owns it");

    let plan = line.plan_resume(base).unwrap();
    walk(&mut line, &plan);
    assert_eq!(line.may_drain(), Some(0x1000), "and back again");
}

#[test]
fn a_masked_line_with_a_view_is_not_a_storm() {
    // The intermediate state a correct suspend passes through. It is not
    // dangerous, and calling it dangerous would make the safe order look
    // as bad as the unsafe one.
    let mut line = kernel_owned(0x2000);
    line.apply(Step::MaskAndAck);
    assert!(!line.is_unclearable());
    assert_eq!(line.may_drain(), Some(0x2000));
}
