use kernel_core::capslots::{InstallError, Table, TransferError};
use kernel_core::cap::{CapId, IRQ_BAND, SlotError, TASK_BAND};

type T = Table<3, 4>;

fn ep(n: u16) -> CapId {
    CapId::new(n, 1)
}

#[test]
fn get_resolves_bounds_holes_and_rows() {
    let mut t = T::new();
    t.seed(1, &[Some(ep(7)), None]);
    assert_eq!(t.get(1, 0), Ok(ep(7)));
    assert_eq!(t.get(1, 1), Err(SlotError::Empty { slot: 1 }));
    assert_eq!(
        t.get(1, 4),
        Err(SlotError::OutOfRange { slot: 4, slots: 4 })
    );
    assert_eq!(
        t.get(9, 0),
        Err(SlotError::OutOfRange { slot: 0, slots: 0 })
    );
}

#[test]
fn seed_clears_slots_past_the_given_prefix() {
    let mut t = T::new();
    t.seed(0, &[Some(ep(1)), Some(ep(2)), Some(ep(3)), Some(ep(4))]);
    t.seed(0, &[Some(ep(9))]);
    assert_eq!(t.get(0, 0), Ok(ep(9)));
    for slot in 1..4 {
        assert_eq!(t.get(0, slot), Err(SlotError::Empty { slot }));
    }
}

#[test]
fn holds_answers_both_ways() {
    let mut t = T::new();
    t.seed(2, &[None, Some(ep(5))]);
    assert!(t.holds(2, ep(5)));
    assert!(!t.holds(2, ep(6)));
    assert!(!t.holds(9, ep(5)), "out-of-range row holds nothing");
}

#[test]
fn install_refuses_oob_occupied_and_bad_row() {
    let mut t = T::new();
    assert_eq!(t.install(0, 4, ep(1)), Err(InstallError::BadSlot));
    assert_eq!(t.install(9, 0, ep(1)), Err(InstallError::BadSlot));
    assert_eq!(t.install(0, 2, ep(1)), Ok(()));
    assert_eq!(t.install(0, 2, ep(2)), Err(InstallError::BadSlot));
    assert_eq!(t.get(0, 2), Ok(ep(1)), "the refusal did not overwrite");
}

#[test]
fn transfer_moves_an_endpoint_cap() {
    let mut t = T::new();
    t.seed(0, &[Some(ep(3))]);
    assert_eq!(t.transfer(0, 0, 1, 2), Ok(()));
    assert_eq!(
        t.get(0, 0),
        Err(SlotError::Empty { slot: 0 }),
        "donor emptied"
    );
    assert_eq!(t.get(1, 2), Ok(ep(3)));
}

#[test]
fn transfer_refusal_order_is_the_abi_order() {
    let mut t = T::new();
    t.seed(0, &[Some(ep(3)), Some(ep(4))]);
    t.seed(1, &[Some(ep(8))]);
    assert_eq!(t.transfer(0, 4, 1, 0), Err(TransferError::BadFromSlot));
    assert_eq!(t.transfer(0, 0, 1, 4), Err(TransferError::ToSlotOob));
    assert_eq!(t.transfer(0, 2, 1, 1), Err(TransferError::BadFromSlot));
    assert_eq!(t.transfer(0, 0, 1, 0), Err(TransferError::ToSlotFull));
    // Out-of-range for BOTH from-slot and to-slot: the source refusal
    // wins, which is what ADR-0061's detail codes encode.
    assert_eq!(t.transfer(0, 4, 1, 4), Err(TransferError::BadFromSlot));
}

#[test]
fn same_task_same_slot_is_a_no_op_even_when_empty() {
    let mut t = T::new();
    assert_eq!(t.transfer(0, 3, 0, 3), Ok(()), "before any seed");
    t.seed(0, &[Some(ep(3))]);
    assert_eq!(t.transfer(0, 0, 0, 0), Ok(()));
    assert_eq!(t.get(0, 0), Ok(ep(3)), "still there");
}

#[test]
fn same_task_different_slot_really_moves() {
    let mut t = T::new();
    t.seed(0, &[Some(ep(3))]);
    assert_eq!(t.transfer(0, 0, 0, 1), Ok(()));
    assert_eq!(t.get(0, 0), Err(SlotError::Empty { slot: 0 }));
    assert_eq!(t.get(0, 1), Ok(ep(3)));
}

#[test]
fn non_endpoint_bands_are_untransferable() {
    // ADR-0055 via ADR-0059's one decoder: a task-cap, an IRQ cap and the
    // invalid both-bands quadrant all refuse — before the destination is
    // even looked at (the occupied dest must not shadow the class).
    let mut t = T::new();
    for bad in [TASK_BAND | 1, IRQ_BAND | 1, TASK_BAND | IRQ_BAND | 1] {
        t.seed(0, &[Some(CapId::new(bad, 1))]);
        t.seed(1, &[Some(ep(8))]);
        assert_eq!(t.transfer(0, 0, 1, 0), Err(TransferError::Untransferable));
        assert_eq!(t.transfer(0, 0, 1, 1), Err(TransferError::Untransferable));
    }
}

#[test]
fn drain_takes_the_row_once_and_leaves_others() {
    let mut t = T::new();
    t.seed(0, &[Some(ep(1)), None, Some(ep(2))]);
    t.seed(1, &[Some(ep(9))]);
    let row = t.drain(0);
    assert_eq!(row, [Some(ep(1)), None, Some(ep(2)), None]);
    assert_eq!(t.drain(0), [None; 4], "already cleared");
    assert_eq!(t.get(1, 0), Ok(ep(9)), "other rows untouched");
    assert_eq!(t.drain(9), [None; 4], "out-of-range row drains empty");
}

#[test]
fn an_out_of_range_task_row_refuses_like_an_out_of_range_slot() {
    let mut t = T::new();
    t.seed(0, &[Some(ep(1))]);
    assert_eq!(t.transfer(3, 0, 1, 0), Err(TransferError::BadFromSlot));
    assert_eq!(t.transfer(0, 0, 9, 0), Err(TransferError::ToSlotOob));
    assert_eq!(t.get(0, 0), Ok(ep(1)));
}
