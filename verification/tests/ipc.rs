use kernel_core::ipc::{CreateError, Message, QueuedError, RecvError, Refusals, SendError, Table};
use kernel_core::cap::{CapId};
use kernel_core::runqueue::{TaskId};

/// The shape `src/ipc` instantiates: 8 mailboxes, 16 endpoints, depth 4.
type T = Table<8, 16, 4>;

fn msg(tag: u32) -> Message {
    Message {
        tag,
        a: u64::from(tag) * 2,
        b: 0,
    }
}

#[test]
fn clear_waiter_drops_the_parked_slot_without_a_send() {
    let mut t = T::new();
    let ch = t.create_channel().unwrap();
    let waiter = TaskId::new(3, 0);
    assert_eq!(t.park(ch.recv, waiter), Ok(None));
    assert_eq!(t.clear_waiter(waiter), 1);
    assert_eq!(t.clear_waiter(waiter), 0);
    // A later send must not invent a wake for the cancelled waiter.
    assert_eq!(t.send(ch.send, msg(1)), Ok(None));
    assert_eq!(t.try_recv(ch.recv), Ok(msg(1)));
}

#[test]
fn last_send_hold_on_ephemeral_channel_names_the_waiter() {
    // ADR-0031: sole SEND holder exits while peer is parked → cancel path.
    let mut t = T::new();
    let ch = t.create_channel_ephemeral().unwrap();
    let waiter = TaskId::new(4, 0);
    let slots = [Some(ch.send), None, None, None];
    t.register_holds(&slots);
    assert_eq!(t.send_holders(ch.send), Some(1));
    assert_eq!(t.park(ch.recv, waiter), Ok(None));
    let released = t.release_holds(&slots);
    assert_eq!(released[0], Some(waiter));
    assert_eq!(t.send_holders(ch.send), Some(0));
    // Waiter already cleared; send must not invent a wake.
    assert_eq!(t.send(ch.send, msg(1)), Ok(None));
}

#[test]
fn default_channel_never_auto_reaps_on_last_unhold() {
    // Console-safe: intentional servers park with zero SEND holders after
    // clients exit.
    let mut t = T::new();
    let ch = t.create_channel().unwrap();
    let waiter = TaskId::new(5, 0);
    let slots = [Some(ch.send), None, None, None];
    t.register_holds(&slots);
    assert_eq!(t.park(ch.recv, waiter), Ok(None));
    let released = t.release_holds(&slots);
    assert!(released.iter().all(|w| w.is_none()));
    // Waiter still set — a later send still wakes it.
    assert_eq!(t.send(ch.send, msg(2)), Ok(Some(waiter)));
}

#[test]
fn two_holders_first_unhold_does_not_cancel() {
    let mut t = T::new();
    let ch = t.create_channel_ephemeral().unwrap();
    let waiter = TaskId::new(6, 0);
    let a = [Some(ch.send), None, None, None];
    let b = [Some(ch.send), None, None, None];
    t.register_holds(&a);
    t.register_holds(&b);
    assert_eq!(t.send_holders(ch.send), Some(2));
    assert_eq!(t.park(ch.recv, waiter), Ok(None));
    let first = t.release_holds(&a);
    assert!(first.iter().all(|w| w.is_none()));
    let second = t.release_holds(&b);
    assert_eq!(second[0], Some(waiter));
}

#[test]
fn ephemeral_park_with_zero_holders_is_cancelled() {
    let mut t = T::new();
    let ch = t.create_channel_ephemeral().unwrap();
    assert_eq!(t.park(ch.recv, TaskId::new(1, 0)), Err(RecvError::Cancelled));
}

#[test]
fn default_channel_allows_park_with_zero_holders() {
    let mut t = T::new();
    let ch = t.create_channel().unwrap();
    assert_eq!(t.park(ch.recv, TaskId::new(1, 0)), Ok(None));
}

#[test]
fn queued_depth_is_visible_from_either_end_without_counting_refusals() {
    let mut t = T::new();
    let ch = t.create_channel().unwrap();
    assert_eq!(t.queued(ch.send), Ok(0));
    assert_eq!(t.queued(ch.recv), Ok(0));
    assert_eq!(t.send(ch.send, msg(1)), Ok(None));
    assert_eq!(t.queued(ch.send), Ok(1));
    assert_eq!(t.queued(ch.recv), Ok(1));
    assert_eq!(t.refusals().authority, 0);
    assert_eq!(t.queued(CapId::new(99, 1)), Err(QueuedError::BadCap));
    assert_eq!(
        t.refusals().authority,
        0,
        "observation must not count as a refusal"
    );
}

#[test]
fn a_noted_refusal_survives_later_traffic() {
    // The regression this method exists for. The count used to live in an
    // atomic beside the table while `refusals()` was published over that
    // atomic after every operation, so one successful send erased the
    // record of a refusal that had already happened.
    let mut t = T::new();
    let ch = t.create_channel().unwrap();
    t.note_authority_refusal();
    assert_eq!(t.refusals().authority, 1);

    assert_eq!(t.send(ch.send, msg(7)), Ok(None));
    assert_eq!(t.try_recv(ch.recv), Ok(msg(7)));
    assert_eq!(
        t.refusals().authority,
        1,
        "a successful round trip erased a refusal that had happened"
    );

    // And it accumulates with the ones the table detects itself, because
    // they are the same kind of event seen from two sides.
    assert!(t.send(CapId::new(9, 9), msg(1)).is_err());
    assert_eq!(t.refusals().authority, 2);
}

#[test]
fn a_noted_state_refusal_lands_in_its_own_counter() {
    // The idle-park guard (ADR-0022 §5) counts here, and the point is which
    // number it moves: `state` is the counter the boot check asserts stays
    // zero, so a caller-side refusal that landed in `authority` would both
    // hide a kernel bug and inflate the number M4's gate reads exactly.
    let mut t = T::new();
    t.note_state_refusal();
    assert_eq!(t.refusals().state, 1);
    assert_eq!(
        t.refusals().authority,
        0,
        "a state refusal is not an authority one"
    );
    assert_eq!(t.refusals().full, 0);
}

#[test]
fn a_message_survives_the_round_trip() {
    let mut t = T::new();
    let ch = t.create_channel().unwrap();
    assert_eq!(t.send(ch.send, msg(7)), Ok(None));
    assert_eq!(t.try_recv(ch.recv), Ok(msg(7)));
    assert_eq!(t.try_recv(ch.recv), Err(RecvError::Empty));
}

#[test]
fn send_and_recv_capabilities_are_not_interchangeable() {
    // The whole point of splitting rights: holding one end of a channel
    // must not let a task use the other.
    let mut t = T::new();
    let ch = t.create_channel().unwrap();
    assert_eq!(t.send(ch.recv, msg(1)), Err(SendError::BadCap));
    assert_eq!(t.try_recv(ch.send), Err(RecvError::BadCap));
    assert_eq!(t.refusals().authority, 2);
}

#[test]
fn a_forged_capability_is_refused() {
    // `bootstrap`'s forger demo mints one exactly this way — `CapId` is
    // freely constructible, and unforgeability is a property of this
    // lookup, not of the type.
    let mut t = T::new();
    let ch = t.create_channel().unwrap();
    let forged = CapId::new(ch.send.index(), ch.send.generation().wrapping_add(1));
    assert_eq!(t.send(forged, msg(1)), Err(SendError::BadCap));
    assert_eq!(t.refusals().authority, 1);
}

#[test]
fn a_stale_handle_from_a_recycled_slot_is_refused() {
    // The case the generation field exists for, and the one no code path
    // can reach today: nothing releases an endpoint, so a slot is never
    // reused. Built by hand because that is the only way in.
    let mut t = T::new();
    let first = t.create_channel().unwrap();
    let second = t.create_channel().unwrap();
    assert_ne!(
        first.send.generation(),
        second.send.generation(),
        "each channel must be minted in its own generation"
    );
    // A handle naming the *second* channel's slot with the *first*
    // channel's generation: the shape a stale capability would have.
    let stale = CapId::new(second.send.index(), first.send.generation());
    assert_eq!(t.send(stale, msg(1)), Err(SendError::BadCap));
    assert_eq!(t.refusals().authority, 1);
}

#[test]
fn an_index_past_the_table_is_refused_not_a_panic() {
    let mut t = T::new();
    let out_of_range = CapId::new(9999, 1);
    assert_eq!(t.send(out_of_range, msg(1)), Err(SendError::BadCap));
    assert_eq!(t.try_recv(out_of_range), Err(RecvError::BadCap));
}

#[test]
fn a_full_mailbox_refuses_without_touching_the_authority_count() {
    // The defect this split was made for: one counter covered both, and the
    // M4 gate asserts on it to prove a *capability* was rejected.
    let mut t = T::new();
    let ch = t.create_channel().unwrap();
    for i in 0..4 {
        assert_eq!(t.send(ch.send, msg(i)), Ok(None), "depth is 4");
    }
    assert_eq!(t.send(ch.send, msg(99)), Err(SendError::Full));
    assert_eq!(t.refusals().full, 1);
    assert_eq!(
        t.refusals().authority,
        0,
        "a full mailbox is flow control, not a violation"
    );
}

#[test]
fn the_ring_wraps_and_keeps_order() {
    let mut t = T::new();
    let ch = t.create_channel().unwrap();
    // Fill, drain, refill: the second pass crosses the wrap point.
    for round in 0..3 {
        for i in 0..4u32 {
            t.send(ch.send, msg(round * 10 + i)).unwrap();
        }
        for i in 0..4u32 {
            assert_eq!(t.try_recv(ch.recv), Ok(msg(round * 10 + i)), "FIFO order");
        }
    }
}

#[test]
fn park_reports_the_waiter_for_the_sender_to_wake() {
    let mut t = T::new();
    let ch = t.create_channel().unwrap();
    let me = TaskId::new(3, 0);
    assert_eq!(t.park(ch.recv, me), Ok(None), "empty: the caller parks");
    assert_eq!(
        t.send(ch.send, msg(5)),
        Ok(Some(me)),
        "the send reports who to wake instead of waking it"
    );
    assert_eq!(t.send(ch.send, msg(6)), Ok(None), "the slot is taken once");
}

#[test]
fn park_rechecks_before_sleeping() {
    // Between a failed `try_recv` and `park` the caller drops the interrupt
    // mask, so a message can land. Parking without looking again would
    // sleep on a full mailbox until the next send.
    let mut t = T::new();
    let ch = t.create_channel().unwrap();
    t.send(ch.send, msg(8)).unwrap();
    assert_eq!(t.park(ch.recv, TaskId::new(3, 0)), Ok(Some(msg(8))));
}

#[test]
fn a_second_waiter_is_refused_not_swapped_in() {
    // The defect: overwriting left the displaced task `Blocked` with
    // nothing able to wake it, because the sender wakes whatever id is in
    // the slot.
    let mut t = T::new();
    let ch = t.create_channel().unwrap();
    assert_eq!(t.park(ch.recv, TaskId::new(3, 0)), Ok(None));
    assert_eq!(t.park(ch.recv, TaskId::new(4, 0)), Err(RecvError::Busy));
    assert_eq!(
        t.send(ch.send, msg(1)),
        Ok(Some(TaskId::new(3, 0))),
        "the first waiter is still the one woken"
    );
}

#[test]
fn a_refused_second_waiter_is_counted_as_a_state_refusal() {
    // The refusal was asserted; the counter beside it was not, so mutating
    // the increment survived. It is `state` and not `authority`: the caller
    // had every right, the kernel simply has one slot.
    let mut t = T::new();
    let ch = t.create_channel().unwrap();
    t.park(ch.recv, TaskId::new(3, 0)).unwrap();
    assert_eq!(t.park(ch.recv, TaskId::new(4, 0)), Err(RecvError::Busy));
    assert_eq!(t.refusals().state, 1);
    assert_eq!(t.refusals().authority, 0, "not an authority violation");
    assert_eq!(t.refusals().full, 0);
}

#[test]
fn every_authority_refusal_moves_the_count_by_exactly_one() {
    // Each entry point counts once and only once. An increment mutated to
    // a decrement or a multiply survives a test that only checks `!= 0`.
    let mut t = T::new();
    let bad = CapId::new(9999, 1);
    for expected in 1..=3 {
        t.send(bad, msg(1)).ok();
        assert_eq!(t.refusals().authority, expected * 2 - 1);
        t.try_recv(bad).ok();
        assert_eq!(t.refusals().authority, expected * 2);
    }
    assert_eq!(t.park(bad, TaskId::new(1, 0)), Err(RecvError::BadCap));
    assert_eq!(t.refusals().authority, 7, "park counts too");
}

#[test]
fn parking_twice_from_the_same_task_is_idempotent() {
    // A retry loop re-parks after a spurious wake; that must not be `Busy`.
    let mut t = T::new();
    let ch = t.create_channel().unwrap();
    assert_eq!(t.park(ch.recv, TaskId::new(3, 0)), Ok(None));
    assert_eq!(t.park(ch.recv, TaskId::new(3, 0)), Ok(None));
}

#[test]
fn channels_are_exhausted_by_endpoints_before_mailboxes() {
    // 16 endpoints at two per channel = 8, which is also the mailbox count.
    // Both limits bite at once here; the assertion pins which error a
    // caller sees so the message stays truthful if either constant moves.
    let mut t = T::new();
    for i in 0..8 {
        assert!(t.create_channel().is_ok(), "channel {i}");
    }
    assert_eq!(t.create_channel(), Err(CreateError::NoMailbox));
}

#[test]
fn separate_channels_do_not_share_a_mailbox() {
    let mut t = T::new();
    let a = t.create_channel().unwrap();
    let b = t.create_channel().unwrap();
    t.send(a.send, msg(1)).unwrap();
    assert_eq!(t.try_recv(b.recv), Err(RecvError::Empty), "b is untouched");
    assert_eq!(t.try_recv(a.recv), Ok(msg(1)));
}

#[test]
fn refusal_counts_only_move_for_their_own_reason() {
    let mut t = T::new();
    let ch = t.create_channel().unwrap();
    let before = t.refusals();
    assert_eq!(before, Refusals::default());

    t.send(CapId::new(9999, 1), msg(1)).ok();
    assert_eq!(t.refusals().authority, 1);
    assert_eq!(t.refusals().full, 0);
    assert_eq!(t.refusals().state, 0);

    for i in 0..4 {
        t.send(ch.send, msg(i)).unwrap();
    }
    t.send(ch.send, msg(9)).ok();
    assert_eq!(t.refusals().authority, 1, "unchanged by a full mailbox");
    assert_eq!(t.refusals().full, 1);
    assert_eq!(t.refusals().state, 0, "no bookkeeping error happened");
}
