use kernel_core::reply::{RecvOutcome, RefusalDetail, Reply, ResolveOutcome, SendOutcome, StatDelta, TransferOutcome, WaitIrqOutcome, recv, resolve, send, transfer, unpack_name, wait_irq};
use kernel_core::syscall::Status;

fn only_authority(r: Reply, detail: RefusalDetail) {
    assert_eq!(r.status, Status::Authority);
    assert_eq!(r.payload, None);
    assert_eq!(r.detail, Some(detail), "x1 detail (ADR-0061)");
    assert_eq!(
        r.delta,
        StatDelta {
            authority_refusals: 1,
            ..StatDelta::default()
        }
    );
}

#[test]
fn recv_ok_carries_payload_and_exactly_one_recv_count() {
    let r = recv(RecvOutcome::Got {
        tag: 7,
        a: 42,
        b: 9,
    });
    assert_eq!(r.status, Status::Success);
    assert_eq!(r.payload, Some([7, 42, 9]));
    assert_eq!(
        r.delta,
        StatDelta {
            recvs: 1,
            ..StatDelta::default()
        }
    );
}

#[test]
fn recv_refusals_write_no_payload() {
    // A payload arrives only on Ok; every non-Ok outcome carries at most
    // the ADR-0061 detail in x1 and leaves x2/x3 alone.
    for outcome in [
        RecvOutcome::Empty,
        RecvOutcome::Busy,
        RecvOutcome::Cancelled,
        RecvOutcome::BadCap,
    ] {
        assert_eq!(recv(outcome).payload, None, "{outcome:?}");
    }
}

#[test]
fn recv_statuses_and_counters_match_the_abi() {
    assert_eq!(recv(RecvOutcome::Empty).status, Status::Empty);
    assert_eq!(recv(RecvOutcome::Empty).delta.recv_empties, 1);
    assert_eq!(recv(RecvOutcome::Busy).status, Status::Busy);
    assert_eq!(recv(RecvOutcome::Busy).delta, StatDelta::default());
    assert_eq!(recv(RecvOutcome::Cancelled).status, Status::Cancelled);
    assert_eq!(recv(RecvOutcome::Cancelled).delta, StatDelta::default());
    only_authority(recv(RecvOutcome::BadCap), RefusalDetail::BadCap);
}

#[test]
fn send_maps_full_off_the_authority_counter() {
    assert_eq!(send(SendOutcome::Sent).status, Status::Success);
    assert_eq!(send(SendOutcome::Sent).delta.sends, 1);
    let full = send(SendOutcome::Full);
    assert_eq!(full.status, Status::Full);
    assert_eq!(full.delta, StatDelta::default());
    only_authority(send(SendOutcome::Refused), RefusalDetail::BadCap);
}

#[test]
fn wait_irq_busy_is_state_not_authority() {
    assert_eq!(wait_irq(WaitIrqOutcome::Woken).status, Status::Success);
    assert_eq!(wait_irq(WaitIrqOutcome::Woken).delta.wait_irqs, 1);
    let busy = wait_irq(WaitIrqOutcome::Busy);
    assert_eq!(busy.status, Status::Busy);
    assert_eq!(busy.delta, StatDelta::default());
    only_authority(wait_irq(WaitIrqOutcome::BadCap), RefusalDetail::BadCap);
    only_authority(
        wait_irq(WaitIrqOutcome::NotIrqCap),
        RefusalDetail::NotIrqCap,
    );
}

#[test]
fn transfer_ok_counts_nothing_and_every_refusal_counts_once() {
    let ok = transfer(TransferOutcome::Moved);
    assert_eq!(ok.status, Status::Success);
    assert_eq!(ok.delta, StatDelta::default());
    assert_eq!(ok.detail, None);
    for (outcome, detail) in [
        (TransferOutcome::UnknownDest, RefusalDetail::UnknownDest),
        (TransferOutcome::BadFromSlot, RefusalDetail::BadFromSlot),
        (TransferOutcome::BadToTask, RefusalDetail::BadToTask),
        (TransferOutcome::ToSlotFull, RefusalDetail::ToSlotFull),
        (TransferOutcome::ToSlotOob, RefusalDetail::ToSlotOob),
        (
            TransferOutcome::Untransferable,
            RefusalDetail::Untransferable,
        ),
    ] {
        only_authority(transfer(outcome), detail);
    }
}

#[test]
fn resolve_causes_all_map_to_authority_today() {
    assert_eq!(resolve(ResolveOutcome::Installed).status, Status::Success);
    for (cause, detail) in [
        (ResolveOutcome::NoGrant, RefusalDetail::NoGrant),
        (ResolveOutcome::BadNameLen, RefusalDetail::BadNameLen),
        (ResolveOutcome::Missing, RefusalDetail::Missing),
        (ResolveOutcome::BadSlot, RefusalDetail::BadSlot),
    ] {
        only_authority(resolve(cause), detail);
    }
}

#[test]
fn detail_codes_are_the_documented_abi() {
    // ADR-0061's table, as executable rows. A renumbering fails here
    // before it fails an agent in the field.
    for (d, code) in [
        (RefusalDetail::BadCap, 1),
        (RefusalDetail::UnknownDest, 2),
        (RefusalDetail::BadFromSlot, 3),
        (RefusalDetail::BadToTask, 4),
        (RefusalDetail::ToSlotFull, 5),
        (RefusalDetail::ToSlotOob, 6),
        (RefusalDetail::Untransferable, 7),
        (RefusalDetail::NoGrant, 8),
        (RefusalDetail::BadNameLen, 9),
        (RefusalDetail::Missing, 10),
        (RefusalDetail::BadSlot, 11),
        (RefusalDetail::NotIrqCap, 12),
    ] {
        assert_eq!(d.as_u64(), code);
    }
}

#[test]
fn unpack_name_bounds_and_bytes() {
    assert_eq!(unpack_name(0, 0), None);
    assert_eq!(unpack_name(9, 0), None);
    let name = unpack_name(2, 0x6261).unwrap();
    assert_eq!(&name[..2], b"ab");
    assert_eq!(&name[2..], &[0u8; 6]);
    let full = unpack_name(8, u64::from_le_bytes(*b"deadbeef")).unwrap();
    assert_eq!(&full, b"deadbeef");
}
