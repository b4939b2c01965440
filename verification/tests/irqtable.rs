use kernel_core::irqtable::{Dispatch, RegisterError, Table};

/// The table is generic over the handler, so these tests use a plain number
/// as one. That is not a shortcut — it is the fix for a test that failed
/// intermittently.
///
/// The first version used two empty `fn(u32)` items and compared them by
/// address. Two functions with identical bodies may be folded into one
/// symbol, so `a as usize == b as usize` sometimes held and sometimes did
/// not, depending on how codegen units happened to be partitioned. The
/// suite went red once and green on the next run with no change, which is
/// worse than a failure: nothing about the table was wrong either time.
///
/// Identity of the stored value is what these tests are about, and a `u32`
/// has one. `a_real_function_pointer_fits_the_table` below keeps the
/// instantiation the kernel actually uses covered, without asserting on an
/// address.
type T4 = Table<u32, 4>;

const A: u32 = 0xAAAA;
const B: u32 = 0xBBBB;

fn stored(d: Dispatch<u32>) -> Option<(u32, u32)> {
    match d {
        Dispatch::Handle { handler, cookie } => Some((handler, cookie)),
        _ => None,
    }
}

#[test]
fn a_registered_handler_comes_back_with_its_cookie() {
    let mut t = T4::new();
    assert_eq!(t.register(2, A, 7), Ok(()));
    assert_eq!(stored(t.lookup(2)), Some((A, 7)));
}

#[test]
fn a_real_function_pointer_fits_the_table() {
    // The instantiation the kernel uses. No address comparison: this asserts
    // that a `fn(u32)` can be stored and dispatched, and calling it through
    // the table is what proves the right one came back.
    fn record(cookie: u32) -> u32 {
        cookie + 1000
    }

    let mut t: Table<fn(u32) -> u32, 4> = Table::new();
    assert_eq!(t.register(1, record as fn(u32) -> u32, 42), Ok(()));
    let called_with = match t.lookup(1) {
        Dispatch::Handle { handler, cookie } => handler(cookie),
        other => panic!("expected a handler, got {other:?}"),
    };
    assert_eq!(called_with, 1042);
}

#[test]
fn sealing_refuses_every_later_registration() {
    // The invariant `src/irq` rests its safety argument on, and the one
    // nothing checked before this test existed: after sealing there is no
    // writer left, so the IRQ path's shared borrow cannot race one.
    let mut t = T4::new();
    assert!(!t.is_sealed());
    assert_eq!(t.register(1, A, 0), Ok(()));

    t.seal();
    assert!(t.is_sealed());
    assert_eq!(t.register(2, A, 0), Err(RegisterError::Sealed { irq: 2 }));
    // Including over a slot that already has a handler: overwriting is the
    // same write, and the seal is about writes and not about novelty.
    assert_eq!(t.register(1, B, 0), Err(RegisterError::Sealed { irq: 1 }));
    assert_eq!(
        stored(t.lookup(1)),
        Some((A, 0)),
        "the refused registration left the old handler in place"
    );
}

#[test]
fn a_sealed_table_gives_one_answer_even_for_a_bad_id() {
    // Ordering of the two checks. An out-of-range id on a sealed table is
    // refused as sealed, because a sealed table refuses everything alike;
    // reporting the range instead would suggest that fixing the id would
    // help.
    let mut t = T4::new();
    t.seal();
    assert_eq!(t.register(99, A, 0), Err(RegisterError::Sealed { irq: 99 }));
}

#[test]
fn the_last_slot_is_usable_and_the_next_one_is_not() {
    // The boundary itself. `>=` and `>` differ only here.
    let mut t = T4::new();
    assert_eq!(t.register(3, A, 0), Ok(()), "slot 3 of 4");
    assert_eq!(
        t.register(4, A, 0),
        Err(RegisterError::OutOfRange { irq: 4, slots: 4 })
    );
}

#[test]
fn an_unhandled_line_is_not_the_same_as_an_impossible_one() {
    // Both mean "nobody handles this" and the kernel counts them apart: an
    // in-range miss is a line somebody enabled and forgot, while an id past
    // the table is a chip reporting something this kernel does not believe
    // in. Collapsing them would hide the second inside the first.
    let t = T4::new();
    assert_eq!(t.lookup(0), Dispatch::Unhandled);
    assert_eq!(t.lookup(4), Dispatch::OutOfRange);
    assert_eq!(t.lookup(u32::MAX), Dispatch::OutOfRange);
}

#[test]
fn registering_twice_replaces_rather_than_accumulates() {
    let mut t = T4::new();
    assert_eq!(t.register(0, A, 1), Ok(()));
    assert_eq!(t.register(0, B, 2), Ok(()));
    assert_eq!(stored(t.lookup(0)), Some((B, 2)));
    assert_eq!(t.registered(), 1, "one line, not two");
}

#[test]
fn the_registered_count_tracks_lines_and_not_calls() {
    let mut t = T4::new();
    assert_eq!(t.registered(), 0);
    for irq in 0..4 {
        assert_eq!(t.register(irq, A, 0), Ok(()));
    }
    assert_eq!(t.registered(), 4);
    // A refused registration must not move it.
    assert!(t.register(4, A, 0).is_err());
    assert_eq!(t.registered(), 4);
}
