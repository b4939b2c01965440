use kernel_core::cap::{CLASS_PAYLOAD_MASK, CapClass, CapId, CapRights, IRQ_BAND, SlotError, TASK_BAND, from_slot};

#[test]
fn classify_decodes_all_four_quadrants() {
    assert_eq!(CapId::new(0, 1).classify(), CapClass::Endpoint(0));
    assert_eq!(CapId::new(31, 1).classify(), CapClass::Endpoint(31));
    assert_eq!(CapId::new(TASK_BAND | 5, 1).classify(), CapClass::Task(5));
    assert_eq!(CapId::new(IRQ_BAND | 3, 1).classify(), CapClass::Irq(3));
    assert_eq!(
        CapId::new(TASK_BAND | IRQ_BAND | 7, 1).classify(),
        CapClass::Invalid
    );
}

#[test]
fn classify_payload_is_bounded_by_the_class_bits() {
    // The payload never carries a band bit back out: the top of the
    // payload range still decodes to its own class.
    assert_eq!(
        CapId::new(CLASS_PAYLOAD_MASK, 1).classify(),
        CapClass::Endpoint(CLASS_PAYLOAD_MASK)
    );
    assert_eq!(
        CapId::new(TASK_BAND | CLASS_PAYLOAD_MASK, 1).classify(),
        CapClass::Task(CLASS_PAYLOAD_MASK)
    );
}

#[test]
fn the_last_slot_is_in_range_and_the_next_one_is_not() {
    // The off-by-one that matters: `slot >= len` and `slot > len` differ
    // only here, and the difference is an agent reading one word past its
    // own capability table.
    let caps = [Some(CapId::new(1, 1)), Some(CapId::new(2, 1))];
    assert_eq!(from_slot(&caps, 1), Ok(CapId::new(2, 1)));
    assert_eq!(
        from_slot(&caps, 2),
        Err(SlotError::OutOfRange { slot: 2, slots: 2 })
    );
}

#[test]
fn an_empty_slot_is_not_an_out_of_range_slot() {
    // Same refusal for the agent, different fact for the reader: one is a
    // grant that never happened, the other is an agent naming a table that
    // is not its own size.
    let caps = [None, Some(CapId::new(9, 3))];
    assert_eq!(from_slot(&caps, 0), Err(SlotError::Empty { slot: 0 }));
    assert!(matches!(
        from_slot(&caps, 7),
        Err(SlotError::OutOfRange { .. })
    ));
}

#[test]
fn an_empty_table_names_nothing_at_all() {
    // A task spawned with no capabilities. Every slot is out of range,
    // including slot 0 — there is no "default" capability to fall back to.
    let caps: [Option<CapId>; 0] = [];
    assert_eq!(
        from_slot(&caps, 0),
        Err(SlotError::OutOfRange { slot: 0, slots: 0 })
    );
}

#[test]
fn pack_unpack() {
    let c = CapId::new(3, 0xAB);
    assert_eq!(c.index(), 3);
    assert_eq!(c.generation(), 0xAB);
    assert_eq!(CapId::from_raw(c.raw()), c);
}

#[test]
fn an_id_survives_the_extremes_of_both_fields() {
    // The two fields are `u16` and the struct is `u32`: a generation of
    // 0xFFFF must not bleed into the index, and vice versa.
    for (index, generation) in [(0u16, 0u16), (0xFFFF, 0), (0, 0xFFFF), (0xFFFF, 0xFFFF)] {
        let c = CapId::new(index, generation);
        assert_eq!(c.index(), index, "index for {index:#x}/{generation:#x}");
        assert_eq!(
            c.generation(),
            generation,
            "gen for {index:#x}/{generation:#x}"
        );
        assert_eq!(CapId::from_raw(c.raw()), c);
    }
}

#[test]
fn ids_differing_only_in_generation_are_distinct() {
    // This is the whole point of the generation field: the same slot, at
    // two different times, must not compare equal. `ipc::lookup_endpoint`
    // relies on it, and no code path exercises that today — see the module
    // docs.
    assert_ne!(CapId::new(7, 1), CapId::new(7, 2));
    assert_eq!(CapId::new(7, 1).index(), CapId::new(7, 2).index());
}

#[test]
fn empty_rights_grant_nothing_and_are_contained_by_everything() {
    let none = CapRights::empty();
    assert!(!none.contains(CapRights::send()));
    assert!(!none.contains(CapRights::recv()));
    // A required set of "nothing" is satisfied by any holder — the identity
    // `lookup_endpoint` would rely on if it were ever asked for no rights.
    assert!(none.contains(none));
    assert!(CapRights::send().contains(none));
}

#[test]
fn send_and_recv_are_distinct_bits() {
    // If these ever collided, every send capability would also be a receive
    // capability and `lookup_endpoint` would stop distinguishing them.
    assert!(!CapRights::send().contains(CapRights::recv()));
    assert!(!CapRights::recv().contains(CapRights::send()));
    assert!(
        CapRights::send()
            .union(CapRights::recv())
            .contains(CapRights::send())
    );

    // Each right is a bit that is actually set. Asserting only that the two
    // differ let a mutation turn `RECV` into the empty set and stay green:
    // an empty right is contained by everything, so every check against it
    // would have passed.
    assert!(!CapRights::empty().contains(CapRights::send()));
    assert!(!CapRights::empty().contains(CapRights::recv()));
    assert!(CapRights::send().contains(CapRights::send()));
    assert!(CapRights::recv().contains(CapRights::recv()));
    assert!(!CapRights::send().contains(CapRights::irq()));
    assert!(!CapRights::recv().contains(CapRights::irq()));
    assert!(!CapRights::irq().contains(CapRights::send()));
    assert!(!CapRights::empty().contains(CapRights::irq()));
    assert!(CapRights::irq().contains(CapRights::irq()));
}

#[test]
fn union_is_a_union_and_not_a_difference() {
    // Overlapping rights, which the disjoint SEND/RECV pair cannot show:
    // `|` and `^` agree on disjoint bits and disagree here. Under `^`,
    // granting a right twice would silently revoke it.
    assert_eq!(CapRights::send().union(CapRights::send()), CapRights::send());
    let both = CapRights::send().union(CapRights::recv());
    assert_eq!(both.union(CapRights::send()), both);
    assert!(both.union(CapRights::send()).contains(CapRights::send()));
}

#[test]
fn rights_contains() {
    let r = CapRights::send().union(CapRights::recv());
    assert!(r.contains(CapRights::send()));
    assert!(r.contains(CapRights::recv()));
    assert!(!CapRights::send().contains(CapRights::recv()));
}
