use kernel_core::manifest::{AgentEntry, BindError, DeviceGrant, MAX_SLOTS, ResolvedWindow, bind, bind_window};
use kernel_core::cap::{CapId, from_slot};
use kernel_core::held::{Window};
use kernel_core::paging::{Perms};
use kernel_core::tasks::{N_CPUS};

const IMAGE: [u8; 16] = [0xaa; 16];

fn entry(slots: [Option<u8>; MAX_SLOTS]) -> AgentEntry {
    AgentEntry {
        name: "t",
        image: &IMAGE,
        text_pages: 1,
        stack_pages: 3,
        slots,
        may_resolve: false,
        device: None,
        packet_pool: false,
        home_cpu: 0,
    }
}

#[test]
fn manifest_home_cpu_out_of_range_is_refused() {
    let mut e = entry([None; MAX_SLOTS]);
    e.home_cpu = N_CPUS as u8;
    assert_eq!(
        e.validate(4096),
        Err(BindError::BadHome {
            home_cpu: N_CPUS as u8,
            max: N_CPUS as u8,
        })
    );
}

#[test]
fn an_index_the_loader_does_not_hold_is_refused_rather_than_wrapped() {
    // The assertion the manifest exists for. Index 9 against two held
    // capabilities is not a panic, not a silent `None`, and above all not a
    // read past the end of the loader's list — it is a refusal that names
    // the slot, the index, and how many the loader actually had.
    let held = [Some(CapId::new(1, 1)), Some(CapId::new(2, 1))];
    assert_eq!(
        bind(&entry([Some(9), None, None, None]), &held),
        Err(BindError::NoSuchCapability {
            slot: 0,
            index: 9,
            held: 2
        })
    );
}

#[test]
fn the_last_held_index_binds_and_the_next_one_does_not() {
    // The off-by-one, on the other side of the same boundary `from_slot`
    // guards: `index >= len` and `index > len` differ only here.
    let held = [Some(CapId::new(1, 1)), Some(CapId::new(2, 1))];
    assert_eq!(
        bind(&entry([Some(1), None, None, None]), &held).unwrap()[0],
        Some(CapId::new(2, 1))
    );
    assert!(bind(&entry([Some(2), None, None, None]), &held).is_err());
}

#[test]
fn an_entry_that_names_nothing_gets_nothing() {
    // Denied by default (ADR-0017 §3): an agent with no slots is not an
    // agent with the loader's own authority.
    let held = [Some(CapId::new(1, 1))];
    assert_eq!(
        bind(&entry([None; MAX_SLOTS]), &held),
        Ok([None; MAX_SLOTS])
    );
}

#[test]
fn slots_keep_their_positions_including_the_holes() {
    // Slot 0 empty and slot 1 filled is the convention the demo agents use,
    // so that a program which miscounts finds nothing rather than something
    // adjacent. A bind that compacted the array would silently repair the
    // miscount and destroy the property.
    let held = [Some(CapId::new(5, 2)), Some(CapId::new(6, 2))];
    let bound = bind(&entry([None, Some(0), None, Some(1)]), &held).unwrap();
    assert_eq!(
        bound,
        [None, Some(CapId::new(5, 2)), None, Some(CapId::new(6, 2))]
    );
}

#[test]
fn an_empty_loader_can_grant_nothing_and_says_so() {
    assert_eq!(
        bind(&entry([Some(0), None, None, None]), &[]),
        Err(BindError::NoSuchCapability {
            slot: 0,
            index: 0,
            held: 0
        })
    );
}

#[test]
fn a_declared_position_that_holds_nothing_is_a_different_refusal() {
    // ADR-0099. Index 1 exists in the vocabulary and is empty, because the
    // service behind it failed to start. Reporting NoSuchCapability here
    // would tell whoever reads the console that the composition asked for
    // too much, when what happened is that the kernel came up short.
    let held = [Some(CapId::new(1, 1)), None];
    assert_eq!(
        bind(&entry([Some(1), None, None, None]), &held),
        Err(BindError::HeldVacant { slot: 0, index: 1 })
    );
    assert_ne!(
        bind(&entry([Some(1), None, None, None]), &held),
        Err(BindError::NoSuchCapability {
            slot: 0,
            index: 1,
            held: 2
        }),
        "the two refusals must not collapse into one"
    );
}

#[test]
fn a_vacancy_does_not_shift_the_positions_after_it() {
    // The whole point of a vocabulary with holes: index 1 still reaches the
    // capability declared at 1, with 0 empty. A list built from what was
    // minted would have handed slot 0's grant to whoever asked for 1.
    let held = [None, Some(CapId::new(6, 2))];
    assert_eq!(
        bind(&entry([None, Some(1), None, None]), &held).unwrap(),
        [None, Some(CapId::new(6, 2)), None, None]
    );
    assert_eq!(
        bind(&entry([Some(0), None, None, None]), &held),
        Err(BindError::HeldVacant { slot: 0, index: 0 }),
        "and the hole itself is still refused"
    );
}

#[test]
fn a_window_past_the_vocabulary_is_refused_by_arithmetic() {
    // ADR-0100's security property, stated as a test: the entry names an
    // index, so the only physical addresses reachable are the ones the
    // board declared. There is no check to forget, and no range to widen.
    let mut e = entry([None; MAX_SLOTS]);
    e.device = Some(DeviceGrant {
        va: 0x2000,
        window: 1,
    });
    let windows = [Some(Window {
        pa: 0xfe10_4000,
        perms: Perms::user_rw(),
    })];
    assert_eq!(
        bind_window(&e, &windows),
        Err(BindError::NoSuchWindow {
            index: 1,
            windows: 1
        })
    );
    // And an empty vocabulary refuses everything, which is what a product
    // that declares no window is entitled to.
    assert_eq!(
        bind_window(&e, &[]),
        Err(BindError::NoSuchWindow {
            index: 1,
            windows: 0
        })
    );
}

#[test]
fn an_absent_device_is_a_different_refusal_from_an_undeclared_one() {
    // Same distinction ADR-0099 drew for capabilities, for the same reason:
    // "this board does not have that device" and "your composition asked
    // for a device nobody declared" are different problems with different
    // owners, and one console line each.
    let mut e = entry([None; MAX_SLOTS]);
    e.device = Some(DeviceGrant {
        va: 0x2000,
        window: 0,
    });
    assert_eq!(
        bind_window(&e, &[None]),
        Err(BindError::WindowVacant { index: 0 })
    );
    assert_ne!(
        bind_window(&e, &[None]),
        Err(BindError::NoSuchWindow {
            index: 0,
            windows: 1
        }),
        "the two refusals must not collapse into one"
    );
}

#[test]
fn the_physical_address_comes_from_the_board_and_the_va_from_the_entry() {
    // Each half from the party entitled to decide it. A composition that
    // could choose the pa would be minting memory; one that could not
    // choose the va could not lay out its own window.
    let mut e = entry([None; MAX_SLOTS]);
    e.device = Some(DeviceGrant {
        va: 0x9000,
        window: 1,
    });
    let windows = [
        Some(Window {
            pa: 0xfe20_1000,
            perms: Perms::user_rw(),
        }),
        Some(Window {
            pa: 0xfe10_4000,
            perms: Perms::user_ro(),
        }),
    ];
    assert_eq!(
        bind_window(&e, &windows).unwrap(),
        Some(ResolvedWindow {
            va: 0x9000,
            pa: 0xfe10_4000,
            perms: Perms::user_ro(),
        }),
        "index 1's page and index 1's rights, not index 0's"
    );
}

#[test]
fn an_entry_that_names_no_device_resolves_to_nothing() {
    // Denied by default, the device half: an agent with no grant is not an
    // agent with the first window.
    let e = entry([None; MAX_SLOTS]);
    assert_eq!(
        bind_window(
            &e,
            &[Some(Window {
                pa: 0xfe10_4000,
                perms: Perms::user_rw()
            })]
        ),
        Ok(None)
    );
}

#[test]
fn geometry_is_refused_before_a_frame_is_taken() {
    let mut e = entry([None; MAX_SLOTS]);
    assert_eq!(e.validate(4096), Ok(()));

    e.text_pages = 0;
    assert_eq!(
        e.validate(4096),
        Err(BindError::BadGeometry {
            text_pages: 0,
            stack_pages: 3
        })
    );

    e.text_pages = 1;
    e.stack_pages = 0;
    assert!(
        e.validate(4096).is_err(),
        "a window with no stack is not a window"
    );
}

#[test]
fn an_image_larger_than_its_declared_text_is_refused() {
    // The bound `poke_user` enforces at write time, checked here at load
    // time so the refusal names the entry instead of a page.
    let e = entry([None; MAX_SLOTS]);
    assert_eq!(
        e.validate(8),
        Err(BindError::ImageTooLarge {
            bytes: 16,
            capacity: 8
        })
    );
    assert_eq!(
        e.validate(16),
        Ok(()),
        "exactly filling the text is not too large"
    );
}

#[test]
fn total_pages_is_text_plus_stack() {
    assert_eq!(entry([None; MAX_SLOTS]).total_pages(), 4);
}
