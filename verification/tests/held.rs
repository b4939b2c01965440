use kernel_core::held::{DeclareError, HeldSet, MAX_HELD, ProvideError};
use kernel_core::cap::{CapId};

fn cap(n: u16) -> CapId {
    CapId::new(n, 1)
}

#[test]
fn a_vacancy_at_zero_does_not_move_one() {
    // The bug this module exists for. Console fails to mint, blob succeeds,
    // and an entry naming index 1 must still reach blob — not console's
    // former place, and not blob shifted down into index 0.
    let mut set = HeldSet::new();
    let console = set.declare("console").unwrap();
    let blob = set.declare("blob").unwrap();
    assert_eq!((console, blob), (0, 1));

    // Console's mint failed: nothing is provided at 0.
    set.provide(blob, cap(7)).unwrap();

    assert_eq!(set.as_slice(), &[None, Some(cap(7))]);
    assert_eq!(set.len(), 2, "a hole still occupies its position");
    assert!(!set.is_provided(console));
    assert!(set.is_provided(blob));
}

#[test]
fn declaring_returns_positions_in_order_and_names_them() {
    let mut set = HeldSet::new();
    assert_eq!(set.declare("console").unwrap(), 0);
    assert_eq!(set.declare("blob").unwrap(), 1);
    assert_eq!(set.name_of(0), Some("console"));
    assert_eq!(set.name_of(1), Some("blob"));
    assert_eq!(set.name_of(2), None, "not declared, so not named");
    assert_eq!(set.index_of("blob"), Some(1));
    assert_eq!(set.index_of("uart0"), None);
}

#[test]
fn a_duplicate_name_is_refused_and_names_the_position_that_holds_it() {
    // The packer resolves a name to an index; two positions under one name
    // would make that lookup ambiguous in exactly the direction used.
    let mut set = HeldSet::new();
    set.declare("console").unwrap();
    set.declare("blob").unwrap();
    assert_eq!(
        set.declare("console"),
        Err(DeclareError::Duplicate {
            name: "console",
            index: 0
        })
    );
    assert_eq!(set.len(), 2, "a refused declaration reserves nothing");
}

#[test]
fn the_last_position_declares_and_the_next_one_does_not() {
    let mut set = HeldSet::new();
    // Distinct names, since Duplicate is checked first.
    const NAMES: [&str; MAX_HELD] = ["a", "b", "c", "d", "e", "f", "g", "h"];
    for (i, name) in NAMES.iter().enumerate() {
        assert_eq!(set.declare(name).unwrap(), i as u8);
    }
    assert_eq!(
        set.declare("over"),
        Err(DeclareError::Full { max: MAX_HELD })
    );
    assert_eq!(set.len(), MAX_HELD);
}

#[test]
fn providing_an_undeclared_position_is_refused() {
    let mut set = HeldSet::new();
    let console = set.declare("console").unwrap();
    assert_eq!(
        set.provide(1, cap(3)),
        Err(ProvideError::OutOfRange {
            index: 1,
            declared: 1
        }),
        "the position after the last declared one"
    );
    set.provide(console, cap(3)).unwrap();
    assert_eq!(set.as_slice(), &[Some(cap(3))]);
}

#[test]
fn providing_twice_is_refused_rather_than_overwritten() {
    // Two owners minting one authority: the last writer would win in
    // silence, and which one ran last is not a thing anyone reasons about.
    let mut set = HeldSet::new();
    let console = set.declare("console").unwrap();
    set.provide(console, cap(1)).unwrap();
    assert_eq!(
        set.provide(console, cap(2)),
        Err(ProvideError::AlreadyProvided {
            index: 0,
            name: "console"
        })
    );
    assert_eq!(
        set.as_slice(),
        &[Some(cap(1))],
        "the first capability stands"
    );
}

#[test]
fn cap_of_answers_none_for_a_hole_and_for_a_position_that_was_never_declared() {
    // Both are "you cannot use this", and the caller that asks is the kernel
    // using its own service. Which of the two it is only matters to `bind`,
    // where it decides what a composition is told.
    let mut set = HeldSet::new();
    let console = set.declare("console").unwrap();
    let blob = set.declare("blob").unwrap();
    set.provide(blob, cap(4)).unwrap();

    assert_eq!(set.cap_of(console), None, "declared, never minted");
    assert_eq!(set.cap_of(blob), Some(cap(4)));
    assert_eq!(set.cap_of(2), None, "never declared");
}

#[test]
fn an_empty_vocabulary_binds_nothing() {
    let set = HeldSet::new();
    assert!(set.is_empty());
    assert_eq!(set.as_slice(), &[]);
    assert!(!set.is_provided(0));
}
