use kernel_core::loaderplan::{EntryPlan, PlanError, Refusal, Source, plan};
use kernel_core::manifest::{AgentEntry, BindError, MAX_SLOTS};
use kernel_core::agentstore::{MAX_AGENTS, Store};
use kernel_core::cap::CapId;

const PAGE: usize = 4096;
const IMAGE: [u8; 8] = [0; 8];

fn entry(name: &'static str, slots: [Option<u8>; MAX_SLOTS]) -> AgentEntry {
    AgentEntry {
        name,
        image: &IMAGE,
        text_pages: 1,
        stack_pages: 3,
        slots,
        may_resolve: false,
        device: None,
        packet_pool: false,
        home_cpu: 0,
    }
}

/// A vocabulary of two provided positions (ADR-0099 shape).
fn caps(n: usize) -> [Option<CapId>; 2] {
    let _ = n;
    [Some(CapId::new(1, 1)), Some(CapId::new(2, 1))]
}

#[test]
fn an_empty_manifest_is_its_own_outcome() {
    // Not "zero plans": nothing was asked, so nothing was denied, and the
    // loader prints a different line for it.
    let mut out = [EntryPlan::Refuse(Refusal::Invalid(BindError::BadGeometry {
        text_pages: 0,
        stack_pages: 0,
    })); 4];
    assert_eq!(plan(&[], &caps(2), PAGE, &mut out), Err(PlanError::Empty));
}

#[test]
fn a_short_output_buffer_is_refused_rather_than_truncated() {
    let table = [entry("a", [None; MAX_SLOTS]), entry("b", [None; MAX_SLOTS])];
    let mut out = [EntryPlan::Refuse(Refusal::Invalid(BindError::BadGeometry {
        text_pages: 0,
        stack_pages: 0,
    })); 1];
    assert_eq!(
        plan(&table, &caps(2), PAGE, &mut out),
        Err(PlanError::OutTooSmall {
            entries: 2,
            capacity: 1
        })
    );
}

#[test]
fn an_output_buffer_exactly_the_size_of_the_table_is_enough() {
    // The boundary the caller actually sits on: `loader::load_all` sizes
    // its buffer from `MAX_AGENTS` and the store cannot hold more, so
    // equal-length is the normal case and must not be refused. `<` rather
    // than `<=` is what says so; mutation found this untested, because
    // every other test here passes a buffer with room to spare.
    let table = [entry("a", [None; MAX_SLOTS]), entry("b", [None; MAX_SLOTS])];
    let mut out = [EntryPlan::Refuse(Refusal::Invalid(BindError::BadGeometry {
        text_pages: 0,
        stack_pages: 0,
    })); 2];
    assert_eq!(plan(&table, &caps(2), PAGE, &mut out), Ok(2));
    assert!(matches!(out[0], EntryPlan::Spawn { index: 0, .. }));
    assert!(matches!(out[1], EntryPlan::Spawn { index: 1, .. }));
}

#[test]
fn a_well_formed_entry_is_planned_with_its_slots_and_its_home() {
    let mut e = entry("beacon", [Some(1), None, None, None]);
    e.home_cpu = 1;
    let held = caps(2);
    let mut out = [EntryPlan::Refuse(Refusal::Invalid(BindError::BadGeometry {
        text_pages: 0,
        stack_pages: 0,
    })); 4];

    assert_eq!(plan(&[e], &held, PAGE, &mut out), Ok(1));
    match out[0] {
        EntryPlan::Spawn {
            index,
            home_cpu,
            slots,
        } => {
            assert_eq!(index, 0);
            assert_eq!(home_cpu, 1, "ADR-0088: the entry's home is carried");
            assert_eq!(slots[0], held[1], "slot 0 names held[1]");
            assert_eq!(slots[1], None);
        }
        other => panic!("expected a spawn plan, got {other:?}"),
    }
}

#[test]
fn an_entry_naming_a_capability_the_loader_lacks_is_refused_by_bind() {
    let e = entry("greedy", [Some(9), None, None, None]);
    let mut out = [EntryPlan::Refuse(Refusal::Invalid(BindError::BadGeometry {
        text_pages: 0,
        stack_pages: 0,
    })); 4];

    assert_eq!(plan(&[e], &caps(2), PAGE, &mut out), Ok(1));
    assert_eq!(
        out[0],
        EntryPlan::Refuse(Refusal::Unheld(BindError::NoSuchCapability {
            slot: 0,
            index: 9,
            held: 2,
        })),
        "the three fields the loader prints come from the refusal itself"
    );
}

#[test]
fn validate_refuses_before_bind_is_asked() {
    // The entry is *both* malformed and over-reaching. The order decides
    // which refusal the operator is shown, and it is the geometry — asked
    // before anything takes frames for a program that cannot fit.
    let mut e = entry("both", [Some(9), None, None, None]);
    e.text_pages = 0;
    let mut out = [EntryPlan::Spawn {
        index: 0,
        home_cpu: 0,
        slots: [None; MAX_SLOTS],
    }; 4];

    assert_eq!(plan(&[e], &caps(2), PAGE, &mut out), Ok(1));
    assert!(
        matches!(
            out[0],
            EntryPlan::Refuse(Refusal::Invalid(BindError::BadGeometry { .. }))
        ),
        "malformed wins over over-reaching, got {:?}",
        out[0]
    );
}

const BIG_IMAGE: [u8; PAGE + 1] = [0; PAGE + 1];

#[test]
fn an_image_larger_than_its_text_pages_is_invalid() {
    let mut e = entry("fat", [None; MAX_SLOTS]);
    e.text_pages = 1;
    e.image = &BIG_IMAGE;
    let mut out = [EntryPlan::Spawn {
        index: 0,
        home_cpu: 0,
        slots: [None; MAX_SLOTS],
    }; 4];

    assert_eq!(plan(&[e], &caps(2), PAGE, &mut out), Ok(1));
    assert!(matches!(
        out[0],
        EntryPlan::Refuse(Refusal::Invalid(BindError::ImageTooLarge { .. }))
    ));
}

#[test]
fn a_home_outside_the_cpu_range_is_invalid() {
    let mut e = entry("nowhere", [None; MAX_SLOTS]);
    e.home_cpu = 9;
    let mut out = [EntryPlan::Spawn {
        index: 0,
        home_cpu: 0,
        slots: [None; MAX_SLOTS],
    }; 4];

    assert_eq!(plan(&[e], &caps(2), PAGE, &mut out), Ok(1));
    assert!(matches!(
        out[0],
        EntryPlan::Refuse(Refusal::Invalid(BindError::BadHome { .. }))
    ));
}

#[test]
fn one_refusal_does_not_stop_the_entries_after_it() {
    // The loader reports and continues: a composition with one bad entry
    // still brings up the rest, which is what makes the refusal line
    // diagnostic rather than fatal.
    let bad = entry("bad", [Some(9), None, None, None]);
    let good = entry("good", [Some(0), None, None, None]);
    let mut out = [EntryPlan::Spawn {
        index: 0,
        home_cpu: 0,
        slots: [None; MAX_SLOTS],
    }; 4];

    assert_eq!(plan(&[bad, good], &caps(2), PAGE, &mut out), Ok(2));
    assert!(matches!(out[0], EntryPlan::Refuse(Refusal::Unheld(_))));
    match out[1] {
        EntryPlan::Spawn { index, slots, .. } => {
            assert_eq!(index, 1, "the index is the entry's, not the plan's");
            assert_eq!(slots[0], caps(2)[0]);
        }
        other => panic!("expected the second entry to be planned, got {other:?}"),
    }
}

#[test]
fn the_source_says_which_manifest_the_plan_came_from() {
    // Carried beside the plan rather than inferred from its length: a store
    // of two and a builtin of two are the same table and different facts.
    assert_ne!(Source::Store { agents: 2 }, Source::Builtin);
    assert_eq!(Source::Store { agents: 2 }, Source::Store { agents: 2 });
}
