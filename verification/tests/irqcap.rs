use kernel_core::irqcap::{INDEX_BASE, LookupError, MAX_IRQ_CAPS, MintError, Table};
use kernel_core::cap::{CapId};

#[test]
fn low_shaped_id_never_hits_a_live_entry() {
    // Same local index and generation as a live entry, band bit stripped:
    // the decode must refuse before the entry can match (the empty-table
    // variant could not tell the two apart — cargo-mutants showed it).
    let mut t = Table::new();
    let cap = t.mint(42).unwrap();
    let low = CapId::new(cap.index() & !INDEX_BASE, cap.generation());
    assert_eq!(t.lookup(low), Err(LookupError::BadCap));
}

#[test]
fn mint_lookup_round_trip() {
    let mut t = Table::new();
    let cap = t.mint(1).unwrap();
    assert_eq!(t.lookup(cap), Ok(1));
    assert!(cap.index() & INDEX_BASE != 0);
}

#[test]
fn ipc_style_index_is_refused() {
    let t = Table::new();
    // Endpoint-shaped CapId must not resolve as an IRQ notification.
    assert_eq!(t.lookup(CapId::new(0, 1)), Err(LookupError::BadCap));
}

#[test]
fn stale_generation_is_refused() {
    let mut t = Table::new();
    let cap = t.mint(2).unwrap();
    let stale = CapId::new(cap.index(), cap.generation().wrapping_add(1));
    assert_eq!(t.lookup(stale), Err(LookupError::BadCap));
    assert_eq!(t.lookup(cap), Ok(2));
}

#[test]
fn full_table_refuses() {
    let mut t = Table::new();
    for i in 0..MAX_IRQ_CAPS {
        t.mint(i as u32).unwrap();
    }
    assert_eq!(t.mint(99), Err(MintError::Full));
}

#[test]
fn two_cookies_two_caps() {
    let mut t = Table::new();
    let a = t.mint(1).unwrap();
    let b = t.mint(2).unwrap();
    assert_ne!(a, b);
    assert_eq!(t.lookup(a), Ok(1));
    assert_eq!(t.lookup(b), Ok(2));
}
