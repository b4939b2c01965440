use kernel_core::naming::{BindError, MAX_NAMES, MAX_NAME_LEN, ResolveError, Table};
use kernel_core::cap::{CapId};

#[test]
fn bind_resolve_round_trip() {
    let mut t = Table::new();
    let cap = CapId::new(3, 7);
    t.bind(b"console", cap).unwrap();
    assert_eq!(t.resolve(b"console"), Ok(cap));
}

#[test]
fn missing_name_is_refused() {
    let t = Table::new();
    assert_eq!(t.resolve(b"nope"), Err(ResolveError::Missing));
}

#[test]
fn empty_and_long_names_are_bad() {
    let mut t = Table::new();
    let cap = CapId::new(1, 1);
    assert_eq!(t.bind(b"", cap), Err(BindError::BadName));
    assert_eq!(t.resolve(b""), Err(ResolveError::BadName));
    let long = [b'a'; MAX_NAME_LEN + 1];
    assert_eq!(t.bind(&long, cap), Err(BindError::BadName));
}

#[test]
fn rebind_replaces_cap() {
    let mut t = Table::new();
    let a = CapId::new(1, 1);
    let b = CapId::new(2, 2);
    t.bind(b"svc", a).unwrap();
    t.bind(b"svc", b).unwrap();
    assert_eq!(t.resolve(b"svc"), Ok(b));
}

#[test]
fn unbind_then_missing() {
    let mut t = Table::new();
    t.bind(b"x", CapId::new(1, 1)).unwrap();
    t.unbind(b"x").unwrap();
    assert_eq!(t.resolve(b"x"), Err(ResolveError::Missing));
    assert_eq!(t.unbind(b"x"), Err(ResolveError::Missing));
}

#[test]
fn full_table_refuses_new_name() {
    let mut t = Table::new();
    for i in 0..MAX_NAMES {
        let name = [b'a' + i as u8];
        t.bind(&name, CapId::new(i as u16, 1)).unwrap();
    }
    assert_eq!(t.bind(b"z", CapId::new(9, 1)), Err(BindError::Full));
    // Rebind existing still works.
    t.bind(b"a", CapId::new(0, 2)).unwrap();
    assert_eq!(t.resolve(b"a"), Ok(CapId::new(0, 2)));
}

#[test]
fn names_are_exact_match() {
    let mut t = Table::new();
    t.bind(b"ab", CapId::new(1, 1)).unwrap();
    assert_eq!(t.resolve(b"a"), Err(ResolveError::Missing));
    assert_eq!(t.resolve(b"abc"), Err(ResolveError::Missing));
}
