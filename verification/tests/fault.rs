use kernel_core::fault::{describe};

#[test]
fn el0_write_to_a_kernel_page_is_a_permission_fault() {
    // The `el0: FAULT ok` gate prints this exact syndrome every boot, on
    // QEMU and on silicon. Reading it by hand is what this module removes:
    // the address translates fine — EL0 simply may not write there — and
    // "translation fault" was this author's first guess at the hex.
    let f = describe(0x9200_004f);
    assert_eq!(f.class, "data abort, lower EL");
    assert!(f.far_valid);
    let d = f.detail.unwrap();
    assert_eq!(d.kind, "permission fault");
    assert_eq!(d.level, Some(3));
    assert_eq!(d.write, Some(true));
}

#[test]
fn current_el_permission_fault_read() {
    // EC=0x25, DFSC=0x0d (permission fault, level 1), WnR clear.
    let f = describe((0x25 << 26) | 0x0d);
    assert_eq!(f.class, "data abort, current EL");
    let d = f.detail.unwrap();
    assert_eq!(d.kind, "permission fault");
    assert_eq!(d.level, Some(1));
    assert_eq!(d.write, Some(false));
}

#[test]
fn external_abort_is_the_probe_signature() {
    // What `arch::probe` recognises: EC=0x25, DFSC=0x10, no level.
    let d = describe((0x25 << 26) | 0x10).detail.unwrap();
    assert_eq!(d.kind, "synchronous external abort");
    assert_eq!(d.level, None);
}

#[test]
fn instruction_abort_has_no_write_bit() {
    let f = describe((0x21 << 26) | 0x07);
    assert_eq!(f.class, "instruction abort, current EL");
    let d = f.detail.unwrap();
    assert_eq!(d.kind, "translation fault");
    assert_eq!(d.write, None);
}

#[test]
fn svc_has_no_abort_detail_and_no_address() {
    let f = describe(0x5600_0000);
    assert_eq!(f.class, "SVC from AArch64");
    assert!(f.detail.is_none());
    assert!(!f.far_valid);
}

#[test]
fn unknown_class_says_so_rather_than_guessing() {
    let f = describe(0x2c << 26);
    assert_eq!(f.class, "floating-point exception");
    let f = describe(0x1f << 26);
    assert_eq!(f.class, "unrecognised exception class");
}
