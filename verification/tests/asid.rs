use kernel_core::asid::{ASID_COUNT, AsidPool, KERNEL_ASID, pack_ttbr0, unpack_asid, unpack_root};

#[test]
fn pack_round_trip() {
    let root = 0x4_0000_u64;
    let asid = 7u16;
    let ttbr = pack_ttbr0(root, asid);
    assert_eq!(unpack_root(ttbr), root);
    assert_eq!(unpack_asid(ttbr), asid);
    assert_eq!(pack_ttbr0(root, KERNEL_ASID), root);
}

#[test]
fn kernel_asid_never_allocated() {
    let mut p = AsidPool::new();
    assert_eq!(p.free_count(), 255);
    for _ in 0..255 {
        let a = p.allocate().expect("pool should yield");
        assert_ne!(a, KERNEL_ASID);
    }
    assert!(p.allocate().is_none());
    assert_eq!(p.free_count(), 0);
}

#[test]
fn free_then_reuse() {
    let mut p = AsidPool::new();
    let a = p.allocate().unwrap();
    let b = p.allocate().unwrap();
    assert_ne!(a, b);
    assert!(p.free(a));
    assert!(!p.free(a), "double free is a no-op");
    assert!(!p.free(KERNEL_ASID));
    // Round-robin may hand out a higher tag first; drain until `a` returns.
    let mut saw_a = false;
    for _ in 0..ASID_COUNT {
        match p.allocate() {
            Some(x) if x == a => {
                saw_a = true;
                break;
            }
            Some(_) => {}
            None => break,
        }
    }
    assert!(saw_a, "freed ASID must become allocatable again");
    let _ = b;
}

#[test]
fn asid_field_masks_to_8_bits() {
    let ttbr = pack_ttbr0(0x1000, 0x1FF);
    assert_eq!(unpack_asid(ttbr), 0xFF);
}

#[test]
fn the_kernel_asid_reads_as_free_yet_is_never_handed_out() {
    let mut pool = AsidPool::new();
    assert!(pool.is_free(KERNEL_ASID));
    assert!(pool.is_free(300));
    assert!(!pool.free(KERNEL_ASID));
    for _ in 0..255 {
        assert_ne!(pool.allocate(), Some(KERNEL_ASID));
    }
    assert_eq!(pool.allocate(), None);
    assert!(pool.is_free(KERNEL_ASID));
}
