use kernel_core::bump::{Bump};

#[test]
fn allocations_are_sequential_and_aligned() {
    let mut b = Bump::new(0x1000, 0x2000).unwrap();
    assert_eq!(b.allocate(8, 16), Some(0x1000));
    assert_eq!(b.allocate(8, 16), Some(0x1010));
    assert_eq!(b.allocate(1, 64), Some(0x1040));
}

#[test]
fn empty_region_is_rejected() {
    assert_eq!(Bump::new(0x1000, 0x1000), None);
    assert_eq!(Bump::new(0x2000, 0x1000), None);
}

#[test]
fn exhaustion_returns_none_and_leaves_the_cursor_intact() {
    let mut b = Bump::new(0x1000, 0x1100).unwrap();
    assert_eq!(b.allocate(0x100, 1), Some(0x1000));
    let before = b.cursor();
    assert_eq!(b.allocate(1, 1), None);
    assert_eq!(b.cursor(), before, "a failed alloc must not consume space");
}

/// The alignment round-up is `cur + (align - 1)`. Near the top of the
/// address space that addition wraps, and a wrapped base compares below
/// `end`, so the allocator would hand out a pointer outside its region.
#[test]
fn alignment_round_up_must_not_wrap() {
    let mut b = Bump::new(usize::MAX - 8, usize::MAX).unwrap();
    assert_eq!(b.allocate(16, 4096), None);
}

/// Same wrap, reached through `size` instead of alignment.
#[test]
fn size_addition_must_not_wrap() {
    let mut b = Bump::new(0x1000, usize::MAX).unwrap();
    assert_eq!(b.allocate(usize::MAX, 16), None);
}

/// A bad alignment is a caller error, but a kernel allocator answering it
/// with a panic turns a recoverable request into a dead board.
#[test]
fn non_power_of_two_alignment_is_rejected_not_a_panic() {
    let mut b = Bump::new(0x1000, 0x2000).unwrap();
    assert_eq!(b.allocate(8, 24), None);
    assert_eq!(b.allocate(8, 0), None);
}

#[test]
fn remaining_tracks_consumption() {
    let mut b = Bump::new(0x1000, 0x1100).unwrap();
    assert_eq!(b.remaining(), 0x100);
    b.allocate(0x40, 1).unwrap();
    assert_eq!(b.remaining(), 0xC0);
}
