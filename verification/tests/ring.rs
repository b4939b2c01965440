use kernel_core::ring::{ByteRing};

#[test]
fn empty_pop_is_none() {
    let mut r = ByteRing::<8>::new();
    assert!(r.is_empty());
    assert_eq!(r.pop(), None);
}

#[test]
fn push_pop_fifo() {
    let mut r = ByteRing::<8>::new();
    assert!(r.push(1));
    assert!(r.push(2));
    assert_eq!(r.len(), 2);
    assert_eq!(r.pop(), Some(1));
    assert_eq!(r.pop(), Some(2));
    assert!(r.is_empty());
}

#[test]
fn full_rejects_without_overwrite() {
    let mut r = ByteRing::<4>::new();
    assert!(r.push(10));
    assert!(r.push(20));
    assert!(r.push(30));
    // Capacity N-1 = 3.
    assert!(!r.push(40));
    assert_eq!(r.pop(), Some(10));
    assert!(r.push(40));
    assert_eq!(r.pop(), Some(20));
    assert_eq!(r.pop(), Some(30));
    assert_eq!(r.pop(), Some(40));
}

#[test]
fn wraps_indices() {
    let mut r = ByteRing::<4>::new();
    for i in 0..20u8 {
        assert!(r.push(i));
        assert_eq!(r.pop(), Some(i));
    }
}

#[test]
fn len_counts_across_the_wrap() {
    let mut r = ByteRing::<4>::new();
    for i in 0..3u8 {
        assert!(r.push(i));
    }
    assert_eq!(r.len(), 3);
    assert_eq!(r.pop(), Some(0));
    assert_eq!(r.pop(), Some(1));
    assert!(r.push(7));
    assert!(r.push(8));
    assert_eq!(r.len(), 3);
    assert!(!r.is_empty());
}

