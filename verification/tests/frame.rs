use kernel_core::frame::{FrameFreeError, FrameId, FramePool, MAX_FRAMES};

#[test]
fn alloc_exhausts_then_none() {
    let mut p = FramePool::new(3);
    assert_eq!(p.free_count(), 3);
    assert!(p.allocate().is_some());
    assert!(p.allocate().is_some());
    assert!(p.allocate().is_some());
    assert_eq!(p.free_count(), 0);
    assert_eq!(p.used_count(), 3);
    assert!(p.allocate().is_none());
}

#[test]
fn free_returns_to_pool() {
    let mut p = FramePool::new(2);
    let a = p.allocate().unwrap();
    let b = p.allocate().unwrap();
    assert!(p.allocate().is_none());
    p.free(a).unwrap();
    assert_eq!(p.free_count(), 1);
    let c = p.allocate().unwrap();
    assert_eq!(c, a);
    p.free(b).unwrap();
    p.free(c).unwrap();
    assert_eq!(p.free_count(), 2);
}

#[test]
fn double_free_refused() {
    let mut p = FramePool::new(1);
    let a = p.allocate().unwrap();
    p.free(a).unwrap();
    assert_eq!(p.free(a), Err(FrameFreeError::NotAllocated));
    assert_eq!(p.free_count(), 1);
}

#[test]
fn foreign_index_refused() {
    let mut p = FramePool::new(2);
    assert_eq!(
        p.free(FrameId::from_index(99)),
        Err(FrameFreeError::OutOfBounds)
    );
    assert_eq!(
        p.free(FrameId::from_index(1)),
        Err(FrameFreeError::NotAllocated)
    );
}

#[test]
fn capacity_clamped_to_max() {
    let p = FramePool::new((MAX_FRAMES as u32) + 100);
    assert_eq!(p.capacity(), MAX_FRAMES as u32);
    assert_eq!(p.free_count(), MAX_FRAMES as u32);
}

#[test]
fn empty_pool() {
    let mut p = FramePool::empty();
    assert_eq!(p.capacity(), 0);
    assert!(p.allocate().is_none());
}

#[test]
fn alloc_prefers_low_indices_first() {
    let mut p = FramePool::new(4);
    let a = p.allocate().unwrap().index();
    let b = p.allocate().unwrap().index();
    assert_eq!(a, 0);
    assert_eq!(b, 1);
}
