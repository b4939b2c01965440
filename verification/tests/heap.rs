use kernel_core::heap::{FreeError, FreeList, GRAIN, HEADER, NIL, block_size, is_allocated, read_u64};

const ARENA: usize = 4096;

fn arena() -> (Vec<u8>, FreeList) {
    let mut buf = vec![0u8; ARENA];
    let list = FreeList::new(&mut buf).unwrap();
    (buf, list)
}

#[test]
fn a_fresh_arena_is_one_block() {
    let (buf, list) = arena();
    assert_eq!(list.free_blocks(&buf), 1);
    assert_eq!(list.free_bytes(&buf), ARENA);
}

#[test]
fn too_small_an_arena_is_rejected() {
    let mut tiny = vec![0u8; HEADER];
    assert!(FreeList::new(&mut tiny).is_none());
}

#[test]
fn allocations_do_not_overlap() {
    let (mut buf, mut list) = arena();
    let a = list.allocate(&mut buf, 64, 16).unwrap();
    let b = list.allocate(&mut buf, 64, 16).unwrap();
    assert!(a + 64 <= b || b + 64 <= a, "a={a} b={b} overlap");
}

#[test]
fn alignment_is_honoured() {
    let (mut buf, mut list) = arena();
    // Push the cursor off a large alignment first.
    list.allocate(&mut buf, 24, 16).unwrap();
    for align in [16usize, 32, 64, 256] {
        let p = list.allocate(&mut buf, 8, align).unwrap();
        assert_eq!(p % align, 0, "align {align} not honoured for {p}");
    }
}

#[test]
fn a_bad_alignment_or_empty_request_is_rejected() {
    let (mut buf, mut list) = arena();
    assert_eq!(list.allocate(&mut buf, 8, 24), None);
    assert_eq!(list.allocate(&mut buf, 0, 16), None);
}

#[test]
fn exhaustion_returns_none() {
    let (mut buf, mut list) = arena();
    assert!(list.allocate(&mut buf, ARENA * 2, 16).is_none());
}

/// The point of having a free list at all: memory comes back.
#[test]
fn freed_memory_is_reused() {
    let (mut buf, mut list) = arena();
    let before = list.free_bytes(&buf);

    let p = list.allocate(&mut buf, 128, 16).unwrap();
    assert!(list.free_bytes(&buf) < before);
    list.dealloc(&mut buf, p)
        .expect("a legitimate free must be accepted");
    assert_eq!(list.free_bytes(&buf), before, "all bytes must return");

    let q = list.allocate(&mut buf, 128, 16).unwrap();
    assert_eq!(p, q, "the same block should be handed out again");
}

/// Without coalescing, alternating alloc/free shreds the arena into
/// fragments that no large request can ever use again.
#[test]
fn adjacent_frees_coalesce_back_into_one_block() {
    let (mut buf, mut list) = arena();
    let a = list.allocate(&mut buf, 64, 16).unwrap();
    let b = list.allocate(&mut buf, 64, 16).unwrap();
    let c = list.allocate(&mut buf, 64, 16).unwrap();

    // Free out of order to exercise both merge directions.
    list.dealloc(&mut buf, b)
        .expect("a legitimate free must be accepted");
    list.dealloc(&mut buf, a)
        .expect("a legitimate free must be accepted");
    list.dealloc(&mut buf, c)
        .expect("a legitimate free must be accepted");

    assert_eq!(list.free_blocks(&buf), 1, "arena must be whole again");
    assert_eq!(list.free_bytes(&buf), ARENA);
}

/// The defect this defence exists for. Freeing twice used to insert the
/// same offset into an address-ordered list a second time, linking it to
/// itself; the allocator then handed the same memory to two owners.
#[test]
fn a_second_free_of_the_same_block_is_refused() {
    let (mut buf, mut list) = arena();
    let p = list.allocate(&mut buf, 64, 16).unwrap();
    list.dealloc(&mut buf, p).unwrap();

    assert_eq!(
        list.dealloc(&mut buf, p),
        Err(FreeError::NotAllocated),
        "the second free must be refused"
    );

    // Refused means the list is untouched, not merely that nothing crashed.
    assert_eq!(list.free_blocks(&buf), 1);
    assert_eq!(list.free_bytes(&buf), ARENA);

    // And the allocator still works: a cycle would have shown up here as
    // the same offset coming back twice.
    let a = list.allocate(&mut buf, 64, 16).unwrap();
    let b = list.allocate(&mut buf, 64, 16).unwrap();
    assert_ne!(a, b, "two live allocations must not share an address");
}

/// The case the sentinel cannot catch, and the mark must.
///
/// With an alignment above `GRAIN` the payload sits beyond `block + HEADER`,
/// so its back-pointer never overlaps the free-list next pointer: after the
/// first free those bytes still hold a perfectly valid block offset. Only
/// the allocated mark distinguishes the second free from the first.
#[test]
fn a_second_free_is_refused_when_the_back_pointer_survives_it() {
    let (mut buf, mut list) = arena();
    let p = list.allocate(&mut buf, 64, 64).unwrap();
    let block = read_u64(&buf, p - 8) as usize;
    list.dealloc(&mut buf, p).unwrap();

    assert_eq!(
        read_u64(&buf, p - 8) as usize,
        block,
        "this test is pointless unless the back-pointer really survived"
    );
    assert_eq!(list.dealloc(&mut buf, p), Err(FreeError::NotAllocated));
    assert_eq!(list.free_bytes(&buf), ARENA);
}

/// The third way a second free goes wrong: those bytes now hold a real
/// offset — the next free block — which is neither the sentinel nor this
/// block. Refused as `Corrupt`, because a block cannot start after the
/// payload it claims to own. Without that check the free tail would be
/// inserted into the list a second time.
#[test]
fn a_second_free_is_refused_when_the_next_pointer_points_forward() {
    let (mut buf, mut list) = arena();
    let _a = list.allocate(&mut buf, 64, 16).unwrap();
    let b = list.allocate(&mut buf, 64, 16).unwrap();
    let _c = list.allocate(&mut buf, 64, 16).unwrap();
    list.dealloc(&mut buf, b).unwrap();

    let recorded = read_u64(&buf, b - 8) as usize;
    assert_ne!(recorded as u64, NIL, "not the sentinel case");
    assert!(recorded > b, "the recorded offset points past the payload");
    let before = list.free_bytes(&buf);

    assert_eq!(list.dealloc(&mut buf, b), Err(FreeError::Corrupt));
    assert_eq!(
        list.free_bytes(&buf),
        before,
        "the tail must not be relisted"
    );
    assert_eq!(list.free_blocks(&buf), 2);
}

/// A block merged into its predecessor is no longer a block at all. Freeing
/// it again must still be refused, from the middle of a larger free block.
#[test]
fn a_second_free_after_coalescing_is_refused() {
    let (mut buf, mut list) = arena();
    let a = list.allocate(&mut buf, 64, 16).unwrap();
    let b = list.allocate(&mut buf, 64, 16).unwrap();
    list.dealloc(&mut buf, a).unwrap();
    list.dealloc(&mut buf, b).unwrap();
    assert_eq!(list.free_blocks(&buf), 1, "b should have merged into a");

    assert_eq!(list.dealloc(&mut buf, b), Err(FreeError::NotAllocated));
    assert_eq!(list.free_bytes(&buf), ARENA);
}

#[test]
fn a_pointer_this_allocator_never_returned_is_refused() {
    let (mut buf, mut list) = arena();
    let _live = list.allocate(&mut buf, 64, 16).unwrap();
    let before = list.free_bytes(&buf);

    // Past the end, before the first possible payload, and into the middle
    // of the arena where the recorded "block start" is whatever was there.
    assert_eq!(
        list.dealloc(&mut buf, ARENA + 64),
        Err(FreeError::OutOfBounds)
    );
    assert_eq!(list.dealloc(&mut buf, 0), Err(FreeError::OutOfBounds));
    assert!(list.dealloc(&mut buf, ARENA / 2).is_err());

    assert_eq!(list.free_bytes(&buf), before, "nothing may have changed");
}

/// The mark lives in the low bits of the size word. If that ever collided
/// with a real size, every allocation would be one byte short and the
/// arithmetic above it would drift silently.
#[test]
fn the_allocated_mark_does_not_disturb_the_size() {
    let (mut buf, mut list) = arena();
    let p = list.allocate(&mut buf, 100, 16).unwrap();
    let block = read_u64(&buf, p - 8) as usize;

    assert!(is_allocated(&buf, block));
    assert_eq!(block_size(&buf, block) % GRAIN, 0, "size must stay grained");
    assert!(block_size(&buf, block) >= 100 + HEADER);

    list.dealloc(&mut buf, p).unwrap();
    assert!(!is_allocated(&buf, block), "the free must clear the mark");
    assert_eq!(list.free_bytes(&buf), ARENA);
}

#[test]
fn a_hole_is_reused_before_the_tail() {
    let (mut buf, mut list) = arena();
    let a = list.allocate(&mut buf, 64, 16).unwrap();
    let _b = list.allocate(&mut buf, 64, 16).unwrap();
    list.dealloc(&mut buf, a)
        .expect("a legitimate free must be accepted");

    // First fit must take the hole left by `a`, not grow into fresh space.
    let c = list.allocate(&mut buf, 32, 16).unwrap();
    assert_eq!(c, a);
}

/// A long random-ish workload must never hand out overlapping memory and
/// must return every byte once everything is freed.
#[test]
fn a_churn_workload_stays_consistent_and_fully_reclaims() {
    let (mut buf, mut list) = arena();
    let total = list.free_bytes(&buf);
    let mut live: Vec<(usize, usize)> = Vec::new();

    // Deterministic pseudo-random sizes: reproducible failures matter more
    // than statistical coverage here.
    let mut seed = 0x2545_F491_4F6C_DD1Du64;
    let mut next = || {
        seed ^= seed << 13;
        seed ^= seed >> 7;
        seed ^= seed << 17;
        seed
    };

    const ROUNDS: usize = 2000;

    for round in 0..ROUNDS {
        let free_it = !live.is_empty() && (round % 3 == 0 || live.len() > 12);
        if free_it {
            let index = (next() as usize) % live.len();
            let (offset, _) = live.swap_remove(index);
            list.dealloc(&mut buf, offset)
                .expect("a legitimate free must be accepted");
            continue;
        }

        let size = 1 + (next() as usize % 200);
        let align = 1 << (next() as usize % 6); // 1..32
        let align = align.max(1);
        if let Some(offset) = list.allocate(&mut buf, size, align) {
            assert_eq!(offset % align, 0);
            // Fill with a marker and check nothing else was clobbered.
            for (a, b) in live.iter().map(|&(o, s)| (o, o + s)) {
                assert!(
                    offset + size <= a || b <= offset,
                    "round {round}: [{offset},{}) overlaps [{a},{b})",
                    offset + size
                );
            }
            live.push((offset, size));
        }
    }

    for (offset, _) in live {
        list.dealloc(&mut buf, offset)
            .expect("a legitimate free must be accepted");
    }
    assert_eq!(list.free_blocks(&buf), 1, "churn left the arena fragmented");
    assert_eq!(list.free_bytes(&buf), total, "churn leaked bytes");
}

#[test]
fn an_exact_fit_is_not_split() {
    // 4096 bytes: one request that leaves less than a block behind takes
    // the whole block.
    let (mut buf, mut list) = arena();
    let p = list.allocate(&mut buf, ARENA - HEADER - 16, 16).unwrap();
    assert_eq!(p, HEADER);
    assert_eq!(list.free_blocks(&buf), 0);
    assert_eq!(list.free_bytes(&buf), 0);
    assert_eq!(list.allocate(&mut buf, 16, 16), None);
    list.dealloc(&mut buf, p).unwrap();
    assert_eq!(list.free_bytes(&buf), ARENA);
}

#[test]
fn an_arena_that_is_not_a_multiple_of_the_grain_is_rounded_down() {
    let mut buf = vec![0u8; 100];
    let list = FreeList::new(&mut buf).unwrap();
    assert_eq!(list.free_bytes(&buf), 96);
    let mut tiny = vec![0u8; 31];
    assert!(FreeList::new(&mut tiny).is_none());
}

#[test]
fn a_wild_payload_past_the_header_area_is_refused() {
    let (mut buf, mut list) = arena();
    assert_eq!(list.dealloc(&mut buf, 8), Err(FreeError::OutOfBounds));
    assert_eq!(list.free_bytes(&buf), ARENA);
}

#[test]
fn writes_inside_an_allocation_leave_the_heap_intact() {
    let (mut buf, mut list) = arena();
    let a = list.allocate(&mut buf, 100, 32).unwrap();
    let b = list.allocate(&mut buf, 40, 16).unwrap();
    for byte in &mut buf[a..a + 100] {
        *byte = 0xAA;
    }
    for byte in &mut buf[b..b + 40] {
        *byte = 0x55;
    }
    list.dealloc(&mut buf, a).expect("a legitimate free must be accepted");
    list.dealloc(&mut buf, b).expect("a legitimate free must be accepted");
    assert_eq!(list.free_blocks(&buf), 1);
    assert_eq!(list.free_bytes(&buf), ARENA);
}

/// Every payload freed since the last allocation stays refused, however many
/// other frees came after it, and the refusal changes nothing.
#[test]
fn every_payload_freed_since_the_last_allocation_is_refused() {
    let (mut buf, mut list) = arena();
    let ps: Vec<usize> = (0..6).map(|_| list.allocate(&mut buf, 48, 16).unwrap()).collect();
    for &i in &[1usize, 4, 2, 0] {
        list.dealloc(&mut buf, ps[i]).unwrap();
    }
    let bytes = list.free_bytes(&buf);
    let blocks = list.free_blocks(&buf);
    for &i in &[1usize, 4, 2, 0] {
        let r = list.dealloc(&mut buf, ps[i]);
        assert!(r == Err(FreeError::NotAllocated) || r == Err(FreeError::Corrupt), "{:?}", r);
        assert_eq!(list.free_bytes(&buf), bytes);
        assert_eq!(list.free_blocks(&buf), blocks);
    }
    list.dealloc(&mut buf, ps[3]).unwrap();
    list.dealloc(&mut buf, ps[5]).unwrap();
    assert_eq!(list.free_blocks(&buf), 1);
    assert_eq!(list.free_bytes(&buf), ARENA);
}
