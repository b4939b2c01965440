use kernel_core::layout::{Boundaries, DeviceWindow, GuardedStack, LayoutError, Region, UserWindow, WindowError, kernel_regions, validate_guarded_stack};
use kernel_core::paging::{MemKind, Perms};

/// The window `bsp::rpi4` fixes: 4 pages of 4 KiB at 0x4000_0000.
const WIN: UserWindow = UserWindow {
    base: 0x4000_0000,
    pages: 4,
    frame: 0x1000,
};

#[test]
fn the_window_starts_where_el0_enters_and_ends_where_its_stack_begins() {
    assert_eq!(WIN.entry(), 0x4000_0000);
    assert_eq!(WIN.stack_top(), 0x4000_4000, "SP_EL0 starts at the top");
    assert!(WIN.validate().is_ok());
}

#[test]
fn exactly_one_page_is_text() {
    // W^X inside the user window too: the executable page is never one of
    // the writable ones.
    assert!(WIN.is_text_page(0));
    for i in 1..WIN.pages {
        assert!(!WIN.is_text_page(i), "page {i} is stack");
    }
}

#[test]
fn a_window_with_no_room_for_a_stack_is_refused() {
    let cramped = UserWindow { pages: 1, ..WIN };
    assert_eq!(cramped.validate(), Err(WindowError::TooSmall));
}

#[test]
fn a_text_write_may_fill_the_page_and_no_more() {
    assert_eq!(WIN.bound_text_write(0, 0x1000), Ok(()), "exactly one page");
    assert_eq!(
        WIN.bound_text_write(0, 0x1001),
        Err(WindowError::OutOfTextPage)
    );
    assert_eq!(WIN.bound_text_write(0xFFF, 1), Ok(()), "last byte");
    assert_eq!(
        WIN.bound_text_write(0xFFF, 2),
        Err(WindowError::OutOfTextPage)
    );
}

#[test]
fn a_write_past_the_text_page_is_refused_even_though_the_window_is_bigger() {
    // The defect. The bound used to be `pages * frame`, which made every
    // offset in the window look legal — while the write went to the
    // physical address of page 0 alone, so anything past 0x1000 landed in
    // whatever frame followed it in the pool.
    assert_eq!(
        WIN.bound_text_write(0x1000, 1),
        Err(WindowError::OutOfTextPage),
        "still inside the window, already outside the page being written"
    );
    assert_eq!(
        WIN.bound_text_write(0x3000, 4),
        Err(WindowError::OutOfTextPage)
    );
}

#[test]
fn an_offset_that_would_overflow_is_refused_not_wrapped() {
    // `offset + len` on a 64-bit host wraps to something small and looks
    // legal. The check is `checked_add` for that reason.
    assert_eq!(
        WIN.bound_text_write(usize::MAX, 1),
        Err(WindowError::OutOfTextPage)
    );
    assert_eq!(
        WIN.bound_text_write(usize::MAX - 1, 8),
        Err(WindowError::OutOfTextPage)
    );
}

#[test]
fn an_empty_write_is_allowed_anywhere_inside_the_page() {
    assert_eq!(WIN.bound_text_write(0, 0), Ok(()));
    assert_eq!(WIN.bound_text_write(0x1000, 0), Ok(()), "the boundary");
}

/// Boundaries with the shape `link.ld` produces, at round numbers.
fn bounds() -> Boundaries {
    Boundaries {
        image_start: 0x8_0000,
        text: (0x8_0000, 0x8_6000),
        rodata: (0x8_6000, 0x8_7000),
        data: (0x8_7000, 0x8_8000),
        pagetables: (0x8_8000, 0x9_8000),
        exception_stack: GuardedStack {
            guard: (0x9_8000, 0x9_9000),
            stack: (0x9_9000, 0x9_D000),
            name: "exception stack",
        },
        kernel_stack: GuardedStack {
            guard: (0x9_D000, 0x9_E000),
            stack: (0x9_E000, 0xA_E000),
            name: "stack",
        },
        heap: (0xA_E000, 0x40A_E000),
        // 2 MiB frame pool immediately after heap (ADR-0012 shape).
        frame_pool: (0x40A_E000, 0x40A_E000 + 0x20_0000),
    }
}

fn devices() -> [DeviceWindow; 2] {
    [
        DeviceWindow {
            base: 0xFE00_0000,
            len: 0x0100_0000,
            name: "peripherals",
        },
        DeviceWindow {
            base: 0xFF84_0000,
            len: 0x4000,
            name: "GIC",
        },
    ]
}

fn build(b: &Boundaries) -> Result<[Region; 11], LayoutError> {
    let mut out = [Region {
        base: 0,
        len: 0,
        kind: MemKind::NormalWb,
        perms: Perms::rw(),
        name: "unused",
    }; 11];
    kernel_regions(b, &devices(), &mut out)?;
    Ok(out)
}

/// The exact addresses the linker produces on the board, as reported by a
/// boot-time probe. Guards against reasoning about the validator instead of
/// running it.
#[test]
fn the_real_board_layout_is_accepted() {
    let b = Boundaries {
        image_start: 0x8_0000,
        text: (0x8_0000, 0x8_6000),
        rodata: (0x8_6000, 0x8_7000),
        data: (0x8_7000, 0x8_C000),
        pagetables: (0x8_C000, 0x9_C000),
        exception_stack: GuardedStack {
            guard: (0x9_C000, 0x9_D000),
            stack: (0x9_D000, 0xA_1000),
            name: "exception stack",
        },
        kernel_stack: GuardedStack {
            guard: (0xA_1000, 0xA_2000),
            stack: (0xA_2000, 0xB_2000),
            name: "stack",
        },
        heap: (0xB_2000, 0x40B_2000),
        frame_pool: (0x40B_2000, 0x40B_2000 + 0x20_0000),
    };
    for guarded in [&b.exception_stack, &b.kernel_stack] {
        assert_eq!(guarded.guard.1 - guarded.guard.0, 0x1000, "one page");
        assert_eq!(guarded.guard.1, guarded.stack.0, "guard touches its stack");
    }
    build(&b).expect("the real layout must validate");
}

#[test]
fn the_expected_layout_builds() {
    let regions = build(&bounds()).unwrap();
    assert_eq!(regions.len(), 11);
    assert_eq!(regions[1].name, ".text");
    assert_eq!(regions[1].perms, Perms::rx());
    assert_eq!(regions[8].name, "frame pool");
}

/// The invariant W^X exists for. A permission table edit that made any
/// region writable *and* executable would otherwise map fine and protect
/// nothing.
#[test]
fn nothing_is_both_writable_and_executable() {
    for r in build(&bounds()).unwrap() {
        assert!(!r.is_write_execute(), "{} is W+X", r.name);
    }
}

#[test]
fn regions_are_ascending_and_disjoint() {
    let regions = build(&bounds()).unwrap();
    for pair in regions.windows(2) {
        assert!(
            pair[0].end() <= pair[1].base,
            "{} overlaps {}",
            pair[0].name,
            pair[1].name
        );
    }
}

/// The guard page is the whole point of the stack fence: if any region
/// covers it, an overflow writes real memory instead of faulting.
#[test]
fn the_guard_pages_are_covered_by_nothing() {
    let b = bounds();
    for guarded in [&b.kernel_stack, &b.exception_stack] {
        for r in build(&b).unwrap() {
            assert!(
                r.end() <= guarded.guard.0 || r.base >= guarded.guard.1,
                "{} maps the {} guard page",
                r.name,
                guarded.name
            );
        }
    }
}

/// A pure overlap, away from the guard page: `validate` checks the guard
/// first, so a mutation that does both would report `GuardMapped` and this
/// test would not exercise the ordering check at all.
#[test]
fn an_overlap_is_rejected() {
    let mut b = bounds();
    // `.rodata` runs a page into `.data`.
    b.rodata.1 = b.data.0 + 0x1000;
    assert!(matches!(
        build(&b),
        Err(LayoutError::Overlap {
            first: ".rodata",
            second: ".data/.bss"
        })
    ));
}

/// Deleting the guard page is the failure this must catch, and a naive
/// "is it covered?" check passes it vacuously — an empty range is inside
/// nothing. Found by setting `GUARD_PAGE_SIZE = 0` in `link.ld` and
/// watching the kernel map it happily.
#[test]
fn a_zero_length_guard_page_is_rejected() {
    let mut b = bounds();
    b.kernel_stack.guard.1 = b.kernel_stack.guard.0;
    b.kernel_stack.stack.0 = b.kernel_stack.guard.0;
    assert!(matches!(
        build(&b),
        Err(LayoutError::GuardIneffective { .. })
    ));
}

#[test]
fn validate_guarded_stack_accepts_a_task_shaped_pair() {
    let g = GuardedStack {
        guard: (0x10_0000, 0x10_1000),
        stack: (0x10_1000, 0x10_5000),
        name: "task",
    };
    assert!(validate_guarded_stack(&g).is_ok());
}

#[test]
fn validate_guarded_stack_rejects_a_detached_guard() {
    let g = GuardedStack {
        guard: (0x10_0000, 0x10_1000),
        stack: (0x10_2000, 0x10_5000),
        name: "task",
    };
    assert!(matches!(
        validate_guarded_stack(&g),
        Err(LayoutError::GuardIneffective { .. })
    ));
}

/// The same for the exception stack. Validation is written once over both,
/// and this is what keeps that true: a check that only ever looked at the
/// kernel stack would pass every other test in this file.
#[test]
fn a_zero_length_exception_guard_page_is_rejected() {
    let mut b = bounds();
    b.exception_stack.guard.1 = b.exception_stack.guard.0;
    b.exception_stack.stack.0 = b.exception_stack.guard.0;
    assert!(matches!(
        build(&b),
        Err(LayoutError::GuardIneffective { .. })
    ));
}

/// A guard that does not touch the stack leaves a gap the stack can grow
/// past without ever hitting it.
#[test]
fn a_guard_page_detached_from_the_stack_is_rejected() {
    let mut b = bounds();
    b.kernel_stack.guard.1 -= 0x1000;
    assert!(matches!(
        build(&b),
        Err(LayoutError::GuardIneffective { .. })
    ));
}

#[test]
fn a_region_covering_the_guard_page_is_rejected() {
    let mut b = bounds();
    // The arena runs past its end, swallowing the guard.
    b.pagetables.1 = b.exception_stack.guard.1;
    assert!(matches!(build(&b), Err(LayoutError::GuardMapped { .. })));
}

#[test]
fn a_misaligned_boundary_is_rejected() {
    let mut b = bounds();
    b.rodata.0 += 0x800;
    assert!(matches!(build(&b), Err(LayoutError::Unaligned { .. })));
}

#[test]
fn an_empty_region_is_rejected() {
    let mut b = bounds();
    b.rodata.1 = b.rodata.0;
    assert!(matches!(build(&b), Err(LayoutError::Empty { .. })));
}

#[test]
fn a_short_output_slice_is_rejected() {
    let mut out = [Region {
        base: 0,
        len: 0,
        kind: MemKind::NormalWb,
        perms: Perms::rw(),
        name: "unused",
    }; 4];
    assert_eq!(
        kernel_regions(&bounds(), &devices(), &mut out),
        Err(LayoutError::TooManyRegions)
    );
}

#[test]
fn device_windows_are_never_executable() {
    for r in build(&bounds()).unwrap() {
        if r.kind == MemKind::Device {
            assert!(!r.perms.execute, "{} is executable device memory", r.name);
        }
    }
}
