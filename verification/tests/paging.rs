use kernel_core::paging::{Chunks, ADDR_MASK, ATTR_IDX_DEVICE, ATTR_IDX_NORMAL, Chunk, DESC_AF, DESC_AP_EL1_RO, DESC_AP_EL1_RW, DESC_BLOCK, DESC_PAGE, DESC_PXN, DESC_TABLE, DESC_UXN, L1_BLOCK_SIZE, L2_BLOCK_SIZE, Level, MAIR_DEVICE_NGNRNE, MAIR_NORMAL_WB, MemKind, PAGE_SIZE, Perms, TCR_EPD1, TLBI_PAGE_LIMIT, TlbiPlan, chunks, decode_leaf, is_invalid, is_leaf, is_table, l1_block, leaf, mair_el1, table_descriptor, tcr_el1_ttbr0_only, tlbi_operand, tlbi_plan};

#[test]
fn ram_block_is_cacheable_and_executable_at_el1_only() {
    let d = l1_block(0x4000_0000, MemKind::NormalWb, Perms::rx()).unwrap();
    assert_eq!(d & 0x0000_FFFF_C000_0000, 0x4000_0000, "output address");
    assert_eq!(d & 0b11, DESC_BLOCK, "block descriptor");
    assert_ne!(d & DESC_AF, 0, "access flag must be set");
    assert_eq!(d & (0b111 << 2), ATTR_IDX_NORMAL, "MAIR index 0");
    assert_ne!(d & DESC_UXN, 0, "EL0 must never execute kernel memory");
    assert_eq!(d & DESC_PXN, 0, "executable at EL1");
}

#[test]
fn device_block_is_never_executable() {
    let d = l1_block(0xC000_0000, MemKind::Device, Perms::rw()).unwrap();
    assert_eq!(d & (0b111 << 2), ATTR_IDX_DEVICE, "MAIR index 1");
    assert_ne!(d & DESC_PXN, 0, "MMIO must not be executable at EL1");
    assert_ne!(d & DESC_UXN, 0, "MMIO must not be executable at EL0");
}

#[test]
fn write_permission_selects_the_access_permission_bits() {
    let rw = l1_block(0, MemKind::NormalWb, Perms::rw()).unwrap();
    let ro = l1_block(0, MemKind::NormalWb, Perms::ro()).unwrap();
    assert_eq!(rw & (0b11 << 6), DESC_AP_EL1_RW);
    assert_eq!(ro & (0b11 << 6), DESC_AP_EL1_RO);
}

/// Masking a misaligned physical address produces a descriptor that maps
/// something other than what the caller asked for. Refuse instead.
#[test]
fn misaligned_block_address_is_rejected() {
    assert_eq!(l1_block(0x4000_1000, MemKind::NormalWb, Perms::rw()), None);
    assert_eq!(l1_block(0x8000_0000 - 1, MemKind::Device, Perms::rw()), None);
}

#[test]
fn output_address_beyond_48_bits_is_rejected() {
    assert_eq!(
        l1_block(1 << 52, MemKind::NormalWb, Perms::rw()),
        None,
        "output address does not fit the descriptor"
    );
}

#[test]
fn mair_places_normal_at_index_0_and_device_at_index_1() {
    assert_eq!(mair_el1() & 0xFF, MAIR_NORMAL_WB);
    assert_eq!((mair_el1() >> 8) & 0xFF, MAIR_DEVICE_NGNRNE);
}

/// The kernel maps nothing in the upper half. Leaving `EPD1` clear means a
/// stray high virtual address starts a page-table walk through whatever
/// `TTBR1_EL1` happened to contain at reset.
// --- multi-level descriptors -------------------------------------------

/// The AArch64 trap: at levels 1 and 2 a leaf is `0b01` and `0b11` means
/// "table", but at level 3 a *page* is `0b11` and `0b01` is invalid. A
/// level-3 leaf written as a block is simply not mapped.
#[test]
fn level3_leaves_use_the_page_encoding_not_the_block_encoding() {
    let page = leaf(Level::L3, 0x8000, MemKind::NormalWb, Perms::rx()).unwrap();
    assert_eq!(page & 0b11, DESC_PAGE, "L3 leaf must be 0b11");

    let block = leaf(Level::L2, 0x20_0000, MemKind::NormalWb, Perms::rx()).unwrap();
    assert_eq!(block & 0b11, DESC_BLOCK, "L2 leaf must be 0b01");
}

#[test]
fn leaf_rejects_addresses_not_aligned_to_its_level() {
    assert!(leaf(Level::L3, 0x1000, MemKind::NormalWb, Perms::rw()).is_some());
    assert_eq!(leaf(Level::L2, 0x1000, MemKind::NormalWb, Perms::rw()), None);
    assert_eq!(
        leaf(Level::L1, 0x20_0000, MemKind::NormalWb, Perms::rw()),
        None
    );
}

#[test]
fn leaf_carries_permissions_at_every_level() {
    for level in [Level::L1, Level::L2, Level::L3] {
        let pa = level.entry_size();
        let rx = leaf(level, pa, MemKind::NormalWb, Perms::rx()).unwrap();
        let rw = leaf(level, pa, MemKind::NormalWb, Perms::rw()).unwrap();

        assert_eq!(rx & DESC_PXN, 0, "{level:?}: RX must be executable at EL1");
        assert_eq!(
            rx & (0b11 << 6),
            DESC_AP_EL1_RO,
            "{level:?}: RX is read-only"
        );
        assert_ne!(rw & DESC_PXN, 0, "{level:?}: RW must not be executable");
        assert_eq!(
            rw & (0b11 << 6),
            DESC_AP_EL1_RW,
            "{level:?}: RW is writable"
        );
        assert_eq!(rx & ADDR_MASK, pa, "{level:?}: output address");
    }
}

#[test]
fn table_descriptor_points_at_a_page_aligned_table() {
    let d = table_descriptor(0x9_1000).unwrap();
    assert_eq!(d & 0b11, DESC_TABLE);
    assert_eq!(d & ADDR_MASK, 0x9_1000);
    assert_eq!(table_descriptor(0x9_1800), None, "must be page aligned");
}

#[test]
fn level_indices_decode_the_virtual_address_fields() {
    // L1 index 1, L2 index 2, L3 index 3.
    let va = (1 << 30) | (2 << 21) | (3 << 12);
    assert_eq!(Level::L1.index(va), 1);
    assert_eq!(Level::L2.index(va), 2);
    assert_eq!(Level::L3.index(va), 3);
    // Indices wrap within their own 9 bits.
    assert_eq!(Level::L2.index(511 << 21), 511);
    assert_eq!(Level::L2.index(512 << 21), 0);
}

// --- region splitting --------------------------------------------------

#[test]
fn an_aligned_2mib_region_is_one_l2_block() {
    let c: Vec<_> = all(chunks(0x20_0000, 0x20_0000, L2_BLOCK_SIZE).unwrap());
    assert_eq!(
        c,
        vec![Chunk {
            level: Level::L2,
            va: 0x20_0000,
            pa: 0x20_0000
        }]
    );
}

#[test]
fn a_single_page_is_one_l3_page() {
    let c: Vec<_> = all(chunks(0x8000, 0x8000, PAGE_SIZE).unwrap());
    assert_eq!(c.len(), 1);
    assert_eq!(c[0].level, Level::L3);
}

/// The kernel image starts at 0x80000, which is not 2 MiB aligned: the
/// mapping has to page in up to the boundary before it can use blocks.
#[test]
fn an_unaligned_region_pages_in_then_blocks_then_pages_out() {
    let start = 0x8_0000;
    let len = 4 * L2_BLOCK_SIZE;
    let c: Vec<_> = all(chunks(start, start, len).unwrap());

    assert_eq!(c[0].level, Level::L3, "must start with pages");
    assert!(
        c.iter().any(|k| k.level == Level::L2),
        "must use blocks in the middle"
    );

    // Contiguous, exactly covering, VA and PA staying in step.
    let mut cursor = start;
    for k in &c {
        assert_eq!(k.va, cursor);
        assert_eq!(k.pa, cursor);
        cursor += k.size();
    }
    assert_eq!(cursor, start + len);
}

/// Both addresses must be aligned: using a level on VA alignment alone
/// would map physical memory the caller never asked for.
#[test]
fn mismatched_va_and_pa_alignment_falls_back_to_pages() {
    let c: Vec<_> = all(chunks(0x20_0000, 0x21_1000, 2 * L2_BLOCK_SIZE).unwrap());
    assert!(c.iter().all(|k| k.level == Level::L3));
    assert_eq!(c.len() as u64, 2 * L2_BLOCK_SIZE / PAGE_SIZE);
}

#[test]
fn a_gib_aligned_region_uses_l1_blocks() {
    let c: Vec<_> = all(chunks(0, 0, L1_BLOCK_SIZE).unwrap());
    assert_eq!(c.len(), 1);
    assert_eq!(c[0].level, Level::L1);
}

#[test]
fn an_empty_region_yields_nothing() {
    assert_eq!(all(chunks(0x1000, 0x1000, 0).unwrap()).len(), 0);
}

#[test]
fn unaligned_requests_are_rejected_rather_than_rounded() {
    assert!(chunks(0x1800, 0x1000, PAGE_SIZE).is_none());
    assert!(chunks(0x1000, 0x1800, PAGE_SIZE).is_none());
    assert!(chunks(0x1000, 0x1000, 0x800).is_none());
}

// --- TLB invalidation planning ------------------------------------------

/// The operand is the address shifted right by 12, not the address. Getting
/// this wrong invalidates some other page and leaves a stale entry that is
/// usually still correct — so nothing visibly breaks until it does.
#[test]
fn by_page_operands_are_the_address_shifted_by_twelve() {
    let plan = tlbi_plan(0x4_2000, 2 * PAGE_SIZE).unwrap();
    assert_eq!(
        plan,
        TlbiPlan::ByPage {
            first: 0x4_2000 >> 12,
            pages: 2
        }
    );
    let TlbiPlan::ByPage { first, .. } = plan else {
        unreachable!()
    };
    assert_eq!(tlbi_operand(first, 0), 0x42);
    assert_eq!(tlbi_operand(first, 1), 0x43);
}

#[test]
fn one_page_is_one_operand() {
    assert_eq!(
        tlbi_plan(0x1000, PAGE_SIZE),
        Some(TlbiPlan::ByPage { first: 1, pages: 1 })
    );
}

#[test]
fn a_large_region_invalidates_everything() {
    let len = (TLBI_PAGE_LIMIT + 1) * PAGE_SIZE;
    assert_eq!(tlbi_plan(0x1000, len), Some(TlbiPlan::Everything));
}

/// Exactly at the limit stays precise: the threshold is "more than", so a
/// region of exactly the limit does not tip over into a global flush.
#[test]
fn the_limit_itself_stays_per_page() {
    let len = TLBI_PAGE_LIMIT * PAGE_SIZE;
    assert_eq!(
        tlbi_plan(0x1000, len),
        Some(TlbiPlan::ByPage {
            first: 1,
            pages: TLBI_PAGE_LIMIT
        })
    );
}

#[test]
fn an_unaligned_or_empty_range_has_no_plan() {
    assert_eq!(tlbi_plan(0x1800, PAGE_SIZE), None);
    assert_eq!(tlbi_plan(0x1000, 0x800), None);
    assert_eq!(tlbi_plan(0x1000, 0), None);
}

// --- leaf decode (needed to split blocks on unmap) ----------------------

#[test]
fn decode_round_trips_every_permission_and_kind() {
    for level in [Level::L1, Level::L2, Level::L3] {
        let pa = match level {
            Level::L1 => 0x4000_0000,
            Level::L2 => 0x0020_0000,
            Level::L3 => 0x0000_3000,
        };
        for kind in [MemKind::NormalWb, MemKind::Device] {
            for perms in [Perms::rw(), Perms::rx(), Perms::ro()] {
                let desc = leaf(level, pa, kind, perms).expect("aligned pa");
                assert!(is_leaf(desc, level));
                assert!(!is_table(desc, level));
                assert!(!is_invalid(desc));
                let (got_pa, got_kind, got_perms) =
                    decode_leaf(desc, level).expect("decode leaf");
                assert_eq!(got_pa, pa);
                assert_eq!(got_kind, kind);
                assert_eq!(got_perms, perms);
            }
        }
    }
}

#[test]
fn decode_rejects_invalid_and_table_entries() {
    assert!(decode_leaf(0, Level::L3).is_none());
    let table = table_descriptor(0x9000).unwrap();
    assert!(is_table(table, Level::L2));
    assert!(decode_leaf(table, Level::L2).is_none());
    // At L3 the same bits are a page at PA 0x9000, not a table.
    assert!(is_leaf(table, Level::L3));
}

#[test]
fn tcr_disables_ttbr1_walks() {
    let tcr = tcr_el1_ttbr0_only(25);
    assert_ne!(tcr & TCR_EPD1, 0, "EPD1 must be set when TTBR1 is unused");
}

#[test]
fn tcr_encodes_the_documented_translation_regime() {
    let tcr = tcr_el1_ttbr0_only(25);
    assert_eq!(tcr & 0x3F, 25, "T0SZ → 39-bit VA");
    assert_eq!((tcr >> 8) & 0b11, 0b01, "IRGN0 write-back");
    assert_eq!((tcr >> 10) & 0b11, 0b01, "ORGN0 write-back");
    assert_eq!((tcr >> 12) & 0b11, 0b11, "SH0 inner shareable");
    assert_eq!((tcr >> 14) & 0b11, 0b00, "TG0 4 KiB granule");
    assert_eq!((tcr >> 32) & 0b111, 0b010, "IPS 40-bit");
}

/// Every chunk a walk yields, in order.
fn all(mut c: Chunks) -> Vec<Chunk> {
    let mut v = Vec::new();
    while let Some(x) = c.next_chunk() {
        v.push(x);
    }
    v
}
