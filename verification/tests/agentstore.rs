use kernel_core::agentstore::{MAGIC, MAX_AGENTS, NAME_LEN, ParseError, SLOT_NONE, StoreAgent, VERSION, WINDOW_NONE, append_agent, pack, parse, to_entry};
use kernel_core::prog::{encode_console_hi_exit};
use kernel_core::manifest::{DeviceGrant, MAX_SLOTS};

use kernel_core::prog;

fn empty_slot() -> StoreAgent<'static> {
    StoreAgent {
        name: b"",
        text_pages: 0,
        stack_pages: 0,
        slots: [SLOT_NONE; MAX_SLOTS],
        home_cpu: 0,
        window: WINDOW_NONE,
        device_va: 0,
        image: b"",
    }
}

#[test]
fn round_trip_beacon_shaped_agent() {
    let image = prog::encode_console_hi_exit(1);
    let mut slots = [SLOT_NONE; MAX_SLOTS];
    slots[1] = 0; // held console at index 0
    let blob = pack(&[("beacon", 1, 3, slots, 0, &image)]);

    let mut out = [empty_slot(); MAX_AGENTS];
    let agents = parse(&blob, &mut out).expect("parse");
    assert_eq!(agents.len(), 1);
    assert_eq!(agents[0].name, b"beacon");
    assert_eq!(agents[0].text_pages, 1);
    assert_eq!(agents[0].stack_pages, 3);
    assert_eq!(agents[0].slots[1], 0);
    assert_eq!(agents[0].home_cpu, 0);
    assert_eq!(agents[0].image, &image);
}

#[test]
fn home_cpu_round_trips_in_reserved_word() {
    let image = prog::encode_console_hi_exit(1);
    let mut slots = [SLOT_NONE; MAX_SLOTS];
    slots[1] = 0;
    let blob = pack(&[("chirp", 1, 3, slots, 1, &image)]);
    let mut out = [empty_slot(); MAX_AGENTS];
    let agents = parse(&blob, &mut out).expect("parse");
    assert_eq!(agents[0].home_cpu, 1);
    assert_eq!(agents[0].name, b"chirp");
}

/// Pack one agent that asks for a device window (ADR-0100).
fn pack_with_window(window: u8, device_va: u64, image: &[u8]) -> Vec<u8> {
    let mut buf = Vec::new();
    buf.extend_from_slice(&MAGIC.to_le_bytes());
    buf.extend_from_slice(&VERSION.to_le_bytes());
    buf.extend_from_slice(&1u32.to_le_bytes());
    buf.extend_from_slice(&0u32.to_le_bytes());
    append_agent(
        &mut buf,
        "driver",
        1,
        3,
        [SLOT_NONE; MAX_SLOTS],
        0,
        window,
        device_va,
        image,
    );
    buf
}

#[test]
fn a_window_index_and_its_va_round_trip() {
    let image = prog::encode_console_hi_exit(1);
    let blob = pack_with_window(1, 0x9000, &image);
    let mut out = [empty_slot(); MAX_AGENTS];
    let agents = parse(&blob, &mut out).expect("parse");
    assert_eq!(agents[0].window, 1);
    assert_eq!(agents[0].device_va, 0x9000);

    // …and reaches the manifest entry as a grant naming the same position.
    const IMG: [u8; 4] = [0; 4];
    let entry = to_entry(&agents[0], "driver", &IMG);
    assert_eq!(
        entry.device,
        Some(DeviceGrant {
            va: 0x9000,
            window: 1
        })
    );
}

#[test]
fn an_entry_with_no_window_carries_no_address() {
    // The format cannot quietly hold an address nothing reads — which is
    // where a physical one would try to live if it ever came back.
    let image = prog::encode_console_hi_exit(1);
    let blob = pack_with_window(WINDOW_NONE, 0x9000, &image);
    let mut out = [empty_slot(); MAX_AGENTS];
    assert!(matches!(parse(&blob, &mut out), Err(ParseError::BadWindow)));

    // `parse` borrows `out` for as long as the records live, so the second
    // half of the story needs its own buffer.
    let ok = pack_with_window(WINDOW_NONE, 0, &image);
    let mut out2 = [empty_slot(); MAX_AGENTS];
    let agents = parse(&ok, &mut out2).expect("parse");
    assert_eq!(agents[0].window, WINDOW_NONE);
    const IMG: [u8; 4] = [0; 4];
    assert_eq!(to_entry(&agents[0], "driver", &IMG).device, None);
}

#[test]
fn an_unaligned_window_address_is_refused() {
    // A device page is a page. An unaligned VA would be rejected later by
    // the address space anyway; refusing it here keeps the failure in the
    // layer that owns the format.
    let image = prog::encode_console_hi_exit(1);
    let blob = pack_with_window(0, 0x9001, &image);
    let mut out = [empty_slot(); MAX_AGENTS];
    assert!(matches!(parse(&blob, &mut out), Err(ParseError::BadWindow)));
}

#[test]
fn the_device_word_has_no_room_for_anything_but_an_index() {
    // 31:8 reserved and checked, exactly as ADR-0088 did for `home_cpu`.
    // A future field that tried to smuggle itself into those bits fails
    // here rather than being read as part of the index.
    let image = prog::encode_console_hi_exit(1);
    let mut blob = pack_with_window(0, 0x9000, &image);
    // The device word sits after name(16) + text(4) + stack(4) + slots(4)
    // + reserved(4), inside the record that starts at 16.
    let off = 16 + NAME_LEN + 4 + 4 + MAX_SLOTS + 4;
    blob[off + 1] = 0x01;
    let mut out = [empty_slot(); MAX_AGENTS];
    assert!(matches!(parse(&blob, &mut out), Err(ParseError::BadWindow)));
}

#[test]
fn version_one_is_refused_rather_than_read_with_defaults() {
    // ADR-0100 changed the record, so a v1 blob is not a v2 blob missing a
    // field — its image offset is different, and reading it as v2 would
    // parse image bytes as a device word. Refusing is the only honest
    // answer, and no store in existence is v1 anyway.
    let image = prog::encode_console_hi_exit(1);
    let mut blob = pack(&[("beacon", 1, 3, [SLOT_NONE; MAX_SLOTS], 0, &image)]);
    blob[4..8].copy_from_slice(&1u32.to_le_bytes());
    let mut out = [empty_slot(); MAX_AGENTS];
    assert!(matches!(
        parse(&blob, &mut out),
        Err(ParseError::BadVersion)
    ));
}

#[test]
fn agentstore_home_cpu_out_of_range_is_refused() {
    let image = [0u8; 4];
    let blob = pack(&[("x", 1, 1, [SLOT_NONE; MAX_SLOTS], 2, &image)]);
    let mut out = [empty_slot(); MAX_AGENTS];
    assert!(matches!(parse(&blob, &mut out), Err(ParseError::BadHome)));
}

#[test]
fn bad_magic_is_refused() {
    let mut blob = pack(&[("x", 1, 1, [SLOT_NONE; MAX_SLOTS], 0, &[0u8; 4])]);
    blob[0] = b'X';
    let mut out = [empty_slot(); MAX_AGENTS];
    assert!(matches!(parse(&blob, &mut out), Err(ParseError::BadMagic)));
}

#[test]
fn empty_count_is_refused() {
    let mut blob = Vec::new();
    blob.extend_from_slice(&MAGIC.to_le_bytes());
    blob.extend_from_slice(&VERSION.to_le_bytes());
    blob.extend_from_slice(&0u32.to_le_bytes());
    blob.extend_from_slice(&0u32.to_le_bytes());
    let mut out = [empty_slot(); MAX_AGENTS];
    assert!(matches!(parse(&blob, &mut out), Err(ParseError::BadCount)));
}

#[test]
fn a_name_outside_ascii_round_trips() {
    let image = prog::encode_console_hi_exit(1);
    let slots = [SLOT_NONE; MAX_SLOTS];
    let blob = pack(&[("b\u{e9}acon\u{2603}", 1, 2, slots, 0, &image)]);
    let mut out = [empty_slot(); MAX_AGENTS];
    let agents = parse(&blob, &mut out).expect("parse");
    assert_eq!(agents.len(), 1);
    assert_eq!(agents[0].name, "b\u{e9}acon\u{2603}".as_bytes());
    assert_eq!(agents[0].image, &image);
}
