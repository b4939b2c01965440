use kernel_core::durable_media::{MIN_PARTITION_SECTORS, PAYLOAD_SECTORS, SECTOR_SIZE, SLOT_B_PAYLOAD, Slot, crc32, decode_header, encode_header, next_slot, pick_winner, validate};
use kernel_core::durable::{REGION_SIZE};

fn payload(fill: u8) -> [u8; REGION_SIZE] {
    [fill; REGION_SIZE]
}

#[test]
fn crc32_matches_the_ieee_reference() {
    // The classic check value for "123456789".
    assert_eq!(crc32(b"123456789"), 0xCBF4_3926);
    assert_eq!(crc32(b""), 0);
}

#[test]
fn header_round_trips() {
    let p = payload(0x5A);
    let sector = encode_header(7, &p);
    let h = decode_header(&sector).unwrap();
    assert_eq!(h.seq, 7);
    assert_eq!(h.crc, crc32(&p));
    assert_eq!(validate(&sector, &p), Some(h));
}

#[test]
fn fresh_media_has_no_winner() {
    let z = [0u8; SECTOR_SIZE];
    assert_eq!(pick_winner(&z, &payload(0), &z, &payload(0)), None);
    assert_eq!(next_slot(None), Slot::A, "first flush lands in A");
}

#[test]
fn single_valid_slot_wins_and_flush_goes_to_the_other() {
    let p = payload(1);
    let ha = encode_header(1, &p);
    let z = [0u8; SECTOR_SIZE];
    let (slot, h) = pick_winner(&ha, &p, &z, &payload(0)).unwrap();
    assert_eq!((slot, h.seq), (Slot::A, 1));
    assert_eq!(next_slot(Some(slot)), Slot::B);
}

#[test]
fn higher_sequence_wins_between_two_valid_slots() {
    let pa = payload(1);
    let pb = payload(2);
    let ha = encode_header(3, &pa);
    let hb = encode_header(4, &pb);
    let (slot, h) = pick_winner(&ha, &pa, &hb, &pb).unwrap();
    assert_eq!((slot, h.seq), (Slot::B, 4));
    assert_eq!(next_slot(Some(slot)), Slot::A, "alternation continues");
}

#[test]
fn torn_payload_falls_back_to_the_other_slot() {
    // B committed seq 4 but its payload never fully landed: CRC saves us.
    let pa = payload(1);
    let ha = encode_header(3, &pa);
    let hb = encode_header(4, &payload(2));
    let torn = payload(0xEE);
    let (slot, h) = pick_winner(&ha, &pa, &hb, &torn).unwrap();
    assert_eq!((slot, h.seq), (Slot::A, 3), "previous good state survives");
}

#[test]
fn torn_header_falls_back_to_the_other_slot() {
    let pa = payload(1);
    let ha = encode_header(3, &pa);
    let mut torn = encode_header(4, &payload(2));
    torn[0] = 0; // magic destroyed mid-write
    let (slot, _) = pick_winner(&ha, &pa, &torn, &payload(2)).unwrap();
    assert_eq!(slot, Slot::A);
}

#[test]
fn geometry_stays_inside_the_minimum_partition() {
    assert!(SLOT_B_PAYLOAD + PAYLOAD_SECTORS as u32 <= MIN_PARTITION_SECTORS);
    assert_eq!(PAYLOAD_SECTORS, 8, "4 KiB DURB block");
}
