use kernel_core::mbr::{ENTRY_BASE, ENTRY_LEN, GPT_PROTECTIVE, MbrError, STORE_TYPE, find_store_partition, parse};

fn sector_with(entries: &[(u8, u32, u32)]) -> [u8; 512] {
    let mut s = [0u8; 512];
    s[510] = 0x55;
    s[511] = 0xAA;
    for (i, &(kind, lba, len)) in entries.iter().enumerate() {
        let at = ENTRY_BASE + i * ENTRY_LEN;
        s[at + 4] = kind;
        s[at + 8..at + 12].copy_from_slice(&lba.to_le_bytes());
        s[at + 12..at + 16].copy_from_slice(&len.to_le_bytes());
    }
    s
}

/// The real card this slice deploys to: 512 MiB FAT32 boot at 8192,
/// 2.5 GiB Linux, then the 1 MiB store partition in the tail.
#[test]
fn finds_the_store_on_the_deploy_card_layout() {
    let s = sector_with(&[
        (0x0C, 8192, 1_048_576),
        (0x83, 1_056_768, 5_242_880),
        (STORE_TYPE, 6_299_648, 2048),
    ]);
    let entries = parse(&s).unwrap();
    assert_eq!(find_store_partition(&entries), Some((6_299_648, 2048)));
}

#[test]
fn no_store_entry_is_a_clean_none() {
    let s = sector_with(&[(0x0C, 8192, 1_048_576), (0x83, 1_056_768, 5_242_880)]);
    let entries = parse(&s).unwrap();
    assert_eq!(find_store_partition(&entries), None);
}

#[test]
fn a_hand_shrunk_store_partition_is_refused() {
    let s = sector_with(&[(STORE_TYPE, 8192, 16)]);
    let entries = parse(&s).unwrap();
    assert_eq!(
        find_store_partition(&entries),
        None,
        "smaller than the A/B layout — using it would write past the entry"
    );
}

#[test]
fn gpt_protective_fails_closed() {
    let s = sector_with(&[(GPT_PROTECTIVE, 1, 0xFFFF_FFFF)]);
    assert_eq!(parse(&s), Err(MbrError::GptProtective));
}

#[test]
fn missing_signature_is_no_table() {
    let mut s = sector_with(&[(STORE_TYPE, 8192, 2048)]);
    s[510] = 0;
    assert_eq!(parse(&s), Err(MbrError::NoTable));
}

#[test]
fn zero_lba_store_entry_is_refused() {
    // An entry claiming to start at the MBR itself is table corruption,
    // not a store — writing there would destroy the partition table.
    let s = sector_with(&[(STORE_TYPE, 0, 2048)]);
    let entries = parse(&s).unwrap();
    assert_eq!(find_store_partition(&entries), None);
}
