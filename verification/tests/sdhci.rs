use kernel_core::sdhci::{DataDir, INT_CCRC_ERR, INT_CMD_DONE, INT_CTO_ERR, INT_DCRC_ERR, INT_ERR, RespType, TM_CRCCHK_EN, TM_DAT_DIR_READ, TM_ISDATA, TM_IXCHK_EN, c1_clock_bits, cmdtm, cmdtm_no_checks, divided_clock_hz, divider_for, is_timeout_only};

#[test]
fn divider_math_edges() {
    // 200 MHz base → 400 kHz init: ceil(200e6/800e3) = 250.
    assert_eq!(divider_for(200_000_000, 400_000), 250);
    assert_eq!(divided_clock_hz(200_000_000, 250), 400_000);
    // 200 MHz → 25 MHz data: exact division, 4.
    assert_eq!(divider_for(200_000_000, 25_000_000), 4);
    assert_eq!(divided_clock_hz(200_000_000, 4), 25_000_000);
    // A 100 MHz real base with the 200 MHz-sized divisors stays in spec.
    assert!(divided_clock_hz(100_000_000, 250) <= 400_000);
    assert!(divided_clock_hz(100_000_000, 4) <= 25_000_000);
    // Target at/above base → divisor 0 (pass-through).
    assert_eq!(divider_for(50_000_000, 50_000_000), 0);
    // Absurdly slow target saturates the field.
    assert_eq!(divider_for(200_000_000, 1), 0x3FF);
    assert_eq!(divider_for(200_000_000, 0), 0x3FF);
}

#[test]
fn clock_bits_split_the_ten_bit_divisor() {
    // 250 = 0b00_1111_1010: low byte 0xFA in [15:8], top bits 00.
    assert_eq!(c1_clock_bits(250), 0xFA << 8);
    // 0x3FF: low byte 0xFF in [15:8], top 0b11 in [7:6].
    assert_eq!(c1_clock_bits(0x3FF), (0xFF << 8) | (0b11 << 6));
}

#[test]
fn cmdtm_encodings() {
    // CMD17 READ_SINGLE_BLOCK: index 17, R1, read data.
    let w = cmdtm(17, RespType::Short, DataDir::Read);
    assert_eq!(w >> 24, 17);
    assert_eq!((w >> 16) & 0b11, 0b10);
    assert_ne!(w & TM_ISDATA, 0);
    assert_ne!(w & TM_DAT_DIR_READ, 0);
    assert_ne!(w & TM_CRCCHK_EN, 0);
    // CMD24 WRITE_BLOCK: write direction bit clear.
    let w = cmdtm(24, RespType::Short, DataDir::Write);
    assert_ne!(w & TM_ISDATA, 0);
    assert_eq!(w & TM_DAT_DIR_READ, 0);
    // CMD2 ALL_SEND_CID: long response, CRC but no index check.
    let w = cmdtm(2, RespType::Long, DataDir::NoData);
    assert_eq!((w >> 16) & 0b11, 0b01);
    assert_ne!(w & TM_CRCCHK_EN, 0);
    assert_eq!(w & TM_IXCHK_EN, 0);
    // ACMD41: R3 carries no CRC and a reserved index field.
    let w = cmdtm_no_checks(41, RespType::Short, DataDir::NoData);
    assert_eq!(w & (TM_CRCCHK_EN | TM_IXCHK_EN), 0);
}

#[test]
fn timeout_only_is_discriminated_from_real_errors() {
    assert!(is_timeout_only(INT_ERR | INT_CTO_ERR));
    assert!(!is_timeout_only(INT_ERR | INT_CCRC_ERR));
    assert!(!is_timeout_only(INT_ERR | INT_CTO_ERR | INT_DCRC_ERR));
    assert!(!is_timeout_only(INT_CMD_DONE));
}
