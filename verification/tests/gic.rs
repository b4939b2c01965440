use kernel_core::gic::{IrqClass, SPURIOUS_ID, SgiFilter, ack_id, bit_slot, byte_slot, classify, insert_byte, is_spurious, sgir_word};

#[test]
fn bit_slot_picks_word_and_bit() {
    assert_eq!(bit_slot(0), (0, 1 << 0));
    // PPI 30: still word 0.
    assert_eq!(bit_slot(30), (0, 1 << 30));
    assert_eq!(bit_slot(31), (0, 1 << 31));
    // First id of the second word.
    assert_eq!(bit_slot(32), (4, 1 << 0));
    assert_eq!(bit_slot(97), (12, 1 << 1));
}

#[test]
fn byte_slot_picks_word_and_shift() {
    assert_eq!(byte_slot(0), (0, 0));
    assert_eq!(byte_slot(3), (0, 24));
    assert_eq!(byte_slot(4), (4, 0));
    assert_eq!(byte_slot(30), (28, 16));
}

#[test]
fn insert_byte_leaves_neighbours_untouched() {
    let word = 0xAA_BB_CC_DD;
    // irq 30 sits at shift 16 inside its word.
    assert_eq!(insert_byte(word, 30, 0x00), 0xAA_00_CC_DD);
    assert_eq!(insert_byte(word, 28, 0x11), 0xAA_BB_CC_11);
    assert_eq!(insert_byte(word, 31, 0x22), 0x22_BB_CC_DD);
}

#[test]
fn ack_preserves_cpu_id_but_reports_the_interrupt() {
    // CPU id 2 in bits [12:10], interrupt 30.
    let raw = (2 << 10) | 30;
    assert_eq!(ack_id(raw), 30);
    assert!(!is_spurious(raw));
}

#[test]
fn both_spurious_encodings_are_recognised() {
    assert!(is_spurious(1023));
    assert!(is_spurious(1022));
    assert!(!is_spurious(1021));
}

#[test]
fn classification_matches_the_gic_id_map() {
    assert_eq!(classify(0), IrqClass::Sgi);
    assert_eq!(classify(15), IrqClass::Sgi);
    assert_eq!(classify(16), IrqClass::Ppi);
    // The arch physical timer.
    assert_eq!(classify(30), IrqClass::Ppi);
    assert_eq!(classify(31), IrqClass::Ppi);
    assert_eq!(classify(32), IrqClass::Spi);
    assert_eq!(classify(1019), IrqClass::Spi);
    assert_eq!(classify(1020), IrqClass::Invalid);
    assert_eq!(classify(SPURIOUS_ID), IrqClass::Invalid);
}

#[test]
fn sgir_word_targets_cpu1_with_sgi0() {
    // ADR-0074: primary wakes core 1 via SGI 0 + CPUTargetList bit 1.
    assert_eq!(
        sgir_word(0, 1 << 1, SgiFilter::TargetList),
        Some(0x0002_0000)
    );
}

#[test]
fn sgir_word_refuses_non_sgi_ids() {
    assert_eq!(sgir_word(16, 0x01, SgiFilter::SelfOnly), None);
    assert_eq!(
        sgir_word(15, 0x00, SgiFilter::AllButSelf),
        Some((0b01 << 24) | 15)
    );
}
