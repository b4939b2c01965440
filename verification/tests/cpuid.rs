use kernel_core::cpuid::{Part, asid_bits, el0_aarch64, el1_aarch64, fp_implemented, pa_bits, part, revision, tgran4_supported, variant, x86_display_family, x86_display_model};

/// The registers as the Cortex-A72 in the Pi 4B (and QEMU's model of it)
/// reports them — the values the boot line and the oracle assert on.
const A72_MIDR: u64 = 0x410F_D083;
const A72_MMFR0: u64 = 0x0000_1124;
const A72_PFR0: u64 = 0x0000_2222;

#[test]
fn the_bcm2711_core_is_recognised_with_its_revision() {
    assert_eq!(part(A72_MIDR), Part::CortexA72);
    // r0p3, the stepping every Pi 4B ships.
    assert_eq!(variant(A72_MIDR), 0);
    assert_eq!(revision(A72_MIDR), 3);
}

#[test]
fn an_unknown_part_keeps_its_whole_identity() {
    // A Cortex-A76 (0xD0B) must not decode to "some A72": the boot line
    // prints exactly what was found, and collapsing the fields would
    // manufacture a recognition that did not happen.
    let midr = 0x414F_D0B1;
    assert_eq!(
        part(midr),
        Part::Unknown {
            implementer: 0x41,
            part: 0xD0B
        }
    );
    assert_eq!(variant(midr), 4);
    assert_eq!(revision(midr), 1);
}

#[test]
fn the_a72_reports_the_platform_the_kernel_assumes() {
    // The exact conjunction bootstrap refuses to boot without —
    // one place where the compiled expectation is spelled out in full.
    assert_eq!(asid_bits(A72_MMFR0), Some(16));
    assert_eq!(pa_bits(A72_MMFR0), Some(44));
    assert!(tgran4_supported(A72_MMFR0));
    assert!(el0_aarch64(A72_PFR0));
    assert!(el1_aarch64(A72_PFR0));
    assert!(fp_implemented(A72_PFR0));
}

#[test]
fn eight_bit_asids_are_the_floor_and_reserved_is_no_answer() {
    assert_eq!(asid_bits(0x0000_1104), Some(8));
    // Every reserved ASIDBits encoding must stay `None`: a decode that
    // guessed "8" here could pass the width check on hardware whose real
    // width nobody knows.
    for reserved in [0b0001u64, 0b0011, 0b0111, 0b1111] {
        assert_eq!(asid_bits(reserved << 4), None, "ASIDBits {reserved:#b}");
    }
}

#[test]
fn tgran4_reserved_encodings_are_not_support() {
    assert!(tgran4_supported(0x0000_0000)); // plain support
    assert!(tgran4_supported(0x1000_0000)); // support + LPA2
    assert!(!tgran4_supported(0xF000_0000)); // not implemented
    // Reserved must not be read as "supported": the paging model would
    // then be built on a field the architecture has not defined.
    assert!(!tgran4_supported(0x7000_0000));
}

#[test]
fn missing_els_are_refused_not_defaulted() {
    // EL0/EL1 "not implemented in AArch64" (0b0000) and every reserved
    // value answer no; only the two defined yes-encodings answer yes.
    assert!(!el0_aarch64(0x0000_2220));
    assert!(!el1_aarch64(0x0000_2202));
    assert!(el0_aarch64(0x0000_0001));
    assert!(el1_aarch64(0x0000_0020));
}

#[test]
fn an_fp_less_core_is_visible_as_such() {
    // FP = 0b1111 is "no FP/AdvSIMD". ADR-0002 keeps the kernel correct
    // on such a core; the decode keeps the transcript honest about it.
    assert!(!fp_implemented(0x000F_2222));
}

#[test]
fn x86_leaf1_display_family_model_match_sdm() {
    // QEMU `-cpu qemu64` style: base family 0xF, ext family 6 → 15;
    // base model 0xB, ext model 0x6 → 0x6B (107). eax1 = 0x00060fb1.
    let eax = 0x0006_0fb1;
    assert_eq!(x86_display_family(eax), 15);
    assert_eq!(x86_display_model(eax), 107);

    // Family 6 without extended family: model uses ext model nibble.
    // eax = base family 6, base model 0xA, ext model 0x1 → model 0x1A.
    let eax6 = (0x6 << 8) | (0xa << 4) | (0x1 << 16);
    assert_eq!(x86_display_family(eax6), 6);
    assert_eq!(x86_display_model(eax6), 0x1a);
}
