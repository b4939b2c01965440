//! CPU identity decode — the platform self-check's arithmetic. The arch layer
//! reads the ID registers; this module turns them into typed answers, with
//! reserved encodings decoding to "no answer" rather than a plausible value.
use vstd::prelude::*;

verus! {

/// The part the kernel recognises, or the raw identity when it does not.
#[derive(Clone, Copy, Debug, PartialEq, Eq, Structural)]
pub enum Part {
    /// Arm Cortex-A72 (implementer `0x41`, part `0xD08`).
    CortexA72,
    /// Anything else, kept as the raw implementer and part fields.
    Unknown { implementer: u8, part: u16 },
}

pub const IMPLEMENTER_ARM: u8 = 0x41;
pub const PART_CORTEX_A72: u16 = 0xD08;

/// `MIDR_EL1[31:24]`.
pub open spec fn midr_implementer(midr: u64) -> u8 {
    ((midr >> 24u64) & 0xFF) as u8
}

/// `MIDR_EL1[15:4]`.
pub open spec fn midr_part(midr: u64) -> u16 {
    ((midr >> 4u64) & 0xFFF) as u16
}

/// Decode `MIDR_EL1` into the part the kernel recognises.
pub fn part(midr: u64) -> (p: Part)
    ensures
        (midr_implementer(midr) == IMPLEMENTER_ARM && midr_part(midr) == PART_CORTEX_A72) ==> p
            == Part::CortexA72,
        !(midr_implementer(midr) == IMPLEMENTER_ARM && midr_part(midr) == PART_CORTEX_A72) ==> p
            == (Part::Unknown { implementer: midr_implementer(midr), part: midr_part(midr) }),
{
    let implementer = ((midr >> 24u64) & 0xFF) as u8;
    let part = ((midr >> 4u64) & 0xFFF) as u16;
    if implementer == IMPLEMENTER_ARM && part == PART_CORTEX_A72 {
        Part::CortexA72
    } else {
        Part::Unknown { implementer, part }
    }
}

/// Major silicon revision — `MIDR_EL1[23:20]`.
pub fn variant(midr: u64) -> (r: u8)
    ensures
        r == ((midr >> 20u64) & 0xF) as u8,
{
    ((midr >> 20u64) & 0xF) as u8
}

/// Minor silicon revision — `MIDR_EL1[3:0]`.
pub fn revision(midr: u64) -> (r: u8)
    ensures
        r == (midr & 0xF) as u8,
{
    (midr & 0xF) as u8
}

/// ASID width from `ID_AA64MMFR0_EL1.ASIDBits`: 8 or 16, reserved is `None`.
pub fn asid_bits(mmfr0: u64) -> (r: Option<u32>)
    ensures
        r == (if (mmfr0 >> 4u64) & 0xF == 0 {
            Some(8u32)
        } else if (mmfr0 >> 4u64) & 0xF == 2 {
            Some(16u32)
        } else {
            None
        }),
{
    let f = (mmfr0 >> 4u64) & 0xF;
    if f == 0 {
        Some(8)
    } else if f == 2 {
        Some(16)
    } else {
        None
    }
}

/// Physical address bits for a `PARange` encoding.
pub open spec fn pa_range_bits(field: u64) -> Option<u32> {
    if field == 0 {
        Some(32u32)
    } else if field == 1 {
        Some(36u32)
    } else if field == 2 {
        Some(40u32)
    } else if field == 3 {
        Some(42u32)
    } else if field == 4 {
        Some(44u32)
    } else if field == 5 {
        Some(48u32)
    } else if field == 6 {
        Some(52u32)
    } else {
        None
    }
}

/// Physical address range in bits from `ID_AA64MMFR0_EL1.PARange`.
pub fn pa_bits(mmfr0: u64) -> (r: Option<u32>)
    ensures
        r == pa_range_bits(mmfr0 & 0xF),
{
    let f = mmfr0 & 0xF;
    if f == 0 {
        Some(32)
    } else if f == 1 {
        Some(36)
    } else if f == 2 {
        Some(40)
    } else if f == 3 {
        Some(42)
    } else if f == 4 {
        Some(44)
    } else if f == 5 {
        Some(48)
    } else if f == 6 {
        Some(52)
    } else {
        None
    }
}

/// Whether the 4 KiB granule is implemented (`TGran4` is 0 or 1).
pub fn tgran4_supported(mmfr0: u64) -> (r: bool)
    ensures
        r == ((mmfr0 >> 28u64) & 0xF == 0 || (mmfr0 >> 28u64) & 0xF == 1),
{
    let f = (mmfr0 >> 28u64) & 0xF;
    f == 0 || f == 1
}

/// Whether EL0 is implemented in AArch64 (`EL0` is 1 or 2).
pub fn el0_aarch64(pfr0: u64) -> (r: bool)
    ensures
        r == (pfr0 & 0xF == 1 || pfr0 & 0xF == 2),
{
    let f = pfr0 & 0xF;
    f == 1 || f == 2
}

/// Whether EL1 is implemented in AArch64.
pub fn el1_aarch64(pfr0: u64) -> (r: bool)
    ensures
        r == ((pfr0 >> 4u64) & 0xF == 1 || (pfr0 >> 4u64) & 0xF == 2),
{
    let f = (pfr0 >> 4u64) & 0xF;
    f == 1 || f == 2
}

/// Whether FP/AdvSIMD is implemented (`FP` is 0 or 1).
pub fn fp_implemented(pfr0: u64) -> (r: bool)
    ensures
        r == ((pfr0 >> 16u64) & 0xF == 0 || (pfr0 >> 16u64) & 0xF == 1),
{
    let f = (pfr0 >> 16u64) & 0xF;
    f == 0 || f == 1
}

/// Display family from x86 CPUID leaf 1 `eax`: base family, plus the extended
/// family when the base is `0x0F`.
pub fn x86_display_family(leaf1_eax: u32) -> (r: u32)
    ensures
        ({
            let base = (leaf1_eax >> 8u32) & 0xf;
            let ext = (leaf1_eax >> 20u32) & 0xff;
            r == if base == 0x0f { base + ext } else { base as int }
        }),
{
    let base = (leaf1_eax >> 8u32) & 0xf;
    let ext = (leaf1_eax >> 20u32) & 0xff;
    assert(base <= 0xf && ext <= 0xff) by (bit_vector)
        requires
            base == (leaf1_eax >> 8u32) & 0xf,
            ext == (leaf1_eax >> 20u32) & 0xff,
    ;
    if base == 0x0f {
        base + ext
    } else {
        base
    }
}

/// Display model from CPUID leaf 1 `eax`: base model, with the extended model
/// in the high nibble when the base family is `0x06` or `0x0F`.
pub fn x86_display_model(leaf1_eax: u32) -> (r: u32)
    ensures
        ({
            let family = (leaf1_eax >> 8u32) & 0xf;
            let model = (leaf1_eax >> 4u32) & 0xf;
            let ext = (leaf1_eax >> 16u32) & 0xf;
            r == if family == 0x06 || family == 0x0f { (ext << 4u32) | model } else { model }
        }),
{
    let base_family = (leaf1_eax >> 8u32) & 0xf;
    let base_model = (leaf1_eax >> 4u32) & 0xf;
    let ext_model = (leaf1_eax >> 16u32) & 0xf;
    if base_family == 0x06 || base_family == 0x0f {
        (ext_model << 4u32) | base_model
    } else {
        base_model
    }
}

} // verus!
