//! GICv2 register index arithmetic: which word and bit (or byte) of a
//! distributor array belongs to an interrupt id.
use vstd::prelude::*;

verus! {

/// Id reported by `GICC_IAR` when there is nothing to claim.
pub const SPURIOUS_ID: u32 = 1023;

/// Id reported when the pending interrupt belongs to the other group.
pub const SPURIOUS_GROUP_ID: u32 = 1022;

/// Byte offset and mask for a one-bit-per-id array.
pub fn bit_slot(irq: u32) -> (r: (usize, u32))
    ensures
        r.0 == (irq / 32) * 4,
        r.1 == 1u32 << (irq % 32),
{
    let word = (irq / 32) as usize;
    let bit = irq % 32;
    (word * 4, 1u32 << bit)
}

/// Byte offset and bit shift for a one-byte-per-id array.
pub fn byte_slot(irq: u32) -> (r: (usize, u32))
    ensures
        r.0 == (irq / 4) * 4,
        r.1 == (irq % 4) * 8,
{
    let word = (irq / 4) as usize;
    let shift = (irq % 4) * 8;
    (word * 4, shift)
}

/// Replace the byte belonging to `irq` inside a read-modify-write word.
pub fn insert_byte(word: u32, irq: u32, value: u8) -> (r: u32)
    ensures
        ({
            let shift = ((irq % 4) * 8) as u32;
            r == (word & !(0xFFu32 << shift)) | ((value as u32) << shift)
        }),
{
    let (_, shift) = byte_slot(irq);
    (word & !(0xFFu32 << shift)) | ((value as u32) << shift)
}

/// Interrupt id carried by an `IAR`/`EOIR` word.
pub fn ack_id(raw: u32) -> (r: u32)
    ensures
        r == raw & 0x3FF,
{
    raw & 0x3FF
}

/// True when an `IAR` word carries no real interrupt.
pub fn is_spurious(raw: u32) -> (r: bool)
    ensures
        r == (raw & 0x3FF == SPURIOUS_ID || raw & 0x3FF == SPURIOUS_GROUP_ID),
{
    let id = ack_id(raw);
    id == SPURIOUS_ID || id == SPURIOUS_GROUP_ID
}

/// Interrupt id classes, which decide whether an id is banked per-CPU.
#[derive(Clone, Copy, Debug, PartialEq, Eq, Structural)]
pub enum IrqClass {
    /// 0–15: software generated.
    Sgi,
    /// 16–31: private peripheral.
    Ppi,
    /// 32–1019: shared peripheral.
    Spi,
    /// Not a deliverable id.
    Invalid,
}

pub open spec fn spec_classify(irq: u32) -> IrqClass {
    if irq < 16 {
        IrqClass::Sgi
    } else if irq < 32 {
        IrqClass::Ppi
    } else if irq < 1020 {
        IrqClass::Spi
    } else {
        IrqClass::Invalid
    }
}

/// Classify an interrupt id.
pub fn classify(irq: u32) -> (c: IrqClass)
    ensures
        c == spec_classify(irq),
{
    if irq < 16 {
        IrqClass::Sgi
    } else if irq < 32 {
        IrqClass::Ppi
    } else if irq < 1020 {
        IrqClass::Spi
    } else {
        IrqClass::Invalid
    }
}

/// How `GICD_SGIR.TargetListFilter` picks the CPUs that receive an SGI.
#[derive(Clone, Copy, Debug, PartialEq, Eq, Structural)]
pub enum SgiFilter {
    /// Forward to the CPUs named in `CPUTargetList`.
    TargetList,
    /// All interfaces except the requester.
    AllButSelf,
    /// The requesting CPU only.
    SelfOnly,
}

/// The two-bit `TargetListFilter` field value.
pub open spec fn filter_code(filter: SgiFilter) -> u32 {
    match filter {
        SgiFilter::TargetList => 0,
        SgiFilter::AllButSelf => 1,
        SgiFilter::SelfOnly => 2,
    }
}

/// Encode a `GICD_SGIR` write; `None` if `sgi_id` is not an SGI (0..=15).
pub fn sgir_word(sgi_id: u32, cpu_target_list: u8, filter: SgiFilter) -> (r: Option<u32>)
    ensures
        sgi_id > 15 ==> r is None,
        sgi_id <= 15 ==> r == Some(
            (filter_code(filter) << 24u32) | ((cpu_target_list as u32) << 16u32) | sgi_id,
        ),
{
    if sgi_id > 15 {
        return None;
    }
    let code: u32 = match filter {
        SgiFilter::TargetList => 0,
        SgiFilter::AllButSelf => 1,
        SgiFilter::SelfOnly => 2,
    };
    Some((code << 24u32) | ((cpu_target_list as u32) << 16u32) | sgi_id)
}

} // verus!
