//! `ESR_EL1` in words.
//!
//! A fatal trap on silicon prints its syndrome and nothing else, so the
//! decoding of the exception-class table lives here. Unknown encodings
//! are named as unknown rather than guessed at.
use vstd::prelude::*;

verus! {

/// Exception class (`ESR_EL1.EC`, bits 31:26) and, for aborts, the fault
/// status its ISS carries.
#[derive(Debug, Clone, Copy, PartialEq, Eq)]
pub struct Fault {
    /// What kind of exception this is.
    pub class: &'static str,
    /// Why it aborted, when the class is an abort; `None` otherwise.
    pub detail: Option<Detail>,
    /// True when `FAR_EL1` holds a meaningful address for this class.
    pub far_valid: bool,
}

/// Fault status decoded from `DFSC`/`IFSC` (ISS bits 5:0).
#[derive(Debug, Clone, Copy, PartialEq, Eq)]
pub struct Detail {
    pub kind: &'static str,
    /// Translation-table level, where the status encodes one.
    pub level: Option<u8>,
    /// For a data abort: whether a write caused it (`WnR`).
    pub write: Option<bool>,
}

/// The class name of exception class `ec`, whether it is an abort, and
/// whether `FAR_EL1` is meaningful for it.
pub open spec fn class_spec(ec: u64) -> (&'static str, bool, bool) {
    if ec == 0x00 {
        ("unknown reason", false, false)
    } else if ec == 0x0e {
        ("illegal execution state", false, false)
    } else if ec == 0x15 {
        ("SVC from AArch64", false, false)
    } else if ec == 0x18 {
        ("trapped MSR/MRS or system instruction", false, false)
    } else if ec == 0x20 {
        ("instruction abort, lower EL", true, true)
    } else if ec == 0x21 {
        ("instruction abort, current EL", true, true)
    } else if ec == 0x22 {
        ("PC alignment fault", false, true)
    } else if ec == 0x24 {
        ("data abort, lower EL", true, true)
    } else if ec == 0x25 {
        ("data abort, current EL", true, true)
    } else if ec == 0x26 {
        ("SP alignment fault", false, false)
    } else if ec == 0x2c {
        ("floating-point exception", false, false)
    } else if ec == 0x30 || ec == 0x31 {
        ("breakpoint", false, true)
    } else if ec == 0x32 || ec == 0x33 {
        ("software step", false, true)
    } else if ec == 0x34 || ec == 0x35 {
        ("watchpoint", false, true)
    } else if ec == 0x3c {
        ("BRK instruction", false, false)
    } else {
        ("unrecognised exception class", false, false)
    }
}

/// The kind of fault status `s`, and whether it encodes a table level.
pub open spec fn status_spec(s: u8) -> (&'static str, bool) {
    if s <= 0x03 {
        ("address size fault", true)
    } else if s <= 0x07 {
        ("translation fault", true)
    } else if s <= 0x0b {
        ("access flag fault", true)
    } else if s <= 0x0f {
        ("permission fault", true)
    } else if s == 0x10 {
        ("synchronous external abort", false)
    } else if s == 0x11 {
        ("synchronous tag check fault", false)
    } else if 0x14 <= s <= 0x17 {
        ("synchronous external abort on table walk", true)
    } else if s == 0x18 {
        ("synchronous parity or ECC error", false)
    } else if 0x1c <= s <= 0x1f {
        ("synchronous parity or ECC error on table walk", true)
    } else if s == 0x21 {
        ("alignment fault", false)
    } else if s == 0x30 {
        ("TLB conflict abort", false)
    } else {
        ("unrecognised fault status", false)
    }
}

/// What [`describe`] gives for `esr`.
pub open spec fn describe_spec(esr: u64) -> Fault {
    let ec = esr / 0x400_0000 % 0x40;
    let iss = esr % 0x200_0000;
    let c = class_spec(ec);
    Fault {
        class: c.0,
        detail: if c.1 { Some(detail_spec(iss, ec == 0x24 || ec == 0x25)) } else { None },
        far_valid: c.2,
    }
}

/// What an abort's ISS says: the status kind, its level where it has one,
/// and `WnR` for a data abort.
pub open spec fn detail_spec(iss: u64, is_data: bool) -> Detail {
    let s = (iss % 0x40) as u8;
    let k = status_spec(s);
    Detail {
        kind: k.0,
        level: if k.1 { Some((s % 4) as u8) } else { None },
        write: if is_data { Some((iss / 0x40) % 2 == 1) } else { None },
    }
}

/// Decode `ESR_EL1`.
pub fn describe(esr: u64) -> (f: Fault)
    ensures
        f == describe_spec(esr),
{
    let ec = (esr >> 26u64) & 0x3f;
    let iss = esr & 0x01ff_ffff;
    assert(ec == esr / 0x400_0000 % 0x40 && iss == esr % 0x200_0000) by (bit_vector)
        requires
            ec == (esr >> 26u64) & 0x3f,
            iss == esr & 0x01ff_ffff,
    ;
    let (class, is_abort, far_valid): (&'static str, bool, bool) = if ec == 0x00 {
        ("unknown reason", false, false)
    } else if ec == 0x0e {
        ("illegal execution state", false, false)
    } else if ec == 0x15 {
        ("SVC from AArch64", false, false)
    } else if ec == 0x18 {
        ("trapped MSR/MRS or system instruction", false, false)
    } else if ec == 0x20 {
        ("instruction abort, lower EL", true, true)
    } else if ec == 0x21 {
        ("instruction abort, current EL", true, true)
    } else if ec == 0x22 {
        ("PC alignment fault", false, true)
    } else if ec == 0x24 {
        ("data abort, lower EL", true, true)
    } else if ec == 0x25 {
        ("data abort, current EL", true, true)
    } else if ec == 0x26 {
        ("SP alignment fault", false, false)
    } else if ec == 0x2c {
        ("floating-point exception", false, false)
    } else if ec == 0x30 || ec == 0x31 {
        ("breakpoint", false, true)
    } else if ec == 0x32 || ec == 0x33 {
        ("software step", false, true)
    } else if ec == 0x34 || ec == 0x35 {
        ("watchpoint", false, true)
    } else if ec == 0x3c {
        ("BRK instruction", false, false)
    } else {
        ("unrecognised exception class", false, false)
    };
    let detail = if is_abort {
        Some(abort_detail(iss, ec == 0x24 || ec == 0x25))
    } else {
        None
    };
    Fault { class, detail, far_valid }
}

fn abort_detail(iss: u64, is_data: bool) -> (d: Detail)
    ensures
        d == detail_spec(iss, is_data),
{
    let status = (iss % 0x40) as u8;
    let (kind, leveled): (&'static str, bool) = if status <= 0x03 {
        ("address size fault", true)
    } else if status <= 0x07 {
        ("translation fault", true)
    } else if status <= 0x0b {
        ("access flag fault", true)
    } else if status <= 0x0f {
        ("permission fault", true)
    } else if status == 0x10 {
        ("synchronous external abort", false)
    } else if status == 0x11 {
        ("synchronous tag check fault", false)
    } else if 0x14 <= status && status <= 0x17 {
        ("synchronous external abort on table walk", true)
    } else if status == 0x18 {
        ("synchronous parity or ECC error", false)
    } else if 0x1c <= status && status <= 0x1f {
        ("synchronous parity or ECC error on table walk", true)
    } else if status == 0x21 {
        ("alignment fault", false)
    } else if status == 0x30 {
        ("TLB conflict abort", false)
    } else {
        ("unrecognised fault status", false)
    };
    Detail {
        kind,
        level: if leveled { Some(status % 4) } else { None },
        write: if is_data { Some((iss / 0x40) % 2 == 1) } else { None },
    }
}

/// Only aborts carry a detail, only data aborts carry `WnR`, and the
/// address is meaningful for every abort.
pub proof fn lemma_detail_only_for_aborts(esr: u64)
    ensures
        ({
            let ec = esr / 0x400_0000 % 0x40;
            let f = describe_spec(esr);
            &&& f.detail is Some <==> (ec == 0x20 || ec == 0x21 || ec == 0x24 || ec == 0x25)
            &&& f.detail is Some ==> f.far_valid
            &&& (f.detail matches Some(d) ==> (d.write is Some <==> (ec == 0x24 || ec == 0x25)))
        }),
{
}

} // verus!
