//! Hardware description and reconciliation.
//!
//! A [`HwDescription`] is what a firmware table said; [`CompiledClaims`] is
//! what the board support compiled in. [`reconcile`] compares the two and
//! yields one [`Verdict`] per fact. Nothing here configures anything: the
//! output is a report the boot prints ("verify, don't select").
//!
//! Board-free by construction: addresses and expectations arrive as
//! arguments, so this module never names a physical address.
use vstd::prelude::*;
use vstd::string::StringSliceAdditionalSpecFns;
use crate::fdt::{Extract, MemRange, Str64, MAX_MEM_RANGES};
use crate::wire::is_utf8;

verus! {

/// Where an observed fact came from.
#[derive(Debug, Clone, Copy, PartialEq, Eq, Structural)]
pub enum Provenance {
    /// A compile-time claim (e.g. a cargo feature), reported as such.
    Compiled,
    /// A CPU identification register.
    IdRegister,
    /// A firmware-provided table.
    FirmwareTable(TableKind),
    /// An MMIO presence probe.
    Probe,
}

/// Which firmware table.
#[derive(Debug, Clone, Copy, PartialEq, Eq, Structural)]
pub enum TableKind {
    Fdt,
    Cpuid,
    PvhMemMap,
}

/// Outcome of comparing one observed fact with its compiled claim.
#[derive(Debug, Clone, Copy, PartialEq, Eq, Structural)]
pub enum Verdict {
    /// Observation agrees with the compiled claim.
    Matches,
    /// Hardware reports more than the compiled map uses — the evidence line
    /// a future identity-map raise must cite.
    BeyondCompiledMap,
    /// Hardware reports less than the compiled map assumes.
    Short,
    /// Observation and claim disagree (non-memory facts).
    Differs,
    /// Nothing usable was observed; the reason is reported alongside.
    Unknown,
}

/// What a firmware table described. Built from [`Extract`] today; another
/// table (CPUID, a PVH memory map) builds the same shape.
#[derive(Debug, Clone, Copy)]
pub struct HwDescription {
    pub source: TableKind,
    pub model: Str64,
    pub revision: Option<u32>,
    pub memory: [MemRange; MAX_MEM_RANGES],
    pub memory_ranges: usize,
    pub memory_total: u64,
    pub cpus: u32,
}

impl HwDescription {
    pub fn from_fdt(x: &Extract) -> (r: Self)
        ensures
            r.source == TableKind::Fdt,
            r.model == x.model,
            r.revision == x.revision,
            r.memory == x.memory,
            r.memory_ranges == x.memory_ranges,
            r.memory_total == x.memory_total,
            r.cpus == x.cpus,
    {
        Self {
            source: TableKind::Fdt,
            model: x.model,
            revision: x.revision,
            memory: x.memory,
            memory_ranges: x.memory_ranges,
            memory_total: x.memory_total,
            cpus: x.cpus,
        }
    }
}

/// The compiled expectations the report reconciles against.
#[derive(Debug, Clone, Copy)]
pub struct CompiledClaims {
    /// Exclusive end of the identity-mapped RAM the kernel actually uses.
    pub identity_ram_end: u64,
    /// Cores the board support expects the SoC to have.
    pub expected_cpus: u32,
    /// The model string must start with this.
    pub model_prefix: &'static str,
}

/// One verdict per fact.
#[derive(Debug, Clone, Copy)]
pub struct Report {
    pub model: Verdict,
    pub memory: Verdict,
    pub cpus: Verdict,
}

/// The bytes `Str64::as_str` shows for held bytes `b`.
pub open spec fn shown_text(b: Seq<u8>) -> Seq<u8> {
    if is_utf8(b) { b } else { "<non-utf8>".spec_bytes() }
}

/// The model outcome: unknown when empty, else whether the shown text
/// starts with the claimed prefix.
pub open spec fn model_verdict(prefix: Seq<u8>, held: Seq<u8>) -> Verdict {
    if held.len() == 0 {
        Verdict::Unknown
    } else if prefix.len() <= shown_text(held).len() && shown_text(held).take(prefix.len() as int) == prefix {
        Verdict::Matches
    } else {
        Verdict::Differs
    }
}

/// The memory outcome: `>=` against the identity map, zero as unknown.
pub open spec fn memory_verdict(identity_ram_end: u64, total: u64) -> Verdict {
    if total == 0 {
        Verdict::Unknown
    } else if total > identity_ram_end {
        Verdict::BeyondCompiledMap
    } else if total == identity_ram_end {
        Verdict::Matches
    } else {
        Verdict::Short
    }
}

/// The cpu outcome: zero as unknown, else equality.
pub open spec fn cpus_verdict(expected: u32, cpus: u32) -> Verdict {
    if cpus == 0 {
        Verdict::Unknown
    } else if cpus == expected {
        Verdict::Matches
    } else {
        Verdict::Differs
    }
}

/// Whether `s` starts with `prefix`, byte for byte.
fn starts_with(s: &str, prefix: &str) -> (r: bool)
    ensures
        r == (prefix.spec_bytes().len() <= s.spec_bytes().len()
            && s.spec_bytes().take(prefix.spec_bytes().len() as int) == prefix.spec_bytes()),
{
    let a = s.as_bytes();
    let p = prefix.as_bytes();
    if p.len() > a.len() {
        return false;
    }
    let mut i: usize = 0;
    while i < p.len()
        invariant
            a@ == s.spec_bytes(),
            p@ == prefix.spec_bytes(),
            p.len() <= a.len(),
            i <= p.len(),
            forall|j: int| 0 <= j < i ==> a@[j] == p@[j],
        decreases p.len() - i,
    {
        if a[i] != p[i] {
            assert(a@.take(p@.len() as int)[i as int] != p@[i as int]);
            assert(a@.take(p@.len() as int) != p@);
            return false;
        }
        i = i + 1;
    }
    assert(a@.take(p@.len() as int) =~= p@);
    true
}

/// Pure reconciliation. Memory compares with `>=`, never equality: the
/// tree reports ARM memory (the VideoCore share is excluded), and a zero
/// total is an un-patched distributed blob, reported as unknown
/// rather than as a short board.
pub fn reconcile(claims: &CompiledClaims, observed: &HwDescription) -> (r: Report)
    ensures
        r.model == model_verdict(claims.model_prefix.spec_bytes(), observed.model@),
        r.memory == memory_verdict(claims.identity_ram_end, observed.memory_total),
        r.cpus == cpus_verdict(claims.expected_cpus, observed.cpus),
{
    let model = if observed.model.is_empty() {
        Verdict::Unknown
    } else if starts_with(observed.model.as_str(), claims.model_prefix) {
        Verdict::Matches
    } else {
        Verdict::Differs
    };

    let memory = if observed.memory_total == 0 {
        Verdict::Unknown
    } else if observed.memory_total > claims.identity_ram_end {
        Verdict::BeyondCompiledMap
    } else if observed.memory_total == claims.identity_ram_end {
        Verdict::Matches
    } else {
        Verdict::Short
    };

    let cpus = if observed.cpus == 0 {
        Verdict::Unknown
    } else if observed.cpus == claims.expected_cpus {
        Verdict::Matches
    } else {
        Verdict::Differs
    };

    Report { model, memory, cpus }
}

/// An un-patched blob (zero memory total) is never reported as a short
/// board, whatever the compiled claim.
pub proof fn lemma_zero_memory_is_unknown(identity_ram_end: u64)
    ensures
        memory_verdict(identity_ram_end, 0) == Verdict::Unknown,
{
}

/// Memory at or beyond the compiled map is never `Short`; memory below it
/// (and non-zero) always is.
pub proof fn lemma_memory_compares_by_ge(identity_ram_end: u64, total: u64)
    requires
        total != 0,
    ensures
        (memory_verdict(identity_ram_end, total) == Verdict::Short) == (total < identity_ram_end),
        (memory_verdict(identity_ram_end, total) == Verdict::BeyondCompiledMap) == (total > identity_ram_end),
{
}

} // verus!
