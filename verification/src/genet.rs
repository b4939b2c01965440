//! Pure BCM2711 GENET v5 contracts.
//!
//! This module stops at arithmetic and ownership. It does not select a board
//! address, touch MMIO, or expose a descriptor to EL0. A binding must supply
//! a device-tree translation and use these checks before programming the
//! controller.
use vstd::prelude::*;
use vstd::string::*;
use crate::text::{dec, hex, hex_padded, push_dec, push_hex, push_hex_padded};

pub mod registers;
pub mod mdio;
pub mod phy;
pub mod interrupt;
pub mod dma_registers;

verus! {

/// BCM2711 GENET v5 register window size from the device tree.
pub const REGISTER_BYTES: u64 = 0x1_0000;
/// One GENET descriptor's status/address words for v4 and later.
pub const DESCRIPTOR_BYTES: u64 = 12;
/// The hardware's total descriptor count, shared by TX and RX rings.
pub const TOTAL_DESCRIPTORS: u16 = 256;
/// Linux `DESC_INDEX`: the descriptor-based ring, not a priority queue.
pub const DESC_RING: u8 = 16;
/// Linux v5 default TX ring (ring 0, BDs 0..127). `DMA_RING_CFG` on that
/// path is `0x1f` (rings 0–4), not bit 16.
pub const DEFAULT_TX_RING: u8 = 0;
/// Minimum Ethernet payload the first TX slice writes (no FCS).
pub const MIN_FRAME_BYTES: u32 = 60;
/// Linux `sizeof(struct status_64)`: TBUF strips this prefix before UniMAC.
pub const TSB_BYTES: u32 = 64;
/// DMA length posted when TBUF 64-byte mode is on: TSB plus the probe frame.
pub const TX_DMA_BYTES: u32 = TSB_BYTES + MIN_FRAME_BYTES;
/// Locally-administered station address used as the probe frame SA.
pub const STATION_ADDR: [u8; 6] = [0x02, 0x00, 0x00, 0x00, 0x00, 0x01];
/// Maximum standard Ethernet frame accepted by the first bounded slice.
pub const MAX_FRAME_BYTES: u32 = 1536;
/// GENET v5 DMA burst value required by BCM2711 platform data.
pub const BCM2711_DMA_BURST: u32 = 0x08;
pub const DMA_LENGTH_MASK: u32 = 0x0fff;
pub const DMA_LENGTH_SHIFT: u32 = 16;
pub const DMA_OWN: u32 = 0x8000;
pub const DMA_EOP: u32 = 0x4000;
pub const DMA_SOP: u32 = 0x2000;
pub const DMA_WRAP: u32 = 0x1000;
/// TX descriptor: UniMAC appends FCS. Linux `DMA_TX_APPEND_CRC`.
pub const DMA_TX_APPEND_CRC: u32 = 0x0040;
/// TX descriptor queue tag. v5 `qtag_mask` is `0x3f` at shift 7.
pub const DMA_TX_QTAG_SHIFT: u32 = 7;
pub const DMA_TX_QTAG_MASK: u32 = 0x3f;
pub const GENET_V5_MAJOR: u8 = 5;

/// Resolved copper speed after autoneg. Unknown encodings are a refusal.
#[derive(Clone, Copy, Debug, PartialEq, Eq, Structural)]
pub enum LinkSpeed {
    Ten,
    Hundred,
    Thousand,
}

#[derive(Clone, Copy, Debug, PartialEq, Eq, Structural)]
pub enum SpeedError {
    LinkDown,
    Unknown,
}

/// Highest common clause-22 speed, as a spec.
pub open spec fn aneg_speed(bmsr: u16, lpa: u16, ctrl1000: u16, stat1000: u16) -> Result<LinkSpeed, SpeedError> {
    if bmsr & phy::BMSR_LINK == 0 {
        Err(SpeedError::LinkDown)
    } else if bmsr & phy::BMSR_ANEG_DONE == 0 {
        Err(SpeedError::Unknown)
    } else if stat1000 & phy::STAT1000_1000 != 0 && ctrl1000 & phy::CTRL1000_1000 != 0 {
        Ok(LinkSpeed::Thousand)
    } else if lpa & phy::LPA_100 != 0 {
        Ok(LinkSpeed::Hundred)
    } else if lpa & phy::LPA_10 != 0 {
        Ok(LinkSpeed::Ten)
    } else {
        Err(SpeedError::Unknown)
    }
}

/// Highest common clause-22 speed. Does not invent RGMII delay.
pub fn classify_aneg_speed(bmsr: u16, lpa: u16, ctrl1000: u16, stat1000: u16) -> (r: Result<LinkSpeed, SpeedError>)
    ensures
        r == aneg_speed(bmsr, lpa, ctrl1000, stat1000),
{
    if bmsr & phy::BMSR_LINK == 0 {
        return Err(SpeedError::LinkDown);
    }
    if bmsr & phy::BMSR_ANEG_DONE == 0 {
        return Err(SpeedError::Unknown);
    }
    if stat1000 & phy::STAT1000_1000 != 0 && ctrl1000 & phy::CTRL1000_1000 != 0 {
        return Ok(LinkSpeed::Thousand);
    }
    if lpa & phy::LPA_100 != 0 {
        return Ok(LinkSpeed::Hundred);
    }
    if lpa & phy::LPA_10 != 0 {
        return Ok(LinkSpeed::Ten);
    }
    Err(SpeedError::Unknown)
}

/// The UniMAC speed code: 0, 1, 2 for 10, 100, 1000 Mb/s.
pub open spec fn speed_code(speed: LinkSpeed) -> u32 {
    match speed {
        LinkSpeed::Ten => 0,
        LinkSpeed::Hundred => 1,
        LinkSpeed::Thousand => 2,
    }
}

/// `CMD_SPEED_*` field for [`registers::UMAC_CMD`] (shift 2, width 2).
pub fn umac_speed_bits(speed: LinkSpeed) -> (r: u32)
    ensures
        r == speed_code(speed) * 4,
{
    let code: u32 = match speed {
        LinkSpeed::Ten => 0,
        LinkSpeed::Hundred => 1,
        LinkSpeed::Thousand => 2,
    };
    assert(code << 2u32 == code * 4) by (bit_vector)
        requires code <= 2;
    code << registers::UMAC_CMD_SPEED_SHIFT
}

/// Replace only the speed field; every other bit (TX/RX enable among them)
/// is preserved.
pub fn umac_cmd_with_speed(cmd: u32, speed: LinkSpeed) -> (r: u32)
    ensures
        r == (cmd & !registers::UMAC_CMD_SPEED_MASK) | (speed_code(speed) * 4) as u32,
        r & !registers::UMAC_CMD_SPEED_MASK == cmd & !registers::UMAC_CMD_SPEED_MASK,
        r & registers::UMAC_CMD_SPEED_MASK == (speed_code(speed) * 4) as u32,
{
    let bits = umac_speed_bits(speed);
    let r = (cmd & !registers::UMAC_CMD_SPEED_MASK) | bits;
    assert(r & !0xcu32 == cmd & !0xcu32 && r & 0xcu32 == bits) by (bit_vector)
        requires r == (cmd & !0xcu32) | bits, bits == 0 || bits == 4 || bits == 8;
    r
}

/// Speed plus the UniMAC datapath bits Linux sets at link-up:
/// `TX_EN` and `RX_EN` together, `PAD_EN`, `CRC_FWD`, and `NO_LEN_CHK`.
/// Does not set `PROMISC`.
pub fn umac_cmd_datapath(cmd: u32, speed: LinkSpeed) -> (r: u32)
    ensures
        r == ((cmd & !registers::UMAC_CMD_SPEED_MASK) | (speed_code(speed) * 4) as u32)
            | registers::UMAC_CMD_TX_EN | registers::UMAC_CMD_RX_EN | registers::UMAC_CMD_PAD_EN
            | registers::UMAC_CMD_CRC_FWD | registers::UMAC_CMD_NO_LEN_CHK,
{
    umac_cmd_with_speed(cmd, speed) | registers::UMAC_CMD_TX_EN | registers::UMAC_CMD_RX_EN
        | registers::UMAC_CMD_PAD_EN | registers::UMAC_CMD_CRC_FWD | registers::UMAC_CMD_NO_LEN_CHK
}

/// `SYS_PORT_CTRL` for the Pi 4 external BCM54213 on RGMII.
pub fn rgmii_port_ctrl() -> (r: u32)
    ensures
        r == registers::PORT_MODE_EXT_GPHY,
{
    registers::PORT_MODE_EXT_GPHY
}

/// Enable the RGMII block for `rgmii-rxid` without claiming link.
///
/// Clears `OOB_DISABLE`, `ID_MODE_DIS` (the PHY owns the RX delay), and any
/// leftover `RGMII_LINK`. Sets `RGMII_MODE_EN`. Link is [`rgmii_oob_with_link`].
pub fn rgmii_oob_mode(current: u32) -> (r: u32)
    ensures
        r == (current & !registers::OOB_DISABLE & !registers::ID_MODE_DIS & !registers::RGMII_LINK)
            | registers::RGMII_MODE_EN,
{
    (current & !registers::OOB_DISABLE & !registers::ID_MODE_DIS & !registers::RGMII_LINK)
        | registers::RGMII_MODE_EN
}

/// Same as [`rgmii_oob_mode`], with `RGMII_LINK` for an Enabled+Up path.
pub fn rgmii_oob_with_link(current: u32) -> (r: u32)
    ensures
        r == ((current & !registers::OOB_DISABLE & !registers::ID_MODE_DIS & !registers::RGMII_LINK)
            | registers::RGMII_MODE_EN) | registers::RGMII_LINK,
{
    rgmii_oob_mode(current) | registers::RGMII_LINK
}

/// The OOB word never keeps `OOB_DISABLE` or `ID_MODE_DIS`, always has
/// `RGMII_MODE_EN`, has `RGMII_LINK` exactly with link, and keeps every
/// other bit of `current`.
pub proof fn lemma_rgmii_oob_bits(current: u32)
    ensures
        ({
            let mode = (current & !0x20u32 & !0x1_0000u32 & !0x10u32) | 0x40u32;
            let up = mode | 0x10u32;
            &&& mode & 0x20 == 0 && mode & 0x1_0000 == 0 && mode & 0x10 == 0 && mode & 0x40 == 0x40
            &&& up & 0x20 == 0 && up & 0x1_0000 == 0 && up & 0x10 == 0x10 && up & 0x40 == 0x40
            &&& mode & !0x1_0070u32 == current & !0x1_0070u32
            &&& up & !0x1_0070u32 == current & !0x1_0070u32
        }),
{
    assert({
        let mode = (current & !0x20u32 & !0x1_0000u32 & !0x10u32) | 0x40u32;
        let up = mode | 0x10u32;
        &&& mode & 0x20 == 0 && mode & 0x1_0000 == 0 && mode & 0x10 == 0 && mode & 0x40 == 0x40
        &&& up & 0x20 == 0 && up & 0x1_0000 == 0 && up & 0x10 == 0x10 && up & 0x40 == 0x40
        &&& mode & !0x1_0070u32 == current & !0x1_0070u32
        &&& up & !0x1_0070u32 == current & !0x1_0070u32
    }) by (bit_vector);
}

/// Queue 0 (priority) or [`DESC_RING`] (descriptor-based). Other indices refuse.
pub fn queue_supported(queue: u8) -> (r: bool)
    ensures
        r == (queue == 0 || queue == DESC_RING),
{
    queue == 0 || queue == DESC_RING
}

/// `UMAC_MAC0` word: first four station-address bytes, big-endian on the wire.
pub fn umac_mac0(addr: [u8; 6]) -> (r: u32)
    ensures
        r == addr[0] * 0x100_0000 + addr[1] * 0x1_0000 + addr[2] * 0x100 + addr[3],
{
    let (a, b, c, d) = (addr[0] as u32, addr[1] as u32, addr[2] as u32, addr[3] as u32);
    assert(a << 24u32 | b << 16u32 | c << 8u32 | d == a * 0x100_0000 + b * 0x1_0000 + c * 0x100 + d) by (bit_vector)
        requires a < 256, b < 256, c < 256, d < 256;
    a << 24 | b << 16 | c << 8 | d
}

/// `UMAC_MAC1` word: last two station-address bytes.
pub fn umac_mac1(addr: [u8; 6]) -> (r: u32)
    ensures
        r == addr[4] * 0x100 + addr[5],
{
    let (a, b) = (addr[4] as u32, addr[5] as u32);
    assert(a << 8u32 | b == a * 0x100 + b) by (bit_vector)
        requires a < 256, b < 256;
    a << 8 | b
}

/// Linux `BCMGENET_STAT_OFFSET`: hardware hole after the RX MIB block.
pub const UMAC_MIB_GAP: u32 = 0x0c;
/// UniMAC RSV words Linux walks from `UMAC_MIB_START` before the gap.
pub const UMAC_RX_MIB_WORDS: u32 = 29;
/// TX size-histogram words before `tx_pkts`.
pub const UMAC_TX_SIZE_HIST_WORDS: u32 = 10;
/// Index of `pok` after the TX size histogram (`pkts` is 0).
pub const UMAC_TX_POK_INDEX: u32 = 17;

/// Packed C-struct offset of `tx.pkts` (no 0xC hole). Not what Linux reads.
pub fn umac_tx_pkts_packed() -> (r: u32)
    ensures
        r == registers::UMAC_MIB_START + UMAC_RX_MIB_WORDS * 4 + UMAC_TX_SIZE_HIST_WORDS * 4,
{
    registers::UMAC_MIB_START + UMAC_RX_MIB_WORDS * 4 + UMAC_TX_SIZE_HIST_WORDS * 4
}

/// Linux `bcmgenet_update_mib_counters` offset of `tx_pkts`.
pub fn umac_tx_pkts_linux() -> (r: u32)
    ensures
        r == registers::UMAC_MIB_START + UMAC_RX_MIB_WORDS * 4 + UMAC_MIB_GAP + UMAC_TX_SIZE_HIST_WORDS * 4,
{
    registers::UMAC_MIB_START + UMAC_RX_MIB_WORDS * 4 + UMAC_MIB_GAP + UMAC_TX_SIZE_HIST_WORDS * 4
}

/// Linux `tx_good_pkts` (`pok`) after the 0xC hole.
pub fn umac_tx_pok() -> (r: u32)
    ensures
        r == registers::UMAC_MIB_START + UMAC_RX_MIB_WORDS * 4 + UMAC_MIB_GAP + UMAC_TX_SIZE_HIST_WORDS * 4
            + UMAC_TX_POK_INDEX * 4,
{
    umac_tx_pkts_linux() + UMAC_TX_POK_INDEX * 4
}

/// Pulse word for `UMAC_MIB_CTRL` before releasing the counters.
pub fn umac_mib_reset_bits() -> (r: u32)
    ensures
        r == registers::MIB_RESET_RX | registers::MIB_RESET_TX | registers::MIB_RESET_RUNT,
{
    registers::MIB_RESET_RX | registers::MIB_RESET_TX | registers::MIB_RESET_RUNT
}

/// Clear `TBUF_64B_EN`. The probe frame has no 64-byte TSB prefix.
pub fn tbuf_raw_frame(current: u32) -> (r: u32)
    ensures
        r == current & !registers::TBUF_64B_EN,
{
    current & !registers::TBUF_64B_EN
}

/// Set `TBUF_64B_EN`. Linux `init_umac` does this and prepends a TSB.
pub fn tbuf_with_tsb(current: u32) -> (r: u32)
    ensures
        r == current | registers::TBUF_64B_EN,
{
    current | registers::TBUF_64B_EN
}

/// The bytes of the TSB probe for a buffer of `n` bytes: all zero, and when
/// there is room, the broadcast destination, the station address, and the
/// EtherType `0x88b5` after the 64-byte TSB.
pub open spec fn tsb_probe_byte(n: int, i: int) -> u8 {
    if n < TSB_BYTES + 14 || i < TSB_BYTES as int || i >= TSB_BYTES + 14 {
        0
    } else if i < TSB_BYTES + 6 {
        0xff
    } else if i < TSB_BYTES + 12 {
        STATION_ADDR[i - TSB_BYTES - 6]
    } else if i == TSB_BYTES + 12 {
        0x88
    } else {
        0xb5
    }
}

/// Write a zero TSB then the broadcast probe (dest ff:ff, SA station, 0x88b5).
pub fn write_tsb_probe(buf: &mut [u8])
    ensures
        final(buf)@.len() == old(buf)@.len(),
        forall|i: int| 0 <= i < final(buf)@.len() ==> #[trigger] final(buf)@[i] == tsb_probe_byte(final(buf)@.len() as int, i),
{
    let n = buf.len();
    let mut i: usize = 0;
    while i < n
        invariant
            buf@.len() == n,
            i <= n,
            forall|j: int| 0 <= j < i ==> buf@[j] == 0,
        decreases n - i,
    {
        buf[i] = 0;
        i = i + 1;
    }
    let start = TSB_BYTES as usize;
    if n >= start + 14 {
        let mut k: usize = 0;
        while k < 6
            invariant
                buf@.len() == n,
                n >= start + 14,
                start == TSB_BYTES,
                k <= 6,
                forall|j: int| 0 <= j < n ==> #[trigger] buf@[j] == (if start <= j < start + k { 0xffu8 } else { 0u8 }),
            decreases 6 - k,
        {
            buf[start + k] = 0xff;
            k = k + 1;
        }
        let station = STATION_ADDR;
        let mut k: usize = 0;
        while k < 6
            invariant
                buf@.len() == n,
                n >= start + 14,
                start == TSB_BYTES,
                station == STATION_ADDR,
                k <= 6,
                forall|j: int| 0 <= j < n ==> #[trigger] buf@[j] == (if start <= j < start + 6 {
                    0xffu8
                } else if start + 6 <= j < start + 6 + k {
                    STATION_ADDR[j - start - 6]
                } else {
                    0u8
                }),
            decreases 6 - k,
        {
            buf[start + 6 + k] = station[k];
            k = k + 1;
        }
        buf[start + 12] = 0x88;
        buf[start + 13] = 0xb5;
    }
}

/// Linux sets `ENET_MAX_MTU << 16` on TDMA `FLOW_PERIOD` when the ring is not 0.
pub fn tdma_flow_period(queue: u8) -> (r: u32)
    ensures
        r == (if queue == 0 { 0 } else { MAX_FRAME_BYTES * 0x1_0000 }),
{
    if queue == 0 {
        0
    } else {
        MAX_FRAME_BYTES * 0x1_0000
    }
}

#[derive(Clone, Copy, Debug, PartialEq, Eq, Structural)]
pub struct Revision {
    pub major: u8,
    pub minor: u8,
    pub patch: u16,
}

#[derive(Clone, Copy, Debug, PartialEq, Eq, Structural)]
pub enum RevisionError {
    Unsupported(u8),
}

/// `SYS_REV_CTRL` bits 27:24, the encoded major.
pub open spec fn encoded_major(raw: u32) -> u8 {
    ((raw >> 24u32) & 0x0f) as u8
}

impl Revision {
    /// `SYS_REV_CTRL` [27:24] is not the logical GENET major: encoded 6/7
    /// are logical v5, encoded 5 is v4, encoded 0 is v1. Only the v5
    /// descriptor family is modelled, so 6/7 are accepted and the chip's
    /// encoded major is what the report prints.
    pub fn decode(raw: u32) -> (r: Result<Self, RevisionError>)
        ensures
            encoded_major(raw) != 6 && encoded_major(raw) != 7 ==> r == Err::<Self, RevisionError>(
                RevisionError::Unsupported(encoded_major(raw)),
            ),
            encoded_major(raw) == 6 || encoded_major(raw) == 7 ==> r == Ok::<Self, RevisionError>(
                Revision { major: encoded_major(raw), minor: ((raw >> 16u32) & 0x0f) as u8, patch: (raw & 0xffff) as u16 },
            ),
    {
        let encoded = ((raw >> 24) & 0x0f) as u8;
        if encoded != 6 && encoded != 7 {
            return Err(RevisionError::Unsupported(encoded));
        }
        Ok(Self { major: encoded, minor: ((raw >> 16) & 0x0f) as u8, patch: (raw & 0xffff) as u16 })
    }
}

/// Outcome of the compiled-window GENET bring-up. Not a NIC.
#[derive(Debug, Clone, Copy, PartialEq, Eq, Structural)]
pub enum MmioProbe {
    NoBinding,
    OutsideWindow,
    NotPresent,
    Unsupported(u8),
    Timeout,
    InvalidBinding,
    Revision(Revision),
}

/// Compare an FDT-translated register window to the compiled claim.
/// The kernel maps the compiled window, then verifies the binding: a
/// discovered PA is never used as a map base.
pub fn matches_compiled_window(mmio_base: u64, mmio_len: u64, compiled_base: u64, compiled_len: u64) -> (r: bool)
    ensures
        r == (mmio_base == compiled_base && mmio_len == compiled_len),
{
    mmio_base == compiled_base && mmio_len == compiled_len
}

/// Decide whether the compiled window may be probed.
///
/// `Ok(())` means the binding matches and the caller must run the probe.
/// `Err` is the boot line: do not invent a register word.
pub fn mmio_probe_intent(binding: Option<(u64, u64)>, compiled_base: u64, compiled_len: u64) -> (r: Result<(), MmioProbe>)
    ensures
        binding is None ==> r == Err::<(), MmioProbe>(MmioProbe::NoBinding),
        binding is Some ==> (r == if (binding->0).0 == compiled_base && (binding->0).1 == compiled_len {
            Ok::<(), MmioProbe>(())
        } else {
            Err::<(), MmioProbe>(MmioProbe::OutsideWindow)
        }),
{
    match binding {
        None => Err(MmioProbe::NoBinding),
        Some((base, len)) => {
            if !matches_compiled_window(base, len, compiled_base, compiled_len) {
                Err(MmioProbe::OutsideWindow)
            } else {
                Ok(())
            }
        },
    }
}

/// The boot line for a probe outcome.
pub open spec fn mmio_probe_text(p: MmioProbe) -> Seq<char> {
    match p {
        MmioProbe::NoBinding => "genet: probe unavailable (no binding)"@,
        MmioProbe::OutsideWindow => "genet: probe skipped (binding outside compiled window)"@,
        MmioProbe::NotPresent => "genet: probe unavailable (NotPresent)"@,
        MmioProbe::Unsupported(major) => "genet: probe unavailable (Unsupported("@ + dec(major as nat) + "))"@,
        MmioProbe::Timeout => "genet: probe unavailable (Timeout)"@,
        MmioProbe::InvalidBinding => "genet: probe unavailable (InvalidBinding)"@,
        MmioProbe::Revision(rev) => "genet: rev="@ + dec(rev.major as nat) + "."@ + dec(rev.minor as nat)
            + " patch=0x"@ + hex(rev.patch as nat) + " (mmio, not a nic)"@,
    }
}

impl MmioProbe {
    /// The boot line.
    pub fn line(&self) -> (r: String)
        ensures
            r@ == mmio_probe_text(*self),
    {
        match self {
            MmioProbe::NoBinding => String::from_str("genet: probe unavailable (no binding)"),
            MmioProbe::OutsideWindow => String::from_str("genet: probe skipped (binding outside compiled window)"),
            MmioProbe::NotPresent => String::from_str("genet: probe unavailable (NotPresent)"),
            MmioProbe::Unsupported(major) => {
                let mut s = String::from_str("genet: probe unavailable (Unsupported(");
                push_dec(&mut s, *major as u64);
                s.append("))");
                s
            },
            MmioProbe::Timeout => String::from_str("genet: probe unavailable (Timeout)"),
            MmioProbe::InvalidBinding => String::from_str("genet: probe unavailable (InvalidBinding)"),
            MmioProbe::Revision(rev) => {
                let mut s = String::from_str("genet: rev=");
                push_dec(&mut s, rev.major as u64);
                s.append(".");
                push_dec(&mut s, rev.minor as u64);
                s.append(" patch=0x");
                push_hex(&mut s, rev.patch as u64);
                s.append(" (mmio, not a nic)");
                s
            },
        }
    }
}


/// A device-tree-derived DMA aperture. Addresses are inclusive at the lower
/// edge and exclusive at `end`.
///
/// `base` is the device-visible (child) address written into descriptors.
/// `cpu_base` is the matching CPU physical address (parent). Identity maps
/// set them equal.
#[derive(Clone, Copy, Debug, PartialEq, Eq, Structural)]
pub struct DmaWindow {
    pub base: u64,
    pub cpu_base: u64,
    pub len: u64,
}

/// The bounded set of DMA apertures supplied by a device-tree binding.
#[derive(Clone, Copy, Debug, PartialEq, Eq)]
pub struct DmaWindows {
    pub windows: [DmaWindow; 4],
    pub count: u8,
}

/// Why a CPU→DMA translation was refused.
#[derive(Clone, Copy, Debug, PartialEq, Eq, Structural)]
pub enum DmaMapError {
    OutsideWindow,
}

impl DmaWindow {
    /// Neither edge wraps: what [`DmaWindow::mapped`] guarantees.
    pub open spec fn no_wrap(self) -> bool {
        self.base + self.len <= u64::MAX && self.cpu_base + self.len <= u64::MAX
    }

    /// `[address, address + len)` lies inside the device-side aperture.
    pub open spec fn holds(self, address: u64, len: u64) -> bool {
        address + len <= u64::MAX && address >= self.base && address + len <= self.base + self.len
    }

    /// The device address for CPU range `[cpu, cpu + len)`, when it lies in
    /// the CPU-side aperture.
    pub open spec fn translate(self, cpu: u64, len: u64) -> Option<u64> {
        if cpu + len <= u64::MAX && cpu >= self.cpu_base && cpu + len <= self.cpu_base + self.len {
            Some((self.base + (cpu - self.cpu_base)) as u64)
        } else {
            None
        }
    }

    pub fn new(base: u64, len: u64) -> (r: Option<Self>)
        ensures
            r == Self::mapped_spec(base, base, len),
    {
        Self::mapped(base, base, len)
    }

    /// The window `mapped` gives.
    pub open spec fn mapped_spec(dma_base: u64, cpu_base: u64, len: u64) -> Option<Self> {
        if len == 0 || dma_base + len > u64::MAX || cpu_base + len > u64::MAX {
            None
        } else {
            Some(DmaWindow { base: dma_base, cpu_base, len })
        }
    }

    pub fn mapped(dma_base: u64, cpu_base: u64, len: u64) -> (r: Option<Self>)
        ensures
            r == Self::mapped_spec(dma_base, cpu_base, len),
            r is Some ==> r->0.no_wrap(),
    {
        if len == 0 || dma_base.checked_add(len).is_none() || cpu_base.checked_add(len).is_none() {
            None
        } else {
            Some(Self { base: dma_base, cpu_base, len })
        }
    }

    pub fn map_cpu(self, cpu: u64, len: u64) -> (r: Option<u64>)
        requires
            self.no_wrap(),
        ensures
            r == self.translate(cpu, len),
    {
        match cpu.checked_add(len) {
            Some(end) => {
                if cpu >= self.cpu_base && end <= self.cpu_base + self.len {
                    Some(self.base + (cpu - self.cpu_base))
                } else {
                    None
                }
            },
            None => None,
        }
    }

    pub fn end(self) -> (r: u64)
        requires
            self.no_wrap(),
        ensures
            r == self.base + self.len,
    {
        self.base + self.len
    }

    pub fn contains(self, address: u64, len: u64) -> (r: bool)
        requires
            self.no_wrap(),
        ensures
            r == self.holds(address, len),
    {
        match address.checked_add(len) {
            Some(end) => address >= self.base && end <= self.end(),
            None => false,
        }
    }
}

impl DmaWindows {
    /// The first `count` windows do not wrap.
    pub open spec fn no_wrap(self) -> bool {
        self.count <= 4 && forall|i: int| 0 <= i < self.count ==> (#[trigger] self.windows[i]).no_wrap()
    }

    /// Some window among the first `count` holds the range.
    pub open spec fn holds(self, address: u64, len: u64) -> bool {
        exists|i: int| 0 <= i < self.count && (#[trigger] self.windows[i]).holds(address, len)
    }

    /// The translation by the first of the first `count` windows from `i` on
    /// that maps the CPU range.
    pub open spec fn translate_from(self, i: int, cpu: u64, len: u64) -> Option<u64>
        decreases 4 - i,
    {
        if i < 0 || i >= self.count || i >= 4 {
            None
        } else if self.windows[i].translate(cpu, len) is Some {
            self.windows[i].translate(cpu, len)
        } else {
            self.translate_from(i + 1, cpu, len)
        }
    }

    pub fn new(windows: [DmaWindow; 4], count: u8) -> (r: Option<Self>)
        ensures
            r == (if count == 0 || count > 4 { None } else { Some(DmaWindows { windows, count }) }),
    {
        if count == 0 || count > 4 {
            None
        } else {
            Some(Self { windows, count })
        }
    }

    pub fn contains(self, address: u64, len: u64) -> (r: bool)
        requires
            self.no_wrap(),
        ensures
            r == self.holds(address, len),
    {
        let mut index: usize = 0;
        while index < self.count as usize
            invariant
                self.no_wrap(),
                index <= self.count,
                forall|j: int| 0 <= j < index ==> !(#[trigger] self.windows[j]).holds(address, len),
            decreases self.count - index,
        {
            if self.windows[index].contains(address, len) {
                return true;
            }
            index += 1;
        }
        false
    }

    /// Translate a CPU physical address into the device DMA address; the
    /// first window that maps the range wins.
    pub fn map_cpu(self, cpu: u64, len: u64) -> (r: Result<u64, DmaMapError>)
        requires
            self.no_wrap(),
        ensures
            r == (match self.translate_from(0, cpu, len) {
                Some(d) => Ok::<u64, DmaMapError>(d),
                None => Err::<u64, DmaMapError>(DmaMapError::OutsideWindow),
            }),
    {
        let mut index: usize = 0;
        while index < self.count as usize
            invariant
                self.no_wrap(),
                index <= self.count,
                self.translate_from(index as int, cpu, len) == self.translate_from(0, cpu, len),
            decreases self.count - index,
        {
            if let Some(dma) = self.windows[index].map_cpu(cpu, len) {
                return Ok(dma);
            }
            index += 1;
        }
        Err(DmaMapError::OutsideWindow)
    }
}

/// Directional ownership of a descriptor slot.
#[derive(Clone, Copy, Debug, PartialEq, Eq, Structural)]
pub enum Ownership {
    Driver,
    Device,
}

/// Why a descriptor was refused before any device access.
#[derive(Clone, Copy, Debug, PartialEq, Eq, Structural)]
pub enum DescriptorError {
    AddressOutsideDma,
    AddressOverflow,
    Empty,
    TooLarge,
    WrongOwnership,
}

/// A GENET v5 descriptor as owned by the pure model.
#[derive(Clone, Copy, Debug, PartialEq, Eq, Structural)]
pub struct Descriptor {
    pub address: u64,
    pub length: u32,
    pub status: u32,
}

#[derive(Clone, Copy, Debug, PartialEq, Eq, Structural)]
pub struct DescriptorWords {
    pub length_status: u32,
    pub address_low: u32,
    pub address_high: u32,
}

/// The ownership and packet-boundary bits in a GENET descriptor status word.
///
/// The length occupies bits 16..=27; the lower control bits are represented
/// separately so callers cannot expose a raw status word as a packet length.
#[derive(Clone, Copy, Debug, PartialEq, Eq, Structural)]
pub struct DescriptorStatus {
    pub length: u16,
    pub ownership: Ownership,
    pub start: bool,
    pub end: bool,
    pub wrap: bool,
}

/// The status word for `length` and the four control bits, in the order
/// [`DescriptorStatus::encode`] sets them.
pub open spec fn status_word(length: u16, own: bool, start: bool, end: bool, wrap: bool) -> u32 {
    ((((length as u32) << 16u32) | (if own { DMA_OWN } else { 0 })) | (if start { DMA_SOP } else { 0 }))
        | (if end { DMA_EOP } else { 0 }) | (if wrap { DMA_WRAP } else { 0 })
}

/// The length field of a status word.
pub open spec fn word_length(word: u32) -> u16 {
    ((word >> 16u32) & 0x0fff) as u16
}

/// What a status word decodes to.
pub open spec fn decode_spec(word: u32) -> Result<DescriptorStatus, DescriptorError> {
    let length = word_length(word);
    if length == 0 {
        Err(DescriptorError::Empty)
    } else if length > MAX_FRAME_BYTES {
        Err(DescriptorError::TooLarge)
    } else {
        Ok(DescriptorStatus {
            length,
            ownership: if word & DMA_OWN != 0 { Ownership::Device } else { Ownership::Driver },
            start: word & DMA_SOP != 0,
            end: word & DMA_EOP != 0,
            wrap: word & DMA_WRAP != 0,
        })
    }
}

/// What a status encodes to.
pub open spec fn encode_spec(st: DescriptorStatus) -> Result<u32, DescriptorError> {
    if st.length == 0 {
        Err(DescriptorError::Empty)
    } else if st.length > MAX_FRAME_BYTES || st.length > DMA_LENGTH_MASK {
        Err(DescriptorError::TooLarge)
    } else {
        Ok(status_word(st.length, st.ownership == Ownership::Device, st.start, st.end, st.wrap))
    }
}

proof fn lemma_status_fields(l: u32, o: u32, sp: u32, e: u32, w: u32)
    requires
        l <= 0xfff,
        o == 0 || o == 0x8000,
        sp == 0 || sp == 0x2000,
        e == 0 || e == 0x4000,
        w == 0 || w == 0x1000,
    ensures
        ({
            let word = ((((l << 16u32) | o) | sp) | e) | w;
            &&& (word >> 16u32) & 0x0fff == l
            &&& (word & 0x8000 != 0) == (o != 0)
            &&& (word & 0x2000 != 0) == (sp != 0)
            &&& (word & 0x4000 != 0) == (e != 0)
            &&& (word & 0x1000 != 0) == (w != 0)
        }),
{
    assert({
        let word = ((((l << 16u32) | o) | sp) | e) | w;
        &&& (word >> 16u32) & 0x0fff == l
        &&& (word & 0x8000 != 0) == (o != 0)
        &&& (word & 0x2000 != 0) == (sp != 0)
        &&& (word & 0x4000 != 0) == (e != 0)
        &&& (word & 0x1000 != 0) == (w != 0)
    }) by (bit_vector)
        requires
            l <= 0xfff,
            o == 0 || o == 0x8000,
            sp == 0 || sp == 0x2000,
            e == 0 || e == 0x4000,
            w == 0 || w == 0x1000;
}

/// Every status that encodes decodes back to itself: length, ownership and
/// the three boundary bits survive the status word.
pub proof fn lemma_status_round_trip(st: DescriptorStatus)
    requires
        encode_spec(st) is Ok,
    ensures
        decode_spec(encode_spec(st)->Ok_0) == Ok::<DescriptorStatus, DescriptorError>(st),
{
    lemma_status_fields(
        st.length as u32,
        if st.ownership == Ownership::Device { DMA_OWN } else { 0 },
        if st.start { DMA_SOP } else { 0 },
        if st.end { DMA_EOP } else { 0 },
        if st.wrap { DMA_WRAP } else { 0 },
    );
}

/// The converse: a word that decodes encodes back to its length and
/// boundary bits, every other bit dropped.
pub proof fn lemma_status_word_round_trip(word: u32)
    requires
        decode_spec(word) is Ok,
    ensures
        encode_spec(decode_spec(word)->Ok_0) == Ok::<u32, DescriptorError>(word & 0x0fff_f000),
{
    let d = decode_spec(word)->Ok_0;
    let l = ((word >> 16u32) & 0x0fff) as u32;
    let o: u32 = if word & 0x8000 != 0 { 0x8000 } else { 0 };
    let sp: u32 = if word & 0x2000 != 0 { 0x2000 } else { 0 };
    let e: u32 = if word & 0x4000 != 0 { 0x4000 } else { 0 };
    let w: u32 = if word & 0x1000 != 0 { 0x1000 } else { 0 };
    assert((word >> 16u32) & 0x0fff <= 0x0fff) by (bit_vector);
    assert(d.length as u32 == l);
    assert(((((l << 16u32) | o) | sp) | e) | w == word & 0x0fff_f000) by (bit_vector)
        requires
            l == (word >> 16u32) & 0x0fff,
            o == (if word & 0x8000 != 0 { 0x8000u32 } else { 0u32 }),
            sp == (if word & 0x2000 != 0 { 0x2000u32 } else { 0u32 }),
            e == (if word & 0x4000 != 0 { 0x4000u32 } else { 0u32 }),
            w == (if word & 0x1000 != 0 { 0x1000u32 } else { 0u32 });
}

impl DescriptorStatus {
    pub fn decode(word: u32) -> (r: Result<Self, DescriptorError>)
        ensures
            r == decode_spec(word),
    {
        let length = ((word >> DMA_LENGTH_SHIFT) & DMA_LENGTH_MASK) as u16;
        if length == 0 {
            return Err(DescriptorError::Empty);
        }
        if length as u32 > MAX_FRAME_BYTES {
            return Err(DescriptorError::TooLarge);
        }
        Ok(Self {
            length,
            ownership: if word & DMA_OWN != 0 { Ownership::Device } else { Ownership::Driver },
            start: word & DMA_SOP != 0,
            end: word & DMA_EOP != 0,
            wrap: word & DMA_WRAP != 0,
        })
    }

    pub fn encode(self) -> (r: Result<u32, DescriptorError>)
        ensures
            r == encode_spec(self),
    {
        if self.length == 0 {
            return Err(DescriptorError::Empty);
        }
        if self.length as u32 > MAX_FRAME_BYTES || self.length as u32 > DMA_LENGTH_MASK {
            return Err(DescriptorError::TooLarge);
        }
        let own = if self.ownership == Ownership::Device { DMA_OWN } else { 0 };
        let sop = if self.start { DMA_SOP } else { 0 };
        let eop = if self.end { DMA_EOP } else { 0 };
        let wrap = if self.wrap { DMA_WRAP } else { 0 };
        let word = ((((self.length as u32) << DMA_LENGTH_SHIFT) | own) | sop) | eop | wrap;
        Ok(word)
    }
}

/// The checks every descriptor passes before its address is looked at.
pub open spec fn descriptor_check(d: Descriptor) -> Result<(), DescriptorError> {
    if d.length == 0 {
        Err(DescriptorError::Empty)
    } else if d.length > MAX_FRAME_BYTES {
        Err(DescriptorError::TooLarge)
    } else if d.address + d.length > u64::MAX {
        Err(DescriptorError::AddressOverflow)
    } else {
        Ok(())
    }
}

/// The full validation, given whether the window set holds the range.
pub open spec fn validate_spec(d: Descriptor, held: bool) -> Result<(), DescriptorError> {
    match descriptor_check(d) {
        Err(e) => Err(e),
        Ok(()) => if held { Ok(()) } else { Err(DescriptorError::AddressOutsideDma) },
    }
}

impl Descriptor {
    /// The words written to descriptor RAM, with the given control bits.
    pub fn words(self, ownership: Ownership, start: bool, end: bool, wrap: bool) -> (r: Result<DescriptorWords, DescriptorError>)
        ensures
            descriptor_check(self) is Err ==> r == Err::<DescriptorWords, DescriptorError>(descriptor_check(self)->Err_0),
            descriptor_check(self) is Ok ==> r == Ok::<DescriptorWords, DescriptorError>(DescriptorWords {
                length_status: status_word(self.length as u16, ownership == Ownership::Device, start, end, wrap),
                address_low: self.address as u32,
                address_high: (self.address >> 32u64) as u32,
            }),
    {
        if let Err(e) = self.check() {
            return Err(e);
        }
        let status = DescriptorStatus { length: self.length as u16, ownership, start, end, wrap };
        let length_status = match status.encode() {
            Ok(w) => w,
            Err(e) => return Err(e),
        };
        Ok(DescriptorWords { length_status, address_low: self.address as u32, address_high: (self.address >> 32) as u32 })
    }

    fn check(self) -> (r: Result<(), DescriptorError>)
        ensures
            r == descriptor_check(self),
    {
        if self.length == 0 {
            return Err(DescriptorError::Empty);
        }
        if self.length > MAX_FRAME_BYTES {
            return Err(DescriptorError::TooLarge);
        }
        if self.address.checked_add(self.length as u64).is_none() {
            return Err(DescriptorError::AddressOverflow);
        }
        Ok(())
    }

    pub fn validate(self, dma: DmaWindow) -> (r: Result<(), DescriptorError>)
        requires
            dma.no_wrap(),
        ensures
            r == validate_spec(self, dma.holds(self.address, self.length as u64)),
    {
        if let Err(e) = self.check() {
            return Err(e);
        }
        if !dma.contains(self.address, self.length as u64) {
            return Err(DescriptorError::AddressOutsideDma);
        }
        Ok(())
    }

    pub fn validate_windows(self, dma: DmaWindows) -> (r: Result<(), DescriptorError>)
        requires
            dma.no_wrap(),
        ensures
            r == validate_spec(self, dma.holds(self.address, self.length as u64)),
    {
        if let Err(e) = self.check() {
            return Err(e);
        }
        if !dma.contains(self.address, self.length as u64) {
            return Err(DescriptorError::AddressOutsideDma);
        }
        Ok(())
    }
}

/// A descriptor ring's immutable address contract.
#[derive(Clone, Copy, Debug, PartialEq, Eq, Structural)]
pub struct RingLayout {
    pub base: u64,
    pub count: u16,
}

impl RingLayout {
    /// What `new` accepts: a DMA block base, 1..=256 descriptors, word
    /// alignment, and a span inside the register window.
    pub open spec fn accepts(base: u64, count: u16) -> bool {
        (base == registers::RDMA || base == registers::TDMA) && 0 < count <= TOTAL_DESCRIPTORS && base % 4 == 0
            && base + count * DESCRIPTOR_BYTES <= REGISTER_BYTES
    }

    /// `base` is an offset in GENET's internal descriptor RAM, not a DMA PA.
    pub fn new(base: u64, count: u16) -> (r: Option<Self>)
        ensures
            r == (if Self::accepts(base, count) { Some(RingLayout { base, count }) } else { None }),
    {
        if (base != registers::RDMA as u64 && base != registers::TDMA as u64) || count == 0 || count > TOTAL_DESCRIPTORS
            || base % 4 != 0 {
            return None;
        }
        let bytes = count as u64 * DESCRIPTOR_BYTES;
        if base.checked_add(bytes).is_none() || base + bytes > REGISTER_BYTES {
            return None;
        }
        Some(Self { base, count })
    }

    pub fn descriptor_address(self, index: u16) -> (r: Option<u64>)
        ensures
            r == (if index >= self.count || self.base + index * DESCRIPTOR_BYTES > u64::MAX {
                None
            } else {
                Some((self.base + index * DESCRIPTOR_BYTES) as u64)
            }),
    {
        if index >= self.count {
            None
        } else {
            self.base.checked_add(index as u64 * DESCRIPTOR_BYTES)
        }
    }
}


#[derive(Clone, Copy, Debug, PartialEq, Eq, Structural)]
pub enum RingError {
    Full,
    NoCompletion,
    InvalidStatus(DescriptorError),
    InvalidDescriptor(DescriptorError),
}

/// What a ring holds, as the contracts see it.
pub struct RingView {
    pub layout: RingLayout,
    pub dma: DmaWindows,
    pub producer: u16,
    pub consumer: u16,
    pub ownership: Seq<Ownership>,
    pub descriptors: Seq<Option<Descriptor>>,
}

/// The slot after `index` in a ring of `count`.
pub open spec fn ring_next(index: u16, count: u16) -> u16 {
    if index + 1 == count { 0 } else { (index + 1) as u16 }
}

/// Bounded producer/consumer ownership for one GENET ring.
///
/// The hardware exposes producer and consumer indices, but it does not make
/// an out-of-order completion safe. This model keeps that ordering explicit:
/// the driver posts only at the producer cursor and reclaims only at the
/// consumer cursor. The fixed backing arrays are the model's bound, not a
/// request to allocate an unbounded queue.
pub struct RingState {
    layout: RingLayout,
    dma: DmaWindows,
    producer: u16,
    consumer: u16,
    ownership: [Ownership; 256],
    descriptors: [Option<Descriptor>; 256],
}

impl View for RingState {
    type V = RingView;

    closed spec fn view(&self) -> RingView {
        RingView {
            layout: self.layout,
            dma: self.dma,
            producer: self.producer,
            consumer: self.consumer,
            ownership: self.ownership@,
            descriptors: self.descriptors@,
        }
    }
}

impl RingState {
    /// Both cursors lie inside the ring, which holds 1..=256 slots, the DMA
    /// windows do not wrap, and every device-owned slot holds a descriptor.
    pub open spec fn wf(&self) -> bool {
        let v = self@;
        &&& 0 < v.layout.count <= TOTAL_DESCRIPTORS
        &&& v.producer < v.layout.count
        &&& v.consumer < v.layout.count
        &&& v.dma.no_wrap()
        &&& v.ownership.len() == TOTAL_DESCRIPTORS
        &&& v.descriptors.len() == TOTAL_DESCRIPTORS
        &&& forall|i: int| 0 <= i < TOTAL_DESCRIPTORS && #[trigger] v.ownership[i] == Ownership::Device
            ==> v.descriptors[i] is Some
    }

    pub fn new(layout: RingLayout, dma: DmaWindows) -> (r: Self)
        requires
            0 < layout.count <= TOTAL_DESCRIPTORS,
            dma.no_wrap(),
        ensures
            r.wf(),
            r@.layout == layout,
            r@.dma == dma,
            r@.producer == 0,
            r@.consumer == 0,
            forall|i: int| 0 <= i < TOTAL_DESCRIPTORS ==> r@.ownership[i] == Ownership::Driver && r@.descriptors[i] is None,
    {
        Self {
            layout,
            dma,
            producer: 0,
            consumer: 0,
            ownership: [Ownership::Driver; 256],
            descriptors: [None; 256],
        }
    }

    pub fn producer(&self) -> (r: u16)
        ensures
            r == self@.producer,
    {
        self.producer
    }

    pub fn consumer(&self) -> (r: u16)
        ensures
            r == self@.consumer,
    {
        self.consumer
    }

    /// Post at the producer cursor: a descriptor that validates against the
    /// ring's DMA windows goes to the device when its slot is driver-owned.
    pub fn post(&mut self, descriptor: Descriptor) -> (r: Result<u16, RingError>)
        requires
            old(self).wf(),
        ensures
            final(self).wf(),
            ({
                let v = old(self)@;
                let check = validate_spec(descriptor, v.dma.holds(descriptor.address, descriptor.length as u64));
                if check is Err {
                    r == Err::<u16, RingError>(RingError::InvalidDescriptor(check->Err_0)) && final(self)@ == v
                } else if v.ownership[v.producer as int] != Ownership::Driver {
                    r == Err::<u16, RingError>(RingError::Full) && final(self)@ == v
                } else {
                    &&& r == Ok::<u16, RingError>(v.producer)
                    &&& final(self)@ == (RingView {
                        producer: ring_next(v.producer, v.layout.count),
                        ownership: v.ownership.update(v.producer as int, Ownership::Device),
                        descriptors: v.descriptors.update(v.producer as int, Some(descriptor)),
                        ..v
                    })
                }
            }),
    {
        if let Err(e) = descriptor.validate_windows(self.dma) {
            return Err(RingError::InvalidDescriptor(e));
        }
        let index = self.producer;
        if self.ownership[index as usize] != Ownership::Driver {
            return Err(RingError::Full);
        }
        self.descriptors[index as usize] = Some(descriptor);
        self.ownership[index as usize] = Ownership::Device;
        self.producer = self.next(index);
        proof {
            assert(self@.ownership =~= old(self)@.ownership.update(index as int, Ownership::Device));
            assert(self@.descriptors =~= old(self)@.descriptors.update(index as int, Some(descriptor)));
        }
        Ok(index)
    }

    /// Reclaim at the consumer cursor, given the status word the device
    /// wrote back: it must decode, be driver-owned, and find a posted
    /// descriptor there, which comes back with the written length and status.
    pub fn complete(&mut self, status: u32) -> (r: Result<(u16, Descriptor), RingError>)
        requires
            old(self).wf(),
        ensures
            final(self).wf(),
            ({
                let v = old(self)@;
                let st = decode_spec(status);
                if st is Err {
                    r == Err::<(u16, Descriptor), RingError>(RingError::InvalidStatus(st->Err_0)) && final(self)@ == v
                } else if st->Ok_0.ownership != Ownership::Driver {
                    r == Err::<(u16, Descriptor), RingError>(RingError::InvalidStatus(DescriptorError::WrongOwnership))
                        && final(self)@ == v
                } else if v.ownership[v.consumer as int] != Ownership::Device {
                    r == Err::<(u16, Descriptor), RingError>(RingError::NoCompletion) && final(self)@ == v
                } else {
                    let d = Descriptor {
                        length: st->Ok_0.length as u32,
                        status: encode_spec(st->Ok_0)->Ok_0,
                        ..v.descriptors[v.consumer as int]->0
                    };
                    let check = validate_spec(d, v.dma.holds(d.address, d.length as u64));
                    &&& encode_spec(st->Ok_0) is Ok
                    &&& check is Err ==> r == Err::<(u16, Descriptor), RingError>(RingError::InvalidDescriptor(check->Err_0))
                        && final(self)@ == v
                    &&& check is Ok ==> r == Ok::<(u16, Descriptor), RingError>((v.consumer, d))
                        && final(self)@ == (RingView {
                            consumer: ring_next(v.consumer, v.layout.count),
                            ownership: v.ownership.update(v.consumer as int, Ownership::Driver),
                            ..v
                        })
                }
            }),
    {
        let status = match DescriptorStatus::decode(status) {
            Ok(s) => s,
            Err(e) => return Err(RingError::InvalidStatus(e)),
        };
        if status.ownership != Ownership::Driver {
            return Err(RingError::InvalidStatus(DescriptorError::WrongOwnership));
        }
        let index = self.consumer;
        if self.ownership[index as usize] != Ownership::Device {
            return Err(RingError::NoCompletion);
        }
        let mut descriptor = match self.descriptors[index as usize] {
            Some(d) => d,
            None => return Err(RingError::NoCompletion),
        };
        descriptor.length = status.length as u32;
        descriptor.status = match status.encode() {
            Ok(w) => w,
            Err(e) => return Err(RingError::InvalidStatus(e)),
        };
        if let Err(e) = descriptor.validate_windows(self.dma) {
            return Err(RingError::InvalidDescriptor(e));
        }
        self.ownership[index as usize] = Ownership::Driver;
        self.consumer = self.next(index);
        proof {
            assert(self@.ownership =~= old(self)@.ownership.update(index as int, Ownership::Driver));
        }
        Ok((index, descriptor))
    }

    fn next(&self, index: u16) -> (r: u16)
        requires
            index < self.layout.count,
        ensures
            r == ring_next(index, self.layout.count),
    {
        if index + 1 == self.layout.count {
            0
        } else {
            index + 1
        }
    }
}

/// The slot `j` places after `c` in a ring of `n`.
pub open spec fn ring_slot(c: int, j: int, n: int) -> int {
    if c + j < n { c + j } else { c + j - n }
}

/// How many places slot `i` lies after `c` in a ring of `n`.
pub open spec fn ring_offset(i: int, c: int, n: int) -> int {
    if i >= c { i - c } else { i - c + n }
}

/// The ring holds the queue `q` of descriptors in flight, oldest first: they
/// fill the slots from the consumer cursor on and are device-owned, every
/// other slot is driver-owned, and the producer cursor is the slot after the
/// newest.
pub open spec fn holds_queue(v: RingView, q: Seq<Descriptor>) -> bool {
    let n = v.layout.count as int;
    let c = v.consumer as int;
    &&& 0 < n <= TOTAL_DESCRIPTORS
    &&& c < n
    &&& v.ownership.len() == TOTAL_DESCRIPTORS
    &&& v.descriptors.len() == TOTAL_DESCRIPTORS
    &&& q.len() <= n
    &&& v.producer as int == ring_slot(c, q.len() as int, n)
    &&& forall|i: int| 0 <= i < n ==> ((#[trigger] v.ownership[i] == Ownership::Device) <==> ring_offset(i, c, n) < q.len())
    &&& forall|j: int| 0 <= j < q.len() ==> v.descriptors[ring_slot(c, j, n)] == Some(#[trigger] q[j])
}

/// A fresh ring holds nothing in flight.
pub proof fn lemma_fresh_ring_is_empty(v: RingView)
    requires
        0 < v.layout.count <= TOTAL_DESCRIPTORS,
        v.producer == 0,
        v.consumer == 0,
        v.ownership.len() == TOTAL_DESCRIPTORS,
        v.descriptors.len() == TOTAL_DESCRIPTORS,
        forall|i: int| 0 <= i < TOTAL_DESCRIPTORS ==> v.ownership[i] == Ownership::Driver,
    ensures
        holds_queue(v, Seq::empty()),
{
}

/// Posting queues at the back: the producer slot is driver-owned exactly
/// when the ring is not full, and the ring `post` leaves then holds the
/// queue with the new descriptor appended.
pub proof fn lemma_post_enqueues(v: RingView, q: Seq<Descriptor>, d: Descriptor)
    requires
        holds_queue(v, q),
    ensures
        (v.ownership[v.producer as int] == Ownership::Driver) <==> q.len() < v.layout.count,
        q.len() < v.layout.count ==> holds_queue(
            RingView {
                producer: ring_next(v.producer, v.layout.count),
                ownership: v.ownership.update(v.producer as int, Ownership::Device),
                descriptors: v.descriptors.update(v.producer as int, Some(d)),
                ..v
            },
            q.push(d),
        ),
{
    let n = v.layout.count as int;
    let c = v.consumer as int;
    let p = v.producer as int;
    let len = q.len() as int;
    assert(v.ownership[p] == Ownership::Device <==> ring_offset(p, c, n) < len);
    if len < n {
        assert(ring_offset(p, c, n) == len);
        let w = RingView {
            producer: ring_next(v.producer, v.layout.count),
            ownership: v.ownership.update(p, Ownership::Device),
            descriptors: v.descriptors.update(p, Some(d)),
            ..v
        };
        let q2 = q.push(d);
        assert forall|i: int| 0 <= i < n implies ((#[trigger] w.ownership[i] == Ownership::Device) <==> ring_offset(i, c, n) < q2.len()) by {
            if i != p {
                assert(w.ownership[i] == v.ownership[i]);
                assert(ring_offset(i, c, n) != len);
            }
        }
        assert forall|j: int| 0 <= j < q2.len() implies w.descriptors[ring_slot(c, j, n)] == Some(#[trigger] q2[j]) by {
            if j < len {
                assert(q2[j] == q[j]);
                assert(ring_slot(c, j, n) != p);
            }
        }
    } else {
        assert(ring_offset(p, c, n) == 0);
    }
}

/// Completing dequeues at the front: the consumer slot is device-owned
/// exactly when something is in flight, it holds the oldest descriptor, and
/// the ring `complete` leaves then holds the rest of the queue.
pub proof fn lemma_complete_dequeues(v: RingView, q: Seq<Descriptor>)
    requires
        holds_queue(v, q),
    ensures
        (v.ownership[v.consumer as int] == Ownership::Device) <==> q.len() > 0,
        q.len() > 0 ==> v.descriptors[v.consumer as int] == Some(q[0]),
        q.len() > 0 ==> holds_queue(
            RingView {
                consumer: ring_next(v.consumer, v.layout.count),
                ownership: v.ownership.update(v.consumer as int, Ownership::Driver),
                ..v
            },
            q.drop_first(),
        ),
{
    let n = v.layout.count as int;
    let c = v.consumer as int;
    let len = q.len() as int;
    assert(v.ownership[c] == Ownership::Device <==> ring_offset(c, c, n) < len);
    if len > 0 {
        assert(ring_slot(c, 0, n) == c);
        assert(v.descriptors[ring_slot(c, 0, n)] == Some(q[0]));
        let w = RingView {
            consumer: ring_next(v.consumer, v.layout.count),
            ownership: v.ownership.update(c, Ownership::Driver),
            ..v
        };
        let c2 = w.consumer as int;
        let q2 = q.drop_first();
        assert(c2 == ring_slot(c, 1, n));
        assert forall|i: int| 0 <= i < n implies ((#[trigger] w.ownership[i] == Ownership::Device) <==> ring_offset(i, c2, n) < q2.len()) by {
            if i != c {
                assert(w.ownership[i] == v.ownership[i]);
                assert(ring_offset(i, c2, n) == ring_offset(i, c, n) - 1);
            } else {
                assert(ring_offset(i, c2, n) == n - 1);
            }
        }
        assert forall|j: int| 0 <= j < q2.len() implies w.descriptors[ring_slot(c2, j, n)] == Some(#[trigger] q2[j]) by {
            assert(q2[j] == q[j + 1]);
            assert(ring_slot(c2, j, n) == ring_slot(c, j + 1, n));
            assert(v.descriptors[ring_slot(c, j + 1, n)] == Some(q[j + 1]));
        }
    }
}

/// A bounded ring cursor. The ring is fixed-size and never grows from device
/// input, so an out-of-range cursor is a refusal rather than a modulo guess.
#[derive(Clone, Copy, Debug, PartialEq, Eq, Structural)]
pub struct RingCursor {
    pub index: u16,
    pub ownership: Ownership,
}

impl RingCursor {
    pub fn new(index: u16, ownership: Ownership) -> (r: Option<Self>)
        ensures
            r == (if index < TOTAL_DESCRIPTORS { Some(RingCursor { index, ownership }) } else { None }),
    {
        if index < TOTAL_DESCRIPTORS {
            Some(Self { index, ownership })
        } else {
            None
        }
    }

    pub fn advance(self) -> (r: Self)
        requires
            self.index < TOTAL_DESCRIPTORS,
        ensures
            r == (RingCursor { index: ring_next(self.index, TOTAL_DESCRIPTORS), ownership: self.ownership }),
    {
        Self { index: if self.index + 1 == TOTAL_DESCRIPTORS { 0 } else { self.index + 1 }, ownership: self.ownership }
    }
}

/// The work classes raised by one GENET interrupt block.
#[derive(Clone, Copy, Debug, PartialEq, Eq, Structural)]
pub struct InterruptWork {
    pub link: bool,
    pub mdio: bool,
    pub rx: bool,
    pub tx: bool,
}

impl InterruptWork {
    /// Classify and mask unknown bits. Unknown status is never interpreted as
    /// packet work; the caller may log or refuse it while acknowledging the
    /// raw status in the hardware-specific layer.
    pub fn classify(status0: u32, status1: u32) -> (r: Self)
        ensures
            r == (InterruptWork {
                link: status0 & interrupt::LINK_EVENT != 0,
                mdio: status0 & interrupt::MDIO_EVENT != 0,
                rx: status0 & interrupt::RX_DONE != 0 || status1 & 0xffff_0000 != 0,
                tx: status0 & interrupt::TX_DONE != 0 || status1 & interrupt::QUEUE_TX_MASK != 0,
            }),
    {
        Self {
            link: status0 & interrupt::LINK_EVENT != 0,
            mdio: status0 & interrupt::MDIO_EVENT != 0,
            // The RX queue bits: `0xffff << QUEUE_RX_SHIFT`.
            rx: status0 & interrupt::RX_DONE != 0 || status1 & 0xffff_0000 != 0,
            tx: status0 & interrupt::TX_DONE != 0 || status1 & interrupt::QUEUE_TX_MASK != 0,
        }
    }
}

/// Reset generations invalidate every descriptor token from the prior run.
#[derive(Clone, Copy, Debug, PartialEq, Eq, Structural)]
pub struct ResetState {
    pub generation: u32,
    pub ready: bool,
}

impl ResetState {
    /// The current generation.
    pub open spec fn gen(self) -> u32 {
        self.generation
    }

    /// Whether the current generation has been activated.
    pub open spec fn is_ready(self) -> bool {
        self.ready
    }

    /// Generations are never zero.
    pub open spec fn wf(self) -> bool {
        self.generation != 0
    }

    pub fn new() -> (r: Self)
        ensures
            r.gen() == 1,
            !r.is_ready(),
            r.wf(),
    {
        Self { generation: 1, ready: false }
    }

    pub fn generation(self) -> (r: u32)
        ensures
            r == self.gen(),
    {
        self.generation
    }

    pub fn ready(self) -> (r: bool)
        ensures
            r == self.is_ready(),
    {
        self.ready
    }

    pub fn activate(&mut self)
        ensures
            final(self).gen() == old(self).gen(),
            final(self).is_ready(),
            final(self).wf() == old(self).wf(),
    {
        self.ready = true;
    }

    /// Start a new generation, not yet ready; after `u32::MAX` comes 1.
    pub fn reset(&mut self)
        ensures
            final(self).gen() == (if old(self).gen() == u32::MAX { 1 } else { (old(self).gen() + 1) as u32 }),
            !final(self).is_ready(),
            final(self).wf(),
    {
        self.ready = false;
        self.generation = if self.generation == u32::MAX { 1 } else { self.generation + 1 };
    }

    pub fn accepts(self, generation: u32) -> (r: bool)
        ensures
            r == (self.is_ready() && self.gen() == generation),
    {
        self.ready && self.generation == generation
    }
}

impl Default for ResetState {
    fn default() -> (r: Self)
        ensures
            r.gen() == 1,
            !r.is_ready(),
    {
        Self::new()
    }
}

/// After a reset, no token of the old generation is accepted, and not even
/// the new generation's until it is activated.
pub proof fn lemma_reset_invalidates(before: ResetState, after: ResetState, token: u32)
    requires
        before.wf(),
        before.accepts_spec(token),
        after.gen() == (if before.gen() == u32::MAX { 1 } else { (before.gen() + 1) as u32 }),
        !after.is_ready(),
    ensures
        !after.accepts_spec(token),
        !after.accepts_spec(after.gen()),
        before.gen() != u32::MAX ==> after.gen() != token,
{
}

impl ResetState {
    /// What `accepts` answers.
    pub open spec fn accepts_spec(self, generation: u32) -> bool {
        self.is_ready() && self.gen() == generation
    }
}


/// Why a queue-0 ring program was refused before any MMIO write.
#[derive(Clone, Copy, Debug, PartialEq, Eq, Structural)]
pub enum RingProgramError {
    InvalidBlock,
    UnsupportedQueue,
    Empty,
    TooMany,
    FirstOutOfRange,
    SpanOverflow,
    BufferEmpty,
    BufferTooLarge,
}

/// Immutable v5 program for one queue-0 ring in descriptor RAM.
///
/// `start`/`end` are word offsets into the controller's internal descriptor
/// RAM (`first * 3` .. `(first + count) * 3 - 1`). Packet-buffer DMA
/// addresses are validated separately and never become a ring base.
#[derive(Clone, Copy, Debug, PartialEq, Eq, Structural)]
pub struct RingProgram {
    pub block: u32,
    pub queue: u8,
    pub count: u16,
    pub first: u16,
    pub buffer_bytes: u16,
}

/// Register values a programmed ring writes, in v4+ layout order.
#[derive(Clone, Copy, Debug, PartialEq, Eq, Structural)]
pub struct RingProgramWords {
    pub prod: u32,
    pub cons: u32,
    pub ring_buf_size: u32,
    pub start: u32,
    pub start_hi: u32,
    pub end: u32,
    pub end_hi: u32,
    pub mbuf_done: u32,
    pub flow: u32,
    pub read_ptr: u32,
    pub write_ptr: u32,
}

/// The first refusal `RingProgram::new` finds, if any.
pub open spec fn ring_program_refusal(block: u32, queue: u8, first: u16, count: u16, buffer_bytes: u16) -> Option<RingProgramError> {
    if block != registers::RDMA && block != registers::TDMA {
        Some(RingProgramError::InvalidBlock)
    } else if !(queue == 0 || queue == DESC_RING) {
        Some(RingProgramError::UnsupportedQueue)
    } else if count == 0 {
        Some(RingProgramError::Empty)
    } else if count > TOTAL_DESCRIPTORS {
        Some(RingProgramError::TooMany)
    } else if first >= TOTAL_DESCRIPTORS {
        Some(RingProgramError::FirstOutOfRange)
    } else if first + count > TOTAL_DESCRIPTORS {
        Some(RingProgramError::SpanOverflow)
    } else if buffer_bytes == 0 {
        Some(RingProgramError::BufferEmpty)
    } else if buffer_bytes > MAX_FRAME_BYTES {
        Some(RingProgramError::BufferTooLarge)
    } else {
        None
    }
}

impl RingProgram {
    /// A program `new` could have made.
    pub open spec fn wf(self) -> bool {
        ring_program_refusal(self.block, self.queue, self.first, self.count, self.buffer_bytes) is None
    }

    pub fn new(block: u32, queue: u8, first: u16, count: u16, buffer_bytes: u16) -> (r: Result<Self, RingProgramError>)
        ensures
            match ring_program_refusal(block, queue, first, count, buffer_bytes) {
                Some(e) => r == Err::<Self, RingProgramError>(e),
                None => r == Ok::<Self, RingProgramError>(RingProgram { block, queue, count, first, buffer_bytes }),
            },
    {
        if block != registers::RDMA && block != registers::TDMA {
            return Err(RingProgramError::InvalidBlock);
        }
        if !queue_supported(queue) {
            return Err(RingProgramError::UnsupportedQueue);
        }
        if count == 0 {
            return Err(RingProgramError::Empty);
        }
        if count > TOTAL_DESCRIPTORS {
            return Err(RingProgramError::TooMany);
        }
        if first >= TOTAL_DESCRIPTORS {
            return Err(RingProgramError::FirstOutOfRange);
        }
        if first as u32 + count as u32 > TOTAL_DESCRIPTORS as u32 {
            return Err(RingProgramError::SpanOverflow);
        }
        if buffer_bytes == 0 {
            return Err(RingProgramError::BufferEmpty);
        }
        if buffer_bytes as u32 > MAX_FRAME_BYTES {
            return Err(RingProgramError::BufferTooLarge);
        }
        Ok(Self { block, queue, count, first, buffer_bytes })
    }

    pub fn ring_register_base(self) -> (r: u32)
        requires
            self.block + dma_registers::RING_BASE + self.queue * dma_registers::RING_BYTES <= u32::MAX,
        ensures
            r == self.block + dma_registers::RING_BASE + self.queue * dma_registers::RING_BYTES,
    {
        self.block + dma_registers::RING_BASE + self.queue as u32 * dma_registers::RING_BYTES
    }

    pub fn start_words(self) -> (r: u32)
        ensures
            r == self.first * dma_registers::WORDS_PER_DESCRIPTOR,
    {
        self.first as u32 * dma_registers::WORDS_PER_DESCRIPTOR
    }

    pub fn end_words(self) -> (r: u32)
        requires
            self.first + self.count >= 1,
        ensures
            r == (self.first + self.count) * dma_registers::WORDS_PER_DESCRIPTOR - 1,
    {
        (self.first as u32 + self.count as u32) * dma_registers::WORDS_PER_DESCRIPTOR - 1
    }

    pub fn ring_buf_size(self) -> (r: u32)
        ensures
            r == self.count * 0x1_0000 + self.buffer_bytes,
    {
        let c = self.count as u32;
        let b = self.buffer_bytes as u32;
        assert(c << 16u32 | b == c * 0x1_0000 + b) by (bit_vector)
            requires c <= 0xffff, b <= 0xffff;
        c << dma_registers::RING_SIZE_SHIFT | b
    }

    pub fn words(self) -> (r: RingProgramWords)
        requires
            self.first + self.count >= 1,
        ensures
            r == (RingProgramWords {
                prod: 0,
                cons: 0,
                ring_buf_size: (self.count * 0x1_0000 + self.buffer_bytes) as u32,
                start: (self.first * dma_registers::WORDS_PER_DESCRIPTOR) as u32,
                start_hi: 0,
                end: ((self.first + self.count) * dma_registers::WORDS_PER_DESCRIPTOR - 1) as u32,
                end_hi: 0,
                mbuf_done: 1,
                flow: if self.block == registers::TDMA && self.queue != 0 { (MAX_FRAME_BYTES * 0x1_0000) as u32 } else { 0 },
                read_ptr: (self.first * dma_registers::WORDS_PER_DESCRIPTOR) as u32,
                write_ptr: (self.first * dma_registers::WORDS_PER_DESCRIPTOR) as u32,
            }),
    {
        let start = self.start_words();
        RingProgramWords {
            prod: 0,
            cons: 0,
            ring_buf_size: self.ring_buf_size(),
            start,
            start_hi: 0,
            end: self.end_words(),
            end_hi: 0,
            mbuf_done: 1,
            flow: if self.block == registers::TDMA { tdma_flow_period(self.queue) } else { 0 },
            read_ptr: start,
            write_ptr: start,
        }
    }
}

/// A ring program lies in descriptor RAM: its word span ends inside the
/// 256-descriptor RAM, and its register block starts past that RAM, so no
/// packet-buffer address below the DMA blocks can be mistaken for it.
pub proof fn lemma_ring_program_stays_in_descriptor_ram(p: RingProgram)
    requires
        p.wf(),
    ensures
        (p.first + p.count) * dma_registers::WORDS_PER_DESCRIPTOR - 1 < TOTAL_DESCRIPTORS * dma_registers::WORDS_PER_DESCRIPTOR,
        p.first * dma_registers::WORDS_PER_DESCRIPTOR <= (p.first + p.count) * dma_registers::WORDS_PER_DESCRIPTOR - 1,
        p.block + dma_registers::RING_BASE + p.queue * dma_registers::RING_BYTES >= registers::RDMA + dma_registers::RING_BASE,
{
}

/// Why a clause-22 MDIO word was refused.
#[derive(Clone, Copy, Debug, PartialEq, Eq, Structural)]
pub enum MdioError {
    PhyOutOfRange,
    RegisterOutOfRange,
    Busy,
    ReadFail,
    AbsentPhyId,
    StuckHighPhyId,
}

/// One clause-22 MDIO transaction. `write = None` is a read.
#[derive(Clone, Copy, Debug, PartialEq, Eq, Structural)]
pub struct MdioTxn {
    pub phy: u8,
    pub reg: u8,
    pub write: Option<u16>,
}

/// The command word of a transaction whose fields fit.
pub open spec fn mdio_word(phy: u8, reg: u8, write: Option<u16>) -> u32 {
    let base = mdio::START_BUSY | (phy as u32) << 21u32 | (reg as u32) << 16u32;
    match write {
        Some(data) => base | (mdio::WRITE | data as u32),
        None => base | mdio::READ,
    }
}

impl MdioTxn {
    pub fn new(phy: u8, reg: u8, write: Option<u16>) -> (r: Result<Self, MdioError>)
        ensures
            phy > mdio::PHY_MASK ==> r == Err::<Self, MdioError>(MdioError::PhyOutOfRange),
            phy <= mdio::PHY_MASK && reg > mdio::REG_MASK ==> r == Err::<Self, MdioError>(MdioError::RegisterOutOfRange),
            phy <= mdio::PHY_MASK && reg <= mdio::REG_MASK ==> r == Ok::<Self, MdioError>(MdioTxn { phy, reg, write }),
    {
        if phy > mdio::PHY_MASK as u8 {
            return Err(MdioError::PhyOutOfRange);
        }
        if reg > mdio::REG_MASK as u8 {
            return Err(MdioError::RegisterOutOfRange);
        }
        Ok(Self { phy, reg, write })
    }

    pub fn encode(self) -> (r: Result<u32, MdioError>)
        ensures
            self.phy > mdio::PHY_MASK ==> r == Err::<u32, MdioError>(MdioError::PhyOutOfRange),
            self.phy <= mdio::PHY_MASK && self.reg > mdio::REG_MASK ==> r == Err::<u32, MdioError>(MdioError::RegisterOutOfRange),
            self.phy <= mdio::PHY_MASK && self.reg <= mdio::REG_MASK ==> r == Ok::<u32, MdioError>(mdio_word(self.phy, self.reg, self.write)),
    {
        if self.phy > mdio::PHY_MASK as u8 {
            return Err(MdioError::PhyOutOfRange);
        }
        if self.reg > mdio::REG_MASK as u8 {
            return Err(MdioError::RegisterOutOfRange);
        }
        let word = mdio::START_BUSY | (self.phy as u32) << mdio::PHY_SHIFT | (self.reg as u32) << mdio::REG_SHIFT;
        match self.write {
            Some(data) => Ok(word | (mdio::WRITE | data as u32)),
            None => Ok(word | mdio::READ),
        }
    }

    pub fn decode_read(word: u32) -> (r: Result<u16, MdioError>)
        ensures
            word & mdio::START_BUSY != 0 ==> r == Err::<u16, MdioError>(MdioError::Busy),
            word & mdio::START_BUSY == 0 && word & mdio::READ_FAIL != 0 ==> r == Err::<u16, MdioError>(MdioError::ReadFail),
            word & mdio::START_BUSY == 0 && word & mdio::READ_FAIL == 0 ==> r == Ok::<u16, MdioError>((word & mdio::DATA_MASK) as u16),
    {
        if word & mdio::START_BUSY != 0 {
            return Err(MdioError::Busy);
        }
        if word & mdio::READ_FAIL != 0 {
            return Err(MdioError::ReadFail);
        }
        Ok((word & mdio::DATA_MASK) as u16)
    }
}

/// An encoded transaction carries its PHY and register numbers in their
/// fields, is marked busy, and is a read or a write as asked, with the write
/// data in the low half.
pub proof fn lemma_mdio_fields(phy: u8, reg: u8, write: Option<u16>)
    requires
        phy <= mdio::PHY_MASK,
        reg <= mdio::REG_MASK,
    ensures
        (mdio_word(phy, reg, write) >> 21u32) & 0x1f == phy,
        (mdio_word(phy, reg, write) >> 16u32) & 0x1f == reg,
        mdio_word(phy, reg, write) & mdio::START_BUSY != 0,
        (mdio_word(phy, reg, write) & mdio::READ != 0) == (write is None),
        (mdio_word(phy, reg, write) & mdio::WRITE != 0) == (write is Some),
        write is Some ==> mdio_word(phy, reg, write) & 0xffff == write->0,
{
    let p = phy as u32;
    let g = reg as u32;
    let d: u32 = match write { Some(x) => x as u32, None => 0 };
    let is_w = write is Some;
    assert({
        let base = 0x2000_0000u32 | p << 21u32 | g << 16u32;
        let w = if is_w { base | (0x0400_0000u32 | d) } else { base | 0x0800_0000u32 };
        &&& (w >> 21u32) & 0x1f == p
        &&& (w >> 16u32) & 0x1f == g
        &&& w & 0x2000_0000 != 0
        &&& (w & 0x0800_0000 != 0) == !is_w
        &&& (w & 0x0400_0000 != 0) == is_w
        &&& is_w ==> w & 0xffff == d
    }) by (bit_vector)
        requires p <= 0x1f, g <= 0x1f, d <= 0xffff;
}

/// Combine PHYIDR1/PHYIDR2. All-zero is absent; all-ones is a stuck bus.
pub fn classify_phy_id(hi: u16, lo: u16) -> (r: Result<u32, MdioError>)
    ensures
        hi == 0 && lo == 0 ==> r == Err::<u32, MdioError>(MdioError::AbsentPhyId),
        hi == 0xffff && lo == 0xffff ==> r == Err::<u32, MdioError>(MdioError::StuckHighPhyId),
        !(hi == 0 && lo == 0) && !(hi == 0xffff && lo == 0xffff) ==> r == Ok::<u32, MdioError>((hi * 0x1_0000 + lo) as u32),
{
    if hi == 0 && lo == 0 {
        Err(MdioError::AbsentPhyId)
    } else if hi == 0xffff && lo == 0xffff {
        Err(MdioError::StuckHighPhyId)
    } else {
        let (h, l) = (hi as u32, lo as u32);
        assert(h << 16u32 | l == h * 0x1_0000 + l) by (bit_vector)
            requires h <= 0xffff, l <= 0xffff;
        Ok((h << 16) | l)
    }
}


/// Why a PHY identify / link classify was refused.
#[derive(Clone, Copy, Debug, PartialEq, Eq, Structural)]
pub enum PhyError {
    ModeNotRgmiiRxid,
    Id(MdioError),
    ResetPending,
    LinkDown,
}

/// Clause-22 link snapshot. `rgmii-rxid` is a binding fact, not a delay table.
#[derive(Clone, Copy, Debug, PartialEq, Eq, Structural)]
pub enum LinkState {
    Down,
    Up,
}

#[derive(Clone, Copy, Debug, PartialEq, Eq, Structural)]
pub struct PhyLink {
    pub id: u32,
    pub rgmii_rxid: bool,
    pub state: LinkState,
}

/// The link state a BMSR reads as.
pub open spec fn bmsr_state(bmsr: u16) -> LinkState {
    if bmsr & phy::BMSR_LINK != 0 { LinkState::Up } else { LinkState::Down }
}

/// What `PhyLink::identify` gives.
pub open spec fn identify_spec(hi: u16, lo: u16, rgmii_rxid: bool) -> Result<PhyLink, PhyError> {
    if !rgmii_rxid {
        Err(PhyError::ModeNotRgmiiRxid)
    } else if hi == 0 && lo == 0 {
        Err(PhyError::Id(MdioError::AbsentPhyId))
    } else if hi == 0xffff && lo == 0xffff {
        Err(PhyError::Id(MdioError::StuckHighPhyId))
    } else {
        Ok(PhyLink { id: (hi * 0x1_0000 + lo) as u32, rgmii_rxid: true, state: LinkState::Down })
    }
}

impl PhyLink {
    pub fn identify(hi: u16, lo: u16, rgmii_rxid: bool) -> (r: Result<Self, PhyError>)
        ensures
            r == identify_spec(hi, lo, rgmii_rxid),
    {
        if !rgmii_rxid {
            return Err(PhyError::ModeNotRgmiiRxid);
        }
        match classify_phy_id(hi, lo) {
            Ok(id) => Ok(Self { id, rgmii_rxid: true, state: LinkState::Down }),
            Err(error) => Err(PhyError::Id(error)),
        }
    }

    pub fn reset_command() -> (r: u16)
        ensures
            r == phy::BMCR_RESET,
    {
        phy::BMCR_RESET
    }

    pub fn reset_cleared(bmcr: u16) -> (r: Result<(), PhyError>)
        ensures
            r == (if bmcr & phy::BMCR_RESET == 0 { Ok::<(), PhyError>(()) } else { Err::<(), PhyError>(PhyError::ResetPending) }),
    {
        if bmcr & phy::BMCR_RESET == 0 {
            Ok(())
        } else {
            Err(PhyError::ResetPending)
        }
    }

    pub fn classify_bmsr(bmsr: u16) -> (r: LinkState)
        ensures
            r == bmsr_state(bmsr),
    {
        if bmsr & phy::BMSR_LINK != 0 {
            LinkState::Up
        } else {
            LinkState::Down
        }
    }

    pub fn with_bmsr(self, bmsr: u16) -> (r: Self)
        ensures
            r == (PhyLink { state: bmsr_state(bmsr), ..self }),
    {
        Self { state: Self::classify_bmsr(bmsr), ..self }
    }

    pub fn require_up(self) -> (r: Result<Self, PhyError>)
        ensures
            r == (if self.state == LinkState::Up { Ok::<Self, PhyError>(self) } else { Err::<Self, PhyError>(PhyError::LinkDown) }),
    {
        match self.state {
            LinkState::Up => Ok(self),
            LinkState::Down => Err(PhyError::LinkDown),
        }
    }
}

/// Boot report for a clause-22 PHY identify. Not a NIC and not a link claim.
#[derive(Clone, Copy, Debug, PartialEq, Eq, Structural)]
pub enum PhyIdentify {
    Identity(PhyLink),
    Unavailable(PhyError),
    Timeout,
}

/// The boot line for a PHY identify.
pub open spec fn phy_identify_text(p: PhyIdentify) -> Seq<char> {
    match p {
        PhyIdentify::Identity(link) => "genet: phy=0x"@ + hex_padded(link.id as nat, 8) + " (id, not a nic)"@,
        PhyIdentify::Unavailable(PhyError::ModeNotRgmiiRxid) => "genet: phy unavailable (mode)"@,
        PhyIdentify::Unavailable(PhyError::Id(MdioError::AbsentPhyId)) => "genet: phy unavailable (absent id)"@,
        PhyIdentify::Unavailable(PhyError::Id(MdioError::StuckHighPhyId)) => "genet: phy unavailable (stuck-high id)"@,
        PhyIdentify::Unavailable(PhyError::Id(MdioError::Busy)) => "genet: phy unavailable (busy)"@,
        PhyIdentify::Unavailable(PhyError::Id(MdioError::ReadFail)) => "genet: phy unavailable (read fail)"@,
        PhyIdentify::Unavailable(PhyError::Id(_)) => "genet: phy unavailable (id)"@,
        PhyIdentify::Unavailable(PhyError::ResetPending) => "genet: phy unavailable (reset pending)"@,
        PhyIdentify::Unavailable(PhyError::LinkDown) => "genet: phy unavailable (link down)"@,
        PhyIdentify::Timeout => "genet: phy unavailable (timeout)"@,
    }
}

impl PhyIdentify {
    pub fn from_identify(hi: u16, lo: u16, rgmii_rxid: bool) -> (r: Self)
        ensures
            r == (match identify_spec(hi, lo, rgmii_rxid) {
                Ok(link) => PhyIdentify::Identity(link),
                Err(e) => PhyIdentify::Unavailable(e),
            }),
    {
        match PhyLink::identify(hi, lo, rgmii_rxid) {
            Ok(link) => Self::Identity(link),
            Err(error) => Self::Unavailable(error),
        }
    }

    /// The boot line.
    pub fn line(&self) -> (r: String)
        ensures
            r@ == phy_identify_text(*self),
    {
        match self {
            PhyIdentify::Identity(link) => {
                let mut s = String::from_str("genet: phy=0x");
                push_hex_padded(&mut s, link.id as u64, 8);
                s.append(" (id, not a nic)");
                s
            },
            PhyIdentify::Unavailable(PhyError::ModeNotRgmiiRxid) => String::from_str("genet: phy unavailable (mode)"),
            PhyIdentify::Unavailable(PhyError::Id(MdioError::AbsentPhyId)) => String::from_str("genet: phy unavailable (absent id)"),
            PhyIdentify::Unavailable(PhyError::Id(MdioError::StuckHighPhyId)) => String::from_str("genet: phy unavailable (stuck-high id)"),
            PhyIdentify::Unavailable(PhyError::Id(MdioError::Busy)) => String::from_str("genet: phy unavailable (busy)"),
            PhyIdentify::Unavailable(PhyError::Id(MdioError::ReadFail)) => String::from_str("genet: phy unavailable (read fail)"),
            PhyIdentify::Unavailable(PhyError::Id(_)) => String::from_str("genet: phy unavailable (id)"),
            PhyIdentify::Unavailable(PhyError::ResetPending) => String::from_str("genet: phy unavailable (reset pending)"),
            PhyIdentify::Unavailable(PhyError::LinkDown) => String::from_str("genet: phy unavailable (link down)"),
            PhyIdentify::Timeout => String::from_str("genet: phy unavailable (timeout)"),
        }
    }
}

/// Boot report for a BMSR link snapshot. Not a NIC and not a service bind.
#[derive(Clone, Copy, Debug, PartialEq, Eq, Structural)]
pub enum LinkReport {
    Classified(LinkState),
    Unavailable(MdioError),
    Timeout,
}

/// The boot line for a link snapshot.
pub open spec fn link_report_text(p: LinkReport) -> Seq<char> {
    match p {
        LinkReport::Classified(LinkState::Up) => "genet: link=up (bmsr, not a nic)"@,
        LinkReport::Classified(LinkState::Down) => "genet: link=down (bmsr, not a nic)"@,
        LinkReport::Unavailable(MdioError::Busy) => "genet: link unavailable (busy)"@,
        LinkReport::Unavailable(MdioError::ReadFail) => "genet: link unavailable (read fail)"@,
        LinkReport::Unavailable(_) => "genet: link unavailable (mdio)"@,
        LinkReport::Timeout => "genet: link unavailable (timeout)"@,
    }
}

impl LinkReport {
    pub fn from_bmsr(bmsr: u16) -> (r: Self)
        ensures
            r == LinkReport::Classified(bmsr_state(bmsr)),
    {
        Self::Classified(PhyLink::classify_bmsr(bmsr))
    }

    /// The boot line.
    pub fn line(&self) -> (r: String)
        ensures
            r@ == link_report_text(*self),
    {
        match self {
            LinkReport::Classified(LinkState::Up) => String::from_str("genet: link=up (bmsr, not a nic)"),
            LinkReport::Classified(LinkState::Down) => String::from_str("genet: link=down (bmsr, not a nic)"),
            LinkReport::Unavailable(MdioError::Busy) => String::from_str("genet: link unavailable (busy)"),
            LinkReport::Unavailable(MdioError::ReadFail) => String::from_str("genet: link unavailable (read fail)"),
            LinkReport::Unavailable(_) => String::from_str("genet: link unavailable (mdio)"),
            LinkReport::Timeout => String::from_str("genet: link unavailable (timeout)"),
        }
    }
}

/// Why a queue-0 DMA enable word was refused.
#[derive(Clone, Copy, Debug, PartialEq, Eq, Structural)]
pub enum QueueEnableError {
    UnsupportedQueue,
    NotProgrammed,
    AlreadyEnabled,
}

/// Boot report for a programmed queue-0 pair. Not a NIC: DMA stays disabled.
#[derive(Clone, Copy, Debug, PartialEq, Eq, Structural)]
pub enum Queue0Report {
    Programmed,
    Enabled,
    OutsideDma,
    NoFrames,
    Descriptor(DescriptorError),
    Ring(RingProgramError),
    Enable(QueueEnableError),
}

/// The boot line for the queue-0 pair.
pub open spec fn queue0_text(p: Queue0Report) -> Seq<char> {
    match p {
        Queue0Report::Programmed => "genet: queue0 programmed (rings, not a nic)"@,
        Queue0Report::Enabled => "genet: queue0 enabled (dma, not a nic)"@,
        Queue0Report::OutsideDma => "genet: queue0 unavailable (outside dma)"@,
        Queue0Report::NoFrames => "genet: queue0 unavailable (no frames)"@,
        Queue0Report::Descriptor(_) => "genet: queue0 unavailable (descriptor)"@,
        Queue0Report::Ring(_) => "genet: queue0 unavailable (ring)"@,
        Queue0Report::Enable(QueueEnableError::NotProgrammed) => "genet: queue0 unavailable (not programmed)"@,
        Queue0Report::Enable(QueueEnableError::AlreadyEnabled) => "genet: queue0 unavailable (already enabled)"@,
        Queue0Report::Enable(_) => "genet: queue0 unavailable (phase)"@,
    }
}

impl Queue0Report {
    /// The boot line.
    pub fn line(&self) -> (r: String)
        ensures
            r@ == queue0_text(*self),
    {
        match self {
            Queue0Report::Programmed => String::from_str("genet: queue0 programmed (rings, not a nic)"),
            Queue0Report::Enabled => String::from_str("genet: queue0 enabled (dma, not a nic)"),
            Queue0Report::OutsideDma => String::from_str("genet: queue0 unavailable (outside dma)"),
            Queue0Report::NoFrames => String::from_str("genet: queue0 unavailable (no frames)"),
            Queue0Report::Descriptor(_) => String::from_str("genet: queue0 unavailable (descriptor)"),
            Queue0Report::Ring(_) => String::from_str("genet: queue0 unavailable (ring)"),
            Queue0Report::Enable(QueueEnableError::NotProgrammed) => String::from_str("genet: queue0 unavailable (not programmed)"),
            Queue0Report::Enable(QueueEnableError::AlreadyEnabled) => String::from_str("genet: queue0 unavailable (already enabled)"),
            Queue0Report::Enable(_) => String::from_str("genet: queue0 unavailable (phase)"),
        }
    }
}

/// Boot report for the RGMII OOB / port-mode program. Not a NIC.
#[derive(Clone, Copy, Debug, PartialEq, Eq, Structural)]
pub enum RgmiiReport {
    Programmed,
    ModeNotRgmiiRxid,
}

impl RgmiiReport {
    /// The boot line.
    pub fn line(&self) -> (r: String)
        ensures
            r@ == (match *self {
                RgmiiReport::Programmed => "genet: rgmii oob (ext-gphy, not a nic)"@,
                RgmiiReport::ModeNotRgmiiRxid => "genet: rgmii unavailable (not rgmii-rxid)"@,
            }),
    {
        match self {
            RgmiiReport::Programmed => String::from_str("genet: rgmii oob (ext-gphy, not a nic)"),
            RgmiiReport::ModeNotRgmiiRxid => String::from_str("genet: rgmii unavailable (not rgmii-rxid)"),
        }
    }
}

/// Boot report for UniMAC max-frame and station address. Not a NIC.
#[derive(Clone, Copy, Debug, PartialEq, Eq, Structural)]
pub enum UmacReport {
    Programmed,
}

impl UmacReport {
    /// The boot line.
    pub fn line(&self) -> (r: String)
        ensures
            r@ == "genet: umac init (frame, not a nic)"@,
    {
        match self {
            UmacReport::Programmed => String::from_str("genet: umac init (frame, not a nic)"),
        }
    }
}

/// Boot report for UniMAC TX TSV candidates. Not a wire claim.
#[derive(Clone, Copy, Debug, PartialEq, Eq, Structural)]
pub struct UmacMibReport {
    /// Packed-struct trap at 0x49c (no 0xC RX/TX hole).
    pub packed: u32,
    /// Linux `tx_pkts` at 0x4a8.
    pub linux: u32,
    /// Linux `tx_good_pkts` (`pok`) at 0x4ec.
    pub pok: u32,
}

impl UmacMibReport {
    /// The boot line.
    pub fn line(&self) -> (r: String)
        ensures
            r@ == "genet: umac tsv packed="@ + dec(self.packed as nat) + " linux="@ + dec(self.linux as nat) + " pok="@
                + dec(self.pok as nat) + " (mib, not a nic)"@,
    {
        let mut s = String::from_str("genet: umac tsv packed=");
        push_dec(&mut s, self.packed as u64);
        s.append(" linux=");
        push_dec(&mut s, self.linux as u64);
        s.append(" pok=");
        push_dec(&mut s, self.pok as u64);
        s.append(" (mib, not a nic)");
        s
    }
}

/// Boot report for TBUF 64-byte status-block policy. Not a NIC.
#[derive(Clone, Copy, Debug, PartialEq, Eq, Structural)]
pub enum TbufReport {
    Raw,
    Tsb,
}

impl TbufReport {
    /// The boot line.
    pub fn line(&self) -> (r: String)
        ensures
            r@ == (match *self {
                TbufReport::Raw => "genet: tbuf raw (no 64b, not a nic)"@,
                TbufReport::Tsb => "genet: tbuf tsb (64b, not a nic)"@,
            }),
    {
        match self {
            TbufReport::Raw => String::from_str("genet: tbuf raw (no 64b, not a nic)"),
            TbufReport::Tsb => String::from_str("genet: tbuf tsb (64b, not a nic)"),
        }
    }
}

/// Boot report for the descriptor-based ring (Linux `DESC_INDEX` = 16). Not a NIC.
#[derive(Clone, Copy, Debug, PartialEq, Eq, Structural)]
pub enum DescRingReport {
    Programmed,
    Enabled,
    OutsideDma,
    NoFrames,
    Descriptor(DescriptorError),
    Ring(RingProgramError),
    Enable(QueueEnableError),
}

/// The boot line for the descriptor-based ring.
pub open spec fn desc_ring_text(p: DescRingReport) -> Seq<char> {
    match p {
        DescRingReport::Programmed => "genet: desc ring programmed (16, not a nic)"@,
        DescRingReport::Enabled => "genet: desc ring enabled (dma, not a nic)"@,
        DescRingReport::OutsideDma => "genet: desc ring unavailable (outside dma)"@,
        DescRingReport::NoFrames => "genet: desc ring unavailable (no frames)"@,
        DescRingReport::Descriptor(_) => "genet: desc ring unavailable (descriptor)"@,
        DescRingReport::Ring(_) => "genet: desc ring unavailable (ring)"@,
        DescRingReport::Enable(QueueEnableError::NotProgrammed) => "genet: desc ring unavailable (not programmed)"@,
        DescRingReport::Enable(QueueEnableError::AlreadyEnabled) => "genet: desc ring unavailable (already enabled)"@,
        DescRingReport::Enable(_) => "genet: desc ring unavailable (phase)"@,
    }
}

impl DescRingReport {
    /// The boot line.
    pub fn line(&self) -> (r: String)
        ensures
            r@ == desc_ring_text(*self),
    {
        match self {
            DescRingReport::Programmed => String::from_str("genet: desc ring programmed (16, not a nic)"),
            DescRingReport::Enabled => String::from_str("genet: desc ring enabled (dma, not a nic)"),
            DescRingReport::OutsideDma => String::from_str("genet: desc ring unavailable (outside dma)"),
            DescRingReport::NoFrames => String::from_str("genet: desc ring unavailable (no frames)"),
            DescRingReport::Descriptor(_) => String::from_str("genet: desc ring unavailable (descriptor)"),
            DescRingReport::Ring(_) => String::from_str("genet: desc ring unavailable (ring)"),
            DescRingReport::Enable(QueueEnableError::NotProgrammed) => String::from_str("genet: desc ring unavailable (not programmed)"),
            DescRingReport::Enable(QueueEnableError::AlreadyEnabled) => String::from_str("genet: desc ring unavailable (already enabled)"),
            DescRingReport::Enable(_) => String::from_str("genet: desc ring unavailable (phase)"),
        }
    }
}


/// Boot report for one bounded TX. Not a NIC and not an RX claim.
#[derive(Clone, Copy, Debug, PartialEq, Eq, Structural)]
pub enum TxReport {
    Complete(u16),
    LinkDown,
    NotEnabled,
    Timeout,
    MdioTimeout,
    StillOwned,
    ImplausibleCons,
    UnknownSpeed,
}

/// The boot line for one bounded TX.
pub open spec fn tx_report_text(p: TxReport) -> Seq<char> {
    match p {
        TxReport::Complete(len) => "genet: tx complete len="@ + dec(len as nat) + " (one frame, not a nic)"@,
        TxReport::LinkDown => "genet: tx unavailable (link down)"@,
        TxReport::NotEnabled => "genet: tx unavailable (not enabled)"@,
        TxReport::Timeout => "genet: tx unavailable (timeout)"@,
        TxReport::MdioTimeout => "genet: tx unavailable (mdio timeout)"@,
        TxReport::StillOwned => "genet: tx unavailable (still owned)"@,
        TxReport::ImplausibleCons => "genet: tx unavailable (implausible cons)"@,
        TxReport::UnknownSpeed => "genet: tx unavailable (unknown speed)"@,
    }
}

/// What a completion status word reports: the length when the driver owns
/// it again, else a timeout.
pub open spec fn status_completes(word: u32) -> Option<u16> {
    match decode_spec(word) {
        Ok(st) => if st.ownership == Ownership::Driver { Some(st.length) } else { None },
        Err(_) => None,
    }
}

/// The low half of a CONS word: the completion index.
pub open spec fn cons_index(word: u32) -> u32 {
    word & 0xffff
}

impl TxReport {
    /// Refuse before ringing the doorbell. Enabled+Up returns `None`.
    pub fn refuse(phase: DmaPhase, link: LinkState) -> (r: Option<Self>)
        ensures
            r == (if phase == DmaPhase::Enabled {
                if link == LinkState::Up { None } else { Some(TxReport::LinkDown) }
            } else {
                Some(TxReport::NotEnabled)
            }),
    {
        match (phase, link) {
            (DmaPhase::Enabled, LinkState::Up) => None,
            (DmaPhase::Enabled, LinkState::Down) => Some(Self::LinkDown),
            (_, _) => Some(Self::NotEnabled),
        }
    }

    pub fn from_status(word: u32) -> (r: Self)
        ensures
            r == (match status_completes(word) {
                Some(len) => TxReport::Complete(len),
                None => TxReport::Timeout,
            }),
    {
        match DescriptorStatus::decode(word) {
            Ok(status) => match status.ownership {
                Ownership::Driver => Self::Complete(status.length),
                Ownership::Device => Self::Timeout,
            },
            Err(_) => Self::Timeout,
        }
    }

    /// Queue-0 consumer must be idle before the first doorbell.
    pub fn cons_is_idle(word: u32) -> (r: bool)
        ensures
            r == (cons_index(word) == 0),
    {
        word & 0xffff == 0
    }

    /// Hardware posted at least one completion index. Not ownership.
    pub fn cons_has_posted(word: u32) -> (r: bool)
        ensures
            r == (cons_index(word) >= 1),
    {
        word & 0xffff >= 1
    }

    /// Classify a finished poll. CONS not posted is timeout; CONS posted
    /// without driver ownership is still-owned. Does not invent a completed
    /// frame.
    pub fn from_poll(cons: u32, status: u32) -> (r: Self)
        ensures
            r == (if cons_index(cons) == 0 {
                TxReport::Timeout
            } else {
                match status_completes(status) {
                    Some(len) => TxReport::Complete(len),
                    None => TxReport::StillOwned,
                }
            }),
    {
        if !Self::cons_has_posted(cons) {
            return Self::Timeout;
        }
        match Self::from_status(status) {
            Self::Complete(len) => Self::Complete(len),
            _ => Self::StillOwned,
        }
    }

    /// GENET TX completes on CONS. Silicon does not write back OWN on TX.
    pub fn from_tx_cons(cons: u32, length: u16) -> (r: Self)
        ensures
            r == (if cons_index(cons) >= 1 { TxReport::Complete(length) } else { TxReport::Timeout }),
    {
        if Self::cons_has_posted(cons) {
            Self::Complete(length)
        } else {
            Self::Timeout
        }
    }

    pub fn with_tx_append_crc(word: u32) -> (r: u32)
        ensures
            r == word | DMA_TX_APPEND_CRC,
    {
        word | DMA_TX_APPEND_CRC
    }

    /// TX BD status: append CRC and the v5 queue tag. Not a completion claim.
    pub fn tx_desc_status(word: u32) -> (r: u32)
        ensures
            r == (word | DMA_TX_APPEND_CRC) | 0x1f80,
    {
        // The queue tag: `DMA_TX_QTAG_MASK << DMA_TX_QTAG_SHIFT`.
        Self::with_tx_append_crc(word) | 0x1f80
    }

    /// The boot line.
    pub fn line(&self) -> (r: String)
        ensures
            r@ == tx_report_text(*self),
    {
        match self {
            TxReport::Complete(len) => {
                let mut s = String::from_str("genet: tx complete len=");
                push_dec(&mut s, *len as u64);
                s.append(" (one frame, not a nic)");
                s
            },
            TxReport::LinkDown => String::from_str("genet: tx unavailable (link down)"),
            TxReport::NotEnabled => String::from_str("genet: tx unavailable (not enabled)"),
            TxReport::Timeout => String::from_str("genet: tx unavailable (timeout)"),
            TxReport::MdioTimeout => String::from_str("genet: tx unavailable (mdio timeout)"),
            TxReport::StillOwned => String::from_str("genet: tx unavailable (still owned)"),
            TxReport::ImplausibleCons => String::from_str("genet: tx unavailable (implausible cons)"),
            TxReport::UnknownSpeed => String::from_str("genet: tx unavailable (unknown speed)"),
        }
    }
}

/// Boot report for one bounded RX. Not a NIC and not a TX claim.
#[derive(Clone, Copy, Debug, PartialEq, Eq, Structural)]
pub enum RxReport {
    Complete(u16),
    LinkDown,
    NotEnabled,
    Timeout,
    MdioTimeout,
    StillOwned,
    ImplausibleCons,
    UnknownSpeed,
}

/// The boot line for one bounded RX.
pub open spec fn rx_report_text(p: RxReport) -> Seq<char> {
    match p {
        RxReport::Complete(len) => "genet: rx complete len="@ + dec(len as nat) + " (one frame, not a nic)"@,
        RxReport::LinkDown => "genet: rx unavailable (link down)"@,
        RxReport::NotEnabled => "genet: rx unavailable (not enabled)"@,
        RxReport::Timeout => "genet: rx unavailable (timeout)"@,
        RxReport::MdioTimeout => "genet: rx unavailable (mdio timeout)"@,
        RxReport::StillOwned => "genet: rx unavailable (still owned)"@,
        RxReport::ImplausibleCons => "genet: rx unavailable (implausible cons)"@,
        RxReport::UnknownSpeed => "genet: rx unavailable (unknown speed)"@,
    }
}

impl RxReport {
    /// Refuse before arming UniMAC RX or posting the buffer. Enabled+Up returns `None`.
    pub fn refuse(phase: DmaPhase, link: LinkState) -> (r: Option<Self>)
        ensures
            r == (if phase == DmaPhase::Enabled {
                if link == LinkState::Up { None } else { Some(RxReport::LinkDown) }
            } else {
                Some(RxReport::NotEnabled)
            }),
    {
        match (phase, link) {
            (DmaPhase::Enabled, LinkState::Up) => None,
            (DmaPhase::Enabled, LinkState::Down) => Some(Self::LinkDown),
            (_, _) => Some(Self::NotEnabled),
        }
    }

    pub fn from_status(word: u32) -> (r: Self)
        ensures
            r == (match status_completes(word) {
                Some(len) => RxReport::Complete(len),
                None => RxReport::Timeout,
            }),
    {
        match DescriptorStatus::decode(word) {
            Ok(status) => match status.ownership {
                Ownership::Driver => Self::Complete(status.length),
                Ownership::Device => Self::Timeout,
            },
            Err(_) => Self::Timeout,
        }
    }

    pub fn from_poll(cons: u32, status: u32) -> (r: Self)
        ensures
            r == (if cons_index(cons) == 0 {
                RxReport::Timeout
            } else {
                match status_completes(status) {
                    Some(len) => RxReport::Complete(len),
                    None => RxReport::StillOwned,
                }
            }),
    {
        if !TxReport::cons_has_posted(cons) {
            return Self::Timeout;
        }
        match Self::from_status(status) {
            Self::Complete(len) => Self::Complete(len),
            _ => Self::StillOwned,
        }
    }

    /// The boot line.
    pub fn line(&self) -> (r: String)
        ensures
            r@ == rx_report_text(*self),
    {
        match self {
            RxReport::Complete(len) => {
                let mut s = String::from_str("genet: rx complete len=");
                push_dec(&mut s, *len as u64);
                s.append(" (one frame, not a nic)");
                s
            },
            RxReport::LinkDown => String::from_str("genet: rx unavailable (link down)"),
            RxReport::NotEnabled => String::from_str("genet: rx unavailable (not enabled)"),
            RxReport::Timeout => String::from_str("genet: rx unavailable (timeout)"),
            RxReport::MdioTimeout => String::from_str("genet: rx unavailable (mdio timeout)"),
            RxReport::StillOwned => String::from_str("genet: rx unavailable (still owned)"),
            RxReport::ImplausibleCons => String::from_str("genet: rx unavailable (implausible cons)"),
            RxReport::UnknownSpeed => String::from_str("genet: rx unavailable (unknown speed)"),
        }
    }
}

/// Boot report for one bounded reset/recovery. Not a NIC.
#[derive(Clone, Copy, Debug, PartialEq, Eq, Structural)]
pub enum ResetReport {
    Recovered,
    NotEnabled,
    Timeout,
}

impl ResetReport {
    /// Refuse unless there is programmed or enabled DMA to recover.
    pub fn refuse(phase: DmaPhase) -> (r: Option<Self>)
        ensures
            r == (if phase == DmaPhase::Idle { Some(ResetReport::NotEnabled) } else { None }),
    {
        match phase {
            DmaPhase::Enabled | DmaPhase::Programmed => None,
            DmaPhase::Idle => Some(Self::NotEnabled),
        }
    }

    pub fn from_phase(phase: DmaPhase) -> (r: Self)
        ensures
            r == (if phase == DmaPhase::Idle { ResetReport::Recovered } else { ResetReport::NotEnabled }),
    {
        match phase {
            DmaPhase::Idle => Self::Recovered,
            _ => Self::NotEnabled,
        }
    }

    /// The boot line.
    pub fn line(&self) -> (r: String)
        ensures
            r@ == (match *self {
                ResetReport::Recovered => "genet: reset recovered (idle, not a nic)"@,
                ResetReport::NotEnabled => "genet: reset unavailable (not enabled)"@,
                ResetReport::Timeout => "genet: reset unavailable (timeout)"@,
            }),
    {
        match self {
            ResetReport::Recovered => String::from_str("genet: reset recovered (idle, not a nic)"),
            ResetReport::NotEnabled => String::from_str("genet: reset unavailable (not enabled)"),
            ResetReport::Timeout => String::from_str("genet: reset unavailable (timeout)"),
        }
    }
}

/// v5 common-block words that turn on queue 0 after the rings are programmed.
///
/// `RING_CFG` names the ring; `CTRL` then sets both `DMA_EN` and that ring's
/// buffer-enable bit. Hardware completions live at
/// [`dma_registers::CONS_INDEX`]; software producer/consumer updates live at
/// [`dma_registers::PROD_INDEX`] for both engines — the merged v4+ map
/// aliases RDMA_PROD onto CONS and RDMA_CONS onto PROD.
#[derive(Clone, Copy, Debug, PartialEq, Eq, Structural)]
pub struct QueueEnable {
    pub queue: u8,
}

impl QueueEnable {
    pub fn new(queue: u8) -> (r: Result<Self, QueueEnableError>)
        ensures
            r == (if queue == 0 || queue == DESC_RING {
                Ok::<Self, QueueEnableError>(QueueEnable { queue })
            } else {
                Err::<Self, QueueEnableError>(QueueEnableError::UnsupportedQueue)
            }),
    {
        if !queue_supported(queue) {
            return Err(QueueEnableError::UnsupportedQueue);
        }
        Ok(Self { queue })
    }

    pub fn ring_cfg(self) -> (r: u32)
        requires
            self.queue < 32,
        ensures
            r == 1u32 << self.queue,
    {
        1 << self.queue
    }

    pub fn ctrl(self) -> (r: u32)
        requires
            self.queue < 31,
        ensures
            r == dma_registers::DMA_ENABLE | (1u32 << (dma_registers::RING_BUF_EN_SHIFT + self.queue)),
    {
        dma_registers::DMA_ENABLE | (1 << (dma_registers::RING_BUF_EN_SHIFT + self.queue as u32))
    }

    pub fn hardware_index(self) -> (r: u32)
        ensures
            r == dma_registers::CONS_INDEX,
    {
        dma_registers::CONS_INDEX
    }

    pub fn software_index(self) -> (r: u32)
        ensures
            r == dma_registers::PROD_INDEX,
    {
        dma_registers::PROD_INDEX
    }
}

/// Driver-side phase so enable cannot run before program or twice.
#[derive(Clone, Copy, Debug, PartialEq, Eq, Structural)]
pub enum DmaPhase {
    Idle,
    Programmed,
    Enabled,
}

impl DmaPhase {
    pub fn program(self) -> (r: Result<Self, QueueEnableError>)
        ensures
            r == (if self == DmaPhase::Enabled {
                Err::<Self, QueueEnableError>(QueueEnableError::AlreadyEnabled)
            } else {
                Ok::<Self, QueueEnableError>(DmaPhase::Programmed)
            }),
    {
        match self {
            Self::Idle | Self::Programmed => Ok(Self::Programmed),
            Self::Enabled => Err(QueueEnableError::AlreadyEnabled),
        }
    }

    pub fn enable(self) -> (r: Result<Self, QueueEnableError>)
        ensures
            r == (match self {
                DmaPhase::Programmed => Ok::<Self, QueueEnableError>(DmaPhase::Enabled),
                DmaPhase::Idle => Err::<Self, QueueEnableError>(QueueEnableError::NotProgrammed),
                DmaPhase::Enabled => Err::<Self, QueueEnableError>(QueueEnableError::AlreadyEnabled),
            }),
    {
        match self {
            Self::Programmed => Ok(Self::Enabled),
            Self::Idle => Err(QueueEnableError::NotProgrammed),
            Self::Enabled => Err(QueueEnableError::AlreadyEnabled),
        }
    }

    pub fn reset(self) -> (r: Self)
        ensures
            r == DmaPhase::Idle,
    {
        Self::Idle
    }
}


/// Autonegotiation resolves to the highest speed both sides advertise: a
/// down link is down; an up link still negotiating is unknown; gigabit when
/// both gigabit bits are set; otherwise 100 Mb/s whenever the partner
/// advertises it, whatever its 10 Mb/s bits; 10 Mb/s only when it
/// advertises 10 and not 100.
pub proof fn lemma_aneg_highest_common(bmsr: u16, lpa: u16, ctrl1000: u16, stat1000: u16)
    ensures
        bmsr & 0x4 == 0 ==> aneg_speed(bmsr, lpa, ctrl1000, stat1000) == Err::<LinkSpeed, SpeedError>(SpeedError::LinkDown),
        bmsr & 0x4 != 0 && bmsr & 0x20 == 0 ==> aneg_speed(bmsr, lpa, ctrl1000, stat1000) == Err::<LinkSpeed, SpeedError>(SpeedError::Unknown),
        bmsr & 0x4 != 0 && bmsr & 0x20 != 0 ==> {
            let gig = stat1000 & 0xc00 != 0 && ctrl1000 & 0x300 != 0;
            &&& gig ==> aneg_speed(bmsr, lpa, ctrl1000, stat1000) == Ok::<LinkSpeed, SpeedError>(LinkSpeed::Thousand)
            &&& !gig && lpa & 0x180 != 0 ==> aneg_speed(bmsr, lpa, ctrl1000, stat1000) == Ok::<LinkSpeed, SpeedError>(LinkSpeed::Hundred)
            &&& !gig && lpa & 0x180 == 0 && lpa & 0x60 != 0 ==> aneg_speed(bmsr, lpa, ctrl1000, stat1000) == Ok::<LinkSpeed, SpeedError>(LinkSpeed::Ten)
            &&& !gig && lpa & 0x180 == 0 && lpa & 0x60 == 0 ==> aneg_speed(bmsr, lpa, ctrl1000, stat1000) == Err::<LinkSpeed, SpeedError>(SpeedError::Unknown)
        },
        aneg_speed(bmsr, lpa, ctrl1000, stat1000) == Ok::<LinkSpeed, SpeedError>(LinkSpeed::Ten) ==> lpa & 0x180 == 0,
{
}

} // verus!
