//! GENET register offsets used by the bounded model.
use vstd::prelude::*;

verus! {

pub const SYS_REV_CTRL: u32 = 0x0000;
pub const SYS_PORT_CTRL: u32 = 0x0004;
/// External gigabit PHY on RGMII (`PORT_MODE_EXT_GPHY`).
pub const PORT_MODE_EXT_GPHY: u32 = 3;
pub const EXT: u32 = 0x0080;
/// `EXT + 0x0c`
pub const EXT_RGMII_OOB_CTRL: u32 = 0x8c;
/// `1 << 4`
pub const RGMII_LINK: u32 = 0x10;
/// `1 << 5`
pub const OOB_DISABLE: u32 = 0x20;
/// `1 << 6`
pub const RGMII_MODE_EN: u32 = 0x40;
/// Set only for plain `rgmii` (no delay). `rgmii-rxid` leaves this clear.
/// `1 << 16`
pub const ID_MODE_DIS: u32 = 0x10000;
pub const INTRL2_0: u32 = 0x0200;
pub const INTRL2_1: u32 = 0x0240;
pub const RBUF: u32 = 0x0300;
pub const UMAC: u32 = 0x0800;
pub const MDIO: u32 = 0x0e14;
pub const RDMA: u32 = 0x2000;
pub const TDMA: u32 = 0x4000;
pub const INTRL2_CPU_CLEAR: u32 = 0x08;
pub const INTRL2_CPU_MASK_SET: u32 = 0x10;
/// `RBUF`
pub const RBUF_CTRL: u32 = 0x300;
/// `UMAC + 0x08`
pub const UMAC_CMD: u32 = 0x808;
/// `1 << 0`
pub const UMAC_CMD_TX_EN: u32 = 1;
/// `1 << 1`
pub const UMAC_CMD_RX_EN: u32 = 2;
/// UniMAC `CMD_SPEED_*` occupy bits 3:2.
pub const UMAC_CMD_SPEED_SHIFT: u32 = 2;
/// `0x3 << 2`
pub const UMAC_CMD_SPEED_MASK: u32 = 0xc;
/// `1 << 5`
pub const UMAC_CMD_PAD_EN: u32 = 0x20;
/// `1 << 6`
pub const UMAC_CMD_CRC_FWD: u32 = 0x40;
/// `1 << 24`
pub const UMAC_CMD_NO_LEN_CHK: u32 = 0x1000000;
/// `UMAC + 0x0c`
pub const UMAC_MAC0: u32 = 0x80c;
/// `UMAC + 0x10`
pub const UMAC_MAC1: u32 = 0x810;
/// `UMAC + 0x14`
pub const UMAC_MAX_FRAME_LEN: u32 = 0x814;
/// UniMAC RSV/TSV base (`UMAC_MIB_START`).
/// `UMAC + 0x400`
pub const UMAC_MIB_START: u32 = 0xc00;
/// Packed-struct trap for `tx.pkts` if the 0xC RX/TX hole is forgotten.
/// `UMAC + 0x49c`
pub const UMAC_TX_PKTS_PACKED: u32 = 0xc9c;
/// Linux `tx_pkts` (0x4a8 past the UniMAC base).
/// `UMAC + 0x4a8`
pub const UMAC_TX_PKTS: u32 = 0xca8;
/// Linux `tx_good_pkts` (`pok`).
/// `UMAC + 0x4ec`
pub const UMAC_TX_POK: u32 = 0xcec;
/// `UMAC + 0x580`
pub const UMAC_MIB_CTRL: u32 = 0xd80;
/// `1 << 0`
pub const MIB_RESET_RX: u32 = 1;
/// `1 << 1`
pub const MIB_RESET_RUNT: u32 = 2;
/// `1 << 2`
pub const MIB_RESET_TX: u32 = 4;
/// `UMAC + 0x334`
pub const UMAC_TX_FLUSH: u32 = 0xb34;
/// `MDIO`
pub const UMAC_MDIO_CMD: u32 = 0xe14;
/// v2+ TBUF block.
pub const TBUF: u32 = 0x0600;
/// `TBUF`
pub const TBUF_CTRL: u32 = 0x600;
/// `1 << 0`
pub const TBUF_64B_EN: u32 = 1;
pub const SYS_TBUF_FLUSH_CTRL: u32 = 0x0c;

} // verus!
