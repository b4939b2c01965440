//! Pure display arithmetic: RGB565 packing and declarative panel init ops.
use vstd::prelude::*;

verus! {

/// 16-bit colour for `COLMOD=0x55` (RGB 5-6-5).
#[derive(Clone, Copy, Debug, PartialEq, Eq, Structural)]
pub struct Rgb565(pub u16);

/// The packed word for 8-bit channels: the top 5/6/5 bits of each.
pub open spec fn spec_rgb565(r: u8, g: u8, b: u8) -> u16 {
    ((r / 8) * 2048 + (g / 4) * 32 + b / 8) as u16
}

impl Rgb565 {
    /// Pack 8-bit channels (top bits kept).
    pub fn from_rgb8(r: u8, g: u8, b: u8) -> (c: Rgb565)
        ensures
            c.0 == spec_rgb565(r, g, b),
    {
        let r5: u16 = (r as u16) / 8;
        let g6: u16 = (g as u16) / 4;
        let b5: u16 = (b as u16) / 8;
        Rgb565(r5 * 2048 + g6 * 32 + b5)
    }

    /// Big-endian wire order.
    pub fn to_be_bytes(self) -> (b: [u8; 2])
        ensures
            b@ == seq![(self.0 / 256) as u8, (self.0 % 256) as u8],
    {
        [(self.0 / 256) as u8, (self.0 % 256) as u8]
    }

    pub fn black() -> (c: Rgb565)
        ensures
            c.0 == 0,
    {
        Rgb565(0x0000)
    }

    pub fn white() -> (c: Rgb565)
        ensures
            c.0 == 0xFFFF,
    {
        Rgb565(0xFFFF)
    }

    pub fn red() -> (c: Rgb565)
        ensures
            c.0 == spec_rgb565(0xE0, 0x20, 0x20),
    {
        Self::from_rgb8(0xE0, 0x20, 0x20)
    }

    pub fn green() -> (c: Rgb565)
        ensures
            c.0 == spec_rgb565(0x20, 0xC0, 0x40),
    {
        Self::from_rgb8(0x20, 0xC0, 0x40)
    }

    pub fn blue() -> (c: Rgb565)
        ensures
            c.0 == spec_rgb565(0x20, 0x40, 0xE0),
    {
        Self::from_rgb8(0x20, 0x40, 0xE0)
    }

    /// Dark navy — distinct from the unprogrammed white backlight field.
    pub fn harbor() -> (c: Rgb565)
        ensures
            c.0 == spec_rgb565(0x0A, 0x14, 0x28),
    {
        Self::from_rgb8(0x0A, 0x14, 0x28)
    }
}

/// One step in a panel power-on / mode table.
#[derive(Clone, Copy, Debug, PartialEq, Eq)]
pub enum InitOp {
    /// DC low, then this command byte.
    Cmd(u8),
    /// DC high, then these data bytes.
    Data(&'static [u8]),
    /// Wall-time wait after the previous step.
    DelayMs(u16),
}

pub const CMD_NOP: u8 = 0x00;
pub const CMD_SWRESET: u8 = 0x01;
pub const CMD_SLPIN: u8 = 0x10;
pub const CMD_SLPOUT: u8 = 0x11;
pub const CMD_DISPOFF: u8 = 0x28;
pub const CMD_DISPON: u8 = 0x29;
pub const CMD_CASET: u8 = 0x2A;
pub const CMD_PASET: u8 = 0x2B;
pub const CMD_RAMWR: u8 = 0x2C;
pub const CMD_MADCTL: u8 = 0x36;
pub const CMD_COLMOD: u8 = 0x3A;
pub const CMD_IFMODE: u8 = 0xB0;
pub const CMD_PWCTR3: u8 = 0xC2;
pub const CMD_VMCTR1: u8 = 0xC5;
pub const CMD_PGAMCTRL: u8 = 0xE0;
pub const CMD_NGAMCTRL: u8 = 0xE1;
pub const CMD_DGAMCTRL: u8 = 0xE2;

pub const MADCTL_MY: u8 = 0x80;
pub const MADCTL_MX: u8 = 0x40;
pub const MADCTL_MV: u8 = 0x20;
pub const MADCTL_ML: u8 = 0x10;
pub const MADCTL_BGR: u8 = 0x08;
pub const MADCTL_MH: u8 = 0x04;

/// A column or page address window as four CASET/PASET data bytes.
pub fn address_window_bytes(start: u16, end: u16) -> (b: [u8; 4])
    ensures
        b@ == seq![(start / 256) as u8, (start % 256) as u8, (end / 256) as u8, (end % 256) as u8],
{
    [(start / 256) as u8, (start % 256) as u8, (end / 256) as u8, (end % 256) as u8]
}

/// Pixel count for a full frame.
pub fn frame_pixels(width: u16, height: u16) -> (r: u32)
    ensures
        r == width * height,
{
    assert(width * height <= 0xFFFF * 0xFFFF) by (nonlinear_arith)
        requires
            width <= 0xFFFF,
            height <= 0xFFFF,
    ;
    (width as u32) * (height as u32)
}

} // verus!
