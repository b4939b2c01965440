//! AArch64 user-text instruction words (little-endian host encoding helpers).
//!
//! Pure bit patterns for smoke programs and agent payloads, so the kernel does
//! not invent SVC/branch encodings by hand in multiple places.
use vstd::prelude::*;

verus! {

/// Register field: the low five bits of a register number.
pub open spec fn reg(r: u8) -> u32 {
    (r as u32) & 0x1F
}

/// The word `svc` encodes.
pub open spec fn svc_word(imm: u16) -> u32 {
    0xD400_0001u32 | ((imm as u32) << 5u32)
}

/// `svc #imm` (A64).
pub fn svc(imm: u16) -> (w: u32)
    ensures
        w == svc_word(imm),
{
    0xD400_0001u32 | ((imm as u32) << 5u32)
}

/// The word `movz_x` encodes.
pub open spec fn movz_x_word(rd: u8, imm16: u16) -> u32 {
    0xD280_0000u32 | ((imm16 as u32) << 5u32) | reg(rd)
}

/// `movz xd, #imm16` (LSL #0).
pub fn movz_x(rd: u8, imm16: u16) -> (w: u32)
    ensures
        w == movz_x_word(rd, imm16),
{
    0xD280_0000u32 | ((imm16 as u32) << 5u32) | (rd as u32 & 0x1F)
}

/// The word `movz_x_lsl16` encodes.
pub open spec fn movz_x_lsl16_word(rd: u8, imm16: u16) -> u32 {
    0xD2A0_0000u32 | ((imm16 as u32) << 5u32) | reg(rd)
}

/// `movz xd, #imm16, lsl #16`.
pub fn movz_x_lsl16(rd: u8, imm16: u16) -> (w: u32)
    ensures
        w == movz_x_lsl16_word(rd, imm16),
{
    0xD2A0_0000u32 | ((imm16 as u32) << 5u32) | (rd as u32 & 0x1F)
}

/// The word `movk_x_lsl16` encodes.
pub open spec fn movk_x_lsl16_word(rd: u8, imm16: u16) -> u32 {
    0xF2A0_0000u32 | ((imm16 as u32) << 5u32) | reg(rd)
}

/// `movk xd, #imm16, lsl #16`.
pub fn movk_x_lsl16(rd: u8, imm16: u16) -> (w: u32)
    ensures
        w == movk_x_lsl16_word(rd, imm16),
{
    0xF2A0_0000u32 | ((imm16 as u32) << 5u32) | (rd as u32 & 0x1F)
}

/// The word `movk_x_lsl32` encodes.
pub open spec fn movk_x_lsl32_word(rd: u8, imm16: u16) -> u32 {
    0xF2C0_0000u32 | ((imm16 as u32) << 5u32) | reg(rd)
}

/// `movk xd, #imm16, lsl #32`.
pub fn movk_x_lsl32(rd: u8, imm16: u16) -> (w: u32)
    ensures
        w == movk_x_lsl32_word(rd, imm16),
{
    0xF2C0_0000u32 | ((imm16 as u32) << 5u32) | (rd as u32 & 0x1F)
}

/// The word `movk_x_lsl48` encodes.
pub open spec fn movk_x_lsl48_word(rd: u8, imm16: u16) -> u32 {
    0xF2E0_0000u32 | ((imm16 as u32) << 5u32) | reg(rd)
}

/// `movk xd, #imm16, lsl #48`.
pub fn movk_x_lsl48(rd: u8, imm16: u16) -> (w: u32)
    ensures
        w == movk_x_lsl48_word(rd, imm16),
{
    0xF2E0_0000u32 | ((imm16 as u32) << 5u32) | (rd as u32 & 0x1F)
}

/// The word `mov_x_reg` encodes.
pub open spec fn mov_x_reg_word(rd: u8, rm: u8) -> u32 {
    0xAA00_03E0u32 | (reg(rm) << 16u32) | reg(rd)
}

/// `mov xd, xm` — the register-to-register move, spelled `orr xd, xzr, xm`.
pub fn mov_x_reg(rd: u8, rm: u8) -> (w: u32)
    ensures
        w == mov_x_reg_word(rd, rm),
{
    0xAA00_03E0u32 | ((rm as u32 & 0x1F) << 16u32) | (rd as u32 & 0x1F)
}

/// The word `str_xzr` encodes.
pub open spec fn str_xzr_word(rn: u8) -> u32 {
    0xF900_001Fu32 | (reg(rn) << 5u32)
}

/// `str xzr, [xn]` — store zero through a register, unscaled offset 0.
pub fn str_xzr(rn: u8) -> (w: u32)
    ensures
        w == str_xzr_word(rn),
{
    0xF900_001Fu32 | ((rn as u32 & 0x1F) << 5u32)
}

/// The word `b_self` encodes.
pub open spec fn b_self_word() -> u32 {
    0x1400_0000u32
}

/// `b .` — branch to self.
pub fn b_self() -> (w: u32)
    ensures
        w == b_self_word(),
{
    0x1400_0000u32
}

/// The word `b_rel` encodes.
pub open spec fn b_rel_word(offset_words: i32) -> u32 {
    0x1400_0000u32 | ((offset_words as u32) & 0x03FF_FFFFu32)
}

/// `b label` — unconditional, `offset_words` signed PC-relative word offset.
/// `b_self` is `b_rel(0)`.
pub fn b_rel(offset_words: i32) -> (w: u32)
    ensures
        w == b_rel_word(offset_words),
{
    0x1400_0000u32 | ((offset_words as u32) & 0x03FF_FFFFu32)
}

/// The word `sub_x_imm` encodes.
pub open spec fn sub_x_imm_word(rd: u8, rn: u8, imm12: u16) -> u32 {
    0xD100_0000u32 | (((imm12 as u32) & 0xFFF) << 10u32) | (reg(rn) << 5u32) | reg(rd)
}

/// `sub xd, xn, #imm12` (64-bit, shift 0).
pub fn sub_x_imm(rd: u8, rn: u8, imm12: u16) -> (w: u32)
    ensures
        w == sub_x_imm_word(rd, rn, imm12),
{
    0xD100_0000u32 | ((imm12 as u32 & 0xFFF) << 10u32) | ((rn as u32 & 0x1F) << 5u32) | (rd as u32
        & 0x1F)
}

/// The word `cbnz_x` encodes.
pub open spec fn cbnz_x_word(rt: u8, offset_words: i32) -> u32 {
    0xB500_0000u32 | (((offset_words as u32) & 0x7_FFFFu32) << 5u32) | reg(rt)
}

/// `cbnz xt, label` — `offset_words` is a signed PC-relative word offset.
pub fn cbnz_x(rt: u8, offset_words: i32) -> (w: u32)
    ensures
        w == cbnz_x_word(rt, offset_words),
{
    let imm19: u32 = (offset_words as u32) & 0x7_FFFF;
    0xB500_0000u32 | (imm19 << 5u32) | (rt as u32 & 0x1F)
}

/// The word `ldr_w_imm` encodes.
pub open spec fn ldr_w_imm_word(rt: u8, rn: u8, pimm: u16) -> u32 {
    0xB940_0000u32 | (((pimm as u32) / 4) << 10u32) | (reg(rn) << 5u32) | reg(rt)
}

/// `ldr wt, [xn, #pimm]` — unsigned offset, `pimm` byte offset (multiple of 4).
pub fn ldr_w_imm(rt: u8, rn: u8, pimm: u16) -> (w: u32)
    ensures
        w == ldr_w_imm_word(rt, rn, pimm),
{
    let imm12: u32 = (pimm as u32) / 4;
    0xB940_0000u32 | (imm12 << 10u32) | ((rn as u32 & 0x1F) << 5u32) | (rt as u32 & 0x1F)
}

/// The word `ldrb_w` encodes.
pub open spec fn ldrb_w_word(rt: u8, rn: u8) -> u32 {
    0x3940_0000u32 | (reg(rn) << 5u32) | reg(rt)
}

/// `ldrb wt, [xn]` — zero offset.
pub fn ldrb_w(rt: u8, rn: u8) -> (w: u32)
    ensures
        w == ldrb_w_word(rt, rn),
{
    0x3940_0000u32 | ((rn as u32 & 0x1F) << 5u32) | (rt as u32 & 0x1F)
}

/// The word `tbnz_w` encodes.
pub open spec fn tbnz_w_word(rt: u8, bit: u8, offset_words: i32) -> u32 {
    0x3700_0000u32 | (reg(bit) << 19u32) | (((offset_words as u32) & 0x3FFFu32) << 5u32)
            | reg(rt)
}

/// `tbnz rt, #bit, label` — 32-bit form; `offset_words` signed PC-relative.
pub fn tbnz_w(rt: u8, bit: u8, offset_words: i32) -> (w: u32)
    ensures
        w == tbnz_w_word(rt, bit, offset_words),
{
    let imm14: u32 = (offset_words as u32) & 0x3FFF;
    0x3700_0000u32 | ((bit as u32 & 0x1F) << 19u32) | (imm14 << 5u32) | (rt as u32 & 0x1F)
}

/// The word `str_x_imm` encodes.
pub open spec fn str_x_imm_word(rt: u8, rn: u8, pimm: u16) -> u32 {
    0xF900_0000u32 | (((pimm as u32) / 8) << 10u32) | (reg(rn) << 5u32) | reg(rt)
}

/// `str xt, [xn, #pimm]` — unsigned offset, `pimm` byte offset (multiple of 8).
pub fn str_x_imm(rt: u8, rn: u8, pimm: u16) -> (w: u32)
    ensures
        w == str_x_imm_word(rt, rn, pimm),
{
    let imm12: u32 = (pimm as u32) / 8;
    0xF900_0000u32 | (imm12 << 10u32) | ((rn as u32 & 0x1F) << 5u32) | (rt as u32 & 0x1F)
}

/// The little-endian byte sequence of a 32-bit word.
pub open spec fn le_seq(word: u32) -> Seq<u8> {
    seq![
        (word % 0x100) as u8,
        ((word / 0x100) % 0x100) as u8,
        ((word / 0x1_0000) % 0x100) as u8,
        (word / 0x100_0000) as u8,
    ]
}

/// Little-endian bytes of one A64 word.
pub fn le_bytes(word: u32) -> (b: [u8; 4])
    ensures
        b@ == le_seq(word),
{
    [
        (word % 0x100) as u8,
        ((word / 0x100) % 0x100) as u8,
        ((word / 0x1_0000) % 0x100) as u8,
        (word / 0x100_0000) as u8,
    ]
}


/// `str xt, [xn, #pimm]` stores at `xn + pimm`: for a byte offset that is a
/// multiple of eight and fits the field, the offset field (bits 21:10) times
/// eight gives the offset back, bits 4:0 and 9:5 name `rt` and `rn`, and the
/// opcode bits are those of the 64-bit unsigned-offset store.
pub proof fn lemma_str_x_imm_addresses(rt: u8, rn: u8, pimm: u16)
    requires
        pimm % 8 == 0,
        pimm < 32768,
        rt < 32,
        rn < 32,
    ensures
        ((str_x_imm_word(rt, rn, pimm) >> 10u32) & 0xFFFu32) * 8 == pimm,
        str_x_imm_word(rt, rn, pimm) & 0x1Fu32 == rt,
        (str_x_imm_word(rt, rn, pimm) >> 5u32) & 0x1Fu32 == rn,
        str_x_imm_word(rt, rn, pimm) & 0xFFC0_0000u32 == 0xF900_0000u32,
{
    let w = str_x_imm_word(rt, rn, pimm);
    assert(((w >> 10u32) & 0xFFFu32) * 8 == pimm && w & 0x1Fu32 == rt && (w >> 5u32) & 0x1Fu32 == rn
        && w & 0xFFC0_0000u32 == 0xF900_0000u32) by (bit_vector)
        requires
            w == 0xF900_0000u32 | (((pimm as u32) / 8) << 10u32) | (((rn as u32) & 0x1F) << 5u32) | ((rt as u32) & 0x1F),
            pimm % 8 == 0,
            pimm < 32768,
            rt < 32,
            rn < 32;
}


/// The move-wide and supervisor-call words carry their operands where the
/// architecture reads them: the 16-bit immediate in bits 20:5, the
/// destination in bits 4:0, the shift amount (in units of 16 bits) in bits
/// 22:21, and the opcode above that telling `movz` (keep nothing) from
/// `movk` (keep the other bits).
pub proof fn lemma_move_wide_fields(rd: u8, imm16: u16)
    by (bit_vector)
    requires
        rd < 32,
    ensures
        (movz_x_word(rd, imm16) >> 5u32) & 0xFFFFu32 == imm16 as u32,
        movz_x_word(rd, imm16) & 0x1Fu32 == rd as u32,
        (movz_x_word(rd, imm16) >> 21u32) & 0x3u32 == 0,
        movz_x_word(rd, imm16) >> 23u32 == 0x1A5u32,
        (movz_x_lsl16_word(rd, imm16) >> 5u32) & 0xFFFFu32 == imm16 as u32,
        movz_x_lsl16_word(rd, imm16) & 0x1Fu32 == rd as u32,
        (movz_x_lsl16_word(rd, imm16) >> 21u32) & 0x3u32 == 1,
        movz_x_lsl16_word(rd, imm16) >> 23u32 == 0x1A5u32,
        (movk_x_lsl16_word(rd, imm16) >> 5u32) & 0xFFFFu32 == imm16 as u32,
        movk_x_lsl16_word(rd, imm16) & 0x1Fu32 == rd as u32,
        (movk_x_lsl16_word(rd, imm16) >> 21u32) & 0x3u32 == 1,
        movk_x_lsl16_word(rd, imm16) >> 23u32 == 0x1E5u32,
        (movk_x_lsl32_word(rd, imm16) >> 5u32) & 0xFFFFu32 == imm16 as u32,
        movk_x_lsl32_word(rd, imm16) & 0x1Fu32 == rd as u32,
        (movk_x_lsl32_word(rd, imm16) >> 21u32) & 0x3u32 == 2,
        movk_x_lsl32_word(rd, imm16) >> 23u32 == 0x1E5u32,
        (movk_x_lsl48_word(rd, imm16) >> 5u32) & 0xFFFFu32 == imm16 as u32,
        movk_x_lsl48_word(rd, imm16) & 0x1Fu32 == rd as u32,
        (movk_x_lsl48_word(rd, imm16) >> 21u32) & 0x3u32 == 3,
        movk_x_lsl48_word(rd, imm16) >> 23u32 == 0x1E5u32,
        (svc_word(imm16) >> 5u32) & 0xFFFFu32 == imm16 as u32,
        svc_word(imm16) >> 21u32 == 0x6A0u32,
        svc_word(imm16) & 0x1Fu32 == 1,
{
}

/// The load, store, subtract and move words carry their operands where the
/// architecture reads them: `ldr w` addresses `xn + pimm` (its offset field
/// times four), `sub` subtracts its 12-bit immediate, `mov` copies `xm`
/// (bits 20:16) through the zero register (bits 9:5), and each names its
/// destination or source in bits 4:0 and its base in bits 9:5.
pub proof fn lemma_load_store_fields(rd: u8, rn: u8, rm: u8, pimm: u16, imm12: u16)
    by (bit_vector)
    requires
        rd < 32,
        rn < 32,
        rm < 32,
        pimm % 4 == 0,
        pimm < 16384,
        imm12 < 4096,
    ensures
        ((ldr_w_imm_word(rd, rn, pimm) >> 10u32) & 0xFFFu32) * 4 == pimm as u32,
        (ldr_w_imm_word(rd, rn, pimm) >> 5u32) & 0x1Fu32 == rn as u32,
        ldr_w_imm_word(rd, rn, pimm) & 0x1Fu32 == rd as u32,
        ldr_w_imm_word(rd, rn, pimm) & 0xFFC0_0000u32 == 0xB940_0000u32,
        (sub_x_imm_word(rd, rn, imm12) >> 10u32) & 0xFFFu32 == imm12 as u32,
        (sub_x_imm_word(rd, rn, imm12) >> 5u32) & 0x1Fu32 == rn as u32,
        sub_x_imm_word(rd, rn, imm12) & 0x1Fu32 == rd as u32,
        sub_x_imm_word(rd, rn, imm12) & 0xFFC0_0000u32 == 0xD100_0000u32,
        (mov_x_reg_word(rd, rm) >> 16u32) & 0x1Fu32 == rm as u32,
        (mov_x_reg_word(rd, rm) >> 5u32) & 0x1Fu32 == 0x1F,
        mov_x_reg_word(rd, rm) & 0x1Fu32 == rd as u32,
        (ldrb_w_word(rd, rn) >> 5u32) & 0x1Fu32 == rn as u32,
        ldrb_w_word(rd, rn) & 0x1Fu32 == rd as u32,
        (ldrb_w_word(rd, rn) >> 10u32) & 0xFFFu32 == 0,
        (str_xzr_word(rn) >> 5u32) & 0x1Fu32 == rn as u32,
        str_xzr_word(rn) & 0x1Fu32 == 0x1F,
        (str_xzr_word(rn) >> 10u32) & 0xFFFu32 == 0,
{
}

/// The branch words carry their PC-relative word offset as two's complement
/// in the field the architecture reads: 26 bits for `b`, 19 (bits 23:5) for
/// `cbnz`, 14 (bits 18:5) for `tbnz`, whose tested bit number sits in bits
/// 23:19. An offset that fits its field comes back: a non-negative one as
/// itself, a negative one as itself plus the field's range.
pub proof fn lemma_branch_fields(rt: u8, bit: u8, off: i32)
    by (bit_vector)
    requires
        rt < 32,
        bit < 32,
    ensures
        -0x200_0000i32 <= off < 0x200_0000i32 ==> (b_rel_word(off) & 0x3FF_FFFFu32) as int
            == (if off >= 0 { off as int } else { off + 0x400_0000 }),
        b_rel_word(off) >> 26u32 == 0x5u32,
        b_self_word() == b_rel_word(0),
        -0x4_0000i32 <= off < 0x4_0000i32 ==> ((cbnz_x_word(rt, off) >> 5u32) & 0x7_FFFFu32) as int
            == (if off >= 0 { off as int } else { off + 0x8_0000 }),
        cbnz_x_word(rt, off) & 0x1Fu32 == rt as u32,
        cbnz_x_word(rt, off) >> 24u32 == 0xB5u32,
        -0x2000i32 <= off < 0x2000i32 ==> ((tbnz_w_word(rt, bit, off) >> 5u32) & 0x3FFFu32) as int
            == (if off >= 0 { off as int } else { off + 0x4000 }),
        (tbnz_w_word(rt, bit, off) >> 19u32) & 0x1Fu32 == bit as u32,
        tbnz_w_word(rt, bit, off) & 0x1Fu32 == rt as u32,
        tbnz_w_word(rt, bit, off) >> 24u32 == 0x37u32,
{
}
} // verus!
