//! The machine code an EL0 agent runs, assembled from the instruction words
//! of [`crate::a64`].
//!
//! Each encoder states its program as the list of instruction words it
//! emits, little-endian, in order.
use vstd::prelude::*;
use crate::a64;
use crate::a64::{b_rel_word, b_self_word, cbnz_x_word, ldr_w_imm_word, ldrb_w_word, movk_x_lsl16_word, movk_x_lsl32_word, movk_x_lsl48_word, movz_x_lsl16_word, movz_x_word, str_x_imm_word, str_xzr_word, sub_x_imm_word, svc_word, tbnz_w_word};
use crate::blob::{TAG_GET, TAG_PUT};
use crate::net::{PacketToken, TAG_RX_RETURN, TAG_TX_SUBMIT, pack_spec, packed_token};
use crate::syscall::{SYS_EXIT, SYS_RECV, SYS_RECV_TIMEOUT, SYS_RESOLVE, SYS_SEND, SYS_TRANSFER, SYS_TRY_RECV, SYS_WAIT_IRQ};
use crate::wire::{le32_bytes, write_le32};

verus! {

/// Message tag for one console byte.
pub const CONSOLE_TAG_BYTE: u16 = 0;

/// Little-endian `u64` of the product name `console`.
pub const CONSOLE_NAME_LE: u64 = 0x0065_6C6F_736E_6F63;

/// Length of the product name `console`.
pub const CONSOLE_NAME_LEN: u16 = 7;

/// The wire field of the blob key `cfg`.
pub const BLOB_KEY_CFG: u64 = 0x0300_0000_0067_6663;

/// The wire field of the blob payload `persist`.
pub const BLOB_PAYLOAD_PERSIST: u64 = 0x0774_7369_7372_6570;

/// The bytes of a program: each word little-endian, in order.
pub open spec fn program(ws: Seq<u32>) -> Seq<u8>
    decreases ws.len(),
{
    if ws.len() == 0 {
        Seq::empty()
    } else {
        program(ws.drop_last()) + le32_bytes(ws.last())
    }
}

proof fn lemma_program_len(ws: Seq<u32>)
    ensures
        program(ws).len() == 4 * ws.len(),
    decreases ws.len(),
{
    if ws.len() > 0 {
        lemma_program_len(ws.drop_last());
    }
}

/// Write the program of `words` at the front of `out`.
fn fill_words(out: &mut [u8], words: &[u32])
    requires
        4 * words@.len() <= old(out)@.len(),
    ensures
        final(out)@ == program(words@) + old(out)@.subrange(4 * words@.len() as int, old(out)@.len() as int),
{
    let ghost o = out@;
    let total = out.len();
    let mut i: usize = 0;
    proof {
        assert(words@.take(0) =~= Seq::<u32>::empty());
        assert(out@ =~= program(words@.take(0)) + o.subrange(0, o.len() as int));
    }
    while i < words.len()
        invariant
            4 * words@.len() <= o.len(),
            total == o.len(),
            out@.len() == o.len(),
            i <= words@.len(),
            out@ == program(words@.take(i as int)) + o.subrange(4 * i, o.len() as int),
        decreases words@.len() - i,
    {
        proof {
            lemma_program_len(words@.take(i as int));
        }
        let ghost before = out@;
        write_le32(out, 4 * i, words[i]);
        proof {
            assert(words@.take(i + 1).drop_last() =~= words@.take(i as int));
            assert(program(words@.take(i + 1)) == program(words@.take(i as int)) + le32_bytes(words@[i as int]));
            lemma_program_len(words@.take(i + 1));
            assert(out@ =~= program(words@.take(i + 1)) + o.subrange(4 * (i + 1), o.len() as int));
        }
        i = i + 1;
    }
    assert(words@.take(words@.len() as int) =~= words@);
}

/// The words of [`encode_send_exit`].
pub open spec fn encode_send_exit_words(slot: u16, tag: u16, a: u16) -> Seq<u32> {
    seq![movz_x_word(0, slot), movz_x_word(1, tag), movz_x_word(2, a), svc_word(SYS_SEND), svc_word(SYS_EXIT), b_self_word()]
}

/// Send one message through a slot, then exit:
/// `movz x0,#slot; movz x1,#tag; movz x2,#a; svc #3; svc #1; b .`
pub fn encode_send_exit(slot: u16, tag: u16, a: u16) -> (out: [u8; 24])
    ensures
        out@ == program(encode_send_exit_words(slot, tag, a)),
{
    let words: [u32; 6] = [
        a64::movz_x(0, slot),
        a64::movz_x(1, tag),
        a64::movz_x(2, a),
        a64::svc(SYS_SEND),
        a64::svc(SYS_EXIT),
        a64::b_self(),
    ];
    let mut out: [u8; 24] = [0u8; 24];
    assert(words@ =~= encode_send_exit_words(slot, tag, a));
    fill_words(&mut out, &words);
    
    out
}

/// The words of [`encode_recv_console_exit`].
pub open spec fn encode_recv_console_exit_words(recv_slot: u16, console_slot: u16) -> Seq<u32> {
    seq![movz_x_word(0, recv_slot), svc_word(SYS_RECV), movz_x_word(1, CONSOLE_TAG_BYTE), movz_x_word(0, console_slot), svc_word(SYS_SEND), svc_word(SYS_EXIT), b_self_word()]
}

/// Receive through a slot, then send the payload byte (already in `x2`) to
/// the console.
pub fn encode_recv_console_exit(recv_slot: u16, console_slot: u16) -> (out: [u8; 28])
    ensures
        out@ == program(encode_recv_console_exit_words(recv_slot, console_slot)),
{
    let words: [u32; 7] = [
        a64::movz_x(0, recv_slot),
        a64::svc(SYS_RECV),
        a64::movz_x(1, CONSOLE_TAG_BYTE),
        a64::movz_x(0, console_slot),
        a64::svc(SYS_SEND),
        a64::svc(SYS_EXIT),
        a64::b_self(),
    ];
    let mut out: [u8; 28] = [0u8; 28];
    assert(words@ =~= encode_recv_console_exit_words(recv_slot, console_slot));
    fill_words(&mut out, &words);
    
    out
}

/// The words of [`encode_console_once_exit`].
pub open spec fn encode_console_once_exit_words(slot: u16, byte: u8) -> Seq<u32> {
    seq![movz_x_word(0, slot), movz_x_word(1, CONSOLE_TAG_BYTE), movz_x_word(2, byte as u16), svc_word(SYS_SEND), svc_word(SYS_EXIT), b_self_word()]
}

/// One console byte through a slot, then exit.
pub fn encode_console_once_exit(slot: u16, byte: u8) -> (out: [u8; 24])
    ensures
        out@ == program(encode_console_once_exit_words(slot, byte)),
{
    let words: [u32; 6] = [
        a64::movz_x(0, slot),
        a64::movz_x(1, CONSOLE_TAG_BYTE),
        a64::movz_x(2, byte as u16),
        a64::svc(SYS_SEND),
        a64::svc(SYS_EXIT),
        a64::b_self(),
    ];
    let mut out: [u8; 24] = [0u8; 24];
    assert(words@ =~= encode_console_once_exit_words(slot, byte));
    fill_words(&mut out, &words);
    
    out
}

/// The words of [`encode_send_bare_exit`].
pub open spec fn encode_send_bare_exit_words(slot: u16) -> Seq<u32> {
    seq![movz_x_word(0, slot), svc_word(SYS_SEND), svc_word(SYS_EXIT), b_self_word()]
}

/// Send through a slot with no payload loaded, then exit.
pub fn encode_send_bare_exit(slot: u16) -> (out: [u8; 16])
    ensures
        out@ == program(encode_send_bare_exit_words(slot)),
{
    let words: [u32; 4] = [
        a64::movz_x(0, slot),
        a64::svc(SYS_SEND),
        a64::svc(SYS_EXIT),
        a64::b_self(),
    ];
    let mut out: [u8; 16] = [0u8; 16];
    assert(words@ =~= encode_send_bare_exit_words(slot));
    fill_words(&mut out, &words);
    
    out
}

/// The words of [`encode_net_tx_rx_exit`].
pub open spec fn encode_net_tx_rx_exit_words(pool_va: u64, tx_slot: u16, complete_slot: u16, rx_slot: u16, rx_return_slot: u16) -> Seq<u32> {
    seq![movz_x_word(0, (pool_va & 0xffff) as u16), movk_x_lsl16_word(0, ((pool_va >> 16u64) & 0xffff) as u16), movk_x_lsl32_word(0, ((pool_va >> 32u64) & 0xffff) as u16), movk_x_lsl48_word(0, ((pool_va >> 48u64) & 0xffff) as u16), movz_x_word(1, (0x1122_3344_5566_7788u64 & 0xffff) as u16), movk_x_lsl16_word(1, ((0x1122_3344_5566_7788u64 >> 16u64) & 0xffff) as u16), movk_x_lsl32_word(1, ((0x1122_3344_5566_7788u64 >> 32u64) & 0xffff) as u16), movk_x_lsl48_word(1, ((0x1122_3344_5566_7788u64 >> 48u64) & 0xffff) as u16), str_x_imm_word(1, 0, 0), movz_x_word(1, (0x99AA_BBCC_DDEE_FF00u64 & 0xffff) as u16), movk_x_lsl16_word(1, ((0x99AA_BBCC_DDEE_FF00u64 >> 16u64) & 0xffff) as u16), movk_x_lsl32_word(1, ((0x99AA_BBCC_DDEE_FF00u64 >> 32u64) & 0xffff) as u16), movk_x_lsl48_word(1, ((0x99AA_BBCC_DDEE_FF00u64 >> 48u64) & 0xffff) as u16), str_x_imm_word(1, 0, 8), movz_x_word(0, tx_slot), movz_x_word(1, (TAG_TX_SUBMIT as u16)), movz_x_word(2, ((pack_spec(PacketToken { slot: 1, generation: 0, len: 16 })) & 0xffff) as u16), movk_x_lsl16_word(2, (((pack_spec(PacketToken { slot: 1, generation: 0, len: 16 })) >> 16u64) & 0xffff) as u16), movk_x_lsl32_word(2, (((pack_spec(PacketToken { slot: 1, generation: 0, len: 16 })) >> 32u64) & 0xffff) as u16), movk_x_lsl48_word(2, (((pack_spec(PacketToken { slot: 1, generation: 0, len: 16 })) >> 48u64) & 0xffff) as u16), svc_word(SYS_SEND), movz_x_word(0, complete_slot), svc_word(SYS_RECV), movz_x_word(0, rx_slot), svc_word(SYS_RECV), movz_x_word(0, rx_return_slot), movz_x_word(1, (TAG_RX_RETURN as u16)), svc_word(SYS_SEND), svc_word(SYS_EXIT), b_self_word()]
}

/// Write one packet-pool slot, submit it, await completion, receive one
/// token and return it, then exit. The pool address is board-owned.
pub fn encode_net_tx_rx_exit(pool_va: u64, tx_slot: u16, complete_slot: u16, rx_slot: u16, rx_return_slot: u16) -> (out: [u8; 120])
    ensures
        out@ == program(encode_net_tx_rx_exit_words(pool_va, tx_slot, complete_slot, rx_slot, rx_return_slot)),
{
    let token = packed_token(PacketToken { slot: 1, generation: 0, len: 16 });
    let words: [u32; 30] = [
        a64::movz_x(0, (pool_va & 0xffff) as u16),
        a64::movk_x_lsl16(0, ((pool_va >> 16u64) & 0xffff) as u16),
        a64::movk_x_lsl32(0, ((pool_va >> 32u64) & 0xffff) as u16),
        a64::movk_x_lsl48(0, ((pool_va >> 48u64) & 0xffff) as u16),
        a64::movz_x(1, (0x1122_3344_5566_7788u64 & 0xffff) as u16),
        a64::movk_x_lsl16(1, ((0x1122_3344_5566_7788u64 >> 16u64) & 0xffff) as u16),
        a64::movk_x_lsl32(1, ((0x1122_3344_5566_7788u64 >> 32u64) & 0xffff) as u16),
        a64::movk_x_lsl48(1, ((0x1122_3344_5566_7788u64 >> 48u64) & 0xffff) as u16),
        a64::str_x_imm(1, 0, 0),
        a64::movz_x(1, (0x99AA_BBCC_DDEE_FF00u64 & 0xffff) as u16),
        a64::movk_x_lsl16(1, ((0x99AA_BBCC_DDEE_FF00u64 >> 16u64) & 0xffff) as u16),
        a64::movk_x_lsl32(1, ((0x99AA_BBCC_DDEE_FF00u64 >> 32u64) & 0xffff) as u16),
        a64::movk_x_lsl48(1, ((0x99AA_BBCC_DDEE_FF00u64 >> 48u64) & 0xffff) as u16),
        a64::str_x_imm(1, 0, 8),
        a64::movz_x(0, tx_slot),
        a64::movz_x(1, (TAG_TX_SUBMIT as u16)),
        a64::movz_x(2, (token & 0xffff) as u16),
        a64::movk_x_lsl16(2, ((token >> 16u64) & 0xffff) as u16),
        a64::movk_x_lsl32(2, ((token >> 32u64) & 0xffff) as u16),
        a64::movk_x_lsl48(2, ((token >> 48u64) & 0xffff) as u16),
        a64::svc(SYS_SEND),
        a64::movz_x(0, complete_slot),
        a64::svc(SYS_RECV),
        a64::movz_x(0, rx_slot),
        a64::svc(SYS_RECV),
        a64::movz_x(0, rx_return_slot),
        a64::movz_x(1, (TAG_RX_RETURN as u16)),
        a64::svc(SYS_SEND),
        a64::svc(SYS_EXIT),
        a64::b_self(),
    ];
    let mut out: [u8; 120] = [0u8; 120];
    assert(words@ =~= encode_net_tx_rx_exit_words(pool_va, tx_slot, complete_slot, rx_slot, rx_return_slot));
    fill_words(&mut out, &words);
    
    out
}

/// The words of [`encode_net_tx_exit`].
pub open spec fn encode_net_tx_exit_words(pool_va: u64, tx_slot: u16, complete_slot: u16) -> Seq<u32> {
    seq![movz_x_word(0, (pool_va & 0xffff) as u16), movk_x_lsl16_word(0, ((pool_va >> 16u64) & 0xffff) as u16), movk_x_lsl32_word(0, ((pool_va >> 32u64) & 0xffff) as u16), movk_x_lsl48_word(0, ((pool_va >> 48u64) & 0xffff) as u16), movz_x_word(1, (0x1122_3344_5566_7788u64 & 0xffff) as u16), movk_x_lsl16_word(1, ((0x1122_3344_5566_7788u64 >> 16u64) & 0xffff) as u16), movk_x_lsl32_word(1, ((0x1122_3344_5566_7788u64 >> 32u64) & 0xffff) as u16), movk_x_lsl48_word(1, ((0x1122_3344_5566_7788u64 >> 48u64) & 0xffff) as u16), str_x_imm_word(1, 0, 0), movz_x_word(1, (0x99AA_BBCC_DDEE_FF00u64 & 0xffff) as u16), movk_x_lsl16_word(1, ((0x99AA_BBCC_DDEE_FF00u64 >> 16u64) & 0xffff) as u16), movk_x_lsl32_word(1, ((0x99AA_BBCC_DDEE_FF00u64 >> 32u64) & 0xffff) as u16), movk_x_lsl48_word(1, ((0x99AA_BBCC_DDEE_FF00u64 >> 48u64) & 0xffff) as u16), str_x_imm_word(1, 0, 8), movz_x_word(0, tx_slot), movz_x_word(1, (TAG_TX_SUBMIT as u16)), movz_x_word(2, ((pack_spec(PacketToken { slot: 1, generation: 0, len: 16 })) & 0xffff) as u16), movk_x_lsl16_word(2, (((pack_spec(PacketToken { slot: 1, generation: 0, len: 16 })) >> 16u64) & 0xffff) as u16), movk_x_lsl32_word(2, (((pack_spec(PacketToken { slot: 1, generation: 0, len: 16 })) >> 32u64) & 0xffff) as u16), movk_x_lsl48_word(2, (((pack_spec(PacketToken { slot: 1, generation: 0, len: 16 })) >> 48u64) & 0xffff) as u16), svc_word(SYS_SEND), movz_x_word(0, complete_slot), svc_word(SYS_RECV), svc_word(SYS_EXIT), b_self_word()]
}

/// The transmit half of [`encode_net_tx_rx_exit`] alone.
pub fn encode_net_tx_exit(pool_va: u64, tx_slot: u16, complete_slot: u16) -> (out: [u8; 100])
    ensures
        out@ == program(encode_net_tx_exit_words(pool_va, tx_slot, complete_slot)),
{
    let token = packed_token(PacketToken { slot: 1, generation: 0, len: 16 });
    let words: [u32; 25] = [
        a64::movz_x(0, (pool_va & 0xffff) as u16),
        a64::movk_x_lsl16(0, ((pool_va >> 16u64) & 0xffff) as u16),
        a64::movk_x_lsl32(0, ((pool_va >> 32u64) & 0xffff) as u16),
        a64::movk_x_lsl48(0, ((pool_va >> 48u64) & 0xffff) as u16),
        a64::movz_x(1, (0x1122_3344_5566_7788u64 & 0xffff) as u16),
        a64::movk_x_lsl16(1, ((0x1122_3344_5566_7788u64 >> 16u64) & 0xffff) as u16),
        a64::movk_x_lsl32(1, ((0x1122_3344_5566_7788u64 >> 32u64) & 0xffff) as u16),
        a64::movk_x_lsl48(1, ((0x1122_3344_5566_7788u64 >> 48u64) & 0xffff) as u16),
        a64::str_x_imm(1, 0, 0),
        a64::movz_x(1, (0x99AA_BBCC_DDEE_FF00u64 & 0xffff) as u16),
        a64::movk_x_lsl16(1, ((0x99AA_BBCC_DDEE_FF00u64 >> 16u64) & 0xffff) as u16),
        a64::movk_x_lsl32(1, ((0x99AA_BBCC_DDEE_FF00u64 >> 32u64) & 0xffff) as u16),
        a64::movk_x_lsl48(1, ((0x99AA_BBCC_DDEE_FF00u64 >> 48u64) & 0xffff) as u16),
        a64::str_x_imm(1, 0, 8),
        a64::movz_x(0, tx_slot),
        a64::movz_x(1, (TAG_TX_SUBMIT as u16)),
        a64::movz_x(2, (token & 0xffff) as u16),
        a64::movk_x_lsl16(2, ((token >> 16u64) & 0xffff) as u16),
        a64::movk_x_lsl32(2, ((token >> 32u64) & 0xffff) as u16),
        a64::movk_x_lsl48(2, ((token >> 48u64) & 0xffff) as u16),
        a64::svc(SYS_SEND),
        a64::movz_x(0, complete_slot),
        a64::svc(SYS_RECV),
        a64::svc(SYS_EXIT),
        a64::b_self(),
    ];
    let mut out: [u8; 100] = [0u8; 100];
    assert(words@ =~= encode_net_tx_exit_words(pool_va, tx_slot, complete_slot));
    fill_words(&mut out, &words);
    
    out
}

/// The words of [`encode_try_recv_exit`].
pub open spec fn encode_try_recv_exit_words(slot: u16) -> Seq<u32> {
    seq![movz_x_word(0, slot), svc_word(SYS_TRY_RECV), svc_word(SYS_EXIT), b_self_word()]
}

/// Try to receive without waiting, then exit.
pub fn encode_try_recv_exit(slot: u16) -> (out: [u8; 16])
    ensures
        out@ == program(encode_try_recv_exit_words(slot)),
{
    let words: [u32; 4] = [
        a64::movz_x(0, slot),
        a64::svc(SYS_TRY_RECV),
        a64::svc(SYS_EXIT),
        a64::b_self(),
    ];
    let mut out: [u8; 16] = [0u8; 16];
    assert(words@ =~= encode_try_recv_exit_words(slot));
    fill_words(&mut out, &words);
    
    out
}

/// The words of [`encode_wait_irq_exit`].
pub open spec fn encode_wait_irq_exit_words(slot: u16) -> Seq<u32> {
    seq![movz_x_word(0, slot), svc_word(SYS_WAIT_IRQ), svc_word(SYS_EXIT), b_self_word()]
}

/// Wait on an IRQ notification, then exit.
pub fn encode_wait_irq_exit(slot: u16) -> (out: [u8; 16])
    ensures
        out@ == program(encode_wait_irq_exit_words(slot)),
{
    let words: [u32; 4] = [
        a64::movz_x(0, slot),
        a64::svc(SYS_WAIT_IRQ),
        a64::svc(SYS_EXIT),
        a64::b_self(),
    ];
    let mut out: [u8; 16] = [0u8; 16];
    assert(words@ =~= encode_wait_irq_exit_words(slot));
    fill_words(&mut out, &words);
    
    out
}

/// The words of [`encode_blob_round_trip_exit`].
pub open spec fn encode_blob_round_trip_exit_words(request_slot: u16, reply_slot: u16, console_slot: u16) -> Seq<u32> {
    seq![movz_x_word(0, request_slot), movz_x_word(1, (TAG_PUT as u16)), movz_x_word(2, (BLOB_KEY_CFG & 0xffff) as u16), movk_x_lsl16_word(2, ((BLOB_KEY_CFG >> 16u64) & 0xffff) as u16), movk_x_lsl32_word(2, ((BLOB_KEY_CFG >> 32u64) & 0xffff) as u16), movk_x_lsl48_word(2, ((BLOB_KEY_CFG >> 48u64) & 0xffff) as u16), movz_x_word(3, (BLOB_PAYLOAD_PERSIST & 0xffff) as u16), movk_x_lsl16_word(3, ((BLOB_PAYLOAD_PERSIST >> 16u64) & 0xffff) as u16), movk_x_lsl32_word(3, ((BLOB_PAYLOAD_PERSIST >> 32u64) & 0xffff) as u16), movk_x_lsl48_word(3, ((BLOB_PAYLOAD_PERSIST >> 48u64) & 0xffff) as u16), svc_word(SYS_SEND), movz_x_word(0, request_slot), movz_x_word(1, (TAG_GET as u16)), movz_x_word(2, (BLOB_KEY_CFG & 0xffff) as u16), movk_x_lsl16_word(2, ((BLOB_KEY_CFG >> 16u64) & 0xffff) as u16), movk_x_lsl32_word(2, ((BLOB_KEY_CFG >> 32u64) & 0xffff) as u16), movk_x_lsl48_word(2, ((BLOB_KEY_CFG >> 48u64) & 0xffff) as u16), movz_x_word(3, 0), svc_word(SYS_SEND), movz_x_word(0, reply_slot), svc_word(SYS_RECV), movz_x_word(0, console_slot), movz_x_word(1, CONSOLE_TAG_BYTE), movz_x_word(2, 0x53), svc_word(SYS_SEND), svc_word(SYS_EXIT), b_self_word()]
}

/// Put a blob, get it back, await the reply, report one console byte, exit.
pub fn encode_blob_round_trip_exit(request_slot: u16, reply_slot: u16, console_slot: u16) -> (out: [u8; 112])
    ensures
        out@ == program(encode_blob_round_trip_exit_words(request_slot, reply_slot, console_slot)) + seq![0u8, 0u8, 0u8, 0u8],
{
    let words: [u32; 27] = [
        a64::movz_x(0, request_slot),
        a64::movz_x(1, (TAG_PUT as u16)),
        a64::movz_x(2, (BLOB_KEY_CFG & 0xffff) as u16),
        a64::movk_x_lsl16(2, ((BLOB_KEY_CFG >> 16u64) & 0xffff) as u16),
        a64::movk_x_lsl32(2, ((BLOB_KEY_CFG >> 32u64) & 0xffff) as u16),
        a64::movk_x_lsl48(2, ((BLOB_KEY_CFG >> 48u64) & 0xffff) as u16),
        a64::movz_x(3, (BLOB_PAYLOAD_PERSIST & 0xffff) as u16),
        a64::movk_x_lsl16(3, ((BLOB_PAYLOAD_PERSIST >> 16u64) & 0xffff) as u16),
        a64::movk_x_lsl32(3, ((BLOB_PAYLOAD_PERSIST >> 32u64) & 0xffff) as u16),
        a64::movk_x_lsl48(3, ((BLOB_PAYLOAD_PERSIST >> 48u64) & 0xffff) as u16),
        a64::svc(SYS_SEND),
        a64::movz_x(0, request_slot),
        a64::movz_x(1, (TAG_GET as u16)),
        a64::movz_x(2, (BLOB_KEY_CFG & 0xffff) as u16),
        a64::movk_x_lsl16(2, ((BLOB_KEY_CFG >> 16u64) & 0xffff) as u16),
        a64::movk_x_lsl32(2, ((BLOB_KEY_CFG >> 32u64) & 0xffff) as u16),
        a64::movk_x_lsl48(2, ((BLOB_KEY_CFG >> 48u64) & 0xffff) as u16),
        a64::movz_x(3, 0),
        a64::svc(SYS_SEND),
        a64::movz_x(0, reply_slot),
        a64::svc(SYS_RECV),
        a64::movz_x(0, console_slot),
        a64::movz_x(1, CONSOLE_TAG_BYTE),
        a64::movz_x(2, 0x53),
        a64::svc(SYS_SEND),
        a64::svc(SYS_EXIT),
        a64::b_self(),
    ];
    let mut out: [u8; 112] = [0u8; 112];
    assert(words@ =~= encode_blob_round_trip_exit_words(request_slot, reply_slot, console_slot));
    fill_words(&mut out, &words);
    assert(out@ =~= program(encode_blob_round_trip_exit_words(request_slot, reply_slot, console_slot)) + seq![0u8, 0u8, 0u8, 0u8]);
    out
}

/// The words of [`encode_resolve_send_exit`].
pub open spec fn encode_resolve_send_exit_words(slot: u16, byte: u8) -> Seq<u32> {
    seq![movz_x_word(0, slot), movz_x_word(1, CONSOLE_NAME_LEN), movz_x_word(2, (CONSOLE_NAME_LE & 0xffff) as u16), movk_x_lsl16_word(2, ((CONSOLE_NAME_LE >> 16u64) & 0xffff) as u16), movk_x_lsl32_word(2, ((CONSOLE_NAME_LE >> 32u64) & 0xffff) as u16), movk_x_lsl48_word(2, ((CONSOLE_NAME_LE >> 48u64) & 0xffff) as u16), svc_word(SYS_RESOLVE), movz_x_word(0, slot), movz_x_word(1, CONSOLE_TAG_BYTE), movz_x_word(2, byte as u16), svc_word(SYS_SEND), svc_word(SYS_EXIT), b_self_word()]
}

/// Resolve the console by name into a slot, then send one byte through it.
pub fn encode_resolve_send_exit(slot: u16, byte: u8) -> (out: [u8; 52])
    ensures
        out@ == program(encode_resolve_send_exit_words(slot, byte)),
{
    let words: [u32; 13] = [
        a64::movz_x(0, slot),
        a64::movz_x(1, CONSOLE_NAME_LEN),
        a64::movz_x(2, (CONSOLE_NAME_LE & 0xffff) as u16),
        a64::movk_x_lsl16(2, ((CONSOLE_NAME_LE >> 16u64) & 0xffff) as u16),
        a64::movk_x_lsl32(2, ((CONSOLE_NAME_LE >> 32u64) & 0xffff) as u16),
        a64::movk_x_lsl48(2, ((CONSOLE_NAME_LE >> 48u64) & 0xffff) as u16),
        a64::svc(SYS_RESOLVE),
        a64::movz_x(0, slot),
        a64::movz_x(1, CONSOLE_TAG_BYTE),
        a64::movz_x(2, byte as u16),
        a64::svc(SYS_SEND),
        a64::svc(SYS_EXIT),
        a64::b_self(),
    ];
    let mut out: [u8; 52] = [0u8; 52];
    assert(words@ =~= encode_resolve_send_exit_words(slot, byte));
    fill_words(&mut out, &words);
    
    out
}

/// The words of [`encode_resolve_exit`].
pub open spec fn encode_resolve_exit_words(slot: u16, name_len: u16, name_le: u16) -> Seq<u32> {
    seq![movz_x_word(0, slot), movz_x_word(1, name_len), movz_x_word(2, name_le), svc_word(SYS_RESOLVE), svc_word(SYS_EXIT), b_self_word()]
}

/// Resolve a short name into a slot, then exit.
pub fn encode_resolve_exit(slot: u16, name_len: u16, name_le: u16) -> (out: [u8; 24])
    ensures
        out@ == program(encode_resolve_exit_words(slot, name_len, name_le)),
{
    let words: [u32; 6] = [
        a64::movz_x(0, slot),
        a64::movz_x(1, name_len),
        a64::movz_x(2, name_le),
        a64::svc(SYS_RESOLVE),
        a64::svc(SYS_EXIT),
        a64::b_self(),
    ];
    let mut out: [u8; 24] = [0u8; 24];
    assert(words@ =~= encode_resolve_exit_words(slot, name_len, name_le));
    fill_words(&mut out, &words);
    
    out
}

/// The words of [`encode_transfer_exit`].
pub open spec fn encode_transfer_exit_words(from: u16, to_slot: u16, dest: u16) -> Seq<u32> {
    seq![movz_x_word(0, from), movz_x_word(1, to_slot), movz_x_word(2, dest), svc_word(SYS_TRANSFER), svc_word(SYS_EXIT), b_self_word()]
}

/// Transfer a capability, then exit.
pub fn encode_transfer_exit(from: u16, to_slot: u16, dest: u16) -> (out: [u8; 24])
    ensures
        out@ == program(encode_transfer_exit_words(from, to_slot, dest)),
{
    let words: [u32; 6] = [
        a64::movz_x(0, from),
        a64::movz_x(1, to_slot),
        a64::movz_x(2, dest),
        a64::svc(SYS_TRANSFER),
        a64::svc(SYS_EXIT),
        a64::b_self(),
    ];
    let mut out: [u8; 24] = [0u8; 24];
    assert(words@ =~= encode_transfer_exit_words(from, to_slot, dest));
    fill_words(&mut out, &words);
    
    out
}

/// The words of [`encode_transfer_peer_exit`].
pub open spec fn encode_transfer_peer_exit_words(from: u16, to_slot: u16, peer_cap_slot: u16) -> Seq<u32> {
    seq![movz_x_word(0, from), movz_x_word(1, to_slot), movz_x_word(2, 2), movz_x_word(3, peer_cap_slot), svc_word(SYS_TRANSFER), svc_word(SYS_EXIT), b_self_word()]
}

/// Transfer a capability to the peer named by a task-cap slot, then exit.
pub fn encode_transfer_peer_exit(from: u16, to_slot: u16, peer_cap_slot: u16) -> (out: [u8; 28])
    ensures
        out@ == program(encode_transfer_peer_exit_words(from, to_slot, peer_cap_slot)),
{
    let words: [u32; 7] = [
        a64::movz_x(0, from),
        a64::movz_x(1, to_slot),
        a64::movz_x(2, 2),
        a64::movz_x(3, peer_cap_slot),
        a64::svc(SYS_TRANSFER),
        a64::svc(SYS_EXIT),
        a64::b_self(),
    ];
    let mut out: [u8; 28] = [0u8; 28];
    assert(words@ =~= encode_transfer_peer_exit_words(from, to_slot, peer_cap_slot));
    fill_words(&mut out, &words);
    
    out
}

/// The words of [`encode_recv_timeout_exit`].
pub open spec fn encode_recv_timeout_exit_words(slot: u16, timeout_ticks: u16) -> Seq<u32> {
    seq![movz_x_word(0, slot), movz_x_word(1, timeout_ticks), svc_word(SYS_RECV_TIMEOUT), svc_word(SYS_EXIT), b_self_word()]
}

/// Receive with a timeout, then exit.
pub fn encode_recv_timeout_exit(slot: u16, timeout_ticks: u16) -> (out: [u8; 20])
    ensures
        out@ == program(encode_recv_timeout_exit_words(slot, timeout_ticks)),
{
    let words: [u32; 5] = [
        a64::movz_x(0, slot),
        a64::movz_x(1, timeout_ticks),
        a64::svc(SYS_RECV_TIMEOUT),
        a64::svc(SYS_EXIT),
        a64::b_self(),
    ];
    let mut out: [u8; 20] = [0u8; 20];
    assert(words@ =~= encode_recv_timeout_exit_words(slot, timeout_ticks));
    fill_words(&mut out, &words);
    
    out
}

/// The words of [`encode_fault_exit`].
pub open spec fn encode_fault_exit_words() -> Seq<u32> {
    seq![movz_x_lsl16_word(0, 0x8), str_xzr_word(0), svc_word(SYS_EXIT), b_self_word()]
}

/// Store to a kernel address the agent does not map (a data abort), then exit.
pub fn encode_fault_exit() -> (out: [u8; 16])
    ensures
        out@ == program(encode_fault_exit_words()),
{
    let words: [u32; 4] = [
        a64::movz_x_lsl16(0, 0x8),
        a64::str_xzr(0),
        a64::svc(SYS_EXIT),
        a64::b_self(),
    ];
    let mut out: [u8; 16] = [0u8; 16];
    assert(words@ =~= encode_fault_exit_words());
    fill_words(&mut out, &words);
    
    out
}

/// The words of [`encode_svc_imm`].
pub open spec fn encode_svc_imm_words(imm: u16) -> Seq<u32> {
    seq![svc_word(imm), b_self_word()]
}

/// One `svc #imm`, then spin.
pub fn encode_svc_imm(imm: u16) -> (out: [u8; 8])
    ensures
        out@ == program(encode_svc_imm_words(imm)),
{
    let words: [u32; 2] = [
        a64::svc(imm),
        a64::b_self(),
    ];
    let mut out: [u8; 8] = [0u8; 8];
    assert(words@ =~= encode_svc_imm_words(imm));
    fill_words(&mut out, &words);
    
    out
}

/// The words of [`encode_ping_ping_exit`].
pub open spec fn encode_ping_ping_exit_words() -> Seq<u32> {
    seq![svc_word(0), svc_word(0), svc_word(1), b_self_word()]
}

/// Two pings, then exit.
pub fn encode_ping_ping_exit() -> (out: [u8; 16])
    ensures
        out@ == program(encode_ping_ping_exit_words()),
{
    let words: [u32; 4] = [
        a64::svc(0),
        a64::svc(0),
        a64::svc(1),
        a64::b_self(),
    ];
    let mut out: [u8; 16] = [0u8; 16];
    assert(words@ =~= encode_ping_ping_exit_words());
    fill_words(&mut out, &words);
    
    out
}

/// The words of [`encode_console_hi_exit`].
pub open spec fn encode_console_hi_exit_words(slot: u16) -> Seq<u32> {
    seq![movz_x_word(0, slot), movz_x_word(1, CONSOLE_TAG_BYTE), movz_x_word(2, 0x48), svc_word(SYS_SEND), movz_x_word(0, slot), movz_x_word(1, CONSOLE_TAG_BYTE), movz_x_word(2, 0x21), svc_word(SYS_SEND), svc_word(SYS_EXIT), b_self_word()]
}

/// Send `H` then `!` to the console through a slot, then exit.
pub fn encode_console_hi_exit(slot: u16) -> (out: [u8; 40])
    ensures
        out@ == program(encode_console_hi_exit_words(slot)),
{
    let words: [u32; 10] = [
        a64::movz_x(0, slot),
        a64::movz_x(1, CONSOLE_TAG_BYTE),
        a64::movz_x(2, 0x48),
        a64::svc(SYS_SEND),
        a64::movz_x(0, slot),
        a64::movz_x(1, CONSOLE_TAG_BYTE),
        a64::movz_x(2, 0x21),
        a64::svc(SYS_SEND),
        a64::svc(SYS_EXIT),
        a64::b_self(),
    ];
    let mut out: [u8; 40] = [0u8; 40];
    assert(words@ =~= encode_console_hi_exit_words(slot));
    fill_words(&mut out, &words);
    
    out
}

/// The words of [`encode_spin_exit`].
pub open spec fn encode_spin_exit_words(iters: u16) -> Seq<u32> {
    seq![movz_x_word(0, iters), sub_x_imm_word(0, 0, 1), cbnz_x_word(0, -1i32), svc_word(1), b_self_word()]
}

/// Count `iters` down to zero, then exit.
pub fn encode_spin_exit(iters: u16) -> (out: [u8; 20])
    ensures
        out@ == program(encode_spin_exit_words(iters)),
{
    let words: [u32; 5] = [
        a64::movz_x(0, iters),
        a64::sub_x_imm(0, 0, 1),
        a64::cbnz_x(0, -1),
        a64::svc(1),
        a64::b_self(),
    ];
    let mut out: [u8; 20] = [0u8; 20];
    assert(words@ =~= encode_spin_exit_words(iters));
    fill_words(&mut out, &words);
    
    out
}

/// The words of [`encode_spin_flag_exit`].
pub open spec fn encode_spin_flag_exit_words(base_va_hi16: u16, stop_off: u16) -> Seq<u32> {
    seq![movz_x_lsl16_word(0, base_va_hi16), ldr_w_imm_word(1, 0, stop_off), cbnz_x_word(1, 2), b_rel_word(-2i32), svc_word(1), b_self_word()]
}

/// Spin until the stop word at `base + stop_off` is non-zero, then exit.
pub fn encode_spin_flag_exit(base_va_hi16: u16, stop_off: u16) -> (out: [u8; 24])
    ensures
        out@ == program(encode_spin_flag_exit_words(base_va_hi16, stop_off)),
{
    let words: [u32; 6] = [
        a64::movz_x_lsl16(0, base_va_hi16),
        a64::ldr_w_imm(1, 0, stop_off),
        a64::cbnz_x(1, 2),
        a64::b_rel(-2),
        a64::svc(1),
        a64::b_self(),
    ];
    let mut out: [u8; 24] = [0u8; 24];
    assert(words@ =~= encode_spin_flag_exit_words(base_va_hi16, stop_off));
    fill_words(&mut out, &words);
    
    out
}

/// The words of [`encode_pl011_rx_poll_exit`].
pub open spec fn encode_pl011_rx_poll_exit_words(console_slot: u16) -> Seq<u32> {
    seq![movz_x_lsl16_word(0, 0x5000), ldr_w_imm_word(1, 0, 0x18), tbnz_w_word(1, 4, 5), ldrb_w_word(2, 0), movz_x_word(0, console_slot), movz_x_word(1, CONSOLE_TAG_BYTE), svc_word(SYS_SEND), svc_word(SYS_EXIT), b_self_word()]
}

/// Poll the UART once: when the receive FIFO is not empty, send its byte to
/// the console; either way exit. The `tbnz` skips the four-instruction send
/// path.
pub fn encode_pl011_rx_poll_exit(console_slot: u16) -> (out: [u8; 36])
    ensures
        out@ == program(encode_pl011_rx_poll_exit_words(console_slot)),
{
    let words: [u32; 9] = [
        a64::movz_x_lsl16(0, 0x5000),
        a64::ldr_w_imm(1, 0, 0x18),
        a64::tbnz_w(1, 4, 5),
        a64::ldrb_w(2, 0),
        a64::movz_x(0, console_slot),
        a64::movz_x(1, CONSOLE_TAG_BYTE),
        a64::svc(SYS_SEND),
        a64::svc(SYS_EXIT),
        a64::b_self(),
    ];
    let mut out: [u8; 36] = [0u8; 36];
    assert(words@ =~= encode_pl011_rx_poll_exit_words(console_slot));
    fill_words(&mut out, &words);
    
    out
}

/// The words of [`encode_read_device_bit_console_exit`].
pub open spec fn encode_read_device_bit_console_exit_words(va_hi16: u16, reg_off: u16, bit: u8, console_slot: u16, set_byte: u8, clear_byte: u8) -> Seq<u32> {
    seq![movz_x_lsl16_word(0, va_hi16), ldr_w_imm_word(1, 0, reg_off), tbnz_w_word(1, bit, 3), movz_x_word(2, clear_byte as u16), b_rel_word(2), movz_x_word(2, set_byte as u16), movz_x_word(0, console_slot), movz_x_word(1, CONSOLE_TAG_BYTE), svc_word(SYS_SEND), svc_word(SYS_EXIT), b_self_word()]
}

/// Read one device register and send `set_byte` or `clear_byte` to the
/// console depending on one of its bits, then exit.
pub fn encode_read_device_bit_console_exit(va_hi16: u16, reg_off: u16, bit: u8, console_slot: u16, set_byte: u8, clear_byte: u8) -> (out: [u8; 44])
    ensures
        out@ == program(encode_read_device_bit_console_exit_words(va_hi16, reg_off, bit, console_slot, set_byte, clear_byte)),
{
    let words: [u32; 11] = [
        a64::movz_x_lsl16(0, va_hi16),
        a64::ldr_w_imm(1, 0, reg_off),
        a64::tbnz_w(1, bit, 3),
        a64::movz_x(2, clear_byte as u16),
        a64::b_rel(2),
        a64::movz_x(2, set_byte as u16),
        a64::movz_x(0, console_slot),
        a64::movz_x(1, CONSOLE_TAG_BYTE),
        a64::svc(SYS_SEND),
        a64::svc(SYS_EXIT),
        a64::b_self(),
    ];
    let mut out: [u8; 44] = [0u8; 44];
    assert(words@ =~= encode_read_device_bit_console_exit_words(va_hi16, reg_off, bit, console_slot, set_byte, clear_byte));
    fill_words(&mut out, &words);
    
    out
}
} // verus!
