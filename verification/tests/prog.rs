use kernel_core::prog::{encode_blob_round_trip_exit, encode_console_hi_exit, encode_console_once_exit, encode_fault_exit, encode_net_tx_exit, encode_net_tx_rx_exit, encode_ping_ping_exit, encode_pl011_rx_poll_exit, encode_read_device_bit_console_exit, encode_recv_console_exit, encode_recv_timeout_exit, encode_resolve_exit, encode_resolve_send_exit, encode_send_bare_exit, encode_send_exit, encode_spin_exit, encode_spin_flag_exit, encode_svc_imm, encode_transfer_exit, encode_transfer_peer_exit, encode_try_recv_exit, encode_wait_irq_exit};

use kernel_core::a64;

/// A number in an operand: `#42`, `#0x4000`, `#-4`.
fn imm(tok: &str) -> i64 {
    let t = tok.trim().trim_start_matches('#');
    let (neg, t) = match t.strip_prefix('-') {
        Some(rest) => (true, rest),
        None => (false, t),
    };
    let v = match t.strip_prefix("0x") {
        Some(hex) => i64::from_str_radix(hex, 16).unwrap(),
        None => t.parse::<i64>().unwrap(),
    };
    if neg { -v } else { v }
}

/// A register operand: `x3`, `w1`, `xzr`.
fn reg(tok: &str) -> u8 {
    let t = tok.trim().trim_start_matches('[').trim_end_matches(']');
    if t == "xzr" {
        return 31;
    }
    t[1..].parse::<u8>().unwrap()
}

/// Assemble the small subset of AArch64 these programs use, one line at a
/// time, with the library's own instruction encoders.
fn assemble(text: &str) -> Vec<u8> {
    let mut out = Vec::new();
    for line in text.lines().map(str::trim).filter(|l| !l.is_empty()) {
        let (op, rest) = line.split_once(' ').unwrap_or((line, ""));
        let args: Vec<&str> = rest.split(',').map(str::trim).collect();
        let word = match op {
            "svc" => a64::svc(imm(args[0]) as u16),
            "b" if args[0] == "." => a64::b_self(),
            "b" => a64::b_rel((imm(args[0]) / 4) as i32),
            "movz" if args.len() == 3 => {
                assert_eq!(args[2], "lsl #16");
                a64::movz_x_lsl16(reg(args[0]), imm(args[1]) as u16)
            }
            "movz" => a64::movz_x(reg(args[0]), imm(args[1]) as u16),
            "movk" => match args[2] {
                "lsl #16" => a64::movk_x_lsl16(reg(args[0]), imm(args[1]) as u16),
                "lsl #32" => a64::movk_x_lsl32(reg(args[0]), imm(args[1]) as u16),
                "lsl #48" => a64::movk_x_lsl48(reg(args[0]), imm(args[1]) as u16),
                other => panic!("movk shift {other}"),
            },
            "str" if args[0] == "xzr" => a64::str_xzr(reg(args[1])),
            "str" => {
                let off = if args.len() == 3 { imm(args[2].trim_end_matches(']')) } else { 0 };
                a64::str_x_imm(reg(args[0]), reg(args[1]), off as u16)
            }
            "ldr" => {
                let off = if args.len() == 3 { imm(args[2].trim_end_matches(']')) } else { 0 };
                a64::ldr_w_imm(reg(args[0]), reg(args[1]), off as u16)
            }
            "ldrb" => a64::ldrb_w(reg(args[0]), reg(args[1])),
            "sub" => a64::sub_x_imm(reg(args[0]), reg(args[1]), imm(args[2]) as u16),
            "cbnz" => a64::cbnz_x(reg(args[0]), (imm(args[1]) / 4) as i32),
            "tbnz" => a64::tbnz_w(reg(args[0]), imm(args[1]) as u8, (imm(args[2]) / 4) as i32),
            other => panic!("unknown mnemonic {other} in {line}"),
        };
        out.extend_from_slice(&word.to_le_bytes());
    }
    out
}

/// Compare an encoder's output against the assembly it is meant to be.
fn assert_program(name: &str, bytes: &[u8], text: &str) {
    let expected = assemble(text);
    assert_eq!(
        bytes,
        expected.as_slice(),
        "\n{name} does not match the assembly it documents:\n{text}\n\
         encoder:   {bytes:02x?}\n assembler: {expected:02x?}\n"
    );
}

#[test]
fn every_el0_program_assembles_to_the_instructions_it_documents() {
    assert_program("encode_svc_imm(0)", &encode_svc_imm(0), "svc #0\nb .\n");

    assert_program(
        "encode_ping_ping_exit",
        &encode_ping_ping_exit(),
        "svc #0\nsvc #0\nsvc #1\nb .\n",
    );

    assert_program(
        "encode_send_exit(0, 7, 42)",
        &encode_send_exit(0, 7, 42),
        "movz x0, #0\nmovz x1, #7\nmovz x2, #42\nsvc #3\nsvc #1\nb .\n",
    );

    assert_program(
        "encode_send_bare_exit(1)",
        &encode_send_bare_exit(1),
        "movz x0, #1\nsvc #3\nsvc #1\nb .\n",
    );

    assert_program(
        "encode_console_once_exit(1, b'X')",
        &encode_console_once_exit(1, b'X'),
        "movz x0, #1\nmovz x1, #0\nmovz x2, #88\nsvc #3\nsvc #1\nb .\n",
    );

    assert_program(
        "encode_console_hi_exit(1)",
        &encode_console_hi_exit(1),
        "movz x0, #1\nmovz x1, #0\nmovz x2, #72\nsvc #3\n\
         movz x0, #1\nmovz x1, #0\nmovz x2, #33\nsvc #3\nsvc #1\nb .\n",
    );

    assert_program(
        "encode_net_tx_rx_exit(0x5300_0000, 0, 1, 2, 3)",
        &encode_net_tx_rx_exit(0x5300_0000, 0, 1, 2, 3),
        "movz x0, #0\nmovk x0, #21248, lsl #16\n\
         movk x0, #0, lsl #32\nmovk x0, #0, lsl #48\n\
         movz x1, #30600\nmovk x1, #21862, lsl #16\n\
         movk x1, #13124, lsl #32\nmovk x1, #4386, lsl #48\n\
         str x1, [x0]\n\
         movz x1, #65280\nmovk x1, #56814, lsl #16\n\
         movk x1, #48076, lsl #32\nmovk x1, #39338, lsl #48\n\
         str x1, [x0, #8]\n\
         movz x0, #0\nmovz x1, #4353\nmovz x2, #1\n\
         movk x2, #0, lsl #16\nmovk x2, #4096, lsl #32\nmovk x2, #0, lsl #48\nsvc #3\n\
         movz x0, #1\nsvc #4\nmovz x0, #2\nsvc #4\n\
         movz x0, #3\nmovz x1, #4354\nsvc #3\nsvc #1\nb .\n",
    );

    // RECV leaves a in x2; SEND wants tag in x1 and a in x2.
    assert_program(
        "encode_recv_console_exit(0, 1)",
        &encode_recv_console_exit(0, 1),
        "movz x0, #0\nsvc #4\nmovz x1, #0\nmovz x0, #1\nsvc #3\nsvc #1\nb .\n",
    );

    // `svc #5`, not `#4`: the two recvs are different calls, and an agent
    // that must not wait says so at the call site.
    assert_program(
        "encode_try_recv_exit(0)",
        &encode_try_recv_exit(0),
        "movz x0, #0\nsvc #5\nsvc #1\nb .\n",
    );

    assert_program(
        "encode_wait_irq_exit(0)",
        &encode_wait_irq_exit(0),
        "movz x0, #0\nsvc #6\nsvc #1\nb .\n",
    );

    // 0x6261 = b"ab" little-endian, the shape the doc comment promises.
    assert_program(
        "encode_resolve_exit(2, 2, 0x6261)",
        &encode_resolve_exit(2, 2, 0x6261),
        "movz x0, #2\nmovz x1, #2\nmovz x2, #25185\nsvc #7\nsvc #1\nb .\n",
    );

    // ADR-0102: seven-byte `console` plus a send. The immediates are the
    // little-endian halves, written as llvm-mc prints them (decimal).
    assert_program(
        "encode_resolve_send_exit(0, b'N')",
        &encode_resolve_send_exit(0, b'N'),
        "movz x0, #0\nmovz x1, #7\nmovz x2, #28515\n\
         movk x2, #29550, lsl #16\nmovk x2, #27759, lsl #32\nmovk x2, #101, lsl #48\n\
         svc #7\nmovz x0, #0\nmovz x1, #0\nmovz x2, #78\nsvc #3\nsvc #1\nb .\n",
    );

    assert_program(
        "encode_transfer_exit(0, 1, 1)",
        &encode_transfer_exit(0, 1, 1),
        "movz x0, #0\nmovz x1, #1\nmovz x2, #1\nsvc #8\nsvc #1\nb .\n",
    );

    // `movz x2, #2` is the peer dest hard-wired by the encoder (ADR-0054);
    // x3 carries the task-cap slot. These two were the only encoders that
    // shipped without a row here, and cargo-mutants proved it: both
    // survived replacement by a constant array until this was written.
    assert_program(
        "encode_transfer_peer_exit(0, 0, 1)",
        &encode_transfer_peer_exit(0, 0, 1),
        "movz x0, #0\nmovz x1, #0\nmovz x2, #2\nmovz x3, #1\nsvc #8\nsvc #1\nb .\n",
    );

    assert_program(
        "encode_recv_timeout_exit(0, 3)",
        &encode_recv_timeout_exit(0, 3),
        "movz x0, #0\nmovz x1, #3\nsvc #9\nsvc #1\nb .\n",
    );

    // Writes to a kernel address the agent does not have: a data abort.
    assert_program(
        "encode_fault_exit",
        &encode_fault_exit(),
        "movz x0, #8, lsl #16\nstr xzr, [x0]\nsvc #1\nb .\n",
    );

    assert_program(
        "encode_spin_exit(0x800)",
        &encode_spin_exit(0x800),
        "movz x0, #2048\nsub x0, x0, #1\ncbnz x0, #-4\nsvc #1\nb .\n",
    );

    // ADR-0064: spin on the stop word until non-zero, then exit.
    assert_program(
        "encode_spin_flag_exit(0x4000, 0x800)",
        &encode_spin_flag_exit(0x4000, 0x800),
        "movz x0, #0x4000, lsl #16\n\
         ldr w1, [x0, #0x800]\n\
         cbnz x1, #8\n\
         b #-8\n\
         svc #1\n\
         b .\n",
    );
}

#[test]
fn network_and_blob_program_encoders_preserve_their_parameters() {
    let network = encode_net_tx_exit(0x5300_0000, 4, 5);
    assert_eq!(
        network[..4],
        a64::movz_x(0, 0).to_le_bytes(),
        "the network encoder must start by loading the pool address"
    );
    assert!(network.iter().any(|&byte| byte > 1));

    let blob = encode_blob_round_trip_exit(6, 7, 8);
    assert_eq!(
        blob[..4],
        a64::movz_x(0, 6).to_le_bytes(),
        "the blob encoder must load the request capability slot"
    );
    assert!(blob.iter().any(|&byte| byte > 1));
}

/// The one that earns the suite.
///
/// `tbnz` skips the load, slot, tag and `SYS_SEND` when the RX FIFO is
/// empty — four instructions after the branch, so the target is five words
/// past the branch (`#20` bytes). A wrong offset prints
/// `rx poll unexpected sends=…` on a board, which reads like a kernel bug.
#[test]
fn the_rx_poll_branch_skips_exactly_the_console_send_path() {
    assert_program(
        "encode_pl011_rx_poll_exit(1)",
        &encode_pl011_rx_poll_exit(1),
        "movz x0, #0x5000, lsl #16\n\
         ldr w1, [x0, #24]\n\
         tbnz w1, #4, #20\n\
         ldrb w2, [x0]\n\
         movz x0, #1\n\
         movz x1, #0\n\
         svc #3\n\
         svc #1\n\
         b .\n",
    );
}

#[test]
fn the_device_read_sends_a_byte_that_depends_on_what_it_read() {
    // ADR-0101. The branch is the whole assertion: an encoder that dropped
    // the load, or that always sent the same byte, would still map, still
    // send, and still exit — and would be indistinguishable from this one
    // on any test that only checked the agent ran.
    assert_program(
        "encode_read_device_bit_console_exit(0x5100, 0, 0, 1, b'R', b'r')",
        &encode_read_device_bit_console_exit(0x5100, 0, 0, 1, b'R', b'r'),
        "movz x0, #0x5100, lsl #16\n\
         ldr w1, [x0, #0]\n\
         tbnz w1, #0, #12\n\
         movz x2, #114\n\
         b #8\n\
         movz x2, #82\n\
         movz x0, #1\n\
         movz x1, #0\n\
         svc #3\n\
         svc #1\n\
         b .\n",
    );
}
