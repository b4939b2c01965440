use kernel_core::syscall::{SYS_RECV, SYS_TRY_RECV, Status, Syscall, decode};

#[test]
fn known_imms() {
    assert_eq!(decode(0), Syscall::Ping);
    assert_eq!(decode(1), Syscall::Exit);
    assert_eq!(decode(3), Syscall::Send);
    assert_eq!(decode(4), Syscall::Recv);
    assert_eq!(decode(5), Syscall::TryRecv);
    assert_eq!(decode(6), Syscall::WaitIrq);
    assert_eq!(decode(7), Syscall::Resolve);
}

#[test]
fn former_putc_imm_is_unknown() {
    // M8: imm 2 is unassigned. A stale `svc #2` must not alias SEND.
    assert_eq!(decode(2), Syscall::Unknown { imm: 2 });
}

#[test]
fn the_two_recvs_are_different_calls() {
    // Not a tautology: the pair exists so an agent can *say* whether it may
    // wait, and that only works while the two immediates decode apart. A
    // blocking-only ABI would be one that answered `Recv` to both.
    assert_ne!(decode(SYS_RECV), decode(SYS_TRY_RECV));
}

#[test]
fn unknown_is_refused_not_aliased() {
    // First unused imm after the last known syscall (RESOLVE = 7).
    assert_eq!(decode(8), Syscall::Unknown { imm: 8 });
    assert_eq!(decode(0xffff), Syscall::Unknown { imm: 0xffff });
}

#[test]
fn status_values_are_the_abi_and_are_distinct() {
    // These numbers are read by user code that this kernel does not
    // compile. Renumbering them is an ABI break, not a refactor.
    assert_eq!(Status::Success.as_u64(), 0);
    assert_eq!(Status::Authority.as_u64(), 1);
    assert_eq!(Status::Full.as_u64(), 2);
    assert_eq!(Status::Empty.as_u64(), 3);
    assert_eq!(Status::Busy.as_u64(), 4);
    assert_eq!(Status::Cancelled.as_u64(), 5);
}
