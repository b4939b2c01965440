use kernel_core::sdcard::{IF_COND_ARG, InitError, InitState, OCR_BUSY_DONE, OCR_CCS, OP_COND_ATTEMPTS, advance, on_timeout, request};

/// Drive the machine with canned responses, returning the walk.
fn walk(responses: &[(InitState, u32)]) -> Result<InitState, InitError> {
    let mut state = InitState::GoIdle;
    for &(expect, resp0) in responses {
        assert_eq!(state, expect, "walk diverged before {expect:?}");
        assert!(request(state).is_some(), "no command for {state:?}");
        state = advance(state, resp0)?;
    }
    Ok(state)
}

#[test]
fn golden_sdhc_walk() {
    let done = walk(&[
        (InitState::GoIdle, 0),
        (InitState::IfCond, IF_COND_ARG),
        (InitState::OpCondPrefix { attempt: 0 }, 0x0000_0120),
        // First ACMD41: still busy.
        (InitState::OpCond { attempt: 0 }, 0x00FF_8000),
        (InitState::OpCondPrefix { attempt: 1 }, 0x0000_0120),
        // Second: done + CCS.
        (
            InitState::OpCond { attempt: 1 },
            OCR_BUSY_DONE | OCR_CCS | 0x00FF_8000,
        ),
        (InitState::Cid, 0),
        (InitState::Rca, 0xB368_0500),
        (InitState::Select { rca: 0xB368 }, 0x0000_0700),
    ])
    .unwrap();
    assert_eq!(
        done,
        InitState::Done {
            rca: 0xB368,
            high_capacity: true
        }
    );
    assert_eq!(request(done), None);
}

#[test]
fn sdsc_card_is_refused() {
    // Power-up done but CCS clear: standard-capacity card.
    let r = advance(InitState::OpCond { attempt: 0 }, OCR_BUSY_DONE);
    assert_eq!(r, Err(InitError::Unsupported));
}

#[test]
fn cmd8_silence_is_no_response_not_a_capacity_claim() {
    // Empty slot and pre-v2 card are indistinguishable here; the error
    // says exactly that, and nothing about the card that may not exist.
    assert_eq!(on_timeout(InitState::IfCond), InitError::NoResponse);
}

#[test]
fn bad_if_cond_echo_is_refused() {
    assert_eq!(advance(InitState::IfCond, 0x155), Err(InitError::BadIfCond));
}

#[test]
fn op_cond_bound_exhausts() {
    let mut state = InitState::OpCondPrefix { attempt: 0 };
    let mut steps = 0u32;
    loop {
        state = match advance(state, 0x00FF_8000) {
            Ok(s) => s,
            Err(e) => {
                assert_eq!(e, InitError::PowerUpTimeout);
                break;
            }
        };
        steps += 1;
        assert!(steps < 3 * OP_COND_ATTEMPTS, "bound never fired");
    }
}

#[test]
fn rca_is_taken_from_the_response_high_half() {
    assert_eq!(
        advance(InitState::Rca, 0x1234_0500),
        Ok(InitState::Select { rca: 0x1234 })
    );
}

#[test]
fn acmd41_request_strips_checks_and_cmd55_keeps_them() {
    let acmd = request(InitState::OpCond { attempt: 0 }).unwrap();
    assert!(!acmd.checks, "R3 has no CRC and a reserved index");
    let prefix = request(InitState::OpCondPrefix { attempt: 0 }).unwrap();
    assert!(prefix.checks);
}
