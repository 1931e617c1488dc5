use memview::memory::{loop_next, Examine, LoopEvent, LoopPhase, ReadError};
use memview::process_info::ProcessInfo;

// a process identifier far above any real pid_max, so no such process exists
const NO_SUCH_PID: i32 = 0x7ffffff0;

fn gone_target() -> ProcessInfo {
    ProcessInfo { pid: NO_SUCH_PID, comm: String::from("ghost"), maps: vec![] }
}

#[test]
fn new_and_set_timeout() {
    let mut examine = Examine::new(1000);
    assert_eq!(examine.timeout(), 1000);
    examine.set_timeout(250);
    assert_eq!(examine.timeout(), 250);
}

#[test]
fn read_of_vanished_process_is_process_gone() {
    let examine = Examine::new(1000);
    let r = examine.examine_bytes(&gone_target(), 0x1000, 5);
    assert_eq!(r, Err(ReadError::ProcessGone));
}

#[test]
fn zero_rows_reads_nothing_and_renders_header_only() {
    // with no rows past the header nothing is read, so even a vanished
    // process yields a header that reports zero bytes
    let examine = Examine::new(1000);
    for rows in [0u16, 1] {
        let r = examine.examine_bytes(&gone_target(), 0x1000, rows);
        assert_eq!(
            r,
            Ok(String::from(
                "0x1000 in ghost(2147483632), 1000ms timeout. Press 'Enter' to quit... Read 0 bytes.\n"
            ))
        );
    }
}

#[test]
fn new_timeout_shows_in_next_cycle() {
    let mut examine = Examine::new(1000);
    examine.set_timeout(250);
    let text = examine.examine_bytes(&gone_target(), 0x1000, 1).unwrap();
    assert!(text.contains("250ms timeout"), "unexpected header: {text}");
}

#[test]
fn read_error_messages() {
    assert_eq!(ReadError::ProcessGone.to_text(), "Process no longer exists or refused the read");
    assert_eq!(ReadError::IoFault.to_text(), "Failed to read process memory");
}

#[test]
fn display_then_wait() {
    assert_eq!(loop_next(LoopPhase::Displaying, LoopEvent::DisplayOk), LoopPhase::AwaitingInput);
}

#[test]
fn failed_display_ends_session() {
    assert_eq!(loop_next(LoopPhase::Displaying, LoopEvent::DisplayFailed), LoopPhase::Ended);
}

#[test]
fn timeout_refreshes_and_input_stops() {
    // no input within the timeout: the loop performs another read/render
    // cycle; input during the wait: the session ends with no further read
    let after_wait = loop_next(LoopPhase::Displaying, LoopEvent::DisplayOk);
    assert_eq!(loop_next(after_wait, LoopEvent::WaitTimedOut), LoopPhase::Displaying);
    assert_eq!(loop_next(after_wait, LoopEvent::InputArrived), LoopPhase::Ended);
}

#[test]
fn failed_wait_ends_session() {
    assert_eq!(loop_next(LoopPhase::AwaitingInput, LoopEvent::WaitFailed), LoopPhase::Ended);
}

#[test]
fn ended_stays_ended() {
    assert_eq!(loop_next(LoopPhase::Ended, LoopEvent::WaitTimedOut), LoopPhase::Ended);
    assert_eq!(loop_next(LoopPhase::Ended, LoopEvent::DisplayOk), LoopPhase::Ended);
}
