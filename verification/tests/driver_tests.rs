use embassy_gps::driver::{
    after_flush, after_read, CommandWrite, DriverCore, FlushOutcome, ParsedLine, ReadOutcome, ReadStep, WriteOutcome,
    WriteStep,
};
use embassy_gps::fsm::{ActionOutcome, FsmAction, GpsMachine};
use embassy_gps::types::{GpsError, GpsEvent, GpsState, SentenceKind};

fn sentence(kind: SentenceKind) -> ParsedLine {
    ParsedLine { kind: Some(kind), fix: None }
}

fn refused() -> ParsedLine {
    ParsedLine { kind: None, fix: None }
}

#[test]
fn empty_read_is_retried() {
    assert!(matches!(after_read::<u8>(ReadOutcome::Received(0)), ReadStep::ReadAgain));
}

#[test]
fn received_bytes_are_decoded() {
    assert!(matches!(after_read::<u8>(ReadOutcome::Received(17)), ReadStep::Decode(17)));
}

#[test]
fn read_failures_are_errors() {
    assert!(matches!(after_read::<u8>(ReadOutcome::Failed(3)), ReadStep::Fail(GpsError::IO(3))));
    assert!(matches!(after_read::<u8>(ReadOutcome::TimedOut), ReadStep::Fail(GpsError::Timeout)));
}

#[test]
fn command_written_in_parts_then_flushed() {
    let mut w = CommandWrite::new(10);
    assert_eq!(w.next(), WriteStep::WriteFrom(0));
    assert!(w.on_write::<u8>(WriteOutcome::Accepted(4)).is_ok());
    assert_eq!(w.next(), WriteStep::WriteFrom(4));
    assert!(w.on_write::<u8>(WriteOutcome::Accepted(6)).is_ok());
    assert_eq!(w.written_bytes(), 10);
    assert_eq!(w.next(), WriteStep::Flush);
}

#[test]
fn empty_command_is_only_flushed() {
    let w = CommandWrite::new(0);
    assert_eq!(w.next(), WriteStep::Flush);
}

#[test]
fn stalled_or_failed_write_is_an_error() {
    let mut w = CommandWrite::new(5);
    assert!(matches!(w.on_write::<u8>(WriteOutcome::Accepted(0)), Err(GpsError::Timeout)));
    assert!(matches!(w.on_write::<u8>(WriteOutcome::TimedOut), Err(GpsError::Timeout)));
    assert!(matches!(w.on_write::<u8>(WriteOutcome::Failed(9)), Err(GpsError::IO(9))));
    assert_eq!(w.written_bytes(), 0);
    assert_eq!(w.next(), WriteStep::WriteFrom(0));
}

#[test]
fn flush_outcomes() {
    assert!(after_flush::<u8>(FlushOutcome::Done).is_ok());
    assert!(matches!(after_flush::<u8>(FlushOutcome::Failed(2)), Err(GpsError::IO(2))));
    assert!(matches!(after_flush::<u8>(FlushOutcome::TimedOut), Err(GpsError::Timeout)));
}

#[test]
fn prepare_clears_line_and_keeps_events() {
    let mut core = DriverCore::new();
    core.line.push_byte(b'x');
    assert!(core.pending.push(GpsEvent::BytesDetected));
    core.prepare();
    assert_eq!(core.line.len(), 0);
    assert_eq!(core.pending.len(), 1);
}

#[test]
fn finish_read_hands_out_first_event_and_queues_the_rest() {
    let mut core = DriverCore::new();
    core.line.push_byte(b'$');
    let parsed = vec![sentence(SentenceKind::Gsv), refused(), sentence(SentenceKind::Vtg), sentence(SentenceKind::Txt)];
    let r = core.finish_read::<()>(&parsed, false).unwrap();
    assert_eq!(r, Some(GpsEvent::Sentence(SentenceKind::Gsv)));
    assert_eq!(core.pending.pop(), Some(GpsEvent::Sentence(SentenceKind::Vtg)));
    assert_eq!(core.pending.pop(), Some(GpsEvent::Sentence(SentenceKind::Txt)));
    assert_eq!(core.pending.pop(), None);
    assert_eq!(core.line.len(), 1);
}

#[test]
fn finish_read_without_events_reads_again() {
    let mut core = DriverCore::new();
    let r = core.finish_read::<()>(&vec![refused()], false).unwrap();
    assert_eq!(r, None);
    assert_eq!(core.finish_read::<()>(&Vec::new(), false).unwrap(), None);
}

#[test]
fn finish_read_utf8_error_keeps_earlier_events_queued() {
    let mut core = DriverCore::new();
    let r = core.finish_read::<()>(&vec![sentence(SentenceKind::Gll)], true);
    assert!(matches!(r, Err(GpsError::Utf8)));
    assert_eq!(core.pending.pop(), Some(GpsEvent::Sentence(SentenceKind::Gll)));
}

#[test]
fn finish_read_drops_events_beyond_capacity() {
    let mut core = DriverCore::new();
    let mut parsed = Vec::new();
    for _ in 0..8 {
        parsed.push(sentence(SentenceKind::Gsa));
    }
    parsed.push(sentence(SentenceKind::Rmc));
    let r = core.finish_read::<()>(&parsed, false).unwrap();
    assert_eq!(r, Some(GpsEvent::Sentence(SentenceKind::Gsa)));
    let mut rest = Vec::new();
    while let Some(ev) = core.pending.pop() {
        rest.push(ev);
    }
    assert_eq!(rest, vec![GpsEvent::Sentence(SentenceKind::Gsa); 7]);
}

#[test]
fn machine_starts_by_setting_up() {
    let m = GpsMachine::new();
    assert_eq!(m.state, GpsState::SetupConnection);
    assert_eq!(m.action(), FsmAction::PrepareAndConfigure);
}

#[test]
fn machine_step_follows_the_table() {
    let mut m = GpsMachine::new();
    let r: Result<Option<u8>, ()> = m.step(ActionOutcome::Configured(Ok(())));
    assert_eq!(r, Ok(None));
    assert_eq!(m.state, GpsState::Running);
    let r: Result<Option<u8>, ()> = m.step(ActionOutcome::Read(Ok(7)));
    assert_eq!(r, Ok(Some(7)));
    let r: Result<Option<u8>, ()> = m.step(ActionOutcome::Read(Err(())));
    assert_eq!(r, Err(()));
    assert_eq!(m.state, GpsState::Recover);
}

#[test]
fn command_leaves_machine_state_alone() {
    let mut m = GpsMachine::new();
    let mut progress = CommandWrite::new(4);
    assert!(m.command_write::<()>(&mut progress, WriteOutcome::Accepted(4)).is_ok());
    assert_eq!(progress.next(), WriteStep::Flush);
    assert!(m.command_flush::<()>(FlushOutcome::Done).is_ok());
    assert_eq!(m.state, GpsState::SetupConnection);
    let r = m.command_write::<u8>(&mut progress, WriteOutcome::Failed(3));
    assert!(matches!(r, Err(GpsError::IO(3))));
    assert!(matches!(m.command_flush::<u8>(FlushOutcome::TimedOut), Err(GpsError::Timeout)));
    assert_eq!(m.state, GpsState::SetupConnection);
}
