use embassy_gps::fsm::{ActionOutcome, FsmAction};
use embassy_gps::types::GpsState;

type Outcome = ActionOutcome<u32, &'static str>;

#[test]
fn initial_state_sets_up_connection() {
    let s = GpsState::initial();
    assert_eq!(s, GpsState::SetupConnection);
    assert_eq!(s.action(), FsmAction::PrepareAndConfigure);
}

#[test]
fn each_state_asks_for_its_action() {
    assert_eq!(GpsState::Reset.action(), FsmAction::ResetModule);
    assert_eq!(GpsState::SetupConnection.action(), FsmAction::PrepareAndConfigure);
    assert_eq!(GpsState::Running.action(), FsmAction::ReadEvent);
    assert_eq!(GpsState::Recover.action(), FsmAction::Backoff);
}

#[test]
fn successful_setup_starts_running() {
    let mut s = GpsState::SetupConnection;
    let r = s.step(Outcome::Configured(Ok(())));
    assert_eq!(r, Ok(None));
    assert_eq!(s, GpsState::Running);
}

#[test]
fn failed_setup_is_retried() {
    let mut s = GpsState::SetupConnection;
    let r = s.step(Outcome::Configured(Err("build")));
    assert_eq!(r, Err("build"));
    assert_eq!(s, GpsState::SetupConnection);
}

#[test]
fn running_emits_read_events() {
    let mut s = GpsState::Running;
    assert_eq!(s.step(Outcome::Read(Ok(7))), Ok(Some(7)));
    assert_eq!(s, GpsState::Running);
    assert_eq!(s.step(Outcome::Read(Ok(8))), Ok(Some(8)));
    assert_eq!(s, GpsState::Running);
}

#[test]
fn read_error_recovers_automatically() {
    let mut s = GpsState::Running;
    assert_eq!(s.step(Outcome::Read(Err("uart"))), Err("uart"));
    assert_eq!(s, GpsState::Recover);
    assert_eq!(s.action(), FsmAction::Backoff);
    assert_eq!(s.step(Outcome::BackoffDone), Ok(None));
    assert_eq!(s, GpsState::Reset);
    assert_eq!(s.action(), FsmAction::ResetModule);
    assert_eq!(s.step(Outcome::ResetDone), Ok(None));
    assert_eq!(s, GpsState::SetupConnection);
    assert_eq!(s.step(Outcome::Configured(Ok(()))), Ok(None));
    assert_eq!(s, GpsState::Running);
    assert_eq!(s.step(Outcome::Read(Ok(1))), Ok(Some(1)));
}
