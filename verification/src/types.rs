use vstd::prelude::*;
use crate::fix::GpsFix;

verus! {

/// The kinds of NMEA sentence that the parser accepts and merges into its
/// state: every other kind is refused.
#[derive(Clone, Copy, Debug, PartialEq, Eq, Structural)]
pub enum SentenceKind {
    Vtg,
    Gga,
    Gsv,
    Rmc,
    Gns,
    Gsa,
    Gll,
    Txt,
}

/// Events emitted by the driver/FSM pipeline.
#[derive(Clone, Copy, Debug, PartialEq, Eq, Structural)]
pub enum GpsEvent {
    BytesDetected,
    Sentence(SentenceKind),
    Fix(GpsFix),
}

/// Internal states used by the recovery-oriented state machine.
#[derive(Clone, Copy, Debug, PartialEq, Eq, Structural)]
pub enum GpsState {
    Reset,
    SetupConnection,
    Running,
    Recover,
}

/// Unified error type for GPS IO, parsing, and setup.
#[derive(Debug)]
pub enum GpsError<IO> {
    IO(IO),
    Utf8,
    NotReady,
    BaudNotDetected,
    Timeout,
    BuildCommand,
}

} // verus!
