//! Verified core of a GPS driver for the Quectel L76K module: the
//! recovery-oriented state machine, NMEA line framing, sentence-to-event
//! decisions, the pending-event queue and fix time arithmetic.
pub mod types;
pub mod fsm;
pub mod clock;
pub mod fix;
pub mod line;
pub mod event;
pub mod pending;
pub mod driver;
pub mod pcas;
