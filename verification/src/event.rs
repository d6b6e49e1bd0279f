use vstd::prelude::*;
use crate::fix::GpsFix;
use crate::types::{GpsEvent, SentenceKind};

verus! {

/// Sentences that carry a position fix.
pub open spec fn carries_fix(kind: SentenceKind) -> bool {
    kind is Gga || kind is Rmc
}

/// The event for a parsed sentence, given the fix the parser holds after it.
pub open spec fn sentence_event_spec(kind: SentenceKind, fix: Option<GpsFix>) -> GpsEvent {
    if carries_fix(kind) && fix is Some {
        GpsEvent::Fix(fix.unwrap())
    } else {
        GpsEvent::Sentence(kind)
    }
}

/// The event a completed sentence line emits, given what the NMEA parser
/// made of it (`None` if it refused the sentence) and the fix the parser
/// holds afterwards: a refused sentence emits nothing, a GGA or RMC sentence
/// after which the parser holds a fix emits that fix, and every other
/// sentence emits its kind.
pub fn sentence_event(parsed: Option<SentenceKind>, fix: Option<GpsFix>) -> (ev: Option<GpsEvent>)
    ensures
        ev == (match parsed {
            Some(kind) => Some(sentence_event_spec(kind, fix)),
            None => None,
        }),
{
    match parsed {
        None => None,
        Some(kind) => match (kind, fix) {
            (SentenceKind::Gga, Some(f)) | (SentenceKind::Rmc, Some(f)) => Some(GpsEvent::Fix(f)),
            _ => Some(GpsEvent::Sentence(kind)),
        },
    }
}

/// A fix event comes only from a GGA or RMC sentence, and such a sentence
/// emits a fix whenever the parser holds one.
pub proof fn lemma_fix_only_from_position_sentences(kind: SentenceKind, fix: Option<GpsFix>)
    ensures
        (sentence_event_spec(kind, fix) is Fix) <==> (carries_fix(kind) && fix is Some),
        sentence_event_spec(kind, fix) matches GpsEvent::Fix(f) ==> fix == Some(f),
        sentence_event_spec(kind, fix) matches GpsEvent::Sentence(k) ==> k == kind,
{
}

} // verus!
