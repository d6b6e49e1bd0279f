use embassy_gps::event::sentence_event;
use embassy_gps::fix::GpsFix;
use embassy_gps::types::{GpsEvent, SentenceKind};

fn some_fix() -> GpsFix {
    GpsFix::from(Some(1), Some(2), Some(3), None, None).unwrap()
}

#[test]
fn refused_sentence_emits_nothing() {
    assert_eq!(sentence_event(None, Some(some_fix())), None);
    assert_eq!(sentence_event(None, None), None);
}

#[test]
fn gga_and_rmc_emit_the_fix() {
    assert_eq!(sentence_event(Some(SentenceKind::Gga), Some(some_fix())), Some(GpsEvent::Fix(some_fix())));
    assert_eq!(sentence_event(Some(SentenceKind::Rmc), Some(some_fix())), Some(GpsEvent::Fix(some_fix())));
}

#[test]
fn position_sentence_without_fix_emits_its_kind() {
    assert_eq!(sentence_event(Some(SentenceKind::Gga), None), Some(GpsEvent::Sentence(SentenceKind::Gga)));
}

#[test]
fn other_sentences_emit_their_kind() {
    assert_eq!(sentence_event(Some(SentenceKind::Gsv), Some(some_fix())), Some(GpsEvent::Sentence(SentenceKind::Gsv)));
    assert_eq!(sentence_event(Some(SentenceKind::Txt), None), Some(GpsEvent::Sentence(SentenceKind::Txt)));
}
