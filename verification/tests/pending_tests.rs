use embassy_gps::pending::{PendingEvents, PENDING_CAPACITY};
use embassy_gps::types::{GpsEvent, SentenceKind};

fn ev(i: usize) -> GpsEvent {
    let kinds = [
        SentenceKind::Vtg, SentenceKind::Gga, SentenceKind::Gsv, SentenceKind::Rmc,
        SentenceKind::Gns, SentenceKind::Gsa, SentenceKind::Gll, SentenceKind::Txt,
    ];
    GpsEvent::Sentence(kinds[i % 8])
}

#[test]
fn empty_queue_gives_nothing() {
    let mut q = PendingEvents::new();
    assert_eq!(q.len(), 0);
    assert_eq!(q.pop(), None);
}

#[test]
fn events_leave_in_order() {
    let mut q = PendingEvents::new();
    for i in 0..PENDING_CAPACITY {
        assert!(q.push(ev(i)));
    }
    assert_eq!(q.len(), 8);
    for i in 0..PENDING_CAPACITY {
        assert_eq!(q.pop(), Some(ev(i)));
    }
    assert_eq!(q.pop(), None);
}

#[test]
fn full_queue_drops_new_events() {
    let mut q = PendingEvents::new();
    for i in 0..8 {
        assert!(q.push(ev(i)));
    }
    assert!(!q.push(GpsEvent::BytesDetected));
    assert_eq!(q.len(), 8);
    for i in 0..8 {
        assert_eq!(q.pop(), Some(ev(i)));
    }
    assert_eq!(q.pop(), None);
}

#[test]
fn push_after_pop_reuses_space() {
    let mut q = PendingEvents::new();
    for i in 0..8 {
        q.push(ev(i));
    }
    assert_eq!(q.pop(), Some(ev(0)));
    assert!(q.push(GpsEvent::BytesDetected));
    for i in 1..8 {
        assert_eq!(q.pop(), Some(ev(i)));
    }
    assert_eq!(q.pop(), Some(GpsEvent::BytesDetected));
}
