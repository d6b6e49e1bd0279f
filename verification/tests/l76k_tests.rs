use embassy_gps::clock::{FixDate, FixTime};
use embassy_gps::driver::{DriverCore, ParsedLine};
use embassy_gps::fix::GpsFix;
use embassy_gps::types::{GpsError, GpsEvent, SentenceKind};
use chrono::{Datelike, Timelike};
use nmea::{Nmea, SentenceType};

fn kind_of(t: SentenceType) -> Option<SentenceKind> {
    match t {
        SentenceType::VTG => Some(SentenceKind::Vtg),
        SentenceType::GGA => Some(SentenceKind::Gga),
        SentenceType::GSV => Some(SentenceKind::Gsv),
        SentenceType::RMC => Some(SentenceKind::Rmc),
        SentenceType::GNS => Some(SentenceKind::Gns),
        SentenceType::GSA => Some(SentenceKind::Gsa),
        SentenceType::GLL => Some(SentenceKind::Gll),
        SentenceType::TXT => Some(SentenceKind::Txt),
        _ => None,
    }
}

fn fix_from_nmea(nmea: &Nmea) -> Option<GpsFix> {
    let lat = nmea.latitude().map(|v| (v * 1_000_000.0) as i32);
    let lon = nmea.longitude().map(|v| (v * 1_000_000.0) as i32);
    let time = nmea.fix_time.map(|t| FixTime { hour: t.hour(), minute: t.minute(), second: t.second(), nanosecond: t.nanosecond() });
    let date = nmea.fix_date.map(|d| FixDate { year: d.year(), month: d.month(), day: d.day() });
    GpsFix::from(lat, lon, nmea.fix_satellites(), time, date)
}

/// What the parser makes of one sentence line, as the driver hands it on.
fn parse_line(nmea: &mut Nmea, sentence: &str) -> ParsedLine {
    let kind = match nmea.parse(sentence) {
        Ok(kind) => kind_of(kind),
        Err(_) => None,
    };
    let fix = if kind.is_some() { fix_from_nmea(nmea) } else { None };
    ParsedLine { kind, fix }
}

/// Decodes one received chunk the way the driver's read loop does.
fn decode_read(core: &mut DriverCore, nmea: &mut Nmea, bytes: &[u8]) -> Result<Option<GpsEvent>, GpsError<()>> {
    let chunk = core.line.frame_chunk(bytes);
    let parsed: Vec<ParsedLine> = chunk.lines.iter().map(|l| parse_line(nmea, l)).collect();
    core.finish_read(&parsed, chunk.utf8_error)
}

#[test]
fn consume_gga_populates_utc_millis_in_fix() {
    let mut core = DriverCore::new();
    let mut nmea = Nmea::default();
    let sentence = b"$GPGGA,123519.000,4807.038,N,01131.000,E,1,08,0.9,545.4,M,46.9,M,,*59\r\n";

    let mut got_fix = None;
    for byte in sentence {
        if let Some(event) = decode_read(&mut core, &mut nmea, &[*byte]).expect("line parse must succeed") {
            if let GpsEvent::Fix(fix) = event {
                got_fix = Some(fix);
                break;
            }
        }
    }

    let fix = got_fix.expect("must emit fix from GGA");
    assert_eq!(fix.utc_time_ms, Some(45_319_000));
}

#[test]
fn gga_fix_carries_position_and_satellites() {
    let mut core = DriverCore::new();
    let mut nmea = Nmea::default();
    let first = decode_read(
        &mut core,
        &mut nmea,
        b"$GPGGA,123519.000,4807.038,N,01131.000,E,1,08,0.9,545.4,M,46.9,M,,*59\r\n",
    );
    let events = vec![first.unwrap().unwrap()];
    assert_eq!(core.pending.len(), 0);
    match events[0] {
        GpsEvent::Fix(f) => {
            assert_eq!(f.lat_microdeg, 48_117_300);
            assert_eq!(f.lon_microdeg, 11_516_666);
            assert_eq!(f.sats, 8);
            assert_eq!(f.date, None);
        }
        other => panic!("unexpected {:?}", other),
    }
}

#[test]
fn bad_checksum_emits_nothing() {
    let mut core = DriverCore::new();
    let mut nmea = Nmea::default();
    for byte in b"$GPGGA,123519.000,4807.038,N,01131.000,E,1,08,0.9,545.4,M,46.9,M,,*58\r\n" {
        assert_eq!(decode_read(&mut core, &mut nmea, &[*byte]).unwrap(), None);
    }
}

#[test]
fn events_of_one_read_come_out_in_order() {
    let mut core = DriverCore::new();
    let mut nmea = Nmea::default();
    let mut read = Vec::new();
    read.extend_from_slice(b"$GPGGA,123519.000,4807.038,N,01131.000,E,1,08,0.9,545.4,M,46.9,M,,*59\r\n");
    read.extend_from_slice(b"$GPGGA,123519.000,4807.038,N,01131.000,E,1,08,0.9,545.4,M,46.9,M,,*58\r\n");
    read.extend_from_slice(b"$GPVTG,054.7,T,034.4,M,005.5,N,010.2,K*48\r\n");
    let first = decode_read(&mut core, &mut nmea, &read).unwrap();
    assert!(matches!(first, Some(GpsEvent::Fix(_))));
    assert_eq!(core.pending.pop(), Some(GpsEvent::Sentence(SentenceKind::Vtg)));
    assert_eq!(core.pending.pop(), None);
}
