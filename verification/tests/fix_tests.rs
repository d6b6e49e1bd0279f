use embassy_gps::clock::{FixDate, FixDateTime, FixTime};
use embassy_gps::fix::GpsFix;

fn t(hour: u32, minute: u32, second: u32, nanosecond: u32) -> FixTime {
    FixTime { hour, minute, second, nanosecond }
}

fn d(year: i32, month: u32, day: u32) -> FixDate {
    FixDate { year, month, day }
}

#[test]
fn no_fix_without_both_coordinates() {
    assert_eq!(GpsFix::from(None, Some(1), Some(3), None, None), None);
    assert_eq!(GpsFix::from(Some(1), None, Some(3), None, None), None);
    assert_eq!(GpsFix::from(None, None, None, None, None), None);
}

#[test]
fn fix_carries_values() {
    let f = GpsFix::from(Some(48_117_300), Some(11_516_666), Some(8), Some(t(12, 35, 19, 0)), None).unwrap();
    assert_eq!(f.lat_microdeg, 48_117_300);
    assert_eq!(f.lon_microdeg, 11_516_666);
    assert_eq!(f.sats, 8);
    assert_eq!(f.time, Some(t(12, 35, 19, 0)));
    assert_eq!(f.date, None);
    assert_eq!(f.utc_time_ms, Some(45_319_000));
}

#[test]
fn missing_satellite_count_is_zero() {
    let f = GpsFix::from(Some(1), Some(2), None, None, None).unwrap();
    assert_eq!(f.sats, 0);
    assert_eq!(f.utc_time_ms, None);
}

#[test]
fn satellite_count_keeps_low_byte() {
    let f = GpsFix::from(Some(1), Some(2), Some(300), None, None).unwrap();
    assert_eq!(f.sats, 44);
}

#[test]
fn utc_millis_of_time() {
    let f = GpsFix::from(Some(1), Some(2), Some(5), Some(t(23, 59, 59, 999_999_999)), None).unwrap();
    assert_eq!(f.get_utc_time_millis(), Some(86_399_999));
    let f = GpsFix::from(Some(1), Some(2), Some(5), Some(t(0, 0, 0, 0)), None).unwrap();
    assert_eq!(f.get_utc_time_millis(), Some(0));
    let f = GpsFix::from(Some(1), Some(2), Some(5), Some(t(23, 59, 59, 1_500_000_000)), None).unwrap();
    assert_eq!(f.get_utc_time_millis(), Some(86_400_500));
}

#[test]
fn timestamp_needs_date_and_time() {
    let f = GpsFix::from(Some(1), Some(2), Some(5), Some(t(1, 2, 3, 0)), None).unwrap();
    assert_eq!(f.get_timestamp(), None);
    assert_eq!(f.get_timestamp_millis(), None);
    let f = GpsFix::from(Some(1), Some(2), Some(5), None, Some(d(2024, 1, 1))).unwrap();
    assert_eq!(f.get_timestamp(), None);
    assert_eq!(f.get_timestamp_millis(), None);
}

#[test]
fn timestamp_combines_date_and_time() {
    let f = GpsFix::from(Some(1), Some(2), Some(5), Some(t(12, 35, 19, 0)), Some(d(1994, 3, 23))).unwrap();
    assert_eq!(f.get_timestamp(), Some(FixDateTime { date: d(1994, 3, 23), time: t(12, 35, 19, 0) }));
}

#[test]
fn timestamp_millis_values() {
    let f = GpsFix::from(Some(1), Some(2), Some(5), Some(t(0, 0, 0, 0)), Some(d(2024, 1, 1))).unwrap();
    assert_eq!(f.get_timestamp_millis(), Some(1_704_067_200_000));
    let f = GpsFix::from(Some(1), Some(2), Some(5), Some(t(12, 35, 19, 250_000_000)), Some(d(1970, 1, 1))).unwrap();
    assert_eq!(f.get_timestamp_millis(), Some(45_319_250));
    let f = GpsFix::from(Some(1), Some(2), Some(5), Some(t(23, 59, 59, 0)), Some(d(1969, 12, 31))).unwrap();
    assert_eq!(f.get_timestamp_millis(), Some(-1_000));
    let f = GpsFix::from(Some(1), Some(2), Some(5), Some(t(0, 0, 0, 0)), Some(d(2000, 2, 29))).unwrap();
    assert_eq!(f.get_timestamp_millis(), Some(951_782_400_000));
}

#[test]
fn time_of_day_helpers() {
    assert_eq!(t(1, 2, 3, 4_000_000).num_seconds_from_midnight(), 3723);
    assert_eq!(t(1, 2, 3, 4_000_000).millis_of_day(), 3_723_004);
    let dt = FixDateTime { date: d(1970, 1, 2), time: t(0, 0, 1, 0) };
    assert_eq!(dt.timestamp_millis(), 86_401_000);
}
