use vstd::prelude::*;
use crate::clock::{
    FixDate, FixDateTime, FixTime, days_since_unix_epoch, millis_of_day_spec, timestamp_millis_spec,
};

verus! {

/// Compact GPS fix data used by higher-level consumers.
///
/// `utc_time_ms` carries the time of day of the fix in milliseconds since
/// midnight UTC; it is what `get_utc_time_millis` computes from `time`.
#[derive(Clone, Copy, Debug, PartialEq, Eq, Structural)]
pub struct GpsFix {
    pub lat_microdeg: i32,
    pub lon_microdeg: i32,
    pub sats: u8,
    pub time: Option<FixTime>,
    pub date: Option<FixDate>,
    pub utc_time_ms: Option<u64>,
}

/// The time of day in milliseconds, when a time is present.
pub open spec fn utc_millis_spec(time: Option<FixTime>) -> Option<u64> {
    match time {
        Some(t) => Some(millis_of_day_spec(t) as u64),
        None => None,
    }
}

pub open spec fn time_ok(time: Option<FixTime>) -> bool {
    time matches Some(t) ==> t.valid()
}

pub open spec fn date_ok(date: Option<FixDate>) -> bool {
    date matches Some(d) ==> d.valid()
}

impl GpsFix {
    /// Well-formed: the time and date are valid and `utc_time_ms` agrees
    /// with `time`.
    pub open spec fn wf(self) -> bool {
        &&& time_ok(self.time)
        &&& date_ok(self.date)
        &&& self.utc_time_ms == utc_millis_spec(self.time)
    }

    /// Builds a fix from the values the NMEA parser currently holds: the
    /// latitude and longitude in microdegrees, the number of satellites used
    /// for the fix, and the time and date of the fix. There is no fix unless
    /// both coordinates are known.
    pub fn from(
        lat_microdeg: Option<i32>,
        lon_microdeg: Option<i32>,
        sats: Option<u32>,
        time: Option<FixTime>,
        date: Option<FixDate>,
    ) -> (fix: Option<GpsFix>)
        requires
            time_ok(time),
            date_ok(date),
        ensures
            fix is Some <==> (lat_microdeg is Some && lon_microdeg is Some),
            fix matches Some(f) ==> {
                &&& f.lat_microdeg == lat_microdeg.unwrap()
                &&& f.lon_microdeg == lon_microdeg.unwrap()
                &&& f.sats as int == (match sats { Some(n) => n as int, None => 0int }) % 256 // low eight bits; none is zero
                &&& f.time == time
                &&& f.date == date
                &&& f.utc_time_ms == utc_millis_spec(time)
                &&& f.wf()
            },
    {
        let n: u32 = match sats {
            Some(n) => n,
            None => 0,
        };
        let sats: u8 = n as u8;
        assert(sats as int == n as int % 256) by (bit_vector)
            requires
                sats == n as u8,
        ;
        let lat_microdeg = match lat_microdeg {
            Some(v) => v,
            None => return None,
        };
        let lon_microdeg = match lon_microdeg {
            Some(v) => v,
            None => return None,
        };
        let utc_time_ms = match &time {
            Some(t) => Some(t.millis_of_day()),
            None => None,
        };
        Some(GpsFix { lat_microdeg, lon_microdeg, sats, time, date, utc_time_ms })
    }

    /// Combines date and time information to a full timestamp, if both are
    /// available.
    pub fn get_timestamp(&self) -> (ts: Option<FixDateTime>)
        ensures
            ts == (match (self.date, self.time) {
                (Some(date), Some(time)) => Some(FixDateTime { date, time }),
                _ => None,
            }),
    {
        match (self.date, self.time) {
            (Some(date), Some(time)) => Some(FixDateTime { date, time }),
            _ => None,
        }
    }

    /// Milliseconds since the Unix epoch of the fix, if date and time are
    /// both available.
    pub fn get_timestamp_millis(&self) -> (ms: Option<i64>)
        requires
            time_ok(self.time),
            date_ok(self.date),
        ensures
            ms == (match (self.date, self.time) {
                (Some(date), Some(time)) => Some(timestamp_millis_spec(date, time) as i64),
                _ => None,
            }),
    {
        match self.get_timestamp() {
            Some(dt) => Some(dt.timestamp_millis()),
            None => None,
        }
    }

    /// UTC milliseconds since midnight, when `time` is available.
    pub fn get_utc_time_millis(&self) -> (ms: Option<u64>)
        requires
            time_ok(self.time),
        ensures
            ms == utc_millis_spec(self.time),
    {
        match &self.time {
            Some(t) => Some(t.millis_of_day()),
            None => None,
        }
    }
}

/// The time of day a well-formed fix records is its time in milliseconds,
/// without truncation, and the Unix timestamp that `get_timestamp_millis`
/// gives is the day count of the date times the milliseconds of a day plus
/// `utc_time_ms`: both getters agree on the time of day.
pub proof fn lemma_timestamp_extends_time_of_day(f: GpsFix)
    requires
        f.wf(),
        f.time is Some,
    ensures
        f.utc_time_ms matches Some(ms) && ms as int == millis_of_day_spec(f.time.unwrap())
            && ms < 86_402_000,
        f.date matches Some(d) ==> timestamp_millis_spec(d, f.time.unwrap())
            == days_since_unix_epoch(d.year, d.month, d.day) * 86_400_000 + f.utc_time_ms.unwrap(),
{
    let t = f.time.unwrap();
    assert(0 <= t.seconds_from_midnight_spec() < 86_400);
    assert(t.nanosecond / 1_000_000 < 2000);
}

} // verus!
