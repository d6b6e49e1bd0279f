use vstd::prelude::*;

verus! {

/// A UTC time of day with nanosecond precision, as the receiver reports it.
/// A nanosecond count of one second or more marks a leap second, which only
/// the last second of a minute may carry.
#[derive(Clone, Copy, Debug, PartialEq, Eq, Structural)]
pub struct FixTime {
    pub hour: u32,
    pub minute: u32,
    pub second: u32,
    pub nanosecond: u32,
}

/// A calendar date of the proleptic Gregorian calendar.
#[derive(Clone, Copy, Debug, PartialEq, Eq, Structural)]
pub struct FixDate {
    pub year: i32,
    pub month: u32,
    pub day: u32,
}

/// A date together with a time of day.
#[derive(Clone, Copy, Debug, PartialEq, Eq, Structural)]
pub struct FixDateTime {
    pub date: FixDate,
    pub time: FixTime,
}

/// The earliest year a date can carry.
pub const MIN_YEAR: i32 = -262143;

/// The latest year a date can carry.
pub const MAX_YEAR: i32 = 262142;

pub open spec fn is_leap_year(year: int) -> bool {
    year % 4 == 0 && (year % 100 != 0 || year % 400 == 0)
}

pub open spec fn days_in_month(year: int, month: int) -> int {
    if month == 2 {
        if is_leap_year(year) { 29 } else { 28 }
    } else if month == 4 || month == 6 || month == 9 || month == 11 {
        30
    } else {
        31
    }
}

/// Milliseconds since midnight, counting a leap second as the last second
/// of the day continued.
pub open spec fn millis_of_day_spec(t: FixTime) -> int {
    t.seconds_from_midnight_spec() * 1000 + t.nanosecond / 1_000_000
}

impl FixTime {
    pub open spec fn valid(self) -> bool {
        &&& self.hour < 24
        &&& self.minute < 60
        &&& self.second < 60
        &&& self.nanosecond < 2_000_000_000
        &&& self.nanosecond >= 1_000_000_000 ==> self.second == 59
    }

    pub open spec fn seconds_from_midnight_spec(self) -> int {
        self.hour * 3600 + self.minute * 60 + self.second
    }

    /// Seconds elapsed since midnight, leap seconds not counted.
    pub fn num_seconds_from_midnight(&self) -> (s: u32)
        requires
            self.valid(),
        ensures
            s == self.seconds_from_midnight_spec(),
            s < 86_400,
    {
        self.hour * 3600 + self.minute * 60 + self.second
    }

    /// Milliseconds elapsed since midnight.
    pub fn millis_of_day(&self) -> (ms: u64)
        requires
            self.valid(),
        ensures
            ms == millis_of_day_spec(*self),
            ms < 86_402_000,
    {
        let secs = self.num_seconds_from_midnight();
        (secs as u64) * 1000 + ((self.nanosecond / 1_000_000) as u64)
    }
}

impl FixDate {
    pub open spec fn valid(self) -> bool {
        &&& MIN_YEAR <= self.year <= MAX_YEAR
        &&& 1 <= self.month <= 12
        &&& 1 <= self.day <= days_in_month(self.year as int, self.month as int)
    }
}

/// The number of days from 1970-01-01 to the given date of the proleptic
/// Gregorian calendar, negative before it. The year is counted from March,
/// so that a leap day ends it; whole 400-year eras hold 146097 days, and
/// the days of the year since March 1 are `(153 * months + 2) / 5`.
pub open spec fn days_since_unix_epoch(year: i32, month: u32, day: u32) -> int {
    let y: int = if month <= 2 { year - 1 } else { year as int };
    let era: int = y / 400;
    let yoe: int = y - era * 400;
    let mp: int = if month > 2 { month - 3 } else { month + 9 };
    let doy: int = (153 * mp + 2) / 5 + day - 1;
    let doe: int = yoe * 365 + yoe / 4 - yoe / 100 + doy;
    era * 146097 + doe - 719468
}

/// Milliseconds since 1970-01-01T00:00:00 UTC of a date and time.
pub open spec fn timestamp_millis_spec(date: FixDate, time: FixTime) -> int {
    days_since_unix_epoch(date.year, date.month, date.day) * 86_400_000 + millis_of_day_spec(time)
}

/// Milliseconds since 1970-01-01T00:00:00 UTC of a valid date and time.
/// Builds chrono's `NaiveDate` (`from_ymd_opt`) and `NaiveTime`
/// (`from_hms_nano_opt`), joins them with `and_time`, reads them as UTC with
/// `and_utc` and returns `timestamp_millis`. The contract claims what
/// chrono's source computes there: the day count (`num_days_from_ce` less
/// the 719163 days before the epoch, which is the count of days of the
/// proleptic Gregorian calendar that `days_since_unix_epoch` gives) times
/// 86 400 000 plus the milliseconds of the day, where a leap second adds its
/// extra milliseconds to the last second of the day.
#[verifier::external_body]
fn chrono_timestamp_millis(date: FixDate, time: FixTime) -> (ms: i64)
    requires
        date.valid(),
        time.valid(),
    ensures
        ms == timestamp_millis_spec(date, time),
{
    let d = chrono::NaiveDate::from_ymd_opt(date.year, date.month, date.day).unwrap();
    let t = chrono::NaiveTime::from_hms_nano_opt(time.hour, time.minute, time.second, time.nanosecond).unwrap();
    d.and_time(t).and_utc().timestamp_millis()
}

impl FixDateTime {
    /// Milliseconds since the Unix epoch, the date and time read as UTC.
    pub fn timestamp_millis(&self) -> (ms: i64)
        requires
            self.date.valid(),
            self.time.valid(),
        ensures
            ms == timestamp_millis_spec(self.date, self.time),
    {
        chrono_timestamp_millis(self.date, self.time)
    }
}

/// The day count on some dates: the epoch, the day before it, a leap day
/// and the first day of 2024.
pub proof fn lemma_day_count_examples()
    ensures
        days_since_unix_epoch(1970, 1, 1) == 0,
        days_since_unix_epoch(1969, 12, 31) == -1,
        days_since_unix_epoch(2000, 2, 29) == 11016,
        days_since_unix_epoch(2000, 3, 1) == 11017,
        days_since_unix_epoch(2024, 1, 1) == 19723,
        days_since_unix_epoch(2024, 3, 1) == 19783,
{
}

/// Consecutive days of a month are consecutive day numbers.
pub proof fn lemma_next_day(year: i32, month: u32, day: u32)
    requires
        (FixDate { year, month, day }).valid(),
        day < days_in_month(year as int, month as int),
    ensures
        days_since_unix_epoch(year, month, (day + 1) as u32)
            == days_since_unix_epoch(year, month, day) + 1,
{
}

/// Days from the epoch of the shifted calendar to March 1 of year `y`.
spec fn days_before_march(y: int) -> int {
    let era: int = y / 400;
    let yoe: int = y - era * 400;
    era * 146097 + yoe * 365 + yoe / 4 - yoe / 100
}

/// The year from March 1 of `y` to March 1 of `y + 1` has 366 days when
/// `y + 1` is a leap year (its February has 29 days), else 365.
proof fn lemma_march_to_march(y: int)
    ensures
        days_before_march(y + 1) == days_before_march(y) + 365 + (if is_leap_year(y + 1) { 1int } else { 0 }),
{
    let era: int = y / 400;
    let yoe: int = y - era * 400;
    assert(0 <= yoe < 400);
    let era1: int = (y + 1) / 400;
    let yoe1: int = (y + 1) - era1 * 400;
    if yoe < 399 {
        assert(era1 == era) by (nonlinear_arith)
            requires
                y == era * 400 + yoe,
                0 <= yoe < 399,
                era1 == (y + 1) / 400,
        ;
        assert(yoe1 == yoe + 1);
        lemma_leap_in_era(y + 1, era, yoe + 1);
        assert((yoe + 1) / 4 == yoe / 4 + (if (yoe + 1) % 4 == 0 { 1int } else { 0 })) by (nonlinear_arith)
            requires
                0 <= yoe < 399,
        ;
        assert((yoe + 1) / 100 == yoe / 100 + (if (yoe + 1) % 100 == 0 { 1int } else { 0 })) by (nonlinear_arith)
            requires
                0 <= yoe < 399,
        ;
    } else {
        assert(era1 == era + 1 && yoe1 == 0) by (nonlinear_arith)
            requires
                y == era * 400 + 399,
                era1 == (y + 1) / 400,
                yoe1 == (y + 1) - era1 * 400,
        ;
        assert(is_leap_year(y + 1)) by (nonlinear_arith)
            requires
                y + 1 == era1 * 400,
        ;
    }
}

/// Whether a year is a leap year depends only on its place in its era.
proof fn lemma_leap_in_era(x: int, era: int, r: int)
    requires
        x == era * 400 + r,
        0 <= r < 400,
    ensures
        x % 4 == r % 4,
        x % 100 == r % 100,
        x % 400 == r,
        is_leap_year(x) == (r % 4 == 0 && (r % 100 != 0 || r == 0)),
{
    assert(x % 4 == r % 4) by (nonlinear_arith)
        requires
            x == era * 400 + r,
    ;
    assert(x % 100 == r % 100) by (nonlinear_arith)
        requires
            x == era * 400 + r,
    ;
    assert(x % 400 == r) by (nonlinear_arith)
        requires
            x == era * 400 + r,
            0 <= r < 400,
    ;
}

/// The first day of a month follows the last day of the month before it,
/// February 28 or 29 included.
pub proof fn lemma_next_month(year: i32, month: u32)
    requires
        MIN_YEAR <= year <= MAX_YEAR,
        1 <= month < 12,
    ensures
        days_since_unix_epoch(year, (month + 1) as u32, 1)
            == days_since_unix_epoch(year, month, days_in_month(year as int, month as int) as u32) + 1,
{
    let last = days_in_month(year as int, month as int);
    assert(28 <= last <= 31);
    if month == 2 {
        lemma_march_to_march(year - 1);
        assert(days_since_unix_epoch(year, 3, 1) == days_before_march(year as int) - 719468);
        assert(days_since_unix_epoch(year, 2, last as u32) == days_before_march(year - 1) + 337 + last - 1
            - 719468);
    }
}

/// January 1 follows December 31 of the year before.
pub proof fn lemma_next_year(year: i32)
    requires
        MIN_YEAR <= year < MAX_YEAR,
    ensures
        days_since_unix_epoch((year + 1) as i32, 1, 1) == days_since_unix_epoch(year, 12, 31) + 1,
{
}

/// The epoch is day 0 of the count.
pub proof fn lemma_epoch_is_day_zero()
    ensures
        days_since_unix_epoch(1970, 1, 1) == 0,
        timestamp_millis_spec(
            FixDate { year: 1970, month: 1, day: 1 },
            FixTime { hour: 0, minute: 0, second: 0, nanosecond: 0 },
        ) == 0,
{
}

/// The milliseconds of a time of day count each hour as 3 600 000 ms, each
/// minute as 60 000 ms and each second as 1 000 ms, plus the whole
/// milliseconds of the nanoseconds; a day without leap second ends before
/// 86 400 000 ms, and a leap second continues the last second of the day.
pub proof fn lemma_millis_of_day(t: FixTime)
    requires
        t.valid(),
    ensures
        millis_of_day_spec(t) == t.hour * 3_600_000 + t.minute * 60_000 + t.second * 1000
            + t.nanosecond / 1_000_000,
        t.nanosecond < 1_000_000_000 ==> 0 <= millis_of_day_spec(t) < 86_400_000,
        millis_of_day_spec(t) < 86_401_000,
        millis_of_day_spec(t) / 1000 == t.hour * 3600 + t.minute * 60 + t.second
            + t.nanosecond / 1_000_000_000,
{
}

} // verus!
