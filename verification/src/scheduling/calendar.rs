use vstd::prelude::*;
use chrono::{Datelike, Timelike};

use crate::scheduling::time::Timestamp;

verus! {

/// The first year whose dates the calendar of this library holds.
pub const MIN_YEAR: i32 = -262_143;

/// The last year whose dates the calendar of this library holds.
pub const MAX_YEAR: i32 = 262_142;

/// The number of milliseconds in a day, as a mathematical integer.
pub open spec fn day_ms() -> int {
    86_400_000
}

/// The leap years of the Gregorian calendar, carried back before its introduction.
pub open spec fn leap_year(year: int) -> bool {
    year % 4 == 0 && (year % 100 != 0 || year % 400 == 0)
}

/// The number of days of a month, given by its year and its index from 0 (January) to 11.
pub open spec fn month_length(year: int, month0: int) -> int {
    if month0 == 1 {
        if leap_year(year) {
            29
        } else {
            28
        }
    } else if month0 == 3 || month0 == 5 || month0 == 8 || month0 == 10 {
        30
    } else {
        31
    }
}

/// The number of days of a year that lie before the month with the given index.
pub open spec fn days_before_month(year: int, month0: int) -> int
    decreases month0,
{
    if month0 <= 0 {
        0
    } else {
        days_before_month(year, month0 - 1) + month_length(year, month0 - 1)
    }
}

/// The number of leap years from year 1 up to, and without, the given year.
pub open spec fn leap_years_before(year: int) -> int {
    (year - 1) / 4 - (year - 1) / 100 + (year - 1) / 400
}

/// The number of days from 1 January 1970 to 1 January of the given year.
#[verifier::opaque]
pub open spec fn days_before_year(year: int) -> int {
    365 * (year - 1970) + leap_years_before(year) - leap_years_before(1970)
}

/// The number of days from 1 January 1970 to the given date.
pub open spec fn days_from_civil(year: int, month0: int, day: int) -> int {
    days_before_year(year) + days_before_month(year, month0) + day - 1
}

/// The date exists and lies in a year that the calendar holds.
pub open spec fn date_exists(year: int, month0: int, day: int) -> bool {
    &&& MIN_YEAR <= year <= MAX_YEAR
    &&& 0 <= month0 < 12
    &&& 1 <= day <= month_length(year, month0)
}

/// The number of whole days from the epoch to the instant.
pub open spec fn day_number(millis: int) -> int {
    millis / day_ms()
}

/// The milliseconds that have passed of the instant's day, in UTC.
pub open spec fn time_of_day(millis: int) -> int {
    millis % day_ms()
}

/// The day of the week of a day number, from 0 (Sunday) to 6 (Saturday). Day 0, 1 January
/// 1970, was a Thursday.
pub open spec fn weekday_of_day(day: int) -> int {
    (day + 4) % 7
}

/// The day of the week of an instant in UTC, from 0 (Sunday) to 6 (Saturday).
pub open spec fn weekday_of(millis: int) -> int {
    weekday_of_day(day_number(millis))
}

/// A date and a time of day in UTC, in the fields of the calendar.
#[derive(Debug, Clone, Copy, PartialEq, Eq, Structural)]
pub struct CivilDateTime {
    pub year: i32,
    /// The month, from 1 (January) to 12.
    pub month: u32,
    pub day: u32,
    pub hour: u32,
    pub minute: u32,
    pub second: u32,
    pub millisecond: u32,
}

impl CivilDateTime {
    /// The index of the month, from 0 (January) to 11.
    pub open spec fn month0(&self) -> int {
        self.month - 1
    }

    /// The time of day is one of a day without a leap second.
    pub open spec fn time_exists(&self) -> bool {
        self.hour < 24 && self.minute < 60 && self.second < 60 && self.millisecond < 1000
    }

    /// The fields name a date that exists and a time of that day.
    pub open spec fn wf(&self) -> bool {
        date_exists(self.year as int, self.month0(), self.day as int) && self.time_exists()
    }

    /// The milliseconds from midnight to the time of day.
    pub open spec fn millis_of_day(&self) -> int {
        ((self.hour * 60 + self.minute) * 60 + self.second) * 1000 + self.millisecond
    }

    /// The instant, in milliseconds since the epoch.
    pub open spec fn instant(&self) -> int {
        days_from_civil(self.year as int, self.month0(), self.day as int) * day_ms()
            + self.millis_of_day()
    }
}

/// Some date and time of the calendar stands for the instant.
pub open spec fn representable(millis: int) -> bool {
    exists|c: CivilDateTime| c.wf() && #[trigger] c.instant() == millis
}

/// A year is 365 days long, and a leap year one day longer.
pub proof fn lemma_year_length(year: int)
    ensures
        days_before_year(year + 1) == days_before_year(year) + 365 + if leap_year(year) {
            1int
        } else {
            0int
        },
        days_before_month(year, 12) == 365 + if leap_year(year) {
            1int
        } else {
            0int
        },
{
    reveal(days_before_year);
    lemma_days_before_month(year);
}

/// The days before each month of a year.
pub proof fn lemma_days_before_month(year: int)
    ensures
        days_before_month(year, 0) == 0,
        days_before_month(year, 1) == 31,
        days_before_month(year, 2) == 59 + if leap_year(year) { 1int } else { 0int },
        days_before_month(year, 3) == 90 + if leap_year(year) { 1int } else { 0int },
        days_before_month(year, 4) == 120 + if leap_year(year) { 1int } else { 0int },
        days_before_month(year, 5) == 151 + if leap_year(year) { 1int } else { 0int },
        days_before_month(year, 6) == 181 + if leap_year(year) { 1int } else { 0int },
        days_before_month(year, 7) == 212 + if leap_year(year) { 1int } else { 0int },
        days_before_month(year, 8) == 243 + if leap_year(year) { 1int } else { 0int },
        days_before_month(year, 9) == 273 + if leap_year(year) { 1int } else { 0int },
        days_before_month(year, 10) == 304 + if leap_year(year) { 1int } else { 0int },
        days_before_month(year, 11) == 334 + if leap_year(year) { 1int } else { 0int },
        days_before_month(year, 12) == 365 + if leap_year(year) { 1int } else { 0int },
{
    reveal_with_fuel(days_before_month, 13);
}

/// The first day of a later year comes no earlier than the first day after an earlier year.
pub proof fn lemma_years_in_order(y1: int, y2: int)
    requires
        y1 < y2,
    ensures
        days_before_year(y1 + 1) <= days_before_year(y2),
    decreases y2 - y1,
{
    if y1 + 1 < y2 {
        lemma_years_in_order(y1, y2 - 1);
        lemma_year_length(y2 - 1);
    }
}

/// A date that comes later in the calendar has the greater day number.
pub proof fn lemma_days_in_order(y1: int, m1: int, d1: int, y2: int, m2: int, d2: int)
    requires
        0 <= m1 < 12,
        0 <= m2 < 12,
        1 <= d1 <= month_length(y1, m1),
        1 <= d2 <= month_length(y2, m2),
        y1 < y2 || (y1 == y2 && (m1 < m2 || (m1 == m2 && d1 < d2))),
    ensures
        days_from_civil(y1, m1, d1) < days_from_civil(y2, m2, d2),
{
    lemma_days_before_month(y1);
    lemma_days_before_month(y2);
    if y1 < y2 {
        lemma_years_in_order(y1, y2);
        lemma_year_length(y1);
    }
}

/// Of two dates and times, the one that comes later in the calendar is the later instant.
pub proof fn lemma_instants_in_order(a: CivilDateTime, b: CivilDateTime)
    requires
        a.wf(),
        b.wf(),
        a.year < b.year || (a.year == b.year && (a.month < b.month || (a.month == b.month && (a.day
            < b.day || (a.day == b.day && a.millis_of_day() < b.millis_of_day()))))),
    ensures
        a.instant() < b.instant(),
{
    if a.year == b.year && a.month == b.month && a.day == b.day {
    } else {
        lemma_days_in_order(
            a.year as int,
            a.month0(),
            a.day as int,
            b.year as int,
            b.month0(),
            b.day as int,
        );
    }
}

/// One instant has one date and time: the fields are determined by the instant.
pub proof fn lemma_civil_unique(a: CivilDateTime, b: CivilDateTime)
    requires
        a.wf(),
        b.wf(),
        a.instant() == b.instant(),
    ensures
        a == b,
{
    if a.year < b.year || (a.year == b.year && (a.month < b.month || (a.month == b.month && (a.day
        < b.day || (a.day == b.day && a.millis_of_day() < b.millis_of_day()))))) {
        lemma_instants_in_order(a, b);
    } else if b.year < a.year || (b.year == a.year && (b.month < a.month || (b.month == a.month
        && (b.day < a.day || (b.day == a.day && b.millis_of_day() < a.millis_of_day()))))) {
        lemma_instants_in_order(b, a);
    } else {
        assert(a.millis_of_day() == b.millis_of_day());
        assert(a.millisecond == b.millisecond && a.second == b.second && a.minute == b.minute
            && a.hour == b.hour);
    }
}

/// The day number and the time of day of the instant of a date and time.
pub proof fn lemma_instant_parts(c: CivilDateTime)
    requires
        c.wf(),
    ensures
        day_number(c.instant()) == days_from_civil(c.year as int, c.month0(), c.day as int),
        time_of_day(c.instant()) == c.millis_of_day(),
        0 <= c.millis_of_day() < day_ms(),
{
}

/// The number of days of a year that lie before its months, in a year that is no leap year.
pub const DAYS_BEFORE_MONTH: [u32; 12] = [0, 31, 59, 90, 120, 151, 181, 212, 243, 273, 304, 334];

/// The greatest whole number that is not above the ratio of a number to a positive one.
fn floor_div(a: i64, b: i64) -> (q: i64)
    requires
        b > 0,
    ensures
        q == (a as int) / (b as int),
{
    proof {
        vstd::arithmetic::div_mod::lemma_fundamental_div_mod(a as int, b as int);
        vstd::arithmetic::div_mod::lemma_mod_bound(a as int, b as int);
        lemma_quotient_within(a as int, b as int);
    }
    match a.checked_div_euclid(b) {
        Some(q) => q,
        None => 0,
    }
}

/// The quotient by a positive number is no farther from zero than the number.
proof fn lemma_quotient_within(a: int, b: int)
    by (nonlinear_arith)
    requires
        b > 0,
    ensures
        a >= 0 ==> 0 <= a / b <= a,
        a < 0 ==> a <= a / b <= 0,
{
}

/// The number of days from 1 January 1970 to 1 January of a year.
fn days_to_year(year: i32) -> (days: i64)
    ensures
        days == days_before_year(year as int),
        -800_000_000_000 < days < 800_000_000_000,
{
    proof {
        reveal(days_before_year);
    }
    let y: i64 = year as i64;
    let leaps = floor_div(y - 1, 4) - floor_div(y - 1, 100) + floor_div(y - 1, 400);
    365 * (y - 1970) + leaps - 477
}

/// The number of days of a year that lie before the month with the given index.
fn days_to_month(year: i32, month: u32) -> (days: i64)
    requires
        month < 12,
    ensures
        days == days_before_month(year as int, month as int),
        0 <= days <= 335,
{
    proof {
        lemma_days_before_month(year as int);
    }
    let leap = year % 4 == 0 && (year % 100 != 0 || year % 400 == 0);
    let days: i64 = DAYS_BEFORE_MONTH[month as usize] as i64;
    if leap && month >= 2 {
        days + 1
    } else {
        days
    }
}

/// The number of days from 1 January 1970 to a date, by the rules of the calendar alone: a
/// count to hold a calendar to.
pub fn get_days_from_civil(year: i32, month: u32, day: u32) -> (days: i64)
    requires
        month < 12,
        1 <= day <= 31,
    ensures
        days == days_from_civil(year as int, month as int, day as int),
{
    proof {
        lemma_days_before_month(year as int);
    }
    days_to_year(year) + days_to_month(year, month) + day as i64 - 1
}

/// The date and time of an instant that the calendar holds.
pub open spec fn civil_of(millis: int) -> CivilDateTime {
    choose|c: CivilDateTime| c.wf() && c.instant() == millis
}

/// The date and time that an instant of the calendar is taken apart into is the one that
/// makes up the instant.
pub proof fn lemma_civil_of(c: CivilDateTime)
    requires
        c.wf(),
    ensures
        representable(c.instant()),
        civil_of(c.instant()) == c,
{
    let found = civil_of(c.instant());
    assert(found.wf() && found.instant() == c.instant());
    lemma_civil_unique(found, c);
}

/// The instants of the calendar lie within some 263 thousand years of the epoch.
pub proof fn lemma_representable_bound(millis: int)
    requires
        representable(millis),
    ensures
        -8_400_000_000_000_000 < millis < 8_400_000_000_000_000,
{
    let c = civil_of(millis);
    reveal(days_before_year);
    lemma_days_before_month(c.year as int);
}

/// `chrono::DateTime::from_timestamp_millis`, and of its result the fields `year`, `month`,
/// `day`, `hour`, `minute`, `second` and `timestamp_subsec_millis`: the date and time in UTC
/// of an instant given in milliseconds since the epoch. The result is the one date and time
/// of the proleptic Gregorian calendar that makes up the instant; there is none where the
/// year would lie outside the years that a `chrono::NaiveDate` holds.
#[verifier::external_body]
fn civil_from_millis(millis: i64) -> (r: Option<CivilDateTime>)
    ensures
        match r {
            Some(c) => c.wf() && c.instant() == millis,
            None => !representable(millis as int),
        },
{
    let dt = chrono::DateTime::from_timestamp_millis(millis)?;
    Some(
        CivilDateTime {
            year: dt.year(),
            month: dt.month(),
            day: dt.day(),
            hour: dt.hour(),
            minute: dt.minute(),
            second: dt.second(),
            millisecond: dt.timestamp_subsec_millis(),
        },
    )
}

/// `chrono::NaiveDate::from_ymd_opt`, then `and_hms_milli_opt`, `and_utc` and
/// `timestamp_millis`: the instant, in milliseconds since the epoch, of a date and a time of
/// day in UTC. There is none where the date does not exist or its year lies outside the
/// years that a `chrono::NaiveDate` holds.
#[verifier::external_body]
fn millis_from_civil(c: &CivilDateTime) -> (r: Option<i64>)
    requires
        c.time_exists(),
    ensures
        match r {
            Some(millis) => c.wf() && millis == c.instant(),
            None => !c.wf(),
        },
{
    let date = chrono::NaiveDate::from_ymd_opt(c.year, c.month, c.day)?;
    let naive = date.and_hms_milli_opt(c.hour, c.minute, c.second, c.millisecond)?;
    Some(naive.and_utc().timestamp_millis())
}

impl Timestamp {
    /// The date and time in UTC of a timestamp, where the calendar holds it.
    pub fn checked_datetime(&self) -> (r: Option<CivilDateTime>)
        ensures
            match r {
                Some(c) => representable(self@) && c == civil_of(self@) && c.wf() && c.instant()
                    == self@,
                None => !representable(self@),
            },
    {
        let millis: i64 = match self {
            Timestamp::Millis(ms) => *ms,
            Timestamp::Second(seconds) => {
                match seconds.checked_mul(1_000) {
                    Some(ms) => ms,
                    None => {
                        proof {
                            if representable(self@) {
                                lemma_representable_bound(self@);
                            }
                        }
                        return None;
                    },
                }
            },
        };
        let r = civil_from_millis(millis);
        proof {
            if let Some(c) = r {
                lemma_civil_of(c);
            }
        }
        r
    }

    /// Converts `Timestamp` to its date and time in UTC with millisecond precision
    pub fn to_datetime(&self) -> (c: CivilDateTime)
        requires
            representable(self@),
        ensures
            c == civil_of(self@),
            c.wf(),
            c.instant() == self@,
    {
        match self.checked_datetime() {
            Some(c) => c,
            None => CivilDateTime {
                year: 1970,
                month: 1,
                day: 1,
                hour: 0,
                minute: 0,
                second: 0,
                millisecond: 0,
            },
        }
    }

    /// The timestamp of a date and time in UTC, where the date exists.
    pub fn checked_from_datetime(dt: &CivilDateTime) -> (r: Option<Timestamp>)
        requires
            dt.time_exists(),
        ensures
            match r {
                Some(t) => dt.wf() && t == Timestamp::Millis(dt.instant() as i64) && t@
                    == dt.instant() && representable(t@),
                None => !dt.wf(),
            },
    {
        match millis_from_civil(dt) {
            Some(millis) => {
                proof {
                    lemma_civil_of(*dt);
                }
                Some(Timestamp::Millis(millis))
            },
            None => None,
        }
    }

    /// Generates a `Timestamp` from a date and time in UTC
    pub fn from_datetime(dt: CivilDateTime) -> (t: Timestamp)
        requires
            dt.wf(),
        ensures
            t == Timestamp::Millis(dt.instant() as i64),
            t@ == dt.instant(),
            representable(t@),
    {
        match Timestamp::checked_from_datetime(&dt) {
            Some(t) => t,
            None => Timestamp::Millis(0),
        }
    }
}

} // verus!
