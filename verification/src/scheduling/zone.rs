use vstd::prelude::*;
use chrono::{Datelike, TimeZone, Timelike};

use crate::scheduling::calendar::representable;

verus! {

/// A date and a time of day as a clock on the wall shows them, without a timezone.
#[derive(Debug, Clone, Copy, PartialEq, Eq, Structural)]
pub struct WallClock {
    pub year: i32,
    /// The month, from 1 (January) to 12.
    pub month: u32,
    pub day: u32,
    pub hour: u32,
    pub minute: u32,
    pub second: u32,
    pub nanosecond: u32,
}

/// What a timezone makes of the reading of a wall clock: instants are given in milliseconds
/// since the epoch.
#[derive(Debug, Clone, Copy, PartialEq, Eq, Structural)]
pub enum LocalInstant {
    /// The reading names one instant.
    Single(i64),
    /// The clock showed the reading twice: at the earlier and at the later instant.
    Ambiguous(i64, i64),
    /// The clock never showed the reading.
    Gap,
    /// There is no timezone of the given name.
    UnknownZone,
}

/// Whether `chrono_tz` holds a timezone of this name.
pub uninterp spec fn known_timezone(name: Seq<char>) -> bool;

/// The reading that `chrono::NaiveDateTime::parse_from_str` finds in a text for a format, if
/// it accepts the text.
pub uninterp spec fn wall_clock_of(text: Seq<char>, format: Seq<char>) -> Option<WallClock>;

/// What the timezone of the given name, as `chrono_tz` has it, makes of a reading.
pub uninterp spec fn local_instant(zone: Seq<char>, wall: WallClock) -> LocalInstant;

/// What `cron_parser::parse` makes of a cron expression that it reads in the timezone of the
/// given name: the first instant strictly after `after` at which the expression fires or,
/// where it refuses the expression or finds no such instant, the words of its error.
pub uninterp spec fn cron_fire(expression: Seq<char>, zone: Seq<char>, after: int) -> Result<
    int,
    Seq<char>,
>;

/// `<chrono_tz::Tz as FromStr>::from_str`: whether the name is that of a timezone that the
/// crate holds; where it is not, the words of the crate's error.
#[verifier::external_body]
pub(crate) fn check_timezone(name: &str) -> (r: Result<(), String>)
    ensures
        r is Ok == known_timezone(name@),
{
    match name.parse::<chrono_tz::Tz>() {
        Ok(_) => Ok(()),
        Err(e) => Err(e.to_string()),
    }
}

/// `chrono::NaiveDateTime::parse_from_str`: the date and time that a text holds in the given
/// format, in the fields `year`, `month`, `day`, `hour`, `minute`, `second` and `nanosecond`
/// of the result; where the text is refused, the words of the crate's error.
#[verifier::external_body]
pub(crate) fn parse_wall_clock(text: &str, format: &str) -> (r: Result<WallClock, String>)
    ensures
        match r {
            Ok(wall) => wall_clock_of(text@, format@) == Some(wall),
            Err(_) => wall_clock_of(text@, format@) is None,
        },
{
    match chrono::NaiveDateTime::parse_from_str(text, format) {
        Ok(n) => Ok(
            WallClock {
                year: n.year(),
                month: n.month(),
                day: n.day(),
                hour: n.hour(),
                minute: n.minute(),
                second: n.second(),
                nanosecond: n.nanosecond(),
            },
        ),
        Err(e) => Err(e.to_string()),
    }
}

/// `chrono::TimeZone::from_local_datetime` for the timezone that `chrono_tz` has under the
/// given name, on the `chrono::NaiveDateTime` that `NaiveDate::from_ymd_opt` and
/// `and_hms_nano_opt` make of the reading: the instant or instants, read with
/// `timestamp_millis`, at which a clock in that timezone shows the reading. A reading that is
/// no date and time of the calendar counts as one that the clock never showed.
#[verifier::external_body]
pub(crate) fn localize(zone: &str, wall: &WallClock) -> (r: LocalInstant)
    ensures
        r == local_instant(zone@, *wall),
{
    let Ok(tz) = zone.parse::<chrono_tz::Tz>() else { return LocalInstant::UnknownZone };
    let Some(date) = chrono::NaiveDate::from_ymd_opt(wall.year, wall.month, wall.day) else {
        return LocalInstant::Gap;
    };
    let time = date.and_hms_nano_opt(wall.hour, wall.minute, wall.second, wall.nanosecond);
    let Some(naive) = time else { return LocalInstant::Gap };
    match tz.from_local_datetime(&naive) {
        chrono::LocalResult::Single(t) => LocalInstant::Single(t.timestamp_millis()),
        chrono::LocalResult::Ambiguous(a, b) => LocalInstant::Ambiguous(
            a.timestamp_millis(),
            b.timestamp_millis(),
        ),
        chrono::LocalResult::None => LocalInstant::Gap,
    }
}

/// `cron_parser::parse` on an expression and the instant `after` as a `chrono::DateTime` in
/// the timezone that `chrono_tz` has under the given name: the first instant strictly after
/// `after` at which the expression fires in that timezone, read with `timestamp_millis`;
/// where the crate refuses the expression or finds no such instant, the words of its error,
/// as its `Display` writes them. The error is made of the expression and of the place and
/// kind of the fault, so the same arguments give the same words.
#[verifier::external_body]
pub(crate) fn cron_next_after(expression: &str, zone: &str, after: i64) -> (r: Result<i64, String>)
    requires
        known_timezone(zone@),
        representable(after as int),
    ensures
        match r {
            Ok(t) => cron_fire(expression@, zone@, after as int) == Ok::<int, Seq<char>>(t as int)
                && t > after,
            Err(words) => cron_fire(expression@, zone@, after as int) == Err::<int, Seq<char>>(
                words@,
            ),
        },
{
    let tz: chrono_tz::Tz = zone.parse().unwrap();
    let start = chrono::DateTime::from_timestamp_millis(after).unwrap().with_timezone(&tz);
    match cron_parser::parse(expression, &start) {
        Ok(next) => Ok(next.timestamp_millis()),
        Err(e) => Err(e.to_string()),
    }
}

} // verus!
