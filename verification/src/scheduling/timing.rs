use vstd::prelude::*;

use crate::scheduling::calendar::{
    civil_of, date_exists, day_ms, day_number, days_from_civil, leap_year, lemma_civil_of,
    lemma_instant_parts, lemma_representable_bound, month_length, representable, time_of_day,
    weekday_of, weekday_of_day, CivilDateTime, MAX_YEAR, MIN_YEAR,
};
use crate::scheduling::errors::TimingError;
use crate::scheduling::frequency::{StConstWeekday, StMonth, StOrdinals, StVarWeekday, StWeekday};
use crate::scheduling::time::{
    quotient_ceil, quotient_round, remainder_towards_zero, timestamp, Timestamp, DAY_MILLIS,
    HOUR_MILLIS, INDEXED_MONTH_DAYS, WEEK_MILLIS,
};

verus! {

/// The number of days of a week.
pub const DOW: u32 = 7;

/// How many further months or years a rule is tried on after the first before it is given
/// up as one that cannot be met.
pub const MAX_RETRIES: u32 = 100;

/// The instant that the resolver takes for the present.
#[derive(Debug, Clone, Copy)]
pub struct TimingOptions {
    pub curtime: Timestamp,
}

impl Default for TimingOptions {
    /// Options with the present instant as the clock gives it.
    fn default() -> (options: Self)
        ensures
            options.curtime is Millis,
    {
        TimingOptions { curtime: timestamp() }
    }
}

/// Days forward from the weekday `reference` to the next weekday `target`, none when they
/// are the same. Weekdays count from 0 (Sunday).
pub open spec fn dow_offset(reference: int, target: int) -> int {
    ((7 - reference) + (target % 7)) % 7
}

/// Days backward from the weekday `reference` to the last weekday `target`, none when they
/// are the same.
pub open spec fn rev_dow_offset(reference: int, target: int) -> int {
    (7 - dow_offset(reference, target)) % 7
}

/// The instant moved within its week, which runs from Sunday to Saturday, to the given
/// weekday, at the same time of day.
pub open spec fn shifted_to_weekday(instant: int, weekday: int) -> int {
    instant - (weekday_of(instant) - weekday % 7) * day_ms()
}

/// `x2` moved by less than a day, to the nearest instant that is a whole number of days away
/// from `x1`.
pub open spec fn aligned(x2: int, x1: int) -> int {
    let a = remainder_towards_zero(x2 - x1, day_ms());
    x2 + quotient_round(a, day_ms()) * day_ms() - a
}

/// The next firing of a rule that repeats from `anchor` with the given period: one period
/// after the anchor if the anchor is not yet past, else the anchor advanced by as many whole
/// periods as it takes to reach `now`.
pub open spec fn next_periodic(anchor: int, period: int, now: int) -> int
    recommends
        period > 0,
{
    if anchor >= now {
        anchor + period
    } else {
        anchor + quotient_ceil(now - anchor, period) * period
    }
}

#[inline(always)]
pub fn is_feb(month: u32) -> (r: bool)
    ensures
        r == (month == 1),
{
    month == 1
}

#[inline(always)]
pub fn is_leap_year(year: i32) -> (r: bool)
    ensures
        r == leap_year(year as int),
{
    year % 4 == 0 && (year % 100 != 0 || year % 400 == 0)
}

#[inline(always)]
pub fn is_leap_month(month_year: (u32, i32)) -> (r: bool)
    ensures
        r == (month_year.0 == 1 && leap_year(month_year.1 as int)),
{
    is_feb(month_year.0) && is_leap_year(month_year.1)
}

/// The number of days of the month with the given index, from 0 (January) to 11, in the
/// given year.
pub fn get_days_in_year_month(year: i32, month: u32) -> (days: u32)
    requires
        month < 12,
    ensures
        days == month_length(year as int, month as int),
        28 <= days <= 31,
{
    let days = INDEXED_MONTH_DAYS[month as usize];
    if is_leap_month((month, year)) {
        days + 1
    } else {
        days
    }
}

/// Days forward from one weekday to the next occurrence of another.
#[inline(always)]
pub fn get_dow_offset(ref_weekday: u32, target_weekday: u32) -> (offset: u32)
    requires
        ref_weekday < 7,
    ensures
        offset == dow_offset(ref_weekday as int, target_weekday as int),
        offset < 7,
{
    ((DOW - ref_weekday) + (target_weekday % DOW)) % DOW
}

/// Days backward from one weekday to the last occurrence of another.
#[inline(always)]
pub fn get_rev_dow_offset(ref_weekday: u32, target_weekday: u32) -> (offset: u32)
    requires
        ref_weekday < 7,
    ensures
        offset == rev_dow_offset(ref_weekday as int, target_weekday as int),
        offset < 7,
{
    (DOW - get_dow_offset(ref_weekday, target_weekday)) % DOW
}

/// The weekday of an instant in UTC, from 0 (Sunday) to 6 (Saturday).
pub fn get_weekday(millis: i64) -> (weekday: u32)
    ensures
        weekday == weekday_of(millis as int),
        weekday < 7,
{
    let day: i64 = match millis.checked_div_euclid(86_400_000) {
        Some(day) => day,
        None => 0,
    };
    let weekday: i64 = match (day + 4).checked_rem_euclid(7) {
        Some(weekday) => weekday,
        None => 0,
    };
    weekday as u32
}

/// The ceiling of a ratio of positive numbers, by way of the floor.
proof fn lemma_ceil_of_positive(d: int, p: int)
    requires
        d > 0,
        p > 0,
    ensures
        quotient_ceil(d, p) == (d + p - 1) / p,
        (quotient_ceil(d, p) - 1) * p < d <= quotient_ceil(d, p) * p,
        quotient_ceil(d, p) >= 1,
{
    let q = (d + p - 1) / p;
    vstd::arithmetic::div_mod::lemma_fundamental_div_mod(d + p - 1, p);
    vstd::arithmetic::div_mod::lemma_mod_bound(d + p - 1, p);
    // q * p <= d + p - 1 < (q + 1) * p, so -q * p <= -d < (-q + 1) * p
    assert(p * q + (d + p - 1) % p == d + p - 1);
    assert(p * q == q * p) by (nonlinear_arith);
    assert((q - 1) * p == q * p - p) by (nonlinear_arith);
    assert((-q) * p == -(q * p)) by (nonlinear_arith);
    assert((-q + 1) * p == -(q * p) + p) by (nonlinear_arith);
    vstd::arithmetic::div_mod::lemma_fundamental_div_mod_converse(
        -d,
        p,
        -q,
        -d + q * p,
    );
    assert(q >= 1) by (nonlinear_arith)
        requires
            q * p + p > d + p - 1,
            d > 0,
            p > 0,
    {
    }
}

/// The next firing of a periodic rule, where a timestamp holds it.
pub fn checked_next_periodic(anchor: i64, period: i64, now: i64) -> (next: Option<i64>)
    requires
        period > 0,
    ensures
        next == if next_periodic(anchor as int, period as int, now as int) <= i64::MAX {
            Some(next_periodic(anchor as int, period as int, now as int) as i64)
        } else {
            None
        },
        next_periodic(anchor as int, period as int, now as int) >= now,
        next_periodic(anchor as int, period as int, now as int) > anchor,
        (next_periodic(anchor as int, period as int, now as int) - anchor) % (period as int) == 0,
{
    let wide: i128 = if anchor >= now {
        proof {
            vstd::arithmetic::div_mod::lemma_mod_self_0(period as int);
        }
        anchor as i128 + period as i128
    } else {
        let elapsed: i128 = now as i128 - anchor as i128;
        let steps: i128 = (elapsed + period as i128 - 1) / (period as i128);
        proof {
            lemma_ceil_of_positive(elapsed as int, period as int);
            assert(steps * period < elapsed + period) by (nonlinear_arith)
                requires
                    (steps - 1) * period < elapsed,
            {
            }
            assert(steps * period >= 0) by (nonlinear_arith)
                requires
                    steps >= 1,
                    period > 0,
            {
            }
            vstd::arithmetic::div_mod::lemma_mod_multiples_basic(steps as int, period as int);
        }
        anchor as i128 + steps * (period as i128)
    };
    if wide <= i64::MAX as i128 {
        Some(wide as i64)
    } else {
        None
    }
}

/// The period of a rule that repeats every so many units of the given length, in
/// milliseconds.
pub open spec fn period_ms(every: u32, unit: u64) -> int {
    every * unit
}

// A period of as many weeks as `every` can hold is below 2^62 milliseconds, so the period is a
// number that a timestamp holds.
fn period_of(every: u32, unit: u64) -> (period: i64)
    requires
        0 < unit <= 604_800_000,
    ensures
        period == period_ms(every, unit),
        every > 0 ==> period > 0,
{
    assert(every > 0 ==> every * unit > 0) by (nonlinear_arith)
        requires
            unit > 0,
    {
    }
    assert(every * unit <= 0xffff_ffff * 604_800_000) by (nonlinear_arith)
        requires
            every <= 0xffff_ffff,
            unit <= 604_800_000,
    {
    }
    (every as u64 * unit) as i64
}

/// The anchor is advanced by whole numbers of `every` hours to the first instant that is
/// not before the present; an anchor that is not yet past is advanced by one period.
pub fn get_next_hourly_timestamp(anchor_ts: Timestamp, every: u32, options: &TimingOptions) -> (next:
    Timestamp)
    requires
        every > 0,
        anchor_ts.fits(),
        options.curtime.fits(),
        next_periodic(anchor_ts@, period_ms(every, HOUR_MILLIS), options.curtime@) <= i64::MAX,
    ensures
        next == Timestamp::Millis(
            next_periodic(anchor_ts@, period_ms(every, HOUR_MILLIS), options.curtime@) as i64,
        ),
        keeps_phase(anchor_ts@, period_ms(every, HOUR_MILLIS), options.curtime@, next@),
{
    proof {
        lemma_period_bound(every);
        lemma_keeps_phase(anchor_ts@, period_ms(every, HOUR_MILLIS), options.curtime@);
    }
    let period = period_of(every, HOUR_MILLIS);
    match checked_next_periodic(anchor_ts.as_ms(), period, options.curtime.as_ms()) {
        Some(next) => Timestamp::Millis(next),
        None => anchor_ts,
    }
}

/// The anchor is advanced by whole numbers of `every` days to the first instant that is not
/// before the present; an anchor that is not yet past is advanced by one period.
pub fn get_next_daily_timestamp(anchor_ts: Timestamp, every: u32, options: &TimingOptions) -> (next:
    Timestamp)
    requires
        every > 0,
        anchor_ts.fits(),
        options.curtime.fits(),
        next_periodic(anchor_ts@, period_ms(every, DAY_MILLIS), options.curtime@) <= i64::MAX,
    ensures
        next == Timestamp::Millis(
            next_periodic(anchor_ts@, period_ms(every, DAY_MILLIS), options.curtime@) as i64,
        ),
        keeps_phase(anchor_ts@, period_ms(every, DAY_MILLIS), options.curtime@, next@),
{
    proof {
        lemma_period_bound(every);
        lemma_keeps_phase(anchor_ts@, period_ms(every, DAY_MILLIS), options.curtime@);
    }
    let period = period_of(every, DAY_MILLIS);
    match checked_next_periodic(anchor_ts.as_ms(), period, options.curtime.as_ms()) {
        Some(next) => Timestamp::Millis(next),
        None => anchor_ts,
    }
}

/// The anchor is advanced by whole numbers of `every` weeks to the first instant that is
/// not before the present; an anchor that is not yet past is advanced by one period.
pub fn bring_wk_anchor_forward(current_ts: Timestamp, anchor_ts: Timestamp, every: u32) -> (next:
    Timestamp)
    requires
        every > 0,
        anchor_ts.fits(),
        current_ts.fits(),
        next_periodic(anchor_ts@, period_ms(every, WEEK_MILLIS), current_ts@) <= i64::MAX,
    ensures
        next == Timestamp::Millis(
            next_periodic(anchor_ts@, period_ms(every, WEEK_MILLIS), current_ts@) as i64,
        ),
        keeps_phase(anchor_ts@, period_ms(every, WEEK_MILLIS), current_ts@, next@),
{
    proof {
        lemma_period_bound(every);
        lemma_keeps_phase(anchor_ts@, period_ms(every, WEEK_MILLIS), current_ts@);
    }
    let period = period_of(every, WEEK_MILLIS);
    match checked_next_periodic(anchor_ts.as_ms(), period, current_ts.as_ms()) {
        Some(next) => Timestamp::Millis(next),
        None => anchor_ts,
    }
}

/// An instant far enough from the ends of what a timestamp holds that a period, and a few
/// days, can be added to it.
pub open spec fn safe_instant(millis: int) -> bool {
    -0x2000_0000_0000_0000 <= millis <= 0x2000_0000_0000_0000
}

/// The least of the values that lie after `now`, if there is one.
pub open spec fn least_after(values: Seq<int>, now: int) -> Option<int>
    decreases values.len(),
{
    if values.len() == 0 {
        None
    } else {
        let rest = least_after(values.drop_last(), now);
        let last = values.last();
        if last > now && (rest is None || last < rest->0) {
            Some(last)
        } else {
            rest
        }
    }
}

/// What `least_after` gives is one of the values, lies after `now`, and no value after `now`
/// is below it; it gives nothing just when no value lies after `now`.
pub proof fn lemma_least_after(values: Seq<int>, now: int)
    ensures
        match least_after(values, now) {
            Some(t) => values.contains(t) && t > now && forall|i: int|
                0 <= i < values.len() && values[i] > now ==> t <= #[trigger] values[i],
            None => forall|i: int| 0 <= i < values.len() ==> #[trigger] values[i] <= now,
        },
    decreases values.len(),
{
    if values.len() > 0 {
        let front = values.drop_last();
        lemma_least_after(front, now);
        let rest = least_after(front, now);
        assert(values.last() == values[values.len() - 1]);
        assert forall|i: int| 0 <= i < front.len() implies front[i] == values[i] by {}
        if rest is Some {
            let j = front.index_of(rest->0);
            assert(values[j] == rest->0);
        }
        match least_after(values, now) {
            Some(t) => {
                assert forall|i: int| 0 <= i < values.len() && values[i] > now implies t
                    <= #[trigger] values[i] by {
                    if i < front.len() {
                        assert(front[i] == values[i]);
                    }
                }
            },
            None => {
                assert forall|i: int| 0 <= i < values.len() implies #[trigger] values[i]
                    <= now by {
                    if i < front.len() {
                        assert(front[i] == values[i]);
                    }
                }
            },
        }
    }
}

/// The instants of a sequence of timestamps, in milliseconds.
pub open spec fn instants(stamps: Seq<Timestamp>) -> Seq<int> {
    stamps.map_values(|t: Timestamp| t@)
}

/// The earliest of the timestamps that lie after `now`, if there is one.
pub fn earliest_after(stamps: &Vec<Timestamp>, now: &Timestamp) -> (best: Option<Timestamp>)
    requires
        forall|i: int| 0 <= i < stamps@.len() ==> (#[trigger] stamps@[i]).fits(),
        now.fits(),
    ensures
        match best {
            Some(t) => least_after(instants(stamps@), now@) == Some(t@) && t.fits(),
            None => least_after(instants(stamps@), now@) is None,
        },
{
    let mut best: Option<Timestamp> = None;
    let mut i: usize = 0;
    let bound = now.as_ms();
    while i < stamps.len()
        invariant
            i <= stamps.len(),
            bound == now@,
            forall|k: int| 0 <= k < stamps@.len() ==> (#[trigger] stamps@[k]).fits(),
            match best {
                Some(t) => least_after(instants(stamps@).take(i as int), now@) == Some(t@)
                    && t.fits(),
                None => least_after(instants(stamps@).take(i as int), now@) is None,
            },
        decreases stamps.len() - i,
    {
        let candidate = stamps[i];
        let value = candidate.as_ms();
        proof {
            let upto = instants(stamps@).take(i as int + 1);
            assert(upto.drop_last() =~= instants(stamps@).take(i as int));
            assert(upto.last() == candidate@);
        }
        let better = match &best {
            Some(t) => value < t.as_ms(),
            None => true,
        };
        if value > bound && better {
            best = Some(candidate);
        }
        i += 1;
    }
    proof {
        assert(instants(stamps@).take(stamps@.len() as int) =~= instants(stamps@));
    }
    best
}

/// Moves an instant within its week, which runs from Sunday to Saturday, to the given
/// weekday, at the same time of day.
pub fn set_day_of_week(ts: &Timestamp, weekday: &u32) -> (shifted: Timestamp)
    requires
        safe_instant(ts@),
    ensures
        shifted == Timestamp::Millis(shifted_to_weekday(ts@, *weekday as int) as i64),
        ts@ - 6 * day_ms() <= shifted@ <= ts@ + 6 * day_ms(),
{
    let millis = ts.as_ms();
    let current = get_weekday(millis) as i64;
    let target = (*weekday % DOW) as i64;
    Timestamp::Millis(millis - (current - target) * 86_400_000)
}

/// Moves `x2` by less than a day so that it lies a whole number of days from `x1`: it keeps
/// the time of day of `x1`.
pub fn align(x2: Timestamp, x1: Timestamp) -> (x3: Timestamp)
    requires
        safe_instant(x2@),
        safe_instant(x1@),
    ensures
        x3 == Timestamp::Millis(aligned(x2@, x1@) as i64),
{
    let c = Timestamp::Millis(86_400_000);
    let a = (x2 - x1) % c;
    proof {
        let n: int = if x2@ - x1@ < 0 {
            -(x2@ - x1@)
        } else {
            x2@ - x1@
        };
        vstd::arithmetic::div_mod::lemma_mod_bound(n, 86_400_000);
    }
    let b = a.round_div(c) * c - a;
    x2 + b
}

/// The candidates of a weekly rule: for each weekday of the rule the anchor, moved to that
/// weekday of its week, advanced by whole periods of `every` weeks to the first instant not
/// before `now`. A rule without weekdays has the one candidate of the anchor itself.
pub open spec fn weekly_candidates(
    anchor: int,
    every: u32,
    weekdays: Seq<StConstWeekday>,
    now: int,
) -> Seq<int> {
    if weekdays.len() == 0 {
        seq![next_periodic(anchor, period_ms(every, WEEK_MILLIS), now)]
    } else {
        Seq::new(
            weekdays.len(),
            |i: int|
                next_periodic(
                    shifted_to_weekday(anchor, weekdays[i].value()),
                    period_ms(every, WEEK_MILLIS),
                    now,
                ),
        )
    }
}

/// The weekdays that a weekly rule is given: none stands for no list as for an empty one.
pub open spec fn listed_weekdays(weekdays: Option<&Vec<StConstWeekday>>) -> Seq<StConstWeekday> {
    match weekdays {
        Some(list) => list@,
        None => Seq::empty(),
    }
}

/// The candidates of a weekly rule, one for each of its weekdays.
pub fn get_next_weekly_timestamp(
    anchor_ts: Timestamp,
    every: u32,
    weekdays: Option<&Vec<StConstWeekday>>,
    options: &TimingOptions,
) -> (candidates: Vec<Timestamp>)
    requires
        every > 0,
        safe_instant(anchor_ts@),
        safe_instant(options.curtime@),
    ensures
        instants(candidates@) == weekly_candidates(
            anchor_ts@,
            every,
            listed_weekdays(weekdays),
            options.curtime@,
        ),
        forall|i: int| 0 <= i < candidates@.len() ==> (#[trigger] candidates@[i]).fits(),
{
    let current_ts = options.curtime;
    let mut candidates: Vec<Timestamp> = Vec::new();
    proof {
        lemma_period_bound(every);
    }
    let single = match weekdays {
        Some(list) => list.len() == 0,
        None => true,
    };
    if single {
        proof {
            lemma_next_periodic_bound(anchor_ts@, period_ms(every, WEEK_MILLIS), current_ts@);
        }
        candidates.push(bring_wk_anchor_forward(current_ts, anchor_ts, every));
        proof {
            assert(instants(candidates@) =~= weekly_candidates(
                anchor_ts@,
                every,
                listed_weekdays(weekdays),
                options.curtime@,
            ));
        }
        return candidates;
    }
    let list: &Vec<StConstWeekday> = match weekdays {
        Some(list) => list,
        None => {
            return candidates;
        },
    };
    let mut i: usize = 0;
    while i < list.len()
        invariant
            i <= list.len(),
            every > 0,
            safe_instant(anchor_ts@),
            safe_instant(current_ts@),
            0 < period_ms(every, WEEK_MILLIS) <= 0xffff_ffff * 604_800_000,
            candidates@.len() == i,
            forall|k: int|
                0 <= k < i ==> (#[trigger] candidates@[k]) == Timestamp::Millis(
                    next_periodic(
                        shifted_to_weekday(anchor_ts@, list@[k].value()),
                        period_ms(every, WEEK_MILLIS),
                        current_ts@,
                    ) as i64,
                ) && i64::MIN <= next_periodic(
                    shifted_to_weekday(anchor_ts@, list@[k].value()),
                    period_ms(every, WEEK_MILLIS),
                    current_ts@,
                ) <= i64::MAX,
        decreases list.len() - i,
    {
        let w = list[i].to_value();
        let moved = set_day_of_week(&anchor_ts, &w);
        proof {
            lemma_next_periodic_bound(moved@, period_ms(every, WEEK_MILLIS), current_ts@);
        }
        candidates.push(bring_wk_anchor_forward(current_ts, moved, every));
        i += 1;
    }
    proof {
        assert(instants(candidates@) =~= weekly_candidates(
            anchor_ts@,
            every,
            listed_weekdays(weekdays),
            options.curtime@,
        ));
    }
    candidates
}

/// A period of whole hours, days or weeks is positive and one that a timestamp holds with
/// room to spare.
pub proof fn lemma_period_bound(every: u32)
    requires
        every > 0,
    ensures
        0 < period_ms(every, HOUR_MILLIS) <= 0xffff_ffff * 604_800_000,
        0 < period_ms(every, DAY_MILLIS) <= 0xffff_ffff * 604_800_000,
        0 < period_ms(every, WEEK_MILLIS) <= 0xffff_ffff * 604_800_000,
{
}

/// The next firing of a periodic rule lies less than a period after the later of the anchor
/// and `now`, and after the anchor.
pub proof fn lemma_next_periodic_bound(anchor: int, period: int, now: int)
    requires
        period > 0,
    ensures
        next_periodic(anchor, period, now) > anchor,
        next_periodic(anchor, period, now) >= now,
        anchor >= now ==> next_periodic(anchor, period, now) == anchor + period,
        anchor < now ==> next_periodic(anchor, period, now) < now + period,
        (next_periodic(anchor, period, now) - anchor) % period == 0,
{
    if anchor < now {
        lemma_ceil_of_positive(now - anchor, period);
        let k = quotient_ceil(now - anchor, period);
        assert((k - 1) * period == k * period - period) by (nonlinear_arith);
        assert(k * period > 0) by (nonlinear_arith)
            requires
                k >= 1,
                period > 0,
        {
        }
        vstd::arithmetic::div_mod::lemma_mod_multiples_basic(k, period);
    } else {
        vstd::arithmetic::div_mod::lemma_mod_self_0(period);
    }
}

/// The place of a month in the sequence of all months: twelve to the year.
pub open spec fn month_index(year: int, month0: int) -> int {
    year * 12 + month0
}

/// How many units are left, after those from `start` to `end`, until a whole number of
/// periods of `every` units has passed since `start`; nothing where `end` is before `start`.
pub open spec fn units_remaining(every: int, start: int, end: int) -> Option<int>
    recommends
        every > 0,
{
    if end < start {
        None
    } else {
        Some((every - (end - start) % every) % every)
    }
}

/// The unit (a month or a year) to which the anchor's unit is brought forward: the first
/// unit not before that of `now` that is a whole number of periods after the anchor's; but
/// one period after the anchor's where the anchor lies after `now`.
pub open spec fn forwarded_unit(anchor_unit: int, now_unit: int, anchor_later: bool, every: int) -> int
    recommends
        every > 0,
{
    match units_remaining(every, anchor_unit, now_unit) {
        Some(remaining) => if anchor_later {
            anchor_unit + every
        } else {
            now_unit + remaining
        },
        None => anchor_unit + every,
    }
}

/// The month to which a monthly rule brings its anchor forward.
pub open spec fn forwarded_month(anchor: int, now: int, every: int) -> int
    recommends
        representable(anchor),
        representable(now),
        every > 0,
{
    forwarded_unit(
        month_index(civil_of(anchor).year as int, civil_of(anchor).month0()),
        month_index(civil_of(now).year as int, civil_of(now).month0()),
        anchor > now,
        every,
    )
}

/// The year to which a yearly rule brings its anchor forward.
pub open spec fn forwarded_year(anchor: int, now: int, every: int) -> int
    recommends
        representable(anchor),
        representable(now),
        every > 0,
{
    forwarded_unit(civil_of(anchor).year as int, civil_of(now).year as int, anchor > now, every)
}

/// The instant of a day of a month at a time of day, where the date exists.
pub open spec fn civil_instant(year: int, month0: int, day: int, tod: int) -> Option<int> {
    if date_exists(year, month0, day) {
        Some(days_from_civil(year, month0, day) * day_ms() + tod)
    } else {
        None
    }
}

/// The instant of a day of the month with the given index, where the date exists.
#[verifier::opaque]
pub open spec fn month_day_instant(index: int, day: int, tod: int) -> Option<int> {
    civil_instant(index / 12, index % 12, day, tod)
}

fn get_years_remaining(every: u32, start_year: i32, end_year: i32) -> (remaining: Option<u32>)
    requires
        every > 0,
    ensures
        match remaining {
            Some(r) => units_remaining(every as int, start_year as int, end_year as int) == Some(
                r as int,
            ),
            None => units_remaining(every as int, start_year as int, end_year as int) is None,
        },
{
    if end_year < start_year {
        return None;
    }
    let years_elapsed: i64 = end_year as i64 - start_year as i64;
    let result = (every as i64 - (years_elapsed % (every as i64))) % (every as i64);
    Some(result as u32)
}

fn get_months_remaining(every: u32, start: (i32, u32), end: (i32, u32)) -> (remaining: Option<u32>)
    requires
        every > 0,
        start.1 < 12,
        end.1 < 12,
    ensures
        match remaining {
            Some(r) => units_remaining(
                every as int,
                month_index(start.0 as int, start.1 as int),
                month_index(end.0 as int, end.1 as int),
            ) == Some(r as int),
            None => units_remaining(
                every as int,
                month_index(start.0 as int, start.1 as int),
                month_index(end.0 as int, end.1 as int),
            ) is None,
        },
{
    let max_month: i64 = 12;
    // end year lt start year or (end year = start year and end month lt start month)
    if end.0 < start.0 || (end.0 == start.0 && end.1 < start.1) {
        return None;
    }
    let month_diff: i64 = end.1 as i64 - start.1 as i64;
    let year_diff: i64 = end.0 as i64 - start.0 as i64;
    let months_elapsed: i64 = month_diff + max_month * year_diff;
    let result = (every as i64 - (months_elapsed % (every as i64))) % (every as i64);
    Some(result as u32)
}

/// The month to which a monthly rule brings its anchor forward, as an index of months.
pub fn bring_mo_anchor_forward(current_ts: Timestamp, anchor_ts: Timestamp, every: u32) -> (index:
    i64)
    requires
        every > 0,
        representable(current_ts@),
        representable(anchor_ts@),
    ensures
        index == forwarded_month(anchor_ts@, current_ts@, every as int),
        -0x1_0000_0000_0000 <= index <= 0x1_0000_0000_0000,
{
    let current_dt = current_ts.to_datetime();
    let anchor_dt = anchor_ts.to_datetime();
    let (current_month, current_year) = (current_dt.month - 1, current_dt.year);
    let (anchor_month, anchor_year) = (anchor_dt.month - 1, anchor_dt.year);
    let months_remaining = get_months_remaining(
        every,
        (anchor_year, anchor_month),
        (current_year, current_month),
    );
    proof {
        lemma_representable_bound(current_ts@);
        lemma_representable_bound(anchor_ts@);
    }
    let anchor_later = anchor_ts.as_ms() > current_ts.as_ms();
    match months_remaining {
        Some(remaining) => {
            if anchor_later {
                anchor_year as i64 * 12 + anchor_month as i64 + every as i64
            } else {
                current_year as i64 * 12 + current_month as i64 + remaining as i64
            }
        },
        None => anchor_year as i64 * 12 + anchor_month as i64 + every as i64,
    }
}

/// The year to which a yearly rule brings its anchor forward.
pub fn bring_yr_anchor_forward(current_ts: Timestamp, anchor_ts: Timestamp, every: u32) -> (year:
    i64)
    requires
        every > 0,
        representable(current_ts@),
        representable(anchor_ts@),
    ensures
        year == forwarded_year(anchor_ts@, current_ts@, every as int),
        -0x1_0000_0000_0000 <= year <= 0x1_0000_0000_0000,
{
    let current_dt = current_ts.to_datetime();
    let anchor_dt = anchor_ts.to_datetime();
    let years_remaining = get_years_remaining(every, anchor_dt.year, current_dt.year);
    proof {
        lemma_representable_bound(current_ts@);
        lemma_representable_bound(anchor_ts@);
    }
    let anchor_later = anchor_ts.as_ms() > current_ts.as_ms();
    match years_remaining {
        Some(remaining) => {
            if anchor_later {
                anchor_dt.year as i64 + every as i64
            } else {
                current_dt.year as i64 + remaining as i64
            }
        },
        None => anchor_dt.year as i64 + every as i64,
    }
}

/// The year and the month of a month index, and the instant of the first day of that month
/// at the time of day of `clock`; nothing where the year lies outside the calendar.
fn month_start(index: i64, clock: &CivilDateTime) -> (r: Option<(i32, u32, i64)>)
    requires
        clock.time_exists(),
    ensures
        match r {
            Some((year, month0, first)) => year == (index as int) / 12 && month0 == (index as int)
                % 12 && MIN_YEAR <= year <= MAX_YEAR && first == days_from_civil(
                year as int,
                month0 as int,
                1,
            ) * day_ms() + clock.millis_of_day() && -8_400_000_000_000_000 < first
                < 8_400_000_000_000_000,
            None => !(MIN_YEAR <= (index as int) / 12 <= MAX_YEAR),
        },
{
    let year: i64 = match index.checked_div_euclid(12) {
        Some(year) => year,
        None => 0,
    };
    let month0: i64 = match index.checked_rem_euclid(12) {
        Some(month0) => month0,
        None => 0,
    };
    if year < MIN_YEAR as i64 || year > MAX_YEAR as i64 {
        return None;
    }
    let first_day = CivilDateTime {
        year: year as i32,
        month: month0 as u32 + 1,
        day: 1,
        hour: clock.hour,
        minute: clock.minute,
        second: clock.second,
        millisecond: clock.millisecond,
    };
    match Timestamp::checked_from_datetime(&first_day) {
        Some(first) => {
            proof {
                lemma_representable_bound(first@);
            }
            Some((year as i32, month0 as u32, first.as_ms()))
        },
        None => None,
    }
}

/// What the resolver needs to know of one month.
struct MonthFrame {
    /// The instant of the first day of the month at the time of day of the rule.
    first: i64,
    /// The number of days of the month.
    length: u32,
    /// The weekday of the first day of the month.
    first_weekday: u32,
    /// The weekday of the last day of the month.
    last_weekday: u32,
}

/// The weekday of a day that lies some days after another.
proof fn lemma_weekday_after(day: int, later: int)
    requires
        later >= 0,
    ensures
        weekday_of_day(day + later) == (weekday_of_day(day) + later) % 7,
{
}

/// The frame of the month with the given index for a rule with the time of day of `clock`;
/// nothing where the year of the month lies outside the calendar, and then no day of the
/// month has an instant.
fn month_frame(index: i64, clock: &CivilDateTime) -> (r: Option<MonthFrame>)
    requires
        clock.time_exists(),
    ensures
        match r {
            Some(f) => {
                &&& 28 <= f.length <= 31
                &&& f.length == month_length((index as int) / 12, (index as int) % 12)
                &&& f.first_weekday < 7
                &&& f.last_weekday < 7
                &&& f.first_weekday == weekday_of_day(
                    days_from_civil((index as int) / 12, (index as int) % 12, 1),
                )
                &&& f.last_weekday == weekday_of_day(
                    days_from_civil((index as int) / 12, (index as int) % 12, f.length as int),
                )
                &&& -8_400_000_000_000_000 < f.first < 8_400_000_000_000_000
                &&& forall|day: int|
                    (#[trigger] month_day_instant(index as int, day, clock.millis_of_day())) == (if 1
                        <= day <= f.length {
                        Some(f.first + (day - 1) * day_ms())
                    } else {
                        None
                    })
            },
            None => forall|day: int|
                (#[trigger] month_day_instant(index as int, day, clock.millis_of_day())) is None,
        },
{
    proof {
        reveal(month_day_instant);
    }
    let (year, month0, first) = match month_start(index, clock) {
        Some(start) => start,
        None => {
            return None;
        },
    };
    let length = get_days_in_year_month(year, month0);
    let first_weekday = get_weekday(first);
    let last_weekday = (first_weekday + length - 1) % DOW;
    proof {
        let tod = clock.millis_of_day();
        let d1 = days_from_civil(year as int, month0 as int, 1);
        assert(0 <= tod < 86_400_000);
        assert(first == d1 * 86_400_000 + tod);
        assert(day_number(first as int) == d1);
        assert(first_weekday == weekday_of_day(d1));
        lemma_weekday_after(d1, length - 1);
        assert(days_from_civil(year as int, month0 as int, length as int) == d1 + length - 1);
        assert(last_weekday == weekday_of_day(d1 + length - 1));
        assert forall|day: int|
            (#[trigger] month_day_instant(index as int, day, tod)) == (if 1 <= day <= length {
                Some(first + (day - 1) * day_ms())
            } else {
                None
            }) by {
            if 1 <= day <= length {
                assert(date_exists(year as int, month0 as int, day));
                assert(days_from_civil(year as int, month0 as int, day) == d1 + day - 1);
                assert((d1 + day - 1) * 86_400_000 + tod == first + (day - 1) * 86_400_000);
            }
        }
    }
    Some(MonthFrame { first, length, first_weekday, last_weekday })
}

/// The instants of the given days in the month with the given index, for the days that the
/// month has, in the order of the days.
pub open spec fn month_days_candidates(index: int, days: Seq<u32>, tod: int) -> Seq<int>
    decreases days.len(),
{
    if days.len() == 0 {
        Seq::empty()
    } else {
        let rest = month_days_candidates(index, days.drop_last(), tod);
        match month_day_instant(index, days.last() as int, tod) {
            Some(t) => rest.push(t),
            None => rest,
        }
    }
}

/// The first firing after `now` on one of the given days, in the first of the months
/// `first`, `first + every`, and so on that has one; the search is given up after
/// `MAX_RETRIES` further months.
pub open spec fn monthly_days_search(
    first: int,
    every: int,
    tried: int,
    days: Seq<u32>,
    tod: int,
    now: int,
) -> Result<int, TimingError>
    decreases MAX_RETRIES + 1 - tried,
{
    if tried > MAX_RETRIES {
        Err(TimingError::NonDeterministic)
    } else {
        match least_after(month_days_candidates(first + tried * every, days, tod), now) {
            Some(t) => Ok(t),
            None => monthly_days_search(first, every, tried + 1, days, tod, now),
        }
    }
}

/// The day of a month on which a weekday falls for the given time in that month, for a
/// month of `last` days whose first and last day have the weekdays `first_weekday` and
/// `last_weekday`: for `Last` the last such weekday of the month, else the first one moved on
/// by as many weeks as the ordinal says. The day may lie after the end of the month.
#[verifier::opaque]
pub open spec fn ordinal_day_in(
    last: int,
    first_weekday: int,
    last_weekday: int,
    ordinal: StOrdinals,
    weekday: int,
) -> int {
    if ordinal == StOrdinals::Last {
        last - rev_dow_offset(last_weekday, weekday)
    } else {
        1 + 7 * ordinal.value() + dow_offset(first_weekday, weekday)
    }
}

/// The day of the given month on which the weekday falls for the given time.
#[verifier::opaque]
pub open spec fn ordinal_day(year: int, month0: int, ordinal: StOrdinals, weekday: int) -> int {
    ordinal_day_in(
        month_length(year, month0),
        weekday_of_day(days_from_civil(year, month0, 1)),
        weekday_of_day(days_from_civil(year, month0, month_length(year, month0))),
        ordinal,
        weekday,
    )
}

/// The first firing after `now` on the weekday with the given ordinal, in the first of the
/// months `first`, `first + every`, and so on that has one; the search is given up after
/// `MAX_RETRIES` further months.
pub open spec fn monthly_ordinal_search(
    first: int,
    every: int,
    tried: int,
    ordinal: StOrdinals,
    weekday: int,
    tod: int,
    now: int,
) -> Result<int, TimingError>
    decreases MAX_RETRIES + 1 - tried,
{
    if tried > MAX_RETRIES {
        Err(TimingError::NonDeterministic)
    } else {
        let index = first + tried * every;
        match month_day_instant(index, ordinal_day(index / 12, index % 12, ordinal, weekday), tod) {
            Some(t) => if t > now {
                Ok(t)
            } else {
                monthly_ordinal_search(first, every, tried + 1, ordinal, weekday, tod, now)
            },
            None => monthly_ordinal_search(first, every, tried + 1, ordinal, weekday, tod, now),
        }
    }
}

/// One step of the search for a day of the month.
proof fn lemma_days_search_step(
    first: int,
    every: int,
    tried: int,
    days: Seq<u32>,
    tod: int,
    now: int,
)
    requires
        0 <= tried <= MAX_RETRIES,
    ensures
        monthly_days_search(first, every, tried, days, tod, now) == match least_after(
            month_days_candidates(first + tried * every, days, tod),
            now,
        ) {
            Some(t) => Ok::<int, TimingError>(t),
            None => monthly_days_search(first, every, tried + 1, days, tod, now),
        },
        monthly_days_search(first, every, MAX_RETRIES + 1, days, tod, now) == Err::<
            int,
            TimingError,
        >(TimingError::NonDeterministic),
{
}

/// One step of the search for a weekday with an ordinal.
proof fn lemma_ordinal_search_step(
    first: int,
    every: int,
    tried: int,
    ordinal: StOrdinals,
    weekday: int,
    tod: int,
    now: int,
)
    requires
        0 <= tried <= MAX_RETRIES,
    ensures
        monthly_ordinal_search(first, every, tried, ordinal, weekday, tod, now) == match month_day_instant(
            first + tried * every,
            ordinal_day(
                (first + tried * every) / 12,
                (first + tried * every) % 12,
                ordinal,
                weekday,
            ),
            tod,
        ) {
            Some(t) => if t > now {
                Ok::<int, TimingError>(t)
            } else {
                monthly_ordinal_search(first, every, tried + 1, ordinal, weekday, tod, now)
            },
            None => monthly_ordinal_search(first, every, tried + 1, ordinal, weekday, tod, now),
        },
        monthly_ordinal_search(first, every, MAX_RETRIES + 1, ordinal, weekday, tod, now) == Err::<
            int,
            TimingError,
        >(TimingError::NonDeterministic),
{
}

/// A month none of whose days has an instant has no candidates.
proof fn lemma_no_candidates(index: int, days: Seq<u32>, tod: int)
    requires
        forall|day: int| (#[trigger] month_day_instant(index, day, tod)) is None,
    ensures
        month_days_candidates(index, days, tod) == Seq::<int>::empty(),
    decreases days.len(),
{
    if days.len() > 0 {
        lemma_no_candidates(index, days.drop_last(), tod);
    }
}

/// The candidates of the given days in one month.
fn month_days_stamps(index: i64, days: &Vec<u32>, clock: &CivilDateTime) -> (stamps: Vec<Timestamp>)
    requires
        clock.time_exists(),
    ensures
        instants(stamps@) == month_days_candidates(index as int, days@, clock.millis_of_day()),
        forall|i: int| 0 <= i < stamps@.len() ==> (#[trigger] stamps@[i]).fits(),
{
    let mut stamps: Vec<Timestamp> = Vec::new();
    let ghost tod = clock.millis_of_day();
    let frame = match month_frame(index, clock) {
        Some(frame) => frame,
        None => {
            proof {
                lemma_no_candidates(index as int, days@, tod);
                assert(instants(stamps@) =~= Seq::<int>::empty());
            }
            return stamps;
        },
    };
    proof {
        assert(instants(stamps@) =~= Seq::<int>::empty());
        assert(days@.take(0) =~= Seq::<u32>::empty());
    }
    let mut i: usize = 0;
    while i < days.len()
        invariant
            i <= days.len(),
            28 <= frame.length <= 31,
            -8_400_000_000_000_000 < frame.first < 8_400_000_000_000_000,
            forall|day: int|
                (#[trigger] month_day_instant(index as int, day, tod)) == (if 1 <= day
                    <= frame.length {
                    Some(frame.first + (day - 1) * day_ms())
                } else {
                    None
                }),
            instants(stamps@) == month_days_candidates(index as int, days@.take(i as int), tod),
            forall|k: int| 0 <= k < stamps@.len() ==> (#[trigger] stamps@[k]).fits(),
        decreases days.len() - i,
    {
        let day = days[i];
        let ghost before = instants(stamps@);
        proof {
            assert(days@.take(i as int + 1).drop_last() =~= days@.take(i as int));
            assert(days@.take(i as int + 1).last() == day);
        }
        if day >= 1 && day <= frame.length {
            stamps.push(Timestamp::Millis(frame.first + (day as i64 - 1) * 86_400_000));
            proof {
                assert(instants(stamps@) =~= before.push(
                    (frame.first + (day - 1) * 86_400_000) as int,
                ));
            }
        }
        i += 1;
    }
    proof {
        assert(days@.take(days@.len() as int) =~= days@);
    }
    stamps
}

/// The candidates of a monthly rule on days of the month: the instants of the given days,
/// at the anchor's time of day, in the month to which the anchor is brought forward.
pub fn get_next_monthly_days_timestamp(
    anchor_ts: Timestamp,
    every: u32,
    days: &Vec<u32>,
    options: &TimingOptions,
) -> (candidates: Vec<Timestamp>)
    requires
        every > 0,
        representable(anchor_ts@),
        representable(options.curtime@),
    ensures
        instants(candidates@) == month_days_candidates(
            forwarded_month(anchor_ts@, options.curtime@, every as int),
            days@,
            time_of_day(anchor_ts@),
        ),
        forall|i: int| 0 <= i < candidates@.len() ==> (#[trigger] candidates@[i]).fits(),
{
    let forwarded = bring_mo_anchor_forward(options.curtime, anchor_ts, every);
    let clock = anchor_ts.to_datetime();
    proof {
        lemma_instant_parts(clock);
    }
    month_days_stamps(forwarded, days, &clock)
}

/// The next firing of a monthly rule on days of the month.
pub fn get_next_monthly_days_schedule(
    anchor_ts: Timestamp,
    every: u32,
    days: &Vec<u32>,
    options: &TimingOptions,
) -> (next: Result<Timestamp, TimingError>)
    requires
        every > 0,
        representable(anchor_ts@),
        representable(options.curtime@),
    ensures
        match next {
            Ok(t) => monthly_days_search(
                forwarded_month(anchor_ts@, options.curtime@, every as int),
                every as int,
                0,
                days@,
                time_of_day(anchor_ts@),
                options.curtime@,
            ) == Ok::<int, TimingError>(t@) && t.fits(),
            Err(e) => monthly_days_search(
                forwarded_month(anchor_ts@, options.curtime@, every as int),
                every as int,
                0,
                days@,
                time_of_day(anchor_ts@),
                options.curtime@,
            ) == Err::<int, TimingError>(e) && (e is NonDeterministic
                || e is MissingExpression),
        },
{
    let first = bring_mo_anchor_forward(options.curtime, anchor_ts, every);
    let clock = anchor_ts.to_datetime();
    let now = options.curtime;
    proof {
        lemma_instant_parts(clock);
        lemma_representable_bound(now@);
    }
    let ghost tod = time_of_day(anchor_ts@);
    let mut tried: u32 = 0;
    while tried <= MAX_RETRIES
        invariant
            tried <= MAX_RETRIES + 1,
            clock.time_exists(),
            clock.millis_of_day() == tod,
            tod == time_of_day(anchor_ts@),
            now.fits(),
            now == options.curtime,
            first == forwarded_month(anchor_ts@, options.curtime@, every as int),
            -0x1_0000_0000_0000 <= first <= 0x1_0000_0000_0000,
            monthly_days_search(first as int, every as int, 0, days@, tod, now@)
                == monthly_days_search(first as int, every as int, tried as int, days@, tod, now@),
        decreases MAX_RETRIES + 1 - tried,
    {
        assert(tried * every <= 100 * 0xffff_ffff) by (nonlinear_arith)
            requires
                tried <= 100,
                every <= 0xffff_ffff,
        {
        }
        let index = first + tried as i64 * every as i64;
        let stamps = month_days_stamps(index, days, &clock);
        proof {
            lemma_days_search_step(first as int, every as int, tried as int, days@, tod, now@);
        }
        match earliest_after(&stamps, &now) {
            Some(t) => {
                return Ok(t);
            },
            None => {},
        }
        tried += 1;
    }
    Err(TimingError::NonDeterministic)
}

/// The next firing of a monthly rule on the weekday with the given ordinal.
pub fn get_next_monthly_ordinal_timestamp(
    anchor_ts: Timestamp,
    every: u32,
    ordinals: (StOrdinals, StConstWeekday),
    options: &TimingOptions,
) -> (next: Result<Timestamp, TimingError>)
    requires
        every > 0,
        representable(anchor_ts@),
        representable(options.curtime@),
    ensures
        match next {
            Ok(t) => monthly_ordinal_search(
                forwarded_month(anchor_ts@, options.curtime@, every as int),
                every as int,
                0,
                ordinals.0,
                ordinals.1.value(),
                time_of_day(anchor_ts@),
                options.curtime@,
            ) == Ok::<int, TimingError>(t@) && t.fits(),
            Err(e) => monthly_ordinal_search(
                forwarded_month(anchor_ts@, options.curtime@, every as int),
                every as int,
                0,
                ordinals.0,
                ordinals.1.value(),
                time_of_day(anchor_ts@),
                options.curtime@,
            ) == Err::<int, TimingError>(e) && (e is NonDeterministic
                || e is MissingExpression),
        },
{
    let first = bring_mo_anchor_forward(options.curtime, anchor_ts, every);
    let clock = anchor_ts.to_datetime();
    proof {
        lemma_instant_parts(clock);
        lemma_representable_bound(options.curtime@);
    }
    let now = options.curtime.as_ms();
    let (ordinal, weekday) = ordinals;
    let target = weekday.to_value();
    let ghost tod = time_of_day(anchor_ts@);
    let mut tried: u32 = 0;
    while tried <= MAX_RETRIES
        invariant
            tried <= MAX_RETRIES + 1,
            clock.time_exists(),
            clock.millis_of_day() == tod,
            tod == time_of_day(anchor_ts@),
            0 <= tod < day_ms(),
            target == weekday.value(),
            ordinals == (ordinal, weekday),
            now == options.curtime@,
            first == forwarded_month(anchor_ts@, options.curtime@, every as int),
            -0x1_0000_0000_0000 <= first <= 0x1_0000_0000_0000,
            monthly_ordinal_search(first as int, every as int, 0, ordinal, target as int, tod, now as int)
                == monthly_ordinal_search(
                first as int,
                every as int,
                tried as int,
                ordinal,
                target as int,
                tod,
                now as int,
            ),
        decreases MAX_RETRIES + 1 - tried,
    {
        assert(tried * every <= 100 * 0xffff_ffff) by (nonlinear_arith)
            requires
                tried <= 100,
                every <= 0xffff_ffff,
        {
        }
        let index = first + tried as i64 * every as i64;
        proof {
            lemma_ordinal_search_step(
                first as int,
                every as int,
                tried as int,
                ordinal,
                target as int,
                tod,
                now as int,
            );
        }
        match ordinal_stamp(index, ordinal, target, &clock) {
            Some(t) => {
                if t > now {
                    return Ok(Timestamp::Millis(t));
                }
            },
            None => {},
        }
        tried += 1;
    }
    Err(TimingError::NonDeterministic)
}

/// The instant of the weekday with the given ordinal in one month, where the month has it.
fn ordinal_stamp(index: i64, ordinal: StOrdinals, weekday: u32, clock: &CivilDateTime) -> (stamp:
    Option<i64>)
    requires
        clock.time_exists(),
        weekday < 7,
    ensures
        match stamp {
            Some(t) => month_day_instant(
                index as int,
                ordinal_day((index as int) / 12, (index as int) % 12, ordinal, weekday as int),
                clock.millis_of_day(),
            ) == Some(t as int),
            None => month_day_instant(
                index as int,
                ordinal_day((index as int) / 12, (index as int) % 12, ordinal, weekday as int),
                clock.millis_of_day(),
            ) is None,
        },
{
    proof {
        reveal(ordinal_day);
    }
    let frame = match month_frame(index, clock) {
        Some(frame) => frame,
        None => {
            return None;
        },
    };
    let day = pick_ordinal_day(
        frame.length,
        frame.first_weekday,
        frame.last_weekday,
        ordinal,
        weekday,
    );
    if day <= frame.length {
        Some(frame.first + (day as i64 - 1) * 86_400_000)
    } else {
        None
    }
}

/// The weekday, from Monday (1) to Friday (5), that is the working day with the given
/// ordinal value of a month whose first day has the weekday `first`: where the month begins
/// on a working day the count starts with that day, else with the Monday after.
pub open spec fn nth_working_weekday(first: int, ordinal: int) -> int {
    if 1 <= first <= 5 {
        (first - 1 + ordinal) % 5 + 1
    } else {
        ordinal + 1
    }
}

/// Days from the first of a month, whose weekday is `first`, to the day of the weekend with
/// the given ordinal value: the Saturdays and Sundays of the month, counted in their order.
pub open spec fn nth_weekend_offset(first: int, ordinal: int) -> int {
    let sun = dow_offset(first, 0);
    let sat = dow_offset(first, 6);
    if sat < sun {
        sat + 7 * (ordinal / 2) + ordinal % 2
    } else {
        sun + 7 * ((ordinal + 1) / 2) - ordinal % 2
    }
}

/// Days back from a day with the weekday `last` to the nearest working day: one from a
/// Saturday, two from a Sunday.
pub open spec fn working_day_setback(last: int) -> int {
    if 1 <= last <= 5 {
        0
    } else {
        2 - (7 - last) % 7
    }
}

/// Days back from a day with the weekday `last` to the nearest day of the weekend.
pub open spec fn weekend_setback(last: int) -> int {
    if rev_dow_offset(last, 0) < rev_dow_offset(last, 6) {
        rev_dow_offset(last, 0)
    } else {
        rev_dow_offset(last, 6)
    }
}

/// The day of a month on which a yearly rule fires in that month, for a month of `last` days
/// whose first and last day have the weekdays `first_weekday` and `last_weekday`: the last
/// day of the month where the rule names no weekday, else the day that the ordinal and the
/// weekday pick. The day may lie after the end of the month.
#[verifier::opaque]
pub open spec fn yearly_day_in(
    last: int,
    first_weekday: int,
    last_weekday: int,
    on: Option<(StOrdinals, StWeekday)>,
) -> int {
    match on {
        None => last,
        Some((ordinal, weekday)) => match weekday {
            StWeekday::Const(w) => ordinal_day_in(
                last,
                first_weekday,
                last_weekday,
                ordinal,
                w.value(),
            ),
            StWeekday::Var(StVarWeekday::Day) => if ordinal == StOrdinals::Last {
                last
            } else {
                1 + ordinal.value()
            },
            StWeekday::Var(StVarWeekday::Weekday) => if ordinal == StOrdinals::Last {
                last - working_day_setback(last_weekday)
            } else {
                1 + dow_offset(first_weekday, nth_working_weekday(first_weekday, ordinal.value()))
            },
            StWeekday::Var(StVarWeekday::Weekend) => if ordinal == StOrdinals::Last {
                last - weekend_setback(last_weekday)
            } else {
                1 + nth_weekend_offset(first_weekday, ordinal.value())
            },
        },
    }
}

/// The day of the given month on which a yearly rule fires in that month.
#[verifier::opaque]
pub open spec fn yearly_day(year: int, month0: int, on: Option<(StOrdinals, StWeekday)>) -> int {
    yearly_day_in(
        month_length(year, month0),
        weekday_of_day(days_from_civil(year, month0, 1)),
        weekday_of_day(days_from_civil(year, month0, month_length(year, month0))),
        on,
    )
}

/// A yearly rule without a weekday fires on the last day of the month, and one with a
/// constant weekday on the day of that weekday with its ordinal.
proof fn lemma_yearly_day_cases(
    last: int,
    first_weekday: int,
    last_weekday: int,
    on: Option<(StOrdinals, StWeekday)>,
)
    ensures
        on is None ==> yearly_day_in(last, first_weekday, last_weekday, on) == last,
        on matches Some((ordinal, StWeekday::Const(w))) ==> yearly_day_in(
            last,
            first_weekday,
            last_weekday,
            on,
        ) == ordinal_day_in(last, first_weekday, last_weekday, ordinal, w.value()),
{
    reveal(yearly_day_in);
}

/// The day on which the weekday with the given ordinal falls in a month, which may lie
/// after its end.
fn pick_ordinal_day(
    length: u32,
    first_weekday: u32,
    last_weekday: u32,
    ordinal: StOrdinals,
    weekday: u32,
) -> (day: u32)
    requires
        28 <= length <= 31,
        first_weekday < 7,
        last_weekday < 7,
    ensures
        day == ordinal_day_in(
            length as int,
            first_weekday as int,
            last_weekday as int,
            ordinal,
            weekday as int,
        ),
        1 <= day <= 42,
{
    proof {
        reveal(ordinal_day_in);
    }
    match ordinal {
        StOrdinals::Last => length - get_rev_dow_offset(last_weekday, weekday),
        _ => 1 + DOW * ordinal.to_value() + get_dow_offset(first_weekday, weekday),
    }
}

/// The day on which a rule with a variable weekday fires in a month, which may lie after
/// its end.
fn pick_variable_day(
    length: u32,
    first_weekday: u32,
    last_weekday: u32,
    ordinal: StOrdinals,
    weekday: StVarWeekday,
) -> (day: u32)
    requires
        28 <= length <= 31,
        first_weekday < 7,
        last_weekday < 7,
    ensures
        day == yearly_day_in(
            length as int,
            first_weekday as int,
            last_weekday as int,
            Some((ordinal, StWeekday::Var(weekday))),
        ),
        1 <= day <= 42,
{
    proof {
        reveal(yearly_day_in);
    }
    match weekday {
        StVarWeekday::Day => match ordinal {
            StOrdinals::Last => length,
            _ => 1 + ordinal.to_value(),
        },
        StVarWeekday::Weekday => match ordinal {
            StOrdinals::Last => {
                if last_weekday > 0 && last_weekday < 6 {
                    length
                } else {
                    length - (2 - ((DOW - last_weekday) % DOW))
                }
            },
            _ => {
                let target = if first_weekday >= 1 && first_weekday <= 5 {
                    (first_weekday - 1 + ordinal.to_value()) % 5 + 1
                } else {
                    ordinal.to_value() + 1
                };
                1 + get_dow_offset(first_weekday, target)
            },
        },
        StVarWeekday::Weekend => match ordinal {
            StOrdinals::Last => {
                let sun_offset_rev = get_rev_dow_offset(last_weekday, 0);
                let sat_offset_rev = get_rev_dow_offset(last_weekday, 6);
                if sun_offset_rev < sat_offset_rev {
                    length - sun_offset_rev
                } else {
                    length - sat_offset_rev
                }
            },
            _ => {
                let value = ordinal.to_value();
                let sun = get_dow_offset(first_weekday, 0);
                let sat = get_dow_offset(first_weekday, 6);
                if sat < sun {
                    1 + sat + DOW * (value / 2) + value % 2
                } else {
                    1 + sun + DOW * ((value + 1) / 2) - value % 2
                }
            },
        },
    }
}

/// The candidates of a yearly rule in one year: for each month of the rule the instant of
/// the day on which the rule fires in that month, or nothing where the month has no such
/// day.
pub open spec fn yearly_candidates(
    year: int,
    months: Seq<StMonth>,
    on: Option<(StOrdinals, StWeekday)>,
    tod: int,
) -> Seq<Option<int>> {
    Seq::new(
        months.len(),
        |i: int|
            civil_instant(year, months[i].value(), yearly_day(year, months[i].value(), on), tod),
    )
}

/// The candidates that exist, in their order.
pub open spec fn existing(candidates: Seq<Option<int>>) -> Seq<int>
    decreases candidates.len(),
{
    if candidates.len() == 0 {
        Seq::empty()
    } else {
        let rest = existing(candidates.drop_last());
        match candidates.last() {
            Some(t) => rest.push(t),
            None => rest,
        }
    }
}

/// The first firing after `now` of a yearly rule, in the first of the years `first`,
/// `first + every`, and so on that has one. A year in which no month has a candidate ends
/// the search; it is also given up after `MAX_RETRIES` further years.
pub open spec fn yearly_search(
    first: int,
    every: int,
    tried: int,
    months: Seq<StMonth>,
    on: Option<(StOrdinals, StWeekday)>,
    tod: int,
    now: int,
) -> Result<int, TimingError>
    decreases MAX_RETRIES + 1 - tried,
{
    if tried > MAX_RETRIES {
        Err(TimingError::NonDeterministic)
    } else {
        let values = existing(yearly_candidates(first + tried * every, months, on, tod));
        match least_after(values, now) {
            Some(t) => Ok(t),
            None => if values.len() == 0 {
                Err(TimingError::NonDeterministic)
            } else {
                yearly_search(first, every, tried + 1, months, on, tod, now)
            },
        }
    }
}

/// One step of the search of a yearly rule.
proof fn lemma_yearly_search_step(
    first: int,
    every: int,
    tried: int,
    months: Seq<StMonth>,
    on: Option<(StOrdinals, StWeekday)>,
    tod: int,
    now: int,
)
    requires
        0 <= tried <= MAX_RETRIES,
    ensures
        yearly_search(first, every, tried, months, on, tod, now) == match least_after(
            existing(yearly_candidates(first + tried * every, months, on, tod)),
            now,
        ) {
            Some(t) => Ok::<int, TimingError>(t),
            None => if existing(
                yearly_candidates(first + tried * every, months, on, tod),
            ).len() == 0 {
                Err::<int, TimingError>(TimingError::NonDeterministic)
            } else {
                yearly_search(first, every, tried + 1, months, on, tod, now)
            },
        },
        yearly_search(first, every, MAX_RETRIES + 1, months, on, tod, now) == Err::<
            int,
            TimingError,
        >(TimingError::NonDeterministic),
{
}

/// What a list of results holds: the instant of each success, nothing for a failure.
pub open spec fn outcomes(results: Seq<Result<Timestamp, TimingError>>) -> Seq<Option<int>> {
    results.map_values(
        |r: Result<Timestamp, TimingError>|
            match r {
                Ok(t) => Some(t@),
                Err(_) => None,
            },
    )
}

/// The instant of a day of a month of a year is that of the day in the month with the index
/// of that month.
proof fn lemma_month_of_year(year: int, month0: int, day: int, tod: int)
    requires
        0 <= month0 < 12,
    ensures
        (year * 12 + month0) / 12 == year,
        (year * 12 + month0) % 12 == month0,
        civil_instant(year, month0, day, tod) == month_day_instant(year * 12 + month0, day, tod),
{
    reveal(month_day_instant);
}

/// The instant on which a yearly rule fires in one month of one year, where the month has
/// such a day.
fn yearly_stamp(
    year: i64,
    month: StMonth,
    on: Option<(StOrdinals, StWeekday)>,
    clock: &CivilDateTime,
) -> (stamp: Option<i64>)
    requires
        clock.time_exists(),
        -0x1_0000_0000_0000 <= year <= 0x1_0000_0000_0000,
    ensures
        match stamp {
            Some(t) => civil_instant(
                year as int,
                month.value(),
                yearly_day(year as int, month.value(), on),
                clock.millis_of_day(),
            ) == Some(t as int),
            None => civil_instant(
                year as int,
                month.value(),
                yearly_day(year as int, month.value(), on),
                clock.millis_of_day(),
            ) is None,
        },
{
    proof {
        reveal(yearly_day);
        lemma_month_of_year(
            year as int,
            month.value(),
            yearly_day(year as int, month.value(), on),
            clock.millis_of_day(),
        );
    }
    let index = year * 12 + month.to_value() as i64;
    let frame = match month_frame(index, clock) {
        Some(frame) => frame,
        None => {
            return None;
        },
    };
    proof {
        lemma_yearly_day_cases(
            frame.length as int,
            frame.first_weekday as int,
            frame.last_weekday as int,
            on,
        );
    }
    let day: u32 = match on {
        None => frame.length,
        Some((ordinal, StWeekday::Const(w))) => pick_ordinal_day(
            frame.length,
            frame.first_weekday,
            frame.last_weekday,
            ordinal,
            w.to_value(),
        ),
        Some((ordinal, StWeekday::Var(v))) => pick_variable_day(
            frame.length,
            frame.first_weekday,
            frame.last_weekday,
            ordinal,
            v,
        ),
    };
    if day >= 1 && day <= frame.length {
        Some(frame.first + (day as i64 - 1) * 86_400_000)
    } else {
        None
    }
}

/// The candidates of a yearly rule in one year, one for each month of the rule. A month that
/// has no day for the rule gives `NonDeterministic`.
fn year_candidates(
    year: i64,
    months: &Vec<StMonth>,
    on: Option<(StOrdinals, StWeekday)>,
    clock: &CivilDateTime,
) -> (results: Vec<Result<Timestamp, TimingError>>)
    requires
        clock.time_exists(),
        -0x1_0000_0000_0000 <= year <= 0x1_0000_0000_0000,
    ensures
        outcomes(results@) == yearly_candidates(year as int, months@, on, clock.millis_of_day()),
        forall|i: int|
            0 <= i < results@.len() ==> match #[trigger] results@[i] {
                Ok(t) => t.fits(),
                Err(e) => e == TimingError::NonDeterministic,
            },
{
    let mut results: Vec<Result<Timestamp, TimingError>> = Vec::new();
    let mut i: usize = 0;
    let ghost tod = clock.millis_of_day();
    while i < months.len()
        invariant
            i <= months.len(),
            clock.time_exists(),
            tod == clock.millis_of_day(),
            -0x1_0000_0000_0000 <= year <= 0x1_0000_0000_0000,
            results@.len() == i,
            forall|k: int|
                0 <= k < i ==> (match #[trigger] results@[k] {
                    Ok(t) => t.fits() && Some(t@) == yearly_candidates(
                        year as int,
                        months@,
                        on,
                        tod,
                    )[k],
                    Err(e) => e == TimingError::NonDeterministic && yearly_candidates(
                        year as int,
                        months@,
                        on,
                        tod,
                    )[k] is None,
                }),
        decreases months.len() - i,
    {
        match yearly_stamp(year, months[i], on, clock) {
            Some(t) => results.push(Ok(Timestamp::Millis(t))),
            None => results.push(Err(TimingError::NonDeterministic)),
        }
        i += 1;
    }
    proof {
        assert(outcomes(results@) =~= yearly_candidates(year as int, months@, on, tod));
    }
    results
}

/// The instants of the results that are no failures, in their order.
fn surviving(results: &Vec<Result<Timestamp, TimingError>>) -> (stamps: Vec<Timestamp>)
    requires
        forall|i: int|
            0 <= i < results@.len() ==> ((#[trigger] results@[i]) matches Ok(t) ==> t.fits()),
    ensures
        instants(stamps@) == existing(outcomes(results@)),
        forall|i: int| 0 <= i < stamps@.len() ==> (#[trigger] stamps@[i]).fits(),
{
    let mut stamps: Vec<Timestamp> = Vec::new();
    let mut i: usize = 0;
    proof {
        assert(outcomes(results@).take(0) =~= Seq::<Option<int>>::empty());
        assert(instants(stamps@) =~= Seq::<int>::empty());
    }
    while i < results.len()
        invariant
            i <= results.len(),
            forall|k: int|
                0 <= k < results@.len() ==> ((#[trigger] results@[k]) matches Ok(t) ==> t.fits()),
            instants(stamps@) == existing(outcomes(results@).take(i as int)),
            forall|k: int| 0 <= k < stamps@.len() ==> (#[trigger] stamps@[k]).fits(),
        decreases results.len() - i,
    {
        let ghost before = instants(stamps@);
        proof {
            assert(outcomes(results@).take(i as int + 1).drop_last() =~= outcomes(results@).take(
                i as int,
            ));
        }
        match &results[i] {
            Ok(t) => {
                stamps.push(*t);
                proof {
                    assert(instants(stamps@) =~= before.push(t@));
                }
            },
            Err(_) => {},
        }
        i += 1;
    }
    proof {
        assert(outcomes(results@).take(results@.len() as int) =~= outcomes(results@));
    }
    stamps
}

/// The candidates of a yearly rule in the year to which the anchor is brought forward, one
/// for each month of the rule.
pub fn get_next_yearly_timestamp(
    anchor_ts: Timestamp,
    every: u32,
    months: &Vec<StMonth>,
    ordinals: Option<(StOrdinals, StWeekday)>,
    options: &TimingOptions,
) -> (results: Vec<Result<Timestamp, TimingError>>)
    requires
        every > 0,
        representable(anchor_ts@),
        representable(options.curtime@),
    ensures
        outcomes(results@) == yearly_candidates(
            forwarded_year(anchor_ts@, options.curtime@, every as int),
            months@,
            ordinals,
            time_of_day(anchor_ts@),
        ),
        forall|i: int|
            0 <= i < results@.len() ==> match #[trigger] results@[i] {
                Ok(t) => t.fits(),
                Err(e) => e == TimingError::NonDeterministic,
            },
{
    let forwarded_year = bring_yr_anchor_forward(options.curtime, anchor_ts, every);
    let clock = anchor_ts.to_datetime();
    proof {
        lemma_instant_parts(clock);
    }
    year_candidates(forwarded_year, months, ordinals, &clock)
}

/// The next firing of a weekly rule. A rule without weekdays is a periodic rule. Of a rule
/// with weekdays it is the least candidate after `now`; where no candidate lies after `now`,
/// the least one taken a week on.
pub open spec fn weekly_next(anchor: int, every: u32, weekdays: Seq<StConstWeekday>, now: int) -> int {
    if weekdays.len() == 0 {
        next_periodic(anchor, period_ms(every, WEEK_MILLIS), now)
    } else {
        match least_after(weekly_candidates(anchor, every, weekdays, now), now) {
            Some(t) => t,
            None => least_after(
                weekly_candidates(anchor, every, weekdays, now + WEEK_MILLIS),
                now,
            )->0,
        }
    }
}

/// The next firing of a monthly rule: on the weekday with an ordinal where the rule names
/// one, else on one of its days; a rule with neither is missing its expression.
pub open spec fn monthly_next(
    anchor: int,
    every: u32,
    days: Option<Seq<u32>>,
    ordinals: Option<(StOrdinals, StConstWeekday)>,
    now: int,
) -> Result<int, TimingError> {
    match ordinals {
        Some((ordinal, weekday)) => monthly_ordinal_search(
            forwarded_month(anchor, now, every as int),
            every as int,
            0,
            ordinal,
            weekday.value(),
            time_of_day(anchor),
            now,
        ),
        None => match days {
            Some(list) => if list.len() > 0 {
                monthly_days_search(
                    forwarded_month(anchor, now, every as int),
                    every as int,
                    0,
                    list,
                    time_of_day(anchor),
                    now,
                )
            } else {
                Err(TimingError::MissingExpression)
            },
            None => Err(TimingError::MissingExpression),
        },
    }
}

/// The next firing of a yearly rule; a rule without months is missing its expression.
pub open spec fn yearly_next(
    anchor: int,
    every: u32,
    months: Seq<StMonth>,
    on: Option<(StOrdinals, StWeekday)>,
    now: int,
) -> Result<int, TimingError> {
    if months.len() == 0 {
        Err(TimingError::MissingExpression)
    } else {
        yearly_search(
            forwarded_year(anchor, now, every as int),
            every as int,
            0,
            months,
            on,
            time_of_day(anchor),
            now,
        )
    }
}

/// An instant within the reach of the resolver: some 36 million years either side of the
/// epoch.
pub open spec fn in_reach(millis: int) -> bool {
    -0x1000_0000_0000_0000 <= millis <= 0x1000_0000_0000_0000
}

/// Whatever the candidates of a weekly rule are taken from, none lies before that instant.
proof fn lemma_weekly_candidates_bound(
    anchor: int,
    every: u32,
    weekdays: Seq<StConstWeekday>,
    from: int,
)
    requires
        every > 0,
    ensures
        weekly_candidates(anchor, every, weekdays, from).len() > 0,
        forall|i: int|
            0 <= i < weekly_candidates(anchor, every, weekdays, from).len()
                ==> #[trigger] weekly_candidates(anchor, every, weekdays, from)[i] >= from,
{
    lemma_period_bound(every);
    let list = weekly_candidates(anchor, every, weekdays, from);
    assert forall|i: int| 0 <= i < list.len() implies #[trigger] list[i] >= from by {
        if weekdays.len() == 0 {
            lemma_next_periodic_bound(anchor, period_ms(every, WEEK_MILLIS), from);
        } else {
            lemma_next_periodic_bound(
                shifted_to_weekday(anchor, weekdays[i].value()),
                period_ms(every, WEEK_MILLIS),
                from,
            );
        }
    }
}

/// The next firing of a weekly rule.
pub fn next_weekly_timestamp(
    anchor: Timestamp,
    every: u32,
    weekdays: Option<&Vec<StConstWeekday>>,
    options: &TimingOptions,
) -> (next: Timestamp)
    requires
        every > 0,
        in_reach(anchor@),
        in_reach(options.curtime@),
    ensures
        next@ == weekly_next(anchor@, every, listed_weekdays(weekdays), options.curtime@),
        next.fits(),
        next@ >= options.curtime@,
        anchor@ <= options.curtime@ ==> next@ > anchor@,
        listed_weekdays(weekdays).len() > 0 ==> next@ > options.curtime@,
{
    let current_ts = options.curtime;
    let listed = match weekdays {
        Some(list) => list.len() > 0,
        None => false,
    };
    if !listed {
        proof {
            lemma_period_bound(every);
            lemma_next_periodic_bound(anchor@, period_ms(every, WEEK_MILLIS), current_ts@);
        }
        return bring_wk_anchor_forward(current_ts, anchor, every);
    }
    proof {
        lemma_weekly_next_after(anchor@, every, listed_weekdays(weekdays), current_ts@);
    }
    let candidates = get_next_weekly_timestamp(anchor, every, weekdays, options);
    match earliest_after(&candidates, &current_ts) {
        Some(next) => next,
        None => {
            let later = TimingOptions { curtime: current_ts + Timestamp::from_weeks(1) };
            let candidates = get_next_weekly_timestamp(anchor, every, weekdays, &later);
            proof {
                lemma_weekly_candidates_bound(
                    anchor@,
                    every,
                    listed_weekdays(weekdays),
                    later.curtime@,
                );
                lemma_least_after(instants(candidates@), current_ts@);
                assert(instants(candidates@)[0] > current_ts@);
            }
            match earliest_after(&candidates, &current_ts) {
                Some(next) => next,
                None => anchor,
            }
        },
    }
}

/// The next firing of a monthly rule. A rule with neither days nor an ordinal is missing its
/// expression, whatever the anchor, the present and the number of months are.
pub fn next_monthly_schedule(
    anchor: Timestamp,
    every: u32,
    days: Option<&Vec<u32>>,
    ordinals: Option<(StOrdinals, StConstWeekday)>,
    options: &TimingOptions,
) -> (next: Result<Timestamp, TimingError>)
    requires
        (ordinals is Some || (days matches Some(list) && list@.len() > 0)) ==> every > 0
            && representable(anchor@) && representable(options.curtime@),
    ensures
        match next {
            Ok(t) => monthly_next(
                anchor@,
                every,
                match days {
                    Some(list) => Some(list@),
                    None => None,
                },
                ordinals,
                options.curtime@,
            ) == Ok::<int, TimingError>(t@) && t.fits(),
            Err(e) => monthly_next(
                anchor@,
                every,
                match days {
                    Some(list) => Some(list@),
                    None => None,
                },
                ordinals,
                options.curtime@,
            ) == Err::<int, TimingError>(e) && (e is NonDeterministic
                || e is MissingExpression),
        },
{
    if let Some(ordinals) = ordinals {
        return get_next_monthly_ordinal_timestamp(anchor, every, ordinals, options);
    }
    if let Some(days) = days {
        if days.len() > 0 {
            return get_next_monthly_days_schedule(anchor, every, days, options);
        }
    }
    Err(TimingError::MissingExpression)
}

/// The next firing of a yearly rule. A rule without months is missing its expression,
/// whatever the anchor, the present and the number of years are.
pub fn next_yearly_timestamp(
    anchor: Timestamp,
    every: u32,
    months: &Vec<StMonth>,
    ordinals: Option<(StOrdinals, StWeekday)>,
    options: &TimingOptions,
) -> (next: Result<Timestamp, TimingError>)
    requires
        months@.len() > 0 ==> every > 0 && representable(anchor@) && representable(
            options.curtime@,
        ),
    ensures
        match next {
            Ok(t) => yearly_next(anchor@, every, months@, ordinals, options.curtime@) == Ok::<
                int,
                TimingError,
            >(t@) && t.fits(),
            Err(e) => yearly_next(anchor@, every, months@, ordinals, options.curtime@) == Err::<
                int,
                TimingError,
            >(e) && (e is NonDeterministic || e is MissingExpression),
        },
{
    if months.len() == 0 {
        return Err(TimingError::MissingExpression);
    }
    let first = bring_yr_anchor_forward(options.curtime, anchor, every);
    let clock = anchor.to_datetime();
    let now = options.curtime;
    proof {
        lemma_instant_parts(clock);
        lemma_representable_bound(now@);
    }
    let ghost tod = time_of_day(anchor@);
    let mut tried: u32 = 0;
    while tried <= MAX_RETRIES
        invariant
            tried <= MAX_RETRIES + 1,
            months@.len() > 0,
            clock.time_exists(),
            clock.millis_of_day() == tod,
            tod == time_of_day(anchor@),
            now.fits(),
            now == options.curtime,
            first == forwarded_year(anchor@, options.curtime@, every as int),
            -0x1_0000_0000_0000 <= first <= 0x1_0000_0000_0000,
            yearly_search(first as int, every as int, 0, months@, ordinals, tod, now@)
                == yearly_search(first as int, every as int, tried as int, months@, ordinals, tod, now@),
        decreases MAX_RETRIES + 1 - tried,
    {
        assert(tried * every <= 100 * 0xffff_ffff) by (nonlinear_arith)
            requires
                tried <= 100,
                every <= 0xffff_ffff,
        {
        }
        let year = first + tried as i64 * every as i64;
        let results = year_candidates(year, months, ordinals, &clock);
        let stamps = surviving(&results);
        proof {
            lemma_yearly_search_step(
                first as int,
                every as int,
                tried as int,
                months@,
                ordinals,
                tod,
                now@,
            );
        }
        match earliest_after(&stamps, &now) {
            Some(t) => {
                return Ok(t);
            },
            None => {
                if stamps.len() == 0 {
                    return Err(TimingError::NonDeterministic);
                }
            },
        }
        tried += 1;
    }
    Err(TimingError::NonDeterministic)
}

/// What the search of a monthly rule on days finds lies after `now`.
pub proof fn lemma_days_search_after(
    first: int,
    every: int,
    tried: int,
    days: Seq<u32>,
    tod: int,
    now: int,
)
    requires
        0 <= tried,
    ensures
        monthly_days_search(first, every, tried, days, tod, now) matches Ok(t) ==> t > now,
    decreases MAX_RETRIES + 1 - tried,
{
    if tried <= MAX_RETRIES {
        lemma_least_after(month_days_candidates(first + tried * every, days, tod), now);
        lemma_days_search_after(first, every, tried + 1, days, tod, now);
    }
}

/// What the search of a monthly rule on a weekday with an ordinal finds lies after `now`.
pub proof fn lemma_ordinal_search_after(
    first: int,
    every: int,
    tried: int,
    ordinal: StOrdinals,
    weekday: int,
    tod: int,
    now: int,
)
    requires
        0 <= tried,
    ensures
        monthly_ordinal_search(first, every, tried, ordinal, weekday, tod, now) matches Ok(t) ==> t
            > now,
    decreases MAX_RETRIES + 1 - tried,
{
    if tried <= MAX_RETRIES {
        lemma_ordinal_search_after(first, every, tried + 1, ordinal, weekday, tod, now);
    }
}

/// What the search of a yearly rule finds lies after `now`.
pub proof fn lemma_yearly_search_after(
    first: int,
    every: int,
    tried: int,
    months: Seq<StMonth>,
    on: Option<(StOrdinals, StWeekday)>,
    tod: int,
    now: int,
)
    requires
        0 <= tried,
    ensures
        yearly_search(first, every, tried, months, on, tod, now) matches Ok(t) ==> t > now,
    decreases MAX_RETRIES + 1 - tried,
{
    if tried <= MAX_RETRIES {
        lemma_least_after(
            existing(yearly_candidates(first + tried * every, months, on, tod)),
            now,
        );
        lemma_yearly_search_after(first, every, tried + 1, months, on, tod, now);
    }
}

/// The next firing of a weekly rule lies after the anchor where the anchor is not after
/// `now`, and not before `now`; that of a rule with weekdays lies after `now`.
pub proof fn lemma_weekly_next_after(
    anchor: int,
    every: u32,
    weekdays: Seq<StConstWeekday>,
    now: int,
)
    requires
        every > 0,
    ensures
        weekly_next(anchor, every, weekdays, now) >= now,
        anchor <= now ==> weekly_next(anchor, every, weekdays, now) > anchor,
        weekdays.len() > 0 ==> weekly_next(anchor, every, weekdays, now) > now,
{
    lemma_period_bound(every);
    if weekdays.len() == 0 {
        lemma_next_periodic_bound(anchor, period_ms(every, WEEK_MILLIS), now);
    } else {
        lemma_least_after(weekly_candidates(anchor, every, weekdays, now), now);
        lemma_weekly_candidates_bound(anchor, every, weekdays, now + WEEK_MILLIS);
        let later = weekly_candidates(anchor, every, weekdays, now + WEEK_MILLIS);
        lemma_least_after(later, now);
        assert(later[0] > now);
    }
}

/// The next firing of a periodic rule keeps the phase of the anchor: for an anchor that is
/// past by no whole number of periods, it lies after `now`, a whole number of periods after
/// the anchor, namely as many as the elapsed time comes to when it is rounded up.
pub proof fn lemma_periodic_phase(anchor: int, period: int, now: int)
    requires
        period > 0,
        anchor < now,
        (now - anchor) % period != 0,
    ensures
        next_periodic(anchor, period, now) > now,
        (next_periodic(anchor, period, now) - anchor) % period == 0,
        next_periodic(anchor, period, now) - anchor == period * quotient_ceil(
            now - anchor,
            period,
        ),
{
    lemma_next_periodic_bound(anchor, period, now);
    let k = quotient_ceil(now - anchor, period);
    assert(k * period == period * k) by (nonlinear_arith);
    if next_periodic(anchor, period, now) == now {
        vstd::arithmetic::div_mod::lemma_mod_multiples_basic(k, period);
    }
}

/// The ceiling of a ratio that is a whole number is that number.
proof fn lemma_ceil_of_multiple(d: int, p: int)
    requires
        d > 0,
        p > 0,
        d % p == 0,
    ensures
        quotient_ceil(d, p) * p == d,
{
    lemma_ceil_of_positive(d, p);
    let k = quotient_ceil(d, p);
    let m = d / p;
    vstd::arithmetic::div_mod::lemma_fundamental_div_mod(d, p);
    assert(d == p * m);
    assert(m == k) by (nonlinear_arith)
        requires
            (k - 1) * p < p * m,
            p * m <= k * p,
            p > 0,
    {
    }
    assert(k * p == p * k) by (nonlinear_arith);
}

/// What it is for `t` to be the next firing of a periodic rule: it lies after the anchor and
/// not before `now`, a whole number of periods after the anchor. An anchor that is not yet
/// past is advanced by one period. One that is past is advanced by as many periods as the
/// elapsed time comes to when it is rounded up, which is less than a period after `now`. The
/// firing lies after `now` unless the anchor is past by a whole number of periods: it is then
/// `now` itself.
pub open spec fn keeps_phase(anchor: int, period: int, now: int, t: int) -> bool {
    &&& t > anchor
    &&& t >= now
    &&& (t - anchor) % period == 0
    &&& anchor >= now ==> t == anchor + period
    &&& anchor < now ==> t - anchor == period * quotient_ceil(now - anchor, period) && t < now
        + period
    &&& (anchor >= now || (now - anchor) % period != 0) ==> t > now
    &&& (anchor < now && (now - anchor) % period == 0) ==> t == now
}

/// The next firing of a periodic rule keeps the phase of the anchor, whatever the anchor, the
/// period and the present.
pub proof fn lemma_keeps_phase(anchor: int, period: int, now: int)
    requires
        period > 0,
    ensures
        keeps_phase(anchor, period, now, next_periodic(anchor, period, now)),
{
    lemma_next_periodic_bound(anchor, period, now);
    if anchor < now {
        let k = quotient_ceil(now - anchor, period);
        assert(k * period == period * k) by (nonlinear_arith);
        if (now - anchor) % period != 0 {
            lemma_periodic_phase(anchor, period, now);
        } else {
            lemma_ceil_of_multiple(now - anchor, period);
        }
    }
}

/// An instant that lies whole weeks after another has the weekday of that one.
pub proof fn lemma_weekday_after_weeks(instant: int, weeks: int)
    ensures
        weekday_of(instant + weeks * WEEK_MILLIS) == weekday_of(instant),
{
    let day = 86_400_000int;
    vstd::arithmetic::div_mod::lemma_fundamental_div_mod(instant, day);
    vstd::arithmetic::div_mod::lemma_mod_bound(instant, day);
    let q = instant / day;
    let r = instant % day;
    assert(instant + weeks * 604_800_000 == day * (q + 7 * weeks) + r) by (nonlinear_arith)
        requires
            instant == day * q + r,
            day == 86_400_000,
    {
    }
    vstd::arithmetic::div_mod::lemma_fundamental_div_mod_converse(
        instant + weeks * 604_800_000,
        day,
        q + 7 * weeks,
        r,
    );
}

/// An instant that is moved to a weekday of its week has that weekday.
pub proof fn lemma_weekday_of_shifted(instant: int, weekday: int)
    requires
        0 <= weekday < 7,
    ensures
        weekday_of(shifted_to_weekday(instant, weekday)) == weekday,
{
    let day = 86_400_000int;
    vstd::arithmetic::div_mod::lemma_fundamental_div_mod(instant, day);
    vstd::arithmetic::div_mod::lemma_mod_bound(instant, day);
    let q = instant / day;
    let r = instant % day;
    let back = weekday_of(instant) - weekday;
    assert(instant - back * day == day * (q - back) + r) by (nonlinear_arith)
        requires
            instant == day * q + r,
    {
    }
    vstd::arithmetic::div_mod::lemma_fundamental_div_mod_converse(
        instant - back * day,
        day,
        q - back,
        r,
    );
}

/// Each candidate of a weekly rule with weekdays falls on the weekday that it stands for.
proof fn lemma_weekly_candidate_weekday(
    anchor: int,
    every: u32,
    weekdays: Seq<StConstWeekday>,
    from: int,
    i: int,
)
    requires
        every > 0,
        0 <= i < weekdays.len(),
    ensures
        weekday_of(weekly_candidates(anchor, every, weekdays, from)[i]) == weekdays[i].value(),
{
    lemma_period_bound(every);
    let period = period_ms(every, WEEK_MILLIS);
    let moved = shifted_to_weekday(anchor, weekdays[i].value());
    let candidate = next_periodic(moved, period, from);
    lemma_weekday_of_shifted(anchor, weekdays[i].value());
    lemma_next_periodic_bound(moved, period, from);
    vstd::arithmetic::div_mod::lemma_fundamental_div_mod(candidate - moved, period);
    let steps = (candidate - moved) / period;
    assert(candidate == moved + (every * steps) * 604_800_000) by (nonlinear_arith)
        requires
            candidate - moved == period * steps,
            period == every * 604_800_000,
    {
    }
    lemma_weekday_after_weeks(moved, every * steps);
}

/// The next firing of a weekly rule with weekdays falls on one of its weekdays.
pub proof fn lemma_weekly_on_listed_weekday(
    anchor: int,
    every: u32,
    weekdays: Seq<StConstWeekday>,
    now: int,
)
    requires
        every > 0,
        weekdays.len() > 0,
    ensures
        exists|i: int|
            0 <= i < weekdays.len() && weekday_of(weekly_next(anchor, every, weekdays, now))
                == (#[trigger] weekdays[i]).value(),
{
    let first = weekly_candidates(anchor, every, weekdays, now);
    let second = weekly_candidates(anchor, every, weekdays, now + WEEK_MILLIS);
    lemma_least_after(first, now);
    lemma_least_after(second, now);
    lemma_weekly_candidates_bound(anchor, every, weekdays, now + WEEK_MILLIS);
    assert(second[0] > now);
    let next = weekly_next(anchor, every, weekdays, now);
    if least_after(first, now) is Some {
        let i = first.index_of(next);
        lemma_weekly_candidate_weekday(anchor, every, weekdays, now, i);
        assert(weekday_of(next) == weekdays[i].value());
    } else {
        let i = second.index_of(next);
        lemma_weekly_candidate_weekday(anchor, every, weekdays, now + WEEK_MILLIS, i);
        assert(weekday_of(next) == weekdays[i].value());
    }
}

/// The time of day that is so many milliseconds after midnight, as a date and time of the
/// given day.
pub open spec fn civil_at(year: int, month0: int, day: int, tod: int) -> CivilDateTime {
    CivilDateTime {
        year: year as i32,
        month: (month0 + 1) as u32,
        day: day as u32,
        hour: (tod / 3_600_000) as u32,
        minute: ((tod / 60_000) % 60) as u32,
        second: ((tod / 1_000) % 60) as u32,
        millisecond: (tod % 1_000) as u32,
    }
}

/// The instant of a day at a time of day is read by the calendar as that day and that time.
pub proof fn lemma_civil_instant(year: int, month0: int, day: int, tod: int)
    requires
        0 <= tod < day_ms(),
        civil_instant(year, month0, day, tod) is Some,
    ensures
        representable(civil_instant(year, month0, day, tod)->0),
        civil_of(civil_instant(year, month0, day, tod)->0) == civil_at(year, month0, day, tod),
        civil_at(year, month0, day, tod).wf(),
        civil_at(year, month0, day, tod).year == year,
        civil_at(year, month0, day, tod).month0() == month0,
        civil_at(year, month0, day, tod).day == day,
        day_number(civil_instant(year, month0, day, tod)->0) == days_from_civil(
            year,
            month0,
            day,
        ),
{
    let c = civil_at(year, month0, day, tod);
    assert(c.millis_of_day() == tod);
    lemma_civil_of(c);
    lemma_instant_parts(c);
}

/// Each candidate of a month on given days is the instant of one of the days.
proof fn lemma_month_days_candidate(index: int, days: Seq<u32>, tod: int, t: int)
    requires
        month_days_candidates(index, days, tod).contains(t),
    ensures
        exists|i: int|
            0 <= i < days.len() && month_day_instant(index, (#[trigger] days[i]) as int, tod)
                == Some(t),
    decreases days.len(),
{
    if days.len() > 0 {
        let rest = month_days_candidates(index, days.drop_last(), tod);
        let last = month_day_instant(index, days.last() as int, tod);
        let all = month_days_candidates(index, days, tod);
        let k = all.index_of(t);
        if last is Some && k == rest.len() {
            assert(days[days.len() - 1] == days.last());
        } else {
            assert(rest[k] == t);
            lemma_month_days_candidate(index, days.drop_last(), tod, t);
            let i = choose|i: int|
                0 <= i < days.drop_last().len() && month_day_instant(
                    index,
                    (#[trigger] days.drop_last()[i]) as int,
                    tod,
                ) == Some(t);
            assert(days[i] == days.drop_last()[i]);
        }
    }
}

/// What the search of a monthly rule on days finds falls on one of the days of the rule, in
/// a month that has that day.
pub proof fn lemma_monthly_on_listed_day(
    first: int,
    every: int,
    tried: int,
    days: Seq<u32>,
    tod: int,
    now: int,
)
    requires
        0 <= tried,
        0 <= tod < day_ms(),
    ensures
        monthly_days_search(first, every, tried, days, tod, now) matches Ok(t) ==> representable(t)
            && days.contains(civil_of(t).day) && civil_of(t).day <= month_length(
            civil_of(t).year as int,
            civil_of(t).month0(),
        ),
    decreases MAX_RETRIES + 1 - tried,
{
    if tried <= MAX_RETRIES {
        let index = first + tried * every;
        let candidates = month_days_candidates(index, days, tod);
        lemma_least_after(candidates, now);
        match least_after(candidates, now) {
            Some(t) => {
                lemma_month_days_candidate(index, days, tod, t);
                let i = choose|i: int|
                    0 <= i < days.len() && month_day_instant(index, (#[trigger] days[i]) as int, tod)
                        == Some(t);
                reveal(month_day_instant);
                lemma_civil_instant(index / 12, index % 12, days[i] as int, tod);
            },
            None => {
                lemma_monthly_on_listed_day(first, every, tried + 1, days, tod, now);
            },
        }
    }
}

/// The day on which a yearly rule for the last working day fires in a month is a working
/// day, and the days of the month after it are none.
proof fn lemma_last_working_day(year: int, month0: int)
    requires
        0 <= month0 < 12,
    ensures
        ({
            let day = yearly_day(
                year,
                month0,
                Some((StOrdinals::Last, StWeekday::Var(StVarWeekday::Weekday))),
            );
            &&& 1 <= day <= month_length(year, month0)
            &&& 1 <= weekday_of_day(days_from_civil(year, month0, day)) <= 5
            &&& forall|later: int|
                day < later <= month_length(year, month0) ==> {
                    let weekday = #[trigger] weekday_of_day(days_from_civil(year, month0, later));
                    weekday == 0 || weekday == 6
                }
        }),
{
    reveal(yearly_day);
    reveal(yearly_day_in);
}

/// Each candidate of a year that exists is the candidate of one of the months.
proof fn lemma_existing_candidate(candidates: Seq<Option<int>>, t: int)
    requires
        existing(candidates).contains(t),
    ensures
        exists|i: int| 0 <= i < candidates.len() && #[trigger] candidates[i] == Some(t),
    decreases candidates.len(),
{
    if candidates.len() > 0 {
        let rest = existing(candidates.drop_last());
        let all = existing(candidates);
        let k = all.index_of(t);
        if candidates.last() is Some && k == rest.len() {
            assert(candidates[candidates.len() - 1] == candidates.last());
        } else {
            assert(rest[k] == t);
            lemma_existing_candidate(candidates.drop_last(), t);
            let i = choose|i: int|
                0 <= i < candidates.drop_last().len() && #[trigger] candidates.drop_last()[i]
                    == Some(t);
            assert(candidates[i] == candidates.drop_last()[i]);
        }
    }
}

/// What the search of a yearly rule for the last working day of a month finds falls on a day
/// from Monday to Friday, and no later day of its month does.
pub proof fn lemma_yearly_last_working_day(
    first: int,
    every: int,
    tried: int,
    months: Seq<StMonth>,
    tod: int,
    now: int,
)
    requires
        0 <= tried,
        0 <= tod < day_ms(),
    ensures
        yearly_search(
            first,
            every,
            tried,
            months,
            Some((StOrdinals::Last, StWeekday::Var(StVarWeekday::Weekday))),
            tod,
            now,
        ) matches Ok(t) ==> representable(t) && 1 <= weekday_of(t) <= 5 && forall|later: int|
            civil_of(t).day < later <= month_length(civil_of(t).year as int, civil_of(t).month0())
                ==> {
                let weekday = #[trigger] weekday_of_day(
                    days_from_civil(civil_of(t).year as int, civil_of(t).month0(), later),
                );
                weekday == 0 || weekday == 6
            },
    decreases MAX_RETRIES + 1 - tried,
{
    let on = Some((StOrdinals::Last, StWeekday::Var(StVarWeekday::Weekday)));
    if tried <= MAX_RETRIES {
        let year = first + tried * every;
        let candidates = yearly_candidates(year, months, on, tod);
        let values = existing(candidates);
        lemma_least_after(values, now);
        match least_after(values, now) {
            Some(t) => {
                lemma_existing_candidate(candidates, t);
                let i = choose|i: int|
                    0 <= i < candidates.len() && #[trigger] candidates[i] == Some(t);
                let month0 = months[i].value();
                let day = yearly_day(year, month0, on);
                lemma_last_working_day(year, month0);
                lemma_civil_instant(year, month0, day, tod);
            },
            None => {
                if values.len() > 0 {
                    lemma_yearly_last_working_day(first, every, tried + 1, months, tod, now);
                }
            },
        }
    }
}

/// What is left of a number after taking out the greatest multiple of a positive number
/// that is not above it.
fn modulo(a: i32, m: i32) -> (r: i32)
    requires
        m > 0,
    ensures
        r == (a as int) % (m as int),
        0 <= r < m,
{
    match a.checked_rem_euclid(m) {
        Some(r) => r,
        None => 0,
    }
}

/// A multiple of four is a leap year unless it is a whole century that is no multiple of
/// four hundred, and no year between a multiple of four and the next is one.
proof fn lemma_leap_years_by_fours(fourth: int)
    requires
        fourth % 4 == 0,
    ensures
        leap_year(fourth) <==> !(fourth % 100 == 0 && fourth % 400 != 0),
        !leap_year(fourth + 1),
        !leap_year(fourth + 2),
        !leap_year(fourth + 3),
        (fourth + 4) % 4 == 0,
        fourth % 100 == 0 ==> leap_year(fourth + 4),
{
}

/// The first leap year after the given year.
pub fn get_next_leap_year(year: i32) -> (next: i32)
    requires
        year <= i32::MAX - 8,
    ensures
        year < next <= year + 8,
        leap_year(next as int),
        forall|y: int| year < y < next ==> !leap_year(y),
{
    let mut next_leap_year: i32 = year + 1;
    let past = modulo(next_leap_year, 4);
    if past != 0 {
        next_leap_year += 4 - past;
    }
    let ghost fourth = next_leap_year as int;
    proof {
        assert(fourth % 4 == 0);
        lemma_leap_years_by_fours(fourth - 4);
        lemma_leap_years_by_fours(fourth);
    }
    if modulo(next_leap_year, 100) == 0 && modulo(next_leap_year, 400) != 0 {
        next_leap_year += 4;
    }
    proof {
        assert forall|y: int| year < y < next_leap_year implies !leap_year(y) by {
            assert(y == fourth - 3 || y == fourth - 2 || y == fourth - 1 || y == fourth || y
                == fourth + 1 || y == fourth + 2 || y == fourth + 3);
        }
    }
    next_leap_year
}

/// Whether a year lies between two years, with or without the two themselves.
pub open spec fn year_between(year: int, start: int, end: int, inclusive: bool) -> bool {
    if inclusive {
        start <= year <= end
    } else {
        start < year < end
    }
}

/// The leap years between two years in their order, with the two themselves if `inclusive`
/// says so and without them else; none where the two years are the same.
pub fn get_leap_years_between(start_year: i32, end_year: i32, inclusive: Option<bool>) -> (leap_years:
    Vec<i32>)
    requires
        i32::MIN < start_year,
        i32::MIN < end_year <= i32::MAX - 16,
    ensures
        forall|i: int, j: int|
            0 <= i < j < leap_years@.len() ==> leap_years@[i] < leap_years@[j],
        forall|i: int|
            0 <= i < leap_years@.len() ==> leap_year(#[trigger] leap_years@[i] as int)
                && start_year != end_year && year_between(
                leap_years@[i] as int,
                start_year as int,
                end_year as int,
                inclusive == Some(true),
            ),
        forall|y: i32|
            start_year != end_year && leap_year(y as int) && year_between(
                y as int,
                start_year as int,
                end_year as int,
                inclusive == Some(true),
            ) ==> leap_years@.contains(y),
{
    let mut leap_years: Vec<i32> = vec![];
    if start_year == end_year {
        return leap_years;
    }
    let within = match inclusive {
        Some(flag) => flag,
        None => false,
    };
    // the search starts after `start` and takes in every year up to `end`
    let (start, end): (i32, i32) = if within {
        (start_year - 1, end_year)
    } else {
        (start_year, end_year - 1)
    };
    if start >= end {
        return leap_years;
    }
    let mut year: i32 = start;
    while year < end
        invariant
            start <= year <= end_year + 8,
            start < end <= end_year,
            end_year <= i32::MAX - 16,
            within == (inclusive == Some(true)),
            start == if within {
                start_year - 1
            } else {
                start_year as int
            },
            end == if within {
                end_year as int
            } else {
                end_year - 1
            },
            start_year != end_year,
            forall|i: int, j: int|
                0 <= i < j < leap_years@.len() ==> leap_years@[i] < leap_years@[j],
            forall|i: int|
                0 <= i < leap_years@.len() ==> leap_year(#[trigger] leap_years@[i] as int) && start
                    < leap_years@[i] <= year && leap_years@[i] <= end,
            forall|y: i32|
                leap_year(y as int) && start < y <= year && y <= end ==> leap_years@.contains(y),
        decreases end_year + 8 - year,
    {
        let ghost before = leap_years@;
        let ghost from = year;
        year = get_next_leap_year(year);
        if year <= end {
            leap_years.push(year);
            proof {
                assert forall|y: i32|
                    leap_year(y as int) && start < y <= year && y <= end implies leap_years@.contains(
                    y,
                ) by {
                    if y == year {
                        assert(leap_years@[leap_years@.len() - 1] == y);
                    } else {
                        assert(y <= from);
                        let k = before.index_of(y);
                        assert(leap_years@[k] == y);
                    }
                }
            }
        }
    }
    leap_years
}

/// The instant of a day in a later month is later than that of a day in an earlier month, at
/// whatever times of the two days.
proof fn lemma_months_in_order(earlier: int, day1: int, tod1: int, later: int, day2: int, tod2: int)
    requires
        earlier < later,
        0 <= tod1 < day_ms(),
        0 <= tod2 < day_ms(),
        month_day_instant(earlier, day1, tod1) is Some,
        month_day_instant(later, day2, tod2) is Some,
    ensures
        month_day_instant(earlier, day1, tod1)->0 < month_day_instant(later, day2, tod2)->0,
{
    reveal(month_day_instant);
    crate::scheduling::calendar::lemma_days_in_order(
        earlier / 12,
        earlier % 12,
        day1,
        later / 12,
        later % 12,
        day2,
    );
}

/// The instant of each of the days of a rule in a month, where the month has the day, is
/// among the candidates of the month.
proof fn lemma_month_day_is_candidate(index: int, days: Seq<u32>, tod: int, i: int)
    requires
        0 <= i < days.len(),
        month_day_instant(index, days[i] as int, tod) is Some,
    ensures
        month_days_candidates(index, days, tod).contains(
            month_day_instant(index, days[i] as int, tod)->0,
        ),
    decreases days.len(),
{
    let all = month_days_candidates(index, days, tod);
    let rest = month_days_candidates(index, days.drop_last(), tod);
    let t = month_day_instant(index, days[i] as int, tod)->0;
    if i == days.len() - 1 {
        assert(days.last() == days[i]);
        assert(all[rest.len() as int] == t);
    } else {
        assert(days.drop_last()[i] == days[i]);
        lemma_month_day_is_candidate(index, days.drop_last(), tod, i);
        let k = rest.index_of(t);
        assert(all[k] == t);
    }
}

/// What the search of a monthly rule on days finds is the first firing of the rule after
/// `now`: no day of the rule in any month of the search gives an instant that lies after
/// `now` and before it.
pub proof fn lemma_monthly_days_first(
    first: int,
    every: int,
    tried: int,
    days: Seq<u32>,
    tod: int,
    now: int,
    month: int,
    i: int,
)
    requires
        every > 0,
        0 <= tried <= month <= MAX_RETRIES,
        0 <= i < days.len(),
        0 <= tod < day_ms(),
        monthly_days_search(first, every, tried, days, tod, now) is Ok,
        month_day_instant(first + month * every, days[i] as int, tod) matches Some(u) && u > now,
    ensures
        monthly_days_search(first, every, tried, days, tod, now)->Ok_0 <= month_day_instant(
            first + month * every,
            days[i] as int,
            tod,
        )->0,
    decreases MAX_RETRIES + 1 - tried,
{
    let index = first + tried * every;
    let candidates = month_days_candidates(index, days, tod);
    let other = month_day_instant(first + month * every, days[i] as int, tod)->0;
    lemma_least_after(candidates, now);
    if month == tried {
        lemma_month_day_is_candidate(index, days, tod, i);
        let k = candidates.index_of(other);
        assert(candidates[k] == other);
    } else {
        match least_after(candidates, now) {
            Some(t) => {
                lemma_month_days_candidate(index, days, tod, t);
                let k = choose|k: int|
                    0 <= k < days.len() && month_day_instant(index, (#[trigger] days[k]) as int, tod)
                        == Some(t);
                assert(tried * every < month * every) by (nonlinear_arith)
                    requires
                        tried < month,
                        every > 0,
                {
                }
                lemma_months_in_order(
                    index,
                    days[k] as int,
                    tod,
                    first + month * every,
                    days[i] as int,
                    tod,
                );
            },
            None => {
                lemma_monthly_days_first(first, every, tried + 1, days, tod, now, month, i);
            },
        }
    }
}

/// What the search of a monthly rule on a weekday with an ordinal finds is the first firing
/// of the rule after `now`: no month of the search gives an instant that lies after `now`
/// and before it.
pub proof fn lemma_monthly_ordinal_first(
    first: int,
    every: int,
    tried: int,
    ordinal: StOrdinals,
    weekday: int,
    tod: int,
    now: int,
    month: int,
)
    requires
        every > 0,
        0 <= tried <= month <= MAX_RETRIES,
        0 <= tod < day_ms(),
        monthly_ordinal_search(first, every, tried, ordinal, weekday, tod, now) is Ok,
        month_day_instant(
            first + month * every,
            ordinal_day(
                (first + month * every) / 12,
                (first + month * every) % 12,
                ordinal,
                weekday,
            ),
            tod,
        ) matches Some(u) && u > now,
    ensures
        monthly_ordinal_search(first, every, tried, ordinal, weekday, tod, now)->Ok_0
            <= month_day_instant(
            first + month * every,
            ordinal_day(
                (first + month * every) / 12,
                (first + month * every) % 12,
                ordinal,
                weekday,
            ),
            tod,
        )->0,
    decreases MAX_RETRIES + 1 - tried,
{
    let index = first + tried * every;
    let here = month_day_instant(index, ordinal_day(index / 12, index % 12, ordinal, weekday), tod);
    if month > tried {
        if here is Some && here->0 > now {
            assert(tried * every < month * every) by (nonlinear_arith)
                requires
                    tried < month,
                    every > 0,
            {
            }
            lemma_months_in_order(
                index,
                ordinal_day(index / 12, index % 12, ordinal, weekday),
                tod,
                first + month * every,
                ordinal_day(
                    (first + month * every) / 12,
                    (first + month * every) % 12,
                    ordinal,
                    weekday,
                ),
                tod,
            );
        } else {
            lemma_monthly_ordinal_first(
                first,
                every,
                tried + 1,
                ordinal,
                weekday,
                tod,
                now,
                month,
            );
        }
    }
}

/// A candidate that exists is among the existing candidates.
proof fn lemma_candidate_exists(candidates: Seq<Option<int>>, i: int)
    requires
        0 <= i < candidates.len(),
        candidates[i] is Some,
    ensures
        existing(candidates).contains(candidates[i]->0),
    decreases candidates.len(),
{
    let all = existing(candidates);
    let rest = existing(candidates.drop_last());
    let t = candidates[i]->0;
    if i == candidates.len() - 1 {
        assert(candidates.last() == candidates[i]);
        assert(all[rest.len() as int] == t);
    } else {
        assert(candidates.drop_last()[i] == candidates[i]);
        lemma_candidate_exists(candidates.drop_last(), i);
        let k = rest.index_of(t);
        assert(all[k] == t);
    }
}

/// What the search of a yearly rule finds is the first firing of the rule after `now`: no
/// month of the rule in any year of the search gives an instant that lies after `now` and
/// before it.
pub proof fn lemma_yearly_first(
    first: int,
    every: int,
    tried: int,
    months: Seq<StMonth>,
    on: Option<(StOrdinals, StWeekday)>,
    tod: int,
    now: int,
    year: int,
    i: int,
)
    requires
        every > 0,
        0 <= tried <= year <= MAX_RETRIES,
        0 <= i < months.len(),
        0 <= tod < day_ms(),
        yearly_search(first, every, tried, months, on, tod, now) is Ok,
        yearly_candidates(first + year * every, months, on, tod)[i] matches Some(u) && u > now,
    ensures
        yearly_search(first, every, tried, months, on, tod, now)->Ok_0 <= yearly_candidates(
            first + year * every,
            months,
            on,
            tod,
        )[i]->0,
    decreases MAX_RETRIES + 1 - tried,
{
    let here = first + tried * every;
    let candidates = yearly_candidates(here, months, on, tod);
    let values = existing(candidates);
    let there = first + year * every;
    let other = yearly_candidates(there, months, on, tod)[i]->0;
    lemma_least_after(values, now);
    if year == tried {
        lemma_candidate_exists(candidates, i);
        let k = values.index_of(other);
        assert(values[k] == other);
    } else {
        match least_after(values, now) {
            Some(t) => {
                lemma_existing_candidate(candidates, t);
                let k = choose|k: int|
                    0 <= k < candidates.len() && #[trigger] candidates[k] == Some(t);
                assert(tried * every < year * every) by (nonlinear_arith)
                    requires
                        tried < year,
                        every > 0,
                {
                }
                crate::scheduling::calendar::lemma_days_in_order(
                    here,
                    months[k].value(),
                    yearly_day(here, months[k].value(), on),
                    there,
                    months[i].value(),
                    yearly_day(there, months[i].value(), on),
                );
            },
            None => {
                lemma_yearly_first(first, every, tried + 1, months, on, tod, now, year, i);
            },
        }
    }
}

} // verus!
