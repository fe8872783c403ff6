use vstd::prelude::*;

use crate::queue::priority_queue::{hands_out, lemma_dequeue_ascending};
use crate::scheduling::calendar::{
    civil_of, days_from_civil, lemma_representable_bound, month_length, representable,
    time_of_day, weekday_of, weekday_of_day,
};
use crate::scheduling::errors::{ParseError, TimingError, TimingFailure};
use crate::scheduling::frequency::{
    texts, FrequencyRule, MonthlyPick, Rule, StConstWeekday, StCustomFrequency,
    StFrequency, StFrequencyExpression, StMonth, StMonthlySubExpression, StOrdinals,
    StRegularFrequency, StVarWeekday, StWeekday,
};
use crate::scheduling::priority::{priority_rank, priority_rank_value, StPriority};
use crate::scheduling::time::{timestamp, Timestamp, DAY_MILLIS, HOUR_MILLIS, WEEK_MILLIS};
use crate::scheduling::timing::{
    earliest_after, existing, forwarded_month, forwarded_year, get_next_daily_timestamp,
    get_next_hourly_timestamp, in_reach, instants, keeps_phase, least_after,
    lemma_days_search_after, lemma_keeps_phase, lemma_least_after, lemma_monthly_on_listed_day,
    lemma_next_periodic_bound, lemma_ordinal_search_after, lemma_period_bound,
    lemma_weekly_next_after, lemma_weekly_on_listed_weekday, lemma_yearly_search_after,
    listed_weekdays, monthly_next, next_monthly_schedule, next_periodic, next_weekly_timestamp,
    next_yearly_timestamp, period_ms, weekly_next, yearly_next, TimingOptions,
};
use crate::scheduling::zone::{
    check_timezone, cron_fire, cron_next_after, known_timezone, local_instant, localize,
    parse_wall_clock, wall_clock_of, LocalInstant, WallClock,
};
use crate::traits::{strict_weak_order, Comparator, Repeating, ID};
use std::cmp::Ordering;
use vstd::std_specs::cmp::{PartialEqSpecImpl, PartialOrdSpecImpl};

verus! {

/// The format in which an anchor is written: a date and a time of day without an offset,
/// with or without a fraction of the second.
pub const ANCHOR_FORMAT: &'static str = "%Y-%m-%dT%H:%M:%S%.f";

/// A timing as a mathematical value.
pub struct TimingView {
    /// The name of the timezone.
    pub timezone: Seq<char>,
    /// The date and time of the anchor as the wall clock of the timezone shows it.
    pub naive_anchor: WallClock,
    /// The instant of the anchor, in milliseconds since the epoch.
    pub anchor: int,
    /// The instant of the next firing, in milliseconds since the epoch.
    pub deadline: int,
}

/// When an event occurs first, and when it is due next.
#[derive(Debug, PartialEq, Eq)]
pub struct Timing {
    /// The timezone information for the naive anchor which altogether makes the anchor
    timezone: String,
    /// The original time of the event
    anchor: Timestamp,
    /// The expected deadline or due time of the event
    deadline: Timestamp,
    /// The naive anchor, that is the anchor time without timezone information
    naive_anchor: WallClock,
}

impl View for Timing {
    type V = TimingView;

    closed spec fn view(&self) -> TimingView {
        TimingView {
            timezone: self.timezone@,
            naive_anchor: self.naive_anchor,
            anchor: self.anchor@,
            deadline: self.deadline@,
        }
    }
}

/// What holds of every timing: its timezone is known, its anchor is an instant of the
/// calendar, and its deadline is not before its anchor.
pub open spec fn timing_inv(t: TimingView) -> bool {
    &&& known_timezone(t.timezone)
    &&& representable(t.anchor)
    &&& t.anchor <= t.deadline
    &&& i64::MIN <= t.deadline <= i64::MAX
}

/// The instant at which the timezone puts the reading of a wall clock: the later one where
/// the clock showed the reading twice, none where it never showed it.
pub open spec fn resolved_instant(found: LocalInstant) -> Option<int> {
    match found {
        LocalInstant::Single(t) => Some(t as int),
        LocalInstant::Ambiguous(_, late) => Some(late as int),
        LocalInstant::Gap => None,
        LocalInstant::UnknownZone => None,
    }
}

/// The instant of an anchor written as `naive_anchor` in the timezone of the given name, where
/// both can be read and the instant is one of the calendar.
pub open spec fn anchor_instant(naive_anchor: Seq<char>, timezone: Seq<char>) -> Option<int> {
    if !known_timezone(timezone) {
        None
    } else {
        match wall_clock_of(naive_anchor, ANCHOR_FORMAT@) {
            Some(wall) => match resolved_instant(local_instant(timezone, wall)) {
                Some(t) => if representable(t) {
                    Some(t)
                } else {
                    None
                },
                None => None,
            },
            None => None,
        }
    }
}

/// The timing of an anchor written as `naive_anchor` in the timezone of the given name, where
/// both can be read: it is due at its anchor.
pub open spec fn anchored(naive_anchor: Seq<char>, timezone: Seq<char>) -> Option<TimingView> {
    match anchor_instant(naive_anchor, timezone) {
        Some(anchor) => Some(
            TimingView {
                timezone,
                naive_anchor: wall_clock_of(naive_anchor, ANCHOR_FORMAT@)->0,
                anchor,
                deadline: anchor,
            },
        ),
        None => None,
    }
}

/// The number of units after which a rule repeats.
pub open spec fn rule_every(rule: Rule) -> u32 {
    match rule {
        Rule::Hourly(every) => every,
        Rule::Daily(every) => every,
        Rule::Weekly(every, _) => every,
        Rule::Monthly(every, _) => every,
        Rule::Yearly(every, _, _) => every,
    }
}

/// A rule that names nothing to fire on: a monthly rule on no day of the month, or a yearly
/// rule in no month.
pub open spec fn names_nothing(rule: Rule) -> bool {
    match rule {
        Rule::Monthly(_, MonthlyPick::OnDays(days)) => days.len() == 0,
        Rule::Yearly(_, months, _) => months.len() == 0,
        _ => false,
    }
}

/// The next firing of a regular rule for an anchor when the present is `now`. A rule that
/// names nothing to fire on is missing its expression, whatever else holds of it. Of the
/// others, a rule that repeats every zero units is never met, and neither is one for a present
/// that lies out of the reach of the resolver or, for a rule by months or years, out of the
/// calendar.
#[verifier::opaque]
pub open spec fn regular_next(anchor: int, rule: Rule, now: int) -> Result<int, TimingError> {
    if names_nothing(rule) {
        Err(TimingError::MissingExpression)
    } else if rule_every(rule) == 0 || !in_reach(now) {
        Err(TimingError::NonDeterministic)
    } else {
        match rule {
            Rule::Hourly(every) => Ok(next_periodic(anchor, period_ms(every, HOUR_MILLIS), now)),
            Rule::Daily(every) => Ok(next_periodic(anchor, period_ms(every, DAY_MILLIS), now)),
            Rule::Weekly(every, weekdays) => Ok(weekly_next(anchor, every, weekdays, now)),
            Rule::Monthly(every, pick) => if !representable(now) {
                Err(TimingError::NonDeterministic)
            } else {
                match pick {
                    MonthlyPick::OnDays(days) => monthly_next(anchor, every, Some(days), None, now),
                    MonthlyPick::OnThe(ordinal, weekday) => monthly_next(
                        anchor,
                        every,
                        None,
                        Some((ordinal, weekday)),
                        now,
                    ),
                }
            },
            Rule::Yearly(every, months, on) => if !representable(now) {
                Err(TimingError::NonDeterministic)
            } else {
                yearly_next(anchor, every, months, on, now)
            },
        }
    }
}

/// The cron expressions that are consulted: the first three.
pub open spec fn consulted(crons: Seq<Seq<char>>) -> Seq<Seq<char>> {
    if crons.len() > 3 {
        crons.take(3)
    } else {
        crons
    }
}

/// The next firing of each of the cron expressions after `start`, in the timezone of the
/// given name.
pub open spec fn cron_fires(crons: Seq<Seq<char>>, zone: Seq<char>, start: int) -> Seq<Option<int>> {
    Seq::new(
        crons.len(),
        |i: int|
            match cron_fire(crons[i], zone, start) {
                Ok(t) => Some(t),
                Err(_) => None,
            },
    )
}

/// The cron parser refuses the expression at `i`, and none before it.
pub open spec fn refused_first(crons: Seq<Seq<char>>, zone: Seq<char>, start: int, i: int) -> bool {
    &&& 0 <= i < crons.len()
    &&& cron_fire(crons[i], zone, start) is Err
    &&& forall|k: int| 0 <= k < i ==> (#[trigger] cron_fire(crons[k], zone, start)) is Ok
}

/// The words in which the cron parser refuses the first of the consulted expressions that it
/// refuses, where it refuses one.
pub open spec fn cron_refusal(zone: Seq<char>, crons: Seq<Seq<char>>, start: int) -> Option<Seq<char>> {
    let asked = consulted(crons);
    if exists|i: int| refused_first(asked, zone, start, i) {
        let first = choose|i: int| refused_first(asked, zone, start, i);
        match cron_fire(asked[first], zone, start) {
            Err(words) => Some(words),
            Ok(_) => None,
        }
    } else {
        None
    }
}

/// No more than one expression is the first that the cron parser refuses.
pub proof fn lemma_cron_refusal(zone: Seq<char>, crons: Seq<Seq<char>>, start: int, i: int)
    requires
        refused_first(consulted(crons), zone, start, i),
    ensures
        cron_fire(consulted(crons)[i], zone, start) matches Err(words) && cron_refusal(
            zone,
            crons,
            start,
        ) == Some(words),
{
    let asked = consulted(crons);
    let first = choose|i: int| refused_first(asked, zone, start, i);
    assert(refused_first(asked, zone, start, first));
    if first < i {
        assert(cron_fire(asked[first], zone, start) is Ok);
    }
    if i < first {
        assert(cron_fire(asked[i], zone, start) is Ok);
    }
}

/// The words with which a refresh fails where the cron parser refuses an expression: those
/// for the first expression that it refuses, asked for the next firing after the later of the
/// anchor and the present.
pub open spec fn refusal(timing: TimingView, frequency: FrequencyRule, now: int) -> Option<Seq<char>> {
    match frequency {
        FrequencyRule::Custom(custom) => cron_refusal(
            timing.timezone,
            custom.crons,
            later_of(now, timing.anchor),
        ),
        FrequencyRule::Regular(_) => None,
    }
}

/// An error that carries words of the cron parser carries those of `refusal`.
pub open spec fn carries_refusal(
    e: TimingError,
    timing: TimingView,
    frequency: FrequencyRule,
    now: int,
) -> bool {
    e matches TimingError::ParseError(p) ==> p matches ParseError::CronExpr(words) && refusal(
        timing,
        frequency,
        now,
    ) == Some(words@)
}

/// The later of two instants.
pub open spec fn later_of(a: int, b: int) -> int {
    if a > b {
        a
    } else {
        b
    }
}

/// The earliest of the next firings of the first three of the cron expressions after
/// `start`, read in the timezone of the given name. A rule without expressions is missing
/// its expression, and an expression that the cron parser refuses makes a parse error.
#[verifier::opaque]
pub open spec fn custom_next_from(zone: Seq<char>, crons: Seq<Seq<char>>, start: int) -> Result<
    int,
    TimingFailure,
> {
    let fires = cron_fires(consulted(crons), zone, start);
    if crons.len() == 0 {
        Err(TimingFailure::MissingExpression)
    } else if !representable(start) {
        Err(TimingFailure::NonDeterministic)
    } else if exists|i: int| 0 <= i < fires.len() && (#[trigger] fires[i]) is None {
        Err(TimingFailure::Parse)
    } else {
        match least_after(existing(fires), start) {
            Some(t) => Ok(t),
            None => Err(TimingFailure::NonDeterministic),
        }
    }
}

/// The next firing of a custom rule: that of its cron expressions after the later of the
/// anchor and the present.
pub open spec fn custom_next(zone: Seq<char>, crons: Seq<Seq<char>>, anchor: int, now: int) -> Result<
    int,
    TimingFailure,
> {
    custom_next_from(zone, crons, later_of(now, anchor))
}

/// A firing that is not before the end of validity of its rule has expired.
pub open spec fn within_validity(until: Option<int>, next: Result<int, TimingFailure>) -> Result<
    int,
    TimingFailure,
> {
    match next {
        Ok(t) => match until {
            Some(end) => if end <= t {
                Err(TimingFailure::FrequencyExpired)
            } else {
                Ok(t)
            },
            None => Ok(t),
        },
        Err(e) => Err(e),
    }
}

/// The kinds of the failures of a resolution.
pub open spec fn kinds(next: Result<int, TimingError>) -> Result<int, TimingFailure> {
    match next {
        Ok(t) => Ok(t),
        Err(e) => Err(e.kind()),
    }
}

/// The next firing that a frequency gives for an anchor in the timezone of the given name when
/// the present is `now`, or the kind of failure that the search for it ends with.
pub open spec fn next_firing(zone: Seq<char>, anchor: int, frequency: FrequencyRule, now: int) -> Result<
    int,
    TimingFailure,
> {
    match frequency {
        FrequencyRule::Regular(regular) => within_validity(
            regular.until,
            kinds(regular_next(anchor, regular.rule, now)),
        ),
        FrequencyRule::Custom(custom) => within_validity(
            custom.until,
            custom_next(zone, custom.crons, anchor, now),
        ),
    }
}

/// The deadline that a refresh gives a timing whose deadline has passed, or the kind of
/// failure that it ends with.
pub open spec fn refreshed(timing: TimingView, frequency: FrequencyRule, now: int) -> Result<
    int,
    TimingFailure,
> {
    next_firing(timing.timezone, timing.anchor, frequency, now)
}

/// What a refresh makes of a timing when the present is `now`: a timing whose deadline lies
/// after the present stays as it is, and the deadline of another moves to the next firing
/// that the frequency gives.
pub open spec fn refreshing(timing: TimingView, frequency: FrequencyRule, now: int) -> Result<
    TimingView,
    TimingFailure,
> {
    if timing.deadline > now {
        Ok(timing)
    } else {
        match refreshed(timing, frequency, now) {
            Ok(deadline) => Ok(TimingView { deadline, ..timing }),
            Err(e) => Err(e),
        }
    }
}

/// A result with a timing as a mathematical value: the view of the timing, or the kind of
/// the error.
pub open spec fn timing_outcome(r: Result<Timing, TimingError>) -> Result<TimingView, TimingFailure> {
    match r {
        Ok(t) => Ok(t@),
        Err(e) => Err(e.kind()),
    }
}

/// A frequency that names nothing to fire on is missing its expression: the refresh of a
/// timing that is due fails with that, whatever the anchor, the present and the number of
/// units after which the rule repeats.
pub proof fn lemma_missing_expression(timing: TimingView, frequency: FrequencyRule, now: int)
    requires
        timing.deadline <= now,
        match frequency {
            FrequencyRule::Regular(regular) => names_nothing(regular.rule),
            FrequencyRule::Custom(custom) => custom.crons.len() == 0,
        },
    ensures
        refreshing(timing, frequency, now) == Err::<TimingView, TimingFailure>(
            TimingFailure::MissingExpression,
        ),
{
    reveal(regular_next);
    reveal(custom_next_from);
}

/// The next firing of a regular rule comes after the anchor and, where the anchor is not
/// after the present, not before the present.
pub proof fn lemma_regular_next_bounds(anchor: int, rule: Rule, now: int)
    requires
        anchor <= now,
    ensures
        regular_next(anchor, rule, now) matches Ok(t) ==> t > anchor && t >= now,
{
    reveal(regular_next);
    if rule_every(rule) > 0 && in_reach(now) {
        match rule {
            Rule::Hourly(every) => {
                lemma_next_periodic_bound(anchor, period_ms(every, HOUR_MILLIS), now);
            },
            Rule::Daily(every) => {
                lemma_next_periodic_bound(anchor, period_ms(every, DAY_MILLIS), now);
            },
            Rule::Weekly(every, weekdays) => {
                lemma_weekly_next_after(anchor, every, weekdays, now);
            },
            Rule::Monthly(every, pick) => {
                match pick {
                    MonthlyPick::OnDays(days) => {
                        lemma_days_search_after(
                            forwarded_month(anchor, now, every as int),
                            every as int,
                            0,
                            days,
                            time_of_day(anchor),
                            now,
                        );
                    },
                    MonthlyPick::OnThe(ordinal, weekday) => {
                        lemma_ordinal_search_after(
                            forwarded_month(anchor, now, every as int),
                            every as int,
                            0,
                            ordinal,
                            weekday.value(),
                            time_of_day(anchor),
                            now,
                        );
                    },
                }
            },
            Rule::Yearly(every, months, on) => {
                lemma_yearly_search_after(
                    forwarded_year(anchor, now, every as int),
                    every as int,
                    0,
                    months,
                    on,
                    time_of_day(anchor),
                    now,
                );
            },
        }
    }
}

/// The next firing of a regular rule.
fn resolve_regular(anchor: Timestamp, expr: &StFrequencyExpression, now: &Timestamp) -> (next: Result<
    Timestamp,
    TimingError,
>)
    requires
        representable(anchor@),
        now.fits(),
    ensures
        match next {
            Ok(t) => regular_next(anchor@, expr@, now@) == Ok::<int, TimingError>(t@) && t.fits(),
            Err(e) => regular_next(anchor@, expr@, now@) == Err::<int, TimingError>(e) && (e is NonDeterministic
                || e is MissingExpression),
        },
{
    let options = TimingOptions { curtime: *now };
    let present = now.as_ms();
    proof {
        reveal(regular_next);
        lemma_representable_bound(anchor@);
    }
    let empty = match expr {
        StFrequencyExpression::Monthly(e) => match &e.subexpr {
            StMonthlySubExpression::OnDays(sub) => sub.days.len() == 0,
            StMonthlySubExpression::OnThe(_) => false,
        },
        StFrequencyExpression::Yearly(e) => e.subexpr.months.len() == 0,
        _ => false,
    };
    if empty {
        return Err(TimingError::MissingExpression);
    }
    if expr.every() == 0 || present < -0x1000_0000_0000_0000 || present > 0x1000_0000_0000_0000 {
        return Err(TimingError::NonDeterministic);
    }
    match expr {
        StFrequencyExpression::Hourly(e) => {
            proof {
                lemma_next_periodic_bound(anchor@, period_ms(e.every, HOUR_MILLIS), now@);
            }
            Ok(get_next_hourly_timestamp(anchor, e.every, &options))
        },
        StFrequencyExpression::Daily(e) => {
            proof {
                lemma_next_periodic_bound(anchor@, period_ms(e.every, DAY_MILLIS), now@);
            }
            Ok(get_next_daily_timestamp(anchor, e.every, &options))
        },
        StFrequencyExpression::Weekly(e) => Ok(
            next_weekly_timestamp(anchor, e.every, Some(&e.subexpr.weekdays), &options),
        ),
        StFrequencyExpression::Monthly(e) => {
            if now.checked_datetime().is_none() {
                return Err(TimingError::NonDeterministic);
            }
            match &e.subexpr {
                StMonthlySubExpression::OnDays(sub) => next_monthly_schedule(
                    anchor,
                    e.every,
                    Some(&sub.days),
                    None,
                    &options,
                ),
                StMonthlySubExpression::OnThe(sub) => next_monthly_schedule(
                    anchor,
                    e.every,
                    None,
                    Some((sub.ordinal, sub.weekday)),
                    &options,
                ),
            }
        },
        StFrequencyExpression::Yearly(e) => {
            if now.checked_datetime().is_none() {
                return Err(TimingError::NonDeterministic);
            }
            let on = match e.subexpr.on {
                Some(sub) => Some((sub.ordinal, sub.weekday)),
                None => None,
            };
            next_yearly_timestamp(anchor, e.every, &e.subexpr.months, on, &options)
        },
    }
}

/// The next firing of a custom rule.
fn resolve_custom(zone: &str, crons: &Vec<String>, anchor: Timestamp, now: &Timestamp) -> (next:
    Result<Timestamp, TimingError>)
    requires
        known_timezone(zone@),
        representable(anchor@),
        now.fits(),
    ensures
        match next {
            Ok(t) => custom_next(zone@, texts(crons@), anchor@, now@)
                == Ok::<int, TimingFailure>(t@) && t.fits() && t@ > anchor@ && t@ > now@,
            Err(e) => custom_next(zone@, texts(crons@), anchor@, now@)
                == Err::<int, TimingFailure>(e.kind()) && e !is Conflict && e !is FrequencyExpired && (
            e matches TimingError::ParseError(p) ==> p matches ParseError::CronExpr(words)
                && cron_refusal(zone@, texts(crons@), later_of(now@, anchor@)) == Some(words@)),
        },
{
    proof {
        reveal(custom_next_from);
        lemma_representable_bound(anchor@);
    }
    let start: i64 = if now.as_ms() > anchor.as_ms() {
        now.as_ms()
    } else {
        anchor.as_ms()
    };
    let from = Timestamp::Millis(start);
    if crons.len() == 0 {
        return Err(TimingError::MissingExpression);
    }
    if from.checked_datetime().is_none() {
        return Err(TimingError::NonDeterministic);
    }
    let count: usize = if crons.len() > 3 {
        3
    } else {
        crons.len()
    };
    let ghost words = texts(crons@);
    let ghost fires = cron_fires(consulted(words), zone@, start as int);
    let mut stamps: Vec<Timestamp> = Vec::new();
    let mut i: usize = 0;
    proof {
        assert(fires.take(0) =~= Seq::<Option<int>>::empty());
        assert(instants(stamps@) =~= Seq::<int>::empty());
    }
    while i < count
        invariant
            i <= count,
            count == consulted(words).len(),
            count <= crons@.len(),
            words == texts(crons@),
            fires == cron_fires(consulted(words), zone@, start as int),
            known_timezone(zone@),
            representable(start as int),
            crons@.len() > 0,
            start == later_of(now@, anchor@),
            forall|k: int| 0 <= k < i ==> (#[trigger] fires[k]) is Some,
            forall|k: int|
                0 <= k < i ==> (#[trigger] cron_fire(consulted(words)[k], zone@, start as int)) is Ok,
            instants(stamps@) == existing(fires.take(i as int)),
            forall|k: int| 0 <= k < stamps@.len() ==> (#[trigger] stamps@[k]).fits(),
        decreases count - i,
    {
        let ghost before = instants(stamps@);
        proof {
            assert(fires.take(i as int + 1).drop_last() =~= fires.take(i as int));
            assert(consulted(words)[i as int] == crons@[i as int]@);
        }
        match cron_next_after(crons[i].as_str(), zone, start) {
            Ok(t) => {
                stamps.push(Timestamp::Millis(t));
                proof {
                    assert(instants(stamps@) =~= before.push(t as int));
                }
            },
            Err(text) => {
                proof {
                    reveal(custom_next_from);
                    assert(fires[i as int] is None);
                    assert(refused_first(consulted(words), zone@, start as int, i as int));
                    lemma_cron_refusal(zone@, words, start as int, i as int);
                }
                return Err(TimingError::ParseError(ParseError::CronExpr(text)));
            },
        }
        i += 1;
    }
    proof {
        reveal(custom_next_from);
        assert(fires.take(count as int) =~= fires);
        lemma_least_after(existing(fires), start as int);
    }
    match earliest_after(&stamps, &from) {
        Some(t) => Ok(t),
        None => Err(TimingError::NonDeterministic),
    }
}

/// A rule that repeats every so many hours keeps the phase of the anchor, whatever the anchor
/// and the present: the next firing lies after the anchor, a whole number of periods after
/// it. For an anchor that is past, it is as many periods as the elapsed time comes to when it
/// is rounded up, and so less than a period after the present; it lies after the present
/// unless the anchor is past by a whole number of periods.
pub proof fn lemma_hourly_phase(anchor: int, every: u32, now: int)
    requires
        every > 0,
        in_reach(now),
    ensures
        regular_next(anchor, Rule::Hourly(every), now) matches Ok(t) && keeps_phase(
            anchor,
            period_ms(every, HOUR_MILLIS),
            now,
            t,
        ),
{
    reveal(regular_next);
    lemma_period_bound(every);
    lemma_keeps_phase(anchor, period_ms(every, HOUR_MILLIS), now);
}

/// A rule that repeats every so many days keeps the phase of the anchor, as one by hours
/// does.
pub proof fn lemma_daily_phase(anchor: int, every: u32, now: int)
    requires
        every > 0,
        in_reach(now),
    ensures
        regular_next(anchor, Rule::Daily(every), now) matches Ok(t) && keeps_phase(
            anchor,
            period_ms(every, DAY_MILLIS),
            now,
            t,
        ),
{
    reveal(regular_next);
    lemma_period_bound(every);
    lemma_keeps_phase(anchor, period_ms(every, DAY_MILLIS), now);
}

/// A rule that repeats every so many weeks, on no weekday in particular, keeps the phase of
/// the anchor, as one by hours does.
pub proof fn lemma_weekly_phase(anchor: int, every: u32, now: int)
    requires
        every > 0,
        in_reach(now),
    ensures
        regular_next(anchor, Rule::Weekly(every, Seq::empty()), now) matches Ok(t) && keeps_phase(
            anchor,
            period_ms(every, WEEK_MILLIS),
            now,
            t,
        ),
{
    reveal(regular_next);
    lemma_period_bound(every);
    lemma_keeps_phase(anchor, period_ms(every, WEEK_MILLIS), now);
}

/// A weekly rule with weekdays fires on one of its weekdays.
pub proof fn lemma_weekly_weekday(
    anchor: int,
    every: u32,
    weekdays: Seq<StConstWeekday>,
    now: int,
)
    requires
        weekdays.len() > 0,
    ensures
        regular_next(anchor, Rule::Weekly(every, weekdays), now) matches Ok(t) ==> exists|i: int|
            0 <= i < weekdays.len() && weekday_of(t)
                == (#[trigger] weekdays[i]).value(),
{
    reveal(regular_next);
    if every > 0 {
        lemma_weekly_on_listed_weekday(anchor, every, weekdays, now);
    }
}

/// A monthly rule on days of the month fires on one of its days, in a month that has that
/// day.
pub proof fn lemma_monthly_day(anchor: int, every: u32, days: Seq<u32>, now: int)
    ensures
        regular_next(anchor, Rule::Monthly(every, MonthlyPick::OnDays(days)), now) matches Ok(t)
            ==> representable(t) && days.contains(civil_of(t).day)
            && civil_of(t).day
            <= month_length(
            civil_of(t).year as int,
            civil_of(t).month0(),
        ),
{
    reveal(regular_next);
    lemma_monthly_on_listed_day(
        forwarded_month(anchor, now, every as int),
        every as int,
        0,
        days,
        time_of_day(anchor),
        now,
    );
}

/// A yearly rule for the last working day of a month fires on a day from Monday to Friday
/// after which its month has no such day.
pub proof fn lemma_yearly_last_working_day(anchor: int, every: u32, months: Seq<StMonth>, now: int)
    ensures
        regular_next(
            anchor,
            Rule::Yearly(
                every,
                months,
                Some((StOrdinals::Last, StWeekday::Var(StVarWeekday::Weekday))),
            ),
            now,
        ) matches Ok(t) ==> representable(t) && 1 <= weekday_of(t)
            <= 5 && forall|later: int|
            civil_of(t).day < later
                <= month_length(
                civil_of(t).year as int,
                civil_of(t).month0(),
            ) ==> {
                let weekday = #[trigger] weekday_of_day(
                    days_from_civil(
                        civil_of(t).year as int,
                        civil_of(t).month0(),
                        later,
                    ),
                );
                weekday == 0 || weekday == 6
            },
{
    reveal(regular_next);
    crate::scheduling::timing::lemma_yearly_last_working_day(
        forwarded_year(anchor, now, every as int),
        every as int,
        0,
        months,
        time_of_day(anchor),
        now,
    );
}

/// The deadline that a refresh gives lies after the anchor and not before the present.
pub proof fn lemma_refreshed_bounds(timing: TimingView, frequency: FrequencyRule, now: int)
    requires
        timing.anchor <= now,
    ensures
        refreshed(timing, frequency, now) matches Ok(t) ==> t > timing.anchor && t >= now,
{
    match frequency {
        FrequencyRule::Regular(regular) => {
            lemma_regular_next_bounds(timing.anchor, regular.rule, now);
        },
        FrequencyRule::Custom(custom) => {
            reveal(custom_next_from);
            let start = later_of(now, timing.anchor);
            lemma_least_after(
                existing(cron_fires(consulted(custom.crons), timing.timezone, start)),
                start,
            );
        },
    }
}

/// The deadline that a refresh gives a timing whose deadline has passed.
fn next_deadline(zone: &str, anchor: Timestamp, frequency: &StFrequency, now: &Timestamp) -> (next:
    Result<Timestamp, TimingError>)
    requires
        known_timezone(zone@),
        representable(anchor@),
        anchor@ <= now@,
        now.fits(),
    ensures
        match next {
            Ok(t) => next_firing(zone@, anchor@, frequency@, now@) == Ok::<int, TimingFailure>(t@)
                && t is Millis && t@ > anchor@ && t@ >= now@,
            Err(e) => next_firing(zone@, anchor@, frequency@, now@) == Err::<int, TimingFailure>(
                e.kind(),
            ) && e !is Conflict && (e matches TimingError::ParseError(p) ==> p matches ParseError::CronExpr(
                words,
            ) && frequency@ matches FrequencyRule::Custom(custom) && cron_refusal(
                zone@,
                custom.crons,
                later_of(now@, anchor@),
            ) == Some(words@)),
        },
{
    let (next, until) = match frequency {
        StFrequency::Custom(cstm) => (
            resolve_custom(zone, &cstm.cron_expressions, anchor, now),
            cstm.until,
        ),
        StFrequency::Regular(reg) => {
            proof {
                lemma_regular_next_bounds(anchor@, reg.expr@, now@);
            }
            (resolve_regular(anchor, &reg.expr, now), reg.until)
        },
    };
    match next {
        Ok(t) => {
            let expired = match until {
                Some(end) => end <= t,
                None => false,
            };
            if expired {
                Err(TimingError::FrequencyExpired)
            } else {
                Ok(Timestamp::Millis(t.as_ms()))
            }
        },
        Err(e) => Err(e),
    }
}

impl Timing {
    #[verifier::type_invariant]
    spec fn inv(&self) -> bool {
        &&& self.anchor is Millis
        &&& self.deadline is Millis
        &&& timing_inv(self@)
    }

    /// Create a [`Timing`] from a naive anchor, seemingly ISO-8601 or RFC-3339, datetime string and a valid
    /// IANA timezone string.
    ///
    /// # Note
    ///
    /// The `naive_anchor` expects a datetime string in the format `"%Y-%m-%dT%H:%M:%S%.f"`. and the timezone
    /// could be any valid IANA timezone string, e.g, "Africa/Lagos", "America/New_York".
    ///
    /// # Error
    ///
    /// Returns a [`ParseError`] wrapped in an [`Err`] result if any of the naive anchor datetime or timezone
    /// string could not be parsed into a valid output, due to formatting issues or an invalid entry.
    pub fn with_naive_anchor_tz(naive_anchor: &str, timezone: &str) -> (r: Result<Self, ParseError>)
        ensures
            match r {
                Ok(timing) => anchored(naive_anchor@, timezone@) == Some(timing@) && timing_inv(timing@),
                Err(ParseError::Timezone(_)) => !known_timezone(timezone@),
                Err(ParseError::DateTime(_)) => known_timezone(timezone@) && wall_clock_of(
                    naive_anchor@,
                    ANCHOR_FORMAT@,
                ) is None,
                Err(ParseError::ResolutionFailed) => known_timezone(timezone@) && wall_clock_of(
                    naive_anchor@,
                    ANCHOR_FORMAT@,
                ) is Some && anchor_instant(naive_anchor@, timezone@) is None,
                Err(ParseError::CronExpr(_)) => false,
            },
    {
        match check_timezone(timezone) {
            Ok(_) => {},
            Err(text) => {
                return Err(ParseError::Timezone(text));
            },
        }
        let ndt = match parse_wall_clock(naive_anchor, ANCHOR_FORMAT) {
            Ok(ndt) => ndt,
            Err(text) => {
                return Err(ParseError::DateTime(text));
            },
        };
        let millis: i64 = match localize(timezone, &ndt) {
            LocalInstant::Single(dt) => dt,
            LocalInstant::Ambiguous(_, dt2) => dt2,
            LocalInstant::Gap => {
                return Err(ParseError::ResolutionFailed);
            },
            LocalInstant::UnknownZone => {
                return Err(ParseError::ResolutionFailed);
            },
        };
        let anchor = Timestamp::Millis(millis);
        if anchor.checked_datetime().is_none() {
            return Err(ParseError::ResolutionFailed);
        }
        Ok(
            Timing {
                timezone: timezone.to_string(),
                naive_anchor: ndt,
                anchor,
                deadline: anchor,
            },
        )
    }

    /// Refresh a [`Timing`] with the provided frequency, for the present that the clock gives.
    ///
    /// The outcome is that of [`Timing::refresh_at`] for some present: a timing whose deadline
    /// lies after the present comes back as it is; else it comes back with its next deadline,
    /// which is not before the old one, or the refresh fails.
    pub fn refresh(self, frequency: &StFrequency) -> (r: Result<Self, TimingError>)
        ensures
            exists|now: int|
                representable(now) && timing_outcome(r) == #[trigger] refreshing(
                    self@,
                    frequency@,
                    now,
                ) && (r matches Err(e) ==> carries_refusal(e, self@, frequency@, now)),
            r matches Ok(t) ==> (timing_inv(t@) && self@.deadline <= t@.deadline),
            r matches Err(e) ==> e !is Conflict,
    {
        let now = timestamp();
        self.refresh_at(frequency, &now)
    }

    /// Refresh a [`Timing`] with the provided frequency, for the given present.
    ///
    /// A timing whose deadline lies after the present comes back as it is. Else the deadline
    /// moves to the next firing that the frequency gives for the anchor: see `refreshed`.
    ///
    /// The next firing is never before the present, and it lies after the anchor. It lies after
    /// the present but in one case: a rule by hours, days or weeks advances the anchor by whole
    /// periods until it is no longer before the present, so where the anchor is past by a whole
    /// number of periods the next firing is the present itself. See `keeps_phase`.
    ///
    /// A rule that names nothing to fire on (a monthly rule on no day, a yearly rule in no
    /// month, a custom rule without expressions) is missing its expression, whatever else holds
    /// of it.
    ///
    /// # Custom Frequency Expressions
    ///
    /// For custom frequency expressions (cron), this method computes the timestamp for each of the cron expressions
    /// in the timezone of the original anchor timestamp (declared as `naive_anchor` and `timezone`), and only a
    /// maximum of three cron expressions are evaluated, the rest are redundant.
    ///
    /// If an error is encountered when parsing any of the cron expressions, this method returns a [`TimingError`]
    /// wrapped in an [`Err`] result for the first error encountered: its words are those in which the
    /// parser refuses the first of the consulted expressions that it refuses. See `refusal`.
    ///
    /// # Frequency Expression Validity.
    ///
    /// Some frequency expressions have a date until when they are no longer valid. When the `until` of a frequency
    /// is not `None`, the evaluated timestamp is compared with the declared validity timestamp, and while the
    /// evaluated timestamp is less than the validity timestamp a [`Result::Ok`] is returned with the refreshed timing,
    /// otherwise a [`Result::Err`] is returned with a [`TimingError::FrequencyExpired`]
    pub fn refresh_at(self, frequency: &StFrequency, now: &Timestamp) -> (r: Result<
        Self,
        TimingError,
    >)
        requires
            now.fits(),
        ensures
            timing_outcome(r) == refreshing(self@, frequency@, now@),
            r matches Ok(t) ==> (timing_inv(t@) && self@.deadline <= t@.deadline),
            r matches Err(e) ==> e !is Conflict && carries_refusal(e, self@, frequency@, now@),
    {
        proof {
            use_type_invariant(&self);
        }
        if self.deadline.as_ms() > now.as_ms() {
            return Ok(self);
        }
        match next_deadline(self.timezone.as_str(), self.anchor, frequency, now) {
            Ok(deadline) => Ok(
                Timing {
                    timezone: self.timezone,
                    anchor: self.anchor,
                    deadline,
                    naive_anchor: self.naive_anchor,
                },
            ),
            Err(e) => Err(e),
        }
    }

    /// The next firing of a rule that repeats every so many hours.
    pub fn next_hourly_timestamp(anchor: Timestamp, every: u32, options: &TimingOptions) -> (next:
        Timestamp)
        requires
            every > 0,
            anchor.fits(),
            options.curtime.fits(),
            next_periodic(anchor@, period_ms(every, HOUR_MILLIS), options.curtime@) <= i64::MAX,
        ensures
            next == Timestamp::Millis(
                next_periodic(anchor@, period_ms(every, HOUR_MILLIS), options.curtime@) as i64,
            ),
            keeps_phase(anchor@, period_ms(every, HOUR_MILLIS), options.curtime@, next@),
    {
        get_next_hourly_timestamp(anchor, every, options)
    }

    /// The next firing of a rule that repeats every so many days.
    pub fn next_daily_timestamp(anchor: Timestamp, every: u32, options: &TimingOptions) -> (next:
        Timestamp)
        requires
            every > 0,
            anchor.fits(),
            options.curtime.fits(),
            next_periodic(anchor@, period_ms(every, DAY_MILLIS), options.curtime@) <= i64::MAX,
        ensures
            next == Timestamp::Millis(
                next_periodic(anchor@, period_ms(every, DAY_MILLIS), options.curtime@) as i64,
            ),
            keeps_phase(anchor@, period_ms(every, DAY_MILLIS), options.curtime@, next@),
    {
        get_next_daily_timestamp(anchor, every, options)
    }

    /// The next firing of a rule that repeats every so many weeks, on the given weekdays.
    pub fn next_weekly_timestamp(
        anchor: Timestamp,
        every: u32,
        weekdays: Option<&Vec<StConstWeekday>>,
        options: &TimingOptions,
    ) -> (next: Timestamp)
        requires
            every > 0,
            in_reach(anchor@),
            in_reach(options.curtime@),
        ensures
            next@ == weekly_next(anchor@, every, listed_weekdays(weekdays), options.curtime@),
            next.fits(),
            next@ >= options.curtime@,
    {
        next_weekly_timestamp(anchor, every, weekdays, options)
    }

    /// The next firing of a rule that repeats every so many months, on the given days or on
    /// the weekday with the given ordinal. A rule with neither is missing its expression,
    /// whatever the anchor, the present and the number of months are.
    pub fn next_monthly_schedule(
        anchor: Timestamp,
        every: u32,
        days: Option<&Vec<u32>>,
        ordinals: Option<(StOrdinals, StConstWeekday)>,
        options: &TimingOptions,
    ) -> (next: Result<Timestamp, TimingError>)
        requires
            (ordinals is Some || (days matches Some(list) && list@.len() > 0)) ==> every > 0
                && representable(anchor@) && representable(options.curtime@),
        ensures
            match next {
                Ok(t) => monthly_next(
                    anchor@,
                    every,
                    match days {
                        Some(list) => Some(list@),
                        None => None,
                    },
                    ordinals,
                    options.curtime@,
                ) == Ok::<int, TimingError>(t@) && t.fits(),
                Err(e) => monthly_next(
                    anchor@,
                    every,
                    match days {
                        Some(list) => Some(list@),
                        None => None,
                    },
                    ordinals,
                    options.curtime@,
                ) == Err::<int, TimingError>(e) && (e is NonDeterministic
                || e is MissingExpression),
            },
    {
        next_monthly_schedule(anchor, every, days, ordinals, options)
    }

    /// The next firing of a rule that repeats every so many years, in the given months. A rule
    /// without months is missing its expression, whatever the anchor, the present and the
    /// number of years are.
    pub fn next_yearly_timestamp(
        anchor: Timestamp,
        every: u32,
        months: &Vec<StMonth>,
        ordinals: Option<(StOrdinals, StWeekday)>,
        options: &TimingOptions,
    ) -> (next: Result<Timestamp, TimingError>)
        requires
            months@.len() > 0 ==> every > 0 && representable(anchor@) && representable(
                options.curtime@,
            ),
        ensures
            match next {
                Ok(t) => yearly_next(anchor@, every, months@, ordinals, options.curtime@) == Ok::<
                    int,
                    TimingError,
                >(t@) && t.fits(),
                Err(e) => yearly_next(anchor@, every, months@, ordinals, options.curtime@) == Err::<
                    int,
                    TimingError,
                >(e) && (e is NonDeterministic || e is MissingExpression),
            },
    {
        next_yearly_timestamp(anchor, every, months, ordinals, options)
    }

    /// The instant of the anchor.
    pub fn anchor(&self) -> (anchor: Timestamp)
        ensures
            anchor@ == self@.anchor,
            anchor.fits(),
            timing_inv(self@),
    {
        proof {
            use_type_invariant(self);
        }
        self.anchor
    }

    /// The instant at which the event is due next.
    pub fn deadline(&self) -> (deadline: Timestamp)
        ensures
            deadline@ == self@.deadline,
            deadline.fits(),
            timing_inv(self@),
    {
        proof {
            use_type_invariant(self);
        }
        self.deadline
    }

    /// The name of the timezone of the anchor.
    pub fn timezone(&self) -> (name: &str)
        ensures
            name@ == self@.timezone,
            known_timezone(name@),
    {
        proof {
            use_type_invariant(self);
        }
        self.timezone.as_str()
    }

    /// The anchor as the wall clock of its timezone shows it.
    pub fn naive_anchor(&self) -> (wall: WallClock)
        ensures
            wall == self@.naive_anchor,
    {
        self.naive_anchor
    }

    /// Checks if a [`Timing`] has passed by comparing the [`Timing`]'s anchor timestamp
    /// with the given timestamp.
    pub fn is_passed_at(&self, now: &Timestamp) -> (passed: bool)
        ensures
            passed == (self@.anchor < now@),
    {
        self.anchor < *now
    }

    /// Checks if a [`Timing`] has passed by comparing the [`Timing`]'s anchor timestamp
    /// with a current timestamp.
    ///
    /// The clock picks the present, which is an instant of the calendar: the answer is that of
    /// [`Timing::is_passed_at`] for it.
    pub fn is_passed(&self) -> (passed: bool)
        ensures
            exists|now: int| #[trigger] representable(now) && passed == (self@.anchor < now),
    {
        let now = timestamp();
        self.is_passed_at(&now)
    }

    /// Checks if a [`Timing`] has passed its deadline or due time by comparing the [`Timing`]'s deadline
    /// timestamp with the given timestamp.
    pub fn is_passed_due_at(&self, now: &Timestamp) -> (passed: bool)
        ensures
            passed == (self@.deadline < now@),
            timing_inv(self@),
    {
        proof {
            use_type_invariant(self);
        }
        self.deadline < *now
    }

    /// Checks if a [`Timing`] has passed its deadline or due time by comparing the [`Timing`]'s deadline
    /// timestamp with a current timestamp.
    ///
    /// When a [`Timing`] is attached to a repeatable event (that is, an event with a frequency), this can be
    /// useful to tell when to re-evaluate the timing for the event using the frequency expressions.
    ///
    /// Initially, the timing deadline is set to the same value as anchor, then this function can be used to
    /// check whether the deadline (initially the anchor) has passed and can be used to re-evaluate the exact
    /// deadline for repeating events.
    ///
    /// The clock picks the present, which is an instant of the calendar: the answer is that of
    /// [`Timing::is_passed_due_at`] for it.
    pub fn is_passed_due(&self) -> (passed: bool)
        ensures
            exists|now: int| #[trigger] representable(now) && passed == (self@.deadline < now),
            timing_inv(self@),
    {
        let now = timestamp();
        self.is_passed_due_at(&now)
    }
}

impl Clone for Timing {
    fn clone(&self) -> (copy: Self)
        ensures
            copy@ == self@,
    {
        proof {
            use_type_invariant(self);
        }
        Timing {
            timezone: self.timezone.clone(),
            anchor: self.anchor,
            deadline: self.deadline,
            naive_anchor: self.naive_anchor,
        }
    }
}

/// A schedule as a mathematical value.
pub struct ScheduleView {
    pub id: Seq<char>,
    pub timing: TimingView,
    pub priority: Option<StPriority>,
    pub frequency: Option<FrequencyRule>,
}

/// An event that is due at some time and may repeat.
#[derive(Debug)]
pub struct StSchedule {
    /// The identifier for this schedule
    id: String,
    /// The timing information for this schedule
    timing: Timing,
    /// The priority for this schedule
    ///
    /// Note that two schedules with the same timing are considered equivalent as regards their importance,
    /// a higher priority can further add a level of importance provided they both do not share the same
    /// priority also, otherwise they are equally important.
    priority: Option<StPriority>,
    /// The frequency of repetition for this schedule, one-off schedules can be assigned a `None` frequency
    frequency: Option<StFrequency>,
}

/// The view of an optional frequency.
pub open spec fn frequency_view(frequency: Option<StFrequency>) -> Option<FrequencyRule> {
    match frequency {
        Some(f) => Some(f@),
        None => None,
    }
}

impl View for StSchedule {
    type V = ScheduleView;

    closed spec fn view(&self) -> ScheduleView {
        ScheduleView {
            id: self.id@,
            timing: self.timing@,
            priority: self.priority,
            frequency: frequency_view(self.frequency),
        }
    }
}

impl ID for StSchedule {
    open spec fn id_view(&self) -> Seq<char> {
        self@.id
    }

    fn get_id(&self) -> (id: String) {
        self.id.clone()
    }
}

/// One schedule goes before another when it is due earlier or, where both are due at the
/// same instant, when its priority ranks before the other's.
pub open spec fn schedule_before(a: ScheduleView, b: ScheduleView) -> bool {
    a.timing.deadline < b.timing.deadline || (a.timing.deadline == b.timing.deadline
        && priority_rank(a.priority) < priority_rank(b.priority))
}

/// What the upcoming schedule of a schedule is when the present is `now`: the schedule with
/// its deadline moved to the next firing. A schedule that is not yet past its deadline is in
/// conflict, and one without a frequency is missing its expression.
pub open spec fn upcoming(schedule: ScheduleView, now: int) -> Result<ScheduleView, TimingFailure> {
    if !(schedule.timing.deadline < now) {
        Err(TimingFailure::Conflict)
    } else {
        match schedule.frequency {
            Some(frequency) => match refreshed(schedule.timing, frequency, now) {
                Ok(deadline) => Ok(
                    ScheduleView {
                        timing: TimingView { deadline, ..schedule.timing },
                        ..schedule
                    },
                ),
                Err(e) => Err(e),
            },
            None => Err(TimingFailure::MissingExpression),
        }
    }
}

/// The schedule that is made of an id, an anchor, a frequency and a priority when the present
/// is `now`: it is due at its anchor where that lies after the present, else at the next
/// firing that the frequency gives.
pub open spec fn scheduled(
    id: Seq<char>,
    naive_anchor: Seq<char>,
    timezone: Seq<char>,
    frequency: FrequencyRule,
    priority: Option<StPriority>,
    now: int,
) -> Result<ScheduleView, TimingFailure> {
    match anchored(naive_anchor, timezone) {
        None => Err(TimingFailure::Parse),
        Some(timing) => if timing.deadline > now {
            Ok(ScheduleView { id, timing, priority, frequency: Some(frequency) })
        } else {
            match refreshed(timing, frequency, now) {
                Ok(deadline) => Ok(
                    ScheduleView {
                        id,
                        timing: TimingView { deadline, ..timing },
                        priority,
                        frequency: Some(frequency),
                    },
                ),
                Err(e) => Err(e),
            }
        },
    }
}

/// A result with a schedule as a mathematical value: the view of the schedule, or the kind of
/// the error.
pub open spec fn schedule_outcome(r: Result<StSchedule, TimingError>) -> Result<
    ScheduleView,
    TimingFailure,
> {
    match r {
        Ok(s) => Ok(s@),
        Err(e) => Err(e.kind()),
    }
}

impl StSchedule {
    /// Initializes a structure for schedule representations
    ///
    /// The default initializer: useful for schedules without
    /// any repeating frequency
    ///
    /// # Arguments
    ///
    /// * `id` - The identifier for this schedule
    /// * `naive_anchor` - The naive anchor datetime in string
    /// * `timezone` - The timezone string for `naive_anchor` in the format of `Continent/City`
    /// * `priority` - The priority of schedule used to measure importance
    ///
    /// # Errors
    ///
    /// Fails when the `naive_anchor` date string could not be successfully parsed from string
    /// or the `timezone` could not be successfully parsed from string.
    pub fn new(id: &str, naive_anchor: &str, timezone: &str, priority: Option<StPriority>) -> (r:
        Result<StSchedule, ParseError>)
        ensures
            match r {
                Ok(s) => anchored(naive_anchor@, timezone@) matches Some(timing) && s@ == (ScheduleView {
                    id: id@,
                    timing,
                    priority,
                    frequency: None,
                }) && timing_inv(s@.timing),
                Err(e) => anchored(naive_anchor@, timezone@) is None && e !is CronExpr,
            },
    {
        match Timing::with_naive_anchor_tz(naive_anchor, timezone) {
            Ok(timing) => Ok(StSchedule { id: id.to_string(), frequency: None, priority, timing }),
            Err(e) => Err(e),
        }
    }

    /// A schedule with a frequency, refreshed for the given present.
    fn with_frequency_at(
        id: &str,
        naive_anchor: &str,
        timezone: &str,
        frequency: StFrequency,
        priority: Option<StPriority>,
        now: &Timestamp,
    ) -> (r: Result<StSchedule, TimingError>)
        requires
            now.fits(),
        ensures
            schedule_outcome(r) == scheduled(id@, naive_anchor@, timezone@, frequency@, priority, now@),
            r matches Ok(s) ==> timing_inv(s@.timing),
            r matches Err(e) ==> (anchored(naive_anchor@, timezone@) is None <==> (
            e matches TimingError::ParseError(p) && p !is CronExpr)),
            r matches Err(e) ==> (anchored(naive_anchor@, timezone@) matches Some(timing)
                ==> carries_refusal(e, timing, frequency@, now@)),
    {
        let timing = match Timing::with_naive_anchor_tz(naive_anchor, timezone) {
            Ok(timing) => timing,
            Err(e) => {
                return Err(TimingError::ParseError(e));
            },
        };
        match timing.refresh_at(&frequency, now) {
            Ok(timing) => Ok(
                StSchedule { id: id.to_string(), frequency: Some(frequency), priority, timing },
            ),
            Err(e) => Err(e),
        }
    }

    /// Initializes a structure for schedule representations
    ///
    /// The regular initializer: useful for schedules with a regular
    /// repeating frequency. The timing is refreshed for the given present.
    ///
    /// # Arguments
    ///
    /// * `id` - The identifier for this schedule
    /// * `naive_anchor` - The naive anchor datetime in string
    /// * `timezone` - The timezone string for `naive_anchor` in the format of `Continent/City`
    /// * `freq` - The repeat frequency of schedule
    /// * `priority` - The priority of schedule used to measure importance
    /// * `now` - The present
    pub fn with_regular_at(
        id: &str,
        naive_anchor: &str,
        timezone: &str,
        freq: StRegularFrequency,
        priority: Option<StPriority>,
        now: &Timestamp,
    ) -> (r: Result<StSchedule, TimingError>)
        requires
            now.fits(),
        ensures
            schedule_outcome(r) == scheduled(id@, naive_anchor@, timezone@, FrequencyRule::Regular(freq@), priority, now@),
            r matches Ok(s) ==> timing_inv(s@.timing),
            r matches Err(e) ==> (anchored(naive_anchor@, timezone@) is None <==> (
            e matches TimingError::ParseError(p) && p !is CronExpr)),
            r matches Err(e) ==> (anchored(naive_anchor@, timezone@) matches Some(timing)
                ==> carries_refusal(e, timing, FrequencyRule::Regular(freq@), now@)),
    {
        StSchedule::with_frequency_at(
            id,
            naive_anchor,
            timezone,
            StFrequency::Regular(freq),
            priority,
            now,
        )
    }

    /// Initializes a structure for schedule representations
    ///
    /// The regular initializer: useful for schedules with a regular
    /// repeating frequency. The timing is refreshed for the present that the clock gives.
    pub fn with_regular(
        id: &str,
        naive_anchor: &str,
        timezone: &str,
        freq: StRegularFrequency,
        priority: Option<StPriority>,
    ) -> (r: Result<StSchedule, TimingError>)
        ensures
            exists|now: int|
                representable(now) && schedule_outcome(r) == #[trigger] scheduled(
                    id@,
                    naive_anchor@,
                    timezone@,
                    FrequencyRule::Regular(freq@),
                    priority,
                    now,
                ) && (r matches Err(e) ==> (anchored(naive_anchor@, timezone@) matches Some(timing)
                    ==> carries_refusal(e, timing, FrequencyRule::Regular(freq@), now))),
            r matches Ok(s) ==> timing_inv(s@.timing),
            r matches Err(e) ==> (anchored(naive_anchor@, timezone@) is None <==> (
            e matches TimingError::ParseError(p) && p !is CronExpr)),
    {
        let now = timestamp();
        StSchedule::with_regular_at(id, naive_anchor, timezone, freq, priority, &now)
    }

    /// Initializes a structure for schedule representations
    ///
    /// The custom initializer: useful for schedules with a custom (CRON)
    /// repeating frequency. The timing is refreshed for the given present.
    ///
    /// # Arguments
    ///
    /// * `id` - The identifier for this schedule
    /// * `naive_anchor` - The naive anchor datetime in string
    /// * `timezone` - The timezone string for `naive_anchor` in the format of `Continent/City`
    /// * `freq` - The repeat frequency of schedule
    /// * `priority` - The priority of schedule used to measure importance
    /// * `now` - The present
    pub fn with_custom_at(
        id: &str,
        naive_anchor: &str,
        timezone: &str,
        freq: StCustomFrequency,
        priority: Option<StPriority>,
        now: &Timestamp,
    ) -> (r: Result<StSchedule, TimingError>)
        requires
            now.fits(),
        ensures
            schedule_outcome(r) == scheduled(id@, naive_anchor@, timezone@, FrequencyRule::Custom(freq@), priority, now@),
            r matches Ok(s) ==> timing_inv(s@.timing),
            r matches Err(e) ==> (anchored(naive_anchor@, timezone@) is None <==> (
            e matches TimingError::ParseError(p) && p !is CronExpr)),
            r matches Err(e) ==> (anchored(naive_anchor@, timezone@) matches Some(timing)
                ==> carries_refusal(e, timing, FrequencyRule::Custom(freq@), now@)),
    {
        StSchedule::with_frequency_at(
            id,
            naive_anchor,
            timezone,
            StFrequency::Custom(freq),
            priority,
            now,
        )
    }

    /// Initializes a structure for schedule representations
    ///
    /// The custom initializer: useful for schedules with a custom (CRON)
    /// repeating frequency. The timing is refreshed for the present that the clock gives.
    pub fn with_custom(
        id: &str,
        naive_anchor: &str,
        timezone: &str,
        freq: StCustomFrequency,
        priority: Option<StPriority>,
    ) -> (r: Result<StSchedule, TimingError>)
        ensures
            exists|now: int|
                representable(now) && schedule_outcome(r) == #[trigger] scheduled(
                    id@,
                    naive_anchor@,
                    timezone@,
                    FrequencyRule::Custom(freq@),
                    priority,
                    now,
                ) && (r matches Err(e) ==> (anchored(naive_anchor@, timezone@) matches Some(timing)
                    ==> carries_refusal(e, timing, FrequencyRule::Custom(freq@), now))),
            r matches Ok(s) ==> timing_inv(s@.timing),
            r matches Err(e) ==> (anchored(naive_anchor@, timezone@) is None <==> (
            e matches TimingError::ParseError(p) && p !is CronExpr)),
    {
        let now = timestamp();
        StSchedule::with_custom_at(id, naive_anchor, timezone, freq, priority, &now)
    }

    /// A schedule made of its parts.
    pub fn with_frequency_and_timing(
        id: &str,
        timing: Timing,
        frequency: StFrequency,
        priority: Option<StPriority>,
    ) -> (s: StSchedule)
        ensures
            s@ == (ScheduleView {
                id: id@,
                timing: timing@,
                priority,
                frequency: Some(frequency@),
            }),
    {
        StSchedule { id: id.to_string(), frequency: Some(frequency), timing, priority }
    }

    pub fn get_id_as_str(&self) -> (id: &str)
        ensures
            id@ == self@.id,
    {
        self.id.as_str()
    }

    pub fn get_anchor_millis(&self) -> (millis: i64)
        ensures
            millis == self@.timing.anchor,
            timing_inv(self@.timing),
    {
        self.timing.anchor().as_ms()
    }

    /// The instant at which the schedule is due next, in milliseconds since the epoch.
    pub fn get_deadline_millis(&self) -> (millis: i64)
        ensures
            millis == self@.timing.deadline,
            timing_inv(self@.timing),
    {
        self.timing.deadline().as_ms()
    }

    /// The timing of the schedule.
    pub fn get_timing(&self) -> (timing: &Timing)
        ensures
            timing@ == self@.timing,
    {
        &self.timing
    }

    pub fn get_priority(&self) -> (priority: Option<StPriority>)
        ensures
            priority == self@.priority,
    {
        self.priority
    }

    pub fn get_custom_frequency(&self) -> (frequency: Option<StCustomFrequency>)
        ensures
            match self@.frequency {
                Some(FrequencyRule::Custom(custom)) => frequency matches Some(f) && f@ == custom,
                _ => frequency is None,
            },
    {
        if let Some(freq) = &self.frequency {
            if let StFrequency::Custom(cstm_freq) = freq {
                return Some(cstm_freq.clone());
            }
        }
        None
    }

    pub fn get_regular_frequency(&self) -> (frequency: Option<StRegularFrequency>)
        ensures
            match self@.frequency {
                Some(FrequencyRule::Regular(regular)) => frequency matches Some(f) && f@ == regular,
                _ => frequency is None,
            },
    {
        if let Some(freq) = &self.frequency {
            if let StFrequency::Regular(reg_freq) = freq {
                return Some(reg_freq.clone());
            }
        }
        None
    }

    /// Whether the schedule was due before the given present.
    pub fn is_passed_at(&self, now: &Timestamp) -> (passed: bool)
        ensures
            passed == (self@.timing.deadline < now@),
            timing_inv(self@.timing),
    {
        self.timing.is_passed_due_at(now)
    }

    /// Whether the schedule was due before the present that the clock gives.
    ///
    /// The clock picks the present, which is an instant of the calendar: the answer is that of
    /// [`StSchedule::is_passed_at`] for it.
    pub fn is_passed(&self) -> (passed: bool)
        ensures
            exists|now: int|
                #[trigger] representable(now) && passed == (self@.timing.deadline < now),
            timing_inv(self@.timing),
    {
        let now = timestamp();
        self.is_passed_at(&now)
    }

    /// Calculate the upcoming schedule for the given schedule when the present is `now`
    pub fn get_upcoming_schedule_at(&self, now: &Timestamp) -> (r: Result<StSchedule, TimingError>)
        requires
            now.fits(),
        ensures
            schedule_outcome(r) == upcoming(self@, now@),
            r matches Ok(s) ==> (timing_inv(s@.timing) && s@.timing.deadline >= now@),
            r matches Err(e) ==> (self@.frequency matches Some(frequency) ==> carries_refusal(
                e,
                self@.timing,
                frequency,
                now@,
            )),
    {
        // Check if the current schedule has passed and generate the next
        // schedule relative to now from the StSchedule struct
        if !self.is_passed_at(now) {
            return Err(TimingError::Conflict);
        }
        if let Some(frequency) = &self.frequency {
            let timing = match self.timing.clone().refresh_at(frequency, now) {
                Ok(timing) => timing,
                Err(e) => {
                    return Err(e);
                },
            };
            proof {
                assert(refreshed(self@.timing, frequency@, now@) is Ok);
                lemma_refreshed_bounds(self@.timing, frequency@, now@);
            }
            Ok(
                StSchedule {
                    id: self.id.clone(),
                    timing,
                    frequency: Some(frequency.clone()),
                    priority: self.priority,
                },
            )
        } else {
            Err(TimingError::MissingExpression)
        }
    }

    /// Calculate the upcoming schedule for the given schedule for the present that the clock
    /// gives
    pub fn get_upcoming_schedule(&self) -> (r: Result<StSchedule, TimingError>)
        ensures
            exists|now: int|
                representable(now) && schedule_outcome(r) == #[trigger] upcoming(self@, now) && (
                r matches Err(e) ==> (self@.frequency matches Some(frequency) ==> carries_refusal(
                    e,
                    self@.timing,
                    frequency,
                    now,
                ))),
            r matches Ok(s) ==> timing_inv(s@.timing),
    {
        let now = timestamp();
        self.get_upcoming_schedule_at(&now)
    }
}

impl Clone for StSchedule {
    fn clone(&self) -> (copy: Self)
        ensures
            copy@ == self@,
    {
        StSchedule {
            id: self.id.clone(),
            timing: self.timing.clone(),
            priority: self.priority,
            frequency: match &self.frequency {
                Some(f) => Some(f.clone()),
                None => None,
            },
        }
    }
}

impl PartialEq for StSchedule {
    /// Schedules are the same when they have the same id.
    fn eq(&self, other: &Self) -> (r: bool) {
        self.id == other.id
    }
}

impl Eq for StSchedule {

}

impl PartialEqSpecImpl for StSchedule {
    open spec fn obeys_eq_spec() -> bool {
        true
    }

    open spec fn eq_spec(&self, other: &Self) -> bool {
        self@.id == other@.id
    }
}

impl PartialOrd for StSchedule {
    /// Schedules are ordered by their deadlines and, among equal deadlines, by the ranks of
    /// their priorities.
    fn partial_cmp(&self, other: &Self) -> (r: Option<Ordering>) {
        let order = ScheduleOrder;
        if order.compare(self, other) {
            Some(Ordering::Less)
        } else if order.compare(other, self) {
            Some(Ordering::Greater)
        } else {
            Some(Ordering::Equal)
        }
    }
}

impl PartialOrdSpecImpl for StSchedule {
    open spec fn obeys_partial_cmp_spec() -> bool {
        true
    }

    open spec fn partial_cmp_spec(&self, other: &Self) -> Option<Ordering> {
        if schedule_before(self@, other@) {
            Some(Ordering::Less)
        } else if schedule_before(other@, self@) {
            Some(Ordering::Greater)
        } else {
            Some(Ordering::Equal)
        }
    }
}

/// The comparator by which a queue holds schedules: earlier deadlines first and, among
/// equal deadlines, the priority that ranks first.
#[derive(Debug, Clone, Copy)]
pub struct ScheduleOrder;

impl Comparator<StSchedule> for ScheduleOrder {
    open spec fn well_formed(&self) -> bool {
        true
    }

    open spec fn precedes(&self, a: &StSchedule, b: &StSchedule) -> bool {
        schedule_before(a@, b@)
    }

    fn compare(&self, a: &StSchedule, b: &StSchedule) -> (r: bool) {
        let x = a.get_deadline_millis();
        let y = b.get_deadline_millis();
        x < y || (x == y && priority_rank_value(&a.priority) < priority_rank_value(&b.priority))
    }
}

/// The order of schedules is a strict weak order.
pub proof fn lemma_schedule_order(order: &ScheduleOrder)
    ensures
        order.well_formed(),
        strict_weak_order(order),
{
}

/// Schedules leave a queue in the order of their deadlines, and those that are due at the
/// same instant in the order of their priorities. Of a run of schedules that `dequeue` hands
/// out one after the other, `held` being what the queue holds before, between and after:
/// each was held at first, none comes out twice, and one that comes out later is due no
/// earlier than one that came out before it, nor does its priority rank before that one's
/// where both are due at the same instant. Once the queue is empty, all that it held at first
/// have come out.
pub proof fn lemma_schedules_leave_in_order(
    held: Seq<Map<Seq<char>, StSchedule>>,
    out: Seq<StSchedule>,
)
    requires
        held.len() == out.len() + 1,
        forall|k: int|
            0 <= k < out.len() ==> hands_out(ScheduleOrder, #[trigger] held[k], out[k], held[k + 1]),
    ensures
        forall|i: int|
            0 <= i < out.len() ==> held[0].contains_key((#[trigger] out[i])@.id) && held[0][out[i]@.id]
                == out[i],
        forall|i: int, j: int|
            0 <= i < j < out.len() ==> (#[trigger] out[i])@.id != (#[trigger] out[j])@.id,
        forall|i: int, j: int|
            0 <= i < j < out.len() ==> (#[trigger] out[i])@.timing.deadline <= (
            #[trigger] out[j])@.timing.deadline && (out[i]@.timing.deadline
                == out[j]@.timing.deadline ==> priority_rank(out[i]@.priority) <= priority_rank(
                out[j]@.priority,
            )),
        held.last() == Map::<Seq<char>, StSchedule>::empty() ==> forall|id: Seq<char>| #[trigger]
            held[0].contains_key(id) ==> exists|i: int|
                0 <= i < out.len() && (#[trigger] out[i])@.id == id,
{
    lemma_dequeue_ascending(ScheduleOrder, held, out);
    assert forall|i: int, j: int| 0 <= i < j < out.len() implies (#[trigger] out[i])@.timing.deadline
        <= (#[trigger] out[j])@.timing.deadline && (out[i]@.timing.deadline
        == out[j]@.timing.deadline ==> priority_rank(out[i]@.priority) <= priority_rank(
        out[j]@.priority,
    )) by {
        assert(!ScheduleOrder.precedes(&out[j], &out[i]));
    }
    assert forall|i: int, j: int| 0 <= i < j < out.len() implies (#[trigger] out[i])@.id != (
    #[trigger] out[j])@.id by {
        assert(out[i].id_view() != out[j].id_view());
    }
    assert forall|i: int| 0 <= i < out.len() implies held[0].contains_key((#[trigger] out[i])@.id)
        && held[0][out[i]@.id] == out[i] by {
        assert(held[0].contains_key(out[i].id_view()));
    }
    if held.last() == Map::<Seq<char>, StSchedule>::empty() {
        assert forall|id: Seq<char>| #[trigger] held[0].contains_key(id) implies exists|i: int|
            0 <= i < out.len() && (#[trigger] out[i])@.id == id by {
            let i = choose|i: int| 0 <= i < out.len() && (#[trigger] out[i]).id_view() == id;
            assert(out[i]@.id == id);
        }
    }
}

} // verus!
