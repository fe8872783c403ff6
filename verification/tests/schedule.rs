use std::cmp::max;

use chrono::{DateTime, Timelike, Utc};

use scheduler::scheduling::errors::{ParseError, TimingError};
use scheduler::scheduling::frequency::{
    StCustomFrequency, StDailyExpression, StFrequency, StFrequencyType, StHourlyExpression,
    StMonthlyExpression, StOrdinals, StRegularFrequency, StVarWeekday, StWeeklyExpression,
    StYearlyExpression, StConstWeekday,
};
use scheduler::scheduling::priority::StPriority;
use scheduler::scheduling::schedule::{StSchedule, Timing};
use scheduler::scheduling::time::Timestamp;
use scheduler::scheduling::timing::TimingOptions;
use scheduler::traits::ID;

static ISO_DATE_STRING: &str = "2024-10-28T21:05:55.025";
static TIMEZONE: &str = "Africa/Lagos";
/// 2024-10-28T21:05:55.025 in Lagos, which is one hour ahead of UTC
static TIMESTAMP_MILLIS: i64 = 1730145955025;

fn timing(anchor: &str, zone: &str) -> Timing {
    Timing::with_naive_anchor_tz(anchor, zone).unwrap()
}

fn regular(freq: StRegularFrequency) -> StFrequency {
    StFrequency::Regular(freq)
}

/// Should successfully create a bare minimum schedule with the given data
#[test]
fn pass_create_bare_minimum_schedule() {
    let schedule = StSchedule::new("id", ISO_DATE_STRING, TIMEZONE, None).unwrap();

    assert_eq!(schedule.get_id(), "id");
    assert_eq!(schedule.get_priority(), None);
    assert_eq!(schedule.get_anchor_millis(), TIMESTAMP_MILLIS);
    assert_eq!(schedule.get_custom_frequency(), None);
    assert_eq!(schedule.get_regular_frequency(), None);
}

/// Should successfully create a more robust schedule
#[test]
fn pass_create_robust_schedule() {
    {
        let cstm_freq = StCustomFrequency::new(vec!["*/10 * * * *".to_string()], None);
        let schedule = StSchedule::with_custom(
            "id",
            ISO_DATE_STRING,
            TIMEZONE,
            cstm_freq.clone(),
            Some(StPriority::High),
        )
        .unwrap();

        assert_eq!(schedule.get_id(), "id");
        assert_eq!(schedule.get_priority(), Some(StPriority::High));
        assert_eq!(schedule.get_anchor_millis(), TIMESTAMP_MILLIS);
        assert_eq!(schedule.get_custom_frequency(), Some(cstm_freq));
        assert_eq!(schedule.get_regular_frequency(), None);
    }

    {
        let reg_freq =
            StRegularFrequency::new(StFrequencyType::Hour, StHourlyExpression::new(1), None);
        let schedule = StSchedule::with_regular(
            "id",
            ISO_DATE_STRING,
            TIMEZONE,
            reg_freq.clone(),
            Some(StPriority::High),
        )
        .unwrap();

        assert_eq!(schedule.get_id(), "id");
        assert_eq!(schedule.get_priority(), Some(StPriority::High));
        assert_eq!(schedule.get_anchor_millis(), TIMESTAMP_MILLIS);
        assert_eq!(schedule.get_regular_frequency(), Some(reg_freq));
        assert_eq!(schedule.get_custom_frequency(), None);
    }
}

#[test]
fn pass_get_upcoming_cron_schedule() {
    let expr = vec!["*/10 * * * *", "*/2,3,6 * * * *"]
        .into_iter()
        .map(|v| v.to_string())
        .collect();
    let cstm_freq = StCustomFrequency::new(expr, None);

    let schedule = StSchedule::with_custom(
        "id",
        ISO_DATE_STRING,
        TIMEZONE,
        cstm_freq.clone(),
        Some(StPriority::High),
    )
    .unwrap();

    println!("Is Passed -> {:#?}", schedule);

    // a schedule that is not yet due has no upcoming schedule
    assert_eq!(schedule.get_upcoming_schedule(), Err(TimingError::Conflict));

    let anchor_dt = DateTime::from_timestamp_millis(schedule.get_anchor_millis()).unwrap();
    let due = schedule.get_deadline_millis();
    let later = Timestamp::Millis(due + 1);
    let upcoming_schedule = schedule.get_upcoming_schedule_at(&later).unwrap();

    assert_ne!(schedule.get_deadline_millis(), upcoming_schedule.get_deadline_millis());
    assert_eq!(schedule.get_anchor_millis(), upcoming_schedule.get_anchor_millis());

    // Ensure the greatest of `time_t` and `now` is used
    let after_time_t = max(DateTime::<Utc>::from_timestamp_millis(due + 1).unwrap(), anchor_dt);
    let upcoming_time_t =
        DateTime::from_timestamp_millis(upcoming_schedule.get_deadline_millis()).unwrap();

    assert!(upcoming_time_t > after_time_t);
    // the earlier of the two expressions fires at the latest two minutes on
    assert!((upcoming_time_t - after_time_t).num_seconds() <= 120);
    assert_eq!(upcoming_time_t.second(), 0);
    let minute = upcoming_time_t.minute();
    assert!(minute % 2 == 0 || minute == 3);
}

#[test]
fn anchor_is_read_in_its_timezone() {
    let lagos = timing("2024-11-10T11:03:00", "Africa/Lagos");
    assert_eq!(lagos.anchor().as_ms(), 1731232980000);
    assert_eq!(lagos.deadline().as_ms(), 1731232980000);
    assert_eq!(lagos.timezone(), "Africa/Lagos");
    assert_eq!(lagos.naive_anchor().hour, 11);
    assert_eq!(lagos.naive_anchor().minute, 3);
    assert_eq!(lagos.naive_anchor().year, 2024);

    let utc = timing("2024-11-10T11:03:00", "UTC");
    assert_eq!(utc.anchor().as_ms(), 1731236580000);
}

#[test]
fn anchor_with_fraction_of_second() {
    let t = timing("2025-01-05T09:05:38.392", "Africa/Lagos");
    assert_eq!(t.anchor().as_ms() % 1000, 392);
    assert_eq!(t.naive_anchor().nanosecond, 392_000_000);
}

#[test]
fn unknown_timezone_is_a_parse_error() {
    let r = Timing::with_naive_anchor_tz("2025-01-05T09:05:38.392", "Africa/Los_Angeles");
    assert!(matches!(r, Err(ParseError::Timezone(_))));
}

#[test]
fn unreadable_anchor_is_a_parse_error() {
    let r = Timing::with_naive_anchor_tz("2025-13-45 09:05", "Africa/Lagos");
    assert!(matches!(r, Err(ParseError::DateTime(_))));
    let r = StSchedule::new("id", "yesterday", "Africa/Lagos", None);
    assert!(matches!(r, Err(ParseError::DateTime(_))));
}

#[test]
fn anchor_in_a_gap_of_the_clock_fails() {
    // the clocks of New York went from 02:00 to 03:00 on 10 March 2024
    let r = Timing::with_naive_anchor_tz("2024-03-10T02:30:00", "America/New_York");
    assert_eq!(r, Err(ParseError::ResolutionFailed));
}

#[test]
fn ambiguous_anchor_takes_the_later_instant() {
    // the clocks of New York showed 01:30 twice on 3 November 2024
    let t = timing("2024-11-03T01:30:00", "America/New_York");
    // 01:30 EST is 06:30 UTC
    assert_eq!(t.anchor().as_ms(), 1730615400000);
}

#[test]
fn hourly_keeps_the_phase_of_the_anchor() {
    let t = timing("2024-10-21T14:19:00", "UTC");
    assert_eq!(t.anchor().as_ms(), 1729520340000);
    let freq = regular(StRegularFrequency::new(
        StFrequencyType::Hour,
        StHourlyExpression::new(4),
        None,
    ));
    let r = t.refresh_at(&freq, &Timestamp::Millis(1729540800000)).unwrap();
    assert_eq!(r.deadline().as_ms(), 1729549140000);
    assert_eq!(r.anchor().as_ms(), 1729520340000);
}

#[test]
fn refresh_of_a_future_deadline_changes_nothing() {
    let t = timing("2024-10-21T14:19:00", "UTC");
    let freq = regular(StRegularFrequency::new(
        StFrequencyType::Hour,
        StHourlyExpression::new(4),
        None,
    ));
    let r = t.clone().refresh_at(&freq, &Timestamp::Millis(1729520339999)).unwrap();
    assert_eq!(r, t);
    // a second refresh of a refreshed timing for the same present changes nothing either
    let now = Timestamp::Millis(1729540800000);
    let once = t.refresh_at(&freq, &now).unwrap();
    let twice = once.clone().refresh_at(&freq, &now).unwrap();
    assert_eq!(once, twice);
}

#[test]
fn hourly_on_a_whole_number_of_periods_fires_at_the_present() {
    let t = timing("2024-10-21T14:19:00", "UTC");
    let freq = regular(StRegularFrequency::new(
        StFrequencyType::Hour,
        StHourlyExpression::new(4),
        None,
    ));
    let now = 1729520340000 + 8 * 3_600_000;
    let r = t.clone().refresh_at(&freq, &Timestamp::Millis(now)).unwrap();
    assert_eq!(r.deadline().as_ms(), now);
    // a present that is the anchor itself moves the deadline one period on
    let r = t.refresh_at(&freq, &Timestamp::Millis(1729520340000)).unwrap();
    assert_eq!(r.deadline().as_ms(), 1729520340000 + 4 * 3_600_000);
}

#[test]
fn daily_moves_by_whole_days() {
    let t = timing("2024-10-21T14:19:00", "UTC");
    let freq = regular(StRegularFrequency::with_daily_expr(
        StFrequencyType::Day,
        StDailyExpression::new(3),
        None,
    ));
    // five days and a bit later the second period of three days is running
    let now = 1729520340000 + 5 * 86_400_000 + 1;
    let r = t.refresh_at(&freq, &Timestamp::Millis(now)).unwrap();
    assert_eq!(r.deadline().as_ms(), 1729520340000 + 6 * 86_400_000);
}

#[test]
fn frequency_that_has_expired() {
    let t = timing("2023-06-01T00:00:00", "UTC");
    let freq = regular(StRegularFrequency::with_daily_expr(
        StFrequencyType::Day,
        StDailyExpression::new(1),
        Some(1704067200000),
    ));
    let r = t.clone().refresh_at(&freq, &Timestamp::Millis(1735689600000));
    assert_eq!(r, Err(TimingError::FrequencyExpired));
    // the end of validity is no firing any more
    let r = t.clone().refresh_at(&freq, &Timestamp::Millis(1704067200000 - 1));
    assert_eq!(r, Err(TimingError::FrequencyExpired));
    // the day before it still is
    let r = t.refresh_at(&freq, &Timestamp::Millis(1704067200000 - 86_400_000 - 1)).unwrap();
    assert_eq!(r.deadline().as_ms(), 1704067200000 - 86_400_000);
}

#[test]
fn weekly_without_weekdays_moves_by_whole_weeks() {
    let t = timing("2024-10-21T14:19:00", "UTC");
    let freq = regular(StRegularFrequency::with_weekly_expr(
        StFrequencyType::Week,
        StWeeklyExpression::with_weekdays(2, vec![]),
        None,
    ));
    let now = 1729520340000 + 15 * 86_400_000;
    let r = t.refresh_at(&freq, &Timestamp::Millis(now)).unwrap();
    assert_eq!(r.deadline().as_ms(), 1729520340000 + 28 * 86_400_000);
}

#[test]
fn weekly_without_weekdays_on_a_whole_number_of_periods_fires_at_the_present() {
    let t = timing("2024-10-21T14:19:00", "UTC");
    let freq = regular(StRegularFrequency::with_weekly_expr(
        StFrequencyType::Week,
        StWeeklyExpression::with_weekdays(2, vec![]),
        None,
    ));
    let now = 1729520340000 + 28 * 86_400_000;
    let r = t.refresh_at(&freq, &Timestamp::Millis(now)).unwrap();
    assert_eq!(r.deadline().as_ms(), now);
}

#[test]
fn weekly_on_the_weekday_of_the_present_waits_a_period() {
    // the anchor is a Monday and so is the present, two weeks later to the millisecond
    let t = timing("2024-10-21T14:19:00", "UTC");
    let freq = regular(StRegularFrequency::with_weekly_expr(
        StFrequencyType::Week,
        StWeeklyExpression::with_weekdays(1, vec![1]),
        None,
    ));
    let now = 1729520340000 + 14 * 86_400_000;
    let r = t.refresh_at(&freq, &Timestamp::Millis(now)).unwrap();
    assert_eq!(r.deadline().as_ms(), now + 7 * 86_400_000);
}

#[test]
fn weekly_with_weekdays_fires_on_one_of_them() {
    // the anchor is a Monday
    let t = timing("2024-10-21T14:19:00", "UTC");
    let freq = regular(StRegularFrequency::with_weekly_expr(
        StFrequencyType::Week,
        StWeeklyExpression::with_weekdays(1, vec![3, 5]),
        None,
    ));
    // Thursday 24 October: the Wednesday of the week is past and comes again a week on, and
    // the Friday, which is not yet past, is moved a period on
    let r = t.refresh_at(&freq, &Timestamp::Millis(1729728000000)).unwrap();
    assert_eq!(r.deadline().as_ms(), 1730297940000);
    let fired = DateTime::from_timestamp_millis(r.deadline().as_ms()).unwrap();
    assert_eq!(chrono::Datelike::weekday(&fired), chrono::Weekday::Wed);
}

#[test]
fn monthly_on_days_skips_months_without_the_day() {
    let t = timing("2024-01-31T10:00:00", "UTC");
    let freq = regular(StRegularFrequency::with_monthly_expr(
        StFrequencyType::Month,
        StMonthlyExpression::with_days(1, vec![31]),
        None,
    ));
    let r = t.refresh_at(&freq, &Timestamp::Millis(1707955200000)).unwrap();
    assert_eq!(r.deadline().as_ms(), 1711879200000);
}

#[test]
fn monthly_on_days_takes_the_first_day_after_the_present() {
    let t = timing("2024-01-31T10:00:00", "UTC");
    let freq = regular(StRegularFrequency::with_monthly_expr(
        StFrequencyType::Month,
        StMonthlyExpression::with_days(1, vec![20, 10, 25]),
        None,
    ));
    // 15 February 2024
    let r = t.clone().refresh_at(&freq, &Timestamp::Millis(1707955200000)).unwrap();
    // 20 February 2024, 10:00
    assert_eq!(r.deadline().as_ms(), 1708423200000);
    // 26 February 2024: the days of February are past, so the 10th of March it is
    let r = t.refresh_at(&freq, &Timestamp::Millis(1708905600000)).unwrap();
    assert_eq!(r.deadline().as_ms(), 1710064800000);
}

#[test]
fn monthly_without_days_is_missing_its_expression() {
    let t = timing("2024-01-31T10:00:00", "UTC");
    let freq = regular(StRegularFrequency::with_monthly_expr(
        StFrequencyType::Month,
        StMonthlyExpression::with_days(1, vec![0, 32]),
        None,
    ));
    let r = t.refresh_at(&freq, &Timestamp::Millis(1707955200000));
    assert_eq!(r, Err(TimingError::MissingExpression));
}

#[test]
fn monthly_last_friday() {
    let t = timing("2025-01-05T09:00:00", "UTC");
    let freq = regular(StRegularFrequency::with_monthly_expr(
        StFrequencyType::Month,
        StMonthlyExpression::with_ordinal_weekday(1, StOrdinals::Last, StConstWeekday::Fri),
        None,
    ));
    let r = t.refresh_at(&freq, &Timestamp::Millis(1736467200000)).unwrap();
    assert_eq!(r.deadline().as_ms(), 1738314000000);
}

#[test]
fn monthly_fifth_friday_waits_for_a_month_that_has_one() {
    let t = timing("2025-01-05T09:00:00", "UTC");
    let freq = regular(StRegularFrequency::with_monthly_expr(
        StFrequencyType::Month,
        StMonthlyExpression::with_ordinal_weekday(1, StOrdinals::Fifth, StConstWeekday::Fri),
        None,
    ));
    // 1 February 2025; the next month with five Fridays is May
    let r = t.refresh_at(&freq, &Timestamp::Millis(1738368000000)).unwrap();
    // 30 May 2025, 09:00
    assert_eq!(r.deadline().as_ms(), 1748595600000);
}

#[test]
fn monthly_every_second_month_keeps_to_its_months() {
    let t = timing("2025-01-05T09:00:00", "UTC");
    let freq = regular(StRegularFrequency::with_monthly_expr(
        StFrequencyType::Month,
        StMonthlyExpression::with_ordinal_weekday(2, StOrdinals::First, StConstWeekday::Mon),
        None,
    ));
    // 1 February 2025: February is no month of the rule, March is
    let r = t.refresh_at(&freq, &Timestamp::Millis(1738368000000)).unwrap();
    // Monday 3 March 2025, 09:00
    assert_eq!(r.deadline().as_ms(), 1740992400000);
}

#[test]
fn yearly_first_day_of_the_weekend() {
    let t = timing("2024-01-15T08:30:00", "UTC");
    let freq = regular(StRegularFrequency::with_yearly_expr(
        StFrequencyType::Year,
        StYearlyExpression::with_months_ordinal_var_weekday(
            1,
            vec![0],
            StOrdinals::First,
            StVarWeekday::Weekend,
        ),
        None,
    ));
    let r = t.refresh_at(&freq, &Timestamp::Millis(1717200000000)).unwrap();
    assert_eq!(r.deadline().as_ms(), 1735979400000);
}

#[test]
fn yearly_last_working_day() {
    let t = timing("2024-01-15T08:30:00", "UTC");
    let freq = regular(StRegularFrequency::with_yearly_expr(
        StFrequencyType::Year,
        StYearlyExpression::with_months_ordinal_var_weekday(
            1,
            vec![10],
            StOrdinals::Last,
            StVarWeekday::Weekday,
        ),
        None,
    ));
    // 30 November 2024 is a Saturday, so the Friday before it is the day
    let r = t.refresh_at(&freq, &Timestamp::Millis(1717200000000)).unwrap();
    assert_eq!(r.deadline().as_ms(), 1732869000000);
}

#[test]
fn yearly_without_a_weekday_fires_on_the_last_day_of_the_month() {
    let t = timing("2024-01-15T08:30:00", "UTC");
    let freq = regular(StRegularFrequency::with_yearly_expr(
        StFrequencyType::Year,
        StYearlyExpression::with_months(1, vec![1, 5]),
        None,
    ));
    // 20 January 2024: 29 February 2024 comes before 30 June
    let r = t.clone().refresh_at(&freq, &Timestamp::Millis(1705708800000)).unwrap();
    assert_eq!(r.deadline().as_ms(), 1709164800000 + 8 * 3_600_000 + 30 * 60_000);
    // 1 March 2024: 30 June 2024 is next
    let r = t.refresh_at(&freq, &Timestamp::Millis(1709251200000)).unwrap();
    assert_eq!(r.deadline().as_ms(), 1719736200000);
}

#[test]
fn yearly_third_day() {
    let t = timing("2024-01-15T08:30:00", "UTC");
    let freq = regular(StRegularFrequency::with_yearly_expr(
        StFrequencyType::Year,
        StYearlyExpression::with_months_ordinal_var_weekday(
            1,
            vec![2],
            StOrdinals::Third,
            StVarWeekday::Day,
        ),
        None,
    ));
    // 20 January 2024: 3 March 2024
    let r = t.refresh_at(&freq, &Timestamp::Millis(1705708800000)).unwrap();
    assert_eq!(r.deadline().as_ms(), 1709454600000);
}

#[test]
fn yearly_without_months_is_missing_its_expression() {
    let t = timing("2024-01-15T08:30:00", "UTC");
    let freq = regular(StRegularFrequency::with_yearly_expr(
        StFrequencyType::Year,
        StYearlyExpression::with_months(1, vec![]),
        None,
    ));
    let r = t.refresh_at(&freq, &Timestamp::Millis(1717200000000));
    assert_eq!(r, Err(TimingError::MissingExpression));
}

#[test]
fn yearly_fifth_monday_of_a_month_without_one() {
    let t = timing("2024-01-15T08:30:00", "UTC");
    let freq = regular(StRegularFrequency::with_yearly_expr(
        StFrequencyType::Year,
        StYearlyExpression::with_months_ordinal_const_weekday(
            1,
            vec![1],
            StOrdinals::Fifth,
            StConstWeekday::Mon,
        ),
        None,
    ));
    // February 2024 has four Mondays
    let r = t.refresh_at(&freq, &Timestamp::Millis(1705708800000));
    assert_eq!(r, Err(TimingError::NonDeterministic));
}

#[test]
fn rule_that_repeats_every_zero_units_is_never_met() {
    let t = timing("2024-10-21T14:19:00", "UTC");
    let freq = regular(StRegularFrequency::new(
        StFrequencyType::Hour,
        StHourlyExpression::new(0),
        None,
    ));
    let r = t.refresh_at(&freq, &Timestamp::Millis(1729540800000));
    assert_eq!(r, Err(TimingError::NonDeterministic));
}

#[test]
fn cron_is_read_in_the_timezone_of_the_timing() {
    let t = timing("2024-11-10T11:03:00", "Africa/Lagos");
    let freq = StFrequency::Custom(StCustomFrequency::new(vec!["*/2 * * * *".to_string()], None));
    let r = t.refresh_at(&freq, &Timestamp::Millis(1731232980000)).unwrap();
    assert_eq!(r.deadline().as_ms(), 1731233040000);

    // ten o'clock in the morning is ten o'clock in New York
    let t = timing("2024-06-01T08:00:00", "America/New_York");
    let freq = StFrequency::Custom(StCustomFrequency::new(vec!["0 10 * * *".to_string()], None));
    let now = t.anchor().as_ms();
    let r = t.refresh_at(&freq, &Timestamp::Millis(now)).unwrap();
    assert_eq!(r.deadline().as_ms(), now + 2 * 3_600_000);
}

#[test]
fn cron_takes_the_earliest_of_the_first_three_expressions() {
    let t = timing("2024-11-10T11:03:00", "UTC");
    let crons = vec![
        "30 11 * * *".to_string(),
        "10 11 * * *".to_string(),
        "20 11 * * *".to_string(),
        "4 11 * * *".to_string(),
    ];
    let freq = StFrequency::Custom(StCustomFrequency::new(crons, None));
    let now = t.anchor().as_ms();
    let r = t.refresh_at(&freq, &Timestamp::Millis(now)).unwrap();
    // 11:10, since the fourth expression is not consulted
    assert_eq!(r.deadline().as_ms(), now + 7 * 60_000);
}

#[test]
fn cron_starts_from_the_later_of_anchor_and_present() {
    let t = timing("2024-11-10T11:03:00", "UTC");
    let freq = StFrequency::Custom(StCustomFrequency::new(vec!["*/10 * * * *".to_string()], None));
    let now = t.anchor().as_ms() + 3 * 3_600_000;
    let r = t.refresh_at(&freq, &Timestamp::Millis(now)).unwrap();
    assert_eq!(r.deadline().as_ms(), now + 7 * 60_000);
}

#[test]
fn cron_that_cannot_be_read_is_a_parse_error() {
    let t = timing("2024-11-10T11:03:00", "UTC");
    let crons = vec!["*/2 * * * *".to_string(), "every minute".to_string()];
    let freq = StFrequency::Custom(StCustomFrequency::new(crons, None));
    let r = t.refresh_at(&freq, &Timestamp::Millis(1731236580000));
    assert!(matches!(r, Err(TimingError::ParseError(ParseError::CronExpr(_)))));
}

#[test]
fn cron_without_expressions_is_missing_its_expression() {
    let t = timing("2024-11-10T11:03:00", "UTC");
    let freq = StFrequency::Custom(StCustomFrequency::new(vec![], None));
    let r = t.refresh_at(&freq, &Timestamp::Millis(1731236580000));
    assert_eq!(r, Err(TimingError::MissingExpression));
}

#[test]
fn cron_that_has_expired() {
    let t = timing("2024-11-10T11:03:00", "UTC");
    let freq = StFrequency::Custom(StCustomFrequency::new(
        vec!["*/2 * * * *".to_string()],
        Some(1731236580000 + 60_000),
    ));
    let r = t.refresh_at(&freq, &Timestamp::Millis(1731236580000));
    assert_eq!(r, Err(TimingError::FrequencyExpired));
}

#[test]
fn upcoming_schedule_of_a_schedule_without_frequency() {
    let schedule = StSchedule::new("once", "2024-11-10T11:03:00", "UTC", None).unwrap();
    let before = Timestamp::Millis(1731236580000);
    assert_eq!(schedule.get_upcoming_schedule_at(&before), Err(TimingError::Conflict));
    let after = Timestamp::Millis(1731236580001);
    assert_eq!(schedule.get_upcoming_schedule_at(&after), Err(TimingError::MissingExpression));
    assert!(schedule.is_passed_at(&after));
    assert!(!schedule.is_passed_at(&before));
}

#[test]
fn upcoming_schedule_keeps_all_but_the_deadline() {
    let freq = StRegularFrequency::new(StFrequencyType::Hour, StHourlyExpression::new(4), None);
    let created = Timestamp::Millis(1729520340000 - 1);
    let schedule = StSchedule::with_regular_at(
        "tea",
        "2024-10-21T14:19:00",
        "UTC",
        freq.clone(),
        Some(StPriority::Low),
        &created,
    )
    .unwrap();
    assert_eq!(schedule.get_deadline_millis(), 1729520340000);
    let next = schedule.get_upcoming_schedule_at(&Timestamp::Millis(1729540800000)).unwrap();
    assert_eq!(next.get_id(), "tea");
    assert_eq!(next.get_priority(), Some(StPriority::Low));
    assert_eq!(next.get_regular_frequency(), Some(freq));
    assert_eq!(next.get_anchor_millis(), 1729520340000);
    assert_eq!(next.get_deadline_millis(), 1729549140000);
    // schedules are the same when their ids are
    assert_eq!(next, schedule);
}

#[test]
fn schedule_made_after_its_anchor_is_refreshed() {
    let freq = StRegularFrequency::new(StFrequencyType::Hour, StHourlyExpression::new(4), None);
    let schedule = StSchedule::with_regular_at(
        "tea",
        "2024-10-21T14:19:00",
        "UTC",
        freq,
        None,
        &Timestamp::Millis(1729540800000),
    )
    .unwrap();
    assert_eq!(schedule.get_deadline_millis(), 1729549140000);
    let freq = StCustomFrequency::new(vec!["nonsense".to_string()], None);
    let r = StSchedule::with_custom_at(
        "tea",
        "2024-10-21T14:19:00",
        "UTC",
        freq,
        None,
        &Timestamp::Millis(1729540800000),
    );
    assert!(matches!(r, Err(TimingError::ParseError(ParseError::CronExpr(_)))));
    let freq = StCustomFrequency::new(vec!["* * * * *".to_string()], None);
    let r = StSchedule::with_custom_at(
        "tea",
        "2024-10-21T14:19:00",
        "Mars/Olympus",
        freq,
        None,
        &Timestamp::Millis(1729540800000),
    );
    assert!(matches!(r, Err(TimingError::ParseError(ParseError::Timezone(_)))));
}

#[test]
fn schedules_are_ordered_by_deadline_then_priority() {
    let early = StSchedule::new("a", "2024-10-21T14:19:00", "UTC", Some(StPriority::Low)).unwrap();
    let late = StSchedule::new("b", "2024-10-21T14:20:00", "UTC", Some(StPriority::High)).unwrap();
    let high = StSchedule::new("c", "2024-10-21T14:19:00", "UTC", Some(StPriority::High)).unwrap();
    let none = StSchedule::new("d", "2024-10-21T14:19:00", "UTC", None).unwrap();
    assert!(early < late);
    assert!(high < early);
    assert!(none < high);
    assert!(!(early < early.clone()));
    assert_ne!(early, high);
}

#[test]
fn errors_say_what_went_wrong() {
    assert_eq!(
        TimingError::NonDeterministic.message(),
        "The correct timing could not be determined at the time"
    );
    assert_eq!(
        TimingError::FrequencyExpired.message(),
        "The timing frequency has expired since its given 'until' is passed "
    );
    assert_eq!(
        TimingError::MissingExpression.message(),
        "The frequency expressions list is either empty or parameters omitted"
    );
    assert_eq!(
        TimingError::Conflict.message(),
        "There seem to be ongoing timing that is yet due"
    );
    assert_eq!(
        TimingError::ParseError(ParseError::ResolutionFailed).message(),
        "The parsed input could not resolve to a useful output"
    );
    let unknown = Timing::with_naive_anchor_tz("2024-10-21T14:19:00", "Nowhere").unwrap_err();
    assert_eq!(unknown.message(), "failed to parse timezone");
}

#[test]
fn rule_that_names_nothing_is_missing_its_expression_whatever_it_repeats_by() {
    let t = timing("2024-01-15T08:30:00", "UTC");
    let now = Timestamp::Millis(1717200000000);
    let yearly = regular(StRegularFrequency::with_yearly_expr(
        StFrequencyType::Year,
        StYearlyExpression::with_months(0, vec![]),
        None,
    ));
    assert_eq!(t.clone().refresh_at(&yearly, &now), Err(TimingError::MissingExpression));
    let monthly = regular(StRegularFrequency::with_monthly_expr(
        StFrequencyType::Month,
        StMonthlyExpression::with_days(0, vec![]),
        None,
    ));
    assert_eq!(t.clone().refresh_at(&monthly, &now), Err(TimingError::MissingExpression));
    // a present that no calendar holds changes nothing of that
    let far = Timestamp::Millis(i64::MAX);
    assert_eq!(t.clone().refresh_at(&yearly, &far), Err(TimingError::MissingExpression));
    assert_eq!(t.clone().refresh_at(&monthly, &far), Err(TimingError::MissingExpression));
    let custom = StFrequency::Custom(StCustomFrequency::new(vec![], None));
    assert_eq!(t.clone().refresh_at(&custom, &far), Err(TimingError::MissingExpression));

    let options = TimingOptions { curtime: now };
    assert_eq!(
        Timing::next_yearly_timestamp(t.anchor(), 0, &vec![], None, &options),
        Err(TimingError::MissingExpression)
    );
    assert_eq!(
        Timing::next_monthly_schedule(t.anchor(), 0, None, None, &options),
        Err(TimingError::MissingExpression)
    );
    assert_eq!(
        Timing::next_monthly_schedule(t.anchor(), 0, Some(&vec![]), None, &options),
        Err(TimingError::MissingExpression)
    );
}

#[test]
fn cron_error_is_that_of_the_first_expression_that_is_refused() {
    let t = timing("2024-11-10T11:03:00", "UTC");
    let crons = vec![
        "*/2 * * * *".to_string(),
        "61 * * * *".to_string(),
        "every minute".to_string(),
    ];
    let freq = StFrequency::Custom(StCustomFrequency::new(crons, None));
    let now: i64 = 1731236580000;
    let start = DateTime::from_timestamp_millis(now).unwrap().with_timezone(&chrono_tz::UTC);
    let first = cron_parser::parse("61 * * * *", &start).unwrap_err().to_string();
    let second = cron_parser::parse("every minute", &start).unwrap_err().to_string();
    assert_ne!(first, second);
    let r = t.clone().refresh_at(&freq, &Timestamp::Millis(now));
    assert_eq!(r, Err(TimingError::ParseError(ParseError::CronExpr(first))));

    // an expression that is not consulted is not read at all
    let crons = vec![
        "*/2 * * * *".to_string(),
        "*/3 * * * *".to_string(),
        "*/5 * * * *".to_string(),
        "every minute".to_string(),
    ];
    let freq = StFrequency::Custom(StCustomFrequency::new(crons, None));
    assert!(t.refresh_at(&freq, &Timestamp::Millis(now)).is_ok());
}
