use scheduler::scheduling::errors::TimingError;
use scheduler::scheduling::frequency::{StConstWeekday, StMonth, StOrdinals, StVarWeekday, StWeekday};
use scheduler::scheduling::schedule::Timing;
use scheduler::scheduling::time::{Timestamp, HOUR_MILLIS, WEEK_MILLIS};
use scheduler::scheduling::timing::{
    align, bring_mo_anchor_forward, bring_wk_anchor_forward, bring_yr_anchor_forward,
    checked_next_periodic, earliest_after, get_days_in_year_month, get_dow_offset,
    get_next_daily_timestamp, get_next_hourly_timestamp, get_next_monthly_days_schedule,
    get_next_monthly_days_timestamp, get_next_monthly_ordinal_timestamp,
    get_leap_years_between, get_next_leap_year, get_next_weekly_timestamp,
    get_next_yearly_timestamp, get_rev_dow_offset, get_weekday,
    is_feb, is_leap_month, is_leap_year, set_day_of_week, TimingOptions,
};

/// 2024-10-21T14:19:00.000Z
static TIMESTAMP: Timestamp = Timestamp::Millis(1729520340000);

fn at(millis: i64) -> TimingOptions {
    TimingOptions { curtime: Timestamp::Millis(millis) }
}

#[test]
fn test_next_hourly_schedule() {
    {
        let hours = 1;
        let next_timestamp =
            Timing::next_hourly_timestamp(TIMESTAMP, hours, &TimingOptions::default());

        assert_eq!(
            ((next_timestamp.as_ms() - TIMESTAMP.as_ms()) / HOUR_MILLIS as i64) % hours as i64,
            0,
        )
    }

    {
        let hours = 4;
        let next_timestamp =
            Timing::next_hourly_timestamp(TIMESTAMP, hours, &TimingOptions::default());

        assert_eq!(
            ((next_timestamp.as_ms() - TIMESTAMP.as_ms()) / HOUR_MILLIS as i64) % hours as i64,
            0,
        )
    }
}

#[test]
fn test_next_weekly_schedule() {
    {
        let weeks = 1;
        let next_timestamp =
            Timing::next_weekly_timestamp(TIMESTAMP, weeks, None, &TimingOptions::default());

        assert_eq!(
            ((next_timestamp.as_ms() - TIMESTAMP.as_ms()) / WEEK_MILLIS as i64) % weeks as i64,
            0,
        )
    }

    {
        let weeks = 3;
        let next_timestamp =
            Timing::next_weekly_timestamp(TIMESTAMP, weeks, None, &TimingOptions::default());

        assert_eq!(
            ((next_timestamp.as_ms() - TIMESTAMP.as_ms()) / WEEK_MILLIS as i64) % weeks as i64,
            0,
        )
    }
}

#[test]
fn next_timestamps_after_the_clock() {
    let options = TimingOptions::default();
    let now = options.curtime.as_ms();
    let hourly = Timing::next_hourly_timestamp(TIMESTAMP, 4, &options).as_ms();
    assert!(hourly >= now && hourly - now < 4 * HOUR_MILLIS as i64);
    assert_eq!((hourly - TIMESTAMP.as_ms()) % (4 * HOUR_MILLIS as i64), 0);
    let daily = Timing::next_daily_timestamp(TIMESTAMP, 2, &options).as_ms();
    assert!(daily >= now && daily - now < 2 * 86_400_000);
    assert_eq!((daily - TIMESTAMP.as_ms()) % (2 * 86_400_000), 0);
    let weekly = Timing::next_weekly_timestamp(TIMESTAMP, 3, None, &options).as_ms();
    assert!(weekly >= now && weekly - now < 3 * WEEK_MILLIS as i64);
    assert_eq!((weekly - TIMESTAMP.as_ms()) % (3 * WEEK_MILLIS as i64), 0);
}

#[test]
fn periodic_advance() {
    // the anchor is past: whole periods up to the present
    assert_eq!(checked_next_periodic(100, 30, 170), Some(190));
    assert_eq!(checked_next_periodic(100, 30, 190), Some(190));
    assert_eq!(checked_next_periodic(100, 30, 191), Some(220));
    assert_eq!(checked_next_periodic(100, 30, 101), Some(130));
    // the anchor is not past: one period on
    assert_eq!(checked_next_periodic(100, 30, 100), Some(130));
    assert_eq!(checked_next_periodic(100, 30, 40), Some(130));
    assert_eq!(checked_next_periodic(-100, 30, -95), Some(-70));
    // where a timestamp cannot hold the result there is none
    assert_eq!(checked_next_periodic(i64::MAX - 10, 30, i64::MAX - 20), None);
    assert_eq!(checked_next_periodic(i64::MIN, i64::MAX, i64::MAX), None);
    assert_eq!(checked_next_periodic(0, i64::MAX, 5), Some(i64::MAX));
}

#[test]
fn hourly_daily_weekly_formulas() {
    let now = at(1729540800000);
    assert_eq!(get_next_hourly_timestamp(TIMESTAMP, 4, &now).as_ms(), 1729549140000);
    assert_eq!(get_next_daily_timestamp(TIMESTAMP, 1, &now).as_ms(), 1729520340000 + 86_400_000);
    assert_eq!(
        bring_wk_anchor_forward(now.curtime, TIMESTAMP, 2).as_ms(),
        1729520340000 + 2 * 604_800_000
    );
    // an anchor that is not past moves one period on
    let early = at(1729520340000 - 5);
    assert_eq!(get_next_hourly_timestamp(TIMESTAMP, 4, &early).as_ms(), 1729520340000 + 14_400_000);
}

#[test]
fn weekly_candidates() {
    let now = at(1729728000000);
    let none = get_next_weekly_timestamp(TIMESTAMP, 1, None, &now);
    assert_eq!(none.len(), 1);
    assert_eq!(none[0].as_ms(), 1729520340000 + 604_800_000);
    let empty: Vec<StConstWeekday> = vec![];
    let same = get_next_weekly_timestamp(TIMESTAMP, 1, Some(&empty), &now);
    assert_eq!(same.len(), 1);
    assert_eq!(same[0], none[0]);
    let days = vec![StConstWeekday::Wed, StConstWeekday::Fri, StConstWeekday::Sun];
    let three = get_next_weekly_timestamp(TIMESTAMP, 1, Some(&days), &now);
    assert_eq!(three.len(), 3);
    // Wednesday 23 October is past: 30 October
    assert_eq!(three[0].as_ms(), 1730297940000);
    // Friday 25 October is not past: 1 November
    assert_eq!(three[1].as_ms(), 1730297940000 + 2 * 86_400_000);
    // Sunday 20 October is past: 27 October
    assert_eq!(three[2].as_ms(), 1730297940000 - 3 * 86_400_000);
    assert_eq!(
        earliest_after(&three, &now.curtime),
        Some(Timestamp::Millis(1730297940000 - 3 * 86_400_000))
    );
    assert_eq!(earliest_after(&three, &Timestamp::Millis(1730297940000 + 2 * 86_400_000)), None);
    assert_eq!(earliest_after(&vec![], &now.curtime), None);
}

#[test]
fn calendar_helpers() {
    assert!(is_feb(1));
    assert!(!is_feb(2));
    assert!(is_leap_year(2024));
    assert!(is_leap_year(2000));
    assert!(!is_leap_year(1900));
    assert!(!is_leap_year(2023));
    assert!(is_leap_year(-4));
    assert!(is_leap_month((1, 2024)));
    assert!(!is_leap_month((2, 2024)));
    assert!(!is_leap_month((1, 2023)));
    let lengths = [31, 29, 31, 30, 31, 30, 31, 31, 30, 31, 30, 31];
    for month in 0..12 {
        assert_eq!(get_days_in_year_month(2024, month), lengths[month as usize]);
    }
    assert_eq!(get_days_in_year_month(2023, 1), 28);
    assert_eq!(get_days_in_year_month(1900, 1), 28);
    assert_eq!(get_days_in_year_month(2000, 1), 29);
}

#[test]
fn weekday_offsets() {
    assert_eq!(get_dow_offset(3, 6), 3);
    assert_eq!(get_dow_offset(3, 0), 4);
    assert_eq!(get_dow_offset(3, 3), 0);
    assert_eq!(get_dow_offset(6, 5), 6);
    assert_eq!(get_dow_offset(0, 13), 6);
    assert_eq!(get_rev_dow_offset(5, 5), 0);
    assert_eq!(get_rev_dow_offset(6, 5), 1);
    assert_eq!(get_rev_dow_offset(0, 5), 2);
    assert_eq!(get_rev_dow_offset(3, 4), 6);
    for reference in 0..7 {
        for target in 0..7 {
            let forward = get_dow_offset(reference, target);
            let back = get_rev_dow_offset(reference, target);
            assert_eq!((reference + forward) % 7, target);
            assert_eq!((reference + 7 - back) % 7, target);
        }
    }
}

#[test]
fn weekday_of_an_instant() {
    assert_eq!(get_weekday(0), 4);
    assert_eq!(get_weekday(1729468800000), 1);
    assert_eq!(get_weekday(1729520340000), 1);
    assert_eq!(get_weekday(-86400000), 3);
    assert_eq!(get_weekday(-1), 3);
    assert_eq!(get_weekday(-2203891200000), 4);
    assert_eq!(get_weekday(1738281600000), 5);
    for millis in [0i64, 1729520340000, -1, -86400001, 951782400000, 4102444800000] {
        let there = chrono::DateTime::from_timestamp_millis(millis).unwrap();
        assert_eq!(
            get_weekday(millis),
            chrono::Datelike::weekday(&there).num_days_from_sunday()
        );
    }
}

#[test]
fn day_of_week_is_set_within_the_week() {
    // Monday 21 October 2024
    assert_eq!(set_day_of_week(&TIMESTAMP, &5).as_ms(), 1729520340000 + 4 * 86_400_000);
    assert_eq!(set_day_of_week(&TIMESTAMP, &0).as_ms(), 1729520340000 - 86_400_000);
    assert_eq!(set_day_of_week(&TIMESTAMP, &1).as_ms(), 1729520340000);
    assert_eq!(set_day_of_week(&TIMESTAMP, &13).as_ms(), 1729520340000 + 5 * 86_400_000);
    for weekday in 0..7 {
        assert_eq!(get_weekday(set_day_of_week(&TIMESTAMP, &weekday).as_ms()), weekday);
    }
}

#[test]
fn align_snaps_to_whole_days() {
    let day = 86_400_000;
    let x1 = Timestamp::Millis(1000);
    assert_eq!(align(Timestamp::Millis(1000 + day + day / 4), x1).as_ms(), 1000 + day);
    assert_eq!(align(Timestamp::Millis(1000 + day + 3 * day / 4), x1).as_ms(), 1000 + 2 * day);
    assert_eq!(align(Timestamp::Millis(1000 + day + day / 2), x1).as_ms(), 1000 + 2 * day);
    assert_eq!(align(Timestamp::Millis(1000 + 5 * day), x1).as_ms(), 1000 + 5 * day);
    assert_eq!(align(Timestamp::Millis(1000 - day / 4), x1).as_ms(), 1000);
    assert_eq!(align(Timestamp::Millis(1000 - 3 * day / 4), x1).as_ms(), 1000 - day);
}

#[test]
fn anchor_is_brought_forward_by_whole_periods() {
    // anchor in October 2024, present in January 2025
    let now = Timestamp::Millis(1736467200000);
    let october: i64 = 2024 * 12 + 9;
    assert_eq!(bring_mo_anchor_forward(now, TIMESTAMP, 1), october + 3);
    assert_eq!(bring_mo_anchor_forward(now, TIMESTAMP, 2), october + 4);
    assert_eq!(bring_mo_anchor_forward(now, TIMESTAMP, 3), october + 3);
    assert_eq!(bring_mo_anchor_forward(now, TIMESTAMP, 5), october + 5);
    // the month of the anchor itself, while the anchor is past
    assert_eq!(bring_mo_anchor_forward(Timestamp::Millis(1729520340001), TIMESTAMP, 7), october);
    // an anchor that is not past moves one period on
    assert_eq!(bring_mo_anchor_forward(Timestamp::Millis(1729520339999), TIMESTAMP, 7), october + 7);
    assert_eq!(bring_mo_anchor_forward(Timestamp::Millis(0), TIMESTAMP, 7), october + 7);

    assert_eq!(bring_yr_anchor_forward(now, TIMESTAMP, 1), 2025);
    assert_eq!(bring_yr_anchor_forward(now, TIMESTAMP, 2), 2026);
    assert_eq!(bring_yr_anchor_forward(Timestamp::Millis(1729520340001), TIMESTAMP, 3), 2024);
    assert_eq!(bring_yr_anchor_forward(Timestamp::Millis(0), TIMESTAMP, 3), 2027);
}

#[test]
fn monthly_candidates_on_days() {
    // the forwarded month is February 2024
    let anchor = Timestamp::Millis(1706695200000);
    let now = at(1707955200000);
    let days = vec![31, 29, 1, 30, 15];
    let found = get_next_monthly_days_timestamp(anchor, 1, &days, &now);
    let first = 1706781600000;
    assert_eq!(
        found,
        vec![
            Timestamp::Millis(first + 28 * 86_400_000),
            Timestamp::Millis(first),
            Timestamp::Millis(first + 14 * 86_400_000),
        ]
    );
    // 15 February at ten o'clock lies after the present, midnight of that day
    assert_eq!(
        get_next_monthly_days_schedule(anchor, 1, &days, &now),
        Ok(Timestamp::Millis(first + 14 * 86_400_000))
    );
    assert_eq!(
        get_next_monthly_days_schedule(anchor, 1, &days, &at(first + 14 * 86_400_000)),
        Ok(Timestamp::Millis(first + 28 * 86_400_000))
    );
    // a day that no month of the rule ever has: the 30th of a February
    let february = Timestamp::Millis(1707991200000);
    let never = vec![30];
    assert_eq!(get_next_monthly_days_timestamp(february, 12, &never, &at(1738368000000)), vec![]);
    assert_eq!(
        get_next_monthly_days_schedule(february, 12, &never, &at(1738368000000)),
        Err(TimingError::NonDeterministic)
    );
    // the 29th of a February comes in a leap year
    let leap = vec![29];
    assert_eq!(
        get_next_monthly_days_schedule(february, 12, &leap, &at(1738368000000)),
        Ok(Timestamp::Millis(1835431200000))
    );
}

#[test]
fn monthly_ordinals() {
    let anchor = Timestamp::Millis(1736067600000);
    let now = at(1736467200000);
    let on = |ordinal, weekday| get_next_monthly_ordinal_timestamp(anchor, 1, (ordinal, weekday), &now);
    // January 2025 begins on a Wednesday
    assert_eq!(on(StOrdinals::Last, StConstWeekday::Fri), Ok(Timestamp::Millis(1738314000000)));
    // the second Monday is the 13th
    assert_eq!(
        on(StOrdinals::Second, StConstWeekday::Mon),
        Ok(Timestamp::Millis(1736067600000 + 8 * 86_400_000))
    );
    // the first Wednesday, the 1st, and the first Sunday, the 5th, are past: February has them
    assert_eq!(
        on(StOrdinals::First, StConstWeekday::Wed),
        Ok(Timestamp::Millis(1736067600000 + 31 * 86_400_000))
    );
    assert_eq!(
        on(StOrdinals::First, StConstWeekday::Sun),
        Ok(Timestamp::Millis(1736067600000 + 28 * 86_400_000))
    );
    // the fifth Friday is the 31st
    assert_eq!(on(StOrdinals::Fifth, StConstWeekday::Fri), Ok(Timestamp::Millis(1738314000000)));
    // the last Wednesday is the 29th
    assert_eq!(
        on(StOrdinals::Last, StConstWeekday::Wed),
        Ok(Timestamp::Millis(1738314000000 - 2 * 86_400_000))
    );
}

#[test]
fn yearly_candidates() {
    let anchor = Timestamp::Millis(1705307400000);
    let now = at(1717200000000);
    let months = vec![StMonth::Jan, StMonth::Feb, StMonth::Nov];
    let jan1 = 1704097800000;
    let feb1 = jan1 + 31 * 86_400_000;
    let nov1 = jan1 + 305 * 86_400_000;
    let day = 86_400_000;
    let in_2024 = |on| get_next_yearly_timestamp(anchor, 1, &months, on, &now);
    // 1 January 2024 is a Monday, 1 February a Thursday, 1 November a Friday
    assert_eq!(
        in_2024(None),
        vec![
            Ok(Timestamp::Millis(jan1 + 30 * day)),
            Ok(Timestamp::Millis(feb1 + 28 * day)),
            Ok(Timestamp::Millis(nov1 + 29 * day)),
        ]
    );
    assert_eq!(
        in_2024(Some((StOrdinals::Fifth, StWeekday::Const(StConstWeekday::Thu)))),
        vec![
            Err(TimingError::NonDeterministic),
            Ok(Timestamp::Millis(feb1 + 28 * day)),
            Err(TimingError::NonDeterministic),
        ]
    );
    assert_eq!(
        in_2024(Some((StOrdinals::Last, StWeekday::Const(StConstWeekday::Mon)))),
        vec![
            Ok(Timestamp::Millis(jan1 + 28 * day)),
            Ok(Timestamp::Millis(feb1 + 25 * day)),
            Ok(Timestamp::Millis(nov1 + 24 * day)),
        ]
    );
    assert_eq!(
        in_2024(Some((StOrdinals::Fourth, StWeekday::Var(StVarWeekday::Day)))),
        vec![
            Ok(Timestamp::Millis(jan1 + 3 * day)),
            Ok(Timestamp::Millis(feb1 + 3 * day)),
            Ok(Timestamp::Millis(nov1 + 3 * day)),
        ]
    );
    assert_eq!(
        in_2024(Some((StOrdinals::Last, StWeekday::Var(StVarWeekday::Day)))),
        in_2024(None)
    );
    // the third working day: Wednesday 3 January, Monday 5 February, Tuesday 5 November
    assert_eq!(
        in_2024(Some((StOrdinals::Third, StWeekday::Var(StVarWeekday::Weekday)))),
        vec![
            Ok(Timestamp::Millis(jan1 + 2 * day)),
            Ok(Timestamp::Millis(feb1 + 4 * day)),
            Ok(Timestamp::Millis(nov1 + 4 * day)),
        ]
    );
    // the last working day: Wednesday 31 January, Thursday 29 February, Friday 29 November
    assert_eq!(
        in_2024(Some((StOrdinals::Last, StWeekday::Var(StVarWeekday::Weekday)))),
        vec![
            Ok(Timestamp::Millis(jan1 + 30 * day)),
            Ok(Timestamp::Millis(feb1 + 28 * day)),
            Ok(Timestamp::Millis(nov1 + 28 * day)),
        ]
    );
    // the second day of the weekend: Sunday 7 January, Sunday 4 February, Sunday 3 November
    assert_eq!(
        in_2024(Some((StOrdinals::Second, StWeekday::Var(StVarWeekday::Weekend)))),
        vec![
            Ok(Timestamp::Millis(jan1 + 6 * day)),
            Ok(Timestamp::Millis(feb1 + 3 * day)),
            Ok(Timestamp::Millis(nov1 + 2 * day)),
        ]
    );
    // the last day of the weekend: Sunday 28 January, Sunday 25 February, Saturday 30 November
    assert_eq!(
        in_2024(Some((StOrdinals::Last, StWeekday::Var(StVarWeekday::Weekend)))),
        vec![
            Ok(Timestamp::Millis(jan1 + 27 * day)),
            Ok(Timestamp::Millis(feb1 + 24 * day)),
            Ok(Timestamp::Millis(nov1 + 29 * day)),
        ]
    );
}

#[test]
fn leap_years() {
    assert_eq!(get_next_leap_year(2023), 2024);
    assert_eq!(get_next_leap_year(2024), 2028);
    assert_eq!(get_next_leap_year(2020), 2024);
    assert_eq!(get_next_leap_year(1896), 1904);
    assert_eq!(get_next_leap_year(1899), 1904);
    assert_eq!(get_next_leap_year(1996), 2000);
    assert_eq!(get_next_leap_year(-6), -4);
    assert_eq!(get_next_leap_year(-1), 0);
    assert_eq!(get_next_leap_year(-101), -96);
    assert_eq!(get_leap_years_between(2020, 2032, Some(true)), vec![2020, 2024, 2028, 2032]);
    assert_eq!(get_leap_years_between(2020, 2032, Some(false)), vec![2024, 2028]);
    assert_eq!(get_leap_years_between(2020, 2032, None), vec![2024, 2028]);
    assert_eq!(get_leap_years_between(2021, 2023, Some(true)), Vec::<i32>::new());
    assert_eq!(get_leap_years_between(2024, 2024, Some(true)), Vec::<i32>::new());
    assert_eq!(get_leap_years_between(2024, 2025, Some(true)), vec![2024]);
    assert_eq!(get_leap_years_between(2024, 2025, None), Vec::<i32>::new());
    assert_eq!(get_leap_years_between(1890, 1910, Some(true)), vec![1892, 1896, 1904, 1908]);
    assert_eq!(get_leap_years_between(2030, 2020, Some(true)), Vec::<i32>::new());
}
