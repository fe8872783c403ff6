use scheduler::scheduling::errors::ConversionError;
use scheduler::scheduling::frequency::{
    StConstWeekday, StCustomFrequency, StDailyExpression, StFrequency, StFrequencyExpression,
    StFrequencyType, StHourlyExpression, StMonth, StMonthlyExpression,
    StMonthlyOnDaysSubExpression, StMonthlyOnTheSubExpression, StMonthlySubExpression, StOrdinals,
    StRegularFrequency, StVarWeekday, StWeekday, StWeeklyExpression, StWeeklySubExpression,
    StYearlyExpression, StYearlyInSubExpression, StYearlyOnTheSubExpression,
    StYearlySubExpression,
};
use scheduler::scheduling::priority::StPriority;
use scheduler::scheduling::time::Timestamp;
use scheduler::traits::Repeating;
use scheduler::{st_const_weekday_from_value, st_ordinals_from_value};

#[test]
fn ordinals_have_values() {
    let all = [
        StOrdinals::First,
        StOrdinals::Second,
        StOrdinals::Third,
        StOrdinals::Fourth,
        StOrdinals::Fifth,
        StOrdinals::Last,
    ];
    for (value, ordinal) in all.iter().enumerate() {
        assert_eq!(ordinal.to_value(), value as u32);
        assert_eq!(StOrdinals::from_value(&(value as u32)), *ordinal);
        assert_eq!(st_ordinals_from_value(value as u32), *ordinal);
        assert_eq!(u32::from(*ordinal), value as u32);
        assert_eq!(StOrdinals::try_from(value as u32).unwrap(), *ordinal);
    }
    assert!(matches!(StOrdinals::try_from(6), Err(ConversionError::RangeError(6, 0, 5))));
    assert_eq!(
        StOrdinals::try_from(6).unwrap_err().message(),
        "Value '6' is out of range 0 to 5"
    );
    assert!(matches!(StOrdinals::try_from(255), Err(ConversionError::RangeError(255, 0, 5))));
    assert_eq!(StOrdinals::Third.name(), "Third");
    assert_eq!(StOrdinals::Last.name(), "Last");
}

#[test]
fn ordinals_are_ordered_by_their_values() {
    assert!(StOrdinals::First < StOrdinals::Second);
    assert!(StOrdinals::Fifth < StOrdinals::Last);
    assert!(StOrdinals::Last > StOrdinals::First);
}

#[test]
fn weekdays_have_values() {
    let all = [
        StConstWeekday::Sun,
        StConstWeekday::Mon,
        StConstWeekday::Tue,
        StConstWeekday::Wed,
        StConstWeekday::Thu,
        StConstWeekday::Fri,
        StConstWeekday::Sat,
    ];
    for (value, weekday) in all.iter().enumerate() {
        assert_eq!(weekday.to_value(), value as u32);
        assert_eq!(u32::from(*weekday), value as u32);
        assert_eq!(StConstWeekday::from(value as u32), *weekday);
        assert_eq!(StConstWeekday::from(value as u32 + 14), *weekday);
        assert_eq!(st_const_weekday_from_value(value as u32 + 7), *weekday);
    }
    assert!(StConstWeekday::Sun < StConstWeekday::Sat);
    assert_eq!(StConstWeekday::Wed.name(), "Wed");
}

#[test]
fn months_have_values() {
    let all = [
        StMonth::Jan,
        StMonth::Feb,
        StMonth::Mar,
        StMonth::Apr,
        StMonth::May,
        StMonth::Jun,
        StMonth::Jul,
        StMonth::Aug,
        StMonth::Sep,
        StMonth::Oct,
        StMonth::Nov,
        StMonth::Dec,
    ];
    let lengths = [31, 28, 31, 30, 31, 30, 31, 31, 30, 31, 30, 31];
    for (value, month) in all.iter().enumerate() {
        assert_eq!(month.to_value(), value as u32);
        assert_eq!(u32::from(*month), value as u32);
        assert_eq!(StMonth::from_value(value as u32), *month);
        assert_eq!(StMonth::from(value as u32 + 24), *month);
        assert_eq!(month.last_day_of_month(), lengths[value]);
    }
    assert_eq!(StMonth::from_value(14), StMonth::Mar);
    assert_eq!(StMonth::Feb.last_day_of_leap_month(), 29);
    assert_eq!(StMonth::Apr.last_day_of_leap_month(), 30);
    assert!(StMonth::Jan < StMonth::Dec);
    assert_eq!(StMonth::Sep.name(), "Sep");
}

#[test]
fn priorities_rank_high_first() {
    assert!(StPriority::High < StPriority::Medium);
    assert!(StPriority::Medium < StPriority::Low);
    assert!(StPriority::High < StPriority::Low);
    assert!(!(StPriority::Low < StPriority::Low));
    assert_eq!(StPriority::High.rank_value(), 1);
    assert_eq!(StPriority::Medium.rank_value(), 2);
    assert_eq!(StPriority::Low.rank_value(), 3);
}

#[test]
fn weekly_weekdays_are_reduced_and_unique() {
    let sub = StWeeklySubExpression::new(vec![1, 8, 3, 3, 10, 15]);
    assert_eq!(sub.get_weekdays(), &vec![StConstWeekday::Mon, StConstWeekday::Wed]);
    let sub = StWeeklySubExpression::new(vec![13, 0, 6, 7, 2]);
    assert_eq!(
        sub.get_weekdays(),
        &vec![StConstWeekday::Sat, StConstWeekday::Sun, StConstWeekday::Tue]
    );
    let every = StWeeklySubExpression::new((0..30).collect());
    assert_eq!(every.get_weekdays().len(), 7);
    assert!(StWeeklySubExpression::new(vec![]).get_weekdays().is_empty());
    let expr = StWeeklyExpression::with_weekdays(2, vec![6, 13]);
    assert_eq!(expr.every, 2);
    assert_eq!(expr.get_subexpr().get_weekdays(), &vec![StConstWeekday::Sat]);
    assert_eq!(StWeeklyExpression::new(2, StWeeklySubExpression::new(vec![6])), expr);
}

#[test]
fn monthly_days_are_those_of_a_month_and_unique() {
    let sub = StMonthlyOnDaysSubExpression::new(vec![0, 1, 31, 32, 15, 15, 1, 100]);
    assert_eq!(sub.days, vec![1, 31, 15]);
    let expr = StMonthlyExpression::with_days(3, vec![5, 5]);
    assert_eq!(expr.every, 3);
    assert_eq!(expr.get_ondays_subexpr().unwrap().days, vec![5]);
    assert_eq!(expr.get_onthe_subexpr(), None);
    assert_eq!(
        StMonthlyExpression::with_ondays_expr(3, StMonthlyOnDaysSubExpression::new(vec![5])),
        expr
    );
    let on_the = StMonthlyExpression::with_ordinal_weekday(1, StOrdinals::Last, StConstWeekday::Fri);
    assert_eq!(
        on_the.get_onthe_subexpr(),
        Some(StMonthlyOnTheSubExpression::new(StOrdinals::Last, StConstWeekday::Fri))
    );
    assert_eq!(on_the.get_ondays_subexpr(), None);
    assert_eq!(
        StMonthlyExpression::with_onthe_expr(
            1,
            StMonthlyOnTheSubExpression::new(StOrdinals::Last, StConstWeekday::Fri)
        ),
        on_the
    );
    assert!(matches!(on_the.subexpr, StMonthlySubExpression::OnThe(_)));
}

#[test]
fn yearly_months_are_reduced_and_unique() {
    let sub = StYearlyInSubExpression::new(vec![0, 12, 13, 1]);
    assert_eq!(sub.get_months(), vec![StMonth::Jan, StMonth::Feb]);
    let sub = StYearlyInSubExpression::new(vec![23, 0, 11, 14]);
    assert_eq!(sub.get_months(), vec![StMonth::Dec, StMonth::Jan, StMonth::Mar]);
    let sub = StYearlySubExpression::with_months(vec![11, 23]);
    assert_eq!(sub.get_in_expr(), vec![StMonth::Dec]);
    assert_eq!(sub.get_on_expr(), None);
    let on = StYearlyOnTheSubExpression::with_var_weekday(StOrdinals::First, StVarWeekday::Weekend);
    assert_eq!(on.get_ordinal(), StOrdinals::First);
    assert_eq!(on.get_var_weekday(), Some(StVarWeekday::Weekend));
    assert_eq!(on.get_const_weekday(), None);
    let fixed = StYearlyOnTheSubExpression::new(StOrdinals::Second, StConstWeekday::Tue);
    assert_eq!(fixed.get_const_weekday(), Some(StConstWeekday::Tue));
    assert_eq!(fixed.get_var_weekday(), None);
    assert_eq!(fixed.weekday, StWeekday::Const(StConstWeekday::Tue));
    assert_eq!(
        StYearlySubExpression::new(vec![11], Some(on)),
        StYearlySubExpression::with_months_ordinal_var_weekday(
            vec![11],
            StOrdinals::First,
            StVarWeekday::Weekend
        )
    );
    assert_eq!(
        StYearlySubExpression::new(vec![11], Some(fixed)),
        StYearlySubExpression::with_months_ordinal_const_weekday(
            vec![11],
            StOrdinals::Second,
            StConstWeekday::Tue
        )
    );
    assert_eq!(
        StYearlyExpression::new(4, StYearlySubExpression::with_months(vec![2])),
        StYearlyExpression::with_months(4, vec![2])
    );
    assert_eq!(
        StYearlyExpression::new(4, StYearlySubExpression::new(vec![2], Some(fixed))),
        StYearlyExpression::with_months_ordinal_const_weekday(
            4,
            vec![2],
            StOrdinals::Second,
            StConstWeekday::Tue
        )
    );
    assert_eq!(
        StYearlyExpression::new(4, StYearlySubExpression::new(vec![2], Some(on))),
        StYearlyExpression::with_months_ordinal_var_weekday(
            4,
            vec![2],
            StOrdinals::First,
            StVarWeekday::Weekend
        )
    );
}

#[test]
fn regular_frequencies() {
    let hourly = StRegularFrequency::new(StFrequencyType::Hour, StHourlyExpression::new(4), Some(5));
    assert_eq!(hourly.ftype, StFrequencyType::Hour);
    assert_eq!(hourly.until, Some(Timestamp::Millis(5)));
    assert_eq!(hourly.get_hourly_expr(), Some(StHourlyExpression::new(4)));
    assert_eq!(hourly.get_daily_expr(), None);
    assert_eq!(hourly.get_expr().every(), 4);
    let daily =
        StRegularFrequency::with_daily_expr(StFrequencyType::Day, StDailyExpression::new(2), None);
    assert_eq!(daily.until, None);
    assert_eq!(daily.get_daily_expr(), Some(StDailyExpression::new(2)));
    assert_eq!(daily.get_hourly_expr(), None);
    let weekly = StRegularFrequency::with_weekly_expr(
        StFrequencyType::Week,
        StWeeklyExpression::with_weekdays(3, vec![1]),
        None,
    );
    assert_eq!(weekly.get_weekly_expr(), Some(StWeeklyExpression::with_weekdays(3, vec![1])));
    assert_eq!(weekly.get_monthly_expr(), None);
    assert_eq!(weekly.get_expr().every(), 3);
    let monthly = StRegularFrequency::with_monthly_expr(
        StFrequencyType::Month,
        StMonthlyExpression::with_days(5, vec![1]),
        None,
    );
    assert_eq!(monthly.get_monthly_expr(), Some(StMonthlyExpression::with_days(5, vec![1])));
    assert_eq!(monthly.get_yearly_expr(), None);
    assert_eq!(monthly.get_expr().every(), 5);
    let yearly = StRegularFrequency::with_yearly_expr(
        StFrequencyType::Year,
        StYearlyExpression::with_months(6, vec![1]),
        None,
    );
    assert_eq!(yearly.get_yearly_expr(), Some(StYearlyExpression::with_months(6, vec![1])));
    assert_eq!(yearly.get_weekly_expr(), None);
    assert!(matches!(yearly.get_expr(), StFrequencyExpression::Yearly(_)));
    assert_eq!(yearly.clone(), yearly);
    assert_eq!(StFrequency::Regular(monthly.clone()).clone(), StFrequency::Regular(monthly));
}

#[test]
fn custom_frequencies() {
    let crons = vec!["*/10 * * * *".to_string(), "0 0 * * *".to_string()];
    let custom = StCustomFrequency::new(crons.clone(), Some(1704067200000));
    assert_eq!(custom.ftype, StFrequencyType::Custom);
    assert_eq!(custom.until, Some(Timestamp::Millis(1704067200000)));
    assert_eq!(custom.get_cron_expressions(), crons);
    assert_eq!(custom.clone(), custom);
}
