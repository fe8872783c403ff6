use chrono::{DateTime, Datelike, Local, Months, NaiveDate, Timelike, Utc};
use chrono_tz::Tz;

use scheduler::scheduling::calendar::{get_days_from_civil, CivilDateTime};
use scheduler::scheduling::time::{
    timestamp, Timestamp, DAY_MILLIS, HOUR_MILLIS, INDEXED_MONTH_DAYS, WEEK_MILLIS,
};

#[test]
fn test_tz() {
    let ts = timestamp();
    let ts2 = Timestamp::Millis(Local::now().to_utc().timestamp_millis());
    println!("TS -> {:?} | TS2 -> {:?} | DT -> {:?}", ts, ts2, ts.to_datetime());
    assert!((ts2.as_ms() - ts.as_ms()).abs() < 60_000);
}

#[test]
fn test_validate_dt() {
    let anchor_dt =
        DateTime::parse_from_str("2024-12-21T10:45:39.057+0100", "%Y-%m-%dT%H:%M:%S%.3f%z")
            .unwrap()
            .to_utc();
    let ndt = NaiveDate::from_ymd_opt(2025, 1, 31)
        .unwrap()
        .and_time(anchor_dt.time());
    let dt = DateTime::<Utc>::from_naive_utc_and_offset(ndt, anchor_dt.offset().clone());

    println!("{}", anchor_dt);
    println!("{}", ndt);
    println!("{}", dt);
    println!("{}", dt.checked_add_months(Months::new(1)).unwrap());

    let v2: Option<Vec<u32>> = Some(vec![1, 2, 3]);

    let r: Option<&Vec<u32>> = v2.as_ref().map(|w| (!w.is_empty()).then_some(w)).flatten();

    println!("{:?}", r.unwrap().into_iter().max());

    let tz: Tz = "America/New_York".parse().unwrap();
    let dt = Local::now().with_timezone(&tz);

    println!("TZ -> {}", tz);
    println!("DT -> {}", dt);

    // the library reads the same instant as the same date and time
    let stamp = Timestamp::Millis(anchor_dt.timestamp_millis());
    let civil = stamp.to_datetime();
    assert_eq!(civil.year, 2024);
    assert_eq!(civil.month, 12);
    assert_eq!(civil.day, 21);
    assert_eq!(civil.hour, 9);
    assert_eq!(civil.minute, 45);
    assert_eq!(civil.second, 39);
    assert_eq!(civil.millisecond, 57);
}

#[test]
fn constants_of_time() {
    assert_eq!(HOUR_MILLIS, 3_600_000);
    assert_eq!(DAY_MILLIS, 86_400_000);
    assert_eq!(WEEK_MILLIS, 604_800_000);
    assert_eq!(INDEXED_MONTH_DAYS.iter().sum::<u32>(), 365);
}

#[test]
fn timestamps_count_in_milliseconds() {
    assert_eq!(Timestamp::Second(2).as_ms(), 2_000);
    assert_eq!(Timestamp::Millis(2_500).as_ms(), 2_500);
    assert_eq!(Timestamp::Second(2).as_sec(), 2);
    assert_eq!(Timestamp::Millis(2_999).as_sec(), 2);
    assert_eq!(Timestamp::Millis(-1_500).as_sec(), -1);
    assert_eq!(Timestamp::Millis(i64::MIN).as_sec(), i64::MIN / 1000);
    assert_eq!(Timestamp::Millis(-1_500).magnitude_ms(), 1_500);
    assert_eq!(Timestamp::Millis(1_500).magnitude_ms(), 1_500);
    assert_eq!(Timestamp::Millis(i64::MIN).magnitude_ms(), 9_223_372_036_854_775_808);
    assert_eq!(Timestamp::from_hours(2), Timestamp::Millis(7_200_000));
    assert_eq!(Timestamp::from_days(-3), Timestamp::Millis(-259_200_000));
    assert_eq!(Timestamp::from_weeks(1), Timestamp::Millis(604_800_000));
}

#[test]
fn timestamps_compare_by_their_milliseconds() {
    assert_eq!(Timestamp::Second(2), Timestamp::Millis(2_000));
    assert_ne!(Timestamp::Second(2), Timestamp::Millis(2));
    assert!(Timestamp::Second(2) > Timestamp::Millis(1_999));
    assert!(Timestamp::Millis(3) < Timestamp::Second(1));
    assert!(Timestamp::Second(i64::MAX) > Timestamp::Millis(i64::MAX));
    assert!(Timestamp::Second(i64::MIN) < Timestamp::Millis(i64::MIN));
    assert!(Timestamp::Second(1) <= Timestamp::Millis(1_000));
    assert!(Timestamp::Second(1) >= Timestamp::Millis(1_000));
}

#[test]
fn timestamp_arithmetic() {
    let a = Timestamp::Millis(7_000);
    let b = Timestamp::Second(2);
    assert_eq!(a + b, Timestamp::Millis(9_000));
    assert_eq!(a - b, Timestamp::Millis(5_000));
    assert_eq!(b - a, Timestamp::Millis(-5_000));
    assert_eq!(a * Timestamp::Millis(3), Timestamp::Millis(21_000));
    assert_eq!(a / b, Timestamp::Millis(3));
    assert_eq!(a % b, Timestamp::Millis(1_000));
    assert_eq!(Timestamp::Millis(-7) / Timestamp::Millis(2), Timestamp::Millis(-3));
    assert_eq!(Timestamp::Millis(-7) % Timestamp::Millis(2), Timestamp::Millis(-1));
    assert_eq!(Timestamp::Millis(7) / Timestamp::Millis(-2), Timestamp::Millis(-3));
    assert_eq!(Timestamp::Millis(7) % Timestamp::Millis(-2), Timestamp::Millis(1));
    assert_eq!(Timestamp::Millis(-7) % Timestamp::Millis(-2), Timestamp::Millis(-1));
    assert_eq!(Timestamp::Millis(0) % Timestamp::Millis(-2), Timestamp::Millis(0));

    let mut t = Timestamp::Millis(1);
    t += Timestamp::Second(2);
    assert_eq!(t, Timestamp::Millis(2_001));
    t -= Timestamp::Millis(1);
    assert_eq!(t, Timestamp::Second(2));
    t *= Timestamp::Millis(-3);
    assert_eq!(t, Timestamp::Second(-6));
    t /= Timestamp::Millis(4);
    assert_eq!(t, Timestamp::Millis(-1_500));
    t %= Timestamp::Second(1);
    assert_eq!(t, Timestamp::Millis(-500));
}

#[test]
fn ratios_of_timestamps() {
    let ms = Timestamp::Millis;
    assert_eq!(ms(7).floor_div(ms(2)), ms(3));
    assert_eq!(ms(7).ceil_div(ms(2)), ms(4));
    assert_eq!(ms(7).round_div(ms(2)), ms(4));
    assert_eq!(ms(-7).floor_div(ms(2)), ms(-4));
    assert_eq!(ms(-7).ceil_div(ms(2)), ms(-3));
    assert_eq!(ms(-7).round_div(ms(2)), ms(-4));
    assert_eq!(ms(7).floor_div(ms(-2)), ms(-4));
    assert_eq!(ms(7).ceil_div(ms(-2)), ms(-3));
    assert_eq!(ms(-7).floor_div(ms(-2)), ms(3));
    assert_eq!(ms(-7).ceil_div(ms(-2)), ms(4));
    assert_eq!(ms(-7).round_div(ms(-2)), ms(4));
    assert_eq!(ms(6).floor_div(ms(3)), ms(2));
    assert_eq!(ms(6).ceil_div(ms(3)), ms(2));
    assert_eq!(ms(6).round_div(ms(3)), ms(2));
    assert_eq!(ms(10).round_div(ms(4)), ms(3));
    assert_eq!(ms(9).round_div(ms(4)), ms(2));
    assert_eq!(ms(11).round_div(ms(4)), ms(3));
    assert_eq!(ms(0).round_div(ms(4)), ms(0));
    assert_eq!(Timestamp::Second(7).floor_div(ms(2_000)), ms(3));
    assert_eq!(ms(i64::MAX).ceil_div(ms(2)), ms(i64::MAX / 2 + 1));
    assert_eq!(ms(i64::MIN).floor_div(ms(3)), ms(-3074457345618258603));
}

#[test]
fn timestamp_to_date_and_time() {
    let civil = Timestamp::Millis(947638923004).to_datetime();
    assert_eq!(
        civil,
        CivilDateTime {
            year: 2000,
            month: 1,
            day: 12,
            hour: 1,
            minute: 2,
            second: 3,
            millisecond: 4
        }
    );
    assert_eq!(Timestamp::from_datetime(civil), Timestamp::Millis(947638923004));
    let before = Timestamp::Millis(-1).to_datetime();
    assert_eq!(
        before,
        CivilDateTime {
            year: 1969,
            month: 12,
            day: 31,
            hour: 23,
            minute: 59,
            second: 59,
            millisecond: 999
        }
    );
    assert_eq!(Timestamp::from_datetime(before), Timestamp::Millis(-1));
    assert_eq!(Timestamp::Second(86_400).to_datetime().day, 2);
    for millis in [0i64, 1709164800000, 1709251199999, -2203891200000, 4102444800000, 951782400000] {
        let civil = Timestamp::Millis(millis).to_datetime();
        let there = DateTime::from_timestamp_millis(millis).unwrap();
        assert_eq!(civil.year, there.year());
        assert_eq!(civil.month, there.month());
        assert_eq!(civil.day, there.day());
        assert_eq!(civil.hour, there.hour());
        assert_eq!(Timestamp::from_datetime(civil).as_ms(), millis);
    }
}

#[test]
fn dates_that_the_calendar_does_not_hold() {
    assert_eq!(Timestamp::Millis(i64::MAX).checked_datetime(), None);
    assert_eq!(Timestamp::Millis(i64::MIN).checked_datetime(), None);
    assert_eq!(Timestamp::Second(i64::MAX).checked_datetime(), None);
    assert!(Timestamp::Millis(8_210_000_000_000_000).checked_datetime().is_some());
    assert!(Timestamp::Millis(-8_330_000_000_000_000).checked_datetime().is_some());
    let day = |year, month, day| CivilDateTime {
        year,
        month,
        day,
        hour: 0,
        minute: 0,
        second: 0,
        millisecond: 0,
    };
    assert_eq!(Timestamp::checked_from_datetime(&day(2023, 2, 29)), None);
    assert_eq!(
        Timestamp::checked_from_datetime(&day(2024, 2, 29)),
        Some(Timestamp::Millis(1709164800000))
    );
    assert_eq!(Timestamp::checked_from_datetime(&day(2024, 13, 1)), None);
    assert_eq!(Timestamp::checked_from_datetime(&day(2024, 0, 1)), None);
    assert_eq!(Timestamp::checked_from_datetime(&day(2024, 4, 31)), None);
    assert_eq!(Timestamp::checked_from_datetime(&day(2024, 4, 0)), None);
    assert_eq!(Timestamp::checked_from_datetime(&day(262_143, 1, 1)), None);
    assert_eq!(Timestamp::checked_from_datetime(&day(-262_144, 1, 1)), None);
    assert!(Timestamp::checked_from_datetime(&day(262_142, 12, 31)).is_some());
    assert!(Timestamp::checked_from_datetime(&day(-262_143, 1, 1)).is_some());
    assert_eq!(
        Timestamp::checked_from_datetime(&day(1970, 1, 1)),
        Some(Timestamp::Millis(0))
    );
}

#[test]
fn timestamps_in_words() {
    assert_eq!(Timestamp::Millis(1_500).text(), "1500ms");
    assert_eq!(Timestamp::Second(-3).text(), "-3s");
    assert_eq!(Timestamp::Millis(0).text(), "0ms");
    assert_eq!(Timestamp::Millis(i64::MIN).text(), "-9223372036854775808ms");
}

#[test]
fn days_of_the_calendar() {
    assert_eq!(get_days_from_civil(1970, 0, 1), 0);
    assert_eq!(get_days_from_civil(1969, 11, 31), -1);
    assert_eq!(get_days_from_civil(2000, 0, 1), 10957);
    assert_eq!(get_days_from_civil(2024, 1, 29), 19782);
    assert_eq!(get_days_from_civil(2024, 2, 1), 19783);
    let epoch = NaiveDate::from_ymd_opt(1970, 1, 1).unwrap();
    let years = [
        -262_143, -10_000, -401, -400, -101, -100, -5, -4, -1, 0, 1, 4, 100, 400, 1582, 1600, 1899,
        1900, 1969, 1970, 1999, 2000, 2023, 2024, 2100, 2400, 9999, 262_142,
    ];
    for year in years {
        for month in 0..12u32 {
            for day in [1u32, 15, 28, 29, 30, 31] {
                let Some(date) = NaiveDate::from_ymd_opt(year, month + 1, day) else {
                    continue;
                };
                let days = date.signed_duration_since(epoch).num_days();
                assert_eq!(get_days_from_civil(year, month, day), days, "{}", date);
                let civil = CivilDateTime {
                    year,
                    month: month + 1,
                    day,
                    hour: 23,
                    minute: 59,
                    second: 58,
                    millisecond: 7,
                };
                let stamp = Timestamp::checked_from_datetime(&civil).unwrap();
                assert_eq!(stamp.as_ms(), days * 86_400_000 + 86_398_007);
                assert_eq!(stamp.to_datetime(), civil);
            }
        }
    }
}

#[test]
fn clock_gives_an_instant_of_the_calendar() {
    let now = timestamp();
    assert!(matches!(now, Timestamp::Millis(_)));
    let civil = now.checked_datetime().expect("the present is a date and time");
    assert!(civil.year >= 2024);
    assert_eq!(Timestamp::checked_from_datetime(&civil), Some(now));
}
