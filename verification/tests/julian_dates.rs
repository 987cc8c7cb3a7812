use julian_calendar::gregorian::Gregorian;
use julian_calendar::julian::{Julian, MAX_DAYS, MAX_YMD, MAX_YO, MIN_DAYS, MIN_YMD, MIN_YO};
use julian_calendar::weekday::Weekday;

fn fields(date: Julian) -> (i32, u32, u32) {
    (date.year(), date.month(), date.day())
}

#[test]
fn from_ymd_keeps_the_fields() {
    let date = Julian::from_ymd(1582, 10, 5);
    assert_eq!(fields(date), (1582, 10, 5));
    assert_eq!(date.month0(), 9);
    assert_eq!(date.day0(), 4);
    assert_eq!(date.ordinal(), 278);
    assert_eq!(date.ordinal0(), 277);
    assert_eq!(date.num_days_from_julian_ce(), 577738);
    assert_eq!(Julian::from_ymd_opt(1582, 10, 5), Some(date));
}

#[test]
fn from_ymd_rejects_months_that_do_not_exist() {
    for year in [-262139, -5, 0, 1, 1582, 2024, 262138] {
        assert_eq!(Julian::from_ymd_opt(year, 13, 1), None);
        assert_eq!(Julian::from_ymd_opt(year, 0, 1), None);
        assert_eq!(Julian::from_ymd_opt(year, u32::MAX, 1), None);
    }
}

#[test]
fn from_ymd_rejects_days_that_do_not_exist() {
    assert_eq!(Julian::from_ymd_opt(2024, 2, 30), None);
    assert_eq!(Julian::from_ymd_opt(100, 2, 30), None);
    assert_eq!(Julian::from_ymd_opt(2023, 2, 29), None);
    assert_eq!(Julian::from_ymd_opt(203, 2, 29), None);
    assert_eq!(Julian::from_ymd_opt(2023, 4, 31), None);
    assert_eq!(Julian::from_ymd_opt(2023, 1, 32), None);
    assert_eq!(Julian::from_ymd_opt(2023, 1, 0), None);
    assert_eq!(Julian::from_ymd_opt(2023, 1, u32::MAX), None);
    assert!(Julian::from_ymd_opt(2024, 2, 29).is_some());
    assert!(Julian::from_ymd_opt(2023, 2, 28).is_some());
}

#[test]
fn century_years_have_a_leap_day() {
    assert_eq!(fields(Julian::from_ymd(100, 2, 29)), (100, 2, 29));
    assert!(Julian::from_ymd_opt(1900, 2, 29).is_some());
    assert!(Julian::from_ymd_opt(-100, 2, 29).is_some());
    assert!(Gregorian::from_ymd_opt(100, 2, 29).is_none());
    assert!(Gregorian::from_ymd_opt(1900, 2, 29).is_none());
}

#[test]
fn from_ymd_holds_to_the_supported_range() {
    assert_eq!(fields(Julian::from_ymd(MIN_YMD.0, MIN_YMD.1, MIN_YMD.2)), MIN_YMD);
    assert_eq!(fields(Julian::from_ymd(MAX_YMD.0, MAX_YMD.1, MAX_YMD.2)), MAX_YMD);
    assert_eq!(Julian::from_ymd_opt(-262139, 5, 21), None);
    assert_eq!(Julian::from_ymd_opt(-262139, 4, 30), None);
    assert_eq!(Julian::from_ymd_opt(-262140, 12, 31), None);
    assert_eq!(Julian::from_ymd_opt(262138, 8, 16), None);
    assert_eq!(Julian::from_ymd_opt(262138, 9, 1), None);
    assert_eq!(Julian::from_ymd_opt(262139, 1, 1), None);
    assert_eq!(Julian::from_ymd_opt(i32::MIN, 1, 1), None);
    assert_eq!(Julian::from_ymd_opt(i32::MAX, 1, 1), None);
}

#[test]
fn from_yo_finds_month_and_day() {
    assert_eq!(fields(Julian::from_yo(2023, 1)), (2023, 1, 1));
    assert_eq!(fields(Julian::from_yo(2023, 60)), (2023, 3, 1));
    assert_eq!(fields(Julian::from_yo(2024, 60)), (2024, 2, 29));
    assert_eq!(fields(Julian::from_yo(2023, 365)), (2023, 12, 31));
    assert_eq!(fields(Julian::from_yo(2024, 366)), (2024, 12, 31));
    assert_eq!(fields(Julian::from_yo(0, 366)), (0, 12, 31));
}

#[test]
fn from_yo_rejects_ordinals_that_do_not_exist() {
    assert_eq!(Julian::from_yo_opt(2023, 0), None);
    assert_eq!(Julian::from_yo_opt(2023, 366), None);
    assert_eq!(Julian::from_yo_opt(2024, 367), None);
    assert_eq!(Julian::from_yo_opt(2024, u32::MAX), None);
    assert!(Julian::from_yo_opt(2024, 366).is_some());
}

#[test]
fn from_yo_holds_to_the_supported_range() {
    assert_eq!(fields(Julian::from_yo(MIN_YO.0, MIN_YO.1)), MIN_YMD);
    assert_eq!(fields(Julian::from_yo(MAX_YO.0, MAX_YO.1)), MAX_YMD);
    assert_eq!(Julian::from_yo_opt(-262139, 141), None);
    assert_eq!(Julian::from_yo_opt(-262140, 366), None);
    assert_eq!(Julian::from_yo_opt(262138, 228), None);
    assert_eq!(Julian::from_yo_opt(262139, 1), None);
}

#[test]
fn from_day_count_holds_to_the_supported_range() {
    assert_eq!(fields(Julian::from_num_days_from_julian_ce(MIN_DAYS)), MIN_YMD);
    assert_eq!(fields(Julian::from_num_days_from_julian_ce(MAX_DAYS)), MAX_YMD);
    assert_eq!(Julian::from_num_days_from_julian_ce_opt(MIN_DAYS - 1), None);
    assert_eq!(Julian::from_num_days_from_julian_ce_opt(MAX_DAYS + 1), None);
    assert_eq!(Julian::from_num_days_from_julian_ce_opt(i32::MIN), None);
    assert_eq!(Julian::from_num_days_from_julian_ce_opt(i32::MAX), None);
    assert!(Julian::from_num_days_from_julian_ce_opt(MIN_DAYS).is_some());
    assert!(Julian::from_num_days_from_julian_ce_opt(MAX_DAYS).is_some());
}

#[test]
fn the_three_ranges_name_the_same_days() {
    let first = Julian::from_ymd(MIN_YMD.0, MIN_YMD.1, MIN_YMD.2);
    assert_eq!((first.year(), first.ordinal()), MIN_YO);
    assert_eq!(first.num_days_from_julian_ce(), MIN_DAYS);
    let last = Julian::from_ymd(MAX_YMD.0, MAX_YMD.1, MAX_YMD.2);
    assert_eq!((last.year(), last.ordinal()), MAX_YO);
    assert_eq!(last.num_days_from_julian_ce(), MAX_DAYS);
}

#[test]
fn epoch_days() {
    assert_eq!(fields(Julian::from_num_days_from_julian_ce(1)), (1, 1, 1));
    assert_eq!(fields(Julian::from_num_days_from_julian_ce(0)), (0, 12, 31));
    assert_eq!(fields(Julian::from_num_days_from_julian_ce(-1)), (0, 12, 30));
    assert_eq!(fields(Julian::from_num_days_from_julian_ce(-365)), (0, 1, 1));
    assert_eq!(fields(Julian::from_num_days_from_julian_ce(-366)), (-1, 12, 31));
    assert_eq!(fields(Julian::from_num_days_from_julian_ce(366)), (2, 1, 1));
}

#[test]
fn day_count_round_trip_over_many_years() {
    for days in -20000..=20000 {
        let date = Julian::from_num_days_from_julian_ce(days);
        assert_eq!(date.num_days_from_julian_ce(), days);
        assert_eq!(Julian::from_ymd(date.year(), date.month(), date.day()), date);
        assert_eq!(Julian::from_yo(date.year(), date.ordinal()), date);
    }
    for days in [MIN_DAYS, MIN_DAYS + 1, -40000000, 40000000, MAX_DAYS - 1, MAX_DAYS] {
        assert_eq!(Julian::from_num_days_from_julian_ce(days).num_days_from_julian_ce(), days);
    }
}

#[test]
fn later_julian_dates_compare_greater() {
    let mut earlier = Julian::from_num_days_from_julian_ce(-800);
    for days in -799..=800 {
        let date = Julian::from_num_days_from_julian_ce(days);
        assert!(earlier < date);
        assert!(date > earlier);
        assert!(earlier != date);
        assert!(fields(earlier) < fields(date));
        assert_eq!(earlier.cmp(&date), std::cmp::Ordering::Less);
        assert_eq!(date.partial_cmp(&date), Some(std::cmp::Ordering::Equal));
        earlier = date;
    }
}

#[test]
fn weekdays_follow_the_day_count() {
    assert_eq!(Julian::from_num_days_from_julian_ce(0).weekday(), Weekday::Fri);
    assert_eq!(Julian::from_num_days_from_julian_ce(1).weekday(), Weekday::Sat);
    assert_eq!(Julian::from_num_days_from_julian_ce(2).weekday(), Weekday::Sun);
    assert_eq!(Julian::from_num_days_from_julian_ce(3).weekday(), Weekday::Mon);
    assert_eq!(Julian::from_num_days_from_julian_ce(4).weekday(), Weekday::Tue);
    assert_eq!(Julian::from_num_days_from_julian_ce(5).weekday(), Weekday::Wed);
    assert_eq!(Julian::from_num_days_from_julian_ce(6).weekday(), Weekday::Thu);
    assert_eq!(Julian::from_num_days_from_julian_ce(7).weekday(), Weekday::Fri);
    assert_eq!(Julian::from_num_days_from_julian_ce(-1).weekday(), Weekday::Thu);
    assert_eq!(Julian::from_num_days_from_julian_ce(-7).weekday(), Weekday::Fri);
    assert_eq!(Julian::from_ymd(1582, 10, 4).weekday(), Weekday::Thu);
    assert_eq!(Julian::from_ymd(1582, 10, 5).weekday(), Weekday::Fri);
}

#[test]
fn weekdays_agree_between_the_calendars() {
    for days in -3000..=3000 {
        let gregorian = Gregorian::from_num_days_from_gregorian_ce(days);
        let julian: Julian = gregorian.into();
        assert_eq!(julian.weekday(), gregorian.weekday());
    }
    for days in 577000..=578500 {
        let gregorian = Gregorian::from_num_days_from_gregorian_ce(days);
        let julian: Julian = gregorian.into();
        assert_eq!(julian.weekday(), gregorian.weekday());
    }
}

#[test]
fn year_and_era() {
    assert_eq!(Julian::from_ymd(1, 1, 1).year_ce(), (true, 1));
    assert_eq!(Julian::from_ymd(2024, 6, 1).year_ce(), (true, 2024));
    assert_eq!(Julian::from_ymd(0, 6, 1).year_ce(), (false, 1));
    assert_eq!(Julian::from_ymd(-1, 6, 1).year_ce(), (false, 2));
    assert_eq!(Julian::from_ymd(-44, 3, 15).year_ce(), (false, 45));
    assert_eq!(Julian::from_ymd(-262139, 6, 1).year_ce(), (false, 262140));
    assert_eq!(Julian::from_ymd(262138, 6, 1).year_ce(), (true, 262138));
}

#[test]
fn with_year_checks_the_whole_date_again() {
    let leap_day = Julian::from_ymd(2024, 2, 29);
    assert_eq!(leap_day.with_year(2020), Some(Julian::from_ymd(2020, 2, 29)));
    assert_eq!(leap_day.with_year(1900), Some(Julian::from_ymd(1900, 2, 29)));
    assert_eq!(leap_day.with_year(2023), None);
    assert_eq!(leap_day.with_year(262139), None);
    assert_eq!(leap_day.with_year(-262140), None);
}

#[test]
fn with_month_checks_the_whole_date_again() {
    let date = Julian::from_ymd(2023, 1, 31);
    assert_eq!(date.with_month(3), Some(Julian::from_ymd(2023, 3, 31)));
    assert_eq!(date.with_month(2), None);
    assert_eq!(date.with_month(4), None);
    assert_eq!(date.with_month(0), None);
    assert_eq!(date.with_month(13), None);
    assert_eq!(date.with_month0(2), Some(Julian::from_ymd(2023, 3, 31)));
    assert_eq!(date.with_month0(0), Some(date));
    assert_eq!(date.with_month0(11), Some(Julian::from_ymd(2023, 12, 31)));
    assert_eq!(date.with_month0(12), None);
    assert_eq!(date.with_month0(1), None);
    assert_eq!(date.with_month0(u32::MAX), None);
}

#[test]
fn with_day_checks_the_whole_date_again() {
    let date = Julian::from_ymd(2023, 2, 1);
    assert_eq!(date.with_day(28), Some(Julian::from_ymd(2023, 2, 28)));
    assert_eq!(date.with_day(29), None);
    assert_eq!(date.with_day(0), None);
    assert_eq!(date.with_day0(27), Some(Julian::from_ymd(2023, 2, 28)));
    assert_eq!(date.with_day0(0), Some(date));
    assert_eq!(date.with_day0(28), None);
    assert_eq!(date.with_day0(u32::MAX), None);
    assert_eq!(Julian::from_ymd(2024, 2, 1).with_day(29), Some(Julian::from_ymd(2024, 2, 29)));
}

#[test]
fn with_ordinal_checks_the_whole_date_again() {
    let date = Julian::from_ymd(2023, 7, 4);
    assert_eq!(date.with_ordinal(1), Some(Julian::from_ymd(2023, 1, 1)));
    assert_eq!(date.with_ordinal(365), Some(Julian::from_ymd(2023, 12, 31)));
    assert_eq!(date.with_ordinal(366), None);
    assert_eq!(date.with_ordinal(0), None);
    assert_eq!(date.with_ordinal0(0), Some(Julian::from_ymd(2023, 1, 1)));
    assert_eq!(date.with_ordinal0(364), Some(Julian::from_ymd(2023, 12, 31)));
    assert_eq!(date.with_ordinal0(365), None);
    assert_eq!(date.with_ordinal0(u32::MAX), None);
    assert_eq!(
        Julian::from_ymd(2024, 7, 4).with_ordinal(366),
        Some(Julian::from_ymd(2024, 12, 31))
    );
    assert_eq!(Julian::from_ymd(-262139, 6, 1).with_ordinal(141), None);
    assert_eq!(Julian::from_ymd(262138, 6, 1).with_ordinal(228), None);
}

#[test]
fn the_calendars_are_two_days_apart_on_their_axes() {
    let julian = Julian::from_ymd(1, 1, 1);
    let gregorian: Gregorian = julian.into();
    assert_eq!(gregorian.num_days_from_gregorian_ce(), -1);
    assert_eq!((gregorian.year(), gregorian.month(), gregorian.day()), (0, 12, 30));
    let gregorian = Gregorian::from_ymd(1, 1, 1);
    let julian: Julian = gregorian.into();
    assert_eq!(julian.num_days_from_julian_ce(), 3);
    assert_eq!(fields(julian), (1, 1, 3));
}

#[test]
fn converting_there_and_back_changes_nothing() {
    for days in (MIN_DAYS..=MAX_DAYS).step_by(999_983) {
        let julian = Julian::from_num_days_from_julian_ce(days);
        let gregorian: Gregorian = julian.into();
        assert_eq!(gregorian.num_days_from_gregorian_ce(), days - 2);
        let back: Julian = gregorian.into();
        assert_eq!(back, julian);
        let again: Gregorian = back.into();
        assert_eq!(again, gregorian);
    }
    let first: Gregorian = Julian::from_num_days_from_julian_ce(MIN_DAYS).into();
    assert_eq!((first.year(), first.month(), first.day()), (-262144, 1, 1));
    let last: Gregorian = Julian::from_num_days_from_julian_ce(MAX_DAYS).into();
    assert_eq!((last.year(), last.month(), last.day()), (262143, 12, 31));
}
