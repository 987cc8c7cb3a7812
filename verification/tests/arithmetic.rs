use julian_calendar::julian::{
    ce_days_to_yo, days_of_month, days_of_year, is_leap_year, md_to_ordinal, month_accum_table,
    ordinal_to_md, yo_to_ce_days, YEAR_ACCUM_TABLE,
};
use julian_calendar::packed::{PackedYMD, MAX_PACKED_YEAR, MIN_PACKED_YEAR};
use julian_calendar::utils::{ContainsPolyfillExt, DivEuclidPolyfillExt};

#[test]
fn div_euclid_floors_for_positive_divisors() {
    assert_eq!(7.div_euclid_polyfill(4), 1);
    assert_eq!((-7).div_euclid_polyfill(4), -2);
    assert_eq!((-8).div_euclid_polyfill(4), -2);
    assert_eq!(0.div_euclid_polyfill(4), 0);
    assert_eq!((-1).div_euclid_polyfill(1461), -1);
    assert_eq!(i32::MIN.div_euclid_polyfill(1), i32::MIN);
    assert_eq!(i32::MAX.div_euclid_polyfill(-1), -i32::MAX);
}

#[test]
fn div_euclid_ceils_for_negative_divisors() {
    assert_eq!(7.div_euclid_polyfill(-4), -1);
    assert_eq!((-7).div_euclid_polyfill(-4), 2);
    assert_eq!((-8).div_euclid_polyfill(-4), 2);
    assert_eq!(i32::MIN.div_euclid_polyfill(i32::MIN), 1);
    assert_eq!((i32::MIN + 1).div_euclid_polyfill(i32::MIN), 1);
}

#[test]
fn rem_euclid_is_never_negative() {
    assert_eq!(7.rem_euclid_polyfill(4), 3);
    assert_eq!((-7).rem_euclid_polyfill(4), 1);
    assert_eq!(7.rem_euclid_polyfill(-4), 3);
    assert_eq!((-7).rem_euclid_polyfill(-4), 1);
    assert_eq!((-8).rem_euclid_polyfill(4), 0);
    assert_eq!((-1).rem_euclid_polyfill(7), 6);
    assert_eq!((-1).rem_euclid_polyfill(i32::MIN), i32::MAX);
    assert_eq!(i32::MIN.rem_euclid_polyfill(7), 5);
}

#[test]
fn polyfills_agree_with_std() {
    for a in -50..=50 {
        for b in -9..=9 {
            if b != 0 {
                assert_eq!(a.div_euclid_polyfill(b), a.div_euclid(b));
                assert_eq!(a.rem_euclid_polyfill(b), a.rem_euclid(b));
                assert_eq!(a.div_euclid_polyfill(b) * b + a.rem_euclid_polyfill(b), a);
            }
        }
    }
}

#[test]
fn contains_includes_both_bounds() {
    assert!((3..=5).contains_polyfill(&3));
    assert!((3..=5).contains_polyfill(&4));
    assert!((3..=5).contains_polyfill(&5));
    assert!(!(3..=5).contains_polyfill(&2));
    assert!(!(3..=5).contains_polyfill(&6));
    assert!(!(5..=3).contains_polyfill(&4));
}

#[test]
fn contains_compares_tuples_field_by_field() {
    let range = (1, 5u32, 22u32)..=(3, 8u32, 15u32);
    assert!(range.contains_polyfill(&(1, 5, 22)));
    assert!(!range.contains_polyfill(&(1, 5, 21)));
    assert!(range.contains_polyfill(&(1, 6, 1)));
    assert!(range.contains_polyfill(&(2, 1, 1)));
    assert!(range.contains_polyfill(&(2, 12, 31)));
    assert!(range.contains_polyfill(&(3, 8, 15)));
    assert!(!range.contains_polyfill(&(3, 8, 16)));
    assert!(!range.contains_polyfill(&(3, 9, 1)));
    assert!(!range.contains_polyfill(&(0, 12, 31)));
}

#[test]
fn leap_years_are_the_multiples_of_four() {
    assert!(is_leap_year(0));
    assert!(is_leap_year(4));
    assert!(is_leap_year(100));
    assert!(is_leap_year(1900));
    assert!(is_leap_year(2000));
    assert!(is_leap_year(-4));
    assert!(is_leap_year(-100));
    assert!(!is_leap_year(1));
    assert!(!is_leap_year(2));
    assert!(!is_leap_year(3));
    assert!(!is_leap_year(-1));
    assert!(!is_leap_year(-3));
    assert!(!is_leap_year(203));
    assert!(is_leap_year(204));
}

#[test]
fn year_and_month_lengths() {
    assert_eq!(days_of_year(203), 365);
    assert_eq!(days_of_year(204), 366);
    assert_eq!(days_of_year(100), 366);
    assert_eq!(days_of_year(-1), 365);
    assert_eq!(days_of_year(0), 366);
    let common = [31, 28, 31, 30, 31, 30, 31, 31, 30, 31, 30, 31];
    let leap = [31, 29, 31, 30, 31, 30, 31, 31, 30, 31, 30, 31];
    for month in 1..=12u32 {
        assert_eq!(days_of_month(2023, month), common[month as usize - 1]);
        assert_eq!(days_of_month(-3, month), common[month as usize - 1]);
        assert_eq!(days_of_month(2024, month), leap[month as usize - 1]);
        assert_eq!(days_of_month(1900, month), leap[month as usize - 1]);
    }
}

#[test]
fn month_offsets_add_up_the_month_lengths() {
    assert_eq!(
        month_accum_table(2023),
        &[0, 31, 59, 90, 120, 151, 181, 212, 243, 273, 304, 334]
    );
    assert_eq!(
        month_accum_table(2024),
        &[0, 31, 60, 91, 121, 152, 182, 213, 244, 274, 305, 335]
    );
    for year in [-5, -4, 0, 1, 100, 1582] {
        let table = month_accum_table(year);
        let mut sum = 0;
        for month in 1..=12u32 {
            assert_eq!(table[month as usize - 1], sum);
            sum += days_of_month(year, month);
        }
        assert_eq!(sum, days_of_year(year));
    }
}

#[test]
fn ordinal_to_month_and_day() {
    assert_eq!(ordinal_to_md(2023, 1), (1, 1));
    assert_eq!(ordinal_to_md(2023, 31), (1, 31));
    assert_eq!(ordinal_to_md(2023, 32), (2, 1));
    assert_eq!(ordinal_to_md(2023, 59), (2, 28));
    assert_eq!(ordinal_to_md(2023, 60), (3, 1));
    assert_eq!(ordinal_to_md(2024, 60), (2, 29));
    assert_eq!(ordinal_to_md(2024, 61), (3, 1));
    assert_eq!(ordinal_to_md(2023, 334), (11, 30));
    assert_eq!(ordinal_to_md(2023, 335), (12, 1));
    assert_eq!(ordinal_to_md(2023, 365), (12, 31));
    assert_eq!(ordinal_to_md(2024, 366), (12, 31));
    assert_eq!(ordinal_to_md(2023, 366), (12, 32));
}

#[test]
fn month_and_day_to_ordinal() {
    assert_eq!(md_to_ordinal(2023, 1, 1), 1);
    assert_eq!(md_to_ordinal(2023, 3, 1), 60);
    assert_eq!(md_to_ordinal(2024, 3, 1), 61);
    assert_eq!(md_to_ordinal(2023, 12, 31), 365);
    assert_eq!(md_to_ordinal(2024, 12, 31), 366);
    assert_eq!(md_to_ordinal(-262139, 5, 22), 142);
    assert_eq!(md_to_ordinal(262138, 8, 15), 227);
}

#[test]
fn ordinal_round_trip_in_every_kind_of_year() {
    for year in [-8, -5, -1, 0, 1, 2, 3, 4, 100, 203, 204, 1900, 2000] {
        for ordinal in 1..=days_of_year(year) {
            let (month, day) = ordinal_to_md(year, ordinal);
            assert!(1 <= month && month <= 12);
            assert!(1 <= day && day <= days_of_month(year, month));
            assert_eq!(md_to_ordinal(year, month, day), ordinal);
        }
    }
}

#[test]
fn day_count_to_year_and_ordinal() {
    assert_eq!(ce_days_to_yo(1), (1, 1));
    assert_eq!(ce_days_to_yo(0), (0, 366));
    assert_eq!(ce_days_to_yo(-365), (0, 1));
    assert_eq!(ce_days_to_yo(-366), (-1, 365));
    assert_eq!(ce_days_to_yo(365), (1, 365));
    assert_eq!(ce_days_to_yo(366), (2, 1));
    assert_eq!(ce_days_to_yo(1095), (3, 365));
    assert_eq!(ce_days_to_yo(1096), (4, 1));
    assert_eq!(ce_days_to_yo(1461), (4, 366));
    assert_eq!(ce_days_to_yo(1462), (5, 1));
    assert_eq!(ce_days_to_yo(577738), (1582, 278));
    assert_eq!(ce_days_to_yo(-95746493), (-262139, 142));
    assert_eq!(ce_days_to_yo(95745766), (262138, 227));
}

#[test]
fn year_and_ordinal_to_day_count() {
    assert_eq!(yo_to_ce_days(1, 1), 1);
    assert_eq!(yo_to_ce_days(0, 366), 0);
    assert_eq!(yo_to_ce_days(0, 1), -365);
    assert_eq!(yo_to_ce_days(-1, 365), -366);
    assert_eq!(yo_to_ce_days(-1, 1), -730);
    assert_eq!(yo_to_ce_days(4, 366), 1461);
    assert_eq!(yo_to_ce_days(5, 1), 1462);
    assert_eq!(yo_to_ce_days(1582, 278), 577738);
    assert_eq!(yo_to_ce_days(-262139, 142), -95746493);
    assert_eq!(yo_to_ce_days(262138, 227), 95745766);
}

#[test]
fn day_count_round_trip_around_the_epoch() {
    for days in -3000..=3000 {
        let (year, ordinal) = ce_days_to_yo(days);
        assert!(1 <= ordinal && ordinal <= days_of_year(year));
        assert_eq!(yo_to_ce_days(year, ordinal), days);
    }
}

#[test]
fn years_follow_one_another_on_the_day_axis() {
    for year in -20..=20 {
        assert_eq!(
            yo_to_ce_days(year + 1, 1),
            yo_to_ce_days(year, 1) + days_of_year(year) as i32
        );
    }
    assert_eq!(YEAR_ACCUM_TABLE, [0, 366, 731, 1096]);
}

#[test]
fn packed_fields_read_back() {
    for &(year, month, day) in &[
        (1, 1, 1),
        (0, 12, 31),
        (-1, 2, 28),
        (1582, 10, 5),
        (-262139, 5, 22),
        (262138, 8, 15),
        (MIN_PACKED_YEAR, 0, 0),
        (MAX_PACKED_YEAR, 15, 31),
    ] {
        let packed = PackedYMD::new(year, month, day);
        assert_eq!((packed.year(), packed.month(), packed.day()), (year, month, day));
    }
}

#[test]
fn packed_dates_order_by_year_then_month_then_day() {
    let dates = [
        (-262139, 5, 22),
        (-1, 12, 31),
        (0, 1, 1),
        (0, 1, 2),
        (0, 2, 1),
        (0, 12, 31),
        (1, 1, 1),
        (1582, 10, 4),
        (1582, 10, 5),
        (1582, 11, 1),
        (262138, 8, 15),
    ];
    for (i, &(ay, am, ad)) in dates.iter().enumerate() {
        for (j, &(by, bm, bd)) in dates.iter().enumerate() {
            let a = PackedYMD::new(ay, am, ad);
            let b = PackedYMD::new(by, bm, bd);
            assert_eq!(a < b, i < j);
            assert_eq!(a == b, i == j);
            assert_eq!(a.partial_cmp(&b), i.partial_cmp(&j));
            assert_eq!(a.cmp(&b), i.cmp(&j));
        }
    }
}
