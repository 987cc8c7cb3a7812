//! What holds of the library as a whole: the constructors and the accessors
//! of a Julian date undo one another, the two calendars map onto each other
//! one to one, and the leap rule and the week behave as the Julian calendar
//! says.

use crate::calendar::{
    days_before_year, days_in_month, leap_year, lemma_date_round_trip_by_day_count,
    lemma_date_round_trip_by_ordinal, lemma_day_count_round_trip, lemma_days_before_year,
    lemma_month_offset, lemma_ordinal_round_trip, lemma_year_of_day_count, valid_ordinal,
    weekday_of_day_count, Date,
};
use crate::gregorian::Gregorian;
use crate::julian::{
    day_count_in_range, lemma_ranges_agree, ordinal_in_range, supported, Julian,
};
use crate::weekday::Weekday;
use vstd::prelude::*;
use vstd::std_specs::convert::FromSpec;

verus! {

/// A date made from year, month and day shows those fields again.
pub proof fn lemma_fields_round_trip(date: Date)
    requires
        supported(date),
    ensures
        Julian::checked(date) matches Some(julian) && julian@ == date,
{
    Julian::lemma_of_date(date);
}

/// A date is the date made from its own year, month and day.
pub proof fn lemma_fields_rebuild(julian: Julian)
    requires
        julian.wf(),
    ensures
        Julian::checked(julian@) == Some(julian),
{
    Julian::lemma_of_date(julian@);
}

/// A supported day count, made into a date and read back, is the same day
/// count.
pub proof fn lemma_day_count_of_date_from_day_count(days: int)
    requires
        day_count_in_range(days),
    ensures
        Julian::checked_day_count(days) matches Some(julian) && julian.wf() && julian@.day_count()
            == days,
{
    lemma_day_count_round_trip(days);
    lemma_ranges_agree(Date::from_day_count(days));
    Julian::lemma_of_date(Date::from_day_count(days));
}

/// A date is the date made from its own day count.
pub proof fn lemma_date_from_day_count_of_date(julian: Julian)
    requires
        julian.wf(),
    ensures
        day_count_in_range(julian@.day_count()),
        Julian::checked_day_count(julian@.day_count()) == Some(julian),
{
    lemma_date_round_trip_by_day_count(julian@);
    lemma_ranges_agree(julian@);
    Julian::lemma_of_date(julian@);
}

/// A year and an ordinal of it, made into a date and read back, are the
/// same year and ordinal.
pub proof fn lemma_ordinal_of_date_from_ordinal(year: int, ordinal: int)
    requires
        valid_ordinal(year, ordinal),
        ordinal_in_range(year, ordinal),
    ensures
        Julian::checked_ordinal(year, ordinal) matches Some(julian) && julian.wf() && julian@.year
            == year && julian@.ordinal() == ordinal,
{
    lemma_ordinal_round_trip(year, ordinal);
    lemma_ranges_agree(Date::from_ordinal(year, ordinal));
    Julian::lemma_of_date(Date::from_ordinal(year, ordinal));
}

/// A date is the date made from its own year and ordinal.
pub proof fn lemma_date_from_ordinal_of_date(julian: Julian)
    requires
        julian.wf(),
    ensures
        valid_ordinal(julian@.year, julian@.ordinal()),
        ordinal_in_range(julian@.year, julian@.ordinal()),
        Julian::checked_ordinal(julian@.year, julian@.ordinal()) == Some(julian),
{
    lemma_date_round_trip_by_ordinal(julian@);
    lemma_ranges_agree(julian@);
    Julian::lemma_of_date(julian@);
}

/// Every Julian date has a Gregorian date, two days earlier on its axis, and
/// turning that one back gives the Julian date again.
pub proof fn lemma_julian_to_gregorian_and_back(julian: Julian)
    requires
        julian.wf(),
    ensures
        Gregorian::from_spec(julian).wf(),
        Gregorian::from_spec(julian)@ == julian@.day_count() - 2,
        Julian::from_spec(Gregorian::from_spec(julian)) == julian,
{
    lemma_ranges_agree(julian@);
    lemma_date_round_trip_by_day_count(julian@);
    Gregorian::lemma_of_day_count(julian@.day_count() - 2);
    Julian::lemma_of_date(julian@);
}

/// Every Gregorian date has a Julian date, two days later on its axis, and
/// turning that one back gives the Gregorian date again.
pub proof fn lemma_gregorian_to_julian_and_back(gregorian: Gregorian)
    requires
        gregorian.wf(),
    ensures
        Julian::from_spec(gregorian).wf(),
        Julian::from_spec(gregorian)@.day_count() == gregorian@ + 2,
        Gregorian::from_spec(Julian::from_spec(gregorian)) == gregorian,
{
    lemma_day_count_round_trip(gregorian@ + 2);
    lemma_ranges_agree(Date::from_day_count(gregorian@ + 2));
    Julian::lemma_of_date(Date::from_day_count(gregorian@ + 2));
    Gregorian::lemma_of_day_count(gregorian@);
}

/// The supported Julian dates are the days that have a Gregorian date: a
/// day count on the Gregorian axis is in its range exactly when the day
/// count two later is in the range of the Julian axis.
pub proof fn lemma_supported_ranges_correspond(days: int)
    ensures
        crate::gregorian::day_count_in_range(days) <==> day_count_in_range(days + 2),
{
}

/// No year has a thirteenth month, a thirtieth of February, or, unless it
/// is a leap year, a twenty-ninth of February: none of these is made into a
/// date.
pub proof fn lemma_rejected_dates(year: int)
    ensures
        Julian::checked(Date { year, month: 13, day: 1 }) is None,
        Julian::checked(Date { year, month: 2, day: 30 }) is None,
        !leap_year(year) ==> Julian::checked(Date { year, month: 2, day: 29 }) is None,
{
}

/// The leap rule knows no exception for centuries: every year that is a
/// multiple of 100 has a twenty-ninth of February.
pub proof fn lemma_centuries_are_leap_years(year: int)
    requires
        year % 100 == 0,
    ensures
        leap_year(year),
        days_in_month(year, 2) == 29,
        (Date { year, month: 2, day: 29 }).valid(),
{
}

/// The day of the week depends on the day count alone, moves on by one from
/// each day to the next, and comes round after seven days. The first day of
/// year 1 is a Saturday.
pub proof fn lemma_week(days: int)
    ensures
        weekday_of_day_count(days + 1) == Weekday::after_monday(
            weekday_of_day_count(days).days_from_monday() + 1,
        ),
        weekday_of_day_count(days + 7) == weekday_of_day_count(days),
        weekday_of_day_count(1) == Weekday::Sat,
{
}

/// A day has the same day of the week in both calendars.
pub proof fn lemma_weekdays_agree(gregorian: Gregorian)
    requires
        gregorian.wf(),
    ensures
        weekday_of_day_count(Julian::from_spec(gregorian)@.day_count())
            == crate::gregorian::weekday_of_days(gregorian@),
{
    lemma_gregorian_to_julian_and_back(gregorian);
}

/// In the years 201 to 299 the two calendars give every day the same year,
/// month and day: the Gregorian date at an ordinal of such a year, turned
/// into a Julian date, is the Julian date at that ordinal of that year, and
/// has the fields that the Gregorian date has.
pub proof fn lemma_same_date_in_third_century(year: int, ordinal: int)
    requires
        201 <= year <= 299,
        crate::gregorian::valid_yo(year, ordinal),
    ensures
        Gregorian::checked_yo(year, ordinal) matches Some(gregorian) && gregorian.wf() && {
            let julian = Julian::from_spec(gregorian);
            &&& Julian::checked_ordinal(year, ordinal) == Some(julian)
            &&& julian@.year == crate::gregorian::year_of_days(gregorian@)
            &&& julian@.month == crate::gregorian::month_of_days(gregorian@)
            &&& julian@.day == crate::gregorian::day_of_days(gregorian@)
        },
{
    let days = crate::gregorian::days_of_yo(year, ordinal);
    crate::gregorian::lemma_days_of_yo(year, ordinal);
    Gregorian::lemma_of_day_count(days);
    assert(leap_year(year) == crate::gregorian::leap_year(year));
    assert(days_before_year(year) == crate::gregorian::days_before_year(year) + 2);
    lemma_days_before_year(year);
    lemma_year_of_day_count(days + 2, year);
    let date = Date::from_ordinal(year, ordinal);
    assert(Date::from_day_count(days + 2) == date);
    lemma_ordinal_round_trip(year, ordinal);
    lemma_ranges_agree(date);
    Julian::lemma_of_date(date);
}

/// The day on which the Gregorian calendar came into use, the fifteenth of
/// October 1582, is the fifth of October in the Julian calendar.
pub proof fn lemma_reform_day()
    ensures
        Gregorian::checked_ymd(1582, 10, 15) matches Some(gregorian) && Julian::from_spec(
            gregorian,
        )@ == (Date { year: 1582, month: 10, day: 5 }),
{
    crate::gregorian::lemma_days_of_ymd(1582, 10, 15);
    lemma_month_offset(false);
    let days = crate::gregorian::days_of_ymd(1582, 10, 15);
    assert(days == 577736);
    Gregorian::lemma_of_day_count(days);
    let date = Date { year: 1582, month: 10, day: 5 };
    assert(date.day_count() == 577738);
    lemma_date_round_trip_by_day_count(date);
    Julian::lemma_of_date(date);
}

} // verus!
