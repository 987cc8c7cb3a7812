//! The proleptic Julian calendar as mathematics.
//!
//! Every fourth year is a leap year, with no exception for centuries, and the
//! rule extends to year zero and to negative years. Days are numbered along a
//! single axis on which day 1 is the first of January of year 1.

use crate::weekday::Weekday;
use vstd::prelude::*;

verus! {

/// A year is a leap year exactly when it is a multiple of four.
pub open spec fn leap_year(year: int) -> bool {
    year % 4 == 0
}

/// The number of days in a year.
pub open spec fn days_in_year(year: int) -> int {
    if leap_year(year) {
        366
    } else {
        365
    }
}

/// The number of days in a month, in a leap year or in a common one. Only
/// months `1..=12` mean anything.
pub open spec fn month_length(leap: bool, month: int) -> int {
    if month == 2 {
        if leap {
            29
        } else {
            28
        }
    } else if month == 4 || month == 6 || month == 9 || month == 11 {
        30
    } else {
        31
    }
}

/// The number of days that lie before the first of a month in its year: the
/// lengths of all earlier months, added up.
pub open spec fn month_offset(leap: bool, month: int) -> int
    decreases month,
{
    if month <= 1 {
        0
    } else {
        month_offset(leap, month - 1) + month_length(leap, month - 1)
    }
}

/// Whether `month` is the last month that begins before the day with the
/// given ordinal. Ordinals past the end of the year count as December.
pub open spec fn month_holds(leap: bool, ordinal: int, month: int) -> bool {
    &&& 1 <= month <= 12
    &&& month_offset(leap, month) < ordinal
    &&& month == 12 || ordinal <= month_offset(leap, month + 1)
}

/// The month in which the day with a given ordinal falls.
pub open spec fn month_at(leap: bool, ordinal: int) -> int {
    choose|month: int| month_holds(leap, ordinal, month)
}

/// The number of days in a month of a year.
pub open spec fn days_in_month(year: int, month: int) -> int {
    month_length(leap_year(year), month)
}

/// The number of days of a year that lie before the first of a month.
pub open spec fn days_before_month(year: int, month: int) -> int {
    month_offset(leap_year(year), month)
}

/// The day count of the last day before a year begins, so that the first of
/// January of `year` has day count `days_before_year(year) + 1`.
pub open spec fn days_before_year(year: int) -> int {
    365 * (year - 1) + (year - 1) / 4
}

/// Whether `ordinal` names a day of `year`, counting from 1.
pub open spec fn valid_ordinal(year: int, ordinal: int) -> bool {
    1 <= ordinal <= days_in_year(year)
}

/// Whether `month` is the last month of `year` that begins before the day
/// with the given ordinal.
pub open spec fn ordinal_in_month(year: int, ordinal: int, month: int) -> bool {
    month_holds(leap_year(year), ordinal, month)
}

/// The month of `year` in which the day with a given ordinal falls.
pub open spec fn month_of_ordinal(year: int, ordinal: int) -> int {
    month_at(leap_year(year), ordinal)
}

/// Whether a day count lies between the first and the last day of `year`.
pub open spec fn day_count_in_year(days: int, year: int) -> bool {
    days_before_year(year) < days <= days_before_year(year + 1)
}

/// The year in which a day count falls.
pub open spec fn year_of_day_count(days: int) -> int {
    choose|year: int| day_count_in_year(days, year)
}

/// The day of the week on which a day count falls. Day count 0, the last
/// day of year 0, is a Friday.
pub open spec fn weekday_of_day_count(days: int) -> Weekday {
    Weekday::after_monday(days + 4)
}

/// A calendar date as year, month and day of the month.
pub struct Date {
    pub year: int,
    pub month: int,
    pub day: int,
}

impl Date {
    /// Whether the month exists and the day exists in that month.
    pub open spec fn valid(self) -> bool {
        1 <= self.month <= 12 && 1 <= self.day <= days_in_month(self.year, self.month)
    }

    /// The position of the date within its year, counting from 1.
    pub open spec fn ordinal(self) -> int {
        days_before_month(self.year, self.month) + self.day
    }

    /// The position of the date on the day axis.
    pub open spec fn day_count(self) -> int {
        days_before_year(self.year) + self.ordinal()
    }

    /// The date with a given year and position within that year.
    pub open spec fn from_ordinal(year: int, ordinal: int) -> Date {
        let month = month_of_ordinal(year, ordinal);
        Date { year, month, day: ordinal - days_before_month(year, month) }
    }

    /// The date at a given position on the day axis.
    pub open spec fn from_day_count(days: int) -> Date {
        let year = year_of_day_count(days);
        Date::from_ordinal(year, days - days_before_year(year))
    }

    /// Chronological order written out on the fields: by year, then by
    /// month, then by day.
    pub open spec fn precedes(self, other: Date) -> bool {
        self.year < other.year || (self.year == other.year && (self.month < other.month || (
        self.month == other.month && self.day < other.day)))
    }
}

/// The month offsets, one by one. The last one is the length of the year.
pub proof fn lemma_month_offset(leap: bool)
    ensures
        month_offset(leap, 1) == 0,
        month_offset(leap, 2) == 31,
        month_offset(leap, 3) == 31 + month_length(leap, 2),
        month_offset(leap, 4) == 62 + month_length(leap, 2),
        month_offset(leap, 5) == 92 + month_length(leap, 2),
        month_offset(leap, 6) == 123 + month_length(leap, 2),
        month_offset(leap, 7) == 153 + month_length(leap, 2),
        month_offset(leap, 8) == 184 + month_length(leap, 2),
        month_offset(leap, 9) == 215 + month_length(leap, 2),
        month_offset(leap, 10) == 245 + month_length(leap, 2),
        month_offset(leap, 11) == 276 + month_length(leap, 2),
        month_offset(leap, 12) == 306 + month_length(leap, 2),
        month_offset(leap, 13) == 337 + month_length(leap, 2),
{
    reveal_with_fuel(month_offset, 14);
}

/// A month found between the right offsets is the month of the ordinal.
pub proof fn lemma_month_at(leap: bool, ordinal: int, month: int)
    requires
        month_holds(leap, ordinal, month),
    ensures
        month_at(leap, ordinal) == month,
{
    lemma_month_offset(leap);
}

/// Every ordinal from 1 up has a month, and up to the length of the year
/// the day of the month it gives exists.
pub proof fn lemma_month_at_exists(leap: bool, ordinal: int)
    requires
        1 <= ordinal,
    ensures
        month_holds(leap, ordinal, month_at(leap, ordinal)),
        ordinal <= month_offset(leap, 13) ==> ordinal - month_offset(leap, month_at(leap, ordinal))
            <= month_length(leap, month_at(leap, ordinal)),
{
    lemma_month_offset(leap);
    let month: int = if ordinal <= month_offset(leap, 2) {
        1
    } else if ordinal <= month_offset(leap, 3) {
        2
    } else if ordinal <= month_offset(leap, 4) {
        3
    } else if ordinal <= month_offset(leap, 5) {
        4
    } else if ordinal <= month_offset(leap, 6) {
        5
    } else if ordinal <= month_offset(leap, 7) {
        6
    } else if ordinal <= month_offset(leap, 8) {
        7
    } else if ordinal <= month_offset(leap, 9) {
        8
    } else if ordinal <= month_offset(leap, 10) {
        9
    } else if ordinal <= month_offset(leap, 11) {
        10
    } else if ordinal <= month_offset(leap, 12) {
        11
    } else {
        12
    };
    lemma_month_at(leap, ordinal, month);
}

/// The cumulative month offsets of a year, one by one.
pub proof fn lemma_days_before_month(year: int)
    ensures
        days_before_month(year, 1) == 0,
        days_before_month(year, 2) == 31,
        days_before_month(year, 3) == 31 + days_in_month(year, 2),
        days_before_month(year, 4) == 62 + days_in_month(year, 2),
        days_before_month(year, 5) == 92 + days_in_month(year, 2),
        days_before_month(year, 6) == 123 + days_in_month(year, 2),
        days_before_month(year, 7) == 153 + days_in_month(year, 2),
        days_before_month(year, 8) == 184 + days_in_month(year, 2),
        days_before_month(year, 9) == 215 + days_in_month(year, 2),
        days_before_month(year, 10) == 245 + days_in_month(year, 2),
        days_before_month(year, 11) == 276 + days_in_month(year, 2),
        days_before_month(year, 12) == 306 + days_in_month(year, 2),
        days_before_month(year, 13) == days_in_year(year),
{
    lemma_month_offset(leap_year(year));
}

/// A month found between the right offsets is the month of the ordinal.
pub proof fn lemma_month_of_ordinal(year: int, ordinal: int, month: int)
    requires
        ordinal_in_month(year, ordinal, month),
    ensures
        month_of_ordinal(year, ordinal) == month,
{
    lemma_month_at(leap_year(year), ordinal, month);
}

/// Every ordinal from 1 up has a month, and within the year the day of the
/// month it gives exists.
pub proof fn lemma_month_of_ordinal_exists(year: int, ordinal: int)
    requires
        1 <= ordinal,
    ensures
        ordinal_in_month(year, ordinal, month_of_ordinal(year, ordinal)),
        valid_ordinal(year, ordinal) ==> Date::from_ordinal(year, ordinal).valid(),
{
    lemma_month_offset(leap_year(year));
    lemma_month_at_exists(leap_year(year), ordinal);
}

/// Each year adds its own length to the day axis, which begins with year 1.
pub proof fn lemma_days_before_year(year: int)
    ensures
        days_before_year(1) == 0,
        days_before_year(year + 1) == days_before_year(year) + days_in_year(year),
{
}

/// Later years begin later.
pub proof fn lemma_days_before_year_increases(a: int, b: int)
    requires
        a <= b,
    ensures
        days_before_year(a) + 365 * (b - a) <= days_before_year(b),
{
}

/// A year whose span holds the day count is the year of the day count.
pub proof fn lemma_year_of_day_count(days: int, year: int)
    requires
        day_count_in_year(days, year),
    ensures
        year_of_day_count(days) == year,
{
    let chosen = year_of_day_count(days);
    if chosen < year {
        lemma_days_before_year_increases(chosen + 1, year);
    } else if chosen > year {
        lemma_days_before_year_increases(year + 1, chosen);
    }
}

/// Every day count falls into a year, at an ordinal that exists in it.
pub proof fn lemma_year_of_day_count_exists(days: int)
    ensures
        day_count_in_year(days, year_of_day_count(days)),
        valid_ordinal(year_of_day_count(days), days - days_before_year(year_of_day_count(days))),
{
    let shifted = days + 365;
    let cycle = shifted / 1461;
    let offset = shifted % 1461;
    let year: int = if offset < 366 {
        4 * cycle
    } else if offset < 731 {
        4 * cycle + 1
    } else if offset < 1096 {
        4 * cycle + 2
    } else {
        4 * cycle + 3
    };
    lemma_year_of_day_count(days, year);
    lemma_days_before_year(year);
}

/// Turning an ordinal of a year into month and day gives a date that exists,
/// and the ordinal of that date is the one that went in.
pub proof fn lemma_ordinal_round_trip(year: int, ordinal: int)
    requires
        valid_ordinal(year, ordinal),
    ensures
        Date::from_ordinal(year, ordinal).valid(),
        Date::from_ordinal(year, ordinal).year == year,
        Date::from_ordinal(year, ordinal).ordinal() == ordinal,
{
    lemma_month_of_ordinal_exists(year, ordinal);
}

/// The ordinal of a date that exists is an ordinal of its year, and turning
/// it back into month and day gives the date again.
pub proof fn lemma_date_round_trip_by_ordinal(date: Date)
    requires
        date.valid(),
    ensures
        valid_ordinal(date.year, date.ordinal()),
        Date::from_ordinal(date.year, date.ordinal()) == date,
{
    lemma_days_before_month(date.year);
    lemma_month_of_ordinal(date.year, date.ordinal(), date.month);
}

/// Every day count is the day count of the date it decomposes into, and that
/// date exists.
pub proof fn lemma_day_count_round_trip(days: int)
    ensures
        Date::from_day_count(days).valid(),
        Date::from_day_count(days).day_count() == days,
{
    lemma_year_of_day_count_exists(days);
    let year = year_of_day_count(days);
    lemma_ordinal_round_trip(year, days - days_before_year(year));
}

/// A date that exists is the date that its own day count decomposes into.
pub proof fn lemma_date_round_trip_by_day_count(date: Date)
    requires
        date.valid(),
    ensures
        Date::from_day_count(date.day_count()) == date,
{
    lemma_date_round_trip_by_ordinal(date);
    lemma_days_before_year(date.year);
    lemma_year_of_day_count(date.day_count(), date.year);
}

/// Among dates that exist, the order by year, month and day is the order of
/// the day counts, and different dates have different day counts.
pub proof fn lemma_date_order(a: Date, b: Date)
    requires
        a.valid(),
        b.valid(),
    ensures
        a.precedes(b) <==> a.day_count() < b.day_count(),
        a == b <==> a.day_count() == b.day_count(),
{
    lemma_date_round_trip_by_ordinal(a);
    lemma_date_round_trip_by_ordinal(b);
    lemma_days_before_month(a.year);
    lemma_days_before_month(b.year);
    lemma_days_before_year(a.year);
    lemma_days_before_year(b.year);
    if a.year < b.year {
        lemma_days_before_year_increases(a.year + 1, b.year);
    } else if b.year < a.year {
        lemma_days_before_year_increases(b.year + 1, a.year);
    }
}

} // verus!
