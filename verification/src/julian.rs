//! Dates of the proleptic Julian calendar.

use crate::calendar::{
    days_before_month, days_before_year, days_in_month, days_in_year, leap_year,
    lemma_date_order, lemma_date_round_trip_by_ordinal, lemma_day_count_round_trip,
    lemma_days_before_month, lemma_days_before_year, lemma_month_of_ordinal,
    lemma_ordinal_round_trip, lemma_year_of_day_count, month_of_ordinal, valid_ordinal,
    weekday_of_day_count, year_of_day_count, Date,
};
use crate::gregorian::Gregorian;
use crate::packed::PackedYMD;
use crate::search::upper_bound;
use crate::utils::{ContainsPolyfillExt, DivEuclidPolyfillExt};
use crate::weekday::Weekday;
use std::cmp::Ordering;
use vstd::prelude::*;

verus! {

/// The earliest supported date, as year, month and day.
pub const MIN_YMD: (i32, u32, u32) = (-262139, 5, 22);

/// The latest supported date, as year, month and day.
pub const MAX_YMD: (i32, u32, u32) = (262138, 8, 15);

/// The earliest supported date, as year and ordinal.
pub const MIN_YO: (i32, u32) = (-262139, 142);

/// The latest supported date, as year and ordinal.
pub const MAX_YO: (i32, u32) = (262138, 227);

/// The day count of the earliest supported date.
pub const MIN_DAYS: i32 = -95746493;

/// The day count of the latest supported date.
pub const MAX_DAYS: i32 = 95745766;

/// The earliest supported date.
pub open spec fn min_date() -> Date {
    Date { year: MIN_YMD.0 as int, month: MIN_YMD.1 as int, day: MIN_YMD.2 as int }
}

/// The latest supported date.
pub open spec fn max_date() -> Date {
    Date { year: MAX_YMD.0 as int, month: MAX_YMD.1 as int, day: MAX_YMD.2 as int }
}

/// Whether a date lies between the earliest and the latest supported date,
/// both included.
pub open spec fn date_in_range(date: Date) -> bool {
    !date.precedes(min_date()) && !max_date().precedes(date)
}

/// Whether a year and an ordinal lie between the earliest and the latest
/// supported pair, both included, comparing by year first.
pub open spec fn ordinal_in_range(year: int, ordinal: int) -> bool {
    &&& year > MIN_YO.0 || (year == MIN_YO.0 && ordinal >= MIN_YO.1)
    &&& year < MAX_YO.0 || (year == MAX_YO.0 && ordinal <= MAX_YO.1)
}

/// Whether a day count lies between the earliest and the latest supported
/// one, both included.
pub open spec fn day_count_in_range(days: int) -> bool {
    MIN_DAYS <= days <= MAX_DAYS
}

/// Whether a date exists and is supported.
pub open spec fn supported(date: Date) -> bool {
    date.valid() && date_in_range(date)
}

/// The three ways of stating the supported range agree: a date that exists
/// lies in it by its fields exactly when it does by its year and ordinal,
/// and exactly when it does by its day count.
pub proof fn lemma_ranges_agree(date: Date)
    requires
        date.valid(),
    ensures
        date_in_range(date) <==> ordinal_in_range(date.year, date.ordinal()),
        date_in_range(date) <==> day_count_in_range(date.day_count()),
{
    lemma_days_before_month(date.year);
    lemma_days_before_month(MIN_YMD.0 as int);
    lemma_days_before_month(MAX_YMD.0 as int);
    lemma_date_order(date, min_date());
    lemma_date_order(max_date(), date);
    lemma_date_order(date, max_date());
    lemma_date_order(min_date(), date);
}

/// Day offsets at which the years of a four-year cycle begin. A cycle has
/// 1461 days and starts with its leap year.
pub const YEAR_ACCUM_TABLE: [u32; 4] = [0, 366, 731, 1096];

/// Splits a day count into the year it falls in and the ordinal within it.
/// The day count is first shifted so that it counts from the beginning of
/// year 0, which begins a four-year cycle; the cycle and the offset within
/// it then give the year.
pub fn ce_days_to_yo(days: i32) -> (yo: (i32, u32))
    requires
        days + 366 <= i32::MAX,
    ensures
        yo.0 == year_of_day_count(days as int),
        yo.1 == days - days_before_year(yo.0 as int),
        valid_ordinal(yo.0 as int, yo.1 as int),
{
    let shifted: i32 = days + 366 - 1;
    let cycle: i32 = shifted.div_euclid_polyfill(1461);
    let cycle_offset: u32 = shifted.rem_euclid_polyfill(1461) as u32;
    let later_years = &YEAR_ACCUM_TABLE[1..4];
    let year_in_cycle: usize = upper_bound(later_years, cycle_offset);
    assert(later_years@[0] == 366 && later_years@[1] == 731 && later_years@[2] == 1096);
    let year: i32 = cycle * 4 + year_in_cycle as i32;
    let ordinal: u32 = cycle_offset - YEAR_ACCUM_TABLE[year_in_cycle] + 1;
    proof {
        lemma_year_of_day_count(days as int, year as int);
        lemma_days_before_year(year as int);
    }
    (year, ordinal)
}

/// The day count of the day with a given ordinal in a given year, which
/// has to fit into an `i32`.
pub fn yo_to_ce_days(year: i32, ordinal: u32) -> (days: i32)
    requires
        i32::MIN <= days_before_year(year as int) + ordinal <= i32::MAX,
    ensures
        days == days_before_year(year as int) + ordinal,
{
    assert(year >> 2 == year / 4 && 0 <= year & 3 < 4 && year & 3 == year % 4) by (bit_vector);
    let cycle: i64 = (year >> 2) as i64;
    let cycle_offset: i64 = YEAR_ACCUM_TABLE[(year & 3) as usize] as i64 + (ordinal as i64 - 1);
    (cycle * 1461 + cycle_offset - 366 + 1) as i32
}

/// The month and the day of the month of the day with a given ordinal: the
/// month is the last one that begins before that day.
pub fn ordinal_to_md(year: i32, ordinal: u32) -> (md: (u32, u32))
    requires
        1 <= ordinal,
    ensures
        md.0 == month_of_ordinal(year as int, ordinal as int),
        md.1 == ordinal - days_before_month(year as int, md.0 as int),
{
    let table = month_accum_table(year);
    let later_months = &table[1..12];
    let month0: usize = upper_bound(later_months, ordinal - 1);
    proof {
        assert(month0 < 11 ==> later_months@[month0 as int] > ordinal - 1);
        assert(month0 > 0 ==> later_months@[month0 - 1] <= ordinal - 1);
        lemma_month_of_ordinal(year as int, ordinal as int, month0 + 1);
    }
    let day: u32 = ordinal - table[month0];
    (month0 as u32 + 1, day)
}

/// The ordinal of a day given by month and day of the month.
pub fn md_to_ordinal(year: i32, month: u32, day: u32) -> (ordinal: u32)
    requires
        1 <= month <= 12,
        days_before_month(year as int, month as int) + day <= u32::MAX,
    ensures
        ordinal == days_before_month(year as int, month as int) + day,
{
    let table = month_accum_table(year);
    table[month as usize - 1] + day
}

/// Whether a year is a leap year.
pub fn is_leap_year(year: i32) -> (leap: bool)
    ensures
        leap == leap_year(year as int),
{
    year % 4 == 0
}

/// The number of days in a year.
pub fn days_of_year(year: i32) -> (days: u32)
    ensures
        days == days_in_year(year as int),
{
    if is_leap_year(year) {
        366
    } else {
        365
    }
}

/// The number of days in a month of a year.
pub fn days_of_month(year: i32, month: u32) -> (days: u32)
    requires
        1 <= month <= 12,
    ensures
        days == days_in_month(year as int, month as int),
{
    (if is_leap_year(year) {
        [31, 29, 31, 30, 31, 30, 31, 31, 30, 31, 30, 31]
    } else {
        [31, 28, 31, 30, 31, 30, 31, 31, 30, 31, 30, 31]
    })[month as usize - 1]
}

/// The table of day offsets at which the months of a year begin.
pub fn month_accum_table(year: i32) -> (table: &'static [u32; 12])
    ensures
        forall|month0: int|
            0 <= month0 < 12 ==> #[trigger] table@[month0] == days_before_month(
                year as int,
                month0 + 1,
            ),
        crate::search::sorted(table@),
{
    proof {
        lemma_days_before_month(year as int);
    }
    if is_leap_year(year) {
        &[0, 31, 60, 91, 121, 152, 182, 213, 244, 274, 305, 335]
    } else {
        &[0, 31, 59, 90, 120, 151, 181, 212, 243, 273, 304, 334]
    }
}

/// A date of the proleptic Julian calendar.
#[derive(Debug, Clone, Copy, PartialEq, Eq, Ord, Hash, Structural)]
pub struct Julian {
    ymd: PackedYMD,
}

impl vstd::std_specs::cmp::PartialOrdSpecImpl for Julian {
    open spec fn obeys_partial_cmp_spec() -> bool {
        true
    }

    /// Dates are ordered by year, then month, then day.
    open spec fn partial_cmp_spec(&self, other: &Julian) -> Option<Ordering> {
        if self@.precedes(other@) {
            Some(Ordering::Less)
        } else if other@.precedes(self@) {
            Some(Ordering::Greater)
        } else {
            Some(Ordering::Equal)
        }
    }
}

impl PartialOrd for Julian {
    fn partial_cmp(&self, other: &Julian) -> (order: Option<Ordering>) {
        proof {
            PackedYMD::lemma_order(self.ymd, other.ymd);
        }
        self.ymd.partial_cmp(&other.ymd)
    }
}

impl View for Julian {
    type V = Date;

    /// The year, month and day of the date.
    closed spec fn view(&self) -> Date {
        self.ymd@
    }
}

impl Julian {
    /// Every value is a date that exists and lies in the supported range.
    #[verifier::type_invariant]
    pub open spec fn wf(self) -> bool {
        supported(self@)
    }

    /// The value that stands for a date.
    pub closed spec fn of_date(date: Date) -> Julian {
        Julian { ymd: PackedYMD::from_word(PackedYMD::encode(date.year, date.month, date.day)) }
    }

    /// What construction from a date gives: the date if it is supported,
    /// nothing otherwise.
    pub open spec fn checked(date: Date) -> Option<Julian> {
        if supported(date) {
            Some(Julian::of_date(date))
        } else {
            None
        }
    }

    /// What construction from a year and an ordinal gives: the date at that
    /// ordinal if the ordinal exists in the year and the pair is supported,
    /// nothing otherwise.
    pub open spec fn checked_ordinal(year: int, ordinal: int) -> Option<Julian> {
        if valid_ordinal(year, ordinal) && ordinal_in_range(year, ordinal) {
            Some(Julian::of_date(Date::from_ordinal(year, ordinal)))
        } else {
            None
        }
    }

    /// What construction from a day count gives: the date at that day count
    /// if the day count is supported, nothing otherwise.
    pub open spec fn checked_day_count(days: int) -> Option<Julian> {
        if day_count_in_range(days) {
            Some(Julian::of_date(Date::from_day_count(days)))
        } else {
            None
        }
    }

    /// A value that stands for a supported date shows that date, and no
    /// other value does.
    pub proof fn lemma_of_date(date: Date)
        requires
            supported(date),
        ensures
            Julian::of_date(date)@ == date,
            Julian::of_date(date).wf(),
            forall|other: Julian| other@ == date ==> other == Julian::of_date(date),
    {
        PackedYMD::lemma_encode(date.year, date.month, date.day);
        assert forall|other: Julian| other@ == date implies other == Julian::of_date(date) by {
            PackedYMD::lemma_view_injective(other.ymd, Julian::of_date(date).ymd);
        }
    }

    /// The date with the given year, month and day, for callers that know
    /// that the date exists and is supported.
    pub fn from_ymd(year: i32, month: u32, day: u32) -> (date: Julian)
        requires
            supported(Date { year: year as int, month: month as int, day: day as int }),
        ensures
            date@ == (Date { year: year as int, month: month as int, day: day as int }),
            date == Julian::of_date(date@),
    {
        Self::from_ymd_opt(year, month, day).expect("invalid or out-of-range date")
    }

    /// The date with the given year, month and day, if it exists and is
    /// supported.
    pub fn from_ymd_opt(year: i32, month: u32, day: u32) -> (date: Option<Julian>)
        ensures
            date == Julian::checked(
                Date { year: year as int, month: month as int, day: day as int },
            ),
            date matches Some(julian) ==> julian@ == (Date {
                year: year as int,
                month: month as int,
                day: day as int,
            }),
    {
        if !(MIN_YMD..=MAX_YMD).contains_polyfill(&(year, month, day)) {
            return None;
        }
        if month == 0 || month > 12 || day == 0 || day > days_of_month(year, month) {
            return None;
        }
        Some(Julian { ymd: PackedYMD::new(year, month, day) })
    }

    /// The date at the given ordinal of the given year, for callers that
    /// know that the ordinal exists in that year and the pair is supported.
    pub fn from_yo(year: i32, ordinal: u32) -> (date: Julian)
        requires
            valid_ordinal(year as int, ordinal as int),
            ordinal_in_range(year as int, ordinal as int),
        ensures
            date@ == Date::from_ordinal(year as int, ordinal as int),
            date == Julian::of_date(date@),
    {
        Self::from_yo_opt(year, ordinal).expect("invalid or out-of-range date")
    }

    /// The date at the given ordinal of the given year, if the ordinal
    /// exists in that year and the pair is supported.
    pub fn from_yo_opt(year: i32, ordinal: u32) -> (date: Option<Julian>)
        ensures
            date == Julian::checked_ordinal(year as int, ordinal as int),
            date matches Some(julian) ==> julian@ == Date::from_ordinal(
                year as int,
                ordinal as int,
            ),
    {
        if !(MIN_YO..=MAX_YO).contains_polyfill(&(year, ordinal)) {
            return None;
        }
        if ordinal == 0 || ordinal > days_of_year(year) {
            return None;
        }
        let (month, day) = ordinal_to_md(year, ordinal);
        proof {
            lemma_ordinal_round_trip(year as int, ordinal as int);
            lemma_ranges_agree(Date::from_ordinal(year as int, ordinal as int));
        }
        Some(Julian { ymd: PackedYMD::new(year, month, day) })
    }

    /// The date at the given day count, for callers that know that the day
    /// count is supported.
    pub fn from_num_days_from_julian_ce(days: i32) -> (date: Julian)
        requires
            day_count_in_range(days as int),
        ensures
            date@ == Date::from_day_count(days as int),
            date == Julian::of_date(date@),
    {
        Self::from_num_days_from_julian_ce_opt(days).expect("invalid or out-of-range date")
    }

    /// The date at the given day count, if the day count is supported.
    pub fn from_num_days_from_julian_ce_opt(days: i32) -> (date: Option<Julian>)
        ensures
            date == Julian::checked_day_count(days as int),
            date matches Some(julian) ==> julian@ == Date::from_day_count(days as int),
    {
        if !(MIN_DAYS..=MAX_DAYS).contains_polyfill(&days) {
            return None;
        }
        let (year, ordinal) = ce_days_to_yo(days);
        let (month, day) = ordinal_to_md(year, ordinal);
        proof {
            lemma_day_count_round_trip(days as int);
            lemma_ranges_agree(Date::from_day_count(days as int));
        }
        Some(Julian { ymd: PackedYMD::new(year, month, day) })
    }

    /// The year.
    pub fn year(&self) -> (year: i32)
        ensures
            year == self@.year,
    {
        self.ymd.year()
    }

    /// The month, from 1 for January.
    pub fn month(&self) -> (month: u32)
        ensures
            month == self@.month,
    {
        self.ymd.month()
    }

    /// The month, from 0 for January.
    pub fn month0(&self) -> (month0: u32)
        ensures
            month0 == self@.month - 1,
    {
        proof {
            use_type_invariant(self);
        }
        self.ymd.month() - 1
    }

    /// The day of the month, from 1.
    pub fn day(&self) -> (day: u32)
        ensures
            day == self@.day,
    {
        self.ymd.day()
    }

    /// The day of the month, from 0.
    pub fn day0(&self) -> (day0: u32)
        ensures
            day0 == self@.day - 1,
    {
        proof {
            use_type_invariant(self);
        }
        self.ymd.day() - 1
    }

    /// The position of the date in its year, from 1 for the first of
    /// January.
    pub fn ordinal(&self) -> (ordinal: u32)
        ensures
            ordinal == self@.ordinal(),
    {
        proof {
            use_type_invariant(self);
            lemma_date_round_trip_by_ordinal(self@);
        }
        md_to_ordinal(self.year(), self.month(), self.day())
    }

    /// The position of the date in its year, from 0 for the first of
    /// January.
    pub fn ordinal0(&self) -> (ordinal0: u32)
        ensures
            ordinal0 == self@.ordinal() - 1,
    {
        proof {
            use_type_invariant(self);
            lemma_date_round_trip_by_ordinal(self@);
        }
        md_to_ordinal(self.year(), self.month(), self.day()) - 1
    }

    /// The day of the week.
    pub fn weekday(&self) -> (weekday: Weekday)
        ensures
            weekday == weekday_of_day_count(self@.day_count()),
    {
        let table: [Weekday; 7] = [
            Weekday::Fri,
            Weekday::Sat,
            Weekday::Sun,
            Weekday::Mon,
            Weekday::Tue,
            Weekday::Wed,
            Weekday::Thu,
        ];
        table[self.num_days_from_julian_ce().rem_euclid_polyfill(7) as usize]
    }

    /// The date with the year replaced, if that date exists and is
    /// supported.
    pub fn with_year(&self, year: i32) -> (date: Option<Julian>)
        ensures
            date == Julian::checked(
                Date { year: year as int, month: self@.month, day: self@.day },
            ),
    {
        Self::from_ymd_opt(year, self.month(), self.day())
    }

    /// The date with the month replaced, if that date exists and is
    /// supported.
    pub fn with_month(&self, month: u32) -> (date: Option<Julian>)
        ensures
            date == Julian::checked(
                Date { year: self@.year, month: month as int, day: self@.day },
            ),
    {
        Self::from_ymd_opt(self.year(), month, self.day())
    }

    /// The date with the month replaced by the one after `month0`, if that
    /// date exists and is supported.
    pub fn with_month0(&self, month0: u32) -> (date: Option<Julian>)
        ensures
            date == Julian::checked(
                Date { year: self@.year, month: month0 + 1, day: self@.day },
            ),
    {
        Self::from_ymd_opt(self.year(), month0.wrapping_add(1), self.day())
    }

    /// The date with the day of the month replaced, if that date exists and
    /// is supported.
    pub fn with_day(&self, day: u32) -> (date: Option<Julian>)
        ensures
            date == Julian::checked(
                Date { year: self@.year, month: self@.month, day: day as int },
            ),
    {
        Self::from_ymd_opt(self.year(), self.month(), day)
    }

    /// The date with the day of the month replaced by the one after `day0`,
    /// if that date exists and is supported.
    pub fn with_day0(&self, day0: u32) -> (date: Option<Julian>)
        ensures
            date == Julian::checked(
                Date { year: self@.year, month: self@.month, day: day0 + 1 },
            ),
    {
        Self::from_ymd_opt(self.year(), self.month(), day0.wrapping_add(1))
    }

    /// The date at the given ordinal of the same year, if the ordinal
    /// exists in it and the pair is supported.
    pub fn with_ordinal(&self, ordinal: u32) -> (date: Option<Julian>)
        ensures
            date == Julian::checked_ordinal(self@.year, ordinal as int),
    {
        Self::from_yo_opt(self.year(), ordinal)
    }

    /// The date at the ordinal after `ordinal0` of the same year, if that
    /// ordinal exists in it and the pair is supported.
    pub fn with_ordinal0(&self, ordinal0: u32) -> (date: Option<Julian>)
        ensures
            date == Julian::checked_ordinal(self@.year, ordinal0 + 1),
    {
        Self::from_yo_opt(self.year(), ordinal0.wrapping_add(1))
    }

    /// The year as an era and a positive number within it: `true` and the
    /// year for years from 1 on, `false` and one more than the distance to
    /// year 0 for the years before.
    pub fn year_ce(&self) -> (era: (bool, u32))
        ensures
            era.0 == (self@.year > 0),
            era.1 == if self@.year > 0 {
                self@.year
            } else {
                1 - self@.year
            },
    {
        proof {
            use_type_invariant(self);
        }
        let year: i32 = self.year();
        if year > 0 {
            (true, year as u32)
        } else {
            (false, (1 - year) as u32)
        }
    }

    /// The day count of the date.
    pub fn num_days_from_julian_ce(&self) -> (days: i32)
        ensures
            days == self@.day_count(),
            day_count_in_range(days as int),
    {
        proof {
            use_type_invariant(self);
            lemma_date_round_trip_by_ordinal(self@);
            lemma_ranges_agree(self@);
        }
        let ordinal: u32 = md_to_ordinal(self.year(), self.month(), self.day());
        yo_to_ce_days(self.year(), ordinal)
    }
}

impl vstd::std_specs::convert::FromSpecImpl<Gregorian> for Julian {
    open spec fn obeys_from_spec() -> bool {
        true
    }

    /// The Julian date of the same day: its day count on the Julian axis is
    /// two more than the day count on the Gregorian axis.
    open spec fn from_spec(date: Gregorian) -> Julian {
        Julian::of_date(Date::from_day_count(date@ + 2))
    }
}

impl From<Gregorian> for Julian {
    fn from(date: Gregorian) -> (julian: Julian)
        ensures
            julian@ == Date::from_day_count(date@ + 2),
            julian@.day_count() == date@ + 2,
    {
        proof {
            lemma_day_count_round_trip(date@ + 2);
        }
        Julian::from_num_days_from_julian_ce(date.num_days_from_gregorian_ce() + 2)
    }
}

impl vstd::std_specs::convert::FromSpecImpl<Julian> for Gregorian {
    open spec fn obeys_from_spec() -> bool {
        true
    }

    /// The Gregorian date of the same day: its day count on the Gregorian
    /// axis is two less than the day count on the Julian axis.
    open spec fn from_spec(date: Julian) -> Gregorian {
        Gregorian::of_day_count(date@.day_count() - 2)
    }
}

impl From<Julian> for Gregorian {
    fn from(date: Julian) -> (gregorian: Gregorian)
        ensures
            gregorian@ == date@.day_count() - 2,
    {
        Gregorian::from_num_days_from_gregorian_ce(date.num_days_from_julian_ce() - 2)
    }
}

} // verus!
