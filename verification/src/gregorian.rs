//! Dates of the proleptic Gregorian calendar.
//!
//! The calendar arithmetic on this side is `chrono`'s. A date is kept as its
//! day count, on the axis on which day 1 is the first of January of year 1
//! of the Gregorian calendar, and `chrono` is asked for everything else:
//! which day counts it accepts, which fields name a date, and which fields
//! a date has. What it answers is stated here as the calendar defines it:
//! leap years by the Gregorian rule, day counts that add up the lengths of
//! the years and months, and a week that runs on unbroken.

use crate::calendar::{
    lemma_month_at, lemma_month_at_exists, lemma_month_offset, month_at, month_length,
    month_offset,
};
use crate::weekday::Weekday;
use chrono::{Datelike, NaiveDate};
use std::cmp::Ordering;
use vstd::prelude::*;

verus! {

/// The least year `chrono` accepts (`i32::MIN >> 13`).
pub const MIN_YEAR: i32 = -262144;

/// The greatest year `chrono` accepts (`i32::MAX >> 13`).
pub const MAX_YEAR: i32 = 262143;

/// The day count of the first of January of `MIN_YEAR`.
pub const MIN_DAYS: i32 = -95746495;

/// The day count of the last of December of `MAX_YEAR`.
pub const MAX_DAYS: i32 = 95745764;

/// Whether a day count belongs to a date that `chrono` can hold.
pub open spec fn day_count_in_range(days: int) -> bool {
    MIN_DAYS <= days <= MAX_DAYS
}

/// The Gregorian leap rule: every fourth year, but of the centuries only
/// every fourth.
pub open spec fn leap_year(year: int) -> bool {
    year % 4 == 0 && (year % 100 != 0 || year % 400 == 0)
}

/// The number of days in a year.
pub open spec fn days_in_year(year: int) -> int {
    if leap_year(year) {
        366
    } else {
        365
    }
}

/// The number of days in a month of a year.
pub open spec fn days_in_month(year: int, month: int) -> int {
    month_length(leap_year(year), month)
}

/// The number of days of a year that lie before the first of a month.
pub open spec fn days_before_month(year: int, month: int) -> int {
    month_offset(leap_year(year), month)
}

/// The day count of the last day before a year begins: 365 days for every
/// year since year 1 and one more for every leap year among them.
pub open spec fn days_before_year(year: int) -> int {
    365 * (year - 1) + (year - 1) / 4 - (year - 1) / 100 + (year - 1) / 400
}

/// Whether year, month and day name a date that `chrono` can hold.
pub open spec fn valid_ymd(year: int, month: int, day: int) -> bool {
    &&& MIN_YEAR <= year <= MAX_YEAR
    &&& 1 <= month <= 12
    &&& 1 <= day <= days_in_month(year, month)
}

/// Whether year and ordinal name a date that `chrono` can hold.
pub open spec fn valid_yo(year: int, ordinal: int) -> bool {
    &&& MIN_YEAR <= year <= MAX_YEAR
    &&& 1 <= ordinal <= days_in_year(year)
}

/// The day count of the day at an ordinal of a year.
pub open spec fn days_of_yo(year: int, ordinal: int) -> int {
    days_before_year(year) + ordinal
}

/// The day count of the day with given year, month and day of the month.
pub open spec fn days_of_ymd(year: int, month: int, day: int) -> int {
    days_of_yo(year, days_before_month(year, month) + day)
}

/// Whether a day count lies between the first and the last day of `year`.
pub open spec fn day_count_in_year(days: int, year: int) -> bool {
    days_before_year(year) < days <= days_before_year(year + 1)
}

/// The year in which a day count falls.
pub open spec fn year_of_days(days: int) -> int {
    choose|year: int| day_count_in_year(days, year)
}

/// The position within its year of the day at a day count, from 1.
pub open spec fn ordinal_of_days(days: int) -> int {
    days - days_before_year(year_of_days(days))
}

/// The month in which a day count falls.
pub open spec fn month_of_days(days: int) -> int {
    month_at(leap_year(year_of_days(days)), ordinal_of_days(days))
}

/// The day of the month on which a day count falls.
pub open spec fn day_of_days(days: int) -> int {
    ordinal_of_days(days) - days_before_month(year_of_days(days), month_of_days(days))
}

/// The day of the week on which a day count falls. Day count 1, the first
/// of January of year 1, is a Monday.
pub open spec fn weekday_of_days(days: int) -> Weekday {
    Weekday::after_monday(days - 1)
}

/// Whether the day at a day count is one that `chrono` holds and has this
/// year, month and day of the month.
pub open spec fn has_ymd(days: int, year: int, month: int, day: int) -> bool {
    &&& day_count_in_range(days)
    &&& year_of_days(days) == year
    &&& month_of_days(days) == month
    &&& day_of_days(days) == day
}

/// Whether the day at a day count is one that `chrono` holds and has this
/// year and ordinal.
pub open spec fn has_yo(days: int, year: int, ordinal: int) -> bool {
    &&& day_count_in_range(days)
    &&& year_of_days(days) == year
    &&& ordinal_of_days(days) == ordinal
}

/// What asking for the date with given year, month and day comes to: nothing
/// unless the fields name a date, else the day count of that date.
pub open spec fn is_ymd_answer(answer: Option<i32>, year: int, month: int, day: int) -> bool {
    &&& answer is Some <==> valid_ymd(year, month, day)
    &&& answer matches Some(days) ==> days == days_of_ymd(year, month, day)
}

/// What asking for the date with given year and ordinal comes to: nothing
/// unless the pair names a date, else the day count of that date.
pub open spec fn is_yo_answer(answer: Option<i32>, year: int, ordinal: int) -> bool {
    &&& answer is Some <==> valid_yo(year, ordinal)
    &&& answer matches Some(days) ==> days == days_of_yo(year, ordinal)
}

/// Each year adds its own length to the day axis, which begins with year 1.
pub proof fn lemma_days_before_year(year: int)
    ensures
        days_before_year(1) == 0,
        days_before_year(year + 1) == days_before_year(year) + days_in_year(year),
{
    assert(year / 4 == (year - 1) / 4 + if year % 4 == 0 { 1int } else { 0int });
    assert(year / 100 == (year - 1) / 100 + if year % 100 == 0 { 1int } else { 0int });
    assert(year / 400 == (year - 1) / 400 + if year % 400 == 0 { 1int } else { 0int });
    if year % 100 == 0 {
        assert(year == 4 * (25 * (year / 100)));
    }
    if year % 400 == 0 {
        assert(year == 100 * (4 * (year / 400)));
    }
}

/// Later years begin later.
pub proof fn lemma_days_before_year_increases(a: int, b: int)
    requires
        a <= b,
    ensures
        days_before_year(a) + 365 * (b - a) <= days_before_year(b),
    decreases b - a,
{
    if a < b {
        lemma_days_before_year_increases(a, b - 1);
        lemma_days_before_year(b - 1);
    }
}

/// The range of day counts begins with the first day of `MIN_YEAR` and ends
/// with the last day of `MAX_YEAR`.
pub proof fn lemma_range_ends()
    ensures
        days_before_year(MIN_YEAR as int) + 1 == MIN_DAYS,
        days_before_year(MAX_YEAR + 1) == MAX_DAYS,
{
}

/// A year whose span holds the day count is the year of the day count.
pub proof fn lemma_year_of_days(days: int, year: int)
    requires
        day_count_in_year(days, year),
    ensures
        year_of_days(days) == year,
{
    let chosen = year_of_days(days);
    if chosen < year {
        lemma_days_before_year_increases(chosen + 1, year);
    } else if chosen > year {
        lemma_days_before_year_increases(year + 1, chosen);
    }
}

/// The day at an ordinal of a year is a day of that year, at that ordinal,
/// and one that `chrono` holds.
pub proof fn lemma_days_of_yo(year: int, ordinal: int)
    requires
        valid_yo(year, ordinal),
    ensures
        has_yo(days_of_yo(year, ordinal), year, ordinal),
{
    lemma_days_before_year(year);
    lemma_year_of_days(days_of_yo(year, ordinal), year);
    lemma_range_ends();
    lemma_days_before_year_increases(MIN_YEAR as int, year);
    lemma_days_before_year_increases(year + 1, MAX_YEAR + 1);
}

/// The day with given year, month and day of the month has those fields,
/// and is one that `chrono` holds.
pub proof fn lemma_days_of_ymd(year: int, month: int, day: int)
    requires
        valid_ymd(year, month, day),
    ensures
        valid_yo(year, days_before_month(year, month) + day),
        has_ymd(days_of_ymd(year, month, day), year, month, day),
{
    lemma_month_offset(leap_year(year));
    lemma_days_of_yo(year, days_before_month(year, month) + day);
    lemma_month_at(leap_year(year), days_before_month(year, month) + day, month);
}

/// Every day count that `chrono` holds has a year in `chrono`'s range, an
/// ordinal of that year, and a month and a day that exist; and it is the day
/// count of the day with those fields.
pub proof fn lemma_fields_of_days(days: int)
    requires
        day_count_in_range(days),
    ensures
        day_count_in_year(days, year_of_days(days)),
        valid_yo(year_of_days(days), ordinal_of_days(days)),
        valid_ymd(year_of_days(days), month_of_days(days), day_of_days(days)),
        days_of_yo(year_of_days(days), ordinal_of_days(days)) == days,
        days_of_ymd(year_of_days(days), month_of_days(days), day_of_days(days)) == days,
{
    let since = days - 1;
    let era = since / 146097;
    let in_era = since % 146097;
    let century: int = if in_era >= 3 * 36524 {
        3
    } else {
        in_era / 36524
    };
    let in_century = in_era - century * 36524;
    let cycle = in_century / 1461;
    let in_cycle = in_century % 1461;
    let single: int = if in_cycle >= 3 * 365 {
        3
    } else {
        in_cycle / 365
    };
    let year = 400 * era + 100 * century + 4 * cycle + single + 1;
    assert((year - 1) / 4 == 100 * era + 25 * century + cycle);
    assert((year - 1) / 100 == 4 * era + century);
    assert((year - 1) / 400 == era);
    assert(days_before_year(year) == 146097 * era + 36524 * century + 1461 * cycle + 365
        * single);
    lemma_days_before_year(year);
    lemma_year_of_days(days, year);
    lemma_range_ends();
    if year < MIN_YEAR {
        lemma_days_before_year_increases(year + 1, MIN_YEAR as int);
    }
    if year > MAX_YEAR {
        lemma_days_before_year_increases(MAX_YEAR + 1, year);
    }
    lemma_month_offset(leap_year(year));
    lemma_month_at_exists(leap_year(year), ordinal_of_days(days));
}

/// `NaiveDate::from_num_days_from_ce_opt`, asked whether it has a date for
/// the day count. It has one exactly for the day counts from the first of
/// January of `MIN_YEAR` to the last of December of `MAX_YEAR`.
#[verifier::external_body]
fn chrono_has_day_count(days: i32) -> (known: bool)
    ensures
        known == day_count_in_range(days as int),
{
    match NaiveDate::from_num_days_from_ce_opt(days) {
        Some(_) => true,
        None => false,
    }
}

/// `NaiveDate::from_ymd_opt`, with the date it makes handed back as its day
/// count, which `Datelike::num_days_from_ce` counts from the first of
/// January of year 1 as day 1. It makes a date exactly when the year is in
/// range, the month is one of twelve and the day exists in that month under
/// the Gregorian leap rule.
#[verifier::external_body]
fn chrono_from_ymd(year: i32, month: u32, day: u32) -> (days: Option<i32>)
    ensures
        days is Some <==> valid_ymd(year as int, month as int, day as int),
        days matches Some(found) ==> found == days_of_ymd(year as int, month as int, day as int),
{
    match NaiveDate::from_ymd_opt(year, month, day) {
        Some(date) => Some(date.num_days_from_ce()),
        None => None,
    }
}

/// `NaiveDate::from_yo_opt`, with the date it makes handed back as its day
/// count. For an ordinal up to 366 it makes a date exactly when the year is
/// in range and the ordinal exists in that year under the Gregorian leap
/// rule. Greater ordinals are kept away from it: it would read only their
/// lowest 28 bits.
#[verifier::external_body]
fn chrono_from_yo(year: i32, ordinal: u32) -> (days: Option<i32>)
    requires
        1 <= ordinal <= 366,
    ensures
        days is Some <==> valid_yo(year as int, ordinal as int),
        days matches Some(found) ==> found == days_of_yo(year as int, ordinal as int),
{
    match NaiveDate::from_yo_opt(year, ordinal) {
        Some(date) => Some(date.num_days_from_ce()),
        None => None,
    }
}

/// `Datelike::year` of the date at a day count, where `chrono` has a date
/// for it.
#[verifier::external_body]
fn chrono_year(days: i32) -> (year: Option<i32>)
    ensures
        year is Some <==> day_count_in_range(days as int),
        year matches Some(found) ==> found == year_of_days(days as int),
{
    match NaiveDate::from_num_days_from_ce_opt(days) {
        Some(date) => Some(date.year()),
        None => None,
    }
}

/// `Datelike::month` of the date at a day count, where `chrono` has a date
/// for it.
#[verifier::external_body]
fn chrono_month(days: i32) -> (month: Option<u32>)
    ensures
        month is Some <==> day_count_in_range(days as int),
        month matches Some(found) ==> found == month_of_days(days as int),
{
    match NaiveDate::from_num_days_from_ce_opt(days) {
        Some(date) => Some(date.month()),
        None => None,
    }
}

/// `Datelike::day` of the date at a day count, where `chrono` has a date
/// for it.
#[verifier::external_body]
fn chrono_day(days: i32) -> (day: Option<u32>)
    ensures
        day is Some <==> day_count_in_range(days as int),
        day matches Some(found) ==> found == day_of_days(days as int),
{
    match NaiveDate::from_num_days_from_ce_opt(days) {
        Some(date) => Some(date.day()),
        None => None,
    }
}

/// `Datelike::ordinal` of the date at a day count, where `chrono` has a
/// date for it.
#[verifier::external_body]
fn chrono_ordinal(days: i32) -> (ordinal: Option<u32>)
    ensures
        ordinal is Some <==> day_count_in_range(days as int),
        ordinal matches Some(found) ==> found == ordinal_of_days(days as int),
{
    match NaiveDate::from_num_days_from_ce_opt(days) {
        Some(date) => Some(date.ordinal()),
        None => None,
    }
}

/// `Datelike::weekday` of the date at a day count, where `chrono` has a
/// date for it, with `chrono`'s day of the week turned into this crate's,
/// variant by variant. The week runs on unbroken through all day counts,
/// and the first of January of year 1 is a Monday.
#[verifier::external_body]
fn chrono_weekday(days: i32) -> (weekday: Option<Weekday>)
    ensures
        weekday is Some <==> day_count_in_range(days as int),
        weekday matches Some(found) ==> found == weekday_of_days(days as int),
{
    match NaiveDate::from_num_days_from_ce_opt(days) {
        Some(date) => Some(
            match date.weekday() {
                chrono::Weekday::Mon => Weekday::Mon,
                chrono::Weekday::Tue => Weekday::Tue,
                chrono::Weekday::Wed => Weekday::Wed,
                chrono::Weekday::Thu => Weekday::Thu,
                chrono::Weekday::Fri => Weekday::Fri,
                chrono::Weekday::Sat => Weekday::Sat,
                chrono::Weekday::Sun => Weekday::Sun,
            },
        ),
        None => None,
    }
}

/// `Datelike::with_year` on the date at a day count: the date with the year
/// replaced and the same month and day, where it exists and the year is in
/// range. Nothing comes back for a day count that `chrono` has no date for.
#[verifier::external_body]
fn chrono_with_year(days: i32, year: i32) -> (changed: Option<i32>)
    ensures
        changed is Some ==> day_count_in_range(days as int),
        day_count_in_range(days as int) ==> is_ymd_answer(
            changed,
            year as int,
            month_of_days(days as int),
            day_of_days(days as int),
        ),
{
    match NaiveDate::from_num_days_from_ce_opt(days) {
        Some(date) => match date.with_year(year) {
            Some(found) => Some(found.num_days_from_ce()),
            None => None,
        },
        None => None,
    }
}

/// `Datelike::with_month` on the date at a day count: the date with the
/// month replaced and the same year and day, where it exists. Nothing
/// comes back for a day count that `chrono` has no date for.
#[verifier::external_body]
fn chrono_with_month(days: i32, month: u32) -> (changed: Option<i32>)
    ensures
        changed is Some ==> day_count_in_range(days as int),
        day_count_in_range(days as int) ==> is_ymd_answer(
            changed,
            year_of_days(days as int),
            month as int,
            day_of_days(days as int),
        ),
{
    match NaiveDate::from_num_days_from_ce_opt(days) {
        Some(date) => match date.with_month(month) {
            Some(found) => Some(found.num_days_from_ce()),
            None => None,
        },
        None => None,
    }
}

/// `Datelike::with_day` on the date at a day count: the date with the day of
/// the month replaced and the same year and month, where it exists. Nothing
/// comes back for a day count that `chrono` has no date for.
#[verifier::external_body]
fn chrono_with_day(days: i32, day: u32) -> (changed: Option<i32>)
    ensures
        changed is Some ==> day_count_in_range(days as int),
        day_count_in_range(days as int) ==> is_ymd_answer(
            changed,
            year_of_days(days as int),
            month_of_days(days as int),
            day as int,
        ),
{
    match NaiveDate::from_num_days_from_ce_opt(days) {
        Some(date) => match date.with_day(day) {
            Some(found) => Some(found.num_days_from_ce()),
            None => None,
        },
        None => None,
    }
}

/// `Datelike::with_ordinal` on the date at a day count: for an ordinal up to
/// 366, the date at that ordinal of the same year, where that ordinal
/// exists. Greater ordinals are kept away from it: it would read only their
/// lowest 28 bits. Nothing comes back for a day count that `chrono` has no
/// date for.
#[verifier::external_body]
fn chrono_with_ordinal(days: i32, ordinal: u32) -> (changed: Option<i32>)
    requires
        1 <= ordinal <= 366,
    ensures
        changed is Some ==> day_count_in_range(days as int),
        day_count_in_range(days as int) ==> is_yo_answer(
            changed,
            year_of_days(days as int),
            ordinal as int,
        ),
{
    match NaiveDate::from_num_days_from_ce_opt(days) {
        Some(date) => match date.with_ordinal(ordinal) {
            Some(found) => Some(found.num_days_from_ce()),
            None => None,
        },
        None => None,
    }
}

/// A date of the proleptic Gregorian calendar.
#[derive(Debug, Clone, Copy, PartialEq, Eq, Ord, Hash, Structural)]
pub struct Gregorian {
    days: i32,
}

impl vstd::std_specs::cmp::PartialOrdSpecImpl for Gregorian {
    open spec fn obeys_partial_cmp_spec() -> bool {
        true
    }

    /// Dates are ordered as their day counts are.
    open spec fn partial_cmp_spec(&self, other: &Gregorian) -> Option<Ordering> {
        if self@ < other@ {
            Some(Ordering::Less)
        } else if self@ > other@ {
            Some(Ordering::Greater)
        } else {
            Some(Ordering::Equal)
        }
    }
}

impl PartialOrd for Gregorian {
    fn partial_cmp(&self, other: &Gregorian) -> (order: Option<Ordering>) {
        self.days.partial_cmp(&other.days)
    }
}

impl View for Gregorian {
    type V = int;

    /// The day count of the date.
    closed spec fn view(&self) -> int {
        self.days as int
    }
}

impl Gregorian {
    /// Every value is a date that `chrono` can hold.
    #[verifier::type_invariant]
    pub open spec fn wf(self) -> bool {
        day_count_in_range(self@)
    }

    /// The value that stands for the date at a day count.
    pub closed spec fn of_day_count(days: int) -> Gregorian {
        Gregorian { days: days as i32 }
    }

    /// A value that stands for a day count in range shows that day count,
    /// and no other value does.
    pub proof fn lemma_of_day_count(days: int)
        requires
            day_count_in_range(days),
        ensures
            Gregorian::of_day_count(days)@ == days,
            Gregorian::of_day_count(days).wf(),
            forall|other: Gregorian| other@ == days ==> other == Gregorian::of_day_count(days),
    {
    }

    /// What construction from a day count gives: the date at that day count
    /// if `chrono` can hold it, nothing otherwise.
    pub open spec fn checked_day_count(days: int) -> Option<Gregorian> {
        if day_count_in_range(days) {
            Some(Gregorian::of_day_count(days))
        } else {
            None
        }
    }

    /// What construction from year, month and day gives: the date with
    /// those fields if they name one, nothing otherwise.
    pub open spec fn checked_ymd(year: int, month: int, day: int) -> Option<Gregorian> {
        if valid_ymd(year, month, day) {
            Some(Gregorian::of_day_count(days_of_ymd(year, month, day)))
        } else {
            None
        }
    }

    /// What construction from year and ordinal gives: the date at that
    /// ordinal of the year if there is one, nothing otherwise.
    pub open spec fn checked_yo(year: int, ordinal: int) -> Option<Gregorian> {
        if valid_yo(year, ordinal) {
            Some(Gregorian::of_day_count(days_of_yo(year, ordinal)))
        } else {
            None
        }
    }

    /// Turns a day count that `chrono` gave into a date.
    fn from_answer(answer: Option<i32>) -> (date: Option<Gregorian>)
        requires
            answer matches Some(days) ==> day_count_in_range(days as int),
        ensures
            date is Some <==> answer is Some,
            date matches Some(found) ==> answer == Some(found@ as i32) && found
                == Gregorian::of_day_count(found@),
    {
        match answer {
            Some(days) => Some(Gregorian { days }),
            None => None,
        }
    }

    /// The date with the given year, month and day, for callers that know
    /// that there is one.
    pub fn from_ymd(year: i32, month: u32, day: u32) -> (date: Gregorian)
        requires
            valid_ymd(year as int, month as int, day as int),
        ensures
            Some(date) == Gregorian::checked_ymd(year as int, month as int, day as int),
            date@ == days_of_ymd(year as int, month as int, day as int),
            has_ymd(date@, year as int, month as int, day as int),
    {
        Self::from_ymd_opt(year, month, day).expect("invalid or out-of-range date")
    }

    /// The date with the given year, month and day, if there is one.
    pub fn from_ymd_opt(year: i32, month: u32, day: u32) -> (date: Option<Gregorian>)
        ensures
            date == Gregorian::checked_ymd(year as int, month as int, day as int),
            date matches Some(found) ==> found@ == days_of_ymd(
                year as int,
                month as int,
                day as int,
            ),
            date matches Some(found) ==> has_ymd(found@, year as int, month as int, day as int),
    {
        let answer = chrono_from_ymd(year, month, day);
        proof {
            if answer is Some {
                lemma_days_of_ymd(year as int, month as int, day as int);
            }
        }
        Self::from_answer(answer)
    }

    /// The date at the given ordinal of the given year, for callers that
    /// know that there is one.
    pub fn from_yo(year: i32, ordinal: u32) -> (date: Gregorian)
        requires
            valid_yo(year as int, ordinal as int),
        ensures
            Some(date) == Gregorian::checked_yo(year as int, ordinal as int),
            date@ == days_of_yo(year as int, ordinal as int),
            has_yo(date@, year as int, ordinal as int),
    {
        Self::from_yo_opt(year, ordinal).expect("invalid or out-of-range date")
    }

    /// The date at the given ordinal of the given year, if there is one.
    pub fn from_yo_opt(year: i32, ordinal: u32) -> (date: Option<Gregorian>)
        ensures
            date == Gregorian::checked_yo(year as int, ordinal as int),
            date matches Some(found) ==> found@ == days_of_yo(year as int, ordinal as int),
            date matches Some(found) ==> has_yo(found@, year as int, ordinal as int),
    {
        if ordinal == 0 || ordinal > 366 {
            return None;
        }
        let answer = chrono_from_yo(year, ordinal);
        proof {
            if answer is Some {
                lemma_days_of_yo(year as int, ordinal as int);
            }
        }
        Self::from_answer(answer)
    }

    /// The date at the given day count, for callers that know that `chrono`
    /// can hold it.
    pub fn from_num_days_from_gregorian_ce(days: i32) -> (date: Gregorian)
        requires
            day_count_in_range(days as int),
        ensures
            date@ == days,
            date == Gregorian::of_day_count(days as int),
    {
        Self::from_num_days_from_gregorian_ce_opt(days).expect("out-of-range date")
    }

    /// The date at the given day count, if `chrono` can hold it.
    pub fn from_num_days_from_gregorian_ce_opt(days: i32) -> (date: Option<Gregorian>)
        ensures
            date == Gregorian::checked_day_count(days as int),
            date matches Some(found) ==> found@ == days,
    {
        if chrono_has_day_count(days) {
            Some(Gregorian { days })
        } else {
            None
        }
    }

    /// The day count of the date.
    pub fn num_days_from_gregorian_ce(&self) -> (days: i32)
        ensures
            days == self@,
            day_count_in_range(days as int),
    {
        proof {
            use_type_invariant(self);
        }
        self.days
    }

    /// The year.
    pub fn year(&self) -> (year: i32)
        ensures
            year == year_of_days(self@),
            MIN_YEAR <= year <= MAX_YEAR,
    {
        proof {
            use_type_invariant(self);
            lemma_fields_of_days(self@);
        }
        chrono_year(self.days).expect("out-of-range date")
    }

    /// The month, from 1 for January.
    pub fn month(&self) -> (month: u32)
        ensures
            month == month_of_days(self@),
            1 <= month <= 12,
    {
        proof {
            use_type_invariant(self);
            lemma_fields_of_days(self@);
        }
        chrono_month(self.days).expect("out-of-range date")
    }

    /// The month, from 0 for January.
    pub fn month0(&self) -> (month0: u32)
        ensures
            month0 == month_of_days(self@) - 1,
    {
        self.month() - 1
    }

    /// The day of the month, from 1.
    pub fn day(&self) -> (day: u32)
        ensures
            day == day_of_days(self@),
            1 <= day <= 31,
    {
        proof {
            use_type_invariant(self);
            lemma_fields_of_days(self@);
        }
        chrono_day(self.days).expect("out-of-range date")
    }

    /// The day of the month, from 0.
    pub fn day0(&self) -> (day0: u32)
        ensures
            day0 == day_of_days(self@) - 1,
    {
        self.day() - 1
    }

    /// The position of the date in its year, from 1 for the first of
    /// January.
    pub fn ordinal(&self) -> (ordinal: u32)
        ensures
            ordinal == ordinal_of_days(self@),
            1 <= ordinal <= 366,
    {
        proof {
            use_type_invariant(self);
            lemma_fields_of_days(self@);
        }
        chrono_ordinal(self.days).expect("out-of-range date")
    }

    /// The position of the date in its year, from 0 for the first of
    /// January.
    pub fn ordinal0(&self) -> (ordinal0: u32)
        ensures
            ordinal0 == ordinal_of_days(self@) - 1,
    {
        self.ordinal() - 1
    }

    /// The day of the week.
    pub fn weekday(&self) -> (weekday: Weekday)
        ensures
            weekday == weekday_of_days(self@),
    {
        proof {
            use_type_invariant(self);
        }
        chrono_weekday(self.days).expect("out-of-range date")
    }

    /// The date with the year replaced, if there is one.
    pub fn with_year(&self, year: i32) -> (date: Option<Gregorian>)
        ensures
            date == Gregorian::checked_ymd(year as int, month_of_days(self@), day_of_days(self@)),
            date matches Some(found) ==> has_ymd(
                found@,
                year as int,
                month_of_days(self@),
                day_of_days(self@),
            ),
    {
        proof {
            use_type_invariant(self);
        }
        let answer = chrono_with_year(self.days, year);
        proof {
            if answer is Some {
                lemma_days_of_ymd(year as int, month_of_days(self@), day_of_days(self@));
            }
        }
        Self::from_answer(answer)
    }

    /// The date with the month replaced, if there is one.
    pub fn with_month(&self, month: u32) -> (date: Option<Gregorian>)
        ensures
            date == Gregorian::checked_ymd(year_of_days(self@), month as int, day_of_days(self@)),
            date matches Some(found) ==> has_ymd(
                found@,
                year_of_days(self@),
                month as int,
                day_of_days(self@),
            ),
    {
        proof {
            use_type_invariant(self);
        }
        let answer = chrono_with_month(self.days, month);
        proof {
            if answer is Some {
                lemma_days_of_ymd(year_of_days(self@), month as int, day_of_days(self@));
            }
        }
        Self::from_answer(answer)
    }

    /// The date with the month replaced by the one after `month0`, if there
    /// is one.
    pub fn with_month0(&self, month0: u32) -> (date: Option<Gregorian>)
        ensures
            date == Gregorian::checked_ymd(year_of_days(self@), month0 + 1, day_of_days(self@)),
            date matches Some(found) ==> has_ymd(
                found@,
                year_of_days(self@),
                month0 + 1,
                day_of_days(self@),
            ),
    {
        match month0.checked_add(1) {
            Some(month) => self.with_month(month),
            None => None,
        }
    }

    /// The date with the day of the month replaced, if there is one.
    pub fn with_day(&self, day: u32) -> (date: Option<Gregorian>)
        ensures
            date == Gregorian::checked_ymd(year_of_days(self@), month_of_days(self@), day as int),
            date matches Some(found) ==> has_ymd(
                found@,
                year_of_days(self@),
                month_of_days(self@),
                day as int,
            ),
    {
        proof {
            use_type_invariant(self);
        }
        let answer = chrono_with_day(self.days, day);
        proof {
            if answer is Some {
                lemma_days_of_ymd(year_of_days(self@), month_of_days(self@), day as int);
            }
        }
        Self::from_answer(answer)
    }

    /// The date with the day of the month replaced by the one after `day0`,
    /// if there is one.
    pub fn with_day0(&self, day0: u32) -> (date: Option<Gregorian>)
        ensures
            date == Gregorian::checked_ymd(year_of_days(self@), month_of_days(self@), day0 + 1),
            date matches Some(found) ==> has_ymd(
                found@,
                year_of_days(self@),
                month_of_days(self@),
                day0 + 1,
            ),
    {
        match day0.checked_add(1) {
            Some(day) => self.with_day(day),
            None => None,
        }
    }

    /// The date at the given ordinal of the same year, if there is one.
    pub fn with_ordinal(&self, ordinal: u32) -> (date: Option<Gregorian>)
        ensures
            date == Gregorian::checked_yo(year_of_days(self@), ordinal as int),
            date matches Some(found) ==> has_yo(found@, year_of_days(self@), ordinal as int),
    {
        if ordinal == 0 || ordinal > 366 {
            return None;
        }
        proof {
            use_type_invariant(self);
        }
        let answer = chrono_with_ordinal(self.days, ordinal);
        proof {
            if answer is Some {
                lemma_days_of_yo(year_of_days(self@), ordinal as int);
            }
        }
        Self::from_answer(answer)
    }

    /// The date at the ordinal after `ordinal0` of the same year, if there
    /// is one.
    pub fn with_ordinal0(&self, ordinal0: u32) -> (date: Option<Gregorian>)
        ensures
            date == Gregorian::checked_yo(year_of_days(self@), ordinal0 + 1),
            date matches Some(found) ==> has_yo(found@, year_of_days(self@), ordinal0 + 1),
    {
        match ordinal0.checked_add(1) {
            Some(ordinal) => self.with_ordinal(ordinal),
            None => None,
        }
    }
}

} // verus!
