//! A date packed into one machine word.
//!
//! The day of the month takes the lowest five bits, the month the next four,
//! and the year, with its sign, the bits above them. Packed dates therefore
//! compare as integers in the same way as their fields compare by year, then
//! month, then day.

use crate::calendar::Date;
use crate::utils::lemma_euclid_unique;
use std::cmp::Ordering;
use vstd::std_specs::cmp::PartialOrdSpec;
use vstd::prelude::*;

verus! {

/// The least year that can be packed.
pub const MIN_PACKED_YEAR: i32 = -0x40_0000;

/// The greatest year that can be packed.
pub const MAX_PACKED_YEAR: i32 = 0x3f_ffff;

/// Whether three fields fit into the bits that a packed date has for them.
pub open spec fn packable(year: int, month: int, day: int) -> bool {
    &&& MIN_PACKED_YEAR <= year <= MAX_PACKED_YEAR
    &&& 0 <= month <= 15
    &&& 0 <= day <= 31
}

/// Year, month and day in one `i32`.
#[derive(Debug, Clone, Copy, PartialEq, Eq, Ord, Hash, Structural)]
pub struct PackedYMD(i32);

impl PackedYMD {
    /// The packed word as an integer.
    pub closed spec fn word(self) -> int {
        self.0 as int
    }

    /// The packed date whose word is `word`.
    pub closed spec fn from_word(word: int) -> PackedYMD {
        PackedYMD(word as i32)
    }

    /// The word that holds three fields: the year counts 512, the month 32
    /// and the day 1.
    pub open spec fn encode(year: int, month: int, day: int) -> int {
        year * 512 + month * 32 + day
    }

    /// Packed dates with the same fields are the same.
    pub proof fn lemma_view_injective(a: PackedYMD, b: PackedYMD)
        requires
            a@ == b@,
        ensures
            a == b,
    {
    }

    /// The order of packed dates is the order of their fields, taken by
    /// year, then month, then day.
    pub proof fn lemma_order(a: PackedYMD, b: PackedYMD)
        ensures
            a.partial_cmp_spec(&b) == Some(Ordering::Less) <==> a@.precedes(b@),
            a.partial_cmp_spec(&b) == Some(Ordering::Equal) <==> a@ == b@,
            a.partial_cmp_spec(&b) == Some(Ordering::Greater) <==> b@.precedes(a@),
    {
    }

    /// The word made of three fields that fit reads back as those fields.
    pub proof fn lemma_encode(year: int, month: int, day: int)
        requires
            packable(year, month, day),
        ensures
            PackedYMD::from_word(PackedYMD::encode(year, month, day)).word() == PackedYMD::encode(
                year,
                month,
                day,
            ),
            PackedYMD::from_word(PackedYMD::encode(year, month, day))@ == (Date {
                year,
                month,
                day,
            }),
    {
        let word = PackedYMD::encode(year, month, day);
        assert(i32::MIN <= word <= i32::MAX);
        lemma_euclid_unique(word, 512, year, month * 32 + day);
        lemma_euclid_unique(word, 32, year * 16 + month, day);
        lemma_euclid_unique(year * 16 + month, 16, year, month);
    }

    /// Packs three fields. Nothing is checked here beyond their widths:
    /// whether they name a date is for the caller to decide.
    pub fn new(year: i32, month: u32, day: u32) -> (packed: PackedYMD)
        requires
            packable(year as int, month as int, day as int),
        ensures
            packed.word() == PackedYMD::encode(year as int, month as int, day as int),
            packed == PackedYMD::from_word(
                PackedYMD::encode(year as int, month as int, day as int),
            ),
            packed@ == (Date { year: year as int, month: month as int, day: day as int }),
    {
        assert(((year << 9) | (month << 5) as i32 | day as i32) == year * 512 + month * 32 + day)
            by (bit_vector)
            requires
                -0x40_0000 <= year <= 0x3f_ffff,
                month <= 15,
                day <= 31,
        ;
        PackedYMD((year << 9) | (month << 5) as i32 | day as i32)
    }

    /// The year.
    pub fn year(&self) -> (year: i32)
        ensures
            year == self@.year,
    {
        let word: i32 = self.0;
        assert(word >> 9 == word / 512) by (bit_vector);
        self.0 >> 9
    }

    /// The month.
    pub fn month(&self) -> (month: u32)
        ensures
            month == self@.month,
    {
        let word: i32 = self.0;
        assert(((word >> 5) & 15) as u32 == (word / 32) % 16) by (bit_vector);
        ((self.0 >> 5) & 15) as u32
    }

    /// The day of the month.
    pub fn day(&self) -> (day: u32)
        ensures
            day == self@.day,
    {
        let word: i32 = self.0;
        assert((word & 31) as u32 == word % 32) by (bit_vector);
        (self.0 & 31) as u32
    }
}

impl vstd::std_specs::cmp::PartialOrdSpecImpl for PackedYMD {
    open spec fn obeys_partial_cmp_spec() -> bool {
        true
    }

    /// Packed dates are ordered as their words are.
    open spec fn partial_cmp_spec(&self, other: &PackedYMD) -> Option<Ordering> {
        if self.word() < other.word() {
            Some(Ordering::Less)
        } else if self.word() > other.word() {
            Some(Ordering::Greater)
        } else {
            Some(Ordering::Equal)
        }
    }
}

impl PartialOrd for PackedYMD {
    fn partial_cmp(&self, other: &PackedYMD) -> (order: Option<Ordering>) {
        self.0.partial_cmp(&other.0)
    }
}

impl View for PackedYMD {
    type V = Date;

    /// The three fields read back from the word.
    open spec fn view(&self) -> Date {
        Date { year: self.word() / 512, month: (self.word() / 32) % 16, day: self.word() % 32 }
    }
}

} // verus!
