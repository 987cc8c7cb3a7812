//! The proleptic Julian calendar, and its dates told in the proleptic
//! Gregorian calendar and back.
//!
//! A [`Julian`] date is made from year, month and day, from year and
//! ordinal, or from a day count, and gives all of these back. A
//! [`Gregorian`] date does the same on its side, with `chrono` doing the
//! arithmetic. The two are converted into each other along the day axis, on
//! which every day has one count in each calendar, two apart.

pub mod calendar;
pub mod gregorian;
pub mod julian;
pub mod laws;
pub mod packed;
pub mod search;
pub mod utils;
pub mod weekday;

pub use gregorian::Gregorian;
pub use julian::Julian;
pub use weekday::Weekday;
