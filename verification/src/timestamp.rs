//! Calendar timestamps read from the router's reports.
//!
//! Two fixed textual formats occur: the status format
//! `Mon Jan  2 15:04:05 2006` and the build format `01/02/06 15:04`.
//! Calendar validation (month lengths, leap years, weekday consistency)
//! is the business of the datetime library behind `parse_datetime`; this
//! crate only carries the broken-down fields.

use vstd::prelude::*;
use crate::text::chars_string;

verus! {

/// A broken-down calendar timestamp, naive of any time zone.
#[derive(Clone, Copy, Debug, PartialEq, Eq, Hash, Structural)]
pub struct Timestamp {
    pub year: i32,
    pub month: u8,
    pub day: u8,
    pub hour: u8,
    pub minute: u8,
    pub second: u8,
}

/// The timestamp that the format string `fmt` reads out of `s`, if `s`
/// matches it; what the datetime library computes, named.
pub uninterp spec fn datetime_of(fmt: Seq<char>, s: Seq<char>) -> Option<Timestamp>;

/// Relies on chrono's `NaiveDateTime::parse_from_str`: parsing is a pure
/// function of the two strings, `None` exactly when `s` does not match
/// `fmt` or names an invalid calendar date.
#[verifier::external_body]
pub fn parse_datetime(s: &str, fmt: &str) -> (r: Option<Timestamp>)
    ensures
        r == datetime_of(fmt@, s@),
{
    chrono::NaiveDateTime::parse_from_str(s, fmt).ok().map(
        |dt|
            Timestamp {
                year: chrono::Datelike::year(&dt),
                month: chrono::Datelike::month(&dt) as u8,
                day: chrono::Datelike::day(&dt) as u8,
                hour: chrono::Timelike::hour(&dt) as u8,
                minute: chrono::Timelike::minute(&dt) as u8,
                second: chrono::Timelike::second(&dt) as u8,
            },
    )
}

/// `parse_datetime` on a character buffer.
pub fn parse_datetime_chars(s: &Vec<char>, fmt: &str) -> (r: Option<Timestamp>)
    ensures
        r == datetime_of(fmt@, s@),
{
    let text = chars_string(s.as_slice());
    parse_datetime(text.as_str(), fmt)
}

} // verus!
