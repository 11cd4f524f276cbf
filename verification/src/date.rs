//! Calendar dates in the `YYYY-MM-DD` form, parsed by `chrono`.

use chrono::Datelike;
use vstd::prelude::*;

verus! {

#[verifier::external_type_specification]
#[verifier::external_body]
pub struct ExDateParseError(chrono::ParseError);

/// The format in which rules and cells write dates.
pub const DATE_FORMAT: &'static str = "%Y-%m-%d";

/// The (year, month, day) that `chrono::NaiveDate::parse_from_str(text, format)`
/// yields, or `None` when it refuses the text.
pub uninterp spec fn parsed_ymd(text: Seq<char>, format: Seq<char>) -> Option<(i32, u32, u32)>;

/// Calls `chrono::NaiveDate::parse_from_str` and reads back the year, month
/// and day of the date. Claimed: the outcome is a function of the text and the
/// format alone.
#[verifier::external_body]
fn parse_naive_date(text: &str, format: &str) -> (r: Result<(i32, u32, u32), chrono::ParseError>)
    ensures
        r is Ok <==> parsed_ymd(text@, format@) is Some,
        r matches Ok(ymd) ==> parsed_ymd(text@, format@) == Some(ymd),
{
    match chrono::NaiveDate::parse_from_str(text, format) {
        Ok(d) => Ok((d.year(), d.month(), d.day())),
        Err(e) => Err(e),
    }
}

/// A calendar date; dates compare by year, then month, then day.
#[derive(Clone, Copy, Debug, PartialEq, Eq, Structural)]
pub struct Date {
    pub year: i32,
    pub month: u32,
    pub day: u32,
}

/// `a` falls strictly before `b`.
pub open spec fn precedes(a: Date, b: Date) -> bool {
    ||| a.year < b.year
    ||| (a.year == b.year && a.month < b.month)
    ||| (a.year == b.year && a.month == b.month && a.day < b.day)
}

/// The date a text writes in `YYYY-MM-DD` form, if any.
pub open spec fn date_of(text: Seq<char>) -> Option<Date> {
    match parsed_ymd(text, DATE_FORMAT@) {
        Some((y, m, d)) => Some(Date { year: y, month: m, day: d }),
        None => None,
    }
}

/// A cell is an acceptable date when it parses and lies within the inclusive
/// range: not after `before`, not before `after`.
pub open spec fn date_accepted(text: Seq<char>, before: Option<Date>, after: Option<Date>) -> bool {
    match date_of(text) {
        None => false,
        Some(d) => {
            &&& (before matches Some(b) ==> !precedes(b, d))
            &&& (after matches Some(a) ==> !precedes(d, a))
        },
    }
}

impl Date {
    pub fn precedes(&self, other: &Date) -> (r: bool)
        ensures
            r == precedes(*self, *other),
    {
        self.year < other.year || (self.year == other.year && self.month < other.month) || (
        self.year == other.year && self.month == other.month && self.day < other.day)
    }
}

/// Parses a `YYYY-MM-DD` date, keeping chrono's error when it is refused.
pub fn parse_date(text: &str) -> (r: Result<Date, chrono::ParseError>)
    ensures
        r is Ok <==> date_of(text@) is Some,
        r matches Ok(d) ==> date_of(text@) == Some(d),
{
    match parse_naive_date(text, DATE_FORMAT) {
        Ok((year, month, day)) => Ok(Date { year, month, day }),
        Err(e) => Err(e),
    }
}

/// Whether `value` is a date within the inclusive bounds.
pub fn validate_date(value: &str, before: Option<Date>, after: Option<Date>) -> (r: bool)
    ensures
        r == date_accepted(value@, before, after),
{
    match parse_date(value) {
        Ok(date) => {
            if let Some(before_date) = before {
                if before_date.precedes(&date) {
                    return false;
                }
            }
            if let Some(after_date) = after {
                if date.precedes(&after_date) {
                    return false;
                }
            }
            true
        },
        Err(_) => false,
    }
}

} // verus!
