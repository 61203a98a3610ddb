//! Calendar dates.

use chrono::Datelike;
use vstd::prelude::*;

verus! {

/// A day of the proleptic Gregorian calendar.
#[derive(Clone, Copy, Debug, PartialEq, Eq, Hash)]
pub struct Date {
    pub year: i32,
    pub month: u32,
    pub day: u32,
}

/// The date that `chrono` reads from `text` in the form `%Y-%m-%d`, if it
/// reads one.
pub uninterp spec fn calendar_date(text: Seq<char>) -> Option<Date>;

/// Calls `chrono::NaiveDate::parse_from_str` with the format `%Y-%m-%d` and
/// hands back year, month and day of the date read, as `chrono`'s `Datelike`
/// reports them: the month from 1 to 12, the day from 1 to 31. The result
/// depends on the text alone.
#[verifier::external_body]
pub(crate) fn parse_calendar_date(text: &str) -> (r: Option<Date>)
    ensures
        r == calendar_date(text@),
        r matches Some(d) ==> 1 <= d.month <= 12 && 1 <= d.day <= 31,
{
    match chrono::NaiveDate::parse_from_str(text, "%Y-%m-%d") {
        Ok(d) => Some(Date { year: d.year(), month: d.month(), day: d.day() }),
        Err(_) => None,
    }
}

impl Date {
    pub fn new(year: i32, month: u32, day: u32) -> (r: Date)
        ensures
            r == (Date { year, month, day }),
    {
        Date { year, month, day }
    }

    /// The date written as `text` in the form `YYYY-MM-DD`, if `text` is a
    /// date.
    pub fn parse(text: &str) -> (r: Option<Date>)
        ensures
            r == calendar_date(text@),
    {
        parse_calendar_date(text)
    }

    pub fn year(&self) -> (r: i32)
        ensures
            r == self.year,
    {
        self.year
    }

    pub fn month(&self) -> (r: u32)
        ensures
            r == self.month,
    {
        self.month
    }

    pub fn day(&self) -> (r: u32)
        ensures
            r == self.day,
    {
        self.day
    }
}

} // verus!
