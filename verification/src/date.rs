//! Calendar dates, the inclusive window a run is limited to, and the reading
//! of `YYYY-MM-DD` parameters.

use chrono::Datelike;
use vstd::pervasive::unreached;
use vstd::prelude::*;

verus! {

/// Whether `year` is a leap year of the proleptic Gregorian calendar.
pub open spec fn is_leap_year(year: int) -> bool {
    year % 4 == 0 && (year % 100 != 0 || year % 400 == 0)
}

/// The number of days of `month` in `year`, or 0 where `month` is no month.
pub open spec fn days_in_month(year: int, month: int) -> int {
    if month == 2 {
        if is_leap_year(year) {
            29
        } else {
            28
        }
    } else if month == 4 || month == 6 || month == 9 || month == 11 {
        30
    } else if 1 <= month <= 12 {
        31
    } else {
        0
    }
}

/// Whether `year`, `month` and `day` name a day of the calendar.
pub open spec fn is_calendar_day(year: int, month: int, day: int) -> bool {
    1 <= month <= 12 && 1 <= day <= days_in_month(year, month)
}

/// Executable form of [`is_leap_year`].
pub fn leap_year(year: i32) -> (leap: bool)
    ensures
        leap == is_leap_year(year as int),
{
    // shifted by a multiple of 400 so that the remainders are taken of a
    // number that is not negative
    let shifted: u64 = (year as i64 + 2_147_484_000i64) as u64;
    assert(shifted as int == year as int + 400 * 5_368_710);
    shifted % 4 == 0 && (shifted % 100 != 0 || shifted % 400 == 0)
}

/// A calendar date.
#[derive(Clone, Copy, Debug, PartialEq, Eq, Structural)]
pub struct Date {
    pub year: i32,
    pub month: u32,
    pub day: u32,
}

impl Date {
    /// The date names a day that exists.
    pub open spec fn well_formed(self) -> bool {
        is_calendar_day(self.year as int, self.month as int, self.day as int)
    }

    /// `self` is an earlier day than `other`.
    pub open spec fn precedes(self, other: Date) -> bool {
        self.year < other.year || (self.year == other.year && (self.month < other.month || (
        self.month == other.month && self.day < other.day)))
    }

    /// The date of `year`, `month` and `day`, if such a day exists.
    pub fn from_ymd(year: i32, month: u32, day: u32) -> (date: Option<Date>)
        ensures
            date == (if is_calendar_day(year as int, month as int, day as int) {
                Some(Date { year, month, day })
            } else {
                None
            }),
            date matches Some(d) ==> d.well_formed(),
    {
        if month < 1 || month > 12 || day < 1 {
            return None;
        }
        let leap: bool = leap_year(year);
        let length: u32 = if month == 2 {
            if leap {
                29
            } else {
                28
            }
        } else if month == 4 || month == 6 || month == 9 || month == 11 {
            30
        } else {
            31
        };
        if day > length {
            None
        } else {
            Some(Date { year, month, day })
        }
    }

    /// Whether `self` is an earlier day than `other`.
    pub fn is_before(&self, other: &Date) -> (r: bool)
        ensures
            r == self.precedes(*other),
    {
        self.year < other.year || (self.year == other.year && (self.month < other.month || (
        self.month == other.month && self.day < other.day)))
    }
}

/// Of two different dates one precedes the other, and never both.
pub proof fn lemma_precedes_total(a: Date, b: Date)
    ensures
        a == b || a.precedes(b) || b.precedes(a),
        !(a.precedes(b) && b.precedes(a)),
        !a.precedes(a),
{
}

/// `precedes` is transitive.
pub proof fn lemma_precedes_transitive(a: Date, b: Date, c: Date)
    requires
        a.precedes(b),
        b.precedes(c),
    ensures
        a.precedes(c),
{
}

/// The dates a run is limited to: both bounds are inclusive, and a missing
/// bound leaves that side open.
#[derive(Clone, Copy, Debug, PartialEq, Eq, Structural)]
pub struct DateWindow {
    pub start: Option<Date>,
    pub end: Option<Date>,
}

impl DateWindow {
    /// `date` is not before the start, if there is one, and not after the
    /// end, if there is one.
    pub open spec fn admits(self, date: Date) -> bool {
        (self.start matches Some(start) ==> !date.precedes(start)) && (self.end matches Some(end)
            ==> !end.precedes(date))
    }

    /// The window from `start` to `end`.
    pub fn new(start: Option<Date>, end: Option<Date>) -> (window: DateWindow)
        ensures
            window == (DateWindow { start, end }),
    {
        DateWindow { start, end }
    }

    /// The window without bounds, which admits every date.
    pub fn unbounded() -> (window: DateWindow)
        ensures
            window == (DateWindow { start: None, end: None }),
            forall|date: Date| window.admits(date),
    {
        DateWindow { start: None, end: None }
    }

    /// Whether `date` lies in the window.
    pub fn contains(&self, date: &Date) -> (inside: bool)
        ensures
            inside == self.admits(*date),
    {
        let after_start = match self.start {
            Some(start) => !date.is_before(&start),
            None => true,
        };
        let before_end = match self.end {
            Some(end) => !end.is_before(date),
            None => true,
        };
        after_start && before_end
    }
}

/// The format in which dates are given as parameters: `YYYY-MM-DD`.
pub open spec fn date_format() -> Seq<char> {
    "%Y-%m-%d"@
}

/// What `chrono::NaiveDate::parse_from_str` makes of `text` under `format`:
/// the year, month and day of the date it returns, or `None` where it returns
/// an error.
pub uninterp spec fn chrono_date_fields(text: Seq<char>, format: Seq<char>) -> Option<
    (i32, u32, u32),
>;

/// Parses `text` with `chrono::NaiveDate::parse_from_str` and takes the
/// result apart with `Datelike::year`, `month` and `day`.
///
/// Trusted: the result is `chrono_date_fields` of the two arguments. Nothing
/// is claimed of which texts parse, nor of the fields that come back.
#[verifier::external_body]
fn parse_with_format(text: &str, format: &str) -> (fields: Option<(i32, u32, u32)>)
    ensures
        fields == chrono_date_fields(text@, format@),
{
    match chrono::NaiveDate::parse_from_str(text, format) {
        Ok(date) => Some((date.year(), date.month(), date.day())),
        Err(_) => None,
    }
}

/// The date that parsed fields stand for, if they name a day that exists.
pub open spec fn date_of_fields(fields: Option<(i32, u32, u32)>) -> Option<Date> {
    match fields {
        Some((year, month, day)) => if is_calendar_day(year as int, month as int, day as int) {
            Some(Date { year, month, day })
        } else {
            None
        },
        None => None,
    }
}

/// The date that `text` gives when read as `YYYY-MM-DD`.
pub open spec fn parsed_date(text: Seq<char>) -> Option<Date> {
    date_of_fields(chrono_date_fields(text, date_format()))
}

/// Turns the outcome of parsing into a date, checking that the day exists.
pub fn date_from_fields(fields: Option<(i32, u32, u32)>) -> (date: Option<Date>)
    ensures
        date == date_of_fields(fields),
        date matches Some(d) ==> d.well_formed(),
{
    match fields {
        Some((year, month, day)) => Date::from_ymd(year, month, day),
        None => None,
    }
}

/// The text given for a date parameter did not read as `YYYY-MM-DD`.
#[derive(Clone, Copy, Debug, PartialEq, Eq, Structural)]
pub struct UnknownDateFormat;

/// Reading a date parameter in the format `YYYY-MM-DD`.
pub trait DateString {
    /// The text to read, if there is one.
    spec fn date_text(&self) -> Option<Seq<char>>;

    /// The date, or `None` where the text is missing or does not parse.
    fn try_parse_date(&self) -> (date: Option<Date>)
        ensures
            date == (match self.date_text() {
                Some(text) => parsed_date(text),
                None => None,
            }),
            date matches Some(d) ==> d.well_formed(),
    ;

    /// The date of a text that reads as one. A caller that does not know
    /// whether it does asks [`DateString::try_parse_date`] first.
    fn parse_date(&self) -> (date: Date)
        requires
            self.date_text() is Some,
            parsed_date(self.date_text()->0) is Some,
        ensures
            Some(date) == parsed_date(self.date_text()->0),
            date.well_formed(),
    ;
}

impl DateString for str {
    open spec fn date_text(&self) -> Option<Seq<char>> {
        Some(self@)
    }

    fn try_parse_date(&self) -> (date: Option<Date>) {
        date_from_fields(parse_with_format(self, "%Y-%m-%d"))
    }

    fn parse_date(&self) -> (date: Date) {
        match self.try_parse_date() {
            Some(d) => d,
            None => unreached(),
        }
    }
}

impl DateString for Option<String> {
    open spec fn date_text(&self) -> Option<Seq<char>> {
        match self {
            Some(text) => Some(text@),
            None => None,
        }
    }

    fn try_parse_date(&self) -> (date: Option<Date>) {
        match self {
            Some(text) => text.as_str().try_parse_date(),
            None => None,
        }
    }

    fn parse_date(&self) -> (date: Date) {
        match self {
            Some(text) => text.as_str().parse_date(),
            None => unreached(),
        }
    }
}

} // verus!
