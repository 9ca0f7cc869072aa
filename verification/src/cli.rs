//! The commands of the program and the parameters they carry.

use crate::date::{parsed_date, DateString, DateWindow, UnknownDateFormat};
use vstd::prelude::*;

verus! {

/// A command with its parameters, as given on the command line.
#[derive(Debug, Clone, PartialEq, Eq)]
#[allow(inconsistent_fields)]
pub enum Commands {
    /// Ingest the archives of the matching symbols.
    Fetch {
        /// The output directory to store the files.
        path: String,
        /// The symbol name or filter expression.
        symbol: String,
        /// The sampling interval.
        interval: String,
        /// The first day to ingest, as `YYYY-MM-DD`.
        start_date: Option<String>,
        /// The last day to ingest, as `YYYY-MM-DD`.
        end_date: Option<String>,
    },
    /// Run the signal over the ingested files of the matching symbols.
    Test {
        /// The symbol name or filter expression.
        symbol: String,
        /// The first day, as `YYYY-MM-DD`.
        start_date: String,
        /// The last day, as `YYYY-MM-DD`.
        end_date: String,
        /// The directory the files were stored in.
        path: String,
    },
    /// Run the signal once for each start day of the range.
    TestVariants {
        /// The symbol name or filter expression.
        symbol: String,
        /// The first day, as `YYYY-MM-DD`.
        start_date: String,
        /// The last day, as `YYYY-MM-DD`.
        end_date: String,
        /// The directory the files were stored in.
        path: String,
    },
}

/// The bound that an optional parameter gives: none where it is missing or
/// does not read as a date.
pub open spec fn optional_bound(text: Option<String>) -> Option<crate::date::Date> {
    match text {
        Some(given) => parsed_date(given@),
        None => None,
    }
}

/// The window of a command that needs both bounds.
pub open spec fn required_window(start: Seq<char>, end: Seq<char>) -> Result<
    DateWindow,
    UnknownDateFormat,
> {
    if parsed_date(start) is Some && parsed_date(end) is Some {
        Ok(DateWindow { start: parsed_date(start), end: parsed_date(end) })
    } else {
        Err(UnknownDateFormat)
    }
}

impl Commands {
    /// The dates the command is limited to. For `Fetch` a bound that is
    /// missing or does not read as a date leaves its side open; the other
    /// commands need both bounds.
    pub open spec fn spec_window(&self) -> Result<DateWindow, UnknownDateFormat> {
        match *self {
            Commands::Fetch { start_date, end_date, .. } => Ok(
                DateWindow { start: optional_bound(start_date), end: optional_bound(end_date) },
            ),
            Commands::Test { start_date, end_date, .. } => required_window(
                start_date@,
                end_date@,
            ),
            Commands::TestVariants { start_date, end_date, .. } => required_window(
                start_date@,
                end_date@,
            ),
        }
    }

    /// The dates the command is limited to (see [`Commands::spec_window`]).
    pub fn window(&self) -> (window: Result<DateWindow, UnknownDateFormat>)
        ensures
            window == self.spec_window(),
    {
        match self {
            Commands::Fetch { start_date, end_date, .. } => Ok(
                DateWindow::new(start_date.try_parse_date(), end_date.try_parse_date()),
            ),
            Commands::Test { start_date, end_date, .. } => both_bounds(
                start_date.as_str(),
                end_date.as_str(),
            ),
            Commands::TestVariants { start_date, end_date, .. } => both_bounds(
                start_date.as_str(),
                end_date.as_str(),
            ),
        }
    }
}

/// The window from `start` to `end`, both of which have to read as dates.
pub fn both_bounds(start: &str, end: &str) -> (window: Result<DateWindow, UnknownDateFormat>)
    ensures
        window == required_window(start@, end@),
{
    if start.try_parse_date().is_some() && end.try_parse_date().is_some() {
        Ok(DateWindow::new(Some(start.parse_date()), Some(end.parse_date())))
    } else {
        Err(UnknownDateFormat)
    }
}

} // verus!
