//! What the render use case needs from the world, as traits the host
//! implements, and the plain values that cross them.

use vstd::prelude::*;
use crate::document::Document;
use crate::error::{DomainError, SourceLocation};
use crate::fmt::{decimal, push_decimal};
use crate::plan::LayoutPlan;
use crate::sandbox::SandboxedPath;
use crate::theme::ThemeSet;

verus! {

/// A calendar date, as the document attributes that name today need it.
#[derive(Debug, Clone, Copy, PartialEq, Eq, PartialOrd, Ord, Structural)]
pub struct Date {
    /// The year.
    pub year: i32,
    /// The month, from 1 to 12.
    pub month: u8,
    /// The day of the month, from 1 to 31.
    pub day: u8,
}

/// Why a proposed date is not one.
#[derive(Debug, Clone, Copy, PartialEq, Eq, Structural)]
pub enum InvalidDate {
    /// The month was outside 1 to 12.
    Month {
        /// The month supplied.
        month: u8,
    },
    /// The day was outside 1 to 31.
    Day {
        /// The day supplied.
        day: u8,
    },
}

impl Date {
    /// Creates a date: the month must lie from 1 to 12 and the day from 1 to
    /// 31, and the month is checked first.
    pub fn new(year: i32, month: u8, day: u8) -> (r: Result<Date, InvalidDate>)
        ensures
            !(1 <= month <= 12) ==> r == Err::<Date, InvalidDate>(InvalidDate::Month { month }),
            (1 <= month <= 12) && !(1 <= day <= 31) ==> r == Err::<Date, InvalidDate>(InvalidDate::Day { day }),
            (1 <= month <= 12) && (1 <= day <= 31) ==> r == Ok::<Date, InvalidDate>(Date { year, month, day }),
    {
        if !(1 <= month && month <= 12) {
            return Err(InvalidDate::Month { month });
        }
        if !(1 <= day && day <= 31) {
            return Err(InvalidDate::Day { day });
        }
        Ok(Date { year, month, day })
    }
}

/// The message describing why a date was refused.
pub open spec fn invalid_date_message(e: InvalidDate) -> Seq<char> {
    match e {
        InvalidDate::Month { month } => "month must be between 1 and 12, got "@ + decimal(month as nat),
        InvalidDate::Day { day } => "day must be between 1 and 31, got "@ + decimal(day as nat),
    }
}

impl InvalidDate {
    /// The message describing the refusal.
    pub fn message(&self) -> (r: String)
        ensures
            r@ == invalid_date_message(*self),
    {
        match self {
            InvalidDate::Month { month } => {
                let mut out = String::from_str("month must be between 1 and 12, got ");
                push_decimal(&mut out, *month as u64);
                out
            },
            InvalidDate::Day { day } => {
                let mut out = String::from_str("day must be between 1 and 31, got ");
                push_decimal(&mut out, *day as u64);
                out
            },
        }
    }
}

/// What today is, as far as the document is concerned.
///
/// Each port below names the answers its methods give with a relation, which
/// the use case's contract is stated over. A port that does not define the
/// relation lets it hold of every answer, and so claims nothing.
pub trait Clock {
    /// Whether `today` is a date this clock reported.
    open spec fn tells(&self, today: Date) -> bool {
        true
    }

    /// Today's date.
    fn today(&self) -> (r: Date)
        ensures
            self.tells(r);
}

/// Where documents are read from and written to.
pub trait SourceStore {
    /// Whether `answer` is what this store gave for reading `path`. It rests
    /// on what the host holds at the moment of reading, so the relation names
    /// the answer and claims nothing of it.
    open spec fn reads(&self, path: SandboxedPath, answer: Result<String, DomainError>) -> bool {
        true
    }

    /// Whether `answer` is what this store gave for writing `bytes` to `path`.
    open spec fn writes(&self, path: SandboxedPath, bytes: Seq<u8>, answer: Result<(), DomainError>) -> bool {
        true
    }

    /// Reads the document at `path` as text.
    fn read(&self, path: &SandboxedPath) -> (r: Result<String, DomainError>)
        ensures
            self.reads(*path, r);

    /// Writes `bytes` to `path`.
    fn write(&self, path: &SandboxedPath, bytes: &[u8]) -> (r: Result<(), DomainError>)
        ensures
            self.writes(*path, bytes@, r);
}

/// A construct the renderer left out, and where it was.
#[derive(Debug, Clone, PartialEq, Eq)]
pub struct SkippedConstruct {
    /// What was left out.
    pub construct: String,
    /// Where it appeared.
    pub location: SourceLocation,
}

/// What parsing a document produced.
#[derive(Debug, PartialEq)]
pub struct ParseOutcome {
    /// The document.
    pub document: Document,
    /// What was left out, in source order.
    pub skipped: Vec<SkippedConstruct>,
}

/// Turns source text into a document.
pub trait DocumentParser {
    /// Whether `answer` is what this parser gave for `source`, from `origin`,
    /// as of `today`.
    open spec fn parses(&self, source: Seq<char>, origin: Seq<char>, today: Date, answer: Result<ParseOutcome, DomainError>) -> bool {
        true
    }

    /// Parses `source`, which came from `origin`, as of `today`.
    fn parse(&self, source: &str, origin: &str, today: Date) -> (r: Result<ParseOutcome, DomainError>)
        ensures
            self.parses(source@, origin@, today, r);
}

/// Where the themes come from.
pub trait ThemeRepository {
    /// Whether `answer` is what this repository gave when asked for its themes.
    open spec fn loads(&self, answer: Result<ThemeSet, DomainError>) -> bool {
        true
    }

    /// The themes a document may use.
    fn load(&self) -> (r: Result<ThemeSet, DomainError>)
        ensures
            self.loads(r);
}

/// Turns a plan into the bytes of a PDF.
pub trait DocumentRenderer {
    /// Whether `answer` is what this renderer gave for `plan`, for the
    /// document from `origin`, as of `today`.
    open spec fn renders(&self, plan: LayoutPlan, origin: Seq<char>, today: Date, answer: Result<Vec<u8>, DomainError>) -> bool {
        true
    }

    /// Renders `plan`, for the document that came from `origin`, as of `today`.
    fn render(&self, plan: &LayoutPlan, origin: &str, today: Date) -> (r: Result<Vec<u8>, DomainError>)
        ensures
            self.renders(*plan, origin@, today, r);
}

/// A clock that always reports the same date.
#[derive(Debug, Clone, Copy)]
pub struct FixedClock {
    date: Date,
}

impl FixedClock {
    /// The date it reports, in specifications.
    pub closed spec fn date_spec(&self) -> Date {
        self.date
    }

    /// A clock that reports `date`.
    pub fn new(date: Date) -> (r: FixedClock)
        ensures
            r.date_spec() == date,
    {
        FixedClock { date }
    }
}

impl Clock for FixedClock {
    /// The one date it reports.
    open spec fn tells(&self, today: Date) -> bool {
        today == self.date_spec()
    }

    fn today(&self) -> (r: Date)
        ensures
            r == self.date_spec(),
    {
        self.date
    }
}

/// The whole seconds elapsed since the Unix epoch by the host's clock
/// (`SystemTime::elapsed` on `UNIX_EPOCH`), or zero if the clock reads earlier
/// than the epoch. What it returns depends on when it is called, so nothing is
/// stated of it.
#[verifier::external_body]
fn seconds_since_epoch() -> (r: u64) {
    std::time::UNIX_EPOCH.elapsed().map_or(0, |elapsed| elapsed.as_secs())
}

/// The date a count of seconds since the epoch falls on.
pub open spec fn date_at_seconds(seconds: u64) -> Date {
    let (y, m, d) = crate::calendar::civil_from_days_spec((seconds / 86_400) as int);
    Date {
        year: if i32::MIN <= y <= i32::MAX { y as i32 } else { 0 },
        month: if 0 <= m <= 255 { m as u8 } else { 1 },
        day: if 0 <= d <= 255 { d as u8 } else { 1 },
    }
}

/// The date a count of seconds since the epoch falls on.
pub fn date_of_seconds(seconds: u64) -> (r: Date)
    ensures
        r == date_at_seconds(seconds),
{
    let days = seconds / 86_400;
    crate::calendar::date_from_unix_days(days as i64)
}

/// The host's clock.
#[derive(Debug, Clone, Copy, Default)]
pub struct SystemClock {}

impl SystemClock {
    /// The host's clock.
    pub fn new() -> (r: SystemClock)
        ensures
            r == (SystemClock {}),
    {
        SystemClock {}
    }
}

impl Clock for SystemClock {
    /// The date of some instant.
    open spec fn tells(&self, today: Date) -> bool {
        exists|seconds: u64| today == date_at_seconds(seconds)
    }

    /// The date the host's clock reads, whatever it reads.
    fn today(&self) -> (r: Date)
        ensures
            exists|seconds: u64| r == date_at_seconds(seconds),
    {
        let seconds = seconds_since_epoch();
        let r = date_of_seconds(seconds);
        assert(r == date_at_seconds(seconds));
        r
    }
}

} // verus!
