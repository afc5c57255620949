//! Calendar dates as day numbers (`NaiveDate::num_days_from_ce`: 0001-01-01 is
//! day 1), read from and written as text by chrono.
use vstd::prelude::*;
use chrono::Datelike;
use crate::text::{chars_of, lines, split_lines, string_of, trim, trim_chars, views};

verus! {

/// The local calendar day, as a day number, of an RFC 3339 timestamp such as
/// git's `%aI` (`2025-11-03T10:20:30+01:00`), or `None` when it does not parse.
pub uninterp spec fn rfc3339_day(s: Seq<char>) -> Option<i32>;

/// Calls `chrono::DateTime::parse_from_rfc3339` and turns the result into the
/// day number of its local date (`date_naive`, `num_days_from_ce`). The result
/// depends on the text alone and is named `rfc3339_day`; the RFC 3339 grammar
/// and the calendar arithmetic are not stated here.
#[verifier::external_body]
fn rfc3339_day_of(s: &str) -> (r: Option<i32>)
    ensures
        r == rfc3339_day(s@),
{
    chrono::DateTime::parse_from_rfc3339(s).ok().map(|dt| dt.date_naive().num_days_from_ce())
}

/// The ISO 8601 text (`YYYY-MM-DD`) of a day number, `None` outside chrono's range.
pub uninterp spec fn iso_date(day: i32) -> Option<Seq<char>>;

/// Calls `chrono::NaiveDate::from_num_days_from_ce_opt` and formats the date
/// with its `Display` impl. The result depends on the day number alone and is
/// named `iso_date`; the calendar arithmetic is not stated here.
#[verifier::external_body]
fn iso_date_of(day: i32) -> (r: Option<String>)
    ensures
        match r {
            Some(s) => iso_date(day) == Some(s@),
            None => iso_date(day) is None,
        },
{
    chrono::NaiveDate::from_num_days_from_ce_opt(day).map(|d| d.to_string())
}

/// The date of `git log -1 --format=%aI`: its output trimmed, read as RFC 3339.
pub fn parse_commit_date(output: &str) -> (r: Option<i32>)
    ensures
        r == rfc3339_day(trim(output@)),
{
    let t = trim_chars(&chars_of(output));
    let s = string_of(t.as_slice());
    rfc3339_day_of(s.as_str())
}

/// The date of the first line of `git log --reverse --format=%aI`, trimmed.
pub fn parse_first_commit_date(output: &str) -> (r: Option<i32>)
    ensures
        r == (if lines(output@).len() > 0 {
            rfc3339_day(trim(lines(output@)[0]))
        } else {
            None
        }),
{
    let ls = split_lines(&chars_of(output));
    if ls.len() == 0 {
        return None;
    }
    assert(views(ls@)[0] == ls@[0]@);
    let t = trim_chars(&ls[0]);
    let s = string_of(t.as_slice());
    rfc3339_day_of(s.as_str())
}

/// A day number as `YYYY-MM-DD`, `None` outside the range of dates.
pub fn date_text(day: i32) -> (r: Option<String>)
    ensures
        match r {
            Some(s) => iso_date(day) == Some(s@),
            None => iso_date(day) is None,
        },
{
    iso_date_of(day)
}

/// The text shown for an optional date: the date, or `unknown`.
pub fn date_or_unknown(day: Option<i32>) -> (r: String)
    ensures
        match day {
            Some(d) => match iso_date(d) {
                Some(s) => r@ == s,
                None => r@ == "unknown"@,
            },
            None => r@ == "unknown"@,
        },
{
    match day {
        Some(d) => match iso_date_of(d) {
            Some(s) => s,
            None => string_of(chars_of("unknown").as_slice()),
        },
        None => string_of(chars_of("unknown").as_slice()),
    }
}

} // verus!
