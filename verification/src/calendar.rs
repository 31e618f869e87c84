//! Calendar dates of commit timestamps.

use vstd::prelude::*;

verus! {

/// The calendar date in UTC of the instant `seconds` seconds after the Unix
/// epoch, in the text form that chrono gives a date (`1970-01-01`), or `None`
/// for an instant outside the range of dates that chrono represents.
pub uninterp spec fn utc_date_text(seconds: i64) -> Option<Seq<char>>;

/// The text that stands for a date that could not be had.
pub open spec fn unknown_text() -> Seq<char> {
    "Unknown"@
}

/// The date under which a commit made at `seconds` is logged: its calendar
/// date in UTC, or "Unknown" where the timestamp has none.
pub open spec fn date_of(seconds: i64) -> Seq<char> {
    date_text_or_unknown(utc_date_text(seconds))
}

/// A date text, or "Unknown" in its absence.
pub open spec fn date_text_or_unknown(date: Option<Seq<char>>) -> Seq<char> {
    match date {
        Some(text) => text,
        None => unknown_text(),
    }
}

/// Calls chrono's `DateTime::<Utc>::from_timestamp` with no nanoseconds and
/// writes the date part of the result with chrono's `Display` for
/// `NaiveDate`. Trusted: the result is the date text that `utc_date_text`
/// names, which depends on `seconds` alone.
#[verifier::external_body]
fn utc_date(seconds: i64) -> (date: Option<String>)
    ensures
        date.deep_view() == utc_date_text(seconds),
{
    match chrono::DateTime::<chrono::Utc>::from_timestamp(seconds, 0) {
        Some(moment) => Some(moment.naive_utc().date().to_string()),
        None => None,
    }
}

/// The label of a date: the date itself, or "Unknown" where there is none.
pub fn date_label(date: Option<String>) -> (label: String)
    ensures
        label@ == date_text_or_unknown(date.deep_view()),
{
    match date {
        Some(text) => text,
        None => "Unknown".to_owned(),
    }
}

/// The date under which a commit made at `seconds` is logged.
pub fn commit_date(seconds: i64) -> (label: String)
    ensures
        label@ == date_of(seconds),
{
    date_label(utc_date(seconds))
}

} // verus!
