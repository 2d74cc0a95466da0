//! Capture metadata for one file: the calendar fields of the moment a photo
//! was taken. The fields come out of an embedded-metadata timestamp string;
//! parsing that string is delegated to the `chrono` crate.

use vstd::prelude::*;
use chrono::{Datelike, Timelike};

verus! {

/// The capture timestamp of one file, as plain calendar fields.
#[derive(Clone, Copy, PartialEq, Eq, Structural, Debug)]
pub struct CaptureDate {
    pub year: i32,
    pub month: u32,
    pub day: u32,
    pub hour: u32,
    pub minute: u32,
    pub second: u32,
}

/// Why capture metadata could not be decoded for a file: the file has no
/// readable metadata container, or the container lacks the timestamp field.
#[derive(Clone, Copy, PartialEq, Eq, Structural, Debug)]
pub enum ExtractError {
    Unreadable,
    MissingField,
}

/// The fallback timestamp: the start of 1970.
pub open spec fn epoch_date() -> CaptureDate {
    CaptureDate { year: 1970, month: 1, day: 1, hour: 0, minute: 0, second: 0 }
}

/// The fallback timestamp, as `epoch_date` gives it.
pub fn epoch() -> (r: CaptureDate)
    ensures
        r == epoch_date(),
{
    CaptureDate { year: 1970, month: 1, day: 1, hour: 0, minute: 0, second: 0 }
}

/// What parsing a timestamp string in the form
/// `year-month-day hour:minute:second` yields; the result depends on the
/// text alone.
pub uninterp spec fn parsed_capture(s: Seq<char>) -> Option<CaptureDate>;

/// Relies on chrono's `NaiveDateTime::parse_from_str` with the format
/// `"%Y-%m-%d %H:%M:%S"`: the result is a function of the input text alone,
/// and on success chrono's accessors give a month in 1..=12, a day in 1..=31,
/// an hour below 24, and a minute and second below 60.
#[verifier::external_body]
fn parse_capture_raw(s: &str) -> (r: Option<CaptureDate>)
    ensures
        r == parsed_capture(s@),
        r matches Some(d) ==> 1 <= d.month <= 12 && 1 <= d.day <= 31 && d.hour < 24 && d.minute
            < 60 && d.second < 60,
{
    match chrono::NaiveDateTime::parse_from_str(s, "%Y-%m-%d %H:%M:%S") {
        Ok(dt) => Some(
            CaptureDate {
                year: dt.year(),
                month: dt.month(),
                day: dt.day(),
                hour: dt.hour(),
                minute: dt.minute(),
                second: dt.second(),
            },
        ),
        Err(_) => None,
    }
}

/// Parses a timestamp string; `None` when the text is not a complete
/// timestamp in the expected form.
pub fn parse_capture_date(s: &str) -> (r: Option<CaptureDate>)
    ensures
        r == parsed_capture(s@),
{
    parse_capture_raw(s)
}

/// The parsed timestamp, or the epoch when there is none: a malformed
/// timestamp string falls back to a well-defined zero value instead of
/// failing the file.
pub fn date_or_epoch(parsed: Option<CaptureDate>) -> (r: CaptureDate)
    ensures
        r == match parsed {
            Some(d) => d,
            None => epoch_date(),
        },
{
    match parsed {
        Some(d) => d,
        None => epoch(),
    }
}

/// Parses a timestamp string, falling back to the epoch when it is
/// malformed.
pub fn capture_date_or_epoch(s: &str) -> (r: CaptureDate)
    ensures
        r == match parsed_capture(s@) {
            Some(d) => d,
            None => epoch_date(),
        },
{
    date_or_epoch(parse_capture_raw(s))
}

} // verus!
