//! Textual timestamps: `YYYY-MM-DDTHH:MM:SSZ`, UTC, whole seconds.
//!
//! Reading and writing the textual form is chrono's work, assumed through
//! the two wrappers here; everything around them — range checks, window
//! validation — is verified code.

use vstd::prelude::*;

use crate::errors::PipelineError;
use crate::instant::{STEP_MAX, instant_in_range};

verus! {

/// The textual form of an in-range instant, as chrono's formatter writes it:
/// `YYYY-MM-DDTHH:MM:SSZ` in UTC. A function of the instant alone.
pub uninterp spec fn utc_timestamp_of(secs: int) -> Seq<char>;

/// Relies on chrono's `DateTime::<Utc>::from_timestamp` (defined for every
/// in-range second count) and its strftime formatter: together they render
/// the instant as UTC text, a function of the seconds alone.
#[verifier::external_body]
pub fn format_utc_timestamp(secs: i64) -> (r: String)
    requires
        instant_in_range(secs as int),
    ensures
        r@ == utc_timestamp_of(secs as int),
{
    chrono::DateTime::<chrono::Utc>::from_timestamp(secs, 0)
        .unwrap()
        .format("%Y-%m-%dT%H:%M:%SZ")
        .to_string()
}

/// What chrono's RFC 3339 parser makes of a text: the parsed instant's whole
/// seconds since the Unix epoch, or nothing when the text is not a valid
/// RFC 3339 date-time. A function of the text alone.
pub uninterp spec fn rfc3339_utc_secs(s: Seq<char>) -> Option<int>;

#[verifier::external_type_specification]
#[verifier::external_body]
pub struct ExParseError(chrono::ParseError);

/// Relies on chrono's `DateTime::parse_from_rfc3339` and `timestamp`: the
/// outcome is a function of the text alone, and `timestamp` reads the parsed
/// instant back as whole seconds since the Unix epoch.
#[verifier::external_body]
fn parse_rfc3339_secs(s: &str) -> (r: Result<i64, chrono::ParseError>)
    ensures
        match r {
            Ok(v) => rfc3339_utc_secs(s@) == Some(v as int),
            Err(_) => rfc3339_utc_secs(s@) is None,
        },
{
    match chrono::DateTime::parse_from_rfc3339(s) {
        Ok(dt) => Ok(dt.timestamp()),
        Err(e) => Err(e),
    }
}

/// A validated sampling request: both endpoints parsed and in range, the
/// step at least one second.
#[derive(Clone, Copy, PartialEq, Eq, Structural, Debug)]
pub struct TimeWindow {
    pub start_s: i64,
    pub end_s: i64,
    pub step_s: i64,
}

/// The request described by the two texts and the step is acceptable: both
/// texts parse as RFC 3339 instants within the years 0000 through 9999, and
/// the step is at least one second and within the series arithmetic's reach.
pub open spec fn acceptable_window(start: Seq<char>, end: Seq<char>, step: int) -> bool {
    &&& rfc3339_utc_secs(start) is Some
    &&& rfc3339_utc_secs(end) is Some
    &&& instant_in_range(rfc3339_utc_secs(start)->0)
    &&& instant_in_range(rfc3339_utc_secs(end)->0)
    &&& 1 <= step <= STEP_MAX
}

/// Validates a requested time window: parses both endpoint texts, checks
/// that the instants lie within the library's range and the step is
/// positive, and returns the window — or the input error, exactly when the
/// request is not acceptable.
pub fn parse_time_window(start: &str, end: &str, step: i64) -> (r: Result<TimeWindow, PipelineError>)
    ensures
        match r {
            Ok(w) => {
                &&& acceptable_window(start@, end@, step as int)
                &&& rfc3339_utc_secs(start@) == Some(w.start_s as int)
                &&& rfc3339_utc_secs(end@) == Some(w.end_s as int)
                &&& w.step_s == step
                &&& instant_in_range(w.start_s as int)
                &&& instant_in_range(w.end_s as int)
                &&& 1 <= w.step_s <= STEP_MAX
            },
            Err(e) => {
                &&& e == PipelineError::Input
                &&& !acceptable_window(start@, end@, step as int)
            },
        },
{
    if step < 1 || step > STEP_MAX {
        return Err(PipelineError::Input);
    }
    let start_s = match parse_rfc3339_secs(start) {
        Ok(v) => v,
        Err(_) => {
            return Err(PipelineError::Input);
        },
    };
    let end_s = match parse_rfc3339_secs(end) {
        Ok(v) => v,
        Err(_) => {
            return Err(PipelineError::Input);
        },
    };
    if !in_range(start_s) || !in_range(end_s) {
        return Err(PipelineError::Input);
    }
    Ok(TimeWindow { start_s, end_s, step_s: step })
}

/// The instant lies within the years the textual form can carry.
fn in_range(secs: i64) -> (r: bool)
    ensures
        r == instant_in_range(secs as int),
{
    crate::instant::TIME_MIN <= secs && secs <= crate::instant::TIME_MAX
}

} // verus!
