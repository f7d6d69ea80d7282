//! Start times: seconds since the Unix epoch, shown and read as text through
//! the `chrono` crate

use vstd::prelude::*;

verus! {

/// Error of `chrono` when text is not a date and time
#[verifier::external_type_specification]
#[verifier::external_body]
pub struct ExChronoParseError(chrono::ParseError);

/// Earliest start time: January 1, 262144 BCE, at midnight UTC, the earliest
/// date and time of `chrono`
pub const MIN_START_TIME: i64 = -8334601228800i64;

/// Latest start time: December 31, 262142 CE, at 23:59:59 UTC, the latest
/// date and time of `chrono` in whole seconds
pub const MAX_START_TIME: i64 = 8210266876799i64;

/// `t` seconds since the Unix epoch is a date and time of `chrono`
pub open spec fn is_start_time(t: i64) -> bool {
    MIN_START_TIME <= t <= MAX_START_TIME
}

/// Text of the date and time `t` seconds after the Unix epoch, as `chrono`
/// displays it in UTC (such as `2000-01-01 00:00:00 UTC`)
pub uninterp spec fn time_text(t: i64) -> Seq<char>;

/// Date and time that `chrono` reads from `s` (a relaxed form of RFC 3339,
/// such as `2000-01-01T00:00:00Z` or `2000-01-01 00:00:00 UTC`), in whole
/// seconds since the Unix epoch, if any
pub uninterp spec fn parsed_time(s: Seq<char>) -> Option<i64>;

/// Text of the date and time `t` seconds after the Unix epoch, through
/// `chrono::DateTime::<Utc>::from_timestamp` and its `Display`. Within the
/// range of `chrono`, `from_timestamp` gives a date and time, whose text is
/// named `time_text`; outside it gives nothing.
#[verifier::external_body]
pub(crate) fn time_to_string(t: i64) -> (res: Option<String>)
    ensures
        is_start_time(t) <==> res is Some,
        res matches Some(s) ==> s@ == time_text(t),
{
    match chrono::DateTime::<chrono::Utc>::from_timestamp(t, 0) {
        Some(d) => Some(d.to_string()),
        None => None,
    }
}

/// Date and time read from `s` by `str::parse::<chrono::DateTime<Utc>>`, in
/// whole seconds since the Unix epoch (`DateTime::timestamp`; fractions of a
/// second are dropped). Its result is named `parsed_time`; every date and
/// time of `chrono` lies within its range.
#[verifier::external_body]
pub(crate) fn parse_time(s: &str) -> (res: Result<i64, chrono::ParseError>)
    ensures
        res is Ok <==> parsed_time(s@) is Some,
        res matches Ok(t) ==> parsed_time(s@) == Some(t) && is_start_time(t),
{
    s.parse::<chrono::DateTime<chrono::Utc>>().map(|d| d.timestamp())
}

} // verus!
