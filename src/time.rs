//! Instants in UTC, as the codec and the tasks hold them.

use vstd::prelude::*;

use chrono::TimeZone;

verus! {

/// An instant in UTC, as a count of non-leap seconds since 1970-01-01T00:00:00Z.
#[derive(Clone, Copy, Debug, PartialEq, Eq, Structural)]
pub struct DateTime {
    pub timestamp: i64,
}

/// What chrono's parser gives for text `s` read against the strftime format `fmt`, or `None`
/// when the text does not match.
pub uninterp spec fn utc_parsed(s: Seq<char>, fmt: Seq<char>) -> Option<DateTime>;

/// chrono's `%Y%m%dT%H%M%S` rendering of an instant, or `None` for an instant out of its range.
pub uninterp spec fn utc_formatted(timestamp: int) -> Option<Seq<char>>;

/// Relies on chrono's `TimeZone::datetime_from_str` on `Utc`: it depends on the text and the
/// format alone.
#[verifier::external_body]
fn parse_utc(s: &str, fmt: &str) -> (r: Option<DateTime>)
    ensures
        r == utc_parsed(s@, fmt@),
{
    #[allow(deprecated)]
    let parsed = chrono::Utc.datetime_from_str(s, fmt);
    parsed.ok().map(|d| DateTime { timestamp: d.timestamp() })
}

/// Relies on chrono's `DateTime::from_timestamp` and its `format("%Y%m%dT%H%M%S")`.
#[verifier::external_body]
fn format_utc(t: DateTime) -> (r: Option<String>)
    ensures
        r matches Some(s) ==> utc_formatted(t.timestamp as int) == Some(s@),
        r is None ==> utc_formatted(t.timestamp as int) is None,
{
    chrono::DateTime::from_timestamp(t.timestamp, 0).map(|d| d.format("%Y%m%dT%H%M%S").to_string())
}

/// Relies on chrono's `Utc::now`: the current time, of which nothing is promised.
#[verifier::external_body]
pub fn now() -> (r: DateTime) {
    DateTime { timestamp: chrono::Utc::now().timestamp() }
}

/// The two accepted shapes of an iCal date-time: `YYYYMMDDTHHMMSSZ`, and the same without the
/// trailing `Z`, which is read as UTC too.
pub open spec fn spec_parse_date_time(s: Seq<char>) -> Option<DateTime> {
    match utc_parsed(s, "%Y%m%dT%H%M%SZ"@) {
        Some(t) => Some(t),
        None => utc_parsed(s, "%Y%m%dT%H%M%S"@),
    }
}

/// Read an iCal date-time in either accepted shape.
pub fn parse_date_time(s: &str) -> (r: Option<DateTime>)
    ensures
        r == spec_parse_date_time(s@),
{
    match parse_utc(s, "%Y%m%dT%H%M%SZ") {
        Some(d) => Some(d),
        None => parse_utc(s, "%Y%m%dT%H%M%S"),
    }
}

/// Render an instant as `YYYYMMDDTHHMMSS`, or `None` when it is out of range.
pub fn format_date_time(t: DateTime) -> (r: Option<String>)
    ensures
        r matches Some(s) ==> utc_formatted(t.timestamp as int) == Some(s@),
        r is None ==> utc_formatted(t.timestamp as int) is None,
{
    format_utc(t)
}

} // verus!
