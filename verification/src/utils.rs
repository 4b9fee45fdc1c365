//! Conversions between epoch numbers, calendar days and RFC 3339 text.

use crate::models::{fails_with, ServiceError, ServiceErrorView};
use vstd::prelude::*;
use vstd::string::*;

verus! {

/// Seconds in one calendar day.
pub const SECONDS_PER_DAY: u64 = 86400;

/// RFC 3339 text, in UTC, of the instant `millis` milliseconds after the Unix
/// epoch, or `None` where the calendar cannot represent that instant.
pub uninterp spec fn utc_rfc3339(millis: i64) -> Option<Seq<char>>;

/// Seconds between the Unix epoch and the instant that the RFC 3339 text
/// `text` denotes, or `None` where `text` is no RFC 3339 date and time.
pub uninterp spec fn rfc3339_epoch_seconds(text: Seq<char>) -> Option<i64>;

/// Calls chrono's `TimeZone::timestamp_millis_opt` on `Utc` and, where that
/// yields a single instant, `DateTime::to_rfc3339` on it. The contract claims
/// only that the outcome is determined by `millis`.
#[verifier::external_body]
fn format_utc_millis(millis: i64) -> (text: Option<String>)
    ensures
        text matches Some(s) ==> utc_rfc3339(millis) == Some(s@),
        text is None ==> utc_rfc3339(millis) is None,
{
    match chrono::TimeZone::timestamp_millis_opt(&chrono::Utc, millis) {
        chrono::MappedLocalTime::Single(time) => Some(time.to_rfc3339()),
        _ => None,
    }
}

/// Calls chrono's `DateTime::parse_from_rfc3339` and, where the text parses,
/// `DateTime::timestamp` on the result. The contract claims only that the
/// outcome is determined by the characters of `text`.
#[verifier::external_body]
pub(crate) fn parse_rfc3339_seconds(text: &str) -> (secs: Option<i64>)
    ensures
        secs == rfc3339_epoch_seconds(text@),
{
    match chrono::DateTime::parse_from_rfc3339(text) {
        Ok(date_time) => Some(date_time.timestamp()),
        Err(_) => None,
    }
}

/// What [`epoch_to_iso_string`] reports for an instant outside the calendar.
pub open spec fn unrepresentable_epoch() -> ServiceErrorView {
    ServiceErrorView::Fatal("Cannot convert unix epoch to datetime format"@)
}

/// The result that [`epoch_to_iso_string`] makes of a formatted instant.
pub fn iso_string_result(formatted: Option<String>) -> (res: Result<String, ServiceError>)
    ensures
        formatted matches Some(s) ==> res == Ok::<String, ServiceError>(s),
        formatted is None ==> fails_with(res, unrepresentable_epoch()),
{
    match formatted {
        Some(text) => Ok(text),
        None => Err(
            ServiceError::Fatal(String::from_str("Cannot convert unix epoch to datetime format")),
        ),
    }
}

/// RFC 3339 text of the instant `unix_epoch` milliseconds after the epoch.
pub fn epoch_to_iso_string(unix_epoch: i64) -> (res: Result<String, ServiceError>)
    ensures
        match utc_rfc3339(unix_epoch) {
            Some(text) => res matches Ok(s) && s@ == text,
            None => fails_with(res, unrepresentable_epoch()),
        },
{
    iso_string_result(format_utc_millis(unix_epoch))
}

/// Number of whole days between the epoch and `epoch_secs` seconds after it.
pub fn epoch_to_day(epoch_secs: u64) -> (day: i64)
    ensures
        day == epoch_secs as int / 86400,
        day >= 0,
{
    (epoch_secs / SECONDS_PER_DAY) as i64
}

/// A day holds exactly the instants from its first second up to, but not
/// including, the first second of the next day.
pub proof fn lemma_day_partitions_time(epoch_secs: int)
    requires
        epoch_secs >= 0,
    ensures
        (epoch_secs / 86400) * 86400 <= epoch_secs < (epoch_secs / 86400 + 1) * 86400,
{
}

} // verus!
