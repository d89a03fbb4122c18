//! The wall clock, and calendar text from chrono.

use vstd::prelude::*;

verus! {

/// The clock could not be read: the system time is before the Unix epoch or
/// too far after it for milliseconds to fit in an `i64`.
#[derive(Clone, Copy, Debug, PartialEq, Eq, Structural)]
pub struct ClockUnavailable;

/// Relies on `std::time::SystemTime::now` and `SystemTime::duration_since`
/// with `UNIX_EPOCH`: the current time in milliseconds since the Unix epoch,
/// or `None` where the system time is before the epoch (`duration_since`
/// fails) or the milliseconds do not fit in an `i64`. Nothing is promised of
/// the value. (`chrono::Utc::now` panics on a clock before the epoch, so it
/// is not used here.)
#[verifier::external_body]
pub(crate) fn now_millis() -> (r: Option<i64>) {
    std::time::SystemTime::now()
        .duration_since(std::time::UNIX_EPOCH)
        .ok()
        .and_then(|d| i64::try_from(d.as_millis()).ok())
}

/// The UTC calendar text `YYYY-MM-DD HH:MM:SS` of an instant in milliseconds
/// since the epoch, as chrono formats it.
pub uninterp spec fn date_time_text_of(ms: i64) -> Seq<char>;

/// Relies on chrono's `DateTime::from_timestamp_millis` and `format` with
/// `%Y-%m-%d %H:%M:%S`: the text depends on the instant alone. An instant
/// that chrono cannot represent gives the empty text.
#[verifier::external_body]
pub(crate) fn date_time_text(ms: i64) -> (r: String)
    ensures
        r@ == date_time_text_of(ms),
{
    chrono::DateTime::from_timestamp_millis(ms)
        .map(|d| d.format("%Y-%m-%d %H:%M:%S").to_string())
        .unwrap_or_default()
}

/// The RFC 3339 text (UTC, milliseconds, `Z` suffix) of an instant in
/// milliseconds since the epoch, as chrono writes it.
pub uninterp spec fn iso_time_text_of(ms: i64) -> Seq<char>;

/// Relies on chrono's `DateTime::from_timestamp_millis` and `to_rfc3339_opts`
/// with milliseconds and `Z`: the text depends on the instant alone. An
/// instant that chrono cannot represent gives the empty text.
#[verifier::external_body]
pub(crate) fn iso_time_text(ms: i64) -> (r: String)
    ensures
        r@ == iso_time_text_of(ms),
{
    chrono::DateTime::from_timestamp_millis(ms)
        .map(|d| d.to_rfc3339_opts(chrono::SecondsFormat::Millis, true))
        .unwrap_or_default()
}

} // verus!
