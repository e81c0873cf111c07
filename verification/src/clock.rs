use vstd::prelude::*;
use chrono::{Datelike, Timelike};
use std::time::{Duration, SystemTime, SystemTimeError, UNIX_EPOCH};

verus! {

/// Milliseconds in a UTC day (UTC as chrono counts it: no leap seconds).
pub open spec fn day_millis() -> int {
    86_400_000
}

/// Seconds since midnight of the UTC instant `ms` (milliseconds since the
/// Unix epoch), rounding towards the past.
pub open spec fn utc_second_of_day(ms: i64) -> int {
    ((ms as int) / 1000) % 86_400
}

/// Day of the week (Monday = 0) of the UTC instant `ms`: the Unix epoch fell
/// on a Thursday.
pub open spec fn utc_weekday(ms: i64) -> u32 {
    (((ms as int) / day_millis() + 3) % 7) as u32
}

/// Hour of the day of the UTC instant `ms`.
pub open spec fn utc_hour(ms: i64) -> u32 {
    (utc_second_of_day(ms) / 3600) as u32
}

/// Minute of the hour of the UTC instant `ms`.
pub open spec fn utc_minute(ms: i64) -> u32 {
    ((utc_second_of_day(ms) / 60) % 60) as u32
}

/// The calendar date of the UTC instant `ms` as chrono formats it with
/// `%Y-%m-%d`.
pub uninterp spec fn utc_date_text(ms: i64) -> Seq<char>;

/// Whether chrono can place the instant `ms`, that is, whether
/// `DateTime::from_timestamp_millis(ms)` gives a date (it does exactly for
/// the instants within chrono's calendar range).
pub uninterp spec fn utc_placeable(ms: i64) -> bool;

#[verifier::external_type_specification]
#[verifier::external_body]
pub struct ExSystemTime(std::time::SystemTime);

#[verifier::external_type_specification]
#[verifier::external_body]
pub struct ExSystemTimeError(std::time::SystemTimeError);

/// `std::time::SystemTime::now` (std): the machine's clock. Nothing is
/// promised of the value.
#[verifier::external_body]
fn system_now() -> (t: SystemTime) {
    SystemTime::now()
}

/// `SystemTime::duration_since(UNIX_EPOCH)` (std): how long after the Unix
/// epoch `t` lies, or, as the error, that `t` lies before it. Which of the
/// two, and the span, depend on the clock: nothing is promised.
#[verifier::external_body]
fn since_epoch(t: &SystemTime) -> (r: Result<Duration, SystemTimeError>) {
    t.duration_since(UNIX_EPOCH)
}

/// `SystemTimeError::duration` (std): how far before the epoch the reading
/// lay. Nothing is promised of the span.
#[verifier::external_body]
fn span_before(e: &SystemTimeError) -> (d: Duration) {
    e.duration()
}

/// `Duration::as_millis` (std): the whole milliseconds of a span.
/// `Duration` has no view here, so nothing is stated of the count.
#[verifier::external_body]
fn whole_millis(d: &Duration) -> (ms: u128) {
    d.as_millis()
}

/// A millisecond count clamped into an `i64`.
fn clamp_millis(m: u128) -> (r: i64)
    ensures
        r == (if m > i64::MAX as u128 { i64::MAX as int } else { m as int }),
{
    if m > i64::MAX as u128 {
        i64::MAX
    } else {
        m as i64
    }
}

/// The machine's clock as signed milliseconds since the Unix epoch (before
/// the epoch: negative), clamped into `i64`; it reads the clock without
/// failing, whatever the clock says. Nothing is promised of the value.
pub(crate) fn now_millis() -> (ms: i64) {
    let t = system_now();
    match since_epoch(&t) {
        Ok(d) => clamp_millis(whole_millis(&d)),
        Err(e) => {
            let back = clamp_millis(whole_millis(&span_before(&e)));
            -back
        },
    }
}

/// `Datelike::weekday` of the instant `ms` (through
/// `DateTime::from_timestamp_millis`, which splits `ms` by Euclidean division
/// into whole days since 1970-01-01 and the time of day), counted from
/// Monday. `None` exactly where chrono cannot place the instant.
#[verifier::external_body]
pub(crate) fn weekday_at(ms: i64) -> (r: Option<u32>)
    ensures
        r is Some <==> utc_placeable(ms),
        r matches Some(d) ==> d == utc_weekday(ms),
{
    chrono::DateTime::from_timestamp_millis(ms).map(|t| t.weekday().num_days_from_monday())
}

/// `Timelike::hour` of the instant `ms`; `None` where chrono cannot place
/// it.
#[verifier::external_body]
pub(crate) fn hour_at(ms: i64) -> (r: Option<u32>)
    ensures
        r is Some <==> utc_placeable(ms),
        r matches Some(h) ==> h == utc_hour(ms),
{
    chrono::DateTime::from_timestamp_millis(ms).map(|t| t.hour())
}

/// `Timelike::minute` of the instant `ms`; `None` where chrono cannot place
/// it.
#[verifier::external_body]
pub(crate) fn minute_at(ms: i64) -> (r: Option<u32>)
    ensures
        r is Some <==> utc_placeable(ms),
        r matches Some(m) ==> m == utc_minute(ms),
{
    chrono::DateTime::from_timestamp_millis(ms).map(|t| t.minute())
}

/// `DateTime::format("%Y-%m-%d")` of the instant `ms`; `None` where chrono
/// cannot place it, otherwise the named date text.
#[verifier::external_body]
pub(crate) fn date_text_at(ms: i64) -> (r: Option<String>)
    ensures
        r is Some <==> utc_placeable(ms),
        r matches Some(s) ==> s@ == utc_date_text(ms),
{
    chrono::DateTime::from_timestamp_millis(ms).map(|t| t.format("%Y-%m-%d").to_string())
}

} // verus!
