//! Points in time, as milliseconds since the Unix epoch.

use vstd::prelude::*;

use crate::number::cut_off;

verus! {

/// First millisecond of the representable range of dates: the start of the
/// year -262143.
pub const MIN_TIMESTAMP_MS: i64 = -8_334_601_228_800_000;

/// Last millisecond of the representable range of dates: the end of the year
/// 262142.
pub const MAX_TIMESTAMP_MS: i64 = 8_210_266_876_799_999;

/// Milliseconds in a day.
pub const DAY_MS: i64 = 86_400_000;

/// The timestamp names a representable date.
pub open spec fn is_representable(ms: int) -> bool {
    MIN_TIMESTAMP_MS <= ms <= MAX_TIMESTAMP_MS
}

/// Calls `chrono::DateTime::from_timestamp_millis` and reads the date back
/// with `timestamp_millis`. The contract claims that the date exists exactly
/// for milliseconds within the years -262143 to 262142, and that reading it
/// back gives the milliseconds that it was made from.
#[verifier::external_body]
fn date_at(ms: i64) -> (date: Option<i64>)
    ensures
        date == if is_representable(ms as int) { Some(ms) } else { None },
{
    chrono::DateTime::from_timestamp_millis(ms).map(|date| date.timestamp_millis())
}

/// Calls `chrono::Utc::now` and reads the date with `timestamp_millis`.
/// The contract claims that the result names a representable date, as every
/// date that chrono holds does. Which date it is goes unsaid: it is the time
/// of the call.
#[verifier::external_body]
pub(crate) fn now_ms() -> (ms: i64)
    ensures
        is_representable(ms as int),
{
    chrono::Utc::now().timestamp_millis()
}

/// The timestamp where it names a representable date, else the fallback.
pub fn timestamp_or(ms: i64, fallback_ms: i64) -> (timestamp: i64)
    ensures
        timestamp == if is_representable(ms as int) { ms } else { fallback_ms },
{
    match date_at(ms) {
        Some(date) => date,
        None => fallback_ms,
    }
}

/// The timestamp where it names a representable date, else the current time.
/// Either way the result names a representable date.
pub fn timestamp_or_now(ms: i64) -> (timestamp: i64)
    ensures
        is_representable(timestamp as int),
        is_representable(ms as int) ==> timestamp == ms,
{
    match date_at(ms) {
        Some(date) => date,
        None => now_ms(),
    }
}

/// Whole units between two points in time, cut off towards zero.
pub fn whole_units_between(from_ms: i64, to_ms: i64, unit_ms: i64) -> (units: i64)
    requires
        unit_ms >= 2,
    ensures
        units == cut_off(to_ms - from_ms, unit_ms as int),
{
    let span: i128 = to_ms as i128 - from_ms as i128;
    let unit: i128 = unit_ms as i128;
    if span < 0 {
        let size: i128 = (-span) / unit;
        proof {
            assert(0 <= size <= 0x8000_0000_0000_0000) by (nonlinear_arith)
                requires
                    size == (-span) / (unit as int),
                    unit >= 2,
                    0 <= -span <= 0xffff_ffff_ffff_ffff,
            ;
        }
        (-size) as i64
    } else {
        let size: i128 = span / unit;
        proof {
            assert(0 <= size <= 0x7fff_ffff_ffff_ffff) by (nonlinear_arith)
                requires
                    size == span as int / unit as int,
                    unit >= 2,
                    0 <= span <= 0xffff_ffff_ffff_ffff,
            ;
        }
        size as i64
    }
}

/// Whole seconds between two points in time, cut off towards zero.
pub fn seconds_between(from_ms: i64, to_ms: i64) -> (seconds: i64)
    ensures
        seconds == cut_off(to_ms - from_ms, 1000),
{
    whole_units_between(from_ms, to_ms, 1000)
}

/// Whole days from the first to the last point in time; none where the last
/// is before the first.
pub fn calendar_days(first_ms: i64, last_ms: i64) -> (days: usize)
    requires
        is_representable(first_ms as int),
        is_representable(last_ms as int),
    ensures
        days == if last_ms <= first_ms { 0int } else { (last_ms - first_ms) / 86_400_000 },
{
    let days: i64 = whole_units_between(first_ms, last_ms, DAY_MS);
    if days < 0 {
        0
    } else {
        days as usize
    }
}

} // verus!
