//! The wall clock and RFC 3339 timestamps.
//!
//! A clock reading is a number of whole seconds since 1970-01-01T00:00:00Z
//! and the nanoseconds past it. What it is depends on when it is taken, so
//! nothing is stated of it beyond its ranges; everything computed from a
//! reading is stated as a function of it.
use vstd::prelude::*;

use crate::entry::{as_i64_bits, bits_as_i64};

verus! {

/// The RFC 3339 text of the instant `secs` seconds and `nanos` nanoseconds
/// after 1970-01-01T00:00:00Z, as chrono's `DateTime::<Utc>::to_rfc3339`
/// writes it.
pub uninterp spec fn rfc3339_text(secs: i64, nanos: u32) -> Seq<char>;

/// Reads the system clock: `std::time::SystemTime::now()`, measured with
/// `duration_since(UNIX_EPOCH)`, as the `Duration`'s whole seconds and the
/// nanoseconds past them. `None` when the clock reads before 1970. The
/// reading depends on the time of the call, so only what `Duration`
/// guarantees is stated: the nanoseconds are below one second.
#[verifier::external_body]
fn time_since_epoch() -> (r: Option<(u64, u32)>)
    ensures
        r matches Some((secs, nanos)) ==> nanos < 1_000_000_000,
{
    let since = std::time::SystemTime::now().duration_since(std::time::UNIX_EPOCH).ok()?;
    Some((since.as_secs(), since.subsec_nanos()))
}

/// A reading of the system clock as seconds since 1970 and the nanoseconds
/// past them; `None` when the clock reads before 1970 or past what an `i64`
/// of seconds holds.
pub(crate) fn clock_reading() -> (r: Option<(i64, u32)>)
    ensures
        r matches Some((secs, nanos)) ==> secs >= 0 && nanos < 1_000_000_000,
{
    let (secs, nanos) = time_since_epoch()?;
    if secs > 0x7fff_ffff_ffff_ffff {
        return None;
    }
    Some((secs as i64, nanos))
}

/// The first second chrono can hold: -262143-01-01T00:00:00Z.
pub const FIRST_DATE_SECS: i64 = -8_334_601_228_800;

/// The last second chrono can hold: +262142-12-31T23:59:59Z.
pub const LAST_DATE_SECS: i64 = 8_210_266_876_799;

/// The reading names an instant that chrono holds as a date: between
/// `FIRST_DATE_SECS` and `LAST_DATE_SECS`, with `nanos` below one second.
pub open spec fn is_date_reading(secs: i64, nanos: u32) -> bool {
    FIRST_DATE_SECS <= secs <= LAST_DATE_SECS && nanos < 1_000_000_000
}

/// Calls `chrono::DateTime::from_timestamp(secs, nanos)` and formats the
/// instant with `DateTime::to_rfc3339`, whose text is named `rfc3339_text`.
/// `from_timestamp` gives a date exactly for the seconds from
/// -262143-01-01 through +262142-12-31 (`NaiveDate::MIN` to `MAX`), with
/// `nanos` below one second or, on a leap second, below two; the leap-second
/// case is left unsaid.
#[verifier::external_body]
pub(crate) fn rfc3339_at(secs: i64, nanos: u32) -> (r: Option<String>)
    ensures
        r matches Some(t) ==> t@ == rfc3339_text(secs, nanos),
        is_date_reading(secs, nanos) ==> r is Some,
        !(FIRST_DATE_SECS <= secs <= LAST_DATE_SECS) ==> r is None,
{
    let instant = chrono::DateTime::from_timestamp(secs, nanos)?;
    Some(instant.to_rfc3339())
}

/// The seconds in a span of `days` days, as chrono's `TimeDelta::try_days`
/// takes them: `days` read as an `i64`, times 86 400; `None` beyond the
/// `i64::MAX / 1000` seconds a `TimeDelta` holds.
pub open spec fn span_secs(days: u64) -> Option<int> {
    let s = as_i64_bits(days) * 86_400;
    if -9_223_372_036_854_775 <= s <= 9_223_372_036_854_775 {
        Some(s)
    } else {
        None
    }
}

/// A span of `days` days is longer than a `TimeDelta` can hold.
pub open spec fn span_too_long(days: u64) -> bool {
    span_secs(days) is None
}

/// The instant `days` days before the reading `secs`, as whole seconds;
/// `None` when the span or the instant is out of range.
pub open spec fn secs_days_before(secs: i64, days: u64) -> Option<i64> {
    match span_secs(days) {
        Some(s) => if i64::MIN <= secs - s <= i64::MAX {
            Some((secs - s) as i64)
        } else {
            None
        },
        None => None,
    }
}

/// The seconds in a span of `days` days, when a `TimeDelta` holds them.
pub fn span_seconds(days: u64) -> (r: Option<i64>)
    ensures
        r is Some <==> span_secs(days) is Some,
        r matches Some(s) ==> s == span_secs(days)->0,
{
    let signed = bits_as_i64(days);
    let span = match signed.checked_mul(86_400) {
        Some(s) => s,
        None => return None,
    };
    if span < -9_223_372_036_854_775 || span > 9_223_372_036_854_775 {
        return None;
    }
    Some(span)
}

/// The seconds `days` days before `secs`.
pub fn seconds_days_before(secs: i64, days: u64) -> (r: Option<i64>)
    ensures
        r == secs_days_before(secs, days),
{
    let span = span_seconds(days)?;
    secs.checked_sub(span)
}

/// The cutoff `days` days before the reading is an instant that chrono
/// holds as a date.
pub open spec fn cutoff_in_range(secs: i64, nanos: u32, days: u64) -> bool {
    secs_days_before(secs, days) matches Some(c) && is_date_reading(c, nanos)
}

/// The RFC 3339 text of the instant `days` days before the reading
/// `(secs, nanos)`: `None` when the span is longer than chrono holds, or the
/// instant is out of range.
pub fn rfc3339_days_before(secs: i64, nanos: u32, days: u64) -> (r: Option<String>)
    ensures
        span_too_long(days) ==> r is None,
        r matches Some(t) ==> (cutoff_text(secs, nanos, days) == Some(t@)),
        cutoff_in_range(secs, nanos, days) ==> r is Some,
        nanos < 1_000_000_000 ==> (r is Some <==> cutoff_in_range(secs, nanos, days)),
{
    match seconds_days_before(secs, days) {
        Some(c) => rfc3339_at(c, nanos),
        None => None,
    }
}

/// The cutoff `days` days before the reading `(secs, nanos)`, when there is one.
pub open spec fn cutoff_text(secs: i64, nanos: u32, days: u64) -> Option<Seq<char>> {
    match secs_days_before(secs, days) {
        Some(c) => Some(rfc3339_text(c, nanos)),
        None => None,
    }
}

} // verus!
