//! Proleptic-Gregorian calendar facts needed by the budget comparator:
//! the year a timestamp falls in and the timestamp of January 1st of a
//! year, both in UTC Unix seconds.

use vstd::prelude::*;
use crate::MAX_TIME;

verus! {

/// Gregorian leap-year rule.
pub open spec fn spec_is_leap_year(y: int) -> bool {
    y % 4 == 0 && (y % 100 != 0 || y % 400 == 0)
}

/// Days in calendar year `y`.
pub open spec fn spec_days_in_year(y: int) -> int {
    if spec_is_leap_year(y) {
        366
    } else {
        365
    }
}

/// Days from 1970-01-01 up to (excluding) January 1st of year `y`.
pub open spec fn spec_days_before_year(y: int) -> int
    decreases y,
{
    if y <= 1970 {
        0
    } else {
        spec_days_before_year(y - 1) + spec_days_in_year(y - 1)
    }
}

/// Unix timestamp of `y`-01-01 00:00:00 UTC, for years 1970 and later.
pub open spec fn spec_year_start(y: int) -> int {
    spec_days_before_year(y) * 86400
}

/// January 1st timestamps never decrease with the year.
pub proof fn lemma_year_start_monotone(y1: int, y2: int)
    requires
        y1 <= y2,
    ensures
        spec_year_start(y1) <= spec_year_start(y2),
    decreases y2 - y1,
{
    if y1 < y2 {
        lemma_year_start_monotone(y1, y2 - 1);
    }
}

/// The year a timestamp falls in: the unique year whose January 1st is at or
/// before it and whose successor's is after it.
pub open spec fn spec_year_of(ts: int) -> int {
    choose|y: int|
        1970 <= y && #[trigger] spec_year_start(y) <= ts && ts < spec_year_start(y + 1)
}

/// A year bracketing a timestamp is the timestamp's year.
pub proof fn lemma_year_of_unique(ts: int, y: int)
    requires
        1970 <= y,
        spec_year_start(y) <= ts,
        ts < spec_year_start(y + 1),
    ensures
        spec_year_of(ts) == y,
{
    assert(1970 <= y && spec_year_start(y) <= ts < spec_year_start(y + 1));
    let c = spec_year_of(ts);
    assert(1970 <= c && spec_year_start(c) <= ts < spec_year_start(c + 1));
    if c < y {
        lemma_year_start_monotone(c + 1, y);
        assert(false);
    }
    if y < c {
        lemma_year_start_monotone(y + 1, c);
        assert(false);
    }
}

/// Relies on chrono: `DateTime::<Utc>::from_timestamp` interprets `ts` as
/// non-leap seconds since the Unix epoch and `Datelike::year` returns the
/// proleptic-Gregorian calendar year of that instant, so the result is the
/// unique year whose January 1st lies at or before `ts` and whose successor's
/// January 1st lies after it.
#[verifier::external_body]
pub fn year_of_timestamp(ts: i64) -> (r: i32)
    requires
        0 <= ts <= MAX_TIME,
    ensures
        1970 <= r <= 3058,
        spec_year_start(r as int) <= ts as int,
        (ts as int) < spec_year_start((r as int) + 1),
{
    match chrono::DateTime::<chrono::Utc>::from_timestamp(ts, 0) {
        Some(dt) => chrono::Datelike::year(&dt),
        None => 1970,
    }
}

/// Relies on chrono: `TimeZone::with_ymd_and_hms` on `Utc` builds the
/// proleptic-Gregorian instant `year`-01-01 00:00:00 UTC and
/// `DateTime::timestamp` converts it to non-leap seconds since the epoch,
/// which counts 86400 seconds per day with the Gregorian leap rule.
#[verifier::external_body]
pub fn start_of_the_year(year: i32) -> (r: i64)
    requires
        1970 <= year <= 3059,
    ensures
        r as int == spec_year_start(year as int),
        0 <= r,
{
    chrono::TimeZone::with_ymd_and_hms(&chrono::Utc, year, 1, 1, 0, 0, 0)
        .single()
        .map(|dt| dt.timestamp())
        .unwrap_or(0)
}

} // verus!
