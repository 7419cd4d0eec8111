//! Billing and accounting core for an OpenStack cloud: reconstruction of
//! effective flavor-price regimes over a time window, intersection of
//! server occupancy intervals with those regimes, and aggregation of the
//! resulting consumption into monetary cost and budget comparisons.
//!
//! All timestamps are UTC Unix seconds. Monetary amounts are integers:
//! a flavor's `unit_price` is the price for one full year of occupancy,
//! and computed costs are kept as exact numerators over the fixed
//! denominator [`SECONDS_PER_YEAR`], so that interval additivity holds
//! without rounding.

use vstd::prelude::*;

pub mod budget;
pub mod calendar;
pub mod consumption;
pub mod cost;
pub mod error;
pub mod flavor_map;
pub mod flavor_price;
pub mod laws;
pub mod price_periods;
pub mod price_table;
pub mod project;
pub mod quota;
pub mod resources;
pub mod server_state;
pub mod user;

verus! {

/// Number of seconds in a billing year (365 days, no leap adjustment).
pub const SECONDS_PER_YEAR: i64 = 31_536_000;

/// Largest timestamp (Unix seconds) the engine accepts.
pub const MAX_TIME: i64 = 34_359_738_368;

/// Cap on period-times-record pairs one cost query may process, so that
/// exact accumulation stays within the integer range.
pub const MAX_COST_ITEMS: u64 = 0x4000_0000_0000;

/// Largest magnitude a yearly unit price may have.
pub const MAX_UNIT_PRICE: i64 = 1_000_000_000_000;

/// Seconds of the interval `[lo, hi)` covered by the occupancy interval
/// `[begin, end)`; an occupancy with no recorded end runs until `hi`.
pub open spec fn spec_overlap_seconds(begin: int, end: Option<int>, lo: int, hi: int) -> int {
    let e = match end {
        Some(t) => if t <= hi { t } else { hi },
        None => hi,
    };
    let b = if begin >= lo { begin } else { lo };
    if e > b {
        e - b
    } else {
        0
    }
}

/// Seconds of `[lo, hi)` covered by `[begin, end)`, clamped at zero.
pub fn overlap_seconds(begin: i64, end: Option<i64>, lo: i64, hi: i64) -> (r: i64)
    requires
        0 <= lo,
        hi <= MAX_TIME,
        0 <= begin <= MAX_TIME,
        match end {
            Some(t) => 0 <= t <= MAX_TIME,
            None => true,
        },
    ensures
        r == spec_overlap_seconds(begin as int, match end {
            Some(t) => Some(t as int),
            None => None,
        }, lo as int, hi as int),
        0 <= r <= MAX_TIME,
{
    let e = match end {
        Some(t) => if t <= hi { t } else { hi },
        None => hi,
    };
    let b = if begin >= lo { begin } else { lo };
    if e > b {
        e - b
    } else {
        0
    }
}

} // verus!
