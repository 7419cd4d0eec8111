//! The cost aggregator: walks the price periods of a window, slices the
//! scoped occupancy records against each period, and turns seconds into
//! money at the period's unit prices.
//!
//! Costs are exact integer numerators over [`crate::SECONDS_PER_YEAR`]: a
//! flavor consuming `c` seconds in a period priced `p` per year contributes
//! `c * p` to the numerator. A zero or negative contribution never enters a
//! displayed total but is still recorded in the per-flavor breakdowns.

use vstd::prelude::*;
use crate::{MAX_TIME, MAX_UNIT_PRICE, MAX_COST_ITEMS};
use crate::consumption::{
    consumption_map, lemma_cmap_entry_bounds, lemma_cmap_props, lemma_consumption_bounds,
    lemma_consumption_no_active, spec_consumption, spec_consumption_map,
};
use crate::flavor_map::{
    FlavorEntry, entries_view, has_key, key_index, keys_unique, lemma_key_index, lemma_upsert,
    lookup, spec_upsert, upsert_amount,
};
use crate::flavor_price::{
    FlavorPrice, lemma_latest_index, prices_distinct_starts, prices_sorted_desc, prices_wf,
    lemma_until_props, spec_effective_price, spec_filter_prices, spec_latest_index, spec_prices_until,
};
use crate::price_periods::{
    PricePeriod, get_flavor_price_periods, spec_bounds, spec_boundaries_desc, starts_of,
    period_price,
};
use crate::price_table::{t_lookup, table_view};
use crate::resources::Flavor;
use crate::server_state::{ServerState, states_wf};
use crate::user::UserClass;

verus! {

/// The positive part of an amount: what enters a displayed total.
pub open spec fn pos(x: int) -> int {
    if x > 0 {
        x
    } else {
        0
    }
}

/// Cost of one period over its consumption map: each entry's seconds times
/// the price in effect at `t`, only positive amounts counting.
pub open spec fn spec_map_cost(
    m: Seq<(Seq<char>, int)>,
    rows: Seq<FlavorPrice>,
    uc: UserClass,
    t: int,
) -> int
    decreases m.len(),
{
    if m.len() == 0 {
        0
    } else {
        spec_map_cost(m.drop_last(), rows, uc, t) + pos(
            m.last().1 * spec_effective_price(rows, uc, m.last().0, t),
        )
    }
}

/// Cost of the records over one period `[lo, hi)` priced at `lo`.
pub open spec fn spec_period_cost(
    ss: Seq<ServerState>,
    rows: Seq<FlavorPrice>,
    uc: UserClass,
    lo: int,
    hi: int,
) -> int {
    spec_map_cost(spec_consumption_map(ss, lo, hi), rows, uc, lo)
}

/// Where period `k` of the boundary list ends.
pub open spec fn spec_period_end(bs: Seq<int>, k: int, end: int) -> int {
    if k + 1 < bs.len() {
        bs[k + 1]
    } else {
        end
    }
}

/// Cost of the first `k` periods.
pub open spec fn spec_cost_upto(
    ss: Seq<ServerState>,
    rows: Seq<FlavorPrice>,
    uc: UserClass,
    bs: Seq<int>,
    end: int,
    k: int,
) -> int
    decreases k,
{
    if k <= 0 {
        0
    } else {
        spec_cost_upto(ss, rows, uc, bs, end, k - 1) + spec_period_cost(
            ss,
            rows,
            uc,
            bs[k - 1],
            spec_period_end(bs, k - 1, end),
        )
    }
}

/// Total cost of the window `[begin, end)` for records priced under `uc`:
/// the sum over all price periods of each flavor's positive consumption
/// value at the period's prices.
pub open spec fn spec_flat_cost(
    ss: Seq<ServerState>,
    prices: Seq<FlavorPrice>,
    uc: UserClass,
    begin: int,
    end: int,
) -> int {
    let rows = spec_prices_until(prices, end);
    let bs = spec_bounds(prices, begin, end);
    spec_cost_upto(ss, rows, uc, bs, end, bs.len() as int)
}

/// Signed cost of one flavor over the first `k` periods: consumption times
/// price per period, negative and zero amounts included.
pub open spec fn spec_flavor_cost_upto(
    ss: Seq<ServerState>,
    rows: Seq<FlavorPrice>,
    uc: UserClass,
    f: Seq<char>,
    bs: Seq<int>,
    end: int,
    k: int,
) -> int
    decreases k,
{
    if k <= 0 {
        0
    } else {
        spec_flavor_cost_upto(ss, rows, uc, f, bs, end, k - 1) + spec_consumption(
            ss,
            f,
            bs[k - 1],
            spec_period_end(bs, k - 1, end),
        ) * spec_effective_price(rows, uc, f, bs[k - 1])
    }
}

/// Signed cost of one flavor over the whole window.
pub open spec fn spec_flavor_cost(
    ss: Seq<ServerState>,
    prices: Seq<FlavorPrice>,
    uc: UserClass,
    f: Seq<char>,
    begin: int,
    end: int,
) -> int {
    let rows = spec_prices_until(prices, end);
    let bs = spec_bounds(prices, begin, end);
    spec_flavor_cost_upto(ss, rows, uc, f, bs, end, bs.len() as int)
}

/// Replaying one period's consumption map onto a per-flavor cost map: entry
/// `j-1` of the map adds its seconds times the period price under its name.
pub open spec fn spec_merge_period(
    acc: Seq<(Seq<char>, int)>,
    m: Seq<(Seq<char>, int)>,
    rows: Seq<FlavorPrice>,
    uc: UserClass,
    t: int,
    j: int,
) -> Seq<(Seq<char>, int)>
    decreases j,
{
    if j <= 0 {
        acc
    } else {
        let prev = spec_merge_period(acc, m, rows, uc, t, j - 1);
        spec_upsert(prev, m[j - 1].0, m[j - 1].1 * spec_effective_price(rows, uc, m[j - 1].0, t))
    }
}

/// The per-flavor cost map after the first `k` periods.
pub open spec fn spec_flavor_map_upto(
    ss: Seq<ServerState>,
    rows: Seq<FlavorPrice>,
    uc: UserClass,
    bs: Seq<int>,
    end: int,
    k: int,
) -> Seq<(Seq<char>, int)>
    decreases k,
{
    if k <= 0 {
        Seq::empty()
    } else {
        let acc = spec_flavor_map_upto(ss, rows, uc, bs, end, k - 1);
        let m = spec_consumption_map(ss, bs[k - 1], spec_period_end(bs, k - 1, end));
        spec_merge_period(acc, m, rows, uc, bs[k - 1], m.len() as int)
    }
}

/// The per-flavor cost map of the whole window: every flavor with an
/// overlapping record in some period, carrying its signed cost.
pub open spec fn spec_flavor_cost_map(
    ss: Seq<ServerState>,
    prices: Seq<FlavorPrice>,
    uc: UserClass,
    begin: int,
    end: int,
) -> Seq<(Seq<char>, int)> {
    let rows = spec_prices_until(prices, end);
    let bs = spec_bounds(prices, begin, end);
    spec_flavor_map_upto(ss, rows, uc, bs, end, bs.len() as int)
}

/// The price in effect is always one of the stored unit prices, or zero.
pub proof fn lemma_effective_bounded(rows: Seq<FlavorPrice>, uc: UserClass, f: Seq<char>, t: int)
    requires
        prices_wf(rows),
    ensures
        -MAX_UNIT_PRICE <= spec_effective_price(rows, uc, f, t) <= MAX_UNIT_PRICE,
{
    lemma_latest_index(rows, uc, f, t);
}

/// Replaying a period changes each name's amount by that name's entry in the
/// period map, priced at `t`; names absent from the period map keep their
/// amount.
pub proof fn lemma_merge_lookup(
    acc: Seq<(Seq<char>, int)>,
    m: Seq<(Seq<char>, int)>,
    rows: Seq<FlavorPrice>,
    uc: UserClass,
    t: int,
    j: int,
)
    requires
        keys_unique(acc),
        keys_unique(m),
        0 <= j <= m.len(),
    ensures
        keys_unique(spec_merge_period(acc, m, rows, uc, t, j)),
        forall|g: Seq<char>|
            #[trigger] lookup(spec_merge_period(acc, m, rows, uc, t, j), g) == lookup(acc, g) + if 0
                <= key_index(m, g) < j {
                lookup(m, g) * spec_effective_price(rows, uc, g, t)
            } else {
                0
            },
        forall|g: Seq<char>|
            #[trigger] has_key(spec_merge_period(acc, m, rows, uc, t, j), g) == (has_key(acc, g)
                || 0 <= key_index(m, g) < j),
    decreases j,
{
    if j > 0 {
        lemma_merge_lookup(acc, m, rows, uc, t, j - 1);
        let prev = spec_merge_period(acc, m, rows, uc, t, j - 1);
        let key = m[j - 1].0;
        let d = m[j - 1].1 * spec_effective_price(rows, uc, key, t);
        let merged = spec_merge_period(acc, m, rows, uc, t, j);
        assert(merged == spec_upsert(prev, key, d));
        lemma_upsert(prev, key, d);
        lemma_key_index(m, key);
        let ki = key_index(m, key);
        if ki != j - 1 {
            assert(m[ki].0 == key);
            assert(false);
        }
        assert(lookup(m, key) == m[j - 1].1);
        assert forall|g: Seq<char>| true implies #[trigger] lookup(merged, g) == lookup(acc, g)
            + if 0 <= key_index(m, g) < j {
            lookup(m, g) * spec_effective_price(rows, uc, g, t)
        } else {
            0
        } by {
            lemma_key_index(m, g);
            if g == key {
                assert(lookup(merged, g) == lookup(prev, g) + d);
            } else {
                assert(lookup(merged, g) == lookup(prev, g));
                if key_index(m, g) == j - 1 {
                    assert(m[j - 1].0 == g);
                    assert(false);
                }
            }
        }
        assert forall|g: Seq<char>| true implies #[trigger] has_key(merged, g) == (has_key(acc, g)
            || 0 <= key_index(m, g) < j) by {
            lemma_key_index(m, g);
            if g == key {
                assert(has_key(merged, g));
            } else {
                assert(has_key(merged, g) == has_key(prev, g));
                if key_index(m, g) == j - 1 {
                    assert(m[j - 1].0 == g);
                    assert(false);
                }
            }
        }
    }
}

/// After `k` periods the per-flavor map holds, under every name, exactly the
/// signed flavor cost of those periods.
pub proof fn lemma_flavor_map_props(
    ss: Seq<ServerState>,
    rows: Seq<FlavorPrice>,
    uc: UserClass,
    bs: Seq<int>,
    end: int,
    k: int,
)
    requires
        0 <= k,
    ensures
        keys_unique(spec_flavor_map_upto(ss, rows, uc, bs, end, k)),
        forall|g: Seq<char>|
            #[trigger] lookup(spec_flavor_map_upto(ss, rows, uc, bs, end, k), g)
                == spec_flavor_cost_upto(ss, rows, uc, g, bs, end, k),
    decreases k,
{
    if k > 0 {
        lemma_flavor_map_props(ss, rows, uc, bs, end, k - 1);
        let acc = spec_flavor_map_upto(ss, rows, uc, bs, end, k - 1);
        let lo = bs[k - 1];
        let hi = spec_period_end(bs, k - 1, end);
        let m = spec_consumption_map(ss, lo, hi);
        lemma_cmap_props(ss, lo, hi);
        lemma_merge_lookup(acc, m, rows, uc, lo, m.len() as int);
        assert forall|g: Seq<char>| true implies #[trigger] lookup(
            spec_flavor_map_upto(ss, rows, uc, bs, end, k),
            g,
        ) == spec_flavor_cost_upto(ss, rows, uc, g, bs, end, k) by {
            lemma_key_index(m, g);
            if 0 <= key_index(m, g) < m.len() {
                let ki = key_index(m, g);
                assert(m[ki].0 == g);
                assert(m[ki].1 == spec_consumption(ss, g, lo, hi));
                assert(lookup(m, g) == m[ki].1);
            } else {
                assert(!has_key(m, g));
                assert forall|j: int|
                    0 <= j < ss.len() && (#[trigger] ss[j]).flavor_name@ == g implies !crate::server_state::spec_row_active(
                    ss[j],
                    lo,
                    hi,
                ) by {}
                lemma_consumption_no_active(ss, g, lo, hi);
                assert(spec_consumption(ss, g, lo, hi) == 0);
            }
        }
    }
}

/// Each flavor's signed cost over `k` periods stays within `k` records-times-
/// window-times-price.
pub proof fn lemma_flavor_cost_bounds(
    ss: Seq<ServerState>,
    rows: Seq<FlavorPrice>,
    uc: UserClass,
    f: Seq<char>,
    bs: Seq<int>,
    end: int,
    k: int,
)
    requires
        0 <= k <= bs.len(),
        states_wf(ss),
        prices_wf(rows),
        forall|j: int| 0 <= j < bs.len() ==> 0 <= #[trigger] bs[j] <= MAX_TIME,
        0 <= end <= MAX_TIME,
    ensures
        -(k * ss.len() * MAX_TIME * MAX_UNIT_PRICE) <= spec_flavor_cost_upto(
            ss,
            rows,
            uc,
            f,
            bs,
            end,
            k,
        ) <= k * ss.len() * MAX_TIME * MAX_UNIT_PRICE,
    decreases k,
{
    if k == 0 {
        assert(0 * ss.len() * MAX_TIME * MAX_UNIT_PRICE == 0) by (nonlinear_arith);
    } else {
        lemma_flavor_cost_bounds(ss, rows, uc, f, bs, end, k - 1);
        let hi = spec_period_end(bs, k - 1, end);
        lemma_effective_bounded(rows, uc, f, bs[k - 1]);
        lemma_consumption_bounds(ss, f, bs[k - 1], hi);
        let c = spec_consumption(ss, f, bs[k - 1], hi);
        let p = spec_effective_price(rows, uc, f, bs[k - 1]);
        assert(-(ss.len() * MAX_TIME * MAX_UNIT_PRICE) <= c * p <= ss.len() * MAX_TIME
            * MAX_UNIT_PRICE) by (nonlinear_arith)
            requires
                0 <= c <= ss.len() * MAX_TIME,
                -MAX_UNIT_PRICE <= p <= MAX_UNIT_PRICE,
                MAX_UNIT_PRICE > 0,
        ;
        assert((k - 1) * ss.len() * MAX_TIME * MAX_UNIT_PRICE + ss.len() * MAX_TIME
            * MAX_UNIT_PRICE == k * ss.len() * MAX_TIME * MAX_UNIT_PRICE) by (nonlinear_arith);
    }
}

/// The positive parts summed over a map with nonnegative amounts stay
/// between zero and the sum of amounts times the price cap.
pub proof fn lemma_map_cost_bounds(
    m: Seq<(Seq<char>, int)>,
    rows: Seq<FlavorPrice>,
    uc: UserClass,
    t: int,
)
    requires
        prices_wf(rows),
        forall|k: int| 0 <= k < m.len() ==> 0 <= (#[trigger] m[k]).1,
    ensures
        0 <= spec_map_cost(m, rows, uc, t) <= crate::flavor_map::spec_map_total(m)
            * MAX_UNIT_PRICE,
    decreases m.len(),
{
    if m.len() == 0 {
        assert(crate::flavor_map::spec_map_total(m) * MAX_UNIT_PRICE == 0) by (nonlinear_arith)
            requires crate::flavor_map::spec_map_total(m) == 0;
    } else {
        lemma_map_cost_bounds(m.drop_last(), rows, uc, t);
        lemma_effective_bounded(rows, uc, m.last().0, t);
        let c = m.last().1;
        let p = spec_effective_price(rows, uc, m.last().0, t);
        assert(0 <= pos(c * p) <= c * MAX_UNIT_PRICE) by (nonlinear_arith)
            requires
                0 <= c,
                -MAX_UNIT_PRICE <= p <= MAX_UNIT_PRICE,
                MAX_UNIT_PRICE > 0,
        ;
        assert(crate::flavor_map::spec_map_total(m.drop_last()) * MAX_UNIT_PRICE + c
            * MAX_UNIT_PRICE == crate::flavor_map::spec_map_total(m) * MAX_UNIT_PRICE)
            by (nonlinear_arith)
            requires crate::flavor_map::spec_map_total(m) == crate::flavor_map::spec_map_total(
                m.drop_last(),
            ) + c;
    }
}

/// One period's cost lies between zero and records-times-window-times-price.
pub proof fn lemma_period_cost_bounds(
    ss: Seq<ServerState>,
    rows: Seq<FlavorPrice>,
    uc: UserClass,
    lo: int,
    hi: int,
)
    requires
        states_wf(ss),
        prices_wf(rows),
        0 <= lo,
        hi <= MAX_TIME,
    ensures
        0 <= spec_period_cost(ss, rows, uc, lo, hi) <= ss.len() * MAX_TIME * MAX_UNIT_PRICE,
{
    let m = spec_consumption_map(ss, lo, hi);
    lemma_cmap_props(ss, lo, hi);
    assert forall|k: int| 0 <= k < m.len() implies 0 <= (#[trigger] m[k]).1 by {
        lemma_consumption_bounds(ss, m[k].0, lo, hi);
    }
    lemma_map_cost_bounds(m, rows, uc, lo);
    crate::consumption::lemma_cmap_total(ss, lo, hi);
    assert(crate::flavor_map::spec_map_total(m) * MAX_UNIT_PRICE <= ss.len() * MAX_TIME
        * MAX_UNIT_PRICE) by (nonlinear_arith)
        requires
            0 <= crate::flavor_map::spec_map_total(m) <= ss.len() * MAX_TIME,
            MAX_UNIT_PRICE > 0,
    ;
}

/// The running total over `k` periods stays within `k` times one period's
/// worst case, and never drops below zero.
pub proof fn lemma_cost_upto_bounds(
    ss: Seq<ServerState>,
    rows: Seq<FlavorPrice>,
    uc: UserClass,
    bs: Seq<int>,
    end: int,
    k: int,
)
    requires
        0 <= k <= bs.len(),
        states_wf(ss),
        prices_wf(rows),
        forall|j: int| 0 <= j < bs.len() ==> 0 <= #[trigger] bs[j] <= MAX_TIME,
        0 <= end <= MAX_TIME,
    ensures
        0 <= spec_cost_upto(ss, rows, uc, bs, end, k) <= k * ss.len() * MAX_TIME * MAX_UNIT_PRICE,
    decreases k,
{
    if k == 0 {
        assert(0 * ss.len() * MAX_TIME * MAX_UNIT_PRICE == 0) by (nonlinear_arith);
    } else {
        lemma_cost_upto_bounds(ss, rows, uc, bs, end, k - 1);
        let lo = bs[k - 1];
        let hi = spec_period_end(bs, k - 1, end);
        lemma_period_cost_bounds(ss, rows, uc, lo, hi);
        assert((k - 1) * ss.len() * MAX_TIME * MAX_UNIT_PRICE + ss.len() * MAX_TIME
            * MAX_UNIT_PRICE == k * ss.len() * MAX_TIME * MAX_UNIT_PRICE) by (nonlinear_arith);
    }
}

/// What holds of every input a cost query accepts: well-formed records, a
/// well-formed newest-first price history, an ordered window inside the time
/// range, and few enough period-record pairs for exact accumulation.
pub open spec fn cost_inputs_wf(
    ss: Seq<ServerState>,
    ps: Seq<FlavorPrice>,
    begin: i64,
    end: i64,
) -> bool {
    &&& states_wf(ss)
    &&& prices_sorted_desc(ps)
    &&& prices_distinct_starts(ps)
    &&& prices_wf(ps)
    &&& 0 <= begin <= end
    &&& end <= MAX_TIME
    &&& (ps.len() + 1) * (ss.len() + 1) <= MAX_COST_ITEMS
}

/// Total and per-flavor cost of a window over pre-scoped records: drives the
/// price periods, re-slices the records against each period, and accumulates
/// seconds times unit price; only positive amounts enter the total, every
/// amount enters the per-flavor map.
fn window_cost(
    scoped: &Vec<ServerState>,
    flavors: &Vec<Flavor>,
    prices: &Vec<FlavorPrice>,
    uc: UserClass,
    begin: i64,
    end: i64,
) -> (r: (i128, Vec<FlavorEntry>))
    requires
        cost_inputs_wf(scoped@, prices@, begin, end),
    ensures
        r.0 == spec_flat_cost(scoped@, prices@, uc, begin as int, end as int),
        entries_view(r.1@) == spec_flavor_cost_map(scoped@, prices@, uc, begin as int, end as int),
        0 <= r.0 <= spec_bounds(prices@, begin as int, end as int).len() * scoped@.len() * MAX_TIME
            * MAX_UNIT_PRICE,
{
    let ghost rows = spec_prices_until(prices@, end as int);
    let ghost bs = spec_bounds(prices@, begin as int, end as int);
    let periods = get_flavor_price_periods(flavors, prices, begin, end);
    proof {
        crate::price_periods::lemma_bounds_len(prices@, begin as int, end as int);
        lemma_until_props(prices@, end as int);
        assert(starts_of(periods@).len() == periods@.len());
        assert forall|j: int| 0 <= j < bs.len() implies 0 <= #[trigger] bs[j] <= MAX_TIME by {
            assert(starts_of(periods@)[j] == periods@[j].start as int);
        }
    }
    let np = periods.len();
    let mut total: i128 = 0;
    let mut fmap: Vec<FlavorEntry> = Vec::new();
    let mut k: usize = 0;
    while k < np
        invariant
            cost_inputs_wf(scoped@, prices@, begin, end),
            rows == spec_prices_until(prices@, end as int),
            prices_wf(rows),
            bs == spec_bounds(prices@, begin as int, end as int),
            np == periods@.len(),
            starts_of(periods@) == bs,
            bs.len() <= prices@.len() + 1,
            forall|j: int| 0 <= j < bs.len() ==> 0 <= #[trigger] bs[j] <= MAX_TIME,
            forall|j: int| 0 <= j < periods@.len() ==> begin <= (#[trigger] periods@[j]).start <= end,
            forall|j: int, uc2: UserClass, fname: Seq<char>|
                0 <= j < periods@.len() ==> #[trigger] t_lookup(
                    table_view(periods@[j].prices@),
                    uc2,
                    fname,
                ) == spec_effective_price(rows, uc2, fname, periods@[j].start as int),
            0 <= k <= np,
            total == spec_cost_upto(scoped@, rows, uc, bs, end as int, k as int),
            entries_view(fmap@) == spec_flavor_map_upto(scoped@, rows, uc, bs, end as int, k as int),
        decreases np - k,
    {
        let lo = periods[k].start;
        let hi = if k + 1 < np {
            periods[k + 1].start
        } else {
            end
        };
        proof {
            assert(starts_of(periods@)[k as int] == periods@[k as int].start as int);
            assert(lo as int == bs[k as int]);
            if k + 1 < np {
                assert(starts_of(periods@)[k + 1] == periods@[k + 1].start as int);
            }
            assert(hi as int == spec_period_end(bs, k as int, end as int));
        }
        let cmap = consumption_map(scoped, lo, hi);
        let ghost m = spec_consumption_map(scoped@, lo as int, hi as int);
        let ghost acc = spec_flavor_map_upto(scoped@, rows, uc, bs, end as int, k as int);
        proof {
            lemma_cmap_props(scoped@, lo as int, hi as int);
            lemma_cmap_entry_bounds(scoped@, lo as int, hi as int);
            crate::consumption::lemma_cmap_total(scoped@, lo as int, hi as int);
            lemma_flavor_map_props(scoped@, rows, uc, bs, end as int, k as int);
            lemma_cost_upto_bounds(scoped@, rows, uc, bs, end as int, k as int);
        }
        let nm = cmap.len();
        let mut j: usize = 0;
        while j < nm
            invariant
                cost_inputs_wf(scoped@, prices@, begin, end),
                rows == spec_prices_until(prices@, end as int),
                prices_wf(rows),
                bs == spec_bounds(prices@, begin as int, end as int),
                np == periods@.len(),
                starts_of(periods@) == bs,
                bs.len() <= prices@.len() + 1,
                forall|j2: int| 0 <= j2 < bs.len() ==> 0 <= #[trigger] bs[j2] <= MAX_TIME,
                forall|j2: int, uc2: UserClass, fname: Seq<char>|
                    0 <= j2 < periods@.len() ==> #[trigger] t_lookup(
                        table_view(periods@[j2].prices@),
                        uc2,
                        fname,
                    ) == spec_effective_price(rows, uc2, fname, periods@[j2].start as int),
                0 <= k < np,
                lo as int == bs[k as int],
                hi as int == spec_period_end(bs, k as int, end as int),
                0 <= lo,
                hi <= MAX_TIME,
                nm == cmap@.len(),
                entries_view(cmap@) == m,
                m == spec_consumption_map(scoped@, lo as int, hi as int),
                acc == spec_flavor_map_upto(scoped@, rows, uc, bs, end as int, k as int),
                keys_unique(m),
                keys_unique(acc),
                forall|k2: int| 0 <= k2 < m.len() ==> 0 <= (#[trigger] m[k2]).1 <= scoped@.len() * MAX_TIME,
                forall|g: Seq<char>|
                    #[trigger] lookup(acc, g) == spec_flavor_cost_upto(
                        scoped@,
                        rows,
                        uc,
                        g,
                        bs,
                        end as int,
                        k as int,
                    ),
                0 <= j <= nm,
                total == spec_cost_upto(scoped@, rows, uc, bs, end as int, k as int)
                    + spec_map_cost(m.take(j as int), rows, uc, lo as int),
                entries_view(fmap@) == spec_merge_period(acc, m, rows, uc, lo as int, j as int),
            decreases nm - j,
        {
            let seconds = cmap[j].amount;
            let p = period_price(&periods[k], uc, &cmap[j].name);
            proof {
                assert(m[j as int] == (cmap@[j as int].name@, cmap@[j as int].amount as int));
                assert(p as int == spec_effective_price(rows, uc, cmap@[j as int].name@, lo as int));
                lemma_effective_bounded(rows, uc, cmap@[j as int].name@, lo as int);
                assert(scoped@.len() <= MAX_COST_ITEMS) by (nonlinear_arith)
                    requires
                        (prices@.len() + 1) * (scoped@.len() + 1) <= MAX_COST_ITEMS,
                        prices@.len() >= 0,
                        scoped@.len() >= 0,
                ;
                assert(scoped@.len() * MAX_TIME <= MAX_COST_ITEMS * MAX_TIME) by (nonlinear_arith)
                    requires 0 <= scoped@.len() <= MAX_COST_ITEMS;
                assert(-(MAX_COST_ITEMS * MAX_TIME * MAX_UNIT_PRICE) <= (seconds as int) * (
                p as int) <= MAX_COST_ITEMS * MAX_TIME * MAX_UNIT_PRICE) by (nonlinear_arith)
                    requires
                        0 <= seconds as int <= MAX_COST_ITEMS * MAX_TIME,
                        -MAX_UNIT_PRICE <= p as int <= MAX_UNIT_PRICE,
                        MAX_UNIT_PRICE > 0,
                ;
            }
            let flavor_cost: i128 = seconds * (p as i128);
            proof {
                lemma_merge_lookup(acc, m, rows, uc, lo as int, j as int);
                lemma_flavor_cost_bounds(
                    scoped@,
                    rows,
                    uc,
                    cmap@[j as int].name@,
                    bs,
                    end as int,
                    k as int,
                );
                lemma_budget(
                    k as int,
                    bs.len() as int,
                    scoped@.len() as int,
                    prices@.len() as int,
                );
                crate::flavor_map::lemma_key_index(m, cmap@[j as int].name@);
            }
            upsert_amount(&mut fmap, &cmap[j].name, flavor_cost);
            proof {
                assert(m[j as int].0 == cmap@[j as int].name@);
                assert(entries_view(fmap@) == spec_merge_period(
                    acc,
                    m,
                    rows,
                    uc,
                    lo as int,
                    j + 1,
                ));
            }
            if flavor_cost > 0 {
                proof {
                    assert(m.take(j + 1).drop_last() =~= m.take(j as int));
                    assert(m.take(j + 1).last() == m[j as int]);
                    lemma_cost_upto_bounds(scoped@, rows, uc, bs, end as int, k as int);
                    assert forall|k2: int| 0 <= k2 < m.take(j as int).len() implies 0 <= (
                    #[trigger] m.take(j as int)[k2]).1 by {
                        assert(m.take(j as int)[k2] == m[k2]);
                    }
                    lemma_map_cost_bounds(m.take(j as int), rows, uc, lo as int);
                    crate::flavor_map::lemma_map_total_take(m, j as int);
                    crate::consumption::lemma_cmap_total(scoped@, lo as int, hi as int);
                    assert(crate::flavor_map::spec_map_total(m.take(j as int)) * MAX_UNIT_PRICE
                        <= (scoped@.len() * MAX_TIME) * MAX_UNIT_PRICE) by (nonlinear_arith)
                        requires
                            0 <= crate::flavor_map::spec_map_total(m.take(j as int)) <= scoped@.len()
                                * MAX_TIME,
                            MAX_UNIT_PRICE > 0,
                    ;
                    lemma_budget(
                        k as int,
                        bs.len() as int,
                        scoped@.len() as int,
                        prices@.len() as int,
                    );
                }
                total = total + flavor_cost;
            } else {
                proof {
                    assert(m.take(j + 1).drop_last() =~= m.take(j as int));
                    assert(m.take(j + 1).last() == m[j as int]);
                    assert(pos(m[j as int].1 * spec_effective_price(rows, uc, m[j as int].0, lo as int))
                        == 0);
                }
            }
            j += 1;
        }
        proof {
            assert(m.take(nm as int) =~= m);
        }
        k += 1;
    }
    proof {
        lemma_cost_upto_bounds(scoped@, rows, uc, bs, end as int, bs.len() as int);
        assert(bs.len() * scoped@.len() * MAX_TIME * MAX_UNIT_PRICE >= 0) by (nonlinear_arith)
            requires bs.len() >= 0 && scoped@.len() >= 0;
    }
    (total, fmap)
}

/// With the pair budget respected, `k + 1` periods over the records stay
/// within the exact range.
proof fn lemma_budget(k: int, bslen: int, n: int, plen: int)
    requires
        0 <= k < bslen,
        bslen <= plen + 1,
        0 <= n,
        (plen + 1) * (n + 1) <= MAX_COST_ITEMS,
    ensures
        (k + 1) * n * MAX_TIME * MAX_UNIT_PRICE <= MAX_COST_ITEMS * MAX_TIME * MAX_UNIT_PRICE,
        k * n * MAX_TIME * MAX_UNIT_PRICE + n * MAX_TIME * MAX_UNIT_PRICE + MAX_COST_ITEMS
            * MAX_TIME * MAX_UNIT_PRICE < i128::MAX,
        -(k * n * MAX_TIME * MAX_UNIT_PRICE) - n * MAX_TIME * MAX_UNIT_PRICE - MAX_COST_ITEMS
            * MAX_TIME * MAX_UNIT_PRICE > i128::MIN,
        bslen * n * MAX_TIME * MAX_UNIT_PRICE <= MAX_COST_ITEMS * MAX_TIME * MAX_UNIT_PRICE,
{
    assert((k + 1) * n <= MAX_COST_ITEMS && bslen * n <= MAX_COST_ITEMS) by (nonlinear_arith)
        requires
            0 <= k < bslen,
            bslen <= plen + 1,
            0 <= n,
            (plen + 1) * (n + 1) <= MAX_COST_ITEMS,
    ;
    assert((k + 1) * n * MAX_TIME * MAX_UNIT_PRICE <= MAX_COST_ITEMS * MAX_TIME * MAX_UNIT_PRICE
        && bslen * n * MAX_TIME * MAX_UNIT_PRICE <= MAX_COST_ITEMS * MAX_TIME * MAX_UNIT_PRICE
        && k * n * MAX_TIME * MAX_UNIT_PRICE + n * MAX_TIME * MAX_UNIT_PRICE == (k + 1) * n
        * MAX_TIME * MAX_UNIT_PRICE && 0 <= k * n * MAX_TIME * MAX_UNIT_PRICE)
        by (nonlinear_arith)
        requires
            0 <= k,
            0 <= n,
            (k + 1) * n <= MAX_COST_ITEMS,
            bslen * n <= MAX_COST_ITEMS,
            0 <= bslen * n,
            MAX_TIME > 0,
            MAX_UNIT_PRICE > 0,
    ;
}

/// Flat cost over one scope: zero when no tier resolves, the window total
/// otherwise.
pub open spec fn spec_optional_cost(
    uc: Option<UserClass>,
    scoped: Seq<ServerState>,
    prices: Seq<FlavorPrice>,
    begin: int,
    end: int,
) -> int {
    match uc {
        Some(c) => spec_flat_cost(scoped, prices, c, begin, end),
        None => 0,
    }
}

/// Per-flavor cost map over one scope: empty when no tier resolves.
pub open spec fn spec_optional_flavor_map(
    uc: Option<UserClass>,
    scoped: Seq<ServerState>,
    prices: Seq<FlavorPrice>,
    begin: int,
    end: int,
) -> Seq<(Seq<char>, int)> {
    match uc {
        Some(c) => spec_flavor_cost_map(scoped, prices, c, begin, end),
        None => Seq::empty(),
    }
}

/// Every period start of a window lies within the time range.
pub proof fn lemma_bounds_range(prices: Seq<FlavorPrice>, begin: int, end: int)
    requires
        prices_sorted_desc(prices),
        prices_distinct_starts(prices),
        prices_wf(prices),
        0 <= begin <= end <= MAX_TIME,
    ensures
        forall|j: int|
            0 <= j < spec_bounds(prices, begin, end).len() ==> 0 <= #[trigger] spec_bounds(
                prices,
                begin,
                end,
            )[j] <= MAX_TIME,
{
    let u = spec_prices_until(prices, end);
    let f = spec_filter_prices(u, begin);
    lemma_until_props(prices, end);
    crate::flavor_price::lemma_filter_wf(u, begin);
    lemma_boundaries_range(f, begin);
    let bd = spec_boundaries_desc(f, begin);
    assert forall|j: int|
        0 <= j < spec_bounds(prices, begin, end).len() implies 0 <= #[trigger] spec_bounds(
        prices,
        begin,
        end,
    )[j] <= MAX_TIME by {
        if j > 0 {
            assert(spec_bounds(prices, begin, end)[j] == bd[j - 1]);
        }
    }
}

/// Every change instant is one of the rows' start times.
proof fn lemma_boundaries_range(ps: Seq<FlavorPrice>, begin: int)
    requires
        prices_wf(ps),
    ensures
        forall|j: int|
            0 <= j < spec_boundaries_desc(ps, begin).len() ==> 0 <= #[trigger] spec_boundaries_desc(
                ps,
                begin,
            )[j] <= MAX_TIME,
    decreases ps.len(),
{
    if ps.len() > 0 {
        assert(prices_wf(ps.drop_first())) by {
            assert(forall|i: int|
                0 <= i < ps.drop_first().len() ==> ps.drop_first()[i] == ps[i + 1]);
        }
        lemma_boundaries_range(ps.drop_first(), begin);
        let rest = spec_boundaries_desc(ps.drop_first(), begin);
        let cur = spec_boundaries_desc(ps, begin);
        assert(crate::flavor_price::price_wf(ps[0]));
        assert forall|j: int| 0 <= j < cur.len() implies 0 <= #[trigger] cur[j] <= MAX_TIME by {
            if j < rest.len() {
                assert(cur[j] == rest[j]);
            }
        }
    }
}

/// The window total stays within one worst-case period per price row.
pub proof fn lemma_flat_cost_bounds(
    ss: Seq<ServerState>,
    prices: Seq<FlavorPrice>,
    uc: UserClass,
    begin: int,
    end: int,
)
    requires
        states_wf(ss),
        prices_sorted_desc(prices),
        prices_distinct_starts(prices),
        prices_wf(prices),
        0 <= begin <= end <= MAX_TIME,
    ensures
        0 <= spec_flat_cost(ss, prices, uc, begin, end) <= spec_bounds(prices, begin, end).len()
            * ss.len() * MAX_TIME * MAX_UNIT_PRICE,
{
    let rows = spec_prices_until(prices, end);
    let bs = spec_bounds(prices, begin, end);
    lemma_until_props(prices, end);
    lemma_bounds_range(prices, begin, end);
    lemma_cost_upto_bounds(ss, rows, uc, bs, end, bs.len() as int);
}

/// Flat per-window cost shape of one scope.
#[derive(Debug)]
pub struct ServerCostSimple {
    pub total: i128,
}

/// Cost of one server: total plus its per-flavor breakdown.
#[derive(Debug)]
pub struct ServerCostServer {
    pub total: i128,
    pub flavors: Vec<FlavorEntry>,
}

/// One server's cost under its instance id.
#[derive(Debug)]
pub struct NamedServerCost {
    pub name: String,
    pub cost: ServerCostServer,
}

/// Cost of one user: total, per-flavor breakdown, and per-server breakdown.
#[derive(Debug)]
pub struct ServerCostUser {
    pub total: i128,
    pub flavors: Vec<FlavorEntry>,
    pub servers: Vec<NamedServerCost>,
}

/// Ghost image of a per-server cost list: id, total and flavor map of each.
pub open spec fn server_costs_view(s: Seq<NamedServerCost>) -> Seq<
    (Seq<char>, int, Seq<(Seq<char>, int)>),
> {
    s.map(
        |i: int, e: NamedServerCost| (e.name@, e.cost.total as int, entries_view(e.cost.flavors@)),
    )
}

/// The per-server cost children of a scope: for each server with a record
/// overlapping the window, in order of first appearance, its flat total and
/// per-flavor map.
pub open spec fn spec_server_children(
    scoped: Seq<ServerState>,
    prices: Seq<FlavorPrice>,
    uc: UserClass,
    begin: int,
    end: int,
) -> Seq<(Seq<char>, int, Seq<(Seq<char>, int)>)> {
    crate::consumption::spec_active_servers(scoped, begin, end).map(
        |i: int, id: Seq<char>|
            (
                id,
                spec_flat_cost(
                    crate::server_state::spec_states_of_server(scoped, id),
                    prices,
                    uc,
                    begin,
                    end,
                ),
                spec_flavor_cost_map(
                    crate::server_state::spec_states_of_server(scoped, id),
                    prices,
                    uc,
                    begin,
                    end,
                ),
            ),
    )
}

/// Sum of the first `k` per-server child totals.
pub open spec fn spec_server_children_total_upto(
    ids: Seq<Seq<char>>,
    scoped: Seq<ServerState>,
    prices: Seq<FlavorPrice>,
    uc: UserClass,
    begin: int,
    end: int,
    k: int,
) -> int
    decreases k,
{
    if k <= 0 {
        0
    } else {
        spec_server_children_total_upto(ids, scoped, prices, uc, begin, end, k - 1)
            + spec_flat_cost(
            crate::server_state::spec_states_of_server(scoped, ids[k - 1]),
            prices,
            uc,
            begin,
            end,
        )
    }
}

/// Total of a user's window: the sum of their servers' totals, each server
/// already clamped per period and flavor.
pub open spec fn spec_user_detail_total(
    scoped: Seq<ServerState>,
    prices: Seq<FlavorPrice>,
    uc: UserClass,
    begin: int,
    end: int,
) -> int {
    let ids = crate::consumption::spec_active_servers(scoped, begin, end);
    spec_server_children_total_upto(ids, scoped, prices, uc, begin, end, ids.len() as int)
}

/// Combined length of the first `k` by-server scopes.
pub open spec fn spec_children_len_sum(ids: Seq<Seq<char>>, ss: Seq<ServerState>, k: int) -> int
    decreases k,
{
    if k <= 0 {
        0
    } else {
        spec_children_len_sum(ids, ss, k - 1) + crate::server_state::spec_states_of_server(
            ss,
            ids[k - 1],
        ).len()
    }
}

/// The active-server list never repeats an instance id.
pub proof fn lemma_active_servers_distinct(ss: Seq<ServerState>, lo: int, hi: int)
    ensures
        forall|a: int, b: int|
            0 <= a < b < crate::consumption::spec_active_servers(ss, lo, hi).len()
                ==> crate::consumption::spec_active_servers(ss, lo, hi)[a]
                != crate::consumption::spec_active_servers(ss, lo, hi)[b],
    decreases ss.len(),
{
    if ss.len() > 0 {
        lemma_active_servers_distinct(ss.drop_last(), lo, hi);
        let prev = crate::consumption::spec_active_servers(ss.drop_last(), lo, hi);
        let cur = crate::consumption::spec_active_servers(ss, lo, hi);
        assert forall|a: int, b: int| 0 <= a < b < cur.len() implies cur[a] != cur[b] by {
            if b == cur.len() - 1 && cur.len() > prev.len() {
                assert(!prev.contains(ss.last().instance_id@));
                assert(prev[a] == cur[a]);
            }
        }
    }
}

/// Pairwise distinct server scopes cover each record at most once.
pub proof fn lemma_children_len_sum(ids: Seq<Seq<char>>, ss: Seq<ServerState>, k: int)
    requires
        0 <= k <= ids.len(),
        forall|a: int, b: int| 0 <= a < b < ids.len() ==> ids[a] != ids[b],
    ensures
        0 <= spec_children_len_sum(ids, ss, k) <= ss.len(),
    decreases ss.len(),
{
    lemma_len_sum_nonneg(ids, ss, k);
    if ss.len() == 0 {
        lemma_len_sum_empty(ids, ss, k);
    } else {
        lemma_children_len_sum(ids, ss.drop_last(), k);
        lemma_len_sum_step(ids, ss, k);
    }
}

proof fn lemma_len_sum_nonneg(ids: Seq<Seq<char>>, ss: Seq<ServerState>, k: int)
    ensures
        0 <= spec_children_len_sum(ids, ss, k),
    decreases k,
{
    if k > 0 {
        lemma_len_sum_nonneg(ids, ss, k - 1);
    }
}

proof fn lemma_len_sum_empty(ids: Seq<Seq<char>>, ss: Seq<ServerState>, k: int)
    requires
        ss.len() == 0,
    ensures
        spec_children_len_sum(ids, ss, k) == 0,
    decreases k,
{
    if k > 0 {
        lemma_len_sum_empty(ids, ss, k - 1);
    }
}

/// Dropping the last record lowers the combined scope length by one exactly
/// when some listed id owns it.
proof fn lemma_len_sum_step(ids: Seq<Seq<char>>, ss: Seq<ServerState>, k: int)
    requires
        0 <= k <= ids.len(),
        ss.len() > 0,
        forall|a: int, b: int| 0 <= a < b < ids.len() ==> ids[a] != ids[b],
    ensures
        spec_children_len_sum(ids, ss, k) == spec_children_len_sum(ids, ss.drop_last(), k) + if (
        exists|j: int| 0 <= j < k && ids[j] == ss.last().instance_id@) {
            1int
        } else {
            0int
        },
    decreases k,
{
    if k > 0 {
        lemma_len_sum_step(ids, ss, k - 1);
        let matched = ids[k - 1] == ss.last().instance_id@;
        if matched {
            assert forall|j: int| 0 <= j < k - 1 implies ids[j] != ss.last().instance_id@ by {
                assert(ids[j] != ids[k - 1]);
            }
            assert(exists|j: int| 0 <= j < k && ids[j] == ss.last().instance_id@) by {
                assert(ids[k - 1] == ss.last().instance_id@);
            }
        } else {
            assert((exists|j: int| 0 <= j < k && ids[j] == ss.last().instance_id@) == (exists|j: int|
                0 <= j < k - 1 && ids[j] == ss.last().instance_id@));
        }
    }
}

/// The summed totals of the first `k` server children stay within the pair
/// budget's worst case.
pub proof fn lemma_children_total_bounds(
    ids: Seq<Seq<char>>,
    scoped: Seq<ServerState>,
    prices: Seq<FlavorPrice>,
    uc: UserClass,
    begin: int,
    end: int,
    k: int,
)
    requires
        0 <= k <= ids.len(),
        forall|a: int, b: int| 0 <= a < b < ids.len() ==> ids[a] != ids[b],
        states_wf(scoped),
        prices_sorted_desc(prices),
        prices_distinct_starts(prices),
        prices_wf(prices),
        0 <= begin <= end <= MAX_TIME,
    ensures
        0 <= spec_server_children_total_upto(ids, scoped, prices, uc, begin, end, k) <= spec_bounds(
            prices,
            begin,
            end,
        ).len() * spec_children_len_sum(ids, scoped, k) * MAX_TIME * MAX_UNIT_PRICE,
    decreases k,
{
    let bsl = spec_bounds(prices, begin, end).len() as int;
    if k == 0 {
        assert(bsl * 0 * MAX_TIME * MAX_UNIT_PRICE == 0) by (nonlinear_arith);
    } else {
        lemma_children_total_bounds(ids, scoped, prices, uc, begin, end, k - 1);
        let child = crate::server_state::spec_states_of_server(scoped, ids[k - 1]);
        assert(states_wf(child)) by {
            crate::consumption::lemma_states_of_server_subset(scoped, ids[k - 1]);
            crate::consumption::lemma_scoped_states_wf(scoped, child);
        }
        lemma_flat_cost_bounds(child, prices, uc, begin, end);
        lemma_len_sum_nonneg(ids, scoped, k - 1);
        assert(bsl * spec_children_len_sum(ids, scoped, k - 1) * MAX_TIME * MAX_UNIT_PRICE + bsl
            * child.len() * MAX_TIME * MAX_UNIT_PRICE == bsl * spec_children_len_sum(
            ids,
            scoped,
            k,
        ) * MAX_TIME * MAX_UNIT_PRICE) by (nonlinear_arith)
            requires spec_children_len_sum(ids, scoped, k) == spec_children_len_sum(
                ids,
                scoped,
                k - 1,
            ) + child.len();
    }
}

/// Cost of one user's rows in full detail: the per-server children in order
/// of first appearance, the total as the sum of their totals, and the user's
/// own per-flavor map.
fn user_window_detail(
    scoped: &Vec<ServerState>,
    flavors: &Vec<Flavor>,
    prices: &Vec<FlavorPrice>,
    uc: UserClass,
    begin: i64,
    end: i64,
) -> (r: ServerCostUser)
    requires
        cost_inputs_wf(scoped@, prices@, begin, end),
    ensures
        r.total == spec_user_detail_total(scoped@, prices@, uc, begin as int, end as int),
        entries_view(r.flavors@) == spec_flavor_cost_map(
            scoped@,
            prices@,
            uc,
            begin as int,
            end as int,
        ),
        server_costs_view(r.servers@) == spec_server_children(
            scoped@,
            prices@,
            uc,
            begin as int,
            end as int,
        ),
        0 <= r.total <= spec_bounds(prices@, begin as int, end as int).len() * scoped@.len()
            * MAX_TIME * MAX_UNIT_PRICE,
{
    let whole = window_cost(scoped, flavors, prices, uc, begin, end);
    let fmap = whole.1;
    let ids = crate::consumption::active_servers(scoped, begin, end);
    let ghost gids = crate::consumption::spec_active_servers(scoped@, begin as int, end as int);
    let ghost bsl = spec_bounds(prices@, begin as int, end as int).len() as int;
    proof {
        lemma_active_servers_distinct(scoped@, begin as int, end as int);
        crate::price_periods::lemma_bounds_len(prices@, begin as int, end as int);
    }
    let n = ids.len();
    let mut servers: Vec<NamedServerCost> = Vec::new();
    let mut total: i128 = 0;
    let mut k: usize = 0;
    while k < n
        invariant
            cost_inputs_wf(scoped@, prices@, begin, end),
            n == ids@.len(),
            ids@.map(|i: int, s: String| s@) == gids,
            gids == crate::consumption::spec_active_servers(scoped@, begin as int, end as int),
            forall|a: int, b: int| 0 <= a < b < gids.len() ==> gids[a] != gids[b],
            bsl == spec_bounds(prices@, begin as int, end as int).len(),
            1 <= bsl <= prices@.len() + 1,
            0 <= k <= n,
            servers@.len() == k,
            server_costs_view(servers@) =~= spec_server_children(
                scoped@,
                prices@,
                uc,
                begin as int,
                end as int,
            ).take(k as int),
            total == spec_server_children_total_upto(
                gids,
                scoped@,
                prices@,
                uc,
                begin as int,
                end as int,
                k as int,
            ),
        decreases n - k,
    {
        let child_states = crate::server_state::select_server_states_by_server(scoped, &ids[k]);
        proof {
            assert(ids@.map(|i: int, s: String| s@)[k as int] == ids@[k as int]@);
            crate::consumption::lemma_states_of_server_subset(scoped@, ids@[k as int]@);
            crate::consumption::lemma_scoped_states_wf(scoped@, child_states@);
            crate::server_state::lemma_states_of_server_len(scoped@, ids@[k as int]@);
            assert((prices@.len() + 1) * (child_states@.len() + 1) <= MAX_COST_ITEMS)
                by (nonlinear_arith)
                requires
                    (prices@.len() + 1) * (scoped@.len() + 1) <= MAX_COST_ITEMS,
                    0 <= child_states@.len() <= scoped@.len(),
                    prices@.len() >= 0,
            ;
        }
        let child = window_cost(&child_states, flavors, prices, uc, begin, end);
        proof {
            lemma_children_total_bounds(
                gids,
                scoped@,
                prices@,
                uc,
                begin as int,
                end as int,
                k as int,
            );
            lemma_children_len_sum(gids, scoped@, k as int);
            lemma_len_sum_nonneg(gids, scoped@, k as int);
            assert(spec_children_len_sum(gids, scoped@, k + 1) == spec_children_len_sum(
                gids,
                scoped@,
                k as int,
            ) + child_states@.len());
            lemma_children_len_sum(gids, scoped@, k + 1);
            assert(bsl * spec_children_len_sum(gids, scoped@, k as int) * MAX_TIME
                * MAX_UNIT_PRICE + bsl * child_states@.len() * MAX_TIME * MAX_UNIT_PRICE == bsl
                * spec_children_len_sum(gids, scoped@, k + 1) * MAX_TIME * MAX_UNIT_PRICE
                && bsl * spec_children_len_sum(gids, scoped@, k + 1) * MAX_TIME * MAX_UNIT_PRICE
                <= bsl * scoped@.len() * MAX_TIME * MAX_UNIT_PRICE) by (nonlinear_arith)
                requires
                    spec_children_len_sum(gids, scoped@, k + 1) == spec_children_len_sum(
                        gids,
                        scoped@,
                        k as int,
                    ) + child_states@.len(),
                    0 <= spec_children_len_sum(gids, scoped@, k + 1) <= scoped@.len(),
                    0 <= spec_children_len_sum(gids, scoped@, k as int),
                    0 <= child_states@.len(),
                    bsl >= 1,
                    MAX_TIME > 0,
                    MAX_UNIT_PRICE > 0,
            ;
            assert(bsl * scoped@.len() * MAX_TIME * MAX_UNIT_PRICE <= MAX_COST_ITEMS * MAX_TIME
                * MAX_UNIT_PRICE) by (nonlinear_arith)
                requires
                    bsl <= prices@.len() + 1,
                    bsl >= 1,
                    0 <= scoped@.len(),
                    (prices@.len() + 1) * (scoped@.len() + 1) <= MAX_COST_ITEMS,
                    MAX_TIME > 0,
                    MAX_UNIT_PRICE > 0,
            ;
        }
        let child_total = child.0;
        total = total + child_total;
        servers.push(
            NamedServerCost {
                name: ids[k].clone(),
                cost: ServerCostServer { total: child.0, flavors: child.1 },
            },
        );
        proof {
            let sc = spec_server_children(scoped@, prices@, uc, begin as int, end as int);
            assert(sc.len() == gids.len());
            assert(sc[k as int] == (gids[k as int], spec_flat_cost(
                crate::server_state::spec_states_of_server(scoped@, gids[k as int]),
                prices@,
                uc,
                begin as int,
                end as int,
            ), spec_flavor_cost_map(
                crate::server_state::spec_states_of_server(scoped@, gids[k as int]),
                prices@,
                uc,
                begin as int,
                end as int,
            )));
            assert forall|j: int| 0 <= j <= k implies server_costs_view(servers@)[j] == sc.take(
                k + 1,
            )[j] by {
                assert(server_costs_view(servers@)[j] == (servers@[j].name@, servers@[j].cost.total as int, entries_view(servers@[j].cost.flavors@)));
                if j < k {
                    assert(server_costs_view(servers@.drop_last())[j] == (servers@[j].name@, servers@[j].cost.total as int, entries_view(servers@[j].cost.flavors@)));
                }
            }
            assert(server_costs_view(servers@) =~= sc.take(k + 1));
        }
        k += 1;
    }
    proof {
        let sc = spec_server_children(scoped@, prices@, uc, begin as int, end as int);
        assert(sc.take(n as int) =~= sc);
        lemma_children_total_bounds(gids, scoped@, prices@, uc, begin as int, end as int, n as int);
        lemma_children_len_sum(gids, scoped@, n as int);
        assert(bsl * spec_children_len_sum(gids, scoped@, n as int) * MAX_TIME * MAX_UNIT_PRICE
            <= bsl * scoped@.len() * MAX_TIME * MAX_UNIT_PRICE) by (nonlinear_arith)
            requires
                0 <= spec_children_len_sum(gids, scoped@, n as int) <= scoped@.len(),
                bsl >= 1,
                MAX_TIME > 0,
                MAX_UNIT_PRICE > 0,
        ;
    }
    ServerCostUser { total, flavors: fmap, servers }
}

/// Flat cost of one server's records over `[begin, end)`: zero when the
/// server's tier cannot be resolved.
pub fn calculate_server_cost_for_server_normal(
    states: &Vec<ServerState>,
    users: &Vec<crate::user::User>,
    projects: &Vec<crate::project::Project>,
    flavors: &Vec<Flavor>,
    prices: &Vec<FlavorPrice>,
    server_id: &String,
    begin: i64,
    end: i64,
) -> (r: ServerCostSimple)
    requires
        cost_inputs_wf(states@, prices@, begin, end),
    ensures
        r.total == spec_optional_cost(
            crate::server_state::spec_user_class_by_server(states@, users@, projects@, server_id@),
            crate::server_state::spec_states_of_server(states@, server_id@),
            prices@,
            begin as int,
            end as int,
        ),
{
    match crate::server_state::select_user_class_by_server(states, users, projects, server_id) {
        None => ServerCostSimple { total: 0 },
        Some(uc) => {
            let scoped = crate::server_state::select_server_states_by_server(states, server_id);
            proof {
                lemma_scope_budget(states@, scoped@, prices@, server_id@);
            }
            let r = window_cost(&scoped, flavors, prices, uc, begin, end);
            ServerCostSimple { total: r.0 }
        },
    }
}

/// The by-server scope of well-formed inputs satisfies the cost budget.
proof fn lemma_scope_budget(
    states: Seq<ServerState>,
    scoped: Seq<ServerState>,
    prices: Seq<FlavorPrice>,
    server_id: Seq<char>,
)
    requires
        states_wf(states),
        (prices.len() + 1) * (states.len() + 1) <= MAX_COST_ITEMS,
        scoped == crate::server_state::spec_states_of_server(states, server_id),
    ensures
        states_wf(scoped),
        (prices.len() + 1) * (scoped.len() + 1) <= MAX_COST_ITEMS,
{
    crate::consumption::lemma_states_of_server_subset(states, server_id);
    crate::consumption::lemma_scoped_states_wf(states, scoped);
    crate::server_state::lemma_states_of_server_len(states, server_id);
    assert((prices.len() + 1) * (scoped.len() + 1) <= MAX_COST_ITEMS) by (nonlinear_arith)
        requires
            (prices.len() + 1) * (states.len() + 1) <= MAX_COST_ITEMS,
            0 <= scoped.len() <= states.len(),
            prices.len() >= 0,
    ;
}

/// The by-user scope of well-formed inputs satisfies the cost budget.
proof fn lemma_user_scope_budget(
    states: Seq<ServerState>,
    scoped: Seq<ServerState>,
    prices: Seq<FlavorPrice>,
    user_id: int,
)
    requires
        states_wf(states),
        (prices.len() + 1) * (states.len() + 1) <= MAX_COST_ITEMS,
        scoped == crate::server_state::spec_states_of_user(states, user_id),
    ensures
        states_wf(scoped),
        (prices.len() + 1) * (scoped.len() + 1) <= MAX_COST_ITEMS,
{
    crate::consumption::lemma_states_of_user_subset(states, user_id);
    crate::consumption::lemma_scoped_states_wf(states, scoped);
    crate::server_state::lemma_states_of_user_len(states, user_id);
    assert((prices.len() + 1) * (scoped.len() + 1) <= MAX_COST_ITEMS) by (nonlinear_arith)
        requires
            (prices.len() + 1) * (states.len() + 1) <= MAX_COST_ITEMS,
            0 <= scoped.len() <= states.len(),
            prices.len() >= 0,
    ;
}

/// Detailed cost of one server's records: the flat total plus the signed
/// per-flavor breakdown; both empty when the tier cannot be resolved.
pub fn calculate_server_cost_for_server_detail(
    states: &Vec<ServerState>,
    users: &Vec<crate::user::User>,
    projects: &Vec<crate::project::Project>,
    flavors: &Vec<Flavor>,
    prices: &Vec<FlavorPrice>,
    server_id: &String,
    begin: i64,
    end: i64,
) -> (r: ServerCostServer)
    requires
        cost_inputs_wf(states@, prices@, begin, end),
    ensures
        r.total == spec_optional_cost(
            crate::server_state::spec_user_class_by_server(states@, users@, projects@, server_id@),
            crate::server_state::spec_states_of_server(states@, server_id@),
            prices@,
            begin as int,
            end as int,
        ),
        entries_view(r.flavors@) == spec_optional_flavor_map(
            crate::server_state::spec_user_class_by_server(states@, users@, projects@, server_id@),
            crate::server_state::spec_states_of_server(states@, server_id@),
            prices@,
            begin as int,
            end as int,
        ),
{
    match crate::server_state::select_user_class_by_server(states, users, projects, server_id) {
        None => {
            let r = ServerCostServer { total: 0, flavors: Vec::new() };
            proof {
                assert(entries_view(r.flavors@) =~= Seq::<(Seq<char>, int)>::empty());
            }
            r
        },
        Some(uc) => {
            let scoped = crate::server_state::select_server_states_by_server(states, server_id);
            proof {
                lemma_scope_budget(states@, scoped@, prices@, server_id@);
            }
            let r = window_cost(&scoped, flavors, prices, uc, begin, end);
            ServerCostServer { total: r.0, flavors: r.1 }
        },
    }
}

/// Flat cost of one user's records over `[begin, end)`: zero when the user's
/// tier cannot be resolved.
pub fn calculate_server_cost_for_user_normal(
    states: &Vec<ServerState>,
    users: &Vec<crate::user::User>,
    projects: &Vec<crate::project::Project>,
    flavors: &Vec<Flavor>,
    prices: &Vec<FlavorPrice>,
    user_id: u64,
    begin: i64,
    end: i64,
) -> (r: ServerCostSimple)
    requires
        cost_inputs_wf(states@, prices@, begin, end),
    ensures
        r.total == spec_optional_cost(
            crate::server_state::spec_user_class_by_user(users@, projects@, user_id as int),
            crate::server_state::spec_states_of_user(states@, user_id as int),
            prices@,
            begin as int,
            end as int,
        ),
{
    match crate::server_state::select_user_class_by_user(users, projects, user_id) {
        None => ServerCostSimple { total: 0 },
        Some(uc) => {
            let scoped = crate::server_state::select_server_states_by_user(states, user_id);
            proof {
                lemma_user_scope_budget(states@, scoped@, prices@, user_id as int);
            }
            let r = window_cost(&scoped, flavors, prices, uc, begin, end);
            ServerCostSimple { total: r.0 }
        },
    }
}

/// Detailed cost of one user's records: per-server children, their summed
/// totals, and the user's own per-flavor breakdown; all empty when the tier
/// cannot be resolved.
pub fn calculate_server_cost_for_user_detail(
    states: &Vec<ServerState>,
    users: &Vec<crate::user::User>,
    projects: &Vec<crate::project::Project>,
    flavors: &Vec<Flavor>,
    prices: &Vec<FlavorPrice>,
    user_id: u64,
    begin: i64,
    end: i64,
) -> (r: ServerCostUser)
    requires
        cost_inputs_wf(states@, prices@, begin, end),
    ensures
        ({
            let uc = crate::server_state::spec_user_class_by_user(users@, projects@, user_id as int);
            let scoped = crate::server_state::spec_states_of_user(states@, user_id as int);
            match uc {
                None => r.total == 0 && r.flavors@.len() == 0 && r.servers@.len() == 0,
                Some(c) => r.total == spec_user_detail_total(
                    scoped,
                    prices@,
                    c,
                    begin as int,
                    end as int,
                ) && entries_view(r.flavors@) == spec_flavor_cost_map(
                    scoped,
                    prices@,
                    c,
                    begin as int,
                    end as int,
                ) && server_costs_view(r.servers@) == spec_server_children(
                    scoped,
                    prices@,
                    c,
                    begin as int,
                    end as int,
                ),
            }
        }),
{
    match crate::server_state::select_user_class_by_user(users, projects, user_id) {
        None => ServerCostUser { total: 0, flavors: Vec::new(), servers: Vec::new() },
        Some(uc) => {
            let scoped = crate::server_state::select_server_states_by_user(states, user_id);
            proof {
                lemma_user_scope_budget(states@, scoped@, prices@, user_id as int);
            }
            user_window_detail(&scoped, flavors, prices, uc, begin, end)
        },
    }
}

/// One user's cost under their name.
#[derive(Debug)]
pub struct NamedUserCost {
    pub name: String,
    pub cost: ServerCostUser,
}

/// Cost of one project: total, per-flavor breakdown, and per-user breakdown.
#[derive(Debug)]
pub struct ServerCostProject {
    pub total: i128,
    pub flavors: Vec<FlavorEntry>,
    pub users: Vec<NamedUserCost>,
}

/// Ghost image of a per-user cost list: name, total, flavor map and server
/// children of each.
pub open spec fn user_costs_view(s: Seq<NamedUserCost>) -> Seq<
    (Seq<char>, int, Seq<(Seq<char>, int)>, Seq<(Seq<char>, int, Seq<(Seq<char>, int)>)>),
> {
    s.map(
        |i: int, e: NamedUserCost|
            (
                e.name@,
                e.cost.total as int,
                entries_view(e.cost.flavors@),
                server_costs_view(e.cost.servers@),
            ),
    )
}

/// The per-user cost children of a scope: for each owner with a record
/// overlapping the window, in order of first appearance, their detailed cost
/// over their own records.
pub open spec fn spec_user_children(
    scoped: Seq<ServerState>,
    prices: Seq<FlavorPrice>,
    uc: UserClass,
    begin: int,
    end: int,
) -> Seq<(Seq<char>, int, Seq<(Seq<char>, int)>, Seq<(Seq<char>, int, Seq<(Seq<char>, int)>)>)> {
    crate::consumption::spec_active_usernames(scoped, begin, end).map(
        |i: int, name: Seq<char>|
            (
                name,
                spec_user_detail_total(
                    crate::server_state::spec_states_of_username(scoped, name),
                    prices,
                    uc,
                    begin,
                    end,
                ),
                spec_flavor_cost_map(
                    crate::server_state::spec_states_of_username(scoped, name),
                    prices,
                    uc,
                    begin,
                    end,
                ),
                spec_server_children(
                    crate::server_state::spec_states_of_username(scoped, name),
                    prices,
                    uc,
                    begin,
                    end,
                ),
            ),
    )
}

/// Sum of the first `k` per-user child totals.
pub open spec fn spec_user_children_total_upto(
    names: Seq<Seq<char>>,
    scoped: Seq<ServerState>,
    prices: Seq<FlavorPrice>,
    uc: UserClass,
    begin: int,
    end: int,
    k: int,
) -> int
    decreases k,
{
    if k <= 0 {
        0
    } else {
        spec_user_children_total_upto(names, scoped, prices, uc, begin, end, k - 1)
            + spec_user_detail_total(
            crate::server_state::spec_states_of_username(scoped, names[k - 1]),
            prices,
            uc,
            begin,
            end,
        )
    }
}

/// Total of a project's window: the sum of its users' totals, which are in
/// turn sums over their servers.
pub open spec fn spec_project_detail_total(
    scoped: Seq<ServerState>,
    prices: Seq<FlavorPrice>,
    uc: UserClass,
    begin: int,
    end: int,
) -> int {
    let names = crate::consumption::spec_active_usernames(scoped, begin, end);
    spec_user_children_total_upto(names, scoped, prices, uc, begin, end, names.len() as int)
}

/// Combined length of the first `k` by-name scopes.
pub open spec fn spec_name_len_sum(names: Seq<Seq<char>>, ss: Seq<ServerState>, k: int) -> int
    decreases k,
{
    if k <= 0 {
        0
    } else {
        spec_name_len_sum(names, ss, k - 1) + crate::server_state::spec_states_of_username(
            ss,
            names[k - 1],
        ).len()
    }
}

/// The active-user list never repeats a name.
pub proof fn lemma_active_usernames_distinct(ss: Seq<ServerState>, lo: int, hi: int)
    ensures
        forall|a: int, b: int|
            0 <= a < b < crate::consumption::spec_active_usernames(ss, lo, hi).len()
                ==> crate::consumption::spec_active_usernames(ss, lo, hi)[a]
                != crate::consumption::spec_active_usernames(ss, lo, hi)[b],
    decreases ss.len(),
{
    if ss.len() > 0 {
        lemma_active_usernames_distinct(ss.drop_last(), lo, hi);
        let prev = crate::consumption::spec_active_usernames(ss.drop_last(), lo, hi);
        let cur = crate::consumption::spec_active_usernames(ss, lo, hi);
        assert forall|a: int, b: int| 0 <= a < b < cur.len() implies cur[a] != cur[b] by {
            if b == cur.len() - 1 && cur.len() > prev.len() {
                assert(!prev.contains(ss.last().username@));
                assert(prev[a] == cur[a]);
            }
        }
    }
}

/// Pairwise distinct name scopes cover each record at most once.
pub proof fn lemma_name_len_sum(names: Seq<Seq<char>>, ss: Seq<ServerState>, k: int)
    requires
        0 <= k <= names.len(),
        forall|a: int, b: int| 0 <= a < b < names.len() ==> names[a] != names[b],
    ensures
        0 <= spec_name_len_sum(names, ss, k) <= ss.len(),
    decreases ss.len(),
{
    lemma_name_len_sum_nonneg(names, ss, k);
    if ss.len() == 0 {
        lemma_name_len_sum_empty(names, ss, k);
    } else {
        lemma_name_len_sum(names, ss.drop_last(), k);
        lemma_name_len_sum_step(names, ss, k);
    }
}

proof fn lemma_name_len_sum_nonneg(names: Seq<Seq<char>>, ss: Seq<ServerState>, k: int)
    ensures
        0 <= spec_name_len_sum(names, ss, k),
    decreases k,
{
    if k > 0 {
        lemma_name_len_sum_nonneg(names, ss, k - 1);
    }
}

proof fn lemma_name_len_sum_empty(names: Seq<Seq<char>>, ss: Seq<ServerState>, k: int)
    requires
        ss.len() == 0,
    ensures
        spec_name_len_sum(names, ss, k) == 0,
    decreases k,
{
    if k > 0 {
        lemma_name_len_sum_empty(names, ss, k - 1);
    }
}

proof fn lemma_name_len_sum_step(names: Seq<Seq<char>>, ss: Seq<ServerState>, k: int)
    requires
        0 <= k <= names.len(),
        ss.len() > 0,
        forall|a: int, b: int| 0 <= a < b < names.len() ==> names[a] != names[b],
    ensures
        spec_name_len_sum(names, ss, k) == spec_name_len_sum(names, ss.drop_last(), k) + if (
        exists|j: int| 0 <= j < k && names[j] == ss.last().username@) {
            1int
        } else {
            0int
        },
    decreases k,
{
    if k > 0 {
        lemma_name_len_sum_step(names, ss, k - 1);
        if names[k - 1] == ss.last().username@ {
            assert forall|j: int| 0 <= j < k - 1 implies names[j] != ss.last().username@ by {
                assert(names[j] != names[k - 1]);
            }
            assert(exists|j: int| 0 <= j < k && names[j] == ss.last().username@) by {
                assert(names[k - 1] == ss.last().username@);
            }
        } else {
            assert((exists|j: int| 0 <= j < k && names[j] == ss.last().username@) == (exists|j: int|
                0 <= j < k - 1 && names[j] == ss.last().username@));
        }
    }
}

/// A user's detailed total stays within one worst-case period per price row
/// over their records.
pub proof fn lemma_user_detail_total_bounds(
    scoped: Seq<ServerState>,
    prices: Seq<FlavorPrice>,
    uc: UserClass,
    begin: int,
    end: int,
)
    requires
        states_wf(scoped),
        prices_sorted_desc(prices),
        prices_distinct_starts(prices),
        prices_wf(prices),
        0 <= begin <= end <= MAX_TIME,
    ensures
        0 <= spec_user_detail_total(scoped, prices, uc, begin, end) <= spec_bounds(
            prices,
            begin,
            end,
        ).len() * scoped.len() * MAX_TIME * MAX_UNIT_PRICE,
{
    let ids = crate::consumption::spec_active_servers(scoped, begin, end);
    lemma_active_servers_distinct(scoped, begin, end);
    lemma_children_total_bounds(ids, scoped, prices, uc, begin, end, ids.len() as int);
    lemma_children_len_sum(ids, scoped, ids.len() as int);
    let bsl = spec_bounds(prices, begin, end).len() as int;
    crate::price_periods::lemma_bounds_len(prices, begin, end);
    assert(bsl * spec_children_len_sum(ids, scoped, ids.len() as int) * MAX_TIME * MAX_UNIT_PRICE
        <= bsl * scoped.len() * MAX_TIME * MAX_UNIT_PRICE) by (nonlinear_arith)
        requires
            0 <= spec_children_len_sum(ids, scoped, ids.len() as int) <= scoped.len(),
            bsl >= 1,
            MAX_TIME > 0,
            MAX_UNIT_PRICE > 0,
    ;
}

/// The summed totals of the first `k` user children stay within the pair
/// budget's worst case.
pub proof fn lemma_user_children_total_bounds(
    names: Seq<Seq<char>>,
    scoped: Seq<ServerState>,
    prices: Seq<FlavorPrice>,
    uc: UserClass,
    begin: int,
    end: int,
    k: int,
)
    requires
        0 <= k <= names.len(),
        forall|a: int, b: int| 0 <= a < b < names.len() ==> names[a] != names[b],
        states_wf(scoped),
        prices_sorted_desc(prices),
        prices_distinct_starts(prices),
        prices_wf(prices),
        0 <= begin <= end <= MAX_TIME,
    ensures
        0 <= spec_user_children_total_upto(names, scoped, prices, uc, begin, end, k)
            <= spec_bounds(prices, begin, end).len() * spec_name_len_sum(names, scoped, k)
            * MAX_TIME * MAX_UNIT_PRICE,
    decreases k,
{
    let bsl = spec_bounds(prices, begin, end).len() as int;
    if k == 0 {
        assert(bsl * 0 * MAX_TIME * MAX_UNIT_PRICE == 0) by (nonlinear_arith);
    } else {
        lemma_user_children_total_bounds(names, scoped, prices, uc, begin, end, k - 1);
        let child = crate::server_state::spec_states_of_username(scoped, names[k - 1]);
        assert(states_wf(child)) by {
            crate::consumption::lemma_states_of_username_subset(scoped, names[k - 1]);
            crate::consumption::lemma_scoped_states_wf(scoped, child);
        }
        lemma_user_detail_total_bounds(child, prices, uc, begin, end);
        lemma_name_len_sum_nonneg(names, scoped, k - 1);
        assert(bsl * spec_name_len_sum(names, scoped, k - 1) * MAX_TIME * MAX_UNIT_PRICE + bsl
            * child.len() * MAX_TIME * MAX_UNIT_PRICE == bsl * spec_name_len_sum(names, scoped, k)
            * MAX_TIME * MAX_UNIT_PRICE) by (nonlinear_arith)
            requires spec_name_len_sum(names, scoped, k) == spec_name_len_sum(names, scoped, k - 1)
                + child.len();
    }
}

/// Detailed cost of pre-scoped project records: per-user children in order
/// of first appearance, the total as the sum of their totals, and the
/// project's own per-flavor map.
fn project_window_detail(
    scoped: &Vec<ServerState>,
    flavors: &Vec<Flavor>,
    prices: &Vec<FlavorPrice>,
    uc: UserClass,
    begin: i64,
    end: i64,
) -> (r: ServerCostProject)
    requires
        cost_inputs_wf(scoped@, prices@, begin, end),
    ensures
        r.total == spec_project_detail_total(scoped@, prices@, uc, begin as int, end as int),
        entries_view(r.flavors@) == spec_flavor_cost_map(
            scoped@,
            prices@,
            uc,
            begin as int,
            end as int,
        ),
        user_costs_view(r.users@) == spec_user_children(
            scoped@,
            prices@,
            uc,
            begin as int,
            end as int,
        ),
        0 <= r.total <= spec_bounds(prices@, begin as int, end as int).len() * scoped@.len()
            * MAX_TIME * MAX_UNIT_PRICE,
{
    let whole = window_cost(scoped, flavors, prices, uc, begin, end);
    let fmap = whole.1;
    let names = crate::consumption::active_usernames(scoped, begin, end);
    let ghost gnames = crate::consumption::spec_active_usernames(scoped@, begin as int, end as int);
    let ghost bsl = spec_bounds(prices@, begin as int, end as int).len() as int;
    proof {
        lemma_active_usernames_distinct(scoped@, begin as int, end as int);
        crate::price_periods::lemma_bounds_len(prices@, begin as int, end as int);
    }
    let n = names.len();
    let mut users: Vec<NamedUserCost> = Vec::new();
    let mut total: i128 = 0;
    let mut k: usize = 0;
    while k < n
        invariant
            cost_inputs_wf(scoped@, prices@, begin, end),
            n == names@.len(),
            names@.map(|i: int, s: String| s@) == gnames,
            gnames == crate::consumption::spec_active_usernames(scoped@, begin as int, end as int),
            forall|a: int, b: int| 0 <= a < b < gnames.len() ==> gnames[a] != gnames[b],
            bsl == spec_bounds(prices@, begin as int, end as int).len(),
            1 <= bsl <= prices@.len() + 1,
            0 <= k <= n,
            users@.len() == k,
            user_costs_view(users@) =~= spec_user_children(
                scoped@,
                prices@,
                uc,
                begin as int,
                end as int,
            ).take(k as int),
            total == spec_user_children_total_upto(
                gnames,
                scoped@,
                prices@,
                uc,
                begin as int,
                end as int,
                k as int,
            ),
        decreases n - k,
    {
        let child_states = crate::server_state::select_server_states_by_username(scoped, &names[k]);
        proof {
            assert(names@.map(|i: int, s: String| s@)[k as int] == names@[k as int]@);
            crate::consumption::lemma_states_of_username_subset(scoped@, names@[k as int]@);
            crate::consumption::lemma_scoped_states_wf(scoped@, child_states@);
            crate::server_state::lemma_states_of_username_len(scoped@, names@[k as int]@);
            assert((prices@.len() + 1) * (child_states@.len() + 1) <= MAX_COST_ITEMS)
                by (nonlinear_arith)
                requires
                    (prices@.len() + 1) * (scoped@.len() + 1) <= MAX_COST_ITEMS,
                    0 <= child_states@.len() <= scoped@.len(),
                    prices@.len() >= 0,
            ;
        }
        let child = user_window_detail(&child_states, flavors, prices, uc, begin, end);
        proof {
            lemma_user_children_total_bounds(
                gnames,
                scoped@,
                prices@,
                uc,
                begin as int,
                end as int,
                k as int,
            );
            lemma_name_len_sum(gnames, scoped@, k as int);
            lemma_name_len_sum_nonneg(gnames, scoped@, k as int);
            assert(spec_name_len_sum(gnames, scoped@, k + 1) == spec_name_len_sum(
                gnames,
                scoped@,
                k as int,
            ) + child_states@.len());
            lemma_name_len_sum(gnames, scoped@, k + 1);
            assert(bsl * spec_name_len_sum(gnames, scoped@, k as int) * MAX_TIME * MAX_UNIT_PRICE
                + bsl * child_states@.len() * MAX_TIME * MAX_UNIT_PRICE == bsl
                * spec_name_len_sum(gnames, scoped@, k + 1) * MAX_TIME * MAX_UNIT_PRICE && bsl
                * spec_name_len_sum(gnames, scoped@, k + 1) * MAX_TIME * MAX_UNIT_PRICE <= bsl
                * scoped@.len() * MAX_TIME * MAX_UNIT_PRICE) by (nonlinear_arith)
                requires
                    spec_name_len_sum(gnames, scoped@, k + 1) == spec_name_len_sum(
                        gnames,
                        scoped@,
                        k as int,
                    ) + child_states@.len(),
                    0 <= spec_name_len_sum(gnames, scoped@, k + 1) <= scoped@.len(),
                    0 <= spec_name_len_sum(gnames, scoped@, k as int),
                    0 <= child_states@.len(),
                    bsl >= 1,
                    MAX_TIME > 0,
                    MAX_UNIT_PRICE > 0,
            ;
            assert(bsl * scoped@.len() * MAX_TIME * MAX_UNIT_PRICE <= MAX_COST_ITEMS * MAX_TIME
                * MAX_UNIT_PRICE) by (nonlinear_arith)
                requires
                    bsl <= prices@.len() + 1,
                    bsl >= 1,
                    0 <= scoped@.len(),
                    (prices@.len() + 1) * (scoped@.len() + 1) <= MAX_COST_ITEMS,
                    MAX_TIME > 0,
                    MAX_UNIT_PRICE > 0,
            ;
        }
        total = total + child.total;
        users.push(NamedUserCost { name: names[k].clone(), cost: child });
        proof {
            let ucl = spec_user_children(scoped@, prices@, uc, begin as int, end as int);
            assert(ucl.len() == gnames.len());
            assert(ucl[k as int] == (gnames[k as int], spec_user_detail_total(
                crate::server_state::spec_states_of_username(scoped@, gnames[k as int]),
                prices@,
                uc,
                begin as int,
                end as int,
            ), spec_flavor_cost_map(
                crate::server_state::spec_states_of_username(scoped@, gnames[k as int]),
                prices@,
                uc,
                begin as int,
                end as int,
            ), spec_server_children(
                crate::server_state::spec_states_of_username(scoped@, gnames[k as int]),
                prices@,
                uc,
                begin as int,
                end as int,
            )));
            assert forall|j: int| 0 <= j <= k implies user_costs_view(users@)[j] == ucl.take(
                k + 1,
            )[j] by {
                assert(user_costs_view(users@)[j] == (users@[j].name@, users@[j].cost.total as int, entries_view(users@[j].cost.flavors@), server_costs_view(users@[j].cost.servers@)));
                if j < k {
                    assert(user_costs_view(users@.drop_last())[j] == (users@[j].name@, users@[j].cost.total as int, entries_view(users@[j].cost.flavors@), server_costs_view(users@[j].cost.servers@)));
                }
            }
            assert(user_costs_view(users@) =~= ucl.take(k + 1));
        }
        k += 1;
    }
    proof {
        let ucl = spec_user_children(scoped@, prices@, uc, begin as int, end as int);
        assert(ucl.take(n as int) =~= ucl);
        lemma_user_children_total_bounds(
            gnames,
            scoped@,
            prices@,
            uc,
            begin as int,
            end as int,
            n as int,
        );
        lemma_name_len_sum(gnames, scoped@, n as int);
        assert(bsl * spec_name_len_sum(gnames, scoped@, n as int) * MAX_TIME * MAX_UNIT_PRICE
            <= bsl * scoped@.len() * MAX_TIME * MAX_UNIT_PRICE) by (nonlinear_arith)
            requires
                0 <= spec_name_len_sum(gnames, scoped@, n as int) <= scoped@.len(),
                bsl >= 1,
                MAX_TIME > 0,
                MAX_UNIT_PRICE > 0,
        ;
    }
    ServerCostProject { total, flavors: fmap, users }
}

/// The by-project scope of well-formed inputs satisfies the cost budget.
proof fn lemma_project_scope_budget(
    states: Seq<ServerState>,
    scoped: Seq<ServerState>,
    users: Seq<crate::user::User>,
    prices: Seq<FlavorPrice>,
    project_id: int,
)
    requires
        states_wf(states),
        (prices.len() + 1) * (states.len() + 1) <= MAX_COST_ITEMS,
        scoped == crate::server_state::spec_states_of_project(states, users, project_id),
    ensures
        states_wf(scoped),
        (prices.len() + 1) * (scoped.len() + 1) <= MAX_COST_ITEMS,
{
    crate::server_state::lemma_states_of_project_props(states, users, project_id);
    crate::consumption::lemma_scoped_states_wf(states, scoped);
    assert((prices.len() + 1) * (scoped.len() + 1) <= MAX_COST_ITEMS) by (nonlinear_arith)
        requires
            (prices.len() + 1) * (states.len() + 1) <= MAX_COST_ITEMS,
            0 <= scoped.len() <= states.len(),
            prices.len() >= 0,
    ;
}

/// Flat cost of one project's records over `[begin, end)`: zero when the
/// project is unknown.
pub fn calculate_server_cost_for_project_normal(
    states: &Vec<ServerState>,
    users: &Vec<crate::user::User>,
    projects: &Vec<crate::project::Project>,
    flavors: &Vec<Flavor>,
    prices: &Vec<FlavorPrice>,
    project_id: u64,
    begin: i64,
    end: i64,
) -> (r: ServerCostSimple)
    requires
        cost_inputs_wf(states@, prices@, begin, end),
    ensures
        r.total == spec_optional_cost(
            crate::server_state::spec_user_class_by_project(projects@, project_id as int),
            crate::server_state::spec_states_of_project(states@, users@, project_id as int),
            prices@,
            begin as int,
            end as int,
        ),
{
    match crate::server_state::select_user_class_by_project(projects, project_id) {
        None => ServerCostSimple { total: 0 },
        Some(uc) => {
            let scoped = crate::server_state::select_server_states_by_project(
                states,
                users,
                project_id,
            );
            proof {
                lemma_project_scope_budget(states@, scoped@, users@, prices@, project_id as int);
            }
            let r = window_cost(&scoped, flavors, prices, uc, begin, end);
            ServerCostSimple { total: r.0 }
        },
    }
}

/// Detailed cost of one project's records: per-user children, their summed
/// totals, and the project's own per-flavor breakdown; all empty when the
/// project is unknown.
pub fn calculate_server_cost_for_project_detail(
    states: &Vec<ServerState>,
    users: &Vec<crate::user::User>,
    projects: &Vec<crate::project::Project>,
    flavors: &Vec<Flavor>,
    prices: &Vec<FlavorPrice>,
    project_id: u64,
    begin: i64,
    end: i64,
) -> (r: ServerCostProject)
    requires
        cost_inputs_wf(states@, prices@, begin, end),
    ensures
        ({
            let uc = crate::server_state::spec_user_class_by_project(projects@, project_id as int);
            let scoped = crate::server_state::spec_states_of_project(
                states@,
                users@,
                project_id as int,
            );
            match uc {
                None => r.total == 0 && r.flavors@.len() == 0 && r.users@.len() == 0,
                Some(c) => r.total == spec_project_detail_total(
                    scoped,
                    prices@,
                    c,
                    begin as int,
                    end as int,
                ) && entries_view(r.flavors@) == spec_flavor_cost_map(
                    scoped,
                    prices@,
                    c,
                    begin as int,
                    end as int,
                ) && user_costs_view(r.users@) == spec_user_children(
                    scoped,
                    prices@,
                    c,
                    begin as int,
                    end as int,
                ),
            }
        }),
{
    match crate::server_state::select_user_class_by_project(projects, project_id) {
        None => ServerCostProject { total: 0, flavors: Vec::new(), users: Vec::new() },
        Some(uc) => {
            let scoped = crate::server_state::select_server_states_by_project(
                states,
                users,
                project_id,
            );
            proof {
                lemma_project_scope_budget(states@, scoped@, users@, prices@, project_id as int);
            }
            project_window_detail(&scoped, flavors, prices, uc, begin, end)
        },
    }
}

/// Adding one map into another, entry by entry.
pub open spec fn spec_merge_add(
    acc: Seq<(Seq<char>, int)>,
    m: Seq<(Seq<char>, int)>,
    j: int,
) -> Seq<(Seq<char>, int)>
    decreases j,
{
    if j <= 0 {
        acc
    } else {
        let prev = spec_merge_add(acc, m, j - 1);
        spec_upsert(prev, m[j - 1].0, m[j - 1].1)
    }
}

/// Merging adds each name's amount from the merged map and touches no other
/// name.
pub proof fn lemma_merge_add_lookup(acc: Seq<(Seq<char>, int)>, m: Seq<(Seq<char>, int)>, j: int)
    requires
        keys_unique(acc),
        keys_unique(m),
        0 <= j <= m.len(),
    ensures
        keys_unique(spec_merge_add(acc, m, j)),
        forall|g: Seq<char>|
            #[trigger] lookup(spec_merge_add(acc, m, j), g) == lookup(acc, g) + if 0 <= key_index(
                m,
                g,
            ) < j {
                lookup(m, g)
            } else {
                0
            },
    decreases j,
{
    if j > 0 {
        lemma_merge_add_lookup(acc, m, j - 1);
        let prev = spec_merge_add(acc, m, j - 1);
        let key = m[j - 1].0;
        let d = m[j - 1].1;
        let merged = spec_merge_add(acc, m, j);
        assert(merged == spec_upsert(prev, key, d));
        lemma_upsert(prev, key, d);
        lemma_key_index(m, key);
        let ki = key_index(m, key);
        if ki != j - 1 {
            assert(m[ki].0 == key);
            assert(false);
        }
        assert(lookup(m, key) == m[j - 1].1);
        assert forall|g: Seq<char>| true implies #[trigger] lookup(merged, g) == lookup(acc, g)
            + if 0 <= key_index(m, g) < j {
            lookup(m, g)
        } else {
            0
        } by {
            lemma_key_index(m, g);
            if g == key {
                assert(lookup(merged, g) == lookup(prev, g) + d);
            } else {
                assert(lookup(merged, g) == lookup(prev, g));
                if key_index(m, g) == j - 1 {
                    assert(m[j - 1].0 == g);
                    assert(false);
                }
            }
        }
    }
}

/// One project's cost under its name.
#[derive(Debug)]
pub struct NamedProjectCost {
    pub name: String,
    pub cost: ServerCostProject,
}

/// Cost over everything: total, per-flavor breakdown, and per-project
/// breakdown.
#[derive(Debug)]
pub struct ServerCostAll {
    pub total: i128,
    pub flavors: Vec<FlavorEntry>,
    pub projects: Vec<NamedProjectCost>,
}

/// Ghost image of a per-project cost list.
pub open spec fn project_costs_view(s: Seq<NamedProjectCost>) -> Seq<
    (
        Seq<char>,
        int,
        Seq<(Seq<char>, int)>,
        Seq<(Seq<char>, int, Seq<(Seq<char>, int)>, Seq<(Seq<char>, int, Seq<(Seq<char>, int)>)>)>,
    ),
> {
    s.map(
        |i: int, e: NamedProjectCost|
            (
                e.name@,
                e.cost.total as int,
                entries_view(e.cost.flavors@),
                user_costs_view(e.cost.users@),
            ),
    )
}

/// The distinct project names of the project list with the tier of each, in
/// order of first appearance.
pub open spec fn spec_project_entries(projects: Seq<crate::project::Project>) -> Seq<
    (Seq<char>, UserClass),
>
    decreases projects.len(),
{
    if projects.len() == 0 {
        Seq::empty()
    } else {
        let prev = spec_project_entries(projects.drop_last());
        if exists|j: int|
            0 <= j < projects.len() - 1 && (#[trigger] projects[j]).name@ == projects.last().name@ {
            prev
        } else {
            prev.push((projects.last().name@, projects.last().user_class))
        }
    }
}

/// The per-project cost children over everything: for each known project, in
/// order of first appearance, the detailed cost of its records under its own
/// tier.
pub open spec fn spec_project_children(
    entries: Seq<(Seq<char>, UserClass)>,
    states: Seq<ServerState>,
    users: Seq<crate::user::User>,
    prices: Seq<FlavorPrice>,
    begin: int,
    end: int,
) -> Seq<
    (
        Seq<char>,
        int,
        Seq<(Seq<char>, int)>,
        Seq<(Seq<char>, int, Seq<(Seq<char>, int)>, Seq<(Seq<char>, int, Seq<(Seq<char>, int)>)>)>,
    ),
> {
    entries.map(
        |i: int, e: (Seq<char>, UserClass)|
            (
                e.0,
                spec_project_detail_total(
                    crate::server_state::spec_states_of_project_name(states, users, e.0),
                    prices,
                    e.1,
                    begin,
                    end,
                ),
                spec_flavor_cost_map(
                    crate::server_state::spec_states_of_project_name(states, users, e.0),
                    prices,
                    e.1,
                    begin,
                    end,
                ),
                spec_user_children(
                    crate::server_state::spec_states_of_project_name(states, users, e.0),
                    prices,
                    e.1,
                    begin,
                    end,
                ),
            ),
    )
}

/// Sum of the first `k` projects' flat window costs.
pub open spec fn spec_all_normal_upto(
    entries: Seq<(Seq<char>, UserClass)>,
    states: Seq<ServerState>,
    users: Seq<crate::user::User>,
    prices: Seq<FlavorPrice>,
    begin: int,
    end: int,
    k: int,
) -> int
    decreases k,
{
    if k <= 0 {
        0
    } else {
        spec_all_normal_upto(entries, states, users, prices, begin, end, k - 1) + spec_flat_cost(
            crate::server_state::spec_states_of_project_name(states, users, entries[k - 1].0),
            prices,
            entries[k - 1].1,
            begin,
            end,
        )
    }
}

/// Sum of the first `k` projects' detailed totals.
pub open spec fn spec_all_detail_upto(
    entries: Seq<(Seq<char>, UserClass)>,
    states: Seq<ServerState>,
    users: Seq<crate::user::User>,
    prices: Seq<FlavorPrice>,
    begin: int,
    end: int,
    k: int,
) -> int
    decreases k,
{
    if k <= 0 {
        0
    } else {
        spec_all_detail_upto(entries, states, users, prices, begin, end, k - 1)
            + spec_project_detail_total(
            crate::server_state::spec_states_of_project_name(states, users, entries[k - 1].0),
            prices,
            entries[k - 1].1,
            begin,
            end,
        )
    }
}

/// The merged per-flavor map of the first `k` projects, each priced under its
/// own tier.
pub open spec fn spec_all_flavor_map_upto(
    entries: Seq<(Seq<char>, UserClass)>,
    states: Seq<ServerState>,
    users: Seq<crate::user::User>,
    prices: Seq<FlavorPrice>,
    begin: int,
    end: int,
    k: int,
) -> Seq<(Seq<char>, int)>
    decreases k,
{
    if k <= 0 {
        Seq::empty()
    } else {
        let acc = spec_all_flavor_map_upto(entries, states, users, prices, begin, end, k - 1);
        let m = spec_flavor_cost_map(
            crate::server_state::spec_states_of_project_name(states, users, entries[k - 1].0),
            prices,
            entries[k - 1].1,
            begin,
            end,
        );
        spec_merge_add(acc, m, m.len() as int)
    }
}

/// Signed flavor cost summed over the first `k` projects.
pub open spec fn spec_all_flavor_cost_upto(
    entries: Seq<(Seq<char>, UserClass)>,
    states: Seq<ServerState>,
    users: Seq<crate::user::User>,
    prices: Seq<FlavorPrice>,
    g: Seq<char>,
    begin: int,
    end: int,
    k: int,
) -> int
    decreases k,
{
    if k <= 0 {
        0
    } else {
        spec_all_flavor_cost_upto(entries, states, users, prices, g, begin, end, k - 1)
            + spec_flavor_cost(
            crate::server_state::spec_states_of_project_name(states, users, entries[k - 1].0),
            prices,
            entries[k - 1].1,
            g,
            begin,
            end,
        )
    }
}

/// A per-window flavor map has pairwise distinct names and holds each name's
/// signed flavor cost.
pub proof fn lemma_flavor_cost_map_props(
    ss: Seq<ServerState>,
    prices: Seq<FlavorPrice>,
    uc: UserClass,
    begin: int,
    end: int,
)
    ensures
        keys_unique(spec_flavor_cost_map(ss, prices, uc, begin, end)),
        forall|g: Seq<char>|
            #[trigger] lookup(spec_flavor_cost_map(ss, prices, uc, begin, end), g)
                == spec_flavor_cost(ss, prices, uc, g, begin, end),
{
    let rows = spec_prices_until(prices, end);
    let bs = spec_bounds(prices, begin, end);
    lemma_flavor_map_props(ss, rows, uc, bs, end, bs.len() as int);
}

/// After `k` projects the merged map holds, under every name, the signed
/// flavor cost summed over those projects.
pub proof fn lemma_all_flavor_map_props(
    entries: Seq<(Seq<char>, UserClass)>,
    states: Seq<ServerState>,
    users: Seq<crate::user::User>,
    prices: Seq<FlavorPrice>,
    begin: int,
    end: int,
    k: int,
)
    requires
        0 <= k,
    ensures
        keys_unique(spec_all_flavor_map_upto(entries, states, users, prices, begin, end, k)),
        forall|g: Seq<char>|
            #[trigger] lookup(spec_all_flavor_map_upto(entries, states, users, prices, begin, end, k), g)
                == spec_all_flavor_cost_upto(entries, states, users, prices, g, begin, end, k),
    decreases k,
{
    if k > 0 {
        lemma_all_flavor_map_props(entries, states, users, prices, begin, end, k - 1);
        let acc = spec_all_flavor_map_upto(entries, states, users, prices, begin, end, k - 1);
        let child = crate::server_state::spec_states_of_project_name(
            states,
            users,
            entries[k - 1].0,
        );
        let m = spec_flavor_cost_map(child, prices, entries[k - 1].1, begin, end);
        lemma_flavor_cost_map_props(child, prices, entries[k - 1].1, begin, end);
        lemma_merge_add_lookup(acc, m, m.len() as int);
        assert forall|g: Seq<char>| true implies #[trigger] lookup(
            spec_all_flavor_map_upto(entries, states, users, prices, begin, end, k),
            g,
        ) == spec_all_flavor_cost_upto(entries, states, users, prices, g, begin, end, k) by {
            lemma_key_index(m, g);
            if 0 <= key_index(m, g) < m.len() {
                assert(lookup(m, g) == spec_flavor_cost(child, prices, entries[k - 1].1, g, begin, end));
            } else {
                assert(!has_key(m, g));
                assert(lookup(m, g) == 0);
                assert(spec_flavor_cost(child, prices, entries[k - 1].1, g, begin, end) == lookup(
                    m,
                    g,
                ));
            }
        }
    }
}

/// What holds of every input an everything-scope cost query accepts: the
/// per-scope conditions plus a budget on project-period-record triples.
pub open spec fn all_cost_inputs_wf(
    ss: Seq<ServerState>,
    ps: Seq<FlavorPrice>,
    projects: Seq<crate::project::Project>,
    begin: i64,
    end: i64,
) -> bool {
    &&& cost_inputs_wf(ss, ps, begin, end)
    &&& (projects.len() + 1) * ((ps.len() + 1) * (ss.len() + 1)) <= MAX_COST_ITEMS
}

/// A signed flavor cost stays within one worst-case period per price row.
pub proof fn lemma_flavor_cost_window_bounds(
    ss: Seq<ServerState>,
    prices: Seq<FlavorPrice>,
    uc: UserClass,
    g: Seq<char>,
    begin: int,
    end: int,
)
    requires
        states_wf(ss),
        prices_sorted_desc(prices),
        prices_distinct_starts(prices),
        prices_wf(prices),
        0 <= begin <= end <= MAX_TIME,
    ensures
        -(spec_bounds(prices, begin, end).len() * ss.len() * MAX_TIME * MAX_UNIT_PRICE)
            <= spec_flavor_cost(ss, prices, uc, g, begin, end) <= spec_bounds(
            prices,
            begin,
            end,
        ).len() * ss.len() * MAX_TIME * MAX_UNIT_PRICE,
{
    let rows = spec_prices_until(prices, end);
    let bs = spec_bounds(prices, begin, end);
    lemma_until_props(prices, end);
    lemma_bounds_range(prices, begin, end);
    lemma_flavor_cost_bounds(ss, rows, uc, g, bs, end, bs.len() as int);
}

/// There are at most as many distinct project names as projects.
pub proof fn lemma_project_entries_len(projects: Seq<crate::project::Project>)
    ensures
        spec_project_entries(projects).len() <= projects.len(),
    decreases projects.len(),
{
    if projects.len() > 0 {
        lemma_project_entries_len(projects.drop_last());
    }
}

/// One list entry per distinct project name, with the first holder's tier.
#[derive(Debug)]
pub struct ProjectEntry {
    pub name: String,
    pub user_class: UserClass,
}

/// Ghost image of the deduplicated project list.
pub open spec fn pentries_view(s: Seq<ProjectEntry>) -> Seq<(Seq<char>, UserClass)> {
    s.map(|i: int, e: ProjectEntry| (e.name@, e.user_class))
}

/// The distinct project names with their tiers, in order of first appearance.
fn project_entries(projects: &Vec<crate::project::Project>) -> (r: Vec<ProjectEntry>)
    ensures
        pentries_view(r@) == spec_project_entries(projects@),
{
    let mut r: Vec<ProjectEntry> = Vec::new();
    let n = projects.len();
    let mut i: usize = 0;
    while i < n
        invariant
            n == projects@.len(),
            0 <= i <= n,
            pentries_view(r@) =~= spec_project_entries(projects@.take(i as int)),
        decreases n - i,
    {
        let mut seen = false;
        let mut j: usize = 0;
        while j < i
            invariant
                n == projects@.len(),
                0 <= j <= i < n,
                seen == exists|a: int|
                    0 <= a < j && (#[trigger] projects@[a]).name@ == projects@[i as int].name@,
            decreases i - j,
        {
            if projects[j].name == projects[i].name {
                proof {
                    assert(projects@[j as int].name@ == projects@[i as int].name@);
                }
                seen = true;
            }
            j += 1;
        }
        if !seen {
            r.push(ProjectEntry { name: projects[i].name.clone(), user_class: projects[i].user_class });
        }
        proof {
            assert(projects@.take(i + 1).drop_last() =~= projects@.take(i as int));
            assert(projects@.take(i + 1).last() == projects@[i as int]);
            assert((exists|a: int|
                0 <= a < i && (#[trigger] projects@.take(i + 1)[a]).name@ == projects@[i as int].name@)
                == (exists|a: int|
                0 <= a < i && (#[trigger] projects@[a]).name@ == projects@[i as int].name@)) by {
                if exists|a: int|
                    0 <= a < i && (#[trigger] projects@.take(i + 1)[a]).name@
                        == projects@[i as int].name@ {
                    let a = choose|a: int|
                        0 <= a < i && (#[trigger] projects@.take(i + 1)[a]).name@
                            == projects@[i as int].name@;
                    assert(projects@[a].name@ == projects@[i as int].name@);
                }
                if exists|a: int|
                    0 <= a < i && (#[trigger] projects@[a]).name@ == projects@[i as int].name@ {
                    let a = choose|a: int|
                        0 <= a < i && (#[trigger] projects@[a]).name@ == projects@[i as int].name@;
                    assert(projects@.take(i + 1)[a].name@ == projects@[i as int].name@);
                }
            }
            assert(pentries_view(r@) =~= spec_project_entries(projects@.take(i + 1)));
        }
        i += 1;
    }
    proof {
        assert(projects@.take(n as int) =~= projects@);
    }
    r
}

/// The by-project-name scope of well-formed inputs satisfies the cost budget.
proof fn lemma_project_name_scope_budget(
    states: Seq<ServerState>,
    scoped: Seq<ServerState>,
    users: Seq<crate::user::User>,
    prices: Seq<FlavorPrice>,
    pname: Seq<char>,
)
    requires
        states_wf(states),
        (prices.len() + 1) * (states.len() + 1) <= MAX_COST_ITEMS,
        scoped == crate::server_state::spec_states_of_project_name(states, users, pname),
    ensures
        states_wf(scoped),
        (prices.len() + 1) * (scoped.len() + 1) <= MAX_COST_ITEMS,
        scoped.len() <= states.len(),
{
    crate::server_state::lemma_states_of_project_name_props(states, users, pname);
    crate::consumption::lemma_scoped_states_wf(states, scoped);
    assert((prices.len() + 1) * (scoped.len() + 1) <= MAX_COST_ITEMS) by (nonlinear_arith)
        requires
            (prices.len() + 1) * (states.len() + 1) <= MAX_COST_ITEMS,
            0 <= scoped.len() <= states.len(),
            prices.len() >= 0,
    ;
}

/// The running project sums and merged amounts stay within the triple
/// budget's worst case.
proof fn lemma_all_bounds(
    entries: Seq<(Seq<char>, UserClass)>,
    states: Seq<ServerState>,
    users: Seq<crate::user::User>,
    prices: Seq<FlavorPrice>,
    begin: int,
    end: int,
    k: int,
)
    requires
        0 <= k <= entries.len(),
        states_wf(states),
        prices_sorted_desc(prices),
        prices_distinct_starts(prices),
        prices_wf(prices),
        0 <= begin <= end <= MAX_TIME,
    ensures
        0 <= spec_all_normal_upto(entries, states, users, prices, begin, end, k) <= k * (
        spec_bounds(prices, begin, end).len() * states.len() * MAX_TIME * MAX_UNIT_PRICE),
        0 <= spec_all_detail_upto(entries, states, users, prices, begin, end, k) <= k * (
        spec_bounds(prices, begin, end).len() * states.len() * MAX_TIME * MAX_UNIT_PRICE),
        forall|g: Seq<char>|
            -(k * (spec_bounds(prices, begin, end).len() * states.len() * MAX_TIME
                * MAX_UNIT_PRICE)) <= #[trigger] spec_all_flavor_cost_upto(
                entries,
                states,
                users,
                prices,
                g,
                begin,
                end,
                k,
            ) <= k * (spec_bounds(prices, begin, end).len() * states.len() * MAX_TIME
                * MAX_UNIT_PRICE),
    decreases k,
{
    let per = spec_bounds(prices, begin, end).len() * states.len() * MAX_TIME * MAX_UNIT_PRICE;
    if k == 0 {
        assert(0 * per == 0) by (nonlinear_arith);
    } else {
        lemma_all_bounds(entries, states, users, prices, begin, end, k - 1);
        let child = crate::server_state::spec_states_of_project_name(
            states,
            users,
            entries[k - 1].0,
        );
        crate::server_state::lemma_states_of_project_name_props(states, users, entries[k - 1].0);
        crate::consumption::lemma_scoped_states_wf(states, child);
        lemma_flat_cost_bounds(child, prices, entries[k - 1].1, begin, end);
        lemma_user_detail_total_bounds(child, prices, entries[k - 1].1, begin, end);
        let names = crate::consumption::spec_active_usernames(child, begin, end);
        lemma_active_usernames_distinct(child, begin, end);
        lemma_user_children_total_bounds(
            names,
            child,
            prices,
            entries[k - 1].1,
            begin,
            end,
            names.len() as int,
        );
        lemma_name_len_sum(names, child, names.len() as int);
        crate::price_periods::lemma_bounds_len(prices, begin, end);
        let bsl = spec_bounds(prices, begin, end).len() as int;
        assert(bsl * spec_name_len_sum(names, child, names.len() as int) * MAX_TIME
            * MAX_UNIT_PRICE <= bsl * child.len() * MAX_TIME * MAX_UNIT_PRICE && bsl * child.len()
            * MAX_TIME * MAX_UNIT_PRICE <= per && (k - 1) * per + per == k * per && 0 <= (k - 1)
            * per) by (nonlinear_arith)
            requires
                per == bsl * states.len() * MAX_TIME * MAX_UNIT_PRICE,
                0 <= spec_name_len_sum(names, child, names.len() as int) <= child.len(),
                0 <= child.len() <= states.len(),
                bsl >= 1,
                1 <= k,
                MAX_TIME > 0,
                MAX_UNIT_PRICE > 0,
        ;
        assert forall|g: Seq<char>| -(k * per) <= #[trigger] spec_all_flavor_cost_upto(
            entries,
            states,
            users,
            prices,
            g,
            begin,
            end,
            k,
        ) <= k * per by {
            assert(spec_all_flavor_cost_upto(entries, states, users, prices, g, begin, end, k)
                == spec_all_flavor_cost_upto(entries, states, users, prices, g, begin, end, k - 1)
                + spec_flavor_cost(child, prices, entries[k - 1].1, g, begin, end));
            assert(-((k - 1) * per) <= spec_all_flavor_cost_upto(
                entries,
                states,
                users,
                prices,
                g,
                begin,
                end,
                k - 1,
            ) <= (k - 1) * per);
            lemma_flavor_cost_window_bounds(child, prices, entries[k - 1].1, g, begin, end);
            assert(bsl * child.len() * MAX_TIME * MAX_UNIT_PRICE <= per && (k - 1) * per + per == k
                * per && 0 <= (k - 1) * per) by (nonlinear_arith)
                requires
                    per == bsl * states.len() * MAX_TIME * MAX_UNIT_PRICE,
                    0 <= child.len() <= states.len(),
                    bsl >= 1,
                    1 <= k,
                    MAX_TIME > 0,
                    MAX_UNIT_PRICE > 0,
            ;
        }
    }
}

/// With the triple budget, `k` projects' worth of cost stays in the exact
/// range.
proof fn lemma_all_budget(
    k: int,
    nentries: int,
    nprojects: int,
    bslen: int,
    n: int,
    plen: int,
)
    requires
        0 <= k <= nentries,
        nentries <= nprojects,
        1 <= bslen <= plen + 1,
        0 <= n,
        (nprojects + 1) * ((plen + 1) * (n + 1)) <= MAX_COST_ITEMS,
    ensures
        (k + 1) * (bslen * n * MAX_TIME * MAX_UNIT_PRICE) <= MAX_COST_ITEMS * MAX_TIME
            * MAX_UNIT_PRICE,
        k * (bslen * n * MAX_TIME * MAX_UNIT_PRICE) + bslen * n * MAX_TIME * MAX_UNIT_PRICE
            + MAX_COST_ITEMS * MAX_TIME * MAX_UNIT_PRICE < i128::MAX,
        -(k * (bslen * n * MAX_TIME * MAX_UNIT_PRICE)) - bslen * n * MAX_TIME * MAX_UNIT_PRICE
            - MAX_COST_ITEMS * MAX_TIME * MAX_UNIT_PRICE > i128::MIN,
{
    assert((k + 1) * (bslen * n) <= MAX_COST_ITEMS) by (nonlinear_arith)
        requires
            0 <= k <= nentries,
            nentries <= nprojects,
            1 <= bslen <= plen + 1,
            0 <= n,
            (nprojects + 1) * ((plen + 1) * (n + 1)) <= MAX_COST_ITEMS,
    ;
    assert((k + 1) * (bslen * n * MAX_TIME * MAX_UNIT_PRICE) <= MAX_COST_ITEMS * MAX_TIME
        * MAX_UNIT_PRICE && k * (bslen * n * MAX_TIME * MAX_UNIT_PRICE) + bslen * n * MAX_TIME
        * MAX_UNIT_PRICE == (k + 1) * (bslen * n * MAX_TIME * MAX_UNIT_PRICE) && 0 <= k * (bslen
        * n * MAX_TIME * MAX_UNIT_PRICE)) by (nonlinear_arith)
        requires
            0 <= k,
            0 <= bslen * n,
            (k + 1) * (bslen * n) <= MAX_COST_ITEMS,
            MAX_TIME > 0,
            MAX_UNIT_PRICE > 0,
    ;
}

/// Flat cost over everything: each known project's records priced under that
/// project's own tier, summed.
pub fn calculate_server_cost_for_all_normal(
    states: &Vec<ServerState>,
    users: &Vec<crate::user::User>,
    projects: &Vec<crate::project::Project>,
    flavors: &Vec<Flavor>,
    prices: &Vec<FlavorPrice>,
    begin: i64,
    end: i64,
) -> (r: ServerCostSimple)
    requires
        all_cost_inputs_wf(states@, prices@, projects@, begin, end),
    ensures
        ({
            let entries = spec_project_entries(projects@);
            r.total == spec_all_normal_upto(
                entries,
                states@,
                users@,
                prices@,
                begin as int,
                end as int,
                entries.len() as int,
            )
        }),
{
    let entries = project_entries(projects);
    let ghost gentries = spec_project_entries(projects@);
    proof {
        lemma_project_entries_len(projects@);
        crate::price_periods::lemma_bounds_len(prices@, begin as int, end as int);
    }
    let n = entries.len();
    let mut total: i128 = 0;
    let mut k: usize = 0;
    while k < n
        invariant
            all_cost_inputs_wf(states@, prices@, projects@, begin, end),
            n == entries@.len(),
            pentries_view(entries@) == gentries,
            gentries == spec_project_entries(projects@),
            gentries.len() <= projects@.len(),
            0 <= k <= n,
            total == spec_all_normal_upto(
                gentries,
                states@,
                users@,
                prices@,
                begin as int,
                end as int,
                k as int,
            ),
        decreases n - k,
    {
        let scoped = crate::server_state::select_server_states_by_project_name(
            states,
            users,
            &entries[k].name,
        );
        proof {
            assert(pentries_view(entries@)[k as int] == (entries@[k as int].name@, entries@[k as int].user_class));
            lemma_project_name_scope_budget(
                states@,
                scoped@,
                users@,
                prices@,
                entries@[k as int].name@,
            );
        }
        let c = window_cost(&scoped, flavors, prices, entries[k].user_class, begin, end);
        proof {
            lemma_all_bounds(gentries, states@, users@, prices@, begin as int, end as int, k as int);
            lemma_flat_cost_bounds(scoped@, prices@, gentries[k as int].1, begin as int, end as int);
            crate::price_periods::lemma_bounds_len(prices@, begin as int, end as int);
            let bsl = spec_bounds(prices@, begin as int, end as int).len() as int;
            assert(spec_bounds(prices@, begin as int, end as int).len() * scoped@.len() * MAX_TIME
                * MAX_UNIT_PRICE <= bsl * states@.len() * MAX_TIME * MAX_UNIT_PRICE)
                by (nonlinear_arith)
                requires
                    bsl == spec_bounds(prices@, begin as int, end as int).len(),
                    0 <= scoped@.len() <= states@.len(),
                    bsl >= 1,
                    MAX_TIME > 0,
                    MAX_UNIT_PRICE > 0,
            ;
            lemma_all_budget(
                k as int,
                gentries.len() as int,
                projects@.len() as int,
                bsl,
                states@.len() as int,
                prices@.len() as int,
            );
        }
        total = total + c.0;
        k += 1;
    }
    ServerCostSimple { total }
}

/// Detailed cost over everything: per-project children each under their own
/// tier, their summed totals, and the merged per-flavor breakdown.
pub fn calculate_server_cost_for_all_detail(
    states: &Vec<ServerState>,
    users: &Vec<crate::user::User>,
    projects: &Vec<crate::project::Project>,
    flavors: &Vec<Flavor>,
    prices: &Vec<FlavorPrice>,
    begin: i64,
    end: i64,
) -> (r: ServerCostAll)
    requires
        all_cost_inputs_wf(states@, prices@, projects@, begin, end),
    ensures
        ({
            let entries = spec_project_entries(projects@);
            &&& r.total == spec_all_detail_upto(
                entries,
                states@,
                users@,
                prices@,
                begin as int,
                end as int,
                entries.len() as int,
            )
            &&& entries_view(r.flavors@) == spec_all_flavor_map_upto(
                entries,
                states@,
                users@,
                prices@,
                begin as int,
                end as int,
                entries.len() as int,
            )
            &&& project_costs_view(r.projects@) == spec_project_children(
                entries,
                states@,
                users@,
                prices@,
                begin as int,
                end as int,
            )
        }),
{
    let entries = project_entries(projects);
    let ghost gentries = spec_project_entries(projects@);
    proof {
        lemma_project_entries_len(projects@);
        crate::price_periods::lemma_bounds_len(prices@, begin as int, end as int);
    }
    let n = entries.len();
    let mut total: i128 = 0;
    let mut fmap: Vec<FlavorEntry> = Vec::new();
    let mut children: Vec<NamedProjectCost> = Vec::new();
    let mut k: usize = 0;
    while k < n
        invariant
            all_cost_inputs_wf(states@, prices@, projects@, begin, end),
            n == entries@.len(),
            pentries_view(entries@) == gentries,
            gentries == spec_project_entries(projects@),
            gentries.len() <= projects@.len(),
            0 <= k <= n,
            children@.len() == k,
            total == spec_all_detail_upto(
                gentries,
                states@,
                users@,
                prices@,
                begin as int,
                end as int,
                k as int,
            ),
            entries_view(fmap@) == spec_all_flavor_map_upto(
                gentries,
                states@,
                users@,
                prices@,
                begin as int,
                end as int,
                k as int,
            ),
            project_costs_view(children@) =~= spec_project_children(
                gentries,
                states@,
                users@,
                prices@,
                begin as int,
                end as int,
            ).take(k as int),
        decreases n - k,
    {
        let scoped = crate::server_state::select_server_states_by_project_name(
            states,
            users,
            &entries[k].name,
        );
        proof {
            assert(pentries_view(entries@)[k as int] == (entries@[k as int].name@, entries@[k as int].user_class));
            lemma_project_name_scope_budget(
                states@,
                scoped@,
                users@,
                prices@,
                entries@[k as int].name@,
            );
        }
        let child = project_window_detail(&scoped, flavors, prices, entries[k].user_class, begin, end);
        let ghost bsl = spec_bounds(prices@, begin as int, end as int).len() as int;
        proof {
            crate::price_periods::lemma_bounds_len(prices@, begin as int, end as int);
            lemma_all_bounds(gentries, states@, users@, prices@, begin as int, end as int, k as int);
            assert(bsl * scoped@.len() * MAX_TIME * MAX_UNIT_PRICE <= bsl * states@.len()
                * MAX_TIME * MAX_UNIT_PRICE) by (nonlinear_arith)
                requires
                    0 <= scoped@.len() <= states@.len(),
                    bsl >= 1,
                    MAX_TIME > 0,
                    MAX_UNIT_PRICE > 0,
            ;
            lemma_all_budget(
                k as int,
                gentries.len() as int,
                projects@.len() as int,
                bsl,
                states@.len() as int,
                prices@.len() as int,
            );
        }
        total = total + child.total;
        let ghost acc = spec_all_flavor_map_upto(
            gentries,
            states@,
            users@,
            prices@,
            begin as int,
            end as int,
            k as int,
        );
        let ghost m = spec_flavor_cost_map(scoped@, prices@, gentries[k as int].1, begin as int, end as int);
        proof {
            lemma_all_flavor_map_props(
                gentries,
                states@,
                users@,
                prices@,
                begin as int,
                end as int,
                k as int,
            );
            lemma_flavor_cost_map_props(scoped@, prices@, gentries[k as int].1, begin as int, end as int);
        }
        let child_flavors = child.flavors;
        let child_total = child.total;
        let child_users = child.users;
        let nfl = child_flavors.len();
        let mut merged_j: usize = 0;
        while merged_j < nfl
            invariant
                all_cost_inputs_wf(states@, prices@, projects@, begin, end),
                gentries == spec_project_entries(projects@),
                gentries.len() <= projects@.len(),
                0 <= k < gentries.len(),
                bsl == spec_bounds(prices@, begin as int, end as int).len(),
                1 <= bsl <= prices@.len() + 1,
                scoped@ == crate::server_state::spec_states_of_project_name(
                    states@,
                    users@,
                    gentries[k as int].0,
                ),
                scoped@.len() <= states@.len(),
                states_wf(scoped@),
                nfl == child_flavors@.len(),
                entries_view(child_flavors@) == m,
                m == spec_flavor_cost_map(
                    scoped@,
                    prices@,
                    gentries[k as int].1,
                    begin as int,
                    end as int,
                ),
                acc == spec_all_flavor_map_upto(
                    gentries,
                    states@,
                    users@,
                    prices@,
                    begin as int,
                    end as int,
                    k as int,
                ),
                keys_unique(acc),
                keys_unique(m),
                forall|g: Seq<char>|
                    #[trigger] lookup(acc, g) == spec_all_flavor_cost_upto(
                        gentries,
                        states@,
                        users@,
                        prices@,
                        g,
                        begin as int,
                        end as int,
                        k as int,
                    ),
                forall|g: Seq<char>|
                    #[trigger] lookup(m, g) == spec_flavor_cost(
                        scoped@,
                        prices@,
                        gentries[k as int].1,
                        g,
                        begin as int,
                        end as int,
                    ),
                0 <= merged_j <= nfl,
                entries_view(fmap@) == spec_merge_add(acc, m, merged_j as int),
            decreases nfl - merged_j,
        {
            let d = child_flavors[merged_j].amount;
            proof {
                assert(m[merged_j as int] == (child_flavors@[merged_j as int].name@, child_flavors@[merged_j as int].amount as int));
                lemma_merge_add_lookup(acc, m, merged_j as int);
                let g = child_flavors@[merged_j as int].name@;
                lemma_key_index(m, g);
                assert(m[merged_j as int].0 == g);
                assert(lookup(m, g) == m[key_index(m, g)].1);
                assert(key_index(m, g) == merged_j as int);
                lemma_all_bounds(
                    gentries,
                    states@,
                    users@,
                    prices@,
                    begin as int,
                    end as int,
                    k as int,
                );
                lemma_flavor_cost_window_bounds(
                    scoped@,
                    prices@,
                    gentries[k as int].1,
                    g,
                    begin as int,
                    end as int,
                );
                assert(bsl * scoped@.len() * MAX_TIME * MAX_UNIT_PRICE <= bsl * states@.len()
                    * MAX_TIME * MAX_UNIT_PRICE) by (nonlinear_arith)
                    requires
                        0 <= scoped@.len() <= states@.len(),
                        bsl >= 1,
                        MAX_TIME > 0,
                        MAX_UNIT_PRICE > 0,
                ;
                lemma_all_budget(
                    k as int,
                    gentries.len() as int,
                    projects@.len() as int,
                    bsl,
                    states@.len() as int,
                    prices@.len() as int,
                );
            }
            upsert_amount(&mut fmap, &child_flavors[merged_j].name, d);
            proof {
                assert(entries_view(fmap@) == spec_merge_add(acc, m, merged_j + 1));
            }
            merged_j += 1;
        }
        proof {
            assert(spec_merge_add(acc, m, m.len() as int) == spec_all_flavor_map_upto(
                gentries,
                states@,
                users@,
                prices@,
                begin as int,
                end as int,
                k + 1,
            ));
        }
        children.push(
            NamedProjectCost {
                name: entries[k].name.clone(),
                cost: ServerCostProject { total: child_total, flavors: child_flavors, users: child_users },
            },
        );
        proof {
            let pcl = spec_project_children(
                gentries,
                states@,
                users@,
                prices@,
                begin as int,
                end as int,
            );
            assert(pcl.len() == gentries.len());
            assert(pcl[k as int] == (gentries[k as int].0, spec_project_detail_total(
                crate::server_state::spec_states_of_project_name(states@, users@, gentries[k as int].0),
                prices@,
                gentries[k as int].1,
                begin as int,
                end as int,
            ), spec_flavor_cost_map(
                crate::server_state::spec_states_of_project_name(states@, users@, gentries[k as int].0),
                prices@,
                gentries[k as int].1,
                begin as int,
                end as int,
            ), spec_user_children(
                crate::server_state::spec_states_of_project_name(states@, users@, gentries[k as int].0),
                prices@,
                gentries[k as int].1,
                begin as int,
                end as int,
            )));
            assert forall|j2: int| 0 <= j2 <= k implies project_costs_view(children@)[j2] == pcl.take(
                k + 1,
            )[j2] by {
                assert(project_costs_view(children@)[j2] == (children@[j2].name@, children@[j2].cost.total as int, entries_view(children@[j2].cost.flavors@), user_costs_view(children@[j2].cost.users@)));
                if j2 < k {
                    assert(project_costs_view(children@.drop_last())[j2] == (children@[j2].name@, children@[j2].cost.total as int, entries_view(children@[j2].cost.flavors@), user_costs_view(children@[j2].cost.users@)));
                }
            }
            assert(project_costs_view(children@) =~= pcl.take(k + 1));
        }
        k += 1;
    }
    proof {
        let pcl = spec_project_children(gentries, states@, users@, prices@, begin as int, end as int);
        assert(pcl.take(n as int) =~= pcl);
    }
    ServerCostAll { total, flavors: fmap, projects: children }
}

/// Cost of one server, flat or detailed.
#[derive(Debug)]
pub enum ServerCostForServer {
    Normal(ServerCostSimple),
    Detail(ServerCostServer),
}

/// Cost of one user, flat or detailed.
#[derive(Debug)]
pub enum ServerCostForUser {
    Normal(ServerCostSimple),
    Detail(ServerCostUser),
}

/// Cost of one project, flat or detailed.
#[derive(Debug)]
pub enum ServerCostForProject {
    Normal(ServerCostSimple),
    Detail(ServerCostProject),
}

/// Cost over everything, flat or detailed.
#[derive(Debug)]
pub enum ServerCostForAll {
    Normal(ServerCostSimple),
    Detail(ServerCostAll),
}

/// Cost of one server, detailed exactly when `detail` is `Some(true)`.
pub fn calculate_server_cost_for_server(
    states: &Vec<ServerState>,
    users: &Vec<crate::user::User>,
    projects: &Vec<crate::project::Project>,
    flavors: &Vec<Flavor>,
    prices: &Vec<FlavorPrice>,
    server_id: &String,
    begin: i64,
    end: i64,
    detail: Option<bool>,
) -> (r: ServerCostForServer)
    requires
        cost_inputs_wf(states@, prices@, begin, end),
    ensures
        ({
            let uc = crate::server_state::spec_user_class_by_server(
                states@,
                users@,
                projects@,
                server_id@,
            );
            let scoped = crate::server_state::spec_states_of_server(states@, server_id@);
            match r {
                ServerCostForServer::Normal(c) => detail != Some(true) && c.total
                    == spec_optional_cost(uc, scoped, prices@, begin as int, end as int),
                ServerCostForServer::Detail(c) => detail == Some(true) && c.total
                    == spec_optional_cost(uc, scoped, prices@, begin as int, end as int)
                    && entries_view(c.flavors@) == spec_optional_flavor_map(
                    uc,
                    scoped,
                    prices@,
                    begin as int,
                    end as int,
                ),
            }
        }),
{
    match detail {
        Some(true) => ServerCostForServer::Detail(
            calculate_server_cost_for_server_detail(
                states,
                users,
                projects,
                flavors,
                prices,
                server_id,
                begin,
                end,
            ),
        ),
        _ => ServerCostForServer::Normal(
            calculate_server_cost_for_server_normal(
                states,
                users,
                projects,
                flavors,
                prices,
                server_id,
                begin,
                end,
            ),
        ),
    }
}

/// Cost of one user, detailed exactly when `detail` is `Some(true)`.
pub fn calculate_server_cost_for_user(
    states: &Vec<ServerState>,
    users: &Vec<crate::user::User>,
    projects: &Vec<crate::project::Project>,
    flavors: &Vec<Flavor>,
    prices: &Vec<FlavorPrice>,
    user_id: u64,
    begin: i64,
    end: i64,
    detail: Option<bool>,
) -> (r: ServerCostForUser)
    requires
        cost_inputs_wf(states@, prices@, begin, end),
    ensures
        ({
            let uc = crate::server_state::spec_user_class_by_user(users@, projects@, user_id as int);
            let scoped = crate::server_state::spec_states_of_user(states@, user_id as int);
            match r {
                ServerCostForUser::Normal(c) => detail != Some(true) && c.total
                    == spec_optional_cost(uc, scoped, prices@, begin as int, end as int),
                ServerCostForUser::Detail(c) => detail == Some(true) && match uc {
                    None => c.total == 0 && c.flavors@.len() == 0 && c.servers@.len() == 0,
                    Some(cl) => c.total == spec_user_detail_total(
                        scoped,
                        prices@,
                        cl,
                        begin as int,
                        end as int,
                    ) && entries_view(c.flavors@) == spec_flavor_cost_map(
                        scoped,
                        prices@,
                        cl,
                        begin as int,
                        end as int,
                    ) && server_costs_view(c.servers@) == spec_server_children(
                        scoped,
                        prices@,
                        cl,
                        begin as int,
                        end as int,
                    ),
                },
            }
        }),
{
    match detail {
        Some(true) => ServerCostForUser::Detail(
            calculate_server_cost_for_user_detail(
                states,
                users,
                projects,
                flavors,
                prices,
                user_id,
                begin,
                end,
            ),
        ),
        _ => ServerCostForUser::Normal(
            calculate_server_cost_for_user_normal(
                states,
                users,
                projects,
                flavors,
                prices,
                user_id,
                begin,
                end,
            ),
        ),
    }
}

/// Cost of one project, detailed exactly when `detail` is `Some(true)`.
pub fn calculate_server_cost_for_project(
    states: &Vec<ServerState>,
    users: &Vec<crate::user::User>,
    projects: &Vec<crate::project::Project>,
    flavors: &Vec<Flavor>,
    prices: &Vec<FlavorPrice>,
    project_id: u64,
    begin: i64,
    end: i64,
    detail: Option<bool>,
) -> (r: ServerCostForProject)
    requires
        cost_inputs_wf(states@, prices@, begin, end),
    ensures
        ({
            let uc = crate::server_state::spec_user_class_by_project(projects@, project_id as int);
            let scoped = crate::server_state::spec_states_of_project(
                states@,
                users@,
                project_id as int,
            );
            match r {
                ServerCostForProject::Normal(c) => detail != Some(true) && c.total
                    == spec_optional_cost(uc, scoped, prices@, begin as int, end as int),
                ServerCostForProject::Detail(c) => detail == Some(true) && match uc {
                    None => c.total == 0 && c.flavors@.len() == 0 && c.users@.len() == 0,
                    Some(cl) => c.total == spec_project_detail_total(
                        scoped,
                        prices@,
                        cl,
                        begin as int,
                        end as int,
                    ) && entries_view(c.flavors@) == spec_flavor_cost_map(
                        scoped,
                        prices@,
                        cl,
                        begin as int,
                        end as int,
                    ) && user_costs_view(c.users@) == spec_user_children(
                        scoped,
                        prices@,
                        cl,
                        begin as int,
                        end as int,
                    ),
                },
            }
        }),
{
    match detail {
        Some(true) => ServerCostForProject::Detail(
            calculate_server_cost_for_project_detail(
                states,
                users,
                projects,
                flavors,
                prices,
                project_id,
                begin,
                end,
            ),
        ),
        _ => ServerCostForProject::Normal(
            calculate_server_cost_for_project_normal(
                states,
                users,
                projects,
                flavors,
                prices,
                project_id,
                begin,
                end,
            ),
        ),
    }
}

/// Cost over everything, detailed exactly when `detail` is `Some(true)`.
pub fn calculate_server_cost_for_all(
    states: &Vec<ServerState>,
    users: &Vec<crate::user::User>,
    projects: &Vec<crate::project::Project>,
    flavors: &Vec<Flavor>,
    prices: &Vec<FlavorPrice>,
    begin: i64,
    end: i64,
    detail: Option<bool>,
) -> (r: ServerCostForAll)
    requires
        all_cost_inputs_wf(states@, prices@, projects@, begin, end),
    ensures
        ({
            let entries = spec_project_entries(projects@);
            match r {
                ServerCostForAll::Normal(c) => detail != Some(true) && c.total
                    == spec_all_normal_upto(
                    entries,
                    states@,
                    users@,
                    prices@,
                    begin as int,
                    end as int,
                    entries.len() as int,
                ),
                ServerCostForAll::Detail(c) => detail == Some(true) && c.total
                    == spec_all_detail_upto(
                    entries,
                    states@,
                    users@,
                    prices@,
                    begin as int,
                    end as int,
                    entries.len() as int,
                ) && entries_view(c.flavors@) == spec_all_flavor_map_upto(
                    entries,
                    states@,
                    users@,
                    prices@,
                    begin as int,
                    end as int,
                    entries.len() as int,
                ) && project_costs_view(c.projects@) == spec_project_children(
                    entries,
                    states@,
                    users@,
                    prices@,
                    begin as int,
                    end as int,
                ),
            }
        }),
{
    match detail {
        Some(true) => ServerCostForAll::Detail(
            calculate_server_cost_for_all_detail(
                states,
                users,
                projects,
                flavors,
                prices,
                begin,
                end,
            ),
        ),
        _ => ServerCostForAll::Normal(
            calculate_server_cost_for_all_normal(
                states,
                users,
                projects,
                flavors,
                prices,
                begin,
                end,
            ),
        ),
    }
}

} // verus!
