//! Global laws of the cost engine, stated over the same specifications the
//! executable functions are proved against.

use vstd::prelude::*;
use crate::{MAX_TIME, SECONDS_PER_YEAR};
use crate::budget::spec_budget_exceeded;
use crate::consumption::{spec_consumption_map, spec_consumption};
use crate::cost::{
    spec_cost_upto, spec_flat_cost, spec_map_cost, spec_period_cost, spec_period_end, pos,
};
use crate::price_periods::spec_bounds;
use crate::flavor_price::{FlavorPrice, prices_distinct_starts, prices_sorted_desc, prices_wf, spec_effective_price, spec_prices_until, spec_filter_prices};
use crate::server_state::{ServerState, spec_row_active, spec_state_overlap, state_wf, states_wf};
use crate::user::UserClass;

verus! {

/// Idempotence: the cost of a window is a function of the records, the price
/// history, the tier and the window alone, so repeating a query over
/// unchanged data names the same total.
pub proof fn lemma_cost_idempotent(
    t1: int,
    t2: int,
    ss: Seq<ServerState>,
    prices: Seq<FlavorPrice>,
    uc: UserClass,
    begin: int,
    end: int,
)
    requires
        t1 == spec_flat_cost(ss, prices, uc, begin, end),
        t2 == spec_flat_cost(ss, prices, uc, begin, end),
    ensures
        t1 == t2,
{
}

/// Monotonic budget flag: the flag is exactly the threshold test, equality
/// counting as over; raising the cost or lowering the ceiling across the
/// threshold can only switch it on.
pub proof fn lemma_budget_flag_monotone(t1: int, t2: int, a1: int, a2: int)
    requires
        t1 <= t2,
        0 <= a2 <= a1,
    ensures
        spec_budget_exceeded(t1, a1) ==> spec_budget_exceeded(t2, a2),
        spec_budget_exceeded(a1 * SECONDS_PER_YEAR, a1),
{
    assert(a2 * SECONDS_PER_YEAR <= a1 * SECONDS_PER_YEAR) by (nonlinear_arith)
        requires 0 <= a2 <= a1;
}

/// A record whose interval misses the window entirely contributes nothing to
/// any period's consumption map, and so nothing to the window's cost.
pub proof fn lemma_outside_state_no_cost(
    ss: Seq<ServerState>,
    s: ServerState,
    prices: Seq<FlavorPrice>,
    uc: UserClass,
    begin: int,
    end: int,
)
    requires
        prices_sorted_desc(prices),
        prices_distinct_starts(prices),
        prices_wf(prices),
        0 <= begin <= end <= MAX_TIME,
        !spec_row_active(s, begin, end),
    ensures
        spec_flat_cost(ss.push(s), prices, uc, begin, end) == spec_flat_cost(
            ss,
            prices,
            uc,
            begin,
            end,
        ),
{
    let rows = spec_prices_until(prices, end);
    let bs = spec_bounds(prices, begin, end);
    lemma_bounds_window(prices, begin, end);
    lemma_outside_cost_upto(ss, s, rows, uc, bs, end, bs.len() as int, begin);
}

/// Every period start of a window lies inside the window.
pub proof fn lemma_bounds_window(prices: Seq<FlavorPrice>, begin: int, end: int)
    requires
        prices_sorted_desc(prices),
        prices_distinct_starts(prices),
        prices_wf(prices),
        0 <= begin <= end <= MAX_TIME,
    ensures
        forall|j: int|
            0 <= j < spec_bounds(prices, begin, end).len() ==> begin <= #[trigger] spec_bounds(
                prices,
                begin,
                end,
            )[j] <= end,
{
    let u = spec_prices_until(prices, end);
    let f = spec_filter_prices(u, begin);
    crate::flavor_price::lemma_until_props(prices, end);
    crate::flavor_price::lemma_filter_subset(u, begin, u.len() as int);
    lemma_boundaries_window(f, u, begin, end);
    let bd = crate::price_periods::spec_boundaries_desc(f, begin);
    assert forall|j: int|
        0 <= j < spec_bounds(prices, begin, end).len() implies begin <= #[trigger] spec_bounds(
        prices,
        begin,
        end,
    )[j] <= end by {
        if j > 0 {
            assert(spec_bounds(prices, begin, end)[j] == bd[j - 1]);
        }
    }
}

/// Every change instant of the filtered rows lies inside the window.
proof fn lemma_boundaries_window(
    f: Seq<FlavorPrice>,
    u: Seq<FlavorPrice>,
    begin: int,
    end: int,
)
    requires
        begin <= end,
        forall|k: int| #![trigger f[k]]
            0 <= k < f.len() ==> exists|j: int| #![trigger u[j]] 0 <= j < u.len() && f[k] == u[j],
        forall|k: int| 0 <= k < u.len() ==> (#[trigger] u[k]).start_time <= end,
    ensures
        forall|j: int|
            0 <= j < crate::price_periods::spec_boundaries_desc(f, begin).len() ==> begin
                < #[trigger] crate::price_periods::spec_boundaries_desc(f, begin)[j] <= end,
    decreases f.len(),
{
    if f.len() > 0 {
        assert forall|k: int| #![trigger f.drop_first()[k]]
            0 <= k < f.drop_first().len() implies exists|j: int| #![trigger u[j]]
            0 <= j < u.len() && f.drop_first()[k] == u[j] by {
            assert(f.drop_first()[k] == f[k + 1]);
        }
        lemma_boundaries_window(f.drop_first(), u, begin, end);
        let rest = crate::price_periods::spec_boundaries_desc(f.drop_first(), begin);
        let cur = crate::price_periods::spec_boundaries_desc(f, begin);
        assert forall|j: int| 0 <= j < cur.len() implies begin < #[trigger] cur[j] <= end by {
            if j < rest.len() {
                assert(cur[j] == rest[j]);
            } else {
                let jj = choose|jj: int| #![trigger u[jj]] 0 <= jj < u.len() && f[0] == u[jj];
                assert(f[0].start_time <= end);
            }
        }
    }
}

/// Pushing a window-missing record leaves every period's map, and so the
/// running total, unchanged.
proof fn lemma_outside_cost_upto(
    ss: Seq<ServerState>,
    s: ServerState,
    rows: Seq<FlavorPrice>,
    uc: UserClass,
    bs: Seq<int>,
    end: int,
    k: int,
    begin: int,
)
    requires
        0 <= k <= bs.len(),
        !spec_row_active(s, begin, end),
        begin <= end,
        forall|j: int| 0 <= j < bs.len() ==> begin <= #[trigger] bs[j] <= end,
    ensures
        spec_cost_upto(ss.push(s), rows, uc, bs, end, k) == spec_cost_upto(ss, rows, uc, bs, end, k),
    decreases k,
{
    if k > 0 {
        lemma_outside_cost_upto(ss, s, rows, uc, bs, end, k - 1, begin);
        let lo = bs[k - 1];
        let hi = spec_period_end(bs, k - 1, end);
        assert(begin <= lo && hi <= end);
        assert(!spec_row_active(s, lo, hi));
        assert(ss.push(s).drop_last() =~= ss);
        assert(spec_consumption_map(ss.push(s), lo, hi) == spec_consumption_map(ss, lo, hi));
    }
}

/// Detail and normal agreement at server scope: the detailed result's total
/// is the same window total the flat result reports, whatever the inputs.
pub proof fn lemma_detail_matches_normal_for_server(
    t_normal: int,
    t_detail: int,
    uc: Option<UserClass>,
    scoped: Seq<ServerState>,
    prices: Seq<FlavorPrice>,
    begin: int,
    end: int,
)
    requires
        t_normal == crate::cost::spec_optional_cost(uc, scoped, prices, begin, end),
        t_detail == crate::cost::spec_optional_cost(uc, scoped, prices, begin, end),
    ensures
        t_normal == t_detail,
{
}

/// Splitting a window splits a record's covered seconds exactly.
pub proof fn lemma_overlap_split(s: ServerState, begin: int, mid: int, end: int)
    requires
        state_wf(s),
        begin <= mid <= end,
    ensures
        spec_state_overlap(s, begin, end) == spec_state_overlap(s, begin, mid)
            + spec_state_overlap(s, mid, end),
{
}

/// Splitting a window splits a flavor's consumption exactly.
pub proof fn lemma_consumption_split(
    ss: Seq<ServerState>,
    f: Seq<char>,
    begin: int,
    mid: int,
    end: int,
)
    requires
        states_wf(ss),
        begin <= mid <= end,
    ensures
        spec_consumption(ss, f, begin, end) == spec_consumption(ss, f, begin, mid)
            + spec_consumption(ss, f, mid, end),
    decreases ss.len(),
{
    if ss.len() > 0 {
        assert(states_wf(ss.drop_last()));
        lemma_consumption_split(ss.drop_last(), f, begin, mid, end);
        lemma_overlap_split(ss.last(), begin, mid, end);
    }
}

/// Replacing one entry changes a period's cost by that entry's contribution.
proof fn lemma_map_cost_update(
    m: Seq<(Seq<char>, int)>,
    i: int,
    v: (Seq<char>, int),
    rows: Seq<FlavorPrice>,
    uc: UserClass,
    t: int,
)
    requires
        0 <= i < m.len(),
    ensures
        spec_map_cost(m.update(i, v), rows, uc, t) == spec_map_cost(m, rows, uc, t) - pos(
            m[i].1 * spec_effective_price(rows, uc, m[i].0, t),
        ) + pos(v.1 * spec_effective_price(rows, uc, v.0, t)),
    decreases m.len(),
{
    let mu = m.update(i, v);
    if i == m.len() - 1 {
        assert(mu.drop_last() =~= m.drop_last());
    } else {
        assert(mu.drop_last() =~= m.drop_last().update(i, v));
        lemma_map_cost_update(m.drop_last(), i, v, rows, uc, t);
    }
}

/// An upsert changes a period's cost by the change in its name's
/// contribution.
proof fn lemma_map_cost_upsert(
    m: Seq<(Seq<char>, int)>,
    f: Seq<char>,
    d: int,
    rows: Seq<FlavorPrice>,
    uc: UserClass,
    t: int,
)
    ensures
        spec_map_cost(crate::flavor_map::spec_upsert(m, f, d), rows, uc, t) == spec_map_cost(
            m,
            rows,
            uc,
            t,
        ) - pos(crate::flavor_map::lookup(m, f) * spec_effective_price(rows, uc, f, t)) + pos(
            (crate::flavor_map::lookup(m, f) + d) * spec_effective_price(rows, uc, f, t),
        ),
{
    crate::flavor_map::lemma_key_index(m, f);
    let i = crate::flavor_map::key_index(m, f);
    if i >= 0 {
        lemma_map_cost_update(m, i, (f, m[i].1 + d), rows, uc, t);
    } else {
        assert(m.push((f, d)).drop_last() =~= m);
    }
}

/// With the same price in effect at both period starts, splitting a period
/// splits its cost exactly: the positive parts add because both halves'
/// consumptions carry the same sign once priced.
pub proof fn lemma_period_cost_split(
    ss: Seq<ServerState>,
    rows: Seq<FlavorPrice>,
    uc: UserClass,
    begin: int,
    mid: int,
    end: int,
)
    requires
        states_wf(ss),
        0 <= begin <= mid <= end <= MAX_TIME,
        forall|f: Seq<char>|
            #[trigger] spec_effective_price(rows, uc, f, begin) == spec_effective_price(
                rows,
                uc,
                f,
                mid,
            ),
    ensures
        spec_period_cost(ss, rows, uc, begin, end) == spec_period_cost(ss, rows, uc, begin, mid)
            + spec_period_cost(ss, rows, uc, mid, end),
    decreases ss.len(),
{
    if ss.len() > 0 {
        let prefix = ss.drop_last();
        assert(states_wf(prefix));
        lemma_period_cost_split(prefix, rows, uc, begin, mid, end);
        let s = ss.last();
        let f = s.flavor_name@;
        let p = spec_effective_price(rows, uc, f, begin);
        crate::consumption::lemma_cmap_props(prefix, begin, end);
        crate::consumption::lemma_cmap_props(prefix, begin, mid);
        crate::consumption::lemma_cmap_props(prefix, mid, end);
        let mw = spec_consumption_map(prefix, begin, end);
        let ml = spec_consumption_map(prefix, begin, mid);
        let mr = spec_consumption_map(prefix, mid, end);
        let cw = crate::flavor_map::lookup(mw, f);
        let cl = crate::flavor_map::lookup(ml, f);
        let cr = crate::flavor_map::lookup(mr, f);
        lemma_lookup_is_consumption(prefix, f, begin, end);
        lemma_lookup_is_consumption(prefix, f, begin, mid);
        lemma_lookup_is_consumption(prefix, f, mid, end);
        lemma_consumption_split(prefix, f, begin, mid, end);
        assert(cw == cl + cr);
        crate::consumption::lemma_consumption_bounds(prefix, f, begin, end);
        crate::consumption::lemma_consumption_bounds(prefix, f, begin, mid);
        crate::consumption::lemma_consumption_bounds(prefix, f, mid, end);
        let dw = spec_state_overlap(s, begin, end);
        let dl = spec_state_overlap(s, begin, mid);
        let dr = spec_state_overlap(s, mid, end);
        lemma_overlap_split(s, begin, mid, end);
        crate::consumption::lemma_overlap_bounds(s, begin, end);
        crate::consumption::lemma_overlap_bounds(s, begin, mid);
        crate::consumption::lemma_overlap_bounds(s, mid, end);
        if spec_row_active(s, begin, end) {
            lemma_map_cost_upsert(mw, f, dw, rows, uc, begin);
        } else {
            crate::consumption::lemma_inactive_overlap_zero(s, begin, end);
        }
        if spec_row_active(s, begin, mid) {
            lemma_map_cost_upsert(ml, f, dl, rows, uc, begin);
        } else {
            crate::consumption::lemma_inactive_overlap_zero(s, begin, mid);
        }
        if spec_row_active(s, mid, end) {
            lemma_map_cost_upsert(mr, f, dr, rows, uc, mid);
        } else {
            crate::consumption::lemma_inactive_overlap_zero(s, mid, end);
        }
        assert(pos((cw + dw) * p) - pos(cw * p) == (pos((cl + dl) * p) - pos(cl * p)) + (pos(
            (cr + dr) * p,
        ) - pos(cr * p))) by (nonlinear_arith)
            requires
                cw == cl + cr,
                dw == dl + dr,
                0 <= cl,
                0 <= cr,
                0 <= dl,
                0 <= dr,
                pos((cw + dw) * p) == if (cw + dw) * p > 0 { (cw + dw) * p } else { 0 },
                pos(cw * p) == if cw * p > 0 { cw * p } else { 0 },
                pos((cl + dl) * p) == if (cl + dl) * p > 0 { (cl + dl) * p } else { 0 },
                pos(cl * p) == if cl * p > 0 { cl * p } else { 0 },
                pos((cr + dr) * p) == if (cr + dr) * p > 0 { (cr + dr) * p } else { 0 },
                pos(cr * p) == if cr * p > 0 { cr * p } else { 0 },
        ;
    }
}

/// A period map holds each flavor's consumption under its name.
proof fn lemma_lookup_is_consumption(ss: Seq<ServerState>, f: Seq<char>, lo: int, hi: int)
    ensures
        crate::flavor_map::lookup(spec_consumption_map(ss, lo, hi), f) == spec_consumption(
            ss,
            f,
            lo,
            hi,
        ),
{
    crate::consumption::lemma_cmap_props(ss, lo, hi);
    let m = spec_consumption_map(ss, lo, hi);
    crate::flavor_map::lemma_key_index(m, f);
    let i = crate::flavor_map::key_index(m, f);
    if i >= 0 {
        assert(m[i].0 == f);
        assert(m[i].1 == spec_consumption(ss, f, lo, hi));
    } else {
        assert(!crate::flavor_map::has_key(m, f));
        assert forall|j: int|
            0 <= j < ss.len() && (#[trigger] ss[j]).flavor_name@ == f implies !spec_row_active(
            ss[j],
            lo,
            hi,
        ) by {}
        crate::consumption::lemma_consumption_no_active(ss, f, lo, hi);
    }
}

/// With no row starting past `begin`, no period boundary opens.
proof fn lemma_boundaries_empty(ps: Seq<FlavorPrice>, begin: int)
    requires
        forall|k: int| 0 <= k < ps.len() ==> (#[trigger] ps[k]).start_time <= begin,
    ensures
        crate::price_periods::spec_boundaries_desc(ps, begin) == Seq::<int>::empty(),
    decreases ps.len(),
{
    if ps.len() > 0 {
        assert forall|k: int|
            0 <= k < ps.drop_first().len() implies (#[trigger] ps.drop_first()[k]).start_time
            <= begin by {
            assert(ps.drop_first()[k] == ps[k + 1]);
        }
        lemma_boundaries_empty(ps.drop_first(), begin);
    }
}

/// With no price change inside the window, both restrictions of the history
/// keep exactly the same rows.
proof fn lemma_until_same(prices: Seq<FlavorPrice>, begin: int, mid: int, end: int)
    requires
        begin <= mid <= end,
        forall|j: int|
            0 <= j < prices.len() ==> !(begin < (#[trigger] prices[j]).start_time <= end),
    ensures
        spec_prices_until(prices, mid) == spec_prices_until(prices, end),
    decreases prices.len(),
{
    if prices.len() > 0 {
        assert forall|j: int|
            0 <= j < prices.drop_last().len() implies !(begin < (
        #[trigger] prices.drop_last()[j]).start_time <= end) by {}
        lemma_until_same(prices.drop_last(), begin, mid, end);
    }
}

/// With no row starting between two instants, the price in effect is the
/// same at both.
proof fn lemma_effective_same(
    rows: Seq<FlavorPrice>,
    uc: UserClass,
    f: Seq<char>,
    t1: int,
    t2: int,
)
    requires
        t1 <= t2,
        forall|j: int| 0 <= j < rows.len() ==> !(t1 < (#[trigger] rows[j]).start_time <= t2),
    ensures
        crate::flavor_price::spec_latest_index(rows, uc, f, t1)
            == crate::flavor_price::spec_latest_index(rows, uc, f, t2),
        spec_effective_price(rows, uc, f, t1) == spec_effective_price(rows, uc, f, t2),
    decreases rows.len(),
{
    if rows.len() > 0 {
        assert forall|j: int|
            0 <= j < rows.drop_last().len() implies !(t1 < (
        #[trigger] rows.drop_last()[j]).start_time <= t2) by {}
        lemma_effective_same(rows.drop_last(), uc, f, t1, t2);
        assert(rows.last().start_time <= t1 <==> rows.last().start_time <= t2);
    }
}

/// Interval additivity: splitting a window at any instant inside one price
/// regime splits its cost exactly. A regime is a stretch of the window in
/// which no price takes effect strictly after its start.
pub proof fn lemma_cost_additive_within_regime(
    ss: Seq<ServerState>,
    prices: Seq<FlavorPrice>,
    uc: UserClass,
    begin: int,
    mid: int,
    end: int,
)
    requires
        states_wf(ss),
        prices_sorted_desc(prices),
        prices_distinct_starts(prices),
        prices_wf(prices),
        0 <= begin <= mid <= end <= MAX_TIME,
        forall|j: int|
            0 <= j < prices.len() ==> !(begin < (#[trigger] prices[j]).start_time <= end),
    ensures
        spec_flat_cost(ss, prices, uc, begin, end) == spec_flat_cost(ss, prices, uc, begin, mid)
            + spec_flat_cost(ss, prices, uc, mid, end),
{
    let rows_e = spec_prices_until(prices, end);
    let rows_m = spec_prices_until(prices, mid);
    crate::flavor_price::lemma_until_props(prices, end);
    crate::flavor_price::lemma_until_props(prices, mid);
    lemma_until_same(prices, begin, mid, end);
    assert forall|k: int| 0 <= k < rows_e.len() implies (#[trigger] rows_e[k]).start_time
        <= begin by {
        let j = choose|j: int| #![trigger prices[j]]
            0 <= j < prices.len() && rows_e[k] == prices[j];
    }
    let fe = spec_filter_prices(rows_e, begin);
    let fm = spec_filter_prices(rows_m, begin);
    let fme = spec_filter_prices(rows_e, mid);
    crate::flavor_price::lemma_filter_subset(rows_e, begin, rows_e.len() as int);
    crate::flavor_price::lemma_filter_subset(rows_e, mid, rows_e.len() as int);
    assert forall|k: int| 0 <= k < fe.len() implies (#[trigger] fe[k]).start_time <= begin by {
        let j = choose|j: int| 0 <= j < rows_e.len() && fe[k] == rows_e[j];
    }
    assert forall|k: int| 0 <= k < fme.len() implies (#[trigger] fme[k]).start_time <= mid by {
        let j = choose|j: int| 0 <= j < rows_e.len() && fme[k] == rows_e[j];
    }
    lemma_boundaries_empty(fe, begin);
    lemma_boundaries_empty(fme, mid);
    let bs_we = spec_bounds(prices, begin, end);
    let bs_lm = spec_bounds(prices, begin, mid);
    let bs_re = spec_bounds(prices, mid, end);
    assert(spec_filter_prices(rows_m, begin) == fe);
    assert(bs_we =~= seq![begin]);
    assert(bs_lm =~= seq![begin]);
    assert(bs_re =~= seq![mid]);
    assert(bs_we.len() == 1 && bs_we[0] == begin);
    assert(bs_lm.len() == 1 && bs_lm[0] == begin);
    assert(bs_re.len() == 1 && bs_re[0] == mid);
    assert(spec_cost_upto(ss, rows_e, uc, bs_we, end, 1) == spec_cost_upto(
        ss,
        rows_e,
        uc,
        bs_we,
        end,
        0,
    ) + spec_period_cost(ss, rows_e, uc, bs_we[0], spec_period_end(bs_we, 0, end)));
    assert(spec_period_end(bs_we, 0, end) == end);
    assert(spec_cost_upto(ss, rows_m, uc, bs_lm, mid, 1) == spec_cost_upto(
        ss,
        rows_m,
        uc,
        bs_lm,
        mid,
        0,
    ) + spec_period_cost(ss, rows_m, uc, bs_lm[0], spec_period_end(bs_lm, 0, mid)));
    assert(spec_period_end(bs_lm, 0, mid) == mid);
    assert(spec_cost_upto(ss, rows_e, uc, bs_re, end, 1) == spec_cost_upto(
        ss,
        rows_e,
        uc,
        bs_re,
        end,
        0,
    ) + spec_period_cost(ss, rows_e, uc, bs_re[0], spec_period_end(bs_re, 0, end)));
    assert(spec_period_end(bs_re, 0, end) == end);
    assert(spec_flat_cost(ss, prices, uc, begin, end) == spec_period_cost(
        ss,
        rows_e,
        uc,
        begin,
        end,
    ));
    assert(spec_flat_cost(ss, prices, uc, begin, mid) == spec_period_cost(
        ss,
        rows_m,
        uc,
        begin,
        mid,
    ));
    assert(spec_flat_cost(ss, prices, uc, mid, end) == spec_period_cost(ss, rows_e, uc, mid, end));
    assert forall|f: Seq<char>| #[trigger] spec_effective_price(rows_e, uc, f, begin)
        == spec_effective_price(rows_e, uc, f, mid) by {
        lemma_effective_same(rows_e, uc, f, begin, mid);
    }
    lemma_period_cost_split(ss, rows_e, uc, begin, mid, end);
}

/// The priced seconds of the records, row by row: each record's clamped
/// overlap times its flavor's price at `t`.
pub open spec fn spec_row_sum(
    ss: Seq<ServerState>,
    rows: Seq<FlavorPrice>,
    uc: UserClass,
    lo: int,
    hi: int,
    t: int,
) -> int
    decreases ss.len(),
{
    if ss.len() == 0 {
        0
    } else {
        spec_row_sum(ss.drop_last(), rows, uc, lo, hi, t) + spec_state_overlap(ss.last(), lo, hi)
            * spec_effective_price(rows, uc, ss.last().flavor_name@, t)
    }
}

/// With no negative unit price stored, no price in effect is negative.
pub proof fn lemma_effective_nonneg(rows: Seq<FlavorPrice>, uc: UserClass, f: Seq<char>, t: int)
    requires
        forall|j: int| 0 <= j < rows.len() ==> (#[trigger] rows[j]).unit_price >= 0,
    ensures
        spec_effective_price(rows, uc, f, t) >= 0,
{
    crate::flavor_price::lemma_latest_index(rows, uc, f, t);
}

/// With nonnegative prices a period's cost is plain priced seconds, summed
/// row by row.
proof fn lemma_period_cost_is_row_sum(
    ss: Seq<ServerState>,
    rows: Seq<FlavorPrice>,
    uc: UserClass,
    lo: int,
    hi: int,
)
    requires
        states_wf(ss),
        0 <= lo,
        hi <= MAX_TIME,
        forall|j: int| 0 <= j < rows.len() ==> (#[trigger] rows[j]).unit_price >= 0,
    ensures
        spec_period_cost(ss, rows, uc, lo, hi) == spec_row_sum(ss, rows, uc, lo, hi, lo),
    decreases ss.len(),
{
    if ss.len() > 0 {
        let prefix = ss.drop_last();
        assert(states_wf(prefix));
        lemma_period_cost_is_row_sum(prefix, rows, uc, lo, hi);
        let s = ss.last();
        let f = s.flavor_name@;
        let p = spec_effective_price(rows, uc, f, lo);
        lemma_effective_nonneg(rows, uc, f, lo);
        let m = spec_consumption_map(prefix, lo, hi);
        let c = crate::flavor_map::lookup(m, f);
        lemma_lookup_is_consumption(prefix, f, lo, hi);
        crate::consumption::lemma_consumption_bounds(prefix, f, lo, hi);
        let d = spec_state_overlap(s, lo, hi);
        crate::consumption::lemma_overlap_bounds(s, lo, hi);
        if spec_row_active(s, lo, hi) {
            assert(spec_consumption_map(ss, lo, hi) == crate::flavor_map::spec_upsert(m, f, d));
            lemma_map_cost_upsert(m, f, d, rows, uc, lo);
            assert(spec_period_cost(ss, rows, uc, lo, hi) == spec_map_cost(m, rows, uc, lo) - pos(
                c * p,
            ) + pos((c + d) * p));
            assert(spec_map_cost(m, rows, uc, lo) == spec_row_sum(prefix, rows, uc, lo, hi, lo));
            assert(spec_row_sum(ss, rows, uc, lo, hi, lo) == spec_row_sum(
                prefix,
                rows,
                uc,
                lo,
                hi,
                lo,
            ) + d * p);
            assert(pos((c + d) * p) - pos(c * p) == d * p) by (nonlinear_arith)
                requires 0 <= c, 0 <= d, 0 <= p,
                    pos((c + d) * p) == if (c + d) * p > 0 { (c + d) * p } else { 0 },
                    pos(c * p) == if c * p > 0 { c * p } else { 0 },
            ;
        } else {
            assert(spec_consumption_map(ss, lo, hi) == m);
            crate::consumption::lemma_inactive_overlap_zero(s, lo, hi);
            assert(d * p == 0) by (nonlinear_arith)
                requires d == 0;
        }
    }
}

/// Priced seconds of the first `k` server scopes, summed.
pub open spec fn spec_children_row_sum(
    ids: Seq<Seq<char>>,
    ss: Seq<ServerState>,
    rows: Seq<FlavorPrice>,
    uc: UserClass,
    lo: int,
    hi: int,
    t: int,
    k: int,
) -> int
    decreases k,
{
    if k <= 0 {
        0
    } else {
        spec_children_row_sum(ids, ss, rows, uc, lo, hi, t, k - 1) + spec_row_sum(
            crate::server_state::spec_states_of_server(ss, ids[k - 1]),
            rows,
            uc,
            lo,
            hi,
            t,
        )
    }
}

/// Dropping the last record lowers the summed priced seconds by that
/// record's term exactly when a listed id owns it.
proof fn lemma_children_row_sum_step(
    ids: Seq<Seq<char>>,
    ss: Seq<ServerState>,
    rows: Seq<FlavorPrice>,
    uc: UserClass,
    lo: int,
    hi: int,
    t: int,
    k: int,
)
    requires
        0 <= k <= ids.len(),
        ss.len() > 0,
        forall|a: int, b: int| 0 <= a < b < ids.len() ==> ids[a] != ids[b],
    ensures
        spec_children_row_sum(ids, ss, rows, uc, lo, hi, t, k) == spec_children_row_sum(
            ids,
            ss.drop_last(),
            rows,
            uc,
            lo,
            hi,
            t,
            k,
        ) + if (exists|j: int| 0 <= j < k && ids[j] == ss.last().instance_id@) {
            spec_state_overlap(ss.last(), lo, hi) * spec_effective_price(
                rows,
                uc,
                ss.last().flavor_name@,
                t,
            )
        } else {
            0
        },
    decreases k,
{
    if k > 0 {
        lemma_children_row_sum_step(ids, ss, rows, uc, lo, hi, t, k - 1);
        let child = crate::server_state::spec_states_of_server(ss, ids[k - 1]);
        let child_prev = crate::server_state::spec_states_of_server(ss.drop_last(), ids[k - 1]);
        if ids[k - 1] == ss.last().instance_id@ {
            assert(child == child_prev.push(ss.last()));
            assert(child.drop_last() =~= child_prev);
            assert(child.last() == ss.last());
            assert(spec_row_sum(child, rows, uc, lo, hi, t) == spec_row_sum(
                child_prev,
                rows,
                uc,
                lo,
                hi,
                t,
            ) + spec_state_overlap(ss.last(), lo, hi) * spec_effective_price(
                rows,
                uc,
                ss.last().flavor_name@,
                t,
            ));
            assert forall|j: int| 0 <= j < k - 1 implies ids[j] != ss.last().instance_id@ by {
                assert(ids[j] != ids[k - 1]);
            }
            assert(exists|j: int| 0 <= j < k && ids[j] == ss.last().instance_id@) by {
                assert(ids[k - 1] == ss.last().instance_id@);
            }
        } else {
            assert(child == child_prev);
            assert((exists|j: int| 0 <= j < k && ids[j] == ss.last().instance_id@) == (exists|j: int|
                0 <= j < k - 1 && ids[j] == ss.last().instance_id@));
        }
    }
}

proof fn lemma_children_row_sum_empty(
    ids: Seq<Seq<char>>,
    ss: Seq<ServerState>,
    rows: Seq<FlavorPrice>,
    uc: UserClass,
    lo: int,
    hi: int,
    t: int,
    k: int,
)
    requires
        ss.len() == 0,
    ensures
        spec_children_row_sum(ids, ss, rows, uc, lo, hi, t, k) == 0,
    decreases k,
{
    if k > 0 {
        lemma_children_row_sum_empty(ids, ss, rows, uc, lo, hi, t, k - 1);
    }
}

/// Every record with an overlap in the window belongs to a listed active
/// server.
proof fn lemma_active_server_membership(ss: Seq<ServerState>, b: int, e: int)
    ensures
        forall|j: int|
            0 <= j < ss.len() && spec_row_active(#[trigger] ss[j], b, e) ==> exists|i: int|
                0 <= i < crate::consumption::spec_active_servers(ss, b, e).len()
                    && crate::consumption::spec_active_servers(ss, b, e)[i] == ss[j].instance_id@,
    decreases ss.len(),
{
    if ss.len() > 0 {
        lemma_active_server_membership(ss.drop_last(), b, e);
        let prev = crate::consumption::spec_active_servers(ss.drop_last(), b, e);
        let cur = crate::consumption::spec_active_servers(ss, b, e);
        assert forall|j: int|
            0 <= j < ss.len() && spec_row_active(#[trigger] ss[j], b, e) implies exists|i: int|
            0 <= i < cur.len() && cur[i] == ss[j].instance_id@ by {
            if j < ss.len() - 1 {
                assert(ss.drop_last()[j] == ss[j]);
                let i = choose|i: int| 0 <= i < prev.len() && prev[i] == ss[j].instance_id@;
                assert(cur[i] == ss[j].instance_id@);
            } else {
                if prev.contains(ss.last().instance_id@) {
                    let i = choose|i: int|
                        0 <= i < prev.len() && prev[i] == ss.last().instance_id@;
                    assert(cur[i] == ss[j].instance_id@);
                } else {
                    assert(cur[cur.len() - 1] == ss[j].instance_id@);
                }
            }
        }
    }
}

/// Grouping the records by active server neither loses nor doubles priced
/// seconds: records of unlisted servers miss the window, and inside it they
/// miss every period.
proof fn lemma_children_row_sum_total(
    ids: Seq<Seq<char>>,
    ss: Seq<ServerState>,
    rows: Seq<FlavorPrice>,
    uc: UserClass,
    lo: int,
    hi: int,
    t: int,
    b: int,
    e: int,
)
    requires
        forall|a: int, b2: int| 0 <= a < b2 < ids.len() ==> ids[a] != ids[b2],
        forall|j: int|
            0 <= j < ss.len() && spec_row_active(#[trigger] ss[j], b, e) ==> exists|i: int|
                0 <= i < ids.len() && ids[i] == ss[j].instance_id@,
        b <= lo,
        hi <= e,
    ensures
        spec_children_row_sum(ids, ss, rows, uc, lo, hi, t, ids.len() as int) == spec_row_sum(
            ss,
            rows,
            uc,
            lo,
            hi,
            t,
        ),
    decreases ss.len(),
{
    if ss.len() == 0 {
        lemma_children_row_sum_empty(ids, ss, rows, uc, lo, hi, t, ids.len() as int);
    } else {
        assert forall|j: int|
            0 <= j < ss.drop_last().len() && spec_row_active(
                #[trigger] ss.drop_last()[j],
                b,
                e,
            ) implies exists|i: int|
            0 <= i < ids.len() && ids[i] == ss.drop_last()[j].instance_id@ by {
            assert(ss.drop_last()[j] == ss[j]);
        }
        lemma_children_row_sum_total(ids, ss.drop_last(), rows, uc, lo, hi, t, b, e);
        lemma_children_row_sum_step(ids, ss, rows, uc, lo, hi, t, ids.len() as int);
        if !(exists|j: int| 0 <= j < ids.len() && ids[j] == ss.last().instance_id@) {
            assert(!spec_row_active(ss.last(), b, e));
            assert(!spec_row_active(ss.last(), lo, hi));
            crate::consumption::lemma_inactive_overlap_zero(ss.last(), lo, hi);
        }
    }
}

/// The first `nids` server scopes' cost over the first `k` periods, summed.
pub open spec fn spec_children_cost_upto(
    ids: Seq<Seq<char>>,
    ss: Seq<ServerState>,
    rows: Seq<FlavorPrice>,
    uc: UserClass,
    bs: Seq<int>,
    end: int,
    nids: int,
    k: int,
) -> int
    decreases nids,
{
    if nids <= 0 {
        0
    } else {
        spec_children_cost_upto(ids, ss, rows, uc, bs, end, nids - 1, k) + spec_cost_upto(
            crate::server_state::spec_states_of_server(ss, ids[nids - 1]),
            rows,
            uc,
            bs,
            end,
            k,
        )
    }
}

/// One more period adds, over all scopes, the per-scope period costs.
proof fn lemma_children_cost_step(
    ids: Seq<Seq<char>>,
    ss: Seq<ServerState>,
    rows: Seq<FlavorPrice>,
    uc: UserClass,
    bs: Seq<int>,
    end: int,
    nids: int,
    k: int,
)
    requires
        0 <= nids <= ids.len(),
        0 < k <= bs.len(),
        states_wf(ss),
        0 <= bs[k - 1],
        spec_period_end(bs, k - 1, end) <= MAX_TIME,
        forall|j: int| 0 <= j < rows.len() ==> (#[trigger] rows[j]).unit_price >= 0,
    ensures
        spec_children_cost_upto(ids, ss, rows, uc, bs, end, nids, k) == spec_children_cost_upto(
            ids,
            ss,
            rows,
            uc,
            bs,
            end,
            nids,
            k - 1,
        ) + spec_children_row_sum(
            ids,
            ss,
            rows,
            uc,
            bs[k - 1],
            spec_period_end(bs, k - 1, end),
            bs[k - 1],
            nids,
        ),
    decreases nids,
{
    if nids > 0 {
        lemma_children_cost_step(ids, ss, rows, uc, bs, end, nids - 1, k);
        let child = crate::server_state::spec_states_of_server(ss, ids[nids - 1]);
        assert(states_wf(child)) by {
            crate::consumption::lemma_states_of_server_subset(ss, ids[nids - 1]);
            crate::consumption::lemma_scoped_states_wf(ss, child);
        }
        lemma_period_cost_is_row_sum(
            child,
            rows,
            uc,
            bs[k - 1],
            spec_period_end(bs, k - 1, end),
        );
    }
}

/// Summed over all periods, the per-server totals equal the flat total: with
/// nonnegative prices the per-server and per-flavor clampings agree.
proof fn lemma_children_cost_total(
    ids: Seq<Seq<char>>,
    ss: Seq<ServerState>,
    rows: Seq<FlavorPrice>,
    uc: UserClass,
    bs: Seq<int>,
    end: int,
    k: int,
    b: int,
    e: int,
)
    requires
        0 <= k <= bs.len(),
        states_wf(ss),
        forall|a: int, b2: int| 0 <= a < b2 < ids.len() ==> ids[a] != ids[b2],
        forall|j: int|
            0 <= j < ss.len() && spec_row_active(#[trigger] ss[j], b, e) ==> exists|i: int|
                0 <= i < ids.len() && ids[i] == ss[j].instance_id@,
        forall|j: int| 0 <= j < bs.len() ==> b <= #[trigger] bs[j] <= e,
        0 <= b,
        e <= MAX_TIME,
        end <= e,
        forall|j: int| 0 <= j < rows.len() ==> (#[trigger] rows[j]).unit_price >= 0,
    ensures
        spec_children_cost_upto(ids, ss, rows, uc, bs, end, ids.len() as int, k) == spec_cost_upto(
            ss,
            rows,
            uc,
            bs,
            end,
            k,
        ),
    decreases k,
{
    if k == 0 {
        lemma_children_cost_zero(ids, ss, rows, uc, bs, end, ids.len() as int);
    } else {
        lemma_children_cost_total(ids, ss, rows, uc, bs, end, k - 1, b, e);
        let lo = bs[k - 1];
        let hi = spec_period_end(bs, k - 1, end);
        assert(hi <= e);
        lemma_children_cost_step(ids, ss, rows, uc, bs, end, ids.len() as int, k);
        lemma_children_row_sum_total(ids, ss, rows, uc, lo, hi, lo, b, e);
        lemma_period_cost_is_row_sum(ss, rows, uc, lo, hi);
    }
}

proof fn lemma_children_cost_zero(
    ids: Seq<Seq<char>>,
    ss: Seq<ServerState>,
    rows: Seq<FlavorPrice>,
    uc: UserClass,
    bs: Seq<int>,
    end: int,
    nids: int,
)
    ensures
        spec_children_cost_upto(ids, ss, rows, uc, bs, end, nids, 0) == 0,
    decreases nids,
{
    if nids > 0 {
        lemma_children_cost_zero(ids, ss, rows, uc, bs, end, nids - 1);
    }
}

/// Per-server child totals accumulate exactly the per-server window costs.
proof fn lemma_children_total_is_cost(
    ids: Seq<Seq<char>>,
    ss: Seq<ServerState>,
    prices: Seq<FlavorPrice>,
    uc: UserClass,
    begin: int,
    end: int,
    k: int,
)
    requires
        0 <= k <= ids.len(),
    ensures
        crate::cost::spec_server_children_total_upto(ids, ss, prices, uc, begin, end, k)
            == spec_children_cost_upto(
            ids,
            ss,
            spec_prices_until(prices, end),
            uc,
            spec_bounds(prices, begin, end),
            end,
            k,
            spec_bounds(prices, begin, end).len() as int,
        ),
    decreases k,
{
    if k > 0 {
        lemma_children_total_is_cost(ids, ss, prices, uc, begin, end, k - 1);
    }
}

/// Detail and normal agreement at user scope: with no negative unit price
/// stored, the sum of the per-server totals is the user's flat window total.
pub proof fn lemma_detail_matches_normal_for_user(
    scoped: Seq<ServerState>,
    prices: Seq<FlavorPrice>,
    uc: UserClass,
    begin: int,
    end: int,
)
    requires
        states_wf(scoped),
        prices_sorted_desc(prices),
        prices_distinct_starts(prices),
        prices_wf(prices),
        0 <= begin <= end <= MAX_TIME,
        forall|j: int| 0 <= j < prices.len() ==> (#[trigger] prices[j]).unit_price >= 0,
    ensures
        crate::cost::spec_user_detail_total(scoped, prices, uc, begin, end) == spec_flat_cost(
            scoped,
            prices,
            uc,
            begin,
            end,
        ),
{
    let ids = crate::consumption::spec_active_servers(scoped, begin, end);
    let rows = spec_prices_until(prices, end);
    let bs = spec_bounds(prices, begin, end);
    crate::cost::lemma_active_servers_distinct(scoped, begin, end);
    lemma_active_server_membership(scoped, begin, end);
    lemma_bounds_window(prices, begin, end);
    crate::flavor_price::lemma_until_props(prices, end);
    assert forall|j: int| 0 <= j < rows.len() implies (#[trigger] rows[j]).unit_price >= 0 by {
        let i = choose|i: int| #![trigger prices[i]] 0 <= i < prices.len() && rows[j] == prices[i];
    }
    lemma_children_total_is_cost(ids, scoped, prices, uc, begin, end, ids.len() as int);
    lemma_children_cost_total(
        ids,
        scoped,
        rows,
        uc,
        bs,
        end,
        bs.len() as int,
        begin,
        end,
    );
}

/// Priced seconds of the first `k` user scopes, summed.
pub open spec fn spec_names_row_sum(
    names: Seq<Seq<char>>,
    ss: Seq<ServerState>,
    rows: Seq<FlavorPrice>,
    uc: UserClass,
    lo: int,
    hi: int,
    t: int,
    k: int,
) -> int
    decreases k,
{
    if k <= 0 {
        0
    } else {
        spec_names_row_sum(names, ss, rows, uc, lo, hi, t, k - 1) + spec_row_sum(
            crate::server_state::spec_states_of_username(ss, names[k - 1]),
            rows,
            uc,
            lo,
            hi,
            t,
        )
    }
}

proof fn lemma_names_row_sum_step(
    names: Seq<Seq<char>>,
    ss: Seq<ServerState>,
    rows: Seq<FlavorPrice>,
    uc: UserClass,
    lo: int,
    hi: int,
    t: int,
    k: int,
)
    requires
        0 <= k <= names.len(),
        ss.len() > 0,
        forall|a: int, b: int| 0 <= a < b < names.len() ==> names[a] != names[b],
    ensures
        spec_names_row_sum(names, ss, rows, uc, lo, hi, t, k) == spec_names_row_sum(
            names,
            ss.drop_last(),
            rows,
            uc,
            lo,
            hi,
            t,
            k,
        ) + if (exists|j: int| 0 <= j < k && names[j] == ss.last().username@) {
            spec_state_overlap(ss.last(), lo, hi) * spec_effective_price(
                rows,
                uc,
                ss.last().flavor_name@,
                t,
            )
        } else {
            0
        },
    decreases k,
{
    if k > 0 {
        lemma_names_row_sum_step(names, ss, rows, uc, lo, hi, t, k - 1);
        let child = crate::server_state::spec_states_of_username(ss, names[k - 1]);
        let child_prev = crate::server_state::spec_states_of_username(ss.drop_last(), names[k - 1]);
        if names[k - 1] == ss.last().username@ {
            assert(child == child_prev.push(ss.last()));
            assert(child.drop_last() =~= child_prev);
            assert(child.last() == ss.last());
            assert(spec_row_sum(child, rows, uc, lo, hi, t) == spec_row_sum(
                child_prev,
                rows,
                uc,
                lo,
                hi,
                t,
            ) + spec_state_overlap(ss.last(), lo, hi) * spec_effective_price(
                rows,
                uc,
                ss.last().flavor_name@,
                t,
            ));
            assert forall|j: int| 0 <= j < k - 1 implies names[j] != ss.last().username@ by {
                assert(names[j] != names[k - 1]);
            }
            assert(exists|j: int| 0 <= j < k && names[j] == ss.last().username@) by {
                assert(names[k - 1] == ss.last().username@);
            }
        } else {
            assert(child == child_prev);
            assert((exists|j: int| 0 <= j < k && names[j] == ss.last().username@) == (exists|j: int|
                0 <= j < k - 1 && names[j] == ss.last().username@));
        }
    }
}

proof fn lemma_names_row_sum_empty(
    names: Seq<Seq<char>>,
    ss: Seq<ServerState>,
    rows: Seq<FlavorPrice>,
    uc: UserClass,
    lo: int,
    hi: int,
    t: int,
    k: int,
)
    requires
        ss.len() == 0,
    ensures
        spec_names_row_sum(names, ss, rows, uc, lo, hi, t, k) == 0,
    decreases k,
{
    if k > 0 {
        lemma_names_row_sum_empty(names, ss, rows, uc, lo, hi, t, k - 1);
    }
}

/// Every record with an overlap in the window belongs to a listed active
/// user name.
proof fn lemma_active_username_membership(ss: Seq<ServerState>, b: int, e: int)
    ensures
        forall|j: int|
            0 <= j < ss.len() && spec_row_active(#[trigger] ss[j], b, e) ==> exists|i: int|
                0 <= i < crate::consumption::spec_active_usernames(ss, b, e).len()
                    && crate::consumption::spec_active_usernames(ss, b, e)[i] == ss[j].username@,
    decreases ss.len(),
{
    if ss.len() > 0 {
        lemma_active_username_membership(ss.drop_last(), b, e);
        let prev = crate::consumption::spec_active_usernames(ss.drop_last(), b, e);
        let cur = crate::consumption::spec_active_usernames(ss, b, e);
        assert forall|j: int|
            0 <= j < ss.len() && spec_row_active(#[trigger] ss[j], b, e) implies exists|i: int|
            0 <= i < cur.len() && cur[i] == ss[j].username@ by {
            if j < ss.len() - 1 {
                assert(ss.drop_last()[j] == ss[j]);
                let i = choose|i: int| 0 <= i < prev.len() && prev[i] == ss[j].username@;
                assert(cur[i] == ss[j].username@);
            } else {
                if prev.contains(ss.last().username@) {
                    let i = choose|i: int| 0 <= i < prev.len() && prev[i] == ss.last().username@;
                    assert(cur[i] == ss[j].username@);
                } else {
                    assert(cur[cur.len() - 1] == ss[j].username@);
                }
            }
        }
    }
}

/// Grouping the records by active user name neither loses nor doubles
/// priced seconds.
proof fn lemma_names_row_sum_total(
    names: Seq<Seq<char>>,
    ss: Seq<ServerState>,
    rows: Seq<FlavorPrice>,
    uc: UserClass,
    lo: int,
    hi: int,
    t: int,
    b: int,
    e: int,
)
    requires
        forall|a: int, b2: int| 0 <= a < b2 < names.len() ==> names[a] != names[b2],
        forall|j: int|
            0 <= j < ss.len() && spec_row_active(#[trigger] ss[j], b, e) ==> exists|i: int|
                0 <= i < names.len() && names[i] == ss[j].username@,
        b <= lo,
        hi <= e,
    ensures
        spec_names_row_sum(names, ss, rows, uc, lo, hi, t, names.len() as int) == spec_row_sum(
            ss,
            rows,
            uc,
            lo,
            hi,
            t,
        ),
    decreases ss.len(),
{
    if ss.len() == 0 {
        lemma_names_row_sum_empty(names, ss, rows, uc, lo, hi, t, names.len() as int);
    } else {
        assert forall|j: int|
            0 <= j < ss.drop_last().len() && spec_row_active(
                #[trigger] ss.drop_last()[j],
                b,
                e,
            ) implies exists|i: int|
            0 <= i < names.len() && names[i] == ss.drop_last()[j].username@ by {
            assert(ss.drop_last()[j] == ss[j]);
        }
        lemma_names_row_sum_total(names, ss.drop_last(), rows, uc, lo, hi, t, b, e);
        lemma_names_row_sum_step(names, ss, rows, uc, lo, hi, t, names.len() as int);
        if !(exists|j: int| 0 <= j < names.len() && names[j] == ss.last().username@) {
            assert(!spec_row_active(ss.last(), b, e));
            assert(!spec_row_active(ss.last(), lo, hi));
            crate::consumption::lemma_inactive_overlap_zero(ss.last(), lo, hi);
        }
    }
}

/// The first `nnames` user scopes' cost over the first `k` periods, summed.
pub open spec fn spec_names_cost_upto(
    names: Seq<Seq<char>>,
    ss: Seq<ServerState>,
    rows: Seq<FlavorPrice>,
    uc: UserClass,
    bs: Seq<int>,
    end: int,
    nnames: int,
    k: int,
) -> int
    decreases nnames,
{
    if nnames <= 0 {
        0
    } else {
        spec_names_cost_upto(names, ss, rows, uc, bs, end, nnames - 1, k) + spec_cost_upto(
            crate::server_state::spec_states_of_username(ss, names[nnames - 1]),
            rows,
            uc,
            bs,
            end,
            k,
        )
    }
}

proof fn lemma_names_cost_step(
    names: Seq<Seq<char>>,
    ss: Seq<ServerState>,
    rows: Seq<FlavorPrice>,
    uc: UserClass,
    bs: Seq<int>,
    end: int,
    nnames: int,
    k: int,
)
    requires
        0 <= nnames <= names.len(),
        0 < k <= bs.len(),
        states_wf(ss),
        0 <= bs[k - 1],
        spec_period_end(bs, k - 1, end) <= MAX_TIME,
        forall|j: int| 0 <= j < rows.len() ==> (#[trigger] rows[j]).unit_price >= 0,
    ensures
        spec_names_cost_upto(names, ss, rows, uc, bs, end, nnames, k) == spec_names_cost_upto(
            names,
            ss,
            rows,
            uc,
            bs,
            end,
            nnames,
            k - 1,
        ) + spec_names_row_sum(
            names,
            ss,
            rows,
            uc,
            bs[k - 1],
            spec_period_end(bs, k - 1, end),
            bs[k - 1],
            nnames,
        ),
    decreases nnames,
{
    if nnames > 0 {
        lemma_names_cost_step(names, ss, rows, uc, bs, end, nnames - 1, k);
        let child = crate::server_state::spec_states_of_username(ss, names[nnames - 1]);
        assert(states_wf(child)) by {
            crate::consumption::lemma_states_of_username_subset(ss, names[nnames - 1]);
            crate::consumption::lemma_scoped_states_wf(ss, child);
        }
        lemma_period_cost_is_row_sum(child, rows, uc, bs[k - 1], spec_period_end(bs, k - 1, end));
    }
}

proof fn lemma_names_cost_zero(
    names: Seq<Seq<char>>,
    ss: Seq<ServerState>,
    rows: Seq<FlavorPrice>,
    uc: UserClass,
    bs: Seq<int>,
    end: int,
    nnames: int,
)
    ensures
        spec_names_cost_upto(names, ss, rows, uc, bs, end, nnames, 0) == 0,
    decreases nnames,
{
    if nnames > 0 {
        lemma_names_cost_zero(names, ss, rows, uc, bs, end, nnames - 1);
    }
}

proof fn lemma_names_cost_total(
    names: Seq<Seq<char>>,
    ss: Seq<ServerState>,
    rows: Seq<FlavorPrice>,
    uc: UserClass,
    bs: Seq<int>,
    end: int,
    k: int,
    b: int,
    e: int,
)
    requires
        0 <= k <= bs.len(),
        states_wf(ss),
        forall|a: int, b2: int| 0 <= a < b2 < names.len() ==> names[a] != names[b2],
        forall|j: int|
            0 <= j < ss.len() && spec_row_active(#[trigger] ss[j], b, e) ==> exists|i: int|
                0 <= i < names.len() && names[i] == ss[j].username@,
        forall|j: int| 0 <= j < bs.len() ==> b <= #[trigger] bs[j] <= e,
        0 <= b,
        e <= MAX_TIME,
        end <= e,
        forall|j: int| 0 <= j < rows.len() ==> (#[trigger] rows[j]).unit_price >= 0,
    ensures
        spec_names_cost_upto(names, ss, rows, uc, bs, end, names.len() as int, k) == spec_cost_upto(
            ss,
            rows,
            uc,
            bs,
            end,
            k,
        ),
    decreases k,
{
    if k == 0 {
        lemma_names_cost_zero(names, ss, rows, uc, bs, end, names.len() as int);
    } else {
        lemma_names_cost_total(names, ss, rows, uc, bs, end, k - 1, b, e);
        let lo = bs[k - 1];
        let hi = spec_period_end(bs, k - 1, end);
        lemma_names_cost_step(names, ss, rows, uc, bs, end, names.len() as int, k);
        lemma_names_row_sum_total(names, ss, rows, uc, lo, hi, lo, b, e);
        lemma_period_cost_is_row_sum(ss, rows, uc, lo, hi);
    }
}

/// Per-user child totals accumulate exactly the per-user flat window costs,
/// once each user's own detail total is known to be their flat total.
proof fn lemma_user_children_total_is_cost(
    names: Seq<Seq<char>>,
    ss: Seq<ServerState>,
    prices: Seq<FlavorPrice>,
    uc: UserClass,
    begin: int,
    end: int,
    k: int,
)
    requires
        0 <= k <= names.len(),
        states_wf(ss),
        prices_sorted_desc(prices),
        prices_distinct_starts(prices),
        prices_wf(prices),
        0 <= begin <= end <= MAX_TIME,
        forall|j: int| 0 <= j < prices.len() ==> (#[trigger] prices[j]).unit_price >= 0,
    ensures
        crate::cost::spec_user_children_total_upto(names, ss, prices, uc, begin, end, k)
            == spec_names_cost_upto(
            names,
            ss,
            spec_prices_until(prices, end),
            uc,
            spec_bounds(prices, begin, end),
            end,
            k,
            spec_bounds(prices, begin, end).len() as int,
        ),
    decreases k,
{
    if k > 0 {
        lemma_user_children_total_is_cost(names, ss, prices, uc, begin, end, k - 1);
        let child = crate::server_state::spec_states_of_username(ss, names[k - 1]);
        assert(states_wf(child)) by {
            crate::consumption::lemma_states_of_username_subset(ss, names[k - 1]);
            crate::consumption::lemma_scoped_states_wf(ss, child);
        }
        lemma_detail_matches_normal_for_user(child, prices, uc, begin, end);
    }
}

/// Detail and normal agreement at project scope: with no negative unit price
/// stored, the sum of the per-user totals is the project's flat window
/// total.
pub proof fn lemma_detail_matches_normal_for_project(
    scoped: Seq<ServerState>,
    prices: Seq<FlavorPrice>,
    uc: UserClass,
    begin: int,
    end: int,
)
    requires
        states_wf(scoped),
        prices_sorted_desc(prices),
        prices_distinct_starts(prices),
        prices_wf(prices),
        0 <= begin <= end <= MAX_TIME,
        forall|j: int| 0 <= j < prices.len() ==> (#[trigger] prices[j]).unit_price >= 0,
    ensures
        crate::cost::spec_project_detail_total(scoped, prices, uc, begin, end) == spec_flat_cost(
            scoped,
            prices,
            uc,
            begin,
            end,
        ),
{
    let names = crate::consumption::spec_active_usernames(scoped, begin, end);
    let rows = spec_prices_until(prices, end);
    let bs = spec_bounds(prices, begin, end);
    crate::cost::lemma_active_usernames_distinct(scoped, begin, end);
    lemma_active_username_membership(scoped, begin, end);
    lemma_bounds_window(prices, begin, end);
    crate::flavor_price::lemma_until_props(prices, end);
    assert forall|j: int| 0 <= j < rows.len() implies (#[trigger] rows[j]).unit_price >= 0 by {
        let i = choose|i: int| #![trigger prices[i]] 0 <= i < prices.len() && rows[j] == prices[i];
    }
    lemma_user_children_total_is_cost(names, scoped, prices, uc, begin, end, names.len() as int);
    lemma_names_cost_total(names, scoped, rows, uc, bs, end, bs.len() as int, begin, end);
}

/// Detail and normal agreement over everything: with no negative unit price
/// stored, the detailed grand total is the flat grand total.
pub proof fn lemma_detail_matches_normal_for_all(
    entries: Seq<(Seq<char>, UserClass)>,
    states: Seq<ServerState>,
    users: Seq<crate::user::User>,
    prices: Seq<FlavorPrice>,
    begin: int,
    end: int,
    k: int,
)
    requires
        0 <= k <= entries.len(),
        states_wf(states),
        prices_sorted_desc(prices),
        prices_distinct_starts(prices),
        prices_wf(prices),
        0 <= begin <= end <= MAX_TIME,
        forall|j: int| 0 <= j < prices.len() ==> (#[trigger] prices[j]).unit_price >= 0,
    ensures
        crate::cost::spec_all_detail_upto(entries, states, users, prices, begin, end, k)
            == crate::cost::spec_all_normal_upto(entries, states, users, prices, begin, end, k),
    decreases k,
{
    if k > 0 {
        lemma_detail_matches_normal_for_all(entries, states, users, prices, begin, end, k - 1);
        let child = crate::server_state::spec_states_of_project_name(
            states,
            users,
            entries[k - 1].0,
        );
        assert(states_wf(child)) by {
            crate::server_state::lemma_states_of_project_name_props(states, users, entries[k - 1].0);
            crate::consumption::lemma_scoped_states_wf(states, child);
        }
        lemma_detail_matches_normal_for_project(child, prices, entries[k - 1].1, begin, end);
    }
}

} // verus!
