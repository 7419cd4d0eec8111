//! Building the price periods of a window: the ordered timestamps at which
//! some price changes, each carrying the full table in effect from there
//! until the next period starts.

use vstd::prelude::*;
use crate::MAX_TIME;
use crate::flavor_price::{
    FlavorPrice, lemma_effective_price_subset, lemma_filter_preserves_effective, lemma_filter_subset,
    lemma_filter_wf, lemma_latest_index, lemma_until_props, price_applies, prices_distinct_starts,
    prices_sorted_desc, prices_wf, select_flavor_prices_for_period, spec_effective_price,
    spec_filter_prices, spec_latest_index, spec_prices_until,
};
use crate::price_table::{PriceCell, lemma_t_set, t_lookup, t_set, t_unique, table_price, table_set, table_view};
use crate::resources::Flavor;
use crate::user::UserClass;

verus! {

/// One price period: from `start` until the next period (or the window end)
/// the table `prices` is in effect.
#[derive(Debug)]
pub struct PricePeriod {
    pub start: i64,
    pub prices: Vec<PriceCell>,
}

pub open spec fn prices_sorted_asc(ps: Seq<FlavorPrice>) -> bool {
    forall|i: int, j: int|
        0 <= i <= j < ps.len() ==> (#[trigger] ps[i]).start_time <= (#[trigger] ps[j]).start_time
}

/// The period start timestamps, in order.
pub open spec fn starts_of(periods: Seq<PricePeriod>) -> Seq<int> {
    periods.map(|i: int, p: PricePeriod| p.start as int)
}

/// The distinct start times above `begin` of a newest-first row sequence,
/// oldest first.
pub open spec fn spec_boundaries_desc(ps: Seq<FlavorPrice>, begin: int) -> Seq<int>
    decreases ps.len(),
{
    if ps.len() == 0 {
        Seq::empty()
    } else {
        let rest = spec_boundaries_desc(ps.drop_first(), begin);
        let s = ps[0].start_time as int;
        if s > begin && (rest.len() == 0 || rest.last() != s) {
            rest.push(s)
        } else {
            rest
        }
    }
}

/// The period starts of window `[begin, end)` over a price history: `begin`
/// itself, then every distinct price-change instant inside the window.
pub open spec fn spec_bounds(prices: Seq<FlavorPrice>, begin: int, end: int) -> Seq<int> {
    seq![begin] + spec_boundaries_desc(
        spec_filter_prices(spec_prices_until(prices, end), begin),
        begin,
    )
}

/// There are at most as many change instants as rows.
pub proof fn lemma_boundaries_len(ps: Seq<FlavorPrice>, begin: int)
    ensures
        spec_boundaries_desc(ps, begin).len() <= ps.len(),
    decreases ps.len(),
{
    if ps.len() > 0 {
        lemma_boundaries_len(ps.drop_first(), begin);
    }
}

/// A window has at most one period more than there are price rows.
pub proof fn lemma_bounds_len(prices: Seq<FlavorPrice>, begin: int, end: int)
    ensures
        1 <= spec_bounds(prices, begin, end).len() <= prices.len() + 1,
        spec_bounds(prices, begin, end)[0] == begin,
{
    let u = spec_prices_until(prices, end);
    let f = spec_filter_prices(u, begin);
    crate::flavor_price::lemma_until_len(prices, end);
    crate::flavor_price::lemma_filter_len(u, begin, u.len() as int);
    lemma_boundaries_len(f, begin);
    assert(spec_bounds(prices, begin, end)[0] == begin);
}

/// Price of cell (`uc`, `f`) after replaying the first `n` rows of an
/// oldest-first row sequence, zero before any row wrote it.
pub open spec fn spec_applied_price(asc: Seq<FlavorPrice>, n: int, uc: UserClass, f: Seq<char>) -> int
    decreases n,
{
    if n <= 0 {
        0
    } else if price_applies(asc[n - 1], uc, f) {
        asc[n - 1].unit_price as int
    } else {
        spec_applied_price(asc, n - 1, uc, f)
    }
}

/// Replaying rows no newer than `t` yields the price in effect at `t` over
/// those rows.
proof fn lemma_applied_take(asc: Seq<FlavorPrice>, n: int, uc: UserClass, f: Seq<char>, t: int)
    requires
        prices_sorted_asc(asc),
        0 <= n <= asc.len(),
        forall|j: int| 0 <= j < n ==> (#[trigger] asc[j]).start_time <= t,
    ensures
        spec_applied_price(asc, n, uc, f) == spec_effective_price(asc.take(n), uc, f, t),
    decreases n,
{
    if n > 0 {
        lemma_applied_take(asc, n - 1, uc, f, t);
        let tk = asc.take(n);
        assert(tk.drop_last() =~= asc.take(n - 1));
        assert(tk.last() == asc[n - 1]);
        let r = spec_latest_index(asc.take(n - 1), uc, f, t);
        lemma_latest_index(asc.take(n - 1), uc, f, t);
        if price_applies(asc[n - 1], uc, f) {
            if r >= 0 {
                assert(asc.take(n - 1)[r] == asc[r]);
                assert(asc[r].start_time <= asc[n - 1].start_time);
            }
            assert(spec_latest_index(tk, uc, f, t) == n - 1);
        } else {
            assert(spec_latest_index(tk, uc, f, t) == r);
            if r >= 0 {
                assert(tk[r] == asc.take(n - 1)[r]);
            }
        }
    } else {
        assert(asc.take(0) =~= Seq::<FlavorPrice>::empty());
    }
}

/// Rows strictly newer than `t` do not change the price in effect at `t`.
proof fn lemma_effective_skip_late(asc: Seq<FlavorPrice>, n: int, uc: UserClass, f: Seq<char>, t: int)
    requires
        0 <= n <= asc.len(),
        forall|j: int| n <= j < asc.len() ==> (#[trigger] asc[j]).start_time > t,
    ensures
        spec_effective_price(asc.take(n), uc, f, t) == spec_effective_price(asc, uc, f, t),
    decreases asc.len(),
{
    if asc.len() > n {
        assert(asc[asc.len() - 1].start_time > t);
        assert(asc.drop_last().take(n) =~= asc.take(n));
        lemma_effective_skip_late(asc.drop_last(), n, uc, f, t);
        let r = spec_latest_index(asc.drop_last(), uc, f, t);
        assert(spec_latest_index(asc, uc, f, t) == r);
        lemma_latest_index(asc.drop_last(), uc, f, t);
        if r >= 0 {
            assert(asc[r] == asc.drop_last()[r]);
        }
    } else {
        assert(asc.take(n) =~= asc);
    }
}

/// After replaying exactly the rows at or before `t`, every cell holds the
/// price in effect at `t`.
proof fn lemma_applied_is_effective(asc: Seq<FlavorPrice>, n: int, uc: UserClass, f: Seq<char>, t: int)
    requires
        prices_sorted_asc(asc),
        0 <= n <= asc.len(),
        forall|j: int| 0 <= j < n ==> (#[trigger] asc[j]).start_time <= t,
        forall|j: int| n <= j < asc.len() ==> (#[trigger] asc[j]).start_time > t,
    ensures
        spec_applied_price(asc, n, uc, f) == spec_effective_price(asc, uc, f, t),
{
    lemma_applied_take(asc, n, uc, f, t);
    lemma_effective_skip_late(asc, n, uc, f, t);
}

/// Reversing a row sequence with distinct per-cell start times keeps every
/// price in effect.
pub proof fn lemma_effective_price_reverse(ps: Seq<FlavorPrice>, uc: UserClass, f: Seq<char>, t: int)
    requires
        prices_distinct_starts(ps),
    ensures
        spec_effective_price(ps.reverse(), uc, f, t) == spec_effective_price(ps, uc, f, t),
{
    let rv = ps.reverse();
    assert forall|k: int| #![trigger rv[k]] 0 <= k < rv.len() implies exists|j: int|
        #![trigger ps[j]]
        0 <= j < ps.len() && rv[k] == ps[j] by {
        assert(rv[k] == ps[ps.len() - 1 - k]);
    }
    lemma_latest_index(ps, uc, f, t);
    let ib = spec_latest_index(ps, uc, f, t);
    if ib >= 0 {
        assert(rv[ps.len() - 1 - ib] == ps[ib]);
    }
    lemma_effective_price_subset(ps, rv, uc, f, t);
}

/// The rows oldest first.
pub fn reverse_prices(prices: &Vec<FlavorPrice>) -> (r: Vec<FlavorPrice>)
    ensures
        r@ == prices@.reverse(),
{
    let n = prices.len();
    let mut r: Vec<FlavorPrice> = Vec::new();
    let mut i: usize = 0;
    while i < n
        invariant
            n == prices@.len(),
            0 <= i <= n,
            r@.len() == i,
            forall|k: int| 0 <= k < i ==> r@[k] == prices@[n - 1 - k],
        decreases n - i,
    {
        r.push(prices[n - 1 - i].clone());
        i += 1;
    }
    proof {
        assert(r@ =~= prices@.reverse());
    }
    r
}

/// A copy of a table, cell for cell.
fn clone_table(cs: &Vec<PriceCell>) -> (r: Vec<PriceCell>)
    ensures
        r@ == cs@,
{
    let r = cs.clone();
    proof {
        assert forall|k: int| 0 <= k < cs@.len() implies r@[k] == cs@[k] by {
            assert(vstd::pervasive::cloned::<PriceCell>(cs@[k], r@[k]));
        }
        assert(r@ =~= cs@);
    }
    r
}

/// The price periods of `[begin, end)`: the first period starts at `begin`
/// and carries the prices in effect there; every distinct price-change
/// instant inside the window opens a further period; each period's table
/// prices every cell as the history (restricted to rows at or before `end`)
/// has it at the period's start.
pub fn get_flavor_price_periods(
    flavors: &Vec<Flavor>,
    prices: &Vec<FlavorPrice>,
    begin: i64,
    end: i64,
) -> (r: Vec<PricePeriod>)
    requires
        prices_sorted_desc(prices@),
        prices_distinct_starts(prices@),
        prices_wf(prices@),
        0 <= begin <= end <= MAX_TIME,
    ensures
        starts_of(r@) == spec_bounds(prices@, begin as int, end as int),
        forall|k: int, uc: UserClass, fname: Seq<char>|
            0 <= k < r@.len() ==> #[trigger] t_lookup(table_view(r@[k].prices@), uc, fname)
                == spec_effective_price(
                spec_prices_until(prices@, end as int),
                uc,
                fname,
                r@[k].start as int,
            ),
        forall|k: int| 0 <= k < r@.len() ==> begin <= (#[trigger] r@[k]).start <= end,
{
    let ghost u_rows = spec_prices_until(prices@, end as int);
    let ghost f_rows = spec_filter_prices(u_rows, begin as int);
    let fp = select_flavor_prices_for_period(prices, begin, end);
    let asc = reverse_prices(&fp);
    let ghost a_rows = f_rows.reverse();
    proof {
        lemma_until_props(prices@, end as int);
        lemma_filter_wf(u_rows, begin as int);
        lemma_filter_subset(u_rows, begin as int, u_rows.len() as int);
        assert forall|i: int, j: int| 0 <= i <= j < a_rows.len() implies (
        #[trigger] a_rows[i]).start_time <= (#[trigger] a_rows[j]).start_time by {
            assert(a_rows[i] == f_rows[f_rows.len() - 1 - i]);
            assert(a_rows[j] == f_rows[f_rows.len() - 1 - j]);
        }
        assert forall|k: int| 0 <= k < a_rows.len() implies 0 <= (#[trigger] a_rows[k]).start_time
            <= end by {
            assert(a_rows[k] == f_rows[f_rows.len() - 1 - k]);
            let j = choose|j: int|
                0 <= j < u_rows.len() && f_rows[f_rows.len() - 1 - k] == u_rows[j];
        }
    }
    let n = asc.len();

    let mut table: Vec<PriceCell> = Vec::new();
    proof {
        assert forall|uc: UserClass, fname: Seq<char>| #[trigger] t_lookup(
            table_view(table@),
            uc,
            fname,
        ) == 0 by {
            crate::price_table::lemma_tkey_index(table_view(table@), uc, fname);
        }
    }
    let ucs = UserClass::all();
    let mut a: usize = 0;
    while a < 7
        invariant
            ucs@.len() == 7,
            0 <= a <= 7,
            t_unique(table_view(table@)),
            forall|uc: UserClass, fname: Seq<char>| #[trigger] t_lookup(table_view(table@), uc, fname) == 0,
        decreases 7 - a,
    {
        let nf = flavors.len();
        let mut b: usize = 0;
        while b < nf
            invariant
                ucs@.len() == 7,
                a < 7,
                nf == flavors@.len(),
                0 <= b <= nf,
                t_unique(table_view(table@)),
                forall|uc: UserClass, fname: Seq<char>| #[trigger] t_lookup(table_view(table@), uc, fname) == 0,
            decreases nf - b,
        {
            let ghost m0 = table_view(table@);
            table_set(&mut table, ucs[a], &flavors[b].name, 0);
            proof {
                lemma_t_set(m0, ucs@[a as int], flavors@[b as int].name@, 0);
            }
            b += 1;
        }
        a += 1;
    }

    let mut periods: Vec<PricePeriod> = Vec::new();
    let mut i: usize = 0;
    while i < n && asc[i].start_time <= begin
        invariant
            n == asc@.len(),
            asc@ == a_rows,
            a_rows == f_rows.reverse(),
            prices_sorted_asc(a_rows),
            forall|k: int| 0 <= k < a_rows.len() ==> 0 <= (#[trigger] a_rows[k]).start_time <= end,
            0 <= i <= n,
            t_unique(table_view(table@)),
            forall|uc: UserClass, fname: Seq<char>| #[trigger] t_lookup(table_view(table@), uc, fname)
                == spec_applied_price(a_rows, i as int, uc, fname),
            forall|j: int| 0 <= j < i ==> (#[trigger] a_rows[j]).start_time <= begin,
            spec_boundaries_desc(f_rows.skip(n - i), begin as int) == Seq::<int>::empty(),
        decreases n - i,
    {
        let ghost m0 = table_view(table@);
        let row = &asc[i];
        table_set(&mut table, row.user_class, &row.flavor_name, row.unit_price);
        proof {
            lemma_t_set(m0, a_rows[i as int].user_class, a_rows[i as int].flavor_name@, a_rows[i as int].unit_price as int);
            assert forall|uc: UserClass, fname: Seq<char>| #[trigger] t_lookup(
                table_view(table@),
                uc,
                fname,
            ) == spec_applied_price(a_rows, i + 1, uc, fname) by {
                if !(uc == a_rows[i as int].user_class && fname == a_rows[i as int].flavor_name@) {
                    assert(t_lookup(table_view(table@), uc, fname) == t_lookup(m0, uc, fname));
                }
            }
            assert(f_rows.skip(n - i - 1).drop_first() =~= f_rows.skip(n - i));
            assert(f_rows.skip(n - i - 1)[0] == f_rows[n - i - 1]);
            assert(a_rows[i as int] == f_rows[f_rows.len() - 1 - i]);
            assert(spec_boundaries_desc(f_rows.skip(n - i - 1), begin as int) == Seq::<int>::empty());
        }
        i += 1;
    }

    proof {
        assert(i < n ==> a_rows[i as int].start_time > begin);
        assert forall|j: int| i <= j < n implies (#[trigger] a_rows[j]).start_time > begin by {
            if i < n {
                assert(a_rows[i as int].start_time <= a_rows[j].start_time);
            }
        }
    }

    let first = PricePeriod { start: begin, prices: clone_table(&table) };
    let mut periods_started: Vec<PricePeriod> = periods;
    periods_started.push(first);
    let mut periods = periods_started;
    proof {
        assert forall|uc: UserClass, fname: Seq<char>| #[trigger] t_lookup(
            table_view(periods@[0].prices@),
            uc,
            fname,
        ) == spec_effective_price(u_rows, uc, fname, begin as int) by {
            lemma_applied_is_effective(a_rows, i as int, uc, fname, begin as int);
            lemma_effective_price_reverse(f_rows, uc, fname, begin as int);
            lemma_filter_preserves_effective(u_rows, begin as int, uc, fname, begin as int);
        }
    }

    if i == n {
        proof {
            assert(f_rows.skip(0) =~= f_rows);
            assert(starts_of(periods@) =~= spec_bounds(prices@, begin as int, end as int));
        }
        return periods;
    }

    let mut current_time = asc[i].start_time;
    let ghost m0 = table_view(table@);
    let row0 = &asc[i];
    table_set(&mut table, row0.user_class, &row0.flavor_name, row0.unit_price);
    proof {
        lemma_t_set(m0, a_rows[i as int].user_class, a_rows[i as int].flavor_name@, a_rows[i as int].unit_price as int);
        assert forall|uc: UserClass, fname: Seq<char>| #[trigger] t_lookup(
            table_view(table@),
            uc,
            fname,
        ) == spec_applied_price(a_rows, i + 1, uc, fname) by {
            if !(uc == a_rows[i as int].user_class && fname == a_rows[i as int].flavor_name@) {
                assert(t_lookup(table_view(table@), uc, fname) == t_lookup(m0, uc, fname));
            }
        }
        assert(f_rows.skip(n - i - 1).drop_first() =~= f_rows.skip(n - i));
        assert(f_rows.skip(n - i - 1)[0] == f_rows[n - i - 1]);
        assert(a_rows[i as int] == f_rows[f_rows.len() - 1 - i]);
        assert(spec_boundaries_desc(f_rows.skip(n - i - 1), begin as int) =~= Seq::<int>::empty().push(
            current_time as int,
        ));
        assert(starts_of(periods@).skip(1) =~= Seq::<int>::empty());
    }
    i += 1;

    while i < n
        invariant
            n == asc@.len(),
            asc@ == a_rows,
            a_rows == f_rows.reverse(),
            prices_sorted_asc(a_rows),
            forall|k: int| 0 <= k < a_rows.len() ==> 0 <= (#[trigger] a_rows[k]).start_time <= end,
            0 < i <= n,
            t_unique(table_view(table@)),
            forall|uc: UserClass, fname: Seq<char>| #[trigger] t_lookup(table_view(table@), uc, fname)
                == spec_applied_price(a_rows, i as int, uc, fname),
            begin < current_time <= end,
            a_rows[i - 1].start_time == current_time,
            forall|j: int| 0 <= j < i ==> (#[trigger] a_rows[j]).start_time <= current_time,
            spec_boundaries_desc(f_rows.skip(n - i), begin as int) == starts_of(periods@).skip(1).push(
                current_time as int,
            ),
            periods@.len() >= 1,
            periods@[0].start == begin,
            forall|k: int| 0 <= k < periods@.len() ==> begin <= (#[trigger] periods@[k]).start <= end,
            forall|k: int, uc: UserClass, fname: Seq<char>|
                0 <= k < periods@.len() ==> #[trigger] t_lookup(
                    table_view(periods@[k].prices@),
                    uc,
                    fname,
                ) == spec_effective_price(u_rows, uc, fname, periods@[k].start as int),
            prices_distinct_starts(f_rows),
            prices_sorted_desc(u_rows),
            prices_distinct_starts(u_rows),
            f_rows == spec_filter_prices(u_rows, begin as int),
            u_rows == spec_prices_until(prices@, end as int),
        decreases n - i,
    {
        let same_start = asc[i].start_time == current_time;
        if !same_start {
            proof {
                assert(a_rows[i as int].start_time >= a_rows[i - 1].start_time);
                assert forall|j: int| i <= j < n implies (#[trigger] a_rows[j]).start_time
                    > current_time by {
                    assert(a_rows[j].start_time >= a_rows[i as int].start_time);
                }
            }
            let closed = PricePeriod { start: current_time, prices: clone_table(&table) };
            proof {
                assert forall|uc: UserClass, fname: Seq<char>| #[trigger] t_lookup(
                    table_view(table@),
                    uc,
                    fname,
                ) == spec_effective_price(u_rows, uc, fname, current_time as int) by {
                    lemma_applied_is_effective(a_rows, i as int, uc, fname, current_time as int);
                    lemma_effective_price_reverse(f_rows, uc, fname, current_time as int);
                    lemma_filter_preserves_effective(
                        u_rows,
                        begin as int,
                        uc,
                        fname,
                        current_time as int,
                    );
                }
            }
            periods.push(closed);
            current_time = asc[i].start_time;
            proof {
                assert(starts_of(periods@).skip(1) =~= starts_of(periods@.drop_last()).skip(
                    1,
                ).push(periods@.last().start as int));
            }
        }
        let ghost m1 = table_view(table@);
        let row = &asc[i];
        table_set(&mut table, row.user_class, &row.flavor_name, row.unit_price);
        proof {
            lemma_t_set(m1, a_rows[i as int].user_class, a_rows[i as int].flavor_name@, a_rows[i as int].unit_price as int);
            assert forall|uc: UserClass, fname: Seq<char>| #[trigger] t_lookup(
                table_view(table@),
                uc,
                fname,
            ) == spec_applied_price(a_rows, i + 1, uc, fname) by {
                if !(uc == a_rows[i as int].user_class && fname == a_rows[i as int].flavor_name@) {
                    assert(t_lookup(table_view(table@), uc, fname) == t_lookup(m1, uc, fname));
                }
            }
            assert(f_rows.skip(n - i - 1).drop_first() =~= f_rows.skip(n - i));
            assert(f_rows.skip(n - i - 1)[0] == f_rows[n - i - 1]);
            assert(a_rows[i as int] == f_rows[f_rows.len() - 1 - i]);
            if same_start {
                assert(spec_boundaries_desc(f_rows.skip(n - i - 1), begin as int) == starts_of(
                    periods@,
                ).skip(1).push(current_time as int));
            } else {
                assert(spec_boundaries_desc(f_rows.skip(n - i - 1), begin as int) =~= starts_of(
                    periods@,
                ).skip(1).push(current_time as int));
            }
        }
        i += 1;
    }

    let last = PricePeriod { start: current_time, prices: clone_table(&table) };
    proof {
        assert forall|uc: UserClass, fname: Seq<char>| #[trigger] t_lookup(
            table_view(table@),
            uc,
            fname,
        ) == spec_effective_price(u_rows, uc, fname, current_time as int) by {
            lemma_applied_is_effective(a_rows, n as int, uc, fname, current_time as int);
            lemma_effective_price_reverse(f_rows, uc, fname, current_time as int);
            lemma_filter_preserves_effective(u_rows, begin as int, uc, fname, current_time as int);
        }
    }
    periods.push(last);
    proof {
        assert(f_rows.skip(0) =~= f_rows);
        assert(starts_of(periods@) =~= seq![begin as int] + spec_boundaries_desc(
            f_rows,
            begin as int,
        ));
        assert(starts_of(periods@) =~= spec_bounds(prices@, begin as int, end as int));
    }
    periods
}

/// The price a period's table holds for one cell; a cell the table does not
/// carry prices as zero.
pub fn period_price(period: &PricePeriod, uc: UserClass, name: &String) -> (r: i64)
    ensures
        r as int == t_lookup(table_view(period.prices@), uc, name@),
{
    table_price(&period.prices, uc, name)
}

} // verus!
