//! Effective-dated flavor prices. For one (flavor, user class) cell the row
//! with the latest `start_time` at or before an instant is the price in
//! effect there; a cell with no such row costs nothing.

use vstd::prelude::*;
use crate::{MAX_TIME, MAX_UNIT_PRICE};
use crate::user::UserClass;

verus! {

/// One effective-dated price: from `start_time` on, a year of the flavor
/// costs `unit_price` for projects of `user_class`.
#[derive(Debug)]
pub struct FlavorPrice {
    pub id: u32,
    pub flavor: u32,
    pub flavor_name: String,
    pub user_class: UserClass,
    pub unit_price: i64,
    pub start_time: i64,
}

impl Clone for FlavorPrice {
    fn clone(&self) -> (res: Self)
        ensures
            res == *self,
    {
        FlavorPrice {
            id: self.id,
            flavor: self.flavor,
            flavor_name: self.flavor_name.clone(),
            user_class: self.user_class,
            unit_price: self.unit_price,
            start_time: self.start_time,
        }
    }
}

pub open spec fn price_wf(p: FlavorPrice) -> bool {
    &&& 0 <= p.start_time <= MAX_TIME
    &&& -MAX_UNIT_PRICE <= p.unit_price <= MAX_UNIT_PRICE
}

pub open spec fn prices_wf(ps: Seq<FlavorPrice>) -> bool {
    forall|i: int| 0 <= i < ps.len() ==> price_wf(#[trigger] ps[i])
}

/// Two rows price the same (flavor, user class) cell.
pub open spec fn same_cell(p: FlavorPrice, q: FlavorPrice) -> bool {
    p.user_class == q.user_class && p.flavor_name@ == q.flavor_name@
}

/// Within one cell all start times differ: the price in effect is unique.
pub open spec fn prices_distinct_starts(ps: Seq<FlavorPrice>) -> bool {
    forall|i: int, j: int|
        0 <= i < j < ps.len() && same_cell(#[trigger] ps[i], #[trigger] ps[j]) ==> ps[i].start_time
            != ps[j].start_time
}

/// Rows are ordered newest first, as the price history query returns them.
pub open spec fn prices_sorted_desc(ps: Seq<FlavorPrice>) -> bool {
    forall|i: int, j: int|
        0 <= i <= j < ps.len() ==> (#[trigger] ps[i]).start_time >= (#[trigger] ps[j]).start_time
}

/// The row prices cell (`uc`, `f`).
pub open spec fn price_applies(p: FlavorPrice, uc: UserClass, f: Seq<char>) -> bool {
    p.user_class == uc && p.flavor_name@ == f
}

/// Index of the row pricing (`uc`, `f`) at instant `t`: among the rows of the
/// cell with `start_time <= t`, one with the greatest start time (the last
/// such row wins a tie); -1 when the cell has no row yet.
pub open spec fn spec_latest_index(ps: Seq<FlavorPrice>, uc: UserClass, f: Seq<char>, t: int) -> int
    decreases ps.len(),
{
    if ps.len() == 0 {
        -1
    } else {
        let r = spec_latest_index(ps.drop_last(), uc, f, t);
        let l = ps.last();
        if price_applies(l, uc, f) && l.start_time <= t && (r < 0 || ps[r].start_time
            <= l.start_time) {
            ps.len() - 1
        } else {
            r
        }
    }
}

/// The price of cell (`uc`, `f`) in effect at instant `t`; zero when the
/// cell has no row at or before `t`.
pub open spec fn spec_effective_price(
    ps: Seq<FlavorPrice>,
    uc: UserClass,
    f: Seq<char>,
    t: int,
) -> int {
    let i = spec_latest_index(ps, uc, f, t);
    if i >= 0 {
        ps[i].unit_price as int
    } else {
        0
    }
}

/// `spec_latest_index` lands on an applicable row no older than every other
/// applicable row, and -1 means the cell has no row at or before `t`.
pub proof fn lemma_latest_index(ps: Seq<FlavorPrice>, uc: UserClass, f: Seq<char>, t: int)
    ensures
        -1 <= spec_latest_index(ps, uc, f, t) < ps.len(),
        spec_latest_index(ps, uc, f, t) >= 0 ==> {
            let i = spec_latest_index(ps, uc, f, t);
            price_applies(ps[i], uc, f) && ps[i].start_time <= t
        },
        forall|j: int|
            0 <= j < ps.len() && price_applies(#[trigger] ps[j], uc, f) && ps[j].start_time <= t
                ==> spec_latest_index(ps, uc, f, t) >= 0 && ps[j].start_time <= ps[spec_latest_index(
                ps,
                uc,
                f,
                t,
            )].start_time,
    decreases ps.len(),
{
    if ps.len() > 0 {
        lemma_latest_index(ps.drop_last(), uc, f, t);
        assert forall|j: int|
            0 <= j < ps.len() && price_applies(#[trigger] ps[j], uc, f) && ps[j].start_time
                <= t implies spec_latest_index(ps, uc, f, t) >= 0 && ps[j].start_time
            <= ps[spec_latest_index(ps, uc, f, t)].start_time by {
            if j < ps.len() - 1 {
                assert(ps.drop_last()[j] == ps[j]);
            }
        }
    }
}

/// Two row sets that contain the same applicable rows have the same price in
/// effect: a smaller set still prices every cell right as long as it keeps
/// each cell's winning row.
pub proof fn lemma_effective_price_subset(
    big: Seq<FlavorPrice>,
    small: Seq<FlavorPrice>,
    uc: UserClass,
    f: Seq<char>,
    t: int,
)
    requires
        prices_distinct_starts(big),
        forall|k: int| #![trigger small[k]]
            0 <= k < small.len() ==> exists|j: int| #![trigger big[j]]
                0 <= j < big.len() && small[k] == big[j],
        spec_latest_index(big, uc, f, t) >= 0 ==> exists|k: int| #![trigger small[k]]
            0 <= k < small.len() && small[k] == big[spec_latest_index(big, uc, f, t)],
    ensures
        spec_effective_price(small, uc, f, t) == spec_effective_price(big, uc, f, t),
{
    lemma_latest_index(big, uc, f, t);
    lemma_latest_index(small, uc, f, t);
    let ib = spec_latest_index(big, uc, f, t);
    let is = spec_latest_index(small, uc, f, t);
    if ib >= 0 {
        let k = choose|k: int| 0 <= k < small.len() && small[k] == big[ib];
        assert(price_applies(small[k], uc, f) && small[k].start_time <= t);
        assert(is >= 0);
        let j = choose|j: int| 0 <= j < big.len() && small[is] == big[j];
        assert(big[j].start_time <= big[ib].start_time);
        assert(small[k].start_time <= small[is].start_time);
        if j != ib {
            assert(same_cell(big[j], big[ib]));
            assert(big[j].start_time != big[ib].start_time);
            assert(false);
        }
    } else {
        if is >= 0 {
            let j = choose|j: int| 0 <= j < big.len() && small[is] == big[j];
            assert(price_applies(big[j], uc, f) && big[j].start_time <= t);
            assert(false);
        }
    }
}

/// The row at `i` survives the period filter: it is newer than `begin`, or
/// no earlier row of its cell is also at or before `begin`.
pub open spec fn keep_price(ps: Seq<FlavorPrice>, begin: int, i: int) -> bool {
    ps[i].start_time > begin || forall|j: int|
        0 <= j < i && same_cell(#[trigger] ps[j], ps[i]) ==> ps[j].start_time > begin
}

pub open spec fn spec_filter_prices_upto(ps: Seq<FlavorPrice>, begin: int, n: int) -> Seq<
    FlavorPrice,
>
    decreases n,
{
    if n <= 0 {
        Seq::empty()
    } else {
        let init = spec_filter_prices_upto(ps, begin, n - 1);
        if keep_price(ps, begin, n - 1) {
            init.push(ps[n - 1])
        } else {
            init
        }
    }
}

/// The rows a cost query over a window starting at `begin` needs: everything
/// newer than `begin` plus, per cell, the newest row at or before `begin`.
pub open spec fn spec_filter_prices(ps: Seq<FlavorPrice>, begin: int) -> Seq<FlavorPrice> {
    spec_filter_prices_upto(ps, begin, ps.len() as int)
}

/// Every filtered row is an input row with an index below `n`.
pub proof fn lemma_filter_subset(ps: Seq<FlavorPrice>, begin: int, n: int)
    requires
        n <= ps.len(),
    ensures
        forall|k: int| #![trigger spec_filter_prices_upto(ps, begin, n)[k]]
            0 <= k < spec_filter_prices_upto(ps, begin, n).len() ==> exists|j: int|
                #![trigger ps[j]]
                0 <= j < n && spec_filter_prices_upto(ps, begin, n)[k] == ps[j],
    decreases n,
{
    if n > 0 {
        lemma_filter_subset(ps, begin, n - 1);
        let cur = spec_filter_prices_upto(ps, begin, n);
        let init = spec_filter_prices_upto(ps, begin, n - 1);
        assert forall|k: int| #![trigger cur[k]] 0 <= k < cur.len() implies exists|j: int|
            #![trigger ps[j]]
            0 <= j < n && cur[k] == ps[j] by {
            if k < init.len() {
                let j = choose|j: int| 0 <= j < n - 1 && init[k] == ps[j];
                assert(cur[k] == ps[j]);
            } else {
                assert(cur[k] == ps[n - 1]);
            }
        }
    }
}

/// Every input row that the filter keeps is in the filtered sequence.
pub proof fn lemma_filter_contains_kept(ps: Seq<FlavorPrice>, begin: int, n: int, i: int)
    requires
        0 <= i < n <= ps.len(),
        keep_price(ps, begin, i),
    ensures
        exists|k: int|
            0 <= k < spec_filter_prices_upto(ps, begin, n).len() && spec_filter_prices_upto(
                ps,
                begin,
                n,
            )[k] == ps[i],
    decreases n,
{
    let cur = spec_filter_prices_upto(ps, begin, n);
    let init = spec_filter_prices_upto(ps, begin, n - 1);
    if i == n - 1 {
        assert(cur[init.len() as int] == ps[i]);
    } else {
        lemma_filter_contains_kept(ps, begin, n - 1, i);
        let k = choose|k: int| 0 <= k < init.len() && init[k] == ps[i];
        assert(cur[k] == ps[i]);
    }
}

/// Filtering keeps the newest-first order of its input.
pub proof fn lemma_filter_sorted(ps: Seq<FlavorPrice>, begin: int, n: int)
    requires
        n <= ps.len(),
        prices_sorted_desc(ps),
    ensures
        prices_sorted_desc(spec_filter_prices_upto(ps, begin, n)),
    decreases n,
{
    if n > 0 {
        lemma_filter_sorted(ps, begin, n - 1);
        lemma_filter_subset(ps, begin, n - 1);
        let cur = spec_filter_prices_upto(ps, begin, n);
        let init = spec_filter_prices_upto(ps, begin, n - 1);
        assert forall|a: int, b: int| 0 <= a <= b < cur.len() implies (#[trigger] cur[a]).start_time
            >= (#[trigger] cur[b]).start_time by {
            if b < init.len() {
                assert(cur[a] == init[a] && cur[b] == init[b]);
            } else if keep_price(ps, begin, n - 1) && b == init.len() {
                assert(cur[b] == ps[n - 1]);
                if a < b {
                    let j = choose|j: int| 0 <= j < n - 1 && init[a] == ps[j];
                    assert(ps[j].start_time >= ps[n - 1].start_time);
                }
            }
        }
    }
}

/// Filtering keeps well-formedness and per-cell distinct start times.
pub proof fn lemma_filter_wf(ps: Seq<FlavorPrice>, begin: int)
    requires
        prices_wf(ps),
        prices_distinct_starts(ps),
        prices_sorted_desc(ps),
    ensures
        prices_wf(spec_filter_prices(ps, begin)),
        prices_distinct_starts(spec_filter_prices(ps, begin)),
        prices_sorted_desc(spec_filter_prices(ps, begin)),
{
    let fs = spec_filter_prices(ps, begin);
    lemma_filter_subset(ps, begin, ps.len() as int);
    lemma_filter_sorted(ps, begin, ps.len() as int);
    assert forall|i: int| 0 <= i < fs.len() implies price_wf(#[trigger] fs[i]) by {
        let j = choose|j: int| 0 <= j < ps.len() && fs[i] == ps[j];
    }
    assert forall|i: int, j: int|
        0 <= i < j < fs.len() && same_cell(#[trigger] fs[i], #[trigger] fs[j]) implies fs[i].start_time
        != fs[j].start_time by {
        lemma_filter_distinct_pair(ps, begin, ps.len() as int, i, j);
    }
}

/// Two filtered rows at different positions are different input rows, so a
/// same-cell pair keeps distinct start times.
proof fn lemma_filter_distinct_pair(ps: Seq<FlavorPrice>, begin: int, n: int, a: int, b: int)
    requires
        n <= ps.len(),
        prices_distinct_starts(ps),
        0 <= a < b < spec_filter_prices_upto(ps, begin, n).len(),
        same_cell(
            spec_filter_prices_upto(ps, begin, n)[a],
            spec_filter_prices_upto(ps, begin, n)[b],
        ),
    ensures
        spec_filter_prices_upto(ps, begin, n)[a].start_time != spec_filter_prices_upto(
            ps,
            begin,
            n,
        )[b].start_time,
    decreases n,
{
    let cur = spec_filter_prices_upto(ps, begin, n);
    let init = spec_filter_prices_upto(ps, begin, n - 1);
    if b < init.len() {
        lemma_filter_distinct_pair(ps, begin, n - 1, a, b);
    } else {
        lemma_filter_subset(ps, begin, n - 1);
        let j = choose|j: int| 0 <= j < n - 1 && init[a] == ps[j];
        assert(cur[b] == ps[n - 1]);
        assert(same_cell(ps[j], ps[n - 1]));
    }
}

/// For every instant inside the queried window the filtered rows price every
/// cell exactly as the full history does.
pub proof fn lemma_filter_preserves_effective(
    ps: Seq<FlavorPrice>,
    begin: int,
    uc: UserClass,
    f: Seq<char>,
    t: int,
)
    requires
        prices_sorted_desc(ps),
        prices_distinct_starts(ps),
        begin <= t,
    ensures
        spec_effective_price(spec_filter_prices(ps, begin), uc, f, t) == spec_effective_price(
            ps,
            uc,
            f,
            t,
        ),
{
    let fs = spec_filter_prices(ps, begin);
    lemma_filter_subset(ps, begin, ps.len() as int);
    lemma_latest_index(ps, uc, f, t);
    let ib = spec_latest_index(ps, uc, f, t);
    if ib >= 0 {
        assert(keep_price(ps, begin, ib)) by {
            if ps[ib].start_time <= begin {
                assert forall|j: int|
                    0 <= j < ib && same_cell(#[trigger] ps[j], ps[ib]) implies ps[j].start_time
                    > begin by {
                    if ps[j].start_time <= begin {
                        assert(price_applies(ps[j], uc, f));
                        assert(ps[j].start_time <= t);
                        assert(ps[j].start_time <= ps[ib].start_time);
                        assert(ps[j].start_time >= ps[ib].start_time);
                        assert(ps[j].start_time != ps[ib].start_time);
                    }
                }
            }
        }
        lemma_filter_contains_kept(ps, begin, ps.len() as int, ib);
    }
    lemma_effective_price_subset(ps, fs, uc, f, t);
}

/// Restriction of the history to rows with `start_time <= until`, keeping
/// order.
pub open spec fn spec_prices_until(ps: Seq<FlavorPrice>, until: int) -> Seq<FlavorPrice>
    decreases ps.len(),
{
    if ps.len() == 0 {
        Seq::empty()
    } else {
        let init = spec_prices_until(ps.drop_last(), until);
        if ps.last().start_time <= until {
            init.push(ps.last())
        } else {
            init
        }
    }
}

/// The filter never grows its input.
pub proof fn lemma_filter_len(ps: Seq<FlavorPrice>, begin: int, n: int)
    requires
        0 <= n <= ps.len(),
    ensures
        spec_filter_prices_upto(ps, begin, n).len() <= n,
    decreases n,
{
    if n > 0 {
        lemma_filter_len(ps, begin, n - 1);
    }
}

/// The restriction never grows its input.
pub proof fn lemma_until_len(ps: Seq<FlavorPrice>, until: int)
    ensures
        spec_prices_until(ps, until).len() <= ps.len(),
    decreases ps.len(),
{
    if ps.len() > 0 {
        lemma_until_len(ps.drop_last(), until);
    }
}

/// The restriction to rows at or before `until` keeps order, distinct start
/// times and well-formedness, takes only input rows, and every row it keeps
/// is at or before `until`.
pub proof fn lemma_until_props(ps: Seq<FlavorPrice>, until: int)
    requires
        prices_sorted_desc(ps),
        prices_distinct_starts(ps),
        prices_wf(ps),
    ensures
        prices_sorted_desc(spec_prices_until(ps, until)),
        prices_distinct_starts(spec_prices_until(ps, until)),
        prices_wf(spec_prices_until(ps, until)),
        forall|k: int| #![trigger spec_prices_until(ps, until)[k]]
            0 <= k < spec_prices_until(ps, until).len() ==> exists|j: int| #![trigger ps[j]]
                0 <= j < ps.len() && spec_prices_until(ps, until)[k] == ps[j],
        forall|k: int|
            0 <= k < spec_prices_until(ps, until).len() ==> (#[trigger] spec_prices_until(
                ps,
                until,
            )[k]).start_time <= until,
    decreases ps.len(),
{
    if ps.len() > 0 {
        assert(prices_sorted_desc(ps.drop_last()));
        assert(prices_distinct_starts(ps.drop_last()));
        assert(prices_wf(ps.drop_last()));
        lemma_until_props(ps.drop_last(), until);
        let cur = spec_prices_until(ps, until);
        let init = spec_prices_until(ps.drop_last(), until);
        assert forall|k: int| #![trigger cur[k]] 0 <= k < cur.len() implies exists|j: int|
            #![trigger ps[j]]
            0 <= j < ps.len() && cur[k] == ps[j] by {
            if k < init.len() {
                let j = choose|j: int| 0 <= j < ps.drop_last().len() && init[k] == ps.drop_last()[j];
                assert(cur[k] == ps[j]);
            } else {
                assert(cur[k] == ps[ps.len() - 1]);
            }
        }
        assert forall|a: int, b: int| 0 <= a <= b < cur.len() implies (#[trigger] cur[a]).start_time
            >= (#[trigger] cur[b]).start_time by {
            let ja = choose|j: int| 0 <= j < ps.len() && cur[a] == ps[j];
            if b == cur.len() - 1 && ps.last().start_time <= until && a < b {
                assert(cur[b] == ps.last());
                assert(ps[ja].start_time >= ps.last().start_time);
            }
        }
        assert forall|a: int, b: int|
            0 <= a < b < cur.len() && same_cell(#[trigger] cur[a], #[trigger] cur[b]) implies cur[a].start_time
            != cur[b].start_time by {
            if b == cur.len() - 1 && ps.last().start_time <= until {
                let ja = choose|j: int| 0 <= j < ps.len() && cur[a] == ps[j];
                assert(cur[b] == ps.last());
                if ja == ps.len() - 1 {
                    assert(a < init.len());
                    lemma_until_last_start(ps, until, a);
                    assert(false);
                }
            }
        }
        assert forall|k: int| 0 <= k < cur.len() implies (#[trigger] cur[k]).start_time
            <= until by {
            if k == cur.len() - 1 && ps.last().start_time <= until {
            }
        }
    }
}

/// Rows kept before the last frame come from the front of the input.
proof fn lemma_until_last_start(ps: Seq<FlavorPrice>, until: int, a: int)
    requires
        ps.len() > 0,
        0 <= a < spec_prices_until(ps.drop_last(), until).len(),
    ensures
        exists|j: int| #![trigger ps[j]]
            0 <= j < ps.len() - 1 && spec_prices_until(ps.drop_last(), until)[a] == ps[j],
    decreases ps.len(),
{
    let init = spec_prices_until(ps.drop_last(), until);
    lemma_until_subset_short(ps.drop_last(), until);
    let j = choose|j: int| #![trigger ps.drop_last()[j]]
        0 <= j < ps.drop_last().len() && init[a] == ps.drop_last()[j];
    assert(init[a] == ps[j]);
}

/// Every kept row is an input row.
proof fn lemma_until_subset_short(ps: Seq<FlavorPrice>, until: int)
    ensures
        forall|k: int| #![trigger spec_prices_until(ps, until)[k]]
            0 <= k < spec_prices_until(ps, until).len() ==> exists|j: int| #![trigger ps[j]]
                0 <= j < ps.len() && spec_prices_until(ps, until)[k] == ps[j],
    decreases ps.len(),
{
    if ps.len() > 0 {
        lemma_until_subset_short(ps.drop_last(), until);
        let cur = spec_prices_until(ps, until);
        let init = spec_prices_until(ps.drop_last(), until);
        assert forall|k: int| #![trigger cur[k]] 0 <= k < cur.len() implies exists|j: int|
            #![trigger ps[j]]
            0 <= j < ps.len() && cur[k] == ps[j] by {
            if k < init.len() {
                let j = choose|j: int|
                    0 <= j < ps.drop_last().len() && init[k] == ps.drop_last()[j];
                assert(cur[k] == ps[j]);
            } else {
                assert(cur[k] == ps[ps.len() - 1]);
            }
        }
    }
}

/// Restriction of the history to one user class, keeping order.
pub open spec fn spec_prices_of_userclass(ps: Seq<FlavorPrice>, uc: UserClass) -> Seq<FlavorPrice>
    decreases ps.len(),
{
    if ps.len() == 0 {
        Seq::empty()
    } else {
        let init = spec_prices_of_userclass(ps.drop_last(), uc);
        if ps.last().user_class == uc {
            init.push(ps.last())
        } else {
            init
        }
    }
}

/// Rows with `start_time <= until`, newest first, in input order.
pub fn select_flavor_prices_until(prices: &Vec<FlavorPrice>, until: i64) -> (r: Vec<FlavorPrice>)
    ensures
        r@ == spec_prices_until(prices@, until as int),
{
    let mut r: Vec<FlavorPrice> = Vec::new();
    let n = prices.len();
    let mut i: usize = 0;
    while i < n
        invariant
            n == prices@.len(),
            0 <= i <= n,
            r@ == spec_prices_until(prices@.take(i as int), until as int),
        decreases n - i,
    {
        if prices[i].start_time <= until {
            r.push(prices[i].clone());
        }
        proof {
            assert(prices@.take(i + 1).drop_last() =~= prices@.take(i as int));
            assert(prices@.take(i + 1).last() == prices@[i as int]);
        }
        i += 1;
    }
    proof {
        assert(prices@.take(n as int) =~= prices@);
    }
    r
}

/// Rows of one user class, in input order.
pub fn select_flavor_prices_for_userclass(prices: &Vec<FlavorPrice>, user_class: UserClass) -> (r:
    Vec<FlavorPrice>)
    ensures
        r@ == spec_prices_of_userclass(prices@, user_class),
{
    let mut r: Vec<FlavorPrice> = Vec::new();
    let n = prices.len();
    let mut i: usize = 0;
    while i < n
        invariant
            n == prices@.len(),
            0 <= i <= n,
            r@ == spec_prices_of_userclass(prices@.take(i as int), user_class),
        decreases n - i,
    {
        if prices[i].user_class == user_class {
            r.push(prices[i].clone());
        }
        proof {
            assert(prices@.take(i + 1).drop_last() =~= prices@.take(i as int));
            assert(prices@.take(i + 1).last() == prices@[i as int]);
        }
        i += 1;
    }
    proof {
        assert(prices@.take(n as int) =~= prices@);
    }
    r
}

/// Whether an earlier row of the same cell is already at or before `begin`.
fn cell_done_before(prices: &Vec<FlavorPrice>, i: usize, begin: i64) -> (r: bool)
    requires
        i < prices@.len(),
    ensures
        r == !keep_price(prices@, begin as int, i as int),
{
    if prices[i].start_time > begin {
        return false;
    }
    let mut j: usize = 0;
    while j < i
        invariant
            i < prices@.len(),
            prices@[i as int].start_time <= begin as int,
            0 <= j <= i,
            forall|k: int|
                0 <= k < j && same_cell(#[trigger] prices@[k], prices@[i as int])
                    ==> prices@[k].start_time > begin as int,
        decreases i - j,
    {
        if prices[j].user_class == prices[i].user_class && prices[j].flavor_name
            == prices[i].flavor_name && prices[j].start_time <= begin {
            proof {
                assert(same_cell(prices@[j as int], prices@[i as int]));
            }
            return true;
        }
        j += 1;
    }
    false
}

/// The rows relevant to a window starting at `begin`: per cell, the price
/// history from the newest row at or before `begin` onwards. Input rows come
/// newest first; output keeps that order.
pub fn select_flavor_prices_for_period(prices: &Vec<FlavorPrice>, begin: i64, end: i64) -> (r: Vec<
    FlavorPrice,
>)
    ensures
        r@ == spec_filter_prices(spec_prices_until(prices@, end as int), begin as int),
{
    let until = select_flavor_prices_until(prices, end);
    let mut r: Vec<FlavorPrice> = Vec::new();
    let n = until.len();
    let mut i: usize = 0;
    while i < n
        invariant
            n == until@.len(),
            until@ == spec_prices_until(prices@, end as int),
            0 <= i <= n,
            r@ == spec_filter_prices_upto(until@, begin as int, i as int),
        decreases n - i,
    {
        if !cell_done_before(&until, i, begin) {
            r.push(until[i].clone());
        }
        i += 1;
    }
    r
}

/// The per-period rows of one user class alone.
pub fn select_flavor_prices_for_userclass_and_period(
    prices: &Vec<FlavorPrice>,
    user_class: UserClass,
    begin: i64,
    end: i64,
) -> (r: Vec<FlavorPrice>)
    ensures
        r@ == spec_filter_prices(
            spec_prices_until(spec_prices_of_userclass(prices@, user_class), end as int),
            begin as int,
        ),
{
    let scoped = select_flavor_prices_for_userclass(prices, user_class);
    select_flavor_prices_for_period(&scoped, begin, end)
}

/// One listing of the price table: every row, one class's rows, or only the
/// rows in effect or scheduled no later than `now`.
pub fn flavor_price_list(
    prices: &Vec<FlavorPrice>,
    user_class: Option<UserClass>,
    current: Option<bool>,
    now: i64,
) -> (r: Vec<FlavorPrice>)
    ensures
        match (user_class, current) {
            (Some(uc), Some(true)) => r@ == spec_filter_prices(
                spec_prices_until(spec_prices_of_userclass(prices@, uc), now as int),
                now as int,
            ),
            (Some(uc), _) => r@ == spec_prices_of_userclass(prices@, uc),
            (None, Some(true)) => r@ == spec_filter_prices(
                spec_prices_until(prices@, now as int),
                now as int,
            ),
            _ => r@ == prices@,
        },
{
    match (user_class, current) {
        (Some(uc), Some(true)) => select_flavor_prices_for_userclass_and_period(
            prices,
            uc,
            now,
            now,
        ),
        (Some(uc), _) => select_flavor_prices_for_userclass(prices, uc),
        (None, Some(true)) => select_flavor_prices_for_period(prices, now, now),
        _ => {
            let r = prices.clone();
            proof {
                assert(r@ =~= prices@);
            }
            r
        },
    }
}

#[derive(Clone, Debug)]
pub struct FlavorPriceListParams {
    pub user_class: Option<UserClass>,
    pub current: Option<bool>,
}

/// Request body for a new price; a missing price means zero.
#[derive(Clone, Debug)]
pub struct FlavorPriceCreateData {
    pub flavor: u32,
    pub user_class: UserClass,
    pub price: Option<i64>,
    pub start_time: Option<i64>,
}

impl FlavorPriceCreateData {
    pub fn new(flavor: u32, user_class: UserClass) -> (r: FlavorPriceCreateData)
        ensures
            r.flavor == flavor,
            r.user_class == user_class,
            r.price is None,
            r.start_time is None,
    {
        FlavorPriceCreateData { flavor, user_class, price: None, start_time: None }
    }
}

#[derive(Clone, Debug)]
pub struct FlavorPriceModifyData {
    pub id: u32,
    pub flavor: Option<u32>,
    pub user_class: Option<UserClass>,
    pub unit_price: Option<i64>,
    pub start_time: Option<i64>,
}

impl FlavorPriceModifyData {
    pub fn new(id: u32) -> (r: FlavorPriceModifyData)
        ensures
            r.id == id,
            r.flavor is None,
            r.user_class is None,
            r.unit_price is None,
            r.start_time is None,
    {
        FlavorPriceModifyData { id, flavor: None, user_class: None, unit_price: None, start_time: None }
    }
}

/// A stored price row as validated for insertion; a missing start time is
/// resolved to `now` by the caller.
pub struct NewFlavorPrice {
    pub flavor_id: u64,
    pub user_class: UserClass,
    pub unit_price: i64,
    pub start_time: i64,
}

impl NewFlavorPrice {
    /// The inserted row for a create request, with the clock reading `now`
    /// filling a missing start time.
    pub fn try_from(data: FlavorPriceCreateData, now: i64) -> (r: NewFlavorPrice)
        ensures
            r.flavor_id == data.flavor as u64,
            r.user_class == data.user_class,
            r.unit_price == match data.price {
                Some(p) => p,
                None => 0i64,
            },
            r.start_time == match data.start_time {
                Some(t) => t,
                None => now,
            },
    {
        NewFlavorPrice {
            flavor_id: data.flavor as u64,
            user_class: data.user_class,
            unit_price: match data.price {
                Some(p) => p,
                None => 0,
            },
            start_time: match data.start_time {
                Some(t) => t,
                None => now,
            },
        }
    }
}

} // verus!
