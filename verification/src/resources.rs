//! Flavors (machine sizes) and flavor groups, with their usage counters.

use vstd::prelude::*;
use crate::project::ProjectMinimal;

verus! {

/// A machine size that servers occupy and prices attach to.
#[derive(Clone, Debug)]
pub struct Flavor {
    pub id: u32,
    pub name: String,
    pub openstack_id: String,
    pub group: Option<u32>,
    pub group_name: Option<String>,
    pub weight: u32,
}

#[derive(Clone, Debug)]
pub struct FlavorMinimal {
    pub id: u32,
    pub name: String,
}

/// A named set of flavors owned by a project.
#[derive(Clone, Debug)]
pub struct FlavorGroup {
    pub id: u32,
    pub name: String,
    pub flavors: Vec<u32>,
    pub project: u32,
}

#[derive(Clone, Debug)]
pub struct FlavorGroupMinimal {
    pub id: u32,
    pub name: String,
}

#[derive(Clone, Debug)]
pub struct FlavorGroupDetailed {
    pub id: u32,
    pub name: String,
    pub flavors: Vec<FlavorMinimal>,
    pub project: ProjectMinimal,
}

#[derive(Clone, Debug)]
pub struct FlavorGroupCreated {
    pub id: u32,
    pub name: String,
    pub flavors: Vec<FlavorMinimal>,
    pub project: u32,
}

/// Counts reported after seeding flavor groups from the compute service.
#[derive(Clone, Debug)]
pub struct FlavorGroupInitialize {
    pub new_flavor_group_count: u32,
    pub new_flavor_count: u32,
}

/// Count reported after seeding flavor prices.
#[derive(Clone, Debug)]
pub struct FlavorPriceInitialize {
    pub new_flavor_price_count: u32,
}

#[derive(Clone, Debug)]
pub struct FlavorGroupListParams {
    pub all: Option<bool>,
}

#[derive(Clone, Debug)]
pub struct FlavorGroupCreateData {
    pub name: String,
    pub flavors: Vec<u32>,
}

impl FlavorGroupCreateData {
    pub fn new(name: String) -> (r: FlavorGroupCreateData)
        ensures
            r.name == name,
            r.flavors@.len() == 0,
    {
        FlavorGroupCreateData { name, flavors: Vec::new() }
    }
}

#[derive(Clone, Debug)]
pub struct FlavorGroupModifyData {
    pub id: u32,
    pub name: Option<String>,
    pub project: Option<u32>,
}

impl FlavorGroupModifyData {
    pub fn new(id: u32) -> (r: FlavorGroupModifyData)
        ensures
            r.id == id,
            r.name is None,
            r.project is None,
    {
        FlavorGroupModifyData { id, name: None, project: None }
    }
}

#[derive(Clone, Debug)]
pub struct FlavorGroupUsageParams {
    pub user: Option<u32>,
    pub project: Option<u32>,
    pub all: Option<bool>,
    pub aggregate: Option<bool>,
}

/// Usage of one flavor by one user: how many servers and their summed weight.
#[derive(Clone, Debug)]
pub struct FlavorUsageSimple {
    pub user_id: u32,
    pub user_name: String,
    pub flavor_id: u32,
    pub flavor_name: String,
    pub flavorgroup_id: Option<u32>,
    pub flavorgroup_name: Option<String>,
    pub count: u32,
    pub usage: u32,
}

/// Usage of one flavor summed over users.
#[derive(Clone, Debug)]
pub struct FlavorUsageAggregate {
    pub flavor_id: u32,
    pub flavor_name: String,
    pub flavorgroup_id: Option<u32>,
    pub flavorgroup_name: Option<String>,
    pub count: u32,
    pub usage: u32,
}

/// Usage of one flavor group by one user.
#[derive(Clone, Debug)]
pub struct FlavorGroupUsageSimple {
    pub user_id: u32,
    pub user_name: String,
    pub flavorgroup_id: u32,
    pub flavorgroup_name: String,
    pub usage: u32,
}

/// Usage of one flavor group summed over users.
#[derive(Clone, Debug)]
pub struct FlavorGroupUsageAggregate {
    pub flavorgroup_id: u32,
    pub flavorgroup_name: String,
    pub usage: u32,
}

/// Per-flavor usage rows, flat or summed over users.
#[derive(Clone, Debug)]
pub enum FlavorUsage {
    Simple(Vec<FlavorUsageSimple>),
    Aggregate(Vec<FlavorUsageAggregate>),
}

/// Index of the first aggregate row for a flavor id, or -1.
pub open spec fn spec_agg_index(s: Seq<FlavorUsageAggregate>, id: int) -> int
    decreases s.len(),
{
    if s.len() == 0 {
        -1
    } else if s[0].flavor_id as int == id {
        0
    } else {
        let r = spec_agg_index(s.drop_first(), id);
        if r < 0 {
            -1
        } else {
            r + 1
        }
    }
}

/// Servers of one flavor over the first `n` usage rows.
pub open spec fn spec_sum_count(us: Seq<FlavorUsageSimple>, id: int, n: int) -> int
    decreases n,
{
    if n <= 0 {
        0
    } else {
        spec_sum_count(us, id, n - 1) + if us[n - 1].flavor_id as int == id {
            us[n - 1].count as int
        } else {
            0
        }
    }
}

/// Weighted usage of one flavor over the first `n` usage rows.
pub open spec fn spec_sum_usage(us: Seq<FlavorUsageSimple>, id: int, n: int) -> int
    decreases n,
{
    if n <= 0 {
        0
    } else {
        spec_sum_usage(us, id, n - 1) + if us[n - 1].flavor_id as int == id {
            us[n - 1].usage as int
        } else {
            0
        }
    }
}

/// The first aggregate row for an id carries it, and -1 means none does.
pub proof fn lemma_agg_index(s: Seq<FlavorUsageAggregate>, id: int)
    ensures
        -1 <= spec_agg_index(s, id) < s.len(),
        spec_agg_index(s, id) >= 0 ==> s[spec_agg_index(s, id)].flavor_id as int == id,
        spec_agg_index(s, id) >= 0 ==> forall|j: int|
            0 <= j < spec_agg_index(s, id) ==> (#[trigger] s[j]).flavor_id as int != id,
        spec_agg_index(s, id) == -1 ==> forall|j: int|
            0 <= j < s.len() ==> (#[trigger] s[j]).flavor_id as int != id,
    decreases s.len(),
{
    if s.len() > 0 && s[0].flavor_id as int != id {
        lemma_agg_index(s.drop_first(), id);
        assert forall|j: int| 1 <= j < s.len() implies s.drop_first()[j - 1] == s[j] by {}
    }
}

/// Two aggregate lists with the same flavor ids in the same places index
/// every id alike.
proof fn lemma_agg_index_same_keys(
    s1: Seq<FlavorUsageAggregate>,
    s2: Seq<FlavorUsageAggregate>,
    id: int,
)
    requires
        s1.len() == s2.len(),
        forall|j: int| 0 <= j < s1.len() ==> (#[trigger] s1[j]).flavor_id == s2[j].flavor_id,
    ensures
        spec_agg_index(s1, id) == spec_agg_index(s2, id),
    decreases s1.len(),
{
    if s1.len() > 0 {
        assert forall|j: int| 0 <= j < s1.drop_first().len() implies (
        #[trigger] s1.drop_first()[j]).flavor_id == s2.drop_first()[j].flavor_id by {
            assert(s1.drop_first()[j] == s1[j + 1]);
            assert(s2.drop_first()[j] == s2[j + 1]);
        }
        lemma_agg_index_same_keys(s1.drop_first(), s2.drop_first(), id);
    }
}

/// Appending a fresh row moves no earlier id and indexes the new one last.
proof fn lemma_agg_index_push(s: Seq<FlavorUsageAggregate>, e: FlavorUsageAggregate, id: int)
    ensures
        spec_agg_index(s, id) >= 0 ==> spec_agg_index(s.push(e), id) == spec_agg_index(s, id),
        spec_agg_index(s, id) < 0 && e.flavor_id as int == id ==> spec_agg_index(s.push(e), id)
            == s.len(),
        spec_agg_index(s, id) < 0 && e.flavor_id as int != id ==> spec_agg_index(s.push(e), id)
            < 0,
    decreases s.len(),
{
    let sp = s.push(e);
    if s.len() == 0 {
        assert(sp.drop_first() =~= Seq::<FlavorUsageAggregate>::empty());
        assert(sp[0] == e);
        assert(spec_agg_index(Seq::<FlavorUsageAggregate>::empty(), id) == -1);
    } else {
        assert(sp.drop_first() =~= s.drop_first().push(e));
        assert(sp[0] == s[0]);
        lemma_agg_index_push(s.drop_first(), e, id);
        if s[0].flavor_id as int != id {
            assert(spec_agg_index(sp, id) == (if spec_agg_index(sp.drop_first(), id) < 0 {
                -1int
            } else {
                spec_agg_index(sp.drop_first(), id) + 1
            }));
        }
    }
}

/// Sums per-user usage rows into one row per flavor: counts and weighted
/// usage add up, the first row of a flavor names it, and a flavor appears
/// exactly when some input row carries it.
pub fn aggregate_flavor_usage(usages: Vec<FlavorUsageSimple>) -> (r: Vec<FlavorUsageAggregate>)
    requires
        forall|id: int| 0 <= #[trigger] spec_sum_count(usages@, id, usages@.len() as int) <= u32::MAX,
        forall|id: int| 0 <= #[trigger] spec_sum_usage(usages@, id, usages@.len() as int) <= u32::MAX,
    ensures
        forall|a: int, b: int|
            0 <= a < b < r@.len() ==> (#[trigger] r@[a]).flavor_id != (#[trigger] r@[b]).flavor_id,
        forall|k: int|
            0 <= k < r@.len() ==> (#[trigger] r@[k]).count as int == spec_sum_count(
                usages@,
                r@[k].flavor_id as int,
                usages@.len() as int,
            ) && r@[k].usage as int == spec_sum_usage(
                usages@,
                r@[k].flavor_id as int,
                usages@.len() as int,
            ),
        forall|j: int|
            0 <= j < usages@.len() ==> spec_agg_index(r@, (#[trigger] usages@[j]).flavor_id as int)
                >= 0,
        forall|k: int| #![trigger r@[k]]
            0 <= k < r@.len() ==> exists|j: int|
                0 <= j < usages@.len() && (#[trigger] usages@[j]).flavor_id == r@[k].flavor_id,
{
    let n = usages.len();
    let mut r: Vec<FlavorUsageAggregate> = Vec::new();
    let mut i: usize = 0;
    while i < n
        invariant
            n == usages@.len(),
            forall|id: int|
                0 <= #[trigger] spec_sum_count(usages@, id, usages@.len() as int) <= u32::MAX,
            forall|id: int|
                0 <= #[trigger] spec_sum_usage(usages@, id, usages@.len() as int) <= u32::MAX,
            0 <= i <= n,
            forall|a: int, b: int|
                0 <= a < b < r@.len() ==> (#[trigger] r@[a]).flavor_id != (
                #[trigger] r@[b]).flavor_id,
            forall|k: int|
                0 <= k < r@.len() ==> (#[trigger] r@[k]).count as int == spec_sum_count(
                    usages@,
                    r@[k].flavor_id as int,
                    i as int,
                ) && r@[k].usage as int == spec_sum_usage(
                    usages@,
                    r@[k].flavor_id as int,
                    i as int,
                ),
            forall|j: int|
                0 <= j < i ==> spec_agg_index(r@, (#[trigger] usages@[j]).flavor_id as int) >= 0,
            forall|k: int| #![trigger r@[k]]
                0 <= k < r@.len() ==> exists|j: int|
                    0 <= j < i && (#[trigger] usages@[j]).flavor_id == r@[k].flavor_id,
        decreases n - i,
    {
        let ghost r0 = r@;
        let id = usages[i].flavor_id;
        proof {
            lemma_agg_index(r@, id as int);
            lemma_sum_monotone(usages@, id as int, i as int);
        }
        let m = r.len();
        let mut k: usize = 0;
        let mut found = false;
        while k < m
            invariant
                m == r@.len(),
                r@ == r0,
                0 <= k <= m,
                !found ==> forall|j: int| 0 <= j < k ==> (#[trigger] r@[j]).flavor_id != id,
                found ==> k < m && r@[k as int].flavor_id == id,
            ensures
                m == r@.len(),
                r@ == r0,
                found ==> k < m && r@[k as int].flavor_id == id,
                !found ==> forall|j: int| 0 <= j < m ==> (#[trigger] r@[j]).flavor_id != id,
            decreases m - k + if found {
                0int
            } else {
                1int
            },
        {
            if found {
                break ;
            }
            if r[k].flavor_id == id {
                found = true;
            } else {
                k += 1;
            }
        }
        if found {
            proof {
                lemma_agg_index(r0, id as int);
                assert(spec_agg_index(r0, id as int) == k);
                lemma_sum_fresh(usages@, id as int, i as int);
                lemma_sum_monotone(usages@, id as int, i + 1);
            }
            let new_count = r[k].count + usages[i].count;
            let new_usage = r[k].usage + usages[i].usage;
            let e = &mut r[k];
            e.count = new_count;
            e.usage = new_usage;
            proof {
                lemma_agg_entries_update(r0, r@, k as int, usages@, i as int);
                assert forall|j: int| 0 <= j < i + 1 implies spec_agg_index(
                    r@,
                    (#[trigger] usages@[j]).flavor_id as int,
                ) >= 0 by {
                    lemma_agg_index_same_keys(r0, r@, usages@[j].flavor_id as int);
                }
                assert forall|a: int, b: int|
                    0 <= a < b < r@.len() implies (#[trigger] r@[a]).flavor_id != (
                #[trigger] r@[b]).flavor_id by {
                    assert(r0[a].flavor_id == r@[a].flavor_id);
                    assert(r0[b].flavor_id == r@[b].flavor_id);
                }
            }
        } else {
            proof {
                lemma_agg_index(r@, id as int);
                assert(forall|j: int| 0 <= j < r@.len() ==> (#[trigger] r@[j]).flavor_id != id);
                if spec_agg_index(r@, id as int) >= 0 {
                    assert(r@[spec_agg_index(r@, id as int)].flavor_id as int == id as int);
                    assert(false);
                }
                assert(spec_agg_index(r0, id as int) == -1);
                assert forall|j: int| 0 <= j < i implies (#[trigger] usages@[j]).flavor_id as int
                    != id as int by {
                    if usages@[j].flavor_id as int == id as int {
                        assert(spec_agg_index(r0, usages@[j].flavor_id as int) >= 0);
                    }
                }
                lemma_sum_absent(usages@, id as int, i as int);
            }
            let u = &usages[i];
            r.push(
                FlavorUsageAggregate {
                    flavor_id: u.flavor_id,
                    flavor_name: u.flavor_name.clone(),
                    flavorgroup_id: u.flavorgroup_id,
                    flavorgroup_name: match &u.flavorgroup_name {
                        Some(s) => Some(s.clone()),
                        None => None,
                    },
                    count: u.count,
                    usage: u.usage,
                },
            );
            proof {
                lemma_agg_entries_push(r0, r@, usages@, i as int);
                assert(r@.drop_last() =~= r0);
                assert forall|j: int| 0 <= j < i + 1 implies spec_agg_index(
                    r@,
                    (#[trigger] usages@[j]).flavor_id as int,
                ) >= 0 by {
                    lemma_agg_index_push(r0, r@[r0.len() as int], usages@[j].flavor_id as int);
                    assert(r@ =~= r0.push(r@[r0.len() as int]));
                }
                assert forall|a: int, b: int|
                    0 <= a < b < r@.len() implies (#[trigger] r@[a]).flavor_id != (
                #[trigger] r@[b]).flavor_id by {
                    if b == r0.len() {
                        lemma_agg_index(r0, id as int);
                        assert(r@[a] == r0[a]);
                    }
                }
            }
        }
        i += 1;
    }
    proof {
        assert forall|j: int| 0 <= j < usages@.len() implies spec_agg_index(
            r@,
            (#[trigger] usages@[j]).flavor_id as int,
        ) >= 0 by {}
    }
    r
}

/// Per-flavor sums only grow along the rows.
proof fn lemma_sum_monotone(us: Seq<FlavorUsageSimple>, id: int, n: int)
    requires
        0 <= n <= us.len(),
    ensures
        0 <= spec_sum_count(us, id, n) <= spec_sum_count(us, id, us.len() as int),
        0 <= spec_sum_usage(us, id, n) <= spec_sum_usage(us, id, us.len() as int),
    decreases us.len() - n,
{
    lemma_sum_nonneg(us, id, n);
    if n < us.len() {
        lemma_sum_monotone(us, id, n + 1);
    }
}

proof fn lemma_sum_nonneg(us: Seq<FlavorUsageSimple>, id: int, n: int)
    requires
        0 <= n <= us.len(),
    ensures
        0 <= spec_sum_count(us, id, n),
        0 <= spec_sum_usage(us, id, n),
    decreases n,
{
    if n > 0 {
        lemma_sum_nonneg(us, id, n - 1);
    }
}

/// Bumping the matched row keeps every other row's sums and indexes alone.
proof fn lemma_agg_entries_update(
    r0: Seq<FlavorUsageAggregate>,
    r1: Seq<FlavorUsageAggregate>,
    k: int,
    us: Seq<FlavorUsageSimple>,
    i: int,
)
    requires
        0 <= i < us.len(),
        0 <= k < r0.len(),
        r1.len() == r0.len(),
        r0[k].flavor_id == us[i].flavor_id,
        r1[k].flavor_id == r0[k].flavor_id,
        r1[k].count as int == r0[k].count as int + us[i].count as int,
        r1[k].usage as int == r0[k].usage as int + us[i].usage as int,
        forall|j: int| 0 <= j < r0.len() && j != k ==> #[trigger] r1[j] == r0[j],
        forall|j: int|
            0 <= j < r0.len() ==> (#[trigger] r0[j]).count as int == spec_sum_count(
                us,
                r0[j].flavor_id as int,
                i,
            ) && r0[j].usage as int == spec_sum_usage(us, r0[j].flavor_id as int, i),
        forall|a: int, b: int|
            0 <= a < b < r0.len() ==> (#[trigger] r0[a]).flavor_id != (#[trigger] r0[b]).flavor_id,
    ensures
        forall|j: int|
            0 <= j < r1.len() ==> (#[trigger] r1[j]).count as int == spec_sum_count(
                us,
                r1[j].flavor_id as int,
                i + 1,
            ) && r1[j].usage as int == spec_sum_usage(us, r1[j].flavor_id as int, i + 1),
{
    assert forall|j: int| 0 <= j < r1.len() implies (#[trigger] r1[j]).count as int
        == spec_sum_count(us, r1[j].flavor_id as int, i + 1) && r1[j].usage as int
        == spec_sum_usage(us, r1[j].flavor_id as int, i + 1) by {
        if j != k {
            assert(r0[j].flavor_id != r0[k].flavor_id);
        }
    }
}

/// Appending a fresh flavor's first row keeps every earlier row's sums.
proof fn lemma_agg_entries_push(
    r0: Seq<FlavorUsageAggregate>,
    r1: Seq<FlavorUsageAggregate>,
    us: Seq<FlavorUsageSimple>,
    i: int,
)
    requires
        0 <= i < us.len(),
        r1.len() == r0.len() + 1,
        forall|j: int| 0 <= j < r0.len() ==> #[trigger] r1[j] == r0[j],
        r1[r0.len() as int].flavor_id == us[i].flavor_id,
        r1[r0.len() as int].count == us[i].count,
        r1[r0.len() as int].usage == us[i].usage,
        forall|j: int| 0 <= j < r0.len() ==> (#[trigger] r0[j]).flavor_id != us[i].flavor_id,
        spec_sum_count(us, us[i].flavor_id as int, i) == 0,
        spec_sum_usage(us, us[i].flavor_id as int, i) == 0,
        forall|j: int|
            0 <= j < r0.len() ==> (#[trigger] r0[j]).count as int == spec_sum_count(
                us,
                r0[j].flavor_id as int,
                i,
            ) && r0[j].usage as int == spec_sum_usage(us, r0[j].flavor_id as int, i),
    ensures
        forall|j: int|
            0 <= j < r1.len() ==> (#[trigger] r1[j]).count as int == spec_sum_count(
                us,
                r1[j].flavor_id as int,
                i + 1,
            ) && r1[j].usage as int == spec_sum_usage(us, r1[j].flavor_id as int, i + 1),
{
    lemma_sum_fresh(us, us[i].flavor_id as int, i);
    assert forall|j: int| 0 <= j < r1.len() implies (#[trigger] r1[j]).count as int
        == spec_sum_count(us, r1[j].flavor_id as int, i + 1) && r1[j].usage as int
        == spec_sum_usage(us, r1[j].flavor_id as int, i + 1) by {
        if j < r0.len() {
            assert(r0[j].flavor_id != us[i].flavor_id);
        }
    }
}

/// A flavor none of the earlier rows carries has summed nothing yet.
proof fn lemma_sum_absent(us: Seq<FlavorUsageSimple>, id: int, n: int)
    requires
        0 <= n <= us.len(),
        forall|j: int| 0 <= j < n ==> (#[trigger] us[j]).flavor_id as int != id,
    ensures
        spec_sum_count(us, id, n) == 0,
        spec_sum_usage(us, id, n) == 0,
    decreases n,
{
    if n > 0 {
        lemma_sum_absent(us, id, n - 1);
    }
}

/// One more row of a flavor adds its own amounts to the flavor's sums.
proof fn lemma_sum_fresh(us: Seq<FlavorUsageSimple>, id: int, i: int)
    requires
        0 <= i < us.len(),
        us[i].flavor_id as int == id,
    ensures
        spec_sum_count(us, id, i + 1) == spec_sum_count(us, id, i) + us[i].count as int,
        spec_sum_usage(us, id, i + 1) == spec_sum_usage(us, id, i) + us[i].usage as int,
{
}

/// Per-group usage rows, flat or summed over users.
#[derive(Clone, Debug)]
pub enum FlavorGroupUsage {
    Simple(Vec<FlavorGroupUsageSimple>),
    Aggregate(Vec<FlavorGroupUsageAggregate>),
}

/// Index of the first group-usage row for a user and group, or -1.
pub open spec fn spec_group_usage_index(
    s: Seq<FlavorGroupUsageSimple>,
    user_id: int,
    group_id: int,
) -> int
    decreases s.len(),
{
    if s.len() == 0 {
        -1
    } else if s[0].user_id as int == user_id && s[0].flavorgroup_id as int == group_id {
        0
    } else {
        let r = spec_group_usage_index(s.drop_first(), user_id, group_id);
        if r < 0 {
            -1
        } else {
            r + 1
        }
    }
}

/// Whether a usage row belongs to a flavor group at all.
pub open spec fn spec_row_grouped(u: FlavorUsageSimple, user_id: int, group_id: int) -> bool {
    u.user_id as int == user_id && u.flavorgroup_id == Some(group_id as u32)
        && u.flavorgroup_name is Some
}

/// Weighted usage of one user in one group over the first `n` rows; rows
/// without a group name do not count.
pub open spec fn spec_group_sum_usage(
    us: Seq<FlavorUsageSimple>,
    user_id: int,
    group_id: int,
    n: int,
) -> int
    decreases n,
{
    if n <= 0 {
        0
    } else {
        spec_group_sum_usage(us, user_id, group_id, n - 1) + if spec_row_grouped(
            us[n - 1],
            user_id,
            group_id,
        ) {
            us[n - 1].usage as int
        } else {
            0
        }
    }
}

/// The first group-usage row for a pair carries it, and -1 means none does.
pub proof fn lemma_group_usage_index(s: Seq<FlavorGroupUsageSimple>, user_id: int, group_id: int)
    ensures
        -1 <= spec_group_usage_index(s, user_id, group_id) < s.len(),
        spec_group_usage_index(s, user_id, group_id) >= 0 ==> {
            let i = spec_group_usage_index(s, user_id, group_id);
            s[i].user_id as int == user_id && s[i].flavorgroup_id as int == group_id
        },
        spec_group_usage_index(s, user_id, group_id) == -1 ==> forall|j: int|
            0 <= j < s.len() ==> !((#[trigger] s[j]).user_id as int == user_id
                && s[j].flavorgroup_id as int == group_id),
        spec_group_usage_index(s, user_id, group_id) >= 0 ==> forall|j: int|
            0 <= j < spec_group_usage_index(s, user_id, group_id) ==> !((
            #[trigger] s[j]).user_id as int == user_id && s[j].flavorgroup_id as int == group_id),
    decreases s.len(),
{
    if s.len() > 0 && !(s[0].user_id as int == user_id && s[0].flavorgroup_id as int == group_id) {
        lemma_group_usage_index(s.drop_first(), user_id, group_id);
        assert forall|j: int| 1 <= j < s.len() implies s.drop_first()[j - 1] == s[j] by {}
    }
}

proof fn lemma_group_sum_nonneg(us: Seq<FlavorUsageSimple>, user_id: int, group_id: int, n: int)
    requires
        0 <= n <= us.len(),
    ensures
        0 <= spec_group_sum_usage(us, user_id, group_id, n),
    decreases n,
{
    if n > 0 {
        lemma_group_sum_nonneg(us, user_id, group_id, n - 1);
    }
}

proof fn lemma_group_sum_monotone(us: Seq<FlavorUsageSimple>, user_id: int, group_id: int, n: int)
    requires
        0 <= n <= us.len(),
    ensures
        0 <= spec_group_sum_usage(us, user_id, group_id, n) <= spec_group_sum_usage(
            us,
            user_id,
            group_id,
            us.len() as int,
        ),
    decreases us.len() - n,
{
    lemma_group_sum_nonneg(us, user_id, group_id, n);
    if n < us.len() {
        lemma_group_sum_monotone(us, user_id, group_id, n + 1);
    }
}

proof fn lemma_group_sum_absent(us: Seq<FlavorUsageSimple>, user_id: int, group_id: int, n: int)
    requires
        0 <= n <= us.len(),
        forall|j: int| 0 <= j < n ==> !spec_row_grouped(#[trigger] us[j], user_id, group_id),
    ensures
        spec_group_sum_usage(us, user_id, group_id, n) == 0,
    decreases n,
{
    if n > 0 {
        lemma_group_sum_absent(us, user_id, group_id, n - 1);
    }
}

/// Folds per-flavor usage rows into per-group rows: rows without a group are
/// dropped, and each (user, group) pair sums its weighted usage; the first
/// row of a pair names it.
pub fn flavor_usage_to_flavor_group_usage(usages: Vec<FlavorUsageSimple>) -> (r: Vec<
    FlavorGroupUsageSimple,
>)
    requires
        forall|u: int, g: int|
            0 <= #[trigger] spec_group_sum_usage(usages@, u, g, usages@.len() as int) <= u32::MAX,
    ensures
        forall|a: int, b: int|
            0 <= a < b < r@.len() ==> !((#[trigger] r@[a]).user_id == (#[trigger] r@[b]).user_id
                && r@[a].flavorgroup_id == r@[b].flavorgroup_id),
        forall|k: int|
            0 <= k < r@.len() ==> (#[trigger] r@[k]).usage as int == spec_group_sum_usage(
                usages@,
                r@[k].user_id as int,
                r@[k].flavorgroup_id as int,
                usages@.len() as int,
            ),
        forall|j: int|
            0 <= j < usages@.len() && (#[trigger] usages@[j]).flavorgroup_id is Some && usages@[j].flavorgroup_name is Some
                ==> spec_group_usage_index(
                r@,
                usages@[j].user_id as int,
                usages@[j].flavorgroup_id->0 as int,
            ) >= 0,
{
    let n = usages.len();
    let mut r: Vec<FlavorGroupUsageSimple> = Vec::new();
    let mut i: usize = 0;
    while i < n
        invariant
            n == usages@.len(),
            forall|u: int, g: int|
                0 <= #[trigger] spec_group_sum_usage(usages@, u, g, usages@.len() as int)
                    <= u32::MAX,
            0 <= i <= n,
            forall|a: int, b: int|
                0 <= a < b < r@.len() ==> !((#[trigger] r@[a]).user_id == (
                #[trigger] r@[b]).user_id && r@[a].flavorgroup_id == r@[b].flavorgroup_id),
            forall|k: int|
                0 <= k < r@.len() ==> (#[trigger] r@[k]).usage as int == spec_group_sum_usage(
                    usages@,
                    r@[k].user_id as int,
                    r@[k].flavorgroup_id as int,
                    i as int,
                ),
            forall|j: int|
                0 <= j < i && (#[trigger] usages@[j]).flavorgroup_id is Some && usages@[j].flavorgroup_name is Some
                    ==> spec_group_usage_index(
                    r@,
                    usages@[j].user_id as int,
                    usages@[j].flavorgroup_id->0 as int,
                ) >= 0,
        decreases n - i,
    {
        let ghost r0 = r@;
        let has_group = usages[i].flavorgroup_id.is_some() && usages[i].flavorgroup_name.is_some();
        if has_group {
            let uid = usages[i].user_id;
            let gid = match usages[i].flavorgroup_id {
                Some(g) => g,
                None => 0,
            };
            proof {
                lemma_group_sum_monotone(usages@, uid as int, gid as int, i as int);
            }
            let m = r.len();
            let mut k: usize = 0;
            let mut found = false;
            while k < m
                invariant
                    m == r@.len(),
                    r@ == r0,
                    0 <= k <= m,
                    !found ==> forall|j: int|
                        0 <= j < k ==> !((#[trigger] r@[j]).user_id == uid && r@[j].flavorgroup_id
                            == gid),
                    found ==> k < m && r@[k as int].user_id == uid && r@[k as int].flavorgroup_id
                        == gid,
                ensures
                    m == r@.len(),
                    r@ == r0,
                    found ==> k < m && r@[k as int].user_id == uid && r@[k as int].flavorgroup_id
                        == gid,
                    !found ==> forall|j: int|
                        0 <= j < m ==> !((#[trigger] r@[j]).user_id == uid && r@[j].flavorgroup_id
                            == gid),
                decreases m - k + if found {
                    0int
                } else {
                    1int
                },
            {
                if found {
                    break ;
                }
                if r[k].user_id == uid && r[k].flavorgroup_id == gid {
                    found = true;
                } else {
                    k += 1;
                }
            }
            if found {
                proof {
                    lemma_group_usage_index(r0, uid as int, gid as int);
                    assert(spec_group_usage_index(r0, uid as int, gid as int) == k);
                    assert(spec_row_grouped(usages@[i as int], uid as int, gid as int));
                    lemma_group_sum_monotone(usages@, uid as int, gid as int, i + 1);
                }
                let new_usage = r[k].usage + usages[i].usage;
                let e = &mut r[k];
                e.usage = new_usage;
                proof {
                    assert forall|k2: int| 0 <= k2 < r@.len() implies (
                    #[trigger] r@[k2]).usage as int == spec_group_sum_usage(
                        usages@,
                        r@[k2].user_id as int,
                        r@[k2].flavorgroup_id as int,
                        i + 1,
                    ) by {
                        if k2 != k {
                            assert(r@[k2] == r0[k2]);
                            assert(!(r0[k2].user_id == uid && r0[k2].flavorgroup_id == gid));
                        }
                    }
                    assert forall|j: int|
                        0 <= j < i + 1 && (#[trigger] usages@[j]).flavorgroup_id is Some
                            && usages@[j].flavorgroup_name is Some implies spec_group_usage_index(
                        r@,
                        usages@[j].user_id as int,
                        usages@[j].flavorgroup_id->0 as int,
                    ) >= 0 by {
                        lemma_group_index_same_keys(
                            r0,
                            r@,
                            usages@[j].user_id as int,
                            usages@[j].flavorgroup_id->0 as int,
                        );
                    }
                    assert forall|a: int, b: int|
                        0 <= a < b < r@.len() implies !((#[trigger] r@[a]).user_id == (
                    #[trigger] r@[b]).user_id && r@[a].flavorgroup_id == r@[b].flavorgroup_id) by {
                        assert(r0[a].user_id == r@[a].user_id && r0[a].flavorgroup_id
                            == r@[a].flavorgroup_id);
                        assert(r0[b].user_id == r@[b].user_id && r0[b].flavorgroup_id
                            == r@[b].flavorgroup_id);
                    }
                }
            } else {
                proof {
                    lemma_group_usage_index(r@, uid as int, gid as int);
                    assert(forall|j: int|
                        0 <= j < r@.len() ==> !((#[trigger] r@[j]).user_id == uid
                            && r@[j].flavorgroup_id == gid));
                    if spec_group_usage_index(r@, uid as int, gid as int) >= 0 {
                        let ix = spec_group_usage_index(r@, uid as int, gid as int);
                        assert(r@[ix].user_id as int == uid as int && r@[ix].flavorgroup_id as int
                            == gid as int);
                        assert(false);
                    }
                    assert forall|j: int|
                        0 <= j < i && spec_row_grouped(
                            #[trigger] usages@[j],
                            uid as int,
                            gid as int,
                        ) implies false by {
                        assert(spec_group_usage_index(
                            r0,
                            usages@[j].user_id as int,
                            usages@[j].flavorgroup_id->0 as int,
                        ) >= 0);
                    }
                    lemma_group_sum_absent(usages@, uid as int, gid as int, i as int);
                    assert(spec_row_grouped(usages@[i as int], uid as int, gid as int));
                }
                let u = &usages[i];
                let gname = match &u.flavorgroup_name {
                    Some(s) => s.clone(),
                    None => String::new(),
                };
                r.push(
                    FlavorGroupUsageSimple {
                        user_id: u.user_id,
                        user_name: u.user_name.clone(),
                        flavorgroup_id: gid,
                        flavorgroup_name: gname,
                        usage: u.usage,
                    },
                );
                proof {
                    assert(r@.drop_last() =~= r0);
                    assert forall|k2: int| 0 <= k2 < r@.len() implies (
                    #[trigger] r@[k2]).usage as int == spec_group_sum_usage(
                        usages@,
                        r@[k2].user_id as int,
                        r@[k2].flavorgroup_id as int,
                        i + 1,
                    ) by {
                        if k2 < r0.len() {
                            assert(r@[k2] == r0[k2]);
                            assert(!(r0[k2].user_id == uid && r0[k2].flavorgroup_id == gid));
                        }
                    }
                    assert forall|j: int|
                        0 <= j < i + 1 && (#[trigger] usages@[j]).flavorgroup_id is Some
                            && usages@[j].flavorgroup_name is Some implies spec_group_usage_index(
                        r@,
                        usages@[j].user_id as int,
                        usages@[j].flavorgroup_id->0 as int,
                    ) >= 0 by {
                        lemma_group_index_push(
                            r0,
                            r@[r0.len() as int],
                            usages@[j].user_id as int,
                            usages@[j].flavorgroup_id->0 as int,
                        );
                        assert(r@ =~= r0.push(r@[r0.len() as int]));
                    }
                    assert forall|a: int, b: int|
                        0 <= a < b < r@.len() implies !((#[trigger] r@[a]).user_id == (
                    #[trigger] r@[b]).user_id && r@[a].flavorgroup_id == r@[b].flavorgroup_id) by {
                        if b == r0.len() {
                            assert(r@[a] == r0[a]);
                        }
                    }
                }
            }
        } else {
            proof {
                assert forall|k2: int| 0 <= k2 < r@.len() implies (
                #[trigger] r@[k2]).usage as int == spec_group_sum_usage(
                    usages@,
                    r@[k2].user_id as int,
                    r@[k2].flavorgroup_id as int,
                    i + 1,
                ) by {
                    assert(!spec_row_grouped(
                        usages@[i as int],
                        r@[k2].user_id as int,
                        r@[k2].flavorgroup_id as int,
                    ));
                }
            }
        }
        i += 1;
    }
    r
}

/// Two group-usage lists with the same pairs in the same places index every
/// pair alike.
proof fn lemma_group_index_same_keys(
    s1: Seq<FlavorGroupUsageSimple>,
    s2: Seq<FlavorGroupUsageSimple>,
    user_id: int,
    group_id: int,
)
    requires
        s1.len() == s2.len(),
        forall|j: int|
            0 <= j < s1.len() ==> (#[trigger] s1[j]).user_id == s2[j].user_id
                && s1[j].flavorgroup_id == s2[j].flavorgroup_id,
    ensures
        spec_group_usage_index(s1, user_id, group_id) == spec_group_usage_index(
            s2,
            user_id,
            group_id,
        ),
    decreases s1.len(),
{
    if s1.len() > 0 {
        assert forall|j: int| 0 <= j < s1.drop_first().len() implies (
        #[trigger] s1.drop_first()[j]).user_id == s2.drop_first()[j].user_id
            && s1.drop_first()[j].flavorgroup_id == s2.drop_first()[j].flavorgroup_id by {
            assert(s1.drop_first()[j] == s1[j + 1]);
            assert(s2.drop_first()[j] == s2[j + 1]);
        }
        lemma_group_index_same_keys(s1.drop_first(), s2.drop_first(), user_id, group_id);
    }
}

/// Appending a fresh pair moves no earlier pair and indexes the new one
/// last.
proof fn lemma_group_index_push(
    s: Seq<FlavorGroupUsageSimple>,
    e: FlavorGroupUsageSimple,
    user_id: int,
    group_id: int,
)
    ensures
        spec_group_usage_index(s, user_id, group_id) >= 0 ==> spec_group_usage_index(
            s.push(e),
            user_id,
            group_id,
        ) == spec_group_usage_index(s, user_id, group_id),
        spec_group_usage_index(s, user_id, group_id) < 0 && e.user_id as int == user_id
            && e.flavorgroup_id as int == group_id ==> spec_group_usage_index(
            s.push(e),
            user_id,
            group_id,
        ) == s.len(),
        spec_group_usage_index(s, user_id, group_id) < 0 && !(e.user_id as int == user_id
            && e.flavorgroup_id as int == group_id) ==> spec_group_usage_index(
            s.push(e),
            user_id,
            group_id,
        ) < 0,
    decreases s.len(),
{
    let sp = s.push(e);
    if s.len() == 0 {
        assert(sp.drop_first() =~= Seq::<FlavorGroupUsageSimple>::empty());
        assert(sp[0] == e);
        assert(spec_group_usage_index(
            Seq::<FlavorGroupUsageSimple>::empty(),
            user_id,
            group_id,
        ) == -1);
    } else {
        assert(sp.drop_first() =~= s.drop_first().push(e));
        assert(sp[0] == s[0]);
        lemma_group_index_push(s.drop_first(), e, user_id, group_id);
        if !(s[0].user_id as int == user_id && s[0].flavorgroup_id as int == group_id) {
            assert(spec_group_usage_index(sp, user_id, group_id) == (if spec_group_usage_index(
                sp.drop_first(),
                user_id,
                group_id,
            ) < 0 {
                -1int
            } else {
                spec_group_usage_index(sp.drop_first(), user_id, group_id) + 1
            }));
        }
    }
}

} // verus!
