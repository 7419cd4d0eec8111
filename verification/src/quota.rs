//! Flavor quotas: per-user ceilings on the weighted number of servers of a
//! flavor group, with the decision logic of the quota check and its short
//! lived answer cache.

use vstd::prelude::*;

verus! {

/// A per-user ceiling for one flavor group; negative means unlimited.
#[derive(Clone, Debug)]
pub struct FlavorQuota {
    pub id: u32,
    pub user: u32,
    pub username: String,
    pub quota: i64,
    pub flavor_group: u32,
    pub flavor_group_name: String,
}

/// Answer of a quota check.
#[derive(Clone, Copy, Debug)]
pub struct FlavorQuotaCheck {
    pub underquota: bool,
}

#[derive(Clone, Debug)]
pub struct FlavorQuotaListParams {
    pub all: Option<bool>,
    pub group: Option<u32>,
    pub user: Option<u32>,
}

#[derive(Clone, Debug)]
pub struct FlavorQuotaCreateData {
    pub flavor_group: u32,
    pub user: u32,
    pub quota: i64,
}

impl FlavorQuotaCreateData {
    pub fn new(flavor_group: u32, user: u32) -> (r: FlavorQuotaCreateData)
        ensures
            r.flavor_group == flavor_group,
            r.user == user,
            r.quota == -1,
    {
        FlavorQuotaCreateData { flavor_group, user, quota: -1 }
    }
}

#[derive(Clone, Debug)]
pub struct FlavorQuotaModifyData {
    pub id: u32,
    pub user: Option<u32>,
    pub quota: Option<i64>,
    pub flavor_group: Option<u32>,
}

impl FlavorQuotaModifyData {
    pub fn new(id: u32) -> (r: FlavorQuotaModifyData)
        ensures
            r.id == id,
            r.user is None,
            r.quota is None,
            r.flavor_group is None,
    {
        FlavorQuotaModifyData { id, user: None, quota: None, flavor_group: None }
    }
}

/// The quota decision: a flavor without a group or a user without a stored
/// quota is never limited; otherwise the current weighted usage plus the
/// requested servers' weight must stay within the quota, a negative quota
/// counting as zero.
pub fn check_flavor_quota(
    group: Option<u32>,
    quota: Option<i64>,
    usage: u32,
    count: u32,
    weight: u32,
) -> (r: bool)
    requires
        usage as int + count as int * weight as int <= u32::MAX,
    ensures
        r == match (group, quota) {
            (Some(_), Some(q)) => usage as int + count as int * weight as int <= (if q >= 0 {
                q as int
            } else {
                0
            }),
            _ => false,
        },
{
    if group.is_none() {
        return false;
    }
    let q = match quota {
        Some(q) => q,
        None => {
            return false;
        },
    };
    let limit: i64 = if q >= 0 {
        q
    } else {
        0
    };
    (usage as i64) + (count as i64) * (weight as i64) <= limit
}

/// One cached quota answer's key: who asked, for which flavor, how many.
#[derive(Clone, Debug)]
pub struct CacheKey {
    pub username: String,
    pub flavor_name: String,
    pub count: usize,
}

impl CacheKey {
    pub fn new(username: &str, flavor_name: &str, count: usize) -> (r: CacheKey)
        ensures
            r.username@ == username@,
            r.flavor_name@ == flavor_name@,
            r.count == count,
    {
        CacheKey {
            username: username.to_owned(),
            flavor_name: flavor_name.to_owned(),
            count,
        }
    }
}

/// One cached quota answer with the instant it was stored.
#[derive(Clone, Debug)]
pub struct CacheValue {
    pub underquota: bool,
    pub stored_at: i64,
}

impl CacheValue {
    pub fn new(underquota: bool, now: i64) -> (r: CacheValue)
        ensures
            r.underquota == underquota,
            r.stored_at == now,
    {
        CacheValue { underquota, stored_at: now }
    }
}

/// Seconds a cached quota answer stays valid.
pub const CACHE_TIMEOUT_SECONDS: i64 = 5;

/// Keys match when user, flavor and requested count all match.
pub open spec fn cache_key_eq(a: CacheKey, b: CacheKey) -> bool {
    a.username@ == b.username@ && a.flavor_name@ == b.flavor_name@ && a.count == b.count
}

/// A cached entry is fresh at `now` when it was stored less than the timeout
/// ago, in either direction of the clock.
pub open spec fn cache_fresh(v: CacheValue, now: int) -> bool {
    let d = now - v.stored_at;
    (if d >= 0 {
        d
    } else {
        -d
    }) < CACHE_TIMEOUT_SECONDS
}

/// The short-lived quota answer cache: entries are looked up by key and only
/// answered while fresh; a stale hit is evicted.
#[derive(Debug)]
pub struct QuotaCache {
    pub entries: Vec<(CacheKey, CacheValue)>,
}

/// Index of the first cache entry matching `key`, or -1.
pub open spec fn spec_cache_index(entries: Seq<(CacheKey, CacheValue)>, key: CacheKey) -> int
    decreases entries.len(),
{
    if entries.len() == 0 {
        -1
    } else if cache_key_eq(entries[0].0, key) {
        0
    } else {
        let r = spec_cache_index(entries.drop_first(), key);
        if r < 0 {
            -1
        } else {
            r + 1
        }
    }
}

impl QuotaCache {
    pub fn new() -> (r: QuotaCache)
        ensures
            r.entries@.len() == 0,
    {
        QuotaCache { entries: Vec::new() }
    }

    /// Stores an answer under a key at instant `now`.
    pub fn set(&mut self, key: CacheKey, underquota: bool, now: i64)
        ensures
            final(self).entries@ == old(self).entries@.push(
                (key, CacheValue { underquota, stored_at: now }),
            ),
    {
        self.entries.push((key, CacheValue { underquota, stored_at: now }));
    }

    /// Answers from the cache: the first entry under the key, if it exists
    /// and is still fresh at `now`; a stale first entry is removed and gives
    /// no answer.
    pub fn get(&mut self, key: &CacheKey, now: i64) -> (r: Option<bool>)
        requires
            forall|j: int| 0 <= j < old(self).entries@.len() ==> -0x4000_0000_0000_0000 < (
            #[trigger] old(self).entries@[j]).1.stored_at < 0x4000_0000_0000_0000,
            -0x4000_0000_0000_0000 < now < 0x4000_0000_0000_0000,
        ensures
            ({
                let i = spec_cache_index(old(self).entries@, *key);
                match r {
                    Some(b) => i >= 0 && cache_fresh(old(self).entries@[i].1, now as int) && b
                        == old(self).entries@[i].1.underquota && final(self).entries@ == old(
                        self,
                    ).entries@,
                    None => (i < 0 && final(self).entries@ == old(self).entries@) || (i >= 0
                        && !cache_fresh(old(self).entries@[i].1, now as int) && final(self).entries@
                        == old(self).entries@.remove(i)),
                }
            }),
    {
        let n = self.entries.len();
        let mut i: usize = 0;
        while i < n
            invariant
                n == self.entries@.len(),
                self.entries@ == old(self).entries@,
                0 <= i <= n,
                forall|j: int| 0 <= j < i ==> !cache_key_eq((#[trigger] self.entries@[j]).0, *key),
                forall|j: int| 0 <= j < n ==> -0x4000_0000_0000_0000 < (
                #[trigger] self.entries@[j]).1.stored_at < 0x4000_0000_0000_0000,
                -0x4000_0000_0000_0000 < now < 0x4000_0000_0000_0000,
            decreases n - i,
        {
            let hit = self.entries[i].0.username == key.username && self.entries[i].0.flavor_name
                == key.flavor_name && self.entries[i].0.count == key.count;
            if hit {
                proof {
                    lemma_cache_index(self.entries@, *key);
                    assert(spec_cache_index(self.entries@, *key) == i);
                }
                let d = now - self.entries[i].1.stored_at;
                let age = if d >= 0 {
                    d
                } else {
                    -d
                };
                if age >= CACHE_TIMEOUT_SECONDS {
                    self.entries.remove(i);
                    return None;
                }
                return Some(self.entries[i].1.underquota);
            }
            i += 1;
        }
        proof {
            lemma_cache_index(self.entries@, *key);
        }
        None
    }
}

/// The first matching cache index matches, and -1 means nothing matches.
pub proof fn lemma_cache_index(entries: Seq<(CacheKey, CacheValue)>, key: CacheKey)
    ensures
        -1 <= spec_cache_index(entries, key) < entries.len(),
        spec_cache_index(entries, key) >= 0 ==> cache_key_eq(
            entries[spec_cache_index(entries, key)].0,
            key,
        ),
        spec_cache_index(entries, key) >= 0 ==> forall|j: int|
            0 <= j < spec_cache_index(entries, key) ==> !cache_key_eq(
                (#[trigger] entries[j]).0,
                key,
            ),
        spec_cache_index(entries, key) == -1 ==> forall|j: int|
            0 <= j < entries.len() ==> !cache_key_eq((#[trigger] entries[j]).0, key),
    decreases entries.len(),
{
    if entries.len() > 0 && !cache_key_eq(entries[0].0, key) {
        lemma_cache_index(entries.drop_first(), key);
        assert forall|j: int| 1 <= j < entries.len() implies entries.drop_first()[j - 1]
            == entries[j] by {}
    }
}

} // verus!
