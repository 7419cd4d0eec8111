//! Accumulator maps from a name to an integer amount, used for both
//! consumption seconds and cost numerators. A map is a vector of entries
//! with pairwise distinct names; entries are added or bumped in place, so
//! names appear in the order their first contribution arrived.

use vstd::prelude::*;

verus! {

/// One accumulator entry: a flavor (or other) name and its running amount.
#[derive(Clone, Debug)]
pub struct FlavorEntry {
    pub name: String,
    pub amount: i128,
}

/// Ghost image of an accumulator: name and amount of each entry, in order.
pub open spec fn entries_view(s: Seq<FlavorEntry>) -> Seq<(Seq<char>, int)> {
    s.map(|i: int, e: FlavorEntry| (e.name@, e.amount as int))
}

/// Index of the first entry named `f`, or -1.
pub open spec fn key_index(m: Seq<(Seq<char>, int)>, f: Seq<char>) -> int
    decreases m.len(),
{
    if m.len() == 0 {
        -1
    } else if m[0].0 == f {
        0
    } else {
        let r = key_index(m.drop_first(), f);
        if r < 0 {
            -1
        } else {
            r + 1
        }
    }
}

pub open spec fn has_key(m: Seq<(Seq<char>, int)>, f: Seq<char>) -> bool {
    key_index(m, f) >= 0
}

/// Amount stored under `f`; a missing name counts as zero.
pub open spec fn lookup(m: Seq<(Seq<char>, int)>, f: Seq<char>) -> int {
    if key_index(m, f) >= 0 {
        m[key_index(m, f)].1
    } else {
        0
    }
}

pub open spec fn keys_unique(m: Seq<(Seq<char>, int)>) -> bool {
    forall|i: int, j: int| 0 <= i < j < m.len() ==> m[i].0 != m[j].0
}

/// Adds `d` under `f`: bumps the existing entry or appends a new one.
pub open spec fn spec_upsert(m: Seq<(Seq<char>, int)>, f: Seq<char>, d: int) -> Seq<
    (Seq<char>, int),
> {
    let i = key_index(m, f);
    if i >= 0 {
        m.update(i, (f, m[i].1 + d))
    } else {
        m.push((f, d))
    }
}

/// Sum of all amounts in the map.
pub open spec fn spec_map_total(m: Seq<(Seq<char>, int)>) -> int
    decreases m.len(),
{
    if m.len() == 0 {
        0
    } else {
        spec_map_total(m.drop_last()) + m.last().1
    }
}

/// Changing one entry's amount changes the sum by the difference.
pub proof fn lemma_map_total_update(m: Seq<(Seq<char>, int)>, i: int, v: (Seq<char>, int))
    requires
        0 <= i < m.len(),
    ensures
        spec_map_total(m.update(i, v)) == spec_map_total(m) - m[i].1 + v.1,
    decreases m.len(),
{
    let mu = m.update(i, v);
    if i == m.len() - 1 {
        assert(mu.drop_last() =~= m.drop_last());
    } else {
        assert(mu.drop_last() =~= m.drop_last().update(i, v));
        lemma_map_total_update(m.drop_last(), i, v);
    }
}

/// An upsert adds exactly its delta to the sum of amounts.
pub proof fn lemma_upsert_total(m: Seq<(Seq<char>, int)>, f: Seq<char>, d: int)
    ensures
        spec_map_total(spec_upsert(m, f, d)) == spec_map_total(m) + d,
{
    lemma_key_index(m, f);
    let i = key_index(m, f);
    if i >= 0 {
        lemma_map_total_update(m, i, (f, m[i].1 + d));
    } else {
        assert(m.push((f, d)).drop_last() =~= m);
    }
}

/// With nonnegative amounts, a prefix sums to no more than the whole map.
pub proof fn lemma_map_total_take(m: Seq<(Seq<char>, int)>, j: int)
    requires
        0 <= j <= m.len(),
        forall|k: int| 0 <= k < m.len() ==> 0 <= (#[trigger] m[k]).1,
    ensures
        0 <= spec_map_total(m.take(j)) <= spec_map_total(m),
    decreases m.len(),
{
    if j == m.len() {
        assert(m.take(j) =~= m);
        lemma_map_total_nonneg(m);
    } else {
        assert(m.take(j) =~= m.drop_last().take(j));
        lemma_map_total_take(m.drop_last(), j);
    }
}

/// With nonnegative amounts the sum is nonnegative.
pub proof fn lemma_map_total_nonneg(m: Seq<(Seq<char>, int)>)
    requires
        forall|k: int| 0 <= k < m.len() ==> 0 <= (#[trigger] m[k]).1,
    ensures
        0 <= spec_map_total(m),
    decreases m.len(),
{
    if m.len() > 0 {
        lemma_map_total_nonneg(m.drop_last());
    }
}

/// `key_index` lands on an entry named `f`, every entry before it is named
/// otherwise, and -1 means no entry is named `f`.
pub proof fn lemma_key_index(m: Seq<(Seq<char>, int)>, f: Seq<char>)
    ensures
        -1 <= key_index(m, f) < m.len(),
        key_index(m, f) >= 0 ==> m[key_index(m, f)].0 == f,
        forall|j: int| 0 <= j < m.len() && m[j].0 == f ==> key_index(m, f) >= 0,
        forall|j: int| 0 <= j && (key_index(m, f) == -1 || j < key_index(m, f)) && j < m.len()
            ==> m[j].0 != f,
    decreases m.len(),
{
    if m.len() > 0 && m[0].0 != f {
        lemma_key_index(m.drop_first(), f);
        assert forall|j: int| 0 <= j < m.len() && m[j].0 == f implies key_index(m, f) >= 0 by {
            if j > 0 {
                assert(m.drop_first()[j - 1].0 == f);
            }
        }
        assert forall|j: int|
            0 <= j && (key_index(m, f) == -1 || j < key_index(m, f)) && j < m.len() implies m[j].0
            != f by {
            if j > 0 {
                assert(m.drop_first()[j - 1] == m[j]);
            }
        }
    }
}

/// `key_index` looks only at names, so updating an entry's amount in place
/// leaves every index where it was.
pub proof fn lemma_key_index_same_keys(m1: Seq<(Seq<char>, int)>, m2: Seq<(Seq<char>, int)>, f: Seq<char>)
    requires
        m1.len() == m2.len(),
        forall|i: int| 0 <= i < m1.len() ==> m1[i].0 == m2[i].0,
    ensures
        key_index(m1, f) == key_index(m2, f),
    decreases m1.len(),
{
    if m1.len() > 0 {
        assert forall|i: int| 0 <= i < m1.drop_first().len() implies m1.drop_first()[i].0
            == m2.drop_first()[i].0 by {
            assert(m1.drop_first()[i] == m1[i + 1]);
            assert(m2.drop_first()[i] == m2[i + 1]);
        }
        lemma_key_index_same_keys(m1.drop_first(), m2.drop_first(), f);
    }
}

/// An upsert keeps names pairwise distinct and changes exactly the amount
/// under `f`, leaving every other name's amount and presence alone.
pub proof fn lemma_upsert(m: Seq<(Seq<char>, int)>, f: Seq<char>, d: int)
    requires
        keys_unique(m),
    ensures
        keys_unique(spec_upsert(m, f, d)),
        lookup(spec_upsert(m, f, d), f) == lookup(m, f) + d,
        has_key(spec_upsert(m, f, d), f),
        forall|g: Seq<char>| g != f ==> lookup(spec_upsert(m, f, d), g) == lookup(m, g),
        forall|g: Seq<char>| g != f ==> has_key(spec_upsert(m, f, d), g) == has_key(m, g),
{
    lemma_key_index(m, f);
    let i = key_index(m, f);
    let r = spec_upsert(m, f, d);
    if i >= 0 {
        assert forall|k: int| 0 <= k < m.len() implies m[k].0 == r[k].0 by {}
        lemma_key_index_same_keys(m, r, f);
        assert(lookup(r, f) == lookup(m, f) + d);
        assert forall|g: Seq<char>| g != f implies lookup(r, g) == lookup(m, g) && has_key(r, g)
            == has_key(m, g) by {
            lemma_key_index_same_keys(m, r, g);
            lemma_key_index(m, g);
        }
    } else {
        lemma_key_index_push(m, f, d, f);
        assert forall|g: Seq<char>| g != f implies lookup(r, g) == lookup(m, g) && has_key(r, g)
            == has_key(m, g) by {
            lemma_key_index_push(m, f, d, g);
            lemma_key_index(m, g);
            if key_index(m, g) >= 0 {
                assert(r[key_index(m, g)] == m[key_index(m, g)]);
            }
        }
        assert forall|a: int, b: int| 0 <= a < b < r.len() implies r[a].0 != r[b].0 by {
            if b == m.len() {
                lemma_key_index(m, f);
            }
        }
    }
}

/// Pushing a new entry shifts no index: a name found among the old entries
/// keeps its index, and a name absent there is found only if it is the one
/// pushed.
pub proof fn lemma_key_index_push(m: Seq<(Seq<char>, int)>, f: Seq<char>, d: int, g: Seq<char>)
    ensures
        key_index(m, g) >= 0 ==> key_index(m.push((f, d)), g) == key_index(m, g),
        key_index(m, g) < 0 && g == f ==> key_index(m.push((f, d)), g) == m.len(),
        key_index(m, g) < 0 && g != f ==> key_index(m.push((f, d)), g) < 0,
    decreases m.len(),
{
    let mp = m.push((f, d));
    if m.len() == 0 {
        assert(mp.drop_first() =~= Seq::<(Seq<char>, int)>::empty());
        assert(mp.drop_first() == Seq::<(Seq<char>, int)>::empty());
        assert(mp[0] == (f, d));
        assert(key_index(Seq::<(Seq<char>, int)>::empty(), g) == -1);
    } else {
        assert(mp.drop_first() =~= m.drop_first().push((f, d)));
        assert(mp.drop_first() == m.drop_first().push((f, d)));
        assert(mp[0] == m[0]);
        lemma_key_index_push(m.drop_first(), f, d, g);
        if m[0].0 != g {
            assert(key_index(mp, g) == (if key_index(mp.drop_first(), g) < 0 {
                -1int
            } else {
                key_index(mp.drop_first(), g) + 1
            }));
        }
    }
}

/// Adds `d` to the amount under `name`, appending the entry if absent.
pub fn upsert_amount(m: &mut Vec<FlavorEntry>, name: &String, d: i128)
    requires
        i128::MIN <= lookup(entries_view(old(m)@), name@) + d <= i128::MAX,
    ensures
        entries_view(final(m)@) == spec_upsert(entries_view(old(m)@), name@, d as int),
{
    proof {
        lemma_key_index(entries_view(m@), name@);
    }
    let ghost m0 = entries_view(m@);
    let n = m.len();
    let mut i: usize = 0;
    while i < n
        invariant
            n == m@.len(),
            0 <= i <= n,
            m0 == entries_view(old(m)@),
            entries_view(m@) == m0,
            forall|j: int| 0 <= j < i ==> m0[j].0 != name@,
            i128::MIN <= lookup(m0, name@) + d <= i128::MAX,
        decreases n - i,
    {
        if m[i].name == *name {
            proof {
                assert(m0[i as int] == (m@[i as int].name@, m@[i as int].amount as int));
                lemma_key_index(m0, name@);
                assert(key_index(m0, name@) == i);
            }
            let bumped = m[i].amount + d;
            let e = &mut m[i];
            e.amount = bumped;
            proof {
                assert forall|j: int| 0 <= j < m@.len() implies entries_view(m@)[j] == spec_upsert(
                    m0,
                    name@,
                    d as int,
                )[j] by {
                    assert(entries_view(m@)[j] == (m@[j].name@, m@[j].amount as int));
                }
                assert(entries_view(m@) =~= spec_upsert(m0, name@, d as int));
                assert(entries_view(m@) == spec_upsert(m0, name@, d as int));
            }
            return ;
        }
        proof {
            assert(m0[i as int] == (m@[i as int].name@, m@[i as int].amount as int));
        }
        i += 1;
    }
    proof {
        lemma_key_index(m0, name@);
        assert(key_index(m0, name@) == -1);
    }
    m.push(FlavorEntry { name: name.clone(), amount: d });
    proof {
        assert forall|j: int| 0 <= j < m@.len() implies entries_view(m@)[j] == spec_upsert(
            m0,
            name@,
            d as int,
        )[j] by {
            assert(entries_view(m@)[j] == (m@[j].name@, m@[j].amount as int));
        }
        assert(entries_view(m@) =~= spec_upsert(m0, name@, d as int));
    }
}

} // verus!
