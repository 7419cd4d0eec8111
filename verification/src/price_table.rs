//! The price table a period carries: one cell per (user class, flavor name)
//! with the unit price in effect, kept as a vector of cells with pairwise
//! distinct keys.

use vstd::prelude::*;
use crate::user::UserClass;

verus! {

/// One cell of a period's price table.
#[derive(Debug)]
pub struct PriceCell {
    pub user_class: UserClass,
    pub flavor_name: String,
    pub unit_price: i64,
}

impl Clone for PriceCell {
    fn clone(&self) -> (res: Self)
        ensures
            res == *self,
    {
        PriceCell {
            user_class: self.user_class,
            flavor_name: self.flavor_name.clone(),
            unit_price: self.unit_price,
        }
    }
}

/// Ghost image of a table: key pair and price of each cell, in order.
pub open spec fn table_view(cs: Seq<PriceCell>) -> Seq<(UserClass, Seq<char>, int)> {
    cs.map(|i: int, c: PriceCell| (c.user_class, c.flavor_name@, c.unit_price as int))
}

/// Index of the first cell keyed (`uc`, `f`), or -1.
pub open spec fn tkey_index(m: Seq<(UserClass, Seq<char>, int)>, uc: UserClass, f: Seq<char>) -> int
    decreases m.len(),
{
    if m.len() == 0 {
        -1
    } else if m[0].0 == uc && m[0].1 == f {
        0
    } else {
        let r = tkey_index(m.drop_first(), uc, f);
        if r < 0 {
            -1
        } else {
            r + 1
        }
    }
}

/// Price stored under (`uc`, `f`); a missing cell prices as zero.
pub open spec fn t_lookup(m: Seq<(UserClass, Seq<char>, int)>, uc: UserClass, f: Seq<char>) -> int {
    if tkey_index(m, uc, f) >= 0 {
        m[tkey_index(m, uc, f)].2
    } else {
        0
    }
}

pub open spec fn t_unique(m: Seq<(UserClass, Seq<char>, int)>) -> bool {
    forall|i: int, j: int|
        0 <= i < j < m.len() ==> !(m[i].0 == m[j].0 && m[i].1 == m[j].1)
}

/// Sets the price under (`uc`, `f`), appending the cell if absent.
pub open spec fn t_set(m: Seq<(UserClass, Seq<char>, int)>, uc: UserClass, f: Seq<char>, v: int) -> Seq<
    (UserClass, Seq<char>, int),
> {
    let i = tkey_index(m, uc, f);
    if i >= 0 {
        m.update(i, (uc, f, v))
    } else {
        m.push((uc, f, v))
    }
}

/// `tkey_index` lands on the cell it names, earlier cells have other keys,
/// and -1 means no cell has the key.
pub proof fn lemma_tkey_index(m: Seq<(UserClass, Seq<char>, int)>, uc: UserClass, f: Seq<char>)
    ensures
        -1 <= tkey_index(m, uc, f) < m.len(),
        tkey_index(m, uc, f) >= 0 ==> m[tkey_index(m, uc, f)].0 == uc && m[tkey_index(m, uc, f)].1
            == f,
        forall|j: int|
            0 <= j < m.len() && (#[trigger] m[j]).0 == uc && m[j].1 == f ==> tkey_index(m, uc, f)
                >= 0,
        forall|j: int|
            0 <= j && (tkey_index(m, uc, f) == -1 || j < tkey_index(m, uc, f)) && j < m.len()
                ==> !((#[trigger] m[j]).0 == uc && m[j].1 == f),
    decreases m.len(),
{
    if m.len() > 0 && !(m[0].0 == uc && m[0].1 == f) {
        lemma_tkey_index(m.drop_first(), uc, f);
        assert forall|j: int| 1 <= j < m.len() implies m.drop_first()[j - 1] == m[j] by {}
    }
}

/// A set keeps keys pairwise distinct, stores `v` under (`uc`, `f`) and
/// leaves every other key's price and presence alone.
pub proof fn lemma_t_set(m: Seq<(UserClass, Seq<char>, int)>, uc: UserClass, f: Seq<char>, v: int)
    requires
        t_unique(m),
    ensures
        t_unique(t_set(m, uc, f, v)),
        t_lookup(t_set(m, uc, f, v), uc, f) == v,
        tkey_index(t_set(m, uc, f, v), uc, f) >= 0,
        forall|uc2: UserClass, g: Seq<char>|
            !(uc2 == uc && g == f) ==> #[trigger] t_lookup(t_set(m, uc, f, v), uc2, g) == t_lookup(
                m,
                uc2,
                g,
            ),
        forall|uc2: UserClass, g: Seq<char>|
            !(uc2 == uc && g == f) ==> (#[trigger] tkey_index(t_set(m, uc, f, v), uc2, g) >= 0)
                == (tkey_index(m, uc2, g) >= 0),
{
    lemma_tkey_index(m, uc, f);
    let i = tkey_index(m, uc, f);
    let r = t_set(m, uc, f, v);
    if i >= 0 {
        assert forall|k: int| 0 <= k < m.len() implies m[k].0 == r[k].0 && m[k].1 == r[k].1 by {}
        lemma_tkey_same_keys(m, r, uc, f);
        assert(t_lookup(r, uc, f) == v);
        assert forall|uc2: UserClass, g: Seq<char>| !(uc2 == uc && g == f) implies #[trigger] t_lookup(
            r,
            uc2,
            g,
        ) == t_lookup(m, uc2, g) by {
            lemma_tkey_same_keys(m, r, uc2, g);
            lemma_tkey_index(m, uc2, g);
        }
        assert forall|uc2: UserClass, g: Seq<char>| !(uc2 == uc && g == f) implies (
        #[trigger] tkey_index(r, uc2, g) >= 0) == (tkey_index(m, uc2, g) >= 0) by {
            lemma_tkey_same_keys(m, r, uc2, g);
        }
    } else {
        lemma_tkey_push(m, uc, f, v, uc, f);
        assert forall|uc2: UserClass, g: Seq<char>| !(uc2 == uc && g == f) implies #[trigger] t_lookup(
            r,
            uc2,
            g,
        ) == t_lookup(m, uc2, g) by {
            lemma_tkey_push(m, uc, f, v, uc2, g);
            lemma_tkey_index(m, uc2, g);
            if tkey_index(m, uc2, g) >= 0 {
                assert(r[tkey_index(m, uc2, g)] == m[tkey_index(m, uc2, g)]);
            }
        }
        assert forall|uc2: UserClass, g: Seq<char>| !(uc2 == uc && g == f) implies (
        #[trigger] tkey_index(r, uc2, g) >= 0) == (tkey_index(m, uc2, g) >= 0) by {
            lemma_tkey_push(m, uc, f, v, uc2, g);
            lemma_tkey_index(m, uc2, g);
        }
        assert forall|a: int, b: int| 0 <= a < b < r.len() implies !(r[a].0 == r[b].0 && r[a].1
            == r[b].1) by {
            if b == m.len() {
                lemma_tkey_index(m, uc, f);
            }
        }
    }
}

/// Two tables with the same keys in the same places index every key alike.
proof fn lemma_tkey_same_keys(
    m1: Seq<(UserClass, Seq<char>, int)>,
    m2: Seq<(UserClass, Seq<char>, int)>,
    uc: UserClass,
    f: Seq<char>,
)
    requires
        m1.len() == m2.len(),
        forall|i: int| 0 <= i < m1.len() ==> m1[i].0 == m2[i].0 && m1[i].1 == m2[i].1,
    ensures
        tkey_index(m1, uc, f) == tkey_index(m2, uc, f),
    decreases m1.len(),
{
    if m1.len() > 0 {
        assert forall|i: int| 0 <= i < m1.drop_first().len() implies m1.drop_first()[i].0
            == m2.drop_first()[i].0 && m1.drop_first()[i].1 == m2.drop_first()[i].1 by {
            assert(m1.drop_first()[i] == m1[i + 1]);
            assert(m2.drop_first()[i] == m2[i + 1]);
        }
        lemma_tkey_same_keys(m1.drop_first(), m2.drop_first(), uc, f);
    }
}

/// Pushing a cell does not move any earlier key.
proof fn lemma_tkey_push(
    m: Seq<(UserClass, Seq<char>, int)>,
    uc: UserClass,
    f: Seq<char>,
    v: int,
    uc2: UserClass,
    g: Seq<char>,
)
    ensures
        tkey_index(m, uc2, g) >= 0 ==> tkey_index(m.push((uc, f, v)), uc2, g) == tkey_index(
            m,
            uc2,
            g,
        ),
        tkey_index(m, uc2, g) < 0 && uc2 == uc && g == f ==> tkey_index(m.push((uc, f, v)), uc2, g)
            == m.len(),
        tkey_index(m, uc2, g) < 0 && !(uc2 == uc && g == f) ==> tkey_index(
            m.push((uc, f, v)),
            uc2,
            g,
        ) < 0,
    decreases m.len(),
{
    let mp = m.push((uc, f, v));
    if m.len() == 0 {
        assert(mp.drop_first() =~= Seq::<(UserClass, Seq<char>, int)>::empty());
        assert(mp.drop_first() == Seq::<(UserClass, Seq<char>, int)>::empty());
        assert(mp[0] == (uc, f, v));
        assert(tkey_index(Seq::<(UserClass, Seq<char>, int)>::empty(), uc2, g) == -1);
    } else {
        assert(mp.drop_first() =~= m.drop_first().push((uc, f, v)));
        assert(mp.drop_first() == m.drop_first().push((uc, f, v)));
        assert(mp[0] == m[0]);
        lemma_tkey_push(m.drop_first(), uc, f, v, uc2, g);
        if !(m[0].0 == uc2 && m[0].1 == g) {
            assert(tkey_index(mp, uc2, g) == (if tkey_index(mp.drop_first(), uc2, g) < 0 {
                -1int
            } else {
                tkey_index(mp.drop_first(), uc2, g) + 1
            }));
        }
    }
}

/// Sets the price of cell (`uc`, `name`), appending the cell if absent.
pub fn table_set(cs: &mut Vec<PriceCell>, uc: UserClass, name: &String, price: i64)
    ensures
        table_view(final(cs)@) == t_set(table_view(old(cs)@), uc, name@, price as int),
{
    let ghost m0 = table_view(cs@);
    let n = cs.len();
    let mut i: usize = 0;
    while i < n
        invariant
            n == cs@.len(),
            0 <= i <= n,
            m0 == table_view(old(cs)@),
            table_view(cs@) == m0,
            forall|j: int| 0 <= j < i ==> !((#[trigger] m0[j]).0 == uc && m0[j].1 == name@),
        decreases n - i,
    {
        if cs[i].user_class == uc && cs[i].flavor_name == *name {
            proof {
                assert(m0[i as int] == (cs@[i as int].user_class, cs@[i as int].flavor_name@, cs@[i as int].unit_price as int));
                lemma_tkey_index(m0, uc, name@);
                assert(tkey_index(m0, uc, name@) == i);
            }
            let e = &mut cs[i];
            e.unit_price = price;
            proof {
                assert forall|j: int| 0 <= j < cs@.len() implies table_view(cs@)[j] == t_set(
                    m0,
                    uc,
                    name@,
                    price as int,
                )[j] by {
                    assert(table_view(cs@)[j] == (cs@[j].user_class, cs@[j].flavor_name@, cs@[j].unit_price as int));
                }
                assert(table_view(cs@) =~= t_set(m0, uc, name@, price as int));
            }
            return ;
        }
        proof {
            assert(m0[i as int] == (cs@[i as int].user_class, cs@[i as int].flavor_name@, cs@[i as int].unit_price as int));
        }
        i += 1;
    }
    proof {
        lemma_tkey_index(m0, uc, name@);
        assert(tkey_index(m0, uc, name@) == -1);
    }
    cs.push(PriceCell { user_class: uc, flavor_name: name.clone(), unit_price: price });
    proof {
        assert forall|j: int| 0 <= j < cs@.len() implies table_view(cs@)[j] == t_set(
            m0,
            uc,
            name@,
            price as int,
        )[j] by {
            assert(table_view(cs@)[j] == (cs@[j].user_class, cs@[j].flavor_name@, cs@[j].unit_price as int));
        }
        assert(table_view(cs@) =~= t_set(m0, uc, name@, price as int));
    }
}

/// Price of cell (`uc`, `name`); a missing cell prices as zero.
pub fn table_price(cs: &Vec<PriceCell>, uc: UserClass, name: &String) -> (r: i64)
    ensures
        r as int == t_lookup(table_view(cs@), uc, name@),
{
    let ghost m0 = table_view(cs@);
    let n = cs.len();
    let mut i: usize = 0;
    while i < n
        invariant
            n == cs@.len(),
            0 <= i <= n,
            m0 == table_view(cs@),
            forall|j: int| 0 <= j < i ==> !((#[trigger] m0[j]).0 == uc && m0[j].1 == name@),
        decreases n - i,
    {
        if cs[i].user_class == uc && cs[i].flavor_name == *name {
            proof {
                assert(m0[i as int] == (cs@[i as int].user_class, cs@[i as int].flavor_name@, cs@[i as int].unit_price as int));
                lemma_tkey_index(m0, uc, name@);
                assert(tkey_index(m0, uc, name@) == i);
            }
            return cs[i].unit_price;
        }
        proof {
            assert(m0[i as int] == (cs@[i as int].user_class, cs@[i as int].flavor_name@, cs@[i as int].unit_price as int));
        }
        i += 1;
    }
    proof {
        lemma_tkey_index(m0, uc, name@);
    }
    0
}

} // verus!
