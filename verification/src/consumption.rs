//! The interval consumption calculator: seconds of occupancy per flavor
//! within a window, for one server, one user, one project, or everything,
//! optionally broken down one level deeper.

use vstd::prelude::*;
use crate::MAX_TIME;
use crate::flavor_map::{
    FlavorEntry, entries_view, has_key, key_index, keys_unique, lemma_key_index, lemma_upsert,
    lookup, spec_upsert, upsert_amount,
};
use crate::server_state::{
    ServerState, spec_row_active, spec_state_overlap, spec_states_of_server,
    spec_states_of_project, spec_states_of_project_name, spec_states_of_user,
    spec_states_of_username, select_server_states_by_project,
    select_server_states_by_project_name, select_server_states_by_server,
    select_server_states_by_user, select_server_states_by_username, states_wf, state_wf,
};
use crate::user::User;

verus! {

/// Total clamped occupancy of flavor `f` within `[lo, hi)` over the records.
pub open spec fn spec_consumption(ss: Seq<ServerState>, f: Seq<char>, lo: int, hi: int) -> int
    decreases ss.len(),
{
    if ss.len() == 0 {
        0
    } else {
        spec_consumption(ss.drop_last(), f, lo, hi) + if ss.last().flavor_name@ == f {
            spec_state_overlap(ss.last(), lo, hi)
        } else {
            0
        }
    }
}

/// A record covers a nonnegative stretch of the window, no longer than the
/// whole time range.
pub proof fn lemma_overlap_bounds(s: ServerState, lo: int, hi: int)
    requires
        state_wf(s),
        0 <= lo,
        hi <= MAX_TIME,
    ensures
        0 <= spec_state_overlap(s, lo, hi) <= MAX_TIME,
{
}

/// Per-flavor consumption is nonnegative and at most one window per record.
pub proof fn lemma_consumption_bounds(ss: Seq<ServerState>, f: Seq<char>, lo: int, hi: int)
    requires
        states_wf(ss),
        0 <= lo,
        hi <= MAX_TIME,
    ensures
        0 <= spec_consumption(ss, f, lo, hi) <= ss.len() * MAX_TIME,
    decreases ss.len(),
{
    if ss.len() > 0 {
        assert(states_wf(ss.drop_last()));
        lemma_consumption_bounds(ss.drop_last(), f, lo, hi);
        lemma_overlap_bounds(ss.last(), lo, hi);
        assert(ss.drop_last().len() * MAX_TIME + MAX_TIME == ss.len() * MAX_TIME) by (nonlinear_arith)
            requires ss.len() >= 1 && ss.drop_last().len() == ss.len() - 1;
    }
}

/// The consumption map of a window: for each record overlapping the window,
/// in input order, its clamped overlap is added under its flavor name.
pub open spec fn spec_consumption_map(ss: Seq<ServerState>, lo: int, hi: int) -> Seq<
    (Seq<char>, int),
>
    decreases ss.len(),
{
    if ss.len() == 0 {
        Seq::empty()
    } else {
        let prev = spec_consumption_map(ss.drop_last(), lo, hi);
        let s = ss.last();
        if spec_row_active(s, lo, hi) {
            spec_upsert(prev, s.flavor_name@, spec_state_overlap(s, lo, hi))
        } else {
            prev
        }
    }
}

/// A record that misses the window entirely covers none of it.
pub proof fn lemma_inactive_overlap_zero(s: ServerState, lo: int, hi: int)
    requires
        !spec_row_active(s, lo, hi),
    ensures
        spec_state_overlap(s, lo, hi) == 0,
{
}

/// A flavor none of whose records overlap the window consumes nothing.
pub proof fn lemma_consumption_no_active(ss: Seq<ServerState>, f: Seq<char>, lo: int, hi: int)
    requires
        forall|j: int|
            0 <= j < ss.len() && (#[trigger] ss[j]).flavor_name@ == f ==> !spec_row_active(
                ss[j],
                lo,
                hi,
            ),
    ensures
        spec_consumption(ss, f, lo, hi) == 0,
    decreases ss.len(),
{
    if ss.len() > 0 {
        lemma_consumption_no_active(ss.drop_last(), f, lo, hi);
        if ss.last().flavor_name@ == f {
            lemma_inactive_overlap_zero(ss.last(), lo, hi);
        }
    }
}

/// The consumption map has pairwise distinct flavor names, each entry holds
/// exactly that flavor's consumption, and a flavor has an entry exactly when
/// one of its records overlaps the window.
pub proof fn lemma_cmap_props(ss: Seq<ServerState>, lo: int, hi: int)
    ensures
        keys_unique(spec_consumption_map(ss, lo, hi)),
        forall|k: int|
            0 <= k < spec_consumption_map(ss, lo, hi).len() ==> (#[trigger] spec_consumption_map(
                ss,
                lo,
                hi,
            )[k]).1 == spec_consumption(ss, spec_consumption_map(ss, lo, hi)[k].0, lo, hi),
        forall|f: Seq<char>|
            #[trigger] has_key(spec_consumption_map(ss, lo, hi), f) <==> exists|j: int|
                0 <= j < ss.len() && (#[trigger] ss[j]).flavor_name@ == f && spec_row_active(
                    ss[j],
                    lo,
                    hi,
                ),
    decreases ss.len(),
{
    if ss.len() > 0 {
        lemma_cmap_props(ss.drop_last(), lo, hi);
        let prev = spec_consumption_map(ss.drop_last(), lo, hi);
        let cur = spec_consumption_map(ss, lo, hi);
        let s = ss.last();
        if spec_row_active(s, lo, hi) {
            assert(cur == spec_upsert(prev, s.flavor_name@, spec_state_overlap(s, lo, hi)));
            lemma_upsert(prev, s.flavor_name@, spec_state_overlap(s, lo, hi));
            lemma_key_index(prev, s.flavor_name@);
            lemma_key_index(cur, s.flavor_name@);
            assert forall|k: int| 0 <= k < cur.len() implies (#[trigger] cur[k]).1
                == spec_consumption(ss, cur[k].0, lo, hi) by {
                let key = cur[k].0;
                lemma_key_index(cur, key);
                let ki = key_index(cur, key);
                if ki != k {
                    assert(cur[ki].0 == key);
                    assert(false);
                }
                assert(cur[k].1 == lookup(cur, key));
                lemma_key_index(prev, key);
                if has_key(prev, key) {
                    let kp = key_index(prev, key);
                    assert(prev[kp].0 == key);
                    assert(prev[kp].1 == spec_consumption(ss.drop_last(), key, lo, hi));
                    assert(lookup(prev, key) == spec_consumption(ss.drop_last(), key, lo, hi));
                } else {
                    assert forall|j: int|
                        0 <= j < ss.drop_last().len() && (#[trigger] ss.drop_last()[j]).flavor_name@
                            == key implies !spec_row_active(ss.drop_last()[j], lo, hi) by {}
                    lemma_consumption_no_active(ss.drop_last(), key, lo, hi);
                    assert(lookup(prev, key) == 0);
                }
                if key == s.flavor_name@ {
                    assert(lookup(cur, key) == lookup(prev, key) + spec_state_overlap(s, lo, hi));
                } else {
                    assert(lookup(cur, key) == lookup(prev, key));
                }
            }
            assert forall|f: Seq<char>| #[trigger] has_key(cur, f) implies exists|j: int|
                0 <= j < ss.len() && (#[trigger] ss[j]).flavor_name@ == f && spec_row_active(
                    ss[j],
                    lo,
                    hi,
                ) by {
                if f == s.flavor_name@ {
                    assert(ss[ss.len() - 1].flavor_name@ == f && spec_row_active(
                        ss[ss.len() - 1],
                        lo,
                        hi,
                    ));
                } else {
                    assert(has_key(prev, f));
                    let j = choose|j: int|
                        0 <= j < ss.drop_last().len() && (#[trigger] ss.drop_last()[j]).flavor_name@
                            == f && spec_row_active(ss.drop_last()[j], lo, hi);
                    assert(ss[j].flavor_name@ == f && spec_row_active(ss[j], lo, hi));
                }
            }
            assert forall|f: Seq<char>|
                exists|j: int|
                    0 <= j < ss.len() && (#[trigger] ss[j]).flavor_name@ == f && spec_row_active(
                        ss[j],
                        lo,
                        hi,
                    ) implies #[trigger] has_key(cur, f) by {
                let j = choose|j: int|
                    0 <= j < ss.len() && (#[trigger] ss[j]).flavor_name@ == f && spec_row_active(
                        ss[j],
                        lo,
                        hi,
                    );
                if j < ss.len() - 1 {
                    assert(ss.drop_last()[j] == ss[j]);
                    assert(has_key(prev, f));
                }
            }
        } else {
            assert forall|k: int| 0 <= k < cur.len() implies (#[trigger] cur[k]).1
                == spec_consumption(ss, cur[k].0, lo, hi) by {
                lemma_inactive_overlap_zero(s, lo, hi);
            }
            assert forall|f: Seq<char>|
                exists|j: int|
                    0 <= j < ss.len() && (#[trigger] ss[j]).flavor_name@ == f && spec_row_active(
                        ss[j],
                        lo,
                        hi,
                    ) implies #[trigger] has_key(cur, f) by {
                let j = choose|j: int|
                    0 <= j < ss.len() && (#[trigger] ss[j]).flavor_name@ == f && spec_row_active(
                        ss[j],
                        lo,
                        hi,
                    );
                assert(j < ss.len() - 1);
                assert(ss.drop_last()[j] == ss[j]);
            }
            assert forall|f: Seq<char>| #[trigger] has_key(cur, f) implies exists|j: int|
                0 <= j < ss.len() && (#[trigger] ss[j]).flavor_name@ == f && spec_row_active(
                    ss[j],
                    lo,
                    hi,
                ) by {
                let j = choose|j: int|
                    0 <= j < ss.drop_last().len() && (#[trigger] ss.drop_last()[j]).flavor_name@
                        == f && spec_row_active(ss.drop_last()[j], lo, hi);
                assert(ss[j].flavor_name@ == f && spec_row_active(ss[j], lo, hi));
            }
        }
    }
}

/// Every entry of the consumption map lies between zero and one window per
/// record.
pub proof fn lemma_cmap_entry_bounds(ss: Seq<ServerState>, lo: int, hi: int)
    requires
        states_wf(ss),
        0 <= lo,
        hi <= MAX_TIME,
    ensures
        forall|k: int|
            0 <= k < spec_consumption_map(ss, lo, hi).len() ==> 0 <= (
            #[trigger] spec_consumption_map(ss, lo, hi)[k]).1 <= ss.len() * MAX_TIME,
{
    lemma_cmap_props(ss, lo, hi);
    assert forall|k: int| 0 <= k < spec_consumption_map(ss, lo, hi).len() implies 0 <= (
    #[trigger] spec_consumption_map(ss, lo, hi)[k]).1 <= ss.len() * MAX_TIME by {
        lemma_consumption_bounds(ss, spec_consumption_map(ss, lo, hi)[k].0, lo, hi);
    }
}

/// A window's consumption map sums to at most one window per record.
pub proof fn lemma_cmap_total(ss: Seq<ServerState>, lo: int, hi: int)
    requires
        states_wf(ss),
        0 <= lo,
        hi <= MAX_TIME,
    ensures
        0 <= crate::flavor_map::spec_map_total(spec_consumption_map(ss, lo, hi)) <= ss.len()
            * MAX_TIME,
    decreases ss.len(),
{
    if ss.len() == 0 {
        assert(0 * MAX_TIME == 0) by (nonlinear_arith);
    } else {
        assert(states_wf(ss.drop_last()));
        lemma_cmap_total(ss.drop_last(), lo, hi);
        let prev = spec_consumption_map(ss.drop_last(), lo, hi);
        if spec_row_active(ss.last(), lo, hi) {
            crate::flavor_map::lemma_upsert_total(
                prev,
                ss.last().flavor_name@,
                spec_state_overlap(ss.last(), lo, hi),
            );
            lemma_overlap_bounds(ss.last(), lo, hi);
        }
        assert(ss.drop_last().len() * MAX_TIME + MAX_TIME == ss.len() * MAX_TIME)
            by (nonlinear_arith)
            requires ss.len() >= 1 && ss.drop_last().len() == ss.len() - 1;
    }
}

fn row_active(s: &ServerState, lo: i64, hi: i64) -> (r: bool)
    ensures
        r == spec_row_active(*s, lo as int, hi as int),
{
    let after = match s.end {
        Some(e) => e > lo,
        None => true,
    };
    after && s.begin < hi
}

/// The consumption map of a window over pre-scoped records: clamped overlap
/// seconds accumulated under each overlapping record's flavor name.
pub fn consumption_map(scoped: &Vec<ServerState>, lo: i64, hi: i64) -> (r: Vec<FlavorEntry>)
    requires
        states_wf(scoped@),
        0 <= lo,
        hi <= MAX_TIME,
    ensures
        entries_view(r@) == spec_consumption_map(scoped@, lo as int, hi as int),
{
    let mut r: Vec<FlavorEntry> = Vec::new();
    let n = scoped.len();
    let mut i: usize = 0;
    while i < n
        invariant
            n == scoped@.len(),
            states_wf(scoped@),
            0 <= lo,
            hi <= MAX_TIME,
            0 <= i <= n,
            entries_view(r@) == spec_consumption_map(scoped@.take(i as int), lo as int, hi as int),
        decreases n - i,
    {
        proof {
            assert(scoped@.take(i + 1).drop_last() =~= scoped@.take(i as int));
            assert(scoped@.take(i + 1).last() == scoped@[i as int]);
        }
        if row_active(&scoped[i], lo, hi) {
            let seconds = crate::overlap_seconds(scoped[i].begin, scoped[i].end, lo, hi);
            proof {
                let prefix = scoped@.take(i as int);
                assert(states_wf(prefix)) by {
                    assert(forall|j: int| 0 <= j < prefix.len() ==> prefix[j] == scoped@[j]);
                }
                lemma_cmap_props(prefix, lo as int, hi as int);
                lemma_cmap_entry_bounds(prefix, lo as int, hi as int);
                lemma_key_index(entries_view(r@), scoped@[i as int].flavor_name@);
                let m = entries_view(r@);
                let ki = key_index(m, scoped@[i as int].flavor_name@);
                if ki >= 0 {
                    assert(0 <= m[ki].1 <= prefix.len() * MAX_TIME);
                    assert(prefix.len() * MAX_TIME <= 0xffff_ffff_ffff_ffffint * MAX_TIME)
                        by (nonlinear_arith)
                        requires 0 <= prefix.len() <= 0xffff_ffff_ffff_ffffint;
                }
            }
            upsert_amount(&mut r, &scoped[i].flavor_name, seconds as i128);
        }
        i += 1;
    }
    proof {
        assert(scoped@.take(n as int) =~= scoped@);
    }
    r
}

/// The servers having a record that overlaps the window, by instance id, in
/// order of their first overlapping record.
pub open spec fn spec_active_servers(ss: Seq<ServerState>, lo: int, hi: int) -> Seq<Seq<char>>
    decreases ss.len(),
{
    if ss.len() == 0 {
        Seq::empty()
    } else {
        let prev = spec_active_servers(ss.drop_last(), lo, hi);
        if spec_row_active(ss.last(), lo, hi) && !prev.contains(ss.last().instance_id@) {
            prev.push(ss.last().instance_id@)
        } else {
            prev
        }
    }
}

/// The users having a record that overlaps the window, by name, in order of
/// their first overlapping record.
pub open spec fn spec_active_usernames(ss: Seq<ServerState>, lo: int, hi: int) -> Seq<Seq<char>>
    decreases ss.len(),
{
    if ss.len() == 0 {
        Seq::empty()
    } else {
        let prev = spec_active_usernames(ss.drop_last(), lo, hi);
        if spec_row_active(ss.last(), lo, hi) && !prev.contains(ss.last().username@) {
            prev.push(ss.last().username@)
        } else {
            prev
        }
    }
}

fn names_contain(names: &Vec<String>, name: &String) -> (r: bool)
    ensures
        r == names@.map(|i: int, s: String| s@).contains(name@),
{
    let n = names.len();
    let mut i: usize = 0;
    while i < n
        invariant
            n == names@.len(),
            0 <= i <= n,
            forall|j: int| 0 <= j < i ==> (#[trigger] names@[j])@ != name@,
        decreases n - i,
    {
        if names[i] == *name {
            proof {
                assert(names@.map(|k: int, s: String| s@)[i as int] == name@);
            }
            return true;
        }
        i += 1;
    }
    proof {
        let mv = names@.map(|j: int, s: String| s@);
        if mv.contains(name@) {
            let k = choose|k: int| 0 <= k < mv.len() && mv[k] == name@;
            assert(mv[k] == names@[k]@);
            assert(false);
        }
    }
    false
}

/// Instance ids of the servers with a record overlapping the window, in
/// order of first appearance.
pub fn active_servers(scoped: &Vec<ServerState>, lo: i64, hi: i64) -> (r: Vec<String>)
    ensures
        r@.map(|i: int, s: String| s@) == spec_active_servers(scoped@, lo as int, hi as int),
{
    let mut r: Vec<String> = Vec::new();
    let n = scoped.len();
    let mut i: usize = 0;
    while i < n
        invariant
            n == scoped@.len(),
            0 <= i <= n,
            r@.map(|k: int, s: String| s@) == spec_active_servers(
                scoped@.take(i as int),
                lo as int,
                hi as int,
            ),
        decreases n - i,
    {
        proof {
            assert(scoped@.take(i + 1).drop_last() =~= scoped@.take(i as int));
            assert(scoped@.take(i + 1).last() == scoped@[i as int]);
        }
        if row_active(&scoped[i], lo, hi) && !names_contain(&r, &scoped[i].instance_id) {
            r.push(scoped[i].instance_id.clone());
            proof {
                assert(r@.map(|k: int, s: String| s@) =~= spec_active_servers(
                    scoped@.take(i + 1),
                    lo as int,
                    hi as int,
                ));
            }
        }
        i += 1;
    }
    proof {
        assert(scoped@.take(n as int) =~= scoped@);
    }
    r
}

/// User names of the owners with a record overlapping the window, in order
/// of first appearance.
pub fn active_usernames(scoped: &Vec<ServerState>, lo: i64, hi: i64) -> (r: Vec<String>)
    ensures
        r@.map(|i: int, s: String| s@) == spec_active_usernames(scoped@, lo as int, hi as int),
{
    let mut r: Vec<String> = Vec::new();
    let n = scoped.len();
    let mut i: usize = 0;
    while i < n
        invariant
            n == scoped@.len(),
            0 <= i <= n,
            r@.map(|k: int, s: String| s@) == spec_active_usernames(
                scoped@.take(i as int),
                lo as int,
                hi as int,
            ),
        decreases n - i,
    {
        proof {
            assert(scoped@.take(i + 1).drop_last() =~= scoped@.take(i as int));
            assert(scoped@.take(i + 1).last() == scoped@[i as int]);
        }
        if row_active(&scoped[i], lo, hi) && !names_contain(&r, &scoped[i].username) {
            r.push(scoped[i].username.clone());
            proof {
                assert(r@.map(|k: int, s: String| s@) =~= spec_active_usernames(
                    scoped@.take(i + 1),
                    lo as int,
                    hi as int,
                ));
            }
        }
        i += 1;
    }
    proof {
        assert(scoped@.take(n as int) =~= scoped@);
    }
    r
}

/// One server's per-flavor map within a nested breakdown.
#[derive(Debug)]
pub struct NamedFlavorMap {
    pub name: String,
    pub flavors: Vec<FlavorEntry>,
}

/// Ghost image of a list of named per-flavor maps.
pub open spec fn named_maps_view(s: Seq<NamedFlavorMap>) -> Seq<(Seq<char>, Seq<(Seq<char>, int)>)> {
    s.map(|i: int, e: NamedFlavorMap| (e.name@, entries_view(e.flavors@)))
}

/// Consumption of one user: the merged per-flavor map and, per server, its
/// own per-flavor map.
#[derive(Debug)]
pub struct ServerConsumptionUser {
    pub total: Vec<FlavorEntry>,
    pub servers: Vec<NamedFlavorMap>,
}

/// The per-server breakdown of a window: for each server with an overlapping
/// record, in order of first appearance, its own consumption map.
pub open spec fn spec_server_breakdown(ss: Seq<ServerState>, lo: int, hi: int) -> Seq<
    (Seq<char>, Seq<(Seq<char>, int)>),
> {
    spec_active_servers(ss, lo, hi).map(
        |i: int, uuid: Seq<char>|
            (uuid, spec_consumption_map(spec_states_of_server(ss, uuid), lo, hi)),
    )
}

/// Consumption of the records of one server within `[begin, end)`.
pub fn calculate_server_consumption_for_server(
    states: &Vec<ServerState>,
    server_id: &String,
    begin: i64,
    end: i64,
) -> (r: Vec<FlavorEntry>)
    requires
        states_wf(states@),
        0 <= begin,
        end <= MAX_TIME,
    ensures
        entries_view(r@) == spec_consumption_map(
            spec_states_of_server(states@, server_id@),
            begin as int,
            end as int,
        ),
{
    let scoped = select_server_states_by_server(states, server_id);
    proof {
        lemma_states_of_server_subset(states@, server_id@);
        lemma_scoped_states_wf(states@, scoped@);
    }
    consumption_map(&scoped, begin, end)
}

/// Records picked out of a well-formed sequence are well formed.
pub proof fn lemma_scoped_states_wf(all: Seq<ServerState>, scoped: Seq<ServerState>)
    requires
        states_wf(all),
        forall|k: int| #![trigger scoped[k]]
            0 <= k < scoped.len() ==> exists|j: int| #![trigger all[j]]
                0 <= j < all.len() && scoped[k] == all[j],
    ensures
        states_wf(scoped),
{
    assert forall|k: int| 0 <= k < scoped.len() implies state_wf(#[trigger] scoped[k]) by {
        let j = choose|j: int| #![trigger all[j]] 0 <= j < all.len() && scoped[k] == all[j];
    }
}

/// Every record a by-server scope keeps is one of the input records.
pub proof fn lemma_states_of_server_subset(ss: Seq<ServerState>, uuid: Seq<char>)
    ensures
        forall|k: int| #![trigger spec_states_of_server(ss, uuid)[k]]
            0 <= k < spec_states_of_server(ss, uuid).len() ==> exists|j: int| #![trigger ss[j]]
                0 <= j < ss.len() && spec_states_of_server(ss, uuid)[k] == ss[j],
    decreases ss.len(),
{
    if ss.len() > 0 {
        lemma_states_of_server_subset(ss.drop_last(), uuid);
        let cur = spec_states_of_server(ss, uuid);
        let init = spec_states_of_server(ss.drop_last(), uuid);
        assert forall|k: int| #![trigger cur[k]] 0 <= k < cur.len() implies exists|j: int|
            #![trigger ss[j]]
            0 <= j < ss.len() && cur[k] == ss[j] by {
            if k < init.len() {
                let j = choose|j: int| #![trigger ss.drop_last()[j]]
                    0 <= j < ss.drop_last().len() && init[k] == ss.drop_last()[j];
                assert(cur[k] == ss[j]);
            } else {
                assert(cur[k] == ss[ss.len() - 1]);
            }
        }
    }
}

/// Every record a by-user scope keeps is one of the input records.
pub proof fn lemma_states_of_user_subset(ss: Seq<ServerState>, user_id: int)
    ensures
        forall|k: int| #![trigger spec_states_of_user(ss, user_id)[k]]
            0 <= k < spec_states_of_user(ss, user_id).len() ==> exists|j: int| #![trigger ss[j]]
                0 <= j < ss.len() && spec_states_of_user(ss, user_id)[k] == ss[j],
    decreases ss.len(),
{
    if ss.len() > 0 {
        lemma_states_of_user_subset(ss.drop_last(), user_id);
        let cur = spec_states_of_user(ss, user_id);
        let init = spec_states_of_user(ss.drop_last(), user_id);
        assert forall|k: int| #![trigger cur[k]] 0 <= k < cur.len() implies exists|j: int|
            #![trigger ss[j]]
            0 <= j < ss.len() && cur[k] == ss[j] by {
            if k < init.len() {
                let j = choose|j: int| #![trigger ss.drop_last()[j]]
                    0 <= j < ss.drop_last().len() && init[k] == ss.drop_last()[j];
                assert(cur[k] == ss[j]);
            } else {
                assert(cur[k] == ss[ss.len() - 1]);
            }
        }
    }
}

/// Every record a by-name scope keeps is one of the input records.
pub proof fn lemma_states_of_username_subset(ss: Seq<ServerState>, name: Seq<char>)
    ensures
        forall|k: int| #![trigger spec_states_of_username(ss, name)[k]]
            0 <= k < spec_states_of_username(ss, name).len() ==> exists|j: int| #![trigger ss[j]]
                0 <= j < ss.len() && spec_states_of_username(ss, name)[k] == ss[j],
    decreases ss.len(),
{
    if ss.len() > 0 {
        lemma_states_of_username_subset(ss.drop_last(), name);
        let cur = spec_states_of_username(ss, name);
        let init = spec_states_of_username(ss.drop_last(), name);
        assert forall|k: int| #![trigger cur[k]] 0 <= k < cur.len() implies exists|j: int|
            #![trigger ss[j]]
            0 <= j < ss.len() && cur[k] == ss[j] by {
            if k < init.len() {
                let j = choose|j: int| #![trigger ss.drop_last()[j]]
                    0 <= j < ss.drop_last().len() && init[k] == ss.drop_last()[j];
                assert(cur[k] == ss[j]);
            } else {
                assert(cur[k] == ss[ss.len() - 1]);
            }
        }
    }
}

/// The per-server breakdown of pre-scoped records.
fn server_breakdown(scoped: &Vec<ServerState>, begin: i64, end: i64) -> (r: Vec<NamedFlavorMap>)
    requires
        states_wf(scoped@),
        0 <= begin,
        end <= MAX_TIME,
    ensures
        named_maps_view(r@) == spec_server_breakdown(scoped@, begin as int, end as int),
{
    let ids = active_servers(scoped, begin, end);
    let mut r: Vec<NamedFlavorMap> = Vec::new();
    let n = ids.len();
    let mut i: usize = 0;
    while i < n
        invariant
            n == ids@.len(),
            states_wf(scoped@),
            0 <= begin,
            end <= MAX_TIME,
            ids@.map(|k: int, s: String| s@) == spec_active_servers(
                scoped@,
                begin as int,
                end as int,
            ),
            0 <= i <= n,
            r@.len() == i,
            named_maps_view(r@) =~= spec_server_breakdown(scoped@, begin as int, end as int).take(
                i as int,
            ),
        decreases n - i,
    {
        let inner = calculate_server_consumption_for_server(scoped, &ids[i], begin, end);
        r.push(NamedFlavorMap { name: ids[i].clone(), flavors: inner });
        proof {
            let bd = spec_server_breakdown(scoped@, begin as int, end as int);
            let ghost_ids = spec_active_servers(scoped@, begin as int, end as int);
            assert(ids@.map(|k: int, s: String| s@).len() == ids@.len());
            assert(ghost_ids.len() == n);
            assert(bd.len() == n);
            assert(named_maps_view(r@).len() == r@.len());
            assert(r@.len() == i + 1);
            assert(ids@.map(|k: int, s: String| s@)[i as int] == ids@[i as int]@);
            assert(ghost_ids[i as int] == ids@[i as int]@);
            assert(bd[i as int] == (ghost_ids[i as int], spec_consumption_map(
                spec_states_of_server(scoped@, ghost_ids[i as int]),
                begin as int,
                end as int,
            )));
            assert forall|j: int| 0 <= j <= i implies named_maps_view(r@)[j] == bd.take(i + 1)[j] by {
                assert(named_maps_view(r@)[j] == (r@[j].name@, entries_view(r@[j].flavors@)));
                if j < i {
                    assert(named_maps_view(r@.drop_last())[j] == (r@[j].name@, entries_view(
                        r@[j].flavors@,
                    )));
                }
            }
            assert(named_maps_view(r@) =~= bd.take(i + 1));
        }
        i += 1;
    }
    proof {
        assert(spec_server_breakdown(scoped@, begin as int, end as int).take(n as int)
            =~= spec_server_breakdown(scoped@, begin as int, end as int));
    }
    r
}

/// Consumption of one user's records, flat or broken down per server.
#[derive(Debug)]
pub enum ServerConsumptionForUser {
    Normal(Vec<FlavorEntry>),
    Detail(ServerConsumptionUser),
}

/// Consumption of the records of one user within `[begin, end)`: the merged
/// per-flavor map and, when `detail` asks for it, each server's own map.
pub fn calculate_server_consumption_for_user(
    states: &Vec<ServerState>,
    user_id: u64,
    begin: i64,
    end: i64,
    detail: Option<bool>,
) -> (r: ServerConsumptionForUser)
    requires
        states_wf(states@),
        0 <= begin,
        end <= MAX_TIME,
    ensures
        ({
            let scoped = spec_states_of_user(states@, user_id as int);
            match r {
                ServerConsumptionForUser::Normal(m) => detail != Some(true) && entries_view(m@)
                    == spec_consumption_map(scoped, begin as int, end as int),
                ServerConsumptionForUser::Detail(d) => detail == Some(true) && entries_view(
                    d.total@,
                ) == spec_consumption_map(scoped, begin as int, end as int) && named_maps_view(
                    d.servers@,
                ) == spec_server_breakdown(scoped, begin as int, end as int),
            }
        }),
{
    let scoped = select_server_states_by_user(states, user_id);
    proof {
        lemma_states_of_user_subset(states@, user_id as int);
        lemma_scoped_states_wf(states@, scoped@);
    }
    let total = consumption_map(&scoped, begin, end);
    match detail {
        Some(true) => {
            let servers = server_breakdown(&scoped, begin, end);
            ServerConsumptionForUser::Detail(ServerConsumptionUser { total, servers })
        },
        _ => ServerConsumptionForUser::Normal(total),
    }
}

/// One user's consumption under their name within a project breakdown.
#[derive(Debug)]
pub struct NamedUserConsumption {
    pub name: String,
    pub consumption: ServerConsumptionUser,
}

/// Consumption of one project: the merged per-flavor map and, per member
/// with an overlapping record, their own breakdown.
#[derive(Debug)]
pub struct ServerConsumptionProject {
    pub total: Vec<FlavorEntry>,
    pub users: Vec<NamedUserConsumption>,
}

/// Ghost image of a per-user consumption list.
pub open spec fn user_consumptions_view(s: Seq<NamedUserConsumption>) -> Seq<
    (Seq<char>, Seq<(Seq<char>, int)>, Seq<(Seq<char>, Seq<(Seq<char>, int)>)>),
> {
    s.map(
        |i: int, e: NamedUserConsumption|
            (
                e.name@,
                entries_view(e.consumption.total@),
                named_maps_view(e.consumption.servers@),
            ),
    )
}

/// The per-user breakdown of a window: for each owner with an overlapping
/// record, in order of first appearance, their merged map and per-server
/// breakdown.
pub open spec fn spec_user_breakdown(ss: Seq<ServerState>, lo: int, hi: int) -> Seq<
    (Seq<char>, Seq<(Seq<char>, int)>, Seq<(Seq<char>, Seq<(Seq<char>, int)>)>),
> {
    spec_active_usernames(ss, lo, hi).map(
        |i: int, name: Seq<char>|
            (
                name,
                spec_consumption_map(spec_states_of_username(ss, name), lo, hi),
                spec_server_breakdown(spec_states_of_username(ss, name), lo, hi),
            ),
    )
}

/// The per-user breakdown of pre-scoped records.
fn user_breakdown(scoped: &Vec<ServerState>, begin: i64, end: i64) -> (r: Vec<NamedUserConsumption>)
    requires
        states_wf(scoped@),
        0 <= begin,
        end <= MAX_TIME,
    ensures
        user_consumptions_view(r@) == spec_user_breakdown(scoped@, begin as int, end as int),
{
    let names = active_usernames(scoped, begin, end);
    let mut r: Vec<NamedUserConsumption> = Vec::new();
    let n = names.len();
    let mut i: usize = 0;
    while i < n
        invariant
            n == names@.len(),
            states_wf(scoped@),
            0 <= begin,
            end <= MAX_TIME,
            names@.map(|k: int, s: String| s@) == spec_active_usernames(
                scoped@,
                begin as int,
                end as int,
            ),
            0 <= i <= n,
            r@.len() == i,
            user_consumptions_view(r@) =~= spec_user_breakdown(
                scoped@,
                begin as int,
                end as int,
            ).take(i as int),
        decreases n - i,
    {
        let child = select_server_states_by_username(scoped, &names[i]);
        proof {
            assert(names@.map(|k: int, s: String| s@)[i as int] == names@[i as int]@);
            lemma_states_of_username_subset(scoped@, names@[i as int]@);
            lemma_scoped_states_wf(scoped@, child@);
        }
        let total = consumption_map(&child, begin, end);
        let servers = server_breakdown(&child, begin, end);
        r.push(
            NamedUserConsumption {
                name: names[i].clone(),
                consumption: ServerConsumptionUser { total, servers },
            },
        );
        proof {
            let bd = spec_user_breakdown(scoped@, begin as int, end as int);
            let gnames = spec_active_usernames(scoped@, begin as int, end as int);
            assert(gnames.len() == n);
            assert(bd.len() == n);
            assert(bd[i as int] == (gnames[i as int], spec_consumption_map(
                spec_states_of_username(scoped@, gnames[i as int]),
                begin as int,
                end as int,
            ), spec_server_breakdown(
                spec_states_of_username(scoped@, gnames[i as int]),
                begin as int,
                end as int,
            )));
            assert forall|j: int| 0 <= j <= i implies user_consumptions_view(r@)[j] == bd.take(
                i + 1,
            )[j] by {
                assert(user_consumptions_view(r@)[j] == (r@[j].name@, entries_view(
                    r@[j].consumption.total@,
                ), named_maps_view(r@[j].consumption.servers@)));
                if j < i {
                    assert(user_consumptions_view(r@.drop_last())[j] == (r@[j].name@, entries_view(
                        r@[j].consumption.total@,
                    ), named_maps_view(r@[j].consumption.servers@)));
                }
            }
            assert(user_consumptions_view(r@) =~= bd.take(i + 1));
        }
        i += 1;
    }
    proof {
        assert(spec_user_breakdown(scoped@, begin as int, end as int).take(n as int)
            =~= spec_user_breakdown(scoped@, begin as int, end as int));
    }
    r
}

/// Consumption of one project's records, flat or broken down per member.
#[derive(Debug)]
pub enum ServerConsumptionForProject {
    Normal(Vec<FlavorEntry>),
    Detail(ServerConsumptionProject),
}

/// Consumption of the records of one project's members within `[begin,
/// end)`: the merged per-flavor map and, when `detail` asks for it, each
/// member's own breakdown.
pub fn calculate_server_consumption_for_project(
    states: &Vec<ServerState>,
    users: &Vec<User>,
    project_id: u64,
    begin: i64,
    end: i64,
    detail: Option<bool>,
) -> (r: ServerConsumptionForProject)
    requires
        states_wf(states@),
        0 <= begin,
        end <= MAX_TIME,
    ensures
        ({
            let scoped = spec_states_of_project(states@, users@, project_id as int);
            match r {
                ServerConsumptionForProject::Normal(m) => detail != Some(true) && entries_view(m@)
                    == spec_consumption_map(scoped, begin as int, end as int),
                ServerConsumptionForProject::Detail(d) => detail == Some(true) && entries_view(
                    d.total@,
                ) == spec_consumption_map(scoped, begin as int, end as int)
                    && user_consumptions_view(d.users@) == spec_user_breakdown(
                    scoped,
                    begin as int,
                    end as int,
                ),
            }
        }),
{
    let scoped = select_server_states_by_project(states, users, project_id);
    proof {
        crate::server_state::lemma_states_of_project_props(states@, users@, project_id as int);
        lemma_scoped_states_wf(states@, scoped@);
    }
    let total = consumption_map(&scoped, begin, end);
    match detail {
        Some(true) => {
            let users_bd = user_breakdown(&scoped, begin, end);
            ServerConsumptionForProject::Detail(
                ServerConsumptionProject { total, users: users_bd },
            )
        },
        _ => ServerConsumptionForProject::Normal(total),
    }
}

/// One project's consumption under its name.
#[derive(Debug)]
pub struct NamedProjectConsumption {
    pub name: String,
    pub consumption: ServerConsumptionProject,
}

/// Consumption over everything: the merged per-flavor map and, per known
/// project, its own breakdown.
#[derive(Debug)]
pub struct ServerConsumptionAll {
    pub total: Vec<FlavorEntry>,
    pub projects: Vec<NamedProjectConsumption>,
}

/// Consumption over everything, flat or broken down per project.
#[derive(Debug)]
pub enum ServerConsumptionForAll {
    Normal(Vec<FlavorEntry>),
    Detail(ServerConsumptionAll),
}

/// Ghost image of a per-project consumption list.
pub open spec fn project_consumptions_view(s: Seq<NamedProjectConsumption>) -> Seq<
    (
        Seq<char>,
        Seq<(Seq<char>, int)>,
        Seq<(Seq<char>, Seq<(Seq<char>, int)>, Seq<(Seq<char>, Seq<(Seq<char>, int)>)>)>,
    ),
> {
    s.map(
        |i: int, e: NamedProjectConsumption|
            (
                e.name@,
                entries_view(e.consumption.total@),
                user_consumptions_view(e.consumption.users@),
            ),
    )
}

/// The per-project breakdown over everything: for each distinct project name
/// of the given user list, in order of first appearance, the merged map and
/// per-member breakdown of its records.
pub open spec fn spec_project_breakdown(
    ss: Seq<ServerState>,
    users: Seq<User>,
    pnames: Seq<Seq<char>>,
    lo: int,
    hi: int,
) -> Seq<
    (
        Seq<char>,
        Seq<(Seq<char>, int)>,
        Seq<(Seq<char>, Seq<(Seq<char>, int)>, Seq<(Seq<char>, Seq<(Seq<char>, int)>)>)>,
    ),
> {
    pnames.map(
        |i: int, name: Seq<char>|
            (
                name,
                spec_consumption_map(spec_states_of_project_name(ss, users, name), lo, hi),
                spec_user_breakdown(spec_states_of_project_name(ss, users, name), lo, hi),
            ),
    )
}

/// The distinct project names of the user list, in order of first
/// appearance.
pub open spec fn spec_user_project_names(users: Seq<User>) -> Seq<Seq<char>>
    decreases users.len(),
{
    if users.len() == 0 {
        Seq::empty()
    } else {
        let prev = spec_user_project_names(users.drop_last());
        if prev.contains(users.last().project_name@) {
            prev
        } else {
            prev.push(users.last().project_name@)
        }
    }
}

fn user_project_names(users: &Vec<User>) -> (r: Vec<String>)
    ensures
        r@.map(|i: int, s: String| s@) == spec_user_project_names(users@),
{
    let mut r: Vec<String> = Vec::new();
    let n = users.len();
    let mut i: usize = 0;
    while i < n
        invariant
            n == users@.len(),
            0 <= i <= n,
            r@.map(|k: int, s: String| s@) == spec_user_project_names(users@.take(i as int)),
        decreases n - i,
    {
        proof {
            assert(users@.take(i + 1).drop_last() =~= users@.take(i as int));
            assert(users@.take(i + 1).last() == users@[i as int]);
        }
        if !names_contain(&r, &users[i].project_name) {
            r.push(users[i].project_name.clone());
            proof {
                assert(r@.map(|k: int, s: String| s@) =~= spec_user_project_names(
                    users@.take(i + 1),
                ));
            }
        }
        i += 1;
    }
    proof {
        assert(users@.take(n as int) =~= users@);
    }
    r
}

/// Consumption of every record within `[begin, end)`: the merged per-flavor
/// map and, when `detail` asks for it, each known project's own breakdown,
/// grouped through each record's owning user.
pub fn calculate_server_consumption_for_all(
    states: &Vec<ServerState>,
    users: &Vec<User>,
    begin: i64,
    end: i64,
    detail: Option<bool>,
) -> (r: ServerConsumptionForAll)
    requires
        states_wf(states@),
        0 <= begin,
        end <= MAX_TIME,
    ensures
        ({
            match r {
                ServerConsumptionForAll::Normal(m) => detail != Some(true) && entries_view(m@)
                    == spec_consumption_map(states@, begin as int, end as int),
                ServerConsumptionForAll::Detail(d) => detail == Some(true) && entries_view(
                    d.total@,
                ) == spec_consumption_map(states@, begin as int, end as int)
                    && project_consumptions_view(d.projects@) == spec_project_breakdown(
                    states@,
                    users@,
                    spec_user_project_names(users@),
                    begin as int,
                    end as int,
                ),
            }
        }),
{
    let total = consumption_map(states, begin, end);
    match detail {
        Some(true) => {
            let pnames = user_project_names(users);
            let mut children: Vec<NamedProjectConsumption> = Vec::new();
            let n = pnames.len();
            let mut i: usize = 0;
            while i < n
                invariant
                    n == pnames@.len(),
                    states_wf(states@),
                    0 <= begin,
                    end <= MAX_TIME,
                    pnames@.map(|k: int, s: String| s@) == spec_user_project_names(users@),
                    0 <= i <= n,
                    children@.len() == i,
                    project_consumptions_view(children@) =~= spec_project_breakdown(
                        states@,
                        users@,
                        spec_user_project_names(users@),
                        begin as int,
                        end as int,
                    ).take(i as int),
                decreases n - i,
            {
                let scoped = select_server_states_by_project_name(states, users, &pnames[i]);
                proof {
                    assert(pnames@.map(|k: int, s: String| s@)[i as int] == pnames@[i as int]@);
                    crate::server_state::lemma_states_of_project_name_props(
                        states@,
                        users@,
                        pnames@[i as int]@,
                    );
                    lemma_scoped_states_wf(states@, scoped@);
                }
                let ptotal = consumption_map(&scoped, begin, end);
                let users_bd = user_breakdown(&scoped, begin, end);
                children.push(
                    NamedProjectConsumption {
                        name: pnames[i].clone(),
                        consumption: ServerConsumptionProject { total: ptotal, users: users_bd },
                    },
                );
                proof {
                    let gnames = spec_user_project_names(users@);
                    let bd = spec_project_breakdown(
                        states@,
                        users@,
                        gnames,
                        begin as int,
                        end as int,
                    );
                    assert(gnames.len() == n);
                    assert(bd.len() == n);
                    assert(bd[i as int] == (gnames[i as int], spec_consumption_map(
                        spec_states_of_project_name(states@, users@, gnames[i as int]),
                        begin as int,
                        end as int,
                    ), spec_user_breakdown(
                        spec_states_of_project_name(states@, users@, gnames[i as int]),
                        begin as int,
                        end as int,
                    )));
                    assert forall|j: int| 0 <= j <= i implies project_consumptions_view(
                        children@,
                    )[j] == bd.take(i + 1)[j] by {
                        assert(project_consumptions_view(children@)[j] == (children@[j].name@, entries_view(
                            children@[j].consumption.total@,
                        ), user_consumptions_view(children@[j].consumption.users@)));
                        if j < i {
                            assert(project_consumptions_view(children@.drop_last())[j] == (
                            children@[j].name@, entries_view(children@[j].consumption.total@), user_consumptions_view(
                                children@[j].consumption.users@,
                            )));
                        }
                    }
                    assert(project_consumptions_view(children@) =~= bd.take(i + 1));
                }
                i += 1;
            }
            proof {
                let bd = spec_project_breakdown(
                    states@,
                    users@,
                    spec_user_project_names(users@),
                    begin as int,
                    end as int,
                );
                assert(bd.take(n as int) =~= bd);
            }
            ServerConsumptionForAll::Detail(
                ServerConsumptionAll { total, projects: children },
            )
        },
        _ => ServerConsumptionForAll::Normal(total),
    }
}

} // verus!
