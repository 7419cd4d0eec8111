//! Server occupancy records: one row binds a server instance to a flavor and
//! an owning user over a half-open interval `[begin, end)`; a missing end
//! means the server is still running.

use vstd::prelude::*;
use crate::{MAX_TIME, spec_overlap_seconds};
use crate::project::Project;
use crate::user::{User, UserClass};

verus! {

/// One occupancy interval of one server instance.
#[derive(Debug)]
pub struct ServerState {
    pub id: u32,
    pub begin: i64,
    pub end: Option<i64>,
    pub instance_id: String,
    pub instance_name: String,
    pub flavor: u32,
    pub flavor_name: String,
    pub status: String,
    pub user: u32,
    pub username: String,
}

impl Clone for ServerState {
    fn clone(&self) -> (res: Self)
        ensures
            res == *self,
    {
        ServerState {
            id: self.id,
            begin: self.begin,
            end: self.end,
            instance_id: self.instance_id.clone(),
            instance_name: self.instance_name.clone(),
            flavor: self.flavor,
            flavor_name: self.flavor_name.clone(),
            status: self.status.clone(),
            user: self.user,
            username: self.username.clone(),
        }
    }
}

pub open spec fn spec_end_opt(e: Option<i64>) -> Option<int> {
    match e {
        Some(t) => Some(t as int),
        None => None,
    }
}

/// A record is well formed when its times lie in range and it does not end
/// before it begins.
pub open spec fn state_wf(s: ServerState) -> bool {
    &&& 0 <= s.begin <= MAX_TIME
    &&& match s.end {
        Some(e) => s.begin <= e && e <= MAX_TIME,
        None => true,
    }
}

pub open spec fn states_wf(ss: Seq<ServerState>) -> bool {
    forall|i: int| 0 <= i < ss.len() ==> state_wf(#[trigger] ss[i])
}

/// Seconds of `[lo, hi)` this record covers; an open end runs until `hi`.
pub open spec fn spec_state_overlap(s: ServerState, lo: int, hi: int) -> int {
    spec_overlap_seconds(s.begin as int, spec_end_opt(s.end), lo, hi)
}

/// The selection predicate of the consumption query: the record's interval
/// meets `[lo, hi)`.
pub open spec fn spec_row_active(s: ServerState, lo: int, hi: int) -> bool {
    &&& match s.end {
        Some(e) => e as int > lo,
        None => true,
    }
    &&& (s.begin as int) < hi
}

/// The records of one server instance, in input order.
pub open spec fn spec_states_of_server(ss: Seq<ServerState>, server_id: Seq<char>) -> Seq<
    ServerState,
>
    decreases ss.len(),
{
    if ss.len() == 0 {
        Seq::empty()
    } else {
        let init = spec_states_of_server(ss.drop_last(), server_id);
        if ss.last().instance_id@ == server_id {
            init.push(ss.last())
        } else {
            init
        }
    }
}

/// The records of one user, by user id, in input order.
pub open spec fn spec_states_of_user(ss: Seq<ServerState>, user_id: int) -> Seq<ServerState>
    decreases ss.len(),
{
    if ss.len() == 0 {
        Seq::empty()
    } else {
        let init = spec_states_of_user(ss.drop_last(), user_id);
        if ss.last().user as int == user_id {
            init.push(ss.last())
        } else {
            init
        }
    }
}

/// The records carrying one owning user name, in input order.
pub open spec fn spec_states_of_username(ss: Seq<ServerState>, name: Seq<char>) -> Seq<ServerState>
    decreases ss.len(),
{
    if ss.len() == 0 {
        Seq::empty()
    } else {
        let init = spec_states_of_username(ss.drop_last(), name);
        if ss.last().username@ == name {
            init.push(ss.last())
        } else {
            init
        }
    }
}

/// A scope keeps at most every record.
pub proof fn lemma_states_of_server_len(ss: Seq<ServerState>, server_id: Seq<char>)
    ensures
        spec_states_of_server(ss, server_id).len() <= ss.len(),
    decreases ss.len(),
{
    if ss.len() > 0 {
        lemma_states_of_server_len(ss.drop_last(), server_id);
    }
}

/// A by-user scope keeps at most every record.
pub proof fn lemma_states_of_user_len(ss: Seq<ServerState>, user_id: int)
    ensures
        spec_states_of_user(ss, user_id).len() <= ss.len(),
    decreases ss.len(),
{
    if ss.len() > 0 {
        lemma_states_of_user_len(ss.drop_last(), user_id);
    }
}

/// A by-name scope keeps at most every record.
pub proof fn lemma_states_of_username_len(ss: Seq<ServerState>, name: Seq<char>)
    ensures
        spec_states_of_username(ss, name).len() <= ss.len(),
    decreases ss.len(),
{
    if ss.len() > 0 {
        lemma_states_of_username_len(ss.drop_last(), name);
    }
}

/// Every record of `server_id`, in input order.
pub fn select_server_states_by_server(states: &Vec<ServerState>, server_id: &String) -> (r: Vec<
    ServerState,
>)
    ensures
        r@ == spec_states_of_server(states@, server_id@),
{
    let mut r: Vec<ServerState> = Vec::new();
    let n = states.len();
    let mut i: usize = 0;
    while i < n
        invariant
            n == states@.len(),
            0 <= i <= n,
            r@ == spec_states_of_server(states@.take(i as int), server_id@),
        decreases n - i,
    {
        if states[i].instance_id == *server_id {
            r.push(states[i].clone());
        }
        proof {
            assert(states@.take(i + 1).drop_last() =~= states@.take(i as int));
            assert(states@.take(i + 1).last() == states@[i as int]);
        }
        i += 1;
    }
    proof {
        assert(states@.take(n as int) =~= states@);
    }
    r
}

/// Every record of user `user_id`, in input order.
pub fn select_server_states_by_user(states: &Vec<ServerState>, user_id: u64) -> (r: Vec<
    ServerState,
>)
    ensures
        r@ == spec_states_of_user(states@, user_id as int),
{
    let mut r: Vec<ServerState> = Vec::new();
    let n = states.len();
    let mut i: usize = 0;
    while i < n
        invariant
            n == states@.len(),
            0 <= i <= n,
            r@ == spec_states_of_user(states@.take(i as int), user_id as int),
        decreases n - i,
    {
        if states[i].user as u64 == user_id {
            r.push(states[i].clone());
        }
        proof {
            assert(states@.take(i + 1).drop_last() =~= states@.take(i as int));
            assert(states@.take(i + 1).last() == states@[i as int]);
        }
        i += 1;
    }
    proof {
        assert(states@.take(n as int) =~= states@);
    }
    r
}

/// Every record owned by user name `name`, in input order.
pub fn select_server_states_by_username(states: &Vec<ServerState>, name: &String) -> (r: Vec<
    ServerState,
>)
    ensures
        r@ == spec_states_of_username(states@, name@),
{
    let mut r: Vec<ServerState> = Vec::new();
    let n = states.len();
    let mut i: usize = 0;
    while i < n
        invariant
            n == states@.len(),
            0 <= i <= n,
            r@ == spec_states_of_username(states@.take(i as int), name@),
        decreases n - i,
    {
        if states[i].username == *name {
            r.push(states[i].clone());
        }
        proof {
            assert(states@.take(i + 1).drop_last() =~= states@.take(i as int));
            assert(states@.take(i + 1).last() == states@[i as int]);
        }
        i += 1;
    }
    proof {
        assert(states@.take(n as int) =~= states@);
    }
    r
}

/// The record belongs to a member of project `project_id`.
pub open spec fn spec_state_in_project(s: ServerState, users: Seq<User>, project_id: int) -> bool {
    exists|j: int|
        0 <= j < users.len() && (#[trigger] users[j]).project as int == project_id
            && users[j].name@ == s.username@
}

/// The records of one project's members, in input order.
pub open spec fn spec_states_of_project(
    ss: Seq<ServerState>,
    users: Seq<User>,
    project_id: int,
) -> Seq<ServerState>
    decreases ss.len(),
{
    if ss.len() == 0 {
        Seq::empty()
    } else {
        let init = spec_states_of_project(ss.drop_last(), users, project_id);
        if spec_state_in_project(ss.last(), users, project_id) {
            init.push(ss.last())
        } else {
            init
        }
    }
}

/// The record belongs to a user of the project named `pname`.
pub open spec fn spec_state_in_project_name(
    s: ServerState,
    users: Seq<User>,
    pname: Seq<char>,
) -> bool {
    exists|j: int|
        0 <= j < users.len() && (#[trigger] users[j]).project_name@ == pname && users[j].name@
            == s.username@
}

/// The records of the project named `pname`, grouped through each record's
/// owning user, in input order.
pub open spec fn spec_states_of_project_name(
    ss: Seq<ServerState>,
    users: Seq<User>,
    pname: Seq<char>,
) -> Seq<ServerState>
    decreases ss.len(),
{
    if ss.len() == 0 {
        Seq::empty()
    } else {
        let init = spec_states_of_project_name(ss.drop_last(), users, pname);
        if spec_state_in_project_name(ss.last(), users, pname) {
            init.push(ss.last())
        } else {
            init
        }
    }
}

fn state_in_project(s: &ServerState, users: &Vec<User>, project_id: u64) -> (r: bool)
    ensures
        r == spec_state_in_project(*s, users@, project_id as int),
{
    let n = users.len();
    let mut j: usize = 0;
    while j < n
        invariant
            n == users@.len(),
            0 <= j <= n,
            forall|i: int|
                0 <= i < j ==> !((#[trigger] users@[i]).project as int == project_id as int
                    && users@[i].name@ == s.username@),
        decreases n - j,
    {
        if users[j].project as u64 == project_id && users[j].name == s.username {
            return true;
        }
        j += 1;
    }
    false
}

fn state_in_project_name(s: &ServerState, users: &Vec<User>, pname: &String) -> (r: bool)
    ensures
        r == spec_state_in_project_name(*s, users@, pname@),
{
    let n = users.len();
    let mut j: usize = 0;
    while j < n
        invariant
            n == users@.len(),
            0 <= j <= n,
            forall|i: int|
                0 <= i < j ==> !((#[trigger] users@[i]).project_name@ == pname@ && users@[i].name@
                    == s.username@),
        decreases n - j,
    {
        if users[j].project_name == *pname && users[j].name == s.username {
            return true;
        }
        j += 1;
    }
    false
}

/// Every record owned by a member of project `project_id`, in input order.
pub fn select_server_states_by_project(
    states: &Vec<ServerState>,
    users: &Vec<User>,
    project_id: u64,
) -> (r: Vec<ServerState>)
    ensures
        r@ == spec_states_of_project(states@, users@, project_id as int),
{
    let mut r: Vec<ServerState> = Vec::new();
    let n = states.len();
    let mut i: usize = 0;
    while i < n
        invariant
            n == states@.len(),
            0 <= i <= n,
            r@ == spec_states_of_project(states@.take(i as int), users@, project_id as int),
        decreases n - i,
    {
        if state_in_project(&states[i], users, project_id) {
            r.push(states[i].clone());
        }
        proof {
            assert(states@.take(i + 1).drop_last() =~= states@.take(i as int));
            assert(states@.take(i + 1).last() == states@[i as int]);
        }
        i += 1;
    }
    proof {
        assert(states@.take(n as int) =~= states@);
    }
    r
}

/// Every record of the project named `pname`, in input order.
pub fn select_server_states_by_project_name(
    states: &Vec<ServerState>,
    users: &Vec<User>,
    pname: &String,
) -> (r: Vec<ServerState>)
    ensures
        r@ == spec_states_of_project_name(states@, users@, pname@),
{
    let mut r: Vec<ServerState> = Vec::new();
    let n = states.len();
    let mut i: usize = 0;
    while i < n
        invariant
            n == states@.len(),
            0 <= i <= n,
            r@ == spec_states_of_project_name(states@.take(i as int), users@, pname@),
        decreases n - i,
    {
        if state_in_project_name(&states[i], users, pname) {
            r.push(states[i].clone());
        }
        proof {
            assert(states@.take(i + 1).drop_last() =~= states@.take(i as int));
            assert(states@.take(i + 1).last() == states@[i as int]);
        }
        i += 1;
    }
    proof {
        assert(states@.take(n as int) =~= states@);
    }
    r
}

/// A by-project scope keeps at most every record, each an input record.
pub proof fn lemma_states_of_project_props(ss: Seq<ServerState>, users: Seq<User>, project_id: int)
    ensures
        spec_states_of_project(ss, users, project_id).len() <= ss.len(),
        forall|k: int| #![trigger spec_states_of_project(ss, users, project_id)[k]]
            0 <= k < spec_states_of_project(ss, users, project_id).len() ==> exists|j: int|
                #![trigger ss[j]]
                0 <= j < ss.len() && spec_states_of_project(ss, users, project_id)[k] == ss[j],
    decreases ss.len(),
{
    if ss.len() > 0 {
        lemma_states_of_project_props(ss.drop_last(), users, project_id);
        let cur = spec_states_of_project(ss, users, project_id);
        let init = spec_states_of_project(ss.drop_last(), users, project_id);
        assert forall|k: int| #![trigger cur[k]] 0 <= k < cur.len() implies exists|j: int|
            #![trigger ss[j]]
            0 <= j < ss.len() && cur[k] == ss[j] by {
            if k < init.len() {
                let j = choose|j: int| #![trigger ss.drop_last()[j]]
                    0 <= j < ss.drop_last().len() && init[k] == ss.drop_last()[j];
                assert(cur[k] == ss[j]);
            } else {
                assert(cur[k] == ss[ss.len() - 1]);
            }
        }
    }
}

/// A by-project-name scope keeps at most every record, each an input record.
pub proof fn lemma_states_of_project_name_props(
    ss: Seq<ServerState>,
    users: Seq<User>,
    pname: Seq<char>,
)
    ensures
        spec_states_of_project_name(ss, users, pname).len() <= ss.len(),
        forall|k: int| #![trigger spec_states_of_project_name(ss, users, pname)[k]]
            0 <= k < spec_states_of_project_name(ss, users, pname).len() ==> exists|j: int|
                #![trigger ss[j]]
                0 <= j < ss.len() && spec_states_of_project_name(ss, users, pname)[k] == ss[j],
    decreases ss.len(),
{
    if ss.len() > 0 {
        lemma_states_of_project_name_props(ss.drop_last(), users, pname);
        let cur = spec_states_of_project_name(ss, users, pname);
        let init = spec_states_of_project_name(ss.drop_last(), users, pname);
        assert forall|k: int| #![trigger cur[k]] 0 <= k < cur.len() implies exists|j: int|
            #![trigger ss[j]]
            0 <= j < ss.len() && cur[k] == ss[j] by {
            if k < init.len() {
                let j = choose|j: int| #![trigger ss.drop_last()[j]]
                    0 <= j < ss.drop_last().len() && init[k] == ss.drop_last()[j];
                assert(cur[k] == ss[j]);
            } else {
                assert(cur[k] == ss[ss.len() - 1]);
            }
        }
    }
}

/// The windowed selection predicate: the record ends after `begin` (or is
/// still open) and begins before `end`; a missing bound does not filter.
pub open spec fn spec_window_pred(s: ServerState, begin: Option<i64>, end: Option<i64>) -> bool {
    &&& match begin {
        Some(b) => match s.end {
            Some(e) => e > b,
            None => true,
        },
        None => true,
    }
    &&& match end {
        Some(h) => s.begin < h,
        None => true,
    }
}

/// The records of `server_id` whose interval meets the window, in input order.
pub open spec fn spec_windowed_states_of_server(
    ss: Seq<ServerState>,
    server_id: Seq<char>,
    begin: Option<i64>,
    end: Option<i64>,
) -> Seq<ServerState>
    decreases ss.len(),
{
    if ss.len() == 0 {
        Seq::empty()
    } else {
        let init = spec_windowed_states_of_server(ss.drop_last(), server_id, begin, end);
        if ss.last().instance_id@ == server_id && spec_window_pred(ss.last(), begin, end) {
            init.push(ss.last())
        } else {
            init
        }
    }
}

/// The records of user `user_id` whose interval meets the window, in input
/// order.
pub open spec fn spec_windowed_states_of_user(
    ss: Seq<ServerState>,
    user_id: int,
    begin: Option<i64>,
    end: Option<i64>,
) -> Seq<ServerState>
    decreases ss.len(),
{
    if ss.len() == 0 {
        Seq::empty()
    } else {
        let init = spec_windowed_states_of_user(ss.drop_last(), user_id, begin, end);
        if ss.last().user as int == user_id && spec_window_pred(ss.last(), begin, end) {
            init.push(ss.last())
        } else {
            init
        }
    }
}

/// The records of one server that overlap the window `[begin, end)`, either
/// bound optional.
pub fn select_ordered_server_states_by_server_begin_and_end(
    states: &Vec<ServerState>,
    server_id: &String,
    begin: Option<i64>,
    end: Option<i64>,
) -> (r: Vec<ServerState>)
    ensures
        r@ == spec_windowed_states_of_server(states@, server_id@, begin, end),
{
    let mut r: Vec<ServerState> = Vec::new();
    let n = states.len();
    let mut i: usize = 0;
    while i < n
        invariant
            n == states@.len(),
            0 <= i <= n,
            r@ == spec_windowed_states_of_server(states@.take(i as int), server_id@, begin, end),
        decreases n - i,
    {
        if states[i].instance_id == *server_id && window_pred(&states[i], begin, end) {
            r.push(states[i].clone());
        }
        proof {
            assert(states@.take(i + 1).drop_last() =~= states@.take(i as int));
            assert(states@.take(i + 1).last() == states@[i as int]);
        }
        i += 1;
    }
    proof {
        assert(states@.take(n as int) =~= states@);
    }
    r
}

/// The records of one user that overlap the window `[begin, end)`, either
/// bound optional.
pub fn select_ordered_server_states_by_user_begin_and_end(
    states: &Vec<ServerState>,
    user_id: u64,
    begin: Option<i64>,
    end: Option<i64>,
) -> (r: Vec<ServerState>)
    ensures
        r@ == spec_windowed_states_of_user(states@, user_id as int, begin, end),
{
    let mut r: Vec<ServerState> = Vec::new();
    let n = states.len();
    let mut i: usize = 0;
    while i < n
        invariant
            n == states@.len(),
            0 <= i <= n,
            r@ == spec_windowed_states_of_user(states@.take(i as int), user_id as int, begin, end),
        decreases n - i,
    {
        if states[i].user as u64 == user_id && window_pred(&states[i], begin, end) {
            r.push(states[i].clone());
        }
        proof {
            assert(states@.take(i + 1).drop_last() =~= states@.take(i as int));
            assert(states@.take(i + 1).last() == states@[i as int]);
        }
        i += 1;
    }
    proof {
        assert(states@.take(n as int) =~= states@);
    }
    r
}

fn window_pred(s: &ServerState, begin: Option<i64>, end: Option<i64>) -> (r: bool)
    ensures
        r == spec_window_pred(*s, begin, end),
{
    let after_begin = match begin {
        Some(b) => match s.end {
            Some(e) => e > b,
            None => true,
        },
        None => true,
    };
    let before_end = match end {
        Some(h) => s.begin < h,
        None => true,
    };
    after_begin && before_end
}

/// Index of the first record of `server_id`, or -1.
pub open spec fn spec_state_index_by_server(ss: Seq<ServerState>, server_id: Seq<char>) -> int
    decreases ss.len(),
{
    if ss.len() == 0 {
        -1
    } else if ss[0].instance_id@ == server_id {
        0
    } else {
        let r = spec_state_index_by_server(ss.drop_first(), server_id);
        if r < 0 {
            -1
        } else {
            r + 1
        }
    }
}

/// Index of the first user with `id`, or -1.
pub open spec fn spec_user_index_by_id(users: Seq<User>, id: int) -> int
    decreases users.len(),
{
    if users.len() == 0 {
        -1
    } else if users[0].id as int == id {
        0
    } else {
        let r = spec_user_index_by_id(users.drop_first(), id);
        if r < 0 {
            -1
        } else {
            r + 1
        }
    }
}

/// Index of the first project with `id`, or -1.
pub open spec fn spec_project_index_by_id(projects: Seq<Project>, id: int) -> int
    decreases projects.len(),
{
    if projects.len() == 0 {
        -1
    } else if projects[0].id as int == id {
        0
    } else {
        let r = spec_project_index_by_id(projects.drop_first(), id);
        if r < 0 {
            -1
        } else {
            r + 1
        }
    }
}

/// Tier pricing a project: the project's own user class, if the project is
/// known.
pub open spec fn spec_user_class_by_project(projects: Seq<Project>, project_id: int) -> Option<
    UserClass,
> {
    let pi = spec_project_index_by_id(projects, project_id);
    if pi >= 0 {
        Some(projects[pi].user_class)
    } else {
        None
    }
}

/// Tier pricing a user: their project's user class, if user and project are
/// known.
pub open spec fn spec_user_class_by_user(
    users: Seq<User>,
    projects: Seq<Project>,
    user_id: int,
) -> Option<UserClass> {
    let ui = spec_user_index_by_id(users, user_id);
    if ui >= 0 {
        spec_user_class_by_project(projects, users[ui].project as int)
    } else {
        None
    }
}

/// Tier pricing a server: the class of the project owning the user of the
/// server's first record, if that chain resolves.
pub open spec fn spec_user_class_by_server(
    states: Seq<ServerState>,
    users: Seq<User>,
    projects: Seq<Project>,
    server_id: Seq<char>,
) -> Option<UserClass> {
    let si = spec_state_index_by_server(states, server_id);
    if si >= 0 {
        spec_user_class_by_user(users, projects, states[si].user as int)
    } else {
        None
    }
}

pub fn select_user_class_by_project(projects: &Vec<Project>, project_id: u64) -> (r: Option<
    UserClass,
>)
    ensures
        r == spec_user_class_by_project(projects@, project_id as int),
{
    let n = projects.len();
    let mut i: usize = 0;
    while i < n
        invariant
            n == projects@.len(),
            0 <= i <= n,
            forall|j: int| 0 <= j < i ==> (#[trigger] projects@[j]).id as int != project_id as int,
        decreases n - i,
    {
        if projects[i].id as u64 == project_id {
            proof {
                lemma_project_index(projects@, project_id as int);
            }
            return Some(projects[i].user_class);
        }
        i += 1;
    }
    proof {
        lemma_project_index(projects@, project_id as int);
    }
    None
}

/// The first index found by `spec_project_index_by_id` carries the id, and a
/// negative answer means no project does.
pub proof fn lemma_project_index(projects: Seq<Project>, id: int)
    ensures
        -1 <= spec_project_index_by_id(projects, id) < projects.len(),
        spec_project_index_by_id(projects, id) >= 0 ==> projects[spec_project_index_by_id(
            projects,
            id,
        )].id as int == id,
        spec_project_index_by_id(projects, id) >= 0 ==> forall|j: int|
            0 <= j < spec_project_index_by_id(projects, id) ==> (#[trigger] projects[j]).id as int
                != id,
        spec_project_index_by_id(projects, id) == -1 ==> forall|j: int|
            0 <= j < projects.len() ==> (#[trigger] projects[j]).id as int != id,
    decreases projects.len(),
{
    if projects.len() > 0 && projects[0].id as int != id {
        lemma_project_index(projects.drop_first(), id);
        assert forall|j: int| 1 <= j < projects.len() implies projects.drop_first()[j - 1]
            == projects[j] by {}
    }
}

pub fn select_user_class_by_user(users: &Vec<User>, projects: &Vec<Project>, user_id: u64) -> (r:
    Option<UserClass>)
    ensures
        r == spec_user_class_by_user(users@, projects@, user_id as int),
{
    let n = users.len();
    let mut i: usize = 0;
    while i < n
        invariant
            n == users@.len(),
            0 <= i <= n,
            forall|j: int| 0 <= j < i ==> users@[j].id as int != user_id as int,
        decreases n - i,
    {
        if users[i].id as u64 == user_id {
            proof {
                lemma_user_index(users@, user_id as int);
            }
            return select_user_class_by_project(projects, users[i].project as u64);
        }
        i += 1;
    }
    proof {
        lemma_user_index(users@, user_id as int);
    }
    None
}

/// The first index found by `spec_user_index_by_id` carries the id, and a
/// negative answer means no user does.
pub proof fn lemma_user_index(users: Seq<User>, id: int)
    ensures
        -1 <= spec_user_index_by_id(users, id) < users.len(),
        spec_user_index_by_id(users, id) >= 0 ==> users[spec_user_index_by_id(
            users,
            id,
        )].id as int == id,
        spec_user_index_by_id(users, id) >= 0 ==> forall|j: int|
            0 <= j < spec_user_index_by_id(users, id) ==> (#[trigger] users[j]).id as int != id,
        spec_user_index_by_id(users, id) == -1 ==> forall|j: int|
            0 <= j < users.len() ==> (#[trigger] users[j]).id as int != id,
    decreases users.len(),
{
    if users.len() > 0 && users[0].id as int != id {
        lemma_user_index(users.drop_first(), id);
        assert forall|j: int| 1 <= j < users.len() implies users.drop_first()[j - 1]
            == users[j] by {}
    }
}

pub fn select_user_class_by_server(
    states: &Vec<ServerState>,
    users: &Vec<User>,
    projects: &Vec<Project>,
    server_id: &String,
) -> (r: Option<UserClass>)
    ensures
        r == spec_user_class_by_server(states@, users@, projects@, server_id@),
{
    let n = states.len();
    let mut i: usize = 0;
    while i < n
        invariant
            n == states@.len(),
            0 <= i <= n,
            forall|j: int| 0 <= j < i ==> states@[j].instance_id@ != server_id@,
        decreases n - i,
    {
        if states[i].instance_id == *server_id {
            proof {
                lemma_state_index_by_server(states@, server_id@);
            }
            return select_user_class_by_user(users, projects, states[i].user as u64);
        }
        i += 1;
    }
    proof {
        lemma_state_index_by_server(states@, server_id@);
    }
    None
}

/// The first index found by `spec_state_index_by_server` carries the id, and
/// a negative answer means no record does.
pub proof fn lemma_state_index_by_server(states: Seq<ServerState>, server_id: Seq<char>)
    ensures
        -1 <= spec_state_index_by_server(states, server_id) < states.len(),
        spec_state_index_by_server(states, server_id) >= 0 ==> states[spec_state_index_by_server(
            states,
            server_id,
        )].instance_id@ == server_id,
        spec_state_index_by_server(states, server_id) >= 0 ==> forall|j: int|
            0 <= j < spec_state_index_by_server(states, server_id) ==> (#[trigger] states[j]).instance_id@
                != server_id,
        spec_state_index_by_server(states, server_id) == -1 ==> forall|j: int|
            0 <= j < states.len() ==> (#[trigger] states[j]).instance_id@ != server_id,
    decreases states.len(),
{
    if states.len() > 0 && states[0].instance_id@ != server_id {
        lemma_state_index_by_server(states.drop_first(), server_id);
        assert forall|j: int| 1 <= j < states.len() implies states.drop_first()[j - 1]
            == states[j] by {}
    }
}

} // verus!
