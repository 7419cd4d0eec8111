//! The budget comparator: computes the detailed cost of the year a query
//! ends in and joins it against stored yearly budgets, flagging every node
//! whose cost has reached its ceiling.

use vstd::prelude::*;
use crate::{MAX_COST_ITEMS, MAX_TIME, SECONDS_PER_YEAR};
use crate::calendar::{
    lemma_year_of_unique, spec_year_of, spec_year_start, start_of_the_year, year_of_timestamp,
};
use crate::cost::{
    NamedUserCost, calculate_server_cost_for_all_detail, calculate_server_cost_for_project_detail,
    project_costs_view, spec_all_detail_upto, spec_all_flavor_map_upto, spec_flavor_cost_map,
    spec_project_children, spec_project_detail_total, spec_project_entries, spec_user_children,
    user_costs_view,
};
use crate::error::NotFoundOrUnexpectedApiError;
use crate::flavor_map::{FlavorEntry, entries_view};
use crate::flavor_price::{FlavorPrice, prices_distinct_starts, prices_sorted_desc, prices_wf};
use crate::project::Project;
use crate::server_state::{
    ServerState, spec_project_index_by_id, spec_states_of_project, spec_user_class_by_project,
    spec_user_index_by_id, states_wf, lemma_user_index,
};
use crate::user::User;

verus! {

/// A yearly monetary ceiling for one project.
#[derive(Debug)]
pub struct ProjectBudget {
    pub id: u32,
    pub project: u32,
    pub project_name: String,
    pub year: u32,
    pub amount: u32,
}

impl Clone for ProjectBudget {
    fn clone(&self) -> (res: Self)
        ensures
            res == *self,
    {
        ProjectBudget {
            id: self.id,
            project: self.project,
            project_name: self.project_name.clone(),
            year: self.year,
            amount: self.amount,
        }
    }
}

/// A yearly monetary ceiling for one user.
#[derive(Debug)]
pub struct UserBudget {
    pub id: u32,
    pub user: u32,
    pub username: String,
    pub year: u32,
    pub amount: u32,
}

impl Clone for UserBudget {
    fn clone(&self) -> (res: Self)
        ensures
            res == *self,
    {
        UserBudget {
            id: self.id,
            user: self.user,
            username: self.username.clone(),
            year: self.year,
            amount: self.amount,
        }
    }
}

/// One server's share in a budget tree.
#[derive(Debug)]
pub struct BudgetOverTreeServer {
    pub total: i128,
    pub flavors: Vec<FlavorEntry>,
}

/// One server's share under its instance id.
#[derive(Debug)]
pub struct NamedBudgetServer {
    pub name: String,
    pub entry: BudgetOverTreeServer,
}

/// One user's node: their cost, their budget if one is stored, and whether
/// the cost has reached it.
#[derive(Debug)]
pub struct BudgetOverTreeUser {
    pub cost: i128,
    pub budget_id: Option<u32>,
    pub budget: Option<u64>,
    pub over: bool,
    pub servers: Vec<NamedBudgetServer>,
    pub flavors: Vec<FlavorEntry>,
}

#[derive(Debug)]
pub struct NamedBudgetUser {
    pub name: String,
    pub entry: BudgetOverTreeUser,
}

/// One project's node with its users nested below it.
#[derive(Debug)]
pub struct BudgetOverTreeProject {
    pub cost: i128,
    pub budget_id: Option<u32>,
    pub budget: Option<u64>,
    pub over: bool,
    pub users: Vec<NamedBudgetUser>,
    pub flavors: Option<Vec<FlavorEntry>>,
}

#[derive(Debug)]
pub struct NamedBudgetProject {
    pub name: String,
    pub entry: BudgetOverTreeProject,
}

/// The full tree of one budget query.
#[derive(Debug)]
pub struct BudgetOverTree {
    pub cost: Option<i128>,
    pub projects: Vec<NamedBudgetProject>,
    pub flavors: Option<Vec<FlavorEntry>>,
}

/// A budget is exceeded exactly when the cost numerator reaches the yearly
/// amount, equality counting as over.
pub open spec fn spec_budget_exceeded(total: int, amount: int) -> bool {
    total >= amount * SECONDS_PER_YEAR
}

/// Whether a cost numerator has reached a yearly amount; equality counts.
pub fn budget_exceeded(total: i128, amount: u32) -> (r: bool)
    ensures
        r == spec_budget_exceeded(total as int, amount as int),
{
    total >= (amount as i128) * (SECONDS_PER_YEAR as i128)
}

/// Index of the first stored budget of `project_id` for `year`, or -1.
pub open spec fn spec_project_budget_index(bs: Seq<ProjectBudget>, project_id: int, year: int) -> int
    decreases bs.len(),
{
    if bs.len() == 0 {
        -1
    } else if bs[0].project as int == project_id && bs[0].year as int == year {
        0
    } else {
        let r = spec_project_budget_index(bs.drop_first(), project_id, year);
        if r < 0 {
            -1
        } else {
            r + 1
        }
    }
}

/// Index of the first stored budget of user `name` for `year`, or -1.
pub open spec fn spec_user_budget_index(bs: Seq<UserBudget>, name: Seq<char>, year: int) -> int
    decreases bs.len(),
{
    if bs.len() == 0 {
        -1
    } else if bs[0].username@ == name && bs[0].year as int == year {
        0
    } else {
        let r = spec_user_budget_index(bs.drop_first(), name, year);
        if r < 0 {
            -1
        } else {
            r + 1
        }
    }
}

/// The first stored budget of a project and year carries both, and -1 means
/// none does.
pub proof fn lemma_project_budget_index(bs: Seq<ProjectBudget>, project_id: int, year: int)
    ensures
        -1 <= spec_project_budget_index(bs, project_id, year) < bs.len(),
        spec_project_budget_index(bs, project_id, year) >= 0 ==> {
            let i = spec_project_budget_index(bs, project_id, year);
            bs[i].project as int == project_id && bs[i].year as int == year
        },
        spec_project_budget_index(bs, project_id, year) == -1 ==> forall|j: int|
            0 <= j < bs.len() ==> !((#[trigger] bs[j]).project as int == project_id
                && bs[j].year as int == year),
        spec_project_budget_index(bs, project_id, year) >= 0 ==> forall|j: int|
            0 <= j < spec_project_budget_index(bs, project_id, year) ==> !((
            #[trigger] bs[j]).project as int == project_id && bs[j].year as int == year),
    decreases bs.len(),
{
    if bs.len() > 0 && !(bs[0].project as int == project_id && bs[0].year as int == year) {
        lemma_project_budget_index(bs.drop_first(), project_id, year);
        assert forall|j: int| 1 <= j < bs.len() implies bs.drop_first()[j - 1] == bs[j] by {}
    }
}

/// The first stored budget of a user name and year carries both, and -1
/// means none does.
pub proof fn lemma_user_budget_index(bs: Seq<UserBudget>, name: Seq<char>, year: int)
    ensures
        -1 <= spec_user_budget_index(bs, name, year) < bs.len(),
        spec_user_budget_index(bs, name, year) >= 0 ==> {
            let i = spec_user_budget_index(bs, name, year);
            bs[i].username@ == name && bs[i].year as int == year
        },
        spec_user_budget_index(bs, name, year) == -1 ==> forall|j: int|
            0 <= j < bs.len() ==> !((#[trigger] bs[j]).username@ == name && bs[j].year as int
                == year),
        spec_user_budget_index(bs, name, year) >= 0 ==> forall|j: int|
            0 <= j < spec_user_budget_index(bs, name, year) ==> !((#[trigger] bs[j]).username@
                == name && bs[j].year as int == year),
    decreases bs.len(),
{
    if bs.len() > 0 && !(bs[0].username@ == name && bs[0].year as int == year) {
        lemma_user_budget_index(bs.drop_first(), name, year);
        assert forall|j: int| 1 <= j < bs.len() implies bs.drop_first()[j - 1] == bs[j] by {}
    }
}

/// First stored budget of a project and year, if any.
pub fn select_maybe_project_budget_by_project_and_year(
    budgets: &Vec<ProjectBudget>,
    project_id: u64,
    year: u32,
) -> (r: Option<ProjectBudget>)
    ensures
        ({
            let i = spec_project_budget_index(budgets@, project_id as int, year as int);
            match r {
                Some(b) => i >= 0 && b == budgets@[i],
                None => i == -1,
            }
        }),
{
    let n = budgets.len();
    let mut i: usize = 0;
    while i < n
        invariant
            n == budgets@.len(),
            0 <= i <= n,
            forall|j: int|
                0 <= j < i ==> !((#[trigger] budgets@[j]).project as int == project_id as int
                    && budgets@[j].year as int == year as int),
        decreases n - i,
    {
        if budgets[i].project as u64 == project_id && budgets[i].year == year {
            proof {
                lemma_project_budget_index(budgets@, project_id as int, year as int);
            }
            return Some(budgets[i].clone());
        }
        i += 1;
    }
    proof {
        lemma_project_budget_index(budgets@, project_id as int, year as int);
    }
    None
}

/// First stored budget of a user name and year, if any.
pub fn select_maybe_user_budget_by_username_and_year(
    budgets: &Vec<UserBudget>,
    name: &String,
    year: u32,
) -> (r: Option<UserBudget>)
    ensures
        ({
            let i = spec_user_budget_index(budgets@, name@, year as int);
            match r {
                Some(b) => i >= 0 && b == budgets@[i],
                None => i == -1,
            }
        }),
{
    let n = budgets.len();
    let mut i: usize = 0;
    while i < n
        invariant
            n == budgets@.len(),
            0 <= i <= n,
            forall|j: int|
                0 <= j < i ==> !((#[trigger] budgets@[j]).username@ == name@
                    && budgets@[j].year as int == year as int),
        decreases n - i,
    {
        if budgets[i].username == *name && budgets[i].year == year {
            proof {
                lemma_user_budget_index(budgets@, name@, year as int);
            }
            return Some(budgets[i].clone());
        }
        i += 1;
    }
    proof {
        lemma_user_budget_index(budgets@, name@, year as int);
    }
    None
}

/// The budget fields a node carries for a found budget: its id, its amount,
/// and whether `total` has reached the amount.
pub open spec fn spec_budget_fields(
    node_budget_id: Option<u32>,
    node_budget: Option<u64>,
    node_over: bool,
    found: Option<(u32, u32)>,
    total: int,
) -> bool {
    match found {
        Some((id, amount)) => node_budget_id == Some(id) && node_budget == Some(amount as u64)
            && node_over == spec_budget_exceeded(total, amount as int),
        None => node_budget_id is None && node_budget is None && node_over == false,
    }
}

/// The user nodes of a project's budget tree: one per cost child, in child
/// order, each joined against the first stored budget of its name and year.
pub open spec fn spec_budget_users_match(
    nodes: Seq<NamedBudgetUser>,
    children: Seq<
        (Seq<char>, int, Seq<(Seq<char>, int)>, Seq<(Seq<char>, int, Seq<(Seq<char>, int)>)>),
    >,
    user_budgets: Seq<UserBudget>,
    year: int,
) -> bool {
    &&& nodes.len() == children.len()
    &&& forall|k: int|
        0 <= k < nodes.len() ==> {
            let node = #[trigger] nodes[k];
            let child = children[k];
            let bi = spec_user_budget_index(user_budgets, child.0, year);
            &&& node.name@ == child.0
            &&& node.entry.cost as int == child.1
            &&& entries_view(node.entry.flavors@) == child.2
            &&& spec_budget_fields(
                node.entry.budget_id,
                node.entry.budget,
                node.entry.over,
                if bi >= 0 {
                    Some((user_budgets[bi].id, user_budgets[bi].amount))
                } else {
                    None
                },
                child.1,
            )
            &&& node.entry.servers@.len() == child.3.len()
            &&& forall|s: int|
                0 <= s < child.3.len() ==> (#[trigger] node.entry.servers@[s]).name@ == child.3[s].0
                    && node.entry.servers@[s].entry.total as int == child.3[s].1 && entries_view(
                    node.entry.servers@[s].entry.flavors@,
                ) == child.3[s].2
        }
}

/// The user nodes built for a list of cost children.
fn budget_users_from_children(
    children: &Vec<NamedUserCost>,
    user_budgets: &Vec<UserBudget>,
    year: u32,
) -> (r: Vec<NamedBudgetUser>)
    ensures
        spec_budget_users_match(r@, user_costs_view(children@), user_budgets@, year as int),
{
    let mut r: Vec<NamedBudgetUser> = Vec::new();
    let n = children.len();
    let mut k: usize = 0;
    while k < n
        invariant
            n == children@.len(),
            0 <= k <= n,
            r@.len() == k,
            spec_budget_users_match(
                r@,
                user_costs_view(children@).take(k as int),
                user_budgets@,
                year as int,
            ),
        decreases n - k,
    {
        let ghost r0 = r@;
        let child = &children[k];
        let budget = select_maybe_user_budget_by_username_and_year(user_budgets, &child.name, year);
        let mut node = BudgetOverTreeUser {
            cost: child.cost.total,
            budget_id: None,
            budget: None,
            over: false,
            servers: Vec::new(),
            flavors: clone_entries(&child.cost.flavors),
        };
        match budget {
            Some(b) => {
                node.budget_id = Some(b.id);
                node.budget = Some(b.amount as u64);
                node.over = budget_exceeded(child.cost.total, b.amount);
            },
            None => {},
        }
        let ns = child.cost.servers.len();
        let mut s: usize = 0;
        while s < ns
            invariant
                n == children@.len(),
                0 <= k < n,
                child == &children[k as int],
                ns == child.cost.servers@.len(),
                0 <= s <= ns,
                node.cost == children@[k as int].cost.total,
                entries_view(node.flavors@) == entries_view(children@[k as int].cost.flavors@),
                match budget {
                    Some(b) => node.budget_id == Some(b.id) && node.budget == Some(b.amount as u64)
                        && node.over == spec_budget_exceeded(
                        children@[k as int].cost.total as int,
                        b.amount as int,
                    ),
                    None => node.budget_id is None && node.budget is None && !node.over,
                },
                node.servers@.len() == s,
                forall|j: int|
                    0 <= j < s ==> (#[trigger] node.servers@[j]).name@
                        == child.cost.servers@[j].name@ && node.servers@[j].entry.total
                        == child.cost.servers@[j].cost.total && entries_view(
                        node.servers@[j].entry.flavors@,
                    ) == entries_view(child.cost.servers@[j].cost.flavors@),
            decreases ns - s,
        {
            let sc = &child.cost.servers[s];
            node.servers.push(
                NamedBudgetServer {
                    name: sc.name.clone(),
                    entry: BudgetOverTreeServer {
                        total: sc.cost.total,
                        flavors: clone_entries(&sc.cost.flavors),
                    },
                },
            );
            s += 1;
        }
        r.push(NamedBudgetUser { name: child.name.clone(), entry: node });
        proof {
            let cv = user_costs_view(children@);
            assert(cv[k as int] == (children@[k as int].name@, children@[k as int].cost.total as int, entries_view(children@[k as int].cost.flavors@), crate::cost::server_costs_view(children@[k as int].cost.servers@)));
            assert forall|j: int|
                0 <= j < children@[k as int].cost.servers@.len() implies crate::cost::server_costs_view(
                children@[k as int].cost.servers@,
            )[j] == (children@[k as int].cost.servers@[j].name@, children@[k as int].cost.servers@[j].cost.total as int, entries_view(children@[k as int].cost.servers@[j].cost.flavors@)) by {}
            assert(r@.drop_last() =~= r0);
            assert(cv.take(k + 1)[k as int] == cv[k as int]);
            assert forall|j: int| 0 <= j < k implies cv.take(k + 1)[j] == cv.take(k as int)[j]
                && #[trigger] r@[j] == r0[j] by {}
            let node_k = r@[k as int];
            let child_k = cv[k as int];
            assert(node_k.name@ == child_k.0);
            assert(node_k.entry.cost as int == child_k.1);
            assert(entries_view(node_k.entry.flavors@) == child_k.2);
            let bi = spec_user_budget_index(user_budgets@, child_k.0, year as int);
            assert(spec_budget_fields(
                node_k.entry.budget_id,
                node_k.entry.budget,
                node_k.entry.over,
                if bi >= 0 {
                    Some((user_budgets@[bi].id, user_budgets@[bi].amount))
                } else {
                    None
                },
                child_k.1,
            ));
            assert(node_k.entry.servers@.len() == child_k.3.len());
            assert forall|s: int| 0 <= s < child_k.3.len() implies (
            #[trigger] node_k.entry.servers@[s]).name@ == child_k.3[s].0
                && node_k.entry.servers@[s].entry.total as int == child_k.3[s].1 && entries_view(
                node_k.entry.servers@[s].entry.flavors@,
            ) == child_k.3[s].2 by {}
            assert(spec_budget_users_match(r@, cv.take(k + 1), user_budgets@, year as int));
        }
        k += 1;
    }
    proof {
        assert(user_costs_view(children@).take(n as int) =~= user_costs_view(children@));
    }
    r
}

/// A copy of an accumulator map, entry for entry.
fn clone_entries(m: &Vec<FlavorEntry>) -> (r: Vec<FlavorEntry>)
    ensures
        entries_view(r@) == entries_view(m@),
{
    let mut r: Vec<FlavorEntry> = Vec::new();
    let n = m.len();
    let mut i: usize = 0;
    while i < n
        invariant
            n == m@.len(),
            0 <= i <= n,
            r@.len() == i,
            forall|j: int|
                0 <= j < i ==> (#[trigger] r@[j]).name@ == m@[j].name@ && r@[j].amount
                    == m@[j].amount,
        decreases n - i,
    {
        r.push(FlavorEntry { name: m[i].name.clone(), amount: m[i].amount });
        i += 1;
    }
    proof {
        assert forall|j: int| 0 <= j < n implies entries_view(r@)[j] == entries_view(m@)[j] by {
            assert(entries_view(r@)[j] == (r@[j].name@, r@[j].amount as int));
            assert(entries_view(m@)[j] == (m@[j].name@, m@[j].amount as int));
        }
        assert(entries_view(r@) =~= entries_view(m@));
    }
    r
}

/// The budget tree of one project for the year `end` falls in: the project's
/// detailed cost joined against its stored budget and its users' budgets.
/// The project must be known; its node is flagged over exactly when the
/// year's cost has reached the stored ceiling.
pub fn budget_over_tree_for_project(
    states: &Vec<ServerState>,
    users: &Vec<User>,
    projects: &Vec<Project>,
    flavors: &Vec<crate::resources::Flavor>,
    prices: &Vec<FlavorPrice>,
    project_budgets: &Vec<ProjectBudget>,
    user_budgets: &Vec<UserBudget>,
    project_id: u64,
    end: i64,
) -> (r: BudgetOverTree)
    requires
        states_wf(states@),
        prices_sorted_desc(prices@),
        prices_distinct_starts(prices@),
        prices_wf(prices@),
        0 <= end <= MAX_TIME,
        (prices@.len() + 1) * (states@.len() + 1) <= MAX_COST_ITEMS,
        spec_project_index_by_id(projects@, project_id as int) >= 0,
    ensures
        ({
            let year = spec_year_of(end as int);
            let begin = spec_year_start(year);
            let pi = spec_project_index_by_id(projects@, project_id as int);
            let uc = spec_user_class_by_project(projects@, project_id as int);
            let scoped = spec_states_of_project(states@, users@, project_id as int);
            let total = match uc {
                Some(c) => spec_project_detail_total(scoped, prices@, c, begin, end as int),
                None => 0,
            };
            let bi = spec_project_budget_index(project_budgets@, project_id as int, year);
            &&& r.cost is Some && r.cost->0 as int == total
            &&& r.flavors is None
            &&& r.projects@.len() == 1
            &&& r.projects@[0].name@ == projects@[pi].name@
            &&& r.projects@[0].entry.cost as int == total
            &&& spec_budget_fields(
                r.projects@[0].entry.budget_id,
                r.projects@[0].entry.budget,
                r.projects@[0].entry.over,
                if bi >= 0 {
                    Some((project_budgets@[bi].id, project_budgets@[bi].amount))
                } else {
                    None
                },
                total,
            )
            &&& match r.projects@[0].entry.flavors {
                Some(fm) => match uc {
                    Some(c) => entries_view(fm@) == spec_flavor_cost_map(
                        scoped,
                        prices@,
                        c,
                        begin,
                        end as int,
                    ),
                    None => fm@.len() == 0,
                },
                None => false,
            }
            &&& match uc {
                Some(c) => spec_budget_users_match(
                    r.projects@[0].entry.users@,
                    spec_user_children(scoped, prices@, c, begin, end as int),
                    user_budgets@,
                    year,
                ),
                None => r.projects@[0].entry.users@.len() == 0,
            }
        }),
{
    let year = year_of_timestamp(end);
    let begin = start_of_the_year(year);
    proof {
        lemma_year_of_unique(end as int, year as int);
    }
    let project_budget = select_maybe_project_budget_by_project_and_year(
        project_budgets,
        project_id,
        year as u32,
    );
    let project_cost = calculate_server_cost_for_project_detail(
        states,
        users,
        projects,
        flavors,
        prices,
        project_id,
        begin,
        end,
    );
    let total = project_cost.total;
    let user_nodes = budget_users_from_children(&project_cost.users, user_budgets, year as u32);
    let mut node = BudgetOverTreeProject {
        cost: total,
        budget_id: None,
        budget: None,
        over: false,
        users: user_nodes,
        flavors: Some(project_cost.flavors),
    };
    match project_budget {
        Some(b) => {
            node.budget_id = Some(b.id);
            node.budget = Some(b.amount as u64);
            node.over = budget_exceeded(total, b.amount);
        },
        None => {},
    }
    let pname = project_name_of(projects, project_id);
    let mut tree_projects: Vec<NamedBudgetProject> = Vec::new();
    tree_projects.push(NamedBudgetProject { name: pname, entry: node });
    proof {
        let uc = spec_user_class_by_project(projects@, project_id as int);
        if uc is Some {
            let scoped = spec_states_of_project(states@, users@, project_id as int);
            assert(user_costs_view(project_cost.users@) == spec_user_children(
                scoped,
                prices@,
                uc->0,
                begin as int,
                end as int,
            ));
        }
    }
    BudgetOverTree { cost: Some(total), projects: tree_projects, flavors: None }
}

/// Index of the first cost child carrying `name`, or -1.
pub open spec fn spec_child_name_index(
    children: Seq<
        (Seq<char>, int, Seq<(Seq<char>, int)>, Seq<(Seq<char>, int, Seq<(Seq<char>, int)>)>),
    >,
    name: Seq<char>,
) -> int
    decreases children.len(),
{
    if children.len() == 0 {
        -1
    } else if children[0].0 == name {
        0
    } else {
        let r = spec_child_name_index(children.drop_first(), name);
        if r < 0 {
            -1
        } else {
            r + 1
        }
    }
}

/// The first child carrying a name does carry it, and -1 means none does.
pub proof fn lemma_child_name_index(
    children: Seq<
        (Seq<char>, int, Seq<(Seq<char>, int)>, Seq<(Seq<char>, int, Seq<(Seq<char>, int)>)>),
    >,
    name: Seq<char>,
)
    ensures
        -1 <= spec_child_name_index(children, name) < children.len(),
        spec_child_name_index(children, name) >= 0 ==> children[spec_child_name_index(
            children,
            name,
        )].0 == name,
        spec_child_name_index(children, name) == -1 ==> forall|j: int|
            0 <= j < children.len() ==> (#[trigger] children[j]).0 != name,
        spec_child_name_index(children, name) >= 0 ==> forall|j: int|
            0 <= j < spec_child_name_index(children, name) ==> (#[trigger] children[j]).0 != name,
    decreases children.len(),
{
    if children.len() > 0 && children[0].0 != name {
        lemma_child_name_index(children.drop_first(), name);
        assert forall|j: int| 1 <= j < children.len() implies children.drop_first()[j - 1]
            == children[j] by {}
    }
}

/// The budget tree of one user for the year `end` ends in: their project's
/// cost and budget at the top, and below it only the requested user's node,
/// joined against their own stored budget; other members are left out. An
/// unknown user answers not-found.
pub fn budget_over_tree_for_user(
    states: &Vec<ServerState>,
    users: &Vec<User>,
    projects: &Vec<Project>,
    flavors: &Vec<crate::resources::Flavor>,
    prices: &Vec<FlavorPrice>,
    project_budgets: &Vec<ProjectBudget>,
    user_budgets: &Vec<UserBudget>,
    user_id: u64,
    end: i64,
) -> (r: Result<BudgetOverTree, NotFoundOrUnexpectedApiError>)
    requires
        states_wf(states@),
        prices_sorted_desc(prices@),
        prices_distinct_starts(prices@),
        prices_wf(prices@),
        0 <= end <= MAX_TIME,
        (prices@.len() + 1) * (states@.len() + 1) <= MAX_COST_ITEMS,
    ensures
        ({
            let ui = spec_user_index_by_id(users@, user_id as int);
            match r {
                Err(e) => ui < 0 && e is NotFoundError,
                Ok(t) => ui >= 0 && {
                    let u = users@[ui];
                    let year = spec_year_of(end as int);
                    let begin = spec_year_start(year);
                    let uc = spec_user_class_by_project(projects@, u.project as int);
                    let scoped = spec_states_of_project(states@, users@, u.project as int);
                    let total = match uc {
                        Some(c) => spec_project_detail_total(scoped, prices@, c, begin, end as int),
                        None => 0,
                    };
                    let bi = spec_project_budget_index(project_budgets@, u.project as int, year);
                    &&& t.cost is Some && t.cost->0 as int == total
                    &&& t.flavors is None
                    &&& t.projects@.len() == 1
                    &&& t.projects@[0].name@ == u.project_name@
                    &&& t.projects@[0].entry.cost as int == total
                    &&& spec_budget_fields(
                        t.projects@[0].entry.budget_id,
                        t.projects@[0].entry.budget,
                        t.projects@[0].entry.over,
                        if bi >= 0 {
                            Some((project_budgets@[bi].id, project_budgets@[bi].amount))
                        } else {
                            None
                        },
                        total,
                    )
                    &&& match uc {
                        Some(c) => {
                            let children = spec_user_children(scoped, prices@, c, begin, end as int);
                            let ci = spec_child_name_index(children, u.name@);
                            if ci >= 0 {
                                spec_budget_users_match(
                                    t.projects@[0].entry.users@,
                                    seq![children[ci]],
                                    user_budgets@,
                                    year,
                                )
                            } else {
                                t.projects@[0].entry.users@.len() == 0
                            }
                        },
                        None => t.projects@[0].entry.users@.len() == 0,
                    }
                },
            }
        }),
{
    let ui = match find_user_index(users, user_id) {
        None => {
            return Err(NotFoundOrUnexpectedApiError::NotFoundError);
        },
        Some(i) => i,
    };
    let user = &users[ui];
    let year = year_of_timestamp(end);
    let begin = start_of_the_year(year);
    proof {
        lemma_year_of_unique(end as int, year as int);
    }
    let project_budget = select_maybe_project_budget_by_project_and_year(
        project_budgets,
        user.project as u64,
        year as u32,
    );
    let project_cost = calculate_server_cost_for_project_detail(
        states,
        users,
        projects,
        flavors,
        prices,
        user.project as u64,
        begin,
        end,
    );
    let total = project_cost.total;
    let ghost children0 = user_costs_view(project_cost.users@);
    let mut picked: Vec<NamedBudgetUser> = Vec::new();
    match find_child_index(&project_cost.users, &user.name) {
        Some(ci) => {
            let one = clone_named_user_cost(&project_cost.users[ci]);
            let mut ones: Vec<NamedUserCost> = Vec::new();
            ones.push(one);
            picked = budget_users_from_children(&ones, user_budgets, year as u32);
            proof {
                assert(children0[ci as int] == (project_cost.users@[ci as int].name@, project_cost.users@[ci as int].cost.total as int, entries_view(project_cost.users@[ci as int].cost.flavors@), crate::cost::server_costs_view(project_cost.users@[ci as int].cost.servers@)));
                assert(user_costs_view(ones@) =~= seq![children0[ci as int]]);
                assert(user_costs_view(ones@).take(1) =~= user_costs_view(ones@));
            }
        },
        None => {},
    }
    let mut node = BudgetOverTreeProject {
        cost: total,
        budget_id: None,
        budget: None,
        over: false,
        users: picked,
        flavors: Some(project_cost.flavors),
    };
    match project_budget {
        Some(b) => {
            node.budget_id = Some(b.id);
            node.budget = Some(b.amount as u64);
            node.over = budget_exceeded(total, b.amount);
        },
        None => {},
    }
    let mut tree_projects: Vec<NamedBudgetProject> = Vec::new();
    tree_projects.push(NamedBudgetProject { name: user.project_name.clone(), entry: node });
    Ok(BudgetOverTree { cost: Some(total), projects: tree_projects, flavors: None })
}

/// Index of the first user carrying an id, if any.
fn find_user_index(users: &Vec<User>, user_id: u64) -> (r: Option<usize>)
    ensures
        ({
            let si = spec_user_index_by_id(users@, user_id as int);
            match r {
                Some(i) => si == i as int && i < users@.len(),
                None => si < 0,
            }
        }),
{
    let n = users.len();
    let mut i: usize = 0;
    while i < n
        invariant
            n == users@.len(),
            0 <= i <= n,
            forall|j: int| 0 <= j < i ==> (#[trigger] users@[j]).id as int != user_id as int,
        decreases n - i,
    {
        if users[i].id as u64 == user_id {
            proof {
                lemma_user_index(users@, user_id as int);
            }
            return Some(i);
        }
        i += 1;
    }
    proof {
        lemma_user_index(users@, user_id as int);
    }
    None
}

/// Index of the first cost child carrying a name, if any.
fn find_child_index(children: &Vec<NamedUserCost>, name: &String) -> (r: Option<usize>)
    ensures
        ({
            let si = spec_child_name_index(user_costs_view(children@), name@);
            match r {
                Some(i) => si == i as int && i < children@.len(),
                None => si < 0,
            }
        }),
{
    let ghost cv = user_costs_view(children@);
    let n = children.len();
    let mut i: usize = 0;
    while i < n
        invariant
            n == children@.len(),
            cv == user_costs_view(children@),
            0 <= i <= n,
            forall|j: int| 0 <= j < i ==> (#[trigger] cv[j]).0 != name@,
        decreases n - i,
    {
        if children[i].name == *name {
            proof {
                assert(cv[i as int] == (children@[i as int].name@, children@[i as int].cost.total as int, entries_view(children@[i as int].cost.flavors@), crate::cost::server_costs_view(children@[i as int].cost.servers@)));
                lemma_child_name_index(cv, name@);
            }
            return Some(i);
        }
        proof {
            assert(cv[i as int] == (children@[i as int].name@, children@[i as int].cost.total as int, entries_view(children@[i as int].cost.flavors@), crate::cost::server_costs_view(children@[i as int].cost.servers@)));
        }
        i += 1;
    }
    proof {
        lemma_child_name_index(cv, name@);
    }
    None
}

/// A copy of one user's cost child.
fn clone_named_user_cost(c: &NamedUserCost) -> (r: NamedUserCost)
    ensures
        r.name@ == c.name@,
        r.cost.total == c.cost.total,
        entries_view(r.cost.flavors@) == entries_view(c.cost.flavors@),
        crate::cost::server_costs_view(r.cost.servers@) == crate::cost::server_costs_view(
            c.cost.servers@,
        ),
{
    let mut servers: Vec<crate::cost::NamedServerCost> = Vec::new();
    let ns = c.cost.servers.len();
    let mut s: usize = 0;
    while s < ns
        invariant
            ns == c.cost.servers@.len(),
            0 <= s <= ns,
            servers@.len() == s,
            forall|j: int|
                0 <= j < s ==> (#[trigger] servers@[j]).name@ == c.cost.servers@[j].name@
                    && servers@[j].cost.total == c.cost.servers@[j].cost.total && entries_view(
                    servers@[j].cost.flavors@,
                ) == entries_view(c.cost.servers@[j].cost.flavors@),
        decreases ns - s,
    {
        let sc = &c.cost.servers[s];
        servers.push(
            crate::cost::NamedServerCost {
                name: sc.name.clone(),
                cost: crate::cost::ServerCostServer {
                    total: sc.cost.total,
                    flavors: clone_entries(&sc.cost.flavors),
                },
            },
        );
        s += 1;
    }
    let r = NamedUserCost {
        name: c.name.clone(),
        cost: crate::cost::ServerCostUser {
            total: c.cost.total,
            flavors: clone_entries(&c.cost.flavors),
            servers,
        },
    };
    proof {
        assert forall|j: int| 0 <= j < ns implies crate::cost::server_costs_view(r.cost.servers@)[j]
            == crate::cost::server_costs_view(c.cost.servers@)[j] by {
            assert(crate::cost::server_costs_view(r.cost.servers@)[j] == (r.cost.servers@[j].name@, r.cost.servers@[j].cost.total as int, entries_view(r.cost.servers@[j].cost.flavors@)));
            assert(crate::cost::server_costs_view(c.cost.servers@)[j] == (c.cost.servers@[j].name@, c.cost.servers@[j].cost.total as int, entries_view(c.cost.servers@[j].cost.flavors@)));
        }
        assert(crate::cost::server_costs_view(r.cost.servers@) =~= crate::cost::server_costs_view(
            c.cost.servers@,
        ));
    }
    r
}

/// Index of the first stored budget of the project named `name` for `year`,
/// or -1.
pub open spec fn spec_project_budget_name_index(
    bs: Seq<ProjectBudget>,
    name: Seq<char>,
    year: int,
) -> int
    decreases bs.len(),
{
    if bs.len() == 0 {
        -1
    } else if bs[0].project_name@ == name && bs[0].year as int == year {
        0
    } else {
        let r = spec_project_budget_name_index(bs.drop_first(), name, year);
        if r < 0 {
            -1
        } else {
            r + 1
        }
    }
}

/// The first stored budget of a project name and year carries both, and -1
/// means none does.
pub proof fn lemma_project_budget_name_index(bs: Seq<ProjectBudget>, name: Seq<char>, year: int)
    ensures
        -1 <= spec_project_budget_name_index(bs, name, year) < bs.len(),
        spec_project_budget_name_index(bs, name, year) >= 0 ==> {
            let i = spec_project_budget_name_index(bs, name, year);
            bs[i].project_name@ == name && bs[i].year as int == year
        },
        spec_project_budget_name_index(bs, name, year) == -1 ==> forall|j: int|
            0 <= j < bs.len() ==> !((#[trigger] bs[j]).project_name@ == name && bs[j].year as int
                == year),
        spec_project_budget_name_index(bs, name, year) >= 0 ==> forall|j: int|
            0 <= j < spec_project_budget_name_index(bs, name, year) ==> !((
            #[trigger] bs[j]).project_name@ == name && bs[j].year as int == year),
    decreases bs.len(),
{
    if bs.len() > 0 && !(bs[0].project_name@ == name && bs[0].year as int == year) {
        lemma_project_budget_name_index(bs.drop_first(), name, year);
        assert forall|j: int| 1 <= j < bs.len() implies bs.drop_first()[j - 1] == bs[j] by {}
    }
}

/// First stored budget of a project name and year, if any.
pub fn select_maybe_project_budget_by_name_and_year(
    budgets: &Vec<ProjectBudget>,
    name: &String,
    year: u32,
) -> (r: Option<ProjectBudget>)
    ensures
        ({
            let i = spec_project_budget_name_index(budgets@, name@, year as int);
            match r {
                Some(b) => i >= 0 && b == budgets@[i],
                None => i == -1,
            }
        }),
{
    let n = budgets.len();
    let mut i: usize = 0;
    while i < n
        invariant
            n == budgets@.len(),
            0 <= i <= n,
            forall|j: int|
                0 <= j < i ==> !((#[trigger] budgets@[j]).project_name@ == name@
                    && budgets@[j].year as int == year as int),
        decreases n - i,
    {
        if budgets[i].project_name == *name && budgets[i].year == year {
            proof {
                lemma_project_budget_name_index(budgets@, name@, year as int);
            }
            return Some(budgets[i].clone());
        }
        i += 1;
    }
    proof {
        lemma_project_budget_name_index(budgets@, name@, year as int);
    }
    None
}

/// The project nodes of the everything-scope tree: one per cost child, in
/// child order, each joined by name against the stored budgets of the year,
/// its users joined against theirs.
pub open spec fn spec_budget_projects_match(
    nodes: Seq<NamedBudgetProject>,
    children: Seq<
        (
            Seq<char>,
            int,
            Seq<(Seq<char>, int)>,
            Seq<
                (
                    Seq<char>,
                    int,
                    Seq<(Seq<char>, int)>,
                    Seq<(Seq<char>, int, Seq<(Seq<char>, int)>)>,
                ),
            >,
        ),
    >,
    project_budgets: Seq<ProjectBudget>,
    user_budgets: Seq<UserBudget>,
    year: int,
) -> bool {
    &&& nodes.len() == children.len()
    &&& forall|k: int|
        0 <= k < nodes.len() ==> {
            let node = #[trigger] nodes[k];
            let child = children[k];
            let bi = spec_project_budget_name_index(project_budgets, child.0, year);
            &&& node.name@ == child.0
            &&& node.entry.cost as int == child.1
            &&& match node.entry.flavors {
                Some(fm) => entries_view(fm@) == child.2,
                None => false,
            }
            &&& spec_budget_fields(
                node.entry.budget_id,
                node.entry.budget,
                node.entry.over,
                if bi >= 0 {
                    Some((project_budgets[bi].id, project_budgets[bi].amount))
                } else {
                    None
                },
                child.1,
            )
            &&& spec_budget_users_match(node.entry.users@, child.3, user_budgets, year)
        }
}

/// The budget tree over everything for the year `end` falls in: every known
/// project's detailed cost joined against the year's stored budgets, with
/// the grand total and merged flavor map at the top.
pub fn budget_over_tree_for_all(
    states: &Vec<ServerState>,
    users: &Vec<User>,
    projects: &Vec<Project>,
    flavors: &Vec<crate::resources::Flavor>,
    prices: &Vec<FlavorPrice>,
    project_budgets: &Vec<ProjectBudget>,
    user_budgets: &Vec<UserBudget>,
    end: i64,
) -> (r: BudgetOverTree)
    requires
        states_wf(states@),
        prices_sorted_desc(prices@),
        prices_distinct_starts(prices@),
        prices_wf(prices@),
        0 <= end <= MAX_TIME,
        (projects@.len() + 1) * ((prices@.len() + 1) * (states@.len() + 1)) <= MAX_COST_ITEMS,
    ensures
        ({
            let year = spec_year_of(end as int);
            let begin = spec_year_start(year);
            let entries = spec_project_entries(projects@);
            let total = spec_all_detail_upto(
                entries,
                states@,
                users@,
                prices@,
                begin,
                end as int,
                entries.len() as int,
            );
            &&& r.cost is Some && r.cost->0 as int == total
            &&& match r.flavors {
                Some(fm) => entries_view(fm@) == spec_all_flavor_map_upto(
                    entries,
                    states@,
                    users@,
                    prices@,
                    begin,
                    end as int,
                    entries.len() as int,
                ),
                None => false,
            }
            &&& spec_budget_projects_match(
                r.projects@,
                spec_project_children(entries, states@, users@, prices@, begin, end as int),
                project_budgets@,
                user_budgets@,
                year,
            )
        }),
{
    let year = year_of_timestamp(end);
    let begin = start_of_the_year(year);
    proof {
        lemma_year_of_unique(end as int, year as int);
        assert((prices@.len() + 1) * (states@.len() + 1) <= MAX_COST_ITEMS) by (nonlinear_arith)
            requires
                (projects@.len() + 1) * ((prices@.len() + 1) * (states@.len() + 1))
                    <= MAX_COST_ITEMS,
                projects@.len() >= 0,
                prices@.len() >= 0,
                states@.len() >= 0,
        ;
    }
    let all_cost = calculate_server_cost_for_all_detail(
        states,
        users,
        projects,
        flavors,
        prices,
        begin,
        end,
    );
    let total = all_cost.total;
    let ghost children0 = project_costs_view(all_cost.projects@);
    let mut nodes: Vec<NamedBudgetProject> = Vec::new();
    let n = all_cost.projects.len();
    let mut k: usize = 0;
    while k < n
        invariant
            n == all_cost.projects@.len(),
            children0 == project_costs_view(all_cost.projects@),
            1970 <= year <= 3058,
            0 <= k <= n,
            nodes@.len() == k,
            spec_budget_projects_match(
                nodes@,
                children0.take(k as int),
                project_budgets@,
                user_budgets@,
                year as int,
            ),
        decreases n - k,
    {
        let ghost nodes0 = nodes@;
        let child = &all_cost.projects[k];
        let pbudget = select_maybe_project_budget_by_name_and_year(
            project_budgets,
            &child.name,
            year as u32,
        );
        let unodes = budget_users_from_children(&child.cost.users, user_budgets, year as u32);
        let mut node = BudgetOverTreeProject {
            cost: child.cost.total,
            budget_id: None,
            budget: None,
            over: false,
            users: unodes,
            flavors: Some(clone_entries(&child.cost.flavors)),
        };
        match pbudget {
            Some(b) => {
                node.budget_id = Some(b.id);
                node.budget = Some(b.amount as u64);
                node.over = budget_exceeded(child.cost.total, b.amount);
            },
            None => {},
        }
        nodes.push(NamedBudgetProject { name: child.name.clone(), entry: node });
        proof {
            assert(children0[k as int] == (all_cost.projects@[k as int].name@, all_cost.projects@[k as int].cost.total as int, entries_view(all_cost.projects@[k as int].cost.flavors@), user_costs_view(all_cost.projects@[k as int].cost.users@)));
            assert(nodes@.drop_last() =~= nodes0);
            assert(children0.take(k + 1)[k as int] == children0[k as int]);
            assert forall|j: int| 0 <= j < k implies children0.take(k + 1)[j] == children0.take(
                k as int,
            )[j] && #[trigger] nodes@[j] == nodes0[j] by {}
            let node_k = nodes@[k as int];
            let child_k = children0[k as int];
            assert(node_k.name@ == child_k.0);
            assert(node_k.entry.cost as int == child_k.1);
            assert(match node_k.entry.flavors {
                Some(fm) => entries_view(fm@) == child_k.2,
                None => false,
            });
            let bi = spec_project_budget_name_index(project_budgets@, child_k.0, year as int);
            assert(spec_budget_fields(
                node_k.entry.budget_id,
                node_k.entry.budget,
                node_k.entry.over,
                if bi >= 0 {
                    Some((project_budgets@[bi].id, project_budgets@[bi].amount))
                } else {
                    None
                },
                child_k.1,
            ));
            assert(spec_budget_users_match(
                node_k.entry.users@,
                child_k.3,
                user_budgets@,
                year as int,
            ));
            assert(spec_budget_projects_match(
                nodes@,
                children0.take(k + 1),
                project_budgets@,
                user_budgets@,
                year as int,
            ));
        }
        k += 1;
    }
    proof {
        assert(children0.take(n as int) =~= children0);
    }
    BudgetOverTree { cost: Some(total), projects: nodes, flavors: Some(all_cost.flavors) }
}

/// Fields of a request to change a project budget's amount.
#[derive(Clone, Copy, Debug)]
pub struct ProjectBudgetModifyData {
    pub id: u32,
    pub amount: Option<u32>,
    pub force: bool,
}

/// Fields of a request to change a user budget's amount.
#[derive(Clone, Copy, Debug)]
pub struct UserBudgetModifyData {
    pub id: u32,
    pub amount: Option<u32>,
    pub force: bool,
}

/// A modify request must name the same budget in the path and the body.
pub fn check_budget_id_match(body_id: u32, path_id: u32) -> (r: Result<
    (),
    crate::error::OptionApiError,
>)
    ensures
        body_id == path_id <==> r is Ok,
        r is Err ==> r->Err_0 is ValidationError,
{
    if body_id != path_id {
        Err(
            crate::error::OptionApiError::ValidationError(
                "ID in URL does not match ID in body".to_string(),
            ),
        )
    } else {
        Ok(())
    }
}

/// A past year's budget may only be changed by force.
pub fn check_budget_year(budget_year: u32, current_year: u32, force: bool) -> (r: Result<
    (),
    crate::error::OptionApiError,
>)
    ensures
        (budget_year >= current_year || force) <==> r is Ok,
        r is Err ==> r->Err_0 is AuthorizationError,
{
    if budget_year < current_year && !force {
        Err(
            crate::error::OptionApiError::AuthorizationError(
                "Changing past budgets not allowed".to_string(),
            ),
        )
    } else {
        Ok(())
    }
}

/// A project budget may only be lowered to or below the year's cost by
/// force: without force the new amount must strictly exceed the cost.
pub fn check_project_budget_amount(amount: u32, cost_total: i128, force: bool) -> (r: Result<
    (),
    crate::error::OptionApiError,
>)
    ensures
        (!spec_budget_exceeded(cost_total as int, amount as int) || force) <==> r is Ok,
        r is Err ==> r->Err_0 is AuthorizationError,
{
    if budget_exceeded(cost_total, amount) && !force {
        Err(
            crate::error::OptionApiError::AuthorizationError(
                "Cost already exceeds desired budget amount".to_string(),
            ),
        )
    } else {
        Ok(())
    }
}

/// A user budget change is refused without force when the user's cost has
/// reached the desired amount, or when the project's own budget has already
/// been reached.
pub fn check_user_budget_amount(
    amount: u32,
    user_cost_total: i128,
    project_budget_amount: Option<u32>,
    project_cost_total: i128,
    force: bool,
) -> (r: Result<(), crate::error::OptionApiError>)
    ensures
        (!(spec_budget_exceeded(user_cost_total as int, amount as int) || match project_budget_amount {
            Some(pa) => spec_budget_exceeded(project_cost_total as int, pa as int),
            None => false,
        }) || force) <==> r is Ok,
        r is Err ==> r->Err_0 is AuthorizationError,
{
    let project_over = match project_budget_amount {
        Some(pa) => budget_exceeded(project_cost_total, pa),
        None => false,
    };
    if (budget_exceeded(user_cost_total, amount) || project_over) && !force {
        Err(
            crate::error::OptionApiError::AuthorizationError(
                "Cost already exceeds desired budget amount".to_string(),
            ),
        )
    } else {
        Ok(())
    }
}

/// The stored name of a known project.
fn project_name_of(projects: &Vec<Project>, project_id: u64) -> (r: String)
    requires
        spec_project_index_by_id(projects@, project_id as int) >= 0,
    ensures
        r@ == projects@[spec_project_index_by_id(projects@, project_id as int)].name@,
{
    let n = projects.len();
    let mut i: usize = 0;
    proof {
        crate::server_state::lemma_project_index(projects@, project_id as int);
    }
    while i < n
        invariant
            n == projects@.len(),
            0 <= i <= n,
            spec_project_index_by_id(projects@, project_id as int) >= i,
            spec_project_index_by_id(projects@, project_id as int) < n,
            projects@[spec_project_index_by_id(projects@, project_id as int)].id as int
                == project_id as int,
            forall|j: int|
                0 <= j < spec_project_index_by_id(projects@, project_id as int) ==> (
                #[trigger] projects@[j]).id as int != project_id as int,
        decreases n - i,
    {
        if projects[i].id as u64 == project_id {
            proof {
                let pi = spec_project_index_by_id(projects@, project_id as int);
                if pi > i {
                    assert(projects@[i as int].id as int != project_id as int);
                }
            }
            return projects[i].name.clone();
        }
        i += 1;
    }
    proof {
        assert(false);
    }
    unreached()
}

} // verus!
