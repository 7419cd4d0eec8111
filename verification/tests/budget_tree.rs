//! Scenarios for the budget comparator: threshold flags, the year window
//! derived from the query end, and the user-scope filtering.

use avina_billing::SECONDS_PER_YEAR;
use avina_billing::budget::{
    BudgetOverTree, ProjectBudget, UserBudget, budget_exceeded, budget_over_tree_for_all,
    budget_over_tree_for_project, budget_over_tree_for_user, check_budget_id_match,
    check_budget_year, check_project_budget_amount, check_user_budget_amount,
};
use avina_billing::error::OptionApiError;
use avina_billing::flavor_price::FlavorPrice;
use avina_billing::project::Project;
use avina_billing::resources::Flavor;
use avina_billing::server_state::ServerState;
use avina_billing::user::{User, UserClass};

// 2023-01-01 00:00:00 UTC and an end instant in March 2023.
const YEAR_START: i64 = 1672531200;
const END: i64 = YEAR_START + 80 * 86400;

fn flavor() -> Flavor {
    Flavor {
        id: 7,
        name: "m1.large".to_string(),
        openstack_id: "f-os".to_string(),
        group: None,
        group_name: None,
        weight: 1,
    }
}

fn user(id: u32, name: &str, project: u32, project_name: &str) -> User {
    User {
        id,
        name: name.to_string(),
        openstack_id: format!("os-{name}"),
        project,
        project_name: project_name.to_string(),
        role: 1,
        is_staff: false,
        is_active: true,
    }
}

fn project(id: u32, name: &str) -> Project {
    Project {
        id,
        name: name.to_string(),
        openstack_id: format!("os-{name}"),
        user_class: UserClass::UC1,
    }
}

fn price_yearly(unit_price: i64) -> FlavorPrice {
    FlavorPrice {
        id: 1,
        flavor: 7,
        flavor_name: "m1.large".to_string(),
        user_class: UserClass::UC1,
        unit_price,
        start_time: YEAR_START,
    }
}

fn state(id: u32, instance: &str, owner: &User, begin: i64, end: Option<i64>) -> ServerState {
    ServerState {
        id,
        begin,
        end,
        instance_id: instance.to_string(),
        instance_name: format!("vm-{instance}"),
        flavor: 7,
        flavor_name: "m1.large".to_string(),
        status: "ACTIVE".to_string(),
        user: owner.id,
        username: owner.name.clone(),
    }
}

fn tree_fixture(project_amount: u32) -> BudgetOverTree {
    let alice = user(1, "alice", 1, "proj");
    // Runs the whole year window so far: 80 days at 365000 per year is
    // exactly 80000 in money, i.e. 80000 * SECONDS_PER_YEAR as a numerator.
    let states = vec![state(1, "vm-a", &alice, YEAR_START, None)];
    let users = vec![alice];
    let projects = vec![project(1, "proj")];
    let flavors = vec![flavor()];
    let prices = vec![price_yearly(365000)];
    let project_budgets = vec![ProjectBudget {
        id: 11,
        project: 1,
        project_name: "proj".to_string(),
        year: 2023,
        amount: project_amount,
    }];
    let user_budgets = vec![UserBudget {
        id: 21,
        user: 1,
        username: "alice".to_string(),
        year: 2023,
        amount: 70000,
    }];
    budget_over_tree_for_project(
        &states,
        &users,
        &projects,
        &flavors,
        &prices,
        &project_budgets,
        &user_budgets,
        1,
        END,
    )
}

#[test]
fn project_over_flag_is_the_threshold_test() {
    // 80 days at 365000 a year cost exactly 80000.
    let below = tree_fixture(80001);
    assert!(!below.projects[0].entry.over);
    let at = tree_fixture(80000);
    assert!(at.projects[0].entry.over, "equality counts as over");
    let above = tree_fixture(79999);
    assert!(above.projects[0].entry.over);
    assert_eq!(below.projects[0].entry.budget, Some(80001));
    assert_eq!(below.projects[0].entry.budget_id, Some(11));
    let expected = 80000i128 * SECONDS_PER_YEAR as i128;
    assert_eq!(below.cost, Some(expected));
}

#[test]
fn user_node_carries_its_own_budget_flag() {
    let tree = tree_fixture(200000);
    let proj = &tree.projects[0];
    assert_eq!(proj.entry.users.len(), 1);
    let node = &proj.entry.users[0];
    assert_eq!(node.name, "alice");
    assert_eq!(node.entry.budget, Some(70000));
    assert_eq!(node.entry.budget_id, Some(21));
    assert!(node.entry.over, "cost 80000 is over the user budget 70000");
    assert_eq!(node.entry.servers.len(), 1);
    assert_eq!(node.entry.servers[0].name, "vm-a");
}

#[test]
fn cost_window_starts_at_january_first_of_the_end_year() {
    // A record running since the previous November is only billed from
    // January 1st of the end's year on.
    let alice = user(1, "alice", 1, "proj");
    let nov_before = YEAR_START - 61 * 86400;
    let states = vec![state(1, "vm-a", &alice, nov_before, None)];
    let users = vec![alice];
    let projects = vec![project(1, "proj")];
    let flavors = vec![flavor()];
    let prices = vec![price_yearly(365000)];
    let tree = budget_over_tree_for_project(
        &states,
        &users,
        &projects,
        &flavors,
        &prices,
        &Vec::new(),
        &Vec::new(),
        1,
        END,
    );
    let expected = 80000i128 * SECONDS_PER_YEAR as i128;
    assert_eq!(tree.cost, Some(expected));
    assert_eq!(tree.projects[0].entry.budget, None);
    assert!(!tree.projects[0].entry.over);
}

#[test]
fn user_tree_discards_other_members() {
    let alice = user(1, "alice", 1, "proj");
    let bob = user(2, "bob", 1, "proj");
    let states = vec![
        state(1, "vm-a", &alice, YEAR_START, None),
        state(2, "vm-b", &bob, YEAR_START, None),
    ];
    let users = vec![alice, bob];
    let projects = vec![project(1, "proj")];
    let flavors = vec![flavor()];
    let prices = vec![price_yearly(365000)];
    let tree = budget_over_tree_for_user(
        &states,
        &users,
        &projects,
        &flavors,
        &prices,
        &Vec::new(),
        &Vec::new(),
        2,
        END,
    )
    .expect("the user exists");
    // The project total covers both members, the user list only bob.
    let expected = 160000i128 * SECONDS_PER_YEAR as i128;
    assert_eq!(tree.cost, Some(expected));
    let proj = &tree.projects[0];
    assert_eq!(proj.entry.users.len(), 1);
    assert_eq!(proj.entry.users[0].name, "bob");
}

#[test]
fn user_tree_answers_not_found_for_an_unknown_user() {
    let users: Vec<User> = Vec::new();
    let r = budget_over_tree_for_user(
        &Vec::new(),
        &users,
        &vec![project(1, "proj")],
        &vec![flavor()],
        &Vec::new(),
        &Vec::new(),
        &Vec::new(),
        9,
        END,
    );
    assert!(r.is_err());
}

#[test]
fn all_tree_joins_budgets_by_project_name() {
    let alice = user(1, "alice", 1, "proj-a");
    let bob = user(2, "bob", 2, "proj-b");
    let states = vec![
        state(1, "vm-a", &alice, YEAR_START, None),
        state(2, "vm-b", &bob, YEAR_START, None),
    ];
    let users = vec![alice, bob];
    let projects = vec![project(1, "proj-a"), project(2, "proj-b")];
    let flavors = vec![flavor()];
    let prices = vec![price_yearly(365000)];
    let project_budgets = vec![ProjectBudget {
        id: 31,
        project: 2,
        project_name: "proj-b".to_string(),
        year: 2023,
        amount: 10000,
    }];
    let tree = budget_over_tree_for_all(
        &states,
        &users,
        &projects,
        &flavors,
        &prices,
        &project_budgets,
        &Vec::new(),
        END,
    );
    assert_eq!(tree.projects.len(), 2);
    assert_eq!(tree.projects[0].name, "proj-a");
    assert!(!tree.projects[0].entry.over);
    assert_eq!(tree.projects[0].entry.budget, None);
    assert_eq!(tree.projects[1].name, "proj-b");
    assert_eq!(tree.projects[1].entry.budget, Some(10000));
    assert!(tree.projects[1].entry.over, "80000 is over 10000");
    assert!(tree.flavors.is_some());
    let expected = 160000i128 * SECONDS_PER_YEAR as i128;
    assert_eq!(tree.cost, Some(expected));
}

#[test]
fn budget_exceeded_counts_equality_as_over() {
    assert!(budget_exceeded(100 * SECONDS_PER_YEAR as i128, 100));
    assert!(!budget_exceeded(100 * SECONDS_PER_YEAR as i128 - 1, 100));
    assert!(budget_exceeded(100 * SECONDS_PER_YEAR as i128 + 1, 100));
}

#[test]
fn modify_checks_reject_what_the_rules_refuse() {
    assert!(check_budget_id_match(3, 3).is_ok());
    match check_budget_id_match(3, 4) {
        Err(OptionApiError::ValidationError(_)) => {},
        _ => panic!("a mismatched id must be a validation error"),
    }
    assert!(check_budget_year(2023, 2023, false).is_ok());
    assert!(check_budget_year(2022, 2023, true).is_ok());
    match check_budget_year(2022, 2023, false) {
        Err(OptionApiError::AuthorizationError(_)) => {},
        _ => panic!("a past year without force must be an authorization error"),
    }
    let year = SECONDS_PER_YEAR as i128;
    assert!(check_project_budget_amount(101, 100 * year, false).is_ok());
    assert!(check_project_budget_amount(100, 100 * year, true).is_ok());
    match check_project_budget_amount(100, 100 * year, false) {
        Err(OptionApiError::AuthorizationError(_)) => {},
        _ => panic!("an amount at the cost must be an authorization error"),
    }
    assert!(check_user_budget_amount(101, 100 * year, None, 0, false).is_ok());
    match check_user_budget_amount(101, 100 * year, Some(50), 60 * year, false) {
        Err(OptionApiError::AuthorizationError(_)) => {},
        _ => panic!("an exhausted project budget must be an authorization error"),
    }
    assert!(check_user_budget_amount(101, 100 * year, Some(50), 60 * year, true).is_ok());
}
