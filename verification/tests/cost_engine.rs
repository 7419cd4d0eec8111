//! Concrete scenarios for the cost aggregator: known windows, prices and
//! occupancy records with hand-checked expected costs.

use avina_billing::SECONDS_PER_YEAR;
use avina_billing::cost::{
    ServerCostForProject, ServerCostForServer, ServerCostForUser, ServerCostForAll,
    calculate_server_cost_for_all, calculate_server_cost_for_all_detail,
    calculate_server_cost_for_all_normal, calculate_server_cost_for_project,
    calculate_server_cost_for_project_detail, calculate_server_cost_for_project_normal,
    calculate_server_cost_for_server, calculate_server_cost_for_server_detail,
    calculate_server_cost_for_server_normal, calculate_server_cost_for_user,
    calculate_server_cost_for_user_detail, calculate_server_cost_for_user_normal,
};
use avina_billing::flavor_price::FlavorPrice;
use avina_billing::project::Project;
use avina_billing::resources::Flavor;
use avina_billing::server_state::ServerState;
use avina_billing::user::{User, UserClass};

// 2023-01-01 00:00:00 UTC plus 01:01:01, and 2023-11-01 01:01:01 UTC: the
// ten-month window of the reference scenario (304 days between the bounds).
const BEGIN: i64 = 1672531200 + 3661;
const END: i64 = 1672531200 + 304 * 86400 + 3661;

fn flavor() -> Flavor {
    Flavor {
        id: 7,
        name: "m1.large".to_string(),
        openstack_id: "f-os".to_string(),
        group: None,
        group_name: None,
        weight: 1,
    }
}

fn user(id: u32, name: &str, project: u32, project_name: &str) -> User {
    User {
        id,
        name: name.to_string(),
        openstack_id: format!("os-{name}"),
        project,
        project_name: project_name.to_string(),
        role: 1,
        is_staff: false,
        is_active: true,
    }
}

fn project(id: u32, name: &str) -> Project {
    Project {
        id,
        name: name.to_string(),
        openstack_id: format!("os-{name}"),
        user_class: UserClass::UC1,
    }
}

fn price_1000() -> FlavorPrice {
    FlavorPrice {
        id: 1,
        flavor: 7,
        flavor_name: "m1.large".to_string(),
        user_class: UserClass::UC1,
        unit_price: 1000,
        start_time: BEGIN,
    }
}

fn state(id: u32, instance: &str, owner: &User) -> ServerState {
    ServerState {
        id,
        begin: BEGIN,
        end: Some(END),
        instance_id: instance.to_string(),
        instance_name: format!("vm-{instance}"),
        flavor: 7,
        flavor_name: "m1.large".to_string(),
        status: "ACTIVE".to_string(),
        user: owner.id,
        username: owner.name.clone(),
    }
}

fn money(total: i128) -> f64 {
    total as f64 / SECONDS_PER_YEAR as f64
}

#[test]
fn server_cost_for_server_ten_months_rounds_to_833() {
    let owner = user(1, "alice", 1, "proj");
    let states = vec![state(1, "vm-a", &owner)];
    let users = vec![owner];
    let projects = vec![project(1, "proj")];
    let flavors = vec![flavor()];
    let prices = vec![price_1000()];
    let cost = calculate_server_cost_for_server_normal(
        &states,
        &users,
        &projects,
        &flavors,
        &prices,
        &"vm-a".to_string(),
        BEGIN,
        END,
    );
    assert_eq!(money(cost.total).round(), 833.0);
}

#[test]
fn server_cost_detail_total_matches_normal() {
    let owner = user(1, "alice", 1, "proj");
    let states = vec![state(1, "vm-a", &owner)];
    let users = vec![owner];
    let projects = vec![project(1, "proj")];
    let flavors = vec![flavor()];
    let prices = vec![price_1000()];
    let normal = calculate_server_cost_for_server_normal(
        &states,
        &users,
        &projects,
        &flavors,
        &prices,
        &"vm-a".to_string(),
        BEGIN,
        END,
    );
    let detail = calculate_server_cost_for_server_detail(
        &states,
        &users,
        &projects,
        &flavors,
        &prices,
        &"vm-a".to_string(),
        BEGIN,
        END,
    );
    assert_eq!(normal.total, detail.total);
    assert_eq!(detail.flavors.len(), 1);
    assert_eq!(detail.flavors[0].name, "m1.large");
    assert_eq!(detail.flavors[0].amount, normal.total);
}

#[test]
fn server_cost_for_user_two_servers_doubles_to_1666() {
    let owner = user(1, "alice", 1, "proj");
    let states = vec![state(1, "vm-a", &owner), state(2, "vm-b", &owner)];
    let users = vec![owner];
    let projects = vec![project(1, "proj")];
    let flavors = vec![flavor()];
    let prices = vec![price_1000()];
    let cost = calculate_server_cost_for_user_normal(
        &states,
        &users,
        &projects,
        &flavors,
        &prices,
        1,
        BEGIN,
        END,
    );
    assert_eq!(money(cost.total).round(), 1666.0);
    let detail = calculate_server_cost_for_user_detail(
        &states,
        &users,
        &projects,
        &flavors,
        &prices,
        1,
        BEGIN,
        END,
    );
    assert_eq!(detail.total, cost.total);
    assert_eq!(detail.servers.len(), 2);
    assert_eq!(detail.servers[0].name, "vm-a");
    assert_eq!(detail.servers[1].name, "vm-b");
    assert_eq!(detail.servers[0].cost.total + detail.servers[1].cost.total, detail.total);
}

#[test]
fn server_cost_for_project_two_users_doubles_to_1666() {
    let alice = user(1, "alice", 1, "proj");
    let bob = user(2, "bob", 1, "proj");
    let states = vec![state(1, "vm-a", &alice), state(2, "vm-b", &bob)];
    let users = vec![alice, bob];
    let projects = vec![project(1, "proj")];
    let flavors = vec![flavor()];
    let prices = vec![price_1000()];
    let cost = calculate_server_cost_for_project_normal(
        &states,
        &users,
        &projects,
        &flavors,
        &prices,
        1,
        BEGIN,
        END,
    );
    assert_eq!(money(cost.total).round(), 1666.0);
    let detail = calculate_server_cost_for_project_detail(
        &states,
        &users,
        &projects,
        &flavors,
        &prices,
        1,
        BEGIN,
        END,
    );
    assert_eq!(detail.total, cost.total);
    assert_eq!(detail.users.len(), 2);
}

#[test]
fn server_cost_for_all_two_projects_doubles_to_1666() {
    let alice = user(1, "alice", 1, "proj-a");
    let bob = user(2, "bob", 2, "proj-b");
    let states = vec![state(1, "vm-a", &alice), state(2, "vm-b", &bob)];
    let users = vec![alice, bob];
    let projects = vec![project(1, "proj-a"), project(2, "proj-b")];
    let flavors = vec![flavor()];
    let prices = vec![price_1000()];
    let cost = calculate_server_cost_for_all_normal(
        &states,
        &users,
        &projects,
        &flavors,
        &prices,
        BEGIN,
        END,
    );
    assert_eq!(money(cost.total).round(), 1666.0);
    let detail = calculate_server_cost_for_all_detail(
        &states,
        &users,
        &projects,
        &flavors,
        &prices,
        BEGIN,
        END,
    );
    assert_eq!(detail.total, cost.total);
    assert_eq!(detail.projects.len(), 2);
    assert_eq!(detail.flavors.len(), 1);
    assert_eq!(detail.flavors[0].amount, detail.total);
}

#[test]
fn repeated_query_is_identical() {
    let owner = user(1, "alice", 1, "proj");
    let states = vec![state(1, "vm-a", &owner)];
    let users = vec![owner];
    let projects = vec![project(1, "proj")];
    let flavors = vec![flavor()];
    let prices = vec![price_1000()];
    let first = calculate_server_cost_for_user_normal(
        &states,
        &users,
        &projects,
        &flavors,
        &prices,
        1,
        BEGIN,
        END,
    );
    let second = calculate_server_cost_for_user_normal(
        &states,
        &users,
        &projects,
        &flavors,
        &prices,
        1,
        BEGIN,
        END,
    );
    assert_eq!(first.total, second.total);
}

#[test]
fn cost_splits_at_any_instant_inside_a_regime() {
    let owner = user(1, "alice", 1, "proj");
    let states = vec![state(1, "vm-a", &owner)];
    let users = vec![owner];
    let projects = vec![project(1, "proj")];
    let flavors = vec![flavor()];
    let prices = vec![price_1000()];
    let mid = BEGIN + 55 * 86400 + 12345;
    let whole = calculate_server_cost_for_user_normal(
        &states,
        &users,
        &projects,
        &flavors,
        &prices,
        1,
        BEGIN,
        END,
    );
    let left = calculate_server_cost_for_user_normal(
        &states,
        &users,
        &projects,
        &flavors,
        &prices,
        1,
        BEGIN,
        mid,
    );
    let right = calculate_server_cost_for_user_normal(
        &states,
        &users,
        &projects,
        &flavors,
        &prices,
        1,
        mid,
        END,
    );
    assert_eq!(whole.total, left.total + right.total);
}

#[test]
fn state_outside_window_contributes_nothing() {
    let owner = user(1, "alice", 1, "proj");
    let mut outside = state(2, "vm-old", &owner);
    outside.begin = BEGIN - 10 * 86400;
    outside.end = Some(BEGIN - 86400);
    let states = vec![state(1, "vm-a", &owner), outside];
    let users = vec![owner];
    let projects = vec![project(1, "proj")];
    let flavors = vec![flavor()];
    let prices = vec![price_1000()];
    let with_outside = calculate_server_cost_for_user_normal(
        &states,
        &users,
        &projects,
        &flavors,
        &prices,
        1,
        BEGIN,
        END,
    );
    let only_inside = calculate_server_cost_for_user_normal(
        &states[..1].to_vec(),
        &users,
        &projects,
        &flavors,
        &prices,
        1,
        BEGIN,
        END,
    );
    assert_eq!(with_outside.total, only_inside.total);
}

#[test]
fn unknown_scope_yields_silent_zero() {
    let owner = user(1, "alice", 1, "proj");
    let states = vec![state(1, "vm-a", &owner)];
    let users = vec![owner];
    let projects = vec![project(1, "proj")];
    let flavors = vec![flavor()];
    let prices = vec![price_1000()];
    let cost = calculate_server_cost_for_user_normal(
        &states,
        &users,
        &projects,
        &flavors,
        &prices,
        99,
        BEGIN,
        END,
    );
    assert_eq!(cost.total, 0);
    let unknown_project = calculate_server_cost_for_project_normal(
        &states,
        &users,
        &projects,
        &flavors,
        &prices,
        42,
        BEGIN,
        END,
    );
    assert_eq!(unknown_project.total, 0);
}

#[test]
fn dispatchers_pick_the_requested_shape() {
    let owner = user(1, "alice", 1, "proj");
    let states = vec![state(1, "vm-a", &owner)];
    let users = vec![owner];
    let projects = vec![project(1, "proj")];
    let flavors = vec![flavor()];
    let prices = vec![price_1000()];
    let sid = "vm-a".to_string();
    match calculate_server_cost_for_server(
        &states, &users, &projects, &flavors, &prices, &sid, BEGIN, END, Some(true),
    ) {
        ServerCostForServer::Detail(_) => {},
        ServerCostForServer::Normal(_) => panic!("expected the detailed shape"),
    }
    match calculate_server_cost_for_user(
        &states, &users, &projects, &flavors, &prices, 1, BEGIN, END, None,
    ) {
        ServerCostForUser::Normal(_) => {},
        ServerCostForUser::Detail(_) => panic!("expected the flat shape"),
    }
    match calculate_server_cost_for_project(
        &states, &users, &projects, &flavors, &prices, 1, BEGIN, END, Some(false),
    ) {
        ServerCostForProject::Normal(_) => {},
        ServerCostForProject::Detail(_) => panic!("expected the flat shape"),
    }
    match calculate_server_cost_for_all(
        &states, &users, &projects, &flavors, &prices, BEGIN, END, Some(true),
    ) {
        ServerCostForAll::Detail(_) => {},
        ServerCostForAll::Normal(_) => panic!("expected the detailed shape"),
    }
}

#[test]
fn negative_price_is_recorded_in_detail_but_not_in_total() {
    let owner = user(1, "alice", 1, "proj");
    let states = vec![state(1, "vm-a", &owner)];
    let users = vec![owner];
    let projects = vec![project(1, "proj")];
    let flavors = vec![flavor()];
    let mut p = price_1000();
    p.unit_price = -500;
    let prices = vec![p];
    let detail = calculate_server_cost_for_server_detail(
        &states,
        &users,
        &projects,
        &flavors,
        &prices,
        &"vm-a".to_string(),
        BEGIN,
        END,
    );
    assert_eq!(detail.total, 0);
    assert_eq!(detail.flavors.len(), 1);
    assert!(detail.flavors[0].amount < 0);
}
