//! The data model around the engine: tiers, errors, quotas and the request
//! builders.

use avina_billing::error::{
    MinimalApiError, NormalApiError, NotFoundOrUnexpectedApiError, OptionApiError,
    UnexpectedOnlyError,
};
use avina_billing::flavor_price::{FlavorPriceCreateData, FlavorPriceModifyData, NewFlavorPrice};
use avina_billing::project::{ProjectCreateData, ProjectModifyData};
use avina_billing::quota::{CacheKey, CacheValue, QuotaCache, check_flavor_quota, FlavorQuotaCreateData, FlavorQuotaModifyData};
use avina_billing::resources::{FlavorGroupCreateData, FlavorGroupModifyData};
use avina_billing::user::{UserClass, UserCreateData, UserModifyData};
use avina_billing::consumption::calculate_server_consumption_for_server;
use avina_billing::server_state::ServerState;
use avina_billing::resources::{FlavorUsageSimple, aggregate_flavor_usage, flavor_usage_to_flavor_group_usage};

#[test]
fn user_class_codes_round_trip() {
    let all = UserClass::all();
    assert_eq!(all.len(), 7);
    for (i, uc) in all.iter().enumerate() {
        assert_eq!(uc.to_u32() as usize, i);
        let back = UserClass::try_from_u32(i as u32).expect("codes up to six parse");
        assert_eq!(back.to_u32(), i as u32);
    }
    assert!(UserClass::try_from_u32(7).is_err());
}

#[test]
fn error_kinds_map_to_their_status_codes() {
    assert_eq!(OptionApiError::ValidationError("bad".to_string()).status_code(), 400);
    assert_eq!(OptionApiError::NotFoundError.status_code(), 404);
    assert_eq!(OptionApiError::AuthorizationError("no".to_string()).status_code(), 403);
    assert_eq!(OptionApiError::UnexpectedError("db".to_string()).status_code(), 500);
    assert_eq!(NormalApiError::ValidationError("bad".to_string()).status_code(), 400);
    assert_eq!(NotFoundOrUnexpectedApiError::NotFoundError.status_code(), 404);
}

#[test]
fn internal_errors_never_leak_their_message() {
    let e = OptionApiError::UnexpectedError("SECRET-REDACTED".to_string());
    let body = e.response();
    assert_eq!(body.detail, "Internal server error, contact admin or check logs");
    let nf = OptionApiError::NotFoundError.response();
    assert_eq!(nf.detail, "Resource not found");
    let v = OptionApiError::ValidationError("field x is off".to_string()).response();
    assert_eq!(v.detail, "field x is off");
}

#[test]
fn error_conversions_keep_the_kind() {
    let e = OptionApiError::from_unexpected(UnexpectedOnlyError::UnexpectedError(
        "boom".to_string(),
    ));
    assert_eq!(e.status_code(), 500);
    let e = OptionApiError::from_minimal(MinimalApiError::ValidationError("v".to_string()));
    assert_eq!(e.status_code(), 400);
    let e = OptionApiError::from_not_found_or_unexpected(
        NotFoundOrUnexpectedApiError::NotFoundError,
    );
    assert_eq!(e.status_code(), 404);
}

#[test]
fn quota_decision_counts_weighted_servers() {
    // No group or no stored quota: never limited.
    assert!(!check_flavor_quota(None, Some(10), 0, 1, 1));
    assert!(!check_flavor_quota(Some(3), None, 0, 1, 1));
    // Usage 4 plus 2 more of weight 3 is 10, within a quota of 10.
    assert!(check_flavor_quota(Some(3), Some(10), 4, 2, 3));
    assert!(!check_flavor_quota(Some(3), Some(9), 4, 2, 3));
    // A negative quota counts as zero.
    assert!(!check_flavor_quota(Some(3), Some(-1), 0, 1, 1));
    assert!(check_flavor_quota(Some(3), Some(-1), 0, 0, 1));
}

#[test]
fn quota_cache_answers_fresh_and_evicts_stale() {
    let mut cache = QuotaCache::new();
    let key = CacheKey::new("alice", "m1.large", 2);
    assert_eq!(cache.get(&key, 100), None);
    cache.set(CacheKey::new("alice", "m1.large", 2), true, 100);
    assert_eq!(cache.get(&key, 104), Some(true));
    // Five seconds later the entry is stale and gets evicted.
    assert_eq!(cache.get(&key, 105), None);
    assert_eq!(cache.get(&key, 105), None);
    let v = CacheValue::new(false, 42);
    assert!(!v.underquota);
    assert_eq!(v.stored_at, 42);
}

#[test]
fn request_builders_start_empty() {
    let u = UserCreateData::new("alice".to_string(), "os-1".to_string(), 3);
    assert_eq!(u.project, 3);
    assert!(u.role.is_none() && u.is_staff.is_none() && u.is_active.is_none());
    let m = UserModifyData::new(9);
    assert_eq!(m.id, 9);
    assert!(m.name.is_none() && m.project.is_none());
    let p = ProjectCreateData::new("proj".to_string(), "os-2".to_string());
    assert!(p.user_class.is_none());
    let pm = ProjectModifyData::new(4);
    assert_eq!(pm.id, 4);
    let g = FlavorGroupCreateData::new("group".to_string());
    assert!(g.flavors.is_empty());
    let gm = FlavorGroupModifyData::new(5);
    assert!(gm.name.is_none() && gm.project.is_none());
    let q = FlavorQuotaCreateData::new(2, 7);
    assert_eq!(q.quota, -1);
    let qm = FlavorQuotaModifyData::new(6);
    assert!(qm.quota.is_none());
    let fp = FlavorPriceCreateData::new(7, UserClass::UC1);
    assert!(fp.price.is_none() && fp.start_time.is_none());
    let fpm = FlavorPriceModifyData::new(8);
    assert!(fpm.unit_price.is_none());
}

#[test]
fn new_flavor_price_defaults_to_zero_and_now() {
    let data = FlavorPriceCreateData::new(7, UserClass::UC3);
    let row = NewFlavorPrice::try_from(data, 1234567);
    assert_eq!(row.unit_price, 0);
    assert_eq!(row.start_time, 1234567);
    let mut data2 = FlavorPriceCreateData::new(7, UserClass::UC3);
    data2.price = Some(5000);
    data2.start_time = Some(42);
    let row2 = NewFlavorPrice::try_from(data2, 1234567);
    assert_eq!(row2.unit_price, 5000);
    assert_eq!(row2.start_time, 42);
}

#[test]
fn consumption_counts_only_the_overlap() {
    let states = vec![ServerState {
        id: 1,
        begin: 1000,
        end: Some(5000),
        instance_id: "vm-a".to_string(),
        instance_name: "a".to_string(),
        flavor: 7,
        flavor_name: "m1".to_string(),
        status: "ACTIVE".to_string(),
        user: 1,
        username: "alice".to_string(),
    }];
    let m = calculate_server_consumption_for_server(&states, &"vm-a".to_string(), 2000, 4000);
    assert_eq!(m.len(), 1);
    assert_eq!(m[0].name, "m1");
    assert_eq!(m[0].amount, 2000);
    let outside = calculate_server_consumption_for_server(
        &states,
        &"vm-a".to_string(),
        6000,
        9000,
    );
    assert_eq!(outside.len(), 0);
}

#[test]
fn aggregate_sums_counts_per_flavor() {
    let row = |user_id: u32, flavor_id: u32, name: &str, count: u32, usage: u32| FlavorUsageSimple {
        user_id,
        user_name: format!("user-{user_id}"),
        flavor_id,
        flavor_name: name.to_string(),
        flavorgroup_id: None,
        flavorgroup_name: None,
        count,
        usage,
    };
    let rows = vec![
        row(1, 7, "m1", 2, 4),
        row(2, 8, "m2", 1, 1),
        row(3, 7, "m1", 3, 6),
    ];
    let agg = aggregate_flavor_usage(rows);
    assert_eq!(agg.len(), 2);
    assert_eq!(agg[0].flavor_id, 7);
    assert_eq!(agg[0].count, 5);
    assert_eq!(agg[0].usage, 10);
    assert_eq!(agg[1].flavor_id, 8);
    assert_eq!(agg[1].count, 1);
    assert_eq!(agg[1].usage, 1);
}

#[test]
fn group_usage_drops_ungrouped_rows_and_sums_pairs() {
    let row = |user_id: u32, flavor_id: u32, group: Option<u32>, usage: u32| FlavorUsageSimple {
        user_id,
        user_name: format!("user-{user_id}"),
        flavor_id,
        flavor_name: format!("flavor-{flavor_id}"),
        flavorgroup_id: group,
        flavorgroup_name: group.map(|g| format!("group-{g}")),
        count: 1,
        usage,
    };
    let rows = vec![
        row(1, 7, Some(3), 4),
        row(1, 8, None, 99),
        row(1, 9, Some(3), 6),
        row(2, 7, Some(3), 5),
    ];
    let grouped = flavor_usage_to_flavor_group_usage(rows);
    assert_eq!(grouped.len(), 2);
    assert_eq!(grouped[0].user_id, 1);
    assert_eq!(grouped[0].flavorgroup_id, 3);
    assert_eq!(grouped[0].usage, 10);
    assert_eq!(grouped[0].flavorgroup_name, "group-3");
    assert_eq!(grouped[1].user_id, 2);
    assert_eq!(grouped[1].usage, 5);
}
