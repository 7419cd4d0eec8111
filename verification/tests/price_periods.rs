//! Scenarios for the price regime builder and the price listing filters.

use avina_billing::flavor_price::{
    FlavorPrice, flavor_price_list, select_flavor_prices_for_period,
    select_flavor_prices_for_userclass_and_period,
};
use avina_billing::price_periods::{get_flavor_price_periods, period_price};
use avina_billing::resources::Flavor;
use avina_billing::user::UserClass;

const T0: i64 = 1672531200;

fn flavor(id: u32, name: &str) -> Flavor {
    Flavor {
        id,
        name: name.to_string(),
        openstack_id: format!("os-{name}"),
        group: None,
        group_name: None,
        weight: 1,
    }
}

fn price(id: u32, flavor: u32, name: &str, uc: UserClass, unit_price: i64, start: i64) -> FlavorPrice {
    FlavorPrice {
        id,
        flavor,
        flavor_name: name.to_string(),
        user_class: uc,
        unit_price,
        start_time: start,
    }
}

#[test]
fn no_prices_yield_a_single_zero_period() {
    let flavors = vec![flavor(1, "m1")];
    let prices: Vec<FlavorPrice> = Vec::new();
    let periods = get_flavor_price_periods(&flavors, &prices, T0, T0 + 1000);
    assert_eq!(periods.len(), 1);
    assert_eq!(periods[0].start, T0);
    assert_eq!(period_price(&periods[0], UserClass::UC1, &"m1".to_string()), 0);
}

#[test]
fn two_flavors_changing_at_the_same_instant_merge_into_one_period() {
    let flavors = vec![flavor(1, "m1"), flavor(2, "m2")];
    let change = T0 + 5000;
    // Newest first, as the price history is handed over.
    let prices = vec![
        price(3, 2, "m2", UserClass::UC1, 400, change),
        price(2, 1, "m1", UserClass::UC1, 300, change),
        price(1, 1, "m1", UserClass::UC1, 100, T0),
    ];
    let periods = get_flavor_price_periods(&flavors, &prices, T0, T0 + 10000);
    assert_eq!(periods.len(), 2);
    assert_eq!(periods[0].start, T0);
    assert_eq!(periods[1].start, change);
    assert_eq!(period_price(&periods[0], UserClass::UC1, &"m1".to_string()), 100);
    assert_eq!(period_price(&periods[0], UserClass::UC1, &"m2".to_string()), 0);
    assert_eq!(period_price(&periods[1], UserClass::UC1, &"m1".to_string()), 300);
    assert_eq!(period_price(&periods[1], UserClass::UC1, &"m2".to_string()), 400);
}

#[test]
fn price_starting_exactly_at_begin_joins_the_first_period() {
    let flavors = vec![flavor(1, "m1")];
    let prices = vec![price(1, 1, "m1", UserClass::UC2, 250, T0)];
    let periods = get_flavor_price_periods(&flavors, &prices, T0, T0 + 100);
    assert_eq!(periods.len(), 1);
    assert_eq!(period_price(&periods[0], UserClass::UC2, &"m1".to_string()), 250);
}

#[test]
fn period_filter_keeps_the_newest_row_at_or_before_begin() {
    let begin = T0 + 1000;
    let prices = vec![
        price(3, 1, "m1", UserClass::UC1, 300, T0 + 2000),
        price(2, 1, "m1", UserClass::UC1, 200, T0 + 500),
        price(1, 1, "m1", UserClass::UC1, 100, T0),
    ];
    let kept = select_flavor_prices_for_period(&prices, begin, T0 + 10000);
    assert_eq!(kept.len(), 2);
    assert_eq!(kept[0].id, 3);
    assert_eq!(kept[1].id, 2);
}

#[test]
fn listing_current_prices_excludes_a_future_start() {
    // A price whose start time lies far in the future, around the year 2100.
    let future = 4102444800;
    let now = T0 + 1000;
    let prices = vec![
        price(2, 1, "m1", UserClass::UC1, 999, future),
        price(1, 1, "m1", UserClass::UC1, 100, T0),
    ];
    let listed = flavor_price_list(&prices, None, Some(true), now);
    assert_eq!(listed.len(), 1);
    assert_eq!(listed[0].id, 1);
    let all = flavor_price_list(&prices, None, None, now);
    assert_eq!(all.len(), 2);
}

#[test]
fn listing_by_user_class_keeps_only_that_class() {
    let prices = vec![
        price(2, 1, "m1", UserClass::UC2, 200, T0 + 10),
        price(1, 1, "m1", UserClass::UC1, 100, T0),
    ];
    let listed = flavor_price_list(&prices, Some(UserClass::UC2), None, T0 + 100);
    assert_eq!(listed.len(), 1);
    assert_eq!(listed[0].id, 2);
    let current = select_flavor_prices_for_userclass_and_period(
        &prices,
        UserClass::UC1,
        T0 + 100,
        T0 + 100,
    );
    assert_eq!(current.len(), 1);
    assert_eq!(current[0].id, 1);
}
