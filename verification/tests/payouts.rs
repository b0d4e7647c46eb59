use payouts_core::catalog::{CatalogCache, build_catalog, countries_except_us, refreshed_catalog};
use payouts_core::credential::{basic_auth_header, bearer_header, token_endpoint_url, Credential, CredentialCache};
use payouts_core::distribution::{
    combine_traffic, compute_entries, day_rates, group_team_rows, is_weekend, plan_distribution,
    project_entries, rate_for_day, sum_entries, PayoutEntry, ProjectTeam, RunPlan, TeamMemberRow,
    TrafficRow,
};
use payouts_core::gateway::{classify_paypal_response, classify_tremendous_response, gateway_url, PayoutsError};
use payouts_core::money::{Money, CENT, SCALE};
use payouts_core::queue::PayoutsQueue;
use payouts_core::registry::UserLockRegistry;
use payouts_core::types::{PayoutInterval, PayoutMethod, PayoutMethodKind, Product, ProductImage, Sku};

fn product(
    id: &str,
    category: &str,
    name: &str,
    skus: Vec<(u64, u64)>,
    currencies: Vec<&str>,
    countries: Vec<&str>,
    images: Vec<(&str, bool)>,
) -> Product {
    Product {
        id: id.to_owned(),
        category: category.to_owned(),
        name: name.to_owned(),
        skus: skus
            .into_iter()
            .map(|(min, max)| Sku { min: Money { units: min * SCALE }, max: Money { units: max * SCALE } })
            .collect(),
        currency_codes: currencies.into_iter().map(|c| c.to_owned()).collect(),
        countries: countries.into_iter().map(|c| c.to_owned()).collect(),
        images: images
            .into_iter()
            .map(|(src, is_card)| ProductImage { src: src.to_owned(), is_card })
            .collect(),
    }
}

// ----- money -----

#[test]
fn money_arithmetic_is_exact() {
    let a = Money::from_whole(3);
    assert_eq!(a.units, 3 * SCALE);
    let b = a.add(Money::from_units(500_000));
    assert_eq!(b.units, 3_500_000);
    assert_eq!(b.div_int(7).units, 500_000);
    assert_eq!(b.mul_div(2, 7).units, 1_000_000);
    assert!(b.is_positive());
    assert!(!Money::zero().is_positive());
}

// ----- rates / P4 -----

#[test]
fn budget_conservation_within_one_cent() {
    let budget = Money::from_whole(1000);
    let (weekday, weekend) = day_rates(budget);
    assert_eq!(weekday.units, 1_000_000_000 / 30);
    assert_eq!(weekend.units, weekday.units * 5 / 4);
    let paid = 20 * weekday.units + 8 * weekend.units;
    assert!(paid <= budget.units);
    assert!(budget.units - paid < CENT);
}

#[test]
fn weekend_days_earn_the_bonus_rate() {
    // Day 19728 of the epoch is a Saturday; 19725 is a Wednesday.
    assert!(is_weekend(19_728));
    assert!(is_weekend(19_729));
    assert!(!is_weekend(19_725));
    let budget = Money::from_whole(2800);
    let (weekday, weekend) = day_rates(budget);
    assert_eq!(rate_for_day(budget, 19_725).units, weekday.units);
    assert_eq!(rate_for_day(budget, 19_728).units, weekend.units);
}

#[test]
fn zero_budget_pays_nothing() {
    let (weekday, weekend) = day_rates(Money::zero());
    assert_eq!(weekday.units, 0);
    assert_eq!(weekend.units, 0);
    let views = vec![TrafficRow { project_id: 1, count: 10 }];
    let downloads: Vec<TrafficRow> = Vec::new();
    let weights = combine_traffic(&views, &downloads);
    let teams = vec![ProjectTeam { project_id: 1, members: vec![(4, Money::from_whole(1))] }];
    let entries = compute_entries(weekday, &weights, 10, &teams);
    assert!(entries.is_empty());
}

// ----- weights -----

#[test]
fn traffic_of_both_sources_is_added() {
    let views = vec![
        TrafficRow { project_id: 1, count: 10 },
        TrafficRow { project_id: 2, count: 5 },
    ];
    let downloads = vec![
        TrafficRow { project_id: 1, count: 7 },
        TrafficRow { project_id: 3, count: 2 },
    ];
    let m = combine_traffic(&views, &downloads);
    assert_eq!(m.get(&1), Some(&17));
    assert_eq!(m.get(&2), Some(&5));
    assert_eq!(m.get(&3), Some(&2));
    assert_eq!(m.get(&4), None);
}

// ----- teams -----

#[test]
fn team_rows_group_in_first_seen_order() {
    let rows = vec![
        TeamMemberRow { project_id: 7, user_id: 100, split: Money::from_whole(1) },
        TeamMemberRow { project_id: 9, user_id: 200, split: Money::from_whole(3) },
        TeamMemberRow { project_id: 7, user_id: 101, split: Money::from_whole(2) },
    ];
    let teams = group_team_rows(&rows);
    assert_eq!(teams.len(), 2);
    assert_eq!(teams[0].project_id, 7);
    assert_eq!(teams[0].members.len(), 2);
    assert_eq!(teams[0].members[0].0, 100);
    assert_eq!(teams[0].members[1].0, 101);
    assert_eq!(teams[1].project_id, 9);
    assert_eq!(teams[1].members, vec![(200, Money::from_whole(3))]);
}

// ----- member payouts / P5, P8 -----

#[test]
fn three_to_one_split_conserves_the_project_amount() {
    let members = vec![(1u64, Money::from_units(3)), (2u64, Money::from_units(1))];
    let entries = project_entries(42, Money::from_units(1000), &members);
    assert_eq!(entries.len(), 2);
    assert_eq!(entries[0].amount.units, 750);
    assert_eq!(entries[1].amount.units, 250);
    assert_eq!(entries[0].amount.units + entries[1].amount.units, 1000);
    assert_eq!(entries[0].amount.units, 3 * entries[1].amount.units);
}

#[test]
fn zero_split_team_yields_nothing() {
    let members = vec![(1u64, Money::zero()), (2u64, Money::zero())];
    let entries = project_entries(42, Money::from_whole(1000), &members);
    assert!(entries.is_empty());
}

#[test]
fn zero_amount_shares_are_discarded() {
    // Two members, one whose share rounds down to nothing.
    let members = vec![(1u64, Money::from_units(999)), (2u64, Money::from_units(1))];
    let entries = project_entries(5, Money::from_units(500), &members);
    assert_eq!(entries.len(), 1);
    assert_eq!(entries[0].user_id, 1);
    assert_eq!(entries[0].amount.units, 499);
}

// ----- the whole run / P6, P7 -----

#[test]
fn worked_example_splits_the_day_amount() {
    // Total weight 100: project X carries 60, project Y carries 40.
    let views = vec![TrafficRow { project_id: 1, count: 60 }];
    let downloads = vec![TrafficRow { project_id: 2, count: 40 }];
    let weights = combine_traffic(&views, &downloads);
    let teams = vec![
        ProjectTeam { project_id: 1, members: vec![(10, Money::from_whole(1))] },
        ProjectTeam {
            project_id: 2,
            members: vec![(20, Money::from_whole(1)), (21, Money::from_whole(1))],
        },
    ];
    let entries = compute_entries(Money::from_whole(1000), &weights, 100, &teams);
    assert_eq!(entries.len(), 3);
    assert_eq!(entries[0], PayoutEntry { user_id: 10, project_id: 1, amount: Money::from_whole(600) });
    assert_eq!(entries[1].user_id, 20);
    assert_eq!(entries[1].amount.units, 200 * SCALE);
    assert_eq!(entries[2].user_id, 21);
    assert_eq!(entries[2].amount.units, 200 * SCALE);
    assert_eq!(sum_entries(&entries), 1000 * SCALE as u128);
}

#[test]
fn processed_day_is_a_no_op() {
    let views = vec![TrafficRow { project_id: 1, count: 60 }];
    let downloads: Vec<TrafficRow> = Vec::new();
    let rows = vec![TeamMemberRow { project_id: 1, user_id: 10, split: Money::from_whole(1) }];
    let first = plan_distribution(false, Money::from_whole(300), 19_725, &views, 60, &downloads, 0, &rows);
    match first {
        RunPlan::Commit { entries } => {
            assert_eq!(entries.len(), 1);
            assert_eq!(entries[0].user_id, 10);
        },
        RunPlan::AlreadyProcessed => panic!("first run must commit"),
    }
    // The second invocation sees the records the first one wrote.
    let second = plan_distribution(true, Money::from_whole(300), 19_725, &views, 60, &downloads, 0, &rows);
    assert!(matches!(second, RunPlan::AlreadyProcessed));
}

#[test]
fn project_without_weight_is_skipped() {
    let views = vec![TrafficRow { project_id: 1, count: 50 }];
    let downloads: Vec<TrafficRow> = Vec::new();
    let weights = combine_traffic(&views, &downloads);
    let teams = vec![ProjectTeam { project_id: 2, members: vec![(9, Money::from_whole(1))] }];
    let entries = compute_entries(Money::from_whole(100), &weights, 50, &teams);
    assert!(entries.is_empty());
}

#[test]
fn zero_total_weight_pays_nothing() {
    let views: Vec<TrafficRow> = Vec::new();
    let downloads: Vec<TrafficRow> = Vec::new();
    let weights = combine_traffic(&views, &downloads);
    let teams = vec![ProjectTeam { project_id: 2, members: vec![(9, Money::from_whole(1))] }];
    let entries = compute_entries(Money::from_whole(100), &weights, 0, &teams);
    assert!(entries.is_empty());
}

// ----- gateway / P9 -----

#[test]
fn named_error_shape_maps_verbatim() {
    let r = classify_paypal_response(
        false,
        Some(("X".to_owned(), "Y".to_owned())),
        None,
    );
    match r {
        Err(PayoutsError::GatewayError { name, message }) => {
            assert_eq!(name.as_deref(), Some("X"));
            assert_eq!(message, "Y");
        },
        _ => panic!("expected a gateway error"),
    }
}

#[test]
fn identity_error_shape_maps_verbatim() {
    let r = classify_paypal_response(
        false,
        None,
        Some(("invalid_client".to_owned(), "bad secret".to_owned())),
    );
    match r {
        Err(PayoutsError::GatewayError { name, message }) => {
            assert_eq!(name.as_deref(), Some("invalid_client"));
            assert_eq!(message, "bad secret");
        },
        _ => panic!("expected a gateway error"),
    }
}

#[test]
fn unrecognized_error_body_is_malformed() {
    let r = classify_paypal_response(false, None, None);
    assert!(matches!(r, Err(PayoutsError::GatewayResponseMalformed)));
    let ok = classify_paypal_response(true, None, None);
    assert!(ok.is_ok());
}

#[test]
fn tremendous_error_shapes_map() {
    let r = classify_tremendous_response(false, true, true, Some("no funds".to_owned()));
    match r {
        Err(PayoutsError::GatewayError { name, message }) => {
            assert!(name.is_none());
            assert_eq!(message, "no funds");
        },
        _ => panic!("expected a gateway error"),
    }
    let r = classify_tremendous_response(false, true, true, None);
    assert!(matches!(r, Err(PayoutsError::GatewayResponseMalformed)));
    let r = classify_tremendous_response(false, true, false, None);
    assert!(matches!(r, Err(PayoutsError::GatewayResponseMalformed)));
    // A non-object body on a failure status matches no known error
    // shape: the failure is surfaced, never decoded as a success.
    let r = classify_tremendous_response(false, false, false, None);
    assert!(matches!(r, Err(PayoutsError::GatewayResponseMalformed)));
    assert!(classify_tremendous_response(true, true, false, None).is_ok());
}

// ----- credential cache / P1 -----

#[test]
fn expired_credential_demands_one_refresh() {
    let mut cache = CredentialCache::new();
    assert!(cache.get_valid(50).is_none());
    let stored = cache.store_refreshed("tok".to_owned(), "Bearer".to_owned(), 100, 50);
    assert_eq!(stored.expires_at, 150);
    // Every caller re-checking before the expiry finds the stored
    // credential and issues no second exchange.
    let again = cache.get_valid(149).expect("still valid");
    assert_eq!(again.access_token, "tok");
    assert_eq!(again.token_type, "Bearer");
    assert!(cache.get_valid(150).is_some());
    assert!(cache.get_valid(151).is_none());
}

#[test]
fn auth_headers_are_exact() {
    assert_eq!(basic_auth_header("user", "pass"), "Basic dXNlcjpwYXNz");
    assert_eq!(token_endpoint_url("https://api.example.com/"), "https://api.example.com/oauth2/token");
    assert_eq!(gateway_url("https://api.example.com/", "v1/payments"), "https://api.example.com/v1/payments");
    let c = Credential { access_token: "abc".to_owned(), token_type: "Bearer".to_owned(), expires_at: 9 };
    assert_eq!(bearer_header(&c), "Bearer abc");
}

// ----- registry -----

#[test]
fn same_user_same_handle() {
    let mut reg = UserLockRegistry::new();
    let a = reg.handle_for(7);
    let b = reg.handle_for(8);
    let c = reg.handle_for(7);
    assert_eq!(a, c);
    assert_ne!(a, b);
    assert_eq!(reg.len(), 2);
}

// ----- catalog / P2, P3 -----

fn sample_products() -> Vec<Product> {
    vec![
        product("ZZBETA000001", "visa", "Beta", vec![(5, 100)], vec!["USD"], vec!["US", "CA"], vec![
            ("https://img.example/card.png", true),
            ("https://img.example/logo.png", false),
        ]),
        product("AAALPHA00001", "ach", "Alpha", vec![], vec!["USD"], vec!["US"], vec![]),
        // Deny-listed identifier: must never appear.
        product("A2J05SWPI2QG", "visa", "Physical", vec![(1, 2)], vec!["USD"], vec!["US"], vec![]),
        // Unsupported category: dropped.
        product("CCCRYPTO0001", "crypto", "Coin", vec![(1, 2)], vec!["USD"], vec!["US"], vec![]),
        // Fixed denominations without USD: dropped.
        product("DDNOUSD00001", "visa", "Delta", vec![(7, 7), (3, 3)], vec!["CAD"], vec!["CA"], vec![]),
        // Fixed denominations with USD: kept, values sorted ascending.
        product("GGGAMMA00001", "merchant_cards", "Gamma", vec![(7, 7), (3, 3)], vec!["USD"], vec!["US"], vec![]),
        // Up-ranked identifier sorts before every unlisted method.
        product("ET0ZVETV5ILN", "visa", "Zed", vec![(1, 50)], vec!["USD"], vec!["US"], vec![]),
        // Down-ranked identifier sorts after everything.
        product("EIPF8Q00EMM1", "bank", "Aaa", vec![(1, 50)], vec!["USD"], vec!["US"], vec![]),
    ]
}

#[test]
fn catalog_keeps_the_fixed_head_and_rank_order() {
    let methods = refreshed_catalog(&sample_products());
    let ids: Vec<&str> = methods.iter().map(|m| m.id.as_str()).collect();
    assert_eq!(
        ids,
        vec![
            "paypal_us",
            "venmo",
            "paypal_in",
            "ET0ZVETV5ILN",
            "AAALPHA00001",
            "ZZBETA000001",
            "GGGAMMA00001",
            "EIPF8Q00EMM1",
        ],
    );
    // Two independent refreshes order identically.
    let again = refreshed_catalog(&sample_products());
    let ids_again: Vec<&str> = again.iter().map(|m| m.id.as_str()).collect();
    assert_eq!(ids, ids_again);
}

#[test]
fn catalog_never_offers_denied_or_unconvertible_products() {
    let methods = refreshed_catalog(&sample_products());
    for m in &methods {
        assert_ne!(m.id, "A2J05SWPI2QG");
        assert_ne!(m.id, "CCCRYPTO0001");
        assert_ne!(m.id, "DDNOUSD00001");
        if let PayoutInterval::Fixed { values } = &m.interval {
            // The only fixed-interval method is the USD one, sorted
            // ascending.
            assert_eq!(m.id, "GGGAMMA00001");
            assert_eq!(values.iter().map(|v| v.units).collect::<Vec<u64>>(), vec![3 * SCALE, 7 * SCALE]);
        }
    }
}

#[test]
fn converted_method_carries_product_details() {
    let methods = refreshed_catalog(&sample_products());
    let beta = methods.iter().find(|m| m.id == "ZZBETA000001").expect("kept");
    assert_eq!(beta.kind, PayoutMethodKind::Tremendous);
    assert_eq!(beta.name, "Beta");
    assert_eq!(beta.supported_countries, vec!["US".to_owned(), "CA".to_owned()]);
    assert_eq!(beta.image_url.as_deref(), Some("https://img.example/card.png"));
    match &beta.interval {
        PayoutInterval::Standard { min, max } => {
            assert_eq!(min.units, 5 * SCALE);
            assert_eq!(max.units, 100 * SCALE);
        },
        PayoutInterval::Fixed { .. } => panic!("single tier gives a range"),
    }
    assert_eq!(beta.fee.percentage.units, 0);
    let alpha = methods.iter().find(|m| m.id == "AAALPHA00001").expect("kept");
    // Automated clearing house: four percent with a 0.25 floor, and
    // the no-tier fallback range.
    assert_eq!(alpha.fee.percentage.units, 40_000);
    assert_eq!(alpha.fee.min.units, 250_000);
    assert!(alpha.fee.max.is_none());
    match &alpha.interval {
        PayoutInterval::Standard { min, max } => {
            assert_eq!(min.units, 0);
            assert_eq!(max.units, 5000 * SCALE);
        },
        PayoutInterval::Fixed { .. } => panic!("no tiers give the fallback range"),
    }
}

#[test]
fn synthetic_methods_carry_the_first_party_terms() {
    let methods = refreshed_catalog(&Vec::new());
    assert_eq!(methods.len(), 3);
    let us = &methods[0];
    assert_eq!(us.id, "paypal_us");
    assert_eq!(us.kind, PayoutMethodKind::PayPal);
    assert_eq!(us.name, "PayPal");
    assert_eq!(us.supported_countries, vec!["US".to_owned()]);
    assert_eq!(us.fee.percentage.units, 20_000);
    assert_eq!(us.fee.min.units, 250_000);
    assert_eq!(us.fee.max.map(|m| m.units), Some(1_000_000));
    let venmo = &methods[1];
    assert_eq!(venmo.id, "venmo");
    assert_eq!(venmo.kind, PayoutMethodKind::Venmo);
    assert_eq!(venmo.name, "Venmo");
    let intl = &methods[2];
    assert_eq!(intl.id, "paypal_in");
    assert_eq!(intl.kind, PayoutMethodKind::PayPal);
    assert_eq!(intl.fee.min.units, 0);
    assert_eq!(intl.fee.max.map(|m| m.units), Some(20_000_000));
    // The international list is the 249-entry ISO table with US
    // removed.
    assert_eq!(intl.supported_countries.len(), 248);
    assert!(intl.supported_countries.iter().all(|c| c.len() == 2));
    assert!(!intl.supported_countries.iter().any(|c| c.as_str() == "US"));
}

#[test]
fn iso_filter_drops_only_us() {
    let codes = vec!["US".to_owned(), "DE".to_owned(), "FR".to_owned(), "US".to_owned()];
    let kept = countries_except_us(&codes);
    assert_eq!(kept, vec!["DE".to_owned(), "FR".to_owned()]);
}

#[test]
fn catalog_cache_honors_the_six_hour_window() {
    let mut cache = CatalogCache::new();
    assert!(cache.get_valid(0).is_none());
    let methods = build_catalog(&Vec::new(), vec!["DE".to_owned()]);
    cache.store(methods, 1000);
    assert!(cache.get_valid(1000).is_some());
    assert!(cache.get_valid(1000 + 21_600).is_some());
    assert!(cache.get_valid(1001 + 21_600).is_none());
}

// ----- the queue -----

#[test]
fn queue_serves_caches_and_locks() {
    let mut q = PayoutsQueue::new();
    assert!(q.get_valid_credential(0).is_none());
    q.store_refreshed_credential("t".to_owned(), "Bearer".to_owned(), 60, 0);
    assert!(q.get_valid_credential(30).is_some());
    assert!(q.get_payout_methods(0).is_none());
    let served = q.refresh_payout_methods(&sample_products(), 0);
    let cached = q.get_payout_methods(3600).expect("fresh for six hours");
    assert_eq!(served.len(), cached.len());
    assert_eq!(served[3].id, "ET0ZVETV5ILN");
    assert!(q.get_payout_methods(30_000).is_none());
    let h1 = q.lock_user_payouts(5);
    let h2 = q.lock_user_payouts(5);
    assert_eq!(h1, h2);
}
