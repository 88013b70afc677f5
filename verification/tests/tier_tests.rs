use tdds_core::registry::EndpointInfo;
use tdds_core::tier::{
    evaluate, governing_tier, install_remote_table, min_tier_for, min_tier_for_endpoint, AssetClass,
    Tier, TierTable, UserTiers, UPGRADE_URL,
};

fn info(name: &str, cat: &str, sub: &str) -> EndpointInfo {
    EndpointInfo {
        name: name.into(),
        description: String::new(),
        category: cat.into(),
        subcategory: sub.into(),
        rest_path: String::new(),
        returns: String::new(),
        params: vec![],
    }
}

#[test]
fn tier_ranks_strict_monotonic() {
    let order = [Tier::Unknown, Tier::Free, Tier::Value, Tier::Standard, Tier::Pro];
    for w in order.windows(2) {
        assert!(w[0].rank() < w[1].rank(), "{:?} >= {:?}", w[0], w[1]);
    }
}

#[test]
fn meets_higher_or_equal() {
    assert!(Tier::Pro.meets(Tier::Standard));
    assert!(Tier::Standard.meets(Tier::Standard));
    assert!(!Tier::Value.meets(Tier::Standard));
    assert!(!Tier::Unknown.meets(Tier::Free));
}

#[test]
fn from_label_handles_all_variants() {
    assert_eq!(Tier::from_label("Free"), Tier::Free);
    assert_eq!(Tier::from_label("VALUE"), Tier::Value);
    assert_eq!(Tier::from_label("standard"), Tier::Standard);
    assert_eq!(Tier::from_label("Pro"), Tier::Pro);
    assert_eq!(Tier::from_label("Professional"), Tier::Pro);
    assert_eq!(Tier::from_label("3"), Tier::Pro);
    assert_eq!(Tier::from_label("garbage"), Tier::Unknown);
    assert_eq!(Tier::from_label(""), Tier::Unknown);
}

#[test]
fn list_endpoints_always_free() {
    assert_eq!(min_tier_for("stock", "list"), Tier::Free);
    assert_eq!(min_tier_for("option", "list"), Tier::Free);
    assert_eq!(min_tier_for("index", "list"), Tier::Free);
}

#[test]
fn authoritative_table_beats_heuristic() {
    let table = TierTable::new();
    assert_eq!(min_tier_for_endpoint(&table, "option_history_trade"), Some(Tier::Standard));
    assert_eq!(min_tier_for_endpoint(&table, "option_history_quote"), Some(Tier::Value));
    assert_eq!(min_tier_for_endpoint(&table, "option_history_greeks_all"), Some(Tier::Pro));
    assert_eq!(min_tier_for_endpoint(&table, "stock_history_eod"), Some(Tier::Free));
    assert_eq!(min_tier_for_endpoint(&table, "not_a_real_endpoint"), None);
}

#[test]
fn evaluate_blocks_when_under_tier() {
    let user = UserTiers {
        stock: Tier::Standard,
        options: Tier::Standard,
        indices: Tier::Unknown,
        interest_rate: Tier::Unknown,
    };
    let v = evaluate(
        &TierTable::new(),
        &info("option_history_greeks_all", "option", "history_greeks"),
        &user,
    );
    assert!(!v.allowed);
    assert_eq!(v.required, Tier::Pro);
    assert_eq!(v.user, Tier::Standard);
}

#[test]
fn evaluate_allows_when_over_tier() {
    let user = UserTiers {
        stock: Tier::Pro,
        options: Tier::Pro,
        indices: Tier::Pro,
        interest_rate: Tier::Pro,
    };
    let v = evaluate(&TierTable::new(), &info("stock_history_eod", "stock", "history_eod"), &user);
    assert!(v.allowed);
}

#[test]
fn governing_tier_routes_per_asset_class() {
    let user = UserTiers {
        stock: Tier::Free,
        options: Tier::Pro,
        indices: Tier::Standard,
        interest_rate: Tier::Value,
    };
    assert_eq!(governing_tier("stock", &user), Tier::Free);
    assert_eq!(governing_tier("option", &user), Tier::Pro);
    assert_eq!(governing_tier("index", &user), Tier::Standard);
    assert_eq!(governing_tier("rate", &user), Tier::Value);
    assert_eq!(governing_tier("calendar", &user), Tier::Free);
}

#[test]
fn upgrade_url_is_https() {
    assert!(UPGRADE_URL.starts_with("https://"));
}

#[test]
fn an_installed_table_wins_and_falls_back_to_the_published_one() {
    let mut table = TierTable::new();
    install_remote_table(
        &mut table,
        vec![
            ("option_history_trade".to_string(), Tier::Value),
            ("stock_snapshot_quote".to_string(), Tier::Pro),
            ("option_history_trade".to_string(), Tier::Pro),
        ],
    );
    // The last entry for an operation is the one that counts.
    assert_eq!(min_tier_for_endpoint(&table, "option_history_trade"), Some(Tier::Pro));
    assert_eq!(min_tier_for_endpoint(&table, "stock_snapshot_quote"), Some(Tier::Pro));
    // Operations the runtime table lacks fall back to the published table.
    assert_eq!(min_tier_for_endpoint(&table, "option_history_quote"), Some(Tier::Value));
    assert_eq!(min_tier_for_endpoint(&table, "nothing_here"), None);
}

#[test]
fn the_heuristic_follows_its_table() {
    assert_eq!(min_tier_for(" Stock ", "HISTORY_EOD"), Tier::Free);
    assert_eq!(min_tier_for("stock", "at_time"), Tier::Standard);
    assert_eq!(min_tier_for("stock", "history_trade"), Tier::Value);
    assert_eq!(min_tier_for("option", "history_greeks"), Tier::Standard);
    assert_eq!(min_tier_for("option", "history_quote"), Tier::Value);
    assert_eq!(min_tier_for("index", "snapshot"), Tier::Standard);
    assert_eq!(min_tier_for("index", "history_eod"), Tier::Free);
    assert_eq!(min_tier_for("rate", "history_eod"), Tier::Value);
    assert_eq!(min_tier_for("calendar", "on_date"), Tier::Free);
}

#[test]
fn the_budget_is_the_highest_class_cap_not_the_sum() {
    let user = UserTiers {
        stock: Tier::Standard,
        options: Tier::Pro,
        indices: Tier::Value,
        interest_rate: Tier::Unknown,
    };
    assert_eq!(user.in_flight_budget(), 8);
    assert_eq!(user.workers_for(AssetClass::Stock), 4);
    assert_eq!(user.workers_for(AssetClass::Rate), 1);
    assert_eq!(UserTiers::default().in_flight_budget(), 1);
    assert_eq!(Tier::Value.workers(), 2);
}

#[test]
fn labels_name_the_tiers_and_classes() {
    assert_eq!(Tier::Standard.as_str(), "Standard");
    assert_eq!(AssetClass::Option.as_str(), "option");
    assert_eq!(Tier::from_label(Tier::Value.as_str()), Tier::Value);
}

#[test]
fn labels_and_ranks_read_back_whatever_their_case_and_spacing() {
    for t in [Tier::Unknown, Tier::Free, Tier::Value, Tier::Standard, Tier::Pro] {
        assert_eq!(Tier::from_label(t.as_str()), t);
        assert_eq!(Tier::from_label(&t.rank().to_string()), t);
        assert_eq!(Tier::from_label(&format!("  {}\t", t.as_str().to_ascii_uppercase())), t);
    }
    assert_eq!(Tier::from_label(" Professional "), Tier::Pro);
}

#[test]
fn the_category_rule_and_governing_tier_fold_their_inputs() {
    assert_eq!(min_tier_for(" STOCK ", "At_Time"), min_tier_for("stock", "at_time"));
    assert_eq!(min_tier_for("stock", "at_time"), Tier::Standard);
    assert_eq!(min_tier_for("Rate", " LIST "), Tier::Free);
    for (c, s) in [("stock", "x"), ("option", "history"), ("index", "history"), ("rate", "eod"), ("calendar", "x")] {
        assert_ne!(min_tier_for(c, s), Tier::Unknown);
    }
    let u = UserTiers { stock: Tier::Value, options: Tier::Pro, indices: Tier::Free, interest_rate: Tier::Standard };
    for c in [AssetClass::Stock, AssetClass::Option, AssetClass::Index, AssetClass::Rate] {
        assert_eq!(governing_tier(c.as_str(), &u), u.for_class(c));
    }
    assert_eq!(governing_tier("  OPTION ", &u), Tier::Pro);
    assert_eq!(governing_tier("calendar", &u), Tier::Value);
}
