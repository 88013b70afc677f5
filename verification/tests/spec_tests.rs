use tdds_core::dates::Date;
use tdds_core::spec::{
    default_expiration, default_right, default_strike, intervals, normalize_interval, DataKind,
    DataSpec, EndpointSpec,
};
use tdds_core::tier::AssetClass;

/// Whether the SDK's own argument validation accepts `v` as an interval.
fn sdk_accepts_interval(v: &str) -> bool {
    let mut args = thetadatadx::EndpointArgs::new();
    args.insert("interval".to_string(), thetadatadx::EndpointArgValue::Str(v.to_string()));
    args.optional_interval("interval").is_ok()
}

#[test]
fn intervals_are_accepted_by_the_sdk() {
    for opt in intervals() {
        assert!(
            sdk_accepts_interval(opt.id),
            "interval `{}` is not accepted by the SDK",
            opt.id
        );
    }
}

#[test]
fn legacy_interval_spellings_normalize_to_accepted_values() {
    for legacy in [
        "0", "10", "100", "500", "1000", "5000", "10000", "15000", "30000", "60000", "60s",
        "300000", "300s", "600000", "600s", "900000", "900s", "1800000", "1800s", "3600000",
        "3600s",
    ] {
        let normalized = normalize_interval(legacy);
        assert!(
            sdk_accepts_interval(normalized.as_str()),
            "legacy interval `{legacy}` normalized to `{normalized}`, which the SDK rejects",
        );
    }
}

#[test]
fn wire_intervals_pass_through_normalization() {
    for opt in intervals() {
        assert_eq!(normalize_interval(opt.id), opt.id);
    }
}

#[test]
fn normalizing_twice_changes_nothing() {
    for raw in [" 60000 ", "1m", "tick", "0", "2h", "  5s", "weird"] {
        let once = normalize_interval(raw);
        assert_eq!(normalize_interval(&once), once);
    }
    assert_eq!(normalize_interval(" 300s "), "5m");
    assert_eq!(normalize_interval("  2h "), "2h");
}

#[test]
fn unknown_datasets_are_refused_and_legacy_names_resolve() {
    assert!(DataKind::parse("no_such_dataset").is_none());
    let k = DataKind::parse("stock_history_eod").expect("registry knows the dataset");
    assert_eq!(k.as_str(), "stock_history_eod");
    assert_eq!(k.endpoint(), "stock_history_eod");
    assert_eq!(k.asset_class(), AssetClass::Stock);
    assert!(!k.is_option());
    assert!(k.takes_param("symbol"));
    assert!(!k.takes_param("no_such_param"));
}

#[test]
fn endpoint_spec_file_stem_is_independent_of_argument_order() {
    let a = EndpointSpec::new("stock_history_eod")
        .arg("symbol", "SPY".to_string())
        .arg("start_date", "20240101".to_string())
        .with_timeout_ms(500);
    let b = EndpointSpec::new("stock_history_eod")
        .arg("start_date", "20240101".to_string())
        .arg("symbol", "SPY".to_string());
    assert_eq!(a.file_stem(), b.file_stem());
    assert_eq!(a.file_stem(), "stock_history_eod__start_date-20240101_symbol-SPY");
    assert_eq!(a.timeout_ms(), 500);
    assert_eq!(b.timeout_ms(), 0);
}

#[test]
fn a_later_argument_replaces_an_earlier_one_and_values_are_escaped() {
    let s = EndpointSpec::new("x")
        .arg("symbol", "A B".to_string())
        .arg("symbol", "C/D*E".to_string());
    assert_eq!(s.args().len(), 1);
    assert_eq!(s.file_stem(), "x__symbol-C%2FD%2AE");
}

#[test]
fn a_work_unit_lowers_onto_the_endpoint_it_names() {
    let kind = DataKind::parse("stock_history_eod").expect("registry knows the dataset");
    let spec = DataSpec {
        kind,
        symbol: "QQQ".to_string(),
        date: Date::from_ymd(2024, 1, 2).unwrap(),
        interval: None,
        expiration: default_expiration(),
        strike: default_strike(),
        right: default_right(),
    };
    assert_eq!(spec.ymd(), "20240102");
    let ep = spec.to_endpoint_spec();
    assert_eq!(ep.endpoint(), "stock_history_eod");
    for (k, _) in ep.args() {
        assert!(spec.kind.takes_param(k), "{k} is not a parameter of the endpoint");
    }
}

#[test]
fn different_arguments_give_different_stems() {
    let slash = EndpointSpec::new("stock_history_eod").arg("symbol", "a/b".to_string());
    let under = EndpointSpec::new("stock_history_eod").arg("symbol", "a_b".to_string());
    assert_ne!(slash.file_stem(), under.file_stem());
    assert_eq!(slash.file_stem(), "stock_history_eod__symbol-a%2Fb");
    assert_eq!(under.file_stem(), "stock_history_eod__symbol-a%5Fb");
    // A value may not pose as a further argument.
    let one = EndpointSpec::new("x").arg("a", "1_b-2".to_string());
    let two = EndpointSpec::new("x").arg("a", "1".to_string()).arg("b", "2".to_string());
    assert_ne!(one.file_stem(), two.file_stem());
    assert_eq!(two.file_stem(), "x__a-1_b-2");
    assert_eq!(one.file_stem(), "x__a-1%5Fb%2D2");
    let pct = EndpointSpec::new("x").arg("a", "%2F".to_string());
    assert_eq!(pct.file_stem(), "x__a-%252F");
}
