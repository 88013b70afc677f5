use tdds_core::dates::Date;
use tdds_core::format::OutputFormat;
use tdds_core::openapi::parse_full_metadata;
use tdds_core::preview::{next_page_step, PageStep};
use tdds_core::queue::{
    class_kinds, is_duplicate_column_error, task_from_row, RowError, TaskRow, TaskStatus,
};
use tdds_core::registry::{all_endpoints, endpoints_by_category, find_endpoint, plan_args};
use tdds_core::spec::EndpointSpec;
use tdds_core::status::{is_wildcard, normalize, parse_ymd, tier_status, PoolPerClass};
use tdds_core::tier::{AssetClass, Tier, UserTiers};
use tdds_core::yaml_meta::{catalogue, install_runtime_meta, EndpointMeta, MetaTable};

fn row(kind: &str, date: &str, format: &str, status: &str) -> TaskRow {
    TaskRow {
        id: "t1".into(),
        kind: kind.into(),
        symbol: "SPY".into(),
        date: date.into(),
        interval: None,
        expiration: "*".into(),
        strike: "*".into(),
        right: "both".into(),
        format: format.into(),
        output_dir: "/tmp".into(),
        status: status.into(),
        priority: 3,
        attempts: 1,
        error: None,
        created_at: 42,
        finished_at: None,
        rows: Some(7),
        bytes: None,
    }
}

#[test]
fn a_stored_row_reads_back_as_its_task() {
    let t = task_from_row(row("stock_history_eod", "20240102", "CSV", "done")).unwrap();
    assert_eq!(t.spec.kind.as_str(), "stock_history_eod");
    assert_eq!(t.spec.date, Date::from_ymd(2024, 1, 2).unwrap());
    assert_eq!(t.format, OutputFormat::Csv);
    assert_eq!(t.status, TaskStatus::Done);
    assert_eq!(t.priority, 3);
    assert_eq!(t.rows, Some(7));
    assert_eq!(t.spec.symbol, "SPY");
}

#[test]
fn a_bad_row_names_its_first_bad_field() {
    assert_eq!(task_from_row(row("nope", "x", "x", "x")).unwrap_err(), RowError::BadKind);
    assert_eq!(task_from_row(row("stock_history_eod", "2024-01-02", "x", "x")).unwrap_err(), RowError::BadDate);
    assert_eq!(task_from_row(row("stock_history_eod", "20240102", "xlsx", "x")).unwrap_err(), RowError::BadFormat);
    assert_eq!(task_from_row(row("stock_history_eod", "20240102", "pq", "paused")).unwrap_err(), RowError::BadStatus);
}

#[test]
fn statuses_round_trip_through_their_stored_names() {
    for s in [TaskStatus::Pending, TaskStatus::Running, TaskStatus::Done, TaskStatus::Failed, TaskStatus::Empty] {
        assert_eq!(TaskStatus::parse(s.as_str()), Some(s));
    }
    assert_eq!(TaskStatus::parse("Done"), None);
}

#[test]
fn formats_round_trip_through_their_extensions() {
    for f in [OutputFormat::Parquet, OutputFormat::Csv, OutputFormat::Json, OutputFormat::Jsonl] {
        assert_eq!(OutputFormat::parse(f.extension()), Some(f));
        assert_eq!(OutputFormat::parse(&f.extension().to_ascii_uppercase()), Some(f));
    }
    assert_eq!(OutputFormat::parse("NDJSON"), Some(OutputFormat::Jsonl));
    assert_eq!(OutputFormat::parse("xlsx"), None);
    assert_eq!(OutputFormat::default(), OutputFormat::Parquet);
}

#[test]
fn only_duplicate_column_errors_are_tolerated() {
    assert!(is_duplicate_column_error("error returned from database: (code: 1) Duplicate Column Name: claimed_by"));
    assert!(!is_duplicate_column_error("database is locked"));
}

#[test]
fn claiming_by_class_uses_the_stored_dataset_names() {
    assert_eq!(
        class_kinds(AssetClass::Stock),
        vec!["stock_history_trade", "stock_history_quote", "stock_history_trade_quote"]
    );
    assert_eq!(
        class_kinds(AssetClass::Option),
        vec![
            "option_history_trade",
            "option_history_quote",
            "option_history_trade_quote",
            "option_history_open_interest"
        ]
    );
    assert!(class_kinds(AssetClass::Index).is_empty());
    assert!(class_kinds(AssetClass::Rate).is_empty());
    // A task queued under a legacy name is stored under its registry
    // name, which the class lane lists.
    let stored = tdds_core::spec::DataKind::parse("stock_trade").expect("legacy name resolves");
    assert!(class_kinds(AssetClass::Stock).contains(&stored.as_str()));
    let stored = tdds_core::spec::DataKind::parse("option_oi").expect("legacy name resolves");
    assert!(class_kinds(AssetClass::Option).contains(&stored.as_str()));
}

#[test]
fn dates_step_and_format() {
    let d = Date::from_ymd(2024, 2, 29).unwrap();
    assert_eq!(d.ymd8(), "20240229");
    assert_eq!(d.succ().unwrap().ymd8(), "20240301");
    assert_eq!(d.succ().unwrap().pred(), Some(d));
    assert_eq!(Date::parse_ymd8("20240229"), Some(d));
    assert_eq!(Date::parse_ymd8("20230229"), None);
    assert_eq!(Date::from_ymd(2023, 2, 29), None);
    // 2024-02-29 was a Thursday.
    assert_eq!(d.weekday(), 3);
    assert!(!d.is_weekend());
    assert!(Date::from_ymd(2024, 3, 2).unwrap().is_weekend());
    assert_eq!(Date::from_day_number(d.day_number()), Some(d));
    assert_eq!(Date::from_day_number(i32::MAX), None);
}

const DOC: &str = "openapi: 3.0.0
paths:
  /option/history/trade:
    x-min-subscription: standard
    get:
      summary: Option trades
      description: |
        Every trade
        of a contract.
      tags:
        - Option
  /stock/history/eod/{symbol}:
    x-min-subscription: Free
    get:
      summary: 'End of day'
      description: Daily bars
      tags:
        - Stock
  /stock/list/symbols:
    get:
      summary: Symbols
components:
  schemas: {}
";

#[test]
fn the_document_yields_tiers_and_metadata() {
    let (tiers, metas) = parse_full_metadata(DOC);
    assert_eq!(
        tiers,
        vec![
            ("option_history_trade".to_string(), Tier::Standard),
            ("stock_history_eod".to_string(), Tier::Free),
        ]
    );
    assert_eq!(metas.len(), 2);
    assert_eq!(metas[0].operation_id, "option_history_trade");
    assert_eq!(metas[0].summary, "Option trades");
    assert_eq!(metas[0].tag, "Option");
    assert_eq!(metas[1].summary, "End of day");
    assert_eq!(metas[1].description, "Daily bars");
    assert_eq!(metas[1].min_tier, Some(Tier::Free));
}

#[test]
fn runtime_metadata_replaces_the_builds_per_operation() {
    let mut table = MetaTable::new();
    let before = catalogue(&table);
    assert_eq!(before.len(), 4);
    assert!(before.windows(2).all(|w| w[0].operation_id < w[1].operation_id));
    let (_, metas) = parse_full_metadata(DOC);
    install_runtime_meta(&mut table, metas);
    let after = catalogue(&table);
    assert_eq!(after.len(), 4);
    let trade = after.iter().find(|m| m.operation_id == "option_history_trade").unwrap();
    assert_eq!(trade.summary, "Option trades");
    let greeks = after.iter().find(|m| m.operation_id == "option_history_greeks_all").unwrap();
    assert_eq!(greeks.min_tier, Some(Tier::Pro));
    assert_eq!(greeks.summary, "");
    let m = EndpointMeta {
        operation_id: "zz_new".into(),
        summary: "s".into(),
        description: String::new(),
        tag: String::new(),
        min_tier: None,
    };
    install_runtime_meta(&mut table, vec![m.copy(), m]);
    let c = catalogue(&table);
    assert_eq!(c.len(), 5);
    assert_eq!(c[4].operation_id, "zz_new");
    assert!(c.windows(2).all(|w| w[0].operation_id < w[1].operation_id));
}

#[test]
fn the_plan_view_shows_free_for_a_connected_unknown_class() {
    let tiers = UserTiers {
        stock: Tier::Unknown,
        options: Tier::Pro,
        indices: Tier::Value,
        interest_rate: Tier::Unknown,
    };
    let s = tier_status(&tiers, true);
    assert_eq!(s.stock, "Free");
    assert_eq!(s.options, "Pro");
    assert_eq!(s.classes.len(), 4);
    assert_eq!(s.classes[1].label, "Options");
    assert!(s.classes[1].at_max);
    assert_eq!(s.total_workers, 8);
    assert!(s.upgrade_url.starts_with("https://"));
    let pre = tier_status(&tiers, false);
    assert_eq!(pre.stock, "Unknown");
    assert_eq!(normalize(Tier::Unknown, true), Tier::Free);
    assert_eq!(normalize(Tier::Unknown, false), Tier::Unknown);
    assert_eq!(PoolPerClass::from_tiers(&tiers).option, 8);
    assert_eq!(PoolPerClass::from_tiers(&tiers).pool_size(), 8);
    assert_eq!(PoolPerClass::from_tiers(&tiers).pool_size() as usize, tiers.in_flight_budget());
}

#[test]
fn wildcards_and_typed_dates() {
    assert!(is_wildcard(""));
    assert!(is_wildcard("*"));
    assert!(!is_wildcard("20240119"));
    assert_eq!(parse_ymd("2024-01-02"), Date::from_ymd(2024, 1, 2));
    assert_eq!(parse_ymd("20240102"), Date::from_ymd(2024, 1, 2));
    assert_eq!(parse_ymd("Jan 2"), None);
}

#[test]
fn the_preview_pages_through_batches() {
    // Ten rows from row 5, in batches of four.
    let a = next_page_step(0, 0, 4, 5, 10);
    assert_eq!(a, PageStep { start: 4, end: 4, stop: false, skipped: 4 });
    let b = next_page_step(4, 0, 4, 5, 10);
    assert_eq!(b, PageStep { start: 1, end: 4, stop: false, skipped: 8 });
    let c = next_page_step(8, 3, 4, 5, 10);
    assert_eq!(c, PageStep { start: 0, end: 4, stop: false, skipped: 12 });
    let d = next_page_step(12, 7, 4, 5, 10);
    assert_eq!(d, PageStep { start: 0, end: 3, stop: true, skipped: 12 });
}

#[test]
fn arguments_bind_to_the_endpoints_parameters() {
    let info = find_endpoint("stock_history_eod").expect("registered");
    assert_eq!(info.name, "stock_history_eod");
    assert!(find_endpoint("no_such_endpoint").is_none());
    let mut spec = EndpointSpec::new("stock_history_eod");
    for p in &info.params {
        spec = spec.arg(&p.name, "v".to_string());
    }
    let plan = plan_args(&spec).unwrap();
    assert_eq!(plan.missing, None);
    assert_eq!(plan.args.len(), info.params.len());
    for (a, p) in plan.args.iter().zip(info.params.iter()) {
        assert_eq!(a.0, p.name);
    }
    let bare = plan_args(&EndpointSpec::new("stock_history_eod")).unwrap();
    let first_required = info.params.iter().find(|p| p.required).map(|p| p.name.clone());
    assert_eq!(bare.missing, first_required);
    assert!(plan_args(&EndpointSpec::new("no_such_endpoint")).is_none());
}

#[test]
fn the_registry_is_listed_by_category_then_subcategory_then_name() {
    let all = all_endpoints();
    assert!(!all.is_empty());
    for w in all.windows(2) {
        let a = (&w[0].category, &w[0].subcategory, &w[0].name);
        let b = (&w[1].category, &w[1].subcategory, &w[1].name);
        assert!(a <= b);
    }
    let stocks = endpoints_by_category("stock");
    assert!(stocks.iter().all(|e| e.category == "stock"));
    assert_eq!(stocks.len(), all.iter().filter(|e| e.category == "stock").count());
}

#[test]
fn the_full_listing_names_each_registered_endpoint_once() {
    let all = all_endpoints();
    let mut names: Vec<&str> = all.iter().map(|e| e.name.as_str()).collect();
    names.sort();
    names.dedup();
    assert_eq!(names.len(), all.len());
    for e in &all {
        assert_eq!(find_endpoint(&e.name).map(|f| f.category), Some(e.category.clone()));
    }
    assert!(all.iter().any(|e| e.name == "stock_history_eod"));
}

fn paged(sizes: &[usize], offset: usize, limit: usize) -> Vec<usize> {
    let mut skipped = 0usize;
    let mut out = Vec::new();
    for &n in sizes {
        let step = next_page_step(skipped, out.len(), n, offset, limit);
        for r in step.start..step.end {
            out.push(skipped + r);
        }
        if step.stop {
            break;
        }
        skipped = step.skipped;
    }
    out
}

#[test]
fn paging_batch_by_batch_emits_exactly_the_window() {
    assert_eq!(paged(&[3, 4, 5], 2, 6), (2..8).collect::<Vec<_>>());
    assert_eq!(paged(&[3, 4, 5], 0, 100), (0..12).collect::<Vec<_>>());
    assert_eq!(paged(&[3, 4, 5], 20, 5), Vec::<usize>::new());
    assert_eq!(paged(&[3, 0, 4], 3, 4), (3..7).collect::<Vec<_>>());
    assert_eq!(paged(&[3, 4], 1, 0), Vec::<usize>::new());
    assert_eq!(paged(&[4, 4, 4], 4, 4), (4..8).collect::<Vec<_>>());
}

#[test]
fn every_tiered_operation_has_a_record_with_its_last_tier() {
    let doc = "paths:
  /stock/history/quote:
    x-min-subscription: value
    get:
      summary: Quotes
  /stock/history/quote:
    x-min-subscription: pro
  /stock/list/dates:
    get:
      summary: Dates
";
    let (tiers, metas) = parse_full_metadata(doc);
    assert_eq!(tiers.len(), 2);
    assert!(metas.iter().all(|m| m.min_tier.is_some()));
    for (op, _) in &tiers {
        let last = tiers.iter().rev().find(|(o, _)| o == op).map(|(_, t)| *t);
        assert!(metas.iter().any(|m| &m.operation_id == op && m.min_tier == last));
    }
    assert_eq!(metas.len(), 1);
    assert_eq!(metas[0].min_tier, Some(Tier::Pro));
    assert_eq!(metas[0].summary, "Quotes");
}
