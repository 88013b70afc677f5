use tdds_core::coverage::{
    covered_days, dataset_file_name, dates_from_list, dates_within, missing, read_file_name,
    CoverageScan,
};
use tdds_core::dates::Date;
use tdds_core::format::OutputFormat;
use tdds_core::spec::{DataKind, DataSpec};

fn ymd(y: i32, m: u32, d: u32) -> Date {
    Date::from_ymd(y, m, d).unwrap()
}

fn eod() -> DataKind {
    DataKind::parse("stock_history_eod").expect("registry knows the dataset")
}

#[test]
fn a_range_file_covers_its_whole_window() {
    // Mon 2024-01-01 .. Fri 2024-01-12: ten weekdays in one file.
    let name = "spy_stock_history_eod_to20240112_20240101.parquet";
    let file = read_file_name(name).expect("a dataset file name");
    let mut scan = CoverageScan::new();
    assert!(scan.has_room(&eod(), &file.symbol, 1));
    scan.record(eod(), file, 1, format!("stock_history_eod/{name}"));
    let cov = scan.finish();
    assert_eq!(cov.len(), 1);
    assert_eq!(cov[0].dates.len(), 10, "every weekday in the window");
    assert_eq!(cov[0].files, 1, "but it is still one file");
    assert_eq!(cov[0].dates.last(), Some(&ymd(2024, 1, 12)));
}

#[test]
fn a_file_name_reads_as_symbol_date_window_and_extension() {
    let f = read_file_name("spy_stock_history_eod_to20240112_20240101.parquet").unwrap();
    assert_eq!(f.symbol, "SPY");
    assert_eq!(f.date, ymd(2024, 1, 1));
    assert_eq!(f.range_end, Some(ymd(2024, 1, 12)));
    assert_eq!(f.ext, "parquet");

    let g = read_file_name("qqq_option_history_trade_exp20240119_20240102.csv").unwrap();
    assert_eq!(g.symbol, "QQQ");
    assert_eq!(g.date, ymd(2024, 1, 2));
    assert_eq!(g.range_end, None);
    assert_eq!(g.ext, "csv");

    // The last dot splits off the extension.
    let h = read_file_name("a.b_kind_x_20240103.json").unwrap();
    assert_eq!(h.symbol, "A.B");
    assert_eq!(h.ext, "json");
}

#[test]
fn names_that_are_not_dataset_files_are_skipped() {
    assert!(read_file_name("notes").is_none());
    assert!(read_file_name("spy_20240101.parquet").is_none());
    assert!(read_file_name("spy_stock_history_eod_2024.parquet").is_none());
    assert!(read_file_name("spy_stock_history_eod_20241301.parquet").is_none());
    // A `to` qualifier that is not a date leaves the file a single day.
    let f = read_file_name("spy_stock_history_eod_tomorrow_20240101.parquet").unwrap();
    assert_eq!(f.range_end, None);
}

#[test]
fn a_range_ending_before_its_start_is_a_single_day() {
    assert_eq!(covered_days(ymd(2024, 1, 5), Some(ymd(2024, 1, 1))), vec![ymd(2024, 1, 5)]);
    assert_eq!(covered_days(ymd(2024, 1, 6), None), vec![ymd(2024, 1, 6)]);
    // A weekend start of a range is skipped; the range's weekdays remain.
    assert_eq!(
        covered_days(ymd(2024, 1, 6), Some(ymd(2024, 1, 9))),
        vec![ymd(2024, 1, 8), ymd(2024, 1, 9)]
    );
}

#[test]
fn the_scan_groups_by_dataset_and_symbol_in_key_order() {
    let trade = DataKind::parse("stock_history_trade").expect("registry knows the dataset");
    let mut scan = CoverageScan::new();
    for (kind, name, bytes) in [
        (eod(), "spy_stock_history_eod_20240103.parquet", 10u64),
        (eod(), "aapl_stock_history_eod_20240102.csv", 20),
        (eod(), "SPY_stock_history_eod_20240102.json", 30),
        (trade, "spy_stock_history_trade_20240102.parquet", 40),
        (eod(), "spy_stock_history_eod_20240103.parquet", 50),
    ] {
        let f = read_file_name(name).unwrap();
        scan.record(kind, f, bytes, name.to_string());
    }
    let cov = scan.finish();
    let keys: Vec<(String, String)> =
        cov.iter().map(|c| (c.kind.as_str().to_string(), c.symbol.clone())).collect();
    assert_eq!(
        keys,
        vec![
            ("stock_history_eod".to_string(), "AAPL".to_string()),
            ("stock_history_eod".to_string(), "SPY".to_string()),
            ("stock_history_trade".to_string(), "SPY".to_string()),
        ]
    );
    let spy = &cov[1];
    assert_eq!(spy.dates, vec![ymd(2024, 1, 2), ymd(2024, 1, 3)]);
    assert_eq!(spy.files, 3);
    assert_eq!(spy.bytes, 90);
    // The first file whose extension names a format decides it.
    assert_eq!(spy.format, OutputFormat::Parquet);
    // The latest date's most recently recorded file is the one to open.
    assert_eq!(
        spy.latest_path.as_deref(),
        Some("spy_stock_history_eod_20240103.parquet")
    );
    assert_eq!(cov[0].format, OutputFormat::Csv);
}

#[test]
fn an_unknown_extension_leaves_the_format_to_the_default() {
    let mut scan = CoverageScan::new();
    let f = read_file_name("spy_stock_history_eod_20240103.bin").unwrap();
    scan.record(eod(), f, 1, "x".to_string());
    let cov = scan.finish();
    assert_eq!(cov[0].format, OutputFormat::Parquet);
}

#[test]
fn missing_days_are_server_days_in_the_window_not_on_disk() {
    let server = vec![ymd(2024, 1, 2), ymd(2024, 1, 3), ymd(2024, 1, 4), ymd(2024, 1, 5), ymd(2024, 1, 8)];
    let have = vec![ymd(2024, 1, 3), ymd(2024, 1, 8)];
    assert_eq!(
        missing(&server, &have, ymd(2024, 1, 3), ymd(2024, 1, 8)),
        vec![ymd(2024, 1, 4), ymd(2024, 1, 5)]
    );
    assert!(missing(&server, &server, ymd(2024, 1, 1), ymd(2024, 12, 31)).is_empty());
    assert!(missing(&server, &[], ymd(2024, 2, 1), ymd(2024, 1, 1)).is_empty());
}

#[test]
fn server_date_lists_read_with_or_without_dashes() {
    let raw = vec![
        "2024-01-02".to_string(),
        "20240103".to_string(),
        "garbage".to_string(),
        "2024-01-10".to_string(),
    ];
    assert_eq!(dates_from_list(&raw), vec![ymd(2024, 1, 2), ymd(2024, 1, 3), ymd(2024, 1, 10)]);
    assert_eq!(dates_within(&raw, ymd(2024, 1, 3), ymd(2024, 1, 9)), vec![ymd(2024, 1, 3)]);
}

#[test]
fn a_work_unit_is_written_under_its_stem() {
    let spec = DataSpec {
        kind: eod(),
        symbol: "SPY".to_string(),
        date: ymd(2024, 1, 2),
        interval: None,
        expiration: "*".to_string(),
        strike: "*".to_string(),
        right: "both".to_string(),
    };
    let name = dataset_file_name(&spec, "parquet");
    assert_eq!(name, format!("{}.parquet", spec.file_stem()));
    assert!(name.ends_with("_20240102.parquet"));
    let f = read_file_name(&name).expect("the scan reads back what the writer names");
    assert_eq!(f.date, ymd(2024, 1, 2));
    assert_eq!(f.symbol, "SPY");
}
