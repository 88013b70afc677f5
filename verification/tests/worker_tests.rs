use tdds_core::worker::{
    completion, effective_workers, is_request_error, Completion, Outcome, PoolOptions, Progress,
};

#[test]
fn no_cap_uses_the_whole_budget() {
    assert_eq!(effective_workers(8, None), 8);
}

#[test]
fn a_cap_below_the_budget_leaves_headroom() {
    assert_eq!(effective_workers(8, Some(3)), 3);
}

#[test]
fn a_cap_above_the_budget_cannot_exceed_the_plan() {
    assert_eq!(effective_workers(8, Some(64)), 8);
}

#[test]
fn there_is_always_at_least_one_worker() {
    assert_eq!(effective_workers(8, Some(0)), 1);
    assert_eq!(effective_workers(0, None), 1);
}

#[test]
fn default_options_use_the_whole_budget_and_split_failures() {
    let o = PoolOptions::default();
    assert_eq!(o.max_concurrency, None);
    assert!(o.split_failed_windows);
}

#[test]
fn request_errors_are_recognised_in_any_case() {
    assert!(is_request_error("Missing Required Arg 'symbol' for endpoint 'x'"));
    assert!(is_request_error("invoke x: UNKNOWN ENDPOINT"));
    assert!(is_request_error("InvalidArgument: bad date"));
    assert!(is_request_error("cannot specify both"));
    assert!(!is_request_error("connection reset by peer"));
    assert!(!is_request_error(""));
}

#[test]
fn an_outcome_records_rows_and_bytes() {
    assert_eq!(Outcome::Written { rows: 3, bytes: 10 }.recorded(), Some((3, 10)));
    assert_eq!(Outcome::AlreadyOnDisk { bytes: 7 }.recorded(), Some((0, 7)));
    assert_eq!(Outcome::NoData.recorded(), None);
}

#[test]
fn a_finished_task_closes_its_row() {
    assert_eq!(completion(None), Completion::Failed);
    assert_eq!(completion(Some(Outcome::NoData)), Completion::Empty);
    assert_eq!(
        completion(Some(Outcome::AlreadyOnDisk { bytes: 5 })),
        Completion::Done { rows: 0, bytes: 5 }
    );
    assert_eq!(
        completion(Some(Outcome::Written { rows: 2, bytes: 9 })),
        Completion::Done { rows: 2, bytes: 9 }
    );
}

#[test]
fn progress_counts_each_outcome() {
    let mut p = Progress::new();
    p.start_task();
    p.start_task();
    p.start_task();
    p.start_task();
    assert_eq!(p.running, 4);
    p.finish_task(Some(Outcome::Written { rows: 100, bytes: 2048 }));
    p.finish_task(Some(Outcome::AlreadyOnDisk { bytes: 10 }));
    p.finish_task(Some(Outcome::NoData));
    p.finish_task(None);
    assert_eq!(p.running, 0);
    assert_eq!(p.completed, 2);
    assert_eq!(p.failed, 1);
    assert_eq!(p.rows_written, 100);
    assert_eq!(p.bytes_written, 2048);
    // Running never goes below zero.
    p.finish_task(None);
    assert_eq!(p.running, 0);
    assert_eq!(p.failed, 2);
}
