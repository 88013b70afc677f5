use chrono::TimeZone;
use tdds_core::dates::Date;
use tdds_core::format::OutputFormat;
use tdds_core::schedule::{
    last_available_session, Cadence, LocalClock, Schedule, Weekday, SCHEDULE_MIN_REFIRE_SECS,
};
use tdds_core::spec::DataKind;

fn schedule(cron_kind: &str, at_time: &str) -> Schedule {
    Schedule {
        id: "s1".into(),
        name: "test".into(),
        kind: DataKind::parse("stock_history_eod").expect("registry knows the dataset"),
        symbol: "QQQ".into(),
        format: OutputFormat::Parquet,
        cron_kind: cron_kind.into(),
        at_time: at_time.into(),
        last_fired_at: None,
        paused: false,
        created_at: 0,
    }
}

/// `now` at the given local wall-clock time, whatever timezone the test
/// host runs in.
fn local(y: i32, m: u32, d: u32, hh: u32, mm: u32) -> i64 {
    chrono::Local
        .with_ymd_and_hms(y, m, d, hh, mm, 0)
        .single()
        .expect("unambiguous local time")
        .timestamp()
}

fn et(y: i32, m: u32, d: u32, h: u32, min: u32) -> i64 {
    chrono_tz::America::New_York
        .with_ymd_and_hms(y, m, d, h, min, 0)
        .single()
        .expect("unambiguous local time")
        .timestamp()
}

fn ymd(y: i32, m: u32, d: u32) -> Date {
    Date::from_ymd(y, m, d).unwrap()
}

#[test]
fn cadence_parses_every_documented_spelling() {
    assert_eq!(Cadence::parse("daily"), Cadence::Daily);
    assert_eq!(Cadence::parse("weekdays"), Cadence::Weekdays);
    assert_eq!(Cadence::parse("weekly:mon"), Cadence::Weekly(Weekday::Mon));
    assert_eq!(Cadence::parse("WEEKLY:FRI"), Cadence::Weekly(Weekday::Fri));
    assert_eq!(Cadence::parse("hourly"), Cadence::Daily);
}

#[test]
fn weekdays_does_not_fire_at_the_weekend() {
    let s = schedule("weekdays", "17:30");
    assert!(s.should_fire(local(2026, 9, 18, 18, 0)));
    assert!(!s.should_fire(local(2026, 9, 19, 18, 0)));
}

#[test]
fn weekly_fires_only_on_its_named_day() {
    let s = schedule("weekly:mon", "09:00");
    assert!(s.should_fire(local(2026, 9, 21, 9, 30)));
    assert!(!s.should_fire(local(2026, 9, 22, 9, 30)));
}

#[test]
fn fire_time_is_read_in_local_time_not_utc() {
    let s = schedule("daily", "17:30");
    assert!(!s.should_fire(local(2026, 9, 21, 17, 29)));
    assert!(s.should_fire(local(2026, 9, 21, 17, 31)));
}

#[test]
fn a_recent_firing_suppresses_the_next_one() {
    let now = local(2026, 9, 21, 18, 0);
    let mut s = schedule("daily", "17:30");
    s.last_fired_at = Some(now - 60);
    assert!(!s.should_fire(now));
    s.last_fired_at = Some(now - SCHEDULE_MIN_REFIRE_SECS - 1);
    assert!(s.should_fire(now));
}

#[test]
fn paused_and_malformed_rows_never_fire() {
    let now = local(2026, 9, 21, 18, 0);
    let mut paused = schedule("daily", "17:30");
    paused.paused = true;
    assert!(!paused.should_fire(now));
    assert!(!schedule("daily", "half past five").should_fire(now));
}

#[test]
fn the_decision_reads_the_clock_it_is_given() {
    // 2026-09-19 is a Saturday, 2026-09-21 a Monday.
    let s = schedule("weekdays", "17:30");
    let saturday = LocalClock { date: ymd(2026, 9, 19), secs: 18 * 3600 };
    let monday_early = LocalClock { date: ymd(2026, 9, 21), secs: 17 * 3600 + 29 * 60 };
    let monday_late = LocalClock { date: ymd(2026, 9, 21), secs: 17 * 3600 + 30 * 60 };
    assert!(!s.should_fire_at(0, saturday));
    assert!(!s.should_fire_at(0, monday_early));
    assert!(s.should_fire_at(0, monday_late));
    let mut fired = schedule("weekdays", "17:30");
    fired.last_fired_at = Some(1_000_000);
    assert!(!fired.should_fire_at(1_000_000 + SCHEDULE_MIN_REFIRE_SECS, monday_late));
    assert!(fired.should_fire_at(1_000_000 + SCHEDULE_MIN_REFIRE_SECS + 1, monday_late));
}

#[test]
fn the_fire_time_reads_as_hours_and_minutes() {
    assert_eq!(schedule("daily", "17:30").at(), Some(17 * 3600 + 30 * 60));
    assert_eq!(schedule("daily", "25:00").at(), None);
    assert_eq!(schedule(" Weekdays ", "00:00").cadence(), Cadence::Weekdays);
    assert!(Cadence::Weekly(Weekday::Sun).covers(Weekday::Sun));
    assert!(!Cadence::Weekdays.covers(Weekday::Sat));
    assert!(Cadence::Daily.covers(Weekday::Sat));
}

#[test]
fn an_evening_fire_gets_todays_session() {
    assert_eq!(last_available_session(et(2026, 9, 22, 19, 30)), Some(ymd(2026, 9, 22)));
}

#[test]
fn a_fire_before_settlement_gets_the_previous_session() {
    assert_eq!(last_available_session(et(2026, 9, 22, 9, 0)), Some(ymd(2026, 9, 21)));
}

#[test]
fn a_monday_morning_fire_gets_friday_not_sunday() {
    let monday = et(2026, 9, 21, 8, 0);
    let got = last_available_session(monday).expect("a session exists");
    assert_eq!(got, ymd(2026, 9, 18));
    assert_eq!(Weekday::of(&got), Weekday::Fri);
}

#[test]
fn a_weekend_fire_rolls_back_to_friday() {
    for (day, hour) in [(19u32, 20u32), (20, 20)] {
        let got = last_available_session(et(2026, 9, day, hour, 0)).expect("a session exists");
        assert_eq!(Weekday::of(&got), Weekday::Fri, "day {day}");
    }
}

#[test]
fn the_boundary_is_eastern_regardless_of_machine_timezone() {
    assert_eq!(last_available_session(et(2026, 9, 22, 17, 59)), Some(ymd(2026, 9, 21)));
    assert_eq!(last_available_session(et(2026, 9, 22, 18, 1)), Some(ymd(2026, 9, 22)));
}

#[test]
fn an_instant_chrono_cannot_place_has_no_session() {
    assert_eq!(last_available_session(i64::MAX), None);
    assert_eq!(last_available_session(i64::MIN), None);
}

#[test]
fn a_firing_queues_the_available_session_for_every_contract() {
    let s = schedule("daily", "17:30");
    let spec = s.fire_spec(et(2026, 9, 21, 8, 0)).expect("a session exists");
    assert_eq!(spec.date, ymd(2026, 9, 18));
    assert_eq!(spec.kind.as_str(), "stock_history_eod");
    assert_eq!(spec.symbol, "QQQ");
    assert_eq!(spec.interval, None);
    assert_eq!((spec.expiration.as_str(), spec.strike.as_str(), spec.right.as_str()), ("*", "*", "both"));
    assert_eq!(s.fire_label(&spec.date), "schedule:s1:20260918");
    assert!(s.fire_spec(i64::MAX).is_none());
}

#[test]
fn the_machine_clock_reading_lies_within_a_day() {
    let l = tdds_core::schedule::LocalClock::machine(1_718_000_000).expect("placed");
    assert!(l.secs < 86_400);
    assert!(tdds_core::schedule::LocalClock::machine(i64::MAX).is_none());
}

#[test]
fn a_schedule_due_at_every_reading_fires() {
    let s = schedule("daily", "00:00");
    assert!(s.should_fire(1_718_000_000));
    assert!(s.should_fire(0));
    assert!(!s.should_fire(i64::MAX));
}
