//! Recurring scheduled downloads: on which days a schedule runs, whether
//! it is due, and which trading session a firing asks for.
//!
//! A schedule's `at_time` is read on the machine's own clock; which
//! session has been published is an Eastern-time question. The caller
//! supplies the local reading of the clock; the Eastern one is chrono-tz's.

use vstd::prelude::*;

use chrono::{Datelike, Offset, Timelike};

use crate::dates::{chrono_ymd, is_weekend, prev_day, weekday_of, Date};
use crate::format::OutputFormat;
use crate::spec::{default_expiration, default_right, default_strike, DataKind, DataSpec};
use crate::text::{ascii_lower_vec, chars_of, eq_lit, fold_label, fold_label_exec, push_str, starts_with, starts_with_lit, string_of, suffix_from, trim, trim_exec};
use crate::text::{ascii_lower, ascii_lower_seq, is_ws, lemma_fold_word, lemma_trim_of_trimmed};

verus! {

broadcast use vstd::string::group_string_axioms;

/// Minimum seconds between two firings of one schedule: 23 hours, which
/// keeps daily and weekday rules safe across daylight-saving changes.
pub const SCHEDULE_MIN_REFIRE_SECS: i64 = 82800;

/// A session's data is written upstream by 18:00 Eastern, well after the
/// 16:00 close and the 16:15 index close (seconds after midnight).
pub const SESSION_AVAILABLE_AFTER_SECS: u32 = 64800;

#[derive(Debug, Clone, Copy, PartialEq, Eq, Structural)]
pub enum Weekday {
    Mon,
    Tue,
    Wed,
    Thu,
    Fri,
    Sat,
    Sun,
}

impl Weekday {
    /// Monday = 0 through Sunday = 6.
    pub open spec fn index(self) -> int {
        match self {
            Weekday::Mon => 0,
            Weekday::Tue => 1,
            Weekday::Wed => 2,
            Weekday::Thu => 3,
            Weekday::Fri => 4,
            Weekday::Sat => 5,
            Weekday::Sun => 6,
        }
    }

    /// The weekday of `date`.
    pub fn of(date: &Date) -> (w: Weekday)
        ensures
            w.index() == weekday_of(date.day()),
    {
        match date.weekday() {
            0 => Weekday::Mon,
            1 => Weekday::Tue,
            2 => Weekday::Wed,
            3 => Weekday::Thu,
            4 => Weekday::Fri,
            5 => Weekday::Sat,
            _ => Weekday::Sun,
        }
    }
}

/// Which days a schedule runs on.
#[derive(Debug, Clone, Copy, PartialEq, Eq, Structural)]
pub enum Cadence {
    /// Every day.
    Daily,
    /// Monday through Friday.
    Weekdays,
    /// One named weekday, e.g. `weekly:mon`.
    Weekly(Weekday),
}

/// The weekday a `weekly:` suffix names (already trimmed and
/// lower-cased).
pub open spec fn weekday_name(d: Seq<char>) -> Option<Weekday> {
    if d == "mon"@ || d == "monday"@ {
        Some(Weekday::Mon)
    } else if d == "tue"@ || d == "tuesday"@ {
        Some(Weekday::Tue)
    } else if d == "wed"@ || d == "wednesday"@ {
        Some(Weekday::Wed)
    } else if d == "thu"@ || d == "thursday"@ {
        Some(Weekday::Thu)
    } else if d == "fri"@ || d == "friday"@ {
        Some(Weekday::Fri)
    } else if d == "sat"@ || d == "saturday"@ {
        Some(Weekday::Sat)
    } else if d == "sun"@ || d == "sunday"@ {
        Some(Weekday::Sun)
    } else {
        None
    }
}

fn weekday_name_exec(d: &[char]) -> (r: Option<Weekday>)
    ensures
        r == weekday_name(d@),
{
    if eq_lit(d, "mon") || eq_lit(d, "monday") {
        Some(Weekday::Mon)
    } else if eq_lit(d, "tue") || eq_lit(d, "tuesday") {
        Some(Weekday::Tue)
    } else if eq_lit(d, "wed") || eq_lit(d, "wednesday") {
        Some(Weekday::Wed)
    } else if eq_lit(d, "thu") || eq_lit(d, "thursday") {
        Some(Weekday::Thu)
    } else if eq_lit(d, "fri") || eq_lit(d, "friday") {
        Some(Weekday::Fri)
    } else if eq_lit(d, "sat") || eq_lit(d, "saturday") {
        Some(Weekday::Sat)
    } else if eq_lit(d, "sun") || eq_lit(d, "sunday") {
        Some(Weekday::Sun)
    } else {
        None
    }
}

impl Cadence {
    /// `daily` | `weekdays` | `weekly:<mon..sun>`, compared after trimming
    /// and ASCII lower-casing. Anything unrecognised runs daily:
    /// over-running is visible and fixable, never running is not.
    pub open spec fn from_text(raw: Seq<char>) -> Cadence {
        let t = fold_label(raw);
        if starts_with(t, "weekly:"@) {
            match weekday_name(trim(t.skip("weekly:"@.len() as int))) {
                Some(w) => Cadence::Weekly(w),
                None => Cadence::Daily,
            }
        } else if t == "weekdays"@ {
            Cadence::Weekdays
        } else {
            Cadence::Daily
        }
    }

    pub fn parse(raw: &str) -> (c: Cadence)
        ensures
            c == Cadence::from_text(raw@),
    {
        let t = fold_label_exec(raw);
        let t = t.as_slice();
        if starts_with_lit(t, "weekly:") {
            let rest = suffix_from(t, chars_of("weekly:").len());
            let day = trim_exec(rest.as_slice());
            match weekday_name_exec(day.as_slice()) {
                Some(w) => Cadence::Weekly(w),
                None => Cadence::Daily,
            }
        } else if eq_lit(t, "weekdays") {
            Cadence::Weekdays
        } else {
            Cadence::Daily
        }
    }

    pub open spec fn includes(self, day: Weekday) -> bool {
        match self {
            Cadence::Daily => true,
            Cadence::Weekdays => day != Weekday::Sat && day != Weekday::Sun,
            Cadence::Weekly(w) => day == w,
        }
    }

    /// Does this cadence include `day`?
    pub fn covers(self, day: Weekday) -> (b: bool)
        ensures
            b == self.includes(day),
    {
        match self {
            Cadence::Daily => true,
            Cadence::Weekdays => !(day == Weekday::Sat || day == Weekday::Sun),
            Cadence::Weekly(w) => day == w,
        }
    }
}

/// Seconds after midnight chrono's `NaiveTime::parse_from_str(s, "%H:%M")`
/// reads from `s`, or `None` when it rejects `s`.
pub uninterp spec fn chrono_parse_hm(s: Seq<char>) -> Option<int>;

/// `NaiveTime::parse_from_str(s, "%H:%M")`, in seconds after midnight.
/// An hour and a minute chrono accepted lie within one day.
#[verifier::external_body]
fn parse_hm(s: &str) -> (r: Option<u32>)
    ensures
        r matches Some(t) ==> chrono_parse_hm(s@) == Some(t as int) && t < 86400,
        r is None ==> chrono_parse_hm(s@) is None,
{
    chrono::NaiveTime::parse_from_str(s, "%H:%M").ok().map(|t| t.num_seconds_from_midnight())
}

/// The English name of a weekday.
pub open spec fn day_name(w: Weekday) -> Seq<char> {
    seq!["monday"@, "tuesday"@, "wednesday"@, "thursday"@, "friday"@, "saturday"@, "sunday"@][w.index()]
}

/// `weekly:` and then a lower-case word reads as the weekday that word
/// names, if any.
proof fn lemma_weekly_text(name: Seq<char>)
    requires
        name.len() > 0,
        forall|i: int| 0 <= i < name.len() ==> 'a' <= #[trigger] name[i] <= 'z',
    ensures
        Cadence::from_text("weekly:"@ + name) == (match weekday_name(name) {
            Some(w) => Cadence::Weekly(w),
            None => Cadence::Daily,
        }),
{
    reveal_strlit("weekly:");
    let x = "weekly:"@ + name;
    assert(x.len() == name.len() + 7);
    assert forall|i: int| 0 <= i < x.len() implies !is_ws(#[trigger] x[i]) && ascii_lower(x[i]) == x[i] by {
        if i >= 7 {
            assert(x[i] == name[i - 7]);
        }
    }
    assert(ascii_lower_seq(x) =~= x);
    lemma_fold_word(x, x);
    assert(x.take(7) =~= "weekly:"@);
    assert(x.skip(7) =~= name);
    assert(!is_ws(name[0]) && !is_ws(name.last()));
    lemma_trim_of_trimmed(name);
}

/// `weekly:` followed by a weekday's name, or by its first three
/// letters, runs on that weekday.
pub proof fn law_weekly_names_its_day(w: Weekday)
    ensures
        Cadence::from_text("weekly:"@ + day_name(w)) == Cadence::Weekly(w),
        Cadence::from_text("weekly:"@ + day_name(w).take(3)) == Cadence::Weekly(w),
{
    reveal_strlit("mon");
    reveal_strlit("monday");
    reveal_strlit("tue");
    reveal_strlit("tuesday");
    reveal_strlit("wed");
    reveal_strlit("wednesday");
    reveal_strlit("thu");
    reveal_strlit("thursday");
    reveal_strlit("fri");
    reveal_strlit("friday");
    reveal_strlit("sat");
    reveal_strlit("saturday");
    reveal_strlit("sun");
    reveal_strlit("sunday");
    let names = seq![
        "mon"@, "monday"@, "tue"@, "tuesday"@, "wed"@, "wednesday"@, "thu"@, "thursday"@,
        "fri"@, "friday"@, "sat"@, "saturday"@, "sun"@, "sunday"@,
    ];
    assert forall|a: int, b: int| 0 <= a < 14 && 0 <= b < 14 && a != b implies #[trigger] names[a] != #[trigger] names[b] by {
        let x = names[a];
        let y = names[b];
        if x == y {
            assert(x.len() == y.len() && x[0] == y[0] && x[1] == y[1]);
        }
    }
    let full = day_name(w);
    let short = full.take(3);
    let k = w.index();
    assert(full == names[2 * k + 1]);
    assert(short =~= names[2 * k]);
    assert forall|i: int| 0 <= i < full.len() implies 'a' <= #[trigger] full[i] <= 'z' by {}
    assert forall|i: int| 0 <= i < short.len() implies 'a' <= #[trigger] short[i] <= 'z' by {
        assert(short[i] == full[i]);
    }
    lemma_weekly_text(full);
    lemma_weekly_text(short);
}

/// The machine's clock at some instant: its calendar date and seconds
/// after midnight on it.
#[derive(Debug, Clone, Copy)]
pub struct LocalClock {
    pub date: Date,
    pub secs: u32,
}

/// A row says "on these days, at HH:MM, queue this dataset".
#[derive(Debug)]
pub struct Schedule {
    pub id: String,
    pub name: String,
    pub kind: DataKind,
    pub symbol: String,
    pub format: OutputFormat,
    /// Which days the schedule runs on; see [`Cadence`].
    pub cron_kind: String,
    /// `HH:MM` on the machine's clock.
    pub at_time: String,
    pub last_fired_at: Option<i64>,
    pub paused: bool,
    pub created_at: i64,
}

impl Schedule {
    /// The fire time, in seconds after midnight.
    pub fn at(&self) -> (r: Option<u32>)
        ensures
            r matches Some(t) ==> chrono_parse_hm(self.at_time@) == Some(t as int),
            r is None ==> chrono_parse_hm(self.at_time@) is None,
    {
        parse_hm(self.at_time.as_str())
    }

    pub fn cadence(&self) -> (c: Cadence)
        ensures
            c == Cadence::from_text(self.cron_kind@),
    {
        Cadence::parse(self.cron_kind.as_str())
    }

    /// Due at instant `now` (Unix seconds), read as `local` on the
    /// machine's clock: not paused, the fire time parses, the local day is
    /// one the cadence covers, the local time of day has reached the fire
    /// time, and the row has not fired within the refire window.
    pub open spec fn due(&self, now: i64, local: LocalClock) -> bool {
        &&& !self.paused
        &&& chrono_parse_hm(self.at_time@) matches Some(t)
        &&& exists|w: Weekday| w.index() == weekday_of(local.date.day()) && #[trigger] Cadence::from_text(self.cron_kind@).includes(w)
        &&& local.secs >= t
        &&& match self.last_fired_at {
            None => true,
            Some(prev) => now - prev > SCHEDULE_MIN_REFIRE_SECS,
        }
    }

    /// Should this schedule fire at `now`, given the machine clock reads
    /// `local` then? See [`Schedule::due`].
    pub fn should_fire_at(&self, now: i64, local: LocalClock) -> (b: bool)
        ensures
            b == self.due(now, local),
    {
        if self.paused {
            return false;
        }
        let time = match self.at() {
            Some(t) => t,
            None => {
                return false;
            },
        };
        let w = Weekday::of(&local.date);
        if !self.cadence().covers(w) {
            proof {
                assert forall|v: Weekday| v.index() == weekday_of(local.date.day()) implies !#[trigger] Cadence::from_text(self.cron_kind@).includes(v) by {
                    assert(v == w);
                }
            }
            return false;
        }
        if local.secs < time {
            return false;
        }
        match self.last_fired_at {
            None => true,
            Some(prev) => (now as i128) - (prev as i128) > (SCHEDULE_MIN_REFIRE_SECS as i128),
        }
    }
}

/// The UTC calendar day of Unix second `ts` as a day number, counted as
/// chrono counts them from the common era (1970-01-01 is day 719163).
pub open spec fn utc_day(ts: int) -> int {
    ts / 86400 + 719163
}

/// chrono can place Unix second `ts` on any clock: its UTC day and the
/// days either side (where a wall clock less than a day off UTC may
/// fall) are dates chrono represents.
pub open spec fn placeable(ts: int) -> bool {
    let d = utc_day(ts);
    &&& i32::MIN <= d - 1
    &&& d + 1 <= i32::MAX
    &&& chrono_ymd(d - 1) is Some
    &&& chrono_ymd(d) is Some
    &&& chrono_ymd(d + 1) is Some
}

/// Wall-clock seconds since 1970-01-01 of a reading on day number `day`
/// at `secs` after midnight.
pub open spec fn wall_secs(day: int, secs: int) -> int {
    (day - 719163) * 86400 + secs
}

/// A wall clock reading `day` at `secs` is one for instant `ts` in some
/// zone: it differs from UTC by less than a day, as every chrono
/// `FixedOffset` does.
pub open spec fn reads_near(ts: int, day: int, secs: int) -> bool {
    -86400 < wall_secs(day, secs) - ts < 86400
}

/// The machine's wall clock at Unix second `ts` (chrono's `Local` zone),
/// as a day number and seconds after midnight; `None` where chrono cannot
/// place the instant or its local wall time. The reading depends on the
/// machine's time zone: beyond being a date chrono represents and a time
/// within one day, it is `ts` shifted by the zone's offset, which chrono
/// bounds to less than a day either way. chrono places every
/// instant whose UTC day and the days either side it represents: its
/// `from_timestamp` needs the UTC day, and adding the zone's offset (less
/// than a day) moves at most one day either way. chrono can panic only
/// on malformed zone data on the machine (an offset of a day or more),
/// never because of `ts`.
#[verifier::external_body]
fn machine_clock(ts: i64) -> (r: Option<(i32, u32)>)
    ensures
        r matches Some(p) ==> chrono_ymd(p.0 as int) is Some && p.1 < 86400,
        r matches Some(p) ==> reads_near(ts as int, p.0 as int, p.1 as int),
        placeable(ts as int) ==> r is Some,
{
    let t = chrono::DateTime::from_timestamp(ts, 0)?;
    let offset = t.with_timezone(&chrono::Local).offset().fix();
    let l = t.naive_utc().checked_add_offset(offset)?;
    Some((l.date().num_days_from_ce(), l.time().num_seconds_from_midnight()))
}

impl LocalClock {
    /// The machine's clock at Unix second `ts`: a date chrono represents
    /// and a time within that day, less than a day off `ts` in UTC; `None`
    /// where chrono cannot place the instant. Which reading comes back
    /// depends on the machine's time zone; [`Schedule::should_fire_at`] on
    /// it is exact.
    pub fn machine(ts: i64) -> (r: Option<LocalClock>)
        ensures
            r matches Some(l) ==> chrono_ymd(l.date.day()) is Some && l.secs < 86400,
            r matches Some(l) ==> reads_near(ts as int, l.date.day(), l.secs as int),
            placeable(ts as int) ==> r is Some,
    {
        let (day, secs) = match machine_clock(ts) {
            Some(p) => p,
            None => {
                return None;
            },
        };
        match Date::from_day_number(day) {
            Some(date) => Some(LocalClock { date, secs }),
            None => None,
        }
    }
}

impl Schedule {
    /// Should this schedule fire at Unix second `now`, read on the
    /// machine's own clock ([`LocalClock::machine`])? It fires exactly
    /// where [`Schedule::due`] holds for that reading: for an instant
    /// chrono can place, the answer is the due test on a reading of a
    /// date chrono represents and a time within the day, less than a day
    /// off `now` in UTC; where it cannot place the instant, it does not
    /// fire.
    pub fn should_fire(&self, now: i64) -> (b: bool)
        ensures
            b ==> exists|local: LocalClock|
                reads_near(now as int, local.date.day(), local.secs as int) && self.due(now, local),
            placeable(now as int) ==> exists|local: LocalClock|
                chrono_ymd(local.date.day()) is Some && local.secs < 86400
                    && reads_near(now as int, local.date.day(), local.secs as int)
                    && b == self.due(now, local),
    {
        match LocalClock::machine(now) {
            Some(local) => self.should_fire_at(now, local),
            None => false,
        }
    }
}

/// The Eastern (America/New_York) calendar day and seconds after midnight
/// at Unix second `ts`, per chrono-tz; `None` when chrono cannot place the
/// instant.
pub uninterp spec fn new_york_local(ts: int) -> Option<(int, int)>;

/// `DateTime::from_timestamp(ts, 0)` viewed in `America/New_York`, as a
/// day number and seconds after midnight; `None` where chrono cannot
/// place the instant or its Eastern wall time. A date chrono produced is
/// one it can format. Every instant chrono can place (see
/// [`placeable`]) gets a reading, as for the machine's clock, and the
/// reading is within the day and less than a day off UTC.
#[verifier::external_body]
fn eastern_clock(ts: i64) -> (r: Option<(i32, u32)>)
    ensures
        r matches Some(p) ==> new_york_local(ts as int) == Some((p.0 as int, p.1 as int))
            && chrono_ymd(p.0 as int) is Some && p.1 < 86400 && reads_near(ts as int, p.0 as int, p.1 as int),
        r is None ==> new_york_local(ts as int) is None,
        placeable(ts as int) ==> r is Some,
{
    let t = chrono::DateTime::from_timestamp(ts, 0)?;
    let offset = t.with_timezone(&chrono_tz::America::New_York).offset().fix();
    let l = t.naive_utc().checked_add_offset(offset)?;
    Some((l.date().num_days_from_ce(), l.time().num_seconds_from_midnight()))
}

/// `d`, or the Friday before it when it falls on a weekend.
pub open spec fn weekday_on_or_before(d: int) -> Option<int> {
    if weekday_of(d) == 5 {
        prev_day(d)
    } else if weekday_of(d) == 6 {
        match prev_day(d) {
            Some(s) => prev_day(s),
            None => None,
        }
    } else {
        Some(d)
    }
}

/// The most recent session whose data is published as of Eastern day
/// `day` at `secs` after midnight: today from 18:00 on, else yesterday;
/// a weekend rolls back to Friday. Market holidays are not modelled.
pub open spec fn session_for(day: int, secs: int) -> Option<int> {
    let start = if secs >= SESSION_AVAILABLE_AFTER_SECS { Some(day) } else { prev_day(day) };
    match start {
        Some(s) => weekday_on_or_before(s),
        None => None,
    }
}

/// The session published as of Unix second `ts`.
pub open spec fn session_at(ts: int) -> Option<int> {
    match new_york_local(ts) {
        Some(p) => session_for(p.0, p.1),
        None => None,
    }
}

/// The most recent trading session whose data a schedule can expect to
/// find at Unix second `now`; see [`session_for`].
pub fn last_available_session(now: i64) -> (r: Option<Date>)
    ensures
        r matches Some(d) ==> session_at(now as int) == Some(d.day()),
        r is None ==> session_at(now as int) is None,
{
    let (day, secs) = match eastern_clock(now) {
        Some(p) => p,
        None => {
            return None;
        },
    };
    let today = match Date::from_day_number(day) {
        Some(d) => d,
        None => {
            return None;
        },
    };
    let mut date = if secs >= SESSION_AVAILABLE_AFTER_SECS {
        today
    } else {
        match today.pred() {
            Some(d) => d,
            None => {
                return None;
            },
        }
    };
    if date.weekday() == 5 {
        date = match date.pred() {
            Some(d) => d,
            None => {
                return None;
            },
        };
    } else if date.weekday() == 6 {
        date = match date.pred() {
            Some(d) => d,
            None => {
                return None;
            },
        };
        date = match date.pred() {
            Some(d) => d,
            None => {
                return None;
            },
        };
    }
    Some(date)
}

impl Schedule {
    /// The work unit a firing of this schedule at Unix second `now`
    /// queues: this schedule's dataset and symbol for the most recent
    /// session published by then (see [`session_at`]), every expiration,
    /// every strike, both rights, no interval; `None` when there is no
    /// such session.
    pub fn fire_spec(&self, now: i64) -> (r: Option<DataSpec>)
        ensures
            r is None <==> session_at(now as int) is None,
            r matches Some(spec) ==> {
                &&& spec.kind.name() == self.kind.name()
                &&& spec.symbol@ == self.symbol@
                &&& session_at(now as int) == Some(spec.date.day())
                &&& spec.interval is None
                &&& spec.expiration@ == "*"@
                &&& spec.strike@ == "*"@
                &&& spec.right@ == "both"@
            },
    {
        let date = match last_available_session(now) {
            Some(d) => d,
            None => {
                return None;
            },
        };
        Some(DataSpec {
            kind: self.kind.clone(),
            symbol: string_of(chars_of(self.symbol.as_str()).as_slice()),
            date,
            interval: None,
            expiration: default_expiration(),
            strike: default_strike(),
            right: default_right(),
        })
    }

    /// The batch a firing for session `date` is filed under:
    /// `schedule:<id>:<YYYYMMDD>`.
    pub fn fire_label(&self, date: &Date) -> (s: String)
        ensures
            chrono_ymd(date.day()) is Some,
            s@ == "schedule:"@ + self.id@ + ":"@ + chrono_ymd(date.day())->0,
    {
        let ymd = date.ymd8();
        let mut s = string_of(chars_of("schedule:").as_slice());
        push_str(&mut s, self.id.as_str());
        push_str(&mut s, ":");
        push_str(&mut s, ymd.as_str());
        s
    }
}

/// A paused schedule never fires.
pub proof fn law_paused_never_fires(s: Schedule, now: i64, local: LocalClock)
    requires
        s.paused,
    ensures
        !s.due(now, local),
{
}

/// A schedule whose fire time does not read as `HH:MM` never fires.
pub proof fn law_malformed_time_never_fires(s: Schedule, now: i64, local: LocalClock)
    requires
        chrono_parse_hm(s.at_time@) is None,
    ensures
        !s.due(now, local),
{
}

/// Within the refire window after a firing, a schedule does not fire
/// again.
pub proof fn law_recent_firing_suppresses(s: Schedule, now: i64, local: LocalClock, prev: i64)
    requires
        s.last_fired_at == Some(prev),
        now - prev <= SCHEDULE_MIN_REFIRE_SECS,
    ensures
        !s.due(now, local),
{
}

/// A `weekdays` schedule never fires on a Saturday or Sunday.
pub proof fn law_weekdays_skip_weekends(s: Schedule, now: i64, local: LocalClock)
    requires
        Cadence::from_text(s.cron_kind@) == Cadence::Weekdays,
        is_weekend(local.date.day()),
    ensures
        !s.due(now, local),
{
    assert forall|w: Weekday| w.index() == weekday_of(local.date.day()) implies !#[trigger] Cadence::from_text(
        s.cron_kind@,
    ).includes(w) by {
        assert(w == Weekday::Sat || w == Weekday::Sun);
    }
}

/// A weekly schedule fires only on its named day.
pub proof fn law_weekly_only_on_its_day(s: Schedule, now: i64, local: LocalClock, day: Weekday)
    requires
        Cadence::from_text(s.cron_kind@) == Cadence::Weekly(day),
        day.index() != weekday_of(local.date.day()),
    ensures
        !s.due(now, local),
{
}

proof fn lemma_weekday_step(d: int)
    ensures
        weekday_of(d - 1) == (if weekday_of(d) == 0 { 6 } else { weekday_of(d) - 1 }),
{
    assert((d - 1 + 6) % 7 == (if (d + 6) % 7 == 0 { 6 } else { (d + 6) % 7 - 1 })) by (nonlinear_arith);
}

/// The session a moment resolves to is never a weekend day; it is never
/// after the Eastern day, nor more than three days before it; before
/// 18:00 it is an earlier day, and from 18:00 on a weekday it is that
/// day.
pub proof fn law_session_bounds(day: int, secs: int)
    ensures
        session_for(day, secs) matches Some(d) ==> {
            &&& !is_weekend(d)
            &&& day - 3 <= d <= day
            &&& secs < SESSION_AVAILABLE_AFTER_SECS ==> d < day
            &&& (secs >= SESSION_AVAILABLE_AFTER_SECS && !is_weekend(day)) ==> d == day
        },
{
    lemma_weekday_step(day);
    lemma_weekday_step(day - 1);
    lemma_weekday_step(day - 2);
}

} // verus!
