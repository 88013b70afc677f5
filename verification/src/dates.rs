//! Calendar dates as the rest of the crate reads them: a day number
//! (days since the start of the common era, 0001-01-01 being day 1), its
//! weekday, its neighbours and its `YYYYMMDD` spelling. Calendar
//! conversion is chrono's.

use vstd::prelude::*;

use chrono::Datelike;

verus! {

/// What chrono writes for day number `days` in the `%Y%m%d` format, or
/// `None` when `days` lies outside the range chrono represents.
pub uninterp spec fn chrono_ymd(days: int) -> Option<Seq<char>>;

/// The day number chrono's `NaiveDate::parse_from_str(s, "%Y%m%d")` yields
/// for `s`, or `None` when chrono rejects `s`.
pub uninterp spec fn chrono_parse_ymd(s: Seq<char>) -> Option<int>;

/// The day number of year/month/day per `NaiveDate::from_ymd_opt`, or
/// `None` when that is not a date chrono represents.
pub uninterp spec fn chrono_from_ymd(year: int, month: int, day: int) -> Option<int>;

/// `NaiveDate::from_num_days_from_ce_opt(days)` formatted as `%Y%m%d`.
#[verifier::external_body]
fn ymd_of_days(days: i32) -> (r: Option<String>)
    ensures
        r matches Some(s) ==> chrono_ymd(days as int) == Some(s@),
        r is None ==> chrono_ymd(days as int) is None,
{
    chrono::NaiveDate::from_num_days_from_ce_opt(days).map(|d| d.format("%Y%m%d").to_string())
}

/// `NaiveDate::parse_from_str(s, "%Y%m%d")`, as a day number. A date
/// chrono parsed is one it can format.
#[verifier::external_body]
fn days_of_ymd_text(s: &str) -> (r: Option<i32>)
    ensures
        r matches Some(d) ==> chrono_parse_ymd(s@) == Some(d as int) && chrono_ymd(d as int) is Some,
        r is None ==> chrono_parse_ymd(s@) is None,
{
    chrono::NaiveDate::parse_from_str(s, "%Y%m%d").ok().map(|d| d.num_days_from_ce())
}

/// `NaiveDate::from_ymd_opt`, as a day number. A date chrono built is one
/// it can format.
#[verifier::external_body]
fn days_of_ymd(year: i32, month: u32, day: u32) -> (r: Option<i32>)
    ensures
        r matches Some(d) ==> chrono_from_ymd(year as int, month as int, day as int) == Some(
            d as int,
        ) && chrono_ymd(d as int) is Some,
        r is None ==> chrono_from_ymd(year as int, month as int, day as int) is None,
{
    chrono::NaiveDate::from_ymd_opt(year, month, day).map(|d| d.num_days_from_ce())
}

/// Whether chrono represents day number `days` (its
/// `from_num_days_from_ce_opt` succeeds).
#[verifier::external_body]
fn day_is_representable(days: i32) -> (r: bool)
    ensures
        r == (chrono_ymd(days as int) is Some),
{
    chrono::NaiveDate::from_num_days_from_ce_opt(days).is_some()
}

/// Day of the week, Monday = 0 through Sunday = 6. 0001-01-01 (day 1)
/// was a Monday.
pub open spec fn weekday_of(days: int) -> int {
    (days + 6) % 7
}

pub open spec fn is_weekend(days: int) -> bool {
    weekday_of(days) >= 5
}

/// The day after day number `d`, when it is a day number chrono represents.
pub open spec fn next_day(d: int) -> Option<int> {
    if d + 1 <= i32::MAX && chrono_ymd(d + 1) is Some {
        Some(d + 1)
    } else {
        None
    }
}

/// The day before day number `d`, when it is a day number chrono represents.
pub open spec fn prev_day(d: int) -> Option<int> {
    if d - 1 >= i32::MIN && chrono_ymd(d - 1) is Some {
        Some(d - 1)
    } else {
        None
    }
}

/// Stepping a representable day forward and then back returns to it.
pub proof fn law_next_then_prev_day(d: int)
    requires
        i32::MIN <= d <= i32::MAX,
        chrono_ymd(d) is Some,
        next_day(d) is Some,
    ensures
        prev_day(next_day(d)->0) == Some(d),
{
}

/// Stepping a representable day back and then forward returns to it.
pub proof fn law_prev_then_next_day(d: int)
    requires
        i32::MIN <= d <= i32::MAX,
        chrono_ymd(d) is Some,
        prev_day(d) is Some,
    ensures
        next_day(prev_day(d)->0) == Some(d),
{
}

/// A calendar date.
#[derive(Debug, Clone, Copy, PartialEq, Eq, PartialOrd, Ord, Hash)]
pub struct Date {
    days: i32,
}

impl Date {
    #[verifier::type_invariant]
    spec fn representable(self) -> bool {
        chrono_ymd(self.days as int) is Some
    }

    /// Day number: days since the start of the common era.
    pub closed spec fn day(self) -> int {
        self.days as int
    }

    /// The date with this day number, if chrono represents it.
    pub fn from_day_number(days: i32) -> (r: Option<Date>)
        ensures
            r matches Some(d) ==> d.day() == days,
            r is None <==> chrono_ymd(days as int) is None,
    {
        if day_is_representable(days) {
            Some(Date { days })
        } else {
            None
        }
    }

    /// `NaiveDate::from_ymd_opt`.
    pub fn from_ymd(year: i32, month: u32, day: u32) -> (r: Option<Date>)
        ensures
            r matches Some(d) ==> chrono_from_ymd(year as int, month as int, day as int) == Some(
                d.day(),
            ),
            r is None ==> chrono_from_ymd(year as int, month as int, day as int) is None,
    {
        match days_of_ymd(year, month, day) {
            Some(days) => Some(Date { days }),
            None => None,
        }
    }

    /// Parse `YYYYMMDD` as chrono's `%Y%m%d` does.
    pub fn parse_ymd8(s: &str) -> (r: Option<Date>)
        ensures
            r matches Some(d) ==> chrono_parse_ymd(s@) == Some(d.day()),
            r is None ==> chrono_parse_ymd(s@) is None,
    {
        match days_of_ymd_text(s) {
            Some(days) => Some(Date { days }),
            None => None,
        }
    }

    /// The day number.
    pub fn day_number(&self) -> (n: i32)
        ensures
            n == self.day(),
            chrono_ymd(n as int) is Some,
    {
        proof {
            use_type_invariant(self);
        }
        self.days
    }

    /// `YYYYMMDD`, as chrono formats `%Y%m%d`.
    pub fn ymd8(&self) -> (s: String)
        ensures
            chrono_ymd(self.day()) == Some(s@),
    {
        proof {
            use_type_invariant(self);
        }
        match ymd_of_days(self.days) {
            Some(s) => s,
            None => {
                proof {
                    assert(false);
                }
                String::new()
            },
        }
    }

    /// Day of the week, Monday = 0 through Sunday = 6.
    pub fn weekday(&self) -> (w: u8)
        ensures
            w == weekday_of(self.day()),
    {
        let d = self.days as i64;
        let e: i64 = d + 2_800_000_006;
        let r = e % 7;
        proof {
            vstd::arithmetic::div_mod::lemma_mod_add_multiples_vanish(d + 6, 7);
            let k: int = 400_000_000;
            vstd::arithmetic::div_mod::lemma_mod_multiples_vanish(k, d + 6, 7);
            assert(e == (d + 6) + k * 7);
        }
        r as u8
    }

    /// Saturday or Sunday.
    pub fn is_weekend(&self) -> (b: bool)
        ensures
            b == is_weekend(self.day()),
    {
        self.weekday() >= 5
    }

    /// The next day, unless this is the last date chrono represents.
    pub fn succ(&self) -> (r: Option<Date>)
        ensures
            r matches Some(d) ==> next_day(self.day()) == Some(d.day()),
            r is None ==> next_day(self.day()) is None,
    {
        proof {
            use_type_invariant(self);
        }
        if self.days == i32::MAX {
            return None;
        }
        Date::from_day_number(self.days + 1)
    }

    /// The previous day, unless this is the first date chrono represents.
    pub fn pred(&self) -> (r: Option<Date>)
        ensures
            r matches Some(d) ==> prev_day(self.day()) == Some(d.day()),
            r is None ==> prev_day(self.day()) is None,
    {
        proof {
            use_type_invariant(self);
        }
        if self.days == i32::MIN {
            return None;
        }
        Date::from_day_number(self.days - 1)
    }
}

} // verus!
