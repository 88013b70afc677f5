//! What the app reports of the user's plan: each asset class's tier,
//! with the "a connected account always has Free" policy applied, its
//! in-flight cap, and the account-wide budget.

use vstd::prelude::*;

use crate::dates::{chrono_parse_ymd, Date};
use crate::coverage::{strip_dashes, strip_dashes_text};
use crate::text::{chars_of, string_of};
use crate::tier::{AssetClass, Tier, UserTiers, UPGRADE_URL};

verus! {

/// The tier shown for a class: once the user is connected, a class the
/// server reported nothing for is the Free tier every account has;
/// before that it stays `Unknown` so the UI can show a placeholder.
pub open spec fn shown_tier(t: Tier, connected: bool) -> Tier {
    if connected && t == Tier::Unknown {
        Tier::Free
    } else {
        t
    }
}

/// See [`shown_tier`].
pub fn normalize(t: Tier, connected: bool) -> (r: Tier)
    ensures
        r == shown_tier(t, connected),
{
    if connected && t == Tier::Unknown {
        Tier::Free
    } else {
        t
    }
}

/// A tier's name, as the plan view shows it.
pub fn tier_label(t: Tier) -> (s: String)
    ensures
        s@ == t.label(),
{
    string_of(chars_of(t.as_str()).as_slice())
}

/// One asset class's row of the plan view.
#[derive(Debug)]
pub struct ClassTier {
    /// Wire name: `stock` | `option` | `index` | `rate`.
    pub class: String,
    /// Display label: `Stocks` | `Options` | `Indices` | `Rates`.
    pub label: &'static str,
    /// The shown tier's name.
    pub tier: String,
    pub workers: u32,
    /// The class is at the highest tier.
    pub at_max: bool,
}

/// The row for `class` holding tier `raw`: its wire name, `label`, the
/// shown tier's name and in-flight cap, and whether that tier is Pro.
pub open spec fn is_class_row(row: ClassTier, class: AssetClass, label: Seq<char>, raw: Tier, connected: bool) -> bool {
    let t = shown_tier(raw, connected);
    &&& row.class@ == class.label()
    &&& row.label@ == label
    &&& row.tier@ == t.label()
    &&& row.workers == t.spec_workers()
    &&& row.at_max == (t == Tier::Pro)
}

/// See [`is_class_row`].
pub fn class_row(class: AssetClass, label: &'static str, raw: Tier, connected: bool) -> (r: ClassTier)
    ensures
        is_class_row(r, class, label@, raw, connected),
{
    let t = normalize(raw, connected);
    let w = t.workers();
    ClassTier {
        class: string_of(chars_of(class.as_str()).as_slice()),
        label,
        tier: tier_label(t),
        workers: w as u32,
        at_max: t == Tier::Pro,
    }
}

/// The plan view: each class's shown tier, the per-class rows in the
/// order stock, option, index, rate, the account-wide in-flight budget
/// (the highest of the class caps, not their sum: the server's limiter
/// is account-wide), and where to upgrade.
#[derive(Debug)]
pub struct TierStatus {
    pub stock: String,
    pub options: String,
    pub indices: String,
    pub interest_rate: String,
    pub classes: Vec<ClassTier>,
    pub total_workers: u32,
    pub upgrade_url: &'static str,
    pub connected: bool,
}

/// The plan view for `tiers`; `connected` says whether they came from a
/// signed-in account.
pub fn tier_status(tiers: &UserTiers, connected: bool) -> (s: TierStatus)
    ensures
        s.classes@.len() == 4,
        is_class_row(s.classes@[0], AssetClass::Stock, "Stocks"@, tiers.stock, connected),
        is_class_row(s.classes@[1], AssetClass::Option, "Options"@, tiers.options, connected),
        is_class_row(s.classes@[2], AssetClass::Index, "Indices"@, tiers.indices, connected),
        is_class_row(s.classes@[3], AssetClass::Rate, "Rates"@, tiers.interest_rate, connected),
        s.stock@ == shown_tier(tiers.stock, connected).label(),
        s.options@ == shown_tier(tiers.options, connected).label(),
        s.indices@ == shown_tier(tiers.indices, connected).label(),
        s.interest_rate@ == shown_tier(tiers.interest_rate, connected).label(),
        s.total_workers == tiers.spec_in_flight_budget(),
        forall|i: int| 0 <= i < 4 ==> s.total_workers >= #[trigger] s.classes@[i].workers,
        exists|i: int| 0 <= i < 4 && s.total_workers == #[trigger] s.classes@[i].workers,
        s.upgrade_url@ == UPGRADE_URL@,
        s.connected == connected,
{
    let a = class_row(AssetClass::Stock, "Stocks", tiers.stock, connected);
    let b = class_row(AssetClass::Option, "Options", tiers.options, connected);
    let c = class_row(AssetClass::Index, "Indices", tiers.indices, connected);
    let d = class_row(AssetClass::Rate, "Rates", tiers.interest_rate, connected);
    let total = tiers.in_flight_budget() as u32;
    let stock = string_of(chars_of(a.tier.as_str()).as_slice());
    let options = string_of(chars_of(b.tier.as_str()).as_slice());
    let indices = string_of(chars_of(c.tier.as_str()).as_slice());
    let interest_rate = string_of(chars_of(d.tier.as_str()).as_slice());
    let s = TierStatus {
        stock,
        options,
        indices,
        interest_rate,
        classes: vec![a, b, c, d],
        total_workers: total,
        upgrade_url: UPGRADE_URL,
        connected,
    };
    proof {
        let w = s.classes@;
        assert(w[0].workers == tiers.stock.spec_workers());
        assert(w[1].workers == tiers.options.spec_workers());
        assert(w[2].workers == tiers.indices.spec_workers());
        assert(w[3].workers == tiers.interest_rate.spec_workers());
        if total == w[0].workers {
            assert(s.total_workers == s.classes@[0].workers);
        } else if total == w[1].workers {
            assert(s.total_workers == s.classes@[1].workers);
        } else if total == w[2].workers {
            assert(s.total_workers == s.classes@[2].workers);
        } else {
            assert(s.total_workers == s.classes@[3].workers);
        }
    }
    s
}

/// Each class's in-flight cap, as the health panel shows it.
#[derive(Debug, Clone, Copy, PartialEq, Eq, Structural)]
pub struct PoolPerClass {
    pub stock: u32,
    pub option: u32,
    pub index: u32,
    pub rate: u32,
}

impl PoolPerClass {
    pub fn from_tiers(t: &UserTiers) -> (p: PoolPerClass)
        ensures
            p.stock == t.stock.spec_workers(),
            p.option == t.options.spec_workers(),
            p.index == t.indices.spec_workers(),
            p.rate == t.interest_rate.spec_workers(),
    {
        PoolPerClass {
            stock: t.workers_for(AssetClass::Stock) as u32,
            option: t.workers_for(AssetClass::Option) as u32,
            index: t.workers_for(AssetClass::Index) as u32,
            rate: t.workers_for(AssetClass::Rate) as u32,
        }
    }

    /// The pool size the health panel reports: the account-wide in-flight
    /// budget, the highest of the class caps (the server's limiter is
    /// account-wide, so the caps are not summed).
    pub open spec fn spec_pool_size(self) -> int {
        let ab = if self.stock >= self.option { self.stock } else { self.option };
        let cd = if self.index >= self.rate { self.index } else { self.rate };
        if ab >= cd { ab as int } else { cd as int }
    }

    /// See [`PoolPerClass::spec_pool_size`]. For a breakdown read from a
    /// user's tiers it is their [`UserTiers::in_flight_budget`].
    pub fn pool_size(&self) -> (n: u32)
        ensures
            n == self.spec_pool_size(),
            n >= self.stock && n >= self.option && n >= self.index && n >= self.rate,
            n == self.stock || n == self.option || n == self.index || n == self.rate,
    {
        let ab = if self.stock >= self.option { self.stock } else { self.option };
        let cd = if self.index >= self.rate { self.index } else { self.rate };
        if ab >= cd { ab } else { cd }
    }
}

/// The pool size shown for a user's tiers is their account-wide budget.
pub proof fn law_pool_size_is_the_budget(t: UserTiers)
    ensures
        (PoolPerClass {
            stock: t.stock.spec_workers() as u32,
            option: t.options.spec_workers() as u32,
            index: t.indices.spec_workers() as u32,
            rate: t.interest_rate.spec_workers() as u32,
        }).spec_pool_size() == t.spec_in_flight_budget(),
{
}

/// `*` is the app's own default for "every expiration"; an empty field
/// means the same thing.
pub fn is_wildcard(v: &str) -> (b: bool)
    ensures
        b == (v@.len() == 0 || v@ == "*"@),
{
    let c = chars_of(v);
    proof {
        reveal_strlit("*");
        if c@.len() == 1 && c@[0] == '*' {
            assert(c@ =~= "*"@);
        }
    }
    c.len() == 0 || (c.len() == 1 && c[0] == '*')
}

/// A date typed as `YYYYMMDD` or `YYYY-MM-DD`: its dashes dropped, then
/// read as chrono's `%Y%m%d`; `None` when that does not read.
pub fn parse_ymd(s: &str) -> (r: Option<Date>)
    ensures
        r matches Some(d) ==> chrono_parse_ymd(strip_dashes(s@)) == Some(d.day()),
        r is None ==> chrono_parse_ymd(strip_dashes(s@)) is None,
{
    let t = strip_dashes_text(s);
    Date::parse_ymd8(t.as_str())
}

} // verus!
