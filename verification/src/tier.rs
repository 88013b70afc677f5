//! Subscription-tier gating.
//!
//! ThetaData partitions historical access into tiers per asset class
//! (Free / Value / Standard / Pro). An endpoint's minimum tier comes from
//! the published per-endpoint table when it names the endpoint, and from
//! a rule on its category and subcategory when it does not.
//!
//! These checks only advise: the server decides.

use vstd::prelude::*;

use crate::registry::EndpointInfo;
use crate::text::{
    ascii_lower_seq, ascii_upper_seq, chars_of, eq_lit, fold_label, fold_label_exec, is_ws, lemma_ascii_lower_seq,
    lemma_fold_label_idempotent, lemma_fold_word, lemma_trim_map_upper, lemma_trim_of_trimmed, string_of, trim,
};

verus! {

/// Public upgrade URL surfaced to the UI when a dataset is gated.
pub const UPGRADE_URL: &'static str = "https://thetadata.net/pricing";

/// Canonical upstream OpenAPI document, re-fetched at runtime so tier
/// changes published after a build are picked up.
pub const OPENAPI_SPEC_URL: &'static str = "https://docs.thetadata.us/openapiv3.yaml";

/// Customer subscription tier, ordered by `rank`. `Unknown` ranks below
/// `Free`, so any check for a real tier fails when auth returned none.
#[derive(Debug, Clone, Copy, PartialEq, Eq, Structural)]
pub enum Tier {
    Unknown,
    Free,
    Value,
    Standard,
    Pro,
}

impl Tier {
    pub open spec fn spec_rank(self) -> int {
        match self {
            Tier::Unknown => -1,
            Tier::Free => 0,
            Tier::Value => 1,
            Tier::Standard => 2,
            Tier::Pro => 3,
        }
    }

    /// Higher = more access.
    pub fn rank(self) -> (r: i32)
        ensures
            r == self.spec_rank(),
    {
        match self {
            Tier::Unknown => -1,
            Tier::Free => 0,
            Tier::Value => 1,
            Tier::Standard => 2,
            Tier::Pro => 3,
        }
    }

    pub open spec fn label(self) -> Seq<char> {
        match self {
            Tier::Unknown => "Unknown"@,
            Tier::Free => "Free"@,
            Tier::Value => "Value"@,
            Tier::Standard => "Standard"@,
            Tier::Pro => "Pro"@,
        }
    }

    pub fn as_str(self) -> (r: &'static str)
        ensures
            r@ == self.label(),
    {
        match self {
            Tier::Unknown => "Unknown",
            Tier::Free => "Free",
            Tier::Value => "Value",
            Tier::Standard => "Standard",
            Tier::Pro => "Pro",
        }
    }

    /// The tier a wire or label string names, compared after trimming and
    /// ASCII lower-casing; anything unrecognised is `Unknown`.
    pub open spec fn parse_label(s: Seq<char>) -> Tier {
        let t = fold_label(s);
        if t == "free"@ || t == "0"@ {
            Tier::Free
        } else if t == "value"@ || t == "1"@ {
            Tier::Value
        } else if t == "standard"@ || t == "2"@ {
            Tier::Standard
        } else if t == "pro"@ || t == "professional"@ || t == "3"@ {
            Tier::Pro
        } else {
            Tier::Unknown
        }
    }

    /// Parse the wire/label string emitted by the SDK (case-insensitive).
    pub fn from_label(s: &str) -> (t: Tier)
        ensures
            t == Tier::parse_label(s@),
    {
        let t = fold_label_exec(s);
        let t = t.as_slice();
        if eq_lit(t, "free") || eq_lit(t, "0") {
            Tier::Free
        } else if eq_lit(t, "value") || eq_lit(t, "1") {
            Tier::Value
        } else if eq_lit(t, "standard") || eq_lit(t, "2") {
            Tier::Standard
        } else if eq_lit(t, "pro") || eq_lit(t, "professional") || eq_lit(t, "3") {
            Tier::Pro
        } else {
            Tier::Unknown
        }
    }

    /// True when `self` grants at least the access of `required`.
    pub fn meets(self, required: Tier) -> (r: bool)
        ensures
            r == (self.spec_rank() >= required.spec_rank()),
    {
        self.rank() >= required.rank()
    }

    /// In-flight request cap the server grants this tier: `2^tier`, with
    /// `Unknown` treated as `Free`.
    pub open spec fn spec_workers(self) -> nat {
        match self {
            Tier::Unknown => 1,
            Tier::Free => 1,
            Tier::Value => 2,
            Tier::Standard => 4,
            Tier::Pro => 8,
        }
    }

    pub fn workers(self) -> (n: usize)
        ensures
            n == self.spec_workers(),
    {
        match self {
            Tier::Unknown | Tier::Free => 1,
            Tier::Value => 2,
            Tier::Standard => 4,
            Tier::Pro => 8,
        }
    }
}

/// Which asset-class pool a dataset belongs to; each class has its own
/// subscription tier.
#[derive(Debug, Clone, Copy, PartialEq, Eq, Structural)]
pub enum AssetClass {
    Stock,
    Option,
    Index,
    Rate,
}

impl AssetClass {
    pub open spec fn label(self) -> Seq<char> {
        match self {
            AssetClass::Stock => "stock"@,
            AssetClass::Option => "option"@,
            AssetClass::Index => "index"@,
            AssetClass::Rate => "rate"@,
        }
    }

    pub fn as_str(self) -> (r: &'static str)
        ensures
            r@ == self.label(),
    {
        match self {
            AssetClass::Stock => "stock",
            AssetClass::Option => "option",
            AssetClass::Index => "index",
            AssetClass::Rate => "rate",
        }
    }
}

/// The user's tier per asset class.
#[derive(Debug, Clone, Copy, PartialEq, Eq, Structural)]
pub struct UserTiers {
    pub stock: Tier,
    pub options: Tier,
    pub indices: Tier,
    pub interest_rate: Tier,
}

impl Default for UserTiers {
    fn default() -> (r: Self)
        ensures
            r.stock == Tier::Unknown,
            r.options == Tier::Unknown,
            r.indices == Tier::Unknown,
            r.interest_rate == Tier::Unknown,
    {
        UserTiers {
            stock: Tier::Unknown,
            options: Tier::Unknown,
            indices: Tier::Unknown,
            interest_rate: Tier::Unknown,
        }
    }
}

impl UserTiers {
    pub open spec fn tier_of(self, class: AssetClass) -> Tier {
        match class {
            AssetClass::Stock => self.stock,
            AssetClass::Option => self.options,
            AssetClass::Index => self.indices,
            AssetClass::Rate => self.interest_rate,
        }
    }

    /// Tier the user holds for `class`.
    pub fn for_class(&self, class: AssetClass) -> (t: Tier)
        ensures
            t == self.tier_of(class),
    {
        match class {
            AssetClass::Stock => self.stock,
            AssetClass::Option => self.options,
            AssetClass::Index => self.indices,
            AssetClass::Rate => self.interest_rate,
        }
    }

    /// In-flight request budget granted by `class`'s tier.
    pub fn workers_for(&self, class: AssetClass) -> (n: usize)
        ensures
            n == self.tier_of(class).spec_workers(),
    {
        self.for_class(class).workers()
    }

    /// The account-wide in-flight budget: the cap of the highest tier the
    /// user holds in any class. The server's limiter is account-wide, so
    /// the per-class budgets are not summed.
    pub open spec fn spec_in_flight_budget(self) -> nat {
        let a = self.stock.spec_workers();
        let b = self.options.spec_workers();
        let c = self.indices.spec_workers();
        let d = self.interest_rate.spec_workers();
        let ab = if a >= b { a } else { b };
        let cd = if c >= d { c } else { d };
        if ab >= cd { ab } else { cd }
    }

    pub fn in_flight_budget(&self) -> (n: usize)
        ensures
            n == self.spec_in_flight_budget(),
    {
        let a = self.stock.workers();
        let b = self.options.workers();
        let c = self.indices.workers();
        let d = self.interest_rate.workers();
        let ab = if a >= b { a } else { b };
        let cd = if c >= d { c } else { d };
        if ab >= cd { ab } else { cd }
    }
}

/// Minimum tier for an endpoint by (category, subcategory): the
/// fallback when the published table does not name the endpoint. Both
/// strings are compared after trimming and ASCII lower-casing.
///
/// | category | subcategory                      | min tier  |
/// |----------|----------------------------------|-----------|
/// | *        | list                             | Free      |
/// | stock    | history_eod                      | Free      |
/// | stock    | at_time                          | Standard  |
/// | stock    | anything else                    | Value     |
/// | option   | history_eod                      | Free      |
/// | option   | snapshot_greeks, history_greeks  | Standard  |
/// | option   | at_time                          | Standard  |
/// | option   | anything else                    | Value     |
/// | index    | history, snapshot                | Standard  |
/// | index    | anything else                    | Free      |
/// | rate     | *                                | Value     |
/// | other    | *                                | Free      |
pub open spec fn heuristic_tier(category: Seq<char>, subcategory: Seq<char>) -> Tier {
    let cat = fold_label(category);
    let sub = fold_label(subcategory);
    if sub == "list"@ {
        Tier::Free
    } else if cat == "stock"@ {
        if sub == "history_eod"@ {
            Tier::Free
        } else if sub == "at_time"@ {
            Tier::Standard
        } else {
            Tier::Value
        }
    } else if cat == "option"@ {
        if sub == "history_eod"@ {
            Tier::Free
        } else if sub == "snapshot_greeks"@ || sub == "history_greeks"@ || sub == "at_time"@ {
            Tier::Standard
        } else {
            Tier::Value
        }
    } else if cat == "index"@ {
        if sub == "history"@ || sub == "snapshot"@ {
            Tier::Standard
        } else {
            Tier::Free
        }
    } else if cat == "rate"@ {
        Tier::Value
    } else {
        Tier::Free
    }
}

/// Required tier for a given (category, subcategory); see
/// [`heuristic_tier`].
pub fn min_tier_for(category: &str, subcategory: &str) -> (t: Tier)
    ensures
        t == heuristic_tier(category@, subcategory@),
{
    let cat = fold_label_exec(category);
    let sub = fold_label_exec(subcategory);
    let cat = cat.as_slice();
    let sub = sub.as_slice();
    if eq_lit(sub, "list") {
        return Tier::Free;
    }
    if eq_lit(cat, "stock") {
        if eq_lit(sub, "history_eod") {
            Tier::Free
        } else if eq_lit(sub, "at_time") {
            Tier::Standard
        } else {
            Tier::Value
        }
    } else if eq_lit(cat, "option") {
        if eq_lit(sub, "history_eod") {
            Tier::Free
        } else if eq_lit(sub, "snapshot_greeks") || eq_lit(sub, "history_greeks") || eq_lit(
            sub,
            "at_time",
        ) {
            Tier::Standard
        } else {
            Tier::Value
        }
    } else if eq_lit(cat, "index") {
        if eq_lit(sub, "history") || eq_lit(sub, "snapshot") {
            Tier::Standard
        } else {
            Tier::Free
        }
    } else if eq_lit(cat, "rate") {
        Tier::Value
    } else {
        Tier::Free
    }
}

/// Which of the user's tiers governs an endpoint category. Stock and
/// calendar (which has no real requirement), and anything unrecognised,
/// gate against the stock tier.
pub open spec fn governing(category: Seq<char>, user: UserTiers) -> Tier {
    let cat = fold_label(category);
    if cat == "option"@ {
        user.options
    } else if cat == "index"@ {
        user.indices
    } else if cat == "rate"@ {
        user.interest_rate
    } else {
        user.stock
    }
}

pub fn governing_tier(category: &str, user: &UserTiers) -> (t: Tier)
    ensures
        t == governing(category@, *user),
{
    let cat = fold_label_exec(category);
    let cat = cat.as_slice();
    if eq_lit(cat, "option") {
        user.options
    } else if eq_lit(cat, "index") {
        user.indices
    } else if eq_lit(cat, "rate") {
        user.interest_rate
    } else {
        user.stock
    }
}

/// The per-endpoint minimum tiers this build carries, keyed by operation
/// id. These four rows are a stand-in, not the published table: the full
/// table is read from ThetaData's OpenAPI document, which this crate does
/// not carry, so every other operation has no row here. A table installed
/// at runtime from that document ([`install_remote_table`]) takes
/// precedence; an operation neither names falls to the category rule
/// ([`min_tier_for`]).
pub open spec fn published_tier(op: Seq<char>) -> Option<Tier> {
    if op == "option_history_trade"@ {
        Some(Tier::Standard)
    } else if op == "option_history_quote"@ {
        Some(Tier::Value)
    } else if op == "option_history_greeks_all"@ {
        Some(Tier::Pro)
    } else if op == "stock_history_eod"@ {
        Some(Tier::Free)
    } else {
        None
    }
}

fn published_tier_exec(op: &[char]) -> (t: Option<Tier>)
    ensures
        t == published_tier(op@),
{
    if eq_lit(op, "option_history_trade") {
        Some(Tier::Standard)
    } else if eq_lit(op, "option_history_quote") {
        Some(Tier::Value)
    } else if eq_lit(op, "option_history_greeks_all") {
        Some(Tier::Pro)
    } else if eq_lit(op, "stock_history_eod") {
        Some(Tier::Free)
    } else {
        None
    }
}

/// The tier of the last entry for `op` in `entries`: a later entry for
/// the same operation replaces an earlier one.
pub open spec fn lookup_last(entries: Seq<(Seq<char>, Tier)>, op: Seq<char>) -> Option<Tier>
    decreases entries.len(),
{
    if entries.len() == 0 {
        None
    } else if entries.last().0 == op {
        Some(entries.last().1)
    } else {
        lookup_last(entries.drop_last(), op)
    }
}

pub open spec fn entries_view(v: Seq<(String, Tier)>) -> Seq<(Seq<char>, Tier)> {
    v.map_values(|p: (String, Tier)| (p.0@, p.1))
}

/// The per-endpoint tier table: the published table this build carries,
/// overridden by a table fetched at runtime once one is installed.
pub struct TierTable {
    remote: Option<Vec<(String, Tier)>>,
}

impl TierTable {
    /// The installed runtime entries, in the order they were read.
    pub closed spec fn remote_entries(&self) -> Option<Seq<(Seq<char>, Tier)>> {
        match self.remote {
            Some(v) => Some(entries_view(v@)),
            None => None,
        }
    }

    /// Required tier for `op`: the runtime table's entry when it has one,
    /// else the published table's; `None` when neither names it.
    pub open spec fn required(&self, op: Seq<char>) -> Option<Tier> {
        match self.remote_entries() {
            Some(e) => match lookup_last(e, op) {
                Some(t) => Some(t),
                None => published_tier(op),
            },
            None => published_tier(op),
        }
    }

    /// A table with no runtime override installed.
    pub fn new() -> (t: TierTable)
        ensures
            t.remote_entries() is None,
    {
        TierTable { remote: None }
    }
}

/// Install (or replace) the runtime tier table. Later lookups consult it
/// first and fall back to the published table for operations it lacks.
pub fn install_remote_table(table: &mut TierTable, map: Vec<(String, Tier)>)
    ensures
        final(table).remote_entries() == Some(entries_view(map@)),
{
    table.remote = Some(map);
}

fn lookup_last_exec(entries: &Vec<(String, Tier)>, op: &str) -> (t: Option<Tier>)
    ensures
        t == lookup_last(entries_view(entries@), op@),
{
    let key = string_of(chars_of(op).as_slice());
    let ghost e = entries_view(entries@);
    let mut i: usize = entries.len();
    assert(e.take(i as int) =~= e);
    while i > 0
        invariant
            i <= entries@.len(),
            e == entries_view(entries@),
            key@ == op@,
            lookup_last(e, op@) == lookup_last(e.take(i as int), op@),
        decreases i,
    {
        let ghost pre = e.take(i as int);
        assert(pre.drop_last() =~= e.take(i - 1));
        assert(pre.last() == (entries@[i - 1].0@, entries@[i - 1].1));
        let same = entries[i - 1].0 == key;
        if same {
            return Some(entries[i - 1].1);
        }
        i = i - 1;
    }
    None
}

/// Required tier for an operation id; see [`TierTable::required`].
pub fn min_tier_for_endpoint(table: &TierTable, operation_id: &str) -> (t: Option<Tier>)
    ensures
        t == table.required(operation_id@),
{
    let op = chars_of(operation_id);
    match &table.remote {
        Some(entries) => {
            match lookup_last_exec(entries, operation_id) {
                Some(t) => Some(t),
                None => published_tier_exec(op.as_slice()),
            }
        },
        None => published_tier_exec(op.as_slice()),
    }
}

/// Result of evaluating one endpoint against a user's tiers.
#[derive(Debug, Clone)]
pub struct TierVerdict {
    pub endpoint: String,
    pub category: String,
    pub subcategory: String,
    pub required: Tier,
    pub user: Tier,
    pub allowed: bool,
}

/// Evaluate one endpoint: the table's tier when it names the endpoint,
/// else the (category, subcategory) heuristic, against the user's tier
/// for the endpoint's category.
pub fn evaluate(table: &TierTable, info: &EndpointInfo, user: &UserTiers) -> (v: TierVerdict)
    ensures
        v.endpoint@ == info.name@,
        v.category@ == info.category@,
        v.subcategory@ == info.subcategory@,
        v.required == (match table.required(info.name@) {
            Some(t) => t,
            None => heuristic_tier(info.category@, info.subcategory@),
        }),
        v.user == governing(info.category@, *user),
        v.allowed == (v.user.spec_rank() >= v.required.spec_rank()),
{
    let required = match min_tier_for_endpoint(table, info.name.as_str()) {
        Some(t) => t,
        None => min_tier_for(info.category.as_str(), info.subcategory.as_str()),
    };
    let user_tier = governing_tier(info.category.as_str(), user);
    TierVerdict {
        endpoint: info.name.clone(),
        category: info.category.clone(),
        subcategory: info.subcategory.clone(),
        required,
        user: user_tier,
        allowed: user_tier.meets(required),
    }
}

/// `meets` orders tiers: every tier meets itself; of two tiers one meets
/// the other; meeting is transitive; and a tier meets another only when
/// it is at least as high in Unknown < Free < Value < Standard < Pro.
pub proof fn law_meets_is_a_total_order(a: Tier, b: Tier, c: Tier)
    ensures
        a.spec_rank() >= a.spec_rank(),
        a.spec_rank() >= b.spec_rank() || b.spec_rank() >= a.spec_rank(),
        a.spec_rank() >= b.spec_rank() && b.spec_rank() >= c.spec_rank() ==> a.spec_rank() >= c.spec_rank(),
        a.spec_rank() >= b.spec_rank() && b.spec_rank() >= a.spec_rank() ==> a == b,
        Tier::Unknown.spec_rank() < Tier::Free.spec_rank() < Tier::Value.spec_rank() < Tier::Standard.spec_rank()
            < Tier::Pro.spec_rank(),
{
}

/// The account-wide budget is the cap of the highest tier held in any
/// class: at least every class's cap, equal to one of them, and so never
/// their sum when two classes grant more than one request.
pub proof fn law_budget_is_the_highest_class_cap(u: UserTiers)
    ensures
        forall|c: AssetClass| u.spec_in_flight_budget() >= #[trigger] u.tier_of(c).spec_workers(),
        exists|c: AssetClass| u.spec_in_flight_budget() == #[trigger] u.tier_of(c).spec_workers(),
        u.spec_in_flight_budget() >= 1,
{
    let m = u.spec_in_flight_budget();
    if m == u.stock.spec_workers() {
        assert(u.tier_of(AssetClass::Stock).spec_workers() == m);
    } else if m == u.options.spec_workers() {
        assert(u.tier_of(AssetClass::Option).spec_workers() == m);
    } else if m == u.indices.spec_workers() {
        assert(u.tier_of(AssetClass::Index).spec_workers() == m);
    } else {
        assert(u.tier_of(AssetClass::Rate).spec_workers() == m);
    }
}

/// Listing endpoints are free in every category.
pub proof fn law_list_endpoints_are_free(category: Seq<char>, subcategory: Seq<char>)
    requires
        fold_label(subcategory) == "list"@,
    ensures
        heuristic_tier(category, subcategory) == Tier::Free,
{
}

/// Once a runtime table is installed, an operation it names requires the
/// tier of the table's last entry for it; an operation it does not name
/// falls back to the published table.
pub proof fn law_installed_table_wins(table: TierTable, op: Seq<char>)
    requires
        table.remote_entries() is Some,
    ensures
        lookup_last(table.remote_entries()->0, op) matches Some(t) ==> table.required(op) == Some(t),
        lookup_last(table.remote_entries()->0, op) is None ==> table.required(op) == published_tier(op),
{
}

/// A tier's rank written as decimal text.
pub open spec fn rank_text(t: Tier) -> Seq<char> {
    match t {
        Tier::Unknown => "-1"@,
        Tier::Free => "0"@,
        Tier::Value => "1"@,
        Tier::Standard => "2"@,
        Tier::Pro => "3"@,
    }
}

/// Every tier's name and its rank, as text, read back to that tier; and
/// trimming a label or folding its ASCII case never changes the tier it
/// names.
pub proof fn law_tier_labels_read_back(t: Tier, s: Seq<char>)
    ensures
        Tier::parse_label(t.label()) == t,
        Tier::parse_label(rank_text(t)) == t,
        Tier::parse_label(fold_label(s)) == Tier::parse_label(s),
        Tier::parse_label(ascii_upper_seq(s)) == Tier::parse_label(s),
{
    reveal_strlit("Unknown");
    reveal_strlit("unknown");
    reveal_strlit("Free");
    reveal_strlit("free");
    reveal_strlit("Value");
    reveal_strlit("value");
    reveal_strlit("Standard");
    reveal_strlit("standard");
    reveal_strlit("Pro");
    reveal_strlit("pro");
    reveal_strlit("professional");
    reveal_strlit("-1");
    reveal_strlit("0");
    reveal_strlit("1");
    reveal_strlit("2");
    reveal_strlit("3");
    match t {
        Tier::Unknown => {
            lemma_fold_word("Unknown"@, "unknown"@);
            assert(fold_label(t.label()) == "unknown"@);
            assert(Tier::parse_label(t.label()) == Tier::Unknown);
            lemma_fold_word("-1"@, "-1"@);
        },
        Tier::Free => {
            lemma_fold_word("Free"@, "free"@);
            assert(fold_label(t.label()) == "free"@);
            assert(Tier::parse_label(t.label()) == Tier::Free);
            lemma_fold_word("0"@, "0"@);
        },
        Tier::Value => {
            lemma_fold_word("Value"@, "value"@);
            assert(fold_label(t.label()) == "value"@);
            assert(Tier::parse_label(t.label()) == Tier::Value);
            lemma_fold_word("1"@, "1"@);
        },
        Tier::Standard => {
            lemma_fold_word("Standard"@, "standard"@);
            assert(fold_label(t.label()) == "standard"@);
            assert(Tier::parse_label(t.label()) == Tier::Standard);
            lemma_fold_word("2"@, "2"@);
        },
        Tier::Pro => {
            lemma_fold_word("Pro"@, "pro"@);
            assert(fold_label(t.label()) == "pro"@);
            assert(Tier::parse_label(t.label()) == Tier::Pro);
            lemma_fold_word("3"@, "3"@);
        },
    }
    lemma_fold_label_idempotent(s);
    lemma_fold_upper(s);
}

/// Raising ASCII case before folding a label changes nothing.
proof fn lemma_fold_upper(s: Seq<char>)
    ensures
        fold_label(ascii_upper_seq(s)) == fold_label(s),
{
    lemma_trim_upper(s);
    lemma_ascii_lower_seq(trim(s));
}

/// Trimming and raising ASCII case commute (no ASCII letter is
/// whitespace).
proof fn lemma_trim_upper(s: Seq<char>)
    ensures
        trim(ascii_upper_seq(s)) == ascii_upper_seq(trim(s)),
{
    lemma_trim_map_upper(s);
}

/// The category rule reads its inputs folded, so folding them first
/// changes nothing; it never answers `Unknown`; and a listing
/// subcategory is free.
pub proof fn law_category_rule_folds(category: Seq<char>, subcategory: Seq<char>)
    ensures
        heuristic_tier(fold_label(category), fold_label(subcategory)) == heuristic_tier(category, subcategory),
        heuristic_tier(category, subcategory) != Tier::Unknown,
        fold_label(subcategory) == "list"@ ==> heuristic_tier(category, subcategory) == Tier::Free,
{
    lemma_fold_label_idempotent(category);
    lemma_fold_label_idempotent(subcategory);
}

/// An asset class's own name governs by that class's tier; folding the
/// category changes nothing; and any category other than option, index
/// and rate governs by the stock tier.
pub proof fn law_governing_tier_folds(u: UserTiers, class: AssetClass, category: Seq<char>)
    ensures
        governing(class.label(), u) == u.tier_of(class),
        governing(fold_label(category), u) == governing(category, u),
        fold_label(category) != "option"@ && fold_label(category) != "index"@ && fold_label(category)
            != "rate"@ ==> governing(category, u) == u.stock,
{
    reveal_strlit("stock");
    reveal_strlit("option");
    reveal_strlit("index");
    reveal_strlit("rate");
    match class {
        AssetClass::Stock => lemma_fold_word("stock"@, "stock"@),
        AssetClass::Option => lemma_fold_word("option"@, "option"@),
        AssetClass::Index => lemma_fold_word("index"@, "index"@),
        AssetClass::Rate => lemma_fold_word("rate"@, "rate"@),
    }
    lemma_fold_label_idempotent(category);
}

/// The category rule's words are all different.
proof fn lemma_rule_words_differ()
    ensures
        "stock"@ != "option"@,
        "stock"@ != "index"@,
        "stock"@ != "rate"@,
        "option"@ != "index"@,
        "option"@ != "rate"@,
        "index"@ != "rate"@,
        "list"@ != "history_eod"@,
        "list"@ != "at_time"@,
        "list"@ != "snapshot_greeks"@,
        "list"@ != "history_greeks"@,
        "list"@ != "history"@,
        "list"@ != "snapshot"@,
        "history_eod"@ != "at_time"@,
        "history_eod"@ != "snapshot_greeks"@,
        "history_eod"@ != "history_greeks"@,
        "history_eod"@ != "history"@,
        "history_eod"@ != "snapshot"@,
{
    reveal_strlit("stock");
    reveal_strlit("option");
    reveal_strlit("index");
    reveal_strlit("rate");
    reveal_strlit("list");
    reveal_strlit("history_eod");
    reveal_strlit("at_time");
    reveal_strlit("snapshot_greeks");
    reveal_strlit("history_greeks");
    reveal_strlit("history");
    reveal_strlit("snapshot");
    assert("stock"@[0] != "option"@[0] && "stock"@[0] != "index"@[0] && "stock"@[0] != "rate"@[0]);
    assert("option"@[0] != "index"@[0] && "option"@[0] != "rate"@[0] && "index"@[0] != "rate"@[0]);
    assert("list"@[0] != "history_eod"@[0] && "list"@[0] != "at_time"@[0] && "list"@[0] != "snapshot_greeks"@[0]);
    assert("list"@[0] != "history_greeks"@[0] && "list"@[0] != "history"@[0] && "list"@[0] != "snapshot"@[0]);
    assert("history_eod"@[0] != "at_time"@[0] && "history_eod"@[0] != "snapshot_greeks"@[0] && "history_eod"@[0] != "snapshot"@[0]);
    assert("history_eod"@.len() != "history_greeks"@.len() && "history_eod"@.len() != "history"@.len());
}

/// An end-of-day subcategory is never dearer than any other
/// subcategory of its category but a listing (which is always free),
/// and it is free for stocks, options and indices alike.
pub proof fn law_end_of_day_is_cheapest(category: Seq<char>, eod: Seq<char>, other: Seq<char>)
    requires
        fold_label(eod) == "history_eod"@,
    ensures
        fold_label(other) != "list"@ ==> heuristic_tier(category, eod).spec_rank() <= heuristic_tier(
            category,
            other,
        ).spec_rank(),
        fold_label(category) == "stock"@ || fold_label(category) == "option"@ || fold_label(category)
            == "index"@ ==> heuristic_tier(category, eod) == Tier::Free,
{
    lemma_rule_words_differ();
}

/// The documented category table, row by row, for every spelling of the
/// category and subcategory (trimmed, any ASCII case).
pub proof fn law_category_table(category: Seq<char>, subcategory: Seq<char>)
    ensures
        ({
            let c = fold_label(category);
            let s = fold_label(subcategory);
            let t = heuristic_tier(category, subcategory);
            &&& s == "list"@ ==> t == Tier::Free
            &&& s != "list"@ && c == "stock"@ ==> t == (if s == "history_eod"@ {
                Tier::Free
            } else if s == "at_time"@ {
                Tier::Standard
            } else {
                Tier::Value
            })
            &&& s != "list"@ && c == "option"@ ==> t == (if s == "history_eod"@ {
                Tier::Free
            } else if s == "snapshot_greeks"@ || s == "history_greeks"@ || s == "at_time"@ {
                Tier::Standard
            } else {
                Tier::Value
            })
            &&& s != "list"@ && c == "index"@ ==> t == (if s == "history"@ || s == "snapshot"@ {
                Tier::Standard
            } else {
                Tier::Free
            })
            &&& s != "list"@ && c == "rate"@ ==> t == Tier::Value
            &&& c != "stock"@ && c != "option"@ && c != "index"@ && c != "rate"@ ==> t == Tier::Free
        }),
{
    lemma_rule_words_differ();
}

} // verus!
