//! What to download. A `DataSpec` is one (dataset x symbol x date) work
//! unit; an `EndpointSpec` is the generic registry call it lowers onto.
//! Both name a dataset by its registry endpoint.

use vstd::prelude::*;

use crate::dates::{chrono_ymd, Date};
use crate::registry::{find_shape, param_names, registered, registered_category, registered_params, registry_find};
use crate::text::{chars_of, is_ws, lemma_trim_of_trimmed, lemma_trim_idempotent, trim, trim_end, trim_start, trim_exec, unicode_lower, to_lowercase, compare_chars, eq_lit, lemma_seq_lt_asymmetric, lemma_seq_lt_irreflexive, lemma_seq_lt_total, lemma_seq_lt_transitive, push_str, seq_eq, seq_lt, string_of, Cmp};
use crate::tier::AssetClass;
use crate::stem::{args_text, escape_exec, lemma_args_text_injective, lemma_args_text_push};
use crate::sorted::{entry_for, keys_sorted, lemma_put_append, lemma_put_insert, lemma_put_keys, lemma_put_lookup, lemma_put_replace, lemma_put_step, lemma_sorted_entries_unique, put};

verus! {

broadcast use vstd::string::group_string_axioms;

/// Dataset names used before the queue and the catalogue shared one
/// vocabulary, and the registry endpoint each now resolves to.
pub open spec fn resolve_legacy(s: Seq<char>) -> Seq<char> {
    if s == "stock_trade"@ {
        "stock_history_trade"@
    } else if s == "stock_quote"@ {
        "stock_history_quote"@
    } else if s == "stock_trade_quote"@ {
        "stock_history_trade_quote"@
    } else if s == "option_trade"@ {
        "option_history_trade"@
    } else if s == "option_quote"@ {
        "option_history_quote"@
    } else if s == "option_trade_quote"@ {
        "option_history_trade_quote"@
    } else if s == "option_oi"@ {
        "option_history_open_interest"@
    } else {
        s
    }
}

fn resolve_legacy_exec(s: &str) -> (r: String)
    ensures
        r@ == resolve_legacy(s@),
{
    let v = chars_of(s);
    let v = v.as_slice();
    let target: &str = if eq_lit(v, "stock_trade") {
        "stock_history_trade"
    } else if eq_lit(v, "stock_quote") {
        "stock_history_quote"
    } else if eq_lit(v, "stock_trade_quote") {
        "stock_history_trade_quote"
    } else if eq_lit(v, "option_trade") {
        "option_history_trade"
    } else if eq_lit(v, "option_quote") {
        "option_history_quote"
    } else if eq_lit(v, "option_trade_quote") {
        "option_history_trade_quote"
    } else if eq_lit(v, "option_oi") {
        "option_history_open_interest"
    } else {
        s
    };
    string_of(chars_of(target).as_slice())
}

/// The asset class a registry category gates under.
pub open spec fn class_of_category(category: Seq<char>) -> AssetClass {
    if category == "option"@ {
        AssetClass::Option
    } else if category == "index"@ {
        AssetClass::Index
    } else if category == "rate"@ {
        AssetClass::Rate
    } else {
        AssetClass::Stock
    }
}

/// The dataset a task pulls, named by its registry endpoint. Only
/// [`DataKind::parse`] builds one, so every `DataKind` names an endpoint
/// the registry knows.
#[derive(Debug, PartialEq, Eq, Hash, PartialOrd, Ord)]
pub struct DataKind {
    name: String,
}

impl DataKind {
    #[verifier::type_invariant]
    spec fn known(self) -> bool {
        registered(self.name@)
    }

    /// The endpoint name.
    pub closed spec fn name(self) -> Seq<char> {
        self.name@
    }

    /// Resolve a dataset name against the registry. Legacy names are
    /// resolved first; a name the registry does not know gives `None`.
    pub fn parse(s: &str) -> (r: Option<DataKind>)
        ensures
            r is Some <==> registered(resolve_legacy(s@)),
            r matches Some(k) ==> k.name() == resolve_legacy(s@),
    {
        let name = resolve_legacy_exec(s);
        match find_shape(name.as_str()) {
            Some(_) => Some(DataKind { name }),
            None => None,
        }
    }

    pub fn as_str(&self) -> (r: &str)
        ensures
            r@ == self.name(),
    {
        self.name.as_str()
    }

    /// The registry endpoint this dataset dispatches to: the dataset is
    /// the endpoint.
    pub fn endpoint(&self) -> (r: &str)
        ensures
            r@ == self.name(),
    {
        self.name.as_str()
    }


    /// Whether this endpoint declares `param`.
    pub fn takes_param(&self, param: &str) -> (b: bool)
        ensures
            b == registered_params(self.name()).contains(param@),
    {
        let p = chars_of(param);
        match find_shape(self.name.as_str()) {
            None => false,
            Some((_, params)) => {
                let ghost ps = param_names(params@);
                let mut i: usize = 0;
                while i < params.len()
                    invariant
                        i <= params@.len(),
                        ps == param_names(params@),
                        registered_params(self.name()) == ps,
                        p@ == param@,
                        forall|j: int| 0 <= j < i ==> ps[j] != param@,
                    decreases params@.len() - i,
                {
                    assert(ps[i as int] == params@[i as int].0@);
                    let q = chars_of(params[i].0.as_str());
                    if seq_eq(q.as_slice(), p.as_slice()) {
                        assert(ps[i as int] == param@);
                        return true;
                    }
                    i = i + 1;
                }
                assert(!ps.contains(param@));
                false
            },
        }
    }

    pub fn takes_interval(&self) -> (b: bool)
        ensures
            b == registered_params(self.name()).contains("interval"@),
    {
        self.takes_param("interval")
    }

    /// Which asset class gates this dataset, from its registry category.
    pub fn asset_class(&self) -> (c: AssetClass)
        ensures
            c == class_of_category(registered_category(self.name())),
    {
        let cat: Vec<char> = match find_shape(self.name.as_str()) {
            Some((c, _)) => chars_of(c.as_str()),
            None => Vec::new(),
        };
        let cat = cat.as_slice();
        if eq_lit(cat, "option") {
            AssetClass::Option
        } else if eq_lit(cat, "index") {
            AssetClass::Index
        } else if eq_lit(cat, "rate") {
            AssetClass::Rate
        } else {
            AssetClass::Stock
        }
    }

    pub fn is_option(&self) -> (b: bool)
        ensures
            b == (class_of_category(registered_category(self.name())) == AssetClass::Option),
    {
        match self.asset_class() {
            AssetClass::Option => true,
            _ => false,
        }
    }
}

impl Clone for DataKind {
    fn clone(&self) -> (r: DataKind)
        ensures
            r.name() == self.name(),
    {
        proof {
            use_type_invariant(self);
        }
        DataKind { name: string_of(chars_of(self.name.as_str()).as_slice()) }
    }
}

// ---------------------------------------------------------------------
// Work units.
// ---------------------------------------------------------------------

/// One unit of work: pull `kind` for `symbol` on `date`. The contract
/// filters and `interval` are carried for every dataset and applied only
/// where the endpoint declares the matching parameter.
#[derive(Debug)]
pub struct DataSpec {
    pub kind: DataKind,
    pub symbol: String,
    pub date: Date,
    /// `tick` = every update; `1s` and up are sampled.
    pub interval: Option<String>,
    /// `*` = every expiration on this date.
    pub expiration: String,
    /// `*` = every strike.
    pub strike: String,
    /// `both` = calls and puts.
    pub right: String,
}

/// Default expiration filter: every expiration.
pub fn default_expiration() -> (s: String)
    ensures
        s@ == "*"@,
{
    string_of(chars_of("*").as_slice())
}

/// Default strike filter: every strike.
pub fn default_strike() -> (s: String)
    ensures
        s@ == "*"@,
{
    string_of(chars_of("*").as_slice())
}

/// Default right filter: calls and puts.
pub fn default_right() -> (s: String)
    ensures
        s@ == "both"@,
{
    string_of(chars_of("both").as_slice())
}

fn copy_string(s: &String) -> (r: String)
    ensures
        r@ == s@,
{
    string_of(chars_of(s.as_str()).as_slice())
}

impl DataSpec {
    /// The date as `YYYYMMDD`.
    pub open spec fn ymd_text(&self) -> Seq<char> {
        chrono_ymd(self.date.day()).unwrap()
    }

    /// The value this work unit supplies for registry parameter `p`, if
    /// any.
    pub open spec fn param_value(&self, p: Seq<char>) -> Option<Seq<char>> {
        if p == "symbol"@ {
            Some(self.symbol@)
        } else if p == "date"@ {
            Some(self.ymd_text())
        } else if p == "expiration"@ {
            Some(self.expiration@)
        } else if p == "strike"@ {
            Some(self.strike@)
        } else if p == "right"@ {
            Some(self.right@)
        } else if p == "interval"@ {
            match self.interval {
                Some(i) => Some(i@),
                None => None,
            }
        } else {
            None
        }
    }

    /// The arguments filled for the declared parameters `params`, in
    /// order, skipping those this unit has no value for.
    pub open spec fn filled(&self, params: Seq<Seq<char>>) -> ArgEntries
        decreases params.len(),
    {
        if params.len() == 0 {
            Seq::empty()
        } else {
            let prev = self.filled(params.drop_last());
            match self.param_value(params.last()) {
                Some(v) => put(prev, params.last(), v),
                None => prev,
            }
        }
    }

    /// The file stem: `<symbol lower-cased>_<dataset>_<YYYYMMDD>`.
    pub open spec fn stem(&self) -> Seq<char> {
        unicode_lower(self.symbol@) + "_"@ + self.kind.name() + "_"@ + self.ymd_text()
    }

    pub fn ymd(&self) -> (s: String)
        ensures
            s@ == self.ymd_text(),
    {
        self.date.ymd8()
    }

    /// Stable file stem used everywhere on disk.
    pub fn file_stem(&self) -> (s: String)
        ensures
            s@ == self.stem(),
    {
        let mut out = to_lowercase(self.symbol.as_str());
        push_str(&mut out, "_");
        push_str(&mut out, self.kind.as_str());
        push_str(&mut out, "_");
        let y = self.ymd();
        push_str(&mut out, y.as_str());
        out
    }

    fn value_for(&self, p: &str) -> (r: Option<String>)
        ensures
            r is None <==> self.param_value(p@) is None,
            r matches Some(v) ==> self.param_value(p@) == Some(v@),
    {
        let q = chars_of(p);
        let q = q.as_slice();
        if eq_lit(q, "symbol") {
            Some(copy_string(&self.symbol))
        } else if eq_lit(q, "date") {
            Some(self.ymd())
        } else if eq_lit(q, "expiration") {
            Some(copy_string(&self.expiration))
        } else if eq_lit(q, "strike") {
            Some(copy_string(&self.strike))
        } else if eq_lit(q, "right") {
            Some(copy_string(&self.right))
        } else if eq_lit(q, "interval") {
            match &self.interval {
                Some(i) => Some(copy_string(i)),
                None => None,
            }
        } else {
            None
        }
    }

    /// Lower this work unit onto the generic registry call, filling only
    /// the parameters the endpoint declares.
    pub fn to_endpoint_spec(&self) -> (r: EndpointSpec)
        ensures
            r.endpoint_name() == self.kind.name(),
            r.deadline() == 0,
            r.entries() == self.filled(registered_params(self.kind.name())),
    {
        let mut spec = EndpointSpec::new(self.kind.endpoint());
        let params = match find_shape(self.kind.endpoint()) {
            Some((_, ps)) => ps,
            None => {
                assert(registered_params(self.kind.name()) =~= Seq::<Seq<char>>::empty());
                return spec;
            },
        };
        let ghost ps = param_names(params@);
        assert(ps.take(0) =~= Seq::<Seq<char>>::empty());
        let mut i: usize = 0;
        while i < params.len()
            invariant
                i <= params@.len(),
                ps == param_names(params@),
                ps == registered_params(self.kind.name()),
                spec.endpoint_name() == self.kind.name(),
                spec.deadline() == 0,
                spec.entries() == self.filled(ps.take(i as int)),
            decreases params@.len() - i,
        {
            let p = params[i].0.as_str();
            assert(ps.take(i + 1).drop_last() =~= ps.take(i as int));
            assert(ps.take(i + 1).last() == p@);
            match self.value_for(p) {
                Some(v) => {
                    spec = spec.arg(p, v);
                },
                None => {},
            }
            i = i + 1;
        }
        assert(ps.take(params@.len() as int) =~= ps);
        spec
    }
}

// ---------------------------------------------------------------------
// Sampling intervals.
// ---------------------------------------------------------------------

/// One selectable sampling interval: the wire value the endpoint takes
/// and the label the UI shows for it.
#[derive(Debug, Clone, Copy)]
pub struct IntervalOption {
    pub id: &'static str,
    pub label: &'static str,
}

/// The wire values ThetaData accepts, ascending.
pub open spec fn interval_ids() -> Seq<Seq<char>> {
    seq![
        "tick"@, "10ms"@, "100ms"@, "500ms"@, "1s"@, "5s"@, "10s"@, "15s"@, "30s"@, "1m"@, "5m"@,
        "10m"@, "15m"@, "30m"@, "1h"@,
    ]
}

/// Every interval ThetaData accepts, in ascending order, with its label.
pub fn intervals() -> (v: Vec<IntervalOption>)
    ensures
        v@.len() == interval_ids().len(),
        forall|i: int| 0 <= i < v@.len() ==> (#[trigger] v@[i]).id@ == interval_ids()[i],
{
    let v = vec![
        IntervalOption { id: "tick", label: "Tick by tick" },
        IntervalOption { id: "10ms", label: "10 ms" },
        IntervalOption { id: "100ms", label: "100 ms" },
        IntervalOption { id: "500ms", label: "500 ms" },
        IntervalOption { id: "1s", label: "1 second" },
        IntervalOption { id: "5s", label: "5 seconds" },
        IntervalOption { id: "10s", label: "10 seconds" },
        IntervalOption { id: "15s", label: "15 seconds" },
        IntervalOption { id: "30s", label: "30 seconds" },
        IntervalOption { id: "1m", label: "1 minute" },
        IntervalOption { id: "5m", label: "5 minutes" },
        IntervalOption { id: "10m", label: "10 minutes" },
        IntervalOption { id: "15m", label: "15 minutes" },
        IntervalOption { id: "30m", label: "30 minutes" },
        IntervalOption { id: "1h", label: "1 hour" },
    ];
    v
}

/// The wire value a legacy spelling stands for: the v2 API's
/// millisecond integers (`0` meaning every update) and second counts.
pub open spec fn interval_alias(raw: Seq<char>) -> Option<Seq<char>> {
    if raw == "0"@ {
        Some("tick"@)
    } else if raw == "10"@ {
        Some("10ms"@)
    } else if raw == "100"@ {
        Some("100ms"@)
    } else if raw == "500"@ {
        Some("500ms"@)
    } else if raw == "1000"@ {
        Some("1s"@)
    } else if raw == "5000"@ {
        Some("5s"@)
    } else if raw == "10000"@ {
        Some("10s"@)
    } else if raw == "15000"@ {
        Some("15s"@)
    } else if raw == "30000"@ {
        Some("30s"@)
    } else if raw == "60000"@ || raw == "60s"@ {
        Some("1m"@)
    } else if raw == "300000"@ || raw == "300s"@ {
        Some("5m"@)
    } else if raw == "600000"@ || raw == "600s"@ {
        Some("10m"@)
    } else if raw == "900000"@ || raw == "900s"@ {
        Some("15m"@)
    } else if raw == "1800000"@ || raw == "1800s"@ {
        Some("30m"@)
    } else if raw == "3600000"@ || raw == "3600s"@ {
        Some("1h"@)
    } else {
        None
    }
}

/// `raw` trimmed, then mapped onto its wire value when it is a legacy
/// spelling; any other value passes through trimmed.
pub open spec fn normalized_interval(raw: Seq<char>) -> Seq<char> {
    let t = trim(raw);
    match interval_alias(t) {
        Some(n) => n,
        None => t,
    }
}

fn interval_alias_exec(t: &[char]) -> (r: Option<&'static str>)
    ensures
        r is None <==> interval_alias(t@) is None,
        r matches Some(n) ==> interval_alias(t@) == Some(n@),
{
    if eq_lit(t, "0") {
        Some("tick")
    } else if eq_lit(t, "10") {
        Some("10ms")
    } else if eq_lit(t, "100") {
        Some("100ms")
    } else if eq_lit(t, "500") {
        Some("500ms")
    } else if eq_lit(t, "1000") {
        Some("1s")
    } else if eq_lit(t, "5000") {
        Some("5s")
    } else if eq_lit(t, "10000") {
        Some("10s")
    } else if eq_lit(t, "15000") {
        Some("15s")
    } else if eq_lit(t, "30000") {
        Some("30s")
    } else if eq_lit(t, "60000") || eq_lit(t, "60s") {
        Some("1m")
    } else if eq_lit(t, "300000") || eq_lit(t, "300s") {
        Some("5m")
    } else if eq_lit(t, "600000") || eq_lit(t, "600s") {
        Some("10m")
    } else if eq_lit(t, "900000") || eq_lit(t, "900s") {
        Some("15m")
    } else if eq_lit(t, "1800000") || eq_lit(t, "1800s") {
        Some("30m")
    } else if eq_lit(t, "3600000") || eq_lit(t, "3600s") {
        Some("1h")
    } else {
        None
    }
}

/// Map legacy interval spellings onto the wire values ThetaData accepts;
/// see [`normalized_interval`].
pub fn normalize_interval(raw: &str) -> (r: String)
    ensures
        r@ == normalized_interval(raw@),
{
    let v = chars_of(raw);
    let t = trim_exec(v.as_slice());
    match interval_alias_exec(t.as_slice()) {
        Some(n) => string_of(chars_of(n).as_slice()),
        None => string_of(t.as_slice()),
    }
}

// ---------------------------------------------------------------------
// How long an interval is.
// ---------------------------------------------------------------------

pub open spec fn is_digit(c: char) -> bool {
    '0' <= c && c <= '9'
}

/// Every character of `s` is a decimal digit.
pub open spec fn digits_only(s: Seq<char>) -> bool
    decreases s.len(),
{
    s.len() == 0 || (is_digit(s.last()) && digits_only(s.drop_last()))
}

/// The number the decimal digits `s` spell.
pub open spec fn decimal(s: Seq<char>) -> int
    decreases s.len(),
{
    if s.len() == 0 {
        0
    } else {
        decimal(s.drop_last()) * 10 + (s.last() as int - '0' as int)
    }
}

/// `s` is a run of one or more digits.
pub open spec fn numeral(s: Seq<char>) -> bool {
    s.len() > 0 && digits_only(s)
}

/// How many milliseconds a legacy interval spells: a bare number counts
/// milliseconds, a number followed by `s` counts seconds.
pub open spec fn legacy_ms(raw: Seq<char>) -> Option<int> {
    if numeral(raw) {
        Some(decimal(raw))
    } else if raw.len() >= 2 && raw.last() == 's' && numeral(raw.drop_last()) {
        Some(decimal(raw.drop_last()) * 1000)
    } else {
        None
    }
}

/// How many milliseconds a wire interval lasts: `tick` is every update
/// (no wait at all); otherwise a number with its unit, `ms`, `s`, `m` or
/// `h`.
pub open spec fn wire_ms(w: Seq<char>) -> Option<int> {
    if w == seq!['t', 'i', 'c', 'k'] {
        Some(0)
    } else if w.len() >= 3 && w.last() == 's' && w[w.len() - 2] == 'm' && numeral(w.take(w.len() - 2)) {
        Some(decimal(w.take(w.len() - 2)))
    } else if w.len() >= 2 && numeral(w.drop_last()) {
        let n = decimal(w.drop_last());
        if w.last() == 's' {
            Some(n * 1000)
        } else if w.last() == 'm' {
            Some(n * 60000)
        } else if w.last() == 'h' {
            Some(n * 3600000)
        } else {
            None
        }
    } else {
        None
    }
}

/// A legacy spelling the normalizer rewrites lands on the wire interval
/// of the same duration: the milliseconds (or seconds) it spells are the
/// wire value's length.
pub proof fn law_legacy_intervals_keep_their_duration(raw: Seq<char>)
    ensures
        interval_alias(trim(raw)) is Some ==> legacy_ms(trim(raw)) is Some
            && wire_ms(normalized_interval(raw)) == legacy_ms(trim(raw)),
{
    lemma_alias_duration(trim(raw));
}

#[verifier::rlimit(40)]
proof fn lemma_alias_duration(raw: Seq<char>)
    ensures
        interval_alias(raw) matches Some(n) ==> legacy_ms(raw) is Some && wire_ms(n) == legacy_ms(raw),
{
    reveal_strlit("0");
    reveal_strlit("10");
    reveal_strlit("100");
    reveal_strlit("1000");
    reveal_strlit("10000");
    reveal_strlit("100ms");
    reveal_strlit("10m");
    reveal_strlit("10ms");
    reveal_strlit("10s");
    reveal_strlit("15000");
    reveal_strlit("15m");
    reveal_strlit("15s");
    reveal_strlit("1800000");
    reveal_strlit("1800s");
    reveal_strlit("1h");
    reveal_strlit("1m");
    reveal_strlit("1s");
    reveal_strlit("30000");
    reveal_strlit("300000");
    reveal_strlit("300s");
    reveal_strlit("30m");
    reveal_strlit("30s");
    reveal_strlit("3600000");
    reveal_strlit("3600s");
    reveal_strlit("500");
    reveal_strlit("5000");
    reveal_strlit("500ms");
    reveal_strlit("5m");
    reveal_strlit("5s");
    reveal_strlit("60000");
    reveal_strlit("600000");
    reveal_strlit("600s");
    reveal_strlit("60s");
    reveal_strlit("900000");
    reveal_strlit("900s");
    reveal_strlit("tick");
    if raw == "0"@ {
        assert("0"@ =~= seq!['0']);
        assert("tick"@ =~= seq!['t', 'i', 'c', 'k']);
        assert(legacy_ms(seq!['0']) == wire_ms(seq!['t', 'i', 'c', 'k']) && legacy_ms(seq!['0']) is Some) by {
            reveal_with_fuel(decimal, 8);
            reveal_with_fuel(digits_only, 8);
        }
    }
    if raw == "10"@ {
        assert("10"@ =~= seq!['1', '0']);
        assert("10ms"@ =~= seq!['1', '0', 'm', 's']);
        assert(legacy_ms(seq!['1', '0']) == wire_ms(seq!['1', '0', 'm', 's']) && legacy_ms(seq!['1', '0']) is Some) by {
            reveal_with_fuel(decimal, 8);
            reveal_with_fuel(digits_only, 8);
        }
    }
    if raw == "100"@ {
        assert("100"@ =~= seq!['1', '0', '0']);
        assert("100ms"@ =~= seq!['1', '0', '0', 'm', 's']);
        assert(legacy_ms(seq!['1', '0', '0']) == wire_ms(seq!['1', '0', '0', 'm', 's']) && legacy_ms(seq!['1', '0', '0']) is Some) by {
            reveal_with_fuel(decimal, 8);
            reveal_with_fuel(digits_only, 8);
        }
    }
    if raw == "500"@ {
        assert("500"@ =~= seq!['5', '0', '0']);
        assert("500ms"@ =~= seq!['5', '0', '0', 'm', 's']);
        assert(legacy_ms(seq!['5', '0', '0']) == wire_ms(seq!['5', '0', '0', 'm', 's']) && legacy_ms(seq!['5', '0', '0']) is Some) by {
            reveal_with_fuel(decimal, 8);
            reveal_with_fuel(digits_only, 8);
        }
    }
    if raw == "1000"@ {
        assert("1000"@ =~= seq!['1', '0', '0', '0']);
        assert("1s"@ =~= seq!['1', 's']);
        assert(legacy_ms(seq!['1', '0', '0', '0']) == wire_ms(seq!['1', 's']) && legacy_ms(seq!['1', '0', '0', '0']) is Some) by {
            reveal_with_fuel(decimal, 8);
            reveal_with_fuel(digits_only, 8);
        }
    }
    if raw == "5000"@ {
        assert("5000"@ =~= seq!['5', '0', '0', '0']);
        assert("5s"@ =~= seq!['5', 's']);
        assert(legacy_ms(seq!['5', '0', '0', '0']) == wire_ms(seq!['5', 's']) && legacy_ms(seq!['5', '0', '0', '0']) is Some) by {
            reveal_with_fuel(decimal, 8);
            reveal_with_fuel(digits_only, 8);
        }
    }
    if raw == "10000"@ {
        assert("10000"@ =~= seq!['1', '0', '0', '0', '0']);
        assert("10s"@ =~= seq!['1', '0', 's']);
        assert(legacy_ms(seq!['1', '0', '0', '0', '0']) == wire_ms(seq!['1', '0', 's']) && legacy_ms(seq!['1', '0', '0', '0', '0']) is Some) by {
            reveal_with_fuel(decimal, 8);
            reveal_with_fuel(digits_only, 8);
        }
    }
    if raw == "15000"@ {
        assert("15000"@ =~= seq!['1', '5', '0', '0', '0']);
        assert("15s"@ =~= seq!['1', '5', 's']);
        assert(legacy_ms(seq!['1', '5', '0', '0', '0']) == wire_ms(seq!['1', '5', 's']) && legacy_ms(seq!['1', '5', '0', '0', '0']) is Some) by {
            reveal_with_fuel(decimal, 8);
            reveal_with_fuel(digits_only, 8);
        }
    }
    if raw == "30000"@ {
        assert("30000"@ =~= seq!['3', '0', '0', '0', '0']);
        assert("30s"@ =~= seq!['3', '0', 's']);
        assert(legacy_ms(seq!['3', '0', '0', '0', '0']) == wire_ms(seq!['3', '0', 's']) && legacy_ms(seq!['3', '0', '0', '0', '0']) is Some) by {
            reveal_with_fuel(decimal, 8);
            reveal_with_fuel(digits_only, 8);
        }
    }
    if raw == "60000"@ {
        assert("60000"@ =~= seq!['6', '0', '0', '0', '0']);
        assert("1m"@ =~= seq!['1', 'm']);
        assert(legacy_ms(seq!['6', '0', '0', '0', '0']) == wire_ms(seq!['1', 'm']) && legacy_ms(seq!['6', '0', '0', '0', '0']) is Some) by {
            reveal_with_fuel(decimal, 8);
            reveal_with_fuel(digits_only, 8);
        }
    }
    if raw == "60s"@ {
        assert("60s"@ =~= seq!['6', '0', 's']);
        assert("1m"@ =~= seq!['1', 'm']);
        assert(legacy_ms(seq!['6', '0', 's']) == wire_ms(seq!['1', 'm']) && legacy_ms(seq!['6', '0', 's']) is Some) by {
            reveal_with_fuel(decimal, 8);
            reveal_with_fuel(digits_only, 8);
        }
    }
    if raw == "300000"@ {
        assert("300000"@ =~= seq!['3', '0', '0', '0', '0', '0']);
        assert("5m"@ =~= seq!['5', 'm']);
        assert(legacy_ms(seq!['3', '0', '0', '0', '0', '0']) == wire_ms(seq!['5', 'm']) && legacy_ms(seq!['3', '0', '0', '0', '0', '0']) is Some) by {
            reveal_with_fuel(decimal, 8);
            reveal_with_fuel(digits_only, 8);
        }
    }
    if raw == "300s"@ {
        assert("300s"@ =~= seq!['3', '0', '0', 's']);
        assert("5m"@ =~= seq!['5', 'm']);
        assert(legacy_ms(seq!['3', '0', '0', 's']) == wire_ms(seq!['5', 'm']) && legacy_ms(seq!['3', '0', '0', 's']) is Some) by {
            reveal_with_fuel(decimal, 8);
            reveal_with_fuel(digits_only, 8);
        }
    }
    if raw == "600000"@ {
        assert("600000"@ =~= seq!['6', '0', '0', '0', '0', '0']);
        assert("10m"@ =~= seq!['1', '0', 'm']);
        assert(legacy_ms(seq!['6', '0', '0', '0', '0', '0']) == wire_ms(seq!['1', '0', 'm']) && legacy_ms(seq!['6', '0', '0', '0', '0', '0']) is Some) by {
            reveal_with_fuel(decimal, 8);
            reveal_with_fuel(digits_only, 8);
        }
    }
    if raw == "600s"@ {
        assert("600s"@ =~= seq!['6', '0', '0', 's']);
        assert("10m"@ =~= seq!['1', '0', 'm']);
        assert(legacy_ms(seq!['6', '0', '0', 's']) == wire_ms(seq!['1', '0', 'm']) && legacy_ms(seq!['6', '0', '0', 's']) is Some) by {
            reveal_with_fuel(decimal, 8);
            reveal_with_fuel(digits_only, 8);
        }
    }
    if raw == "900000"@ {
        assert("900000"@ =~= seq!['9', '0', '0', '0', '0', '0']);
        assert("15m"@ =~= seq!['1', '5', 'm']);
        assert(legacy_ms(seq!['9', '0', '0', '0', '0', '0']) == wire_ms(seq!['1', '5', 'm']) && legacy_ms(seq!['9', '0', '0', '0', '0', '0']) is Some) by {
            reveal_with_fuel(decimal, 8);
            reveal_with_fuel(digits_only, 8);
        }
    }
    if raw == "900s"@ {
        assert("900s"@ =~= seq!['9', '0', '0', 's']);
        assert("15m"@ =~= seq!['1', '5', 'm']);
        assert(legacy_ms(seq!['9', '0', '0', 's']) == wire_ms(seq!['1', '5', 'm']) && legacy_ms(seq!['9', '0', '0', 's']) is Some) by {
            reveal_with_fuel(decimal, 8);
            reveal_with_fuel(digits_only, 8);
        }
    }
    if raw == "1800000"@ {
        assert("1800000"@ =~= seq!['1', '8', '0', '0', '0', '0', '0']);
        assert("30m"@ =~= seq!['3', '0', 'm']);
        assert(legacy_ms(seq!['1', '8', '0', '0', '0', '0', '0']) == wire_ms(seq!['3', '0', 'm']) && legacy_ms(seq!['1', '8', '0', '0', '0', '0', '0']) is Some) by {
            reveal_with_fuel(decimal, 8);
            reveal_with_fuel(digits_only, 8);
        }
    }
    if raw == "1800s"@ {
        assert("1800s"@ =~= seq!['1', '8', '0', '0', 's']);
        assert("30m"@ =~= seq!['3', '0', 'm']);
        assert(legacy_ms(seq!['1', '8', '0', '0', 's']) == wire_ms(seq!['3', '0', 'm']) && legacy_ms(seq!['1', '8', '0', '0', 's']) is Some) by {
            reveal_with_fuel(decimal, 8);
            reveal_with_fuel(digits_only, 8);
        }
    }
    if raw == "3600000"@ {
        assert("3600000"@ =~= seq!['3', '6', '0', '0', '0', '0', '0']);
        assert("1h"@ =~= seq!['1', 'h']);
        assert(legacy_ms(seq!['3', '6', '0', '0', '0', '0', '0']) == wire_ms(seq!['1', 'h']) && legacy_ms(seq!['3', '6', '0', '0', '0', '0', '0']) is Some) by {
            reveal_with_fuel(decimal, 8);
            reveal_with_fuel(digits_only, 8);
        }
    }
    if raw == "3600s"@ {
        assert("3600s"@ =~= seq!['3', '6', '0', '0', 's']);
        assert("1h"@ =~= seq!['1', 'h']);
        assert(legacy_ms(seq!['3', '6', '0', '0', 's']) == wire_ms(seq!['1', 'h']) && legacy_ms(seq!['3', '6', '0', '0', 's']) is Some) by {
            reveal_with_fuel(decimal, 8);
            reveal_with_fuel(digits_only, 8);
        }
    }
}

/// `n` written in decimal digits.
pub open spec fn decimal_text(n: nat) -> Seq<char>
    decreases n,
{
    let d = (n % 10) as int;
    let c = if d == 0 { '0' } else if d == 1 { '1' } else if d == 2 { '2' } else if d == 3 { '3' } else if d == 4 {
        '4'
    } else if d == 5 { '5' } else if d == 6 { '6' } else if d == 7 { '7' } else if d == 8 { '8' } else { '9' };
    if n < 10 {
        seq![c]
    } else {
        decimal_text(n / 10).push(c)
    }
}

proof fn lemma_numeral_normalizes(raw: Seq<char>)
    requires
        raw.len() > 0,
        forall|i: int| 0 <= i < raw.len() ==> ('0' <= #[trigger] raw[i] <= '9' || raw[i] == 's'),
    ensures
        normalized_interval(raw) == (match interval_alias(raw) {
            Some(n) => n,
            None => raw,
        }),
{
    assert(!is_ws(raw[0]) && !is_ws(raw.last()));
    lemma_trim_of_trimmed(raw);
}

/// Every wire interval, spelled as its length in milliseconds (and, from
/// a minute up, in seconds with an `s`), normalizes back to itself: no
/// legacy spelling of an accepted interval is left unrewritten or sent
/// elsewhere.
pub proof fn law_durations_spell_their_interval(i: int)
    requires
        0 <= i < interval_ids().len(),
    ensures
        wire_ms(interval_ids()[i]) is Some,
        normalized_interval(decimal_text(wire_ms(interval_ids()[i])->0 as nat)) == interval_ids()[i],
        wire_ms(interval_ids()[i])->0 >= 60000 ==> normalized_interval(
            decimal_text((wire_ms(interval_ids()[i])->0 / 1000) as nat).push('s'),
        ) == interval_ids()[i],
{
    if i == 0 {
        lemma_spells_0();
    }
    if i == 1 {
        lemma_spells_1();
    }
    if i == 2 {
        lemma_spells_2();
    }
    if i == 3 {
        lemma_spells_3();
    }
    if i == 4 {
        lemma_spells_4();
    }
    if i == 5 {
        lemma_spells_5();
    }
    if i == 6 {
        lemma_spells_6();
    }
    if i == 7 {
        lemma_spells_7();
    }
    if i == 8 {
        lemma_spells_8();
    }
    if i == 9 {
        lemma_spells_9();
    }
    if i == 10 {
        lemma_spells_10();
    }
    if i == 11 {
        lemma_spells_11();
    }
    if i == 12 {
        lemma_spells_12();
    }
    if i == 13 {
        lemma_spells_13();
    }
    if i == 14 {
        lemma_spells_14();
    }
}

/// See [`law_durations_spell_their_interval`]: the interval `tick`.
proof fn lemma_spells_0()
    ensures
        interval_ids()[0] == "tick"@,
        wire_ms("tick"@) == Some(0int),
        normalized_interval(decimal_text(0)) == "tick"@,
{
    reveal_strlit("tick");
    reveal_strlit("0");
    reveal_strlit("10");
    reveal_strlit("100");
    reveal_strlit("500");
    reveal_strlit("1000");
    reveal_strlit("5000");
    reveal_strlit("10000");
    reveal_strlit("15000");
    reveal_strlit("30000");
    reveal_strlit("60000");
    reveal_strlit("60s");
    reveal_strlit("300000");
    reveal_strlit("300s");
    reveal_strlit("600000");
    reveal_strlit("600s");
    reveal_strlit("900000");
    reveal_strlit("900s");
    reveal_strlit("1800000");
    reveal_strlit("1800s");
    reveal_strlit("3600000");
    reveal_strlit("3600s");
    assert(interval_ids()[0] == "tick"@);
    assert("tick"@ =~= seq!['t', 'i', 'c', 'k']);
    assert(wire_ms(seq!['t', 'i', 'c', 'k']) == Some(0int)) by {
        reveal_with_fuel(decimal, 8);
        reveal_with_fuel(digits_only, 8);
    }
    assert(decimal_text(0) =~= seq!['0']) by {
        reveal_with_fuel(decimal_text, 8);
    }
    assert("0"@ =~= seq!['0']);
    lemma_numeral_normalizes("0"@);
    assert(interval_alias("0"@) == Some("tick"@));
}

/// See [`law_durations_spell_their_interval`]: the interval `10ms`.
proof fn lemma_spells_1()
    ensures
        interval_ids()[1] == "10ms"@,
        wire_ms("10ms"@) == Some(10int),
        normalized_interval(decimal_text(10)) == "10ms"@,
{
    reveal_strlit("10ms");
    reveal_strlit("0");
    reveal_strlit("10");
    reveal_strlit("100");
    reveal_strlit("500");
    reveal_strlit("1000");
    reveal_strlit("5000");
    reveal_strlit("10000");
    reveal_strlit("15000");
    reveal_strlit("30000");
    reveal_strlit("60000");
    reveal_strlit("60s");
    reveal_strlit("300000");
    reveal_strlit("300s");
    reveal_strlit("600000");
    reveal_strlit("600s");
    reveal_strlit("900000");
    reveal_strlit("900s");
    reveal_strlit("1800000");
    reveal_strlit("1800s");
    reveal_strlit("3600000");
    reveal_strlit("3600s");
    assert(interval_ids()[1] == "10ms"@);
    assert("10ms"@ =~= seq!['1', '0', 'm', 's']);
    assert(wire_ms(seq!['1', '0', 'm', 's']) == Some(10int)) by {
        reveal_with_fuel(decimal, 8);
        reveal_with_fuel(digits_only, 8);
    }
    assert(decimal_text(10) =~= seq!['1', '0']) by {
        reveal_with_fuel(decimal_text, 8);
    }
    assert("10"@ =~= seq!['1', '0']);
    lemma_numeral_normalizes("10"@);
    assert(interval_alias("10"@) == Some("10ms"@));
}

/// See [`law_durations_spell_their_interval`]: the interval `100ms`.
proof fn lemma_spells_2()
    ensures
        interval_ids()[2] == "100ms"@,
        wire_ms("100ms"@) == Some(100int),
        normalized_interval(decimal_text(100)) == "100ms"@,
{
    reveal_strlit("100ms");
    reveal_strlit("0");
    reveal_strlit("10");
    reveal_strlit("100");
    reveal_strlit("500");
    reveal_strlit("1000");
    reveal_strlit("5000");
    reveal_strlit("10000");
    reveal_strlit("15000");
    reveal_strlit("30000");
    reveal_strlit("60000");
    reveal_strlit("60s");
    reveal_strlit("300000");
    reveal_strlit("300s");
    reveal_strlit("600000");
    reveal_strlit("600s");
    reveal_strlit("900000");
    reveal_strlit("900s");
    reveal_strlit("1800000");
    reveal_strlit("1800s");
    reveal_strlit("3600000");
    reveal_strlit("3600s");
    assert(interval_ids()[2] == "100ms"@);
    assert("100ms"@ =~= seq!['1', '0', '0', 'm', 's']);
    assert(wire_ms(seq!['1', '0', '0', 'm', 's']) == Some(100int)) by {
        reveal_with_fuel(decimal, 8);
        reveal_with_fuel(digits_only, 8);
    }
    assert(decimal_text(100) =~= seq!['1', '0', '0']) by {
        reveal_with_fuel(decimal_text, 8);
    }
    assert("100"@ =~= seq!['1', '0', '0']);
    lemma_numeral_normalizes("100"@);
    assert(interval_alias("100"@) == Some("100ms"@));
}

/// See [`law_durations_spell_their_interval`]: the interval `500ms`.
proof fn lemma_spells_3()
    ensures
        interval_ids()[3] == "500ms"@,
        wire_ms("500ms"@) == Some(500int),
        normalized_interval(decimal_text(500)) == "500ms"@,
{
    reveal_strlit("500ms");
    reveal_strlit("0");
    reveal_strlit("10");
    reveal_strlit("100");
    reveal_strlit("500");
    reveal_strlit("1000");
    reveal_strlit("5000");
    reveal_strlit("10000");
    reveal_strlit("15000");
    reveal_strlit("30000");
    reveal_strlit("60000");
    reveal_strlit("60s");
    reveal_strlit("300000");
    reveal_strlit("300s");
    reveal_strlit("600000");
    reveal_strlit("600s");
    reveal_strlit("900000");
    reveal_strlit("900s");
    reveal_strlit("1800000");
    reveal_strlit("1800s");
    reveal_strlit("3600000");
    reveal_strlit("3600s");
    assert(interval_ids()[3] == "500ms"@);
    assert("500ms"@ =~= seq!['5', '0', '0', 'm', 's']);
    assert(wire_ms(seq!['5', '0', '0', 'm', 's']) == Some(500int)) by {
        reveal_with_fuel(decimal, 8);
        reveal_with_fuel(digits_only, 8);
    }
    assert(decimal_text(500) =~= seq!['5', '0', '0']) by {
        reveal_with_fuel(decimal_text, 8);
    }
    assert("500"@ =~= seq!['5', '0', '0']);
    lemma_numeral_normalizes("500"@);
    assert(interval_alias("500"@) == Some("500ms"@));
}

/// See [`law_durations_spell_their_interval`]: the interval `1s`.
proof fn lemma_spells_4()
    ensures
        interval_ids()[4] == "1s"@,
        wire_ms("1s"@) == Some(1000int),
        normalized_interval(decimal_text(1000)) == "1s"@,
{
    reveal_strlit("1s");
    reveal_strlit("0");
    reveal_strlit("10");
    reveal_strlit("100");
    reveal_strlit("500");
    reveal_strlit("1000");
    reveal_strlit("5000");
    reveal_strlit("10000");
    reveal_strlit("15000");
    reveal_strlit("30000");
    reveal_strlit("60000");
    reveal_strlit("60s");
    reveal_strlit("300000");
    reveal_strlit("300s");
    reveal_strlit("600000");
    reveal_strlit("600s");
    reveal_strlit("900000");
    reveal_strlit("900s");
    reveal_strlit("1800000");
    reveal_strlit("1800s");
    reveal_strlit("3600000");
    reveal_strlit("3600s");
    assert(interval_ids()[4] == "1s"@);
    assert("1s"@ =~= seq!['1', 's']);
    assert(wire_ms(seq!['1', 's']) == Some(1000int)) by {
        reveal_with_fuel(decimal, 8);
        reveal_with_fuel(digits_only, 8);
    }
    assert(decimal_text(1000) =~= seq!['1', '0', '0', '0']) by {
        reveal_with_fuel(decimal_text, 8);
    }
    assert("1000"@ =~= seq!['1', '0', '0', '0']);
    lemma_numeral_normalizes("1000"@);
    assert(interval_alias("1000"@) == Some("1s"@));
}

/// See [`law_durations_spell_their_interval`]: the interval `5s`.
proof fn lemma_spells_5()
    ensures
        interval_ids()[5] == "5s"@,
        wire_ms("5s"@) == Some(5000int),
        normalized_interval(decimal_text(5000)) == "5s"@,
{
    reveal_strlit("5s");
    reveal_strlit("0");
    reveal_strlit("10");
    reveal_strlit("100");
    reveal_strlit("500");
    reveal_strlit("1000");
    reveal_strlit("5000");
    reveal_strlit("10000");
    reveal_strlit("15000");
    reveal_strlit("30000");
    reveal_strlit("60000");
    reveal_strlit("60s");
    reveal_strlit("300000");
    reveal_strlit("300s");
    reveal_strlit("600000");
    reveal_strlit("600s");
    reveal_strlit("900000");
    reveal_strlit("900s");
    reveal_strlit("1800000");
    reveal_strlit("1800s");
    reveal_strlit("3600000");
    reveal_strlit("3600s");
    assert(interval_ids()[5] == "5s"@);
    assert("5s"@ =~= seq!['5', 's']);
    assert(wire_ms(seq!['5', 's']) == Some(5000int)) by {
        reveal_with_fuel(decimal, 8);
        reveal_with_fuel(digits_only, 8);
    }
    assert(decimal_text(5000) =~= seq!['5', '0', '0', '0']) by {
        reveal_with_fuel(decimal_text, 8);
    }
    assert("5000"@ =~= seq!['5', '0', '0', '0']);
    lemma_numeral_normalizes("5000"@);
    assert(interval_alias("5000"@) == Some("5s"@));
}

/// See [`law_durations_spell_their_interval`]: the interval `10s`.
proof fn lemma_spells_6()
    ensures
        interval_ids()[6] == "10s"@,
        wire_ms("10s"@) == Some(10000int),
        normalized_interval(decimal_text(10000)) == "10s"@,
{
    reveal_strlit("10s");
    reveal_strlit("0");
    reveal_strlit("10");
    reveal_strlit("100");
    reveal_strlit("500");
    reveal_strlit("1000");
    reveal_strlit("5000");
    reveal_strlit("10000");
    reveal_strlit("15000");
    reveal_strlit("30000");
    reveal_strlit("60000");
    reveal_strlit("60s");
    reveal_strlit("300000");
    reveal_strlit("300s");
    reveal_strlit("600000");
    reveal_strlit("600s");
    reveal_strlit("900000");
    reveal_strlit("900s");
    reveal_strlit("1800000");
    reveal_strlit("1800s");
    reveal_strlit("3600000");
    reveal_strlit("3600s");
    assert(interval_ids()[6] == "10s"@);
    assert("10s"@ =~= seq!['1', '0', 's']);
    assert(wire_ms(seq!['1', '0', 's']) == Some(10000int)) by {
        reveal_with_fuel(decimal, 8);
        reveal_with_fuel(digits_only, 8);
    }
    assert(decimal_text(10000) =~= seq!['1', '0', '0', '0', '0']) by {
        reveal_with_fuel(decimal_text, 8);
    }
    assert("10000"@ =~= seq!['1', '0', '0', '0', '0']);
    lemma_numeral_normalizes("10000"@);
    assert(interval_alias("10000"@) == Some("10s"@));
}

/// See [`law_durations_spell_their_interval`]: the interval `15s`.
proof fn lemma_spells_7()
    ensures
        interval_ids()[7] == "15s"@,
        wire_ms("15s"@) == Some(15000int),
        normalized_interval(decimal_text(15000)) == "15s"@,
{
    reveal_strlit("15s");
    reveal_strlit("0");
    reveal_strlit("10");
    reveal_strlit("100");
    reveal_strlit("500");
    reveal_strlit("1000");
    reveal_strlit("5000");
    reveal_strlit("10000");
    reveal_strlit("15000");
    reveal_strlit("30000");
    reveal_strlit("60000");
    reveal_strlit("60s");
    reveal_strlit("300000");
    reveal_strlit("300s");
    reveal_strlit("600000");
    reveal_strlit("600s");
    reveal_strlit("900000");
    reveal_strlit("900s");
    reveal_strlit("1800000");
    reveal_strlit("1800s");
    reveal_strlit("3600000");
    reveal_strlit("3600s");
    assert(interval_ids()[7] == "15s"@);
    assert("15s"@ =~= seq!['1', '5', 's']);
    assert(wire_ms(seq!['1', '5', 's']) == Some(15000int)) by {
        reveal_with_fuel(decimal, 8);
        reveal_with_fuel(digits_only, 8);
    }
    assert(decimal_text(15000) =~= seq!['1', '5', '0', '0', '0']) by {
        reveal_with_fuel(decimal_text, 8);
    }
    assert("15000"@ =~= seq!['1', '5', '0', '0', '0']);
    lemma_numeral_normalizes("15000"@);
    assert(interval_alias("15000"@) == Some("15s"@));
}

/// See [`law_durations_spell_their_interval`]: the interval `30s`.
proof fn lemma_spells_8()
    ensures
        interval_ids()[8] == "30s"@,
        wire_ms("30s"@) == Some(30000int),
        normalized_interval(decimal_text(30000)) == "30s"@,
{
    reveal_strlit("30s");
    reveal_strlit("0");
    reveal_strlit("10");
    reveal_strlit("100");
    reveal_strlit("500");
    reveal_strlit("1000");
    reveal_strlit("5000");
    reveal_strlit("10000");
    reveal_strlit("15000");
    reveal_strlit("30000");
    reveal_strlit("60000");
    reveal_strlit("60s");
    reveal_strlit("300000");
    reveal_strlit("300s");
    reveal_strlit("600000");
    reveal_strlit("600s");
    reveal_strlit("900000");
    reveal_strlit("900s");
    reveal_strlit("1800000");
    reveal_strlit("1800s");
    reveal_strlit("3600000");
    reveal_strlit("3600s");
    assert(interval_ids()[8] == "30s"@);
    assert("30s"@ =~= seq!['3', '0', 's']);
    assert(wire_ms(seq!['3', '0', 's']) == Some(30000int)) by {
        reveal_with_fuel(decimal, 8);
        reveal_with_fuel(digits_only, 8);
    }
    assert(decimal_text(30000) =~= seq!['3', '0', '0', '0', '0']) by {
        reveal_with_fuel(decimal_text, 8);
    }
    assert("30000"@ =~= seq!['3', '0', '0', '0', '0']);
    lemma_numeral_normalizes("30000"@);
    assert(interval_alias("30000"@) == Some("30s"@));
}

/// See [`law_durations_spell_their_interval`]: the interval `1m`.
proof fn lemma_spells_9()
    ensures
        interval_ids()[9] == "1m"@,
        wire_ms("1m"@) == Some(60000int),
        normalized_interval(decimal_text(60000)) == "1m"@,
        normalized_interval(decimal_text(60).push('s')) == "1m"@,
{
    reveal_strlit("1m");
    reveal_strlit("0");
    reveal_strlit("10");
    reveal_strlit("100");
    reveal_strlit("500");
    reveal_strlit("1000");
    reveal_strlit("5000");
    reveal_strlit("10000");
    reveal_strlit("15000");
    reveal_strlit("30000");
    reveal_strlit("60000");
    reveal_strlit("60s");
    reveal_strlit("300000");
    reveal_strlit("300s");
    reveal_strlit("600000");
    reveal_strlit("600s");
    reveal_strlit("900000");
    reveal_strlit("900s");
    reveal_strlit("1800000");
    reveal_strlit("1800s");
    reveal_strlit("3600000");
    reveal_strlit("3600s");
    assert(interval_ids()[9] == "1m"@);
    assert("1m"@ =~= seq!['1', 'm']);
    assert(wire_ms(seq!['1', 'm']) == Some(60000int)) by {
        reveal_with_fuel(decimal, 8);
        reveal_with_fuel(digits_only, 8);
    }
    assert(decimal_text(60000) =~= seq!['6', '0', '0', '0', '0']) by {
        reveal_with_fuel(decimal_text, 8);
    }
    assert("60000"@ =~= seq!['6', '0', '0', '0', '0']);
    lemma_numeral_normalizes("60000"@);
    assert(interval_alias("60000"@) == Some("1m"@));
    assert(decimal_text(60) =~= seq!['6', '0']) by {
        reveal_with_fuel(decimal_text, 8);
    }
    assert("60s"@ =~= seq!['6', '0', 's']);
    assert(decimal_text(60).push('s') =~= "60s"@);
    lemma_numeral_normalizes("60s"@);
    assert(interval_alias("60s"@) == Some("1m"@));
}

/// See [`law_durations_spell_their_interval`]: the interval `5m`.
proof fn lemma_spells_10()
    ensures
        interval_ids()[10] == "5m"@,
        wire_ms("5m"@) == Some(300000int),
        normalized_interval(decimal_text(300000)) == "5m"@,
        normalized_interval(decimal_text(300).push('s')) == "5m"@,
{
    reveal_strlit("5m");
    reveal_strlit("0");
    reveal_strlit("10");
    reveal_strlit("100");
    reveal_strlit("500");
    reveal_strlit("1000");
    reveal_strlit("5000");
    reveal_strlit("10000");
    reveal_strlit("15000");
    reveal_strlit("30000");
    reveal_strlit("60000");
    reveal_strlit("60s");
    reveal_strlit("300000");
    reveal_strlit("300s");
    reveal_strlit("600000");
    reveal_strlit("600s");
    reveal_strlit("900000");
    reveal_strlit("900s");
    reveal_strlit("1800000");
    reveal_strlit("1800s");
    reveal_strlit("3600000");
    reveal_strlit("3600s");
    assert(interval_ids()[10] == "5m"@);
    assert("5m"@ =~= seq!['5', 'm']);
    assert(wire_ms(seq!['5', 'm']) == Some(300000int)) by {
        reveal_with_fuel(decimal, 8);
        reveal_with_fuel(digits_only, 8);
    }
    assert(decimal_text(300000) =~= seq!['3', '0', '0', '0', '0', '0']) by {
        reveal_with_fuel(decimal_text, 8);
    }
    assert("300000"@ =~= seq!['3', '0', '0', '0', '0', '0']);
    lemma_numeral_normalizes("300000"@);
    assert(interval_alias("300000"@) == Some("5m"@));
    assert(decimal_text(300) =~= seq!['3', '0', '0']) by {
        reveal_with_fuel(decimal_text, 8);
    }
    assert("300s"@ =~= seq!['3', '0', '0', 's']);
    assert(decimal_text(300).push('s') =~= "300s"@);
    lemma_numeral_normalizes("300s"@);
    assert(interval_alias("300s"@) == Some("5m"@));
}

/// See [`law_durations_spell_their_interval`]: the interval `10m`.
proof fn lemma_spells_11()
    ensures
        interval_ids()[11] == "10m"@,
        wire_ms("10m"@) == Some(600000int),
        normalized_interval(decimal_text(600000)) == "10m"@,
        normalized_interval(decimal_text(600).push('s')) == "10m"@,
{
    reveal_strlit("10m");
    reveal_strlit("0");
    reveal_strlit("10");
    reveal_strlit("100");
    reveal_strlit("500");
    reveal_strlit("1000");
    reveal_strlit("5000");
    reveal_strlit("10000");
    reveal_strlit("15000");
    reveal_strlit("30000");
    reveal_strlit("60000");
    reveal_strlit("60s");
    reveal_strlit("300000");
    reveal_strlit("300s");
    reveal_strlit("600000");
    reveal_strlit("600s");
    reveal_strlit("900000");
    reveal_strlit("900s");
    reveal_strlit("1800000");
    reveal_strlit("1800s");
    reveal_strlit("3600000");
    reveal_strlit("3600s");
    assert(interval_ids()[11] == "10m"@);
    assert("10m"@ =~= seq!['1', '0', 'm']);
    assert(wire_ms(seq!['1', '0', 'm']) == Some(600000int)) by {
        reveal_with_fuel(decimal, 8);
        reveal_with_fuel(digits_only, 8);
    }
    assert(decimal_text(600000) =~= seq!['6', '0', '0', '0', '0', '0']) by {
        reveal_with_fuel(decimal_text, 8);
    }
    assert("600000"@ =~= seq!['6', '0', '0', '0', '0', '0']);
    lemma_numeral_normalizes("600000"@);
    assert(interval_alias("600000"@) == Some("10m"@));
    assert(decimal_text(600) =~= seq!['6', '0', '0']) by {
        reveal_with_fuel(decimal_text, 8);
    }
    assert("600s"@ =~= seq!['6', '0', '0', 's']);
    assert(decimal_text(600).push('s') =~= "600s"@);
    lemma_numeral_normalizes("600s"@);
    assert(interval_alias("600s"@) == Some("10m"@));
}

/// See [`law_durations_spell_their_interval`]: the interval `15m`.
proof fn lemma_spells_12()
    ensures
        interval_ids()[12] == "15m"@,
        wire_ms("15m"@) == Some(900000int),
        normalized_interval(decimal_text(900000)) == "15m"@,
        normalized_interval(decimal_text(900).push('s')) == "15m"@,
{
    reveal_strlit("15m");
    reveal_strlit("0");
    reveal_strlit("10");
    reveal_strlit("100");
    reveal_strlit("500");
    reveal_strlit("1000");
    reveal_strlit("5000");
    reveal_strlit("10000");
    reveal_strlit("15000");
    reveal_strlit("30000");
    reveal_strlit("60000");
    reveal_strlit("60s");
    reveal_strlit("300000");
    reveal_strlit("300s");
    reveal_strlit("600000");
    reveal_strlit("600s");
    reveal_strlit("900000");
    reveal_strlit("900s");
    reveal_strlit("1800000");
    reveal_strlit("1800s");
    reveal_strlit("3600000");
    reveal_strlit("3600s");
    assert(interval_ids()[12] == "15m"@);
    assert("15m"@ =~= seq!['1', '5', 'm']);
    assert(wire_ms(seq!['1', '5', 'm']) == Some(900000int)) by {
        reveal_with_fuel(decimal, 8);
        reveal_with_fuel(digits_only, 8);
    }
    assert(decimal_text(900000) =~= seq!['9', '0', '0', '0', '0', '0']) by {
        reveal_with_fuel(decimal_text, 8);
    }
    assert("900000"@ =~= seq!['9', '0', '0', '0', '0', '0']);
    lemma_numeral_normalizes("900000"@);
    assert(interval_alias("900000"@) == Some("15m"@));
    assert(decimal_text(900) =~= seq!['9', '0', '0']) by {
        reveal_with_fuel(decimal_text, 8);
    }
    assert("900s"@ =~= seq!['9', '0', '0', 's']);
    assert(decimal_text(900).push('s') =~= "900s"@);
    lemma_numeral_normalizes("900s"@);
    assert(interval_alias("900s"@) == Some("15m"@));
}

/// See [`law_durations_spell_their_interval`]: the interval `30m`.
proof fn lemma_spells_13()
    ensures
        interval_ids()[13] == "30m"@,
        wire_ms("30m"@) == Some(1800000int),
        normalized_interval(decimal_text(1800000)) == "30m"@,
        normalized_interval(decimal_text(1800).push('s')) == "30m"@,
{
    reveal_strlit("30m");
    reveal_strlit("0");
    reveal_strlit("10");
    reveal_strlit("100");
    reveal_strlit("500");
    reveal_strlit("1000");
    reveal_strlit("5000");
    reveal_strlit("10000");
    reveal_strlit("15000");
    reveal_strlit("30000");
    reveal_strlit("60000");
    reveal_strlit("60s");
    reveal_strlit("300000");
    reveal_strlit("300s");
    reveal_strlit("600000");
    reveal_strlit("600s");
    reveal_strlit("900000");
    reveal_strlit("900s");
    reveal_strlit("1800000");
    reveal_strlit("1800s");
    reveal_strlit("3600000");
    reveal_strlit("3600s");
    assert(interval_ids()[13] == "30m"@);
    assert("30m"@ =~= seq!['3', '0', 'm']);
    assert(wire_ms(seq!['3', '0', 'm']) == Some(1800000int)) by {
        reveal_with_fuel(decimal, 8);
        reveal_with_fuel(digits_only, 8);
    }
    assert(decimal_text(1800000) =~= seq!['1', '8', '0', '0', '0', '0', '0']) by {
        reveal_with_fuel(decimal_text, 8);
    }
    assert("1800000"@ =~= seq!['1', '8', '0', '0', '0', '0', '0']);
    lemma_numeral_normalizes("1800000"@);
    assert(interval_alias("1800000"@) == Some("30m"@));
    assert(decimal_text(1800) =~= seq!['1', '8', '0', '0']) by {
        reveal_with_fuel(decimal_text, 8);
    }
    assert("1800s"@ =~= seq!['1', '8', '0', '0', 's']);
    assert(decimal_text(1800).push('s') =~= "1800s"@);
    lemma_numeral_normalizes("1800s"@);
    assert(interval_alias("1800s"@) == Some("30m"@));
}

/// See [`law_durations_spell_their_interval`]: the interval `1h`.
proof fn lemma_spells_14()
    ensures
        interval_ids()[14] == "1h"@,
        wire_ms("1h"@) == Some(3600000int),
        normalized_interval(decimal_text(3600000)) == "1h"@,
        normalized_interval(decimal_text(3600).push('s')) == "1h"@,
{
    reveal_strlit("1h");
    reveal_strlit("0");
    reveal_strlit("10");
    reveal_strlit("100");
    reveal_strlit("500");
    reveal_strlit("1000");
    reveal_strlit("5000");
    reveal_strlit("10000");
    reveal_strlit("15000");
    reveal_strlit("30000");
    reveal_strlit("60000");
    reveal_strlit("60s");
    reveal_strlit("300000");
    reveal_strlit("300s");
    reveal_strlit("600000");
    reveal_strlit("600s");
    reveal_strlit("900000");
    reveal_strlit("900s");
    reveal_strlit("1800000");
    reveal_strlit("1800s");
    reveal_strlit("3600000");
    reveal_strlit("3600s");
    assert(interval_ids()[14] == "1h"@);
    assert("1h"@ =~= seq!['1', 'h']);
    assert(wire_ms(seq!['1', 'h']) == Some(3600000int)) by {
        reveal_with_fuel(decimal, 8);
        reveal_with_fuel(digits_only, 8);
    }
    assert(decimal_text(3600000) =~= seq!['3', '6', '0', '0', '0', '0', '0']) by {
        reveal_with_fuel(decimal_text, 8);
    }
    assert("3600000"@ =~= seq!['3', '6', '0', '0', '0', '0', '0']);
    lemma_numeral_normalizes("3600000"@);
    assert(interval_alias("3600000"@) == Some("1h"@));
    assert(decimal_text(3600) =~= seq!['3', '6', '0', '0']) by {
        reveal_with_fuel(decimal_text, 8);
    }
    assert("3600s"@ =~= seq!['3', '6', '0', '0', 's']);
    assert(decimal_text(3600).push('s') =~= "3600s"@);
    lemma_numeral_normalizes("3600s"@);
    assert(interval_alias("3600s"@) == Some("1h"@));
}
/// A value already in wire form survives normalization untouched.
pub proof fn law_wire_intervals_are_fixed_points(i: int)
    requires
        0 <= i < interval_ids().len(),
    ensures
        normalized_interval(interval_ids()[i]) == interval_ids()[i],
{
    reveal_strlit("tick");
    reveal_strlit("10ms");
    reveal_strlit("100ms");
    reveal_strlit("500ms");
    reveal_strlit("1s");
    reveal_strlit("5s");
    reveal_strlit("10s");
    reveal_strlit("15s");
    reveal_strlit("30s");
    reveal_strlit("1m");
    reveal_strlit("5m");
    reveal_strlit("10m");
    reveal_strlit("15m");
    reveal_strlit("30m");
    reveal_strlit("1h");
    reveal_strlit("0");
    reveal_strlit("10");
    reveal_strlit("100");
    reveal_strlit("500");
    reveal_strlit("1000");
    reveal_strlit("5000");
    reveal_strlit("10000");
    reveal_strlit("15000");
    reveal_strlit("30000");
    reveal_strlit("60000");
    reveal_strlit("60s");
    reveal_strlit("300000");
    reveal_strlit("300s");
    reveal_strlit("600000");
    reveal_strlit("600s");
    reveal_strlit("900000");
    reveal_strlit("900s");
    reveal_strlit("1800000");
    reveal_strlit("1800s");
    reveal_strlit("3600000");
    reveal_strlit("3600s");
    let id = interval_ids()[i];
    if i == 0 {
        assert(id == "tick"@);
        assert(trim_start(id) == id);
        assert(trim_end(id) == id);
        assert("tick"@[0] != "1000"@[0]);
        assert("tick"@[0] != "5000"@[0]);
        assert("tick"@[0] != "300s"@[0]);
        assert("tick"@[0] != "600s"@[0]);
        assert("tick"@[0] != "900s"@[0]);
        assert(interval_alias(id) is None);
    }
    if i == 1 {
        assert(id == "10ms"@);
        assert(trim_start(id) == id);
        assert(trim_end(id) == id);
        assert("10ms"@[2] != "1000"@[2]);
        assert("10ms"@[0] != "5000"@[0]);
        assert("10ms"@[0] != "300s"@[0]);
        assert("10ms"@[0] != "600s"@[0]);
        assert("10ms"@[0] != "900s"@[0]);
        assert(interval_alias(id) is None);
    }
    if i == 2 {
        assert(id == "100ms"@);
        assert(trim_start(id) == id);
        assert(trim_end(id) == id);
        assert("100ms"@[3] != "10000"@[3]);
        assert("100ms"@[1] != "15000"@[1]);
        assert("100ms"@[0] != "30000"@[0]);
        assert("100ms"@[0] != "60000"@[0]);
        assert("100ms"@[1] != "1800s"@[1]);
        assert("100ms"@[0] != "3600s"@[0]);
        assert(interval_alias(id) is None);
    }
    if i == 3 {
        assert(id == "500ms"@);
        assert(trim_start(id) == id);
        assert(trim_end(id) == id);
        assert("500ms"@[0] != "10000"@[0]);
        assert("500ms"@[0] != "15000"@[0]);
        assert("500ms"@[0] != "30000"@[0]);
        assert("500ms"@[0] != "60000"@[0]);
        assert("500ms"@[0] != "1800s"@[0]);
        assert("500ms"@[0] != "3600s"@[0]);
        assert(interval_alias(id) is None);
    }
    if i == 4 {
        assert(id == "1s"@);
        assert(trim_start(id) == id);
        assert(trim_end(id) == id);
        assert("1s"@[1] != "10"@[1]);
        assert(interval_alias(id) is None);
    }
    if i == 5 {
        assert(id == "5s"@);
        assert(trim_start(id) == id);
        assert(trim_end(id) == id);
        assert("5s"@[0] != "10"@[0]);
        assert(interval_alias(id) is None);
    }
    if i == 6 {
        assert(id == "10s"@);
        assert(trim_start(id) == id);
        assert(trim_end(id) == id);
        assert("10s"@[2] != "100"@[2]);
        assert("10s"@[0] != "500"@[0]);
        assert("10s"@[0] != "60s"@[0]);
        assert(interval_alias(id) is None);
    }
    if i == 7 {
        assert(id == "15s"@);
        assert(trim_start(id) == id);
        assert(trim_end(id) == id);
        assert("15s"@[1] != "100"@[1]);
        assert("15s"@[0] != "500"@[0]);
        assert("15s"@[0] != "60s"@[0]);
        assert(interval_alias(id) is None);
    }
    if i == 8 {
        assert(id == "30s"@);
        assert(trim_start(id) == id);
        assert(trim_end(id) == id);
        assert("30s"@[0] != "100"@[0]);
        assert("30s"@[0] != "500"@[0]);
        assert("30s"@[0] != "60s"@[0]);
        assert(interval_alias(id) is None);
    }
    if i == 9 {
        assert(id == "1m"@);
        assert(trim_start(id) == id);
        assert(trim_end(id) == id);
        assert("1m"@[1] != "10"@[1]);
        assert(interval_alias(id) is None);
    }
    if i == 10 {
        assert(id == "5m"@);
        assert(trim_start(id) == id);
        assert(trim_end(id) == id);
        assert("5m"@[0] != "10"@[0]);
        assert(interval_alias(id) is None);
    }
    if i == 11 {
        assert(id == "10m"@);
        assert(trim_start(id) == id);
        assert(trim_end(id) == id);
        assert("10m"@[2] != "100"@[2]);
        assert("10m"@[0] != "500"@[0]);
        assert("10m"@[0] != "60s"@[0]);
        assert(interval_alias(id) is None);
    }
    if i == 12 {
        assert(id == "15m"@);
        assert(trim_start(id) == id);
        assert(trim_end(id) == id);
        assert("15m"@[1] != "100"@[1]);
        assert("15m"@[0] != "500"@[0]);
        assert("15m"@[0] != "60s"@[0]);
        assert(interval_alias(id) is None);
    }
    if i == 13 {
        assert(id == "30m"@);
        assert(trim_start(id) == id);
        assert(trim_end(id) == id);
        assert("30m"@[0] != "100"@[0]);
        assert("30m"@[0] != "500"@[0]);
        assert("30m"@[0] != "60s"@[0]);
        assert(interval_alias(id) is None);
    }
    if i == 14 {
        assert(id == "1h"@);
        assert(trim_start(id) == id);
        assert(trim_end(id) == id);
        assert("1h"@[1] != "10"@[1]);
        assert(interval_alias(id) is None);
    }
}

/// Every legacy spelling lands on one of the accepted wire values.
pub proof fn law_legacy_intervals_land_on_wire_values(raw: Seq<char>)
    requires
        interval_alias(raw) is Some,
    ensures
        interval_ids().contains(interval_alias(raw)->0),
{
    let n = interval_alias(raw)->0;
    let ids = interval_ids();
    if n == "tick"@ {
        assert(ids[0] == n);
    } else if n == "10ms"@ {
        assert(ids[1] == n);
    } else if n == "100ms"@ {
        assert(ids[2] == n);
    } else if n == "500ms"@ {
        assert(ids[3] == n);
    } else if n == "1s"@ {
        assert(ids[4] == n);
    } else if n == "5s"@ {
        assert(ids[5] == n);
    } else if n == "10s"@ {
        assert(ids[6] == n);
    } else if n == "15s"@ {
        assert(ids[7] == n);
    } else if n == "30s"@ {
        assert(ids[8] == n);
    } else if n == "1m"@ {
        assert(ids[9] == n);
    } else if n == "5m"@ {
        assert(ids[10] == n);
    } else if n == "10m"@ {
        assert(ids[11] == n);
    } else if n == "15m"@ {
        assert(ids[12] == n);
    } else if n == "30m"@ {
        assert(ids[13] == n);
    } else {
        assert(ids[14] == n);
    }
}

/// Normalizing an interval twice gives what normalizing it once gave.
pub proof fn law_normalize_interval_idempotent(raw: Seq<char>)
    ensures
        normalized_interval(normalized_interval(raw)) == normalized_interval(raw),
{
    let t = trim(raw);
    match interval_alias(t) {
        Some(n) => {
            law_legacy_intervals_land_on_wire_values(t);
            let i = choose|i: int| 0 <= i < interval_ids().len() && interval_ids()[i] == n;
            law_wire_intervals_are_fixed_points(i);
        },
        None => {
            lemma_trim_idempotent(raw);
        },
    }
}

// ---------------------------------------------------------------------
// Argument bags, kept sorted by key.
// ---------------------------------------------------------------------

pub type ArgEntries = Seq<(Seq<char>, Seq<char>)>;

pub open spec fn pairs_view(v: Seq<(String, String)>) -> ArgEntries {
    v.map_values(|p: (String, String)| (p.0@, p.1@))
}

/// Generic endpoint call: the endpoint's name, its arguments keyed by
/// parameter name (strings only; the dispatcher casts them per the
/// registry), and a per-call deadline in milliseconds (0 = none).
#[derive(Debug)]
pub struct EndpointSpec {
    endpoint: String,
    args: Vec<(String, String)>,
    timeout_ms: u64,
}

impl EndpointSpec {
    #[verifier::type_invariant]
    spec fn args_sorted(self) -> bool {
        keys_sorted(pairs_view(self.args@))
    }

    pub closed spec fn endpoint_name(self) -> Seq<char> {
        self.endpoint@
    }

    /// The arguments in key order.
    pub closed spec fn entries(self) -> ArgEntries {
        pairs_view(self.args@)
    }

    pub closed spec fn deadline(self) -> u64 {
        self.timeout_ms
    }

    /// A call of `endpoint` with no arguments and no deadline.
    pub fn new(endpoint: &str) -> (s: EndpointSpec)
        ensures
            s.endpoint_name() == endpoint@,
            s.entries() == Seq::<(Seq<char>, Seq<char>)>::empty(),
            s.deadline() == 0,
    {
        let s = EndpointSpec {
            endpoint: string_of(chars_of(endpoint).as_slice()),
            args: Vec::new(),
            timeout_ms: 0,
        };
        assert(pairs_view(s.args@) =~= Seq::<(Seq<char>, Seq<char>)>::empty());
        s
    }

    /// This call with argument `key` set to `value`.
    pub fn arg(self, key: &str, value: String) -> (s: EndpointSpec)
        ensures
            s.endpoint_name() == self.endpoint_name(),
            s.entries() == put(self.entries(), key@, value@),
            s.deadline() == self.deadline(),
            keys_sorted(s.entries()),
    {
        proof {
            use_type_invariant(&self);
        }
        let EndpointSpec { endpoint, args, timeout_ms } = self;
        let args = put_arg(args, key, value);
        EndpointSpec { endpoint, args, timeout_ms }
    }

    /// This call with a per-call deadline of `ms` milliseconds.
    pub fn with_timeout_ms(self, ms: u64) -> (s: EndpointSpec)
        ensures
            s.endpoint_name() == self.endpoint_name(),
            s.entries() == self.entries(),
            s.deadline() == ms,
    {
        proof {
            use_type_invariant(&self);
        }
        let EndpointSpec { endpoint, args, timeout_ms: _ } = self;
        EndpointSpec { endpoint, args, timeout_ms: ms }
    }

    pub fn endpoint(&self) -> (r: &str)
        ensures
            r@ == self.endpoint_name(),
    {
        self.endpoint.as_str()
    }

    pub fn timeout_ms(&self) -> (r: u64)
        ensures
            r == self.deadline(),
    {
        self.timeout_ms
    }

    /// The arguments in key order.
    pub fn args(&self) -> (r: &[(String, String)])
        ensures
            pairs_view(r@) == self.entries(),
            keys_sorted(self.entries()),
    {
        proof {
            use_type_invariant(self);
        }
        self.args.as_slice()
    }

    /// The file stem of this call; see [`endpoint_stem`].
    pub open spec fn stem(self) -> Seq<char> {
        endpoint_stem(self.endpoint_name(), self.entries())
    }

    /// Stable file stem: `<endpoint>__<k-v>_<k-v>...` over the arguments
    /// in key order, keys and values percent-escaped (see
    /// [`crate::stem`]). Date and symbol are arguments, and the escaping
    /// keeps different arguments apart, so the stem is unique per call of
    /// an endpoint ([`law_distinct_calls_get_distinct_stems`]).
    pub fn file_stem(&self) -> (r: String)
        ensures
            r@ == self.stem(),
    {
        let mut out = string_of(chars_of(self.endpoint.as_str()).as_slice());
        push_str(&mut out, "__");
        let mut i: usize = 0;
        let ghost e = pairs_view(self.args@);
        proof {
            reveal_strlit("__");
            reveal_strlit("_");
            reveal_strlit("-");
            assert(e.take(0) =~= Seq::<(Seq<char>, Seq<char>)>::empty());
        }
        while i < self.args.len()
            invariant
                i <= self.args@.len(),
                e == pairs_view(self.args@),
                out@ == self.endpoint@ + "__"@ + args_text(e.take(i as int)),
            decreases self.args@.len() - i,
        {
            let ghost before = out@;
            if i > 0 {
                push_str(&mut out, "_");
            }
            let k = chars_of(self.args[i].0.as_str());
            let v = chars_of(self.args[i].1.as_str());
            let ek = escape_exec(k.as_slice(), false);
            let ek = string_of(ek.as_slice());
            push_str(&mut out, ek.as_str());
            push_str(&mut out, "-");
            let ev = escape_exec(v.as_slice(), true);
            let ev = string_of(ev.as_slice());
            push_str(&mut out, ev.as_str());
            proof {
                let t = e.take(i + 1);
                assert(t =~= e.take(i as int).push(e[i as int]));
                assert(e[i as int] == (k@, v@));
                lemma_args_text_push(e.take(i as int), e[i as int]);
                reveal_strlit("__");
                reveal_strlit("_");
                reveal_strlit("-");
                assert(seq!['_'] =~= "_"@);
                assert(seq!['-'] =~= "-"@);
                assert(out@ =~= self.endpoint@ + "__"@ + args_text(t));
            }
            i = i + 1;
        }
        assert(e.take(self.args@.len() as int) =~= e);
        out
    }
}

/// The file stem of a call of `endpoint` with arguments `e`:
/// `<endpoint>__` and then the arguments as written (see
/// [`crate::stem::args_text`]).
pub open spec fn endpoint_stem(endpoint: Seq<char>, e: ArgEntries) -> Seq<char> {
    endpoint + "__"@ + args_text(e)
}

/// Two calls of one endpoint with different arguments get different file
/// stems.
pub proof fn law_distinct_calls_get_distinct_stems(a: EndpointSpec, b: EndpointSpec)
    requires
        a.endpoint_name() == b.endpoint_name(),
        a.entries() != b.entries(),
    ensures
        a.stem() != b.stem(),
{
    let p = a.endpoint_name() + "__"@;
    if a.stem() == b.stem() {
        assert(args_text(a.entries()) =~= a.stem().skip(p.len() as int));
        assert(args_text(b.entries()) =~= b.stem().skip(p.len() as int));
        lemma_args_text_injective(a.entries(), b.entries());
    }
}

fn put_arg(args: Vec<(String, String)>, key: &str, value: String) -> (r: Vec<(String, String)>)
    requires
        keys_sorted(pairs_view(args@)),
    ensures
        pairs_view(r@) == put(pairs_view(args@), key@, value@),
        keys_sorted(pairs_view(r@)),
{
    let ghost e = pairs_view(args@);
    let mut args = args;
    let k = chars_of(key);
    let mut i: usize = 0;
    proof {
        assert(e.take(0) + e.skip(0) =~= e);
    }
    while i < args.len()
        invariant
            i <= args@.len(),
            e == pairs_view(args@),
            k@ == key@,
            put(e, key@, value@) == e.take(i as int) + put(e.skip(i as int), key@, value@),
        ensures
            i <= args@.len(),
            e == pairs_view(args@),
            put(e, key@, value@) == e.take(i as int) + put(e.skip(i as int), key@, value@),
            i < args@.len() ==> !seq_lt(e[i as int].0, key@),
        decreases args@.len() - i,
    {
        let ki = chars_of(args[i].0.as_str());
        match compare_chars(ki.as_slice(), k.as_slice()) {
            Cmp::Less => {
                proof {
                    lemma_put_step(e, key@, value@, i as int);
                }
                i = i + 1;
            },
            _ => {
                assert(ki@ == e[i as int].0);
                break;
            },
        }
    }
    proof {
        lemma_put_keys(e, key@, value@);
    }
    let ks = string_of(k.as_slice());
    if i < args.len() {
        let ki = chars_of(args[i].0.as_str());
        match compare_chars(ki.as_slice(), k.as_slice()) {
            Cmp::Equal => {
                proof {
                    lemma_put_replace(e, key@, value@, i as int);
                }
                args.set(i, (ks, value));
                assert(pairs_view(args@) =~= e.update(i as int, (key@, value@)));
            },
            Cmp::Greater => {
                proof {
                    lemma_seq_lt_asymmetric(key@, e[i as int].0);
                    lemma_seq_lt_irreflexive(key@);
                    lemma_put_insert(e, key@, value@, i as int);
                }
                args.insert(i, (ks, value));
                assert(pairs_view(args@) =~= e.insert(i as int, (key@, value@)));
            },
            Cmp::Less => {
                assert(ki@ == e[i as int].0);
                assert(false);
            },
        }
    } else {
        proof {
            lemma_put_append(e, key@, value@);
        }
        args.push((ks, value));
        assert(pairs_view(args@) =~= e.push((key@, value@)));
    }
    args
}

/// The value a call carries for an argument is the last one given for
/// it; giving one argument leaves every other argument as it was.
pub proof fn law_argument_reads_back(e: ArgEntries, key: Seq<char>, value: Seq<char>, k: Seq<char>)
    ensures
        entry_for(put(e, key, value), k) == (if k == key { Some(value) } else { entry_for(e, k) }),
{
    lemma_put_lookup(e, key, value, k);
}

/// A call's arguments form a map: two different arguments given in
/// either order build the same call, and so the same file stem.
pub proof fn law_argument_order_is_irrelevant(
    e: ArgEntries,
    k1: Seq<char>,
    v1: Seq<char>,
    k2: Seq<char>,
    v2: Seq<char>,
)
    requires
        keys_sorted(e),
        k1 != k2,
    ensures
        put(put(e, k1, v1), k2, v2) == put(put(e, k2, v2), k1, v1),
{
    let a = put(put(e, k1, v1), k2, v2);
    let b = put(put(e, k2, v2), k1, v1);
    lemma_put_keys(e, k1, v1);
    lemma_put_keys(put(e, k1, v1), k2, v2);
    lemma_put_keys(e, k2, v2);
    lemma_put_keys(put(e, k2, v2), k1, v1);
    assert forall|k: Seq<char>| entry_for(a, k) == entry_for(b, k) by {
        lemma_put_lookup(put(e, k1, v1), k2, v2, k);
        lemma_put_lookup(e, k1, v1, k);
        lemma_put_lookup(put(e, k2, v2), k1, v1, k);
        lemma_put_lookup(e, k2, v2, k);
    }
    lemma_sorted_entries_unique(a, b);
}

} // verus!
