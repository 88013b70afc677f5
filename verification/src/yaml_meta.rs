//! Per-endpoint catalogue metadata (summary, description, tag, minimum
//! tier) read from ThetaData's OpenAPI document.

use vstd::prelude::*;

use crate::openapi::MetaRec;
use crate::sorted::{entry_for, keys_sorted, lemma_put_append, lemma_put_lookup, lemma_put_insert, lemma_put_keys, lemma_put_replace, lemma_put_step, put};
use crate::text::{chars_of, compare_chars, lemma_seq_lt_asymmetric, lemma_seq_lt_irreflexive, seq_lt, string_of, Cmp};
use crate::tier::Tier;

verus! {

#[derive(Debug)]
pub struct EndpointMeta {
    pub operation_id: String,
    pub summary: String,
    pub description: String,
    pub tag: String,
    pub min_tier: Option<Tier>,
}

impl EndpointMeta {
    pub open spec fn rec(&self) -> MetaRec {
        MetaRec {
            op: self.operation_id@,
            summary: self.summary@,
            description: self.description@,
            tag: self.tag@,
            min_tier: self.min_tier,
        }
    }
}

pub open spec fn metas_view(v: Seq<EndpointMeta>) -> Seq<MetaRec> {
    v.map_values(|m: EndpointMeta| m.rec())
}

fn copy_string(s: &String) -> (r: String)
    ensures
        r@ == s@,
{
    string_of(chars_of(s.as_str()).as_slice())
}

impl EndpointMeta {
    /// A field-for-field copy.
    pub fn copy(&self) -> (r: EndpointMeta)
        ensures
            r.rec() == self.rec(),
    {
        EndpointMeta {
            operation_id: copy_string(&self.operation_id),
            summary: copy_string(&self.summary),
            description: copy_string(&self.description),
            tag: copy_string(&self.tag),
            min_tier: self.min_tier,
        }
    }
}

/// Records keyed by their operation id.
pub open spec fn keyed(rs: Seq<MetaRec>) -> Seq<(Seq<char>, MetaRec)> {
    rs.map_values(|r: MetaRec| (r.op, r))
}

pub open spec fn keyed_view(v: Seq<EndpointMeta>) -> Seq<(Seq<char>, MetaRec)> {
    keyed(metas_view(v))
}

/// `acc` with each of `rs` put in turn under its operation id: a later
/// record for an operation replaces an earlier one.
pub open spec fn put_recs(acc: Seq<(Seq<char>, MetaRec)>, rs: Seq<MetaRec>) -> Seq<(Seq<char>, MetaRec)>
    decreases rs.len(),
{
    if rs.len() == 0 {
        acc
    } else {
        let prev = put_recs(acc, rs.drop_last());
        put(prev, rs.last().op, rs.last())
    }
}

/// The metadata this build carries: the operations of the tier table
/// this build carries ([`crate::tier::published_tier`]), with their tiers
/// and no texts. Like that table it is a four-row stand-in; the full
/// metadata comes from ThetaData's OpenAPI document, installed at
/// runtime ([`install_runtime_meta`]).
pub open spec fn builtin_recs() -> Seq<MetaRec> {
    seq![
        MetaRec { op: "option_history_greeks_all"@, summary: Seq::empty(), description: Seq::empty(), tag: Seq::empty(), min_tier: Some(Tier::Pro) },
        MetaRec { op: "option_history_quote"@, summary: Seq::empty(), description: Seq::empty(), tag: Seq::empty(), min_tier: Some(Tier::Value) },
        MetaRec { op: "option_history_trade"@, summary: Seq::empty(), description: Seq::empty(), tag: Seq::empty(), min_tier: Some(Tier::Standard) },
        MetaRec { op: "stock_history_eod"@, summary: Seq::empty(), description: Seq::empty(), tag: Seq::empty(), min_tier: Some(Tier::Free) },
    ]
}

fn builtin_metas() -> (v: Vec<EndpointMeta>)
    ensures
        metas_view(v@) == builtin_recs(),
{
    let mk = |op: &str, t: Tier| -> (m: EndpointMeta)
        ensures
            m.rec() == (MetaRec { op: op@, summary: Seq::empty(), description: Seq::empty(), tag: Seq::empty(), min_tier: Some(t) }),
        {
            EndpointMeta {
                operation_id: string_of(chars_of(op).as_slice()),
                summary: String::new(),
                description: String::new(),
                tag: String::new(),
                min_tier: Some(t),
            }
        };
    let v = vec![
        mk("option_history_greeks_all", Tier::Pro),
        mk("option_history_quote", Tier::Value),
        mk("option_history_trade", Tier::Standard),
        mk("stock_history_eod", Tier::Free),
    ];
    assert(metas_view(v@) =~= builtin_recs());
    v
}

/// The catalogue: the metadata this build carries, overridden per
/// operation by metadata installed at runtime, in operation-id order.
pub open spec fn catalogue_of(runtime: Option<Seq<MetaRec>>) -> Seq<MetaRec> {
    catalogue_entries(runtime).map_values(|e: (Seq<char>, MetaRec)| e.1)
}

/// The catalogue's records keyed by operation id, in operation-id order.
pub open spec fn catalogue_entries(runtime: Option<Seq<MetaRec>>) -> Seq<(Seq<char>, MetaRec)> {
    let base = put_recs(Seq::empty(), builtin_recs());
    match runtime {
        Some(r) => put_recs(base, r),
        None => base,
    }
}

/// The last of `rs` whose operation id is `op`.
pub open spec fn last_rec_for(rs: Seq<MetaRec>, op: Seq<char>) -> Option<MetaRec>
    decreases rs.len(),
{
    if rs.len() == 0 {
        None
    } else if rs.last().op == op {
        Some(rs.last())
    } else {
        last_rec_for(rs.drop_last(), op)
    }
}

proof fn lemma_put_recs_lookup(acc: Seq<(Seq<char>, MetaRec)>, rs: Seq<MetaRec>, op: Seq<char>)
    ensures
        entry_for(put_recs(acc, rs), op) == (match last_rec_for(rs, op) {
            Some(r) => Some(r),
            None => entry_for(acc, op),
        }),
    decreases rs.len(),
{
    if rs.len() > 0 {
        lemma_put_recs_lookup(acc, rs.drop_last(), op);
        lemma_put_lookup(put_recs(acc, rs.drop_last()), rs.last().op, rs.last(), op);
    }
}

proof fn lemma_entry_is_listed(e: Seq<(Seq<char>, MetaRec)>, op: Seq<char>)
    ensures
        entry_for(e, op) matches Some(r) ==> e.map_values(|x: (Seq<char>, MetaRec)| x.1).contains(r),
    decreases e.len(),
{
    if e.len() > 0 && e[0].0 != op {
        lemma_entry_is_listed(e.drop_first(), op);
        if entry_for(e.drop_first(), op) is Some {
            let vs = e.map_values(|x: (Seq<char>, MetaRec)| x.1);
            let ws = e.drop_first().map_values(|x: (Seq<char>, MetaRec)| x.1);
            let r = entry_for(e.drop_first(), op)->0;
            let j = choose|j: int| 0 <= j < ws.len() && ws[j] == r;
            assert(vs[j + 1] == ws[j]);
        }
    } else if e.len() > 0 {
        let vs = e.map_values(|x: (Seq<char>, MetaRec)| x.1);
        assert(vs[0] == e[0].1);
    }
}

proof fn lemma_entry_for_some(e: Seq<(Seq<char>, MetaRec)>, op: Seq<char>)
    ensures
        entry_for(e, op) is Some <==> exists|i: int| 0 <= i < e.len() && #[trigger] e[i].0 == op,
    decreases e.len(),
{
    if e.len() > 0 {
        lemma_entry_for_some(e.drop_first(), op);
        if e[0].0 != op {
            if exists|i: int| 0 <= i < e.len() && #[trigger] e[i].0 == op {
                let i = choose|i: int| 0 <= i < e.len() && #[trigger] e[i].0 == op;
                assert(e.drop_first()[i - 1].0 == op);
            }
            if exists|i: int| 0 <= i < e.drop_first().len() && #[trigger] e.drop_first()[i].0 == op {
                let i = choose|i: int| 0 <= i < e.drop_first().len() && #[trigger] e.drop_first()[i].0 == op;
                assert(e[i + 1].0 == op);
            }
        }
    }
}

/// The catalogue lists a record for exactly the operations that the
/// build or the runtime metadata names.
pub proof fn law_catalogue_key_set(runtime: Option<Seq<MetaRec>>, op: Seq<char>)
    ensures
        (exists|i: int| 0 <= i < catalogue_of(runtime).len() && #[trigger] catalogue_of(runtime)[i].op == op)
            <==> (last_rec_for(builtin_recs(), op) is Some || (runtime matches Some(rs) && last_rec_for(rs, op) is Some)),
{
    let empty = Seq::<(Seq<char>, MetaRec)>::empty();
    lemma_put_recs_sorted(empty, builtin_recs());
    let base = put_recs(empty, builtin_recs());
    lemma_put_recs_lookup(empty, builtin_recs(), op);
    match runtime {
        Some(r) => {
            lemma_put_recs_sorted(base, r);
            lemma_put_recs_lookup(base, r, op);
        },
        None => {},
    }
    let e = catalogue_entries(runtime);
    let c = catalogue_of(runtime);
    lemma_entry_for_some(e, op);
    if exists|i: int| 0 <= i < c.len() && #[trigger] c[i].op == op {
        let i = choose|i: int| 0 <= i < c.len() && #[trigger] c[i].op == op;
        assert(c[i] == e[i].1 && e[i].0 == e[i].1.op);
    }
    if exists|i: int| 0 <= i < e.len() && #[trigger] e[i].0 == op {
        let i = choose|i: int| 0 <= i < e.len() && #[trigger] e[i].0 == op;
        assert(c[i] == e[i].1 && e[i].0 == e[i].1.op);
    }
}

/// Metadata installed at runtime replaces, per operation, what the build
/// carries: an operation the runtime records name reads back the last of
/// them, and the catalogue lists that record unchanged; any other
/// operation reads back the build's record, if it has one, and the
/// catalogue lists that record.
pub proof fn law_runtime_metadata_wins(rs: Seq<MetaRec>, op: Seq<char>)
    ensures
        entry_for(catalogue_entries(Some(rs)), op) == (match last_rec_for(rs, op) {
            Some(r) => Some(r),
            None => entry_for(catalogue_entries(None), op),
        }),
        last_rec_for(rs, op) matches Some(r) ==> catalogue_of(Some(rs)).contains(r),
        last_rec_for(rs, op) is None && last_rec_for(builtin_recs(), op) is Some
            ==> catalogue_of(Some(rs)).contains(last_rec_for(builtin_recs(), op)->0),
{
    let base = put_recs(Seq::empty(), builtin_recs());
    lemma_put_recs_lookup(base, rs, op);
    lemma_put_recs_lookup(Seq::empty(), builtin_recs(), op);
    lemma_entry_is_listed(catalogue_entries(Some(rs)), op);
}

/// Every entry sits under its own record's operation id.
pub open spec fn self_keyed(e: Seq<(Seq<char>, MetaRec)>) -> bool {
    forall|i: int| 0 <= i < e.len() ==> (#[trigger] e[i]).0 == e[i].1.op
}

proof fn lemma_put_self_keyed(e: Seq<(Seq<char>, MetaRec)>, key: Seq<char>, value: MetaRec)
    requires
        self_keyed(e),
        value.op == key,
    ensures
        self_keyed(put(e, key, value)),
    decreases e.len(),
{
    let r = put(e, key, value);
    if e.len() == 0 {
    } else if e[0].0 == key {
        assert forall|i: int| 0 <= i < r.len() implies (#[trigger] r[i]).0 == r[i].1.op by {
            if i > 0 {
                assert(r[i] == e[i]);
            }
        }
    } else if seq_lt(key, e[0].0) {
        assert forall|i: int| 0 <= i < r.len() implies (#[trigger] r[i]).0 == r[i].1.op by {
            if i > 0 {
                assert(r[i] == e[i - 1]);
            }
        }
    } else {
        let d = e.drop_first();
        assert forall|i: int| 0 <= i < d.len() implies (#[trigger] d[i]).0 == d[i].1.op by {
            assert(d[i] == e[i + 1]);
        }
        lemma_put_self_keyed(d, key, value);
        let t = put(d, key, value);
        assert forall|i: int| 0 <= i < r.len() implies (#[trigger] r[i]).0 == r[i].1.op by {
            if i > 0 {
                assert(r[i] == t[i - 1]);
            }
        }
    }
}

proof fn lemma_put_recs_sorted(acc: Seq<(Seq<char>, MetaRec)>, rs: Seq<MetaRec>)
    requires
        keys_sorted(acc),
        self_keyed(acc),
    ensures
        keys_sorted(put_recs(acc, rs)),
        self_keyed(put_recs(acc, rs)),
    decreases rs.len(),
{
    if rs.len() > 0 {
        lemma_put_recs_sorted(acc, rs.drop_last());
        let prev = put_recs(acc, rs.drop_last());
        lemma_put_keys(prev, rs.last().op, rs.last());
        lemma_put_self_keyed(prev, rs.last().op, rs.last());
    }
}

/// The catalogue is in strictly increasing operation-id order, so no
/// operation appears twice in it.
pub proof fn law_catalogue_sorted_without_duplicates(runtime: Option<Seq<MetaRec>>)
    ensures
        forall|i: int, j: int|
            0 <= i < j < catalogue_of(runtime).len() ==> seq_lt(
                #[trigger] catalogue_of(runtime)[i].op,
                #[trigger] catalogue_of(runtime)[j].op,
            ),
        forall|i: int, j: int|
            0 <= i < catalogue_of(runtime).len() && 0 <= j < catalogue_of(runtime).len() && i != j
                ==> #[trigger] catalogue_of(runtime)[i].op != #[trigger] catalogue_of(runtime)[j].op,
{
    let empty = Seq::<(Seq<char>, MetaRec)>::empty();
    lemma_put_recs_sorted(empty, builtin_recs());
    let base = put_recs(empty, builtin_recs());
    match runtime {
        Some(r) => lemma_put_recs_sorted(base, r),
        None => {},
    }
    let e = catalogue_entries(runtime);
    let c = catalogue_of(runtime);
    assert forall|i: int, j: int| 0 <= i < j < c.len() implies seq_lt(#[trigger] c[i].op, #[trigger] c[j].op) by {
        assert(c[i] == e[i].1 && c[j] == e[j].1);
        assert(e[i].0 == e[i].1.op && e[j].0 == e[j].1.op);
    }
    assert forall|i: int, j: int| 0 <= i < c.len() && 0 <= j < c.len() && i != j implies #[trigger] c[i].op != #[trigger] c[j].op by {
        assert(c[i] == e[i].1 && c[j] == e[j].1);
        assert(e[i].0 == e[i].1.op && e[j].0 == e[j].1.op);
        if i < j {
            if c[i].op == c[j].op {
                lemma_seq_lt_irreflexive(c[i].op);
            }
        } else {
            if c[i].op == c[j].op {
                lemma_seq_lt_irreflexive(c[i].op);
            }
        }
    }
}

/// Catalogue metadata: what this build carries plus what was fetched at
/// runtime.
pub struct MetaTable {
    runtime: Option<Vec<EndpointMeta>>,
}

impl MetaTable {
    pub closed spec fn runtime_recs(&self) -> Option<Seq<MetaRec>> {
        match self.runtime {
            Some(v) => Some(metas_view(v@)),
            None => None,
        }
    }

    /// A table with nothing installed at runtime.
    pub fn new() -> (t: MetaTable)
        ensures
            t.runtime_recs() is None,
    {
        MetaTable { runtime: None }
    }
}

/// Replace the runtime metadata with freshly read metadata.
pub fn install_runtime_meta(table: &mut MetaTable, metas: Vec<EndpointMeta>)
    ensures
        final(table).runtime_recs() == Some(metas_view(metas@)),
{
    table.runtime = Some(metas);
}

fn put_meta(acc: Vec<EndpointMeta>, m: EndpointMeta) -> (r: Vec<EndpointMeta>)
    requires
        keys_sorted(keyed_view(acc@)),
    ensures
        keyed_view(r@) == put(keyed_view(acc@), m.operation_id@, m.rec()),
        keys_sorted(keyed_view(r@)),
{
    let ghost e = keyed_view(acc@);
    let ghost key = m.operation_id@;
    let ghost value = m.rec();
    let mut acc = acc;
    let k = chars_of(m.operation_id.as_str());
    let mut i: usize = 0;
    proof {
        assert(e.take(0) + e.skip(0) =~= e);
    }
    while i < acc.len()
        invariant
            i <= acc@.len(),
            e == keyed_view(acc@),
            k@ == key,
            put(e, key, value) == e.take(i as int) + put(e.skip(i as int), key, value),
        ensures
            i <= acc@.len(),
            e == keyed_view(acc@),
            put(e, key, value) == e.take(i as int) + put(e.skip(i as int), key, value),
            i < acc@.len() ==> !seq_lt_key(e, i as int, key),
        decreases acc@.len() - i,
    {
        let ki = chars_of(acc[i].operation_id.as_str());
        match compare_chars(ki.as_slice(), k.as_slice()) {
            Cmp::Less => {
                proof {
                    lemma_put_step(e, key, value, i as int);
                }
                i = i + 1;
            },
            _ => {
                assert(ki@ == e[i as int].0);
                break;
            },
        }
    }
    proof {
        lemma_put_keys(e, key, value);
    }
    if i < acc.len() {
        let ki = chars_of(acc[i].operation_id.as_str());
        match compare_chars(ki.as_slice(), k.as_slice()) {
            Cmp::Equal => {
                proof {
                    lemma_put_replace(e, key, value, i as int);
                }
                acc.set(i, m);
                assert(keyed_view(acc@) =~= e.update(i as int, (key, value)));
            },
            Cmp::Greater => {
                proof {
                    lemma_seq_lt_asymmetric(key, e[i as int].0);
                    lemma_seq_lt_irreflexive(key);
                    lemma_put_insert(e, key, value, i as int);
                }
                acc.insert(i, m);
                assert(keyed_view(acc@) =~= e.insert(i as int, (key, value)));
            },
            Cmp::Less => {
                assert(ki@ == e[i as int].0);
                assert(false);
            },
        }
    } else {
        proof {
            lemma_put_append(e, key, value);
        }
        acc.push(m);
        assert(keyed_view(acc@) =~= e.push((key, value)));
    }
    acc
}

spec fn seq_lt_key(e: Seq<(Seq<char>, MetaRec)>, i: int, key: Seq<char>) -> bool {
    crate::text::seq_lt(e[i].0, key)
}

fn put_all(acc: Vec<EndpointMeta>, ms: &Vec<EndpointMeta>) -> (r: Vec<EndpointMeta>)
    requires
        keys_sorted(keyed_view(acc@)),
    ensures
        keyed_view(r@) == put_recs(keyed_view(acc@), metas_view(ms@)),
        keys_sorted(keyed_view(r@)),
{
    let ghost e0 = keyed_view(acc@);
    let ghost mv = metas_view(ms@);
    let mut acc = acc;
    let mut i: usize = 0;
    assert(mv.take(0) =~= Seq::<MetaRec>::empty());
    while i < ms.len()
        invariant
            i <= ms@.len(),
            mv == metas_view(ms@),
            keys_sorted(keyed_view(acc@)),
            keyed_view(acc@) == put_recs(e0, mv.take(i as int)),
        decreases ms@.len() - i,
    {
        assert(mv.take(i + 1).drop_last() =~= mv.take(i as int));
        assert(mv.take(i + 1).last() == ms@[i as int].rec());
        let m = ms[i].copy();
        acc = put_meta(acc, m);
        i = i + 1;
    }
    assert(mv.take(ms@.len() as int) =~= mv);
    acc
}

/// The whole catalogue; see [`catalogue_of`].
pub fn catalogue(table: &MetaTable) -> (r: Vec<EndpointMeta>)
    ensures
        metas_view(r@) == catalogue_of(table.runtime_recs()),
{
    let empty: Vec<EndpointMeta> = Vec::new();
    assert(keyed_view(empty@) =~= Seq::<(Seq<char>, MetaRec)>::empty());
    let base = put_all(empty, &builtin_metas());
    let all = match &table.runtime {
        Some(rt) => put_all(base, rt),
        None => base,
    };
    assert(metas_view(all@) =~= keyed_view(all@).map_values(|e: (Seq<char>, MetaRec)| e.1));
    all
}

} // verus!
