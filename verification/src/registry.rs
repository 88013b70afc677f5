//! Endpoint registry exposure: the SDK's endpoint table in a form the UI
//! and the tier gate read.

use vstd::prelude::*;

use crate::sorted::entry_for;
use crate::spec::{pairs_view, ArgEntries, EndpointSpec};
use crate::text::{
    chars_of, compare_chars, lemma_seq_lt_asymmetric, lemma_seq_lt_irreflexive, lemma_seq_lt_total,
    lemma_seq_lt_transitive, seq_eq, seq_lt, string_of, Cmp,
};

verus! {

/// Static metadata for one endpoint parameter.
#[derive(Debug, Clone)]
pub struct ParamInfo {
    pub name: String,
    pub description: String,
    pub param_type: String,
    pub required: bool,
}

/// Endpoint descriptor: one per registered endpoint.
#[derive(Debug, Clone)]
pub struct EndpointInfo {
    pub name: String,
    pub description: String,
    pub category: String,
    pub subcategory: String,
    pub rest_path: String,
    pub returns: String,
    pub params: Vec<ParamInfo>,
}

/// What the SDK's registry `find(name)` returns for `name`, or `None`
/// when no endpoint has that name. Of the endpoint: its category; its
/// parameters in call order, each with whether the caller must supply it;
/// its subcategory, description, REST path and return kind (as `Debug`
/// writes the SDK's value); and each parameter's description and type
/// (as `Debug` writes it), in the same order.
pub uninterp spec fn registry_find(name: Seq<char>) -> Option<
    (
        Seq<char>,
        Seq<(Seq<char>, bool)>,
        (Seq<char>, Seq<char>, Seq<char>, Seq<char>),
        Seq<(Seq<char>, Seq<char>)>,
    ),
>;

pub open spec fn registered(name: Seq<char>) -> bool {
    registry_find(name) is Some
}

/// The registry category of `name`, empty when it is not registered.
pub open spec fn registered_category(name: Seq<char>) -> Seq<char> {
    match registry_find(name) {
        Some(e) => e.0,
        None => Seq::empty(),
    }
}

/// The parameters `name` declares, each with whether it is required;
/// empty when it is not registered.
pub open spec fn registered_param_specs(name: Seq<char>) -> Seq<(Seq<char>, bool)> {
    match registry_find(name) {
        Some(e) => e.1,
        None => Seq::empty(),
    }
}

/// The parameter names `name` declares, empty when it is not registered.
pub open spec fn registered_params(name: Seq<char>) -> Seq<Seq<char>> {
    registered_param_specs(name).map_values(|q: (Seq<char>, bool)| q.0)
}

pub open spec fn params_view(v: Seq<(String, bool)>) -> Seq<(Seq<char>, bool)> {
    v.map_values(|p: (String, bool)| (p.0@, p.1))
}

pub open spec fn param_names(v: Seq<(String, bool)>) -> Seq<Seq<char>> {
    params_view(v).map_values(|q: (Seq<char>, bool)| q.0)
}

/// `thetadatadx::find(name)`: the endpoint's category and its parameters
/// (name, required), if the registry has an endpoint of that name.
#[verifier::external_body]
pub(crate) fn find_shape(name: &str) -> (r: Option<(String, Vec<(String, bool)>)>)
    ensures
        r is None ==> registry_find(name@) is None,
        r matches Some(p) ==> (registry_find(name@) matches Some(e) && e.0 == p.0@ && e.1 == params_view(
            p.1@,
        )),
{
    thetadatadx::find(name).map(
        |m| (m.category.to_string(), m.params.iter().map(|p| (p.name.to_string(), p.required)).collect()),
    )
}

/// How a call's arguments bind to an endpoint's parameters, walking the
/// parameters in call order from the `i`-th: a parameter the call gives
/// a value binds to it; a required one it leaves out stops the walk and
/// is named; an optional one it leaves out is skipped.
pub open spec fn bind_from(params: Seq<(Seq<char>, bool)>, entries: ArgEntries, i: int) -> (
    Seq<(Seq<char>, Seq<char>)>,
    Option<Seq<char>>,
)
    decreases params.len() - i,
{
    if i < 0 || i >= params.len() {
        (Seq::empty(), None)
    } else {
        match entry_for(entries, params[i].0) {
            Some(v) => {
                let rest = bind_from(params, entries, i + 1);
                (seq![(params[i].0, v)] + rest.0, rest.1)
            },
            None => if params[i].1 {
                (Seq::empty(), Some(params[i].0))
            } else {
                bind_from(params, entries, i + 1)
            },
        }
    }
}

/// The arguments a call hands the SDK, in parameter order, up to the
/// first required parameter it leaves out, which is named in `missing`.
#[derive(Debug)]
pub struct ArgPlan {
    pub args: Vec<(String, String)>,
    pub missing: Option<String>,
}

pub open spec fn opt_string_view(s: Option<String>) -> Option<Seq<char>> {
    match s {
        Some(t) => Some(t@),
        None => None,
    }
}

/// The value of the first argument named `key`.
fn lookup_arg(args: &[(String, String)], key: &[char]) -> (r: Option<String>)
    ensures
        r matches Some(v) ==> entry_for(pairs_view(args@), key@) == Some(v@),
        r is None ==> entry_for(pairs_view(args@), key@) is None,
{
    let ghost e = pairs_view(args@);
    let mut j: usize = 0;
    assert(e.skip(0) =~= e);
    while j < args.len()
        invariant
            j <= args@.len(),
            e == pairs_view(args@),
            entry_for(e, key@) == entry_for(e.skip(j as int), key@),
        decreases args@.len() - j,
    {
        let k = chars_of(args[j].0.as_str());
        assert(e.skip(j as int)[0] == e[j as int]);
        assert(e.skip(j as int).drop_first() =~= e.skip(j + 1));
        if seq_eq(k.as_slice(), key) {
            let v = string_of(chars_of(args[j].1.as_str()).as_slice());
            return Some(v);
        }
        j = j + 1;
    }
    None
}

/// Bind a call's arguments to its endpoint's parameters, as the SDK's
/// registry declares them (see [`bind_from`]); `None` when the registry
/// has no endpoint of that name.
pub fn plan_args(spec: &EndpointSpec) -> (r: Option<ArgPlan>)
    ensures
        r is None <==> registry_find(spec.endpoint_name()) is None,
        r matches Some(p) ==> (pairs_view(p.args@), opt_string_view(p.missing)) == bind_from(
            registered_param_specs(spec.endpoint_name()),
            spec.entries(),
            0,
        ),
{
    let params = match find_shape(spec.endpoint()) {
        Some((_, ps)) => ps,
        None => {
            return None;
        },
    };
    let ghost ps = params_view(params@);
    let ghost e = spec.entries();
    let args = spec.args();
    let mut out: Vec<(String, String)> = Vec::new();
    let mut i: usize = 0;
    assert(pairs_view(out@) =~= Seq::<(Seq<char>, Seq<char>)>::empty());
    while i < params.len()
        invariant
            i <= params@.len(),
            ps == params_view(params@),
            ps == registered_param_specs(spec.endpoint_name()),
            e == spec.entries(),
            pairs_view(args@) == e,
            bind_from(ps, e, 0) == (pairs_view(out@) + bind_from(ps, e, i as int).0, bind_from(
                ps,
                e,
                i as int,
            ).1),
        decreases params@.len() - i,
    {
        let name = chars_of(params[i].0.as_str());
        assert(ps[i as int] == (params@[i as int].0@, params@[i as int].1));
        match lookup_arg(args, name.as_slice()) {
            Some(v) => {
                let ghost before = pairs_view(out@);
                let ghost pair = (name@, v@);
                out.push((string_of(name.as_slice()), v));
                assert(pairs_view(out@) =~= before.push(pair));
                assert(before + bind_from(ps, e, i as int).0 =~= pairs_view(out@) + bind_from(
                    ps,
                    e,
                    i + 1,
                ).0);
            },
            None => {
                if params[i].1 {
                    let missing = string_of(name.as_slice());
                    assert(bind_from(ps, e, i as int).0 =~= Seq::<(Seq<char>, Seq<char>)>::empty());
                    assert(pairs_view(out@) + Seq::<(Seq<char>, Seq<char>)>::empty() =~= pairs_view(out@));
                    return Some(ArgPlan { args: out, missing: Some(missing) });
                }
            },
        }
        i = i + 1;
    }
    assert(pairs_view(out@) + Seq::<(Seq<char>, Seq<char>)>::empty() =~= pairs_view(out@));
    Some(ArgPlan { args: out, missing: None })
}

pub open spec fn param_infos_view(v: Seq<ParamInfo>) -> Seq<(Seq<char>, bool)> {
    v.map_values(|p: ParamInfo| (p.name@, p.required))
}

/// Each parameter's description and type text.
pub open spec fn param_texts_view(v: Seq<ParamInfo>) -> Seq<(Seq<char>, Seq<char>)> {
    v.map_values(|p: ParamInfo| (p.description@, p.param_type@))
}

/// `info` describes the registry's endpoint of its name: same category,
/// subcategory, description, REST path and return kind, and the same
/// parameters in the same order with the same `required` flags,
/// descriptions and types.
pub open spec fn describes_registered(info: EndpointInfo) -> bool {
    registry_find(info.name@) == Some(
        (
            info.category@,
            param_infos_view(info.params@),
            (info.subcategory@, info.description@, info.rest_path@, info.returns@),
            param_texts_view(info.params@),
        ),
    )
}

/// The names, in registry order, of the registry's endpoints whose
/// category is `cat` (what the SDK's `by_category(cat)` lists).
pub uninterp spec fn registry_names_in(cat: Seq<char>) -> Seq<Seq<char>>;

pub open spec fn info_names(v: Seq<EndpointInfo>) -> Seq<Seq<char>> {
    v.map_values(|i: EndpointInfo| i.name@)
}

/// `thetadatadx::find(name)`, described for the UI: `None` when the
/// registry has no endpoint of that name; otherwise that endpoint, whose
/// fields are all the registry's (see [`describes_registered`]).
#[verifier::external_body]
pub fn find_endpoint(name: &str) -> (r: Option<EndpointInfo>)
    ensures
        r is None <==> registry_find(name@) is None,
        r matches Some(i) ==> i.name@ == name@ && describes_registered(i),
{
    thetadatadx::find(name).map(|m| EndpointInfo {
        name: m.name.to_string(),
        description: m.description.to_string(),
        category: m.category.to_string(),
        subcategory: m.subcategory.to_string(),
        rest_path: m.rest_path.to_string(),
        returns: format!("{:?}", m.returns),
        params: m.params.iter().map(|p| ParamInfo {
            name: p.name.to_string(), description: p.description.to_string(),
            param_type: format!("{:?}", p.param_type), required: p.required,
        }).collect(),
    })
}

/// `thetadatadx::by_category(cat)`, described for the UI: the registry's
/// endpoints of category `cat`, in registry order.
#[verifier::external_body]
pub fn endpoints_by_category(cat: &str) -> (r: Vec<EndpointInfo>)
    ensures
        info_names(r@) == registry_names_in(cat@),
        forall|i: int| 0 <= i < r@.len() ==> (#[trigger] r@[i]).category@ == cat@ && describes_registered(r@[i]),
{
    thetadatadx::by_category(cat).into_iter().map(|m| EndpointInfo {
        name: m.name.to_string(),
        description: m.description.to_string(),
        category: m.category.to_string(),
        subcategory: m.subcategory.to_string(),
        rest_path: m.rest_path.to_string(),
        returns: format!("{:?}", m.returns),
        params: m.params.iter().map(|p| ParamInfo {
            name: p.name.to_string(), description: p.description.to_string(),
            param_type: format!("{:?}", p.param_type), required: p.required,
        }).collect(),
    }).collect()
}

/// No two entries of `v` share a name.
pub open spec fn names_distinct(v: Seq<EndpointInfo>) -> bool {
    forall|i: int, j: int|
        0 <= i < v.len() && 0 <= j < v.len() && i != j ==> #[trigger] v[i].name@ != #[trigger] v[j].name@
}

/// Some entry of `v` has the name `name`.
pub open spec fn lists_name(v: Seq<EndpointInfo>, name: Seq<char>) -> bool {
    exists|i: int| 0 <= i < v.len() && #[trigger] v[i].name@ == name
}

/// `v` names exactly the endpoints the registry finds by name.
pub open spec fn names_every_registered(v: Seq<EndpointInfo>) -> bool {
    forall|name: Seq<char>|
        #![trigger registry_find(name)]
        #![trigger lists_name(v, name)]
        (registry_find(name) is Some) <==> lists_name(v, name)
}

/// `thetadatadx::ENDPOINTS`, the whole registry in its own order,
/// described for the UI. Each entry describes the registry's endpoint of
/// its name. The SDK's method names are distinct (its own test checks
/// this), and `find` searches this table by name, so it finds a name
/// exactly when some entry carries it.
#[verifier::external_body]
fn registry_infos() -> (r: Vec<EndpointInfo>)
    ensures
        forall|i: int| 0 <= i < r@.len() ==> describes_registered(#[trigger] r@[i]),
        names_distinct(r@),
        names_every_registered(r@),
{
    thetadatadx::ENDPOINTS.iter().map(|m| EndpointInfo {
        name: m.name.to_string(),
        description: m.description.to_string(),
        category: m.category.to_string(),
        subcategory: m.subcategory.to_string(),
        rest_path: m.rest_path.to_string(),
        returns: format!("{:?}", m.returns),
        params: m.params.iter().map(|p| ParamInfo {
            name: p.name.to_string(), description: p.description.to_string(),
            param_type: format!("{:?}", p.param_type), required: p.required,
        }).collect(),
    }).collect()
}

/// The (category, subcategory, name) key endpoints are listed by.
pub open spec fn listing_key(i: EndpointInfo) -> (Seq<char>, Seq<char>, Seq<char>) {
    (i.category@, i.subcategory@, i.name@)
}

/// `a` lists before `b`: by category, then subcategory, then name.
pub open spec fn lists_before(a: EndpointInfo, b: EndpointInfo) -> bool {
    let (ka, kb) = (listing_key(a), listing_key(b));
    ||| seq_lt(ka.0, kb.0)
    ||| ka.0 == kb.0 && seq_lt(ka.1, kb.1)
    ||| ka.0 == kb.0 && ka.1 == kb.1 && seq_lt(ka.2, kb.2)
}

/// No entry lists before one earlier in `v`.
pub open spec fn listed_in_order(v: Seq<EndpointInfo>) -> bool {
    forall|i: int, j: int| 0 <= i < j < v.len() ==> !lists_before(#[trigger] v[j], #[trigger] v[i])
}

proof fn lemma_lists_before_total(a: EndpointInfo, b: EndpointInfo)
    ensures
        listing_key(a) == listing_key(b) || lists_before(a, b) || lists_before(b, a),
        !(lists_before(a, b) && lists_before(b, a)),
        !lists_before(a, a),
{
    lemma_seq_lt_total(a.category@, b.category@);
    lemma_seq_lt_total(a.subcategory@, b.subcategory@);
    lemma_seq_lt_total(a.name@, b.name@);
    lemma_seq_lt_irreflexive(a.category@);
    lemma_seq_lt_irreflexive(a.subcategory@);
    lemma_seq_lt_irreflexive(a.name@);
    if seq_lt(a.category@, b.category@) {
        lemma_seq_lt_asymmetric(a.category@, b.category@);
    }
    if seq_lt(b.category@, a.category@) {
        lemma_seq_lt_asymmetric(b.category@, a.category@);
    }
    if seq_lt(a.subcategory@, b.subcategory@) {
        lemma_seq_lt_asymmetric(a.subcategory@, b.subcategory@);
    }
    if seq_lt(b.subcategory@, a.subcategory@) {
        lemma_seq_lt_asymmetric(b.subcategory@, a.subcategory@);
    }
    if seq_lt(a.name@, b.name@) {
        lemma_seq_lt_asymmetric(a.name@, b.name@);
    }
    if seq_lt(b.name@, a.name@) {
        lemma_seq_lt_asymmetric(b.name@, a.name@);
    }
}

proof fn lemma_lists_before_transitive(a: EndpointInfo, b: EndpointInfo, c: EndpointInfo)
    requires
        lists_before(a, b),
        lists_before(b, c),
    ensures
        lists_before(a, c),
{
    if seq_lt(a.category@, b.category@) && seq_lt(b.category@, c.category@) {
        lemma_seq_lt_transitive(a.category@, b.category@, c.category@);
    }
    if seq_lt(a.subcategory@, b.subcategory@) && seq_lt(b.subcategory@, c.subcategory@) {
        lemma_seq_lt_transitive(a.subcategory@, b.subcategory@, c.subcategory@);
    }
    if seq_lt(a.name@, b.name@) && seq_lt(b.name@, c.name@) {
        lemma_seq_lt_transitive(a.name@, b.name@, c.name@);
    }
}

fn compare_listing(a: &EndpointInfo, b: &EndpointInfo) -> (r: bool)
    ensures
        r == lists_before(*a, *b),
{
    let ac = chars_of(a.category.as_str());
    let bc = chars_of(b.category.as_str());
    match compare_chars(ac.as_slice(), bc.as_slice()) {
        Cmp::Less => true,
        Cmp::Greater => {
            proof {
                lemma_seq_lt_asymmetric(b.category@, a.category@);
            }
            false
        },
        Cmp::Equal => {
            let asub = chars_of(a.subcategory.as_str());
            let bsub = chars_of(b.subcategory.as_str());
            match compare_chars(asub.as_slice(), bsub.as_slice()) {
                Cmp::Less => {
                    proof {
                        lemma_seq_lt_irreflexive(a.category@);
                    }
                    true
                },
                Cmp::Greater => {
                    proof {
                        lemma_seq_lt_irreflexive(a.category@);
                        lemma_seq_lt_asymmetric(b.subcategory@, a.subcategory@);
                    }
                    false
                },
                Cmp::Equal => {
                    proof {
                        lemma_seq_lt_irreflexive(a.category@);
                        lemma_seq_lt_irreflexive(a.subcategory@);
                    }
                    let an = chars_of(a.name.as_str());
                    let bn = chars_of(b.name.as_str());
                    match compare_chars(an.as_slice(), bn.as_slice()) {
                        Cmp::Less => true,
                        _ => false,
                    }
                },
            }
        },
    }
}

/// `v` listed by category, then subcategory, then name, keeping the
/// order of entries that share all three: the same entries, in order.
pub fn sort_endpoints(v: Vec<EndpointInfo>) -> (r: Vec<EndpointInfo>)
    ensures
        r@.to_multiset() == v@.to_multiset(),
        listed_in_order(r@),
{
    let ghost all = v@;
    let mut rest = v;
    let mut taken: usize = 0;
    let total = rest.len();
    let mut out: Vec<EndpointInfo> = Vec::new();
    proof {
        broadcast use vstd::seq_lib::group_to_multiset_ensures;

        assert(all.take(0) =~= Seq::<EndpointInfo>::empty());
    }
    while rest.len() > 0
        invariant
            total == all.len(),
            taken + rest@.len() == total,
            rest@ == all.skip(taken as int),
            out@.to_multiset() == all.take(taken as int).to_multiset(),
            listed_in_order(out@),
        decreases rest@.len(),
    {
        let x = rest.remove(0);
        assert(x == all[taken as int]);
        assert(rest@ =~= all.skip(taken + 1));
        let mut p: usize = 0;
        while p < out.len() && !compare_listing(&x, &out[p])
            invariant
                p <= out@.len(),
                forall|k: int| 0 <= k < p ==> !lists_before(x, #[trigger] out@[k]),
            decreases out@.len() - p,
        {
            p = p + 1;
        }
        let ghost before = out@;
        out.insert(p, x);
        proof {
            broadcast use vstd::seq_lib::group_to_multiset_ensures;

            assert(out@ =~= before.insert(p as int, x));
            lemma_insert_multiset(before, p as int, x);
            assert(all.take(taken + 1) =~= all.take(taken as int).push(x));
            assert forall|i: int, j: int| 0 <= i < j < out@.len() implies !lists_before(#[trigger] out@[j], #[trigger] out@[i]) by {
                lemma_lists_before_total(out@[i], out@[j]);
                if j < p {
                    assert(out@[i] == before[i] && out@[j] == before[j]);
                } else if j == p {
                    assert(out@[i] == before[i]);
                    lemma_lists_before_total(x, before[i]);
                } else if i < p {
                    assert(out@[i] == before[i] && out@[j] == before[j - 1]);
                } else if i == p {
                    assert(out@[j] == before[j - 1]);
                    assert(lists_before(x, before[p as int]));
                    if j - 1 > p {
                        lemma_lists_before_total(before[p as int], before[j - 1]);
                        if lists_before(before[j - 1], x) {
                            if lists_before(before[p as int], before[j - 1]) {
                                lemma_lists_before_transitive(x, before[p as int], before[j - 1]);
                            }
                            lemma_lists_before_total(x, before[j - 1]);
                        }
                    } else {
                        lemma_lists_before_total(x, before[j - 1]);
                    }
                } else {
                    assert(out@[i] == before[i - 1] && out@[j] == before[j - 1]);
                }
            }
        }
        taken = taken + 1;
    }
    assert(all.take(total as int) =~= all);
    out
}

proof fn lemma_insert_multiset(s: Seq<EndpointInfo>, p: int, x: EndpointInfo)
    requires
        0 <= p <= s.len(),
    ensures
        s.insert(p, x).to_multiset() == s.to_multiset().insert(x),
{
    broadcast use vstd::seq_lib::group_to_multiset_ensures;

    let a = s.take(p);
    let b = s.skip(p);
    assert(s =~= a + b);
    assert(s.insert(p, x) =~= a.push(x) + b);
    vstd::seq_lib::lemma_multiset_commutative(a.push(x), b);
    vstd::seq_lib::lemma_multiset_commutative(a, b);
}

/// Every registered endpoint, each once, listed by category, then
/// subcategory, then name. Each describes the registry's endpoint of its
/// name, and every name the registry finds is listed.
pub fn all_endpoints() -> (r: Vec<EndpointInfo>)
    ensures
        listed_in_order(r@),
        forall|i: int| 0 <= i < r@.len() ==> describes_registered(#[trigger] r@[i]),
        names_distinct(r@),
        names_every_registered(r@),
{
    let v = registry_infos();
    let ghost vv = v@;
    let r = sort_endpoints(v);
    proof {
        broadcast use vstd::seq_lib::group_to_multiset_ensures;

        assert forall|i: int| 0 <= i < r@.len() implies describes_registered(#[trigger] r@[i]) by {
            assert(r@.contains(r@[i]));
            assert(r@.to_multiset().count(r@[i]) > 0);
            assert(vv.contains(r@[i]));
        }
        lemma_permuted_listing(vv, r@);
    }
    r
}

/// A reordering of a listing with distinct names that names every
/// registered endpoint is one too.
proof fn lemma_permuted_listing(a: Seq<EndpointInfo>, b: Seq<EndpointInfo>)
    requires
        names_distinct(a),
        names_every_registered(a),
        b.to_multiset() == a.to_multiset(),
    ensures
        names_distinct(b),
        names_every_registered(b),
{
    broadcast use vstd::seq_lib::group_to_multiset_ensures;

    assert(a.no_duplicates()) by {
        assert forall|i: int, j: int| 0 <= i < a.len() && 0 <= j < a.len() && i != j implies a[i] != a[j] by {
            assert(a[i].name@ != a[j].name@);
        }
    }
    a.lemma_multiset_has_no_duplicates();
    b.lemma_multiset_has_no_duplicates_conv();
    assert forall|i: int, j: int| 0 <= i < b.len() && 0 <= j < b.len() && i != j implies #[trigger] b[i].name@ != #[trigger] b[j].name@ by {
        assert(b.contains(b[i]) && b.contains(b[j]));
        assert(b.to_multiset().count(b[i]) > 0 && b.to_multiset().count(b[j]) > 0);
        assert(a.contains(b[i]) && a.contains(b[j]));
        let x = choose|x: int| 0 <= x < a.len() && a[x] == b[i];
        let y = choose|y: int| 0 <= y < a.len() && a[y] == b[j];
        assert(b[i] != b[j]);
        assert(x != y);
        assert(a[x].name@ != a[y].name@);
    }
    assert forall|name: Seq<char>| #![trigger registry_find(name)] #![trigger lists_name(b, name)]
        (registry_find(name) is Some) <==> lists_name(b, name) by {
        if lists_name(b, name) {
            let i = choose|i: int| 0 <= i < b.len() && #[trigger] b[i].name@ == name;
            assert(b.contains(b[i]));
            assert(b.to_multiset().count(b[i]) > 0);
            assert(a.contains(b[i]));
            let x = choose|x: int| 0 <= x < a.len() && a[x] == b[i];
            assert(a[x].name@ == name);
            assert(lists_name(a, name));
        }
        if lists_name(a, name) {
            let x = choose|x: int| 0 <= x < a.len() && #[trigger] a[x].name@ == name;
            assert(a.contains(a[x]));
            assert(a.to_multiset().count(a[x]) > 0);
            assert(b.contains(a[x]));
            let i = choose|i: int| 0 <= i < b.len() && b[i] == a[x];
            assert(b[i].name@ == name);
            assert(lists_name(b, name));
        }
    }
}

} // verus!
