//! Sequences of (key, value) entries kept in strictly increasing key
//! order: the shape of an ordered map, read in key order.

use vstd::prelude::*;

use crate::text::{lemma_seq_lt_asymmetric, lemma_seq_lt_irreflexive, lemma_seq_lt_total, lemma_seq_lt_transitive, seq_lt};

verus! {

/// Keys strictly increase, so each key occurs once.
pub open spec fn keys_sorted<V>(e: Seq<(Seq<char>, V)>) -> bool {
    forall|i: int, j: int| 0 <= i < j < e.len() ==> seq_lt(e[i].0, e[j].0)
}

/// `e` with `key` set to `value`: an existing entry for `key` is replaced
/// in place, otherwise a new entry goes where the key order puts it.
pub open spec fn put<V>(e: Seq<(Seq<char>, V)>, key: Seq<char>, value: V) -> Seq<(Seq<char>, V)>
    decreases e.len(),
{
    if e.len() == 0 {
        seq![(key, value)]
    } else if e[0].0 == key {
        e.update(0, (key, value))
    } else if seq_lt(key, e[0].0) {
        seq![(key, value)] + e
    } else {
        seq![e[0]] + put(e.drop_first(), key, value)
    }
}

/// `x` is one of the keys of `e`.
pub open spec fn has_key<V>(e: Seq<(Seq<char>, V)>, x: Seq<char>) -> bool {
    exists|j: int| 0 <= j < e.len() && #[trigger] e[j].0 == x
}

pub proof fn lemma_put_keys<V>(e: Seq<(Seq<char>, V)>, key: Seq<char>, value: V)
    requires
        keys_sorted(e),
    ensures
        keys_sorted(put(e, key, value)),
        forall|i: int|
            0 <= i < put(e, key, value).len() ==> (#[trigger] put(e, key, value)[i]).0 == key
                || has_key(e, put(e, key, value)[i].0),
    decreases e.len(),
{
    let r = put(e, key, value);
    if e.len() == 0 {
    } else if e[0].0 == key {
        assert forall|i: int, j: int| 0 <= i < j < r.len() implies seq_lt(r[i].0, r[j].0) by {
            assert(r[i].0 == e[i].0);
            assert(r[j].0 == e[j].0);
        }
        assert forall|i: int| 0 <= i < r.len() implies (#[trigger] r[i]).0 == key || has_key(
            e,
            r[i].0,
        ) by {
            assert(r[i].0 == e[i].0);
        }
    } else if seq_lt(key, e[0].0) {
        assert forall|i: int, j: int| 0 <= i < j < r.len() implies seq_lt(r[i].0, r[j].0) by {
            if i == 0 {
                if j > 1 {
                    lemma_seq_lt_transitive(key, e[0].0, e[j - 1].0);
                }
            } else {
                assert(r[i] == e[i - 1]);
                assert(r[j] == e[j - 1]);
            }
        }
        assert forall|i: int| 0 <= i < r.len() implies (#[trigger] r[i]).0 == key || has_key(
            e,
            r[i].0,
        ) by {
            if i > 0 {
                assert(r[i] == e[i - 1]);
            }
        }
    } else {
        let t = e.drop_first();
        assert(keys_sorted(t)) by {
            assert forall|i: int, j: int| 0 <= i < j < t.len() implies seq_lt(t[i].0, t[j].0) by {
                assert(t[i] == e[i + 1]);
                assert(t[j] == e[j + 1]);
            }
        }
        lemma_put_keys(t, key, value);
        let pt = put(t, key, value);
        lemma_seq_lt_total(key, e[0].0);
        assert forall|i: int, j: int| 0 <= i < j < r.len() implies seq_lt(r[i].0, r[j].0) by {
            if i == 0 {
                assert(r[j] == pt[j - 1]);
                let x = pt[j - 1].0;
                if x == key {
                } else {
                    assert(has_key(t, x));
                    let k = choose|k: int| 0 <= k < t.len() && #[trigger] t[k].0 == x;
                    assert(t[k] == e[k + 1]);
                }
            } else {
                assert(r[i] == pt[i - 1]);
                assert(r[j] == pt[j - 1]);
            }
        }
        assert forall|i: int| 0 <= i < r.len() implies (#[trigger] r[i]).0 == key || has_key(
            e,
            r[i].0,
        ) by {
            if i > 0 {
                assert(r[i] == pt[i - 1]);
                let x = r[i].0;
                if x != key {
                    assert(has_key(t, x));
                    let k = choose|k: int| 0 <= k < t.len() && #[trigger] t[k].0 == x;
                    assert(e[k + 1].0 == x);
                }
            } else {
                assert(e[0].0 == r[0].0);
            }
        }
    }
}

pub proof fn lemma_put_step<V>(e: Seq<(Seq<char>, V)>, key: Seq<char>, value: V, i: int)
    requires
        0 <= i < e.len(),
        seq_lt(e[i].0, key),
        put(e, key, value) == e.take(i) + put(e.skip(i), key, value),
    ensures
        put(e, key, value) == e.take(i + 1) + put(e.skip(i + 1), key, value),
{
    let s = e.skip(i);
    assert(s[0] == e[i]);
    lemma_seq_lt_asymmetric(e[i].0, key);
    lemma_seq_lt_irreflexive(key);
    assert(s.drop_first() =~= e.skip(i + 1));
    assert(put(s, key, value) == seq![s[0]] + put(s.drop_first(), key, value));
    assert(e.take(i) + (seq![s[0]] + put(e.skip(i + 1), key, value)) =~= e.take(i + 1) + put(
        e.skip(i + 1),
        key,
        value,
    ));
}

pub proof fn lemma_put_replace<V>(e: Seq<(Seq<char>, V)>, key: Seq<char>, value: V, i: int)
    requires
        0 <= i < e.len(),
        e[i].0 == key,
        put(e, key, value) == e.take(i) + put(e.skip(i), key, value),
    ensures
        put(e, key, value) == e.update(i, (key, value)),
{
    let s = e.skip(i);
    assert(s[0] == e[i]);
    assert(put(s, key, value) == s.update(0, (key, value)));
    assert(e.take(i) + s.update(0, (key, value)) =~= e.update(i, (key, value)));
}

pub proof fn lemma_put_insert<V>(e: Seq<(Seq<char>, V)>, key: Seq<char>, value: V, i: int)
    requires
        0 <= i < e.len(),
        e[i].0 != key,
        !seq_lt(e[i].0, key),
        put(e, key, value) == e.take(i) + put(e.skip(i), key, value),
    ensures
        put(e, key, value) == e.insert(i, (key, value)),
{
    let s = e.skip(i);
    assert(s[0] == e[i]);
    lemma_seq_lt_total(e[i].0, key);
    assert(put(s, key, value) == seq![(key, value)] + s);
    assert(e.take(i) + (seq![(key, value)] + s) =~= e.insert(i, (key, value)));
}

pub proof fn lemma_put_append<V>(e: Seq<(Seq<char>, V)>, key: Seq<char>, value: V)
    requires
        put(e, key, value) == e.take(e.len() as int) + put(e.skip(e.len() as int), key, value),
    ensures
        put(e, key, value) == e.push((key, value)),
{
    assert(e.skip(e.len() as int) =~= Seq::<(Seq<char>, V)>::empty());
    assert(e.take(e.len() as int) =~= e);
}

/// The value the first entry for `k` holds, if any.
pub open spec fn entry_for<V>(e: Seq<(Seq<char>, V)>, k: Seq<char>) -> Option<V>
    decreases e.len(),
{
    if e.len() == 0 {
        None
    } else if e[0].0 == k {
        Some(e[0].1)
    } else {
        entry_for(e.drop_first(), k)
    }
}

/// After `put(e, key, value)`, `key` holds `value` and every other key
/// holds what it held.
pub proof fn lemma_put_lookup<V>(e: Seq<(Seq<char>, V)>, key: Seq<char>, value: V, k: Seq<char>)
    ensures
        entry_for(put(e, key, value), k) == (if k == key { Some(value) } else { entry_for(e, k) }),
    decreases e.len(),
{
    let r = put(e, key, value);
    if e.len() == 0 {
        assert(r[0] == (key, value));
        assert(r.drop_first() =~= Seq::<(Seq<char>, V)>::empty());
        assert(entry_for(r, k) == (if k == key { Some(value) } else { entry_for(e, k) }));
    } else if e[0].0 == key {
        assert(r[0] == (key, value));
        assert(r.drop_first() =~= e.drop_first());
        assert(entry_for(r, k) == (if k == key { Some(value) } else { entry_for(e, k) }));
    } else if seq_lt(key, e[0].0) {
        assert(r[0] == (key, value));
        assert(r.drop_first() =~= e);
        assert(entry_for(r, k) == (if k == key { Some(value) } else { entry_for(e, k) }));
    } else {
        assert(r[0] == e[0]);
        lemma_put_lookup(e.drop_first(), key, value, k);
        assert(r.drop_first() =~= put(e.drop_first(), key, value));
    }
}

proof fn lemma_entry_for_has_key<V>(e: Seq<(Seq<char>, V)>, k: Seq<char>)
    ensures
        entry_for(e, k) is Some <==> has_key(e, k),
        entry_for(e, k) matches Some(v) ==> exists|j: int| 0 <= j < e.len() && e[j] == (k, v),
    decreases e.len(),
{
    if e.len() > 0 {
        lemma_entry_for_has_key(e.drop_first(), k);
        if e[0].0 == k {
            assert(e[0] == (k, e[0].1));
        } else {
            if has_key(e, k) {
                let j = choose|j: int| 0 <= j < e.len() && #[trigger] e[j].0 == k;
                assert(e.drop_first()[j - 1].0 == k);
            }
            if has_key(e.drop_first(), k) {
                let j = choose|j: int| 0 <= j < e.drop_first().len() && #[trigger] e.drop_first()[j].0 == k;
                assert(e[j + 1].0 == k);
            }
            if entry_for(e, k) is Some {
                let v = entry_for(e, k)->0;
                let j = choose|j: int| 0 <= j < e.drop_first().len() && e.drop_first()[j] == (k, v);
                assert(e[j + 1] == (k, v));
            }
        }
    }
}

proof fn lemma_first_key_not_later<V>(e: Seq<(Seq<char>, V)>)
    requires
        keys_sorted(e),
        e.len() > 0,
    ensures
        entry_for(e.drop_first(), e[0].0) is None,
{
    lemma_entry_for_has_key(e.drop_first(), e[0].0);
    if has_key(e.drop_first(), e[0].0) {
        let j = choose|j: int| 0 <= j < e.drop_first().len() && #[trigger] e.drop_first()[j].0 == e[0].0;
        assert(seq_lt(e[0].0, e[j + 1].0));
        lemma_seq_lt_irreflexive(e[0].0);
    }
}

/// Two key-sorted entry sequences that give every key the same value are
/// the same sequence.
pub proof fn lemma_sorted_entries_unique<V>(a: Seq<(Seq<char>, V)>, b: Seq<(Seq<char>, V)>)
    requires
        keys_sorted(a),
        keys_sorted(b),
        forall|k: Seq<char>| entry_for(a, k) == entry_for(b, k),
    ensures
        a == b,
    decreases a.len() + b.len(),
{
    if a.len() == 0 && b.len() == 0 {
        assert(a =~= b);
    } else if a.len() == 0 {
        assert(entry_for(b, b[0].0) is Some);
        assert(entry_for(a, b[0].0) is None);
    } else if b.len() == 0 {
        assert(entry_for(a, a[0].0) is Some);
        assert(entry_for(b, a[0].0) is None);
    } else {
        let x = a[0].0;
        let y = b[0].0;
        lemma_entry_for_has_key(a, y);
        lemma_entry_for_has_key(b, x);
        assert(entry_for(a, x) is Some);
        assert(entry_for(b, y) is Some);
        let ja = choose|j: int| 0 <= j < a.len() && #[trigger] a[j].0 == y;
        let jb = choose|j: int| 0 <= j < b.len() && #[trigger] b[j].0 == x;
        if x != y {
            assert(ja > 0 && jb > 0);
            assert(seq_lt(x, y));
            assert(seq_lt(y, x));
            lemma_seq_lt_asymmetric(x, y);
        }
        assert(a[0].1 == b[0].1) by {
            assert(entry_for(a, x) == Some(a[0].1));
            assert(entry_for(b, x) == Some(b[0].1));
        }
        lemma_first_key_not_later(a);
        lemma_first_key_not_later(b);
        assert forall|k: Seq<char>| entry_for(a.drop_first(), k) == entry_for(b.drop_first(), k) by {
            if k != x {
                assert(entry_for(a, k) == entry_for(a.drop_first(), k));
                assert(entry_for(b, k) == entry_for(b.drop_first(), k));
            }
        }
        assert(keys_sorted(a.drop_first()));
        assert(keys_sorted(b.drop_first())) by {
            assert forall|i: int, j: int| 0 <= i < j < b.drop_first().len() implies seq_lt(
                b.drop_first()[i].0,
                b.drop_first()[j].0,
            ) by {
                assert(b.drop_first()[i] == b[i + 1] && b.drop_first()[j] == b[j + 1]);
            }
        }
        lemma_sorted_entries_unique(a.drop_first(), b.drop_first());
        assert(a =~= seq![a[0]] + a.drop_first());
        assert(b =~= seq![b[0]] + b.drop_first());
        assert(a[0] == b[0]);
    }
}

} // verus!
