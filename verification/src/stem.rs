//! How a call's arguments are written into a file name: each key and
//! value percent-escaped so that no two different argument lists give the
//! same text.
//!
//! A key escapes `%` and `-`; a value escapes `%`, `-`, `_`, `/`, `\`,
//! space and `*`. Pairs are written `key-value` and joined by `_`. A key
//! then holds no `-` and a value neither `-` nor `_`, so the text reads
//! back to exactly one argument list.

use vstd::prelude::*;

verus! {

/// The three characters `%`, `h`, `l`.
pub open spec fn pct(h: char, l: char) -> Seq<char> {
    seq!['%', h, l]
}

/// How one character is written: escaped as `%XX` when it is special
/// (in a value, more characters are special than in a key).
pub open spec fn escape_piece(c: char, value: bool) -> Seq<char> {
    if c == '%' {
        pct('2', '5')
    } else if c == '-' {
        pct('2', 'D')
    } else if value && c == '_' {
        pct('5', 'F')
    } else if value && c == '/' {
        pct('2', 'F')
    } else if value && c == '\u{5c}' {
        pct('5', 'C')
    } else if value && c == '\u{20}' {
        pct('2', '0')
    } else if value && c == '*' {
        pct('2', 'A')
    } else {
        seq![c]
    }
}

/// `s` with every character written by [`escape_piece`].
pub open spec fn escape(s: Seq<char>, value: bool) -> Seq<char>
    decreases s.len(),
{
    if s.len() == 0 {
        Seq::empty()
    } else {
        escape_piece(s[0], value) + escape(s.drop_first(), value)
    }
}

/// One argument as written: `key-value`, both escaped.
pub open spec fn pair_text(e: (Seq<char>, Seq<char>)) -> Seq<char> {
    escape(e.0, false) + seq!['-'] + escape(e.1, true)
}

/// The arguments as written, in order, joined by `_`.
pub open spec fn args_text(e: Seq<(Seq<char>, Seq<char>)>) -> Seq<char>
    decreases e.len(),
{
    if e.len() == 0 {
        Seq::empty()
    } else if e.len() == 1 {
        pair_text(e[0])
    } else {
        pair_text(e[0]) + seq!['_'] + args_text(e.drop_first())
    }
}

/// Whether `s` holds the character `c`.
pub open spec fn holds(s: Seq<char>, c: char) -> bool {
    exists|i: int| 0 <= i < s.len() && s[i] == c
}

proof fn lemma_piece_nonempty(c: char, value: bool)
    ensures
        escape_piece(c, value).len() >= 1,
        escape_piece(c, value)[0] == '%' <==> escape_piece(c, value).len() == 3,
        escape_piece(c, value).len() == 1 ==> escape_piece(c, value)[0] == c && c != '%',
        !holds(escape_piece(c, value), '-'),
        value ==> !holds(escape_piece(c, value), '_'),
{
}

proof fn lemma_escape_lacks(s: Seq<char>, value: bool)
    ensures
        !holds(escape(s, value), '-'),
        value ==> !holds(escape(s, value), '_'),
    decreases s.len(),
{
    if s.len() > 0 {
        lemma_escape_lacks(s.drop_first(), value);
        lemma_piece_nonempty(s[0], value);
        let p = escape_piece(s[0], value);
        let r = escape(s.drop_first(), value);
        assert forall|i: int| 0 <= i < (p + r).len() implies (p + r)[i] != '-' && (value ==> (p + r)[i] != '_') by {
            if i < p.len() {
                assert((p + r)[i] == p[i]);
            } else {
                assert((p + r)[i] == r[i - p.len()]);
            }
        }
    }
}

/// Writing characters out is one-to-one.
pub proof fn lemma_escape_injective(s: Seq<char>, t: Seq<char>, value: bool)
    requires
        escape(s, value) == escape(t, value),
    ensures
        s == t,
    decreases s.len() + t.len(),
{
    if s.len() == 0 && t.len() == 0 {
        assert(s =~= t);
    } else if s.len() == 0 {
        lemma_piece_nonempty(t[0], value);
        assert(escape(t, value).len() >= 1);
    } else if t.len() == 0 {
        lemma_piece_nonempty(s[0], value);
        assert(escape(s, value).len() >= 1);
    } else {
        let p = escape_piece(s[0], value);
        let q = escape_piece(t[0], value);
        let rs = escape(s.drop_first(), value);
        let rt = escape(t.drop_first(), value);
        lemma_piece_nonempty(s[0], value);
        lemma_piece_nonempty(t[0], value);
        let whole = p + rs;
        assert(whole == q + rt);
        assert(whole[0] == p[0] && whole[0] == q[0]);
        assert(p.len() == q.len());
        assert(p =~= whole.take(p.len() as int));
        assert(q =~= (q + rt).take(q.len() as int));
        assert(p == q);
        if p.len() == 3 {
            assert(p[1] == q[1] && p[2] == q[2]);
        }
        assert(s[0] == t[0]);
        assert(rs =~= whole.skip(p.len() as int));
        assert(rt =~= (q + rt).skip(q.len() as int));
        lemma_escape_injective(s.drop_first(), t.drop_first(), value);
        assert(s =~= seq![s[0]] + s.drop_first());
        assert(t =~= seq![t[0]] + t.drop_first());
    }
}

/// `x + [c] + y` splits at the first `c` when `x` holds none.
proof fn lemma_split_at(x: Seq<char>, y: Seq<char>, x2: Seq<char>, y2: Seq<char>, c: char)
    requires
        x + seq![c] + y == x2 + seq![c] + y2,
        !holds(x, c),
        !holds(x2, c),
    ensures
        x == x2,
        y == y2,
{
    let w = x + seq![c] + y;
    let w2 = x2 + seq![c] + y2;
    if x.len() < x2.len() {
        assert(w[x.len() as int] == c);
        assert(w2[x.len() as int] == x2[x.len() as int]);
    } else if x2.len() < x.len() {
        assert(w2[x2.len() as int] == c);
        assert(w[x2.len() as int] == x[x2.len() as int]);
    }
    assert(x =~= w.take(x.len() as int));
    assert(x2 =~= w2.take(x2.len() as int));
    assert(y =~= w.skip(x.len() as int + 1));
    assert(y2 =~= w2.skip(x2.len() as int + 1));
}

/// `v` never equals `v2 + [c] + y` when `v` holds no `c`.
proof fn lemma_no_split(v: Seq<char>, v2: Seq<char>, y: Seq<char>, c: char)
    requires
        !holds(v, c),
    ensures
        v != v2 + seq![c] + y,
{
    let w = v2 + seq![c] + y;
    if v == w {
        assert(w[v2.len() as int] == c);
        assert(v[v2.len() as int] == c);
    }
}

/// What follows the first key's `-` in the arguments' text.
pub open spec fn after_first_key(e: Seq<(Seq<char>, Seq<char>)>) -> Seq<char> {
    if e.len() == 1 {
        escape(e[0].1, true)
    } else {
        escape(e[0].1, true) + seq!['_'] + args_text(e.drop_first())
    }
}

proof fn lemma_args_text_shape(e: Seq<(Seq<char>, Seq<char>)>)
    requires
        e.len() > 0,
    ensures
        args_text(e) == escape(e[0].0, false) + seq!['-'] + after_first_key(e),
{
    if e.len() == 1 {
        assert(args_text(e) =~= escape(e[0].0, false) + seq!['-'] + after_first_key(e));
    } else {
        assert(args_text(e) =~= escape(e[0].0, false) + seq!['-'] + after_first_key(e));
    }
}

proof fn lemma_args_text_nonempty(e: Seq<(Seq<char>, Seq<char>)>)
    requires
        e.len() > 0,
    ensures
        args_text(e).len() > 0,
{
    lemma_args_text_shape(e);
}

proof fn lemma_after_first_key_injective(e: Seq<(Seq<char>, Seq<char>)>, f: Seq<(Seq<char>, Seq<char>)>)
    requires
        e.len() > 0,
        f.len() > 0,
        after_first_key(e) == after_first_key(f),
    ensures
        e[0].1 == f[0].1,
        args_text(e.drop_first()) == args_text(f.drop_first()),
        e.len() == 1 <==> f.len() == 1,
{
    let ve = escape(e[0].1, true);
    let vf = escape(f[0].1, true);
    lemma_escape_lacks(e[0].1, true);
    lemma_escape_lacks(f[0].1, true);
    if e.len() == 1 && f.len() == 1 {
        lemma_escape_injective(e[0].1, f[0].1, true);
        assert(e.drop_first().len() == 0 && f.drop_first().len() == 0);
    } else if e.len() == 1 {
        lemma_no_split(ve, vf, args_text(f.drop_first()), '_');
    } else if f.len() == 1 {
        lemma_no_split(vf, ve, args_text(e.drop_first()), '_');
    } else {
        lemma_split_at(ve, args_text(e.drop_first()), vf, args_text(f.drop_first()), '_');
        lemma_escape_injective(e[0].1, f[0].1, true);
    }
}

/// The text of the arguments reads back to exactly those arguments.
pub proof fn lemma_args_text_injective(e: Seq<(Seq<char>, Seq<char>)>, f: Seq<(Seq<char>, Seq<char>)>)
    requires
        args_text(e) == args_text(f),
    ensures
        e == f,
    decreases e.len() + f.len(),
{
    if e.len() == 0 && f.len() == 0 {
        assert(e =~= f);
    } else if e.len() == 0 {
        lemma_args_text_nonempty(f);
    } else if f.len() == 0 {
        lemma_args_text_nonempty(e);
    } else {
        lemma_escape_lacks(e[0].0, false);
        lemma_escape_lacks(f[0].0, false);
        lemma_args_text_shape(e);
        lemma_args_text_shape(f);
        lemma_split_at(escape(e[0].0, false), after_first_key(e), escape(f[0].0, false), after_first_key(f), '-');
        lemma_escape_injective(e[0].0, f[0].0, false);
        lemma_after_first_key_injective(e, f);
        lemma_args_text_injective(e.drop_first(), f.drop_first());
        assert(e =~= seq![e[0]] + e.drop_first());
        assert(f =~= seq![f[0]] + f.drop_first());
    }
}

proof fn lemma_escape_push(s: Seq<char>, c: char, value: bool)
    ensures
        escape(s.push(c), value) == escape(s, value) + escape_piece(c, value),
    decreases s.len(),
{
    if s.len() == 0 {
        assert(s.push(c).drop_first() =~= Seq::<char>::empty());
        assert(escape(s.push(c).drop_first(), value) == Seq::<char>::empty());
        assert(s.push(c)[0] == c);
        assert(escape(s, value) == Seq::<char>::empty());
        assert(escape(s.push(c), value) =~= escape(s, value) + escape_piece(c, value));
    } else {
        assert(s.push(c).drop_first() =~= s.drop_first().push(c));
        lemma_escape_push(s.drop_first(), c, value);
        assert(escape(s.push(c), value) =~= escape(s, value) + escape_piece(c, value));
    }
}

pub proof fn lemma_args_text_push(e: Seq<(Seq<char>, Seq<char>)>, x: (Seq<char>, Seq<char>))
    ensures
        args_text(e.push(x)) == (if e.len() == 0 {
            pair_text(x)
        } else {
            args_text(e) + seq!['_'] + pair_text(x)
        }),
    decreases e.len(),
{
    if e.len() == 0 {
    } else if e.len() == 1 {
        assert(e.push(x).drop_first() =~= seq![x]);
        assert(e.push(x)[0] == e[0]);
        assert(args_text(seq![x]) == pair_text(seq![x][0]));
        assert(args_text(e.push(x)) =~= args_text(e) + seq!['_'] + pair_text(x));
    } else {
        assert(e.push(x).drop_first() =~= e.drop_first().push(x));
        assert(e.push(x)[0] == e[0]);
        lemma_args_text_push(e.drop_first(), x);
        assert(args_text(e.push(x)) =~= args_text(e) + seq!['_'] + pair_text(x));
    }
}

/// Appends `%`, `a`, `b`.
fn push_pct(r: &mut Vec<char>, a: char, b: char)
    ensures
        final(r)@ == old(r)@ + pct(a, b),
{
    r.push('%');
    r.push(a);
    r.push(b);
    assert(final(r)@ =~= old(r)@ + pct(a, b));
}

/// `v` escaped; see [`escape`].
pub fn escape_exec(v: &[char], value: bool) -> (r: Vec<char>)
    ensures
        r@ == escape(v@, value),
{
    let mut r: Vec<char> = Vec::new();
    let mut i: usize = 0;
    while i < v.len()
        invariant
            i <= v@.len(),
            r@ == escape(v@.take(i as int), value),
        decreases v@.len() - i,
    {
        let c = v[i];
        let ghost before = r@;
        if c == '%' {
            push_pct(&mut r, '2', '5');
        } else if c == '-' {
            push_pct(&mut r, '2', 'D');
        } else if value && c == '_' {
            push_pct(&mut r, '5', 'F');
        } else if value && c == '/' {
            push_pct(&mut r, '2', 'F');
        } else if value && c == '\u{5c}' {
            push_pct(&mut r, '5', 'C');
        } else if value && c == '\u{20}' {
            push_pct(&mut r, '2', '0');
        } else if value && c == '*' {
            push_pct(&mut r, '2', 'A');
        } else {
            r.push(c);
            assert(r@ =~= before + seq![c]);
        }
        proof {
            assert(v@.take(i + 1) =~= v@.take(i as int).push(c));
            lemma_escape_push(v@.take(i as int), c, value);
        }
        i = i + 1;
    }
    assert(v@.take(v@.len() as int) =~= v@);
    r
}

} // verus!
