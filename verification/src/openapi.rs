//! Reading per-endpoint metadata out of ThetaData's OpenAPI document.
//!
//! A plain line scan over `paths:` rather than a YAML parser: the
//! document carries multi-line single-quoted scalars in response
//! examples that strict YAML parsers reject. The scan reads, per path,
//!
//! ```text
//! paths:
//!   /<path>:                        two-space indent
//!     x-min-subscription: <tier>    four
//!     get:                          four
//!       summary: <text>             six
//!       description: <text> | `|`   six, or a block of deeper lines
//!       tags:                       six
//!         - <tag>                   eight; the first tag only
//! ```
//!
//! Indents are counted in bytes of leading whitespace.

use vstd::prelude::*;

use crate::lines::{
    fields_of, join_exec, join_with, lines_of, split_fields, split_lines, utf8_len,
    utf8_len_prefix_capped, vecs_view,
};
use crate::text::{
    ascii_lower_seq, ascii_lower_vec, chars_of, ends_with, ends_with_lit, eq_lit, starts_with,
    starts_with_lit, string_of, suffix_from, trim, trim_end, trim_end_exec, trim_exec, trim_start,
    trim_start_count, fold_label, lemma_fold_label_idempotent, lemma_fold_word,
};
use crate::tier::{entries_view, Tier};
use crate::yaml_meta::{metas_view, EndpointMeta};

verus! {

broadcast use vstd::string::group_string_axioms;

// ---------------------------------------------------------------------
// Scalars.
// ---------------------------------------------------------------------

/// `s` without any trailing `c` (`str::trim_end_matches` on one char).
pub open spec fn trim_end_char(s: Seq<char>, c: char) -> Seq<char>
    decreases s.len(),
{
    if s.len() > 0 && s.last() == c {
        trim_end_char(s.drop_last(), c)
    } else {
        s
    }
}

fn trim_end_char_exec(v: &[char], c: char) -> (r: Vec<char>)
    ensures
        r@ == trim_end_char(v@, c),
{
    let mut r: Vec<char> = suffix_from(v, 0);
    assert(v@.skip(0) =~= v@);
    while r.len() > 0 && r[r.len() - 1] == c
        invariant
            trim_end_char(r@, c) == trim_end_char(v@, c),
        decreases r@.len(),
    {
        r.pop();
    }
    r
}

/// A scalar with one pair of surrounding double or single quotes
/// removed, after trimming.
pub open spec fn unquote(s: Seq<char>) -> Seq<char> {
    let t = trim(s);
    if t.len() >= 2 && ((t[0] == '\u{22}' && t.last() == '\u{22}') || (t[0] == '\u{27}' && t.last() == '\u{27}')) {
        t.subrange(1, t.len() - 1)
    } else {
        t
    }
}

fn unquote_exec(s: &[char]) -> (r: Vec<char>)
    ensures
        r@ == unquote(s@),
{
    let t = trim_exec(s);
    let n = t.len();
    if n >= 2 && ((t[0] == '\u{22}' && t[n - 1] == '\u{22}') || (t[0] == '\u{27}' && t[n - 1] == '\u{27}')) {
        let mut r: Vec<char> = Vec::new();
        let mut k: usize = 1;
        while k < n - 1
            invariant
                n == t@.len(),
                n >= 2,
                1 <= k <= n - 1,
                r@ == t@.subrange(1, k as int),
            decreases n - 1 - k,
        {
            r.push(t[k]);
            assert(t@.subrange(1, k as int).push(t@[k as int]) =~= t@.subrange(1, k + 1));
            k = k + 1;
        }
        r
    } else {
        t
    }
}

/// A path segment that names part of the operation: not empty and not a
/// `{parameter}`.
pub open spec fn keep_segment(seg: Seq<char>) -> bool {
    seg.len() > 0 && seg[0] != '\u{7b}'
}

pub open spec fn kept_segments(segs: Seq<Seq<char>>) -> Seq<Seq<char>>
    decreases segs.len(),
{
    if segs.len() == 0 {
        Seq::empty()
    } else if keep_segment(segs.last()) {
        kept_segments(segs.drop_last()).push(segs.last())
    } else {
        kept_segments(segs.drop_last())
    }
}

/// The operation id a path names: its non-parameter segments joined by
/// `_` (`/option/history/trade` is `option_history_trade`).
pub open spec fn path_op_id(path: Seq<char>) -> Seq<char> {
    join_with(kept_segments(fields_of(path, '/')), "_"@)
}

fn path_op_id_exec(path: &[char]) -> (r: Vec<char>)
    ensures
        r@ == path_op_id(path@),
{
    let segs = split_fields(path, '/');
    let ghost sv = vecs_view(segs@);
    let mut kept: Vec<Vec<char>> = Vec::new();
    let mut i: usize = 0;
    assert(sv.take(0) =~= Seq::<Seq<char>>::empty());
    assert(vecs_view(kept@) =~= Seq::<Seq<char>>::empty());
    while i < segs.len()
        invariant
            i <= segs@.len(),
            sv == vecs_view(segs@),
            vecs_view(kept@) == kept_segments(sv.take(i as int)),
        decreases segs@.len() - i,
    {
        assert(sv.take(i + 1).drop_last() =~= sv.take(i as int));
        assert(sv.take(i + 1).last() == segs@[i as int]@);
        if segs[i].len() > 0 && segs[i][0] != '\u{7b}' {
            let seg = suffix_from(segs[i].as_slice(), 0);
            assert(segs@[i as int]@.skip(0) =~= segs@[i as int]@);
            let ghost gv = seg@;
            kept.push(seg);
            assert(vecs_view(kept@) =~= vecs_view(kept@.drop_last()).push(gv));
        }
        i = i + 1;
    }
    assert(sv.take(segs@.len() as int) =~= sv);
    let sep = chars_of("_");
    join_exec(&kept, sep.as_slice())
}

/// The tier an `x-min-subscription` value names (already lower-cased).
pub open spec fn tier_word(w: Seq<char>) -> Option<Tier> {
    if w == "free"@ {
        Some(Tier::Free)
    } else if w == "value"@ {
        Some(Tier::Value)
    } else if w == "standard"@ {
        Some(Tier::Standard)
    } else if w == "pro"@ || w == "professional"@ {
        Some(Tier::Pro)
    } else {
        None
    }
}

fn tier_word_exec(w: &[char]) -> (r: Option<Tier>)
    ensures
        r == tier_word(w@),
{
    if eq_lit(w, "free") {
        Some(Tier::Free)
    } else if eq_lit(w, "value") {
        Some(Tier::Value)
    } else if eq_lit(w, "standard") {
        Some(Tier::Standard)
    } else if eq_lit(w, "pro") || eq_lit(w, "professional") {
        Some(Tier::Pro)
    } else {
        None
    }
}

/// An `x-min-subscription` value names the tier whose label it spells,
/// read as [`Tier::from_label`] reads a label (trimmed, any ASCII case):
/// the scan reads every real tier's label, lower-cased, as that tier, and
/// what it reads as a tier is always the tier that label parsing gives,
/// never `Unknown`.
pub proof fn law_tier_words_are_tier_labels(t: Tier, w: Seq<char>)
    ensures
        t != Tier::Unknown ==> tier_word(fold_label(t.label())) == Some(t),
        tier_word(fold_label(w)) matches Some(u) ==> u == Tier::parse_label(w) && u != Tier::Unknown,
{
    reveal_strlit("Free");
    reveal_strlit("free");
    reveal_strlit("Value");
    reveal_strlit("value");
    reveal_strlit("Standard");
    reveal_strlit("standard");
    reveal_strlit("Pro");
    reveal_strlit("pro");
    reveal_strlit("professional");
    reveal_strlit("0");
    reveal_strlit("1");
    reveal_strlit("2");
    reveal_strlit("3");
    match t {
        Tier::Free => {
            lemma_fold_word("Free"@, "free"@);
            assert(tier_word("free"@) == Some(Tier::Free));
        },
        Tier::Value => {
            lemma_fold_word("Value"@, "value"@);
            assert("value"@ != "free"@);
            assert(tier_word("value"@) == Some(Tier::Value));
        },
        Tier::Standard => {
            lemma_fold_word("Standard"@, "standard"@);
            assert("standard"@ != "free"@ && "standard"@ != "value"@);
            assert(tier_word("standard"@) == Some(Tier::Standard));
        },
        Tier::Pro => {
            lemma_fold_word("Pro"@, "pro"@);
            assert("pro"@ != "free"@ && "pro"@ != "value"@ && "pro"@ != "standard"@);
            assert(tier_word("pro"@) == Some(Tier::Pro));
        },
        Tier::Unknown => {},
    }
    let f = fold_label(w);
    lemma_fold_label_idempotent(w);
    if tier_word(f) is Some {
        assert(f == "free"@ || f == "value"@ || f == "standard"@ || f == "pro"@ || f == "professional"@);
        assert(f != "0"@ && f != "1"@ && f != "2"@ && f != "3"@);
    }
}

/// A `description:` value that opens a block scalar on the lines below.
pub open spec fn opens_block(v: Seq<char>) -> bool {
    v == "|"@ || v == "|-"@ || v == ">"@ || v == ">-"@
}

// ---------------------------------------------------------------------
// Per-endpoint records.
// ---------------------------------------------------------------------

/// What the scan has gathered for one operation.
pub struct MetaRec {
    pub op: Seq<char>,
    pub summary: Seq<char>,
    pub description: Seq<char>,
    pub tag: Seq<char>,
    pub min_tier: Option<Tier>,
}

pub open spec fn empty_rec(op: Seq<char>) -> MetaRec {
    MetaRec {
        op,
        summary: Seq::empty(),
        description: Seq::empty(),
        tag: Seq::empty(),
        min_tier: None,
    }
}

/// Position of the record for `op`.
pub open spec fn find_rec(m: Seq<MetaRec>, op: Seq<char>) -> Option<int>
    decreases m.len(),
{
    if m.len() == 0 {
        None
    } else if m.last().op == op {
        Some(m.len() - 1)
    } else {
        find_rec(m.drop_last(), op)
    }
}

/// The records with one for `op` (appended empty when there was none),
/// and its position.
pub open spec fn with_rec(m: Seq<MetaRec>, op: Seq<char>) -> (Seq<MetaRec>, int) {
    match find_rec(m, op) {
        Some(i) => (m, i),
        None => (m.push(empty_rec(op)), m.len() as int),
    }
}

/// Which text field an update targets.
pub enum Field {
    Summary,
    Description,
    Tag,
}

pub open spec fn field_of(r: MetaRec, f: Field) -> Seq<char> {
    match f {
        Field::Summary => r.summary,
        Field::Description => r.description,
        Field::Tag => r.tag,
    }
}

pub open spec fn with_field(r: MetaRec, f: Field, v: Seq<char>) -> MetaRec {
    match f {
        Field::Summary => MetaRec { summary: v, ..r },
        Field::Description => MetaRec { description: v, ..r },
        Field::Tag => MetaRec { tag: v, ..r },
    }
}

/// Set field `f` of `op`'s record to `v` unless it is already set; the
/// record is created when missing.
pub open spec fn fill_field(m: Seq<MetaRec>, op: Seq<char>, f: Field, v: Seq<char>) -> Seq<MetaRec> {
    let (m2, i) = with_rec(m, op);
    if field_of(m2[i], f).len() == 0 {
        m2.update(i, with_field(m2[i], f, v))
    } else {
        m2
    }
}

/// Record `op`'s minimum tier; the record is created when missing.
pub open spec fn set_tier(m: Seq<MetaRec>, op: Seq<char>, t: Tier) -> Seq<MetaRec> {
    let (m2, i) = with_rec(m, op);
    m2.update(i, MetaRec { min_tier: Some(t), ..m2[i] })
}

// ---------------------------------------------------------------------
// The scan.
// ---------------------------------------------------------------------

/// The scanner between lines.
pub struct ScanState {
    pub in_paths: bool,
    pub current: Option<Seq<char>>,
    pub in_get_block: bool,
    /// Base indent of the `description:` block being collected.
    pub collecting: Option<nat>,
    pub desc_buf: Seq<Seq<char>>,
    pub in_tags_block: bool,
    pub waiting_first_tag: bool,
    /// Every tier read, in order; a later one for an operation wins.
    pub tiers: Seq<(Seq<char>, Tier)>,
    pub metas: Seq<MetaRec>,
}

pub open spec fn initial_state() -> ScanState {
    ScanState {
        in_paths: false,
        current: None,
        in_get_block: false,
        collecting: None,
        desc_buf: Seq::empty(),
        in_tags_block: false,
        waiting_first_tag: false,
        tiers: Seq::empty(),
        metas: Seq::empty(),
    }
}

/// A top-level key: a line not starting with a space whose trimmed end is
/// a `:`. It opens or closes the `paths:` section.
pub open spec fn is_top_key(l: Seq<char>) -> bool {
    !(l.len() > 0 && l[0] == '\u{20}') && ends_with(trim_end(l), ":"@)
}

/// Bytes of leading whitespace.
pub open spec fn indent_of(l: Seq<char>) -> nat {
    utf8_len(l.take(l.len() - trim_start(l).len()))
}

/// A pending description block ends: its lines, joined by spaces and
/// trimmed, become the current operation's description unless it has one.
pub open spec fn flush_description(st: ScanState) -> ScanState {
    ScanState {
        metas: match st.current {
            Some(op) => fill_field(st.metas, op, Field::Description, trim(join_with(st.desc_buf, " "@))),
            None => st.metas,
        },
        desc_buf: Seq::empty(),
        collecting: None,
        ..st
    }
}

/// One line inside an operation's block, after any description block.
pub open spec fn endpoint_line(st: ScanState, op: Seq<char>, trimmed: Seq<char>, indent: nat) -> ScanState {
    if indent == 4 {
        if starts_with(trimmed, "x-min-subscription:"@) {
            let rest = trimmed.skip("x-min-subscription:"@.len() as int);
            match tier_word(ascii_lower_seq(trim(rest))) {
                Some(t) => ScanState {
                    tiers: st.tiers.push((op, t)),
                    metas: set_tier(st.metas, op, t),
                    ..st
                },
                None => st,
            }
        } else if starts_with(trimmed, "get:"@) {
            ScanState { in_get_block: true, in_tags_block: false, ..st }
        } else {
            ScanState { in_get_block: false, in_tags_block: false, ..st }
        }
    } else if st.in_get_block && indent == 6 {
        let st = ScanState { in_tags_block: false, ..st };
        if starts_with(trimmed, "summary:"@) {
            let val = trim(trimmed.skip("summary:"@.len() as int));
            if val.len() > 0 {
                ScanState { metas: fill_field(st.metas, op, Field::Summary, unquote(val)), ..st }
            } else {
                st
            }
        } else if starts_with(trimmed, "description:"@) {
            let val = trim(trimmed.skip("description:"@.len() as int));
            if opens_block(val) {
                ScanState { collecting: Some(indent), desc_buf: Seq::empty(), ..st }
            } else if val.len() > 0 {
                ScanState {
                    metas: fill_field(st.metas, op, Field::Description, unquote(val)),
                    ..st
                }
            } else {
                st
            }
        } else if starts_with(trimmed, "tags:"@) {
            ScanState { in_tags_block: true, waiting_first_tag: true, ..st }
        } else {
            st
        }
    } else if st.in_tags_block && indent == 8 && starts_with(trimmed, "- "@) && st.waiting_first_tag {
        let tag = trim(trimmed.skip(2));
        ScanState {
            metas: fill_field(st.metas, op, Field::Tag, unquote(tag)),
            waiting_first_tag: false,
            in_tags_block: false,
            ..st
        }
    } else {
        st
    }
}

/// A line inside `paths:` once no description block is collecting it.
pub open spec fn path_line(st: ScanState, l: Seq<char>, trimmed: Seq<char>, indent: nat) -> ScanState {
    if indent == 2 && starts_with(trimmed, "/"@) && ends_with(trim_end(l), ":"@) {
        let key = path_op_id(trim_end_char(trim_end(trimmed), ':'));
        ScanState {
            current: if key.len() == 0 { None } else { Some(key) },
            in_get_block: false,
            in_tags_block: false,
            ..st
        }
    } else {
        match st.current {
            None => st,
            Some(op) => endpoint_line(st, op, trimmed, indent),
        }
    }
}

/// The scanner after one more line.
pub open spec fn scan_line(st: ScanState, l: Seq<char>) -> ScanState {
    if is_top_key(l) {
        ScanState {
            in_paths: starts_with(trim_start(l), "paths:"@),
            current: None,
            in_get_block: false,
            collecting: None,
            in_tags_block: false,
            ..st
        }
    } else if !st.in_paths {
        st
    } else {
        let trimmed = trim_start(l);
        let indent = indent_of(l);
        match st.collecting {
            Some(base) => if trimmed.len() == 0 {
                ScanState { desc_buf: st.desc_buf.push(Seq::empty()), ..st }
            } else if indent > base {
                ScanState { desc_buf: st.desc_buf.push(trim_end(trimmed)), ..st }
            } else {
                path_line(flush_description(st), l, trimmed, indent)
            },
            None => path_line(st, l, trimmed, indent),
        }
    }
}

/// The scanner after all of `ls`.
pub open spec fn scan_lines(st: ScanState, ls: Seq<Seq<char>>) -> ScanState
    decreases ls.len(),
{
    if ls.len() == 0 {
        st
    } else {
        scan_line(scan_lines(st, ls.drop_last()), ls.last())
    }
}

pub open spec fn with_tier(metas: Seq<MetaRec>) -> Seq<MetaRec>
    decreases metas.len(),
{
    if metas.len() == 0 {
        Seq::empty()
    } else if metas.last().min_tier is Some {
        with_tier(metas.drop_last()).push(metas.last())
    } else {
        with_tier(metas.drop_last())
    }
}

/// What the document gives: every tier read (in order) and one record per
/// operation that has a tier.
pub open spec fn document_metadata(doc: Seq<char>) -> (Seq<(Seq<char>, Tier)>, Seq<MetaRec>) {
    let st = scan_lines(initial_state(), lines_of(doc));
    (st.tiers, with_tier(st.metas))
}

// ---------------------------------------------------------------------
// The scan, executed.
// ---------------------------------------------------------------------

struct MetaBuf {
    op: Vec<char>,
    summary: Vec<char>,
    description: Vec<char>,
    tag: Vec<char>,
    min_tier: Option<Tier>,
}

spec fn rec_of(b: MetaBuf) -> MetaRec {
    MetaRec {
        op: b.op@,
        summary: b.summary@,
        description: b.description@,
        tag: b.tag@,
        min_tier: b.min_tier,
    }
}

spec fn recs_of(v: Seq<MetaBuf>) -> Seq<MetaRec> {
    v.map_values(|b: MetaBuf| rec_of(b))
}

fn copy_chars(v: &Vec<char>) -> (r: Vec<char>)
    ensures
        r@ == v@,
{
    let r = suffix_from(v.as_slice(), 0);
    assert(v@.skip(0) =~= v@);
    r
}

fn find_rec_exec(m: &Vec<MetaBuf>, op: &[char]) -> (r: Option<usize>)
    ensures
        r matches Some(i) ==> find_rec(recs_of(m@), op@) == Some(i as int),
        r is None ==> find_rec(recs_of(m@), op@) is None,
{
    let ghost rs = recs_of(m@);
    let mut i: usize = m.len();
    assert(rs.take(i as int) =~= rs);
    while i > 0
        invariant
            i <= m@.len(),
            rs == recs_of(m@),
            find_rec(rs, op@) == find_rec(rs.take(i as int), op@),
        decreases i,
    {
        let ghost pre = rs.take(i as int);
        assert(pre.drop_last() =~= rs.take(i - 1));
        assert(pre.last() == rec_of(m@[i - 1]));
        if crate::text::seq_eq(m[i - 1].op.as_slice(), op) {
            return Some(i - 1);
        }
        i = i - 1;
    }
    None
}

fn with_rec_exec(m: &mut Vec<MetaBuf>, op: &[char]) -> (i: usize)
    ensures
        (recs_of(final(m)@), i as int) == with_rec(recs_of(old(m)@), op@),
        i < final(m)@.len(),
{
    match find_rec_exec(m, op) {
        Some(i) => {
            proof {
                let r = recs_of(m@);
                lemma_find_rec_bound(r, op@);
            }
            i
        },
        None => {
            let ghost old_r = recs_of(m@);
            let b = MetaBuf {
                op: chars_copy(op),
                summary: Vec::new(),
                description: Vec::new(),
                tag: Vec::new(),
                min_tier: None,
            };
            m.push(b);
            assert(recs_of(m@) =~= old_r.push(empty_rec(op@)));
            m.len() - 1
        },
    }
}

fn chars_copy(v: &[char]) -> (r: Vec<char>)
    ensures
        r@ == v@,
{
    let r = suffix_from(v, 0);
    assert(v@.skip(0) =~= v@);
    r
}

/// The exec twin of [`Field`].
#[derive(Clone, Copy)]
enum FieldSel {
    Summary,
    Description,
    Tag,
}

spec fn field_spec(f: FieldSel) -> Field {
    match f {
        FieldSel::Summary => Field::Summary,
        FieldSel::Description => Field::Description,
        FieldSel::Tag => Field::Tag,
    }
}

fn fill_field_exec(m: &mut Vec<MetaBuf>, op: &[char], f: FieldSel, v: Vec<char>)
    ensures
        recs_of(final(m)@) == fill_field(recs_of(old(m)@), op@, field_spec(f), v@),
{
    let i = with_rec_exec(m, op);
    let ghost m2 = recs_of(m@);
    let empty = match f {
        FieldSel::Summary => m[i].summary.len() == 0,
        FieldSel::Description => m[i].description.len() == 0,
        FieldSel::Tag => m[i].tag.len() == 0,
    };
    if empty {
        let b = MetaBuf {
            op: copy_chars(&m[i].op),
            summary: match f {
                FieldSel::Summary => chars_copy(v.as_slice()),
                _ => copy_chars(&m[i].summary),
            },
            description: match f {
                FieldSel::Description => chars_copy(v.as_slice()),
                _ => copy_chars(&m[i].description),
            },
            tag: match f {
                FieldSel::Tag => chars_copy(v.as_slice()),
                _ => copy_chars(&m[i].tag),
            },
            min_tier: m[i].min_tier,
        };
        let ghost nb = rec_of(b);
        assert(nb == with_field(m2[i as int], field_spec(f), v@));
        m.set(i, b);
        assert(recs_of(m@) =~= m2.update(i as int, nb));
    }
}

fn set_tier_exec(m: &mut Vec<MetaBuf>, op: &[char], t: Tier)
    ensures
        recs_of(final(m)@) == set_tier(recs_of(old(m)@), op@, t),
{
    let i = with_rec_exec(m, op);
    let ghost m2 = recs_of(m@);
    let b = MetaBuf {
        op: copy_chars(&m[i].op),
        summary: copy_chars(&m[i].summary),
        description: copy_chars(&m[i].description),
        tag: copy_chars(&m[i].tag),
        min_tier: Some(t),
    };
    let ghost nb = rec_of(b);
    assert(nb == MetaRec { min_tier: Some(t), ..m2[i as int] });
    m.set(i, b);
    assert(recs_of(m@) =~= m2.update(i as int, nb));
}

proof fn lemma_find_rec_bound(m: Seq<MetaRec>, op: Seq<char>)
    ensures
        find_rec(m, op) matches Some(i) ==> 0 <= i < m.len() && m[i].op == op,
    decreases m.len(),
{
    if m.len() > 0 && m.last().op != op {
        lemma_find_rec_bound(m.drop_last(), op);
    }
}

struct Scanner {
    in_paths: bool,
    current: Option<Vec<char>>,
    in_get_block: bool,
    collecting: Option<usize>,
    desc_buf: Vec<Vec<char>>,
    in_tags_block: bool,
    waiting_first_tag: bool,
    tiers: Vec<(Vec<char>, Tier)>,
    metas: Vec<MetaBuf>,
}

spec fn tiers_of(v: Seq<(Vec<char>, Tier)>) -> Seq<(Seq<char>, Tier)> {
    v.map_values(|p: (Vec<char>, Tier)| (p.0@, p.1))
}

impl Scanner {
    spec fn state(&self) -> ScanState {
        ScanState {
            in_paths: self.in_paths,
            current: match self.current {
                Some(c) => Some(c@),
                None => None,
            },
            in_get_block: self.in_get_block,
            collecting: match self.collecting {
                Some(b) => Some(b as nat),
                None => None,
            },
            desc_buf: vecs_view(self.desc_buf@),
            in_tags_block: self.in_tags_block,
            waiting_first_tag: self.waiting_first_tag,
            tiers: tiers_of(self.tiers@),
            metas: recs_of(self.metas@),
        }
    }

    /// Collected descriptions have base indent 6: that is the only indent
    /// a block opens at.
    spec fn inv(&self) -> bool {
        self.collecting matches Some(b) ==> b == 6
    }
}

spec fn capped(n: nat) -> nat {
    if n < 16 { n } else { 16 }
}

fn lit_len(lit: &str) -> (n: usize)
    ensures
        n == lit@.len(),
{
    chars_of(lit).len()
}

fn flush_exec(st: &mut Scanner)
    requires
        old(st).inv(),
    ensures
        final(st).state() == flush_description(old(st).state()),
        final(st).inv(),
{
    let sp = chars_of(" ");
    let joined = join_exec(&st.desc_buf, sp.as_slice());
    let text = trim_exec(joined.as_slice());
    match &st.current {
        Some(op) => {
            let op = chars_copy(op.as_slice());
            fill_field_exec(&mut st.metas, op.as_slice(), FieldSel::Description, text);
        },
        None => {},
    }
    st.desc_buf = Vec::new();
    st.collecting = None;
    assert(vecs_view(st.desc_buf@) =~= Seq::<Seq<char>>::empty());
}

fn subscription_line_exec(st: &mut Scanner, op: &[char], trimmed: &[char])
    requires
        old(st).inv(),
        starts_with(trimmed@, "x-min-subscription:"@),
    ensures
        final(st).state() == endpoint_line(old(st).state(), op@, trimmed@, 4),
        final(st).inv(),
{
    let rest = suffix_from(trimmed, lit_len("x-min-subscription:"));
    let w = trim_exec(rest.as_slice());
    let w = ascii_lower_vec(w.as_slice());
    let t = match tier_word_exec(w.as_slice()) {
        Some(t) => t,
        None => {
            return;
        },
    };
    let ghost old_tiers = tiers_of(st.tiers@);
    st.tiers.push((chars_copy(op), t));
    assert(tiers_of(st.tiers@) =~= old_tiers.push((op@, t)));
    set_tier_exec(&mut st.metas, op, t);
}

fn get_field_line_exec(st: &mut Scanner, op: &[char], trimmed: &[char])
    requires
        old(st).inv(),
        old(st).in_get_block,
    ensures
        final(st).state() == endpoint_line(old(st).state(), op@, trimmed@, 6),
        final(st).inv(),
{
    st.in_tags_block = false;
    if starts_with_lit(trimmed, "summary:") {
        let rest = suffix_from(trimmed, lit_len("summary:"));
        let val = trim_exec(rest.as_slice());
        if val.len() > 0 {
            let u = unquote_exec(val.as_slice());
            fill_field_exec(&mut st.metas, op, FieldSel::Summary, u);
        }
    } else if starts_with_lit(trimmed, "description:") {
        let rest = suffix_from(trimmed, lit_len("description:"));
        let val = trim_exec(rest.as_slice());
        let v = val.as_slice();
        if eq_lit(v, "|") || eq_lit(v, "|-") || eq_lit(v, ">") || eq_lit(v, ">-") {
            st.collecting = Some(6);
            st.desc_buf = Vec::new();
            assert(vecs_view(st.desc_buf@) =~= Seq::<Seq<char>>::empty());
        } else if val.len() > 0 {
            let u = unquote_exec(v);
            fill_field_exec(&mut st.metas, op, FieldSel::Description, u);
        }
    } else if starts_with_lit(trimmed, "tags:") {
        st.in_tags_block = true;
        st.waiting_first_tag = true;
    }
}

fn endpoint_line_exec(st: &mut Scanner, op: &[char], trimmed: &[char], ind: usize, Ghost(exact): Ghost<nat>)
    requires
        old(st).inv(),
        ind == capped(exact),
    ensures
        final(st).state() == endpoint_line(old(st).state(), op@, trimmed@, exact),
        final(st).inv(),
{
    if ind == 4 {
        if starts_with_lit(trimmed, "x-min-subscription:") {
            subscription_line_exec(st, op, trimmed);
        } else if starts_with_lit(trimmed, "get:") {
            st.in_get_block = true;
            st.in_tags_block = false;
        } else {
            st.in_get_block = false;
            st.in_tags_block = false;
        }
    } else if st.in_get_block && ind == 6 {
        get_field_line_exec(st, op, trimmed);
    } else if st.in_tags_block && ind == 8 && starts_with_lit(trimmed, "- ") && st.waiting_first_tag {
        proof {
            reveal_strlit("- ");
        }
        let rest = suffix_from(trimmed, 2);
        let tag = trim_exec(rest.as_slice());
        let u = unquote_exec(tag.as_slice());
        fill_field_exec(&mut st.metas, op, FieldSel::Tag, u);
        st.waiting_first_tag = false;
        st.in_tags_block = false;
    }
}

fn path_line_exec(st: &mut Scanner, l: &[char], trimmed: &[char], ind: usize, Ghost(exact): Ghost<nat>)
    requires
        old(st).inv(),
        ind == capped(exact),
        trimmed@ == trim_start(l@),
    ensures
        final(st).state() == path_line(old(st).state(), l@, trimmed@, exact),
        final(st).inv(),
{
    if ind == 2 && starts_with_lit(trimmed, "/") && ends_with_lit(trim_end_exec(l).as_slice(), ":") {
        let t = trim_end_exec(trimmed);
        let t = trim_end_char_exec(t.as_slice(), ':');
        let key = path_op_id_exec(t.as_slice());
        st.current = if key.len() == 0 { None } else { Some(key) };
        st.in_get_block = false;
        st.in_tags_block = false;
    } else {
        match &st.current {
            None => {},
            Some(op) => {
                let op = chars_copy(op.as_slice());
                endpoint_line_exec(st, op.as_slice(), trimmed, ind, Ghost(exact));
            },
        }
    }
}

fn scan_line_exec(st: &mut Scanner, l: &[char])
    requires
        old(st).inv(),
    ensures
        final(st).state() == scan_line(old(st).state(), l@),
        final(st).inv(),
{
    let top = !(l.len() > 0 && l[0] == '\u{20}') && ends_with_lit(trim_end_exec(l).as_slice(), ":");
    if top {
        let k = trim_start_count(l);
        let ts = suffix_from(l, k);
        st.in_paths = starts_with_lit(ts.as_slice(), "paths:");
        st.current = None;
        st.in_get_block = false;
        st.collecting = None;
        st.in_tags_block = false;
        return;
    }
    if !st.in_paths {
        return;
    }
    let k = trim_start_count(l);
    let trimmed = suffix_from(l, k);
    let ind = utf8_len_prefix_capped(l, k, 16);
    let ghost exact = indent_of(l@);
    assert(l@.take(l@.len() - trim_start(l@).len()) =~= l@.take(k as int));
    match st.collecting {
        Some(base) => {
            if trimmed.len() == 0 {
                let ghost old_buf = vecs_view(st.desc_buf@);
                st.desc_buf.push(Vec::new());
                assert(vecs_view(st.desc_buf@) =~= old_buf.push(Seq::empty()));
            } else if ind > base {
                let ghost old_buf = vecs_view(st.desc_buf@);
                let t = trim_end_exec(trimmed.as_slice());
                let ghost tv = t@;
                st.desc_buf.push(t);
                assert(vecs_view(st.desc_buf@) =~= old_buf.push(tv));
            } else {
                flush_exec(st);
                path_line_exec(st, l, trimmed.as_slice(), ind, Ghost(exact));
            }
        },
        None => {
            path_line_exec(st, l, trimmed.as_slice(), ind, Ghost(exact));
        },
    }
}

/// Walk the OpenAPI document and read both the tier table (every
/// `x-min-subscription`, in document order; a later one for an operation
/// wins) and the per-operation metadata of every operation that has a
/// tier. See [`document_metadata`].
pub fn parse_full_metadata(yaml: &str) -> (r: (Vec<(String, Tier)>, Vec<EndpointMeta>))
    ensures
        (entries_view(r.0@), metas_view(r.1@)) == document_metadata(yaml@),
{
    let text = chars_of(yaml);
    let lines = split_lines(text.as_slice());
    let ghost lv = vecs_view(lines@);
    let mut st = Scanner {
        in_paths: false,
        current: None,
        in_get_block: false,
        collecting: None,
        desc_buf: Vec::new(),
        in_tags_block: false,
        waiting_first_tag: false,
        tiers: Vec::new(),
        metas: Vec::new(),
    };
    assert(vecs_view(st.desc_buf@) =~= Seq::<Seq<char>>::empty());
    assert(tiers_of(st.tiers@) =~= Seq::<(Seq<char>, Tier)>::empty());
    assert(recs_of(st.metas@) =~= Seq::<MetaRec>::empty());
    assert(st.state() == initial_state());
    assert(lv.take(0) =~= Seq::<Seq<char>>::empty());
    let mut i: usize = 0;
    while i < lines.len()
        invariant
            i <= lines@.len(),
            lv == vecs_view(lines@),
            st.inv(),
            st.state() == scan_lines(initial_state(), lv.take(i as int)),
        decreases lines@.len() - i,
    {
        assert(lv.take(i + 1).drop_last() =~= lv.take(i as int));
        assert(lv.take(i + 1).last() == lines@[i as int]@);
        scan_line_exec(&mut st, lines[i].as_slice());
        i = i + 1;
    }
    assert(lv.take(lines@.len() as int) =~= lv);
    let ghost fin = st.state();
    let mut tiers: Vec<(String, Tier)> = Vec::new();
    let mut k: usize = 0;
    while k < st.tiers.len()
        invariant
            k <= st.tiers@.len(),
            entries_view(tiers@) == tiers_of(st.tiers@).take(k as int),
        decreases st.tiers@.len() - k,
    {
        let name = string_of(st.tiers[k].0.as_slice());
        let ghost prev = entries_view(tiers@);
        tiers.push((name, st.tiers[k].1));
        assert(entries_view(tiers@) =~= prev.push(tiers_of(st.tiers@)[k as int]));
        assert(tiers_of(st.tiers@).take(k + 1) =~= tiers_of(st.tiers@).take(k as int).push(
            tiers_of(st.tiers@)[k as int],
        ));
        k = k + 1;
    }
    assert(tiers_of(st.tiers@).take(st.tiers@.len() as int) =~= tiers_of(st.tiers@));
    let ghost rs = recs_of(st.metas@);
    let mut metas: Vec<EndpointMeta> = Vec::new();
    let mut j: usize = 0;
    assert(rs.take(0) =~= Seq::<MetaRec>::empty());
    while j < st.metas.len()
        invariant
            j <= st.metas@.len(),
            rs == recs_of(st.metas@),
            metas_view(metas@) == with_tier(rs.take(j as int)),
        decreases st.metas@.len() - j,
    {
        assert(rs.take(j + 1).drop_last() =~= rs.take(j as int));
        assert(rs.take(j + 1).last() == rec_of(st.metas@[j as int]));
        if st.metas[j].min_tier.is_some() {
            let b = &st.metas[j];
            let m = EndpointMeta {
                operation_id: string_of(b.op.as_slice()),
                summary: string_of(b.summary.as_slice()),
                description: string_of(b.description.as_slice()),
                tag: string_of(b.tag.as_slice()),
                min_tier: b.min_tier,
            };
            let ghost prev = metas_view(metas@);
            let ghost mr = m.rec();
            metas.push(m);
            assert(metas_view(metas@) =~= prev.push(mr));
        }
        j = j + 1;
    }
    assert(rs.take(st.metas@.len() as int) =~= rs);
    (tiers, metas)
}

// ---------------------------------------------------------------------
// What the document's tier list and its records agree on.
// ---------------------------------------------------------------------

/// The last tier `ts` reads for `op`.
pub open spec fn last_tier(ts: Seq<(Seq<char>, Tier)>, op: Seq<char>) -> Option<Tier>
    decreases ts.len(),
{
    if ts.len() == 0 {
        None
    } else if ts.last().0 == op {
        Some(ts.last().1)
    } else {
        last_tier(ts.drop_last(), op)
    }
}

/// The tier of `op`'s record in `m`, if it has a record.
pub open spec fn rec_tier(m: Seq<MetaRec>, op: Seq<char>) -> Option<Tier> {
    match find_rec(m, op) {
        Some(i) => m[i].min_tier,
        None => None,
    }
}

/// Every operation's record carries the last tier read for it.
pub open spec fn tiers_recorded(st: ScanState) -> bool {
    forall|op: Seq<char>| #[trigger] rec_tier(st.metas, op) == last_tier(st.tiers, op)
}

/// No two records are for one operation.
pub open spec fn ops_unique(m: Seq<MetaRec>) -> bool {
    forall|i: int, j: int| 0 <= i < m.len() && 0 <= j < m.len() && i != j ==> #[trigger] m[i].op != #[trigger] m[j].op
}

/// No tier read is `Unknown`.
pub open spec fn all_known(ts: Seq<(Seq<char>, Tier)>) -> bool {
    forall|i: int| 0 <= i < ts.len() ==> (#[trigger] ts[i]).1 != Tier::Unknown
}

/// What the scan keeps true between lines.
pub open spec fn scan_ok(st: ScanState) -> bool {
    &&& tiers_recorded(st)
    &&& ops_unique(st.metas)
    &&& all_known(st.tiers)
}

proof fn lemma_find_rec_none(m: Seq<MetaRec>, op: Seq<char>, i: int)
    requires
        find_rec(m, op) is None,
        0 <= i < m.len(),
    ensures
        m[i].op != op,
    decreases m.len(),
{
    if i < m.len() - 1 {
        assert(m.drop_last()[i] == m[i]);
        lemma_find_rec_none(m.drop_last(), op, i);
    }
}

proof fn lemma_find_rec_unique(m: Seq<MetaRec>, i: int)
    requires
        ops_unique(m),
        0 <= i < m.len(),
    ensures
        find_rec(m, m[i].op) == Some(i),
    decreases m.len(),
{
    if i < m.len() - 1 {
        assert(m.last().op != m[i].op);
        let d = m.drop_last();
        assert(d[i] == m[i]);
        assert forall|a: int, b: int| 0 <= a < d.len() && 0 <= b < d.len() && a != b implies #[trigger] d[a].op != #[trigger] d[b].op by {
            assert(d[a] == m[a] && d[b] == m[b]);
        }
        lemma_find_rec_unique(d, i);
    }
}

proof fn lemma_last_tier_known(ts: Seq<(Seq<char>, Tier)>, op: Seq<char>)
    requires
        all_known(ts),
    ensures
        last_tier(ts, op) != Some(Tier::Unknown),
    decreases ts.len(),
{
    if ts.len() > 0 && ts.last().0 != op {
        let d = ts.drop_last();
        assert forall|i: int| 0 <= i < d.len() implies (#[trigger] d[i]).1 != Tier::Unknown by {
            assert(d[i] == ts[i]);
        }
        lemma_last_tier_known(d, op);
    }
}

proof fn lemma_update_unique(m: Seq<MetaRec>, i: int, r: MetaRec)
    requires
        ops_unique(m),
        0 <= i < m.len(),
        r.op == m[i].op,
    ensures
        ops_unique(m.update(i, r)),
{
    let u = m.update(i, r);
    assert forall|a: int, b: int| 0 <= a < u.len() && 0 <= b < u.len() && a != b implies #[trigger] u[a].op != #[trigger] u[b].op by {
        assert(u[a].op == m[a].op && u[b].op == m[b].op);
    }
}

proof fn lemma_with_rec_unique(m: Seq<MetaRec>, op: Seq<char>)
    requires
        ops_unique(m),
    ensures
        ops_unique(with_rec(m, op).0),
{
    if find_rec(m, op) is None {
        let u = m.push(empty_rec(op));
        assert forall|a: int, b: int| 0 <= a < u.len() && 0 <= b < u.len() && a != b implies #[trigger] u[a].op != #[trigger] u[b].op by {
            if a == m.len() {
                lemma_find_rec_none(m, op, b);
                assert(u[b] == m[b]);
            } else if b == m.len() {
                lemma_find_rec_none(m, op, a);
                assert(u[a] == m[a]);
            } else {
                assert(u[a] == m[a] && u[b] == m[b]);
            }
        }
    }
}

proof fn lemma_fill_unique(m: Seq<MetaRec>, op: Seq<char>, f: Field, v: Seq<char>)
    requires
        ops_unique(m),
    ensures
        ops_unique(fill_field(m, op, f, v)),
{
    lemma_with_rec_unique(m, op);
    lemma_with_rec(m, op, op);
    let (m2, i) = with_rec(m, op);
    if field_of(m2[i], f).len() == 0 {
        lemma_update_unique(m2, i, with_field(m2[i], f, v));
    }
}

proof fn lemma_set_tier_unique(m: Seq<MetaRec>, op: Seq<char>, t: Tier)
    requires
        ops_unique(m),
    ensures
        ops_unique(set_tier(m, op, t)),
{
    lemma_with_rec_unique(m, op);
    lemma_with_rec(m, op, op);
    let (m2, i) = with_rec(m, op);
    lemma_update_unique(m2, i, MetaRec { min_tier: Some(t), ..m2[i] });
}

proof fn lemma_find_rec_push(m: Seq<MetaRec>, r: MetaRec, k: Seq<char>)
    ensures
        find_rec(m.push(r), k) == (if r.op == k { Some(m.len() as int) } else { find_rec(m, k) }),
{
    assert(m.push(r).drop_last() =~= m);
}

proof fn lemma_find_rec_update(m: Seq<MetaRec>, i: int, r: MetaRec, k: Seq<char>)
    requires
        0 <= i < m.len(),
        r.op == m[i].op,
    ensures
        find_rec(m.update(i, r), k) == find_rec(m, k),
    decreases m.len(),
{
    let u = m.update(i, r);
    if i == m.len() - 1 {
        assert(u.drop_last() =~= m.drop_last());
    } else {
        assert(u.drop_last() =~= m.drop_last().update(i, r));
        if m.last().op != k {
            lemma_find_rec_update(m.drop_last(), i, r, k);
        }
    }
}

proof fn lemma_rec_tier_update(m: Seq<MetaRec>, i: int, r: MetaRec, k: Seq<char>)
    requires
        0 <= i < m.len(),
        r.op == m[i].op,
        r.min_tier == m[i].min_tier,
    ensures
        rec_tier(m.update(i, r), k) == rec_tier(m, k),
{
    lemma_find_rec_update(m, i, r, k);
    lemma_find_rec_bound(m, k);
}

proof fn lemma_with_rec(m: Seq<MetaRec>, op: Seq<char>, k: Seq<char>)
    ensures
        rec_tier(with_rec(m, op).0, k) == rec_tier(m, k),
        0 <= with_rec(m, op).1 < with_rec(m, op).0.len(),
        with_rec(m, op).0[with_rec(m, op).1].op == op,
        find_rec(with_rec(m, op).0, op) == Some(with_rec(m, op).1),
{
    lemma_find_rec_bound(m, op);
    lemma_find_rec_bound(m, k);
    if find_rec(m, op) is None {
        lemma_find_rec_push(m, empty_rec(op), k);
        lemma_find_rec_push(m, empty_rec(op), op);
    }
}

proof fn lemma_fill_field(m: Seq<MetaRec>, op: Seq<char>, f: Field, v: Seq<char>, k: Seq<char>)
    ensures
        rec_tier(fill_field(m, op, f, v), k) == rec_tier(m, k),
{
    lemma_with_rec(m, op, k);
    let (m2, i) = with_rec(m, op);
    if field_of(m2[i], f).len() == 0 {
        lemma_rec_tier_update(m2, i, with_field(m2[i], f, v), k);
    }
}

proof fn lemma_set_tier(m: Seq<MetaRec>, op: Seq<char>, t: Tier, k: Seq<char>)
    ensures
        rec_tier(set_tier(m, op, t), k) == (if k == op { Some(t) } else { rec_tier(m, k) }),
{
    lemma_with_rec(m, op, k);
    let (m2, i) = with_rec(m, op);
    let r = MetaRec { min_tier: Some(t), ..m2[i] };
    lemma_find_rec_update(m2, i, r, k);
    lemma_find_rec_bound(m2, k);
    lemma_with_rec(m, op, op);
}

proof fn lemma_fill_keeps(st: ScanState, st2: ScanState, op: Seq<char>, f: Field, v: Seq<char>)
    requires
        scan_ok(st),
        st2.tiers == st.tiers,
        st2.metas == fill_field(st.metas, op, f, v),
    ensures
        scan_ok(st2),
{
    assert forall|k: Seq<char>| #[trigger] rec_tier(st2.metas, k) == last_tier(st2.tiers, k) by {
        lemma_fill_field(st.metas, op, f, v, k);
        assert(rec_tier(st.metas, k) == last_tier(st.tiers, k));
    }
    lemma_fill_unique(st.metas, op, f, v);
}

proof fn lemma_flush_keeps(st: ScanState)
    requires
        scan_ok(st),
    ensures
        scan_ok(flush_description(st)),
{
    match st.current {
        Some(op) => lemma_fill_keeps(st, flush_description(st), op, Field::Description, trim(join_with(st.desc_buf, " "@))),
        None => {},
    }
}

proof fn lemma_endpoint_keeps(st: ScanState, op: Seq<char>, trimmed: Seq<char>, indent: nat)
    requires
        scan_ok(st),
    ensures
        scan_ok(endpoint_line(st, op, trimmed, indent)),
{
    let st2 = endpoint_line(st, op, trimmed, indent);
    if indent == 4 && starts_with(trimmed, "x-min-subscription:"@) {
        let rest = trimmed.skip("x-min-subscription:"@.len() as int);
        match tier_word(ascii_lower_seq(trim(rest))) {
            Some(t) => {
                assert forall|k: Seq<char>| #[trigger] rec_tier(st2.metas, k) == last_tier(st2.tiers, k) by {
                    lemma_set_tier(st.metas, op, t, k);
                    assert(st2.tiers.drop_last() =~= st.tiers);
                    assert(rec_tier(st.metas, k) == last_tier(st.tiers, k));
                }
                lemma_set_tier_unique(st.metas, op, t);
                assert forall|i: int| 0 <= i < st2.tiers.len() implies (#[trigger] st2.tiers[i]).1 != Tier::Unknown by {
                    if i < st.tiers.len() {
                        assert(st2.tiers[i] == st.tiers[i]);
                    }
                }
            },
            None => {},
        }
    } else if indent == 4 {
    } else if st.in_get_block && indent == 6 {
        let s1 = ScanState { in_tags_block: false, ..st };
        assert(scan_ok(s1));
        if starts_with(trimmed, "summary:"@) {
            let val = trim(trimmed.skip("summary:"@.len() as int));
            if val.len() > 0 {
                lemma_fill_keeps(s1, st2, op, Field::Summary, unquote(val));
            }
        } else if starts_with(trimmed, "description:"@) {
            let val = trim(trimmed.skip("description:"@.len() as int));
            if !opens_block(val) && val.len() > 0 {
                lemma_fill_keeps(s1, st2, op, Field::Description, unquote(val));
            }
        }
    } else if st.in_tags_block && indent == 8 && starts_with(trimmed, "- "@) && st.waiting_first_tag {
        lemma_fill_keeps(st, st2, op, Field::Tag, unquote(trim(trimmed.skip(2))));
    }
}

proof fn lemma_path_keeps(st: ScanState, l: Seq<char>, trimmed: Seq<char>, indent: nat)
    requires
        scan_ok(st),
    ensures
        scan_ok(path_line(st, l, trimmed, indent)),
{
    if !(indent == 2 && starts_with(trimmed, "/"@) && ends_with(trim_end(l), ":"@)) {
        match st.current {
            None => {},
            Some(op) => lemma_endpoint_keeps(st, op, trimmed, indent),
        }
    } else {
        let st2 = path_line(st, l, trimmed, indent);
        assert(st2.metas == st.metas && st2.tiers == st.tiers);
    }
}

proof fn lemma_scan_line_keeps(st: ScanState, l: Seq<char>)
    requires
        scan_ok(st),
    ensures
        scan_ok(scan_line(st, l)),
{
    let st2 = scan_line(st, l);
    if is_top_key(l) {
        assert(st2.metas == st.metas && st2.tiers == st.tiers);
    } else if !st.in_paths {
    } else {
        let trimmed = trim_start(l);
        let indent = indent_of(l);
        match st.collecting {
            Some(base) => if trimmed.len() == 0 {
                assert(st2.metas == st.metas && st2.tiers == st.tiers);
            } else if indent > base {
                assert(st2.metas == st.metas && st2.tiers == st.tiers);
            } else {
                lemma_flush_keeps(st);
                lemma_path_keeps(flush_description(st), l, trimmed, indent);
            },
            None => lemma_path_keeps(st, l, trimmed, indent),
        }
    }
}

proof fn lemma_scan_lines_keeps(st: ScanState, ls: Seq<Seq<char>>)
    requires
        scan_ok(st),
    ensures
        scan_ok(scan_lines(st, ls)),
    decreases ls.len(),
{
    if ls.len() > 0 {
        lemma_scan_lines_keeps(st, ls.drop_last());
        lemma_scan_line_keeps(scan_lines(st, ls.drop_last()), ls.last());
    }
}

proof fn lemma_with_tier(m: Seq<MetaRec>, j: int)
    ensures
        forall|i: int| 0 <= i < with_tier(m).len() ==> (#[trigger] with_tier(m)[i]).min_tier is Some,
        forall|i: int| 0 <= i < with_tier(m).len() ==> exists|x: int| 0 <= x < m.len() && m[x] == #[trigger] with_tier(m)[i],
        0 <= j < m.len() && m[j].min_tier is Some ==> with_tier(m).contains(m[j]),
    decreases m.len(),
{
    if m.len() > 0 {
        let d = m.drop_last();
        let w = with_tier(d);
        lemma_with_tier(d, j);
        assert forall|i: int| 0 <= i < w.len() implies exists|x: int| 0 <= x < m.len() && m[x] == #[trigger] w[i] by {
            let x = choose|x: int| 0 <= x < d.len() && d[x] == w[i];
            assert(m[x] == d[x]);
        }
        if m.last().min_tier is Some {
            assert(with_tier(m) == w.push(m.last()));
            assert forall|i: int| 0 <= i < with_tier(m).len() implies exists|x: int| 0 <= x < m.len() && m[x] == #[trigger] with_tier(m)[i] by {
                if i < w.len() {
                    assert(with_tier(m)[i] == w[i]);
                } else {
                    assert(m[m.len() - 1] == with_tier(m)[i]);
                }
            }
            if 0 <= j < m.len() - 1 && m[j].min_tier is Some {
                assert(d[j] == m[j]);
                let x = choose|x: int| 0 <= x < w.len() && w[x] == m[j];
                assert(with_tier(m)[x] == m[j]);
            }
            if j == m.len() - 1 {
                assert(with_tier(m)[w.len() as int] == m[j]);
            }
        } else {
            if 0 <= j < m.len() - 1 {
                assert(d[j] == m[j]);
            }
        }
    }
}

proof fn lemma_scan_ok(doc: Seq<char>)
    ensures
        scan_ok(scan_lines(initial_state(), lines_of(doc))),
{
    assert(scan_ok(initial_state())) by {
        assert forall|k: Seq<char>| #[trigger] rec_tier(initial_state().metas, k) == last_tier(initial_state().tiers, k) by {}
    }
    lemma_scan_lines_keeps(initial_state(), lines_of(doc));
}

/// Of what the document gives, every operation the tier list names has a
/// record carrying the last tier the list reads for it, and every record
/// carries the last tier the list reads for its operation, never
/// `Unknown`.
pub proof fn law_tier_list_and_records_agree(doc: Seq<char>, op: Seq<char>)
    ensures
        forall|i: int|
            0 <= i < document_metadata(doc).1.len() ==> (#[trigger] document_metadata(doc).1[i]).min_tier
                == last_tier(document_metadata(doc).0, document_metadata(doc).1[i].op)
                && document_metadata(doc).1[i].min_tier is Some
                && document_metadata(doc).1[i].min_tier != Some(Tier::Unknown),
        last_tier(document_metadata(doc).0, op) matches Some(t) ==> exists|i: int|
            0 <= i < document_metadata(doc).1.len() && (#[trigger] document_metadata(doc).1[i]).op == op
                && document_metadata(doc).1[i].min_tier == Some(t),
{
    let st = scan_lines(initial_state(), lines_of(doc));
    lemma_scan_ok(doc);
    let out = with_tier(st.metas);
    assert(out == document_metadata(doc).1);
    assert(st.tiers == document_metadata(doc).0);
    lemma_with_tier(st.metas, 0);
    assert forall|i: int| 0 <= i < out.len() implies (#[trigger] out[i]).min_tier == last_tier(st.tiers, out[i].op)
        && out[i].min_tier is Some && out[i].min_tier != Some(Tier::Unknown) by {
        let x = choose|x: int| 0 <= x < st.metas.len() && st.metas[x] == out[i];
        lemma_find_rec_unique(st.metas, x);
        assert(rec_tier(st.metas, out[i].op) == last_tier(st.tiers, out[i].op));
        lemma_last_tier_known(st.tiers, out[i].op);
    }
    assert(rec_tier(st.metas, op) == last_tier(st.tiers, op));
    lemma_find_rec_bound(st.metas, op);
    match find_rec(st.metas, op) {
        Some(j) => {
            lemma_with_tier(st.metas, j);
            if st.metas[j].min_tier is Some {
                let x = choose|x: int| 0 <= x < out.len() && out[x] == st.metas[j];
                assert(out[x].op == op);
            }
        },
        None => {},
    }
}

/// An operation's `x-min-subscription:` line, whatever follows the key,
/// records the tier its value names as a label ([`Tier::from_label`]):
/// it adds that tier for the operation to the tier list and sets it on
/// the operation's record. A value that names no tier changes nothing.
pub proof fn law_min_subscription_line_records_its_tier(st: ScanState, op: Seq<char>, rest: Seq<char>)
    ensures
        tier_word(fold_label(rest)) is Some ==> endpoint_line(st, op, "x-min-subscription:"@ + rest, 4).tiers
            == st.tiers.push((op, Tier::parse_label(rest))),
        tier_word(fold_label(rest)) is Some ==> rec_tier(
            endpoint_line(st, op, "x-min-subscription:"@ + rest, 4).metas,
            op,
        ) == Some(Tier::parse_label(rest)),
        tier_word(fold_label(rest)) is None ==> endpoint_line(st, op, "x-min-subscription:"@ + rest, 4) == st,
{
    let key = "x-min-subscription:"@;
    let line = key + rest;
    assert(line.take(key.len() as int) =~= key);
    assert(line.skip(key.len() as int) =~= rest);
    assert(starts_with(line, key));
    law_tier_words_are_tier_labels(Tier::Free, rest);
    if tier_word(fold_label(rest)) is Some {
        lemma_set_tier(st.metas, op, Tier::parse_label(rest), op);
    }
}

} // verus!
