//! Which (dataset, symbol, date) files an output directory holds, read
//! from the files' names, and which trading days of a window are still
//! missing. Walking the directory is the caller's; this module reads the
//! names it finds.
//!
//! A file is named `<symbol>_<dataset>[_<qualifier>]_<YYYYMMDD>.<ext>`:
//! the date stays last, whatever the qualifier holds. A range file is
//! named by its start and carries its end as a `to<YYYYMMDD>` qualifier.

use vstd::prelude::*;

use crate::dates::{chrono_parse_ymd, chrono_ymd, is_weekend, Date};
use crate::format::OutputFormat;
use crate::lines::{fields_of, split_fields, vecs_view};
use crate::spec::{DataKind, DataSpec};
use crate::text::{chars_of, compare_chars, lemma_seq_lt_asymmetric, lemma_seq_lt_irreflexive, lemma_seq_lt_transitive, push_char, push_str, seq_lt, starts_with, starts_with_lit, string_of, suffix_from, to_uppercase, unicode_upper, Cmp};

verus! {

/// Index of the last `c` in `s`, or -1 when `s` holds none.
pub open spec fn last_index_of(s: Seq<char>, c: char) -> int
    decreases s.len(),
{
    if s.len() == 0 {
        -1
    } else if s.last() == c {
        s.len() - 1
    } else {
        last_index_of(s.drop_last(), c)
    }
}

proof fn lemma_last_index_at(s: Seq<char>, c: char, i: int)
    requires
        0 <= i < s.len(),
        s[i] == c,
        forall|k: int| i < k < s.len() ==> s[k] != c,
    ensures
        last_index_of(s, c) == i,
    decreases s.len(),
{
    if s.last() != c {
        lemma_last_index_at(s.drop_last(), c, i);
    }
}

proof fn lemma_last_index_none(s: Seq<char>, c: char)
    requires
        forall|k: int| 0 <= k < s.len() ==> s[k] != c,
    ensures
        last_index_of(s, c) == -1,
    decreases s.len(),
{
    if s.len() > 0 {
        lemma_last_index_none(s.drop_last(), c);
    }
}

/// `s` split at its last `c` (`str::rsplit_once`), or `None` when `s`
/// holds no `c`.
pub open spec fn split_last(s: Seq<char>, c: char) -> Option<(Seq<char>, Seq<char>)> {
    let i = last_index_of(s, c);
    if i < 0 {
        None
    } else {
        Some((s.take(i), s.skip(i + 1)))
    }
}

fn split_last_exec(s: &[char], c: char) -> (r: Option<(Vec<char>, Vec<char>)>)
    ensures
        r matches Some(p) ==> split_last(s@, c) == Some((p.0@, p.1@)),
        r is None ==> split_last(s@, c) is None,
{
    let mut i: usize = s.len();
    while i > 0
        invariant
            i <= s@.len(),
            forall|k: int| i <= k < s@.len() ==> s@[k] != c,
        decreases i,
    {
        if s[i - 1] == c {
            proof {
                lemma_last_index_at(s@, c, i - 1);
            }
            let mut head: Vec<char> = Vec::new();
            let mut k: usize = 0;
            while k < i - 1
                invariant
                    k <= i - 1,
                    i <= s@.len(),
                    head@ == s@.take(k as int),
                decreases i - 1 - k,
            {
                head.push(s[k]);
                assert(s@.take(k as int).push(s@[k as int]) =~= s@.take(k + 1));
                k = k + 1;
            }
            let tail = suffix_from(s, i);
            return Some((head, tail));
        }
        i = i - 1;
    }
    proof {
        lemma_last_index_none(s@, c);
    }
    None
}

/// The text after `to` in the last part before the final one that starts
/// with `to`, looking at `parts[0..n]` from the back.
pub open spec fn to_qualifier(parts: Seq<Seq<char>>, n: int) -> Option<Seq<char>>
    decreases n,
{
    if n <= 0 {
        None
    } else if starts_with(parts[n - 1], "to"@) {
        Some(parts[n - 1].skip(2))
    } else {
        to_qualifier(parts, n - 1)
    }
}

/// The end date a range file's `to<YYYYMMDD>` qualifier names: the last
/// part before the date that starts with `to`, read as `%Y%m%d`.
pub open spec fn range_end_of(parts: Seq<Seq<char>>) -> Option<int> {
    match to_qualifier(parts, parts.len() - 1) {
        Some(q) => chrono_parse_ymd(q),
        None => None,
    }
}

fn range_end(parts: &Vec<Vec<char>>) -> (r: Option<Date>)
    requires
        parts@.len() >= 1,
    ensures
        r matches Some(d) ==> range_end_of(vecs_view(parts@)) == Some(d.day()),
        r is None ==> range_end_of(vecs_view(parts@)) is None,
{
    let ghost ps = vecs_view(parts@);
    let mut n: usize = parts.len() - 1;
    while n > 0
        invariant
            n < parts@.len(),
            ps == vecs_view(parts@),
            to_qualifier(ps, ps.len() - 1) == to_qualifier(ps, n as int),
        decreases n,
    {
        assert(ps[n - 1] == parts@[n - 1]@);
        proof {
            reveal_strlit("to");
        }
        if starts_with_lit(parts[n - 1].as_slice(), "to") {
            let q = suffix_from(parts[n - 1].as_slice(), 2);
            let qs = string_of(q.as_slice());
            return Date::parse_ymd8(qs.as_str());
        }
        n = n - 1;
    }
    None
}

/// What a file's name says of it: its symbol (upper-cased), its date,
/// the end of its window when it is a range file, and its extension.
#[derive(Debug)]
pub struct NamedFile {
    pub symbol: String,
    pub date: Date,
    pub range_end: Option<Date>,
    pub ext: String,
}

/// A file name read as `<symbol>_..._<YYYYMMDD>.<ext>`: `None` when it
/// has no extension, fewer than three `_`-separated parts before it, or a
/// last part that is not a date.
pub open spec fn file_name_view(name: Seq<char>) -> Option<(Seq<char>, int, Option<int>, Seq<char>)> {
    match split_last(name, '.') {
        None => None,
        Some((stem, ext)) => {
            let parts = fields_of(stem, '_');
            if parts.len() < 3 {
                None
            } else {
                match chrono_parse_ymd(parts.last()) {
                    None => None,
                    Some(d) => Some((unicode_upper(parts[0]), d, range_end_of(parts), ext)),
                }
            }
        },
    }
}

pub open spec fn opt_day(d: Option<Date>) -> Option<int> {
    match d {
        Some(x) => Some(x.day()),
        None => None,
    }
}

/// Read a file name found under a dataset's directory; see
/// [`file_name_view`].
pub fn read_file_name(name: &str) -> (r: Option<NamedFile>)
    ensures
        r matches Some(f) ==> file_name_view(name@) == Some(
            (f.symbol@, f.date.day(), opt_day(f.range_end), f.ext@),
        ),
        r is None ==> file_name_view(name@) is None,
{
    let cs = chars_of(name);
    let (stem, ext) = match split_last_exec(cs.as_slice(), '.') {
        Some(p) => p,
        None => {
            return None;
        },
    };
    let parts = split_fields(stem.as_slice(), '_');
    if parts.len() < 3 {
        return None;
    }
    let ghost ps = vecs_view(parts@);
    assert(ps.last() == parts@[parts@.len() - 1]@);
    assert(ps[0] == parts@[0]@);
    let ymd = string_of(parts[parts.len() - 1].as_slice());
    let date = match Date::parse_ymd8(ymd.as_str()) {
        Some(d) => d,
        None => {
            return None;
        },
    };
    let first = string_of(parts[0].as_slice());
    let symbol = to_uppercase(first.as_str());
    let end = range_end(&parts);
    let ext = string_of(ext.as_slice());
    Some(NamedFile { symbol, date, range_end: end, ext })
}

/// Every day from `start` through `d` is one chrono represents.
pub open spec fn reachable(start: int, d: int) -> bool {
    forall|k: int| start <= k <= d ==> k <= i32::MAX && #[trigger] chrono_ymd(k) is Some
}

/// Day `d` is a weekday of the window `start..=end` that a walk from
/// `start` reaches.
pub open spec fn in_span(start: int, end: int, d: int) -> bool {
    start <= d <= end && !is_weekend(d) && reachable(start, d)
}

pub open spec fn day_numbers(v: Seq<Date>) -> Seq<int> {
    v.map_values(|d: Date| d.day())
}

proof fn lemma_push_contains(s: Seq<int>, x: int, d: int)
    ensures
        s.push(x).contains(d) <==> (s.contains(d) || d == x),
{
    if s.push(x).contains(d) {
        let j = choose|j: int| 0 <= j < s.push(x).len() && s.push(x)[j] == d;
        if j < s.len() {
            assert(s[j] == d);
        }
    }
    if s.contains(d) {
        let j = choose|j: int| 0 <= j < s.len() && s[j] == d;
        assert(s.push(x)[j] == d);
    }
    if d == x {
        assert(s.push(x)[s.len() as int] == d);
    }
}

/// Strictly increasing.
pub open spec fn increasing(s: Seq<int>) -> bool {
    forall|i: int, j: int| 0 <= i < j < s.len() ==> s[i] < s[j]
}

/// The days a file dated `start` covers: with a range end after `start`,
/// every weekday from `start` through that end, in order; otherwise
/// `start` alone. Weekends are left out of a range because a window
/// holds no sessions on them.
pub fn covered_days(start: Date, end: Option<Date>) -> (r: Vec<Date>)
    ensures
        increasing(day_numbers(r@)),
        end matches Some(e) ==> (e.day() > start.day() ==> forall|d: int|
            #![trigger day_numbers(r@).contains(d)]
            day_numbers(r@).contains(d) <==> in_span(start.day(), e.day(), d)),
        !(end matches Some(e) && e.day() > start.day()) ==> day_numbers(r@) == seq![start.day()],
{
    let e = match end {
        Some(e) if e.day_number() > start.day_number() => e,
        _ => {
            let v = vec![start];
            assert(day_numbers(v@) =~= seq![start.day()]);
            return v;
        },
    };
    let s = start.day_number();
    let last = e.day_number();
    let mut out: Vec<Date> = Vec::new();
    let mut day = start;
    assert(reachable(s as int, s as int));
    loop
        invariant_except_break
            forall|i: int| 0 <= i < out@.len() ==> out@[i].day() < day.day(),
            forall|d: int|
                #![trigger day_numbers(out@).contains(d)]
                day_numbers(out@).contains(d) <==> (in_span(s as int, last as int, d) && d < day.day()),
        invariant
            s == start.day(),
            last == e.day(),
            s <= day.day() <= last,
            reachable(s as int, day.day()),
            increasing(day_numbers(out@)),
        ensures
            increasing(day_numbers(out@)),
            forall|d: int|
                #![trigger day_numbers(out@).contains(d)]
                day_numbers(out@).contains(d) <==> in_span(s as int, last as int, d),
        decreases last - day.day(),
    {
        let ghost cur = day.day();
        let ghost before = day_numbers(out@);
        if !day.is_weekend() {
            out.push(day);
            assert(day_numbers(out@) =~= before.push(cur));
            assert forall|d: int| #![trigger day_numbers(out@).contains(d)]
                day_numbers(out@).contains(d) <==> (in_span(s as int, last as int, d) && d <= cur) by {
                lemma_push_contains(before, cur, d);
            }
        } else {
            assert(day_numbers(out@) =~= before);
            assert forall|d: int| #![trigger day_numbers(out@).contains(d)]
                day_numbers(out@).contains(d) <==> (in_span(s as int, last as int, d) && d <= cur) by {
                if d == cur {
                    assert(is_weekend(d));
                }
            }
        }
        assert(increasing(day_numbers(out@)));
        if day.day_number() >= last {
            assert forall|d: int| #![trigger day_numbers(out@).contains(d)]
                day_numbers(out@).contains(d) <==> in_span(s as int, last as int, d) by {}
            break;
        }
        match day.succ() {
            Some(n) => {
                assert forall|k: int| s <= k <= n.day() implies k <= i32::MAX && #[trigger] chrono_ymd(k) is Some by {
                    if k <= cur {
                        assert(chrono_ymd(k) is Some);
                    }
                }
                day = n;
            },
            None => {
                assert forall|d: int| #![trigger day_numbers(out@).contains(d)]
                    day_numbers(out@).contains(d) <==> in_span(s as int, last as int, d) by {
                    if d > cur && s <= d {
                        if reachable(s as int, d) {
                            assert(chrono_ymd(cur + 1) is Some);
                        }
                    }
                }
                break;
            },
        }
    }
    out
}

/// The days of `server` (in its order) that lie within `start..=end` and
/// are not among `have`.
pub open spec fn missing_days(server: Seq<int>, have: Seq<int>, start: int, end: int) -> Seq<int> {
    server.filter(|d: int| start <= d <= end && !have.contains(d))
}

fn holds(have: &[Date], d: i32) -> (b: bool)
    ensures
        b == day_numbers(have@).contains(d as int),
{
    let mut i: usize = 0;
    while i < have.len()
        invariant
            i <= have@.len(),
            forall|k: int| 0 <= k < i ==> have@[k].day() != d,
        decreases have@.len() - i,
    {
        if have[i].day_number() == d {
            assert(day_numbers(have@)[i as int] == d);
            return true;
        }
        i = i + 1;
    }
    assert forall|k: int| 0 <= k < day_numbers(have@).len() implies day_numbers(have@)[k] != d by {
        assert(day_numbers(have@)[k] == have@[k].day());
    }
    false
}

/// The trading days of `server_days` (the server's calendar) within
/// `start..=end` that are not yet on disk (`have`), in the server's order.
pub fn missing(server_days: &[Date], have: &[Date], start: Date, end: Date) -> (r: Vec<Date>)
    ensures
        day_numbers(r@) == missing_days(day_numbers(server_days@), day_numbers(have@), start.day(), end.day()),
{
    let ghost sv = day_numbers(server_days@);
    let ghost hv = day_numbers(have@);
    let ghost p = |d: int| start.day() <= d <= end.day() && !hv.contains(d);
    let s = start.day_number();
    let e = end.day_number();
    let mut out: Vec<Date> = Vec::new();
    let mut i: usize = 0;
    assert(sv.take(0) =~= Seq::<int>::empty());
    while i < server_days.len()
        invariant
            i <= server_days@.len(),
            sv == day_numbers(server_days@),
            hv == day_numbers(have@),
            s == start.day(),
            e == end.day(),
            p == (|d: int| start.day() <= d <= end.day() && !hv.contains(d)),
            day_numbers(out@) == sv.take(i as int).filter(p),
        decreases server_days@.len() - i,
    {
        let d = server_days[i];
        let n = d.day_number();
        proof {
            reveal(Seq::filter);
        }
        assert(sv.take(i + 1).drop_last() =~= sv.take(i as int));
        assert(sv.take(i + 1).last() == n);
        let ghost before = out@;
        if s <= n && n <= e && !holds(have, n) {
            out.push(d);
            assert(day_numbers(out@) =~= day_numbers(before).push(n as int));
        } else {
            assert(day_numbers(out@) =~= day_numbers(before));
        }
        i = i + 1;
    }
    assert(sv.take(i as int) =~= sv);
    out
}

/// The name of the file one work unit is written to:
/// `<stem>.<ext>`, under the directory named after its dataset.
pub fn dataset_file_name(spec: &DataSpec, ext: &str) -> (r: String)
    ensures
        r@ == spec.stem() + "."@ + ext@,
{
    let mut s = spec.file_stem();
    push_char(&mut s, '.');
    push_str(&mut s, ext);
    proof {
        reveal_strlit(".");
    }
    s
}

/// The day numbers `v` holds.
pub open spec fn day_set(v: Seq<Date>) -> Set<int> {
    Set::new(|d: int| day_numbers(v).contains(d))
}

/// The days a file dated `start`, with range end `end`, covers; see
/// [`covered_days`].
pub open spec fn covered_set(start: int, end: Option<int>) -> Set<int> {
    match end {
        Some(e) => if e > start {
            Set::new(|d: int| in_span(start, e, d))
        } else {
            set![start]
        },
        None => set![start],
    }
}

/// `v`, increasing, with `d` added to it.
fn insert_day(v: Vec<Date>, d: Date) -> (r: Vec<Date>)
    requires
        increasing(day_numbers(v@)),
    ensures
        increasing(day_numbers(r@)),
        day_set(r@) == day_set(v@).insert(d.day()),
{
    let mut v = v;
    let ghost old_dates = v@;
    let ghost old_v = day_numbers(v@);
    let x = d.day_number();
    let mut i: usize = 0;
    while i < v.len() && v[i].day_number() < x
        invariant
            i <= v@.len(),
            old_v == day_numbers(v@),
            x == d.day(),
            forall|k: int| 0 <= k < i ==> old_v[k] < x,
        decreases v@.len() - i,
    {
        i = i + 1;
    }
    if i < v.len() && v[i].day_number() == x {
        assert(day_set(v@) =~= day_set(v@).insert(d.day())) by {
            assert(old_v[i as int] == x);
        }
        return v;
    }
    v.insert(i, d);
    let ghost nv = day_numbers(v@);
    assert(nv =~= old_v.insert(i as int, x as int));
    assert(i < old_v.len() ==> old_v[i as int] > x);
    assert forall|a: int, b: int| 0 <= a < b < nv.len() implies nv[a] < nv[b] by {
        if b < i {
            assert(nv[a] == old_v[a] && nv[b] == old_v[b]);
        } else if b == i {
            assert(nv[a] == old_v[a]);
        } else if a < i {
            assert(nv[a] == old_v[a] && nv[b] == old_v[b - 1]);
        } else if a == i {
            assert(nv[b] == old_v[b - 1]);
            assert(old_v[i as int] <= old_v[b - 1]);
        } else {
            assert(nv[a] == old_v[a - 1] && nv[b] == old_v[b - 1]);
        }
    }
    assert(day_set(v@) =~= day_set(old_dates).insert(x as int)) by {
        assert forall|y: int| #[trigger] nv.contains(y) <==> (old_v.contains(y) || y == x) by {
            if nv.contains(y) {
                let k = choose|k: int| 0 <= k < nv.len() && nv[k] == y;
                if k < i {
                    assert(old_v[k] == y);
                } else if k > i {
                    assert(old_v[k - 1] == y);
                }
            }
            if old_v.contains(y) {
                let k = choose|k: int| 0 <= k < old_v.len() && old_v[k] == y;
                if k < i {
                    assert(nv[k] == y);
                } else {
                    assert(nv[k + 1] == y);
                }
            }
            if y == x {
                assert(nv[i as int] == y);
            }
        }
    }
    v
}

/// What the scan has gathered for one (dataset, symbol): the dates its
/// files cover, how many files and bytes, the format of the first file
/// whose extension names one, and the file holding the latest date.
#[derive(Debug)]
pub struct Tally {
    pub dates: Vec<Date>,
    pub files: usize,
    pub bytes: u64,
    pub format: Option<OutputFormat>,
    pub latest: Option<(Date, String)>,
}

pub open spec fn latest_view(l: Option<(Date, String)>) -> Option<(int, Seq<char>)> {
    match l {
        Some((d, p)) => Some((d.day(), p@)),
        None => None,
    }
}

/// A tally as values: its day set, file count, byte count, format and
/// latest (date, path).
pub open spec fn tally_view(t: Tally) -> (Set<int>, int, int, Option<OutputFormat>, Option<(int, Seq<char>)>) {
    (day_set(t.dates@), t.files as int, t.bytes as int, t.format, latest_view(t.latest))
}

pub open spec fn empty_tally_view() -> (Set<int>, int, int, Option<OutputFormat>, Option<(int, Seq<char>)>) {
    (Set::empty(), 0, 0, None, None)
}

/// A tally after one more file, dated `date` (with range end `end`),
/// with extension `ext`, `bytes` long, at `path`: its days join the set,
/// the counts grow, the format is kept once known, and the file becomes
/// the latest unless an earlier-recorded one is dated later.
pub open spec fn tally_after(
    t: (Set<int>, int, int, Option<OutputFormat>, Option<(int, Seq<char>)>),
    date: int,
    end: Option<int>,
    ext: Seq<char>,
    bytes: int,
    path: Seq<char>,
) -> (Set<int>, int, int, Option<OutputFormat>, Option<(int, Seq<char>)>) {
    (
        t.0.union(covered_set(date, end)),
        t.1 + 1,
        t.2 + bytes,
        if t.3 is Some { t.3 } else { OutputFormat::from_name(ext) },
        match t.4 {
            Some((l, p)) => if date >= l { Some((date, path)) } else { Some((l, p)) },
            None => Some((date, path)),
        },
    )
}

impl Tally {
    pub fn new() -> (t: Tally)
        ensures
            tally_view(t) == empty_tally_view(),
            t.dates@.len() == 0,
    {
        let t = Tally { dates: Vec::new(), files: 0, bytes: 0, format: None, latest: None };
        assert(day_set(t.dates@) =~= Set::<int>::empty());
        t
    }

    /// This tally with one more file; see [`tally_after`].
    pub fn add(self, file: NamedFile, bytes: u64, path: String) -> (r: Tally)
        requires
            increasing(day_numbers(self.dates@)),
            self.files < usize::MAX,
            self.bytes + bytes <= u64::MAX,
        ensures
            increasing(day_numbers(r.dates@)),
            tally_view(r) == tally_after(
                tally_view(self),
                file.date.day(),
                opt_day(file.range_end),
                file.ext@,
                bytes as int,
                path@,
            ),
    {
        let ghost before = self;
        let covered = covered_days(file.date, file.range_end);
        let mut dates = self.dates;
        let mut k: usize = 0;
        while k < covered.len()
            invariant
                k <= covered@.len(),
                increasing(day_numbers(dates@)),
                day_set(dates@) == day_set(before.dates@).union(day_set(covered@.take(k as int))),
            decreases covered@.len() - k,
        {
            let ghost prev = dates@;
            dates = insert_day(dates, covered[k]);
            assert(day_set(covered@.take(k + 1)) =~= day_set(covered@.take(k as int)).insert(covered@[k as int].day())) by {
                assert forall|y: int| #[trigger] day_numbers(covered@.take(k + 1)).contains(y) <==> (day_numbers(covered@.take(k as int)).contains(y) || y == covered@[k as int].day()) by {
                    let a = day_numbers(covered@.take(k + 1));
                    let b = day_numbers(covered@.take(k as int));
                    assert(a =~= b.push(covered@[k as int].day()));
                    lemma_push_contains(b, covered@[k as int].day(), y);
                }
            }
            assert(day_set(dates@) =~= day_set(before.dates@).union(day_set(covered@.take(k + 1))));
            k = k + 1;
        }
        assert(covered@.take(covered@.len() as int) =~= covered@);
        assert(day_set(covered@) =~= covered_set(file.date.day(), opt_day(file.range_end))) by {
            match file.range_end {
                Some(e) => {
                    if e.day() <= file.date.day() {
                        assert forall|y: int| #[trigger] day_numbers(covered@).contains(y) <==> y == file.date.day() by {
                            if y == file.date.day() {
                                assert(day_numbers(covered@)[0] == y);
                            }
                        }
                    }
                },
                None => {
                    assert forall|y: int| #[trigger] day_numbers(covered@).contains(y) <==> y == file.date.day() by {
                        if y == file.date.day() {
                            assert(day_numbers(covered@)[0] == y);
                        }
                    }
                },
            }
        }
        let format = match self.format {
            Some(f) => Some(f),
            None => OutputFormat::parse(file.ext.as_str()),
        };
        let latest = match self.latest {
            Some((l, p)) => if file.date.day_number() >= l.day_number() {
                Some((file.date, path))
            } else {
                Some((l, p))
            },
            None => Some((file.date, path)),
        };
        Tally { dates, files: self.files + 1, bytes: self.bytes + bytes, format, latest }
    }
}

/// One (dataset, symbol) and what the scan has gathered for it.
#[derive(Debug)]
pub struct Group {
    pub kind: DataKind,
    pub symbol: String,
    pub tally: Tally,
}

pub open spec fn key_of(g: Group) -> (Seq<char>, Seq<char>) {
    (g.kind.name(), g.symbol@)
}

/// Order on (dataset, symbol) keys: by dataset name, then by symbol, as
/// an ordered map keyed by the pair walks them.
pub open spec fn key_lt(a: (Seq<char>, Seq<char>), b: (Seq<char>, Seq<char>)) -> bool {
    seq_lt(a.0, b.0) || (a.0 == b.0 && seq_lt(a.1, b.1))
}

proof fn lemma_key_lt_transitive(a: (Seq<char>, Seq<char>), b: (Seq<char>, Seq<char>), c: (Seq<char>, Seq<char>))
    requires
        key_lt(a, b),
        key_lt(b, c),
    ensures
        key_lt(a, c),
{
    if seq_lt(a.0, b.0) && seq_lt(b.0, c.0) {
        lemma_seq_lt_transitive(a.0, b.0, c.0);
    } else if seq_lt(a.1, b.1) && seq_lt(b.1, c.1) {
        lemma_seq_lt_transitive(a.1, b.1, c.1);
    }
}

proof fn lemma_seq_lt_total_pair(a: (Seq<char>, Seq<char>), b: (Seq<char>, Seq<char>))
    requires
        a != b,
        !key_lt(b, a),
    ensures
        key_lt(a, b),
{
    crate::text::lemma_seq_lt_total(a.0, b.0);
    crate::text::lemma_seq_lt_total(a.1, b.1);
}

/// Groups in strictly increasing key order, each with its dates in
/// increasing order.
pub open spec fn groups_wf(gs: Seq<Group>) -> bool {
    &&& forall|i: int, j: int| 0 <= i < j < gs.len() ==> key_lt(key_of(#[trigger] gs[i]), key_of(#[trigger] gs[j]))
    &&& forall|i: int| 0 <= i < gs.len() ==> increasing(day_numbers((#[trigger] gs[i]).tally.dates@))
}

/// `new` is `old` after one more file for key `k` was recorded: the
/// group for `k` took the file (see [`tally_after`]), or, when `old` had
/// none, a new group for `k` holding only that file joined it; every
/// other group is as it was.
pub open spec fn recorded(
    old: Seq<Group>,
    new: Seq<Group>,
    k: (Seq<char>, Seq<char>),
    date: int,
    end: Option<int>,
    ext: Seq<char>,
    bytes: int,
    path: Seq<char>,
) -> bool {
    exists|i: int|
        0 <= i <= old.len() && {
            ||| {
                &&& i < old.len()
                &&& key_of(old[i]) == k
                &&& new.len() == old.len()
                &&& forall|j: int| 0 <= j < old.len() && j != i ==> new[j] == old[j]
                &&& key_of(new[i]) == k
                &&& tally_view(new[i].tally) == tally_after(tally_view(old[i].tally), date, end, ext, bytes, path)
            }
            ||| {
                &&& forall|j: int| 0 <= j < old.len() ==> key_of(#[trigger] old[j]) != k
                &&& new.len() == old.len() + 1
                &&& forall|j: int| 0 <= j < i ==> new[j] == old[j]
                &&& forall|j: int| i < j < new.len() ==> new[j] == old[j - 1]
                &&& key_of(new[i]) == k
                &&& tally_view(new[i].tally) == tally_after(empty_tally_view(), date, end, ext, bytes, path)
            }
        }
}

fn compare_key(g: &Group, kind: &[char], symbol: &[char]) -> (c: Cmp)
    ensures
        c == Cmp::Less <==> key_lt(key_of(*g), (kind@, symbol@)),
        c == Cmp::Equal <==> key_of(*g) == (kind@, symbol@),
        c == Cmp::Greater <==> key_lt((kind@, symbol@), key_of(*g)),
{
    let gk = chars_of(g.kind.as_str());
    let gs = chars_of(g.symbol.as_str());
    proof {
        lemma_seq_lt_irreflexive(kind@);
        lemma_seq_lt_irreflexive(symbol@);
        if seq_lt(gk@, kind@) {
            lemma_seq_lt_asymmetric(gk@, kind@);
        }
        if seq_lt(gs@, symbol@) {
            lemma_seq_lt_asymmetric(gs@, symbol@);
        }
    }
    match compare_chars(gk.as_slice(), kind) {
        Cmp::Equal => compare_chars(gs.as_slice(), symbol),
        c => c,
    }
}

/// The (dataset, symbol) groups a scan of an output directory has found
/// so far, in key order.
#[derive(Debug)]
pub struct CoverageScan {
    groups: Vec<Group>,
}

impl CoverageScan {
    #[verifier::type_invariant]
    spec fn wf(self) -> bool {
        groups_wf(self.groups@)
    }

    /// The groups, in key order.
    pub closed spec fn groups_view(self) -> Seq<Group> {
        self.groups@
    }

    pub fn new() -> (s: CoverageScan)
        ensures
            s.groups_view().len() == 0,
    {
        CoverageScan { groups: Vec::new() }
    }

    /// The counts of the group for (`kind`, `symbol`) can take one more
    /// file of `bytes` bytes.
    pub open spec fn room_for(self, kind: Seq<char>, symbol: Seq<char>, bytes: u64) -> bool {
        forall|i: int|
            0 <= i < self.groups_view().len() && key_of(#[trigger] self.groups_view()[i]) == (kind, symbol) ==> {
                &&& self.groups_view()[i].tally.files < usize::MAX
                &&& self.groups_view()[i].tally.bytes + bytes <= u64::MAX
            }
    }

    /// Whether [`CoverageScan::room_for`] holds.
    pub fn has_room(&self, kind: &DataKind, symbol: &str, bytes: u64) -> (b: bool)
        ensures
            b == self.room_for(kind.name(), symbol@, bytes),
    {
        let k = chars_of(kind.as_str());
        let sy = chars_of(symbol);
        let mut i: usize = 0;
        while i < self.groups.len()
            invariant
                i <= self.groups@.len(),
                k@ == kind.name(),
                sy@ == symbol@,
                forall|j: int| 0 <= j < i && key_of(#[trigger] self.groups@[j]) == (kind.name(), symbol@) ==> {
                    &&& self.groups@[j].tally.files < usize::MAX
                    &&& self.groups@[j].tally.bytes + bytes <= u64::MAX
                },
            decreases self.groups@.len() - i,
        {
            let g = &self.groups[i];
            match compare_key(g, k.as_slice(), sy.as_slice()) {
                Cmp::Equal => {
                    if g.tally.files == usize::MAX || g.tally.bytes > u64::MAX - bytes {
                        return false;
                    }
                },
                _ => {},
            }
            i = i + 1;
        }
        true
    }

    /// Record one file found under `kind`'s directory: its name read as
    /// `file`, `bytes` long, at `path`. See [`recorded`].
    pub fn record(&mut self, kind: DataKind, file: NamedFile, bytes: u64, path: String)
        requires
            old(self).room_for(kind.name(), file.symbol@, bytes),
        ensures
            recorded(
                old(self).groups_view(),
                final(self).groups_view(),
                (kind.name(), file.symbol@),
                file.date.day(),
                opt_day(file.range_end),
                file.ext@,
                bytes as int,
                path@,
            ),
    {
        proof {
            use_type_invariant(&*self);
        }
        let ghost before = self.groups@;
        let ghost key = (kind.name(), file.symbol@);
        let ghost date = file.date.day();
        let ghost end = opt_day(file.range_end);
        let ghost ext = file.ext@;
        let ghost p = path@;
        let mut gs: Vec<Group> = Vec::new();
        std::mem::swap(&mut gs, &mut self.groups);
        assert(gs@ == before);
        let k = chars_of(kind.as_str());
        let sy = chars_of(file.symbol.as_str());
        let mut i: usize = 0;
        while i < gs.len()
            invariant
                i <= gs@.len(),
                gs@ == before,
                k@ == key.0,
                sy@ == key.1,
                forall|j: int| 0 <= j < i ==> key_lt(key_of(#[trigger] before[j]), key),
            ensures
                i <= gs@.len(),
                gs@ == before,
                forall|j: int| 0 <= j < i ==> key_lt(key_of(#[trigger] before[j]), key),
                i < gs@.len() ==> !key_lt(key_of(before[i as int]), key),
            decreases gs@.len() - i,
        {
            match compare_key(&gs[i], k.as_slice(), sy.as_slice()) {
                Cmp::Less => {
                    i = i + 1;
                },
                _ => {
                    break;
                },
            }
        }
        let found = i < gs.len() && match compare_key(&gs[i], k.as_slice(), sy.as_slice()) {
            Cmp::Equal => true,
            _ => false,
        };
        if found {
            let g = gs.remove(i);
            assert(g == before[i as int]);
            let tally = g.tally.add(file, bytes, path);
            let ng = Group { kind: g.kind, symbol: g.symbol, tally };
            gs.insert(i, ng);
            proof {
                assert(gs@ =~= before.update(i as int, ng));
                assert(key_of(ng) == key_of(before[i as int]));
                assert forall|a: int, b: int| 0 <= a < b < gs@.len() implies key_lt(key_of(#[trigger] gs@[a]), key_of(#[trigger] gs@[b])) by {
                    assert(key_of(gs@[a]) == key_of(before[a]));
                    assert(key_of(gs@[b]) == key_of(before[b]));
                }
                assert(recorded(before, gs@, key, date, end, ext, bytes as int, p)) by {
                    assert(0 <= i <= before.len());
                }
            }
        } else {
            proof {
                assert forall|j: int| 0 <= j < before.len() implies key_of(#[trigger] before[j]) != key by {
                    if j < i {
                        lemma_seq_lt_irreflexive(key.0);
                        lemma_seq_lt_irreflexive(key.1);
                    } else if i < before.len() {
                        lemma_seq_lt_irreflexive(key.0);
                        lemma_seq_lt_irreflexive(key.1);
                        if j > i {
                            assert(key_lt(key_of(before[i as int]), key_of(before[j])));
                            if key_of(before[j]) == key {
                                lemma_seq_lt_asymmetric(key_of(before[i as int]).0, key.0);
                                if key_of(before[i as int]).0 == key.0 {
                                    lemma_seq_lt_asymmetric(key_of(before[i as int]).1, key.1);
                                }
                            }
                        }
                    }
                }
            }
            let tally = Tally::new().add(file, bytes, path);
            let ng = Group { kind, symbol: string_of(sy.as_slice()), tally };
            gs.insert(i, ng);
            proof {
                assert(gs@ =~= before.insert(i as int, ng));
                assert(key_of(ng) == key);
                assert forall|a: int, b: int| 0 <= a < b < gs@.len() implies key_lt(key_of(#[trigger] gs@[a]), key_of(#[trigger] gs@[b])) by {
                    if b == i {
                    } else if a == i {
                        assert(gs@[b] == before[b - 1]);
                        if b - 1 > i {
                            assert(key_lt(key_of(before[i as int]), key_of(before[b - 1])));
                            lemma_key_lt_transitive(key, key_of(before[i as int]), key_of(before[b - 1]));
                        }
                        assert(key != key_of(before[i as int]));
                        lemma_seq_lt_total_pair(key, key_of(before[i as int]));
                    } else if a < i && b > i {
                        assert(gs@[b] == before[b - 1]);
                        assert(gs@[a] == before[a]);
                    } else if b < i {
                        assert(gs@[b] == before[b]);
                        assert(gs@[a] == before[a]);
                    } else {
                        assert(gs@[b] == before[b - 1]);
                        assert(gs@[a] == before[a - 1]);
                    }
                }
                assert(recorded(before, gs@, key, date, end, ext, bytes as int, p)) by {
                    assert(0 <= i <= before.len());
                }
            }
        }
        self.groups = gs;
    }

    /// The report: one row per (dataset, symbol), in key order.
    pub fn finish(self) -> (r: Vec<Coverage>)
        ensures
            r@.len() == self.groups_view().len(),
            forall|i: int| 0 <= i < r@.len() ==> #[trigger] r@[i].reports(self.groups_view()[i]),
    {
        let ghost all = self.groups@;
        let mut gs = self.groups;
        let total = gs.len();
        let mut out: Vec<Coverage> = Vec::new();
        let mut taken: usize = 0;
        while gs.len() > 0
            invariant
                total == all.len(),
                taken + gs@.len() == all.len(),
                gs@ == all.skip(taken as int),
                out@.len() == taken,
                forall|i: int| 0 <= i < taken ==> #[trigger] out@[i].reports(all[i]),
            decreases gs@.len(),
        {
            let g = gs.remove(0);
            assert(g == all[taken as int]);
            assert(gs@ =~= all.skip(taken + 1));
            let format = match g.tally.format {
                Some(f) => f,
                None => OutputFormat::Parquet,
            };
            let latest_path = match g.tally.latest {
                Some((_, p)) => Some(p),
                None => None,
            };
            let c = Coverage {
                kind: g.kind,
                symbol: g.symbol,
                dates: g.tally.dates,
                files: g.tally.files,
                bytes: g.tally.bytes,
                format,
                latest_path,
            };
            out.push(c);
            taken = taken + 1;
        }
        out
    }
}

pub open spec fn opt_text(s: Option<String>) -> Option<Seq<char>> {
    match s {
        Some(t) => Some(t@),
        None => None,
    }
}

/// One (dataset, symbol) of an output directory.
#[derive(Debug)]
pub struct Coverage {
    pub kind: DataKind,
    pub symbol: String,
    /// The days on disk, in increasing order.
    pub dates: Vec<Date>,
    /// Files on disk. Not `dates.len()`: one range file covers a year.
    pub files: usize,
    pub bytes: u64,
    /// The format the existing files use, so refilling a gap writes the
    /// same format as the rest of the set.
    pub format: OutputFormat,
    /// The file holding the latest date.
    pub latest_path: Option<String>,
}

impl Coverage {
    /// This row reports group `g`: same dataset, symbol, dates and counts;
    /// the group's format, Parquet when none was known; the path of its
    /// latest file.
    pub open spec fn reports(self, g: Group) -> bool {
        &&& self.kind.name() == g.kind.name()
        &&& self.symbol@ == g.symbol@
        &&& day_numbers(self.dates@) == day_numbers(g.tally.dates@)
        &&& self.files == g.tally.files
        &&& self.bytes == g.tally.bytes
        &&& self.format == (match g.tally.format {
            Some(f) => f,
            None => OutputFormat::Parquet,
        })
        &&& opt_text(self.latest_path) == (match latest_view(g.tally.latest) {
            Some((_, p)) => Some(p),
            None => None,
        })
    }
}

/// A day is missing exactly when the server lists it as a trading day,
/// it lies in the window, and no file on disk covers it.
pub proof fn law_missing_is_server_days_not_on_disk(server: Seq<int>, have: Seq<int>, start: int, end: int, d: int)
    ensures
        missing_days(server, have, start, end).contains(d) <==> (server.contains(d) && start <= d <= end
            && !have.contains(d)),
{
    let p = |x: int| start <= x <= end && !have.contains(x);
    broadcast use vstd::seq_lib::group_filter_ensures;

    if missing_days(server, have, start, end).contains(d) {
        server.lemma_filter_contains_rev(p, d);
        let k = choose|k: int| 0 <= k < server.filter(p).len() && server.filter(p)[k] == d;
        assert(p(server.filter(p)[k]));
    }
    if server.contains(d) && start <= d <= end && !have.contains(d) {
        let k = choose|k: int| 0 <= k < server.len() && server[k] == d;
        assert(p(server[k]));
    }
}

/// Recording a file never loses a day the group already had, and the
/// group then holds every day the file covers; a range file counts as
/// one file however many days it covers.
pub proof fn law_recording_keeps_days_and_counts_one_file(
    t: (Set<int>, int, int, Option<OutputFormat>, Option<(int, Seq<char>)>),
    date: int,
    end: Option<int>,
    ext: Seq<char>,
    bytes: int,
    path: Seq<char>,
)
    ensures
        t.0.subset_of(tally_after(t, date, end, ext, bytes, path).0),
        covered_set(date, end).subset_of(tally_after(t, date, end, ext, bytes, path).0),
        tally_after(t, date, end, ext, bytes, path).1 == t.1 + 1,
{
}

/// `s` without its `-` characters, so `2024-01-02` reads as `20240102`.
pub open spec fn strip_dashes(s: Seq<char>) -> Seq<char> {
    s.filter(|c: char| c != '-')
}

pub fn strip_dashes_text(s: &str) -> (r: String)
    ensures
        r@ == strip_dashes(s@),
{
    let v = chars_of(s);
    let ghost p = |c: char| c != '-';
    let mut out: Vec<char> = Vec::new();
    let mut i: usize = 0;
    assert(v@.take(0) =~= Seq::<char>::empty());
    proof {
        reveal(Seq::filter);
    }
    while i < v.len()
        invariant
            i <= v@.len(),
            v@ == s@,
            p == (|c: char| c != '-'),
            out@ == v@.take(i as int).filter(p),
        decreases v@.len() - i,
    {
        proof {
            reveal(Seq::filter);
        }
        assert(v@.take(i + 1).drop_last() =~= v@.take(i as int));
        assert(v@.take(i + 1).last() == v@[i as int]);
        if v[i] != '-' {
            out.push(v[i]);
        }
        i = i + 1;
    }
    assert(v@.take(v@.len() as int) =~= v@);
    string_of(out.as_slice())
}

/// The dates a server list spells, in its order: each entry with its
/// dashes dropped and read as `%Y%m%d`; an entry that does not read is
/// skipped.
pub open spec fn listed_dates(raw: Seq<Seq<char>>) -> Seq<int>
    decreases raw.len(),
{
    if raw.len() == 0 {
        Seq::empty()
    } else {
        let rest = listed_dates(raw.drop_last());
        match chrono_parse_ymd(strip_dashes(raw.last())) {
            Some(d) => rest.push(d),
            None => rest,
        }
    }
}

pub open spec fn texts_view(v: Seq<String>) -> Seq<Seq<char>> {
    v.map_values(|s: String| s@)
}

/// The dates of a server list (expirations, or days with trades); see
/// [`listed_dates`].
pub fn dates_from_list(raw: &[String]) -> (r: Vec<Date>)
    ensures
        day_numbers(r@) == listed_dates(texts_view(raw@)),
{
    let ghost rv = texts_view(raw@);
    let mut out: Vec<Date> = Vec::new();
    let mut i: usize = 0;
    assert(rv.take(0) =~= Seq::<Seq<char>>::empty());
    assert(day_numbers(out@) =~= Seq::<int>::empty());
    while i < raw.len()
        invariant
            i <= raw@.len(),
            rv == texts_view(raw@),
            day_numbers(out@) == listed_dates(rv.take(i as int)),
        decreases raw@.len() - i,
    {
        assert(rv.take(i + 1).drop_last() =~= rv.take(i as int));
        assert(rv.take(i + 1).last() == raw@[i as int]@);
        let t = strip_dashes_text(raw[i].as_str());
        let ghost before = day_numbers(out@);
        match Date::parse_ymd8(t.as_str()) {
            Some(d) => {
                out.push(d);
                assert(day_numbers(out@) =~= before.push(d.day()));
            },
            None => {},
        }
        i = i + 1;
    }
    assert(rv.take(raw@.len() as int) =~= rv);
    out
}

/// The days of a server list that fall within `start..=end`, in the
/// list's order.
pub fn dates_within(raw: &[String], start: Date, end: Date) -> (r: Vec<Date>)
    ensures
        day_numbers(r@) == listed_dates(texts_view(raw@)).filter(|d: int| start.day() <= d <= end.day()),
{
    let all = dates_from_list(raw);
    let ghost av = day_numbers(all@);
    let ghost p = |d: int| start.day() <= d <= end.day();
    let s = start.day_number();
    let e = end.day_number();
    let mut out: Vec<Date> = Vec::new();
    let mut i: usize = 0;
    assert(av.take(0) =~= Seq::<int>::empty());
    proof {
        reveal(Seq::filter);
    }
    assert(day_numbers(out@) =~= Seq::<int>::empty());
    while i < all.len()
        invariant
            i <= all@.len(),
            av == day_numbers(all@),
            s == start.day(),
            e == end.day(),
            p == (|d: int| start.day() <= d <= end.day()),
            day_numbers(out@) == av.take(i as int).filter(p),
        decreases all@.len() - i,
    {
        proof {
            reveal(Seq::filter);
        }
        assert(av.take(i + 1).drop_last() =~= av.take(i as int));
        assert(av.take(i + 1).last() == all@[i as int].day());
        let d = all[i];
        let n = d.day_number();
        let ghost before = day_numbers(out@);
        if s <= n && n <= e {
            out.push(d);
            assert(day_numbers(out@) =~= before.push(n as int));
        } else {
            assert(day_numbers(out@) =~= before);
        }
        i = i + 1;
    }
    assert(av.take(all@.len() as int) =~= av);
    out
}

} // verus!
