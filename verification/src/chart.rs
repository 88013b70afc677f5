//! The holes a downloaded file's chart shows: stretches with no rows
//! where the file's own rhythm says there should be some.
//!
//! The rhythm is the median spacing between rows. For intraday data a
//! gap is ten times that, and at least a minute; overnight is never a
//! gap. For daily data a gap is more than four calendar days, so a
//! weekend, and a holiday beside one, are not flagged. Only the widest
//! few are reported, in time order.

use vstd::prelude::*;

use vstd::relations::{sorted_by, total_ordering};

verus! {

/// Enough points for a wide window at retina resolution, few enough to
/// draw in one frame.
pub const MAX_POINTS: usize = 600;

/// Milliseconds in a day.
pub const DAY_MS: i64 = 86_400_000;

/// How many gaps a report holds: as many as a person will read.
pub const MAX_GAPS: usize = 12;

/// Shortest intraday gap, in milliseconds.
pub const MIN_INTRADAY_GAP_MS: i64 = 60_000;

/// How a file is drawn, decided by the columns it has.
#[derive(Debug, Clone, Copy, PartialEq, Eq, Structural)]
pub enum Shape {
    /// `open/high/low/close` present.
    Candles,
    /// A single price, drawn as a line within its high–low envelope.
    Line,
    /// Only a bid and ask: the quoted market, with no trades.
    Band,
}

/// Which columns a file carries, of those a chart draws.
#[derive(Debug, Clone, Copy, PartialEq, Eq, Structural)]
pub struct ChartColumns {
    pub open: bool,
    pub high: bool,
    pub low: bool,
    pub close: bool,
    pub price: bool,
    pub bid: bool,
    pub ask: bool,
}

impl ChartColumns {
    /// Candles when all of open, high, low and close are present; else a
    /// line when there is a price; else a band when there are both a bid
    /// and an ask; else nothing to chart.
    pub open spec fn spec_shape(self) -> Option<Shape> {
        if self.open && self.high && self.low && self.close {
            Some(Shape::Candles)
        } else if self.price {
            Some(Shape::Line)
        } else if self.bid && self.ask {
            Some(Shape::Band)
        } else {
            None
        }
    }

    /// See [`ChartColumns::spec_shape`].
    pub fn shape(&self) -> (r: Option<Shape>)
        ensures
            r == self.spec_shape(),
    {
        if self.open && self.high && self.low && self.close {
            Some(Shape::Candles)
        } else if self.price {
            Some(Shape::Line)
        } else if self.bid && self.ask {
            Some(Shape::Band)
        } else {
            None
        }
    }
}

/// A stretch of time where the file has no rows although the data
/// around it says it should.
#[derive(Debug, Clone, Copy, PartialEq, Eq, Structural)]
pub struct Gap {
    pub from_ms: i64,
    pub to_ms: i64,
}

pub open spec fn ascending() -> spec_fn(i64, i64) -> bool {
    |a: i64, b: i64| a <= b
}

proof fn lemma_ascending_total()
    ensures
        total_ordering(ascending()),
{
}

/// The positive spacings between consecutive times among the first `n`.
pub open spec fn spacings_upto(t: Seq<i64>, n: int) -> Seq<i64>
    decreases n,
{
    if n <= 1 {
        Seq::empty()
    } else if t[n - 1] - t[n - 2] > 0 {
        spacings_upto(t, n - 1).push((t[n - 1] - t[n - 2]) as i64)
    } else {
        spacings_upto(t, n - 1)
    }
}

/// The positive spacings between consecutive times, in order.
pub open spec fn spacings(t: Seq<i64>) -> Seq<i64> {
    spacings_upto(t, t.len() as int)
}

/// The middle element of `s` once sorted (the upper one of the two
/// middles for an even count).
pub open spec fn median_of(s: Seq<i64>) -> i64 {
    s.sort_by(ascending())[(s.len() / 2) as int]
}

/// The width beyond which a spacing is a gap.
pub open spec fn gap_threshold(t: Seq<i64>, daily: bool) -> int {
    if daily {
        4 * DAY_MS + 1
    } else {
        let m = median_of(spacings(t)) * 10;
        if m > MIN_INTRADAY_GAP_MS { m } else { MIN_INTRADAY_GAP_MS as int }
    }
}

/// The spacing after the `i`-th time is a gap: wider than `threshold`,
/// and, for intraday data, not across midnight.
pub open spec fn is_gap(t: Seq<i64>, daily: bool, threshold: int, i: int) -> bool {
    &&& t[i + 1] - t[i] > threshold
    &&& (daily || t[i] as int / DAY_MS as int == t[i + 1] as int / DAY_MS as int)
}

/// The gaps among the first `n` times, in time order.
pub open spec fn gaps_upto(t: Seq<i64>, daily: bool, threshold: int, n: int) -> Seq<Gap>
    decreases n,
{
    if n <= 1 {
        Seq::empty()
    } else if is_gap(t, daily, threshold, n - 2) {
        gaps_upto(t, daily, threshold, n - 1).push(Gap { from_ms: t[n - 2], to_ms: t[n - 1] })
    } else {
        gaps_upto(t, daily, threshold, n - 1)
    }
}

/// Every gap the times hold, before the widest are picked.
pub open spec fn gap_candidates(t: Seq<i64>, daily: bool) -> Seq<Gap> {
    gaps_upto(t, daily, gap_threshold(t, daily), t.len() as int)
}

pub open spec fn width(g: Gap) -> int {
    g.to_ms - g.from_ms
}

/// Candidate `a` ranks before candidate `b`: it is wider, or as wide and
/// earlier.
pub open spec fn beats(c: Seq<Gap>, a: int, b: int) -> bool {
    ||| width(c[a]) > width(c[b])
    ||| width(c[a]) == width(c[b]) && a < b
}

/// `ix` picks, in increasing order, the `min(cap, c.len())` candidates
/// of `c` that rank before every candidate left out.
pub open spec fn top_selection(c: Seq<Gap>, ix: Seq<int>, cap: int) -> bool {
    &&& ix.len() == (if cap < c.len() { cap } else { c.len() as int })
    &&& forall|a: int, b: int| 0 <= a < b < ix.len() ==> ix[a] < ix[b]
    &&& forall|a: int| 0 <= a < ix.len() ==> 0 <= #[trigger] ix[a] < c.len()
    &&& forall|a: int, j: int|
        0 <= a < ix.len() && 0 <= j < c.len() && !ix.contains(j) ==> #[trigger] beats(c, ix[a], j)
}

/// `r` holds the `cap` widest candidates of `c` (ties going to the
/// earlier one), in the order they occur in `c`.
pub open spec fn widest_in_order(c: Seq<Gap>, r: Seq<Gap>, cap: int) -> bool {
    exists|ix: Seq<int>| top_selection(c, ix, cap) && r == ix.map_values(|i: int| c[i])
}

/// Each gap ends no later than the next one starts, and spans some time.
pub open spec fn in_time_order(r: Seq<Gap>) -> bool {
    &&& forall|a: int| 0 <= a < r.len() ==> (#[trigger] r[a]).from_ms < r[a].to_ms
    &&& forall|a: int, b: int| 0 <= a < b < r.len() ==> (#[trigger] r[a]).to_ms <= (#[trigger] r[b]).from_ms
}

proof fn lemma_gaps_ordered(t: Seq<i64>, daily: bool, threshold: int, n: int)
    requires
        sorted_by(t, ascending()),
        threshold >= 0,
        1 <= n <= t.len(),
    ensures
        in_time_order(gaps_upto(t, daily, threshold, n)),
        forall|a: int|
            0 <= a < gaps_upto(t, daily, threshold, n).len() ==> (#[trigger] gaps_upto(
                t,
                daily,
                threshold,
                n,
            )[a]).to_ms <= t[n - 1],
    decreases n,
{
    if n > 1 {
        lemma_gaps_ordered(t, daily, threshold, n - 1);
        assert(ascending()(t[n - 2], t[n - 1]));
    }
}

/// The times can be measured: consecutive ones differ by an amount an
/// `i64` holds, and for intraday data ten times the median spacing fits
/// too.
pub open spec fn measurable(t: Seq<i64>, daily: bool) -> bool {
    t.len() >= 3 ==> {
        &&& forall|i: int| 0 <= i < t.len() - 1 ==> i64::MIN <= #[trigger] t[i + 1] - t[i] <= i64::MAX
        &&& (!daily && spacings(t).len() > 0 ==> median_of(spacings(t)) * 10 <= i64::MAX)
    }
}

pub open spec fn count_true(s: Seq<bool>) -> nat
    decreases s.len(),
{
    if s.len() == 0 {
        0
    } else {
        count_true(s.drop_last()) + if s.last() { 1nat } else { 0nat }
    }
}

proof fn lemma_count_set(s: Seq<bool>, b: int)
    requires
        0 <= b < s.len(),
        !s[b],
    ensures
        count_true(s.update(b, true)) == count_true(s) + 1,
    decreases s.len(),
{
    let u = s.update(b, true);
    if b == s.len() - 1 {
        assert(u.drop_last() =~= s.drop_last());
    } else {
        assert(u.drop_last() =~= s.drop_last().update(b, true));
        lemma_count_set(s.drop_last(), b);
    }
}

proof fn lemma_count_all(s: Seq<bool>)
    requires
        forall|k: int| 0 <= k < s.len() ==> s[k],
    ensures
        count_true(s) == s.len(),
    decreases s.len(),
{
    if s.len() > 0 {
        lemma_count_all(s.drop_last());
    }
}

proof fn lemma_count_none(n: nat)
    ensures
        count_true(Seq::new(n, |k: int| false)) == 0,
    decreases n,
{
    if n > 0 {
        assert(Seq::new(n, |k: int| false).drop_last() =~= Seq::new((n - 1) as nat, |k: int| false));
        lemma_count_none((n - 1) as nat);
    }
}

/// The `cap` widest candidates, ties to the earlier one, in their order
/// in `c`.
fn select_widest(c: &Vec<Gap>, cap: usize) -> (r: Vec<Gap>)
    requires
        forall|i: int| 0 <= i < c@.len() ==> i64::MIN <= #[trigger] width(c@[i]) <= i64::MAX,
    ensures
        widest_in_order(c@, r@, cap as int),
{
    let g = c.len();
    let rounds = if cap < g { cap } else { g };
    let mut chosen: Vec<bool> = Vec::new();
    let mut z: usize = 0;
    while z < g
        invariant
            z <= g,
            g == c@.len(),
            chosen@ == Seq::new(z as nat, |k: int| false),
        decreases g - z,
    {
        chosen.push(false);
        assert(chosen@ =~= Seq::new((z + 1) as nat, |k: int| false));
        z = z + 1;
    }
    proof {
        lemma_count_none(g as nat);
    }
    let mut k: usize = 0;
    while k < rounds
        invariant
            g == c@.len(),
            rounds <= g,
            rounds <= cap,
            k <= rounds,
            chosen@.len() == g,
            count_true(chosen@) == k,
            forall|i: int| 0 <= i < c@.len() ==> i64::MIN <= #[trigger] width(c@[i]) <= i64::MAX,
            forall|a: int, b: int|
                0 <= a < g && 0 <= b < g && chosen@[a] && !chosen@[b] ==> beats(c@, a, b),
        decreases rounds - k,
    {
        proof {
            if forall|q: int| 0 <= q < chosen@.len() ==> chosen@[q] {
                lemma_count_all(chosen@);
            }
        }
        let mut best: usize = 0;
        let mut found = false;
        let mut j: usize = 0;
        while j < g
            invariant
                g == c@.len(),
                chosen@.len() == g,
                j <= g,
                forall|i: int| 0 <= i < c@.len() ==> i64::MIN <= #[trigger] width(c@[i]) <= i64::MAX,
                found ==> best < j && !chosen@[best as int],
                found ==> forall|q: int| 0 <= q < j && !chosen@[q] && q != best ==> beats(c@, best as int, q),
                !found ==> forall|q: int| 0 <= q < j ==> chosen@[q],
            decreases g - j,
        {
            if !chosen[j] {
                if !found {
                    best = j;
                    found = true;
                } else {
                    assert(i64::MIN <= width(c@[j as int]) <= i64::MAX);
                    assert(i64::MIN <= width(c@[best as int]) <= i64::MAX);
                    let wj = c[j].to_ms - c[j].from_ms;
                    let wb = c[best].to_ms - c[best].from_ms;
                    assert(width(c@[j as int]) == wj);
                    assert(width(c@[best as int]) == wb);
                    if wj > wb {
                        best = j;
                    }
                }
            }
            j = j + 1;
        }
        let ghost before = chosen@;
        proof {
            lemma_count_set(before, best as int);
        }
        chosen.set(best, true);
        assert forall|a: int, b: int|
            0 <= a < g && 0 <= b < g && chosen@[a] && !chosen@[b] implies beats(c@, a, b) by {
            if a != best {
                assert(before[a] && !before[b]);
            }
        }
        k = k + 1;
    }
    let mut out: Vec<Gap> = Vec::new();
    let ghost mut ix: Seq<int> = Seq::empty();
    let mut i: usize = 0;
    while i < g
        invariant
            g == c@.len(),
            chosen@.len() == g,
            i <= g,
            ix.len() == count_true(chosen@.take(i as int)),
            forall|a: int, b: int| 0 <= a < b < ix.len() ==> ix[a] < ix[b],
            forall|a: int| 0 <= a < ix.len() ==> 0 <= #[trigger] ix[a] < i && chosen@[ix[a]],
            forall|q: int| 0 <= q < i && chosen@[q] ==> ix.contains(q),
            out@ == ix.map_values(|x: int| c@[x]),
        decreases g - i,
    {
        assert(chosen@.take(i + 1).drop_last() =~= chosen@.take(i as int));
        assert(chosen@.take(i + 1).last() == chosen@[i as int]);
        if chosen[i] {
            out.push(c[i]);
            proof {
                let old_ix = ix;
                ix = ix.push(i as int);
                assert(out@ =~= ix.map_values(|x: int| c@[x]));
                assert forall|q: int| 0 <= q < i + 1 && chosen@[q] implies ix.contains(q) by {
                    if q < i {
                        assert(old_ix.contains(q));
                        let a = choose|a: int| 0 <= a < old_ix.len() && old_ix[a] == q;
                        assert(ix[a] == q);
                    } else {
                        assert(ix[ix.len() - 1] == q);
                    }
                }
            }
        } else {
            assert forall|q: int| 0 <= q < i + 1 && chosen@[q] implies ix.contains(q) by {}
        }
        i = i + 1;
    }
    assert(chosen@.take(g as int) =~= chosen@);
    assert(top_selection(c@, ix, cap as int)) by {
        assert forall|a: int, j: int|
            0 <= a < ix.len() && 0 <= j < c@.len() && !ix.contains(j) implies #[trigger] beats(c@, ix[a], j) by {
            assert(chosen@[ix[a]]);
        }
    }
    out
}

/// `slice::sort_unstable` on `i64`s: afterwards the items are in
/// ascending order and are the same items as before.
#[verifier::external_body]
fn sort_ascending(v: &mut Vec<i64>)
    ensures
        sorted_by(final(v)@, ascending()),
        final(v)@.to_multiset() == old(v)@.to_multiset(),
{
    v.sort_unstable();
}

/// The day a millisecond instant falls on, counted from the epoch and
/// rounded towards minus infinity (`i64::div_euclid`).
fn day_of(t: i64) -> (q: i64)
    ensures
        q == t as int / DAY_MS as int,
{
    assert(i64::MIN <= t as int / 86_400_000 <= i64::MAX) by (nonlinear_arith);
    match t.checked_div_euclid(DAY_MS) {
        Some(q) => q,
        None => {
            assert(false);
            0
        },
    }
}

/// The median spacing between consecutive times, when any two of them
/// differ.
pub fn median_spacing(times: &[i64]) -> (r: Option<i64>)
    requires
        forall|i: int| 0 <= i < times@.len() - 1 ==> i64::MIN <= #[trigger] times@[i + 1] - times@[i] <= i64::MAX,
    ensures
        r is None <==> spacings(times@).len() == 0,
        r matches Some(m) ==> m == median_of(spacings(times@)) && m > 0,
{
    let ghost t = times@;
    let n = times.len();
    let mut deltas: Vec<i64> = Vec::new();
    let mut i: usize = 1;
    if n == 0 {
        return None;
    }
    while i < n
        invariant
            1 <= i <= n,
            n == t.len(),
            t == times@,
            forall|i: int| 0 <= i < t.len() - 1 ==> i64::MIN <= #[trigger] t[i + 1] - t[i] <= i64::MAX,
            deltas@ == spacings_upto(t, i as int),
            forall|k: int| 0 <= k < deltas@.len() ==> deltas@[k] > 0,
        decreases n - i,
    {
        assert(i64::MIN <= t[(i - 1) + 1] - t[i - 1] <= i64::MAX);
        let d = times[i] - times[i - 1];
        if d > 0 {
            deltas.push(d);
        }
        i = i + 1;
    }
    if deltas.len() == 0 {
        return None;
    }
    let ghost unsorted = deltas@;
    sort_ascending(&mut deltas);
    proof {
        broadcast use vstd::seq_lib::group_to_multiset_ensures;

        lemma_ascending_total();
        unsorted.lemma_sort_by_ensures(ascending());
        vstd::seq_lib::lemma_sorted_unique(deltas@, unsorted.sort_by(ascending()), ascending());
        assert(deltas@.to_multiset().len() == unsorted.to_multiset().len());
        assert(deltas@.len() == unsorted.len());
        let mid = deltas@[(deltas@.len() / 2) as int];
        assert(deltas@.contains(mid));
        assert(unsorted.contains(mid));
    }
    let m = deltas[deltas.len() / 2];
    Some(m)
}

/// The gaps in a file whose rows fall at `times` (milliseconds, in
/// order): `None` of them with fewer than three rows or no two rows
/// apart; otherwise the widest [`MAX_GAPS`] of them, in time order.
pub fn find_gaps(times: &[i64], daily: bool) -> (r: Vec<Gap>)
    requires
        sorted_by(times@, ascending()),
        measurable(times@, daily),
    ensures
        (times@.len() < 3 || spacings(times@).len() == 0) ==> r@ == Seq::<Gap>::empty(),
        !(times@.len() < 3 || spacings(times@).len() == 0) ==> widest_in_order(
            gap_candidates(times@, daily),
            r@,
            MAX_GAPS as int,
        ),
        in_time_order(r@),
{
    let ghost t = times@;
    let n = times.len();
    if n < 3 {
        return Vec::new();
    }
    let median = match median_spacing(times) {
        Some(m) => m,
        None => {
            let e: Vec<Gap> = Vec::new();
            assert(e@ =~= Seq::<Gap>::empty());
            return e;
        },
    };
    let threshold: i64 = if daily {
        4 * DAY_MS + 1
    } else {
        let m = median * 10;
        if m > MIN_INTRADAY_GAP_MS { m } else { MIN_INTRADAY_GAP_MS }
    };
    assert(threshold == gap_threshold(t, daily));
    let mut cands: Vec<Gap> = Vec::new();
    let mut i: usize = 1;
    while i < n
        invariant
            1 <= i <= n,
            n == t.len(),
            t == times@,
            threshold == gap_threshold(t, daily),
            sorted_by(t, ascending()),
            forall|i: int| 0 <= i < t.len() - 1 ==> i64::MIN <= #[trigger] t[i + 1] - t[i] <= i64::MAX,
            cands@ == gaps_upto(t, daily, threshold as int, i as int),
            forall|k: int| 0 <= k < cands@.len() ==> i64::MIN <= #[trigger] width(cands@[k]) <= i64::MAX,
        decreases n - i,
    {
        let a = times[i - 1];
        let b = times[i];
        assert(i64::MIN <= t[(i - 1) + 1] - t[i - 1] <= i64::MAX);
        let d = b - a;
        if d > threshold && (daily || day_of(a) == day_of(b)) {
            cands.push(Gap { from_ms: a, to_ms: b });
        }
        i = i + 1;
    }
    let r = select_widest(&cands, MAX_GAPS);
    proof {
        lemma_gaps_ordered(t, daily, threshold as int, n as int);
        let c = cands@;
        let ix = choose|ix: Seq<int>| top_selection(c, ix, MAX_GAPS as int) && r@ == ix.map_values(|i: int| c[i]);
        assert forall|a: int, b: int| 0 <= a < b < r@.len() implies (#[trigger] r@[a]).to_ms <= (#[trigger] r@[b]).from_ms by {
            assert(r@[a] == c[ix[a]]);
            assert(r@[b] == c[ix[b]]);
            assert(ix[a] < ix[b]);
        }
        assert forall|a: int| 0 <= a < r@.len() implies (#[trigger] r@[a]).from_ms < r@[a].to_ms by {
            assert(r@[a] == c[ix[a]]);
        }
    }
    r
}

/// For daily data a spacing of four calendar days or less (a weekend,
/// or a holiday beside one) is never a gap.
pub proof fn law_daily_weekends_are_not_gaps(t: Seq<i64>, i: int)
    requires
        0 <= i < t.len() - 1,
        t[i + 1] - t[i] <= 4 * DAY_MS,
    ensures
        !is_gap(t, true, gap_threshold(t, true), i),
{
}

/// For intraday data a spacing across midnight is never a gap, and
/// neither is one of a minute or less.
pub proof fn law_intraday_overnight_and_short_spacings_are_not_gaps(t: Seq<i64>, i: int)
    requires
        0 <= i < t.len() - 1,
        t[i] as int / DAY_MS as int != t[i + 1] as int / DAY_MS as int || t[i + 1] - t[i] <= MIN_INTRADAY_GAP_MS,
    ensures
        !is_gap(t, false, gap_threshold(t, false), i),
{
}

/// `g` spans two consecutive rows, `i` and `i + 1`, whose spacing is a
/// gap.
pub open spec fn spans_a_gap(t: Seq<i64>, daily: bool, threshold: int, g: Gap) -> bool {
    exists|i: int|
        0 <= i < t.len() - 1 && is_gap(t, daily, threshold, i) && #[trigger] t[i] == g.from_ms && t[i + 1] == g.to_ms
}

proof fn lemma_gaps_are_spacings(t: Seq<i64>, daily: bool, threshold: int, n: int)
    requires
        1 <= n <= t.len(),
    ensures
        forall|k: int|
            0 <= k < gaps_upto(t, daily, threshold, n).len() ==> spans_a_gap(
                t,
                daily,
                threshold,
                #[trigger] gaps_upto(t, daily, threshold, n)[k],
            ),
    decreases n,
{
    if n > 1 {
        lemma_gaps_are_spacings(t, daily, threshold, n - 1);
        let c = gaps_upto(t, daily, threshold, n);
        let p = gaps_upto(t, daily, threshold, n - 1);
        assert forall|k: int| 0 <= k < c.len() implies spans_a_gap(t, daily, threshold, #[trigger] c[k]) by {
            if k < p.len() {
                assert(c[k] == p[k]);
            } else {
                let i = n - 2;
                assert(t[i] == c[k].from_ms && t[i + 1] == c[k].to_ms);
            }
        }
    }
}

/// A report holds at most [`MAX_GAPS`] gaps, and each spans two
/// consecutive rows of the file whose spacing is a gap.
pub proof fn law_reported_gaps_are_gaps_of_the_file(t: Seq<i64>, daily: bool, r: Seq<Gap>)
    requires
        t.len() >= 1,
        widest_in_order(gap_candidates(t, daily), r, MAX_GAPS as int),
    ensures
        r.len() <= MAX_GAPS,
        forall|a: int| 0 <= a < r.len() ==> spans_a_gap(t, daily, gap_threshold(t, daily), #[trigger] r[a]),
{
    let c = gap_candidates(t, daily);
    let ix = choose|ix: Seq<int>| top_selection(c, ix, MAX_GAPS as int) && r == ix.map_values(|i: int| c[i]);
    lemma_gaps_are_spacings(t, daily, gap_threshold(t, daily), t.len() as int);
    assert forall|a: int| 0 <= a < r.len() implies spans_a_gap(t, daily, gap_threshold(t, daily), #[trigger] r[a]) by {
        assert(r[a] == c[ix[a]]);
        assert(0 <= ix[a] < c.len());
    }
}

} // verus!
