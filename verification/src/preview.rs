//! Paging through a file's rows for the preview: which rows of each
//! batch, as the file is read batch by batch, fall in the requested
//! window. Reading the file is the caller's.

use vstd::prelude::*;

verus! {

/// One column of a previewed file: its name, its Arrow type as text, and
/// whether it admits nulls.
#[derive(Debug)]
pub struct PreviewField {
    pub name: String,
    pub dtype: String,
    pub nullable: bool,
}

/// What to do with the next batch of rows: emit its rows `start..end`,
/// then stop reading when `stop` is set; `skipped` is the count of rows
/// read so far, this batch included.
#[derive(Debug, Clone, Copy, PartialEq, Eq, Structural)]
pub struct PageStep {
    pub start: usize,
    pub end: usize,
    pub stop: bool,
    pub skipped: usize,
}

/// The step for a batch of `n` rows, the file's rows
/// `skipped..skipped + n`, when `taken` rows of the window of `limit`
/// rows from row `offset` were emitted already: the batch's rows from the
/// window's first row on (none when the batch ends before it), at most as
/// many as the window still has room for; reading stops when rows of the
/// batch are left over, and otherwise goes on past the batch.
pub open spec fn page_step(skipped: int, taken: int, n: int, offset: int, limit: int) -> (int, int, bool, int) {
    let from = if offset > skipped { offset - skipped } else { 0 };
    let start = if from < n { from } else { n };
    let room = limit - taken;
    let stop = start + room < n;
    let end = if stop { start + room } else { n };
    (start, end, stop, if stop { skipped } else { skipped + n })
}

/// See [`page_step`].
pub fn next_page_step(skipped: usize, taken: usize, n: usize, offset: usize, limit: usize) -> (r: PageStep)
    requires
        taken <= limit,
        skipped + n <= usize::MAX,
    ensures
        (r.start as int, r.end as int, r.stop, r.skipped as int) == page_step(
            skipped as int,
            taken as int,
            n as int,
            offset as int,
            limit as int,
        ),
{
    if skipped + n <= offset {
        return PageStep { start: n, end: n, stop: false, skipped: skipped + n };
    }
    let start = if offset > skipped { offset - skipped } else { 0 };
    let room = limit - taken;
    if start < n && room < n - start {
        PageStep { start, end: start + room, stop: true, skipped }
    } else {
        PageStep { start, end: n, stop: false, skipped: skipped + n }
    }
}

/// The file rows `lo..hi`, in order (none when `hi <= lo`).
pub open spec fn rows_between(lo: int, hi: int) -> Seq<int> {
    Seq::new(if hi > lo { (hi - lo) as nat } else { 0 }, |i: int| lo + i)
}

/// How many rows batches of these sizes hold.
pub open spec fn total_rows(sizes: Seq<int>) -> int
    decreases sizes.len(),
{
    if sizes.len() == 0 {
        0
    } else {
        sizes[0] + total_rows(sizes.skip(1))
    }
}

/// The file rows emitted when batches of these sizes are read one after
/// another, each taken through [`page_step`], from `skipped` rows read
/// and `taken` emitted, until a step stops the reading.
pub open spec fn paged_rows(sizes: Seq<int>, skipped: int, taken: int, offset: int, limit: int) -> Seq<int>
    decreases sizes.len(),
{
    if sizes.len() == 0 {
        Seq::empty()
    } else {
        let n = sizes[0];
        let (start, end, stop, next) = page_step(skipped, taken, n, offset, limit);
        let here = rows_between(skipped + start, skipped + end);
        if stop {
            here
        } else {
            here + paged_rows(sizes.skip(1), next, taken + (end - start), offset, limit)
        }
    }
}

proof fn lemma_paged_rows(sizes: Seq<int>, skipped: int, taken: int, offset: int, limit: int)
    requires
        forall|i: int| 0 <= i < sizes.len() ==> sizes[i] >= 0,
        0 <= offset,
        0 <= limit,
        0 <= skipped,
        taken == (if skipped - offset < 0 { 0 } else if skipped - offset < limit { skipped - offset } else { limit }),
    ensures
        paged_rows(sizes, skipped, taken, offset, limit) == rows_between(
            offset + taken,
            if offset + limit < skipped + total_rows(sizes) { offset + limit } else { skipped + total_rows(sizes) },
        ),
    decreases sizes.len(),
{
    if sizes.len() == 0 {
        let hi = if offset + limit < skipped { offset + limit } else { skipped };
        assert(rows_between(offset + taken, hi) =~= Seq::<int>::empty());
    } else {
        let n = sizes[0];
        let rest = sizes.skip(1);
        assert forall|i: int| 0 <= i < rest.len() implies rest[i] >= 0 by {
            assert(rest[i] == sizes[i + 1]);
        }
        let (start, end, stop, next) = page_step(skipped, taken, n, offset, limit);
        lemma_total_rows_nonneg(rest);
        let total = skipped + total_rows(sizes);
        let hi = if offset + limit < total { offset + limit } else { total };
        if stop {
            assert(rows_between(skipped + start, skipped + end) =~= rows_between(offset + taken, hi));
        } else {
            let taken2 = taken + (end - start);
            lemma_paged_rows(rest, next, taken2, offset, limit);
            let hi2 = if offset + limit < next + total_rows(rest) { offset + limit } else { next + total_rows(rest) };
            assert(rows_between(skipped + start, skipped + end) + rows_between(offset + taken2, hi2)
                =~= rows_between(offset + taken, hi));
        }
    }
}

proof fn lemma_total_rows_nonneg(sizes: Seq<int>)
    requires
        forall|i: int| 0 <= i < sizes.len() ==> sizes[i] >= 0,
    ensures
        total_rows(sizes) >= 0,
    decreases sizes.len(),
{
    if sizes.len() > 0 {
        let rest = sizes.skip(1);
        assert forall|i: int| 0 <= i < rest.len() implies rest[i] >= 0 by {
            assert(rest[i] == sizes[i + 1]);
        }
        lemma_total_rows_nonneg(rest);
    }
}

/// Reading a file batch by batch, whatever the batch sizes, and taking
/// each batch through [`page_step`] from nothing read and nothing
/// emitted, emits exactly the file's rows from `offset` up to
/// `offset + limit`, cut at the end of the file, in order.
pub proof fn law_pages_emit_the_window(sizes: Seq<int>, offset: int, limit: int)
    requires
        forall|i: int| 0 <= i < sizes.len() ==> sizes[i] >= 0,
        0 <= offset,
        0 <= limit,
    ensures
        paged_rows(sizes, 0, 0, offset, limit) == rows_between(
            offset,
            if offset + limit < total_rows(sizes) { offset + limit } else { total_rows(sizes) },
        ),
{
    lemma_paged_rows(sizes, 0, 0, offset, limit);
}

} // verus!
