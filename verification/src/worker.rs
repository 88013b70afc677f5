//! The worker pool's decisions: how many workers a run uses, what a
//! finished task is recorded as, how the run's counters move, and which
//! failures are worth retrying in a narrower form. The pool itself, which
//! talks to the queue and the server, drives these.

use vstd::prelude::*;

use crate::text::{chars_of, contains, contains_lit, to_lowercase, unicode_lower};

verus! {

/// Behaviour the user can choose, as opposed to limits the account
/// imposes.
#[derive(Debug, Clone, Copy)]
pub struct PoolOptions {
    /// Run fewer workers than the plan allows. `None` uses the whole
    /// budget.
    pub max_concurrency: Option<usize>,
    /// Re-queue a failed windowed task as two halves rather than leaving
    /// it as one failed row.
    pub split_failed_windows: bool,
}

impl Default for PoolOptions {
    fn default() -> (r: Self)
        ensures
            r.max_concurrency is None,
            r.split_failed_windows,
    {
        PoolOptions { max_concurrency: None, split_failed_windows: true }
    }
}

/// The plan's budget, lowered to the user's cap, never below one.
pub open spec fn workers_for_run(budget: nat, cap: Option<usize>) -> nat {
    let w = match cap {
        Some(c) => if c < budget { c as nat } else { budget },
        None => budget,
    };
    if w >= 1 { w } else { 1 }
}

/// How many workers a run uses: the plan's account-wide budget, lowered
/// to the user's cap when they set one, and never fewer than one. A cap
/// above the budget is clamped rather than honoured.
pub fn effective_workers(budget: usize, cap: Option<usize>) -> (n: usize)
    ensures
        n == workers_for_run(budget as nat, cap),
        n >= 1,
        n <= budget || n == 1,
{
    let w = match cap {
        Some(c) => if c < budget { c } else { budget },
        None => budget,
    };
    if w >= 1 { w } else { 1 }
}

/// How many workers a run uses is the cap, clamped into `1..=budget`
/// (and 1 when the budget itself is 0): never fewer than one; never more
/// than the budget or the cap, unless that is the floor of one; and as
/// many as both allow. So a cap from 1 up to the budget is honoured
/// exactly, and no cap uses the whole budget.
pub proof fn law_workers_honour_the_cap(budget: nat, cap: Option<usize>)
    ensures
        workers_for_run(budget, cap) >= 1,
        workers_for_run(budget, cap) <= budget || workers_for_run(budget, cap) == 1,
        cap matches Some(c) ==> workers_for_run(budget, cap) <= c || workers_for_run(budget, cap) == 1,
        workers_for_run(budget, cap) == 1 || workers_for_run(budget, cap) == budget || cap == Some(
            workers_for_run(budget, cap) as usize,
        ),
        cap matches Some(c) ==> (1 <= c <= budget ==> workers_for_run(budget, cap) == c),
        cap matches Some(c) ==> (c >= budget >= 1 ==> workers_for_run(budget, cap) == budget),
        cap is None && budget >= 1 ==> workers_for_run(budget, cap) == budget,
{
}

/// A message that reports the server rejecting the shape of the request,
/// judged on its lower-cased text.
pub open spec fn names_request_error(lower: Seq<char>) -> bool {
    ||| contains(lower, "missing required arg"@)
    ||| contains(lower, "unknown endpoint"@)
    ||| contains(lower, "invalidargument"@)
    ||| contains(lower, "cannot specify"@)
}

/// Whether the server rejected the shape of the request rather than
/// failing to deliver it. Such a failure repeats at any window width, so
/// it is never split and retried.
pub fn is_request_error(msg: &str) -> (r: bool)
    ensures
        r == names_request_error(unicode_lower(msg@)),
{
    let m = to_lowercase(msg);
    let m = chars_of(m.as_str());
    let m = m.as_slice();
    contains_lit(m, "missing required arg") || contains_lit(m, "unknown endpoint")
        || contains_lit(m, "invalidargument") || contains_lit(m, "cannot specify")
}

/// What a single task did.
#[derive(Debug, Clone, Copy, PartialEq, Eq, Structural)]
pub enum Outcome {
    /// Rows came back and were written.
    Written { rows: usize, bytes: u64 },
    /// The file was already on disk, so nothing was fetched.
    AlreadyOnDisk { bytes: u64 },
    /// The server returned no rows for this request.
    NoData,
}

impl Outcome {
    pub open spec fn spec_recorded(self) -> Option<(usize, u64)> {
        match self {
            Outcome::Written { rows, bytes } => Some((rows, bytes)),
            Outcome::AlreadyOnDisk { bytes } => Some((0, bytes)),
            Outcome::NoData => None,
        }
    }

    /// The `(rows, bytes)` to record against the task, or `None` when the
    /// request came back with nothing and the row is marked empty.
    pub fn recorded(&self) -> (r: Option<(usize, u64)>)
        ensures
            r == self.spec_recorded(),
    {
        match *self {
            Outcome::Written { rows, bytes } => Some((rows, bytes)),
            Outcome::AlreadyOnDisk { bytes } => Some((0, bytes)),
            Outcome::NoData => None,
        }
    }
}

/// How a finished task's row is closed.
#[derive(Debug, Clone, Copy, PartialEq, Eq, Structural)]
pub enum Completion {
    /// `mark_empty`: the server had no rows.
    Empty,
    /// `mark_done` with these counts.
    Done { rows: i64, bytes: i64 },
    /// `mark_failed`.
    Failed,
}

/// The row update a finished task calls for: `None` stands for a task that
/// ended in an error.
pub open spec fn completion_for(result: Option<Outcome>) -> Completion {
    match result {
        None => Completion::Failed,
        Some(o) => match o.spec_recorded() {
            None => Completion::Empty,
            Some((rows, bytes)) => Completion::Done { rows: rows as i64, bytes: bytes as i64 },
        },
    }
}

pub fn completion(result: Option<Outcome>) -> (c: Completion)
    ensures
        c == completion_for(result),
{
    match result {
        None => Completion::Failed,
        Some(o) => match o.recorded() {
            None => Completion::Empty,
            Some((rows, bytes)) => {
                #[verifier::truncate]
                let r = rows as i64;
                #[verifier::truncate]
                let b = bytes as i64;
                Completion::Done { rows: r, bytes: b }
            },
        },
    }
}

/// Running totals of one pool run.
#[derive(Debug, Clone, Copy, PartialEq, Eq, Structural)]
pub struct Progress {
    pub running: usize,
    pub queued: usize,
    pub completed: u64,
    pub failed: u64,
    pub bytes_written: u64,
    pub rows_written: u64,
}

impl Progress {
    /// All counters at zero.
    pub fn new() -> (p: Progress)
        ensures
            p.running == 0,
            p.queued == 0,
            p.completed == 0,
            p.failed == 0,
            p.bytes_written == 0,
            p.rows_written == 0,
    {
        Progress {
            running: 0,
            queued: 0,
            completed: 0,
            failed: 0,
            bytes_written: 0,
            rows_written: 0,
        }
    }

    /// A worker claimed a task.
    pub fn start_task(&mut self)
        requires
            old(self).running < usize::MAX,
        ensures
            *final(self) == (Progress { running: (old(self).running + 1) as usize, ..*old(self) }),
    {
        self.running = self.running + 1;
    }

    /// Whether the counters can take one more finished task of this kind
    /// without overflowing.
    pub open spec fn can_finish(self, result: Option<Outcome>) -> bool {
        match result {
            None => self.failed < u64::MAX,
            Some(Outcome::Written { rows, bytes }) => {
                &&& self.completed < u64::MAX
                &&& self.rows_written + rows <= u64::MAX
                &&& self.bytes_written + bytes <= u64::MAX
            },
            Some(Outcome::AlreadyOnDisk { .. }) => self.completed < u64::MAX,
            Some(Outcome::NoData) => true,
        }
    }

    /// The counters after a task finished: one fewer running (never below
    /// zero); a written file counts as completed and adds its rows and
    /// bytes; a file already on disk counts as completed; no data counts
    /// as neither; an error counts as failed.
    pub open spec fn after_finish(self, result: Option<Outcome>) -> Progress {
        let base = Progress {
            running: if self.running > 0 { (self.running - 1) as usize } else { 0 },
            ..self
        };
        match result {
            None => Progress { failed: (self.failed + 1) as u64, ..base },
            Some(Outcome::Written { rows, bytes }) => Progress {
                completed: (self.completed + 1) as u64,
                rows_written: (self.rows_written + rows) as u64,
                bytes_written: (self.bytes_written + bytes) as u64,
                ..base
            },
            Some(Outcome::AlreadyOnDisk { .. }) => Progress {
                completed: (self.completed + 1) as u64,
                ..base
            },
            Some(Outcome::NoData) => base,
        }
    }

    /// Record a finished task; `None` stands for a task that ended in an
    /// error.
    pub fn finish_task(&mut self, result: Option<Outcome>)
        requires
            old(self).can_finish(result),
        ensures
            *final(self) == old(self).after_finish(result),
    {
        self.running = if self.running > 0 { self.running - 1 } else { 0 };
        match result {
            None => {
                self.failed = self.failed + 1;
            },
            Some(Outcome::Written { rows, bytes }) => {
                self.completed = self.completed + 1;
                self.rows_written = self.rows_written + rows as u64;
                self.bytes_written = self.bytes_written + bytes;
            },
            Some(Outcome::AlreadyOnDisk { .. }) => {
                self.completed = self.completed + 1;
            },
            Some(Outcome::NoData) => {},
        }
    }
}

} // verus!
