//! The download queue's rows as the library reads them: task states and
//! how they are spelled in the queue's table, and a stored row turned
//! back into a task. Talking to the database is the caller's.

use vstd::prelude::*;

use crate::dates::{chrono_parse_ymd, Date};
use crate::format::OutputFormat;
use crate::spec::{resolve_legacy, DataKind, DataSpec};
use crate::registry::registered;
use crate::text::{ascii_lower_seq, ascii_lower_vec, chars_of, contains, contains_lit, eq_lit};
use crate::tier::AssetClass;

verus! {

#[derive(Debug, Clone, Copy, PartialEq, Eq, Structural)]
pub enum TaskStatus {
    Pending,
    Running,
    Done,
    Failed,
    Empty,
}

impl TaskStatus {
    pub open spec fn name(self) -> Seq<char> {
        match self {
            TaskStatus::Pending => "pending"@,
            TaskStatus::Running => "running"@,
            TaskStatus::Done => "done"@,
            TaskStatus::Failed => "failed"@,
            TaskStatus::Empty => "empty"@,
        }
    }

    /// The status a stored name denotes (exact match).
    pub open spec fn from_name(s: Seq<char>) -> Option<TaskStatus> {
        if s == "pending"@ {
            Some(TaskStatus::Pending)
        } else if s == "running"@ {
            Some(TaskStatus::Running)
        } else if s == "done"@ {
            Some(TaskStatus::Done)
        } else if s == "failed"@ {
            Some(TaskStatus::Failed)
        } else if s == "empty"@ {
            Some(TaskStatus::Empty)
        } else {
            None
        }
    }

    pub fn as_str(self) -> (r: &'static str)
        ensures
            r@ == self.name(),
    {
        status_to_str(self)
    }

    pub fn parse(s: &str) -> (r: Option<TaskStatus>)
        ensures
            r == TaskStatus::from_name(s@),
    {
        status_from_str(s)
    }
}

/// How a status is stored.
pub fn status_to_str(s: TaskStatus) -> (r: &'static str)
    ensures
        r@ == s.name(),
{
    match s {
        TaskStatus::Pending => "pending",
        TaskStatus::Running => "running",
        TaskStatus::Done => "done",
        TaskStatus::Failed => "failed",
        TaskStatus::Empty => "empty",
    }
}

/// The status a stored name denotes.
pub fn status_from_str(s: &str) -> (r: Option<TaskStatus>)
    ensures
        r == TaskStatus::from_name(s@),
{
    let v = chars_of(s);
    let v = v.as_slice();
    if eq_lit(v, "pending") {
        Some(TaskStatus::Pending)
    } else if eq_lit(v, "running") {
        Some(TaskStatus::Running)
    } else if eq_lit(v, "done") {
        Some(TaskStatus::Done)
    } else if eq_lit(v, "failed") {
        Some(TaskStatus::Failed)
    } else if eq_lit(v, "empty") {
        Some(TaskStatus::Empty)
    } else {
        None
    }
}

/// Reading back how a status is stored gives the same status.
pub proof fn law_status_round_trips(s: TaskStatus)
    ensures
        TaskStatus::from_name(s.name()) == Some(s),
{
    reveal_strlit("pending");
    reveal_strlit("running");
    reveal_strlit("done");
    reveal_strlit("failed");
    reveal_strlit("empty");
    assert("running"@[0] != "pending"@[0]);
    match s {
        TaskStatus::Pending => {},
        TaskStatus::Running => {
            assert("running"@ != "pending"@);
        },
        TaskStatus::Done => {
            assert("done"@ != "pending"@);
            assert("done"@ != "running"@);
        },
        TaskStatus::Failed => {
            assert("failed"@ != "pending"@);
            assert("failed"@ != "running"@);
            assert("failed"@.len() != "done"@.len());
        },
        TaskStatus::Empty => {
            assert("empty"@ != "pending"@);
            assert("empty"@ != "running"@);
            assert("empty"@.len() != "done"@.len());
            assert("empty"@ != "failed"@);
        },
    }
}

/// One download task.
#[derive(Debug)]
pub struct Task {
    pub id: String,
    pub spec: DataSpec,
    pub format: OutputFormat,
    pub output_dir: String,
    pub status: TaskStatus,
    pub priority: i32,
    pub attempts: i32,
    pub error: Option<String>,
    pub created_at: i64,
    pub finished_at: Option<i64>,
    pub rows: Option<i64>,
    pub bytes: Option<i64>,
}

/// A task as its row stores it: every field as the table holds it.
#[derive(Debug)]
pub struct TaskRow {
    pub id: String,
    pub kind: String,
    pub symbol: String,
    pub date: String,
    pub interval: Option<String>,
    pub expiration: String,
    pub strike: String,
    pub right: String,
    pub format: String,
    pub output_dir: String,
    pub status: String,
    pub priority: i32,
    pub attempts: i32,
    pub error: Option<String>,
    pub created_at: i64,
    pub finished_at: Option<i64>,
    pub rows: Option<i64>,
    pub bytes: Option<i64>,
}

/// Why a stored row is not a task: the first field, in the order kind,
/// date, format, status, that does not read.
#[derive(Debug, Clone, Copy, PartialEq, Eq, Structural)]
pub enum RowError {
    BadKind,
    BadDate,
    BadFormat,
    BadStatus,
}

/// Read a stored row back as a task: the dataset must be one the
/// registry knows (legacy names resolve), the date `YYYYMMDD`, and the
/// format and status names the queue writes; every other field is taken
/// as stored.
pub fn task_from_row(r: TaskRow) -> (t: Result<Task, RowError>)
    ensures
        !registered(resolve_legacy(r.kind@)) <==> t == Err::<Task, RowError>(RowError::BadKind),
        registered(resolve_legacy(r.kind@)) && chrono_parse_ymd(r.date@) is None <==> t == Err::<
            Task,
            RowError,
        >(RowError::BadDate),
        registered(resolve_legacy(r.kind@)) && chrono_parse_ymd(r.date@) is Some
            && OutputFormat::from_name(r.format@) is None <==> t == Err::<Task, RowError>(RowError::BadFormat),
        registered(resolve_legacy(r.kind@)) && chrono_parse_ymd(r.date@) is Some && OutputFormat::from_name(
            r.format@,
        ) is Some && TaskStatus::from_name(r.status@) is None <==> t == Err::<Task, RowError>(
            RowError::BadStatus,
        ),
        t matches Ok(task) ==> {
            &&& task.id@ == r.id@
            &&& task.spec.kind.name() == resolve_legacy(r.kind@)
            &&& task.spec.symbol@ == r.symbol@
            &&& Some(task.spec.date.day()) == chrono_parse_ymd(r.date@)
            &&& task.spec.interval == r.interval
            &&& task.spec.expiration@ == r.expiration@
            &&& task.spec.strike@ == r.strike@
            &&& task.spec.right@ == r.right@
            &&& Some(task.format) == OutputFormat::from_name(r.format@)
            &&& task.output_dir@ == r.output_dir@
            &&& Some(task.status) == TaskStatus::from_name(r.status@)
            &&& task.priority == r.priority
            &&& task.attempts == r.attempts
            &&& task.error == r.error
            &&& task.created_at == r.created_at
            &&& task.finished_at == r.finished_at
            &&& task.rows == r.rows
            &&& task.bytes == r.bytes
        },
{
    let kind = match DataKind::parse(r.kind.as_str()) {
        Some(k) => k,
        None => {
            return Err(RowError::BadKind);
        },
    };
    let date = match Date::parse_ymd8(r.date.as_str()) {
        Some(d) => d,
        None => {
            return Err(RowError::BadDate);
        },
    };
    let format = match OutputFormat::parse(r.format.as_str()) {
        Some(f) => f,
        None => {
            return Err(RowError::BadFormat);
        },
    };
    let status = match status_from_str(r.status.as_str()) {
        Some(s) => s,
        None => {
            return Err(RowError::BadStatus);
        },
    };
    let TaskRow {
        id,
        kind: _,
        symbol,
        date: _,
        interval,
        expiration,
        strike,
        right,
        format: _,
        output_dir,
        status: _,
        priority,
        attempts,
        error,
        created_at,
        finished_at,
        rows,
        bytes,
    } = r;
    Ok(Task {
        id,
        spec: DataSpec { kind, symbol, date, interval, expiration, strike, right },
        format,
        output_dir,
        status,
        priority,
        attempts,
        error,
        created_at,
        finished_at,
        rows,
        bytes,
    })
}

/// Whether a database error message reports a column that already
/// exists, judged ASCII-case-insensitively: the one failure a schema
/// migration that adds a column may ignore.
pub fn is_duplicate_column_error(msg: &str) -> (b: bool)
    ensures
        b == contains(ascii_lower_seq(msg@), "duplicate column name"@),
{
    let v = chars_of(msg);
    let lower = ascii_lower_vec(v.as_slice());
    contains_lit(lower.as_slice(), "duplicate column name")
}

/// The datasets a worker claiming by class may take: the seven datasets
/// of the per-class lanes, each under the registry name the queue stores
/// (a legacy name such as `stock_trade` resolves to `stock_history_trade`
/// before it is stored); indices and rates have none.
pub open spec fn class_kind_names(class: AssetClass) -> Seq<Seq<char>> {
    match class {
        AssetClass::Stock => seq!["stock_history_trade"@, "stock_history_quote"@, "stock_history_trade_quote"@],
        AssetClass::Option => seq![
            "option_history_trade"@,
            "option_history_quote"@,
            "option_history_trade_quote"@,
            "option_history_open_interest"@,
        ],
        AssetClass::Index => Seq::empty(),
        AssetClass::Rate => Seq::empty(),
    }
}

pub open spec fn strs_view(v: Seq<&str>) -> Seq<Seq<char>> {
    v.map_values(|s: &str| s@)
}

/// See [`class_kind_names`]. Every name listed is already in stored
/// form: resolving it as a legacy name leaves it unchanged.
pub fn class_kinds(class: AssetClass) -> (r: Vec<&'static str>)
    ensures
        strs_view(r@) == class_kind_names(class),
        forall|i: int| 0 <= i < r@.len() ==> resolve_legacy(#[trigger] r@[i]@) == r@[i]@,
{
    let r = match class {
        AssetClass::Stock => vec!["stock_history_trade", "stock_history_quote", "stock_history_trade_quote"],
        AssetClass::Option => vec![
            "option_history_trade",
            "option_history_quote",
            "option_history_trade_quote",
            "option_history_open_interest",
        ],
        AssetClass::Index | AssetClass::Rate => Vec::new(),
    };
    proof {
        reveal_strlit("stock_trade");
        reveal_strlit("stock_quote");
        reveal_strlit("stock_trade_quote");
        reveal_strlit("option_trade");
        reveal_strlit("option_quote");
        reveal_strlit("option_trade_quote");
        reveal_strlit("option_oi");
        reveal_strlit("stock_history_trade");
        reveal_strlit("stock_history_quote");
        reveal_strlit("stock_history_trade_quote");
        reveal_strlit("option_history_trade");
        reveal_strlit("option_history_quote");
        reveal_strlit("option_history_trade_quote");
        reveal_strlit("option_history_open_interest");
    }
    assert(strs_view(r@) =~= class_kind_names(class));
    r
}

} // verus!
