//! The history of commands: what is recorded, how it is queried and shown.

use crate::error::{DevError, ErrorView};
use crate::harness::GitInfo;
use crate::number::arith::{of_int, quotient};
use crate::number::double::{Double, Real};
use crate::number::fixed::fixed_text;
use crate::numeral::{i64_text, int_text, nat_text, usize_text};
use crate::text::{
    as_opt_str, clone_or, join, join_path, joined, joined_path, opt_str, opt_view, pad_left, pad_right, padded_left, padded_right,
    text_or, views, words, words_of,
};
use vstd::prelude::*;

pub mod rows;

verus! {

/// The version of the table.
pub const SCHEMA_VERSION: i64 = 1;

/// The table.
pub const CREATE_TABLE: &'static str = "CREATE TABLE IF NOT EXISTS history (
        id              INTEGER PRIMARY KEY,
        timestamp       TEXT NOT NULL DEFAULT (datetime('now')),
        project         TEXT,
        cwd             TEXT NOT NULL,
        command         TEXT NOT NULL,
        elapsed_ms      INTEGER,
        exit_status     INTEGER NOT NULL,
        hostname        TEXT NOT NULL,
        commit_hash     TEXT,
        dirty           INTEGER,
        kernel          TEXT,
        avail_memory_mb INTEGER
    )";

/// The indexes of the table.
pub const CREATE_INDEXES: &'static str = "CREATE INDEX IF NOT EXISTS idx_history_timestamp ON history(timestamp);
    CREATE INDEX IF NOT EXISTS idx_history_project ON history(project);
    CREATE INDEX IF NOT EXISTS idx_history_exit ON history(exit_status)";

/// The statement that inserts a row.
pub const INSERT: &'static str = "INSERT INTO history (project, cwd, command, elapsed_ms, exit_status, hostname, commit_hash, dirty, kernel, avail_memory_mb) VALUES (?1, ?2, ?3, ?4, ?5, ?6, ?7, ?8, ?9, ?10)";

/// A row that is inserted.
#[derive(Debug)]
pub struct HistoryRow {
    pub project: Option<String>,
    pub cwd: String,
    pub command: String,
    pub elapsed_ms: i64,
    pub exit_status: i32,
    pub hostname: String,
    pub commit_hash: Option<String>,
    pub dirty: Option<bool>,
    pub kernel: Option<String>,
    pub avail_memory_mb: Option<i64>,
}

/// A row that a query returns.
#[derive(Debug)]
pub struct HistoryEntry {
    pub id: i64,
    pub timestamp: String,
    pub project: Option<String>,
    pub cwd: String,
    pub command: String,
    pub elapsed_ms: Option<i64>,
    pub exit_status: i32,
    pub hostname: String,
    pub commit_hash: Option<String>,
    pub dirty: Option<bool>,
    pub kernel: Option<String>,
    pub avail_memory_mb: Option<i64>,
}

/// Which rows a query asks for.
#[derive(Debug)]
pub struct HistoryFilter {
    pub command: Option<String>,
    pub project: Option<String>,
    pub failed: bool,
    pub since: Option<String>,
    pub slow_ms: Option<i64>,
    pub limit: usize,
    pub all: bool,
}

/// A value that stands for a parameter of a statement.
#[derive(Debug)]
pub enum SqlValue {
    Null,
    Text(String),
    Int(i64),
    Real(Double),
}

/// The contents of a [`SqlValue`].
pub ghost enum SqlView {
    Null,
    Text(Seq<char>),
    Int(int),
    Real(Real),
}

impl View for SqlValue {
    type V = SqlView;

    open spec fn view(&self) -> SqlView {
        match self {
            SqlValue::Null => SqlView::Null,
            SqlValue::Text(t) => SqlView::Text(t@),
            SqlValue::Int(n) => SqlView::Int(*n as int),
            SqlValue::Real(x) => SqlView::Real(x@),
        }
    }
}

/// A text that may be missing, as a parameter.
pub open spec fn sql_text(t: Option<Seq<char>>) -> SqlView {
    match t {
        Some(t) => SqlView::Text(t),
        None => SqlView::Null,
    }
}

/// Makes a parameter of a text that may be missing.
pub fn text_param(t: Option<&str>) -> (r: SqlValue)
    ensures
        r@ == sql_text(opt_str(t)),
{
    match t {
        Some(t) => SqlValue::Text(t.to_owned()),
        None => SqlValue::Null,
    }
}

/// An integer that may be missing, as a parameter.
pub open spec fn sql_int(n: Option<i64>) -> SqlView {
    match n {
        Some(n) => SqlView::Int(n as int),
        None => SqlView::Null,
    }
}

/// Makes a parameter of an integer that may be missing.
pub fn int_param(n: Option<i64>) -> (r: SqlValue)
    ensures
        r@ == sql_int(n),
{
    match n {
        Some(n) => SqlValue::Int(n),
        None => SqlValue::Null,
    }
}

/// A truth value that may be missing, as a parameter.
pub open spec fn sql_flag(b: Option<bool>) -> SqlView {
    match b {
        Some(b) => SqlView::Int(if b { 1 } else { 0 }),
        None => SqlView::Null,
    }
}

/// Makes a parameter of a truth value that may be missing.
pub fn flag_param(b: Option<bool>) -> (r: SqlValue)
    ensures
        r@ == sql_flag(b),
{
    match b {
        Some(b) => SqlValue::Int(if b { 1 } else { 0 }),
        None => SqlValue::Null,
    }
}

/// The contents of a list of parameters.
pub open spec fn sql_views(v: Seq<SqlValue>) -> Seq<SqlView> {
    v.map_values(|x: SqlValue| x@)
}

/// Conditions, and the parameters that they speak of by number.
pub ghost struct Conditions {
    pub clauses: Seq<Seq<char>>,
    pub params: Seq<SqlView>,
}

/// One more condition on a parameter, which gets the next number.
pub open spec fn with_param(c: Conditions, head: Seq<char>, value: SqlView) -> Conditions {
    Conditions {
        clauses: c.clauses.push(head + nat_text(c.params.len() + 1)),
        params: c.params.push(value),
    }
}

/// One more condition on a text, where it is given.
pub open spec fn with_text(c: Conditions, head: Seq<char>, value: Option<Seq<char>>) -> Conditions {
    match value {
        Some(t) => with_param(c, head, SqlView::Text(t)),
        None => c,
    }
}

/// A text between wildcards, where it is given.
pub open spec fn pattern_of(command: Option<Seq<char>>) -> Option<Seq<char>> {
    match command {
        Some(t) => Some("%"@ + t + "%"@),
        None => None,
    }
}

/// The conditions of a filter.
pub open spec fn conditions_of(f: HistoryFilter) -> Conditions {
    let none = Conditions { clauses: Seq::empty(), params: Seq::empty() };
    let named = with_text(
        with_text(none, "command LIKE ?"@, pattern_of(opt_view(f.command))),
        "project = ?"@,
        opt_view(f.project),
    );
    let failed = if f.failed {
        Conditions { clauses: named.clauses.push("exit_status != 0"@), ..named }
    } else {
        named
    };
    let since = with_text(failed, "timestamp >= ?"@, opt_view(f.since));
    match f.slow_ms {
        Some(ms) => with_param(since, "elapsed_ms >= ?"@, SqlView::Int(ms as int)),
        None => since,
    }
}

/// The statement of a filter: the rows that meet every condition, the latest
/// first, and so many at most unless all are asked for.
pub open spec fn statement_of(f: HistoryFilter) -> Seq<char> {
    let clauses = conditions_of(f).clauses;
    "SELECT id, timestamp, project, cwd, command, elapsed_ms, exit_status, hostname, commit_hash, dirty, kernel, avail_memory_mb FROM history"@
        + (if clauses.len() == 0 {
        Seq::empty()
    } else {
        " WHERE "@ + joined(clauses, " AND "@)
    }) + " ORDER BY id DESC"@ + (if f.all {
        Seq::empty()
    } else {
        " LIMIT "@ + nat_text(f.limit as nat)
    })
}

/// A statement with its parameters.
#[derive(Debug)]
pub struct Statement {
    pub sql: String,
    pub params: Vec<SqlValue>,
}

struct Builder {
    clauses: Vec<String>,
    params: Vec<SqlValue>,
}

spec fn builder_view(b: Builder) -> Conditions {
    Conditions { clauses: views(b.clauses@), params: sql_views(b.params@) }
}

fn add_param(b: &mut Builder, head: &str, value: SqlValue)
    requires
        old(b).params@.len() < 100,
    ensures
        builder_view(*final(b)) == with_param(builder_view(*old(b)), head@, value@),
        final(b).params@.len() == old(b).params@.len() + 1,
{
    let mut clause = head.to_owned();
    let number = usize_text(b.params.len() + 1);
    clause.append(number.as_str());
    b.clauses.push(clause);
    b.params.push(value);
    assert(views(b.clauses@) =~= views(old(b).clauses@).push(clause@));
    assert(sql_views(b.params@) =~= sql_views(old(b).params@).push(value@));
}

fn add_text(b: &mut Builder, head: &str, value: &Option<String>)
    requires
        old(b).params@.len() < 100,
    ensures
        builder_view(*final(b)) == with_text(builder_view(*old(b)), head@, opt_view(*value)),
        final(b).params@.len() <= old(b).params@.len() + 1,
{
    match value {
        Some(t) => {
            add_param(b, head, SqlValue::Text(t.clone()));
        },
        None => {},
    }
}

/// Makes the statement of a filter. What the user gave stands in the
/// parameters, never in the text of the statement.
pub fn query(filter: &HistoryFilter) -> (r: Statement)
    ensures
        r.sql@ == statement_of(*filter),
        sql_views(r.params@) == conditions_of(*filter).params,
{
    let mut b = Builder { clauses: Vec::new(), params: Vec::new() };
    assert(views(b.clauses@) =~= Seq::empty());
    assert(sql_views(b.params@) =~= Seq::empty());
    let pattern = match &filter.command {
        Some(t) => {
            let mut p = "%".to_owned();
            p.append(t.as_str());
            p.append("%");
            Some(p)
        },
        None => None,
    };
    add_text(&mut b, "command LIKE ?", &pattern);
    add_text(&mut b, "project = ?", &filter.project);
    if filter.failed {
        let ghost before = views(b.clauses@);
        b.clauses.push("exit_status != 0".to_owned());
        assert(views(b.clauses@) =~= before.push("exit_status != 0"@));
    }
    add_text(&mut b, "timestamp >= ?", &filter.since);
    match filter.slow_ms {
        Some(ms) => {
            add_param(&mut b, "elapsed_ms >= ?", SqlValue::Int(ms));
        },
        None => {},
    }
    assert(builder_view(b) == conditions_of(*filter));
    assert(views(b.clauses@).len() == b.clauses@.len());
    let mut sql =
        "SELECT id, timestamp, project, cwd, command, elapsed_ms, exit_status, hostname, commit_hash, dirty, kernel, avail_memory_mb FROM history".to_owned();
    let mut condition = String::new();
    if b.clauses.len() > 0 {
        condition = " WHERE ".to_owned();
        let list = join(&b.clauses, " AND ");
        condition.append(list.as_str());
    }
    sql.append(condition.as_str());
    sql.append(" ORDER BY id DESC");
    let mut limit = String::new();
    if !filter.all {
        limit = " LIMIT ".to_owned();
        limit.append(usize_text(filter.limit).as_str());
    }
    sql.append(limit.as_str());
    Statement { sql, params: b.params }
}

/// Makes the statement that inserts a row.
pub fn insert(row: &HistoryRow) -> (r: Statement)
    ensures
        r.sql@ == INSERT@,
        sql_views(r.params@) == seq![
            sql_text(opt_view(row.project)),
            SqlView::Text(row.cwd@),
            SqlView::Text(row.command@),
            SqlView::Int(row.elapsed_ms as int),
            SqlView::Int(row.exit_status as int),
            SqlView::Text(row.hostname@),
            sql_text(opt_view(row.commit_hash)),
            sql_flag(row.dirty),
            sql_text(opt_view(row.kernel)),
            sql_int(row.avail_memory_mb),
        ],
{
    let mut params: Vec<SqlValue> = Vec::new();
    params.push(text_param(as_opt_str(&row.project)));
    params.push(SqlValue::Text(row.cwd.clone()));
    params.push(SqlValue::Text(row.command.clone()));
    params.push(SqlValue::Int(row.elapsed_ms));
    params.push(SqlValue::Int(row.exit_status as i64));
    params.push(SqlValue::Text(row.hostname.clone()));
    params.push(text_param(as_opt_str(&row.commit_hash)));
    params.push(flag_param(row.dirty));
    params.push(text_param(as_opt_str(&row.kernel)));
    params.push(int_param(row.avail_memory_mb));
    assert(sql_views(params@) =~= seq![
        sql_text(opt_view(row.project)),
        SqlView::Text(row.cwd@),
        SqlView::Text(row.command@),
        SqlView::Int(row.elapsed_ms as int),
        SqlView::Int(row.exit_status as int),
        SqlView::Text(row.hostname@),
        sql_text(opt_view(row.commit_hash)),
        sql_flag(row.dirty),
        sql_text(opt_view(row.kernel)),
        sql_int(row.avail_memory_mb),
    ]);
    Statement { sql: INSERT.to_owned(), params }
}

/// The text of a query depends only on which conditions there are and on the
/// limit: what the user gave for them never becomes part of it.
pub proof fn query_text_ignores_values(a: HistoryFilter, b: HistoryFilter)
    requires
        a.command is Some <==> b.command is Some,
        a.project is Some <==> b.project is Some,
        a.failed == b.failed,
        a.since is Some <==> b.since is Some,
        a.slow_ms is Some <==> b.slow_ms is Some,
        a.limit == b.limit,
        a.all == b.all,
    ensures
        statement_of(a) == statement_of(b),
{
}

/// An elapsed time in the unit that suits it.
pub open spec fn elapsed_text(ms: Option<i64>) -> Seq<char> {
    match ms {
        Some(n) => if n >= 60_000 {
            fixed_text(quotient(of_int(n as int), of_int(60_000)), 1) + "m"@
        } else if n >= 1_000 {
            fixed_text(quotient(of_int(n as int), of_int(1_000)), 1) + "s"@
        } else {
            int_text(n as int) + "ms"@
        },
        None => "-"@,
    }
}

/// The commit behind a command, marked where the files had changed.
pub open spec fn commit_text(commit: Option<Seq<char>>, dirty: Option<bool>) -> Seq<char> {
    let hash = text_or(commit, ""@);
    if hash.len() == 0 {
        Seq::empty()
    } else {
        " "@ + hash + (if dirty == Some(true) {
            "*"@
        } else {
            ""@
        })
    }
}

/// A mark behind a command that failed.
pub open spec fn fail_text(status: i32) -> Seq<char> {
    if status != 0 {
        "  [FAIL:"@ + int_text(status as int) + "]"@
    } else {
        Seq::empty()
    }
}

/// The line on an entry.
pub open spec fn entry_line(e: HistoryEntry) -> Seq<char> {
    e.timestamp@ + "  "@ + padded_right(text_or(opt_view(e.project), "-"@), 10) + " "@ + padded_left(
        elapsed_text(e.elapsed_ms),
        7,
    ) + "  "@ + e.command@ + commit_text(opt_view(e.commit_hash), e.dirty) + fail_text(
        e.exit_status,
    )
}

/// The lines on some entries, or that there is none.
pub open spec fn history_text(entries: Seq<HistoryEntry>) -> Seq<char> {
    if entries.len() == 0 {
        "no history entries"@
    } else {
        joined(entries.map_values(|e: HistoryEntry| entry_line(e)), "\n"@)
    }
}

fn format_elapsed(ms: Option<i64>) -> (r: String)
    ensures
        r@ == elapsed_text(ms),
{
    match ms {
        Some(n) => {
            if n >= 60_000 {
                let mut out = Double::of_i64(n).over(Double::of_i64(60_000)).fixed(1);
                out.append("m");
                out
            } else if n >= 1_000 {
                let mut out = Double::of_i64(n).over(Double::of_i64(1_000)).fixed(1);
                out.append("s");
                out
            } else {
                let mut out = i64_text(n);
                out.append("ms");
                out
            }
        },
        None => "-".to_owned(),
    }
}

fn format_entry(e: &HistoryEntry) -> (r: String)
    ensures
        r@ == entry_line(*e),
{
    let mut out = e.timestamp.clone();
    out.append("  ");
    let project = clone_or(&e.project, "-");
    out.append(pad_right(project.as_str(), 10).as_str());
    out.append(" ");
    let elapsed = format_elapsed(e.elapsed_ms);
    out.append(pad_left(elapsed.as_str(), 7).as_str());
    out.append("  ");
    out.append(e.command.as_str());
    let hash = clone_or(&e.commit_hash, "");
    let mut commit = String::new();
    if hash.as_str().unicode_len() > 0 {
        commit = " ".to_owned();
        commit.append(hash.as_str());
        commit.append(
            match e.dirty {
                Some(true) => "*",
                _ => "",
            },
        );
    }
    out.append(commit.as_str());
    let mut failed = String::new();
    if e.exit_status != 0 {
        failed = "  [FAIL:".to_owned();
        failed.append(i64_text(e.exit_status as i64).as_str());
        failed.append("]");
    }
    out.append(failed.as_str());
    out
}

/// Writes the lines on some entries.
pub fn format_history(entries: &[HistoryEntry]) -> (r: String)
    ensures
        r@ == history_text(entries@),
{
    if entries.len() == 0 {
        return "no history entries".to_owned();
    }
    let mut lines: Vec<String> = Vec::new();
    let mut i: usize = 0;
    while i < entries.len()
        invariant
            i <= entries@.len(),
            lines@.len() == i,
            forall|k: int| 0 <= k < i ==> #[trigger] lines@[k]@ == entry_line(entries@[k]),
        decreases entries@.len() - i,
    {
        lines.push(format_entry(&entries[i]));
        i += 1;
    }
    assert(views(lines@) =~= entries@.map_values(|e: HistoryEntry| entry_line(e)));
    join(&lines, "\n")
}

/// Finds the path of the history: below the user's data directory, or below the
/// home directory.
pub fn db_path(xdg_data_home: Option<&str>, home: Option<&str>) -> (r: Result<String, DevError>)
    ensures
        match (opt_str(xdg_data_home), opt_str(home)) {
            (Some(d), _) => r matches Ok(p) && p@ == joined_path(
                joined_path(d, "brokkr"@),
                "history.db"@,
            ),
            (None, Some(h)) => r matches Ok(p) && p@ == joined_path(
                joined_path(joined_path(joined_path(h, ".local"@), "share"@), "brokkr"@),
                "history.db"@,
            ),
            (None, None) => r matches Err(e) && e@ == ErrorView::Config(
                "cannot determine data directory: neither XDG_DATA_HOME nor HOME is set"@,
            ),
        },
{
    let data_dir = match xdg_data_home {
        Some(d) => d.to_owned(),
        None => match home {
            Some(h) => {
                let local = join_path(h, ".local");
                join_path(local.as_str(), "share")
            },
            None => {
                return Err(
                    DevError::Config(
                        "cannot determine data directory: neither XDG_DATA_HOME nor HOME is set".to_owned(),
                    ),
                );
            },
        },
    };
    let dir = join_path(data_dir.as_str(), "brokkr");
    Ok(join_path(dir.as_str(), "history.db"))
}

/// Whether the version of a database must be brought up to date: it holds the
/// table, in an older version.
pub fn needs_migration(has_table: bool, current: i64) -> (r: bool)
    ensures
        r == (has_table && current < SCHEMA_VERSION),
{
    has_table && current < SCHEMA_VERSION
}

/// The repository in which a command was given: the project's name, and its
/// state where that could be read.
pub struct Surroundings {
    pub project: String,
    pub git: Option<GitInfo>,
}

/// The name of the project around a command.
pub open spec fn project_around(s: Option<Surroundings>) -> Option<Seq<char>> {
    match s {
        Some(s) => Some(s.project@),
        None => None,
    }
}

/// The commit around a command, if it is known.
pub open spec fn commit_around(s: Option<Surroundings>) -> Option<Seq<char>> {
    match s {
        Some(s) => match s.git {
            Some(g) => if g.commit@.len() == 0 {
                None
            } else {
                Some(g.commit@)
            },
            None => None,
        },
        None => None,
    }
}

/// Whether files had changed around a command, if it is known.
pub open spec fn dirty_around(s: Option<Surroundings>) -> Option<bool> {
    match s {
        Some(s) => match s.git {
            Some(g) => Some(!g.is_clean),
            None => None,
        },
        None => None,
    }
}

/// The third word of the kernel's version text.
pub open spec fn kernel_in(version: Option<Seq<char>>) -> Option<Seq<char>> {
    match version {
        Some(t) => if words_of(t).len() > 2 {
            Some(words_of(t)[2])
        } else {
            None
        },
        None => None,
    }
}

/// Whether a command is recorded at all: there must be a place for it.
pub fn has_place(has_xdg_data_home: bool, has_home: bool) -> (r: bool)
    ensures
        r == (has_xdg_data_home || has_home),
{
    has_xdg_data_home || has_home
}

/// Makes the row of a command. What could not be found out is left out, and the
/// names of the machine and the directory are then unknown.
pub fn record_history(
    raw_args: &str,
    elapsed_ms: u64,
    exit_code: i32,
    hostname: Option<String>,
    cwd: Option<String>,
    around: Option<Surroundings>,
    kernel_version: Option<&str>,
    avail_mb: u64,
) -> (r: HistoryRow)
    ensures
        opt_view(r.project) == project_around(around),
        r.cwd@ == text_or(opt_view(cwd), "unknown"@),
        r.command@ == raw_args@,
        r.elapsed_ms == elapsed_ms as i64,
        r.exit_status == exit_code,
        r.hostname@ == text_or(opt_view(hostname), "unknown"@),
        opt_view(r.commit_hash) == commit_around(around),
        r.dirty == dirty_around(around),
        opt_view(r.kernel) == kernel_in(opt_str(kernel_version)),
        r.avail_memory_mb == if avail_mb <= i64::MAX {
            Some(avail_mb as i64)
        } else {
            None
        },
{
    let (project, commit_hash, dirty) = match around {
        Some(s) => match s.git {
            Some(g) => {
                let commit = if g.commit.as_str().unicode_len() == 0 {
                    None
                } else {
                    Some(g.commit)
                };
                (Some(s.project), commit, Some(!g.is_clean))
            },
            None => (Some(s.project), None, None),
        },
        None => (None, None, None),
    };
    let kernel = match kernel_version {
        Some(t) => {
            let mut fields = words(t);
            assert(views(fields@).len() == fields@.len());
            if fields.len() > 2 {
                assert(views(fields@)[2] == fields@[2]@);
                Some(fields.swap_remove(2))
            } else {
                None
            }
        },
        None => None,
    };
    HistoryRow {
        project,
        cwd: clone_or(&cwd, "unknown"),
        command: raw_args.to_owned(),
        elapsed_ms: #[verifier::truncate]
        (elapsed_ms as i64),
        exit_status: exit_code,
        hostname: clone_or(&hostname, "unknown"),
        commit_hash,
        dirty,
        kernel,
        avail_memory_mb: if avail_mb <= i64::MAX as u64 {
            Some(avail_mb as i64)
        } else {
            None
        },
    }
}

} // verus!
