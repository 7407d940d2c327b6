//! The store of comparisons: its tables and statements.

use crate::history::{flag_param, sql_flag, sql_text, sql_views, text_param, SqlValue, SqlView, Statement};
use crate::number::double::Double;
use crate::text::opt_str;
use vstd::prelude::*;

verus! {

/// The tables.
pub const SCHEMA: &'static str = "CREATE TABLE IF NOT EXISTS mechanical_runs (
    run_id          TEXT PRIMARY KEY,
    timestamp       TEXT NOT NULL DEFAULT (datetime('now')),
    commit          TEXT NOT NULL,
    dirty           INTEGER NOT NULL DEFAULT 0
);

CREATE TABLE IF NOT EXISTS mechanical_results (
    run_id          TEXT NOT NULL REFERENCES mechanical_runs(run_id),
    fixture_id      TEXT NOT NULL,
    pixel_diff_pct  REAL,
    element_match_pct REAL,
    status          TEXT NOT NULL,
    artifact_dir    TEXT,
    PRIMARY KEY (run_id, fixture_id)
);

CREATE TABLE IF NOT EXISTS mechanical_approvals (
    fixture_id          TEXT PRIMARY KEY,
    approved_at         TEXT NOT NULL DEFAULT (datetime('now')),
    commit              TEXT NOT NULL,
    pixel_diff_pct      REAL NOT NULL,
    element_match_pct   REAL
);
";

/// A number that may be missing, as a parameter.
pub open spec fn sql_number(x: Option<Double>) -> SqlView {
    match x {
        Some(x) => SqlView::Real(x@),
        None => SqlView::Null,
    }
}

/// Makes a parameter of a number that may be missing.
pub fn number_param(x: Option<Double>) -> (r: SqlValue)
    ensures
        r@ == sql_number(x),
{
    match x {
        Some(x) => SqlValue::Real(x),
        None => SqlValue::Null,
    }
}

fn one(sql: &str, value: &str) -> (r: Statement)
    ensures
        r.sql@ == sql@,
        sql_views(r.params@) == seq![SqlView::Text(value@)],
{
    let mut params: Vec<SqlValue> = Vec::new();
    params.push(SqlValue::Text(value.to_owned()));
    assert(sql_views(params@) =~= seq![SqlView::Text(value@)]);
    Statement { sql: sql.to_owned(), params }
}

fn none(sql: &str) -> (r: Statement)
    ensures
        r.sql@ == sql@,
        sql_views(r.params@) == Seq::<SqlView>::empty(),
{
    let params: Vec<SqlValue> = Vec::new();
    assert(sql_views(params@) =~= Seq::<SqlView>::empty());
    Statement { sql: sql.to_owned(), params }
}

/// Records a run.
pub fn insert_run(run_id: &str, commit: &str, dirty: bool) -> (r: Statement)
    ensures
        r.sql@ == "INSERT INTO mechanical_runs (run_id, commit, dirty) VALUES (?1, ?2, ?3)"@,
        sql_views(r.params@) == seq![
            SqlView::Text(run_id@),
            SqlView::Text(commit@),
            sql_flag(Some(dirty)),
        ],
{
    let mut params: Vec<SqlValue> = Vec::new();
    params.push(SqlValue::Text(run_id.to_owned()));
    params.push(SqlValue::Text(commit.to_owned()));
    params.push(flag_param(Some(dirty)));
    assert(sql_views(params@) =~= seq![
        SqlView::Text(run_id@),
        SqlView::Text(commit@),
        sql_flag(Some(dirty)),
    ]);
    Statement {
        sql: "INSERT INTO mechanical_runs (run_id, commit, dirty) VALUES (?1, ?2, ?3)".to_owned(),
        params,
    }
}

/// Records the result of a fixture.
pub fn insert_result(
    run_id: &str,
    fixture_id: &str,
    pixel_diff_pct: Option<Double>,
    element_match_pct: Option<Double>,
    status: &str,
    artifact_dir: Option<&str>,
) -> (r: Statement)
    ensures
        r.sql@
            == "INSERT INTO mechanical_results (run_id, fixture_id, pixel_diff_pct, element_match_pct, status, artifact_dir) VALUES (?1, ?2, ?3, ?4, ?5, ?6)"@,
        sql_views(r.params@) == seq![
            SqlView::Text(run_id@),
            SqlView::Text(fixture_id@),
            sql_number(pixel_diff_pct),
            sql_number(element_match_pct),
            SqlView::Text(status@),
            sql_text(opt_str(artifact_dir)),
        ],
{
    let mut params: Vec<SqlValue> = Vec::new();
    params.push(SqlValue::Text(run_id.to_owned()));
    params.push(SqlValue::Text(fixture_id.to_owned()));
    params.push(number_param(pixel_diff_pct));
    params.push(number_param(element_match_pct));
    params.push(SqlValue::Text(status.to_owned()));
    params.push(text_param(artifact_dir));
    assert(sql_views(params@) =~= seq![
        SqlView::Text(run_id@),
        SqlView::Text(fixture_id@),
        sql_number(pixel_diff_pct),
        sql_number(element_match_pct),
        SqlView::Text(status@),
        sql_text(opt_str(artifact_dir)),
    ]);
    Statement {
        sql: "INSERT INTO mechanical_results (run_id, fixture_id, pixel_diff_pct, element_match_pct, status, artifact_dir) VALUES (?1, ?2, ?3, ?4, ?5, ?6)".to_owned(),
        params,
    }
}

/// Records what was approved for a fixture, in place of what was.
pub fn set_approval(
    fixture_id: &str,
    commit: &str,
    pixel_diff_pct: Double,
    element_match_pct: Option<Double>,
) -> (r: Statement)
    ensures
        r.sql@
            == "INSERT OR REPLACE INTO mechanical_approvals (fixture_id, commit, pixel_diff_pct, element_match_pct) VALUES (?1, ?2, ?3, ?4)"@,
        sql_views(r.params@) == seq![
            SqlView::Text(fixture_id@),
            SqlView::Text(commit@),
            SqlView::Real(pixel_diff_pct@),
            sql_number(element_match_pct),
        ],
{
    let mut params: Vec<SqlValue> = Vec::new();
    params.push(SqlValue::Text(fixture_id.to_owned()));
    params.push(SqlValue::Text(commit.to_owned()));
    params.push(SqlValue::Real(pixel_diff_pct));
    params.push(number_param(element_match_pct));
    assert(sql_views(params@) =~= seq![
        SqlView::Text(fixture_id@),
        SqlView::Text(commit@),
        SqlView::Real(pixel_diff_pct@),
        sql_number(element_match_pct),
    ]);
    Statement {
        sql: "INSERT OR REPLACE INTO mechanical_approvals (fixture_id, commit, pixel_diff_pct, element_match_pct) VALUES (?1, ?2, ?3, ?4)".to_owned(),
        params,
    }
}

/// Asks for what was approved for a fixture.
pub fn get_approval(fixture_id: &str) -> (r: Statement)
    ensures
        r.sql@
            == "SELECT fixture_id, approved_at, commit, pixel_diff_pct, element_match_pct FROM mechanical_approvals WHERE fixture_id = ?1"@,
        sql_views(r.params@) == seq![SqlView::Text(fixture_id@)],
{
    one(
        "SELECT fixture_id, approved_at, commit, pixel_diff_pct, element_match_pct FROM mechanical_approvals WHERE fixture_id = ?1",
        fixture_id,
    )
}

/// Asks for the last run.
pub fn latest_run() -> (r: Statement)
    ensures
        r.sql@
            == "SELECT run_id, timestamp, commit, dirty FROM mechanical_runs ORDER BY timestamp DESC LIMIT 1"@,
        sql_views(r.params@) == Seq::<SqlView>::empty(),
{
    none("SELECT run_id, timestamp, commit, dirty FROM mechanical_runs ORDER BY timestamp DESC LIMIT 1")
}

/// Asks for the results of a run.
pub fn run_results(run_id: &str) -> (r: Statement)
    ensures
        r.sql@
            == "SELECT run_id, fixture_id, pixel_diff_pct, element_match_pct, status, artifact_dir FROM mechanical_results WHERE run_id = ?1"@,
        sql_views(r.params@) == seq![SqlView::Text(run_id@)],
{
    one(
        "SELECT run_id, fixture_id, pixel_diff_pct, element_match_pct, status, artifact_dir FROM mechanical_results WHERE run_id = ?1",
        run_id,
    )
}

/// Asks for everything that was approved.
pub fn all_approvals() -> (r: Statement)
    ensures
        r.sql@
            == "SELECT fixture_id, approved_at, commit, pixel_diff_pct, element_match_pct FROM mechanical_approvals ORDER BY fixture_id"@,
        sql_views(r.params@) == Seq::<SqlView>::empty(),
{
    none(
        "SELECT fixture_id, approved_at, commit, pixel_diff_pct, element_match_pct FROM mechanical_approvals ORDER BY fixture_id",
    )
}

/// Asks for the last result of a fixture.
pub fn latest_result_for_fixture(fixture_id: &str) -> (r: Statement)
    ensures
        r.sql@
            == "SELECT r.run_id, r.fixture_id, r.pixel_diff_pct, r.element_match_pct, r.status, r.artifact_dir FROM mechanical_results r JOIN mechanical_runs mr ON mr.run_id = r.run_id WHERE r.fixture_id = ?1 ORDER BY mr.timestamp DESC LIMIT 1"@,
        sql_views(r.params@) == seq![SqlView::Text(fixture_id@)],
{
    one(
        "SELECT r.run_id, r.fixture_id, r.pixel_diff_pct, r.element_match_pct, r.status, r.artifact_dir FROM mechanical_results r JOIN mechanical_runs mr ON mr.run_id = r.run_id WHERE r.fixture_id = ?1 ORDER BY mr.timestamp DESC LIMIT 1",
        fixture_id,
    )
}

} // verus!
