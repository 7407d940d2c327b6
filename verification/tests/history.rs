//! The history of commands, in a database in memory.

use brokkr::harness::GitInfo;
use brokkr::history::{
    db_path, format_history, has_place, insert, needs_migration, query, record_history, HistoryEntry, HistoryFilter,
    HistoryRow, SqlValue, Statement, Surroundings, CREATE_INDEXES, CREATE_TABLE, SCHEMA_VERSION,
};
use rusqlite::types::Value;
use rusqlite::{params_from_iter, Connection};

fn test_db() -> Connection {
    let conn = Connection::open_in_memory().unwrap();
    conn.pragma_update(None, "journal_mode", "WAL").ok();
    conn.execute_batch(CREATE_TABLE).unwrap();
    conn.execute_batch(CREATE_INDEXES).unwrap();
    conn.pragma_update(None, "user_version", SCHEMA_VERSION).unwrap();
    conn
}

fn values(statement: &Statement) -> Vec<Value> {
    statement
        .params
        .iter()
        .map(|p| match p {
            SqlValue::Null => Value::Null,
            SqlValue::Text(t) => Value::Text(t.clone()),
            SqlValue::Int(n) => Value::Integer(*n),
            SqlValue::Real(x) => Value::Real(f64::from_bits(x.to_bits())),
        })
        .collect()
}

fn insert_row(db: &Connection, row: &HistoryRow) {
    let statement = insert(row);
    db.execute(&statement.sql, params_from_iter(values(&statement))).unwrap();
}

fn query_rows(db: &Connection, filter: &HistoryFilter) -> Vec<HistoryEntry> {
    let statement = query(filter);
    let mut prepared = db.prepare(&statement.sql).unwrap();
    let rows = prepared
        .query_map(params_from_iter(values(&statement)), |row| {
            Ok(HistoryEntry {
                id: row.get(0)?,
                timestamp: row.get(1)?,
                project: row.get(2)?,
                cwd: row.get(3)?,
                command: row.get(4)?,
                elapsed_ms: row.get(5)?,
                exit_status: row.get(6)?,
                hostname: row.get(7)?,
                commit_hash: row.get(8)?,
                dirty: row.get(9)?,
                kernel: row.get(10)?,
                avail_memory_mb: row.get(11)?,
            })
        })
        .unwrap();
    rows.map(|r| r.unwrap()).collect()
}

fn make_row(command: &str, exit_status: i32) -> HistoryRow {
    HistoryRow {
        project: Some("pbfhogg".into()),
        cwd: "/home/folk/Programs/pbfhogg".into(),
        command: command.into(),
        elapsed_ms: 1234,
        exit_status,
        hostname: "testhost".into(),
        commit_hash: Some("abc123".into()),
        dirty: Some(false),
        kernel: Some("6.18.0".into()),
        avail_memory_mb: Some(16000),
    }
}

#[test]
fn insert_and_query_basic() {
    let db = test_db();
    insert_row(&db, &make_row("bench self --runs 3", 0));
    insert_row(&db, &make_row("check", 1));

    let filter = HistoryFilter {
        command: None,
        project: None,
        failed: false,
        since: None,
        slow_ms: None,
        limit: 25,
        all: false,
    };
    let entries = query_rows(&db, &filter);
    assert_eq!(entries.len(), 2);
    assert_eq!(entries[0].command, "check");
    assert_eq!(entries[1].command, "bench self --runs 3");
}

#[test]
fn filter_by_command() {
    let db = test_db();
    insert_row(&db, &make_row("bench self", 0));
    insert_row(&db, &make_row("check", 0));
    insert_row(&db, &make_row("bench read", 0));

    let filter = HistoryFilter {
        command: Some("bench".into()),
        project: None,
        failed: false,
        since: None,
        slow_ms: None,
        limit: 25,
        all: false,
    };
    let entries = query_rows(&db, &filter);
    assert_eq!(entries.len(), 2);
}

#[test]
fn filter_by_project() {
    let db = test_db();
    insert_row(&db, &make_row("check", 0));

    let mut row = make_row("check", 0);
    row.project = Some("elivagar".into());
    insert_row(&db, &row);

    let filter = HistoryFilter {
        command: None,
        project: Some("elivagar".into()),
        failed: false,
        since: None,
        slow_ms: None,
        limit: 25,
        all: false,
    };
    let entries = query_rows(&db, &filter);
    assert_eq!(entries.len(), 1);
    assert_eq!(entries[0].project.as_deref(), Some("elivagar"));
}

#[test]
fn filter_failed_only() {
    let db = test_db();
    insert_row(&db, &make_row("check", 0));
    insert_row(&db, &make_row("bench self", 1));

    let filter = HistoryFilter {
        command: None,
        project: None,
        failed: true,
        since: None,
        slow_ms: None,
        limit: 25,
        all: false,
    };
    let entries = query_rows(&db, &filter);
    assert_eq!(entries.len(), 1);
    assert_eq!(entries[0].command, "bench self");
}

#[test]
fn limit_respected() {
    let db = test_db();
    for i in 0..10 {
        insert_row(&db, &make_row(&format!("cmd{i}"), 0));
    }

    let filter = HistoryFilter {
        command: None,
        project: None,
        failed: false,
        since: None,
        slow_ms: None,
        limit: 3,
        all: false,
    };
    let entries = query_rows(&db, &filter);
    assert_eq!(entries.len(), 3);
}

#[test]
fn all_ignores_limit() {
    let db = test_db();
    for i in 0..10 {
        insert_row(&db, &make_row(&format!("cmd{i}"), 0));
    }

    let filter = HistoryFilter {
        command: None,
        project: None,
        failed: false,
        since: None,
        slow_ms: None,
        limit: 3,
        all: true,
    };
    let entries = query_rows(&db, &filter);
    assert_eq!(entries.len(), 10);
}

#[test]
fn format_history_empty() {
    assert_eq!(format_history(&[]), "no history entries");
}

#[test]
fn format_history_shows_fail_tag() {
    let db = test_db();
    insert_row(&db, &make_row("check", 1));

    let filter = HistoryFilter {
        command: None,
        project: None,
        failed: false,
        since: None,
        slow_ms: None,
        limit: 25,
        all: false,
    };
    let entries = query_rows(&db, &filter);
    let output = format_history(&entries);
    assert!(output.contains("[FAIL:1]"));
}

#[test]
fn format_elapsed_units() {
    let db = test_db();

    let mut row = make_row("fast", 0);
    row.elapsed_ms = 50;
    insert_row(&db, &row);

    let mut row = make_row("medium", 0);
    row.elapsed_ms = 5_500;
    insert_row(&db, &row);

    let mut row = make_row("slow", 0);
    row.elapsed_ms = 120_000;
    insert_row(&db, &row);

    let filter = HistoryFilter {
        command: None,
        project: None,
        failed: false,
        since: None,
        slow_ms: None,
        limit: 25,
        all: false,
    };
    let entries = query_rows(&db, &filter);
    let output = format_history(&entries);
    assert!(
        output.contains("2.0m"),
        "120s should show as minutes: {output}"
    );
    assert!(
        output.contains("5.5s"),
        "5500ms should show as seconds: {output}"
    );
    assert!(output.contains("50ms"), "50ms should show as ms: {output}");
}

#[test]
fn no_project_row() {
    let db = test_db();
    let mut row = make_row("lock", 0);
    row.project = None;
    row.commit_hash = None;
    row.dirty = None;
    insert_row(&db, &row);

    let filter = HistoryFilter {
        command: None,
        project: None,
        failed: false,
        since: None,
        slow_ms: None,
        limit: 25,
        all: false,
    };
    let entries = query_rows(&db, &filter);
    assert_eq!(entries.len(), 1);
    assert!(entries[0].project.is_none());
    let output = format_history(&entries);
    assert!(output.contains("-"), "no project should show as '-'");
}

#[test]
fn fresh_db_schema_version() {
    let db = test_db();
    let version: i64 = db
        .pragma_query_value(None, "user_version", |r| r.get(0))
        .unwrap();
    assert_eq!(version, SCHEMA_VERSION);
}

#[test]
fn db_path_uses_xdg_data_home() {
    let path = db_path(Some("/tmp/test-xdg-data"), None).unwrap();
    assert_eq!(path, "/tmp/test-xdg-data/brokkr/history.db");
}

#[test]
fn a_filter_never_becomes_part_of_the_text() {
    let filter = |command: &str| HistoryFilter {
        command: Some(command.to_string()),
        project: Some("p".to_string()),
        failed: true,
        since: Some("2026-01-01".to_string()),
        slow_ms: Some(10),
        limit: 5,
        all: false,
    };
    let plain = query(&filter("a"));
    let odd = query(&filter("'; DROP TABLE history; --"));
    assert_eq!(plain.sql, odd.sql);
    assert!(plain.sql.ends_with(
        " WHERE command LIKE ?1 AND project = ?2 AND exit_status != 0 AND timestamp >= ?3 AND elapsed_ms >= ?4 ORDER BY id DESC LIMIT 5"
    ));
    assert_eq!(odd.params.len(), 4);
}

#[test]
fn what_surrounds_a_command_is_recorded() {
    let around = Surroundings {
        project: "pbfhogg".to_string(),
        git: Some(GitInfo { commit: "abc".to_string(), subject: String::new(), is_clean: false }),
    };
    let row = record_history(
        "check",
        5,
        1,
        Some("host".to_string()),
        None,
        Some(around),
        Some("Linux version 6.18.0 (x)"),
        100,
    );
    assert_eq!(row.project.as_deref(), Some("pbfhogg"));
    assert_eq!(row.commit_hash.as_deref(), Some("abc"));
    assert_eq!(row.dirty, Some(true));
    assert_eq!(row.kernel.as_deref(), Some("6.18.0"));
    assert_eq!(row.cwd, "unknown");
    assert!(needs_migration(true, 0));
    assert!(!needs_migration(true, SCHEMA_VERSION));
    assert!(!needs_migration(false, 0));
    assert!(has_place(false, true));
    assert!(!has_place(false, false));
    assert!(db_path(None, None).is_err());
    assert_eq!(db_path(None, Some("/h")).unwrap(), "/h/.local/share/brokkr/history.db");
}
