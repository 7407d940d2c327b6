//! Deleting stored results.

use brokkr::error::DevError;
use brokkr::invalidate::{
    collect, deleted_line, descriptor, preview_head, preview_line, short_uuid, start, verdict, Selector, Start,
    StoredRow, Verdict,
};

fn texts(list: &[&str]) -> Vec<String> {
    list.iter().map(|t| t.to_string()).collect()
}

#[test]
fn a_prefix_of_an_identifier_goes_first() {
    assert!(matches!(start(true, false, Some("ab"), Some("cd")), Ok(Start::Search(Selector::Uuid(u))) if u == "ab"));
    assert!(matches!(start(false, true, None, Some("cd")), Ok(Start::Search(Selector::Commit(c))) if c == "cd"));
    assert!(matches!(
        start(false, false, None, None),
        Ok(Start::Nothing("no results.db or sidecar.db found - nothing to invalidate"))
    ));
    let Err(DevError::Config(m)) = start(true, true, None, None) else {
        panic!("expected DevError::Config");
    };
    assert_eq!(m, "invalidate: supply a UUID prefix or --commit <hash>");
    assert_eq!(descriptor(&Selector::Uuid("ab".to_string())), "uuid prefix 'ab'");
    assert_eq!(descriptor(&Selector::Commit("cd".to_string())), "commit prefix 'cd'");
}

#[test]
fn targets_are_sorted_and_occur_once() {
    let by_commit = Selector::Commit("x".to_string());
    let by_uuid = Selector::Uuid("x".to_string());
    let results = texts(&["c", "", "a", "c"]);
    let sidecar = texts(&["b", "a"]);
    assert_eq!(collect(&by_commit, &results, &sidecar), vec!["a", "b", "c"]);
    assert_eq!(collect(&by_uuid, &results, &sidecar), vec!["", "a", "b", "c"]);
    assert_eq!(collect(&by_commit, &[], &texts(&[""])), vec![""]);
}

#[test]
fn the_preview_shows_the_start_of_each() {
    assert_eq!(short_uuid("0123456789"), "01234567");
    assert_eq!(short_uuid("0123"), "0123");
    assert_eq!(short_uuid("012345\u{e9}89"), "012345\u{e9}");
    let row = StoredRow {
        commit: "abcdef0123".to_string(),
        command: "read".to_string(),
        mode: String::new(),
        elapsed_ms: 42,
    };
    assert_eq!(
        preview_line("0123456789", Some(&row), true),
        "  01234567  abcdef01 read - (elapsed 42ms) [+sidecar]"
    );
    assert_eq!(preview_line("01", None, false), "  01  (sidecar-only, no results row)");
    assert_eq!(preview_head(2, "uuid prefix 'ab'"), "2 UUID(s) match uuid prefix 'ab':");
}

#[test]
fn nothing_goes_without_force() {
    assert!(matches!(verdict(&[], "d", true), Verdict::NoMatch(m) if m == "no matching rows for d"));
    assert!(matches!(
        verdict(&texts(&["a"]), "d", false),
        Verdict::Preview("dry-run - re-run with -f / --force to delete")
    ));
    assert!(matches!(verdict(&texts(&["a"]), "d", true), Verdict::Delete));
    assert_eq!(deleted_line(2, 1), "deleted 2 results row(s), 1 sidecar session(s)");
}
