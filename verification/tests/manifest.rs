//! The order of dependencies in a manifest.

use brokkr::error::DevError;
use brokkr::manifest::{format_one, path_globs, scan, ManifestConfig, TrackedManifest};

fn violations(section_and_body: &str) -> Vec<String> {
    let files = vec![TrackedManifest {
        path: "Cargo.toml".to_string(),
        selected: true,
        excluded: false,
        content: Some(section_and_body.to_string()),
    }];
    let cfg = ManifestConfig { paths: vec![], exclude: vec![], sort_dependencies: true };
    let out = scan(&files, &cfg).unwrap();
    out.iter().map(|v| v.message.clone()).collect()
}

#[test]
fn sorted_dependencies_pass() {
    let src = "[dependencies]\nanyhow = \"1\"\nserde = \"1\"\ntokio = \"1\"\n";
    assert!(violations(src).is_empty());
}

#[test]
fn unsorted_dependencies_flagged() {
    let src = "[dependencies]\ntokio = \"1\"\nanyhow = \"1\"\n";
    let v = violations(src);
    assert_eq!(v.len(), 1);
    assert!(v[0].contains("anyhow"), "{v:?}");
}

#[test]
fn blank_line_starts_a_new_group() {
    let src = "[dependencies]\ntokio = \"1\"\nzzz = \"1\"\n\nanyhow = \"1\"\nserde = \"1\"\n";
    assert!(violations(src).is_empty());
}

#[test]
fn unsorted_within_a_later_group_flagged() {
    let src = "[dependencies]\nanyhow = \"1\"\n\nzzz = \"1\"\nserde = \"1\"\n";
    let v = violations(src);
    assert_eq!(v.len(), 1);
    assert!(v[0].contains("serde"), "{v:?}");
}

#[test]
fn dev_and_build_and_target_tables_are_checked() {
    let src = "[dev-dependencies]\nb = \"1\"\na = \"1\"\n\n\
               [target.'cfg(unix)'.dependencies]\nd = \"1\"\nc = \"1\"\n";
    let v = violations(src);
    assert_eq!(v.len(), 2);
}

#[test]
fn comment_line_without_blank_does_not_reset_group() {
    let src = "[dependencies]\nzzz = \"1\"\n# a comment\nanyhow = \"1\"\n";
    let v = violations(src);
    assert_eq!(v.len(), 1);
    assert!(v[0].contains("anyhow"), "{v:?}");
}

#[test]
fn workspace_dependencies_are_checked() {
    let src = "[workspace.dependencies]\nb = \"1\"\na = \"1\"\n";
    assert_eq!(violations(src).len(), 1);
}

#[test]
fn a_manifest_that_cannot_be_parsed_is_an_error() {
    let file = |content: &str, selected| TrackedManifest {
        path: "x/Cargo.toml".to_string(),
        selected,
        excluded: false,
        content: Some(content.to_string()),
    };
    let cfg = ManifestConfig { paths: vec![], exclude: vec![], sort_dependencies: true };
    let Err(DevError::Config(m)) = scan(&[file("[dependencies", true)], &cfg) else {
        panic!("expected DevError::Config");
    };
    assert!(m.starts_with("[manifest] x/Cargo.toml: parse error: "), "{m}");
    assert!(scan(&[file("[dependencies", false)], &cfg).unwrap().is_empty());
    let off = ManifestConfig { paths: vec![], exclude: vec![], sort_dependencies: false };
    assert!(scan(&[file("[dependencies]\nb = \"1\"\na = \"1\"\n", true)], &off).unwrap().is_empty());
    let found = scan(&[file("[dependencies]\nB = \"1\"\na = \"1\"\n", true)], &cfg).unwrap();
    assert_eq!(found.len(), 1);
    assert!(format_one(&found[0]).starts_with("x/Cargo.toml: ["));
    assert_eq!(path_globs(&cfg), vec!["**/Cargo.toml"]);
}
