//! The header of source files.

use brokkr::header::{expand, format_one, scan, TrackedFile};

#[test]
fn expands_year_placeholder() {
    assert_eq!(
        expand("Copyright (C) 2015-{year}", 2026),
        "Copyright (C) 2015-2026"
    );
    assert_eq!(expand("SPDX-License-Identifier: MIT", 2026), "SPDX-License-Identifier: MIT");
}


#[test]
fn files_without_the_header_are_listed() {
    let file = |path: &str, selected, exempt, content: Option<&str>| TrackedFile {
        path: path.to_string(),
        selected,
        exempt,
        content: content.map(str::to_string),
    };
    let files = vec![
        file("a.rs", true, false, Some("// (C) 2026 x\n")),
        file("b.rs", true, false, Some("// (C) 2025 x\n")),
        file("c.rs", true, true, Some("")),
        file("d.rs", false, false, Some("")),
        file("e.rs", true, false, None),
    ];
    let found = scan(&files, "(C) {year}", 2026);
    assert_eq!(found.len(), 1);
    assert_eq!(
        format_one(&found[0], "(C) 2026"),
        "b.rs: missing or stale header (expected `(C) 2026`)"
    );
}
