//! The manual: its topics, and the sections of an article.

use brokkr::error::DevError;
use brokkr::man::sections::{find, merge, parse_heading, sections, slugify};
use brokkr::man::{list_topics, run, topics, visible, Page};
use brokkr::project::Project;

#[test]
fn topic_names_are_unique() {
    let all = topics();
    let mut names: Vec<&str> = all.iter().map(|t| t.name).collect();
    names.sort_unstable();
    let before = names.len();
    names.dedup();
    assert_eq!(before, names.len(), "duplicate topic name");
}

#[test]
fn generic_topics_survive_every_project() {
    for project in [
        Project::Pbfhogg,
        Project::Piners,
        Project::Litehtml,
        Project::Other("some-foreign-repo"),
    ] {
        let shown = visible(project);
        let names: Vec<&str> = shown.iter().map(|t| t.name).collect();
        for expected in ["check", "clippy", "deps", "config", "measure"] {
            assert!(names.contains(&expected), "`{expected}` missing in {project:?}");
        }
    }
}

#[test]
fn scoped_topics_stay_in_their_project() {
    let shown = visible(Project::Piners);
    let piners: Vec<&str> = shown.iter().map(|t| t.name).collect();
    assert!(piners.contains(&"corpus"));
    assert!(!piners.contains(&"pbfhogg"));

    let shown = visible(Project::Pbfhogg);
    let pbfhogg: Vec<&str> = shown.iter().map(|t| t.name).collect();
    assert!(pbfhogg.contains(&"pbfhogg"));
    assert!(!pbfhogg.contains(&"corpus"));
}

#[test]
fn other_project_listing_is_not_empty() {
    let out = list_topics(Project::Other("some-foreign-repo"));
    assert!(out.contains("check"), "{out}");
    assert!(!out.contains("corpus"), "{out}");
}

#[test]
fn empty_project_header_has_no_dangling_space() {
    let out = list_topics(Project::Other(""));
    assert!(
        out.starts_with("Bundled docs. Run `brokkr man <topic>`"),
        "clean header without a stray space: {out:?}"
    );
    assert!(!out.contains(" for . "), "no empty 'for X' clause: {out:?}");
    assert!(out.contains("check"), "generic topics still listed: {out}");
}

const DOC: &str = "\
# Title

intro

## `[[script_check]]` array

body

### `stage`

more

## `clippy` phase

```sh
## not a heading
```

### `[clippy] allow`

### `[clippy] allow_exact`

## Per-sweep log lines (collapsed by default)

tail
";

#[test]
fn slugs_keep_underscores_and_collapse_the_rest() {
    assert_eq!(slugify("`[[script_check]]` array"), "script_check");
    assert_eq!(slugify("`[clippy] allow_exact`"), "clippy-allow_exact");
    assert_eq!(slugify("`certifies` and exit codes"), "certifies-and-exit-codes");
}

#[test]
fn shape_words_and_parenthesised_tails_drop() {
    assert_eq!(slugify("`[gremlins]` section"), "gremlins");
    assert_eq!(slugify("`coverage` phase (complete profiles)"), "coverage");
    assert_eq!(slugify("Per-sweep log lines (collapsed by default)"), "per-sweep-log-lines");
    assert_eq!(slugify("Doctests"), "doctests");
    assert_eq!(slugify("`stage`"), "stage");
}

#[test]
fn fenced_hashes_are_not_headings() {
    let secs = sections(DOC);
    let slugs: Vec<&str> = secs.iter().map(|s| s.slug.as_str()).collect();
    assert_eq!(
        slugs,
        [
            "script_check",
            "script_check-stage",
            "clippy",
            "clippy-allow",
            "clippy-allow_exact",
            "per-sweep-log-lines",
        ]
    );
}

#[test]
fn a_parent_section_contains_its_children() {
    let secs = sections(DOC);
    let clippy = find(&secs, "clippy").unwrap();
    let body = &DOC[clippy.start..clippy.end];
    assert!(body.contains("allow_exact"), "{body}");
    assert!(!body.contains("Per-sweep"), "{body}");
}

#[test]
fn prefix_and_substring_both_resolve() {
    let secs = sections(DOC);
    assert_eq!(find(&secs, "script").unwrap().slug, "script_check");
    assert_eq!(find(&secs, "log lines").unwrap().slug, "per-sweep-log-lines");
}

#[test]
fn a_subsection_is_reachable_through_its_parent_or_its_own_name() {
    let secs = sections(DOC);
    assert_eq!(find(&secs, "script_check-stage").unwrap().slug, "script_check-stage");
    assert_eq!(find(&secs, "stage").unwrap().slug, "script_check-stage");
}

#[test]
fn ambiguity_between_siblings_is_reported() {
    let secs = sections(DOC);
    let err = find(&secs, "allow").unwrap_err();
    assert!(err.contains("clippy-allow"), "{err}");
    assert!(err.contains("clippy-allow_exact"), "{err}");
}

#[test]
fn merge_orders_by_document_position() {
    let secs = sections(DOC);
    let hits = vec![
        find(&secs, "log lines").unwrap(),
        find(&secs, "script_check").unwrap(),
    ];
    let slugs: Vec<&str> = merge(hits).iter().map(|s| s.slug.as_str()).collect();
    assert_eq!(slugs, ["script_check", "per-sweep-log-lines"]);
}

#[test]
fn merge_drops_a_section_its_neighbour_contains() {
    let secs = sections(DOC);
    let hits = vec![
        find(&secs, "allow_exact").unwrap(),
        find(&secs, "clippy").unwrap(),
        find(&secs, "allow_exact").unwrap(),
    ];
    let slugs: Vec<&str> = merge(hits).iter().map(|s| s.slug.as_str()).collect();
    assert_eq!(slugs, ["clippy"]);
}

#[test]
fn an_unknown_section_says_so() {
    let secs = sections(DOC);
    assert!(find(&secs, "nonesuch").unwrap_err().contains("no section"));
}

#[test]
fn a_topic_is_shown_where_it_is_visible() {
    assert!(matches!(run(None, Project::Piners), Ok(Page::Listing(_))));
    assert!(matches!(run(Some("check"), Project::Other("")), Ok(Page::Article(t)) if t.name == "check"));
    let Err(DevError::Config(m)) = run(Some("nope"), Project::Piners) else {
        panic!("expected DevError::Config");
    };
    assert!(m.starts_with("unknown man topic 'nope'"), "{m}");
    assert!(run(Some("corpus"), Project::Pbfhogg).is_err());
}

#[test]
fn headings_are_read() {
    assert_eq!(parse_heading("## A b "), Some((2, "A b".to_string())));
    assert_eq!(parse_heading("##A"), None);
    assert_eq!(parse_heading("text"), None);
}

#[test]
fn a_first_level_heading_ends_a_section() {
    let all = sections("## A\nx\n# B\ny\n");
    assert_eq!(all.len(), 1);
    assert_eq!((all[0].level, all[0].slug.as_str(), all[0].start, all[0].end), (2, "a", 0, 7));
    let all = sections("# T\n## A\n### b\n```\n# no\n```\n# B\n### c\n");
    let found: Vec<(u8, &str, usize, usize)> =
        all.iter().map(|s| (s.level, s.slug.as_str(), s.start, s.end)).collect();
    assert_eq!(found, vec![(2, "a", 4, 28), (3, "a-b", 9, 28), (3, "a-c", 32, 38)]);
}

#[test]
fn sections_hold_whole_lines_and_nest() {
    let text = "## A\nx\n### B\ny\n#### C\n## D";
    let all = sections(text);
    for s in &all {
        assert!(s.start == 0 || text.as_bytes()[s.start - 1] == b'\n');
        assert!(s.end == text.len() || text.as_bytes()[s.end - 1] == b'\n');
    }
    assert!(all[0].start < all[1].start && all[1].end <= all[0].end && all[1].level > all[0].level);
    assert_eq!(all[0].end, all[2].start);
}

#[test]
fn a_bracket_that_closes_nothing_parts_words() {
    assert_eq!(slugify("a)b"), "a-b");
    assert_eq!(slugify("a(x)b"), "a-b");
    assert_eq!(slugify(")a"), "a");
}
