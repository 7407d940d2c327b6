//! Comparing renderings with a reference.

use brokkr::error::DevError;
use brokkr::history::SqlValue;
use brokkr::litehtml::cmd::{
    format_pct, needs_capture, resolve_fixture, resolve_fixtures, run_fixture, run_summary, tally,
};
use brokkr::litehtml::compare::{
    compare_element_sets, delta, determine_status, is_br, is_head_path, LayoutElement,
};
use brokkr::litehtml::manifest::{Defaults, FixtureEntry, Manifest};
use brokkr::litehtml::pixels::{compare_pixels, decode_png, is_countable, to_rgba, write_diff_png, BitDepth, ColorType};
use brokkr::litehtml::report::{approve, format_status_columns, Approval, ResultRow};
use brokkr::litehtml::scripts::{extract_args, finish_fixture, outline_args, pipeline_args, require_file};
use brokkr::litehtml::store::{
    all_approvals, get_approval, insert_result, insert_run, latest_result_for_fixture, latest_run, run_results,
    set_approval, SCHEMA,
};
use brokkr::number::double::Double;

fn num(x: f64) -> Double {
    Double::from_bits(x.to_bits())
}

fn val(x: Double) -> f64 {
    f64::from_bits(x.to_bits())
}

fn el(path: &str, x: f64, y: f64, w: f64, h: f64) -> LayoutElement {
    LayoutElement {
        path: path.into(),
        tag: None,
        x: Some(num(x)),
        y: Some(num(y)),
        w: Some(num(w)),
        h: Some(num(h)),
    }
}

#[test]
fn delta_both_present() {
    assert_eq!(val(delta(Some(num(10.0)), Some(num(12.0)))), 2.0);
}

#[test]
fn delta_both_none_is_vacuous_match() {
    assert_eq!(val(delta(None, None)), 0.0);
}

#[test]
fn delta_one_sided_is_infinite() {
    assert!(val(delta(Some(num(10.0)), None)).is_infinite());
    assert!(val(delta(None, Some(num(10.0)))).is_infinite());
}

#[test]
fn head_paths_filtered() {
    assert!(is_head_path("html>head[0]>meta[0]"));
    assert!(is_head_path("html>head"));
    assert!(!is_head_path("html>body[0]>div[0]"));
}

#[test]
fn br_detected_by_tag_or_path() {
    let mut by_tag = el("html>body[0]>p[0]>span[3]", 0.0, 0.0, 0.0, 16.0);
    by_tag.tag = Some("br".into());
    assert!(is_br(&by_tag));
    assert!(is_br(&el("html>body[0]>p[0]>br[2]", 0.0, 0.0, 0.0, 16.0)));
    let mut tagged = el("html>body[0]>p[0]>br[0]", 0.0, 0.0, 0.0, 16.0);
    tagged.tag = Some("div".to_string());
    assert!(!is_br(&tagged));
    assert!(!is_br(&el("html>body[0]>p[0]>b[0]", 0.0, 0.0, 0.0, 16.0)));
    assert!(!is_br(&el("html>body[0]>broken[0]", 0.0, 0.0, 0.0, 16.0)));
}

#[test]
fn br_excluded_from_denominator() {
    let reference = vec![
        el("html", 0.0, 0.0, 800.0, 100.0),
        el("html>body[0]", 0.0, 0.0, 800.0, 100.0),
        el("html>body[0]>br[0]", 0.0, 20.0, 0.0, 16.0),
    ];
    let pipeline = vec![
        el("html", 0.0, 0.0, 800.0, 100.0),
        el("html>body[0]", 0.0, 0.0, 800.0, 100.0),
    ];
    let r = compare_element_sets(&pipeline, &reference);
    assert_eq!(r.total_elements, 2);
    assert_eq!(val(r.match_pct), 100.0);
}

#[test]
fn zero_height_reference_skipped() {
    let reference = vec![
        el("html", 0.0, 0.0, 800.0, 100.0),
        el("html>body[0]>table[0]>tbody[0]", 0.0, 50.0, 600.0, 0.0),
    ];
    let pipeline = vec![
        el("html", 0.0, 0.0, 800.0, 100.0),
        el("html>body[0]>table[0]>tbody[0]", 0.0, 0.0, 0.0, 0.0),
    ];
    let r = compare_element_sets(&pipeline, &reference);
    assert_eq!(r.total_elements, 1);
    assert_eq!(val(r.match_pct), 100.0);
}

#[test]
fn parent_relative_immune_to_document_drift() {
    let reference = vec![
        el("html", 0.0, 0.0, 800.0, 10000.0),
        el("html>body[0]", 0.0, 0.0, 800.0, 10000.0),
        el("html>body[0]>div[0]", 0.0, 5000.0, 800.0, 100.0),
        el("html>body[0]>div[0]>p[0]", 10.0, 5010.0, 780.0, 20.0),
    ];
    let pipeline = vec![
        el("html", 0.0, 0.0, 800.0, 10004.0),
        el("html>body[0]", 0.0, 0.0, 800.0, 10004.0),
        el("html>body[0]>div[0]", 0.0, 5006.0, 800.0, 100.0),
        el("html>body[0]>div[0]>p[0]", 10.0, 5016.0, 780.0, 20.0),
    ];
    let r = compare_element_sets(&pipeline, &reference);
    assert_eq!(r.total_elements, 4);
    assert_eq!(r.passing_elements, 3);
    assert_eq!(r.offenders.len(), 1);
    assert_eq!(r.offenders[0].path, "html>body[0]>div[0]");
    assert_eq!(val(r.offenders[0].dy), 6.0);
}

#[test]
fn root_falls_back_to_absolute() {
    let reference = vec![el("html", 0.0, 0.0, 800.0, 100.0)];
    let pipeline = vec![el("html", 0.0, 10.0, 800.0, 100.0)];
    let r = compare_element_sets(&pipeline, &reference);
    assert_eq!(r.passing_elements, 0);
    assert_eq!(val(r.offenders[0].dy), 10.0);
}

#[test]
fn offenders_sorted_worst_first() {
    let reference = vec![
        el("html", 0.0, 0.0, 800.0, 100.0),
        el("html>body[0]", 0.0, 0.0, 800.0, 100.0),
        el("html>body[0]>a[0]", 0.0, 10.0, 100.0, 20.0),
        el("html>body[0]>b[0]", 0.0, 40.0, 100.0, 20.0),
    ];
    let pipeline = vec![
        el("html", 0.0, 0.0, 800.0, 100.0),
        el("html>body[0]", 0.0, 0.0, 800.0, 100.0),
        el("html>body[0]>a[0]", 0.0, 14.0, 100.0, 20.0),
        el("html>body[0]>b[0]", 0.0, 40.0, 170.0, 20.0),
    ];
    let r = compare_element_sets(&pipeline, &reference);
    assert_eq!(r.offenders.len(), 2);
    assert_eq!(r.offenders[0].path, "html>body[0]>b[0]");
    assert_eq!(val(r.offenders[0].dw), 70.0);
    assert_eq!(r.offenders[1].path, "html>body[0]>a[0]");
    assert_eq!(val(r.offenders[1].dy), 4.0);
}

#[test]
fn chrome_only_counts_against_score() {
    let reference = vec![
        el("html", 0.0, 0.0, 800.0, 100.0),
        el("html>body[0]", 0.0, 0.0, 800.0, 50.0),
    ];
    let pipeline = vec![el("html", 0.0, 0.0, 800.0, 100.0)];
    let r = compare_element_sets(&pipeline, &reference);
    assert_eq!(r.total_elements, 2);
    assert_eq!(r.passing_elements, 1);
    assert_eq!(val(r.match_pct), 50.0);
    assert!(r.offenders.is_empty());
}

#[test]
fn determine_status_pass() {
    let s = determine_status(num(5.0), Some(num(90.0)), num(10.0), Some(num(80.0)), false, None, None);
    assert_eq!(s.as_str(), "PASS");
}

#[test]
fn determine_status_fail_pixel() {
    let s = determine_status(num(15.0), Some(num(90.0)), num(10.0), Some(num(80.0)), false, None, None);
    assert_eq!(s.as_str(), "FAIL_THRESHOLD");
}

#[test]
fn determine_status_fail_element() {
    let s = determine_status(num(5.0), Some(num(70.0)), num(10.0), Some(num(80.0)), false, None, None);
    assert_eq!(s.as_str(), "FAIL_THRESHOLD");
}

#[test]
fn determine_status_expected_fail() {
    let s = determine_status(num(15.0), Some(num(70.0)), num(10.0), Some(num(80.0)), true, None, None);
    assert_eq!(s.as_str(), "EXPECTED_FAIL");
}

#[test]
fn determine_status_regression() {
    let s = determine_status(num(6.0), Some(num(90.0)), num(10.0), Some(num(80.0)), false, Some(num(4.0)), None);
    assert_eq!(s.as_str(), "REGRESSION");
}

#[test]
fn determine_status_within_regression_tolerance() {
    let s = determine_status(num(4.3), Some(num(90.0)), num(10.0), Some(num(80.0)), false, Some(num(4.0)), None);
    assert_eq!(s.as_str(), "PASS");
}

#[test]
fn determine_status_element_regression() {
    let s = determine_status(num(1.0), Some(num(88.0)), num(10.0), Some(num(80.0)), false, Some(num(1.0)), Some(num(95.0)));
    assert_eq!(s.as_str(), "REGRESSION");
}

#[test]
fn determine_status_element_within_ratchet_tolerance() {
    let s = determine_status(num(1.0), Some(num(94.8)), num(10.0), Some(num(80.0)), false, Some(num(1.0)), Some(num(95.0)));
    assert_eq!(s.as_str(), "PASS");
}

#[test]
fn determine_status_element_improvement_passes() {
    let s = determine_status(num(1.0), Some(num(97.0)), num(10.0), Some(num(80.0)), false, Some(num(1.0)), Some(num(95.0)));
    assert_eq!(s.as_str(), "PASS");
}

#[test]
fn to_rgba_rgb_input() {
    let rgb = vec![255, 0, 0, 0, 255, 0];
    let rgba = to_rgba(&rgb, ColorType::Rgb, BitDepth::Eight).expect("convert");
    assert_eq!(rgba, vec![255, 0, 0, 255, 0, 255, 0, 255]);
}

#[test]
fn to_rgba_grayscale_input() {
    let gray = vec![128, 64];
    let rgba =
        to_rgba(&gray, ColorType::Grayscale, BitDepth::Eight).expect("convert");
    assert_eq!(rgba, vec![128, 128, 128, 255, 64, 64, 64, 255]);
}

fn file(width: u32, height: u32, rgba: &[u8]) -> Vec<u8> {
    write_diff_png(width, height, rgba).unwrap()
}

#[test]
fn images_are_read_back() {
    let rgba = [1, 2, 3, 255, 5, 6, 7, 128];
    let bytes = file(2, 1, &rgba);
    assert_ne!(bytes, rgba);
    let img = decode_png("a.png", &bytes).unwrap();
    assert_eq!((img.width, img.height, img.rgba.as_slice()), (2, 1, rgba.as_slice()));
    let Err(DevError::Verify(m)) = decode_png("a.png", b"no image") else {
        panic!("expected DevError::Verify");
    };
    assert!(m.contains("a.png"), "{m}");
    assert!(write_diff_png(0, 0, &[]).is_err());
    assert!(is_countable(0, u32::MAX) && is_countable(1000, 1000));
    assert!(!is_countable(u32::MAX, u32::MAX));
    assert!(to_rgba(&[0], ColorType::Rgb, BitDepth::Sixteen).is_err());
    assert!(to_rgba(&[0], ColorType::Indexed, BitDepth::Eight).is_err());
}

#[test]
fn differences_are_counted() {
    let a = file(2, 1, &[0, 0, 0, 255, 9, 9, 9, 255]);
    let b = file(2, 1, &[0, 0, 0, 255, 200, 9, 9, 255]);
    let same = compare_pixels("a", &a, "a", &a).unwrap().unwrap();
    assert_eq!((same.result.diff_pixels, val(same.result.diff_pct)), (0, 0.0));
    let one = compare_pixels("a", &a, "b", &b).unwrap().unwrap();
    let other = compare_pixels("b", &b, "a", &a).unwrap().unwrap();
    assert_eq!((one.result.diff_pixels, one.result.total_pixels), (1, 2));
    assert_eq!(val(one.result.diff_pct), 50.0);
    assert_eq!(one.result.diff_pixels, other.result.diff_pixels);
    let tall = file(1, 2, &[0, 0, 0, 255, 0, 0, 0, 255]);
    let sized = compare_pixels("a", &a, "t", &tall).unwrap().unwrap();
    assert_eq!((sized.width, sized.height), (2, 2));
}

fn fixture(id: &str, tags: &[&str]) -> FixtureEntry {
    FixtureEntry {
        id: id.to_string(),
        path: format!("{id}.html"),
        tags: tags.iter().map(|t| t.to_string()).collect(),
        viewport_width: None,
        mode: None,
        pixel_diff_threshold: None,
        element_match_threshold: None,
        expected: "pass".to_string(),
        waive_element_threshold: false,
        notes: None,
    }
}

fn defaults() -> Defaults {
    Defaults {
        viewport_width: 800,
        mode: "ahem".to_string(),
        pixel_diff_threshold: num(10.0),
        element_match_threshold: num(80.0),
        fallback_aspect_ratio: None,
    }
}

#[test]
fn fixtures_are_found_by_prefix() {
    let manifest = Manifest {
        defaults: defaults(),
        fixtures: vec![fixture("table-a", &["t"]), fixture("table-b", &["t", "x"]), fixture("flex", &[])],
    };
    assert_eq!(resolve_fixture(&manifest, "fl").unwrap().id, "flex");
    let Err(DevError::Config(m)) = resolve_fixture(&manifest, "table") else {
        panic!("expected DevError::Config");
    };
    assert_eq!(m, "ambiguous fixture prefix 'table', matches: table-a, table-b");
    let Err(DevError::Config(m)) = resolve_fixture(&manifest, "grid") else {
        panic!("expected DevError::Config");
    };
    assert_eq!(m, "fixture not found: grid");
    assert_eq!(resolve_fixtures(&manifest, None, Some("x"), false).unwrap().len(), 1);
    assert_eq!(resolve_fixtures(&manifest, None, None, true).unwrap().len(), 3);
    assert_eq!(manifest.fixture_by_path("flex.html").unwrap().id, "flex");
}

#[test]
fn a_fixture_ends_in_one_way() {
    let f = fixture("a", &[]);
    let d = defaults();
    let missing = run_fixture(&f, &d, false, true, Some(num(1.0)), None, None, None);
    assert_eq!(missing.status.as_str(), "ERROR");
    let good = run_fixture(&f, &d, true, true, Some(num(1.0)), Some(num(90.0)), Some(num(1.0)), None);
    assert_eq!(good.status.as_str(), "PASS");
    let bad = run_fixture(&f, &d, true, true, Some(num(50.0)), Some(num(90.0)), None, None);
    assert_eq!(bad.status.as_str(), "FAIL_THRESHOLD");
    let t = tally(&[good.status, bad.status, missing.status]);
    assert_eq!((t.passed, t.failed, t.error), (1, 1, 1));
    let (line, outcome) = run_summary(&t);
    assert_eq!(line, "  1 passed, 1 failed, 1 error");
    assert!(matches!(outcome, Err(DevError::ExitCode(1))));
    assert_eq!(format_pct(Some(num(12.345)), 1), "12.3%");
    assert!(needs_capture(false, false));
    assert!(!needs_capture(true, false));
}

#[test]
fn approvals_need_a_clean_tree_and_a_result() {
    let row = ResultRow {
        run_id: "r".to_string(),
        fixture_id: "a".to_string(),
        pixel_diff_pct: Some(num(2.0)),
        element_match_pct: None,
        status: "PASS".to_string(),
        artifact_dir: None,
    };
    assert!(approve("a", false, &None).is_err());
    assert!(approve("a", true, &None).is_err());
    let latest = Some(row);
    let (pixel, element) = approve("a", true, &latest).unwrap();
    assert_eq!((val(pixel), element.is_none()), (2.0, true));
    let approval = Approval {
        fixture_id: "a".to_string(),
        approved_at: "now".to_string(),
        commit: "c".to_string(),
        pixel_diff_pct: num(5.0),
        element_match_pct: None,
    };
    let (px, change, remark) = format_status_columns(&latest, Some(&approval));
    assert_eq!((px.as_str(), change.as_str(), remark.as_str()), ("2.0%", "-3.0%", " (improved)"));
    let (_, _, remark) = format_status_columns(&latest, None);
    assert_eq!(remark, " (unapproved)");
}

#[test]
fn scripts_get_their_arguments() {
    assert_eq!(
        pipeline_args(&fixture("a", &[]), &defaults(), "a.html", "/o"),
        vec!["a.html", "--output-dir", "/o", "--fixture"]
    );
    assert_eq!(outline_args("s", "i", 3, true, false), vec!["s", "outline", "i", "--depth", "3", "--full"]);
    assert!(extract_args("s", "i", "/i", "/o", None, Some("a"), None).is_err());
    let Ok((_, line)) = extract_args("s", "i", "/i", "/o", Some(".x"), None, None) else {
        panic!("expected arguments");
    };
    assert_eq!(line, "extracting '.x' from i");
    let Err(DevError::Verify(m)) = finish_fixture("capture", "a", false, b"bad\xff") else {
        panic!("expected DevError::Verify");
    };
    assert_eq!(m, "capture failed for a: bad\u{fffd}");
    assert!(require_file("manifest", "/m", false).is_err());
}

#[test]
fn statements_carry_what_is_stored() {
    let run = insert_run("r1", "abc", true);
    assert_eq!(run.sql, "INSERT INTO mechanical_runs (run_id, commit, dirty) VALUES (?1, ?2, ?3)");
    assert!(matches!(run.params.as_slice(), [SqlValue::Text(r), SqlValue::Text(c), SqlValue::Int(1)] if r == "r1" && c == "abc"));
    let result = insert_result("r1", "a", Some(num(1.5)), None, "PASS", None);
    assert_eq!(result.params.len(), 6);
    assert!(matches!(result.params[2], SqlValue::Real(x) if val(x) == 1.5));
    assert!(matches!(result.params[3], SqlValue::Null));
    let approval = set_approval("a", "abc", num(1.5), Some(num(90.0)));
    assert!(approval.sql.starts_with("INSERT OR REPLACE INTO mechanical_approvals"));
    assert!(matches!(approval.params[3], SqlValue::Real(x) if val(x) == 90.0));
    for one in [get_approval("a"), run_results("a"), latest_result_for_fixture("a")] {
        assert!(one.sql.contains("= ?1"), "{}", one.sql);
        assert!(matches!(one.params.as_slice(), [SqlValue::Text(t)] if t == "a"));
    }
    assert!(latest_run().params.is_empty());
    assert!(all_approvals().params.is_empty());
    assert!(SCHEMA.contains("mechanical_results"));
}
