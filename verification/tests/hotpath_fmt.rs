//! Reports and differences of profiles.

use brokkr::db::{HotpathData, HotpathFunction};
use brokkr::hotpath_fmt::{
    detect_percentile_keys, format_change_str, format_hotpath_report, format_section_diff,
};

fn parse_metric(s: &str) -> Option<f64> {
    brokkr::hotpath_fmt::parse_metric(s).map(|x| f64::from_bits(x.to_bits()))
}

#[test]
fn parse_metric_duration_ns() {
    let v = parse_metric("500 ns").unwrap();
    assert!(
        (v - 0.0005).abs() < 1e-10,
        "500 ns should be 0.0005 ms, got {v}"
    );
}

#[test]
fn parse_metric_duration_us() {
    let v = parse_metric("1.5 \u{b5}s").unwrap();
    assert!(
        (v - 0.0015).abs() < 1e-10,
        "1.5 \u{b5}s should be 0.0015 ms, got {v}"
    );
}

#[test]
fn parse_metric_duration_ms() {
    let v = parse_metric("42.3 ms").unwrap();
    assert!(
        (v - 42.3).abs() < 1e-10,
        "42.3 ms should be 42.3 ms, got {v}"
    );
}

#[test]
fn parse_metric_duration_s() {
    let v = parse_metric("2.5 s").unwrap();
    assert!(
        (v - 2500.0).abs() < 1e-10,
        "2.5 s should be 2500 ms, got {v}"
    );
}

#[test]
fn parse_metric_bytes_b() {
    let v = parse_metric("100 B").unwrap();
    assert!(
        (v - 100.0).abs() < 1e-10,
        "100 B should be 100 bytes, got {v}"
    );
}

#[test]
fn parse_metric_bytes_kb() {
    let v = parse_metric("2 KB").unwrap();
    assert!(
        (v - 2048.0).abs() < 1e-10,
        "2 KB should be 2048 bytes, got {v}"
    );
}

#[test]
fn parse_metric_bytes_mb() {
    let v = parse_metric("1 MB").unwrap();
    assert!(
        (v - 1_048_576.0).abs() < 1e-10,
        "1 MB should be 1048576 bytes, got {v}"
    );
}

#[test]
fn parse_metric_bytes_gb() {
    let v = parse_metric("1.5 GB").unwrap();
    let expected = 1.5 * 1_073_741_824.0;
    assert!(
        (v - expected).abs() < 1.0,
        "1.5 GB should be {expected} bytes, got {v}"
    );
}

#[test]
fn parse_metric_percentage() {
    let v = parse_metric("99.2%").unwrap();
    assert!((v - 99.2).abs() < 1e-10, "99.2% should be 99.2, got {v}");
}

#[test]
fn parse_metric_percentage_with_space_before_pct() {
    let v = parse_metric("42.5 %").unwrap();
    assert!(
        (v - 42.5).abs() < 1e-10,
        "42.5 % should parse as 42.5, got {v}"
    );
}

#[test]
fn parse_metric_empty_string() {
    assert!(
        parse_metric("").is_none(),
        "empty string should return None"
    );
}

#[test]
fn parse_metric_whitespace_only() {
    assert!(
        parse_metric("   ").is_none(),
        "whitespace-only should return None"
    );
}

#[test]
fn parse_metric_no_space_between_number_and_unit() {
    assert!(
        parse_metric("42ms").is_none(),
        "no-space metric should return None"
    );
}

#[test]
fn parse_metric_unknown_unit() {
    assert!(
        parse_metric("10 furlongs").is_none(),
        "unknown unit should return None"
    );
}

#[test]
fn parse_metric_leading_trailing_whitespace() {
    let v = parse_metric("  42.3 ms  ").unwrap();
    assert!(
        (v - 42.3).abs() < 1e-10,
        "trimmed '42.3 ms' should parse, got {v}"
    );
}

#[test]
fn parse_metric_negative_number() {
    let v = parse_metric("-5 ms").unwrap();
    assert!((v - (-5.0)).abs() < 1e-10, "-5 ms should be -5.0, got {v}");
}

#[test]
fn parse_metric_zero() {
    let v = parse_metric("0 ms").unwrap();
    assert!((v - 0.0).abs() < 1e-10, "0 ms should be 0.0, got {v}");
}

#[test]
fn parse_metric_bare_number_no_unit_no_pct() {
    assert!(
        parse_metric("42").is_none(),
        "bare number without unit should return None"
    );
}

#[test]
fn format_change_str_normal_increase() {
    let result = format_change_str(Some("100 ms"), Some("110 ms"));
    assert_eq!(result, "+10.0%", "110ms vs 100ms should be +10.0%");
}

#[test]
fn format_change_str_normal_decrease() {
    let result = format_change_str(Some("200 ms"), Some("180 ms"));
    assert_eq!(result, "-10.0%", "180ms vs 200ms should be -10.0%");
}

#[test]
fn format_change_str_no_change() {
    let result = format_change_str(Some("50 ms"), Some("50 ms"));
    assert_eq!(result, "+0.0%", "same value should be +0.0%");
}

#[test]
fn format_change_str_cross_unit() {
    let result = format_change_str(Some("500 ms"), Some("1 s"));
    assert_eq!(result, "+100.0%", "500ms -> 1s should be +100.0%");
}

#[test]
fn format_change_str_gone() {
    let result = format_change_str(Some("100 ms"), None);
    assert_eq!(result, "(gone)", "present -> absent should be (gone)");
}

#[test]
fn format_change_str_new() {
    let result = format_change_str(None, Some("100 ms"));
    assert_eq!(result, "(new)", "absent -> present should be (new)");
}

#[test]
fn format_change_str_both_none() {
    let result = format_change_str(None, None);
    assert_eq!(result, "--", "both absent should be --");
}

#[test]
fn format_change_str_unparseable_a() {
    let result = format_change_str(Some("garbage"), Some("100 ms"));
    assert_eq!(result, "--", "unparseable A should yield --");
}

#[test]
fn format_change_str_unparseable_b() {
    let result = format_change_str(Some("100 ms"), Some("garbage"));
    assert_eq!(result, "--", "unparseable B should yield --");
}

#[test]
fn format_change_str_both_unparseable() {
    let result = format_change_str(Some("foo"), Some("bar"));
    assert_eq!(result, "--", "both unparseable should yield --");
}

#[test]
fn format_change_str_near_zero_baseline() {
    let result = format_change_str(Some("0 ms"), Some("100 ms"));
    assert_eq!(
        result, "--",
        "zero baseline should yield -- to avoid division by zero"
    );
}

#[test]
fn format_change_str_byte_units() {
    let result = format_change_str(Some("1 KB"), Some("2 KB"));
    assert_eq!(result, "+100.0%", "1KB -> 2KB should be +100.0%");
}

fn make_fn(
    name: &str,
    p50: Option<&str>,
    p95: Option<&str>,
    p99: Option<&str>,
) -> HotpathFunction {
    HotpathFunction {
        section: "timing".to_string(),
        description: None,
        ordinal: 0,
        name: name.to_string(),
        calls: Some(1),
        avg: Some("1 ms".to_string()),
        total: Some("1 ms".to_string()),
        percent_total: Some("100%".to_string()),
        p50: p50.map(String::from),
        p95: p95.map(String::from),
        p99: p99.map(String::from),
    }
}

#[test]
fn detect_percentile_keys_standard() {
    let funcs = vec![make_fn(
        "foo",
        Some("0.9 ms"),
        Some("1.5 ms"),
        Some("2.0 ms"),
    )];
    let refs: Vec<&HotpathFunction> = funcs.iter().collect();
    let keys = detect_percentile_keys(&refs);
    assert_eq!(
        keys,
        vec!["p50", "p95", "p99"],
        "should find p50, p95, p99 in numeric order"
    );
}

#[test]
fn detect_percentile_keys_only_p50() {
    let funcs = vec![make_fn("bar", Some("0.5 ms"), None, None)];
    let refs: Vec<&HotpathFunction> = funcs.iter().collect();
    let keys = detect_percentile_keys(&refs);
    assert_eq!(keys, vec!["p50"], "should find only p50");
}

#[test]
fn detect_percentile_keys_no_percentiles() {
    let funcs = vec![make_fn("baz", None, None, None)];
    let refs: Vec<&HotpathFunction> = funcs.iter().collect();
    let keys = detect_percentile_keys(&refs);
    assert!(
        keys.is_empty(),
        "no percentile keys should return empty vec"
    );
}

#[test]
fn detect_percentile_keys_empty_data() {
    let refs: Vec<&HotpathFunction> = Vec::new();
    let keys = detect_percentile_keys(&refs);
    assert!(keys.is_empty(), "empty data should return empty vec");
}

#[test]
fn detect_percentile_keys_mixed_across_entries() {
    let funcs = vec![
        make_fn("a", Some("1 ms"), None, None),
        make_fn("b", None, None, Some("3 ms")),
    ];
    let refs: Vec<&HotpathFunction> = funcs.iter().collect();
    let keys = detect_percentile_keys(&refs);
    assert_eq!(
        keys,
        vec!["p50", "p99"],
        "should detect p50 from first and p99 from second"
    );
}

#[test]
fn detect_percentile_keys_p95_and_p99_only() {
    let funcs = vec![make_fn("fn", None, Some("2 ms"), Some("5 ms"))];
    let refs: Vec<&HotpathFunction> = funcs.iter().collect();
    let keys = detect_percentile_keys(&refs);
    assert_eq!(
        keys,
        vec!["p95", "p99"],
        "should find p95 and p99 without p50"
    );
}

fn make_timing_data(n: usize) -> HotpathData {
    let functions: Vec<HotpathFunction> = (0..n)
        .map(|i| HotpathFunction {
            section: "timing".to_string(),
            description: Some("wall clock".to_string()),
            ordinal: i as i64,
            name: format!("fn_{i}"),
            calls: Some((i + 1) as i64),
            avg: Some(format!("{} ms", i + 1)),
            total: Some(format!("{} ms", (i + 1) * 10)),
            percent_total: Some(format!("{}%", 100 / n)),
            p50: None,
            p95: None,
            p99: None,
        })
        .collect();
    HotpathData {
        functions,
        threads: Vec::new(),
        thread_summary: Vec::new(),
    }
}

#[test]
fn format_hotpath_report_top_zero_shows_all() {
    let data = make_timing_data(5);
    let output = format_hotpath_report(&data, 0).unwrap();
    let lines: Vec<&str> = output.lines().collect();
    assert_eq!(
        lines.len(),
        7,
        "top=0 should show all 5 data rows + 2 header lines"
    );
}

#[test]
fn format_hotpath_report_top_limits_rows() {
    let data = make_timing_data(10);
    let output = format_hotpath_report(&data, 3).unwrap();
    let lines: Vec<&str> = output.lines().collect();
    assert_eq!(
        lines.len(),
        5,
        "top=3 should show 3 data rows + 2 header lines"
    );
    assert!(lines[2].contains("fn_0"), "first data row should be fn_0");
    assert!(lines[4].contains("fn_2"), "last data row should be fn_2");
    assert!(!output.contains("fn_3"), "fn_3 should be truncated");
}

#[test]
fn format_hotpath_report_top_larger_than_data() {
    let data = make_timing_data(3);
    let output = format_hotpath_report(&data, 100).unwrap();
    let lines: Vec<&str> = output.lines().collect();
    assert_eq!(
        lines.len(),
        5,
        "top=100 with 3 entries should show all 3 + 2 headers"
    );
}

#[test]
fn format_hotpath_report_returns_none_for_empty_data() {
    let data = HotpathData {
        functions: Vec::new(),
        threads: Vec::new(),
        thread_summary: Vec::new(),
    };
    assert!(
        format_hotpath_report(&data, 0).is_none(),
        "empty data -> None"
    );
}

fn make_diff_fn(name: &str, total: &str) -> HotpathFunction {
    HotpathFunction {
        section: "timing".to_string(),
        description: Some("wall clock".to_string()),
        ordinal: 0,
        name: name.to_string(),
        calls: None,
        avg: None,
        total: Some(total.to_string()),
        percent_total: None,
        p50: None,
        p95: None,
        p99: None,
    }
}

#[test]
fn format_section_diff_matched_functions() {
    let data_a = vec![
        make_diff_fn("alpha", "100 ms"),
        make_diff_fn("beta", "200 ms"),
    ];
    let data_b = vec![
        make_diff_fn("alpha", "110 ms"),
        make_diff_fn("beta", "180 ms"),
    ];
    let refs_a: Vec<&HotpathFunction> = data_a.iter().collect();
    let refs_b: Vec<&HotpathFunction> = data_b.iter().collect();
    let result = format_section_diff("timing", &refs_a, &refs_b, 0);
    assert!(
        result.contains("alpha"),
        "output should contain matched fn 'alpha'"
    );
    assert!(
        result.contains("beta"),
        "output should contain matched fn 'beta'"
    );
    assert!(
        result.contains("+10.0%"),
        "alpha 100->110 should show +10.0%"
    );
    assert!(
        result.contains("-10.0%"),
        "beta 200->180 should show -10.0%"
    );
}

#[test]
fn format_section_diff_unmatched_functions() {
    let data_a = vec![make_diff_fn("only_in_a", "50 ms")];
    let data_b = vec![make_diff_fn("only_in_b", "75 ms")];
    let refs_a: Vec<&HotpathFunction> = data_a.iter().collect();
    let refs_b: Vec<&HotpathFunction> = data_b.iter().collect();
    let result = format_section_diff("timing", &refs_a, &refs_b, 0);
    assert!(
        result.contains("only_in_a"),
        "should contain function only in A"
    );
    assert!(
        result.contains("only_in_b"),
        "should contain function only in B"
    );
    assert!(
        result.contains("(gone)"),
        "function only in A should show (gone)"
    );
    assert!(
        result.contains("(new)"),
        "function only in B should show (new)"
    );
}

#[test]
fn format_section_diff_ordering_a_first_then_new_in_b() {
    let data_a = vec![
        make_diff_fn("second", "20 ms"),
        make_diff_fn("first", "10 ms"),
    ];
    let data_b = vec![
        make_diff_fn("newcomer", "30 ms"),
        make_diff_fn("first", "11 ms"),
    ];
    let refs_a: Vec<&HotpathFunction> = data_a.iter().collect();
    let refs_b: Vec<&HotpathFunction> = data_b.iter().collect();
    let result = format_section_diff("t", &refs_a, &refs_b, 0);
    let lines: Vec<&str> = result.lines().collect();
    let data_lines: Vec<&&str> = lines.iter().skip(2).collect();
    assert!(
        data_lines[0].starts_with("second"),
        "A's ordering should come first: got {}",
        data_lines[0]
    );
    assert!(
        data_lines[1].starts_with("first"),
        "A's ordering should come first: got {}",
        data_lines[1]
    );
    assert!(
        data_lines[2].starts_with("newcomer"),
        "new-in-B should come after A's entries: got {}",
        data_lines[2]
    );
}

#[test]
fn format_section_diff_top_truncation() {
    let data_a = vec![
        make_diff_fn("a", "1 ms"),
        make_diff_fn("b", "2 ms"),
        make_diff_fn("c", "3 ms"),
        make_diff_fn("d", "4 ms"),
    ];
    let data_b = vec![
        make_diff_fn("a", "1.1 ms"),
        make_diff_fn("b", "2.2 ms"),
        make_diff_fn("c", "3.3 ms"),
        make_diff_fn("d", "4.4 ms"),
        make_diff_fn("e", "5.5 ms"),
    ];
    let refs_a: Vec<&HotpathFunction> = data_a.iter().collect();
    let refs_b: Vec<&HotpathFunction> = data_b.iter().collect();
    let result = format_section_diff("t", &refs_a, &refs_b, 2);
    let lines: Vec<&str> = result.lines().collect();
    assert_eq!(
        lines.len(),
        4,
        "top=2 should yield 4 lines total, got {}",
        lines.len()
    );
    assert!(
        !result.contains("\"c\"") && !result.contains("  c  "),
        "c should be truncated"
    );
    assert!(!result.contains("  d  "), "d should be truncated");
    assert!(!result.contains("  e  "), "e should be truncated");
}

#[test]
fn format_section_diff_both_sides_empty() {
    let refs_a: Vec<&HotpathFunction> = Vec::new();
    let refs_b: Vec<&HotpathFunction> = Vec::new();
    let result = format_section_diff("t", &refs_a, &refs_b, 0);
    assert!(
        result.is_empty(),
        "both sides empty should yield empty string"
    );
}

#[test]
fn format_section_diff_one_side_empty() {
    let data_b = vec![make_diff_fn("fn1", "10 ms")];
    let refs_a: Vec<&HotpathFunction> = Vec::new();
    let refs_b: Vec<&HotpathFunction> = data_b.iter().collect();
    let result = format_section_diff("t", &refs_a, &refs_b, 0);
    assert!(result.contains("fn1"), "function from B side should appear");
    assert!(
        result.contains("(new)"),
        "function absent from A should show (new)"
    );
    assert!(result.contains("--"), "A's total should be placeholder --");
}

#[test]
fn format_section_diff_description_fallback() {
    let mut fn_a = make_diff_fn("f", "1 ms");
    fn_a.description = None;
    let mut fn_b = make_diff_fn("f", "1 ms");
    fn_b.description = Some("fallback desc".to_string());
    let data_a = vec![fn_a];
    let data_b = vec![fn_b];
    let refs_a: Vec<&HotpathFunction> = data_a.iter().collect();
    let refs_b: Vec<&HotpathFunction> = data_b.iter().collect();
    let result = format_section_diff("timing", &refs_a, &refs_b, 0);
    assert!(
        result.contains("fallback desc"),
        "should fall back to B's description"
    );
}

#[test]
fn format_section_diff_empty_named_entries_skipped() {
    let data_a = vec![make_diff_fn("", "1 ms"), make_diff_fn("real", "2 ms")];
    let refs_a: Vec<&HotpathFunction> = data_a.iter().collect();
    let result = format_section_diff("t", &refs_a, &refs_a, 0);
    let data_lines: Vec<&str> = result.lines().skip(2).collect();
    assert_eq!(
        data_lines.len(),
        1,
        "empty-name entry should be excluded, leaving 1 row"
    );
    assert!(
        data_lines[0].starts_with("real"),
        "only 'real' should appear"
    );
}

#[test]
fn a_difference_names_every_function() {
    let a = make_timing_data(2);
    let b = make_timing_data(3);
    let text = brokkr::hotpath_fmt::format_hotpath_diff(&a, &b, 0).unwrap();
    for name in ["fn_0", "fn_1", "fn_2"] {
        assert_eq!(text.matches(name).count(), 1, "{text}");
    }
    assert!(text.contains("(new)"), "{text}");
    let none = HotpathData { functions: vec![], threads: vec![], thread_summary: vec![] };
    assert!(brokkr::hotpath_fmt::format_hotpath_diff(&none, &none, 0).is_none());
}
