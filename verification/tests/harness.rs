//! Measurements: percentiles, reported pairs, command lines and times.

use brokkr::db::{HotpathData, KvPair, KvValue};
use brokkr::error::DevError;
use brokkr::harness::clock::elapsed_to_ms;
use brokkr::harness::command_line::{
    clamp_u32, exit_code_from_status, format_cli_args, hotpath_feature, maybe_quote,
};
use brokkr::harness::kv::{parse_kv_lines, parse_kv_stderr};
use brokkr::harness::record::{BenchHarness, Recording};
use brokkr::harness::runs::{check_success_or, judge_run, run_line, run_variants, ExternalRun};
use brokkr::harness::sidecar::{
    backup_name, backup_steps, dirty_uuid, hotpath_env, read_hotpath_report, run_hotpath_capture, sidecar_backup_dir, stored_line, FileStep,
};
use brokkr::harness::stats::{distribution, percentile, pick_best, sort_samples, BenchResult};
use brokkr::harness::{
    format_result_line, format_storage_notes, BenchConfig, CargoProfile, DriveConfig, EnvInfo, GitInfo,
};
use brokkr::lockfile::guard::{build_state, LockContext, LockGuard};
use brokkr::number::double::Double;
use brokkr::project::Project;
use std::time::Duration;

#[test]
fn percentile_empty_returns_zero() {
    assert_eq!(percentile(&[], 50), 0, "empty slice should return 0");
}

#[test]
fn percentile_single_element_ignores_pct() {
    assert_eq!(percentile(&[42], 0), 42);
    assert_eq!(percentile(&[42], 50), 42);
    assert_eq!(percentile(&[42], 100), 42);
}

#[test]
fn percentile_two_elements_interpolates() {
    let data = vec![100, 200];
    assert_eq!(percentile(&data, 0), 100);
    assert_eq!(
        percentile(&data, 50),
        150,
        "midpoint should interpolate to 150"
    );
    assert_eq!(percentile(&data, 100), 200);
    assert_eq!(percentile(&data, 25), 125);
    assert_eq!(percentile(&data, 75), 175);
}

#[test]
fn percentile_five_elements_at_boundaries() {
    let data = vec![10, 20, 30, 40, 50];
    assert_eq!(percentile(&data, 0), 10);
    assert_eq!(
        percentile(&data, 25),
        20,
        "p25 of [10,20,30,40,50] should be 20"
    );
    assert_eq!(percentile(&data, 50), 30, "p50 should be median");
    assert_eq!(percentile(&data, 75), 40);
    assert_eq!(percentile(&data, 100), 50);
}

#[test]
fn percentile_interpolation_beats_nearest_rank() {
    let data = vec![0, 100, 1000];
    let p95 = percentile(&data, 95);
    assert_eq!(
        p95, 910,
        "linear interpolation should yield 910, not nearest-rank 1000"
    );
    assert!(
        p95 < 1000,
        "interpolated p95 must be less than max for non-degenerate data"
    );
}

#[test]
fn percentile_identical_values() {
    let data = vec![7, 7, 7, 7];
    assert_eq!(percentile(&data, 0), 7);
    assert_eq!(percentile(&data, 50), 7);
    assert_eq!(percentile(&data, 100), 7);
}

#[test]
fn parse_kv_stderr_basic_elapsed_ms() {
    let stderr = b"elapsed_ms=1234\n";
    let result = parse_kv_stderr(stderr).unwrap();
    assert_eq!(result.elapsed_ms, 1234);
    assert!(
        result.kv.is_empty(),
        "no extra fields => kv should be empty"
    );
}

#[test]
fn parse_kv_stderr_total_ms_alias() {
    let stderr = b"total_ms=999\n";
    let result = parse_kv_stderr(stderr).unwrap();
    assert_eq!(
        result.elapsed_ms, 999,
        "total_ms should be accepted as elapsed_ms alias"
    );
}

#[test]
fn parse_kv_stderr_elapsed_ms_takes_precedence_over_total_ms() {
    let stderr = b"total_ms=100\nelapsed_ms=200\n";
    let result = parse_kv_stderr(stderr).unwrap();
    assert_eq!(
        result.elapsed_ms, 200,
        "elapsed_ms should overwrite earlier total_ms"
    );

    let stderr2 = b"elapsed_ms=200\ntotal_ms=100\n";
    let result2 = parse_kv_stderr(stderr2).unwrap();
    assert_eq!(result2.elapsed_ms, 100, "last key=value wins");
}

#[test]
fn parse_kv_stderr_extra_int_float_string_fields() {
    let stderr = b"elapsed_ms=500\nrows=42\nrate=3.14\nlabel=fast\n";
    let result = parse_kv_stderr(stderr).unwrap();
    assert_eq!(result.elapsed_ms, 500);

    assert_eq!(result.kv.len(), 3);
    let find = |k: &str| result.kv.iter().find(|p| p.key == k).unwrap();
    assert!(matches!(find("rows").value, KvValue::Int(42)));
    assert!(matches!(find("rate").value, KvValue::Real(r) if (f64::from_bits(r.to_bits()) - 3.14).abs() < 0.001));
    assert!(matches!(&find("label").value, KvValue::Text(s) if s == "fast"));
}

#[test]
fn parse_kv_stderr_missing_elapsed_ms_error() {
    let stderr = b"rows=100\nlabel=test\n";
    match parse_kv_stderr(stderr) {
        Err(e) => {
            let DevError::Config(msg) = e else {
                panic!("expected DevError::Config, got {e:?}");
            };
            assert!(
                msg.contains("missing elapsed_ms"),
                "error should mention missing elapsed_ms, got: {msg}"
            );
        }
        Ok(_) => panic!("expected error for missing elapsed_ms, got Ok"),
    }
}

#[test]
fn parse_kv_stderr_mixed_garbage_lines() {
    let stderr = b"some random log output\nwarning: something\nelapsed_ms=777\nmore junk\n";
    let result = parse_kv_stderr(stderr).unwrap();
    assert_eq!(
        result.elapsed_ms, 777,
        "should find elapsed_ms among garbage lines"
    );
}

#[test]
fn parse_kv_stderr_empty_value_treated_as_string() {
    let stderr = b"elapsed_ms=100\ntag=\n";
    let result = parse_kv_stderr(stderr).unwrap();
    let find = |k: &str| result.kv.iter().find(|p| p.key == k).unwrap();
    assert!(
        matches!(&find("tag").value, KvValue::Text(s) if s.is_empty()),
        "empty value should become empty string"
    );
}

#[test]
fn parse_kv_stderr_whitespace_trimming() {
    let stderr = b"  elapsed_ms  =  300  \n  count  =  5  \n";
    let result = parse_kv_stderr(stderr).unwrap();
    assert_eq!(result.elapsed_ms, 300, "keys and values should be trimmed");
    let find = |k: &str| result.kv.iter().find(|p| p.key == k).unwrap();
    assert!(matches!(find("count").value, KvValue::Int(5)));
}

#[test]
fn parse_kv_stderr_invalid_elapsed_ms_value() {
    let stderr = b"elapsed_ms=not_a_number\n";
    match parse_kv_stderr(stderr) {
        Err(e) => {
            let DevError::Config(msg) = e else {
                panic!("expected DevError::Config, got {e:?}");
            };
            assert!(
                msg.contains("missing elapsed_ms"),
                "should report missing elapsed_ms for unparseable value, got: {msg}"
            );
        }
        Ok(_) => panic!("expected error for invalid elapsed_ms value, got Ok"),
    }
}

#[test]
fn parse_kv_stderr_nan_float_becomes_string() {
    let stderr = b"elapsed_ms=100\nweird=NaN\n";
    let result = parse_kv_stderr(stderr).unwrap();
    let find = |k: &str| result.kv.iter().find(|p| p.key == k).unwrap();
    assert!(
        matches!(&find("weird").value, KvValue::Text(s) if s == "NaN"),
        "NaN should fall through to string"
    );
}

#[test]
fn format_cli_args_no_args() {
    assert_eq!(format_cli_args("./bench", &[]), "./bench");
}

#[test]
fn format_cli_args_simple_args() {
    assert_eq!(
        format_cli_args("./bench", &["--fast", "-n", "10"]),
        "./bench --fast -n 10"
    );
}

#[test]
fn format_cli_args_args_with_spaces_get_quoted() {
    assert_eq!(
        format_cli_args("./my tool", &["--input", "path with spaces", "--verbose"]),
        "\"./my tool\" --input \"path with spaces\" --verbose"
    );
}

#[test]
fn maybe_quote_no_spaces() {
    assert_eq!(maybe_quote("simple"), "simple");
}

#[test]
fn maybe_quote_with_spaces() {
    assert_eq!(maybe_quote("has space"), "\"has space\"");
}

#[test]
fn maybe_quote_empty_string() {
    assert_eq!(
        maybe_quote(""),
        "",
        "empty string has no spaces, should not be quoted"
    );
}

#[test]
fn pick_best_none_vs_candidate() {
    let candidate = BenchResult {
        elapsed_ms: 500,
        kv: vec![],
        distribution: None,
        hotpath: None,
    };
    let result = pick_best(None, candidate);
    assert_eq!(
        result.elapsed_ms, 500,
        "None current should always take candidate"
    );
}

#[test]
fn pick_best_keeps_better() {
    let current = BenchResult {
        elapsed_ms: 100,
        kv: vec![],
        distribution: None,
        hotpath: None,
    };
    let candidate = BenchResult {
        elapsed_ms: 200,
        kv: vec![],
        distribution: None,
        hotpath: None,
    };
    let result = pick_best(Some(current), candidate);
    assert_eq!(result.elapsed_ms, 100, "should keep the lower value");
}

#[test]
fn pick_best_replaces_with_better() {
    let current = BenchResult {
        elapsed_ms: 300,
        kv: vec![],
        distribution: None,
        hotpath: None,
    };
    let candidate = BenchResult {
        elapsed_ms: 150,
        kv: vec![],
        distribution: None,
        hotpath: None,
    };
    let result = pick_best(Some(current), candidate);
    assert_eq!(result.elapsed_ms, 150, "should replace with lower value");
}

#[test]
fn pick_best_equal_keeps_current() {
    let current = BenchResult {
        elapsed_ms: 100,
        kv: vec![KvPair::of_text("tag", "first")],
        distribution: None,
        hotpath: None,
    };
    let candidate = BenchResult {
        elapsed_ms: 100,
        kv: vec![KvPair::of_text("tag", "second")],
        distribution: None,
        hotpath: None,
    };
    let result = pick_best(Some(current), candidate);
    let tag = result.kv.iter().find(|p| p.key == "tag").unwrap();
    assert!(
        matches!(&tag.value, KvValue::Text(s) if s == "first"),
        "on tie, current (first seen) should be kept"
    );
}

#[test]
fn elapsed_to_ms_normal() {
    let d = Duration::from_millis(1234);
    assert_eq!(elapsed_to_ms(&d), 1234);
}

#[test]
fn elapsed_to_ms_zero() {
    let d = Duration::ZERO;
    assert_eq!(elapsed_to_ms(&d), 0);
}

#[test]
fn elapsed_to_ms_overflow_saturates() {
    let d = Duration::from_secs(u64::MAX);
    assert_eq!(
        elapsed_to_ms(&d),
        i64::MAX,
        "overflow should saturate to i64::MAX"
    );
}

#[test]
fn elapsed_to_ms_sub_millisecond_truncates() {
    let d = Duration::from_micros(999);
    assert_eq!(elapsed_to_ms(&d), 0, "sub-millisecond should truncate to 0");
}

#[test]
fn hotpath_feature_without_alloc() {
    assert_eq!(hotpath_feature(false), "hotpath");
}

#[test]
fn hotpath_feature_with_alloc() {
    assert_eq!(hotpath_feature(true), "hotpath-alloc");
}


#[test]
fn a_spread_is_that_of_its_samples() {
    let d = distribution(&[300, 100, 200]);
    assert_eq!((d.samples, d.min_ms, d.p50_ms, d.p95_ms, d.max_ms), (3, 100, 200, 290, 300));
    assert_eq!(sort_samples(&[3, 1, 2, 1]), vec![1, 1, 2, 3]);
    for pct in 0..=100 {
        let p = percentile(&[-7, 2, 2, 90], pct);
        assert!((-7..=90).contains(&p));
    }
    assert_eq!(percentile(&[-7, 2, 2, 90], 0), -7);
    assert_eq!(percentile(&[-7, 2, 2, 90], 100), 90);
    assert_eq!(percentile(&[100, 200], 150), 200);
    assert_eq!(percentile(&[7], 5000), 7);
}

#[test]
fn the_last_value_of_a_report_may_be_no_text() {
    let result = parse_kv_stderr(b"elapsed_ms=5\nname=\xff\xfe\n").unwrap();
    assert_eq!(result.kv[0].value.to_text(), "\u{fffd}\u{fffd}");
    let (ms, kv) = parse_kv_lines(b"a=1\n");
    assert_eq!(ms, None);
    assert_eq!(kv.len(), 1);
}

#[test]
fn an_exit_has_a_code() {
    assert_eq!(exit_code_from_status(Some(3), None), 3);
    assert_eq!(exit_code_from_status(None, Some(9)), 137);
    assert_eq!(clamp_u32(usize::MAX), u32::MAX);
    assert_eq!(clamp_u32(7), 7);
}

fn config() -> BenchConfig {
    BenchConfig {
        command: "read".to_string(),
        mode: None,
        input_file: Some("dk.osm.pbf".to_string()),
        input_mb: Some(Double::of_i64(500)),
        cargo_features: None,
        cargo_profile: CargoProfile::Release,
        runs: 3,
        cli_args: Some("./x".to_string()),
        brokkr_args: None,
        metadata: vec![KvPair::of_text("meta.a", "b")],
    }
}

fn git(is_clean: bool) -> GitInfo {
    GitInfo { commit: "abc".to_string(), subject: "s".to_string(), is_clean }
}

fn try_harness(is_clean: bool, force: bool) -> Result<BenchHarness, DevError> {
    let ctx = LockContext { project: "p", command: "c", project_root: "/r" };
    let lock = LockGuard { pid: 1, state: build_state(&ctx, &[], None, None) };
    let env = EnvInfo {
        hostname: "host".to_string(),
        kernel: "6.1".to_string(),
        governor: "performance".to_string(),
        memory_available_mb: 1000,
    };
    BenchHarness::new_with_lock(
        lock,
        env,
        git(is_clean),
        &None,
        "/db".to_string(),
        Project::Pbfhogg,
        force,
        None,
    )
}

fn made(is_clean: bool) -> BenchHarness {
    match try_harness(is_clean, true) {
        Ok(h) => h,
        Err(e) => panic!("{e:?}"),
    }
}

fn measured(elapsed_ms: i64) -> BenchResult {
    BenchResult { elapsed_ms, kv: vec![], distribution: None, hotpath: None }
}

#[test]
fn a_changed_tree_is_measured_only_by_force() {
    let Err(DevError::Preflight(reasons)) = try_harness(false, false) else {
        panic!("expected DevError::Preflight");
    };
    assert!(reasons[0].starts_with("dirty tree"));
    assert!(try_harness(true, false).is_ok());
    assert!(matches!(made(false).record_result(&config(), &measured(5)), Recording::Printed(_)));
    assert!(matches!(made(true).record_result(&config(), &measured(5)), Recording::Stored(_, _)));
}

#[test]
fn the_line_and_the_row_of_a_result() {
    let mut result = measured(2000);
    result.kv = vec![KvPair::of_int("peak_rss_kb", 2048), KvPair::of_int("output_bytes", 100_000_000)];
    assert_eq!(
        format_result_line(&config(), &result, &git(true)),
        "command=read  elapsed_ms=2000  commit=abc  input=dk.osm.pbf  peak_rss_kb=2048  output_bytes=100000000  read_mbs=250.0  write_mbs=50.0"
    );
    let harness = made(true)
        .with_measure_mode(Some("bench"))
        .with_brokkr_args("brokkr read".to_string())
        .with_cargo_features(Some("x".to_string()))
        .with_env_kv(vec![KvPair::of_text("env.k", "v")]);
    let row = harness.build_row(&config(), &result);
    assert_eq!(row.mode.as_deref(), Some("bench"));
    assert_eq!(row.brokkr_args.as_deref(), Some("brokkr read"));
    let mut own = config();
    own.brokkr_args = Some("brokkr own".to_string());
    assert_eq!(harness.build_row(&own, &result).brokkr_args.as_deref(), Some("brokkr own"));
    assert_eq!(row.cargo_features.as_deref(), Some("x"));
    assert_eq!(row.peak_rss_mb.map(|x| f64::from_bits(x.to_bits())), Some(2.0));
    let keys: Vec<&str> = row.kv.iter().map(|p| p.key.as_str()).collect();
    assert_eq!(keys, vec!["meta.a", "env.k", "output_bytes"]);
    assert_eq!(harness.lock().pid, 1);
    let info = harness.build_run_info(&config(), "./x", 9, 8, Some(0), None);
    assert_eq!(info.dataset.as_deref(), Some("dk.osm.pbf"));
    assert_eq!(info.pid, Some(8));
}

#[test]
fn the_first_of_the_fastest_runs_counts() {
    let harness = made(true);
    let times = [30, 10, 10];
    let best = harness.run_internal(&config(), |i| Ok(measured(times[i]))).unwrap();
    assert_eq!(best.elapsed_ms, 10);
    assert!(harness.run_internal(&config(), |_| Err(DevError::Interrupted)).is_err());
    let mut none = config();
    none.runs = 0;
    assert!(harness.run_internal(&none, |_| Ok(measured(1))).is_err());
    let spread = harness.run_distribution(&config(), |i| Ok(times[i])).unwrap();
    assert_eq!(spread.distribution.unwrap().max_ms, 30);
    assert_eq!(spread.elapsed_ms, 10);
}

fn external(elapsed_ms: i64, stderr: &str) -> ExternalRun {
    ExternalRun {
        stopped: false,
        interrupted: false,
        code: Some(0),
        signal: None,
        elapsed_ms,
        stderr: stderr.as_bytes().to_vec(),
    }
}

#[test]
fn outside_runs_are_judged_one_by_one() {
    let harness = made(true);
    let times = [30, 10, 20];
    let Ok((best, run)) = harness.run_external(&config(), "prog", |i| Ok(external(times[i], ""))) else {
        panic!("expected a result");
    };
    assert_eq!((best.elapsed_ms, run), (10, 1));
    let Ok((best, run)) =
        harness.run_external_with_kv(&config(), "prog", |i| Ok(external(0, &format!("elapsed_ms={}\nk=1\n", times[i]))))
    else {
        panic!("expected a result");
    };
    assert_eq!((best.elapsed_ms, run, best.kv.len()), (10, 1, 1));
    let Err(abort) = harness.run_external_with_kv(&config(), "prog", |_| Ok(external(0, "nothing"))) else {
        panic!("expected an end");
    };
    assert!(matches!(abort.error, DevError::Config(_)));
    let Err(abort) = harness.run_external(&config(), "prog", |i| {
        let mut o = external(1, "");
        if i == 1 {
            o.interrupted = true;
            o.code = None;
            o.signal = Some(2);
        }
        Ok(o)
    }) else {
        panic!("expected an end");
    };
    assert!(matches!(abort.error, DevError::Interrupted));
    assert_eq!(abort.kept, Some((1, 130)));
    let mut stopped = external(1, "");
    stopped.stopped = true;
    stopped.code = None;
    stopped.signal = Some(9);
    assert!(judge_run(0, "prog", &[], stopped).is_ok());
    assert_eq!(run_line(1, 3), "run 2/3");
}

#[test]
fn variants_that_fail_are_listed() {
    let r = run_variants("read", &["a", "b", "c"], |line, variant| {
        assert_eq!(line, format!("read: {variant}"));
        if variant == "b" {
            Err("broken".to_string())
        } else {
            Ok(())
        }
    });
    let Err(DevError::Verify(m)) = r else {
        panic!("expected DevError::Verify");
    };
    assert_eq!(m, "1 of 3 variants failed:\n  b: broken");
    assert!(run_variants("read", &["a"], |_, _| Ok(())).is_ok());
}

#[test]
fn backups_rotate_without_losing_the_newest() {
    let base = backup_name(Project::Pbfhogg);
    assert_eq!(base, "pbfhogg-sidecar.db");
    let mut files: Vec<(String, u32)> = vec![];
    for round in 1..=4 {
        let has = |name: &str| files.iter().any(|(n, _)| n == name);
        let steps = backup_steps(&base, has(&base), has(&format!("{base}.1")));
        files.push((format!("{base}.tmp"), round));
        for step in steps {
            match step {
                FileStep::Rename(from, to) => {
                    let at = files.iter().position(|(n, _)| *n == from).unwrap();
                    let (_, content) = files.remove(at);
                    files.retain(|(n, _)| *n != to);
                    files.push((to, content));
                }
                FileStep::Link(from, to) => {
                    let content = files.iter().find(|(n, _)| *n == from).unwrap().1;
                    files.retain(|(n, _)| *n != to);
                    files.push((to, content));
                }
            }
            assert!(round == 1 || files.iter().any(|(n, _)| *n == base), "the newest is always there");
        }
    }
    files.sort();
    assert_eq!(
        files,
        vec![
            ("pbfhogg-sidecar.db".to_string(), 4),
            ("pbfhogg-sidecar.db.1".to_string(), 3),
            ("pbfhogg-sidecar.db.2".to_string(), 2),
        ]
    );
    assert_eq!(sidecar_backup_dir(None, Some("/h")).unwrap(), "/h/.local/share/brokkr/sidecar-backups");
    assert_eq!(dirty_uuid(vec![0xff; 16]), "ffffffffffff4fffbfffffffffffffff");
    assert_eq!(stored_line("0123456789"), "profile data stored in sidecar.db (01234567)");
}

#[test]
fn storage_is_noted() {
    let drives = Some(DriveConfig {
        source: Some("nvme".to_string()),
        data: None,
        scratch: Some("ssd".to_string()),
        target: None,
    });
    assert_eq!(format_storage_notes(&drives).as_deref(), Some("source=nvme, scratch=ssd"));
    assert_eq!(format_storage_notes(&None), None);
}

#[test]
fn a_profile_is_captured_with_its_environment() {
    let env = hotpath_env("/r.json", "/fifo", &[("A".to_string(), "b".to_string())]);
    assert_eq!(env[2], ("HOTPATH_OUTPUT_PATH".to_string(), "/r.json".to_string()));
    assert_eq!(env[4], ("A".to_string(), "b".to_string()));
    let profile = || {
        Some(HotpathData { functions: Vec::new(), threads: Vec::new(), thread_summary: Vec::new() })
    };
    let capture = run_hotpath_capture("prog", &[], external(7, "k=1\n"), "/r.json", Ok("{}"), profile()).unwrap();
    assert_eq!((capture.result.elapsed_ms, capture.result.kv.len()), (7, 1));
    assert!(capture.result.hotpath.is_some() && capture.message.is_none());
    assert_eq!(capture.stderr, b"k=1\n");
    let mut failed = external(7, "bad");
    failed.code = Some(2);
    assert!(matches!(
        run_hotpath_capture("prog", &[1], failed, "/r.json", Ok("{}"), None),
        Err(DevError::Subprocess { program, code: Some(2), stderr }) if program == "prog" && stderr == "bad"
    ));
    let mut differing = external(7, "");
    differing.code = Some(1);
    assert!(run_hotpath_capture("prog", &[1], differing, "/r.json", Ok("{}"), None).is_ok());
}

#[test]
fn a_report_that_cannot_be_read_gives_a_message_and_no_profile() {
    let profile = || {
        Some(HotpathData { functions: Vec::new(), threads: Vec::new(), thread_summary: Vec::new() })
    };
    let (found, message) = read_hotpath_report("/r.json", Err("no such file"), profile());
    assert!(found.is_none());
    assert_eq!(message.as_deref(), Some("failed to read hotpath report /r.json: no such file"));
    let (found, message) = read_hotpath_report("/r.json", Ok("{\"a\":"), profile());
    assert!(found.is_none());
    let why = serde_json::from_str::<serde_json::Value>("{\"a\":").unwrap_err();
    assert_eq!(message, Some(format!("failed to parse hotpath JSON: {why}")));
    let (found, message) = read_hotpath_report("/r.json", Ok("{\"a\":1}"), profile());
    assert!(found.is_some() && message.is_none());
}

#[test]
fn some_exit_codes_count_as_success() {
    assert!(check_success_or("diff", Some(0), b"", &[]).is_ok());
    assert!(check_success_or("diff", Some(1), b"", &[1]).is_ok());
    assert!(check_success_or("diff", Some(2), b"", &[1]).is_err());
    assert!(check_success_or("diff", None, b"", &[1, 0]).is_err());
    assert!(matches!(
        check_success_or("diff", Some(1), b"differ", &[]),
        Err(DevError::Subprocess { program, code: Some(1), stderr }) if program == "diff" && stderr == "differ"
    ));
    let harness = made(true);
    let ended = |code: i32| {
        let mut o = external(4, "differ");
        o.code = Some(code);
        o
    };
    assert!(harness.run_external_ok(&config(), "diff", &[1], |_| Ok(ended(1))).is_ok());
    let Err(abort) = harness.run_external(&config(), "diff", |_| Ok(ended(1))) else {
        panic!("expected an end");
    };
    assert_eq!(abort.kept, Some((0, 1)));
    assert!(matches!(abort.error, DevError::Subprocess { code: Some(1), .. }));
    assert!(harness.run_external_ok(&config(), "diff", &[1], |_| Ok(ended(2))).is_err());
}

#[test]
fn percentiles_ascend_from_the_least_to_the_greatest() {
    let limit = (1i64 << 52) - 1;
    for data in [vec![-limit, -7, -7, 0, 3, limit], vec![5, 5], vec![-3, -2, 11, 12, 13, 900, 901], vec![8]] {
        let all: Vec<i64> = (0..=100).map(|pct| percentile(&data, pct)).collect();
        assert_eq!(all[0], data[0]);
        assert_eq!(all[100], data[data.len() - 1]);
        assert!(all.windows(2).all(|w| w[0] <= w[1]), "{all:?}");
    }
}
