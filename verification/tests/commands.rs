//! The commands of the tool.

use brokkr::commands::clean::{
    archive_prefix, cargo_line, cargo_package, clean_steps, clean_summary, is_archive, is_output, is_piners_run,
    is_run_dir, is_rustflags_dir, prune, scratch_sweep, sweep_count, worktree_line, CleanOpts, Cleaner, Step, StoreFile,
};
use brokkr::commands::gates::{
    cmd_pmtiles_stats, cmd_verify, generic_config, generic_hotpath, generic_lines, select_suite, service_action,
    single_test, sync_action, verify_commit, visual_side, ServiceAction, Suite, SyncAction, Verification,
    VisualCommand, VisualSide,
};
use brokkr::commands::lock::{
    asked_line, cargo_outcome, ended_line, found, kill_plan, leads_group, lock_lines, KillPlan,
};
use brokkr::commands::options::{
    capture_brokkr_args, exit_code, hotpath_mode, parse_env_overrides, profile_override, resolve_features, resolve_mode,
    ModeArgs,
};
use brokkr::commands::timing::{
    check_runs, duration_ms, run_lines, run_timing, summarize_runs, Printed, RunOptions, RunStats, RunTotals,
};
use brokkr::error::DevError;
use brokkr::lockfile::LockInfo;
use brokkr::measure::MeasureMode;
use brokkr::path::FilePath;
use brokkr::project::Project;
use std::time::Duration;

#[test]
fn rejects_projects_without_pmtiles() {
    for project in [
        Project::Pbfhogg,
        Project::Litehtml,
        Project::Piners,
        Project::Other("mystery"),
    ] {
        let err = cmd_pmtiles_stats(project, &[]).unwrap_err();
        let DevError::Config(msg) = err else {
            panic!("expected DevError::Config, got {err:?}");
        };
        assert!(msg.contains("pmtiles-stats"), "message: {msg}");
        assert!(msg.contains("elivagar"), "message: {msg}");
        assert!(msg.contains("nidhogg"), "message: {msg}");
    }
}

#[test]
fn allows_elivagar_and_nidhogg() {
    assert!(cmd_pmtiles_stats(Project::Elivagar, &[]).is_ok());
    assert!(cmd_pmtiles_stats(Project::Nidhogg, &[]).is_ok());
}

#[test]
fn modes_exclude_each_other_and_run_at_least_once() {
    let mode = |bench, hotpath, alloc| resolve_mode(&ModeArgs { bench, hotpath, alloc });
    assert!(matches!(mode(None, None, None), Ok(MeasureMode::Run)));
    assert!(matches!(mode(Some(3), None, None), Ok(MeasureMode::Bench { runs: 3 })));
    assert!(matches!(mode(None, Some(2), None), Ok(MeasureMode::Hotpath { runs: 2 })));
    assert!(matches!(mode(None, None, Some(1)), Ok(MeasureMode::Alloc { runs: 1 })));
    let Err(DevError::Config(m)) = mode(Some(1), None, Some(1)) else {
        panic!("expected DevError::Config");
    };
    assert_eq!(m, "--bench, --hotpath, and --alloc are mutually exclusive");
    let Err(DevError::Config(m)) = mode(None, Some(0), None) else {
        panic!("expected DevError::Config");
    };
    assert_eq!(m, "run count must be >= 1");
    let bare = hotpath_mode(ModeArgs { bench: None, hotpath: None, alloc: None });
    assert_eq!(bare.hotpath, Some(1));
}

fn texts(list: &[&str]) -> Vec<String> {
    list.iter().map(|t| t.to_string()).collect()
}

#[test]
fn features_of_the_host_come_first_and_once() {
    let merged = resolve_features(&texts(&["a", "b"]), &texts(&["b", "c", "c"]));
    assert_eq!(merged, vec!["a", "b", "c"]);
    assert_eq!(resolve_features(&[], &texts(&["c", "c"])), vec!["c"]);
    assert_eq!(resolve_features(&texts(&["a", "a"]), &[]), vec!["a"]);
    assert_eq!(resolve_features(&texts(&["a", "a"]), &texts(&["b", "a", "b"])), vec!["a", "b"]);
    assert_eq!(resolve_features(&texts(&["b", "a", "b"]), &texts(&["c", "a"])), vec!["b", "a", "c"]);
    assert!(resolve_features(&[], &[]).is_empty());
}

#[test]
fn settings_are_split_at_the_first_equals_sign() {
    let r = parse_env_overrides(&texts(&["A=b=c", "D="])).unwrap();
    assert_eq!(r, vec![("A".to_string(), "b=c".to_string()), ("D".to_string(), String::new())]);
    let Err(DevError::Config(m)) = parse_env_overrides(&texts(&["A=1", "B", "C"])) else {
        panic!("expected DevError::Config");
    };
    assert_eq!(m, "--env expects KEY=VALUE, got 'B'");
}

#[test]
fn the_invocation_is_quoted() {
    assert_eq!(capture_brokkr_args(&texts(&["brokkr", "run", "a b"])), "brokkr run \"a b\"");
    assert_eq!(capture_brokkr_args(&[]), "");
    assert_eq!(capture_brokkr_args(&texts(&["brokkr", "a\tb", "say \"x\"", ""])), "brokkr \"a\tb\" \"say \\\"x\\\"\" \"\"");
    assert_ne!(capture_brokkr_args(&texts(&["a b\\", "c"])), capture_brokkr_args(&texts(&["a b\" c"])));
    assert_ne!(capture_brokkr_args(&texts(&["a", "b"])), capture_brokkr_args(&texts(&["a b"])));
    assert_eq!(profile_override(true, true), Some(true));
    assert_eq!(profile_override(false, true), Some(false));
    assert_eq!(profile_override(false, false), None);
}

#[test]
fn every_outcome_has_its_code() {
    assert_eq!(exit_code(&Ok(())), 0);
    assert_eq!(exit_code(&Err(DevError::ExitCode(7))), 7);
    assert_eq!(exit_code(&Err(DevError::Interrupted)), 130);
    assert_eq!(exit_code(&Err(DevError::Lock("x".to_string()))), 1);
}

#[test]
fn durations_never_vanish() {
    assert_eq!(duration_ms(&Duration::ZERO), 0);
    assert_eq!(duration_ms(&Duration::from_nanos(1)), 1);
    assert_eq!(duration_ms(&Duration::from_micros(1999)), 1);
    assert_eq!(duration_ms(&Duration::from_millis(2500)), 2500);
    assert_eq!(duration_ms(&Duration::from_secs(u64::MAX)), u64::MAX);
}

#[test]
fn runs_are_summarised() {
    let stats = summarize_runs(&[30, 10, 20]).unwrap();
    assert_eq!(stats, RunStats { min_ms: 10, median_ms: 20, p95_ms: 30 });
    let stats = summarize_runs(&[40, 10, 20, 30]).unwrap();
    assert_eq!(stats, RunStats { min_ms: 10, median_ms: 25, p95_ms: 40 });
    let hundred: Vec<u64> = (1..=100).rev().collect();
    assert_eq!(summarize_runs(&hundred).unwrap().p95_ms, 95);
    let top = summarize_runs(&[u64::MAX, u64::MAX]).unwrap();
    assert_eq!(top.median_ms, u64::MAX / 2);
    let Err(DevError::Config(m)) = summarize_runs(&[]) else {
        panic!("expected DevError::Config");
    };
    assert_eq!(m, "run requires at least one sample");
}

#[test]
fn times_are_printed_as_asked() {
    let opts = |time, json, runs| RunOptions { time, json, runs, no_build: false };
    let Ok(Some(Printed::Line(t))) = run_timing(&opts(false, true, 1), 5, 7, &[7]) else {
        panic!("expected a line");
    };
    assert_eq!(t, "{\"build_ms\":5,\"elapsed_ms\":12,\"run_ms\":7}");
    let Ok(Some(Printed::Line(t))) = run_timing(&opts(true, true, 2), 5, 7, &[4, 3]) else {
        panic!("expected a line");
    };
    assert_eq!(
        t,
        "{\"build_ms\":5,\"elapsed_ms\":12,\"median_ms\":3,\"min_ms\":3,\"p95_ms\":4,\"run_ms\":7,\"run_samples_ms\":[4,3],\"runs\":2}"
    );
    let parsed: serde_json::Value = serde_json::from_str(&t).unwrap();
    assert_eq!(parsed.to_string(), t);
    let Ok(Some(Printed::Line(t))) = run_timing(&opts(true, false, 1), 5, 7, &[7]) else {
        panic!("expected a line");
    };
    assert_eq!(t, "elapsed_ms=12 build_ms=5 run_ms=7");
    let Ok(Some(Printed::Line(t))) = run_timing(&opts(true, false, 2), 5, 7, &[4, 3]) else {
        panic!("expected a line");
    };
    assert_eq!(t, "elapsed_ms=12 build_ms=5 run_ms=7 runs=2 min_ms=3 median_ms=3 p95_ms=4");
    let Ok(Some(Printed::Message(t))) = run_timing(&opts(false, false, 2), 5, 7, &[4, 3]) else {
        panic!("expected a message");
    };
    assert_eq!(t, "runs=2 min=3ms median=3ms p95=4ms total=7ms");
    assert!(matches!(run_timing(&opts(false, false, 1), 5, 7, &[7]), Ok(None)));
    assert!(run_timing(&opts(false, false, 1), 5, 7, &[]).is_err());
    assert!(check_runs(&opts(false, false, 0)).is_err());
    assert!(check_runs(&opts(false, false, 1)).is_ok());
    assert_eq!(
        run_lines(&opts(false, false, 3), 1, "./tool", &texts(&["a", "b"])),
        vec!["run 2/3", "./tool a b"]
    );
}

#[test]
fn a_failed_run_ends_the_runs() {
    let mut totals = RunTotals::new();
    totals.after_run(0, 2_500_000).unwrap();
    totals.after_run(0, 10).unwrap();
    let Err(DevError::ExitCode(code)) = totals.after_run(3, 5) else {
        panic!("expected DevError::ExitCode");
    };
    assert_eq!(code, 3);
    assert_eq!(totals.nanos, 2_500_010);
    assert_eq!(totals.samples_ms, vec![2, 1]);
}

#[test]
fn a_routine_clean_spares_what_is_durable() {
    let routine = clean_steps(Project::Elivagar, CleanOpts::routine(), true);
    assert_eq!(
        routine,
        vec![
            Step::Verify,
            Step::Rustflags,
            Step::TilegenScratch,
            Step::Calibrands,
            Step::OceanBuild,
            Step::MentionWorktrees,
        ]
    );
    let deep = CleanOpts { worktrees: true, archives: true, keep: 2, dry_run: false };
    assert_eq!(
        clean_steps(Project::Elivagar, deep, false),
        vec![
            Step::Verify,
            Step::Rustflags,
            Step::Calibrands,
            Step::OceanBuild,
            Step::Archives,
            Step::Outputs,
            Step::Worktrees,
        ]
    );
    assert_eq!(
        clean_steps(Project::Piners, deep, true),
        vec![Step::Verify, Step::Rustflags, Step::LooseScratch, Step::PinersRuns, Step::Worktrees]
    );
}

#[test]
fn scratch_is_swept_by_name() {
    let sweep = |name: &str, is_dir| scratch_sweep(&FilePath::from_text(name), is_dir);
    assert!(sweep("x.osm.pbf", false).file);
    assert!(!sweep(".pbf", false).file);
    assert!(!sweep("xpbf", false).file);
    assert!(sweep("geocode-denmark", true).geocode);
    assert!(!sweep("geocode-denmark", false).geocode);
    assert_eq!(sweep(".pbfhogg-external-join-412", true).owner, Some(412));
    assert_eq!(sweep(".pbfhogg-external-join-x", true).owner, None);
    let join = sweep(".pbfhogg-external-join-412", true);
    assert_eq!(sweep_count(&join, true), 0);
    assert_eq!(sweep_count(&join, false), 1);
    assert_eq!(sweep_count(&sweep("geocode-a.pbf", true), false), 2);
    assert!(is_run_dir(&FilePath::from_text("run-12")));
    assert!(!is_run_dir(&FilePath::from_text("run-x")));
    assert!(!is_run_dir(&FilePath::from_text("run-99999999999")));
    assert!(is_rustflags_dir("rustflags-abc", true));
    assert!(!is_rustflags_dir("rustflags-abc", false));
    assert!(is_piners_run("run-1", true));
}

#[test]
fn the_newest_archives_of_a_kind_stay() {
    let file = |name: &str, modified| StoreFile { name: FilePath::from_text(name), modified };
    let prefix = archive_prefix("north-sea", "raw");
    assert_eq!(prefix, "north-sea-raw-");
    let files = vec![
        file("north-sea-raw-aaa.pmtiles", 10),
        file("north-sea-raw-bbb.pmtiles", 30),
        file("ocean.pmtiles", 1),
        file("north-sea-raw-ccc.pmtiles", 20),
        file("north-sea-raw-ddd.txt", 0),
        file("north-sea-raw-eee.pmtiles", 10),
    ];
    assert_eq!(prune(&files, &prefix, 2), vec![0, 5]);
    assert_eq!(prune(&files, &prefix, 3), vec![5]);
    assert!(prune(&files, &prefix, 4).is_empty());
    assert_eq!(prune(&files, &prefix, 0), vec![1, 3, 0, 5]);
    assert!(is_archive(&files[0].name, &prefix));
    assert!(is_output(&files[2].name));
}

#[test]
fn cleaning_says_what_it_did() {
    let wet = Cleaner { dry_run: false };
    let dry = Cleaner { dry_run: true };
    assert_eq!(wet.counted(3, "archive(s)").as_deref(), Some("removed 3 archive(s)"));
    assert_eq!(dry.counted(3, "archive(s)").as_deref(), Some("would remove 3 archive(s)"));
    assert_eq!(dry.counted(0, "archive(s)"), None);
    assert_eq!(wet.cleaned(true, "tilegen_tmp").as_deref(), Some("cleaned tilegen_tmp"));
    assert_eq!(dry.cleaned(true, "tilegen_tmp").as_deref(), Some("would clean tilegen_tmp"));
    assert_eq!(dry.cleaned(false, "tilegen_tmp"), None);
    assert_eq!(wet.removal(true), (true, true));
    assert_eq!(dry.removal(true), (true, false));
    assert_eq!(worktree_line(true, true, 2).as_deref(), Some("would remove 2 worktree(s)"));
    assert_eq!(
        worktree_line(false, false, 2).as_deref(),
        Some("2 persistent worktree(s); run `brokkr clean --worktrees` to remove")
    );
    assert_eq!(worktree_line(false, false, 0), None);
    assert_eq!(cargo_package(false, &None, Project::Pbfhogg), None);
    assert_eq!(cargo_package(true, &None, Project::Pbfhogg).as_deref(), Some("pbfhogg"));
    assert_eq!(cargo_package(false, &Some(None), Project::Pbfhogg).as_deref(), Some("pbfhogg"));
    assert_eq!(
        cargo_package(false, &Some(Some("x".to_string())), Project::Pbfhogg).as_deref(),
        Some("x")
    );
    assert_eq!(cargo_line("x", true), "would run cargo clean -p x");
    assert_eq!(
        clean_summary(b"  Removing\n     Removed 3 files, 1MiB total \n").as_deref(),
        Some("Removed 3 files, 1MiB total")
    );
    assert_eq!(clean_summary(b"\xff \n").as_deref(), Some("\u{fffd}"));
    assert_eq!(clean_summary(b"\n"), None);
}

fn held() -> LockInfo {
    LockInfo {
        pid: 10,
        starttime: String::new(),
        boot_id: String::new(),
        project: "pbfhogg".to_string(),
        command: "run".to_string(),
        args: "read --bench".to_string(),
        project_root: "/p".to_string(),
        child: Some((11, String::new())),
        mocks: vec![(12, String::new()), (13, String::new())],
        progress: Some((2, 5)),
    }
}

#[test]
fn the_holder_is_described() {
    let lines = lock_lines(
        &held(),
        Some("3m02s"),
        Some("5s"),
        &[None, Some("6s".to_string())],
        Some(" phase2 \n"),
    );
    assert_eq!(
        lines,
        vec![
            "brokkr PID 10 running 3m02s: pbfhogg read --bench",
            "root: /p",
            "run 2/5, child PID 11 5s",
            "mock PID 13 6s",
            "last marker: phase2",
        ]
    );
    let mut unknown = held();
    unknown.pid = 0;
    unknown.args = String::new();
    unknown.child = None;
    unknown.mocks = vec![];
    assert_eq!(
        lock_lines(&unknown, Some("1s"), Some("x"), &[], Some("m")),
        vec!["brokkr PID 0: pbfhogg run", "root: /p"]
    );
}

#[test]
fn children_are_ended_before_the_holder() {
    assert_eq!(kill_plan(None, true), KillPlan::Nobody("no active lock"));
    assert_eq!(kill_plan(Some(&held()), false), KillPlan::Ask(10));
    assert_eq!(
        kill_plan(Some(&held()), true),
        KillPlan::End { child: Some(11), mocks: vec![12, 13], holder: 10 }
    );
    let mut unknown = held();
    unknown.pid = 0;
    assert_eq!(
        kill_plan(Some(&unknown), true),
        KillPlan::Nobody("lock held by unknown process; nothing to kill")
    );
    assert!(leads_group(5, 5));
    assert!(!leads_group(5, 4));
    assert!(!leads_group(u32::MAX, -1));
    assert!(found(false, false));
    assert!(!found(false, true));
    assert_eq!(ended_line("child", true, 11, true), "SIGKILL child PG 11: sent");
    assert_eq!(ended_line("brokkr", false, 10, false), "SIGKILL brokkr PID 10: not running");
    assert_eq!(asked_line(10, true), "SIGTERM sent to brokkr PID 10 - cleanup in progress");
    assert_eq!(asked_line(10, false), "brokkr PID 10 is not running; nothing to kill");
}

#[test]
fn cargo_ends_with_a_code_or_a_signal() {
    assert!(cargo_outcome("fmt", Some(0), None).is_ok());
    let Err(DevError::Subprocess { program, code, stderr }) = cargo_outcome("fmt", Some(1), None) else {
        panic!("expected DevError::Subprocess");
    };
    assert_eq!((program.as_str(), code, stderr.as_str()), ("cargo fmt", Some(1), ""));
    let Err(DevError::Subprocess { program, code, stderr }) = cargo_outcome("run", None, Some(9)) else {
        panic!("expected DevError::Subprocess");
    };
    assert_eq!((program.as_str(), code, stderr.as_str()), ("cargo run", None, "killed by signal 9"));
}

fn config_message<T>(r: Result<T, DevError>) -> String {
    match r {
        Err(DevError::Config(m)) => m,
        _ => panic!("expected DevError::Config"),
    }
}

#[test]
fn commands_stay_in_their_projects() {
    assert!(cmd_verify(Project::Nidhogg, Verification::Batch).is_ok());
    assert_eq!(
        config_message(cmd_verify(Project::Pbfhogg, Verification::Readonly)),
        "'brokkr verify readonly' is only available in nidhogg projects (current: pbfhogg)"
    );
    assert!(verify_commit(Verification::Cross, true).is_ok());
    assert!(verify_commit(Verification::Pmtiles, false).is_ok());
    assert!(config_message(verify_commit(Verification::Pmtiles, true)).starts_with("'brokkr verify --commit'"));

    let bench = MeasureMode::Bench { runs: 1 };
    assert!(matches!(select_suite(Project::Nidhogg, false, bench, "nidhogg"), Ok(Suite::Nidhogg)));
    assert_eq!(
        config_message(select_suite(Project::Nidhogg, false, bench, "x")),
        "unknown suite: x (expected: pbfhogg, elivagar, nidhogg)"
    );
    assert_eq!(
        config_message(select_suite(Project::Nidhogg, true, bench, "x")),
        "--dry-run is not yet supported for suites"
    );
    assert_eq!(
        config_message(select_suite(Project::Nidhogg, false, MeasureMode::Alloc { runs: 1 }, "x")),
        "suite mode only supports wall-clock timing"
    );
    assert!(config_message(select_suite(Project::Nidhogg, false, bench, "pbfhogg")).contains("suite pbfhogg"));

    assert!(generic_hotpath(false, MeasureMode::Hotpath { runs: 1 }).is_ok());
    assert!(config_message(generic_hotpath(false, bench)).contains("only supports"));
    assert!(config_message(generic_hotpath(true, bench)).contains("--dry-run"));
    assert_eq!(generic_lines(Project::Other("x"), false), vec!["=== x hotpath ==="]);
    assert_eq!(generic_lines(Project::Other("x"), true).len(), 2);
    assert_eq!(generic_config("./b c", 4).cli_args.as_deref(), Some("\"./b c\""));

    let side = |c, p| visual_side(c, p, true, false);
    assert!(matches!(side(VisualCommand::List, Project::Litehtml), Ok(VisualSide::Litehtml)));
    assert!(matches!(side(VisualCommand::Report, Project::Sluggrs), Ok(VisualSide::Sluggrs)));
    assert_eq!(
        config_message(side(VisualCommand::List, Project::Sluggrs)),
        "no [sluggrs] section in brokkr.toml"
    );
    assert_eq!(
        config_message(side(VisualCommand::Status, Project::Mogwai)),
        "'visual-status' is only available for litehtml/sluggrs projects (current: mogwai)"
    );
    assert!(single_test(Project::Pbfhogg).is_ok());
    assert!(single_test(Project::Sluggrs).is_err());
    assert!(matches!(service_action(Project::Ratatoskr, false, false), Ok(ServiceAction::List)));
    assert!(service_action(Project::Piners, false, false).is_err());
    assert!(matches!(sync_action(false, false, true, true), Ok(SyncAction::GateCohort)));
    assert!(matches!(sync_action(false, true, true, false), Ok(SyncAction::Bench)));
    assert!(matches!(sync_action(false, true, false, false), Ok(SyncAction::Smoke)));
    assert!(matches!(sync_action(false, false, false, false), Ok(SyncAction::List)));
    assert!(config_message(sync_action(false, false, true, false)).starts_with("sync: --bench needs a SCRIPT"));
}
