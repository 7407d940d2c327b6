//! What is measured, and with which files.

use brokkr::commands::dispatch::{
    check_home, figures, lock_name, need, parent_build_root, run_measured, strategies, Command, Need,
};
use brokkr::commands::gates::{Verification, VisualCommand};
use brokkr::commands::options::ModeArgs;
use brokkr::error::DevError;
use brokkr::measure::{CommandContext, MeasureMode, MeasureRequest};
use brokkr::path::FilePath;
use brokkr::project::Project;

#[test]
fn a_request_knows_its_features() {
    let root = FilePath::from_text("/root");
    let other = FilePath::from_text("/other");
    let features = vec!["a".to_string()];
    let mut req = MeasureRequest {
        project: Project::Pbfhogg,
        project_root: &root,
        build_root: None,
        dataset: "denmark",
        variant: "raw",
        features: &features,
        force: false,
        mode: MeasureMode::Alloc { runs: 4 },
        brokkr_args: "",
        no_mem_check: false,
        wait: false,
        dry_run: false,
        stop_marker: None,
    };
    assert_eq!(req.runs(), 4);
    assert!(req.is_alloc());
    assert_eq!(req.variant_mode(), Some("alloc"));
    assert_eq!(req.feat_refs(), vec!["a"]);
    assert_eq!(req.hotpath_features(), vec!["hotpath-alloc", "a"]);
    assert_eq!(req.effective_build_root().bytes, root.bytes);
    req.build_root = Some(&other);
    req.mode = MeasureMode::Run;
    assert_eq!(req.effective_build_root().bytes, other.bytes);
    assert_eq!(req.variant_mode(), None);
    assert_eq!(req.runs(), 1);
}

#[test]
fn paths_must_be_text_where_they_become_arguments() {
    let mut ctx = CommandContext {
        binary: FilePath::from_text("/b"),
        pbf_path: FilePath::from_text("/data/dk.osm.pbf"),
        osc_path: None,
        osc_paths: vec![],
        pbf_b_path: None,
        scratch_dir: FilePath::from_text("/s"),
        dataset: "denmark".to_string(),
        bbox: None,
        params: vec![],
    };
    assert_eq!(ctx.pbf_str().unwrap(), "/data/dk.osm.pbf");
    assert_eq!(ctx.binary_str().unwrap(), "/b");
    assert_eq!(ctx.pbf_basename(), "dk.osm.pbf");
    assert_eq!(ctx.scratch_output("x", "pbf").to_str().as_deref(), Some("/s/x.pbf"));
    assert!(matches!(ctx.osc_str(), Err(DevError::Config(m)) if m == "OSC path is required but not set"));
    assert!(matches!(ctx.osc_strs(), Err(DevError::Config(m)) if m == "OSC paths are required but not set"));
    assert!(ctx.pbf_b_str().is_err());
    ctx.osc_paths = vec![FilePath::from_text("/1.osc"), FilePath { bytes: vec![0xff] }];
    assert!(matches!(ctx.osc_strs(), Err(DevError::Config(m)) if m == "OSC path is not valid UTF-8"));
    ctx.set_param("k", "1");
    ctx.set_param("k", "2");
    assert_eq!(ctx.param("k"), Some("2"));
    assert_eq!(ctx.param("j"), None);
    assert_eq!(ctx.params.len(), 1);
}

#[test]
fn commands_need_what_they_need() {
    assert_eq!(need(Command::Lock), Need::Nothing);
    assert_eq!(need(Command::Check), Need::Optional);
    assert_eq!(need(Command::Serve), Need::Project);
    assert_eq!(lock_name(Command::Passthrough), Some("run"));
    assert_eq!(lock_name(Command::Verify(Verification::Pmtiles)), Some("verify pmtiles"));
    assert_eq!(lock_name(Command::Verify(Verification::Batch)), None);
    assert_eq!(lock_name(Command::Visual(VisualCommand::Visual)), Some("visual"));
    assert_eq!(lock_name(Command::Visual(VisualCommand::List)), None);
    assert!(check_home(Command::LintCorpus, Project::Piners).is_ok());
    assert!(matches!(
        check_home(Command::LintCorpus, Project::Pbfhogg),
        Err(DevError::Config(m)) if m == "'brokkr lint-corpus' is only available in piners projects (current: pbfhogg)"
    ));
    assert!(check_home(Command::Env, Project::Other("x")).is_ok());
    assert_eq!(figures(Command::NodeStore, "d", "v"), Some(("denmark", "raw")));
    assert_eq!(figures(Command::RunApi, "d", "v"), Some(("d", "raw")));
    assert_eq!(figures(Command::Read, "d", "v"), Some(("d", "v")));
    assert_eq!(figures(Command::Mogwai, "d", "v"), Some(("", "")));
    assert_eq!(figures(Command::Env, "d", "v"), None);
    assert_eq!(parent_build_root("/a", "/a"), None);
    assert_eq!(parent_build_root("/a/b", "/a"), Some("/a/b"));
    assert_eq!(strategies("all", &["x", "y"]), vec!["x", "y"]);
    assert_eq!(strategies("x", &["x", "y"]), vec!["x"]);
}

#[test]
fn a_measured_command_is_settled_first() {
    let host = vec!["h".to_string()];
    let asked = vec!["h".to_string(), "x".to_string()];
    let mode = ModeArgs { bench: Some(2), hotpath: None, alloc: None };
    let settled = run_measured(&mode, false, &host, &asked).unwrap();
    assert_eq!(settled.mode, MeasureMode::Bench { runs: 2 });
    assert_eq!(settled.features, vec!["h", "x"]);
    assert!(settled.quiet);
    let both = ModeArgs { bench: Some(2), hotpath: Some(1), alloc: None };
    assert!(run_measured(&both, true, &host, &asked).is_err());
}
