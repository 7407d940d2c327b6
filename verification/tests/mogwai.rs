//! The registry of a mogwai project.

use brokkr::error::DevError;
use brokkr::mogwai::targets;
use brokkr::mogwai::workload::{check_digest, config, format_index, resolve, Archive, CorpusEntry, HostConfig};
use brokkr::mogwai::{MogwaiConfig, MogwaiTarget, MogwaiTiming, MogwaiWorkload};

fn workload(args: &[&str]) -> MogwaiWorkload {
    MogwaiWorkload {
        description: None,
        args: args.iter().map(|a| a.to_string()).collect(),
        runs: None,
        expect_seconds: None,
        corpus: None,
        successor: None,
        timing: MogwaiTiming::External,
        identity_counters: vec![],
    }
}

fn config_with(workloads: Vec<(&str, MogwaiWorkload)>) -> MogwaiConfig {
    MogwaiConfig {
        package: Some("mogwai-cli".to_string()),
        bin: None,
        workloads: workloads.into_iter().map(|(n, w)| (n.to_string(), w)).collect(),
        targets: vec![],
    }
}

fn targets_with(targets: Vec<(&str, MogwaiTarget)>) -> MogwaiConfig {
    MogwaiConfig {
        package: Some("mogwai-cli".to_string()),
        bin: Some("mogwai".to_string()),
        workloads: vec![],
        targets: targets.into_iter().map(|(n, t)| (n.to_string(), t)).collect(),
    }
}

fn target(package: Option<&str>, example: &str, features: &[&str]) -> MogwaiTarget {
    MogwaiTarget {
        package: package.map(str::to_string),
        example: example.to_string(),
        features: features.iter().map(|f| f.to_string()).collect(),
    }
}

fn untouched() -> Archive {
    Archive { exists: false, complaints: None }
}

fn host(path: &str, xxh128: Option<&str>) -> HostConfig {
    HostConfig {
        corpus: vec![(
            "july".to_string(),
            CorpusEntry { path: path.to_string(), xxh128: xxh128.map(str::to_string) },
        )],
    }
}

#[test]
fn resolves_a_registered_workload() {
    let cfg = config_with(vec![("screen-probe", workload(&["screen", "--probe"]))]);
    let Ok((resolved, warning)) = resolve(&cfg, None, "nohost", ".", "screen-probe", untouched()) else {
        panic!("expected a workload");
    };
    assert_eq!(resolved.name, "screen-probe");
    assert_eq!(resolved.args(), vec!["screen", "--probe"]);
    assert!(warning.is_none());
}

#[test]
fn retired_workload_refuses_and_names_its_successor() {
    let mut old = workload(&["screen"]);
    old.successor = Some("screen-v2".to_string());
    let cfg = config_with(vec![("screen-v1", old), ("screen-v2", workload(&["screen", "--wide"]))]);
    let Err(DevError::Config(msg)) = resolve(&cfg, None, "nohost", ".", "screen-v1", untouched()) else {
        panic!("expected DevError::Config");
    };
    assert!(msg.contains("screen-v2"), "{msg}");
    assert!(msg.contains("brokkr results"), "{msg}");
    assert!(msg.starts_with("workload \"screen-v1\" is retired"), "{msg}");
}

#[test]
fn unknown_workload_lists_only_the_live_names() {
    let mut beta = workload(&["b"]);
    beta.successor = Some("alpha".to_string());
    let cfg = config_with(vec![("alpha", workload(&["a"])), ("beta", beta)]);
    let Err(DevError::Config(msg)) = resolve(&cfg, None, "nohost", ".", "gamma", untouched()) else {
        panic!("expected DevError::Config");
    };
    assert!(msg.contains("alpha"), "{msg}");
    assert!(!msg.contains("beta"), "{msg}");
}

#[test]
fn corpus_token_is_replaced_with_the_resolved_path() {
    let mut w = workload(&["measure", "--input", "{corpus}"]);
    w.corpus = Some("july".to_string());
    let cfg = config_with(vec![("measure12a", w)]);
    let digest = brokkr::hold::digest(b"delivered bytes\n");
    let frigg = host("deliveries/july.bin", Some(&digest));
    let complaints = check_digest("/work/root/deliveries/july.bin", b"delivered bytes\n", &digest, "july");
    let found = Archive { exists: true, complaints };
    let Ok((resolved, warning)) = resolve(&cfg, Some(&frigg), "frigg", "/work/root", "measure12a", found) else {
        panic!("expected a workload");
    };
    assert_eq!(resolved.args(), vec!["measure", "--input", "/work/root/deliveries/july.bin"]);
    assert_eq!(resolved.corpus(), Some("july"));
    assert!(warning.is_none());
}

#[test]
fn corpus_without_a_registered_digest_still_resolves() {
    let mut w = workload(&["m", "{corpus}"]);
    w.corpus = Some("july".to_string());
    let cfg = config_with(vec![("w", w)]);
    let frigg = host("july.bin", None);
    let found = Archive { exists: true, complaints: None };
    let Ok((resolved, warning)) = resolve(&cfg, Some(&frigg), "frigg", "/work/root", "w", found) else {
        panic!("expected a workload");
    };
    assert_eq!(resolved.args(), vec!["m", "/work/root/july.bin"]);
    assert!(warning.unwrap().contains("running UNVERIFIED"));
}

#[test]
fn corpus_refuses_an_archive_that_drifted_since_registration() {
    let mut w = workload(&["m", "{corpus}"]);
    w.corpus = Some("july".to_string());
    let cfg = config_with(vec![("w", w)]);
    let frigg = host("july.bin", Some("00000000000000000000000000000000"));
    let origin = brokkr::mogwai::workload::origin("frigg", "july");
    let complaints = check_digest("/work/root/july.bin", b"delivered bytes\n", "00000000000000000000000000000000", &origin);
    let found = Archive { exists: true, complaints };
    let Err(DevError::Preflight(msgs)) = resolve(&cfg, Some(&frigg), "frigg", "/work/root", "w", found) else {
        panic!("expected a preflight refusal");
    };
    let joined = msgs.join("\n");
    assert!(joined.contains("hash mismatch"), "{joined}");
    assert!(joined.contains("[frigg.corpus.july]"), "{joined}");
}

#[test]
fn a_missing_archive_is_named_with_its_registration() {
    let mut w = workload(&["m", "{corpus}"]);
    w.corpus = Some("july".to_string());
    let cfg = config_with(vec![("w", w)]);
    let frigg = host("july.bin", None);
    let Err(DevError::Config(msg)) = resolve(&cfg, Some(&frigg), "frigg", "/work/root", "w", untouched()) else {
        panic!("expected DevError::Config");
    };
    assert_eq!(
        msg,
        "corpus \"july\" not found at /work/root/july.bin\n  registered as: july.bin\n  origin: [frigg.corpus.july].path"
    );
}

#[test]
fn corpus_unregistered_on_this_host_says_what_to_add() {
    let mut w = workload(&["m", "{corpus}"]);
    w.corpus = Some("july".to_string());
    let cfg = config_with(vec![("w", w)]);
    let Err(DevError::Config(msg)) = resolve(&cfg, None, "unknownbox", "/work/root", "w", untouched()) else {
        panic!("expected DevError::Config");
    };
    assert!(msg.contains("unknownbox.corpus.july"), "{msg}");

    let other = HostConfig { corpus: vec![] };
    let Err(DevError::Config(msg)) = resolve(&cfg, Some(&other), "unknownbox", "/work/root", "w", untouched()) else {
        panic!("expected DevError::Config");
    };
    assert!(msg.contains("registered here: none registered"), "{msg}");
}

#[test]
fn generated_workload_never_consults_the_host() {
    let cfg = config_with(vec![("w", workload(&["screen"]))]);
    assert!(resolve(&cfg, None, "a-host-that-does-not-exist", "/nonexistent", "w", untouched()).is_ok());
}

#[test]
fn index_marks_the_self_reported_entry_only() {
    let mut b = workload(&["b"]);
    b.timing = MogwaiTiming::SelfReported;
    let cfg = config_with(vec![("alpha", workload(&["a"])), ("beta", b)]);
    let index = format_index(config(Some(&cfg)).unwrap());
    let alpha = index.lines().find(|l| l.contains("alpha")).unwrap();
    let beta = index.lines().find(|l| l.contains("beta")).unwrap();
    assert!(!alpha.contains("self-reported"), "{index}");
    assert!(beta.contains("self-reported"), "{index}");
}

#[test]
fn index_marks_retired_entries() {
    let mut a = workload(&["a"]);
    a.description = Some("the live one".to_string());
    a.runs = Some(3);
    a.expect_seconds = Some(40);
    let mut b = workload(&["b"]);
    b.successor = Some("alpha".to_string());
    let cfg = config_with(vec![("alpha", a), ("beta", b)]);
    let index = format_index(config(Some(&cfg)).unwrap());
    assert!(index.contains("the live one"), "{index}");
    assert!(index.contains("retired -> alpha"), "{index}");
    assert_eq!(
        index,
        "  alpha  the live one [3 run(s), ~40s each]\n  beta   retired -> alpha\n"
    );
}

#[test]
fn a_project_without_the_section_is_told_how_to_add_it() {
    let Err(DevError::Config(msg)) = config(None) else {
        panic!("expected DevError::Config");
    };
    assert!(msg.starts_with("no [mogwai] section in brokkr.toml"), "{msg}");
    let Err(DevError::Config(msg)) = targets::config(None) else {
        panic!("expected DevError::Config");
    };
    assert!(msg.ends_with("bin = \"mogwai\""), "{msg}");
}

#[test]
fn no_target_resolves_the_registered_bin() {
    let cfg = targets_with(vec![]);
    let Ok(resolved) = targets::resolve(targets::config(Some(&cfg)).unwrap(), None, &[]) else {
        panic!("expected a build");
    };
    assert_eq!(resolved.name, "mogwai");
    assert_eq!(resolved.build.bin.as_deref(), Some("mogwai"));
    assert!(resolved.build.example.is_none());
}

#[test]
fn a_target_resolves_to_its_example_and_features() {
    let cfg = targets_with(vec![(
        "screen_projection",
        target(Some("mogwai-lab"), "screen_projection_bench", &["hotpath"]),
    )]);
    let Ok(resolved) = targets::resolve(&cfg, Some("screen_projection"), &[]) else {
        panic!("expected a build");
    };
    assert_eq!(resolved.name, "screen_projection");
    assert_eq!(resolved.build.package.as_deref(), Some("mogwai-lab"));
    assert_eq!(
        resolved.build.example.as_deref(),
        Some("screen_projection_bench")
    );
    assert_eq!(resolved.build.features, vec!["hotpath"]);
}

#[test]
fn call_site_features_append_to_the_registered_ones() {
    let cfg = targets_with(vec![("walk", target(None, "arrival_walk_bench", &["hotpath"]))]);
    let extra = vec![String::from("hotpath-alloc")];
    let Ok(resolved) = targets::resolve(&cfg, Some("walk"), &extra) else {
        panic!("expected a build");
    };
    assert_eq!(resolved.build.features, vec!["hotpath", "hotpath-alloc"]);
}

#[test]
fn a_target_without_a_package_falls_back_to_the_mogwai_one() {
    let cfg = targets_with(vec![("walk", target(None, "arrival_walk_bench", &[]))]);
    let Ok(resolved) = targets::resolve(&cfg, Some("walk"), &[]) else {
        panic!("expected a build");
    };
    assert_eq!(resolved.build.package.as_deref(), Some("mogwai-cli"));
}

#[test]
fn an_unknown_target_lists_the_registered_ones_and_the_cli_form() {
    let cfg = targets_with(vec![("walk", target(None, "arrival_walk_bench", &[]))]);
    let Err(DevError::Config(msg)) = targets::resolve(&cfg, Some("nope"), &[]) else {
        panic!("expected DevError::Config");
    };
    assert!(msg.contains("walk"), "{msg}");
    assert!(msg.contains("brokkr mogwai --"), "{msg}");
}

#[test]
fn a_section_without_a_binary_has_no_command_line() {
    let mut cfg = targets_with(vec![]);
    cfg.package = None;
    cfg.bin = None;
    let Err(DevError::Config(msg)) = targets::resolve(&cfg, None, &[]) else {
        panic!("expected DevError::Config");
    };
    assert!(msg.contains("names neither `package` nor `bin`"), "{msg}");
}

#[test]
fn the_index_names_the_cli_form_and_every_target() {
    let cfg = targets_with(vec![("walk", target(None, "arrival_walk_bench", &["hotpath"]))]);
    let index = targets::format_index(&cfg);
    assert!(index.contains("brokkr mogwai -- <args>"), "{index}");
    assert!(index.contains("arrival_walk_bench"), "{index}");
    assert!(index.contains("hotpath"), "{index}");
    assert_eq!(
        index,
        "  CLI      brokkr mogwai -- <args>   (mogwai)\n  targets\n    walk  mogwai-cli/arrival_walk_bench  [hotpath]\n"
    );
}

#[test]
fn an_empty_registry_still_offers_the_cli() {
    let cfg = targets_with(vec![]);
    let index = targets::format_index(&cfg);
    assert!(index.contains("none registered"), "{index}");
    assert!(index.contains("brokkr mogwai -- <args>"), "{index}");
}

#[test]
fn a_digest_is_compared_with_the_registered_one() {
    let actual = brokkr::hold::digest(b"archive");
    assert_eq!(actual, format!("{:032x}", xxhash_rust::xxh3::xxh3_128(b"archive")));
    assert_eq!(check_digest("/a", b"archive", &actual, "here"), None);
    let lines = check_digest("/a", b"other", &actual, "here").unwrap();
    assert_eq!(lines[0], "hash mismatch for /a");
    assert_eq!(lines[1], format!("expected {actual} (here)"));
    assert_eq!(lines[2], format!("actual   {}", brokkr::hold::digest(b"other")));
}
