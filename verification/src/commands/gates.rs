//! Which command may run where, and what it then does.

use crate::error::{DevError, ErrorView};
use crate::harness::command_line::{cli_text, format_cli_args, hotpath_feature};
use crate::harness::{BenchConfig, CargoProfile};
use crate::measure::MeasureMode;
use crate::project::{is_project, require, Project};
use crate::text::{opt_view, same, views};
use vstd::prelude::*;

verus! {

/// What is said of a command outside the project that it belongs to.
pub open spec fn refusal(command: Seq<char>, wanted: Project, project: Project) -> ErrorView {
    ErrorView::Config(
        "'brokkr "@ + command + "' is only available in "@ + wanted.name_text()
            + " projects (current: "@ + project.name_text() + ")"@,
    )
}

/// The archives to describe, in order: only where archives are made or served.
pub fn cmd_pmtiles_stats<'a>(project: Project, files: &'a [String]) -> (r: Result<&'a [String], DevError>)
    ensures
        project is Elivagar || project is Nidhogg ==> (r matches Ok(list) && list@ == files@),
        !(project is Elivagar || project is Nidhogg) ==> (r matches Err(e) && e@
            == ErrorView::Config(
            "'brokkr pmtiles-stats' is only available in elivagar and nidhogg projects (current: "@
                + project.name_text() + ")"@,
        )),
{
    if !matches!(project, Project::Elivagar | Project::Nidhogg) {
        let mut m = "'brokkr pmtiles-stats' is only available in elivagar and nidhogg projects (current: ".to_owned();
        m.append(project.name());
        m.append(")");
        return Err(DevError::Config(m));
    }
    Ok(files)
}

/// A verification.
#[derive(Debug, Clone, Copy, PartialEq, Eq, Structural)]
pub enum Verification {
    /// An archive of tiles.
    Pmtiles,
    Batch,
    Geocode,
    Readonly,
    /// Any that compares the commands of pbfhogg with other tools.
    Cross,
}

/// The project of a verification, and the name of the command.
pub open spec fn verification_home(v: Verification) -> (Project, Seq<char>) {
    match v {
        Verification::Pmtiles => (Project::Elivagar, "verify"@),
        Verification::Batch => (Project::Nidhogg, "verify batch"@),
        Verification::Geocode => (Project::Nidhogg, "verify geocode"@),
        Verification::Readonly => (Project::Nidhogg, "verify readonly"@),
        Verification::Cross => (Project::Pbfhogg, "verify"@),
    }
}

/// Refuses a verification outside its project.
pub fn cmd_verify(project: Project, v: Verification) -> (r: Result<(), DevError>)
    ensures
        is_project(project, verification_home(v).0) <==> r is Ok,
        r matches Err(e) ==> e@ == refusal(verification_home(v).1, verification_home(v).0, project),
{
    match v {
        Verification::Pmtiles => require(project, Project::Elivagar, "verify"),
        Verification::Batch => require(project, Project::Nidhogg, "verify batch"),
        Verification::Geocode => require(project, Project::Nidhogg, "verify geocode"),
        Verification::Readonly => require(project, Project::Nidhogg, "verify readonly"),
        Verification::Cross => require(project, Project::Pbfhogg, "verify"),
    }
}

/// What is said of a commit to build for a verification that builds nothing.
pub const NO_REBUILD: &'static str = "'brokkr verify --commit' rebuilds a historical binary, which 'verify pmtiles' never needs - it reads the archive with the current one. Use 'brokkr verify pmtiles --commit <hash>' to choose which archive to open.";

/// Refuses a commit to build for a verification that builds nothing.
pub fn verify_commit(v: Verification, has_commit: bool) -> (r: Result<(), DevError>)
    ensures
        v == Verification::Pmtiles && has_commit <==> r is Err,
        r matches Err(e) ==> e@ == ErrorView::Config(NO_REBUILD@),
{
    if matches!(v, Verification::Pmtiles) && has_commit {
        return Err(DevError::Config(NO_REBUILD.to_owned()));
    }
    Ok(())
}

/// A list of benchmarks that are run one after the other.
#[derive(Debug, Clone, Copy, PartialEq, Eq, Structural)]
pub enum Suite {
    Pbfhogg,
    Elivagar,
    /// The queries, then taking in a file.
    Nidhogg,
}

/// The suite of a name, and its project.
pub open spec fn suite_named(name: Seq<char>) -> Option<(Suite, Project, Seq<char>)> {
    if name == "pbfhogg"@ {
        Some((Suite::Pbfhogg, Project::Pbfhogg, "suite pbfhogg"@))
    } else if name == "elivagar"@ {
        Some((Suite::Elivagar, Project::Elivagar, "suite elivagar"@))
    } else if name == "nidhogg"@ {
        Some((Suite::Nidhogg, Project::Nidhogg, "suite nidhogg"@))
    } else {
        None
    }
}

/// Decides on a suite: it runs for real, by the clock, and in its project.
pub fn select_suite(project: Project, dry_run: bool, mode: MeasureMode, name: &str) -> (r: Result<
    Suite,
    DevError,
>)
    ensures
        dry_run ==> (r matches Err(e) && e@ == ErrorView::Config(
            "--dry-run is not yet supported for suites"@,
        )),
        !dry_run && !(mode is Run || mode is Bench) ==> (r matches Err(e) && e@
            == ErrorView::Config("suite mode only supports wall-clock timing"@)),
        !dry_run && (mode is Run || mode is Bench) ==> match suite_named(name@) {
            Some((suite, home, command)) => if is_project(project, home) {
                r == Ok::<Suite, DevError>(suite)
            } else {
                r matches Err(e) && e@ == refusal(command, home, project)
            },
            None => r matches Err(e) && e@ == ErrorView::Config(
                "unknown suite: "@ + name@ + " (expected: pbfhogg, elivagar, nidhogg)"@,
            ),
        },
{
    if dry_run {
        return Err(DevError::Config("--dry-run is not yet supported for suites".to_owned()));
    }
    if !matches!(mode, MeasureMode::Run | MeasureMode::Bench { .. }) {
        return Err(DevError::Config("suite mode only supports wall-clock timing".to_owned()));
    }
    if same(name, "pbfhogg") {
        match require(project, Project::Pbfhogg, "suite pbfhogg") {
            Ok(_) => Ok(Suite::Pbfhogg),
            Err(e) => Err(e),
        }
    } else if same(name, "elivagar") {
        match require(project, Project::Elivagar, "suite elivagar") {
            Ok(_) => Ok(Suite::Elivagar),
            Err(e) => Err(e),
        }
    } else if same(name, "nidhogg") {
        match require(project, Project::Nidhogg, "suite nidhogg") {
            Ok(_) => Ok(Suite::Nidhogg),
            Err(e) => Err(e),
        }
    } else {
        let mut m = "unknown suite: ".to_owned();
        m.append(name);
        m.append(" (expected: pbfhogg, elivagar, nidhogg)");
        Err(DevError::Config(m))
    }
}

/// Decides on a profile of a project without benchmarks of its own.
pub fn generic_hotpath(dry_run: bool, mode: MeasureMode) -> (r: Result<(), DevError>)
    ensures
        dry_run ==> (r matches Err(e) && e@ == ErrorView::Config(
            "--dry-run is not yet supported for generic-hotpath"@,
        )),
        !dry_run && !(mode is Alloc || mode is Hotpath) ==> (r matches Err(e) && e@
            == ErrorView::Config("generic-hotpath only supports --hotpath or --alloc modes"@)),
        !dry_run && (mode is Alloc || mode is Hotpath) ==> r is Ok,
{
    if dry_run {
        return Err(
            DevError::Config("--dry-run is not yet supported for generic-hotpath".to_owned()),
        );
    }
    if !matches!(mode, MeasureMode::Alloc { .. } | MeasureMode::Hotpath { .. }) {
        return Err(
            DevError::Config("generic-hotpath only supports --hotpath or --alloc modes".to_owned()),
        );
    }
    Ok(())
}

/// The headlines of such a profile.
pub fn generic_lines(project: Project, alloc: bool) -> (r: Vec<String>)
    ensures
        views(r@) == (if alloc {
            seq![
                "=== "@ + project.name_text() + " "@ + "hotpath-alloc"@ + " ==="@,
                "NOTE: alloc profiling -- wall-clock times are not meaningful"@,
            ]
        } else {
            seq!["=== "@ + project.name_text() + " "@ + "hotpath"@ + " ==="@]
        }),
{
    let mut head = "=== ".to_owned();
    head.append(project.name());
    head.append(" ");
    head.append(hotpath_feature(alloc));
    head.append(" ===");
    let ghost line = head@;
    let mut out: Vec<String> = Vec::new();
    out.push(head);
    if alloc {
        out.push("NOTE: alloc profiling -- wall-clock times are not meaningful".to_owned());
        assert(views(out@) =~= seq![
            line,
            "NOTE: alloc profiling -- wall-clock times are not meaningful"@,
        ]);
    } else {
        assert(views(out@) =~= seq![line]);
    }
    out
}

/// The configuration of such a profile: the binary without arguments.
pub fn generic_config(binary: &str, runs: usize) -> (r: BenchConfig)
    ensures
        r.command@ == "default"@,
        r.mode is None,
        r.input_file is None,
        r.input_mb is None,
        r.cargo_features is None,
        r.cargo_profile == CargoProfile::Release,
        r.runs == runs,
        opt_view(r.cli_args) == Some(cli_text(binary@, Seq::empty())),
        r.brokkr_args is None,
        r.metadata@.len() == 0,
{
    let none: Vec<&str> = Vec::new();
    assert(crate::harness::command_line::str_views(none@) =~= Seq::empty());
    BenchConfig {
        command: "default".to_owned(),
        mode: None,
        input_file: None,
        input_mb: None,
        cargo_features: None,
        cargo_profile: CargoProfile::Release,
        runs,
        cli_args: Some(format_cli_args(binary, &none)),
        brokkr_args: None,
        metadata: Vec::new(),
    }
}

/// A command that compares pictures.
#[derive(Debug, Clone, Copy, PartialEq, Eq, Structural)]
pub enum VisualCommand {
    Visual,
    List,
    Approve,
    Report,
    Status,
}

/// Who compares the pictures.
#[derive(Debug, Clone, Copy, PartialEq, Eq, Structural)]
pub enum VisualSide {
    Litehtml,
    Sluggrs,
}

/// What is said of such a command in another project.
pub open spec fn visual_refusal(c: VisualCommand, project: Project) -> Seq<char> {
    (match c {
        VisualCommand::Visual => "'visual' runs visual tests and is only available for litehtml/sluggrs projects (current: "@,
        VisualCommand::List => "'list' is only available for litehtml/sluggrs projects (current: "@,
        VisualCommand::Approve => "'approve' is only available for litehtml/sluggrs projects (current: "@,
        VisualCommand::Report => "'report' is only available for litehtml/sluggrs projects (current: "@,
        VisualCommand::Status => "'visual-status' is only available for litehtml/sluggrs projects (current: "@,
    }) + project.name_text() + ")"@
}

/// Decides who compares the pictures. A report needs no section in the
/// configuration; every other command does.
pub fn visual_side(c: VisualCommand, project: Project, has_litehtml: bool, has_sluggrs: bool) -> (r:
    Result<VisualSide, DevError>)
    ensures
        project is Litehtml ==> if has_litehtml || c == VisualCommand::Report {
            r == Ok::<VisualSide, DevError>(VisualSide::Litehtml)
        } else {
            r matches Err(e) && e@ == ErrorView::Config("no [litehtml] section in brokkr.toml"@)
        },
        project is Sluggrs ==> if has_sluggrs || c == VisualCommand::Report {
            r == Ok::<VisualSide, DevError>(VisualSide::Sluggrs)
        } else {
            r matches Err(e) && e@ == ErrorView::Config("no [sluggrs] section in brokkr.toml"@)
        },
        !(project is Litehtml) && !(project is Sluggrs) ==> (r matches Err(e) && e@
            == ErrorView::Config(visual_refusal(c, project))),
{
    let report = matches!(c, VisualCommand::Report);
    match project {
        Project::Litehtml => if has_litehtml || report {
            Ok(VisualSide::Litehtml)
        } else {
            Err(DevError::Config("no [litehtml] section in brokkr.toml".to_owned()))
        },
        Project::Sluggrs => if has_sluggrs || report {
            Ok(VisualSide::Sluggrs)
        } else {
            Err(DevError::Config("no [sluggrs] section in brokkr.toml".to_owned()))
        },
        other => {
            let mut m = match c {
                VisualCommand::Visual => "'visual' runs visual tests and is only available for litehtml/sluggrs projects (current: ".to_owned(),
                VisualCommand::List => "'list' is only available for litehtml/sluggrs projects (current: ".to_owned(),
                VisualCommand::Approve => "'approve' is only available for litehtml/sluggrs projects (current: ".to_owned(),
                VisualCommand::Report => "'report' is only available for litehtml/sluggrs projects (current: ".to_owned(),
                VisualCommand::Status => "'visual-status' is only available for litehtml/sluggrs projects (current: ".to_owned(),
            };
            m.append(other.name());
            m.append(")");
            Err(DevError::Config(m))
        },
    }
}

/// Refuses to run a test of cargo where the tests are pictures.
pub fn single_test(project: Project) -> (r: Result<(), DevError>)
    ensures
        project is Litehtml || project is Sluggrs <==> r is Err,
        r matches Err(e) ==> e@ == ErrorView::Config(
            "'test' runs a single cargo test; litehtml/sluggrs use `brokkr visual` for visual-fixture testing."@,
        ),
{
    if matches!(project, Project::Litehtml | Project::Sluggrs) {
        return Err(
            DevError::Config(
                "'test' runs a single cargo test; litehtml/sluggrs use `brokkr visual` for visual-fixture testing.".to_owned(),
            ),
        );
    }
    Ok(())
}

/// What the services of ratatoskr are asked.
#[derive(Debug, Clone, Copy, PartialEq, Eq, Structural)]
pub enum ServiceAction {
    /// Every script that is found.
    All,
    /// One script, or those of a directory.
    Script,
    List,
}

/// Decides what the services are asked: without a script they are listed.
pub fn service_action(project: Project, all: bool, has_script: bool) -> (r: Result<
    ServiceAction,
    DevError,
>)
    ensures
        is_project(project, Project::Ratatoskr) ==> r == Ok::<ServiceAction, DevError>(
            if all {
                ServiceAction::All
            } else if has_script {
                ServiceAction::Script
            } else {
                ServiceAction::List
            },
        ),
        !is_project(project, Project::Ratatoskr) ==> (r matches Err(e) && e@ == refusal(
            "service"@,
            Project::Ratatoskr,
            project,
        )),
{
    match require(project, Project::Ratatoskr, "service") {
        Err(e) => Err(e),
        Ok(_) => Ok(
            if all {
                ServiceAction::All
            } else if has_script {
                ServiceAction::Script
            } else {
                ServiceAction::List
            },
        ),
    }
}

/// What a synchronisation is asked.
#[derive(Debug, Clone, Copy, PartialEq, Eq, Structural)]
pub enum SyncAction {
    /// Every script that is found.
    All,
    List,
    /// Run one script.
    Smoke,
    /// Measure one script.
    Bench,
    /// Measure the script of every gate.
    GateCohort,
}

/// What is said of a measurement of nothing.
pub const BENCH_NEEDS_SCRIPT: &'static str = "sync: --bench needs a SCRIPT to measure (or --gate all to sweep every configured gate)";

/// The action of a synchronisation.
pub open spec fn sync_of(all: bool, has_script: bool, has_bench: bool, cohort: bool) -> Option<
    SyncAction,
> {
    if all {
        Some(SyncAction::All)
    } else if !has_script && !cohort {
        if has_bench {
            None
        } else {
            Some(SyncAction::List)
        }
    } else if !has_bench {
        Some(SyncAction::Smoke)
    } else if cohort {
        Some(SyncAction::GateCohort)
    } else {
        Some(SyncAction::Bench)
    }
}

/// Decides what a synchronisation is asked. A measurement needs a script, unless
/// the gates bring their own.
pub fn sync_action(all: bool, has_script: bool, has_bench: bool, cohort: bool) -> (r: Result<
    SyncAction,
    DevError,
>)
    ensures
        match sync_of(all, has_script, has_bench, cohort) {
            Some(a) => r == Ok::<SyncAction, DevError>(a),
            None => r matches Err(e) && e@ == ErrorView::Config(BENCH_NEEDS_SCRIPT@),
        },
{
    if all {
        return Ok(SyncAction::All);
    }
    if !has_script && !cohort {
        if has_bench {
            return Err(DevError::Config(BENCH_NEEDS_SCRIPT.to_owned()));
        }
        return Ok(SyncAction::List);
    }
    if !has_bench {
        return Ok(SyncAction::Smoke);
    }
    if cohort {
        Ok(SyncAction::GateCohort)
    } else {
        Ok(SyncAction::Bench)
    }
}

} // verus!
