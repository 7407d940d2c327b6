//! From a command to what it needs before it can run.

use crate::commands::gates::{refusal, verification_home, Verification, VisualCommand};
use crate::commands::options::{features_of, resolve_features, resolve_mode, ModeArgs};
use crate::error::{DevError, ErrorView};
use crate::measure::MeasureMode;
use crate::project::{is_project, require, Project};
use crate::text::{same, views};
use vstd::prelude::*;

verus! {

/// A command, as far as it decides what happens before it runs.
#[derive(Debug, Clone, Copy, PartialEq, Eq, Structural)]
pub enum Command {
    Lock,
    Kill,
    History,
    Fmt,
    Man,
    Run,
    Install,
    Wc,
    Bench,
    Deps,
    Check,
    Clippy,
    Env,
    /// Any command of pbfhogg that is measured over a dataset.
    Pbfhogg,
    DiffSnapshots,
    Extract,
    MultiExtract,
    Read,
    Write,
    MergeBench,
    Tilegen,
    PmtilesWriter,
    NodeStore,
    ElivPlanetiler,
    ElivTilemaker,
    RunApi,
    RunNidIngest,
    RunTiles,
    Dellingr,
    Mogwai,
    GenericHotpath,
    Suite,
    Passthrough,
    Results,
    CorpusResults,
    Sidecar,
    Invalidate,
    Clean,
    Verify(Verification),
    Download,
    CompareTiles,
    PmtilesInspect,
    Diag,
    Svg,
    Regress,
    PmtilesCorpus,
    DownloadOcean,
    OceanBuild,
    DownloadNaturalEarth,
    PmtilesStats,
    Serve,
    Stop,
    Status,
    Ingest,
    Update,
    Query,
    Geocode,
    Visual(VisualCommand),
    Test,
    Prepare,
    HtmlExtract,
    Outline,
    Hotpath,
    Service,
    Sync,
    MockServe,
    Corpus,
    LintCorpus,
    LintResults,
}

/// Whether a command needs to know the project.
#[derive(Debug, Clone, Copy, PartialEq, Eq, Structural)]
pub enum Need {
    /// It runs anywhere.
    Nothing,
    /// It uses the configuration of a project where there is one.
    Optional,
    /// It runs only in a project.
    Project,
}

/// What a command needs to know.
pub open spec fn need_of(c: Command) -> Need {
    match c {
        Command::Lock | Command::Kill | Command::History | Command::Fmt | Command::Man => Need::Nothing,
        Command::Run | Command::Install | Command::Wc | Command::Bench | Command::Deps | Command::Check
        | Command::Clippy => Need::Optional,
        _ => Need::Project,
    }
}

/// Says what a command needs to know.
pub fn need(c: Command) -> (r: Need)
    ensures
        r == need_of(c),
{
    match c {
        Command::Lock | Command::Kill | Command::History | Command::Fmt | Command::Man => Need::Nothing,
        Command::Run | Command::Install | Command::Wc | Command::Bench | Command::Deps | Command::Check
        | Command::Clippy => Need::Optional,
        _ => Need::Project,
    }
}

/// The name under which a command takes the lock before it runs, where it does.
/// Measured commands take it later, once they know what to build.
pub open spec fn lock_of(c: Command) -> Option<Seq<char>> {
    match c {
        Command::Run | Command::Passthrough => Some("run"@),
        Command::Install => Some("install"@),
        Command::Deps => Some("deps"@),
        Command::Check => Some("check"@),
        Command::Clippy => Some("clippy"@),
        Command::Clean => Some("clean"@),
        Command::Verify(Verification::Pmtiles) => Some("verify pmtiles"@),
        Command::Download => Some("download"@),
        Command::PmtilesInspect => Some("pmtiles-inspect"@),
        Command::Diag => Some("diag"@),
        Command::Svg => Some("svg"@),
        Command::Regress => Some("regress"@),
        Command::PmtilesCorpus => Some("pmtiles-corpus"@),
        Command::DownloadOcean => Some("download-ocean"@),
        Command::OceanBuild => Some("ocean-build"@),
        Command::DownloadNaturalEarth => Some("download-natural-earth"@),
        Command::Serve => Some("serve"@),
        Command::Ingest => Some("ingest"@),
        Command::Update => Some("update"@),
        Command::Visual(VisualCommand::Visual) => Some("visual"@),
        Command::Test => Some("test"@),
        _ => None,
    }
}

/// Names the lock that a command takes.
pub fn lock_name(c: Command) -> (r: Option<&'static str>)
    ensures
        crate::text::opt_str(r) == lock_of(c),
{
    match c {
        Command::Run | Command::Passthrough => Some("run"),
        Command::Install => Some("install"),
        Command::Deps => Some("deps"),
        Command::Check => Some("check"),
        Command::Clippy => Some("clippy"),
        Command::Clean => Some("clean"),
        Command::Verify(Verification::Pmtiles) => Some("verify pmtiles"),
        Command::Download => Some("download"),
        Command::PmtilesInspect => Some("pmtiles-inspect"),
        Command::Diag => Some("diag"),
        Command::Svg => Some("svg"),
        Command::Regress => Some("regress"),
        Command::PmtilesCorpus => Some("pmtiles-corpus"),
        Command::DownloadOcean => Some("download-ocean"),
        Command::OceanBuild => Some("ocean-build"),
        Command::DownloadNaturalEarth => Some("download-natural-earth"),
        Command::Serve => Some("serve"),
        Command::Ingest => Some("ingest"),
        Command::Update => Some("update"),
        Command::Visual(VisualCommand::Visual) => Some("visual"),
        Command::Test => Some("test"),
        _ => None,
    }
}

/// The project that a command is refused outside of, and the command's name.
pub open spec fn home_of(c: Command) -> Option<(Project, Seq<char>)> {
    match c {
        Command::CorpusResults => Some((Project::Piners, "corpus-results"@)),
        Command::Verify(v) => Some(verification_home(v)),
        Command::Hotpath => Some((Project::Sluggrs, "hotpath"@)),
        Command::Service => Some((Project::Ratatoskr, "service"@)),
        Command::Sync => Some((Project::Ratatoskr, "sync"@)),
        Command::MockServe => Some((Project::Ratatoskr, "mock-serve"@)),
        Command::Corpus => Some((Project::Piners, "corpus"@)),
        Command::LintCorpus => Some((Project::Piners, "lint-corpus"@)),
        Command::LintResults => Some((Project::Piners, "lint-results"@)),
        Command::Serve => Some((Project::Nidhogg, "serve"@)),
        Command::Stop => Some((Project::Nidhogg, "stop"@)),
        Command::Status => Some((Project::Nidhogg, "status"@)),
        Command::Ingest => Some((Project::Nidhogg, "ingest"@)),
        Command::Update => Some((Project::Nidhogg, "update"@)),
        Command::Query => Some((Project::Nidhogg, "query"@)),
        Command::Geocode => Some((Project::Nidhogg, "geocode"@)),
        Command::Mogwai => Some((Project::Mogwai, "mogwai"@)),
        Command::Prepare => Some((Project::Litehtml, "litehtml prepare"@)),
        Command::HtmlExtract => Some((Project::Litehtml, "litehtml extract"@)),
        Command::Outline => Some((Project::Litehtml, "litehtml outline"@)),
        _ => None,
    }
}

fn home(c: Command) -> (r: Option<(Project, &'static str)>)
    ensures
        match r {
            Some((p, name)) => home_of(c) == Some((p, name@)),
            None => home_of(c) is None,
        },
{
    match c {
        Command::CorpusResults => Some((Project::Piners, "corpus-results")),
        Command::Verify(v) => match v {
            Verification::Pmtiles => Some((Project::Elivagar, "verify")),
            Verification::Batch => Some((Project::Nidhogg, "verify batch")),
            Verification::Geocode => Some((Project::Nidhogg, "verify geocode")),
            Verification::Readonly => Some((Project::Nidhogg, "verify readonly")),
            Verification::Cross => Some((Project::Pbfhogg, "verify")),
        },
        Command::Hotpath => Some((Project::Sluggrs, "hotpath")),
        Command::Service => Some((Project::Ratatoskr, "service")),
        Command::Sync => Some((Project::Ratatoskr, "sync")),
        Command::MockServe => Some((Project::Ratatoskr, "mock-serve")),
        Command::Corpus => Some((Project::Piners, "corpus")),
        Command::LintCorpus => Some((Project::Piners, "lint-corpus")),
        Command::LintResults => Some((Project::Piners, "lint-results")),
        Command::Serve => Some((Project::Nidhogg, "serve")),
        Command::Stop => Some((Project::Nidhogg, "stop")),
        Command::Status => Some((Project::Nidhogg, "status")),
        Command::Ingest => Some((Project::Nidhogg, "ingest")),
        Command::Update => Some((Project::Nidhogg, "update")),
        Command::Query => Some((Project::Nidhogg, "query")),
        Command::Geocode => Some((Project::Nidhogg, "geocode")),
        Command::Mogwai => Some((Project::Mogwai, "mogwai")),
        Command::Prepare => Some((Project::Litehtml, "litehtml prepare")),
        Command::HtmlExtract => Some((Project::Litehtml, "litehtml extract")),
        Command::Outline => Some((Project::Litehtml, "litehtml outline")),
        _ => None,
    }
}

/// Refuses a command outside the project that it belongs to.
pub fn check_home(c: Command, project: Project) -> (r: Result<(), DevError>)
    ensures
        match home_of(c) {
            Some((p, name)) => if is_project(project, p) {
                r is Ok
            } else {
                r matches Err(e) && e@ == refusal(name, p, project)
            },
            None => r is Ok,
        },
{
    match home(c) {
        Some((p, name)) => require(project, p, name),
        None => Ok(()),
    }
}

/// The dataset and the variant under which a command is measured: those that were
/// given, unless the command has its own.
pub open spec fn figures_of(c: Command, dataset: Seq<char>, variant: Seq<char>) -> Option<
    (Seq<char>, Seq<char>),
> {
    match c {
        Command::Pbfhogg | Command::DiffSnapshots | Command::Extract | Command::MultiExtract
        | Command::Read | Command::Write | Command::MergeBench | Command::Tilegen
        | Command::ElivPlanetiler | Command::ElivTilemaker | Command::RunNidIngest
        | Command::GenericHotpath | Command::Suite => Some((dataset, variant)),
        Command::PmtilesWriter | Command::NodeStore => Some(("denmark"@, "raw"@)),
        Command::RunApi | Command::RunTiles => Some((dataset, "raw"@)),
        Command::Dellingr | Command::Mogwai | Command::Corpus => Some((""@, ""@)),
        Command::Hotpath => Some(("n/a"@, "n/a"@)),
        _ => None,
    }
}

/// Decides under which dataset and variant a command is measured.
pub fn figures<'a>(c: Command, dataset: &'a str, variant: &'a str) -> (r: Option<(&'a str, &'a str)>)
    ensures
        match r {
            Some((d, v)) => figures_of(c, dataset@, variant@) == Some((d@, v@)),
            None => figures_of(c, dataset@, variant@) is None,
        },
{
    match c {
        Command::Pbfhogg | Command::DiffSnapshots | Command::Extract | Command::MultiExtract
        | Command::Read | Command::Write | Command::MergeBench | Command::Tilegen
        | Command::ElivPlanetiler | Command::ElivTilemaker | Command::RunNidIngest
        | Command::GenericHotpath | Command::Suite => Some((dataset, variant)),
        Command::PmtilesWriter | Command::NodeStore => Some(("denmark", "raw")),
        Command::RunApi | Command::RunTiles => Some((dataset, "raw")),
        Command::Dellingr | Command::Mogwai | Command::Corpus => Some(("", "")),
        Command::Hotpath => Some(("n/a", "n/a")),
        _ => None,
    }
}

/// What is settled before a measured command runs.
#[derive(Debug)]
pub struct Measured {
    pub mode: MeasureMode,
    pub features: Vec<String>,
    /// Print only what matters.
    pub quiet: bool,
}

/// Settles how a command is measured: the mode, the features of the build, and
/// how much is printed.
pub fn run_measured(
    mode: &ModeArgs,
    verbose: bool,
    host_features: &[String],
    features: &[String],
) -> (r: Result<Measured, DevError>)
    ensures
        mode.count() > 1 ==> (r matches Err(e) && e@ == ErrorView::Config(
            "--bench, --hotpath, and --alloc are mutually exclusive"@,
        )),
        mode.count() <= 1 && mode.mode().runs_of() == 0 ==> (r matches Err(e) && e@
            == ErrorView::Config("run count must be >= 1"@)),
        mode.count() <= 1 && mode.mode().runs_of() > 0 ==> (r matches Ok(m) && m.mode == mode.mode()
            && views(m.features@) == features_of(views(host_features@), views(features@)) && m.quiet
            == !verbose),
{
    match resolve_mode(mode) {
        Err(e) => Err(e),
        Ok(mm) => Ok(
            Measured {
                mode: mm,
                features: resolve_features(host_features, features),
                quiet: !verbose,
            },
        ),
    }
}

/// The directory to build in, where it is not the one with the configuration.
pub fn parent_build_root<'a>(cwd: &'a str, project_root: &str) -> (r: Option<&'a str>)
    ensures
        cwd@ == project_root@ ==> r is None,
        cwd@ != project_root@ ==> (r matches Some(d) && d@ == cwd@),
{
    if same(cwd, project_root) {
        None
    } else {
        Some(cwd)
    }
}

/// The ways of extracting that a name stands for: all of them in order, or one.
pub fn strategies<'a>(name: &'a str, all: &[&'a str]) -> (r: Vec<&'a str>)
    ensures
        name@ == "all"@ ==> r@ == all@,
        name@ != "all"@ ==> r@.len() == 1 && r@[0]@ == name@,
{
    let mut out: Vec<&'a str> = Vec::new();
    if same(name, "all") {
        let mut i: usize = 0;
        while i < all.len()
            invariant
                i <= all@.len(),
                out@ == all@.take(i as int),
            decreases all@.len() - i,
        {
            out.push(all[i]);
            i += 1;
            assert(all@.take(i as int) =~= all@.take(i - 1).push(all@[i - 1]));
        }
        assert(all@.take(i as int) =~= all@);
        return out;
    }
    out.push(name);
    out
}

/// A command that needs no project takes no lock and belongs to none.
pub proof fn free_commands_are_free(c: Command)
    requires
        need_of(c) == Need::Nothing,
    ensures
        lock_of(c) is None,
        home_of(c) is None,
{
}

} // verus!
