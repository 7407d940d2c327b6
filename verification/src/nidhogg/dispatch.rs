//! Which way a command of nidhogg is measured, and what is recorded of it.

use crate::db::{pair_views, KvPair, PairView, ValueView};
use crate::error::{DevError, ErrorView};
use crate::harness::command_line::{cli_text, format_cli_args, hotpath_feature, str_views};
use crate::harness::{BenchConfig, CargoProfile};
use crate::manifest::{comes_before, text_before};
use crate::measure::MeasureMode;
use crate::nidhogg::commands::NidhoggCommand;
use crate::nidhogg::verify_batch::{by_name, inserted_at};
use crate::number::arith::{of_int, quotient};
use crate::number::double::{rounded, Double};
use crate::number::fixed::fixed_text;
use crate::numeral::{nat_text, usize_text};
use crate::project::{is_project, require, Project};
use crate::text::{opt_view, same, views};
use vstd::prelude::*;

verus! {

/// How a command is carried out.
#[derive(Debug, Clone, Copy, PartialEq, Eq, Structural)]
pub enum Route {
    /// Take in a file once and print the time.
    IngestRun,
    /// Take in a file as a benchmark.
    IngestBench,
    /// Take in a file under the profiler.
    IngestHotpath,
    /// Query a running server.
    Api,
    /// Serve tiles.
    Tiles,
}

/// The way of a command in a mode: queries and tiles have no plain run and are
/// always benchmarks; only taking in a file can be profiled.
pub open spec fn route_of(mode: MeasureMode, command: NidhoggCommand) -> Option<Route> {
    match mode {
        MeasureMode::Run => match command {
            NidhoggCommand::Ingest => Some(Route::IngestRun),
            NidhoggCommand::Api { .. } => Some(Route::Api),
            NidhoggCommand::Tiles { .. } => Some(Route::Tiles),
        },
        MeasureMode::Bench { .. } => match command {
            NidhoggCommand::Ingest => Some(Route::IngestBench),
            NidhoggCommand::Api { .. } => Some(Route::Api),
            NidhoggCommand::Tiles { .. } => Some(Route::Tiles),
        },
        _ => match command {
            NidhoggCommand::Ingest => Some(Route::IngestHotpath),
            _ => None,
        },
    }
}

/// Decides the way of a command: it must be given in the project, for real, and
/// in a mode that it supports.
pub fn run_command(
    project: Project,
    dry_run: bool,
    mode: MeasureMode,
    command: &NidhoggCommand,
) -> (r: Result<Route, DevError>)
    ensures
        !is_project(project, Project::Nidhogg) ==> (r matches Err(e) && e@ == ErrorView::Config(
            "'brokkr "@ + command.id_text() + "' is only available in "@ + "nidhogg"@
                + " projects (current: "@ + project.name_text() + ")"@,
        )),
        is_project(project, Project::Nidhogg) && dry_run ==> (r matches Err(e) && e@
            == ErrorView::Config("--dry-run is not yet supported for nidhogg commands"@)),
        is_project(project, Project::Nidhogg) && !dry_run ==> match route_of(mode, *command) {
            Some(route) => r == Ok::<Route, DevError>(route),
            None => r matches Err(e) && e@ == ErrorView::Config(
                "command '"@ + command.id_text()
                    + "' does not support hotpath/alloc profiling"@,
            ),
        },
{
    match require(project, Project::Nidhogg, command.id()) {
        Ok(_) => {},
        Err(e) => {
            return Err(e);
        },
    }
    if dry_run {
        return Err(
            DevError::Config("--dry-run is not yet supported for nidhogg commands".to_owned()),
        );
    }
    match mode {
        MeasureMode::Run => match command {
            NidhoggCommand::Ingest => Ok(Route::IngestRun),
            NidhoggCommand::Api { .. } => Ok(Route::Api),
            NidhoggCommand::Tiles { .. } => Ok(Route::Tiles),
        },
        MeasureMode::Bench { .. } => match command {
            NidhoggCommand::Ingest => Ok(Route::IngestBench),
            NidhoggCommand::Api { .. } => Ok(Route::Api),
            NidhoggCommand::Tiles { .. } => Ok(Route::Tiles),
        },
        _ => {
            if !command.supports_hotpath() {
                let mut m = "command '".to_owned();
                m.append(command.id());
                m.append("' does not support hotpath/alloc profiling");
                return Err(DevError::Config(m));
            }
            Ok(Route::IngestHotpath)
        },
    }
}

/// The configuration for taking in a file, as a benchmark or under the profiler.
pub fn ingest_config(
    command: &NidhoggCommand,
    basename: &str,
    file_mb: Double,
    runs: usize,
    binary: &str,
    args: &[&str],
) -> (r: BenchConfig)
    ensures
        r.command@ == command.result_text(),
        r.mode is None,
        opt_view(r.input_file) == Some(basename@),
        r.input_mb == Some(file_mb),
        r.cargo_features is None,
        r.cargo_profile == CargoProfile::Release,
        r.runs == runs,
        opt_view(r.cli_args) == Some(cli_text(binary@, str_views(args@))),
        r.brokkr_args is None,
        r.metadata@ == Seq::<KvPair>::empty(),
{
    BenchConfig {
        command: command.result_command().to_owned(),
        mode: None,
        input_file: Some(basename.to_owned()),
        input_mb: Some(file_mb),
        cargo_features: None,
        cargo_profile: CargoProfile::Release,
        runs,
        cli_args: Some(format_cli_args(binary, args)),
        brokkr_args: None,
        metadata: command.metadata(),
    }
}

/// The line before a benchmark of taking in a file.
pub fn ingest_line(basename: &str, file_mb: Double, runs: usize) -> (r: String)
    ensures
        r@ == "nidhogg ingest: "@ + basename@ + " ("@ + fixed_text(file_mb@, 0) + " MB), "@
            + nat_text(runs as nat) + " run(s)"@,
{
    let mut out = "nidhogg ingest: ".to_owned();
    out.append(basename);
    out.append(" (");
    out.append(file_mb.fixed(0).as_str());
    out.append(" MB), ");
    out.append(usize_text(runs).as_str());
    out.append(" run(s)");
    out
}

/// The outcome of a plain run: its code where it failed, else the line on its time.
pub fn ingest_run_outcome(code: i32, elapsed_ms: u64) -> (r: Result<String, DevError>)
    ensures
        code != 0 ==> (r matches Err(e) && e@ == ErrorView::ExitCode(code)),
        code == 0 ==> (r matches Ok(t) && t@ == "elapsed="@ + nat_text(elapsed_ms as nat) + "ms"@),
{
    if code != 0 {
        return Err(DevError::ExitCode(code));
    }
    let mut out = "elapsed=".to_owned();
    out.append(crate::numeral::u64_text(elapsed_ms).as_str());
    out.append("ms");
    Ok(out)
}

/// The headlines of a profile.
pub fn hotpath_lines(command: &NidhoggCommand, alloc: bool) -> (r: Vec<String>)
    ensures
        views(r@) == (if alloc {
            seq![
                "=== nidhogg "@ + command.id_text() + " "@ + "hotpath-alloc"@ + " ==="@,
                "NOTE: alloc profiling \u{2014} wall-clock times are not meaningful"@,
            ]
        } else {
            seq!["=== nidhogg "@ + command.id_text() + " "@ + "hotpath"@ + " ==="@]
        }),
{
    let mut head = "=== nidhogg ".to_owned();
    head.append(command.id());
    head.append(" ");
    head.append(hotpath_feature(alloc));
    head.append(" ===");
    let ghost line = head@;
    let mut out: Vec<String> = Vec::new();
    out.push(head);
    if alloc {
        out.push("NOTE: alloc profiling \u{2014} wall-clock times are not meaningful".to_owned());
        assert(views(out@) =~= seq![
            line,
            "NOTE: alloc profiling \u{2014} wall-clock times are not meaningful"@,
        ]);
    } else {
        assert(views(out@) =~= seq![line]);
    }
    out
}

/// The features of a build that serves tiles: those asked for, and the one for
/// the kernel's ring where that is asked for.
pub fn tiles_features(features: &[String], uring: bool) -> (r: Vec<String>)
    ensures
        views(r@) == views(features@) + (if uring {
            seq!["linux-io-uring"@]
        } else {
            Seq::empty()
        }),
{
    let mut out: Vec<String> = Vec::new();
    let mut i: usize = 0;
    while i < features.len()
        invariant
            i <= features@.len(),
            out@.len() == i,
            forall|k: int| 0 <= k < i ==> #[trigger] out@[k]@ == features@[k]@,
        decreases features@.len() - i,
    {
        out.push(features[i].clone());
        i += 1;
    }
    if uring {
        out.push("linux-io-uring".to_owned());
    }
    assert(views(out@) =~= views(features@) + (if uring {
        seq!["linux-io-uring"@]
    } else {
        Seq::empty()
    }));
    out
}

/// Refuses a sampling profiler that is not known.
pub fn check_tool(tool: &str) -> (r: Result<(), DevError>)
    ensures
        tool@ == "perf"@ || tool@ == "samply"@ <==> r is Ok,
        r matches Err(e) ==> e@ == ErrorView::Config(
            "unknown profiling tool '"@ + tool@ + "' (expected: perf, samply)"@,
        ),
{
    if same(tool, "perf") || same(tool, "samply") {
        return Ok(());
    }
    let mut m = "unknown profiling tool '".to_owned();
    m.append(tool);
    m.append("' (expected: perf, samply)");
    Err(DevError::Config(m))
}

/// The configuration under which the time of a sampling profiler is recorded.
pub fn profile_config(tool: &str, basename: &str, file_mb: Double) -> (r: BenchConfig)
    ensures
        r.command@ == "profile"@,
        opt_view(r.mode) == Some(tool@),
        opt_view(r.input_file) == Some(basename@),
        r.input_mb == Some(file_mb),
        r.cargo_features is None,
        r.cargo_profile == CargoProfile::Profiling,
        r.runs == 1,
        r.cli_args is None,
        r.brokkr_args is None,
        pair_views(r.metadata@) == seq![
            PairView { key: "meta.tool"@, value: ValueView::Text(tool@) },
        ],
{
    let metadata = vec![KvPair::of_text("meta.tool", tool)];
    assert(pair_views(metadata@) =~= seq![
        PairView { key: "meta.tool"@, value: ValueView::Text(tool@) },
    ]);
    BenchConfig {
        command: "profile".to_owned(),
        mode: Some(tool.to_owned()),
        input_file: Some(basename.to_owned()),
        input_mb: Some(file_mb),
        cargo_features: None,
        cargo_profile: CargoProfile::Profiling,
        runs: 1,
        cli_args: None,
        brokkr_args: None,
        metadata,
    }
}

/// Names of files with their sizes.
pub open spec fn file_views(v: Seq<(String, u64)>) -> Seq<(Seq<char>, nat)> {
    v.map_values(|f: (String, u64)| (f.0@, f.1 as nat))
}

/// The line on a file.
pub open spec fn file_line(f: (Seq<char>, nat)) -> Seq<char> {
    "  "@ + f.0 + ": "@ + fixed_text(
        quotient(rounded(false, f.1, 1), of_int(1_048_576)),
        1,
    ) + " MB"@
}

/// Writes the lines on the files that were made, in the order of their names.
pub fn list_output_files(files: &[(String, u64)]) -> (r: Vec<String>)
    ensures
        views(r@) == seq!["output files:"@] + by_name(file_views(files@)).map_values(
            |f: (Seq<char>, nat)| file_line(f),
        ),
{
    let ghost all = file_views(files@);
    let mut order: Vec<(String, u64)> = Vec::new();
    let mut i: usize = 0;
    assert(file_views(order@) =~= by_name(all.take(0)));
    while i < files.len()
        invariant
            i <= files@.len(),
            all == file_views(files@),
            order@.len() == i,
            file_views(order@) == by_name(all.take(i as int)),
        decreases files@.len() - i,
    {
        let ghost s = file_views(order@);
        let ghost x = all[i as int];
        let mut p: usize = i;
        while p > 0 && text_before(files[i].0.as_str(), order[p - 1].0.as_str())
            invariant
                p <= i < files@.len(),
                order@.len() == i,
                s == file_views(order@),
                x == (files@[i as int].0@, files@[i as int].1 as nat),
                forall|k: int| p <= k < s.len() ==> comes_before(x.0, (#[trigger] s[k]).0),
            decreases p,
        {
            assert(s[p - 1].0 == order@[p - 1].0@);
            p -= 1;
        }
        proof {
            if p > 0 {
                assert(s[p - 1].0 == order@[p - 1].0@);
            }
            inserted_at(s, x, p as int);
            assert(all.take(i + 1).drop_last() =~= all.take(i as int));
        }
        let copy = (files[i].0.clone(), files[i].1);
        order.insert(p, copy);
        assert(file_views(order@) =~= s.insert(p as int, x));
        i += 1;
    }
    assert(all.take(i as int) =~= all);
    let ghost sorted = by_name(all);
    let mut out: Vec<String> = Vec::new();
    out.push("output files:".to_owned());
    let mut k: usize = 0;
    let ghost lines = sorted.map_values(|f: (Seq<char>, nat)| file_line(f));
    assert(views(out@) =~= seq!["output files:"@] + lines.take(0));
    while k < order.len()
        invariant
            k <= order@.len(),
            file_views(order@) == sorted,
            lines == sorted.map_values(|f: (Seq<char>, nat)| file_line(f)),
            views(out@) == seq!["output files:"@] + lines.take(k as int),
        decreases order@.len() - k,
    {
        assert(sorted[k as int] == (order@[k as int].0@, order@[k as int].1 as nat));
        let mut line = "  ".to_owned();
        line.append(order[k].0.as_str());
        line.append(": ");
        let mb = Double::of_u64(order[k].1).over(Double::of_i64(1_048_576));
        line.append(mb.fixed(1).as_str());
        line.append(" MB");
        assert(line@ == lines[k as int]);
        let ghost before = views(out@);
        out.push(line);
        assert(views(out@) =~= before.push(line@));
        k += 1;
        assert(views(out@) =~= seq!["output files:"@] + lines.take(k as int));
    }
    assert(lines.take(k as int) =~= lines);
    out
}

} // verus!
