//! What is recorded of a workload.

use crate::db::{pair_views, KvPair, PairView, ValueView};
use crate::harness::command_line::{cli_text, format_cli_args};
use crate::harness::{BenchConfig, CargoProfile};
use crate::mogwai::targets::{BuildConfig, BuildView};
use crate::mogwai::workload::Resolved;
use crate::mogwai::{MogwaiConfig, MogwaiWorkload};
use crate::numeral::{nat_text, usize_text};
use crate::text::{clone_opt, copy_texts, join, joined, opt_view, views};
use vstd::prelude::*;

verus! {

/// The key under which a run carries the counters that its workload declares.
pub const IDENTITY_COUNTERS_KEY: &'static str = "meta.identity_counters";

/// What is said of a workload in place of a run.
pub fn dry_run_line(resolved: &Resolved) -> (r: String)
    ensures
        r@ == "[dry-run] workload "@ + resolved.name@ + " -> "@ + joined(
            views(resolved.argv@),
            " "@,
        ),
{
    let mut out = "[dry-run] workload ".to_owned();
    out.append(resolved.name.as_str());
    out.append(" -> ");
    out.append(join(&resolved.argv, " ").as_str());
    out
}

/// What is built for a workload: the command line of the project.
pub fn build_config(cfg: &MogwaiConfig, features: &[String]) -> (r: BuildConfig)
    ensures
        r@ == (BuildView {
            package: opt_view(cfg.package),
            bin: cfg.bin_text(),
            example: None,
            features: views(features@),
            default_features: true,
            profile: "release"@,
        }),
{
    let bin = match cfg.bin_target() {
        Some(b) => Some(b.to_owned()),
        None => None,
    };
    BuildConfig {
        package: clone_opt(&cfg.package),
        bin,
        example: None,
        features: copy_texts(features),
        default_features: true,
        profile: "release",
    }
}

/// The declaration of identity counters that a run carries.
pub open spec fn declared(w: MogwaiWorkload) -> Seq<PairView> {
    if w.identity_counters@.len() == 0 {
        Seq::empty()
    } else {
        seq![
            PairView {
                key: IDENTITY_COUNTERS_KEY@,
                value: ValueView::Text(joined(views(w.identity_counters@), ","@)),
            },
        ]
    }
}

/// The configuration of a workload. It is filed under the name of the workload,
/// with the corpus by its registered name; the arguments stand beside it and are
/// no part of what rows are paired by.
pub fn workload_config(resolved: &Resolved, asked_runs: usize, binary: &str) -> (r: BenchConfig)
    ensures
        r.command@ == resolved.name@,
        r.mode is None,
        opt_view(r.input_file) == opt_view(resolved.entry.corpus),
        r.input_mb is None,
        r.cargo_features is None,
        r.cargo_profile == CargoProfile::Release,
        r.runs == (match resolved.entry.runs {
            Some(n) => n,
            None => asked_runs,
        }),
        opt_view(r.cli_args) == Some(cli_text(binary@, views(resolved.argv@))),
        r.brokkr_args is None,
        pair_views(r.metadata@) == declared(*resolved.entry),
{
    let mut metadata: Vec<KvPair> = Vec::new();
    if resolved.entry.identity_counters.len() > 0 {
        let text = join(&resolved.entry.identity_counters, ",");
        metadata.push(KvPair::of_text(IDENTITY_COUNTERS_KEY, text.as_str()));
    }
    assert(pair_views(metadata@) =~= declared(*resolved.entry));
    let args = resolved.args();
    let runs: usize = match resolved.entry.runs {
        Some(n) => n,
        None => asked_runs,
    };
    BenchConfig {
        command: resolved.name.clone(),
        mode: None,
        input_file: clone_opt(&resolved.entry.corpus),
        input_mb: None,
        cargo_features: None,
        cargo_profile: CargoProfile::Release,
        runs,
        cli_args: Some(format_cli_args(binary, &args)),
        brokkr_args: None,
        metadata,
    }
}

/// The line before the runs of a workload.
pub fn start_line(name: &str, runs: usize) -> (r: String)
    ensures
        r@ == "mogwai workload "@ + name@ + ": "@ + nat_text(runs as nat) + " run(s)"@,
{
    let mut out = "mogwai workload ".to_owned();
    out.append(name);
    out.append(": ");
    out.append(usize_text(runs).as_str());
    out.append(" run(s)");
    out
}

} // verus!
