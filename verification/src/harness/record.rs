//! The record of a measurement.

use crate::db::{
    append_pairs, pair_views, Distribution, HotpathData, HotpathView, KvPair, KvValue, PairView, ValueView,
};
use crate::error::{DevError, ErrorView};
use crate::harness::stats::BenchResult;
use crate::harness::{
    format_result_line, format_storage_notes, result_parts, storage_text, BenchConfig, CargoProfile, DriveConfig,
    EnvInfo, GitInfo,
};
use crate::lockfile::guard::LockGuard;
use crate::number::arith::{of_int, quotient};
use crate::number::double::{Double, Real};
use crate::project::Project;
use crate::text::{clone_opt, joined, opt_str, opt_view, same, views};
use vstd::prelude::*;

verus! {

/// What all measurements of one invocation have in common.
pub struct BenchHarness {
    pub lock: LockGuard,
    pub db_dir: String,
    pub env: EnvInfo,
    pub git: GitInfo,
    pub storage_notes: Option<String>,
    pub cargo_features: Option<String>,
    pub project: Project,
    pub stop_marker: Option<String>,
    pub brokkr_args: Option<String>,
    pub measure_mode: Option<String>,
    pub env_kv: Vec<KvPair>,
}

/// Whether a harness was made of these parts, with nothing else set.
pub open spec fn is_fresh(
    h: BenchHarness,
    lock: LockGuard,
    env: EnvInfo,
    git: GitInfo,
    drives: Option<DriveConfig>,
    db_dir: String,
    project: Project,
    stop_marker: Option<String>,
) -> bool {
    &&& h.lock == lock
    &&& h.env == env
    &&& h.git == git
    &&& h.db_dir == db_dir
    &&& h.project == project
    &&& h.stop_marker == stop_marker
    &&& opt_view(h.storage_notes) == storage_text(drives)
    &&& h.cargo_features is None
    &&& h.brokkr_args is None
    &&& h.measure_mode is None
    &&& h.env_kv@ == Seq::<KvPair>::empty()
}

/// Why a measurement of changed files is refused.
pub open spec fn dirty_refusal() -> ErrorView {
    ErrorView::Preflight(
        seq![
            "dirty tree - commit or stash changes before benchmarking"@,
            "run with --force to bench anyway (results will not be stored)"@,
        ],
    )
}

impl BenchHarness {
    /// Makes a harness under a lock that is held. A repository with changes is
    /// refused unless the caller insists; its results are then not stored.
    pub fn new_with_lock(
        lock: LockGuard,
        env: EnvInfo,
        git: GitInfo,
        drives: &Option<DriveConfig>,
        db_dir: String,
        project: Project,
        force: bool,
        stop_marker: Option<String>,
    ) -> (r: Result<BenchHarness, DevError>)
        ensures
            git.is_clean || force <==> r is Ok,
            r matches Ok(h) ==> is_fresh(h, lock, env, git, *drives, db_dir, project, stop_marker),
            r matches Err(e) ==> e@ == dirty_refusal(),
    {
        if !git.is_clean && !force {
            let reasons = vec![
                "dirty tree - commit or stash changes before benchmarking".to_owned(),
                "run with --force to bench anyway (results will not be stored)".to_owned(),
            ];
            assert(views(reasons@) =~= seq![
                "dirty tree - commit or stash changes before benchmarking"@,
                "run with --force to bench anyway (results will not be stored)"@,
            ]);
            return Err(DevError::Preflight(reasons));
        }
        let storage_notes = format_storage_notes(drives);
        Ok(
            BenchHarness {
                lock,
                db_dir,
                env,
                git,
                storage_notes,
                cargo_features: None,
                project,
                stop_marker,
                brokkr_args: None,
                measure_mode: None,
                env_kv: Vec::new(),
            },
        )
    }

    /// Sets the features that the binary was built with.
    pub fn with_cargo_features(self, features: Option<String>) -> (r: BenchHarness)
        ensures
            r == (BenchHarness { cargo_features: features, ..self }),
    {
        let mut h = self;
        h.cargo_features = features;
        h
    }

    /// Sets the command line of brokkr itself.
    pub fn with_brokkr_args(self, args: String) -> (r: BenchHarness)
        ensures
            r == (BenchHarness { brokkr_args: Some(args), ..self }),
    {
        let mut h = self;
        h.brokkr_args = Some(args);
        h
    }

    /// Sets what is measured.
    pub fn with_measure_mode(self, mode: Option<&str>) -> (r: BenchHarness)
        ensures
            r == (BenchHarness { measure_mode: r.measure_mode, ..self }),
            opt_view(r.measure_mode) == opt_str(mode),
    {
        let mut h = self;
        h.measure_mode =
        match mode {
            Some(m) => Some(m.to_owned()),
            None => None,
        };
        h
    }

    /// Attaches the environment that was captured.
    pub fn with_env_kv(self, env_kv: Vec<KvPair>) -> (r: BenchHarness)
        ensures
            r == (BenchHarness { env_kv: env_kv, ..self }),
    {
        let mut h = self;
        h.env_kv = env_kv;
        h
    }

    /// The lock that is held.
    pub fn lock(&self) -> (r: &LockGuard)
        ensures
            *r == self.lock,
    {
        &self.lock
    }
}

/// A row of the table of results.
pub struct RunRow {
    pub hostname: String,
    pub commit: String,
    pub subject: String,
    pub command: String,
    pub mode: Option<String>,
    pub input_file: Option<String>,
    pub input_mb: Option<Double>,
    pub peak_rss_mb: Option<Double>,
    pub cargo_features: Option<String>,
    pub cargo_profile: CargoProfile,
    pub elapsed_ms: i64,
    pub kernel: Option<String>,
    pub cpu_governor: Option<String>,
    pub avail_memory_mb: Option<i64>,
    pub storage_notes: Option<String>,
    pub cli_args: Option<String>,
    pub brokkr_args: Option<String>,
    pub project: String,
    pub stop_marker: Option<String>,
    pub kv: Vec<KvPair>,
    pub distribution: Option<Distribution>,
    pub hotpath: Option<HotpathData>,
}

/// The contents of a [`RunRow`].
pub ghost struct RowView {
    pub hostname: Seq<char>,
    pub commit: Seq<char>,
    pub subject: Seq<char>,
    pub command: Seq<char>,
    pub mode: Option<Seq<char>>,
    pub input_file: Option<Seq<char>>,
    pub input_mb: Option<Double>,
    pub peak_rss_mb: Option<Real>,
    pub cargo_features: Option<Seq<char>>,
    pub cargo_profile: CargoProfile,
    pub elapsed_ms: i64,
    pub kernel: Option<Seq<char>>,
    pub cpu_governor: Option<Seq<char>>,
    pub avail_memory_mb: Option<i64>,
    pub storage_notes: Option<Seq<char>>,
    pub cli_args: Option<Seq<char>>,
    pub brokkr_args: Option<Seq<char>>,
    pub project: Seq<char>,
    pub stop_marker: Option<Seq<char>>,
    pub kv: Seq<PairView>,
    pub distribution: Option<Distribution>,
    pub hotpath: Option<HotpathView>,
}

/// The value of an optional number.
pub open spec fn opt_real(x: Option<Double>) -> Option<Real> {
    match x {
        Some(d) => Some(d@),
        None => None,
    }
}

/// The contents of an optional profile.
pub open spec fn opt_hotpath(h: Option<HotpathData>) -> Option<HotpathView> {
    match h {
        Some(d) => Some(d@),
        None => None,
    }
}

impl View for RunRow {
    type V = RowView;

    open spec fn view(&self) -> RowView {
        RowView {
            hostname: self.hostname@,
            commit: self.commit@,
            subject: self.subject@,
            command: self.command@,
            mode: opt_view(self.mode),
            input_file: opt_view(self.input_file),
            input_mb: self.input_mb,
            peak_rss_mb: opt_real(self.peak_rss_mb),
            cargo_features: opt_view(self.cargo_features),
            cargo_profile: self.cargo_profile,
            elapsed_ms: self.elapsed_ms,
            kernel: opt_view(self.kernel),
            cpu_governor: opt_view(self.cpu_governor),
            avail_memory_mb: self.avail_memory_mb,
            storage_notes: opt_view(self.storage_notes),
            cli_args: opt_view(self.cli_args),
            brokkr_args: opt_view(self.brokkr_args),
            project: self.project@,
            stop_marker: opt_view(self.stop_marker),
            kv: pair_views(self.kv@),
            distribution: self.distribution,
            hotpath: opt_hotpath(self.hotpath),
        }
    }
}

/// The values other than the peak of the resident size, which has a column.
pub open spec fn without_peak(kv: Seq<PairView>) -> Seq<PairView>
    decreases kv.len(),
{
    if kv.len() == 0 {
        Seq::empty()
    } else if kv.last().key == "peak_rss_kb"@ {
        without_peak(kv.drop_last())
    } else {
        without_peak(kv.drop_last()).push(kv.last())
    }
}

/// The peak of the resident size in megabytes: the last integer under its key.
pub open spec fn peak_of(kv: Seq<PairView>) -> Option<Real>
    decreases kv.len(),
{
    if kv.len() == 0 {
        None
    } else {
        match kv.last().value {
            ValueView::Int(kb) => if kv.last().key == "peak_rss_kb"@ {
                Some(quotient(of_int(kb), of_int(1024)))
            } else {
                peak_of(kv.drop_last())
            },
            _ => peak_of(kv.drop_last()),
        }
    }
}

/// The first of two optional texts that is there.
pub open spec fn either(a: Option<Seq<char>>, b: Option<Seq<char>>) -> Option<Seq<char>> {
    match a {
        Some(t) => Some(t),
        None => b,
    }
}

/// The row for a result. The harness decides the mode where it has one; the
/// features and the command line of brokkr are those of the configuration where
/// it has them.
pub open spec fn row_of(h: BenchHarness, c: BenchConfig, r: BenchResult) -> RowView {
    RowView {
        hostname: h.env.hostname@,
        commit: h.git.commit@,
        subject: h.git.subject@,
        command: c.command@,
        mode: either(opt_view(h.measure_mode), opt_view(c.mode)),
        input_file: opt_view(c.input_file),
        input_mb: c.input_mb,
        peak_rss_mb: peak_of(pair_views(r.kv@)),
        cargo_features: either(opt_view(c.cargo_features), opt_view(h.cargo_features)),
        cargo_profile: c.cargo_profile,
        elapsed_ms: r.elapsed_ms,
        kernel: Some(h.env.kernel@),
        cpu_governor: Some(h.env.governor@),
        avail_memory_mb: if h.env.memory_available_mb <= i64::MAX {
            Some(h.env.memory_available_mb as i64)
        } else {
            None
        },
        storage_notes: opt_view(h.storage_notes),
        cli_args: opt_view(c.cli_args),
        brokkr_args: either(opt_view(c.brokkr_args), opt_view(h.brokkr_args)),
        project: h.project.name_text(),
        stop_marker: opt_view(h.stop_marker),
        kv: pair_views(c.metadata@) + pair_views(h.env_kv@) + without_peak(pair_views(r.kv@)),
        distribution: r.distribution,
        hotpath: opt_hotpath(r.hotpath),
    }
}

fn clone_either(a: &Option<String>, b: &Option<String>) -> (r: Option<String>)
    ensures
        opt_view(r) == either(opt_view(*a), opt_view(*b)),
{
    match a {
        Some(t) => Some(t.clone()),
        None => clone_opt(b),
    }
}

fn split_peak(kv: &mut Vec<KvPair>, reported: &[KvPair]) -> (r: Option<Double>)
    ensures
        pair_views(final(kv)@) == pair_views(old(kv)@) + without_peak(pair_views(reported@)),
        opt_real(r) == peak_of(pair_views(reported@)),
{
    let ghost start = pair_views(kv@);
    let ghost all = pair_views(reported@);
    let mut peak: Option<Double> = None;
    let mut i: usize = 0;
    assert(pair_views(kv@) =~= start + without_peak(all.take(0)));
    while i < reported.len()
        invariant
            i <= reported@.len(),
            all == pair_views(reported@),
            pair_views(kv@) == start + without_peak(all.take(i as int)),
            opt_real(peak) == peak_of(all.take(i as int)),
        decreases reported@.len() - i,
    {
        let pair = &reported[i];
        assert(all.take(i + 1).drop_last() =~= all.take(i as int));
        assert(all[i as int] == pair@);
        let ghost before = pair_views(kv@);
        if same(pair.key.as_str(), "peak_rss_kb") {
            match &pair.value {
                KvValue::Int(kb) => {
                    peak = Some(Double::of_i64(*kb).over(Double::of_i64(1024)));
                },
                _ => {},
            }
        } else {
            let copy = pair.copy();
            kv.push(copy);
            assert(pair_views(kv@) =~= before.push(copy@));
            assert(pair_views(kv@) =~= start + without_peak(all.take(i + 1)));
        }
        i += 1;
    }
    assert(all.take(i as int) =~= all);
    peak
}

impl BenchHarness {
    /// Makes the row for a result.
    pub fn build_row(&self, config: &BenchConfig, result: &BenchResult) -> (r: RunRow)
        ensures
            r@ == row_of(*self, *config, *result),
            r.hostname@ == self.env.hostname@,
            r.commit@ == self.git.commit@,
            r.subject@ == self.git.subject@,
            r.command@ == config.command@,
            self.measure_mode matches Some(m) ==> opt_view(r.mode) == Some(m@),
            self.measure_mode is None ==> opt_view(r.mode) == opt_view(config.mode),
            opt_view(r.input_file) == opt_view(config.input_file),
            r.input_mb == config.input_mb,
            config.cargo_features matches Some(f) ==> opt_view(r.cargo_features) == Some(f@),
            config.cargo_features is None ==> opt_view(r.cargo_features) == opt_view(
                self.cargo_features,
            ),
            r.cargo_profile == config.cargo_profile,
            r.elapsed_ms == result.elapsed_ms,
            opt_view(r.kernel) == Some(self.env.kernel@),
            opt_view(r.cpu_governor) == Some(self.env.governor@),
            self.env.memory_available_mb <= i64::MAX ==> r.avail_memory_mb == Some(
                self.env.memory_available_mb as i64,
            ),
            self.env.memory_available_mb > i64::MAX ==> r.avail_memory_mb is None,
            opt_view(r.storage_notes) == opt_view(self.storage_notes),
            opt_view(r.cli_args) == opt_view(config.cli_args),
            config.brokkr_args matches Some(a) ==> opt_view(r.brokkr_args) == Some(a@),
            config.brokkr_args is None ==> opt_view(r.brokkr_args) == opt_view(self.brokkr_args),
            r.project@ == self.project.name_text(),
            opt_view(r.stop_marker) == opt_view(self.stop_marker),
            pair_views(r.kv@) == pair_views(config.metadata@) + pair_views(self.env_kv@)
                + pair_views(result.kv@).filter(|p: PairView| p.key != "peak_rss_kb"@),
            r.distribution == result.distribution,
            match (r.hotpath, result.hotpath) {
                (Some(a), Some(b)) => a@ == b@,
                (None, None) => true,
                _ => false,
            },
    {
        let mut kv: Vec<KvPair> = Vec::new();
        assert(pair_views(kv@) =~= Seq::empty());
        append_pairs(&mut kv, &config.metadata);
        append_pairs(&mut kv, &self.env_kv);
        let peak_rss_mb = split_peak(&mut kv, &result.kv);
        assert(pair_views(kv@) =~= row_of(*self, *config, *result).kv);
        proof {
            peak_is_left_out(pair_views(result.kv@));
        }
        RunRow {
            hostname: self.env.hostname.clone(),
            commit: self.git.commit.clone(),
            subject: self.git.subject.clone(),
            command: config.command.clone(),
            mode: clone_either(&self.measure_mode, &config.mode),
            input_file: clone_opt(&config.input_file),
            input_mb: config.input_mb,
            peak_rss_mb,
            cargo_features: clone_either(&config.cargo_features, &self.cargo_features),
            cargo_profile: config.cargo_profile,
            elapsed_ms: result.elapsed_ms,
            kernel: Some(self.env.kernel.clone()),
            cpu_governor: Some(self.env.governor.clone()),
            avail_memory_mb: if self.env.memory_available_mb <= i64::MAX as u64 {
                Some(self.env.memory_available_mb as i64)
            } else {
                None
            },
            storage_notes: clone_opt(&self.storage_notes),
            cli_args: clone_opt(&config.cli_args),
            brokkr_args: clone_either(&config.brokkr_args, &self.brokkr_args),
            project: self.project.name().to_owned(),
            stop_marker: clone_opt(&self.stop_marker),
            kv,
            distribution: result.distribution,
            hotpath: match &result.hotpath {
                Some(h) => Some(h.copy()),
                None => None,
            },
        }
    }

    /// Decides how a result is recorded: a clean repository's is stored, with
    /// its line; of one with changes the line is all that is left.
    pub fn record_result(&self, config: &BenchConfig, result: &BenchResult) -> (r: Recording)
        ensures
            self.git.is_clean ==> (r matches Recording::Stored(row, line) && row@ == row_of(
                *self,
                *config,
                *result,
            ) && line@ == joined(result_parts(*config, *result, self.git), "  "@)),
            !self.git.is_clean ==> (r matches Recording::Printed(line) && line@ == joined(
                result_parts(*config, *result, self.git),
                "  "@,
            )),
    {
        let line = format_result_line(config, result, &self.git);
        if self.git.is_clean {
            Recording::Stored(self.build_row(config, result), line)
        } else {
            Recording::Printed(line)
        }
    }

    /// Makes the provenance of a run.
    pub fn build_run_info(
        &self,
        config: &BenchConfig,
        program: &str,
        start_epoch: i64,
        pid: u32,
        exit_code: Option<i32>,
        binary_xxh128: Option<String>,
    ) -> (r: RunInfo)
        ensures
            r.run_start_epoch == Some(start_epoch),
            r.pid == Some(pid as i64),
            opt_view(r.command) == Some(config.command@),
            opt_view(r.binary_path) == Some(program@),
            r.binary_xxh128 == binary_xxh128,
            opt_view(r.git_commit) == Some(self.git.commit@),
            opt_view(r.mode) == opt_view(config.mode),
            opt_view(r.dataset) == opt_view(config.input_file),
            r.exit_code == exit_code,
    {
        RunInfo {
            run_start_epoch: Some(start_epoch),
            pid: Some(pid as i64),
            command: Some(config.command.clone()),
            binary_path: Some(program.to_owned()),
            binary_xxh128,
            git_commit: Some(self.git.commit.clone()),
            mode: clone_opt(&config.mode),
            dataset: clone_opt(&config.input_file),
            exit_code,
        }
    }
}

/// How a result is recorded.
pub enum Recording {
    /// Stored as a row; the line is shown.
    Stored(RunRow, String),
    /// Not stored; the line is shown in any case.
    Printed(String),
}

/// Where the profile of a run comes from.
pub struct RunInfo {
    pub run_start_epoch: Option<i64>,
    pub pid: Option<i64>,
    pub command: Option<String>,
    pub binary_path: Option<String>,
    pub binary_xxh128: Option<String>,
    pub git_commit: Option<String>,
    pub mode: Option<String>,
    pub dataset: Option<String>,
    pub exit_code: Option<i32>,
}

/// Of what a program reported, the values that are kept are all but the peak of
/// its resident size, in their order.
pub proof fn peak_is_left_out(kv: Seq<PairView>)
    ensures
        without_peak(kv) == kv.filter(|p: PairView| p.key != "peak_rss_kb"@),
    decreases kv.len(),
{
    reveal(Seq::filter);
    if kv.len() > 0 {
        peak_is_left_out(kv.drop_last());
    } else {
        assert(without_peak(kv) =~= kv);
    }
}

/// The peak of the resident size is the last integer that is reported as such,
/// in kilobytes, over 1024; there is none where no integer is.
pub proof fn peak_is_the_last_reported(kv: Seq<PairView>, i: int)
    requires
        forall|k: int|
            i < k < kv.len() ==> !((#[trigger] kv[k]).key == "peak_rss_kb"@ && kv[k].value is Int),
        -1 <= i < kv.len(),
        i >= 0 ==> kv[i].key == "peak_rss_kb"@ && kv[i].value is Int,
    ensures
        i < 0 ==> peak_of(kv) is None,
        i >= 0 ==> peak_of(kv) == Some(quotient(of_int(kv[i].value->Int_0), of_int(1024))),
    decreases kv.len(),
{
    if kv.len() > 0 && i < kv.len() - 1 {
        let front = kv.drop_last();
        assert(!(kv[kv.len() - 1].key == "peak_rss_kb"@ && kv[kv.len() - 1].value is Int));
        assert forall|k: int| i < k < front.len() implies !((#[trigger] front[k]).key
            == "peak_rss_kb"@ && front[k].value is Int) by {
            assert(front[k] == kv[k]);
        }
        peak_is_the_last_reported(front, i);
    }
}

/// The columns of a row that say what was measured, and of what, each under its
/// own name: two rows differ in a column only where the measurements do.
pub proof fn columns_hold_their_own(h: BenchHarness, c: BenchConfig, r: BenchResult)
    ensures
        row_of(h, c, r).hostname == h.env.hostname@,
        row_of(h, c, r).commit == h.git.commit@,
        row_of(h, c, r).subject == h.git.subject@,
        row_of(h, c, r).command == c.command@,
        row_of(h, c, r).input_file == opt_view(c.input_file),
        row_of(h, c, r).input_mb == c.input_mb,
        row_of(h, c, r).cargo_profile == c.cargo_profile,
        row_of(h, c, r).elapsed_ms == r.elapsed_ms,
        row_of(h, c, r).kernel == Some(h.env.kernel@),
        row_of(h, c, r).cpu_governor == Some(h.env.governor@),
        row_of(h, c, r).storage_notes == opt_view(h.storage_notes),
        row_of(h, c, r).cli_args == opt_view(c.cli_args),
        row_of(h, c, r).project == h.project.name_text(),
        row_of(h, c, r).stop_marker == opt_view(h.stop_marker),
        row_of(h, c, r).distribution == r.distribution,
        r.hotpath matches Some(d) ==> row_of(h, c, r).hotpath == Some(d@),
        r.hotpath is None ==> row_of(h, c, r).hotpath is None,
        h.env.memory_available_mb <= i64::MAX ==> row_of(h, c, r).avail_memory_mb == Some(
            h.env.memory_available_mb as i64,
        ),
        h.env.memory_available_mb > i64::MAX ==> row_of(h, c, r).avail_memory_mb is None,
{
}

/// Where the harness and the configuration both say something: the harness is
/// right on the mode, the configuration on the features and on the command line.
pub proof fn the_closer_source_wins(h: BenchHarness, c: BenchConfig, r: BenchResult)
    ensures
        h.measure_mode matches Some(m) ==> row_of(h, c, r).mode == Some(m@),
        h.measure_mode is None ==> row_of(h, c, r).mode == opt_view(c.mode),
        c.cargo_features matches Some(f) ==> row_of(h, c, r).cargo_features == Some(f@),
        c.cargo_features is None ==> row_of(h, c, r).cargo_features == opt_view(h.cargo_features),
        c.brokkr_args matches Some(a) ==> row_of(h, c, r).brokkr_args == Some(a@),
        c.brokkr_args is None ==> row_of(h, c, r).brokkr_args == opt_view(h.brokkr_args),
{
}

/// The values of a row: those of the configuration, those of the environment,
/// then those that the program reported, but for the peak of its resident size.
pub proof fn values_come_from_all_sources(h: BenchHarness, c: BenchConfig, r: BenchResult)
    ensures
        row_of(h, c, r).kv == pair_views(c.metadata@) + pair_views(h.env_kv@) + pair_views(
            r.kv@,
        ).filter(|p: PairView| p.key != "peak_rss_kb"@),
        row_of(h, c, r).peak_rss_mb == peak_of(pair_views(r.kv@)),
{
    peak_is_left_out(pair_views(r.kv@));
}

} // verus!
