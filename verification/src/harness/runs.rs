//! Repeated runs, of which the best counts.

use crate::error::{DevError, ErrorView};
use crate::harness::command_line::{exit_code_from_status, str_views};
use crate::harness::kv::{from_utf8_lossy, is_missing_time, is_reported, lossy, parse_kv_stderr, reported_time};
use crate::harness::record::BenchHarness;
use crate::harness::stats::{
    ascending, distribution, pick_best, spread_fits, spread, BenchResult,
};
use crate::harness::BenchConfig;
use crate::numeral::{nat_text, usize_text};
use crate::text::{join, joined, lines_of, views};
use vstd::prelude::*;

verus! {

/// Whether the run at an index is the first of the fastest.
pub open spec fn is_first_best(times: Seq<i64>, k: int) -> bool {
    &&& 0 <= k < times.len()
    &&& forall|j: int| 0 <= j < times.len() ==> times[k] <= #[trigger] times[j]
    &&& forall|j: int| 0 <= j < k ==> times[k] < #[trigger] times[j]
}

/// The elapsed times of some results.
pub open spec fn result_times(rs: Seq<BenchResult>) -> Seq<i64> {
    rs.map_values(|r: BenchResult| r.elapsed_ms)
}

/// Why a benchmark without a run has no result.
pub open spec fn no_runs() -> ErrorView {
    ErrorView::Config("benchmark requires at least 1 run"@)
}

fn no_runs_error() -> (r: DevError)
    ensures
        r@ == no_runs(),
{
    DevError::Config("benchmark requires at least 1 run".to_owned())
}

/// The line that announces a run.
pub fn run_line(i: usize, runs: usize) -> (r: String)
    requires
        i < runs,
    ensures
        r@ == "run "@ + nat_text((i + 1) as nat) + "/"@ + nat_text(runs as nat),
{
    let mut out = "run ".to_owned();
    out.append(usize_text(i + 1).as_str());
    out.append("/");
    out.append(usize_text(runs).as_str());
    out
}

/// Whether the first runs gave these results.
pub open spec fn gave<T, F: Fn(usize) -> Result<T, DevError>>(f: F, rs: Seq<T>) -> bool {
    forall|i: int|
        0 <= i < rs.len() ==> #[trigger] call_ensures(f, (i as usize,), Ok::<T, DevError>(rs[i]))
}

/// Whether every run can be started.
pub open spec fn can_run<T, F: Fn(usize) -> Result<T, DevError>>(f: F, runs: usize) -> bool {
    forall|i: usize| 0 <= i < runs ==> #[trigger] call_requires(f, (i,))
}

/// Whether the result is the first of the fastest among all that the runs gave.
pub open spec fn is_best_of<F: Fn(usize) -> Result<BenchResult, DevError>>(
    f: F,
    runs: usize,
    best: BenchResult,
) -> bool {
    exists|rs: Seq<BenchResult>, k: int|
        rs.len() == runs && gave(f, rs) && #[trigger] is_first_best(result_times(rs), k) && rs[k]
            == best
}

/// Whether a run failed with the error after all before it had succeeded.
pub open spec fn failed_with<T, F: Fn(usize) -> Result<T, DevError>>(
    f: F,
    runs: usize,
    e: DevError,
) -> bool {
    exists|rs: Seq<T>|
        rs.len() < runs && #[trigger] gave(f, rs) && call_ensures(
            f,
            (rs.len() as usize,),
            Err::<T, DevError>(e),
        )
}

impl BenchHarness {
    /// Runs a measurement as often as the configuration says, and keeps the
    /// fastest result, the first one on a tie. A run that fails ends it.
    pub fn run_internal<F: Fn(usize) -> Result<BenchResult, DevError>>(
        &self,
        config: &BenchConfig,
        f: F,
    ) -> (r: Result<BenchResult, DevError>)
        requires
            can_run(f, config.runs),
        ensures
            config.runs == 0 ==> (r matches Err(e) && e@ == no_runs()),
            r matches Ok(best) ==> is_best_of(f, config.runs, best),
            config.runs > 0 ==> (r matches Err(e) ==> failed_with(f, config.runs, e)),
    {
        let mut best: Option<BenchResult> = None;
        let ghost mut rs: Seq<BenchResult> = Seq::empty();
        let ghost mut k: int = 0;
        let runs: usize = config.runs;
        let mut i: usize = 0;
        while i < runs
            invariant
                i <= runs,
                runs == config.runs,
                rs.len() == i,
                can_run(f, runs),
                gave(f, rs),
                best is None <==> i == 0,
                best matches Some(b) ==> is_first_best(result_times(rs), k) && rs[k] == b,
            decreases runs - i,
        {
            match f(i) {
                Ok(result) => {
                    proof {
                        let before = result_times(rs);
                        let better = best is None || result.elapsed_ms < best->0.elapsed_ms;
                        rs = rs.push(result);
                        let after = result_times(rs);
                        assert(after =~= before.push(result.elapsed_ms));
                        if better {
                            k = i as int;
                        }
                        assert(is_first_best(after, k)) by {
                            assert forall|j: int| 0 <= j < after.len() implies after[k]
                                <= #[trigger] after[j] by {
                                if j < before.len() {
                                    assert(after[j] == before[j]);
                                }
                            }
                            assert forall|j: int| 0 <= j < k implies after[k]
                                < #[trigger] after[j] by {
                                assert(after[j] == before[j]);
                            }
                        }
                    }
                    best = Some(pick_best(best, result));
                },
                Err(e) => {
                    assert(gave(f, rs));
                    assert(failed_with(f, runs, e));
                    return Err(e);
                },
            }
            i += 1;
        }
        match best {
            Some(b) => {
                assert(is_best_of(f, runs, b));
                Ok(b)
            },
            None => Err(no_runs_error()),
        }
    }

    /// Runs a measurement as often as the configuration says, and reports the
    /// spread of all times; the least of them counts as the elapsed time.
    pub fn run_distribution<F: Fn(usize) -> Result<i64, DevError>>(
        &self,
        config: &BenchConfig,
        f: F,
    ) -> (r: Result<BenchResult, DevError>)
        requires
            can_run(f, config.runs),
            forall|samples: Seq<i64>|
                samples.len() == config.runs && #[trigger] gave(f, samples) ==> spread_fits(
                    ascending(samples),
                ),
            config.runs <= i64::MAX,
        ensures
            r matches Ok(b) ==> exists|samples: Seq<i64>|
                samples.len() == config.runs && #[trigger] gave(f, samples) && b.distribution
                    == Some(spread(samples)) && b.elapsed_ms == spread(samples).min_ms && b.kv@.len()
                    == 0 && b.hotpath is None,
            r matches Err(e) ==> failed_with(f, config.runs, e),
    {
        let mut samples: Vec<i64> = Vec::new();
        let runs: usize = config.runs;
        let mut i: usize = 0;
        while i < runs
            invariant
                i <= runs,
                runs == config.runs,
                samples@.len() == i,
                can_run(f, runs),
                gave(f, samples@),
            decreases runs - i,
        {
            match f(i) {
                Ok(ms) => {
                    samples.push(ms);
                },
                Err(e) => {
                    assert(failed_with(f, runs, e));
                    return Err(e);
                },
            }
            i += 1;
        }
        let dist = distribution(&samples);
        Ok(
            BenchResult {
                elapsed_ms: dist.min_ms,
                kv: Vec::new(),
                distribution: Some(dist),
                hotpath: None,
            },
        )
    }
}

/// What became of a program that was run and watched.
pub struct ExternalRun {
    /// It was stopped at the marker that the caller asked for.
    pub stopped: bool,
    /// The user asked to stop.
    pub interrupted: bool,
    /// The code with which it ended, where no signal ended it.
    pub code: Option<i32>,
    pub signal: Option<i32>,
    pub elapsed_ms: i64,
    pub stderr: Vec<u8>,
}

/// Why repeated runs ended early.
pub struct RunAbort {
    pub error: DevError,
    /// The run whose data is still kept, with its exit code.
    pub kept: Option<(usize, i32)>,
}

/// Whether an exit code counts as success: zero, or one of those given. An end by
/// a signal, which has no code, never does.
pub open spec fn counts_as_success(code: Option<i32>, ok_codes: Seq<i32>) -> bool {
    code matches Some(c) && (c == 0 || ok_codes.contains(c))
}

fn holds_code(codes: &[i32], c: i32) -> (r: bool)
    ensures
        r == codes@.contains(c),
{
    let mut i: usize = 0;
    while i < codes.len()
        invariant
            i <= codes@.len(),
            forall|k: int| 0 <= k < i ==> codes@[k] != c,
        decreases codes@.len() - i,
    {
        if codes[i] == c {
            return true;
        }
        i += 1;
    }
    false
}

/// Checks how a program ended: with a code that counts as success, or else with
/// an error that holds what it wrote.
pub fn check_success_or(
    program: &str,
    code: Option<i32>,
    stderr: &[u8],
    ok_codes: &[i32],
) -> (r: Result<(), DevError>)
    ensures
        counts_as_success(code, ok_codes@) <==> r is Ok,
        r matches Err(e) ==> e@ == ErrorView::Subprocess(program@, code, lossy(stderr@)),
{
    match code {
        Some(c) => {
            if c == 0 || holds_code(ok_codes, c) {
                return Ok(());
            }
        },
        None => {},
    }
    Err(
        DevError::Subprocess {
            program: program.to_owned(),
            code,
            stderr: from_utf8_lossy(stderr),
        },
    )
}

/// Whether a run ends the measurement: the user asked for it, or the program was
/// not stopped on purpose and its code does not count as success.
pub open spec fn ends_it(o: ExternalRun, ok_codes: Seq<i32>) -> bool {
    o.interrupted || (!o.stopped && !counts_as_success(o.code, ok_codes))
}

/// The error with which a run ends the measurement.
pub open spec fn ending_error(o: ExternalRun, program: Seq<char>) -> ErrorView {
    if o.interrupted {
        ErrorView::Interrupted
    } else {
        ErrorView::Subprocess(program, o.code, lossy(o.stderr@))
    }
}

/// The exit code of a run as a shell counts it.
pub open spec fn exit_code_of(o: ExternalRun) -> int {
    match o.code {
        Some(c) => c as int,
        None => match o.signal {
            Some(s) => 128 + s,
            None => -1,
        },
    }
}

/// Whether the signal that ended a run can be counted as a shell does.
pub open spec fn signal_fits(o: ExternalRun) -> bool {
    o.signal matches Some(s) ==> s <= i32::MAX - 128
}

/// Whether every run can be started and its signal can be counted.
pub open spec fn can_watch<F: Fn(usize) -> Result<ExternalRun, DevError>>(f: F, runs: usize) -> bool {
    &&& can_run(f, runs)
    &&& forall|i: usize, o: ExternalRun| #[trigger]
        call_ensures(f, (i,), Ok::<ExternalRun, DevError>(o)) ==> signal_fits(o)
}

/// The elapsed times of some runs.
pub open spec fn run_times(os: Seq<ExternalRun>) -> Seq<i64> {
    os.map_values(|o: ExternalRun| o.elapsed_ms)
}

/// Whether none of the runs ended the measurement.
pub open spec fn none_ends(os: Seq<ExternalRun>, ok_codes: Seq<i32>) -> bool {
    forall|i: int| 0 <= i < os.len() ==> !ends_it(#[trigger] os[i], ok_codes)
}

/// Whether the measurement was ended by a run that could not be started, after
/// those before it.
pub open spec fn not_started<F: Fn(usize) -> Result<ExternalRun, DevError>>(
    f: F,
    runs: usize,
    ok_codes: Seq<i32>,
    a: RunAbort,
) -> bool {
    a.kept is None && exists|os: Seq<ExternalRun>|
        os.len() < runs && #[trigger] gave(f, os) && none_ends(os, ok_codes) && call_ensures(
            f,
            (os.len() as usize,),
            Err::<ExternalRun, DevError>(a.error),
        )
}

/// Whether the measurement was ended by what became of its last run, which is kept.
pub open spec fn ended_by_run<F: Fn(usize) -> Result<ExternalRun, DevError>>(
    f: F,
    runs: usize,
    program: Seq<char>,
    ok_codes: Seq<i32>,
    a: RunAbort,
) -> bool {
    exists|os: Seq<ExternalRun>|
        0 < os.len() <= runs && #[trigger] gave(f, os) && none_ends(
            os.drop_last(),
            ok_codes,
        ) && ends_it(os.last(), ok_codes) && a.error@ == ending_error(os.last(), program) && (a.kept matches Some(k) && k.0 == os.len() - 1
            && k.1 == exit_code_of(os.last()))
}

/// Decides whether a run ends the measurement, and with which error and code.
pub fn judge_run(run: usize, program: &str, ok_codes: &[i32], o: ExternalRun) -> (r: Result<
    ExternalRun,
    RunAbort,
>)
    requires
        signal_fits(o),
    ensures
        ends_it(o, ok_codes@) <==> r is Err,
        r matches Ok(same) ==> same == o,
        r matches Err(a) ==> a.error@ == ending_error(o, program@) && (a.kept matches Some(k) && k.0 == run
            && k.1 == exit_code_of(o)),
{
    let code: i32 = exit_code_from_status(o.code, o.signal);
    if o.interrupted {
        return Err(RunAbort { error: DevError::Interrupted, kept: Some((run, code)) });
    }
    if o.stopped {
        return Ok(o);
    }
    match check_success_or(program, o.code, &o.stderr, ok_codes) {
        Ok(_) => Ok(o),
        Err(error) => Err(RunAbort { error, kept: Some((run, code)) }),
    }
}

impl BenchHarness {
    /// Runs a program as often as the configuration says, and keeps the fastest
    /// run's time and index, the first one on a tie. A run that cannot be
    /// started, that the user interrupts, or whose code is neither zero nor one
    /// of those given ends it.
    pub fn run_external_ok<F: Fn(usize) -> Result<ExternalRun, DevError>>(
        &self,
        config: &BenchConfig,
        program: &str,
        ok_codes: &[i32],
        f: F,
    ) -> (r: Result<(BenchResult, usize), RunAbort>)
        requires
            can_watch(f, config.runs),
        ensures
            config.runs == 0 ==> (r matches Err(a) && a.error@ == no_runs() && a.kept is None),
            r matches Ok(b) ==> b.0.kv@.len() == 0 && b.0.distribution is None && b.0.hotpath is None,
            r matches Ok(b) ==> exists|os: Seq<ExternalRun>|
                os.len() == config.runs && #[trigger] gave(f, os) && none_ends(os, ok_codes@)
                    && is_first_best(run_times(os), b.1 as int) && b.0.elapsed_ms
                    == os[b.1 as int].elapsed_ms,
            config.runs > 0 ==> (r matches Err(a) ==> not_started(f, config.runs, ok_codes@, a)
                || ended_by_run(f, config.runs, program@, ok_codes@, a)),
    {
        let mut best: Option<(i64, usize)> = None;
        let ghost mut os: Seq<ExternalRun> = Seq::empty();
        let runs: usize = config.runs;
        let mut i: usize = 0;
        while i < runs
            invariant
                i <= runs,
                runs == config.runs,
                os.len() == i,
                can_watch(f, runs),
                gave(f, os),
                none_ends(os, ok_codes@),
                best is None <==> i == 0,
                best matches Some(b) ==> is_first_best(run_times(os), b.1 as int) && os[b.1 as int].elapsed_ms
                    == b.0,
            decreases runs - i,
        {
            match f(i) {
                Ok(out) => {
                    let ghost before = os;
                    proof {
                        os = os.push(out);
                        assert(os.drop_last() =~= before);
                    }
                    let kept = match judge_run(i, program, ok_codes, out) {
                        Ok(kept) => kept,
                        Err(abort) => {
                            assert(gave(f, os));
                            assert(ended_by_run(f, runs, program@, ok_codes@, abort));
                            return Err(abort);
                        },
                    };
                    let better = match best {
                        Some(b) => kept.elapsed_ms < b.0,
                        None => true,
                    };
                    proof {
                        best_so_far(before, kept, if best is Some { (best->0).1 as int } else { 0 });
                    }
                    if better {
                        best = Some((kept.elapsed_ms, i));
                    }
                },
                Err(error) => {
                    let abort = RunAbort { error, kept: None };
                    assert(not_started(f, runs, ok_codes@, abort));
                    return Err(abort);
                },
            }
            i += 1;
        }
        match best {
            Some(b) => {
                let result = BenchResult {
                    elapsed_ms: b.0,
                    kv: Vec::new(),
                    distribution: None,
                    hotpath: None,
                };
                assert(gave(f, os));
                Ok((result, b.1))
            },
            None => Err(RunAbort { error: no_runs_error(), kept: None }),
        }
    }

    /// Like [`BenchHarness::run_external_ok`], with every code but zero a failure.
    pub fn run_external<F: Fn(usize) -> Result<ExternalRun, DevError>>(
        &self,
        config: &BenchConfig,
        program: &str,
        f: F,
    ) -> (r: Result<(BenchResult, usize), RunAbort>)
        requires
            can_watch(f, config.runs),
        ensures
            config.runs == 0 ==> (r matches Err(a) && a.error@ == no_runs() && a.kept is None),
            r matches Ok(b) ==> b.0.kv@.len() == 0 && b.0.distribution is None && b.0.hotpath is None,
            r matches Ok(b) ==> exists|os: Seq<ExternalRun>|
                os.len() == config.runs && #[trigger] gave(f, os) && none_ends(os, Seq::empty())
                    && is_first_best(run_times(os), b.1 as int) && b.0.elapsed_ms
                    == os[b.1 as int].elapsed_ms,
            config.runs > 0 ==> (r matches Err(a) ==> not_started(f, config.runs, Seq::empty(), a)
                || ended_by_run(f, config.runs, program@, Seq::empty(), a)),
    {
        let none: [i32; 0] = [];
        assert(none@ =~= Seq::<i32>::empty());
        self.run_external_ok(config, program, &none, f)
    }
}

/// One more run keeps the first of the fastest, or takes its place.
proof fn best_so_far(before: Seq<ExternalRun>, o: ExternalRun, k: int)
    requires
        before.len() > 0 ==> is_first_best(run_times(before), k),
    ensures
        before.len() == 0 ==> is_first_best(run_times(before.push(o)), 0),
        before.len() > 0 && o.elapsed_ms < before[k].elapsed_ms ==> is_first_best(
            run_times(before.push(o)),
            before.len() as int,
        ),
        before.len() > 0 && o.elapsed_ms >= before[k].elapsed_ms ==> is_first_best(
            run_times(before.push(o)),
            k,
        ),
{
    let old_times = run_times(before);
    let times = run_times(before.push(o));
    assert(times =~= old_times.push(o.elapsed_ms));
    if before.len() > 0 {
        assert(old_times[k] == before[k].elapsed_ms);
        let m = if o.elapsed_ms < before[k].elapsed_ms {
            before.len() as int
        } else {
            k
        };
        assert forall|j: int| 0 <= j < times.len() implies times[m] <= #[trigger] times[j] by {
            if j < old_times.len() {
                assert(times[j] == old_times[j]);
            }
        }
        assert forall|j: int| 0 <= j < m implies times[m] < #[trigger] times[j] by {
            assert(times[j] == old_times[j]);
        }
    }
}

/// Whether a run reports its elapsed time.
pub open spec fn reports_time(o: ExternalRun) -> bool {
    reported_time(lines_of(lossy(o.stderr@))) is Some
}

/// The elapsed times that some runs report.
pub open spec fn reported_times(os: Seq<ExternalRun>) -> Seq<i64> {
    os.map_values(|o: ExternalRun| reported_time(lines_of(lossy(o.stderr@)))->0 as i64)
}

/// Whether all runs report their elapsed times.
pub open spec fn all_report(os: Seq<ExternalRun>) -> bool {
    forall|i: int| 0 <= i < os.len() ==> reports_time(#[trigger] os[i])
}

/// Whether the measurement was ended by a run that reported no elapsed time.
pub open spec fn ended_without_time<F: Fn(usize) -> Result<ExternalRun, DevError>>(
    f: F,
    runs: usize,
    a: RunAbort,
) -> bool {
    a.kept is None && exists|os: Seq<ExternalRun>|
        0 < os.len() <= runs && #[trigger] gave(f, os) && none_ends(os, Seq::empty()) && all_report(
            os.drop_last(),
        ) && !reports_time(os.last()) && is_missing_time(a.error, lossy(os.last().stderr@))
}

/// A best result, its error stream and the index of its run.
pub struct BestReport {
    pub result: BenchResult,
    pub stderr: Vec<u8>,
    pub run: usize,
}

/// Whether this is the first of the fastest reports among all that the runs gave.
pub open spec fn is_best_report<F: Fn(usize) -> Result<ExternalRun, DevError>>(
    f: F,
    runs: usize,
    b: BestReport,
) -> bool {
    exists|os: Seq<ExternalRun>|
        os.len() == runs && #[trigger] gave(f, os) && none_ends(os, Seq::empty()) && all_report(os)
            && is_first_best(reported_times(os), b.run as int) && b.stderr@
            == os[b.run as int].stderr@ && is_reported(b.result, lossy(b.stderr@))
}

/// Whether this is the result and the run of the first of the fastest reports.
pub open spec fn has_best_report<F: Fn(usize) -> Result<ExternalRun, DevError>>(
    f: F,
    runs: usize,
    result: BenchResult,
    run: usize,
) -> bool {
    exists|b: BestReport| #[trigger]
        is_best_report(f, runs, b) && b.result == result && b.run == run
}

/// One more report keeps the first of the fastest, or takes its place.
proof fn best_report_so_far(before: Seq<ExternalRun>, o: ExternalRun, k: int)
    requires
        before.len() > 0 ==> is_first_best(reported_times(before), k),
    ensures
        ({
            let times = reported_times(before.push(o));
            let own = reported_time(lines_of(lossy(o.stderr@)))->0 as i64;
            &&& before.len() == 0 ==> is_first_best(times, 0)
            &&& before.len() > 0 && own < reported_times(before)[k] ==> is_first_best(
                times,
                before.len() as int,
            )
            &&& before.len() > 0 && own >= reported_times(before)[k] ==> is_first_best(times, k)
        }),
{
    let old_times = reported_times(before);
    let times = reported_times(before.push(o));
    let own = reported_time(lines_of(lossy(o.stderr@)))->0 as i64;
    assert(times =~= old_times.push(own));
    if before.len() > 0 {
        let m = if own < old_times[k] {
            before.len() as int
        } else {
            k
        };
        assert forall|j: int| 0 <= j < times.len() implies times[m] <= #[trigger] times[j] by {
            if j < old_times.len() {
                assert(times[j] == old_times[j]);
            }
        }
        assert forall|j: int| 0 <= j < m implies times[m] < #[trigger] times[j] by {
            assert(times[j] == old_times[j]);
        }
    }
}

impl BenchHarness {
    /// Runs a program as often as the configuration says, reads the time and
    /// the values that it reports, and keeps the fastest report, the first one
    /// on a tie, with its error stream. A run without a time ends it too.
    pub fn run_external_with_kv_raw<F: Fn(usize) -> Result<ExternalRun, DevError>>(
        &self,
        config: &BenchConfig,
        program: &str,
        f: F,
    ) -> (r: Result<BestReport, RunAbort>)
        requires
            can_watch(f, config.runs),
        ensures
            config.runs == 0 ==> (r matches Err(a) && a.error@ == no_runs() && a.kept is None),
            r matches Ok(b) ==> is_best_report(f, config.runs, b),
            config.runs > 0 ==> (r matches Err(a) ==> not_started(f, config.runs, Seq::empty(), a)
                || ended_by_run(f, config.runs, program@, Seq::empty(), a) || ended_without_time(f, config.runs, a)),
    {
        let none: [i32; 0] = [];
        assert(none@ =~= Seq::<i32>::empty());
        let mut best: Option<BestReport> = None;
        let ghost mut os: Seq<ExternalRun> = Seq::empty();
        let runs: usize = config.runs;
        let mut i: usize = 0;
        while i < runs
            invariant
                i <= runs,
                runs == config.runs,
                os.len() == i,
                none@ == Seq::<i32>::empty(),
                can_watch(f, runs),
                gave(f, os),
                none_ends(os, Seq::empty()),
                all_report(os),
                best is None <==> i == 0,
                best matches Some(b) ==> is_first_best(reported_times(os), b.run as int)
                    && b.stderr@ == os[b.run as int].stderr@ && is_reported(
                    b.result,
                    lossy(b.stderr@),
                ),
            decreases runs - i,
        {
            match f(i) {
                Ok(out) => {
                    let ghost before = os;
                    proof {
                        os = os.push(out);
                        assert(os.drop_last() =~= before);
                    }
                    let kept = match judge_run(i, program, &none, out) {
                        Ok(kept) => kept,
                        Err(abort) => {
                            assert(gave(f, os));
                            assert(ended_by_run(f, runs, program@, Seq::empty(), abort));
                            return Err(abort);
                        },
                    };
                    let result = match parse_kv_stderr(&kept.stderr) {
                        Ok(result) => result,
                        Err(error) => {
                            let abort = RunAbort { error, kept: None };
                            assert(gave(f, os));
                            assert(ended_without_time(f, runs, abort));
                            return Err(abort);
                        },
                    };
                    let better = match &best {
                        Some(b) => result.elapsed_ms < b.result.elapsed_ms,
                        None => true,
                    };
                    proof {
                        let k = if best is Some {
                            (best->0).run as int
                        } else {
                            0
                        };
                        best_report_so_far(before, kept, k);
                        if best is Some {
                            assert(reported_times(before)[k] == (best->0).result.elapsed_ms);
                        }
                    }
                    if better {
                        best = Some(BestReport { result, stderr: kept.stderr, run: i });
                    }
                },
                Err(error) => {
                    let abort = RunAbort { error, kept: None };
                    assert(not_started(f, runs, Seq::empty(), abort));
                    return Err(abort);
                },
            }
            i += 1;
        }
        match best {
            Some(b) => {
                assert(gave(f, os));
                Ok(b)
            },
            None => Err(RunAbort { error: no_runs_error(), kept: None }),
        }
    }

    /// Like [`BenchHarness::run_external_with_kv_raw`], without the error stream.
    pub fn run_external_with_kv<F: Fn(usize) -> Result<ExternalRun, DevError>>(
        &self,
        config: &BenchConfig,
        program: &str,
        f: F,
    ) -> (r: Result<(BenchResult, usize), RunAbort>)
        requires
            can_watch(f, config.runs),
        ensures
            config.runs == 0 ==> (r matches Err(a) && a.error@ == no_runs() && a.kept is None),
            r matches Ok(b) ==> has_best_report(f, config.runs, b.0, b.1),
            config.runs > 0 ==> (r matches Err(a) ==> not_started(f, config.runs, Seq::empty(), a)
                || ended_by_run(f, config.runs, program@, Seq::empty(), a) || ended_without_time(f, config.runs, a)),
    {
        match self.run_external_with_kv_raw(config, program, f) {
            Ok(b) => {
                assert(has_best_report(f, config.runs, b.result, b.run));
                Ok((b.result, b.run))
            },
            Err(a) => Err(a),
        }
    }
}

/// The line that announces a variant.
pub open spec fn variant_line(label: Seq<char>, variant: Seq<char>) -> Seq<char> {
    label + ": "@ + variant
}

/// The failures among the outcomes of some variants, as `variant: reason`.
pub open spec fn failures(variants: Seq<Seq<char>>, outs: Seq<Option<Seq<char>>>) -> Seq<Seq<char>>
    decreases outs.len(),
{
    if outs.len() == 0 {
        Seq::empty()
    } else {
        let before = failures(variants, outs.drop_last());
        match outs.last() {
            Some(reason) => before.push(variants[outs.len() - 1] + ": "@ + reason),
            None => before,
        }
    }
}

/// Whether a variant had an outcome: success, or failure for a reason.
pub open spec fn variant_gave<F: Fn(&str, &str) -> Result<(), String>>(
    f: F,
    label: Seq<char>,
    variant: &str,
    out: Option<Seq<char>>,
) -> bool {
    exists|line: &str, r: Result<(), String>|
        line@ == variant_line(label, variant@) && #[trigger] call_ensures(f, (line, variant), r)
            && match r {
            Ok(_) => out is None,
            Err(reason) => out == Some(reason@),
        }
}

/// Runs every variant, whether or not others fail, and reports which failed and
/// why. What runs a variant gets the line that announces it.
pub fn run_variants<F: Fn(&str, &str) -> Result<(), String>>(
    label: &str,
    variants: &[&str],
    run_one: F,
) -> (r: Result<(), DevError>)
    requires
        forall|line: &str, variant: &str| #[trigger] call_requires(run_one, (line, variant)),
    ensures
        exists|outs: Seq<Option<Seq<char>>>|
            outs.len() == variants@.len() && (forall|i: int|
                0 <= i < outs.len() ==> variant_gave(
                    run_one,
                    label@,
                    variants@[i],
                    #[trigger] outs[i],
                )) && match r {
                Ok(_) => #[trigger] failures(str_views(variants@), outs).len() == 0,
                Err(e) => failures(str_views(variants@), outs).len() > 0 && e@ == ErrorView::Verify(
                    nat_text(failures(str_views(variants@), outs).len()) + " of "@ + nat_text(
                        variants@.len(),
                    ) + " variants failed:\n  "@ + joined(
                        failures(str_views(variants@), outs),
                        "\n  "@,
                    ),
                ),
            },
{
    let ghost vs = str_views(variants@);
    let ghost mut outs: Seq<Option<Seq<char>>> = Seq::empty();
    let mut failed: Vec<String> = Vec::new();
    let mut i: usize = 0;
    assert(views(failed@) =~= failures(vs, outs));
    while i < variants.len()
        invariant
            i <= variants@.len(),
            vs == str_views(variants@),
            outs.len() == i,
            forall|line: &str, variant: &str| #[trigger] call_requires(run_one, (line, variant)),
            forall|k: int|
                0 <= k < outs.len() ==> variant_gave(
                    run_one,
                    label@,
                    variants@[k],
                    #[trigger] outs[k],
                ),
            views(failed@) == failures(vs, outs),
        decreases variants@.len() - i,
    {
        let variant = variants[i];
        let mut line = label.to_owned();
        line.append(": ");
        line.append(variant);
        let shown = line.as_str();
        let ghost before = views(failed@);
        let ghost old_outs = outs;
        let r = run_one(shown, variant);
        let ghost result = r;
        match r {
            Ok(_) => {
                proof {
                    outs = outs.push(None);
                }
            },
            Err(reason) => {
                let mut entry = variant.to_owned();
                entry.append(": ");
                entry.append(reason.as_str());
                failed.push(entry);
                proof {
                    outs = outs.push(Some(reason@));
                    assert(vs[i as int] == variant@);
                    assert(views(failed@) =~= before.push(entry@));
                }
            },
        }
        proof {
            assert(outs.drop_last() =~= old_outs);
            assert(variant_gave(run_one, label@, variants@[i as int], outs[i as int])) by {
                assert(call_ensures(run_one, (shown, variant), result));
                assert(shown@ == variant_line(label@, variant@));
            }
        }
        i += 1;
    }
    assert(views(failed@).len() == failed@.len());
    if failed.len() == 0 {
        assert(failures(vs, outs).len() == 0);
        Ok(())
    } else {
        let mut message = usize_text(failed.len());
        message.append(" of ");
        message.append(usize_text(variants.len()).as_str());
        message.append(" variants failed:\n  ");
        message.append(join(&failed, "\n  ").as_str());
        assert(failures(vs, outs).len() > 0);
        Err(DevError::Verify(message))
    }
}

} // verus!
