//! Running a program several times, and what is said of the times.

use crate::error::{DevError, ErrorView};
use crate::harness::clock::whole_nanos;
use crate::numeral::{nat_text, u64_text, usize_text};
use crate::text::{join, joined, views};
use vstd::prelude::*;

verus! {

/// How a program is run, and how its times are printed.
#[derive(Debug, Clone, Copy)]
pub struct RunOptions {
    pub time: bool,
    pub json: bool,
    pub runs: usize,
    pub no_build: bool,
}

/// What is told of the times of several runs.
#[derive(Debug, Clone, Copy, PartialEq, Eq, Structural)]
pub struct RunStats {
    pub min_ms: u64,
    pub median_ms: u64,
    pub p95_ms: u64,
}

/// Nanoseconds as milliseconds: whole ones, but one for any time below that, and
/// the largest number for what is beyond it.
pub open spec fn millis_of(nanos: nat) -> nat {
    let ms = nanos / 1_000_000;
    if ms > u64::MAX {
        u64::MAX as nat
    } else if ms == 0 && nanos > 0 {
        1
    } else {
        ms
    }
}

/// Converts nanoseconds to milliseconds.
pub fn nanos_ms(nanos: u128) -> (r: u64)
    ensures
        r == millis_of(nanos as nat),
{
    let ms: u128 = nanos / 1_000_000;
    if ms > u64::MAX as u128 {
        u64::MAX
    } else if ms == 0 && nanos > 0 {
        1
    } else {
        ms as u64
    }
}

/// The milliseconds of a duration.
pub fn duration_ms(duration: &std::time::Duration) -> (r: u64)
    ensures
        r == millis_of(whole_nanos(*duration)),
{
    nanos_ms(duration.as_nanos())
}

/// A number put into an ordered list.
pub open spec fn placed(s: Seq<u64>, x: u64) -> Seq<u64>
    decreases s.len(),
{
    if s.len() == 0 || s.last() <= x {
        s.push(x)
    } else {
        placed(s.drop_last(), x).push(s.last())
    }
}

/// The numbers in ascending order.
pub open spec fn ordered(s: Seq<u64>) -> Seq<u64>
    decreases s.len(),
{
    if s.len() == 0 {
        Seq::empty()
    } else {
        placed(ordered(s.drop_last()), s.last())
    }
}

proof fn placed_at(s: Seq<u64>, x: u64, p: int)
    requires
        0 <= p <= s.len(),
        p > 0 ==> s[p - 1] <= x,
        forall|k: int| p <= k < s.len() ==> #[trigger] s[k] > x,
    ensures
        placed(s, x) == s.insert(p, x),
    decreases s.len(),
{
    if p == s.len() {
        assert(s.insert(p, x) =~= s.push(x));
    } else {
        let front = s.drop_last();
        assert(s[s.len() - 1] > x);
        assert forall|k: int| p <= k < front.len() implies #[trigger] front[k] > x by {
            assert(front[k] == s[k]);
        }
        placed_at(front, x, p);
        assert(s.insert(p, x) =~= front.insert(p, x).push(s.last()));
    }
}

/// Whether numbers ascend.
pub open spec fn rises(s: Seq<u64>) -> bool {
    forall|i: int, j: int| 0 <= i <= j < s.len() ==> #[trigger] s[i] <= #[trigger] s[j]
}

proof fn placed_rises(s: Seq<u64>, x: u64)
    requires
        rises(s),
    ensures
        rises(placed(s, x)),
        placed(s, x).len() == s.len() + 1,
        placed(s, x).to_multiset() =~= s.to_multiset().insert(x),
        forall|k: int|
            0 <= k < placed(s, x).len() ==> #[trigger] placed(s, x)[k] == x || (s.len() > 0
                && placed(s, x)[k] <= s.last()),
    decreases s.len(),
{
    broadcast use vstd::seq_lib::group_to_multiset_ensures;

    if s.len() > 0 && s.last() > x {
        let front = s.drop_last();
        placed_rises(front, x);
        assert(s =~= front.push(s.last()));
        if front.len() > 0 {
            assert(s[front.len() - 1] <= s[s.len() - 1]);
        }
    }
}

/// Ordering keeps every number and puts them in ascending order.
pub proof fn ordered_rises(s: Seq<u64>)
    ensures
        rises(ordered(s)),
        ordered(s).len() == s.len(),
        ordered(s).to_multiset() =~= s.to_multiset(),
    decreases s.len(),
{
    broadcast use vstd::seq_lib::group_to_multiset_ensures;

    if s.len() > 0 {
        ordered_rises(s.drop_last());
        placed_rises(ordered(s.drop_last()), s.last());
        assert(s =~= s.drop_last().push(s.last()));
    }
}

/// The middle of an ordered list, or the middle between its two middle numbers;
/// their sum stops at the largest number.
pub open spec fn median_of(s: Seq<u64>) -> int {
    if s.len() % 2 == 1 {
        s[s.len() as int / 2] as int
    } else {
        let sum = s[s.len() as int / 2 - 1] + s[s.len() as int / 2];
        (if sum > u64::MAX {
            u64::MAX as int
        } else {
            sum
        }) / 2
    }
}

/// The place of the number that 95 of 100 do not exceed.
pub open spec fn p95_place(len: nat) -> int {
    (95 * len + 99) / 100 - 1
}

/// What is told of some times.
pub open spec fn stats_of(samples: Seq<u64>) -> RunStats {
    let s = ordered(samples);
    RunStats { min_ms: s[0], median_ms: median_of(s) as u64, p95_ms: s[p95_place(s.len())] }
}

fn sort_times(samples: &[u64]) -> (r: Vec<u64>)
    ensures
        r@ == ordered(samples@),
{
    let mut out: Vec<u64> = Vec::new();
    let mut i: usize = 0;
    while i < samples.len()
        invariant
            i <= samples@.len(),
            out@.len() == i,
            out@ == ordered(samples@.take(i as int)),
        decreases samples@.len() - i,
    {
        let x: u64 = samples[i];
        let mut p: usize = i;
        while p > 0 && out[p - 1] > x
            invariant
                p <= i,
                i == out@.len(),
                forall|k: int| p <= k < i ==> #[trigger] out@[k] > x,
            decreases p,
        {
            p -= 1;
        }
        proof {
            placed_at(out@, x, p as int);
            assert(samples@.take(i + 1).drop_last() =~= samples@.take(i as int));
        }
        out.insert(p, x);
        i += 1;
    }
    assert(samples@.take(i as int) =~= samples@);
    out
}

/// Summarises the times of some runs, of which there must be one.
pub fn summarize_runs(samples_ms: &[u64]) -> (r: Result<RunStats, DevError>)
    ensures
        samples_ms@.len() == 0 ==> (r matches Err(e) && e@ == ErrorView::Config(
            "run requires at least one sample"@,
        )),
        samples_ms@.len() > 0 ==> r == Ok::<RunStats, DevError>(stats_of(samples_ms@)),
{
    if samples_ms.len() == 0 {
        return Err(DevError::Config("run requires at least one sample".to_owned()));
    }
    let sorted = sort_times(samples_ms);
    proof {
        ordered_rises(samples_ms@);
    }
    let n: usize = sorted.len();
    let median_ms: u64 = if n % 2 == 1 {
        sorted[n / 2]
    } else {
        let a: u64 = sorted[n / 2 - 1];
        let b: u64 = sorted[n / 2];
        a.saturating_add(b) / 2
    };
    let rank: u128 = (95 * (n as u128) + 99) / 100;
    assert(1 <= rank <= n);
    let p95_ms: u64 = sorted[(rank - 1) as usize];
    Ok(RunStats { min_ms: sorted[0], median_ms, p95_ms })
}

/// The times that are told lie within the times of the runs. The middle of an
/// even number of times is the one exception: where all of them are in the upper
/// half of what can be counted, it stops below the least of them.
pub proof fn stats_lie_within(samples: Seq<u64>)
    requires
        samples.len() > 0,
    ensures
        stats_of(samples).median_ms <= ordered(samples).last(),
        stats_of(samples).min_ms <= stats_of(samples).median_ms <==> samples.len() % 2 == 1
            || ordered(samples)[0] <= u64::MAX / 2,
        stats_of(samples).min_ms <= stats_of(samples).p95_ms <= ordered(samples).last(),
        forall|i: int| 0 <= i < samples.len() ==> stats_of(samples).min_ms <= #[trigger] samples[i],
{
    let s = ordered(samples);
    ordered_rises(samples);
    let n = s.len() as int;
    if n % 2 == 0 {
        assert(s[0] <= s[n / 2 - 1]);
        assert(s[n / 2 - 1] <= s[n / 2]);
        assert(s[n / 2] <= s[n - 1]);
    } else {
        assert(s[0] <= s[n / 2]);
        assert(s[n / 2] <= s[n - 1]);
    }
    let p = p95_place(s.len());
    assert(0 <= p < n);
    assert(s[0] <= s[p]);
    assert(s[p] <= s[n - 1]);
    assert forall|i: int| 0 <= i < samples.len() implies s[0] <= #[trigger] samples[i] by {
        same_members(s, samples, i);
        let k = choose|k: int| 0 <= k < s.len() && s[k] == samples[i];
        assert(s[0] <= s[k]);
    }
}

pub(crate) proof fn same_members(a: Seq<u64>, b: Seq<u64>, i: int)
    requires
        a.to_multiset() =~= b.to_multiset(),
        0 <= i < b.len(),
    ensures
        exists|k: int| 0 <= k < a.len() && a[k] == b[i],
{
    broadcast use vstd::seq_lib::group_to_multiset_ensures;

    assert(b.contains(b[i]));
    assert(b.to_multiset().count(b[i]) > 0);
    assert(a.to_multiset().count(b[i]) > 0);
    assert(a.contains(b[i]));
}

/// How something is printed: as a bare line, or as a message of the run.
#[derive(Debug)]
pub enum Printed {
    Line(String),
    Message(String),
}

/// The contents of a [`Printed`].
pub ghost enum PrintedView {
    Line(Seq<char>),
    Message(Seq<char>),
}

impl View for Printed {
    type V = PrintedView;

    open spec fn view(&self) -> PrintedView {
        match self {
            Printed::Line(t) => PrintedView::Line(t@),
            Printed::Message(t) => PrintedView::Message(t@),
        }
    }
}

/// The numbers of a list, as text.
pub open spec fn number_texts(v: Seq<u64>) -> Seq<Seq<char>> {
    v.map_values(|n: u64| nat_text(n as nat))
}

/// The times as an object of JSON, its keys in order.
pub open spec fn times_json(
    runs: nat,
    build_ms: nat,
    run_ms: nat,
    elapsed_ms: nat,
    stats: RunStats,
    samples: Seq<u64>,
) -> Seq<char> {
    if runs == 1 {
        "{\"build_ms\":"@ + nat_text(build_ms) + ",\"elapsed_ms\":"@ + nat_text(elapsed_ms)
            + ",\"run_ms\":"@ + nat_text(run_ms) + "}"@
    } else {
        "{\"build_ms\":"@ + nat_text(build_ms) + ",\"elapsed_ms\":"@ + nat_text(elapsed_ms)
            + ",\"median_ms\":"@ + nat_text(stats.median_ms as nat) + ",\"min_ms\":"@ + nat_text(
            stats.min_ms as nat,
        ) + ",\"p95_ms\":"@ + nat_text(stats.p95_ms as nat) + ",\"run_ms\":"@ + nat_text(run_ms)
            + ",\"run_samples_ms\":["@ + joined(number_texts(samples), ","@) + "],\"runs\":"@
            + nat_text(runs) + "}"@
    }
}

fn write_json(
    runs: usize,
    build_ms: u64,
    run_ms: u64,
    elapsed_ms: u64,
    stats: RunStats,
    samples: &[u64],
) -> (r: String)
    ensures
        r@ == times_json(
            runs as nat,
            build_ms as nat,
            run_ms as nat,
            elapsed_ms as nat,
            stats,
            samples@,
        ),
{
    let mut out = "{\"build_ms\":".to_owned();
    out.append(u64_text(build_ms).as_str());
    out.append(",\"elapsed_ms\":");
    out.append(u64_text(elapsed_ms).as_str());
    if runs == 1 {
        out.append(",\"run_ms\":");
        out.append(u64_text(run_ms).as_str());
        out.append("}");
        return out;
    }
    let mut texts: Vec<String> = Vec::new();
    let mut i: usize = 0;
    while i < samples.len()
        invariant
            i <= samples@.len(),
            texts@.len() == i,
            forall|k: int| 0 <= k < i ==> (#[trigger] texts@[k])@ == nat_text(samples@[k] as nat),
        decreases samples@.len() - i,
    {
        texts.push(u64_text(samples[i]));
        i += 1;
    }
    assert(views(texts@) =~= number_texts(samples@));
    out.append(",\"median_ms\":");
    out.append(u64_text(stats.median_ms).as_str());
    out.append(",\"min_ms\":");
    out.append(u64_text(stats.min_ms).as_str());
    out.append(",\"p95_ms\":");
    out.append(u64_text(stats.p95_ms).as_str());
    out.append(",\"run_ms\":");
    out.append(u64_text(run_ms).as_str());
    out.append(",\"run_samples_ms\":[");
    out.append(join(&texts, ",").as_str());
    out.append("],\"runs\":");
    out.append(usize_text(runs).as_str());
    out.append("}");
    out
}

/// The sum of two times, the largest number for what is beyond it.
pub open spec fn capped_sum(a: nat, b: nat) -> nat {
    if a + b > u64::MAX {
        u64::MAX as nat
    } else {
        a + b
    }
}

/// What is printed of the times of a program.
pub open spec fn timing_shown(
    opts: RunOptions,
    build_ms: nat,
    run_ms: nat,
    samples: Seq<u64>,
) -> Option<PrintedView> {
    let stats = stats_of(samples);
    let elapsed = capped_sum(build_ms, run_ms);
    if opts.json {
        Some(
            PrintedView::Line(
                times_json(opts.runs as nat, build_ms, run_ms, elapsed, stats, samples),
            ),
        )
    } else if opts.time && opts.runs == 1 {
        Some(
            PrintedView::Line(
                "elapsed_ms="@ + nat_text(elapsed) + " build_ms="@ + nat_text(build_ms)
                    + " run_ms="@ + nat_text(run_ms),
            ),
        )
    } else if opts.time {
        Some(
            PrintedView::Line(
                "elapsed_ms="@ + nat_text(elapsed) + " build_ms="@ + nat_text(build_ms)
                    + " run_ms="@ + nat_text(run_ms) + " runs="@ + nat_text(opts.runs as nat)
                    + " min_ms="@ + nat_text(stats.min_ms as nat) + " median_ms="@ + nat_text(
                    stats.median_ms as nat,
                ) + " p95_ms="@ + nat_text(stats.p95_ms as nat),
            ),
        )
    } else if opts.runs > 1 {
        Some(
            PrintedView::Message(
                "runs="@ + nat_text(opts.runs as nat) + " min="@ + nat_text(stats.min_ms as nat)
                    + "ms median="@ + nat_text(stats.median_ms as nat) + "ms p95="@ + nat_text(
                    stats.p95_ms as nat,
                ) + "ms total="@ + nat_text(run_ms) + "ms"@,
            ),
        )
    } else {
        None
    }
}

/// The contents of what may be printed.
pub open spec fn printed_view(p: Option<Printed>) -> Option<PrintedView> {
    match p {
        Some(x) => Some(x@),
        None => None,
    }
}

/// Puts the times of a program into words.
pub fn run_timing(opts: &RunOptions, build_ms: u64, run_ms: u64, samples_ms: &[u64]) -> (r: Result<
    Option<Printed>,
    DevError,
>)
    ensures
        samples_ms@.len() == 0 ==> (r matches Err(e) && e@ == ErrorView::Config(
            "run requires at least one sample"@,
        )),
        samples_ms@.len() > 0 ==> (r matches Ok(p) && printed_view(p) == timing_shown(
            *opts,
            build_ms as nat,
            run_ms as nat,
            samples_ms@,
        )),
{
    let elapsed_ms: u64 = build_ms.saturating_add(run_ms);
    let stats = match summarize_runs(samples_ms) {
        Ok(s) => s,
        Err(e) => {
            return Err(e);
        },
    };
    if opts.json {
        let text = write_json(opts.runs, build_ms, run_ms, elapsed_ms, stats, samples_ms);
        return Ok(Some(Printed::Line(text)));
    }
    if opts.time {
        let mut out = "elapsed_ms=".to_owned();
        out.append(u64_text(elapsed_ms).as_str());
        out.append(" build_ms=");
        out.append(u64_text(build_ms).as_str());
        out.append(" run_ms=");
        out.append(u64_text(run_ms).as_str());
        if opts.runs != 1 {
            out.append(" runs=");
            out.append(usize_text(opts.runs).as_str());
            out.append(" min_ms=");
            out.append(u64_text(stats.min_ms).as_str());
            out.append(" median_ms=");
            out.append(u64_text(stats.median_ms).as_str());
            out.append(" p95_ms=");
            out.append(u64_text(stats.p95_ms).as_str());
        }
        return Ok(Some(Printed::Line(out)));
    }
    if opts.runs > 1 {
        let mut out = "runs=".to_owned();
        out.append(usize_text(opts.runs).as_str());
        out.append(" min=");
        out.append(u64_text(stats.min_ms).as_str());
        out.append("ms median=");
        out.append(u64_text(stats.median_ms).as_str());
        out.append("ms p95=");
        out.append(u64_text(stats.p95_ms).as_str());
        out.append("ms total=");
        out.append(u64_text(run_ms).as_str());
        out.append("ms");
        return Ok(Some(Printed::Message(out)));
    }
    Ok(None)
}

/// Refuses to run a program no times.
pub fn check_runs(opts: &RunOptions) -> (r: Result<(), DevError>)
    ensures
        r is Ok <==> opts.runs > 0,
        r matches Err(e) ==> e@ == ErrorView::Config("--runs must be >= 1"@),
{
    if opts.runs == 0 {
        return Err(DevError::Config("--runs must be >= 1".to_owned()));
    }
    Ok(())
}

/// What is said before a run, counted from zero: which one of how many, where
/// there are more than one, and the command line.
pub fn run_lines(opts: &RunOptions, idx: usize, binary: &str, args: &[String]) -> (r: Vec<String>)
    requires
        idx < opts.runs,
    ensures
        views(r@) == (if opts.runs > 1 {
            seq!["run "@ + nat_text((idx + 1) as nat) + "/"@ + nat_text(opts.runs as nat)]
        } else {
            Seq::empty()
        }) + seq![binary@ + " "@ + joined(views(args@), " "@)],
{
    let mut out: Vec<String> = Vec::new();
    if opts.runs > 1 {
        let mut head = "run ".to_owned();
        head.append(usize_text(idx + 1).as_str());
        head.append("/");
        head.append(usize_text(opts.runs).as_str());
        out.push(head);
    }
    let mut line = binary.to_owned();
    line.append(" ");
    line.append(join(args, " ").as_str());
    out.push(line);
    assert(views(out@) =~= (if opts.runs > 1 {
        seq!["run "@ + nat_text((idx + 1) as nat) + "/"@ + nat_text(opts.runs as nat)]
    } else {
        Seq::empty()
    }) + seq![binary@ + " "@ + joined(views(args@), " "@)]);
    out
}

/// The times of the runs so far.
#[derive(Debug)]
pub struct RunTotals {
    pub nanos: u128,
    pub samples_ms: Vec<u64>,
}

impl RunTotals {
    /// No run yet.
    pub fn new() -> (r: RunTotals)
        ensures
            r.nanos == 0,
            r.samples_ms@ == Seq::<u64>::empty(),
    {
        RunTotals { nanos: 0, samples_ms: Vec::new() }
    }

    /// Takes in a run that ended. A failure ends the runs with its code.
    pub fn after_run(&mut self, code: i32, nanos: u128) -> (r: Result<(), DevError>)
        requires
            old(self).nanos + nanos <= u128::MAX,
        ensures
            code != 0 ==> (r matches Err(e) && e@ == ErrorView::ExitCode(code)) && *final(self)
                == *old(self),
            code == 0 ==> r is Ok && final(self).nanos == old(self).nanos + nanos
                && final(self).samples_ms@ == old(self).samples_ms@.push(
                millis_of(nanos as nat) as u64,
            ),
    {
        if code != 0 {
            return Err(DevError::ExitCode(code));
        }
        self.nanos = self.nanos + nanos;
        self.samples_ms.push(nanos_ms(nanos));
        Ok(())
    }
}

} // verus!
