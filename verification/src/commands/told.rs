//! What holds of the options of a command and of the times that are told of it.

use crate::commands::clean::{past_text, verb_text};
use crate::commands::gates::{visual_refusal, VisualCommand};
use crate::commands::options::{first_unpaired, ModeArgs};
use crate::commands::timing::{stats_of, times_json, timing_shown, PrintedView, RunOptions, RunStats};
use crate::measure::MeasureMode;
use crate::numeral::nat_text;
use crate::project::Project;
use crate::text::{halves, joined, next_char};
use vstd::prelude::*;

verus! {

proof fn none_before(s: Seq<char>, c: char, at: int, i: int)
    requires
        0 <= i <= at <= s.len(),
        at < s.len() ==> s[at] == c,
        forall|k: int| i <= k < at ==> #[trigger] s[k] != c,
    ensures
        next_char(s, c, i) == at,
    decreases at - i,
{
    if i < at {
        assert(s[i] != c);
        none_before(s, c, at, i + 1);
    }
}

/// A text is split at the first of the characters: a key without it and any value
/// are parted again, and a text without it is not split.
pub proof fn split_at_the_first(key: Seq<char>, value: Seq<char>, c: char)
    requires
        forall|k: int| 0 <= k < key.len() ==> #[trigger] key[k] != c,
    ensures
        halves(key + seq![c] + value, c) == Some((key, value)),
        halves(key, c) is None,
{
    let all = key + seq![c] + value;
    assert forall|k: int| 0 <= k < key.len() implies #[trigger] all[k] != c by {
        assert(all[k] == key[k]);
    }
    none_before(all, c, key.len() as int, 0);
    none_before(key, c, key.len() as int, 0);
    assert(all.take(key.len() as int) =~= key);
    assert(all.skip(key.len() as int + 1) =~= value);
}

/// The first text without an equals sign is the one that is complained of.
pub proof fn first_unpaired_is_first(pairs: Seq<Seq<char>>)
    ensures
        first_unpaired(pairs) matches Some(i) ==> 0 <= i < pairs.len() && halves(pairs[i], '=')
            is None && forall|k: int|
            0 <= k < i ==> halves(#[trigger] pairs[k], '=') is Some,
        first_unpaired(pairs) is None ==> forall|k: int|
            0 <= k < pairs.len() ==> halves(#[trigger] pairs[k], '=') is Some,
    decreases pairs.len(),
{
    if pairs.len() > 0 {
        let front = pairs.drop_last();
        first_unpaired_is_first(front);
        assert(forall|k: int| 0 <= k < front.len() ==> #[trigger] pairs[k] == front[k]);
    }
}

/// One option names its mode and its runs, and without an option there is one plain
/// run; two options are too many.
pub proof fn options_name_the_mode(m: ModeArgs, n: usize)
    ensures
        (ModeArgs { bench: Some(n), hotpath: None, alloc: None }).mode() == (MeasureMode::Bench {
            runs: n,
        }),
        (ModeArgs { bench: None, hotpath: Some(n), alloc: None }).mode() == (MeasureMode::Hotpath {
            runs: n,
        }),
        (ModeArgs { bench: None, hotpath: None, alloc: Some(n) }).mode() == (MeasureMode::Alloc {
            runs: n,
        }),
        m.count() == 0 <==> m.bench is None && m.hotpath is None && m.alloc is None,
        m.count() == 0 ==> m.mode() == MeasureMode::Run,
        m.count() > 1 <==> (m.bench is Some && m.hotpath is Some) || (m.bench is Some
            && m.alloc is Some) || (m.hotpath is Some && m.alloc is Some),
        m.bench matches Some(k) ==> m.mode().runs_of() == k,
        (MeasureMode::Bench { runs: n }).runs_of() == n,
        (MeasureMode::Hotpath { runs: n }).runs_of() == n,
        (MeasureMode::Alloc { runs: n }).runs_of() == n,
        MeasureMode::Run.runs_of() == 1,
{
}

/// The times of one run as JSON, each under its name.
pub proof fn one_run_as_json(build_ms: nat, run_ms: nat, elapsed_ms: nat, stats: RunStats, samples: Seq<u64>)
    ensures
        times_json(1, build_ms, run_ms, elapsed_ms, stats, samples) == "{\"build_ms\":"@ + nat_text(
            build_ms,
        ) + ",\"elapsed_ms\":"@ + nat_text(elapsed_ms) + ",\"run_ms\":"@ + nat_text(run_ms) + "}"@,
{
}

/// The times of more runs as JSON, each under its name, with every run in its order.
pub proof fn more_runs_as_json(
    runs: nat,
    build_ms: nat,
    run_ms: nat,
    elapsed_ms: nat,
    stats: RunStats,
    samples: Seq<u64>,
)
    requires
        runs != 1,
    ensures
        times_json(runs, build_ms, run_ms, elapsed_ms, stats, samples) == "{\"build_ms\":"@ + nat_text(
            build_ms,
        ) + ",\"elapsed_ms\":"@ + nat_text(elapsed_ms) + ",\"median_ms\":"@ + nat_text(
            stats.median_ms as nat,
        ) + ",\"min_ms\":"@ + nat_text(stats.min_ms as nat) + ",\"p95_ms\":"@ + nat_text(
            stats.p95_ms as nat,
        ) + ",\"run_ms\":"@ + nat_text(run_ms) + ",\"run_samples_ms\":["@ + joined(
            Seq::new(samples.len(), |i: int| nat_text(samples[i] as nat)),
            ","@,
        ) + "],\"runs\":"@ + nat_text(runs) + "}"@,
{
    assert(crate::commands::timing::number_texts(samples) =~= Seq::new(
        samples.len(),
        |i: int| nat_text(samples[i] as nat),
    ));
}

/// The times as text: what was built and what was run, each under its name, and of
/// more than one run the least, the middle and the 95th percentile.
pub proof fn times_as_text(o: RunOptions, build_ms: nat, run_ms: nat, samples: Seq<u64>)
    requires
        build_ms + run_ms <= u64::MAX,
        !o.json,
    ensures
        ({
            let s = stats_of(samples);
            let head = "elapsed_ms="@ + nat_text(build_ms + run_ms) + " build_ms="@ + nat_text(
                build_ms,
            ) + " run_ms="@ + nat_text(run_ms);
            let shown = timing_shown(o, build_ms, run_ms, samples);
            &&& o.time && o.runs == 1 ==> shown == Some(PrintedView::Line(head))
            &&& o.time && o.runs != 1 ==> shown == Some(
                PrintedView::Line(
                    head + " runs="@ + nat_text(o.runs as nat) + " min_ms="@ + nat_text(
                        s.min_ms as nat,
                    ) + " median_ms="@ + nat_text(s.median_ms as nat) + " p95_ms="@ + nat_text(
                        s.p95_ms as nat,
                    ),
                ),
            )
            &&& !o.time && o.runs > 1 ==> shown == Some(
                PrintedView::Message(
                    "runs="@ + nat_text(o.runs as nat) + " min="@ + nat_text(s.min_ms as nat)
                        + "ms median="@ + nat_text(s.median_ms as nat) + "ms p95="@ + nat_text(
                        s.p95_ms as nat,
                    ) + "ms total="@ + nat_text(run_ms) + "ms"@,
                ),
            )
            &&& !o.time && o.runs <= 1 ==> shown is None
        }),
{
}

/// The times as JSON are those of the options, what was built before what was run.
pub proof fn json_is_of_the_options(o: RunOptions, build_ms: nat, run_ms: nat, samples: Seq<u64>)
    requires
        build_ms + run_ms <= u64::MAX,
        o.json,
    ensures
        timing_shown(o, build_ms, run_ms, samples) == Some(
            PrintedView::Line(
                times_json(
                    o.runs as nat,
                    build_ms,
                    run_ms,
                    build_ms + run_ms,
                    stats_of(samples),
                    samples,
                ),
            ),
        ),
{
}

/// What only would happen is said to be only that.
pub proof fn trial_is_told_as_such(dry_run: bool)
    ensures
        verb_text(dry_run) == if dry_run { "would remove"@ } else { "removed"@ },
        past_text(dry_run) == if dry_run { "would clean"@ } else { "cleaned"@ },
{
}

/// A visual command is refused under its own name, with that of the project.
pub proof fn visual_commands_are_refused_by_name(project: Project)
    ensures
        visual_refusal(VisualCommand::Visual, project)
            == "'visual' runs visual tests and is only available for litehtml/sluggrs projects (current: "@
            + project.name_text() + ")"@,
        visual_refusal(VisualCommand::List, project)
            == "'list' is only available for litehtml/sluggrs projects (current: "@
            + project.name_text() + ")"@,
        visual_refusal(VisualCommand::Approve, project)
            == "'approve' is only available for litehtml/sluggrs projects (current: "@
            + project.name_text() + ")"@,
        visual_refusal(VisualCommand::Report, project)
            == "'report' is only available for litehtml/sluggrs projects (current: "@
            + project.name_text() + ")"@,
        visual_refusal(VisualCommand::Status, project)
            == "'visual-status' is only available for litehtml/sluggrs projects (current: "@
            + project.name_text() + ")"@,
{
}

} // verus!
