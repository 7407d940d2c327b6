//! What holds of the commands: what they clean, whom they signal, and where they may run.

use crate::commands::clean::{
    by_age, has_extension, is_archive_of, is_run_name, newest_first, owner_of, pbf, pmtiles, pruned,
    steps_of, sweep_of, CleanOpts, Step, StoreFile,
};
use crate::commands::dispatch::{figures_of, home_of, lock_of, Command};
use crate::commands::gates::{
    refusal, suite_named, sync_of, verification_home, Suite, SyncAction, Verification, VisualCommand,
};
use crate::commands::lock::{asked, child_line, holder_line, marker_line, mock_lines, mock_pids};
use crate::error::ErrorView;
use crate::lockfile::{InfoView, StateView};
use crate::numeral::{nat_text, read_nat_of_text};
use crate::project::{is_project, Project};
use crate::text::trimmed;
use vstd::prelude::*;

verus! {

/// Every archive of the kind stands in the order, once, and nothing else does.
pub proof fn every_archive_is_in_the_order(files: Seq<StoreFile>, prefix: Seq<char>)
    ensures
        forall|i: int|
            0 <= i < files.len() ==> (#[trigger] is_archive_of(files[i].name.bytes@, prefix)
                <==> newest_first(files, prefix).contains(i)),
        newest_first(files, prefix).len() == files.filter(
            |f: StoreFile| is_archive_of(f.name.bytes@, prefix),
        ).len(),
    decreases files.len(),
{
    reveal(Seq::filter);
    let all = newest_first(files, prefix);
    if files.len() > 0 {
        let front = files.drop_last();
        let x = files.len() - 1;
        every_archive_is_in_the_order(front, prefix);
        crate::commands::clean::order_is_by_age(files, prefix);
        crate::commands::clean::order_is_by_age(front, prefix);
        let before = newest_first(front, prefix);
        aged_holds(files, before, x);
        assert forall|i: int| 0 <= i < files.len() implies (#[trigger] is_archive_of(
            files[i].name.bytes@,
            prefix,
        ) <==> all.contains(i)) by {
            if i < x {
                assert(front[i] == files[i]);
                assert(is_archive_of(front[i].name.bytes@, prefix) <==> before.contains(i));
                if is_archive_of(files.last().name.bytes@, prefix) {
                    assert(by_age(files, before, x).contains(i) <==> before.contains(i) || i == x);
                }
            } else if is_archive_of(files.last().name.bytes@, prefix) {
                assert(by_age(files, before, x).contains(x) <==> before.contains(x) || x == x);
            } else if all.contains(i) {
                let k = choose|k: int| 0 <= k < before.len() && before[k] == i;
                assert(0 <= before[k] < front.len());
            }
        }
    } else {
        assert(all.len() == 0);
    }
}

proof fn aged_holds(files: Seq<StoreFile>, order: Seq<int>, x: int)
    ensures
        forall|i: int| #[trigger]
            by_age(files, order, x).contains(i) <==> order.contains(i) || i == x,
        by_age(files, order, x).len() == order.len() + 1,
    decreases order.len(),
{
    let all = by_age(files, order, x);
    if order.len() == 0 || files[order.last()].modified >= files[x].modified {
        assert forall|i: int| #[trigger] all.contains(i) <==> order.contains(i) || i == x by {
            pushed(order, x, i);
        }
    } else {
        let front = order.drop_last();
        aged_holds(files, front, x);
        assert forall|i: int| #[trigger] all.contains(i) <==> order.contains(i) || i == x by {
            pushed(by_age(files, front, x), order.last(), i);
            pushed(front, order.last(), i);
            assert(order =~= front.push(order.last()));
            assert(by_age(files, front, x).contains(i) <==> front.contains(i) || i == x);
        }
    }
}

proof fn pushed(s: Seq<int>, x: int, i: int)
    ensures
        s.push(x).contains(i) <==> s.contains(i) || i == x,
{
    let all = s.push(x);
    if s.contains(i) {
        let k = choose|k: int| 0 <= k < s.len() && s[k] == i;
        assert(all[k] == i);
    }
    if i == x {
        assert(all[s.len() as int] == i);
    }
    if all.contains(i) {
        let k = choose|k: int| 0 <= k < all.len() && all[k] == i;
        if k < s.len() {
            assert(s[k] == i);
        }
    }
}

/// As many archives are kept as asked for, where there are so many, and all others
/// go.
pub proof fn all_but_so_many_go(files: Seq<StoreFile>, prefix: Seq<char>, keep: nat)
    ensures
        newest_first(files, prefix).len() <= keep ==> pruned(files, prefix, keep).len() == 0,
        newest_first(files, prefix).len() > keep ==> pruned(files, prefix, keep).len()
            == newest_first(files, prefix).len() - keep,
        newest_first(files, prefix).len() >= keep ==> newest_first(files, prefix) == newest_first(
            files,
            prefix,
        ).take(keep as int) + pruned(files, prefix, keep),
{
    let all = newest_first(files, prefix);
    if all.len() >= keep {
        assert(all =~= all.take(keep as int) + pruned(files, prefix, keep));
    }
}

/// An extension stands behind a dot, with a name in front of it.
pub proof fn extension_is_behind_the_dot(stem: Seq<u8>, ext: Seq<u8>)
    requires
        stem.len() > 0,
        forall|i: int| 0 <= i < ext.len() ==> #[trigger] ext[i] != 46,
    ensures
        has_extension(stem + seq![46u8] + ext, ext),
        !has_extension(seq![46u8] + ext, ext),
        pbf() == seq![112u8, 98u8, 102u8],
        pmtiles().len() == 7,
{
    let s = stem + seq![46u8] + ext;
    assert(s.skip(stem.len() as int + 1) =~= ext);
}

/// What of a scratch directory goes: files of map data wherever they are; of
/// directories those of geocoding, and those of a process by its number.
pub proof fn scratch_goes_by_name(name: Seq<u8>)
    ensures
        sweep_of(name, true).file == has_extension(name, pbf()),
        sweep_of(name, false).file == has_extension(name, pbf()),
        !sweep_of(name, false).geocode,
        sweep_of(name, false).owner is None,
        crate::path::text_in(name) matches Some(t) ==> (sweep_of(name, true).geocode
            <==> "geocode-"@.is_prefix_of(t)) && sweep_of(name, true).owner == owner_of(t),
        crate::path::text_in(name) is None ==> !sweep_of(name, true).geocode && sweep_of(
            name,
            true,
        ).owner is None,
{
}

/// The process of a directory is the number at the end of its name.
pub proof fn owner_is_the_number(pid: nat, other: Seq<char>)
    requires
        pid <= i32::MAX,
        !".pbfhogg-external-join-"@.is_prefix_of(other),
    ensures
        owner_of(".pbfhogg-external-join-"@ + nat_text(pid)) == Some(pid as i32),
        owner_of(other) is None,
{
    crate::text::shape::ends_come_off(".pbfhogg-external-join-"@, nat_text(pid));
    crate::numeral::read_int_of_text(pid as int, i32::MAX as nat);
}

/// A numbered run is named by its number.
pub proof fn runs_are_numbered(n: nat, other: Seq<char>)
    requires
        n <= u32::MAX,
        !"run-"@.is_prefix_of(other),
    ensures
        is_run_name("run-"@ + nat_text(n)),
        !is_run_name(other),
{
    crate::text::shape::ends_come_off("run-"@, nat_text(n));
    read_nat_of_text(n, u32::MAX as nat);
}

proof fn in_either(a: Seq<Step>, b: Seq<Step>, x: Step)
    ensures
        (a + b).contains(x) <==> a.contains(x) || b.contains(x),
{
    let all = a + b;
    if a.contains(x) {
        let i = choose|i: int| 0 <= i < a.len() && a[i] == x;
        assert(all[i] == x);
    }
    if b.contains(x) {
        let i = choose|i: int| 0 <= i < b.len() && b[i] == x;
        assert(all[a.len() + i] == x);
    }
    if all.contains(x) {
        let i = choose|i: int| 0 <= i < all.len() && all[i] == x;
        if i < a.len() {
            assert(a[i] == x);
        } else {
            assert(b[i - a.len()] == x);
        }
    }
}

proof fn in_few(s: Step, t: Step, x: Step)
    ensures
        seq![s].contains(x) <==> s == x,
        seq![s, t].contains(x) <==> s == x || t == x,
        !Seq::<Step>::empty().contains(x),
{
    if s == x {
        assert(seq![s][0] == x);
        assert(seq![s, t][0] == x);
    }
    if t == x {
        assert(seq![s, t][1] == x);
    }
}

/// What is cleaned where: what verification and flags left behind in any case; the
/// scratch of the project's own kind; the archives and the outputs only of elivagar
/// and only where asked for; the worktrees only where asked for, and they are
/// mentioned where not.
pub proof fn cleaning_is_by_project(project: Project, opts: CleanOpts, scratch: bool, x: Step)
    ensures
        steps_of(project, opts, scratch).contains(x) <==> match x {
            Step::Verify | Step::Rustflags => true,
            Step::TilegenScratch => project is Elivagar && scratch,
            Step::NidhoggScratch => project is Nidhogg && scratch,
            Step::LooseScratch => scratch && !(project is Elivagar) && !(project is Nidhogg),
            Step::Calibrands | Step::OceanBuild => project is Elivagar,
            Step::Archives => project is Elivagar && opts.archives,
            Step::RatatoskrRuns => project is Ratatoskr,
            Step::PinersRuns => project is Piners,
            Step::Outputs => project is Elivagar && opts.worktrees,
            Step::Worktrees => opts.worktrees,
            Step::MentionWorktrees => !opts.worktrees,
        },
{
    let elivagar = project is Elivagar;
    let a = seq![Step::Verify, Step::Rustflags];
    let b = if !scratch {
        Seq::<Step>::empty()
    } else if elivagar {
        seq![Step::TilegenScratch]
    } else if project is Nidhogg {
        seq![Step::NidhoggScratch]
    } else {
        seq![Step::LooseScratch]
    };
    let c = if elivagar {
        seq![Step::Calibrands, Step::OceanBuild]
    } else {
        Seq::<Step>::empty()
    };
    let d = if elivagar && opts.archives {
        seq![Step::Archives]
    } else {
        Seq::<Step>::empty()
    };
    let e = if project is Ratatoskr {
        seq![Step::RatatoskrRuns]
    } else if project is Piners {
        seq![Step::PinersRuns]
    } else {
        Seq::<Step>::empty()
    };
    let f = if opts.worktrees && elivagar {
        seq![Step::Outputs]
    } else {
        Seq::<Step>::empty()
    };
    let g = if opts.worktrees {
        seq![Step::Worktrees]
    } else {
        seq![Step::MentionWorktrees]
    };
    in_either(a, b, x);
    in_either(a + b, c, x);
    in_either(a + b + c, d, x);
    in_either(a + b + c + d, e, x);
    in_either(a + b + c + d + e, f, x);
    in_either(a + b + c + d + e + f, g, x);
    in_few(Step::Verify, Step::Rustflags, x);
    in_few(Step::TilegenScratch, Step::TilegenScratch, x);
    in_few(Step::NidhoggScratch, Step::NidhoggScratch, x);
    in_few(Step::LooseScratch, Step::LooseScratch, x);
    in_few(Step::Calibrands, Step::OceanBuild, x);
    in_few(Step::Archives, Step::Archives, x);
    in_few(Step::RatatoskrRuns, Step::RatatoskrRuns, x);
    in_few(Step::PinersRuns, Step::PinersRuns, x);
    in_few(Step::Outputs, Step::Outputs, x);
    in_few(Step::Worktrees, Step::Worktrees, x);
    in_few(Step::MentionWorktrees, Step::MentionWorktrees, x);
}

/// The line on the holder: its number, how long it has been running where that is
/// known, and what was asked of it.
pub proof fn holder_is_told(info: InfoView, up: Seq<char>)
    ensures
        holder_line(info, None) == "brokkr PID "@ + nat_text(info.pid as nat) + ": "@ + asked(
            info.state,
        ),
        holder_line(info, Some(up)) == "brokkr PID "@ + nat_text(info.pid as nat) + (" running "@
            + up) + ": "@ + asked(info.state),
        info.state.args.len() > 0 ==> asked(info.state) == info.state.project + " "@
            + info.state.args,
        info.state.args.len() == 0 ==> asked(info.state) == info.state.project + " "@
            + info.state.command,
{
    assert("brokkr PID "@ + nat_text(info.pid as nat) + Seq::<char>::empty() =~= "brokkr PID "@
        + nat_text(info.pid as nat));
}

/// The line on the program under the lock tells its number and its figures, and
/// which run of how many it is where that is known; there is none without figures.
pub proof fn child_is_told(s: StateView, t: Seq<char>)
    ensures
        child_line(s, None).len() == 0,
        s.child is None ==> child_line(s, Some(t)).len() == 0,
        s.child matches Some(c) ==> (s.progress is None ==> child_line(s, Some(t)) == seq![
            "child PID "@ + nat_text(c.0 as nat) + " "@ + t,
        ]),
        s.child matches Some(c) ==> (s.progress matches Some(p) ==> child_line(s, Some(t)) == seq![
            "run "@ + nat_text(p.0 as nat) + "/"@ + nat_text(p.1 as nat) + ", "@ + "child PID "@
                + nat_text(c.0 as nat) + " "@ + t,
        ]),
{
    if s.child is Some && s.progress is None {
        assert(Seq::<char>::empty() + "child PID "@ =~= "child PID "@);
    }
}

/// The helper servers with figures are told in order, each with its number.
pub proof fn helpers_are_told(mocks: Seq<(u32, Seq<char>)>, summaries: Seq<Option<String>>, n: int)
    requires
        0 < n <= summaries.len(),
    ensures
        summaries[n - 1] matches Some(t) ==> mock_lines(mocks, summaries, n) == mock_lines(
            mocks,
            summaries,
            n - 1,
        ).push("mock PID "@ + nat_text(mocks[n - 1].0 as nat) + " "@ + t@),
        summaries[n - 1] is None ==> mock_lines(mocks, summaries, n) == mock_lines(
            mocks,
            summaries,
            n - 1,
        ),
        mock_lines(mocks, summaries, 0).len() == 0,
{
    let before = mock_lines(mocks, summaries, n - 1);
    match summaries[n - 1] {
        Some(t) => {
            let line = "mock PID "@ + nat_text(mocks[n - 1].0 as nat) + " "@ + t@;
            assert(before + seq![line] =~= before.push(line));
        },
        None => {
            assert(before + Seq::<Seq<char>>::empty() =~= before);
        },
    }
}

/// The last marker is told where the holder is known and there is one.
pub proof fn marker_is_told(pid: u32, m: Seq<char>)
    ensures
        pid > 0 && trimmed(m).len() > 0 ==> marker_line(pid, Some(m)) == seq![
            "last marker: "@ + trimmed(m),
        ],
        trimmed(m).len() == 0 ==> marker_line(pid, Some(m)).len() == 0,
        marker_line(0, Some(m)).len() == 0,
        marker_line(pid, None).len() == 0,
{
}

/// Every helper server is signalled, each under its own number.
pub proof fn helpers_are_signalled(info: InfoView, i: int)
    requires
        0 <= i < info.state.mocks.len(),
    ensures
        mock_pids(info).len() == info.state.mocks.len(),
        mock_pids(info)[i] == info.state.mocks[i].0,
{
}

/// A command that belongs to a project is told with the project that it wants and
/// the one that it was given in.
pub proof fn refusals_name_both_projects(command: Seq<char>, wanted: Project, project: Project)
    ensures
        refusal(command, wanted, project) == ErrorView::Config(
            "'brokkr "@ + command + "' is only available in "@ + wanted.name_text()
                + " projects (current: "@ + project.name_text() + ")"@,
        ),
{
}

/// The projects of the verifications.
pub proof fn verifications_have_homes(v: Verification)
    ensures
        verification_home(v).0 is Nidhogg <==> v is Batch || v is Geocode || v is Readonly,
        verification_home(v).0 is Elivagar <==> v is Pmtiles,
        verification_home(v).0 is Pbfhogg <==> v is Cross,
        home_of(Command::Verify(v)) == Some(verification_home(v)),
{
}

/// Which commands belong to which project.
pub proof fn commands_have_homes(c: Command)
    requires
        !(c is Verify),
    ensures
        (home_of(c) matches Some(h) && h.0 is Nidhogg) <==> c is Serve || c is Stop || c is Status || c
            is Ingest || c is Update || c is Query || c is Geocode,
        (home_of(c) matches Some(h) && h.0 is Litehtml) <==> c is Prepare || c is HtmlExtract || c
            is Outline,
        (home_of(c) matches Some(h) && h.0 is Ratatoskr) <==> c is Service || c is Sync || c
            is MockServe,
        (home_of(c) matches Some(h) && h.0 is Piners) <==> c is CorpusResults || c is Corpus || c
            is LintCorpus || c is LintResults,
        (home_of(c) matches Some(h) && h.0 is Mogwai) <==> c is Mogwai,
        (home_of(c) matches Some(h) && h.0 is Sluggrs) <==> c is Hotpath,
        !(home_of(c) matches Some(h) && (h.0 is Pbfhogg || h.0 is Elivagar || h.0 is Dellingr)),
{
}

/// Which commands take the lock before they run: those that build or change
/// something; those that only look at something do not, and neither do those that
/// are measured, which take it later.
pub proof fn locks_are_taken_by_those_that_work(c: Command)
    ensures
        lock_of(c) is Some <==> c is Run || c is Passthrough || c is Install || c is Deps || c
            is Check || c is Clippy || c is Clean || c == Command::Verify(Verification::Pmtiles) || c
            is Download || c is PmtilesInspect || c is Diag || c is Svg || c is Regress || c
            is PmtilesCorpus || c is DownloadOcean || c is OceanBuild || c
            is DownloadNaturalEarth || c is Serve || c is Ingest || c is Update || c
            == Command::Visual(VisualCommand::Visual) || c is Test,
        c is Serve ==> lock_of(c) == Some("serve"@),
        c is Ingest ==> lock_of(c) == Some("ingest"@),
        c is Clean ==> lock_of(c) == Some("clean"@),
        c is Run || c is Passthrough ==> lock_of(c) == Some("run"@),
        c is Check ==> lock_of(c) == Some("check"@),
{
}

/// The figures under which a command is measured: those that were given, but for
/// commands that have their own.
pub proof fn figures_are_those_given(c: Command, d: Seq<char>, v: Seq<char>, e: Seq<char>, w: Seq<char>)
    ensures
        c is RunNidIngest || c is Pbfhogg || c is Tilegen || c is Read || c is Write || c is Suite
            ==> figures_of(c, d, v) == Some((d, v)),
        c is RunApi || c is RunTiles ==> figures_of(c, d, v) == Some((d, "raw"@)),
        c is PmtilesWriter || c is NodeStore ==> figures_of(c, d, v) == figures_of(c, e, w),
        c is Dellingr || c is Mogwai || c is Corpus || c is Hotpath ==> figures_of(c, d, v)
            == figures_of(c, e, w),
        c is Lock || c is Clean || c is Serve || c is Status ==> figures_of(c, d, v) is None,
{
}

/// A suite is the one of the project whose name it has.
pub proof fn suites_have_the_names_of_projects(name: Seq<char>)
    ensures
        suite_named(name) matches Some(s) ==> s.1.name_text() == name && s.2 == "suite "@ + name,
        suite_named(Project::Pbfhogg.name_text()) matches Some(s) && s.0 is Pbfhogg,
        suite_named(Project::Elivagar.name_text()) matches Some(s) && s.0 is Elivagar,
        suite_named(Project::Nidhogg.name_text()) matches Some(s) && s.0 is Nidhogg,
{
    reveal_strlit("pbfhogg");
    reveal_strlit("elivagar");
    reveal_strlit("nidhogg");
    reveal_strlit("suite ");
    reveal_strlit("suite pbfhogg");
    reveal_strlit("suite elivagar");
    reveal_strlit("suite nidhogg");
    assert("suite "@ + "pbfhogg"@ =~= "suite pbfhogg"@);
    assert("suite "@ + "elivagar"@ =~= "suite elivagar"@);
    assert("suite "@ + "nidhogg"@ =~= "suite nidhogg"@);
    assert("pbfhogg"@[0] == 'p' && "elivagar"@[0] == 'e' && "nidhogg"@[0] == 'n');
}

/// What a synchronisation does: everything where that is asked for; without a
/// script it lists them, and cannot measure; with one it tries it, or measures it.
pub proof fn synchronisation_is_decided(script: bool, bench: bool, cohort: bool)
    ensures
        sync_of(true, script, bench, cohort) == Some(SyncAction::All),
        sync_of(false, false, false, false) == Some(SyncAction::List),
        sync_of(false, false, true, false) is None,
        sync_of(false, true, false, cohort) == Some(SyncAction::Smoke),
        sync_of(false, true, true, false) == Some(SyncAction::Bench),
        sync_of(false, script, true, true) == Some(SyncAction::GateCohort),
{
}

/// A project is itself and no other.
pub proof fn projects_are_themselves(a: Project, b: Project)
    ensures
        is_project(a, a),
        is_project(a, b) == is_project(b, a),
        is_project(a, b) ==> a.name_text() == b.name_text(),
        !(a is Other) && !(b is Other) ==> (is_project(a, b) <==> a == b),
{
}

} // verus!
