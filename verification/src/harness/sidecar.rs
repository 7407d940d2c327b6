//! Profiles of runs: how they are named, kept and backed up.

use crate::error::{DevError, ErrorView};
use crate::harness::kv::{lossy, parse_kv_lines, reported_pairs};
use crate::harness::runs::{check_success_or, ending_error, ends_it, ExternalRun};
use crate::harness::stats::BenchResult;
use crate::db::{pair_views, HotpathData};
use crate::json::{check_json, json_fault};
use crate::numeral::{hex, hex_text};
use crate::project::Project;
use crate::text::{chars_of, join_path, joined_path, lines_of, opt_str, opt_view, string_of};
use vstd::prelude::*;

verus! {

/// Random bytes with the bits of a random identifier set.
pub open spec fn random_id_bytes(bytes: Seq<u8>) -> Seq<u8> {
    bytes.update(6, (bytes[6] & 0x0f) | 0x40).update(8, (bytes[8] & 0x3f) | 0x80)
}

/// Makes the identifier of a run that is not stored, of sixteen random bytes.
pub fn dirty_uuid(bytes: Vec<u8>) -> (r: String)
    requires
        bytes@.len() == 16,
    ensures
        r@ == hex_text(random_id_bytes(bytes@)),
        r@.len() == 32,
{
    let ghost start = bytes@;
    let mut b = bytes;
    let six: u8 = (b[6] & 0x0f) | 0x40;
    let eight: u8 = (b[8] & 0x3f) | 0x80;
    b.set(6, six);
    b.set(8, eight);
    assert(b@ =~= random_id_bytes(start));
    proof {
        crate::numeral::hex_text_len(b@);
    }
    hex(&b)
}

/// The first eight characters of an identifier.
pub open spec fn short_id(id: Seq<char>) -> Seq<char> {
    if id.len() > 8 {
        id.take(8)
    } else {
        id
    }
}

/// Writes the line that says where the profile of a run is stored.
pub fn stored_line(id: &str) -> (r: String)
    ensures
        r@ == "profile data stored in sidecar.db ("@ + short_id(id@) + ")"@,
{
    let cs = chars_of(id);
    let n: usize = if cs.len() > 8 {
        8
    } else {
        cs.len()
    };
    let short = string_of(&cs, 0, n);
    assert(short@ =~= short_id(id@));
    let mut out = "profile data stored in sidecar.db (".to_owned();
    out.append(short.as_str());
    out.append(")");
    out
}

/// Finds the directory of the backups: below the user's data directory, or
/// below the home directory.
pub fn sidecar_backup_dir(xdg_data_home: Option<&str>, home: Option<&str>) -> (r: Result<
    String,
    DevError,
>)
    ensures
        match (opt_str(xdg_data_home), opt_str(home)) {
            (Some(d), _) => r matches Ok(p) && p@ == joined_path(
                joined_path(d, "brokkr"@),
                "sidecar-backups"@,
            ),
            (None, Some(h)) => r matches Ok(p) && p@ == joined_path(
                joined_path(joined_path(joined_path(h, ".local"@), "share"@), "brokkr"@),
                "sidecar-backups"@,
            ),
            (None, None) => r matches Err(e) && e@ == ErrorView::Config(
                "cannot determine data directory for sidecar backup"@,
            ),
        },
{
    let data_dir = match xdg_data_home {
        Some(d) => d.to_owned(),
        None => match home {
            Some(h) => {
                let local = join_path(h, ".local");
                join_path(local.as_str(), "share")
            },
            None => {
                return Err(
                    DevError::Config(
                        "cannot determine data directory for sidecar backup".to_owned(),
                    ),
                );
            },
        },
    };
    let dir = join_path(data_dir.as_str(), "brokkr");
    Ok(join_path(dir.as_str(), "sidecar-backups"))
}

/// The name of the newest backup of a project.
pub fn backup_name(project: Project) -> (r: String)
    ensures
        r@ == project.name_text() + "-sidecar.db"@,
{
    let mut out = project.name().to_owned();
    out.append("-sidecar.db");
    out
}

/// One step of a rotation.
pub enum FileStep {
    /// Renames a file, replacing what has the new name.
    Rename(String, String),
    /// Gives a file a second name.
    Link(String, String),
}

/// The contents of a [`FileStep`].
pub ghost enum StepView {
    Rename(Seq<char>, Seq<char>),
    Link(Seq<char>, Seq<char>),
}

impl View for FileStep {
    type V = StepView;

    open spec fn view(&self) -> StepView {
        match self {
            FileStep::Rename(a, b) => StepView::Rename(a@, b@),
            FileStep::Link(a, b) => StepView::Link(a@, b@),
        }
    }
}

/// The contents of a list of steps.
pub open spec fn step_views(v: Seq<FileStep>) -> Seq<StepView> {
    v.map_values(|s: FileStep| s@)
}

/// The name of a file behind another.
pub open spec fn with_end(base: Seq<char>, end: Seq<char>) -> Seq<char> {
    base + end
}

/// The steps that put a new backup in place: the previous copy moves to the
/// oldest place, the newest is kept as the previous one, and only then the new
/// one takes its place.
pub open spec fn rotation(base: Seq<char>, has_newest: bool, has_previous: bool) -> Seq<StepView> {
    let first = if has_previous {
        seq![StepView::Rename(with_end(base, ".1"@), with_end(base, ".2"@))]
    } else {
        Seq::empty()
    };
    let second = if has_newest {
        seq![StepView::Link(base, with_end(base, ".1"@))]
    } else {
        Seq::empty()
    };
    first + second + seq![StepView::Rename(with_end(base, ".tmp"@), base)]
}

fn add_end(base: &str, end: &str) -> (r: String)
    ensures
        r@ == with_end(base@, end@),
{
    let mut out = base.to_owned();
    out.append(end);
    out
}

/// Plans the rotation of the backups, of which three are kept.
pub fn backup_steps(base: &str, has_newest: bool, has_previous: bool) -> (r: Vec<FileStep>)
    ensures
        step_views(r@) == rotation(base@, has_newest, has_previous),
{
    let mut steps: Vec<FileStep> = Vec::new();
    if has_previous {
        steps.push(FileStep::Rename(add_end(base, ".1"), add_end(base, ".2")));
    }
    if has_newest {
        steps.push(FileStep::Link(base.to_owned(), add_end(base, ".1")));
    }
    steps.push(FileStep::Rename(add_end(base, ".tmp"), base.to_owned()));
    assert(step_views(steps@) =~= rotation(base@, has_newest, has_previous));
    steps
}

/// The files of a directory after a step.
pub open spec fn after_step(files: Map<Seq<char>, int>, step: StepView) -> Map<Seq<char>, int> {
    match step {
        StepView::Rename(from, to) => files.remove(from).insert(to, files[from]),
        StepView::Link(from, to) => files.insert(to, files[from]),
    }
}

/// The files of a directory after some steps.
pub open spec fn after_steps(files: Map<Seq<char>, int>, steps: Seq<StepView>) -> Map<
    Seq<char>,
    int,
>
    decreases steps.len(),
{
    if steps.len() == 0 {
        files
    } else {
        after_step(after_steps(files, steps.drop_last()), steps.last())
    }
}

proof fn ends_differ(base: Seq<char>)
    ensures
        base != with_end(base, ".1"@),
        base != with_end(base, ".2"@),
        base != with_end(base, ".tmp"@),
        with_end(base, ".1"@) != with_end(base, ".2"@),
        with_end(base, ".1"@) != with_end(base, ".tmp"@),
        with_end(base, ".2"@) != with_end(base, ".tmp"@),
{
    reveal_strlit(".1");
    reveal_strlit(".2");
    reveal_strlit(".tmp");
    assert(with_end(base, ".1"@).last() == '1');
    assert(with_end(base, ".2"@).last() == '2');
    assert(with_end(base, ".tmp"@).last() == 'p');
    assert(with_end(base, ".1"@).len() == base.len() + 2);
    assert(with_end(base, ".2"@).len() == base.len() + 2);
    assert(with_end(base, ".tmp"@).len() == base.len() + 4);
}

/// After a rotation the new backup is the newest, the newest before it is the
/// previous one, and the previous one before it is the oldest.
pub proof fn rotation_keeps_three(base: Seq<char>, files: Map<Seq<char>, int>)
    requires
        files.contains_key(with_end(base, ".tmp"@)),
    ensures
        ({
            let previous = with_end(base, ".1"@);
            let oldest = with_end(base, ".2"@);
            let fresh = with_end(base, ".tmp"@);
            let after = after_steps(
                files,
                rotation(base, files.contains_key(base), files.contains_key(previous)),
            );
            &&& after.contains_key(base) && after[base] == files[fresh]
            &&& !after.contains_key(fresh)
            &&& files.contains_key(base) ==> after.contains_key(previous) && after[previous]
                == files[base]
            &&& files.contains_key(previous) ==> after.contains_key(oldest) && after[oldest]
                == files[previous]
            &&& forall|name: Seq<char>|
                name != base && name != previous && name != oldest && name != fresh ==> (
                #[trigger] after.contains_key(name) <==> files.contains_key(name))
        }),
{
    ends_differ(base);
    let previous = with_end(base, ".1"@);
    let steps = rotation(base, files.contains_key(base), files.contains_key(previous));
    reveal_with_fuel(after_steps, 4);
    if files.contains_key(base) && files.contains_key(previous) {
        assert(steps.drop_last().drop_last().drop_last() =~= Seq::empty());
        assert(steps.drop_last().last() == steps[1]);
        assert(steps.drop_last().drop_last().last() == steps[0]);
    } else if files.contains_key(base) || files.contains_key(previous) {
        assert(steps.drop_last().drop_last() =~= Seq::empty());
        assert(steps.drop_last().last() == steps[0]);
    } else {
        assert(steps.drop_last() =~= Seq::empty());
    }
}

/// A rotation that stops before its last step leaves the newest backup in place.
pub proof fn rotation_is_safe(base: Seq<char>, files: Map<Seq<char>, int>, k: int)
    requires
        files.contains_key(base),
        0 <= k < rotation(base, true, files.contains_key(with_end(base, ".1"@))).len(),
    ensures
        after_steps(
            files,
            rotation(base, true, files.contains_key(with_end(base, ".1"@))).take(k),
        ).contains_key(base),
        after_steps(
            files,
            rotation(base, true, files.contains_key(with_end(base, ".1"@))).take(k),
        )[base] == files[base],
{
    ends_differ(base);
    let steps = rotation(base, true, files.contains_key(with_end(base, ".1"@)));
    let done = steps.take(k);
    reveal_with_fuel(after_steps, 3);
    if k == 1 {
        assert(done.drop_last() =~= Seq::empty());
        assert(done.last() == steps[0]);
    } else if k == 2 {
        assert(done.drop_last().drop_last() =~= Seq::empty());
        assert(done.drop_last().last() == steps[0]);
        assert(done.last() == steps[1]);
    }
}

/// The environment of a program that is profiled: no server, the report as a
/// file, the markers through a pipe, and what the caller adds.
pub fn hotpath_env(report: &str, fifo: &str, extra: &[(String, String)]) -> (r: Vec<(String, String)>)
    ensures
        r@.len() == 4 + extra@.len(),
        r@[0].0@ == "HOTPATH_METRICS_SERVER_OFF"@ && r@[0].1@ == "true"@,
        r@[1].0@ == "HOTPATH_OUTPUT_FORMAT"@ && r@[1].1@ == "json"@,
        r@[2].0@ == "HOTPATH_OUTPUT_PATH"@ && r@[2].1@ == report@,
        r@[3].0@ == "BROKKR_MARKER_FIFO"@ && r@[3].1@ == fifo@,
        forall|k: int|
            0 <= k < extra@.len() ==> (#[trigger] r@[4 + k]).0@ == extra@[k].0@ && r@[4 + k].1@
                == extra@[k].1@,
{
    let mut out: Vec<(String, String)> = Vec::new();
    out.push(("HOTPATH_METRICS_SERVER_OFF".to_owned(), "true".to_owned()));
    out.push(("HOTPATH_OUTPUT_FORMAT".to_owned(), "json".to_owned()));
    out.push(("HOTPATH_OUTPUT_PATH".to_owned(), report.to_owned()));
    out.push(("BROKKR_MARKER_FIFO".to_owned(), fifo.to_owned()));
    let mut i: usize = 0;
    while i < extra.len()
        invariant
            i <= extra@.len(),
            out@.len() == 4 + i,
            out@[0].0@ == "HOTPATH_METRICS_SERVER_OFF"@ && out@[0].1@ == "true"@,
            out@[1].0@ == "HOTPATH_OUTPUT_FORMAT"@ && out@[1].1@ == "json"@,
            out@[2].0@ == "HOTPATH_OUTPUT_PATH"@ && out@[2].1@ == report@,
            out@[3].0@ == "BROKKR_MARKER_FIFO"@ && out@[3].1@ == fifo@,
            forall|k: int|
                0 <= k < i ==> (#[trigger] out@[4 + k]).0@ == extra@[k].0@ && out@[4 + k].1@
                    == extra@[k].1@,
        decreases extra@.len() - i,
    {
        out.push((extra[i].0.clone(), extra[i].1.clone()));
        i += 1;
    }
    out
}

/// The message on a report that could not be read, or that is no JSON.
pub open spec fn report_fault(
    path: Seq<char>,
    report: Result<Seq<char>, Seq<char>>,
) -> Option<Seq<char>> {
    match report {
        Err(e) => Some("failed to read hotpath report "@ + path + ": "@ + e),
        Ok(t) => match json_fault(t) {
            Some(e) => Some("failed to parse hotpath JSON: "@ + e),
            None => None,
        },
    }
}

/// The text or the reason of a file that was to be read.
pub open spec fn read_view(report: Result<&str, &str>) -> Result<Seq<char>, Seq<char>> {
    match report {
        Ok(t) => Ok(t@),
        Err(e) => Err(e@),
    }
}

/// Reads the report of the profiler: the profile that it holds counts where the
/// file could be read and is JSON; where not, there is a message in its place.
pub fn read_hotpath_report(
    path: &str,
    report: Result<&str, &str>,
    profile: Option<HotpathData>,
) -> (r: (Option<HotpathData>, Option<String>))
    ensures
        opt_view(r.1) == report_fault(path@, read_view(report)),
        r.1 is Some ==> r.0 is None,
        r.1 is None ==> r.0 == profile,
{
    match report {
        Err(e) => {
            let mut m = "failed to read hotpath report ".to_owned();
            m.append(path);
            m.append(": ");
            m.append(e);
            (None, Some(m))
        },
        Ok(t) => match check_json(t) {
            Some(e) => {
                let mut m = "failed to parse hotpath JSON: ".to_owned();
                m.append(e.as_str());
                (None, Some(m))
            },
            None => (profile, None),
        },
    }
}

/// A profiled run: its result, what the program wrote, and the message on its
/// report, where that gives no profile.
#[derive(Debug)]
pub struct Capture {
    pub result: BenchResult,
    pub stderr: Vec<u8>,
    pub message: Option<String>,
}

/// Makes the result of a profiled run: interrupted by the user, failed with a code
/// that does not count as success, or the elapsed time with what the program
/// reported and its profile, where the report could be read.
pub fn run_hotpath_capture(
    program: &str,
    ok_codes: &[i32],
    run: ExternalRun,
    path: &str,
    report: Result<&str, &str>,
    profile: Option<HotpathData>,
) -> (r: Result<Capture, DevError>)
    ensures
        ends_it(run, ok_codes@) <==> r is Err,
        r matches Err(e) ==> e@ == ending_error(run, program@),
        r matches Ok(c) ==> {
            &&& c.result.elapsed_ms == run.elapsed_ms
            &&& pair_views(c.result.kv@) == reported_pairs(lines_of(lossy(run.stderr@)))
            &&& c.result.distribution is None
            &&& c.result.hotpath == (if report_fault(path@, read_view(report)) is Some {
                None
            } else {
                profile
            })
            &&& c.stderr == run.stderr
            &&& opt_view(c.message) == report_fault(path@, read_view(report))
        },
{
    if run.interrupted {
        return Err(DevError::Interrupted);
    }
    if !run.stopped {
        match check_success_or(program, run.code, &run.stderr, ok_codes) {
            Ok(_) => {},
            Err(e) => {
                return Err(e);
            },
        }
    }
    let (_, kv) = parse_kv_lines(&run.stderr);
    let (hotpath, message) = read_hotpath_report(path, report, profile);
    let result = BenchResult { elapsed_ms: run.elapsed_ms, kv, distribution: None, hotpath };
    Ok(Capture { result, stderr: run.stderr, message })
}

} // verus!
