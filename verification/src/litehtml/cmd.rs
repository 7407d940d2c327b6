//! The commands of visual testing: what they choose, run and report.

use crate::error::{DevError, ErrorView};
use crate::litehtml::compare::{determine_status, opt_real, verdict, Status};
use crate::litehtml::manifest::{entries, id_index, tagged, Defaults, FixtureEntry, Manifest};
use crate::number::double::{Double, Real};
use crate::number::fixed::fixed_text;
use crate::numeral::{nat_text, usize_text};
use crate::text::{
    join, joined, opt_str, pad_right, padded_right, repeat, repeated, same, starts_with, views,
};
use vstd::prelude::*;

verus! {

/// The indices of the fixtures whose ids start with the text.
pub open spec fn with_prefix(fs: Seq<FixtureEntry>, prefix: Seq<char>) -> Seq<int>
    decreases fs.len(),
{
    if fs.len() == 0 {
        Seq::empty()
    } else if prefix.is_prefix_of(fs.last().id@) {
        with_prefix(fs.drop_last(), prefix).push(fs.len() - 1)
    } else {
        with_prefix(fs.drop_last(), prefix)
    }
}

/// The fixture that a text names: by its whole id, or by the start of it where
/// that is the start of one only.
pub open spec fn fixture_named(fs: Seq<FixtureEntry>, id: Seq<char>) -> Result<int, ErrorView> {
    let hits = with_prefix(fs, id);
    match id_index(fs, id, 0) {
        Some(i) => Ok(i),
        None => if hits.len() == 0 {
            Err(ErrorView::Config("fixture not found: "@ + id))
        } else if hits.len() == 1 {
            Ok(hits[0])
        } else {
            Err(
                ErrorView::Config(
                    "ambiguous fixture prefix '"@ + id + "', matches: "@ + joined(
                        hits.map_values(|i: int| fs[i].id@),
                        ", "@,
                    ),
                ),
            )
        },
    }
}

/// Whether a result is the fixture at the index, or the error.
pub open spec fn is_fixture(
    r: Result<&FixtureEntry, DevError>,
    fs: Seq<FixtureEntry>,
    want: Result<int, ErrorView>,
) -> bool {
    match want {
        Ok(i) => 0 <= i < fs.len() && r == Ok::<&FixtureEntry, DevError>(&fs[i]),
        Err(e) => r matches Err(x) && x@ == e,
    }
}

/// Finds the fixture that a text names.
pub fn resolve_fixture<'a>(manifest: &'a Manifest, id: &str) -> (r: Result<&'a FixtureEntry, DevError>)
    ensures
        is_fixture(r, manifest.fixtures@, fixture_named(manifest.fixtures@, id@)),
{
    match manifest.fixture_by_id(id) {
        Some(f) => {
            return Ok(f);
        },
        None => {},
    }
    let ghost fs = manifest.fixtures@;
    let mut names: Vec<String> = Vec::new();
    let mut first: usize = 0;
    let mut i: usize = 0;
    let ghost mut hits: Seq<int> = Seq::empty();
    while i < manifest.fixtures.len()
        invariant
            i <= manifest.fixtures@.len(),
            fs == manifest.fixtures@,
            hits == with_prefix(fs.take(i as int), id@),
            names@.len() == hits.len(),
            hits.len() > 0 ==> first < fs.len() && first == hits[0],
            forall|k: int|
                0 <= k < hits.len() ==> 0 <= #[trigger] hits[k] < i && names@[k]@ == fs[hits[k]].id@,
        decreases manifest.fixtures@.len() - i,
    {
        assert(fs.take(i + 1).drop_last() =~= fs.take(i as int));
        if starts_with(manifest.fixtures[i].id.as_str(), id) {
            if names.len() == 0 {
                first = i;
            }
            names.push(manifest.fixtures[i].id.clone());
            proof {
                hits = hits.push(i as int);
            }
        }
        i += 1;
    }
    assert(fs.take(i as int) =~= fs);
    if names.len() == 0 {
        let mut m = "fixture not found: ".to_owned();
        m.append(id);
        return Err(DevError::Config(m));
    }
    if names.len() == 1 {
        return Ok(&manifest.fixtures[first]);
    }
    let mut m = "ambiguous fixture prefix '".to_owned();
    m.append(id);
    m.append("', matches: ");
    assert(views(names@) =~= hits.map_values(|i: int| fs[i].id@));
    m.append(join(&names, ", ").as_str());
    Err(DevError::Config(m))
}

/// Chooses fixtures: all of them, a suite, or one; something must be asked for.
pub fn resolve_fixtures<'a>(
    manifest: &'a Manifest,
    fixture_id: Option<&str>,
    suite: Option<&str>,
    all: bool,
) -> (r: Result<Vec<&'a FixtureEntry>, DevError>)
    ensures
        all ==> (r matches Ok(v) && entries(v@) == manifest.fixtures@),
        !all ==> match (opt_str(suite), opt_str(fixture_id)) {
            (Some(s), _) => if tagged(manifest.fixtures@, s).len() == 0 {
                r matches Err(e) && e@ == ErrorView::Config("no fixtures tagged '"@ + s + "'"@)
            } else {
                r matches Ok(v) && entries(v@) == tagged(manifest.fixtures@, s)
            },
            (None, Some(id)) => match fixture_named(manifest.fixtures@, id) {
                Ok(i) => r matches Ok(v) && entries(v@) == seq![manifest.fixtures@[i]],
                Err(e) => r matches Err(x) && x@ == e,
            },
            (None, None) => r matches Err(e) && e@ == ErrorView::Config(
                "specify a fixture ID, --suite, or --all"@,
            ),
        },
{
    if all {
        return Ok(manifest.all_fixtures());
    }
    match suite {
        Some(s) => {
            let found = manifest.fixtures_for_suite(s);
            assert(entries(found@).len() == found@.len());
            if found.len() == 0 {
                let mut m = "no fixtures tagged '".to_owned();
                m.append(s);
                m.append("'");
                return Err(DevError::Config(m));
            }
            return Ok(found);
        },
        None => {},
    }
    match fixture_id {
        Some(id) => match resolve_fixture(manifest, id) {
            Ok(f) => {
                let v = vec![f];
                assert(entries(v@) =~= seq![*f]);
                Ok(v)
            },
            Err(e) => Err(e),
        },
        None => Err(DevError::Config("specify a fixture ID, --suite, or --all".to_owned())),
    }
}

/// A percentage, or a dash where there is none.
pub open spec fn pct_text(v: Option<Real>, decimals: nat) -> Seq<char> {
    match v {
        Some(x) => fixed_text(x, decimals) + "%"@,
        None => "\u{2014}"@,
    }
}

/// Writes a percentage.
pub fn format_pct(v: Option<Double>, decimals: u32) -> (r: String)
    ensures
        r@ == pct_text(opt_real(v), decimals as nat),
{
    match v {
        Some(x) => {
            let mut out = x.fixed(decimals);
            out.append("%");
            out
        },
        None => "\u{2014}".to_owned(),
    }
}

/// A line of the table of results.
pub open spec fn result_line(
    id: Seq<char>,
    pixels: Seq<char>,
    elements: Seq<char>,
    status: Seq<char>,
) -> Seq<char> {
    "  "@ + padded_right(id, 25) + " "@ + padded_right(pixels, 9) + " "@ + padded_right(elements, 11)
        + " "@ + status
}

/// Writes a line of the table of results.
pub fn format_result(id: &str, pixels: &str, elements: &str, status: &str) -> (r: String)
    ensures
        r@ == result_line(id@, pixels@, elements@, status@),
{
    let mut out = "  ".to_owned();
    out.append(pad_right(id, 25).as_str());
    out.append(" ");
    out.append(pad_right(pixels, 9).as_str());
    out.append(" ");
    out.append(pad_right(elements, 11).as_str());
    out.append(" ");
    out.append(status);
    out
}

/// The line under a headline, so many characters long.
pub fn rule_line(width: usize) -> (r: String)
    ensures
        r@ == "  "@ + repeated('\u{2500}', width as int),
{
    let mut out = "  ".to_owned();
    out.append(repeat('\u{2500}', width).as_str());
    out
}

/// The headline of the table of results, and the line under it.
pub fn table_header() -> (r: Vec<String>)
    ensures
        views(r@) == seq![
            result_line("Fixture"@, "Pixels"@, "Elements"@, "Status"@),
            "  "@ + repeated('\u{2500}', 60),
        ],
{
    let r = vec![format_result("Fixture", "Pixels", "Elements", "Status"), rule_line(60)];
    assert(views(r@) =~= seq![
        result_line("Fixture"@, "Pixels"@, "Elements"@, "Status"@),
        "  "@ + repeated('\u{2500}', 60),
    ]);
    r
}

/// What became of a fixture.
pub struct FixtureOutcome {
    pub pixel_diff_pct: Option<Double>,
    pub element_match_pct: Option<Double>,
    pub status: Status,
}

/// Whether the reference must be captured first: there is none, or a new one is
/// asked for.
pub fn needs_capture(has_reference: bool, recapture: bool) -> (r: bool)
    ensures
        r == (!has_reference || recapture),
{
    !has_reference || recapture
}

/// Decides what became of a fixture: an error where an image is missing or the
/// images could not be compared, else the verdict on the comparison.
pub fn run_fixture(
    fixture: &FixtureEntry,
    defaults: &Defaults,
    has_reference: bool,
    has_rendering: bool,
    pixel_pct: Option<Double>,
    element_pct: Option<Double>,
    approved_pixel: Option<Double>,
    approved_element: Option<Double>,
) -> (r: FixtureOutcome)
    ensures
        !(has_reference && has_rendering && pixel_pct is Some) ==> r.status is Error
            && r.pixel_diff_pct is None && r.element_match_pct is None,
        has_reference && has_rendering && pixel_pct is Some ==> r.pixel_diff_pct == pixel_pct
            && r.element_match_pct == element_pct && r.status == verdict(
            pixel_pct->0@,
            opt_real(element_pct),
            (match fixture.pixel_diff_threshold {
                Some(t) => t,
                None => defaults.pixel_diff_threshold,
            })@,
            if fixture.waive_element_threshold {
                None
            } else {
                Some(
                    (match fixture.element_match_threshold {
                        Some(t) => t,
                        None => defaults.element_match_threshold,
                    })@,
                )
            },
            fixture.expected@ == "fail"@,
            opt_real(approved_pixel),
            opt_real(approved_element),
        ),
{
    let pixel = match pixel_pct {
        Some(p) => p,
        None => {
            return FixtureOutcome {
                pixel_diff_pct: None,
                element_match_pct: None,
                status: Status::Error,
            };
        },
    };
    if !has_reference || !has_rendering {
        return FixtureOutcome {
            pixel_diff_pct: None,
            element_match_pct: None,
            status: Status::Error,
        };
    }
    let status = determine_status(
        pixel,
        element_pct,
        fixture.resolved_pixel_threshold(defaults),
        fixture.element_threshold(defaults),
        same(fixture.expected.as_str(), "fail"),
        approved_pixel,
        approved_element,
    );
    FixtureOutcome { pixel_diff_pct: Some(pixel), element_match_pct: element_pct, status }
}

/// How many fixtures ended in which way.
#[derive(Debug, Clone, Copy, PartialEq, Eq, Structural)]
pub struct Tally {
    pub passed: usize,
    pub failed: usize,
    pub expected_fail: usize,
    pub error: usize,
    pub unapproved: usize,
}

/// Whether a fixture failed: it is worse than its threshold or than what was approved.
pub open spec fn is_failure(s: Status) -> bool {
    s is FailThreshold || s is Regression
}

/// How many of some verdicts have a property.
pub open spec fn count_status(v: Seq<Status>, p: spec_fn(Status) -> bool) -> nat
    decreases v.len(),
{
    if v.len() == 0 {
        0
    } else {
        count_status(v.drop_last(), p) + if p(v.last()) {
            1nat
        } else {
            0nat
        }
    }
}

/// Whether a tally counts some verdicts.
pub open spec fn is_tally(t: Tally, v: Seq<Status>) -> bool {
    &&& t.passed == count_status(v, |s: Status| s is Pass)
    &&& t.failed == count_status(v, |s: Status| is_failure(s))
    &&& t.expected_fail == count_status(v, |s: Status| s is ExpectedFail)
    &&& t.error == count_status(v, |s: Status| s is Error)
    &&& t.unapproved == count_status(v, |s: Status| s is NoBaseline)
}

/// Counts verdicts.
pub fn tally(statuses: &[Status]) -> (t: Tally)
    ensures
        is_tally(t, statuses@),
        t.passed + t.failed + t.expected_fail + t.error + t.unapproved == statuses@.len(),
{
    let mut t = Tally { passed: 0, failed: 0, expected_fail: 0, error: 0, unapproved: 0 };
    let mut i: usize = 0;
    while i < statuses.len()
        invariant
            i <= statuses@.len(),
            is_tally(t, statuses@.take(i as int)),
            t.passed + t.failed + t.expected_fail + t.error + t.unapproved == i,
        decreases statuses@.len() - i,
    {
        assert(statuses@.take(i + 1).drop_last() =~= statuses@.take(i as int));
        match statuses[i] {
            Status::Pass => {
                t.passed = t.passed + 1;
            },
            Status::ExpectedFail => {
                t.expected_fail = t.expected_fail + 1;
            },
            Status::Error => {
                t.error = t.error + 1;
            },
            Status::NoBaseline => {
                t.unapproved = t.unapproved + 1;
            },
            Status::FailThreshold | Status::Regression => {
                t.failed = t.failed + 1;
            },
        }
        i += 1;
    }
    assert(statuses@.take(i as int) =~= statuses@);
    t
}

/// A count with its label, where there is something to count.
pub open spec fn count_part(n: nat, label: Seq<char>) -> Seq<Seq<char>> {
    if n > 0 {
        seq![nat_text(n) + " "@ + label]
    } else {
        Seq::empty()
    }
}

/// The counts of a tally that are not zero.
pub open spec fn tally_parts(t: Tally) -> Seq<Seq<char>> {
    count_part(t.passed as nat, "passed"@) + count_part(t.failed as nat, "failed"@) + count_part(
        t.expected_fail as nat,
        "expected fail"@,
    ) + count_part(t.error as nat, "error"@) + count_part(
        t.unapproved as nat,
        "awaiting approval"@,
    )
}

fn push_count(out: &mut Vec<String>, n: usize, label: &str)
    ensures
        views(final(out)@) == views(old(out)@) + count_part(n as nat, label@),
{
    if n > 0 {
        let mut part = usize_text(n);
        part.append(" ");
        part.append(label);
        out.push(part);
    }
    assert(views(out@) =~= views(old(out)@) + count_part(n as nat, label@));
}

/// Sums up a run: the line on it, and the code with which it ends. A fixture
/// that awaits approval does not fail a run.
pub fn run_summary(t: &Tally) -> (r: (String, Result<(), DevError>))
    ensures
        r.0@ == "  "@ + joined(tally_parts(*t), ", "@),
        t.failed == 0 && t.error == 0 <==> r.1 is Ok,
        r.1 matches Err(e) ==> e@ == ErrorView::ExitCode(1),
{
    let mut parts: Vec<String> = Vec::new();
    assert(views(parts@) =~= Seq::empty());
    push_count(&mut parts, t.passed, "passed");
    push_count(&mut parts, t.failed, "failed");
    push_count(&mut parts, t.expected_fail, "expected fail");
    push_count(&mut parts, t.error, "error");
    push_count(&mut parts, t.unapproved, "awaiting approval");
    assert(views(parts@) =~= tally_parts(*t));
    let mut line = "  ".to_owned();
    line.append(join(&parts, ", ").as_str());
    if t.failed > 0 || t.error > 0 {
        (line, Err(DevError::ExitCode(1)))
    } else {
        (line, Ok(()))
    }
}

/// The headline of a run.
pub fn run_headline(run_id: &str, commit: &str, dirty: bool) -> (r: String)
    ensures
        r@ == "MECHANICAL TEST RESULTS  (run "@ + crate::harness::sidecar::short_id(run_id@)
            + ", commit "@ + commit@ + (if dirty {
            ", dirty"@
        } else {
            ""@
        }) + ")"@,
{
    let cs = crate::text::chars_of(run_id);
    let n: usize = if cs.len() > 8 {
        8
    } else {
        cs.len()
    };
    let short = crate::text::string_of(&cs, 0, n);
    assert(short@ =~= crate::harness::sidecar::short_id(run_id@));
    let mut out = "MECHANICAL TEST RESULTS  (run ".to_owned();
    out.append(short.as_str());
    out.append(", commit ");
    out.append(commit);
    out.append(
        if dirty {
            ", dirty"
        } else {
            ""
        },
    );
    out.append(")");
    out
}

} // verus!
