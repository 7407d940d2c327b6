//! What is shown of approved and latest results.

use crate::error::{DevError, ErrorView};
use crate::litehtml::cmd::{format_pct, pct_text, result_line};
use crate::litehtml::compare::opt_real;
use crate::litehtml::manifest::FixtureEntry;
use crate::number::arith::{difference, is_less, magnitude};
use crate::number::bignat::BigNat;
use crate::number::double::{rounded, Double, Real};
use crate::number::fixed::{fixed_text, signed_fixed_text};
use crate::text::{join, joined, pad_right, padded_right, same, views};
use vstd::prelude::*;

verus! {

/// What was approved of a fixture.
#[derive(Debug)]
pub struct Approval {
    pub fixture_id: String,
    pub approved_at: String,
    pub commit: String,
    pub pixel_diff_pct: Double,
    pub element_match_pct: Option<Double>,
}

/// What a run found of a fixture.
#[derive(Debug)]
pub struct ResultRow {
    pub run_id: String,
    pub fixture_id: String,
    pub pixel_diff_pct: Option<Double>,
    pub element_match_pct: Option<Double>,
    pub status: String,
    pub artifact_dir: Option<String>,
}

/// The line on a fixture in the list.
pub open spec fn list_line(
    id: Seq<char>,
    tags: Seq<char>,
    expected: Seq<char>,
    approved: Seq<char>,
) -> Seq<char> {
    "  "@ + padded_right(id, 25) + " "@ + padded_right(tags, 30) + " "@ + padded_right(expected, 10)
        + " "@ + approved
}

fn write_list_line(id: &str, tags: &str, expected: &str, approved: &str) -> (r: String)
    ensures
        r@ == list_line(id@, tags@, expected@, approved@),
{
    let mut out = "  ".to_owned();
    out.append(pad_right(id, 25).as_str());
    out.append(" ");
    out.append(pad_right(tags, 30).as_str());
    out.append(" ");
    out.append(pad_right(expected, 10).as_str());
    out.append(" ");
    out.append(approved);
    out
}

/// The headline of the list.
pub fn list_header() -> (r: String)
    ensures
        r@ == list_line("ID"@, "Tags"@, "Expected"@, "Approved"@),
{
    write_list_line("ID", "Tags", "Expected", "Approved")
}

/// Writes the line on a fixture in the list.
pub fn format_listed(fixture: &FixtureEntry, approved: Option<Double>) -> (r: String)
    ensures
        r@ == list_line(
            fixture.id@,
            joined(views(fixture.tags@), ", "@),
            fixture.expected@,
            pct_text(opt_real(approved), 1),
        ),
{
    let tags = join(&fixture.tags, ", ");
    let figure = format_pct(approved, 1);
    write_list_line(
        fixture.id.as_str(),
        tags.as_str(),
        fixture.expected.as_str(),
        figure.as_str(),
    )
}

/// What is approved of a fixture: the latest result of it, in a clean repository.
pub fn approve(fixture_id: &str, is_clean: bool, latest: &Option<ResultRow>) -> (r: Result<
    (Double, Option<Double>),
    DevError,
>)
    ensures
        !is_clean ==> (r matches Err(e) && e@ == ErrorView::Verify(
            "litehtml approve requires a clean git tree"@,
        )),
        is_clean ==> match *latest {
            None => r matches Err(e) && e@ == ErrorView::Verify(
                "no test results for fixture '"@ + fixture_id@
                    + "' \u{2014} run `brokkr litehtml test` first"@,
            ),
            Some(row) => r matches Ok(p) && p.1 == row.element_match_pct
                && match row.pixel_diff_pct {
                Some(x) => p.0 == x,
                None => p.0.bits == 0,
            },
        },
{
    if !is_clean {
        return Err(DevError::Verify("litehtml approve requires a clean git tree".to_owned()));
    }
    match latest {
        None => {
            let mut m = "no test results for fixture '".to_owned();
            m.append(fixture_id);
            m.append("' \u{2014} run `brokkr litehtml test` first");
            Err(DevError::Verify(m))
        },
        Some(row) => {
            let pixel = match row.pixel_diff_pct {
                Some(x) => x,
                None => Double::from_bits(0),
            };
            Ok((pixel, row.element_match_pct))
        },
    }
}

/// The line on an approval.
pub open spec fn approved_text(
    fixture_id: Seq<char>,
    pixel: Real,
    element: Option<Real>,
    commit: Seq<char>,
) -> Seq<char> {
    "approved '"@ + fixture_id + "' at pixel="@ + fixed_text(pixel, 1) + "%"@ + (match element {
        Some(e) => ", elements="@ + fixed_text(e, 0) + "%"@,
        None => Seq::empty(),
    }) + " (commit "@ + commit + ")"@
}

/// Writes the line on an approval.
pub fn approved_line(fixture_id: &str, pixel: Double, element: Option<Double>, commit: &str) -> (r:
    String)
    ensures
        r@ == approved_text(fixture_id@, pixel@, opt_real(element), commit@),
{
    let mut out = "approved '".to_owned();
    out.append(fixture_id);
    out.append("' at pixel=");
    out.append(pixel.fixed(1).as_str());
    out.append("%");
    let mut extra = String::new();
    match element {
        Some(e) => {
            extra = ", elements=".to_owned();
            extra.append(e.fixed(0).as_str());
            extra.append("%");
        },
        None => {},
    }
    out.append(extra.as_str());
    out.append(" (commit ");
    out.append(commit);
    out.append(")");
    out
}

/// The lines on the results of a run.
pub open spec fn report_lines(rows: Seq<ResultRow>) -> Seq<Seq<char>> {
    rows.map_values(
        |r: ResultRow|
            result_line(
                r.fixture_id@,
                pct_text(opt_real(r.pixel_diff_pct), 1),
                pct_text(opt_real(r.element_match_pct), 0),
                r.status@,
            ),
    )
}

/// Writes the lines on the results of a run; there must be some.
pub fn report(run_id: &str, rows: &[ResultRow]) -> (r: Result<Vec<String>, DevError>)
    ensures
        rows@.len() == 0 ==> (r matches Err(e) && e@ == ErrorView::Config(
            "no results found for run '"@ + run_id@ + "'"@,
        )),
        rows@.len() > 0 ==> (r matches Ok(v) && views(v@) == report_lines(rows@)),
{
    if rows.len() == 0 {
        let mut m = "no results found for run '".to_owned();
        m.append(run_id);
        m.append("'");
        return Err(DevError::Config(m));
    }
    let ghost want = report_lines(rows@);
    let mut out: Vec<String> = Vec::new();
    let mut i: usize = 0;
    while i < rows.len()
        invariant
            i <= rows@.len(),
            want == report_lines(rows@),
            out@.len() == i,
            forall|k: int| 0 <= k < i ==> #[trigger] out@[k]@ == want[k],
        decreases rows@.len() - i,
    {
        let row = &rows[i];
        let px = format_pct(row.pixel_diff_pct, 1);
        let el = format_pct(row.element_match_pct, 0);
        out.push(
            crate::litehtml::cmd::format_result(
                row.fixture_id.as_str(),
                px.as_str(),
                el.as_str(),
                row.status.as_str(),
            ),
        );
        i += 1;
    }
    assert(views(out@) =~= want);
    Ok(out)
}

/// A figure that is no change, as shown.
pub open spec fn dash() -> Seq<char> {
    "\u{2014}"@
}

/// How far the latest result is from what was approved, as shown.
pub open spec fn change_text(current: Option<Real>, approved: Option<Real>) -> Seq<char> {
    match (current, approved) {
        (Some(c), Some(a)) => {
            let d = difference(c, a);
            if is_less(magnitude(d), rounded(false, 1, 20)) {
                dash()
            } else {
                signed_fixed_text(d, 1) + "%"@
            }
        },
        _ => dash(),
    }
}

/// What is added to an outcome: that a pass is better than what was approved, or
/// not approved at all; and the outcome itself where it is no pass.
pub open spec fn remark_text(
    status: Seq<char>,
    current: Option<Real>,
    approved: Option<Real>,
) -> Seq<char> {
    if status == "PASS"@ {
        match (current, approved) {
            (Some(c), Some(a)) => if is_less(c, difference(a, rounded(false, 1, 2))) {
                " (improved)"@
            } else {
                ""@
            },
            (_, None) => " (unapproved)"@,
            _ => ""@,
        }
    } else {
        " ("@ + status + ")"@
    }
}

/// The figure that was approved.
pub open spec fn approved_figure(approval: Option<&Approval>) -> Option<Real> {
    match approval {
        Some(a) => Some(a.pixel_diff_pct@),
        None => None,
    }
}

/// Writes the columns on the latest result of a fixture: its figure, how far it
/// is from what was approved, and a remark.
pub fn format_status_columns(latest: &Option<ResultRow>, approval: Option<&Approval>) -> (r: (
    String,
    String,
    String,
))
    ensures
        match *latest {
            None => r.0@ == dash() && r.1@ == dash() && r.2@ == Seq::<char>::empty(),
            Some(row) => r.0@ == pct_text(opt_real(row.pixel_diff_pct), 1) && r.1@ == change_text(
                opt_real(row.pixel_diff_pct),
                approved_figure(approval),
            ) && r.2@ == remark_text(
                row.status@,
                opt_real(row.pixel_diff_pct),
                approved_figure(approval),
            ),
        },
{
    let row = match latest {
        None => {
            return ("\u{2014}".to_owned(), "\u{2014}".to_owned(), String::new());
        },
        Some(row) => row,
    };
    let px = format_pct(row.pixel_diff_pct, 1);
    let change = match (row.pixel_diff_pct, approval) {
        (Some(c), Some(a)) => {
            let d = c.minus(a.pixel_diff_pct);
            let small = Double::of_ratio(false, &BigNat::from_u64(1), &BigNat::from_u64(20));
            if d.abs().less(small) {
                "\u{2014}".to_owned()
            } else {
                let mut out = d.signed_fixed(1);
                out.append("%");
                out
            }
        },
        _ => "\u{2014}".to_owned(),
    };
    let remark = if same(row.status.as_str(), "PASS") {
        match (row.pixel_diff_pct, approval) {
            (Some(c), Some(a)) => {
                let half = Double::of_ratio(false, &BigNat::from_u64(1), &BigNat::from_u64(2));
                if c.less(a.pixel_diff_pct.minus(half)) {
                    " (improved)".to_owned()
                } else {
                    "".to_owned()
                }
            },
            (_, None) => " (unapproved)".to_owned(),
            _ => "".to_owned(),
        }
    } else {
        let mut out = " (".to_owned();
        out.append(row.status.as_str());
        out.append(")");
        out
    };
    (px, change, remark)
}

/// The first approval of a fixture.
pub fn find_approval<'a>(approvals: &'a [Approval], fixture_id: &str) -> (r: Option<&'a Approval>)
    ensures
        match r {
            Some(a) => exists|i: int|
                0 <= i < approvals@.len() && *a == #[trigger] approvals@[i] && approvals@[i].fixture_id@
                    == fixture_id@ && forall|k: int|
                    0 <= k < i ==> (#[trigger] approvals@[k]).fixture_id@ != fixture_id@,
            None => forall|k: int|
                0 <= k < approvals@.len() ==> (#[trigger] approvals@[k]).fixture_id@
                    != fixture_id@,
        },
{
    let mut i: usize = 0;
    while i < approvals.len()
        invariant
            i <= approvals@.len(),
            forall|k: int| 0 <= k < i ==> (#[trigger] approvals@[k]).fixture_id@ != fixture_id@,
        decreases approvals@.len() - i,
    {
        if same(approvals[i].fixture_id.as_str(), fixture_id) {
            return Some(&approvals[i]);
        }
        i += 1;
    }
    None
}

/// The line on the state of a fixture.
pub open spec fn status_line(
    id: Seq<char>,
    approved: Seq<char>,
    last: Seq<char>,
    change: Seq<char>,
    status: Seq<char>,
) -> Seq<char> {
    "  "@ + padded_right(id, 25) + " "@ + padded_right(approved, 11) + " "@ + padded_right(last, 11)
        + " "@ + padded_right(change, 9) + " "@ + status
}

fn write_status_line(id: &str, approved: &str, last: &str, change: &str, status: &str) -> (r: String)
    ensures
        r@ == status_line(id@, approved@, last@, change@, status@),
{
    let mut out = "  ".to_owned();
    out.append(pad_right(id, 25).as_str());
    out.append(" ");
    out.append(pad_right(approved, 11).as_str());
    out.append(" ");
    out.append(pad_right(last, 11).as_str());
    out.append(" ");
    out.append(pad_right(change, 9).as_str());
    out.append(" ");
    out.append(status);
    out
}

/// The headline of the table of states.
pub fn status_header() -> (r: String)
    ensures
        r@ == status_line("Fixture"@, "Approved"@, "Last Run"@, "Delta"@, "Status"@),
{
    write_status_line("Fixture", "Approved", "Last Run", "Delta", "Status")
}

/// The line on the state of a fixture, from its latest result and its approval.
pub open spec fn fixture_status(
    id: Seq<char>,
    latest: Option<ResultRow>,
    approved: Option<Real>,
) -> Seq<char> {
    match latest {
        None => status_line(
            id,
            pct_text(approved, 1),
            dash(),
            dash(),
            dash() + Seq::<char>::empty(),
        ),
        Some(row) => status_line(
            id,
            pct_text(approved, 1),
            pct_text(opt_real(row.pixel_diff_pct), 1),
            change_text(opt_real(row.pixel_diff_pct), approved),
            row.status@ + remark_text(row.status@, opt_real(row.pixel_diff_pct), approved),
        ),
    }
}

/// Writes the line on the state of a fixture.
pub fn print_fixture_status(id: &str, latest: &Option<ResultRow>, approval: Option<&Approval>) -> (r:
    String)
    ensures
        r@ == fixture_status(id@, *latest, approved_figure(approval)),
{
    let approved = match approval {
        Some(a) => format_pct(Some(a.pixel_diff_pct), 1),
        None => format_pct(None, 1),
    };
    let (last, change, remark) = format_status_columns(latest, approval);
    let mut status = match latest {
        Some(row) => row.status.clone(),
        None => "\u{2014}".to_owned(),
    };
    status.append(remark.as_str());
    write_status_line(id, approved.as_str(), last.as_str(), change.as_str(), status.as_str())
}

} // verus!
