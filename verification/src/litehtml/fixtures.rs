//! What holds of fixtures, of the tally of a run, and of the lines on them.

use crate::error::ErrorView;
use crate::litehtml::cmd::{
    count_part, count_status, fixture_named, is_failure, is_tally, pct_text, result_line, tally_parts, with_prefix,
    Tally,
};
use crate::litehtml::compare::{opt_real, Status};
use crate::litehtml::manifest::{has_tag, id_index, tagged, FixtureEntry};
use crate::litehtml::report::{
    approved_text, change_text, dash, fixture_status, list_line, remark_text, report_lines, status_line, ResultRow,
};
use crate::number::arith::{difference, is_less, magnitude, of_int};
use crate::number::decimals::whole_numbers_are_written_exactly;
use crate::number::double::{rounded, Real};
use crate::number::exact::{factors_positive, is_worth, whole_numbers_are_exact};
use crate::number::fixed::fixed_text;
use crate::number::whole::{
    difference_is_exact, half_is_added, half_is_compared, halves_are_exact, is_half_of, magnitude_is_exact, size_of,
};
use crate::numeral::{int_text, nat_text};
use crate::text::shape::padding_fills_the_width;
use crate::text::padded_right;
use vstd::prelude::*;

verus! {

/// The index of an id is that of the first fixture with it.
pub proof fn first_with_the_id(fs: Seq<FixtureEntry>, id: Seq<char>, from: int, i: int)
    requires
        0 <= from <= i <= fs.len(),
        i < fs.len() ==> fs[i].id@ == id,
        forall|k: int| from <= k < i ==> (#[trigger] fs[k]).id@ != id,
    ensures
        i < fs.len() ==> id_index(fs, id, from) == Some(i),
        i == fs.len() ==> id_index(fs, id, from) is None,
    decreases i - from,
{
    if from < i {
        assert(fs[from].id@ != id);
        first_with_the_id(fs, id, from + 1, i);
    }
}

proof fn prefix_hits(fs: Seq<FixtureEntry>, id: Seq<char>)
    ensures
        forall|i: int|
            with_prefix(fs, id).contains(i) <==> 0 <= i < fs.len() && id.is_prefix_of(
                (#[trigger] fs[i]).id@,
            ),
        forall|j: int, k: int|
            0 <= j < k < with_prefix(fs, id).len() ==> #[trigger] with_prefix(fs, id)[j]
                < #[trigger] with_prefix(fs, id)[k],
        forall|j: int|
            0 <= j < with_prefix(fs, id).len() ==> 0 <= #[trigger] with_prefix(fs, id)[j]
                < fs.len(),
    decreases fs.len(),
{
    let all = with_prefix(fs, id);
    if fs.len() > 0 {
        let front = fs.drop_last();
        let n = fs.len() - 1;
        prefix_hits(front, id);
        let before = with_prefix(front, id);
        assert forall|i: int|
            all.contains(i) <==> 0 <= i < fs.len() && id.is_prefix_of((#[trigger] fs[i]).id@) by {
            if 0 <= i < n {
                assert(front[i] == fs[i]);
            }
            if before.contains(i) {
                let k = choose|k: int| 0 <= k < before.len() && before[k] == i;
                assert(all[k] == i);
                assert(0 <= before[k] < front.len());
            }
            if all.contains(i) {
                let k = choose|k: int| 0 <= k < all.len() && all[k] == i;
                if k < before.len() {
                    assert(before[k] == i);
                    assert(before.contains(i));
                    assert(front[i] == fs[i]);
                }
            }
            if i == n && id.is_prefix_of(fs[n].id@) {
                assert(all[before.len() as int] == n);
            }
        }
        assert forall|j: int, k: int| 0 <= j < k < all.len() implies #[trigger] all[j]
            < #[trigger] all[k] by {
            assert(all[j] == before[j]);
            if k < before.len() {
                assert(all[k] == before[k]);
            }
        }
        assert forall|j: int| 0 <= j < all.len() implies 0 <= #[trigger] all[j] < fs.len() by {
            if j < before.len() {
                assert(all[j] == before[j]);
            }
        }
    }
}

/// A text names the fixture whose whole id it is, whatever other ids start with
/// it; else the one whose id starts with it, where there is just one.
pub proof fn fixtures_are_named(fs: Seq<FixtureEntry>, id: Seq<char>, i: int)
    requires
        0 <= i < fs.len(),
    ensures
        fs[i].id@ == id && (forall|k: int| 0 <= k < i ==> (#[trigger] fs[k]).id@ != id)
            ==> fixture_named(fs, id) == Ok::<int, ErrorView>(i),
        id.is_prefix_of(fs[i].id@) && (forall|k: int|
            0 <= k < fs.len() && k != i ==> !id.is_prefix_of((#[trigger] fs[k]).id@))
            ==> fixture_named(fs, id) == Ok::<int, ErrorView>(i),
        (forall|k: int| 0 <= k < fs.len() ==> !id.is_prefix_of((#[trigger] fs[k]).id@))
            ==> fixture_named(fs, id) == Err::<int, ErrorView>(
            ErrorView::Config("fixture not found: "@ + id),
        ),
{
    let hits = with_prefix(fs, id);
    prefix_hits(fs, id);
    if fs[i].id@ == id && (forall|k: int| 0 <= k < i ==> (#[trigger] fs[k]).id@ != id) {
        first_with_the_id(fs, id, 0, i);
    }
    if id.is_prefix_of(fs[i].id@) && (forall|k: int|
        0 <= k < fs.len() && k != i ==> !id.is_prefix_of((#[trigger] fs[k]).id@)) {
        assert(hits.contains(i));
        assert forall|k: int| 0 <= k < hits.len() implies #[trigger] hits[k] == i by {
            assert(hits.contains(hits[k]));
            assert(0 <= hits[k] < fs.len());
            let f = fs[hits[k]];
            assert(id.is_prefix_of(f.id@));
        }
        if hits.len() > 1 {
            assert(hits[0] < hits[1]);
        }
        assert forall|k: int| 0 <= k < fs.len() && k != i implies (#[trigger] fs[k]).id@ != id by {
            if fs[k].id@ == id {
                assert(fs[k].id@.subrange(0, id.len() as int) =~= id);
                assert(id.is_prefix_of(fs[k].id@));
            }
        }
        if fs[i].id@ == id {
            first_with_the_id(fs, id, 0, i);
        } else {
            first_with_the_id(fs, id, 0, fs.len() as int);
        }
    }
    if forall|k: int| 0 <= k < fs.len() ==> !id.is_prefix_of((#[trigger] fs[k]).id@) {
        if hits.len() > 0 {
            assert(hits.contains(hits[0]));
            let f = fs[hits[0]];
            assert(id.is_prefix_of(f.id@));
        }
        assert forall|k: int| 0 <= k < fs.len() implies (#[trigger] fs[k]).id@ != id by {
            if fs[k].id@ == id {
                assert(fs[k].id@.subrange(0, id.len() as int) =~= id);
                assert(id.is_prefix_of(fs[k].id@));
            }
        }
        first_with_the_id(fs, id, 0, fs.len() as int);
    }
}

/// A suite is the fixtures with its tag, in their order.
pub proof fn suite_is_by_tag(fs: Seq<FixtureEntry>, tag: Seq<char>)
    ensures
        tagged(fs, tag) == fs.filter(
            |f: FixtureEntry|
                exists|i: int| 0 <= i < f.tags@.len() && (#[trigger] f.tags@[i])@ == tag,
        ),
    decreases fs.len(),
{
    reveal(Seq::filter);
    if fs.len() > 0 {
        suite_is_by_tag(fs.drop_last(), tag);
        assert(has_tag(fs.last(), tag) == exists|i: int|
            0 <= i < fs.last().tags@.len() && (#[trigger] fs.last().tags@[i])@ == tag);
    } else {
        assert(tagged(fs, tag) =~= fs);
    }
}

proof fn counted(v: Seq<Status>, p: spec_fn(Status) -> bool)
    ensures
        count_status(v, p) == v.filter(p).len(),
    decreases v.len(),
{
    reveal(Seq::filter);
    if v.len() > 0 {
        counted(v.drop_last(), p);
    }
}

/// A tally counts each verdict once and under its own name: passes, failures
/// beyond a threshold or against what was approved, expected failures, errors,
/// and fixtures without approval.
pub proof fn tally_counts_each_verdict(t: Tally, v: Seq<Status>)
    requires
        is_tally(t, v),
    ensures
        t.passed == v.filter(|s: Status| s == Status::Pass).len(),
        t.failed == v.filter(
            |s: Status| s == Status::FailThreshold || s == Status::Regression,
        ).len(),
        t.expected_fail == v.filter(|s: Status| s == Status::ExpectedFail).len(),
        t.error == v.filter(|s: Status| s == Status::Error).len(),
        t.unapproved == v.filter(|s: Status| s == Status::NoBaseline).len(),
{
    tally_filters(v);
}

proof fn tally_filters(v: Seq<Status>)
    ensures
        count_status(v, |s: Status| s is Pass) == v.filter(|s: Status| s == Status::Pass).len(),
        count_status(v, |s: Status| is_failure(s)) == v.filter(
            |s: Status| s == Status::FailThreshold || s == Status::Regression,
        ).len(),
        count_status(v, |s: Status| s is ExpectedFail) == v.filter(
            |s: Status| s == Status::ExpectedFail,
        ).len(),
        count_status(v, |s: Status| s is Error) == v.filter(|s: Status| s == Status::Error).len(),
        count_status(v, |s: Status| s is NoBaseline) == v.filter(
            |s: Status| s == Status::NoBaseline,
        ).len(),
    decreases v.len(),
{
    reveal(Seq::filter);
    if v.len() > 0 {
        tally_filters(v.drop_last());
    }
}

/// What is counted is told with its label, and nothing where there is none.
pub proof fn counts_are_told(t: Tally)
    ensures
        t.passed > 0 ==> tally_parts(t).len() > 0 && tally_parts(t)[0] == nat_text(t.passed as nat)
            + " passed"@,
        t.failed > 0 ==> tally_parts(t).contains(nat_text(t.failed as nat) + " failed"@),
        t.expected_fail > 0 ==> tally_parts(t).contains(
            nat_text(t.expected_fail as nat) + " expected fail"@,
        ),
        t.error > 0 ==> tally_parts(t).contains(nat_text(t.error as nat) + " error"@),
        t.unapproved > 0 ==> tally_parts(t).len() > 0 && tally_parts(t).last() == nat_text(
            t.unapproved as nat,
        ) + " awaiting approval"@,
        tally_parts(t).len() == (if t.passed > 0 { 1int } else { 0int }) + (if t.failed > 0 {
            1int
        } else {
            0int
        }) + (if t.expected_fail > 0 { 1int } else { 0int }) + (if t.error > 0 {
            1int
        } else {
            0int
        }) + (if t.unapproved > 0 { 1int } else { 0int }),
{
    labelled(t.passed as nat, "passed"@, " passed"@);
    labelled(t.failed as nat, "failed"@, " failed"@);
    labelled(t.expected_fail as nat, "expected fail"@, " expected fail"@);
    labelled(t.error as nat, "error"@, " error"@);
    labelled(t.unapproved as nat, "awaiting approval"@, " awaiting approval"@);
    let parts = tally_parts(t);
    let a = if t.passed > 0 { 1int } else { 0int };
    let b = a + if t.failed > 0 { 1int } else { 0int };
    let c = b + if t.expected_fail > 0 { 1int } else { 0int };
    if t.failed > 0 {
        assert(parts[a] == nat_text(t.failed as nat) + " failed"@);
    }
    if t.expected_fail > 0 {
        assert(parts[b] == nat_text(t.expected_fail as nat) + " expected fail"@);
    }
    if t.error > 0 {
        assert(parts[c] == nat_text(t.error as nat) + " error"@);
    }
}

proof fn labelled(n: nat, label: Seq<char>, with_blank: Seq<char>)
    ensures
        with_blank == seq![' '] + label && n > 0 ==> count_part(n, label) == seq![
            nat_text(n) + with_blank,
        ],
        n == 0 ==> count_part(n, label).len() == 0,
        "passed"@ == label ==> seq![' '] + label == " passed"@,
        "failed"@ == label ==> seq![' '] + label == " failed"@,
        "expected fail"@ == label ==> seq![' '] + label == " expected fail"@,
        "error"@ == label ==> seq![' '] + label == " error"@,
        "awaiting approval"@ == label ==> seq![' '] + label == " awaiting approval"@,
{
    reveal_strlit(" ");
    reveal_strlit("passed");
    reveal_strlit(" passed");
    reveal_strlit("failed");
    reveal_strlit(" failed");
    reveal_strlit("expected fail");
    reveal_strlit(" expected fail");
    reveal_strlit("error");
    reveal_strlit(" error");
    reveal_strlit("awaiting approval");
    reveal_strlit(" awaiting approval");
    assert(seq![' '] + "passed"@ =~= " passed"@);
    assert(seq![' '] + "failed"@ =~= " failed"@);
    assert(seq![' '] + "expected fail"@ =~= " expected fail"@);
    assert(seq![' '] + "error"@ =~= " error"@);
    assert(seq![' '] + "awaiting approval"@ =~= " awaiting approval"@);
    assert(nat_text(n) + " "@ + label =~= nat_text(n) + (seq![' '] + label));
}

proof fn column_at(front: Seq<char>, text: Seq<char>, width: nat, back: Seq<char>)
    requires
        text.len() <= width,
    ensures
        (front + padded_right(text, width as int) + back).subrange(
            front.len() as int,
            ((front.len() + text.len()) as int) as int,
        ) == text,
        padded_right(text, width as int).len() == width,
{
    padding_fills_the_width(text, width);
    let p = padded_right(text, width as int);
    let s = front + p + back;
    assert(s.subrange(front.len() as int, (front.len() + text.len()) as int) =~= p.take(text.len() as int));
}

/// In the table of results each figure stands in its column: the fixture, the
/// pixels, the elements and the verdict.
pub proof fn results_stand_in_their_columns(
    id: Seq<char>,
    pixels: Seq<char>,
    elements: Seq<char>,
    status: Seq<char>,
)
    requires
        id.len() <= 25,
        pixels.len() <= 9,
        elements.len() <= 11,
    ensures
        ({
            let l = result_line(id, pixels, elements, status);
            &&& l.subrange(2, 2 + id.len() as int) == id
            &&& l.subrange(28, 28 + pixels.len() as int) == pixels
            &&& l.subrange(38, 38 + elements.len() as int) == elements
            &&& l.skip(50) == status
        }),
{
    reveal_strlit("  ");
    reveal_strlit(" ");
    let l = result_line(id, pixels, elements, status);
    let (a, b, c) = (padded_right(id, 25), padded_right(pixels, 9), padded_right(elements, 11));
    column_at("  "@, id, 25, " "@ + b + " "@ + c + " "@ + status);
    column_at("  "@ + a + " "@, pixels, 9, " "@ + c + " "@ + status);
    column_at("  "@ + a + " "@ + b + " "@, elements, 11, " "@ + status);
    assert(l =~= "  "@ + a + (" "@ + b + " "@ + c + " "@ + status));
    assert(l =~= ("  "@ + a + " "@) + b + (" "@ + c + " "@ + status));
    assert(l =~= ("  "@ + a + " "@ + b + " "@) + c + (" "@ + status));
    assert(l.skip(50) =~= status);
}

/// In the list of fixtures each figure stands in its column.
pub proof fn listed_stand_in_their_columns(
    id: Seq<char>,
    tags: Seq<char>,
    expected: Seq<char>,
    approved: Seq<char>,
)
    requires
        id.len() <= 25,
        tags.len() <= 30,
        expected.len() <= 10,
    ensures
        ({
            let l = list_line(id, tags, expected, approved);
            &&& l.subrange(2, 2 + id.len() as int) == id
            &&& l.subrange(28, 28 + tags.len() as int) == tags
            &&& l.subrange(59, 59 + expected.len() as int) == expected
            &&& l.skip(70) == approved
        }),
{
    reveal_strlit("  ");
    reveal_strlit(" ");
    let l = list_line(id, tags, expected, approved);
    let (a, b, c) = (padded_right(id, 25), padded_right(tags, 30), padded_right(expected, 10));
    column_at("  "@, id, 25, " "@ + b + " "@ + c + " "@ + approved);
    column_at("  "@ + a + " "@, tags, 30, " "@ + c + " "@ + approved);
    column_at("  "@ + a + " "@ + b + " "@, expected, 10, " "@ + approved);
    assert(l =~= "  "@ + a + (" "@ + b + " "@ + c + " "@ + approved));
    assert(l =~= ("  "@ + a + " "@) + b + (" "@ + c + " "@ + approved));
    assert(l =~= ("  "@ + a + " "@ + b + " "@) + c + (" "@ + approved));
    assert(l.skip(70) =~= approved);
}

/// In the table of states each figure stands in its column.
pub proof fn states_stand_in_their_columns(
    id: Seq<char>,
    approved: Seq<char>,
    last: Seq<char>,
    change: Seq<char>,
    status: Seq<char>,
)
    requires
        id.len() <= 25,
        approved.len() <= 11,
        last.len() <= 11,
        change.len() <= 9,
    ensures
        ({
            let l = status_line(id, approved, last, change, status);
            &&& l.subrange(2, 2 + id.len() as int) == id
            &&& l.subrange(28, 28 + approved.len() as int) == approved
            &&& l.subrange(40, 40 + last.len() as int) == last
            &&& l.subrange(52, 52 + change.len() as int) == change
            &&& l.skip(62) == status
        }),
{
    reveal_strlit("  ");
    reveal_strlit(" ");
    let l = status_line(id, approved, last, change, status);
    let (a, b) = (padded_right(id, 25), padded_right(approved, 11));
    let (c, d) = (padded_right(last, 11), padded_right(change, 9));
    column_at("  "@, id, 25, " "@ + b + " "@ + c + " "@ + d + " "@ + status);
    column_at("  "@ + a + " "@, approved, 11, " "@ + c + " "@ + d + " "@ + status);
    column_at("  "@ + a + " "@ + b + " "@, last, 11, " "@ + d + " "@ + status);
    column_at("  "@ + a + " "@ + b + " "@ + c + " "@, change, 9, " "@ + status);
    assert(l =~= "  "@ + a + (" "@ + b + " "@ + c + " "@ + d + " "@ + status));
    assert(l =~= ("  "@ + a + " "@) + b + (" "@ + c + " "@ + d + " "@ + status));
    assert(l =~= ("  "@ + a + " "@ + b + " "@) + c + (" "@ + d + " "@ + status));
    assert(l =~= ("  "@ + a + " "@ + b + " "@ + c + " "@) + d + (" "@ + status));
    assert(l.skip(62) =~= status);
}

/// A report has a line for each result, with its own figures.
pub proof fn report_has_a_line_for_each(rows: Seq<ResultRow>, i: int)
    requires
        0 <= i < rows.len(),
    ensures
        report_lines(rows).len() == rows.len(),
        report_lines(rows)[i] == result_line(
            rows[i].fixture_id@,
            pct_text(opt_real(rows[i].pixel_diff_pct), 1),
            pct_text(opt_real(rows[i].element_match_pct), 0),
            rows[i].status@,
        ),
{
}

/// A percentage is its number and the sign; where there is none, a dash.
pub proof fn percentages_are_written(x: Real, n: int, k: nat)
    ensures
        pct_text(Some(x), k) == fixed_text(x, k) + "%"@,
        pct_text(None, k) == "\u{2014}"@,
        is_worth(x, n) && n > 0 ==> pct_text(Some(x), 0) == nat_text(n as nat) + "%"@,
        is_worth(x, n) && n > 0 ==> pct_text(Some(x), 1) == nat_text(n as nat) + seq!['.', '0'] + "%"@,
{
    if is_worth(x, n) {
        whole_numbers_are_written_exactly(x, n);
    }
}

/// How far a result is from what was approved, in whole per cents: more has a
/// plus, less a minus, and no change is a dash.
pub proof fn changes_are_written(c: Real, a: Real, x: int, y: int)
    requires
        is_worth(c, x),
        is_worth(a, y),
        -1000 <= x <= 1000,
        -1000 <= y <= 1000,
    ensures
        x > y ==> change_text(Some(c), Some(a)) == seq!['+'] + nat_text((x - y) as nat) + seq![
            '.',
            '0',
        ] + "%"@,
        x < y ==> change_text(Some(c), Some(a)) == int_text(x - y) + seq!['.', '0'] + "%"@,
        x == y ==> change_text(Some(c), Some(a)) == dash(),
        change_text(Some(c), None) == dash(),
        change_text(None, Some(a)) == dash(),
{
    difference_is_exact(c, x, a, y);
    let d = difference(c, a);
    whole_numbers_are_written_exactly(d, x - y);
    magnitude_is_exact(d, x - y);
    let m = magnitude(d);
    let k = size_of(x - y);
    twentieth(m, k);
}

proof fn twentieth(m: Real, k: nat)
    requires
        is_worth(m, k as int),
    ensures
        is_less(m, rounded(false, 1, 20)) == (k == 0),
{
    crate::number::whole::rounding_is_nearest(false, 1, 20);
    crate::number::exact::rounded_is_canonical(false, 1, 20);
    small_share();
    match (m, rounded(false, 1, 20)) {
        (Real::Fin(s, a, e), Real::Fin(t, b, f)) => {
            factors_positive(e);
            factors_positive(f);
            let (p, q) = (crate::number::arith::num(a, e), crate::number::arith::num(b, f));
            let (dp, dq) = (crate::number::arith::den(e), crate::number::arith::den(f));
            if k == 0 {
                assert(p == 0) by (nonlinear_arith)
                    requires
                        p == k * dp,
                        k == 0,
                ;
                assert(p * dq == 0) by (nonlinear_arith)
                    requires
                        p == 0,
                ;
                assert(q * dp > 0) by (nonlinear_arith)
                    requires
                        q > 0,
                        dp > 0,
                ;
            } else {
                assert(p * dq >= q * dp) by (nonlinear_arith)
                    requires
                        p == k * dp,
                        k >= 1,
                        q <= dq,
                        dp > 0,
                ;
            }
        },
        _ => {},
    }
}

/// A twentieth lies between nothing and one.
proof fn small_share()
    ensures
        rounded(false, 1, 20) matches Real::Fin(s, m, e) && !s && 0 < crate::number::arith::num(m, e)
            <= crate::number::arith::den(e),
{
    whole_numbers_are_exact(1);
    crate::number::exact::integers_are_finite(1);
    match of_int(1) {
        Real::Fin(_, m, e) => {
            factors_positive(e);
            let (u, w) = (crate::number::double::up(e), crate::number::double::down(e));
            assert(1 * w <= m * u * 20) by (nonlinear_arith)
                requires
                    m * u == 1 * w,
            ;
            crate::number::exact::rounded_at_most(false, 1, 20, m, e);
            match rounded(false, 1, 20) {
                Real::Fin(_, k, f) => {
                    let (x, y) = (crate::number::arith::num(k, f), crate::number::arith::den(f));
                    assert(x <= y) by (nonlinear_arith)
                        requires
                            x * w <= (1 * w) * y,
                            w > 0,
                    ;
                    tiny_is_below(k, f);
                },
                _ => {},
            }
        },
        _ => {},
    }
}

proof fn tiny_is_below(k: nat, f: int)
    requires
        rounded(false, 1, 20) == Real::Fin(false, k, f),
    ensures
        crate::number::arith::num(k, f) > 0,
{
    crate::number::double::p2_52();
    let m = crate::number::double::p2(52);
    let e = -57int;
    crate::number::double::p2_adds(52, 5);
    reveal_with_fuel(crate::number::double::p2, 6);
    let w = crate::number::double::down(e);
    assert(w == m * 32);
    assert(crate::number::double::up(e) == 1);
    assert(1 * w >= m * 1 * 20);
    crate::number::exact::rounded_at_least(false, 1, 20, m, e);
    factors_positive(f);
    let (x, y) = (crate::number::arith::num(k, f), crate::number::arith::den(f));
    assert(x > 0) by (nonlinear_arith)
        requires
            x * w >= (m * 1) * y,
            m > 0,
            y > 0,
    ;
}

/// A pass is better than what was approved where it is lower by more than one half;
/// what is no pass is told as it is.
pub proof fn remarks_are_made(c: Real, a: Real, x: int, y: int, status: Seq<char>)
    requires
        is_worth(c, x),
        is_worth(a, y),
        -1000 <= x <= 1000,
        -1000 <= y <= 1000,
    ensures
        remark_text("PASS"@, Some(c), Some(a)) == (if x < y { " (improved)"@ } else { ""@ }),
        remark_text("PASS"@, Some(c), None) == " (unapproved)"@,
        remark_text("PASS"@, None, Some(a)) == ""@,
        status != "PASS"@ ==> remark_text(status, Some(c), Some(a)) == " ("@ + status + ")"@,
{
    halves_are_exact(1);
    let half = rounded(false, 1, 2);
    let minus = crate::number::arith::negated(half);
    assert(is_half_of(minus, -1));
    half_is_added(a, y, minus, -1);
    half_is_compared(difference(a, half), 2 * y - 1, c, x);
}

/// What was approved is told with its figures and its commit.
pub proof fn approval_is_told(id: Seq<char>, p: Real, e: Real, commit: Seq<char>)
    ensures
        approved_text(id, p, None, commit) == "approved '"@ + id + "' at pixel="@ + fixed_text(p, 1)
            + "%"@ + " (commit "@ + commit + ")"@,
        approved_text(id, p, Some(e), commit) == "approved '"@ + id + "' at pixel="@ + fixed_text(
            p,
            1,
        ) + "%"@ + (", elements="@ + fixed_text(e, 0) + "%"@) + " (commit "@ + commit + ")"@,
{
    assert("approved '"@ + id + "' at pixel="@ + fixed_text(p, 1) + "%"@ + Seq::<char>::empty()
        =~= "approved '"@ + id + "' at pixel="@ + fixed_text(p, 1) + "%"@);
}

/// The state of a fixture: what was approved, what the latest run gave, how far
/// that is from it, and the verdict with its remark.
pub proof fn state_is_told(id: Seq<char>, row: ResultRow, approved: Option<Real>)
    ensures
        fixture_status(id, Some(row), approved) == status_line(
            id,
            pct_text(approved, 1),
            pct_text(opt_real(row.pixel_diff_pct), 1),
            change_text(opt_real(row.pixel_diff_pct), approved),
            row.status@ + remark_text(row.status@, opt_real(row.pixel_diff_pct), approved),
        ),
        fixture_status(id, None, approved) == status_line(
            id,
            pct_text(approved, 1),
            dash(),
            dash(),
            dash(),
        ),
{
    assert(dash() + Seq::<char>::empty() =~= dash());
}

} // verus!
