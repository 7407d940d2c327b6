//! What holds of the comparison of boxes, and of the verdict.

use crate::litehtml::compare::{
    at_path, by_path, counts, deltas_of, distance, frame_of, half, is_beyond, is_break, is_close,
    is_flat, is_unsigned, leaf_of, match_percentage, max_real, order_carries, parent_of, ranked_in,
    ranked_len, relative, score_of, verdict, within, without_path, worst, DeltasView, ElementView,
    OffenderView, Status,
};
use crate::lockfile::process::last_char;
use crate::number::arith::{den, difference, is_less, magnitude, negated, num, of_int, sum};
use crate::number::double::{
    down, least, p2, p2_52, p2_adds, p2_positive, rounded, up, Real,
};
use crate::number::exact::{
    factors_positive, integers_are_finite, is_worth, rounded_is_canonical, whole_numbers_are_exact,
};
use crate::number::order::at_most;
use crate::number::whole::{
    difference_is_exact, half_is_added, half_is_compared, is_half_of, less_is_exact,
    per_cent_is_ordered, quotient_is_rounded_once, rounding_is_nearest, share_in_per_cent, size_of,
};
use vstd::prelude::*;

verus! {

proof fn within_is_a_bound(x: Real, bound: int)
    requires
        0 <= bound <= 1000,
    ensures
        within(x, bound) <==> (x matches Real::Fin(s, m, e) && num(m, e) <= bound * den(e)),
{
    whole_numbers_are_exact(bound);
    integers_are_finite(bound);
    match (of_int(bound), x) {
        (Real::Fin(_, k, f), Real::Fin(_, m, e)) => {
            factors_positive(f);
            let (a, b, c, w) = (num(k, f), den(e), num(m, e), den(f));
            let y = bound * b;
            assert(a * b == y * w) by (nonlinear_arith)
                requires
                    a == bound * w,
                    y == bound * b,
            ;
            assert(a * b < c * w <==> y < c) by (nonlinear_arith)
                requires
                    a * b == y * w,
                    w > 0,
            ;
        },
        _ => {},
    }
}

/// A box is close exactly where all four of its distances are finite, those of
/// its place at most two pixels, and those of its size at most five.
pub proof fn close_on_all_four_sides(d: DeltasView)
    ensures
        is_close(d) <==> {
            &&& d.dx matches Real::Fin(_, m, e) && num(m, e) <= 2 * den(e)
            &&& d.dy matches Real::Fin(_, m, e) && num(m, e) <= 2 * den(e)
            &&& d.dw matches Real::Fin(_, m, e) && num(m, e) <= 5 * den(e)
            &&& d.dh matches Real::Fin(_, m, e) && num(m, e) <= 5 * den(e)
        },
{
    within_is_a_bound(d.dx, 2);
    within_is_a_bound(d.dy, 2);
    within_is_a_bound(d.dw, 5);
    within_is_a_bound(d.dh, 5);
}

/// The score in numbers: all boxes that are not flat count; those pass that the
/// pipeline has and that are close; those that it has and that are not close are
/// the offenders.
pub proof fn score_is_counted(es: Seq<ElementView>, refs: Seq<ElementView>, pipes: Seq<ElementView>)
    ensures
        score_of(es, refs, pipes).scored == es.filter(|e: ElementView| !is_flat(e)).len(),
        score_of(es, refs, pipes).passing == es.filter(
            |e: ElementView|
                !is_flat(e) && at_path(pipes, e.path) is Some && is_close(
                    deltas_of(e, at_path(pipes, e.path)->0, refs, pipes),
                ),
        ).len(),
        score_of(es, refs, pipes).offenders.len() == es.filter(
            |e: ElementView|
                !is_flat(e) && at_path(pipes, e.path) is Some && !is_close(
                    deltas_of(e, at_path(pipes, e.path)->0, refs, pipes),
                ),
        ).len(),
    decreases es.len(),
{
    reveal(Seq::filter);
    if es.len() > 0 {
        let e = es.last();
        score_is_counted(es.drop_last(), refs, pipes);
        let before = score_of(es.drop_last(), refs, pipes);
        match at_path(pipes, e.path) {
            Some(p) => {
                ranked_len(
                    before.offenders,
                    OffenderView { path: e.path, deltas: deltas_of(e, p, refs, pipes) },
                );
            },
            None => {},
        }
    }
}

proof fn ranked_holds(s: Seq<OffenderView>, x: OffenderView, o: OffenderView)
    ensures
        ranked_in(s, x).contains(o) <==> s.contains(o) || x == o,
    decreases s.len(),
{
    let all = ranked_in(s, x);
    if s.len() == 0 || !is_beyond(worst(x.deltas), worst(s.last().deltas)) {
        pushed_holds(s, x, o);
    } else {
        let front = s.drop_last();
        ranked_holds(front, x, o);
        pushed_holds(ranked_in(front, x), s.last(), o);
        pushed_holds(front, s.last(), o);
        assert(s =~= front.push(s.last()));
    }
}

proof fn pushed_holds(s: Seq<OffenderView>, x: OffenderView, o: OffenderView)
    ensures
        s.push(x).contains(o) <==> s.contains(o) || x == o,
{
    let all = s.push(x);
    if s.contains(o) {
        let i = choose|i: int| 0 <= i < s.len() && s[i] == o;
        assert(all[i] == o);
    }
    if x == o {
        assert(all[s.len() as int] == o);
    }
    if all.contains(o) {
        let i = choose|i: int| 0 <= i < all.len() && all[i] == o;
        if i < s.len() {
            assert(s[i] == o);
        }
    }
}

/// Whether the box at an index offends: it counts, the pipeline has it, and it is
/// not close.
pub open spec fn offends(
    es: Seq<ElementView>,
    i: int,
    refs: Seq<ElementView>,
    pipes: Seq<ElementView>,
    o: OffenderView,
) -> bool {
    &&& 0 <= i < es.len()
    &&& !is_flat(es[i])
    &&& at_path(pipes, es[i].path) is Some
    &&& !is_close(o.deltas)
    &&& o.path == es[i].path
    &&& o.deltas == deltas_of(es[i], at_path(pipes, es[i].path)->0, refs, pipes)
}

proof fn one_more_offender(
    es: Seq<ElementView>,
    refs: Seq<ElementView>,
    pipes: Seq<ElementView>,
    o: OffenderView,
)
    requires
        es.len() > 0,
    ensures
        score_of(es, refs, pipes).offenders.contains(o) <==> score_of(
            es.drop_last(),
            refs,
            pipes,
        ).offenders.contains(o) || offends(es, es.len() - 1, refs, pipes, o),
{
    let e = es.last();
    let before = score_of(es.drop_last(), refs, pipes).offenders;
    match at_path(pipes, e.path) {
        Some(p) => {
            let x = OffenderView { path: e.path, deltas: deltas_of(e, p, refs, pipes) };
            ranked_holds(before, x, o);
        },
        None => {},
    }
}

proof fn offends_before(
    es: Seq<ElementView>,
    i: int,
    refs: Seq<ElementView>,
    pipes: Seq<ElementView>,
    o: OffenderView,
)
    requires
        es.len() > 0,
        i != es.len() - 1,
    ensures
        offends(es, i, refs, pipes, o) == offends(es.drop_last(), i, refs, pipes, o),
{
    if 0 <= i < es.len() {
        assert(es.drop_last()[i] == es[i]);
    }
}

/// The offenders are exactly the boxes that count, that the pipeline has, and that
/// are not close, each under its path and with its own distances.
#[verifier::spinoff_prover]
pub proof fn offenders_are_those_not_close(
    es: Seq<ElementView>,
    refs: Seq<ElementView>,
    pipes: Seq<ElementView>,
    o: OffenderView,
)
    ensures
        score_of(es, refs, pipes).offenders.contains(o) <==> exists|i: int| #[trigger]
            offends(es, i, refs, pipes, o),
    decreases es.len(),
{
    if es.len() > 0 {
        offenders_are_those_not_close(es.drop_last(), refs, pipes, o);
        one_more_offender(es, refs, pipes, o);
        some_offends(es, refs, pipes, o);
    }
}

proof fn some_offends(
    es: Seq<ElementView>,
    refs: Seq<ElementView>,
    pipes: Seq<ElementView>,
    o: OffenderView,
)
    requires
        es.len() > 0,
    ensures
        (exists|i: int| #[trigger] offends(es, i, refs, pipes, o)) <==> offends(
            es,
            es.len() - 1,
            refs,
            pipes,
            o,
        ) || (exists|i: int| #[trigger] offends(es.drop_last(), i, refs, pipes, o)),
{
    let n = es.len() - 1;
    let front = es.drop_last();
    if exists|i: int| #[trigger] offends(es, i, refs, pipes, o) {
        let i = choose|i: int| #[trigger] offends(es, i, refs, pipes, o);
        if i != n {
            offends_before(es, i, refs, pipes, o);
            assert(offends(front, i, refs, pipes, o));
        }
    }
    if exists|i: int| #[trigger] offends(front, i, refs, pipes, o) {
        let i = choose|i: int| #[trigger] offends(front, i, refs, pipes, o);
        assert(i != n);
        offends_before(es, i, refs, pipes, o);
        assert(offends(es, i, refs, pipes, o));
    }
}

/// A path stands for the last box that counts and has it; for none where no box
/// that counts has it.
pub proof fn last_box_of_a_path(es: Seq<ElementView>, path: Seq<char>, i: int)
    requires
        -1 <= i < es.len(),
        i >= 0 ==> counts(es[i]) && es[i].path == path,
        forall|k: int| i < k < es.len() ==> !(counts(#[trigger] es[k]) && es[k].path == path),
    ensures
        i < 0 ==> at_path(es, path) is None,
        i >= 0 ==> at_path(es, path) == Some(es[i]),
    decreases es.len(),
{
    if es.len() > 0 && i < es.len() - 1 {
        let front = es.drop_last();
        assert(!(counts(es[es.len() - 1]) && es[es.len() - 1].path == path));
        assert forall|k: int| i < k < front.len() implies !(counts(#[trigger] front[k])
            && front[k].path == path) by {
            assert(front[k] == es[k]);
        }
        last_box_of_a_path(front, path, i);
    }
}

proof fn without_path_holds(es: Seq<ElementView>, path: Seq<char>, e: ElementView)
    ensures
        without_path(es, path).contains(e) <==> es.contains(e) && e.path != path,
    decreases es.len(),
{
    if es.len() > 0 {
        let front = es.drop_last();
        without_path_holds(front, path, e);
        element_in_longer(front, es.last(), e);
        element_in_longer(without_path(front, path), es.last(), e);
        assert(es =~= front.push(es.last()));
    }
}

proof fn element_in_longer(s: Seq<ElementView>, x: ElementView, e: ElementView)
    ensures
        s.push(x).contains(e) <==> s.contains(e) || x == e,
{
    let all = s.push(x);
    if s.contains(e) {
        let i = choose|i: int| 0 <= i < s.len() && s[i] == e;
        assert(all[i] == e);
    }
    if x == e {
        assert(all[s.len() as int] == e);
    }
    if all.contains(e) {
        let i = choose|i: int| 0 <= i < all.len() && all[i] == e;
        if i < s.len() {
            assert(s[i] == e);
        }
    }
}

/// Of the boxes with a path that count, the last one is compared and no other.
pub proof fn each_path_is_compared_once(es: Seq<ElementView>, e: ElementView)
    ensures
        by_path(es).contains(e) <==> at_path(es, e.path) == Some(e),
        forall|i: int, j: int|
            0 <= i < j < by_path(es).len() ==> (#[trigger] by_path(es)[i]).path != (
            #[trigger] by_path(es)[j]).path,
    decreases es.len(),
{
    if es.len() > 0 {
        let front = es.drop_last();
        let last = es.last();
        each_path_is_compared_once(front, e);
        if counts(last) {
            let before = by_path(front);
            let rest = without_path(before, last.path);
            without_path_holds(before, last.path, e);
            element_in_longer(rest, last, e);
            filtered_stay_apart(before, last.path);
            assert forall|i: int, j: int| 0 <= i < j < by_path(es).len() implies (
            #[trigger] by_path(es)[i]).path != (#[trigger] by_path(es)[j]).path by {
                assert(by_path(es)[i] == rest[i]);
                if j < rest.len() {
                    assert(by_path(es)[j] == rest[j]);
                } else {
                    without_path_holds(before, last.path, rest[i]);
                    assert(rest.contains(rest[i]));
                }
            }
        }
    }
}

proof fn filtered_stay_apart(es: Seq<ElementView>, path: Seq<char>)
    requires
        forall|i: int, j: int|
            0 <= i < j < es.len() ==> (#[trigger] es[i]).path != (#[trigger] es[j]).path,
    ensures
        forall|i: int, j: int|
            0 <= i < j < without_path(es, path).len() ==> (#[trigger] without_path(es, path)[i]).path
                != (#[trigger] without_path(es, path)[j]).path,
    decreases es.len(),
{
    if es.len() > 0 {
        let front = es.drop_last();
        let last = es.last();
        assert forall|i: int, j: int| 0 <= i < j < front.len() implies (#[trigger] front[i]).path
            != (#[trigger] front[j]).path by {
            assert(front[i] == es[i] && front[j] == es[j]);
        }
        filtered_stay_apart(front, path);
        let rest = without_path(front, path);
        let all = without_path(es, path);
        assert forall|i: int, j: int| 0 <= i < j < all.len() implies (#[trigger] all[i]).path != (
        #[trigger] all[j]).path by {
            assert(all[i] == rest[i]);
            if j < rest.len() {
                assert(all[j] == rest[j]);
            } else {
                without_path_holds(front, path, rest[i]);
                assert(rest.contains(rest[i]));
                let k = choose|k: int| 0 <= k < front.len() && front[k] == rest[i];
                assert(es[k].path != es[es.len() - 1].path);
            }
        }
    }
}

/// The whole number that an optional coordinate is.
pub open spec fn is_at(x: Option<Real>, n: int) -> bool {
    x matches Some(v) && is_worth(v, n) && -0x1_0000_0000 <= n <= 0x1_0000_0000
}

proof fn distance_between(r: Option<Real>, a: int, p: Option<Real>, b: int)
    requires
        r matches Some(v) && is_worth(v, a) && -0x4_0000_0000 <= a <= 0x4_0000_0000,
        p matches Some(v) && is_worth(v, b) && -0x4_0000_0000 <= b <= 0x4_0000_0000,
    ensures
        is_worth(distance(r, p), b - a),
{
    difference_is_exact(p->0, b, r->0, a);
}

proof fn place_in_parent(child: Option<Real>, a: int, parent: Option<Real>, b: int)
    requires
        is_at(child, a),
        is_at(parent, b),
    ensures
        relative(child, parent) matches Some(v) && is_worth(v, a - b),
{
    difference_is_exact(child->0, a, parent->0, b);
}

/// How far a box is from the reference's, in whole pixels: its size as it stands,
/// and its place as it stands where no parent is on both sides.
pub proof fn distances_are_differences(
    r: ElementView,
    p: ElementView,
    refs: Seq<ElementView>,
    pipes: Seq<ElementView>,
    a: (int, int, int, int),
    b: (int, int, int, int),
)
    requires
        frame_of(r.path, refs, pipes) is None,
        is_at(r.x, a.0) && is_at(r.y, a.1) && is_at(r.w, a.2) && is_at(r.h, a.3),
        is_at(p.x, b.0) && is_at(p.y, b.1) && is_at(p.w, b.2) && is_at(p.h, b.3),
    ensures
        is_worth(deltas_of(r, p, refs, pipes).dx, b.0 - a.0),
        is_worth(deltas_of(r, p, refs, pipes).dy, b.1 - a.1),
        is_worth(deltas_of(r, p, refs, pipes).dw, b.2 - a.2),
        is_worth(deltas_of(r, p, refs, pipes).dh, b.3 - a.3),
{
    distance_between(r.x, a.0, p.x, b.0);
    distance_between(r.y, a.1, p.y, b.1);
    distance_between(r.w, a.2, p.w, b.2);
    distance_between(r.h, a.3, p.h, b.3);
}

/// How far a box is from the reference's where both sides have its parent: its
/// place counts from the parent's, so that a box that moves with its parent does
/// not move; its size counts as it stands.
pub proof fn distances_are_within_the_parent(
    r: ElementView,
    p: ElementView,
    refs: Seq<ElementView>,
    pipes: Seq<ElementView>,
    a: (int, int, int, int),
    b: (int, int, int, int),
    fa: (int, int),
    fb: (int, int),
)
    requires
        frame_of(r.path, refs, pipes) matches Some(f) && is_at(f.0.x, fa.0) && is_at(f.0.y, fa.1)
            && is_at(f.1.x, fb.0) && is_at(f.1.y, fb.1),
        is_at(r.x, a.0) && is_at(r.y, a.1) && is_at(r.w, a.2) && is_at(r.h, a.3),
        is_at(p.x, b.0) && is_at(p.y, b.1) && is_at(p.w, b.2) && is_at(p.h, b.3),
    ensures
        is_worth(deltas_of(r, p, refs, pipes).dx, (b.0 - fb.0) - (a.0 - fa.0)),
        is_worth(deltas_of(r, p, refs, pipes).dy, (b.1 - fb.1) - (a.1 - fa.1)),
        is_worth(deltas_of(r, p, refs, pipes).dw, b.2 - a.2),
        is_worth(deltas_of(r, p, refs, pipes).dh, b.3 - a.3),
{
    let f = frame_of(r.path, refs, pipes)->0;
    place_in_parent(r.x, a.0, f.0.x, fa.0);
    place_in_parent(r.y, a.1, f.0.y, fa.1);
    place_in_parent(p.x, b.0, f.1.x, fb.0);
    place_in_parent(p.y, b.1, f.1.y, fb.1);
    distance_between(relative(r.x, f.0.x), a.0 - fa.0, relative(p.x, f.1.x), b.0 - fb.0);
    distance_between(relative(r.y, f.0.y), a.1 - fa.1, relative(p.y, f.1.y), b.1 - fb.1);
    distance_between(r.w, a.2, p.w, b.2);
    distance_between(r.h, a.3, p.h, b.3);
}

/// A coordinate that one side lacks is never close; one that both lack is no
/// distance at all.
pub proof fn missing_on_one_side_is_far(x: Real)
    ensures
        distance(Some(x), None) == Real::Inf(false),
        distance(None, Some(x)) == Real::Inf(false),
        is_worth(distance(None, None), 0),
{
    whole_numbers_are_exact(0);
}

/// A box of whole pixels is close where its place is off by at most two pixels
/// and its size by at most five.
pub proof fn close_in_whole_pixels(d: DeltasView, dx: int, dy: int, dw: int, dh: int)
    requires
        is_worth(d.dx, dx),
        is_worth(d.dy, dy),
        is_worth(d.dw, dw),
        is_worth(d.dh, dh),
    ensures
        is_close(d) <==> -2 <= dx <= 2 && -2 <= dy <= 2 && -5 <= dw <= 5 && -5 <= dh <= 5,
{
    close_on_all_four_sides(d);
    bound_in_whole(d.dx, dx, 2);
    bound_in_whole(d.dy, dy, 2);
    bound_in_whole(d.dw, dw, 5);
    bound_in_whole(d.dh, dh, 5);
}

proof fn bound_in_whole(x: Real, n: int, bound: nat)
    requires
        is_worth(x, n),
    ensures
        x matches Real::Fin(_, m, e) && (num(m, e) <= bound * den(e) <==> -bound <= n <= bound),
{
    match x {
        Real::Fin(_, m, e) => {
            factors_positive(e);
            let k = size_of(n);
            let d = den(e);
            assert(k * d <= bound * d <==> k <= bound) by (nonlinear_arith)
                requires
                    d > 0,
            ;
        },
        _ => {},
    }
}

/// The parent and the last step of a path are what stands on the two sides of its
/// last arrow.
pub proof fn path_is_parted_at_its_last_arrow(front: Seq<char>, leaf: Seq<char>)
    requires
        !leaf.contains('>'),
    ensures
        leaf_of(front + seq!['>'] + leaf) == leaf,
        parent_of(front + seq!['>'] + leaf) == Some(front),
        leaf_of(leaf) == leaf,
        parent_of(leaf) is None,
{
    let path = front + seq!['>'] + leaf;
    assert forall|k: int| front.len() < k < path.len() implies path[k] != '>' by {
        assert(path[k] == leaf[k - front.len() - 1]);
        assert(leaf.contains(leaf[k - front.len() - 1]));
    }
    last_arrow(path, front.len() as int, path.len() as int);
    assert forall|k: int| 0 <= k < leaf.len() implies leaf[k] != '>' by {
        assert(leaf.contains(leaf[k]));
    }
    last_arrow(leaf, -1, leaf.len() as int);
    assert(path.skip(front.len() as int + 1) =~= leaf);
    assert(path.take(front.len() as int) =~= front);
    assert(leaf.skip(0) =~= leaf);
}

proof fn last_arrow(s: Seq<char>, at: int, to: int)
    requires
        -1 <= at < to <= s.len() || (at == -1 && to == 0),
        at >= 0 ==> s[at] == '>',
        forall|k: int| at < k < to ==> s[k] != '>',
    ensures
        last_char(s, '>', to) == at,
    decreases to,
{
    if to > 0 && at < to - 1 {
        last_arrow(s, at, to - 1);
    }
}

/// A line break is known by its tag; a box without a tag is one where the last
/// step of its path is `br`, alone or with an index.
pub proof fn breaks_are_known(e: ElementView, front: Seq<char>, leaf: Seq<char>)
    requires
        !leaf.contains('>'),
        e.path == front + seq!['>'] + leaf,
    ensures
        e.tag matches Some(t) ==> is_break(e) == (t == "br"@),
        e.tag is None ==> is_break(e) == (leaf == "br"@ || (leaf.len() >= 3 && leaf.take(3)
            == "br["@)),
{
    path_is_parted_at_its_last_arrow(front, leaf);
    reveal_strlit("br[");
    if "br["@.is_prefix_of(leaf) {
        assert(leaf.take(3) =~= "br["@);
    }
}

/// The verdict on whole per cents: beyond a threshold it fails, as expected or
/// not; else it is a regression where the differences grew or the matches shrank
/// against what was approved; else it passes.
pub proof fn verdict_on_whole_figures(
    figures: (Real, Real, Real, Real, Real, Real),
    pixel: int,
    element: int,
    pixel_limit: int,
    element_limit: int,
    approved_pixel: int,
    approved_element: int,
    expected_fail: bool,
)
    requires
        is_worth(figures.0, pixel) && is_worth(figures.1, element),
        is_worth(figures.2, pixel_limit) && is_worth(figures.3, element_limit),
        is_worth(figures.4, approved_pixel) && is_worth(figures.5, approved_element),
        -0x1_0000_0000 <= approved_pixel <= 0x1_0000_0000,
        -0x1_0000_0000 <= approved_element <= 0x1_0000_0000,
    ensures
        ({
            let v = verdict(
                figures.0,
                Some(figures.1),
                figures.2,
                Some(figures.3),
                expected_fail,
                Some(figures.4),
                Some(figures.5),
            );
            let failed = pixel > pixel_limit || element < element_limit;
            &&& v == Status::ExpectedFail <==> failed && expected_fail
            &&& v == Status::FailThreshold <==> failed && !expected_fail
            &&& v == Status::Regression <==> !failed && (pixel > approved_pixel || element
                < approved_element)
            &&& v == Status::Pass <==> !failed && pixel <= approved_pixel && element
                >= approved_element
        }),
{
    less_is_exact(figures.2, pixel_limit, figures.0, pixel);
    less_is_exact(figures.1, element, figures.3, element_limit);
    half_is_half();
    half_is_added(figures.4, approved_pixel, half(), 1);
    half_is_compared(sum(figures.4, half()), 2 * approved_pixel + 1, figures.0, pixel);
    half_is_added(figures.5, approved_element, negated(half()), -1);
    half_is_compared(
        difference(figures.5, half()),
        2 * approved_element - 1,
        figures.1,
        element,
    );
}

/// One half is one half.
pub proof fn half_is_half()
    ensures
        is_half_of(half(), 1),
        is_half_of(negated(half()), -1),
{
    whole_numbers_are_exact(1);
    whole_numbers_are_exact(2);
    quotient_is_rounded_once(of_int(1), 1, of_int(2), 2);
    crate::number::whole::halves_are_exact(1);
}

/// What is missing decides nothing: without approved figures nothing is a
/// regression, and without a matching figure only the pixels count.
pub proof fn missing_figures_decide_nothing(
    pixel: Real,
    element: Option<Real>,
    pixel_limit: Real,
    element_limit: Option<Real>,
    expected_fail: bool,
    approved_pixel: Option<Real>,
    approved_element: Option<Real>,
)
    ensures
        verdict(pixel, element, pixel_limit, element_limit, expected_fail, None, None)
            != Status::Regression,
        verdict(pixel, None, pixel_limit, element_limit, expected_fail, approved_pixel, None)
            == verdict(
            pixel,
            None,
            pixel_limit,
            None,
            expected_fail,
            approved_pixel,
            approved_element,
        ),
        verdict(pixel, element, pixel_limit, None, expected_fail, None, None) == (if is_less(
            pixel_limit,
            pixel,
        ) {
            if expected_fail {
                Status::ExpectedFail
            } else {
                Status::FailThreshold
            }
        } else {
            Status::Pass
        }),
{
}

/// All boxes that match are a hundred per cent, none is nothing.
pub proof fn match_percentage_ends(passing: nat, scored: nat)
    requires
        passing <= scored <= 0x20_0000_0000_0000,
    ensures
        passing == scored ==> is_worth(match_percentage(passing, scored), 100),
        scored > 0 && passing == 0 ==> is_worth(match_percentage(passing, scored), 0),
        scored > 0 && 2 * passing == scored ==> is_worth(match_percentage(passing, scored), 50),
{
    if scored > 0 {
        share_in_per_cent(passing, scored);
    }
    whole_numbers_are_exact(100);
}

/// More boxes that match are no less per cent, and the same share of more boxes is
/// the same.
pub proof fn match_percentage_grows(a: nat, b: nat, scored: nat, k: nat)
    requires
        a <= b <= scored,
        0 < scored,
        0 < k,
        scored * k <= 0x20_0000_0000_0000,
    ensures
        at_most(match_percentage(a, scored), match_percentage(b, scored)),
        match_percentage(a * k, scored * k) == match_percentage(a, scored),
{
    assert(scored * k > 0) by (nonlinear_arith)
        requires
            scored > 0,
            k > 0,
    ;
    per_cent_is_ordered(a, b, scored, k);
}

/// The largest distance of a box is none of its distances' less, as far as they
/// are numbers.
pub proof fn worst_is_the_largest(d: DeltasView)
    requires
        !(d.dx is Nan) && !(d.dy is Nan) && !(d.dw is Nan) && !(d.dh is Nan),
    ensures
        !is_less(worst(d), magnitude(d.dx)),
        !is_less(worst(d), magnitude(d.dy)),
        !is_less(worst(d), magnitude(d.dw)),
        !is_less(worst(d), magnitude(d.dh)),
        worst(d) == magnitude(d.dx) || worst(d) == magnitude(d.dy) || worst(d) == magnitude(d.dw)
            || worst(d) == magnitude(d.dh),
{
    let (a, b, c, e) = (magnitude(d.dx), magnitude(d.dy), magnitude(d.dw), magnitude(d.dh));
    let two = max_real(a, b);
    let three = max_real(two, c);
    larger_is_no_less(a, b);
    larger_is_no_less(two, c);
    larger_is_no_less(three, e);
    no_less_carries(three, two, a);
    no_less_carries(three, two, b);
    no_less_carries(worst(d), three, a);
    no_less_carries(worst(d), three, b);
    no_less_carries(worst(d), three, c);
}

proof fn larger_is_no_less(a: Real, b: Real)
    requires
        !(a is Nan) && !(b is Nan),
    ensures
        !is_less(max_real(a, b), a),
        !is_less(max_real(a, b), b),
        max_real(a, b) == a || max_real(a, b) == b,
{
}

proof fn no_less_carries(a: Real, b: Real, c: Real)
    requires
        is_unsigned(a) && is_unsigned(b) && is_unsigned(c),
        !(a is Nan) && !(b is Nan) && !(c is Nan),
        !is_less(a, b),
        !is_less(b, c),
    ensures
        !is_less(a, c),
{
    order_carries(a, b, c);
}

proof fn twentieth() -> (r: (nat, nat))
    ensures
        rounded(false, 1, 20) matches Real::Fin(s, m, e) && !s && r == (num(m, e), den(e)),
        r.0 > 0,
        r.1 > 0,
        100 * r.1 <= 2001 * r.0,
        1999 * r.0 <= 100 * r.1,
{
    rounding_is_nearest(false, 1, 20);
    rounded_is_canonical(false, 1, 20);
    p2_52();
    p2_adds(52, 1022);
    p2_positive(1022);
    integers_are_finite(1);
    whole_numbers_are_exact(1);
    match of_int(1) {
        Real::Fin(s, m, e) => {
            rounded_at_most_one(m, e);
        },
        _ => {},
    }
    match rounded(false, 1, 20) {
        Real::Fin(_, m, e) => {
            factors_positive(e);
            let (a, b, u) = (num(m, e) as int, den(e) as int, up(e) as int);
            assert(a >= 1000 * u) by {
                if e == least() {
                    assert(p2(1074) >= p2(52)) by (nonlinear_arith)
                        requires
                            p2(1074) == p2(52) * p2(1022),
                            p2(1022) > 0,
                    ;
                    assert(u == 1 && b >= p2(52));
                } else {
                    assert(a >= p2(52) * u) by (nonlinear_arith)
                        requires
                            a == m * u,
                            m >= p2(52),
                            u > 0,
                    ;
                    assert(p2(52) * u >= 1000 * u) by (nonlinear_arith)
                        requires
                            p2(52) >= 1000,
                            u > 0,
                    ;
                }
            }
            (num(m, e), den(e))
        },
        _ => (1, 1),
    }
}

proof fn rounded_at_most_one(m: nat, e: int)
    requires
        of_int(1) == Real::Fin(false, m, e),
        is_worth(of_int(1), 1),
        crate::number::exact::canonical(m, e),
    ensures
        rounded(false, 1, 20) is Fin,
{
    factors_positive(e);
    assert(1 * down(e) <= m * up(e) * 20) by (nonlinear_arith)
        requires
            m * up(e) == down(e),
    ;
    crate::number::exact::rounded_at_most(false, 1, 20, m, e);
}

/// A box is flat where its height, whatever its sign, is below a twentieth: surely
/// up to one in twenty-one, and surely no longer from one in nineteen on. A box
/// without a height is not flat.
pub proof fn flat_boxes_are_below_a_twentieth(b: ElementView)
    ensures
        b.h matches Some(Real::Fin(s, m, e)) ==> {
            &&& 21 * num(m, e) <= den(e) ==> is_flat(b)
            &&& 19 * num(m, e) >= den(e) ==> !is_flat(b)
        },
        b.h is None ==> !is_flat(b),
{
    let (a, d) = twentieth();
    match b.h {
        Some(Real::Fin(s, m, e)) => {
            factors_positive(e);
            let (n, k) = (num(m, e) as int, den(e) as int);
            if 21 * n <= k {
                assert(n * d < a * k) by (nonlinear_arith)
                    requires
                        21 * n <= k,
                        0 <= n,
                        k > 0,
                        a > 0,
                        d > 0,
                        100 * d <= 2001 * a,
                ;
            }
            if 19 * n >= k {
                assert(n * d >= a * k) by (nonlinear_arith)
                    requires
                        19 * n >= k,
                        k > 0,
                        a > 0,
                        d > 0,
                        1999 * a <= 100 * d,
                ;
            }
        },
        _ => {},
    }
}

} // verus!
