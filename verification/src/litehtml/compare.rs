//! Elements of a rendering, box by box, and the verdict on a rendering.

use crate::lockfile::process::{last_char, rfind_char};
use crate::number::arith::{den, difference, is_less, magnitude, num, of_int, product, quotient, sum};
use crate::number::bignat::BigNat;
use crate::number::double::{rounded, Double, Real};
use crate::text::{
    chars_of, contains, has_part, opt_view, same, starts_with, string_of,
};
use vstd::prelude::*;

verus! {

/// The verdict on a rendering.
#[derive(Debug, Clone, Copy, PartialEq, Eq, Structural)]
pub enum Status {
    Pass,
    /// There is nothing approved to compare with yet.
    NoBaseline,
    FailThreshold,
    Regression,
    ExpectedFail,
    Error,
}

impl Status {
    /// The name of the verdict.
    pub open spec fn text(self) -> Seq<char> {
        match self {
            Status::Pass => "PASS"@,
            Status::NoBaseline => "NO_BASELINE"@,
            Status::FailThreshold => "FAIL_THRESHOLD"@,
            Status::Regression => "REGRESSION"@,
            Status::ExpectedFail => "EXPECTED_FAIL"@,
            Status::Error => "ERROR"@,
        }
    }

    /// Names the verdict.
    pub fn as_str(&self) -> (r: &'static str)
        ensures
            r@ == self.text(),
    {
        match self {
            Status::Pass => "PASS",
            Status::NoBaseline => "NO_BASELINE",
            Status::FailThreshold => "FAIL_THRESHOLD",
            Status::Regression => "REGRESSION",
            Status::ExpectedFail => "EXPECTED_FAIL",
            Status::Error => "ERROR",
        }
    }
}

/// The value of an optional number.
pub open spec fn opt_real(x: Option<Double>) -> Option<Real> {
    match x {
        Some(d) => Some(d@),
        None => None,
    }
}

/// One half.
pub open spec fn half() -> Real {
    rounded(false, 1, 2)
}

/// Whether a number is above another, where both are there.
pub open spec fn both_less(a: Option<Real>, b: Option<Real>) -> bool {
    match (a, b) {
        (Some(x), Some(y)) => is_less(x, y),
        _ => false,
    }
}

/// The outcome: first the thresholds, unless failing them is expected; then
/// whether a figure got worse than what was approved by more than one half.
pub open spec fn verdict(
    pixel_diff_pct: Real,
    element_match_pct: Option<Real>,
    pixel_threshold: Real,
    element_threshold: Option<Real>,
    expected_fail: bool,
    approved_pixel: Option<Real>,
    approved_element: Option<Real>,
) -> Status {
    let exceeded = is_less(pixel_threshold, pixel_diff_pct) || both_less(
        element_match_pct,
        element_threshold,
    );
    let pixel_worse = match approved_pixel {
        Some(a) => is_less(sum(a, half()), pixel_diff_pct),
        None => false,
    };
    let element_worse = match (element_match_pct, approved_element) {
        (Some(c), Some(a)) => is_less(c, difference(a, half())),
        _ => false,
    };
    if exceeded {
        if expected_fail {
            Status::ExpectedFail
        } else {
            Status::FailThreshold
        }
    } else if pixel_worse || element_worse {
        Status::Regression
    } else {
        Status::Pass
    }
}

/// Decides the verdict on a rendering.
pub fn determine_status(
    pixel_diff_pct: Double,
    element_match_pct: Option<Double>,
    pixel_threshold: Double,
    element_threshold: Option<Double>,
    expected_fail: bool,
    approved_pixel: Option<Double>,
    approved_element: Option<Double>,
) -> (r: Status)
    ensures
        r == verdict(
            pixel_diff_pct@,
            opt_real(element_match_pct),
            pixel_threshold@,
            opt_real(element_threshold),
            expected_fail,
            opt_real(approved_pixel),
            opt_real(approved_element),
        ),
{
    let below = match (element_match_pct, element_threshold) {
        (Some(m), Some(t)) => m.less(t),
        _ => false,
    };
    if pixel_threshold.less(pixel_diff_pct) || below {
        return if expected_fail {
            Status::ExpectedFail
        } else {
            Status::FailThreshold
        };
    }
    let tolerance = Double::of_ratio(false, &BigNat::from_u64(1), &BigNat::from_u64(2));
    match approved_pixel {
        Some(a) => {
            if a.plus(tolerance).less(pixel_diff_pct) {
                return Status::Regression;
            }
        },
        None => {},
    }
    match (element_match_pct, approved_element) {
        (Some(c), Some(a)) => {
            if c.less(a.minus(tolerance)) {
                return Status::Regression;
            }
        },
        _ => {},
    }
    Status::Pass
}

/// A box of a rendering: where it stands in the document, and its geometry.
#[derive(Debug)]
pub struct LayoutElement {
    pub path: String,
    pub tag: Option<String>,
    pub x: Option<Double>,
    pub y: Option<Double>,
    pub w: Option<Double>,
    pub h: Option<Double>,
}

/// The contents of a [`LayoutElement`].
pub ghost struct ElementView {
    pub path: Seq<char>,
    pub tag: Option<Seq<char>>,
    pub x: Option<Real>,
    pub y: Option<Real>,
    pub w: Option<Real>,
    pub h: Option<Real>,
}

impl View for LayoutElement {
    type V = ElementView;

    open spec fn view(&self) -> ElementView {
        ElementView {
            path: self.path@,
            tag: opt_view(self.tag),
            x: opt_real(self.x),
            y: opt_real(self.y),
            w: opt_real(self.w),
            h: opt_real(self.h),
        }
    }
}

/// The contents of a list of boxes.
pub open spec fn element_views(v: Seq<LayoutElement>) -> Seq<ElementView> {
    v.map_values(|e: LayoutElement| e@)
}

/// Whether a path leads into the head of the document.
pub open spec fn in_head(path: Seq<char>) -> bool {
    has_part(path, "head["@) || path == "html>head"@
}

/// Tests whether a path leads into the head of the document.
pub fn is_head_path(path: &str) -> (r: bool)
    ensures
        r == in_head(path@),
{
    contains(path, "head[") || same(path, "html>head")
}

/// The part of a path behind its last step.
pub open spec fn leaf_of(path: Seq<char>) -> Seq<char> {
    path.skip(last_char(path, '>', path.len() as int) + 1)
}

/// The part of a path in front of its last step, where it has one.
pub open spec fn parent_of(path: Seq<char>) -> Option<Seq<char>> {
    let at = last_char(path, '>', path.len() as int);
    if at < 0 {
        None
    } else {
        Some(path.take(at))
    }
}

/// Whether a box is a line break: by its tag, and where it has none by its path.
pub open spec fn is_break(e: ElementView) -> bool {
    match e.tag {
        Some(tag) => tag == "br"@,
        None => leaf_of(e.path) == "br"@ || "br["@.is_prefix_of(leaf_of(e.path)),
    }
}

fn find_leaf(path: &str) -> (r: String)
    ensures
        r@ == leaf_of(path@),
{
    let cs = chars_of(path);
    let n: usize = cs.len();
    match rfind_char(&cs, '>') {
        Some(at) => {
            let r = string_of(&cs, at + 1, n);
            assert(r@ =~= leaf_of(path@));
            r
        },
        None => {
            assert(path@.skip(0) =~= path@);
            path.to_owned()
        },
    }
}

fn find_parent(path: &str) -> (r: Option<String>)
    ensures
        opt_view(r) == parent_of(path@),
{
    let cs = chars_of(path);
    match rfind_char(&cs, '>') {
        Some(at) => {
            let r = string_of(&cs, 0, at);
            assert(r@ =~= path@.take(at as int));
            Some(r)
        },
        None => None,
    }
}

/// Tests whether a box is a line break.
pub fn is_br(el: &LayoutElement) -> (r: bool)
    ensures
        r == is_break(el@),
{
    match &el.tag {
        Some(t) => same(t.as_str(), "br"),
        None => {
            let leaf = find_leaf(el.path.as_str());
            same(leaf.as_str(), "br") || starts_with(leaf.as_str(), "br[")
        },
    }
}

/// Whether a box counts: it is neither in the head nor a line break.
pub open spec fn counts(e: ElementView) -> bool {
    !in_head(e.path) && !is_break(e)
}

/// The last box that counts and has the path.
pub open spec fn at_path(es: Seq<ElementView>, path: Seq<char>) -> Option<ElementView>
    decreases es.len(),
{
    if es.len() == 0 {
        None
    } else if counts(es.last()) && es.last().path == path {
        Some(es.last())
    } else {
        at_path(es.drop_last(), path)
    }
}

/// The boxes that count, each path once: with its last box.
pub open spec fn by_path(es: Seq<ElementView>) -> Seq<ElementView>
    decreases es.len(),
{
    if es.len() == 0 {
        Seq::empty()
    } else if counts(es.last()) {
        without_path(by_path(es.drop_last()), es.last().path).push(es.last())
    } else {
        by_path(es.drop_last())
    }
}

/// The boxes with other paths.
pub open spec fn without_path(es: Seq<ElementView>, path: Seq<char>) -> Seq<ElementView>
    decreases es.len(),
{
    if es.len() == 0 {
        Seq::empty()
    } else if es.last().path == path {
        without_path(es.drop_last(), path)
    } else {
        without_path(es.drop_last(), path).push(es.last())
    }
}

/// A coordinate seen from the parent's, where both are there.
pub open spec fn relative(child: Option<Real>, parent: Option<Real>) -> Option<Real> {
    match (child, parent) {
        (Some(c), Some(p)) => Some(difference(c, p)),
        _ => None,
    }
}

/// A coordinate seen from the parent's.
pub fn rel(child: Option<Double>, parent: Option<Double>) -> (r: Option<Double>)
    ensures
        opt_real(r) == relative(opt_real(child), opt_real(parent)),
{
    match (child, parent) {
        (Some(c), Some(p)) => Some(c.minus(p)),
        _ => None,
    }
}

/// How far a value is from the reference's: nothing where both are missing,
/// infinitely far where one is.
pub open spec fn distance(reference: Option<Real>, pipeline: Option<Real>) -> Real {
    match (reference, pipeline) {
        (Some(r), Some(p)) => difference(p, r),
        (None, None) => of_int(0),
        _ => Real::Inf(false),
    }
}

/// How far a value is from the reference's.
pub fn delta(reference: Option<Double>, pipeline: Option<Double>) -> (r: Double)
    ensures
        r@ == distance(opt_real(reference), opt_real(pipeline)),
{
    match (reference, pipeline) {
        (Some(r), Some(p)) => p.minus(r),
        (None, None) => Double::of_i64(0),
        _ => Double::infinity(false),
    }
}

/// How far the geometry of a box is from the reference's.
#[derive(Debug, Clone, Copy)]
pub struct GeometryDeltas {
    pub dx: Double,
    pub dy: Double,
    pub dw: Double,
    pub dh: Double,
}

/// The contents of a [`GeometryDeltas`].
pub ghost struct DeltasView {
    pub dx: Real,
    pub dy: Real,
    pub dw: Real,
    pub dh: Real,
}

impl View for GeometryDeltas {
    type V = DeltasView;

    open spec fn view(&self) -> DeltasView {
        DeltasView { dx: self.dx@, dy: self.dy@, dw: self.dw@, dh: self.dh@ }
    }
}

/// Whether the size of a number is within a bound.
pub open spec fn within(x: Real, bound: int) -> bool {
    !(x is Nan) && !is_less(of_int(bound), magnitude(x))
}

/// Whether a box is where it should be and as large as it should be: two
/// pixels for its place, five for its size.
pub open spec fn is_close(d: DeltasView) -> bool {
    within(d.dx, 2) && within(d.dy, 2) && within(d.dw, 5) && within(d.dh, 5)
}

fn fits_within(x: Double, bound: i64) -> (r: bool)
    ensures
        r == within(x@, bound as int),
{
    !x.is_nan() && !Double::of_i64(bound).less(x.abs())
}

impl GeometryDeltas {
    /// Tests whether a box is close enough.
    pub fn within_tolerance(&self) -> (r: bool)
        ensures
            r == is_close(self@),
            r == is_close(
                DeltasView { dx: self.dx@, dy: self.dy@, dw: self.dw@, dh: self.dh@ },
            ),
    {
        fits_within(self.dx, 2) && fits_within(self.dy, 2) && fits_within(self.dw, 5)
            && fits_within(self.dh, 5)
    }
}

/// The frame of a box: its parent on both sides, where both have it.
pub open spec fn frame_of(path: Seq<char>, refs: Seq<ElementView>, pipes: Seq<ElementView>) -> Option<
    (ElementView, ElementView),
> {
    match parent_of(path) {
        Some(pp) => match (at_path(refs, pp), at_path(pipes, pp)) {
            (Some(a), Some(b)) => Some((a, b)),
            _ => None,
        },
        None => None,
    }
}

/// How far a box is from the reference's: its place seen from its parent where
/// both sides have one, its size as it is.
pub open spec fn deltas_of(
    r: ElementView,
    p: ElementView,
    refs: Seq<ElementView>,
    pipes: Seq<ElementView>,
) -> DeltasView {
    match frame_of(r.path, refs, pipes) {
        Some(f) => DeltasView {
            dx: distance(relative(r.x, f.0.x), relative(p.x, f.1.x)),
            dy: distance(relative(r.y, f.0.y), relative(p.y, f.1.y)),
            dw: distance(r.w, p.w),
            dh: distance(r.h, p.h),
        },
        None => DeltasView {
            dx: distance(r.x, p.x),
            dy: distance(r.y, p.y),
            dw: distance(r.w, p.w),
            dh: distance(r.h, p.h),
        },
    }
}

/// The contents of an optional box.
pub open spec fn opt_element(e: Option<&LayoutElement>) -> Option<ElementView> {
    match e {
        Some(x) => Some(x@),
        None => None,
    }
}

fn find_at<'a>(es: &'a [LayoutElement], path: &str) -> (r: Option<&'a LayoutElement>)
    ensures
        opt_element(r) == at_path(element_views(es@), path@),
{
    let ghost all = element_views(es@);
    let mut i: usize = es.len();
    assert(all.take(i as int) =~= all);
    while i > 0
        invariant
            i <= es@.len(),
            all == element_views(es@),
            at_path(all, path@) == at_path(all.take(i as int), path@),
        decreases i,
    {
        let e = &es[i - 1];
        assert(all.take(i as int).last() == e@);
        assert(all.take(i as int).drop_last() =~= all.take(i - 1));
        if !is_head_path(e.path.as_str()) && !is_br(e) && same(e.path.as_str(), path) {
            return Some(e);
        }
        i -= 1;
    }
    None
}

/// Computes how far a box is from the reference's.
pub fn geometry_deltas(
    ref_el: &LayoutElement,
    pipe_el: &LayoutElement,
    reference: &[LayoutElement],
    pipeline: &[LayoutElement],
) -> (r: GeometryDeltas)
    ensures
        r@ == deltas_of(ref_el@, pipe_el@, element_views(reference@), element_views(pipeline@)),
        (DeltasView { dx: r.dx@, dy: r.dy@, dw: r.dw@, dh: r.dh@ }) == deltas_of(
            ref_el@,
            pipe_el@,
            element_views(reference@),
            element_views(pipeline@),
        ),
{
    let frame = match find_parent(ref_el.path.as_str()) {
        Some(pp) => match (find_at(reference, pp.as_str()), find_at(pipeline, pp.as_str())) {
            (Some(a), Some(b)) => Some((a, b)),
            _ => None,
        },
        None => None,
    };
    match frame {
        Some(f) => GeometryDeltas {
            dx: delta(rel(ref_el.x, f.0.x), rel(pipe_el.x, f.1.x)),
            dy: delta(rel(ref_el.y, f.0.y), rel(pipe_el.y, f.1.y)),
            dw: delta(ref_el.w, pipe_el.w),
            dh: delta(ref_el.h, pipe_el.h),
        },
        None => GeometryDeltas {
            dx: delta(ref_el.x, pipe_el.x),
            dy: delta(ref_el.y, pipe_el.y),
            dw: delta(ref_el.w, pipe_el.w),
            dh: delta(ref_el.h, pipe_el.h),
        },
    }
}

/// A box that is not where or as large as it should be.
#[derive(Debug)]
pub struct Offender {
    pub path: String,
    pub dx: Double,
    pub dy: Double,
    pub dw: Double,
    pub dh: Double,
}

/// The contents of an [`Offender`].
pub ghost struct OffenderView {
    pub path: Seq<char>,
    pub deltas: DeltasView,
}

impl View for Offender {
    type V = OffenderView;

    open spec fn view(&self) -> OffenderView {
        OffenderView {
            path: self.path@,
            deltas: DeltasView { dx: self.dx@, dy: self.dy@, dw: self.dw@, dh: self.dh@ },
        }
    }
}

/// The contents of a list of offenders.
pub open spec fn offender_views(v: Seq<Offender>) -> Seq<OffenderView> {
    v.map_values(|o: Offender| o@)
}

/// The larger of two numbers, the other one where one is no number.
pub open spec fn max_real(a: Real, b: Real) -> Real {
    if a is Nan {
        b
    } else if b is Nan {
        a
    } else if is_less(a, b) {
        b
    } else {
        a
    }
}

/// The largest distance of a box.
pub open spec fn worst(d: DeltasView) -> Real {
    max_real(
        max_real(max_real(magnitude(d.dx), magnitude(d.dy)), magnitude(d.dw)),
        magnitude(d.dh),
    )
}

fn larger_of(a: Double, b: Double) -> (r: Double)
    ensures
        r@ == max_real(a@, b@),
{
    if a.is_nan() {
        b
    } else if b.is_nan() {
        a
    } else if a.less(b) {
        b
    } else {
        a
    }
}

impl Offender {
    /// The largest distance of the box.
    pub fn max_delta(&self) -> (r: Double)
        ensures
            r@ == worst(self@.deltas),
    {
        larger_of(
            larger_of(larger_of(self.dx.abs(), self.dy.abs()), self.dw.abs()),
            self.dh.abs(),
        )
    }
}

/// Whether a distance is beyond another; what is no number is beyond all.
pub open spec fn is_beyond(a: Real, b: Real) -> bool {
    if a is Nan {
        !(b is Nan)
    } else {
        is_less(b, a)
    }
}

fn goes_beyond(a: Double, b: Double) -> (r: bool)
    ensures
        r == is_beyond(a@, b@),
{
    if a.is_nan() {
        !b.is_nan()
    } else {
        b.less(a)
    }
}

/// Offenders in order with one more, behind those that are no better.
pub open spec fn ranked_in(s: Seq<OffenderView>, x: OffenderView) -> Seq<OffenderView>
    decreases s.len(),
{
    if s.len() == 0 || !is_beyond(worst(x.deltas), worst(s.last().deltas)) {
        s.push(x)
    } else {
        ranked_in(s.drop_last(), x).push(s.last())
    }
}

/// Whether a box of the reference has no height to speak of.
pub open spec fn is_flat(e: ElementView) -> bool {
    match e.h {
        Some(h) => is_less(magnitude(h), rounded(false, 1, 20)),
        None => false,
    }
}

/// The score of some boxes of the reference: how many count, how many are close,
/// and those that are not, the worst first. A box that the pipeline lacks counts
/// and is neither.
pub ghost struct Score {
    pub scored: nat,
    pub passing: nat,
    pub offenders: Seq<OffenderView>,
}

/// The score with one more box.
pub open spec fn score_with(
    s: Score,
    e: ElementView,
    refs: Seq<ElementView>,
    pipes: Seq<ElementView>,
) -> Score {
    if is_flat(e) {
        s
    } else {
        match at_path(pipes, e.path) {
            None => Score { scored: s.scored + 1, ..s },
            Some(p) => {
                let d = deltas_of(e, p, refs, pipes);
                if is_close(d) {
                    Score { scored: s.scored + 1, passing: s.passing + 1, ..s }
                } else {
                    Score {
                        scored: s.scored + 1,
                        offenders: ranked_in(
                            s.offenders,
                            OffenderView { path: e.path, deltas: d },
                        ),
                        ..s
                    }
                }
            },
        }
    }
}

/// The score of some boxes.
pub open spec fn score_of(
    es: Seq<ElementView>,
    refs: Seq<ElementView>,
    pipes: Seq<ElementView>,
) -> Score
    decreases es.len(),
{
    if es.len() == 0 {
        Score { scored: 0, passing: 0, offenders: Seq::empty() }
    } else {
        score_with(score_of(es.drop_last(), refs, pipes), es.last(), refs, pipes)
    }
}

/// The part that is close, in per cent; everything where nothing counts.
pub open spec fn match_percentage(passing: nat, scored: nat) -> Real {
    if scored == 0 {
        of_int(100)
    } else {
        product(quotient(rounded(false, passing, 1), rounded(false, scored, 1)), of_int(100))
    }
}

/// How well a rendering matches its reference.
#[derive(Debug)]
pub struct ElementMatchResult {
    pub match_pct: Double,
    pub total_elements: usize,
    pub passing_elements: usize,
    pub offenders: Vec<Offender>,
}

/// The boxes of borrowed elements.
pub open spec fn ref_views(v: Seq<&LayoutElement>) -> Seq<ElementView> {
    v.map_values(|e: &LayoutElement| e@)
}

fn drop_path<'a>(es: Vec<&'a LayoutElement>, path: &str) -> (r: Vec<&'a LayoutElement>)
    ensures
        ref_views(r@) == without_path(ref_views(es@), path@),
        r@.len() <= es@.len(),
{
    let ghost all = ref_views(es@);
    let mut out: Vec<&'a LayoutElement> = Vec::new();
    let mut i: usize = 0;
    assert(ref_views(out@) =~= without_path(all.take(0), path@));
    while i < es.len()
        invariant
            i <= es@.len(),
            out@.len() <= i,
            all == ref_views(es@),
            ref_views(out@) == without_path(all.take(i as int), path@),
        decreases es@.len() - i,
    {
        let e = es[i];
        assert(all.take(i + 1).drop_last() =~= all.take(i as int));
        assert(all[i as int] == e@);
        let ghost before = ref_views(out@);
        if !same(e.path.as_str(), path) {
            out.push(e);
            assert(ref_views(out@) =~= before.push(e@));
        }
        i += 1;
    }
    assert(all.take(i as int) =~= all);
    out
}

fn select_by_path<'a>(es: &'a [LayoutElement]) -> (r: Vec<&'a LayoutElement>)
    ensures
        ref_views(r@) == by_path(element_views(es@)),
        r@.len() <= es@.len(),
{
    let ghost all = element_views(es@);
    let mut out: Vec<&'a LayoutElement> = Vec::new();
    let mut i: usize = 0;
    assert(ref_views(out@) =~= by_path(all.take(0)));
    while i < es.len()
        invariant
            i <= es@.len(),
            out@.len() <= i,
            all == element_views(es@),
            ref_views(out@) == by_path(all.take(i as int)),
        decreases es@.len() - i,
    {
        let e = &es[i];
        assert(all.take(i + 1).drop_last() =~= all.take(i as int));
        assert(all[i as int] == e@);
        if !is_head_path(e.path.as_str()) && !is_br(e) {
            let mut rest = drop_path(out, e.path.as_str());
            let ghost before = ref_views(rest@);
            rest.push(e);
            assert(ref_views(rest@) =~= before.push(e@));
            out = rest;
        }
        i += 1;
    }
    assert(all.take(i as int) =~= all);
    out
}

proof fn ranked_at(s: Seq<OffenderView>, x: OffenderView, p: int)
    requires
        0 <= p <= s.len(),
        p > 0 ==> !is_beyond(worst(x.deltas), worst(s[p - 1].deltas)),
        forall|k: int|
            p <= k < s.len() ==> is_beyond(worst(x.deltas), worst((#[trigger] s[k]).deltas)),
    ensures
        ranked_in(s, x) == s.insert(p, x),
    decreases s.len(),
{
    if p == s.len() {
        assert(s.insert(p, x) =~= s.push(x));
    } else {
        assert(is_beyond(worst(x.deltas), worst(s[s.len() - 1].deltas)));
        let front = s.drop_last();
        assert forall|k: int| p <= k < front.len() implies is_beyond(
            worst(x.deltas),
            worst((#[trigger] front[k]).deltas),
        ) by {
            assert(front[k] == s[k]);
        }
        ranked_at(front, x, p);
        assert(s.insert(p, x) =~= front.insert(p, x).push(s.last()));
    }
}

fn insert_offender(out: &mut Vec<Offender>, o: Offender)
    ensures
        offender_views(final(out)@) == ranked_in(offender_views(old(out)@), o@),
{
    let ghost s = offender_views(out@);
    let own = o.max_delta();
    let mut p: usize = out.len();
    while p > 0 && goes_beyond(own, out[p - 1].max_delta())
        invariant
            p <= out@.len(),
            *out == *old(out),
            s == offender_views(out@),
            own@ == worst(o@.deltas),
            forall|k: int|
                p <= k < s.len() ==> is_beyond(worst(o@.deltas), worst((#[trigger] s[k]).deltas)),
        decreases p,
    {
        assert(s[p - 1] == out@[p - 1]@);
        p -= 1;
    }
    proof {
        if p > 0 {
            assert(s[p - 1] == out@[p - 1]@);
        }
        ranked_at(s, o@, p as int);
    }
    let ghost x = o@;
    out.insert(p, o);
    assert(offender_views(out@) =~= s.insert(p as int, x));
}

/// Scores one box: whether it counts, and whether it is close.
fn score_element(
    e: &LayoutElement,
    reference: &[LayoutElement],
    pipeline: &[LayoutElement],
    flat: Double,
    offenders: &mut Vec<Offender>,
    Ghost(scored): Ghost<nat>,
    Ghost(passing): Ghost<nat>,
) -> (r: (bool, bool))
    requires
        flat@ == rounded(false, 1, 20),
    ensures
        r.1 ==> r.0,
        score_with(
            Score { scored, passing, offenders: offender_views(old(offenders)@) },
            e@,
            element_views(reference@),
            element_views(pipeline@),
        ) == (Score {
            scored: scored + if r.0 {
                1nat
            } else {
                0nat
            },
            passing: passing + if r.1 {
                1nat
            } else {
                0nat
            },
            offenders: offender_views(final(offenders)@),
        }),
{
    let skip = match e.h {
        Some(h) => h.abs().less(flat),
        None => false,
    };
    assert(skip == is_flat(e@));
    if skip {
        return (false, false);
    }
    match find_at(pipeline, e.path.as_str()) {
        Some(p) => {
            let d = geometry_deltas(e, p, reference, pipeline);
            if d.within_tolerance() {
                return (true, true);
            }
            let o = Offender { path: e.path.clone(), dx: d.dx, dy: d.dy, dw: d.dw, dh: d.dh };
            assert(o@ == (OffenderView { path: e@.path, deltas: d@ }));
            insert_offender(offenders, o);
            (true, false)
        },
        None => (true, false),
    }
}

/// Whether a match result is a score.
pub open spec fn is_score(r: ElementMatchResult, s: Score) -> bool {
    &&& r.total_elements == s.scored
    &&& r.passing_elements == s.passing
    &&& offender_views(r.offenders@) == s.offenders
    &&& r.match_pct@ == match_percentage(s.passing, s.scored)
}

/// Compares the boxes of a rendering with those of its reference.
pub fn compare_element_sets(pipeline_elems: &[LayoutElement], reference_elems: &[LayoutElement]) -> (r:
    ElementMatchResult)
    ensures
        is_score(
            r,
            score_of(
                by_path(element_views(reference_elems@)),
                element_views(reference_elems@),
                element_views(pipeline_elems@),
            ),
        ),
        ({
            let refs = element_views(reference_elems@);
            let s = score_of(by_path(refs), refs, element_views(pipeline_elems@));
            &&& r.total_elements == s.scored
            &&& r.passing_elements == s.passing
            &&& r.offenders@.len() == s.offenders.len()
            &&& r.match_pct@ == match_percentage(s.passing, s.scored)
            &&& forall|i: int|
                0 <= i < r.offenders@.len() ==> {
                    let o = #[trigger] r.offenders@[i];
                    &&& o.path@ == s.offenders[i].path
                    &&& o.dx@ == s.offenders[i].deltas.dx
                    &&& o.dy@ == s.offenders[i].deltas.dy
                    &&& o.dw@ == s.offenders[i].deltas.dw
                    &&& o.dh@ == s.offenders[i].deltas.dh
                }
        }),
{
    let ghost refs = element_views(reference_elems@);
    let ghost pipes = element_views(pipeline_elems@);
    let chosen = select_by_path(reference_elems);
    let ghost all = by_path(refs);
    let flat = Double::of_ratio(false, &BigNat::from_u64(1), &BigNat::from_u64(20));
    let mut scored: usize = 0;
    let mut passing: usize = 0;
    let mut offenders: Vec<Offender> = Vec::new();
    let mut i: usize = 0;
    assert(offender_views(offenders@) =~= Seq::empty());
    while i < chosen.len()
        invariant
            i <= chosen@.len(),
            passing <= scored <= i,
            refs == element_views(reference_elems@),
            pipes == element_views(pipeline_elems@),
            ref_views(chosen@) == all,
            flat@ == rounded(false, 1, 20),
            score_of(all.take(i as int), refs, pipes) == (Score {
                scored: scored as nat,
                passing: passing as nat,
                offenders: offender_views(offenders@),
            }),
        decreases chosen@.len() - i,
    {
        let e = chosen[i];
        assert(all.take(i + 1).drop_last() =~= all.take(i as int));
        assert(all[i as int] == e@);
        let (counted, close) = score_element(
            e,
            reference_elems,
            pipeline_elems,
            flat,
            &mut offenders,
            Ghost(scored as nat),
            Ghost(passing as nat),
        );
        if counted {
            scored += 1;
        }
        if close {
            passing += 1;
        }
        i += 1;
    }
    assert(all.take(i as int) =~= all);
    let match_pct = if scored == 0 {
        Double::of_i64(100)
    } else {
        Double::of_u64(passing as u64).over(Double::of_u64(scored as u64)).times(
            Double::of_i64(100),
        )
    };
    assert forall|k: int| 0 <= k < offenders@.len() implies offender_views(offenders@)[k]
        == #[trigger] offenders@[k]@ by {}
    ElementMatchResult {
        match_pct,
        total_elements: scored,
        passing_elements: passing,
        offenders,
    }
}

/// No more boxes are close than count, and those that are not close are among
/// the rest.
pub proof fn score_adds_up(es: Seq<ElementView>, refs: Seq<ElementView>, pipes: Seq<ElementView>)
    ensures
        score_of(es, refs, pipes).passing + score_of(es, refs, pipes).offenders.len() <= score_of(
            es,
            refs,
            pipes,
        ).scored,
        score_of(es, refs, pipes).scored <= es.len(),
    decreases es.len(),
{
    if es.len() > 0 {
        score_adds_up(es.drop_last(), refs, pipes);
        let before = score_of(es.drop_last(), refs, pipes);
        match at_path(pipes, es.last().path) {
            Some(p) => {
                ranked_len(
                    before.offenders,
                    OffenderView {
                        path: es.last().path,
                        deltas: deltas_of(es.last(), p, refs, pipes),
                    },
                );
            },
            None => {},
        }
    }
}

pub(crate) proof fn ranked_len(s: Seq<OffenderView>, x: OffenderView)
    ensures
        ranked_in(s, x).len() == s.len() + 1,
    decreases s.len(),
{
    if s.len() > 0 && is_beyond(worst(x.deltas), worst(s.last().deltas)) {
        ranked_len(s.drop_last(), x);
    }
}

/// Whether a number has no minus sign.
pub(crate) open spec fn is_unsigned(a: Real) -> bool {
    match a {
        Real::Nan => true,
        Real::Inf(s) => !s,
        Real::Fin(s, m, e) => !s,
    }
}

proof fn ratios_carry(a: nat, da: nat, b: nat, db: nat, c: nat, dc: nat)
    requires
        a * db >= b * da,
        b * dc >= c * db,
        db > 0,
    ensures
        a * dc >= c * da,
{
    let x = a * dc;
    let y = c * da;
    assert(x * db == (a * db) * dc) by (nonlinear_arith)
        requires
            x == a * dc,
    ;
    assert((a * db) * dc >= (b * da) * dc) by (nonlinear_arith)
        requires
            a * db >= b * da,
    ;
    assert((b * da) * dc == (b * dc) * da) by (nonlinear_arith);
    assert((b * dc) * da >= (c * db) * da) by (nonlinear_arith)
        requires
            b * dc >= c * db,
    ;
    assert((c * db) * da == y * db) by (nonlinear_arith)
        requires
            y == c * da,
    ;
    assert(x >= y) by (nonlinear_arith)
        requires
            x * db >= y * db,
            db > 0,
    ;
}

pub(crate) proof fn order_carries(a: Real, b: Real, c: Real)
    requires
        is_unsigned(a),
        is_unsigned(b),
        is_unsigned(c),
        !is_beyond(b, a),
        !is_beyond(c, b),
    ensures
        !is_beyond(c, a),
{
    match (a, b, c) {
        (Real::Fin(_, m, e), Real::Fin(_, n, f), Real::Fin(_, k, g)) => {
            crate::number::exact::factors_positive(f);
            ratios_carry(num(m, e), den(e), num(n, f), den(f), num(k, g), den(g));
        },
        _ => {},
    }
}

/// Whether each offender is at least as bad as those behind it.
pub open spec fn worst_first(s: Seq<OffenderView>) -> bool {
    forall|i: int, j: int|
        0 <= i <= j < s.len() ==> !is_beyond(
            worst((#[trigger] s[j]).deltas),
            worst((#[trigger] s[i]).deltas),
        )
}

proof fn ranked_stays_ordered(s: Seq<OffenderView>, x: OffenderView)
    requires
        worst_first(s),
    ensures
        worst_first(ranked_in(s, x)),
        ranked_in(s, x).len() == s.len() + 1,
        forall|k: int|
            0 <= k < s.len() + 1 ==> (#[trigger] ranked_in(s, x)[k]) == x || (s.len() > 0
                && !is_beyond(worst(s.last().deltas), worst(ranked_in(s, x)[k].deltas))),
    decreases s.len(),
{
    let all = ranked_in(s, x);
    let w = worst(x.deltas);
    if s.len() == 0 || !is_beyond(w, worst(s.last().deltas)) {
        assert forall|i: int, j: int| 0 <= i <= j < all.len() implies !is_beyond(
            worst((#[trigger] all[j]).deltas),
            worst((#[trigger] all[i]).deltas),
        ) by {
            if j < s.len() {
                assert(all[i] == s[i] && all[j] == s[j]);
            } else if i < s.len() {
                assert(all[i] == s[i]);
                assert(!is_beyond(worst(s[s.len() - 1].deltas), worst(s[i].deltas)));
                order_carries(worst(s[i].deltas), worst(s.last().deltas), w);
            }
        }
        assert forall|k: int| 0 <= k < s.len() + 1 implies (#[trigger] all[k]) == x || (s.len() > 0
            && !is_beyond(worst(s.last().deltas), worst(all[k].deltas))) by {
            if k < s.len() {
                assert(all[k] == s[k]);
                assert(!is_beyond(worst(s[s.len() - 1].deltas), worst(s[k].deltas)));
            }
        }
    } else {
        let front = s.drop_last();
        let rest = ranked_in(front, x);
        let last = s.last();
        assert forall|i: int, j: int| 0 <= i <= j < front.len() implies !is_beyond(
            worst((#[trigger] front[j]).deltas),
            worst((#[trigger] front[i]).deltas),
        ) by {
            assert(front[i] == s[i] && front[j] == s[j]);
        }
        ranked_stays_ordered(front, x);
        assert forall|k: int| 0 <= k < rest.len() implies !is_beyond(
            worst(last.deltas),
            worst((#[trigger] rest[k]).deltas),
        ) by {
            if rest[k] != x {
                assert(front.len() > 0);
                assert(!is_beyond(worst(front.last().deltas), worst(rest[k].deltas)));
                assert(!is_beyond(worst(s[s.len() - 1].deltas), worst(s[s.len() - 2].deltas)));
                assert(front.last() == s[s.len() - 2]);
                order_carries(worst(rest[k].deltas), worst(front.last().deltas), worst(last.deltas));
            }
        }
        assert forall|i: int, j: int| 0 <= i <= j < all.len() implies !is_beyond(
            worst((#[trigger] all[j]).deltas),
            worst((#[trigger] all[i]).deltas),
        ) by {
            if j < rest.len() {
                assert(all[i] == rest[i] && all[j] == rest[j]);
            } else if i < rest.len() {
                assert(all[i] == rest[i]);
            }
        }
        assert forall|k: int| 0 <= k < s.len() + 1 implies (#[trigger] all[k]) == x || (s.len() > 0
            && !is_beyond(worst(s.last().deltas), worst(all[k].deltas))) by {
            if k < rest.len() {
                assert(all[k] == rest[k]);
            }
        }
    }
}

/// The boxes that are not close are listed the worst first.
pub proof fn offenders_come_worst_first(
    es: Seq<ElementView>,
    refs: Seq<ElementView>,
    pipes: Seq<ElementView>,
)
    ensures
        worst_first(score_of(es, refs, pipes).offenders),
    decreases es.len(),
{
    if es.len() > 0 {
        offenders_come_worst_first(es.drop_last(), refs, pipes);
        match at_path(pipes, es.last().path) {
            Some(p) => {
                ranked_stays_ordered(
                    score_of(es.drop_last(), refs, pipes).offenders,
                    OffenderView {
                        path: es.last().path,
                        deltas: deltas_of(es.last(), p, refs, pipes),
                    },
                );
            },
            None => {},
        }
    }
}

} // verus!
