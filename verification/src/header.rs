//! The header that files must start with, up to date.

use crate::numeral::{i64_text, int_text};
use crate::text::{contains, has_part, replace, replaced};
use vstd::prelude::*;

verus! {

/// A file that lacks the header or has an old year in it.
#[derive(Debug)]
pub struct HeaderViolation {
    pub file: String,
}

/// Writes a violation as a line.
pub fn format_one(v: &HeaderViolation, expected: &str) -> (r: String)
    ensures
        r@ == v.file@ + ": missing or stale header (expected `"@ + expected@ + "`)"@,
{
    let mut out = v.file.clone();
    out.append(": missing or stale header (expected `");
    out.append(expected);
    out.append("`)");
    out
}

/// The header with the year in place of its placeholder.
pub open spec fn expanded(pattern: Seq<char>, year: int) -> Seq<char> {
    replaced(pattern, "{year}"@, int_text(year))
}

/// Puts the year in the place of `{year}`.
pub fn expand(pattern: &str, year: i32) -> (r: String)
    ensures
        r@ == expanded(pattern@, year as int),
{
    proof {
        reveal_strlit("{year}");
    }
    let digits = i64_text(year as i64);
    replace(pattern, "{year}", digits.as_str())
}

/// A tracked file: whether the paths and the exemptions match it, and what it
/// holds where it could be read.
pub struct TrackedFile {
    pub path: String,
    pub selected: bool,
    pub exempt: bool,
    pub content: Option<String>,
}

/// Whether a file must hold the header, can be read and does not hold it.
pub open spec fn lacks_header(f: TrackedFile, expected: Seq<char>) -> bool {
    f.selected && !f.exempt && (f.content matches Some(c) && !has_part(c@, expected))
}

/// The paths of the files that lack the header, in order.
pub open spec fn lacking(files: Seq<TrackedFile>, expected: Seq<char>) -> Seq<Seq<char>>
    decreases files.len(),
{
    if files.len() == 0 {
        Seq::empty()
    } else if lacks_header(files.last(), expected) {
        lacking(files.drop_last(), expected).push(files.last().path@)
    } else {
        lacking(files.drop_last(), expected)
    }
}

/// The paths of some violations.
pub open spec fn violation_views(v: Seq<HeaderViolation>) -> Seq<Seq<char>> {
    v.map_values(|x: HeaderViolation| x.file@)
}

/// Finds the files that lack the header of the year. Files that cannot be read
/// are passed over.
pub fn scan(files: &[TrackedFile], pattern: &str, year: i32) -> (r: Vec<HeaderViolation>)
    ensures
        violation_views(r@) == lacking(files@, expanded(pattern@, year as int)),
{
    let expected = expand(pattern, year);
    let mut out: Vec<HeaderViolation> = Vec::new();
    let mut i: usize = 0;
    assert(violation_views(out@) =~= lacking(files@.take(0), expected@));
    while i < files.len()
        invariant
            i <= files@.len(),
            violation_views(out@) == lacking(files@.take(i as int), expected@),
        decreases files@.len() - i,
    {
        assert(files@.take(i + 1).drop_last() =~= files@.take(i as int));
        let f = &files[i];
        let ghost before = violation_views(out@);
        if f.selected && !f.exempt {
            match &f.content {
                Some(c) => {
                    if !contains(c.as_str(), expected.as_str()) {
                        let file = f.path.clone();
                        out.push(HeaderViolation { file });
                        assert(violation_views(out@) =~= before.push(f.path@));
                    }
                },
                None => {},
            }
        }
        i += 1;
    }
    assert(files@.take(i as int) =~= files@);
    out
}

/// The files that are reported are those, in order, that must have the header, that
/// can be read, and that do not hold it.
pub proof fn reported_exactly(files: Seq<TrackedFile>, expected: Seq<char>)
    ensures
        lacking(files, expected) == files.filter(
            |f: TrackedFile|
                f.selected && !f.exempt && f.content is Some && !has_part(
                    (f.content->0)@,
                    expected,
                ),
        ).map_values(|f: TrackedFile| f.path@),
    decreases files.len(),
{
    reveal(Seq::filter);
    let g = |f: TrackedFile| f.path@;
    if files.len() > 0 {
        let front = files.drop_last();
        reported_exactly(front, expected);
        let kept = front.filter(
            |f: TrackedFile|
                f.selected && !f.exempt && f.content is Some && !has_part(
                    (f.content->0)@,
                    expected,
                ),
        );
        assert(kept.push(files.last()).map_values(g) =~= kept.map_values(g).push(
            files.last().path@,
        ));
    } else {
        assert(lacking(files, expected) =~= files.map_values(g));
    }
}

/// A file that holds the header anywhere is never reported, and neither is one that
/// is exempt or was not chosen.
pub proof fn header_anywhere_is_enough(
    path: String,
    front: Seq<char>,
    back: Seq<char>,
    content: String,
    expected: Seq<char>,
    selected: bool,
    exempt: bool,
)
    requires
        content@ == front + expected + back,
    ensures
        !lacks_header(TrackedFile { path, selected, exempt, content: Some(content) }, expected),
        !lacks_header(TrackedFile { path, selected, exempt: true, content: Some(content) }, expected),
        !lacks_header(TrackedFile { path, selected: false, exempt, content: Some(content) }, expected),
        !lacks_header(TrackedFile { path, selected, exempt, content: None }, expected),
{
    crate::text::shape::part_stands_between(front, expected, back);
}

/// The year stands in the header where its placeholder does, and nothing else
/// changes.
pub proof fn year_takes_its_place(front: Seq<char>, back: Seq<char>, year: int)
    requires
        !front.contains('{'),
        !has_part(back, "{year}"@),
    ensures
        expanded(front + "{year}"@ + back, year) == front + int_text(year) + back,
        !has_part(back, "{year}"@) ==> expanded(back, year) == back,
{
    reveal_strlit("{year}");
    let p = "{year}"@;
    let s = front + p + back;
    assert(p[0] == '{');
    assert forall|i: int| 0 <= i < front.len() implies !#[trigger] crate::text::occurs_at(s, p, i) by {
        if crate::text::occurs_at(s, p, i) {
            assert(s.subrange(i, i + p.len())[0] == p[0]);
            assert(front[i] == '{');
            assert(front.contains(front[i]));
        }
    }
    crate::text::shape::replacing_is_exact(front, p, int_text(year), back);
}

} // verus!
