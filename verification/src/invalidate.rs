//! Deleting stored results and profiles by a prefix.

use crate::error::{DevError, ErrorView};
use crate::manifest::{comes_before, text_before};
use crate::numeral::{i64_text, int_text, nat_text, usize_text};
use crate::text::{byte_count, byte_len, chars_of, same, string_of, views};
use vstd::prelude::*;

pub mod shown;

verus! {

/// What the rows to delete are found by.
#[derive(Debug)]
pub enum Selector {
    Uuid(String),
    Commit(String),
}

/// The first decision: whether there is anything to look through, and by what.
#[derive(Debug)]
pub enum Start {
    /// No database is there; this is said, and nothing more is done.
    Nothing(&'static str),
    Search(Selector),
}

/// The prefix that a selector holds, in the words of a message.
pub open spec fn descriptor_text(s: Selector) -> Seq<char> {
    match s {
        Selector::Uuid(u) => "uuid prefix '"@ + u@ + "'"@,
        Selector::Commit(c) => "commit prefix '"@ + c@ + "'"@,
    }
}

/// Describes a selector.
pub fn descriptor(s: &Selector) -> (r: String)
    ensures
        r@ == descriptor_text(*s),
{
    let mut out = match s {
        Selector::Uuid(_) => "uuid prefix '".to_owned(),
        Selector::Commit(_) => "commit prefix '".to_owned(),
    };
    match s {
        Selector::Uuid(u) => {
            out.append(u.as_str());
        },
        Selector::Commit(c) => {
            out.append(c.as_str());
        },
    }
    out.append("'");
    out
}

/// Decides what to look for. The databases come first; a prefix of an identifier
/// goes before one of a commit.
pub fn start(
    has_results: bool,
    has_sidecar: bool,
    uuid_prefix: Option<&str>,
    commit_prefix: Option<&str>,
) -> (r: Result<Start, DevError>)
    ensures
        !has_results && !has_sidecar ==> (r matches Ok(Start::Nothing(m)) && m@
            == "no results.db or sidecar.db found - nothing to invalidate"@),
        has_results || has_sidecar ==> match (uuid_prefix, commit_prefix) {
            (Some(u), _) => r matches Ok(Start::Search(Selector::Uuid(t))) && t@ == u@,
            (None, Some(c)) => r matches Ok(Start::Search(Selector::Commit(t))) && t@ == c@,
            (None, None) => r matches Err(e) && e@ == ErrorView::Config(
                "invalidate: supply a UUID prefix or --commit <hash>"@,
            ),
        },
{
    if !has_results && !has_sidecar {
        return Ok(Start::Nothing("no results.db or sidecar.db found - nothing to invalidate"));
    }
    match (uuid_prefix, commit_prefix) {
        (Some(u), _) => Ok(Start::Search(Selector::Uuid(u.to_owned()))),
        (None, Some(c)) => Ok(Start::Search(Selector::Commit(c.to_owned()))),
        (None, None) => Err(
            DevError::Config("invalidate: supply a UUID prefix or --commit <hash>".to_owned()),
        ),
    }
}

/// Whether each text comes before the next.
pub open spec fn strictly_ascending(s: Seq<Seq<char>>) -> bool {
    forall|i: int, j: int| 0 <= i < j < s.len() ==> comes_before(#[trigger] s[i], #[trigger] s[j])
}

/// No text comes before itself.
pub proof fn before_is_strict(a: Seq<char>)
    ensures
        !comes_before(a, a),
    decreases a.len(),
{
    if a.len() > 0 {
        before_is_strict(a.skip(1));
    }
}

/// Of two texts that differ one comes before the other.
pub proof fn before_is_total(a: Seq<char>, b: Seq<char>)
    ensures
        a == b || comes_before(a, b) || comes_before(b, a),
    decreases a.len(),
{
    if a.len() > 0 && b.len() > 0 && a[0] == b[0] {
        before_is_total(a.skip(1), b.skip(1));
        if a.skip(1) == b.skip(1) {
            assert(a =~= seq![a[0]] + a.skip(1));
            assert(b =~= seq![b[0]] + b.skip(1));
        }
    } else if a.len() == 0 && b.len() == 0 {
        assert(a =~= b);
    }
}

/// The order of texts carries over.
pub proof fn before_carries(a: Seq<char>, b: Seq<char>, c: Seq<char>)
    requires
        comes_before(a, b),
        comes_before(b, c),
    ensures
        comes_before(a, c),
    decreases a.len(),
{
    if a.len() > 0 && a[0] == b[0] && b[0] == c[0] {
        before_carries(a.skip(1), b.skip(1), c.skip(1));
    }
}

/// Whether a list holds the text.
pub open spec fn holds(s: Seq<Seq<char>>, x: Seq<char>) -> bool {
    exists|i: int| 0 <= i < s.len() && #[trigger] s[i] == x
}

fn insert_sorted(out: &mut Vec<String>, x: &str)
    requires
        strictly_ascending(views(old(out)@)),
    ensures
        strictly_ascending(views(final(out)@)),
        forall|y: Seq<char>|
            #[trigger] holds(views(final(out)@), y) <==> holds(views(old(out)@), y) || y == x@,
{
    let ghost before = views(out@);
    let mut p: usize = out.len();
    while p > 0 && !text_before(out[p - 1].as_str(), x)
        invariant
            p <= out@.len(),
            out@ == old(out)@,
            before == views(out@),
            strictly_ascending(before),
            forall|k: int| p <= k < before.len() ==> comes_before(x@, #[trigger] before[k]),
        decreases p,
    {
        assert(before[p - 1] == out@[p - 1]@);
        if same(out[p - 1].as_str(), x) {
            assert(before[p - 1] == x@);
            return ;
        }
        proof {
            before_is_total(before[p - 1], x@);
        }
        p -= 1;
    }
    out.insert(p, x.to_owned());
    let ghost after = views(out@);
    proof {
        assert(after =~= before.insert(p as int, x@));
        if p > 0 {
            assert(comes_before(before[p - 1], x@));
        }
        assert forall|i: int, j: int| 0 <= i < j < after.len() implies comes_before(
            #[trigger] after[i],
            #[trigger] after[j],
        ) by {
            let bi = if i < p {
                i
            } else {
                i - 1
            };
            let bj = if j < p {
                j
            } else {
                j - 1
            };
            if i == p {
                assert(after[j] == before[j - 1]);
            } else if j == p {
                assert(after[i] == before[i]);
                if i < p - 1 {
                    assert(comes_before(before[i], before[p - 1]));
                    before_carries(before[i], before[p - 1], x@);
                }
            } else {
                assert(after[i] == before[bi] && after[j] == before[bj]);
            }
        }
        assert forall|y: Seq<char>| #[trigger] holds(after, y) <==> holds(before, y) || y == x@ by {
            if holds(before, y) {
                let i = choose|i: int| 0 <= i < before.len() && #[trigger] before[i] == y;
                if i < p {
                    assert(after[i] == y);
                } else {
                    assert(after[i + 1] == y);
                }
            }
            if y == x@ {
                assert(after[p as int] == y);
            }
            if holds(after, y) {
                let i = choose|i: int| 0 <= i < after.len() && #[trigger] after[i] == y;
                if i < p {
                    assert(before[i] == y);
                } else if i > p {
                    assert(before[i - 1] == y);
                }
            }
        }
    }
}

/// Whether a text is meant by the rows that were found: a row without an
/// identifier is passed over where rows were found by commit.
pub open spec fn is_target(
    selector: Selector,
    results: Seq<Seq<char>>,
    sidecar: Seq<Seq<char>>,
    x: Seq<char>,
) -> bool {
    (holds(results, x) && (selector is Commit ==> x.len() > 0)) || holds(sidecar, x)
}

/// Collects the identifiers of the rows that were found in both databases, each
/// once and in order.
pub fn collect(selector: &Selector, results: &[String], sidecar: &[String]) -> (r: Vec<String>)
    ensures
        strictly_ascending(views(r@)),
        forall|x: Seq<char>|
            #[trigger] holds(views(r@), x) <==> is_target(
                *selector,
                views(results@),
                views(sidecar@),
                x,
            ),
{
    let by_commit = matches!(selector, Selector::Commit(_));
    let mut out: Vec<String> = Vec::new();
    let mut i: usize = 0;
    let ghost rows = views(results@);
    let ghost profiles = views(sidecar@);
    assert(views(out@) =~= Seq::empty());
    while i < results.len()
        invariant
            i <= results@.len(),
            rows == views(results@),
            by_commit == (selector is Commit),
            strictly_ascending(views(out@)),
            forall|x: Seq<char>|
                #[trigger] holds(views(out@), x) <==> holds(rows.take(i as int), x) && (by_commit
                    ==> x.len() > 0),
        decreases results@.len() - i,
    {
        let ghost before = views(out@);
        proof {
            assert forall|x: Seq<char>| #[trigger] holds(rows.take(i + 1), x) <==> holds(
                rows.take(i as int),
                x,
            ) || x == rows[i as int] by {
                held_by_longer(rows, i as int, x);
            }
        }
        if !by_commit || results[i].as_str().unicode_len() > 0 {
            insert_sorted(&mut out, results[i].as_str());
        }
        i += 1;
    }
    assert(rows.take(i as int) =~= rows);
    let ghost first = views(out@);
    i = 0;
    while i < sidecar.len()
        invariant
            i <= sidecar@.len(),
            profiles == views(sidecar@),
            strictly_ascending(views(out@)),
            forall|x: Seq<char>|
                #[trigger] holds(views(out@), x) <==> holds(first, x) || holds(
                    profiles.take(i as int),
                    x,
                ),
        decreases sidecar@.len() - i,
    {
        proof {
            assert forall|x: Seq<char>| #[trigger] holds(profiles.take(i + 1), x) <==> holds(
                profiles.take(i as int),
                x,
            ) || x == profiles[i as int] by {
                held_by_longer(profiles, i as int, x);
            }
        }
        insert_sorted(&mut out, sidecar[i].as_str());
        i += 1;
    }
    assert(profiles.take(i as int) =~= profiles);
    out
}

proof fn held_by_longer(s: Seq<Seq<char>>, i: int, x: Seq<char>)
    requires
        0 <= i < s.len(),
    ensures
        holds(s.take(i + 1), x) <==> holds(s.take(i), x) || x == s[i],
{
    let long = s.take(i + 1);
    let short = s.take(i);
    if holds(long, x) {
        let k = choose|k: int| 0 <= k < long.len() && #[trigger] long[k] == x;
        if k < i {
            assert(short[k] == x);
        }
    }
    if holds(short, x) {
        let k = choose|k: int| 0 <= k < short.len() && #[trigger] short[k] == x;
        assert(long[k] == x);
    }
    assert(long[i] == s[i]);
}

/// Two lists in strict order that hold the same texts are equal: the targets are
/// determined by the rows that were found.
pub proof fn targets_are_determined(a: Seq<Seq<char>>, b: Seq<Seq<char>>)
    requires
        strictly_ascending(a),
        strictly_ascending(b),
        forall|x: Seq<char>| holds(a, x) <==> holds(b, x),
    ensures
        a == b,
    decreases a.len(),
{
    if a.len() == 0 {
        if b.len() > 0 {
            assert(holds(b, b[0]));
        }
        assert(a =~= b);
    } else {
        assert(holds(a, a[0]));
        assert(b.len() > 0);
        assert(holds(b, b[0]));
        first_is_least(a, b[0]);
        first_is_least(b, a[0]);
        if a[0] != b[0] {
            before_carries(a[0], b[0], a[0]);
            before_is_strict(a[0]);
        }
        assert forall|x: Seq<char>| holds(a.skip(1), x) <==> holds(b.skip(1), x) by {
            held_by_rest(a, x);
            held_by_rest(b, x);
        }
        assert(strictly_ascending(a.skip(1)));
        assert(strictly_ascending(b.skip(1)));
        targets_are_determined(a.skip(1), b.skip(1));
        assert(a =~= seq![a[0]] + a.skip(1));
        assert(b =~= seq![b[0]] + b.skip(1));
    }
}

proof fn first_is_least(s: Seq<Seq<char>>, x: Seq<char>)
    requires
        strictly_ascending(s),
        holds(s, x),
    ensures
        s[0] == x || comes_before(s[0], x),
{
    let i = choose|i: int| 0 <= i < s.len() && #[trigger] s[i] == x;
    if i > 0 {
        assert(comes_before(s[0], s[i]));
    }
}

proof fn held_by_rest(s: Seq<Seq<char>>, x: Seq<char>)
    requires
        strictly_ascending(s),
        s.len() > 0,
    ensures
        holds(s.skip(1), x) <==> holds(s, x) && x != s[0],
{
    if holds(s.skip(1), x) {
        let i = choose|i: int| 0 <= i < s.skip(1).len() && #[trigger] s.skip(1)[i] == x;
        assert(s[i + 1] == x);
        assert(comes_before(s[0], s[i + 1]));
        before_is_strict(x);
    }
    if holds(s, x) && x != s[0] {
        let i = choose|i: int| 0 <= i < s.len() && #[trigger] s[i] == x;
        assert(s.skip(1)[i - 1] == x);
    }
}

/// How many characters of a text eight bytes hold, from the first `i` on.
pub open spec fn short_len(s: Seq<char>, i: int) -> int
    decreases s.len() - i,
{
    if i >= s.len() || byte_len(s.take(i + 1)) > 8 {
        i
    } else {
        short_len(s, i + 1)
    }
}

/// As much of the start of a text as eight bytes hold.
pub open spec fn short_text(s: Seq<char>) -> Seq<char> {
    s.take(short_len(s, 0))
}

/// The start of an identifier, as it is shown.
pub fn short_uuid(uuid: &str) -> (r: String)
    ensures
        r@ == short_text(uuid@),
{
    let cs = chars_of(uuid);
    let mut r = String::new();
    let mut i: usize = 0;
    assert(r@ =~= uuid@.take(0));
    while i < cs.len()
        invariant
            i <= cs@.len(),
            cs@ == uuid@,
            r@ == uuid@.take(i as int),
            short_len(uuid@, 0) == short_len(uuid@, i as int),
        decreases cs@.len() - i,
    {
        let next = string_of(&cs, 0, i + 1);
        assert(next@ =~= uuid@.take(i + 1));
        if byte_count(next.as_str()) > 8 {
            return r;
        }
        r = next;
        i += 1;
    }
    r
}

/// What is stored of a run, as far as the preview shows it.
#[derive(Debug)]
pub struct StoredRow {
    pub commit: String,
    pub command: String,
    pub mode: String,
    pub elapsed_ms: i64,
}

/// The first characters of a text, at most so many.
pub open spec fn first_chars(s: Seq<char>, n: int) -> Seq<char> {
    if s.len() <= n {
        s
    } else {
        s.take(n)
    }
}

/// What the preview says of a run.
pub open spec fn detail_text(row: Option<&StoredRow>) -> Seq<char> {
    match row {
        Some(row) => first_chars(row.commit@, 8) + " "@ + row.command@ + " "@ + (if row.mode@.len()
            == 0 {
            "-"@
        } else {
            row.mode@
        }) + " (elapsed "@ + int_text(row.elapsed_ms as int) + "ms)"@,
        None => "(sidecar-only, no results row)"@,
    }
}

/// A line of the preview: the identifier, what is stored, and whether there is a
/// profile.
pub fn preview_line(uuid: &str, row: Option<&StoredRow>, sidecar: bool) -> (r: String)
    ensures
        r@ == "  "@ + short_text(uuid@) + "  "@ + detail_text(row) + (if sidecar {
            " [+sidecar]"@
        } else {
            Seq::empty()
        }),
{
    let mut out = "  ".to_owned();
    out.append(short_uuid(uuid).as_str());
    out.append("  ");
    match row {
        Some(row) => {
            let cs = chars_of(row.commit.as_str());
            let n: usize = if cs.len() < 8 {
                cs.len()
            } else {
                8
            };
            let commit = string_of(&cs, 0, n);
            assert(commit@ =~= first_chars(row.commit@, 8));
            let mut detail = commit;
            detail.append(" ");
            detail.append(row.command.as_str());
            detail.append(" ");
            if row.mode.as_str().unicode_len() == 0 {
                detail.append("-");
            } else {
                detail.append(row.mode.as_str());
            }
            detail.append(" (elapsed ");
            detail.append(i64_text(row.elapsed_ms).as_str());
            detail.append("ms)");
            out.append(detail.as_str());
        },
        None => {
            out.append("(sidecar-only, no results row)");
        },
    }
    let ghost body = out@;
    if sidecar {
        out.append(" [+sidecar]");
    } else {
        assert(body =~= body + Seq::<char>::empty());
    }
    out
}

/// The line above the preview.
pub fn preview_head(count: usize, descriptor: &str) -> (r: String)
    ensures
        r@ == nat_text(count as nat) + " UUID(s) match "@ + descriptor@ + ":"@,
{
    let mut out = usize_text(count);
    out.append(" UUID(s) match ");
    out.append(descriptor);
    out.append(":");
    out
}

/// What is done with the targets.
#[derive(Debug)]
pub enum Verdict {
    /// Nothing was found; this is said.
    NoMatch(String),
    /// The targets are shown, then this is said.
    Preview(&'static str),
    /// The targets are shown and deleted.
    Delete,
}

/// Decides what is done with the targets: nothing is deleted unless it is forced.
pub fn verdict(targets: &[String], descriptor: &str, force: bool) -> (r: Verdict)
    ensures
        targets@.len() == 0 ==> (r matches Verdict::NoMatch(m) && m@ == "no matching rows for "@
            + descriptor@),
        targets@.len() > 0 && !force ==> (r matches Verdict::Preview(m) && m@
            == "dry-run - re-run with -f / --force to delete"@),
        targets@.len() > 0 && force ==> r is Delete,
{
    if targets.len() == 0 {
        let mut m = "no matching rows for ".to_owned();
        m.append(descriptor);
        return Verdict::NoMatch(m);
    }
    if !force {
        return Verdict::Preview("dry-run - re-run with -f / --force to delete");
    }
    Verdict::Delete
}

/// What is said after the targets were deleted.
pub fn deleted_line(results: usize, sidecar: usize) -> (r: String)
    ensures
        r@ == "deleted "@ + nat_text(results as nat) + " results row(s), "@ + nat_text(
            sidecar as nat,
        ) + " sidecar session(s)"@,
{
    let mut out = "deleted ".to_owned();
    out.append(usize_text(results).as_str());
    out.append(" results row(s), ");
    out.append(usize_text(sidecar).as_str());
    out.append(" sidecar session(s)");
    out
}

} // verus!
