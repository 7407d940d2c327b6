//! Conventions of package manifests: dependencies in order, group by group.

use crate::error::{DevError, ErrorView};
use crate::text::{chars_of, lower, pieces, same, split, to_lower, trim, trimmed, views};
use std::str::FromStr;
use toml_edit::DocumentMut;
use vstd::prelude::*;

pub mod order;

verus! {

/// A convention that a manifest breaks.
#[derive(Debug)]
pub struct ManifestViolation {
    pub file: String,
    /// The name of the check.
    pub rule: &'static str,
    pub message: String,
}

/// Writes a violation as a line.
pub fn format_one(v: &ManifestViolation) -> (r: String)
    ensures
        r@ == v.file@ + ": ["@ + v.rule@ + "] "@ + v.message@,
{
    let mut out = v.file.clone();
    out.append(": [");
    out.append(v.rule);
    out.append("] ");
    out.append(v.message.as_str());
    out
}

/// Whether a table holds dependencies, by its name.
pub open spec fn is_dependency_name(name: Seq<char>) -> bool {
    name == "dependencies"@ || name == "dev-dependencies"@ || name == "build-dependencies"@
}

/// Tests the name of a table.
pub fn is_dependency_table_name(name: &str) -> (r: bool)
    ensures
        r == is_dependency_name(name@),
{
    same(name, "dependencies") || same(name, "dev-dependencies") || same(name, "build-dependencies")
}

/// Whether what stands in front of a key holds an empty line: a line of nothing
/// but white space that a line feed ends.
pub open spec fn opens_group(prefix: Seq<char>) -> bool {
    has_blank(pieces(prefix, '\n').drop_last())
}

/// Whether one of the lines is blank.
pub open spec fn has_blank(ls: Seq<Seq<char>>) -> bool {
    exists|i: int| 0 <= i < ls.len() && trimmed(#[trigger] ls[i]).len() == 0
}

proof fn pieces_not_empty(s: Seq<char>, c: char)
    ensures
        pieces(s, c).len() > 0,
{
}

/// Tests whether a key opens a new group.
pub fn starts_new_group(prefix: &str) -> (r: bool)
    ensures
        r == opens_group(prefix@),
{
    let segs = split(prefix, '\n');
    proof {
        pieces_not_empty(prefix@, '\n');
    }
    let ghost ls = pieces(prefix@, '\n').drop_last();
    assert(views(segs@).len() == segs@.len());
    let n: usize = segs.len() - 1;
    let mut i: usize = 0;
    while i < n
        invariant
            i <= n,
            n == segs@.len() - 1,
            ls.len() == n,
            views(segs@).drop_last() == ls,
            ls == pieces(prefix@, '\n').drop_last(),
            forall|k: int| 0 <= k < i ==> trimmed(#[trigger] ls[k]).len() > 0,
        decreases n - i,
    {
        assert(ls[i as int] == segs@[i as int]@);
        let t = trim(segs[i].as_str());
        if t.as_str().unicode_len() == 0 {
            assert(trimmed(ls[i as int]).len() == 0);
            return true;
        }
        i += 1;
    }
    false
}

/// An entry of a manifest, tables before their entries: how deep it stands, its
/// key, what stands in front of the key, and whether it is a table.
#[derive(Debug)]
pub struct ManifestRow {
    pub depth: usize,
    pub key: String,
    pub prefix: String,
    pub is_table: bool,
}

/// The contents of a [`ManifestRow`].
pub ghost struct RowView {
    pub depth: nat,
    pub key: Seq<char>,
    pub prefix: Seq<char>,
    pub is_table: bool,
}

impl View for ManifestRow {
    type V = RowView;

    open spec fn view(&self) -> RowView {
        RowView {
            depth: self.depth as nat,
            key: self.key@,
            prefix: self.prefix@,
            is_table: self.is_table,
        }
    }
}

/// The contents of a list of entries.
pub open spec fn row_views(v: Seq<ManifestRow>) -> Seq<RowView> {
    v.map_values(|r: ManifestRow| r@)
}

/// What a manifest holds, or why it cannot be read.
pub uninterp spec fn parsed_manifest(text: Seq<char>) -> Result<Seq<RowView>, Seq<char>>;

/// The contents of entries as they are listed: the depth of each, its key, what
/// stands before it, and whether it is a table.
pub open spec fn entry_views(v: Seq<(usize, String, String, bool)>) -> Seq<RowView> {
    v.map_values(
        |e: (usize, String, String, bool)|
            RowView { depth: e.0 as nat, key: e.1@, prefix: e.2@, is_table: e.3 },
    )
}

/// Parses a manifest with `toml_edit::DocumentMut` and lists its entries in
/// their order, each table's own entries right behind it. What the entries and
/// the error text are is the parser's, and not stated here.
#[verifier::external_body]
fn parse_entries(text: &str) -> (r: Result<Vec<(usize, String, String, bool)>, String>)
    ensures
        match r {
            Ok(rows) => parsed_manifest(text@) == Ok::<Seq<RowView>, Seq<char>>(entry_views(rows@)),
            Err(e) => parsed_manifest(text@) == Err::<Seq<RowView>, Seq<char>>(e@),
        },
{
    let doc = DocumentMut::from_str(text).map_err(|e| e.to_string())?;
    let mut rows = vec![];
    let mut open = vec![(doc.as_table(), doc.iter())];
    while let Some((table, mut rest)) = open.pop() {
        if let Some((key, item)) = rest.next() {
            let prefix = table.key(key).and_then(|k| k.leaf_decor().prefix()?.as_str()).unwrap_or_default();
            rows.push((open.len(), key.into(), prefix.into(), item.is_table()));
            open.push((table, rest));
            open.extend(item.as_table().map(|t| (t, t.iter())));
        }
    }
    Ok(rows)
}

/// Reads a manifest.
fn parse_manifest(text: &str) -> (r: Result<Vec<ManifestRow>, String>)
    ensures
        match r {
            Ok(rows) => parsed_manifest(text@) == Ok::<Seq<RowView>, Seq<char>>(row_views(rows@)),
            Err(e) => parsed_manifest(text@) == Err::<Seq<RowView>, Seq<char>>(e@),
        },
{
    let entries = match parse_entries(text) {
        Ok(entries) => entries,
        Err(e) => {
            return Err(e);
        },
    };
    let ghost all = entry_views(entries@);
    let mut rows: Vec<ManifestRow> = Vec::new();
    for entry in it: entries
        invariant
            it.seq() == entries@,
            all == entry_views(entries@),
            rows@.len() == it.index(),
            forall|k: int| 0 <= k < it.index() ==> (#[trigger] rows@[k])@ == all[k],
    {
        let (depth, key, prefix, is_table) = entry;
        rows.push(ManifestRow { depth, key, prefix, is_table });
    }
    assert(row_views(rows@) =~= all);
    Ok(rows)
}

/// Whether a text comes before another in the order of their characters.
pub open spec fn comes_before(a: Seq<char>, b: Seq<char>) -> bool
    decreases a.len(),
{
    if b.len() == 0 {
        false
    } else if a.len() == 0 {
        true
    } else if a[0] != b[0] {
        a[0] < b[0]
    } else {
        comes_before(a.skip(1), b.skip(1))
    }
}

/// Compares two texts character by character.
pub fn text_before(a: &str, b: &str) -> (r: bool)
    ensures
        r == comes_before(a@, b@),
{
    let x = chars_of(a);
    let y = chars_of(b);
    let mut i: usize = 0;
    assert(x@.skip(0) =~= x@);
    assert(y@.skip(0) =~= y@);
    while i < x.len() && i < y.len()
        invariant
            i <= x@.len(),
            i <= y@.len(),
            x@ == a@,
            y@ == b@,
            comes_before(x@, y@) == comes_before(x@.skip(i as int), y@.skip(i as int)),
        decreases x@.len() - i,
    {
        assert(x@.skip(i as int)[0] == x@[i as int]);
        assert(y@.skip(i as int)[0] == y@[i as int]);
        if x[i] != y[i] {
            return x[i] < y[i];
        }
        assert(x@.skip(i as int).skip(1) =~= x@.skip(i + 1));
        assert(y@.skip(i as int).skip(1) =~= y@.skip(i + 1));
        i += 1;
    }
    i < y.len()
}

/// A text with its ASCII letters in lower case.
pub open spec fn lowered(s: Seq<char>) -> Seq<char> {
    s.map_values(|c: char| lower(c))
}

/// Puts the ASCII letters of a text in lower case.
pub fn to_lowercase(s: &str) -> (r: String)
    ensures
        r@ == lowered(s@),
{
    let cs = chars_of(s);
    let mut out = String::new();
    let mut i: usize = 0;
    assert(out@ =~= lowered(s@).take(0));
    while i < cs.len()
        invariant
            i <= cs@.len(),
            cs@ == s@,
            out@ == lowered(s@).take(i as int),
        decreases cs@.len() - i,
    {
        out.push(to_lower(cs[i]));
        i += 1;
        assert(out@ =~= lowered(s@).take(i as int));
    }
    assert(lowered(s@).take(i as int) =~= lowered(s@));
    out
}

/// Where a walk through a manifest stands: outside, or inside a table of
/// dependencies, with the key before in its group.
pub ghost enum Place {
    Outside,
    Inside { depth: nat, section: Seq<char>, prev: Option<Seq<char>> },
}

/// The message on a key out of order.
pub open spec fn out_of_order(section: Seq<char>, key: Seq<char>, prev: Seq<char>) -> Seq<char> {
    "["@ + section + "] `"@ + key + "` is out of order (after `"@ + prev + "`)"@
}

/// The place when an entry comes up: a table ends with the first entry that is
/// not deeper.
pub open spec fn place_at(p: Place, row: RowView) -> Place {
    match p {
        Place::Inside { depth, section, prev } => if row.depth <= depth {
            Place::Outside
        } else {
            p
        },
        Place::Outside => p,
    }
}

/// The place behind an entry.
pub open spec fn next_place(p: Place, row: RowView) -> Place {
    match place_at(p, row) {
        Place::Outside => if row.is_table && is_dependency_name(row.key) {
            Place::Inside { depth: row.depth, section: row.key, prev: None }
        } else {
            Place::Outside
        },
        Place::Inside { depth, section, prev } => if row.depth == depth + 1 {
            Place::Inside { depth, section, prev: Some(lowered(row.key)) }
        } else {
            Place::Inside { depth, section, prev }
        },
    }
}

/// What is wrong with an entry: inside a table of dependencies it comes before
/// the one in front of it in its group, letter case aside.
pub open spec fn fault_at(p: Place, row: RowView) -> Option<Seq<char>> {
    match place_at(p, row) {
        Place::Outside => None,
        Place::Inside { depth, section, prev } => match prev {
            Some(before) => if row.depth == depth + 1 && !opens_group(row.prefix) && comes_before(
                lowered(row.key),
                before,
            ) {
                Some(out_of_order(section, row.key, before))
            } else {
                None
            },
            None => None,
        },
    }
}

/// The place behind some entries.
pub open spec fn place_after(rows: Seq<RowView>) -> Place
    decreases rows.len(),
{
    if rows.len() == 0 {
        Place::Outside
    } else {
        next_place(place_after(rows.drop_last()), rows.last())
    }
}

/// What is wrong with the order of the dependencies.
pub open spec fn faults(rows: Seq<RowView>) -> Seq<Seq<char>>
    decreases rows.len(),
{
    if rows.len() == 0 {
        Seq::empty()
    } else {
        let before = faults(rows.drop_last());
        match fault_at(place_after(rows.drop_last()), rows.last()) {
            Some(m) => before.push(m),
            None => before,
        }
    }
}

/// The contents of a violation.
pub open spec fn violation_view(v: ManifestViolation) -> (Seq<char>, Seq<char>, Seq<char>) {
    (v.file@, v.rule@, v.message@)
}

/// The contents of a list of violations.
pub open spec fn violation_views(v: Seq<ManifestViolation>) -> Seq<
    (Seq<char>, Seq<char>, Seq<char>),
> {
    v.map_values(|x: ManifestViolation| violation_view(x))
}

/// The violations of a file for the faults in its order.
pub open spec fn order_violations(file: Seq<char>, fs: Seq<Seq<char>>) -> Seq<
    (Seq<char>, Seq<char>, Seq<char>),
> {
    fs.map_values(|m: Seq<char>| (file, "sort-dependencies"@, m))
}

enum Spot {
    Outside,
    Inside { depth: usize, section: String, prev: Option<String> },
}

spec fn spot_view(s: Spot) -> Place {
    match s {
        Spot::Outside => Place::Outside,
        Spot::Inside { depth, section, prev } => Place::Inside {
            depth: depth as nat,
            section: section@,
            prev: crate::text::opt_view(prev),
        },
    }
}

fn visit(spot: Spot, row: &ManifestRow) -> (r: (Spot, Option<String>))
    ensures
        spot_view(r.0) == next_place(spot_view(spot), row@),
        crate::text::opt_view(r.1) == fault_at(spot_view(spot), row@),
{
    let here = match spot {
        Spot::Inside { depth, section, prev } => if row.depth <= depth {
            Spot::Outside
        } else {
            Spot::Inside { depth, section, prev }
        },
        Spot::Outside => Spot::Outside,
    };
    assert(spot_view(here) == place_at(spot_view(spot), row@));
    match here {
        Spot::Outside => {
            if row.is_table && is_dependency_table_name(row.key.as_str()) {
                (
                    Spot::Inside { depth: row.depth, section: row.key.clone(), prev: None },
                    None,
                )
            } else {
                (Spot::Outside, None)
            }
        },
        Spot::Inside { depth, section, prev } => {
            if row.depth - depth != 1 {
                return (Spot::Inside { depth, section, prev }, None);
            }
            let lower = to_lowercase(row.key.as_str());
            let mut fault: Option<String> = None;
            match prev {
                Some(before) => {
                    if !starts_new_group(row.prefix.as_str()) && text_before(
                        lower.as_str(),
                        before.as_str(),
                    ) {
                        let mut m = "[".to_owned();
                        m.append(section.as_str());
                        m.append("] `");
                        m.append(row.key.as_str());
                        m.append("` is out of order (after `");
                        m.append(before.as_str());
                        m.append("`)");
                        fault = Some(m);
                    }
                },
                None => {},
            }
            (Spot::Inside { depth, section, prev: Some(lower) }, fault)
        },
    }
}

/// Walks through the entries of a manifest and reports the dependencies that
/// are out of order, each table and each group in it on its own.
pub fn check_sorted_dependencies(file: &str, rows: &[ManifestRow], out: &mut Vec<ManifestViolation>)
    ensures
        violation_views(final(out)@) == violation_views(old(out)@) + order_violations(
            file@,
            faults(row_views(rows@)),
        ),
{
    let ghost all = row_views(rows@);
    let ghost start = violation_views(out@);
    let mut spot = Spot::Outside;
    let mut i: usize = 0;
    assert(violation_views(out@) =~= start + order_violations(file@, faults(all.take(0))));
    while i < rows.len()
        invariant
            i <= rows@.len(),
            all == row_views(rows@),
            spot_view(spot) == place_after(all.take(i as int)),
            violation_views(out@) == start + order_violations(file@, faults(all.take(i as int))),
        decreases rows@.len() - i,
    {
        assert(all.take(i + 1).drop_last() =~= all.take(i as int));
        assert(all[i as int] == rows@[i as int]@);
        let (next, fault) = visit(spot, &rows[i]);
        spot = next;
        let ghost before = violation_views(out@);
        let ghost known = faults(all.take(i as int));
        match fault {
            Some(message) => {
                let v = ManifestViolation {
                    file: file.to_owned(),
                    rule: "sort-dependencies",
                    message,
                };
                out.push(v);
                assert(violation_views(out@) =~= before.push(violation_view(v)));
                assert(order_violations(file@, known.push(message@)) =~= order_violations(
                    file@,
                    known,
                ).push(violation_view(v)));
            },
            None => {},
        }
        i += 1;
        assert(violation_views(out@) =~= start + order_violations(
            file@,
            faults(all.take(i as int)),
        ));
    }
    assert(all.take(i as int) =~= all);
}

/// Which conventions are checked, and where.
pub struct ManifestConfig {
    pub paths: Vec<String>,
    pub exclude: Vec<String>,
    pub sort_dependencies: bool,
}

/// The patterns of the manifests that are checked: all of them unless the
/// configuration names some.
pub fn path_globs(cfg: &ManifestConfig) -> (r: Vec<String>)
    ensures
        views(r@) == if cfg.paths@.len() == 0 {
            seq!["**/Cargo.toml"@]
        } else {
            views(cfg.paths@)
        },
{
    let mut out: Vec<String> = Vec::new();
    if cfg.paths.len() == 0 {
        out.push("**/Cargo.toml".to_owned());
        assert(views(out@) =~= seq!["**/Cargo.toml"@]);
        return out;
    }
    let mut i: usize = 0;
    while i < cfg.paths.len()
        invariant
            i <= cfg.paths@.len(),
            out@.len() == i,
            forall|k: int| 0 <= k < i ==> #[trigger] out@[k]@ == cfg.paths@[k]@,
        decreases cfg.paths@.len() - i,
    {
        out.push(cfg.paths[i].clone());
        i += 1;
    }
    assert(views(out@) =~= views(cfg.paths@));
    out
}

/// What the check of one manifest gives: what is wrong with it, or that it
/// cannot be read as a manifest.
pub open spec fn check_result(
    file: Seq<char>,
    parsed: Result<Seq<RowView>, Seq<char>>,
    sort: bool,
) -> Result<Seq<(Seq<char>, Seq<char>, Seq<char>)>, ErrorView> {
    match parsed {
        Ok(rows) => Ok(
            if sort {
                order_violations(file, faults(rows))
            } else {
                Seq::empty()
            },
        ),
        Err(e) => Err(ErrorView::Config("[manifest] "@ + file + ": parse error: "@ + e)),
    }
}

/// Checks what was parsed of a manifest.
pub fn check_document(
    file: &str,
    parsed: Result<Vec<ManifestRow>, String>,
    cfg: &ManifestConfig,
    out: &mut Vec<ManifestViolation>,
) -> (r: Result<(), DevError>)
    ensures
        match parsed {
            Ok(rows) => r is Ok && (check_result(
                file@,
                Ok(row_views(rows@)),
                cfg.sort_dependencies,
            ) matches Ok(vs) && violation_views(final(out)@) == violation_views(old(out)@) + vs),
            Err(e) => *final(out) == *old(out) && (r matches Err(x) && check_result(
                file@,
                Err(e@),
                cfg.sort_dependencies,
            ) == Err::<Seq<(Seq<char>, Seq<char>, Seq<char>)>, ErrorView>(x@)),
        },
{
    match parsed {
        Ok(rows) => {
            if cfg.sort_dependencies {
                check_sorted_dependencies(file, &rows, out);
            } else {
                assert(violation_views(out@) =~= violation_views(old(out)@) + Seq::empty());
            }
            Ok(())
        },
        Err(e) => {
            let mut m = "[manifest] ".to_owned();
            m.append(file);
            m.append(": parse error: ");
            m.append(e.as_str());
            Err(DevError::Config(m))
        },
    }
}

/// A tracked manifest: whether the paths and the exclusions match it, and what
/// it holds where it could be read.
pub struct TrackedManifest {
    pub path: String,
    pub selected: bool,
    pub excluded: bool,
    pub content: Option<String>,
}

/// What the check of one tracked file gives: nothing where it is not selected or
/// cannot be read.
pub open spec fn file_result(f: TrackedManifest, sort: bool) -> Result<
    Seq<(Seq<char>, Seq<char>, Seq<char>)>,
    ErrorView,
> {
    if !f.selected || f.excluded {
        Ok(Seq::empty())
    } else {
        match f.content {
            Some(c) => check_result(f.path@, parsed_manifest(c@), sort),
            None => Ok(Seq::empty()),
        }
    }
}

/// What the check of all tracked files gives: everything that is wrong, in
/// order, or the first error.
pub open spec fn scan_result(files: Seq<TrackedManifest>, sort: bool) -> Result<
    Seq<(Seq<char>, Seq<char>, Seq<char>)>,
    ErrorView,
>
    decreases files.len(),
{
    if files.len() == 0 {
        Ok(Seq::empty())
    } else {
        match scan_result(files.drop_last(), sort) {
            Err(e) => Err(e),
            Ok(before) => match file_result(files.last(), sort) {
                Err(e) => Err(e),
                Ok(own) => Ok(before + own),
            },
        }
    }
}

/// A later file cannot undo the error of an earlier one.
proof fn first_error_stays(files: Seq<TrackedManifest>, sort: bool, k: int)
    requires
        0 <= k <= files.len(),
        scan_result(files.take(k), sort) is Err,
    ensures
        scan_result(files, sort) == scan_result(files.take(k), sort),
    decreases files.len() - k,
{
    if k < files.len() {
        assert(files.take(k + 1).drop_last() =~= files.take(k));
        first_error_stays(files, sort, k + 1);
    } else {
        assert(files.take(k) =~= files);
    }
}

/// Checks every tracked manifest that is selected. One that cannot be parsed
/// ends the check with an error.
pub fn scan(files: &[TrackedManifest], cfg: &ManifestConfig) -> (r: Result<
    Vec<ManifestViolation>,
    DevError,
>)
    ensures
        match r {
            Ok(vs) => scan_result(files@, cfg.sort_dependencies) == Ok::<
                Seq<(Seq<char>, Seq<char>, Seq<char>)>,
                ErrorView,
            >(violation_views(vs@)),
            Err(e) => scan_result(files@, cfg.sort_dependencies) == Err::<
                Seq<(Seq<char>, Seq<char>, Seq<char>)>,
                ErrorView,
            >(e@),
        },
{
    let mut out: Vec<ManifestViolation> = Vec::new();
    let mut i: usize = 0;
    assert(violation_views(out@) =~= Seq::empty());
    while i < files.len()
        invariant
            i <= files@.len(),
            scan_result(files@.take(i as int), cfg.sort_dependencies) == Ok::<
                Seq<(Seq<char>, Seq<char>, Seq<char>)>,
                ErrorView,
            >(violation_views(out@)),
        decreases files@.len() - i,
    {
        let f = &files[i];
        assert(files@.take(i + 1).drop_last() =~= files@.take(i as int));
        let ghost before = violation_views(out@);
        assert(before + Seq::<(Seq<char>, Seq<char>, Seq<char>)>::empty() =~= before);
        if f.selected && !f.excluded {
            match &f.content {
                Some(c) => {
                    let parsed = parse_manifest(c.as_str());
                    match check_document(f.path.as_str(), parsed, cfg, &mut out) {
                        Ok(_) => {},
                        Err(e) => {
                            proof {
                                first_error_stays(files@, cfg.sort_dependencies, i + 1);
                            }
                            return Err(e);
                        },
                    }
                },
                None => {},
            }
        }
        i += 1;
    }
    assert(files@.take(i as int) =~= files@);
    Ok(out)
}

pub(crate) proof fn place_in_table(head: RowView, rows: Seq<RowView>)
    requires
        head.is_table,
        is_dependency_name(head.key),
        forall|i: int| 0 <= i < rows.len() ==> (#[trigger] rows[i]).depth == head.depth + 1,
    ensures
        place_after(seq![head] + rows) == (Place::Inside {
            depth: head.depth,
            section: head.key,
            prev: if rows.len() == 0 {
                None
            } else {
                Some(lowered(rows.last().key))
            },
        }),
    decreases rows.len(),
{
    let all = seq![head] + rows;
    if rows.len() == 0 {
        assert(all =~= seq![head]);
        assert(all.drop_last() =~= Seq::empty());
        assert(place_after(all.drop_last()) == Place::Outside);
    } else {
        let front = rows.drop_last();
        assert forall|i: int| 0 <= i < front.len() implies (#[trigger] front[i]).depth == head.depth
            + 1 by {
            assert(front[i] == rows[i]);
        }
        place_in_table(head, front);
        assert(all.drop_last() =~= seq![head] + front);
        assert(all.last() == rows.last());
        assert(rows[rows.len() - 1].depth == head.depth + 1);
    }
}

/// Whether no entry of a table comes before the one in front of it, unless it
/// starts a group of its own.
pub open spec fn in_groups(rows: Seq<RowView>) -> bool {
    forall|i: int|
        1 <= i < rows.len() ==> opens_group((#[trigger] rows[i]).prefix) || !comes_before(
            lowered(rows[i].key),
            lowered(rows[i - 1].key),
        )
}

/// A table of dependencies is passed exactly where its groups are in order.
pub proof fn ordered_exactly(head: RowView, rows: Seq<RowView>)
    requires
        head.is_table,
        is_dependency_name(head.key),
        forall|i: int| 0 <= i < rows.len() ==> (#[trigger] rows[i]).depth == head.depth + 1,
    ensures
        faults(seq![head] + rows).len() == 0 <==> in_groups(rows),
    decreases rows.len(),
{
    let all = seq![head] + rows;
    if rows.len() == 0 {
        assert(all =~= seq![head]);
        assert(all.drop_last() =~= Seq::empty());
        assert(place_after(all.drop_last()) == Place::Outside);
        assert(faults(all.drop_last()).len() == 0);
        assert(fault_at(Place::Outside, head) is None);
        assert(faults(all).len() == 0);
    } else {
        let front = rows.drop_last();
        let n = rows.len();
        assert forall|i: int| 0 <= i < front.len() implies (#[trigger] front[i]).depth == head.depth
            + 1 by {
            assert(front[i] == rows[i]);
        }
        ordered_exactly(head, front);
        place_in_table(head, front);
        assert(all.drop_last() =~= seq![head] + front);
        assert(all.last() == rows[n - 1]);
        let here = n > 1 ==> opens_group(rows[n - 1].prefix) || !comes_before(
            lowered(rows[n - 1].key),
            lowered(rows[n - 2].key),
        );
        assert(n > 1 ==> front.last() == rows[n - 2]);
        let place = place_after(seq![head] + front);
        assert(place_at(place, rows[n - 1]) == place);
        assert(fault_at(place, rows[n - 1]) is None <==> here);
        assert(faults(all).len() == 0 <==> faults(seq![head] + front).len() == 0 && here);
        assert(in_groups(rows) <==> in_groups(front) && here) by {
            if in_groups(rows) {
                assert forall|i: int| 1 <= i < front.len() implies opens_group(
                    (#[trigger] front[i]).prefix,
                ) || !comes_before(lowered(front[i].key), lowered(front[i - 1].key)) by {
                    assert(front[i] == rows[i] && front[i - 1] == rows[i - 1]);
                }
            }
            if in_groups(front) && here {
                assert forall|i: int| 1 <= i < rows.len() implies opens_group(
                    (#[trigger] rows[i]).prefix,
                ) || !comes_before(lowered(rows[i].key), lowered(rows[i - 1].key)) by {
                    if i < n - 1 {
                        assert(front[i] == rows[i] && front[i - 1] == rows[i - 1]);
                    }
                }
            }
        }
    }
}

} // verus!
