//! What holds of the order of texts, and of the check of manifests.

use crate::error::ErrorView;
use crate::manifest::{
    check_result, comes_before, faults, file_result, is_dependency_name, lowered, opens_group,
    place_after, place_in_table, scan_result, Place, RowView, TrackedManifest,
};
use crate::text::{pieces, trimmed};
use vstd::prelude::*;

verus! {

/// The order of texts is decided by the first character in which they differ; a
/// text comes before those that go on where it ends.
pub proof fn first_difference_decides(
    p: Seq<char>,
    a: char,
    b: char,
    x: Seq<char>,
    y: Seq<char>,
)
    ensures
        a != b ==> comes_before(p + seq![a] + x, p + seq![b] + y) == (a < b),
        comes_before(p, p + seq![a] + x),
        !comes_before(p + seq![a] + x, p),
    decreases p.len(),
{
    let (s, t) = (p + seq![a] + x, p + seq![b] + y);
    if p.len() > 0 {
        first_difference_decides(p.skip(1), a, b, x, y);
        assert(s.skip(1) =~= p.skip(1) + seq![a] + x);
        assert(t.skip(1) =~= p.skip(1) + seq![b] + y);
        assert(s[0] == p[0] && t[0] == p[0]);
    } else {
        assert(s[0] == a && t[0] == b);
    }
}

/// Letters in lower case keep their places; what is no letter of the Latin
/// alphabet in upper case stays as it is.
pub proof fn lower_case_keeps_places(s: Seq<char>, i: int)
    requires
        0 <= i < s.len(),
    ensures
        lowered(s).len() == s.len(),
        !('A' <= s[i] <= 'Z') ==> lowered(s)[i] == s[i],
        'A' <= s[i] <= 'Z' ==> 'a' <= lowered(s)[i] <= 'z' && lowered(s)[i] as u32 == s[i] as u32
            + 32,
        lowered(lowered(s)) == lowered(s),
{
    assert(lowered(lowered(s)) =~= lowered(s));
}

/// A group is opened by a blank line, wherever it stands before the key; lines with
/// anything on them open none.
pub proof fn blank_lines_open_groups(line: Seq<char>, rest: Seq<char>)
    requires
        !line.contains('\n'),
    ensures
        opens_group(line + seq!['\n'] + rest) <==> trimmed(line).len() == 0 || opens_group(rest),
        !opens_group(line),
{
    let s = line + seq!['\n'] + rest;
    assert forall|k: int| 0 <= k < line.len() implies s[k] != '\n' && line[k] != '\n' by {
        assert(line.contains(line[k]));
    }
    crate::text::next_char_unique(s, '\n', 0, line.len() as int);
    crate::text::next_char_unique(line, '\n', 0, line.len() as int);
    assert(s.take(line.len() as int) =~= line);
    assert(s.skip(line.len() as int + 1) =~= rest);
    let after = pieces(rest, '\n');
    let all = pieces(s, '\n');
    assert(after.len() > 0);
    assert(all == seq![line] + after);
    assert(all.drop_last() =~= seq![line] + after.drop_last());
    let ls = all.drop_last();
    let ms = after.drop_last();
    if opens_group(s) {
        let i = choose|i: int| 0 <= i < ls.len() && trimmed(#[trigger] ls[i]).len() == 0;
        if i > 0 {
            assert(ms[i - 1] == ls[i]);
        }
    }
    if trimmed(line).len() == 0 {
        assert(ls[0] == line);
    }
    if opens_group(rest) {
        let i = choose|i: int| 0 <= i < ms.len() && trimmed(#[trigger] ms[i]).len() == 0;
        assert(ls[i + 1] == ms[i]);
    }
    assert(pieces(line, '\n').drop_last() =~= Seq::empty());
}

/// In a table of dependencies, each entry that comes before the one in front of it
/// in its group is told, with both names, and no other entry is.
pub proof fn each_fault_is_told(head: RowView, rows: Seq<RowView>, r: RowView)
    requires
        head.is_table,
        is_dependency_name(head.key),
        forall|i: int| 0 <= i < rows.len() ==> (#[trigger] rows[i]).depth == head.depth + 1,
        r.depth == head.depth + 1,
        rows.len() > 0,
    ensures
        ({
            let prev = lowered(rows.last().key);
            let wrong = !opens_group(r.prefix) && comes_before(lowered(r.key), prev);
            faults(seq![head] + rows.push(r)) == (if wrong {
                faults(seq![head] + rows).push(
                    "["@ + head.key + "] `"@ + r.key + "` is out of order (after `"@ + prev + "`)"@,
                )
            } else {
                faults(seq![head] + rows)
            })
        }),
{
    place_in_table(head, rows);
    let all = seq![head] + rows.push(r);
    assert(all.drop_last() =~= seq![head] + rows);
    assert(all.last() == r);
}

/// Outside of tables of dependencies any order will do.
pub proof fn other_tables_are_free(rows: Seq<RowView>)
    requires
        forall|i: int|
            0 <= i < rows.len() ==> !((#[trigger] rows[i]).is_table && is_dependency_name(
                rows[i].key,
            )),
    ensures
        faults(rows).len() == 0,
        place_after(rows) == Place::Outside,
    decreases rows.len(),
{
    if rows.len() > 0 {
        let front = rows.drop_last();
        assert forall|i: int| 0 <= i < front.len() implies !((#[trigger] front[i]).is_table
            && is_dependency_name(front[i].key)) by {
            assert(front[i] == rows[i]);
        }
        other_tables_are_free(front);
        assert(!(rows[rows.len() - 1].is_table && is_dependency_name(rows[rows.len() - 1].key)));
    }
}

/// Dependencies stand in three tables.
pub proof fn three_tables_hold_dependencies(name: Seq<char>)
    ensures
        is_dependency_name(name) <==> name == "dependencies"@ || name == "dev-dependencies"@ || name
            == "build-dependencies"@,
{
}

/// What is wrong with a file is told under its name and the rule; nothing is where
/// the order is not asked for.
pub proof fn faults_are_told_under_their_file(
    file: Seq<char>,
    rows: Seq<RowView>,
    why: Seq<char>,
    sort: bool,
    i: int,
)
    requires
        0 <= i < faults(rows).len(),
    ensures
        check_result(file, Ok(rows), true) matches Ok(vs) && vs.len() == faults(rows).len() && vs[i]
            == (file, "sort-dependencies"@, faults(rows)[i]),
        check_result(file, Ok(rows), false) matches Ok(vs) && vs.len() == 0,
        check_result(file, Err(why), sort) == Err::<Seq<(Seq<char>, Seq<char>, Seq<char>)>, ErrorView>(
            ErrorView::Config("[manifest] "@ + file + ": parse error: "@ + why),
        ),
{
}

/// Files that were not chosen, that are excluded or that cannot be read are passed
/// over.
pub proof fn unchosen_files_are_passed_over(f: TrackedManifest, sort: bool)
    requires
        !f.selected || f.excluded || f.content is None,
    ensures
        file_result(f, sort) matches Ok(vs) && vs.len() == 0,
{
}

/// All files are checked in order: what is wrong with the first ones is told first,
/// and the first error ends it.
pub proof fn files_are_checked_in_order(
    a: Seq<TrackedManifest>,
    b: Seq<TrackedManifest>,
    sort: bool,
)
    ensures
        scan_result(a, sort) is Err ==> scan_result(a + b, sort) == scan_result(a, sort),
        scan_result(a, sort) matches Ok(x) ==> match scan_result(b, sort) {
            Ok(y) => scan_result(a + b, sort) == Ok::<
                Seq<(Seq<char>, Seq<char>, Seq<char>)>,
                ErrorView,
            >(x + y),
            Err(e) => scan_result(a + b, sort) == scan_result(b, sort),
        },
    decreases b.len(),
{
    let all = a + b;
    if b.len() == 0 {
        assert(all =~= a);
        if let Ok(x) = scan_result(a, sort) {
            assert(x + Seq::<(Seq<char>, Seq<char>, Seq<char>)>::empty() =~= x);
        }
    } else {
        files_are_checked_in_order(a, b.drop_last(), sort);
        assert(all.drop_last() =~= a + b.drop_last());
        assert(all.last() == b.last());
        if let (Ok(x), Ok(y), Ok(z)) = (
            scan_result(a, sort),
            scan_result(b.drop_last(), sort),
            file_result(b.last(), sort),
        ) {
            assert((x + y) + z =~= x + (y + z));
        }
    }
}

} // verus!
