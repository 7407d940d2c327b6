//! What holds of the tables of profiles.

use crate::db::{value_text, FunctionView, PairView, ThreadView};
use crate::hotpath_fmt::{
    change_text, diff_names, diff_row, first_value, function_heads, function_row, functions_table,
    has_name, has_percentile, names_of, new_names, of_section, percentile_keys, percentile_of,
    section_diff, some_alloc, thread_heads, thread_row, topmost, total_of, threads_table,
};
use crate::numeral::int_text;
use crate::table::table_text;
use crate::text::text_or;
use vstd::prelude::*;

verus! {

/// The functions of a section are those that name it, in their order.
pub proof fn section_is_chosen(fs: Seq<FunctionView>, section: Seq<char>)
    ensures
        of_section(fs, section) == fs.filter(|f: FunctionView| f.section == section),
    decreases fs.len(),
{
    reveal(Seq::filter);
    if fs.len() > 0 {
        section_is_chosen(fs.drop_last(), section);
    } else {
        assert(of_section(fs, section) =~= fs);
    }
}

/// The total of a name is that of the last function with it.
pub proof fn total_is_the_last(fs: Seq<FunctionView>, name: Seq<char>, i: int)
    requires
        -1 <= i < fs.len(),
        i >= 0 ==> fs[i].name == name,
        forall|k: int| i < k < fs.len() ==> (#[trigger] fs[k]).name != name,
    ensures
        i < 0 ==> total_of(fs, name) is None,
        i >= 0 ==> total_of(fs, name) == fs[i].total,
    decreases fs.len(),
{
    if fs.len() > 0 && i < fs.len() - 1 {
        let front = fs.drop_last();
        assert(fs[fs.len() - 1].name != name);
        assert forall|k: int| i < k < front.len() implies (#[trigger] front[k]).name != name by {
            assert(front[k] == fs[k]);
        }
        total_is_the_last(front, name, i);
    }
}

/// Whether a text is the total of the last function with the name, or dashes where
/// there is none.
#[verifier::opaque]
pub open spec fn shows_total(text: Seq<char>, fs: Seq<FunctionView>, name: Seq<char>) -> bool {
    forall|i: int|
        -1 <= i < fs.len() && (i >= 0 ==> fs[i].name == name) && (forall|k: int|
            i < k < fs.len() ==> (#[trigger] fs[k]).name != name) ==> #[trigger] is_total(
            text,
            fs,
            i,
        )
}

/// Whether a text is the total of the function at an index, or dashes where it has
/// none.
pub open spec fn is_total(text: Seq<char>, fs: Seq<FunctionView>, i: int) -> bool {
    if i >= 0 {
        match fs[i].total {
            Some(t) => text == t,
            None => text == "--"@,
        }
    } else {
        text == "--"@
    }
}

proof fn total_shown(fs: Seq<FunctionView>, name: Seq<char>)
    ensures
        shows_total(text_or(total_of(fs, name), "--"@), fs, name),
{
    reveal(shows_total);
    let text = text_or(total_of(fs, name), "--"@);
    assert forall|i: int|
        -1 <= i < fs.len() && (i >= 0 ==> fs[i].name == name) && (forall|k: int|
            i < k < fs.len() ==> (#[trigger] fs[k]).name != name) implies #[trigger] is_total(
        text,
        fs,
        i,
    ) by {
        total_is_the_last(fs, name, i);
    }
}

proof fn cells_of_a_name(a: Seq<FunctionView>, b: Seq<FunctionView>, name: Seq<char>)
    ensures
        diff_row(a, b, name).len() == 4,
        diff_row(a, b, name)[0] == name,
        diff_row(a, b, name)[1] == text_or(total_of(a, name), "--"@),
        diff_row(a, b, name)[2] == text_or(total_of(b, name), "--"@),
        diff_row(a, b, name)[3] == change_text(total_of(a, name), total_of(b, name)),
{
}

/// In the row of a name, the first total is that of the first side, and the second
/// that of the second side.
pub proof fn each_side_has_its_total(a: Seq<FunctionView>, b: Seq<FunctionView>, name: Seq<char>)
    ensures
        diff_row(a, b, name).len() == 4,
        diff_row(a, b, name)[0] == name,
        shows_total(diff_row(a, b, name)[1], a, name),
        shows_total(diff_row(a, b, name)[2], b, name),
{
    cells_of_a_name(a, b, name);
    total_shown(a, name);
    total_shown(b, name);
}

/// The first total is of the first side alone, the second of the second alone: the
/// sides exchanged, the totals are.
pub proof fn sides_are_apart(
    a: Seq<FunctionView>,
    b: Seq<FunctionView>,
    c: Seq<FunctionView>,
    name: Seq<char>,
)
    ensures
        diff_row(a, b, name)[1] == diff_row(a, c, name)[1],
        diff_row(b, a, name)[2] == diff_row(c, a, name)[2],
        diff_row(a, b, name)[1] == diff_row(b, a, name)[2],
{
    cells_of_a_name(a, b, name);
    cells_of_a_name(a, c, name);
    cells_of_a_name(b, a, name);
    cells_of_a_name(c, a, name);
}

/// A comparison is a headline and a table: under `Total A` stands what the first
/// side has of the name in the row, under `Total B` what the second has.
pub proof fn totals_stand_under_their_sides(
    label: Seq<char>,
    a: Seq<FunctionView>,
    b: Seq<FunctionView>,
    top: nat,
) -> (r: (Seq<char>, Seq<Seq<char>>, Seq<bool>, Seq<Seq<Seq<char>>>))
    requires
        diff_names(a, b, top).len() > 0,
    ensures
        section_diff(label, a, b, top) == r.0 + table_text(r.1, r.2, r.3),
        r.1 == seq!["Function"@, "Total A"@, "Total B"@, "Change"@],
        r.2 == seq![true, false, false, false],
        r.3.len() == diff_names(a, b, top).len(),
        forall|k: int|
            0 <= k < r.3.len() ==> (#[trigger] r.3[k]).len() == 4 && r.3[k][0] == diff_names(
                a,
                b,
                top,
            )[k] && shows_total(r.3[k][1], a, r.3[k][0]) && shows_total(r.3[k][2], b, r.3[k][0]),
        label.is_prefix_of(r.0),
        r.0.last() == '\n',
{
    let names = diff_names(a, b, top);
    let heads = seq!["Function"@, "Total A"@, "Total B"@, "Change"@];
    let left = crate::hotpath_fmt::first_left(4);
    let rows = names.map_values(|n: Seq<char>| diff_row(a, b, n));
    let d = match crate::hotpath_fmt::description_of(a) {
        Some(d) => d,
        None => text_or(crate::hotpath_fmt::description_of(b), ""@),
    };
    reveal_strlit("\n");
    let front = label + " - "@ + d + "\n"@;
    assert(left =~= seq![true, false, false, false]);
    assert(section_diff(label, a, b, top) =~= front + table_text(heads, left, rows));
    assert forall|k: int| 0 <= k < rows.len() implies (#[trigger] rows[k]).len() == 4 && rows[k][0]
        == names[k] && shows_total(rows[k][1], a, rows[k][0]) && shows_total(
        rows[k][2],
        b,
        rows[k][0],
    ) by {
        each_side_has_its_total(a, b, names[k]);
    }
    assert(front.subrange(0, label.len() as int) =~= label);
    (front, heads, left, rows)
}

/// What is only on one side is new or gone; where nothing is on either side there
/// is nothing to compare.
pub proof fn one_sided_changes(x: Seq<char>)
    ensures
        change_text(Some(x), None) == "(gone)"@,
        change_text(None, Some(x)) == "(new)"@,
        change_text(None, None) == "--"@,
{
}

/// The names in a comparison come in the order of the first side; those that only
/// the second has come behind, and no name that the first has comes twice for it.
pub proof fn names_keep_their_order(a: Seq<FunctionView>, b: Seq<FunctionView>, top: nat)
    ensures
        diff_names(a, b, 0) == names_of(a) + new_names(b, a),
        names_of(a) == a.filter(|f: FunctionView| f.name.len() > 0).map_values(
            |f: FunctionView| f.name,
        ),
        new_names(b, a) == b.filter(
            |f: FunctionView| f.name.len() > 0 && !has_name(a, f.name),
        ).map_values(|f: FunctionView| f.name),
        top > 0 && diff_names(a, b, 0).len() > top ==> diff_names(a, b, top) == diff_names(
            a,
            b,
            0,
        ).take(top as int),
        diff_names(a, b, 0).len() <= top ==> diff_names(a, b, top) == diff_names(a, b, 0),
{
    names_filtered(a);
    new_names_filtered(b, a);
}

proof fn names_filtered(fs: Seq<FunctionView>)
    ensures
        names_of(fs) == fs.filter(|f: FunctionView| f.name.len() > 0).map_values(
            |f: FunctionView| f.name,
        ),
    decreases fs.len(),
{
    reveal(Seq::filter);
    let g = |f: FunctionView| f.name;
    if fs.len() > 0 {
        names_filtered(fs.drop_last());
        let kept = fs.drop_last().filter(|f: FunctionView| f.name.len() > 0);
        assert(kept.push(fs.last()).map_values(g) =~= kept.map_values(g).push(fs.last().name));
    } else {
        assert(names_of(fs) =~= fs.map_values(g));
    }
}

proof fn new_names_filtered(fs: Seq<FunctionView>, known: Seq<FunctionView>)
    ensures
        new_names(fs, known) == fs.filter(
            |f: FunctionView| f.name.len() > 0 && !has_name(known, f.name),
        ).map_values(|f: FunctionView| f.name),
    decreases fs.len(),
{
    reveal(Seq::filter);
    let g = |f: FunctionView| f.name;
    if fs.len() > 0 {
        new_names_filtered(fs.drop_last(), known);
        let kept = fs.drop_last().filter(
            |f: FunctionView| f.name.len() > 0 && !has_name(known, f.name),
        );
        assert(kept.push(fs.last()).map_values(g) =~= kept.map_values(g).push(fs.last().name));
    } else {
        assert(new_names(fs, known) =~= fs.map_values(g));
    }
}

/// In the table of functions every figure stands under its own heading.
pub proof fn figures_stand_under_their_headings(f: FunctionView, keys: Seq<Seq<char>>, c: int)
    requires
        0 <= c < keys.len(),
        keys[c] == "p50"@ || keys[c] == "p95"@ || keys[c] == "p99"@,
    ensures
        ({
            let heads = function_heads(keys);
            let row = function_row(f, keys);
            let n = keys.len() as int;
            &&& heads.len() == n + 5
            &&& row.len() == n + 5
            &&& heads[0] == "Function"@ && row[0] == f.name
            &&& heads[1] == "Calls"@
            &&& f.calls matches Some(k) ==> row[1] == int_text(k as int)
            &&& f.calls is None ==> row[1].len() == 0
            &&& heads[2] == "Avg"@
            &&& f.avg matches Some(t) ==> row[2] == t
            &&& heads[n + 3] == "Total"@
            &&& f.total matches Some(t) ==> row[n + 3] == t
            &&& heads[n + 4] == "% Total"@
            &&& f.percent_total matches Some(t) ==> row[n + 4] == t
            &&& keys[c] == "p50"@ ==> heads[3 + c] == "P50"@ && (f.p50 matches Some(t) ==> row[3
                + c] == t)
            &&& keys[c] == "p95"@ ==> heads[3 + c] == "P95"@ && (f.p95 matches Some(t) ==> row[3
                + c] == t)
            &&& keys[c] == "p99"@ ==> heads[3 + c] == "P99"@ && (f.p99 matches Some(t) ==> row[3
                + c] == t)
        }),
{
    reveal_strlit("p50");
    reveal_strlit("p95");
    reveal_strlit("p99");
    assert("p50"@[1] != "p95"@[1]);
    assert("p95"@[2] != "p99"@[2]);
    assert("p50"@[1] != "p99"@[1]);
}

/// A percentile has a column exactly where some function has it, in the order of
/// the percentiles.
pub proof fn percentiles_that_are_there(fs: Seq<FunctionView>)
    ensures
        percentile_keys(fs).contains("p50"@) <==> exists|i: int|
            0 <= i < fs.len() && (#[trigger] fs[i]).p50 is Some,
        percentile_keys(fs).contains("p95"@) <==> exists|i: int|
            0 <= i < fs.len() && (#[trigger] fs[i]).p95 is Some,
        percentile_keys(fs).contains("p99"@) <==> exists|i: int|
            0 <= i < fs.len() && (#[trigger] fs[i]).p99 is Some,
        percentile_keys(fs).len() == 3 ==> percentile_keys(fs) == seq!["p50"@, "p95"@, "p99"@],
{
    reveal_strlit("p50");
    reveal_strlit("p95");
    reveal_strlit("p99");
    assert("p50"@[1] != "p95"@[1]);
    assert("p95"@[2] != "p99"@[2]);
    assert("p50"@[1] != "p99"@[1]);
    let (a, b, c) = (has_percentile(fs, "p50"@), has_percentile(fs, "p95"@), has_percentile(fs, "p99"@));
    let keys = percentile_keys(fs);
    key_is_there(fs, "p50"@);
    key_is_there(fs, "p95"@);
    key_is_there(fs, "p99"@);
    if a {
        assert(keys[0] == "p50"@);
    }
    if b {
        assert(keys[if a { 1 } else { 0 }] == "p95"@);
    }
    if c {
        assert(keys[keys.len() - 1] == "p99"@);
    }
    if keys.len() == 3 {
        assert(keys =~= seq!["p50"@, "p95"@, "p99"@]);
    }
}

proof fn key_is_there(fs: Seq<FunctionView>, key: Seq<char>)
    ensures
        has_percentile(fs, key) <==> exists|i: int|
            0 <= i < fs.len() && percentile_of(#[trigger] fs[i], key) is Some,
{
}

/// In the table of threads every figure stands under its own heading.
pub proof fn threads_stand_under_their_headings(t: ThreadView)
    ensures
        ({
            let heads = thread_heads(true);
            let row = thread_row(t, true);
            &&& heads.len() == 8 && row.len() == 8
            &&& heads[0] == "Thread"@ && row[0] == t.name
            &&& heads[1] == "Status"@ && (t.status matches Some(x) ==> row[1] == x)
            &&& heads[2] == "CPU%"@ && (t.cpu_percent matches Some(x) ==> row[2] == x)
            &&& heads[3] == "Max%"@ && (t.cpu_percent_max matches Some(x) ==> row[3] == x)
            &&& heads[4] == "Avg%"@ && (t.cpu_percent_avg matches Some(x) ==> row[4] == x)
            &&& heads[5] == "Alloc"@ && (t.alloc_bytes matches Some(x) ==> row[5] == x)
            &&& heads[6] == "Dealloc"@ && (t.dealloc_bytes matches Some(x) ==> row[6] == x)
            &&& heads[7] == "Diff"@ && (t.mem_diff matches Some(x) ==> row[7] == x)
            &&& t.cpu_percent is None ==> row[2] == "-"@
            &&& t.cpu_percent_max is None ==> row[3] == "-"@
            &&& t.cpu_percent_avg is None ==> row[4] == "-"@
            &&& thread_heads(false) == heads.take(5)
            &&& thread_row(t, false) == row.take(5)
        }),
{
    assert(thread_heads(false) =~= thread_heads(true).take(5));
    assert(thread_row(t, false) =~= thread_row(t, true).take(5));
}

/// The figures over all threads are looked up by their keys: the first value counts.
pub proof fn first_value_counts(kv: Seq<PairView>, key: Seq<char>, i: int)
    requires
        0 <= i <= kv.len(),
        i < kv.len() ==> kv[i].key == key,
        forall|k: int| 0 <= k < i ==> (#[trigger] kv[k]).key != key,
    ensures
        i < kv.len() ==> first_value(kv, key) == Some(value_text(kv[i].value)),
        i == kv.len() ==> first_value(kv, key) is None,
    decreases kv.len(),
{
    if kv.len() > 0 && i > 0 {
        let rest = kv.skip(1);
        assert(kv[0].key != key);
        assert forall|k: int| 0 <= k < i - 1 implies (#[trigger] rest[k]).key != key by {
            assert(rest[k] == kv[k + 1]);
        }
        first_value_counts(rest, key, i - 1);
    }
}

/// A limit keeps the first ones, and none keeps them all.
pub proof fn limit_keeps_the_first<T>(s: Seq<T>, top: nat)
    ensures
        topmost(s, 0) == s,
        topmost(s, top).is_prefix_of(s),
        top > 0 ==> topmost(s, top).len() == if top < s.len() { top } else { s.len() },
{
    assert(s.take(s.len() as int) =~= s);
}

/// The table of functions: nothing without functions; else a headline and a table
/// with a row for each of the first functions.
pub proof fn functions_have_rows(fs: Seq<FunctionView>, label: Seq<char>, top: nat) -> (r: (
    Seq<char>,
    Seq<Seq<Seq<char>>>,
))
    ensures
        fs.len() == 0 ==> functions_table(fs, label, top).len() == 0,
        fs.len() > 0 ==> {
            let keys = percentile_keys(fs);
            let n = if 0 < top < fs.len() { top } else { fs.len() };
            let heads = function_heads(keys);
            &&& functions_table(fs, label, top) == r.0 + table_text(
                heads,
                Seq::new(heads.len(), |c: int| c == 0),
                r.1,
            )
            &&& label.is_prefix_of(r.0)
            &&& r.1.len() == n
            &&& forall|k: int| 0 <= k < n ==> #[trigger] r.1[k] == function_row(fs[k], keys)
        },
{
    let keys = percentile_keys(fs);
    if fs.len() == 0 {
        (Seq::empty(), Seq::empty())
    } else {
        let front = label + " - "@ + text_or(fs[0].description, ""@) + "\n"@;
        let rows = topmost(fs, top).map_values(|f: FunctionView| function_row(f, keys));
        let heads = function_heads(keys);
        assert(functions_table(fs, label, top) =~= front + table_text(
            heads,
            Seq::new(heads.len(), |c: int| c == 0),
            rows,
        ));
        assert(front.subrange(0, label.len() as int) =~= label);
        (front, rows)
    }
}

/// The table of threads has a row for every thread, and columns on allocations
/// exactly where some thread has figures on them.
pub proof fn threads_have_rows(ts: Seq<ThreadView>, summary: Seq<PairView>) -> (r: (
    Seq<char>,
    Seq<Seq<Seq<char>>>,
))
    ensures
        ts.len() == 0 ==> threads_table(ts, summary).len() == 0,
        ts.len() > 0 ==> {
            let alloc = exists|i: int| 0 <= i < ts.len() && (#[trigger] ts[i]).alloc_bytes is Some;
            let heads = thread_heads(alloc);
            &&& threads_table(ts, summary) == r.0 + table_text(
                heads,
                Seq::new(heads.len(), |c: int| c < 2),
                r.1,
            )
            &&& r.1.len() == ts.len()
            &&& forall|k: int| 0 <= k < ts.len() ==> #[trigger] r.1[k] == thread_row(ts[k], alloc)
        },
{
    if ts.len() == 0 {
        (Seq::empty(), Seq::empty())
    } else {
        let alloc = some_alloc(ts);
        let notes = crate::hotpath_fmt::thread_notes(summary);
        let annotation = if notes.len() == 0 {
            Seq::empty()
        } else {
            " ("@ + crate::text::joined(notes, ", "@) + ")"@
        };
        let front = "threads"@ + annotation + "\n"@;
        let rows = ts.map_values(|t: ThreadView| thread_row(t, alloc));
        let heads = thread_heads(alloc);
        assert(threads_table(ts, summary) =~= front + table_text(
            heads,
            Seq::new(heads.len(), |c: int| c < 2),
            rows,
        ));
        (front, rows)
    }
}

} // verus!
