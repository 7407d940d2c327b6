//! Profiles as column-aligned tables.

use crate::db::{
    function_refs, function_views, pair_views, thread_views, value_text, FunctionView, HotpathData,
    HotpathFunction, HotpathThread, HotpathView, KvPair, PairView, ThreadView,
};
use crate::number::arith::{difference, is_less, magnitude, product, quotient};
use crate::lockfile::process::{last_char, rfind_char};
use crate::number::bignat::BigNat;
use crate::number::double::{rounded, Double, Real};
use crate::number::fixed::signed_fixed_text;
use crate::number::parse::{parse_double, read_double};
use crate::numeral::{i64_text, int_text};
use crate::table::{grid, push_table, table_text};
use crate::text::{
    as_opt_str, chars_of, clone_or, join, joined, opt_str, opt_view, same, string_of, text_or, trim,
    trimmed, views,
};
use vstd::prelude::*;

pub mod columns;
pub mod figures;
pub mod parts;

verus! {

/// The functions of one section.
pub open spec fn of_section(fs: Seq<FunctionView>, section: Seq<char>) -> Seq<FunctionView>
    decreases fs.len(),
{
    if fs.len() == 0 {
        Seq::empty()
    } else if fs.last().section == section {
        of_section(fs.drop_last(), section).push(fs.last())
    } else {
        of_section(fs.drop_last(), section)
    }
}

fn select<'a>(functions: &'a [HotpathFunction], section: &str) -> (r: Vec<&'a HotpathFunction>)
    ensures
        function_refs(r@) == of_section(function_views(functions@), section@),
{
    let ghost all = function_views(functions@);
    let mut out: Vec<&'a HotpathFunction> = Vec::new();
    let mut i: usize = 0;
    assert(function_refs(out@) =~= of_section(all.take(0), section@));
    while i < functions.len()
        invariant
            i <= functions@.len(),
            all == function_views(functions@),
            function_refs(out@) == of_section(all.take(i as int), section@),
        decreases functions@.len() - i,
    {
        let f = &functions[i];
        assert(all.take(i + 1).drop_last() =~= all.take(i as int));
        assert(all[i as int] == f@);
        let ghost before = function_refs(out@);
        if same(f.section.as_str(), section) {
            out.push(f);
            assert(function_refs(out@) =~= before.push(f@));
        }
        i += 1;
    }
    assert(all.take(i as int) =~= all);
    out
}

/// Which of the percentile columns some function has a value for.
pub open spec fn has_percentile(fs: Seq<FunctionView>, key: Seq<char>) -> bool {
    exists|i: int| 0 <= i < fs.len() && percentile_of(#[trigger] fs[i], key) is Some
}

/// A percentile of a function by its name.
pub open spec fn percentile_of(f: FunctionView, key: Seq<char>) -> Option<Seq<char>> {
    if key == "p50"@ {
        f.p50
    } else if key == "p95"@ {
        f.p95
    } else if key == "p99"@ {
        f.p99
    } else {
        None
    }
}

/// A key alone, if it is there.
pub open spec fn key_if(there: bool, key: Seq<char>) -> Seq<Seq<char>> {
    if there {
        seq![key]
    } else {
        Seq::empty()
    }
}

/// The percentiles that some function has, in numeric order.
pub open spec fn percentile_keys(fs: Seq<FunctionView>) -> Seq<Seq<char>> {
    key_if(has_percentile(fs, "p50"@), "p50"@) + key_if(has_percentile(fs, "p95"@), "p95"@)
        + key_if(has_percentile(fs, "p99"@), "p99"@)
}

proof fn percentile_keys_are_known(fs: Seq<FunctionView>, i: int)
    requires
        0 <= i < percentile_keys(fs).len(),
    ensures
        percentile_keys(fs)[i] == "p50"@ || percentile_keys(fs)[i] == "p95"@
            || percentile_keys(fs)[i] == "p99"@,
{
    let a = key_if(has_percentile(fs, "p50"@), "p50"@);
    let b = key_if(has_percentile(fs, "p95"@), "p95"@);
    let c = key_if(has_percentile(fs, "p99"@), "p99"@);
    let ks = a + b + c;
    if i < a.len() {
        assert(ks[i] == a[i]);
    } else if i < a.len() + b.len() {
        assert(ks[i] == b[i - a.len()]);
    } else {
        assert(ks[i] == c[i - a.len() - b.len()]);
    }
}

fn any_percentile(functions: &[&HotpathFunction], key: &str) -> (r: bool)
    ensures
        r == has_percentile(function_refs(functions@), key@),
{
    let ghost fs = function_refs(functions@);
    let mut i: usize = 0;
    while i < functions.len()
        invariant
            i <= functions@.len(),
            fs == function_refs(functions@),
            forall|k: int| 0 <= k < i ==> percentile_of(#[trigger] fs[k], key@) is None,
        decreases functions@.len() - i,
    {
        let f = functions[i];
        assert(fs[i as int] == f@);
        if percentile_option(f, key).is_some() {
            return true;
        }
        i += 1;
    }
    false
}

fn percentile_option<'a>(f: &'a HotpathFunction, key: &str) -> (r: Option<&'a str>)
    ensures
        opt_str(r) == percentile_of(f@, key@),
{
    if same(key, "p50") {
        as_opt_str(&f.p50)
    } else if same(key, "p95") {
        as_opt_str(&f.p95)
    } else if same(key, "p99") {
        as_opt_str(&f.p99)
    } else {
        None
    }
}

/// Finds the percentiles that some function has, in numeric order.
pub fn detect_percentile_keys(functions: &[&HotpathFunction]) -> (r: Vec<String>)
    ensures
        views(r@) == percentile_keys(function_refs(functions@)),
{
    let mut keys: Vec<String> = Vec::new();
    if any_percentile(functions, "p50") {
        keys.push("p50".to_owned());
    }
    if any_percentile(functions, "p95") {
        keys.push("p95".to_owned());
    }
    if any_percentile(functions, "p99") {
        keys.push("p99".to_owned());
    }
    assert(views(keys@) =~= percentile_keys(function_refs(functions@)));
    keys
}

/// A percentile of a function by its name, empty where there is none.
pub fn percentile_value<'a>(f: &'a HotpathFunction, key: &str) -> (r: &'a str)
    ensures
        r@ == text_or(percentile_of(f@, key@), ""@),
{
    match percentile_option(f, key) {
        Some(v) => v,
        None => "",
    }
}

/// The heading of a percentile column.
pub open spec fn key_heading(key: Seq<char>) -> Seq<char> {
    if key == "p50"@ {
        "P50"@
    } else if key == "p95"@ {
        "P95"@
    } else {
        "P99"@
    }
}

/// How many times a function was called, as text.
pub open spec fn calls_text(calls: Option<i64>) -> Seq<char> {
    match calls {
        Some(n) => int_text(n as int),
        None => Seq::empty(),
    }
}

/// The headings of a table of functions.
pub open spec fn function_heads(keys: Seq<Seq<char>>) -> Seq<Seq<char>> {
    seq!["Function"@, "Calls"@, "Avg"@] + keys.map_values(|k: Seq<char>| key_heading(k)) + seq![
        "Total"@,
        "% Total"@,
    ]
}

/// The cells of a function in its table.
pub open spec fn function_row(f: FunctionView, keys: Seq<Seq<char>>) -> Seq<Seq<char>> {
    seq![f.name, calls_text(f.calls), text_or(f.avg, ""@)] + keys.map_values(
        |k: Seq<char>| text_or(percentile_of(f, k), ""@),
    ) + seq![text_or(f.total, ""@), text_or(f.percent_total, ""@)]
}

/// The first column to the left, all others to the right.
pub open spec fn first_left(n: nat) -> Seq<bool> {
    Seq::new(n, |c: int| c == 0)
}

/// At most `top` items, and all of them where `top` is zero.
pub open spec fn topmost<T>(s: Seq<T>, top: nat) -> Seq<T> {
    if top > 0 && top < s.len() {
        s.take(top as int)
    } else {
        s
    }
}

/// The table of the functions of a section: a headline, column headings, and a
/// row for each of the first `top` functions.
pub open spec fn functions_table(fs: Seq<FunctionView>, label: Seq<char>, top: nat) -> Seq<char> {
    if fs.len() == 0 {
        Seq::empty()
    } else {
        let keys = percentile_keys(fs);
        let heads = function_heads(keys);
        label + " - "@ + text_or(fs[0].description, ""@) + "\n"@ + table_text(
            heads,
            first_left(heads.len()),
            topmost(fs, top).map_values(|f: FunctionView| function_row(f, keys)),
        )
    }
}

fn make_row(f: &HotpathFunction, keys: &[String]) -> (r: Vec<String>)
    ensures
        views(r@) == function_row(f@, views(keys@)),
        r@.len() == keys@.len() + 5,
{
    let mut row: Vec<String> = Vec::new();
    row.push(f.name.clone());
    row.push(
        match f.calls {
            Some(n) => i64_text(n),
            None => String::new(),
        },
    );
    row.push(clone_or(&f.avg, ""));
    let ghost ks = views(keys@);
    let ghost g = |k: Seq<char>| text_or(percentile_of(f@, k), ""@);
    let ghost lead = seq![f@.name, calls_text(f@.calls), text_or(f@.avg, ""@)];
    let mut i: usize = 0;
    assert(views(row@) =~= lead + ks.map_values(g).take(0));
    while i < keys.len()
        invariant
            i <= keys@.len(),
            ks == views(keys@),
            g == (|k: Seq<char>| text_or(percentile_of(f@, k), ""@)),
            views(row@) == lead + ks.map_values(g).take(i as int),
            row@.len() == 3 + i,
            lead.len() == 3,
        decreases keys@.len() - i,
    {
        let ghost before = views(row@);
        let value = percentile_value(f, keys[i].as_str()).to_owned();
        row.push(value);
        assert(views(row@) =~= before.push(value@));
        assert(value@ == ks.map_values(g)[i as int]);
        i += 1;
        assert(views(row@) =~= lead + ks.map_values(g).take(i as int));
    }
    assert(ks.map_values(g).take(i as int) =~= ks.map_values(g));
    row.push(clone_or(&f.total, ""));
    row.push(clone_or(&f.percent_total, ""));
    assert(ks.map_values(g) =~= ks.map_values(|k: Seq<char>| text_or(percentile_of(f@, k), ""@)));
    assert(views(row@) =~= function_row(f@, ks));
    row
}

fn make_heads(keys: &[String]) -> (r: Vec<String>)
    requires
        forall|i: int|
            0 <= i < keys@.len() ==> (#[trigger] keys@[i]@ == "p50"@ || keys@[i]@ == "p95"@
                || keys@[i]@ == "p99"@),
    ensures
        views(r@) == function_heads(views(keys@)),
        r@.len() == keys@.len() + 5,
{
    let mut heads: Vec<String> = Vec::new();
    heads.push("Function".to_owned());
    heads.push("Calls".to_owned());
    heads.push("Avg".to_owned());
    let ghost ks = views(keys@);
    let ghost lead = seq!["Function"@, "Calls"@, "Avg"@];
    let ghost g = |k: Seq<char>| key_heading(k);
    let mut i: usize = 0;
    assert(views(heads@) =~= lead + ks.map_values(g).take(0));
    while i < keys.len()
        invariant
            i <= keys@.len(),
            ks == views(keys@),
            g == (|k: Seq<char>| key_heading(k)),
            views(heads@) == lead + ks.map_values(g).take(i as int),
            heads@.len() == 3 + i,
            lead.len() == 3,
        decreases keys@.len() - i,
    {
        let ghost before = views(heads@);
        let head = if same(keys[i].as_str(), "p50") {
            "P50".to_owned()
        } else if same(keys[i].as_str(), "p95") {
            "P95".to_owned()
        } else {
            "P99".to_owned()
        };
        heads.push(head);
        assert(views(heads@) =~= before.push(head@));
        assert(head@ == ks.map_values(g)[i as int]);
        i += 1;
        assert(views(heads@) =~= lead + ks.map_values(g).take(i as int));
    }
    assert(ks.map_values(g).take(i as int) =~= ks.map_values(g));
    heads.push("Total".to_owned());
    heads.push("% Total".to_owned());
    assert(ks.map_values(g) =~= ks.map_values(|k: Seq<char>| key_heading(k)));
    assert(views(heads@) =~= function_heads(ks));
    heads
}

fn left_first(n: usize) -> (r: Vec<bool>)
    ensures
        r@ == first_left(n as nat),
{
    let mut out: Vec<bool> = Vec::new();
    let mut c: usize = 0;
    while c < n
        invariant
            c <= n,
            out@.len() == c,
            forall|k: int| 0 <= k < c ==> #[trigger] out@[k] == (k == 0),
        decreases n - c,
    {
        out.push(c == 0);
        c += 1;
    }
    assert(out@ =~= first_left(n as nat));
    out
}

/// Writes the table of a section's functions behind a text.
pub fn format_functions_table(
    out: &mut String,
    functions: &[&HotpathFunction],
    label: &str,
    top: usize,
)
    ensures
        final(out)@ == old(out)@ + functions_table(function_refs(functions@), label@, top as nat),
{
    let ghost fs = function_refs(functions@);
    if functions.len() == 0 {
        assert(out@ =~= old(out)@ + functions_table(fs, label@, top as nat));
        return;
    }
    let keys = detect_percentile_keys(functions);
    let ghost ks = percentile_keys(fs);
    assert forall|i: int| 0 <= i < keys@.len() implies (#[trigger] keys@[i]@ == "p50"@ || keys@[i]@
        == "p95"@ || keys@[i]@ == "p99"@) by {
        assert(views(keys@)[i] == ks[i]);
        percentile_keys_are_known(fs, i);
    }
    let heads = make_heads(&keys);
    let n: usize = if top > 0 && top < functions.len() {
        top
    } else {
        functions.len()
    };
    let mut rows: Vec<Vec<String>> = Vec::new();
    let mut i: usize = 0;
    while i < n
        invariant
            i <= n <= functions@.len(),
            fs == function_refs(functions@),
            views(keys@) == ks,
            heads@.len() == keys@.len() + 5,
            rows@.len() == i,
            forall|k: int| 0 <= k < i ==> (#[trigger] rows@[k])@.len() == heads@.len(),
            forall|k: int| 0 <= k < i ==> views((#[trigger] rows@[k])@) == function_row(fs[k], ks),
        decreases n - i,
    {
        assert(fs[i as int] == functions@[i as int]@);
        rows.push(make_row(functions[i], &keys));
        i += 1;
    }
    let ghost shown = topmost(fs, top as nat).map_values(|f: FunctionView| function_row(f, ks));
    assert(grid(rows@) =~= shown);
    out.append(label);
    out.append(" - ");
    let description = clone_or(&functions[0].description, "");
    assert(fs[0] == functions@[0]@);
    out.append(description.as_str());
    out.append("\n");
    let left = left_first(heads.len());
    push_table(out, &heads, &left, &rows);
    assert(views(heads@).len() == heads@.len());
    assert(out@ =~= old(out)@ + functions_table(fs, label@, top as nat));
}

/// The value of the first pair with the key.
pub open spec fn first_value(kv: Seq<PairView>, key: Seq<char>) -> Option<Seq<char>>
    decreases kv.len(),
{
    if kv.len() == 0 {
        None
    } else if kv[0].key == key {
        Some(value_text(kv[0].value))
    } else {
        first_value(kv.skip(1), key)
    }
}

fn find_value(kv: &[KvPair], key: &str) -> (r: Option<String>)
    ensures
        opt_view(r) == first_value(pair_views(kv@), key@),
{
    let ghost all = pair_views(kv@);
    let mut i: usize = 0;
    assert(all.skip(0) =~= all);
    while i < kv.len()
        invariant
            i <= kv@.len(),
            all == pair_views(kv@),
            first_value(all, key@) == first_value(all.skip(i as int), key@),
        decreases kv@.len() - i,
    {
        assert(all.skip(i as int)[0] == kv@[i as int]@);
        assert(all.skip(i as int).skip(1) =~= all.skip(i + 1));
        if same(kv[i].key.as_str(), key) {
            return Some(kv_value_str(&kv[i]));
        }
        i += 1;
    }
    None
}

/// Writes the value of a pair.
pub fn kv_value_str(kv: &KvPair) -> (r: String)
    ensures
        r@ == value_text(kv@.value),
{
    kv.value.to_text()
}

/// The figures over all threads that stand behind the headline: the resident
/// size; and the allocations where both sides are known, with their difference.
pub open spec fn thread_notes(summary: Seq<PairView>) -> Seq<Seq<char>> {
    let rss = first_value(summary, "threads.rss_bytes"@);
    let alloc = first_value(summary, "threads.total_alloc_bytes"@);
    let dealloc = first_value(summary, "threads.total_dealloc_bytes"@);
    let diff = first_value(summary, "threads.alloc_dealloc_diff"@);
    let first = match rss {
        Some(v) => seq!["RSS: "@ + v],
        None => Seq::empty(),
    };
    let second = match (alloc, dealloc) {
        (Some(a), Some(d)) => seq!["Alloc: "@ + a, "Dealloc: "@ + d] + match diff {
            Some(v) => seq!["Diff: "@ + v],
            None => Seq::empty(),
        },
        _ => Seq::empty(),
    };
    first + second
}

/// Whether some thread has figures on its allocations.
pub open spec fn some_alloc(ts: Seq<ThreadView>) -> bool {
    exists|i: int| 0 <= i < ts.len() && (#[trigger] ts[i]).alloc_bytes is Some
}

/// The headings of the table of threads.
pub open spec fn thread_heads(alloc: bool) -> Seq<Seq<char>> {
    let lead = seq!["Thread"@, "Status"@, "CPU%"@, "Max%"@, "Avg%"@];
    if alloc {
        lead + seq!["Alloc"@, "Dealloc"@, "Diff"@]
    } else {
        lead
    }
}

/// The cells of a thread in its table.
pub open spec fn thread_row(t: ThreadView, alloc: bool) -> Seq<Seq<char>> {
    let lead = seq![
        t.name,
        text_or(t.status, ""@),
        text_or(t.cpu_percent, "-"@),
        text_or(t.cpu_percent_max, "-"@),
        text_or(t.cpu_percent_avg, "-"@),
    ];
    if alloc {
        lead + seq![
            text_or(t.alloc_bytes, "-"@),
            text_or(t.dealloc_bytes, "-"@),
            text_or(t.mem_diff, "-"@),
        ]
    } else {
        lead
    }
}

/// The first two columns to the left, all others to the right.
pub open spec fn two_left(n: nat) -> Seq<bool> {
    Seq::new(n, |c: int| c < 2)
}

/// The table of threads: a headline with the figures over all of them, column
/// headings, and a row for each thread.
pub open spec fn threads_table(ts: Seq<ThreadView>, summary: Seq<PairView>) -> Seq<char> {
    if ts.len() == 0 {
        Seq::empty()
    } else {
        let notes = thread_notes(summary);
        let alloc = some_alloc(ts);
        let heads = thread_heads(alloc);
        let annotation = if notes.len() == 0 {
            Seq::empty()
        } else {
            " ("@ + joined(notes, ", "@) + ")"@
        };
        "threads"@ + annotation + "\n"@ + table_text(
            heads,
            two_left(heads.len()),
            ts.map_values(|t: ThreadView| thread_row(t, alloc)),
        )
    }
}

/// The value, or a dash where there is none.
pub fn opt_or_dash(val: Option<&str>) -> (r: &str)
    ensures
        r@ == text_or(opt_str(val), "-"@),
{
    match val {
        Some(v) => v,
        None => "-",
    }
}

fn note_threads(summary: &[KvPair]) -> (r: Vec<String>)
    ensures
        views(r@) == thread_notes(pair_views(summary@)),
{
    let mut notes: Vec<String> = Vec::new();
    match find_value(summary, "threads.rss_bytes") {
        Some(v) => {
            let mut note = "RSS: ".to_owned();
            note.append(v.as_str());
            notes.push(note);
        },
        None => {},
    }
    let alloc = find_value(summary, "threads.total_alloc_bytes");
    let dealloc = find_value(summary, "threads.total_dealloc_bytes");
    match (alloc, dealloc) {
        (Some(a), Some(d)) => {
            let mut note = "Alloc: ".to_owned();
            note.append(a.as_str());
            notes.push(note);
            let mut note = "Dealloc: ".to_owned();
            note.append(d.as_str());
            notes.push(note);
            match find_value(summary, "threads.alloc_dealloc_diff") {
                Some(v) => {
                    let mut note = "Diff: ".to_owned();
                    note.append(v.as_str());
                    notes.push(note);
                },
                None => {},
            }
        },
        _ => {},
    }
    assert(views(notes@) =~= thread_notes(pair_views(summary@)));
    notes
}

fn make_thread_row(t: &HotpathThread, alloc: bool) -> (r: Vec<String>)
    ensures
        views(r@) == thread_row(t@, alloc),
        r@.len() == if alloc { 8int } else { 5int },
{
    let mut row: Vec<String> = Vec::new();
    row.push(t.name.clone());
    row.push(clone_or(&t.status, ""));
    row.push(opt_or_dash(as_opt_str(&t.cpu_percent)).to_owned());
    row.push(opt_or_dash(as_opt_str(&t.cpu_percent_max)).to_owned());
    row.push(opt_or_dash(as_opt_str(&t.cpu_percent_avg)).to_owned());
    if alloc {
        row.push(opt_or_dash(as_opt_str(&t.alloc_bytes)).to_owned());
        row.push(opt_or_dash(as_opt_str(&t.dealloc_bytes)).to_owned());
        row.push(opt_or_dash(as_opt_str(&t.mem_diff)).to_owned());
    }
    assert(views(row@) =~= thread_row(t@, alloc));
    row
}

fn make_thread_heads(alloc: bool) -> (r: (Vec<String>, Vec<bool>))
    ensures
        views(r.0@) == thread_heads(alloc),
        r.1@ == two_left(thread_heads(alloc).len()),
        r.0@.len() == if alloc { 8int } else { 5int },
{
    let mut heads: Vec<String> = vec![
        "Thread".to_owned(),
        "Status".to_owned(),
        "CPU%".to_owned(),
        "Max%".to_owned(),
        "Avg%".to_owned(),
    ];
    let mut left: Vec<bool> = vec![true, true, false, false, false];
    if alloc {
        heads.push("Alloc".to_owned());
        heads.push("Dealloc".to_owned());
        heads.push("Diff".to_owned());
        left.push(false);
        left.push(false);
        left.push(false);
    }
    assert(views(heads@) =~= thread_heads(alloc));
    assert(left@ =~= two_left(thread_heads(alloc).len()));
    (heads, left)
}

/// Writes the table of threads behind a text.
pub fn format_threads_table(out: &mut String, threads: &[HotpathThread], summary: &[KvPair])
    ensures
        final(out)@ == old(out)@ + threads_table(thread_views(threads@), pair_views(summary@)),
{
    let ghost ts = thread_views(threads@);
    if threads.len() == 0 {
        assert(out@ =~= old(out)@ + threads_table(ts, pair_views(summary@)));
        return;
    }
    let notes = note_threads(summary);
    let mut alloc = false;
    let mut i: usize = 0;
    while i < threads.len() && !alloc
        invariant
            i <= threads@.len(),
            ts == thread_views(threads@),
            alloc ==> some_alloc(ts),
            !alloc ==> forall|k: int| 0 <= k < i ==> (#[trigger] ts[k]).alloc_bytes is None,
        decreases threads@.len() - i,
    {
        assert(ts[i as int] == threads@[i as int]@);
        if threads[i].alloc_bytes.is_some() {
            alloc = true;
        }
        i += 1;
    }
    assert(alloc == some_alloc(ts));
    let (heads, left) = make_thread_heads(alloc);
    let mut rows: Vec<Vec<String>> = Vec::new();
    let mut k: usize = 0;
    while k < threads.len()
        invariant
            k <= threads@.len(),
            ts == thread_views(threads@),
            heads@.len() == if alloc { 8int } else { 5int },
            rows@.len() == k,
            forall|j: int| 0 <= j < k ==> (#[trigger] rows@[j])@.len() == heads@.len(),
            forall|j: int| 0 <= j < k ==> views((#[trigger] rows@[j])@) == thread_row(ts[j], alloc),
        decreases threads@.len() - k,
    {
        assert(ts[k as int] == threads@[k as int]@);
        rows.push(make_thread_row(&threads[k], alloc));
        k += 1;
    }
    assert(grid(rows@) =~= ts.map_values(|t: ThreadView| thread_row(t, alloc)));
    let ghost start = out@;
    out.append("threads");
    let ghost summary_notes = views(notes@);
    if notes.len() > 0 {
        let list = join(&notes, ", ");
        out.append(" (");
        out.append(list.as_str());
        out.append(")");
    }
    out.append("\n");
    push_table(out, &heads, &left, &rows);
    assert(summary_notes.len() == notes@.len());
    assert(out@ =~= start + threads_table(ts, pair_views(summary@)));
}

/// A part of a report, behind an empty line where something stands before it.
pub open spec fn report_part(before: Seq<char>, part: Seq<char>) -> Seq<char> {
    if part.len() == 0 {
        before
    } else if before.len() == 0 {
        part
    } else {
        before + seq!['\n'] + part
    }
}

/// The report on a profile: the tables of what it holds, with empty lines
/// between them.
pub open spec fn hotpath_report(data: HotpathView, top: nat) -> Seq<char> {
    report_part(
        report_part(
            functions_table(of_section(data.functions, "timing"@), "timing"@, top),
            functions_table(of_section(data.functions, "alloc"@), "alloc"@, top),
        ),
        threads_table(data.threads, data.thread_summary),
    )
}

proof fn tables_are_not_empty(
    fs: Seq<FunctionView>,
    label: Seq<char>,
    top: nat,
    ts: Seq<ThreadView>,
    summary: Seq<PairView>,
)
    ensures
        fs.len() > 0 <==> functions_table(fs, label, top).len() > 0,
        ts.len() > 0 <==> threads_table(ts, summary).len() > 0,
{
    reveal_strlit(" - ");
    reveal_strlit("threads");
}

/// Writes the report on a profile, if it holds a function or a thread to report.
pub fn format_hotpath_report(data: &HotpathData, top: usize) -> (r: Option<String>)
    ensures
        of_section(data@.functions, "timing"@).len() == 0 && of_section(
            data@.functions,
            "alloc"@,
        ).len() == 0 && data@.threads.len() == 0 <==> r is None,
        r matches Some(t) ==> t@ == hotpath_report(data@, top as nat) && t@.len() > 0,
{
    let timing = select(&data.functions, "timing");
    let alloc = select(&data.functions, "alloc");
    proof {
        tables_are_not_empty(
            function_refs(timing@),
            "timing"@,
            top as nat,
            data@.threads,
            data@.thread_summary,
        );
        tables_are_not_empty(
            function_refs(alloc@),
            "alloc"@,
            top as nat,
            data@.threads,
            data@.thread_summary,
        );
        assert(function_refs(timing@).len() == timing@.len());
        assert(function_refs(alloc@).len() == alloc@.len());
        assert(data@.threads.len() == data.threads@.len());
    }
    if timing.len() == 0 && alloc.len() == 0 && data.threads.len() == 0 {
        return None;
    }
    let mut out = String::new();
    let ghost first = functions_table(function_refs(timing@), "timing"@, top as nat);
    let ghost second = functions_table(function_refs(alloc@), "alloc"@, top as nat);
    let ghost third = threads_table(data@.threads, data@.thread_summary);
    format_functions_table(&mut out, &timing, "timing", top);
    assert(out@ =~= first);
    if alloc.len() > 0 {
        if timing.len() > 0 {
            out.push('\n');
        }
        format_functions_table(&mut out, &alloc, "alloc", top);
    }
    assert(out@ =~= report_part(first, second));
    if data.threads.len() > 0 {
        if timing.len() > 0 || alloc.len() > 0 {
            out.push('\n');
        }
        format_threads_table(&mut out, &data.threads, &data.thread_summary);
    }
    assert(out@ =~= report_part(report_part(first, second), third));
    Some(out)
}

/// The factor of a unit: durations count in milliseconds, sizes in bytes.
pub open spec fn unit_factor(unit: Seq<char>) -> Option<Real> {
    if unit == "ns"@ {
        Some(rounded(false, 1, 1_000_000))
    } else if unit == "\u{b5}s"@ {
        Some(rounded(false, 1, 1_000))
    } else if unit == "ms"@ || unit == "B"@ {
        Some(rounded(false, 1, 1))
    } else if unit == "s"@ {
        Some(rounded(false, 1_000, 1))
    } else if unit == "KB"@ {
        Some(rounded(false, 1_024, 1))
    } else if unit == "MB"@ {
        Some(rounded(false, 1_048_576, 1))
    } else if unit == "GB"@ {
        Some(rounded(false, 1_073_741_824, 1))
    } else {
        None
    }
}

/// The value of a figure: a percentage, or a number and a unit behind the last blank.
pub open spec fn metric_value(text: Seq<char>) -> Option<Real> {
    let s = trimmed(text);
    let at = last_char(s, ' ', s.len() as int);
    if s.len() == 0 {
        None
    } else if s.last() == '%' {
        read_double(trimmed(s.drop_last()))
    } else if at < 0 {
        None
    } else {
        match (read_double(trimmed(s.take(at))), unit_factor(trimmed(s.skip(at + 1)))) {
            (Some(n), Some(f)) => Some(product(n, f)),
            _ => None,
        }
    }
}

/// The value of an optional number.
pub open spec fn opt_real(x: Option<Double>) -> Option<Real> {
    match x {
        Some(d) => Some(d@),
        None => None,
    }
}

fn ratio(n: u64, d: u64) -> (r: Double)
    requires
        d > 0,
    ensures
        r@ == rounded(false, n as nat, d as nat),
{
    Double::of_ratio(false, &BigNat::from_u64(n), &BigNat::from_u64(d))
}

fn find_factor(unit: &str) -> (r: Option<Double>)
    ensures
        opt_real(r) == unit_factor(unit@),
{
    if same(unit, "ns") {
        Some(ratio(1, 1_000_000))
    } else if same(unit, "\u{b5}s") {
        Some(ratio(1, 1_000))
    } else if same(unit, "ms") || same(unit, "B") {
        Some(ratio(1, 1))
    } else if same(unit, "s") {
        Some(ratio(1_000, 1))
    } else if same(unit, "KB") {
        Some(ratio(1_024, 1))
    } else if same(unit, "MB") {
        Some(ratio(1_048_576, 1))
    } else if same(unit, "GB") {
        Some(ratio(1_073_741_824, 1))
    } else {
        None
    }
}

/// Reads a figure such as `1.5 ms`, `2 KB` or `42.5%`: a duration in
/// milliseconds, a size in bytes, or a percentage.
pub fn parse_metric(s: &str) -> (r: Option<Double>)
    ensures
        opt_real(r) == metric_value(s@),
{
    let t = trim(s);
    let cs = chars_of(t.as_str());
    let n: usize = cs.len();
    if n == 0 {
        return None;
    }
    if cs[n - 1] == '%' {
        let front = string_of(&cs, 0, n - 1);
        assert(front@ =~= trimmed(s@).drop_last());
        let number = trim(front.as_str());
        return parse_double(number.as_str());
    }
    match rfind_char(&cs, ' ') {
        Some(at) => {
            let front = string_of(&cs, 0, at);
            let back = string_of(&cs, at + 1, n);
            assert(front@ =~= trimmed(s@).take(at as int));
            assert(back@ =~= trimmed(s@).skip(at + 1));
            let number = trim(front.as_str());
            let unit = trim(back.as_str());
            match (parse_double(number.as_str()), find_factor(unit.as_str())) {
                (Some(x), Some(f)) => Some(x.times(f)),
                _ => None,
            }
        },
        None => None,
    }
}

/// The distance from one to the next larger number.
pub open spec fn epsilon() -> Real {
    rounded(false, 1, 0x10_0000_0000_0000)
}

/// A hundred.
pub open spec fn hundred() -> Real {
    rounded(false, 100, 1)
}

/// How a figure changed: in per cent of the first, where both can be read and
/// the first is not zero.
pub open spec fn change_text(a: Option<Seq<char>>, b: Option<Seq<char>>) -> Seq<char> {
    match (a, b) {
        (Some(x), Some(y)) => match (metric_value(x), metric_value(y)) {
            (Some(fa), Some(fb)) => if is_less(epsilon(), magnitude(fa)) {
                signed_fixed_text(product(quotient(difference(fb, fa), fa), hundred()), 1) + "%"@
            } else {
                "--"@
            },
            _ => "--"@,
        },
        (Some(_), None) => "(gone)"@,
        (None, Some(_)) => "(new)"@,
        (None, None) => "--"@,
    }
}

/// Writes how a figure changed: `+10.0%`, or that it is new, gone or not comparable.
pub fn format_change_str(a: Option<&str>, b: Option<&str>) -> (r: String)
    ensures
        r@ == change_text(opt_str(a), opt_str(b)),
{
    match (a, b) {
        (Some(x), Some(y)) => match (parse_metric(x), parse_metric(y)) {
            (Some(fa), Some(fb)) => {
                if ratio(1, 0x10_0000_0000_0000).less(fa.abs()) {
                    let pct = fb.minus(fa).over(fa).times(ratio(100, 1));
                    let mut out = pct.signed_fixed(1);
                    out.append("%");
                    out
                } else {
                    "--".to_owned()
                }
            },
            _ => "--".to_owned(),
        },
        (Some(_), None) => "(gone)".to_owned(),
        (None, Some(_)) => "(new)".to_owned(),
        (None, None) => "--".to_owned(),
    }
}

/// The names of the functions that have one, in order.
pub open spec fn names_of(fs: Seq<FunctionView>) -> Seq<Seq<char>>
    decreases fs.len(),
{
    if fs.len() == 0 {
        Seq::empty()
    } else if fs.last().name.len() > 0 {
        names_of(fs.drop_last()).push(fs.last().name)
    } else {
        names_of(fs.drop_last())
    }
}

/// Whether some function has the name.
pub open spec fn has_name(fs: Seq<FunctionView>, name: Seq<char>) -> bool {
    exists|i: int| 0 <= i < fs.len() && (#[trigger] fs[i]).name == name
}

/// The names of the functions of the second side that the first does not have.
pub open spec fn new_names(fs: Seq<FunctionView>, known: Seq<FunctionView>) -> Seq<Seq<char>>
    decreases fs.len(),
{
    if fs.len() == 0 {
        Seq::empty()
    } else if fs.last().name.len() > 0 && !has_name(known, fs.last().name) {
        new_names(fs.drop_last(), known).push(fs.last().name)
    } else {
        new_names(fs.drop_last(), known)
    }
}

/// The total of the last function with the name.
pub open spec fn total_of(fs: Seq<FunctionView>, name: Seq<char>) -> Option<Seq<char>>
    decreases fs.len(),
{
    if fs.len() == 0 {
        None
    } else if fs.last().name == name {
        fs.last().total
    } else {
        total_of(fs.drop_last(), name)
    }
}

/// The names in a comparison: those of the first side in its order, then what
/// is new on the second, `top` of them at most.
pub open spec fn diff_names(
    a: Seq<FunctionView>,
    b: Seq<FunctionView>,
    top: nat,
) -> Seq<Seq<char>> {
    topmost(names_of(a) + new_names(b, a), top)
}

/// The cells of one name in a comparison.
pub open spec fn diff_row(
    a: Seq<FunctionView>,
    b: Seq<FunctionView>,
    name: Seq<char>,
) -> Seq<Seq<char>> {
    let ta = total_of(a, name);
    let tb = total_of(b, name);
    seq![name, text_or(ta, "--"@), text_or(tb, "--"@), change_text(ta, tb)]
}

/// The description of the first function, if there is one.
pub open spec fn description_of(fs: Seq<FunctionView>) -> Option<Seq<char>> {
    if fs.len() == 0 {
        None
    } else {
        fs[0].description
    }
}

/// The comparison of one section: a headline, column headings, and a row for
/// each name; nothing where there is no name.
pub open spec fn section_diff(
    label: Seq<char>,
    a: Seq<FunctionView>,
    b: Seq<FunctionView>,
    top: nat,
) -> Seq<char> {
    let names = diff_names(a, b, top);
    let description = match description_of(a) {
        Some(d) => d,
        None => text_or(description_of(b), ""@),
    };
    if names.len() == 0 {
        Seq::empty()
    } else {
        label + " - "@ + description + "\n"@ + table_text(
            seq!["Function"@, "Total A"@, "Total B"@, "Change"@],
            first_left(4),
            names.map_values(|n: Seq<char>| diff_row(a, b, n)),
        )
    }
}

fn collect_names(data_a: &[&HotpathFunction], data_b: &[&HotpathFunction]) -> (r: Vec<String>)
    ensures
        views(r@) == names_of(function_refs(data_a@)) + new_names(
            function_refs(data_b@),
            function_refs(data_a@),
        ),
{
    let ghost a = function_refs(data_a@);
    let ghost b = function_refs(data_b@);
    let mut names: Vec<String> = Vec::new();
    let mut i: usize = 0;
    assert(views(names@) =~= names_of(a.take(0)));
    while i < data_a.len()
        invariant
            i <= data_a@.len(),
            a == function_refs(data_a@),
            views(names@) == names_of(a.take(i as int)),
        decreases data_a@.len() - i,
    {
        let f = data_a[i];
        assert(a.take(i + 1).drop_last() =~= a.take(i as int));
        assert(a[i as int] == f@);
        let ghost before = views(names@);
        if f.name.as_str().unicode_len() > 0 {
            let name = f.name.clone();
            names.push(name);
            assert(views(names@) =~= before.push(f@.name));
        }
        i += 1;
    }
    assert(a.take(i as int) =~= a);
    let ghost first = names_of(a);
    let mut k: usize = 0;
    assert(views(names@) =~= first + new_names(b.take(0), a));
    while k < data_b.len()
        invariant
            k <= data_b@.len(),
            a == function_refs(data_a@),
            b == function_refs(data_b@),
            views(names@) == first + new_names(b.take(k as int), a),
        decreases data_b@.len() - k,
    {
        let f = data_b[k];
        assert(b.take(k + 1).drop_last() =~= b.take(k as int));
        assert(b[k as int] == f@);
        let ghost before = views(names@);
        if f.name.as_str().unicode_len() > 0 && !is_named(data_a, f.name.as_str()) {
            let name = f.name.clone();
            names.push(name);
            assert(views(names@) =~= before.push(f@.name));
            assert(views(names@) =~= first + new_names(b.take(k + 1), a));
        }
        k += 1;
    }
    assert(b.take(k as int) =~= b);
    names
}

fn is_named(functions: &[&HotpathFunction], name: &str) -> (r: bool)
    ensures
        r == has_name(function_refs(functions@), name@),
{
    let ghost fs = function_refs(functions@);
    let mut i: usize = 0;
    while i < functions.len()
        invariant
            i <= functions@.len(),
            fs == function_refs(functions@),
            forall|k: int| 0 <= k < i ==> (#[trigger] fs[k]).name != name@,
        decreases functions@.len() - i,
    {
        assert(fs[i as int] == functions@[i as int]@);
        if same(functions[i].name.as_str(), name) {
            return true;
        }
        i += 1;
    }
    false
}

fn find_total<'a>(functions: &[&'a HotpathFunction], name: &str) -> (r: Option<&'a str>)
    ensures
        opt_str(r) == total_of(function_refs(functions@), name@),
{
    let ghost fs = function_refs(functions@);
    let mut i: usize = functions.len();
    assert(fs.take(i as int) =~= fs);
    while i > 0
        invariant
            i <= functions@.len(),
            fs == function_refs(functions@),
            total_of(fs, name@) == total_of(fs.take(i as int), name@),
        decreases i,
    {
        let f = functions[i - 1];
        assert(fs.take(i as int).last() == f@);
        assert(fs.take(i as int).drop_last() =~= fs.take(i - 1));
        if same(f.name.as_str(), name) {
            return as_opt_str(&f.total);
        }
        i -= 1;
    }
    None
}

fn or_dashes(val: Option<&str>) -> (r: String)
    ensures
        r@ == text_or(opt_str(val), "--"@),
{
    match val {
        Some(v) => v.to_owned(),
        None => "--".to_owned(),
    }
}

fn make_diff_row(data_a: &[&HotpathFunction], data_b: &[&HotpathFunction], name: &str) -> (r: Vec<
    String,
>)
    ensures
        views(r@) == diff_row(function_refs(data_a@), function_refs(data_b@), name@),
        r@.len() == 4,
{
    let ta = find_total(data_a, name);
    let tb = find_total(data_b, name);
    let row = vec![name.to_owned(), or_dashes(ta), or_dashes(tb), format_change_str(ta, tb)];
    assert(views(row@) =~= diff_row(function_refs(data_a@), function_refs(data_b@), name@));
    row
}

/// Writes the comparison of one section of two profiles.
pub fn format_section_diff(
    label: &str,
    data_a: &[&HotpathFunction],
    data_b: &[&HotpathFunction],
    top: usize,
) -> (r: String)
    ensures
        r@ == section_diff(
            label@,
            function_refs(data_a@),
            function_refs(data_b@),
            top as nat,
        ),
{
    let ghost a = function_refs(data_a@);
    let ghost b = function_refs(data_b@);
    let all = collect_names(data_a, data_b);
    let n: usize = if top > 0 && top < all.len() {
        top
    } else {
        all.len()
    };
    let ghost names = diff_names(a, b, top as nat);
    assert(views(all@).len() == all@.len());
    assert(names =~= views(all@).take(n as int));
    if n == 0 {
        return String::new();
    }
    let mut rows: Vec<Vec<String>> = Vec::new();
    let mut i: usize = 0;
    while i < n
        invariant
            i <= n <= all@.len(),
            a == function_refs(data_a@),
            b == function_refs(data_b@),
            names == views(all@).take(n as int),
            rows@.len() == i,
            forall|k: int| 0 <= k < i ==> (#[trigger] rows@[k])@.len() == 4,
            forall|k: int| 0 <= k < i ==> views((#[trigger] rows@[k])@) == diff_row(a, b, names[k]),
        decreases n - i,
    {
        assert(names[i as int] == all@[i as int]@);
        rows.push(make_diff_row(data_a, data_b, all[i].as_str()));
        i += 1;
    }
    assert(grid(rows@) =~= names.map_values(|n: Seq<char>| diff_row(a, b, n)));
    let heads: Vec<String> = vec![
        "Function".to_owned(),
        "Total A".to_owned(),
        "Total B".to_owned(),
        "Change".to_owned(),
    ];
    assert(views(heads@) =~= seq!["Function"@, "Total A"@, "Total B"@, "Change"@]);
    let mut out = label.to_owned();
    out.append(" - ");
    let mut description = String::new();
    let mut known = false;
    if data_a.len() > 0 {
        assert(a[0] == data_a@[0]@);
        match &data_a[0].description {
            Some(d) => {
                description = d.clone();
                known = true;
            },
            None => {},
        }
    }
    if !known && data_b.len() > 0 {
        assert(b[0] == data_b@[0]@);
        match &data_b[0].description {
            Some(d) => {
                description = d.clone();
            },
            None => {},
        }
    }
    proof {
        reveal_strlit("");
        assert(""@ =~= Seq::<char>::empty());
    }
    out.append(description.as_str());
    out.append("\n");
    let left = left_first(4);
    push_table(&mut out, &heads, &left, &rows);
    out
}

/// The comparison of two profiles, section by section; allocations are compared
/// where a side has functions with them, behind an empty line.
pub open spec fn hotpath_diff(a: HotpathView, b: HotpathView, top: nat) -> Seq<char> {
    let first = section_diff(
        "timing"@,
        of_section(a.functions, "timing"@),
        of_section(b.functions, "timing"@),
        top,
    );
    let alloc_a = of_section(a.functions, "alloc"@);
    let alloc_b = of_section(b.functions, "alloc"@);
    if alloc_a.len() == 0 && alloc_b.len() == 0 {
        first
    } else if first.len() == 0 {
        section_diff("alloc"@, alloc_a, alloc_b, top)
    } else {
        first + seq!['\n'] + section_diff("alloc"@, alloc_a, alloc_b, top)
    }
}

/// Writes the comparison of two profiles, if there is something to compare.
pub fn format_hotpath_diff(data_a: &HotpathData, data_b: &HotpathData, top: usize) -> (r: Option<
    String,
>)
    ensures
        hotpath_diff(data_a@, data_b@, top as nat).len() == 0 <==> r is None,
        r matches Some(t) ==> t@ == hotpath_diff(data_a@, data_b@, top as nat),
{
    let timing_a = select(&data_a.functions, "timing");
    let timing_b = select(&data_b.functions, "timing");
    let alloc_a = select(&data_a.functions, "alloc");
    let alloc_b = select(&data_b.functions, "alloc");
    assert(function_refs(alloc_a@).len() == alloc_a@.len());
    assert(function_refs(alloc_b@).len() == alloc_b@.len());
    let mut out = format_section_diff("timing", &timing_a, &timing_b, top);
    let ghost first = out@;
    if alloc_a.len() > 0 || alloc_b.len() > 0 {
        if out.as_str().unicode_len() > 0 {
            out.push('\n');
        }
        let second = format_section_diff("alloc", &alloc_a, &alloc_b, top);
        out.append(second.as_str());
        assert(first.len() == 0 ==> out@ =~= second@);
        assert(first.len() > 0 ==> out@ =~= first + seq!['\n'] + second@);
    }
    if out.as_str().unicode_len() == 0 {
        None
    } else {
        Some(out)
    }
}

proof fn names_are_listed(fs: Seq<FunctionView>, name: Seq<char>)
    requires
        name.len() > 0,
    ensures
        names_of(fs).contains(name) <==> has_name(fs, name),
    decreases fs.len(),
{
    if fs.len() == 0 {
        assert(!has_name(fs, name));
    } else {
        let front = fs.drop_last();
        names_are_listed(front, name);
        name_in_longer(fs, name);
        listed_in_longer(names_of(front), fs.last().name, name);
    }
}

proof fn new_names_are_listed(fs: Seq<FunctionView>, known: Seq<FunctionView>, name: Seq<char>)
    requires
        name.len() > 0,
    ensures
        new_names(fs, known).contains(name) <==> has_name(fs, name) && !has_name(known, name),
    decreases fs.len(),
{
    if fs.len() == 0 {
        assert(!has_name(fs, name));
    } else {
        let front = fs.drop_last();
        new_names_are_listed(front, known, name);
        name_in_longer(fs, name);
        listed_in_longer(new_names(front, known), fs.last().name, name);
    }
}

proof fn name_in_longer(fs: Seq<FunctionView>, name: Seq<char>)
    requires
        fs.len() > 0,
    ensures
        has_name(fs, name) <==> has_name(fs.drop_last(), name) || fs.last().name == name,
{
    let front = fs.drop_last();
    if has_name(fs, name) {
        let i = choose|i: int| 0 <= i < fs.len() && (#[trigger] fs[i]).name == name;
        if i < front.len() {
            assert(front[i].name == name);
        }
    }
    if has_name(front, name) {
        let i = choose|i: int| 0 <= i < front.len() && (#[trigger] front[i]).name == name;
        assert(fs[i].name == name);
    }
    assert(fs[fs.len() - 1] == fs.last());
}

proof fn listed_in_longer(list: Seq<Seq<char>>, x: Seq<char>, name: Seq<char>)
    ensures
        list.push(x).contains(name) <==> list.contains(name) || x == name,
{
    let long = list.push(x);
    if list.contains(name) {
        let i = choose|i: int| 0 <= i < list.len() && list[i] == name;
        assert(long[i] == name);
    }
    if x == name {
        assert(long[list.len() as int] == name);
    }
    if long.contains(name) {
        let i = choose|i: int| 0 <= i < long.len() && long[i] == name;
        if i < list.len() {
            assert(list[i] == name);
        }
    }
}

/// A comparison without a limit has a row for exactly the functions that one side
/// or the other names.
pub proof fn compared_exactly(a: Seq<FunctionView>, b: Seq<FunctionView>, name: Seq<char>)
    requires
        name.len() > 0,
    ensures
        diff_names(a, b, 0).contains(name) <==> has_name(a, name) || has_name(b, name),
{
    names_are_listed(a, name);
    new_names_are_listed(b, a, name);
    let first = names_of(a);
    let second = new_names(b, a);
    let all = first + second;
    if first.contains(name) {
        let i = choose|i: int| 0 <= i < first.len() && first[i] == name;
        assert(all[i] == name);
    }
    if second.contains(name) {
        let i = choose|i: int| 0 <= i < second.len() && second[i] == name;
        assert(all[first.len() + i] == name);
    }
    if all.contains(name) {
        let i = choose|i: int| 0 <= i < all.len() && all[i] == name;
        if i < first.len() {
            assert(first[i] == name);
        } else {
            assert(second[i - first.len()] == name);
        }
    }
}

} // verus!
