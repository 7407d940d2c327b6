//! What holds of the parts of a report on profiles.

use crate::db::{FunctionView, HotpathView, PairView};
use crate::hotpath_fmt::columns::section_is_chosen;
use crate::hotpath_fmt::{
    calls_text, first_value, functions_table, hotpath_diff, hotpath_report, section_diff,
    thread_notes, threads_table,
};
use crate::numeral::int_text;
use vstd::prelude::*;

verus! {

/// A report tells of the times first, then of the allocations, then of the threads,
/// with an empty line between those that there are.
pub proof fn parts_are_in_order(data: HotpathView, top: nat)
    ensures
        ({
            let times = functions_table(
                data.functions.filter(|f: FunctionView| f.section == "timing"@),
                "timing"@,
                top,
            );
            let allocs = functions_table(
                data.functions.filter(|f: FunctionView| f.section == "alloc"@),
                "alloc"@,
                top,
            );
            let threads = threads_table(data.threads, data.thread_summary);
            let all = hotpath_report(data, top);
            &&& times.len() > 0 && allocs.len() > 0 && threads.len() > 0 ==> all == times
                + seq!['\n'] + allocs + seq!['\n'] + threads
            &&& times.len() > 0 && allocs.len() > 0 && threads.len() == 0 ==> all == times
                + seq!['\n'] + allocs
            &&& times.len() > 0 && allocs.len() == 0 && threads.len() > 0 ==> all == times
                + seq!['\n'] + threads
            &&& times.len() == 0 && allocs.len() > 0 && threads.len() > 0 ==> all == allocs
                + seq!['\n'] + threads
            &&& times.len() > 0 && allocs.len() == 0 && threads.len() == 0 ==> all == times
            &&& times.len() == 0 && allocs.len() > 0 && threads.len() == 0 ==> all == allocs
            &&& times.len() == 0 && allocs.len() == 0 && threads.len() > 0 ==> all == threads
            &&& times.len() == 0 && allocs.len() == 0 && threads.len() == 0 ==> all.len() == 0
        }),
{
    section_is_chosen(data.functions, "timing"@);
    section_is_chosen(data.functions, "alloc"@);
}

/// A comparison sets the times of the two sides against each other, the first side
/// first, and then their allocations.
pub proof fn comparison_is_by_section(a: HotpathView, b: HotpathView, top: nat)
    ensures
        ({
            let times = section_diff(
                "timing"@,
                a.functions.filter(|f: FunctionView| f.section == "timing"@),
                b.functions.filter(|f: FunctionView| f.section == "timing"@),
                top,
            );
            let alloc_a = a.functions.filter(|f: FunctionView| f.section == "alloc"@);
            let alloc_b = b.functions.filter(|f: FunctionView| f.section == "alloc"@);
            let allocs = section_diff("alloc"@, alloc_a, alloc_b, top);
            let all = hotpath_diff(a, b, top);
            &&& alloc_a.len() == 0 && alloc_b.len() == 0 ==> all == times
            &&& alloc_a.len() > 0 || alloc_b.len() > 0 ==> {
                &&& times.len() == 0 ==> all == allocs
                &&& times.len() > 0 ==> all == times + seq!['\n'] + allocs
            }
        }),
{
    section_is_chosen(a.functions, "timing"@);
    section_is_chosen(b.functions, "timing"@);
    section_is_chosen(a.functions, "alloc"@);
    section_is_chosen(b.functions, "alloc"@);
}

/// The figures over all threads: the resident size; and what was allocated and
/// given back, with their difference, where both are known.
pub proof fn figures_of_threads_are_noted(summary: Seq<PairView>)
    ensures
        ({
            let rss = first_value(summary, "threads.rss_bytes"@);
            let alloc = first_value(summary, "threads.total_alloc_bytes"@);
            let dealloc = first_value(summary, "threads.total_dealloc_bytes"@);
            let diff = first_value(summary, "threads.alloc_dealloc_diff"@);
            let notes = thread_notes(summary);
            let r = if rss is Some { 1int } else { 0int };
            &&& rss matches Some(v) ==> notes.len() > 0 && notes[0] == "RSS: "@ + v
            &&& alloc is Some && dealloc is Some ==> {
                &&& notes.len() == r + 2 + if diff is Some { 1int } else { 0int }
                &&& notes[r] == "Alloc: "@ + alloc->0
                &&& notes[r + 1] == "Dealloc: "@ + dealloc->0
                &&& diff matches Some(v) ==> notes[r + 2] == "Diff: "@ + v
            }
            &&& alloc is None || dealloc is None ==> notes.len() == r
        }),
{
}

/// Calls are told where they were counted.
pub proof fn calls_are_told(n: i64)
    ensures
        calls_text(Some(n)) == int_text(n as int),
        calls_text(None) == Seq::<char>::empty(),
{
}

} // verus!
