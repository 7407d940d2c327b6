//! What holds of the values that a program reports, and of repeated runs.

use crate::db::{PairView, ValueView};
use crate::error::ErrorView;
use crate::harness::kv::{preview, read_value, reported_pairs, reported_time};
use crate::harness::runs::{
    counts_as_success, ending_error, ends_it, exit_code_of, failures, is_first_best, ExternalRun,
};
use crate::number::parse::read_double;
use crate::numeral::{int_text, read_int, read_int_of_text};
use crate::text::{halves, halves_of, trimmed};
use vstd::prelude::*;

verus! {

/// The values that lines report are those of the first lines and those of the rest.
pub proof fn values_are_collected_in_order(a: Seq<Seq<char>>, b: Seq<Seq<char>>)
    ensures
        reported_pairs(a + b) == reported_pairs(a) + reported_pairs(b),
        reported_time(b) is Some ==> reported_time(a + b) == reported_time(b),
        reported_time(b) is None ==> reported_time(a + b) == reported_time(a),
    decreases b.len(),
{
    if b.len() == 0 {
        assert(a + b =~= a);
        assert(reported_pairs(a) + reported_pairs(b) =~= reported_pairs(a));
    } else {
        values_are_collected_in_order(a, b.drop_last());
        assert((a + b).drop_last() =~= a + b.drop_last());
        assert(reported_pairs(a + b) =~= reported_pairs(a) + reported_pairs(b));
    }
}

/// A line `key=value` reports its value under its key, without white space around
/// either; one without the sign reports nothing.
pub proof fn line_reports_its_value(key: Seq<char>, value: Seq<char>, other: Seq<char>)
    requires
        !key.contains('='),
        !other.contains('='),
    ensures
        ({
            let k = trimmed(key);
            let line = seq![key + seq!['='] + value];
            let is_time = k == "elapsed_ms"@ || k == "total_ms"@;
            &&& !is_time ==> reported_pairs(line) == seq![
                PairView { key: k, value: read_value(trimmed(value)) },
            ] && reported_time(line) is None
            &&& is_time ==> reported_pairs(line).len() == 0 && reported_time(line) == read_int(
                trimmed(value),
                i64::MAX as nat,
            )
        }),
        reported_pairs(seq![other]).len() == 0,
        reported_time(seq![other]) is None,
{
    halves_of(key, '=', value);
    let line = seq![key + seq!['='] + value];
    assert(line.drop_last() =~= Seq::empty());
    assert(seq![other].drop_last() =~= Seq::empty());
    assert(reported_pairs(Seq::empty()) =~= Seq::empty());
    assert(reported_time(Seq::empty()) is None);
    assert(line.last() == key + seq!['='] + value);
    assert(reported_time(line.drop_last()) is None);
    let k = trimmed(key);
    if !(k == "elapsed_ms"@ || k == "total_ms"@) {
        assert(reported_pairs(line) =~= seq![
            PairView { key: k, value: read_value(trimmed(value)) },
        ]);
    }
    assert(seq![other].last() == other);
    assert(reported_time(seq![other].drop_last()) is None);
    assert forall|k: int| 0 <= k < other.len() implies other[k] != '=' by {
        assert(other.contains(other[k]));
    }
    crate::text::next_char_unique(other, '=', 0, other.len() as int);
    assert(halves(other, '=') is None);
}

/// An integer is reported as an integer, a number that is none as a number, and
/// everything else as text; so is what is too large to be a number.
pub proof fn value_is_what_it_reads_as(n: i64, text: Seq<char>)
    ensures
        read_value(int_text(n as int)) == ValueView::Int(n as int),
        read_int(text, i64::MAX as nat) is None && (read_double(text) matches Some(x) ==> !(x is Fin))
            ==> read_value(text) == ValueView::Text(text),
        read_int(text, i64::MAX as nat) is None ==> (read_double(text) matches Some(x) ==> (x is Fin
            ==> read_value(text) == ValueView::Real(x))),
{
    read_int_of_text(n as int, i64::MAX as nat);
}

/// What is shown of a text is its beginning, of five hundred characters at most.
pub proof fn preview_is_the_beginning(text: Seq<char>)
    ensures
        preview(text).is_prefix_of(text),
        preview(text).len() == if text.len() > 500 { 500 } else { text.len() },
{
}

/// The first of the fastest runs is the one and only: no run is faster, and every
/// run before it is slower. There is one wherever there is a run.
pub proof fn best_run_is_the_first_of_the_fastest(times: Seq<i64>, k: int, l: int)
    ensures
        is_first_best(times, k) ==> 0 <= k < times.len() && (forall|j: int|
            0 <= j < times.len() ==> times[k] <= #[trigger] times[j]) && (forall|j: int|
            0 <= j < k ==> times[k] < #[trigger] times[j]),
        is_first_best(times, k) && is_first_best(times, l) ==> k == l,
        times.len() > 0 ==> exists|i: int| #[trigger] is_first_best(times, i),
    decreases times.len(),
{
    if is_first_best(times, k) && is_first_best(times, l) && k != l {
        assert(times[k] <= times[l] && times[l] <= times[k]);
    }
    if times.len() == 1 {
        assert(is_first_best(times, 0));
    } else if times.len() > 1 {
        let front = times.drop_last();
        best_run_is_the_first_of_the_fastest(front, 0, 0);
        let i = choose|i: int| #[trigger] is_first_best(front, i);
        let n = times.len() - 1;
        if times[n] < front[i] {
            assert forall|j: int| 0 <= j < times.len() implies times[n] <= #[trigger] times[j] by {
                if j < n {
                    assert(times[j] == front[j]);
                }
            }
            assert forall|j: int| 0 <= j < n implies times[n] < #[trigger] times[j] by {
                assert(times[j] == front[j]);
            }
            assert(is_first_best(times, n));
        } else {
            assert forall|j: int| 0 <= j < times.len() implies times[i] <= #[trigger] times[j] by {
                if j < n {
                    assert(times[j] == front[j]);
                }
            }
            assert forall|j: int| 0 <= j < i implies times[i] < #[trigger] times[j] by {
                assert(times[j] == front[j]);
            }
            assert(is_first_best(times, i));
        }
    }
}

/// A program succeeds with code zero and with each of the codes that were given,
/// and with no other; one that a signal ended does not.
pub proof fn success_is_by_code(c: i32, codes: Seq<i32>)
    ensures
        counts_as_success(Some(0i32), codes),
        counts_as_success(Some(c), codes.push(c)),
        c != 0 && !codes.contains(c) ==> !counts_as_success(Some(c), codes),
        !counts_as_success(None, codes),
        counts_as_success(Some(c), Seq::empty()) <==> c == 0,
{
    assert(codes.push(c)[codes.len() as int] == c);
}

/// A run that the user interrupts always ends the measurement, whatever else it
/// did; one that was stopped on purpose never does by its code; any other does
/// where its code is no success.
pub proof fn runs_end_by_interruption_or_failure(o: ExternalRun, codes: Seq<i32>, program: Seq<char>)
    ensures
        o.interrupted ==> ends_it(o, codes) && ending_error(o, program) == ErrorView::Interrupted,
        !o.interrupted && o.stopped ==> !ends_it(o, codes),
        !o.interrupted && !o.stopped && o.code == Some(0i32) ==> !ends_it(o, codes),
        !o.interrupted && !o.stopped && o.code is None ==> ends_it(o, codes),
        !o.interrupted && !o.stopped ==> (o.code matches Some(c) ==> (ends_it(o, codes) <==> c != 0
            && !codes.contains(c))),
        !o.interrupted ==> (ending_error(o, program) matches ErrorView::Subprocess(p, c, _) && p
            == program && c == o.code),
{
}

/// The exit code of a run is its own where it has one; a signal counts from 128.
pub proof fn exit_codes_are_as_in_a_shell(o: ExternalRun)
    ensures
        o.code matches Some(c) ==> exit_code_of(o) == c,
        o.code is None ==> (o.signal matches Some(s) ==> exit_code_of(o) == 128 + s),
        o.code is None && o.signal is None ==> exit_code_of(o) == -1,
{
}

/// Every variant that failed is listed with its reason, in order, and no other.
pub proof fn failures_are_listed(
    variants: Seq<Seq<char>>,
    outs: Seq<Option<Seq<char>>>,
    out: Option<Seq<char>>,
)
    ensures
        failures(variants, Seq::empty()).len() == 0,
        out is None ==> failures(variants, outs.push(out)) == failures(variants, outs),
        out matches Some(reason) ==> failures(variants, outs.push(out)) == failures(
            variants,
            outs,
        ).push(variants[outs.len() as int] + ": "@ + reason),
        failures(variants, outs).len() == outs.filter(|o: Option<Seq<char>>| o is Some).len(),
    decreases outs.len(),
{
    assert(outs.push(out).drop_last() =~= outs);
    reveal(Seq::filter);
    if outs.len() > 0 {
        failures_are_listed(variants, outs.drop_last(), None);
    }
}

} // verus!
