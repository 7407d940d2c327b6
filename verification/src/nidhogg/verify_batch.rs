//! Verification of batch queries: every filter finds something.

use crate::error::{DevError, ErrorView};
use crate::json::{array_len, check_json, escape_key, json_array_len, json_fault, json_keys, object_keys, pointer_key};
use crate::manifest::{comes_before, text_before};
use crate::numeral::{i64_text, int_text, nat_text, u128_text, usize_text};
use crate::output::{message_views, push_message, Message, MessageView};
use vstd::prelude::*;

verus! {

/// What a batch query found: for each filter how many elements, and how long it took.
pub struct BatchResult {
    pub filter_counts: Vec<(String, usize)>,
    pub elapsed_ms: i64,
}

/// Names with counts.
pub open spec fn count_views(v: Seq<(String, usize)>) -> Seq<(Seq<char>, nat)> {
    v.map_values(|c: (String, usize)| (c.0@, c.1 as nat))
}

/// The sum of all counts.
pub open spec fn total_of(counts: Seq<(Seq<char>, nat)>) -> nat
    decreases counts.len(),
{
    if counts.len() == 0 {
        0
    } else {
        total_of(counts.drop_last()) + counts.last().1
    }
}

/// The lines on the filters.
pub open spec fn filter_lines(counts: Seq<(Seq<char>, nat)>) -> Seq<MessageView> {
    counts.map_values(
        |c: (Seq<char>, nat)|
            MessageView::Verify("  "@ + c.0 + ": "@ + nat_text(c.1) + " elements"@),
    )
}

/// The lines on a batch query: its time, its filters and their total.
pub open spec fn batch_lines(counts: Seq<(Seq<char>, nat)>, elapsed_ms: int) -> Seq<MessageView> {
    seq![MessageView::Verify("  batch query: "@ + int_text(elapsed_ms) + " ms"@)] + filter_lines(
        counts,
    ) + seq![MessageView::Verify("  total: "@ + nat_text(total_of(counts)) + " elements"@)]
}

/// Writes the lines on a batch query and counts its elements.
pub fn report_batch_results(result: &BatchResult, out: &mut Vec<Message>) -> (total: u128)
    ensures
        total == total_of(count_views(result.filter_counts@)),
        message_views(final(out)@) == message_views(old(out)@) + batch_lines(
            count_views(result.filter_counts@),
            result.elapsed_ms as int,
        ),
{
    let ghost start = message_views(out@);
    let ghost all = count_views(result.filter_counts@);
    let n: usize = result.filter_counts.len();
    let mut m = "  batch query: ".to_owned();
    m.append(i64_text(result.elapsed_ms).as_str());
    m.append(" ms");
    push_message(out, Message::Verify(m));
    let ghost head = MessageView::Verify(m@);
    let mut total: u128 = 0;
    let mut i: usize = 0;
    assert(message_views(out@) =~= start + (seq![head] + filter_lines(all).take(0)));
    while i < n
        invariant
            i <= n,
            n == result.filter_counts@.len(),
            all == count_views(result.filter_counts@),
            total == total_of(all.take(i as int)),
            total <= i * (usize::MAX as int),
            message_views(out@) == start + (seq![head] + filter_lines(all).take(i as int)),
        decreases n - i,
    {
        let count: usize = result.filter_counts[i].1;
        let mut line = "  ".to_owned();
        line.append(result.filter_counts[i].0.as_str());
        line.append(": ");
        line.append(usize_text(count).as_str());
        line.append(" elements");
        let ghost before = message_views(out@);
        push_message(out, Message::Verify(line));
        proof {
            assert(all.take(i + 1).drop_last() =~= all.take(i as int));
            assert(all[i as int] == (result.filter_counts@[i as int].0@, count as nat));
            assert(i * (usize::MAX as int) + (usize::MAX as int) == (i + 1) * (usize::MAX as int))
                by (nonlinear_arith);
            assert((i + 1) * (usize::MAX as int) <= 0x1_0000_0000_0000_0000 * 0x1_0000_0000_0000_0000)
                by (nonlinear_arith)
                requires
                    i + 1 <= usize::MAX,
                    usize::MAX <= 0x1_0000_0000_0000_0000,
            ;
            assert(filter_lines(all)[i as int] == MessageView::Verify(line@));
        }
        total = total + count as u128;
        i += 1;
        assert(message_views(out@) =~= start + (seq![head] + filter_lines(all).take(i as int)));
    }
    assert(all.take(i as int) =~= all);
    assert(filter_lines(all).take(i as int) =~= filter_lines(all));
    let mut m = "  total: ".to_owned();
    m.append(u128_text(total).as_str());
    m.append(" elements");
    push_message(out, Message::Verify(m));
    assert(message_views(out@) =~= start + batch_lines(all, result.elapsed_ms as int));
    total
}

/// What a single query found: its name, how many elements, and how long it took.
pub struct SingleResult {
    pub name: String,
    pub count: usize,
    pub elapsed_ms: i64,
}

/// The lines on a single query: what it found, and an error where it found nothing.
pub open spec fn single_lines(s: SingleResult) -> Seq<MessageView> {
    let line = MessageView::Verify(
        "  "@ + s.name@ + ": "@ + nat_text(s.count as nat) + " elements ("@ + int_text(
            s.elapsed_ms as int,
        ) + " ms)"@,
    );
    if s.count == 0 {
        seq![line, MessageView::Error(s.name@ + ": returned 0 elements"@)]
    } else {
        seq![line]
    }
}

/// The lines on all single queries.
pub open spec fn all_single_lines(v: Seq<SingleResult>) -> Seq<MessageView>
    decreases v.len(),
{
    if v.len() == 0 {
        Seq::empty()
    } else {
        all_single_lines(v.drop_last()) + single_lines(v.last())
    }
}

/// How many single queries found nothing.
pub open spec fn empty_count(v: Seq<SingleResult>) -> nat
    decreases v.len(),
{
    if v.len() == 0 {
        0
    } else {
        empty_count(v.drop_last()) + if v.last().count == 0 {
            1nat
        } else {
            0nat
        }
    }
}

/// How many checks failed: the batch query with nothing at all, and every
/// single query with nothing.
pub open spec fn failure_count(counts: Seq<(Seq<char>, nat)>, singles: Seq<SingleResult>) -> nat {
    (if total_of(counts) == 0 {
        1nat
    } else {
        0nat
    }) + empty_count(singles)
}

/// Everything that is printed.
pub open spec fn all_lines(
    counts: Seq<(Seq<char>, nat)>,
    elapsed_ms: int,
    singles: Seq<SingleResult>,
) -> Seq<MessageView> {
    seq![MessageView::Verify("=== batch query ==="@)] + batch_lines(counts, elapsed_ms) + (
    if total_of(counts) == 0 {
        seq![MessageView::Error("batch query returned 0 total elements"@)]
    } else {
        Seq::empty()
    }) + seq![MessageView::Verify("=== individual queries ==="@)] + all_single_lines(singles) + (
    if failure_count(counts, singles) == 0 {
        seq![MessageView::Verify("batch verification passed"@)]
    } else {
        Seq::empty()
    })
}

fn push_single(out: &mut Vec<Message>, s: &SingleResult)
    ensures
        message_views(final(out)@) == message_views(old(out)@) + single_lines(*s),
{
    let mut line = "  ".to_owned();
    line.append(s.name.as_str());
    line.append(": ");
    line.append(usize_text(s.count).as_str());
    line.append(" elements (");
    line.append(i64_text(s.elapsed_ms).as_str());
    line.append(" ms)");
    push_message(out, Message::Verify(line));
    if s.count == 0 {
        let mut e = s.name.clone();
        e.append(": returned 0 elements");
        push_message(out, Message::Error(e));
    }
    assert(message_views(out@) =~= message_views(old(out)@) + single_lines(*s));
}

fn push_singles(out: &mut Vec<Message>, singles: &[SingleResult]) -> (failed: usize)
    ensures
        failed == empty_count(singles@),
        failed <= singles@.len(),
        message_views(final(out)@) == message_views(old(out)@) + all_single_lines(singles@),
{
    let ghost start = message_views(out@);
    let mut failed: usize = 0;
    let mut i: usize = 0;
    assert(message_views(out@) =~= start + all_single_lines(singles@.take(0)));
    while i < singles.len()
        invariant
            i <= singles@.len(),
            failed <= i,
            failed == empty_count(singles@.take(i as int)),
            message_views(out@) == start + all_single_lines(singles@.take(i as int)),
        decreases singles@.len() - i,
    {
        assert(singles@.take(i + 1).drop_last() =~= singles@.take(i as int));
        push_single(out, &singles[i]);
        if singles[i].count == 0 {
            failed += 1;
        }
        i += 1;
        assert(message_views(out@) =~= start + all_single_lines(singles@.take(i as int)));
    }
    assert(singles@.take(i as int) =~= singles@);
    failed
}

/// Judges a batch query and the single queries that it stands for: each must
/// have found something.
pub fn run(batch: &BatchResult, singles: &[SingleResult], out: &mut Vec<Message>) -> (r: Result<
    (),
    DevError,
>)
    ensures
        failure_count(count_views(batch.filter_counts@), singles@) == 0 <==> r is Ok,
        r matches Err(e) ==> e@ == ErrorView::Config(
            "batch verification failed: "@ + nat_text(
                failure_count(count_views(batch.filter_counts@), singles@),
            ) + " check(s) returned 0 elements"@,
        ),
        message_views(final(out)@) == message_views(old(out)@) + all_lines(
            count_views(batch.filter_counts@),
            batch.elapsed_ms as int,
            singles@,
        ),
{
    let ghost start = message_views(out@);
    let ghost counts = count_views(batch.filter_counts@);
    push_message(out, Message::Verify("=== batch query ===".to_owned()));
    let total: u128 = report_batch_results(batch, out);
    if total == 0 {
        push_message(out, Message::Error("batch query returned 0 total elements".to_owned()));
    }
    push_message(out, Message::Verify("=== individual queries ===".to_owned()));
    let empty: usize = push_singles(out, singles);
    let failures: u128 = empty as u128 + if total == 0 {
        1u128
    } else {
        0u128
    };
    if failures > 0 {
        let mut m = "batch verification failed: ".to_owned();
        m.append(u128_text(failures).as_str());
        m.append(" check(s) returned 0 elements");
        assert(message_views(out@) =~= start + all_lines(counts, batch.elapsed_ms as int, singles@));
        return Err(DevError::Config(m));
    }
    push_message(out, Message::Verify("batch verification passed".to_owned()));
    assert(message_views(out@) =~= start + all_lines(counts, batch.elapsed_ms as int, singles@));
    Ok(())
}

/// Names with counts in order, with one more behind those that do not come after it.
pub open spec fn inserted(s: Seq<(Seq<char>, nat)>, x: (Seq<char>, nat)) -> Seq<(Seq<char>, nat)>
    decreases s.len(),
{
    if s.len() == 0 || !comes_before(x.0, s.last().0) {
        s.push(x)
    } else {
        inserted(s.drop_last(), x).push(s.last())
    }
}

/// Names with counts, in the order of the names.
pub open spec fn by_name(s: Seq<(Seq<char>, nat)>) -> Seq<(Seq<char>, nat)>
    decreases s.len(),
{
    if s.len() == 0 {
        Seq::empty()
    } else {
        inserted(by_name(s.drop_last()), s.last())
    }
}

/// A name goes where those before it do not come after it and those behind it do.
pub proof fn inserted_at(s: Seq<(Seq<char>, nat)>, x: (Seq<char>, nat), p: int)
    requires
        0 <= p <= s.len(),
        p > 0 ==> !comes_before(x.0, s[p - 1].0),
        forall|k: int| p <= k < s.len() ==> comes_before(x.0, (#[trigger] s[k]).0),
    ensures
        inserted(s, x) == s.insert(p, x),
    decreases s.len(),
{
    if p == s.len() {
        assert(s.insert(p, x) =~= s.push(x));
    } else {
        assert(comes_before(x.0, s[s.len() - 1].0));
        let front = s.drop_last();
        assert forall|k: int| p <= k < front.len() implies comes_before(x.0, (#[trigger] front[k]).0) by {
            assert(front[k] == s[k]);
        }
        inserted_at(front, x, p);
        assert(s.insert(p, x) =~= front.insert(p, x).push(s.last()));
    }
}

fn insert_by_name(out: &mut Vec<(String, usize)>, name: String, count: usize)
    ensures
        count_views(final(out)@) == inserted(count_views(old(out)@), (name@, count as nat)),
{
    let ghost s = count_views(out@);
    let ghost x = (name@, count as nat);
    let mut p: usize = out.len();
    while p > 0 && text_before(name.as_str(), out[p - 1].0.as_str())
        invariant
            p <= out@.len(),
            *out == *old(out),
            s == count_views(out@),
            x == (name@, count as nat),
            forall|k: int| p <= k < s.len() ==> comes_before(x.0, (#[trigger] s[k]).0),
        decreases p,
    {
        assert(s[p - 1].0 == out@[p - 1].0@);
        p -= 1;
    }
    proof {
        if p > 0 {
            assert(s[p - 1].0 == out@[p - 1].0@);
        }
        inserted_at(s, x, p as int);
    }
    out.insert(p, (name, count));
    assert(count_views(out@) =~= s.insert(p as int, x));
}

/// How many elements the filter with the name found.
pub open spec fn filter_count(reply: Seq<char>, key: Seq<char>) -> nat {
    match json_array_len(reply, "/"@ + pointer_key(key) + "/elements"@) {
        Some(n) => n,
        None => 0,
    }
}

/// What a batch reply holds: each filter's count, in the order of the names; and
/// nothing where the reply is no object.
pub open spec fn batch_counts(reply: Seq<char>) -> Seq<(Seq<char>, nat)> {
    match json_keys(reply) {
        Some(keys) => by_name(keys.map_values(|k: Seq<char>| (k, filter_count(reply, k)))),
        None => Seq::empty(),
    }
}

/// Reads a batch reply.
pub fn run_batch_query(reply: &str, elapsed_ms: i64) -> (r: Result<BatchResult, DevError>)
    ensures
        match json_fault(reply@) {
            Some(m) => r matches Err(e) && e@ == ErrorView::Json(m),
            None => r matches Ok(b) && b.elapsed_ms == elapsed_ms && count_views(b.filter_counts@)
                == batch_counts(reply@),
        },
{
    match check_json(reply) {
        Some(m) => {
            return Err(DevError::Json(m));
        },
        None => {},
    }
    let mut filter_counts: Vec<(String, usize)> = Vec::new();
    match object_keys(reply) {
        Some(keys) => {
            let ghost ks = crate::text::views(keys@);
            let ghost all = ks.map_values(|k: Seq<char>| (k, filter_count(reply@, k)));
            let mut i: usize = 0;
            assert(count_views(filter_counts@) =~= by_name(all.take(0)));
            while i < keys.len()
                invariant
                    i <= keys@.len(),
                    ks == crate::text::views(keys@),
                    all == ks.map_values(|k: Seq<char>| (k, filter_count(reply@, k))),
                    count_views(filter_counts@) == by_name(all.take(i as int)),
                decreases keys@.len() - i,
            {
                let mut place = "/".to_owned();
                place.append(escape_key(keys[i].as_str()).as_str());
                place.append("/elements");
                let count: usize = crate::nidhogg::client::count_or_none(
                    array_len(reply, place.as_str()),
                );
                assert(all.take(i + 1).drop_last() =~= all.take(i as int));
                assert(all[i as int] == (keys@[i as int]@, count as nat));
                let name = keys[i].clone();
                insert_by_name(&mut filter_counts, name, count);
                i += 1;
            }
            assert(all.take(i as int) =~= all);
        },
        None => {
            assert(count_views(filter_counts@) =~= Seq::empty());
        },
    }
    Ok(BatchResult { filter_counts, elapsed_ms })
}

/// Reads the reply to a single query.
pub fn read_single(name: &str, reply: &str, elapsed_ms: i64) -> (r: Result<SingleResult, DevError>)
    ensures
        match json_fault(reply@) {
            Some(m) => r matches Err(e) && e@ == ErrorView::Json(m),
            None => r matches Ok(s) && s.name@ == name@ && s.elapsed_ms == elapsed_ms && s.count
                == crate::nidhogg::client::elements_in(reply@),
        },
{
    match check_json(reply) {
        Some(m) => {
            return Err(DevError::Json(m));
        },
        None => {},
    }
    let count: usize = crate::nidhogg::client::element_count(reply);
    Ok(SingleResult { name: name.to_owned(), count, elapsed_ms })
}

} // verus!
