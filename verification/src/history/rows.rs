//! What holds of the history: how it is asked for, and how it is shown.

use crate::history::{
    commit_around, commit_text, conditions_of, dirty_around, elapsed_text, entry_line, fail_text,
    history_text, kernel_in, project_around, sql_flag, sql_int, sql_text, statement_of, Conditions,
    HistoryEntry, HistoryFilter, SqlView, Surroundings,
};
use crate::number::arith::{of_int, quotient};
use crate::number::decimals::whole_numbers_are_written_exactly;
use crate::number::exact::whole_numbers_are_exact;
use crate::number::whole::quotient_is_exact;
use crate::numeral::{int_text, nat_text};
use crate::text::shape::padding_fills_the_width;
use crate::text::{has_part, joined, opt_view, words_of};
use vstd::prelude::*;

verus! {

/// Whether a condition stands among others and speaks of the parameter with the
/// value.
pub open spec fn asks(c: Conditions, head: Seq<char>, value: SqlView) -> bool {
    exists|i: int, k: int|
        0 <= i < c.clauses.len() && 0 <= k < c.params.len() && #[trigger] c.clauses[i] == head
            + nat_text((k + 1) as nat) && #[trigger] c.params[k] == value
}

/// How many of the conditions are given.
pub open spec fn given(f: HistoryFilter) -> int {
    (if f.command is Some { 1int } else { 0int }) + (if f.project is Some { 1int } else { 0int })
        + (if f.since is Some { 1int } else { 0int }) + (if f.slow_ms is Some { 1int } else { 0int })
}

/// Every condition that is given is asked for with its own value, and no other is:
/// part of the command, the project, the earliest time, the least elapsed time,
/// and failure.
pub proof fn conditions_ask_for_what_was_given(f: HistoryFilter)
    ensures
        f.command matches Some(t) ==> asks(
            conditions_of(f),
            "command LIKE ?"@,
            SqlView::Text("%"@ + t@ + "%"@),
        ),
        f.project matches Some(t) ==> asks(conditions_of(f), "project = ?"@, SqlView::Text(t@)),
        f.since matches Some(t) ==> asks(conditions_of(f), "timestamp >= ?"@, SqlView::Text(t@)),
        f.slow_ms matches Some(ms) ==> asks(
            conditions_of(f),
            "elapsed_ms >= ?"@,
            SqlView::Int(ms as int),
        ),
        f.failed ==> conditions_of(f).clauses.contains("exit_status != 0"@),
        conditions_of(f).params.len() == given(f),
        conditions_of(f).clauses.len() == given(f) + if f.failed { 1int } else { 0int },
{
    let c = conditions_of(f);
    let a = if f.command is Some { 1int } else { 0int };
    let b = a + if f.project is Some { 1int } else { 0int };
    let d = if f.failed { 1int } else { 0int };
    let e = b + if f.since is Some { 1int } else { 0int };
    if f.command is Some {
        assert(c.clauses[0] == "command LIKE ?"@ + nat_text((0 + 1) as nat));
        assert(c.params[0] == SqlView::Text("%"@ + (f.command->0)@ + "%"@));
    }
    if f.project is Some {
        assert(c.clauses[a] == "project = ?"@ + nat_text((a + 1) as nat));
        assert(c.params[a] == SqlView::Text((f.project->0)@));
    }
    if f.failed {
        assert(c.clauses[b] == "exit_status != 0"@);
    }
    if f.since is Some {
        assert(c.clauses[b + d] == "timestamp >= ?"@ + nat_text((b + 1) as nat));
        assert(c.params[b] == SqlView::Text((f.since->0)@));
    }
    if f.slow_ms is Some {
        assert(c.clauses[e + d] == "elapsed_ms >= ?"@ + nat_text((e + 1) as nat));
        assert(c.params[e] == SqlView::Int((f.slow_ms->0) as int));
    }
}

/// The statement asks for the latest rows first, for all of them or for so many at
/// most, and all of the conditions must hold.
pub proof fn statement_is_of_its_parts(f: HistoryFilter) -> (head: Seq<char>)
    ensures
        ({
            let clauses = conditions_of(f).clauses;
            let tail = if f.all {
                " ORDER BY id DESC"@
            } else {
                " ORDER BY id DESC"@ + (" LIMIT "@ + nat_text(f.limit as nat))
            };
            &&& clauses.len() == 0 ==> statement_of(f) == head + tail
            &&& clauses.len() > 0 ==> statement_of(f) == head + (" WHERE "@ + joined(
                clauses,
                " AND "@,
            )) + tail
        }),
        head
            == "SELECT id, timestamp, project, cwd, command, elapsed_ms, exit_status, hostname, commit_hash, dirty, kernel, avail_memory_mb FROM history"@,
{
    let head =
        "SELECT id, timestamp, project, cwd, command, elapsed_ms, exit_status, hostname, commit_hash, dirty, kernel, avail_memory_mb FROM history"@;
    let clauses = conditions_of(f).clauses;
    let tail = if f.all {
        " ORDER BY id DESC"@
    } else {
        " ORDER BY id DESC"@ + (" LIMIT "@ + nat_text(f.limit as nat))
    };
    assert(clauses.len() == 0 ==> statement_of(f) =~= head + tail);
    assert(clauses.len() > 0 ==> statement_of(f) =~= head + (" WHERE "@ + joined(clauses, " AND "@))
        + tail);
    head
}

/// What is missing is null; a truth value is one or zero.
pub proof fn parameters_are_values(t: Seq<char>, n: i64)
    ensures
        sql_text(Some(t)) == SqlView::Text(t),
        sql_text(None) == SqlView::Null,
        sql_int(Some(n)) == SqlView::Int(n as int),
        sql_int(None) == SqlView::Null,
        sql_flag(Some(true)) == SqlView::Int(1),
        sql_flag(Some(false)) == SqlView::Int(0),
        sql_flag(None) == SqlView::Null,
{
}

/// An elapsed time in its unit: below a second in milliseconds, below a minute in
/// seconds, else in minutes; whole ones are written with a zero behind the point.
pub proof fn elapsed_is_in_its_unit(n: i64, q: i64)
    requires
        1 <= q <= 1_000_000,
    ensures
        n < 1000 ==> elapsed_text(Some(n)) == int_text(n as int) + "ms"@,
        q < 60 ==> elapsed_text(Some((q * 1000) as i64)) == nat_text(q as nat) + seq!['.', '0']
            + "s"@,
        elapsed_text(Some((q * 60_000) as i64)) == nat_text(q as nat) + seq!['.', '0'] + "m"@,
        elapsed_text(None) == "-"@,
{
    whole_numbers_are_exact(q * 1000);
    whole_numbers_are_exact(1000);
    whole_numbers_are_exact(q * 60_000);
    whole_numbers_are_exact(60_000);
    quotient_is_exact(of_int(q * 1000), q as int, of_int(1000), 1000);
    quotient_is_exact(of_int(q * 60_000), q as int, of_int(60_000), 60_000);
    whole_numbers_are_written_exactly(quotient(of_int(q * 1000), of_int(1000)), q as int);
    whole_numbers_are_written_exactly(quotient(of_int(q * 60_000), of_int(60_000)), q as int);
}

/// A line of the history: the time, the project, the elapsed time, the command,
/// the commit where it is known, and the exit status where it is not zero.
pub proof fn entry_shows_what_happened(e: HistoryEntry) -> (r: (Seq<char>, Seq<char>))
    ensures
        entry_line(e) == e.timestamp@ + r.0 + e.command@ + r.1,
        e.project matches Some(p) ==> has_part(r.0, p@),
        e.project is None ==> has_part(r.0, "-"@),
        has_part(r.0, elapsed_text(e.elapsed_ms)),
        r.1 == commit_text(opt_view(e.commit_hash), e.dirty) + fail_text(e.exit_status),
{
    let p = crate::text::text_or(opt_view(e.project), "-"@);
    let t = elapsed_text(e.elapsed_ms);
    let (a, b) = (crate::text::padded_right(p, 10), crate::text::padded_left(t, 7));
    let mid = "  "@ + a + " "@ + b + "  "@;
    let end = commit_text(opt_view(e.commit_hash), e.dirty) + fail_text(e.exit_status);
    assert(entry_line(e) =~= e.timestamp@ + mid + e.command@ + end);
    padding_fills_the_width(p, 10);
    padding_fills_the_width(t, 7);
    let cut = b.len() - t.len();
    assert(mid =~= "  "@ + p + (a.skip(p.len() as int) + " "@ + b + "  "@));
    assert(mid =~= ("  "@ + a + " "@ + b.take(cut)) + t + "  "@);
    crate::text::shape::part_stands_between(
        "  "@,
        p,
        a.skip(p.len() as int) + " "@ + b + "  "@,
    );
    crate::text::shape::part_stands_between("  "@ + a + " "@ + b.take(cut), t, "  "@);
    (mid, end)
}

/// A commit is marked exactly where the files had changed; a failure is told with
/// its status, and a success not at all.
pub proof fn marks_are_for_changes_and_failures(hash: Seq<char>, status: i32)
    requires
        hash.len() > 0,
    ensures
        commit_text(Some(hash), Some(true)) == " "@ + hash + "*"@,
        commit_text(Some(hash), Some(false)) == " "@ + hash,
        commit_text(Some(hash), None) == " "@ + hash,
        commit_text(None, Some(true)).len() == 0,
        fail_text(0).len() == 0,
        status != 0 ==> fail_text(status) == "  [FAIL:"@ + int_text(status as int) + "]"@,
{
    reveal_strlit("");
    assert(" "@ + hash + ""@ =~= " "@ + hash);
}

/// The history has a line for each entry, in their order.
pub proof fn history_has_a_line_for_each(entries: Seq<HistoryEntry>, e: HistoryEntry)
    ensures
        history_text(seq![e]) == entry_line(e),
        entries.len() > 0 ==> history_text(entries.push(e)) == history_text(entries) + "\n"@
            + entry_line(e),
        history_text(Seq::empty()) == "no history entries"@,
{
    let f = |e: HistoryEntry| entry_line(e);
    assert(seq![e].map_values(f) =~= seq![entry_line(e)]);
    let all = entries.push(e).map_values(f);
    assert(all.drop_last() =~= entries.map_values(f));
    assert(all.last() == entry_line(e));
}

/// What is recorded of the surroundings: the project, the commit where there is
/// one, and whether files had changed.
pub proof fn surroundings_are_recorded(s: Surroundings)
    ensures
        project_around(Some(s)) == Some(s.project@),
        s.git matches Some(g) ==> dirty_around(Some(s)) == Some(!g.is_clean),
        s.git matches Some(g) ==> (g.commit@.len() > 0 ==> commit_around(Some(s)) == Some(
            g.commit@,
        )) && (g.commit@.len() == 0 ==> commit_around(Some(s)) is None),
        s.git is None ==> commit_around(Some(s)) is None && dirty_around(Some(s)) is None,
        project_around(None) is None,
        commit_around(None) is None,
        dirty_around(None) is None,
{
}

/// The kernel is the third word of its version text.
pub proof fn kernel_is_the_third_word(t: Seq<char>)
    ensures
        words_of(t).len() >= 3 ==> kernel_in(Some(t)) == Some(words_of(t)[2]),
        words_of(t).len() < 3 ==> kernel_in(Some(t)) is None,
        kernel_in(None) is None,
{
}

} // verus!
