//! What holds of what is shown before runs are removed.

use crate::invalidate::{
    descriptor_text, detail_text, first_chars, holds, is_target, short_len, short_text, Selector, StoredRow,
};
use crate::numeral::int_text;
use crate::text::byte_len;
use vstd::prelude::*;

verus! {

/// The start of an identifier that is shown is as long as eight bytes allow.
pub proof fn short_is_as_long_as_it_may(s: Seq<char>)
    ensures
        short_text(s).is_prefix_of(s),
        byte_len(short_text(s)) <= 8,
        short_text(s).len() < s.len() ==> byte_len(s.take(short_text(s).len() as int + 1)) > 8,
{
    assert(s.take(0) =~= Seq::<char>::empty());
    assert(byte_len(s.take(0)) == 0) by {
        crate::text::byte_len_concat(Seq::empty(), Seq::empty());
        assert(Seq::<char>::empty() + Seq::<char>::empty() =~= Seq::<char>::empty());
    }
    short_found(s, 0);
}

proof fn short_found(s: Seq<char>, i: int)
    requires
        0 <= i <= s.len(),
        byte_len(s.take(i)) <= 8,
    ensures
        i <= short_len(s, i) <= s.len(),
        byte_len(s.take(short_len(s, i))) <= 8,
        short_len(s, i) < s.len() ==> byte_len(s.take(short_len(s, i) + 1)) > 8,
    decreases s.len() - i,
{
    if i < s.len() && byte_len(s.take(i + 1)) <= 8 {
        short_found(s, i + 1);
    }
}

/// What is removed: every row that was found, but for rows without an identifier
/// where they were found by commit, and every profile that was found.
pub proof fn targets_are_what_was_found(
    uuid: String,
    commit: String,
    results: Seq<Seq<char>>,
    sidecar: Seq<Seq<char>>,
    x: Seq<char>,
)
    ensures
        is_target(Selector::Uuid(uuid), results, sidecar, x) <==> holds(results, x) || holds(
            sidecar,
            x,
        ),
        x.len() > 0 ==> (is_target(Selector::Commit(commit), results, sidecar, x) <==> holds(
            results,
            x,
        ) || holds(sidecar, x)),
        x.len() == 0 ==> (is_target(Selector::Commit(commit), results, sidecar, x) <==> holds(
            sidecar,
            x,
        )),
{
}

/// A selector is told by its kind and its prefix.
pub proof fn selectors_are_told(u: String, c: String)
    ensures
        descriptor_text(Selector::Uuid(u)) == "uuid prefix '"@ + u@ + "'"@,
        descriptor_text(Selector::Commit(c)) == "commit prefix '"@ + c@ + "'"@,
{
}

/// What is told of a run: the start of its commit, its command, its mode or a dash,
/// and how long it took.
pub proof fn runs_are_told(row: &StoredRow)
    ensures
        detail_text(Some(row)) == first_chars(row.commit@, 8) + " "@ + row.command@ + " "@ + (if row.mode@.len()
            > 0 {
            row.mode@
        } else {
            "-"@
        }) + " (elapsed "@ + int_text(row.elapsed_ms as int) + "ms)"@,
        detail_text(None) == "(sidecar-only, no results row)"@,
        first_chars(row.commit@, 8).is_prefix_of(row.commit@),
        first_chars(row.commit@, 8).len() == if row.commit@.len() > 8 { 8 } else { row.commit@.len() },
{
}

} // verus!
