//! Command lines as they are recorded.

use crate::text::{contains, join, joined, views};
use vstd::prelude::*;

verus! {

/// An argument, in double quotes where it holds a blank.
pub open spec fn quoted_if_spaced(s: Seq<char>) -> Seq<char> {
    if s.contains(' ') {
        seq!['"'] + s + seq!['"']
    } else {
        s
    }
}

/// Puts an argument in double quotes where it holds a blank.
pub fn maybe_quote(s: &str) -> (r: String)
    ensures
        r@ == quoted_if_spaced(s@),
{
    let cs = crate::text::chars_of(s);
    let i: usize = crate::text::find_char(&cs, ' ', 0);
    if i < cs.len() {
        assert(s@.contains(' ')) by {
            assert(s@[i as int] == ' ');
        }
        let mut out = String::new();
        out.push('"');
        out.append(s);
        out.push('"');
        assert(out@ =~= quoted_if_spaced(s@));
        out
    } else {
        s.to_owned()
    }
}

/// The texts that a list of string slices holds.
pub open spec fn str_views(v: Seq<&str>) -> Seq<Seq<char>> {
    v.map_values(|s: &str| s@)
}

/// A program and its arguments as one line.
pub open spec fn cli_text(program: Seq<char>, args: Seq<Seq<char>>) -> Seq<char> {
    joined((seq![program] + args).map_values(|a: Seq<char>| quoted_if_spaced(a)), " "@)
}

/// Writes a program and its arguments as one line, quoting what holds a blank.
pub fn format_cli_args(program: &str, args: &[&str]) -> (r: String)
    ensures
        r@ == cli_text(program@, str_views(args@)),
{
    let ghost all = seq![program@] + str_views(args@);
    let mut parts: Vec<String> = Vec::new();
    parts.push(maybe_quote(program));
    let mut i: usize = 0;
    while i < args.len()
        invariant
            i <= args@.len(),
            all == seq![program@] + str_views(args@),
            parts@.len() == i + 1,
            forall|k: int| 0 <= k <= i ==> #[trigger] parts@[k]@ == quoted_if_spaced(all[k]),
        decreases args@.len() - i,
    {
        assert(all[i + 1] == args@[i as int]@);
        parts.push(maybe_quote(args[i]));
        i += 1;
    }
    assert(views(parts@) =~= all.map_values(|a: Seq<char>| quoted_if_spaced(a)));
    join(&parts, " ")
}

/// The build feature for profiling: of times, or of allocations.
pub fn hotpath_feature(alloc: bool) -> (r: &'static str)
    ensures
        r@ == if alloc {
            "hotpath-alloc"@
        } else {
            "hotpath"@
        },
{
    if alloc {
        "hotpath-alloc"
    } else {
        "hotpath"
    }
}

/// The exit code of a program as a shell counts it: its own, or 128 more than
/// the signal that ended it, or -1 where neither is known.
pub fn exit_code_from_status(code: Option<i32>, signal: Option<i32>) -> (r: i32)
    requires
        signal matches Some(s) ==> s <= i32::MAX - 128,
    ensures
        r == match code {
            Some(c) => c as int,
            None => match signal {
                Some(s) => 128 + s,
                None => -1,
            },
        },
{
    match code {
        Some(c) => c,
        None => match signal {
            Some(s) => 128 + s,
            None => -1,
        },
    }
}

/// A count as the lock file records it, the largest integer for what is beyond it.
pub fn clamp_u32(n: usize) -> (r: u32)
    ensures
        r == if n <= u32::MAX { n as int } else { u32::MAX as int },
{
    if n <= u32::MAX as usize {
        n as u32
    } else {
        u32::MAX
    }
}

} // verus!
