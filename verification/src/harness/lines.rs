//! What holds of the line on a result.

use crate::db::{pair_views, value_text, PairView, ValueView};
use crate::harness::command_line::{cli_text, quoted_if_spaced};
use crate::harness::stats::BenchResult;
use crate::harness::{
    drive_notes, first_pair, int_of, kv_fields, result_parts, spread_fields, storage_text, throughput,
    BenchConfig, DriveConfig, GitInfo,
};
use crate::number::arith::{of_int, quotient};
use crate::number::decimals::whole_numbers_are_written_exactly;
use crate::number::double::Double;
use crate::number::exact::{is_worth, whole_numbers_are_exact};
use crate::number::whole::quotient_is_exact;
use crate::numeral::{int_text, nat_text};
use crate::text::joined;
use vstd::prelude::*;

verus! {

/// The parts of the line: the command stands first, behind it the mode where there
/// is one, the elapsed time, the commit, and the input where there is one.
pub proof fn line_names_what_was_measured(c: BenchConfig, r: BenchResult, git: GitInfo)
    ensures
        ({
            let parts = result_parts(c, r, git);
            let m = if c.mode is Some { 1int } else { 0int };
            &&& parts.len() >= 3 + m
            &&& parts[0] == "command="@ + c.command@
            &&& c.mode matches Some(t) ==> parts[1] == "mode="@ + t@
            &&& parts[1 + m] == "elapsed_ms="@ + int_text(r.elapsed_ms as int)
            &&& parts[2 + m] == "commit="@ + git.commit@
            &&& c.input_file matches Some(f) ==> parts.len() > 3 + m && parts[3 + m] == "input="@
                + f@
        }),
{
}

/// Every value that the program reported stands in the line as `key=value`, in
/// its order, behind what was measured.
pub proof fn line_holds_what_was_reported(c: BenchConfig, r: BenchResult, git: GitInfo, i: int)
    requires
        0 <= i < r.kv@.len(),
    ensures
        ({
            let parts = result_parts(c, r, git);
            let at = 3 + (if c.mode is Some { 1int } else { 0int }) + (if c.input_file is Some {
                1int
            } else {
                0int
            }) + i;
            &&& at < parts.len()
            &&& parts[at] == r.kv@[i].key@ + "="@ + value_text(r.kv@[i].value@)
        }),
{
    let all = kv_fields(pair_views(r.kv@));
    assert(all[i] == r.kv@[i].key@ + "="@ + value_text(r.kv@[i].value@));
}

/// The spread stands at the end of the line, each figure under its name.
pub proof fn line_ends_with_the_spread(c: BenchConfig, r: BenchResult, git: GitInfo)
    ensures
        r.distribution matches Some(d) ==> {
            let parts = result_parts(c, r, git);
            let n = parts.len();
            &&& n >= 5
            &&& parts[n - 5] == "samples="@ + int_text(d.samples as int)
            &&& parts[n - 4] == "min_ms="@ + int_text(d.min_ms as int)
            &&& parts[n - 3] == "p50_ms="@ + int_text(d.p50_ms as int)
            &&& parts[n - 2] == "p95_ms="@ + int_text(d.p95_ms as int)
            &&& parts[n - 1] == "max_ms="@ + int_text(d.max_ms as int)
        },
        r.distribution is None ==> spread_fields(r.distribution).len() == 0,
{
    if r.distribution is Some {
        let d = spread_fields(r.distribution);
        assert(d.len() == 5);
        let parts = result_parts(c, r, git);
        let front = parts.len() - 5;
        assert(parts.skip(front) =~= d);
    }
}

/// A value is written as itself: an integer in decimal, a text as it is.
pub proof fn values_are_written(n: int, t: Seq<char>)
    ensures
        value_text(ValueView::Int(n)) == int_text(n),
        value_text(ValueView::Text(t)) == t,
{
}

/// The integer of a key is that of the first pair with it.
pub proof fn first_pair_counts(kv: Seq<PairView>, key: Seq<char>, i: int)
    requires
        0 <= i <= kv.len(),
        i < kv.len() ==> kv[i].key == key,
        forall|k: int| 0 <= k < i ==> (#[trigger] kv[k]).key != key,
    ensures
        i < kv.len() ==> first_pair(kv, key) == Some(kv[i]),
        i == kv.len() ==> first_pair(kv, key) is None && int_of(kv, key) is None,
        i < kv.len() ==> (kv[i].value matches ValueView::Int(n) ==> int_of(kv, key) == Some(n)),
        i < kv.len() && !(kv[i].value is Int) ==> int_of(kv, key) is None,
    decreases kv.len(),
{
    if kv.len() > 0 && i > 0 {
        let rest = kv.skip(1);
        assert(kv[0].key != key);
        assert forall|k: int| 0 <= k < i - 1 implies (#[trigger] rest[k]).key != key by {
            assert(rest[k] == kv[k + 1]);
        }
        first_pair_counts(rest, key, i - 1);
    }
}

/// The throughput in whole megabytes: `q * t` megabytes in `t` seconds are read
/// with `q` megabytes per second, and as many bytes are written likewise.
pub proof fn throughput_is_per_second(mb: Double, t: int, q: int, w: int, kv: Seq<PairView>)
    requires
        1 <= t <= 0x10_0000,
        1 <= q <= 0x10_0000,
        1 <= w <= 0x10_0000,
        is_worth(mb@, q * t),
        int_of(kv, "output_bytes"@) == Some(w * t * 1_000_000),
        w * t * 1_000_000 <= 0x20_0000_0000_0000,
    ensures
        throughput(Some(mb), t * 1000, kv) == seq![
            "read_mbs="@ + (nat_text(q as nat) + seq!['.', '0']),
            "write_mbs="@ + (nat_text(w as nat) + seq!['.', '0']),
        ],
{
    whole_numbers_are_exact(t * 1000);
    whole_numbers_are_exact(1000);
    quotient_is_exact(of_int(t * 1000), t, of_int(1000), 1000);
    let secs = quotient(of_int(t * 1000), of_int(1000));
    quotient_is_exact(mb@, q, secs, t);
    let read = quotient(mb@, secs);
    whole_numbers_are_written_exactly(read, q);
    let bytes = w * t * 1_000_000;
    assert(bytes >= 1 && w * t >= 1 && w * t <= 0x20_0000_0000_0000) by (nonlinear_arith)
        requires
            w >= 1,
            t >= 1,
            bytes == w * t * 1_000_000,
            bytes <= 0x20_0000_0000_0000,
    ;
    whole_numbers_are_exact(bytes);
    whole_numbers_are_exact(1_000_000);
    quotient_is_exact(of_int(bytes), w * t, of_int(1_000_000), 1_000_000);
    let out_mb = quotient(of_int(bytes), of_int(1_000_000));
    quotient_is_exact(out_mb, w, secs, t);
    whole_numbers_are_written_exactly(quotient(out_mb, secs), w);
    assert(throughput(Some(mb), t * 1000, kv) =~= seq![
        "read_mbs="@ + (nat_text(q as nat) + seq!['.', '0']),
        "write_mbs="@ + (nat_text(w as nat) + seq!['.', '0']),
    ]);
}

/// Without the size of the input, or without a time, there is no throughput;
/// without the size of the output, none of it.
pub proof fn no_throughput_without_sizes(mb: Double, ms: int, kv: Seq<PairView>)
    ensures
        throughput(None, ms, kv).len() == 0,
        ms <= 0 ==> throughput(Some(mb), ms, kv).len() == 0,
        ms > 0 && int_of(kv, "output_bytes"@) is None ==> throughput(Some(mb), ms, kv).len() == 1,
        ms > 0 && int_of(kv, "output_bytes"@) is Some ==> throughput(Some(mb), ms, kv).len() == 2,
{
}

/// The drives that are known are noted in order, each under its own name.
pub proof fn drives_are_noted(d: DriveConfig)
    ensures
        d.source matches Some(s) ==> drive_notes(d).len() > 0 && drive_notes(d)[0] == "source="@
            + s@,
        d.target matches Some(t) ==> drive_notes(d).len() > 0 && drive_notes(d).last()
            == "target="@ + t@,
        d.data matches Some(x) ==> drive_notes(d).contains("data="@ + x@),
        d.scratch matches Some(x) ==> drive_notes(d).contains("scratch="@ + x@),
        drive_notes(d).len() == (if d.source is Some { 1int } else { 0int }) + (if d.data is Some {
            1int
        } else {
            0int
        }) + (if d.scratch is Some { 1int } else { 0int }) + (if d.target is Some {
            1int
        } else {
            0int
        }),
        d.data is Some && d.scratch is Some && d.source is None ==> drive_notes(d)[0] == "data="@
            + (d.data->0)@,
        storage_text(Some(d)) is None <==> d.source is None && d.data is None && d.scratch is None
            && d.target is None,
        storage_text(Some(d)) matches Some(t) ==> t == joined(drive_notes(d), ", "@),
        storage_text(None) is None,
{
    reveal_strlit("source");
    reveal_strlit("data");
    reveal_strlit("scratch");
    reveal_strlit("target");
    reveal_strlit("=");
    reveal_strlit("source=");
    reveal_strlit("data=");
    reveal_strlit("scratch=");
    reveal_strlit("target=");
    assert("source"@ + "="@ =~= "source="@);
    assert("data"@ + "="@ =~= "data="@);
    assert("scratch"@ + "="@ =~= "scratch="@);
    assert("target"@ + "="@ =~= "target="@);
    let notes = drive_notes(d);
    let a = if d.source is Some { 1int } else { 0int };
    let b = if d.data is Some { 1int } else { 0int };
    if d.data is Some {
        assert(notes[a] == "data="@ + (d.data->0)@);
    }
    if d.scratch is Some {
        assert(notes[a + b] == "scratch="@ + (d.scratch->0)@);
    }
}

/// A command line is the program and its arguments in order, with blanks between
/// them; what holds a blank itself stands in quotes, and nothing else does.
pub proof fn command_line_is_in_order(program: Seq<char>, args: Seq<Seq<char>>)
    ensures
        cli_text(program, Seq::empty()) == quoted_if_spaced(program),
        args.len() > 0 ==> cli_text(program, args) == cli_text(program, args.drop_last()) + " "@
            + quoted_if_spaced(args.last()),
        program.contains(' ') ==> quoted_if_spaced(program) == seq!['"'] + program + seq!['"'],
        !program.contains(' ') ==> quoted_if_spaced(program) == program,
{
    let f = |a: Seq<char>| quoted_if_spaced(a);
    let all = (seq![program] + args).map_values(f);
    assert((seq![program] + Seq::<Seq<char>>::empty()).map_values(f) =~= seq![
        quoted_if_spaced(program),
    ]);
    if args.len() > 0 {
        assert(all.drop_last() =~= (seq![program] + args.drop_last()).map_values(f));
        assert(all.last() == quoted_if_spaced(args.last()));
    }
}

} // verus!
