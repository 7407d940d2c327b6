//! What holds of the figures on a process.

use crate::lockfile::process::{
    bytes_as_mb, duration_text, identity_holds, io_figure, kb_as_mb, last_char, last_entry, size_text,
    starttime_in, status_figure, summary_parts, two_digits, uptime_of, without_suffixes,
};
use crate::number::arith::{difference, of_int, quotient, truncated};
use crate::number::decimals::{whole_numbers_are_read, whole_numbers_are_written_exactly};
use crate::number::exact::{is_worth, whole_numbers_are_exact, whole_of_exact};
use crate::number::whole::{difference_is_exact, less_is_exact, quotient_is_exact};
use crate::numeral::{
    all_digits, digits_value, int_text, is_digit, nat_text, nat_text_reads_back, read_int_of_text,
};
use crate::text::shape::words_stand_between_blanks;
use crate::text::{halves_of, is_space, trimmed, words_of};
use vstd::prelude::*;

verus! {

/// Two digits are two digits, and read as their number.
pub proof fn two_digits_are_two(n: nat)
    requires
        n < 100,
    ensures
        two_digits(n).len() == 2,
        all_digits(two_digits(n)),
        digits_value(two_digits(n)) == n,
{
    nat_text_reads_back(n);
    let t = two_digits(n);
    if n < 10 {
        assert(nat_text(n).len() == 1);
        assert(t =~= seq!['0', nat_text(n)[0]]);
        assert(is_digit(nat_text(n)[0]));
        assert(t.drop_last() =~= seq!['0']);
        assert(seq!['0'].drop_last() =~= Seq::<char>::empty());
        assert(nat_text(n).drop_last() =~= Seq::<char>::empty());
        assert(digits_value(Seq::<char>::empty()) == 0);
        assert(digits_value(seq!['0']) == 0);
    } else {
        assert(nat_text(n / 10).len() == 1);
        assert(nat_text(n).len() == 2);
    }
}

/// A time is told in hours and minutes, in minutes and seconds, or in seconds: the
/// two largest units that it has.
pub proof fn durations_are_told(h: nat, m: nat, s: nat)
    requires
        m < 60,
        s < 60,
    ensures
        h > 0 ==> duration_text(h * 3600 + m * 60 + s) == nat_text(h) + seq!['h'] + two_digits(m)
            + seq!['m'],
        m > 0 ==> duration_text(m * 60 + s) == nat_text(m) + seq!['m'] + two_digits(s) + seq!['s'],
        duration_text(s) == nat_text(s) + seq!['s'],
{
    let t = h * 3600 + m * 60 + s;
    assert(t / 3600 == h && t % 3600 == m * 60 + s && (t % 3600) / 60 == m) by (nonlinear_arith)
        requires
            t == h * 3600 + m * 60 + s,
            m < 60,
            s < 60,
    ;
    let u = m * 60 + s;
    assert(u / 3600 == 0 && (u % 3600) / 60 == m && u % 60 == s);
}

/// A size below a gigabyte is told in whole megabytes, a larger one in gigabytes;
/// a megabyte is 1024 kilobytes, and 1024 times 1024 bytes.
pub proof fn sizes_are_told(n: int)
    requires
        1 <= n <= 0x10_0000,
    ensures
        n < 1024 ==> size_text(kb_as_mb(n * 1024)) == nat_text(n as nat) + " MB"@,
        n < 1024 ==> size_text(bytes_as_mb(n * 1_048_576)) == nat_text(n as nat) + " MB"@,
        size_text(kb_as_mb(n * 1_048_576)) == nat_text(n as nat) + seq!['.', '0'] + " GB"@,
        size_text(bytes_as_mb(n * 1_073_741_824)) == nat_text(n as nat) + seq!['.', '0'] + " GB"@,
{
    whole_numbers_are_exact(1024);
    whole_numbers_are_exact(1_048_576);
    whole_numbers_are_exact(n * 1024);
    whole_numbers_are_exact(n * 1_048_576);
    whole_numbers_are_exact(n * 1_073_741_824);
    quotient_is_exact(of_int(n * 1024), n, of_int(1024), 1024);
    quotient_is_exact(of_int(n * 1_048_576), n, of_int(1_048_576), 1_048_576);
    quotient_is_exact(of_int(n * 1_048_576), n * 1024, of_int(1024), 1024);
    quotient_is_exact(of_int(n * 1_073_741_824), n * 1024, of_int(1_048_576), 1_048_576);
    size_told(kb_as_mb(n * 1024), n);
    size_told(bytes_as_mb(n * 1_048_576), n);
    size_told(kb_as_mb(n * 1_048_576), n * 1024);
    size_told(bytes_as_mb(n * 1_073_741_824), n * 1024);
}

proof fn size_told(mb: crate::number::double::Real, k: int)
    requires
        is_worth(mb, k),
        1 <= k <= 0x4000_0000,
    ensures
        k < 1024 ==> size_text(mb) == nat_text(k as nat) + " MB"@,
        k >= 1024 && k % 1024 == 0 ==> size_text(mb) == nat_text((k / 1024) as nat) + seq!['.', '0']
            + " GB"@,
{
    whole_numbers_are_exact(1024);
    less_is_exact(mb, k, of_int(1024), 1024);
    whole_numbers_are_written_exactly(mb, k);
    if k >= 1024 && k % 1024 == 0 {
        let g = k / 1024;
        assert(g * 1024 == k);
        quotient_is_exact(mb, g, of_int(1024), 1024);
        whole_numbers_are_written_exactly(quotient(mb, of_int(1024)), g);
    }
}

/// Of several lines with a key the last one counts, and lines with other keys do
/// not.
pub proof fn last_line_with_the_key_counts(
    ls: Seq<Seq<char>>,
    key: Seq<char>,
    other: Seq<char>,
    v: Seq<char>,
)
    requires
        !key.contains(':'),
        !other.contains(':'),
        other != key,
    ensures
        last_entry(ls.push(key + seq![':'] + v), key) == Some(v),
        last_entry(ls.push(other + seq![':'] + v), key) == last_entry(ls, key),
        last_entry(Seq::empty(), key) is None,
{
    halves_of(key, ':', v);
    halves_of(other, ':', v);
    let a = ls.push(key + seq![':'] + v);
    let b = ls.push(other + seq![':'] + v);
    assert(a.drop_last() =~= ls && a.last() == key + seq![':'] + v);
    assert(b.drop_last() =~= ls && b.last() == other + seq![':'] + v);
}

/// A figure is read with its unit or without, whatever white space is around it.
pub proof fn figures_are_read(ls: Seq<Seq<char>>, key: Seq<char>, v: Seq<char>, n: int)
    requires
        last_entry(ls, key) == Some(v),
        0 <= n <= i64::MAX,
    ensures
        trimmed(v) == nat_text(n as nat) + " kB"@ ==> status_figure(ls, key) == n,
        trimmed(v) == nat_text(n as nat) ==> status_figure(ls, key) == n && io_figure(ls, key) == n,
{
    let t = nat_text(n as nat);
    nat_text_reads_back(n as nat);
    read_int_of_text(n, i64::MAX as nat);
    reveal_strlit(" kB");
    let p = " kB"@;
    assert(!p.is_suffix_of(t)) by {
        if p.is_suffix_of(t) {
            assert(t.subrange(t.len() - 3, t.len() as int)[0] == p[0]);
            assert(is_digit(t[t.len() - 3]));
        }
    }
    assert(without_suffixes(t, p) == t);
    let u = t + p;
    assert(u.subrange(u.len() - 3, u.len() as int) =~= p);
    assert(p.is_suffix_of(u));
    assert(u.take(u.len() - 3) =~= t);
    assert(without_suffixes(u, p) == t);
}

/// What is missing counts as nothing.
pub proof fn missing_figures_are_nothing(ls: Seq<Seq<char>>, key: Seq<char>)
    requires
        last_entry(ls, key) is None,
    ensures
        status_figure(ls, key) == 0,
        io_figure(ls, key) == 0,
{
}

/// An identity holds only where nothing of it is missing or differs: the number is
/// not zero, the boot is this one, and the process has the start time that was
/// recorded.
pub proof fn identity_needs_every_token(
    pid: u32,
    start: Seq<char>,
    boot: Seq<char>,
    other: Seq<char>,
)
    requires
        start.len() > 0,
        boot.len() > 0,
        pid != 0,
    ensures
        identity_holds(pid, start, boot, Some(boot), Some(start)),
        other != boot ==> !identity_holds(pid, start, boot, Some(other), Some(start)),
        other != start ==> !identity_holds(pid, start, boot, Some(boot), Some(other)),
        !identity_holds(pid, start, boot, None, Some(start)),
        !identity_holds(pid, start, boot, Some(boot), None),
        !identity_holds(0, start, boot, Some(boot), Some(start)),
        !identity_holds(pid, Seq::empty(), boot, Some(boot), Some(Seq::empty())),
        !identity_holds(pid, start, Seq::empty(), Some(Seq::empty()), Some(start)),
{
}

/// The start time is the twentieth word behind the last closing bracket, so that
/// brackets and blanks in the name of the program do not matter.
pub proof fn start_time_is_behind_the_name(front: Seq<char>, rest: Seq<char>, n: nat)
    requires
        !rest.contains(')'),
        n <= u64::MAX,
    ensures
        words_of(rest).len() > 19 && words_of(rest)[19] == nat_text(n) ==> starttime_in(
            front + seq![')', ' '] + rest,
        ) == Some(nat_text(n)),
        words_of(rest).len() <= 19 ==> starttime_in(front + seq![')', ' '] + rest) is None,
        starttime_in(rest) is None,
{
    let s = front + seq![')', ' '] + rest;
    let at = front.len() as int;
    assert(s[at] == ')');
    assert forall|k: int| at < k < s.len() implies s[k] != ')' by {
        if k >= at + 2 {
            assert(s[k] == rest[k - at - 2]);
            assert(rest.contains(rest[k - at - 2]));
        }
    }
    last_bracket(s, at, s.len() as int);
    assert(s.skip(at + 2) =~= rest);
    crate::numeral::read_nat_of_text(n, u64::MAX as nat);
    assert forall|k: int| 0 <= k < rest.len() implies rest[k] != ')' by {
        assert(rest.contains(rest[k]));
    }
    last_bracket(rest, -1, rest.len() as int);
}

proof fn last_bracket(s: Seq<char>, at: int, to: int)
    requires
        -1 <= at,
        at < to <= s.len() || (at == -1 && to == 0),
        at >= 0 ==> s[at] == ')',
        forall|k: int| at < k < to ==> s[k] != ')',
    ensures
        last_char(s, ')', to) == at,
    decreases to,
{
    if to > 0 && at < to - 1 {
        last_bracket(s, at, to - 1);
    }
}

/// How long a process has been running, in whole seconds: the time since the start
/// of the machine, less that at which the process started; nothing where the
/// process would have started later.
pub proof fn uptime_is_since_the_start(hz: int, up: nat, start: nat)
    requires
        1 <= hz <= 1_000_000,
        up <= 0x1_0000_0000,
        0 < start <= 0x1_0000_0000,
    ensures
        start <= up ==> uptime_of(hz, nat_text(up), nat_text((start * hz) as nat)) == Some(
            duration_text((up - start) as nat),
        ),
        start > up ==> uptime_of(hz, nat_text(up), nat_text((start * hz) as nat)) is None,
        uptime_of(0, nat_text(up), nat_text(start)) is None,
{
    let t = nat_text(up);
    nat_text_reads_back(up);
    assert forall|i: int| 0 <= i < t.len() implies !is_space(#[trigger] t[i]) by {
        assert(is_digit(t[i]));
    }
    words_stand_between_blanks(Seq::empty(), t, Seq::empty());
    assert(Seq::<char>::empty() + t + Seq::<char>::empty() =~= t);
    assert(words_of(t)[0] == t);
    whole_numbers_are_read(up);
    let ticks = (start * hz) as nat;
    assert(0 < start * hz <= 0x20_0000_0000_0000) by (nonlinear_arith)
        requires
            1 <= hz <= 1_000_000,
            0 < start <= 0x1_0000_0000,
    ;
    whole_numbers_are_read(ticks);
    whole_numbers_are_exact(up as int);
    whole_numbers_are_exact(ticks as int);
    whole_numbers_are_exact(hz);
    whole_numbers_are_exact(0);
    quotient_is_exact(of_int(ticks as int), start as int, of_int(hz), hz);
    let q = quotient(of_int(ticks as int), of_int(hz));
    difference_is_exact(of_int(up as int), up as int, q, start as int);
    let d = difference(of_int(up as int), q);
    less_is_exact(d, up - start, of_int(0), 0);
    if start < up {
        whole_of_exact(d, up - start);
    } else if start == up {
        nothing_is_truncated(d);
    }
}

proof fn nothing_is_truncated(x: crate::number::double::Real)
    requires
        is_worth(x, 0),
    ensures
        truncated(x) == 0,
{
    whole_of_exact(x, 0);
}

/// The figures on a process: its time first, then its size, what it read, what it
/// wrote, and how many threads it has, each only where there is something to tell.
pub proof fn summary_tells_what_there_is(uptime: Seq<char>, status: Seq<Seq<char>>, io: Seq<Seq<char>>)
    ensures
        ({
            let parts = summary_parts(uptime, status, io);
            let rss = status_figure(status, "VmRSS"@);
            let read = io_figure(io, "read_bytes"@);
            let written = io_figure(io, "write_bytes"@);
            let threads = status_figure(status, "Threads"@);
            let a = if rss > 0 { 1int } else { 0int };
            let b = a + if read > 0 { 1int } else { 0int };
            let c = b + if written > 0 { 1int } else { 0int };
            let d = c + if threads > 1 { 1int } else { 0int };
            &&& parts.len() == 1 + d
            &&& parts[0] == "running "@ + uptime
            &&& rss > 0 ==> parts[1] == "RSS"@ + " "@ + size_text(kb_as_mb(rss))
            &&& read > 0 ==> parts[1 + a] == size_text(bytes_as_mb(read)) + " "@ + "read"@
            &&& written > 0 ==> parts[1 + b] == size_text(bytes_as_mb(written)) + " "@ + "written"@
            &&& threads > 1 ==> parts[1 + c] == int_text(threads) + " threads"@
        }),
{
}

} // verus!
