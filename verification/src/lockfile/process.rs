//! What the kernel tells about a process, as far as the lock needs it.

use crate::number::arith::{difference, is_less, of_int, quotient, truncated};
use crate::number::double::{Double, Real};
use crate::number::fixed::fixed_text;
use crate::number::parse::{parse_double, read_double};
use crate::numeral::{i64_text, int_text, nat_text, parse_i64, parse_u64, read_int, read_nat, u64_text};
use crate::text::{
    chars_of, halves, join, joined, lines, lines_of, opt_str, opt_view, same, split_once, string_of,
    strip_suffix, trim, trimmed, views, words, words_of,
};
use vstd::prelude::*;

verus! {

/// The last index below `i` at which the text holds `c`, or -1.
pub open spec fn last_char(s: Seq<char>, c: char, i: int) -> int
    decreases i,
{
    if i <= 0 {
        -1
    } else if s[i - 1] == c {
        i - 1
    } else {
        last_char(s, c, i - 1)
    }
}

/// Looks for the last `c`.
pub fn rfind_char(cs: &[char], c: char) -> (r: Option<usize>)
    ensures
        r matches Some(i) ==> i == last_char(cs@, c, cs@.len() as int) && i < cs@.len() && cs@[i as int] == c,
        r is None ==> last_char(cs@, c, cs@.len() as int) == -1,
{
    let mut i: usize = cs.len();
    while i > 0
        invariant
            i <= cs@.len(),
            last_char(cs@, c, cs@.len() as int) == last_char(cs@, c, i as int),
        decreases i,
    {
        if cs[i - 1] == c {
            return Some(i - 1);
        }
        i -= 1;
    }
    None
}

/// The start time in the text of a process's `stat` file: the twentieth word
/// behind the command name, which ends at the last closing bracket and one
/// blank, as a canonical decimal number.
pub open spec fn starttime_in(stat: Seq<char>) -> Option<Seq<char>> {
    let end = last_char(stat, ')', stat.len() as int);
    if end < 0 || end + 2 > stat.len() {
        None
    } else {
        let fields = words_of(stat.skip(end + 2));
        if fields.len() <= 19 {
            None
        } else {
            match read_nat(fields[19], u64::MAX as nat) {
                Some(n) => Some(nat_text(n)),
                None => None,
            }
        }
    }
}

/// Reads a process's start time from the text of its `stat` file. An identity
/// token: the digits are checked and written anew, never rounded.
pub fn proc_starttime(stat: &str) -> (r: Option<String>)
    ensures
        r matches Some(t) ==> starttime_in(stat@) == Some(t@),
        r is None ==> starttime_in(stat@) is None,
{
    let cs = chars_of(stat);
    match rfind_char(&cs, ')') {
        Some(end) => {
            if cs.len() - end < 2 {
                return None;
            }
            let tail = string_of(&cs, end + 2, cs.len());
            assert(tail@ =~= stat@.skip(end + 2));
            let fields = words(tail.as_str());
            assert(views(fields@).len() == fields@.len());
            if fields.len() <= 19 {
                return None;
            }
            assert(views(fields@)[19] == fields@[19]@);
            match parse_u64(fields[19].as_str()) {
                Some(n) => Some(u64_text(n)),
                None => None,
            }
        },
        None => None,
    }
}

/// Reads a boot id from the text of the kernel's file: what is left without
/// white space, unless nothing is.
pub fn local_boot_id(text: &str) -> (r: Option<String>)
    ensures
        r matches Some(id) ==> id@ == trimmed(text@) && id@.len() > 0,
        r is None <==> trimmed(text@).len() == 0,
{
    let id = trim(text);
    if id.as_str().unicode_len() == 0 {
        None
    } else {
        Some(id)
    }
}

/// Whether recorded tokens describe the process that now has their number: all
/// of them known, the same boot, and exactly the same start time.
pub open spec fn identity_holds(
    pid: u32,
    starttime: Seq<char>,
    boot_id: Seq<char>,
    local_boot: Option<Seq<char>>,
    current_start: Option<Seq<char>>,
) -> bool {
    &&& pid != 0
    &&& starttime.len() > 0
    &&& boot_id.len() > 0
    &&& local_boot == Some(boot_id)
    &&& current_start == Some(starttime)
}

/// Verifies the recorded identity of a process against what this kernel says
/// now: its boot id, and the start time of the process with that number.
pub fn verify_identity(
    pid: u32,
    starttime: &str,
    boot_id: &str,
    local_boot: Option<&str>,
    current_start: Option<&str>,
) -> (r: bool)
    ensures
        r == identity_holds(pid, starttime@, boot_id@, opt_str(local_boot), opt_str(current_start)),
{
    if pid == 0 || starttime.unicode_len() == 0 || boot_id.unicode_len() == 0 {
        return false;
    }
    match local_boot {
        Some(local) => {
            if !same(local, boot_id) {
                return false;
            }
        },
        None => {
            return false;
        },
    }
    match current_start {
        Some(now) => same(now, starttime),
        None => false,
    }
}

/// A number below a hundred in two digits.
pub open spec fn two_digits(n: nat) -> Seq<char> {
    if n < 10 {
        seq!['0'] + nat_text(n)
    } else {
        nat_text(n)
    }
}

/// A number of seconds as `3h05m`, `3m12s` or `42s`.
pub open spec fn duration_text(secs: nat) -> Seq<char> {
    let hours = secs / 3600;
    let minutes = (secs % 3600) / 60;
    let seconds = secs % 60;
    if hours > 0 {
        nat_text(hours) + seq!['h'] + two_digits(minutes) + seq!['m']
    } else if minutes > 0 {
        nat_text(minutes) + seq!['m'] + two_digits(seconds) + seq!['s']
    } else {
        nat_text(seconds) + seq!['s']
    }
}

fn push_two_digits(out: &mut String, n: u64)
    ensures
        final(out)@ == old(out)@ + two_digits(n as nat),
{
    if n < 10 {
        out.push('0');
    }
    let digits = u64_text(n);
    out.append(digits.as_str());
    assert(out@ =~= old(out)@ + two_digits(n as nat));
}

/// Writes a number of seconds as hours and minutes, minutes and seconds, or seconds.
pub fn format_duration(secs: u64) -> (r: String)
    ensures
        r@ == duration_text(secs as nat),
{
    let hours: u64 = secs / 3600;
    let minutes: u64 = (secs % 3600) / 60;
    let seconds: u64 = secs % 60;
    if hours > 0 {
        let mut out = u64_text(hours);
        out.push('h');
        push_two_digits(&mut out, minutes);
        out.push('m');
        assert(out@ =~= duration_text(secs as nat));
        out
    } else if minutes > 0 {
        let mut out = u64_text(minutes);
        out.push('m');
        push_two_digits(&mut out, seconds);
        out.push('s');
        assert(out@ =~= duration_text(secs as nat));
        out
    } else {
        let mut out = u64_text(seconds);
        out.push('s');
        assert(out@ =~= duration_text(secs as nat));
        out
    }
}

/// The text without any of the suffixes `p` at its end.
pub open spec fn without_suffixes(s: Seq<char>, p: Seq<char>) -> Seq<char>
    decreases s.len(),
{
    if p.len() > 0 && p.is_suffix_of(s) {
        without_suffixes(s.take(s.len() - p.len()), p)
    } else {
        s
    }
}

/// Takes off the suffix `p` as often as it stands there.
pub fn trim_end_matches(s: &str, p: &str) -> (r: String)
    requires
        p@.len() > 0,
    ensures
        r@ == without_suffixes(s@, p@),
    decreases s@.len(),
{
    match strip_suffix(s, p) {
        Some(t) => trim_end_matches(t.as_str(), p),
        None => s.to_owned(),
    }
}

/// The text behind the colon on the last line that starts with the key.
pub open spec fn last_entry(ls: Seq<Seq<char>>, key: Seq<char>) -> Option<Seq<char>>
    decreases ls.len(),
{
    if ls.len() == 0 {
        None
    } else {
        match halves(ls.last(), ':') {
            Some(kv) => if kv.0 == key {
                Some(kv.1)
            } else {
                last_entry(ls.drop_last(), key)
            },
            None => last_entry(ls.drop_last(), key),
        }
    }
}

fn find_entry(ls: &[String], key: &str) -> (r: Option<String>)
    ensures
        opt_view(r) == last_entry(views(ls@), key@),
{
    let mut i: usize = ls.len();
    assert(views(ls@).take(i as int) =~= views(ls@));
    while i > 0
        invariant
            i <= ls@.len(),
            last_entry(views(ls@), key@) == last_entry(views(ls@).take(i as int), key@),
        decreases i,
    {
        assert(views(ls@).take(i as int).last() == ls@[i - 1]@);
        assert(views(ls@).take(i as int).drop_last() =~= views(ls@).take(i - 1));
        match split_once(ls[i - 1].as_str(), ':') {
            Some(kv) => {
                if same(kv.0.as_str(), key) {
                    return Some(kv.1);
                }
            },
            None => {},
        }
        i -= 1;
    }
    None
}

/// A figure of a process's `status` file, 0 where it is missing or unreadable.
pub open spec fn status_figure(ls: Seq<Seq<char>>, key: Seq<char>) -> int {
    match last_entry(ls, key) {
        Some(v) => match read_int(without_suffixes(trimmed(v), " kB"@), i64::MAX as nat) {
            Some(n) => n,
            None => 0,
        },
        None => 0,
    }
}

/// A figure of a process's `io` file, 0 where it is missing or unreadable.
pub open spec fn io_figure(ls: Seq<Seq<char>>, key: Seq<char>) -> int {
    match last_entry(ls, key) {
        Some(v) => match read_int(trimmed(v), i64::MAX as nat) {
            Some(n) => n,
            None => 0,
        },
        None => 0,
    }
}

fn read_status(ls: &[String], key: &str) -> (r: i64)
    ensures
        r == status_figure(views(ls@), key@),
{
    match find_entry(ls, key) {
        Some(v) => {
            let t = trim(v.as_str());
            proof {
                reveal_strlit(" kB");
            }
            let digits = trim_end_matches(t.as_str(), " kB");
            match parse_i64(digits.as_str()) {
                Some(n) => n,
                None => 0,
            }
        },
        None => 0,
    }
}

fn read_io(ls: &[String], key: &str) -> (r: i64)
    ensures
        r == io_figure(views(ls@), key@),
{
    match find_entry(ls, key) {
        Some(v) => {
            let t = trim(v.as_str());
            match parse_i64(t.as_str()) {
                Some(n) => n,
                None => 0,
            }
        },
        None => 0,
    }
}

/// Kilobytes as megabytes.
pub open spec fn kb_as_mb(kb: int) -> Real {
    quotient(of_int(kb), of_int(1024))
}

/// Bytes as megabytes.
pub open spec fn bytes_as_mb(bytes: int) -> Real {
    quotient(of_int(bytes), of_int(1_048_576))
}

/// Megabytes as text: in gigabytes with one decimal from 1024 on.
pub open spec fn size_text(mb: Real) -> Seq<char> {
    if is_less(mb, of_int(1024)) {
        fixed_text(mb, 0) + " MB"@
    } else {
        fixed_text(quotient(mb, of_int(1024)), 1) + " GB"@
    }
}

fn format_size(mb: Double) -> (r: String)
    ensures
        r@ == size_text(mb@),
{
    if mb.less(Double::of_i64(1024)) {
        let mut out = mb.fixed(0);
        out.append(" MB");
        out
    } else {
        let mut out = mb.over(Double::of_i64(1024)).fixed(1);
        out.append(" GB");
        out
    }
}

/// Writes kilobytes behind a label, as `RSS 4.2 GB`.
pub fn format_bytes_kb(kb: i64, label: &str) -> (r: String)
    ensures
        r@ == label@ + " "@ + size_text(kb_as_mb(kb as int)),
{
    let mut out = label.to_owned();
    out.append(" ");
    let size = format_size(Double::of_i64(kb).over(Double::of_i64(1024)));
    out.append(size.as_str());
    out
}

/// Writes bytes in front of a label, as `847 MB read`.
pub fn format_bytes(bytes: i64, label: &str) -> (r: String)
    ensures
        r@ == size_text(bytes_as_mb(bytes as int)) + " "@ + label@,
{
    let mut out = format_size(Double::of_i64(bytes).over(Double::of_i64(1_048_576)));
    out.append(" ");
    out.append(label);
    out
}

/// How long a process has been running: the uptime of the system less the time
/// at which the process started, as far as both can be read.
pub open spec fn uptime_of(ticks_per_second: int, uptime: Seq<char>, starttime: Seq<char>) -> Option<
    Seq<char>,
> {
    let fields = words_of(uptime);
    if ticks_per_second <= 0 || fields.len() == 0 {
        None
    } else {
        match (read_double(fields[0]), read_double(starttime)) {
            (Some(up), Some(start)) => {
                let elapsed = difference(up, quotient(start, of_int(ticks_per_second)));
                if is_less(elapsed, of_int(0)) {
                    None
                } else {
                    Some(duration_text(truncated(elapsed) as nat))
                }
            },
            _ => None,
        }
    }
}

/// Writes how long a process has been running, from the text of the system's
/// `uptime` file and the start time of the process in clock ticks.
pub fn process_uptime_str(ticks_per_second: i64, uptime: &str, starttime: &str) -> (r: Option<String>)
    ensures
        opt_view(r) == uptime_of(ticks_per_second as int, uptime@, starttime@),
{
    if ticks_per_second <= 0 {
        return None;
    }
    let fields = words(uptime);
    assert(views(fields@).len() == fields@.len());
    if fields.len() == 0 {
        return None;
    }
    assert(views(fields@)[0] == fields@[0]@);
    match (parse_double(fields[0].as_str()), parse_double(starttime)) {
        (Some(up), Some(start)) => {
            let elapsed = up.minus(start.over(Double::of_i64(ticks_per_second)));
            if elapsed.less(Double::of_i64(0)) {
                None
            } else {
                Some(format_duration(elapsed.truncate()))
            }
        },
        _ => None,
    }
}

/// How long a verified process has been running; nothing of one that is not.
pub fn verified_uptime(verified: bool, uptime: Option<String>) -> (r: Option<String>)
    ensures
        r == if verified {
            uptime
        } else {
            None
        },
{
    if verified {
        uptime
    } else {
        None
    }
}

/// A part of a summary, where the figure counts.
pub open spec fn part_if(shown: bool, part: Seq<char>) -> Seq<Seq<char>> {
    if shown {
        seq![part]
    } else {
        Seq::empty()
    }
}

/// The figures on a process: how long it has been running, its resident size,
/// what it has read and written, and its threads where there is more than one.
pub open spec fn summary_parts(
    uptime: Seq<char>,
    status: Seq<Seq<char>>,
    io: Seq<Seq<char>>,
) -> Seq<Seq<char>> {
    let rss = status_figure(status, "VmRSS"@);
    let threads = status_figure(status, "Threads"@);
    let read = io_figure(io, "read_bytes"@);
    let written = io_figure(io, "write_bytes"@);
    seq!["running "@ + uptime] + part_if(rss > 0, "RSS"@ + " "@ + size_text(kb_as_mb(rss)))
        + part_if(read > 0, size_text(bytes_as_mb(read)) + " "@ + "read"@) + part_if(
        written > 0,
        size_text(bytes_as_mb(written)) + " "@ + "written"@,
    ) + part_if(threads > 1, int_text(threads) + " threads"@)
}

/// The lines of an optional text.
pub open spec fn opt_lines(text: Option<Seq<char>>) -> Seq<Seq<char>> {
    match text {
        Some(t) => lines_of(t),
        None => Seq::empty(),
    }
}

/// Writes the figures on a process from its `status` file and its `io` file,
/// which may be unreadable.
pub fn process_summary_unverified(uptime: &str, status: &str, io: Option<&str>) -> (r: String)
    ensures
        r@ == joined(
            summary_parts(uptime@, lines_of(status@), opt_lines(opt_str(io))),
            ", "@,
        ),
{
    let status_lines = lines(status);
    let rss: i64 = read_status(&status_lines, "VmRSS");
    let threads: i64 = read_status(&status_lines, "Threads");
    let io_lines = match io {
        Some(t) => lines(t),
        None => Vec::new(),
    };
    assert(views(io_lines@) =~= opt_lines(opt_str(io)));
    let read: i64 = read_io(&io_lines, "read_bytes");
    let written: i64 = read_io(&io_lines, "write_bytes");
    let mut parts: Vec<String> = Vec::new();
    let mut first = "running ".to_owned();
    first.append(uptime);
    parts.push(first);
    if rss > 0 {
        parts.push(format_bytes_kb(rss, "RSS"));
    }
    if read > 0 {
        parts.push(format_bytes(read, "read"));
    }
    if written > 0 {
        parts.push(format_bytes(written, "written"));
    }
    if threads > 1 {
        let mut part = i64_text(threads);
        part.append(" threads");
        parts.push(part);
    }
    assert(views(parts@) =~= summary_parts(uptime@, lines_of(status@), opt_lines(opt_str(io))));
    join(&parts, ", ")
}

/// The summary of a process whose identity was verified before it was read and
/// whose start time was the same afterwards; nothing otherwise.
pub fn verified_summary(
    verified: bool,
    summary: Option<String>,
    starttime: &str,
    start_after: Option<&str>,
) -> (r: Option<String>)
    ensures
        r == if verified && opt_str(start_after) == Some(starttime@) {
            summary
        } else {
            None
        },
{
    if !verified {
        return None;
    }
    match start_after {
        Some(now) => if same(now, starttime) {
            summary
        } else {
            None
        },
        None => None,
    }
}

} // verus!
