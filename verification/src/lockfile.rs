//! The global lock file: who holds it, and how that is written and read.

use crate::lockfile::escape::{
    escape_value, escaped, escaped_char, escaped_is_one_line, unescape_undoes_escape,
    unescape_value, unescaped,
};
use crate::numeral::{
    nat_text, parse_u32, read_nat, read_nat_of_text, nat_text_reads_back, u64_text, is_digit,
};
use crate::path::{from_utf8, text_in};
use crate::text::{
    halves, is_space, join, joined, lines, lines_of, next_char, pieces, same, split, split_once,
    trim, trimmed, views, without_return,
};
use vstd::prelude::*;

pub mod escape;
pub mod figures;
pub mod guard;
pub mod layout;
pub mod process;
pub mod registry;
pub mod waiting;

verus! {

/// What the holder of the lock tells about itself while it holds it.
pub struct LockState {
    pub project: String,
    pub command: String,
    /// The invocation without the program's name.
    pub args: String,
    pub project_root: String,
    /// The holder's start time in clock ticks since boot, empty when unknown.
    pub starttime: String,
    /// The boot in which the lock was taken, empty when unknown.
    pub boot_id: String,
    /// The child that runs under the lock, with its start time.
    pub child: Option<(u32, String)>,
    /// Helper servers that run under the lock, with their start times.
    pub mocks: Vec<(u32, String)>,
    /// Which run of how many is under way, counted from one.
    pub progress: Option<(u32, u32)>,
}

/// A process number and the start time recorded with it.
pub open spec fn process_view(p: (u32, String)) -> (u32, Seq<char>) {
    (p.0, p.1@)
}

/// The process that an optional record names.
pub open spec fn child_view(p: Option<(u32, String)>) -> Option<(u32, Seq<char>)> {
    match p {
        Some(c) => Some(process_view(c)),
        None => None,
    }
}

/// The processes that a list of records names.
pub open spec fn mocks_view(v: Seq<(u32, String)>) -> Seq<(u32, Seq<char>)> {
    v.map_values(|p: (u32, String)| process_view(p))
}

/// The contents of a [`LockState`].
pub ghost struct StateView {
    pub project: Seq<char>,
    pub command: Seq<char>,
    pub args: Seq<char>,
    pub project_root: Seq<char>,
    pub starttime: Seq<char>,
    pub boot_id: Seq<char>,
    pub child: Option<(u32, Seq<char>)>,
    pub mocks: Seq<(u32, Seq<char>)>,
    pub progress: Option<(u32, u32)>,
}

impl View for LockState {
    type V = StateView;

    open spec fn view(&self) -> StateView {
        StateView {
            project: self.project@,
            command: self.command@,
            args: self.args@,
            project_root: self.project_root@,
            starttime: self.starttime@,
            boot_id: self.boot_id@,
            child: child_view(self.child),
            mocks: mocks_view(self.mocks@),
            progress: self.progress,
        }
    }
}

fn copy_process(p: &(u32, String)) -> (r: (u32, String))
    ensures
        process_view(r) == process_view(*p),
{
    (p.0, p.1.clone())
}

impl LockState {
    /// The same state once more.
    pub fn copy(&self) -> (r: LockState)
        ensures
            r@ == self@,
    {
        let mut mocks: Vec<(u32, String)> = Vec::new();
        let mut i: usize = 0;
        while i < self.mocks.len()
            invariant
                i <= self.mocks@.len(),
                mocks@.len() == i,
                forall|k: int|
                    0 <= k < i ==> process_view(#[trigger] mocks@[k]) == process_view(
                        self.mocks@[k],
                    ),
            decreases self.mocks@.len() - i,
        {
            mocks.push(copy_process(&self.mocks[i]));
            i += 1;
        }
        assert(mocks_view(mocks@) =~= mocks_view(self.mocks@));
        LockState {
            project: self.project.clone(),
            command: self.command.clone(),
            args: self.args.clone(),
            project_root: self.project_root.clone(),
            starttime: self.starttime.clone(),
            boot_id: self.boot_id.clone(),
            child: match &self.child {
                Some(p) => Some(copy_process(p)),
                None => None,
            },
            mocks,
            progress: self.progress,
        }
    }
}

/// One line of the file.
pub open spec fn field_line(key: Seq<char>, value: Seq<char>) -> Seq<char> {
    key + seq!['='] + value + seq!['\n']
}

/// A recorded process as `pid:starttime`.
pub open spec fn mock_text(m: (u32, Seq<char>)) -> Seq<char> {
    nat_text(m.0 as nat) + seq![':'] + m.1
}

/// The helper servers, with commas between them.
pub open spec fn mocks_text(mocks: Seq<(u32, Seq<char>)>) -> Seq<char> {
    joined(mocks.map_values(|m: (u32, Seq<char>)| mock_text(m)), seq![','])
}

/// The progress as `run/total`, empty where there is none.
pub open spec fn progress_text(progress: Option<(u32, u32)>) -> Seq<char> {
    match progress {
        Some(p) => nat_text(p.0 as nat) + seq!['/'] + nat_text(p.1 as nat),
        None => Seq::empty(),
    }
}

/// The contents of the lock file for a holder: every key in every record, the
/// identity of the holder first, the unbounded argument line last.
pub open spec fn record(pid: u32, s: StateView) -> Seq<char> {
    field_line("pid"@, nat_text(pid as nat)) + field_line("starttime"@, s.starttime) + field_line(
        "boot_id"@,
        s.boot_id,
    ) + field_line(
        "child_pid"@,
        match s.child {
            Some(c) => nat_text(c.0 as nat),
            None => Seq::empty(),
        },
    ) + field_line(
        "child_starttime"@,
        match s.child {
            Some(c) => c.1,
            None => Seq::empty(),
        },
    ) + field_line("mock_pids"@, mocks_text(s.mocks)) + field_line(
        "progress"@,
        progress_text(s.progress),
    ) + field_line("project"@, escaped(s.project)) + field_line("command"@, escaped(s.command))
        + field_line("root"@, escaped(s.project_root)) + field_line("args"@, escaped(s.args))
}

fn push_field(out: &mut String, key: &str, value: &str)
    ensures
        final(out)@ == old(out)@ + field_line(key@, value@),
{
    out.append(key);
    out.push('=');
    out.append(value);
    out.push('\n');
    assert(out@ =~= old(out)@ + field_line(key@, value@));
}

fn render_mocks(mocks: &[(u32, String)]) -> (r: String)
    ensures
        r@ == mocks_text(mocks_view(mocks@)),
{
    let mut parts: Vec<String> = Vec::new();
    let mut i: usize = 0;
    while i < mocks.len()
        invariant
            i <= mocks@.len(),
            parts@.len() == i,
            forall|k: int| 0 <= k < i ==> #[trigger] parts@[k]@ == mock_text(process_view(mocks@[k])),
        decreases mocks@.len() - i,
    {
        let mut part = u64_text(mocks[i].0 as u64);
        part.push(':');
        part.append(mocks[i].1.as_str());
        assert(part@ =~= mock_text(process_view(mocks@[i as int])));
        parts.push(part);
        i += 1;
    }
    proof {
        reveal_strlit(",");
        assert(","@ =~= seq![',']);
        assert(views(parts@) =~= mocks_view(mocks@).map_values(
            |m: (u32, Seq<char>)| mock_text(m),
        ));
    }
    join(&parts, ",")
}

/// The contents of the lock file for the process `pid` in this state.
pub fn render_record(pid: u32, state: &LockState) -> (r: String)
    ensures
        r@ == record(pid, state@),
{
    let mut out = String::new();
    let pid_text = u64_text(pid as u64);
    push_field(&mut out, "pid", pid_text.as_str());
    assert(out@ =~= field_line("pid"@, nat_text(pid as nat)));
    push_field(&mut out, "starttime", state.starttime.as_str());
    push_field(&mut out, "boot_id", state.boot_id.as_str());
    match &state.child {
        Some(c) => {
            let child_text = u64_text(c.0 as u64);
            push_field(&mut out, "child_pid", child_text.as_str());
            push_field(&mut out, "child_starttime", c.1.as_str());
        },
        None => {
            let empty = String::new();
            push_field(&mut out, "child_pid", empty.as_str());
            push_field(&mut out, "child_starttime", empty.as_str());
        },
    }
    let mocks = render_mocks(&state.mocks);
    push_field(&mut out, "mock_pids", mocks.as_str());
    let mut progress = String::new();
    match state.progress {
        Some(p) => {
            progress = u64_text(p.0 as u64);
            progress.push('/');
            let total = u64_text(p.1 as u64);
            progress.append(total.as_str());
        },
        None => {},
    }
    assert(progress@ =~= progress_text(state.progress));
    push_field(&mut out, "progress", progress.as_str());
    let project = escape_value(state.project.as_str());
    let command = escape_value(state.command.as_str());
    let root = escape_value(state.project_root.as_str());
    let args = escape_value(state.args.as_str());
    push_field(&mut out, "project", project.as_str());
    push_field(&mut out, "command", command.as_str());
    push_field(&mut out, "root", root.as_str());
    push_field(&mut out, "args", args.as_str());
    out
}

/// What a reader of the lock file learns. The process numbers mean something
/// only once their identity is verified.
#[derive(Debug)]
pub struct LockInfo {
    pub pid: u32,
    pub starttime: String,
    pub boot_id: String,
    pub project: String,
    pub command: String,
    pub args: String,
    pub project_root: String,
    pub child: Option<(u32, String)>,
    pub mocks: Vec<(u32, String)>,
    pub progress: Option<(u32, u32)>,
}

/// The contents of a [`LockInfo`].
pub ghost struct InfoView {
    pub pid: u32,
    pub state: StateView,
}

impl View for LockInfo {
    type V = InfoView;

    open spec fn view(&self) -> InfoView {
        InfoView {
            pid: self.pid,
            state: StateView {
                project: self.project@,
                command: self.command@,
                args: self.args@,
                project_root: self.project_root@,
                starttime: self.starttime@,
                boot_id: self.boot_id@,
                child: child_view(self.child),
                mocks: mocks_view(self.mocks@),
                progress: self.progress,
            },
        }
    }
}

/// The value of the first line for a key, without white space around it, and
/// empty where no line has the key.
pub open spec fn value_of(ls: Seq<Seq<char>>, key: Seq<char>) -> Seq<char>
    decreases ls.len(),
{
    if ls.len() == 0 {
        Seq::empty()
    } else {
        match halves(ls[0], '=') {
            Some(kv) => if kv.0 == key {
                trimmed(kv.1)
            } else {
                value_of(ls.skip(1), key)
            },
            None => value_of(ls.skip(1), key),
        }
    }
}

/// The recorded process that a text `pid:starttime` denotes.
pub open spec fn read_mock(e: Seq<char>) -> Option<(u32, Seq<char>)> {
    match halves(e, ':') {
        Some(h) => match read_nat(trimmed(h.0), u32::MAX as nat) {
            Some(n) => Some((n as u32, trimmed(h.1))),
            None => None,
        },
        None => None,
    }
}

/// The recorded processes among the entries of a list; other entries are passed over.
pub open spec fn read_mocks(entries: Seq<Seq<char>>) -> Seq<(u32, Seq<char>)>
    decreases entries.len(),
{
    if entries.len() == 0 {
        Seq::empty()
    } else {
        match read_mock(entries.last()) {
            Some(m) => read_mocks(entries.drop_last()).push(m),
            None => read_mocks(entries.drop_last()),
        }
    }
}

/// The progress that a text `run/total` denotes.
pub open spec fn read_progress(s: Seq<char>) -> Option<(u32, u32)> {
    match halves(s, '/') {
        Some(h) => match (read_nat(h.0, u32::MAX as nat), read_nat(h.1, u32::MAX as nat)) {
            (Some(a), Some(b)) => Some((a as u32, b as u32)),
            _ => None,
        },
        None => None,
    }
}

/// What the lines of a lock file say.
pub open spec fn info_of(ls: Seq<Seq<char>>) -> InfoView {
    InfoView {
        pid: match read_nat(value_of(ls, "pid"@), u32::MAX as nat) {
            Some(n) => n as u32,
            None => 0,
        },
        state: StateView {
            project: unescaped(value_of(ls, "project"@)),
            command: unescaped(value_of(ls, "command"@)),
            args: unescaped(value_of(ls, "args"@)),
            project_root: unescaped(value_of(ls, "root"@)),
            starttime: value_of(ls, "starttime"@),
            boot_id: value_of(ls, "boot_id"@),
            child: match read_nat(value_of(ls, "child_pid"@), u32::MAX as nat) {
                Some(n) => Some((n as u32, value_of(ls, "child_starttime"@))),
                None => None,
            },
            mocks: read_mocks(pieces(value_of(ls, "mock_pids"@), ',')),
            progress: read_progress(value_of(ls, "progress"@)),
        },
    }
}

/// What the text of a lock file says; nothing where it names neither a process
/// nor a project.
pub open spec fn read_record(text: Seq<char>) -> Option<InfoView> {
    let info = info_of(lines_of(text));
    if info.pid == 0 && info.state.project.len() == 0 {
        None
    } else {
        Some(info)
    }
}

fn raw_value(ls: &[String], key: &str) -> (r: String)
    ensures
        r@ == value_of(views(ls@), key@),
{
    let mut i: usize = 0;
    assert(views(ls@).skip(0) =~= views(ls@));
    while i < ls.len()
        invariant
            i <= ls@.len(),
            value_of(views(ls@), key@) == value_of(views(ls@).skip(i as int), key@),
        decreases ls@.len() - i,
    {
        assert(views(ls@).skip(i as int)[0] == ls@[i as int]@);
        assert(views(ls@).skip(i as int).skip(1) =~= views(ls@).skip(i + 1));
        match split_once(ls[i].as_str(), '=') {
            Some(kv) => {
                if same(kv.0.as_str(), key) {
                    return trim(kv.1.as_str());
                }
            },
            None => {},
        }
        i += 1;
    }
    String::new()
}

fn parse_mock(entry: &str) -> (r: Option<(u32, String)>)
    ensures
        child_view(r) == read_mock(entry@),
{
    match split_once(entry, ':') {
        Some(h) => {
            let number = trim(h.0.as_str());
            match parse_u32(number.as_str()) {
                Some(n) => Some((n, trim(h.1.as_str()))),
                None => None,
            }
        },
        None => None,
    }
}

fn parse_mocks(value: &str) -> (r: Vec<(u32, String)>)
    ensures
        mocks_view(r@) == read_mocks(pieces(value@, ',')),
{
    let entries = split(value, ',');
    let mut out: Vec<(u32, String)> = Vec::new();
    let mut i: usize = 0;
    let ghost all = pieces(value@, ',');
    assert(mocks_view(out@) =~= read_mocks(all.take(0)));
    while i < entries.len()
        invariant
            i <= entries@.len(),
            views(entries@) == all,
            mocks_view(out@) == read_mocks(all.take(i as int)),
        decreases entries@.len() - i,
    {
        let ghost before = out@;
        assert(all.take(i + 1).drop_last() =~= all.take(i as int));
        assert(all[i as int] == entries@[i as int]@);
        match parse_mock(entries[i].as_str()) {
            Some(m) => {
                out.push(m);
                assert(mocks_view(out@) =~= mocks_view(before).push(process_view(m)));
            },
            None => {},
        }
        i += 1;
    }
    assert(all.take(i as int) =~= all);
    out
}

fn parse_progress(value: &str) -> (r: Option<(u32, u32)>)
    ensures
        r == read_progress(value@),
{
    match split_once(value, '/') {
        Some(h) => match (parse_u32(h.0.as_str()), parse_u32(h.1.as_str())) {
            (Some(a), Some(b)) => Some((a, b)),
            _ => None,
        },
        None => None,
    }
}

/// Reads the text of a lock file. The first line of a key wins, so that what is
/// left of a longer, older record cannot override a fresh one; an empty or
/// unreadable value counts as unset.
pub fn parse_lock_contents(text: &str) -> (r: Option<LockInfo>)
    ensures
        r matches Some(info) ==> read_record(text@) == Some(info@),
        r is None ==> read_record(text@) is None,
{
    let ls = lines(text);
    let pid_text = raw_value(&ls, "pid");
    let pid: u32 = match parse_u32(pid_text.as_str()) {
        Some(n) => n,
        None => 0,
    };
    let project = unescape_value(raw_value(&ls, "project").as_str());
    if pid == 0 && project.as_str().unicode_len() == 0 {
        return None;
    }
    let child = match parse_u32(raw_value(&ls, "child_pid").as_str()) {
        Some(n) => Some((n, raw_value(&ls, "child_starttime"))),
        None => None,
    };
    Some(
        LockInfo {
            pid,
            starttime: raw_value(&ls, "starttime"),
            boot_id: raw_value(&ls, "boot_id"),
            project,
            command: unescape_value(raw_value(&ls, "command").as_str()),
            args: unescape_value(raw_value(&ls, "args").as_str()),
            project_root: unescape_value(raw_value(&ls, "root").as_str()),
            child,
            mocks: parse_mocks(raw_value(&ls, "mock_pids").as_str()),
            progress: parse_progress(raw_value(&ls, "progress").as_str()),
        },
    )
}

/// Whether a token stands on a line as it is: no line feed, and no white space
/// at either end.
pub open spec fn plain_token(s: Seq<char>) -> bool {
    &&& !s.contains('\n')
    &&& s.len() > 0 ==> !is_space(s[0]) && !is_space(s.last())
}

/// Whether a character at the edge of a value survives the file: white space
/// there is taken for padding, unless it is escaped.
pub open spec fn firm_edge(c: char) -> bool {
    !is_space(c) || c == '\n' || c == '\r'
}

/// Whether a value comes back from the file as it went in.
pub open spec fn firm_value(s: Seq<char>) -> bool {
    s.len() > 0 ==> firm_edge(s[0]) && firm_edge(s.last())
}

/// Whether a state can be read back from its record as it is.
pub open spec fn firm_state(s: StateView) -> bool {
    &&& plain_token(s.starttime)
    &&& plain_token(s.boot_id)
    &&& (s.child matches Some(c) ==> plain_token(c.1))
    &&& forall|i: int|
        0 <= i < s.mocks.len() ==> plain_token((#[trigger] s.mocks[i]).1) && !s.mocks[i].1.contains(
            ',',
        )
    &&& firm_value(s.project)
    &&& firm_value(s.command)
    &&& firm_value(s.project_root)
    &&& firm_value(s.args)
}

proof fn escaped_edges(s: Seq<char>)
    requires
        s.len() > 0,
    ensures
        escaped(s).len() > 0,
        escaped(s)[0] == escaped_char(s[0])[0],
        escaped(s).last() == escaped_char(s.last()).last(),
    decreases s.len(),
{
    let rest = s.skip(1);
    if s.len() > 1 {
        escaped_edges(rest);
        assert(escaped(s).last() == escaped(rest).last());
        assert(rest.last() == s.last());
    } else {
        assert(escaped(rest) =~= Seq::<char>::empty());
        assert(escaped(s) =~= escaped_char(s[0]));
    }
}

/// A firm value is written without line feed and without white space at its edges.
proof fn escaped_is_plain(s: Seq<char>)
    requires
        firm_value(s),
    ensures
        plain_token(escaped(s)),
{
    escaped_is_one_line(s);
    if s.len() > 0 {
        escaped_edges(s);
    }
}

proof fn digits_are_plain(n: nat)
    ensures
        plain_token(nat_text(n)),
        !nat_text(n).contains(':'),
        !nat_text(n).contains(','),
        !nat_text(n).contains('/'),
{
    nat_text_reads_back(n);
    let t = nat_text(n);
    assert(is_digit(t[0]));
    assert(is_digit(t[t.len() - 1]));
}

proof fn mock_reads_back(m: (u32, Seq<char>))
    requires
        plain_token(m.1),
        !m.1.contains(','),
    ensures
        read_mock(mock_text(m)) == Some(m),
        !mock_text(m).contains(','),
        !mock_text(m).contains('\n'),
{
    digits_are_plain(m.0 as nat);
    crate::text::halves_of(nat_text(m.0 as nat), ':', m.1);
    crate::text::trimmed_keeps(nat_text(m.0 as nat));
    crate::text::trimmed_keeps(m.1);
    read_nat_of_text(m.0 as nat, u32::MAX as nat);
    let t = mock_text(m);
    let n = nat_text(m.0 as nat).len() as int;
    assert forall|k: int| 0 <= k < t.len() implies t[k] != ',' && t[k] != '\n' by {
        if k < n {
            assert(nat_text(m.0 as nat).contains(nat_text(m.0 as nat)[k]));
        } else if k > n {
            assert(m.1.contains(m.1[k - n - 1]));
        }
    }
}

proof fn mocks_read_back_each(mocks: Seq<(u32, Seq<char>)>)
    requires
        forall|i: int|
            0 <= i < mocks.len() ==> plain_token((#[trigger] mocks[i]).1) && !mocks[i].1.contains(
                ',',
            ),
    ensures
        read_mocks(mocks.map_values(|m: (u32, Seq<char>)| mock_text(m))) == mocks,
    decreases mocks.len(),
{
    let f = |m: (u32, Seq<char>)| mock_text(m);
    let texts = mocks.map_values(f);
    if mocks.len() > 0 {
        let front = mocks.drop_last();
        assert forall|i: int| 0 <= i < front.len() implies plain_token((#[trigger] front[i]).1)
            && !front[i].1.contains(',') by {
            assert(front[i] == mocks[i]);
        }
        mocks_read_back_each(front);
        assert(texts.drop_last() =~= front.map_values(f));
        mock_reads_back(mocks.last());
        assert(mocks =~= front.push(mocks.last()));
    } else {
        assert(texts =~= Seq::empty());
        assert(mocks =~= Seq::empty());
    }
}

proof fn joined_has_part_chars(parts: Seq<Seq<char>>, sep: Seq<char>, c: char)
    requires
        forall|i: int| 0 <= i < parts.len() ==> !(#[trigger] parts[i]).contains(c),
        !sep.contains(c),
    ensures
        !joined(parts, sep).contains(c),
    decreases parts.len(),
{
    if parts.len() > 1 {
        let front = parts.drop_last();
        assert forall|i: int| 0 <= i < front.len() implies !(#[trigger] front[i]).contains(c) by {
            assert(front[i] == parts[i]);
        }
        joined_has_part_chars(front, sep, c);
        let j = joined(parts, sep);
        let a = joined(front, sep);
        let last = parts[parts.len() - 1];
        assert forall|k: int| 0 <= k < j.len() implies j[k] != c by {
            if k < a.len() {
                assert(a.contains(a[k]));
            } else if k < a.len() + sep.len() {
                assert(sep.contains(sep[k - a.len()]));
            } else {
                assert(last.contains(last[k - a.len() - sep.len()]));
            }
        }
    }
}

proof fn joined_edges(parts: Seq<Seq<char>>, sep: Seq<char>)
    requires
        parts.len() > 0,
        parts[0].len() > 0,
        parts.last().len() > 0,
    ensures
        joined(parts, sep).len() > 0,
        joined(parts, sep)[0] == parts[0][0],
        joined(parts, sep).last() == parts.last().last(),
{
    if parts.len() > 1 {
        crate::text::joined_front(parts, sep);
        assert(joined(parts, sep).last() == parts.last().last());
    }
}

/// The list of helper servers is read as it was written.
proof fn mocks_read_back(mocks: Seq<(u32, Seq<char>)>)
    requires
        forall|i: int|
            0 <= i < mocks.len() ==> plain_token((#[trigger] mocks[i]).1) && !mocks[i].1.contains(
                ',',
            ),
    ensures
        !mocks_text(mocks).contains('\n'),
        mocks.len() > 0 ==> mocks_text(mocks).len() > 0 && is_digit(mocks_text(mocks)[0]),
        mocks.len() > 0 ==> !is_space(mocks_text(mocks).last()),
        read_mocks(pieces(trimmed(mocks_text(mocks)), ',')) == mocks,
{
    let f = |m: (u32, Seq<char>)| mock_text(m);
    let texts = mocks.map_values(f);
    assert forall|i: int| 0 <= i < texts.len() implies !(#[trigger] texts[i]).contains(',')
        && !texts[i].contains('\n') by {
        mock_reads_back(mocks[i]);
    }
    joined_has_part_chars(texts, seq![','], '\n');
    if mocks.len() > 0 {
        crate::text::pieces_of_joined(texts, ',');
        mocks_read_back_each(mocks);
        let m0 = mocks[0];
        let m1 = mocks[mocks.len() - 1];
        nat_text_reads_back(m0.0 as nat);
        assert(is_digit(nat_text(m0.0 as nat)[0]));
        assert(texts[0][0] == nat_text(m0.0 as nat)[0]);
        joined_edges(texts, seq![',']);
        assert(texts.last() == mock_text(m1));
        if m1.1.len() > 0 {
            assert(mock_text(m1).last() == m1.1.last());
        } else {
            assert(mock_text(m1).last() == ':');
        }
        crate::text::trimmed_keeps(mocks_text(mocks));
    } else {
        assert(mocks_text(mocks) =~= Seq::<char>::empty());
        let e = Seq::<char>::empty();
        assert(pieces(trimmed(e), ',') =~= seq![e]);
        assert(seq![e].drop_last() =~= Seq::empty());
        assert(read_mock(seq![e].last()) is None);
        assert(read_mocks(seq![e].drop_last()) =~= Seq::empty());
        assert(read_mocks(seq![e]) =~= Seq::empty());
        assert(mocks =~= Seq::empty());
    }
}

/// The value of a key is found on the first line that has it.
proof fn value_of_front(key: Seq<char>, value: Seq<char>, rest: Seq<Seq<char>>, wanted: Seq<char>)
    requires
        !key.contains('='),
    ensures
        value_of(seq![key + seq!['='] + value] + rest, wanted) == if wanted == key {
            trimmed(value)
        } else {
            value_of(rest, wanted)
        },
{
    let ls = seq![key + seq!['='] + value] + rest;
    crate::text::halves_of(key, '=', value);
    assert(ls[0] == key + seq!['='] + value);
    assert(ls.skip(1) =~= rest);
}

/// The first line of a record is its first field.
proof fn lines_of_field(key: Seq<char>, value: Seq<char>, rest: Seq<char>)
    requires
        !key.contains('\n'),
        plain_token(value),
    ensures
        lines_of(field_line(key, value) + rest) == seq![key + seq!['='] + value] + lines_of(rest),
{
    let l = key + seq!['='] + value;
    assert forall|k: int| 0 <= k < l.len() implies l[k] != '\n' by {
        if k < key.len() {
            assert(key.contains(key[k]));
        } else if k > key.len() {
            assert(value.contains(value[k - key.len() - 1]));
        }
    }
    crate::text::lines_of_line(l, rest);
    if value.len() > 0 {
        assert(l.last() == value.last());
    } else {
        assert(l.last() == '=');
    }
    assert(without_return(l) == l);
    assert(field_line(key, value) + rest =~= l + seq!['\n'] + rest);
}

/// The keys of a record, in order.
pub open spec fn record_keys() -> Seq<Seq<char>> {
    seq![
        "pid"@,
        "starttime"@,
        "boot_id"@,
        "child_pid"@,
        "child_starttime"@,
        "mock_pids"@,
        "progress"@,
        "project"@,
        "command"@,
        "root"@,
        "args"@,
    ]
}

/// No key holds the sign that ends it or a line feed, and no two are alike.
proof fn record_keys_are_distinct()
    ensures
        forall|i: int|
            0 <= i < 11 ==> !(#[trigger] record_keys()[i]).contains('=')
                && !record_keys()[i].contains('\n'),
        forall|i: int, j: int|
            0 <= i < j < 11 ==> #[trigger] record_keys()[i] != #[trigger] record_keys()[j],
{
    reveal_strlit("pid");
    reveal_strlit("starttime");
    reveal_strlit("boot_id");
    reveal_strlit("child_pid");
    reveal_strlit("child_starttime");
    reveal_strlit("mock_pids");
    reveal_strlit("progress");
    reveal_strlit("project");
    reveal_strlit("command");
    reveal_strlit("root");
    reveal_strlit("args");
    let ks = record_keys();
    assert(ks[0].len() == 3 && ks[1].len() == 9 && ks[2].len() == 7 && ks[3].len() == 9
        && ks[4].len() == 15 && ks[5].len() == 9 && ks[6].len() == 8 && ks[7].len() == 7
        && ks[8].len() == 7 && ks[9].len() == 4 && ks[10].len() == 4);
    assert(ks[1][0] == 's' && ks[3][0] == 'c' && ks[5][0] == 'm');
    assert(ks[2][0] == 'b' && ks[7][0] == 'p' && ks[8][0] == 'c');
    assert(ks[9][0] == 'r' && ks[10][0] == 'a');
}

/// The values of a record, in the order of its keys.
pub open spec fn record_values(pid: u32, s: StateView) -> Seq<Seq<char>> {
    seq![
        nat_text(pid as nat),
        s.starttime,
        s.boot_id,
        match s.child {
            Some(c) => nat_text(c.0 as nat),
            None => Seq::empty(),
        },
        match s.child {
            Some(c) => c.1,
            None => Seq::empty(),
        },
        mocks_text(s.mocks),
        progress_text(s.progress),
        escaped(s.project),
        escaped(s.command),
        escaped(s.project_root),
        escaped(s.args),
    ]
}

/// The fields from the `i`th on, as text.
pub open spec fn fields_text(keys: Seq<Seq<char>>, values: Seq<Seq<char>>, i: int) -> Seq<char>
    decreases keys.len() - i,
{
    if i >= keys.len() {
        Seq::empty()
    } else {
        field_line(keys[i], values[i]) + fields_text(keys, values, i + 1)
    }
}

/// Behind any rest, the value of each key is its own.
proof fn fields_read_back(keys: Seq<Seq<char>>, values: Seq<Seq<char>>, i: int, j: int, tail: Seq<char>)
    requires
        0 <= i <= j < keys.len(),
        keys.len() == values.len(),
        forall|a: int|
            0 <= a < keys.len() ==> !(#[trigger] keys[a]).contains('=') && !keys[a].contains('\n'),
        forall|a: int, b: int|
            0 <= a < b < keys.len() ==> #[trigger] keys[a] != #[trigger] keys[b],
        forall|a: int| 0 <= a < values.len() ==> plain_token(#[trigger] values[a]),
    ensures
        value_of(lines_of(fields_text(keys, values, i) + tail), keys[j]) == values[j],
    decreases j - i,
{
    let rest = fields_text(keys, values, i + 1) + tail;
    assert(fields_text(keys, values, i) + tail =~= field_line(keys[i], values[i]) + rest);
    lines_of_field(keys[i], values[i], rest);
    value_of_front(keys[i], values[i], lines_of(rest), keys[j]);
    crate::text::trimmed_keeps(values[i]);
    if i < j {
        fields_read_back(keys, values, i + 1, j, tail);
    }
}

/// Moves one field from the rest to the front.
proof fn next_field(
    whole: Seq<char>,
    front: Seq<char>,
    k: Seq<Seq<char>>,
    v: Seq<Seq<char>>,
    i: int,
)
    requires
        0 <= i < k.len(),
        whole == front + fields_text(k, v, i),
    ensures
        whole == (front + field_line(k[i], v[i])) + fields_text(k, v, i + 1),
{
    assert(whole =~= (front + field_line(k[i], v[i])) + fields_text(k, v, i + 1));
}

/// A record is its fields one after the other.
proof fn record_is_fields(pid: u32, s: StateView)
    ensures
        record(pid, s) == fields_text(record_keys(), record_values(pid, s), 0),
{
    let k = record_keys();
    let v = record_values(pid, s);
    let whole = fields_text(k, v, 0);
    let p0 = field_line(k[0], v[0]);
    assert(whole == p0 + fields_text(k, v, 1));
    next_field(whole, p0, k, v, 1);
    let p1 = p0 + field_line(k[1], v[1]);
    next_field(whole, p1, k, v, 2);
    let p2 = p1 + field_line(k[2], v[2]);
    next_field(whole, p2, k, v, 3);
    let p3 = p2 + field_line(k[3], v[3]);
    next_field(whole, p3, k, v, 4);
    let p4 = p3 + field_line(k[4], v[4]);
    next_field(whole, p4, k, v, 5);
    let p5 = p4 + field_line(k[5], v[5]);
    next_field(whole, p5, k, v, 6);
    let p6 = p5 + field_line(k[6], v[6]);
    next_field(whole, p6, k, v, 7);
    let p7 = p6 + field_line(k[7], v[7]);
    next_field(whole, p7, k, v, 8);
    let p8 = p7 + field_line(k[8], v[8]);
    next_field(whole, p8, k, v, 9);
    let p9 = p8 + field_line(k[9], v[9]);
    next_field(whole, p9, k, v, 10);
    let p10 = p9 + field_line(k[10], v[10]);
    assert(fields_text(k, v, 11) == Seq::<char>::empty());
    assert(whole =~= p10);
}

/// The progress is read as it was written.
proof fn progress_reads_back(progress: Option<(u32, u32)>)
    ensures
        plain_token(progress_text(progress)),
        read_progress(progress_text(progress)) == progress,
{
    if let Some(p) = progress {
        let t = progress_text(progress);
        let a = nat_text(p.0 as nat);
        let b = nat_text(p.1 as nat);
        digits_are_plain(p.0 as nat);
        digits_are_plain(p.1 as nat);
        nat_text_reads_back(p.0 as nat);
        nat_text_reads_back(p.1 as nat);
        assert(t[0] == a[0]);
        assert(t.last() == b.last());
        assert forall|k: int| 0 <= k < t.len() implies t[k] != '\n' by {
            if k < a.len() {
                assert(a.contains(a[k]));
            } else if k > a.len() {
                assert(b.contains(b[k - a.len() - 1]));
            }
        }
        crate::text::halves_of(a, '/', b);
        read_nat_of_text(p.0 as nat, u32::MAX as nat);
        read_nat_of_text(p.1 as nat, u32::MAX as nat);
    } else {
        assert(next_char(Seq::<char>::empty(), '/', 0) == 0);
    }
}

proof fn values_are_plain(pid: u32, s: StateView)
    requires
        firm_state(s),
    ensures
        forall|a: int| 0 <= a < 11 ==> plain_token(#[trigger] record_values(pid, s)[a]),
{
    let values = record_values(pid, s);
    digits_are_plain(pid as nat);
    if let Some(c) = s.child {
        digits_are_plain(c.0 as nat);
    }
    mocks_read_back(s.mocks);
    progress_reads_back(s.progress);
    escaped_is_plain(s.project);
    escaped_is_plain(s.command);
    escaped_is_plain(s.project_root);
    escaped_is_plain(s.args);
    if s.mocks.len() == 0 {
        assert(values[5] =~= Seq::<char>::empty());
    }
}

/// The value of every key is found in a record.
proof fn record_values_read_back(pid: u32, s: StateView, stale: Seq<char>)
    requires
        firm_state(s),
    ensures
        forall|j: int|
            0 <= j < 11 ==> value_of(
                lines_of(record(pid, s) + stale),
                #[trigger] record_keys()[j],
            ) == record_values(pid, s)[j],
{
    record_keys_are_distinct();
    values_are_plain(pid, s);
    record_is_fields(pid, s);
    assert forall|j: int| 0 <= j < 11 implies value_of(
        lines_of(record(pid, s) + stale),
        #[trigger] record_keys()[j],
    ) == record_values(pid, s)[j] by {
        fields_read_back(record_keys(), record_values(pid, s), 0, j, stale);
    }
}

/// A holder that names itself is read back from its record as it is, and so it
/// is when the rest of an older, longer record stands behind it: process
/// numbers, tokens, progress and every text, line breaks included.
pub proof fn record_reads_back(pid: u32, s: StateView, stale: Seq<char>)
    requires
        firm_state(s),
        pid != 0 || s.project.len() > 0,
    ensures
        read_record(record(pid, s) + stale) == Some(InfoView { pid, state: s }),
{
    let keys = record_keys();
    let values = record_values(pid, s);
    let ls = lines_of(record(pid, s) + stale);
    record_values_read_back(pid, s, stale);
    assert(value_of(ls, keys[0]) == values[0]);
    assert(value_of(ls, keys[1]) == values[1]);
    assert(value_of(ls, keys[2]) == values[2]);
    assert(value_of(ls, keys[3]) == values[3]);
    assert(value_of(ls, keys[4]) == values[4]);
    assert(value_of(ls, keys[5]) == values[5]);
    assert(value_of(ls, keys[6]) == values[6]);
    assert(value_of(ls, keys[7]) == values[7]);
    assert(value_of(ls, keys[8]) == values[8]);
    assert(value_of(ls, keys[9]) == values[9]);
    assert(value_of(ls, keys[10]) == values[10]);
    if let Some(c) = s.child {
        read_nat_of_text(c.0 as nat, u32::MAX as nat);
    }
    mocks_read_back(s.mocks);
    values_are_plain(pid, s);
    assert(plain_token(values[5]));
    crate::text::trimmed_keeps(values[5]);
    progress_reads_back(s.progress);
    read_nat_of_text(pid as nat, u32::MAX as nat);
    unescape_undoes_escape(s.project);
    unescape_undoes_escape(s.command);
    unescape_undoes_escape(s.project_root);
    unescape_undoes_escape(s.args);
    assert(info_of(ls) == InfoView { pid, state: s });
}

/// What a reader finds while a holder writes a new record over an older one of
/// its own, `k` characters so far.
pub open spec fn torn(pid: u32, old_state: StateView, new_state: StateView, k: int) -> Seq<char> {
    record(pid, new_state).take(k) + (if k <= record(pid, old_state).len() {
        record(pid, old_state).skip(k)
    } else {
        Seq::empty()
    })
}

/// The lines of a record that name its holder.
pub open spec fn identity_text(pid: u32, starttime: Seq<char>, boot_id: Seq<char>) -> Seq<char> {
    field_line("pid"@, nat_text(pid as nat)) + field_line("starttime"@, starttime) + field_line(
        "boot_id"@,
        boot_id,
    )
}

proof fn identity_leads(pid: u32, s: StateView) -> (rest: Seq<char>)
    ensures
        record(pid, s) == identity_text(pid, s.starttime, s.boot_id) + rest,
{
    let k = record_keys();
    let v = record_values(pid, s);
    record_is_fields(pid, s);
    let whole = fields_text(k, v, 0);
    let p0 = field_line(k[0], v[0]);
    assert(whole == p0 + fields_text(k, v, 1));
    next_field(whole, p0, k, v, 1);
    next_field(whole, p0 + field_line(k[1], v[1]), k, v, 2);
    fields_text(k, v, 3)
}

/// A torn record starts with the lines that name the holder.
proof fn torn_starts_with_identity(
    pid: u32,
    old_state: StateView,
    new_state: StateView,
    k: int,
) -> (rest: Seq<char>)
    requires
        old_state.starttime == new_state.starttime,
        old_state.boot_id == new_state.boot_id,
        0 <= k <= record(pid, new_state).len(),
    ensures
        torn(pid, old_state, new_state, k) == identity_text(
            pid,
            new_state.starttime,
            new_state.boot_id,
        ) + rest,
{
    let p = identity_text(pid, new_state.starttime, new_state.boot_id);
    let new_rest = identity_leads(pid, new_state);
    let old_rest = identity_leads(pid, old_state);
    let new_text = record(pid, new_state);
    let old_text = record(pid, old_state);
    let t = torn(pid, old_state, new_state, k);
    if k <= p.len() {
        assert(new_text.take(k) =~= p.take(k));
        assert(old_text.skip(k) =~= p.skip(k) + old_rest);
        assert(t =~= p + old_rest);
        old_rest
    } else {
        let rest = new_rest.take(k - p.len()) + (if k <= old_text.len() {
            old_text.skip(k)
        } else {
            Seq::empty()
        });
        assert(new_text.take(k) =~= p + new_rest.take(k - p.len()));
        assert(t =~= p + rest);
        rest
    }
}

/// The fields that name the holder are the first three of a record.
proof fn identity_is_fields(pid: u32, s: StateView)
    ensures
        identity_text(pid, s.starttime, s.boot_id) == fields_text(
            record_keys().take(3),
            record_values(pid, s).take(3),
            0,
        ),
{
    let keys = record_keys().take(3);
    let values = record_values(pid, s).take(3);
    let whole = fields_text(keys, values, 0);
    let p0 = field_line(keys[0], values[0]);
    assert(whole == p0 + fields_text(keys, values, 1));
    next_field(whole, p0, keys, values, 1);
    next_field(whole, p0 + field_line(keys[1], values[1]), keys, values, 2);
    assert(fields_text(keys, values, 3) == Seq::<char>::empty());
    assert(whole =~= identity_text(pid, s.starttime, s.boot_id));
}

/// A field of the holder's, at the start of a text, is what a reader finds.
proof fn identity_field_reads_back(pid: u32, s: StateView, rest: Seq<char>, at: int)
    requires
        plain_token(s.starttime),
        plain_token(s.boot_id),
        0 <= at < 3,
    ensures
        value_of(
            lines_of(identity_text(pid, s.starttime, s.boot_id) + rest),
            record_keys()[at],
        ) == record_values(pid, s)[at],
{
    let keys = record_keys().take(3);
    let values = record_values(pid, s).take(3);
    record_keys_are_distinct();
    digits_are_plain(pid as nat);
    assert forall|a: int| 0 <= a < 3 implies !(#[trigger] keys[a]).contains('=')
        && !keys[a].contains('\n') by {
        assert(keys[a] == record_keys()[a]);
    }
    assert forall|a: int, b: int| 0 <= a < b < 3 implies #[trigger] keys[a] != #[trigger] keys[b] by {
        assert(keys[a] == record_keys()[a] && keys[b] == record_keys()[b]);
    }
    assert forall|a: int| 0 <= a < 3 implies plain_token(#[trigger] values[a]) by {
        assert(values[a] == record_values(pid, s)[a]);
        assert(a == 0 || a == 1 || a == 2);
    }
    identity_is_fields(pid, s);
    fields_read_back(keys, values, 0, at, rest);
    assert(keys[at] == record_keys()[at]);
    assert(values[at] == record_values(pid, s)[at]);
}

/// Whatever part of a new record has been written over an older one, a reader
/// learns the same holder: its number, its start time and its boot.
pub proof fn torn_record_keeps_identity(
    pid: u32,
    old_state: StateView,
    new_state: StateView,
    k: int,
)
    requires
        plain_token(new_state.starttime),
        plain_token(new_state.boot_id),
        old_state.starttime == new_state.starttime,
        old_state.boot_id == new_state.boot_id,
        pid != 0,
        0 <= k <= record(pid, new_state).len(),
    ensures
        read_record(torn(pid, old_state, new_state, k)) matches Some(i) && i.pid == pid
            && i.state.starttime == new_state.starttime && i.state.boot_id == new_state.boot_id,
{
    let rest = torn_starts_with_identity(pid, old_state, new_state, k);
    identity_field_reads_back(pid, new_state, rest, 0);
    identity_field_reads_back(pid, new_state, rest, 1);
    identity_field_reads_back(pid, new_state, rest, 2);
    read_nat_of_text(pid as nat, u32::MAX as nat);
}

/// How an attempt to read the file ends.
#[derive(Debug)]
pub enum ReadStep {
    /// The reading is over, with what it gave.
    Done(Option<LockInfo>),
    /// The file was changing; read it again.
    Again,
}

/// How often the file is read at most.
pub const READ_ATTEMPTS: u32 = 3;

fn same_bytes(a: &[u8], b: &[u8]) -> (r: bool)
    ensures
        r == (a@ == b@),
{
    let n: usize = a.len();
    if n != b.len() {
        return false;
    }
    let mut i: usize = 0;
    while i < n
        invariant
            i <= n,
            n == a@.len(),
            n == b@.len(),
            forall|k: int| 0 <= k < i ==> a@[k] == b@[k],
        decreases n - i,
    {
        if a[i] != b[i] {
            return false;
        }
        i += 1;
    }
    assert(a@ =~= b@);
    true
}

/// The contents of an optional record.
pub open spec fn opt_info_view(i: Option<LockInfo>) -> Option<InfoView> {
    match i {
        Some(i) => Some(i@),
        None => None,
    }
}

/// What two readings of the file in a row amount to: a record where they agree
/// and hold something, another attempt where they do not, and nothing where the
/// file cannot be read or is no text. Attempts are counted from zero.
pub fn read_lock_contents(attempt: u32, first: Option<&[u8]>, second: Option<&[u8]>) -> (r: ReadStep)
    ensures
        match (first, second) {
            (Some(a), Some(b)) => if a@ == b@ && a@.len() > 0 {
                r matches ReadStep::Done(i) && opt_info_view(i) == match text_in(a@) {
                    Some(t) => read_record(t),
                    None => None,
                }
            } else if attempt + 1 < READ_ATTEMPTS {
                r is Again
            } else {
                r matches ReadStep::Done(None)
            },
            _ => r matches ReadStep::Done(None),
        },
{
    match (first, second) {
        (Some(a), Some(b)) => {
            if same_bytes(a, b) && a.len() > 0 {
                return match from_utf8(a) {
                    Some(t) => ReadStep::Done(parse_lock_contents(t.as_str())),
                    None => ReadStep::Done(None),
                };
            }
            if attempt < READ_ATTEMPTS - 1 {
                ReadStep::Again
            } else {
                ReadStep::Done(None)
            }
        },
        _ => ReadStep::Done(None),
    }
}

/// How a part of the record was written.
#[derive(Debug)]
pub enum WriteAttempt {
    /// So many bytes.
    Wrote(usize),
    /// A signal came before any.
    Interrupted,
    /// It failed, with the system's message.
    Failed(String),
}

/// How many bytes are written after an attempt: an interrupted one is repeated,
/// and one that writes nothing is a failure.
pub fn after_write(written: usize, attempt: WriteAttempt) -> (r: Result<usize, String>)
    requires
        attempt matches WriteAttempt::Wrote(n) ==> written + n <= usize::MAX,
    ensures
        match attempt {
            WriteAttempt::Wrote(n) => if n == 0 {
                r matches Err(m) && m@ == "zero-byte write to lock file"@
            } else {
                r == Ok::<usize, String>((written + n) as usize)
            },
            WriteAttempt::Interrupted => r == Ok::<usize, String>(written),
            WriteAttempt::Failed(m) => r == Err::<usize, String>(m),
        },
{
    match attempt {
        WriteAttempt::Wrote(n) => {
            if n == 0 {
                return Err("zero-byte write to lock file".to_owned());
            }
            Ok(written + n)
        },
        WriteAttempt::Interrupted => Ok(written),
        WriteAttempt::Failed(m) => Err(m),
    }
}

} // verus!
