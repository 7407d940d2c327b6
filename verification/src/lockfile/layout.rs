//! What holds of the text of a lock file.

use crate::lockfile::escape::{escaped, unescaped};
use crate::lockfile::{field_line, mock_text, mocks_text, progress_text, record, StateView};
use crate::numeral::nat_text;
use vstd::prelude::*;

verus! {

/// A record has a line for each of its facts under the fact's own name, with the
/// identity of the holder first.
pub proof fn facts_stand_under_their_names(pid: u32, s: StateView)
    ensures
        record(pid, s) == ("pid="@ + nat_text(pid as nat) + "\n"@) + ("starttime="@ + s.starttime
            + "\n"@) + ("boot_id="@ + s.boot_id + "\n"@) + ("child_pid="@ + (if s.child is Some {
            nat_text((s.child->0).0 as nat)
        } else {
            Seq::empty()
        }) + "\n"@) + ("child_starttime="@ + (if s.child is Some {
            (s.child->0).1
        } else {
            Seq::empty()
        }) + "\n"@) + ("mock_pids="@ + mocks_text(s.mocks) + "\n"@) + ("progress="@ + progress_text(
            s.progress,
        ) + "\n"@) + ("project="@ + escaped(s.project) + "\n"@) + ("command="@ + escaped(s.command)
            + "\n"@) + ("root="@ + escaped(s.project_root) + "\n"@) + ("args="@ + escaped(s.args)
            + "\n"@),
{
    let child_pid = if s.child is Some {
        nat_text((s.child->0).0 as nat)
    } else {
        Seq::empty()
    };
    let child_start = if s.child is Some {
        (s.child->0).1
    } else {
        Seq::empty()
    };
    identity_lines(nat_text(pid as nat), s.starttime, s.boot_id);
    child_lines(child_pid, child_start, mocks_text(s.mocks), progress_text(s.progress));
    command_lines(escaped(s.project), escaped(s.command), escaped(s.project_root), escaped(s.args));
}

proof fn identity_lines(a: Seq<char>, b: Seq<char>, c: Seq<char>)
    ensures
        field_line("pid"@, a) == "pid="@ + a + "\n"@,
        field_line("starttime"@, b) == "starttime="@ + b + "\n"@,
        field_line("boot_id"@, c) == "boot_id="@ + c + "\n"@,
{
    reveal_strlit("\n");
    reveal_strlit("pid");
    reveal_strlit("pid=");
    reveal_strlit("starttime");
    reveal_strlit("starttime=");
    reveal_strlit("boot_id");
    reveal_strlit("boot_id=");
    assert("pid"@ + seq!['='] =~= "pid="@);
    assert("starttime"@ + seq!['='] =~= "starttime="@);
    assert("boot_id"@ + seq!['='] =~= "boot_id="@);
    assert(seq!['\n'] =~= "\n"@);
}

proof fn child_lines(a: Seq<char>, b: Seq<char>, c: Seq<char>, d: Seq<char>)
    ensures
        field_line("child_pid"@, a) == "child_pid="@ + a + "\n"@,
        field_line("child_starttime"@, b) == "child_starttime="@ + b + "\n"@,
        field_line("mock_pids"@, c) == "mock_pids="@ + c + "\n"@,
        field_line("progress"@, d) == "progress="@ + d + "\n"@,
{
    reveal_strlit("\n");
    reveal_strlit("child_pid");
    reveal_strlit("child_pid=");
    reveal_strlit("child_starttime");
    reveal_strlit("child_starttime=");
    reveal_strlit("mock_pids");
    reveal_strlit("mock_pids=");
    reveal_strlit("progress");
    reveal_strlit("progress=");
    assert("child_pid"@ + seq!['='] =~= "child_pid="@);
    assert("child_starttime"@ + seq!['='] =~= "child_starttime="@);
    assert("mock_pids"@ + seq!['='] =~= "mock_pids="@);
    assert("progress"@ + seq!['='] =~= "progress="@);
    assert(seq!['\n'] =~= "\n"@);
}

proof fn command_lines(a: Seq<char>, b: Seq<char>, c: Seq<char>, d: Seq<char>)
    ensures
        field_line("project"@, a) == "project="@ + a + "\n"@,
        field_line("command"@, b) == "command="@ + b + "\n"@,
        field_line("root"@, c) == "root="@ + c + "\n"@,
        field_line("args"@, d) == "args="@ + d + "\n"@,
{
    reveal_strlit("\n");
    reveal_strlit("project");
    reveal_strlit("project=");
    reveal_strlit("command");
    reveal_strlit("command=");
    reveal_strlit("root");
    reveal_strlit("root=");
    reveal_strlit("args");
    reveal_strlit("args=");
    assert("project"@ + seq!['='] =~= "project="@);
    assert("command"@ + seq!['='] =~= "command="@);
    assert("root"@ + seq!['='] =~= "root="@);
    assert("args"@ + seq!['='] =~= "args="@);
    assert(seq!['\n'] =~= "\n"@);
}

/// The helper servers stand in their order, each with its number before its start
/// time; the progress is the run before the total.
pub proof fn helpers_and_progress_are_written(
    mocks: Seq<(u32, Seq<char>)>,
    m: (u32, Seq<char>),
    run: u32,
    total: u32,
)
    ensures
        mocks_text(seq![m]) == nat_text(m.0 as nat) + ":"@ + m.1,
        mocks.len() > 0 ==> mocks_text(mocks.push(m)) == mocks_text(mocks) + ","@ + (nat_text(
            m.0 as nat,
        ) + ":"@ + m.1),
        mocks_text(Seq::empty()) == Seq::<char>::empty(),
        progress_text(Some((run, total))) == nat_text(run as nat) + "/"@ + nat_text(total as nat),
        progress_text(None) == Seq::<char>::empty(),
{
    reveal_strlit(":");
    reveal_strlit(",");
    reveal_strlit("/");
    assert(seq![':'] =~= ":"@);
    assert(seq![','] =~= ","@);
    assert(seq!['/'] =~= "/"@);
    let f = |m: (u32, Seq<char>)| mock_text(m);
    assert(mocks.push(m).map_values(f).drop_last() =~= mocks.map_values(f));
    assert(mocks.push(m).map_values(f).last() == mock_text(m));
    assert(seq![m].map_values(f) =~= seq![mock_text(m)]);
    assert(Seq::<(u32, Seq<char>)>::empty().map_values(f) =~= Seq::empty());
}

/// Only the percent sign and the ends of lines are written otherwise, each as a
/// percent sign and its number in hexadecimal; the rest of a text follows.
pub proof fn ends_of_lines_are_escaped(c: char, rest: Seq<char>)
    ensures
        escaped(seq!['%'] + rest) == "%25"@ + escaped(rest),
        escaped(seq!['\n'] + rest) == "%0A"@ + escaped(rest),
        escaped(seq!['\r'] + rest) == "%0D"@ + escaped(rest),
        c != '%' && c != '\n' && c != '\r' ==> escaped(seq![c] + rest) == seq![c] + escaped(rest),
        escaped(Seq::empty()) == Seq::<char>::empty(),
{
    reveal_strlit("%25");
    reveal_strlit("%0A");
    reveal_strlit("%0D");
    assert((seq!['%'] + rest).skip(1) =~= rest);
    assert((seq!['\n'] + rest).skip(1) =~= rest);
    assert((seq!['\r'] + rest).skip(1) =~= rest);
    assert((seq![c] + rest).skip(1) =~= rest);
    assert(escaped(seq!['%'] + rest) =~= "%25"@ + escaped(rest));
    assert(escaped(seq!['\n'] + rest) =~= "%0A"@ + escaped(rest));
    assert(escaped(seq!['\r'] + rest) =~= "%0D"@ + escaped(rest));
}

/// A percent sign that starts no escape stands for itself.
pub proof fn other_text_is_read_as_it_is(c: char, rest: Seq<char>)
    ensures
        c != '%' ==> unescaped(seq![c] + rest) == seq![c] + unescaped(rest),
        rest.len() < 2 ==> unescaped(seq!['%'] + rest) == seq!['%'] + unescaped(rest),
        unescaped("%25"@ + rest) == seq!['%'] + unescaped(rest),
        unescaped("%0A"@ + rest) == seq!['\n'] + unescaped(rest),
        unescaped("%0D"@ + rest) == seq!['\r'] + unescaped(rest),
{
    reveal_strlit("%25");
    reveal_strlit("%0A");
    reveal_strlit("%0D");
    assert((seq![c] + rest).skip(1) =~= rest);
    assert((seq!['%'] + rest).skip(1) =~= rest);
    assert(("%25"@ + rest).skip(3) =~= rest);
    assert(("%0A"@ + rest).skip(3) =~= rest);
    assert(("%0D"@ + rest).skip(3) =~= rest);
}

} // verus!
