//! Looking at the holder of the lock, and ending it.

use crate::error::{DevError, ErrorView};
use crate::lockfile::{InfoView, LockInfo, StateView};
use crate::numeral::{int_text, nat_text, u64_text};
use crate::text::{opt_str, opt_view, trim, trimmed, views};
use vstd::prelude::*;

verus! {

/// What is said where nobody holds the lock.
pub const NO_LOCK: &'static str = "no active lock";

/// What was asked of the holder.
pub open spec fn asked(s: StateView) -> Seq<char> {
    s.project + " "@ + (if s.args.len() == 0 {
        s.command
    } else {
        s.args
    })
}

/// The line on the holder itself.
pub open spec fn holder_line(info: InfoView, uptime: Option<Seq<char>>) -> Seq<char> {
    "brokkr PID "@ + nat_text(info.pid as nat) + (match uptime {
        Some(u) => " running "@ + u,
        None => Seq::empty(),
    }) + ": "@ + asked(info.state)
}

/// The line on the program that runs under the lock.
pub open spec fn child_line(s: StateView, summary: Option<Seq<char>>) -> Seq<Seq<char>> {
    match (s.child, summary) {
        (Some((pid, _)), Some(t)) => seq![
            (match s.progress {
                Some((r, n)) => "run "@ + nat_text(r as nat) + "/"@ + nat_text(n as nat) + ", "@,
                None => Seq::empty(),
            }) + "child PID "@ + nat_text(pid as nat) + " "@ + t,
        ],
        _ => Seq::empty(),
    }
}

/// The lines on the helper servers that run under the lock.
pub open spec fn mock_lines(
    mocks: Seq<(u32, Seq<char>)>,
    summaries: Seq<Option<String>>,
    n: int,
) -> Seq<Seq<char>>
    decreases n,
{
    if n <= 0 {
        Seq::empty()
    } else {
        mock_lines(mocks, summaries, n - 1) + (match opt_view(summaries[n - 1]) {
            Some(t) => seq!["mock PID "@ + nat_text(mocks[n - 1].0 as nat) + " "@ + t],
            None => Seq::empty(),
        })
    }
}

/// The line on the last marker of the profile.
pub open spec fn marker_line(pid: u32, marker: Option<Seq<char>>) -> Seq<Seq<char>> {
    match marker {
        Some(m) => if pid > 0 && trimmed(m).len() > 0 {
            seq!["last marker: "@ + trimmed(m)]
        } else {
            Seq::empty()
        },
        None => Seq::empty(),
    }
}

fn write_holder(info: &LockInfo, uptime: Option<&str>) -> (r: String)
    ensures
        r@ == holder_line(info@, opt_str(uptime)),
{
    let mut out = "brokkr PID ".to_owned();
    out.append(u64_text(info.pid as u64).as_str());
    let ghost head = out@;
    match uptime {
        Some(u) => {
            out.append(" running ");
            out.append(u);
            assert(out@ =~= head + (" running "@ + u@));
        },
        None => {
            assert(out@ =~= head + Seq::<char>::empty());
        },
    }
    out.append(": ");
    let mut what = info.project.clone();
    what.append(" ");
    if info.args.as_str().unicode_len() == 0 {
        what.append(info.command.as_str());
    } else {
        what.append(info.args.as_str());
    }
    out.append(what.as_str());
    out
}

fn write_child(info: &LockInfo, pid: u32, summary: &str) -> (r: String)
    ensures
        r@ == (match info@.state.progress {
            Some((r, n)) => "run "@ + nat_text(r as nat) + "/"@ + nat_text(n as nat) + ", "@,
            None => Seq::empty(),
        }) + "child PID "@ + nat_text(pid as nat) + " "@ + summary@,
{
    let mut out = String::new();
    match info.progress {
        Some((r, n)) => {
            out.append("run ");
            out.append(u64_text(r as u64).as_str());
            out.append("/");
            out.append(u64_text(n as u64).as_str());
            out.append(", ");
            assert(out@ =~= "run "@ + nat_text(r as nat) + "/"@ + nat_text(n as nat) + ", "@);
        },
        None => {
            assert(out@ =~= Seq::<char>::empty());
        },
    }
    out.append("child PID ");
    out.append(u64_text(pid as u64).as_str());
    out.append(" ");
    out.append(summary);
    out
}

/// Tells of the holder of the lock: what it was asked, where, what runs under it,
/// and the last marker.
pub fn lock_lines(
    info: &LockInfo,
    uptime: Option<&str>,
    child_summary: Option<&str>,
    mock_summaries: &[Option<String>],
    marker: Option<&str>,
) -> (r: Vec<String>)
    requires
        mock_summaries@.len() == info.mocks@.len(),
    ensures
        views(r@) == seq![
            holder_line(
                info@,
                if info.pid > 0 {
                    opt_str(uptime)
                } else {
                    None
                },
            ),
            "root: "@ + info.project_root@,
        ] + child_line(info@.state, opt_str(child_summary)) + mock_lines(
            info@.state.mocks,
            mock_summaries@,
            mock_summaries@.len() as int,
        ) + marker_line(info.pid, opt_str(marker)),
{
    let mut out: Vec<String> = Vec::new();
    let known: Option<&str> = if info.pid > 0 {
        uptime
    } else {
        None
    };
    let first = write_holder(info, known);
    let mut root = "root: ".to_owned();
    root.append(info.project_root.as_str());
    let ghost head = seq![first@, root@];
    out.push(first);
    out.push(root);
    assert(views(out@) =~= head);
    if let Some(c) = &info.child {
        if let Some(t) = child_summary {
            let line = write_child(info, c.0, t);
            out.push(line);
        }
    }
    let ghost begin = head + child_line(info@.state, opt_str(child_summary));
    assert(views(out@) =~= begin);
    let ghost mocks = info@.state.mocks;
    let mut i: usize = 0;
    assert(begin =~= begin + mock_lines(mocks, mock_summaries@, 0));
    while i < info.mocks.len()
        invariant
            i <= info.mocks@.len(),
            mock_summaries@.len() == info.mocks@.len(),
            mocks == info@.state.mocks,
            views(out@) == begin + mock_lines(mocks, mock_summaries@, i as int),
        decreases info.mocks@.len() - i,
    {
        let ghost before = views(out@);
        assert(mocks[i as int].0 == info.mocks@[i as int].0);
        match &mock_summaries[i] {
            Some(t) => {
                let mut line = "mock PID ".to_owned();
                line.append(u64_text(info.mocks[i].0 as u64).as_str());
                line.append(" ");
                line.append(t.as_str());
                let ghost text = line@;
                out.push(line);
                assert(views(out@) =~= before.push(text));
                assert(mock_lines(mocks, mock_summaries@, i + 1) == mock_lines(
                    mocks,
                    mock_summaries@,
                    i as int,
                ) + seq![text]);
                assert(before.push(text) =~= begin + (mock_lines(mocks, mock_summaries@, i as int)
                    + seq![text]));
            },
            None => {
                assert(views(out@) =~= begin + mock_lines(mocks, mock_summaries@, i + 1));
            },
        }
        i += 1;
    }
    let ghost middle = views(out@);
    if info.pid > 0 {
        if let Some(m) = marker {
            let t = trim(m);
            if t.as_str().unicode_len() > 0 {
                let mut line = "last marker: ".to_owned();
                line.append(t.as_str());
                out.push(line);
            }
        }
    }
    assert(views(out@) =~= middle + marker_line(info.pid, opt_str(marker)));
    out
}

/// Whom to signal, and how.
#[derive(Debug, PartialEq, Eq)]
pub enum KillPlan {
    /// Nobody; this is said.
    Nobody(&'static str),
    /// The holder is asked to end.
    Ask(u32),
    /// The program under the lock, the helper servers and then the holder are
    /// ended, in this order.
    End { child: Option<u32>, mocks: Vec<u32>, holder: u32 },
}

/// The process numbers of the helper servers.
pub open spec fn mock_pids(info: InfoView) -> Seq<u32> {
    info.state.mocks.map_values(|m: (u32, Seq<char>)| m.0)
}

/// Decides whom to signal.
pub fn kill_plan(info: Option<&LockInfo>, hard: bool) -> (r: KillPlan)
    ensures
        match info {
            None => r matches KillPlan::Nobody(m) && m@ == "no active lock"@,
            Some(i) => if i.pid == 0 {
                r matches KillPlan::Nobody(m) && m@
                    == "lock held by unknown process; nothing to kill"@
            } else if !hard {
                r == KillPlan::Ask(i.pid)
            } else {
                r matches KillPlan::End { child, mocks, holder } && holder == i.pid && child == (
                match i@.state.child {
                    Some((pid, _)) => Some(pid),
                    None => None::<u32>,
                }) && mocks@ == mock_pids(i@)
            },
        },
{
    match info {
        None => KillPlan::Nobody(NO_LOCK),
        Some(i) => {
            if i.pid == 0 {
                return KillPlan::Nobody("lock held by unknown process; nothing to kill");
            }
            if !hard {
                return KillPlan::Ask(i.pid);
            }
            let child: Option<u32> = match &i.child {
                Some(c) => Some(c.0),
                None => None,
            };
            let mut mocks: Vec<u32> = Vec::new();
            let mut k: usize = 0;
            while k < i.mocks.len()
                invariant
                    k <= i.mocks@.len(),
                    mocks@.len() == k,
                    forall|j: int| 0 <= j < k ==> #[trigger] mocks@[j] == i.mocks@[j].0,
                decreases i.mocks@.len() - k,
            {
                mocks.push(i.mocks[k].0);
                k += 1;
            }
            assert(mocks@ =~= mock_pids(i@));
            KillPlan::End { child, mocks, holder: i.pid }
        },
    }
}

/// Whether a process leads a group of its own, by the group that it is in: then
/// the whole group is signalled, else the process alone.
pub fn leads_group(pid: u32, pgid: i32) -> (r: bool)
    ensures
        r == (pgid > 0 && pgid == pid),
{
    pgid > 0 && pgid as u32 == pid
}

/// Whether a signal found its process: it was sent, or failed for another reason
/// than that there is none.
pub fn found(sent: bool, no_such_process: bool) -> (r: bool)
    ensures
        r == (sent || !no_such_process),
{
    sent || !no_such_process
}

/// What is said of a signal that ends a program under the lock or a helper
/// server.
pub fn ended_line(what: &str, group: bool, pid: u32, sent: bool) -> (r: String)
    ensures
        r@ == "SIGKILL "@ + what@ + " "@ + (if group {
            "PG"@
        } else {
            "PID"@
        }) + " "@ + nat_text(pid as nat) + ": "@ + (if sent {
            "sent"@
        } else {
            "not running"@
        }),
{
    let mut out = "SIGKILL ".to_owned();
    out.append(what);
    out.append(" ");
    if group {
        out.append("PG");
    } else {
        out.append("PID");
    }
    out.append(" ");
    out.append(u64_text(pid as u64).as_str());
    out.append(": ");
    if sent {
        out.append("sent");
    } else {
        out.append("not running");
    }
    out
}

/// What is said of the signal that asks the holder to end.
pub fn asked_line(pid: u32, sent: bool) -> (r: String)
    ensures
        sent ==> r@ == "SIGTERM sent to brokkr PID "@ + nat_text(pid as nat)
            + " - cleanup in progress"@,
        !sent ==> r@ == "brokkr PID "@ + nat_text(pid as nat) + " is not running; nothing to kill"@,
{
    if sent {
        let mut out = "SIGTERM sent to brokkr PID ".to_owned();
        out.append(u64_text(pid as u64).as_str());
        out.append(" - cleanup in progress");
        out
    } else {
        let mut out = "brokkr PID ".to_owned();
        out.append(u64_text(pid as u64).as_str());
        out.append(" is not running; nothing to kill");
        out
    }
}

/// What is said after the holder was ended.
pub const FOLLOW_UP: &'static str = "follow up with `brokkr clean` to wipe scratch";

/// The outcome of a subcommand of cargo. One that a signal ended has no code.
pub fn cargo_outcome(subcommand: &str, code: Option<i32>, signal: Option<i32>) -> (r: Result<
    (),
    DevError,
>)
    ensures
        code == Some(0i32) <==> r is Ok,
        r matches Err(e) ==> e@ == ErrorView::Subprocess(
            "cargo "@ + subcommand@,
            code,
            match code {
                Some(_) => Seq::empty(),
                None => "killed by signal "@ + int_text(
                    match signal {
                        Some(s) => s as int,
                        None => 0,
                    },
                ),
            },
        ),
{
    let mut program = "cargo ".to_owned();
    program.append(subcommand);
    match code {
        Some(c) => {
            if c == 0 {
                return Ok(());
            }
            let stderr = String::new();
            assert(stderr@ =~= Seq::<char>::empty());
            Err(DevError::Subprocess { program, code, stderr })
        },
        None => {
            let s: i32 = match signal {
                Some(s) => s,
                None => 0,
            };
            let mut stderr = "killed by signal ".to_owned();
            stderr.append(crate::numeral::i64_text(s as i64).as_str());
            Err(DevError::Subprocess { program, code, stderr })
        },
    }
}

} // verus!
