//! Taking, holding and reporting the lock.

use crate::error::{DevError, ErrorView};
use crate::lockfile::escape::{last_quoted_is_found, quoted, shell_quote};
use crate::lockfile::process::{duration_text, format_duration};
use crate::lockfile::{mocks_view, record, render_record, InfoView, LockInfo, LockState, StateView};
use crate::text::{join, join_path, joined, joined_path, opt_str, views};
use vstd::prelude::*;

verus! {

/// What a command says about itself when it takes the lock.
pub struct LockContext<'a> {
    pub project: &'a str,
    pub command: &'a str,
    pub project_root: &'a str,
}

/// The text of an optional string, empty where there is none.
pub open spec fn or_empty(s: Option<String>) -> Seq<char> {
    match s {
        Some(t) => t@,
        None => Seq::empty(),
    }
}

fn unwrap_or_empty(s: Option<String>) -> (r: String)
    ensures
        r@ == or_empty(s),
{
    match s {
        Some(t) => t,
        None => String::new(),
    }
}

/// The arguments of a command line, each quoted where it needs to be.
pub open spec fn quoted_args(args: Seq<Seq<char>>) -> Seq<char> {
    joined(args.map_values(|a: Seq<char>| quoted(a)), seq![' '])
}

/// Writes the arguments of the invocation as one unambiguous line.
pub fn current_invocation_args(args: &[String]) -> (r: String)
    ensures
        r@ == quoted_args(views(args@)),
{
    let mut parts: Vec<String> = Vec::new();
    let mut i: usize = 0;
    while i < args.len()
        invariant
            i <= args@.len(),
            parts@.len() == i,
            forall|k: int| 0 <= k < i ==> #[trigger] parts@[k]@ == quoted(args@[k]@),
        decreases args@.len() - i,
    {
        parts.push(shell_quote(args[i].as_str()));
        i += 1;
    }
    proof {
        reveal_strlit(" ");
        assert(" "@ =~= seq![' ']);
        assert(views(parts@) =~= views(args@).map_values(|a: Seq<char>| quoted(a)));
    }
    join(&parts, " ")
}

/// The arguments of a command line can be told apart: no two lists are written
/// alike.
pub proof fn arguments_are_unambiguous(a: Seq<Seq<char>>, b: Seq<Seq<char>>)
    requires
        quoted_args(a) == quoted_args(b),
    ensures
        a == b,
    decreases a.len(),
{
    let p = before_last(a);
    let q = before_last(b);
    if a.len() > 0 {
        last_argument(a);
    }
    if b.len() > 0 {
        last_argument(b);
    }
    if a.len() > 0 && b.len() > 0 {
        last_quoted_is_found(p, a.last(), q, b.last());
        let (c, d) = (a.drop_last(), b.drop_last());
        if c.len() > 0 && d.len() > 0 {
            assert(quoted_args(c) =~= p.drop_last());
            assert(quoted_args(d) =~= p.drop_last());
        }
        arguments_are_unambiguous(c, d);
        assert(a =~= c.push(a.last()));
        assert(b =~= d.push(b.last()));
    } else {
        assert(a =~= b);
    }
}

/// What stands on a command line before the last argument.
spec fn before_last(a: Seq<Seq<char>>) -> Seq<char> {
    if a.len() <= 1 {
        Seq::empty()
    } else {
        quoted_args(a.drop_last()) + seq![' ']
    }
}

proof fn last_argument(a: Seq<Seq<char>>)
    requires
        a.len() > 0,
    ensures
        quoted_args(a) == before_last(a) + quoted(a.last()),
        quoted_args(a).len() > 0,
{
    let all = a.map_values(|x: Seq<char>| quoted(x));
    assert(all.drop_last() =~= a.drop_last().map_values(|x: Seq<char>| quoted(x)));
    assert(all.last() == quoted(a.last()));
    if a.len() == 1 {
        assert(before_last(a) + quoted(a.last()) =~= quoted(a.last()));
    }
    assert(quoted(a.last()).len() > 0);
}

/// The state of a lock that was just taken: the context, the invocation, and
/// the tokens by which readers verify the holder.
pub fn build_state(
    ctx: &LockContext<'_>,
    args: &[String],
    starttime: Option<String>,
    boot_id: Option<String>,
) -> (r: LockState)
    ensures
        r@ == (StateView {
            project: ctx.project@,
            command: ctx.command@,
            args: quoted_args(views(args@)),
            project_root: ctx.project_root@,
            starttime: or_empty(starttime),
            boot_id: or_empty(boot_id),
            child: None,
            mocks: Seq::empty(),
            progress: None,
        }),
{
    let r = LockState {
        project: ctx.project.to_owned(),
        command: ctx.command.to_owned(),
        args: current_invocation_args(args),
        project_root: ctx.project_root.to_owned(),
        starttime: unwrap_or_empty(starttime),
        boot_id: unwrap_or_empty(boot_id),
        child: None,
        mocks: Vec::new(),
        progress: None,
    };
    assert(r@.mocks =~= Seq::empty());
    r
}

/// A hold on the lock: the holder's process number and what it tells. Every
/// change returns the record that is to be published.
pub struct LockGuard {
    pub pid: u32,
    pub state: LockState,
}

/// Whether one of the recorded processes has the number.
pub open spec fn has_pid(mocks: Seq<(u32, Seq<char>)>, pid: u32) -> bool {
    exists|i: int| 0 <= i < mocks.len() && (#[trigger] mocks[i]).0 == pid
}

/// The recorded processes other than the one with the number.
pub open spec fn without_pid(mocks: Seq<(u32, Seq<char>)>, pid: u32) -> Seq<(u32, Seq<char>)> {
    mocks.filter(|m: (u32, Seq<char>)| m.0 != pid)
}

impl LockGuard {
    /// The same hold, for another who tells of it.
    pub fn copy(&self) -> (r: LockGuard)
        ensures
            r.pid == self.pid,
            r.state@ == self.state@,
    {
        LockGuard { pid: self.pid, state: self.state.copy() }
    }

    /// The record of this hold.
    pub fn contents(&self) -> (r: String)
        ensures
            r@ == record(self.pid, self.state@),
    {
        render_record(self.pid, &self.state)
    }

    /// Records the child that now runs under the lock, with its start time.
    pub fn set_child_pid(&mut self, pid: u32, starttime: Option<String>) -> (r: String)
        ensures
            final(self).pid == old(self).pid,
            final(self).state@ == (StateView {
                child: Some((pid, or_empty(starttime))),
                ..old(self).state@
            }),
            r@ == record(final(self).pid, final(self).state@),
    {
        self.state.child = Some((pid, unwrap_or_empty(starttime)));
        self.contents()
    }

    /// Records a helper server, unless one with its number is there.
    pub fn add_mock_pid(&mut self, pid: u32, starttime: Option<String>) -> (r: String)
        ensures
            final(self).pid == old(self).pid,
            final(self).state@ == (StateView {
                mocks: if has_pid(old(self).state@.mocks, pid) {
                    old(self).state@.mocks
                } else {
                    old(self).state@.mocks.push((pid, or_empty(starttime)))
                },
                ..old(self).state@
            }),
            r@ == record(final(self).pid, final(self).state@),
    {
        let mut known = false;
        let mut i: usize = 0;
        let ghost mocks = self.state@.mocks;
        while i < self.state.mocks.len() && !known
            invariant
                i <= self.state.mocks@.len(),
                *self == *old(self),
                mocks == mocks_view(self.state.mocks@),
                known ==> has_pid(mocks, pid),
                !known ==> forall|k: int| 0 <= k < i ==> (#[trigger] mocks[k]).0 != pid,
            decreases self.state.mocks@.len() - i,
        {
            assert(mocks[i as int].0 == self.state.mocks@[i as int].0);
            if self.state.mocks[i].0 == pid {
                known = true;
            }
            i += 1;
        }
        if !known {
            self.state.mocks.push((pid, unwrap_or_empty(starttime)));
            assert(mocks_view(self.state.mocks@) =~= mocks.push((pid, or_empty(starttime))));
        }
        self.contents()
    }

    /// Drops a helper server.
    pub fn remove_mock_pid(&mut self, pid: u32) -> (r: String)
        ensures
            final(self).pid == old(self).pid,
            final(self).state@ == (StateView {
                mocks: without_pid(old(self).state@.mocks, pid),
                ..old(self).state@
            }),
            r@ == record(final(self).pid, final(self).state@),
    {
        let mut kept: Vec<(u32, String)> = Vec::new();
        let mut i: usize = 0;
        let ghost mocks = self.state@.mocks;
        assert(without_pid(mocks.take(0), pid) =~= Seq::empty()) by {
            reveal(Seq::filter);
        }
        assert(mocks_view(kept@) =~= Seq::empty());
        while i < self.state.mocks.len()
            invariant
                i <= self.state.mocks@.len(),
                *self == *old(self),
                mocks == mocks_view(self.state.mocks@),
                mocks_view(kept@) == without_pid(mocks.take(i as int), pid),
            decreases self.state.mocks@.len() - i,
        {
            let ghost before = kept@;
            assert(mocks.take(i + 1).drop_last() =~= mocks.take(i as int));
            proof {
                reveal(Seq::filter);
            }
            let m = &self.state.mocks[i];
            if m.0 != pid {
                let copy = (m.0, m.1.clone());
                kept.push(copy);
                assert(mocks_view(kept@) =~= mocks_view(before).push(mocks[i as int]));
            }
            i += 1;
        }
        assert(mocks.take(i as int) =~= mocks);
        self.state.mocks = kept;
        self.contents()
    }

    /// Drops all helper servers.
    pub fn clear_mock_pids(&mut self) -> (r: String)
        ensures
            final(self).pid == old(self).pid,
            final(self).state@ == (StateView { mocks: Seq::empty(), ..old(self).state@ }),
            r@ == record(final(self).pid, final(self).state@),
    {
        self.state.mocks = Vec::new();
        assert(mocks_view(self.state.mocks@) =~= Seq::empty());
        self.contents()
    }

    /// Drops the child, so that a number that the kernel gives out again is not
    /// taken for it.
    pub fn clear_child_pid(&mut self) -> (r: String)
        ensures
            final(self).pid == old(self).pid,
            final(self).state@ == (StateView { child: None, ..old(self).state@ }),
            r@ == record(final(self).pid, final(self).state@),
    {
        self.state.child = None;
        self.contents()
    }

    /// Records that run `run` of `total` is under way. A single run is no
    /// progress: nothing changes and nothing is published.
    pub fn set_progress(&mut self, run: u32, total: u32) -> (r: Option<String>)
        ensures
            total <= 1 ==> *final(self) == *old(self) && r is None,
            total > 1 ==> final(self).pid == old(self).pid && final(self).state@ == (StateView {
                progress: Some((run, total)),
                ..old(self).state@
            }),
            total > 1 ==> (r matches Some(t) && t@ == record(final(self).pid, final(self).state@)),
    {
        if total <= 1 {
            return None;
        }
        self.state.progress = Some((run, total));
        Some(self.contents())
    }
}

/// The path of the lock file below the home directory, where there is one.
pub fn lock_path(home: Option<&str>) -> (r: Result<String, DevError>)
    ensures
        match opt_str(home) {
            Some(h) => r matches Ok(p) && p@ == joined_path(
                joined_path(h, ".brokkr"@),
                "brokkr.lock"@,
            ),
            None => r matches Err(e) && e@ == ErrorView::Lock(
                "$HOME is not set - cannot locate the brokkr lock"@,
            ),
        },
{
    match home {
        Some(h) => {
            let dir = join_path(h, ".brokkr");
            Ok(join_path(dir.as_str(), "brokkr.lock"))
        },
        None => Err(
            DevError::Lock("$HOME is not set - cannot locate the brokkr lock".to_owned()),
        ),
    }
}

/// How an attempt to lock the file ended.
pub enum LockAttempt {
    /// The file is locked by this process.
    Locked,
    /// Another process holds it.
    WouldBlock,
    /// A signal came before the lock.
    Interrupted,
    /// The attempt failed, with the system's message.
    Failed(String),
}

/// Where an acquisition stands.
#[derive(Clone, Copy, PartialEq, Eq, Structural)]
pub enum Phase {
    /// The lock was tried without waiting.
    Trying,
    /// Another process held it, and this one waits.
    Waiting,
}

/// What to do after an attempt.
pub enum LockStep {
    /// The lock is held: publish the record.
    Publish,
    /// Tell who holds the lock, then wait for it.
    Wait,
    /// Wait again.
    Retry,
    /// Give up.
    Fail(DevError),
}

/// Decides what follows an attempt to lock the file: the first one does not
/// wait, and a wait that a signal interrupts is taken up again.
pub fn next_step(phase: Phase, attempt: LockAttempt) -> (r: LockStep)
    ensures
        attempt is Locked <==> r is Publish,
        phase is Trying && attempt is WouldBlock <==> r is Wait,
        phase is Waiting && attempt is Interrupted <==> r is Retry,
        phase is Trying && attempt is Interrupted ==> (r matches LockStep::Fail(e) && e@
            == ErrorView::Lock("flock failed: "@ + "Interrupted system call (os error 4)"@)),
        phase is Waiting && attempt is WouldBlock ==> (r matches LockStep::Fail(e) && e@
            == ErrorView::Lock(
            "blocking flock failed: "@ + "Resource temporarily unavailable (os error 11)"@,
        )),
        attempt matches LockAttempt::Failed(m) ==> (r matches LockStep::Fail(e) && e@
            == ErrorView::Lock(
            if phase is Trying {
                "flock failed: "@ + m@
            } else {
                "blocking flock failed: "@ + m@
            },
        )),
{
    let why = match attempt {
        LockAttempt::Locked => {
            return LockStep::Publish;
        },
        LockAttempt::WouldBlock => {
            if matches!(phase, Phase::Trying) {
                return LockStep::Wait;
            }
            "Resource temporarily unavailable (os error 11)".to_owned()
        },
        LockAttempt::Interrupted => {
            if matches!(phase, Phase::Waiting) {
                return LockStep::Retry;
            }
            "Interrupted system call (os error 4)".to_owned()
        },
        LockAttempt::Failed(m) => m,
    };
    let mut message = match phase {
        Phase::Trying => "flock failed: ".to_owned(),
        Phase::Waiting => "blocking flock failed: ".to_owned(),
    };
    message.append(why.as_str());
    LockStep::Fail(DevError::Lock(message))
}

/// The invocation of a holder: its arguments, or its command where it recorded none.
pub open spec fn invocation(s: StateView) -> Seq<char> {
    if s.args.len() == 0 {
        s.command
    } else {
        s.args
    }
}

/// What a waiting command tells: the rule, the holder, and its figures where
/// its identity was verified.
pub open spec fn waiting_text(
    info: Option<InfoView>,
    summary: Option<Seq<char>>,
) -> Seq<Seq<char>> {
    let rule =
        "waiting for the previous brokkr command to finish - brokkr runs one command at a time so measurements never overlap"@;
    match info {
        None => seq![rule, "holder: unknown (lock metadata unreadable)"@],
        Some(i) => {
            let holder = "holder: "@ + i.state.project + " "@ + invocation(i.state) + " in "@
                + i.state.project_root;
            match summary {
                Some(s) => seq![
                    rule,
                    holder,
                    "holder is "@ + s,
                    "these numbers won't update here - run 'brokkr lock' in another shell for a live view"@,
                ],
                None => seq![
                    rule,
                    holder,
                    "process details unavailable - holder identity could not be verified from this namespace"@,
                ],
            }
        },
    }
}

/// The contents of optional lock information.
pub open spec fn opt_info(info: Option<&LockInfo>) -> Option<InfoView> {
    match info {
        Some(i) => Some(i@),
        None => None,
    }
}

/// Writes the lines that a waiting command prints.
pub fn waiting_lines(info: Option<&LockInfo>, summary: Option<&str>) -> (r: Vec<String>)
    ensures
        views(r@) == waiting_text(opt_info(info), opt_str(summary)),
{
    let mut out: Vec<String> = Vec::new();
    out.push(
        "waiting for the previous brokkr command to finish - brokkr runs one command at a time so measurements never overlap".to_owned(),
    );
    match info {
        None => {
            out.push("holder: unknown (lock metadata unreadable)".to_owned());
        },
        Some(i) => {
            let mut holder = "holder: ".to_owned();
            holder.append(i.project.as_str());
            holder.append(" ");
            if i.args.as_str().unicode_len() == 0 {
                holder.append(i.command.as_str());
            } else {
                holder.append(i.args.as_str());
            }
            holder.append(" in ");
            holder.append(i.project_root.as_str());
            out.push(holder);
            match summary {
                Some(s) => {
                    let mut line = "holder is ".to_owned();
                    line.append(s);
                    out.push(line);
                    out.push(
                        "these numbers won't update here - run 'brokkr lock' in another shell for a live view".to_owned(),
                    );
                },
                None => {
                    out.push(
                        "process details unavailable - holder identity could not be verified from this namespace".to_owned(),
                    );
                },
            }
        },
    }
    assert(views(out@) =~= waiting_text(opt_info(info), opt_str(summary)));
    out
}

/// Writes the line that ends a wait of so many seconds.
pub fn acquired_line(waited: u64) -> (r: String)
    ensures
        r@ == "lock acquired after "@ + duration_text(waited as nat)
            + " - the previous brokkr command has finished. The wait happened before this command's work and measurements began, so it has no effect on their timings or results"@,
{
    let mut out = "lock acquired after ".to_owned();
    let time = format_duration(waited);
    out.append(time.as_str());
    out.append(
        " - the previous brokkr command has finished. The wait happened before this command's work and measurements began, so it has no effect on their timings or results",
    );
    out
}

/// What is known of the holder of a lock that is held: the parsed record, or an
/// unknown holder where there is none.
pub fn status_info(info: Option<LockInfo>) -> (r: LockInfo)
    ensures
        info matches Some(i) ==> r == i,
        info is None ==> r@ == (InfoView {
            pid: 0,
            state: StateView {
                project: "unknown"@,
                command: "unknown"@,
                args: Seq::empty(),
                project_root: "unknown"@,
                starttime: Seq::empty(),
                boot_id: Seq::empty(),
                child: None,
                mocks: Seq::empty(),
                progress: None,
            },
        }),
{
    match info {
        Some(i) => i,
        None => {
            let r = LockInfo {
                pid: 0,
                starttime: String::new(),
                boot_id: String::new(),
                project: "unknown".to_owned(),
                command: "unknown".to_owned(),
                args: String::new(),
                project_root: "unknown".to_owned(),
                child: None,
                mocks: Vec::new(),
                progress: None,
            };
            assert(r@.state.mocks =~= Seq::empty());
            r
        },
    }
}

/// What a guard's record says: what a reader of the file learns is the guard's
/// own process and state.
pub proof fn published_state_is_read(pid: u32, s: StateView)
    requires
        crate::lockfile::firm_state(s),
        pid != 0,
    ensures
        crate::lockfile::read_record(record(pid, s)) == Some(InfoView { pid, state: s }),
{
    crate::lockfile::record_reads_back(pid, s, Seq::empty());
    assert(record(pid, s) + Seq::<char>::empty() =~= record(pid, s));
}

/// Removing a helper server that was just added, and was not there before,
/// gives back the list as it was.
pub proof fn remove_undoes_add(mocks: Seq<(u32, Seq<char>)>, pid: u32, starttime: Seq<char>)
    requires
        !has_pid(mocks, pid),
    ensures
        without_pid(mocks.push((pid, starttime)), pid) == mocks,
{
    let all = mocks.push((pid, starttime));
    reveal(Seq::filter);
    assert(all.drop_last() =~= mocks);
    filter_keeps_all(mocks, pid);
}

proof fn filter_keeps_all(mocks: Seq<(u32, Seq<char>)>, pid: u32)
    requires
        !has_pid(mocks, pid),
    ensures
        without_pid(mocks, pid) == mocks,
    decreases mocks.len(),
{
    reveal(Seq::filter);
    if mocks.len() > 0 {
        let front = mocks.drop_last();
        assert(!has_pid(front, pid)) by {
            assert forall|i: int| 0 <= i < front.len() implies (#[trigger] front[i]).0 != pid by {
                assert(front[i] == mocks[i]);
            }
        }
        filter_keeps_all(front, pid);
        assert(mocks[mocks.len() - 1].0 != pid);
        assert(mocks =~= front.push(mocks.last()));
    }
}

} // verus!
