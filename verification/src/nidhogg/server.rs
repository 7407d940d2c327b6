//! The life of a server: starting, waiting for it, stopping it.

use crate::error::{DevError, ErrorView};
use crate::harness::kv::{from_utf8_lossy, lossy};
use crate::numeral::{nat_text, parse_i32, read_int, u64_text};
use crate::text::{contains, has_part, opt_str, trim, trimmed, views};
use vstd::prelude::*;

verus! {

/// The port of the server where nothing else is said.
pub const DEFAULT_PORT: u16 = 3033;

/// How often the server is asked whether it is ready.
pub const READY_ATTEMPTS: u32 = 30;

/// How often a server that was told to stop is looked at.
pub const STOP_ATTEMPTS: u32 = 25;

/// The arguments of the server.
pub fn serve_args(data_dir: &str, tiles: Option<&str>) -> (r: Vec<String>)
    ensures
        views(r@) == match opt_str(tiles) {
            Some(t) => seq!["serve"@, data_dir@, "--tiles"@, t],
            None => seq!["serve"@, data_dir@],
        },
{
    let mut r = vec!["serve".to_owned(), data_dir.to_owned()];
    match tiles {
        Some(t) => {
            r.push("--tiles".to_owned());
            r.push(t.to_owned());
        },
        None => {},
    }
    assert(views(r@) =~= match opt_str(tiles) {
        Some(t) => seq!["serve"@, data_dir@, "--tiles"@, t],
        None => seq!["serve"@, data_dir@],
    });
    r
}

/// What to do after the server was asked whether it is ready.
#[derive(Debug, Clone, Copy, PartialEq, Eq, Structural)]
pub enum ReadyStep {
    Ready,
    AskAgain,
    GiveUp,
}

/// Decides whether to go on waiting for the server: it is asked thirty times at most.
pub fn poll_for_ready(asked: u32, ready: bool) -> (r: ReadyStep)
    ensures
        r == if ready {
            ReadyStep::Ready
        } else if asked < READY_ATTEMPTS {
            ReadyStep::AskAgain
        } else {
            ReadyStep::GiveUp
        },
{
    if ready {
        ReadyStep::Ready
    } else if asked < READY_ATTEMPTS {
        ReadyStep::AskAgain
    } else {
        ReadyStep::GiveUp
    }
}

/// The outcome of starting a server: the line to print, or why it is not there.
pub fn serve(ready: bool, pid: u32, port: u16, log_path: &str) -> (r: Result<String, DevError>)
    ensures
        ready ==> (r matches Ok(t) && t@ == "nidhogg server started (PID "@ + nat_text(pid as nat)
            + ", port "@ + nat_text(port as nat) + ")"@),
        !ready ==> (r matches Err(e) && e@ == ErrorView::Config(
            "server did not start within 6s (check "@ + log_path@ + ")"@,
        )),
{
    if ready {
        let mut out = "nidhogg server started (PID ".to_owned();
        out.append(u64_text(pid as u64).as_str());
        out.append(", port ");
        out.append(u64_text(port as u64).as_str());
        out.append(")");
        Ok(out)
    } else {
        let mut m = "server did not start within 6s (check ".to_owned();
        m.append(log_path);
        m.append(")");
        Err(DevError::Config(m))
    }
}

/// The process that a file names, where it names one.
pub fn recorded_pid(content: &str) -> (r: Option<i32>)
    ensures
        match r {
            Some(n) => read_int(trimmed(content@), i32::MAX as nat) == Some(n as int),
            None => read_int(trimmed(content@), i32::MAX as nat) is None,
        },
{
    let t = trim(content);
    parse_i32(t.as_str())
}

/// How far the stopping of a process has come.
#[derive(Debug, Clone, Copy, PartialEq, Eq, Structural)]
pub enum StopPhase {
    /// Ask it to stop.
    Ask,
    /// Look whether it is gone; so many times so far it was not.
    Watch(u32),
    /// See whether the number still stands for the server.
    Identify,
    /// Kill it.
    Kill,
    /// Nothing was running.
    NotRunning,
    /// It was stopped.
    Stopped,
}

/// The phase that follows: after asking, whether the process took the signal;
/// while watching, whether it is alive; when identifying, whether it is the server.
pub open spec fn phase_after(phase: StopPhase, answer: bool) -> StopPhase {
    match phase {
        StopPhase::Ask => if answer {
            StopPhase::Watch(0)
        } else {
            StopPhase::NotRunning
        },
        StopPhase::Watch(n) => if !answer {
            StopPhase::Stopped
        } else if n + 1 < STOP_ATTEMPTS {
            StopPhase::Watch((n + 1) as u32)
        } else {
            StopPhase::Identify
        },
        StopPhase::Identify => if answer {
            StopPhase::Kill
        } else {
            StopPhase::Stopped
        },
        StopPhase::Kill => StopPhase::Stopped,
        StopPhase::NotRunning => StopPhase::NotRunning,
        StopPhase::Stopped => StopPhase::Stopped,
    }
}

/// Decides the next phase of stopping a process: it is asked, watched for a
/// while, and killed only if it is still the server.
pub fn stop_pid(phase: StopPhase, answer: bool) -> (r: StopPhase)
    ensures
        r == phase_after(phase, answer),
{
    match phase {
        StopPhase::Ask => if answer {
            StopPhase::Watch(0)
        } else {
            StopPhase::NotRunning
        },
        StopPhase::Watch(n) => if !answer {
            StopPhase::Stopped
        } else if n < STOP_ATTEMPTS - 1 {
            StopPhase::Watch(n + 1)
        } else {
            StopPhase::Identify
        },
        StopPhase::Identify => if answer {
            StopPhase::Kill
        } else {
            StopPhase::Stopped
        },
        StopPhase::Kill => StopPhase::Stopped,
        StopPhase::NotRunning => StopPhase::NotRunning,
        StopPhase::Stopped => StopPhase::Stopped,
    }
}

/// The phase after some answers.
pub open spec fn phase_after_all(phase: StopPhase, answers: Seq<bool>) -> StopPhase
    decreases answers.len(),
{
    if answers.len() == 0 {
        phase
    } else {
        phase_after(phase_after_all(phase, answers.drop_last()), answers.last())
    }
}

/// While it is watched, a process has been alive each time, and fewer times
/// than the limit.
proof fn watching_counts(answers: Seq<bool>, n: u32)
    requires
        phase_after_all(StopPhase::Ask, answers) == StopPhase::Watch(n),
    ensures
        answers.len() == n + 1,
        n < STOP_ATTEMPTS,
        forall|i: int| 0 <= i < answers.len() ==> #[trigger] answers[i],
    decreases answers.len(),
{
    if answers.len() > 0 {
        let before = phase_after_all(StopPhase::Ask, answers.drop_last());
        let front = answers.drop_last();
        if let StopPhase::Watch(k) = before {
            watching_counts(front, k);
            assert forall|i: int| 0 <= i < answers.len() implies #[trigger] answers[i] by {
                if i < front.len() {
                    assert(answers[i] == front[i]);
                }
            }
        } else {
            assert(before == StopPhase::Ask);
            asking_is_first(front);
        }
    }
}

proof fn asking_is_first(answers: Seq<bool>)
    requires
        phase_after_all(StopPhase::Ask, answers) == StopPhase::Ask,
    ensures
        answers.len() == 0,
{
}

/// A process is killed only after it took the signal, was alive every time it
/// was looked at, and was still the server.
pub proof fn killed_only_if_stubborn(answers: Seq<bool>)
    requires
        phase_after_all(StopPhase::Ask, answers) == StopPhase::Kill,
    ensures
        answers.len() == STOP_ATTEMPTS + 2,
        forall|i: int| 0 <= i < answers.len() ==> #[trigger] answers[i],
{
    let front = answers.drop_last();
    assert(phase_after_all(StopPhase::Ask, front) == StopPhase::Identify);
    identifying_counts(front);
    assert forall|i: int| 0 <= i < answers.len() implies #[trigger] answers[i] by {
        if i < front.len() {
            assert(answers[i] == front[i]);
        }
    }
}

proof fn identifying_counts(answers: Seq<bool>)
    requires
        phase_after_all(StopPhase::Ask, answers) == StopPhase::Identify,
    ensures
        answers.len() == STOP_ATTEMPTS + 1,
        forall|i: int| 0 <= i < answers.len() ==> #[trigger] answers[i],
{
    assert(answers.len() > 0);
    let front = answers.drop_last();
    let before = phase_after_all(StopPhase::Ask, front);
    if let StopPhase::Watch(k) = before {
        watching_counts(front, k);
        assert forall|i: int| 0 <= i < answers.len() implies #[trigger] answers[i] by {
            if i < front.len() {
                assert(answers[i] == front[i]);
            }
        }
    }
}

/// Whether the command line of a process names the server.
pub fn is_nidhogg_process(cmdline: &[u8]) -> (r: bool)
    ensures
        r == has_part(lossy(cmdline@), "nidhogg"@),
{
    let text = from_utf8_lossy(cmdline);
    contains(text.as_str(), "nidhogg")
}

/// The outcome of asking whether the server runs, where it must. A question that
/// failed is handed on as it is.
pub fn check_running(port: u16, running: Result<bool, DevError>) -> (r: Result<(), DevError>)
    ensures
        match running {
            Ok(true) => r is Ok,
            Ok(false) => r matches Err(e) && e@ == ErrorView::Config(
                "nidhogg server is not running on port "@ + nat_text(port as nat)
                    + "\nStart it with: brokkr serve"@,
            ),
            Err(e) => r == Err::<(), DevError>(e),
        },
{
    match running {
        Ok(true) => Ok(()),
        Ok(false) => {
            let mut m = "nidhogg server is not running on port ".to_owned();
            m.append(u64_text(port as u64).as_str());
            m.append("\nStart it with: brokkr serve");
            Err(DevError::Config(m))
        },
        Err(e) => Err(e),
    }
}

/// The line on whether the server runs.
pub fn status(port: u16, running: bool) -> (r: String)
    ensures
        r@ == (if running {
            "server running on port "@
        } else {
            "server not running on port "@
        }) + nat_text(port as nat),
{
    let mut out = if running {
        "server running on port ".to_owned()
    } else {
        "server not running on port ".to_owned()
    };
    out.append(u64_text(port as u64).as_str());
    out
}

/// Chooses the port: from the environment, where it is a port there; else from
/// the configuration of the host; else the default.
pub fn resolve_port(env_port: Option<&str>, host_port: Option<u16>) -> (r: u16)
    ensures
        r == match env_port_of(opt_str(env_port)) {
            Some(p) => p as int,
            None => match host_port {
                Some(p) => p as int,
                None => 3033,
            },
        },
{
    match env_port {
        Some(t) => match crate::numeral::parse_u16(t) {
            Some(p) => {
                return p;
            },
            None => {},
        },
        None => {},
    }
    match host_port {
        Some(p) => p,
        None => DEFAULT_PORT,
    }
}

/// The port that the environment gives, if it gives one.
pub open spec fn env_port_of(text: Option<Seq<char>>) -> Option<nat> {
    match text {
        Some(t) => crate::numeral::read_nat(t, u16::MAX as nat),
        None => None,
    }
}

} // verus!
