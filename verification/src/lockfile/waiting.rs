//! What holds of the words of a command that waits for the lock.

use crate::error::ErrorView;
use crate::lockfile::guard::{invocation, waiting_text, LockAttempt, LockGuard};
use crate::lockfile::registry::{action_after, ActionView, Event};
use crate::lockfile::{InfoView, StateView};
use vstd::prelude::*;

verus! {

/// A holder that is known is named by its project, what it was called with, and
/// where; its figures follow exactly where there are some.
pub proof fn holder_is_named(i: InfoView, figures: Seq<char>)
    ensures
        ({
            let known = waiting_text(Some(i), Some(figures));
            let bare = waiting_text(Some(i), None);
            let what = if i.state.args.len() > 0 { i.state.args } else { i.state.command };
            let holder = "holder: "@ + i.state.project + " "@ + what + " in "@ + i.state.project_root;
            &&& known.len() == 4 && bare.len() == 3
            &&& known[0]
                == "waiting for the previous brokkr command to finish - brokkr runs one command at a time so measurements never overlap"@
            &&& bare[0] == known[0]
            &&& known[1] == holder && bare[1] == holder
            &&& known[2] == "holder is "@ + figures
            &&& known[3]
                == "these numbers won't update here - run 'brokkr lock' in another shell for a live view"@
            &&& bare[2]
                == "process details unavailable - holder identity could not be verified from this namespace"@
        }),
{
}

/// A holder that is not known is told of as such, whatever its figures.
pub proof fn unknown_holder_is_told(figures: Option<Seq<char>>)
    ensures
        waiting_text(None, figures) == seq![
            "waiting for the previous brokkr command to finish - brokkr runs one command at a time so measurements never overlap"@,
            "holder: unknown (lock metadata unreadable)"@,
        ],
{
}

/// A command that recorded no arguments is named by its command.
pub proof fn invocation_is_what_was_called(s: StateView)
    ensures
        s.args.len() > 0 ==> invocation(s) == s.args,
        s.args.len() == 0 ==> invocation(s) == s.command,
{
}

/// How a lock is taken: one of this process is shared at once; another is tried,
/// waited for where it is held elsewhere, and published once it is locked; a signal
/// does not end the wait, and any other failure does.
pub proof fn taking_follows_the_events(known: bool, lock: LockGuard, why: String)
    ensures
        action_after(true, Event::Asked) == ActionView::Held,
        action_after(false, Event::Asked) == ActionView::Try,
        action_after(known, Event::Tried(LockAttempt::Locked)) == ActionView::Publish,
        action_after(known, Event::Waited(LockAttempt::Locked)) == ActionView::Publish,
        action_after(known, Event::Tried(LockAttempt::WouldBlock)) == ActionView::Wait,
        action_after(known, Event::Tried(LockAttempt::Interrupted)) is Fail,
        action_after(known, Event::Waited(LockAttempt::Interrupted)) == ActionView::Retry,
        action_after(known, Event::Waited(LockAttempt::WouldBlock)) is Fail,
        action_after(known, Event::Tried(LockAttempt::Failed(why))) == ActionView::Fail(
            ErrorView::Lock("flock failed: "@ + why@),
        ),
        action_after(known, Event::Waited(LockAttempt::Failed(why))) == ActionView::Fail(
            ErrorView::Lock("blocking flock failed: "@ + why@),
        ),
        action_after(known, Event::Published(lock)) == ActionView::Held,
        action_after(known, Event::NotPublished(why)) == ActionView::Fail(
            ErrorView::Lock("failed to publish lock metadata: "@ + why@),
        ),
{
}

} // verus!
