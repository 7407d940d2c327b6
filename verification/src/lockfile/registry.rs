//! The locks that this process holds, each by as many guards as took it.

use crate::error::{DevError, ErrorView};
use crate::lockfile::guard::{next_step, LockAttempt, LockGuard, LockStep, Phase};
use crate::lockfile::StateView;
use crate::text::same;
use vstd::prelude::*;

verus! {

/// A lock of this process: how many guards it has, and what the first of them
/// tells about the holder.
pub struct Hold {
    pub path: String,
    pub guards: usize,
    pub lock: LockGuard,
}

/// The contents of a [`Hold`], but for its file.
pub ghost struct HoldView {
    pub guards: nat,
    pub pid: u32,
    pub state: StateView,
}

impl View for Hold {
    type V = HoldView;

    open spec fn view(&self) -> HoldView {
        HoldView { guards: self.guards as nat, pid: self.lock.pid, state: self.lock.state@ }
    }
}

/// The locks of this process.
pub struct Registry {
    pub holds: Vec<Hold>,
}

/// The index of the hold on a file, from `i` on.
pub open spec fn hold_index(holds: Seq<Hold>, path: Seq<char>, i: int) -> Option<int>
    decreases holds.len() - i,
{
    if i >= holds.len() {
        None
    } else if holds[i].path@ == path {
        Some(i)
    } else {
        hold_index(holds, path, i + 1)
    }
}

/// A hold with one more guard.
pub open spec fn shared(h: HoldView) -> HoldView {
    HoldView { guards: h.guards + 1, ..h }
}

/// The hold of the first guard.
pub open spec fn fresh(lock: LockGuard) -> HoldView {
    HoldView { guards: 1, pid: lock.pid, state: lock.state@ }
}

/// The locks when a guard on a file is gone: the hold goes with the last one.
pub open spec fn left(m: Map<Seq<char>, HoldView>, path: Seq<char>) -> Map<Seq<char>, HoldView> {
    if m[path].guards <= 1 {
        m.remove(path)
    } else {
        m.insert(path, HoldView { guards: (m[path].guards - 1) as nat, ..m[path] })
    }
}

/// What has come about while a lock is taken.
pub enum Event {
    /// The lock was asked for.
    Asked,
    /// The file was to be locked at once.
    Tried(LockAttempt),
    /// The file was to be locked as soon as it is free.
    Waited(LockAttempt),
    /// The record of the holder stands in the file.
    Published(LockGuard),
    /// The record could not be written, with the reason.
    NotPublished(String),
}

/// What to do next to take a lock.
pub enum Action {
    /// Try to lock the file, without waiting.
    Try,
    /// Tell who holds the lock, then wait for it.
    Wait,
    /// Wait again.
    Retry,
    /// The file is locked: write the record.
    Publish,
    /// Nothing: the lock is held.
    Held,
    /// Give up.
    Fail(DevError),
}

/// The contents of an [`Action`].
pub ghost enum ActionView {
    Try,
    Wait,
    Retry,
    Publish,
    Held,
    Fail(ErrorView),
}

impl View for Action {
    type V = ActionView;

    open spec fn view(&self) -> ActionView {
        match self {
            Action::Try => ActionView::Try,
            Action::Wait => ActionView::Wait,
            Action::Retry => ActionView::Retry,
            Action::Publish => ActionView::Publish,
            Action::Held => ActionView::Held,
            Action::Fail(e) => ActionView::Fail(e@),
        }
    }
}

/// What follows an event, where this process does or does not hold the lock.
pub open spec fn action_after(known: bool, e: Event) -> ActionView {
    match e {
        Event::Asked => if known {
            ActionView::Held
        } else {
            ActionView::Try
        },
        Event::Tried(a) => match a {
            LockAttempt::Locked => ActionView::Publish,
            LockAttempt::WouldBlock => ActionView::Wait,
            LockAttempt::Interrupted => ActionView::Fail(
                ErrorView::Lock("flock failed: "@ + "Interrupted system call (os error 4)"@),
            ),
            LockAttempt::Failed(m) => ActionView::Fail(ErrorView::Lock("flock failed: "@ + m@)),
        },
        Event::Waited(a) => match a {
            LockAttempt::Locked => ActionView::Publish,
            LockAttempt::Interrupted => ActionView::Retry,
            LockAttempt::WouldBlock => ActionView::Fail(
                ErrorView::Lock(
                    "blocking flock failed: "@ + "Resource temporarily unavailable (os error 11)"@,
                ),
            ),
            LockAttempt::Failed(m) => ActionView::Fail(
                ErrorView::Lock("blocking flock failed: "@ + m@),
            ),
        },
        Event::Published(_) => ActionView::Held,
        Event::NotPublished(m) => ActionView::Fail(
            ErrorView::Lock("failed to publish lock metadata: "@ + m@),
        ),
    }
}

/// The locks after an event: a lock that is held gets one more guard as soon as
/// it is asked for, another its first when its record stands in the file.
pub open spec fn locks_after(
    m: Map<Seq<char>, HoldView>,
    path: Seq<char>,
    e: Event,
) -> Map<Seq<char>, HoldView> {
    match e {
        Event::Asked => if m.contains_key(path) {
            m.insert(path, shared(m[path]))
        } else {
            m
        },
        Event::Published(lock) => m.insert(path, fresh(lock)),
        _ => m,
    }
}

proof fn index_finds(holds: Seq<Hold>, path: Seq<char>, i: int)
    requires
        0 <= i,
    ensures
        match hold_index(holds, path, i) {
            Some(k) => i <= k < holds.len() && holds[k].path@ == path,
            None => forall|k: int| i <= k < holds.len() ==> (#[trigger] holds[k]).path@ != path,
        },
    decreases holds.len() - i,
{
    if i < holds.len() && holds[i].path@ != path {
        index_finds(holds, path, i + 1);
    }
}

proof fn index_is(holds: Seq<Hold>, path: Seq<char>, i: int, k: int)
    requires
        0 <= i <= k < holds.len(),
        holds[k].path@ == path,
        no_path_twice(holds),
    ensures
        hold_index(holds, path, i) == Some(k),
    decreases k - i,
{
    if i < k {
        assert(holds[i].path@ != holds[k].path@);
        index_is(holds, path, i + 1, k);
    }
}

/// Whether no file is listed twice.
pub open spec fn no_path_twice(holds: Seq<Hold>) -> bool {
    forall|a: int, b: int|
        0 <= a < b < holds.len() ==> (#[trigger] holds[a]).path@ != (#[trigger] holds[b]).path@
}

/// The holds by their files.
pub open spec fn by_path(holds: Seq<Hold>) -> Map<Seq<char>, HoldView> {
    Map::new(
        |p: Seq<char>| hold_index(holds, p, 0) is Some,
        |p: Seq<char>| holds[hold_index(holds, p, 0)->0]@,
    )
}

proof fn pushed_by_path(holds: Seq<Hold>, h: Hold)
    requires
        no_path_twice(holds),
        hold_index(holds, h.path@, 0) is None,
    ensures
        no_path_twice(holds.push(h)),
        by_path(holds.push(h)) == by_path(holds).insert(h.path@, h@),
{
    let after = holds.push(h);
    let last = holds.len() as int;
    index_finds(holds, h.path@, 0);
    assert forall|a: int, b: int| 0 <= a < b < after.len() implies (#[trigger] after[a]).path@ != (
    #[trigger] after[b]).path@ by {
        assert(after[a] == holds[a]);
        if b < last {
            assert(after[b] == holds[b]);
        }
    }
    index_is(after, h.path@, 0, last);
    let m = by_path(holds).insert(h.path@, h@);
    assert forall|p: Seq<char>|
        #![trigger by_path(after).dom().contains(p)]
        #![trigger m.dom().contains(p)]
        by_path(after).dom().contains(p) == m.dom().contains(p) && (m.dom().contains(p) ==> by_path(
            after,
        )[p] == m[p]) by {
        if p != h.path@ {
            index_finds(holds, p, 0);
            index_finds(after, p, 0);
            match hold_index(holds, p, 0) {
                Some(k) => {
                    assert(after[k] == holds[k]);
                    index_is(after, p, 0, k);
                },
                None => {
                    if let Some(k) = hold_index(after, p, 0) {
                        assert(k < last ==> after[k] == holds[k]);
                    }
                },
            }
        }
    }
    assert(by_path(after) =~= m);
}

proof fn updated_by_path(holds: Seq<Hold>, i: int, h: Hold)
    requires
        no_path_twice(holds),
        0 <= i < holds.len(),
        h.path@ == holds[i].path@,
    ensures
        no_path_twice(holds.update(i, h)),
        by_path(holds.update(i, h)) == by_path(holds).insert(h.path@, h@),
{
    let after = holds.update(i, h);
    assert forall|a: int, b: int| 0 <= a < b < after.len() implies (#[trigger] after[a]).path@ != (
    #[trigger] after[b]).path@ by {
        assert(after[a].path@ == holds[a].path@);
        assert(after[b].path@ == holds[b].path@);
    }
    index_is(after, h.path@, 0, i);
    let m = by_path(holds).insert(h.path@, h@);
    assert forall|p: Seq<char>|
        #![trigger by_path(after).dom().contains(p)]
        #![trigger m.dom().contains(p)]
        by_path(after).dom().contains(p) == m.dom().contains(p) && (m.dom().contains(p) ==> by_path(
            after,
        )[p] == m[p]) by {
        if p != h.path@ {
            same_paths(holds, after, p, 0);
            index_finds(holds, p, 0);
        }
    }
    assert(by_path(after) =~= m);
}

proof fn removed_by_path(holds: Seq<Hold>, i: int)
    requires
        no_path_twice(holds),
        0 <= i < holds.len(),
    ensures
        no_path_twice(holds.remove(i)),
        by_path(holds.remove(i)) == by_path(holds).remove(holds[i].path@),
{
    let after = holds.remove(i);
    let path = holds[i].path@;
    assert forall|k: int| 0 <= k < after.len() implies #[trigger] after[k] == (if k < i {
        holds[k]
    } else {
        holds[k + 1]
    }) by {}
    assert forall|a: int, b: int| 0 <= a < b < after.len() implies (#[trigger] after[a]).path@ != (
    #[trigger] after[b]).path@ by {
        let x = if a < i { a } else { a + 1 };
        let y = if b < i { b } else { b + 1 };
        assert(after[a] == holds[x] && after[b] == holds[y]);
    }
    index_finds(after, path, 0);
    if let Some(k) = hold_index(after, path, 0) {
        let x = if k < i { k } else { k + 1 };
        assert(after[k] == holds[x]);
        if x < i {
            assert(holds[x].path@ != holds[i].path@);
        } else {
            assert(holds[i].path@ != holds[x].path@);
        }
    }
    let m = by_path(holds).remove(path);
    assert forall|p: Seq<char>|
        #![trigger by_path(after).dom().contains(p)]
        #![trigger m.dom().contains(p)]
        by_path(after).dom().contains(p) == m.dom().contains(p) && (m.dom().contains(p) ==> by_path(
            after,
        )[p] == m[p]) by {
        if p != path {
            index_finds(holds, p, 0);
            index_finds(after, p, 0);
            match hold_index(holds, p, 0) {
                Some(k) => {
                    let x = if k < i { k } else { k - 1 };
                    assert(after[x] == holds[k]);
                    index_is(after, p, 0, x);
                },
                None => {
                    if let Some(k) = hold_index(after, p, 0) {
                        let x = if k < i { k } else { k + 1 };
                        assert(after[k] == holds[x]);
                    }
                },
            }
        }
    }
    assert(by_path(after) =~= m);
}

proof fn same_paths(a: Seq<Hold>, b: Seq<Hold>, path: Seq<char>, i: int)
    requires
        a.len() == b.len(),
        forall|k: int| 0 <= k < a.len() ==> (#[trigger] a[k]).path@ == b[k].path@,
        0 <= i,
    ensures
        hold_index(a, path, i) == hold_index(b, path, i),
    decreases a.len() - i,
{
    if i < a.len() {
        assert(a[i].path@ == b[i].path@);
        same_paths(a, b, path, i + 1);
    }
}

impl View for Registry {
    type V = Map<Seq<char>, HoldView>;

    open spec fn view(&self) -> Map<Seq<char>, HoldView> {
        by_path(self.holds@)
    }
}

impl Registry {
    /// Whether no file is listed twice, and every hold has a guard.
    pub open spec fn wf(&self) -> bool {
        &&& no_path_twice(self.holds@)
        &&& forall|i: int| 0 <= i < self.holds@.len() ==> (#[trigger] self.holds@[i]).guards > 0
    }

    /// How many guards the lock on a file has.
    pub open spec fn guards(&self, path: Seq<char>) -> nat {
        if self@.contains_key(path) {
            self@[path].guards
        } else {
            0
        }
    }

    /// No locks yet.
    pub fn new() -> (r: Registry)
        ensures
            r.wf(),
            r@ == Map::<Seq<char>, HoldView>::empty(),
    {
        let r = Registry { holds: Vec::new() };
        assert(r@ =~= Map::empty());
        r
    }

    fn find(&self, path: &str) -> (r: Option<usize>)
        ensures
            match r {
                Some(i) => hold_index(self.holds@, path@, 0) == Some(i as int) && i
                    < self.holds@.len() && self.holds@[i as int].path@ == path@,
                None => hold_index(self.holds@, path@, 0) is None,
            },
            self@.contains_key(path@) == (r is Some),
    {
        let mut i: usize = 0;
        while i < self.holds.len()
            invariant
                i <= self.holds@.len(),
                hold_index(self.holds@, path@, 0) == hold_index(self.holds@, path@, i as int),
            decreases self.holds@.len() - i,
        {
            if same(self.holds[i].path.as_str(), path) {
                return Some(i);
            }
            i += 1;
        }
        None
    }

    /// Whether this process holds the lock on a file.
    pub fn is_held(&self, path: &str) -> (r: bool)
        ensures
            r == self@.contains_key(path@),
    {
        self.find(path).is_some()
    }

    /// Counts the guards on a file.
    pub fn count(&self, path: &str) -> (r: usize)
        ensures
            r == self.guards(path@),
    {
        match self.find(path) {
            Some(i) => self.holds[i].guards,
            None => 0,
        }
    }

    /// The record that the file holds, where this process holds its lock.
    pub fn contents(&self, path: &str) -> (r: Option<String>)
        ensures
            match r {
                Some(t) => self@.contains_key(path@) && t@ == crate::lockfile::record(
                    self@[path@].pid,
                    self@[path@].state,
                ),
                None => !self@.contains_key(path@),
            },
    {
        match self.find(path) {
            Some(i) => Some(self.holds[i].lock.contents()),
            None => None,
        }
    }

    /// Takes the lock on a file, one event at a time: the first is that it is
    /// asked for, every further one the outcome of what was to be done. A lock
    /// that this process holds is shared at once, and its record stays.
    pub fn acquire_at(&mut self, path: &str, event: Event) -> (r: Action)
        requires
            old(self).wf(),
            event is Asked ==> old(self).guards(path@) < usize::MAX,
            event is Published ==> !old(self)@.contains_key(path@),
        ensures
            final(self).wf(),
            final(self)@ == locks_after(old(self)@, path@, event),
            r@ == action_after(old(self)@.contains_key(path@), event),
    {
        let ghost before = self.holds@;
        match event {
            Event::Asked => match self.find(path) {
                Some(i) => {
                    let n: usize = self.holds[i].guards;
                    self.holds[i].guards = n + 1;
                    proof {
                        let h = self.holds@[i as int];
                        assert(self.holds@ =~= before.update(i as int, h));
                        updated_by_path(before, i as int, h);
                    }
                    Action::Held
                },
                None => Action::Try,
            },
            Event::Tried(a) => step_action(next_step(Phase::Trying, a)),
            Event::Waited(a) => step_action(next_step(Phase::Waiting, a)),
            Event::Published(lock) => {
                let hold = Hold { path: path.to_owned(), guards: 1, lock };
                proof {
                    pushed_by_path(before, hold);
                }
                self.holds.push(hold);
                Action::Held
            },
            Event::NotPublished(m) => {
                let mut text = "failed to publish lock metadata: ".to_owned();
                text.append(m.as_str());
                Action::Fail(DevError::Lock(text))
            },
        }
    }

    /// Gives up one guard on a file. Only the last gives up the lock, whichever
    /// was taken first.
    pub fn leave(&mut self, path: &str) -> (last: bool)
        requires
            old(self).wf(),
            old(self)@.contains_key(path@),
        ensures
            final(self).wf(),
            final(self)@ == left(old(self)@, path@),
            last == (old(self)@[path@].guards == 1),
    {
        let ghost before = self.holds@;
        match self.find(path) {
            Some(i) => {
                let n: usize = self.holds[i].guards;
                assert(before[i as int].guards > 0);
                if n > 1 {
                    self.holds[i].guards = n - 1;
                    proof {
                        let h = self.holds@[i as int];
                        assert(self.holds@ =~= before.update(i as int, h));
                        updated_by_path(before, i as int, h);
                    }
                    return false;
                }
                self.holds.remove(i);
                proof {
                    assert(self.holds@ =~= before.remove(i as int));
                    removed_by_path(before, i as int);
                }
                true
            },
            None => true,
        }
    }

    /// What the holder of a lock tells, to be changed: all guards on the file
    /// share it.
    pub fn lock_mut(&mut self, path: &str) -> (r: &mut LockGuard)
        requires
            old(self).wf(),
            old(self)@.contains_key(path@),
        ensures
            r.pid == old(self)@[path@].pid,
            r.state@ == old(self)@[path@].state,
            final(self).wf(),
            final(self)@ == old(self)@.insert(
                path@,
                (HoldView {
                    guards: old(self)@[path@].guards,
                    pid: final(r).pid,
                    state: final(r).state@,
                }),
            ),
    {
        let i: usize = self.find(path).unwrap();
        proof {
            let before = self.holds@;
            assert forall|h: Hold| h.path@ == path@ implies no_path_twice(
                #[trigger] before.update(i as int, h),
            ) && by_path(before.update(i as int, h)) == by_path(before).insert(path@, h@) by {
                updated_by_path(before, i as int, h);
            }
        }
        &mut self.holds[i].lock
    }
}

fn step_action(step: LockStep) -> (r: Action)
    ensures
        match step {
            LockStep::Publish => r is Publish,
            LockStep::Wait => r is Wait,
            LockStep::Retry => r is Retry,
            LockStep::Fail(e) => r == Action::Fail(e),
        },
{
    match step {
        LockStep::Publish => Action::Publish,
        LockStep::Wait => Action::Wait,
        LockStep::Retry => Action::Retry,
        LockStep::Fail(e) => Action::Fail(e),
    }
}

/// Whether an event is an outcome of what was to be done.
pub open spec fn answers(a: ActionView, e: Event) -> bool {
    match a {
        ActionView::Try => e is Tried,
        ActionView::Wait | ActionView::Retry => e is Waited,
        ActionView::Publish => e is Published || e is NotPublished,
        ActionView::Held | ActionView::Fail(_) => false,
    }
}

/// The locks after several events on one file.
pub open spec fn locks_after_all(
    m: Map<Seq<char>, HoldView>,
    path: Seq<char>,
    events: Seq<Event>,
) -> Map<Seq<char>, HoldView>
    decreases events.len(),
{
    if events.len() == 0 {
        m
    } else {
        locks_after(locks_after_all(m, path, events.drop_last()), path, events.last())
    }
}

/// What is to be done after several events, of which there is at least one.
pub open spec fn action_after_all(
    m: Map<Seq<char>, HoldView>,
    path: Seq<char>,
    events: Seq<Event>,
) -> ActionView {
    action_after(
        locks_after_all(m, path, events.drop_last()).contains_key(path),
        events.last(),
    )
}

/// Whether the events are those of taking a lock: it is asked for, and each
/// further event is an outcome of what was to be done.
pub open spec fn is_taking(
    m: Map<Seq<char>, HoldView>,
    path: Seq<char>,
    events: Seq<Event>,
) -> bool
    decreases events.len(),
{
    if events.len() <= 1 {
        events.len() == 1 && events[0] is Asked
    } else {
        is_taking(m, path, events.drop_last()) && answers(
            action_after_all(m, path, events.drop_last()),
            events.last(),
        )
    }
}

/// Taking a lock that this process does not hold: it is held when its record
/// stands in the file and not before, and then it is a hold of one guard with
/// that record. Until then, and when it fails, nothing changes.
pub proof fn first_taker_publishes(
    m: Map<Seq<char>, HoldView>,
    path: Seq<char>,
    events: Seq<Event>,
)
    requires
        !m.contains_key(path),
        is_taking(m, path, events),
    ensures
        action_after_all(m, path, events) is Held <==> events.last() is Published,
        match events.last() {
            Event::Published(lock) => locks_after_all(m, path, events) == m.insert(
                path,
                fresh(lock),
            ),
            _ => locks_after_all(m, path, events) == m,
        },
    decreases events.len(),
{
    let front = events.drop_last();
    if events.len() == 1 {
        assert(front =~= Seq::empty());
        assert(events.last() == events[0]);
    } else {
        first_taker_publishes(m, path, front);
    }
}

/// Taking a lock that this process holds is over as soon as it is asked for:
/// nothing is tried, nothing is waited for, and the record stays.
pub proof fn second_taker_shares(
    m: Map<Seq<char>, HoldView>,
    path: Seq<char>,
    events: Seq<Event>,
)
    requires
        m.contains_key(path),
        is_taking(m, path, events),
    ensures
        events.len() == 1,
        action_after_all(m, path, events) is Held,
        locks_after_all(m, path, events) == m.insert(path, shared(m[path])),
    decreases events.len(),
{
    let front = events.drop_last();
    if events.len() > 1 {
        second_taker_shares(m, path, front);
    } else {
        assert(front =~= Seq::empty());
        assert(events.last() == events[0]);
    }
}

/// A lock that is taken twice and left twice, whichever guard goes first: the
/// second taker never waits, the record is that of the first as long as the lock
/// is held, only the second to leave gives it up, and then all is as before. No
/// other lock changes at any time.
pub proof fn lock_is_held_until_the_last_leaves(
    m: Map<Seq<char>, HoldView>,
    path: Seq<char>,
    first: Seq<Event>,
    second: Seq<Event>,
)
    requires
        !m.contains_key(path),
        is_taking(m, path, first),
        action_after_all(m, path, first) is Held,
        is_taking(locks_after_all(m, path, first), path, second),
    ensures
        first.last() is Published,
        second.len() == 1,
        ({
            let lock = first.last()->Published_0;
            let one = locks_after_all(m, path, first);
            let two = locks_after_all(one, path, second);
            let rest = left(two, path);
            &&& action_after_all(one, path, second) is Held
            &&& one == m.insert(path, fresh(lock))
            &&& two == m.insert(path, (HoldView { guards: 2, ..fresh(lock) }))
            &&& two[path].guards != 1
            &&& rest == m.insert(path, fresh(lock))
            &&& rest[path].guards == 1
            &&& left(rest, path) == m
        }),
{
    first_taker_publishes(m, path, first);
    let lock = first.last()->Published_0;
    let one = locks_after_all(m, path, first);
    second_taker_shares(one, path, second);
    let two = locks_after_all(one, path, second);
    assert(two =~= m.insert(path, (HoldView { guards: 2, ..fresh(lock) })));
    let rest = left(two, path);
    assert(rest =~= m.insert(path, fresh(lock)));
    assert(left(rest, path) =~= m);
}

} // verus!
