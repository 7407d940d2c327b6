//! The workloads and targets that a mogwai project registers.

use crate::error::{DevError, ErrorView};
use crate::text::{join, joined, opt_str, opt_view, same, views};
use vstd::prelude::*;

pub mod cmd;
pub mod registry;
pub mod targets;
pub mod workload;

verus! {

/// Whose clock measures a workload.
#[derive(Clone, Copy, Debug, PartialEq, Eq, Structural)]
pub enum MogwaiTiming {
    /// The clock around the whole invocation.
    External,
    /// The clock of the program itself.
    SelfReported,
}

/// A frozen invocation.
#[derive(Debug)]
pub struct MogwaiWorkload {
    pub description: Option<String>,
    /// The arguments, in full.
    pub args: Vec<String>,
    pub runs: Option<usize>,
    /// What one run takes.
    pub expect_seconds: Option<u64>,
    /// The input that it reads, by its registered name.
    pub corpus: Option<String>,
    /// The workload that took its place.
    pub successor: Option<String>,
    pub timing: MogwaiTiming,
    /// Counters that two runs of the same work share.
    pub identity_counters: Vec<String>,
}

/// An example that can be measured.
#[derive(Debug)]
pub struct MogwaiTarget {
    pub package: Option<String>,
    pub example: String,
    pub features: Vec<String>,
}

/// What a mogwai project registers. The names of a list differ from each other
/// and ascend.
#[derive(Debug)]
pub struct MogwaiConfig {
    pub package: Option<String>,
    pub bin: Option<String>,
    pub workloads: Vec<(String, MogwaiWorkload)>,
    pub targets: Vec<(String, MogwaiTarget)>,
}

/// The first entry of a list with the name.
pub open spec fn named<T>(list: Seq<(String, T)>, name: Seq<char>) -> Option<T>
    decreases list.len(),
{
    if list.len() == 0 {
        None
    } else if list[0].0@ == name {
        Some(list[0].1)
    } else {
        named(list.skip(1), name)
    }
}

/// Finds the first entry of a list with the name.
pub fn find_named<'a, T>(list: &'a [(String, T)], name: &str) -> (r: Option<&'a T>)
    ensures
        match r {
            Some(t) => named(list@, name@) == Some(*t),
            None => named(list@, name@) is None,
        },
{
    let mut i: usize = 0;
    assert(list@.skip(0) =~= list@);
    while i < list.len()
        invariant
            i <= list@.len(),
            named(list@, name@) == named(list@.skip(i as int), name@),
        decreases list@.len() - i,
    {
        assert(list@.skip(i as int).skip(1) =~= list@.skip(i + 1));
        assert(list@.skip(i as int)[0] == list@[i as int]);
        if same(list[i].0.as_str(), name) {
            return Some(&list[i].1);
        }
        i += 1;
    }
    None
}

/// The names of the workloads that nothing took the place of.
pub open spec fn live_names(list: Seq<(String, MogwaiWorkload)>) -> Seq<Seq<char>>
    decreases list.len(),
{
    if list.len() == 0 {
        Seq::empty()
    } else {
        let before = live_names(list.drop_last());
        if list.last().1.successor is Some {
            before
        } else {
            before.push(list.last().0@)
        }
    }
}

/// The names of a list.
pub open spec fn names_in<T>(list: Seq<(String, T)>) -> Seq<Seq<char>> {
    Seq::new(list.len(), |i: int| list[i].0@)
}

/// Collects the names of a list.
pub fn names_of<T>(list: &[(String, T)]) -> (r: Vec<String>)
    ensures
        views(r@) == names_in(list@),
{
    let mut out: Vec<String> = Vec::new();
    let mut i: usize = 0;
    while i < list.len()
        invariant
            i <= list@.len(),
            out@.len() == i,
            forall|k: int| 0 <= k < i ==> (#[trigger] out@[k])@ == list@[k].0@,
        decreases list@.len() - i,
    {
        out.push(list[i].0.clone());
        i += 1;
    }
    assert(views(out@) =~= names_in(list@));
    out
}

/// The longest name of a list, in bytes.
pub open spec fn longest(names: Seq<Seq<char>>) -> nat
    decreases names.len(),
{
    if names.len() == 0 {
        0
    } else {
        let before = longest(names.drop_last());
        let here = crate::text::byte_len(names.last());
        if here > before {
            here
        } else {
            before
        }
    }
}

/// Measures the longest name of a list, in bytes.
pub fn longest_name(names: &[String]) -> (r: usize)
    ensures
        r == longest(views(names@)),
{
    let mut width: usize = 0;
    let mut i: usize = 0;
    assert(views(names@).take(0) =~= Seq::empty());
    while i < names.len()
        invariant
            i <= names@.len(),
            width == longest(views(names@).take(i as int)),
        decreases names@.len() - i,
    {
        let n: usize = crate::text::byte_count(names[i].as_str());
        assert(views(names@).take(i + 1).drop_last() =~= views(names@).take(i as int));
        assert(views(names@).take(i + 1).last() == names@[i as int]@);
        if n > width {
            width = n;
        }
        i += 1;
    }
    assert(views(names@).take(i as int) =~= views(names@));
    width
}

impl MogwaiConfig {
    /// The binary that is run without a target: the one that is named, else the
    /// one of the package.
    pub open spec fn bin_text(&self) -> Option<Seq<char>> {
        if self.bin is Some {
            opt_view(self.bin)
        } else {
            opt_view(self.package)
        }
    }

    /// Names the binary that is run without a target.
    pub fn bin_target(&self) -> (r: Option<&str>)
        ensures
            opt_str(r) == self.bin_text(),
    {
        match &self.bin {
            Some(b) => Some(b.as_str()),
            None => match &self.package {
                Some(p) => Some(p.as_str()),
                None => None,
            },
        }
    }

    /// Finds a workload. One that is not registered is answered with the names of
    /// those that can be run.
    pub fn workload(&self, name: &str) -> (r: Result<&MogwaiWorkload, DevError>)
        ensures
            match r {
                Ok(w) => named(self.workloads@, name@) == Some(*w),
                Err(e) => named(self.workloads@, name@) is None && e@ == ErrorView::Config(
                    "unknown workload '"@ + name@ + "'\n  registered: "@ + joined(
                        live_names(self.workloads@),
                        ", "@,
                    ),
                ),
            },
    {
        match find_named(&self.workloads, name) {
            Some(w) => Ok(w),
            None => {
                let mut live: Vec<String> = Vec::new();
                let mut i: usize = 0;
                let ghost all = self.workloads@;
                assert(views(live@) =~= live_names(all.take(0)));
                while i < self.workloads.len()
                    invariant
                        i <= self.workloads@.len(),
                        all == self.workloads@,
                        views(live@) == live_names(all.take(i as int)),
                    decreases self.workloads@.len() - i,
                {
                    let ghost before = live@;
                    assert(all.take(i + 1).drop_last() =~= all.take(i as int));
                    assert(all.take(i + 1).last() == all[i as int]);
                    if self.workloads[i].1.successor.is_none() {
                        live.push(self.workloads[i].0.clone());
                        assert(views(live@) =~= views(before).push(all[i as int].0@));
                    }
                    i += 1;
                }
                assert(all.take(i as int) =~= all);
                let mut m = "unknown workload '".to_owned();
                m.append(name);
                m.append("'\n  registered: ");
                m.append(join(&live, ", ").as_str());
                Err(DevError::Config(m))
            },
        }
    }

    /// Finds a target. One that is not registered is answered with the names of
    /// those that are, and with the way to run the command line itself.
    pub fn target(&self, name: &str) -> (r: Result<&MogwaiTarget, DevError>)
        ensures
            match r {
                Ok(t) => named(self.targets@, name@) == Some(*t),
                Err(e) => named(self.targets@, name@) is None && e@ == ErrorView::Config(
                    "unknown target '"@ + name@ + "'\n  registered: "@ + joined(
                        names_in(self.targets@),
                        ", "@,
                    ) + "\n  for the command line itself: `brokkr mogwai -- <args>`"@,
                ),
            },
    {
        match find_named(&self.targets, name) {
            Some(t) => Ok(t),
            None => {
                let all = names_of(&self.targets);
                let mut m = "unknown target '".to_owned();
                m.append(name);
                m.append("'\n  registered: ");
                m.append(join(&all, ", ").as_str());
                m.append("\n  for the command line itself: `brokkr mogwai -- <args>`");
                Err(DevError::Config(m))
            },
        }
    }
}

/// A workload that the registry has is found under its name.
pub proof fn registered_is_found<T>(list: Seq<(String, T)>, i: int)
    requires
        0 <= i < list.len(),
        forall|a: int, b: int|
            0 <= a < b < list.len() ==> (#[trigger] list[a]).0@ != (#[trigger] list[b]).0@,
    ensures
        named(list, list[i].0@) == Some(list[i].1),
    decreases i,
{
    if i > 0 {
        assert(list[0].0@ != list[i].0@);
        assert(list.skip(1)[i - 1] == list[i]);
        assert forall|a: int, b: int| 0 <= a < b < list.skip(1).len() implies (#[trigger] list.skip(
            1,
        )[a]).0@ != (#[trigger] list.skip(1)[b]).0@ by {
            assert(list.skip(1)[a] == list[a + 1]);
            assert(list.skip(1)[b] == list[b + 1]);
        }
        registered_is_found(list.skip(1), i - 1);
    }
}

/// A name that is offered in place of an unknown one belongs to a workload that
/// runs.
pub proof fn offered_is_live(list: Seq<(String, MogwaiWorkload)>, k: int)
    requires
        0 <= k < live_names(list).len(),
    ensures
        exists|i: int|
            0 <= i < list.len() && (#[trigger] list[i]).0@ == live_names(list)[k]
                && list[i].1.successor is None,
    decreases list.len(),
{
    let front = list.drop_last();
    if k < live_names(front).len() {
        offered_is_live(front, k);
        let i = choose|i: int|
            0 <= i < front.len() && (#[trigger] front[i]).0@ == live_names(front)[k]
                && front[i].1.successor is None;
        assert(list[i] == front[i]);
    } else {
        assert(list[list.len() - 1].1.successor is None);
    }
}

} // verus!
