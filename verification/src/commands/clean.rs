//! What is cleaned away, and what is kept.

use crate::harness::kv::{from_utf8_lossy, lossy};
use crate::numeral::{nat_text, parse_i32, parse_u32, read_int, read_nat, u64_text, usize_text};
use crate::path::{text_in, FilePath};
use crate::project::Project;
use crate::text::{after_prefix, clone_or, lines, lines_of, starts_with, strip_prefix, trim, trimmed};
use vstd::prelude::*;

verus! {

/// What is cleaned beyond the scratch of the project.
#[derive(Debug, Clone, Copy, PartialEq, Eq, Structural)]
pub struct CleanOpts {
    pub worktrees: bool,
    pub archives: bool,
    /// How many archives of a kind are kept.
    pub keep: usize,
    /// Say what would go, and remove nothing.
    pub dry_run: bool,
}

impl CleanOpts {
    /// The sweep after an interrupt: scratch only, nothing durable.
    pub fn routine() -> (r: CleanOpts)
        ensures
            r == (CleanOpts { worktrees: false, archives: false, keep: 2, dry_run: false }),
    {
        CleanOpts { worktrees: false, archives: false, keep: 2, dry_run: false }
    }
}

/// What removing is called.
pub open spec fn verb_text(dry_run: bool) -> Seq<char> {
    if dry_run {
        "would remove"@
    } else {
        "removed"@
    }
}

/// What cleaning is called.
pub open spec fn past_text(dry_run: bool) -> Seq<char> {
    if dry_run {
        "would clean"@
    } else {
        "cleaned"@
    }
}

/// Removes things, or says that it would.
#[derive(Debug, Clone, Copy)]
pub struct Cleaner {
    pub dry_run: bool,
}

impl Cleaner {
    /// Whether something that is there counts as removed, and whether it is in
    /// fact removed.
    pub fn removal(&self, exists: bool) -> (r: (bool, bool))
        ensures
            r.0 == exists,
            r.1 == (exists && !self.dry_run),
    {
        (exists, exists && !self.dry_run)
    }

    /// The word in messages that count.
    pub fn verb(&self) -> (r: &'static str)
        ensures
            r@ == verb_text(self.dry_run),
    {
        if self.dry_run {
            "would remove"
        } else {
            "removed"
        }
    }

    /// The word in messages that name.
    pub fn past(&self) -> (r: &'static str)
        ensures
            r@ == past_text(self.dry_run),
    {
        if self.dry_run {
            "would clean"
        } else {
            "cleaned"
        }
    }

    /// The message on so many things, none where there are none.
    pub fn counted(&self, removed: u32, what: &str) -> (r: Option<String>)
        ensures
            removed == 0 ==> r is None,
            removed > 0 ==> (r matches Some(t) && t@ == verb_text(self.dry_run) + " "@ + nat_text(
                removed as nat,
            ) + " "@ + what@),
    {
        if removed == 0 {
            return None;
        }
        let mut out = self.verb().to_owned();
        out.append(" ");
        out.append(u64_text(removed as u64).as_str());
        out.append(" ");
        out.append(what);
        Some(out)
    }

    /// The message on a thing by its name, none where it is not there.
    pub fn cleaned(&self, exists: bool, what: &str) -> (r: Option<String>)
        ensures
            !exists ==> r is None,
            exists ==> (r matches Some(t) && t@ == past_text(self.dry_run) + " "@ + what@),
    {
        if !exists {
            return None;
        }
        let mut out = self.past().to_owned();
        out.append(" ");
        out.append(what);
        Some(out)
    }
}

/// A thing to clean.
#[derive(Debug, Clone, Copy, PartialEq, Eq, Structural)]
pub enum Step {
    /// The output of verifications.
    Verify,
    /// The target directories of builds with flags of their own.
    Rustflags,
    /// The directory of elivagar's generator, which is made anew.
    TilegenScratch,
    /// The two directories of nidhogg.
    NidhoggScratch,
    /// Loose files, and directories by their names.
    LooseScratch,
    /// Archives that were made to calibrate.
    Calibrands,
    /// The directory in which the ocean is built.
    OceanBuild,
    /// All but the newest archives of each kind.
    Archives,
    /// The runs of ratatoskr.
    RatatoskrRuns,
    /// The runs of piners, but not their store.
    PinersRuns,
    /// Every archive of the store.
    Outputs,
    /// Every worktree.
    Worktrees,
    /// A word on the worktrees that stay.
    MentionWorktrees,
}

/// The steps of a clean for a project.
pub open spec fn steps_of(project: Project, opts: CleanOpts, scratch_exists: bool) -> Seq<Step> {
    let elivagar = project is Elivagar;
    seq![Step::Verify, Step::Rustflags] + (if !scratch_exists {
        Seq::empty()
    } else if elivagar {
        seq![Step::TilegenScratch]
    } else if project is Nidhogg {
        seq![Step::NidhoggScratch]
    } else {
        seq![Step::LooseScratch]
    }) + (if elivagar {
        seq![Step::Calibrands, Step::OceanBuild]
    } else {
        Seq::empty()
    }) + (if elivagar && opts.archives {
        seq![Step::Archives]
    } else {
        Seq::empty()
    }) + (if project is Ratatoskr {
        seq![Step::RatatoskrRuns]
    } else if project is Piners {
        seq![Step::PinersRuns]
    } else {
        Seq::empty()
    }) + (if opts.worktrees && elivagar {
        seq![Step::Outputs]
    } else {
        Seq::empty()
    }) + (if opts.worktrees {
        seq![Step::Worktrees]
    } else {
        seq![Step::MentionWorktrees]
    })
}

/// Lists the steps of a clean.
pub fn clean_steps(project: Project, opts: CleanOpts, scratch_exists: bool) -> (r: Vec<Step>)
    ensures
        r@ == steps_of(project, opts, scratch_exists),
{
    let elivagar = matches!(project, Project::Elivagar);
    let mut out: Vec<Step> = Vec::new();
    out.push(Step::Verify);
    out.push(Step::Rustflags);
    if scratch_exists {
        if elivagar {
            out.push(Step::TilegenScratch);
        } else if matches!(project, Project::Nidhogg) {
            out.push(Step::NidhoggScratch);
        } else {
            out.push(Step::LooseScratch);
        }
    }
    if elivagar {
        out.push(Step::Calibrands);
        out.push(Step::OceanBuild);
        if opts.archives {
            out.push(Step::Archives);
        }
    }
    if matches!(project, Project::Ratatoskr) {
        out.push(Step::RatatoskrRuns);
    } else if matches!(project, Project::Piners) {
        out.push(Step::PinersRuns);
    }
    if opts.worktrees {
        if elivagar {
            out.push(Step::Outputs);
        }
        out.push(Step::Worktrees);
    } else {
        out.push(Step::MentionWorktrees);
    }
    assert(out@ =~= steps_of(project, opts, scratch_exists));
    out
}

/// Whether a step removes what cannot be had again by running a command.
pub open spec fn is_deep(s: Step) -> bool {
    s is Archives || s is Outputs || s is Worktrees
}

/// A routine clean spares what is durable: the archives and the worktrees go only
/// where that is asked for.
pub proof fn routine_is_shallow(project: Project, opts: CleanOpts, scratch_exists: bool, i: int)
    requires
        !opts.worktrees,
        !opts.archives,
        0 <= i < steps_of(project, opts, scratch_exists).len(),
    ensures
        !is_deep(steps_of(project, opts, scratch_exists)[i]),
{
}

/// Whether a name in bytes ends in a dot and the extension, with something
/// before the dot.
pub open spec fn has_extension(name: Seq<u8>, ext: Seq<u8>) -> bool {
    let at = name.len() - ext.len() - 1;
    at >= 1 && name[at] == 46 && name.skip(at + 1) == ext && (forall|i: int|
        0 <= i < ext.len() ==> #[trigger] ext[i] != 46)
}

fn ends_in(name: &[u8], ext: &[u8]) -> (r: bool)
    requires
        forall|i: int| 0 <= i < ext@.len() ==> #[trigger] ext@[i] != 46,
        ext@.len() > 0,
    ensures
        r == has_extension(name@, ext@),
{
    let n: usize = name.len();
    let k: usize = ext.len();
    if n < 2 || n - 2 < k {
        return false;
    }
    let at: usize = n - k - 1;
    if name[at] != 46 {
        return false;
    }
    let mut i: usize = 0;
    while i < k
        invariant
            i <= k,
            k == ext@.len(),
            n == name@.len(),
            at + 1 + k == n,
            forall|j: int| 0 <= j < i ==> name@[at + 1 + j] == #[trigger] ext@[j],
        decreases k - i,
    {
        if name[at + 1 + i] != ext[i] {
            assert(name@.skip(at + 1)[i as int] != ext@[i as int]);
            return false;
        }
        i += 1;
    }
    assert(name@.skip(at + 1) =~= ext@);
    true
}

/// The extension of files of map data.
pub open spec fn pbf() -> Seq<u8> {
    seq![112u8, 98, 102]
}

/// The extension of archives of tiles.
pub open spec fn pmtiles() -> Seq<u8> {
    seq![112u8, 109, 116, 105, 108, 101, 115]
}

/// What of an entry of a scratch directory goes.
#[derive(Debug, Clone, Copy, PartialEq, Eq, Structural)]
pub struct Sweep {
    /// It goes as a file.
    pub file: bool,
    /// It goes as a directory of output.
    pub geocode: bool,
    /// It goes as the directory of a process, unless that is alive.
    pub owner: Option<i32>,
}

/// The process that a directory for joining belongs to.
pub open spec fn owner_of(name: Seq<char>) -> Option<i32> {
    match after_prefix(name, ".pbfhogg-external-join-"@) {
        Some(rest) => match read_int(rest, i32::MAX as nat) {
            Some(pid) => Some(pid as i32),
            None => None,
        },
        None => None,
    }
}

/// What of an entry of a scratch directory goes, by its name.
pub open spec fn sweep_of(name: Seq<u8>, is_dir: bool) -> Sweep {
    Sweep {
        file: has_extension(name, pbf()),
        geocode: is_dir && match text_in(name) {
            Some(t) => "geocode-"@.is_prefix_of(t),
            None => false,
        },
        owner: if is_dir {
            match text_in(name) {
                Some(t) => owner_of(t),
                None => None,
            }
        } else {
            None
        },
    }
}

/// Decides what of an entry of a scratch directory goes.
pub fn scratch_sweep(name: &FilePath, is_dir: bool) -> (r: Sweep)
    ensures
        r == sweep_of(name.bytes@, is_dir),
{
    let ext: [u8; 3] = [112, 98, 102];
    assert(ext@ =~= pbf());
    let file = ends_in(name.bytes.as_slice(), &ext);
    if !is_dir {
        return Sweep { file, geocode: false, owner: None };
    }
    match name.to_str() {
        None => Sweep { file, geocode: false, owner: None },
        Some(t) => {
            let geocode = starts_with(t.as_str(), "geocode-");
            let owner = match strip_prefix(t.as_str(), ".pbfhogg-external-join-") {
                Some(rest) => parse_i32(rest.as_str()),
                None => None,
            };
            Sweep { file, geocode, owner }
        },
    }
}

/// How many removals an entry counts for, once it is known whether its owner is
/// alive.
pub fn sweep_count(sweep: &Sweep, owner_alive: bool) -> (r: u32)
    ensures
        r == (if sweep.file { 1int } else { 0 }) + (if sweep.geocode { 1int } else { 0 }) + (if sweep.owner is Some && !owner_alive { 1int } else { 0 }),
{
    let mut n: u32 = 0;
    if sweep.file {
        n += 1;
    }
    if sweep.geocode {
        n += 1;
    }
    if sweep.owner.is_some() && !owner_alive {
        n += 1;
    }
    n
}

/// Whether a directory is the target of a build with flags of its own.
pub fn is_rustflags_dir(name: &str, is_dir: bool) -> (r: bool)
    ensures
        r == (is_dir && "rustflags-"@.is_prefix_of(name@)),
{
    is_dir && starts_with(name, "rustflags-")
}

/// Whether a directory holds a run of piners.
pub fn is_piners_run(name: &str, is_dir: bool) -> (r: bool)
    ensures
        r == (is_dir && "run-"@.is_prefix_of(name@)),
{
    is_dir && starts_with(name, "run-")
}

/// Whether a directory holds a numbered run.
pub open spec fn is_run_name(name: Seq<char>) -> bool {
    match after_prefix(name, "run-"@) {
        Some(rest) => read_nat(rest, u32::MAX as nat) is Some,
        None => false,
    }
}

/// Tests whether a directory holds a numbered run. Such a directory is counted;
/// any other is looked into.
pub fn is_run_dir(name: &FilePath) -> (r: bool)
    ensures
        r == match text_in(name.bytes@) {
            Some(t) => is_run_name(t),
            None => false,
        },
{
    match name.to_str() {
        None => false,
        Some(t) => match strip_prefix(t.as_str(), "run-") {
            Some(rest) => parse_u32(rest.as_str()).is_some(),
            None => false,
        },
    }
}

/// What the names of the archives of a dataset and variant start with.
pub fn archive_prefix(dataset: &str, variant: &str) -> (r: String)
    ensures
        r@ == dataset@ + "-"@ + variant@ + "-"@,
{
    let mut out = dataset.to_owned();
    out.append("-");
    out.append(variant);
    out.append("-");
    out
}

/// Whether a file is an archive of tiles.
pub fn is_output(name: &FilePath) -> (r: bool)
    ensures
        r == has_extension(name.bytes@, pmtiles()),
{
    let ext: [u8; 7] = [112, 109, 116, 105, 108, 101, 115];
    assert(ext@ =~= pmtiles());
    ends_in(name.bytes.as_slice(), &ext)
}

/// Whether a file is an archive whose name starts so.
pub open spec fn is_archive_of(name: Seq<u8>, prefix: Seq<char>) -> bool {
    has_extension(name, pmtiles()) && match text_in(name) {
        Some(t) => prefix.is_prefix_of(t),
        None => false,
    }
}

/// Tests whether a file is an archive whose name starts so.
pub fn is_archive(name: &FilePath, prefix: &str) -> (r: bool)
    ensures
        r == is_archive_of(name.bytes@, prefix@),
{
    is_output(name) && match name.to_str() {
        Some(t) => starts_with(t.as_str(), prefix),
        None => false,
    }
}

/// A file of the store: its name, and when it was last changed.
#[derive(Debug)]
pub struct StoreFile {
    pub name: FilePath,
    pub modified: i128,
}

/// The files of the store that are archives of the kind, newest first; of two of
/// the same time the one that was found first.
pub open spec fn newest_first(files: Seq<StoreFile>, prefix: Seq<char>) -> Seq<int>
    decreases files.len(),
{
    if files.len() == 0 {
        Seq::empty()
    } else {
        let before = newest_first(files.drop_last(), prefix);
        if is_archive_of(files.last().name.bytes@, prefix) {
            by_age(files, before, files.len() - 1)
        } else {
            before
        }
    }
}

/// A file put behind those that are not older.
pub open spec fn by_age(files: Seq<StoreFile>, order: Seq<int>, x: int) -> Seq<int>
    decreases order.len(),
{
    if order.len() == 0 || files[order.last()].modified >= files[x].modified {
        order.push(x)
    } else {
        by_age(files, order.drop_last(), x).push(order.last())
    }
}

/// The archives of the kind that go: all but the newest.
pub open spec fn pruned(files: Seq<StoreFile>, prefix: Seq<char>, keep: nat) -> Seq<int> {
    let all = newest_first(files, prefix);
    if all.len() <= keep {
        Seq::empty()
    } else {
        all.skip(keep as int)
    }
}

/// A list of places as numbers.
pub open spec fn places(v: Seq<usize>) -> Seq<int> {
    v.map_values(|i: usize| i as int)
}

proof fn aged_at(files: Seq<StoreFile>, order: Seq<int>, x: int, p: int)
    requires
        0 <= p <= order.len(),
        p > 0 ==> files[order[p - 1]].modified >= files[x].modified,
        forall|k: int|
            p <= k < order.len() ==> files[#[trigger] order[k]].modified < files[x].modified,
    ensures
        by_age(files, order, x) == order.insert(p, x),
    decreases order.len(),
{
    if p == order.len() {
        assert(order.insert(p, x) =~= order.push(x));
    } else {
        let front = order.drop_last();
        assert(files[order[order.len() - 1]].modified < files[x].modified);
        assert forall|k: int| p <= k < front.len() implies files[#[trigger] front[k]].modified
            < files[x].modified by {
            assert(front[k] == order[k]);
        }
        aged_at(files, front, x, p);
        assert(order.insert(p, x) =~= front.insert(p, x).push(order.last()));
    }
}

proof fn longer_store(files: Seq<StoreFile>, order: Seq<int>, x: int, n: int)
    requires
        0 <= x < n <= files.len(),
        forall|k: int| 0 <= k < order.len() ==> 0 <= #[trigger] order[k] < n,
    ensures
        by_age(files.take(n), order, x) == by_age(files, order, x),
    decreases order.len(),
{
    if order.len() > 0 {
        assert(0 <= order[order.len() - 1] < n);
        assert(files.take(n)[order.last()] == files[order.last()]);
        let front = order.drop_last();
        assert forall|k: int| 0 <= k < front.len() implies 0 <= #[trigger] front[k] < n by {
            assert(front[k] == order[k]);
        }
        longer_store(files, front, x, n);
    }
}

/// Chooses the archives of a kind that go: all but the newest, by their places
/// in the list of files.
pub fn prune(files: &[StoreFile], prefix: &str, keep: usize) -> (r: Vec<usize>)
    ensures
        places(r@) == pruned(files@, prefix@, keep as nat),
{
    let mut order: Vec<usize> = Vec::new();
    let mut i: usize = 0;
    let n: usize = files.len();
    assert(places(order@) =~= newest_first(files@.take(0), prefix@));
    while i < n
        invariant
            i <= n,
            n == files@.len(),
            order@.len() <= i,
            forall|k: int| 0 <= k < order@.len() ==> #[trigger] order@[k] < i,
            places(order@) == newest_first(files@.take(i as int), prefix@),
        decreases n - i,
    {
        let ghost before = order@;
        let ghost longer = files@.take(i + 1);
        proof {
            assert(longer.drop_last() =~= files@.take(i as int));
            assert(longer.last() == files@[i as int]);
        }
        if is_archive(&files[i].name, prefix) {
            let mut p: usize = order.len();
            while p > 0 && files[order[p - 1]].modified < files[i].modified
                invariant
                    p <= order@.len(),
                    order@ == before,
                    i < n,
                    n == files@.len(),
                    forall|k: int| 0 <= k < order@.len() ==> #[trigger] order@[k] < i,
                    forall|k: int|
                        p <= k < order@.len() ==> files@[#[trigger] order@[k] as int].modified
                            < files@[i as int].modified,
                decreases p,
            {
                p -= 1;
            }
            proof {
                let old_places = places(before);
                assert forall|k: int| p <= k < old_places.len() implies files@[
                    #[trigger] old_places[k]
                ].modified < files@[i as int].modified by {
                    assert(old_places[k] == before[k] as int);
                }
                if p > 0 {
                    assert(old_places[p - 1] == before[p - 1] as int);
                }
                aged_at(files@, old_places, i as int, p as int);
                assert forall|k: int| 0 <= k < old_places.len() implies 0
                    <= #[trigger] old_places[k] < i + 1 by {
                    assert(old_places[k] == before[k] as int);
                }
                longer_store(files@, old_places, i as int, i + 1);
            }
            order.insert(p, i);
            assert(places(order@) =~= places(before).insert(p as int, i as int));
        }
        i += 1;
    }
    assert(files@.take(i as int) =~= files@);
    let mut out: Vec<usize> = Vec::new();
    let mut k: usize = keep;
    let m: usize = order.len();
    if m <= keep {
        assert(places(out@) =~= Seq::empty());
        return out;
    }
    while k < m
        invariant
            keep <= k <= m,
            m == order@.len(),
            out@.len() == k - keep,
            forall|j: int| 0 <= j < k - keep ==> #[trigger] out@[j] == order@[keep + j],
        decreases m - k,
    {
        out.push(order[k]);
        k += 1;
    }
    assert(places(out@) =~= places(order@).skip(keep as int));
    out
}

proof fn aged_properties(files: Seq<StoreFile>, order: Seq<int>, x: int)
    requires
        forall|a: int, b: int|
            0 <= a <= b < order.len() ==> files[#[trigger] order[a]].modified
                >= files[#[trigger] order[b]].modified,
    ensures
        by_age(files, order, x).len() == order.len() + 1,
        forall|a: int, b: int|
            0 <= a <= b < order.len() + 1 ==> files[#[trigger] by_age(files, order, x)[a]].modified
                >= files[#[trigger] by_age(files, order, x)[b]].modified,
        forall|k: int|
            0 <= k < order.len() + 1 ==> #[trigger] by_age(files, order, x)[k] == x
                || order.contains(by_age(files, order, x)[k]),
        forall|k: int|
            0 <= k < order.len() + 1 ==> files[#[trigger] by_age(files, order, x)[k]].modified
                >= files[x].modified || (order.len() > 0 && files[by_age(
                files,
                order,
                x,
            )[k]].modified >= files[order.last()].modified),
    decreases order.len(),
{
    let all = by_age(files, order, x);
    if order.len() == 0 || files[order.last()].modified >= files[x].modified {
        assert forall|k: int| 0 <= k < order.len() + 1 implies #[trigger] all[k] == x
            || order.contains(all[k]) by {
            if k < order.len() {
                assert(all[k] == order[k]);
            }
        }
        assert forall|a: int, b: int| 0 <= a <= b < order.len() + 1 implies files[
            #[trigger] all[a]
        ].modified >= files[#[trigger] all[b]].modified by {
            if a < order.len() {
                assert(all[a] == order[a]);
                assert(files[order[a]].modified >= files[order[order.len() - 1]].modified);
            }
            if b < order.len() {
                assert(all[b] == order[b]);
            }
        }
        assert forall|k: int| 0 <= k < order.len() + 1 implies files[#[trigger] all[k]].modified
            >= files[x].modified || (order.len() > 0 && files[all[k]].modified
            >= files[order.last()].modified) by {
            if k < order.len() {
                assert(files[all[k]].modified >= files[all[order.len() as int]].modified);
            }
        }
    } else {
        let front = order.drop_last();
        let rest = by_age(files, front, x);
        assert forall|a: int, b: int| 0 <= a <= b < front.len() implies files[
            #[trigger] front[a]
        ].modified >= files[#[trigger] front[b]].modified by {
            assert(front[a] == order[a] && front[b] == order[b]);
        }
        aged_properties(files, front, x);
        let last = order.last();
        assert forall|k: int| 0 <= k < rest.len() implies files[#[trigger] rest[k]].modified
            >= files[last].modified by {
            if front.len() > 0 {
                assert(files[order[front.len() - 1]].modified
                    >= files[order[order.len() - 1]].modified);
            }
        }
        assert forall|k: int| 0 <= k < order.len() + 1 implies #[trigger] all[k] == x
            || order.contains(all[k]) by {
            if k < rest.len() {
                assert(all[k] == rest[k]);
                if rest[k] != x {
                    assert(front.contains(rest[k]));
                    let j = choose|j: int| 0 <= j < front.len() && front[j] == rest[k];
                    assert(order[j] == rest[k]);
                }
            } else {
                assert(order[order.len() - 1] == last);
            }
        }
        assert forall|a: int, b: int| 0 <= a <= b < order.len() + 1 implies files[
            #[trigger] all[a]
        ].modified >= files[#[trigger] all[b]].modified by {
            if b < rest.len() {
                assert(all[a] == rest[a] && all[b] == rest[b]);
            } else if a < rest.len() {
                assert(all[a] == rest[a]);
            }
        }
        assert forall|k: int| 0 <= k < order.len() + 1 implies files[#[trigger] all[k]].modified
            >= files[x].modified || (order.len() > 0 && files[all[k]].modified
            >= files[order.last()].modified) by {
            if k < rest.len() {
                assert(all[k] == rest[k]);
            }
        }
    }
}

/// Every file in the order is an archive of the kind, and the newer ones come
/// first.
pub proof fn order_is_by_age(files: Seq<StoreFile>, prefix: Seq<char>)
    ensures
        forall|k: int|
            0 <= k < newest_first(files, prefix).len() ==> 0 <= #[trigger] newest_first(
                files,
                prefix,
            )[k] < files.len() && is_archive_of(
                files[newest_first(files, prefix)[k]].name.bytes@,
                prefix,
            ),
        forall|a: int, b: int|
            0 <= a <= b < newest_first(files, prefix).len() ==> files[#[trigger] newest_first(
                files,
                prefix,
            )[a]].modified >= files[#[trigger] newest_first(files, prefix)[b]].modified,
    decreases files.len(),
{
    if files.len() > 0 {
        let front = files.drop_last();
        let before = newest_first(front, prefix);
        let all = newest_first(files, prefix);
        let x = files.len() - 1;
        order_is_by_age(front, prefix);
        assert forall|a: int, b: int| 0 <= a <= b < before.len() implies files[
            #[trigger] before[a]
        ].modified >= files[#[trigger] before[b]].modified by {
            assert(front[before[a]] == files[before[a]]);
            assert(front[before[b]] == files[before[b]]);
        }
        if is_archive_of(files.last().name.bytes@, prefix) {
            aged_properties(files, before, x);
            assert forall|k: int| 0 <= k < all.len() implies 0 <= #[trigger] all[k] < files.len()
                && is_archive_of(files[all[k]].name.bytes@, prefix) by {
                if all[k] != x {
                    assert(before.contains(all[k]));
                    let j = choose|j: int| 0 <= j < before.len() && before[j] == all[k];
                    assert(front[before[j]] == files[before[j]]);
                }
            }
        } else {
            assert forall|k: int| 0 <= k < all.len() implies 0 <= #[trigger] all[k] < files.len()
                && is_archive_of(files[all[k]].name.bytes@, prefix) by {
                assert(front[before[k]] == files[before[k]]);
            }
        }
    }
}

/// A file that is not an archive of the kind, by its name, is never pruned.
pub proof fn others_are_kept(files: Seq<StoreFile>, prefix: Seq<char>, keep: nat, i: int)
    requires
        0 <= i < files.len(),
        !is_archive_of(files[i].name.bytes@, prefix),
    ensures
        !pruned(files, prefix, keep).contains(i),
{
    order_is_by_age(files, prefix);
    let all = newest_first(files, prefix);
    if pruned(files, prefix, keep).contains(i) {
        let k = choose|k: int|
            0 <= k < pruned(files, prefix, keep).len() && pruned(files, prefix, keep)[k] == i;
        assert(all[keep + k] == i);
    }
}

/// No archive that is pruned is newer than one of the kind that is kept.
pub proof fn newest_are_kept(files: Seq<StoreFile>, prefix: Seq<char>, keep: nat, a: int, b: int)
    requires
        newest_first(files, prefix).len() > keep,
        0 <= a < keep,
        0 <= b < pruned(files, prefix, keep).len(),
    ensures
        files[newest_first(files, prefix)[a]].modified >= files[pruned(
            files,
            prefix,
            keep,
        )[b]].modified,
        pruned(files, prefix, keep).len() == newest_first(files, prefix).len() - keep,
{
    order_is_by_age(files, prefix);
    let all = newest_first(files, prefix);
    assert(pruned(files, prefix, keep)[b] == all[keep + b]);
}

/// The message on worktrees, none where they stay and there are none.
pub fn worktree_line(worktrees: bool, dry_run: bool, count: usize) -> (r: Option<String>)
    ensures
        worktrees ==> (r matches Some(t) && t@ == verb_text(dry_run) + " "@ + nat_text(
            count as nat,
        ) + " worktree(s)"@),
        !worktrees && count > 0 ==> (r matches Some(t) && t@ == nat_text(count as nat)
            + " persistent worktree(s); run `brokkr clean --worktrees` to remove"@),
        !worktrees && count == 0 ==> r is None,
{
    if worktrees {
        let c = Cleaner { dry_run };
        let mut out = c.verb().to_owned();
        out.append(" ");
        out.append(usize_text(count).as_str());
        out.append(" worktree(s)");
        return Some(out);
    }
    if count == 0 {
        return None;
    }
    let mut out = usize_text(count);
    out.append(" persistent worktree(s); run `brokkr clean --worktrees` to remove");
    Some(out)
}

/// The package whose builds are cleaned: the one that is named, that of the
/// project where none is, and none at all unless that is asked for.
pub fn cargo_package(all: bool, cargo: &Option<Option<String>>, project: Project) -> (r: Option<String>)
    ensures
        match (*cargo, all) {
            (Some(Some(p)), _) => r matches Some(t) && t@ == p@,
            (Some(None), _) => r matches Some(t) && t@ == project.name_text(),
            (None, true) => r matches Some(t) && t@ == project.name_text(),
            (None, false) => r is None,
        },
{
    match cargo {
        Some(pkg) => Some(clone_or(pkg, project.name())),
        None => if all {
            Some(project.name().to_owned())
        } else {
            None
        },
    }
}

/// What is said before the builds of a package are cleaned.
pub fn cargo_line(pkg: &str, dry_run: bool) -> (r: String)
    ensures
        r@ == (if dry_run {
            "would run cargo clean -p "@
        } else {
            "cargo clean -p "@
        }) + pkg@,
{
    let mut out = if dry_run {
        "would run cargo clean -p ".to_owned()
    } else {
        "cargo clean -p ".to_owned()
    };
    out.append(pkg);
    out
}

/// The last line of what a program wrote, without the space around it; none where
/// there is no line.
pub open spec fn last_line(text: Seq<char>) -> Option<Seq<char>> {
    let ls = lines_of(trimmed(text));
    if ls.len() == 0 || ls.last().len() == 0 {
        None
    } else {
        Some(trimmed(ls.last()))
    }
}

/// Takes the summary out of what cargo wrote.
pub fn clean_summary(stderr: &[u8]) -> (r: Option<String>)
    ensures
        match r {
            Some(t) => last_line(lossy(stderr@)) == Some(t@),
            None => last_line(lossy(stderr@)) is None,
        },
{
    let text = from_utf8_lossy(stderr);
    let ls = lines(trim(text.as_str()).as_str());
    let n: usize = ls.len();
    if n == 0 || ls[n - 1].as_str().unicode_len() == 0 {
        return None;
    }
    Some(trim(ls[n - 1].as_str()))
}

} // verus!
