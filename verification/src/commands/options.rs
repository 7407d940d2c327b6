//! From the options of a command line to what they mean.

use crate::error::{DevError, ErrorView};
use crate::lockfile::guard::{current_invocation_args, quoted_args};
use crate::measure::MeasureMode;
use crate::text::{halves, same, split_once, views};
use vstd::prelude::*;

verus! {

/// The build that two flags ask for: for development, for release, or as the
/// configuration says.
pub fn profile_override(debug: bool, release: bool) -> (r: Option<bool>)
    ensures
        debug ==> r == Some(true),
        !debug && release ==> r == Some(false),
        !debug && !release ==> r is None,
{
    if debug {
        Some(true)
    } else if release {
        Some(false)
    } else {
        None
    }
}

/// The first text of a list that has no equals sign.
pub open spec fn first_unpaired(pairs: Seq<Seq<char>>) -> Option<int>
    decreases pairs.len(),
{
    if pairs.len() == 0 {
        None
    } else {
        match first_unpaired(pairs.drop_last()) {
            Some(i) => Some(i),
            None => if halves(pairs.last(), '=') is None {
                Some(pairs.len() - 1)
            } else {
                None
            },
        }
    }
}

/// The contents of a list of settings.
pub open spec fn setting_views(v: Seq<(String, String)>) -> Seq<(Seq<char>, Seq<char>)> {
    v.map_values(|p: (String, String)| (p.0@, p.1@))
}

/// Splits settings at their first equals sign.
pub fn parse_env_overrides(pairs: &[String]) -> (r: Result<Vec<(String, String)>, DevError>)
    ensures
        match first_unpaired(views(pairs@)) {
            Some(i) => r matches Err(e) && e@ == ErrorView::Config(
                "--env expects KEY=VALUE, got '"@ + pairs@[i]@ + "'"@,
            ),
            None => r matches Ok(v) && v@.len() == pairs@.len() && forall|k: int|
                0 <= k < pairs@.len() ==> halves(pairs@[k]@, '=') == Some(
                    #[trigger] setting_views(v@)[k],
                ),
        },
{
    let mut out: Vec<(String, String)> = Vec::new();
    let mut i: usize = 0;
    let ghost all = views(pairs@);
    while i < pairs.len()
        invariant
            i <= pairs@.len(),
            all == views(pairs@),
            first_unpaired(all.take(i as int)) is None,
            out@.len() == i,
            forall|k: int|
                0 <= k < i ==> halves(pairs@[k]@, '=') == Some(#[trigger] setting_views(out@)[k]),
        decreases pairs@.len() - i,
    {
        let ghost before = out@;
        proof {
            assert(all.take(i + 1).drop_last() =~= all.take(i as int));
            assert(all.take(i + 1).last() == pairs@[i as int]@);
        }
        match split_once(pairs[i].as_str(), '=') {
            Some((k, v)) => {
                out.push((k, v));
                assert(setting_views(out@) =~= setting_views(before).push((k@, v@)));
            },
            None => {
                proof {
                    unpaired_stays(all, i as int);
                }
                let mut m = "--env expects KEY=VALUE, got '".to_owned();
                m.append(pairs[i].as_str());
                m.append("'");
                return Err(DevError::Config(m));
            },
        }
        i += 1;
    }
    assert(all.take(i as int) =~= all);
    Ok(out)
}

proof fn unpaired_stays(all: Seq<Seq<char>>, i: int)
    requires
        0 <= i < all.len(),
        first_unpaired(all.take(i + 1)) == Some(i),
    ensures
        first_unpaired(all) == Some(i),
    decreases all.len(),
{
    if all.len() == i + 1 {
        assert(all.take(i + 1) =~= all);
    } else {
        assert(all.drop_last().take(i + 1) =~= all.take(i + 1));
        unpaired_stays(all.drop_last(), i);
    }
}

/// Whether a list has the text.
pub open spec fn has_text(list: Seq<Seq<char>>, x: Seq<char>) -> bool {
    exists|i: int| 0 <= i < list.len() && #[trigger] list[i] == x
}

/// A list with those of another behind it that it does not have yet.
pub open spec fn merged(list: Seq<Seq<char>>, more: Seq<Seq<char>>) -> Seq<Seq<char>>
    decreases more.len(),
{
    if more.len() == 0 {
        list
    } else {
        let before = merged(list, more.drop_last());
        if has_text(before, more.last()) {
            before
        } else {
            before.push(more.last())
        }
    }
}

/// The features of a build: those of the host first, then those asked for, each
/// where it comes first and nowhere else.
pub open spec fn features_of(host: Seq<Seq<char>>, asked: Seq<Seq<char>>) -> Seq<Seq<char>> {
    merged(merged(Seq::empty(), host), asked)
}

fn holds_text(list: &[String], x: &str) -> (r: bool)
    ensures
        r == has_text(views(list@), x@),
{
    let mut i: usize = 0;
    while i < list.len()
        invariant
            i <= list@.len(),
            forall|k: int| 0 <= k < i ==> (#[trigger] views(list@)[k]) != x@,
        decreases list@.len() - i,
    {
        assert(views(list@)[i as int] == list@[i as int]@);
        if same(list[i].as_str(), x) {
            return true;
        }
        i += 1;
    }
    false
}

fn merge_into(out: &mut Vec<String>, more: &[String])
    ensures
        views(final(out)@) == merged(views(old(out)@), views(more@)),
{
    let ghost start = views(out@);
    let ghost all = views(more@);
    let mut i: usize = 0;
    assert(all.take(0) =~= Seq::empty());
    while i < more.len()
        invariant
            i <= more@.len(),
            all == views(more@),
            views(out@) == merged(start, all.take(i as int)),
        decreases more@.len() - i,
    {
        let ghost before = out@;
        assert(all.take(i + 1).drop_last() =~= all.take(i as int));
        assert(all.take(i + 1).last() == more@[i as int]@);
        if !holds_text(out, more[i].as_str()) {
            out.push(more[i].clone());
            assert(views(out@) =~= views(before).push(more@[i as int]@));
        }
        i += 1;
    }
    assert(all.take(i as int) =~= all);
}

/// Merges the features of the host with those asked for: each comes once, the
/// host's before the others.
pub fn resolve_features(host_features: &[String], cli_features: &[String]) -> (r: Vec<String>)
    ensures
        views(r@) == features_of(views(host_features@), views(cli_features@)),
        views(r@).no_duplicates(),
        forall|x: Seq<char>|
            #[trigger] has_text(views(r@), x) <==> has_text(views(host_features@), x) || has_text(
                views(cli_features@),
                x,
            ),
{
    let mut out: Vec<String> = Vec::new();
    assert(views(out@) =~= Seq::empty());
    merge_into(&mut out, host_features);
    merge_into(&mut out, cli_features);
    proof {
        features_are_complete(views(host_features@), views(cli_features@));
    }
    out
}

/// Merging loses no feature, adds none that was not asked for, keeps the host's
/// at the front, and repeats none that the host does not repeat.
pub proof fn merged_is_complete(host: Seq<Seq<char>>, asked: Seq<Seq<char>>)
    ensures
        host.is_prefix_of(merged(host, asked)),
        forall|x: Seq<char>|
            #[trigger] has_text(merged(host, asked), x) <==> has_text(host, x) || has_text(asked, x),
        host.no_duplicates() ==> merged(host, asked).no_duplicates(),
    decreases asked.len(),
{
    let all = merged(host, asked);
    if asked.len() > 0 {
        let rest = asked.drop_last();
        let before = merged(host, rest);
        merged_is_complete(host, rest);
        assert forall|x: Seq<char>| #[trigger] has_text(all, x) <==> has_text(host, x) || has_text(
            asked,
            x,
        ) by {
            had_by_longer(rest, asked.last(), x);
            assert(asked =~= rest.push(asked.last()));
            if !has_text(before, asked.last()) {
                had_by_longer(before, asked.last(), x);
            }
        }
        if host.no_duplicates() && !has_text(before, asked.last()) {
            assert forall|i: int, j: int|
                0 <= i < all.len() && 0 <= j < all.len() && i != j implies all[i] != all[j] by {
                assert(i < before.len() ==> all[i] == before[i]);
                assert(j < before.len() ==> all[j] == before[j]);
            }
        }
    }
}

/// Resolving the features loses none, adds none that was not there, repeats none,
/// and puts the host's, in their order, before the others.
pub proof fn features_are_complete(host: Seq<Seq<char>>, asked: Seq<Seq<char>>)
    ensures
        features_of(host, asked).no_duplicates(),
        forall|x: Seq<char>|
            #[trigger] has_text(features_of(host, asked), x) <==> has_text(host, x) || has_text(
                asked,
                x,
            ),
        merged(Seq::empty(), host).is_prefix_of(features_of(host, asked)),
        host.no_duplicates() ==> host.is_prefix_of(features_of(host, asked)),
{
    let first = merged(Seq::empty(), host);
    merged_is_complete(Seq::empty(), host);
    merged_is_complete(first, asked);
    if host.no_duplicates() {
        merged_from_nothing(host);
    }
}

/// A list without repetition is merged into nothing as it stands.
proof fn merged_from_nothing(list: Seq<Seq<char>>)
    requires
        list.no_duplicates(),
    ensures
        merged(Seq::empty(), list) == list,
    decreases list.len(),
{
    if list.len() > 0 {
        merged_from_nothing(list.drop_last());
        assert(list =~= list.drop_last().push(list.last()));
    } else {
        assert(list =~= Seq::empty());
    }
}

proof fn had_by_longer(list: Seq<Seq<char>>, y: Seq<char>, x: Seq<char>)
    ensures
        has_text(list.push(y), x) <==> has_text(list, x) || x == y,
{
    let long = list.push(y);
    if has_text(long, x) {
        let i = choose|i: int| 0 <= i < long.len() && #[trigger] long[i] == x;
        if i < list.len() {
            assert(list[i] == x);
        }
    }
    if has_text(list, x) {
        let i = choose|i: int| 0 <= i < list.len() && #[trigger] list[i] == x;
        assert(long[i] == x);
    }
    if x == y {
        assert(long[list.len() as int] == x);
    }
}

/// The options by which a command is measured: how many runs each asks for.
#[derive(Debug, Clone, Copy)]
pub struct ModeArgs {
    pub bench: Option<usize>,
    pub hotpath: Option<usize>,
    pub alloc: Option<usize>,
}

impl ModeArgs {
    /// How many of the options are set.
    pub open spec fn count(self) -> int {
        (if self.bench is Some { 1int } else { 0 }) + (if self.hotpath is Some { 1int } else { 0 }) + (if self.alloc is Some { 1int } else { 0 })
    }

    /// The mode that the options name, taken one after the other.
    pub open spec fn mode(self) -> MeasureMode {
        match (self.bench, self.hotpath, self.alloc) {
            (Some(runs), _, _) => MeasureMode::Bench { runs },
            (None, Some(runs), _) => MeasureMode::Hotpath { runs },
            (None, None, Some(runs)) => MeasureMode::Alloc { runs },
            (None, None, None) => MeasureMode::Run,
        }
    }

    /// Whether the command is measured at all.
    pub fn is_measured(&self) -> (r: bool)
        ensures
            r == (self.count() > 0),
    {
        self.bench.is_some() || self.hotpath.is_some() || self.alloc.is_some()
    }
}

/// Decides the mode: at most one of the options, and at least one run.
pub fn resolve_mode(mode: &ModeArgs) -> (r: Result<MeasureMode, DevError>)
    ensures
        mode.count() > 1 ==> (r matches Err(e) && e@ == ErrorView::Config(
            "--bench, --hotpath, and --alloc are mutually exclusive"@,
        )),
        mode.count() <= 1 && mode.mode().runs_of() == 0 ==> (r matches Err(e) && e@
            == ErrorView::Config("run count must be >= 1"@)),
        mode.count() <= 1 && mode.mode().runs_of() > 0 ==> r == Ok::<MeasureMode, DevError>(
            mode.mode(),
        ),
{
    let mut set_count: u8 = 0;
    if mode.bench.is_some() {
        set_count += 1;
    }
    if mode.hotpath.is_some() {
        set_count += 1;
    }
    if mode.alloc.is_some() {
        set_count += 1;
    }
    if set_count > 1 {
        return Err(
            DevError::Config("--bench, --hotpath, and --alloc are mutually exclusive".to_owned()),
        );
    }
    let result = if let Some(runs) = mode.bench {
        MeasureMode::Bench { runs }
    } else if let Some(runs) = mode.hotpath {
        MeasureMode::Hotpath { runs }
    } else if let Some(runs) = mode.alloc {
        MeasureMode::Alloc { runs }
    } else {
        MeasureMode::Run
    };
    if result.runs() == 0 {
        return Err(DevError::Config("run count must be >= 1".to_owned()));
    }
    Ok(result)
}

/// The options of a profile of sluggrs: where none is set, times by function in
/// one run.
pub fn hotpath_mode(mode: ModeArgs) -> (r: ModeArgs)
    ensures
        mode.count() > 0 ==> r == mode,
        mode.count() == 0 ==> r == (ModeArgs { bench: None, hotpath: Some(1), alloc: None }),
{
    if mode.is_measured() {
        mode
    } else {
        ModeArgs { bench: None, hotpath: Some(1), alloc: None }
    }
}

/// Writes down the command line of the tool itself, each element quoted where it
/// needs to be, so that the elements can be told apart.
pub fn capture_brokkr_args(argv: &[String]) -> (r: String)
    ensures
        r@ == quoted_args(views(argv@)),
{
    current_invocation_args(argv)
}

/// The code that the tool ends with.
pub fn exit_code(result: &Result<(), DevError>) -> (r: i32)
    ensures
        r == match *result {
            Ok(_) => 0i32,
            Err(DevError::ExitCode(code)) => code,
            Err(DevError::Interrupted) => 130,
            Err(_) => 1,
        },
{
    match result {
        Ok(_) => 0,
        Err(DevError::ExitCode(code)) => *code,
        Err(DevError::Interrupted) => 130,
        Err(_) => 1,
    }
}

} // verus!
