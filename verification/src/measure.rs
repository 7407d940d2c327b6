//! What a command is asked to measure, and with which files.

use crate::error::{DevError, ErrorView};
use crate::harness::command_line::{hotpath_feature, str_views};
use crate::path::{base_text, joined_bytes, text_in, FilePath};
use crate::project::Project;
use crate::text::{opt_str, same, views};
use vstd::prelude::*;
use vstd::utf8::encode_utf8;

verus! {

/// How to measure.
#[derive(Debug, Clone, Copy, PartialEq, Eq, Structural)]
pub enum MeasureMode {
    /// Run once and print the time.
    Run,
    /// The best of so many runs, stored.
    Bench { runs: usize },
    /// Times by function.
    Hotpath { runs: usize },
    /// Allocations by function.
    Alloc { runs: usize },
}

impl MeasureMode {
    /// The number of runs.
    pub open spec fn runs_of(self) -> usize {
        match self {
            MeasureMode::Run => 1,
            MeasureMode::Bench { runs } => runs,
            MeasureMode::Hotpath { runs } => runs,
            MeasureMode::Alloc { runs } => runs,
        }
    }

    /// Counts the runs.
    pub fn runs(self) -> (r: usize)
        ensures
            r == self.runs_of(),
    {
        match self {
            MeasureMode::Run => 1,
            MeasureMode::Bench { runs } => runs,
            MeasureMode::Hotpath { runs } => runs,
            MeasureMode::Alloc { runs } => runs,
        }
    }
}

/// A request to measure: where, what, how it is built, and how it is measured.
pub struct MeasureRequest<'a> {
    pub project: Project,
    pub project_root: &'a FilePath,
    /// Another tree to build in, for measuring older commits.
    pub build_root: Option<&'a FilePath>,
    pub dataset: &'a str,
    pub variant: &'a str,
    pub features: &'a [String],
    /// Measure also where files have changed.
    pub force: bool,
    pub mode: MeasureMode,
    /// The command line of brokkr itself.
    pub brokkr_args: &'a str,
    pub no_mem_check: bool,
    pub wait: bool,
    pub dry_run: bool,
    /// Stop the program at this marker.
    pub stop_marker: Option<&'a str>,
}

impl<'a> MeasureRequest<'a> {
    /// Counts the runs.
    pub fn runs(&self) -> (r: usize)
        ensures
            r == self.mode.runs_of(),
    {
        self.mode.runs()
    }

    /// Whether allocations are measured.
    pub fn is_alloc(&self) -> (r: bool)
        ensures
            r == (self.mode is Alloc),
    {
        matches!(self.mode, MeasureMode::Alloc { .. })
    }

    /// The mode under which results are stored; none for a plain run, which
    /// stores nothing.
    pub fn variant_mode(&self) -> (r: Option<&'static str>)
        ensures
            opt_str(r) == match self.mode {
                MeasureMode::Run => None,
                MeasureMode::Bench { .. } => Some("bench"@),
                MeasureMode::Hotpath { .. } => Some("hotpath"@),
                MeasureMode::Alloc { .. } => Some("alloc"@),
            },
    {
        match self.mode {
            MeasureMode::Run => None,
            MeasureMode::Bench { .. } => Some("bench"),
            MeasureMode::Hotpath { .. } => Some("hotpath"),
            MeasureMode::Alloc { .. } => Some("alloc"),
        }
    }

    /// The features of the request.
    pub fn feat_refs(&self) -> (r: Vec<&str>)
        ensures
            str_views(r@) == views(self.features@),
    {
        let mut out: Vec<&str> = Vec::new();
        let mut i: usize = 0;
        while i < self.features.len()
            invariant
                i <= self.features@.len(),
                out@.len() == i,
                forall|k: int| 0 <= k < i ==> (#[trigger] out@[k])@ == self.features@[k]@,
            decreases self.features@.len() - i,
        {
            out.push(self.features[i].as_str());
            i += 1;
        }
        assert(str_views(out@) =~= views(self.features@));
        out
    }

    /// The features of a build that is profiled: the one for profiling, then
    /// those of the request.
    pub fn hotpath_features(&self) -> (r: Vec<&str>)
        ensures
            str_views(r@) == seq![
                if self.mode is Alloc {
                    "hotpath-alloc"@
                } else {
                    "hotpath"@
                },
            ] + views(self.features@),
    {
        let ghost all = views(self.features@);
        let mut out: Vec<&str> = Vec::new();
        let feature = hotpath_feature(self.is_alloc());
        out.push(feature);
        let mut i: usize = 0;
        assert(str_views(out@) =~= seq![feature@] + all.take(0));
        while i < self.features.len()
            invariant
                i <= self.features@.len(),
                all == views(self.features@),
                str_views(out@) == seq![feature@] + all.take(i as int),
            decreases self.features@.len() - i,
        {
            let ghost before = str_views(out@);
            let f = self.features[i].as_str();
            out.push(f);
            assert(str_views(out@) =~= before.push(f@));
            i += 1;
            assert(str_views(out@) =~= seq![feature@] + all.take(i as int));
        }
        assert(all.take(i as int) =~= all);
        out
    }

    /// Where the build takes place: the other tree where there is one, else the
    /// root of the project.
    pub fn effective_build_root(&self) -> (r: &FilePath)
        ensures
            r == match self.build_root {
                Some(b) => b,
                None => self.project_root,
            },
    {
        match self.build_root {
            Some(b) => b,
            None => self.project_root,
        }
    }
}

/// Everything that a command needs to make its argument list.
pub struct CommandContext {
    pub binary: FilePath,
    pub pbf_path: FilePath,
    pub osc_path: Option<FilePath>,
    /// All change files, the oldest first.
    pub osc_paths: Vec<FilePath>,
    /// The second file of a comparison.
    pub pbf_b_path: Option<FilePath>,
    pub scratch_dir: FilePath,
    pub dataset: String,
    pub bbox: Option<String>,
    /// Settings of the command, no name twice.
    pub params: Vec<(String, String)>,
}

/// Whether the path is the text, or the error says that it is none.
pub open spec fn is_path_text(
    r: Result<String, DevError>,
    bytes: Seq<u8>,
    error: Seq<char>,
) -> bool {
    match text_in(bytes) {
        Some(t) => r matches Ok(s) && s@ == t,
        None => r matches Err(e) && e@ == ErrorView::Config(error),
    }
}

fn path_text(path: &FilePath, error: &str) -> (r: Result<String, DevError>)
    ensures
        is_path_text(r, path.bytes@, error@),
{
    match path.to_str() {
        Some(t) => Ok(t),
        None => Err(DevError::Config(error.to_owned())),
    }
}

/// The texts of some paths, where all are valid.
pub open spec fn path_texts(paths: Seq<FilePath>) -> Option<Seq<Seq<char>>>
    decreases paths.len(),
{
    if paths.len() == 0 {
        Some(Seq::empty())
    } else {
        match (path_texts(paths.drop_last()), text_in(paths.last().bytes@)) {
            (Some(before), Some(t)) => Some(before.push(t)),
            _ => None,
        }
    }
}

proof fn path_texts_fail(paths: Seq<FilePath>, k: int)
    requires
        0 <= k <= paths.len(),
        path_texts(paths.take(k)) is None,
    ensures
        path_texts(paths) is None,
    decreases paths.len() - k,
{
    if k < paths.len() {
        assert(paths.take(k + 1).drop_last() =~= paths.take(k));
        path_texts_fail(paths, k + 1);
    } else {
        assert(paths.take(k) =~= paths);
    }
}

/// The value of a setting.
pub open spec fn setting(params: Seq<(String, String)>, key: Seq<char>) -> Option<Seq<char>>
    decreases params.len(),
{
    if params.len() == 0 {
        None
    } else if params[0].0@ == key {
        Some(params[0].1@)
    } else {
        setting(params.skip(1), key)
    }
}

impl CommandContext {
    /// Whether no setting is there twice.
    pub open spec fn wf(&self) -> bool {
        forall|i: int, j: int|
            0 <= i < j < self.params@.len() ==> (#[trigger] self.params@[i]).0@ != (
            #[trigger] self.params@[j]).0@
    }

    /// The input file as text.
    pub fn pbf_str(&self) -> (r: Result<String, DevError>)
        ensures
            is_path_text(r, self.pbf_path.bytes@, "PBF path is not valid UTF-8"@),
    {
        path_text(&self.pbf_path, "PBF path is not valid UTF-8")
    }

    /// The change file as text.
    pub fn osc_str(&self) -> (r: Result<String, DevError>)
        ensures
            match self.osc_path {
                Some(p) => is_path_text(r, p.bytes@, "OSC path is not valid UTF-8"@),
                None => r matches Err(e) && e@ == ErrorView::Config(
                    "OSC path is required but not set"@,
                ),
            },
    {
        match &self.osc_path {
            Some(p) => path_text(p, "OSC path is not valid UTF-8"),
            None => Err(DevError::Config("OSC path is required but not set".to_owned())),
        }
    }

    /// All change files as texts; there must be one.
    pub fn osc_strs(&self) -> (r: Result<Vec<String>, DevError>)
        ensures
            self.osc_paths@.len() == 0 ==> (r matches Err(e) && e@ == ErrorView::Config(
                "OSC paths are required but not set"@,
            )),
            self.osc_paths@.len() > 0 ==> match path_texts(self.osc_paths@) {
                Some(ts) => r matches Ok(v) && views(v@) == ts,
                None => r matches Err(e) && e@ == ErrorView::Config(
                    "OSC path is not valid UTF-8"@,
                ),
            },
    {
        if self.osc_paths.len() == 0 {
            return Err(DevError::Config("OSC paths are required but not set".to_owned()));
        }
        let ghost all = self.osc_paths@;
        let mut out: Vec<String> = Vec::new();
        let mut i: usize = 0;
        assert(views(out@) =~= Seq::empty());
        while i < self.osc_paths.len()
            invariant
                i <= self.osc_paths@.len(),
                all == self.osc_paths@,
                all.len() > 0,
                path_texts(all.take(i as int)) == Some(views(out@)),
            decreases self.osc_paths@.len() - i,
        {
            assert(all.take(i + 1).drop_last() =~= all.take(i as int));
            let ghost before = views(out@);
            match path_text(&self.osc_paths[i], "OSC path is not valid UTF-8") {
                Ok(t) => {
                    out.push(t);
                    assert(views(out@) =~= before.push(t@));
                },
                Err(e) => {
                    proof {
                        path_texts_fail(all, i + 1);
                    }
                    return Err(e);
                },
            }
            i += 1;
        }
        assert(all.take(i as int) =~= all);
        Ok(out)
    }

    /// The second file of a comparison as text.
    pub fn pbf_b_str(&self) -> (r: Result<String, DevError>)
        ensures
            match self.pbf_b_path {
                Some(p) => is_path_text(r, p.bytes@, "B-side PBF path is not valid UTF-8"@),
                None => r matches Err(e) && e@ == ErrorView::Config(
                    "B-side PBF path is required but not set"@,
                ),
            },
    {
        match &self.pbf_b_path {
            Some(p) => path_text(p, "B-side PBF path is not valid UTF-8"),
            None => Err(DevError::Config("B-side PBF path is required but not set".to_owned())),
        }
    }

    /// The binary as text.
    pub fn binary_str(&self) -> (r: Result<String, DevError>)
        ensures
            is_path_text(r, self.binary.bytes@, "binary path is not valid UTF-8"@),
    {
        path_text(&self.binary, "binary path is not valid UTF-8")
    }

    /// Looks up a setting.
    pub fn param(&self, key: &str) -> (r: Option<&str>)
        ensures
            opt_str(r) == setting(self.params@, key@),
    {
        let ghost all = self.params@;
        let mut i: usize = 0;
        assert(all.skip(0) =~= all);
        while i < self.params.len()
            invariant
                i <= self.params@.len(),
                all == self.params@,
                setting(all, key@) == setting(all.skip(i as int), key@),
            decreases self.params@.len() - i,
        {
            assert(all.skip(i as int)[0] == self.params@[i as int]);
            assert(all.skip(i as int).skip(1) =~= all.skip(i + 1));
            if same(self.params[i].0.as_str(), key) {
                return Some(self.params[i].1.as_str());
            }
            i += 1;
        }
        None
    }

    /// Changes a setting, or adds it.
    pub fn set_param(&mut self, key: &str, value: &str)
        requires
            old(self).wf(),
        ensures
            final(self).wf(),
            setting(final(self).params@, key@) == Some(value@),
            forall|other: Seq<char>|
                other != key@ ==> #[trigger] setting(final(self).params@, other) == setting(
                    old(self).params@,
                    other,
                ),
            *final(self) == (CommandContext { params: final(self).params, ..*old(self) }),
    {
        let ghost all = self.params@;
        let mut i: usize = 0;
        while i < self.params.len()
            invariant
                i <= self.params@.len(),
                *self == *old(self),
                all == self.params@,
                self.wf(),
                forall|k: int| 0 <= k < i ==> (#[trigger] all[k]).0@ != key@,
            decreases self.params@.len() - i,
        {
            if same(self.params[i].0.as_str(), key) {
                let name = self.params[i].0.clone();
                self.params.set(i, (name, value.to_owned()));
                proof {
                    setting_at(self.params@, key@, i as int);
                    assert forall|other: Seq<char>| other != key@ implies #[trigger] setting(
                        self.params@,
                        other,
                    ) == setting(all, other) by {
                        setting_elsewhere(all, self.params@, i as int, other);
                    }
                }
                return ;
            }
            i += 1;
        }
        self.params.push((key.to_owned(), value.to_owned()));
        proof {
            setting_at(self.params@, key@, all.len() as int);
            assert forall|other: Seq<char>| other != key@ implies #[trigger] setting(
                self.params@,
                other,
            ) == setting(all, other) by {
                setting_pushed(all, self.params@.last(), other);
                assert(self.params@ =~= all.push(self.params@.last()));
            }
        }
    }

    /// An output file in the scratch directory.
    pub fn scratch_output(&self, name: &str, ext: &str) -> (r: FilePath)
        ensures
            r.bytes@ == joined_bytes(self.scratch_dir.bytes@, encode_utf8(name@ + "."@ + ext@)),
    {
        let mut file = name.to_owned();
        file.append(".");
        file.append(ext);
        self.scratch_dir.join(file.as_str())
    }

    /// The name of the input file without its directories.
    pub fn pbf_basename(&self) -> (r: String)
        ensures
            r@ == base_text(self.pbf_path.bytes@),
    {
        self.pbf_path.base_name()
    }
}

proof fn setting_at(params: Seq<(String, String)>, key: Seq<char>, i: int)
    requires
        0 <= i < params.len(),
        params[i].0@ == key,
        forall|k: int| 0 <= k < i ==> (#[trigger] params[k]).0@ != key,
    ensures
        setting(params, key) == Some(params[i].1@),
    decreases params.len(),
{
    if i > 0 {
        let rest = params.skip(1);
        assert(params[0].0@ != key);
        assert forall|k: int| 0 <= k < i - 1 implies (#[trigger] rest[k]).0@ != key by {
            assert(rest[k] == params[k + 1]);
        }
        setting_at(rest, key, i - 1);
    }
}

proof fn setting_elsewhere(
    a: Seq<(String, String)>,
    b: Seq<(String, String)>,
    i: int,
    other: Seq<char>,
)
    requires
        0 <= i < a.len(),
        a.len() == b.len(),
        forall|k: int| 0 <= k < a.len() && k != i ==> #[trigger] a[k] == b[k],
        a[i].0@ == b[i].0@,
        a[i].0@ != other,
    ensures
        setting(a, other) == setting(b, other),
    decreases a.len(),
{
    let ra = a.skip(1);
    let rb = b.skip(1);
    if i > 0 {
        assert(a[0] == b[0]);
        assert forall|k: int| 0 <= k < ra.len() && k != i - 1 implies #[trigger] ra[k] == rb[k] by {
            assert(a[k + 1] == b[k + 1]);
        }
        setting_elsewhere(ra, rb, i - 1, other);
    } else {
        assert forall|k: int| 0 <= k < ra.len() implies #[trigger] ra[k] == rb[k] by {
            assert(a[k + 1] == b[k + 1]);
        }
        assert(ra =~= rb);
    }
}

proof fn setting_pushed(a: Seq<(String, String)>, p: (String, String), other: Seq<char>)
    requires
        p.0@ != other,
    ensures
        setting(a.push(p), other) == setting(a, other),
    decreases a.len(),
{
    if a.len() > 0 {
        setting_pushed(a.skip(1), p, other);
        assert(a.push(p).skip(1) =~= a.skip(1).push(p));
    } else {
        assert(a.push(p).skip(1) =~= Seq::empty());
        assert(setting(a.push(p).skip(1), other) is None);
    }
}

/// The value of a setting is that of the first pair with its name.
pub proof fn first_setting_counts(params: Seq<(String, String)>, key: Seq<char>, i: int)
    requires
        0 <= i <= params.len(),
        i < params.len() ==> params[i].0@ == key,
        forall|k: int| 0 <= k < i ==> (#[trigger] params[k]).0@ != key,
    ensures
        setting(params, key) == (if i < params.len() {
            Some(params[i].1@)
        } else {
            None
        }),
    decreases params.len(),
{
    if params.len() > 0 && i > 0 {
        assert(params[0].0@ != key);
        let rest = params.skip(1);
        assert forall|k: int| 0 <= k < i - 1 implies (#[trigger] rest[k]).0@ != key by {
            assert(rest[k] == params[k + 1]);
        }
        first_setting_counts(rest, key, i - 1);
    }
}

/// The texts of paths are those of each of them, and there are none where one is
/// no text.
pub proof fn texts_are_of_each_path(paths: Seq<FilePath>)
    ensures
        path_texts(paths) is Some <==> forall|i: int|
            0 <= i < paths.len() ==> text_in((#[trigger] paths[i]).bytes@) is Some,
        path_texts(paths) matches Some(t) ==> t.len() == paths.len() && forall|i: int|
            0 <= i < paths.len() ==> Some(t[i]) == text_in((#[trigger] paths[i]).bytes@),
    decreases paths.len(),
{
    if paths.len() > 0 {
        let front = paths.drop_last();
        texts_are_of_each_path(front);
        assert(forall|i: int| 0 <= i < front.len() ==> #[trigger] paths[i] == front[i]);
        assert(paths[paths.len() - 1] == paths.last());
        if forall|i: int| 0 <= i < paths.len() ==> text_in((#[trigger] paths[i]).bytes@) is Some {
            assert forall|i: int| 0 <= i < front.len() implies text_in(
                (#[trigger] front[i]).bytes@,
            ) is Some by {
                assert(text_in(paths[i].bytes@) is Some);
            }
        }
        if path_texts(paths) is Some {
            assert forall|i: int| 0 <= i < paths.len() implies Some(path_texts(paths)->0[i])
                == text_in((#[trigger] paths[i]).bytes@) by {
                if i < front.len() {
                    assert(Some(path_texts(front)->0[i]) == text_in(front[i].bytes@));
                }
            }
            assert forall|i: int| 0 <= i < paths.len() implies text_in(
                (#[trigger] paths[i]).bytes@,
            ) is Some by {
                assert(Some(path_texts(paths)->0[i]) == text_in(paths[i].bytes@));
            }
        }
    }
}

} // verus!
