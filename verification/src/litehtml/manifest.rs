//! The fixtures of a project: pages that are rendered and compared.

use crate::number::double::Double;
use crate::path::{name_in, FilePath};
use crate::text::same;
use vstd::prelude::*;
use vstd::utf8::encode_utf8;

verus! {

/// What holds for every fixture that says nothing else.
#[derive(Debug)]
pub struct Defaults {
    pub viewport_width: u32,
    pub mode: String,
    pub pixel_diff_threshold: Double,
    pub element_match_threshold: Double,
    /// The ratio of an image's sides where it is not known.
    pub fallback_aspect_ratio: Option<Double>,
}

/// A page that is rendered and compared.
#[derive(Debug)]
pub struct FixtureEntry {
    pub id: String,
    pub path: String,
    pub tags: Vec<String>,
    pub viewport_width: Option<u32>,
    pub mode: Option<String>,
    pub pixel_diff_threshold: Option<Double>,
    pub element_match_threshold: Option<Double>,
    pub expected: String,
    pub waive_element_threshold: bool,
    pub notes: Option<String>,
}

impl FixtureEntry {
    /// How much of the pixels may differ.
    pub fn resolved_pixel_threshold(&self, defaults: &Defaults) -> (r: Double)
        ensures
            r == match self.pixel_diff_threshold {
                Some(t) => t,
                None => defaults.pixel_diff_threshold,
            },
    {
        match self.pixel_diff_threshold {
            Some(t) => t,
            None => defaults.pixel_diff_threshold,
        }
    }

    /// How much of the elements must match.
    pub fn resolved_element_threshold(&self, defaults: &Defaults) -> (r: Double)
        ensures
            r == match self.element_match_threshold {
                Some(t) => t,
                None => defaults.element_match_threshold,
            },
    {
        match self.element_match_threshold {
            Some(t) => t,
            None => defaults.element_match_threshold,
        }
    }

    /// How much of the elements must match, unless the fixture waives it.
    pub fn element_threshold(&self, defaults: &Defaults) -> (r: Option<Double>)
        ensures
            self.waive_element_threshold ==> r is None,
            !self.waive_element_threshold ==> r == Some(
                match self.element_match_threshold {
                    Some(t) => t,
                    None => defaults.element_match_threshold,
                },
            ),
    {
        if self.waive_element_threshold {
            None
        } else {
            Some(self.resolved_element_threshold(defaults))
        }
    }
}

/// Whether a fixture has the tag.
pub open spec fn has_tag(f: FixtureEntry, tag: Seq<char>) -> bool {
    exists|i: int| 0 <= i < f.tags@.len() && (#[trigger] f.tags@[i])@ == tag
}

/// The fixtures with the tag.
pub open spec fn tagged(fs: Seq<FixtureEntry>, tag: Seq<char>) -> Seq<FixtureEntry>
    decreases fs.len(),
{
    if fs.len() == 0 {
        Seq::empty()
    } else if has_tag(fs.last(), tag) {
        tagged(fs.drop_last(), tag).push(fs.last())
    } else {
        tagged(fs.drop_last(), tag)
    }
}

/// The fixtures that a list refers to.
pub open spec fn entries(v: Seq<&FixtureEntry>) -> Seq<FixtureEntry> {
    v.map_values(|f: &FixtureEntry| *f)
}

/// The index of the first fixture with the id, from `i` on.
pub open spec fn id_index(fs: Seq<FixtureEntry>, id: Seq<char>, i: int) -> Option<int>
    decreases fs.len() - i,
{
    if i >= fs.len() {
        None
    } else if fs[i].id@ == id {
        Some(i)
    } else {
        id_index(fs, id, i + 1)
    }
}

/// The last index below `i` that holds a dot, or -1.
pub open spec fn last_dot(name: Seq<u8>, i: int) -> int
    decreases i,
{
    if i <= 0 {
        -1
    } else if name[i - 1] == 46 {
        i - 1
    } else {
        last_dot(name, i - 1)
    }
}

/// The name of a file without its last extension; a dot in front is no extension.
pub open spec fn stem_of(name: Seq<u8>) -> Seq<u8> {
    let at = last_dot(name, name.len() as int);
    if at <= 0 {
        name
    } else {
        name.take(at)
    }
}

/// The stem of the file that a path names.
pub open spec fn path_stem(path: Seq<char>) -> Option<Seq<u8>> {
    match name_in(encode_utf8(path)) {
        Some(n) => Some(stem_of(n)),
        None => None,
    }
}

fn find_stem(path: &str) -> (r: Option<Vec<u8>>)
    ensures
        match r {
            Some(v) => path_stem(path@) == Some(v@),
            None => path_stem(path@) is None,
        },
{
    match FilePath::from_text(path).file_name() {
        Some(name) => {
            let mut i: usize = name.len();
            while i > 0 && name[i - 1] != 46
                invariant
                    i <= name@.len(),
                    last_dot(name@, name@.len() as int) == last_dot(name@, i as int),
                decreases i,
            {
                i -= 1;
            }
            if i <= 1 {
                return Some(name);
            }
            let mut out: Vec<u8> = Vec::new();
            let mut k: usize = 0;
            while k < i - 1
                invariant
                    1 < i <= name@.len(),
                    k <= i - 1,
                    out@ == name@.take(k as int),
                decreases i - k,
            {
                out.push(name[k]);
                k += 1;
                assert(name@.take(k as int) =~= name@.take(k - 1).push(name@[k - 1]));
            }
            Some(out)
        },
        None => None,
    }
}

fn same_bytes(a: &[u8], b: &[u8]) -> (r: bool)
    ensures
        r == (a@ == b@),
{
    if a.len() != b.len() {
        return false;
    }
    let mut i: usize = 0;
    while i < a.len()
        invariant
            i <= a@.len(),
            a@.len() == b@.len(),
            forall|k: int| 0 <= k < i ==> a@[k] == b@[k],
        decreases a@.len() - i,
    {
        if a[i] != b[i] {
            return false;
        }
        i += 1;
    }
    assert(a@ =~= b@);
    true
}

/// Whether a fixture goes by the path: it is its own, or names a file with the
/// same stem.
pub open spec fn goes_by(f: FixtureEntry, path: Seq<char>) -> bool {
    f.path@ == path || (path_stem(path) is Some && path_stem(f.path@) == path_stem(path))
}

/// The index of the first fixture that goes by the path, from `i` on.
pub open spec fn path_index(fs: Seq<FixtureEntry>, path: Seq<char>, i: int) -> Option<int>
    decreases fs.len() - i,
{
    if i >= fs.len() {
        None
    } else if goes_by(fs[i], path) {
        Some(i)
    } else {
        path_index(fs, path, i + 1)
    }
}

/// The fixtures of a project.
#[derive(Debug)]
pub struct Manifest {
    pub defaults: Defaults,
    pub fixtures: Vec<FixtureEntry>,
}

impl Manifest {
    /// The fixtures of a suite, by their tag.
    pub fn fixtures_for_suite(&self, suite: &str) -> (r: Vec<&FixtureEntry>)
        ensures
            entries(r@) == tagged(self.fixtures@, suite@),
    {
        let ghost all = self.fixtures@;
        let mut out: Vec<&FixtureEntry> = Vec::new();
        let mut i: usize = 0;
        assert(entries(out@) =~= tagged(all.take(0), suite@));
        while i < self.fixtures.len()
            invariant
                i <= self.fixtures@.len(),
                all == self.fixtures@,
                entries(out@) == tagged(all.take(i as int), suite@),
            decreases self.fixtures@.len() - i,
        {
            let f = &self.fixtures[i];
            assert(all.take(i + 1).drop_last() =~= all.take(i as int));
            let ghost before = entries(out@);
            if tag_there(f, suite) {
                out.push(f);
                assert(entries(out@) =~= before.push(*f));
            }
            i += 1;
        }
        assert(all.take(i as int) =~= all);
        out
    }

    /// All fixtures.
    pub fn all_fixtures(&self) -> (r: Vec<&FixtureEntry>)
        ensures
            entries(r@) == self.fixtures@,
    {
        let mut out: Vec<&FixtureEntry> = Vec::new();
        let mut i: usize = 0;
        while i < self.fixtures.len()
            invariant
                i <= self.fixtures@.len(),
                entries(out@) == self.fixtures@.take(i as int),
            decreases self.fixtures@.len() - i,
        {
            let f = &self.fixtures[i];
            let ghost before = entries(out@);
            out.push(f);
            assert(entries(out@) =~= before.push(*f));
            i += 1;
            assert(self.fixtures@.take(i as int) =~= self.fixtures@.take(i - 1).push(*f));
        }
        assert(self.fixtures@.take(i as int) =~= self.fixtures@);
        out
    }

    /// The fixture with the id.
    pub fn fixture_by_id(&self, id: &str) -> (r: Option<&FixtureEntry>)
        ensures
            match id_index(self.fixtures@, id@, 0) {
                Some(i) => 0 <= i < self.fixtures@.len() && r == Some(&self.fixtures@[i]),
                None => r is None,
            },
    {
        let mut i: usize = 0;
        while i < self.fixtures.len()
            invariant
                i <= self.fixtures@.len(),
                id_index(self.fixtures@, id@, 0) == id_index(self.fixtures@, id@, i as int),
            decreases self.fixtures@.len() - i,
        {
            if same(self.fixtures[i].id.as_str(), id) {
                return Some(&self.fixtures[i]);
            }
            i += 1;
        }
        None
    }

    /// The fixture that goes by a path.
    pub fn fixture_by_path(&self, path: &str) -> (r: Option<&FixtureEntry>)
        ensures
            match path_index(self.fixtures@, path@, 0) {
                Some(i) => 0 <= i < self.fixtures@.len() && r == Some(&self.fixtures@[i]),
                None => r is None,
            },
    {
        let stem = find_stem(path);
        let mut i: usize = 0;
        while i < self.fixtures.len()
            invariant
                i <= self.fixtures@.len(),
                match stem {
                    Some(v) => path_stem(path@) == Some(v@),
                    None => path_stem(path@) is None,
                },
                path_index(self.fixtures@, path@, 0) == path_index(
                    self.fixtures@,
                    path@,
                    i as int,
                ),
            decreases self.fixtures@.len() - i,
        {
            let f = &self.fixtures[i];
            let by_stem = match (&stem, find_stem(f.path.as_str())) {
                (Some(a), Some(b)) => same_bytes(a, &b),
                _ => false,
            };
            if same(f.path.as_str(), path) || by_stem {
                return Some(f);
            }
            i += 1;
        }
        None
    }
}

fn tag_there(f: &FixtureEntry, tag: &str) -> (r: bool)
    ensures
        r == has_tag(*f, tag@),
{
    let mut i: usize = 0;
    while i < f.tags.len()
        invariant
            i <= f.tags@.len(),
            forall|k: int| 0 <= k < i ==> (#[trigger] f.tags@[k])@ != tag@,
        decreases f.tags@.len() - i,
    {
        if same(f.tags[i].as_str(), tag) {
            return true;
        }
        i += 1;
    }
    false
}

} // verus!
