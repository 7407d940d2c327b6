//! What holds of the names of fixtures.

use crate::litehtml::cmd::with_prefix;
use crate::litehtml::manifest::{goes_by, last_dot, path_index, stem_of, FixtureEntry};
use crate::path::name_in;
use vstd::prelude::*;
use vstd::utf8::encode_utf8;

verus! {

proof fn dot_is_last(name: Seq<u8>, at: int, i: int)
    requires
        0 <= at < i <= name.len(),
        name[at] == 46,
        forall|k: int| at < k < name.len() ==> #[trigger] name[k] != 46,
    ensures
        last_dot(name, i) == at,
    decreases i,
{
    if i - 1 > at {
        dot_is_last(name, at, i - 1);
    }
}

proof fn no_dot_is_found(name: Seq<u8>, i: int)
    requires
        0 <= i <= name.len(),
        forall|k: int| 0 <= k < name.len() ==> #[trigger] name[k] != 46,
    ensures
        last_dot(name, i) == -1,
    decreases i,
{
    if i > 0 {
        no_dot_is_found(name, i - 1);
    }
}

/// The stem of a name is what stands before its last dot, unless that is nothing; a
/// name without a dot is its own stem.
pub proof fn stem_stands_before_the_last_dot(stem: Seq<u8>, ext: Seq<u8>)
    requires
        forall|k: int| 0 <= k < ext.len() ==> #[trigger] ext[k] != 46,
    ensures
        stem.len() > 0 ==> stem_of(stem + seq![46u8] + ext) == stem,
        stem_of(seq![46u8] + ext) == seq![46u8] + ext,
        stem_of(ext) == ext,
{
    let all = stem + seq![46u8] + ext;
    assert forall|k: int| stem.len() < k < all.len() implies #[trigger] all[k] != 46 by {
        assert(all[k] == ext[k - stem.len() - 1]);
    }
    dot_is_last(all, stem.len() as int, all.len() as int);
    assert(all.take(stem.len() as int) =~= stem);
    let hidden = seq![46u8] + ext;
    assert forall|k: int| 0 < k < hidden.len() implies #[trigger] hidden[k] != 46 by {
        assert(hidden[k] == ext[k - 1]);
    }
    dot_is_last(hidden, 0, hidden.len() as int);
    no_dot_is_found(ext, ext.len() as int);
}

/// A fixture goes by its own path, and by that of a file with the same stem.
pub proof fn paths_name_fixtures(f: FixtureEntry, path: Seq<char>)
    ensures
        f.path@ == path ==> goes_by(f, path),
        f.path@ != path ==> (goes_by(f, path) <==> (name_in(encode_utf8(path)) matches Some(a)
            && name_in(encode_utf8(f.path@)) matches Some(b) && stem_of(a) == stem_of(b))),
{
}

/// A path stands for the first fixture that goes by it.
pub proof fn first_fixture_by_path(fs: Seq<FixtureEntry>, path: Seq<char>, i: int, at: int)
    requires
        0 <= i <= at <= fs.len(),
        at < fs.len() ==> goes_by(fs[at], path),
        forall|k: int| i <= k < at ==> !goes_by(#[trigger] fs[k], path),
    ensures
        path_index(fs, path, i) == if at < fs.len() { Some(at) } else { None },
    decreases at - i,
{
    if i < at {
        assert(!goes_by(fs[i], path));
        first_fixture_by_path(fs, path, i + 1, at);
    }
}

/// The fixtures whose names start with a text: each of them once, in order, and no
/// others.
pub proof fn fixtures_by_the_start_of_their_names(fs: Seq<FixtureEntry>, prefix: Seq<char>)
    ensures
        forall|i: int|
            with_prefix(fs, prefix).contains(i) <==> 0 <= i < fs.len() && prefix.is_prefix_of(
                (#[trigger] fs[i]).id@,
            ),
        forall|a: int, b: int|
            0 <= a < b < with_prefix(fs, prefix).len() ==> #[trigger] with_prefix(fs, prefix)[a]
                < #[trigger] with_prefix(fs, prefix)[b],
    decreases fs.len(),
{
    let all = with_prefix(fs, prefix);
    if fs.len() > 0 {
        let front = fs.drop_last();
        let part = with_prefix(front, prefix);
        fixtures_by_the_start_of_their_names(front, prefix);
        let n = fs.len() - 1;
        assert forall|i: int| all.contains(i) <==> 0 <= i < fs.len() && prefix.is_prefix_of(
            (#[trigger] fs[i]).id@,
        ) by {
            if 0 <= i < n {
                assert(front[i] == fs[i]);
            }
            let x = front[i];
            if prefix.is_prefix_of(fs.last().id@) {
                assert(all == part.push(n));
                if all.contains(i) {
                    let k = choose|k: int| 0 <= k < all.len() && all[k] == i;
                    if k < part.len() {
                        assert(part[k] == i);
                        assert(part.contains(i));
                    }
                }
                if part.contains(i) {
                    let k = choose|k: int| 0 <= k < part.len() && part[k] == i;
                    assert(all[k] == i);
                }
                assert(all[part.len() as int] == n);
            } else {
                assert(all == part);
            }
        }
        assert forall|a: int, b: int| 0 <= a < b < all.len() implies #[trigger] all[a]
            < #[trigger] all[b] by {
            if b < part.len() {
                assert(all[a] == part[a] && all[b] == part[b]);
            } else {
                assert(all[a] == part[a]);
                assert(part.contains(part[a]));
                let x = front[part[a]];
            }
        }
    }
}

} // verus!
