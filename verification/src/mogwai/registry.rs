//! What holds of the registry of workloads and targets.

use crate::db::{PairView, ValueView};
use crate::error::ErrorView;
use crate::mogwai::cmd::declared;
use crate::mogwai::targets::{build_of, target_line, target_lines};
use crate::mogwai::workload::{
    index_line, index_lines, judged, mismatch_lines, selection, substituted, Archive, CorpusEntry,
    HostConfig,
};
use crate::mogwai::{live_names, longest, named, MogwaiConfig, MogwaiTarget, MogwaiWorkload};
use crate::numeral::nat_text;
use crate::text::{byte_len, has_part, joined, joined_path, opt_view, padded_right, replaced, views};
use vstd::prelude::*;

verus! {

/// What a name stands for is the first entry with it, and a name without an entry
/// stands for nothing.
pub proof fn first_entry_counts<T>(list: Seq<(String, T)>, name: Seq<char>, i: int)
    requires
        0 <= i <= list.len(),
        i < list.len() ==> list[i].0@ == name,
        forall|k: int| 0 <= k < i ==> (#[trigger] list[k]).0@ != name,
    ensures
        named(list, name) == (if i < list.len() {
            Some(list[i].1)
        } else {
            None
        }),
    decreases list.len(),
{
    if list.len() > 0 && i > 0 {
        assert(list[0].0@ != name);
        let rest = list.skip(1);
        assert forall|k: int| 0 <= k < i - 1 implies (#[trigger] rest[k]).0@ != name by {
            assert(rest[k] == list[k + 1]);
        }
        first_entry_counts(rest, name, i - 1);
    }
}

/// The names that are offered: those of the workloads without a successor, in the
/// order of the registry.
pub proof fn live_names_are_in_order(list: Seq<(String, MogwaiWorkload)>)
    ensures
        live_names(list) == list.filter(
            |e: (String, MogwaiWorkload)| e.1.successor is None,
        ).map_values(|e: (String, MogwaiWorkload)| e.0@),
    decreases list.len(),
{
    reveal(Seq::filter);
    let live = |e: (String, MogwaiWorkload)| e.1.successor is None;
    let name = |e: (String, MogwaiWorkload)| e.0@;
    if list.len() > 0 {
        live_names_are_in_order(list.drop_last());
        let front = list.drop_last().filter(live);
        assert(front.push(list.last()).map_values(name) =~= front.map_values(name).push(
            list.last().0@,
        ));
    } else {
        assert(list.filter(live).map_values(name) =~= Seq::empty());
    }
}

/// The width of a column of names: no name is longer, and one is as long.
pub proof fn width_is_that_of_the_longest(names: Seq<Seq<char>>)
    ensures
        forall|i: int| 0 <= i < names.len() ==> byte_len(#[trigger] names[i]) <= longest(names),
        names.len() > 0 ==> exists|i: int|
            0 <= i < names.len() && byte_len(#[trigger] names[i]) == longest(names),
    decreases names.len(),
{
    if names.len() > 0 {
        let front = names.drop_last();
        width_is_that_of_the_longest(front);
        assert forall|i: int| 0 <= i < names.len() implies byte_len(#[trigger] names[i]) <= longest(
            names,
        ) by {
            if i < front.len() {
                assert(front[i] == names[i]);
            }
        }
        if byte_len(names.last()) > longest(front) {
            assert(byte_len(names[names.len() - 1]) == longest(names));
        } else if front.len() > 0 {
            let i = choose|i: int|
                0 <= i < front.len() && byte_len(#[trigger] front[i]) == longest(front);
            assert(names[i] == front[i]);
        } else {
            assert(byte_len(names[0]) == longest(names));
        }
    }
}

/// The counters that a workload declares are stored as one text with commas, and
/// nothing is stored where it declares none.
pub proof fn counters_are_declared(w: MogwaiWorkload)
    ensures
        w.identity_counters@.len() == 0 ==> declared(w) == Seq::<PairView>::empty(),
        w.identity_counters@.len() > 0 ==> declared(w) == seq![
            PairView {
                key: "meta.identity_counters"@,
                value: ValueView::Text(joined(views(w.identity_counters@), ","@)),
            },
        ],
{
}

/// A build without a target is that of the command line: its binary, which is that
/// of the package where it has no name of its own, with the features of the call.
pub proof fn command_line_is_built(cfg: MogwaiConfig, extra: Seq<Seq<char>>)
    ensures
        build_of(cfg, None, extra) is Ok <==> cfg.bin is Some || cfg.package is Some,
        build_of(cfg, None, extra) matches Ok((name, build)) ==> {
            &&& cfg.bin matches Some(b) ==> name == b@
            &&& cfg.bin is None ==> Some(name) == opt_view(cfg.package)
            &&& build.bin == Some(name)
            &&& build.example is None
            &&& build.package == opt_view(cfg.package)
            &&& build.features == extra
            &&& build.default_features
            &&& build.profile == "release"@
        },
{
}

/// A build of a target is that of its example, in its own package or else that of
/// the project, with its own features before those of the call.
pub proof fn target_is_built(cfg: MogwaiConfig, name: &str, t: MogwaiTarget, extra: Seq<Seq<char>>)
    requires
        named(cfg.targets@, name@) == Some(t),
    ensures
        build_of(cfg, Some(name), extra) matches Ok((filed, build)) && {
            &&& filed == name@
            &&& build.bin is None
            &&& build.example == Some(t.example@)
            &&& t.package matches Some(p) ==> build.package == Some(p@)
            &&& t.package is None ==> build.package == opt_view(cfg.package)
            &&& build.features == views(t.features@) + extra
            &&& build.default_features
            &&& build.profile == "release"@
        },
{
}

/// A target that is not registered is not built.
pub proof fn unknown_target_is_refused(cfg: MogwaiConfig, name: &str, extra: Seq<Seq<char>>)
    requires
        forall|i: int| 0 <= i < cfg.targets@.len() ==> (#[trigger] cfg.targets@[i]).0@ != name@,
    ensures
        build_of(cfg, Some(name), extra) is Err,
{
    first_entry_counts(cfg.targets@, name@, cfg.targets@.len() as int);
}

/// A workload is ready exactly where it is registered, nothing took its place, and
/// its corpus, if it reads one, is registered for the host; it is the registered
/// one, and the corpus lies below the project.
pub proof fn registered_workload_is_selected(
    cfg: MogwaiConfig,
    host: Option<&HostConfig>,
    hostname: Seq<char>,
    root: Seq<char>,
    name: Seq<char>,
)
    ensures
        selection(cfg, host, hostname, root, name) is Ok <==> (named(cfg.workloads@, name) matches Some(
            w,
        ) && w.successor is None && (w.corpus is None || (host is Some && named(
            (host->0).corpus@,
            (w.corpus->0)@,
        ) is Some))),
        selection(cfg, host, hostname, root, name) matches Ok((w, c)) ==> {
            &&& named(cfg.workloads@, name) == Some(w)
            &&& c is None <==> w.corpus is None
            &&& c matches Some((entry, path)) ==> named((host->0).corpus@, (w.corpus->0)@) == Some(
                entry,
            ) && path == joined_path(root, entry.path@)
        },
{
}

/// A corpus is refused where it is missing or where its digest is registered and
/// differs; it is warned of where no digest is registered, and else accepted.
pub proof fn corpus_is_judged(
    entry: CorpusEntry,
    hostname: Seq<char>,
    corpus: Seq<char>,
    path: Seq<char>,
    archive: Archive,
)
    ensures
        judged(entry, hostname, corpus, path, archive) is Err <==> !archive.exists || (entry.xxh128
            is Some && archive.complaints is Some),
        judged(entry, hostname, corpus, path, archive) matches Ok(w) ==> (w is Some
            <==> entry.xxh128 is None),
        archive.exists && entry.xxh128 is Some ==> (archive.complaints matches Some(c) ==> judged(
            entry,
            hostname,
            corpus,
            path,
            archive,
        ) == Err::<Option<Seq<char>>, ErrorView>(ErrorView::Preflight(views(c@)))),
{
}

/// A digest that differs is told of with both digests, the expected one first.
pub proof fn both_digests_are_told(
    path: Seq<char>,
    actual: Seq<char>,
    expected: Seq<char>,
    origin: Seq<char>,
)
    ensures
        ({
            let ls = mismatch_lines(path, actual, expected, origin);
            &&& ls.len() == 3
            &&& ls[0] == "hash mismatch for "@ + path
            &&& ls[1] == "expected "@ + expected + " ("@ + origin + ")"@
            &&& ls[2] == "actual   "@ + actual
        }),
{
}

/// Arguments without the token stay as they are, each in its place; one that is
/// the token becomes the path.
pub proof fn only_the_token_is_replaced(args: Seq<Seq<char>>, path: Seq<char>, i: int)
    requires
        0 <= i < args.len(),
    ensures
        substituted(args, path).len() == args.len(),
        !has_part(args[i], "{corpus}"@) ==> substituted(args, path)[i] == args[i],
        args[i] == "{corpus}"@ ==> substituted(args, path)[i] == path,
{
    let token = "{corpus}"@;
    reveal_strlit("{corpus}");
    let none = Seq::<char>::empty();
    if args[i] == token {
        assert forall|k: int| 0 <= k < none.len() implies !#[trigger] crate::text::occurs_at(
            none + token + none,
            token,
            k,
        ) by {}
        crate::text::shape::replacing_is_exact(none, token, path, none);
        assert(none + token + none =~= token);
        assert(replaced(none, token, path) == none) by {
            assert(!has_part(none, token));
        }
        assert(none + path + none =~= path);
    }
    if !has_part(args[i], token) {
        crate::text::shape::replacing_is_exact(none, token, path, args[i]);
    }
}

/// The line on a workload: its name, what took its place or else what it is, its
/// runs and what each takes, and whose clock measures it.
pub proof fn workload_line_tells_its_parts(width: nat, name: Seq<char>, w: MogwaiWorkload)
    ensures
        index_line(width, name, w) == "  "@ + padded_right(name, width as int) + "  "@ + (if w.successor
            is Some {
            "retired -> "@ + (w.successor->0)@
        } else if w.description is Some {
            (w.description->0)@
        } else {
            Seq::empty()
        }) + (if w.runs is Some && w.expect_seconds is Some {
            " ["@ + nat_text((w.runs->0) as nat) + " run(s), ~"@ + nat_text(
                (w.expect_seconds->0) as nat,
            ) + "s each]"@
        } else if w.runs is Some {
            " ["@ + nat_text((w.runs->0) as nat) + " run(s)]"@
        } else if w.expect_seconds is Some {
            " [~"@ + nat_text((w.expect_seconds->0) as nat) + "s each]"@
        } else {
            Seq::empty()
        }) + (if w.timing is SelfReported {
            " [self-reported]"@
        } else {
            Seq::empty()
        }) + "\n"@,
{
}

/// The line on a target: its name, where its example stands, and its features.
pub proof fn target_line_tells_its_parts(width: nat, cfg: MogwaiConfig, name: Seq<char>, t: MogwaiTarget)
    ensures
        target_line(width, cfg, name, t) == "    "@ + padded_right(name, width as int) + "  "@ + (
        if t.package is Some {
            (t.package->0)@ + "/"@ + t.example@
        } else if cfg.package is Some {
            (cfg.package->0)@ + "/"@ + t.example@
        } else {
            t.example@
        }) + (if t.features@.len() == 0 {
            Seq::empty()
        } else {
            "  ["@ + joined(views(t.features@), ", "@) + "]"@
        }) + "\n"@,
{
}

/// The index has a line for each target in its order.
pub proof fn targets_are_listed(width: nat, cfg: MogwaiConfig, list: Seq<(String, MogwaiTarget)>)
    ensures
        target_lines(width, cfg, list) == list.map_values(
            |e: (String, MogwaiTarget)| target_line(width, cfg, e.0@, e.1),
        ).flatten_alt(),
    decreases list.len(),
{
    let line = |e: (String, MogwaiTarget)| target_line(width, cfg, e.0@, e.1);
    let all = list.map_values(line);
    if list.len() > 0 {
        targets_are_listed(width, cfg, list.drop_last());
        assert(all.drop_last() =~= list.drop_last().map_values(line));
    } else {
        assert(all =~= Seq::empty());
    }
}

/// The index has a line for each workload in its order.
pub proof fn workloads_are_listed(width: nat, list: Seq<(String, MogwaiWorkload)>)
    ensures
        index_lines(width, list) == list.map_values(
            |e: (String, MogwaiWorkload)| index_line(width, e.0@, e.1),
        ).flatten_alt(),
    decreases list.len(),
{
    let line = |e: (String, MogwaiWorkload)| index_line(width, e.0@, e.1);
    let all = list.map_values(line);
    if list.len() > 0 {
        workloads_are_listed(width, list.drop_last());
        assert(all.drop_last() =~= list.drop_last().map_values(line));
    } else {
        assert(all =~= Seq::empty());
    }
}

} // verus!
