//! From the name of a workload to a frozen invocation.

use crate::error::{DevError, ErrorView};
use crate::hold::{digest, digest_text};
use crate::harness::command_line::str_views;
use crate::mogwai::{
    find_named, live_names, longest, longest_name, named, names_in, names_of, MogwaiConfig, MogwaiTiming,
    MogwaiWorkload,
};
use crate::numeral::{nat_text, u64_text, usize_text};
use crate::text::{
    as_opt_str, clone_or, copy_texts, join, join_path, joined, joined_path, opt_str, opt_view, pad_right,
    padded_right, replace, replaced, same, views,
};
use vstd::prelude::*;

verus! {

/// What stands in the arguments for the path of the corpus.
pub const CORPUS_TOKEN: &'static str = "{corpus}";

/// A text in quotes, as it is shown in a message.
pub uninterp spec fn debug_text(s: Seq<char>) -> Seq<char>;

/// `<str as Debug>::fmt`, by way of `{:?}`: a text in quotes, with what does not
/// print escaped.
#[verifier::external_body]
fn debug(s: &str) -> (r: String)
    ensures
        r@ == debug_text(s@),
{
    format!("{s:?}")
}

/// An archive that a host holds.
#[derive(Debug)]
pub struct CorpusEntry {
    /// Its place, below the project where it is relative.
    pub path: String,
    /// Its digest, once it was read off.
    pub xxh128: Option<String>,
}

/// What a host registers.
#[derive(Debug)]
pub struct HostConfig {
    pub corpus: Vec<(String, CorpusEntry)>,
}

/// A workload that is ready to run.
pub struct Resolved<'a> {
    /// The registered name, under which the run is filed.
    pub name: String,
    pub entry: &'a MogwaiWorkload,
    /// The arguments, with the path of the corpus in them.
    pub argv: Vec<String>,
}

impl<'a> Resolved<'a> {
    /// The arguments of the program.
    pub fn args(&self) -> (r: Vec<&str>)
        ensures
            str_views(r@) == views(self.argv@),
    {
        let mut out: Vec<&str> = Vec::new();
        let mut i: usize = 0;
        while i < self.argv.len()
            invariant
                i <= self.argv@.len(),
                out@.len() == i,
                forall|k: int| 0 <= k < i ==> (#[trigger] out@[k])@ == self.argv@[k]@,
            decreases self.argv@.len() - i,
        {
            out.push(self.argv[i].as_str());
            i += 1;
        }
        assert(str_views(out@) =~= views(self.argv@));
        out
    }

    /// The registered name of the corpus that the workload reads: the same on
    /// every host, as the path is not.
    pub fn corpus(&self) -> (r: Option<&str>)
        ensures
            opt_str(r) == opt_view(self.entry.corpus),
    {
        as_opt_str(&self.entry.corpus)
    }
}

/// What is said where the section is missing.
pub const NO_SECTION: &'static str = "no [mogwai] section in brokkr.toml - `brokkr mogwai` needs the CLI package and at least one frozen workload:\n\n  [mogwai]\n  package = \"mogwai-cli\"\n\n  [mogwai.workloads.screen-probe]\n  description = \"...\"\n  args = [\"screen\", \"--preset\", \"...\"]\n  runs = 3";

/// The section of a mogwai project, which must be there.
pub fn config(section: Option<&MogwaiConfig>) -> (r: Result<&MogwaiConfig, DevError>)
    ensures
        match section {
            Some(c) => r == Ok::<&MogwaiConfig, DevError>(c),
            None => r matches Err(e) && e@ == ErrorView::Config(NO_SECTION@),
        },
{
    match section {
        Some(c) => Ok(c),
        None => Err(DevError::Config(NO_SECTION.to_owned())),
    }
}

/// What is said of a workload that another took the place of.
pub open spec fn retired_text(name: Seq<char>, successor: Seq<char>) -> Seq<char> {
    "workload "@ + debug_text(name)
        + " is retired - its invocation changed, and it was replaced by "@ + debug_text(successor)
        + ".\n  its rows are still queryable (`brokkr results --command "@ + name
        + "`), but a new run under this name would not be comparable to them.\n  run the successor instead: `brokkr mogwai "@
        + successor + "`"@
}

/// The place of a corpus on a host, or why there is none.
pub open spec fn corpus_place(
    host: Option<&HostConfig>,
    hostname: Seq<char>,
    workload: Seq<char>,
    corpus: Seq<char>,
) -> Result<CorpusEntry, Seq<char>> {
    match host {
        None => Err(
            "workload "@ + debug_text(workload) + " reads corpus "@ + debug_text(corpus)
                + ", but this host ("@ + hostname
                + ") has no section in brokkr.toml.\n  add:\n\n  ["@ + hostname + ".corpus."@
                + corpus + "]\n  path = \"...\"\n  xxh128 = \"...\""@,
        ),
        Some(h) => match named(h.corpus@, corpus) {
            Some(entry) => Ok(entry),
            None => Err(
                "workload "@ + debug_text(workload) + " reads corpus "@ + debug_text(corpus)
                    + ", which is not registered for this host ("@ + hostname
                    + ").\n  registered here: "@ + (if h.corpus@.len() == 0 {
                    "none registered"@
                } else {
                    joined(names_in(h.corpus@), ", "@)
                }) + "\n  add it as ["@ + hostname + ".corpus."@ + corpus + "]"@,
            ),
        },
    }
}

/// Looks a corpus up on the host.
pub fn find_corpus<'a>(
    host: Option<&'a HostConfig>,
    hostname: &str,
    workload: &str,
    corpus: &str,
) -> (r: Result<&'a CorpusEntry, DevError>)
    ensures
        match corpus_place(host, hostname@, workload@, corpus@) {
            Ok(entry) => r matches Ok(x) && *x == entry,
            Err(m) => r matches Err(e) && e@ == ErrorView::Config(m),
        },
{
    let mut m = "workload ".to_owned();
    m.append(debug(workload).as_str());
    m.append(" reads corpus ");
    m.append(debug(corpus).as_str());
    match host {
        None => {
            m.append(", but this host (");
            m.append(hostname);
            m.append(") has no section in brokkr.toml.\n  add:\n\n  [");
            m.append(hostname);
            m.append(".corpus.");
            m.append(corpus);
            m.append("]\n  path = \"...\"\n  xxh128 = \"...\"");
            Err(DevError::Config(m))
        },
        Some(h) => match find_named(&h.corpus, corpus) {
            Some(entry) => Ok(entry),
            None => {
                m.append(", which is not registered for this host (");
                m.append(hostname);
                m.append(").\n  registered here: ");
                if h.corpus.len() == 0 {
                    m.append("none registered");
                } else {
                    let all = names_of(&h.corpus);
                    m.append(join(&all, ", ").as_str());
                }
                m.append("\n  add it as [");
                m.append(hostname);
                m.append(".corpus.");
                m.append(corpus);
                m.append("]");
                Err(DevError::Config(m))
            },
        },
    }
}

/// What was found at the place of a corpus.
#[derive(Debug)]
pub struct Archive {
    pub exists: bool,
    /// What is wrong with its digest, where one is registered and it differs.
    pub complaints: Option<Vec<String>>,
}

/// What is said of an archive whose digest differs from the registered one.
pub open spec fn mismatch_lines(
    path: Seq<char>,
    actual: Seq<char>,
    expected: Seq<char>,
    origin: Seq<char>,
) -> Seq<Seq<char>> {
    seq![
        "hash mismatch for "@ + path,
        "expected "@ + expected + " ("@ + origin + ")"@,
        "actual   "@ + actual,
    ]
}

/// Compares the digest of an archive with the registered one.
pub fn check_digest(path: &str, bytes: &[u8], expected: &str, origin: &str) -> (r: Option<
    Vec<String>,
>)
    ensures
        match r {
            None => digest_text(bytes@) == expected@,
            Some(lines) => digest_text(bytes@) != expected@ && views(lines@) == mismatch_lines(
                path@,
                digest_text(bytes@),
                expected@,
                origin@,
            ),
        },
{
    let actual = digest(bytes);
    if same(actual.as_str(), expected) {
        return None;
    }
    let mut first = "hash mismatch for ".to_owned();
    first.append(path);
    let mut second = "expected ".to_owned();
    second.append(expected);
    second.append(" (");
    second.append(origin);
    second.append(")");
    let mut third = "actual   ".to_owned();
    third.append(actual.as_str());
    let lines = vec![first, second, third];
    assert(views(lines@) =~= mismatch_lines(path@, actual@, expected@, origin@));
    Some(lines)
}

/// Says where the digest of a corpus is registered.
pub fn origin(hostname: &str, corpus: &str) -> (r: String)
    ensures
        r@ == "["@ + hostname@ + ".corpus."@ + corpus@ + "].xxh128 in brokkr.toml"@,
{
    let mut out = "[".to_owned();
    out.append(hostname);
    out.append(".corpus.");
    out.append(corpus);
    out.append("].xxh128 in brokkr.toml");
    out
}

/// What is said of a corpus that is not in its place.
pub open spec fn missing_text(
    entry: CorpusEntry,
    hostname: Seq<char>,
    corpus: Seq<char>,
    path: Seq<char>,
) -> Seq<char> {
    "corpus "@ + debug_text(corpus) + " not found at "@ + path + "\n  registered as: "@ + entry.path@
        + "\n  origin: ["@ + hostname + ".corpus."@ + corpus + "].path"@
}

/// What is said of a corpus without a digest.
pub open spec fn unverified_text(hostname: Seq<char>, corpus: Seq<char>) -> Seq<char> {
    "corpus "@ + debug_text(corpus)
        + " has no xxh128 registered - running UNVERIFIED. `brokkr env` prints the digest to paste into ["@
        + hostname + ".corpus."@ + corpus + "]."@
}

/// Judges an archive: it must be there, and have the digest that is registered.
/// Where none is registered, the run goes on with a warning.
pub fn resolve_corpus(
    entry: &CorpusEntry,
    hostname: &str,
    corpus: &str,
    path: &str,
    archive: Archive,
) -> (r: Result<Option<String>, DevError>)
    ensures
        !archive.exists ==> (r matches Err(e) && e@ == ErrorView::Config(
            missing_text(*entry, hostname@, corpus@, path@),
        )),
        archive.exists && entry.xxh128 is Some ==> match archive.complaints {
            Some(list) => r matches Err(e) && e@ == ErrorView::Preflight(views(list@)),
            None => r matches Ok(None),
        },
        archive.exists && entry.xxh128 is None ==> (r matches Ok(Some(w)) && w@
            == unverified_text(hostname@, corpus@)),
{
    let mut m = "corpus ".to_owned();
    m.append(debug(corpus).as_str());
    if !archive.exists {
        m.append(" not found at ");
        m.append(path);
        m.append("\n  registered as: ");
        m.append(entry.path.as_str());
        m.append("\n  origin: [");
        m.append(hostname);
        m.append(".corpus.");
        m.append(corpus);
        m.append("].path");
        return Err(DevError::Config(m));
    }
    match &entry.xxh128 {
        Some(_) => match archive.complaints {
            Some(list) => Err(DevError::Preflight(list)),
            None => Ok(None),
        },
        None => {
            m.append(
                " has no xxh128 registered - running UNVERIFIED. `brokkr env` prints the digest to paste into [",
            );
            m.append(hostname);
            m.append(".corpus.");
            m.append(corpus);
            m.append("].");
            Ok(Some(m))
        },
    }
}

/// The arguments with a path in the place of the token.
pub open spec fn substituted(args: Seq<Seq<char>>, path: Seq<char>) -> Seq<Seq<char>> {
    args.map_values(|a: Seq<char>| replaced(a, "{corpus}"@, path))
}

/// Puts a path in the place of the token.
pub fn substitute(args: &[String], path: &str) -> (r: Vec<String>)
    ensures
        views(r@) == substituted(views(args@), path@),
{
    let mut out: Vec<String> = Vec::new();
    let mut i: usize = 0;
    proof {
        reveal_strlit("{corpus}");
    }
    while i < args.len()
        invariant
            i <= args@.len(),
            out@.len() == i,
            "{corpus}"@.len() > 0,
            forall|k: int|
                0 <= k < i ==> (#[trigger] out@[k])@ == replaced(args@[k]@, "{corpus}"@, path@),
        decreases args@.len() - i,
    {
        out.push(replace(args[i].as_str(), CORPUS_TOKEN, path));
        i += 1;
    }
    assert(views(out@) =~= substituted(views(args@), path@));
    out
}

/// A workload that can be run, and the corpus that it reads, where it reads one.
pub struct Selected<'a> {
    pub entry: &'a MogwaiWorkload,
    pub corpus: Option<(&'a CorpusEntry, String)>,
}

/// What becomes of a name before any file is looked at: an error, or the workload
/// with the registered entry and the path of its corpus.
pub open spec fn selection(
    cfg: MogwaiConfig,
    host: Option<&HostConfig>,
    hostname: Seq<char>,
    project_root: Seq<char>,
    name: Seq<char>,
) -> Result<(MogwaiWorkload, Option<(CorpusEntry, Seq<char>)>), ErrorView> {
    match named(cfg.workloads@, name) {
        None => Err(
            ErrorView::Config(
                "unknown workload '"@ + name + "'\n  registered: "@ + joined(
                    live_names(cfg.workloads@),
                    ", "@,
                ),
            ),
        ),
        Some(entry) => match entry.successor {
            Some(s) => Err(ErrorView::Config(retired_text(name, s@))),
            None => match entry.corpus {
                None => Ok((entry, None)),
                Some(c) => match corpus_place(host, hostname, name, c@) {
                    Err(m) => Err(ErrorView::Config(m)),
                    Ok(place) => Ok((entry, Some((place, joined_path(project_root, place.path@))))),
                },
            },
        },
    }
}

/// Looks a workload up. A retired one is refused, and its successor named; only a
/// workload that reads a corpus looks at the host.
pub fn select<'a>(
    cfg: &'a MogwaiConfig,
    host: Option<&'a HostConfig>,
    hostname: &str,
    project_root: &str,
    name: &str,
) -> (r: Result<Selected<'a>, DevError>)
    ensures
        match selection(*cfg, host, hostname@, project_root@, name@) {
            Err(m) => r matches Err(e) && e@ == m,
            Ok((entry, corpus)) => r matches Ok(s) && *s.entry == entry && match corpus {
                None => s.corpus is None,
                Some((place, path)) => (s.corpus matches Some((p, t)) && *p == place && t@ == path),
            },
        },
{
    let entry = match cfg.workload(name) {
        Ok(w) => w,
        Err(e) => {
            return Err(e);
        },
    };
    if let Some(successor) = &entry.successor {
        let mut m = "workload ".to_owned();
        m.append(debug(name).as_str());
        m.append(" is retired - its invocation changed, and it was replaced by ");
        m.append(debug(successor.as_str()).as_str());
        m.append(".\n  its rows are still queryable (`brokkr results --command ");
        m.append(name);
        m.append(
            "`), but a new run under this name would not be comparable to them.\n  run the successor instead: `brokkr mogwai ",
        );
        m.append(successor.as_str());
        m.append("`");
        return Err(DevError::Config(m));
    }
    match &entry.corpus {
        None => Ok(Selected { entry, corpus: None }),
        Some(corpus) => match find_corpus(host, hostname, name, corpus.as_str()) {
            Err(e) => Err(e),
            Ok(place) => {
                let path = join_path(project_root, place.path.as_str());
                Ok(Selected { entry, corpus: Some((place, path)) })
            },
        },
    }
}

/// The outcome for a corpus that was looked at: what is wrong with it, or the
/// warning to give.
pub open spec fn judged(
    entry: CorpusEntry,
    hostname: Seq<char>,
    corpus: Seq<char>,
    path: Seq<char>,
    archive: Archive,
) -> Result<Option<Seq<char>>, ErrorView> {
    if !archive.exists {
        Err(ErrorView::Config(missing_text(entry, hostname, corpus, path)))
    } else if entry.xxh128 is None {
        Ok(Some(unverified_text(hostname, corpus)))
    } else if archive.complaints is Some {
        Err(ErrorView::Preflight(views(archive.complaints->0@)))
    } else {
        Ok(None)
    }
}

/// Makes a workload ready, with a warning where there is one to give. What was
/// found at the place of the corpus counts only where the workload reads one.
pub fn resolve<'a>(
    cfg: &'a MogwaiConfig,
    host: Option<&'a HostConfig>,
    hostname: &str,
    project_root: &str,
    name: &str,
    archive: Archive,
) -> (r: Result<(Resolved<'a>, Option<String>), DevError>)
    ensures
        match selection(*cfg, host, hostname@, project_root@, name@) {
            Err(m) => r matches Err(e) && e@ == m,
            Ok((entry, None)) => r matches Ok((w, None)) && w.name@ == name@ && *w.entry == entry
                && views(w.argv@) == views(entry.args@),
            Ok((entry, Some((place, path)))) => match judged(
                place,
                hostname@,
                entry.corpus->0@,
                path,
                archive,
            ) {
                Err(m) => r matches Err(e) && e@ == m,
                Ok(warning) => r matches Ok((w, shown)) && w.name@ == name@ && *w.entry == entry
                    && views(w.argv@) == substituted(views(entry.args@), path) && opt_view(shown)
                    == warning,
            },
        },
{
    let chosen = match select(cfg, host, hostname, project_root, name) {
        Ok(s) => s,
        Err(e) => {
            return Err(e);
        },
    };
    match chosen.corpus {
        None => {
            let argv = copy_texts(&chosen.entry.args);
            Ok((Resolved { name: name.to_owned(), entry: chosen.entry, argv }, None))
        },
        Some((place, path)) => {
            let corpus = clone_or(&chosen.entry.corpus, "");
            match resolve_corpus(place, hostname, corpus.as_str(), path.as_str(), archive) {
                Err(e) => Err(e),
                Ok(warning) => {
                    let argv = substitute(&chosen.entry.args, path.as_str());
                    Ok((Resolved { name: name.to_owned(), entry: chosen.entry, argv }, warning))
                },
            }
        },
    }
}

/// What the index says of a workload.
pub open spec fn index_detail(w: MogwaiWorkload) -> Seq<char> {
    match (w.successor, w.description) {
        (Some(s), _) => "retired -> "@ + s@,
        (None, Some(d)) => d@,
        (None, None) => Seq::empty(),
    }
}

/// What a new baseline of a workload costs.
pub open spec fn index_cost(w: MogwaiWorkload) -> Seq<char> {
    match (w.runs, w.expect_seconds) {
        (Some(n), Some(s)) => " ["@ + nat_text(n as nat) + " run(s), ~"@ + nat_text(s as nat)
            + "s each]"@,
        (Some(n), None) => " ["@ + nat_text(n as nat) + " run(s)]"@,
        (None, Some(s)) => " [~"@ + nat_text(s as nat) + "s each]"@,
        (None, None) => Seq::empty(),
    }
}

/// A line of the index.
pub open spec fn index_line(width: nat, name: Seq<char>, w: MogwaiWorkload) -> Seq<char> {
    "  "@ + padded_right(name, width as int) + "  "@ + index_detail(w) + index_cost(w) + (if w.timing
        == MogwaiTiming::SelfReported {
        " [self-reported]"@
    } else {
        Seq::empty()
    }) + "\n"@
}

/// The lines of the index.
pub open spec fn index_lines(width: nat, list: Seq<(String, MogwaiWorkload)>) -> Seq<char>
    decreases list.len(),
{
    if list.len() == 0 {
        Seq::empty()
    } else {
        index_lines(width, list.drop_last()) + index_line(width, list.last().0@, list.last().1)
    }
}

fn write_detail(w: &MogwaiWorkload) -> (r: String)
    ensures
        r@ == index_detail(*w),
{
    match (&w.successor, &w.description) {
        (Some(s), _) => {
            let mut out = "retired -> ".to_owned();
            out.append(s.as_str());
            out
        },
        (None, Some(d)) => d.clone(),
        (None, None) => String::new(),
    }
}

fn write_cost(w: &MogwaiWorkload) -> (r: String)
    ensures
        r@ == index_cost(*w),
{
    match (w.runs, w.expect_seconds) {
        (Some(n), Some(s)) => {
            let mut out = " [".to_owned();
            out.append(usize_text(n).as_str());
            out.append(" run(s), ~");
            out.append(u64_text(s).as_str());
            out.append("s each]");
            out
        },
        (Some(n), None) => {
            let mut out = " [".to_owned();
            out.append(usize_text(n).as_str());
            out.append(" run(s)]");
            out
        },
        (None, Some(s)) => {
            let mut out = " [~".to_owned();
            out.append(u64_text(s).as_str());
            out.append("s each]");
            out
        },
        (None, None) => String::new(),
    }
}

fn write_index_line(width: usize, name: &str, w: &MogwaiWorkload) -> (r: String)
    ensures
        r@ == index_line(width as nat, name@, *w),
{
    let mut out = "  ".to_owned();
    out.append(pad_right(name, width).as_str());
    out.append("  ");
    out.append(write_detail(w).as_str());
    out.append(write_cost(w).as_str());
    let ghost before = out@;
    if matches!(w.timing, MogwaiTiming::SelfReported) {
        out.append(" [self-reported]");
    } else {
        assert(before + Seq::<char>::empty() =~= before);
    }
    out.append("\n");
    out
}

/// Lists the registry: every workload, those that were retired with their
/// successors.
pub fn format_index(cfg: &MogwaiConfig) -> (r: String)
    ensures
        r@ == if cfg.workloads@.len() == 0 {
            "no workloads registered - add [mogwai.workloads.<name>] to brokkr.toml"@
        } else {
            index_lines(longest(names_in(cfg.workloads@)), cfg.workloads@)
        },
{
    if cfg.workloads.len() == 0 {
        return "no workloads registered - add [mogwai.workloads.<name>] to brokkr.toml".to_owned();
    }
    let names = names_of(&cfg.workloads);
    let width: usize = longest_name(&names);
    let mut out = String::new();
    let mut i: usize = 0;
    let ghost all = cfg.workloads@;
    assert(out@ =~= index_lines(width as nat, all.take(0)));
    while i < cfg.workloads.len()
        invariant
            i <= cfg.workloads@.len(),
            all == cfg.workloads@,
            out@ == index_lines(width as nat, all.take(i as int)),
        decreases cfg.workloads@.len() - i,
    {
        let line = write_index_line(width, cfg.workloads[i].0.as_str(), &cfg.workloads[i].1);
        assert(all.take(i + 1).drop_last() =~= all.take(i as int));
        assert(all.take(i + 1).last() == all[i as int]);
        out.append(line.as_str());
        i += 1;
    }
    assert(all.take(i as int) =~= all);
    out
}

/// A workload that reads no corpus is resolved alike on every host.
pub proof fn generated_never_consults_the_host(
    cfg: MogwaiConfig,
    host: Option<&HostConfig>,
    other: Option<&HostConfig>,
    hostname: Seq<char>,
    second: Seq<char>,
    root: Seq<char>,
    place: Seq<char>,
    name: Seq<char>,
)
    requires
        named(cfg.workloads@, name) matches Some(w) && w.corpus is None,
    ensures
        selection(cfg, host, hostname, root, name) == selection(cfg, other, second, place, name),
{
}

/// A workload that has a successor is never resolved.
pub proof fn retired_never_runs(
    cfg: MogwaiConfig,
    host: Option<&HostConfig>,
    hostname: Seq<char>,
    root: Seq<char>,
    name: Seq<char>,
)
    requires
        named(cfg.workloads@, name) matches Some(w) && w.successor is Some,
    ensures
        selection(cfg, host, hostname, root, name) is Err,
{
}

} // verus!
