//! The manual: topics, and the sections of each.

use crate::error::{DevError, ErrorView};
use crate::project::{is_visible, only_one, only_three, only_two, visible_to, Project, Visibility};
use crate::text::{byte_count, byte_len, pad_right, padded_right, same};
use vstd::prelude::*;

pub mod answers;
pub mod naming;
pub mod sections;
pub mod topics;

verus! {

/// A page of the manual: what is typed to read it, a line about it, and the
/// projects that it is for.
#[derive(Debug)]
pub struct Topic {
    pub name: &'static str,
    pub summary: &'static str,
    pub visibility: Visibility,
}

/// The contents of a [`Topic`].
pub ghost struct TopicView {
    pub name: Seq<char>,
    pub summary: Seq<char>,
    pub only: Option<Seq<Project>>,
}

impl View for Topic {
    type V = TopicView;

    open spec fn view(&self) -> TopicView {
        TopicView { name: self.name@, summary: self.summary@, only: self.visibility@ }
    }
}

/// The contents of a list of topics.
pub open spec fn topic_views(v: Seq<Topic>) -> Seq<TopicView> {
    v.map_values(|t: Topic| t@)
}

/// Every topic in the order of the listing: those for all projects first.
pub open spec fn topic_table() -> Seq<TopicView> {
    seq![
        TopicView { name: "config"@, summary: "brokkr.toml: host sections, [[check]] sweeps, [test] profiles"@, only: None },
        TopicView { name: "check"@, summary: "the check/test validation pipeline, sweeps, profiles, gating"@, only: None },
        TopicView { name: "clippy"@, summary: "the investigative single-phase clippy runner"@, only: None },
        TopicView { name: "deps"@, summary: "the dependency audit: duplicate versions, git/path deps, staleness"@, only: None },
        TopicView { name: "measure"@, summary: "--bench/--hotpath/--alloc, the sidecar profiler, marker FIFOs"@, only: None },
        TopicView { name: "output-channels"@, summary: "where a run's output goes: stdout, stderr key=value, FIFO markers"@, only: None },
        TopicView { name: "datasets"@, summary: "[<host>.datasets.*] pbf/osc/pmtiles entries and variant selection"@, only: Some(seq![Project::Pbfhogg, Project::Elivagar, Project::Nidhogg]) },
        TopicView { name: "pbfhogg"@, summary: "pbfhogg commands, verify subcommands, snapshot graph, OSC parser"@, only: Some(seq![Project::Pbfhogg]) },
        TopicView { name: "elivagar"@, summary: "elivagar commands, regress, the pmtiles corpus, the durable tilegen output store"@, only: Some(seq![Project::Elivagar]) },
        TopicView { name: "dispatch-differences"@, summary: "how pbfhogg and elivagar's dispatch layers differ"@, only: Some(seq![Project::Pbfhogg, Project::Elivagar]) },
        TopicView { name: "nidhogg"@, summary: "nidhogg commands, server lifecycle, the API client"@, only: Some(seq![Project::Nidhogg]) },
        TopicView { name: "visual"@, summary: "visual reference testing: visual, list, approve, report, prepare"@, only: Some(seq![Project::Litehtml, Project::Sluggrs]) },
        TopicView { name: "litehtml"@, summary: "litehtml/sluggrs internals: modules, fixtures, Node.js scripts"@, only: Some(seq![Project::Litehtml, Project::Sluggrs]) },
        TopicView { name: "ratatoskr"@, summary: "the harness model, saehrimnir contract, lua runtime, artefacts"@, only: Some(seq![Project::Ratatoskr]) },
        TopicView { name: "sync"@, summary: "mock-serve, sync-list, sync-smoke, sync-bench"@, only: Some(seq![Project::Ratatoskr]) },
        TopicView { name: "gate"@, summary: "--gate/--as-baseline, baseline pinning, sync-bench thresholds"@, only: Some(seq![Project::Ratatoskr]) },
        TopicView { name: "service"@, summary: "service-test, service-suite, service-list: lua VM, frontmatter"@, only: Some(seq![Project::Ratatoskr]) },
        TopicView { name: "piners"@, summary: "harness NDJSON/manifest contracts, runs.db, corpus-results"@, only: Some(seq![Project::Piners]) },
        TopicView { name: "piners-config"@, summary: "the [piners] config block: corpus_root, registry_dir, feeds"@, only: Some(seq![Project::Piners]) },
        TopicView { name: "corpus"@, summary: "the parity-corpus runner: pins.toml, probes, dispositions"@, only: Some(seq![Project::Piners]) },
        TopicView { name: "lint-corpus"@, summary: "the differential-lint corpus: lints.toml, diffs, --reanchor"@, only: Some(seq![Project::Piners]) },
    ]
}

fn push_topic(out: &mut Vec<Topic>, name: &'static str, summary: &'static str, visibility: Visibility)
    ensures
        topic_views(final(out)@) == topic_views(old(out)@).push(
            TopicView { name: name@, summary: summary@, only: visibility@ },
        ),
{
    out.push(Topic { name, summary, visibility });
    assert(topic_views(out@) =~= topic_views(old(out)@).push(
        TopicView { name: name@, summary: summary@, only: visibility@ },
    ));
}

/// Builds the table of topics.
#[verifier::rlimit(40)]
pub fn topics() -> (r: Vec<Topic>)
    ensures
        topic_views(r@) == topic_table(),
{
    let mut out: Vec<Topic> = Vec::new();
    push_topic(&mut out, "config", "brokkr.toml: host sections, [[check]] sweeps, [test] profiles", Visibility::Any);
    push_topic(&mut out, "check", "the check/test validation pipeline, sweeps, profiles, gating", Visibility::Any);
    push_topic(&mut out, "clippy", "the investigative single-phase clippy runner", Visibility::Any);
    push_topic(&mut out, "deps", "the dependency audit: duplicate versions, git/path deps, staleness", Visibility::Any);
    push_topic(&mut out, "measure", "--bench/--hotpath/--alloc, the sidecar profiler, marker FIFOs", Visibility::Any);
    push_topic(&mut out, "output-channels", "where a run's output goes: stdout, stderr key=value, FIFO markers", Visibility::Any);
    push_topic(&mut out, "datasets", "[<host>.datasets.*] pbf/osc/pmtiles entries and variant selection", only_three(Project::Pbfhogg, Project::Elivagar, Project::Nidhogg));
    push_topic(&mut out, "pbfhogg", "pbfhogg commands, verify subcommands, snapshot graph, OSC parser", only_one(Project::Pbfhogg));
    push_topic(&mut out, "elivagar", "elivagar commands, regress, the pmtiles corpus, the durable tilegen output store", only_one(Project::Elivagar));
    push_topic(&mut out, "dispatch-differences", "how pbfhogg and elivagar's dispatch layers differ", only_two(Project::Pbfhogg, Project::Elivagar));
    push_topic(&mut out, "nidhogg", "nidhogg commands, server lifecycle, the API client", only_one(Project::Nidhogg));
    push_topic(&mut out, "visual", "visual reference testing: visual, list, approve, report, prepare", only_two(Project::Litehtml, Project::Sluggrs));
    push_topic(&mut out, "litehtml", "litehtml/sluggrs internals: modules, fixtures, Node.js scripts", only_two(Project::Litehtml, Project::Sluggrs));
    push_topic(&mut out, "ratatoskr", "the harness model, saehrimnir contract, lua runtime, artefacts", only_one(Project::Ratatoskr));
    push_topic(&mut out, "sync", "mock-serve, sync-list, sync-smoke, sync-bench", only_one(Project::Ratatoskr));
    push_topic(&mut out, "gate", "--gate/--as-baseline, baseline pinning, sync-bench thresholds", only_one(Project::Ratatoskr));
    push_topic(&mut out, "service", "service-test, service-suite, service-list: lua VM, frontmatter", only_one(Project::Ratatoskr));
    push_topic(&mut out, "piners", "harness NDJSON/manifest contracts, runs.db, corpus-results", only_one(Project::Piners));
    push_topic(&mut out, "piners-config", "the [piners] config block: corpus_root, registry_dir, feeds", only_one(Project::Piners));
    push_topic(&mut out, "corpus", "the parity-corpus runner: pins.toml, probes, dispositions", only_one(Project::Piners));
    push_topic(&mut out, "lint-corpus", "the differential-lint corpus: lints.toml, diffs, --reanchor", only_one(Project::Piners));
    assert(topic_views(out@) =~= topic_table());
    out
}

/// Those of the topics that are for the project.
pub open spec fn visible_topics(all: Seq<TopicView>, project: Project) -> Seq<TopicView>
    decreases all.len(),
{
    if all.len() == 0 {
        Seq::empty()
    } else if is_visible(all.last().only, project) {
        visible_topics(all.drop_last(), project).push(all.last())
    } else {
        visible_topics(all.drop_last(), project)
    }
}

/// The topics for the project, in the order of the table.
pub fn visible(project: Project) -> (r: Vec<Topic>)
    ensures
        topic_views(r@) == visible_topics(topic_table(), project),
{
    let all = topics();
    let ghost table = topic_table();
    let mut out: Vec<Topic> = Vec::new();
    assert(topic_views(out@) =~= visible_topics(table.take(0), project));
    for topic in it: all
        invariant
            it.seq() == all@,
            topic_views(all@) == table,
            topic_views(out@) == visible_topics(table.take(it.index()), project),
    {
        let ghost k = it.index();
        assert(table.take(k + 1).drop_last() =~= table.take(k));
        assert(table[k] == topic@);
        if visible_to(&topic.visibility, project) {
            let ghost before = topic_views(out@);
            out.push(topic);
            assert(topic_views(out@) =~= before.push(topic@));
        }
    }
    assert(table.take(table.len() as int) =~= table);
    out
}

/// The widest name among the topics, in bytes.
pub open spec fn name_width(topics: Seq<TopicView>) -> nat
    decreases topics.len(),
{
    if topics.len() == 0 {
        0
    } else {
        let rest = name_width(topics.drop_last());
        let own = byte_len(topics.last().name);
        if own > rest {
            own
        } else {
            rest
        }
    }
}

/// The lines of the listing.
pub open spec fn topic_lines(topics: Seq<TopicView>, width: int) -> Seq<char>
    decreases topics.len(),
{
    if topics.len() == 0 {
        Seq::empty()
    } else {
        topic_lines(topics.drop_last(), width) + ("  "@ + padded_right(topics.last().name, width)
            + "  "@ + topics.last().summary + "\n"@)
    }
}

/// The listing of a project's topics: a headline, which names the project where
/// it has a name, and a line for each topic.
pub open spec fn listing(project: Project) -> Seq<char> {
    let topics = visible_topics(topic_table(), project);
    let head = if project.name_text().len() == 0 {
        "Bundled docs. Run `brokkr man <topic>` to read one.\n\n"@
    } else {
        "Bundled docs for "@ + project.name_text()
            + ". Run `brokkr man <topic>` to read one.\n\n"@
    };
    head + topic_lines(topics, name_width(topics) as int)
}

/// Writes the listing of a project's topics.
pub fn list_topics(project: Project) -> (r: String)
    ensures
        r@ == listing(project),
{
    let topics = visible(project);
    let ghost all = topic_views(topics@);
    let mut width: usize = 0;
    let mut i: usize = 0;
    while i < topics.len()
        invariant
            i <= topics@.len(),
            all == topic_views(topics@),
            width == name_width(all.take(i as int)),
        decreases topics@.len() - i,
    {
        let own: usize = byte_count(topics[i].name);
        assert(all.take(i + 1).drop_last() =~= all.take(i as int));
        assert(all[i as int] == topics@[i as int]@);
        if own > width {
            width = own;
        }
        i += 1;
    }
    assert(all.take(i as int) =~= all);
    let mut out = if project.name().unicode_len() == 0 {
        "Bundled docs. Run `brokkr man <topic>` to read one.\n\n".to_owned()
    } else {
        let mut head = "Bundled docs for ".to_owned();
        head.append(project.name());
        head.append(". Run `brokkr man <topic>` to read one.\n\n");
        head
    };
    let ghost head = out@;
    let mut k: usize = 0;
    assert(out@ =~= head + topic_lines(all.take(0), width as int));
    while k < topics.len()
        invariant
            k <= topics@.len(),
            all == topic_views(topics@),
            out@ == head + topic_lines(all.take(k as int), width as int),
        decreases topics@.len() - k,
    {
        let ghost before = out@;
        let mut line = "  ".to_owned();
        let name = pad_right(topics[k].name, width);
        line.append(name.as_str());
        line.append("  ");
        line.append(topics[k].summary);
        line.append("\n");
        out.append(line.as_str());
        assert(all.take(k + 1).drop_last() =~= all.take(k as int));
        assert(all[k as int] == topics@[k as int]@);
        k += 1;
        assert(out@ =~= head + topic_lines(all.take(k as int), width as int));
    }
    assert(all.take(k as int) =~= all);
    out
}

/// What is shown for a request.
pub enum Page {
    /// The listing of the topics.
    Listing(String),
    /// A topic, whose text is rendered.
    Article(Topic),
}

/// The index of the topic with the name, from `i` on.
pub open spec fn topic_index(all: Seq<TopicView>, name: Seq<char>, i: int) -> Option<int>
    decreases all.len() - i,
{
    if i >= all.len() {
        None
    } else if all[i].name == name {
        Some(i)
    } else {
        topic_index(all, name, i + 1)
    }
}

/// Decides what `brokkr man` shows: the listing where no topic is asked for, the
/// topic where it is for this project, and otherwise the reason why not.
pub fn run(topic: Option<&str>, project: Project) -> (r: Result<Page, DevError>)
    ensures
        match topic {
            None => r matches Ok(Page::Listing(t)) && t@ == listing(project),
            Some(name) => match topic_index(topic_table(), name@, 0) {
                None => r matches Err(e) && e@ == ErrorView::Config(
                    "unknown man topic '"@ + name@
                        + "'. Run `brokkr man` to list the topics available in this project."@,
                ),
                Some(i) => if is_visible(topic_table()[i].only, project) {
                    r matches Ok(Page::Article(t)) && t@ == topic_table()[i]
                } else {
                    r matches Err(e) && e@ == ErrorView::Config(
                        "man topic '"@ + name@
                            + "' documents another project's surface (current: "@
                            + project.name_text()
                            + "). Run `brokkr man` to list this project's topics."@,
                    )
                },
            },
        },
{
    let name = match topic {
        None => {
            return Ok(Page::Listing(list_topics(project)));
        },
        Some(name) => name,
    };
    let mut all = topics();
    let ghost table = topic_table();
    let mut i: usize = 0;
    while i < all.len()
        invariant
            i <= all@.len(),
            topic_views(all@) == table,
            table == topic_table(),
            topic == Some(name),
            topic_index(table, name@, 0) == topic_index(table, name@, i as int),
        decreases all@.len() - i,
    {
        assert(table[i as int] == all@[i as int]@);
        if same(all[i].name, name) {
            if visible_to(&all[i].visibility, project) {
                return Ok(Page::Article(all.swap_remove(i)));
            }
            let mut message = "man topic '".to_owned();
            message.append(name);
            message.append("' documents another project's surface (current: ");
            message.append(project.name());
            message.append("). Run `brokkr man` to list this project's topics.");
            return Err(DevError::Config(message));
        }
        i += 1;
    }
    let mut message = "unknown man topic '".to_owned();
    message.append(name);
    message.append("'. Run `brokkr man` to list the topics available in this project.");
    Err(DevError::Config(message))
}

/// A topic is listed for a project exactly when it is in the table and meant
/// for that project, so that one for all projects is listed everywhere.
pub proof fn listed_exactly(all: Seq<TopicView>, project: Project, t: TopicView)
    ensures
        visible_topics(all, project).contains(t) <==> all.contains(t) && is_visible(t.only, project),
    decreases all.len(),
{
    if all.len() > 0 {
        let front = all.drop_last();
        listed_exactly(front, project, t);
        let shown = visible_topics(front, project);
        if all.contains(t) && all.index_of(t) < front.len() {
            assert(front[all.index_of(t)] == t);
        }
        if front.contains(t) {
            assert(all[front.index_of(t)] == t);
        }
        assert(all[all.len() - 1] == all.last());
        if is_visible(all.last().only, project) {
            let r = visible_topics(all, project);
            assert(r[shown.len() as int] == all.last());
            if shown.contains(t) {
                assert(r[shown.index_of(t)] == t);
            }
            if r.contains(t) && r.index_of(t) < shown.len() {
                assert(shown[r.index_of(t)] == t);
            }
        }
    } else {
        assert(!all.contains(t));
    }
}

} // verus!
