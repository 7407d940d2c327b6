//! What holds of the listing of topics.

use crate::man::{
    listing, name_width, topic_index, topic_lines, topic_table, visible_topics, TopicView,
};
use crate::project::Project;
use crate::text::{byte_len, padded_right};
use vstd::prelude::*;

verus! {

/// The topics of a project are those that are meant for it, in the order of the table.
pub proof fn topics_keep_their_order(all: Seq<TopicView>, project: Project)
    ensures
        visible_topics(all, project) == all.filter(
            |t: TopicView|
                t.only is None || exists|i: int|
                    0 <= i < (t.only->0).len() && crate::project::is_project(
                        #[trigger] (t.only->0)[i],
                        project,
                    ),
        ),
    decreases all.len(),
{
    reveal(Seq::filter);
    if all.len() > 0 {
        topics_keep_their_order(all.drop_last(), project);
    }
}

/// The column of names is as wide as the widest of them.
pub proof fn names_fit_their_column(topics: Seq<TopicView>)
    ensures
        forall|i: int|
            0 <= i < topics.len() ==> byte_len((#[trigger] topics[i]).name) <= name_width(topics),
        topics.len() > 0 ==> exists|i: int|
            0 <= i < topics.len() && byte_len((#[trigger] topics[i]).name) == name_width(topics),
    decreases topics.len(),
{
    if topics.len() > 0 {
        let front = topics.drop_last();
        names_fit_their_column(front);
        assert forall|i: int| 0 <= i < topics.len() implies byte_len((#[trigger] topics[i]).name)
            <= name_width(topics) by {
            if i < front.len() {
                assert(front[i] == topics[i]);
            }
        }
        if byte_len(topics.last().name) > name_width(front) || front.len() == 0 {
            assert(byte_len(topics[topics.len() - 1].name) == name_width(topics));
        } else {
            let i = choose|i: int|
                0 <= i < front.len() && byte_len((#[trigger] front[i]).name) == name_width(front);
            assert(topics[i] == front[i]);
        }
    }
}

/// Every topic has its line in the listing, with its name before its summary.
pub proof fn topics_have_lines(topics: Seq<TopicView>, width: int)
    ensures
        topic_lines(topics, width) == topics.map_values(
            |t: TopicView| "  "@ + padded_right(t.name, width) + "  "@ + t.summary + "\n"@,
        ).flatten_alt(),
    decreases topics.len(),
{
    let line = |t: TopicView| "  "@ + padded_right(t.name, width) + "  "@ + t.summary + "\n"@;
    let all = topics.map_values(line);
    if topics.len() > 0 {
        topics_have_lines(topics.drop_last(), width);
        assert(all.drop_last() =~= topics.drop_last().map_values(line));
    } else {
        assert(all =~= Seq::empty());
    }
}

/// The headline names a project that has a name, and the lines are those of its
/// own topics.
pub proof fn listing_is_for_the_project(project: Project)
    ensures
        ({
            let topics = visible_topics(topic_table(), project);
            let lines = topic_lines(topics, name_width(topics) as int);
            &&& project.name_text().len() == 0 ==> listing(project)
                == "Bundled docs. Run `brokkr man <topic>` to read one.\n\n"@ + lines
            &&& project.name_text().len() > 0 ==> listing(project) == "Bundled docs for "@
                + project.name_text() + ". Run `brokkr man <topic>` to read one.\n\n"@ + lines
        }),
{
}

/// A name stands for the first topic with it.
pub proof fn first_topic_counts(all: Seq<TopicView>, name: Seq<char>, i: int, at: int)
    requires
        0 <= i <= at <= all.len(),
        at < all.len() ==> all[at].name == name,
        forall|k: int| i <= k < at ==> (#[trigger] all[k]).name != name,
    ensures
        topic_index(all, name, i) == if at < all.len() { Some(at) } else { None },
    decreases at - i,
{
    if i < at {
        assert(all[i].name != name);
        first_topic_counts(all, name, i + 1, at);
    }
}

} // verus!
