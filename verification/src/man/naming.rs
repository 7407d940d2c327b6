//! What holds of the names of headings and of fences.

use crate::man::sections::{
    answer, full_slug, heads_from, line_end, parent_slug, slug_of, tops, without_word, Head,
    SectionView,
};
use crate::text::trimmed_start;
use vstd::prelude::*;

verus! {

/// A heading below another is named after it: the name of the nearest heading of
/// the second level above it stands in front, unless its own name starts with that.
pub proof fn headings_are_named_after_their_parents(heads: Seq<Head>, p: int, i: int)
    requires
        0 <= p < i < heads.len(),
        heads[p].level == 2,
        heads[i].level != 2,
        forall|k: int| p < k < i ==> (#[trigger] heads[k]).level != 2,
        slug_of(heads[p].title).len() > 0,
    ensures
        ({
            let parent = slug_of(heads[p].title);
            let own = slug_of(heads[i].title);
            &&& parent.is_prefix_of(own) ==> full_slug(heads, i) == own
            &&& !parent.is_prefix_of(own) ==> full_slug(heads, i) == parent + seq!['-'] + own
        }),
{
    nearest_parent(heads, p, i);
}

proof fn nearest_parent(heads: Seq<Head>, p: int, i: int)
    requires
        0 <= p < i <= heads.len(),
        heads[p].level == 2,
        forall|k: int| p < k < i ==> (#[trigger] heads[k]).level != 2,
    ensures
        parent_slug(heads, i) == slug_of(heads[p].title),
    decreases i,
{
    if i - 1 > p {
        assert(heads[i - 1].level != 2);
        nearest_parent(heads, p, i - 1);
    }
}

/// A heading of the second level, or one above which there is none, goes by its own
/// name.
pub proof fn other_headings_have_their_own_names(heads: Seq<Head>, i: int)
    requires
        0 <= i < heads.len(),
    ensures
        heads[i].level == 2 ==> full_slug(heads, i) == slug_of(heads[i].title),
        (forall|k: int| 0 <= k < i ==> (#[trigger] heads[k]).level != 2) ==> full_slug(heads, i)
            == slug_of(heads[i].title),
{
    if forall|k: int| 0 <= k < i ==> (#[trigger] heads[k]).level != 2 {
        no_parent(heads, i);
    }
}

proof fn no_parent(heads: Seq<Head>, i: int)
    requires
        0 <= i <= heads.len(),
        forall|k: int| 0 <= k < i ==> (#[trigger] heads[k]).level != 2,
    ensures
        parent_slug(heads, i) == Seq::<char>::empty(),
    decreases i,
{
    if i > 0 {
        assert(heads[i - 1].level != 2);
        no_parent(heads, i - 1);
    }
}

/// A word is taken off only behind a hyphen, and nothing else with it.
pub proof fn words_come_off_behind_a_hyphen(head: Seq<char>, slug: Seq<char>, word: Seq<char>)
    ensures
        without_word(head + seq!['-'] + word, word) == Some(head),
        without_word(slug, word) matches Some(h) ==> slug == h + seq!['-'] + word,
{
    let all = head + seq!['-'] + word;
    assert(all.skip((all.len() - word.len()) as int) =~= word);
    assert(word.is_suffix_of(all)) by {
        assert(all.subrange((all.len() - word.len()) as int, all.len() as int) =~= word);
    }
    assert(all.take(head.len() as int) =~= head);
    if let Some(h) = without_word(slug, word) {
        let n = slug.len() - word.len();
        assert(slug.subrange(n, slug.len() as int) =~= word);
        assert(slug =~= h + seq!['-'] + word);
    }
}

/// The only hit answers; of more hits the only one of the second level; else none
/// does.
pub proof fn only_hits_answer(ss: Seq<SectionView>, hits: Seq<int>, query: Seq<char>)
    ensures
        tops(ss, hits) == hits.filter(|i: int| ss[i].level == 2),
        answer(ss, hits, query) is Ok <==> hits.len() == 1 || hits.filter(
            |i: int| ss[i].level == 2,
        ).len() == 1,
        hits.len() == 1 ==> answer(ss, hits, query) == Ok::<int, Seq<char>>(hits[0]),
        hits.len() != 1 ==> (answer(ss, hits, query) matches Ok(i) ==> hits.contains(i)
            && ss[i].level == 2),
{
    tops_are_of_the_second_level(ss, hits);
    let second = |i: int| ss[i].level == 2;
    if hits.len() != 1 && tops(ss, hits).len() == 1 {
        let i = hits.filter(second)[0];
        hits.lemma_filter_pred(second, 0);
        hits.lemma_filter_contains_rev(second, i);
    }
}

proof fn tops_are_of_the_second_level(ss: Seq<SectionView>, hits: Seq<int>)
    ensures
        tops(ss, hits) == hits.filter(|i: int| ss[i].level == 2),
    decreases hits.len(),
{
    reveal(Seq::filter);
    if hits.len() > 0 {
        tops_are_of_the_second_level(ss, hits.drop_last());
    }
}

/// Within a fence no line is a heading, and only a line with its own mark ends it.
pub proof fn fences_hide_headings(s: Seq<char>, i: int, c: char)
    requires
        0 <= i < s.len(),
        line_end(s, i) > i,
    ensures
        ({
            let end = line_end(s, i);
            let line = trimmed_start(s.subrange(i, end));
            &&& seq![c, c, c].is_prefix_of(line) ==> heads_from(s, i, Some(c)) == heads_from(
                s,
                end,
                None,
            )
            &&& !seq![c, c, c].is_prefix_of(line) ==> heads_from(s, i, Some(c)) == heads_from(
                s,
                end,
                Some(c),
            )
            &&& seq!['`', '`', '`'].is_prefix_of(line) ==> heads_from(s, i, None) == heads_from(
                s,
                end,
                Some('`'),
            )
        }),
{
}

} // verus!
