//! What holds of headings, of their names, and of the search for them.

use crate::man::sections::{
    answer, answers, end_index, heading_from, heading_of, heads_from, heads_of, leading_hashes,
    line_end, listed, lookup, picked, sections_of, slug_of, slug_state, slug_step, tops, Head,
    SectionView,
};
use crate::text::{
    byte_len, has_part, is_space, lower, next_char_finds, next_char_unique, trimmed, trimmed_start,
};
use vstd::prelude::*;

verus! {

/// Whether a character can stand in a name.
pub open spec fn in_name(c: char) -> bool {
    'a' <= c <= 'z' || 'A' <= c <= 'Z' || '0' <= c <= '9' || c == '_'
}

/// Whether a text is one word of characters that can stand in a name.
pub open spec fn is_word(s: Seq<char>) -> bool {
    s.len() > 0 && forall|i: int| 0 <= i < s.len() ==> in_name(#[trigger] s[i])
}

/// Whether a text is nothing but characters that cannot stand in a name, without
/// brackets.
pub open spec fn is_gap(s: Seq<char>) -> bool {
    forall|i: int|
        0 <= i < s.len() ==> !in_name(#[trigger] s[i]) && s[i] != '(' && s[i] != ')'
}

/// A text in lower case.
pub open spec fn small(s: Seq<char>) -> Seq<char> {
    s.map_values(|c: char| lower(c))
}

proof fn word_is_read(front: Seq<char>, word: Seq<char>)
    requires
        is_word(word),
        slug_state(front).depth == 0,
    ensures
        ({
            let a = slug_state(front);
            let b = slug_state(front + word);
            &&& !b.pending
            &&& b.depth == 0
            &&& b.out == (if a.pending && a.out.len() > 0 {
                a.out + seq!['-'] + small(word)
            } else {
                a.out + small(word)
            })
        }),
    decreases word.len(),
{
    let a = slug_state(front);
    let s = front + word;
    let rest = word.drop_last();
    let c = word.last();
    assert(s.drop_last() =~= front + rest);
    assert(s.last() == c);
    assert(in_name(word[word.len() - 1]));
    if rest.len() == 0 {
        assert(front + rest =~= front);
        assert(small(word) =~= seq![lower(c)]);
        let b = slug_state(s);
        assert(b == slug_step(a, c));
        if a.pending && a.out.len() > 0 {
            assert(b.out =~= a.out + seq!['-'] + small(word));
        } else {
            assert(b.out =~= a.out + small(word));
        }
    } else {
        assert forall|i: int| 0 <= i < rest.len() implies in_name(#[trigger] rest[i]) by {
            assert(rest[i] == word[i]);
        }
        word_is_read(front, rest);
        let m = slug_state(front + rest);
        let b = slug_state(s);
        assert(b == slug_step(m, c));
        assert(b.out =~= m.out.push(lower(c)));
        assert(small(word) =~= small(rest).push(lower(c)));
        if a.pending && a.out.len() > 0 {
            assert(b.out =~= a.out + seq!['-'] + small(word));
        } else {
            assert(b.out =~= a.out + small(word));
        }
    }
}

proof fn gap_is_read(front: Seq<char>, gap: Seq<char>)
    requires
        is_gap(gap),
        slug_state(front).depth == 0,
    ensures
        slug_state(front + gap).out == slug_state(front).out,
        slug_state(front + gap).depth == 0,
        gap.len() > 0 ==> slug_state(front + gap).pending,
        gap.len() == 0 ==> slug_state(front + gap) == slug_state(front),
    decreases gap.len(),
{
    let s = front + gap;
    if gap.len() > 0 {
        let rest = gap.drop_last();
        assert(s.drop_last() =~= front + rest);
        assert(s.last() == gap.last());
        assert(!in_name(gap[gap.len() - 1]));
        assert forall|i: int| 0 <= i < rest.len() implies !in_name(#[trigger] rest[i]) && rest[i]
            != '(' && rest[i] != ')' by {
            assert(rest[i] == gap[i]);
        }
        gap_is_read(front, rest);
    } else {
        assert(s =~= front);
    }
}

/// A title of one word is named by that word, in lower case.
pub proof fn word_is_its_name(word: Seq<char>, before: Seq<char>, after: Seq<char>)
    requires
        is_word(word),
        is_gap(before),
        is_gap(after),
    ensures
        slug_state(before + word + after).out == small(word),
{
    let none = Seq::<char>::empty();
    assert(none + before =~= before);
    gap_is_read(none, before);
    word_is_read(before, word);
    assert(Seq::<char>::empty() + small(word) =~= small(word));
    gap_is_read(before + word, after);
}

/// Words are joined by one hyphen, whatever stands between them.
pub proof fn words_are_joined_by_a_hyphen(front: Seq<char>, gap: Seq<char>, word: Seq<char>)
    requires
        is_word(word),
        is_gap(gap),
        gap.len() > 0,
        slug_state(front).depth == 0,
        slug_state(front).out.len() > 0,
    ensures
        slug_state(front + gap + word).out == slug_state(front).out + seq!['-'] + small(word),
{
    gap_is_read(front, gap);
    word_is_read(front + gap, word);
}

/// What stands in brackets is left out.
pub proof fn brackets_are_left_out(front: Seq<char>, inner: Seq<char>)
    requires
        slug_state(front).depth == 0,
        !inner.contains('('),
        !inner.contains(')'),
    ensures
        slug_state(front + seq!['('] + inner + seq![')']).out == slug_state(front).out,
        slug_state(front + seq!['('] + inner + seq![')']).depth == 0,
{
    let open = front + seq!['('];
    assert(open.drop_last() =~= front);
    inside_is_read(open, inner);
    let s = open + inner + seq![')'];
    assert(s.drop_last() =~= open + inner);
}

proof fn inside_is_read(open: Seq<char>, inner: Seq<char>)
    requires
        slug_state(open).depth == 1,
        !inner.contains('('),
        !inner.contains(')'),
    ensures
        slug_state(open + inner).out == slug_state(open).out,
        slug_state(open + inner).depth == 1,
    decreases inner.len(),
{
    let s = open + inner;
    if inner.len() > 0 {
        let rest = inner.drop_last();
        assert(s.drop_last() =~= open + rest);
        assert(s.last() == inner.last());
        assert(inner.contains(inner.last())) by {
            assert(inner[inner.len() - 1] == inner.last());
        }
        assert(!rest.contains('(') && !rest.contains(')')) by {
            if rest.contains('(') {
                let i = choose|i: int| 0 <= i < rest.len() && rest[i] == '(';
                assert(inner[i] == '(');
            }
            if rest.contains(')') {
                let i = choose|i: int| 0 <= i < rest.len() && rest[i] == ')';
                assert(inner[i] == ')');
            }
        }
        inside_is_read(open, rest);
    } else {
        assert(s =~= open);
    }
}

/// A heading is its number signs, a blank and a title: two signs are the second
/// level, three the third; a single one names the page, and more are body text.
pub proof fn headings_are_marked(title: Seq<char>)
    requires
        trimmed(title).len() > 0,
        title.len() > 0,
    ensures
        heading_of(seq!['#', '#', ' '] + title) == Some((2u8, trimmed(title))),
        heading_of(seq!['#', '#', '#', ' '] + title) == Some((3u8, trimmed(title))),
        heading_of(seq!['#', ' '] + title) is None,
        heading_from(seq!['#', ' '] + title, 1) == Some((1u8, trimmed(title))),
        heading_of(seq!['#', '#', '#', '#', ' '] + title) is None,
        heading_from(seq!['#', '#', '#', '#', ' '] + title, 1) is None,
        title[0] != '#' && title[0] != ' ' ==> heading_of(seq!['#', '#'] + title) is None,
        title[0] != '#' ==> heading_of(title) is None,
{
    hashes(seq!['#', '#', ' '] + title, 2);
    hashes(seq!['#', '#', '#', ' '] + title, 3);
    hashes(seq!['#', ' '] + title, 1);
    hashes(seq!['#', '#', '#', '#', ' '] + title, 4);
    assert((seq!['#', '#', ' '] + title).skip(3) =~= title);
    assert((seq!['#', '#', '#', ' '] + title).skip(4) =~= title);
    assert((seq!['#', ' '] + title).skip(2) =~= title);
    if title[0] != '#' {
        hashes(seq!['#', '#'] + title, 2);
        hashes(title, 0);
    }
}

proof fn hashes(s: Seq<char>, n: nat)
    requires
        n < s.len(),
        forall|i: int| 0 <= i < n ==> s[i] == '#',
        s[n as int] != '#',
    ensures
        leading_hashes(s) == n,
    decreases n,
{
    if n > 0 {
        hashes(s.skip(1), (n - 1) as nat);
    }
}

/// Whether the section at an index answers in a pass.
pub open spec fn hits(ss: Seq<SectionView>, pass: int, want: Seq<char>, i: int) -> bool {
    0 <= i < ss.len() && (if pass == 0 {
        ss[i].slug == want
    } else if pass == 1 {
        want.is_prefix_of(ss[i].slug)
    } else {
        has_part(ss[i].slug, want)
    })
}

proof fn picked_exactly(ss: Seq<SectionView>, pass: int, want: Seq<char>)
    requires
        0 <= pass <= 2,
    ensures
        forall|i: int| picked(ss, pass, want).contains(i) <==> #[trigger] hits(ss, pass, want, i),
        forall|k: int|
            0 <= k < picked(ss, pass, want).len() ==> hits(
                ss,
                pass,
                want,
                #[trigger] picked(ss, pass, want)[k],
            ),
    decreases ss.len(),
{
    let all = picked(ss, pass, want);
    if ss.len() > 0 {
        let front = ss.drop_last();
        let n = ss.len() - 1;
        picked_exactly(front, pass, want);
        let before = picked(front, pass, want);
        assert forall|i: int| all.contains(i) <==> #[trigger] hits(ss, pass, want, i) by {
            if 0 <= i < n {
                assert(front[i] == ss[i]);
                assert(hits(front, pass, want, i) == hits(ss, pass, want, i));
            }
            assert(hits(front, pass, want, i) <==> before.contains(i));
            if before.contains(i) {
                let k = choose|k: int| 0 <= k < before.len() && before[k] == i;
                assert(all[k] == i);
            }
            if i == n && answers(ss.last(), pass, want) {
                assert(all[before.len() as int] == n);
            }
            if all.contains(i) {
                let k = choose|k: int| 0 <= k < all.len() && all[k] == i;
                if k < before.len() {
                    assert(before[k] == i);
                }
            }
        }
        assert forall|k: int| 0 <= k < all.len() implies hits(ss, pass, want, #[trigger] all[k]) by {
            assert(all.contains(all[k]));
        }
    } else {
        assert forall|i: int| all.contains(i) <==> #[trigger] hits(ss, pass, want, i) by {}
    }
}

proof fn tops_are_hits(ss: Seq<SectionView>, hs: Seq<int>)
    ensures
        forall|k: int|
            0 <= k < tops(ss, hs).len() ==> hs.contains(#[trigger] tops(ss, hs)[k]) && ss[tops(
                ss,
                hs,
            )[k]].level == 2,
        tops(ss, hs) == hs.filter(|i: int| ss[i].level == 2),
    decreases hs.len(),
{
    reveal(Seq::filter);
    if hs.len() > 0 {
        let front = hs.drop_last();
        tops_are_hits(ss, front);
        let all = tops(ss, hs);
        let before = tops(ss, front);
        assert forall|k: int| 0 <= k < all.len() implies hs.contains(#[trigger] all[k])
            && ss[all[k]].level == 2 by {
            if k < before.len() {
                assert(all[k] == before[k]);
                assert(front.contains(before[k]));
                let j = choose|j: int| 0 <= j < front.len() && front[j] == before[k];
                assert(hs[j] == before[k]);
            } else {
                assert(hs[hs.len() - 1] == all[k]);
            }
        }
    } else {
        assert(tops(ss, hs) =~= hs);
    }
}

/// What is found answers the query: its name is the wanted one wherever some name
/// is; else it starts with it wherever some name does; else it holds it.
pub proof fn found_answers_the_query(ss: Seq<SectionView>, query: Seq<char>)
    ensures
        lookup(ss, query) matches Ok(i) ==> {
            let want = slug_of(query);
            &&& 0 <= i < ss.len()
            &&& want.len() > 0
            &&& (exists|k: int| #[trigger] hits(ss, 0, want, k)) ==> ss[i].slug == want
            &&& !(exists|k: int| #[trigger] hits(ss, 0, want, k)) && (exists|k: int| #[trigger]
                hits(ss, 1, want, k)) ==> want.is_prefix_of(ss[i].slug)
            &&& !(exists|k: int| #[trigger] hits(ss, 0, want, k)) && !(exists|k: int| #[trigger]
                hits(ss, 1, want, k)) ==> has_part(ss[i].slug, want)
        },
{
    let want = slug_of(query);
    picked_exactly(ss, 0, want);
    picked_exactly(ss, 1, want);
    picked_exactly(ss, 2, want);
    found_is_a_hit(ss, 0, want, query);
    found_is_a_hit(ss, 1, want, query);
    found_is_a_hit(ss, 2, want, query);
}

proof fn found_is_a_hit(ss: Seq<SectionView>, pass: int, want: Seq<char>, query: Seq<char>)
    requires
        0 <= pass <= 2,
    ensures
        picked(ss, pass, want).len() > 0 <==> exists|k: int| #[trigger] hits(ss, pass, want, k),
        picked(ss, pass, want).len() > 0 ==> (answer(ss, picked(ss, pass, want), query) matches Ok(i)
            ==> hits(ss, pass, want, i)),
{
    let hs = picked(ss, pass, want);
    picked_exactly(ss, pass, want);
    tops_are_hits(ss, hs);
    if hs.len() > 0 {
        assert(hits(ss, pass, want, hs[0]));
        let top = tops(ss, hs);
        if top.len() == 1 {
            assert(hs.contains(top[0]));
        }
    }
    if exists|k: int| #[trigger] hits(ss, pass, want, k) {
        let k = choose|k: int| #[trigger] hits(ss, pass, want, k);
        assert(hs.contains(k));
    }
}

/// A name that only one section has finds that section, whatever others hold it as
/// a part.
pub proof fn own_name_finds(ss: Seq<SectionView>, query: Seq<char>, i: int)
    requires
        hits(ss, 0, slug_of(query), i),
        forall|k: int| #[trigger] hits(ss, 0, slug_of(query), k) ==> k == i,
        slug_of(query).len() > 0,
    ensures
        lookup(ss, query) == Ok::<int, Seq<char>>(i),
{
    let want = slug_of(query);
    let hs = picked(ss, 0, want);
    picked_exactly(ss, 0, want);
    assert(hs.contains(i));
    picked_ascends(ss, 0, want);
    if hs.len() > 1 {
        assert(hits(ss, 0, want, hs[0]) && hits(ss, 0, want, hs[1]));
        assert(hs[0] < hs[1]);
    }
    assert(hits(ss, 0, want, hs[0]));
}

proof fn picked_ascends(ss: Seq<SectionView>, pass: int, want: Seq<char>)
    ensures
        forall|j: int, k: int|
            0 <= j < k < picked(ss, pass, want).len() ==> #[trigger] picked(ss, pass, want)[j]
                < #[trigger] picked(ss, pass, want)[k],
        forall|j: int|
            0 <= j < picked(ss, pass, want).len() ==> #[trigger] picked(ss, pass, want)[j]
                < ss.len(),
    decreases ss.len(),
{
    if ss.len() > 0 {
        picked_ascends(ss.drop_last(), pass, want);
        let before = picked(ss.drop_last(), pass, want);
        let all = picked(ss, pass, want);
        assert forall|j: int, k: int| 0 <= j < k < all.len() implies #[trigger] all[j]
            < #[trigger] all[k] by {
            assert(all[j] == before[j]);
            if k < before.len() {
                assert(all[k] == before[k]);
            }
        }
        assert forall|j: int| 0 <= j < all.len() implies #[trigger] all[j] < ss.len() by {
            if j < before.len() {
                assert(all[j] == before[j]);
            }
        }
    }
}

/// Where no name holds the wanted text nothing is found, and neither is it without
/// a text.
pub proof fn unknown_names_find_nothing(ss: Seq<SectionView>, query: Seq<char>)
    ensures
        slug_of(query).len() == 0 ==> lookup(ss, query) == Err::<int, Seq<char>>(
            "empty section name"@,
        ),
        slug_of(query).len() > 0 && !(exists|k: int| #[trigger] hits(ss, 2, slug_of(query), k))
            ==> lookup(ss, query) == Err::<int, Seq<char>>(
            "no section matching '"@ + query + "'"@,
        ),
{
    let want = slug_of(query);
    found_is_a_hit(ss, 0, want, query);
    found_is_a_hit(ss, 1, want, query);
    found_is_a_hit(ss, 2, want, query);
    if want.len() > 0 && !(exists|k: int| #[trigger] hits(ss, 2, want, k)) {
        assert forall|k: int| !#[trigger] hits(ss, 1, want, k) by {
            if hits(ss, 1, want, k) {
                crate::text::shape::part_stands_between(
                    Seq::empty(),
                    want,
                    ss[k].slug.skip(want.len() as int),
                );
                assert(ss[k].slug =~= Seq::<char>::empty() + want + ss[k].slug.skip(
                    want.len() as int,
                ));
                assert(hits(ss, 2, want, k));
            }
        }
        assert forall|k: int| !#[trigger] hits(ss, 0, want, k) by {
            if hits(ss, 0, want, k) {
                assert(want.is_prefix_of(ss[k].slug)) by {
                    assert(ss[k].slug.subrange(0, want.len() as int) =~= want);
                }
                assert(hits(ss, 1, want, k));
            }
        }
    }
}

proof fn no_heads_from(s: Seq<char>, i: int)
    requires
        0 <= i <= s.len(),
        forall|k: int| i <= k < s.len() ==> s[k] != '#' && s[k] != '`' && s[k] != '~',
    ensures
        heads_from(s, i, None) == Seq::<Head>::empty(),
    decreases s.len() - i,
{
    if i < s.len() {
        let end = line_end(s, i);
        next_char_finds(s, '\n', i);
        let raw = s.subrange(i, end);
        let line = trimmed_start(raw);
        starts_plain(raw, line);
        no_heads_from(s, end);
    }
}

proof fn starts_plain(raw: Seq<char>, line: Seq<char>)
    requires
        line == trimmed_start(raw),
        forall|k: int| 0 <= k < raw.len() ==> raw[k] != '#' && raw[k] != '`' && raw[k] != '~',
    ensures
        heading_from(line, 1) is None,
        !crate::man::sections::is_fence(line, '`'),
        !crate::man::sections::is_fence(line, '~'),
    decreases raw.len(),
{
    if raw.len() > 0 && is_space(raw[0]) {
        starts_plain(raw.skip(1), line);
    } else if raw.len() > 0 {
        assert(line[0] == raw[0]);
        assert(leading_hashes(line) == 0);
    }
}

/// A text with one heading of the second level at its start, and none in its body,
/// is one section: the whole text, under the name of the heading.
pub proof fn heading_and_body_are_a_section(title: Seq<char>, body: Seq<char>)
    requires
        trimmed(title).len() > 0,
        !title.contains('\n'),
        forall|k: int| 0 <= k < body.len() ==> body[k] != '#' && body[k] != '`' && body[k] != '~',
        forall|k: int| 0 <= k < title.len() ==> title[k] != '\n',
    ensures
        ({
            let s = seq!['#', '#', ' '] + title + seq!['\n'] + body;
            sections_of(s) == seq![
                SectionView {
                    level: 2,
                    slug: slug_of(trimmed(title)),
                    start: 0,
                    end: byte_len(s) as int,
                },
            ]
        }),
{
    let line = seq!['#', '#', ' '] + title;
    let s = line + seq!['\n'] + body;
    assert(s =~= seq!['#', '#', ' '] + title + seq!['\n'] + body);
    let end = line.len() + 1;
    assert forall|k: int| 0 <= k < line.len() implies s[k] != '\n' by {
        if k >= 3 {
            assert(s[k] == title[k - 3]);
        }
    }
    next_char_unique(s, '\n', 0, line.len() as int);
    assert(line_end(s, 0) == end);
    let raw = s.subrange(0, end as int);
    assert(raw =~= seq!['#', '#', ' '] + (title + seq!['\n']));
    assert(!is_space('#'));
    assert(trimmed_start(raw) == raw);
    title_without_break(title);
    let t = title + seq!['\n'];
    headings_are_marked(t);
    hashes(raw, 2);
    assert(raw.skip(3) =~= t);
    assert(heading_from(raw, 1) == Some((2u8, trimmed(t))));
    assert(!crate::man::sections::is_fence(raw, '`')) by {
        assert(raw[0] == '#');
    }
    assert(!crate::man::sections::is_fence(raw, '~')) by {
        assert(raw[0] == '#');
    }
    assert forall|k: int| end <= k < s.len() implies s[k] != '#' && s[k] != '`' && s[k] != '~' by {
        assert(s[k] == body[k - end]);
    }
    no_heads_from(s, end as int);
    let h = Head { level: 2, title: trimmed(title), at: 0 };
    let heads = heads_of(s);
    assert(heads =~= seq![h]);
    assert(listed(heads, 1) =~= seq![0int]) by {
        assert(listed(heads, 0) =~= Seq::empty());
        assert(heads[0].level == 2);
    }
    assert(end_index(heads, 2, 1, s.len() as int) == s.len());
    assert(s.take(s.len() as int) =~= s);
    assert(s.take(0) =~= Seq::<char>::empty());
    assert(byte_len(s.take(0)) == 0) by {
        crate::text::byte_len_concat(Seq::empty(), Seq::empty());
        assert(Seq::<char>::empty() + Seq::<char>::empty() =~= Seq::<char>::empty());
    }
    assert(sections_of(s) =~= seq![
        SectionView { level: 2, slug: slug_of(trimmed(title)), start: 0, end: byte_len(s) as int },
    ]);
}

proof fn title_without_break(title: Seq<char>)
    ensures
        trimmed(title + seq!['\n']) == trimmed(title),
{
    let t = title + seq!['\n'];
    start_without_break(title);
    let a = trimmed_start(title);
    if a.len() > 0 {
        assert(trimmed_start(t) == a + seq!['\n']);
        assert((a + seq!['\n']).drop_last() =~= a);
        assert(is_space('\n'));
    } else {
        assert(trimmed_start(t).len() == 0 || trimmed_start(t) == seq!['\n']);
    }
}

proof fn start_without_break(title: Seq<char>)
    ensures
        trimmed_start(title).len() > 0 ==> trimmed_start(title + seq!['\n']) == trimmed_start(title)
            + seq!['\n'],
        trimmed_start(title).len() == 0 ==> trimmed_start(title + seq!['\n']).len() == 0,
    decreases title.len(),
{
    let t = title + seq!['\n'];
    if title.len() == 0 {
        assert(t =~= seq!['\n']);
        assert(t.skip(1) =~= Seq::<char>::empty());
        assert(is_space('\n'));
        assert(trimmed_start(t) == trimmed_start(t.skip(1)));
        assert(trimmed_start(t.skip(1)).len() == 0);
    } else if is_space(title[0]) {
        start_without_break(title.skip(1));
        assert(t.skip(1) =~= title.skip(1) + seq!['\n']);
    }
}

} // verus!
