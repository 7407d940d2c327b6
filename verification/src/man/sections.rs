//! Sections of a manual page: every heading has a short name and a range.

use crate::text::{
    byte_count, byte_len, chars_of, contains, find_char, has_part, join, joined, lower, next_char,
    next_char_finds, starts_with, string_of, to_lower, trim, trim_start, trimmed, trimmed_start,
    views,
};
use vstd::prelude::*;

verus! {

/// A heading and everything under it, up to the next heading of the same or a
/// shallower level. The range counts bytes.
#[derive(Debug)]
pub struct Section {
    pub level: u8,
    pub slug: String,
    pub start: usize,
    pub end: usize,
}

/// The contents of a [`Section`].
pub ghost struct SectionView {
    pub level: u8,
    pub slug: Seq<char>,
    pub start: int,
    pub end: int,
}

impl View for Section {
    type V = SectionView;

    open spec fn view(&self) -> SectionView {
        SectionView {
            level: self.level,
            slug: self.slug@,
            start: self.start as int,
            end: self.end as int,
        }
    }
}

/// The contents of a list of sections.
pub open spec fn section_views(v: Seq<Section>) -> Seq<SectionView> {
    v.map_values(|s: Section| s@)
}

/// Headings deeper than this are body text.
pub const MAX_LEVEL: u8 = 3;

/// How many number signs a text starts with.
pub open spec fn leading_hashes(s: Seq<char>) -> nat
    decreases s.len(),
{
    if s.len() > 0 && s[0] == '#' {
        1 + leading_hashes(s.skip(1))
    } else {
        0
    }
}

/// The level and title of a line that is a heading of at least the level: number
/// signs, a blank, and a title that is not empty.
pub open spec fn heading_from(line: Seq<char>, least: nat) -> Option<(u8, Seq<char>)> {
    let n = leading_hashes(line);
    if !(least <= n <= MAX_LEVEL) || n >= line.len() || line[n as int] != ' ' {
        None
    } else {
        let title = trimmed(line.skip(n as int + 1));
        if title.len() == 0 {
            None
        } else {
            Some((n as u8, title))
        }
    }
}

/// The level and title of a line that is a heading with a name: of the second or
/// third level.
pub open spec fn heading_of(line: Seq<char>) -> Option<(u8, Seq<char>)> {
    heading_from(line, 2)
}

fn count_hashes(cs: &[char]) -> (n: usize)
    ensures
        n == leading_hashes(cs@),
        n <= cs@.len(),
{
    let mut n: usize = 0;
    assert(cs@.skip(0) =~= cs@);
    while n < cs.len() && cs[n] == '#'
        invariant
            n <= cs@.len(),
            leading_hashes(cs@) == n + leading_hashes(cs@.skip(n as int)),
        decreases cs@.len() - n,
    {
        n += 1;
        assert(cs@.skip(n as int) =~= cs@.skip(n - 1).skip(1));
    }
    n
}

fn read_heading(line: &str, least: usize) -> (r: Option<(u8, String)>)
    ensures
        r matches Some(h) ==> heading_from(line@, least as nat) == Some((h.0, h.1@)),
        r is None ==> heading_from(line@, least as nat) is None,
{
    let cs = chars_of(line);
    let n: usize = count_hashes(&cs);
    if n < least || n > MAX_LEVEL as usize || n >= cs.len() || cs[n] != ' ' {
        return None;
    }
    let rest = string_of(&cs, n + 1, cs.len());
    assert(rest@ =~= line@.skip(n + 1));
    let title = trim(rest.as_str());
    if title.as_str().unicode_len() == 0 {
        None
    } else {
        Some((n as u8, title))
    }
}

/// Reads a heading: `## Title` has level 2. Number signs without a blank behind
/// them are no heading, and neither is a deeper level; the first level is that of
/// the page itself.
pub fn parse_heading(line: &str) -> (r: Option<(u8, String)>)
    ensures
        r matches Some(h) ==> heading_of(line@) == Some((h.0, h.1@)),
        r is None ==> heading_of(line@) is None,
{
    read_heading(line, 2)
}

/// Whether a character stands in a slug as it is or in lower case.
pub open spec fn is_slug_char(c: char) -> bool {
    'a' <= c <= 'z' || 'A' <= c <= 'Z' || '0' <= c <= '9' || c == '_'
}

/// What has been read of a title: the slug so far, whether a separator is due,
/// and how many brackets are open.
pub ghost struct SlugState {
    pub out: Seq<char>,
    pub pending: bool,
    pub depth: nat,
}

/// Reads one character of a title. What stands in brackets is left out, a run
/// of other characters becomes one hyphen, never at the start.
pub open spec fn slug_step(s: SlugState, c: char) -> SlugState {
    if c == '(' {
        SlugState { pending: true, depth: s.depth + 1, ..s }
    } else if c == ')' {
        if s.depth > 0 {
            SlugState { depth: (s.depth - 1) as nat, ..s }
        } else {
            SlugState { pending: true, ..s }
        }
    } else if s.depth > 0 {
        s
    } else if is_slug_char(c) {
        SlugState {
            out: if s.pending && s.out.len() > 0 {
                s.out.push('-').push(lower(c))
            } else {
                s.out.push(lower(c))
            },
            pending: false,
            depth: 0,
        }
    } else {
        SlugState { pending: true, ..s }
    }
}

/// Reads a title.
pub open spec fn slug_state(title: Seq<char>) -> SlugState
    decreases title.len(),
{
    if title.len() == 0 {
        SlugState { out: Seq::empty(), pending: false, depth: 0 }
    } else {
        slug_step(slug_state(title.drop_last()), title.last())
    }
}

/// Words that name the shape of a heading and not its subject.
pub open spec fn shape_words() -> Seq<Seq<char>> {
    seq!["section"@, "array"@, "entries"@, "entry"@, "blocks"@, "block"@, "phase"@]
}

/// The slug in front of a hyphen and the word, where it ends so.
pub open spec fn without_word(slug: Seq<char>, word: Seq<char>) -> Option<Seq<char>> {
    let n = slug.len() - word.len();
    if word.is_suffix_of(slug) && n > 0 && slug[n - 1] == '-' {
        Some(slug.take(n - 1))
    } else {
        None
    }
}

/// The slug without the first of the words, from the `i`th on, that it ends with.
pub open spec fn without_shape(slug: Seq<char>, words: Seq<Seq<char>>, i: int) -> Seq<char>
    decreases words.len() - i,
{
    if i >= words.len() {
        slug
    } else {
        match without_word(slug, words[i]) {
            Some(head) => head,
            None => without_shape(slug, words, i + 1),
        }
    }
}

/// The name by which a heading is addressed.
pub open spec fn slug_of(title: Seq<char>) -> Seq<char> {
    without_shape(slug_state(title).out, shape_words(), 0)
}

fn strip_word(slug: &str, word: &str) -> (r: Option<String>)
    ensures
        r matches Some(h) ==> without_word(slug@, word@) == Some(h@),
        r is None ==> without_word(slug@, word@) is None,
{
    match crate::text::strip_suffix(slug, word) {
        Some(head) => {
            let cs = chars_of(head.as_str());
            let n: usize = cs.len();
            if n > 0 && cs[n - 1] == '-' {
                let r = string_of(&cs, 0, n - 1);
                assert(r@ =~= slug@.take(n - 1));
                Some(r)
            } else {
                None
            }
        },
        None => None,
    }
}

/// Makes the slug of a title: letters, digits and underscores in lower case,
/// hyphens for whatever stands between them; without what is in brackets and
/// without a last word that only names the shape of the heading.
pub fn slugify(title: &str) -> (r: String)
    ensures
        r@ == slug_of(title@),
{
    let cs = chars_of(title);
    let mut out = String::new();
    let mut pending = false;
    let mut empty = true;
    let mut depth: usize = 0;
    let mut i: usize = 0;
    while i < cs.len()
        invariant
            i <= cs@.len(),
            depth <= i,
            empty == (out@.len() == 0),
            slug_state(cs@.take(i as int)) == (SlugState { out: out@, pending, depth: depth as nat }),
        decreases cs@.len() - i,
    {
        let c = cs[i];
        assert(cs@.take(i + 1).drop_last() =~= cs@.take(i as int));
        if c == '(' {
            depth += 1;
            pending = true;
        } else if c == ')' {
            if depth > 0 {
                depth -= 1;
            } else {
                pending = true;
            }
        } else if depth > 0 {
        } else if ('a' <= c && c <= 'z') || ('A' <= c && c <= 'Z') || ('0' <= c && c <= '9') || c
            == '_' {
            if pending && !empty {
                out.push('-');
            }
            pending = false;
            out.push(to_lower(c));
            empty = false;
        } else {
            pending = true;
        }
        i += 1;
    }
    assert(cs@.take(i as int) =~= cs@);
    let words: [&str; 7] = ["section", "array", "entries", "entry", "blocks", "block", "phase"];
    let mut k: usize = 0;
    while k < 7
        invariant
            k <= 7,
            out@ == slug_state(title@).out,
            forall|j: int| 0 <= j < 7 ==> (#[trigger] words@[j])@ == shape_words()[j],
            slug_of(title@) == without_shape(out@, shape_words(), k as int),
        decreases 7 - k,
    {
        match strip_word(out.as_str(), words[k]) {
            Some(head) => {
                return head;
            },
            None => {},
        }
        k += 1;
    }
    out
}

/// A heading that was found, of any level down to the deepest: its level, its
/// title and the index of its line.
pub ghost struct Head {
    pub level: u8,
    pub title: Seq<char>,
    pub at: int,
}

/// Where the line that starts at `i` ends, its line feed counted in.
pub open spec fn line_end(s: Seq<char>, i: int) -> int {
    let j = next_char(s, '\n', i);
    if j < s.len() {
        j + 1
    } else {
        s.len() as int
    }
}

/// Whether a line opens or closes a fence of the character.
pub open spec fn is_fence(line: Seq<char>, c: char) -> bool {
    seq![c, c, c].is_prefix_of(line)
}

/// The headings from the line at `i` on, in or outside a fence. Lines inside a
/// fence are no headings, whatever they hold.
pub open spec fn heads_from(s: Seq<char>, i: int, fence: Option<char>) -> Seq<Head>
    decreases s.len() - i,
{
    let end = line_end(s, i);
    if i >= s.len() || end <= i {
        Seq::empty()
    } else {
        let line = trimmed_start(s.subrange(i, end));
        match fence {
            Some(c) => heads_from(s, end, if is_fence(line, c) { None } else { fence }),
            None => if is_fence(line, '`') {
                heads_from(s, end, Some('`'))
            } else if is_fence(line, '~') {
                heads_from(s, end, Some('~'))
            } else {
                match heading_from(line, 1) {
                    Some(h) => seq![Head { level: h.0, title: h.1, at: i }] + heads_from(
                        s,
                        end,
                        None,
                    ),
                    None => heads_from(s, end, None),
                }
            },
        }
    }
}

/// Where a section ends: at the next heading that is not deeper, or with the text.
pub open spec fn end_index(heads: Seq<Head>, level: u8, j: int, len: int) -> int
    decreases heads.len() - j,
{
    if j >= heads.len() {
        len
    } else if heads[j].level <= level {
        heads[j].at
    } else {
        end_index(heads, level, j + 1, len)
    }
}

/// The slug of the last second-level heading in front of the `i`th heading.
pub open spec fn parent_slug(heads: Seq<Head>, i: int) -> Seq<char>
    decreases i,
{
    if i <= 0 {
        Seq::empty()
    } else if heads[i - 1].level == 2 {
        slug_of(heads[i - 1].title)
    } else {
        parent_slug(heads, i - 1)
    }
}

/// The name of the `i`th heading: its slug, led by that of its parent unless it
/// starts with it already.
pub open spec fn full_slug(heads: Seq<Head>, i: int) -> Seq<char> {
    let slug = slug_of(heads[i].title);
    let parent = parent_slug(heads, i);
    if heads[i].level == 2 || parent.len() == 0 || parent.is_prefix_of(slug) {
        slug
    } else {
        parent + seq!['-'] + slug
    }
}

/// How many bytes stand in front of an index.
pub open spec fn bytes_before(s: Seq<char>, i: int) -> int {
    byte_len(s.take(i)) as int
}

/// Those of the first `n` headings that have a section: all but the first level.
pub open spec fn listed(heads: Seq<Head>, n: int) -> Seq<int>
    decreases n,
{
    if n <= 0 {
        Seq::empty()
    } else if heads[n - 1].level >= 2 {
        listed(heads, n - 1).push(n - 1)
    } else {
        listed(heads, n - 1)
    }
}

/// The section of the `i`th heading.
pub open spec fn section_at(s: Seq<char>, heads: Seq<Head>, i: int) -> SectionView {
    SectionView {
        level: heads[i].level,
        slug: full_slug(heads, i),
        start: bytes_before(s, heads[i].at),
        end: bytes_before(s, end_index(heads, heads[i].level, i + 1, s.len() as int)),
    }
}

/// The headings of a text.
pub open spec fn heads_of(s: Seq<char>) -> Seq<Head> {
    heads_from(s, 0, None)
}

/// The sections of a text, in its order.
pub open spec fn sections_of(s: Seq<char>) -> Seq<SectionView> {
    let heads = heads_of(s);
    listed(heads, heads.len() as int).map_values(|i: int| section_at(s, heads, i))
}

struct FoundHead {
    level: u8,
    title: String,
    start: usize,
}

/// What the found headings are, in characters and in bytes.
spec fn found_are(found: Seq<FoundHead>, heads: Seq<Head>, s: Seq<char>) -> bool {
    &&& found.len() == heads.len()
    &&& forall|k: int|
        0 <= k < found.len() ==> (#[trigger] found[k]).level == heads[k].level && found[k].title@
            == heads[k].title && found[k].start == bytes_before(s, heads[k].at) && 0 <= heads[k].at
            < s.len()
}

fn find_heads(markdown: &str) -> (r: Vec<FoundHead>)
    ensures
        found_are(r@, heads_from(markdown@, 0, None), markdown@),
{
    let cs = chars_of(markdown);
    let ghost s = markdown@;
    let total: usize = byte_count(markdown);
    let mut found: Vec<FoundHead> = Vec::new();
    let ghost mut heads: Seq<Head> = Seq::empty();
    let mut fence: Option<char> = None;
    let mut i: usize = 0;
    let mut offset: usize = 0;
    assert(s.take(0) =~= Seq::<char>::empty());
    assert(heads + heads_from(s, 0, None) =~= heads_from(s, 0, None));
    while i < cs.len()
        invariant
            i <= cs@.len(),
            cs@ == s,
            s == markdown@,
            total == byte_len(s),
            offset == bytes_before(s, i as int),
            found_are(found@, heads, s),
            heads + heads_from(s, i as int, fence) == heads_from(s, 0, None),
        decreases cs@.len() - i,
    {
        let j: usize = find_char(&cs, '\n', i);
        let end: usize = if j < cs.len() {
            j + 1
        } else {
            j
        };
        let raw = string_of(&cs, i, end);
        let width: usize = byte_count(raw.as_str());
        let line = trim_start(raw.as_str());
        proof {
            assert(s.take(end as int) =~= s.take(i as int) + raw@);
            crate::text::byte_len_concat(s.take(i as int), raw@);
            crate::text::byte_len_monotonic(s, i as int, end as int);
        }
        match fence {
            Some(c) => {
                if starts_with_three(line.as_str(), c) {
                    fence = None;
                }
            },
            None => {
                if starts_with_three(line.as_str(), '`') {
                    fence = Some('`');
                } else if starts_with_three(line.as_str(), '~') {
                    fence = Some('~');
                } else {
                    match read_heading(line.as_str(), 1) {
                        Some(h) => {
                            let ghost head = Head { level: h.0, title: h.1@, at: i as int };
                            let ghost before = heads;
                            let ghost known = found@;
                            found.push(FoundHead { level: h.0, title: h.1, start: offset });
                            proof {
                                heads = heads.push(head);
                                assert forall|k: int| 0 <= k < found@.len() implies (
                                #[trigger] found@[k]).level == heads[k].level && found@[k].title@
                                    == heads[k].title && found@[k].start == bytes_before(
                                    s,
                                    heads[k].at,
                                ) && 0 <= heads[k].at < s.len() by {
                                    if k < known.len() {
                                        assert(found@[k] == known[k]);
                                        assert(heads[k] == before[k]);
                                    }
                                }
                                assert(before + (seq![head] + heads_from(s, end as int, None))
                                    =~= heads + heads_from(s, end as int, None));
                            }
                        },
                        None => {},
                    }
                }
            },
        }
        offset = offset + width;
        i = end;
    }
    assert(heads_from(s, i as int, fence) =~= Seq::empty());
    assert(heads + Seq::<Head>::empty() =~= heads);
    found
}

fn starts_with_three(line: &str, c: char) -> (r: bool)
    ensures
        r == is_fence(line@, c),
{
    let cs = chars_of(line);
    let r = cs.len() >= 3 && cs[0] == c && cs[1] == c && cs[2] == c;
    proof {
        if r {
            assert(seq![c, c, c] =~= line@.subrange(0, 3));
        } else if line@.len() >= 3 {
            assert(line@.subrange(0, 3)[0] == line@[0]);
            assert(line@.subrange(0, 3)[1] == line@[1]);
            assert(line@.subrange(0, 3)[2] == line@[2]);
        }
    }
    r
}

fn find_end(found: &[FoundHead], level: u8, from: usize, total: usize, Ghost(s): Ghost<Seq<char>>, Ghost(heads): Ghost<Seq<Head>>) -> (r: usize)
    requires
        found_are(found@, heads, s),
        from <= found@.len(),
        total == byte_len(s),
    ensures
        r == bytes_before(s, end_index(heads, level, from as int, s.len() as int)),
{
    let mut j: usize = from;
    while j < found.len()
        invariant
            from <= j <= found@.len(),
            found_are(found@, heads, s),
            end_index(heads, level, from as int, s.len() as int) == end_index(
                heads,
                level,
                j as int,
                s.len() as int,
            ),
        decreases found@.len() - j,
    {
        if found[j].level <= level {
            return found[j].start;
        }
        j += 1;
    }
    assert(s.take(s.len() as int) =~= s);
    total
}

/// Finds the sections of a text: every heading of the second and third level
/// outside fenced blocks, in order.
pub fn sections(markdown: &str) -> (r: Vec<Section>)
    ensures
        section_views(r@) == sections_of(markdown@),
{
    let found = find_heads(markdown);
    let total: usize = byte_count(markdown);
    let ghost s = markdown@;
    let ghost heads = heads_of(s);
    let mut out: Vec<Section> = Vec::new();
    let mut parent = String::new();
    let mut i: usize = 0;
    assert(section_views(out@) =~= listed(heads, 0).map_values(|k: int| section_at(s, heads, k)));
    while i < found.len()
        invariant
            i <= found@.len(),
            found_are(found@, heads, s),
            heads == heads_of(s),
            total == byte_len(s),
            parent@ == parent_slug(heads, i as int),
            section_views(out@) == listed(heads, i as int).map_values(
                |k: int| section_at(s, heads, k),
            ),
        decreases found@.len() - i,
    {
        let level: u8 = found[i].level;
        if level >= 2 {
            let own = slugify(found[i].title.as_str());
            let end: usize = find_end(&found, level, i + 1, total, Ghost(s), Ghost(heads));
            let slug = if level == 2 {
                parent = own.clone();
                own
            } else if parent.as_str().unicode_len() == 0 || starts_with(
                own.as_str(),
                parent.as_str(),
            ) {
                own
            } else {
                let mut full = parent.clone();
                full.push('-');
                full.append(own.as_str());
                assert(full@ =~= parent@ + seq!['-'] + own@);
                full
            };
            assert(slug@ == full_slug(heads, i as int));
            let ghost before = out@;
            out.push(Section { level, slug, start: found[i].start, end });
            assert(section_views(out@) =~= section_views(before).push(
                section_at(s, heads, i as int),
            ));
            assert(section_views(out@) =~= listed(heads, i + 1).map_values(
                |k: int| section_at(s, heads, k),
            ));
        }
        i += 1;
    }
    assert(section_views(out@) =~= sections_of(s));
    out
}

/// How a section may answer a query: its name is the wanted one, starts with
/// it, or holds it.
pub open spec fn answers(s: SectionView, pass: int, want: Seq<char>) -> bool {
    if pass == 0 {
        s.slug == want
    } else if pass == 1 {
        want.is_prefix_of(s.slug)
    } else {
        has_part(s.slug, want)
    }
}

/// The indices of the sections that answer, in order.
pub open spec fn picked(ss: Seq<SectionView>, pass: int, want: Seq<char>) -> Seq<int>
    decreases ss.len(),
{
    if ss.len() == 0 {
        Seq::empty()
    } else if answers(ss.last(), pass, want) {
        picked(ss.drop_last(), pass, want).push(ss.len() - 1)
    } else {
        picked(ss.drop_last(), pass, want)
    }
}

/// Those of the indices that stand for a section of the second level.
pub open spec fn tops(ss: Seq<SectionView>, hits: Seq<int>) -> Seq<int>
    decreases hits.len(),
{
    if hits.len() == 0 {
        Seq::empty()
    } else if ss[hits.last()].level == 2 {
        tops(ss, hits.drop_last()).push(hits.last())
    } else {
        tops(ss, hits.drop_last())
    }
}

/// The answer that some hits give: the only one, or the only one of the second
/// level, which holds the others' text; otherwise the hits are ambiguous.
pub open spec fn answer(ss: Seq<SectionView>, hits: Seq<int>, query: Seq<char>) -> Result<
    int,
    Seq<char>,
> {
    let top = tops(ss, hits);
    if hits.len() == 1 {
        Ok(hits[0])
    } else if top.len() == 1 {
        Ok(top[0])
    } else {
        Err(
            "'"@ + query + "' is ambiguous: "@ + joined(
                hits.map_values(|i: int| ss[i].slug),
                ", "@,
            ),
        )
    }
}

/// The section that a query names: by its whole name, else by the start of it,
/// else by any part.
pub open spec fn lookup(ss: Seq<SectionView>, query: Seq<char>) -> Result<int, Seq<char>> {
    let want = slug_of(query);
    if want.len() == 0 {
        Err("empty section name"@)
    } else if picked(ss, 0, want).len() > 0 {
        answer(ss, picked(ss, 0, want), query)
    } else if picked(ss, 1, want).len() > 0 {
        answer(ss, picked(ss, 1, want), query)
    } else if picked(ss, 2, want).len() > 0 {
        answer(ss, picked(ss, 2, want), query)
    } else {
        Err("no section matching '"@ + query + "'"@)
    }
}

/// The indices that a list of machine integers holds.
pub open spec fn ints(v: Seq<usize>) -> Seq<int> {
    v.map_values(|i: usize| i as int)
}

/// Picks the sections that answer in the given pass.
pub fn pick(sections: &[Section], pass: u8, want: &str) -> (r: Vec<usize>)
    requires
        pass <= 2,
    ensures
        ints(r@) == picked(section_views(sections@), pass as int, want@),
        forall|k: int| 0 <= k < r@.len() ==> #[trigger] r@[k] < sections@.len(),
{
    let mut out: Vec<usize> = Vec::new();
    let ghost ss = section_views(sections@);
    let mut i: usize = 0;
    assert(ints(out@) =~= Seq::empty());
    while i < sections.len()
        invariant
            i <= sections@.len(),
            pass <= 2,
            ss == section_views(sections@),
            ints(out@) == picked(ss.take(i as int), pass as int, want@),
            forall|k: int| 0 <= k < out@.len() ==> #[trigger] out@[k] < i,
        decreases sections@.len() - i,
    {
        let slug = sections[i].slug.as_str();
        let hit = if pass == 0 {
            crate::text::same(slug, want)
        } else if pass == 1 {
            starts_with(slug, want)
        } else {
            contains(slug, want)
        };
        assert(ss.take(i + 1).drop_last() =~= ss.take(i as int));
        assert(ss.take(i + 1).last() == sections@[i as int]@);
        let ghost before = out@;
        if hit {
            out.push(i);
            assert(ints(out@) =~= ints(before).push(i as int));
        }
        i += 1;
    }
    assert(ss.take(i as int) =~= ss);
    out
}

fn settle<'a>(sections: &'a [Section], hits: &[usize], query: &str) -> (r: Result<&'a Section, String>)
    requires
        hits@.len() > 0,
        forall|k: int| 0 <= k < hits@.len() ==> #[trigger] hits@[k] < sections@.len(),
    ensures
        match answer(section_views(sections@), ints(hits@), query@) {
            Ok(i) => 0 <= i < sections@.len() && r == Ok::<&Section, String>(&sections@[i]),
            Err(m) => r matches Err(e) && e@ == m,
        },
{
    let ghost ss = section_views(sections@);
    let ghost all = ints(hits@);
    if hits.len() == 1 {
        return Ok(&sections[hits[0]]);
    }
    let mut count: usize = 0;
    let mut top: usize = 0;
    let mut names: Vec<String> = Vec::new();
    let mut k: usize = 0;
    while k < hits.len()
        invariant
            k <= hits@.len(),
            count <= k,
            ss == section_views(sections@),
            all == ints(hits@),
            forall|j: int| 0 <= j < hits@.len() ==> #[trigger] hits@[j] < sections@.len(),
            count == tops(ss, all.take(k as int)).len(),
            count > 0 ==> top == tops(ss, all.take(k as int)).last() && top < sections@.len(),
            names@.len() == k,
            forall|j: int| 0 <= j < k ==> #[trigger] names@[j]@ == ss[all[j]].slug,
        decreases hits@.len() - k,
    {
        assert(all.take(k + 1).drop_last() =~= all.take(k as int));
        assert(all[k as int] == hits@[k as int]);
        let s = &sections[hits[k]];
        assert(ss[all[k as int]] == s@);
        if s.level == 2 {
            count += 1;
            top = hits[k];
        }
        names.push(s.slug.clone());
        k += 1;
    }
    assert(all.take(k as int) =~= all);
    if count == 1 {
        return Ok(&sections[top]);
    }
    let mut message = "'".to_owned();
    message.append(query);
    message.append("' is ambiguous: ");
    let list = join(&names, ", ");
    message.append(list.as_str());
    assert(views(names@) =~= all.map_values(|i: int| ss[i].slug));
    Err(message)
}

/// Resolves a query to a section, or says why it does not resolve.
pub fn find<'a>(sections: &'a [Section], query: &str) -> (r: Result<&'a Section, String>)
    ensures
        match lookup(section_views(sections@), query@) {
            Ok(i) => 0 <= i < sections@.len() && r == Ok::<&Section, String>(&sections@[i]),
            Err(m) => r matches Err(e) && e@ == m,
        },
{
    let want = slugify(query);
    if want.as_str().unicode_len() == 0 {
        return Err("empty section name".to_owned());
    }
    let mut pass: u8 = 0;
    while pass < 3
        invariant
            pass <= 3,
            want@ == slug_of(query@),
            want@.len() > 0,
            forall|p: int|
                0 <= p < pass ==> (#[trigger] picked(section_views(sections@), p, want@)).len()
                    == 0,
        decreases 3 - pass,
    {
        let hits = pick(sections, pass, want.as_str());
        assert(ints(hits@).len() == hits@.len());
        if hits.len() > 0 {
            return settle(sections, &hits, query);
        }
        pass += 1;
    }
    let mut message = "no section matching '".to_owned();
    message.append(query);
    message.append("'");
    Err(message)
}

/// Whether a section comes before another: it starts earlier, or at the same
/// place and is not shorter.
pub open spec fn comes_first(a: SectionView, b: SectionView) -> bool {
    a.start < b.start || (a.start == b.start && a.end >= b.end)
}

/// An ordered list with one more section, behind those that come before it.
pub open spec fn inserted(s: Seq<SectionView>, x: SectionView) -> Seq<SectionView>
    decreases s.len(),
{
    if s.len() == 0 || comes_first(s.last(), x) {
        s.push(x)
    } else {
        inserted(s.drop_last(), x).push(s.last())
    }
}

/// The sections in document order.
pub open spec fn in_order(s: Seq<SectionView>) -> Seq<SectionView>
    decreases s.len(),
{
    if s.len() == 0 {
        Seq::empty()
    } else {
        inserted(in_order(s.drop_last()), s.last())
    }
}

/// An ordered list without the sections whose text an earlier one carries.
pub open spec fn pruned(s: Seq<SectionView>) -> Seq<SectionView>
    decreases s.len(),
{
    if s.len() == 0 {
        Seq::empty()
    } else {
        let front = pruned(s.drop_last());
        if front.len() > 0 && s.last().end <= front.last().end {
            front
        } else {
            front.push(s.last())
        }
    }
}

/// What is printed for some sections: document order, no text twice.
pub open spec fn merged(s: Seq<SectionView>) -> Seq<SectionView> {
    pruned(in_order(s))
}

/// The contents of a list of borrowed sections.
pub open spec fn ref_views(v: Seq<&Section>) -> Seq<SectionView> {
    v.map_values(|s: &Section| s@)
}

proof fn inserted_at(s: Seq<SectionView>, x: SectionView, p: int)
    requires
        0 <= p <= s.len(),
        p > 0 ==> comes_first(s[p - 1], x),
        forall|k: int| p <= k < s.len() ==> !comes_first(#[trigger] s[k], x),
    ensures
        inserted(s, x) == s.insert(p, x),
    decreases s.len(),
{
    if p == s.len() {
        assert(s.insert(p, x) =~= s.push(x));
    } else {
        assert(!comes_first(s[s.len() - 1], x));
        let front = s.drop_last();
        assert forall|k: int| p <= k < front.len() implies !comes_first(#[trigger] front[k], x) by {
            assert(front[k] == s[k]);
        }
        inserted_at(front, x, p);
        assert(s.insert(p, x) =~= front.insert(p, x).push(s.last()));
    }
}

/// Puts resolved sections into document order and drops those whose text
/// another one carries.
pub fn merge<'a>(hits: Vec<&'a Section>) -> (r: Vec<&'a Section>)
    ensures
        ref_views(r@) == merged(ref_views(hits@)),
{
    let ghost all = ref_views(hits@);
    let mut ordered: Vec<&'a Section> = Vec::new();
    let mut i: usize = 0;
    assert(ref_views(ordered@) =~= Seq::empty());
    while i < hits.len()
        invariant
            i <= hits@.len(),
            all == ref_views(hits@),
            ordered@.len() == i,
            ref_views(ordered@) == in_order(all.take(i as int)),
        decreases hits@.len() - i,
    {
        let hit = hits[i];
        let mut p: usize = i;
        let ghost before = ref_views(ordered@);
        while p > 0 && !(ordered[p - 1].start < hit.start || (ordered[p - 1].start == hit.start
            && ordered[p - 1].end >= hit.end))
            invariant
                p <= i,
                i == ordered@.len(),
                before == ref_views(ordered@),
                forall|k: int| p <= k < i ==> !comes_first(#[trigger] before[k], hit@),
            decreases p,
        {
            p -= 1;
            assert(before[p as int] == ordered@[p as int]@);
        }
        proof {
            if p > 0 {
                assert(before[p - 1] == ordered@[p - 1]@);
            }
            inserted_at(before, hit@, p as int);
        }
        ordered.insert(p, hit);
        assert(ref_views(ordered@) =~= before.insert(p as int, hit@));
        assert(all.take(i + 1).drop_last() =~= all.take(i as int));
        assert(all[i as int] == hit@);
        i += 1;
    }
    assert(all.take(i as int) =~= all);
    let ghost sorted = ref_views(ordered@);
    let mut out: Vec<&'a Section> = Vec::new();
    let mut k: usize = 0;
    assert(ref_views(out@) =~= Seq::empty());
    while k < ordered.len()
        invariant
            k <= ordered@.len(),
            sorted == ref_views(ordered@),
            ref_views(out@) == pruned(sorted.take(k as int)),
        decreases ordered@.len() - k,
    {
        let hit = ordered[k];
        let n: usize = out.len();
        let ghost before = ref_views(out@);
        assert(sorted.take(k + 1).drop_last() =~= sorted.take(k as int));
        assert(sorted[k as int] == hit@);
        if n > 0 {
            assert(before.last() == out@[n - 1]@);
        }
        if !(n > 0 && hit.end <= out[n - 1].end) {
            out.push(hit);
            assert(ref_views(out@) =~= before.push(hit@));
        }
        k += 1;
    }
    assert(sorted.take(k as int) =~= sorted);
    out
}

/// Document order: no section stands behind one that comes after it.
pub open spec fn ordered(s: Seq<SectionView>) -> bool {
    forall|i: int, j: int| 0 <= i < j < s.len() ==> comes_first(#[trigger] s[i], #[trigger] s[j])
}

proof fn inserted_stays_ordered(s: Seq<SectionView>, x: SectionView)
    requires
        ordered(s),
    ensures
        ordered(inserted(s, x)),
        inserted(s, x).to_multiset() =~= s.to_multiset().insert(x),
        forall|y: SectionView| inserted(s, x).contains(y) <==> y == x || s.contains(y),
    decreases s.len(),
{
    broadcast use vstd::seq_lib::group_to_multiset_ensures;

    let r = inserted(s, x);
    if s.len() == 0 || comes_first(s.last(), x) {
        assert forall|y: SectionView| r.contains(y) <==> y == x || s.contains(y) by {
            if s.contains(y) {
                let k = s.index_of(y);
                assert(r[k] == y);
            }
            assert(r[s.len() as int] == x);
        }
        assert forall|i: int, j: int| 0 <= i < j < r.len() implies comes_first(
            #[trigger] r[i],
            #[trigger] r[j],
        ) by {
            if j == s.len() && i < s.len() - 1 {
                assert(comes_first(s[i], s[s.len() - 1]));
            }
        }
    } else {
        let front = s.drop_last();
        let rest = inserted(front, x);
        assert(ordered(front));
        inserted_stays_ordered(front, x);
        assert(s =~= front.push(s.last()));
        assert forall|y: SectionView| r.contains(y) <==> y == x || s.contains(y) by {
            if rest.contains(y) {
                assert(r[rest.index_of(y)] == y);
            }
            if front.contains(y) {
                assert(s[front.index_of(y)] == y);
            }
            assert(r[rest.len() as int] == s.last());
            if s.contains(y) {
                let k = s.index_of(y);
                if k < front.len() {
                    assert(front[k] == y);
                }
            }
            if r.contains(y) {
                let k = r.index_of(y);
                if k < rest.len() {
                    assert(rest[k] == y);
                }
            }
        }
        assert forall|i: int, j: int| 0 <= i < j < r.len() implies comes_first(
            #[trigger] r[i],
            #[trigger] r[j],
        ) by {
            if j == rest.len() {
                assert(r[i] == rest[i]);
                assert(rest.contains(rest[i]));
                if rest[i] != x {
                    assert(front.contains(rest[i]));
                    let k = front.index_of(rest[i]);
                    assert(front[k] == rest[i]);
                    assert(comes_first(s[k], s[s.len() - 1]));
                }
            } else {
                assert(comes_first(rest[i], rest[j]));
            }
        }
    }
}

/// Ordering sections keeps every one of them, and puts them in document order.
pub proof fn in_order_is_ordered(s: Seq<SectionView>)
    ensures
        ordered(in_order(s)),
        in_order(s).to_multiset() =~= s.to_multiset(),
        forall|y: SectionView| in_order(s).contains(y) <==> s.contains(y),
    decreases s.len(),
{
    broadcast use vstd::seq_lib::group_to_multiset_ensures;

    if s.len() > 0 {
        let front = s.drop_last();
        in_order_is_ordered(front);
        inserted_stays_ordered(in_order(front), s.last());
        assert(s =~= front.push(s.last()));
        assert forall|y: SectionView| in_order(s).contains(y) <==> s.contains(y) by {
            if s.contains(y) {
                let k = s.index_of(y);
                if k < front.len() {
                    assert(front[k] == y);
                }
            }
            if front.contains(y) {
                assert(s[front.index_of(y)] == y);
            }
            assert(s[s.len() - 1] == s.last());
        }
    }
}

/// Whether one section's text stands inside another's.
pub open spec fn inside(a: SectionView, b: SectionView) -> bool {
    b.start <= a.start && a.end <= b.end
}

proof fn pruned_is_part(s: Seq<SectionView>)
    ensures
        forall|i: int| 0 <= i < pruned(s).len() ==> s.contains(#[trigger] pruned(s)[i]),
    decreases s.len(),
{
    if s.len() > 0 {
        let front = s.drop_last();
        pruned_is_part(front);
        let p = pruned(front);
        assert forall|i: int| 0 <= i < pruned(s).len() implies s.contains(
            #[trigger] pruned(s)[i],
        ) by {
            if i < p.len() {
                assert(front.contains(p[i]));
                assert(s[front.index_of(p[i])] == p[i]);
            } else {
                assert(s[s.len() - 1] == s.last());
            }
        }
    }
}

/// Each section comes first before the next and ends before it does.
spec fn climbs(s: Seq<SectionView>) -> bool {
    forall|i: int, j: int|
        0 <= i < j < s.len() ==> comes_first(s[i], s[j]) && (#[trigger] s[i]).end < (
        #[trigger] s[j]).end
}

proof fn pruned_climbs(s: Seq<SectionView>)
    requires
        ordered(s),
    ensures
        climbs(pruned(s)),
    decreases s.len(),
{
    if s.len() > 0 {
        let front = s.drop_last();
        assert(ordered(front));
        pruned_climbs(front);
        pruned_is_part(front);
        let p = pruned(front);
        let r = pruned(s);
        let x = s.last();
        assert forall|i: int, j: int| 0 <= i < j < r.len() implies comes_first(r[i], r[j]) && (
        #[trigger] r[i]).end < (#[trigger] r[j]).end by {
            if j == p.len() {
                assert(front.contains(p[i]));
                let k = front.index_of(p[i]);
                assert(s[k] == p[i]);
                assert(comes_first(s[k], s[s.len() - 1]));
                if i < p.len() - 1 {
                    assert(p[i].end < p[p.len() - 1].end);
                }
            } else {
                assert(r[i] == p[i] && r[j] == p[j]);
            }
        }
    }
}

/// Whether some section of the list holds the text of another.
pub open spec fn covered(x: SectionView, s: Seq<SectionView>) -> bool {
    exists|i: int| 0 <= i < s.len() && inside(x, #[trigger] s[i])
}

proof fn pruned_covers(s: Seq<SectionView>)
    requires
        ordered(s),
    ensures
        forall|k: int| 0 <= k < s.len() ==> covered(#[trigger] s[k], pruned(s)),
    decreases s.len(),
{
    if s.len() > 0 {
        let front = s.drop_last();
        assert(ordered(front));
        pruned_covers(front);
        pruned_is_part(front);
        let p = pruned(front);
        let r = pruned(s);
        let x = s.last();
        assert forall|k: int| 0 <= k < s.len() implies covered(#[trigger] s[k], r) by {
            if k < front.len() {
                assert(covered(front[k], p));
                let i = choose|i: int| 0 <= i < p.len() && inside(front[k], #[trigger] p[i]);
                assert(r[i] == p[i]);
            } else if p.len() > 0 && x.end <= p.last().end {
                let last = p[p.len() - 1];
                assert(front.contains(last));
                let m = front.index_of(last);
                assert(comes_first(s[m], s[s.len() - 1]));
                assert(r[p.len() - 1] == last);
                assert(inside(s[k], r[p.len() - 1]));
            } else {
                assert(inside(s[k], r[p.len() as int]));
            }
        }
    }
}

/// What is printed for some sections: only sections that were asked for, in
/// document order, none inside another, and the text of every one of them.
pub proof fn merged_is_complete(s: Seq<SectionView>)
    ensures
        forall|i: int| 0 <= i < merged(s).len() ==> s.contains(#[trigger] merged(s)[i]),
        forall|i: int, j: int|
            0 <= i < j < merged(s).len() ==> (#[trigger] merged(s)[i]).start < (
            #[trigger] merged(s)[j]).start,
        forall|i: int, j: int|
            0 <= i < merged(s).len() && 0 <= j < merged(s).len() && i != j ==> !inside(
                #[trigger] merged(s)[i],
                #[trigger] merged(s)[j],
            ),
        forall|k: int| 0 <= k < s.len() ==> covered(#[trigger] s[k], merged(s)),
{
    in_order_is_ordered(s);
    let o = in_order(s);
    pruned_is_part(o);
    pruned_climbs(o);
    pruned_covers(o);
    let m = merged(s);
    assert forall|k: int| 0 <= k < s.len() implies covered(#[trigger] s[k], m) by {
        assert(s.contains(s[k]));
        assert(o.contains(s[k]));
        let j = o.index_of(s[k]);
        assert(covered(o[j], m));
    }
    assert forall|i: int, j: int|
        0 <= i < m.len() && 0 <= j < m.len() && i != j implies !inside(
        #[trigger] m[i],
        #[trigger] m[j],
    ) by {
        if i < j {
            assert(m[i].end < m[j].end);
        } else {
            assert(m[j].end < m[i].end);
        }
    }
}

/// Headings in order, from an index on and inside a text.
spec fn ascend(heads: Seq<Head>, from: int, len: int) -> bool {
    &&& forall|k: int| 0 <= k < heads.len() ==> from <= (#[trigger] heads[k]).at < len
    &&& forall|k: int, l: int|
        0 <= k < l < heads.len() ==> (#[trigger] heads[k]).at < (#[trigger] heads[l]).at
}

proof fn heads_ascend(s: Seq<char>, i: int, fence: Option<char>)
    requires
        0 <= i <= s.len(),
    ensures
        ascend(heads_from(s, i, fence), i, s.len() as int),
    decreases s.len() - i,
{
    let end = line_end(s, i);
    if i < s.len() {
        next_char_finds(s, '\n', i);
        let line = trimmed_start(s.subrange(i, end));
        heads_ascend(s, end, None);
        heads_ascend(s, end, fence);
        heads_ascend(s, end, Some('`'));
        heads_ascend(s, end, Some('~'));
        let rest = heads_from(s, end, None);
        let all = heads_from(s, i, fence);
        if fence is None && !is_fence(line, '`') && !is_fence(line, '~') && heading_from(line, 1)
            is Some {
            let h = heading_from(line, 1)->0;
            assert(all == seq![Head { level: h.0, title: h.1, at: i }] + rest);
            assert forall|k: int| 0 <= k < all.len() implies i <= (#[trigger] all[k]).at
                < s.len() by {
                if k > 0 {
                    assert(all[k] == rest[k - 1]);
                }
            }
            assert forall|k: int, l: int| 0 <= k < l < all.len() implies (#[trigger] all[k]).at < (
            #[trigger] all[l]).at by {
                assert(all[l] == rest[l - 1]);
                if k > 0 {
                    assert(all[k] == rest[k - 1]);
                }
            }
        }
    }
}

proof fn end_index_bounds(heads: Seq<Head>, level: u8, j: int, len: int)
    requires
        0 <= j <= heads.len(),
        0 <= len,
        ascend(heads, 0, len),
    ensures
        0 <= end_index(heads, level, j, len) <= len,
        j > 0 ==> heads[j - 1].at < end_index(heads, level, j, len),
    decreases heads.len() - j,
{
    if j < heads.len() {
        end_index_bounds(heads, level, j + 1, len);
    }
}

/// A section ends no later than a heading behind its start that is not deeper.
proof fn end_index_stops(heads: Seq<Head>, level: u8, j: int, k: int, len: int)
    requires
        0 <= j <= k < heads.len(),
        ascend(heads, 0, len),
        heads[k].level <= level,
    ensures
        end_index(heads, level, j, len) <= heads[k].at,
    decreases heads.len() - j,
{
    if heads[j].level > level {
        end_index_stops(heads, level, j + 1, k, len);
    } else if j < k {
        assert(heads[j].at < heads[k].at);
    }
}

/// A section goes on past headings that are deeper.
proof fn end_index_passes(heads: Seq<Head>, level: u8, j: int, k: int, len: int)
    requires
        0 <= j <= k <= heads.len(),
        forall|l: int| j <= l < k ==> (#[trigger] heads[l]).level > level,
    ensures
        end_index(heads, level, j, len) == end_index(heads, level, k, len),
    decreases k - j,
{
    if j < k {
        assert(heads[j].level > level);
        end_index_passes(heads, level, j + 1, k, len);
    }
}

proof fn end_index_shrinks(heads: Seq<Head>, low: u8, high: u8, j: int, len: int)
    requires
        0 <= j <= heads.len(),
        0 <= len,
        low <= high,
        ascend(heads, 0, len),
    ensures
        end_index(heads, high, j, len) <= end_index(heads, low, j, len),
    decreases heads.len() - j,
{
    if j < heads.len() {
        end_index_shrinks(heads, low, high, j + 1, len);
        end_index_bounds(heads, low, j + 1, len);
    }
}

/// The headings with a section ascend, and none of them is missing.
proof fn listed_ascends(heads: Seq<Head>, n: int)
    requires
        0 <= n <= heads.len(),
    ensures
        forall|k: int|
            0 <= k < listed(heads, n).len() ==> 0 <= #[trigger] listed(heads, n)[k] < n
                && heads[listed(heads, n)[k]].level >= 2,
        forall|k: int, l: int|
            0 <= k < l < listed(heads, n).len() ==> #[trigger] listed(heads, n)[k]
                < #[trigger] listed(heads, n)[l],
    decreases n,
{
    if n > 0 {
        listed_ascends(heads, n - 1);
        let before = listed(heads, n - 1);
        let all = listed(heads, n);
        assert forall|k: int| 0 <= k < all.len() implies 0 <= #[trigger] all[k] < n
            && heads[all[k]].level >= 2 by {
            if k < before.len() {
                assert(all[k] == before[k]);
            }
        }
        assert forall|k: int, l: int| 0 <= k < l < all.len() implies #[trigger] all[k]
            < #[trigger] all[l] by {
            assert(all[k] == before[k]);
            if l < before.len() {
                assert(all[l] == before[l]);
            }
        }
    }
}

proof fn section_in_text(s: Seq<char>, i: int)
    requires
        0 <= i < heads_of(s).len(),
    ensures
        0 <= section_at(s, heads_of(s), i).start < section_at(s, heads_of(s), i).end <= byte_len(s),
{
    let heads = heads_of(s);
    let len = s.len() as int;
    heads_ascend(s, 0, None);
    end_index_bounds(heads, heads[i].level, i + 1, len);
    crate::text::byte_len_monotonic(s, heads[i].at, end_index(heads, heads[i].level, i + 1, len));
}

/// A section lies inside an earlier one where the headings up to it are deeper.
proof fn child_in_parent(s: Seq<char>, i: int, j: int)
    requires
        0 <= i < j < heads_of(s).len(),
        forall|k: int| i < k <= j ==> (#[trigger] heads_of(s)[k]).level > heads_of(s)[i].level,
    ensures
        inside(section_at(s, heads_of(s), j), section_at(s, heads_of(s), i)),
        section_at(s, heads_of(s), i).start < section_at(s, heads_of(s), j).start,
{
    let heads = heads_of(s);
    let len = s.len() as int;
    heads_ascend(s, 0, None);
    let ei = end_index(heads, heads[i].level, i + 1, len);
    let ej = end_index(heads, heads[j].level, j + 1, len);
    assert(heads[i].at < heads[j].at);
    crate::text::byte_len_monotonic(s, heads[i].at, heads[j].at);
    assert(heads[j].level > heads[i].level);
    end_index_passes(heads, heads[i].level, i + 1, j + 1, len);
    end_index_shrinks(heads, heads[i].level, heads[j].level, j + 1, len);
    end_index_bounds(heads, heads[i].level, i + 1, len);
    end_index_bounds(heads, heads[j].level, j + 1, len);
    crate::text::byte_len_monotonic(s, ej, ei);
}

/// A section lies behind an earlier one where a heading up to it is not deeper.
proof fn sibling_behind(s: Seq<char>, i: int, j: int, l: int)
    requires
        0 <= i < l <= j < heads_of(s).len(),
        heads_of(s)[l].level <= heads_of(s)[i].level,
    ensures
        section_at(s, heads_of(s), i).end <= section_at(s, heads_of(s), j).start,
        section_at(s, heads_of(s), i).start < section_at(s, heads_of(s), j).start,
{
    let heads = heads_of(s);
    let len = s.len() as int;
    heads_ascend(s, 0, None);
    let ei = end_index(heads, heads[i].level, i + 1, len);
    assert(heads[i].at < heads[j].at);
    crate::text::byte_len_monotonic(s, heads[i].at, heads[j].at);
    end_index_stops(heads, heads[i].level, i + 1, l, len);
    end_index_bounds(heads, heads[i].level, i + 1, len);
    if l < j {
        assert(heads[l].at < heads[j].at);
    }
    crate::text::byte_len_monotonic(s, ei, heads[j].at);
}

/// Whether a line of a text starts so many bytes into it, or the text ends there.
pub open spec fn is_line_start(s: Seq<char>, offset: int) -> bool {
    exists|p: int|
        0 <= p <= s.len() && #[trigger] bytes_before(s, p) == offset && (p == 0 || p == s.len()
            || s[p - 1] == '\n')
}

spec fn on_lines(heads: Seq<Head>, s: Seq<char>) -> bool {
    forall|k: int|
        0 <= k < heads.len() ==> (#[trigger] heads[k]).at == 0 || s[heads[k].at - 1] == '\n'
}

proof fn heads_start_lines(s: Seq<char>, i: int, fence: Option<char>)
    requires
        0 <= i <= s.len(),
        i == 0 || i == s.len() || s[i - 1] == '\n',
    ensures
        on_lines(heads_from(s, i, fence), s),
    decreases s.len() - i,
{
    let end = line_end(s, i);
    if i < s.len() {
        next_char_finds(s, '\n', i);
        let line = trimmed_start(s.subrange(i, end));
        heads_start_lines(s, end, None);
        heads_start_lines(s, end, fence);
        heads_start_lines(s, end, Some('`'));
        heads_start_lines(s, end, Some('~'));
        let rest = heads_from(s, end, None);
        let all = heads_from(s, i, fence);
        if fence is None && !is_fence(line, '`') && !is_fence(line, '~') && heading_from(line, 1)
            is Some {
            let h = heading_from(line, 1)->0;
            assert(all == seq![Head { level: h.0, title: h.1, at: i }] + rest);
            assert forall|k: int| 0 <= k < all.len() implies (#[trigger] all[k]).at == 0
                || s[all[k].at - 1] == '\n' by {
                if k > 0 {
                    assert(all[k] == rest[k - 1]);
                }
            }
        }
    }
}

proof fn end_index_is_start(heads: Seq<Head>, level: u8, j: int, len: int)
    requires
        0 <= j,
    ensures
        end_index(heads, level, j, len) == len || exists|k: int|
            j <= k < heads.len() && (#[trigger] heads[k]).at == end_index(heads, level, j, len),
    decreases heads.len() - j,
{
    if j < heads.len() {
        if heads[j].level > level {
            end_index_is_start(heads, level, j + 1, len);
        }
    }
}

/// A section lies inside its text and holds something.
pub proof fn sections_are_in_text(s: Seq<char>, i: int)
    requires
        0 <= i < sections_of(s).len(),
    ensures
        0 <= sections_of(s)[i].start < sections_of(s)[i].end <= byte_len(s),
{
    let heads = heads_of(s);
    listed_ascends(heads, heads.len() as int);
    section_in_text(s, listed(heads, heads.len() as int)[i]);
}

/// A section starts where a line does, and ends where one does or with the text.
pub proof fn sections_are_lines(s: Seq<char>, i: int)
    requires
        0 <= i < sections_of(s).len(),
    ensures
        is_line_start(s, sections_of(s)[i].start),
        is_line_start(s, sections_of(s)[i].end),
{
    let heads = heads_of(s);
    let len = s.len() as int;
    listed_ascends(heads, heads.len() as int);
    let a = listed(heads, heads.len() as int)[i];
    assert(sections_of(s)[i] == section_at(s, heads, a));
    heads_ascend(s, 0, None);
    heads_start_lines(s, 0, None);
    assert(bytes_before(s, heads[a].at) == sections_of(s)[i].start);
    let e = end_index(heads, heads[a].level, a + 1, len);
    end_index_bounds(heads, heads[a].level, a + 1, len);
    end_index_is_start(heads, heads[a].level, a + 1, len);
    assert(bytes_before(s, e) == sections_of(s)[i].end);
    if e != len {
        let k = choose|k: int| a + 1 <= k < heads.len() && (#[trigger] heads[k]).at == e;
        assert(heads[k].at == e);
    }
}

/// The sections of a text: each lies inside it and holds something, they stand
/// in order, and of two the later lies inside the earlier and is deeper, or lies
/// behind it.
pub proof fn sections_nest(s: Seq<char>, i: int, j: int)
    requires
        0 <= i < j < sections_of(s).len(),
    ensures
        0 <= sections_of(s)[i].start < sections_of(s)[i].end <= byte_len(s),
        0 <= sections_of(s)[j].start < sections_of(s)[j].end <= byte_len(s),
        sections_of(s)[i].start < sections_of(s)[j].start,
        inside(sections_of(s)[j], sections_of(s)[i]) || sections_of(s)[i].end <= sections_of(
            s,
        )[j].start,
        inside(sections_of(s)[j], sections_of(s)[i]) ==> sections_of(s)[j].level > sections_of(
            s,
        )[i].level,
{
    let heads = heads_of(s);
    listed_ascends(heads, heads.len() as int);
    let places = listed(heads, heads.len() as int);
    let a = places[i];
    let b = places[j];
    assert(a < b);
    assert(sections_of(s)[i] == section_at(s, heads, a));
    assert(sections_of(s)[j] == section_at(s, heads, b));
    section_in_text(s, a);
    section_in_text(s, b);
    if forall|l: int| a < l <= b ==> (#[trigger] heads[l]).level > heads[a].level {
        child_in_parent(s, a, b);
        assert(heads[b].level > heads[a].level);
    } else {
        let l = choose|l: int| a < l <= b && (#[trigger] heads[l]).level <= heads[a].level;
        sibling_behind(s, a, b, l);
    }
}

/// A parent holds its children: where a heading, and every one between, is deeper
/// than an earlier heading, its section lies inside that heading's section.
pub proof fn parent_holds_children(s: Seq<char>, i: int, j: int)
    requires
        0 <= i < j < heads_of(s).len(),
        forall|k: int| i < k <= j ==> (#[trigger] heads_of(s)[k]).level > heads_of(s)[i].level,
    ensures
        inside(section_at(s, heads_of(s), j), section_at(s, heads_of(s), i)),
{
    child_in_parent(s, i, j);
}

/// No section runs over a heading of its own level or a shallower one.
pub proof fn section_stops_at_its_level(s: Seq<char>, i: int, k: int)
    requires
        0 <= i < k < heads_of(s).len(),
        heads_of(s)[k].level <= heads_of(s)[i].level,
    ensures
        section_at(s, heads_of(s), i).end <= bytes_before(s, heads_of(s)[k].at),
{
    sibling_behind(s, i, k, k);
}

/// Whether a slug is clean: lower-case letters, digits, underscores and single
/// hyphens, none of them in front.
pub open spec fn clean_slug(s: Seq<char>) -> bool {
    &&& forall|i: int|
        0 <= i < s.len() ==> 'a' <= #[trigger] s[i] <= 'z' || '0' <= s[i] <= '9' || s[i] == '_'
            || s[i] == '-'
    &&& s.len() > 0 ==> s[0] != '-'
    &&& forall|i: int| 0 < i < s.len() ==> !(#[trigger] s[i] == '-' && s[i - 1] == '-')
}

proof fn slug_state_is_clean(title: Seq<char>)
    ensures
        clean_slug(slug_state(title).out),
        slug_state(title).out.len() > 0 ==> slug_state(title).out.last() != '-',
    decreases title.len(),
{
    if title.len() > 0 {
        slug_state_is_clean(title.drop_last());
        let before = slug_state(title.drop_last()).out;
        let after = slug_state(title).out;
        let c = title.last();
        if after != before {
            assert(is_slug_char(c));
            assert('a' <= lower(c) <= 'z' || '0' <= lower(c) <= '9' || lower(c) == '_');
            assert forall|i: int| 0 < i < after.len() implies !(#[trigger] after[i] == '-'
                && after[i - 1] == '-') by {
                if i < before.len() {
                    assert(after[i] == before[i]);
                    assert(after[i - 1] == before[i - 1]);
                }
            }
        }
    }
}

/// Every slug is clean.
pub proof fn slug_is_clean(title: Seq<char>)
    ensures
        clean_slug(slug_of(title)),
{
    slug_state_is_clean(title);
    without_shape_is_clean(slug_state(title).out, shape_words(), 0);
}

proof fn without_shape_is_clean(slug: Seq<char>, words: Seq<Seq<char>>, i: int)
    requires
        clean_slug(slug),
        0 <= i,
    ensures
        clean_slug(without_shape(slug, words, i)),
    decreases words.len() - i,
{
    if i < words.len() {
        match without_word(slug, words[i]) {
            Some(head) => {
                assert forall|k: int| 0 < k < head.len() implies !(#[trigger] head[k] == '-'
                    && head[k - 1] == '-') by {
                    assert(head[k] == slug[k]);
                    assert(head[k - 1] == slug[k - 1]);
                }
            },
            None => {
                without_shape_is_clean(slug, words, i + 1);
            },
        }
    }
}

} // verus!
