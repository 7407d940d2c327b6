//! Strings as sequences of characters: splitting, trimming, padding, numbers.

use vstd::prelude::*;
use vstd::utf8::encode_utf8;

pub mod shape;

verus! {

/// `String::push` appends one character.
pub assume_specification[ String::push ](s: &mut String, c: char)
    ensures
        final(s)@ == old(s)@.push(c),
;

/// `str::eq` compares two strings character by character.
pub assume_specification[ <str as PartialEq>::eq ](a: &str, b: &str) -> (r: bool)
    ensures
        r == (a@ == b@),
;

/// The texts that a list of strings holds.
pub open spec fn views(v: Seq<String>) -> Seq<Seq<char>> {
    v.map_values(|s: String| s@)
}

/// Whether two strings hold the same text.
pub fn same(a: &str, b: &str) -> (r: bool)
    ensures
        r == (a@ == b@),
{
    *a == *b
}

/// The characters of a string.
pub fn chars_of(s: &str) -> (r: Vec<char>)
    ensures
        r@ == s@,
{
    let mut out: Vec<char> = Vec::new();
    for c in it: s.chars()
        invariant
            out@ == s@.take(it.index()),
            it.seq() == s@,
    {
        out.push(c);
        assert(s@.take(it.index() + 1) =~= s@.take(it.index()).push(c));
    }
    assert(s@.take(s@.len() as int) =~= s@);
    out
}

/// The string made of the characters from `from` up to, not including, `to`.
pub fn string_of(cs: &[char], from: usize, to: usize) -> (r: String)
    requires
        from <= to <= cs@.len(),
    ensures
        r@ == cs@.subrange(from as int, to as int),
{
    let mut out = String::new();
    let mut i: usize = from;
    assert(cs@.subrange(from as int, from as int) =~= out@);
    while i < to
        invariant
            from <= i <= to <= cs@.len(),
            out@ == cs@.subrange(from as int, i as int),
        decreases to - i,
    {
        out.push(cs[i]);
        i += 1;
        assert(cs@.subrange(from as int, i as int) =~= cs@.subrange(from as int, i - 1).push(cs@[i - 1]));
    }
    out
}


/// Whether a character is white space in the sense of Unicode.
pub open spec fn is_space(c: char) -> bool {
    ||| '\u{9}' <= c <= '\u{d}'
    ||| c == ' '
    ||| c == '\u{85}'
    ||| c == '\u{a0}'
    ||| c == '\u{1680}'
    ||| '\u{2000}' <= c <= '\u{200a}'
    ||| c == '\u{2028}'
    ||| c == '\u{2029}'
    ||| c == '\u{202f}'
    ||| c == '\u{205f}'
    ||| c == '\u{3000}'
}

/// Tests for white space.
pub fn space(c: char) -> (r: bool)
    ensures
        r == is_space(c),
{
    ('\u{9}' <= c && c <= '\u{d}') || c == ' ' || c == '\u{85}' || c == '\u{a0}' || c == '\u{1680}'
        || ('\u{2000}' <= c && c <= '\u{200a}') || c == '\u{2028}' || c == '\u{2029}' || c
        == '\u{202f}' || c == '\u{205f}' || c == '\u{3000}'
}

/// The text without the white space that it starts with.
pub open spec fn trimmed_start(s: Seq<char>) -> Seq<char>
    decreases s.len(),
{
    if s.len() > 0 && is_space(s[0]) {
        trimmed_start(s.skip(1))
    } else {
        s
    }
}

/// The text without the white space that it ends with.
pub open spec fn trimmed_end(s: Seq<char>) -> Seq<char>
    decreases s.len(),
{
    if s.len() > 0 && is_space(s.last()) {
        trimmed_end(s.drop_last())
    } else {
        s
    }
}

/// The text without white space at either end.
pub open spec fn trimmed(s: Seq<char>) -> Seq<char> {
    trimmed_end(trimmed_start(s))
}

/// Where the text starts once leading white space is passed over.
fn start_index(cs: &[char]) -> (i: usize)
    ensures
        i <= cs@.len(),
        trimmed_start(cs@) == cs@.skip(i as int),
{
    let mut i: usize = 0;
    assert(cs@.skip(0) =~= cs@);
    while i < cs.len() && space(cs[i])
        invariant
            i <= cs@.len(),
            trimmed_start(cs@) == trimmed_start(cs@.skip(i as int)),
        decreases cs@.len() - i,
    {
        i += 1;
        assert(cs@.skip(i as int) =~= cs@.skip(i - 1).skip(1));
    }
    i
}

/// Where the part from `from` ends once trailing white space is taken off.
fn end_index(cs: &[char], from: usize) -> (j: usize)
    requires
        from <= cs@.len(),
    ensures
        from <= j <= cs@.len(),
        trimmed_end(cs@.skip(from as int)) == cs@.subrange(from as int, j as int),
{
    let mut j: usize = cs.len();
    assert(cs@.skip(from as int) =~= cs@.subrange(from as int, j as int));
    while j > from && space(cs[j - 1])
        invariant
            from <= j <= cs@.len(),
            trimmed_end(cs@.skip(from as int)) == trimmed_end(cs@.subrange(from as int, j as int)),
        decreases j,
    {
        j -= 1;
        assert(cs@.subrange(from as int, j as int) =~= cs@.subrange(from as int, j + 1).drop_last());
    }
    j
}

/// Removes the white space at the start.
pub fn trim_start(s: &str) -> (r: String)
    ensures
        r@ == trimmed_start(s@),
{
    let cs = chars_of(s);
    let i: usize = start_index(&cs);
    assert(cs@.skip(i as int) =~= cs@.subrange(i as int, cs@.len() as int));
    string_of(&cs, i, cs.len())
}

/// Removes the white space at the end.
pub fn trim_end(s: &str) -> (r: String)
    ensures
        r@ == trimmed_end(s@),
{
    let cs = chars_of(s);
    assert(cs@.skip(0) =~= cs@);
    let j: usize = end_index(&cs, 0);
    string_of(&cs, 0, j)
}

/// Removes the white space at both ends.
pub fn trim(s: &str) -> (r: String)
    ensures
        r@ == trimmed(s@),
{
    let cs = chars_of(s);
    let i: usize = start_index(&cs);
    let j: usize = end_index(&cs, i);
    string_of(&cs, i, j)
}

/// The first index from `i` on at which the text holds `c`, or its length.
pub open spec fn next_char(s: Seq<char>, c: char, i: int) -> int
    decreases s.len() - i,
{
    if i >= s.len() {
        s.len() as int
    } else if s[i] == c {
        i
    } else {
        next_char(s, c, i + 1)
    }
}

/// What `next_char` finds is in bounds, holds the character, and nothing before it does.
pub proof fn next_char_finds(s: Seq<char>, c: char, i: int)
    requires
        0 <= i <= s.len(),
    ensures
        i <= next_char(s, c, i) <= s.len(),
        next_char(s, c, i) < s.len() ==> s[next_char(s, c, i)] == c,
        forall|k: int| i <= k < next_char(s, c, i) ==> s[k] != c,
    decreases s.len() - i,
{
    if i < s.len() && s[i] != c {
        next_char_finds(s, c, i + 1);
    }
}

/// The index is the next one that holds `c` when it does and nothing before it does.
pub proof fn next_char_unique(s: Seq<char>, c: char, i: int, j: int)
    requires
        0 <= i <= j <= s.len(),
        j < s.len() ==> s[j] == c,
        forall|k: int| i <= k < j ==> s[k] != c,
    ensures
        next_char(s, c, i) == j,
    decreases j - i,
{
    if i < j {
        next_char_unique(s, c, i + 1, j);
    }
}

/// Looks for `c` from `from` on.
pub fn find_char(cs: &[char], c: char, from: usize) -> (i: usize)
    requires
        from <= cs@.len(),
    ensures
        i == next_char(cs@, c, from as int),
        from <= i <= cs@.len(),
        i < cs@.len() ==> cs@[i as int] == c,
        forall|k: int| from <= k < i ==> cs@[k] != c,
{
    let mut i: usize = from;
    while i < cs.len() && cs[i] != c
        invariant
            from <= i <= cs@.len(),
            next_char(cs@, c, from as int) == next_char(cs@, c, i as int),
            forall|k: int| from <= k < i ==> cs@[k] != c,
        decreases cs@.len() - i,
    {
        i += 1;
    }
    i
}

/// The pieces of a text between the characters `c`; a text without one is one piece.
pub open spec fn pieces(s: Seq<char>, c: char) -> Seq<Seq<char>>
    decreases s.len(),
{
    let i = next_char(s, c, 0);
    if 0 <= i < s.len() {
        seq![s.take(i)] + pieces(s.skip(i + 1), c)
    } else {
        seq![s]
    }
}

/// Splits at every `c`.
pub fn split(s: &str, c: char) -> (r: Vec<String>)
    ensures
        views(r@) == pieces(s@, c),
{
    let cs = chars_of(s);
    split_chars(&cs, c)
}

/// Splits a character list at every `c`.
pub fn split_chars(cs: &[char], c: char) -> (r: Vec<String>)
    ensures
        views(r@) == pieces(cs@, c),
{
    let mut out: Vec<String> = Vec::new();
    let mut from: usize = 0;
    assert(cs@.skip(0) =~= cs@);
    assert(views(out@) + pieces(cs@, c) =~= pieces(cs@, c));
    loop
        invariant
            from <= cs@.len(),
            views(out@) + pieces(cs@.skip(from as int), c) == pieces(cs@, c),
        decreases cs@.len() - from,
    {
        let i: usize = find_char(cs, c, from);
        let ghost rest = cs@.skip(from as int);
        proof {
            next_char_unique(rest, c, 0, i - from);
        }
        let piece = string_of(cs, from, i);
        let ghost before = out@;
        out.push(piece);
        assert(views(out@) =~= views(before).push(piece@));
        if i >= cs.len() {
            assert(piece@ =~= rest);
            assert(views(out@) =~= views(before) + seq![rest]);
            return out;
        }
        from = i + 1;
        assert(cs@.skip(from as int) =~= rest.skip(next_char(rest, c, 0) + 1));
        assert(piece@ =~= rest.take(next_char(rest, c, 0)));
        assert(views(out@) + pieces(cs@.skip(from as int), c) =~= views(before) + (seq![piece@]
            + pieces(cs@.skip(from as int), c)));
    }
}

/// The two sides of the first `c` in a text, where it holds one.
pub open spec fn halves(s: Seq<char>, c: char) -> Option<(Seq<char>, Seq<char>)> {
    let i = next_char(s, c, 0);
    if i < s.len() {
        Some((s.take(i), s.skip(i + 1)))
    } else {
        None
    }
}

/// Splits at the first `c`.
pub fn split_once(s: &str, c: char) -> (r: Option<(String, String)>)
    ensures
        r matches Some(p) ==> halves(s@, c) == Some((p.0@, p.1@)),
        r is None ==> halves(s@, c) is None,
{
    let cs = chars_of(s);
    let i: usize = find_char(&cs, c, 0);
    if i < cs.len() {
        let a = string_of(&cs, 0, i);
        let b = string_of(&cs, i + 1, cs.len());
        assert(a@ =~= s@.take(i as int));
        assert(b@ =~= s@.skip(i + 1));
        Some((a, b))
    } else {
        None
    }
}

/// A line without the carriage return that it ends with.
pub open spec fn without_return(s: Seq<char>) -> Seq<char> {
    if s.len() > 0 && s.last() == '\r' {
        s.drop_last()
    } else {
        s
    }
}

/// The lines of a text: each ends at a line feed, or a carriage return and a
/// line feed; the last one may end with the text.
pub open spec fn lines_of(s: Seq<char>) -> Seq<Seq<char>>
    decreases s.len(),
{
    let i = next_char(s, '\n', 0);
    if s.len() == 0 {
        Seq::empty()
    } else if 0 <= i < s.len() {
        seq![without_return(s.take(i))] + lines_of(s.skip(i + 1))
    } else {
        seq![s]
    }
}

/// Splits a text into lines.
pub fn lines(s: &str) -> (r: Vec<String>)
    ensures
        views(r@) == lines_of(s@),
{
    let cs = chars_of(s);
    let mut out: Vec<String> = Vec::new();
    let mut from: usize = 0;
    assert(cs@.skip(0) =~= cs@);
    assert(views(out@) + lines_of(cs@) =~= lines_of(cs@));
    while from < cs.len()
        invariant
            from <= cs@.len(),
            views(out@) + lines_of(cs@.skip(from as int)) == lines_of(cs@),
        decreases cs@.len() - from,
    {
        let i: usize = find_char(&cs, '\n', from);
        let ghost rest = cs@.skip(from as int);
        proof {
            next_char_unique(rest, '\n', 0, i - from);
        }
        let ghost before = out@;
        if i >= cs.len() {
            let line = string_of(&cs, from, i);
            out.push(line);
            assert(line@ =~= rest);
            from = i;
            assert(views(out@) =~= views(before).push(line@));
            assert(cs@.skip(from as int) =~= Seq::<char>::empty());
            assert(views(out@) + lines_of(cs@.skip(from as int)) =~= views(before) + seq![rest]);
        } else {
            let to: usize = if i > from && cs[i - 1] == '\r' {
                i - 1
            } else {
                i
            };
            let line = string_of(&cs, from, to);
            out.push(line);
            assert(line@ =~= without_return(rest.take(i - from)));
            let ghost start: int = from as int;
            from = i + 1;
            assert(cs@.skip(from as int) =~= rest.skip(i - start + 1));
            assert(views(out@) =~= views(before).push(line@));
            assert(views(out@) + lines_of(cs@.skip(from as int)) =~= views(before) + (seq![line@]
                + lines_of(cs@.skip(from as int))));
        }
    }
    assert(cs@.skip(from as int) =~= Seq::<char>::empty());
    assert(views(out@) + lines_of(cs@.skip(from as int)) =~= views(out@));
    out
}

/// Whether `p` stands in `s` at index `i`.
pub open spec fn occurs_at(s: Seq<char>, p: Seq<char>, i: int) -> bool {
    0 <= i && i + p.len() <= s.len() && s.subrange(i, i + p.len()) == p
}

/// Whether `p` stands somewhere in `s`.
pub open spec fn has_part(s: Seq<char>, p: Seq<char>) -> bool {
    exists|i: int| occurs_at(s, p, i)
}

/// Tests for `p` at index `i`.
pub fn part_at(s: &[char], p: &[char], i: usize) -> (r: bool)
    requires
        i <= s@.len(),
    ensures
        r == occurs_at(s@, p@, i as int),
{
    let n: usize = s.len();
    if n - i < p.len() {
        return false;
    }
    let mut k: usize = 0;
    while k < p.len()
        invariant
            k <= p@.len(),
            n == s@.len(),
            i + p@.len() <= n,
            forall|j: int| 0 <= j < k ==> s@[i + j] == p@[j],
        decreases p@.len() - k,
    {
        if s[i + k] != p[k] {
            assert(s@.subrange(i as int, i + p@.len())[k as int] != p@[k as int]);
            return false;
        }
        k += 1;
    }
    assert(s@.subrange(i as int, i + p@.len()) =~= p@);
    true
}

/// The first index from `i` on at which `p` stands in `s`.
pub open spec fn next_part(s: Seq<char>, p: Seq<char>, i: int) -> Option<int>
    decreases s.len() + 1 - i,
{
    if i > s.len() {
        None
    } else if occurs_at(s, p, i) {
        Some(i)
    } else {
        next_part(s, p, i + 1)
    }
}

/// What `next_part` finds is an occurrence, the first; where it finds none there is none.
pub proof fn next_part_finds(s: Seq<char>, p: Seq<char>, i: int)
    requires
        0 <= i,
    ensures
        next_part(s, p, i) matches Some(k) ==> i <= k && occurs_at(s, p, k),
        next_part(s, p, i) matches Some(k) ==> forall|j: int| i <= j < k ==> !occurs_at(s, p, j),
        next_part(s, p, i) is None ==> forall|j: int| i <= j ==> !occurs_at(s, p, j),
    decreases s.len() + 1 - i,
{
    if i <= s.len() && !occurs_at(s, p, i) {
        next_part_finds(s, p, i + 1);
    }
}

/// Looks for `p` from `from` on.
pub fn find_part(s: &[char], p: &[char], from: usize) -> (r: Option<usize>)
    requires
        from <= s@.len(),
    ensures
        r matches Some(i) ==> next_part(s@, p@, from as int) == Some(i as int) && from <= i && i
            + p@.len() <= s@.len() && i + p@.len() <= usize::MAX,
        r is None ==> next_part(s@, p@, from as int) is None,
{
    let n: usize = s.len();
    let mut i: usize = from;
    loop
        invariant
            from <= i <= n,
            n == s@.len(),
            next_part(s@, p@, from as int) == next_part(s@, p@, i as int),
        decreases s@.len() - i,
    {
        if part_at(s, p, i) {
            return Some(i);
        }
        if i >= n {
            assert(next_part(s@, p@, i + 1) is None);
            return None;
        }
        i += 1;
    }
}

/// Whether `s` holds `p`.
pub fn contains(s: &str, p: &str) -> (r: bool)
    ensures
        r == has_part(s@, p@),
{
    let cs = chars_of(s);
    let ps = chars_of(p);
    proof {
        next_part_finds(cs@, ps@, 0);
    }
    match find_part(&cs, &ps, 0) {
        Some(i) => {
            assert(occurs_at(cs@, ps@, i as int));
            true
        },
        None => false,
    }
}

/// Whether `s` starts with `p`.
pub fn starts_with(s: &str, p: &str) -> (r: bool)
    ensures
        r == p@.is_prefix_of(s@),
{
    let cs = chars_of(s);
    let ps = chars_of(p);
    part_at(&cs, &ps, 0)
}

/// Whether `s` ends with `p`.
pub fn ends_with(s: &str, p: &str) -> (r: bool)
    ensures
        r == p@.is_suffix_of(s@),
{
    let cs = chars_of(s);
    let ps = chars_of(p);
    if ps.len() > cs.len() {
        return false;
    }
    part_at(&cs, &ps, cs.len() - ps.len())
}

/// What follows the prefix `p`, where the text starts with it.
pub open spec fn after_prefix(s: Seq<char>, p: Seq<char>) -> Option<Seq<char>> {
    if p.is_prefix_of(s) {
        Some(s.skip(p.len() as int))
    } else {
        None
    }
}

/// Takes off the prefix `p`.
pub fn strip_prefix(s: &str, p: &str) -> (r: Option<String>)
    ensures
        r matches Some(t) ==> after_prefix(s@, p@) == Some(t@),
        r is None ==> after_prefix(s@, p@) is None,
{
    let cs = chars_of(s);
    let ps = chars_of(p);
    if part_at(&cs, &ps, 0) {
        let t = string_of(&cs, ps.len(), cs.len());
        assert(t@ =~= s@.skip(p@.len() as int));
        Some(t)
    } else {
        None
    }
}

/// What precedes the suffix `p`, where the text ends with it.
pub open spec fn before_suffix(s: Seq<char>, p: Seq<char>) -> Option<Seq<char>> {
    if p.is_suffix_of(s) {
        Some(s.take(s.len() - p.len()))
    } else {
        None
    }
}

/// Takes off the suffix `p`.
pub fn strip_suffix(s: &str, p: &str) -> (r: Option<String>)
    ensures
        r matches Some(t) ==> before_suffix(s@, p@) == Some(t@),
        r is None ==> before_suffix(s@, p@) is None,
{
    let cs = chars_of(s);
    let ps = chars_of(p);
    if ps.len() <= cs.len() && part_at(&cs, &ps, cs.len() - ps.len()) {
        let t = string_of(&cs, 0, cs.len() - ps.len());
        assert(t@ =~= s@.take(s@.len() - p@.len()));
        Some(t)
    } else {
        None
    }
}

/// The text with every occurrence of `p`, from the left and without overlap,
/// replaced by `q`. For a `p` that is not empty.
pub open spec fn replaced(s: Seq<char>, p: Seq<char>, q: Seq<char>) -> Seq<char>
    decreases s.len(),
{
    match next_part(s, p, 0) {
        Some(i) => if p.len() > 0 && 0 <= i && i + p.len() <= s.len() {
            s.take(i) + q + replaced(s.skip(i + p.len()), p, q)
        } else {
            s
        },
        None => s,
    }
}

/// Shifting the start of the search shifts what it finds.
pub proof fn next_part_shift(s: Seq<char>, p: Seq<char>, from: int, i: int)
    requires
        0 <= from <= s.len(),
        0 <= i,
    ensures
        next_part(s.skip(from), p, i) == match next_part(s, p, from + i) {
            Some(k) => Some(k - from),
            None => None,
        },
    decreases s.len() + 1 - from - i,
{
    if from + i <= s.len() {
        if i + p.len() <= s.len() - from {
            assert(s.skip(from).subrange(i, i + p.len()) =~= s.subrange(
                from + i,
                from + i + p.len(),
            ));
        }
        next_part_shift(s, p, from, i + 1);
    }
}

/// Replaces every occurrence of `p` by `q`.
pub fn replace(s: &str, p: &str, q: &str) -> (r: String)
    requires
        p@.len() > 0,
    ensures
        r@ == replaced(s@, p@, q@),
{
    let cs = chars_of(s);
    let ps = chars_of(p);
    let mut out = String::new();
    let mut from: usize = 0;
    assert(cs@.skip(0) =~= cs@);
    assert(out@ + replaced(cs@, p@, q@) =~= replaced(cs@, p@, q@));
    loop
        invariant
            from <= cs@.len(),
            ps@ == p@,
            p@.len() > 0,
            cs@ == s@,
            out@ + replaced(cs@.skip(from as int), p@, q@) == replaced(cs@, p@, q@),
        decreases cs@.len() - from,
    {
        let ghost rest = cs@.skip(from as int);
        proof {
            next_part_shift(cs@, p@, from as int, 0);
        }
        match find_part(&cs, &ps, from) {
            Some(i) => {
                let head = string_of(&cs, from, i);
                assert(head@ =~= rest.take(i - from));
                let ghost before = out@;
                out.append(head.as_str());
                out.append(q);
                let ghost start: int = from as int;
                from = i + ps.len();
                assert(cs@.skip(from as int) =~= rest.skip(i - start + p@.len()));
                assert(out@ + replaced(cs@.skip(from as int), p@, q@) =~= before + (head@ + q@
                    + replaced(cs@.skip(from as int), p@, q@)));
            },
            None => {
                let tail = string_of(&cs, from, cs.len());
                assert(tail@ =~= rest);
                out.append(tail.as_str());
                return out;
            },
        }
    }
}

/// The texts one after the other with `sep` between them.
pub open spec fn joined(parts: Seq<Seq<char>>, sep: Seq<char>) -> Seq<char>
    decreases parts.len(),
{
    if parts.len() == 0 {
        Seq::empty()
    } else if parts.len() == 1 {
        parts[0]
    } else {
        joined(parts.drop_last(), sep) + sep + parts.last()
    }
}

/// Joins strings with `sep` between them.
pub fn join(parts: &[String], sep: &str) -> (r: String)
    ensures
        r@ == joined(views(parts@), sep@),
{
    let mut out = String::new();
    let mut i: usize = 0;
    while i < parts.len()
        invariant
            i <= parts@.len(),
            out@ == joined(views(parts@).take(i as int), sep@),
        decreases parts@.len() - i,
    {
        let ghost prev = views(parts@).take(i as int);
        if i > 0 {
            out.append(sep);
        }
        out.append(parts[i].as_str());
        i += 1;
        assert(views(parts@).take(i as int).drop_last() =~= prev);
        assert(views(parts@).take(i as int).last() == views(parts@)[i - 1]);
        if i == 1 {
            assert(out@ =~= views(parts@)[0]);
        }
    }
    assert(views(parts@).take(i as int) =~= views(parts@));
    out
}

/// `n` times the character `c`.
pub open spec fn repeated(c: char, n: int) -> Seq<char> {
    Seq::new(if n > 0 { n as nat } else { 0 }, |i: int| c)
}

/// Writes the character `c` `n` times.
pub fn repeat(c: char, n: usize) -> (r: String)
    ensures
        r@ == repeated(c, n as int),
{
    let mut out = String::new();
    let mut i: usize = 0;
    assert(out@ =~= repeated(c, 0));
    while i < n
        invariant
            i <= n,
            out@ == repeated(c, i as int),
        decreases n - i,
    {
        out.push(c);
        i += 1;
        assert(repeated(c, i as int) =~= repeated(c, i - 1).push(c));
    }
    out
}

/// The text with blanks behind it, up to a width in characters.
pub open spec fn padded_right(s: Seq<char>, width: int) -> Seq<char> {
    s + repeated(' ', width - s.len())
}

/// The text with blanks before it, up to a width in characters.
pub open spec fn padded_left(s: Seq<char>, width: int) -> Seq<char> {
    repeated(' ', width - s.len()) + s
}

/// Pads with blanks behind.
pub fn pad_right(s: &str, width: usize) -> (r: String)
    ensures
        r@ == padded_right(s@, width as int),
{
    let cs = chars_of(s);
    let n: usize = if width > cs.len() {
        width - cs.len()
    } else {
        0
    };
    let mut out = s.to_owned();
    let blanks = repeat(' ', n);
    out.append(blanks.as_str());
    assert(repeated(' ', n as int) =~= repeated(' ', width - s@.len()));
    out
}

/// Pads with blanks before.
pub fn pad_left(s: &str, width: usize) -> (r: String)
    ensures
        r@ == padded_left(s@, width as int),
{
    let cs = chars_of(s);
    let n: usize = if width > cs.len() {
        width - cs.len()
    } else {
        0
    };
    let mut out = repeat(' ', n);
    out.append(s);
    assert(repeated(' ', n as int) =~= repeated(' ', width - s@.len()));
    out
}

/// A line that ends at a line feed comes first, and the lines of the rest follow.
pub proof fn lines_of_line(l: Seq<char>, rest: Seq<char>)
    requires
        !l.contains('\n'),
    ensures
        lines_of(l + seq!['\n'] + rest) == seq![without_return(l)] + lines_of(rest),
{
    let s = l + seq!['\n'] + rest;
    assert forall|k: int| 0 <= k < l.len() implies s[k] != '\n' by {
        assert(l.contains(l[k]));
    }
    next_char_unique(s, '\n', 0, l.len() as int);
    assert(s.take(l.len() as int) =~= l);
    assert(s.skip(l.len() as int + 1) =~= rest);
}

/// Text that neither starts nor ends with white space is its own trimmed form.
pub proof fn trimmed_keeps(s: Seq<char>)
    requires
        s.len() > 0 ==> !is_space(s[0]) && !is_space(s.last()),
    ensures
        trimmed(s) == s,
{
}

/// A joined list is its first text, the separator and the rest joined.
pub proof fn joined_front(parts: Seq<Seq<char>>, sep: Seq<char>)
    requires
        parts.len() >= 2,
    ensures
        joined(parts, sep) == parts[0] + sep + joined(parts.skip(1), sep),
    decreases parts.len(),
{
    if parts.len() == 2 {
        assert(joined(parts.drop_last(), sep) == parts[0]);
        assert(joined(parts.skip(1), sep) == parts[1]);
    } else {
        joined_front(parts.drop_last(), sep);
        assert(parts.drop_last().skip(1) =~= parts.skip(1).drop_last());
        assert(joined(parts, sep) =~= parts[0] + sep + joined(parts.skip(1), sep));
    }
}

/// How often a text holds the character.
pub open spec fn char_count(s: Seq<char>, c: char) -> nat
    decreases s.len(),
{
    if s.len() == 0 {
        0
    } else {
        char_count(s.drop_last(), c) + if s.last() == c {
            1nat
        } else {
            0
        }
    }
}

proof fn char_count_concat(a: Seq<char>, b: Seq<char>, c: char)
    ensures
        char_count(a + b, c) == char_count(a, c) + char_count(b, c),
    decreases b.len(),
{
    if b.len() == 0 {
        assert(a + b =~= a);
    } else {
        char_count_concat(a, b.drop_last(), c);
        assert((a + b).drop_last() =~= a + b.drop_last());
    }
}

proof fn char_count_none(s: Seq<char>, c: char)
    requires
        forall|k: int| 0 <= k < s.len() ==> s[k] != c,
    ensures
        char_count(s, c) == 0,
    decreases s.len(),
{
    if s.len() > 0 {
        char_count_none(s.drop_last(), c);
    }
}

/// The pieces of a text, joined by the separator, are the text again; none of
/// them holds the separator, and there is one more than the text holds of it.
pub proof fn pieces_rejoin(s: Seq<char>, c: char)
    ensures
        joined(pieces(s, c), seq![c]) == s,
        pieces(s, c).len() == char_count(s, c) + 1,
        forall|i: int| 0 <= i < pieces(s, c).len() ==> !(#[trigger] pieces(s, c)[i]).contains(c),
    decreases s.len(),
{
    let p = pieces(s, c);
    let i = next_char(s, c, 0);
    next_char_finds(s, c, 0);
    if i < s.len() {
        let tail = s.skip(i + 1);
        let rest = pieces(tail, c);
        let first = s.take(i);
        pieces_rejoin(tail, c);
        assert(p == seq![first] + rest);
        assert(p.skip(1) =~= rest);
        joined_front(p, seq![c]);
        assert(s =~= first + seq![c] + tail);
        char_count_concat(first + seq![c], tail, c);
        char_count_concat(first, seq![c], c);
        char_count_none(first, c);
        assert(seq![c].drop_last() =~= Seq::empty());
        assert(char_count(seq![c], c) == 1) by {
            assert(char_count(Seq::empty(), c) == 0);
        }
        assert forall|k: int| 0 <= k < p.len() implies !(#[trigger] p[k]).contains(c) by {
            if k > 0 {
                assert(p[k] == rest[k - 1]);
            }
        }
    } else {
        char_count_none(s, c);
        assert forall|k: int| 0 <= k < p.len() implies !(#[trigger] p[k]).contains(c) by {
            assert(p[k] == s);
        }
    }
}

/// Splitting a joined list at its separator gives the list back.
pub proof fn pieces_of_joined(parts: Seq<Seq<char>>, c: char)
    requires
        parts.len() > 0,
        forall|i: int| 0 <= i < parts.len() ==> !(#[trigger] parts[i]).contains(c),
    ensures
        pieces(joined(parts, seq![c]), c) == parts,
    decreases parts.len(),
{
    let s = joined(parts, seq![c]);
    let first = parts[0];
    if parts.len() == 1 {
        assert forall|k: int| 0 <= k < s.len() implies s[k] != c by {
            assert(first.contains(first[k]));
        }
        next_char_unique(s, c, 0, s.len() as int);
        assert(parts =~= seq![s]);
    } else {
        joined_front(parts, seq![c]);
        let tail = parts.skip(1);
        assert forall|i: int| 0 <= i < tail.len() implies !(#[trigger] tail[i]).contains(c) by {
            assert(tail[i] == parts[i + 1]);
        }
        pieces_of_joined(tail, c);
        assert forall|k: int| 0 <= k < first.len() implies s[k] != c by {
            assert(first.contains(first[k]));
        }
        next_char_unique(s, c, 0, first.len() as int);
        assert(s.take(first.len() as int) =~= first);
        assert(s.skip(first.len() as int + 1) =~= joined(tail, seq![c]));
        assert(parts =~= seq![first] + tail);
    }
}

/// Text before the first `c` and text after it are the two sides of it.
pub proof fn halves_of(a: Seq<char>, c: char, b: Seq<char>)
    requires
        !a.contains(c),
    ensures
        halves(a + seq![c] + b, c) == Some((a, b)),
{
    let s = a + seq![c] + b;
    assert forall|k: int| 0 <= k < a.len() implies s[k] != c by {
        assert(a.contains(a[k]));
    }
    next_char_unique(s, c, 0, a.len() as int);
    assert(s.take(a.len() as int) =~= a);
    assert(s.skip(a.len() as int + 1) =~= b);
}

/// The first index from `i` on at which the text holds white space, or its length.
pub open spec fn next_space(s: Seq<char>, i: int) -> int
    decreases s.len() - i,
{
    if i >= s.len() {
        s.len() as int
    } else if is_space(s[i]) {
        i
    } else {
        next_space(s, i + 1)
    }
}

/// The search for white space stays in bounds, and shifts with its start.
pub proof fn next_space_shift(s: Seq<char>, from: int, i: int)
    requires
        0 <= from <= s.len(),
        0 <= i <= s.len() - from,
    ensures
        next_space(s.skip(from), i) == next_space(s, from + i) - from,
        i <= next_space(s.skip(from), i) <= s.len() - from,
    decreases s.len() - from - i,
{
    if from + i < s.len() {
        if !is_space(s[from + i]) {
            next_space_shift(s, from, i + 1);
        }
    }
}

/// Trimming the start does not make a text longer.
pub proof fn trimmed_start_len(s: Seq<char>)
    ensures
        trimmed_start(s).len() <= s.len(),
        trimmed_start(s).len() > 0 ==> !is_space(trimmed_start(s)[0]),
    decreases s.len(),
{
    if s.len() > 0 && is_space(s[0]) {
        trimmed_start_len(s.skip(1));
    }
}

/// The runs of characters between white space.
pub open spec fn words_of(s: Seq<char>) -> Seq<Seq<char>>
    decreases s.len(),
{
    let t = trimmed_start(s);
    let n = next_space(t, 0);
    if t.len() == 0 || !(0 < n <= t.len()) || t.len() > s.len() {
        Seq::empty()
    } else {
        seq![t.take(n)] + words_of(t.skip(n))
    }
}

/// Splits at white space.
pub fn words(s: &str) -> (r: Vec<String>)
    ensures
        views(r@) == words_of(s@),
{
    let cs = chars_of(s);
    let mut out: Vec<String> = Vec::new();
    let mut from: usize = 0;
    assert(cs@.skip(0) =~= cs@);
    assert(views(out@) + words_of(cs@) =~= words_of(cs@));
    loop
        invariant
            from <= cs@.len(),
            cs@ == s@,
            views(out@) + words_of(cs@.skip(from as int)) == words_of(cs@),
        decreases cs@.len() - from,
    {
        let ghost rest = cs@.skip(from as int);
        let mut i: usize = from;
        while i < cs.len() && space(cs[i])
            invariant
                from <= i <= cs@.len(),
                trimmed_start(rest) == trimmed_start(cs@.skip(i as int)),
            decreases cs@.len() - i,
        {
            i += 1;
            assert(cs@.skip(i as int) =~= cs@.skip(i - 1).skip(1));
        }
        let ghost t = cs@.skip(i as int);
        assert(trimmed_start(rest) == t);
        if i >= cs.len() {
            assert(views(out@) + words_of(rest) =~= views(out@));
            return out;
        }
        let mut j: usize = i;
        while j < cs.len() && !space(cs[j])
            invariant
                i <= j <= cs@.len(),
                next_space(cs@, i as int) == next_space(cs@, j as int),
            decreases cs@.len() - j,
        {
            j += 1;
        }
        proof {
            next_space_shift(cs@, i as int, 0);
            assert(!is_space(t[0]));
        }
        let word = string_of(&cs, i, j);
        let ghost before = out@;
        assert(next_space(t, 0) == j - i);
        assert(next_space(t, 0) == next_space(t, 1));
        proof {
            next_space_shift(cs@, i as int, 1);
        }
        assert(word@ =~= t.take(j - i));
        out.push(word);
        assert(views(out@) =~= views(before).push(word@));
        assert(t.skip(j - i) =~= cs@.skip(j as int));
        from = j;
        assert(views(out@) + words_of(cs@.skip(from as int)) =~= views(before) + (seq![word@]
            + words_of(cs@.skip(from as int))));
    }
}

/// A path below another: the second where it is absolute, else the two with a
/// slash between them, unless the first is empty or ends with one.
pub open spec fn joined_path(base: Seq<char>, rest: Seq<char>) -> Seq<char> {
    if rest.len() > 0 && rest[0] == '/' {
        rest
    } else if base.len() == 0 || base.last() == '/' {
        base + rest
    } else {
        base + seq!['/'] + rest
    }
}

/// Joins two paths.
pub fn join_path(base: &str, rest: &str) -> (r: String)
    ensures
        r@ == joined_path(base@, rest@),
{
    let b = chars_of(base);
    let p = chars_of(rest);
    if p.len() > 0 && p[0] == '/' {
        return rest.to_owned();
    }
    let mut out = base.to_owned();
    if b.len() > 0 && b[b.len() - 1] != '/' {
        out.push('/');
    }
    out.append(rest);
    assert(out@ =~= joined_path(base@, rest@));
    out
}

/// How many bytes a text takes.
pub open spec fn byte_len(s: Seq<char>) -> nat {
    encode_utf8(s).len()
}

/// Counts the bytes of a text.
pub fn byte_count(s: &str) -> (n: usize)
    ensures
        n == byte_len(s@),
{
    s.as_bytes().len()
}

/// The bytes of two texts in a row are those of the one and those of the other.
pub proof fn byte_len_concat(a: Seq<char>, b: Seq<char>)
    ensures
        encode_utf8(a + b) == encode_utf8(a) + encode_utf8(b),
        byte_len(a + b) == byte_len(a) + byte_len(b),
    decreases a.len(),
{
    if a.len() == 0 {
        assert(a + b =~= b);
        assert(encode_utf8(a) + encode_utf8(b) =~= encode_utf8(b));
    } else {
        byte_len_concat(a.drop_first(), b);
        assert((a + b).drop_first() =~= a.drop_first() + b);
        assert(encode_utf8(a + b) =~= encode_utf8(a) + encode_utf8(b));
    }
}

/// A text that is not empty takes at least one byte.
pub proof fn byte_len_positive(s: Seq<char>)
    requires
        s.len() > 0,
    ensures
        byte_len(s) > 0,
{
}

/// A longer front part takes more bytes.
pub proof fn byte_len_monotonic(s: Seq<char>, i: int, j: int)
    requires
        0 <= i <= j <= s.len(),
    ensures
        byte_len(s.take(i)) <= byte_len(s.take(j)) <= byte_len(s),
        i < j ==> byte_len(s.take(i)) < byte_len(s.take(j)),
{
    let mid = s.subrange(i, j);
    assert(s.take(j) =~= s.take(i) + mid);
    byte_len_concat(s.take(i), mid);
    assert(s =~= s.take(j) + s.skip(j));
    byte_len_concat(s.take(j), s.skip(j));
    if i < j {
        byte_len_positive(mid);
    }
}

/// A character in lower case, if it is an ASCII letter.
pub open spec fn lower(c: char) -> char {
    if 'A' <= c <= 'Z' {
        ((c as u8) + 32) as u8 as char
    } else {
        c
    }
}

/// Puts an ASCII letter in lower case.
pub fn to_lower(c: char) -> (r: char)
    ensures
        r == lower(c),
{
    if 'A' <= c && c <= 'Z' {
        ((c as u8) + 32) as char
    } else {
        c
    }
}

/// The text of an optional string.
pub open spec fn opt_view(s: Option<String>) -> Option<Seq<char>> {
    match s {
        Some(t) => Some(t@),
        None => None,
    }
}

/// The text of an optional string slice.
pub open spec fn opt_str(s: Option<&str>) -> Option<Seq<char>> {
    match s {
        Some(t) => Some(t@),
        None => None,
    }
}

/// The text of an optional string, or another one where there is none.
pub open spec fn text_or(s: Option<Seq<char>>, other: Seq<char>) -> Seq<char> {
    match s {
        Some(t) => t,
        None => other,
    }
}

/// A copy of an optional string, or of another one where there is none.
pub fn clone_or(s: &Option<String>, other: &str) -> (r: String)
    ensures
        r@ == text_or(opt_view(*s), other@),
{
    match s {
        Some(t) => t.clone(),
        None => other.to_owned(),
    }
}

/// A copy of an optional string.
pub fn clone_opt(s: &Option<String>) -> (r: Option<String>)
    ensures
        opt_view(r) == opt_view(*s),
{
    match s {
        Some(t) => Some(t.clone()),
        None => None,
    }
}

/// The string slice of an optional string.
pub fn as_opt_str(s: &Option<String>) -> (r: Option<&str>)
    ensures
        opt_str(r) == opt_view(*s),
{
    match s {
        Some(t) => Some(t.as_str()),
        None => None,
    }
}

/// A copy of a list of texts.
pub fn copy_texts(list: &[String]) -> (r: Vec<String>)
    ensures
        views(r@) == views(list@),
{
    let mut out: Vec<String> = Vec::new();
    let mut i: usize = 0;
    while i < list.len()
        invariant
            i <= list@.len(),
            out@.len() == i,
            forall|k: int| 0 <= k < i ==> (#[trigger] out@[k])@ == list@[k]@,
        decreases list@.len() - i,
    {
        out.push(list[i].clone());
        i += 1;
    }
    assert(views(out@) =~= views(list@));
    out
}

} // verus!
