//! What holds of texts that are trimmed, padded, parted and put together.

use crate::text::{
    after_prefix, before_suffix, has_part, is_space, joined, joined_front, joined_path, lines_of,
    lines_of_line, next_char_unique, next_part, next_part_finds, next_part_shift, occurs_at,
    padded_left, padded_right, repeated, replaced, trimmed, trimmed_end, trimmed_start, words_of,
};
use vstd::prelude::*;

verus! {

/// Whether a text is nothing but white space.
pub open spec fn is_blank(s: Seq<char>) -> bool {
    forall|i: int| 0 <= i < s.len() ==> is_space(#[trigger] s[i])
}

proof fn start_is_blank(s: Seq<char>) -> (front: Seq<char>)
    ensures
        s == front + trimmed_start(s),
        is_blank(front),
    decreases s.len(),
{
    if s.len() > 0 && is_space(s[0]) {
        let rest = start_is_blank(s.skip(1));
        let front = seq![s[0]] + rest;
        assert(s =~= seq![s[0]] + s.skip(1));
        assert(s.skip(1) == rest + trimmed_start(s));
        assert(front + trimmed_start(s) =~= seq![s[0]] + (rest + trimmed_start(s)));
        assert(is_blank(front)) by {
            assert forall|i: int| 0 <= i < front.len() implies is_space(#[trigger] front[i]) by {
                if i > 0 {
                    assert(front[i] == rest[i - 1]);
                }
            }
        }
        front
    } else {
        assert(s =~= Seq::<char>::empty() + s);
        Seq::empty()
    }
}

proof fn end_is_blank(s: Seq<char>) -> (back: Seq<char>)
    ensures
        s == trimmed_end(s) + back,
        is_blank(back),
        trimmed_end(s).len() > 0 ==> !is_space(trimmed_end(s).last()) && trimmed_end(s)[0] == s[0],
    decreases s.len(),
{
    if s.len() > 0 && is_space(s.last()) {
        let rest = end_is_blank(s.drop_last());
        let back = rest.push(s.last());
        assert(s =~= s.drop_last().push(s.last()));
        assert(s.drop_last() == trimmed_end(s) + rest);
        assert(trimmed_end(s) + back =~= (trimmed_end(s) + rest).push(s.last()));
        assert(is_blank(back)) by {
            assert forall|i: int| 0 <= i < back.len() implies is_space(#[trigger] back[i]) by {
                if i < rest.len() {
                    assert(back[i] == rest[i]);
                }
            }
        }
        back
    } else {
        assert(s =~= s + Seq::<char>::empty());
        Seq::empty()
    }
}

/// Trimming takes away white space at both ends and nothing else, and leaves none
/// there.
pub proof fn trimming_takes_the_blanks(s: Seq<char>) -> (r: (Seq<char>, Seq<char>))
    ensures
        s == r.0 + trimmed(s) + r.1,
        is_blank(r.0),
        is_blank(r.1),
        trimmed(s).len() > 0 ==> !is_space(trimmed(s)[0]) && !is_space(trimmed(s).last()),
{
    let front = start_is_blank(s);
    let t = trimmed_start(s);
    crate::text::trimmed_start_len(s);
    let back = end_is_blank(t);
    assert(s =~= front + trimmed(s) + back);
    (front, back)
}

/// A text is as wide as asked for once it is padded, or as wide as it is where that
/// is wider; it stands at one side and blanks fill the other.
pub proof fn padding_fills_the_width(s: Seq<char>, width: nat)
    ensures
        padded_right(s, width as int).len() == if s.len() > width { s.len() } else { width },
        padded_left(s, width as int).len() == if s.len() > width { s.len() } else { width },
        padded_right(s, width as int).take(s.len() as int) == s,
        padded_left(s, width as int).skip(padded_left(s, width as int).len() - s.len()) == s,
        forall|i: int|
            s.len() <= i < padded_right(s, width as int).len() ==> #[trigger] padded_right(
                s,
                width as int,
            )[i] == ' ',
        forall|i: int|
            0 <= i < padded_left(s, width as int).len() - s.len() ==> #[trigger] padded_left(
                s,
                width as int,
            )[i] == ' ',
{
    assert(padded_right(s, width as int).take(s.len() as int) =~= s);
    assert(padded_left(s, width as int).skip(padded_left(s, width as int).len() - s.len()) =~= s);
}

/// A repeated character stands as often as asked for.
pub proof fn repetition_counts(c: char, n: nat)
    ensures
        repeated(c, n as int).len() == n,
        forall|i: int| 0 <= i < n ==> #[trigger] repeated(c, n as int)[i] == c,
{
}

/// What is put in front of a text or behind it can be taken off again.
pub proof fn ends_come_off(a: Seq<char>, b: Seq<char>)
    ensures
        after_prefix(a + b, a) == Some(b),
        before_suffix(a + b, b) == Some(a),
        after_prefix(b, a) matches Some(t) ==> b == a + t,
        before_suffix(a, b) matches Some(t) ==> a == t + b,
{
    let s = a + b;
    assert(s.subrange(0, a.len() as int) =~= a);
    assert(s.subrange(a.len() as int, s.len() as int) =~= b);
    assert(s.skip(a.len() as int) =~= b);
    assert(s.take(s.len() - b.len()) =~= a);
    if a.is_prefix_of(b) {
        assert(b =~= a + b.skip(a.len() as int));
    }
    if b.is_suffix_of(a) {
        assert(a =~= a.take(a.len() - b.len()) + b);
    }
}

/// A text holds a part exactly where it is something, the part, and something.
pub proof fn part_stands_between(front: Seq<char>, p: Seq<char>, back: Seq<char>)
    ensures
        has_part(front + p + back, p),
        occurs_at(front + p + back, p, front.len() as int),
{
    let s = front + p + back;
    assert(s.subrange(front.len() as int, (front.len() + p.len()) as int) =~= p);
    assert(occurs_at(s, p, front.len() as int));
}

/// A text without the part stays as it is; in one with the part, the first is
/// replaced, and so on in the rest.
pub proof fn replacing_is_exact(front: Seq<char>, p: Seq<char>, q: Seq<char>, back: Seq<char>)
    requires
        p.len() > 0,
        forall|i: int| 0 <= i < front.len() ==> !#[trigger] occurs_at(front + p + back, p, i),
    ensures
        replaced(front + p + back, p, q) == front + q + replaced(back, p, q),
        !has_part(back, p) ==> replaced(back, p, q) == back,
{
    let s = front + p + back;
    part_stands_between(front, p, back);
    next_part_finds(s, p, 0);
    assert(next_part(s, p, 0) == Some(front.len() as int));
    assert(s.take(front.len() as int) =~= front);
    assert(s.skip((front.len() + p.len()) as int) =~= back);
    next_part_finds(back, p, 0);
    if !has_part(back, p) {
        if let Some(k) = next_part(back, p, 0) {
            assert(occurs_at(back, p, k));
        }
    }
}

/// A path below another starts with it and ends with its own name, and nothing
/// but a slash is between them; an absolute one stands for itself.
pub proof fn path_is_below(base: Seq<char>, rest: Seq<char>)
    ensures
        rest.len() > 0 && rest[0] == '/' ==> joined_path(base, rest) == rest,
        !(rest.len() > 0 && rest[0] == '/') && base.len() > 0 && base.last() != '/' ==> joined_path(
            base,
            rest,
        ) == base + seq!['/'] + rest,
        !(rest.len() > 0 && rest[0] == '/') && (base.len() == 0 || base.last() == '/')
            ==> joined_path(base, rest) == base + rest,
{
}

/// Joined texts stand in their order, with the separator between neighbours.
pub proof fn joining_keeps_the_order(parts: Seq<Seq<char>>, more: Seq<Seq<char>>, sep: Seq<char>)
    requires
        parts.len() > 0,
        more.len() > 0,
    ensures
        joined(parts + more, sep) == joined(parts, sep) + sep + joined(more, sep),
        joined(seq![parts[0]], sep) == parts[0],
    decreases parts.len(),
{
    let all = parts + more;
    joined_front(all, sep);
    if parts.len() == 1 {
        assert(all.skip(1) =~= more);
        assert(joined(all, sep) =~= joined(parts, sep) + sep + joined(more, sep));
    } else {
        let rest = parts.skip(1);
        joining_keeps_the_order(rest, more, sep);
        joined_front(parts, sep);
        assert(all.skip(1) =~= rest + more);
        assert(joined(all, sep) =~= joined(parts, sep) + sep + joined(more, sep));
    }
}

/// How long joined texts are: as long as the texts and the separators.
pub proof fn one_text_joined(a: Seq<char>, b: Seq<char>, sep: Seq<char>)
    ensures
        joined(seq![a], sep) == a,
        joined(seq![a, b], sep) == a + sep + b,
        joined(Seq::empty(), sep) == Seq::<char>::empty(),
{
    let p = seq![a, b];
    assert(p.drop_last() =~= seq![a]);
    assert(joined(p.drop_last(), sep) == a);
}

/// The words of a text: blanks in front are passed over, a word is what stands up
/// to the next blank, and the words of the rest follow.
pub proof fn words_stand_between_blanks(front: Seq<char>, word: Seq<char>, rest: Seq<char>)
    requires
        is_blank(front),
        word.len() > 0,
        forall|i: int| 0 <= i < word.len() ==> !is_space(#[trigger] word[i]),
        rest.len() > 0 ==> is_space(rest[0]),
    ensures
        words_of(front + word + rest) == seq![word] + words_of(rest),
        words_of(front) == Seq::<Seq<char>>::empty(),
{
    let s = front + word + rest;
    let t = word + rest;
    blanks_pass(front, t);
    assert(s =~= front + t);
    assert(t[0] == word[0]);
    space_found(t, 0, word.len() as int);
    assert(t.take(word.len() as int) =~= word);
    assert(t.skip(word.len() as int) =~= rest);
    blanks_pass(front, Seq::empty());
    assert(front + Seq::<char>::empty() =~= front);
}

proof fn blanks_pass(front: Seq<char>, t: Seq<char>)
    requires
        is_blank(front),
        t.len() > 0 ==> !is_space(t[0]),
    ensures
        trimmed_start(front + t) == t,
    decreases front.len(),
{
    let s = front + t;
    if front.len() > 0 {
        assert(s[0] == front[0]);
        assert(is_blank(front.skip(1))) by {
            assert forall|i: int| 0 <= i < front.skip(1).len() implies is_space(
                #[trigger] front.skip(1)[i],
            ) by {
                assert(front.skip(1)[i] == front[i + 1]);
            }
        }
        blanks_pass(front.skip(1), t);
        assert(s.skip(1) =~= front.skip(1) + t);
    } else {
        assert(s =~= t);
    }
}

proof fn space_found(t: Seq<char>, i: int, n: int)
    requires
        0 <= i <= n <= t.len(),
        forall|k: int| i <= k < n ==> !is_space(#[trigger] t[k]),
        n < t.len() ==> is_space(t[n]),
    ensures
        crate::text::next_space(t, i) == n,
    decreases n - i,
{
    if i < n {
        assert(!is_space(t[i]));
        space_found(t, i + 1, n);
    }
}

/// A line is what stands before its end: a line feed, or a carriage return and a
/// line feed; the last line may end with the text, and keeps a carriage return.
pub proof fn lines_stand_before_their_ends(line: Seq<char>, rest: Seq<char>)
    requires
        forall|k: int| 0 <= k < line.len() ==> line[k] != '\n' && line[k] != '\r',
    ensures
        lines_of(line + seq!['\n'] + rest) == seq![line] + lines_of(rest),
        lines_of(line + seq!['\r', '\n'] + rest) == seq![line] + lines_of(rest),
        line.len() > 0 ==> lines_of(line) == seq![line],
        lines_of(line + seq!['\r']) == seq![line + seq!['\r']],
        lines_of(Seq::empty()) == Seq::<Seq<char>>::empty(),
{
    let long = line + seq!['\r'];
    assert(!line.contains('\n'));
    assert(!long.contains('\n')) by {
        assert forall|k: int| 0 <= k < long.len() implies long[k] != '\n' by {
            if k < line.len() {
                assert(long[k] == line[k]);
            }
        }
    }
    lines_of_line(line, rest);
    lines_of_line(long, rest);
    assert(long + seq!['\n'] + rest =~= line + seq!['\r', '\n'] + rest);
    assert(long.drop_last() =~= line);
    next_char_unique(long, '\n', 0, long.len() as int);
    next_char_unique(line, '\n', 0, line.len() as int);
}

/// Blanks, tabs and the ends of lines are white space, and what can be seen of the
/// first characters is not.
pub proof fn white_space_is_not_seen(c: char)
    ensures
        c == ' ' || c == '\t' || c == '\n' || c == '\r' ==> is_space(c),
        '!' <= c <= '~' ==> !is_space(c),
{
}

/// A single character is replaced wherever it stands, and nothing else is.
pub proof fn characters_are_replaced_one_by_one(a: char, c: char, rest: Seq<char>, q: Seq<char>)
    ensures
        a == c ==> replaced(seq![a] + rest, seq![c], q) == q + replaced(rest, seq![c], q),
        a != c ==> replaced(seq![a] + rest, seq![c], q) == seq![a] + replaced(rest, seq![c], q),
        replaced(Seq::empty(), seq![c], q) == Seq::<char>::empty(),
{
    let p = seq![c];
    let s = seq![a] + rest;
    let none = Seq::<char>::empty();
    assert(next_part(none, p, 0) is None) by {
        next_part_finds(none, p, 0);
        if let Some(k) = next_part(none, p, 0) {
            assert(occurs_at(none, p, k));
        }
    }
    if a == c {
        replacing_is_exact(none, p, q, rest);
        assert(none + p + rest =~= s);
        assert(none + q + replaced(rest, p, q) =~= q + replaced(rest, p, q));
    } else {
        assert(!occurs_at(s, p, 0)) by {
            if occurs_at(s, p, 0) {
                assert(s.subrange(0, 1)[0] == p[0]);
            }
        }
        assert(s.skip(1) =~= rest);
        next_part_shift(s, p, 1, 0);
        assert(next_part(s, p, 0) == next_part(s, p, 1));
        next_part_finds(rest, p, 0);
        match next_part(rest, p, 0) {
            Some(k) => {
                assert(occurs_at(rest, p, k));
                assert(next_part(s, p, 0) == Some(k + 1));
                assert(s.take(k + 1) =~= seq![a] + rest.take(k));
                assert(s.skip(k + 2) =~= rest.skip(k + 1));
                let back = replaced(rest.skip(k + 1), p, q);
                assert(replaced(s, p, q) == s.take(k + 1) + q + back);
                assert(seq![a] + (rest.take(k) + q + back) =~= seq![a] + rest.take(k) + q + back);
            },
            None => {},
        }
    }
}

} // verus!
