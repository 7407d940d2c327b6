//! Values of the lock file: one line each, whatever they hold.

use crate::text::{
    chars_of, is_space, next_part, next_part_finds, occurs_at, replace, replaced, space,
};
use vstd::prelude::*;

verus! {

/// How one character is written: the escape sign itself and the two line
/// breaks by a percent sign and two digits, anything else as it is.
pub open spec fn escaped_char(c: char) -> Seq<char> {
    if c == '%' {
        seq!['%', '2', '5']
    } else if c == '\n' {
        seq!['%', '0', 'A']
    } else if c == '\r' {
        seq!['%', '0', 'D']
    } else {
        seq![c]
    }
}

/// A value with every character escaped where it needs to be.
pub open spec fn escaped(s: Seq<char>) -> Seq<char>
    decreases s.len(),
{
    if s.len() == 0 {
        Seq::empty()
    } else {
        escaped_char(s[0]) + escaped(s.skip(1))
    }
}

/// The character that an escape at the start of a text stands for.
pub open spec fn escape_at_start(s: Seq<char>) -> Option<char> {
    if s.len() < 3 || s[0] != '%' {
        None
    } else if s[1] == '2' && s[2] == '5' {
        Some('%')
    } else if s[1] == '0' && s[2] == 'A' {
        Some('\n')
    } else if s[1] == '0' && s[2] == 'D' {
        Some('\r')
    } else {
        None
    }
}

/// A text with its escapes resolved; what is no escape stays as it is.
pub open spec fn unescaped(s: Seq<char>) -> Seq<char>
    decreases s.len(),
{
    if s.len() == 0 {
        Seq::empty()
    } else {
        match escape_at_start(s) {
            Some(c) => seq![c] + unescaped(s.skip(3)),
            None => seq![s[0]] + unescaped(s.skip(1)),
        }
    }
}

/// Escapes the characters that would break a line of the file: the percent
/// sign, the line feed and the carriage return.
pub fn escape_value(s: &str) -> (r: String)
    ensures
        r@ == escaped(s@),
{
    let cs = chars_of(s);
    let mut out = String::new();
    let mut i: usize = 0;
    assert(cs@.skip(0) =~= cs@);
    assert(out@ + escaped(cs@) =~= escaped(cs@));
    while i < cs.len()
        invariant
            i <= cs@.len(),
            out@ + escaped(cs@.skip(i as int)) == escaped(cs@),
        decreases cs@.len() - i,
    {
        let c = cs[i];
        let ghost before = out@;
        if c == '%' {
            out.push('%');
            out.push('2');
            out.push('5');
        } else if c == '\n' {
            out.push('%');
            out.push('0');
            out.push('A');
        } else if c == '\r' {
            out.push('%');
            out.push('0');
            out.push('D');
        } else {
            out.push(c);
        }
        assert(out@ =~= before + escaped_char(c));
        assert(cs@.skip(i as int).skip(1) =~= cs@.skip(i + 1));
        i += 1;
        assert(before + (escaped_char(c) + escaped(cs@.skip(i as int))) =~= out@ + escaped(
            cs@.skip(i as int),
        ));
    }
    assert(out@ + escaped(cs@.skip(i as int)) =~= out@);
    out
}

/// Resolves the escapes of [`escape_value`]. Unknown and cut-off escapes pass
/// through as they are: a value always decodes.
pub fn unescape_value(s: &str) -> (r: String)
    ensures
        r@ == unescaped(s@),
{
    let cs = chars_of(s);
    let mut out = String::new();
    let mut i: usize = 0;
    assert(cs@.skip(0) =~= cs@);
    assert(out@ + unescaped(cs@) =~= unescaped(cs@));
    while i < cs.len()
        invariant
            i <= cs@.len(),
            out@ + unescaped(cs@.skip(i as int)) == unescaped(cs@),
        decreases cs@.len() - i,
    {
        let ghost rest = cs@.skip(i as int);
        let ghost before = out@;
        let mut found: Option<char> = None;
        if cs[i] == '%' && cs.len() - i >= 3 {
            if cs[i + 1] == '2' && cs[i + 2] == '5' {
                found = Some('%');
            } else if cs[i + 1] == '0' && cs[i + 2] == 'A' {
                found = Some('\n');
            } else if cs[i + 1] == '0' && cs[i + 2] == 'D' {
                found = Some('\r');
            }
        }
        assert(found == escape_at_start(rest));
        match found {
            Some(c) => {
                out.push(c);
                i += 3;
                assert(rest.skip(3) =~= cs@.skip(i as int));
                assert(before + (seq![c] + unescaped(rest.skip(3))) =~= out@ + unescaped(
                    rest.skip(3),
                ));
            },
            None => {
                out.push(cs[i]);
                i += 1;
                assert(rest.skip(1) =~= cs@.skip(i as int));
                assert(before + (seq![rest[0]] + unescaped(rest.skip(1))) =~= out@ + unescaped(
                    rest.skip(1),
                ));
            },
        }
    }
    assert(out@ + unescaped(cs@.skip(i as int)) =~= out@);
    out
}

/// Decoding what was encoded gives back the value.
pub proof fn unescape_undoes_escape(s: Seq<char>)
    ensures
        unescaped(escaped(s)) == s,
    decreases s.len(),
{
    if s.len() > 0 {
        unescape_undoes_escape(s.skip(1));
        let e = escaped(s);
        let rest = escaped(s.skip(1));
        let n = escaped_char(s[0]).len() as int;
        assert(e.skip(n) =~= rest);
        assert(seq![s[0]] + s.skip(1) =~= s);
        assert(e[0] == escaped_char(s[0])[0]);
        if n == 3 {
            assert(e[1] == escaped_char(s[0])[1]);
            assert(e[2] == escaped_char(s[0])[2]);
        }
    }
}

/// An encoded value holds no line break.
pub proof fn escaped_is_one_line(s: Seq<char>)
    ensures
        forall|i: int|
            0 <= i < escaped(s).len() ==> #[trigger] escaped(s)[i] != '\n' && escaped(s)[i]
                != '\r',
    decreases s.len(),
{
    if s.len() > 0 {
        escaped_is_one_line(s.skip(1));
        let head = escaped_char(s[0]);
        let rest = escaped(s.skip(1));
        assert forall|i: int| 0 <= i < escaped(s).len() implies #[trigger] escaped(s)[i] != '\n'
            && escaped(s)[i] != '\r' by {
            if i < head.len() {
                assert(escaped(s)[i] == head[i]);
            } else {
                assert(escaped(s)[i] == rest[i - head.len()]);
            }
        }
    }
}

/// Two values that are written alike are the same.
pub proof fn escape_is_injective(a: Seq<char>, b: Seq<char>)
    requires
        escaped(a) == escaped(b),
    ensures
        a == b,
{
    unescape_undoes_escape(a);
    unescape_undoes_escape(b);
}

/// Whether an argument must be quoted to stand on a command line.
pub open spec fn needs_quotes(s: Seq<char>) -> bool {
    s.len() == 0 || exists|i: int| 0 <= i < s.len() && (is_space(#[trigger] s[i]) || s[i] == '"')
}

/// An argument as it stands on a command line.
pub open spec fn quoted(s: Seq<char>) -> Seq<char> {
    if needs_quotes(s) {
        seq!['"'] + replaced(s, seq!['"'], seq!['\\', '"']) + seq!['"']
    } else {
        s
    }
}

/// Puts an argument in double quotes where it is empty or holds white space or
/// a double quote, which is then written with a backslash.
pub fn shell_quote(s: &str) -> (r: String)
    ensures
        r@ == quoted(s@),
{
    let cs = chars_of(s);
    let mut needed = cs.len() == 0;
    let mut i: usize = 0;
    while i < cs.len() && !needed
        invariant
            i <= cs@.len(),
            cs@ == s@,
            needed ==> needs_quotes(s@),
            !needed ==> forall|k: int|
                0 <= k < i ==> !(is_space(#[trigger] s@[k]) || s@[k] == '"'),
            !needed ==> s@.len() > 0,
        decreases cs@.len() - i,
    {
        if space(cs[i]) || cs[i] == '"' {
            assert(is_space(s@[i as int]) || s@[i as int] == '"');
            needed = true;
        }
        i += 1;
    }
    if needed {
        proof {
            reveal_strlit("\"");
            reveal_strlit("\\\"");
        }
        let inner = replace(s, "\"", "\\\"");
        let mut out = String::new();
        out.push('"');
        out.append(inner.as_str());
        out.push('"');
        assert("\""@ =~= seq!['"']);
        assert("\\\""@ =~= seq!['\\', '"']);
        assert(out@ =~= quoted(s@));
        out
    } else {
        s.to_owned()
    }
}

/// Whether every double quote of a text stands behind a backslash.
spec fn quotes_are_escaped(s: Seq<char>) -> bool {
    forall|i: int| 0 <= i < s.len() && #[trigger] s[i] == '"' ==> 0 < i && s[i - 1] == '\\'
}

/// What is written for an argument between its quotes.
spec fn inner(s: Seq<char>) -> Seq<char> {
    replaced(s, seq!['"'], seq!['\\', '"'])
}

/// The first double quote of an argument, and what is written up to it.
proof fn inner_found(s: Seq<char>) -> (at: int)
    ensures
        0 <= at <= s.len(),
        forall|k: int| 0 <= k < at ==> s[k] != '"',
        at < s.len() ==> s[at] == '"' && inner(s) == s.take(at) + seq!['\\', '"'] + inner(
            s.skip(at + 1),
        ),
        at == s.len() ==> inner(s) == s,
{
    let p = seq!['"'];
    next_part_finds(s, p, 0);
    assert forall|k: int|
        #![trigger occurs_at(s, p, k)]
        #![trigger s[k]]
        0 <= k < s.len() implies occurs_at(s, p, k) == (s[k] == '"') by {
        if s[k] == '"' {
            assert(s.subrange(k, k + 1) =~= p);
        } else if occurs_at(s, p, k) {
            assert(s.subrange(k, k + 1)[0] == p[0]);
        }
    }
    match next_part(s, p, 0) {
        Some(k) => k,
        None => s.len() as int,
    }
}

proof fn inner_is_escaped(s: Seq<char>)
    ensures
        quotes_are_escaped(inner(s)),
    decreases s.len(),
{
    let at = inner_found(s);
    if at < s.len() {
        let rest = inner(s.skip(at + 1));
        inner_is_escaped(s.skip(at + 1));
        let all = inner(s);
        assert forall|i: int| 0 <= i < all.len() && #[trigger] all[i] == '"' implies 0 < i && all[i - 1]
            == '\\' by {
            if i < at {
                assert(all[i] == s[i]);
            } else if i >= at + 2 {
                assert(all[i] == rest[i - at - 2]);
                assert(all[i - 1] == rest[i - at - 3]);
            }
        }
    }
}

proof fn inner_parts(a: Seq<char>, b: Seq<char>)
    requires
        inner(a) == inner(b),
    ensures
        a == b,
    decreases a.len(),
{
    let i = inner_found(a);
    let j = inner_found(b);
    let t = inner(a);
    if i < a.len() {
        assert(t[i] == '\\' && t[i + 1] == '"');
        assert forall|k: int| 0 <= k < i implies t[k] == a[k] by {}
    }
    if j < b.len() {
        assert(t[j] == '\\' && t[j + 1] == '"');
        assert forall|k: int| 0 <= k < j implies t[k] == b[k] by {}
    }
    if i < a.len() && j < b.len() {
        if i < j {
            assert(i + 1 == j);
            assert(t[i + 1] == '"' && t[j] == '\\');
        }
        if j < i {
            assert(t[j + 1] == '"' && t[i] == '\\');
        }
        assert(t.skip(i + 2) =~= inner(a.skip(i + 1)));
        assert(t.skip(i + 2) =~= inner(b.skip(i + 1)));
        inner_parts(a.skip(i + 1), b.skip(i + 1));
        assert(a =~= t.take(i) + seq!['"'] + a.skip(i + 1));
        assert(b =~= t.take(i) + seq!['"'] + b.skip(i + 1));
    }
}

/// How an argument stands on a command line: in quotes whose inner ones are
/// escaped, or without a quote or a blank.
proof fn quoted_shape(x: Seq<char>)
    ensures
        quoted(x).len() > 0,
        needs_quotes(x) ==> quoted(x).len() >= 2 && quoted(x)[0] == '"' && quoted(x).last() == '"'
            && forall|i: int|
            0 < i < quoted(x).len() - 1 && #[trigger] quoted(x)[i] == '"' ==> quoted(x)[i - 1] == '\\',
        !needs_quotes(x) ==> forall|i: int|
            0 <= i < quoted(x).len() ==> quoted(x)[i] != '"' && quoted(x)[i] != ' ',
{
    let q = quoted(x);
    if needs_quotes(x) {
        inner_is_escaped(x);
        let m = inner(x);
        assert forall|i: int| 0 < i < q.len() - 1 && #[trigger] q[i] == '"' implies q[i - 1] == '\\' by {
            assert(q[i] == m[i - 1]);
            assert(q[i - 1] == m[i - 2]);
        }
    } else {
        assert forall|i: int| 0 <= i < q.len() implies q[i] != '"' && q[i] != ' ' by {
            assert(!(is_space(x[i]) || x[i] == '"'));
        }
    }
}

/// The last argument of a command line can be told from those before it.
pub(crate) proof fn last_quoted_is_found(
    p: Seq<char>,
    x: Seq<char>,
    q: Seq<char>,
    y: Seq<char>,
)
    requires
        p + quoted(x) == q + quoted(y),
        p.len() > 0 ==> p.last() == ' ',
        q.len() > 0 ==> q.last() == ' ',
    ensures
        p == q,
        x == y,
{
    quoted_shape(x);
    quoted_shape(y);
    let (a, b) = (quoted(x), quoted(y));
    let s = p + a;
    assert(s.last() == a.last() && s.last() == b.last());
    assert(needs_quotes(x) == needs_quotes(y));
    if p.len() > q.len() {
        let i = p.len() - q.len();
        assert(s[p.len() as int] == a[0] && s[p.len() as int] == b[i as int]);
        assert(s[p.len() - 1] == ' ' && s[p.len() - 1] == b[i - 1]);
    }
    if q.len() > p.len() {
        let i = q.len() - p.len();
        assert(s[q.len() as int] == b[0] && s[q.len() as int] == a[i as int]);
        assert(s[q.len() - 1] == ' ' && s[q.len() - 1] == a[i - 1]);
    }
    assert(p =~= s.take(p.len() as int));
    assert(q =~= s.take(p.len() as int));
    assert(a =~= s.skip(p.len() as int));
    assert(b =~= s.skip(p.len() as int));
    if needs_quotes(x) {
        assert(inner(x) =~= a.subrange(1, a.len() - 1));
        assert(inner(y) =~= a.subrange(1, a.len() - 1));
        inner_parts(x, y);
    }
}

} // verus!
