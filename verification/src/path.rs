//! Paths of files, which need not be valid text.

use vstd::prelude::*;
use vstd::utf8::{decode_utf8, encode_utf8, valid_utf8};

verus! {

/// `std::str::from_utf8` reads bytes as text where they are valid UTF-8, and
/// only there.
#[verifier::external_body]
pub(crate) fn from_utf8(bytes: &[u8]) -> (r: Option<String>)
    ensures
        r is Some <==> valid_utf8(bytes@),
        r matches Some(t) ==> t@ == decode_utf8(bytes@),
{
    std::str::from_utf8(bytes).ok().map(str::to_owned)
}

/// The path of a file, in bytes.
#[derive(Debug)]
pub struct FilePath {
    pub bytes: Vec<u8>,
}

/// A text as a list of bytes, where it is one.
pub open spec fn text_in(bytes: Seq<u8>) -> Option<Seq<char>> {
    if valid_utf8(bytes) {
        Some(decode_utf8(bytes))
    } else {
        None
    }
}

/// The pieces between slashes that name something: neither empty nor the
/// directory itself.
pub open spec fn components(bytes: Seq<u8>) -> Seq<Seq<u8>>
    decreases bytes.len(),
{
    let end = last_slash(bytes, bytes.len() as int);
    let piece = bytes.skip(end + 1);
    if bytes.len() == 0 {
        Seq::empty()
    } else {
        let before = if end < 0 {
            Seq::empty()
        } else if end < bytes.len() {
            components(bytes.take(end))
        } else {
            Seq::empty()
        };
        if piece.len() == 0 || piece == seq![46u8] {
            before
        } else {
            before.push(piece)
        }
    }
}

/// The last index below `i` that holds a slash, or -1.
pub open spec fn last_slash(bytes: Seq<u8>, i: int) -> int
    decreases i,
{
    if i <= 0 {
        -1
    } else if bytes[i - 1] == 47 {
        i - 1
    } else {
        last_slash(bytes, i - 1)
    }
}

/// The last component of a path, unless it leads upwards.
pub open spec fn name_in(bytes: Seq<u8>) -> Option<Seq<u8>> {
    let cs = components(bytes);
    if cs.len() == 0 || cs.last() == seq![46u8, 46u8] {
        None
    } else {
        Some(cs.last())
    }
}

/// A path below another, in bytes.
pub open spec fn joined_bytes(base: Seq<u8>, rest: Seq<u8>) -> Seq<u8> {
    if rest.len() > 0 && rest[0] == 47 {
        rest
    } else if base.len() == 0 || base.last() == 47 {
        base + rest
    } else {
        base + seq![47u8] + rest
    }
}

fn copy_bytes(bytes: &[u8], from: usize, to: usize) -> (r: Vec<u8>)
    requires
        from <= to <= bytes@.len(),
    ensures
        r@ == bytes@.subrange(from as int, to as int),
{
    let mut out: Vec<u8> = Vec::new();
    let mut i: usize = from;
    while i < to
        invariant
            from <= i <= to <= bytes@.len(),
            out@ == bytes@.subrange(from as int, i as int),
        decreases to - i,
    {
        out.push(bytes[i]);
        i += 1;
        assert(bytes@.subrange(from as int, i as int) =~= bytes@.subrange(from as int, i - 1).push(
            bytes@[i - 1],
        ));
    }
    out
}

impl FilePath {
    /// The path that a text names.
    pub fn from_text(text: &str) -> (r: FilePath)
        ensures
            r.bytes@ == encode_utf8(text@),
    {
        let bytes = text.as_bytes();
        let copy = copy_bytes(bytes, 0, bytes.len());
        assert(copy@ =~= encode_utf8(text@));
        FilePath { bytes: copy }
    }

    /// The path as text, where it is valid.
    pub fn to_str(&self) -> (r: Option<String>)
        ensures
            match r {
                Some(t) => text_in(self.bytes@) == Some(t@),
                None => text_in(self.bytes@) is None,
            },
    {
        from_utf8(&self.bytes)
    }

    /// The path below this one.
    pub fn join(&self, rest: &str) -> (r: FilePath)
        ensures
            r.bytes@ == joined_bytes(self.bytes@, encode_utf8(rest@)),
    {
        let more = rest.as_bytes();
        if more.len() > 0 && more[0] == 47 {
            let copy = copy_bytes(more, 0, more.len());
            assert(copy@ =~= encode_utf8(rest@));
            return FilePath { bytes: copy };
        }
        let n: usize = self.bytes.len();
        let mut out = copy_bytes(&self.bytes, 0, n);
        if n > 0 && self.bytes[n - 1] != 47 {
            out.push(47);
        }
        let mut tail = copy_bytes(more, 0, more.len());
        out.append(&mut tail);
        assert(out@ =~= joined_bytes(self.bytes@, encode_utf8(rest@)));
        FilePath { bytes: out }
    }

    /// The last component of the path, unless it leads upwards.
    pub fn file_name(&self) -> (r: Option<Vec<u8>>)
        ensures
            match r {
                Some(n) => name_in(self.bytes@) == Some(n@),
                None => name_in(self.bytes@) is None,
            },
    {
        let mut end: usize = self.bytes.len();
        assert(self.bytes@.take(end as int) =~= self.bytes@);
        while end > 0
            invariant
                end <= self.bytes@.len(),
                name_in(self.bytes@) == name_in(self.bytes@.take(end as int)),
            decreases end,
        {
            let ghost here = self.bytes@.take(end as int);
            let mut start: usize = end;
            while start > 0 && self.bytes[start - 1] != 47
                invariant
                    start <= end <= self.bytes@.len(),
                    here == self.bytes@.take(end as int),
                    last_slash(here, end as int) == last_slash(here, start as int),
                decreases start,
            {
                start -= 1;
            }
            let piece = copy_bytes(&self.bytes, start, end);
            assert(last_slash(here, end as int) == start - 1);
            assert(piece@ =~= here.skip(start as int));
            let n: usize = piece.len();
            if n == 0 || (n == 1 && piece[0] == 46) {
                assert(n == 1 ==> piece@ =~= seq![46u8]);
                if start == 0 {
                    assert(components(here) =~= Seq::empty());
                    return None;
                }
                assert(here.take(start - 1) =~= self.bytes@.take(start - 1));
                assert(components(here) == components(self.bytes@.take(start - 1)));
                end = start - 1;
            } else {
                assert(piece@ != seq![46u8]) by {
                    if n == 1 {
                        assert(piece@[0] != 46);
                    }
                }
                assert(components(here).last() == piece@);
                if n == 2 && piece[0] == 46 && piece[1] == 46 {
                    assert(piece@ =~= seq![46u8, 46u8]);
                    return None;
                }
                assert(piece@ != seq![46u8, 46u8]) by {
                    if n == 2 {
                        assert(piece@[0] != 46 || piece@[1] != 46);
                    }
                }
                return Some(piece);
            }
        }
        None
    }

    /// The last component of the path as text, empty where there is none.
    pub fn base_name(&self) -> (r: String)
        ensures
            r@ == base_text(self.bytes@),
    {
        match self.file_name() {
            Some(n) => match from_utf8(&n) {
                Some(t) => t,
                None => String::new(),
            },
            None => String::new(),
        }
    }
}

/// The last component of a path as text, empty where there is none.
pub open spec fn base_text(bytes: Seq<u8>) -> Seq<char> {
    match name_in(bytes) {
        Some(n) => match text_in(n) {
            Some(t) => t,
            None => Seq::empty(),
        },
        None => Seq::empty(),
    }
}

/// A path that was made of a text is that text again.
pub proof fn text_path_reads_back(text: Seq<char>)
    ensures
        text_in(encode_utf8(text)) == Some(text),
{
    vstd::utf8::encode_utf8_valid_utf8(text);
    vstd::utf8::encode_utf8_decode_utf8(text);
}

proof fn slash_is_last(bytes: Seq<u8>, at: int, i: int)
    requires
        0 <= at < i <= bytes.len(),
        bytes[at] == 47,
        forall|k: int| at < k < bytes.len() ==> #[trigger] bytes[k] != 47,
    ensures
        last_slash(bytes, i) == at,
    decreases i,
{
    if i - 1 > at {
        slash_is_last(bytes, at, i - 1);
    }
}

proof fn no_slash_is_found(bytes: Seq<u8>, i: int)
    requires
        0 <= i <= bytes.len(),
        forall|k: int| 0 <= k < bytes.len() ==> #[trigger] bytes[k] != 47,
    ensures
        last_slash(bytes, i) == -1,
    decreases i,
{
    if i > 0 {
        no_slash_is_found(bytes, i - 1);
    }
}

/// The parts of a path: behind a slash the name of a file is one more part, a dot
/// or nothing is none; a name alone is the only part.
pub proof fn parts_stand_between_slashes(base: Seq<u8>, name: Seq<u8>)
    requires
        forall|k: int| 0 <= k < name.len() ==> #[trigger] name[k] != 47,
    ensures
        name.len() > 0 && name != seq![46u8] ==> components(base + seq![47u8] + name)
            == components(base).push(name),
        name.len() == 0 || name == seq![46u8] ==> components(base + seq![47u8] + name)
            == components(base),
        name.len() > 0 && name != seq![46u8] ==> components(name) == seq![name],
        components(Seq::empty()) == Seq::<Seq<u8>>::empty(),
{
    let all = base + seq![47u8] + name;
    assert forall|k: int| base.len() < k < all.len() implies #[trigger] all[k] != 47 by {
        assert(all[k] == name[k - base.len() - 1]);
    }
    slash_is_last(all, base.len() as int, all.len() as int);
    assert(all.skip(base.len() as int + 1) =~= name);
    assert(all.take(base.len() as int) =~= base);
    no_slash_is_found(name, name.len() as int);
    assert(name.skip(0) =~= name);
}

/// The name of a path is its last part, unless that leads upwards.
pub proof fn name_is_the_last_part(base: Seq<u8>, name: Seq<u8>)
    requires
        forall|k: int| 0 <= k < name.len() ==> #[trigger] name[k] != 47,
        name.len() > 0,
        name != seq![46u8],
    ensures
        name != seq![46u8, 46u8] ==> name_in(base + seq![47u8] + name) == Some(name),
        name == seq![46u8, 46u8] ==> name_in(base + seq![47u8] + name) is None,
        name != seq![46u8, 46u8] ==> name_in(name) == Some(name),
        name != seq![46u8, 46u8] ==> (text_in(name) matches Some(t) ==> base_text(
            base + seq![47u8] + name,
        ) == t),
{
    parts_stand_between_slashes(base, name);
}

/// A path below another is it, a slash where it has none at its end, and the rest;
/// one that starts at the root stands for itself.
pub proof fn joining_is_with_one_slash(base: Seq<u8>, rest: Seq<u8>)
    ensures
        rest.len() > 0 && rest[0] == 47 ==> joined_bytes(base, rest) == rest,
        !(rest.len() > 0 && rest[0] == 47) ==> {
            &&& base.is_prefix_of(joined_bytes(base, rest))
            &&& base.len() > 0 && base.last() != 47 ==> joined_bytes(base, rest) == base
                + seq![47u8] + rest
            &&& base.len() == 0 || base.last() == 47 ==> joined_bytes(base, rest) == base + rest
        },
{
}

} // verus!
