//! The lexical regions of a source file: code, textual literals, comments.

use crate::text::{byte_len, chars_of, same};
use rustc_lexer::LiteralKind::{Byte, ByteStr, Char, Float, Int, RawByteStr, RawStr, Str};
use rustc_lexer::TokenKind;
use vstd::prelude::*;

verus! {

/// Where a byte of a source file belongs. Numbers, names, punctuation and white
/// space are code.
#[derive(Debug, Clone, Copy, PartialEq, Eq, Structural)]
pub enum Region {
    Code,
    Str,
    Comment,
}

impl Region {
    /// The region of a name in the configuration.
    pub open spec fn named(s: Seq<char>) -> Option<Region> {
        if s == "code"@ {
            Some(Region::Code)
        } else if s == "string"@ {
            Some(Region::Str)
        } else if s == "comment"@ {
            Some(Region::Comment)
        } else {
            None
        }
    }

    /// Reads the name of a region.
    pub fn parse(s: &str) -> (r: Option<Region>)
        ensures
            r == Region::named(s@),
    {
        if same(s, "code") {
            Some(Region::Code)
        } else if same(s, "string") {
            Some(Region::Str)
        } else if same(s, "comment") {
            Some(Region::Comment)
        } else {
            None
        }
    }
}

/// What kind of token it is, as far as the regions need it.
#[derive(Debug, Clone, Copy, PartialEq, Eq, Structural)]
pub enum TokenClass {
    LineComment,
    BlockComment,
    Int,
    Float,
    Char,
    Byte,
    Str,
    ByteStr,
    RawStr,
    RawByteStr,
    Other,
}

/// The region of a token.
pub open spec fn region_of(class: TokenClass) -> Region {
    match class {
        TokenClass::LineComment | TokenClass::BlockComment => Region::Comment,
        TokenClass::Char | TokenClass::Byte | TokenClass::Str | TokenClass::ByteStr
        | TokenClass::RawStr | TokenClass::RawByteStr => Region::Str,
        TokenClass::Int | TokenClass::Float | TokenClass::Other => Region::Code,
    }
}

/// Tokens as kinds and lengths in bytes.
pub open spec fn token_views(v: Seq<(TokenClass, usize)>) -> Seq<(TokenClass, nat)> {
    v.map_values(|t: (TokenClass, usize)| (t.0, t.1 as nat))
}

/// The length of all tokens.
pub open spec fn total_len(tokens: Seq<(TokenClass, nat)>) -> nat
    decreases tokens.len(),
{
    if tokens.len() == 0 {
        0
    } else {
        total_len(tokens.drop_last()) + tokens.last().1
    }
}

/// The tokens of a source file, in order.
pub uninterp spec fn lexed(src: Seq<char>) -> Seq<(TokenClass, nat)>;

/// `rustc_lexer::tokenize` splits a source file into tokens: each with its kind
/// and its length in bytes, which together are the length of the file.
#[verifier::external_body]
fn tokenize(src: &str) -> (r: Vec<(TokenClass, usize)>)
    ensures
        token_views(r@) == lexed(src@),
        total_len(token_views(r@)) == byte_len(src@),
{
    rustc_lexer::tokenize(src).map(|t| (match t.kind {
        TokenKind::LineComment => TokenClass::LineComment,
        TokenKind::BlockComment { .. } => TokenClass::BlockComment,
        TokenKind::Literal { kind, .. } => match kind {
            Int { .. } => TokenClass::Int,
            Float { .. } => TokenClass::Float,
            Char { .. } => TokenClass::Char,
            Byte { .. } => TokenClass::Byte,
            Str { .. } => TokenClass::Str,
            ByteStr { .. } => TokenClass::ByteStr,
            RawStr { .. } => TokenClass::RawStr,
            RawByteStr { .. } => TokenClass::RawByteStr,
        },
        _ => TokenClass::Other }, t.len)).collect()
}

/// The regions of the bytes of some tokens.
pub open spec fn regions_of(tokens: Seq<(TokenClass, nat)>) -> Seq<Region>
    decreases tokens.len(),
{
    if tokens.len() == 0 {
        Seq::empty()
    } else {
        regions_of(tokens.drop_last()) + Seq::new(
            tokens.last().1,
            |i: int| region_of(tokens.last().0),
        )
    }
}

/// The regions of a file are as many as its bytes.
pub proof fn regions_tile(tokens: Seq<(TokenClass, nat)>)
    ensures
        regions_of(tokens).len() == total_len(tokens),
    decreases tokens.len(),
{
    if tokens.len() > 0 {
        regions_tile(tokens.drop_last());
    }
}

fn classify_token(class: TokenClass) -> (r: Region)
    ensures
        r == region_of(class),
{
    match class {
        TokenClass::LineComment | TokenClass::BlockComment => Region::Comment,
        TokenClass::Char | TokenClass::Byte | TokenClass::Str | TokenClass::ByteStr
        | TokenClass::RawStr | TokenClass::RawByteStr => Region::Str,
        TokenClass::Int | TokenClass::Float | TokenClass::Other => Region::Code,
    }
}

/// Labels every byte of some tokens with its region.
pub fn classify_tokens(tokens: &[(TokenClass, usize)]) -> (r: Vec<Region>)
    ensures
        r@ == regions_of(token_views(tokens@)),
{
    let ghost all = token_views(tokens@);
    let mut regions: Vec<Region> = Vec::new();
    let mut i: usize = 0;
    while i < tokens.len()
        invariant
            i <= tokens@.len(),
            all == token_views(tokens@),
            regions@ == regions_of(all.take(i as int)),
        decreases tokens@.len() - i,
    {
        let region = classify_token(tokens[i].0);
        let len: usize = tokens[i].1;
        let ghost before = regions@;
        let mut k: usize = 0;
        while k < len
            invariant
                k <= len,
                regions@.len() == before.len() + k,
                forall|j: int| 0 <= j < before.len() ==> #[trigger] regions@[j] == before[j],
                forall|j: int|
                    before.len() <= j < before.len() + k ==> #[trigger] regions@[j] == region,
            decreases len - k,
        {
            regions.push(region);
            k += 1;
        }
        assert(all.take(i + 1).drop_last() =~= all.take(i as int));
        assert(all[i as int] == (tokens@[i as int].0, len as nat));
        i += 1;
        assert(regions@ =~= regions_of(all.take(i as int)));
    }
    assert(all.take(i as int) =~= all);
    regions
}

/// Labels every byte of a source file with its region.
pub fn classify(src: &str) -> (r: Vec<Region>)
    ensures
        r@ == regions_of(lexed(src@)),
        r@.len() == byte_len(src@),
{
    let tokens = tokenize(src);
    proof {
        regions_tile(token_views(tokens@));
    }
    classify_tokens(&tokens)
}

/// Whether the region at a byte is the wanted one.
pub open spec fn in_region(regions: Seq<Region>, at: int, target: Region) -> bool {
    0 <= at < regions.len() && regions[at] == target
}

/// A line of which only the characters in a region are left, with blanks in
/// place of the others.
pub open spec fn masked(line: Seq<char>, offset: int, regions: Seq<Region>, target: Region) -> Seq<
    char,
> {
    Seq::new(
        line.len(),
        |i: int|
            if in_region(regions, offset + byte_len(line.take(i)), target) {
                line[i]
            } else {
                ' '
            },
    )
}

/// Blanks the characters of a line that are not in the region. The offset is
/// the position of the line in the file that the regions belong to.
pub fn mask_line(line: &str, offset: usize, regions: &[Region], target: Region) -> (r: String)
    requires
        offset + byte_len(line@) <= usize::MAX,
    ensures
        r@ == masked(line@, offset as int, regions@, target),
{
    let cs = chars_of(line);
    let mut out = String::new();
    let mut at: usize = offset;
    let mut i: usize = 0;
    assert(line@.take(0) =~= Seq::<char>::empty());
    assert(out@ =~= masked(line@, offset as int, regions@, target).take(0));
    while i < cs.len()
        invariant
            i <= cs@.len(),
            cs@ == line@,
            offset + byte_len(line@) <= usize::MAX,
            at == offset + byte_len(line@.take(i as int)),
            out@ == masked(line@, offset as int, regions@, target).take(i as int),
        decreases cs@.len() - i,
    {
        let c = cs[i];
        let one = crate::text::string_of(&cs, i, i + 1);
        let width: usize = crate::text::byte_count(one.as_str());
        proof {
            assert(line@.take(i + 1) =~= line@.take(i as int) + one@);
            crate::text::byte_len_concat(line@.take(i as int), one@);
            crate::text::byte_len_monotonic(line@, i as int, i + 1);
        }
        if at < regions.len() && regions[at] == target {
            out.push(c);
        } else {
            out.push(' ');
        }
        i += 1;
        at = at + width;
        assert(out@ =~= masked(line@, offset as int, regions@, target).take(i as int));
    }
    assert(masked(line@, offset as int, regions@, target).take(i as int) =~= masked(
        line@,
        offset as int,
        regions@,
        target,
    ));
    out
}

/// A character of a line shows in no two regions, and in exactly one where the
/// regions reach it; a masked line is as long as the line.
pub proof fn masks_are_disjoint(
    line: Seq<char>,
    offset: int,
    regions: Seq<Region>,
    a: Region,
    b: Region,
    i: int,
)
    requires
        0 <= i < line.len(),
        0 <= offset,
        a != b,
    ensures
        masked(line, offset, regions, a).len() == line.len(),
        masked(line, offset, regions, a)[i] == ' ' || masked(line, offset, regions, b)[i] == ' ',
        offset + byte_len(line.take(i)) < regions.len() ==> masked(
            line,
            offset,
            regions,
            regions[offset + byte_len(line.take(i))],
        )[i] == line[i],
{
}

/// Comments are comments, texts and characters are literals, and all else is code.
pub proof fn regions_of_tokens(c: TokenClass)
    ensures
        region_of(c) == Region::Comment <==> c is LineComment || c is BlockComment,
        region_of(c) == Region::Code <==> c is Int || c is Float || c is Other,
        region_of(c) == Region::Str <==> c is Char || c is Byte || c is Str || c is ByteStr
            || c is RawStr || c is RawByteStr,
{
}

/// A byte of a token is in the token's region: behind some tokens the bytes of the
/// next follow, and those before it stay as they were.
pub proof fn bytes_are_in_their_regions(before: Seq<(TokenClass, nat)>, token: (TokenClass, nat), i: int)
    ensures
        ({
            let all = regions_of(before.push(token));
            let at = total_len(before) as int;
            &&& 0 <= i < at ==> all[i] == regions_of(before)[i]
            &&& at <= i < at + token.1 ==> all[i] == region_of(token.0)
            &&& all.len() == at + token.1
        }),
{
    assert(before.push(token).drop_last() =~= before);
    regions_tile(before);
    regions_tile(before.push(token));
}

/// A masked line shows a character exactly where its first byte is in the region.
pub proof fn masks_show_their_region(
    line: Seq<char>,
    offset: int,
    regions: Seq<Region>,
    target: Region,
    i: int,
)
    requires
        0 <= i < line.len(),
        0 <= offset,
    ensures
        ({
            let at = offset + byte_len(line.take(i));
            let shown = masked(line, offset, regions, target)[i];
            &&& at < regions.len() && regions[at] == target ==> shown == line[i]
            &&& at >= regions.len() || regions[at] != target ==> shown == ' '
        }),
{
}

} // verus!
