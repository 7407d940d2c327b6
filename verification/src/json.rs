//! What the library reads from JSON text.

use crate::text::shape::characters_are_replaced_one_by_one;
use crate::text::{opt_view, replaced, views};
use vstd::prelude::*;

verus! {

/// Why a text is no JSON, where it is none.
pub uninterp spec fn json_fault(text: Seq<char>) -> Option<Seq<char>>;

/// `serde_json::from_str` reads a JSON value, or says why the text is none.
#[verifier::external_body]
pub(crate) fn check_json(text: &str) -> (r: Option<String>)
    ensures
        opt_view(r) == json_fault(text@),
{
    serde_json::from_str::<serde_json::Value>(text).err().map(|e| e.to_string())
}

/// The length of the array at a place in a JSON text, by its pointer.
pub uninterp spec fn json_array_len(text: Seq<char>, pointer: Seq<char>) -> Option<nat>;

/// `serde_json::Value::pointer` and `as_array` find the array at a place and
/// count its items; there is none where the text is no JSON.
#[verifier::external_body]
pub(crate) fn array_len(text: &str, pointer: &str) -> (r: Option<usize>)
    ensures
        match r {
            Some(n) => json_array_len(text@, pointer@) == Some(n as nat),
            None => json_array_len(text@, pointer@) is None,
        },
{
    let value: serde_json::Value = serde_json::from_str(text).ok()?;
    value.pointer(pointer)?.as_array().map(Vec::len)
}

/// The string at a place in a JSON text, by its pointer.
pub uninterp spec fn json_string(text: Seq<char>, pointer: Seq<char>) -> Option<Seq<char>>;

/// `serde_json::Value::pointer` and `as_str` find the string at a place; there
/// is none where the text is no JSON.
#[verifier::external_body]
pub(crate) fn string_at(text: &str, pointer: &str) -> (r: Option<String>)
    ensures
        opt_view(r) == json_string(text@, pointer@),
{
    let value: serde_json::Value = serde_json::from_str(text).ok()?;
    value.pointer(pointer)?.as_str().map(str::to_owned)
}

/// The number at a place in a JSON text, by its pointer, in bits.
pub uninterp spec fn json_number(text: Seq<char>, pointer: Seq<char>) -> Option<u64>;

/// `serde_json::Value::pointer` and its reading as a number in double precision
/// find the number at a place, here by its bits; there is none where the text
/// is no JSON.
#[verifier::external_body]
pub(crate) fn number_at(text: &str, pointer: &str) -> (r: Option<u64>)
    ensures
        r == json_number(text@, pointer@),
{
    let value: serde_json::Value = serde_json::from_str(text).ok()?;
    value.pointer(pointer)?.as_f64().map(|x| x.to_bits())
}

/// The keys of the object that a JSON text is, in the order of the parser.
pub uninterp spec fn json_keys(text: Seq<char>) -> Option<Seq<Seq<char>>>;

/// `serde_json::Value::as_object` gives the keys of an object; there are none
/// where the text is no object.
#[verifier::external_body]
pub(crate) fn object_keys(text: &str) -> (r: Option<Vec<String>>)
    ensures
        match r {
            Some(ks) => json_keys(text@) == Some(views(ks@)),
            None => json_keys(text@) is None,
        },
{
    let value: serde_json::Value = serde_json::from_str(text).ok()?;
    value.as_object().map(|o| o.keys().cloned().collect())
}

/// A key as it stands in a pointer: its tildes and slashes are escaped.
pub open spec fn pointer_key(key: Seq<char>) -> Seq<char> {
    replaced(replaced(key, "~"@, "~0"@), "/"@, "~1"@)
}

/// Writes a key as it stands in a pointer.
pub fn escape_key(key: &str) -> (r: String)
    ensures
        r@ == pointer_key(key@),
{
    proof {
        reveal_strlit("~");
        reveal_strlit("/");
    }
    let tildes = crate::text::replace(key, "~", "~0");
    crate::text::replace(tildes.as_str(), "/", "~1")
}

/// A key stands in a pointer character by character: a tilde as `~0`, a slash as
/// `~1`, and any other as itself.
pub proof fn keys_are_escaped_one_by_one(c: char, rest: Seq<char>)
    ensures
        pointer_key(seq![c] + rest) == (if c == '~' {
            seq!['~', '0']
        } else if c == '/' {
            seq!['~', '1']
        } else {
            seq![c]
        }) + pointer_key(rest),
        pointer_key(Seq::empty()) == Seq::<char>::empty(),
{
    reveal_strlit("~");
    reveal_strlit("/");
    reveal_strlit("~0");
    reveal_strlit("~1");
    assert("~"@ =~= seq!['~']);
    assert("/"@ =~= seq!['/']);
    assert("~0"@ =~= seq!['~', '0']);
    assert("~1"@ =~= seq!['~', '1']);
    let (zero, one) = (seq!['~', '0'], seq!['~', '1']);
    characters_are_replaced_one_by_one(c, '~', rest, zero);
    let inner = replaced(rest, seq!['~'], zero);
    characters_are_replaced_one_by_one('0', '/', inner, one);
    characters_are_replaced_one_by_one('~', '/', seq!['0'] + inner, one);
    characters_are_replaced_one_by_one(c, '/', inner, one);
    assert(zero + inner =~= seq!['~'] + (seq!['0'] + inner));
    let tail = pointer_key(rest);
    assert(seq!['~'] + (seq!['0'] + tail) =~= zero + tail);
}

} // verus!
