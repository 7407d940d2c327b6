//! What a measured program reports on its error stream.

use crate::db::{pair_views, KvPair, PairView, ValueView};
use crate::error::{DevError, ErrorView};
use crate::harness::stats::BenchResult;
use crate::number::parse::{parse_double, read_double};
use crate::numeral::{parse_i64, read_int};
use crate::text::{
    chars_of, halves, lines, lines_of, same, split_once, string_of, trim, trimmed, views,
};
use vstd::prelude::*;
use vstd::utf8::{decode_utf8, valid_utf8};

verus! {

/// What a sequence of bytes reads as, with replacement characters for what is
/// not valid.
pub uninterp spec fn lossy(bytes: Seq<u8>) -> Seq<char>;

/// `String::from_utf8_lossy` reads bytes as text: valid bytes as the text that
/// they encode, and others with replacement characters, of which nothing more
/// is stated here.
#[verifier::external_body]
pub(crate) fn from_utf8_lossy(bytes: &[u8]) -> (r: String)
    ensures
        r@ == lossy(bytes@),
        valid_utf8(bytes@) ==> r@ == decode_utf8(bytes@),
{
    String::from_utf8_lossy(bytes).into_owned()
}

/// The value that a text stands for: an integer, else a finite number, else
/// the text itself.
pub open spec fn read_value(text: Seq<char>) -> ValueView {
    match read_int(text, i64::MAX as nat) {
        Some(n) => ValueView::Int(n),
        None => match read_double(text) {
            Some(x) => if x is Fin {
                ValueView::Real(x)
            } else {
                ValueView::Text(text)
            },
            None => ValueView::Text(text),
        },
    }
}

/// Whether a key names the elapsed time.
pub open spec fn is_time_key(key: Seq<char>) -> bool {
    key == "elapsed_ms"@ || key == "total_ms"@
}

/// The elapsed time that the lines report: the last one that can be read.
pub open spec fn reported_time(ls: Seq<Seq<char>>) -> Option<int>
    decreases ls.len(),
{
    if ls.len() == 0 {
        None
    } else {
        let before = reported_time(ls.drop_last());
        match halves(ls.last(), '=') {
            Some(h) => if is_time_key(trimmed(h.0)) {
                match read_int(trimmed(h.1), i64::MAX as nat) {
                    Some(n) => Some(n),
                    None => before,
                }
            } else {
                before
            },
            None => before,
        }
    }
}

/// The other values that the lines report, in order.
pub open spec fn reported_pairs(ls: Seq<Seq<char>>) -> Seq<PairView>
    decreases ls.len(),
{
    if ls.len() == 0 {
        Seq::empty()
    } else {
        let before = reported_pairs(ls.drop_last());
        match halves(ls.last(), '=') {
            Some(h) => if is_time_key(trimmed(h.0)) {
                before
            } else {
                before.push(PairView { key: trimmed(h.0), value: read_value(trimmed(h.1)) })
            },
            None => before,
        }
    }
}

fn parse_pair(key: &str, value: &str) -> (r: KvPair)
    ensures
        r@ == (PairView { key: key@, value: read_value(value@) }),
{
    match parse_i64(value) {
        Some(n) => KvPair::of_int(key, n),
        None => match parse_double(value) {
            Some(x) => if x.is_finite() {
                KvPair::of_real(key, x)
            } else {
                KvPair::of_text(key, value)
            },
            None => KvPair::of_text(key, value),
        },
    }
}

/// Reads the `key=value` lines of a text: the elapsed time, where it is there,
/// and all other values.
pub fn parse_kv_text(text: &str) -> (r: (Option<i64>, Vec<KvPair>))
    ensures
        match r.0 {
            Some(ms) => reported_time(lines_of(text@)) == Some(ms as int),
            None => reported_time(lines_of(text@)) is None,
        },
        pair_views(r.1@) == reported_pairs(lines_of(text@)),
{
    let ls = lines(text);
    let ghost all = lines_of(text@);
    let mut elapsed: Option<i64> = None;
    let mut kv: Vec<KvPair> = Vec::new();
    let mut i: usize = 0;
    assert(pair_views(kv@) =~= reported_pairs(all.take(0)));
    while i < ls.len()
        invariant
            i <= ls@.len(),
            views(ls@) == all,
            match elapsed {
                Some(ms) => reported_time(all.take(i as int)) == Some(ms as int),
                None => reported_time(all.take(i as int)) is None,
            },
            pair_views(kv@) == reported_pairs(all.take(i as int)),
        decreases ls@.len() - i,
    {
        assert(all.take(i + 1).drop_last() =~= all.take(i as int));
        assert(all[i as int] == ls@[i as int]@);
        let ghost before = pair_views(kv@);
        match split_once(ls[i].as_str(), '=') {
            Some(h) => {
                let key = trim(h.0.as_str());
                let value = trim(h.1.as_str());
                if same(key.as_str(), "elapsed_ms") || same(key.as_str(), "total_ms") {
                    match parse_i64(value.as_str()) {
                        Some(ms) => {
                            elapsed = Some(ms);
                        },
                        None => {},
                    }
                } else {
                    let pair = parse_pair(key.as_str(), value.as_str());
                    kv.push(pair);
                    assert(pair_views(kv@) =~= before.push(pair@));
                }
            },
            None => {},
        }
        i += 1;
    }
    assert(all.take(i as int) =~= all);
    (elapsed, kv)
}

/// Reads the `key=value` lines of an error stream.
pub fn parse_kv_lines(stderr: &[u8]) -> (r: (Option<i64>, Vec<KvPair>))
    ensures
        match r.0 {
            Some(ms) => reported_time(lines_of(lossy(stderr@))) == Some(ms as int),
            None => reported_time(lines_of(lossy(stderr@))) is None,
        },
        pair_views(r.1@) == reported_pairs(lines_of(lossy(stderr@))),
{
    let text = from_utf8_lossy(stderr);
    parse_kv_text(text.as_str())
}

/// At most the first five hundred characters.
pub open spec fn preview(text: Seq<char>) -> Seq<char> {
    if text.len() > 500 {
        text.take(500)
    } else {
        text
    }
}

/// Whether a result is what a text reports.
pub open spec fn is_reported(r: BenchResult, text: Seq<char>) -> bool {
    &&& reported_time(lines_of(text)) == Some(r.elapsed_ms as int)
    &&& pair_views(r.kv@) == reported_pairs(lines_of(text))
    &&& r.distribution is None
    &&& r.hotpath is None
}

/// Whether an error says that a text reports no elapsed time.
pub open spec fn is_missing_time(e: DevError, text: Seq<char>) -> bool {
    e@ == ErrorView::Config(
        "subprocess stderr missing elapsed_ms=NNN. stderr was:\n"@ + preview(text),
    )
}

/// Makes a result of the text of an error stream, which must report the elapsed time.
pub fn parse_kv_report(text: &str) -> (r: Result<BenchResult, DevError>)
    ensures
        reported_time(lines_of(text@)) is Some <==> r is Ok,
        r matches Ok(b) ==> is_reported(b, text@),
        r matches Err(e) ==> is_missing_time(e, text@),
{
    let (elapsed, kv) = parse_kv_text(text);
    match elapsed {
        Some(elapsed_ms) => Ok(BenchResult { elapsed_ms, kv, distribution: None, hotpath: None }),
        None => {
            let cs = chars_of(text);
            let n: usize = if cs.len() > 500 {
                500
            } else {
                cs.len()
            };
            let front = string_of(&cs, 0, n);
            assert(front@ =~= preview(text@));
            let mut message = "subprocess stderr missing elapsed_ms=NNN. stderr was:\n".to_owned();
            message.append(front.as_str());
            Err(DevError::Config(message))
        },
    }
}

/// Makes a result of an error stream, which must report the elapsed time.
pub fn parse_kv_stderr(stderr: &[u8]) -> (r: Result<BenchResult, DevError>)
    ensures
        reported_time(lines_of(lossy(stderr@))) is Some <==> r is Ok,
        r matches Ok(b) ==> is_reported(b, lossy(stderr@)),
        r matches Err(e) ==> is_missing_time(e, lossy(stderr@)),
{
    let text = from_utf8_lossy(stderr);
    parse_kv_report(text.as_str())
}

} // verus!
