//! Requests to the server of nidhogg and what comes back.

use crate::error::{DevError, ErrorView};
use crate::harness::kv::{from_utf8_lossy, lossy};
use crate::json::{array_len, json_array_len, json_string, string_at};
use crate::number::arith::{difference, of_int, quotient, sum};
use crate::number::double::{Double, Real};
use crate::number::parse::{parse_double, read_double};
use crate::number::shortest::shortest_text;
use crate::numeral::{nat_text, u64_text, usize_text};
use crate::path::{text_in, FilePath};
use crate::text::{
    char_count, joined, opt_view, pieces, pieces_of_joined, pieces_rejoin, same, split, trim, trimmed, views,
};
use vstd::prelude::*;
use vstd::utf8::encode_utf8;

verus! {

/// The cities that are looked up where no other query is given.
pub fn geocode_test_queries() -> (r: Vec<&'static str>)
    ensures
        crate::harness::command_line::str_views(r@) == seq!["Kobenhavn"@, "Aarhus"@, "Odense"@],
{
    let r = vec!["Kobenhavn", "Aarhus", "Odense"];
    assert(crate::harness::command_line::str_views(r@) =~= seq![
        "Kobenhavn"@,
        "Aarhus"@,
        "Odense"@,
    ]);
    r
}

/// A box of the configuration, longitudes first, as the server wants it,
/// latitudes first.
pub open spec fn api_bbox(bbox: Seq<char>) -> Result<Seq<char>, ErrorView> {
    let p = pieces(bbox, ',');
    if p.len() != 4 {
        Err(
            ErrorView::Config(
                "bbox must have 4 comma-separated values, got "@ + nat_text(p.len()) + ": "@ + bbox,
            ),
        )
    } else {
        Ok("["@ + p[1] + ","@ + p[0] + ","@ + p[3] + ","@ + p[2] + "]"@)
    }
}

/// A box of the configuration is turned where it holds three commas, and only
/// there. Turned twice it is itself again: what stands between the brackets is a
/// box, and turning that gives the box in brackets.
pub proof fn box_turns_back(bbox: Seq<char>)
    ensures
        api_bbox(bbox) is Ok <==> char_count(bbox, ',') == 3,
        api_bbox(bbox) matches Ok(t) ==> {
            &&& t.len() == bbox.len() + 2
            &&& t[0] == '['
            &&& t.last() == ']'
            &&& api_bbox(t.subrange(1, t.len() - 1)) == Ok::<Seq<char>, ErrorView>(
                "["@ + bbox + "]"@,
            )
        },
{
    let p = pieces(bbox, ',');
    pieces_rejoin(bbox, ',');
    if p.len() == 4 {
        reveal_strlit("[");
        reveal_strlit(",");
        reveal_strlit("]");
        assert(","@ =~= seq![',']);
        let t = api_bbox(bbox)->Ok_0;
        let inner = t.subrange(1, t.len() - 1);
        let q = seq![p[1], p[0], p[3], p[2]];
        four_joined(p, ","@);
        four_joined(q, ","@);
        assert(t =~= "["@ + joined(q, ","@) + "]"@);
        assert(inner =~= joined(q, ","@));
        assert forall|i: int| 0 <= i < q.len() implies !(#[trigger] q[i]).contains(',') by {
            assert(!p[0].contains(',') && !p[1].contains(',') && !p[2].contains(',')
                && !p[3].contains(','));
        }
        pieces_of_joined(q, ',');
        assert(api_bbox(inner)->Ok_0 =~= "["@ + bbox + "]"@);
    }
}

proof fn four_joined(p: Seq<Seq<char>>, sep: Seq<char>)
    requires
        p.len() == 4,
    ensures
        joined(p, sep) == p[0] + sep + p[1] + sep + p[2] + sep + p[3],
{
    assert(joined(p, sep) == joined(p.drop_last(), sep) + sep + p[3]);
    let three = p.drop_last();
    assert(joined(three, sep) == joined(three.drop_last(), sep) + sep + p[2]);
    let two = three.drop_last();
    assert(joined(two, sep) == joined(two.drop_last(), sep) + sep + p[1]);
    assert(joined(two.drop_last(), sep) == p[0]);
}

/// Whether a result is the text or the error of another.
pub open spec fn is_result(r: Result<String, DevError>, want: Result<Seq<char>, ErrorView>) -> bool {
    match want {
        Ok(t) => r matches Ok(s) && s@ == t,
        Err(e) => r matches Err(x) && x@ == e,
    }
}

/// Turns a box of the configuration into the array that the server wants.
pub fn bbox_to_api(bbox: &str) -> (r: Result<String, DevError>)
    ensures
        is_result(r, api_bbox(bbox@)),
{
    let parts = split(bbox, ',');
    let ghost p = pieces(bbox@, ',');
    assert(views(parts@).len() == parts@.len());
    if parts.len() != 4 {
        let mut m = "bbox must have 4 comma-separated values, got ".to_owned();
        m.append(usize_text(parts.len()).as_str());
        m.append(": ");
        m.append(bbox);
        return Err(DevError::Config(m));
    }
    assert(views(parts@)[0] == parts@[0]@ && views(parts@)[1] == parts@[1]@ && views(parts@)[2]
        == parts@[2]@ && views(parts@)[3] == parts@[3]@);
    let mut out = "[".to_owned();
    out.append(parts[1].as_str());
    out.append(",");
    out.append(parts[0].as_str());
    out.append(",");
    out.append(parts[3].as_str());
    out.append(",");
    out.append(parts[2].as_str());
    out.append("]");
    Ok(out)
}

/// A query for one kind of thing in a box.
pub open spec fn query_body(api: Seq<char>, filter: Seq<char>) -> Seq<char> {
    "{\"bbox\":"@ + api + ",\"query\":["@ + filter + "]}"@
}

/// The filter for roads.
pub open spec fn road_filter() -> Seq<char> {
    "{\"highway\":[\"motorway\",\"trunk\",\"primary\",\"secondary\",\"tertiary\",\"residential\"]}"@
}

fn make_query(api: &str, filter: &str) -> (r: String)
    ensures
        r@ == query_body(api@, filter@),
{
    let mut out = "{\"bbox\":".to_owned();
    out.append(api);
    out.append(",\"query\":[");
    out.append(filter);
    out.append("]}");
    out
}

fn roads() -> (r: &'static str)
    ensures
        r@ == road_filter(),
{
    "{\"highway\":[\"motorway\",\"trunk\",\"primary\",\"secondary\",\"tertiary\",\"residential\"]}"
}

/// Makes the default query for a box: its roads.
pub fn default_api_query(bbox: &str) -> (r: Result<String, DevError>)
    ensures
        is_result(
            r,
            match api_bbox(bbox@) {
                Ok(api) => Ok(query_body(api, road_filter())),
                Err(e) => Err(e),
            },
        ),
{
    match bbox_to_api(bbox) {
        Ok(api) => Ok(make_query(api.as_str(), roads())),
        Err(e) => Err(e),
    }
}

/// The numbers of a box, or the first component that is none.
pub open spec fn bbox_numbers(parts: Seq<Seq<char>>) -> Result<Seq<Real>, Seq<char>>
    decreases parts.len(),
{
    if parts.len() == 0 {
        Ok(Seq::empty())
    } else {
        match bbox_numbers(parts.drop_last()) {
            Err(e) => Err(e),
            Ok(before) => match read_double(trimmed(parts.last())) {
                Some(x) => Ok(before.push(x)),
                None => Err(parts.last()),
            },
        }
    }
}

/// The middle quarter of a box.
pub open spec fn middle_quarter(n: Seq<Real>) -> Seq<char> {
    let lon_mid = quotient(sum(n[0], n[2]), of_int(2));
    let lat_mid = quotient(sum(n[1], n[3]), of_int(2));
    let lon_q = quotient(difference(n[2], n[0]), of_int(4));
    let lat_q = quotient(difference(n[3], n[1]), of_int(4));
    shortest_text(difference(lon_mid, lon_q)) + ","@ + shortest_text(difference(lat_mid, lat_q))
        + ","@ + shortest_text(sum(lon_mid, lon_q)) + ","@ + shortest_text(sum(lat_mid, lat_q))
}

/// A box shrunk to its middle quarter.
pub open spec fn shrunk_bbox(bbox: Seq<char>) -> Result<Seq<char>, ErrorView> {
    match bbox_numbers(pieces(bbox, ',')) {
        Err(part) => Err(ErrorView::Config("invalid bbox component: "@ + part)),
        Ok(n) => if n.len() != 4 {
            Err(ErrorView::Config("bbox must have 4 values"@))
        } else {
            Ok(middle_quarter(n))
        },
    }
}

/// The values of some numbers.
pub open spec fn real_views(v: Seq<Double>) -> Seq<Real> {
    v.map_values(|d: Double| d@)
}

proof fn bbox_numbers_fail(parts: Seq<Seq<char>>, k: int)
    requires
        0 <= k <= parts.len(),
        bbox_numbers(parts.take(k)) is Err,
    ensures
        bbox_numbers(parts) == bbox_numbers(parts.take(k)),
    decreases parts.len() - k,
{
    if k < parts.len() {
        assert(parts.take(k + 1).drop_last() =~= parts.take(k));
        bbox_numbers_fail(parts, k + 1);
    } else {
        assert(parts.take(k) =~= parts);
    }
}

/// Shrinks a box to its middle quarter.
pub fn shrink_bbox(bbox: &str) -> (r: Result<String, DevError>)
    ensures
        is_result(r, shrunk_bbox(bbox@)),
{
    let parts = split(bbox, ',');
    let ghost all = pieces(bbox@, ',');
    let mut n: Vec<Double> = Vec::new();
    let mut i: usize = 0;
    assert(real_views(n@) =~= Seq::empty());
    while i < parts.len()
        invariant
            i <= parts@.len(),
            views(parts@) == all,
            all == pieces(bbox@, ','),
            bbox_numbers(all.take(i as int)) == Ok::<Seq<Real>, Seq<char>>(real_views(n@)),
            n@.len() == i,
        decreases parts@.len() - i,
    {
        assert(all.take(i + 1).drop_last() =~= all.take(i as int));
        assert(all[i as int] == parts@[i as int]@);
        let ghost before = real_views(n@);
        let t = trim(parts[i].as_str());
        match parse_double(t.as_str()) {
            Some(x) => {
                n.push(x);
                assert(real_views(n@) =~= before.push(x@));
            },
            None => {
                proof {
                    bbox_numbers_fail(all, i + 1);
                }
                let mut m = "invalid bbox component: ".to_owned();
                m.append(parts[i].as_str());
                return Err(DevError::Config(m));
            },
        }
        i += 1;
    }
    assert(all.take(i as int) =~= all);
    assert(real_views(n@).len() == n@.len());
    if n.len() != 4 {
        return Err(DevError::Config("bbox must have 4 values".to_owned()));
    }
    let ghost r = real_views(n@);
    assert(r[0] == n@[0]@ && r[1] == n@[1]@ && r[2] == n@[2]@ && r[3] == n@[3]@);
    let two = Double::of_i64(2);
    let four = Double::of_i64(4);
    let lon_mid = n[0].plus(n[2]).over(two);
    let lat_mid = n[1].plus(n[3]).over(two);
    let lon_q = n[2].minus(n[0]).over(four);
    let lat_q = n[3].minus(n[1]).over(four);
    let mut out = lon_mid.minus(lon_q).shortest();
    out.append(",");
    out.append(lat_mid.minus(lat_q).shortest().as_str());
    out.append(",");
    out.append(lon_mid.plus(lon_q).shortest().as_str());
    out.append(",");
    out.append(lat_mid.plus(lat_q).shortest().as_str());
    Ok(out)
}

/// Names and bodies of queries.
pub open spec fn query_views(v: Seq<(String, String)>) -> Seq<(Seq<char>, Seq<char>)> {
    v.map_values(|q: (String, String)| (q.0@, q.1@))
}

/// The queries for a box and for its middle: roads twice, everything in the
/// middle, and buildings.
pub open spec fn four_queries(full: Seq<char>, small: Seq<char>) -> Seq<(Seq<char>, Seq<char>)> {
    seq![
        ("highways"@, query_body(full, road_filter())),
        ("highways_large"@, query_body(full, road_filter())),
        ("small_nofilter"@, query_body(small, ""@)),
        ("buildings"@, query_body(full, "{\"building\":true}"@)),
    ]
}

fn make_four_queries(full: &str, small: &str) -> (r: Vec<(String, String)>)
    ensures
        query_views(r@) == four_queries(full@, small@),
{
    let v = vec![
        ("highways".to_owned(), make_query(full, roads())),
        ("highways_large".to_owned(), make_query(full, roads())),
        ("small_nofilter".to_owned(), make_query(small, "")),
        ("buildings".to_owned(), make_query(full, "{\"building\":true}")),
    ];
    assert(query_views(v@) =~= four_queries(full@, small@));
    v
}

/// The queries of the benchmark for a box.
pub open spec fn api_queries(bbox: Seq<char>) -> Result<Seq<(Seq<char>, Seq<char>)>, ErrorView> {
    match api_bbox(bbox) {
        Err(e) => Err(e),
        Ok(full) => match shrunk_bbox(bbox) {
            Err(e) => Err(e),
            Ok(small_bbox) => match api_bbox(small_bbox) {
                Err(e) => Err(e),
                Ok(small) => Ok(four_queries(full, small)),
            },
        },
    }
}

/// Makes the queries of the benchmark for a box.
pub fn build_api_queries(bbox: &str) -> (r: Result<Vec<(String, String)>, DevError>)
    ensures
        match api_queries(bbox@) {
            Ok(qs) => r matches Ok(v) && query_views(v@) == qs,
            Err(e) => r matches Err(x) && x@ == e,
        },
{
    let full = match bbox_to_api(bbox) {
        Ok(t) => t,
        Err(e) => {
            return Err(e);
        },
    };
    let small_bbox = match shrink_bbox(bbox) {
        Ok(t) => t,
        Err(e) => {
            return Err(e);
        },
    };
    let small = match bbox_to_api(small_bbox.as_str()) {
        Ok(t) => t,
        Err(e) => {
            return Err(e);
        },
    };
    Ok(make_four_queries(full.as_str(), small.as_str()))
}

/// The four filters of the batch query, each with its name.
pub open spec fn batch_filters() -> Seq<(Seq<char>, Seq<char>)> {
    seq![
        ("roads"@, road_filter()),
        ("infra"@, "{\"railway\":true}"@),
        ("coastline"@, "{\"natural\":[\"coastline\"]}"@),
        ("landcover"@, "{\"landuse\":true}"@),
    ]
}

/// The batch query for a box: all four filters at once.
pub open spec fn batch_body(api: Seq<char>) -> Seq<char> {
    "{\"bbox\":"@ + api + ",\"queries\":{\"roads\":["@ + road_filter()
        + "],\"infra\":[{\"railway\":true}],\"coastline\":[{\"natural\":[\"coastline\"]}],\"landcover\":[{\"landuse\":true}]}}"@
}

/// The four filters of the batch query as single queries for a box.
pub open spec fn single_queries(api: Seq<char>) -> Seq<(Seq<char>, Seq<char>)> {
    batch_filters().map_values(
        |f: (Seq<char>, Seq<char>)| (f.0, query_body(api, f.1)),
    )
}

/// Makes the batch query for a box and the single queries that it stands for.
pub fn build_batch_queries(bbox: &str) -> (r: Result<(String, Vec<(String, String)>), DevError>)
    ensures
        match api_bbox(bbox@) {
            Ok(api) => r matches Ok(v) && v.0@ == batch_body(api) && query_views(v.1@)
                == single_queries(api),
            Err(e) => r matches Err(x) && x@ == e,
        },
{
    let api = match bbox_to_api(bbox) {
        Ok(t) => t,
        Err(e) => {
            return Err(e);
        },
    };
    let mut batch = "{\"bbox\":".to_owned();
    batch.append(api.as_str());
    batch.append(",\"queries\":{\"roads\":[");
    batch.append(roads());
    batch.append(
        "],\"infra\":[{\"railway\":true}],\"coastline\":[{\"natural\":[\"coastline\"]}],\"landcover\":[{\"landuse\":true}]}}",
    );
    let v = vec![
        ("roads".to_owned(), make_query(api.as_str(), roads())),
        ("infra".to_owned(), make_query(api.as_str(), "{\"railway\":true}")),
        ("coastline".to_owned(), make_query(api.as_str(), "{\"natural\":[\"coastline\"]}")),
        ("landcover".to_owned(), make_query(api.as_str(), "{\"landuse\":true}")),
    ];
    assert(query_views(v@) =~= single_queries(api@));
    Ok((batch, v))
}

/// The address of the server.
pub open spec fn server_url(port: u16) -> Seq<char> {
    "http://localhost:"@ + nat_text(port as nat)
}

fn make_url(port: u16, path: &str) -> (r: String)
    ensures
        r@ == server_url(port) + path@,
{
    let mut out = "http://localhost:".to_owned();
    out.append(u64_text(port as u64).as_str());
    out.append(path);
    out
}

/// The address for queries.
pub fn query_url(port: u16) -> (r: String)
    ensures
        r@ == server_url(port) + "/api/query"@,
{
    make_url(port, "/api/query")
}

/// The address for batch queries.
pub fn batch_query_url(port: u16) -> (r: String)
    ensures
        r@ == server_url(port) + "/api/query_batch"@,
{
    make_url(port, "/api/query_batch")
}

/// The address of a tile.
pub fn tile_url(port: u16, z: u32, x: u32, y: u32) -> (r: String)
    ensures
        r@ == server_url(port) + "/api/tiles/"@ + nat_text(z as nat) + "/"@ + nat_text(x as nat)
            + "/"@ + nat_text(y as nat),
{
    let mut out = make_url(port, "/api/tiles/");
    out.append(u64_text(z as u64).as_str());
    out.append("/");
    out.append(u64_text(x as u64).as_str());
    out.append("/");
    out.append(u64_text(y as u64).as_str());
    out
}

/// The address for looking up a place.
pub fn geocode_url(port: u16, term: &str) -> (r: String)
    ensures
        r@ == server_url(port) + "/api/geocode?q="@ + url_encoded(encode_utf8(term@)),
{
    let mut out = make_url(port, "/api/geocode?q=");
    out.append(url_encode(term).as_str());
    out
}

/// Whether a byte stands in an address as it is.
pub open spec fn is_unreserved(b: u8) -> bool {
    65 <= b <= 90 || 97 <= b <= 122 || 48 <= b <= 57 || b == 45 || b == 95 || b == 46 || b == 126
}

/// A hexadecimal digit in upper case.
pub open spec fn upper_hex(d: int) -> char {
    if d < 10 {
        ((48 + d) as u8) as char
    } else {
        ((55 + d) as u8) as char
    }
}

/// A byte as it stands in an address.
pub open spec fn encoded_byte(b: u8) -> Seq<char> {
    if is_unreserved(b) {
        seq![b as char]
    } else {
        seq!['%', upper_hex(b as int / 16), upper_hex(b as int % 16)]
    }
}

/// Bytes as they stand in an address.
pub open spec fn url_encoded(bytes: Seq<u8>) -> Seq<char>
    decreases bytes.len(),
{
    if bytes.len() == 0 {
        Seq::empty()
    } else {
        url_encoded(bytes.drop_last()) + encoded_byte(bytes.last())
    }
}

fn hex_upper(d: u8) -> (c: char)
    requires
        d < 16,
    ensures
        c == upper_hex(d as int),
{
    if d < 10 {
        (48 + d) as char
    } else {
        (55 + d) as char
    }
}

/// Encodes a text for an address: unreserved characters as they are, every
/// other byte as a percent sign and two digits.
pub fn url_encode(input: &str) -> (r: String)
    ensures
        r@ == url_encoded(encode_utf8(input@)),
{
    let bytes = input.as_bytes();
    let mut out = String::new();
    let mut i: usize = 0;
    while i < bytes.len()
        invariant
            i <= bytes@.len(),
            out@ == url_encoded(bytes@.take(i as int)),
        decreases bytes@.len() - i,
    {
        let b: u8 = bytes[i];
        let ghost before = out@;
        if (65 <= b && b <= 90) || (97 <= b && b <= 122) || (48 <= b && b <= 57) || b == 45 || b
            == 95 || b == 46 || b == 126 {
            out.push(b as char);
        } else {
            out.push('%');
            out.push(hex_upper(b / 16));
            out.push(hex_upper(b % 16));
        }
        assert(out@ =~= before + encoded_byte(b));
        i += 1;
        assert(bytes@.take(i as int).drop_last() =~= bytes@.take(i - 1));
    }
    assert(bytes@.take(i as int) =~= bytes@);
    out
}

/// The value of a hexadecimal digit in upper case.
pub open spec fn hex_value(c: char) -> int {
    if '0' <= c <= '9' {
        c as int - 48
    } else {
        c as int - 55
    }
}

/// What an encoded text stands for: a percent sign and two digits are the byte of
/// that number, any other character is its own.
pub open spec fn url_decoded(s: Seq<char>) -> Seq<u8>
    decreases s.len(),
{
    if s.len() == 0 {
        Seq::empty()
    } else if s[0] == '%' && s.len() >= 3 {
        seq![(hex_value(s[1]) * 16 + hex_value(s[2])) as u8] + url_decoded(s.skip(3))
    } else {
        seq![s[0] as u8] + url_decoded(s.skip(1))
    }
}

/// Texts are encoded piece by piece.
pub proof fn encoded_by_parts(a: Seq<u8>, b: Seq<u8>)
    ensures
        url_encoded(a + b) == url_encoded(a) + url_encoded(b),
    decreases b.len(),
{
    if b.len() == 0 {
        assert(a + b =~= a);
        assert(url_encoded(a) + url_encoded(b) =~= url_encoded(a));
    } else {
        let front = b.drop_last();
        encoded_by_parts(a, front);
        assert((a + b).drop_last() =~= a + front);
        assert(url_encoded(a + b) =~= url_encoded(a) + url_encoded(b));
    }
}

proof fn byte_decoded(b: u8, rest: Seq<char>)
    ensures
        url_decoded(encoded_byte(b) + rest) == seq![b] + url_decoded(rest),
{
    let s = encoded_byte(b) + rest;
    if is_unreserved(b) {
        assert(s[0] == b as char);
        assert(s[0] != '%');
        assert(s.skip(1) =~= rest);
    } else {
        let high = b as int / 16;
        let low = b as int % 16;
        assert(s[0] == '%' && s[1] == upper_hex(high) && s[2] == upper_hex(low));
        assert(hex_value(upper_hex(high)) == high);
        assert(hex_value(upper_hex(low)) == low);
        assert(s.skip(3) =~= rest);
    }
}

/// Decoding gives back the bytes that were encoded.
pub proof fn decoded_is_input(bytes: Seq<u8>)
    ensures
        url_decoded(url_encoded(bytes)) == bytes,
    decreases bytes.len(),
{
    if bytes.len() > 0 {
        let first = seq![bytes[0]];
        let rest = bytes.skip(1);
        assert(bytes =~= first + rest);
        encoded_by_parts(first, rest);
        assert(first.drop_last() =~= Seq::empty());
        assert(url_encoded(first) =~= encoded_byte(bytes[0])) by {
            assert(url_encoded(Seq::empty()) =~= Seq::empty());
        }
        byte_decoded(bytes[0], url_encoded(rest));
        decoded_is_input(rest);
    } else {
        assert(bytes =~= Seq::empty());
    }
}

/// Two texts that are encoded alike are the same text.
pub proof fn encoding_parts_texts(a: Seq<char>, b: Seq<char>)
    requires
        url_encoded(encode_utf8(a)) == url_encoded(encode_utf8(b)),
    ensures
        a == b,
{
    decoded_is_input(encode_utf8(a));
    decoded_is_input(encode_utf8(b));
    vstd::utf8::encode_utf8_decode_utf8(a);
    vstd::utf8::encode_utf8_decode_utf8(b);
}

/// An encoded text holds nothing but unreserved characters and percent signs,
/// so that none of the signs with a meaning in addresses is left.
pub proof fn encoded_is_safe(bytes: Seq<u8>)
    ensures
        forall|i: int|
            0 <= i < url_encoded(bytes).len() ==> ('A' <= #[trigger] url_encoded(bytes)[i] <= 'Z'
                || 'a' <= url_encoded(bytes)[i] <= 'z' || '0' <= url_encoded(bytes)[i] <= '9'
                || url_encoded(bytes)[i] == '-' || url_encoded(bytes)[i] == '_' || url_encoded(
                bytes,
            )[i] == '.' || url_encoded(bytes)[i] == '~' || url_encoded(bytes)[i] == '%'),
    decreases bytes.len(),
{
    if bytes.len() > 0 {
        encoded_is_safe(bytes.drop_last());
        let a = url_encoded(bytes.drop_last());
        let b = encoded_byte(bytes.last());
        assert forall|i: int| 0 <= i < url_encoded(bytes).len() implies ('A'
            <= #[trigger] url_encoded(bytes)[i] <= 'Z' || 'a' <= url_encoded(bytes)[i] <= 'z' || '0'
            <= url_encoded(bytes)[i] <= '9' || url_encoded(bytes)[i] == '-' || url_encoded(bytes)[i]
            == '_' || url_encoded(bytes)[i] == '.' || url_encoded(bytes)[i] == '~' || url_encoded(
            bytes,
        )[i] == '%') by {
            if i < a.len() {
                assert(url_encoded(bytes)[i] == a[i]);
            } else {
                assert(url_encoded(bytes)[i] == b[i - a.len()]);
            }
        }
    }
}

/// The arguments of a request that reads.
pub fn curl_get_args(url: &str) -> (r: Vec<String>)
    ensures
        views(r@) == seq!["-s"@, "--compressed"@, "--fail-with-body"@, "--max-time"@, "30"@, url@],
{
    let r = vec![
        "-s".to_owned(),
        "--compressed".to_owned(),
        "--fail-with-body".to_owned(),
        "--max-time".to_owned(),
        "30".to_owned(),
        url.to_owned(),
    ];
    assert(views(r@) =~= seq![
        "-s"@,
        "--compressed"@,
        "--fail-with-body"@,
        "--max-time"@,
        "30"@,
        url@,
    ]);
    r
}

/// The arguments that carry a JSON body.
pub open spec fn post_args(url: Seq<char>, body: Seq<char>) -> Seq<Seq<char>> {
    seq!["-X"@, "POST"@, url, "-H"@, "Content-Type: application/json"@, "-d"@, body]
}

fn push_post_args(out: &mut Vec<String>, url: &str, body: &str)
    ensures
        views(final(out)@) == views(old(out)@) + post_args(url@, body@),
{
    out.push("-X".to_owned());
    out.push("POST".to_owned());
    out.push(url.to_owned());
    out.push("-H".to_owned());
    out.push("Content-Type: application/json".to_owned());
    out.push("-d".to_owned());
    out.push(body.to_owned());
    assert(views(out@) =~= views(old(out)@) + post_args(url@, body@));
}

/// The arguments of a request that sends a JSON body.
pub fn curl_post_args(url: &str, body: &str) -> (r: Vec<String>)
    ensures
        views(r@) == seq!["-s"@, "--compressed"@, "--fail-with-body"@, "--max-time"@, "30"@]
            + post_args(url@, body@),
{
    let mut r = vec![
        "-s".to_owned(),
        "--compressed".to_owned(),
        "--fail-with-body".to_owned(),
        "--max-time".to_owned(),
        "30".to_owned(),
    ];
    assert(views(r@) =~= seq!["-s"@, "--compressed"@, "--fail-with-body"@, "--max-time"@, "30"@]);
    push_post_args(&mut r, url, body);
    r
}

/// The arguments of the request that asks whether the server answers.
pub fn health_args(port: u16) -> (r: Vec<String>)
    ensures
        views(r@) == seq!["-s"@, "-o"@, "/dev/null"@, "-w"@, "%{http_code}"@] + post_args(
            server_url(port) + "/api/query"@,
            "{\"bbox\":[0,0,0,0],\"query\":[]}"@,
        ) + seq!["--connect-timeout"@, "2"@],
{
    let mut r = vec![
        "-s".to_owned(),
        "-o".to_owned(),
        "/dev/null".to_owned(),
        "-w".to_owned(),
        "%{http_code}".to_owned(),
    ];
    assert(views(r@) =~= seq!["-s"@, "-o"@, "/dev/null"@, "-w"@, "%{http_code}"@]);
    let url = query_url(port);
    push_post_args(&mut r, url.as_str(), "{\"bbox\":[0,0,0,0],\"query\":[]}");
    let ghost before = views(r@);
    r.push("--connect-timeout".to_owned());
    r.push("2".to_owned());
    assert(views(r@) =~= before + seq!["--connect-timeout"@, "2"@]);
    r
}

/// The arguments of a timed request: the body is dropped, the time is printed.
pub fn timed_args(url: &str, body: &str) -> (r: Vec<String>)
    ensures
        views(r@) == seq!["-s"@, "--compressed"@, "-o"@, "/dev/null"@, "-w"@, "\n%{time_total}"@]
            + post_args(url@, body@),
{
    let mut r = vec![
        "-s".to_owned(),
        "--compressed".to_owned(),
        "-o".to_owned(),
        "/dev/null".to_owned(),
        "-w".to_owned(),
        "\n%{time_total}".to_owned(),
    ];
    assert(views(r@) =~= seq![
        "-s"@,
        "--compressed"@,
        "-o"@,
        "/dev/null"@,
        "-w"@,
        "\n%{time_total}"@,
    ]);
    push_post_args(&mut r, url, body);
    r
}

/// The arguments of a request whose size is printed behind its body.
pub fn sized_args(url: &str, body: &str) -> (r: Vec<String>)
    ensures
        views(r@) == seq!["-s"@, "--compressed"@, "-w"@, "\n%{size_download}"@] + post_args(
            url@,
            body@,
        ),
{
    let mut r = vec![
        "-s".to_owned(),
        "--compressed".to_owned(),
        "-w".to_owned(),
        "\n%{size_download}".to_owned(),
    ];
    assert(views(r@) =~= seq!["-s"@, "--compressed"@, "-w"@, "\n%{size_download}"@]);
    push_post_args(&mut r, url, body);
    r
}

/// How a program ended.
pub enum Ended {
    /// It could not be started, for the reason.
    NotStarted(String),
    /// It ended, with what it wrote.
    Done { success: bool, code: Option<i32>, stdout: Vec<u8>, stderr: Vec<u8> },
}

/// The output of a program that succeeded, or the error of one that did not.
pub open spec fn program_result(program: Seq<char>, ended: Ended) -> Result<Seq<char>, ErrorView> {
    match ended {
        Ended::NotStarted(why) => Err(ErrorView::Subprocess(program, None, why@)),
        Ended::Done { success, code, stdout, stderr } => if success {
            Ok(lossy(stdout@))
        } else {
            Err(ErrorView::Subprocess(program, code, lossy(stderr@)))
        },
    }
}

/// Turns the end of a program into its output or an error.
pub fn finish_program(program: &str, ended: Ended) -> (r: Result<String, DevError>)
    ensures
        is_result(r, program_result(program@, ended)),
{
    match ended {
        Ended::NotStarted(why) => Err(
            DevError::Subprocess { program: program.to_owned(), code: None, stderr: why },
        ),
        Ended::Done { success, code, stdout, stderr } => {
            if success {
                Ok(from_utf8_lossy(&stdout))
            } else {
                Err(
                    DevError::Subprocess {
                        program: program.to_owned(),
                        code,
                        stderr: from_utf8_lossy(&stderr),
                    },
                )
            }
        },
    }
}

/// The body of a reply that reads, or the error.
pub fn curl_get(ended: Ended) -> (r: Result<String, DevError>)
    ensures
        is_result(r, program_result("curl"@, ended)),
{
    finish_program("curl", ended)
}

/// The body of a reply to what was sent, or the error.
pub fn curl_post(ended: Ended) -> (r: Result<String, DevError>)
    ensures
        is_result(r, program_result("curl"@, ended)),
{
    finish_program("curl", ended)
}

/// Whether the server answers: the request succeeded with status 200.
pub fn health_check(ended: Ended) -> (r: bool)
    ensures
        r == (ended matches Ended::Done { success, code, stdout, stderr } && success && trimmed(
            lossy(stdout@),
        ) == "200"@),
{
    match ended {
        Ended::NotStarted(_) => false,
        Ended::Done { success, code: _, stdout, stderr: _ } => {
            if !success {
                return false;
            }
            let text = from_utf8_lossy(&stdout);
            let status = trim(text.as_str());
            same(status.as_str(), "200")
        },
    }
}

/// A path as text; the error shows the path as it is displayed.
pub fn path_str(path: &FilePath, display: &str) -> (r: Result<String, DevError>)
    ensures
        is_result(
            r,
            match text_in(path.bytes@) {
                Some(t) => Ok(t),
                None => Err(ErrorView::Config("path is not valid UTF-8: "@ + display@)),
            },
        ),
{
    match path.to_str() {
        Some(t) => Ok(t),
        None => {
            let mut m = "path is not valid UTF-8: ".to_owned();
            m.append(display);
            Err(DevError::Config(m))
        },
    }
}

/// How many elements a reply holds.
pub open spec fn elements_in(reply: Seq<char>) -> nat {
    match json_array_len(reply, "/elements"@) {
        Some(n) => n,
        None => 0,
    }
}

/// Counts the elements of a reply, none where it has no list of them.
pub fn element_count(reply: &str) -> (r: usize)
    ensures
        r == elements_in(reply@),
{
    count_or_none(array_len(reply, "/elements"))
}

/// The length of a list, none where there is no list.
pub fn count_or_none(len: Option<usize>) -> (r: usize)
    ensures
        r == match len {
            Some(n) => n as int,
            None => 0,
        },
{
    match len {
        Some(n) => n,
        None => 0,
    }
}

/// The name of the first place in a reply, where the reply is a list.
pub open spec fn top_name_in(reply: Seq<char>) -> Option<Seq<char>> {
    match json_array_len(reply, ""@) {
        Some(n) => if n > 0 {
            json_string(reply, "/0/displayName"@)
        } else {
            None
        },
        None => None,
    }
}

/// Finds the name of the first place in a reply.
pub fn geocode_top_name(reply: &str) -> (r: Option<String>)
    ensures
        opt_view(r) == top_name_in(reply@),
{
    match array_len(reply, "") {
        Some(n) => {
            if n > 0 {
                string_at(reply, "/0/displayName")
            } else {
                None
            }
        },
        None => None,
    }
}

} // verus!
