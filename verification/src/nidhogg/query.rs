//! A single query: what is sent, and what its reply says.

use crate::error::{DevError, ErrorView};
use crate::json::{
    array_len, check_json, json_array_len, json_fault, json_number, json_string, number_at, string_at,
};
use crate::nidhogg::client::is_result;
use crate::number::double::{Double, Real};
use crate::number::fixed::fixed_text;
use crate::numeral::{nat_text, usize_text};
use crate::text::{opt_str, opt_view, same, text_or, views};
use vstd::prelude::*;

verus! {

/// The query that is sent where none is given: the roads of Copenhagen.
pub const DEFAULT_API_QUERY: &'static str =
    "{\"bbox\":[55.66,12.55,55.70,12.60],\"query\":[{\"highway\":[\"motorway\",\"trunk\",\"primary\",\"secondary\",\"tertiary\",\"residential\"]}]}";

/// Chooses the body of a query.
pub fn query_or_default(query_json: Option<&str>) -> (r: String)
    ensures
        r@ == match opt_str(query_json) {
            Some(q) => q,
            None => DEFAULT_API_QUERY@,
        },
{
    match query_json {
        Some(q) => q.to_owned(),
        None => DEFAULT_API_QUERY.to_owned(),
    }
}

/// The texts of some optional strings.
pub open spec fn opt_views(v: Seq<Option<String>>) -> Seq<Option<Seq<char>>> {
    v.map_values(|s: Option<String>| opt_view(s))
}

/// How many of some types are the given one.
pub open spec fn type_count(types: Seq<Option<Seq<char>>>, name: Seq<char>) -> nat
    decreases types.len(),
{
    if types.len() == 0 {
        0
    } else {
        type_count(types.drop_last(), name) + if types.last() == Some(name) {
            1nat
        } else {
            0nat
        }
    }
}

/// The number of ways, of relations and of everything else.
pub struct TypeCounts {
    pub ways: usize,
    pub relations: usize,
    pub other: usize,
}

/// Counts elements by their types.
pub fn count_by_type(types: &[Option<String>]) -> (r: TypeCounts)
    ensures
        r.ways == type_count(opt_views(types@), "way"@),
        r.relations == type_count(opt_views(types@), "relation"@),
        r.ways + r.relations + r.other == types@.len(),
{
    let ghost all = opt_views(types@);
    let mut ways: usize = 0;
    let mut relations: usize = 0;
    let mut other: usize = 0;
    let mut i: usize = 0;
    proof {
        reveal_strlit("way");
        reveal_strlit("relation");
        assert("way"@.len() != "relation"@.len());
    }
    while i < types.len()
        invariant
            i <= types@.len(),
            all == opt_views(types@),
            "way"@ != "relation"@,
            ways == type_count(all.take(i as int), "way"@),
            relations == type_count(all.take(i as int), "relation"@),
            ways + relations + other == i,
        decreases types@.len() - i,
    {
        assert(all.take(i + 1).drop_last() =~= all.take(i as int));
        assert(all[i as int] == opt_view(types@[i as int]));
        match &types[i] {
            Some(t) => {
                if same(t.as_str(), "way") {
                    ways += 1;
                } else if same(t.as_str(), "relation") {
                    relations += 1;
                } else {
                    other += 1;
                }
            },
            None => {
                other += 1;
            },
        }
        i += 1;
    }
    assert(all.take(i as int) =~= all);
    TypeCounts { ways, relations, other }
}

/// The place of an element's type in a reply.
pub open spec fn type_place(i: nat) -> Seq<char> {
    "/elements/"@ + nat_text(i) + "/type"@
}

/// The types of the elements of a reply.
pub open spec fn types_in(reply: Seq<char>, n: nat) -> Seq<Option<Seq<char>>> {
    Seq::new(n, |i: int| json_string(reply, type_place(i as nat)))
}

/// The line on the elements of a reply.
pub open spec fn elements_line(types: Seq<Option<Seq<char>>>) -> Seq<char> {
    let ways = type_count(types, "way"@);
    let relations = type_count(types, "relation"@);
    nat_text(types.len()) + " elements: way="@ + nat_text(ways) + ", relation="@ + nat_text(
        relations,
    ) + ", other="@ + nat_text((types.len() - ways - relations) as nat)
}

fn write_elements_line(types: &[Option<String>]) -> (r: String)
    ensures
        r@ == elements_line(opt_views(types@)),
{
    let counts = count_by_type(types);
    let mut out = usize_text(types.len());
    out.append(" elements: way=");
    out.append(usize_text(counts.ways).as_str());
    out.append(", relation=");
    out.append(usize_text(counts.relations).as_str());
    out.append(", other=");
    out.append(usize_text(counts.other).as_str());
    assert(opt_views(types@).len() == types@.len());
    out
}

/// What a reply to a query says.
pub open spec fn query_summary(reply: Seq<char>) -> Result<Seq<char>, ErrorView> {
    match json_fault(reply) {
        Some(e) => Err(ErrorView::Verify("invalid JSON from query API: "@ + e)),
        None => match json_array_len(reply, "/elements"@) {
            Some(n) => Ok(elements_line(types_in(reply, n))),
            None => Ok("no elements in response"@),
        },
    }
}

/// Sums up the reply to a query: its elements by type.
pub fn run(reply: &str) -> (r: Result<String, DevError>)
    ensures
        is_result(r, query_summary(reply@)),
{
    match check_json(reply) {
        Some(e) => {
            let mut m = "invalid JSON from query API: ".to_owned();
            m.append(e.as_str());
            return Err(DevError::Verify(m));
        },
        None => {},
    }
    match array_len(reply, "/elements") {
        Some(n) => {
            let mut types: Vec<Option<String>> = Vec::new();
            let mut i: usize = 0;
            while i < n
                invariant
                    i <= n,
                    types@.len() == i,
                    forall|k: int|
                        0 <= k < i ==> opt_view(#[trigger] types@[k]) == json_string(
                            reply@,
                            type_place(k as nat),
                        ),
                decreases n - i,
            {
                let mut place = "/elements/".to_owned();
                place.append(usize_text(i).as_str());
                place.append("/type");
                types.push(string_at(reply, place.as_str()));
                i += 1;
            }
            assert(opt_views(types@) =~= types_in(reply@, n as nat));
            Ok(write_elements_line(&types))
        },
        None => Ok("no elements in response".to_owned()),
    }
}

/// The number at a place, zero where there is none.
pub open spec fn number_or_zero(bits: Option<u64>) -> Real {
    match bits {
        Some(b) => (Double { bits: b })@,
        None => (Double { bits: 0 })@,
    }
}

fn double_or_zero(bits: Option<u64>) -> (r: Double)
    ensures
        r@ == number_or_zero(bits),
{
    match bits {
        Some(b) => Double::from_bits(b),
        None => Double::from_bits(0),
    }
}

/// The lines on the places that were found: how many, and the first of them.
pub open spec fn places_lines(
    query: Seq<char>,
    count: nat,
    name: Option<Seq<char>>,
    lat: Option<u64>,
    lon: Option<u64>,
) -> Seq<Seq<char>> {
    if count == 0 {
        seq!["0 results for '"@ + query + "'"@]
    } else {
        seq![
            nat_text(count) + " results for '"@ + query + "'"@,
            "  top: "@ + text_or(name, "(unknown)"@) + " ("@ + fixed_text(number_or_zero(lat), 4)
                + ", "@ + fixed_text(number_or_zero(lon), 4) + ")"@,
        ]
    }
}

/// Writes the lines on the places that were found.
pub fn format_places(
    query: &str,
    count: usize,
    name: &Option<String>,
    lat: Option<u64>,
    lon: Option<u64>,
) -> (r: Vec<String>)
    ensures
        views(r@) == places_lines(query@, count as nat, opt_view(*name), lat, lon),
{
    let mut out: Vec<String> = Vec::new();
    let mut head = usize_text(count);
    head.append(" results for '");
    head.append(query);
    head.append("'");
    if count == 0 {
        let mut none = "0 results for '".to_owned();
        none.append(query);
        none.append("'");
        out.push(none);
    } else {
        out.push(head);
        let mut top = "  top: ".to_owned();
        top.append(crate::text::clone_or(name, "(unknown)").as_str());
        top.append(" (");
        top.append(double_or_zero(lat).fixed(4).as_str());
        top.append(", ");
        top.append(double_or_zero(lon).fixed(4).as_str());
        top.append(")");
        out.push(top);
    }
    assert(views(out@) =~= places_lines(query@, count as nat, opt_view(*name), lat, lon));
    out
}

/// What a reply to a lookup says.
pub open spec fn geocode_summary(query: Seq<char>, reply: Seq<char>) -> Result<
    Seq<Seq<char>>,
    ErrorView,
> {
    match json_fault(reply) {
        Some(e) => Err(ErrorView::Verify("invalid JSON from geocode API: "@ + e)),
        None => match json_array_len(reply, ""@) {
            Some(n) => Ok(
                places_lines(
                    query,
                    n,
                    json_string(reply, "/0/displayName"@),
                    json_number(reply, "/0/lat"@),
                    json_number(reply, "/0/lon"@),
                ),
            ),
            None => Ok(seq!["unexpected response format (not an array)"@]),
        },
    }
}

/// Sums up the reply to a lookup of a place.
pub fn geocode(query: &str, reply: &str) -> (r: Result<Vec<String>, DevError>)
    ensures
        match geocode_summary(query@, reply@) {
            Ok(ls) => r matches Ok(v) && views(v@) == ls,
            Err(e) => r matches Err(x) && x@ == e,
        },
{
    match check_json(reply) {
        Some(e) => {
            let mut m = "invalid JSON from geocode API: ".to_owned();
            m.append(e.as_str());
            return Err(DevError::Verify(m));
        },
        None => {},
    }
    match array_len(reply, "") {
        Some(n) => {
            let name = string_at(reply, "/0/displayName");
            let lat: Option<u64> = number_at(reply, "/0/lat");
            let lon: Option<u64> = number_at(reply, "/0/lon");
            Ok(format_places(query, n, &name, lat, lon))
        },
        None => {
            let v = vec!["unexpected response format (not an array)".to_owned()];
            assert(views(v@) =~= seq!["unexpected response format (not an array)"@]);
            Ok(v)
        },
    }
}

} // verus!
