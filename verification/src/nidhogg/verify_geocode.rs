//! Verification of lookups: every place is found.

use crate::error::{DevError, ErrorView};
use crate::json::{array_len, check_json, json_array_len, json_fault};
use crate::nidhogg::client::{geocode_top_name, top_name_in};
use crate::numeral::{nat_text, usize_text};
use crate::output::{message_views, push_message, Message, MessageView};
use crate::text::{clone_or, text_or};
use vstd::prelude::*;

verus! {

/// What became of a lookup.
pub enum GeoResult {
    Success { count: usize, top_name: String },
    Empty,
    Error(String),
}

/// The contents of a [`GeoResult`].
pub ghost enum GeoView {
    Success(nat, Seq<char>),
    Empty,
    Error(Seq<char>),
}

impl View for GeoResult {
    type V = GeoView;

    open spec fn view(&self) -> GeoView {
        match self {
            GeoResult::Success { count, top_name } => GeoView::Success(*count as nat, top_name@),
            GeoResult::Empty => GeoView::Empty,
            GeoResult::Error(m) => GeoView::Error(m@),
        }
    }
}

/// What a reply to a lookup says.
pub open spec fn geo_result(success: bool, reply: Seq<char>) -> GeoView {
    if !success {
        GeoView::Error("curl request failed"@)
    } else {
        match json_fault(reply) {
            Some(e) => GeoView::Error("JSON parse error: "@ + e),
            None => match json_array_len(reply, ""@) {
                Some(n) => if n > 0 {
                    GeoView::Success(n, text_or(top_name_in(reply), "(unknown)"@))
                } else {
                    GeoView::Empty
                },
                None => GeoView::Error("response is not an array"@),
            },
        }
    }
}

/// Reads the reply to a lookup.
pub fn run_single_geocode(success: bool, reply: &str) -> (r: GeoResult)
    ensures
        r@ == geo_result(success, reply@),
{
    if !success {
        return GeoResult::Error("curl request failed".to_owned());
    }
    match check_json(reply) {
        Some(e) => {
            let mut m = "JSON parse error: ".to_owned();
            m.append(e.as_str());
            return GeoResult::Error(m);
        },
        None => {},
    }
    match array_len(reply, "") {
        Some(n) => {
            if n > 0 {
                let top = geocode_top_name(reply);
                GeoResult::Success { count: n, top_name: clone_or(&top, "(unknown)") }
            } else {
                GeoResult::Empty
            }
        },
        None => GeoResult::Error("response is not an array".to_owned()),
    }
}

/// Queries with what became of them.
pub open spec fn geo_views(v: Seq<(String, GeoResult)>) -> Seq<(Seq<char>, GeoView)> {
    v.map_values(|p: (String, GeoResult)| (p.0@, p.1@))
}

/// The line on a lookup.
pub open spec fn geo_line(query: Seq<char>, g: GeoView) -> Seq<char> {
    match g {
        GeoView::Success(count, top) => "PASS  '"@ + query + "': "@ + nat_text(count)
            + " results (top: "@ + top + ")"@,
        GeoView::Empty => "FAIL  '"@ + query + "': 0 results"@,
        GeoView::Error(m) => "FAIL  '"@ + query + "': "@ + m,
    }
}

/// The lines on all lookups.
pub open spec fn geo_lines(v: Seq<(Seq<char>, GeoView)>) -> Seq<MessageView> {
    v.map_values(|p: (Seq<char>, GeoView)| MessageView::Verify(geo_line(p.0, p.1)))
}

/// How many lookups succeeded.
pub open spec fn passed_count(v: Seq<(Seq<char>, GeoView)>) -> nat
    decreases v.len(),
{
    if v.len() == 0 {
        0
    } else {
        passed_count(v.drop_last()) + if v.last().1 is Success {
            1nat
        } else {
            0nat
        }
    }
}

/// The line that sums up the lookups.
pub open spec fn geo_summary(v: Seq<(Seq<char>, GeoView)>) -> MessageView {
    MessageView::Verify(
        "geocode: "@ + nat_text(passed_count(v)) + " passed, "@ + nat_text(
            (v.len() - passed_count(v)) as nat,
        ) + " failed"@,
    )
}

fn write_geo_line(query: &str, g: &GeoResult) -> (r: String)
    ensures
        r@ == geo_line(query@, g@),
{
    match g {
        GeoResult::Success { count, top_name } => {
            let mut out = "PASS  '".to_owned();
            out.append(query);
            out.append("': ");
            out.append(usize_text(*count).as_str());
            out.append(" results (top: ");
            out.append(top_name.as_str());
            out.append(")");
            out
        },
        GeoResult::Empty => {
            let mut out = "FAIL  '".to_owned();
            out.append(query);
            out.append("': 0 results");
            out
        },
        GeoResult::Error(m) => {
            let mut out = "FAIL  '".to_owned();
            out.append(query);
            out.append("': ");
            out.append(m.as_str());
            out
        },
    }
}

/// Judges some lookups: each must have found something.
pub fn run(results: &[(String, GeoResult)], out: &mut Vec<Message>) -> (r: Result<(), DevError>)
    ensures
        passed_count(geo_views(results@)) == results@.len() <==> r is Ok,
        r matches Err(e) ==> e@ == ErrorView::Config(
            "geocode verification failed: "@ + nat_text(
                (results@.len() - passed_count(geo_views(results@))) as nat,
            ) + " query(ies) returned no results"@,
        ),
        message_views(final(out)@) == message_views(old(out)@) + geo_lines(geo_views(results@))
            + seq![geo_summary(geo_views(results@))],
{
    let ghost start = message_views(out@);
    let ghost all = geo_views(results@);
    let mut passed: usize = 0;
    let mut i: usize = 0;
    assert(message_views(out@) =~= start + geo_lines(all).take(0));
    while i < results.len()
        invariant
            i <= results@.len(),
            passed <= i,
            all == geo_views(results@),
            passed == passed_count(all.take(i as int)),
            message_views(out@) == start + geo_lines(all).take(i as int),
        decreases results@.len() - i,
    {
        assert(all.take(i + 1).drop_last() =~= all.take(i as int));
        assert(all[i as int] == (results@[i as int].0@, results@[i as int].1@));
        let line = write_geo_line(results[i].0.as_str(), &results[i].1);
        let ghost text = line@;
        push_message(out, Message::Verify(line));
        assert(geo_lines(all)[i as int] == MessageView::Verify(text));
        if matches!(results[i].1, GeoResult::Success { .. }) {
            passed += 1;
        }
        i += 1;
        assert(message_views(out@) =~= start + geo_lines(all).take(i as int));
    }
    assert(all.take(i as int) =~= all);
    assert(geo_lines(all).take(i as int) =~= geo_lines(all));
    let failed: usize = results.len() - passed;
    let mut m = "geocode: ".to_owned();
    m.append(usize_text(passed).as_str());
    m.append(" passed, ");
    m.append(usize_text(failed).as_str());
    m.append(" failed");
    push_message(out, Message::Verify(m));
    assert(message_views(out@) =~= start + geo_lines(all) + seq![geo_summary(all)]);
    if failed > 0 {
        let mut e = "geocode verification failed: ".to_owned();
        e.append(usize_text(failed).as_str());
        e.append(" query(ies) returned no results");
        return Err(DevError::Config(e));
    }
    Ok(())
}

} // verus!
