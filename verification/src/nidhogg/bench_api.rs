//! The benchmark of queries to a running server.

use crate::db::{pair_views, KvPair, PairView, ValueView};
use crate::error::{DevError, ErrorView};
use crate::harness::{BenchConfig, CargoProfile};
use crate::lockfile::process::{last_char, rfind_char};
use crate::nidhogg::client::{
    element_count, elements_in, finish_program, program_result, query_views, Ended,
};
use crate::number::arith::{of_int, product, whole_int};
use crate::number::double::Double;
use crate::number::parse::{parse_double, read_double};
use crate::numeral::{nat_text, parse_u64, read_nat, u64_text, usize_text};
use crate::text::{chars_of, opt_str, opt_view, same, string_of, trim, trimmed};
use vstd::prelude::*;

verus! {

/// Those of the queries that are run: all, or the ones with the given name.
pub open spec fn chosen(queries: Seq<(Seq<char>, Seq<char>)>, only: Option<Seq<char>>) -> Seq<
    (Seq<char>, Seq<char>),
>
    decreases queries.len(),
{
    if queries.len() == 0 {
        Seq::empty()
    } else if only is None || only == Some(queries.last().0) {
        chosen(queries.drop_last(), only).push(queries.last())
    } else {
        chosen(queries.drop_last(), only)
    }
}

/// Chooses the queries that are run.
pub fn choose_queries(queries: &[(String, String)], only: Option<&str>) -> (r: Vec<(String, String)>)
    ensures
        query_views(r@) == chosen(query_views(queries@), opt_str(only)),
{
    let ghost all = query_views(queries@);
    let mut out: Vec<(String, String)> = Vec::new();
    let mut i: usize = 0;
    assert(query_views(out@) =~= chosen(all.take(0), opt_str(only)));
    while i < queries.len()
        invariant
            i <= queries@.len(),
            all == query_views(queries@),
            query_views(out@) == chosen(all.take(i as int), opt_str(only)),
        decreases queries@.len() - i,
    {
        assert(all.take(i + 1).drop_last() =~= all.take(i as int));
        assert(all[i as int] == (queries@[i as int].0@, queries@[i as int].1@));
        let take = match only {
            Some(name) => same(queries[i].0.as_str(), name),
            None => true,
        };
        let ghost before = query_views(out@);
        if take {
            let q = (queries[i].0.clone(), queries[i].1.clone());
            out.push(q);
            assert(query_views(out@) =~= before.push(all[i as int]));
        }
        i += 1;
    }
    assert(all.take(i as int) =~= all);
    out
}

/// The time that a request took, in milliseconds, from what was printed of it
/// in seconds.
pub open spec fn timed_ms(printed: Seq<char>) -> Result<int, ErrorView> {
    match read_double(trimmed(printed)) {
        Some(s) => Ok(whole_int(product(s, of_int(1000)))),
        None => Err(
            ErrorView::Verify(
                "curl time_total not a valid number: '"@ + trimmed(printed) + "'"@,
            ),
        ),
    }
}

/// Reads the time that a request took.
pub fn parse_time(printed: &str) -> (r: Result<i64, DevError>)
    ensures
        match timed_ms(printed@) {
            Ok(n) => r matches Ok(ms) && ms == n,
            Err(e) => r matches Err(x) && x@ == e,
        },
{
    let t = trim(printed);
    match parse_double(t.as_str()) {
        Some(s) => Ok(s.times(Double::of_i64(1000)).truncate_signed()),
        None => {
            let mut m = "curl time_total not a valid number: '".to_owned();
            m.append(t.as_str());
            m.append("'");
            Err(DevError::Verify(m))
        },
    }
}

/// The time of a timed request, or why it has none.
pub fn run_curl_timed(ended: Ended) -> (r: Result<i64, DevError>)
    ensures
        match program_result("curl"@, ended) {
            Err(e) => r matches Err(x) && x@ == e,
            Ok(printed) => match timed_ms(printed) {
                Ok(n) => r matches Ok(ms) && ms == n,
                Err(e) => r matches Err(x) && x@ == e,
            },
        },
{
    match finish_program("curl", ended) {
        Ok(printed) => parse_time(printed.as_str()),
        Err(e) => Err(e),
    }
}

/// The two parts of what a sized request printed: the body, and the size behind
/// the last line feed.
pub open spec fn split_output(stdout: Seq<char>) -> (Seq<char>, Seq<char>) {
    let at = last_char(stdout, '\n', stdout.len() as int);
    if at < 0 {
        (stdout, "0"@)
    } else {
        (stdout.take(at), stdout.skip(at + 1))
    }
}

/// Splits what a sized request printed.
pub fn split_curl_output(stdout: &str) -> (r: (String, String))
    ensures
        (r.0@, r.1@) == split_output(stdout@),
{
    let cs = chars_of(stdout);
    match rfind_char(&cs, '\n') {
        Some(at) => {
            let body = string_of(&cs, 0, at);
            let size = string_of(&cs, at + 1, cs.len());
            assert(body@ =~= stdout@.take(at as int));
            assert(size@ =~= stdout@.skip(at + 1));
            (body, size)
        },
        None => (stdout.to_owned(), "0".to_owned()),
    }
}

/// The line on the reply to a query: its elements and its size.
pub open spec fn stats_line(name: Seq<char>, stdout: Seq<char>) -> Seq<char> {
    let (body, size) = split_output(stdout);
    let bytes = match read_nat(trimmed(size), u64::MAX as nat) {
        Some(n) => n,
        None => 0,
    };
    name + ": "@ + nat_text(elements_in(body)) + " elements, "@ + nat_text(bytes)
        + " bytes response"@
}

/// Writes the line on the reply to a query. What is no JSON counts as empty.
pub fn report_response_stats(name: &str, stdout: &str) -> (r: String)
    ensures
        r@ == stats_line(name@, stdout@),
{
    let (body, size) = split_curl_output(stdout);
    let t = trim(size.as_str());
    let bytes: u64 = match parse_u64(t.as_str()) {
        Some(n) => n,
        None => 0,
    };
    let count: usize = element_count(body.as_str());
    let mut out = name.to_owned();
    out.append(": ");
    out.append(usize_text(count).as_str());
    out.append(" elements, ");
    out.append(u64_text(bytes).as_str());
    out.append(" bytes response");
    out
}

/// The configuration of the benchmark of one query.
pub fn api_config(
    name: &str,
    port: u16,
    runs: usize,
    input_file: Option<&str>,
    input_mb: Option<Double>,
) -> (r: BenchConfig)
    ensures
        r.command@ == "bench api"@,
        opt_view(r.mode) == Some(name@),
        opt_view(r.input_file) == opt_str(input_file),
        r.input_mb == input_mb,
        r.cargo_features is None,
        r.cargo_profile == CargoProfile::Release,
        r.runs == runs,
        r.cli_args is None,
        r.brokkr_args is None,
        pair_views(r.metadata@) == seq![
            PairView { key: "meta.port"@, value: ValueView::Int(port as int) },
            PairView { key: "meta.query"@, value: ValueView::Text(name@) },
        ],
{
    let metadata = vec![
        KvPair::of_int("meta.port", port as i64),
        KvPair::of_text("meta.query", name),
    ];
    assert(pair_views(metadata@) =~= seq![
        PairView { key: "meta.port"@, value: ValueView::Int(port as int) },
        PairView { key: "meta.query"@, value: ValueView::Text(name@) },
    ]);
    BenchConfig {
        command: "bench api".to_owned(),
        mode: Some(name.to_owned()),
        input_file: match input_file {
            Some(f) => Some(f.to_owned()),
            None => None,
        },
        input_mb,
        cargo_features: None,
        cargo_profile: CargoProfile::Release,
        runs,
        cli_args: None,
        brokkr_args: None,
        metadata,
    }
}

} // verus!
