//! What holds of the queries to the server and of what is told of its replies.

use crate::db::{PairView, ValueView};
use crate::error::ErrorView;
use crate::harness::kv::lossy;
use crate::lockfile::process::last_char;
use crate::manifest::comes_before;
use crate::measure::MeasureMode;
use crate::nidhogg::bench_api::{chosen, split_output, timed_ms};
use crate::nidhogg::bench_tiles::{not_ready_text, pass_end, tiles_metadata, zoom_range};
use crate::nidhogg::client::{
    bbox_numbers, four_queries, middle_quarter, program_result, road_filter, single_queries, Ended,
};
use crate::nidhogg::commands::NidhoggCommand;
use crate::nidhogg::dispatch::{file_line, route_of, Route};
use crate::nidhogg::query::{elements_line, places_lines, type_count};
use crate::nidhogg::server::{phase_after_all, StopPhase, STOP_ATTEMPTS};
use crate::nidhogg::verify_batch::{
    all_lines, all_single_lines, by_name, empty_count, failure_count, inserted, single_lines,
    total_of, SingleResult,
};
use crate::nidhogg::verify_geocode::{geo_lines, geo_summary, passed_count, GeoView};
use crate::nidhogg::verify_readonly::{check_lines, Check, NamedCheck};
use crate::number::arith::{difference, of_int, product, quotient, sum};
use crate::number::decimals::whole_numbers_are_written_exactly;
use crate::number::double::{Double, Real};
use crate::number::exact::{is_worth, whole_numbers_are_exact};
use crate::number::parse::read_double;
use crate::number::shortest::shortest_text;
use crate::number::whole::{difference_is_exact, product_is_exact, quotient_is_exact, sum_is_exact};
use crate::numeral::nat_text;
use crate::output::MessageView;
use crate::text::trimmed;
use vstd::prelude::*;

verus! {

/// All queries are run where none is named; else those with the name, in their order.
pub proof fn named_queries_are_run(queries: Seq<(Seq<char>, Seq<char>)>, name: Seq<char>)
    ensures
        chosen(queries, None) == queries,
        chosen(queries, Some(name)) == queries.filter(|q: (Seq<char>, Seq<char>)| q.0 == name),
    decreases queries.len(),
{
    reveal(Seq::filter);
    if queries.len() > 0 {
        named_queries_are_run(queries.drop_last(), name);
        assert(queries.drop_last().push(queries.last()) =~= queries);
    } else {
        assert(queries =~= Seq::empty());
    }
}

/// A time in whole seconds is a thousand times as many milliseconds.
pub proof fn seconds_are_a_thousand_millis(printed: Seq<char>, x: Real, s: int)
    requires
        read_double(trimmed(printed)) == Some(x),
        is_worth(x, s),
        0 <= s <= 0x1_0000_0000,
    ensures
        timed_ms(printed) matches Ok(ms) && ms == 1000 * s,
{
    whole_numbers_are_exact(1000);
    product_is_exact(x, s, of_int(1000), 1000);
    let p = product(x, of_int(1000));
    match p {
        Real::Fin(n, m, e) => {
            crate::number::exact::factors_positive(e);
            let d = crate::number::arith::den(e) as int;
            let k = 1000 * s;
            assert(s * 1000 == k);
            assert(crate::number::arith::num(m, e) == d * k) by (nonlinear_arith)
                requires
                    crate::number::arith::num(m, e) == k * d,
            ;
            vstd::arithmetic::div_mod::lemma_fundamental_div_mod_converse(
                crate::number::arith::num(m, e) as int,
                d,
                k,
                0,
            );
        },
        _ => {},
    }
}

proof fn none_behind(s: Seq<char>, c: char, at: int, i: int)
    requires
        0 <= at < i <= s.len(),
        s[at] == c,
        forall|k: int| at < k < s.len() ==> #[trigger] s[k] != c,
    ensures
        last_char(s, c, i) == at,
    decreases i,
{
    if i - 1 > at {
        none_behind(s, c, at, i - 1);
    }
}

proof fn none_at_all(s: Seq<char>, c: char, i: int)
    requires
        0 <= i <= s.len(),
        forall|k: int| 0 <= k < s.len() ==> #[trigger] s[k] != c,
    ensures
        last_char(s, c, i) == -1,
    decreases i,
{
    if i > 0 {
        none_at_all(s, c, i - 1);
    }
}

/// A body of any lines and the size in the line behind it are parted again; a text
/// of one line is all body.
pub proof fn size_stands_behind_the_body(body: Seq<char>, size: Seq<char>)
    requires
        forall|k: int| 0 <= k < size.len() ==> #[trigger] size[k] != '\n',
    ensures
        split_output(body + seq!['\n'] + size) == (body, size),
        split_output(size) == (size, "0"@),
{
    let all = body + seq!['\n'] + size;
    assert forall|k: int| body.len() < k < all.len() implies #[trigger] all[k] != '\n' by {
        assert(all[k] == size[k - body.len() - 1]);
    }
    none_behind(all, '\n', body.len() as int, all.len() as int);
    assert(all.take(body.len() as int) =~= body);
    assert(all.skip(body.len() as int + 1) =~= size);
    none_at_all(size, '\n', size.len() as int);
}

/// The zooms run from the least of a sample to its largest, and both occur in it.
pub proof fn zooms_are_of_the_sample(tiles: Seq<(u32, u32, u32)>)
    requires
        tiles.len() > 0,
    ensures
        exists|i: int| 0 <= i < tiles.len() && (#[trigger] tiles[i]).0 == zoom_range(tiles).0,
        exists|i: int| 0 <= i < tiles.len() && (#[trigger] tiles[i]).0 == zoom_range(tiles).1,
    decreases tiles.len(),
{
    if tiles.len() > 1 {
        let front = tiles.drop_last();
        zooms_are_of_the_sample(front);
        let i = choose|i: int| 0 <= i < front.len() && (#[trigger] front[i]).0 == zoom_range(front).0;
        let j = choose|j: int| 0 <= j < front.len() && (#[trigger] front[j]).0 == zoom_range(front).1;
        assert(tiles[i] == front[i] && tiles[j] == front[j]);
        assert(tiles[tiles.len() - 1] == tiles.last());
    } else {
        assert(tiles[0].0 == zoom_range(tiles).0);
    }
}

/// What is stored with a result on tiles: each fact under its own name.
pub proof fn tiles_facts_are_stored(
    port: u16,
    tiles_file: Seq<char>,
    tiles_mb: Double,
    count: nat,
    hash: Option<Seq<char>>,
)
    ensures
        ({
            let kv = tiles_metadata(port, tiles_file, tiles_mb, count, hash);
            &&& kv.contains(PairView { key: "meta.port"@, value: ValueView::Int(port as int) })
            &&& kv.contains(PairView { key: "meta.tiles"@, value: ValueView::Text(tiles_file) })
            &&& kv.contains(PairView { key: "meta.tiles_mb"@, value: ValueView::Real(tiles_mb@) })
            &&& kv.contains(PairView { key: "meta.tile_coords"@, value: ValueView::Int(count as int) })
            &&& kv.contains(PairView { key: "meta.iterations"@, value: ValueView::Int(5) })
            &&& hash matches Some(h) ==> kv.contains(
                PairView { key: "meta.tiles_hash"@, value: ValueView::Text(h) },
            )
            &&& kv.len() == if hash is Some { 6int } else { 5int }
        }),
{
    let kv = tiles_metadata(port, tiles_file, tiles_mb, count, hash);
    assert(kv[0] == PairView { key: "meta.port"@, value: ValueView::Int(port as int) });
    assert(kv[1] == PairView { key: "meta.tiles"@, value: ValueView::Text(tiles_file) });
    assert(kv[2] == PairView { key: "meta.tiles_mb"@, value: ValueView::Real(tiles_mb@) });
    assert(kv[3] == PairView { key: "meta.tile_coords"@, value: ValueView::Int(count as int) });
    assert(kv[4] == PairView { key: "meta.iterations"@, value: ValueView::Int(5) });
    if hash is Some {
        assert(kv[5] == PairView { key: "meta.tiles_hash"@, value: ValueView::Text(hash->0) });
    }
}

/// A server that is not ready is told of with what it wrote, from its start and up
/// to two thousand characters of it.
pub proof fn output_of_a_server_is_told(output: Seq<char>)
    ensures
        output.len() == 0 ==> not_ready_text(output)
            == "nidhogg server did not print ready signal within 30s"@ + " (no stderr output)"@,
        0 < output.len() <= 2000 ==> not_ready_text(output)
            == "nidhogg server did not print ready signal within 30s"@ + ("\nserver stderr:\n"@
            + output),
        output.len() > 2000 ==> not_ready_text(output)
            == "nidhogg server did not print ready signal within 30s"@ + ("\nserver stderr:\n"@
            + output.take(2000)),
{
}

/// Something is said exactly where a pass ends: after the warm-up what follows it,
/// after the others their number, and nothing within a pass.
pub proof fn passes_are_told(tiles: nat, pass: nat, k: nat)
    requires
        0 < tiles,
        k < tiles,
    ensures
        k > 0 ==> pass_end(pass * tiles + k, tiles) is None,
        2 <= pass <= 6 ==> pass_end(pass * tiles, tiles) == Some(
            "iteration "@ + nat_text((pass - 1) as nat) + "/5"@,
        ),
        pass_end(tiles, tiles) == Some(
            "warmup done, running 5 iterations \u{d7} "@ + nat_text(tiles) + " tiles = "@ + nat_text(
                5 * tiles,
            ) + " requests"@,
        ),
        pass > 6 ==> pass_end(pass * tiles, tiles) is None,
        pass_end(0, tiles) is None,
{
    let done = pass * tiles + k;
    vstd::arithmetic::div_mod::lemma_fundamental_div_mod_converse(
        done as int,
        tiles as int,
        pass as int,
        k as int,
    );
    vstd::arithmetic::div_mod::lemma_fundamental_div_mod_converse(
        (pass * tiles) as int,
        tiles as int,
        pass as int,
        0,
    );
    vstd::arithmetic::div_mod::lemma_fundamental_div_mod_converse(
        tiles as int,
        tiles as int,
        1,
        0,
    );
    assert(pass >= 2 ==> pass * tiles >= 2 * tiles) by (nonlinear_arith)
        requires
            tiles > 0,
    ;
    assert(k > 0 ==> done != 0) by (nonlinear_arith)
        requires
            done == pass * tiles + k,
    ;
}

/// Each number of a box is that of its piece, and the first piece that is no number
/// is the one complained of.
pub proof fn box_is_read_piece_by_piece(parts: Seq<Seq<char>>)
    ensures
        bbox_numbers(parts) matches Ok(n) ==> n.len() == parts.len() && forall|i: int|
            0 <= i < n.len() ==> Some(#[trigger] n[i]) == read_double(trimmed(parts[i])),
        bbox_numbers(parts) matches Err(p) ==> exists|i: int|
            {
                &&& 0 <= i < parts.len()
                &&& p == #[trigger] parts[i]
                &&& read_double(trimmed(p)) is None
                &&& forall|j: int|
                    0 <= j < i ==> read_double(trimmed(#[trigger] parts[j])) is Some
            },
    decreases parts.len(),
{
    if parts.len() > 0 {
        let front = parts.drop_last();
        box_is_read_piece_by_piece(front);
        match bbox_numbers(front) {
            Ok(n) => {
                if read_double(trimmed(parts.last())) is None {
                    assert(parts[parts.len() - 1] == parts.last());
                    assert forall|j: int| 0 <= j < parts.len() - 1 implies read_double(
                        trimmed(#[trigger] parts[j]),
                    ) is Some by {
                        assert(front[j] == parts[j]);
                        assert(Some(n[j]) == read_double(trimmed(front[j])));
                    }
                } else {
                    let all = bbox_numbers(parts)->Ok_0;
                    assert forall|i: int| 0 <= i < all.len() implies Some(#[trigger] all[i])
                        == read_double(trimmed(parts[i])) by {
                        if i < n.len() {
                            assert(all[i] == n[i] && front[i] == parts[i]);
                        }
                    }
                }
            },
            Err(p) => {
                let i = choose|i: int|
                    {
                        &&& 0 <= i < front.len()
                        &&& p == #[trigger] front[i]
                        &&& read_double(trimmed(p)) is None
                        &&& forall|j: int|
                            0 <= j < i ==> read_double(trimmed(#[trigger] front[j])) is Some
                    };
                assert(parts[i] == front[i]);
                assert forall|j: int| 0 <= j < i implies read_double(
                    trimmed(#[trigger] parts[j]),
                ) is Some by {
                    assert(front[j] == parts[j]);
                }
            },
        }
    }
}

proof fn part_of(x: Real, a: int, k: int)
    requires
        is_worth(x, a * k),
        a != 0,
        0 < k <= 4,
        -0x1_0000_0000 <= a <= 0x1_0000_0000,
    ensures
        is_worth(quotient(x, of_int(k)), a),
{
    whole_numbers_are_exact(k);
    quotient_is_exact(x, a, of_int(k), k);
}

/// The middle quarter of a box: a box around the middle `(x, y)` that reaches `2 p`
/// to the west and the east of it and `2 q` to the south and the north shrinks to
/// the one that reaches `p` and `q`, west and south first.
pub proof fn middle_quarter_is_in_the_middle(n: Seq<Real>, x: int, y: int, p: int, q: int) -> (r: (
    Real,
    Real,
    Real,
    Real,
))
    requires
        n.len() == 4,
        is_worth(n[0], x - 2 * p),
        is_worth(n[1], y - 2 * q),
        is_worth(n[2], x + 2 * p),
        is_worth(n[3], y + 2 * q),
        x != 0,
        y != 0,
        0 < p <= 0x1000_0000,
        0 < q <= 0x1000_0000,
        -0x1000_0000 <= x <= 0x1000_0000,
        -0x1000_0000 <= y <= 0x1000_0000,
    ensures
        is_worth(r.0, x - p),
        is_worth(r.1, y - q),
        is_worth(r.2, x + p),
        is_worth(r.3, y + q),
        middle_quarter(n) == shortest_text(r.0) + ","@ + shortest_text(r.1) + ","@ + shortest_text(
            r.2,
        ) + ","@ + shortest_text(r.3),
{
    reach_is_halved(n[0], n[2], x, p);
    reach_is_halved(n[1], n[3], y, q);
    let lon = quotient(sum(n[0], n[2]), of_int(2));
    let lat = quotient(sum(n[1], n[3]), of_int(2));
    let lon_q = quotient(difference(n[2], n[0]), of_int(4));
    let lat_q = quotient(difference(n[3], n[1]), of_int(4));
    (difference(lon, lon_q), difference(lat, lat_q), sum(lon, lon_q), sum(lat, lat_q))
}

proof fn reach_is_halved(low: Real, high: Real, x: int, p: int)
    requires
        is_worth(low, x - 2 * p),
        is_worth(high, x + 2 * p),
        x != 0,
        0 < p <= 0x1000_0000,
        -0x1000_0000 <= x <= 0x1000_0000,
    ensures
        ({
            let mid = quotient(sum(low, high), of_int(2));
            let part = quotient(difference(high, low), of_int(4));
            &&& is_worth(difference(mid, part), x - p)
            &&& is_worth(sum(mid, part), x + p)
        }),
{
    sum_is_exact(low, x - 2 * p, high, x + 2 * p);
    difference_is_exact(high, x + 2 * p, low, x - 2 * p);
    part_of(sum(low, high), x, 2);
    part_of(difference(high, low), p, 4);
    let mid = quotient(sum(low, high), of_int(2));
    let part = quotient(difference(high, low), of_int(4));
    difference_is_exact(mid, x, part, p);
    sum_is_exact(mid, x, part, p);
}

/// The queries of the benchmark in their order: only the one without a filter is
/// for the small box, and all others are for the full one.
pub proof fn queries_are_for_their_boxes(full: Seq<char>, small: Seq<char>)
    ensures
        ({
            let q = four_queries(full, small);
            &&& q.len() == 4
            &&& q[0].0 == "highways"@ && q[1].0 == "highways_large"@
            &&& q[2].0 == "small_nofilter"@ && q[3].0 == "buildings"@
            &&& q[0].1 == "{\"bbox\":"@ + full + ",\"query\":["@ + road_filter() + "]}"@
            &&& q[1].1 == q[0].1
            &&& q[2].1 == "{\"bbox\":"@ + small + ",\"query\":["@ + ""@ + "]}"@
            &&& q[3].1 == "{\"bbox\":"@ + full + ",\"query\":["@ + "{\"building\":true}"@ + "]}"@
        }),
{
}

/// Success gives what a program wrote to its output; failure tells its code and
/// what it wrote to its errors.
pub proof fn outcome_is_told(program: Seq<char>, code: Option<i32>, out: Vec<u8>, err: Vec<u8>)
    ensures
        program_result(program, Ended::Done { success: true, code, stdout: out, stderr: err }) == Ok::<
            Seq<char>,
            ErrorView,
        >(lossy(out@)),
        program_result(program, Ended::Done { success: false, code, stdout: out, stderr: err })
            == Err::<Seq<char>, ErrorView>(
            ErrorView::Subprocess(program, code, lossy(err@)),
        ),
{
}

/// Queries and tiles are benchmarks in every mode but that of the profiler, which
/// they do not have; taking in a file has a way in each mode.
pub proof fn ways_of_commands(mode: MeasureMode, command: NidhoggCommand)
    ensures
        route_of(mode, command) is None <==> !(command is Ingest) && !(mode is Run)
            && !(mode is Bench),
        command is Ingest && mode is Run ==> route_of(mode, command) == Some(Route::IngestRun),
        command is Ingest && mode is Bench ==> route_of(mode, command) == Some(Route::IngestBench),
        command is Ingest && !(mode is Run) && !(mode is Bench) ==> route_of(mode, command) == Some(
            Route::IngestHotpath,
        ),
        command is Api && (mode is Run || mode is Bench) ==> route_of(mode, command) == Some(
            Route::Api,
        ),
        command is Tiles && (mode is Run || mode is Bench) ==> route_of(mode, command) == Some(
            Route::Tiles,
        ),
{
}

/// A file of so many whole megabytes is told of with that number.
pub proof fn sizes_of_files_are_told(name: Seq<char>, mb: nat)
    requires
        0 < mb <= 0x1_0000_0000,
    ensures
        file_line((name, mb * 1_048_576)) == "  "@ + name + ": "@ + (nat_text(mb) + seq!['.', '0'])
            + " MB"@,
{
    let n = (mb * 1_048_576) as int;
    whole_numbers_are_exact(n);
    whole_numbers_are_exact(1_048_576);
    quotient_is_exact(of_int(n), mb as int, of_int(1_048_576), 1_048_576);
    whole_numbers_are_written_exactly(quotient(of_int(n), of_int(1_048_576)), mb as int);
}

/// The elements of a kind are counted: as many as there are of it.
pub proof fn elements_are_counted(types: Seq<Option<Seq<char>>>, name: Seq<char>)
    ensures
        type_count(types, name) == types.filter(|t: Option<Seq<char>>| t == Some(name)).len(),
    decreases types.len(),
{
    reveal(Seq::filter);
    if types.len() > 0 {
        elements_are_counted(types.drop_last(), name);
    }
}

/// The line on the elements: all of them, and apart from ways and relations the
/// rest, so that the three make up the whole.
pub proof fn kinds_of_elements_are_told(
    types: Seq<Option<Seq<char>>>,
    ways: nat,
    relations: nat,
    other: nat,
)
    requires
        ways == types.filter(|t: Option<Seq<char>>| t == Some("way"@)).len(),
        relations == types.filter(|t: Option<Seq<char>>| t == Some("relation"@)).len(),
        ways + relations + other == types.len(),
    ensures
        elements_line(types) == nat_text(types.len()) + " elements: way="@ + nat_text(ways)
            + ", relation="@ + nat_text(relations) + ", other="@ + nat_text(other),
{
    elements_are_counted(types, "way"@);
    elements_are_counted(types, "relation"@);
}

/// A server that does not take the signal is not running; one that took it and is
/// gone when it is looked at for the `n`th time is stopped; one that is still there
/// at the last look but is no longer the server is left alone.
pub proof fn stopping_takes_its_course(n: nat)
    ensures
        phase_after_all(StopPhase::Ask, seq![false]) == StopPhase::NotRunning,
        n < 25 ==> phase_after_all(
            StopPhase::Ask,
            Seq::new(1 + n, |i: int| true).push(false),
        ) == StopPhase::Stopped,
        n == 25 ==> phase_after_all(
            StopPhase::Ask,
            Seq::new(1 + n, |i: int| true).push(false),
        ) == StopPhase::Stopped,
        n == 25 ==> phase_after_all(
            StopPhase::Ask,
            Seq::new(1 + n, |i: int| true).push(true),
        ) == StopPhase::Kill,
{
    let one = seq![false];
    assert(one.drop_last() =~= Seq::empty());
    assert(phase_after_all(StopPhase::Ask, one.drop_last()) == StopPhase::Ask);
    let up = Seq::new(1 + n, |i: int| true);
    assert(up.push(false).drop_last() =~= up);
    assert(up.push(true).drop_last() =~= up);
    if n <= 25 {
        alive_so_far(n);
    }
}

proof fn alive_so_far(n: nat)
    requires
        n <= STOP_ATTEMPTS,
    ensures
        phase_after_all(StopPhase::Ask, Seq::new(1 + n, |i: int| true)) == (if n < STOP_ATTEMPTS {
            StopPhase::Watch(n as u32)
        } else {
            StopPhase::Identify
        }),
    decreases n,
{
    let up = Seq::new(1 + n, |i: int| true);
    if n == 0 {
        assert(up.drop_last() =~= Seq::<bool>::empty());
        assert(phase_after_all(StopPhase::Ask, up.drop_last()) == StopPhase::Ask);
    } else {
        let m = (n - 1) as nat;
        assert(up.drop_last() =~= Seq::new(1 + m, |i: int| true));
        alive_so_far(m);
    }
}

/// The total of a batch is nothing exactly where every filter found nothing, and
/// what one filter found more is in the total.
pub proof fn totals_are_sums(counts: Seq<(Seq<char>, nat)>, c: (Seq<char>, nat))
    ensures
        total_of(counts.push(c)) == total_of(counts) + c.1,
        total_of(counts) == 0 <==> forall|i: int|
            0 <= i < counts.len() ==> (#[trigger] counts[i]).1 == 0,
    decreases counts.len(),
{
    assert(counts.push(c).drop_last() =~= counts);
    if counts.len() > 0 {
        let front = counts.drop_last();
        totals_are_sums(front, c);
        assert(counts[counts.len() - 1] == counts.last());
        assert forall|i: int| 0 <= i < front.len() implies #[trigger] front[i] == counts[i] by {}
        if forall|i: int| 0 <= i < counts.len() ==> (#[trigger] counts[i]).1 == 0 {
            assert forall|i: int| 0 <= i < front.len() implies (#[trigger] front[i]).1 == 0 by {
                assert(counts[i].1 == 0);
            }
        }
        if total_of(counts) == 0 {
            assert forall|i: int| 0 <= i < counts.len() implies (#[trigger] counts[i]).1 == 0 by {
                if i < front.len() {
                    assert(front[i].1 == 0);
                }
            }
        }
    }
}

/// The single queries that found nothing are counted.
pub proof fn empty_queries_are_counted(v: Seq<SingleResult>)
    ensures
        empty_count(v) == v.filter(|s: SingleResult| s.count == 0).len(),
        empty_count(v) == 0 <==> forall|i: int| 0 <= i < v.len() ==> (#[trigger] v[i]).count != 0,
    decreases v.len(),
{
    reveal(Seq::filter);
    if v.len() > 0 {
        let front = v.drop_last();
        empty_queries_are_counted(front);
        assert(v[v.len() - 1] == v.last());
        if empty_count(v) == 0 {
            assert forall|i: int| 0 <= i < v.len() implies (#[trigger] v[i]).count != 0 by {
                if i < front.len() {
                    assert(front[i].count != 0);
                }
            }
        }
        if forall|i: int| 0 <= i < v.len() ==> (#[trigger] v[i]).count != 0 {
            assert forall|i: int| 0 <= i < front.len() implies (#[trigger] front[i]).count != 0 by {
                assert(v[i].count != 0);
            }
        }
    }
}

/// The verification of batches passes exactly where some filter of the batch found
/// something and every single query did.
pub proof fn batches_pass_where_all_find(
    counts: Seq<(Seq<char>, nat)>,
    elapsed_ms: int,
    singles: Seq<SingleResult>,
)
    ensures
        failure_count(counts, singles) == 0 <==> (exists|i: int|
            0 <= i < counts.len() && (#[trigger] counts[i]).1 > 0) && forall|i: int|
            0 <= i < singles.len() ==> (#[trigger] singles[i]).count > 0,
        failure_count(counts, singles) == 0 ==> all_lines(counts, elapsed_ms, singles).last()
            == MessageView::Verify("batch verification passed"@),
{
    totals_are_sums(counts, (Seq::empty(), 0));
    empty_queries_are_counted(singles);
}

proof fn lines_grow(v: Seq<SingleResult>, i: int)
    requires
        0 <= i < v.len(),
    ensures
        exists|k: int|
            0 <= k < all_single_lines(v).len() && #[trigger] all_single_lines(v)[k] == single_lines(
                v[i],
            )[0],
        v[i].count == 0 ==> exists|k: int|
            0 <= k < all_single_lines(v).len() && #[trigger] all_single_lines(v)[k] == single_lines(
                v[i],
            )[1],
    decreases v.len(),
{
    let front = v.drop_last();
    let all = all_single_lines(v);
    let n = all_single_lines(front).len() as int;
    if i < front.len() {
        lines_grow(front, i);
        assert(front[i] == v[i]);
        let k = choose|k: int|
            0 <= k < all_single_lines(front).len() && #[trigger] all_single_lines(front)[k]
                == single_lines(v[i])[0];
        assert(all[k] == single_lines(v[i])[0]);
        if v[i].count == 0 {
            let k = choose|k: int|
                0 <= k < all_single_lines(front).len() && #[trigger] all_single_lines(front)[k]
                    == single_lines(v[i])[1];
            assert(all[k] == single_lines(v[i])[1]);
        }
    } else {
        assert(all[n] == single_lines(v[i])[0]);
        if v[i].count == 0 {
            assert(all[n + 1] == single_lines(v[i])[1]);
        }
    }
}

/// Every single query has its line, with what it found and its time, and an error
/// where it found nothing.
pub proof fn single_queries_are_told(v: Seq<SingleResult>, i: int)
    requires
        0 <= i < v.len(),
    ensures
        all_single_lines(v).contains(
            MessageView::Verify(
                "  "@ + v[i].name@ + ": "@ + nat_text(v[i].count as nat) + " elements ("@
                    + crate::numeral::int_text(v[i].elapsed_ms as int) + " ms)"@,
            ),
        ),
        v[i].count == 0 ==> all_single_lines(v).contains(
            MessageView::Error(v[i].name@ + ": returned 0 elements"@),
        ),
{
    lines_grow(v, i);
}

/// A lookup that found something passes, and one that found nothing or broke fails.
pub proof fn lookups_are_judged(v: Seq<(Seq<char>, GeoView)>)
    ensures
        passed_count(v) == v.filter(|p: (Seq<char>, GeoView)| p.1 is Success).len(),
        geo_lines(v).len() == v.len(),
        forall|i: int|
            0 <= i < v.len() ==> #[trigger] geo_lines(v)[i] == MessageView::Verify(
                match v[i].1 {
                    GeoView::Success(n, top) => "PASS  '"@ + v[i].0 + "': "@ + nat_text(n)
                        + " results (top: "@ + top + ")"@,
                    GeoView::Empty => "FAIL  '"@ + v[i].0 + "': 0 results"@,
                    GeoView::Error(m) => "FAIL  '"@ + v[i].0 + "': "@ + m,
                },
            ),
    decreases v.len(),
{
    reveal(Seq::filter);
    if v.len() > 0 {
        lookups_are_judged(v.drop_last());
    }
}

/// The summary tells how many lookups succeeded and how many did not.
pub proof fn lookups_are_summed_up(v: Seq<(Seq<char>, GeoView)>, good: nat, bad: nat)
    requires
        good == v.filter(|p: (Seq<char>, GeoView)| p.1 is Success).len(),
        good + bad == v.len(),
    ensures
        geo_summary(v) == MessageView::Verify(
            "geocode: "@ + nat_text(good) + " passed, "@ + nat_text(bad) + " failed"@,
        ),
{
    lookups_are_judged(v);
}

/// The first place is told of by its name and its two coordinates, the latitude first.
pub proof fn first_place_is_told(query: Seq<char>, n: nat, name: Option<Seq<char>>, lat: u64, lon: u64)
    ensures
        places_lines(query, 0, name, Some(lat), Some(lon)) == seq!["0 results for '"@ + query + "'"@],
        n > 0 ==> places_lines(query, n, name, Some(lat), Some(lon)) == seq![
            nat_text(n) + " results for '"@ + query + "'"@,
            "  top: "@ + (match name {
                Some(t) => t,
                None => "(unknown)"@,
            }) + " ("@ + crate::number::fixed::fixed_text((Double { bits: lat })@, 4) + ", "@
                + crate::number::fixed::fixed_text((Double { bits: lon })@, 4) + ")"@,
        ],
{
}

proof fn passed_is_counted(v: Seq<NamedCheck>)
    ensures
        crate::nidhogg::verify_readonly::passed_count(v) == v.filter(
            |c: NamedCheck| c.check is Passed,
        ).len(),
    decreases v.len(),
{
    reveal(Seq::filter);
    if v.len() > 0 {
        passed_is_counted(v.drop_last());
    }
}

/// Every check has its line in order; the line behind them counts those that passed
/// and the others; and the whole passes only where all did.
pub proof fn checks_are_told(v: Seq<NamedCheck>, good: nat, bad: nat)
    requires
        good == v.filter(|c: NamedCheck| c.check is Passed).len(),
        good + bad == v.len(),
    ensures
        check_lines(v).len() == v.len() + 1 + if bad == 0 { 1int } else { 0int },
        forall|i: int|
            0 <= i < v.len() ==> #[trigger] check_lines(v)[i] == MessageView::Verify(
                match v[i].check {
                    Check::Passed => "PASS  "@ + v[i].name@,
                    Check::Failed => "FAIL  "@ + v[i].name@,
                    Check::Broken(why) => "FAIL  "@ + v[i].name@ + ": "@ + why@,
                },
            ),
        check_lines(v)[v.len() as int] == MessageView::Verify(
            "readonly: "@ + nat_text(good) + " passed, "@ + nat_text(bad) + " failed"@,
        ),
        bad == 0 ==> check_lines(v).last() == MessageView::Verify("read-only verification passed"@),
{
    passed_is_counted(v);
}

/// What a batch found is told in the order of the names, and every filter once.
pub proof fn filters_are_in_order(s: Seq<(Seq<char>, nat)>)
    ensures
        by_name(s).to_multiset() =~= s.to_multiset(),
        by_name(s).len() == s.len(),
        forall|i: int, j: int|
            0 <= i < j < by_name(s).len() ==> !comes_before(
                (#[trigger] by_name(s)[j]).0,
                (#[trigger] by_name(s)[i]).0,
            ),
    decreases s.len(),
{
    if s.len() > 0 {
        let front = s.drop_last();
        filters_are_in_order(front);
        inserted_keeps_order(by_name(front), s.last());
        assert(s =~= front.push(s.last()));
        front.to_multiset_ensures();
        assert(s.to_multiset() =~= front.to_multiset().insert(s.last()));
    } else {
        assert(by_name(s) =~= s);
    }
}

proof fn inserted_keeps_order(s: Seq<(Seq<char>, nat)>, x: (Seq<char>, nat))
    requires
        forall|i: int, j: int|
            0 <= i < j < s.len() ==> !comes_before((#[trigger] s[j]).0, (#[trigger] s[i]).0),
    ensures
        inserted(s, x).len() == s.len() + 1,
        inserted(s, x).to_multiset() =~= s.to_multiset().insert(x),
        forall|i: int, j: int|
            0 <= i < j < inserted(s, x).len() ==> !comes_before(
                (#[trigger] inserted(s, x)[j]).0,
                (#[trigger] inserted(s, x)[i]).0,
            ),
        forall|i: int|
            0 <= i < inserted(s, x).len() ==> #[trigger] inserted(s, x)[i] == x || exists|k: int|
                0 <= k < s.len() && #[trigger] s[k] == inserted(s, x)[i],
    decreases s.len(),
{
    let out = inserted(s, x);
    if s.len() == 0 || !comes_before(x.0, s.last().0) {
        s.to_multiset_ensures();
        assert forall|i: int, j: int| 0 <= i < j < out.len() implies !comes_before(
            (#[trigger] out[j]).0,
            (#[trigger] out[i]).0,
        ) by {
            if j == s.len() {
                if i < s.len() - 1 && comes_before(x.0, s[i].0) {
                    assert(!comes_before(s[s.len() - 1].0, s[i].0));
                    crate::invalidate::before_is_total(s[i].0, s.last().0);
                    if s[i].0 != s.last().0 {
                        crate::invalidate::before_carries(x.0, s[i].0, s.last().0);
                    }
                }
            } else {
                assert(out[i] == s[i] && out[j] == s[j]);
            }
        }
        assert forall|i: int| 0 <= i < out.len() implies #[trigger] out[i] == x || exists|k: int|
            0 <= k < s.len() && #[trigger] s[k] == out[i] by {
            if i < s.len() {
                assert(s[i] == out[i]);
            }
        }
    } else {
        let front = s.drop_last();
        inserted_keeps_order(front, x);
        let part = inserted(front, x);
        assert(out == part.push(s.last()));
        part.to_multiset_ensures();
        front.to_multiset_ensures();
        assert(s =~= front.push(s.last()));
        assert(s.to_multiset() =~= front.to_multiset().insert(s.last()));
        assert forall|i: int| 0 <= i < out.len() implies #[trigger] out[i] == x || exists|k: int|
            0 <= k < s.len() && #[trigger] s[k] == out[i] by {
            if i < part.len() {
                assert(out[i] == part[i]);
                if part[i] != x {
                    let k = choose|k: int| 0 <= k < front.len() && #[trigger] front[k] == part[i];
                    assert(s[k] == out[i]);
                }
            } else {
                assert(s[s.len() - 1] == out[i]);
            }
        }
        assert forall|i: int, j: int| 0 <= i < j < out.len() implies !comes_before(
            (#[trigger] out[j]).0,
            (#[trigger] out[i]).0,
        ) by {
            if j < part.len() {
                assert(out[i] == part[i] && out[j] == part[j]);
            } else {
                assert(out[i] == part[i]);
                if part[i] == x {
                    if comes_before(s.last().0, x.0) {
                        crate::invalidate::before_carries(s.last().0, x.0, s.last().0);
                        crate::invalidate::before_is_strict(s.last().0);
                    }
                } else {
                    let k = choose|k: int| 0 <= k < front.len() && #[trigger] front[k] == part[i];
                    assert(s[k] == part[i]);
                    assert(!comes_before(s[s.len() - 1].0, s[k].0));
                }
            }
        }
    }
}

/// The filters of a batch asked for one by one: each under its own name, for the box.
pub proof fn single_queries_have_their_filters(api: Seq<char>)
    ensures
        ({
            let q = single_queries(api);
            let head = "{\"bbox\":"@ + api + ",\"query\":["@;
            &&& q.len() == 4
            &&& q[0] == ("roads"@, head + road_filter() + "]}"@)
            &&& q[1] == ("infra"@, head + "{\"railway\":true}"@ + "]}"@)
            &&& q[2] == ("coastline"@, head + "{\"natural\":[\"coastline\"]}"@ + "]}"@)
            &&& q[3] == ("landcover"@, head + "{\"landuse\":true}"@ + "]}"@)
        }),
{
}

} // verus!
