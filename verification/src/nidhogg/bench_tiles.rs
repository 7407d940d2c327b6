//! The benchmark of serving tiles: a server's life from start to end.

use crate::db::{pair_views, KvPair, PairView, ValueView};
use crate::error::{DevError, ErrorView};
use crate::harness::kv::{from_utf8_lossy, lossy, parse_kv_lines, preview, reported_pairs};
use crate::harness::stats::BenchResult;
use crate::harness::{BenchConfig, CargoProfile};
use crate::manifest::{lowered, to_lowercase};
use crate::number::double::Double;
use crate::numeral::{nat_text, u64_text, usize_text};
use crate::text::{chars_of, contains, has_part, lines_of, opt_str, opt_view, string_of, views};
use vstd::prelude::*;

verus! {

/// How often all tiles are asked for in one run.
pub const ITERATIONS: usize = 5;

/// How many seconds the server has to say that it is ready.
pub const STARTUP_SECONDS: u64 = 30;

/// Whether a line says that the server is ready.
pub fn is_ready_line(line: &str) -> (r: bool)
    ensures
        r == has_part(lowered(line@), "listening"@),
{
    let lower = to_lowercase(line);
    contains(lower.as_str(), "listening")
}

/// The least and the largest zoom among some tiles.
pub open spec fn zoom_range(tiles: Seq<(u32, u32, u32)>) -> (u32, u32)
    decreases tiles.len(),
{
    if tiles.len() <= 1 {
        (tiles[0].0, tiles[0].0)
    } else {
        let (lo, hi) = zoom_range(tiles.drop_last());
        let z = tiles.last().0;
        (
            if z < lo {
                z
            } else {
                lo
            },
            if z > hi {
                z
            } else {
                hi
            },
        )
    }
}

fn find_zoom_range(tiles: &[(u32, u32, u32)]) -> (r: (u32, u32))
    requires
        tiles@.len() > 0,
    ensures
        r == zoom_range(tiles@),
{
    let mut lo: u32 = tiles[0].0;
    let mut hi: u32 = tiles[0].0;
    let mut i: usize = 1;
    assert(tiles@.take(1)[0] == tiles@[0]);
    while i < tiles.len()
        invariant
            1 <= i <= tiles@.len(),
            (lo, hi) == zoom_range(tiles@.take(i as int)),
        decreases tiles@.len() - i,
    {
        let z: u32 = tiles[i].0;
        assert(tiles@.take(i + 1).drop_last() =~= tiles@.take(i as int));
        if z < lo {
            lo = z;
        }
        if z > hi {
            hi = z;
        }
        i += 1;
    }
    assert(tiles@.take(i as int) =~= tiles@);
    (lo, hi)
}

/// The zooms of a non-empty sample lie between the least and the largest.
pub proof fn zooms_in_range(tiles: Seq<(u32, u32, u32)>, i: int)
    requires
        0 <= i < tiles.len(),
    ensures
        zoom_range(tiles).0 <= tiles[i].0 <= zoom_range(tiles).1,
    decreases tiles.len(),
{
    if tiles.len() > 1 {
        if i < tiles.len() - 1 {
            zooms_in_range(tiles.drop_last(), i);
        }
    }
}

/// The line on the sampled tiles; there must be some.
pub fn sample_line(tiles: &[(u32, u32, u32)]) -> (r: Result<String, DevError>)
    ensures
        tiles@.len() == 0 ==> (r matches Err(e) && e@ == ErrorView::Config(
            "PMTiles archive contains no tile entries"@,
        )),
        tiles@.len() > 0 ==> (r matches Ok(t) && t@ == "z"@ + nat_text(zoom_range(tiles@).0 as nat)
            + "-z"@ + nat_text(zoom_range(tiles@).1 as nat) + ", "@ + nat_text(tiles@.len())
            + " tile coordinates sampled from PMTiles directory"@),
{
    if tiles.len() == 0 {
        return Err(DevError::Config("PMTiles archive contains no tile entries".to_owned()));
    }
    let (lo, hi) = find_zoom_range(tiles);
    let mut out = "z".to_owned();
    out.append(u64_text(lo as u64).as_str());
    out.append("-z");
    out.append(u64_text(hi as u64).as_str());
    out.append(", ");
    out.append(usize_text(tiles.len()).as_str());
    out.append(" tile coordinates sampled from PMTiles directory");
    Ok(out)
}

/// What is stored with a result.
pub open spec fn tiles_metadata(
    port: u16,
    tiles_file: Seq<char>,
    tiles_mb: Double,
    count: nat,
    hash: Option<Seq<char>>,
) -> Seq<PairView> {
    seq![
        PairView { key: "meta.port"@, value: ValueView::Int(port as int) },
        PairView { key: "meta.tiles"@, value: ValueView::Text(tiles_file) },
        PairView { key: "meta.tiles_mb"@, value: ValueView::Real(tiles_mb@) },
        PairView { key: "meta.tile_coords"@, value: ValueView::Int(count as int) },
        PairView { key: "meta.iterations"@, value: ValueView::Int(ITERATIONS as int) },
    ] + match hash {
        Some(h) => seq![PairView { key: "meta.tiles_hash"@, value: ValueView::Text(h) }],
        None => Seq::empty(),
    }
}

/// The configuration of the benchmark.
pub fn tiles_config(
    port: u16,
    tiles_file: &str,
    tiles_hash: Option<&str>,
    tiles_mb: Double,
    coords: usize,
    runs: usize,
) -> (r: BenchConfig)
    requires
        coords <= i64::MAX,
    ensures
        r.command@ == "tiles"@,
        r.mode is None,
        opt_view(r.input_file) == Some(tiles_file@),
        r.input_mb == Some(tiles_mb),
        r.cargo_features is None,
        r.cargo_profile == CargoProfile::Release,
        r.runs == runs,
        r.cli_args is None,
        r.brokkr_args is None,
        pair_views(r.metadata@) == tiles_metadata(
            port,
            tiles_file@,
            tiles_mb,
            coords as nat,
            opt_str(tiles_hash),
        ),
{
    let mut metadata = vec![
        KvPair::of_int("meta.port", port as i64),
        KvPair::of_text("meta.tiles", tiles_file),
        KvPair::of_real("meta.tiles_mb", tiles_mb),
        KvPair::of_int("meta.tile_coords", coords as i64),
        KvPair::of_int("meta.iterations", ITERATIONS as i64),
    ];
    match tiles_hash {
        Some(h) => {
            metadata.push(KvPair::of_text("meta.tiles_hash", h));
        },
        None => {},
    }
    assert(pair_views(metadata@) =~= tiles_metadata(
        port,
        tiles_file@,
        tiles_mb,
        coords as nat,
        opt_str(tiles_hash),
    ));
    BenchConfig {
        command: "tiles".to_owned(),
        mode: None,
        input_file: Some(tiles_file.to_owned()),
        input_mb: Some(tiles_mb),
        cargo_features: None,
        cargo_profile: CargoProfile::Release,
        runs,
        cli_args: None,
        brokkr_args: None,
        metadata,
    }
}

/// The arguments of the server that is measured.
pub fn server_args(data_dir: &str, tiles: &str) -> (r: Vec<String>)
    ensures
        views(r@) == seq!["serve"@, "--data-dir"@, data_dir@, "--tiles"@, tiles@],
{
    let r = vec![
        "serve".to_owned(),
        "--data-dir".to_owned(),
        data_dir.to_owned(),
        "--tiles".to_owned(),
        tiles.to_owned(),
    ];
    assert(views(r@) =~= seq!["serve"@, "--data-dir"@, data_dir@, "--tiles"@, tiles@]);
    r
}

/// At most so many characters of a text.
pub open spec fn at_most(text: Seq<char>, n: int) -> Seq<char> {
    if text.len() > n {
        text.take(n)
    } else {
        text
    }
}

fn cut_text(text: &str, n: usize) -> (r: String)
    ensures
        r@ == at_most(text@, n as int),
{
    let cs = chars_of(text);
    let to: usize = if cs.len() > n {
        n
    } else {
        cs.len()
    };
    let r = string_of(&cs, 0, to);
    assert(r@ =~= at_most(text@, n as int));
    r
}

/// What is said of a server that is not ready in time, with what it wrote.
pub open spec fn not_ready_text(output: Seq<char>) -> Seq<char> {
    "nidhogg server did not print ready signal within 30s"@ + (if output.len() == 0 {
        " (no stderr output)"@
    } else {
        "\nserver stderr:\n"@ + at_most(output, 2000)
    })
}

/// Why a server that is not ready in time is given up, with what it wrote.
pub fn not_ready_error(output: &str) -> (r: DevError)
    ensures
        r@ == ErrorView::Config(not_ready_text(output@)),
{
    let mut m = "nidhogg server did not print ready signal within 30s".to_owned();
    if output.unicode_len() == 0 {
        m.append(" (no stderr output)");
    } else {
        let mut rest = "\nserver stderr:\n".to_owned();
        rest.append(cut_text(output, 2000).as_str());
        m.append(rest.as_str());
    }
    DevError::Config(m)
}

/// The line before the timed passes.
pub fn passes_line(tiles: usize) -> (r: String)
    ensures
        r@ == "warmup done, running 5 iterations \u{d7} "@ + nat_text(tiles as nat) + " tiles = "@
            + nat_text(5 * tiles as nat) + " requests"@,
{
    let mut out = "warmup done, running 5 iterations \u{d7} ".to_owned();
    out.append(usize_text(tiles).as_str());
    out.append(" tiles = ");
    let total: u128 = 5 * tiles as u128;
    out.append(crate::numeral::u128_text(total).as_str());
    out.append(" requests");
    out
}

/// What follows a line of a server that starts.
pub enum StartStep {
    Ready,
    /// Wait for the next line.
    Wait,
    /// It will not be ready.
    Failed(DevError),
}

/// Takes in a line of a server that starts, or that there will be none: the first
/// line that says so makes it ready, and those before it are kept.
pub fn after_line(seen: &mut String, line: Option<&str>) -> (r: StartStep)
    ensures
        match line {
            Some(l) => if has_part(lowered(l@), "listening"@) {
                r is Ready && final(seen)@ == old(seen)@
            } else {
                r is Wait && final(seen)@ == old(seen)@ + l@
            },
            None => (r matches StartStep::Failed(e) && e@ == ErrorView::Config(
                not_ready_text(old(seen)@),
            )) && final(seen)@ == old(seen)@,
        },
{
    match line {
        Some(l) => {
            if is_ready_line(l) {
                return StartStep::Ready;
            }
            seen.append(l);
            StartStep::Wait
        },
        None => StartStep::Failed(not_ready_error(seen.as_str())),
    }
}

/// The request after so many replies: all tiles in order, once to warm up and
/// then in every timed pass.
pub open spec fn request_after(done: nat, tiles: Seq<(u32, u32, u32)>) -> Option<(u32, u32, u32)> {
    if tiles.len() == 0 || done / tiles.len() > ITERATIONS {
        None
    } else {
        Some(tiles[(done % tiles.len()) as int])
    }
}

/// Decides which tile is asked for next, if any.
pub fn next_request(done: usize, tiles: &[(u32, u32, u32)]) -> (r: Option<(u32, u32, u32)>)
    ensures
        r == request_after(done as nat, tiles@),
{
    let n: usize = tiles.len();
    if n == 0 || done / n > ITERATIONS {
        return None;
    }
    Some(tiles[done % n])
}

/// What is said after so many replies: at the end of the warm-up, and of each
/// timed pass.
pub open spec fn pass_end(done: nat, tiles: nat) -> Option<Seq<char>> {
    if tiles == 0 || done == 0 || done % tiles != 0 || done / tiles > ITERATIONS + 1 {
        None
    } else if done == tiles {
        Some(
            "warmup done, running 5 iterations \u{d7} "@ + nat_text(tiles) + " tiles = "@ + nat_text(
                5 * tiles,
            ) + " requests"@,
        )
    } else {
        Some("iteration "@ + nat_text((done / tiles - 1) as nat) + "/5"@)
    }
}

/// Says that a pass has ended, where one has.
pub fn pass_line(done: usize, tiles: usize) -> (r: Option<String>)
    ensures
        opt_view(r) == pass_end(done as nat, tiles as nat),
{
    if tiles == 0 || done == 0 || done % tiles != 0 {
        return None;
    }
    let passes: usize = done / tiles;
    if passes > ITERATIONS + 1 {
        return None;
    }
    if done == tiles {
        return Some(passes_line(tiles));
    }
    assert(passes >= 1) by (nonlinear_arith)
        requires
            passes == done / tiles,
            done % tiles == 0,
            done > 0,
            tiles > 0,
    ;
    let mut out = "iteration ".to_owned();
    out.append(usize_text(passes - 1).as_str());
    out.append("/5");
    Some(out)
}

/// Every tile is asked for once in the warm-up and once in each timed pass, and
/// after the last pass there is no request.
pub proof fn every_tile_is_asked_for(tiles: Seq<(u32, u32, u32)>, pass: nat, k: nat)
    requires
        k < tiles.len(),
    ensures
        pass <= ITERATIONS ==> request_after(pass * tiles.len() + k, tiles) == Some(
            tiles[k as int],
        ),
        pass > ITERATIONS ==> request_after(pass * tiles.len() + k, tiles) is None,
{
    let n = tiles.len();
    let done = pass * n + k;
    vstd::arithmetic::div_mod::lemma_fundamental_div_mod_converse(
        done as int,
        n as int,
        pass as int,
        k as int,
    );
}

/// Makes the result of a server's life: its end by a signal is expected, an end
/// with a code of its own is a failure; the figures are what it wrote at the end.
pub fn run_lifecycle(
    program: &str,
    success: bool,
    code: Option<i32>,
    stderr: &[u8],
    elapsed_ms: i64,
) -> (r: Result<BenchResult, DevError>)
    ensures
        !success && code is Some ==> (r matches Err(e) && e@ == ErrorView::Subprocess(
            program@,
            code,
            preview(lossy(stderr@)),
        )),
        success || code is None ==> (r matches Ok(b) && b.elapsed_ms == elapsed_ms && pair_views(
            b.kv@,
        ) == reported_pairs(lines_of(lossy(stderr@))) && b.distribution is None && b.hotpath is None),
{
    if !success && code.is_some() {
        let text = from_utf8_lossy(stderr);
        let front = cut_text(text.as_str(), 500);
        return Err(DevError::Subprocess { program: program.to_owned(), code, stderr: front });
    }
    let (_, kv) = parse_kv_lines(stderr);
    Ok(BenchResult { elapsed_ms, kv, distribution: None, hotpath: None })
}

} // verus!
