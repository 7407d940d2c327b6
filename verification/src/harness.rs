//! The benchmark harness: what is run, measured and recorded.

use crate::db::{pair_views, value_text, Distribution, KvPair, KvValue, PairView, ValueView};
use crate::harness::stats::BenchResult;
use crate::number::arith::{of_int, quotient};
use crate::number::double::Double;
use crate::number::fixed::fixed_text;
use crate::numeral::{i64_text, int_text};
use crate::text::{join, joined, opt_view, same, views};
use vstd::prelude::*;

pub mod clock;
pub mod command_line;
pub mod identity;
pub mod kv;
pub mod lines;
pub mod middle;
pub mod percentiles;
pub mod record;
pub mod reports;
pub mod runs;
pub mod sidecar;
pub mod stats;

verus! {

/// How a binary is built.
#[derive(Clone, Copy, Debug, PartialEq, Eq, Structural)]
pub enum CargoProfile {
    Release,
    Profiling,
}

/// What is to be measured.
pub struct BenchConfig {
    pub command: String,
    /// What is measured of it; the harness fills it in where it is missing.
    pub mode: Option<String>,
    pub input_file: Option<String>,
    /// The size of the input in megabytes.
    pub input_mb: Option<Double>,
    pub cargo_features: Option<String>,
    pub cargo_profile: CargoProfile,
    pub runs: usize,
    /// The command line of the measured program.
    pub cli_args: Option<String>,
    /// The command line of brokkr itself.
    pub brokkr_args: Option<String>,
    pub metadata: Vec<KvPair>,
}

/// The state of the repository that is measured.
pub struct GitInfo {
    pub commit: String,
    pub subject: String,
    pub is_clean: bool,
}

/// The machine on which it is measured.
pub struct EnvInfo {
    pub hostname: String,
    pub kernel: String,
    pub governor: String,
    pub memory_available_mb: u64,
}

/// On which drives the files of a measurement lie.
pub struct DriveConfig {
    pub source: Option<String>,
    pub data: Option<String>,
    pub scratch: Option<String>,
    pub target: Option<String>,
}

/// A note on one drive, where it is known.
pub open spec fn drive_note(label: Seq<char>, value: Option<Seq<char>>) -> Seq<Seq<char>> {
    match value {
        Some(v) => seq![label + "="@ + v],
        None => Seq::empty(),
    }
}

/// The notes on all drives that are known.
pub open spec fn drive_notes(d: DriveConfig) -> Seq<Seq<char>> {
    drive_note("source"@, opt_view(d.source)) + drive_note("data"@, opt_view(d.data)) + drive_note(
        "scratch"@,
        opt_view(d.scratch),
    ) + drive_note("target"@, opt_view(d.target))
}

/// The notes on the storage of a measurement, if a drive is known.
pub open spec fn storage_text(drives: Option<DriveConfig>) -> Option<Seq<char>> {
    match drives {
        Some(d) => if drive_notes(d).len() == 0 {
            None
        } else {
            Some(joined(drive_notes(d), ", "@))
        },
        None => None,
    }
}

/// Adds `label=value` where the drive is known.
pub fn push_drive_note(parts: &mut Vec<String>, label: &str, value: &Option<String>)
    ensures
        views(final(parts)@) == views(old(parts)@) + drive_note(label@, opt_view(*value)),
{
    match value {
        Some(v) => {
            let mut note = label.to_owned();
            note.append("=");
            note.append(v.as_str());
            parts.push(note);
        },
        None => {},
    }
    assert(views(parts@) =~= views(old(parts)@) + drive_note(label@, opt_view(*value)));
}

/// Writes the notes on the storage of a measurement.
pub fn format_storage_notes(drives: &Option<DriveConfig>) -> (r: Option<String>)
    ensures
        opt_view(r) == storage_text(*drives),
{
    match drives {
        Some(d) => {
            let mut parts: Vec<String> = Vec::new();
            push_drive_note(&mut parts, "source", &d.source);
            push_drive_note(&mut parts, "data", &d.data);
            push_drive_note(&mut parts, "scratch", &d.scratch);
            push_drive_note(&mut parts, "target", &d.target);
            assert(views(parts@) =~= drive_notes(*d));
            assert(views(parts@).len() == parts@.len());
            if parts.len() == 0 {
                None
            } else {
                Some(join(&parts, ", "))
            }
        },
        None => None,
    }
}

/// The first pair with the key.
pub open spec fn first_pair(kv: Seq<PairView>, key: Seq<char>) -> Option<PairView>
    decreases kv.len(),
{
    if kv.len() == 0 {
        None
    } else if kv[0].key == key {
        Some(kv[0])
    } else {
        first_pair(kv.skip(1), key)
    }
}

/// The integer of the first pair with the key, if it is one.
pub open spec fn int_of(kv: Seq<PairView>, key: Seq<char>) -> Option<int> {
    match first_pair(kv, key) {
        Some(p) => match p.value {
            ValueView::Int(n) => Some(n),
            _ => None,
        },
        None => None,
    }
}

/// Looks up an integer by its key.
pub fn find_kv_int(kv: &[KvPair], key: &str) -> (r: Option<i64>)
    ensures
        match r {
            Some(n) => int_of(pair_views(kv@), key@) == Some(n as int),
            None => int_of(pair_views(kv@), key@) is None,
        },
{
    let ghost all = pair_views(kv@);
    let mut i: usize = 0;
    assert(all.skip(0) =~= all);
    while i < kv.len()
        invariant
            i <= kv@.len(),
            all == pair_views(kv@),
            first_pair(all, key@) == first_pair(all.skip(i as int), key@),
        decreases kv@.len() - i,
    {
        assert(all.skip(i as int)[0] == kv@[i as int]@);
        assert(all.skip(i as int).skip(1) =~= all.skip(i + 1));
        if same(kv[i].key.as_str(), key) {
            return match &kv[i].value {
                KvValue::Int(n) => Some(*n),
                _ => None,
            };
        }
        i += 1;
    }
    None
}

/// Named values as `key=value`.
pub open spec fn kv_fields(kv: Seq<PairView>) -> Seq<Seq<char>> {
    kv.map_values(|p: PairView| p.key + "="@ + value_text(p.value))
}

/// Adds named values to the parts of a line.
pub fn append_kv_fields(parts: &mut Vec<String>, kv: &[KvPair])
    ensures
        views(final(parts)@) == views(old(parts)@) + kv_fields(pair_views(kv@)),
{
    let ghost start = views(parts@);
    let ghost all = kv_fields(pair_views(kv@));
    let mut i: usize = 0;
    assert(views(parts@) =~= start + all.take(0));
    while i < kv.len()
        invariant
            i <= kv@.len(),
            all == kv_fields(pair_views(kv@)),
            views(parts@) == start + all.take(i as int),
        decreases kv@.len() - i,
    {
        let ghost before = views(parts@);
        let mut field = kv[i].key.clone();
        field.append("=");
        let value = kv[i].value.to_text();
        field.append(value.as_str());
        assert(field@ == all[i as int]);
        parts.push(field);
        assert(views(parts@) =~= before.push(field@));
        i += 1;
        assert(views(parts@) =~= start + all.take(i as int));
    }
    assert(all.take(i as int) =~= all);
}

/// A field of a line.
pub open spec fn field(key: Seq<char>, value: Seq<char>) -> Seq<Seq<char>> {
    seq![key + value]
}

/// A field of a line, where it has a value.
pub open spec fn opt_field(key: Seq<char>, value: Option<Seq<char>>) -> Seq<Seq<char>> {
    match value {
        Some(v) => seq![key + v],
        None => Seq::empty(),
    }
}

/// The throughput of a measurement: the megabytes read per second where the
/// size of the input is known, and those written where the output is.
pub open spec fn throughput(input_mb: Option<Double>, elapsed_ms: int, kv: Seq<PairView>) -> Seq<
    Seq<char>,
> {
    match input_mb {
        Some(mb) => if elapsed_ms > 0 {
            let secs = quotient(of_int(elapsed_ms), of_int(1000));
            seq!["read_mbs="@ + fixed_text(quotient(mb@, secs), 1)] + match int_of(
                kv,
                "output_bytes"@,
            ) {
                Some(bytes) => seq![
                    "write_mbs="@ + fixed_text(
                        quotient(quotient(of_int(bytes), of_int(1_000_000)), secs),
                        1,
                    ),
                ],
                None => Seq::empty(),
            }
        } else {
            Seq::empty()
        },
        None => Seq::empty(),
    }
}

/// The spread of a measurement.
pub open spec fn spread_fields(d: Option<Distribution>) -> Seq<Seq<char>> {
    match d {
        Some(d) => seq![
            "samples="@ + int_text(d.samples as int),
            "min_ms="@ + int_text(d.min_ms as int),
            "p50_ms="@ + int_text(d.p50_ms as int),
            "p95_ms="@ + int_text(d.p95_ms as int),
            "max_ms="@ + int_text(d.max_ms as int),
        ],
        None => Seq::empty(),
    }
}

/// The parts of the line on a result.
pub open spec fn result_parts(config: BenchConfig, result: BenchResult, git: GitInfo) -> Seq<
    Seq<char>,
> {
    field("command="@, config.command@) + opt_field("mode="@, opt_view(config.mode)) + field(
        "elapsed_ms="@,
        int_text(result.elapsed_ms as int),
    ) + field("commit="@, git.commit@) + opt_field("input="@, opt_view(config.input_file))
        + kv_fields(pair_views(result.kv@)) + throughput(
        config.input_mb,
        result.elapsed_ms as int,
        pair_views(result.kv@),
    ) + spread_fields(result.distribution)
}

fn push_field(parts: &mut Vec<String>, key: &str, value: &str)
    ensures
        views(final(parts)@) == views(old(parts)@) + field(key@, value@),
{
    let mut part = key.to_owned();
    part.append(value);
    parts.push(part);
    assert(views(parts@) =~= views(old(parts)@) + field(key@, value@));
}

fn push_opt_field(parts: &mut Vec<String>, key: &str, value: &Option<String>)
    ensures
        views(final(parts)@) == views(old(parts)@) + opt_field(key@, opt_view(*value)),
{
    match value {
        Some(v) => {
            push_field(parts, key, v.as_str());
        },
        None => {},
    }
    assert(views(parts@) =~= views(old(parts)@) + opt_field(key@, opt_view(*value)));
}

fn push_throughput(parts: &mut Vec<String>, input_mb: Option<Double>, elapsed_ms: i64, kv: &[KvPair])
    ensures
        views(final(parts)@) == views(old(parts)@) + throughput(
            input_mb,
            elapsed_ms as int,
            pair_views(kv@),
        ),
{
    match input_mb {
        Some(mb) => {
            if elapsed_ms > 0 {
                let secs = Double::of_i64(elapsed_ms).over(Double::of_i64(1000));
                let read = mb.over(secs).fixed(1);
                push_field(parts, "read_mbs=", read.as_str());
                match find_kv_int(kv, "output_bytes") {
                    Some(bytes) => {
                        let output_mb = Double::of_i64(bytes).over(Double::of_i64(1_000_000));
                        let write = output_mb.over(secs).fixed(1);
                        push_field(parts, "write_mbs=", write.as_str());
                    },
                    None => {},
                }
            }
        },
        None => {},
    }
    assert(views(parts@) =~= views(old(parts)@) + throughput(
        input_mb,
        elapsed_ms as int,
        pair_views(kv@),
    ));
}

fn push_spread(parts: &mut Vec<String>, d: &Option<Distribution>)
    ensures
        views(final(parts)@) == views(old(parts)@) + spread_fields(*d),
{
    match d {
        Some(d) => {
            push_field(parts, "samples=", i64_text(d.samples).as_str());
            push_field(parts, "min_ms=", i64_text(d.min_ms).as_str());
            push_field(parts, "p50_ms=", i64_text(d.p50_ms).as_str());
            push_field(parts, "p95_ms=", i64_text(d.p95_ms).as_str());
            push_field(parts, "max_ms=", i64_text(d.max_ms).as_str());
        },
        None => {},
    }
    assert(views(parts@) =~= views(old(parts)@) + spread_fields(*d));
}

/// Writes the line on a result: what was measured, how long it took, what the
/// program reported, and what follows from it.
pub fn format_result_line(config: &BenchConfig, result: &BenchResult, git: &GitInfo) -> (r: String)
    ensures
        r@ == joined(result_parts(*config, *result, *git), "  "@),
{
    let mut parts: Vec<String> = Vec::new();
    assert(views(parts@) =~= Seq::empty());
    push_field(&mut parts, "command=", config.command.as_str());
    assert(views(parts@) =~= field("command="@, config.command@));
    push_opt_field(&mut parts, "mode=", &config.mode);
    push_field(&mut parts, "elapsed_ms=", i64_text(result.elapsed_ms).as_str());
    push_field(&mut parts, "commit=", git.commit.as_str());
    push_opt_field(&mut parts, "input=", &config.input_file);
    append_kv_fields(&mut parts, &result.kv);
    push_throughput(&mut parts, config.input_mb, result.elapsed_ms, &result.kv);
    push_spread(&mut parts, &result.distribution);
    assert(views(parts@) =~= result_parts(*config, *result, *git));
    join(&parts, "  ")
}

} // verus!
