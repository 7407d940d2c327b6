//! The capability of a hold: what lets the holder's own compilers run, and how
//! it reaches them.

use crate::numeral::{hex, hex_text};
use crate::text::{clone_opt, opt_view};
use vstd::prelude::*;
use vstd::utf8::encode_utf8;

verus! {

/// The variable through which descendants get the nonce of the current hold.
pub const CAPABILITY_ENV: &'static str = "BROKKR_HOLD_NONCE";

/// Cargo's switch for its persistent cache of compiler probes.
pub const RUSTC_INFO_CACHE_ENV: &'static str = "CARGO_CACHE_RUSTC_INFO";

/// The variable that marks a compiler that was admitted.
pub const LEASE_MARKER_ENV: &'static str = "BROKKR_COMPILE_LEASE";

/// The capability of the hold that a process has, if it has one.
pub struct Capability {
    pub nonce: Option<String>,
}

impl Capability {
    /// No hold.
    pub fn none() -> (r: Capability)
        ensures
            r.nonce is None,
    {
        Capability { nonce: None }
    }
}

/// Publishes the capability of a new hold in place of any earlier one.
pub fn publish_capability(slot: &mut Capability, nonce: &str)
    ensures
        opt_view(final(slot).nonce) == Some(nonce@),
{
    slot.nonce = Some(nonce.to_owned());
}

/// Forgets the capability when the hold is released.
pub fn clear_capability(slot: &mut Capability)
    ensures
        final(slot).nonce is None,
{
    slot.nonce = None;
}

/// The capability to hand to a child, if there is one.
pub fn capability(slot: &Capability) -> (r: Option<String>)
    ensures
        opt_view(r) == opt_view(slot.nonce),
{
    clone_opt(&slot.nonce)
}

/// Pairs of names and values.
pub open spec fn env_views(v: Seq<(String, String)>) -> Seq<(Seq<char>, Seq<char>)> {
    v.map_values(|p: (String, String)| (p.0@, p.1@))
}

/// What a child gets: the nonce where there is a hold, and the probe cache
/// switched off in any case.
pub open spec fn stamped(nonce: Option<Seq<char>>) -> Seq<(Seq<char>, Seq<char>)> {
    let cache = seq![("CARGO_CACHE_RUSTC_INFO"@, "0"@)];
    match nonce {
        Some(n) => seq![("BROKKR_HOLD_NONCE"@, n)] + cache,
        None => cache,
    }
}

/// The variables that every child is started with.
pub fn stamp(slot: &Capability) -> (r: Vec<(String, String)>)
    ensures
        env_views(r@) == stamped(opt_view(slot.nonce)),
{
    let mut out: Vec<(String, String)> = Vec::new();
    match &slot.nonce {
        Some(n) => {
            out.push(("BROKKR_HOLD_NONCE".to_owned(), n.clone()));
        },
        None => {},
    }
    out.push(("CARGO_CACHE_RUSTC_INFO".to_owned(), "0".to_owned()));
    assert(env_views(out@) =~= stamped(opt_view(slot.nonce)));
    out
}

/// One forced variable in cargo's configuration.
pub open spec fn forced_entry(name: Seq<char>, value: Seq<char>) -> Seq<char> {
    name + " = { value = \""@ + value + "\", force = true, relative = false }\n"@
}

/// The configuration that forces what a child gets.
pub open spec fn overrides_text(nonce: Option<Seq<char>>) -> Seq<char> {
    let cache = "[env]\n"@ + forced_entry("CARGO_CACHE_RUSTC_INFO"@, "0"@);
    match nonce {
        Some(n) => cache + forced_entry("BROKKR_HOLD_NONCE"@, n),
        None => cache,
    }
}

fn push_entry(out: &mut String, name: &str, value: &str)
    ensures
        final(out)@ == old(out)@ + forced_entry(name@, value@),
{
    let mut entry = name.to_owned();
    entry.append(" = { value = \"");
    entry.append(value);
    entry.append("\", force = true, relative = false }\n");
    out.append(entry.as_str());
}

/// Writes the configuration file for processes that are started by others: it
/// forces the same variables that [`stamp`] hands out.
pub fn cargo_config_overrides(slot: &Capability) -> (r: String)
    ensures
        r@ == overrides_text(opt_view(slot.nonce)),
{
    let mut out = "[env]\n".to_owned();
    push_entry(&mut out, "CARGO_CACHE_RUSTC_INFO", "0");
    match &slot.nonce {
        Some(n) => {
            push_entry(&mut out, "BROKKR_HOLD_NONCE", n.as_str());
        },
        None => {},
    }
    out
}

/// Whether the process runs inside a compilation that was admitted: the marker
/// is set and not empty.
pub fn inside_admitted_compilation(marker: Option<&str>) -> (r: bool)
    ensures
        r == (marker matches Some(v) && v@.len() > 0),
{
    match marker {
        Some(v) => v.unicode_len() > 0,
        None => false,
    }
}

/// Makes a nonce of sixteen random bytes.
pub fn mint_nonce(entropy: &[u8]) -> (r: String)
    requires
        entropy@.len() == 16,
    ensures
        r@ == hex_text(entropy@),
        r@.len() == 32,
{
    proof {
        crate::numeral::hex_text_len(entropy@);
    }
    hex(entropy)
}

/// The 128-bit hash of some bytes.
pub uninterp spec fn xxh3_hash(bytes: Seq<u8>) -> u128;

/// `xxhash_rust::xxh3::xxh3_128` hashes bytes without a seed: the same bytes
/// always have the same hash.
#[verifier::external_body]
fn xxh3_128(bytes: &[u8]) -> (r: u128)
    ensures
        r == xxh3_hash(bytes@),
{
    xxhash_rust::xxh3::xxh3_128(bytes)
}

/// The last `k` bytes of a number, the most significant first.
pub open spec fn big_endian(n: nat, k: nat) -> Seq<u8>
    decreases k,
{
    if k == 0 {
        Seq::empty()
    } else {
        big_endian(n / 256, (k - 1) as nat).push((n % 256) as u8)
    }
}

fn push_bytes(out: &mut Vec<u8>, n: u128, k: usize)
    ensures
        final(out)@ == old(out)@ + big_endian(n as nat, k as nat),
    decreases k,
{
    if k > 0 {
        push_bytes(out, n / 256, k - 1);
        out.push((n % 256) as u8);
    }
    assert(out@ =~= old(out)@ + big_endian(n as nat, k as nat));
}

/// A hash as thirty-two hexadecimal digits.
pub fn hash_text(hash: u128) -> (r: String)
    ensures
        r@ == hex_text(big_endian(hash as nat, 16)),
{
    let mut bytes: Vec<u8> = Vec::new();
    push_bytes(&mut bytes, hash, 16);
    assert(bytes@ =~= big_endian(hash as nat, 16));
    hex(&bytes)
}

/// The hash of some bytes as hexadecimal digits.
pub open spec fn digest_text(bytes: Seq<u8>) -> Seq<char> {
    hex_text(big_endian(xxh3_hash(bytes) as nat, 16))
}

/// Hashes some bytes.
pub fn digest(bytes: &[u8]) -> (r: String)
    ensures
        r@ == digest_text(bytes@),
{
    hash_text(xxh3_128(bytes))
}

/// What the lock file holds of a nonce: its hash, not the nonce.
pub fn auth_hash(nonce: &str) -> (r: String)
    ensures
        r@ == digest_text(encode_utf8(nonce@)),
{
    digest(nonce.as_bytes())
}

/// A child gets the nonce exactly where there is a hold, and never the cache of
/// compiler probes.
pub proof fn children_get_the_nonce(nonce: Seq<char>)
    ensures
        stamped(Some(nonce)) == seq![
            ("BROKKR_HOLD_NONCE"@, nonce),
            ("CARGO_CACHE_RUSTC_INFO"@, "0"@),
        ],
        stamped(None) == seq![("CARGO_CACHE_RUSTC_INFO"@, "0"@)],
        overrides_text(None)
            == "[env]\n"@ + ("CARGO_CACHE_RUSTC_INFO"@ + " = { value = \""@ + "0"@
            + "\", force = true, relative = false }\n"@),
        overrides_text(Some(nonce)) == overrides_text(None) + ("BROKKR_HOLD_NONCE"@
            + " = { value = \""@ + nonce + "\", force = true, relative = false }\n"@),
{
}

/// The bytes of a number are its digits to the base of 256, the least significant
/// last: one byte more is the rest of a division, and the others are those of the
/// quotient.
pub proof fn bytes_are_digits(high: nat, low: u8, k: nat)
    ensures
        big_endian(high * 256 + low as nat, k + 1) == big_endian(high, k).push(low),
        big_endian(high, k).len() == k,
    decreases k,
{
    let n = high * 256 + low as nat;
    assert(n / 256 == high && n % 256 == low);
    if k > 0 {
        bytes_are_digits(high / 256, (high % 256) as u8, (k - 1) as nat);
        assert(high == (high / 256) * 256 + high % 256);
    }
}

} // verus!
