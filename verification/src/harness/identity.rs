//! What holds of the identifiers of runs and of reports that cannot be read.

use crate::harness::sidecar::{random_id_bytes, report_fault, short_id};
use crate::json::json_fault;
use vstd::prelude::*;

verus! {

/// A random identifier has the version and the variant of one, and every other bit
/// is that of the random bytes.
pub proof fn random_bits_are_kept(bytes: Seq<u8>, i: int)
    requires
        bytes.len() == 16,
        0 <= i < 16,
    ensures
        ({
            let id = random_id_bytes(bytes);
            &&& id.len() == 16
            &&& i != 6 && i != 8 ==> id[i] == bytes[i]
            &&& id[6] as int / 16 == 4 && id[6] as int % 16 == bytes[6] as int % 16
            &&& id[8] as int / 64 == 2 && id[8] as int % 64 == bytes[8] as int % 64
        }),
{
    let (a, b) = (bytes[6], bytes[8]);
    assert(((a & 0x0f) | 0x40) / 16 == 4 && ((a & 0x0f) | 0x40) % 16 == a % 16) by (bit_vector);
    assert(((b & 0x3f) | 0x80) / 64 == 2 && ((b & 0x3f) | 0x80) % 64 == b % 64) by (bit_vector);
}

/// A short identifier is how the identifier starts, eight characters of it where it
/// has as many.
pub proof fn short_id_is_the_start(id: Seq<char>)
    ensures
        short_id(id).is_prefix_of(id),
        id.len() >= 8 ==> short_id(id).len() == 8,
        id.len() < 8 ==> short_id(id) == id,
{
}

/// A report is complained of exactly where it could not be read or is no JSON, with
/// the reason.
pub proof fn faulty_reports_are_told(path: Seq<char>, why: Seq<char>, text: Seq<char>)
    ensures
        report_fault(path, Err(why)) == Some("failed to read hotpath report "@ + path + ": "@ + why),
        json_fault(text) is None <==> report_fault(path, Ok(text)) is None,
        json_fault(text) matches Some(e) ==> report_fault(path, Ok(text)) == Some(
            "failed to parse hotpath JSON: "@ + e,
        ),
{
}

} // verus!
