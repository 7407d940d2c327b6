//! Statistics over repeated runs.

use crate::db::{Distribution, HotpathData, KvPair};
use crate::number::arith::{difference, nearest_int, of_int, product, quotient, sum, truncated};
use crate::number::double::{Double, Real};
use vstd::prelude::*;

verus! {

/// An ordered list with one more number.
pub open spec fn inserted(s: Seq<i64>, x: i64) -> Seq<i64>
    decreases s.len(),
{
    if s.len() == 0 || s.last() <= x {
        s.push(x)
    } else {
        inserted(s.drop_last(), x).push(s.last())
    }
}

/// The numbers in ascending order.
pub open spec fn ascending(s: Seq<i64>) -> Seq<i64>
    decreases s.len(),
{
    if s.len() == 0 {
        Seq::empty()
    } else {
        inserted(ascending(s.drop_last()), s.last())
    }
}

/// Whether no number is larger than one behind it.
pub open spec fn is_ascending(s: Seq<i64>) -> bool {
    forall|i: int, j: int| 0 <= i < j < s.len() ==> #[trigger] s[i] <= #[trigger] s[j]
}

proof fn inserted_at(s: Seq<i64>, x: i64, p: int)
    requires
        0 <= p <= s.len(),
        p > 0 ==> s[p - 1] <= x,
        forall|k: int| p <= k < s.len() ==> #[trigger] s[k] > x,
    ensures
        inserted(s, x) == s.insert(p, x),
    decreases s.len(),
{
    if p == s.len() {
        assert(s.insert(p, x) =~= s.push(x));
    } else {
        assert(s[s.len() - 1] > x);
        let front = s.drop_last();
        assert forall|k: int| p <= k < front.len() implies #[trigger] front[k] > x by {
            assert(front[k] == s[k]);
        }
        inserted_at(front, x, p);
        assert(s.insert(p, x) =~= front.insert(p, x).push(s.last()));
    }
}

proof fn inserted_is_ascending(s: Seq<i64>, x: i64)
    requires
        is_ascending(s),
    ensures
        is_ascending(inserted(s, x)),
        inserted(s, x).to_multiset() =~= s.to_multiset().insert(x),
        inserted(s, x).len() == s.len() + 1,
        s.len() > 0 ==> inserted(s, x).last() == if s.last() > x {
            s.last()
        } else {
            x
        },
    decreases s.len(),
{
    broadcast use vstd::seq_lib::group_to_multiset_ensures;

    let r = inserted(s, x);
    if s.len() > 0 && s.last() > x {
        let front = s.drop_last();
        let rest = inserted(front, x);
        inserted_is_ascending(front, x);
        assert(s =~= front.push(s.last()));
        assert forall|i: int, j: int| 0 <= i < j < r.len() implies #[trigger] r[i]
            <= #[trigger] r[j] by {
            if j == rest.len() {
                assert(rest[i] <= rest[rest.len() - 1]);
                if front.len() > 0 {
                    assert(s[front.len() - 1] <= s[s.len() - 1]);
                }
            } else {
                assert(rest[i] <= rest[j]);
            }
        }
    } else {
        assert forall|i: int, j: int| 0 <= i < j < r.len() implies #[trigger] r[i]
            <= #[trigger] r[j] by {
            if j == s.len() && i < s.len() - 1 {
                assert(s[i] <= s[s.len() - 1]);
            }
        }
    }
}

/// Ordering keeps every number and puts them in ascending order.
pub proof fn ascending_is_ordered(s: Seq<i64>)
    ensures
        is_ascending(ascending(s)),
        ascending(s).to_multiset() =~= s.to_multiset(),
        ascending(s).len() == s.len(),
    decreases s.len(),
{
    broadcast use vstd::seq_lib::group_to_multiset_ensures;

    if s.len() > 0 {
        ascending_is_ordered(s.drop_last());
        inserted_is_ascending(ascending(s.drop_last()), s.last());
        assert(s =~= s.drop_last().push(s.last()));
    }
}

/// Sorts numbers in ascending order.
pub fn sort_samples(samples: &[i64]) -> (r: Vec<i64>)
    ensures
        r@ == ascending(samples@),
{
    let mut out: Vec<i64> = Vec::new();
    let mut i: usize = 0;
    while i < samples.len()
        invariant
            i <= samples@.len(),
            out@.len() == i,
            out@ == ascending(samples@.take(i as int)),
        decreases samples@.len() - i,
    {
        let x: i64 = samples[i];
        let mut p: usize = i;
        while p > 0 && out[p - 1] > x
            invariant
                p <= i,
                i == out@.len(),
                forall|k: int| p <= k < i ==> #[trigger] out@[k] > x,
            decreases p,
        {
            p -= 1;
        }
        proof {
            inserted_at(out@, x, p as int);
            assert(samples@.take(i + 1).drop_last() =~= samples@.take(i as int));
        }
        out.insert(p, x);
        i += 1;
    }
    assert(samples@.take(i as int) =~= samples@);
    out
}

/// The lesser of two numbers.
pub open spec fn lesser(a: int, b: int) -> int {
    if a < b {
        a
    } else {
        b
    }
}

/// Where the percentile stands in an ordered list: a fraction of the way from
/// its first to its last index.
pub open spec fn percentile_place(len: nat, pct: nat) -> Real {
    product(quotient(of_int(pct as int), of_int(100)), of_int(len - 1))
}

/// The index at or below the percentile's place.
pub open spec fn percentile_index(len: nat, pct: nat) -> int {
    lesser(truncated(percentile_place(len, pct)) as int, len - 1)
}

/// A percentile of an ordered list: between the two numbers next to its place,
/// as far as the place is between them, rounded. Zero of an empty list.
pub open spec fn percentile_of(s: Seq<i64>, pct: nat) -> int {
    if s.len() == 0 {
        0
    } else if s.len() == 1 {
        s[0] as int
    } else {
        let pos = percentile_place(s.len(), pct);
        let lo = percentile_index(s.len(), pct);
        let hi = lesser(lo + 1, s.len() - 1);
        let frac = difference(pos, of_int(lo));
        nearest_int(sum(of_int(s[lo] as int), product(frac, of_int(s[hi] - s[lo]))))
    }
}

/// Whether the step between the two numbers next to a percentile's place can be
/// counted.
pub open spec fn step_fits(s: Seq<i64>, pct: nat) -> bool {
    let lo = percentile_index(s.len(), pct);
    let hi = lesser(lo + 1, s.len() - 1);
    s.len() >= 2 ==> i64::MIN <= s[hi] - s[lo] <= i64::MAX
}

/// Whether the place of a percentile is in the list.
pub open spec fn has_place(s: Seq<i64>, pct: nat) -> bool {
    pct <= 100 || s.len() < 2 || truncated(percentile_place(s.len(), pct)) < s.len()
}

/// Whether every percentile of a spread can be computed.
pub open spec fn spread_fits(s: Seq<i64>) -> bool {
    step_fits(s, 0) && step_fits(s, 50) && step_fits(s, 95) && step_fits(s, 100)
}

/// Computes a percentile of an ordered list by linear interpolation between
/// adjacent ranks.
pub fn percentile(sorted: &[i64], pct: usize) -> (r: i64)
    requires
        has_place(sorted@, pct as nat),
        step_fits(sorted@, pct as nat),
    ensures
        r == percentile_of(sorted@, pct as nat),
{
    let len: usize = sorted.len();
    if len == 0 {
        return 0;
    }
    if len == 1 {
        return sorted[0];
    }
    let pos = Double::of_u64(pct as u64).over(Double::of_u64(100)).times(
        Double::of_u64((len - 1) as u64),
    );
    let place: u64 = pos.truncate();
    let lo: usize = if place < (len - 1) as u64 {
        place as usize
    } else {
        len - 1
    };
    let hi: usize = if lo + 1 < len - 1 {
        lo + 1
    } else {
        len - 1
    };
    let frac = pos.minus(Double::of_u64(lo as u64));
    assert(lo == percentile_index(len as nat, pct as nat));
    let step: i64 = sorted[hi] - sorted[lo];
    let result = Double::of_i64(sorted[lo]).plus(frac.times(Double::of_i64(step)));
    result.round()
}

/// The spread of some samples, in any order.
pub open spec fn spread(samples: Seq<i64>) -> Distribution {
    let s = ascending(samples);
    Distribution {
        samples: s.len() as i64,
        min_ms: percentile_of(s, 0) as i64,
        p50_ms: percentile_of(s, 50) as i64,
        p95_ms: percentile_of(s, 95) as i64,
        max_ms: percentile_of(s, 100) as i64,
    }
}

/// Computes the spread of some samples.
pub fn distribution(samples: &[i64]) -> (r: Distribution)
    requires
        spread_fits(ascending(samples@)),
        samples@.len() <= i64::MAX,
    ensures
        r == spread(samples@),
{
    let sorted = sort_samples(samples);
    proof {
        ascending_is_ordered(samples@);
    }
    Distribution {
        samples: sorted.len() as i64,
        min_ms: percentile(&sorted, 0),
        p50_ms: percentile(&sorted, 50),
        p95_ms: percentile(&sorted, 95),
        max_ms: percentile(&sorted, 100),
    }
}

/// The percentiles of samples that are not negative can be computed.
pub proof fn times_fit(s: Seq<i64>)
    requires
        forall|i: int| 0 <= i < s.len() ==> #[trigger] s[i] >= 0,
    ensures
        spread_fits(s),
{
    assert forall|pct: nat| step_fits(s, pct) by {
        if s.len() >= 2 {
            let lo = percentile_index(s.len(), pct);
            let hi = lesser(lo + 1, s.len() - 1);
            assert(s[lo] >= 0);
            assert(s[hi] >= 0);
        }
    }
}

/// The result of a benchmark.
#[derive(Debug)]
pub struct BenchResult {
    pub elapsed_ms: i64,
    pub kv: Vec<KvPair>,
    pub distribution: Option<Distribution>,
    pub hotpath: Option<HotpathData>,
}

/// Keeps the result with the smaller elapsed time, the current one on a tie.
pub fn pick_best(current: Option<BenchResult>, candidate: BenchResult) -> (r: BenchResult)
    ensures
        r == match current {
            Some(best) => if best.elapsed_ms <= candidate.elapsed_ms {
                best
            } else {
                candidate
            },
            None => candidate,
        },
{
    match current {
        Some(best) => if best.elapsed_ms <= candidate.elapsed_ms {
            best
        } else {
            candidate
        },
        None => candidate,
    }
}

} // verus!
