//! What holds of the summary of times.

use crate::commands::timing::{
    capped_sum, millis_of, ordered, ordered_rises, p95_place, placed, rises, same_members, stats_of,
};
use vstd::prelude::*;

verus! {

proof fn placed_counts(s: Seq<u64>, x: u64, f: spec_fn(u64) -> bool)
    ensures
        placed(s, x).filter(f).len() == s.filter(f).len() + if f(x) { 1nat } else { 0nat },
    decreases s.len(),
{
    reveal(Seq::filter);
    if s.len() == 0 || s.last() <= x {
        assert(s.push(x).drop_last() =~= s);
    } else {
        let front = s.drop_last();
        placed_counts(front, x, f);
        assert(placed(front, x).push(s.last()).drop_last() =~= placed(front, x));
    }
}

/// Ordering times does not change how many there are of any kind.
proof fn ordered_counts(s: Seq<u64>, f: spec_fn(u64) -> bool)
    ensures
        ordered(s).filter(f).len() == s.filter(f).len(),
    decreases s.len(),
{
    reveal(Seq::filter);
    if s.len() > 0 {
        ordered_counts(s.drop_last(), f);
        placed_counts(ordered(s.drop_last()), s.last(), f);
    }
}

/// A stretch that is all of a kind is counted whole.
proof fn stretch_counts(s: Seq<u64>, f: spec_fn(u64) -> bool, a: int, b: int)
    requires
        0 <= a <= b <= s.len(),
        forall|i: int| a <= i < b ==> f(#[trigger] s[i]),
    ensures
        s.filter(f).len() >= b - a,
    decreases s.len(),
{
    reveal(Seq::filter);
    if s.len() > 0 {
        let front = s.drop_last();
        if b < s.len() {
            assert forall|i: int| a <= i < b implies f(#[trigger] front[i]) by {
                assert(front[i] == s[i]);
            }
            stretch_counts(front, f, a, b);
        } else if a < b {
            assert forall|i: int| a <= i < b - 1 implies f(#[trigger] front[i]) by {
                assert(front[i] == s[i]);
            }
            assert(f(s[s.len() - 1]));
            stretch_counts(front, f, a, b - 1);
        }
    }
}

/// No more are counted than stand in the stretch that holds the kind.
proof fn stretch_bounds(s: Seq<u64>, f: spec_fn(u64) -> bool, b: int)
    requires
        0 <= b <= s.len(),
        forall|i: int| b <= i < s.len() ==> !f(#[trigger] s[i]),
    ensures
        s.filter(f).len() <= b,
    decreases s.len(),
{
    reveal(Seq::filter);
    if s.len() > 0 {
        let front = s.drop_last();
        if b < s.len() {
            assert(!f(s[s.len() - 1]));
            assert forall|i: int| b <= i < front.len() implies !f(#[trigger] front[i]) by {
                assert(front[i] == s[i]);
            }
            stretch_bounds(front, f, b);
        } else {
            s.lemma_filter_len(f);
        }
    }
}

proof fn is_a_sample(samples: Seq<u64>, k: int)
    requires
        0 <= k < samples.len(),
    ensures
        samples.contains(ordered(samples)[k]),
{
    ordered_rises(samples);
    same_members(samples, ordered(samples), k);
}

proof fn sides_of(samples: Seq<u64>, k: int)
    requires
        0 <= k < samples.len(),
    ensures
        samples.filter(|x: u64| x <= ordered(samples)[k]).len() >= k + 1,
        samples.filter(|x: u64| x >= ordered(samples)[k]).len() >= samples.len() - k,
        samples.filter(|x: u64| x < ordered(samples)[k]).len() <= k,
{
    let s = ordered(samples);
    ordered_rises(samples);
    let below = |x: u64| x <= s[k];
    let above = |x: u64| x >= s[k];
    let under = |x: u64| x < s[k];
    ordered_counts(samples, below);
    ordered_counts(samples, above);
    ordered_counts(samples, under);
    stretch_counts(s, below, 0, k + 1);
    stretch_counts(s, above, k, s.len() as int);
    stretch_bounds(s, under, k);
}

/// The least time is one of the times, and none is less.
pub proof fn least_is_least(samples: Seq<u64>)
    requires
        samples.len() > 0,
    ensures
        samples.contains(stats_of(samples).min_ms),
        forall|i: int| 0 <= i < samples.len() ==> stats_of(samples).min_ms <= #[trigger] samples[i],
{
    is_a_sample(samples, 0);
    crate::commands::timing::stats_lie_within(samples);
}

/// The middle of an odd number of times is one of them, and at least half of the
/// times, itself among them, stand on either side of it.
pub proof fn median_parts_an_odd_number(samples: Seq<u64>)
    requires
        samples.len() % 2 == 1,
    ensures
        samples.contains(stats_of(samples).median_ms),
        2 * samples.filter(|x: u64| x <= stats_of(samples).median_ms).len() >= samples.len() + 1,
        2 * samples.filter(|x: u64| x >= stats_of(samples).median_ms).len() >= samples.len() + 1,
{
    let k = samples.len() as int / 2;
    ordered_rises(samples);
    is_a_sample(samples, k);
    sides_of(samples, k);
    assert(stats_of(samples).median_ms == ordered(samples)[k]);
}

/// The middle of an even number of times is the middle between two of them, with
/// half of the times up to the one and half of them from the other on; their sum
/// stops at the largest number.
pub proof fn median_parts_an_even_number(samples: Seq<u64>) -> (r: (u64, u64))
    requires
        samples.len() > 0,
        samples.len() % 2 == 0,
    ensures
        samples.contains(r.0) && samples.contains(r.1) && r.0 <= r.1,
        2 * samples.filter(|x: u64| x <= r.0).len() >= samples.len(),
        2 * samples.filter(|x: u64| x >= r.1).len() >= samples.len(),
        r.0 + r.1 <= u64::MAX ==> 2 * stats_of(samples).median_ms <= r.0 + r.1 <= 2 * stats_of(
            samples,
        ).median_ms + 1,
        r.0 + r.1 > u64::MAX ==> stats_of(samples).median_ms == u64::MAX / 2,
{
    let k = samples.len() as int / 2;
    let s = ordered(samples);
    ordered_rises(samples);
    is_a_sample(samples, k - 1);
    is_a_sample(samples, k);
    sides_of(samples, k - 1);
    sides_of(samples, k);
    assert(s[k - 1] <= s[k]);
    (s[k - 1], s[k])
}

/// The 95th percentile is one of the times; at least 95 of a hundred do not exceed
/// it, and fewer than that stay below it.
pub proof fn ninety_five_of_a_hundred(samples: Seq<u64>)
    requires
        samples.len() > 0,
    ensures
        samples.contains(stats_of(samples).p95_ms),
        100 * samples.filter(|x: u64| x <= stats_of(samples).p95_ms).len() >= 95 * samples.len(),
        100 * samples.filter(|x: u64| x < stats_of(samples).p95_ms).len() < 95 * samples.len(),
{
    ordered_rises(samples);
    let k = p95_place(samples.len());
    is_a_sample(samples, k);
    sides_of(samples, k);
    assert(stats_of(samples).p95_ms == ordered(samples)[k]);
}

/// What is told of the times does not depend on the order of the runs.
pub proof fn order_of_runs_does_not_matter(a: Seq<u64>, b: Seq<u64>)
    requires
        a.to_multiset() == b.to_multiset(),
    ensures
        stats_of(a) == stats_of(b),
{
    ordered_rises(a);
    ordered_rises(b);
    rising_is_unique(ordered(a), ordered(b));
}

proof fn rising_is_unique(a: Seq<u64>, b: Seq<u64>)
    requires
        rises(a),
        rises(b),
        a.to_multiset() =~= b.to_multiset(),
    ensures
        a == b,
    decreases a.len(),
{
    broadcast use vstd::seq_lib::group_to_multiset_ensures;

    a.to_multiset_ensures();
    b.to_multiset_ensures();
    assert(a.len() == b.len());
    if a.len() > 0 {
        let n = a.len() - 1;
        same_members(a, b, n);
        same_members(b, a, n);
        let i = choose|i: int| 0 <= i < a.len() && a[i] == b[n];
        let j = choose|j: int| 0 <= j < b.len() && b[j] == a[n];
        assert(a[i] <= a[n] && b[j] <= b[n]);
        let (c, d) = (a.drop_last(), b.drop_last());
        assert(a =~= c.push(a[n]));
        assert(b =~= d.push(b[n]));
        assert(c.to_multiset() =~= a.to_multiset().remove(a[n]));
        assert(d.to_multiset() =~= b.to_multiset().remove(b[n]));
        rising_is_unique(c, d);
    } else {
        assert(a =~= b);
    }
}

/// A time in milliseconds holds no more than the time, and less than one
/// millisecond less; but a time of less than one counts as one.
pub proof fn millis_are_rounded_down(nanos: nat)
    ensures
        nanos >= 1_000_000 && nanos < 1_000_000 * (u64::MAX + 1) ==> millis_of(nanos) * 1_000_000
            <= nanos < (millis_of(nanos) + 1) * 1_000_000,
        0 < nanos < 1_000_000 ==> millis_of(nanos) == 1,
        millis_of(0) == 0,
        nanos >= 1_000_000 * (u64::MAX + 1) ==> millis_of(nanos) == u64::MAX,
{
}

/// A longer time is no fewer milliseconds.
pub proof fn millis_grow(a: nat, b: nat)
    requires
        a <= b,
    ensures
        millis_of(a) <= millis_of(b),
{
}

/// The time that has passed is the sum of its parts as far as it can be counted.
pub proof fn elapsed_is_the_sum(a: nat, b: nat)
    ensures
        a + b <= u64::MAX ==> capped_sum(a, b) == a + b,
        a + b > u64::MAX ==> capped_sum(a, b) == u64::MAX,
{
}

} // verus!
