//! What holds of the middle of a spread.

use crate::harness::percentiles::is_scale;
use crate::harness::stats::{
    ascending, ascending_is_ordered, lesser, percentile_index, percentile_of, percentile_place,
    spread,
};
use crate::number::arith::{
    den, difference, nearest_int, num, of_int, product, quotient, sum, truncated,
};
use crate::number::double::Real;
use crate::number::exact::{
    factors_positive, integers_are_finite, is_worth, nearest_to_exact, whole_numbers_are_exact,
};
use crate::number::whole::{
    difference_is_exact, halves_are_exact, is_half_of, nothing_is_worth_nothing, product_is_exact,
    quotient_is_rounded_once, rounded_by_value, size_of,
};
use vstd::prelude::*;

verus! {

/// Half of an integer is rounded to the nearest one, away from zero where two are
/// equally near.
pub proof fn nearest_of_half(x: Real, k: int)
    requires
        is_half_of(x, k),
        size_of(k) <= 0x20_0000_0000_0000,
    ensures
        k >= 0 ==> nearest_int(x) == (k + 1) / 2,
        k < 0 ==> nearest_int(x) == -((-k + 1) / 2),
{
    match x {
        Real::Fin(s, m, e) => {
            factors_positive(e);
            let d = den(e) as int;
            let n = size_of(k) as int;
            let q = (n + 1) / 2;
            let r = (n + 1) % 2;
            assert(num(m, e) * 2 + d == (d * 2) * q + r * d) by (nonlinear_arith)
                requires
                    2 * num(m, e) == n * d,
                    n + 1 == 2 * q + r,
            ;
            assert(0 <= r * d < d * 2) by (nonlinear_arith)
                requires
                    0 <= r < 2,
                    d > 0,
            ;
            vstd::arithmetic::div_mod::lemma_fundamental_div_mod_converse(
                num(m, e) * 2 + d,
                d * 2,
                q,
                r * d,
            );
        },
        _ => {},
    }
}

proof fn fifty_is_half()
    ensures
        is_half_of(quotient(of_int(50), of_int(100)), 1),
{
    whole_numbers_are_exact(50);
    whole_numbers_are_exact(100);
    quotient_is_rounded_once(of_int(50), 50, of_int(100), 100);
    rounded_by_value(false, 1, 2, 50);
    halves_are_exact(1);
}

proof fn half_of_whole(x: Real, y: Real, k: nat)
    requires
        is_half_of(x, 1),
        is_worth(y, k as int),
        0 < k <= 0x20_0000_0000_0000,
    ensures
        is_half_of(product(x, y), k as int),
{
    match (x, y) {
        (Real::Fin(s, m, e), Real::Fin(t, n, f)) => {
            factors_positive(e);
            factors_positive(f);
            let (a, b) = (num(m, e), num(n, f));
            let (da, db) = (den(e), den(f));
            let p = a * db;
            assert(p > 0) by (nonlinear_arith)
                requires
                    2 * a == 1 * da,
                    da > 0,
                    db > 0,
                    p == a * db,
            ;
            assert(a * b == k * p) by (nonlinear_arith)
                requires
                    b == k * db,
                    p == a * db,
            ;
            assert(da * db == 2 * p) by (nonlinear_arith)
                requires
                    2 * a == 1 * da,
                    p == a * db,
            ;
            rounded_by_value(s != t, k, 2, p);
            assert(2 * p == p * 2);
            halves_are_exact(k);
        },
        _ => {},
    }
}

proof fn whole_of_half(x: Real, k: nat)
    requires
        is_half_of(x, k as int),
        k < 0x20_0000_0000_0000,
        x matches Real::Fin(s, _, _) && !s,
    ensures
        truncated(x) == k / 2,
{
    match x {
        Real::Fin(s, m, e) => {
            factors_positive(e);
            let d = den(e) as int;
            let (q, r) = (k as int / 2, k as int % 2);
            let n = num(m, e) as int;
            let rest = n - q * d;
            assert(2 * rest == r * d) by (nonlinear_arith)
                requires
                    2 * n == k * d,
                    k == 2 * q + r,
                    rest == n - q * d,
            ;
            assert(0 <= rest < d) by (nonlinear_arith)
                requires
                    2 * rest == r * d,
                    0 <= r < 2,
                    d > 0,
            ;
            assert(n == d * q + rest) by (nonlinear_arith)
                requires
                    rest == n - q * d,
            ;
            vstd::arithmetic::div_mod::lemma_fundamental_div_mod_converse(n, d, q, rest);
        },
        _ => {},
    }
}

/// The middle of an odd number of numbers in order is the one in the middle.
pub proof fn middle_of_an_odd_number(s: Seq<i64>)
    requires
        is_scale(s),
        s.len() % 2 == 1,
    ensures
        percentile_of(s, 50) == s[s.len() as int / 2],
{
    if s.len() > 1 {
        let k = (s.len() - 1) as nat;
        let lo = k as int / 2;
        whole_numbers_are_exact(k as int);
        fifty_is_half();
        let pos = percentile_place(s.len(), 50);
        half_of_whole(quotient(of_int(50), of_int(100)), of_int(k as int), k);
        integers_are_finite(k as int);
        whole_of_half(pos, k);
        let hi = lesser(lo + 1, s.len() - 1);
        whole_numbers_are_exact(lo);
        integers_are_finite(lo);
        assert(is_worth(pos, lo)) by {
            match pos {
                Real::Fin(_, m, e) => {
                    let (a, d) = (num(m, e), den(e));
                    assert(a == lo * d) by (nonlinear_arith)
                        requires
                            2 * a == k * d,
                            k == 2 * lo,
                    ;
                },
                _ => {},
            }
        }
        difference_is_exact(pos, lo, of_int(lo), lo);
        let frac = difference(pos, of_int(lo));
        assert(s[lo] <= s[hi]);
        let step = s[hi] - s[lo];
        assert(is_worth(of_int(s[lo + 1] - s[lo]), s[lo + 1] - s[lo]));
        product_is_exact(frac, 0, of_int(step), step);
        let t = product(frac, of_int(step));
        assert(0 * step == 0);
        let a = s[lo] as int;
        assert(is_worth(of_int(s[lo] as int), a));
        added_nothing(of_int(a), a, t);
        nearest_to_exact(sum(of_int(a), t), a);
    }
}

proof fn added_nothing(x: Real, a: int, t: Real)
    requires
        is_worth(x, a),
        x == of_int(a),
        -0x8000_0000_0000_0000 <= a < 0x8000_0000_0000_0000,
        is_worth(t, 0),
    ensures
        is_worth(sum(x, t), a),
{
    integers_are_finite(a);
    match (x, t) {
        (Real::Fin(s, m, e), Real::Fin(u, n, f)) => {
            factors_positive(e);
            factors_positive(f);
            let (p, q) = (num(m, e) * den(f), num(n, f) * den(e));
            assert(q == 0) by (nonlinear_arith)
                requires
                    num(n, f) == 0 * den(f),
                    q == num(n, f) * den(e),
            ;
            let d = den(e) * den(f);
            assert(d > 0) by (nonlinear_arith)
                requires
                    den(e) > 0,
                    den(f) > 0,
                    d == den(e) * den(f),
            ;
            assert(p * den(e) == num(m, e) * d) by (nonlinear_arith)
                requires
                    p == num(m, e) * den(f),
                    d == den(e) * den(f),
            ;
            assert(num(m, e) * d == m * crate::number::double::up(e) * d);
            crate::number::exact::rounds_to(s, p, d, m, e);
            nothing_is_worth_nothing();
            if p == 0 {
                assert(a == 0) by (nonlinear_arith)
                    requires
                        p == 0,
                        p == num(m, e) * den(f),
                        num(m, e) == size_of(a) * den(e),
                        den(e) > 0,
                        den(f) > 0,
                        size_of(a) == 0 ==> a == 0,
                ;
            }
            assert((p - 0) as nat == p && p + 0 == p);
        },
        _ => {},
    }
}

proof fn place_between_two(n: nat)
    requires
        0 < n <= 0x20_0000_0000_0000,
        n % 2 == 0,
    ensures
        truncated(percentile_place(n, 50)) == (n - 1) / 2,
        is_half_of(difference(percentile_place(n, 50), of_int((n - 1) / 2)), 1),
{
    let k = (n - 1) as nat;
    let lo = k as int / 2;
    whole_numbers_are_exact(k as int);
    fifty_is_half();
    let pos = percentile_place(n, 50);
    half_of_whole(quotient(of_int(50), of_int(100)), of_int(k as int), k);
    integers_are_finite(k as int);
    whole_of_half(pos, k);
    whole_numbers_are_exact(lo);
    integers_are_finite(lo);
    half_less_whole(pos, k, of_int(lo), lo);
}

proof fn value_between_two(frac: Real, a: int, step: int)
    requires
        is_half_of(frac, 1),
        -0x4_0000_0000_0000 <= a <= 0x4_0000_0000_0000,
        0 <= step <= 0x8_0000_0000_0000,
    ensures
        ({
            let both = 2 * a + step;
            let at = nearest_int(sum(of_int(a), product(frac, of_int(step))));
            &&& both >= 0 ==> at == (both + 1) / 2
            &&& both < 0 ==> at == -((-both + 1) / 2)
        }),
{
    whole_numbers_are_exact(step);
    whole_numbers_are_exact(a);
    let t = product(frac, of_int(step));
    if step == 0 {
        nothing_of_step(frac, of_int(step));
        added_nothing(of_int(a), a, t);
        nearest_to_exact(sum(of_int(a), t), a);
    } else {
        half_of_whole(frac, of_int(step), step as nat);
        whole_and_half(of_int(a), a, t, step);
        nearest_of_half(sum(of_int(a), t), 2 * a + step);
    }
}

proof fn percentile_between_two(s: Seq<i64>, lo: int)
    requires
        0 < s.len() <= 0x20_0000_0000_0000,
        s.len() == 2 * lo + 2,
        s[lo] <= s[lo + 1],
        -0x4_0000_0000_0000 <= s[lo],
        s[lo + 1] <= 0x4_0000_0000_0000,
    ensures
        s[lo] + s[lo + 1] >= 0 ==> percentile_of(s, 50) == (s[lo] + s[lo + 1] + 1) / 2,
        s[lo] + s[lo + 1] < 0 ==> percentile_of(s, 50) == -((-(s[lo] + s[lo + 1]) + 1) / 2),
{
    place_between_two(s.len());
    let frac = difference(percentile_place(s.len(), 50), of_int(lo));
    assert(percentile_index(s.len(), 50) == lo);
    assert(lesser(lo + 1, s.len() - 1) == lo + 1);
    value_between_two(frac, s[lo] as int, s[lo + 1] - s[lo]);
}

/// The middle of an even number of numbers in order is the middle between the two
/// in the middle, rounded away from zero.
pub proof fn middle_of_an_even_number(s: Seq<i64>)
    requires
        is_scale(s),
        s.len() % 2 == 0,
        forall|i: int| 0 <= i < s.len() ==> -0x4_0000_0000_0000 <= #[trigger] s[i] <= 0x4_0000_0000_0000,
    ensures
        ({
            let k = s.len() as int / 2;
            let both = s[k - 1] + s[k];
            &&& both >= 0 ==> percentile_of(s, 50) == (both + 1) / 2
            &&& both < 0 ==> percentile_of(s, 50) == -((-both + 1) / 2)
        }),
{
    let k = s.len() as int / 2;
    assert(s[k - 1] <= s[k]);
    percentile_between_two(s, k - 1);
}

proof fn half_less_whole(x: Real, k: nat, y: Real, lo: int)
    requires
        is_half_of(x, k as int),
        is_worth(y, lo),
        k == 2 * lo + 1,
        0 <= lo <= 0x10_0000_0000_0000,
    ensures
        is_half_of(difference(x, y), 1),
{
    let z = crate::number::arith::negated(y);
    assert(is_worth(z, -lo));
    sum_of_halves(x, k as int, z, -2 * lo);
}

proof fn sum_of_halves(x: Real, a: int, y: Real, b: int)
    requires
        is_half_of(x, a),
        b % 2 == 0,
        is_worth(y, b / 2),
        a + b != 0,
        size_of(a + b) <= 0x20_0000_0000_0000,
    ensures
        is_half_of(sum(x, y), a + b),
{
    match (x, y) {
        (Real::Fin(s, m, e), Real::Fin(t, n, f)) => {
            factors_positive(e);
            factors_positive(f);
            let (ka, kb) = (size_of(a), size_of(b));
            assert(size_of(b / 2) * 2 == kb);
            let (de, df) = (den(e), den(f));
            let d = de * df;
            let p = num(m, e) * df;
            let q = num(n, f) * de;
            assert(d > 0) by (nonlinear_arith)
                requires
                    de > 0,
                    df > 0,
                    d == de * df,
            ;
            assert(2 * p == ka * d) by (nonlinear_arith)
                requires
                    2 * num(m, e) == ka * de,
                    p == num(m, e) * df,
                    d == de * df,
            ;
            assert(2 * q == kb * d) by (nonlinear_arith)
                requires
                    num(n, f) == size_of(b / 2) * df,
                    size_of(b / 2) * 2 == kb,
                    q == num(n, f) * de,
                    d == de * df,
            ;
            halves_summed(ka, kb, p, q, d);
            if s == t {
                crate::number::whole::half_of_sum(s, ka + kb, p + q, d);
            } else if p > q {
                crate::number::whole::half_of_sum(s, (ka - kb) as nat, (p - q) as nat, d);
            } else if q > p {
                crate::number::whole::half_of_sum(t, (kb - ka) as nat, (q - p) as nat, d);
            }
        },
        _ => {},
    }
}

proof fn halves_summed(ka: nat, kb: nat, p: nat, q: nat, d: nat)
    requires
        2 * p == ka * d,
        2 * q == kb * d,
        d > 0,
    ensures
        2 * (p + q) == (ka + kb) * d,
        2 * (p - q) == (ka - kb) * d,
        2 * (q - p) == (kb - ka) * d,
        p > q <==> ka > kb,
        q > p <==> kb > ka,
{
    assert(2 * (p + q) == (ka + kb) * d) by (nonlinear_arith)
        requires
            2 * p == ka * d,
            2 * q == kb * d,
    ;
    assert(2 * (p - q) == (ka - kb) * d) by (nonlinear_arith)
        requires
            2 * p == ka * d,
            2 * q == kb * d,
    ;
    assert(2 * (q - p) == (kb - ka) * d) by (nonlinear_arith)
        requires
            2 * p == ka * d,
            2 * q == kb * d,
    ;
    assert(p > q <==> ka > kb) by (nonlinear_arith)
        requires
            2 * (p - q) == (ka - kb) * d,
            d > 0,
    ;
    assert(q > p <==> kb > ka) by (nonlinear_arith)
        requires
            2 * (p - q) == (ka - kb) * d,
            d > 0,
    ;
}

proof fn whole_and_half(x: Real, a: int, t: Real, step: int)
    requires
        is_worth(x, a),
        is_half_of(t, step),
        0 < step,
        -0x4_0000_0000_0000 <= a <= 0x4_0000_0000_0000,
        step <= 0x8_0000_0000_0000,
    ensures
        is_half_of(sum(x, t), 2 * a + step),
{
    if 2 * a + step != 0 {
        sum_of_halves(t, step, x, 2 * a);
        sum_swaps(x, t);
    } else {
        cancels(x, a, t, step);
    }
}

proof fn sum_swaps(x: Real, y: Real)
    requires
        x is Fin,
        y is Fin,
    ensures
        sum(x, y) == sum(y, x),
{
    match (x, y) {
        (Real::Fin(s, m, e), Real::Fin(t, n, f)) => {
            assert(den(e) * den(f) == den(f) * den(e)) by (nonlinear_arith);
        },
        _ => {},
    }
}

proof fn cancels(x: Real, a: int, t: Real, step: int)
    requires
        is_worth(x, a),
        is_half_of(t, step),
        0 < step,
        2 * a + step == 0,
    ensures
        is_half_of(sum(x, t), 0),
{
    nothing_is_worth_nothing();
    match (x, t) {
        (Real::Fin(s, m, e), Real::Fin(u, n, f)) => {
            factors_positive(e);
            factors_positive(f);
            let (de, df) = (den(e), den(f));
            let p = num(m, e) * df;
            let q = num(n, f) * de;
            assert(p == q) by (nonlinear_arith)
                requires
                    num(m, e) == size_of(a) * de,
                    2 * num(n, f) == step * df,
                    2 * size_of(a) == step,
                    p == num(m, e) * df,
                    q == num(n, f) * de,
            ;
        },
        _ => {},
    }
}

proof fn nothing_of_step(x: Real, y: Real)
    requires
        is_half_of(x, 1),
        is_worth(y, 0),
    ensures
        is_worth(product(x, y), 0),
{
    match (x, y) {
        (Real::Fin(s, m, e), Real::Fin(t, n, f)) => {
            factors_positive(e);
            factors_positive(f);
            let d = den(e) * den(f);
            assert(d > 0) by (nonlinear_arith)
                requires
                    den(e) > 0,
                    den(f) > 0,
                    d == den(e) * den(f),
            ;
            assert(num(n, f) == 0);
            assert(num(m, e) * num(n, f) == 0) by (nonlinear_arith)
                requires
                    num(n, f) == 0,
            ;
            crate::number::whole::whole_rounded(s != t, 0, d);
            assert(0 * d == 0);
        },
        _ => {},
    }
}

/// The spread of some samples: how many they are, the least, the middle, the 95th
/// percentile and the greatest of them in order, each under its name.
pub proof fn spread_tells_each_figure(samples: Seq<i64>)
    requires
        samples.len() <= i64::MAX,
        is_scale(ascending(samples)),
    ensures
        spread(samples).samples == samples.len(),
        spread(samples).min_ms == ascending(samples)[0],
        spread(samples).max_ms == ascending(samples).last(),
        spread(samples).p50_ms == percentile_of(ascending(samples), 50),
        spread(samples).p95_ms == percentile_of(ascending(samples), 95),
        spread(samples).min_ms <= spread(samples).p50_ms <= spread(samples).p95_ms <= spread(
            samples,
        ).max_ms,
        samples.len() % 2 == 1 ==> spread(samples).p50_ms == ascending(
            samples,
        )[samples.len() as int / 2],
{
    let s = ascending(samples);
    ascending_is_ordered(samples);
    crate::harness::percentiles::percentiles_ascend(s, 50, 95);
    crate::harness::percentiles::percentiles_ascend(s, 0, 50);
    crate::harness::percentiles::percentiles_ascend(s, 95, 100);
    if samples.len() % 2 == 1 {
        middle_of_an_odd_number(s);
    }
}

} // verus!
