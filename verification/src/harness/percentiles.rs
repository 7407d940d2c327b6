//! What holds of percentiles.

use crate::harness::stats::{
    is_ascending, lesser, percentile_index, percentile_of, percentile_place,
};
use crate::number::arith::{
    den, difference, nearest_int, negated, num, of_int, product, quotient, sum, zero,
};
use crate::number::double::{down, least, p2_52, up, Real};
use crate::number::exact::{
    canonical, factors_positive, integers_are_finite, is_worth, less_itself, nearest_to_exact, nothing_over,
    nothing_times, one_times, over_itself, plus_nothing, rounded_at_least, rounded_at_most, whole_numbers_are_exact,
    whole_of_exact,
};
use crate::number::order::{
    at_most, difference_keeps_order, nearest_keeps_order, product_keeps_order,
    rounding_keeps_order, sum_keeps_order,
};
use vstd::prelude::*;

verus! {

/// The percentile in place `lo`, with nothing beyond it, is the number there.
proof fn percentile_at(s: Seq<i64>, pct: nat, lo: int)
    requires
        s.len() > 1,
        0 <= lo < s.len() <= 0x20_0000_0000_0000,
        percentile_place(s.len(), pct) == of_int(lo),
        is_worth(of_int(s[lo] as int), s[lo] as int),
    ensures
        percentile_of(s, pct) == s[lo],
{
    whole_numbers_are_exact(lo);
    integers_are_finite(lo);
    whole_of_exact(of_int(lo), lo);
    let hi = lesser(lo + 1, s.len() - 1);
    less_itself(of_int(lo));
    let step = s[hi] - s[lo];
    integers_are_finite(step);
    nothing_times(of_int(step));
    let a = s[lo] as int;
    integers_are_finite(a);
    let t = of_int(step)->Fin_0;
    plus_nothing(of_int(a), t);
    if of_int(a)->Fin_1 == 0 && of_int(a)->Fin_0 != t {
        let e = of_int(a)->Fin_2;
        factors_positive(e);
        assert(a == 0) by (nonlinear_arith)
            requires
                (if a < 0 {
                    -a
                } else {
                    a
                }) * den(e) == 0,
                den(e) > 0,
        ;
        assert(0 * up(least()) == 0);
        assert(0 * den(least()) == 0);
        assert(is_worth(zero(false), 0));
        nearest_to_exact(zero(false), 0);
    } else {
        nearest_to_exact(of_int(a), a);
    }
}

/// The least number is the percentile of nothing, and the greatest that of all,
/// as far as they are numbers in double precision.
pub proof fn percentile_ends(s: Seq<i64>)
    requires
        0 < s.len() <= 0x20_0000_0000_0000,
        is_worth(of_int(s[0] as int), s[0] as int),
        is_worth(of_int(s.last() as int), s.last() as int),
    ensures
        percentile_of(s, 0) == s[0],
        percentile_of(s, 100) == s.last(),
{
    if s.len() > 1 {
        let last = s.len() - 1;
        integers_are_finite(last);
        nothing_over(100);
        nothing_times(of_int(last));
        percentile_at(s, 0, 0);
        over_itself(100);
        one_times(of_int(last));
        percentile_at(s, 100, last);
    }
}

/// Whether a finite number is not negative and at most the integer.
spec fn up_to(x: Real, n: int) -> bool {
    match x {
        Real::Fin(s, m, e) => !s && canonical(m, e) && num(m, e) <= n * den(e),
        _ => false,
    }
}

proof fn cancel_den(a: nat, b: int, c: nat, d: nat)
    requires
        a * c <= (b * c) * d,
        c > 0,
    ensures
        a <= b * d,
{
    let y = b * d;
    assert((b * c) * d == y * c) by (nonlinear_arith)
        requires
            y == b * d,
    ;
    assert(a <= y) by (nonlinear_arith)
        requires
            a * c <= y * c,
            c > 0,
    ;
}

/// A fraction that is at most an integer is rounded to at most the integer.
proof fn rounded_up_to(n: nat, d: nat, k: int)
    requires
        d > 0,
        0 <= k < 0x1_0000_0000_0000_0000,
        is_worth(of_int(k), k),
        n <= k * d,
    ensures
        up_to(crate::number::double::rounded(false, n, d), k),
{
    integers_are_finite(k);
    match of_int(k) {
        Real::Fin(s, m, e) => {
            factors_positive(e);
            assert(n * down(e) <= (k * d) * down(e)) by (nonlinear_arith)
                requires
                    n <= k * d,
            ;
            assert((k * d) * down(e) == m * up(e) * d) by (nonlinear_arith)
                requires
                    m * up(e) == k * down(e),
            ;
            rounded_at_most(false, n, d, m, e);
            match crate::number::double::rounded(false, n, d) {
                Real::Fin(t, q, f) => {
                    cancel_den(num(q, f), k, den(e), den(f));
                },
                _ => {},
            }
        },
        _ => {},
    }
}

proof fn multiply_up_to(a: nat, da: nat, ka: int, b: nat, db: nat, kb: int)
    requires
        a <= ka * da,
        b <= kb * db,
        ka >= 0,
        kb >= 0,
    ensures
        a * b <= (ka * kb) * (da * db),
{
    let x = ka * da;
    let y = kb * db;
    assert(a * b <= x * y) by (nonlinear_arith)
        requires
            a <= x,
            b <= y,
            a >= 0,
            b >= 0,
    ;
    assert((ka * da) * (kb * db) == (ka * kb) * (da * db)) by (nonlinear_arith);
}

proof fn product_up_to(x: Real, n: int)
    requires
        up_to(x, 1),
        0 <= n < 0x1_0000_0000_0000_0000,
        is_worth(of_int(n), n),
    ensures
        up_to(product(x, of_int(n)), n),
{
    integers_are_finite(n);
    match (x, of_int(n)) {
        (Real::Fin(s, m, e), Real::Fin(t, q, f)) => {
            factors_positive(e);
            factors_positive(f);
            assert(den(e) * den(f) > 0) by (nonlinear_arith)
                requires
                    den(e) > 0,
                    den(f) > 0,
            ;
            multiply_up_to(num(m, e), den(e), 1, num(q, f), den(f), n);
            assert(1 * n == n);
            rounded_up_to(num(m, e) * num(q, f), den(e) * den(f), n);
        },
        _ => {},
    }
}

/// The share of a hundred is at most one.
proof fn share_up_to(pct: nat)
    requires
        pct <= 100,
    ensures
        up_to(quotient(of_int(pct as int), of_int(100)), 1),
{
    whole_numbers_are_exact(pct as int);
    whole_numbers_are_exact(100);
    whole_numbers_are_exact(1);
    integers_are_finite(pct as int);
    integers_are_finite(100);
    match (of_int(pct as int), of_int(100)) {
        (Real::Fin(s, m, e), Real::Fin(t, q, f)) => {
            factors_positive(e);
            factors_positive(f);
            let a = den(e);
            let b = den(f);
            assert(num(q, f) > 0) by (nonlinear_arith)
                requires
                    num(q, f) == 100 * b,
                    b > 0,
            ;
            assert(q != 0) by (nonlinear_arith)
                requires
                    num(q, f) == q * up(f),
                    num(q, f) > 0,
            ;
            let n = num(m, e) * b;
            let d = a * num(q, f);
            assert(d > 0) by (nonlinear_arith)
                requires
                    a > 0,
                    num(q, f) > 0,
                    d == a * num(q, f),
            ;
            assert(n <= 1 * d) by (nonlinear_arith)
                requires
                    n == (pct * a) * b,
                    d == a * (100 * b),
                    pct <= 100,
            ;
            rounded_up_to(n, d, 1);
        },
        _ => {},
    }
}

/// What is left of a number above its whole part is at most one.
proof fn rest_up_to(x: Real, lo: int)
    requires
        x matches Real::Fin(s, m, e) && !s && canonical(m, e) && lo * den(e) <= num(m, e) < (lo + 1)
            * den(e),
        0 <= lo <= 0x20_0000_0000_0000,
    ensures
        up_to(difference(x, of_int(lo)), 1),
{
    whole_numbers_are_exact(lo);
    whole_numbers_are_exact(1);
    integers_are_finite(lo);
    p2_52();
    match (x, of_int(lo)) {
        (Real::Fin(s, m, e), Real::Fin(t, q, f)) => {
            factors_positive(e);
            factors_positive(f);
            factors_positive(least());
            let a = den(e);
            let b = den(f);
            let p = num(m, e) * b;
            let y = num(q, f) * a;
            let d = a * b;
            assert(d > 0) by (nonlinear_arith)
                requires
                    a > 0,
                    b > 0,
                    d == a * b,
            ;
            assert(y == lo * d) by (nonlinear_arith)
                requires
                    y == (lo * b) * a,
                    d == a * b,
            ;
            assert(p >= lo * d) by (nonlinear_arith)
                requires
                    p == num(m, e) * b,
                    num(m, e) >= lo * a,
                    d == a * b,
            ;
            assert(p <= lo * d + d) by (nonlinear_arith)
                requires
                    p == num(m, e) * b,
                    num(m, e) <= (lo + 1) * a,
                    d == a * b,
            ;
            if p > y {
                assert((p - y) as nat <= 1 * d);
                rounded_up_to((p - y) as nat, d, 1);
            } else {
                assert(0 * up(least()) == 0);
                assert(num(0, least()) <= 1 * den(least()));
            }
        },
        _ => {},
    }
}

/// Whether a finite number lies between two integers.
spec fn lies_between(x: Real, a: int, b: int) -> bool {
    match x {
        Real::Fin(s, m, e) => if s {
            -b * den(e) <= num(m, e) <= -a * den(e)
        } else {
            a * den(e) <= num(m, e) <= b * den(e)
        },
        _ => false,
    }
}

proof fn nearest_magnitude(n: nat, d: nat, a: int, b: int)
    requires
        d > 0,
        a * d <= n <= b * d,
    ensures
        a <= (n * 2 + d) / (d * 2) <= b,
{
    let q = (n * 2 + d) / (d * 2);
    assert(q >= a) by (nonlinear_arith)
        requires
            d > 0,
            a * d <= n,
            q == (n * 2 + d) / (d * 2),
    ;
    assert(q <= b) by (nonlinear_arith)
        requires
            d > 0,
            n <= b * d,
            q == (n * 2 + d) / (d * 2),
    ;
}

proof fn nearest_between(x: Real, a: int, b: int)
    requires
        lies_between(x, a, b),
        i64::MIN <= a <= b <= i64::MAX,
    ensures
        a <= nearest_int(x) <= b,
{
    match x {
        Real::Fin(s, m, e) => {
            factors_positive(e);
            if s {
                nearest_magnitude(num(m, e), den(e), -b, -a);
            } else {
                nearest_magnitude(num(m, e), den(e), a, b);
            }
        },
        _ => {},
    }
}

/// A fraction between two natural numbers is rounded to between them.
proof fn rounded_between(neg: bool, n: nat, d: nat, a: int, b: int)
    requires
        d > 0,
        0 <= b < 0x1_0000_0000_0000_0000,
        a < 0x1_0000_0000_0000_0000,
        is_worth(of_int(b), b),
        a > 0 ==> is_worth(of_int(a), a),
        a * d <= n <= b * d,
    ensures
        crate::number::double::rounded(neg, n, d) matches Real::Fin(s, m, e) && s == neg && canonical(
            m,
            e,
        ) && a * den(e) <= num(m, e) <= b * den(e),
{
    integers_are_finite(b);
    match of_int(b) {
        Real::Fin(s, m, e) => {
            factors_positive(e);
            assert(n * down(e) <= (b * d) * down(e)) by (nonlinear_arith)
                requires
                    n <= b * d,
            ;
            assert((b * d) * down(e) == m * up(e) * d) by (nonlinear_arith)
                requires
                    m * up(e) == b * down(e),
            ;
            rounded_at_most(neg, n, d, m, e);
            match crate::number::double::rounded(neg, n, d) {
                Real::Fin(t, q, f) => {
                    cancel_den(num(q, f), b, den(e), den(f));
                    factors_positive(f);
                    if a > 0 {
                        lower_bound(neg, n, d, a);
                    } else {
                        assert(a * den(f) <= 0) by (nonlinear_arith)
                            requires
                                a <= 0,
                                den(f) > 0,
                        ;
                    }
                },
                _ => {},
            }
        },
        _ => {},
    }
}

proof fn lower_bound(neg: bool, n: nat, d: nat, a: int)
    requires
        d > 0,
        0 < a < 0x1_0000_0000_0000_0000,
        is_worth(of_int(a), a),
        a * d <= n,
    ensures
        crate::number::double::rounded(neg, n, d) matches Real::Fin(s, m, e) ==> a * den(e) <= num(
            m,
            e,
        ),
{
    integers_are_finite(a);
    match (of_int(a), crate::number::double::rounded(neg, n, d)) {
        (Real::Fin(s, m, e), Real::Fin(t, q, f)) => {
            factors_positive(e);
            assert(n * down(e) >= (a * d) * down(e)) by (nonlinear_arith)
                requires
                    n >= a * d,
            ;
            assert((a * d) * down(e) == m * up(e) * d) by (nonlinear_arith)
                requires
                    m * up(e) == a * down(e),
            ;
            rounded_at_least(neg, n, d, m, e);
            let x = num(q, f);
            let y = a * den(f);
            assert((a * den(e)) * den(f) == y * den(e)) by (nonlinear_arith)
                requires
                    y == a * den(f),
            ;
            assert(x >= y) by (nonlinear_arith)
                requires
                    x * den(e) >= y * den(e),
                    den(e) > 0,
            ;
        },
        _ => {},
    }
}

/// A number and at most a step more lie between the number and the next.
proof fn sum_between(a: int, t: Real, step: int)
    requires
        i64::MIN <= a <= a + step <= i64::MAX,
        step >= 0,
        is_worth(of_int(a), a),
        is_worth(of_int(a + step), a + step),
        up_to(t, step),
    ensures
        lies_between(sum(of_int(a), t), a, a + step),
{
    let b = a + step;
    integers_are_finite(a);
    match (of_int(a), t) {
        (Real::Fin(s, m, e), Real::Fin(u, q, f)) => {
            factors_positive(e);
            factors_positive(f);
            factors_positive(least());
            let da = den(e);
            let dt = den(f);
            let x = num(m, e) * dt;
            let y = num(q, f) * da;
            let d = da * dt;
            let size = if a < 0 {
                -a
            } else {
                a
            };
            assert(d > 0) by (nonlinear_arith)
                requires
                    da > 0,
                    dt > 0,
                    d == da * dt,
            ;
            assert(x == size * d) by (nonlinear_arith)
                requires
                    x == (size * da) * dt,
                    d == da * dt,
            ;
            assert(y <= step * d) by (nonlinear_arith)
                requires
                    y == num(q, f) * da,
                    num(q, f) <= step * dt,
                    d == da * dt,
            ;
            if a >= 0 {
                assert(x + y <= b * d) by (nonlinear_arith)
                    requires
                        x == a * d,
                        y <= step * d,
                        b == a + step,
                ;
                rounded_between(false, x + y, d, a, b);
            } else if x > y {
                same_magnitude(a);
                assert((x - y) as nat <= size * d);
                assert(-b * d <= x - y) by (nonlinear_arith)
                    requires
                        x == -a * d,
                        y <= step * d,
                        b == a + step,
                ;
                if b < 0 {
                    same_magnitude(b);
                }
                rounded_between(true, (x - y) as nat, d, -b, -a);
            } else if y > x {
                assert((y - x) as nat <= b * d) by (nonlinear_arith)
                    requires
                        x == -a * d,
                        y <= step * d,
                        b == a + step,
                        y > x,
                ;
                assert(b > 0) by (nonlinear_arith)
                    requires
                        y - x <= b * d,
                        y > x,
                        d > 0,
                ;
                assert(a * d <= 0) by (nonlinear_arith)
                    requires
                        a < 0,
                        d > 0,
                ;
                rounded_between(false, (y - x) as nat, d, a, b);
            } else {
                assert(b >= 0) by (nonlinear_arith)
                    requires
                        x == -a * d,
                        y <= step * d,
                        b == a + step,
                        x == y,
                        d > 0,
                ;
                let w = den(least());
                assert(a * w <= 0) by (nonlinear_arith)
                    requires
                        a < 0,
                        w > 0,
                ;
                assert(0 <= b * w) by (nonlinear_arith)
                    requires
                        b >= 0,
                        w > 0,
                ;
                assert(0 * up(least()) == 0);
            }
        },
        _ => {},
    }
}

/// A negative number is exact where its opposite is.
proof fn same_magnitude(a: int)
    requires
        i64::MIN <= a < 0,
        is_worth(of_int(a), a),
    ensures
        is_worth(of_int(-a), -a),
{
    integers_are_finite(a);
    integers_are_finite(-a);
    assert(of_int(-a) == negated(of_int(a)));
}

/// A percentile of an ordered list lies between the two numbers next to its
/// place, as far as they and the step between them are numbers in double
/// precision.
pub proof fn percentile_between(s: Seq<i64>, pct: nat)
    requires
        is_ascending(s),
        2 <= s.len() <= 0x20_0000_0000_0000,
        pct <= 100,
        ({
            let lo = percentile_index(s.len(), pct);
            let hi = lesser(lo + 1, s.len() - 1);
            &&& is_worth(of_int(s[lo] as int), s[lo] as int)
            &&& is_worth(of_int(s[hi] as int), s[hi] as int)
            &&& is_worth(of_int(s[hi] - s[lo]), s[hi] - s[lo])
        }),
    ensures
        ({
            let lo = percentile_index(s.len(), pct);
            let hi = lesser(lo + 1, s.len() - 1);
            &&& 0 <= lo <= hi < s.len()
            &&& s[lo] <= percentile_of(s, pct) <= s[hi]
        }),
{
    let last = s.len() - 1;
    let pos = percentile_place(s.len(), pct);
    place_found(s.len(), pct);
    let lo = percentile_index(s.len(), pct);
    let hi = lesser(lo + 1, last);
    rest_up_to(pos, lo);
    let frac = difference(pos, of_int(lo));
    assert(s[lo] <= s[hi]);
    let step = s[hi] - s[lo];
    product_up_to(frac, step);
    sum_between(s[lo] as int, product(frac, of_int(step)), step);
    nearest_between(
        sum(of_int(s[lo] as int), product(frac, of_int(step))),
        s[lo] as int,
        s[hi] as int,
    );
}

/// The place of a percentile: finite, not negative, at most the last index, and
/// at or above the index below it by less than one.
proof fn place_found(len: nat, pct: nat)
    requires
        2 <= len <= 0x20_0000_0000_0000,
        pct <= 100,
    ensures
        up_to(percentile_place(len, pct), len - 1),
        0 <= percentile_index(len, pct) < len,
        percentile_place(len, pct) matches Real::Fin(s, m, e) && percentile_index(len, pct) * den(e)
            <= num(m, e) < (percentile_index(len, pct) + 1) * den(e) && percentile_index(len, pct)
            == num(m, e) / den(e),
{
    let last = len - 1;
    let q = quotient(of_int(pct as int), of_int(100));
    let pos = percentile_place(len, pct);
    share_up_to(pct);
    whole_numbers_are_exact(last);
    product_up_to(q, last);
    match pos {
        Real::Fin(neg, m, e) => {
            factors_positive(e);
            let d = den(e) as int;
            let n = num(m, e) as int;
            let w = n / d;
            vstd::arithmetic::div_mod::lemma_fundamental_div_mod(n, d);
            assert(w <= last) by (nonlinear_arith)
                requires
                    n <= last * d,
                    d > 0,
                    w == n / d,
            ;
            assert(w >= 0) by (nonlinear_arith)
                requires
                    n >= 0,
                    d > 0,
                    w == n / d,
            ;
            assert(percentile_index(len, pct) == w);
            assert(w * d <= n && n < (w + 1) * d) by (nonlinear_arith)
                requires
                    n == d * w + n % d,
                    0 <= n % d < d,
            ;
        },
        _ => {},
    }
}

proof fn shares_ascend(p: nat, q: nat)
    requires
        p <= q <= 100,
    ensures
        at_most(
            quotient(of_int(p as int), of_int(100)),
            quotient(of_int(q as int), of_int(100)),
        ),
{
    whole_numbers_are_exact(p as int);
    whole_numbers_are_exact(q as int);
    whole_numbers_are_exact(100);
    integers_are_finite(p as int);
    integers_are_finite(q as int);
    integers_are_finite(100);
    share_up_to(p);
    share_up_to(q);
    match (of_int(p as int), of_int(q as int), of_int(100)) {
        (Real::Fin(_, m, e), Real::Fin(_, n, f), Real::Fin(_, k, g)) => {
            factors_positive(e);
            factors_positive(f);
            factors_positive(g);
            let (a, b, c) = (den(e), den(f), den(g));
            let h = num(k, g);
            assert(h > 0) by (nonlinear_arith)
                requires
                    h == 100 * c,
                    c > 0,
            ;
            assert(k != 0) by (nonlinear_arith)
                requires
                    h == k * up(g),
                    h > 0,
            ;
            let (n1, d1) = (num(m, e) * c, a * h);
            let (n2, d2) = (num(n, f) * c, b * h);
            assert(d1 > 0) by (nonlinear_arith)
                requires
                    a > 0,
                    h > 0,
                    d1 == a * h,
            ;
            assert(d2 > 0) by (nonlinear_arith)
                requires
                    b > 0,
                    h > 0,
                    d2 == b * h,
            ;
            let w = (a * b) * (c * h);
            assert(n1 * d2 == p * w) by (nonlinear_arith)
                requires
                    n1 == (p * a) * c,
                    d2 == b * h,
                    w == (a * b) * (c * h),
            ;
            assert(n2 * d1 == q * w) by (nonlinear_arith)
                requires
                    n2 == (q * b) * c,
                    d1 == a * h,
                    w == (a * b) * (c * h),
            ;
            assert(p * w <= q * w) by (nonlinear_arith)
                requires
                    p <= q,
                    w >= 0,
            ;
            rounding_keeps_order(false, n1, d1, n2, d2);
        },
        _ => {},
    }
}

/// An integer is at most a number that holds it.
proof fn whole_part_at_most(x: Real, lo: int)
    requires
        x matches Real::Fin(s, m, e) && !s && lo * den(e) <= num(m, e),
        0 <= lo <= 0x20_0000_0000_0000,
    ensures
        at_most(of_int(lo), x),
        of_int(lo) matches Real::Fin(s, _, _) && !s,
{
    whole_numbers_are_exact(lo);
    integers_are_finite(lo);
    match (of_int(lo), x) {
        (Real::Fin(_, q, f), Real::Fin(_, m, e)) => {
            let (a, b) = (den(e), den(f));
            assert((lo * b) * a == (lo * a) * b) by (nonlinear_arith);
            assert((lo * a) * b <= num(m, e) * b) by (nonlinear_arith)
                requires
                    lo * a <= num(m, e),
            ;
        },
        _ => {},
    }
}

proof fn index_order(x: nat, dx: nat, y: nat, dy: nat)
    requires
        dx > 0,
        dy > 0,
        x * dy <= y * dx,
    ensures
        x / dx <= y / dy,
{
    let (a, b) = (x / dx, y / dy);
    vstd::arithmetic::div_mod::lemma_fundamental_div_mod(x as int, dx as int);
    vstd::arithmetic::div_mod::lemma_fundamental_div_mod(y as int, dy as int);
    let k = dx * dy;
    assert(k > 0) by (nonlinear_arith)
        requires
            dx > 0,
            dy > 0,
            k == dx * dy,
    ;
    assert(k * a <= x * dy) by (nonlinear_arith)
        requires
            dx * a <= x,
            k == dx * dy,
            dy > 0,
    ;
    assert(y * dx < k * (b + 1)) by (nonlinear_arith)
        requires
            y < dy * b + dy,
            k == dx * dy,
            dx > 0,
    ;
    assert(a < b + 1) by (nonlinear_arith)
        requires
            k * a < k * (b + 1),
            k > 0,
    ;
}

/// The places of percentiles ascend, and so do the indexes below them.
proof fn places_ascend(len: nat, p: nat, q: nat)
    requires
        2 <= len <= 0x20_0000_0000_0000,
        p <= q <= 100,
    ensures
        at_most(percentile_place(len, p), percentile_place(len, q)),
        percentile_index(len, p) <= percentile_index(len, q),
{
    place_found(len, p);
    place_found(len, q);
    shares_ascend(p, q);
    share_up_to(p);
    share_up_to(q);
    integers_are_finite(len - 1);
    product_keeps_order(
        quotient(of_int(p as int), of_int(100)),
        quotient(of_int(q as int), of_int(100)),
        of_int(len - 1),
    );
    match (percentile_place(len, p), percentile_place(len, q)) {
        (Real::Fin(_, m, e), Real::Fin(_, n, f)) => {
            factors_positive(e);
            factors_positive(f);
            index_order(num(m, e), den(e), num(n, f), den(f));
        },
        _ => {},
    }
}

proof fn indexes_ascend(len: nat, p: nat, q: nat)
    requires
        2 <= len <= 0x20_0000_0000_0000,
        p <= q <= 100,
    ensures
        percentile_index(len, p) <= percentile_index(len, q),
{
    places_ascend(len, p, q);
}

/// Whether the numbers are in order, and they and the steps between neighbours are
/// numbers in double precision.
pub open spec fn is_scale(s: Seq<i64>) -> bool {
    &&& is_ascending(s)
    &&& 0 < s.len() <= 0x20_0000_0000_0000
    &&& forall|i: int| 0 <= i < s.len() ==> is_worth(of_int(#[trigger] s[i] as int), s[i] as int)
    &&& forall|i: int|
        0 <= i < s.len() - 1 ==> is_worth(of_int(s[i + 1] - #[trigger] s[i]), s[i + 1] - s[i])
}

/// Numbers of up to 52 bits, in order, are a scale.
pub proof fn small_numbers_are_a_scale(s: Seq<i64>)
    requires
        is_ascending(s),
        0 < s.len() <= 0x20_0000_0000_0000,
        forall|i: int|
            0 <= i < s.len() ==> -0x10_0000_0000_0000 < #[trigger] s[i] < 0x10_0000_0000_0000,
    ensures
        is_scale(s),
{
    assert forall|i: int| 0 <= i < s.len() implies is_worth(
        of_int(#[trigger] s[i] as int),
        s[i] as int,
    ) by {
        whole_numbers_are_exact(s[i] as int);
    }
    assert forall|i: int| 0 <= i < s.len() - 1 implies is_worth(
        of_int(s[i + 1] - #[trigger] s[i]),
        s[i + 1] - s[i],
    ) by {
        assert(s[i + 1] >= s[i]);
        whole_numbers_are_exact(s[i + 1] - s[i]);
    }
}

proof fn steps_are_exact(s: Seq<i64>, lo: int, hi: int)
    requires
        is_scale(s),
        0 <= lo < s.len(),
        hi == lesser(lo + 1, s.len() - 1),
    ensures
        is_worth(of_int(s[lo] as int), s[lo] as int),
        is_worth(of_int(s[hi] as int), s[hi] as int),
        is_worth(of_int(s[hi] - s[lo]), s[hi] - s[lo]),
{
    if hi == lo {
        whole_numbers_are_exact(0);
    }
}

/// Between the same two numbers the greater percentile is no less.
proof fn percentiles_at_one_index(s: Seq<i64>, p: nat, q: nat)
    requires
        is_scale(s),
        s.len() > 1,
        p <= q <= 100,
        percentile_index(s.len(), p) == percentile_index(s.len(), q),
    ensures
        percentile_of(s, p) <= percentile_of(s, q),
{
    let last = s.len() - 1;
    let lo = percentile_index(s.len(), p);
    let hi = lesser(lo + 1, last);
    let (a, b) = (percentile_place(s.len(), p), percentile_place(s.len(), q));
    let c = of_int(lo);
    places_ascend(s.len(), p, q);
    place_found(s.len(), p);
    place_found(s.len(), q);
    assert(s[lo] <= s[hi]);
    steps_are_exact(s, lo, hi);
    let step = s[hi] - s[lo];
    whole_part_at_most(a, lo);
    whole_part_at_most(b, lo);
    rest_up_to(a, lo);
    rest_up_to(b, lo);
    let (x, y) = (difference(a, c), difference(b, c));
    difference_keeps_order(a, b, c);
    integers_are_finite(step);
    product_up_to(x, step);
    product_up_to(y, step);
    let (t, u) = (product(x, of_int(step)), product(y, of_int(step)));
    product_keeps_order(x, y, of_int(step));
    integers_are_finite(s[lo] as int);
    sum_between(s[lo] as int, t, step);
    sum_between(s[lo] as int, u, step);
    sum_keeps_order(of_int(s[lo] as int), t, u);
    nearest_keeps_order(sum(of_int(s[lo] as int), t), sum(of_int(s[lo] as int), u));
}

proof fn percentile_held(s: Seq<i64>, pct: nat, lo: int, hi: int)
    requires
        is_scale(s),
        s.len() > 1,
        pct <= 100,
        lo == percentile_index(s.len(), pct),
        hi == lesser(lo + 1, s.len() - 1),
    ensures
        0 <= lo <= hi < s.len(),
        s[lo] <= percentile_of(s, pct) <= s[hi],
        s[0] <= percentile_of(s, pct) <= s[s.len() - 1],
{
    place_found(s.len(), pct);
    steps_are_exact(s, lo, hi);
    percentile_between(s, pct);
    assert(s[0] <= s[lo]);
    assert(s[hi] <= s[s.len() - 1]);
}

proof fn percentiles_in_order(s: Seq<i64>, p: nat, q: nat, lo: int, hi: int, lo2: int)
    requires
        is_scale(s),
        s.len() > 1,
        p <= q <= 100,
        lo == percentile_index(s.len(), p),
        lo2 == percentile_index(s.len(), q),
        hi == lesser(lo + 1, s.len() - 1),
    ensures
        percentile_of(s, p) <= percentile_of(s, q),
{
    indexes_ascend(s.len(), p, q);
    if lo < lo2 {
        percentile_held(s, p, lo, hi);
        percentile_held(s, q, lo2, lesser(lo2 + 1, s.len() - 1));
        assert(s[hi] <= s[lo2]);
    } else {
        percentiles_at_one_index(s, p, q);
    }
}

/// Percentiles of an ordered list ascend, from the least number to the greatest,
/// as far as the numbers and the steps are numbers in double precision.
pub proof fn percentiles_ascend(s: Seq<i64>, p: nat, q: nat)
    requires
        is_scale(s),
        p <= q <= 100,
    ensures
        s[0] <= percentile_of(s, p) <= percentile_of(s, q) <= s.last(),
        percentile_of(s, 0) == s[0],
        percentile_of(s, 100) == s.last(),
{
    assert(s[0] <= s[s.len() - 1]);
    percentile_ends(s);
    if s.len() > 1 {
        let last = s.len() - 1;
        let lo = percentile_index(s.len(), p);
        let lo2 = percentile_index(s.len(), q);
        percentile_held(s, p, lo, lesser(lo + 1, last));
        percentile_held(s, q, lo2, lesser(lo2 + 1, last));
        percentiles_in_order(s, p, q, lo, lesser(lo + 1, last), lo2);
    }
}

} // verus!
