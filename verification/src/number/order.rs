//! Arithmetic in double precision keeps the order of numbers.

use crate::number::arith::{den, difference, nearest_int, num, product, sum, zero};
use crate::number::double::{
    down, exponent, fits, fits_on, half_even, half_even_below, least, p2, p2_52, p2_positive, rounded, scaled_above,
    scaled_below, up, Real,
};
use crate::number::exact::{
    canonical, exponent_at_most, exponent_found, factors_positive, rounded_at_least,
    rounded_at_most, rounded_is_canonical, scale_between,
};
use vstd::prelude::*;

verus! {

/// Whether a finite number is at most another.
pub open spec fn at_most(a: Real, b: Real) -> bool {
    match (a, b) {
        (Real::Fin(s, m, e), Real::Fin(t, n, f)) => {
            let x = num(m, e) * den(f);
            let y = num(n, f) * den(e);
            if s && t {
                y <= x
            } else if s {
                true
            } else if t {
                x == 0 && y == 0
            } else {
                x <= y
            }
        },
        _ => false,
    }
}

/// How far a rounded fraction is from the fraction: half at most, and half only
/// where it is even.
pub(crate) proof fn half_even_is_near(n: nat, d: nat)
    requires
        d > 0,
    ensures
        2 * n <= 2 * (d * half_even(n, d)) + d,
        2 * (d * half_even(n, d)) <= 2 * n + d,
        2 * n == 2 * (d * half_even(n, d)) + d ==> half_even(n, d) % 2 == 0,
        2 * (d * half_even(n, d)) == 2 * n + d ==> half_even(n, d) % 2 == 0,
{
    let q = n / d;
    let r = n % d;
    vstd::arithmetic::div_mod::lemma_fundamental_div_mod(n as int, d as int);
    assert(d * (q + 1) == d * q + d) by (nonlinear_arith);
}

proof fn halves_compared(n1: nat, d1: nat, h1: nat, n2: nat, d2: nat, h2: nat)
    requires
        d1 > 0,
        d2 > 0,
        n1 * d2 <= n2 * d1,
        2 * (d1 * h1) <= 2 * n1 + d1,
        2 * n2 <= 2 * (d2 * h2) + d2,
    ensures
        h1 <= h2 + 1,
        h1 == h2 + 1 ==> 2 * (d1 * h1) == 2 * n1 + d1 && 2 * n2 == 2 * (d2 * h2) + d2,
{
    let k = d1 * d2;
    assert(k > 0) by (nonlinear_arith)
        requires
            d1 > 0,
            d2 > 0,
            k == d1 * d2,
    ;
    let a = 2 * n1 + d1 - 2 * (d1 * h1);
    let b = 2 * (d2 * h2) + d2 - 2 * n2;
    assert(a * d2 + b * d1 == 2 * (n1 * d2) - 2 * (n2 * d1) + k * (2 * (h2 - h1) + 2))
        by (nonlinear_arith)
        requires
            k == d1 * d2,
            a == 2 * n1 + d1 - 2 * (d1 * h1),
            b == 2 * (d2 * h2) + d2 - 2 * n2,
    ;
    assert(a * d2 >= 0) by (nonlinear_arith)
        requires
            a >= 0,
            d2 > 0,
    ;
    assert(b * d1 >= 0) by (nonlinear_arith)
        requires
            b >= 0,
            d1 > 0,
    ;
    let c = 2 * (h2 - h1) + 2;
    assert(k * c >= 0);
    assert(c >= 0) by (nonlinear_arith)
        requires
            k * c >= 0,
            k > 0,
    ;
    if h1 == h2 + 1 {
        assert(k * c == 0) by (nonlinear_arith)
            requires
                c == 0,
        ;
        assert(a == 0) by (nonlinear_arith)
            requires
                a * d2 <= 0,
                a >= 0,
                d2 > 0,
        ;
        assert(b == 0) by (nonlinear_arith)
            requires
                b * d1 <= 0,
                b >= 0,
                d1 > 0,
        ;
    }
}

/// Rounding to whole numbers keeps the order of fractions.
proof fn half_even_keeps_order(n1: nat, d1: nat, n2: nat, d2: nat)
    requires
        d1 > 0,
        d2 > 0,
        n1 * d2 <= n2 * d1,
    ensures
        half_even(n1, d1) <= half_even(n2, d2),
{
    half_even_is_near(n1, d1);
    half_even_is_near(n2, d2);
    halves_compared(n1, d1, half_even(n1, d1), n2, d2, half_even(n2, d2));
}

/// What is not greater than a fraction that fits fits too.
proof fn lesser_fits(n1: nat, d1: nat, n2: nat, d2: nat, e: int)
    requires
        d1 > 0,
        d2 > 0,
        n1 * d2 <= n2 * d1,
        fits(n2, d2, e),
    ensures
        fits(n1, d1, e),
{
    let a = p2(1021);
    let b = p2((e - least()) as nat);
    p2_positive(1021);
    let x = n1 * a;
    let y = d1 * b;
    assert(x * d2 == (n1 * d2) * a) by (nonlinear_arith)
        requires
            x == n1 * a,
    ;
    assert((n1 * d2) * a <= (n2 * d1) * a) by (nonlinear_arith)
        requires
            n1 * d2 <= n2 * d1,
    ;
    assert((n2 * d1) * a == (n2 * a) * d1) by (nonlinear_arith);
    assert((n2 * a) * d1 < (d2 * b) * d1) by (nonlinear_arith)
        requires
            n2 * a < d2 * b,
            d1 > 0,
    ;
    assert((d2 * b) * d1 == y * d2) by (nonlinear_arith)
        requires
            y == d1 * b,
    ;
    assert(x < y) by (nonlinear_arith)
        requires
            x * d2 < y * d2,
            d2 > 0,
    ;
}

proof fn doubled_bound(n: nat, d: nat, u: nat, w: nat, u1: nat, w1: nat)
    requires
        n * w < (d * u) * p2(53),
        p2(53) == 2 * p2(52),
        u1 * w == 2 * u * w1,
        w > 0,
        w1 > 0,
    ensures
        n * w1 <= p2(52) * u1 * d,
{
    let c = p2(52);
    let x = n * w1;
    let y = c * u1 * d;
    assert(x * w == (n * w) * w1) by (nonlinear_arith)
        requires
            x == n * w1,
    ;
    assert((n * w) * w1 <= ((d * u) * (2 * c)) * w1) by (nonlinear_arith)
        requires
            n * w < (d * u) * (2 * c),
            w1 > 0,
    ;
    assert(((d * u) * (2 * c)) * w1 == (c * d) * (2 * u * w1)) by (nonlinear_arith);
    assert((c * d) * (u1 * w) == y * w) by (nonlinear_arith)
        requires
            y == c * u1 * d,
    ;
    assert(x <= y) by (nonlinear_arith)
        requires
            x * w <= y * w,
            w > 0,
    ;
}

/// With one exponent below the other, a power of two lies between.
proof fn exponents_part(neg: bool, n1: nat, d1: nat, n2: nat, d2: nat)
    requires
        d1 > 0,
        d2 > 0,
        exponent(n1, d1, least()) < exponent(n2, d2, least()),
        rounded(neg, n2, d2) is Fin,
    ensures
        rounded(neg, n1, d1) matches Real::Fin(s, m, e) && num(m, e) * den(
            rounded(neg, n2, d2)->Fin_2,
        ) <= num(rounded(neg, n2, d2)->Fin_1, rounded(neg, n2, d2)->Fin_2) * den(e),
{
    let f = exponent(n1, d1, least());
    let g = exponent(n2, d2, least());
    exponent_found(n1, d1, least());
    exponent_found(n2, d2, least());
    p2_52();
    fits_on(n1, d1, f, g - 1);
    scaled_below(n1, d1, g - 1);
    scale_between(g, g - 1);
    assert(p2(1) == 2 * p2(0) && p2(0) == 1);
    factors_positive(g);
    factors_positive(g - 1);
    doubled_bound(n1, d1, up(g - 1), down(g - 1), up(g), down(g));
    rounded_at_most(neg, n1, d1, p2(52), g);
    scaled_above(n2, d2, g);
    assert((d2 * up(g)) * p2(52) == p2(52) * up(g) * d2) by (nonlinear_arith);
    rounded_at_least(neg, n2, d2, p2(52), g);
    match (rounded(neg, n1, d1), rounded(neg, n2, d2)) {
        (Real::Fin(s, m, e), Real::Fin(t, k, h)) => {
            factors_positive(e);
            factors_positive(h);
            between(num(m, e), den(e), num(p2(52), g), den(g), num(k, h), den(h));
        },
        _ => {},
    }
}

proof fn between(a: nat, da: nat, b: nat, db: nat, c: nat, dc: nat)
    requires
        a * db <= b * da,
        c * db >= b * dc,
        da > 0,
        db > 0,
        dc > 0,
    ensures
        a * dc <= c * da,
{
    let x = a * dc;
    let y = c * da;
    assert((a * db) * dc <= (b * da) * dc) by (nonlinear_arith)
        requires
            a * db <= b * da,
    ;
    assert((b * dc) * da <= (c * db) * da) by (nonlinear_arith)
        requires
            b * dc <= c * db,
    ;
    assert((a * db) * dc == x * db) by (nonlinear_arith)
        requires
            x == a * dc,
    ;
    assert((c * db) * da == y * db) by (nonlinear_arith)
        requires
            y == c * da,
    ;
    assert((b * da) * dc == (b * dc) * da) by (nonlinear_arith);
    assert(x <= y) by (nonlinear_arith)
        requires
            x * db <= y * db,
            db > 0,
    ;
}

proof fn scaled_order(n1: nat, d1: nat, n2: nat, d2: nat, u: nat, w: nat)
    requires
        n1 * d2 <= n2 * d1,
    ensures
        (n1 * w) * (d2 * u) <= (n2 * w) * (d1 * u),
{
    assert((n1 * w) * (d2 * u) == (n1 * d2) * (w * u)) by (nonlinear_arith);
    assert((n2 * w) * (d1 * u) == (n2 * d1) * (w * u)) by (nonlinear_arith);
    let k = w * u;
    assert((n1 * d2) * k <= (n2 * d1) * k) by (nonlinear_arith)
        requires
            n1 * d2 <= n2 * d1,
            k >= 0,
    ;
}

/// Rounding keeps the order of fractions.
pub proof fn rounding_keeps_order(neg: bool, n1: nat, d1: nat, n2: nat, d2: nat)
    requires
        d1 > 0,
        d2 > 0,
        n1 * d2 <= n2 * d1,
        rounded(neg, n2, d2) is Fin,
    ensures
        rounded(neg, n1, d1) matches Real::Fin(s, m, e) && s == neg && canonical(m, e) && num(m, e)
            * den(rounded(neg, n2, d2)->Fin_2) <= num(
            rounded(neg, n2, d2)->Fin_1,
            rounded(neg, n2, d2)->Fin_2,
        ) * den(e),
{
    let f = exponent(n1, d1, least());
    let g = exponent(n2, d2, least());
    exponent_found(n1, d1, least());
    exponent_found(n2, d2, least());
    lesser_fits(n1, d1, n2, d2, g);
    exponent_at_most(n1, d1, least(), g);
    rounded_is_canonical(neg, n1, d1);
    if f < g {
        exponents_part(neg, n1, d1, n2, d2);
    } else {
        factors_positive(f);
        let (u, w) = (up(f), down(f));
        let h1 = half_even(n1 * w, d1 * u);
        let h2 = half_even(n2 * w, d2 * u);
        assert(d1 * u > 0) by (nonlinear_arith)
            requires
                d1 > 0,
                u > 0,
        ;
        assert(d2 * u > 0) by (nonlinear_arith)
            requires
                d2 > 0,
                u > 0,
        ;
        scaled_order(n1, d1, n2, d2, u, w);
        half_even_keeps_order(n1 * w, d1 * u, n2 * w, d2 * u);
        scaled_below(n1, d1, f);
        scaled_below(n2, d2, f);
        half_even_below(n1 * w, d1 * u, p2(53));
        half_even_below(n2 * w, d2 * u, p2(53));
        p2_52();
        if h2 < p2(53) {
            assert((h1 * u) * w <= (h2 * u) * w) by (nonlinear_arith)
                requires
                    h1 <= h2,
            ;
        } else if h1 < p2(53) {
            scale_between(f + 1, f);
            assert(p2(1) == 2 * p2(0) && p2(0) == 1);
            let (u1, w1) = (up(f + 1), down(f + 1));
            assert(p2(52) * (u1 * w) == p2(52) * (2 * u * w1));
            carried_order(h1, u, w, u1, w1);
        }
    }
}

proof fn carried_order(h: nat, u: nat, w: nat, u1: nat, w1: nat)
    requires
        h <= p2(53),
        p2(53) == 2 * p2(52),
        u1 * w == 2 * u * w1,
    ensures
        (h * u) * w1 <= (p2(52) * u1) * w,
{
    let c = p2(52);
    assert((c * u1) * w == c * (u1 * w)) by (nonlinear_arith);
    assert(c * (2 * u * w1) == (2 * c) * (u * w1)) by (nonlinear_arith);
    assert((h * u) * w1 == h * (u * w1)) by (nonlinear_arith);
    let k = u * w1;
    assert(h * k <= (2 * c) * k) by (nonlinear_arith)
        requires
            h <= 2 * c,
            k >= 0,
    ;
}

/// Multiplying two numbers that are not negative by a third keeps their order.
pub proof fn product_keeps_order(a: Real, b: Real, c: Real)
    requires
        at_most(a, b),
        a matches Real::Fin(s, _, _) && !s,
        b matches Real::Fin(s, _, _) && !s,
        c matches Real::Fin(s, _, _) && !s,
        product(b, c) is Fin,
    ensures
        at_most(product(a, c), product(b, c)),
        product(a, c) matches Real::Fin(s, m, e) && !s && canonical(m, e),
{
    match (a, b, c) {
        (Real::Fin(_, m, e), Real::Fin(_, n, f), Real::Fin(_, k, g)) => {
            factors_positive(e);
            factors_positive(f);
            factors_positive(g);
            let (x, y, z) = (num(m, e), num(n, f), num(k, g));
            let (dx, dy, dz) = (den(e), den(f), den(g));
            assert(dx * dz > 0) by (nonlinear_arith)
                requires
                    dx > 0,
                    dz > 0,
            ;
            assert(dy * dz > 0) by (nonlinear_arith)
                requires
                    dy > 0,
                    dz > 0,
            ;
            assert((x * z) * (dy * dz) == (x * dy) * (z * dz)) by (nonlinear_arith);
            assert((y * z) * (dx * dz) == (y * dx) * (z * dz)) by (nonlinear_arith);
            let w = z * dz;
            assert((x * dy) * w <= (y * dx) * w) by (nonlinear_arith)
                requires
                    x * dy <= y * dx,
                    w >= 0,
            ;
            rounding_keeps_order(false, x * z, dx * dz, y * z, dy * dz);
            rounded_is_canonical(false, y * z, dy * dz);
        },
        _ => {},
    }
}

proof fn rest_order(x: nat, dx: nat, y: nat, dy: nat, z: nat, dz: nat)
    requires
        x * dy <= y * dx,
    ensures
        (x * dz - z * dx) * (dy * dz) <= (y * dz - z * dy) * (dx * dz),
{
    added_order(z, dz, x, dx, y, dy);
    assert(dz * dy == dy * dz) by (nonlinear_arith);
    assert(dz * dx == dx * dz) by (nonlinear_arith);
}

/// Taking away from two numbers something that is in both keeps their order.
pub proof fn difference_keeps_order(a: Real, b: Real, c: Real)
    requires
        at_most(a, b),
        at_most(c, a),
        at_most(c, b),
        a matches Real::Fin(s, _, _) && !s,
        b matches Real::Fin(s, _, _) && !s,
        c matches Real::Fin(s, _, _) && !s,
        difference(b, c) is Fin,
    ensures
        at_most(difference(a, c), difference(b, c)),
        difference(a, c) matches Real::Fin(s, _, _) && !s,
        difference(b, c) matches Real::Fin(s, _, _) && !s,
{
    match (a, b, c) {
        (Real::Fin(_, m, e), Real::Fin(_, n, f), Real::Fin(_, k, g)) => {
            factors_positive(e);
            factors_positive(f);
            factors_positive(g);
            let (x, y, z) = (num(m, e), num(n, f), num(k, g));
            let (dx, dy, dz) = (den(e), den(f), den(g));
            assert(dx * dz > 0) by (nonlinear_arith)
                requires
                    dx > 0,
                    dz > 0,
            ;
            assert(dy * dz > 0) by (nonlinear_arith)
                requires
                    dy > 0,
                    dz > 0,
            ;
            rest_order(x, dx, y, dy, z, dz);
            let p = (x * dz - z * dx) as nat;
            let q = (y * dz - z * dy) as nat;
            let (dp, dq) = (dx * dz, dy * dz);
            if p == 0 {
                rounded_is_canonical(false, q, dq);
                nothing_is_least(difference(b, c));
            } else {
                assert(q > 0) by (nonlinear_arith)
                    requires
                        p * dq <= q * dp,
                        p > 0,
                        dq > 0,
                ;
                rounding_keeps_order(false, p, dp, q, dq);
                rounded_is_canonical(false, q, dq);
            }
        },
        _ => {},
    }
}

proof fn nothing_is_least(b: Real)
    requires
        b matches Real::Fin(s, _, _) && !s,
    ensures
        at_most(zero(false), b),
{
    match b {
        Real::Fin(_, n, f) => {
            assert(num(0, least()) * den(f) == 0) by (nonlinear_arith)
                requires
                    num(0, least()) == 0,
            ;
            assert(num(n, f) * den(least()) >= 0) by (nonlinear_arith)
                requires
                    num(n, f) >= 0,
                    den(least()) >= 0,
            ;
        },
        _ => {},
    }
}

proof fn regrouped(z: nat, dz: nat, x: nat, dx: nat, dy: nat)
    ensures
        (z * dx) * (dz * dy) == z * dz * (dx * dy),
        (x * dz) * (dz * dy) == (x * dy) * (dz * dz),
{
    assert((z * dx) * (dz * dy) == z * dz * (dx * dy)) by (nonlinear_arith);
    assert((x * dz) * (dz * dy) == (x * dy) * (dz * dz)) by (nonlinear_arith);
}

proof fn distributed(a: int, b: int, c: int)
    ensures
        (a + b) * c == a * c + b * c,
        (a - b) * c == a * c - b * c,
        (b - a) * c == b * c - a * c,
{
    assert((a + b) * c == a * c + b * c) by (nonlinear_arith);
    assert((a - b) * c == a * c - b * c) by (nonlinear_arith);
    assert((b - a) * c == b * c - a * c) by (nonlinear_arith);
}

proof fn added_order(z: nat, dz: nat, x: nat, dx: nat, y: nat, dy: nat)
    requires
        x * dy <= y * dx,
    ensures
        (z * dx + x * dz) * (dz * dy) <= (z * dy + y * dz) * (dz * dx),
        (z * dy - y * dz) * (dz * dx) <= (z * dx - x * dz) * (dz * dy),
        (x * dz - z * dx) * (dz * dy) <= (y * dz - z * dy) * (dz * dx),
{
    let w = dz * dz;
    regrouped(z, dz, x, dx, dy);
    regrouped(z, dz, y, dy, dx);
    assert(dx * dy == dy * dx) by (nonlinear_arith);
    distributed((z * dx) as int, (x * dz) as int, (dz * dy) as int);
    distributed((z * dy) as int, (y * dz) as int, (dz * dx) as int);
    assert((x * dy) * w <= (y * dx) * w) by (nonlinear_arith)
        requires
            x * dy <= y * dx,
            w >= 0,
    ;
}

/// Adding two numbers that are not negative to a third keeps their order.
pub proof fn sum_keeps_order(c: Real, a: Real, b: Real)
    requires
        at_most(a, b),
        a matches Real::Fin(s, _, _) && !s,
        b matches Real::Fin(s, _, _) && !s,
        c is Fin,
        sum(c, a) is Fin,
        sum(c, b) is Fin,
    ensures
        at_most(sum(c, a), sum(c, b)),
{
    match (c, a, b) {
        (Real::Fin(s, k, g), Real::Fin(_, m, e), Real::Fin(_, n, f)) => {
            factors_positive(e);
            factors_positive(f);
            factors_positive(g);
            let (z, x, y) = (num(k, g), num(m, e), num(n, f));
            let (dz, dx, dy) = (den(g), den(e), den(f));
            let (da, db) = (dz * dx, dz * dy);
            assert(da > 0) by (nonlinear_arith)
                requires
                    dz > 0,
                    dx > 0,
                    da == dz * dx,
            ;
            assert(db > 0) by (nonlinear_arith)
                requires
                    dz > 0,
                    dy > 0,
                    db == dz * dy,
            ;
            added_order(z, dz, x, dx, y, dy);
            let p = z * dx - x * dz;
            let q = z * dy - y * dz;
            if !s {
                rounding_keeps_order(false, z * dx + x * dz, da, z * dy + y * dz, db);
                rounded_is_canonical(false, z * dy + y * dz, db);
            } else if q > 0 {
                assert(p > 0) by (nonlinear_arith)
                    requires
                        q * da <= p * db,
                        q > 0,
                        da > 0,
                        db > 0,
                ;
                rounded_is_canonical(true, p as nat, da);
                rounding_keeps_order(true, q as nat, db, p as nat, da);
            } else if p > 0 {
                rounded_is_canonical(true, p as nat, da);
                if q < 0 {
                    rounded_is_canonical(false, (-q) as nat, db);
                }
            } else if p == 0 {
                if q < 0 {
                    rounded_is_canonical(false, (-q) as nat, db);
                }
                nothing_is_least(sum(c, b));
            } else {
                assert(q < 0) by (nonlinear_arith)
                    requires
                        (-p) * db <= (-q) * da,
                        p < 0,
                        da > 0,
                        db > 0,
                ;
                rounded_is_canonical(false, (-q) as nat, db);
                rounding_keeps_order(false, (-p) as nat, da, (-q) as nat, db);
            }
        },
        _ => {},
    }
}

proof fn nearest_order(n1: nat, d1: nat, n2: nat, d2: nat)
    requires
        d1 > 0,
        d2 > 0,
        n1 * d2 <= n2 * d1,
    ensures
        (n1 * 2 + d1) / (d1 * 2) <= (n2 * 2 + d2) / (d2 * 2),
{
    let (a, b) = (n1 * 2 + d1, n2 * 2 + d2);
    let q1 = a / (d1 * 2);
    let q2 = b / (d2 * 2);
    vstd::arithmetic::div_mod::lemma_fundamental_div_mod(a as int, (d1 * 2) as int);
    vstd::arithmetic::div_mod::lemma_fundamental_div_mod(b as int, (d2 * 2) as int);
    assert(a * d2 <= b * d1) by (nonlinear_arith)
        requires
            a == n1 * 2 + d1,
            b == n2 * 2 + d2,
            n1 * d2 <= n2 * d1,
    ;
    let k = d1 * d2;
    assert(k > 0) by (nonlinear_arith)
        requires
            d1 > 0,
            d2 > 0,
            k == d1 * d2,
    ;
    assert((2 * k) * q1 <= a * d2) by (nonlinear_arith)
        requires
            (d1 * 2) * q1 <= a,
            k == d1 * d2,
            d2 > 0,
    ;
    assert(b * d1 < (2 * k) * (q2 + 1)) by (nonlinear_arith)
        requires
            b < (d2 * 2) * q2 + d2 * 2,
            k == d1 * d2,
            d1 > 0,
    ;
    assert(q1 < q2 + 1) by (nonlinear_arith)
        requires
            (2 * k) * q1 < (2 * k) * (q2 + 1),
            k > 0,
    ;
}

/// Rounding to the nearest integer keeps the order of numbers.
pub proof fn nearest_keeps_order(a: Real, b: Real)
    requires
        at_most(a, b),
    ensures
        nearest_int(a) <= nearest_int(b),
{
    match (a, b) {
        (Real::Fin(s, m, e), Real::Fin(t, n, f)) => {
            factors_positive(e);
            factors_positive(f);
            let (x, y) = (num(m, e), num(n, f));
            let (dx, dy) = (den(e), den(f));
            if s && t {
                nearest_order(y, dy, x, dx);
            } else if !s && t {
                nothing_near(x, dx, dy);
                nothing_near(y, dy, dx);
            } else if !s {
                nearest_order(x, dx, y, dy);
            }
        },
        _ => {},
    }
}

proof fn nothing_near(x: nat, dx: nat, d: nat)
    requires
        x * d == 0,
        d > 0,
        dx > 0,
    ensures
        (x * 2 + dx) / (dx * 2) == 0,
{
    assert(x == 0) by (nonlinear_arith)
        requires
            x * d == 0,
            d > 0,
    ;
    vstd::arithmetic::div_mod::lemma_fundamental_div_mod_converse(
        dx as int,
        (dx * 2) as int,
        0,
        dx as int,
    );
}

} // verus!
