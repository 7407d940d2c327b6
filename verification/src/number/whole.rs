//! Arithmetic in double precision on whole numbers, and on fractions of them.

use crate::number::arith::{den, difference, is_less, magnitude, negated, num, of_int, product, quotient, sum, zero};
use crate::number::double::{
    down, exponent, fits, half_even, least, p2, rounded, too_large, up, Real,
};
use crate::number::exact::{
    factors_positive, integers_are_finite, is_worth, rounded_is_canonical, rounds_to,
    whole_numbers_are_exact,
};
use crate::number::order::{at_most, rounding_keeps_order};
use vstd::prelude::*;

verus! {

/// The size of an integer.
pub open spec fn size_of(n: int) -> nat {
    if n < 0 {
        (-n) as nat
    } else {
        n as nat
    }
}

/// A fraction that is a whole number is rounded to that number.
pub(crate) proof fn whole_rounded(neg: bool, k: nat, d: nat)
    requires
        k <= 0x20_0000_0000_0000,
        d > 0,
    ensures
        rounded(neg, k * d, d) matches Real::Fin(s, m, e) && s == neg && num(m, e) == k * den(e),
{
    whole_numbers_are_exact(k as int);
    integers_are_finite(k as int);
    match of_int(k as int) {
        Real::Fin(_, m, e) => {
            assert((k * d) * down(e) == m * up(e) * d) by (nonlinear_arith)
                requires
                    m * up(e) == k * down(e),
            ;
            rounds_to(neg, k * d, d, m, e);
        },
        _ => {},
    }
}

proof fn scaled_size(x: nat, k: nat, a: nat, b: nat)
    requires
        x == k * a,
    ensures
        x * b == k * (a * b),
{
    assert((k * a) * b == k * (a * b)) by (nonlinear_arith);
}

proof fn positive(a: nat, b: nat)
    requires
        a > 0,
        b > 0,
    ensures
        a * b > 0,
{
    assert(a * b > 0) by (nonlinear_arith)
        requires
            a > 0,
            b > 0,
    ;
}

/// The sum of whole numbers is their sum, as far as it has 53 bits.
pub proof fn sum_is_exact(x: Real, a: int, y: Real, b: int)
    requires
        is_worth(x, a),
        is_worth(y, b),
        size_of(a + b) <= 0x20_0000_0000_0000,
    ensures
        is_worth(sum(x, y), a + b),
{
    match (x, y) {
        (Real::Fin(s, m, e), Real::Fin(t, n, f)) => {
            factors_positive(e);
            factors_positive(f);
            factors_positive(least());
            let (ka, kb) = (size_of(a), size_of(b));
            let d = den(e) * den(f);
            positive(den(e), den(f));
            let p = num(m, e) * den(f);
            let q = num(n, f) * den(e);
            scaled_size(num(m, e), ka, den(e), den(f));
            scaled_size(num(n, f), kb, den(f), den(e));
            assert(den(f) * den(e) == d) by (nonlinear_arith)
                requires
                    d == den(e) * den(f),
            ;
            assert(p == ka * d && q == kb * d);
            assert(p + q == (ka + kb) * d) by (nonlinear_arith)
                requires
                    p == ka * d,
                    q == kb * d,
            ;
            assert(p - q == (ka - kb) * d) by (nonlinear_arith)
                requires
                    p == ka * d,
                    q == kb * d,
            ;
            assert(p > q <==> ka > kb) by (nonlinear_arith)
                requires
                    p - q == (ka - kb) * d,
                    d > 0,
            ;
            assert(p == q <==> ka == kb) by (nonlinear_arith)
                requires
                    p - q == (ka - kb) * d,
                    d > 0,
            ;
            if s == t {
                assert(size_of(a + b) == ka + kb);
                whole_rounded(s, ka + kb, d);
            } else if p > q {
                assert(size_of(a + b) == (ka - kb) as nat);
                whole_rounded(s, (ka - kb) as nat, d);
                assert((p - q) as nat == ((ka - kb) as nat) * d);
            } else if q > p {
                assert(size_of(a + b) == (kb - ka) as nat);
                whole_rounded(t, (kb - ka) as nat, d);
                assert(q - p == (kb - ka) * d) by (nonlinear_arith)
                    requires
                        p - q == (ka - kb) * d,
                ;
                assert((q - p) as nat == ((kb - ka) as nat) * d);
            } else {
                assert(a + b == 0);
                assert(0 * up(least()) == 0);
                assert(0 * den(least()) == 0);
            }
        },
        _ => {},
    }
}

/// The difference of whole numbers is their difference, as far as it has 53 bits.
pub proof fn difference_is_exact(x: Real, a: int, y: Real, b: int)
    requires
        is_worth(x, a),
        is_worth(y, b),
        size_of(a - b) <= 0x20_0000_0000_0000,
    ensures
        is_worth(difference(x, y), a - b),
{
    assert(is_worth(negated(y), -b));
    sum_is_exact(x, a, negated(y), -b);
}

/// The product of whole numbers is their product, as far as it has 53 bits.
pub proof fn product_is_exact(x: Real, a: int, y: Real, b: int)
    requires
        is_worth(x, a),
        is_worth(y, b),
        size_of(a * b) <= 0x20_0000_0000_0000,
    ensures
        is_worth(product(x, y), a * b),
{
    match (x, y) {
        (Real::Fin(s, m, e), Real::Fin(t, n, f)) => {
            factors_positive(e);
            factors_positive(f);
            let (ka, kb) = (size_of(a), size_of(b));
            let d = den(e) * den(f);
            let k = ka * kb;
            positive(den(e), den(f));
            assert(num(m, e) * num(n, f) == k * d) by (nonlinear_arith)
                requires
                    num(m, e) == ka * den(e),
                    num(n, f) == kb * den(f),
                    k == ka * kb,
                    d == den(e) * den(f),
            ;
            product_size(a, b);
            whole_rounded(s != t, k, d);
        },
        _ => {},
    }
}

proof fn product_size(a: int, b: int)
    ensures
        size_of(a * b) == size_of(a) * size_of(b),
        a * b > 0 ==> (a < 0) == (b < 0) && a != 0 && b != 0,
        a * b < 0 ==> (a < 0) != (b < 0) && a != 0 && b != 0,
{
    let (ka, kb) = (size_of(a), size_of(b));
    assert(a * b == ka * kb || a * b == -(ka * kb)) by (nonlinear_arith)
        requires
            ka == a || ka == -a,
            kb == b || kb == -b,
    ;
    assert(ka * kb >= 0) by (nonlinear_arith)
        requires
            ka >= 0,
            kb >= 0,
    ;
    assert(a * b > 0 ==> (a < 0) == (b < 0) && a != 0 && b != 0) by (nonlinear_arith);
    assert(a * b < 0 ==> (a < 0) != (b < 0) && a != 0 && b != 0) by (nonlinear_arith);
}

proof fn fits_scaled(n: nat, d: nat, k: nat, e: int)
    requires
        k > 0,
    ensures
        fits(n * k, d * k, e) == fits(n, d, e),
{
    let (a, b) = (p2(1021), p2((e - least()) as nat));
    assert((n * k) * a == (n * a) * k) by (nonlinear_arith);
    assert((d * k) * b == (d * b) * k) by (nonlinear_arith);
    let (x, y) = (n * a, d * b);
    assert(x * k < y * k <==> x < y) by (nonlinear_arith)
        requires
            k > 0,
    ;
}

proof fn exponent_scaled(n: nat, d: nat, k: nat, e: int)
    requires
        k > 0,
    ensures
        exponent(n * k, d * k, e) == exponent(n, d, e),
    decreases too_large() - e,
{
    fits_scaled(n, d, k, e);
    if e < too_large() && !fits(n, d, e) {
        exponent_scaled(n, d, k, e + 1);
    }
}

proof fn half_even_scaled(n: nat, d: nat, k: nat)
    requires
        k > 0,
        d > 0,
    ensures
        half_even(n * k, d * k) == half_even(n, d),
{
    let (q, r) = (n / d, n % d);
    vstd::arithmetic::div_mod::lemma_fundamental_div_mod(n as int, d as int);
    positive(d, k);
    assert(n * k == q * (d * k) + r * k) by (nonlinear_arith)
        requires
            n == d * q + r,
    ;
    assert(0 <= r * k < d * k) by (nonlinear_arith)
        requires
            0 <= r < d,
            k > 0,
    ;
    vstd::arithmetic::div_mod::lemma_fundamental_div_mod_converse(
        (n * k) as int,
        (d * k) as int,
        q as int,
        (r * k) as int,
    );
    assert((n * k) / (d * k) == q && (n * k) % (d * k) == r * k);
    assert(2 * (r * k) < d * k <==> 2 * r < d) by (nonlinear_arith)
        requires
            k > 0,
    ;
    assert(2 * (r * k) > d * k <==> 2 * r > d) by (nonlinear_arith)
        requires
            k > 0,
    ;
}

/// What a fraction is rounded to depends on its value alone.
pub proof fn rounded_by_value(neg: bool, n: nat, d: nat, k: nat)
    requires
        d > 0,
        k > 0,
    ensures
        rounded(neg, n * k, d * k) == rounded(neg, n, d),
{
    exponent_scaled(n, d, k, least());
    let e = exponent(n, d, least());
    factors_positive(e);
    let (u, w) = (up(e), down(e));
    assert((n * k) * w == (n * w) * k) by (nonlinear_arith);
    assert((d * k) * u == (d * u) * k) by (nonlinear_arith);
    positive(d, u);
    half_even_scaled(n * w, d * u, k);
}

/// The quotient of whole numbers is their fraction, rounded once.
pub proof fn quotient_is_rounded_once(x: Real, a: int, y: Real, b: int)
    requires
        is_worth(x, a),
        is_worth(y, b),
        a != 0,
        b != 0,
    ensures
        quotient(x, y) == rounded((a < 0) != (b < 0), size_of(a), size_of(b)),
{
    match (x, y) {
        (Real::Fin(s, m, e), Real::Fin(t, n, f)) => {
            factors_positive(e);
            factors_positive(f);
            let (ka, kb) = (size_of(a), size_of(b));
            let k = den(e) * den(f);
            positive(den(e), den(f));
            positive(kb, den(f));
            assert(n != 0) by (nonlinear_arith)
                requires
                    n * up(f) == kb * den(f),
                    kb * den(f) > 0,
            ;
            assert(num(m, e) * den(f) == ka * k) by (nonlinear_arith)
                requires
                    num(m, e) == ka * den(e),
                    k == den(e) * den(f),
            ;
            assert(den(e) * num(n, f) == kb * k) by (nonlinear_arith)
                requires
                    num(n, f) == kb * den(f),
                    k == den(e) * den(f),
            ;
            rounded_by_value(s != t, ka, kb, k);
        },
        _ => {},
    }
}

/// The quotient of whole numbers is exact where one divides the other.
pub proof fn quotient_is_exact(x: Real, q: int, y: Real, b: int)
    requires
        is_worth(x, q * b),
        is_worth(y, b),
        b != 0,
        q != 0,
        size_of(q) <= 0x20_0000_0000_0000,
    ensures
        is_worth(quotient(x, y), q),
{
    product_size(q, b);
    let (kq, kb) = (size_of(q), size_of(b));
    assert(q * b != 0) by (nonlinear_arith)
        requires
            q != 0,
            b != 0,
    ;
    quotient_is_rounded_once(x, q * b, y, b);
    whole_rounded((q * b < 0) != (b < 0), kq, kb);
    assert((q * b < 0) != (b < 0) <==> q < 0) by (nonlinear_arith)
        requires
            q != 0,
            b != 0,
    ;
}

/// The size of a whole number is its size.
pub proof fn magnitude_is_exact(x: Real, a: int)
    requires
        is_worth(x, a),
    ensures
        is_worth(magnitude(x), size_of(a) as int),
{
}

/// Shares of one whole are in the order of the parts.
pub proof fn shares_are_ordered(a: nat, b: nat, whole: nat)
    requires
        0 < a <= b <= 0x20_0000_0000_0000,
        0 < whole,
        rounded(false, b, whole) is Fin,
    ensures
        at_most(rounded(false, a, whole), rounded(false, b, whole)),
{
    assert(a * whole <= b * whole) by (nonlinear_arith)
        requires
            a <= b,
    ;
    rounding_keeps_order(false, a, whole, b, whole);
    rounded_is_canonical(false, b, whole);
}

/// Whole numbers compare as integers do.
pub proof fn less_is_exact(x: Real, a: int, y: Real, b: int)
    requires
        is_worth(x, a),
        is_worth(y, b),
    ensures
        is_less(x, y) == (a < b),
{
    match (x, y) {
        (Real::Fin(s, m, e), Real::Fin(t, n, f)) => {
            factors_positive(e);
            factors_positive(f);
            let (ka, kb) = (size_of(a), size_of(b));
            let d = den(e) * den(f);
            positive(den(e), den(f));
            let p = num(m, e) * den(f);
            let q = num(n, f) * den(e);
            scaled_size(num(m, e), ka, den(e), den(f));
            scaled_size(num(n, f), kb, den(f), den(e));
            assert(den(f) * den(e) == d) by (nonlinear_arith)
                requires
                    d == den(e) * den(f),
            ;
            assert(p - q == (ka - kb) * d) by (nonlinear_arith)
                requires
                    p == ka * d,
                    q == kb * d,
            ;
            assert(p < q <==> ka < kb) by (nonlinear_arith)
                requires
                    p - q == (ka - kb) * d,
                    d > 0,
            ;
            assert(q < p <==> kb < ka) by (nonlinear_arith)
                requires
                    p - q == (ka - kb) * d,
                    d > 0,
            ;
            assert(p > 0 <==> ka > 0) by (nonlinear_arith)
                requires
                    p == ka * d,
                    d > 0,
            ;
            assert(q > 0 <==> kb > 0) by (nonlinear_arith)
                requires
                    q == kb * d,
                    d > 0,
            ;
        },
        _ => {},
    }
}

/// Whether a number is exactly half of the integer.
pub open spec fn is_half_of(x: Real, n: int) -> bool {
    match x {
        Real::Fin(s, m, e) => {
            &&& 2 * num(m, e) == size_of(n) * den(e)
            &&& n > 0 ==> !s
            &&& n < 0 ==> s
        },
        _ => false,
    }
}

/// Half of a whole number is rounded to just that.
proof fn rounded_half(neg: bool, k: nat, d: nat)
    requires
        0 < k <= 0x20_0000_0000_0000,
        d > 0,
    ensures
        rounded(neg, k * d, 2 * d) matches Real::Fin(s, m, e) && s == neg && 2 * num(m, e) == k
            * den(e),
{
    whole_numbers_are_exact(k as int);
    integers_are_finite(k as int);
    crate::number::double::p2_52();
    match of_int(k as int) {
        Real::Fin(_, m, e) => {
            factors_positive(e);
            factors_positive(e - 1);
            whole_exponent(k, m, e);
            crate::number::exact::scale_between(e, e - 1);
            assert(p2(1) == 2 * p2(0) && p2(0) == 1);
            let (u, w, u1, w1) = (up(e), down(e), up(e - 1), down(e - 1));
            halved(k, d, m, u, w, u1, w1);
            rounds_to(neg, k * d, 2 * d, m, e - 1);
        },
        _ => {},
    }
}

proof fn whole_exponent(k: nat, m: nat, e: int)
    requires
        0 < k,
        m * up(e) == k * down(e),
        m < p2(53),
    ensures
        e > least(),
{
    if e <= least() {
        assert(up(e) == 1);
        crate::number::double::p2_adds(53, (-e - 53) as nat);
        crate::number::double::p2_positive((-e - 53) as nat);
        let c = p2((-e - 53) as nat);
        assert(down(e) == p2(53) * c);
        assert(k * (p2(53) * c) >= p2(53)) by (nonlinear_arith)
            requires
                k >= 1,
                c >= 1,
        ;
        assert(m * 1 == m);
    }
}

proof fn halved(k: nat, d: nat, m: nat, u: nat, w: nat, u1: nat, w1: nat)
    requires
        m * u == k * w,
        u * w1 == 2 * u1 * w,
        w > 0,
    ensures
        (k * d) * w1 == m * u1 * (2 * d),
        2 * (m * u1) == k * w1,
{
    let (x, y) = (2 * (m * u1), k * w1);
    assert(x * w == m * (2 * u1 * w)) by (nonlinear_arith)
        requires
            x == 2 * (m * u1),
    ;
    assert(m * (u * w1) == (m * u) * w1) by (nonlinear_arith);
    assert((k * w) * w1 == y * w) by (nonlinear_arith)
        requires
            y == k * w1,
    ;
    assert(x == y) by (nonlinear_arith)
        requires
            x * w == y * w,
            w > 0,
    ;
    assert((k * d) * w1 == (k * w1) * d) by (nonlinear_arith);
    assert(m * u1 * (2 * d) == (2 * (m * u1)) * d) by (nonlinear_arith);
}

/// The sum of a whole number and a half is exact, as far as its double has 53 bits.
pub proof fn half_is_added(x: Real, a: int, y: Real, b: int)
    requires
        is_worth(x, a),
        is_half_of(y, b),
        b == 1 || b == -1,
        size_of(2 * a + b) <= 0x20_0000_0000_0000,
    ensures
        is_half_of(sum(x, y), 2 * a + b),
{
    match (x, y) {
        (Real::Fin(s, m, e), Real::Fin(t, n, f)) => {
            factors_positive(e);
            factors_positive(f);
            let ka = size_of(a);
            let (de, df) = (den(e), den(f));
            positive(de, df);
            let d = de * df;
            let p = num(m, e) * df;
            let q = num(n, f) * de;
            assert(p == ka * d) by (nonlinear_arith)
                requires
                    p == (ka * de) * df,
                    d == de * df,
            ;
            assert(2 * q == d) by (nonlinear_arith)
                requires
                    2 * num(n, f) == 1 * df,
                    q == num(n, f) * de,
                    d == de * df,
            ;
            half_sum(ka, p, q, d);
            if s == t {
                rounded_half(s, 2 * ka + 1, q);
            } else if p > q {
                rounded_half(s, (2 * ka - 1) as nat, q);
            } else {
                rounded_half(t, 1, q);
            }
        },
        _ => {},
    }
}

proof fn half_sum(ka: nat, p: nat, q: nat, d: nat)
    requires
        p == ka * d,
        2 * q == d,
        d > 0,
    ensures
        p + q == (2 * ka + 1) * q,
        ka > 0 ==> p > q && p - q == (2 * ka - 1) * q,
        ka == 0 ==> p == 0 && q - p == 1 * q && q > p,
        q > 0,
{
    assert(p + q == (2 * ka + 1) * q) by (nonlinear_arith)
        requires
            p == ka * (2 * q),
    ;
    assert(p - q == (2 * ka - 1) * q) by (nonlinear_arith)
        requires
            p == ka * (2 * q),
    ;
    assert(ka > 0 ==> (2 * ka - 1) * q > 0) by (nonlinear_arith)
        requires
            q > 0,
    ;
}

/// A whole number compares with a half as integers do.
pub proof fn half_is_compared(x: Real, a: int, y: Real, b: int)
    requires
        is_half_of(x, a),
        is_worth(y, b),
    ensures
        is_less(x, y) == (a < 2 * b),
        is_less(y, x) == (2 * b < a),
{
    match (x, y) {
        (Real::Fin(s, m, e), Real::Fin(t, n, f)) => {
            factors_positive(e);
            factors_positive(f);
            let (ka, kb) = (size_of(a), size_of(b));
            let d = den(e) * den(f);
            positive(den(e), den(f));
            let p = num(m, e) * den(f);
            let q = num(n, f) * den(e);
            assert(2 * p == ka * d) by (nonlinear_arith)
                requires
                    2 * num(m, e) == ka * den(e),
                    p == num(m, e) * den(f),
                    d == den(e) * den(f),
            ;
            assert(q == kb * d) by (nonlinear_arith)
                requires
                    q == (kb * den(f)) * den(e),
                    d == den(e) * den(f),
            ;
            assert(2 * p - 2 * q == (ka - 2 * kb) * d) by (nonlinear_arith)
                requires
                    2 * p == ka * d,
                    q == kb * d,
            ;
            assert(p < q <==> ka < 2 * kb) by (nonlinear_arith)
                requires
                    2 * p - 2 * q == (ka - 2 * kb) * d,
                    d > 0,
            ;
            assert(q < p <==> 2 * kb < ka) by (nonlinear_arith)
                requires
                    2 * p - 2 * q == (ka - 2 * kb) * d,
                    d > 0,
            ;
            assert(p > 0 <==> ka > 0) by (nonlinear_arith)
                requires
                    2 * p == ka * d,
                    d > 0,
            ;
            assert(q > 0 <==> kb > 0) by (nonlinear_arith)
                requires
                    q == kb * d,
                    d > 0,
            ;
        },
        _ => {},
    }
}

/// Half of a whole number is exact.
pub proof fn halves_are_exact(k: nat)
    requires
        0 < k <= 0x20_0000_0000_0000,
    ensures
        is_half_of(rounded(false, k, 2), k as int),
{
    rounded_half(false, k, 1);
    assert(k * 1 == k);
    assert(2 * 1 == 2);
}

/// A share in per cent: all of it is a hundred, half of it fifty, none nothing.
pub proof fn share_in_per_cent(part: nat, whole: nat)
    requires
        part <= whole <= 0x20_0000_0000_0000,
        0 < whole,
    ensures
        ({
            let pct = product(
                quotient(rounded(false, part, 1), rounded(false, whole, 1)),
                of_int(100),
            );
            &&& part == whole ==> is_worth(pct, 100)
            &&& part == 0 ==> is_worth(pct, 0)
            &&& 2 * part == whole ==> is_worth(pct, 50)
        }),
{
    let (x, y) = (of_int(part as int), of_int(whole as int));
    whole_numbers_are_exact(part as int);
    whole_numbers_are_exact(whole as int);
    whole_numbers_are_exact(100);
    let q = quotient(x, y);
    if part == whole {
        quotient_is_exact(x, 1, y, whole as int);
        product_is_exact(q, 1, of_int(100), 100);
    }
    if part == 0 {
        crate::number::exact::nothing_over(whole as int);
        integers_are_finite(0);
        assert(is_worth(q, 0)) by {
            assert(0 * up(least()) == 0);
            assert(0 * den(least()) == 0);
        }
        product_is_exact(q, 0, of_int(100), 100);
    }
    if 2 * part == whole && part > 0 {
        quotient_is_rounded_once(x, part as int, y, whole as int);
        rounded_by_value(false, 1, 2, part);
        assert(1 * part == part && 2 * part == whole);
        halves_are_exact(1);
        half_times(q, of_int(100), 50);
    }
}

proof fn half_times(x: Real, y: Real, k: nat)
    requires
        is_half_of(x, 1),
        is_worth(y, 2 * k as int),
        0 < k <= 0x10_0000_0000_0000,
    ensures
        is_worth(product(x, y), k as int),
{
    match (x, y) {
        (Real::Fin(s, m, e), Real::Fin(t, n, f)) => {
            factors_positive(e);
            factors_positive(f);
            let d = den(e) * den(f);
            positive(den(e), den(f));
            assert(num(m, e) * num(n, f) == k * d) by (nonlinear_arith)
                requires
                    2 * num(m, e) == 1 * den(e),
                    num(n, f) == (2 * k) * den(f),
                    d == den(e) * den(f),
            ;
            whole_rounded(s != t, k, d);
        },
        _ => {},
    }
}

/// A part in per cent of a whole.
pub open spec fn in_per_cent(part: nat, whole: nat) -> Real {
    product(quotient(rounded(false, part, 1), rounded(false, whole, 1)), of_int(100))
}

/// A share of whole numbers is their fraction, rounded once, at most one.
proof fn share_rounded(part: nat, whole: nat)
    requires
        part <= whole <= 0x20_0000_0000_0000,
        0 < whole,
    ensures
        quotient(rounded(false, part, 1), rounded(false, whole, 1)) == rounded(false, part, whole),
        rounded(false, part, whole) matches Real::Fin(s, m, e) && !s && num(m, e) <= den(e),
{
    whole_numbers_are_exact(part as int);
    whole_numbers_are_exact(whole as int);
    if part == 0 {
        crate::number::exact::nothing_over(whole as int);
        whole_rounded(false, 0, whole);
        assert(0 * whole == 0);
        crate::number::double::p2_positive(52);
        crate::number::double::p2_positive(53);
        assert(0 * up(least()) * whole == 0) by (nonlinear_arith);
        rounds_to(false, 0, whole, 0, least());
        factors_positive(least());
    } else {
        quotient_is_rounded_once(of_int(part as int), part as int, of_int(whole as int), whole as int);
        whole_numbers_are_exact(1);
        integers_are_finite(1);
        match of_int(1) {
            Real::Fin(_, m, e) => {
                factors_positive(e);
                assert(part * down(e) <= m * up(e) * whole) by (nonlinear_arith)
                    requires
                        m * up(e) == 1 * down(e),
                        part <= whole,
                ;
                crate::number::exact::rounded_at_most(false, part, whole, m, e);
                match rounded(false, part, whole) {
                    Real::Fin(_, k, f) => {
                        let (x, y, w) = (num(k, f), den(f), den(e));
                        assert(x <= y) by (nonlinear_arith)
                            requires
                                x * w <= (1 * w) * y,
                                w > 0,
                        ;
                    },
                    _ => {},
                }
            },
            _ => {},
        }
    }
}

/// A share of at most one is at most a hundred per cent.
proof fn share_times_hundred(x: Real)
    requires
        x matches Real::Fin(s, m, e) && !s && num(m, e) <= den(e),
    ensures
        product(x, of_int(100)) is Fin,
{
    whole_numbers_are_exact(100);
    integers_are_finite(100);
    match (x, of_int(100)) {
        (Real::Fin(_, m, e), Real::Fin(_, n, f)) => {
            factors_positive(e);
            factors_positive(f);
            let d = den(e) * den(f);
            positive(den(e), den(f));
            let p = num(m, e) * num(n, f);
            assert(p * down(f) <= n * up(f) * d) by (nonlinear_arith)
                requires
                    p == num(m, e) * (n * up(f)),
                    num(m, e) <= den(e),
                    d == den(e) * down(f),
            ;
            crate::number::exact::rounded_at_most(false, p, d, n, f);
        },
        _ => {},
    }
}

/// A larger part is no less per cent, and the same share of more is the same.
pub proof fn per_cent_is_ordered(a: nat, b: nat, whole: nat, k: nat)
    requires
        a <= b <= whole,
        0 < whole,
        0 < k,
        whole * k <= 0x20_0000_0000_0000,
    ensures
        at_most(in_per_cent(a, whole), in_per_cent(b, whole)),
        in_per_cent(a * k, whole * k) == in_per_cent(a, whole),
{
    assert(whole <= whole * k && a * k <= whole * k && 0 < whole * k) by (nonlinear_arith)
        requires
            0 < k,
            a <= whole,
            0 < whole,
    ;
    share_rounded(a, whole);
    share_rounded(b, whole);
    share_rounded(a * k, whole * k);
    rounded_by_value(false, a, whole, k);
    share_times_hundred(rounded(false, b, whole));
    assert(a * whole <= b * whole) by (nonlinear_arith)
        requires
            a <= b,
    ;
    rounding_keeps_order(false, a, whole, b, whole);
    integers_are_finite(100);
    crate::number::order::product_keeps_order(
        rounded(false, a, whole),
        rounded(false, b, whole),
        of_int(100),
    );
}

proof fn near_without_carry(n: nat, d: nat, m: nat, u: nat, w: nat)
    requires
        2 * (n * w) <= 2 * ((d * u) * m) + d * u,
        2 * ((d * u) * m) <= 2 * (n * w) + d * u,
    ensures
        2 * (n * w) <= 2 * ((m * u) * d) + d * u,
        2 * ((m * u) * d) <= 2 * (n * w) + d * u,
{
    assert((d * u) * m == (m * u) * d) by (nonlinear_arith);
}

proof fn near_with_carry(n: nat, d: nat, c: nat, u: nat, w: nat, u1: nat, w1: nat)
    requires
        2 * (n * w) <= 2 * ((d * u) * (2 * c)) + d * u,
        2 * ((d * u) * (2 * c)) <= 2 * (n * w) + d * u,
        u1 * w == 2 * u * w1,
        w > 0,
        w1 > 0,
    ensures
        2 * (n * w1) <= 2 * ((c * u1) * d) + d * u1,
        2 * ((c * u1) * d) <= 2 * (n * w1) + d * u1,
{
    let a = n * w;
    let b = d * u;
    let x = n * w1;
    let y = (c * u1) * d;
    let z = d * u1;
    assert(a * w1 == x * w) by (nonlinear_arith)
        requires
            a == n * w,
            x == n * w1,
    ;
    assert((b * (2 * c)) * w1 == y * w) by (nonlinear_arith)
        requires
            b == d * u,
            y == (c * u1) * d,
            u1 * w == 2 * u * w1,
    ;
    assert(2 * (b * w1) == z * w) by (nonlinear_arith)
        requires
            b == d * u,
            z == d * u1,
            u1 * w == 2 * u * w1,
    ;
    assert(2 * (a * w1) <= 2 * ((b * (2 * c)) * w1) + b * w1) by (nonlinear_arith)
        requires
            2 * a <= 2 * (b * (2 * c)) + b,
            w1 > 0,
    ;
    assert(2 * ((b * (2 * c)) * w1) <= 2 * (a * w1) + b * w1) by (nonlinear_arith)
        requires
            2 * (b * (2 * c)) <= 2 * a + b,
            w1 > 0,
    ;
    assert(z * w >= 0) by (nonlinear_arith)
        requires
            z >= 0,
            w > 0,
    ;
    let (p, q) = (2 * x, 2 * y + z);
    assert(p * w <= q * w) by (nonlinear_arith)
        requires
            2 * (x * w) <= 2 * (y * w) + z * w,
            p == 2 * x,
            q == 2 * y + z,
    ;
    assert(p <= q) by (nonlinear_arith)
        requires
            p * w <= q * w,
            w > 0,
    ;
    let (g, h) = (2 * y, 2 * x + z);
    assert(g * w <= h * w) by (nonlinear_arith)
        requires
            2 * (y * w) <= 2 * (x * w) + z * w,
            g == 2 * y,
            h == 2 * x + z,
    ;
    assert(g <= h) by (nonlinear_arith)
        requires
            g * w <= h * w,
            w > 0,
    ;
}

/// A fraction is rounded to a number that is off by half of its last bit at most.
pub proof fn rounding_is_nearest(neg: bool, n: nat, d: nat)
    requires
        d > 0,
    ensures
        rounded(neg, n, d) matches Real::Fin(s, m, e) ==> {
            &&& s == neg
            &&& 2 * (n * den(e)) <= 2 * (num(m, e) * d) + d * up(e)
            &&& 2 * (num(m, e) * d) <= 2 * (n * den(e)) + d * up(e)
        },
{
    let f = exponent(n, d, least());
    crate::number::exact::exponent_found(n, d, least());
    crate::number::double::p2_52();
    if f < too_large() {
        let (u, w) = (up(f), down(f));
        factors_positive(f);
        factors_positive(f + 1);
        positive(d, u);
        let m = half_even(n * w, d * u);
        crate::number::order::half_even_is_near(n * w, d * u);
        crate::number::double::scaled_below(n, d, f);
        crate::number::double::half_even_below(n * w, d * u, p2(53));
        if m < p2(53) {
            near_without_carry(n, d, m, u, w);
        } else {
            crate::number::exact::scale_between(f + 1, f);
            assert(p2(1) == 2 * p2(0) && p2(0) == 1);
            near_with_carry(n, d, p2(52), u, w, up(f + 1), down(f + 1));
        }
    }
}

/// Nothing is worth nothing.
pub proof fn nothing_is_worth_nothing()
    ensures
        is_worth(zero(false), 0),
        is_worth(zero(true), 0),
{
    assert(0 * up(least()) == 0);
    assert(0 * den(least()) == 0);
}

/// Nothing over a positive whole number is nothing.
pub proof fn nothing_over_any(x: Real, a: int)
    requires
        is_worth(x, a),
        a > 0,
    ensures
        quotient(zero(false), x) == zero(false),
{
    match x {
        Real::Fin(s, m, e) => {
            factors_positive(e);
            factors_positive(least());
            positive(a as nat, den(e));
            assert(m != 0) by (nonlinear_arith)
                requires
                    m * up(e) == a * den(e),
                    a * den(e) > 0,
            ;
            let d = den(least()) * num(m, e);
            positive(den(least()), num(m, e));
            assert(0 * up(least()) == 0);
            assert(num(0, least()) * den(e) == 0) by (nonlinear_arith)
                requires
                    num(0, least()) == 0,
            ;
            assert(0 * up(least()) * d == 0) by (nonlinear_arith);
            crate::number::double::p2_positive(52);
            crate::number::double::p2_positive(53);
            rounds_to(false, 0, d, 0, least());
        },
        _ => {},
    }
}

/// A fraction that is half of a whole number is rounded to just that.
pub(crate) proof fn half_of_sum(neg: bool, k: nat, n: nat, d: nat)
    requires
        0 < k <= 0x20_0000_0000_0000,
        2 * n == k * d,
        d > 0,
    ensures
        rounded(neg, n, d) matches Real::Fin(s, m, e) && s == neg && 2 * num(m, e) == k * den(e),
{
    rounded_half(neg, k, d);
    rounded_by_value(neg, n, d, 2);
    assert(n * 2 == k * d && d * 2 == 2 * d);
}

} // verus!
