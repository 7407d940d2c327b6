//! Where arithmetic in double precision is exact.

use crate::number::arith::{
    den, difference, nearest_int, num, of_int, product, quotient, sum, truncated, zero,
};
use crate::number::double::{
    down, exponent, exponent_from, fits, half_even, half_even_above, half_even_below, least, p2, p2_52, p2_adds,
    p2_positive, rounded, scaled_above, scaled_below, too_large, up, Real,
};
use vstd::prelude::*;

verus! {

/// Whether a mantissa and an exponent are those of a number: the mantissa has 53
/// bits, or the exponent is the least.
pub open spec fn canonical(m: nat, e: int) -> bool {
    &&& least() <= e < too_large()
    &&& m < p2(53)
    &&& m >= p2(52) || e == least()
}

/// Whether a number is exactly the integer.
pub open spec fn is_worth(x: Real, n: int) -> bool {
    match x {
        Real::Fin(s, m, e) => {
            &&& num(m, e) == (if n < 0 {
                -n
            } else {
                n
            }) * den(e)
            &&& n > 0 ==> !s
            &&& n < 0 ==> s
        },
        _ => false,
    }
}

pub(crate) proof fn factors_positive(e: int)
    ensures
        up(e) > 0,
        down(e) > 0,
{
    if e > 0 {
        p2_positive(e as nat);
    }
    if e < 0 {
        p2_positive((-e) as nat);
    }
}

/// Scaling by the exponent: `2^e * 2^j`.
proof fn scale_shift(e: int, j: nat)
    requires
        e + j >= 0,
    ensures
        down(e) * p2((e + j) as nat) == up(e) * p2(j),
{
    if e >= 0 {
        p2_adds(e as nat, j);
        assert(p2(0) == 1);
        assert((e + j) as nat == e as nat + j);
        assert(1 * p2((e + j) as nat) == p2((e + j) as nat));
    } else {
        p2_adds((-e) as nat, (e + j) as nat);
        assert((-e) as nat + (e + j) as nat == j);
        assert(1 * p2(j) == p2(j));
    }
}

proof fn keep_less(n: nat, d: nat, m: nat, u: nat, w: nat, a: nat, b: nat, c: nat)
    requires
        n * w == m * u * d,
        w * b == u * (c * a),
        m < c,
        u > 0,
        d > 0,
        a > 0,
        w > 0,
    ensures
        n * a < d * b,
{
    assert((n * a) * w == (n * w) * a) by (nonlinear_arith);
    assert((d * b) * w == d * (w * b)) by (nonlinear_arith);
    assert((m * u * d) * a == m * ((u * d) * a)) by (nonlinear_arith);
    assert(d * (u * (c * a)) == c * ((u * d) * a)) by (nonlinear_arith);
    let k = (u * d) * a;
    assert(k > 0) by (nonlinear_arith)
        requires
            u > 0,
            d > 0,
            a > 0,
            k == (u * d) * a,
    ;
    assert(m * k < c * k) by (nonlinear_arith)
        requires
            m < c,
            k > 0,
    ;
    let x = n * a;
    let y = d * b;
    assert(x < y) by (nonlinear_arith)
        requires
            x * w < y * w,
    ;
}

proof fn keep_more(n: nat, d: nat, m: nat, u: nat, w: nat, a: nat, b: nat, c: nat)
    requires
        n * w == m * u * d,
        w * b == u * (c * a),
        m >= c,
        w > 0,
    ensures
        n * a >= d * b,
{
    assert((n * a) * w == (n * w) * a) by (nonlinear_arith);
    assert((d * b) * w == d * (w * b)) by (nonlinear_arith);
    assert((m * u * d) * a == m * ((u * d) * a)) by (nonlinear_arith);
    assert(d * (u * (c * a)) == c * ((u * d) * a)) by (nonlinear_arith);
    let k = (u * d) * a;
    assert(m * k >= c * k) by (nonlinear_arith)
        requires
            m >= c,
    ;
    let x = n * a;
    let y = d * b;
    assert(x >= y) by (nonlinear_arith)
        requires
            x * w >= y * w,
            w > 0,
    ;
}

proof fn half_even_exact(m: nat, k: nat)
    requires
        k > 0,
    ensures
        half_even(m * k, k) == m,
{
    vstd::arithmetic::div_mod::lemma_fundamental_div_mod_converse(
        (m * k) as int,
        k as int,
        m as int,
        0,
    );
}

/// A fraction that is the value of a number is rounded to that number.
pub proof fn rounds_to(neg: bool, n: nat, d: nat, m: nat, e: int)
    requires
        canonical(m, e),
        d > 0,
        n * down(e) == m * up(e) * d,
    ensures
        rounded(neg, n, d) == Real::Fin(neg, m, e),
{
    let a = p2(1021);
    factors_positive(e);
    p2_positive(1021);
    p2_adds(53, 1021);
    p2_adds(52, 1021);
    scale_shift(e, 1074);
    assert((e + 1074) as nat == (e - least()) as nat);
    keep_less(n, d, m, up(e), down(e), a, p2((e - least()) as nat), p2(53));
    assert(fits(n, d, e));
    if e > least() {
        scale_shift(e, 1073);
        assert((e + 1073) as nat == (e - 1 - least()) as nat);
        keep_more(n, d, m, up(e), down(e), a, p2((e - 1 - least()) as nat), p2(52));
        assert(!fits(n, d, e - 1));
    }
    exponent_from(n, d, least(), e);
    let k = up(e) * d;
    assert(k > 0) by (nonlinear_arith)
        requires
            up(e) > 0,
            d > 0,
            k == up(e) * d,
    ;
    assert(m * up(e) * d == m * k) by (nonlinear_arith)
        requires
            k == up(e) * d,
    ;
    assert(d * up(e) == k) by (nonlinear_arith)
        requires
            k == up(e) * d,
    ;
    half_even_exact(m, k);
}

pub(crate) proof fn exponent_found(n: nat, d: nat, e: int)
    requires
        least() <= e <= too_large(),
        e > least() ==> !fits(n, d, e - 1),
    ensures
        e <= exponent(n, d, e) <= too_large(),
        exponent(n, d, e) < too_large() ==> fits(n, d, exponent(n, d, e)),
        exponent(n, d, e) > least() ==> !fits(n, d, exponent(n, d, e) - 1),
    decreases too_large() - e,
{
    if e < too_large() && !fits(n, d, e) {
        exponent_found(n, d, e + 1);
    }
}

/// Rounding gives the mantissa and the exponent of a number.
pub proof fn rounded_is_canonical(neg: bool, n: nat, d: nat)
    requires
        d > 0,
    ensures
        rounded(neg, n, d) is Inf ==> rounded(neg, n, d) == Real::Inf(neg),
        !(rounded(neg, n, d) is Nan),
        rounded(neg, n, d) matches Real::Fin(s, m, e) ==> s == neg && canonical(m, e),
{
    let e = exponent(n, d, least());
    exponent_found(n, d, least());
    p2_52();
    if e < too_large() {
        factors_positive(e);
        let top = n * down(e);
        let bottom = d * up(e);
        assert(bottom > 0) by (nonlinear_arith)
            requires
                d > 0,
                up(e) > 0,
                bottom == d * up(e),
        ;
        scaled_below(n, d, e);
        half_even_below(top, bottom, p2(53));
        if e > least() {
            scaled_above(n, d, e);
            half_even_above(top, bottom, p2(52));
        }
    }
}

pub(crate) proof fn exponent_at_most(n: nat, d: nat, e: int, f: int)
    requires
        e <= f < too_large(),
        fits(n, d, f),
    ensures
        exponent(n, d, e) <= f,
    decreases f - e,
{
    if e < f && !fits(n, d, e) {
        exponent_at_most(n, d, e + 1, f);
    }
}

/// A machine integer is rounded to a finite number with its sign.
pub proof fn integers_are_finite(n: int)
    requires
        -0x1_0000_0000_0000_0000 < n < 0x1_0000_0000_0000_0000,
    ensures
        of_int(n) matches Real::Fin(s, m, e) && s == (n < 0) && canonical(m, e),
{
    let k = (if n < 0 {
        -n
    } else {
        n
    }) as nat;
    p2_52();
    reveal_with_fuel(p2, 12);
    p2_adds(11, 53);
    assert(p2(64) == 0x1_0000_0000_0000_0000);
    p2_adds(64, 1021);
    assert((11 - least()) as nat == 1085);
    let a = p2(1021);
    p2_positive(1021);
    assert(k * a < p2(64) * a) by (nonlinear_arith)
        requires
            k < p2(64),
            a > 0,
    ;
    assert(1 * p2(1085) == p2(1085));
    assert(fits(k, 1, 11));
    exponent_at_most(k, 1, least(), 11);
    rounded_is_canonical(n < 0, k, 1);
}

/// How often a number can be doubled before its mantissa is full.
spec fn room(n: nat, k: nat) -> nat
    decreases k,
{
    if n >= p2(52) || k == 0 {
        0
    } else {
        1 + room(2 * n, (k - 1) as nat)
    }
}

proof fn room_fills(n: nat, k: nat)
    requires
        0 < n < p2(53),
        k <= 60,
        n * p2(k) >= p2(52),
    ensures
        p2(52) <= n * p2(room(n, k)) < p2(53),
        room(n, k) <= k,
    decreases k,
{
    p2_52();
    assert(p2(0) == 1);
    if n >= p2(52) {
        assert(n * 1 == n);
    } else if k == 0 {
        assert(n * 1 == n);
    } else {
        assert(n * p2(k) == (2 * n) * p2((k - 1) as nat)) by (nonlinear_arith)
            requires
                p2(k) == 2 * p2((k - 1) as nat),
        ;
        room_fills(2 * n, (k - 1) as nat);
        let j = room(2 * n, (k - 1) as nat);
        assert(n * p2(j + 1) == (2 * n) * p2(j)) by (nonlinear_arith)
            requires
                p2(j + 1) == 2 * p2(j),
        ;
    }
}

/// Integers of up to 53 bits, and the next one, are numbers in double precision.
pub proof fn whole_numbers_are_exact(n: int)
    requires
        -0x20_0000_0000_0000 <= n <= 0x20_0000_0000_0000,
    ensures
        is_worth(of_int(n), n),
{
    let k = (if n < 0 {
        -n
    } else {
        n
    }) as nat;
    p2_52();
    if k == 0 {
        rounds_to(false, 0, 1, 0, least());
    } else if k == p2(53) {
        assert(p2(1) == 2 * p2(0));
        assert(p2(0) == 1);
        assert(up(1) == 2);
        rounds_to(n < 0, k, 1, p2(52), 1);
    } else {
        assert(k * p2(52) >= p2(52)) by (nonlinear_arith)
            requires
                k >= 1,
        ;
        room_fills(k, 52);
        let j = room(k, 52);
        let m = k * p2(j);
        let e = -(j as int);
        assert(p2(0) == 1);
        assert(down(e) == p2(j));
        assert(up(e) == 1);
        assert(m * 1 * 1 == m);
        rounds_to(n < 0, k, 1, m, e);
    }
}

/// Nothing times a number is nothing, with its sign.
pub proof fn nothing_times(b: Real)
    requires
        b matches Real::Fin(t, n, f) && canonical(n, f),
    ensures
        product(zero(false), b) == zero(b->Fin_0),
{
    match b {
        Real::Fin(t, n, f) => {
            factors_positive(least());
            factors_positive(f);
            let d = den(least()) * den(f);
            assert(d > 0) by (nonlinear_arith)
                requires
                    den(least()) > 0,
                    den(f) > 0,
                    d == den(least()) * den(f),
            ;
            assert(num(0, least()) * num(n, f) == 0) by (nonlinear_arith)
                requires
                    num(0, least()) == 0,
            ;
            p2_positive(52);
            p2_positive(53);
            assert(0 * up(least()) * d == 0) by (nonlinear_arith);
            rounds_to(t, 0, d, 0, least());
        },
        _ => {},
    }
}

/// A number and nothing: the number again.
pub proof fn plus_nothing(a: Real, t: bool)
    requires
        a matches Real::Fin(s, m, e) && canonical(m, e),
    ensures
        sum(a, zero(t)) == (if a->Fin_1 == 0 && a->Fin_0 != t {
            zero(false)
        } else {
            a
        }),
{
    match a {
        Real::Fin(s, m, e) => {
            factors_positive(least());
            factors_positive(e);
            let x = num(m, e) * den(least());
            let y = num(0, least()) * den(e);
            let d = den(e) * den(least());
            assert(y == 0) by (nonlinear_arith)
                requires
                    num(0, least()) == 0,
                    y == num(0, least()) * den(e),
            ;
            assert(d > 0) by (nonlinear_arith)
                requires
                    den(least()) > 0,
                    den(e) > 0,
                    d == den(e) * den(least()),
            ;
            assert(x * down(e) == m * up(e) * d) by (nonlinear_arith)
                requires
                    x == (m * up(e)) * den(least()),
                    d == down(e) * den(least()),
            ;
            if m == 0 {
                assert(x == 0) by (nonlinear_arith)
                    requires
                        m == 0,
                        x == (m * up(e)) * den(least()),
                ;
            } else {
                assert(x > 0) by (nonlinear_arith)
                    requires
                        m > 0,
                        up(e) > 0,
                        den(least()) > 0,
                        x == (m * up(e)) * den(least()),
                ;
            }
            rounds_to(s, x, d, m, e);
            assert((x - 0) as nat == x);
        },
        _ => {},
    }
}

/// A number that is worth an integer is rounded to it.
pub proof fn nearest_to_exact(x: Real, n: int)
    requires
        is_worth(x, n),
        i64::MIN <= n <= i64::MAX,
    ensures
        nearest_int(x) == n,
{
    match x {
        Real::Fin(s, m, e) => {
            factors_positive(e);
            let k = if n < 0 {
                -n
            } else {
                n
            };
            let d = den(e) as int;
            assert(k * d * 2 + d == (d * 2) * k + d) by (nonlinear_arith);
            vstd::arithmetic::div_mod::lemma_fundamental_div_mod_converse(
                k * d * 2 + d,
                d * 2,
                k,
                d,
            );
        },
        _ => {},
    }
}

/// A number that is worth a natural number has it as its whole part.
pub proof fn whole_of_exact(x: Real, n: int)
    requires
        is_worth(x, n),
        0 <= n < u64::MAX,
        x->Fin_0 ==> n == 0,
    ensures
        truncated(x) == n,
{
    match x {
        Real::Fin(s, m, e) => {
            factors_positive(e);
            let d = den(e) as int;
            vstd::arithmetic::div_mod::lemma_fundamental_div_mod_converse(n * d, d, n, 0);
        },
        _ => {},
    }
}

/// A number over itself is one.
pub proof fn over_itself(n: int)
    requires
        0 < n <= 0x20_0000_0000_0000,
    ensures
        quotient(of_int(n), of_int(n)) == of_int(1),
{
    whole_numbers_are_exact(n);
    whole_numbers_are_exact(1);
    integers_are_finite(n);
    integers_are_finite(1);
    match (of_int(n), of_int(1)) {
        (Real::Fin(s, m, e), Real::Fin(t, k, f)) => {
            factors_positive(e);
            let x = num(m, e) * den(e);
            let y = den(e) * num(m, e);
            assert(x == y) by (nonlinear_arith)
                requires
                    x == num(m, e) * den(e),
                    y == den(e) * num(m, e),
            ;
            assert(num(m, e) > 0) by (nonlinear_arith)
                requires
                    num(m, e) == n * den(e),
                    n > 0,
                    den(e) > 0,
            ;
            assert(m != 0) by (nonlinear_arith)
                requires
                    num(m, e) == m * up(e),
                    num(m, e) > 0,
            ;
            assert(y > 0) by (nonlinear_arith)
                requires
                    den(e) > 0,
                    num(m, e) > 0,
                    y == den(e) * num(m, e),
            ;
            assert(x * down(f) == k * up(f) * y) by (nonlinear_arith)
                requires
                    x == y,
                    k * up(f) == 1 * down(f),
            ;
            rounds_to(false, x, y, k, f);
        },
        _ => {},
    }
}

/// One times a number is the number.
pub proof fn one_times(b: Real)
    requires
        b matches Real::Fin(t, n, f) && canonical(n, f),
    ensures
        product(of_int(1), b) == b,
{
    whole_numbers_are_exact(1);
    integers_are_finite(1);
    match (of_int(1), b) {
        (Real::Fin(s, m, e), Real::Fin(t, n, f)) => {
            factors_positive(e);
            factors_positive(f);
            let x = num(m, e) * num(n, f);
            let d = den(e) * den(f);
            assert(d > 0) by (nonlinear_arith)
                requires
                    den(e) > 0,
                    den(f) > 0,
                    d == den(e) * den(f),
            ;
            assert(x * down(f) == n * up(f) * d) by (nonlinear_arith)
                requires
                    x == num(m, e) * (n * up(f)),
                    num(m, e) == 1 * den(e),
                    d == den(e) * down(f),
            ;
            rounds_to(t, x, d, n, f);
        },
        _ => {},
    }
}

/// Nothing over a number is nothing.
pub proof fn nothing_over(n: int)
    requires
        0 < n <= 0x20_0000_0000_0000,
    ensures
        quotient(of_int(0), of_int(n)) == zero(false),
        of_int(0) == zero(false),
{
    whole_numbers_are_exact(n);
    integers_are_finite(n);
    p2_positive(52);
    p2_positive(53);
    rounds_to(false, 0, 1, 0, least());
    match of_int(n) {
        Real::Fin(t, m, e) => {
            factors_positive(e);
            factors_positive(least());
            assert(num(m, e) > 0) by (nonlinear_arith)
                requires
                    num(m, e) == n * den(e),
                    n > 0,
                    den(e) > 0,
            ;
            assert(m != 0) by (nonlinear_arith)
                requires
                    num(m, e) == m * up(e),
                    num(m, e) > 0,
            ;
            let d = den(least()) * num(m, e);
            assert(d > 0) by (nonlinear_arith)
                requires
                    den(least()) > 0,
                    num(m, e) > 0,
                    d == den(least()) * num(m, e),
            ;
            assert(num(0, least()) * den(e) == 0) by (nonlinear_arith)
                requires
                    num(0, least()) == 0,
            ;
            assert(0 * up(least()) * d == 0) by (nonlinear_arith);
            rounds_to(false, 0, d, 0, least());
        },
        _ => {},
    }
}

/// A number less itself is nothing.
pub proof fn less_itself(a: Real)
    requires
        a is Fin,
    ensures
        difference(a, a) == zero(false),
{
}

/// `2^e` in units of a smaller `2^f`.
pub(crate) proof fn scale_between(e: int, f: int)
    requires
        f <= e,
    ensures
        up(e) * down(f) == p2((e - f) as nat) * up(f) * down(e),
{
    let k = (e - f) as nat;
    assert(p2(0) == 1);
    if f >= 0 {
        p2_adds(k, f as nat);
        assert(up(e) * 1 == up(e));
        assert(p2(k) * up(f) * 1 == p2(k) * up(f));
        assert(k + f as nat == e as nat);
    } else if e >= 0 {
        p2_adds(e as nat, (-f) as nat);
        assert(e as nat + (-f) as nat == k);
        assert(p2(k) * 1 * 1 == p2(k));
    } else {
        p2_adds(k, (-e) as nat);
        assert(k + (-e) as nat == (-f) as nat);
        assert(1 * down(f) == down(f));
        assert(p2(k) * 1 * down(e) == p2(k) * down(e)) by (nonlinear_arith);
    }
}

proof fn half_even_at_most(n: nat, d: nat, c: nat)
    requires
        d > 0,
        n <= d * c,
    ensures
        half_even(n, d) <= c,
{
    if n == d * c {
        assert(n == c * d) by (nonlinear_arith)
            requires
                n == d * c,
        ;
        half_even_exact(c, d);
    } else {
        half_even_below(n, d, c);
    }
}

/// What is no more than a number is rounded to no more than it.
pub proof fn rounded_at_most(neg: bool, n: nat, d: nat, m: nat, e: int)
    requires
        canonical(m, e),
        d > 0,
        n * down(e) <= m * up(e) * d,
    ensures
        rounded(neg, n, d) matches Real::Fin(s, k, f) && s == neg && canonical(k, f) && num(k, f)
            * den(e) <= num(m, e) * den(f),
{
    let a = p2(1021);
    factors_positive(e);
    p2_positive(1021);
    p2_adds(53, 1021);
    scale_shift(e, 1074);
    assert((e + 1074) as nat == (e - least()) as nat);
    fit_below(n, d, m, up(e), down(e), a, p2((e - least()) as nat), p2(53));
    assert(fits(n, d, e));
    exponent_at_most(n, d, least(), e);
    exponent_found(n, d, least());
    let f = exponent(n, d, least());
    let c = m * p2((e - f) as nat);
    let top = n * down(f);
    let bottom = d * up(f);
    factors_positive(f);
    scale_between(e, f);
    assert(bottom > 0) by (nonlinear_arith)
        requires
            d > 0,
            up(f) > 0,
            bottom == d * up(f),
    ;
    within(n, d, m, up(e), down(e), up(f), down(f), p2((e - f) as nat));
    half_even_at_most(top, bottom, c);
    let h = half_even(top, bottom);
    let g = p2((e - f) as nat);
    assert((h * up(f)) * down(e) <= (m * up(e)) * down(f)) by {
        assert((h * up(f)) * down(e) <= (c * up(f)) * down(e)) by (nonlinear_arith)
            requires
                h <= c,
        ;
        assert((c * up(f)) * down(e) == m * (g * up(f) * down(e))) by (nonlinear_arith)
            requires
                c == m * g,
        ;
        assert(m * (up(e) * down(f)) == (m * up(e)) * down(f)) by (nonlinear_arith);
    }
    rounded_is_canonical(neg, n, d);
    scaled_below(n, d, f);
    half_even_below(top, bottom, p2(53));
    p2_52();
    if h >= p2(53) {
        assert(h == p2(53));
        scale_between(f + 1, f);
        assert(p2(1) == 2 * p2(0));
        assert(p2(0) == 1);
        if f + 1 >= too_large() {
            assert(e == f);
            assert(c == m) by {
                assert(p2(0) == 1);
                assert(m * 1 == m);
            }
        }
        carried(up(f), down(f), up(f + 1), down(f + 1), up(e), down(e), m);
    }
}

proof fn carried(u: nat, w: nat, u1: nat, w1: nat, ue: nat, we: nat, m: nat)
    requires
        u1 * w == 2 * u * w1,
        (p2(53) * u) * we <= (m * ue) * w,
        p2(53) == 2 * p2(52),
        w > 0,
    ensures
        (p2(52) * u1) * we <= (m * ue) * w1,
{
    let x = (p2(52) * u1) * we;
    let y = (m * ue) * w1;
    assert(x * w == ((2 * p2(52)) * u) * we * w1) by (nonlinear_arith)
        requires
            x == (p2(52) * u1) * we,
            u1 * w == 2 * u * w1,
    ;
    assert(((p2(53) * u) * we) * w1 <= ((m * ue) * w) * w1) by (nonlinear_arith)
        requires
            (p2(53) * u) * we <= (m * ue) * w,
    ;
    assert(((m * ue) * w) * w1 == y * w) by (nonlinear_arith)
        requires
            y == (m * ue) * w1,
    ;
    assert(x <= y) by (nonlinear_arith)
        requires
            x * w <= y * w,
            w > 0,
    ;
}

proof fn fit_below(n: nat, d: nat, m: nat, u: nat, w: nat, a: nat, b: nat, c: nat)
    requires
        n * w <= m * u * d,
        w * b == u * (c * a),
        m < c,
        u > 0,
        d > 0,
        a > 0,
        w > 0,
    ensures
        n * a < d * b,
{
    assert((n * a) * w == (n * w) * a) by (nonlinear_arith);
    assert((d * b) * w == d * (w * b)) by (nonlinear_arith);
    assert((n * w) * a <= (m * u * d) * a) by (nonlinear_arith)
        requires
            n * w <= m * u * d,
    ;
    assert((m * u * d) * a == m * ((u * d) * a)) by (nonlinear_arith);
    assert(d * (u * (c * a)) == c * ((u * d) * a)) by (nonlinear_arith);
    let k = (u * d) * a;
    assert(k > 0) by (nonlinear_arith)
        requires
            u > 0,
            d > 0,
            a > 0,
            k == (u * d) * a,
    ;
    assert(m * k < c * k) by (nonlinear_arith)
        requires
            m < c,
            k > 0,
    ;
    let x = n * a;
    let y = d * b;
    assert(x < y) by (nonlinear_arith)
        requires
            x * w < y * w,
    ;
}

proof fn within(n: nat, d: nat, m: nat, ue: nat, we: nat, uf: nat, wf: nat, g: nat)
    requires
        n * we <= m * ue * d,
        ue * wf == g * uf * we,
        we > 0,
    ensures
        n * wf <= (d * uf) * (m * g),
{
    let x = n * wf;
    let y = (d * uf) * (m * g);
    assert(x * we == (n * we) * wf) by (nonlinear_arith)
        requires
            x == n * wf,
    ;
    assert((n * we) * wf <= (m * ue * d) * wf) by (nonlinear_arith)
        requires
            n * we <= m * ue * d,
    ;
    assert((m * ue * d) * wf == m * d * (ue * wf)) by (nonlinear_arith);
    assert(m * d * (g * uf * we) == y * we) by (nonlinear_arith)
        requires
            y == (d * uf) * (m * g),
    ;
    assert(x <= y) by (nonlinear_arith)
        requires
            x * we <= y * we,
            we > 0,
    ;
}

proof fn beyond(n: nat, d: nat, m: nat, ue: nat, we: nat, uf: nat, wf: nat, g: nat)
    requires
        n * we >= m * ue * d,
        ue * wf == g * uf * we,
        we > 0,
    ensures
        n * wf >= (d * uf) * (m * g),
{
    let x = n * wf;
    let y = (d * uf) * (m * g);
    assert(x * we == (n * we) * wf) by (nonlinear_arith)
        requires
            x == n * wf,
    ;
    assert((n * we) * wf >= (m * ue * d) * wf) by (nonlinear_arith)
        requires
            n * we >= m * ue * d,
    ;
    assert((m * ue * d) * wf == m * d * (ue * wf)) by (nonlinear_arith);
    assert(m * d * (g * uf * we) == y * we) by (nonlinear_arith)
        requires
            y == (d * uf) * (m * g),
    ;
    assert(x >= y) by (nonlinear_arith)
        requires
            x * we >= y * we,
            we > 0,
    ;
}

proof fn carried_up(u: nat, w: nat, u1: nat, w1: nat, ue: nat, we: nat, m: nat)
    requires
        u1 * w == 2 * u * w1,
        (p2(53) * u) * we >= (m * ue) * w,
        p2(53) == 2 * p2(52),
        w > 0,
    ensures
        (p2(52) * u1) * we >= (m * ue) * w1,
{
    let x = (p2(52) * u1) * we;
    let y = (m * ue) * w1;
    assert(x * w == ((2 * p2(52)) * u) * we * w1) by (nonlinear_arith)
        requires
            x == (p2(52) * u1) * we,
            u1 * w == 2 * u * w1,
    ;
    assert(((p2(53) * u) * we) * w1 >= ((m * ue) * w) * w1) by (nonlinear_arith)
        requires
            (p2(53) * u) * we >= (m * ue) * w,
    ;
    assert(((m * ue) * w) * w1 == y * w) by (nonlinear_arith)
        requires
            y == (m * ue) * w1,
    ;
    assert(x >= y) by (nonlinear_arith)
        requires
            x * w >= y * w,
            w > 0,
    ;
}

/// What is no less than a number is rounded to no less than it.
pub proof fn rounded_at_least(neg: bool, n: nat, d: nat, m: nat, e: int)
    requires
        canonical(m, e),
        d > 0,
        n * down(e) >= m * up(e) * d,
    ensures
        rounded(neg, n, d) matches Real::Fin(s, k, f) ==> num(k, f) * den(e) >= num(m, e) * den(f),
{
    exponent_found(n, d, least());
    let f = exponent(n, d, least());
    p2_52();
    factors_positive(e);
    if f < too_large() {
        factors_positive(f);
        let top = n * down(f);
        let bottom = d * up(f);
        let h = half_even(top, bottom);
        assert(bottom > 0) by (nonlinear_arith)
            requires
                d > 0,
                up(f) > 0,
                bottom == d * up(f),
        ;
        assert((h * up(f)) * down(e) >= (m * up(e)) * down(f)) by {
            if f <= e {
                let g = p2((e - f) as nat);
                let c = m * g;
                scale_between(e, f);
                beyond(n, d, m, up(e), down(e), up(f), down(f), g);
                half_even_above(top, bottom, c);
                assert((h * up(f)) * down(e) >= (c * up(f)) * down(e)) by (nonlinear_arith)
                    requires
                        h >= c,
                ;
                assert((c * up(f)) * down(e) == m * (g * up(f) * down(e))) by (nonlinear_arith)
                    requires
                        c == m * g,
                ;
                assert(m * (up(e) * down(f)) == (m * up(e)) * down(f)) by (nonlinear_arith);
            } else {
                scaled_above(n, d, f);
                half_even_above(top, bottom, p2(52));
                let g = p2((f - e) as nat);
                scale_between(f, e);
                let j = (f - e - 1) as nat;
                p2_positive(j);
                assert(g == 2 * p2(j));
                assert(h * g >= m) by (nonlinear_arith)
                    requires
                        h >= p2(52),
                        g >= 2,
                        m < 2 * p2(52),
                ;
                assert(h * (up(f) * down(e)) == (h * up(f)) * down(e)) by (nonlinear_arith);
                assert(h * (g * up(e) * down(f)) == (h * g) * (up(e) * down(f)))
                    by (nonlinear_arith);
                let v = up(e) * down(f);
                assert((h * g) * v >= m * v) by (nonlinear_arith)
                    requires
                        h * g >= m,
                ;
                assert(m * v == (m * up(e)) * down(f)) by (nonlinear_arith)
                    requires
                        v == up(e) * down(f),
                ;
            }
        }
        scaled_below(n, d, f);
        half_even_below(top, bottom, p2(53));
        if h >= p2(53) {
            assert(h == p2(53));
            scale_between(f + 1, f);
            assert(p2(1) == 2 * p2(0));
            assert(p2(0) == 1);
            carried_up(up(f), down(f), up(f + 1), down(f + 1), up(e), down(e), m);
        }
    }
}

} // verus!
