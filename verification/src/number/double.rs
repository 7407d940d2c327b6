//! Numbers in double precision: what they are worth, and how they are rounded.

use crate::number::bignat::BigNat;
use vstd::prelude::*;

verus! {

/// A power of two.
pub open spec fn p2(k: nat) -> nat
    decreases k,
{
    if k == 0 {
        1
    } else {
        2 * p2((k - 1) as nat)
    }
}

/// A power of ten.
pub open spec fn p10(k: nat) -> nat
    decreases k,
{
    if k == 0 {
        1
    } else {
        10 * p10((k - 1) as nat)
    }
}

/// What a number in double precision is: not a number, infinite, or a mantissa
/// times a power of two, each of the latter with a sign.
pub ghost enum Real {
    Nan,
    Inf(bool),
    Fin(bool, nat, int),
}

/// The least exponent.
pub open spec fn least() -> int {
    -1074
}

/// The exponent that is too large.
pub open spec fn too_large() -> int {
    972
}

/// A fraction rounded to a whole number; of two that are equally near, the even one.
pub open spec fn half_even(n: nat, d: nat) -> nat {
    let q = n / d;
    let r = n % d;
    if 2 * r < d {
        q
    } else if 2 * r > d {
        q + 1
    } else if q % 2 == 0 {
        q
    } else {
        q + 1
    }
}

/// Whether a fraction has a mantissa of 53 bits at most, with the exponent:
/// `n / d < 2^(e + 53)`.
pub open spec fn fits(n: nat, d: nat, e: int) -> bool {
    n * p2(1021) < d * p2((e - least()) as nat)
}

/// The least exponent from `e` on with which a fraction fits.
pub open spec fn exponent(n: nat, d: nat, e: int) -> int
    decreases too_large() - e,
{
    if e >= too_large() {
        too_large()
    } else if fits(n, d, e) {
        e
    } else {
        exponent(n, d, e + 1)
    }
}

/// A fraction that fits with an exponent fits with a larger one.
pub(crate) proof fn fits_on(n: nat, d: nat, e: int, f: int)
    requires
        least() <= e <= f,
        fits(n, d, e),
    ensures
        fits(n, d, f),
    decreases f - e,
{
    if e < f {
        let k = (e - least()) as nat;
        assert((e + 1 - least()) as nat == k + 1);
        assert(p2(k + 1) == 2 * p2(k));
        assert(d * (2 * p2(k)) >= d * p2(k)) by (nonlinear_arith);
        fits_on(n, d, e + 1, f);
    }
}

/// The search for the exponent may start at any for which the one before does
/// not fit.
pub(crate) proof fn exponent_from(n: nat, d: nat, e: int, f: int)
    requires
        least() <= e <= f <= too_large(),
        f > e ==> !fits(n, d, f - 1),
    ensures
        exponent(n, d, e) == exponent(n, d, f),
    decreases f - e,
{
    if e < f {
        if fits(n, d, e) {
            fits_on(n, d, e, f - 1);
        }
        exponent_from(n, d, e + 1, f);
    }
}

/// The power of two by which a number with the exponent is multiplied.
pub open spec fn up(e: int) -> nat {
    if e > 0 {
        p2(e as nat)
    } else {
        1
    }
}

/// The power of two by which a number with the exponent is divided.
pub open spec fn down(e: int) -> nat {
    if e < 0 {
        p2((-e) as nat)
    } else {
        1
    }
}

/// The number in double precision that is nearest to a fraction; of two that
/// are equally near, the one with an even mantissa.
pub open spec fn rounded(neg: bool, n: nat, d: nat) -> Real {
    let e = exponent(n, d, least());
    let m = half_even(n * down(e), d * up(e));
    if e >= too_large() {
        Real::Inf(neg)
    } else if m < p2(53) {
        Real::Fin(neg, m, e)
    } else if e + 1 < too_large() {
        Real::Fin(neg, p2(52), e + 1)
    } else {
        Real::Inf(neg)
    }
}

/// A number in double precision, by its bits: a sign, eleven bits of exponent,
/// and 52 bits of mantissa.
#[derive(Clone, Copy, Debug, PartialEq, Eq)]
pub struct Double {
    pub bits: u64,
}

impl View for Double {
    type V = Real;

    open spec fn view(&self) -> Real {
        let neg = self.bits >= 0x8000_0000_0000_0000;
        let x = (self.bits / 0x10_0000_0000_0000) % 2048;
        let f = self.bits % 0x10_0000_0000_0000;
        if x == 2047 {
            if f == 0 {
                Real::Inf(neg)
            } else {
                Real::Nan
            }
        } else if x == 0 {
            Real::Fin(neg, f as nat, least())
        } else {
            Real::Fin(neg, 0x10_0000_0000_0000 + f as nat, x - 1075)
        }
    }
}

pub proof fn p2_positive(k: nat)
    ensures
        p2(k) > 0,
    decreases k,
{
    if k > 0 {
        p2_positive((k - 1) as nat);
    }
}

pub proof fn p10_positive(k: nat)
    ensures
        p10(k) > 0,
    decreases k,
{
    if k > 0 {
        p10_positive((k - 1) as nat);
    }
}

pub proof fn p2_adds(a: nat, b: nat)
    ensures
        p2(a + b) == p2(a) * p2(b),
    decreases a,
{
    if a == 0 {
        assert(1 * p2(b) == p2(b));
    } else {
        p2_adds((a - 1) as nat, b);
        assert(p2(a + b) == 2 * p2((a + b - 1) as nat));
        assert((a - 1 + b) as nat == (a + b - 1) as nat);
        assert(2 * (p2((a - 1) as nat) * p2(b)) == (2 * p2((a - 1) as nat)) * p2(b))
            by (nonlinear_arith);
    }
}

pub(crate) proof fn p2_52()
    ensures
        p2(52) == 0x10_0000_0000_0000,
        p2(53) == 0x20_0000_0000_0000,
{
    reveal_with_fuel(p2, 14);
    assert(p2(13) == 8192);
    p2_adds(13, 13);
    assert(p2(26) == 8192 * 8192);
    p2_adds(26, 26);
}

proof fn regroup(n: nat, u: nat, a: nat, d: nat, b: nat, c: nat)
    requires
        u * b == c * a,
    ensures
        (n * a) * u == (n * u) * a,
        (d * b) * u == (d * c) * a,
{
    assert((n * a) * u == (n * u) * a) by (nonlinear_arith);
    assert((d * b) * u == d * (u * b)) by (nonlinear_arith);
    assert(d * (c * a) == (d * c) * a) by (nonlinear_arith);
}

proof fn cancel_less(n: nat, u: nat, a: nat, d: nat, b: nat, c: nat)
    requires
        n * a < d * b,
        u * b == c * a,
        u > 0,
    ensures
        n * u < d * c,
{
    regroup(n, u, a, d, b, c);
    let x = n * a;
    let y = d * b;
    assert(x * u < y * u) by (nonlinear_arith)
        requires
            x < y,
            u > 0,
    ;
    let v = n * u;
    let w = d * c;
    assert(v < w) by (nonlinear_arith)
        requires
            v * a < w * a,
    ;
}

proof fn cancel_more(n: nat, u: nat, a: nat, d: nat, b: nat, c: nat)
    requires
        n * a >= d * b,
        u * b == c * a,
        a > 0,
    ensures
        n * u >= d * c,
{
    regroup(n, u, a, d, b, c);
    let x = n * a;
    let y = d * b;
    assert(x * u >= y * u) by (nonlinear_arith)
        requires
            x >= y,
    ;
    let v = n * u;
    let w = d * c;
    assert(v >= w) by (nonlinear_arith)
        requires
            v * a >= w * a,
            a > 0,
    ;
}

/// The mantissa of a fraction that fits is in range.
pub(crate) proof fn scaled_below(n: nat, d: nat, e: int)
    requires
        least() <= e < too_large(),
        fits(n, d, e),
    ensures
        n * down(e) < (d * up(e)) * p2(53),
{
    let a = p2(1021);
    p2_positive(1021);
    p2_adds(53, 1021);
    assert(p2(1074) == p2(53) * a);
    if e >= 0 {
        p2_adds(e as nat, 1074);
        assert((e - least()) as nat == e as nat + 1074);
        let u = p2(e as nat);
        let c = p2(53);
        assert(up(e) == u) by {
            if e == 0 {
                assert(p2(0) == 1);
            }
        }
        assert(n < (d * u) * c) by (nonlinear_arith)
            requires
                n * a < d * (u * (c * a)),
                a > 0,
        ;
        assert(n * 1 == n);
    } else {
        let k = (-e) as nat;
        let j = (e - least()) as nat;
        p2_adds(k, j);
        assert(k + j == 1074);
        let u = p2(k);
        let c = p2(53);
        p2_positive(k);
        let b = p2(j);
        assert(u * b == c * a);
        cancel_less(n, u, a, d, b, c);
        assert(d * 1 == d);
    }
}

/// The mantissa of a fraction that does not fit with the next lower exponent is full.
pub(crate) proof fn scaled_above(n: nat, d: nat, e: int)
    requires
        least() < e < too_large(),
        !fits(n, d, e - 1),
    ensures
        n * down(e) >= (d * up(e)) * p2(52),
{
    let a = p2(1021);
    p2_positive(1021);
    p2_adds(52, 1021);
    assert(p2(1073) == p2(52) * a);
    let c = p2(52);
    if e > 0 {
        p2_adds(e as nat, 1073);
        assert((e - 1 - least()) as nat == e as nat + 1073);
        let u = p2(e as nat);
        assert(n >= (d * u) * c) by (nonlinear_arith)
            requires
                n * a >= d * (u * (c * a)),
                a > 0,
        ;
        assert(n * 1 == n);
    } else {
        let k = (-e) as nat;
        let j = (e - 1 - least()) as nat;
        p2_adds(k, j);
        assert(k + j == 1073);
        let u = p2(k);
        p2_positive(k);
        let b = p2(j);
        assert(down(e) == u) by {
            if e == 0 {
                assert(p2(0) == 1);
            }
        }
        assert(u * b == c * a);
        cancel_more(n, u, a, d, b, c);
        assert(d * 1 == d);
    }
}

pub(crate) proof fn half_even_below(n: nat, d: nat, c: nat)
    requires
        d > 0,
        n < d * c,
    ensures
        half_even(n, d) <= c,
{
    assert(n / d < c) by (nonlinear_arith)
        requires
            d > 0,
            n < d * c,
    ;
}

pub(crate) proof fn half_even_above(n: nat, d: nat, c: nat)
    requires
        d > 0,
        n >= d * c,
    ensures
        half_even(n, d) >= c,
{
    assert(n / d >= c) by (nonlinear_arith)
        requires
            d > 0,
            n >= d * c,
    ;
}

/// Rounds a fraction to a whole number.
pub fn divide_half_even(n: &BigNat, d: &BigNat) -> (r: BigNat)
    requires
        d@ > 0,
    ensures
        r@ == half_even(n@, d@),
{
    let (q, r) = n.div_rem(d);
    let twice = r.times_small(2);
    if twice.less(d) {
        return q;
    }
    let (_, odd) = q.div_small(2);
    if d.less(&twice) || odd == 1 {
        let one = BigNat::from_u64(1);
        q.plus(&one)
    } else {
        q
    }
}

proof fn p2_31()
    ensures
        p2(31) == 0x8000_0000,
{
    reveal_with_fuel(p2, 17);
    assert(p2(15) == 32768);
    assert(p2(16) == 65536);
    p2_adds(15, 16);
}

/// A power of two.
pub fn pow_two(k: u32) -> (r: BigNat)
    ensures
        r@ == p2(k as nat),
{
    let mut out = BigNat::from_u64(1);
    let mut i: u32 = 0;
    while i < k
        invariant
            i <= k,
            out@ == p2(i as nat),
        decreases k - i,
    {
        if k - i >= 31 {
            proof {
                p2_31();
                p2_adds(i as nat, 31);
            }
            out = out.times_small(0x8000_0000);
            i += 31;
        } else {
            out = out.times_small(2);
            i += 1;
        }
    }
    out
}

pub(crate) proof fn p10_adds(a: nat, b: nat)
    ensures
        p10(a + b) == p10(a) * p10(b),
    decreases a,
{
    if a == 0 {
        assert(1 * p10(b) == p10(b));
    } else {
        p10_adds((a - 1) as nat, b);
        assert((a - 1 + b) as nat == (a + b - 1) as nat);
        assert(10 * (p10((a - 1) as nat) * p10(b)) == (10 * p10((a - 1) as nat)) * p10(b))
            by (nonlinear_arith);
    }
}

/// A power of ten.
pub fn pow_ten(k: u128) -> (r: BigNat)
    ensures
        r@ == p10(k as nat),
{
    let mut out = BigNat::from_u64(1);
    let mut i: u128 = 0;
    while i < k
        invariant
            i <= k,
            out@ == p10(i as nat),
        decreases k - i,
    {
        if k - i >= 9 {
            proof {
                reveal_with_fuel(p10, 10);
                p10_adds(i as nat, 9);
            }
            out = out.times_small(1_000_000_000);
            i += 9;
        } else {
            out = out.times_small(10);
            i += 1;
        }
    }
    out
}

/// What multiplies a mantissa with the exponent.
fn up_factor(e: i32) -> (r: BigNat)
    requires
        -2000 <= e <= 2000,
    ensures
        r@ == up(e as int),
{
    if e > 0 {
        pow_two(e as u32)
    } else {
        BigNat::from_u64(1)
    }
}

/// What divides a mantissa with the exponent.
fn down_factor(e: i32) -> (r: BigNat)
    requires
        -2000 <= e <= 2000,
    ensures
        r@ == down(e as int),
{
    if e < 0 {
        pow_two((-e) as u32)
    } else {
        BigNat::from_u64(1)
    }
}

impl Double {
    /// The number with the given bits.
    pub fn from_bits(bits: u64) -> (r: Double)
        ensures
            r.bits == bits,
    {
        Double { bits }
    }

    /// The bits of the number.
    pub fn to_bits(self) -> (r: u64)
        ensures
            r == self.bits,
    {
        self.bits
    }

    fn pack(neg: bool, m: u64, e: i32) -> (r: Double)
        requires
            m < 0x20_0000_0000_0000,
            least() <= e < too_large(),
            m >= 0x10_0000_0000_0000 || e == least(),
        ensures
            r@ == Real::Fin(neg, m as nat, e as int),
    {
        let sign: u64 = if neg {
            0x8000_0000_0000_0000
        } else {
            0
        };
        if m < 0x10_0000_0000_0000 {
            Double { bits: sign + m }
        } else {
            let x: u64 = (e + 1075) as u64;
            assert(1 <= x <= 2046);
            Double { bits: sign + x * 0x10_0000_0000_0000 + (m - 0x10_0000_0000_0000) }
        }
    }

    fn infinite(neg: bool) -> (r: Double)
        ensures
            r@ == Real::Inf(neg),
    {
        if neg {
            Double { bits: 0xfff0_0000_0000_0000 }
        } else {
            Double { bits: 0x7ff0_0000_0000_0000 }
        }
    }

    /// The nearest number to a fraction.
    pub fn of_ratio(neg: bool, n: &BigNat, d: &BigNat) -> (r: Double)
        requires
            d@ > 0,
        ensures
            r@ == rounded(neg, n@, d@),
    {
        let shift = pow_two(1021);
        let a = n.times(&shift);
        let mut b = d.copy();
        let mut e: i32 = -1074;
        proof {
            assert(p2(0) == 1);
            assert(d@ * 1 == d@);
        }
        let guess: i32 = n.size() as i32 - d.size() as i32 - 54;
        if -1074 < guess && guess < 972 {
            let below = d.times(&pow_two((guess + 1073) as u32));
            if !a.less(&below) {
                proof {
                    let k = (guess - 1 - least()) as nat;
                    assert(k == (guess + 1073) as nat);
                    assert(p2(k + 1) == 2 * p2(k));
                    assert((d@ * p2(k)) * 2 == d@ * (2 * p2(k))) by (nonlinear_arith);
                    exponent_from(n@, d@, least(), guess as int);
                }
                b = below.times_small(2);
                e = guess;
            }
        }
        while e < 972 && !a.less(&b)
            invariant
                least() <= e <= too_large(),
                a@ == n@ * p2(1021),
                b@ == d@ * p2((e - least()) as nat),
                exponent(n@, d@, least()) == exponent(n@, d@, e as int),
                e > least() ==> !fits(n@, d@, e - 1),
            decreases too_large() - e,
        {
            b = b.times_small(2);
            proof {
                let k = (e - least()) as nat;
                assert((e + 1 - least()) as nat == k + 1);
                assert(p2(k + 1) == 2 * p2(k));
                assert((d@ * p2(k)) * 2 == d@ * (2 * p2(k))) by (nonlinear_arith);
            }
            e += 1;
        }
        if e >= 972 {
            return Double::infinite(neg);
        }
        let up = up_factor(e);
        let down = down_factor(e);
        let top = n.times(&down);
        let bottom = d.times(&up);
        proof {
            p2_52();
            if e > 0 {
                p2_positive(e as nat);
            }
            assert(bottom@ > 0) by (nonlinear_arith)
                requires
                    d@ > 0,
                    up@ > 0,
                    bottom@ == d@ * up@,
            ;
            scaled_below(n@, d@, e as int);
            half_even_below(top@, bottom@, p2(53));
            if e > least() {
                scaled_above(n@, d@, e as int);
                half_even_above(top@, bottom@, p2(52));
            }
        }
        let m: u64 = divide_half_even(&top, &bottom).to_u64();
        if m < 0x20_0000_0000_0000 {
            Double::pack(neg, m, e)
        } else if e + 1 < 972 {
            Double::pack(neg, 0x10_0000_0000_0000, e + 1)
        } else {
            Double::infinite(neg)
        }
    }

    /// The nearest number to a natural number.
    pub fn of_u64(n: u64) -> (r: Double)
        ensures
            r@ == rounded(false, n as nat, 1),
    {
        let top = BigNat::from_u64(n);
        let one = BigNat::from_u64(1);
        Double::of_ratio(false, &top, &one)
    }

    /// The nearest number to an integer.
    pub fn of_i64(n: i64) -> (r: Double)
        ensures
            r@ == rounded(n < 0, if n < 0 { (-n) as nat } else { n as nat }, 1),
    {
        let m: i128 = if n < 0 {
            -(n as i128)
        } else {
            n as i128
        };
        let top = BigNat::from_u64(m as u64);
        let one = BigNat::from_u64(1);
        Double::of_ratio(n < 0, &top, &one)
    }
}

} // verus!
