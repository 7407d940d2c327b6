//! Arithmetic in double precision.

use crate::number::bignat::BigNat;
use crate::number::double::{
    down, least, p2_positive, pow_two, rounded, too_large, up, Double, Real,
};
use vstd::prelude::*;

verus! {

/// The numerator of a mantissa with an exponent.
pub open spec fn num(m: nat, e: int) -> nat {
    m * up(e)
}

/// The denominator that goes with an exponent.
pub open spec fn den(e: int) -> nat {
    down(e)
}

/// Zero with a sign.
pub open spec fn zero(neg: bool) -> Real {
    Real::Fin(neg, 0, least())
}

/// The product.
pub open spec fn product(a: Real, b: Real) -> Real {
    match (a, b) {
        (Real::Fin(s, m, e), Real::Fin(t, n, f)) => rounded(
            s != t,
            num(m, e) * num(n, f),
            den(e) * den(f),
        ),
        (Real::Inf(s), Real::Inf(t)) => Real::Inf(s != t),
        (Real::Inf(s), Real::Fin(t, n, f)) => if n == 0 {
            Real::Nan
        } else {
            Real::Inf(s != t)
        },
        (Real::Fin(s, m, e), Real::Inf(t)) => if m == 0 {
            Real::Nan
        } else {
            Real::Inf(s != t)
        },
        _ => Real::Nan,
    }
}

/// The quotient.
pub open spec fn quotient(a: Real, b: Real) -> Real {
    match (a, b) {
        (Real::Fin(s, m, e), Real::Fin(t, n, f)) => if n == 0 {
            if m == 0 {
                Real::Nan
            } else {
                Real::Inf(s != t)
            }
        } else {
            rounded(s != t, num(m, e) * den(f), den(e) * num(n, f))
        },
        (Real::Inf(s), Real::Fin(t, n, f)) => Real::Inf(s != t),
        (Real::Fin(s, m, e), Real::Inf(t)) => zero(s != t),
        _ => Real::Nan,
    }
}

/// The sum.
pub open spec fn sum(a: Real, b: Real) -> Real {
    match (a, b) {
        (Real::Fin(s, m, e), Real::Fin(t, n, f)) => {
            let x = num(m, e) * den(f);
            let y = num(n, f) * den(e);
            let d = den(e) * den(f);
            if s == t {
                rounded(s, x + y, d)
            } else if x > y {
                rounded(s, (x - y) as nat, d)
            } else if y > x {
                rounded(t, (y - x) as nat, d)
            } else {
                zero(false)
            }
        },
        (Real::Inf(s), Real::Inf(t)) => if s == t {
            Real::Inf(s)
        } else {
            Real::Nan
        },
        (Real::Inf(s), Real::Fin(t, n, f)) => Real::Inf(s),
        (Real::Fin(s, m, e), Real::Inf(t)) => Real::Inf(t),
        _ => Real::Nan,
    }
}

/// The number with the other sign.
pub open spec fn negated(a: Real) -> Real {
    match a {
        Real::Fin(s, m, e) => Real::Fin(!s, m, e),
        Real::Inf(s) => Real::Inf(!s),
        Real::Nan => Real::Nan,
    }
}

/// The difference.
pub open spec fn difference(a: Real, b: Real) -> Real {
    sum(a, negated(b))
}

/// The number without its sign.
pub open spec fn magnitude(a: Real) -> Real {
    match a {
        Real::Fin(s, m, e) => Real::Fin(false, m, e),
        Real::Inf(s) => Real::Inf(false),
        Real::Nan => Real::Nan,
    }
}

/// Whether a number is less than another.
pub open spec fn is_less(a: Real, b: Real) -> bool {
    match (a, b) {
        (Real::Fin(s, m, e), Real::Fin(t, n, f)) => {
            let x = num(m, e) * den(f);
            let y = num(n, f) * den(e);
            if s && t {
                y < x
            } else if s {
                x > 0 || y > 0
            } else if t {
                false
            } else {
                x < y
            }
        },
        (Real::Inf(s), Real::Inf(t)) => s && !t,
        (Real::Inf(s), Real::Fin(t, n, f)) => s,
        (Real::Fin(s, m, e), Real::Inf(t)) => !t,
        _ => false,
    }
}

/// The parts of a number.
pub enum Parts {
    Nan,
    Inf(bool),
    Fin(bool, u64, i32),
}

/// What the parts make up.
pub open spec fn parts_view(p: Parts) -> Real {
    match p {
        Parts::Nan => Real::Nan,
        Parts::Inf(s) => Real::Inf(s),
        Parts::Fin(s, m, e) => Real::Fin(s, m as nat, e as int),
    }
}

/// The numerator of a mantissa with an exponent.
pub fn numerator(m: u64, e: i32) -> (r: BigNat)
    requires
        least() <= e < too_large(),
    ensures
        r@ == num(m as nat, e as int),
{
    let top = BigNat::from_u64(m);
    if e > 0 {
        top.times(&pow_two(e as u32))
    } else {
        assert(top@ * 1 == top@);
        top
    }
}

/// The denominator that goes with an exponent.
pub fn denominator(e: i32) -> (r: BigNat)
    requires
        least() <= e < too_large(),
    ensures
        r@ == den(e as int),
        r@ > 0,
{
    if e < 0 {
        proof {
            p2_positive((-e) as nat);
        }
        pow_two((-e) as u32)
    } else {
        BigNat::from_u64(1)
    }
}

proof fn positive_product(a: nat, b: nat)
    requires
        a > 0,
        b > 0,
    ensures
        a * b > 0,
{
    assert(a * b > 0) by (nonlinear_arith)
        requires
            a > 0,
            b > 0,
    ;
}

impl Double {
    /// Takes a number apart.
    pub fn parts(self) -> (r: Parts)
        ensures
            parts_view(r) == self@,
            r matches Parts::Fin(s, m, e) ==> least() <= e < too_large() && m < 0x20_0000_0000_0000,
    {
        let neg = self.bits >= 0x8000_0000_0000_0000;
        let x: u64 = (self.bits / 0x10_0000_0000_0000) % 2048;
        let f: u64 = self.bits % 0x10_0000_0000_0000;
        if x == 2047 {
            if f == 0 {
                Parts::Inf(neg)
            } else {
                Parts::Nan
            }
        } else if x == 0 {
            Parts::Fin(neg, f, -1074)
        } else {
            Parts::Fin(neg, 0x10_0000_0000_0000 + f, x as i32 - 1075)
        }
    }

    /// No number.
    pub fn nan() -> (r: Double)
        ensures
            r@ == Real::Nan,
    {
        Double { bits: 0x7ff8_0000_0000_0000 }
    }

    /// An infinite number.
    pub fn infinity(neg: bool) -> (r: Double)
        ensures
            r@ == Real::Inf(neg),
    {
        if neg {
            Double { bits: 0xfff0_0000_0000_0000 }
        } else {
            Double { bits: 0x7ff0_0000_0000_0000 }
        }
    }

    /// Zero with a sign.
    pub fn signed_zero(neg: bool) -> (r: Double)
        ensures
            r@ == zero(neg),
    {
        if neg {
            Double { bits: 0x8000_0000_0000_0000 }
        } else {
            Double { bits: 0 }
        }
    }

    /// The number with the other sign.
    pub fn negate(self) -> (r: Double)
        ensures
            r@ == negated(self@),
    {
        if self.bits >= 0x8000_0000_0000_0000 {
            Double { bits: self.bits - 0x8000_0000_0000_0000 }
        } else {
            Double { bits: self.bits + 0x8000_0000_0000_0000 }
        }
    }

    /// The number without its sign.
    pub fn abs(self) -> (r: Double)
        ensures
            r@ == magnitude(self@),
    {
        if self.bits >= 0x8000_0000_0000_0000 {
            Double { bits: self.bits - 0x8000_0000_0000_0000 }
        } else {
            self
        }
    }

    /// Multiplies.
    pub fn times(self, other: Double) -> (r: Double)
        ensures
            r@ == product(self@, other@),
    {
        match (self.parts(), other.parts()) {
            (Parts::Fin(s, m, e), Parts::Fin(t, n, f)) => {
                let top = numerator(m, e).times(&numerator(n, f));
                let a = denominator(e);
                let b = denominator(f);
                proof {
                    positive_product(a@, b@);
                }
                Double::of_ratio(s != t, &top, &a.times(&b))
            },
            (Parts::Inf(s), Parts::Inf(t)) => Double::infinity(s != t),
            (Parts::Inf(s), Parts::Fin(t, n, _)) => if n == 0 {
                Double::nan()
            } else {
                Double::infinity(s != t)
            },
            (Parts::Fin(s, m, _), Parts::Inf(t)) => if m == 0 {
                Double::nan()
            } else {
                Double::infinity(s != t)
            },
            _ => Double::nan(),
        }
    }

    /// Divides.
    pub fn over(self, other: Double) -> (r: Double)
        ensures
            r@ == quotient(self@, other@),
    {
        match (self.parts(), other.parts()) {
            (Parts::Fin(s, m, e), Parts::Fin(t, n, f)) => {
                if n == 0 {
                    if m == 0 {
                        Double::nan()
                    } else {
                        Double::infinity(s != t)
                    }
                } else {
                    let top = numerator(m, e).times(&denominator(f));
                    let a = denominator(e);
                    let b = numerator(n, f);
                    proof {
                        if f > 0 {
                            p2_positive(f as nat);
                        }
                        positive_product(n as nat, up(f as int));
                        positive_product(a@, b@);
                    }
                    Double::of_ratio(s != t, &top, &a.times(&b))
                }
            },
            (Parts::Inf(s), Parts::Fin(t, _, _)) => Double::infinity(s != t),
            (Parts::Fin(s, _, _), Parts::Inf(t)) => Double::signed_zero(s != t),
            _ => Double::nan(),
        }
    }

    /// Adds.
    pub fn plus(self, other: Double) -> (r: Double)
        ensures
            r@ == sum(self@, other@),
    {
        match (self.parts(), other.parts()) {
            (Parts::Fin(s, m, e), Parts::Fin(t, n, f)) => {
                let a = denominator(e);
                let b = denominator(f);
                let x = numerator(m, e).times(&b);
                let y = numerator(n, f).times(&a);
                proof {
                    positive_product(a@, b@);
                }
                let d = a.times(&b);
                if s == t {
                    Double::of_ratio(s, &x.plus(&y), &d)
                } else if y.less(&x) {
                    Double::of_ratio(s, &x.minus(&y), &d)
                } else if x.less(&y) {
                    Double::of_ratio(t, &y.minus(&x), &d)
                } else {
                    Double::signed_zero(false)
                }
            },
            (Parts::Inf(s), Parts::Inf(t)) => if s == t {
                Double::infinity(s)
            } else {
                Double::nan()
            },
            (Parts::Inf(s), Parts::Fin(_, _, _)) => Double::infinity(s),
            (Parts::Fin(_, _, _), Parts::Inf(t)) => Double::infinity(t),
            _ => Double::nan(),
        }
    }

    /// Subtracts.
    pub fn minus(self, other: Double) -> (r: Double)
        ensures
            r@ == difference(self@, other@),
    {
        self.plus(other.negate())
    }

    /// Whether the number is less than another.
    pub fn less(self, other: Double) -> (r: bool)
        ensures
            r == is_less(self@, other@),
    {
        match (self.parts(), other.parts()) {
            (Parts::Fin(s, m, e), Parts::Fin(t, n, f)) => {
                let x = numerator(m, e).times(&denominator(f));
                let y = numerator(n, f).times(&denominator(e));
                if s && t {
                    y.less(&x)
                } else if s {
                    !x.is_zero() || !y.is_zero()
                } else if t {
                    false
                } else {
                    x.less(&y)
                }
            },
            (Parts::Inf(s), Parts::Inf(t)) => s && !t,
            (Parts::Inf(s), Parts::Fin(_, _, _)) => s,
            (Parts::Fin(_, _, _), Parts::Inf(t)) => !t,
            _ => false,
        }
    }

    /// Whether this is no number.
    pub fn is_nan(self) -> (r: bool)
        ensures
            r == (self@ is Nan),
    {
        matches!(self.parts(), Parts::Nan)
    }

    /// Whether the number is finite.
    pub fn is_finite(self) -> (r: bool)
        ensures
            r == (self@ is Fin),
    {
        matches!(self.parts(), Parts::Fin(_, _, _))
    }

    /// The nearest integer, away from zero where two are equally near: zero for
    /// no number, and the nearest end of the range for what is beyond it.
    pub fn round(self) -> (r: i64)
        ensures
            r == nearest_int(self@),
    {
        match self.parts() {
            Parts::Nan => 0,
            Parts::Inf(s) => if s {
                i64::MIN
            } else {
                i64::MAX
            },
            Parts::Fin(s, m, e) => {
                let d = denominator(e);
                let top = numerator(m, e).times_small(2).plus(&d);
                let bottom = d.times_small(2);
                let (q, _) = top.div_rem(&bottom);
                let max = BigNat::from_u64(0x7fff_ffff_ffff_ffff);
                if q.less(&max) {
                    let n: i64 = q.to_u64() as i64;
                    if s {
                        -n
                    } else {
                        n
                    }
                } else if s {
                    if max.less(&q) {
                        i64::MIN
                    } else {
                        -i64::MAX
                    }
                } else {
                    i64::MAX
                }
            },
        }
    }

    /// The whole part as a signed integer: zero for no number, and the nearest
    /// end of the range for what is beyond it.
    pub fn truncate_signed(self) -> (r: i64)
        ensures
            r == whole_int(self@),
    {
        match self.parts() {
            Parts::Nan => 0,
            Parts::Inf(s) => if s {
                i64::MIN
            } else {
                i64::MAX
            },
            Parts::Fin(s, m, e) => {
                let (q, _) = numerator(m, e).div_rem(&denominator(e));
                let max = BigNat::from_u64(0x7fff_ffff_ffff_ffff);
                if max.less(&q) {
                    if s {
                        i64::MIN
                    } else {
                        i64::MAX
                    }
                } else {
                    let n: i64 = q.to_u64() as i64;
                    if s {
                        -n
                    } else {
                        n
                    }
                }
            },
        }
    }

    /// The whole part as an unsigned integer: zero below zero and for no
    /// number, and the largest integer for what is beyond it.
    pub fn truncate(self) -> (r: u64)
        ensures
            r == truncated(self@),
    {
        match self.parts() {
            Parts::Nan => 0,
            Parts::Inf(s) => if s {
                0
            } else {
                u64::MAX
            },
            Parts::Fin(s, m, e) => {
                if s {
                    return 0;
                }
                let top = numerator(m, e);
                let (q, _) = top.div_rem(&denominator(e));
                let max = BigNat::from_u64(u64::MAX);
                if q.less(&max) {
                    q.to_u64()
                } else {
                    u64::MAX
                }
            },
        }
    }
}

/// The integer nearest to a number, away from zero where two are equally near,
/// as far as a signed integer holds it.
pub open spec fn nearest_int(a: Real) -> int {
    match a {
        Real::Nan => 0,
        Real::Inf(s) => if s {
            i64::MIN as int
        } else {
            i64::MAX as int
        },
        Real::Fin(s, m, e) => {
            let q = (num(m, e) * 2 + den(e)) / (den(e) * 2);
            if s {
                if q > i64::MAX {
                    i64::MIN as int
                } else {
                    -(q as int)
                }
            } else if q > i64::MAX {
                i64::MAX as int
            } else {
                q as int
            }
        },
    }
}

/// The whole part of a number, as far as a signed integer holds it.
pub open spec fn whole_int(a: Real) -> int {
    match a {
        Real::Nan => 0,
        Real::Inf(s) => if s {
            i64::MIN as int
        } else {
            i64::MAX as int
        },
        Real::Fin(s, m, e) => {
            let q = num(m, e) / den(e);
            if q > i64::MAX {
                if s {
                    i64::MIN as int
                } else {
                    i64::MAX as int
                }
            } else if s {
                -(q as int)
            } else {
                q as int
            }
        },
    }
}

/// The number nearest to an integer.
pub open spec fn of_int(n: int) -> Real {
    if n < 0 {
        rounded(true, (-n) as nat, 1)
    } else {
        rounded(false, n as nat, 1)
    }
}

/// The whole part of a number, as far as an unsigned integer holds it.
pub open spec fn truncated(a: Real) -> u64 {
    match a {
        Real::Nan => 0,
        Real::Inf(s) => if s {
            0
        } else {
            u64::MAX
        },
        Real::Fin(s, m, e) => {
            let q = num(m, e) / den(e);
            if s {
                0
            } else if q < u64::MAX {
                q as u64
            } else {
                u64::MAX
            }
        },
    }
}

} // verus!
