//! Numbers with a fixed count of decimals.

use crate::number::arith::{den, num, Parts};
use crate::number::bignat::BigNat;
use crate::number::double::{
    divide_half_even, half_even, p10, p10_positive, p2_positive, pow_ten, pow_two, Double, Real,
};
use crate::numeral::{digit_char, nat_text};
use vstd::prelude::*;

verus! {

/// A number below `10^k` in `k` digits.
pub open spec fn padded_digits(n: nat, k: nat) -> Seq<char>
    decreases k,
{
    if k == 0 {
        Seq::empty()
    } else {
        padded_digits(n / 10, (k - 1) as nat).push(digit_char((n % 10) as int))
    }
}

/// A fraction with `k` decimals, rounded to the nearest; of two that are
/// equally near, to the one with the even last digit.
pub open spec fn fixed_ratio(n: nat, d: nat, k: nat) -> Seq<char> {
    let q = half_even(n * p10(k), d);
    if k == 0 {
        nat_text(q)
    } else {
        nat_text(q / p10(k)) + seq!['.'] + padded_digits(q % p10(k), k)
    }
}

/// A number with `k` decimals.
pub open spec fn fixed_text(x: Real, k: nat) -> Seq<char> {
    match x {
        Real::Nan => "NaN"@,
        Real::Inf(neg) => if neg {
            "-inf"@
        } else {
            "inf"@
        },
        Real::Fin(neg, m, e) => if neg {
            seq!['-'] + fixed_ratio(num(m, e), den(e), k)
        } else {
            fixed_ratio(num(m, e), den(e), k)
        },
    }
}

/// A number with `k` decimals and its sign, also where it is not negative.
pub open spec fn signed_fixed_text(x: Real, k: nat) -> Seq<char> {
    match x {
        Real::Nan => "NaN"@,
        Real::Inf(neg) => if neg {
            "-inf"@
        } else {
            "+inf"@
        },
        Real::Fin(neg, m, e) => seq![if neg { '-' } else { '+' }] + fixed_ratio(
            num(m, e),
            den(e),
            k,
        ),
    }
}

/// Writes a natural number behind a text.
pub fn push_digits(out: &mut String, n: &BigNat)
    ensures
        final(out)@ == old(out)@ + nat_text(n@),
    decreases n@,
{
    let (q, r) = n.div_small(10);
    if !q.is_zero() {
        push_digits(out, &q);
        out.push((48 + r as u8) as char);
        assert(out@ =~= old(out)@ + nat_text(n@));
    } else {
        out.push((48 + r as u8) as char);
        assert(out@ =~= old(out)@ + nat_text(n@));
    }
}

/// Writes a number behind a text, in so many digits.
pub fn push_padded(out: &mut String, n: &BigNat, k: u32)
    ensures
        final(out)@ == old(out)@ + padded_digits(n@, k as nat),
    decreases k,
{
    if k > 0 {
        let (q, r) = n.div_small(10);
        push_padded(out, &q, k - 1);
        out.push((48 + r as u8) as char);
    }
    assert(out@ =~= old(out)@ + padded_digits(n@, k as nat));
}

/// Writes a fraction with so many decimals behind a text.
pub fn push_ratio(out: &mut String, n: &BigNat, d: &BigNat, k: u32)
    requires
        d@ > 0,
    ensures
        final(out)@ == old(out)@ + fixed_ratio(n@, d@, k as nat),
{
    let scale = pow_ten(k as u128);
    let q = divide_half_even(&n.times(&scale), d);
    if k == 0 {
        push_digits(out, &q);
    } else {
        proof {
            p10_positive(k as nat);
        }
        let (whole, rest) = q.div_rem(&scale);
        push_digits(out, &whole);
        out.push('.');
        push_padded(out, &rest, k);
    }
    assert(out@ =~= old(out)@ + fixed_ratio(n@, d@, k as nat));
}

impl Double {
    fn push_fixed(self, out: &mut String, k: u32)
        requires
            self@ is Fin,
        ensures
            self@ matches Real::Fin(neg, m, e) && final(out)@ == old(out)@ + fixed_ratio(
                num(m, e),
                den(e),
                k as nat,
            ),
    {
        match self.parts() {
            Parts::Fin(_, m, e) => {
                let mut top = BigNat::from_u64(m);
                let mut bottom = BigNat::from_u64(1);
                if e > 0 {
                    top = top.times(&pow_two(e as u32));
                } else if e < 0 {
                    bottom = pow_two((-e) as u32);
                    proof {
                        p2_positive((-e) as nat);
                    }
                }
                assert(m * 1 == m);
                push_ratio(out, &top, &bottom, k);
            },
            _ => {},
        }
    }

    /// Writes the number with `k` decimals.
    pub fn fixed(self, k: u32) -> (r: String)
        ensures
            r@ == fixed_text(self@, k as nat),
    {
        match self.parts() {
            Parts::Nan => "NaN".to_owned(),
            Parts::Inf(neg) => if neg {
                "-inf".to_owned()
            } else {
                "inf".to_owned()
            },
            Parts::Fin(neg, _, _) => {
                let mut out = String::new();
                if neg {
                    out.push('-');
                }
                self.push_fixed(&mut out, k);
                assert(out@ =~= fixed_text(self@, k as nat));
                out
            },
        }
    }

    /// Writes the number with `k` decimals and always a sign.
    pub fn signed_fixed(self, k: u32) -> (r: String)
        ensures
            r@ == signed_fixed_text(self@, k as nat),
    {
        match self.parts() {
            Parts::Nan => "NaN".to_owned(),
            Parts::Inf(neg) => if neg {
                "-inf".to_owned()
            } else {
                "+inf".to_owned()
            },
            Parts::Fin(neg, _, _) => {
                let mut out = String::new();
                if neg {
                    out.push('-');
                } else {
                    out.push('+');
                }
                self.push_fixed(&mut out, k);
                assert(out@ =~= signed_fixed_text(self@, k as nat));
                out
            },
        }
    }
}

} // verus!
