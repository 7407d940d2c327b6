//! Numbers in as few digits as tell them apart.

use crate::number::arith::{den, denominator, num, numerator, Parts};
use crate::number::bignat::BigNat;
use crate::number::double::{least, p10, p10_positive, pow_ten, too_large, Double, Real};
use crate::number::fixed::{padded_digits, push_digits, push_padded};
use crate::number::parse::scaled;
use crate::numeral::nat_text;
use crate::text::{repeat, repeated};
use vstd::prelude::*;

verus! {

/// How often the `s`th power of ten goes into a fraction.
pub open spec fn whole_at(n: nat, d: nat, s: int) -> nat {
    if s >= 0 {
        n / (d * p10(s as nat))
    } else {
        (n * p10((-s) as nat)) / d
    }
}

/// Whether `c * 10^s` is read as the mantissa with the exponent.
pub open spec fn reads_as(c: nat, s: int, m: nat, e: int) -> bool {
    scaled(false, c, s) == Real::Fin(false, m, e)
}

/// Whether the nearest multiple of `10^s` is farther away than the one below.
pub open spec fn nearer_below(n: nat, d: nat, s: int) -> bool {
    let c = whole_at(n, d, s);
    if s >= 0 {
        2 * (n % (d * p10(s as nat))) < d * p10(s as nat)
    } else {
        2 * ((n * p10((-s) as nat)) % d) < d
    }
}

/// The multiple of `10^s` next to a number that is read as the number, the
/// nearer one where both are.
pub open spec fn neighbour(m: nat, e: int, s: int) -> Option<nat> {
    let n = num(m, e);
    let d = den(e);
    let c = whole_at(n, d, s);
    let low = reads_as(c, s, m, e);
    let high = reads_as(c + 1, s, m, e);
    if low && (!high || nearer_below(n, d, s)) {
        Some(c)
    } else if high {
        Some(c + 1)
    } else {
        None
    }
}

/// The largest power of ten, from the `s`th down, of which a multiple is read
/// as the number.
pub open spec fn coarsest(m: nat, e: int, s: int) -> int
    decreases s + 1100,
{
    if s <= -1100 || neighbour(m, e, s) is Some {
        s
    } else {
        coarsest(m, e, s - 1)
    }
}

/// `c * 10^s` in digits.
pub open spec fn plain_text(c: nat, s: int) -> Seq<char> {
    if s >= 0 {
        nat_text(c) + repeated('0', s)
    } else {
        let k = (-s) as nat;
        nat_text(c / p10(k)) + seq!['.'] + padded_digits(c % p10(k), k)
    }
}

/// A number in as few digits as it is read back from.
pub open spec fn shortest_text(x: Real) -> Seq<char> {
    match x {
        Real::Nan => "NaN"@,
        Real::Inf(neg) => if neg {
            "-inf"@
        } else {
            "inf"@
        },
        Real::Fin(neg, m, e) => {
            let s = coarsest(m, e, 309);
            let sign = if neg {
                seq!['-']
            } else {
                Seq::empty()
            };
            if m == 0 {
                sign + seq!['0']
            } else {
                match neighbour(m, e, s) {
                    Some(c) => sign + plain_text(c, s),
                    None => sign,
                }
            }
        },
    }
}

fn candidate_reads(c: &BigNat, s: i32, m: u64, e: i32) -> (r: bool)
    requires
        -1100 <= s <= 309,
    ensures
        r == reads_as(c@, s as int, m as nat, e as int),
{
    let x = if s >= 0 {
        let top = c.times(&pow_ten(s as u128));
        let one = BigNat::from_u64(1);
        Double::of_ratio(false, &top, &one)
    } else {
        proof {
            p10_positive((-s) as nat);
        }
        Double::of_ratio(false, c, &pow_ten((-s) as u128))
    };
    match x.parts() {
        Parts::Fin(neg, n, f) => !neg && n == m && f == e,
        _ => false,
    }
}

fn find_neighbour(m: u64, e: i32, s: i32) -> (r: Option<BigNat>)
    requires
        -1100 <= s <= 309,
        least() <= e < too_large(),
    ensures
        r matches Some(c) ==> neighbour(m as nat, e as int, s as int) == Some(c@),
        r is None ==> neighbour(m as nat, e as int, s as int) is None,
{
    let n = numerator(m, e);
    let d = denominator(e);
    proof {
        p10_positive(if s >= 0 { s as nat } else { (-s) as nat });
    }
    let (top, bottom) = if s >= 0 {
        let p = pow_ten(s as u128);
        let bottom = d.times(&p);
        assert(bottom@ > 0) by (nonlinear_arith)
            requires
                d@ > 0,
                p@ > 0,
                bottom@ == d@ * p@,
        ;
        (n, bottom)
    } else {
        (n.times(&pow_ten((-s) as u128)), d)
    };
    let (c, rest) = top.div_rem(&bottom);
    let one = BigNat::from_u64(1);
    let above = c.plus(&one);
    let low = candidate_reads(&c, s, m, e);
    let high = candidate_reads(&above, s, m, e);
    if low && (!high || rest.times_small(2).less(&bottom)) {
        Some(c)
    } else if high {
        Some(above)
    } else {
        None
    }
}

impl Double {
    /// Writes the number in as few digits as it is read back from.
    pub fn shortest(self) -> (r: String)
        ensures
            r@ == shortest_text(self@),
    {
        let (neg, m, e) = match self.parts() {
            Parts::Nan => {
                return "NaN".to_owned();
            },
            Parts::Inf(neg) => {
                return if neg {
                    "-inf".to_owned()
                } else {
                    "inf".to_owned()
                };
            },
            Parts::Fin(neg, m, e) => (neg, m, e),
        };
        let mut out = String::new();
        if neg {
            out.push('-');
        }
        let ghost sign = if neg {
            seq!['-']
        } else {
            Seq::empty()
        };
        assert(out@ =~= sign);
        if m == 0 {
            out.push('0');
            assert(out@ =~= sign + seq!['0']);
            return out;
        }
        let mut s: i32 = 309;
        let mut found = find_neighbour(m, e, s);
        while s > -1100 && found.is_none()
            invariant
                -1100 <= s <= 309,
                least() <= e < too_large(),
                coarsest(m as nat, e as int, 309) == coarsest(m as nat, e as int, s as int),
                found matches Some(c) ==> neighbour(m as nat, e as int, s as int) == Some(c@),
                found is None ==> neighbour(m as nat, e as int, s as int) is None,
            decreases s + 1100,
        {
            s -= 1;
            found = find_neighbour(m, e, s);
        }
        assert(coarsest(m as nat, e as int, 309) == s);
        match found {
            Some(c) => {
                if s >= 0 {
                    push_digits(&mut out, &c);
                    let zeros = repeat('0', s as usize);
                    out.append(zeros.as_str());
                } else {
                    let k: u32 = (-s) as u32;
                    let p = pow_ten(k as u128);
                    proof {
                        p10_positive(k as nat);
                    }
                    let (whole, rest) = c.div_rem(&p);
                    push_digits(&mut out, &whole);
                    out.push('.');
                    push_padded(&mut out, &rest, k);
                }
                assert(out@ =~= sign + plain_text(c@, s as int));
            },
            None => {},
        }
        out
    }
}

} // verus!
