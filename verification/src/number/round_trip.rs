//! What is written in as few digits as possible is read back.

use crate::number::arith::{den, num};
use crate::number::double::{down, least, p10, p10_positive, p2, p2_52, p2_adds, up, Double, Real};
use crate::number::exact::{canonical, factors_positive, rounds_to};
use crate::number::fixed::padded_digits;
use crate::number::parse::{
    exponent_mark, has_minus, is_word, read_double, read_mantissa, scaled, unsigned_part,
};
use crate::number::shortest::{coarsest, neighbour, plain_text, reads_as, shortest_text, whole_at};
use crate::numeral::{all_digits, digits_value, is_digit, nat_text, nat_text_reads_back};
use crate::text::{halves, halves_of, next_char_unique, repeated};
use vstd::prelude::*;

verus! {

pub(crate) proof fn digits_of_both(a: Seq<char>, b: Seq<char>)
    ensures
        digits_value(a + b) == digits_value(a) * p10(b.len()) + digits_value(b),
    decreases b.len(),
{
    if b.len() == 0 {
        assert(a + b =~= a);
        assert(digits_value(a) * 1 == digits_value(a));
    } else {
        let front = b.drop_last();
        digits_of_both(a, front);
        assert((a + b).drop_last() =~= a + front);
        let x = digits_value(a);
        let p = p10(front.len());
        assert((x * p + digits_value(front)) * 10 == x * (10 * p) + digits_value(front) * 10)
            by (nonlinear_arith);
    }
}

pub(crate) proof fn padded_reads_back(n: nat, k: nat)
    requires
        n < p10(k),
    ensures
        all_digits(padded_digits(n, k)),
        padded_digits(n, k).len() == k,
        digits_value(padded_digits(n, k)) == n,
    decreases k,
{
    if k > 0 {
        assert(n / 10 < p10((k - 1) as nat)) by (nonlinear_arith)
            requires
                n < 10 * p10((k - 1) as nat),
        ;
        padded_reads_back(n / 10, (k - 1) as nat);
        assert(padded_digits(n, k).drop_last() =~= padded_digits(n / 10, (k - 1) as nat));
    }
}

proof fn zeros_read_back(k: nat)
    ensures
        all_digits(repeated('0', k as int)),
        digits_value(repeated('0', k as int)) == 0,
    decreases k,
{
    if k > 0 {
        zeros_read_back((k - 1) as nat);
        assert(repeated('0', k as int).drop_last() =~= repeated('0', k - 1));
    }
}

/// Whether a text is digits, perhaps with points among them.
pub(crate) open spec fn is_plain(s: Seq<char>) -> bool {
    forall|i: int| 0 <= i < s.len() ==> is_digit(#[trigger] s[i]) || s[i] == '.'
}

proof fn no_exponent(s: Seq<char>, i: int)
    requires
        is_plain(s),
        0 <= i <= s.len(),
    ensures
        exponent_mark(s, i) == s.len(),
    decreases s.len() - i,
{
    if i < s.len() {
        assert(is_digit(s[i]) || s[i] == '.');
        no_exponent(s, i + 1);
    }
}

/// A text of digits with a sign before it is read as its mantissa.
pub(crate) proof fn plain_is_read(sign: Seq<char>, t: Seq<char>, neg: bool)
    requires
        is_plain(t),
        t.len() > 0,
        is_digit(t[0]),
        sign == (if neg {
            seq!['-']
        } else {
            Seq::empty()
        }),
    ensures
        read_double(sign + t) == read_mantissa(neg, t, 0),
{
    let s = sign + t;
    if neg {
        assert(s[0] == '-');
        assert(s.skip(1) =~= t);
    } else {
        assert(s =~= t);
    }
    assert(has_minus(s) == neg);
    assert(unsigned_part(s) == t);
    no_exponent(t, 0);
    reveal_strlit("inf");
    reveal_strlit("infinity");
    reveal_strlit("nan");
    assert("inf"@[0] == 'i');
    assert("infinity"@[0] == 'i');
    assert("nan"@[0] == 'n');
    assert(crate::text::lower(t[0]) == t[0]);
    assert(!is_word(t, "inf"@));
    assert(!is_word(t, "infinity"@));
    assert(!is_word(t, "nan"@));
}

/// Digits times a power of ten are read as that.
proof fn plain_text_is_read(sign: Seq<char>, neg: bool, c: nat, s: int)
    requires
        sign == (if neg {
            seq!['-']
        } else {
            Seq::empty()
        }),
    ensures
        read_double(sign + plain_text(c, s)) == Some(scaled(neg, c, s)),
{
    let t = plain_text(c, s);
    if s >= 0 {
        nat_text_reads_back(c);
        zeros_read_back(s as nat);
        let a = nat_text(c);
        let b = repeated('0', s);
        assert forall|i: int| 0 <= i < t.len() implies is_digit(#[trigger] t[i]) by {
            if i < a.len() {
                assert(t[i] == a[i]);
            } else {
                assert(t[i] == b[i - a.len()]);
            }
        }
        assert(t[0] == a[0]);
        assert(is_digit(a[0]));
        plain_is_read(sign, t, neg);
        assert forall|k: int| 0 <= k < t.len() implies t[k] != '.' by {
            assert(is_digit(t[k]));
        }
        next_char_unique(t, '.', 0, t.len() as int);
        assert(halves(t, '.') is None);
        assert(t + Seq::<char>::empty() =~= t);
        digits_of_both(a, b);
        assert(all_digits(Seq::<char>::empty()));
        assert(c * p10(s as nat) * p10(0) == c * p10(s as nat)) by (nonlinear_arith)
            requires
                p10(0) == 1,
        ;
    } else {
        let k = (-s) as nat;
        p10_positive(k);
        let a = nat_text(c / p10(k));
        let b = padded_digits(c % p10(k), k);
        nat_text_reads_back(c / p10(k));
        padded_reads_back(c % p10(k), k);
        assert forall|i: int| 0 <= i < t.len() implies is_digit(#[trigger] t[i]) || t[i] == '.' by {
            if i < a.len() {
                assert(t[i] == a[i]);
            } else if i > a.len() {
                assert(t[i] == b[i - a.len() - 1]);
            }
        }
        assert(t[0] == a[0]);
        assert(is_digit(a[0]));
        plain_is_read(sign, t, neg);
        assert(!a.contains('.')) by {
            if a.contains('.') {
                let i = choose|i: int| 0 <= i < a.len() && a[i] == '.';
                assert(is_digit(a[i]));
            }
        }
        halves_of(a, '.', b);
        digits_of_both(a, b);
        vstd::arithmetic::div_mod::lemma_fundamental_div_mod(c as int, p10(k) as int);
        assert((c / p10(k)) * p10(k) == p10(k) * (c / p10(k))) by (nonlinear_arith);
    }
}

/// A power of five.
spec fn p5(k: nat) -> nat
    decreases k,
{
    if k == 0 {
        1
    } else {
        5 * p5((k - 1) as nat)
    }
}

proof fn ten_is_two_and_five(k: nat)
    ensures
        p10(k) == p2(k) * p5(k),
    decreases k,
{
    if k > 0 {
        ten_is_two_and_five((k - 1) as nat);
        let a = p2((k - 1) as nat);
        let b = p5((k - 1) as nat);
        assert((2 * a) * (5 * b) == 10 * (a * b)) by (nonlinear_arith);
    } else {
        assert(p2(0) == 1);
        assert(p5(0) == 1);
        assert(p2(0) * p5(0) == 1) by (nonlinear_arith)
            requires
                p2(0) == 1,
                p5(0) == 1,
        ;
    }
}

/// Every number is a multiple of the finest power of ten.
proof fn finest_reads(m: nat, e: int)
    requires
        canonical(m, e),
    ensures
        neighbour(m, e, -1074) is Some,
{
    let n = num(m, e);
    let d = den(e);
    let t = p10(1074);
    factors_positive(e);
    p10_positive(1074);
    let c = whole_at(n, d, -1074);
    if e < 0 {
        let j = (1074 + e) as nat;
        ten_is_two_and_five(1074);
        p2_adds((-e) as nat, j);
        assert((-e) as nat + j == 1074);
        let f = n * p2(j) * p5(1074);
        assert(n * t == f * d) by (nonlinear_arith)
            requires
                t == (d * p2(j)) * p5(1074),
                f == n * p2(j) * p5(1074),
        ;
        vstd::arithmetic::div_mod::lemma_fundamental_div_mod_converse(
            (n * t) as int,
            d as int,
            f as int,
            0,
        );
        assert(c == f);
    } else {
        assert(d == 1);
        assert((n * t) / 1 == n * t);
        assert(c == n * t);
        assert(c * 1 == c);
    }
    assert(c * d == n * t);
    assert(c * down(e) == m * up(e) * t);
    rounds_to(false, c, t, m, e);
    assert(reads_as(c, -1074, m, e));
}

proof fn coarsest_reads(m: nat, e: int, s: int)
    requires
        s >= -1074,
        neighbour(m, e, -1074) is Some,
    ensures
        -1074 <= coarsest(m, e, s) <= s,
        neighbour(m, e, coarsest(m, e, s)) is Some,
    decreases s + 1100,
{
    if neighbour(m, e, s) is None {
        coarsest_reads(m, e, s - 1);
    }
}

proof fn view_is_canonical(x: Double)
    ensures
        x@ matches Real::Fin(s, m, e) ==> canonical(m, e),
{
    p2_52();
}

/// A number that was written in as few digits as possible is read back as itself.
pub proof fn shortest_reads_back(x: Double)
    ensures
        read_double(shortest_text(x@)) == Some(x@),
{
    view_is_canonical(x);
    match x@ {
        Real::Fin(neg, m, e) => {
            let sign = if neg {
                seq!['-']
            } else {
                Seq::empty()
            };
            if m == 0 {
                p2_52();
                let t = seq!['0'];
                assert(plain_text(0, 0) =~= t) by {
                    assert(nat_text(0) =~= t);
                    assert(repeated('0', 0) =~= Seq::<char>::empty());
                }
                plain_text_is_read(sign, neg, 0, 0);
                assert(0 * p10(0) == 0);
                assert(0 * down(least()) == 0 * up(least()) * 1) by (nonlinear_arith);
                rounds_to(neg, 0, 1, 0, least());
            } else {
                finest_reads(m, e);
                coarsest_reads(m, e, 309);
                let s = coarsest(m, e, 309);
                let c = neighbour(m, e, s)->0;
                assert(reads_as(c, s, m, e));
                plain_text_is_read(sign, neg, c, s);
                assert(scaled(neg, c, s) == Real::Fin(neg, m, e));
            }
        },
        Real::Inf(neg) => {
            reveal_strlit("inf");
            reveal_strlit("-inf");
            let t = shortest_text(x@);
            if neg {
                assert(t.skip(1) =~= "inf"@);
            }
            assert(is_word("inf"@, "inf"@));
        },
        Real::Nan => {
            reveal_strlit("NaN");
            reveal_strlit("nan");
            reveal_strlit("inf");
            reveal_strlit("infinity");
            assert(is_word("NaN"@, "nan"@));
            assert(crate::text::lower('N') == 'n');
            assert("NaN"@[0] == 'N');
            assert("inf"@[0] == 'i');
            assert(!is_word("NaN"@, "inf"@));
        },
    }
}

} // verus!
