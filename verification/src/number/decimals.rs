//! What decimal texts say of the numbers that they are written for.

use crate::number::arith::{den, num, of_int};
use crate::number::double::{half_even, p10, p10_positive, rounded, Real};
use crate::number::exact::{factors_positive, is_worth};
use crate::number::fixed::{fixed_ratio, fixed_text, padded_digits, signed_fixed_text};
use crate::number::order::half_even_is_near;
use crate::number::parse::read_double;
use crate::number::round_trip::{digits_of_both, is_plain, padded_reads_back, plain_is_read};
use crate::number::whole::size_of;
use crate::numeral::{all_digits, digits_value, int_text, is_digit, nat_text, nat_text_reads_back};
use crate::text::{halves_of, next_char_unique};
use vstd::prelude::*;

verus! {

/// A fraction with so many decimals: digits, a point, and that many digits; read
/// as a number they are off by half of the last place at most.
pub proof fn decimals_are_nearest(n: nat, d: nat, k: nat) -> (r: (Seq<char>, Seq<char>))
    requires
        d > 0,
        k > 0,
    ensures
        fixed_ratio(n, d, k) == r.0 + seq!['.'] + r.1,
        all_digits(r.0) && r.0.len() > 0,
        all_digits(r.1) && r.1.len() == k,
        2 * (n * p10(k)) <= 2 * (d * digits_value(r.0 + r.1)) + d,
        2 * (d * digits_value(r.0 + r.1)) <= 2 * (n * p10(k)) + d,
{
    let q = half_even(n * p10(k), d);
    half_even_is_near(n * p10(k), d);
    let p = p10(k);
    p10_positive(k);
    let (a, b) = (nat_text(q / p), padded_digits(q % p, k));
    nat_text_reads_back(q / p);
    padded_reads_back(q % p, k);
    digits_of_both(a, b);
    vstd::arithmetic::div_mod::lemma_fundamental_div_mod(q as int, p as int);
    assert((q / p) * p == p * (q / p)) by (nonlinear_arith);
    (a, b)
}

/// A fraction without decimals: the nearest whole number.
pub proof fn no_decimals_is_nearest(n: nat, d: nat)
    requires
        d > 0,
    ensures
        ({
            let v = digits_value(fixed_ratio(n, d, 0));
            &&& all_digits(fixed_ratio(n, d, 0))
            &&& 2 * n <= 2 * (d * v) + d
            &&& 2 * (d * v) <= 2 * n + d
        }),
{
    let q = half_even(n * p10(0), d);
    assert(n * p10(0) == n) by {
        assert(p10(0) == 1);
        assert(n * 1 == n);
    }
    half_even_is_near(n, d);
    nat_text_reads_back(q);
}

/// The sign stands in front: a minus where the number is negative; the other sign
/// only where it is asked for.
pub proof fn sign_stands_in_front(neg: bool, m: nat, e: int, k: nat)
    ensures
        fixed_text(Real::Fin(true, m, e), k) == seq!['-'] + fixed_text(Real::Fin(false, m, e), k),
        fixed_text(Real::Fin(false, m, e), k) == fixed_ratio(num(m, e), den(e), k),
        signed_fixed_text(Real::Fin(true, m, e), k) == fixed_text(Real::Fin(true, m, e), k),
        signed_fixed_text(Real::Fin(false, m, e), k) == seq!['+'] + fixed_text(
            Real::Fin(false, m, e),
            k,
        ),
{
}

proof fn ratio_of_whole(n: nat, d: nat, k: nat)
    requires
        d > 0,
    ensures
        half_even((n * d) * p10(k), d) == n * p10(k),
{
    let p = p10(k);
    assert((n * d) * p == (n * p) * d) by (nonlinear_arith);
    vstd::arithmetic::div_mod::lemma_fundamental_div_mod_converse(
        ((n * p) * d) as int,
        d as int,
        (n * p) as int,
        0,
    );
}

/// A whole number is written with its own digits, and with one decimal it gets a
/// zero.
pub proof fn whole_numbers_are_written_exactly(x: Real, n: int)
    requires
        is_worth(x, n),
    ensures
        !(x->Fin_0) ==> fixed_text(x, 0) == nat_text(n as nat),
        !(x->Fin_0) ==> fixed_text(x, 1) == nat_text(n as nat) + seq!['.', '0'],
        n < 0 ==> fixed_text(x, 0) == int_text(n),
        n < 0 ==> fixed_text(x, 1) == int_text(n) + seq!['.', '0'],
        !(x->Fin_0) ==> signed_fixed_text(x, 1) == seq!['+'] + nat_text(n as nat) + seq!['.', '0'],
        n < 0 ==> signed_fixed_text(x, 1) == int_text(n) + seq!['.', '0'],
{
    match x {
        Real::Fin(s, m, e) => {
            factors_positive(e);
            let (k, d) = (size_of(n), den(e));
            ratio_of_whole(k, d, 0);
            ratio_of_whole(k, d, 1);
            assert(p10(1) == 10 * p10(0) && p10(0) == 1);
            assert(k * p10(0) == k) by (nonlinear_arith)
                requires
                    p10(0) == 1,
            ;
            assert(k * p10(1) == 10 * k) by (nonlinear_arith)
                requires
                    p10(1) == 10,
            ;
            assert((10 * k) / 10 == k && (10 * k) % 10 == 0);
            let zero = padded_digits(0, 1);
            assert(padded_digits(0, 0) =~= Seq::empty());
            assert(zero =~= seq!['0']);
            assert(fixed_ratio(num(m, e), d, 1) =~= nat_text(k) + seq!['.', '0']);
            assert(n < 0 ==> fixed_text(x, 1) =~= int_text(n) + seq!['.', '0']);
            assert(!s ==> signed_fixed_text(x, 1) =~= seq!['+'] + nat_text(k) + seq!['.', '0']);
            assert(n < 0 ==> signed_fixed_text(x, 1) =~= int_text(n) + seq!['.', '0']);
        },
        _ => {},
    }
}

/// A row of digits is read as the number that it denotes, and with a minus sign in
/// front as the negative one.
pub proof fn digits_are_read(t: Seq<char>)
    requires
        t.len() > 0,
        all_digits(t),
    ensures
        read_double(t) == Some(rounded(false, digits_value(t), 1)),
        read_double(seq!['-'] + t) == Some(rounded(true, digits_value(t), 1)),
{
    assert(is_plain(t)) by {
        assert forall|i: int| 0 <= i < t.len() implies is_digit(#[trigger] t[i]) || t[i] == '.' by {}
    }
    assert(is_digit(t[0]));
    plain_is_read(Seq::empty(), t, false);
    plain_is_read(seq!['-'], t, true);
    assert(Seq::<char>::empty() + t =~= t);
    assert forall|k: int| 0 <= k < t.len() implies t[k] != '.' by {
        assert(is_digit(t[k]));
    }
    next_char_unique(t, '.', 0, t.len() as int);
    assert(t + Seq::<char>::empty() =~= t);
    assert(all_digits(Seq::<char>::empty()));
    assert(digits_value(t) * p10(0) == digits_value(t)) by {
        assert(p10(0) == 1);
        assert(digits_value(t) * 1 == digits_value(t));
    }
}

/// Digits with a point among them are read as the fraction that they denote.
pub proof fn decimals_are_read(a: Seq<char>, b: Seq<char>)
    requires
        a.len() > 0,
        b.len() > 0,
        all_digits(a),
        all_digits(b),
    ensures
        read_double(a + seq!['.'] + b) == Some(
            rounded(false, digits_value(a + b), p10(b.len())),
        ),
        read_double(seq!['-'] + (a + seq!['.'] + b)) == Some(
            rounded(true, digits_value(a + b), p10(b.len())),
        ),
{
    let t = a + seq!['.'] + b;
    assert forall|i: int| 0 <= i < t.len() implies is_digit(#[trigger] t[i]) || t[i] == '.' by {
        if i < a.len() {
            assert(t[i] == a[i]);
        } else if i > a.len() {
            assert(t[i] == b[i - a.len() - 1]);
        }
    }
    assert(t[0] == a[0]);
    assert(is_digit(a[0]));
    plain_is_read(Seq::empty(), t, false);
    plain_is_read(seq!['-'], t, true);
    assert(Seq::<char>::empty() + t =~= t);
    assert(!a.contains('.')) by {
        if a.contains('.') {
            let i = choose|i: int| 0 <= i < a.len() && a[i] == '.';
            assert(is_digit(a[i]));
        }
    }
    halves_of(a, '.', b);
}

/// A whole number in decimal is read as itself.
pub proof fn whole_numbers_are_read(n: nat)
    ensures
        read_double(nat_text(n)) == Some(of_int(n as int)),
{
    nat_text_reads_back(n);
    digits_are_read(nat_text(n));
}

/// Decimal text tells numbers apart, and has no sign but that of the number.
pub proof fn decimal_texts_differ(a: int, b: int)
    requires
        int_text(a) == int_text(b),
    ensures
        a == b,
{
    nat_text_reads_back(size_of(a));
    nat_text_reads_back(size_of(b));
    let (x, y) = (nat_text(size_of(a)), nat_text(size_of(b)));
    assert(is_digit(x[0]) && is_digit(y[0]));
    if a < 0 {
        assert(int_text(a)[0] == '-');
        assert(int_text(a).skip(1) =~= x);
    }
    if b < 0 {
        assert(int_text(b)[0] == '-');
        assert(int_text(b).skip(1) =~= y);
    }
}

} // verus!
