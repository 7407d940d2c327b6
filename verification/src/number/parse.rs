//! Decimal text as a number in double precision.

use crate::number::bignat::BigNat;
use crate::number::double::{
    exponent, fits, half_even, least, p10, p10_adds, p10_positive, p2, p2_adds, p2_positive,
    pow_ten, rounded, too_large, Double, Real,
};
use crate::numeral::{all_digits, digits_value, is_digit};
use crate::text::{chars_of, halves, lower, next_char_unique, to_lower};
use vstd::prelude::*;

verus! {

/// Whether a text is a word of lower-case letters, in either case.
pub open spec fn is_word(s: Seq<char>, word: Seq<char>) -> bool {
    s.len() == word.len() && forall|i: int|
        0 <= i < s.len() ==> lower(#[trigger] s[i]) == word[i]
}

/// The first index from `i` on that holds an exponent sign, or the length.
pub open spec fn exponent_mark(s: Seq<char>, i: int) -> int
    decreases s.len() - i,
{
    if i >= s.len() {
        s.len() as int
    } else if s[i] == 'e' || s[i] == 'E' {
        i
    } else {
        exponent_mark(s, i + 1)
    }
}

/// A text without the sign that it may start with.
pub open spec fn unsigned_part(s: Seq<char>) -> Seq<char> {
    if s.len() > 0 && (s[0] == '+' || s[0] == '-') {
        s.skip(1)
    } else {
        s
    }
}

/// Whether a text starts with a minus sign.
pub open spec fn has_minus(s: Seq<char>) -> bool {
    s.len() > 0 && s[0] == '-'
}

/// The value of a signed row of digits.
pub open spec fn read_exponent(s: Seq<char>) -> Option<int> {
    let d = unsigned_part(s);
    if d.len() == 0 || !all_digits(d) {
        None
    } else if has_minus(s) {
        Some(-(digits_value(d) as int))
    } else {
        Some(digits_value(d) as int)
    }
}

/// The number nearest to `n * 10^scale`.
pub open spec fn scaled(neg: bool, n: nat, scale: int) -> Real {
    if scale >= 0 {
        rounded(neg, n * p10(scale as nat), 1)
    } else {
        rounded(neg, n, p10((-scale) as nat))
    }
}

/// The number that a mantissa in front of an exponent denotes: digits, perhaps
/// with a point among them.
pub open spec fn read_mantissa(neg: bool, s: Seq<char>, e: int) -> Option<Real> {
    let (a, b) = match halves(s, '.') {
        Some(h) => h,
        None => (s, Seq::empty()),
    };
    if a.len() + b.len() > 0 && all_digits(a) && all_digits(b) {
        Some(scaled(neg, digits_value(a + b), e - b.len()))
    } else {
        None
    }
}

/// The number that a decimal text denotes, rounded to the nearest.
pub open spec fn read_double(s: Seq<char>) -> Option<Real> {
    let neg = has_minus(s);
    let t = unsigned_part(s);
    let x = exponent_mark(t, 0);
    if is_word(t, "inf"@) || is_word(t, "infinity"@) {
        Some(Real::Inf(neg))
    } else if is_word(t, "nan"@) {
        Some(Real::Nan)
    } else if x < t.len() {
        match read_exponent(t.skip(x + 1)) {
            Some(e) => read_mantissa(neg, t.take(x), e),
            None => None,
        }
    } else {
        read_mantissa(neg, t, 0)
    }
}

proof fn p10_exceeds_p2(k: nat)
    ensures
        p10(k) >= p2(3 * k),
    decreases k,
{
    if k > 0 {
        p10_exceeds_p2((k - 1) as nat);
        reveal_with_fuel(p2, 4);
        assert(p2(3 * k) == 8 * p2((3 * (k - 1)) as nat));
    }
}

proof fn p2_grows(a: nat, b: nat)
    requires
        a <= b,
    ensures
        p2(a) <= p2(b),
    decreases b - a,
{
    if a < b {
        p2_grows(a, (b - 1) as nat);
    }
}

proof fn p10_grows(a: nat, b: nat)
    requires
        a <= b,
    ensures
        p10(a) <= p10(b),
    decreases b - a,
{
    if a < b {
        p10_grows(a, (b - 1) as nat);
        p10_positive((b - 1) as nat);
    }
}

proof fn never_fits(n: nat, e: int)
    requires
        n >= p2(1200),
        least() <= e <= too_large(),
    ensures
        exponent(n, 1, e) == too_large(),
    decreases too_large() - e,
{
    if e < too_large() {
        let k = (e - least()) as nat;
        p2_adds(1200, 1021);
        p2_grows(k, 2221);
        p2_positive(1021);
        assert(n * p2(1021) >= p2(1200) * p2(1021)) by (nonlinear_arith)
            requires
                n >= p2(1200),
        ;
        assert(1 * p2(k) == p2(k));
        never_fits(n, e + 1);
    }
}

/// A number with an exponent of four hundred or more is infinite.
proof fn huge_is_infinite(neg: bool, n: nat, scale: int)
    requires
        n > 0,
        scale >= 400,
    ensures
        scaled(neg, n, scale) == Real::Inf(neg),
{
    let p = p10(scale as nat);
    p10_grows(400, scale as nat);
    p10_exceeds_p2(400);
    assert(n * p >= p) by (nonlinear_arith)
        requires
            n >= 1,
    ;
    never_fits(n * p, least());
}

/// A number that is far below the least one is zero.
proof fn tiny_is_zero(neg: bool, n: nat, digits: nat, scale: int)
    requires
        n < p10(digits),
        -scale - digits >= 400,
    ensures
        scaled(neg, n, scale) == Real::Fin(neg, 0, least()),
{
    let k = (-scale) as nat;
    let d = p10(k);
    p10_positive(k);
    p10_adds(digits, (k - digits) as nat);
    p10_grows(400, (k - digits) as nat);
    p10_exceeds_p2(400);
    p2_grows(1075, 1200);
    p2_grows(1021, 1200);
    let rest = p10((k - digits) as nat);
    assert(p2(1075) == 2 * p2(1074));
    assert(n * p2(1075) < d) by (nonlinear_arith)
        requires
            n < p10(digits),
            d == p10(digits) * rest,
            rest >= p2(1075),
            p2(1075) >= 0,
    {
        p2_positive(1075);
    }
    assert(n * p2(1021) <= n * p2(1075)) by {
        p2_grows(1021, 1075);
        assert(n * p2(1021) <= n * p2(1075)) by (nonlinear_arith)
            requires
                p2(1021) <= p2(1075),
        ;
    }
    assert(p2(0) == 1);
    assert(d * 1 == d);
    assert(fits(n, d, least()));
    assert(exponent(n, d, least()) == least());
    let top = n * p2(1074);
    assert(n * (2 * p2(1074)) == 2 * top) by (nonlinear_arith)
        requires
            top == n * p2(1074),
    ;
    assert(top / d == 0 && top % d == top) by {
        vstd::arithmetic::div_mod::lemma_small_mod(top, d);
        vstd::arithmetic::div_mod::lemma_basic_div(top as int, d as int);
    }
    p2_positive(53);
}

/// Zero stays zero with any exponent.
proof fn zero_stays(neg: bool, scale: int)
    ensures
        scaled(neg, 0, scale) == Real::Fin(neg, 0, least()),
{
    p2_positive(53);
    assert(p2(0) == 1);
    if scale >= 0 {
        let p = p10(scale as nat);
        assert(0 * p == 0);
        assert(0 * p2(1021) == 0);
        assert(fits(0, 1, least()));
        assert(half_even(0 * p2(1074), 1) == 0);
        assert(0 * p2(1074) == 0);
    } else {
        let d = p10((-scale) as nat);
        p10_positive((-scale) as nat);
        assert(0 * p2(1021) == 0);
        assert(d * 1 == d);
        assert(fits(0, d, least()));
        assert(0 * p2(1074) == 0);
        assert(0nat / d == 0) by {
            vstd::arithmetic::div_mod::lemma_basic_div(0, d as int);
        }
        assert(0nat % d == 0) by {
            vstd::arithmetic::div_mod::lemma_small_mod(0, d);
        }
    }
}

proof fn digits_below(s: Seq<char>)
    requires
        all_digits(s),
    ensures
        digits_value(s) < p10(s.len()),
    decreases s.len(),
{
    if s.len() > 0 {
        let front = s.drop_last();
        assert(all_digits(front)) by {
            assert forall|i: int| 0 <= i < front.len() implies is_digit(#[trigger] front[i]) by {
                assert(front[i] == s[i]);
            }
        }
        digits_below(front);
        assert(is_digit(s[s.len() - 1]));
    }
}

fn scale_number(neg: bool, n: &BigNat, digits: usize, scale: i128) -> (r: Double)
    requires
        n@ < p10(digits as nat),
        -0x1000_0000_0000_0000_0000_0000_0000 <= scale <= 0x1000_0000_0000_0000_0000_0000_0000,
    ensures
        r@ == scaled(neg, n@, scale as int),
{
    if n.is_zero() {
        proof {
            zero_stays(neg, scale as int);
        }
        return Double::signed_zero(neg);
    }
    if scale >= 400 {
        proof {
            huge_is_infinite(neg, n@, scale as int);
        }
        return Double::infinity(neg);
    }
    if -scale - digits as i128 >= 400 {
        proof {
            tiny_is_zero(neg, n@, digits as nat, scale as int);
        }
        return Double::signed_zero(neg);
    }
    if scale >= 0 {
        let top = n.times(&pow_ten(scale as u128));
        let one = BigNat::from_u64(1);
        Double::of_ratio(neg, &top, &one)
    } else {
        let bottom = pow_ten((-scale) as u128);
        proof {
            p10_positive((-scale) as nat);
        }
        Double::of_ratio(neg, n, &bottom)
    }
}

fn matches_word(cs: &[char], from: usize, word: &str) -> (r: bool)
    requires
        from <= cs@.len(),
    ensures
        r == is_word(cs@.skip(from as int), word@),
{
    let w = chars_of(word);
    let ghost t = cs@.skip(from as int);
    let n: usize = cs.len();
    if n - from != w.len() {
        return false;
    }
    let mut i: usize = 0;
    while i < w.len()
        invariant
            i <= w@.len(),
            w@ == word@,
            from <= n,
            n == cs@.len(),
            n - from == w@.len(),
            t == cs@.skip(from as int),
            forall|k: int|
                0 <= k < i ==> lower(#[trigger] t[k]) == word@[k],
        decreases w@.len() - i,
    {
        let a = cs[from + i];
        let b = w[i];
        assert(t[i as int] == a);
        if to_lower(a) != b {
            return false;
        }
        i += 1;
    }
    true
}

/// The largest exponent that is told apart from a larger one.
pub open spec fn exponent_cap() -> nat {
    0x10_0000_0000_0000_0000_0000_0000
}

/// Reads an exponent, up to a bound far beyond any that matters.
fn parse_exponent(cs: &[char], from: usize) -> (r: Option<i128>)
    requires
        from <= cs@.len(),
    ensures
        r is Some <==> read_exponent(cs@.skip(from as int)) is Some,
        r matches Some(e) ==> ({
            let v = read_exponent(cs@.skip(from as int))->0;
            e == if v > exponent_cap() {
                exponent_cap() as int
            } else if v < -exponent_cap() {
                -exponent_cap()
            } else {
                v
            }
        }),
{
    let ghost s = cs@.skip(from as int);
    let ghost d = unsigned_part(s);
    let mut i: usize = from;
    let mut neg = false;
    if i < cs.len() && (cs[i] == '+' || cs[i] == '-') {
        assert(s[0] == cs@[from as int]);
        neg = cs[i] == '-';
        i += 1;
        assert(d =~= cs@.skip(i as int));
    } else {
        if i < cs.len() {
            assert(s[0] == cs@[from as int]);
        }
        assert(d =~= cs@.skip(i as int));
    }
    if i >= cs.len() {
        return None;
    }
    let start: usize = i;
    let mut v: u128 = 0;
    assert(d.take(0) =~= Seq::<char>::empty());
    while i < cs.len()
        invariant
            start <= i <= cs@.len(),
            d == cs@.skip(start as int),
            s == cs@.skip(from as int),
            d == unsigned_part(s),
            v == if digits_value(d.take(i - start)) > exponent_cap() {
                exponent_cap()
            } else {
                digits_value(d.take(i - start))
            },
            forall|k: int| 0 <= k < i - start ==> is_digit(#[trigger] d[k]),
        decreases cs@.len() - i,
    {
        let c = cs[i];
        assert(c == d[i - start]);
        if !('0' <= c && c <= '9') {
            return None;
        }
        v = v * 10 + (c as u32 - 48) as u128;
        if v > 0x10_0000_0000_0000_0000_0000_0000 {
            v = 0x10_0000_0000_0000_0000_0000_0000;
        }
        i += 1;
        assert(d.take(i - start).drop_last() =~= d.take(i - start - 1));
    }
    assert(d.take(i - start) =~= d);
    if neg {
        Some(-(v as i128))
    } else {
        Some(v as i128)
    }
}

/// Whether the capped exponent gives the same number.
proof fn cap_is_harmless(neg: bool, n: nat, digits: nat, v: int, cut: nat, capped: int)
    requires
        n < p10(digits),
        digits <= 0x1_0000_0000_0000_0000,
        cut <= digits,
        capped == if v > exponent_cap() {
            exponent_cap() as int
        } else if v < -exponent_cap() {
            -exponent_cap()
        } else {
            v
        },
    ensures
        scaled(neg, n, v - cut) == scaled(neg, n, capped - cut),
{
    if n == 0 {
        zero_stays(neg, v - cut);
        zero_stays(neg, capped - cut);
    } else if v > exponent_cap() {
        huge_is_infinite(neg, n, v - cut);
        huge_is_infinite(neg, n, capped - cut);
    } else if v < -exponent_cap() {
        tiny_is_zero(neg, n, digits, v - cut);
        tiny_is_zero(neg, n, digits, capped - cut);
    }
}

/// Reads the digits from `from` to `to` into a number.
fn read_digits(acc: BigNat, cs: &[char], from: usize, to: usize, Ghost(before): Ghost<Seq<char>>) -> (r: Option<BigNat>)
    requires
        from <= to <= cs@.len(),
        acc@ == digits_value(before),
    ensures
        r is Some <==> all_digits(cs@.subrange(from as int, to as int)),
        r matches Some(n) ==> n@ == digits_value(before + cs@.subrange(from as int, to as int)),
{
    let ghost d = cs@.subrange(from as int, to as int);
    let mut n = acc;
    let mut i: usize = from;
    assert(before + d.take(0) =~= before);
    while i < to
        invariant
            from <= i <= to <= cs@.len(),
            d == cs@.subrange(from as int, to as int),
            n@ == digits_value(before + d.take(i - from)),
            forall|k: int| 0 <= k < i - from ==> is_digit(#[trigger] d[k]),
        decreases to - i,
    {
        let c = cs[i];
        assert(c == d[i - from]);
        if !('0' <= c && c <= '9') {
            return None;
        }
        let digit = BigNat::from_u64((c as u32 - 48) as u64);
        n = n.times_small(10).plus(&digit);
        i += 1;
        let ghost w = before + d.take(i - from);
        assert(w.drop_last() =~= before + d.take(i - from - 1));
        assert(w.last() == c);
    }
    assert(d.take(i - from) =~= d);
    Some(n)
}

fn parse_mantissa(neg: bool, cs: &[char], from: usize, to: usize, e: i128, Ghost(v): Ghost<int>) -> (r: Option<Double>)
    requires
        from <= to <= cs@.len(),
        e == if v > exponent_cap() {
            exponent_cap() as int
        } else if v < -exponent_cap() {
            -exponent_cap()
        } else {
            v
        },
    ensures
        r matches Some(x) ==> read_mantissa(neg, cs@.subrange(from as int, to as int), v) == Some(x@),
        r is None ==> read_mantissa(neg, cs@.subrange(from as int, to as int), v) is None,
{
    let ghost s = cs@.subrange(from as int, to as int);
    let mut dot: usize = from;
    while dot < to && cs[dot] != '.'
        invariant
            from <= dot <= to <= cs@.len(),
            s == cs@.subrange(from as int, to as int),
            forall|k: int| 0 <= k < dot - from ==> s[k] != '.',
        decreases to - dot,
    {
        dot += 1;
    }
    proof {
        if dot < to {
            assert(s[dot - from] == '.');
        }
        next_char_unique(s, '.', 0, dot - from);
    }
    let ghost (a, b) = match halves(s, '.') {
        Some(h) => h,
        None => (s, Seq::empty()),
    };
    let rest: usize = if dot < to {
        dot + 1
    } else {
        to
    };
    assert(a =~= cs@.subrange(from as int, dot as int));
    assert(b =~= cs@.subrange(rest as int, to as int));
    let count: usize = (dot - from) + (to - rest);
    if count == 0 {
        return None;
    }
    let zero = BigNat::from_u64(0);
    let ghost none = Seq::<char>::empty();
    let whole = match read_digits(zero, cs, from, dot, Ghost(none)) {
        Some(n) => n,
        None => {
            return None;
        },
    };
    assert(none + a =~= a);
    let n = match read_digits(whole, cs, rest, to, Ghost(a)) {
        Some(n) => n,
        None => {
            return None;
        },
    };
    proof {
        let all = a + b;
        assert(all_digits(all)) by {
            assert forall|i: int| 0 <= i < all.len() implies is_digit(#[trigger] all[i]) by {
                if i < a.len() {
                    assert(all[i] == a[i]);
                } else {
                    assert(all[i] == b[i - a.len()]);
                }
            }
        }
        digits_below(all);
        cap_is_harmless(neg, n@, count as nat, v, b.len(), e as int);
    }
    let cut: usize = to - rest;
    Some(scale_number(neg, &n, count, e - cut as i128))
}

/// Reads a decimal number: digits with an optional point, sign and exponent, or
/// one of the words for what is infinite or no number.
pub fn parse_double(s: &str) -> (r: Option<Double>)
    ensures
        r matches Some(x) ==> read_double(s@) == Some(x@),
        r is None ==> read_double(s@) is None,
{
    let cs = chars_of(s);
    let neg = cs.len() > 0 && cs[0] == '-';
    let from: usize = if cs.len() > 0 && (cs[0] == '+' || cs[0] == '-') {
        1
    } else {
        0
    };
    let ghost t = unsigned_part(s@);
    assert(t =~= cs@.skip(from as int));
    if matches_word(&cs, from, "inf") || matches_word(&cs, from, "infinity") {
        return Some(Double::infinity(neg));
    }
    if matches_word(&cs, from, "nan") {
        return Some(Double::nan());
    }
    let mut x: usize = from;
    while x < cs.len() && cs[x] != 'e' && cs[x] != 'E'
        invariant
            from <= x <= cs@.len(),
            t == cs@.skip(from as int),
            exponent_mark(t, 0) == exponent_mark(t, x - from),
        decreases cs@.len() - x,
    {
        assert(t[x - from] == cs@[x as int]);
        x += 1;
    }
    if x < cs.len() {
        assert(t[x - from] == cs@[x as int]);
        assert(exponent_mark(t, 0) == x - from);
        assert(t.skip(x - from + 1) =~= cs@.skip(x + 1));
        assert(t.take(x - from) =~= cs@.subrange(from as int, x as int));
        match parse_exponent(&cs, x + 1) {
            Some(e) => {
                let ghost v = read_exponent(cs@.skip(x + 1))->0;
                parse_mantissa(neg, &cs, from, x, e, Ghost(v))
            },
            None => None,
        }
    } else {
        assert(exponent_mark(t, 0) == t.len());
        assert(t =~= cs@.subrange(from as int, x as int));
        parse_mantissa(neg, &cs, from, x, 0, Ghost(0int))
    }
}

} // verus!
