//! What holds of figures in profiles and of their changes.

use crate::hotpath_fmt::{change_text, epsilon, hundred, metric_value, unit_factor};
use crate::lockfile::process::last_char;
use crate::number::arith::{difference, is_less, magnitude, of_int, product, quotient, zero};
use crate::number::decimals::{whole_numbers_are_read, whole_numbers_are_written_exactly};
use crate::number::double::{rounded, Real};
use crate::number::exact::{
    integers_are_finite, is_worth, less_itself, nothing_times, whole_numbers_are_exact,
};
use crate::number::whole::{
    difference_is_exact, nothing_is_worth_nothing, nothing_over_any, product_is_exact, quotient_is_exact, size_of,
};
use crate::numeral::{is_digit, nat_text, nat_text_reads_back};
use crate::text::{is_space, trimmed_keeps};
use vstd::prelude::*;

verus! {

proof fn digits_are_no_blanks(n: nat, i: int)
    requires
        0 <= i < nat_text(n).len(),
    ensures
        !is_space(nat_text(n)[i]),
        nat_text(n)[i] != ' ',
        nat_text(n)[i] != '%',
{
    nat_text_reads_back(n);
    assert(is_digit(nat_text(n)[i]));
}

proof fn last_blank(s: Seq<char>, at: int, to: int)
    requires
        0 <= at < to <= s.len(),
        s[at] == ' ',
        forall|k: int| at < k < to ==> s[k] != ' ',
    ensures
        last_char(s, ' ', to) == at,
    decreases to,
{
    if at < to - 1 {
        last_blank(s, at, to - 1);
    }
}

/// A figure is a number and a unit with a blank between them: the number times the
/// factor of the unit.
pub proof fn figure_is_number_times_unit(n: nat, unit: Seq<char>, f: Real)
    requires
        unit.len() > 0,
        forall|i: int| 0 <= i < unit.len() ==> !is_space(#[trigger] unit[i]) && unit[i] != '%',
        unit_factor(unit) == Some(f),
    ensures
        metric_value(nat_text(n) + seq![' '] + unit) == Some(product(of_int(n as int), f)),
{
    let a = nat_text(n);
    let s = a + seq![' '] + unit;
    nat_text_reads_back(n);
    digits_are_no_blanks(n, 0);
    assert(s[0] == a[0]);
    assert(s.last() == unit[unit.len() - 1]);
    trimmed_keeps(s);
    assert forall|k: int| a.len() < k < s.len() implies s[k] != ' ' by {
        assert(s[k] == unit[k - a.len() - 1]);
        assert(!is_space(unit[k - a.len() - 1]));
    }
    last_blank(s, a.len() as int, s.len() as int);
    assert(s.take(a.len() as int) =~= a);
    assert(s.skip(a.len() as int + 1) =~= unit);
    digits_are_no_blanks(n, a.len() - 1);
    trimmed_keeps(a);
    assert(!is_space(unit[0]) && !is_space(unit[unit.len() - 1]));
    trimmed_keeps(unit);
    whole_numbers_are_read(n);
}

/// A percentage is its number.
pub proof fn percentage_is_its_number(n: nat)
    ensures
        metric_value(nat_text(n) + seq!['%']) == Some(of_int(n as int)),
{
    let a = nat_text(n);
    let s = a + seq!['%'];
    nat_text_reads_back(n);
    digits_are_no_blanks(n, 0);
    digits_are_no_blanks(n, a.len() - 1);
    assert(s[0] == a[0]);
    trimmed_keeps(s);
    assert(s.drop_last() =~= a);
    trimmed_keeps(a);
    whole_numbers_are_read(n);
}

/// The units: a second is a thousand milliseconds, a kilobyte 1024 bytes, a
/// megabyte 1024 of those, and a gigabyte 1024 of these; smaller units are the
/// fractions of a millisecond.
pub proof fn units_are_worth()
    ensures
        unit_factor("ms"@) matches Some(f) && is_worth(f, 1),
        unit_factor("s"@) matches Some(f) && is_worth(f, 1000),
        unit_factor("B"@) matches Some(f) && is_worth(f, 1),
        unit_factor("KB"@) matches Some(f) && is_worth(f, 1024),
        unit_factor("MB"@) matches Some(f) && is_worth(f, 1024 * 1024int),
        unit_factor("GB"@) matches Some(f) && is_worth(f, 1024 * 1024 * 1024int),
        unit_factor("ns"@) == Some(rounded(false, 1, 1_000_000)),
        unit_factor("\u{b5}s"@) == Some(rounded(false, 1, 1_000)),
{
    reveal_strlit("ms");
    reveal_strlit("s");
    reveal_strlit("B");
    reveal_strlit("KB");
    reveal_strlit("MB");
    reveal_strlit("GB");
    reveal_strlit("ns");
    reveal_strlit("\u{b5}s");
    assert("ms"@[0] == 'm' && "ns"@[0] == 'n' && "\u{b5}s"@[0] == '\u{b5}');
    assert("KB"@[0] == 'K' && "MB"@[0] == 'M' && "GB"@[0] == 'G');
    assert("s"@[0] == 's' && "B"@[0] == 'B');
    whole_numbers_are_exact(1);
    whole_numbers_are_exact(1000);
    whole_numbers_are_exact(1024);
    whole_numbers_are_exact(1_048_576);
    whole_numbers_are_exact(1_073_741_824);
}

proof fn hundred_is_hundred()
    ensures
        is_worth(hundred(), 100),
{
    whole_numbers_are_exact(100);
}

/// A figure of at least one is far enough from nothing to compare with.
proof fn small_is_below(x: Real, a: int)
    requires
        is_worth(x, a),
        1 <= a,
    ensures
        is_less(epsilon(), magnitude(x)),
{
    let d = 0x10_0000_0000_0000nat;
    crate::number::double::p2_52();
    let m = crate::number::double::p2(52);
    let e = -104int;
    crate::number::double::p2_adds(52, 52);
    assert(crate::number::double::up(e) == 1);
    let w = crate::number::double::down(e);
    assert(w == m * m);
    assert(1 * w == m * 1 * d) by (nonlinear_arith)
        requires
            w == m * m,
            m == d,
    ;
    crate::number::exact::rounds_to(false, 1, d, m, e);
    assert(epsilon() == Real::Fin(false, m, e));
    match x {
        Real::Fin(s, k, f) => {
            crate::number::exact::factors_positive(f);
            let y = crate::number::arith::den(f);
            let z = crate::number::arith::num(k, f);
            assert(m * 1 == m);
            assert(m * y < z * w) by (nonlinear_arith)
                requires
                    z == a * y,
                    a >= 1,
                    y > 0,
                    w == m * m,
                    m == d,
                    d == 0x10_0000_0000_0000nat,
            ;
        },
        _ => {},
    }
}

/// How a whole figure changed, where the change is a whole part of it: by `q` times
/// the figure is `q` hundred per cent, with its sign.
pub proof fn change_is_relative(x: Seq<char>, y: Seq<char>, fa: Real, fb: Real, a: int, q: int)
    requires
        metric_value(x) == Some(fa),
        metric_value(y) == Some(fb),
        is_worth(fa, a),
        is_worth(fb, a + q * a),
        1 <= a <= 0x1_0000_0000,
        -1 <= q <= 0x1_0000,
        q != 0,
    ensures
        q > 0 ==> change_text(Some(x), Some(y)) == seq!['+'] + nat_text((q * 100) as nat) + seq![
            '.',
            '0',
        ] + "%"@,
        q == -1 ==> change_text(Some(x), Some(y)) == seq!['-'] + nat_text(100) + seq!['.', '0']
            + "%"@,
{
    small_is_below(fa, a);
    assert(size_of(q * a) <= 0x20_0000_0000_0000 && size_of(q) <= 0x20_0000_0000_0000)
        by (nonlinear_arith)
        requires
            1 <= a <= 0x1_0000_0000,
            -1 <= q <= 0x1_0000,
    ;
    assert(a + q * a - a == q * a);
    difference_is_exact(fb, a + q * a, fa, a);
    let d = difference(fb, fa);
    quotient_is_exact(d, q, fa, a);
    let r = quotient(d, fa);
    hundred_is_hundred();
    product_is_exact(r, q, hundred(), 100);
    let p = product(r, hundred());
    whole_numbers_are_written_exactly(p, q * 100);
}

/// A figure that did not change is told as no change.
pub proof fn no_change_is_nothing(x: Seq<char>, y: Seq<char>, fa: Real, a: int)
    requires
        metric_value(x) == Some(fa),
        metric_value(y) == Some(fa),
        is_worth(fa, a),
        1 <= a <= 0x20_0000_0000_0000,
    ensures
        change_text(Some(x), Some(y)) == seq!['+'] + nat_text(0) + seq!['.', '0'] + "%"@,
{
    small_is_below(fa, a);
    less_itself(fa);
    let z = zero(false);
    nothing_over_any(fa, a);
    integers_are_finite(100);
    nothing_times(hundred());
    assert(product(z, hundred()) == z);
    nothing_is_worth_nothing();
    whole_numbers_are_written_exactly(z, 0);
}

/// What cannot be read cannot be compared.
pub proof fn unreadable_is_not_compared(x: Seq<char>, y: Seq<char>)
    requires
        metric_value(x) is None || metric_value(y) is None,
    ensures
        change_text(Some(x), Some(y)) == "--"@,
{
}

} // verus!
