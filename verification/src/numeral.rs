//! Integers as decimal and hexadecimal text.

use crate::text::chars_of;
use vstd::prelude::*;

verus! {

/// The character of a digit below ten.
pub open spec fn digit_char(d: int) -> char {
    ((48 + d) as u8) as char
}

/// Whether a character is one of `0` to `9`.
pub open spec fn is_digit(c: char) -> bool {
    '0' <= c <= '9'
}

/// The value of a digit character.
pub open spec fn digit_value(c: char) -> nat {
    (c as u32 - 48) as nat
}

/// A natural number in decimal, without leading zeros.
pub open spec fn nat_text(n: nat) -> Seq<char>
    decreases n,
{
    if n < 10 {
        seq![digit_char(n as int)]
    } else {
        nat_text(n / 10).push(digit_char((n % 10) as int))
    }
}

/// An integer in decimal, with a minus sign where it is negative.
pub open spec fn int_text(n: int) -> Seq<char> {
    if n < 0 {
        seq!['-'] + nat_text((-n) as nat)
    } else {
        nat_text(n as nat)
    }
}

fn push_nat(out: &mut String, n: u128)
    ensures
        final(out)@ == old(out)@ + nat_text(n as nat),
    decreases n,
{
    if n < 10 {
        let d: u8 = n as u8;
        out.push((48 + d) as char);
        assert(out@ =~= old(out)@ + nat_text(n as nat));
    } else {
        push_nat(out, n / 10);
        let d: u8 = (n % 10) as u8;
        out.push((48 + d) as char);
        assert(out@ =~= old(out)@ + nat_text(n as nat));
    }
}

/// Writes a `u128` in decimal.
pub fn u128_text(n: u128) -> (r: String)
    ensures
        r@ == nat_text(n as nat),
{
    let mut out = String::new();
    push_nat(&mut out, n);
    assert(out@ =~= nat_text(n as nat));
    out
}

/// Writes a `u64` in decimal.
pub fn u64_text(n: u64) -> (r: String)
    ensures
        r@ == nat_text(n as nat),
{
    u128_text(n as u128)
}

/// Writes a `usize` in decimal.
pub fn usize_text(n: usize) -> (r: String)
    ensures
        r@ == nat_text(n as nat),
{
    u128_text(n as u128)
}

/// Writes an `i64` in decimal.
pub fn i64_text(n: i64) -> (r: String)
    ensures
        r@ == int_text(n as int),
{
    if n < 0 {
        let mut out = String::new();
        out.push('-');
        let m: i128 = -(n as i128);
        push_nat(&mut out, m as u128);
        assert(out@ =~= int_text(n as int));
        out
    } else {
        u128_text(n as u128)
    }
}

/// Whether every character is a digit.
pub open spec fn all_digits(s: Seq<char>) -> bool {
    forall|i: int| 0 <= i < s.len() ==> is_digit(#[trigger] s[i])
}

/// The value of a row of digits.
pub open spec fn digits_value(s: Seq<char>) -> nat
    decreases s.len(),
{
    if s.len() == 0 {
        0
    } else {
        digits_value(s.drop_last()) * 10 + digit_value(s.last())
    }
}

/// Decimal text is made of digits and reads back as its number.
pub proof fn nat_text_reads_back(n: nat)
    ensures
        all_digits(nat_text(n)),
        nat_text(n).len() > 0,
        digits_value(nat_text(n)) == n,
    decreases n,
{
    if n < 10 {
        assert(nat_text(n).drop_last() =~= Seq::<char>::empty());
        assert(digits_value(Seq::<char>::empty()) == 0);
    } else {
        nat_text_reads_back(n / 10);
        assert(nat_text(n).drop_last() =~= nat_text(n / 10));
    }
}

/// A row of digits is worth at least its front part.
pub proof fn digits_value_grows(s: Seq<char>, k: int)
    requires
        0 <= k <= s.len(),
    ensures
        digits_value(s.take(k)) <= digits_value(s),
    decreases s.len() - k,
{
    if k < s.len() {
        digits_value_grows(s.drop_last(), k);
        assert(s.drop_last().take(k) =~= s.take(k));
    } else {
        assert(s.take(k) =~= s);
    }
}

/// The number that a text denotes, where it is a row of digits, perhaps after
/// one plus sign, worth at most `max`.
pub open spec fn read_nat(s: Seq<char>, max: nat) -> Option<nat> {
    let d = if s.len() > 0 && s[0] == '+' {
        s.skip(1)
    } else {
        s
    };
    if d.len() > 0 && all_digits(d) && digits_value(d) <= max {
        Some(digits_value(d))
    } else {
        None
    }
}

/// The integer that a text denotes, where it is a row of digits, perhaps after
/// one sign, from `-max - 1` to `max`.
pub open spec fn read_int(s: Seq<char>, max: nat) -> Option<int> {
    if s.len() > 0 && s[0] == '-' {
        let d = s.skip(1);
        if d.len() > 0 && all_digits(d) && digits_value(d) <= max + 1 {
            Some(-(digits_value(d) as int))
        } else {
            None
        }
    } else {
        match read_nat(s, max) {
            Some(n) => Some(n as int),
            None => None,
        }
    }
}

/// Reads the digits from `from` on, worth at most `max`.
fn read_digits(cs: &[char], from: usize, max: u128) -> (r: Option<u128>)
    requires
        from <= cs@.len(),
        max <= u64::MAX,
    ensures
        r is Some <==> cs@.skip(from as int).len() > 0 && all_digits(cs@.skip(from as int))
            && digits_value(cs@.skip(from as int)) <= max,
        r matches Some(n) ==> n == digits_value(cs@.skip(from as int)) && n <= max,
{
    let ghost d = cs@.skip(from as int);
    if from >= cs.len() {
        return None;
    }
    let mut i: usize = from;
    let mut n: u128 = 0;
    assert(d.take(0) =~= Seq::<char>::empty());
    while i < cs.len()
        invariant
            from <= i <= cs@.len(),
            max <= u64::MAX,
            d == cs@.skip(from as int),
            n <= max,
            n == digits_value(d.take(i - from)),
            forall|k: int| 0 <= k < i - from ==> is_digit(#[trigger] d[k]),
        decreases cs@.len() - i,
    {
        let c = cs[i];
        assert(c == d[i - from]);
        if !('0' <= c && c <= '9') {
            return None;
        }
        n = n * 10 + (c as u32 - 48) as u128;
        i += 1;
        assert(d.take(i - from).drop_last() =~= d.take(i - from - 1));
        if n > max {
            proof {
                digits_value_grows(d, i - from);
            }
            return None;
        }
    }
    assert(d.take(i - from) =~= d);
    Some(n)
}

fn read_nat_chars(cs: &[char], max: u128) -> (r: Option<u128>)
    requires
        max <= u64::MAX,
    ensures
        r matches Some(n) ==> read_nat(cs@, max as nat) == Some(n as nat) && n <= max,
        r is None ==> read_nat(cs@, max as nat) is None,
{
    let from: usize = if cs.len() > 0 && cs[0] == '+' {
        1
    } else {
        0
    };
    assert(cs@.skip(0) =~= cs@);
    read_digits(cs, from, max)
}

/// Reads a `u64`.
pub fn parse_u64(s: &str) -> (r: Option<u64>)
    ensures
        r matches Some(n) ==> read_nat(s@, u64::MAX as nat) == Some(n as nat),
        r is None ==> read_nat(s@, u64::MAX as nat) is None,
{
    let cs = chars_of(s);
    match read_nat_chars(&cs, u64::MAX as u128) {
        Some(n) => Some(n as u64),
        None => None,
    }
}

/// Reads a `u32`.
pub fn parse_u32(s: &str) -> (r: Option<u32>)
    ensures
        r matches Some(n) ==> read_nat(s@, u32::MAX as nat) == Some(n as nat),
        r is None ==> read_nat(s@, u32::MAX as nat) is None,
{
    let cs = chars_of(s);
    match read_nat_chars(&cs, u32::MAX as u128) {
        Some(n) => Some(n as u32),
        None => None,
    }
}

/// Reads a `u16`.
pub fn parse_u16(s: &str) -> (r: Option<u16>)
    ensures
        r matches Some(n) ==> read_nat(s@, u16::MAX as nat) == Some(n as nat),
        r is None ==> read_nat(s@, u16::MAX as nat) is None,
{
    let cs = chars_of(s);
    match read_nat_chars(&cs, u16::MAX as u128) {
        Some(n) => Some(n as u16),
        None => None,
    }
}

fn read_int_chars(cs: &[char], max: u128) -> (r: Option<i128>)
    requires
        max < u64::MAX,
    ensures
        r matches Some(n) ==> read_int(cs@, max as nat) == Some(n as int) && -max - 1 <= n <= max,
        r is None ==> read_int(cs@, max as nat) is None,
{
    if cs.len() > 0 && cs[0] == '-' {
        match read_digits(cs, 1, max + 1) {
            Some(n) => Some(-(n as i128)),
            None => None,
        }
    } else {
        match read_nat_chars(cs, max) {
            Some(n) => Some(n as i128),
            None => None,
        }
    }
}

/// Reads an `i64`.
pub fn parse_i64(s: &str) -> (r: Option<i64>)
    ensures
        r matches Some(n) ==> read_int(s@, i64::MAX as nat) == Some(n as int),
        r is None ==> read_int(s@, i64::MAX as nat) is None,
{
    let cs = chars_of(s);
    match read_int_chars(&cs, i64::MAX as u128) {
        Some(n) => Some(n as i64),
        None => None,
    }
}

/// Reads an `i32`.
pub fn parse_i32(s: &str) -> (r: Option<i32>)
    ensures
        r matches Some(n) ==> read_int(s@, i32::MAX as nat) == Some(n as int),
        r is None ==> read_int(s@, i32::MAX as nat) is None,
{
    let cs = chars_of(s);
    match read_int_chars(&cs, i32::MAX as u128) {
        Some(n) => Some(n as i32),
        None => None,
    }
}

/// What is written as a natural number is read as it.
pub proof fn read_nat_of_text(n: nat, max: nat)
    requires
        n <= max,
    ensures
        read_nat(nat_text(n), max) == Some(n),
{
    nat_text_reads_back(n);
    assert(is_digit(nat_text(n)[0]));
}

/// What is written as an integer is read as it.
pub proof fn read_int_of_text(n: int, max: nat)
    requires
        -max - 1 <= n <= max,
    ensures
        read_int(int_text(n), max) == Some(n),
{
    if n < 0 {
        nat_text_reads_back((-n) as nat);
        assert(int_text(n).skip(1) =~= nat_text((-n) as nat));
    } else {
        read_nat_of_text(n as nat, max);
        nat_text_reads_back(n as nat);
        assert(is_digit(nat_text(n as nat)[0]));
    }
}

/// The character of a hexadecimal digit, in lower case.
pub open spec fn hex_char(d: int) -> char {
    if d < 10 {
        digit_char(d)
    } else {
        ((87 + d) as u8) as char
    }
}

/// Bytes as two hexadecimal digits each.
pub open spec fn hex_text(bytes: Seq<u8>) -> Seq<char>
    decreases bytes.len(),
{
    if bytes.len() == 0 {
        Seq::empty()
    } else {
        hex_text(bytes.drop_last()) + seq![
            hex_char(bytes.last() as int / 16),
            hex_char(bytes.last() as int % 16),
        ]
    }
}

fn hex_digit(d: u8) -> (c: char)
    requires
        d < 16,
    ensures
        c == hex_char(d as int),
{
    if d < 10 {
        (48 + d) as char
    } else {
        (87 + d) as char
    }
}

/// Writes bytes in hexadecimal.
pub fn hex(bytes: &[u8]) -> (r: String)
    ensures
        r@ == hex_text(bytes@),
{
    let mut out = String::new();
    let mut i: usize = 0;
    while i < bytes.len()
        invariant
            i <= bytes@.len(),
            out@ == hex_text(bytes@.take(i as int)),
        decreases bytes@.len() - i,
    {
        let b: u8 = bytes[i];
        let ghost before = out@;
        out.push(hex_digit(b / 16));
        out.push(hex_digit(b % 16));
        i += 1;
        assert(bytes@.take(i as int).drop_last() =~= bytes@.take(i - 1));
        assert(out@ =~= before + seq![hex_char(b as int / 16), hex_char(b as int % 16)]);
    }
    assert(bytes@.take(i as int) =~= bytes@);
    out
}

/// Hexadecimal text is twice as long as its bytes.
pub proof fn hex_text_len(bytes: Seq<u8>)
    ensures
        hex_text(bytes).len() == 2 * bytes.len(),
    decreases bytes.len(),
{
    if bytes.len() > 0 {
        hex_text_len(bytes.drop_last());
    }
}

proof fn hex_char_is_injective(a: int, b: int)
    requires
        0 <= a < 16,
        0 <= b < 16,
        hex_char(a) == hex_char(b),
    ensures
        a == b,
{
    let x = (87 + a) as u8;
    let y = (87 + b) as u8;
    assert(a >= 10 ==> 97 <= x <= 102);
    assert(b >= 10 ==> 97 <= y <= 102);
}

/// Different bytes have different hexadecimal texts.
pub proof fn hex_text_is_injective(a: Seq<u8>, b: Seq<u8>)
    requires
        hex_text(a) == hex_text(b),
    ensures
        a == b,
    decreases a.len(),
{
    hex_text_len(a);
    hex_text_len(b);
    if a.len() == 0 {
        assert(a =~= b);
    } else {
        let n = hex_text(a).len() as int;
        let x = hex_text(a.drop_last());
        let y = hex_text(b.drop_last());
        hex_text_len(a.drop_last());
        hex_text_len(b.drop_last());
        assert(x =~= hex_text(a).take(n - 2));
        assert(y =~= hex_text(b).take(n - 2));
        hex_text_is_injective(a.drop_last(), b.drop_last());
        assert(hex_text(a)[n - 2] == hex_char(a.last() as int / 16));
        assert(hex_text(b)[n - 2] == hex_char(b.last() as int / 16));
        assert(hex_text(a)[n - 1] == hex_char(a.last() as int % 16));
        assert(hex_text(b)[n - 1] == hex_char(b.last() as int % 16));
        hex_char_is_injective(a.last() as int / 16, b.last() as int / 16);
        hex_char_is_injective(a.last() as int % 16, b.last() as int % 16);
        assert(a =~= a.drop_last().push(a.last()));
        assert(b =~= b.drop_last().push(b.last()));
    }
}

/// A byte is two hexadecimal digits, the one of the sixteens first, in lower case.
pub proof fn bytes_are_two_digits(bytes: Seq<u8>, i: int)
    requires
        0 <= i < bytes.len(),
    ensures
        hex_text(bytes).len() == 2 * bytes.len(),
        hex_text(bytes)[2 * i] == "0123456789abcdef"@[bytes[i] as int / 16],
        hex_text(bytes)[2 * i + 1] == "0123456789abcdef"@[bytes[i] as int % 16],
    decreases bytes.len(),
{
    reveal_strlit("0123456789abcdef");
    hex_text_len(bytes);
    hex_text_len(bytes.drop_last());
    let (h, l) = (bytes[i] as int / 16, bytes[i] as int % 16);
    hex_digit_is(h);
    hex_digit_is(l);
    if i < bytes.len() - 1 {
        bytes_are_two_digits(bytes.drop_last(), i);
    }
}

proof fn hex_digit_is(d: int)
    requires
        0 <= d < 16,
    ensures
        hex_char(d) == "0123456789abcdef"@[d],
{
    reveal_strlit("0123456789abcdef");
}

/// The digits of a number in decimal: behind those of the tens the one of the ones.
pub proof fn decimal_digits_are_in_order(tens: nat, ones: nat)
    requires
        ones < 10,
    ensures
        tens > 0 ==> nat_text(tens * 10 + ones) == nat_text(tens).push("0123456789"@[ones as int]),
        nat_text(ones) == seq!["0123456789"@[ones as int]],
{
    reveal_strlit("0123456789");
    assert((tens * 10 + ones) / 10 == tens && (tens * 10 + ones) % 10 == ones);
    assert(digit_char(ones as int) == "0123456789"@[ones as int]);
}

} // verus!
