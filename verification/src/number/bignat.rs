//! Natural numbers of any size.

use vstd::prelude::*;

verus! {

/// What one limb counts up to.
pub open spec fn base() -> nat {
    0x1_0000_0000
}

/// The weight of the limb at an index.
pub open spec fn weight(i: nat) -> nat
    decreases i,
{
    if i == 0 {
        1
    } else {
        base() * weight((i - 1) as nat)
    }
}

/// The limb at an index, zero behind the last.
pub open spec fn limb(s: Seq<u32>, i: int) -> nat {
    if 0 <= i < s.len() {
        s[i] as nat
    } else {
        0
    }
}

/// The value of the first `n` limbs, the least first.
pub open spec fn low_value(s: Seq<u32>, n: nat) -> nat
    decreases n,
{
    if n == 0 {
        0
    } else {
        low_value(s, (n - 1) as nat) + limb(s, n - 1) * weight((n - 1) as nat)
    }
}

/// The value of the limbs from `i` on.
pub open spec fn high_value(s: Seq<u32>, i: int) -> nat
    decreases s.len() - i,
{
    if i >= s.len() {
        0
    } else {
        limb(s, i) + base() * high_value(s, i + 1)
    }
}

/// A natural number, as limbs with the least first.
pub struct BigNat {
    pub limbs: Vec<u32>,
}

impl View for BigNat {
    type V = nat;

    open spec fn view(&self) -> nat {
        low_value(self.limbs@, self.limbs@.len())
    }
}

proof fn times_zero(a: nat, b: nat)
    requires
        a == 0,
    ensures
        a * b == 0,
        b * a == 0,
{
    assert(a * b == 0 && b * a == 0) by (nonlinear_arith)
        requires
            a == 0,
    ;
}

proof fn times_one(a: nat, b: nat)
    requires
        a == 1,
    ensures
        a * b == b,
        b * a == b,
{
    assert(a * b == b && b * a == b) by (nonlinear_arith)
        requires
            a == 1,
    ;
}

proof fn weight_positive(i: nat)
    ensures
        weight(i) > 0,
    decreases i,
{
    if i > 0 {
        weight_positive((i - 1) as nat);
        assert(base() * weight((i - 1) as nat) > 0) by (nonlinear_arith)
            requires
                weight((i - 1) as nat) > 0,
                base() > 0,
        ;
    }
}

/// Limbs behind the last add nothing.
proof fn low_value_beyond(s: Seq<u32>, n: nat)
    requires
        n >= s.len(),
    ensures
        low_value(s, n) == low_value(s, s.len()),
    decreases n,
{
    if n > s.len() {
        low_value_beyond(s, (n - 1) as nat);
        assert(0 * weight((n - 1) as nat) == 0);
    }
}

/// The first limbs are worth less than the next weight.
proof fn low_value_bound(s: Seq<u32>, n: nat)
    ensures
        low_value(s, n) < weight(n),
    decreases n,
{
    if n > 0 {
        low_value_bound(s, (n - 1) as nat);
        let w = weight((n - 1) as nat);
        let d = limb(s, n - 1);
        assert(d + 1 <= base());
        assert((d + 1) * w <= base() * w) by (nonlinear_arith)
            requires
                d + 1 <= base(),
        ;
        assert((d + 1) * w == d * w + w) by (nonlinear_arith);
    }
}

/// A value depends on the limbs that it counts.
proof fn low_value_same(s: Seq<u32>, t: Seq<u32>, n: nat)
    requires
        forall|i: int| 0 <= i < n ==> limb(s, i) == limb(t, i),
    ensures
        low_value(s, n) == low_value(t, n),
    decreases n,
{
    if n > 0 {
        low_value_same(s, t, (n - 1) as nat);
        assert(limb(s, n - 1) == limb(t, n - 1));
    }
}

proof fn low_value_push(s: Seq<u32>, x: u32)
    ensures
        low_value(s.push(x), s.len() + 1) == low_value(s, s.len()) + x * weight(s.len()),
{
    low_value_same(s, s.push(x), s.len());
    assert(limb(s.push(x), s.len() as int) == x);
}

/// Low and high limbs together make up the value.
proof fn split_value(s: Seq<u32>, i: nat)
    requires
        i <= s.len(),
    ensures
        low_value(s, i) + weight(i) * high_value(s, i as int) == low_value(s, s.len()),
    decreases s.len() - i,
{
    if i == s.len() {
        assert(weight(i) * 0 == 0);
    } else {
        split_value(s, i + 1);
        let w = weight(i);
        let d = limb(s, i as int);
        let h = high_value(s, i as int + 1);
        assert(weight(i + 1) == base() * w);
        assert(w * (d + base() * h) == d * w + (base() * w) * h) by (nonlinear_arith);
    }
}

/// The value of the first two limbs.
proof fn two_limbs(s: Seq<u32>)
    ensures
        low_value(s, 2) == limb(s, 0) + limb(s, 1) * base(),
        weight(2) == base() * base(),
{
    assert(weight(0) == 1);
    assert(weight(1) == base()) by {
        times_one(weight(0), base());
    }
    assert(weight(2) == base() * weight(1));
    assert(low_value(s, 0) == 0);
    times_one(weight(0), limb(s, 0));
    assert(low_value(s, 1) == limb(s, 0));
}

fn limb_at(v: &[u32], i: usize) -> (r: u32)
    ensures
        r == limb(v@, i as int),
{
    if i < v.len() {
        v[i]
    } else {
        0
    }
}

/// How many bits a number has.
pub open spec fn bit_count(n: nat) -> nat
    decreases n,
{
    if n == 0 {
        0
    } else {
        1 + bit_count(n / 2)
    }
}

/// A power of two.
spec fn two_to(k: nat) -> nat
    decreases k,
{
    if k == 0 {
        1
    } else {
        2 * two_to((k - 1) as nat)
    }
}

/// Bits below a number add their count.
proof fn bits_below(d: nat, h: nat, k: nat)
    requires
        d < two_to(k),
        h > 0,
    ensures
        bit_count(d + two_to(k) * h) == k + bit_count(h),
        d + two_to(k) * h > 0,
    decreases k,
{
    if k == 0 {
        assert(two_to(0) * h == h) by (nonlinear_arith)
            requires
                two_to(0) == 1,
        ;
    } else {
        let p = two_to((k - 1) as nat);
        bits_below(d / 2, h, (k - 1) as nat);
        let n = d + two_to(k) * h;
        assert(two_to(k) * h == 2 * (p * h)) by (nonlinear_arith)
            requires
                two_to(k) == 2 * p,
        ;
        assert(n / 2 == d / 2 + p * h);
    }
}

proof fn two_to_32()
    ensures
        two_to(32) == base(),
{
    reveal_with_fuel(two_to, 33);
}

/// A limb has thirty-two bits at most.
proof fn bits_of_limb(d: nat)
    requires
        d < base(),
    ensures
        bit_count(d) <= 32,
{
    two_to_32();
    few_bits(d, 32);
}

proof fn few_bits(d: nat, k: nat)
    requires
        d < two_to(k),
    ensures
        bit_count(d) <= k,
    decreases k,
{
    if d > 0 {
        few_bits(d / 2, (k - 1) as nat);
    }
}

/// The bits of limbs up to the last that counts.
proof fn bits_of_limbs(s: Seq<u32>, i: int, n: int)
    requires
        0 <= i < n <= s.len(),
        s[n - 1] != 0,
        high_value(s, n) == 0,
    ensures
        high_value(s, i) > 0,
        bit_count(high_value(s, i)) == 32 * (n - 1 - i) + bit_count(s[n - 1] as nat),
        bit_count(s[n - 1] as nat) > 0,
    decreases n - i,
{
    if i < n - 1 {
        bits_of_limbs(s, i + 1, n);
        two_to_32();
        bits_below(limb(s, i), high_value(s, i + 1), 32);
    }
}

impl BigNat {
    /// A number of at most 64 bits.
    pub fn from_u64(n: u64) -> (r: BigNat)
        ensures
            r@ == n,
    {
        let lo: u32 = (n % 0x1_0000_0000) as u32;
        let hi: u32 = (n / 0x1_0000_0000) as u32;
        let limbs = vec![lo, hi];
        proof {
            two_limbs(limbs@);
        }
        BigNat { limbs }
    }

    /// A copy.
    pub fn copy(&self) -> (r: BigNat)
        ensures
            r@ == self@,
    {
        let mut limbs: Vec<u32> = Vec::new();
        let mut i: usize = 0;
        while i < self.limbs.len()
            invariant
                i <= self.limbs@.len(),
                limbs@ == self.limbs@.take(i as int),
            decreases self.limbs@.len() - i,
        {
            limbs.push(self.limbs[i]);
            i += 1;
            assert(self.limbs@.take(i as int) =~= self.limbs@.take(i - 1).push(self.limbs@[i - 1]));
        }
        assert(self.limbs@.take(i as int) =~= self.limbs@);
        BigNat { limbs }
    }

    /// The sum.
    pub fn plus(&self, other: &BigNat) -> (r: BigNat)
        ensures
            r@ == self@ + other@,
    {
        let n: usize = if self.limbs.len() > other.limbs.len() {
            self.limbs.len()
        } else {
            other.limbs.len()
        };
        let mut out: Vec<u32> = Vec::new();
        let mut carry: u64 = 0;
        let mut i: usize = 0;
        while i < n
            invariant
                i <= n,
                carry <= 1,
                out@.len() == i,
                low_value(out@, i as nat) + carry * weight(i as nat) == low_value(
                    self.limbs@,
                    i as nat,
                ) + low_value(other.limbs@, i as nat),
            decreases n - i,
        {
            let a: u64 = limb_at(&self.limbs, i) as u64;
            let b: u64 = limb_at(&other.limbs, i) as u64;
            let sum: u64 = a + b + carry;
            let digit: u32 = (sum % 0x1_0000_0000) as u32;
            let next: u64 = sum / 0x1_0000_0000;
            proof {
                let w = weight(i as nat);
                low_value_push(out@, digit);
                assert(weight((i + 1) as nat) == base() * w);
                assert(digit * w + next * (base() * w) == a * w + b * w + carry * w)
                    by (nonlinear_arith)
                    requires
                        digit + next * base() == a + b + carry,
                ;
            }
            out.push(digit);
            carry = next;
            i += 1;
        }
        proof {
            low_value_beyond(self.limbs@, n as nat);
            low_value_beyond(other.limbs@, n as nat);
            low_value_push(out@, carry as u32);
        }
        out.push(carry as u32);
        BigNat::trimmed(out)
    }

    /// The difference.
    pub fn minus(&self, other: &BigNat) -> (r: BigNat)
        requires
            other@ <= self@,
        ensures
            r@ == self@ - other@,
    {
        let n: usize = if self.limbs.len() > other.limbs.len() {
            self.limbs.len()
        } else {
            other.limbs.len()
        };
        let mut out: Vec<u32> = Vec::new();
        let mut borrow: u64 = 0;
        let mut i: usize = 0;
        while i < n
            invariant
                i <= n,
                borrow <= 1,
                out@.len() == i,
                low_value(out@, i as nat) + low_value(other.limbs@, i as nat) == low_value(
                    self.limbs@,
                    i as nat,
                ) + borrow * weight(i as nat),
            decreases n - i,
        {
            let a: u64 = limb_at(&self.limbs, i) as u64;
            let b: u64 = limb_at(&other.limbs, i) as u64;
            let diff: u64 = a + 0x1_0000_0000 - b - borrow;
            let digit: u32 = (diff % 0x1_0000_0000) as u32;
            let next: u64 = 1 - diff / 0x1_0000_0000;
            proof {
                let w = weight(i as nat);
                low_value_push(out@, digit);
                assert(weight((i + 1) as nat) == base() * w);
                assert(digit * w + b * w + borrow * w == a * w + next * (base() * w))
                    by (nonlinear_arith)
                    requires
                        digit + b + borrow == a + next * base(),
                ;
            }
            out.push(digit);
            borrow = next;
            i += 1;
        }
        proof {
            low_value_beyond(self.limbs@, n as nat);
            low_value_beyond(other.limbs@, n as nat);
            low_value_bound(out@, n as nat);
            assert(borrow == 1 ==> borrow * weight(n as nat) == weight(n as nat));
            assert(borrow == 0 ==> borrow * weight(n as nat) == 0);
        }
        BigNat::trimmed(out)
    }

    /// Whether this number is less than another.
    pub fn less(&self, other: &BigNat) -> (r: bool)
        ensures
            r == (self@ < other@),
    {
        let n: usize = if self.limbs.len() > other.limbs.len() {
            self.limbs.len()
        } else {
            other.limbs.len()
        };
        let mut i: usize = n;
        proof {
            low_value_beyond(self.limbs@, n as nat);
            low_value_beyond(other.limbs@, n as nat);
        }
        while i > 0
            invariant
                i <= n,
                (self@ < other@) == (low_value(self.limbs@, i as nat) < low_value(
                    other.limbs@,
                    i as nat,
                )),
            decreases i,
        {
            let a: u32 = limb_at(&self.limbs, i - 1);
            let b: u32 = limb_at(&other.limbs, i - 1);
            let ghost w = weight((i - 1) as nat);
            proof {
                low_value_bound(self.limbs@, (i - 1) as nat);
                low_value_bound(other.limbs@, (i - 1) as nat);
            }
            if a < b {
                assert(a * w + w <= b * w) by (nonlinear_arith)
                    requires
                        a + 1 <= b,
                ;
                return true;
            }
            if b < a {
                assert(b * w + w <= a * w) by (nonlinear_arith)
                    requires
                        b + 1 <= a,
                ;
                return false;
            }
            i -= 1;
        }
        false
    }

    /// The number that limbs make up, without those behind the last that counts.
    fn trimmed(limbs: Vec<u32>) -> (r: BigNat)
        ensures
            r@ == low_value(limbs@, limbs@.len()),
    {
        let mut kept = limbs;
        while kept.len() > 0 && kept[kept.len() - 1] == 0
            invariant
                low_value(kept@, kept@.len()) == low_value(limbs@, limbs@.len()),
            decreases kept@.len(),
        {
            proof {
                low_value_push(kept@.drop_last(), 0);
                assert(kept@ =~= kept@.drop_last().push(0));
                times_zero(0, weight((kept@.len() - 1) as nat));
            }
            kept.pop();
        }
        BigNat { limbs: kept }
    }

    /// How many bits the number has, a hundred thousand where it has more.
    pub(crate) fn size(&self) -> (r: u32)
        ensures
            r == if bit_count(self@) > 100_000 {
                100_000
            } else {
                bit_count(self@)
            },
    {
        let ghost s = self.limbs@;
        let mut n: usize = self.limbs.len();
        while n > 0 && self.limbs[n - 1] == 0
            invariant
                n <= self.limbs@.len(),
                s == self.limbs@,
                high_value(s, n as int) == 0,
            decreases n,
        {
            n -= 1;
        }
        proof {
            split_value(s, 0);
            times_one(weight(0), high_value(s, 0));
        }
        if n == 0 {
            return 0;
        }
        proof {
            bits_of_limbs(s, 0, n as int);
        }
        let last: u32 = self.limbs[n - 1];
        let mut top: u32 = last;
        let mut bits: u32 = 0;
        proof {
            bits_of_limb(last as nat);
        }
        while top > 0
            invariant
                bits + bit_count(top as nat) == bit_count(last as nat),
                bit_count(last as nat) <= 32,
            decreases top,
        {
            top = top / 2;
            bits += 1;
        }
        if n > 3_125 {
            return 100_000;
        }
        (n as u32 - 1) * 32 + bits
    }

    /// The product with a small number.
    pub fn times_small(&self, k: u32) -> (r: BigNat)
        ensures
            r@ == self@ * k,
    {
        let n: usize = self.limbs.len();
        let mut out: Vec<u32> = Vec::new();
        let mut carry: u64 = 0;
        let mut i: usize = 0;
        proof {
            times_zero(low_value(self.limbs@, 0), k as nat);
            times_zero(carry as nat, weight(0));
        }
        while i < n
            invariant
                i <= n,
                n == self.limbs@.len(),
                carry < 0x1_0000_0000,
                out@.len() == i,
                low_value(out@, i as nat) + carry * weight(i as nat) == low_value(
                    self.limbs@,
                    i as nat,
                ) * k,
            decreases n - i,
        {
            let a: u64 = self.limbs[i] as u64;
            let kk: u64 = k as u64;
            assert(a * kk <= 0xffff_ffff * 0xffff_ffff) by (nonlinear_arith)
                requires
                    a <= 0xffff_ffff,
                    kk <= 0xffff_ffff,
            ;
            let sum: u64 = a * kk + carry;
            let digit: u32 = (sum % 0x1_0000_0000) as u32;
            let next: u64 = sum / 0x1_0000_0000;
            proof {
                let w = weight(i as nat);
                let low = low_value(self.limbs@, i as nat);
                low_value_push(out@, digit);
                assert(weight((i + 1) as nat) == base() * w);
                assert(digit * w + next * (base() * w) == (a * kk) * w + carry * w)
                    by (nonlinear_arith)
                    requires
                        digit + next * base() == a * kk + carry,
                ;
                assert((low + a * w) * kk == low * kk + (a * kk) * w) by (nonlinear_arith);
            }
            out.push(digit);
            carry = next;
            i += 1;
        }
        proof {
            low_value_push(out@, carry as u32);
        }
        out.push(carry as u32);
        BigNat::trimmed(out)
    }

    /// The product.
    pub fn times(&self, other: &BigNat) -> (r: BigNat)
        ensures
            r@ == self@ * other@,
    {
        let n: usize = self.limbs.len();
        let mut acc = BigNat::from_u64(0);
        let mut shifted = other.copy();
        let mut i: usize = 0;
        proof {
            times_zero(low_value(self.limbs@, 0), other@);
            times_one(weight(0), other@);
        }
        while i < n
            invariant
                i <= n,
                n == self.limbs@.len(),
                shifted@ == other@ * weight(i as nat),
                acc@ == low_value(self.limbs@, i as nat) * other@,
            decreases n - i,
        {
            let d: u32 = self.limbs[i];
            let part = shifted.times_small(d);
            acc = acc.plus(&part);
            proof {
                let w = weight(i as nat);
                let low = low_value(self.limbs@, i as nat);
                assert((low + d * w) * other@ == low * other@ + (other@ * w) * d)
                    by (nonlinear_arith);
                assert(weight((i + 1) as nat) == base() * w);
                assert(other@ * (base() * w) == (other@ * w) * 0x1_0000 * 0x1_0000)
                    by (nonlinear_arith);
            }
            shifted = shifted.times_small(0x1_0000).times_small(0x1_0000);
            i += 1;
        }
        acc
    }

    /// Quotient and remainder by a small number.
    pub fn div_small(&self, k: u32) -> (r: (BigNat, u32))
        requires
            k > 0,
        ensures
            r.0@ == self@ / (k as nat),
            r.1 == self@ % (k as nat),
    {
        let n: usize = self.limbs.len();
        let kk: u64 = k as u64;
        let mut out: Vec<u32> = Vec::new();
        let mut z: usize = 0;
        while z < n
            invariant
                z <= n,
                out@.len() == z,
            decreases n - z,
        {
            out.push(0);
            z += 1;
        }
        let mut rem: u64 = 0;
        let mut i: usize = n;
        proof {
            times_zero(high_value(out@, i as int), kk as nat);
        }
        while i > 0
            invariant
                i <= n,
                n == self.limbs@.len(),
                out@.len() == n,
                kk == k,
                0 < kk <= 0xffff_ffff,
                rem < kk,
                high_value(out@, i as int) * kk + rem == high_value(self.limbs@, i as int),
            decreases i,
        {
            let d: u64 = self.limbs[i - 1] as u64;
            let ghost h = high_value(self.limbs@, i as int);
            let ghost q = high_value(out@, i as int);
            let ghost old_rem = rem;
            let cur: u64 = rem * 0x1_0000_0000 + d;
            let digit64: u64 = cur / kk;
            assert(digit64 < 0x1_0000_0000) by (nonlinear_arith)
                requires
                    cur < kk * 0x1_0000_0000,
                    kk > 0,
                    digit64 == cur / kk,
            ;
            let ghost before = out@;
            out.set(i - 1, digit64 as u32);
            rem = cur % kk;
            proof {
                high_value_same(before, out@, i as int);
                assert(high_value(out@, i - 1) == digit64 + base() * q);
                assert(high_value(self.limbs@, i - 1) == d + base() * h);
                assert(cur == digit64 * kk + rem) by (nonlinear_arith)
                    requires
                        digit64 == cur / kk,
                        rem == cur % kk,
                        kk > 0,
                ;
                assert((digit64 + base() * q) * kk + rem == d + base() * h) by (nonlinear_arith)
                    requires
                        cur == old_rem * base() + d,
                        cur == digit64 * kk + rem,
                        q * kk + old_rem == h,
                ;
            }
            i -= 1;
        }
        proof {
            split_value(out@, 0);
            split_value(self.limbs@, 0);
            times_one(weight(0), high_value(out@, 0));
            times_one(weight(0), high_value(self.limbs@, 0));
            let q = high_value(out@, 0) as int;
            vstd::arithmetic::div_mod::lemma_fundamental_div_mod_converse(
                self@ as int,
                kk as int,
                q,
                rem as int,
            );
        }
        (BigNat::trimmed(out), rem as u32)
    }

    /// Whether the number is zero.
    pub fn is_zero(&self) -> (r: bool)
        ensures
            r == (self@ == 0),
    {
        let one = BigNat::from_u64(1);
        self.less(&one)
    }

    /// The number as a machine integer.
    pub fn to_u64(&self) -> (r: u64)
        requires
            self@ < 0x1_0000_0000_0000_0000,
        ensures
            r == self@,
    {
        let lo: u64 = limb_at(&self.limbs, 0) as u64;
        let hi: u64 = limb_at(&self.limbs, 1) as u64;
        proof {
            let s = self.limbs@;
            two_limbs(s);
            if s.len() < 2 {
                low_value_beyond(s, 2);
            } else {
                split_value(s, 2);
                let h = high_value(s, 2);
                assert(weight(2) == base() * base());
                assert(h == 0) by (nonlinear_arith)
                    requires
                        base() * base() * h < 0x1_0000_0000_0000_0000,
                        base() == 0x1_0000_0000,
                ;
                assert(weight(2) * h == 0);
            }
        }
        hi * 0x1_0000_0000 + lo
    }

    /// Quotient and remainder.
    pub fn div_rem(&self, other: &BigNat) -> (r: (BigNat, BigNat))
        requires
            other@ > 0,
        ensures
            r.0@ == self@ / other@,
            r.1@ == self@ % other@,
    {
        let (q, r) = self.div_step(other);
        proof {
            vstd::arithmetic::div_mod::lemma_fundamental_div_mod_converse(
                self@ as int,
                other@ as int,
                q@ as int,
                r@ as int,
            );
        }
        (q, r)
    }

    /// Divides by doubling the divisor until it is too large, then back.
    fn div_step(&self, other: &BigNat) -> (r: (BigNat, BigNat))
        requires
            other@ > 0,
        ensures
            self@ == r.0@ * other@ + r.1@,
            r.1@ < other@,
        decreases if self@ < other@ { 0 } else { self@ - other@ + 1 },
    {
        if self.less(other) {
            let zero = BigNat::from_u64(0);
            assert(0 * other@ == 0);
            return (zero, self.copy());
        }
        let double = other.times_small(2);
        let (q, r) = self.div_step(&double);
        let q2 = q.times_small(2);
        assert(q@ * (other@ * 2) == (q@ * 2) * other@) by (nonlinear_arith);
        if r.less(other) {
            (q2, r)
        } else {
            let one = BigNat::from_u64(1);
            let q3 = q2.plus(&one);
            assert((q2@ + 1) * other@ == q2@ * other@ + other@) by (nonlinear_arith);
            (q3, r.minus(other))
        }
    }
}

proof fn high_value_same(s: Seq<u32>, t: Seq<u32>, i: int)
    requires
        s.len() == t.len(),
        0 <= i,
        forall|k: int| i <= k < s.len() ==> s[k] == t[k],
    ensures
        high_value(s, i) == high_value(t, i),
    decreases s.len() - i,
{
    if i < s.len() {
        high_value_same(s, t, i + 1);
    }
}

} // verus!
