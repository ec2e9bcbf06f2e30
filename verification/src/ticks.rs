//! Tick counts.
//!
//! A tick is a Planck tick, and the counts this program handles are large: the
//! bridge second alone is `18548584399861 × 10³⁰` ticks, past what 128 bits
//! hold. A count here is a natural number below `2⁵¹²`, held as two 256-bit
//! halves of two 128-bit words each, and every operation on it is exact or
//! refuses: a sum or product that does not fit is `None`, never a wrapped
//! value.
use vstd::prelude::*;

use vstd::arithmetic::div_mod::lemma_fundamental_div_mod;

use crate::text::{decimal, digit_of, push_char};

verus! {

/// `2¹²⁸`.
pub open spec fn half() -> nat {
    u128::MAX as nat + 1
}

/// `2²⁵⁶`: one more than the largest half of a count.
pub open spec fn span() -> nat {
    half() * half()
}

/// `2¹²⁸` and `2²⁵⁶`, as numbers.
pub proof fn lemma_span()
    ensures
        half() == 0x1_0000_0000_0000_0000_0000_0000_0000_0000nat,
        span() == 0x1_0000_0000_0000_0000_0000_0000_0000_0000_0000_0000_0000_0000_0000_0000_0000_0000nat,
{
    assert(half() == 0x1_0000_0000_0000_0000_0000_0000_0000_0000nat);
    assert(0x1_0000_0000_0000_0000_0000_0000_0000_0000nat * 0x1_0000_0000_0000_0000_0000_0000_0000_0000nat == 0x1_0000_0000_0000_0000_0000_0000_0000_0000_0000_0000_0000_0000_0000_0000_0000_0000nat) by (nonlinear_arith);
}

/// A 256-bit number, the half of a count.
#[derive(Clone, Copy, PartialEq, Eq, Structural, Debug)]
pub struct Wide {
    hi: u128,
    lo: u128,
}

impl View for Wide {
    type V = nat;

    /// The count.
    closed spec fn view(&self) -> nat {
        self.hi as nat * half() + self.lo as nat
    }
}

/// The two halves of a count below the limit.
proof fn lemma_halves(t: Wide)
    ensures
        t@ < span(),
        t@ == t.hi as nat * half() + t.lo as nat,
{
    let h = half() as int;
    assert(t.hi as int * h + (t.lo as int) < h * h) by (nonlinear_arith)
        requires
            0 <= t.hi < h,
            0 <= t.lo < h,
    ;
}

/// Two counts with the same value are the same count.
proof fn lemma_unique(a: Wide, b: Wide)
    requires
        a@ == b@,
    ensures
        a == b,
{
    let h = half() as int;
    assert(a.hi == b.hi && a.lo == b.lo) by (nonlinear_arith)
        requires
            a.hi as int * h + a.lo as int == b.hi as int * h + b.lo as int,
            0 <= a.lo < h,
            0 <= b.lo < h,
            a.hi >= 0,
            b.hi >= 0,
            h > 0,
    ;
}

/// A count is its value: two counts are equal exactly when their values are.
pub proof fn lemma_equal_by_value(a: Wide, b: Wide)
    ensures
        a == b <==> a@ == b@,
{
    if a@ == b@ {
        lemma_unique(a, b);
    }
}

impl Wide {
    /// No ticks.
    pub fn zero() -> (t: Wide)
        ensures
            t@ == 0,
    {
        Wide { hi: 0, lo: 0 }
    }

    /// A count that fits in 128 bits.
    pub fn from_u128(n: u128) -> (t: Wide)
        ensures
            t@ == n,
    {
        Wide { hi: 0, lo: n }
    }

    /// Whether this count is zero.
    pub fn is_zero(&self) -> (b: bool)
        ensures
            b == (self@ == 0),
    {
        proof {
            assert(self.hi > 0 ==> self@ > 0) by (nonlinear_arith)
                requires
                    self@ == self.hi as nat * half() + self.lo as nat,
                    half() > 0,
            ;
        }
        self.hi == 0 && self.lo == 0
    }

    /// Whether this count is smaller than `other`.
    pub fn lt(&self, other: &Wide) -> (b: bool)
        ensures
            b == (self@ < other@),
    {
        let ghost h = half() as int;
        proof {
            assert(self.hi < other.hi ==> self@ < other@) by (nonlinear_arith)
                requires
                    self.hi as int + 1 <= other.hi as int || self.hi >= other.hi,
                    self@ == self.hi as int * h + self.lo as int,
                    other@ == other.hi as int * h + other.lo as int,
                    0 <= self.lo < h,
                    0 <= other.lo,
            ;
            assert(self.hi > other.hi ==> self@ > other@) by (nonlinear_arith)
                requires
                    other.hi as int + 1 <= self.hi as int || other.hi >= self.hi,
                    self@ == self.hi as int * h + self.lo as int,
                    other@ == other.hi as int * h + other.lo as int,
                    0 <= other.lo < h,
                    0 <= self.lo,
            ;
        }
        self.hi < other.hi || (self.hi == other.hi && self.lo < other.lo)
    }

    /// The sum, when it fits.
    pub fn try_add(&self, other: &Wide) -> (r: Option<Wide>)
        ensures
            r is Some <==> self@ + other@ < span(),
            r matches Some(t) ==> t@ == self@ + other@,
    {
        proof {
            lemma_halves(*self);
            lemma_halves(*other);
        }
        let (lo, carry) = if self.lo <= u128::MAX - other.lo {
            (self.lo + other.lo, 0u128)
        } else {
            (self.lo - (u128::MAX - other.lo) - 1, 1u128)
        };
        assert(lo as nat + carry as nat * half() == self.lo as nat + other.lo as nat);
        if self.hi <= u128::MAX - other.hi && self.hi + other.hi <= u128::MAX - carry {
            let hi = self.hi + other.hi + carry;
            let t = Wide { hi, lo };
            assert(t@ == self@ + other@) by (nonlinear_arith)
                requires
                    t@ == hi as nat * half() + lo as nat,
                    hi == self.hi + other.hi + carry,
                    lo as nat + carry as nat * half() == self.lo as nat + other.lo as nat,
                    self@ == self.hi as nat * half() + self.lo as nat,
                    other@ == other.hi as nat * half() + other.lo as nat,
            ;
            Some(t)
        } else {
            assert(self@ + other@ >= span()) by (nonlinear_arith)
                requires
                    self.hi as nat + other.hi as nat + carry as nat >= half(),
                    lo as nat + carry as nat * half() == self.lo as nat + other.lo as nat,
                    self@ == self.hi as nat * half() + self.lo as nat,
                    other@ == other.hi as nat * half() + other.lo as nat,
                    span() == half() * half(),
            ;
            None
        }
    }

    /// The difference, when `other` is no larger.
    pub fn try_sub(&self, other: &Wide) -> (r: Option<Wide>)
        ensures
            r is Some <==> other@ <= self@,
            r matches Some(t) ==> t@ == self@ - other@,
    {
        if self.lt(other) {
            None
        } else {
            let (lo, borrow) = if self.lo >= other.lo {
                (self.lo - other.lo, 0u128)
            } else {
                (u128::MAX - (other.lo - self.lo) + 1, 1u128)
            };
            assert(lo as int - borrow as int * half() == self.lo as int - other.lo as int);
            let ghost h = half() as int;
            assert(self.hi as int - other.hi as int - borrow as int >= 0) by (nonlinear_arith)
                requires
                    self.hi as int * h + self.lo as int >= other.hi as int * h + other.lo as int,
                    lo as int - borrow as int * h == self.lo as int - other.lo as int,
                    0 <= lo < h,
                    h > 0,
            ;
            let hi = self.hi - other.hi - borrow;
            let t = Wide { hi, lo };
            assert(t@ == self@ - other@) by (nonlinear_arith)
                requires
                    t@ == hi as int * h + lo as int,
                    hi as int == self.hi as int - other.hi as int - borrow as int,
                    lo as int - borrow as int * h == self.lo as int - other.lo as int,
                    self@ == self.hi as int * h + self.lo as int,
                    other@ == other.hi as int * h + other.lo as int,
            ;
            Some(t)
        }
    }
}


/// A product of two numbers split at `2⁶⁴`, multiplied out.
proof fn lemma_split_product(a: int, b: int, a1: int, a0: int, b1: int, b0: int)
    by (nonlinear_arith)
    requires
        a == 0x1_0000_0000_0000_0000int * a1 + a0,
        b == 0x1_0000_0000_0000_0000int * b1 + b0,
    ensures
        a * b == (a1 * b1) * 0x1_0000_0000_0000_0000_0000_0000_0000_0000int + (a0 * b1 + a1 * b0)
            * 0x1_0000_0000_0000_0000int + a0 * b0,
{
}

/// The full product of two 128-bit numbers, as its high and low halves.
fn mul_wide(a: u128, b: u128) -> (r: (u128, u128))
    ensures
        r.0 as nat * half() + r.1 as nat == a as nat * b as nat,
{
    let q: u128 = 0x1_0000_0000_0000_0000;
    let a1 = a / q;
    let a0 = a % q;
    let b1 = b / q;
    let b0 = b % q;
    assert(a1 < q && b1 < q) by {
        assert(a < q * q);
    }
    let ghost qq = q as int;
    assert(a0 * b0 < qq * qq && a0 * b1 < qq * qq && a1 * b0 < qq * qq && a1 * b1 < qq * qq) by (nonlinear_arith)
        requires
            0 <= a0 < qq,
            0 <= a1 < qq,
            0 <= b0 < qq,
            0 <= b1 < qq,
    ;
    assert(qq * qq == half());
    let p00 = a0 * b0;
    let p01 = a0 * b1;
    let p10 = a1 * b0;
    let p11 = a1 * b1;
    let t = p00 / q + p01 % q + p10 % q;
    let lo = p00 % q + (t % q) * q;
    proof {
        lemma_fundamental_div_mod(a as int, qq);
        lemma_fundamental_div_mod(b as int, qq);
        lemma_fundamental_div_mod(p00 as int, qq);
        lemma_fundamental_div_mod(p01 as int, qq);
        lemma_fundamental_div_mod(p10 as int, qq);
        lemma_fundamental_div_mod(t as int, qq);
    }
    let ghost hi_int: int = p11 as int + (p01 / q) as int + (p10 / q) as int + (t / q) as int;
    assert(a as int * b as int == p11 as int * 0x1_0000_0000_0000_0000_0000_0000_0000_0000int + (p01 as int
        + p10 as int) * 0x1_0000_0000_0000_0000int + p00 as int) by {
        lemma_split_product(a as int, b as int, a1 as int, a0 as int, b1 as int, b0 as int);
    }
    assert(a as int * b as int == hi_int * 0x1_0000_0000_0000_0000_0000_0000_0000_0000int + lo as int);
    assert(qq * qq == 0x1_0000_0000_0000_0000_0000_0000_0000_0000int);
    assert(hi_int < qq * qq) by (nonlinear_arith)
        requires
            a as int * b as int == hi_int * (qq * qq) + lo as int,
            0 <= a < qq * qq,
            0 <= b < qq * qq,
            0 <= lo,
            qq > 0,
    ;
    let hi = p11 + p01 / q + p10 / q + t / q;
    (hi, lo)
}

impl Wide {
    /// The product with `m`, when it fits.
    pub fn try_mul(&self, m: u128) -> (r: Option<Wide>)
        ensures
            r is Some <==> self@ * m < span(),
            r matches Some(t) ==> t@ == self@ * m,
    {
        let (c1, r0) = mul_wide(self.lo, m);
        let (c2, r1) = mul_wide(self.hi, m);
        let ghost h = half() as int;
        assert(self@ * m == c2 as int * (h * h) + (r1 as int + c1 as int) * h + r0 as int) by (nonlinear_arith)
            requires
                self@ == self.hi as int * h + self.lo as int,
                c1 as int * h + r0 as int == self.lo as int * m as int,
                c2 as int * h + r1 as int == self.hi as int * m as int,
        ;
        if c2 == 0 && r1 <= u128::MAX - c1 {
            let t = Wide { hi: r1 + c1, lo: r0 };
            proof {
                lemma_halves(t);
                assert(c2 as int * (h * h) == 0) by (nonlinear_arith)
                    requires
                        c2 == 0,
                ;
                assert(span() == h * h);
            }
            Some(t)
        } else {
            assert(self@ * m >= h * h) by (nonlinear_arith)
                requires
                    self@ * m == c2 as int * (h * h) + (r1 as int + c1 as int) * h + r0 as int,
                    c2 >= 1 || r1 as int + c1 as int >= h,
                    c2 >= 0,
                    r1 >= 0,
                    c1 >= 0,
                    r0 >= 0,
                    h > 0,
            ;
            assert(span() == h * h);
            None
        }
    }
}


/// Four steps of long division put back together.
proof fn lemma_long_division(
    v: int,
    rin: int,
    hi: int,
    lo: int,
    l3: int,
    l2: int,
    l1: int,
    l0: int,
    d: int,
    q3: int,
    q2: int,
    q1: int,
    q0: int,
    r3: int,
    r2: int,
    r1: int,
    r0: int,
)
    requires
        v == hi * 0x1_0000_0000_0000_0000_0000_0000_0000_0000int + lo,
        hi == 0x1_0000_0000_0000_0000int * l3 + l2,
        lo == 0x1_0000_0000_0000_0000int * l1 + l0,
        rin * 0x1_0000_0000_0000_0000int + l3 == d * q3 + r3,
        r3 * 0x1_0000_0000_0000_0000int + l2 == d * q2 + r2,
        r2 * 0x1_0000_0000_0000_0000int + l1 == d * q1 + r1,
        r1 * 0x1_0000_0000_0000_0000int + l0 == d * q0 + r0,
    ensures
        rin * 0x1_0000_0000_0000_0000_0000_0000_0000_0000_0000_0000_0000_0000_0000_0000_0000_0000int + v == (d * q3) * 0x1_0000_0000_0000_0000_0000_0000_0000_0000_0000_0000_0000_0000int + (d * q2)
            * 0x1_0000_0000_0000_0000_0000_0000_0000_0000int + (d * q1) * 0x1_0000_0000_0000_0000int + d * q0 + r0,
{
    let q = 0x1_0000_0000_0000_0000int;
    let dq3 = d * q3;
    let dq2 = d * q2;
    let dq1 = d * q1;
    let dq0 = d * q0;
    assert(hi * (q * q) == l3 * (q * q * q) + l2 * (q * q)) by (nonlinear_arith)
        requires
            hi == q * l3 + l2,
    ;
    assert(lo == l1 * q + l0);
    assert(rin * (q * q * q * q) + l3 * (q * q * q) == dq3 * (q * q * q) + r3 * (q * q * q)) by (nonlinear_arith)
        requires
            rin * q + l3 == dq3 + r3,
    ;
    assert(q * q * q * q == 0x1_0000_0000_0000_0000_0000_0000_0000_0000_0000_0000_0000_0000_0000_0000_0000_0000int);
    assert(r3 * (q * q * q) + l2 * (q * q) == dq2 * (q * q) + r2 * (q * q)) by (nonlinear_arith)
        requires
            r3 * q + l2 == dq2 + r2,
    ;
    assert(r2 * (q * q) + l1 * q == dq1 * q + r1 * q) by (nonlinear_arith)
        requires
            r2 * q + l1 == dq1 + r1,
    ;
    assert(q * q == 0x1_0000_0000_0000_0000_0000_0000_0000_0000int);
    assert(q * q * q == 0x1_0000_0000_0000_0000_0000_0000_0000_0000_0000_0000_0000_0000int);
}

/// Scaling a sum of weighted parts scales each part.
proof fn lemma_scale(x: int, d: int, a: int, b: int, c: int, e: int, k3: int, k2: int, k1: int)
    requires
        x == a * k3 + b * k2 + c * k1 + e,
    ensures
        x * d == (d * a) * k3 + (d * b) * k2 + (d * c) * k1 + d * e,
{
    assert(x * d == (a * k3) * d + (b * k2) * d + (c * k1) * d + e * d) by (nonlinear_arith)
        requires
            x == a * k3 + b * k2 + c * k1 + e,
    ;
    assert((a * k3) * d == (d * a) * k3) by (nonlinear_arith);
    assert((b * k2) * d == (d * b) * k2) by (nonlinear_arith);
    assert((c * k1) * d == (d * c) * k1) by (nonlinear_arith);
}

/// One step of long division: `r × 2⁶⁴ + limb` divided by `d`.
fn div_step(r: u128, limb: u128, d: u128) -> (qr: (u128, u128))
    requires
        0 < d <= u64::MAX,
        r < d,
        limb < 0x1_0000_0000_0000_0000,
    ensures
        qr.1 < d,
        qr.0 < 0x1_0000_0000_0000_0000,
        r as int * 0x1_0000_0000_0000_0000int + limb as int == d as int * qr.0 as int + qr.1 as int,
{
    assert(r * 0x1_0000_0000_0000_0000u128 + limb < d * 0x1_0000_0000_0000_0000u128) by (nonlinear_arith)
        requires
            r + 1 <= d,
            d <= u64::MAX,
            limb < 0x1_0000_0000_0000_0000u128,
    ;
    let x = r * 0x1_0000_0000_0000_0000u128 + limb;
    let q = x / d;
    let rem = x % d;
    proof {
        lemma_fundamental_div_mod(x as int, d as int);
    }
    assert(q < 0x1_0000_0000_0000_0000u128) by (nonlinear_arith)
        requires
            x < d * 0x1_0000_0000_0000_0000u128,
            x as int == d as int * q as int + rem as int,
            rem >= 0,
            d > 0,
    ;
    (q, rem)
}

impl Wide {
    /// The quotient and remainder on dividing by a divisor that fits in 64
    /// bits.
    pub fn div_rem_from(&self, r_in: u64, d: u64) -> (qr: (Wide, u64))
        requires
            d > 0,
            r_in < d,
        ensures
            r_in as nat * span() + self@ == qr.0@ * d + qr.1,
            qr.1 < d,
    {
        let q: u128 = 0x1_0000_0000_0000_0000;
        let dd = d as u128;
        let l3 = self.hi / q;
        let l2 = self.hi % q;
        let l1 = self.lo / q;
        let l0 = self.lo % q;
        assert(l3 < q && l1 < q) by {
            assert(self.hi < q * q && self.lo < q * q);
        }
        let (q3, r3) = div_step(r_in as u128, l3, dd);
        let (q2, r2) = div_step(r3, l2, dd);
        let (q1, r1) = div_step(r2, l1, dd);
        let (q0, r0) = div_step(r1, l0, dd);
        assert(q3 * q + q2 <= u128::MAX) by (nonlinear_arith)
            requires
                q3 < q,
                q2 < q,
                q == 0x1_0000_0000_0000_0000u128,
        ;
        assert(q1 * q + q0 <= u128::MAX) by (nonlinear_arith)
            requires
                q1 < q,
                q0 < q,
                q == 0x1_0000_0000_0000_0000u128,
        ;
        let quot = Wide { hi: q3 * q + q2, lo: q1 * q + q0 };
        proof {
            lemma_fundamental_div_mod(self.hi as int, q as int);
            lemma_fundamental_div_mod(self.lo as int, q as int);
            let ghost d2 = dd as int;
            lemma_span();
            lemma_long_division(
                self@ as int, r_in as int, self.hi as int, self.lo as int, l3 as int, l2 as int, l1 as int, l0 as int, d2,
                q3 as int, q2 as int, q1 as int, q0 as int, r3 as int, r2 as int, r1 as int, r0 as int,
            );
            assert(quot@ == (q3 * q + q2) as int * 0x1_0000_0000_0000_0000_0000_0000_0000_0000int + (q1 * q
                + q0) as int);
            assert((q3 as int * 0x1_0000_0000_0000_0000int + q2 as int) * 0x1_0000_0000_0000_0000_0000_0000_0000_0000int
                == q3 * 0x1_0000_0000_0000_0000_0000_0000_0000_0000_0000_0000_0000_0000int + q2
                * 0x1_0000_0000_0000_0000_0000_0000_0000_0000int) by (nonlinear_arith);
            assert(quot@ == q3 * 0x1_0000_0000_0000_0000_0000_0000_0000_0000_0000_0000_0000_0000int + q2
                * 0x1_0000_0000_0000_0000_0000_0000_0000_0000int + q1 * 0x1_0000_0000_0000_0000int + q0);
            lemma_scale(
                quot@ as int, d2, q3 as int, q2 as int, q1 as int, q0 as int,
                0x1_0000_0000_0000_0000_0000_0000_0000_0000_0000_0000_0000_0000int,
                0x1_0000_0000_0000_0000_0000_0000_0000_0000int, 0x1_0000_0000_0000_0000int,
            );
        }
        (quot, r0 as u64)
    }
}


impl Wide {
    /// The sum, and whether it carried past `2²⁵⁶`.
    pub fn overflowing_add(&self, other: &Wide) -> (r: (Wide, bool))
        ensures
            r.0@ + (if r.1 { span() } else { 0 }) == self@ + other@,
    {
        let (lo, carry) = if self.lo <= u128::MAX - other.lo {
            (self.lo + other.lo, 0u128)
        } else {
            (self.lo - (u128::MAX - other.lo) - 1, 1u128)
        };
        let (hi, out) = if self.hi <= u128::MAX - other.hi {
            let s = self.hi + other.hi;
            if s <= u128::MAX - carry {
                (s + carry, false)
            } else {
                (0u128, true)
            }
        } else {
            (self.hi - (u128::MAX - other.hi) - 1 + carry, true)
        };
        let t = Wide { hi, lo };
        let ghost h = half() as int;
        let ghost ho: int = if out { 1 } else { 0 };
        assert(hi as int + ho * h == self.hi as int + other.hi as int + carry as int);
        assert(lo as int + carry as int * h == self.lo as int + other.lo as int);
        assert(t@ + ho * (h * h) == self@ + other@) by (nonlinear_arith)
            requires
                t@ == hi as int * h + lo as int,
                self@ == self.hi as int * h + self.lo as int,
                other@ == other.hi as int * h + other.lo as int,
                hi as int + ho * h == self.hi as int + other.hi as int + carry as int,
                lo as int + carry as int * h == self.lo as int + other.lo as int,
        ;
        (t, out)
    }

    /// The largest 256-bit number.
    fn top() -> (t: Wide)
        ensures
            t@ == span() - 1,
    {
        let t = Wide { hi: u128::MAX, lo: u128::MAX };
        assert(t@ == span() - 1) by (nonlinear_arith)
            requires
                t@ == u128::MAX as int * half() + u128::MAX as int,
                half() == u128::MAX as int + 1,
                span() == half() * half(),
        ;
        t
    }

    /// The difference modulo `2²⁵⁶`, and whether it borrowed.
    pub fn borrowing_sub(&self, other: &Wide) -> (r: (Wide, bool))
        ensures
            r.0@ - (if r.1 { span() } else { 0 }) == self@ - other@,
    {
        if !self.lt(other) {
            (self.try_sub(other).unwrap(), false)
        } else {
            let diff = other.try_sub(self).unwrap();
            proof {
                lemma_halves(*other);
            }
            let top = Wide::top();
            let r = top.try_sub(&diff).unwrap().try_add(&Wide::from_u128(1)).unwrap();
            (r, true)
        }
    }

    /// The full product with `m`: `high × 2²⁵⁶ + low`.
    pub fn mul_small_wide(&self, m: u128) -> (r: (Wide, u128))
        ensures
            r.0@ + r.1 as nat * span() == self@ * m,
    {
        let (c1, r0) = mul_wide(self.lo, m);
        let (c2, r1) = mul_wide(self.hi, m);
        let ghost h = half() as int;
        let (mid, carry) = if r1 <= u128::MAX - c1 {
            (r1 + c1, 0u128)
        } else {
            (r1 - (u128::MAX - c1) - 1, 1u128)
        };
        assert(c2 as int <= h - 2) by (nonlinear_arith)
            requires
                c2 as int * h + r1 as int == self.hi as int * m as int,
                0 <= self.hi < h,
                0 <= m < h,
                r1 >= 0,
                h == u128::MAX as int + 1,
        ;
        let t = Wide { hi: mid, lo: r0 };
        assert(t@ + (c2 + carry) as int * (h * h) == self@ * m) by (nonlinear_arith)
            requires
                t@ == mid as int * h + r0 as int,
                self@ == self.hi as int * h + self.lo as int,
                c1 as int * h + r0 as int == self.lo as int * m as int,
                c2 as int * h + r1 as int == self.hi as int * m as int,
                mid as int + carry as int * h == r1 as int + c1 as int,
        ;
        (t, c2 + carry)
    }
}

// ---------------------------------------------------------------------------
// counts
// ---------------------------------------------------------------------------

/// A high part of at least `s` makes a number of at least `s²`.
proof fn lemma_at_least_square(x: int, s: int, y: int)
    by (nonlinear_arith)
    requires
        x >= s,
        s > 0,
        y >= 0,
    ensures
        x * s + y >= s * s,
{
}

/// `2⁵¹²`: the first count that does not fit.
pub open spec fn limit() -> nat {
    span() * span()
}

/// `2²⁵⁶` and `2⁵¹²`, as numbers.
pub proof fn lemma_limit()
    ensures
        span() == 0x1_0000_0000_0000_0000_0000_0000_0000_0000_0000_0000_0000_0000_0000_0000_0000_0000nat,
        limit() == 0x1_0000_0000_0000_0000_0000_0000_0000_0000_0000_0000_0000_0000_0000_0000_0000_0000_0000_0000_0000_0000_0000_0000_0000_0000_0000_0000_0000_0000_0000_0000_0000_0000nat,
{
    lemma_span();
    assert(0x1_0000_0000_0000_0000_0000_0000_0000_0000_0000_0000_0000_0000_0000_0000_0000_0000nat * 0x1_0000_0000_0000_0000_0000_0000_0000_0000_0000_0000_0000_0000_0000_0000_0000_0000nat == 0x1_0000_0000_0000_0000_0000_0000_0000_0000_0000_0000_0000_0000_0000_0000_0000_0000_0000_0000_0000_0000_0000_0000_0000_0000_0000_0000_0000_0000_0000_0000_0000_0000nat) by (nonlinear_arith);
}

/// A count of Planck ticks: a natural number below `2⁵¹²`.
#[derive(Clone, Copy, PartialEq, Eq, Structural, Debug)]
pub struct Ticks {
    hi: Wide,
    lo: Wide,
}

impl View for Ticks {
    type V = nat;

    /// The count.
    closed spec fn view(&self) -> nat {
        self.hi@ * span() + self.lo@
    }
}

proof fn lemma_count_halves(t: Ticks)
    ensures
        t@ < limit(),
        t.hi@ < span(),
        t.lo@ < span(),
{
    lemma_halves(t.hi);
    lemma_halves(t.lo);
    let s = span() as int;
    assert(t.hi@ as int * s + (t.lo@ as int) < s * s) by (nonlinear_arith)
        requires
            0 <= t.hi@ < s,
            0 <= t.lo@ < s,
    ;
}

/// Every count is below `2⁵¹²`.
pub proof fn lemma_count_bounded(t: Ticks)
    ensures
        t@ < limit(),
{
    lemma_count_halves(t);
}

/// Two counts are equal exactly when their values are.
pub proof fn lemma_count_equal_by_value(a: Ticks, b: Ticks)
    ensures
        a == b <==> a@ == b@,
{
    if a@ == b@ {
        lemma_count_halves(a);
        lemma_count_halves(b);
        let s = span() as int;
        assert(a.hi@ == b.hi@ && a.lo@ == b.lo@) by (nonlinear_arith)
            requires
                a.hi@ as int * s + a.lo@ as int == b.hi@ as int * s + b.lo@ as int,
                0 <= a.lo@ < s,
                0 <= b.lo@ < s,
                a.hi@ >= 0,
                b.hi@ >= 0,
        ;
        lemma_unique(a.hi, b.hi);
        lemma_unique(a.lo, b.lo);
    }
}

impl Ticks {
    /// No ticks.
    pub fn zero() -> (t: Ticks)
        ensures
            t@ == 0,
    {
        Ticks::from_u128(0)
    }

    /// A count that fits in 128 bits.
    pub fn from_u128(n: u128) -> (t: Ticks)
        ensures
            t@ == n,
    {
        let t = Ticks { hi: Wide::zero(), lo: Wide::from_u128(n) };
        assert(t.hi@ * span() == 0) by (nonlinear_arith)
            requires
                t.hi@ == 0,
        ;
        t
    }

    /// The largest count: `2⁵¹² − 1`.
    pub fn largest() -> (t: Ticks)
        ensures
            t@ == limit() - 1,
    {
        let t = Ticks { hi: Wide::top(), lo: Wide::top() };
        assert(t@ == limit() - 1) by (nonlinear_arith)
            requires
                t@ == (span() - 1) * span() + (span() - 1),
                limit() == span() * span(),
        ;
        t
    }

    /// Whether this count is zero.
    pub fn is_zero(&self) -> (b: bool)
        ensures
            b == (self@ == 0),
    {
        proof {
            lemma_span();
            assert(self.hi@ > 0 ==> self@ > 0) by (nonlinear_arith)
                requires
                    self@ == self.hi@ * span() + self.lo@,
                    span() > 0,
            ;
            assert(self.hi@ == 0 ==> self@ == self.lo@) by (nonlinear_arith)
                requires
                    self@ == self.hi@ * span() + self.lo@,
            ;
        }
        self.hi.is_zero() && self.lo.is_zero()
    }

    /// Whether this count is smaller than `other`.
    pub fn lt(&self, other: &Ticks) -> (b: bool)
        ensures
            b == (self@ < other@),
    {
        proof {
            lemma_count_halves(*self);
            lemma_count_halves(*other);
            let s = span() as int;
            assert(self.hi@ < other.hi@ ==> self@ < other@) by (nonlinear_arith)
                requires
                    self.hi@ + 1 <= other.hi@ || self.hi@ >= other.hi@,
                    self@ == self.hi@ as int * s + self.lo@ as int,
                    other@ == other.hi@ as int * s + other.lo@ as int,
                    0 <= self.lo@ < s,
            ;
            assert(self.hi@ > other.hi@ ==> self@ > other@) by (nonlinear_arith)
                requires
                    other.hi@ + 1 <= self.hi@ || other.hi@ >= self.hi@,
                    self@ == self.hi@ as int * s + self.lo@ as int,
                    other@ == other.hi@ as int * s + other.lo@ as int,
                    0 <= other.lo@ < s,
            ;
            lemma_equal_by_value(self.hi, other.hi);
        }
        self.hi.lt(&other.hi) || (self.hi == other.hi && self.lo.lt(&other.lo))
    }

    /// The sum, when it fits.
    pub fn try_add(&self, other: &Ticks) -> (r: Option<Ticks>)
        ensures
            r is Some <==> self@ + other@ < limit(),
            r matches Some(t) ==> t@ == self@ + other@,
    {
        let (lo, carry) = self.lo.overflowing_add(&other.lo);
        let ghost s = span() as int;
        let ghost c: int = if carry { 1 } else { 0 };
        assert(lo@ + c * s == self.lo@ + other.lo@);
        assert(self@ + other@ == (self.hi@ + other.hi@ + c) * s + lo@) by (nonlinear_arith)
            requires
                self@ == self.hi@ as int * s + self.lo@ as int,
                other@ == other.hi@ as int * s + other.lo@ as int,
                lo@ + c * s == self.lo@ + other.lo@,
        ;
        proof {
            lemma_halves(lo);
            assert(limit() == s * s);
        }
        let h1 = match self.hi.try_add(&other.hi) {
            Some(h) => h,
            None => {
                proof {
                    lemma_span();
                    lemma_at_least_square(self.hi@ + other.hi@ + c, s, lo@ as int);
                }
                return None;
            },
        };
        let h2 = if carry {
            match h1.try_add(&Wide::from_u128(1)) {
                Some(h) => h,
                None => {
                    proof {
                        lemma_span();
                        lemma_at_least_square(h1@ + 1int, s, lo@ as int);
                    }
                    return None;
                },
            }
        } else {
            h1
        };
        let t = Ticks { hi: h2, lo };
        proof {
            lemma_count_halves(t);
        }
        Some(t)
    }

    /// The difference, when `other` is no larger.
    pub fn try_sub(&self, other: &Ticks) -> (r: Option<Ticks>)
        ensures
            r is Some <==> other@ <= self@,
            r matches Some(t) ==> t@ == self@ - other@,
    {
        if self.lt(other) {
            return None;
        }
        let (lo, borrow) = self.lo.borrowing_sub(&other.lo);
        let ghost s = span() as int;
        let ghost b: int = if borrow { 1 } else { 0 };
        proof {
            lemma_count_halves(*self);
            lemma_count_halves(*other);
            lemma_halves(lo);
        }
        assert(lo@ - b * s == self.lo@ - other.lo@);
        assert(self.hi@ - other.hi@ - b >= 0) by (nonlinear_arith)
            requires
                self.hi@ as int * s + self.lo@ as int >= other.hi@ as int * s + other.lo@ as int,
                lo@ - b * s == self.lo@ - other.lo@,
                0 <= lo@ < s,
        ;
        let h1 = self.hi.try_sub(&other.hi).unwrap();
        let h2 = if borrow { h1.try_sub(&Wide::from_u128(1)).unwrap() } else { h1 };
        let t = Ticks { hi: h2, lo };
        assert(t@ == self@ - other@) by (nonlinear_arith)
            requires
                t@ == h2@ as int * s + lo@ as int,
                h2@ == self.hi@ - other.hi@ - b,
                lo@ - b * s == self.lo@ - other.lo@,
                self@ == self.hi@ as int * s + self.lo@ as int,
                other@ == other.hi@ as int * s + other.lo@ as int,
        ;
        Some(t)
    }

    /// The product with `m`, when it fits.
    pub fn try_mul(&self, m: u128) -> (r: Option<Ticks>)
        ensures
            r is Some <==> self@ * m < limit(),
            r matches Some(t) ==> t@ == self@ * m,
    {
        let (low, high) = self.lo.mul_small_wide(m);
        let ghost s = span() as int;
        assert(self@ * m == (self.hi@ * m + high) * s + low@) by (nonlinear_arith)
            requires
                self@ == self.hi@ as int * s + self.lo@ as int,
                low@ + high as int * s == self.lo@ * m,
        ;
        proof {
            lemma_halves(low);
            assert(limit() == s * s);
        }
        let hm = match self.hi.try_mul(m) {
            Some(h) => h,
            None => {
                proof {
                    lemma_span();
                    lemma_at_least_square(self.hi@ * m + high, s, low@ as int);
                }
                return None;
            },
        };
        let hi = match hm.try_add(&Wide::from_u128(high)) {
            Some(h) => h,
            None => {
                proof {
                    lemma_span();
                    lemma_at_least_square(hm@ + high as int, s, low@ as int);
                }
                return None;
            },
        };
        let t = Ticks { hi, lo: low };
        proof {
            lemma_count_halves(t);
        }
        Some(t)
    }

    /// The quotient and remainder on dividing by a divisor that fits in 64
    /// bits.
    pub fn div_rem_small(&self, d: u64) -> (qr: (Ticks, u64))
        requires
            d > 0,
        ensures
            self@ == qr.0@ * d + qr.1,
            qr.1 < d,
    {
        let (qh, rh) = self.hi.div_rem_from(0, d);
        let (ql, rl) = self.lo.div_rem_from(rh, d);
        let q = Ticks { hi: qh, lo: ql };
        let ghost s = span() as int;
        assert(self@ == q@ * d + rl) by (nonlinear_arith)
            requires
                self@ == self.hi@ as int * s + self.lo@ as int,
                q@ == qh@ as int * s + ql@ as int,
                self.hi@ as int == qh@ as int * d as int + rh as int,
                rh as int * s + self.lo@ as int == ql@ as int * d as int + rl as int,
        ;
        (q, rl)
    }

    /// The count in decimal, without leading zeros.
    pub fn to_decimal(&self) -> (s: String)
        ensures
            s@ == decimal(self@),
    {
        let mut s = String::new();
        self.push_decimal(&mut s);
        s
    }

    /// Append the count in decimal.
    pub fn push_decimal(&self, s: &mut String)
        ensures
            final(s)@ == old(s)@ + decimal(self@),
        decreases self@,
    {
        let (q, r) = self.div_rem_small(10);
        if !q.is_zero() {
            assert(q@ < self@) by (nonlinear_arith)
                requires
                    self@ == q@ * 10 + r,
                    q@ > 0,
            ;
            q.push_decimal(s);
        }
        push_char(s, ((r as u8) + 48) as char);
        proof {
            assert(self@ / 10 == q@ && self@ % 10 == r) by (nonlinear_arith)
                requires
                    self@ == q@ * 10 + r,
                    r < 10,
            ;
            if q@ > 0 {
                assert(self@ >= 10);
                assert(old(s)@ + decimal(self@) =~= old(s)@ + decimal(q@) + seq![digit_of(r as nat)]);
            } else {
                assert(self@ < 10);
                assert(old(s)@ + decimal(self@) =~= old(s)@.push(digit_of(r as nat)));
            }
        }
    }
}


impl Wide {
    /// The number, when it fits in 128 bits.
    pub fn to_u128(&self) -> (r: Option<u128>)
        ensures
            r matches Some(n) ==> n == self@,
            r is None ==> self@ > u128::MAX,
    {
        if self.hi == 0 {
            assert(self@ == self.lo) by (nonlinear_arith)
                requires
                    self@ == self.hi as nat * half() + self.lo as nat,
                    self.hi == 0,
            ;
            Some(self.lo)
        } else {
            assert(self@ >= half()) by (nonlinear_arith)
                requires
                    self@ == self.hi as nat * half() + self.lo as nat,
                    self.hi >= 1,
            ;
            None
        }
    }
}

impl Ticks {
    /// The count, when it fits in 128 bits.
    pub fn to_u128(&self) -> (r: Option<u128>)
        ensures
            r matches Some(n) ==> n == self@,
            r is None ==> self@ > u128::MAX,
    {
        proof {
            lemma_span();
            assert(self.hi@ == 0 ==> self@ == self.lo@) by (nonlinear_arith)
                requires
                    self@ == self.hi@ * span() + self.lo@,
            ;
            assert(self.hi@ >= 1 ==> self@ >= span()) by (nonlinear_arith)
                requires
                    self@ == self.hi@ * span() + self.lo@,
            ;
        }
        if self.hi.is_zero() {
            self.lo.to_u128()
        } else {
            None
        }
    }
}

} // verus!
