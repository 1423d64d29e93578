//! Percentages as exact fractions.
//!
//! Every rate that the monitor derives is a quotient of two differences of counters. It
//! is kept as that quotient, numerator over denominator, so that no rounding enters and
//! each formula can be stated as it is written. A denominator of zero marks a value that
//! is not defined as a number.

use vstd::prelude::*;

verus! {

/// The fraction `numer / denom`, read as a number of percent.
#[derive(Clone, Copy, Debug, PartialEq, Eq, Structural)]
pub struct Percent {
    pub numer: i128,
    pub denom: i128,
}

/// Two to the power 64.
pub open spec fn base() -> int {
    0x1_0000_0000_0000_0000
}

/// The absolute value of `x`.
pub open spec fn abs(x: int) -> int {
    if x < 0 {
        -x
    } else {
        x
    }
}

impl Percent {
    /// Whether the fraction is a number: its denominator is not zero.
    pub open spec fn is_defined(self) -> bool {
        self.denom != 0
    }

    /// The numerator of the same fraction written over `abs(self.denom)`.
    pub open spec fn signed_numer(self) -> int {
        if self.denom < 0 {
            -self.numer
        } else {
            self.numer as int
        }
    }

    /// Whether the fraction is at least `other`. Fractions that are numbers are compared
    /// as numbers. One that is no number is below every number and equal to every other
    /// that is no number.
    pub open spec fn ge(self, other: Percent) -> bool {
        if other.denom == 0 {
            true
        } else if self.denom == 0 {
            false
        } else {
            self.signed_numer() * abs(other.denom as int) >= other.signed_numer() * abs(
                self.denom as int,
            )
        }
    }

    /// Whether the fraction is a number between 0 and 100, both included.
    pub open spec fn in_range(self) -> bool {
        &&& self.denom != 0
        &&& 0 <= self.signed_numer() <= 100 * abs(self.denom as int)
    }

    /// Whether the fraction is a number below zero.
    pub open spec fn is_negative(self) -> bool {
        self.denom != 0 && self.signed_numer() < 0
    }

    /// The fraction `numer / denom`.
    pub fn new(numer: i128, denom: i128) -> (p: Percent)
        ensures
            p.numer == numer,
            p.denom == denom,
    {
        Percent { numer, denom }
    }

    /// Zero percent, written as 0 / 1.
    pub fn zero() -> (p: Percent)
        ensures
            p.numer == 0,
            p.denom == 1,
    {
        Percent { numer: 0, denom: 1 }
    }

    /// Whether the fraction is a number.
    pub fn defined(&self) -> (b: bool)
        ensures
            b == self.is_defined(),
    {
        self.denom != 0
    }

    /// Whether the fraction is at least `other`, in the order of `ge`.
    pub fn at_least(&self, other: &Percent) -> (b: bool)
        ensures
            b == self.ge(*other),
    {
        if other.denom == 0 {
            return true;
        }
        if self.denom == 0 {
            return false;
        }
        let left_negative = (self.numer < 0) != (self.denom < 0) && self.numer != 0;
        let right_negative = (other.numer < 0) != (other.denom < 0) && other.numer != 0;
        let left = mul_wide(magnitude(self.numer), magnitude(other.denom));
        let right = mul_wide(magnitude(other.numer), magnitude(self.denom));
        proof {
            lemma_signed_product(self.numer as int, self.denom as int, other.denom as int);
            lemma_signed_product(other.numer as int, other.denom as int, self.denom as int);
        }
        if left_negative {
            right_negative && wide_le(left, right)
        } else {
            right_negative || wide_le(right, left)
        }
    }
}

/// Of two fractions, one is at least the other.
pub proof fn lemma_ge_total(a: Percent, b: Percent)
    ensures
        a.ge(b) || b.ge(a),
{
}

/// A fraction that is at least a second one, which is at least a third, is at least the
/// third.
pub proof fn lemma_ge_transitive(a: Percent, b: Percent, c: Percent)
    requires
        a.ge(b),
        b.ge(c),
    ensures
        a.ge(c),
{
    if c.denom != 0 {
        let (na, nb, nc) = (a.signed_numer(), b.signed_numer(), c.signed_numer());
        let (da, db, dc) = (abs(a.denom as int), abs(b.denom as int), abs(c.denom as int));
        assert(na * dc >= nc * da) by (nonlinear_arith)
            requires
                na * db >= nb * da,
                nb * dc >= nc * db,
                da > 0,
                db > 0,
                dc > 0,
        {
            assert((na * db) * dc >= (nb * da) * dc);
            assert((nb * dc) * da >= (nc * db) * da);
            assert((na * db) * dc == (na * dc) * db);
            assert((nb * da) * dc == (nb * dc) * da);
            assert((nc * db) * da == (nc * da) * db);
            assert((na * dc) * db >= (nc * da) * db);
        }
    }
}

/// The product of a signed numerator with a positive denominator is the product of the
/// absolute values, with the sign of the numerator.
proof fn lemma_signed_product(numer: int, denom: int, other: int)
    requires
        denom != 0,
        other != 0,
    ensures
        ({
            let signed = if denom < 0 {
                -numer
            } else {
                numer
            };
            let negative = ((numer < 0) != (denom < 0)) && numer != 0;
            &&& negative ==> signed * abs(other) == -(abs(numer) * abs(other)) && abs(numer) * abs(
                other,
            ) > 0
            &&& !negative ==> signed * abs(other) == abs(numer) * abs(other) && abs(numer) * abs(
                other,
            ) >= 0
        }),
{
    let a = abs(numer);
    let o = abs(other);
    assert((-a) * o == -(a * o)) by (nonlinear_arith);
    assert(a * o >= 0) by (nonlinear_arith)
        requires
            a >= 0,
            o >= 0,
    ;
    assert(a > 0 ==> a * o > 0) by (nonlinear_arith)
        requires
            a >= 0,
            o > 0,
    ;
}

/// The absolute value of `x`.
pub fn magnitude(x: i128) -> (m: u128)
    ensures
        m == abs(x as int),
{
    if x >= 0 {
        x as u128
    } else if x == i128::MIN {
        0x8000_0000_0000_0000_0000_0000_0000_0000u128
    } else {
        (-x) as u128
    }
}

/// Two to the power 128.
pub open spec fn wide_base() -> int {
    u128::MAX + 1
}

/// The number that the two halves `(high, low)` write in base two to the power 128.
pub open spec fn wide_value(w: (u128, u128)) -> int {
    w.0 * wide_base() + w.1
}

/// Whether the number of `a` is at most that of `b`.
pub fn wide_le(a: (u128, u128), b: (u128, u128)) -> (r: bool)
    ensures
        r == (wide_value(a) <= wide_value(b)),
{
    proof {
        let k = wide_base();
        let (x, y) = (a.0 as int, b.0 as int);
        assert(x < y ==> x * k + k <= y * k) by (nonlinear_arith)
            requires
                k > 0,
        ;
        assert(y < x ==> y * k + k <= x * k) by (nonlinear_arith)
            requires
                k > 0,
        ;
    }
    a.0 < b.0 || (a.0 == b.0 && a.1 <= b.1)
}

/// The product of `a` and `b` in full, as two halves of 128 bits.
pub fn mul_wide(a: u128, b: u128) -> (w: (u128, u128))
    ensures
        wide_value(w) == a * b,
{
    let b64: u128 = 0x1_0000_0000_0000_0000u128;
    let a_low: u128 = a % b64;
    let a_high: u128 = a / b64;
    let b_low: u128 = b % b64;
    let b_high: u128 = b / b64;
    proof {
        lemma_half_product(a_low as int, b_low as int);
        lemma_half_product(a_low as int, b_high as int);
        lemma_half_product(a_high as int, b_low as int);
        lemma_half_product(a_high as int, b_high as int);
    }
    let low_low: u128 = a_low * b_low;
    let low_high: u128 = a_low * b_high;
    let high_low: u128 = a_high * b_low;
    let high_high: u128 = a_high * b_high;
    let middle: u128 = low_low / b64 + low_high % b64 + high_low % b64;
    let low: u128 = low_low % b64 + (middle % b64) * b64;
    let high: u128 = high_high + low_high / b64 + high_low / b64 + middle / b64;
    proof {
        lemma_split_product(a_high as int, a_low as int, b_high as int, b_low as int, base());
        assert(base() * base() == wide_base());
    }
    (high, low)
}

/// Two numbers below two to the power 64 have a product of at most the square of the
/// largest of them.
proof fn lemma_half_product(x: int, y: int)
    requires
        0 <= x < base(),
        0 <= y < base(),
    ensures
        0 <= x * y <= 0xFFFF_FFFF_FFFF_FFFE_0000_0000_0000_0001,
{
    let m = base() - 1;
    assert(0 <= x * y <= m * m) by (nonlinear_arith)
        requires
            0 <= x <= m,
            0 <= y <= m,
    ;
    assert(m * m == 0xFFFF_FFFF_FFFF_FFFE_0000_0000_0000_0001) by (nonlinear_arith)
        requires
            m == 0xFFFF_FFFF_FFFF_FFFF,
    ;
}

/// A product of two numbers, each written in two halves to the base `k`, in terms of the
/// four products of the halves.
proof fn lemma_split_product(ah: int, al: int, bh: int, bl: int, k: int)
    ensures
        (ah * k + al) * (bh * k + bl) == (ah * bh) * (k * k) + (al * bh + ah * bl) * k + al * bl,
{
    let x = ah * k;
    let y = bh * k;
    assert((x + al) * (y + bl) == x * y + x * bl + al * y + al * bl) by (nonlinear_arith);
    assert(x * y == (ah * bh) * (k * k)) by (nonlinear_arith)
        requires
            x == ah * k,
            y == bh * k,
    ;
    assert(x * bl == (ah * bl) * k) by (nonlinear_arith)
        requires
            x == ah * k,
    ;
    assert(al * y == (al * bh) * k) by (nonlinear_arith)
        requires
            y == bh * k,
    ;
    assert((al * bh + ah * bl) * k == (al * bh) * k + (ah * bl) * k) by (nonlinear_arith);
}

} // verus!
