//! Binary64 numbers as bit patterns.
//!
//! A `scalar` is the 64 bits of an IEEE 754 double: one sign bit, eleven
//! exponent bits, fifty-two fraction bits. Every number that such a pattern
//! denotes is a whole multiple of 2^-1074, the smallest positive double, so
//! the model of a scalar is an `int`: its value counted in that unit. The
//! two infinities fit the same formula, one binade above the largest finite
//! number. Patterns that denote no number (NaN) are told apart by `nan`.
//!
//! What is decided here — order, sign, clamping, conversion to integers — is
//! decided on the bits with integer arithmetic alone, and proved against the
//! model.
#![allow(non_camel_case_types)]

use vstd::prelude::*;
use vstd::arithmetic::div_mod::{lemma_basic_div, lemma_div_multiples_vanish_quotient};
use vstd::arithmetic::power2::{
    lemma2_to64, lemma2_to64_rest, lemma_pow2_adds, lemma_pow2_pos,
    lemma_pow2_strictly_increases, lemma_pow2_unfold, pow2,
};
use vstd::bits::{lemma_u64_pow2_no_overflow, lemma_u64_shl_is_mul, lemma_u64_shr_is_div};

verus! {

/// The sign bit of a pattern.
pub const SIGN_BIT: u64 = 0x8000_0000_0000_0000;

/// Two to the fifty-second: the weight of the bit that normal numbers leave
/// unwritten in front of their fraction.
pub const HIDDEN_BIT: u64 = 0x0010_0000_0000_0000;

/// The exponent field of infinities and NaNs.
pub const EXPONENT_SPECIAL: u64 = 0x7ff;

/// A binary64 number, held as its bit pattern. Two scalars are `==` when
/// their patterns are the same; the order of the numbers is `lt` and `le`.
#[derive(Clone, Copy, Debug, PartialEq, Eq, Structural)]
pub struct scalar {
    pub bits: u64,
}

/// The number, in units of 2^-1074, that exponent field `e` and fraction
/// field `f` denote when the sign is positive.
pub open spec fn magnitude_of(e: nat, f: nat) -> nat {
    if e == 0 {
        f
    } else {
        (HIDDEN_BIT as nat + f) * pow2((e - 1) as nat)
    }
}

impl scalar {
    /// Whether the sign bit is set.
    pub open spec fn negative(self) -> bool {
        self.bits >= SIGN_BIT
    }

    /// The exponent field, `0..=2047`.
    pub open spec fn exponent(self) -> nat {
        ((self.bits / HIDDEN_BIT) % 0x800) as nat
    }

    /// The fraction field, below 2^52.
    pub open spec fn fraction(self) -> nat {
        (self.bits % HIDDEN_BIT) as nat
    }

    /// Whether the pattern denotes no number.
    pub open spec fn nan(self) -> bool {
        self.exponent() == EXPONENT_SPECIAL && self.fraction() != 0
    }

    /// Whether the pattern denotes a finite number.
    pub open spec fn finite(self) -> bool {
        self.exponent() != EXPONENT_SPECIAL
    }

    /// The absolute value in units of 2^-1074.
    pub open spec fn magnitude(self) -> nat {
        magnitude_of(self.exponent(), self.fraction())
    }

    /// The value in units of 2^-1074. Both zeros have value 0.
    pub open spec fn value(self) -> int {
        if self.negative() {
            -(self.magnitude() as int)
        } else {
            self.magnitude() as int
        }
    }

    /// `self < other` as IEEE 754 orders numbers: false when either is NaN.
    pub open spec fn less(self, other: scalar) -> bool {
        !self.nan() && !other.nan() && self.value() < other.value()
    }

    /// `self <= other` as IEEE 754 orders numbers: false when either is NaN.
    pub open spec fn less_eq(self, other: scalar) -> bool {
        !self.nan() && !other.nan() && self.value() <= other.value()
    }

    /// The pattern with the sign bit flipped.
    pub open spec fn negation(self) -> scalar {
        if self.bits >= SIGN_BIT {
            scalar { bits: (self.bits - SIGN_BIT) as u64 }
        } else {
            scalar { bits: (self.bits + SIGN_BIT) as u64 }
        }
    }

    /// The pattern with the sign bit cleared.
    pub open spec fn absolute(self) -> scalar {
        if self.bits >= SIGN_BIT {
            scalar { bits: (self.bits - SIGN_BIT) as u64 }
        } else {
            self
        }
    }

    /// The fields below the sign, read as one integer. It grows with the
    /// magnitude: see `lemma_magnitude_order`.
    pub open spec fn magnitude_bits(self) -> nat {
        (self.bits % SIGN_BIT) as nat
    }
}

/// The magnitude grows strictly with the pair (exponent, fraction).
pub proof fn lemma_magnitude_of_increases(e1: nat, f1: nat, e2: nat, f2: nat)
    requires
        f1 < HIDDEN_BIT,
        f2 < HIDDEN_BIT,
        e1 * HIDDEN_BIT + f1 < e2 * HIDDEN_BIT + f2,
    ensures
        magnitude_of(e1, f1) < magnitude_of(e2, f2),
{
    let h = HIDDEN_BIT as nat;
    if e1 == e2 {
        if e1 != 0 {
            let p = pow2((e1 - 1) as nat);
            lemma_pow2_pos((e1 - 1) as nat);
            assert((h + f1) * p < (h + f2) * p) by (nonlinear_arith)
                requires
                    f1 < f2,
                    p > 0,
            ;
        }
    } else {
        assert(e1 < e2) by (nonlinear_arith)
            requires
                e1 != e2,
                f1 < h,
                f2 < h,
                e1 * h + f1 < e2 * h + f2,
        ;
        let upper = pow2((e2 - 1) as nat);
        lemma_pow2_pos((e2 - 1) as nat);
        assert(h * upper <= (h + f2) * upper) by (nonlinear_arith)
            requires
                upper > 0,
        ;
        if e1 == 0 {
            assert(h * 1 <= h * upper) by (nonlinear_arith)
                requires
                    upper >= 1,
            ;
        } else {
            let lower = pow2((e1 - 1) as nat);
            lemma_pow2_pos((e1 - 1) as nat);
            lemma_pow2_unfold(e1);
            if e1 < e2 - 1 {
                lemma_pow2_strictly_increases(e1, (e2 - 1) as nat);
            }
            assert((h + f1) * lower < h * (2 * lower)) by (nonlinear_arith)
                requires
                    f1 < h,
                    lower > 0,
            ;
            assert(h * (2 * lower) <= h * upper) by (nonlinear_arith)
                requires
                    2 * lower <= upper,
            ;
        }
    }
}

/// The fields below the sign order two scalars as their magnitudes do.
pub proof fn lemma_magnitude_order(a: scalar, b: scalar)
    ensures
        a.magnitude_bits() < b.magnitude_bits() <==> a.magnitude() < b.magnitude(),
        a.magnitude_bits() == b.magnitude_bits() <==> a.magnitude() == b.magnitude(),
{
    let h = HIDDEN_BIT as nat;
    assert(a.magnitude_bits() == a.exponent() * h + a.fraction());
    assert(b.magnitude_bits() == b.exponent() * h + b.fraction());
    if a.magnitude_bits() < b.magnitude_bits() {
        lemma_magnitude_of_increases(a.exponent(), a.fraction(), b.exponent(), b.fraction());
    } else if b.magnitude_bits() < a.magnitude_bits() {
        lemma_magnitude_of_increases(b.exponent(), b.fraction(), a.exponent(), a.fraction());
    } else {
        assert(a.exponent() == b.exponent() && a.fraction() == b.fraction()) by (nonlinear_arith)
            requires
                a.exponent() * h + a.fraction() == b.exponent() * h + b.fraction(),
                a.fraction() < h,
                b.fraction() < h,
        ;
    }
}

/// Only the two zeros have magnitude 0.
pub proof fn lemma_magnitude_zero(a: scalar)
    ensures
        a.magnitude() == 0 <==> a.magnitude_bits() == 0,
{
    lemma_magnitude_order(a, scalar { bits: 0 });
    assert(scalar { bits: 0 }.magnitude() == 0);
}

impl scalar {
    /// The scalar with the given bit pattern.
    pub fn from_bits(bits: u64) -> (s: scalar)
        ensures
            s.bits == bits,
    {
        scalar { bits }
    }

    /// The bit pattern.
    pub fn to_bits(self) -> (bits: u64)
        ensures
            bits == self.bits,
    {
        self.bits
    }

    /// Positive zero.
    pub fn zero() -> (s: scalar)
        ensures
            s.bits == 0,
            !s.nan(),
            s.value() == 0,
    {
        scalar { bits: 0 }
    }

    /// The number one.
    pub fn one() -> (s: scalar)
        ensures
            s.bits == 0x3ff0_0000_0000_0000,
            !s.nan(),
            s.value() == pow2(1074),
    {
        proof {
            lemma_one_value();
        }
        scalar { bits: 0x3ff0_0000_0000_0000 }
    }

    /// Positive infinity: above every finite number.
    pub fn infinity() -> (s: scalar)
        ensures
            s.bits == 0x7ff0_0000_0000_0000,
            !s.nan(),
            !s.negative(),
            !s.finite(),
    {
        scalar { bits: 0x7ff0_0000_0000_0000 }
    }

    /// Negative infinity: below every finite number.
    pub fn neg_infinity() -> (s: scalar)
        ensures
            s.bits == 0xfff0_0000_0000_0000,
            !s.nan(),
            s.negative(),
            !s.finite(),
    {
        scalar { bits: 0xfff0_0000_0000_0000 }
    }

    /// Whether the pattern denotes no number.
    pub fn is_nan(self) -> (b: bool)
        ensures
            b == self.nan(),
    {
        let below_sign: u64 = self.bits % SIGN_BIT;
        below_sign > 0x7ff0_0000_0000_0000
    }

    /// Whether the sign bit is set.
    pub fn is_negative(self) -> (b: bool)
        ensures
            b == self.negative(),
    {
        self.bits >= SIGN_BIT
    }

    /// `self < other`; false when either is NaN.
    pub fn lt(self, other: scalar) -> (b: bool)
        ensures
            b == self.less(other),
    {
        if self.is_nan() || other.is_nan() {
            return false;
        }
        let a: u64 = self.bits % SIGN_BIT;
        let c: u64 = other.bits % SIGN_BIT;
        proof {
            lemma_magnitude_order(self, other);
            lemma_magnitude_zero(self);
            lemma_magnitude_zero(other);
        }
        if self.bits >= SIGN_BIT {
            if other.bits >= SIGN_BIT {
                c < a
            } else {
                a != 0 || c != 0
            }
        } else {
            if other.bits >= SIGN_BIT {
                false
            } else {
                a < c
            }
        }
    }

    /// `self <= other`; false when either is NaN.
    pub fn le(self, other: scalar) -> (b: bool)
        ensures
            b == self.less_eq(other),
    {
        if self.is_nan() || other.is_nan() {
            return false;
        }
        !other.lt(self)
    }

    /// `self > other`; false when either is NaN.
    pub fn gt(self, other: scalar) -> (b: bool)
        ensures
            b == other.less(self),
    {
        other.lt(self)
    }

    /// `self >= other`; false when either is NaN.
    pub fn ge(self, other: scalar) -> (b: bool)
        ensures
            b == other.less_eq(self),
    {
        other.le(self)
    }

    /// The number with the opposite sign. A NaN stays a NaN.
    pub fn neg(self) -> (r: scalar)
        ensures
            r == self.negation(),
            r.nan() == self.nan(),
            r.value() == -self.value(),
    {
        proof {
            lemma_negation(self);
        }
        if self.bits >= SIGN_BIT {
            scalar { bits: self.bits - SIGN_BIT }
        } else {
            scalar { bits: self.bits + SIGN_BIT }
        }
    }

    /// The absolute value. A NaN stays a NaN.
    pub fn abs(self) -> (r: scalar)
        ensures
            r == self.absolute(),
            r.nan() == self.nan(),
            r.value() == self.magnitude(),
    {
        proof {
            lemma_absolute(self);
        }
        if self.bits >= SIGN_BIT {
            scalar { bits: self.bits - SIGN_BIT }
        } else {
            self
        }
    }
}

/// The pattern `0x3ff0_0000_0000_0000` is the number one: 2^1074 units.
pub proof fn lemma_one_value()
    ensures
        !(scalar { bits: 0x3ff0_0000_0000_0000 }).nan(),
        (scalar { bits: 0x3ff0_0000_0000_0000 }).value() == pow2(1074),
{
    let s = scalar { bits: 0x3ff0_0000_0000_0000 };
    assert(s.exponent() == 1023);
    assert(s.fraction() == 0);
    lemma_pow2_adds(52, 1022);
    lemma2_to64_rest();
}

/// Flipping the sign keeps the fields below it and negates the value.
pub proof fn lemma_negation(a: scalar)
    ensures
        a.negation().exponent() == a.exponent(),
        a.negation().fraction() == a.fraction(),
        a.negation().negative() == !a.negative(),
        a.negation().nan() == a.nan(),
        a.negation().value() == -a.value(),
        a.negation().negation() == a,
{
}

/// Clearing the sign keeps the fields below it.
pub proof fn lemma_absolute(a: scalar)
    ensures
        a.absolute().exponent() == a.exponent(),
        a.absolute().fraction() == a.fraction(),
        !a.absolute().negative(),
        a.absolute().nan() == a.nan(),
        a.absolute().value() == a.magnitude(),
{
}

impl scalar {
    /// The whole part of 256 times the number, kept within `0..=255`: 0 for
    /// what is not above zero or no number, 255 from one upwards.
    pub open spec fn quantized(self) -> int {
        if self.nan() || self.value() <= 0 {
            0
        } else if self.value() >= pow2(1074) {
            255
        } else {
            (256 * self.value()) / (pow2(1074) as int)
        }
    }

    /// The nearest whole number, halves away from zero, kept within
    /// `0..=u32::MAX`: 0 for what is below one half or no number.
    pub open spec fn rounded_u32(self) -> int {
        if self.nan() || self.value() <= 0 {
            0
        } else {
            let r = (2 * self.value() + pow2(1074)) / (2 * pow2(1074) as int);
            if r > u32::MAX {
                u32::MAX as int
            } else {
                r
            }
        }
    }

    /// Scales the number by 256 and cuts it to a byte, saturating.
    pub fn quantize(self) -> (b: u8)
        ensures
            b == self.quantized(),
    {
        if self.is_nan() || self.bits >= SIGN_BIT {
            return 0;
        }
        let e: u64 = self.bits / HIDDEN_BIT;
        let m: u64 = HIDDEN_BIT + self.bits % HIDDEN_BIT;
        if e >= 1023 {
            proof {
                let one = scalar { bits: 0x3ff0_0000_0000_0000 };
                lemma_one_value();
                lemma_magnitude_order(one, self);
                lemma_pow2_pos(1074);
            }
            return 255;
        }
        if e < 1015 {
            proof {
                let step = scalar { bits: 0x3f70_0000_0000_0000 };
                assert(step.exponent() == 1015 && step.fraction() == 0);
                lemma_magnitude_order(self, step);
                lemma_pow2_adds(52, 1014);
                lemma_pow2_adds(8, 1066);
                lemma2_to64();
                lemma2_to64_rest();
                lemma_one_value();
                lemma_basic_div(256 * self.value(), pow2(1074) as int);
            }
            return 0;
        }
        let shift: u64 = 1067 - e;
        let q: u64 = m >> shift;
        proof {
            lemma2_to64();
            lemma_pow2_adds(8, (e - 1) as nat);
            assert(256 * self.value() == m * pow2((e + 7) as nat)) by (nonlinear_arith)
                requires
                    self.value() == m * pow2((e - 1) as nat),
                    pow2((e + 7) as nat) == 256 * pow2((e - 1) as nat),
            ;
            lemma_cancel_pow2(m as nat, (e + 7) as nat, shift as nat);
            lemma_u64_shr_is_div(m, shift);
            assert(m >> shift < 256) by (bit_vector)
                requires
                    m < 0x20_0000_0000_0000,
                    45 <= shift <= 52,
            ;
            let one = scalar { bits: 0x3ff0_0000_0000_0000 };
            lemma_one_value();
            lemma_magnitude_order(self, one);
            lemma_magnitude_zero(self);
        }
        q as u8
    }

    /// Rounds the number to the nearest `u32`, halves away from zero,
    /// saturating.
    pub fn round_to_u32(self) -> (n: u32)
        ensures
            n == self.rounded_u32(),
    {
        if self.is_nan() || self.bits >= SIGN_BIT {
            return 0;
        }
        let e: u64 = self.bits / HIDDEN_BIT;
        let m: u64 = HIDDEN_BIT + self.bits % HIDDEN_BIT;
        if e < 1022 {
            proof {
                let half = scalar { bits: 0x3fe0_0000_0000_0000 };
                assert(half.exponent() == 1022 && half.fraction() == 0);
                lemma_magnitude_order(self, half);
                lemma_pow2_adds(52, 1021);
                lemma_pow2_unfold(1074);
                lemma2_to64_rest();
                lemma_basic_div(2 * self.value() + pow2(1074), 2 * pow2(1074) as int);
            }
            return 0;
        }
        if e >= 1055 {
            proof {
                let big = scalar { bits: 0x41f0_0000_0000_0000 };
                assert(big.exponent() == 1055 && big.fraction() == 0);
                lemma_magnitude_order(big, self);
                lemma_pow2_adds(52, 1054);
                lemma_pow2_adds(32, 1074);
                lemma2_to64();
                lemma2_to64_rest();
                lemma_pow2_pos(1074);
                let u = pow2(1074) as int;
                let v = self.value();
                assert((2 * v + u) / (2 * u) > u32::MAX) by (nonlinear_arith)
                    requires
                        v >= 0x1_0000_0000 * u,
                        u > 0,
                ;
            }
            return u32::MAX;
        }
        let shift: u64 = 1075 - e;
        proof {
            lemma_u64_pow2_no_overflow((shift - 1) as nat);
            lemma_u64_shl_is_mul(1, (shift - 1) as u64);
            if shift - 1 < 52 {
                lemma_pow2_strictly_increases((shift - 1) as nat, 52);
            }
            lemma2_to64_rest();
        }
        let half: u64 = 1u64 << (shift - 1);
        let r: u64 = (m + half) >> shift;
        proof {
            lemma_u64_shr_is_div((m + half) as u64, shift);
            lemma_pow2_unfold(e as nat);
            lemma_pow2_unfold(1075);
            lemma_cancel_pow2((m + half) as nat, e as nat, shift as nat);
            lemma2_to64();
            let p = pow2(e as nat) as int;
            lemma_pow2_adds(e as nat, (shift - 1) as nat);
            assert(2 * self.value() + pow2(1074) == (m + half) * p) by (nonlinear_arith)
                requires
                    self.value() == m * pow2((e - 1) as nat),
                    p == 2 * pow2((e - 1) as nat),
                    pow2(1074) == p * half,
            ;
            lemma_magnitude_zero(self);
        }
        if r > 0xffff_ffff {
            u32::MAX
        } else {
            r as u32
        }
    }
}

/// A power of two shared by dividend and divisor cancels.
pub proof fn lemma_cancel_pow2(m: nat, a: nat, shift: nat)
    ensures
        ((m * pow2(a)) as int) / (pow2(a + shift) as int) == (m as int) / (pow2(shift) as int),
{
    let common = pow2(a);
    lemma_pow2_pos(a);
    lemma_pow2_pos(shift);
    lemma_pow2_adds(a, shift);
    assert(m * common == common * m) by (nonlinear_arith);
    lemma_div_multiples_vanish_quotient(common as int, m as int, pow2(shift) as int);
}

} // verus!
