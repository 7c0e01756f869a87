//! Intervals, vectors and rays over `scalar`.
//!
//! The types carry numbers; what is decided on them here needs no rounding:
//! membership in an interval, clamping, the sign flip of a vector, the tests
//! for a unit length, for a point inside the unit ball and for a vector that
//! has all but vanished.
#![allow(non_camel_case_types)]

use vstd::prelude::*;
use vstd::arithmetic::power2::{lemma_pow2_adds, lemma_pow2_unfold, pow2};
use crate::scalar::{lemma_magnitude_order, lemma_one_value, scalar};

verus! {

/// The bits of 1e-8, the bound under which a component counts as vanished.
pub const NEAR_ZERO_BOUND: u64 = 0x3e45_798e_e230_8c3a;

/// The bits of 1 - 2^-52, the least squared length that counts as unit.
pub const UNIT_LOW: u64 = 0x3fef_ffff_ffff_fffe;

/// The bits of 1 + 2^-52, the greatest squared length that counts as unit.
pub const UNIT_HIGH: u64 = 0x3ff0_0000_0000_0001;

/// A range of numbers between two bounds.
#[derive(Clone, Copy, Debug, PartialEq, Eq, Structural)]
pub struct interval {
    pub min: scalar,
    pub max: scalar,
}

impl interval {
    /// `min <= x <= max`: the bounds belong to the interval.
    pub open spec fn spec_contains(self, x: scalar) -> bool {
        self.min.less_eq(x) && x.less_eq(self.max)
    }

    /// `min < x < max`: the bounds do not belong to it.
    pub open spec fn spec_surrounds(self, x: scalar) -> bool {
        self.min.less(x) && x.less(self.max)
    }

    /// The lower bound for what lies below it, the upper bound for what lies
    /// above it, `x` itself otherwise; a NaN lies neither below nor above.
    pub open spec fn spec_clamp(self, x: scalar) -> scalar {
        if x.less(self.min) {
            self.min
        } else if self.max.less(x) {
            self.max
        } else {
            x
        }
    }

    /// The interval between two bounds.
    pub fn new(min: scalar, max: scalar) -> (i: interval)
        ensures
            i.min == min,
            i.max == max,
    {
        interval { min, max }
    }

    /// The interval from positive to negative infinity, which holds nothing.
    pub fn empty() -> (i: interval)
        ensures
            i.min.bits == 0x7ff0_0000_0000_0000,
            i.max.bits == 0xfff0_0000_0000_0000,
            forall|x: scalar| !i.spec_contains(x),
    {
        let i = interval { min: scalar::infinity(), max: scalar::neg_infinity() };
        proof {
            assert forall|x: scalar| !i.spec_contains(x) by {
                if !x.nan() {
                    lemma_magnitude_order(i.min, i.max);
                    lemma_magnitude_order(i.min, scalar { bits: 1 });
                    assert((scalar { bits: 1 }).magnitude() == 1);
                }
            }
        }
        i
    }

    /// Brings `x` into the interval: see `spec_clamp`.
    pub fn clamp(&self, x: scalar) -> (r: scalar)
        ensures
            r == self.spec_clamp(x),
    {
        if x.lt(self.min) {
            self.min
        } else if x.gt(self.max) {
            self.max
        } else {
            x
        }
    }

    /// The lower bound.
    pub fn min(&self) -> (r: scalar)
        ensures
            r == self.min,
    {
        self.min
    }

    /// The upper bound.
    pub fn max(&self) -> (r: scalar)
        ensures
            r == self.max,
    {
        self.max
    }

    /// Whether `x` lies between the bounds or on one of them.
    pub fn contains(&self, x: scalar) -> (b: bool)
        ensures
            b == self.spec_contains(x),
    {
        self.min.le(x) && x.le(self.max)
    }

    /// Whether `x` lies strictly between the bounds.
    pub fn surrounds(&self, x: scalar) -> (b: bool)
        ensures
            b == self.spec_surrounds(x),
    {
        self.min.lt(x) && x.lt(self.max)
    }
}

/// Three numbers: a point, a direction or a color, by use.
#[derive(Clone, Copy, Debug, PartialEq, Eq, Structural)]
pub struct vec3 {
    pub x: scalar,
    pub y: scalar,
    pub z: scalar,
}

pub type point3 = vec3;

pub type color = vec3;

/// Whether a squared length is one to within 2^-52 either way.
pub open spec fn unit_length_squared(len2: scalar) -> bool {
    &&& !len2.nan()
    &&& pow2(1074) - pow2(1022) <= len2.value() <= pow2(1074) + pow2(1022)
}

/// Whether a squared length is a number at least 2^-52 away from one.
pub open spec fn off_unit_length_squared(len2: scalar) -> bool {
    &&& !len2.nan()
    &&& len2.value() <= pow2(1074) - pow2(1022) || pow2(1074) + pow2(1022) <= len2.value()
}

/// Whether a number is, in absolute value, below 1e-8 as binary64 holds it.
pub open spec fn vanishing(c: scalar) -> bool {
    c.absolute().less(scalar { bits: NEAR_ZERO_BOUND })
}

impl vec3 {
    /// Each component with its sign flipped.
    pub open spec fn negation(self) -> vec3 {
        vec3 { x: self.x.negation(), y: self.y.negation(), z: self.z.negation() }
    }

    /// Positive zero in every component.
    pub open spec fn spec_zero() -> vec3 {
        vec3 { x: scalar { bits: 0 }, y: scalar { bits: 0 }, z: scalar { bits: 0 } }
    }

    /// Whether every component has all but vanished.
    pub open spec fn spec_near_zero(self) -> bool {
        vanishing(self.x) && vanishing(self.y) && vanishing(self.z)
    }

    /// The vector with the given components.
    pub fn new(x: scalar, y: scalar, z: scalar) -> (v: vec3)
        ensures
            v == (vec3 { x, y, z }),
    {
        vec3 { x, y, z }
    }

    /// The vector with `f` in every component.
    pub fn from_scalar(f: scalar) -> (v: vec3)
        ensures
            v == (vec3 { x: f, y: f, z: f }),
    {
        vec3 { x: f, y: f, z: f }
    }

    /// The origin; as a color, black.
    pub fn zero() -> (v: vec3)
        ensures
            v == vec3::spec_zero(),
    {
        vec3::from_scalar(scalar::zero())
    }

    /// One in every component; as a color, white.
    pub fn identity() -> (v: vec3)
        ensures
            v.x.bits == 0x3ff0_0000_0000_0000,
            v.y.bits == 0x3ff0_0000_0000_0000,
            v.z.bits == 0x3ff0_0000_0000_0000,
    {
        vec3::from_scalar(scalar::one())
    }

    pub fn x(&self) -> (r: scalar)
        ensures
            r == self.x,
    {
        self.x
    }

    pub fn y(&self) -> (r: scalar)
        ensures
            r == self.y,
    {
        self.y
    }

    pub fn z(&self) -> (r: scalar)
        ensures
            r == self.z,
    {
        self.z
    }

    /// The opposite vector.
    pub fn neg(self) -> (v: vec3)
        ensures
            v == self.negation(),
    {
        vec3 { x: self.x.neg(), y: self.y.neg(), z: self.z.neg() }
    }

    /// Whether every component is below 1e-8 in absolute value.
    pub fn near_zero(&self) -> (b: bool)
        ensures
            b == self.spec_near_zero(),
    {
        let epsilon = scalar::from_bits(NEAR_ZERO_BOUND);
        self.x.abs().lt(epsilon) && self.y.abs().lt(epsilon) && self.z.abs().lt(epsilon)
    }

    /// The unit vector along `self`, given the squared length of `self` and
    /// `self` divided by its length: `self` itself where the squared length
    /// is already one to within 2^-52, the quotient otherwise.
    pub fn normalized(&self, length_squared: scalar, quotient: vec3) -> (v: vec3)
        ensures
            v == if unit_length_squared(length_squared) {
                *self
            } else {
                quotient
            },
    {
        proof {
            lemma_unit_bounds();
        }
        let low = scalar::from_bits(UNIT_LOW);
        let high = scalar::from_bits(UNIT_HIGH);
        if low.le(length_squared) && length_squared.le(high) {
            *self
        } else {
            quotient
        }
    }

    /// Scales `self` to unit length in place, given its squared length and
    /// `self` divided by its length: replaced by the quotient where the
    /// squared length is a number at least 2^-52 away from one, left alone
    /// otherwise.
    pub fn normalize(&mut self, length_squared: scalar, quotient: vec3)
        ensures
            *final(self) == if off_unit_length_squared(length_squared) {
                quotient
            } else {
                *old(self)
            },
    {
        proof {
            lemma_unit_bounds();
        }
        let low = scalar::from_bits(UNIT_LOW);
        let high = scalar::from_bits(UNIT_HIGH);
        if length_squared.le(low) || length_squared.ge(high) {
            *self = quotient;
        }
    }

    /// One step of drawing a point inside the unit ball: the candidate is
    /// taken exactly when its squared length is below one.
    pub fn random_in_unit_sphere(candidate: vec3, length_squared: scalar) -> (r: Option<vec3>)
        ensures
            r == if length_squared.less(scalar { bits: 0x3ff0_0000_0000_0000 }) {
                Some(candidate)
            } else {
                None
            },
    {
        if length_squared.lt(scalar::one()) {
            Some(candidate)
        } else {
            None
        }
    }

    /// Turns a unit vector into the hemisphere around a normal, given the
    /// dot product of the two: kept where the product is above zero, flipped
    /// otherwise.
    pub fn random_on_hemisphere(on_unit_sphere: vec3, alignment: scalar) -> (v: vec3)
        ensures
            v == if (scalar { bits: 0 }).less(alignment) {
                on_unit_sphere
            } else {
                on_unit_sphere.negation()
            },
    {
        if alignment.gt(scalar::zero()) {
            on_unit_sphere
        } else {
            on_unit_sphere.neg()
        }
    }
}

/// The two bounds of the unit test are 1 - 2^-52 and 1 + 2^-52.
pub proof fn lemma_unit_bounds()
    ensures
        !(scalar { bits: UNIT_LOW }).nan(),
        !(scalar { bits: UNIT_HIGH }).nan(),
        (scalar { bits: UNIT_LOW }).value() == pow2(1074) - pow2(1022),
        (scalar { bits: UNIT_HIGH }).value() == pow2(1074) + pow2(1022),
{
    let low = scalar { bits: UNIT_LOW };
    let high = scalar { bits: UNIT_HIGH };
    assert(low.exponent() == 1022 && low.fraction() == 0xf_ffff_ffff_fffe);
    assert(high.exponent() == 1023 && high.fraction() == 1);
    lemma_one_value();
    lemma_pow2_adds(52, 1022);
    lemma_pow2_unfold(1022);
    vstd::arithmetic::power2::lemma2_to64_rest();
    let p = pow2(1021) as int;
    assert((0x10_0000_0000_0000 + 0xf_ffff_ffff_fffe) * p == 0x10_0000_0000_0000 * (2 * p) - 2
        * p) by (nonlinear_arith);
    let q = pow2(1022) as int;
    assert((0x10_0000_0000_0000 + 1) * q == 0x10_0000_0000_0000 * q + q) by (nonlinear_arith);
}

/// A half-line: the points `origin + t * direction`.
#[derive(Clone, Copy, Debug, PartialEq, Eq, Structural)]
pub struct ray {
    pub origin: point3,
    pub direction: vec3,
}

impl ray {
    /// The ray from `origin` along `direction`.
    pub fn new(origin: vec3, direction: vec3) -> (r: ray)
        ensures
            r == (ray { origin, direction }),
    {
        ray { origin, direction }
    }

    pub fn direction(&self) -> (v: vec3)
        ensures
            v == self.direction,
    {
        self.direction
    }

    pub fn origin(&self) -> (p: point3)
        ensures
            p == self.origin,
    {
        self.origin
    }

    /// The ray from the origin that points nowhere.
    pub fn null() -> (r: ray)
        ensures
            r == (ray { origin: vec3::spec_zero(), direction: vec3::spec_zero() }),
    {
        ray { origin: vec3::zero(), direction: vec3::zero() }
    }
}

} // verus!
