//! Numbers of double precision.

use vstd::prelude::*;

use super::fixed::write_fixed;
use super::float::{self, Parts};
use super::value::{decode, fixed, Real, Width};
use super::Single;

verus! {

/// A number in the binary64 format, held as its bit pattern. Every pattern is one.
#[derive(Clone, Copy, Debug)]
pub struct Double {
    pub bits: u64,
}

impl View for Double {
    type V = Real;

    open spec fn view(&self) -> Real {
        decode(Width::Double, self.bits as nat)
    }
}

impl Double {
    pub fn from_bits(bits: u64) -> (r: Double)
        ensures
            r@ == decode(Width::Double, bits as nat),
            r.bits == bits,
    {
        Double { bits }
    }

    pub fn to_bits(self) -> (bits: u64)
        ensures
            bits == self.bits,
    {
        self.bits
    }

    fn parts(self) -> (r: Parts)
        ensures
            r@ == self@,
            r.wf(Width::Double),
    {
        float::unpack(Width::Double, self.bits as u64)
    }

    fn from_parts(x: Parts) -> (r: Double)
        requires
            x.wf(Width::Double),
        ensures
            r@ == x@,
    {
        Double { bits: float::pack(Width::Double, x) as u64 }
    }

    /// The number nearest to `n`.
    pub fn from_integer(n: u64) -> (r: Double)
        ensures
            r@ == Real::integer(Width::Double, n as nat),
    {
        Double::from_parts(float::from_integer(Width::Double, n))
    }

    /// The number nearest to `n / d`.
    pub fn from_ratio(n: u32, d: u32) -> (r: Double)
        requires
            d > 0,
        ensures
            r@ == Real::ratio(Width::Double, n as nat, d as nat),
    {
        Double::from_parts(float::from_ratio(Width::Double, n, d))
    }

    /// Positive zero.
    pub fn zero() -> (r: Double)
        ensures
            r@ == Real::zero(),
    {
        Double { bits: 0 }
    }

    /// Negative zero.
    pub fn minus_zero() -> (r: Double)
        ensures
            r@ == Real::minus_zero(),
    {
        Double { bits: 0x8000_0000_0000_0000 }
    }

    pub fn plus(self, other: Double) -> (r: Double)
        ensures
            r@ == self@.plus(Width::Double, other@),
    {
        Double::from_parts(float::sum(Width::Double, self.parts(), other.parts()))
    }

    pub fn minus(self, other: Double) -> (r: Double)
        ensures
            r@ == self@.minus(Width::Double, other@),
    {
        Double::from_parts(
            float::sum(Width::Double, self.parts(), float::opposite(other.parts())),
        )
    }

    pub fn over(self, other: Double) -> (r: Double)
        ensures
            r@ == self@.over(Width::Double, other@),
    {
        Double::from_parts(float::quotient(Width::Double, self.parts(), other.parts()))
    }

    pub fn lt(self, other: Double) -> (r: bool)
        ensures
            r == self@.lt(other@),
    {
        float::less(Ghost(Width::Double), self.parts(), other.parts())
    }

    /// The greater of the two, or the one that is a number.
    pub fn larger(self, other: Double) -> (r: Double)
        ensures
            r == if self@ == Real::Nan || self@.lt(other@) {
                other
            } else {
                self
            },
            r@ == self@.larger(other@),
    {
        if self.is_nan() || self.lt(other) {
            other
        } else {
            self
        }
    }

    fn is_nan(self) -> (r: bool)
        ensures
            r == (self@ == Real::Nan),
    {
        match self.parts() {
            Parts::Nan => true,
            _ => false,
        }
    }

    /// Decimal notation with `places` digits behind the point.
    pub fn fixed(self, places: u32) -> (text: String)
        requires
            places <= 9,
        ensures
            text@ == fixed(Width::Double, self@, places as nat),
    {
        write_fixed(Width::Double, self.parts(), places)
    }

    pub fn times(self, other: Double) -> (r: Double)
        ensures
            r@ == self@.times(Width::Double, other@),
    {
        Double::from_parts(float::product(Width::Double, self.parts(), other.parts()))
    }

    pub fn le(self, other: Double) -> (r: bool)
        ensures
            r == self@.le(other@),
    {
        !self.is_nan() && !other.is_nan() && !other.lt(self)
    }

    /// The smaller of the two, or the one that is a number.
    pub fn smaller(self, other: Double) -> (r: Double)
        ensures
            r@ == self@.smaller(other@),
    {
        if self.is_nan() || other.lt(self) {
            other
        } else {
            self
        }
    }

    /// The greatest integer that is not above the number.
    pub fn floor(self) -> (r: Double)
        ensures
            r@ == self@.floor(Width::Double),
    {
        Double::from_parts(float::floor(Width::Double, self.parts()))
    }

    /// The integer part, clamped to what 64 unsigned bits hold; 0 for what is not a number.
    pub fn clamped_integer(self) -> (r: u64)
        ensures
            r == self@.clamped_int(Width::Double),
    {
        float::clamped_integer(Width::Double, self.parts())
    }

    /// The nearest number in the narrower format.
    pub fn narrowed(self) -> (r: Single)
        ensures
            r@ == self@.narrowed(),
    {
        Single { bits: float::pack(Width::Single, float::narrowed(self.parts())) as u32 }
    }
}

} // verus!
