//! Numbers of single precision.

use vstd::prelude::*;

use super::fixed::write_fixed;
use super::float::{self, Parts};
use super::value::{decode, fixed, Real, Width};
use super::Double;

verus! {

/// A number in the binary32 format, held as its bit pattern. Every pattern is one.
#[derive(Clone, Copy, Debug)]
pub struct Single {
    pub bits: u32,
}

impl View for Single {
    type V = Real;

    open spec fn view(&self) -> Real {
        decode(Width::Single, self.bits as nat)
    }
}

impl Single {
    pub fn from_bits(bits: u32) -> (r: Single)
        ensures
            r@ == decode(Width::Single, bits as nat),
            r.bits == bits,
    {
        Single { bits }
    }

    pub fn to_bits(self) -> (bits: u32)
        ensures
            bits == self.bits,
    {
        self.bits
    }

    fn parts(self) -> (r: Parts)
        ensures
            r@ == self@,
            r.wf(Width::Single),
    {
        float::unpack(Width::Single, self.bits as u64)
    }

    fn from_parts(x: Parts) -> (r: Single)
        requires
            x.wf(Width::Single),
        ensures
            r@ == x@,
    {
        Single { bits: float::pack(Width::Single, x) as u32 }
    }

    /// The number nearest to `n`.
    pub fn from_integer(n: u64) -> (r: Single)
        ensures
            r@ == Real::integer(Width::Single, n as nat),
    {
        Single::from_parts(float::from_integer(Width::Single, n))
    }

    /// The number nearest to `n / d`.
    pub fn from_ratio(n: u32, d: u32) -> (r: Single)
        requires
            d > 0,
        ensures
            r@ == Real::ratio(Width::Single, n as nat, d as nat),
    {
        Single::from_parts(float::from_ratio(Width::Single, n, d))
    }

    /// Positive zero.
    pub fn zero() -> (r: Single)
        ensures
            r@ == Real::zero(),
    {
        Single { bits: 0 }
    }

    /// Negative zero.
    pub fn minus_zero() -> (r: Single)
        ensures
            r@ == Real::minus_zero(),
    {
        Single { bits: 0x8000_0000 }
    }

    pub fn plus(self, other: Single) -> (r: Single)
        ensures
            r@ == self@.plus(Width::Single, other@),
    {
        Single::from_parts(float::sum(Width::Single, self.parts(), other.parts()))
    }

    pub fn minus(self, other: Single) -> (r: Single)
        ensures
            r@ == self@.minus(Width::Single, other@),
    {
        Single::from_parts(
            float::sum(Width::Single, self.parts(), float::opposite(other.parts())),
        )
    }

    pub fn over(self, other: Single) -> (r: Single)
        ensures
            r@ == self@.over(Width::Single, other@),
    {
        Single::from_parts(float::quotient(Width::Single, self.parts(), other.parts()))
    }

    pub fn lt(self, other: Single) -> (r: bool)
        ensures
            r == self@.lt(other@),
    {
        float::less(Ghost(Width::Single), self.parts(), other.parts())
    }

    /// The greater of the two, or the one that is a number.
    pub fn larger(self, other: Single) -> (r: Single)
        ensures
            r == if self@ == Real::Nan || self@.lt(other@) {
                other
            } else {
                self
            },
            r@ == self@.larger(other@),
    {
        if self.is_nan() || self.lt(other) {
            other
        } else {
            self
        }
    }

    fn is_nan(self) -> (r: bool)
        ensures
            r == (self@ == Real::Nan),
    {
        match self.parts() {
            Parts::Nan => true,
            _ => false,
        }
    }

    /// Decimal notation with `places` digits behind the point.
    pub fn fixed(self, places: u32) -> (text: String)
        requires
            places <= 9,
        ensures
            text@ == fixed(Width::Single, self@, places as nat),
    {
        write_fixed(Width::Single, self.parts(), places)
    }

    /// The same number in the wider format.
    pub fn widened(self) -> (r: Double)
        ensures
            r@ == self@.widened(),
    {
        Double { bits: float::pack(Width::Double, float::widened(self.parts())) }
    }
}

} // verus!
