//! What IEEE 754 numbers mean: exact values, correctly rounded arithmetic, comparison and
//! decimal notation.

use vstd::arithmetic::power::*;
use vstd::arithmetic::power2::*;
use vstd::prelude::*;

use crate::text::{decimal, padded};

verus! {

/// The two formats in use: binary32 and binary64.
#[derive(Clone, Copy, PartialEq, Eq, Structural)]
pub enum Width {
    Single,
    Double,
}

impl Width {
    /// Significant bits of a normal number.
    pub open spec fn precision(self) -> nat {
        match self {
            Width::Single => 24,
            Width::Double => 53,
        }
    }

    /// The smallest positive number is two to the minus `scale`.
    pub open spec fn scale(self) -> nat {
        match self {
            Width::Single => 149,
            Width::Double => 1074,
        }
    }

    /// Finite numbers are below two to the `range`, counted in smallest positive numbers.
    pub open spec fn range(self) -> nat {
        match self {
            Width::Single => 277,
            Width::Double => 2098,
        }
    }

    /// The weight of the leading bit of a normal number's significand.
    pub open spec fn hidden(self) -> nat {
        match self {
            Width::Single => 0x80_0000,
            Width::Double => 0x10_0000_0000_0000,
        }
    }

    /// The weight of the sign bit.
    pub open spec fn sign(self) -> nat {
        match self {
            Width::Single => 0x8000_0000,
            Width::Double => 0x8000_0000_0000_0000,
        }
    }

    /// The exponent field of infinities and of what is not a number.
    pub open spec fn special(self) -> nat {
        match self {
            Width::Single => 255,
            Width::Double => 2047,
        }
    }

    /// The number one, counted in smallest positive numbers.
    pub open spec fn one(self) -> nat {
        pow2(self.scale())
    }
}

/// The value of a number. The magnitude of a finite one is counted in `steps`, the smallest
/// positive number of its format.
pub enum Real {
    Nan,
    Infinite { negative: bool },
    Finite { negative: bool, steps: nat },
}

/// What a bit pattern means: sign, exponent field and fraction, as IEEE 754 lays them out.
pub open spec fn decode(width: Width, bits: nat) -> Real {
    let negative = bits >= width.sign();
    let exponent = bits % width.sign() / width.hidden();
    let fraction = bits % width.sign() % width.hidden();
    if exponent == width.special() {
        if fraction == 0 {
            Real::Infinite { negative }
        } else {
            Real::Nan
        }
    } else if exponent == 0 {
        Real::Finite { negative, steps: fraction }
    } else {
        Real::Finite {
            negative,
            steps: (width.hidden() + fraction) * pow2((exponent - 1) as nat),
        }
    }
}

/// The integer nearest to `n / d`; of two equally near ones the even one.
pub open spec fn half_even(n: nat, d: nat) -> nat {
    let q = n / d;
    let r = n % d;
    if 2 * r < d || (2 * r == d && q % 2 == 0) {
        q
    } else {
        q + 1
    }
}

/// The least number of doublings of `d` that brings `n / d` below two to the `p`.
pub open spec fn excess(p: nat, n: nat, d: nat) -> nat
    decreases
            if d <= n {
                n + 1 - d
            } else {
                0
            },
{
    if d == 0 || n < d * pow2(p) {
        0
    } else {
        proof {
            lemma_pow2_pos(p);
            assert(d <= d * pow2(p)) by (nonlinear_arith)
                requires
                    pow2(p) >= 1,
            ;
        }
        1 + excess(p, n, 2 * d)
    }
}

/// `n / d` rounded to `p` significant bits, but no finer than to an integer.
pub open spec fn round(p: nat, n: nat, d: nat) -> nat {
    let k = excess(p, n, d);
    half_even(n, d * pow2(k)) * pow2(k)
}

/// The distance of two integers.
pub open spec fn distance(a: nat, b: nat) -> int {
    if a <= b {
        b - a
    } else {
        a - b
    }
}

/// The number of format `width` that is nearest to `n / d` steps.
pub open spec fn nearest(width: Width, negative: bool, n: nat, d: nat) -> Real {
    let steps = round(width.precision(), n, d);
    if steps < pow2(width.range()) {
        Real::Finite { negative, steps }
    } else {
        Real::Infinite { negative }
    }
}

impl Real {
    /// Positive zero.
    pub open spec fn zero() -> Real {
        Real::Finite { negative: false, steps: 0 }
    }

    /// Negative zero.
    pub open spec fn minus_zero() -> Real {
        Real::Finite { negative: true, steps: 0 }
    }

    /// The number nearest to the integer `n`.
    pub open spec fn integer(width: Width, n: nat) -> Real {
        nearest(width, false, n * width.one(), 1)
    }

    /// The number nearest to `n / d`.
    pub open spec fn ratio(width: Width, n: nat, d: nat) -> Real {
        nearest(width, false, n * width.one(), d)
    }

    /// The signed number of steps of a finite number.
    pub open spec fn signed(self) -> int {
        match self {
            Real::Finite { negative, steps } => if negative {
                -steps
            } else {
                steps as int
            },
            _ => 0,
        }
    }

    pub open spec fn opposite(self) -> Real {
        match self {
            Real::Nan => Real::Nan,
            Real::Infinite { negative } => Real::Infinite { negative: !negative },
            Real::Finite { negative, steps } => Real::Finite { negative: !negative, steps },
        }
    }

    /// The sum, correctly rounded. A sum of zero is positive unless both terms are negative.
    pub open spec fn plus(self, width: Width, other: Real) -> Real {
        match (self, other) {
            (Real::Nan, _) => Real::Nan,
            (_, Real::Nan) => Real::Nan,
            (Real::Infinite { negative: a }, Real::Infinite { negative: b }) => if a == b {
                self
            } else {
                Real::Nan
            },
            (Real::Infinite { .. }, _) => self,
            (_, Real::Infinite { .. }) => other,
            (Real::Finite { negative: a, .. }, Real::Finite { negative: b, .. }) => {
                let sum = self.signed() + other.signed();
                if sum == 0 {
                    Real::Finite { negative: a && b, steps: 0 }
                } else if sum < 0 {
                    nearest(width, true, (-sum) as nat, 1)
                } else {
                    nearest(width, false, sum as nat, 1)
                }
            },
        }
    }

    /// The difference, correctly rounded.
    pub open spec fn minus(self, width: Width, other: Real) -> Real {
        self.plus(width, other.opposite())
    }

    /// The product, correctly rounded.
    pub open spec fn times(self, width: Width, other: Real) -> Real {
        match (self, other) {
            (Real::Nan, _) => Real::Nan,
            (_, Real::Nan) => Real::Nan,
            (Real::Infinite { negative: a }, Real::Infinite { negative: b }) => Real::Infinite {
                negative: a != b,
            },
            (Real::Infinite { negative: a }, Real::Finite { negative: b, steps }) => if steps == 0 {
                Real::Nan
            } else {
                Real::Infinite { negative: a != b }
            },
            (Real::Finite { negative: a, steps }, Real::Infinite { negative: b }) => if steps == 0 {
                Real::Nan
            } else {
                Real::Infinite { negative: a != b }
            },
            (
                Real::Finite { negative: a, steps: m },
                Real::Finite { negative: b, steps: n },
            ) => nearest(width, a != b, m * n, width.one()),
        }
    }

    /// The quotient, correctly rounded.
    pub open spec fn over(self, width: Width, other: Real) -> Real {
        match (self, other) {
            (Real::Nan, _) => Real::Nan,
            (_, Real::Nan) => Real::Nan,
            (Real::Infinite { .. }, Real::Infinite { .. }) => Real::Nan,
            (Real::Infinite { negative: a }, Real::Finite { negative: b, .. }) => Real::Infinite {
                negative: a != b,
            },
            (Real::Finite { negative: a, .. }, Real::Infinite { negative: b }) => Real::Finite {
                negative: a != b,
                steps: 0,
            },
            (
                Real::Finite { negative: a, steps: m },
                Real::Finite { negative: b, steps: n },
            ) => if n > 0 {
                nearest(width, a != b, m * width.one(), n)
            } else if m > 0 {
                Real::Infinite { negative: a != b }
            } else {
                Real::Nan
            },
        }
    }

    /// The number below or equal to this one that is the greatest integer.
    pub open spec fn floor(self, width: Width) -> Real {
        match self {
            Real::Finite { negative, steps } => {
                let whole = if negative {
                    (steps + width.one() - 1) as nat / width.one()
                } else {
                    steps / width.one()
                };
                Real::Finite { negative, steps: whole * width.one() }
            },
            _ => self,
        }
    }

    /// The same number in the wider format.
    pub open spec fn widened(self) -> Real {
        match self {
            Real::Finite { negative, steps } => Real::Finite {
                negative,
                steps: steps * pow2((Width::Double.scale() - Width::Single.scale()) as nat),
            },
            _ => self,
        }
    }

    /// The nearest number in the narrower format.
    pub open spec fn narrowed(self) -> Real {
        match self {
            Real::Finite { negative, steps } => nearest(
                Width::Single,
                negative,
                steps,
                pow2((Width::Double.scale() - Width::Single.scale()) as nat),
            ),
            _ => self,
        }
    }

    /// The integer part, clamped to what 64 unsigned bits hold; 0 for what is not a number.
    pub open spec fn clamped_int(self, width: Width) -> nat {
        match self {
            Real::Nan => 0,
            Real::Infinite { negative } => if negative {
                0
            } else {
                u64::MAX as nat
            },
            Real::Finite { negative, steps } => if negative {
                0
            } else if steps / width.one() > u64::MAX {
                u64::MAX as nat
            } else {
                steps / width.one()
            },
        }
    }

    /// Numeric order; both zeros are equal and nothing compares to what is not a number.
    pub open spec fn lt(self, other: Real) -> bool {
        match (self, other) {
            (Real::Nan, _) => false,
            (_, Real::Nan) => false,
            (Real::Infinite { negative: a }, Real::Infinite { negative: b }) => a && !b,
            (Real::Infinite { negative: a }, _) => a,
            (_, Real::Infinite { negative: b }) => !b,
            _ => self.signed() < other.signed(),
        }
    }

    pub open spec fn le(self, other: Real) -> bool {
        self != Real::Nan && other != Real::Nan && !other.lt(self)
    }

    /// The greater of the two, or the one that is a number; `self` where they are equal.
    pub open spec fn larger(self, other: Real) -> Real {
        if self == Real::Nan || self.lt(other) {
            other
        } else {
            self
        }
    }

    /// The smaller of the two, or the one that is a number; `self` where they are equal.
    pub open spec fn smaller(self, other: Real) -> Real {
        if self == Real::Nan || other.lt(self) {
            other
        } else {
            self
        }
    }
}

/// Ten to the `n`.
pub open spec fn pow10(n: nat) -> nat {
    pow(10, n) as nat
}

/// `n` units of the last place, written with `places` digits behind the point.
pub open spec fn with_point(n: nat, places: nat) -> Seq<char> {
    if places == 0 {
        decimal(n)
    } else {
        decimal(n / pow10(places)) + "."@ + padded(decimal(n % pow10(places)), '0', places)
    }
}

/// The number rounded to `places` decimal places, halves to even.
pub open spec fn fixed(width: Width, x: Real, places: nat) -> Seq<char> {
    match x {
        Real::Nan => "NaN"@,
        Real::Infinite { negative } => if negative {
            "-inf"@
        } else {
            "inf"@
        },
        Real::Finite { negative, steps } => {
            let magnitude = with_point(half_even(steps * pow10(places), width.one()), places);
            if negative {
                "-"@ + magnitude
            } else {
                magnitude
            }
        },
    }
}

} // verus!
