//! Numbers taken apart into sign, significand and exponent, and the arithmetic on them.

use vstd::arithmetic::div_mod::*;
use vstd::arithmetic::mul::*;
use vstd::arithmetic::power2::*;
use vstd::prelude::*;

use super::rounding::{
    denominator, lemma_fits_in_128_bits, lemma_round_near, lemma_round_ratio, lemma_round_zero,
    numerator, round_ratio, two_to,
};
use super::value::{decode, nearest, round, Real, Width};

verus! {

impl Width {
    fn precision_bits(self) -> (r: u32)
        ensures
            r == self.precision(),
    {
        match self {
            Width::Single => 24,
            Width::Double => 53,
        }
    }

    pub fn scale_bits(self) -> (r: u32)
        ensures
            r == self.scale(),
    {
        match self {
            Width::Single => 149,
            Width::Double => 1074,
        }
    }

    fn range_bits(self) -> (r: u32)
        ensures
            r == self.range(),
    {
        match self {
            Width::Single => 277,
            Width::Double => 2098,
        }
    }

    fn hidden_weight(self) -> (r: u64)
        ensures
            r == self.hidden(),
    {
        match self {
            Width::Single => 0x80_0000,
            Width::Double => 0x10_0000_0000_0000,
        }
    }

    fn sign_weight(self) -> (r: u64)
        ensures
            r == self.sign(),
    {
        match self {
            Width::Single => 0x8000_0000,
            Width::Double => 0x8000_0000_0000_0000,
        }
    }

    fn special_exponent(self) -> (r: u64)
        ensures
            r == self.special(),
    {
        match self {
            Width::Single => 255,
            Width::Double => 2047,
        }
    }
}

/// A number taken apart: a finite one has the magnitude `m` times two to the `k` steps.
#[derive(Clone, Copy)]
pub enum Parts {
    Nan,
    Infinite { negative: bool },
    Finite { negative: bool, m: u64, k: u32 },
}

impl View for Parts {
    type V = Real;

    open spec fn view(&self) -> Real {
        match *self {
            Parts::Nan => Real::Nan,
            Parts::Infinite { negative } => Real::Infinite { negative },
            Parts::Finite { negative, m, k } => Real::Finite {
                negative,
                steps: m as nat * pow2(k as nat),
            },
        }
    }
}

/// `m` times two to the `k` is the one way to write a magnitude of the format.
pub open spec fn canonical(width: Width, m: nat, k: nat) -> bool {
    &&& m < pow2(width.precision())
    &&& k > 0 ==> width.hidden() <= m
    &&& k + width.precision() <= width.range()
}

impl Parts {
    pub open spec fn wf(self, width: Width) -> bool {
        match self {
            Parts::Finite { m, k, .. } => canonical(width, m as nat, k as nat),
            _ => true,
        }
    }
}

/// The powers of two that the two formats are built on.
pub proof fn lemma_weights(width: Width)
    ensures
        width.hidden() == pow2((width.precision() - 1) as nat),
        pow2(width.precision()) == 2 * width.hidden(),
        width.hidden() < pow2(53),
        pow2(width.precision()) <= pow2(53),
        pow2(53) == 0x20_0000_0000_0000,
        pow2(64) == 0x1_0000_0000_0000_0000,
        pow2(0) == 1,
{
    lemma2_to64();
    lemma2_to64_rest();
}

/// Takes a bit pattern apart.
pub fn unpack(width: Width, bits: u64) -> (r: Parts)
    requires
        bits < 2 * width.sign(),
    ensures
        r@ == decode(width, bits as nat),
        r.wf(width),
{
    proof {
        lemma_weights(width);
    }
    let sign: u64 = width.sign_weight();
    let hidden: u64 = width.hidden_weight();
    let negative = bits >= sign;
    let rest: u64 = bits % sign;
    let exponent: u64 = rest / hidden;
    let fraction: u64 = rest % hidden;
    assert(exponent <= width.special());
    if exponent == width.special_exponent() {
        if fraction == 0 {
            Parts::Infinite { negative }
        } else {
            Parts::Nan
        }
    } else if exponent == 0 {
        proof {
            lemma_mul_basics(fraction as int);
        }
        Parts::Finite { negative, m: fraction, k: 0 }
    } else {
        Parts::Finite { negative, m: hidden + fraction, k: (exponent - 1) as u32 }
    }
}

/// Puts a number together into its bit pattern.
pub fn pack(width: Width, x: Parts) -> (bits: u64)
    requires
        x.wf(width),
    ensures
        bits < 2 * width.sign(),
        decode(width, bits as nat) == x@,
{
    proof {
        lemma_weights(width);
    }
    let sign: u64 = width.sign_weight();
    let hidden: u64 = width.hidden_weight();
    let special: u64 = width.special_exponent();
    match x {
        Parts::Nan => special * hidden + hidden / 2,
        Parts::Infinite { negative } => if negative {
            sign + special * hidden
        } else {
            special * hidden
        },
        Parts::Finite { negative, m, k } => {
            let magnitude: u64 = k as u64 * hidden + m;
            proof {
                lemma_mul_basics(m as int);
                let e = if m < hidden {
                    0
                } else {
                    k + 1
                };
                let f = if m < hidden {
                    m as int
                } else {
                    m - hidden
                };
                assert(magnitude == e * hidden + f);
                lemma_fundamental_div_mod_converse(magnitude as int, hidden as int, e as int, f);
            }
            if negative {
                sign + magnitude
            } else {
                magnitude
            }
        },
    }
}

/// The number nearest to `a / b` times two to the `s` steps.
fn nearest_parts(width: Width, negative: bool, a: u128, b: u128, s: i32) -> (r: Parts)
    requires
        0 < b < pow2(64),
        a == 0 || b <= a,
        a < pow2(108),
        -4000 <= s <= 4000,
    ensures
        r.wf(width),
        r@ == nearest(
            width,
            negative,
            numerator(a as nat, s as int),
            denominator(b as nat, s as int),
        ),
{
    let p: u32 = width.precision_bits();
    let (m, k) = round_ratio(p, a, b, s);
    proof {
        lemma_weights(width);
        lemma_pow2_adds(p as nat, k as nat);
        lemma_pow2_pos(k as nat);
        assert(m * pow2(k as nat) < pow2(p as nat) * pow2(k as nat)) by (nonlinear_arith)
            requires
                m < pow2(p as nat),
                pow2(k as nat) > 0,
        ;
    }
    if k + p <= width.range_bits() {
        proof {
            if k + p < width.range() {
                lemma_pow2_strictly_increases((p + k) as nat, width.range());
            }
        }
        Parts::Finite { negative, m, k }
    } else {
        proof {
            let low = (p - 1) as nat;
            lemma_pow2_adds(low, k as nat);
            if width.range() < low + k {
                lemma_pow2_strictly_increases(width.range(), low + k as nat);
            }
            assert(pow2(low) * pow2(k as nat) <= m * pow2(k as nat)) by (nonlinear_arith)
                requires
                    pow2(low) <= m,
            ;
        }
        Parts::Infinite { negative }
    }
}

/// The number nearest to the integer `n`.
pub fn from_integer(width: Width, n: u64) -> (r: Parts)
    ensures
        r.wf(width),
        r@ == Real::integer(width, n as nat),
{
    proof {
        lemma_weights(width);
        lemma_pow2_strictly_increases(64, 108);
    }
    nearest_parts(width, false, n as u128, 1, width.scale_bits() as i32)
}

/// The number nearest to `n / d`.
pub fn from_ratio(width: Width, n: u32, d: u32) -> (r: Parts)
    requires
        d > 0,
    ensures
        r.wf(width),
        r@ == Real::ratio(width, n as nat, d as nat),
{
    let a: u128 = n as u128 * 0x1_0000_0000;
    let s: i32 = width.scale_bits() as i32 - 32;
    proof {
        lemma_weights(width);
        lemma2_to64();
        lemma_pow2_strictly_increases(64, 108);
        lemma_pow2_adds(32, s as nat);
        let one = width.one();
        let z = pow2(s as nat);
        assert((n as nat * one) * d as nat == (a as nat * z) * d as nat) by (nonlinear_arith)
            requires
                one == 0x1_0000_0000 * z,
                a == n * 0x1_0000_0000,
        ;
        lemma_round_ratio(
            width.precision(),
            n as nat * one,
            d as nat,
            numerator(a as nat, s as int),
            denominator(d as nat, s as int),
        );
    }
    nearest_parts(width, false, a, d as u128, s)
}

/// Changes the sign.
pub fn opposite(x: Parts) -> (r: Parts)
    ensures
        r@ == x@.opposite(),
        forall|width: Width| x.wf(width) ==> r.wf(width),
{
    match x {
        Parts::Nan => Parts::Nan,
        Parts::Infinite { negative } => Parts::Infinite { negative: !negative },
        Parts::Finite { negative, m, k } => Parts::Finite { negative: !negative, m, k },
    }
}

/// Canonical magnitudes are ordered by exponent, then by significand.
proof fn lemma_magnitude_order(width: Width, m1: nat, k1: nat, m2: nat, k2: nat)
    requires
        canonical(width, m1, k1),
        canonical(width, m2, k2),
    ensures
        k1 < k2 ==> m1 * pow2(k1) < m2 * pow2(k2),
        k1 == k2 ==> (m1 < m2 <==> m1 * pow2(k1) < m2 * pow2(k2)),
{
    lemma_weights(width);
    lemma_pow2_pos(k1);
    lemma_pow2_pos(k2);
    if k1 < k2 {
        lemma_pow2_unfold(k1 + 1);
        if k1 + 1 < k2 {
            lemma_pow2_strictly_increases(k1 + 1, k2);
        }
        assert(m1 * pow2(k1) < m2 * pow2(k2)) by (nonlinear_arith)
            requires
                m1 < 2 * width.hidden(),
                width.hidden() <= m2,
                2 * pow2(k1) <= pow2(k2),
                pow2(k1) > 0,
        ;
    } else if k1 == k2 {
        if m1 < m2 {
            assert(m1 * pow2(k1) < m2 * pow2(k1)) by (nonlinear_arith)
                requires
                    m1 < m2,
                    pow2(k1) > 0,
            ;
        } else {
            assert(m2 * pow2(k1) <= m1 * pow2(k1)) by (nonlinear_arith)
                requires
                    m2 <= m1,
            ;
        }
    }
}

fn smaller_magnitude(Ghost(width): Ghost<Width>, m1: u64, k1: u32, m2: u64, k2: u32) -> (r: bool)
    requires
        canonical(width, m1 as nat, k1 as nat),
        canonical(width, m2 as nat, k2 as nat),
    ensures
        r == (m1 * pow2(k1 as nat) < m2 * pow2(k2 as nat)),
{
    proof {
        lemma_magnitude_order(width, m1 as nat, k1 as nat, m2 as nat, k2 as nat);
        lemma_magnitude_order(width, m2 as nat, k2 as nat, m1 as nat, k1 as nat);
    }
    k1 < k2 || (k1 == k2 && m1 < m2)
}

/// Numeric order.
pub fn less(Ghost(width): Ghost<Width>, x: Parts, y: Parts) -> (r: bool)
    requires
        x.wf(width),
        y.wf(width),
    ensures
        r == x@.lt(y@),
{
    match (x, y) {
        (Parts::Nan, _) => false,
        (_, Parts::Nan) => false,
        (Parts::Infinite { negative: a }, Parts::Infinite { negative: b }) => a && !b,
        (Parts::Infinite { negative: a }, _) => a,
        (_, Parts::Infinite { negative: b }) => !b,
        (
            Parts::Finite { negative: a, m: m1, k: k1 },
            Parts::Finite { negative: b, m: m2, k: k2 },
        ) => {
            if a && b {
                smaller_magnitude(Ghost(width), m2, k2, m1, k1)
            } else if !a && !b {
                smaller_magnitude(Ghost(width), m1, k1, m2, k2)
            } else if a {
                proof {
                    lemma_pow2_pos(k1 as nat);
                    lemma_pow2_pos(k2 as nat);
                    lemma_mul_nonzero(m1 as int, pow2(k1 as nat) as int);
                    lemma_mul_nonzero(m2 as int, pow2(k2 as nat) as int);
                }
                m1 > 0 || m2 > 0
            } else {
                false
            }
        },
    }
}

/// Adds two finite numbers, the one with the greater exponent first.
fn sum_of_finite(
    width: Width,
    a: bool,
    m1: u64,
    k1: u32,
    b: bool,
    m2: u64,
    k2: u32,
) -> (r: Parts)
    requires
        canonical(width, m1 as nat, k1 as nat),
        canonical(width, m2 as nat, k2 as nat),
        k1 >= k2,
    ensures
        r.wf(width),
        r@ == (Parts::Finite { negative: a, m: m1, k: k1 })@.plus(
            width,
            (Parts::Finite { negative: b, m: m2, k: k2 })@,
        ),
{
    let p: u32 = width.precision_bits();
    let ghost s1 = m1 as nat * pow2(k1 as nat);
    let ghost s2 = m2 as nat * pow2(k2 as nat);
    proof {
        lemma_weights(width);
        lemma_pow2_pos(k1 as nat);
        lemma_pow2_pos(k2 as nat);
    }
    let gap: u32 = k1 - k2;
    if gap >= p + 2 {
        proof {
            lemma_pow2_adds(p as nat, k2 as nat);
            assert(s2 < pow2((p + k2) as nat)) by (nonlinear_arith)
                requires
                    s2 == m2 * pow2(k2 as nat),
                    m2 < pow2(p as nat),
                    pow2(k2 as nat) > 0,
                    pow2((p + k2) as nat) == pow2(p as nat) * pow2(k2 as nat),
            ;
            lemma_pow2_unfold((p + k2 + 2) as nat);
            lemma_pow2_unfold((p + k2 + 1) as nat);
            if p + k2 + 2 < k1 {
                lemma_pow2_strictly_increases((p + k2 + 2) as nat, k1 as nat);
            }
            assert(s1 >= pow2(k1 as nat)) by (nonlinear_arith)
                requires
                    s1 == m1 * pow2(k1 as nat),
                    m1 >= 1,
            ;
            if a == b {
                lemma_round_near(p as nat, m1 as nat, k1 as nat, s1 + s2, s2, 0);
            } else {
                lemma_round_near(p as nat, m1 as nat, k1 as nat, (s1 - s2) as nat, 0, s2);
            }
            lemma_canonical_in_range(width, m1 as nat, k1 as nat);
        }
        return Parts::Finite { negative: a, m: m1, k: k1 };
    }
    let ghost g = pow2(gap as nat);
    proof {
        lemma_pow2_pos(gap as nat);
        lemma_pow2_adds(gap as nat, k2 as nat);
        lemma_pow2_adds(53, 54);
        lemma_pow2_unfold(108);
        lemma_pow2_strictly_increases(53, 107);
        lemma_fits_in_128_bits(108);
        if gap < 54 {
            lemma_pow2_strictly_increases(gap as nat, 54);
        }
        assert(m1 * g < pow2(107)) by (nonlinear_arith)
            requires
                m1 < pow2(53),
                g <= pow2(54),
                g > 0,
                pow2(107) == pow2(53) * pow2(54),
        ;
        assert((m1 * g) * pow2(k2 as nat) == s1) by (nonlinear_arith)
            requires
                pow2(k1 as nat) == g * pow2(k2 as nat),
                s1 == m1 * pow2(k1 as nat),
        ;
    }
    let wide: u128 = m1 as u128 * two_to(gap);
    let narrow: u128 = m2 as u128;
    let unit: i32 = k2 as i32;
    proof {
        let u = pow2(k2 as nat) as int;
        lemma_mul_is_distributive_add_other_way(u, wide as int, narrow as int);
        lemma_mul_is_distributive_sub_other_way(u, wide as int, narrow as int);
        lemma_mul_is_distributive_sub_other_way(u, narrow as int, wide as int);
        lemma_mul_basics(u);
        lemma_zero_magnitude(0, 0);
        if wide < narrow {
            lemma_mul_strict_inequality(wide as int, narrow as int, u);
        } else if wide > narrow {
            lemma_mul_strict_inequality(narrow as int, wide as int, u);
        }
        if wide + narrow > 0 {
            lemma_mul_strictly_positive(wide + narrow, u);
        }
    }
    if a == b {
        if wide + narrow == 0 {
            Parts::Finite { negative: a, m: 0, k: 0 }
        } else {
            nearest_parts(width, a, wide + narrow, 1, unit)
        }
    } else if wide > narrow {
        nearest_parts(width, a, wide - narrow, 1, unit)
    } else if wide < narrow {
        nearest_parts(width, b, narrow - wide, 1, unit)
    } else {
        Parts::Finite { negative: false, m: 0, k: 0 }
    }
}

proof fn lemma_canonical_in_range(width: Width, m: nat, k: nat)
    requires
        canonical(width, m, k),
    ensures
        m * pow2(k) < pow2(width.range()),
{
    let p = width.precision();
    lemma_pow2_adds(p, k);
    lemma_pow2_pos(k);
    assert(m * pow2(k) < pow2(p + k)) by (nonlinear_arith)
        requires
            m < pow2(p),
            pow2(k) > 0,
            pow2(p + k) == pow2(p) * pow2(k),
    ;
    if p + k < width.range() {
        lemma_pow2_strictly_increases(p + k, width.range());
    }
}

/// The sum, correctly rounded.
pub fn sum(width: Width, x: Parts, y: Parts) -> (r: Parts)
    requires
        x.wf(width),
        y.wf(width),
    ensures
        r.wf(width),
        r@ == x@.plus(width, y@),
{
    match (x, y) {
        (Parts::Nan, _) => Parts::Nan,
        (_, Parts::Nan) => Parts::Nan,
        (Parts::Infinite { negative: a }, Parts::Infinite { negative: b }) => if a == b {
            x
        } else {
            Parts::Nan
        },
        (Parts::Infinite { .. }, _) => x,
        (_, Parts::Infinite { .. }) => y,
        (
            Parts::Finite { negative: a, m: m1, k: k1 },
            Parts::Finite { negative: b, m: m2, k: k2 },
        ) => {
            if k1 >= k2 {
                sum_of_finite(width, a, m1, k1, b, m2, k2)
            } else {
                sum_of_finite(width, b, m2, k2, a, m1, k1)
            }
        },
    }
}

/// The ratio of `m` times two to the `e` and two to the `f`, written with one power of two.
proof fn lemma_one_scale(p: nat, m: nat, e: nat, f: nat)
    ensures
        round(p, m * pow2(e), pow2(f)) == round(p, numerator(m, e - f), denominator(1, e - f)),
{
    let s = e - f;
    lemma_pow2_pos(f);
    if s >= 0 {
        let z = s as nat;
        lemma_pow2_adds(z, f);
        assert((m * pow2(e)) * 1 == (m * pow2(z)) * pow2(f)) by (nonlinear_arith)
            requires
                pow2(e) == pow2(z) * pow2(f),
        ;
        lemma_round_ratio(p, m * pow2(e), pow2(f), m * pow2(z), 1);
    } else {
        let z = (-s) as nat;
        lemma_pow2_pos(z);
        lemma_pow2_adds(e, z);
        lemma_mul_basics(pow2(z) as int);
        assert((m * pow2(e)) * pow2(z) == m * pow2(f)) by (nonlinear_arith)
            requires
                pow2(f) == pow2(e) * pow2(z),
        ;
        lemma_round_ratio(p, m * pow2(e), pow2(f), m, 1 * pow2(z));
    }
}

/// The product, correctly rounded.
pub fn product(width: Width, x: Parts, y: Parts) -> (r: Parts)
    requires
        x.wf(width),
        y.wf(width),
    ensures
        r.wf(width),
        r@ == x@.times(width, y@),
{
    proof {
        lemma_weights(width);
    }
    match (x, y) {
        (Parts::Nan, _) => Parts::Nan,
        (_, Parts::Nan) => Parts::Nan,
        (Parts::Infinite { negative: a }, Parts::Infinite { negative: b }) => Parts::Infinite {
            negative: a != b,
        },
        (Parts::Infinite { negative: a }, Parts::Finite { negative: b, m, k }) => {
            proof {
                lemma_zero_magnitude(m as nat, k as nat);
            }
            if m == 0 {
                Parts::Nan
            } else {
                Parts::Infinite { negative: a != b }
            }
        },
        (Parts::Finite { negative: a, m, k }, Parts::Infinite { negative: b }) => {
            proof {
                lemma_zero_magnitude(m as nat, k as nat);
            }
            if m == 0 {
                Parts::Nan
            } else {
                Parts::Infinite { negative: a != b }
            }
        },
        (
            Parts::Finite { negative: a, m: m1, k: k1 },
            Parts::Finite { negative: b, m: m2, k: k2 },
        ) => {
            proof {
                lemma_pow2_adds(53, 53);
                lemma_pow2_strictly_increases(106, 108);
                lemma_fits_in_128_bits(106);
                assert(m1 * m2 < pow2(106)) by (nonlinear_arith)
                    requires
                        m1 < pow2(53),
                        m2 < pow2(53),
                        pow2(106) == pow2(53) * pow2(53),
                ;
            }
            let m: u128 = m1 as u128 * m2 as u128;
            let s: i32 = k1 as i32 + k2 as i32 - width.scale_bits() as i32;
            proof {
                lemma_pow2_adds(k1 as nat, k2 as nat);
                assert((m1 * pow2(k1 as nat)) * (m2 * pow2(k2 as nat)) == m * pow2((k1 + k2) as nat))
                    by (nonlinear_arith)
                    requires
                        m == m1 * m2,
                        pow2((k1 + k2) as nat) == pow2(k1 as nat) * pow2(k2 as nat),
                ;
                lemma_one_scale(width.precision(), m as nat, (k1 + k2) as nat, width.scale());
            }
            nearest_parts(width, a != b, m, 1, s)
        },
    }
}

proof fn lemma_zero_magnitude(m: nat, k: nat)
    ensures
        m * pow2(k) == 0 <==> m == 0,
{
    lemma_pow2_pos(k);
    lemma_mul_nonzero(m as int, pow2(k) as int);
}

/// The ratio of two magnitudes, written with integers of at most 107 and 53 bits.
proof fn lemma_quotient_scale(width: Width, m1: nat, k1: nat, m2: nat, k2: nat)
    requires
        m2 > 0,
    ensures
        m2 * pow2(k2) > 0,
        round(width.precision(), (m1 * pow2(k1)) * width.one(), m2 * pow2(k2)) == round(
            width.precision(),
            numerator(m1 * pow2(54), k1 + width.scale() - k2 - 54),
            denominator(m2, k1 + width.scale() - k2 - 54),
        ),
{
    let p = width.precision();
    let f = width.scale();
    let s = k1 + f - k2 - 54;
    lemma_zero_magnitude(m2, k2);
    lemma_pow2_adds(k1, f);
    let n1 = (m1 * pow2(k1)) * width.one();
    let d1 = m2 * pow2(k2);
    let a = m1 * pow2(54);
    lemma_mul_is_associative(m1 as int, pow2(k1) as int, pow2(f) as int);
    assert(n1 == m1 * pow2(k1 + f));
    if s >= 0 {
        let z = s as nat;
        lemma_pow2_adds(54, z);
        lemma_pow2_adds(54 + z, k2);
        lemma_mul_is_associative(m1 as int, pow2(54) as int, pow2(z) as int);
        assert((m1 * pow2(k1 + f)) * m2 == (m1 * pow2(54 + z)) * (m2 * pow2(k2)))
            by (nonlinear_arith)
            requires
                pow2(k1 + f) == pow2(54 + z) * pow2(k2),
        ;
        lemma_round_ratio(p, n1, d1, a * pow2(z), m2);
    } else {
        let z = (-s) as nat;
        lemma_pow2_pos(z);
        lemma_pow2_adds(k1 + f, z);
        lemma_pow2_adds(54, k2);
        let left = pow2(k1 + f);
        assert((m1 * left) * (m2 * pow2(z)) == (m1 * m2) * (left * pow2(z))) by (nonlinear_arith);
        assert((m1 * pow2(54)) * (m2 * pow2(k2)) == (m1 * m2) * (pow2(54) * pow2(k2)))
            by (nonlinear_arith);
        lemma_mul_strictly_positive(m2 as int, pow2(z) as int);
        lemma_round_ratio(p, n1, d1, a, m2 * pow2(z));
    }
}

/// The quotient, correctly rounded.
pub fn quotient(width: Width, x: Parts, y: Parts) -> (r: Parts)
    requires
        x.wf(width),
        y.wf(width),
    ensures
        r.wf(width),
        r@ == x@.over(width, y@),
{
    proof {
        lemma_weights(width);
    }
    match (x, y) {
        (Parts::Nan, _) => Parts::Nan,
        (_, Parts::Nan) => Parts::Nan,
        (Parts::Infinite { .. }, Parts::Infinite { .. }) => Parts::Nan,
        (Parts::Infinite { negative: a }, Parts::Finite { negative: b, .. }) => Parts::Infinite {
            negative: a != b,
        },
        (Parts::Finite { negative: a, .. }, Parts::Infinite { negative: b }) => {
            proof {
                lemma_zero_magnitude(0, 0);
            }
            Parts::Finite { negative: a != b, m: 0, k: 0 }
        },
        (
            Parts::Finite { negative: a, m: m1, k: k1 },
            Parts::Finite { negative: b, m: m2, k: k2 },
        ) => {
            proof {
                lemma_zero_magnitude(m1 as nat, k1 as nat);
                lemma_zero_magnitude(m2 as nat, k2 as nat);
            }
            if m2 > 0 {
                proof {
                    lemma2_to64_rest();
                    lemma_pow2_adds(53, 54);
                    lemma_pow2_strictly_increases(107, 108);
                    lemma_fits_in_128_bits(107);
                    assert(m1 * pow2(54) < pow2(107)) by (nonlinear_arith)
                        requires
                            m1 < pow2(53),
                            pow2(54) > 0,
                            pow2(107) == pow2(53) * pow2(54),
                    ;
                    lemma_quotient_scale(width, m1 as nat, k1 as nat, m2 as nat, k2 as nat);
                }
                let n: u128 = m1 as u128 * 0x40_0000_0000_0000;
                let s: i32 = k1 as i32 + width.scale_bits() as i32 - k2 as i32 - 54;
                nearest_parts(width, a != b, n, m2 as u128, s)
            } else if m1 > 0 {
                Parts::Infinite { negative: a != b }
            } else {
                Parts::Nan
            }
        },
    }
}

/// An integer of few enough bits, shifted far enough, is representable.
pub proof fn lemma_round_shifted_integer(p: nat, m: nat, e: nat)
    requires
        p > 0,
        m < pow2(p),
        e + 1 >= p,
    ensures
        round(p, m * pow2(e), 1) == m * pow2(e),
{
    if m == 0 {
        lemma_zero_magnitude(0, e);
        lemma_round_zero(p, 1);
    } else {
        lemma_leading_place(p, m);
        let x = choose|x: nat| x < p && pow2((p - 1) as nat) <= m * #[trigger] pow2(x) < pow2(p);
        let k = (e - x) as nat;
        lemma_pow2_adds(x, k);
        lemma_pow2_pos(k);
        assert((m * pow2(x)) * pow2(k) == m * pow2(e)) by (nonlinear_arith)
            requires
                pow2(e) == pow2(x) * pow2(k),
        ;
        lemma_round_near(p, m * pow2(x), k, m * pow2(e), 0, 0);
    }
}

/// Some shift brings the leading bit of `m` to place `p`.
proof fn lemma_leading_place(p: nat, m: nat)
    requires
        p > 0,
        0 < m < pow2(p),
    ensures
        exists|x: nat| x < p && pow2((p - 1) as nat) <= m * #[trigger] pow2(x) < pow2(p),
    decreases p,
{
    lemma2_to64();
    lemma_pow2_unfold(p);
    let half = pow2((p - 1) as nat);
    if m >= half {
        assert(m * pow2(0) == m);
    } else {
        assert(p > 1);
        lemma_leading_place((p - 1) as nat, m);
        let x = choose|x: nat|
            x < p - 1 && pow2((p - 2) as nat) <= m * #[trigger] pow2(x) < pow2((p - 1) as nat);
        lemma_pow2_unfold((p - 1) as nat);
        lemma_pow2_unfold(x + 1);
        assert(m * pow2(x + 1) == 2 * (m * pow2(x))) by (nonlinear_arith)
            requires
                pow2(x + 1) == 2 * pow2(x),
        ;
    }
}

/// The same number in the wider format.
pub fn widened(x: Parts) -> (r: Parts)
    requires
        x.wf(Width::Single),
    ensures
        r.wf(Width::Double),
        r@ == x@.widened(),
{
    match x {
        Parts::Nan => Parts::Nan,
        Parts::Infinite { negative } => Parts::Infinite { negative },
        Parts::Finite { negative, m, k } => {
            proof {
                lemma_weights(Width::Single);
                lemma_weights(Width::Double);
                lemma_pow2_strictly_increases(24, 53);
                lemma_pow2_strictly_increases(53, 108);
                lemma_pow2_adds(k as nat, 925);
                assert((m * pow2(k as nat)) * pow2(925) == m * pow2((k + 925) as nat))
                    by (nonlinear_arith)
                    requires
                        pow2((k + 925) as nat) == pow2(k as nat) * pow2(925),
                ;
                lemma_round_shifted_integer(53, m as nat, (k + 925) as nat);
                lemma_pow2_adds(53, (k + 925) as nat);
                lemma_pow2_pos((k + 925) as nat);
                assert(m * pow2((k + 925) as nat) < pow2((53 + (k + 925)) as nat)) by (nonlinear_arith)
                    requires
                        m < pow2(53),
                        pow2((k + 925) as nat) > 0,
                        pow2((53 + (k + 925)) as nat) == pow2(53) * pow2((k + 925) as nat),
                ;
                lemma_pow2_strictly_increases((53 + (k + 925)) as nat, 2098);
            }
            nearest_parts(Width::Double, negative, m as u128, 1, k as i32 + 925)
        },
    }
}

/// The nearest number in the narrower format.
pub fn narrowed(x: Parts) -> (r: Parts)
    requires
        x.wf(Width::Double),
    ensures
        r.wf(Width::Single),
        r@ == x@.narrowed(),
{
    match x {
        Parts::Nan => Parts::Nan,
        Parts::Infinite { negative } => Parts::Infinite { negative },
        Parts::Finite { negative, m, k } => {
            proof {
                lemma_weights(Width::Double);
                lemma_pow2_strictly_increases(53, 108);
                lemma_one_scale(24, m as nat, k as nat, 925);
            }
            nearest_parts(Width::Single, negative, m as u128, 1, k as i32 - 925)
        },
    }
}

/// The integer quotient and the remainder of `m` by two to the `z`.
fn split_at_point(m: u64, z: u32) -> (r: (u64, u64))
    requires
        m < pow2(53),
        z > 0,
    ensures
        m == r.0 * pow2(z as nat) + r.1,
        r.1 < pow2(z as nat),
        2 * r.0 <= m,
{
    if z >= 64 {
        proof {
            lemma_pow2_strictly_increases(53, z as nat);
            lemma_mul_basics(pow2(z as nat) as int);
        }
        (0, m)
    } else {
        let unit: u128 = two_to(z);
        proof {
            lemma_pow2_pos(z as nat);
        }
        let q: u128 = m as u128 / unit;
        let r: u128 = m as u128 % unit;
        proof {
            lemma_weights(Width::Double);
            lemma_pow2_unfold(z as nat);
            lemma_pow2_pos((z - 1) as nat);
            lemma_fundamental_div_mod(m as int, unit as int);
            lemma_mod_bound(m as int, unit as int);
            lemma_mul_is_commutative(q as int, unit as int);
            assert(2 * q <= unit * q) by (nonlinear_arith)
                requires
                    unit >= 2,
            ;
        }
        (q as u64, r as u64)
    }
}

/// Splits a magnitude with a fractional part at the binary point.
proof fn lemma_split_magnitude(width: Width, m: nat, k: nat, z: nat, q: nat, r: nat)
    requires
        k + z == width.scale(),
        m == q * pow2(z) + r,
        r < pow2(z),
    ensures
        m * pow2(k) / width.one() == q,
        ((m * pow2(k) + width.one() - 1) as nat) / width.one() == if r == 0 {
            q
        } else {
            q + 1
        },
{
    let one = width.one();
    let unit = pow2(k);
    lemma_pow2_adds(z, k);
    lemma_pow2_pos(k);
    lemma_pow2_pos(z);
    assert(m * unit == q * one + r * unit) by (nonlinear_arith)
        requires
            m == q * pow2(z) + r,
            one == pow2(z) * unit,
    ;
    assert(r * unit + unit <= one) by (nonlinear_arith)
        requires
            r + 1 <= pow2(z),
            one == pow2(z) * unit,
    ;
    lemma_fundamental_div_mod_converse((m * unit) as int, one as int, q as int, (r * unit) as int);
    let up = m * unit + one - 1;
    if r == 0 {
        lemma_mul_basics(unit as int);
        lemma_fundamental_div_mod_converse(up as int, one as int, q as int, one - 1);
    } else {
        assert(r * unit >= unit) by (nonlinear_arith)
            requires
                r >= 1,
        ;
        assert((q + 1) * one == q * one + one) by (nonlinear_arith);
        lemma_fundamental_div_mod_converse(up as int, one as int, (q + 1) as int, r * unit - 1);
    }
}

/// A magnitude without a fractional part.
pub proof fn lemma_whole_magnitude(width: Width, m: nat, k: nat)
    requires
        k >= width.scale(),
    ensures
        m * pow2(k) == m * pow2((k - width.scale()) as nat) * width.one(),
        m * pow2(k) / width.one() == m * pow2((k - width.scale()) as nat),
        ((m * pow2(k) + width.one() - 1) as nat) / width.one() == m * pow2(
            (k - width.scale()) as nat,
        ),
{
    let z = (k - width.scale()) as nat;
    let one = width.one();
    lemma_pow2_adds(z, width.scale());
    lemma_pow2_pos(width.scale());
    let whole = m * pow2(z);
    assert(m * pow2(k) == whole * one) by (nonlinear_arith)
        requires
            pow2(k) == pow2(z) * one,
            whole == m * pow2(z),
    ;
    lemma_fundamental_div_mod_converse((whole * one) as int, one as int, whole as int, 0);
    lemma_fundamental_div_mod_converse(
        whole * one + one - 1,
        one as int,
        whole as int,
        one - 1,
    );
}

/// The greatest integer that is not above the number.
pub fn floor(width: Width, x: Parts) -> (r: Parts)
    requires
        x.wf(width),
    ensures
        r.wf(width),
        r@ == x@.floor(width),
{
    match x {
        Parts::Nan => Parts::Nan,
        Parts::Infinite { negative } => Parts::Infinite { negative },
        Parts::Finite { negative, m, k } => {
            let scale: u32 = width.scale_bits();
            if k >= scale {
                proof {
                    lemma_whole_magnitude(width, m as nat, k as nat);
                }
                return x;
            }
            proof {
                lemma_weights(width);
            }
            let (q, r) = split_at_point(m, scale - k);
            let whole: u64 = if negative && r > 0 {
                q + 1
            } else {
                q
            };
            proof {
                let p = width.precision();
                lemma_split_magnitude(
                    width,
                    m as nat,
                    k as nat,
                    (scale - k) as nat,
                    q as nat,
                    r as nat,
                );
                lemma_round_shifted_integer(p, whole as nat, width.scale());
                lemma_pow2_adds(p, width.scale());
                lemma_pow2_pos(width.scale());
                assert(whole * width.one() < pow2(p + width.scale())) by (nonlinear_arith)
                    requires
                        whole < pow2(p),
                        width.one() > 0,
                        pow2(p + width.scale()) == pow2(p) * width.one(),
                ;
                lemma_pow2_strictly_increases(p + width.scale(), width.range());
                lemma_pow2_strictly_increases(53, 108);
            }
            nearest_parts(width, negative, whole as u128, 1, scale as i32)
        },
    }
}

/// The integer part, clamped to what 64 unsigned bits hold; 0 for what is not a number.
pub fn clamped_integer(width: Width, x: Parts) -> (r: u64)
    requires
        x.wf(width),
    ensures
        r == x@.clamped_int(width),
{
    match x {
        Parts::Nan => 0,
        Parts::Infinite { negative } => if negative {
            0
        } else {
            u64::MAX
        },
        Parts::Finite { negative, m, k } => {
            if negative {
                return 0;
            }
            let scale: u32 = width.scale_bits();
            proof {
                lemma_weights(width);
            }
            if k >= scale {
                let z: u32 = k - scale;
                proof {
                    lemma_whole_magnitude(width, m as nat, k as nat);
                    if z < 64 {
                        lemma_pow2_strictly_increases(z as nat, 64);
                        lemma_pow2_adds(53, 64);
                        lemma_fits_in_128_bits(117);
                        assert(m * pow2(z as nat) < pow2(117)) by (nonlinear_arith)
                            requires
                                m < pow2(53),
                                pow2(z as nat) < pow2(64),
                                pow2(117) == pow2(53) * pow2(64),
                        ;
                    } else {
                        if z > 64 {
                            lemma_pow2_strictly_increases(64, z as nat);
                        }
                        assert(m * pow2(z as nat) > u64::MAX) by (nonlinear_arith)
                            requires
                                m >= 1,
                                pow2(z as nat) >= 0x1_0000_0000_0000_0000,
                        ;
                    }
                }
                if z >= 64 {
                    return u64::MAX;
                }
                let whole: u128 = m as u128 * two_to(z);
                if whole > u64::MAX as u128 {
                    u64::MAX
                } else {
                    whole as u64
                }
            } else {
                let (q, r) = split_at_point(m, scale - k);
                proof {
                    lemma_split_magnitude(
                        width,
                        m as nat,
                        k as nat,
                        (scale - k) as nat,
                        q as nat,
                        r as nat,
                    );
                }
                q
            }
        },
    }
}

} // verus!
