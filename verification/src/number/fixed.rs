//! Numbers in decimal notation with a fixed number of places behind the point.

use vstd::arithmetic::div_mod::*;
use vstd::arithmetic::mul::*;
use vstd::arithmetic::power::*;
use vstd::arithmetic::power2::*;
use vstd::prelude::*;

use crate::text::{
    are_digits, decimal_text, digits_of, digits_value, double_digits, pad_with_zeros, write_digits,
};

use super::float::{canonical, lemma_weights, lemma_whole_magnitude, Parts};
use super::rounding::{
    half_even_division, lemma_half_even_ratio, lemma_half_even_small, two_to,
};
use super::value::{fixed, half_even, pow10, with_point, Width};

verus! {

/// Ten to the `n`.
fn ten_to(n: u32) -> (r: u64)
    requires
        n <= 9,
    ensures
        r == pow10(n as nat),
        0 < r <= 1_000_000_000,
    decreases n,
{
    reveal(pow);
    if n == 0 {
        1
    } else {
        proof {
            lemma_pow_increases(10, n as nat, 9);
            reveal_with_fuel(pow, 10);
        }
        let r: u64 = ten_to(n - 1);
        r * 10
    }
}

fn write_with_point(n: u128, places: u32) -> (text: String)
    requires
        places <= 9,
    ensures
        text@ == with_point(n as nat, places as nat),
{
    if places == 0 {
        decimal_text(n)
    } else {
        let unit: u128 = ten_to(places) as u128;
        let mut text = decimal_text(n / unit);
        text.append(".");
        let fraction = pad_with_zeros(decimal_text(n % unit), places as usize);
        text.append(fraction.as_str());
        text
    }
}

/// A whole number needs no rounding.
proof fn lemma_half_even_whole(whole: nat, unit: nat, factor: nat)
    requires
        unit > 0,
    ensures
        half_even((whole * unit) * factor, unit) == whole * factor,
{
    assert((whole * unit) * factor == (whole * factor) * unit) by (nonlinear_arith);
    lemma_fundamental_div_mod_converse(
        ((whole * unit) * factor) as int,
        unit as int,
        (whole * factor) as int,
        0,
    );
}

/// The integer `m` times two to the `e`, as text, with `places` zeros behind the point.
fn write_whole(m: u64, e: u32, places: u32) -> (text: String)
    requires
        m > 0,
        places <= 9,
    ensures
        text@ == with_point(m as nat * pow2(e as nat) * pow10(places as nat), places as nat),
{
    let mut digits = digits_of(m as u128);
    let mut i: u32 = 0;
    proof {
        lemma2_to64();
        lemma_mul_basics(m as int);
    }
    while i < e
        invariant
            i <= e,
            m > 0,
            are_digits(digits@),
            digits_value(digits@) == m * pow2(i as nat),
        decreases e - i,
    {
        proof {
            lemma_pow2_pos(i as nat);
            lemma_mul_strictly_positive(m as int, pow2(i as nat) as int);
            lemma_pow2_unfold((i + 1) as nat);
            assert(m * (2 * pow2(i as nat)) == 2 * (m * pow2(i as nat))) by (nonlinear_arith);
        }
        digits = double_digits(&digits);
        i += 1;
    }
    let ghost whole = m * pow2(e as nat);
    let mut text = write_digits(&digits);
    if places > 0 {
        let unit: u64 = ten_to(places);
        proof {
            lemma_fundamental_div_mod_converse(whole * unit, unit as int, whole as int, 0);
            lemma_mod_bound(whole * unit, unit as int);
        }
        text.append(".");
        let zeros = pad_with_zeros(decimal_text(0), places as usize);
        text.append(zeros.as_str());
    } else {
        proof {
            reveal(pow);
            lemma_mul_basics(whole as int);
        }
    }
    text
}

/// The number with `places` decimal places.
pub fn write_fixed(width: Width, x: Parts, places: u32) -> (text: String)
    requires
        x.wf(width),
        places <= 9,
    ensures
        text@ == fixed(width, x@, places as nat),
{
    match x {
        Parts::Nan => String::from_str("NaN"),
        Parts::Infinite { negative } => if negative {
            String::from_str("-inf")
        } else {
            String::from_str("inf")
        },
        Parts::Finite { negative, m, k } => {
            let magnitude = write_magnitude(width, m, k, places);
            if negative {
                let mut text = String::from_str("-");
                text.append(magnitude.as_str());
                text
            } else {
                magnitude
            }
        },
    }
}

/// The magnitude `m` times two to the `k` steps with `places` decimal places.
fn write_magnitude(width: Width, m: u64, k: u32, places: u32) -> (text: String)
    requires
        canonical(width, m as nat, k as nat),
        places <= 9,
    ensures
        text@ == with_point(
            half_even((m * pow2(k as nat)) as nat * pow10(places as nat), width.one()),
            places as nat,
        ),
{
    let scale: u32 = width.scale_bits();
    let unit: u64 = ten_to(places);
    let ghost steps = (m * pow2(k as nat)) as nat;
    proof {
        lemma_weights(width);
        lemma_pow2_pos(width.scale());
    }
    if k >= scale {
        proof {
            lemma_whole_magnitude(width, m as nat, k as nat);
            lemma_half_even_whole(
                (m * pow2((k - scale) as nat)) as nat,
                width.one(),
                unit as nat,
            );
        }
        write_whole(m, k - scale, places)
    } else {
        let z: u32 = scale - k;
        proof {
            lemma2_to64_rest();
            assert(m * unit < 0x2000_0000_0000_0000_0000_0000u128) by (nonlinear_arith)
                requires
                    m < 0x20_0000_0000_0000,
                    unit <= 1_000_000_000,
            ;
        }
        let n: u128 = m as u128 * unit as u128;
        proof {
            lemma_pow2_adds(z as nat, k as nat);
            lemma_pow2_pos(z as nat);
            lemma_pow2_pos(k as nat);
            let one = width.one();
            let p = pow2(k as nat);
            assert((steps * unit as nat) * pow2(z as nat) == n as nat * one) by (nonlinear_arith)
                requires
                    steps == m * p,
                    n == m * unit,
                    one == pow2(z as nat) * p,
            ;
            lemma_half_even_ratio(steps * unit as nat, one, n as nat, pow2(z as nat));
            lemma_pow2_strictly_increases(100, 118);
            lemma_small_power();
        }
        if z >= 118 {
            proof {
                if z > 118 {
                    lemma_pow2_strictly_increases(118, z as nat);
                }
                lemma_half_even_small(n as nat, pow2(z as nat));
            }
            write_with_point(0, places)
        } else {
            proof {
                lemma_pow2_strictly_increases(z as nat, 120);
                lemma_pow2_strictly_increases(100, 120);
            }
            write_with_point(half_even_division(n, two_to(z)), places)
        }
    }
}

proof fn lemma_small_power()
    ensures
        0x4000_0000_0000_0000_0000_0000u128 < pow2(100),
{
    lemma2_to64();
    lemma2_to64_rest();
    lemma_pow2_adds(64, 36);
}

} // verus!
