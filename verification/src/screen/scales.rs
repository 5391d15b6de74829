//! Laws of scales: axes, gauges and colors against exact values.

use vstd::arithmetic::mul::*;
use vstd::arithmetic::power2::*;
use vstd::prelude::*;

use crate::log::{lemma_peak_is_attained, lemma_peak_is_upper_bound, peak};
use crate::number::closeness::{
    close, lemma_close_multiples, lemma_close_parts, lemma_close_to_close, lemma_rounding_is_close,
};
use crate::number::laws::lemma_small_integer;
use crate::number::rounding::{lemma_round_at_least, lemma_round_at_most};
use crate::number::value::{round, Real, Width};
use crate::playback::double;
use crate::text::{decimal, padded};

use super::chart::{full_scale, heights, normalized, percent_labels, session_range, step_seconds};
use super::dashboard::{battery_gauge, charge_color, heat, usage_gauge};
use super::span::Color;

verus! {

/// A session is drawn from its first point to its last, but at least one second long; without
/// points a minute is drawn.
pub proof fn lemma_session_range_covers_the_session(curve: Seq<(Real, Real)>)
    ensures
        curve.len() == 0 ==> session_range(curve) == (Real::zero(), double(60)),
        curve.len() > 0 ==> {
            let first = curve[0].0;
            let last = curve[curve.len() - 1].0;
            let second = first.plus(Width::Double, double(1));
            let (min, max) = session_range(curve);
            &&& min == first
            &&& max == last || max == second
            &&& last != Real::Nan && second != Real::Nan ==> last.le(max) && second.le(max)
        },
{
}

/// Drain rates are measured against the highest one, but at least against 1.
pub proof fn lemma_full_scale_is_the_highest_rate(rates: Seq<(Real, Real)>, i: int)
    requires
        0 <= i < rates.len(),
    ensures
        double(1).le(full_scale(rates)),
        rates[i].1 != Real::Nan ==> rates[i].1.le(full_scale(rates)),
        full_scale(rates) == double(1) || exists|j: int|
            0 <= j < rates.len() && full_scale(rates) == (#[trigger] rates[j]).1,
{
    let all = heights(rates);
    lemma_small_integer(Width::Double, 1);
    lemma_mul_basics(Width::Double.one() as int);
    lemma_peak_is_upper_bound(all, i);
    lemma_peak_is_attained(all);
    assert(all[i] == rates[i].1);
    if all.contains(peak(all)) {
        let j = choose|j: int| 0 <= j < all.len() && all[j] == peak(all);
        assert(all[j] == rates[j].1);
    }
}

/// The height of a drain rate in the chart, times the full scale, is a hundred times the rate,
/// up to rounding. Its place in time is its own.
pub proof fn lemma_heights_are_shares_of_the_full_scale(
    rates: Seq<(Real, Real)>,
    full: nat,
    i: int,
    y: nat,
)
    requires
        0 <= i < rates.len(),
        rates[i].1 == (Real::Finite { negative: false, steps: y }),
        0 < full,
        pow2(60) * full <= y * Width::Double.one(),
        y <= pow2(40) * full,
    ensures
        normalized(rates, Real::Finite { negative: false, steps: full }).len() == rates.len(),
        normalized(rates, Real::Finite { negative: false, steps: full })[i].0 == rates[i].0,
        normalized(rates, Real::Finite { negative: false, steps: full })[i].1 matches Real::Finite {
            negative,
            steps,
        } && !negative && close(steps * full, (100 * y) * Width::Double.one(), 50),
{
    let one = Width::Double.one();
    let q = round(53, y * one, full);
    let p = round(53, q * (100 * one), one);
    lemma_small_integer(Width::Double, 100);
    lemma2_to64();
    lemma_pow2_pos(53);
    lemma_pow2_pos(1074);
    lemma_pow2_strictly_increases(52, 60);
    lemma_pow2_adds(40, 1074);
    lemma_pow2_adds(1114, 7);
    lemma_pow2_strictly_increases(1114, 2098);
    lemma_pow2_strictly_increases(1121, 2098);
    assert(pow2(52) * full <= y * one) by (nonlinear_arith)
        requires
            pow2(60) * full <= y * one,
            pow2(52) <= pow2(60),
    ;
    lemma_rounding_is_close(53, y * one, full);
    lemma_mul_basics(pow2(60) as int);
    lemma_round_at_least(53, y * one, full, 1, 60);
    assert(y * one <= (1 * pow2(1114)) * full) by (nonlinear_arith)
        requires
            y <= pow2(40) * full,
            pow2(1114) == pow2(40) * one,
            one >= 0,
    ;
    lemma_round_at_most(53, y * one, full, 1, 1114);
    assert(pow2(52) * one <= q * (100 * one)) by (nonlinear_arith)
        requires
            pow2(60) <= q,
            pow2(52) <= pow2(60),
            one >= 0,
    ;
    lemma_rounding_is_close(53, q * (100 * one), one);
    assert(q * (100 * one) <= (1 * pow2(1121)) * one) by (nonlinear_arith)
        requires
            q <= pow2(1114),
            pow2(1121) == pow2(1114) * 128,
            one >= 0,
    ;
    lemma_round_at_most(53, q * (100 * one), one, 1, 1121);
    assert(p * one == one * p && q * (100 * one) == one * (100 * q)) by (nonlinear_arith);
    lemma_close_parts(p, 100 * q, one, 52);
    lemma_close_multiples(p, 100 * q, full, 52);
    lemma_close_multiples(q * full, y * one, 100, 52);
    let a0 = p * full;
    let a1 = (100 * q) * full;
    let a2 = (100 * y) * one;
    assert(full * p == a0 && full * (100 * q) == a1 && 100 * (q * full) == a1 && 100 * (y * one)
        == a2) by (nonlinear_arith)
        requires
            a0 == p * full,
            a1 == (100 * q) * full,
            a2 == (100 * y) * one,
    ;
    lemma_close_to_close(a0, a1, a2, 52);
}

/// A gauge is filled by a hundredth of its percentage, up to rounding; those of the processor
/// and the memory are full at 100 percent and above.
pub proof fn lemma_gauges_are_filled_by_hundredths(title: Seq<char>, color: Color, p: nat)
    requires
        0 < p < pow2(276),
    ensures
        ({
            let percentage = Real::Finite { negative: false, steps: p };
            &&& battery_gauge(percentage).ratio matches Real::Finite { negative, steps }
                && !negative && close(100 * steps, p * pow2(925), 52)
            &&& p <= 100 * Width::Single.one() ==> usage_gauge(title, color, percentage).ratio
                == battery_gauge(percentage).ratio
            &&& p >= 100 * Width::Single.one() ==> usage_gauge(title, color, percentage).ratio
                == double(1)
        }),
{
    let one = Width::Double.one();
    let small = Width::Single.one();
    let e = pow2(925);
    let x = p * e;
    let d = 100 * one;
    let q = round(53, x * one, d);
    lemma_small_integer(Width::Double, 100);
    lemma_small_integer(Width::Double, 1);
    lemma_mul_basics(one as int);
    lemma2_to64();
    lemma_pow2_pos(53);
    lemma_pow2_pos(1074);
    lemma_pow2_pos(925);
    lemma_pow2_adds(52, 7);
    lemma_pow2_strictly_increases(59, 925);
    lemma_pow2_adds(149, 925);
    lemma_pow2_adds(276, 925);
    lemma_pow2_strictly_increases(1201, 2098);
    assert(pow2(52) * d <= x * one) by (nonlinear_arith)
        requires
            x == p * e,
            p >= 1,
            d == 100 * one,
            pow2(59) == pow2(52) * 128,
            pow2(59) < e,
            one >= 0,
    ;
    lemma_rounding_is_close(53, x * one, d);
    assert(x * one <= (1 * pow2(1201)) * d) by (nonlinear_arith)
        requires
            x == p * e,
            p < pow2(276),
            pow2(1201) == pow2(276) * e,
            d == 100 * one,
            one >= 0,
            e >= 0,
    ;
    lemma_round_at_most(53, x * one, d, 1, 1201);
    assert(q * d == one * (100 * q) && x * one == one * x) by (nonlinear_arith)
        requires
            d == 100 * one,
    ;
    lemma_close_parts(100 * q, x, one, 52);
    // Below and above one.
    if p <= 100 * small {
        assert(x * one <= (1 * one) * d) by (nonlinear_arith)
            requires
                x == p * e,
                p <= 100 * small,
                one == small * e,
                d == 100 * one,
        ;
        lemma_round_at_most(53, x * one, d, 1, 1074);
    }
    if p >= 100 * small {
        assert((1 * one) * d <= x * one) by (nonlinear_arith)
            requires
                x == p * e,
                p >= 100 * small,
                one == small * e,
                d == 100 * one,
        ;
        lemma_round_at_least(53, x * one, d, 1, 1074);
    }
}

/// The color of a temperature: red above `hot` degrees, else yellow above `warm` degrees, else
/// green.
pub proof fn lemma_heat_colors(temperature: Real, warm: nat, hot: nat)
    requires
        temperature is Finite,
        warm <= hot <= 1000,
    ensures
        temperature.signed() > hot * Width::Single.one() ==> heat(temperature, warm, hot)
            == Color::Red,
        warm * Width::Single.one() < temperature.signed() <= hot * Width::Single.one() ==> heat(
            temperature,
            warm,
            hot,
        ) == Color::Yellow,
        temperature.signed() <= warm * Width::Single.one() ==> heat(temperature, warm, hot)
            == Color::Green,
{
    lemma_small_integer(Width::Single, warm);
    lemma_small_integer(Width::Single, hot);
    assert(warm * Width::Single.one() <= hot * Width::Single.one()) by (nonlinear_arith)
        requires
            warm <= hot,
    ;
}

/// The color of a charge: green above three quarters, yellow above half, orange above a quarter,
/// else red.
pub proof fn lemma_charge_colors(percentage: Real)
    requires
        percentage is Finite,
    ensures
        percentage.signed() > 75 * Width::Single.one() ==> charge_color(percentage) == Color::Green,
        50 * Width::Single.one() < percentage.signed() <= 75 * Width::Single.one() ==> charge_color(
            percentage,
        ) == Color::Yellow,
        25 * Width::Single.one() < percentage.signed() <= 50 * Width::Single.one() ==> charge_color(
            percentage,
        ) == Color::Orange,
        percentage.signed() <= 25 * Width::Single.one() ==> charge_color(percentage) == Color::Red,
{
    lemma_small_integer(Width::Single, 75);
    lemma_small_integer(Width::Single, 50);
    lemma_small_integer(Width::Single, 25);
}

/// Labels are ten seconds apart on an axis of at most a minute, thirty seconds on one of at most
/// five minutes, and a minute on longer ones; an excess of less than a millionth does not count.
pub proof fn lemma_label_distances(min: Real, max: Real)
    requires
        min is Finite,
        max is Finite,
        min.signed() <= max.signed() <= min.signed() + pow2(1200),
    ensures
        ({
            let range = max.signed() - min.signed();
            let one = Width::Double.one();
            &&& range <= 60 * one ==> step_seconds(min, max) == 10
            &&& 0x10_0000 * (60 * one) + one <= 0x10_0000 * range && range <= 300 * one
                ==> step_seconds(min, max) == 30
            &&& 0x10_0000 * (300 * one) + one <= 0x10_0000 * range ==> step_seconds(min, max) == 60
        }),
{
    let one = Width::Double.one();
    let range = max.signed() - min.signed();
    lemma_small_integer(Width::Double, 60);
    lemma_small_integer(Width::Double, 300);
    lemma2_to64();
    lemma2_to64_rest();
    lemma_pow2_pos(1074);
    lemma_pow2_strictly_increases(1200, 2098);
    if range > 0 {
        let n = range as nat;
        lemma_mul_basics(pow2(1200) as int);
        lemma_mul_basics(n as int);
        lemma_round_at_most(53, n, 1, 1, 1200);
        if range <= 60 * one {
            lemma_mul_basics((60 * one) as int);
            lemma_round_at_most(53, n, 1, 60, 1074);
        }
        if range <= 300 * one {
            lemma_mul_basics((300 * one) as int);
            lemma_round_at_most(53, n, 1, 300, 1074);
        }
        // One millionth more than a minute, or than five, is itself a number of the format.
        lemma_pow2_adds(20, 1054);
        let u = pow2(1054);
        if 0x10_0000 * (60 * one) + one <= 0x10_0000 * range {
            assert((62914561 * u) * 1 <= n);
            lemma_round_at_least(53, n, 1, 62914561, 1054);
        }
        if 0x10_0000 * (300 * one) + one <= 0x10_0000 * range {
            assert((314572801 * u) * 1 <= n);
            lemma_round_at_least(53, n, 1, 314572801, 1054);
        }
    }
}

/// The percentage axis is labelled at every fifth percent.
pub proof fn lemma_percent_labels(i: int)
    requires
        0 <= i <= 20,
    ensures
        percent_labels().len() == 21,
        percent_labels()[i] == padded(decimal((5 * i) as nat), ' ', 3) + "%"@,
{
}

} // verus!
