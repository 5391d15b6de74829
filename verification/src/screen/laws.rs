//! Laws of the screens.

use vstd::arithmetic::div_mod::*;
use vstd::arithmetic::mul::*;
use vstd::arithmetic::power::*;
use vstd::arithmetic::power2::*;
use vstd::prelude::*;

use crate::log::{lemma_peak_is_upper_bound, LogEntry};
use crate::number::laws::{
    lemma_integer_is_exact, lemma_product_at_most, lemma_quotient_at_most,
    lemma_rounding_of_representable, lemma_small_integer,
};
use crate::number::rounding::{
    lemma_round_at_least, lemma_round_at_most, lemma_round_ratio, lemma_round_shape, lemma_round_zero,
};
use crate::number::value::{half_even, pow10, round, Real, Width};
use crate::playback::{
    cpu_usage_curve, double, drain_rate_curve, memory_usage_curve, percentage_curve, Playback,
};
use crate::text::decimal;

use super::chart::{
    full_scale, heights, labels_from, lemma_room_shrinks, normalized, room, seconds, session_range,
    step_seconds, time_labels,
};
use super::dashboard::{battery_gauge, live_chart, single, usage_gauge};
use super::plot::{playback_line, plot_chart, plot_range, values_line};
use super::span::Color;

verus! {

/// No finite drain rate of a chart lies above its percentage axis, and none that is not negative
/// lies below.
pub proof fn lemma_drain_curve_fits_the_axis(rates: Seq<(Real, Real)>, i: int)
    requires
        0 <= i < rates.len(),
        rates[i].1 is Finite,
    ensures
        normalized(rates, full_scale(rates))[i].1.le(double(100)),
        Real::zero().le(rates[i].1) ==> Real::zero().le(
            normalized(rates, full_scale(rates))[i].1,
        ),
{
    let all = heights(rates);
    let full = full_scale(rates);
    let y = rates[i].1;
    let one = Width::Double.one();
    lemma_small_integer(Width::Double, 1);
    lemma_small_integer(Width::Double, 100);
    lemma_peak_is_upper_bound(all, i);
    assert(all[i] == y);
    lemma_mul_basics(one as int);
    assert(double(1).le(full) && y.le(full));
    let share = y.over(Width::Double, full);
    lemma_round_zero(53, one);
    lemma_mul_basics((100 * one) as int);
    lemma_pow2_pos(Width::Double.range());
    match (y, full) {
        (
            Real::Finite { negative, steps },
            Real::Finite { negative: sign, steps: whole },
        ) => {
            if negative && steps == 0 {
                lemma_quotient_at_most(Width::Double, 0, whole, 0);
            }
            if !negative {
                lemma_quotient_at_most(Width::Double, steps, whole, 1);
                let s = round(53, steps * one, whole);
                lemma_pow2_strictly_increases(Width::Double.scale(), Width::Double.range());
                assert(share == Real::Finite { negative: false, steps: s });
                lemma_product_at_most(Width::Double, s, 100);
            }
        },
        (Real::Finite { negative, .. }, _) => {
            lemma_product_at_most(Width::Double, 0, 100);
        },
        _ => {},
    }
}

/// No gauge of the processor or the memory is fuller than full, and none shows less than
/// nothing of a usage that is not negative.
pub proof fn lemma_usage_gauges_are_in_range(title: Seq<char>, color: Color, usage: Real)
    ensures
        usage_gauge(title, color, usage).ratio.le(double(1)),
        Real::zero().le(usage) ==> Real::zero().le(usage_gauge(title, color, usage).ratio),
{
    lemma_small_integer(Width::Double, 1);
    lemma_small_integer(Width::Double, 100);
    lemma_mul_basics(pow2(925) as int);
    // A usage of negative zero stays zero.
    lemma_quotient_at_most(Width::Double, 0, 100 * Width::Double.one(), 0);
    lemma_pow2_pos(Width::Double.range());
}

/// A charge between 0 and 100 percent fills the gauge between not at all and completely.
pub proof fn lemma_battery_gauge_is_in_range(percentage: Real)
    requires
        Real::zero().le(percentage),
        percentage.le(single(100)),
    ensures
        Real::zero().le(battery_gauge(percentage).ratio),
        battery_gauge(percentage).ratio.le(double(1)),
{
    let one = Width::Double.one();
    lemma_small_integer(Width::Single, 100);
    lemma_small_integer(Width::Double, 100);
    lemma_small_integer(Width::Double, 1);
    lemma_mul_basics(one as int);
    match percentage {
        Real::Finite { negative, steps } => {
            let wide = steps * pow2(925);
            lemma_pow2_adds(149, 925);
            if negative {
                assert(steps == 0);
                lemma_mul_basics(pow2(925) as int);
                lemma_mul_basics(one as int);
            } else {
                assert(wide <= 100 * one) by (nonlinear_arith)
                    requires
                        wide == steps * pow2(925),
                        steps <= 100 * pow2(149),
                        one == pow2(149) * pow2(925),
                ;
            }
            lemma_quotient_at_most(Width::Double, wide, 100 * one, 1);
            lemma_pow2_strictly_increases(Width::Double.scale(), Width::Double.range());
            if negative {
                lemma_quotient_at_most(Width::Double, wide, 100 * one, 0);
            }
        },
        _ => {},
    }
}

/// A finite time of at most two to the `e` seconds, before or after the start.
pub open spec fn is_time_within(t: Real, e: nat) -> bool {
    t matches Real::Finite { steps, .. } && steps <= pow2(Width::Double.scale() + e)
}

/// `m` times two to the `k`.
spec fn shifted(m: nat, k: nat) -> nat {
    m * pow2(k)
}

/// A magnitude of at most two to the 55 seconds that the format holds.
spec fn is_tick(steps: nat) -> bool {
    &&& steps <= pow2(1129)
    &&& exists|m: nat, k: nat| m < pow2(53) && k <= 1077 && steps == #[trigger] shifted(m, k)
}

/// Rounded magnitudes that are not too large are ticks.
proof fn lemma_rounded_is_tick(n: nat, d: nat)
    requires
        d > 0,
        round(53, n, d) <= pow2(1129),
    ensures
        is_tick(round(53, n, d)),
{
    let s = round(53, n, d);
    let (m0, k0) = lemma_round_shape(53, n, d);
    lemma_pow2_unfold(53);
    lemma_pow2_unfold(k0 + 1);
    let (m, k) = if m0 == pow2(53) {
        (pow2(52), k0 + 1)
    } else {
        (m0, k0)
    };
    assert(s == m * pow2(k)) by (nonlinear_arith)
        requires
            s == m0 * pow2(k0),
            (m == m0 && k == k0) || (m0 == 2 * m && pow2(k) == 2 * pow2(k0)),
    ;
    assert(s == shifted(m, k));
    lemma_pow2_pos(52);
    if k > 1077 {
        let z = (k - 1077) as nat;
        lemma_pow2_adds(z, 1077);
        let w = m * pow2(z);
        assert(s == w * pow2(1077)) by (nonlinear_arith)
            requires
                s == m * pow2(k),
                pow2(k) == pow2(z) * pow2(1077),
                w == m * pow2(z),
        ;
        assert(s == shifted(w, 1077));
        lemma_pow2_adds(52, 1077);
        lemma_pow2_pos(1077);
        assert(w <= pow2(52)) by (nonlinear_arith)
            requires
                w * pow2(1077) <= pow2(52) * pow2(1077),
                pow2(1077) > 0,
        ;
    }
}

/// From a tick, a step of ten seconds or more leads on.
proof fn lemma_step_leads_on(t: Real, s: nat)
    requires
        t matches Real::Finite { steps, .. } && is_tick(steps),
        10 <= s <= 60,
    ensures
        t.lt(t.plus(Width::Double, double(s))),
{
    let one = Width::Double.one();
    let steps = t->steps;
    let (m, k) = choose|m: nat, k: nat|
        m < pow2(53) && k <= 1077 && steps == #[trigger] shifted(m, k);
    let u = pow2(k);
    let ahead = s * one;
    lemma_small_integer(Width::Double, s);
    lemma2_to64();
    lemma_pow2_adds(1074, 3);
    lemma_pow2_pos(k);
    lemma_pow2_pos(1074);
    if k < 1077 {
        lemma_pow2_strictly_increases(k, 1077);
    }
    assert(u <= ahead && ahead > 0) by (nonlinear_arith)
        requires
            u <= one * 8,
            ahead == s * one,
            s >= 10,
            one > 0,
    ;
    assert((m + 1) * u == steps + u) by (nonlinear_arith)
        requires
            steps == m * u,
    ;
    let sum = t.signed() + ahead;
    if !(t->Finite_negative) {
        lemma_round_at_least(53, (steps + ahead) as nat, 1, m + 1, k);
    } else if sum > 0 {
        lemma_round_at_least(53, sum as nat, 1, 1, 0);
    } else if sum < 0 {
        assert(m > 0) by (nonlinear_arith)
            requires
                steps == m * u,
                steps > 0,
        ;
        assert((m - 1) * u == steps - u) by (nonlinear_arith)
            requires
                steps == m * u,
        ;
        lemma_round_at_most(53, (-sum) as nat, 1, (m - 1) as nat, k);
        lemma_mul_basics((-sum) as int);
        assert(steps < pow2(Width::Double.range())) by {
            lemma_pow2_strictly_increases(1129, Width::Double.range());
        }
    }
}

/// One step from a tick within the axis leads to a tick.
proof fn lemma_step_leads_to_tick(t: Real, s: nat, max: Real)
    requires
        t matches Real::Finite { steps, .. } && is_tick(steps),
        10 <= s <= 60,
        is_time_within(max, 49),
        t.le(max),
    ensures
        t.plus(Width::Double, double(s)) matches Real::Finite { steps, .. } && is_tick(steps),
{
    let one = Width::Double.one();
    let steps = t->steps;
    let ahead = s * one;
    lemma_small_integer(Width::Double, s);
    lemma2_to64();
    lemma_pow2_adds(1074, 49);
    lemma_pow2_adds(1123, 6);
    lemma_pow2_strictly_increases(1074, 1123);
    lemma_pow2_strictly_increases(1129, Width::Double.range());
    lemma_pow2_pos(53);
    let sum = t.signed() + ahead;
    assert(ahead <= 60 * pow2(1123)) by (nonlinear_arith)
        requires
            ahead == s * one,
            s <= 60,
            one <= pow2(1123),
    ;
    lemma_mul_basics(pow2(1129) as int);
    if sum > 0 {
        assert(sum <= pow2(1129));
        lemma_round_at_most(53, sum as nat, 1, 1, 1129);
        lemma_rounded_is_tick(sum as nat, 1);
    } else if sum < 0 {
        lemma_round_at_most(53, (-sum) as nat, 1, 1, 1129);
        lemma_rounded_is_tick((-sum) as nat, 1);
    } else {
        lemma_mul_basics(pow2(0) as int);
        assert(0 == shifted(0, 0));
    }
}

proof fn lemma_labels_from_tick(t: Real, s: nat, min: Real, max: Real)
    requires
        t matches Real::Finite { steps, .. } && is_tick(steps),
        10 <= s <= 60,
        is_time_within(max, 49),
    ensures
        labels_from(t, double(s), min, max) is Some,
    decreases room(t),
{
    if t.le(max) {
        lemma_step_leads_on(t, s);
        lemma_step_leads_to_tick(t, s, max);
        lemma_room_shrinks(t, double(s));
        lemma_labels_from_tick(t.plus(Width::Double, double(s)), s, min, max);
    }
}

/// The place of the first label is a tick.
proof fn lemma_first_label_is_tick(min: Real, s: nat)
    requires
        is_time_within(min, 49),
        10 <= s <= 60,
    ensures
        min.over(Width::Double, double(s)).floor(Width::Double).times(Width::Double, double(s))
            matches Real::Finite { steps, .. } && is_tick(steps),
{
    let one = Width::Double.one();
    let unit = s * one;
    let far = pow2(1123);
    lemma_small_integer(Width::Double, s);
    lemma2_to64();
    lemma_pow2_adds(49, 1074);
    lemma_pow2_adds(1123, 6);
    lemma_pow2_strictly_increases(1123, Width::Double.range());
    lemma_pow2_strictly_increases(1129, Width::Double.range());
    lemma_pow2_pos(53);
    lemma_mul_basics(far as int);
    lemma_mul_basics(pow2(1129) as int);
    let steps = min->steps;
    assert(unit > 0 && steps * one <= far * unit) by (nonlinear_arith)
        requires
            unit == s * one,
            s >= 1,
            one > 0,
            steps <= far,
    ;
    lemma_round_at_most(53, steps * one, unit, 1, 1123);
    let share = round(53, steps * one, unit);
    let up = (share + one - 1) as nat / one;
    let down = share / one;
    lemma_div_is_ordered(share as int, far as int, one as int);
    lemma_div_is_ordered((share + one - 1) as int, (far + one - 1) as int, one as int);
    assert(far / one == pow2(49) && ((far + one - 1) as nat) / one == pow2(49)) by {
        lemma_fundamental_div_mod_converse(far as int, one as int, pow2(49) as int, 0);
        lemma_fundamental_div_mod_converse(far + one - 1, one as int, pow2(49) as int, one - 1);
    }
    let whole = if min->Finite_negative {
        up
    } else {
        down
    };
    let low = whole * one;
    assert(low <= far) by (nonlinear_arith)
        requires
            low == whole * one,
            whole <= pow2(49),
            far == pow2(49) * one,
    ;
    assert(low * unit <= pow2(1129) * one) by (nonlinear_arith)
        requires
            low <= far,
            unit == s * one,
            s <= 64,
            pow2(1129) == far * 64,
    ;
    lemma_round_at_most(53, low * unit, one, 1, 1129);
    lemma_rounded_is_tick(low * unit, one);
}

/// A time axis whose ends are within two to the 49 seconds of the start, some 17 million
/// years, can be labelled.
pub proof fn lemma_time_axis_can_be_labelled(min: Real, max: Real)
    requires
        is_time_within(min, 49),
        is_time_within(max, 49),
    ensures
        time_labels(min, max) is Some,
{
    let s = step_seconds(min, max);
    lemma_first_label_is_tick(min, s);
    let start = min.over(Width::Double, double(s)).floor(Width::Double).times(
        Width::Double,
        double(s),
    );
    lemma_labels_from_tick(start, s, min, max);
}

/// `n` whole seconds from the start; zero has a minus sign where `minus_zero` is set.
pub open spec fn place(n: int, minus_zero: bool) -> Real {
    if n < 0 {
        Real::Finite { negative: true, steps: ((-n) * Width::Double.one()) as nat }
    } else {
        Real::Finite { negative: n == 0 && minus_zero, steps: (n * Width::Double.one()) as nat }
    }
}

/// The multiple `k` of `s` seconds lies within a time axis.
pub open spec fn is_on_axis(k: int, s: nat, min: Real, max: Real) -> bool {
    min.signed() <= (k * s) * Width::Double.one() <= max.signed()
}

/// The first multiple of `s` seconds that is not before `min`.
pub open spec fn first_mark(s: nat, min: Real) -> int {
    (min.signed() + s * Width::Double.one() - 1) / (s * Width::Double.one() as int)
}

/// The first multiple of `s` seconds that is after `max`.
pub open spec fn marks_until(s: nat, max: Real) -> int {
    max.signed() / (s * Width::Double.one() as int) + 1
}

/// Counting starts at negative zero: the axis begins there, or so little before the start that
/// its beginning, divided by the step, rounds to zero.
pub open spec fn starts_at_minus_zero(s: nat, min: Real) -> bool {
    min matches Real::Finite { negative, steps } && negative && 2 * steps <= s
}

/// The labels of the multiples of `s` seconds from the multiple `first` on, before the multiple
/// `end`.
pub open spec fn mark_labels(s: nat, first: int, end: int, minus_zero: bool) -> Seq<Seq<char>> {
    Seq::new(
        if first < end {
            (end - first) as nat
        } else {
            0
        },
        |i: int| seconds(place((first + i) * s, minus_zero)),
    )
}

/// A whole number of seconds is written as such: its sign, its digits and an `s`.
pub proof fn lemma_whole_seconds(n: int, minus_zero: bool)
    requires
        -pow2(53) < n < pow2(53),
    ensures
        seconds(place(n, minus_zero)) == if n < 0 {
            "-"@ + decimal((-n) as nat) + "s"@
        } else if n == 0 && minus_zero {
            "-"@ + decimal(0) + "s"@
        } else {
            decimal(n as nat) + "s"@
        },
        n >= 0 ==> double(n as nat) == place(n, false),
{
    let one = Width::Double.one();
    let m: nat = if n < 0 {
        (-n) as nat
    } else {
        n as nat
    };
    lemma_integer_is_exact(Width::Double, m);
    lemma_pow2_pos(Width::Double.scale());
    lemma_pow0(10);
    lemma_mul_basics((m * one) as int);
    lemma_mul_nonnegative(m as int, one as int);
    lemma_fundamental_div_mod_converse((m * one) as int, one as int, m as int, 0);
    assert(half_even((m * one) * pow10(0), one) == m);
}

/// The steps of a whole number of seconds.
proof fn lemma_place_signed(n: int, minus_zero: bool)
    ensures
        place(n, minus_zero).signed() == n * Width::Double.one(),
{
    let one = Width::Double.one();
    lemma_mul_basics(one as int);
    if n < 0 {
        assert((-n) * one >= 0 && -((-n) * one) == n * one) by (nonlinear_arith)
            requires
                n < 0,
                one >= 0,
        ;
    } else {
        lemma_mul_nonnegative(n, one as int);
    }
}

/// Which multiples lie within the axis.
proof fn lemma_marks(s: nat, min: Real, max: Real, k: int)
    requires
        s > 0,
    ensures
        first_mark(s, min) <= k <==> min.signed() <= (k * s) * Width::Double.one(),
        k < marks_until(s, max) <==> (k * s) * Width::Double.one() <= max.signed(),
{
    let one = Width::Double.one();
    let unit = (s * one) as int;
    lemma_pow2_pos(Width::Double.scale());
    assert(unit > 0) by (nonlinear_arith)
        requires
            unit == s * one,
            s > 0,
            one > 0,
    ;
    assert((k * s) * one == k * unit) by (nonlinear_arith)
        requires
            unit == s * one,
    ;
    let a = min.signed();
    let up = (a + unit - 1) / unit;
    lemma_fundamental_div_mod(a + unit - 1, unit);
    lemma_mod_bound(a + unit - 1, unit);
    let r = (a + unit - 1) % unit;
    assert(up <= k <==> a <= k * unit) by (nonlinear_arith)
        requires
            a + unit - 1 == unit * up + r,
            0 <= r < unit,
            unit > 0,
    ;
    let b = max.signed();
    let down = b / unit;
    let q = b % unit;
    lemma_fundamental_div_mod(b, unit);
    lemma_mod_bound(b, unit);
    assert(k <= down <==> k * unit <= b) by (nonlinear_arith)
        requires
            b == unit * down + q,
            0 <= q < unit,
            unit > 0,
    ;
}

/// A step from one whole number of seconds leads to the next multiple, which is positive zero
/// where it is zero.
proof fn lemma_step_between_places(n: int, s: nat, minus_zero: bool)
    requires
        10 <= s <= 60,
        -pow2(53) < n + s < pow2(53),
    ensures
        place(n, minus_zero).plus(Width::Double, double(s)) == place(n + s, false),
{
    let one = Width::Double.one();
    lemma2_to64_rest();
    lemma_whole_seconds(s as int, false);
    lemma_place_signed(n, minus_zero);
    lemma_place_signed(s as int, false);
    lemma_place_signed(n + s, false);
    assert((n + s) * one == n * one + s * one) by (nonlinear_arith);
    lemma_pow2_pos(1074);
    let sum = (n + s) * one;
    if n + s < 0 {
        let m = (-(n + s)) as nat;
        assert(sum < 0 && m * one == -sum) by (nonlinear_arith)
            requires
                sum == (n + s) * one,
                m == -(n + s),
                m > 0,
                one > 0,
        ;
        lemma_integer_is_exact(Width::Double, m);
        lemma_mul_basics((m * one) as int);
        lemma_rounding_of_representable(53, m * one, 1, m, 1074);
    } else if n + s > 0 {
        let m = (n + s) as nat;
        assert(sum > 0) by (nonlinear_arith)
            requires
                sum == m * one,
                m > 0,
                one > 0,
        ;
        lemma_integer_is_exact(Width::Double, m);
        lemma_mul_basics((m * one) as int);
        lemma_rounding_of_representable(53, m * one, 1, m, 1074);
    } else {
        lemma_mul_basics(one as int);
    }
}

/// From a multiple of the step on, the labels are those of the multiples within the axis.
proof fn lemma_labels_from_multiple(k: int, s: nat, minus_zero: bool, min: Real, max: Real)
    requires
        10 <= s <= 60,
        min is Finite,
        is_time_within(max, 49),
        -pow2(49) - 60 <= k * s <= pow2(49) + 60,
        minus_zero ==> k == 0 && first_mark(s, min) <= 0,
    ensures
        labels_from(place(k * s, minus_zero), double(s), min, max) == Some(
            mark_labels(
                s,
                if k < first_mark(s, min) {
                    first_mark(s, min)
                } else {
                    k
                },
                marks_until(s, max),
                minus_zero,
            ),
        ),
    decreases marks_until(s, max) - k,
{
    let one = Width::Double.one();
    let n = k * s;
    let t = place(n, minus_zero);
    let first = first_mark(s, min);
    let end = marks_until(s, max);
    lemma2_to64_rest();
    lemma_place_signed(n, minus_zero);
    lemma_marks(s, min, max, k);
    if t.le(max) {
        lemma_pow2_adds(49, 1074);
        lemma_pow2_pos(1074);
        assert(n <= pow2(49)) by (nonlinear_arith)
            requires
                n * one <= pow2(49) * one,
                one > 0,
        ;
        assert((k + 1) * s == n + s) by (nonlinear_arith)
            requires
                n == k * s,
        ;
        lemma_step_between_places(n, s, minus_zero);
        lemma_place_signed(n + s, false);
        assert((n + s) * one > n * one) by (nonlinear_arith)
            requires
                s > 0,
                one > 0,
        ;
        lemma_labels_from_multiple(k + 1, s, false, min, max);
        if first <= k {
            let rest = mark_labels(s, k + 1, end, false);
            let all = mark_labels(s, k, end, minus_zero);
            assert forall|i: int| 0 <= i < all.len() implies (seq![seconds(t)] + rest)[i]
                == #[trigger] all[i] by {
                if i > 0 {
                    assert(k + 1 + (i - 1) == k + i);
                    if minus_zero {
                        assert((k + i) * s > 0) by (nonlinear_arith)
                            requires
                                k == 0,
                                i > 0,
                                s > 0,
                        ;
                    }
                }
            }
            assert(seq![seconds(t)] + rest =~= all);
        }
    } else {
        assert(k >= end);
        assert(mark_labels(s, k, end, minus_zero) =~= Seq::<Seq<char>>::empty());
        if k < first {
            assert(mark_labels(s, first, end, minus_zero) =~= Seq::<Seq<char>>::empty());
        }
    }
}

/// A magnitude divided by the step rounds to zero where it is at most half of the step.
proof fn lemma_quotient_is_zero(a: nat, s: nat)
    requires
        10 <= s <= 60,
        s % 2 == 0,
    ensures
        round(53, a * Width::Double.one(), s * Width::Double.one()) == 0 <==> 2 * a <= s,
{
    let one = Width::Double.one();
    lemma_pow2_pos(1074);
    assert(s * one > 0 && (a * one) * s == a * (s * one)) by (nonlinear_arith)
        requires
            s > 0,
            one > 0,
    ;
    lemma_round_ratio(53, a * one, s * one, a, s);
    lemma2_to64();
    lemma2_to64_rest();
    if a < s {
        assert(a < s * pow2(53)) by (nonlinear_arith)
            requires
                a < s,
                pow2(53) > 1,
        ;
        lemma_fundamental_div_mod_converse(a as int, s as int, 0, a as int);
        lemma_mul_basics(s as int);
        lemma_mul_basics(half_even(a, s) as int);
    } else {
        lemma_mul_basics(s as int);
        lemma_round_at_least(53, a, s, 1, 0);
    }
}

/// The first place that is tried is a multiple of the step: the last one that is not after the
/// beginning of the axis or, through rounding, the first one that is not before it.
proof fn lemma_first_place(s: nat, min: Real) -> (k: int)
    requires
        10 <= s <= 60,
        s % 2 == 0,
        is_time_within(min, 49),
    ensures
        min.over(Width::Double, double(s)).floor(Width::Double).times(Width::Double, double(s))
            == place(k * s, starts_at_minus_zero(s, min)),
        -pow2(49) - 60 <= k * s <= pow2(49) + 60,
        k <= first_mark(s, min),
        starts_at_minus_zero(s, min) ==> k == 0,
{
    let one = Width::Double.one();
    let unit = s * one;
    let a = min->steps;
    let negative = min->Finite_negative;
    lemma2_to64_rest();
    lemma_pow2_adds(49, 1074);
    lemma_pow2_pos(1074);
    lemma_whole_seconds(s as int, false);
    lemma_quotient_is_zero(a, s);
    assert(unit > 0) by (nonlinear_arith)
        requires
            unit == s * one,
            s > 0,
            one > 0,
    ;
    let f = (a as int / unit as int) as nat;
    let r = a as int % unit as int;
    lemma_fundamental_div_mod(a as int, unit as int);
    lemma_mod_bound(a as int, unit as int);
    lemma_div_pos_is_pos(a as int, unit as int);
    assert(f * unit <= a < (f + 1) * unit) by (nonlinear_arith)
        requires
            a == unit * f + r,
            0 <= r < unit,
    ;
    assert(f * s <= pow2(49)) by (nonlinear_arith)
        requires
            f * unit <= pow2(49) * one,
            unit == s * one,
            one > 0,
    ;
    assert(f <= f * s) by (nonlinear_arith)
        requires
            s >= 1,
    ;
    assert((f * one) * unit <= a * one && a * one <= ((f + 1) * one) * unit) by (nonlinear_arith)
        requires
            f * unit <= a < (f + 1) * unit,
    ;
    lemma_round_at_least(53, a * one, unit, f, 1074);
    lemma_round_at_most(53, a * one, unit, f + 1, 1074);
    if a == f * unit {
        assert(a * one == (f * one) * unit) by (nonlinear_arith)
            requires
                a == f * unit,
        ;
        lemma_round_at_most(53, a * one, unit, f, 1074);
    }
    let q = round(53, a * one, unit);
    assert((f + 1) * one == f * one + one) by (nonlinear_arith);
    // The whole number of steps below, or above a negative beginning's magnitude.
    let whole: nat = if negative {
        if q == f * one {
            lemma_fundamental_div_mod_converse(q + one - 1, one as int, f as int, one - 1);
            f
        } else {
            lemma_fundamental_div_mod_converse(
                q + one - 1,
                one as int,
                (f + 1) as int,
                q - f * one - 1,
            );
            f + 1
        }
    } else if q < (f + 1) * one {
        lemma_fundamental_div_mod_converse(q as int, one as int, f as int, q - f * one);
        f
    } else {
        lemma_fundamental_div_mod_converse(q as int, one as int, (f + 1) as int, 0);
        f + 1
    };
    lemma_pow2_adds(53, 1074);
    assert((f + 1) * one < pow2(53) * one) by (nonlinear_arith)
        requires
            f + 1 < pow2(53),
            one > 0,
    ;
    lemma_pow2_strictly_increases(1127, Width::Double.range());
    assert((f + 1) * s == f * s + s) by (nonlinear_arith);
    let m = whole * s;
    lemma_integer_is_exact(Width::Double, m);
    assert((whole * one) * unit == (m * one) * one) by (nonlinear_arith)
        requires
            unit == s * one,
            m == whole * s,
    ;
    lemma_rounding_of_representable(53, (whole * one) * unit, one, m, 1074);
    let k: int = if negative {
        -(whole as int)
    } else {
        whole as int
    };
    assert(k * s == if negative {
        -(m as int)
    } else {
        m as int
    }) by (nonlinear_arith)
        requires
            m == whole * s,
            k == if negative {
                -(whole as int)
            } else {
                whole as int
            },
    ;
    assert(m > 0 <==> whole > 0) by (nonlinear_arith)
        requires
            m == whole * s,
            s > 0,
    ;
    assert(whole == 0 && negative ==> q == 0) by {
        if whole == 0 && negative {
            lemma_mul_basics(one as int);
        }
    }
    assert(q == 0 ==> f == 0 && (negative ==> whole == 0)) by {
        if q == 0 && f > 0 {
            assert(f * one > 0) by (nonlinear_arith)
                requires
                    f > 0,
                    one > 0,
            ;
        }
        lemma_mul_basics(one as int);
    }
    // The multiple before the place lies before the beginning of the axis.
    lemma_marks(s, min, min, k - 1);
    assert(((k - 1) * s) * one == (k - 1) * unit) by (nonlinear_arith)
        requires
            unit == s * one,
    ;
    if negative {
        assert((k - 1) * unit < -a) by (nonlinear_arith)
            requires
                k == -(whole as int),
                whole >= f,
                a < (f + 1) * unit,
                unit > 0,
        ;
    } else if k == f {
        assert((k - 1) * unit < f * unit) by (nonlinear_arith)
            requires
                k == f,
                unit > 0,
        ;
    }
    k
}

/// A time axis is labelled at the multiples of the step that lie within it, before and after
/// the start, in order and each once, or at its two ends where there are none. A multiple lies
/// within the axis if it is one of those from `first_mark` on, before `marks_until`. The label
/// at the start has a minus sign where counting starts at negative zero.
pub proof fn lemma_time_labels_are_the_multiples_of_the_step(min: Real, max: Real)
    requires
        is_time_within(min, 49),
        is_time_within(max, 49),
    ensures
        ({
            let s = step_seconds(min, max);
            let first = first_mark(s, min);
            let end = marks_until(s, max);
            &&& forall|k: int| first <= k < end <==> #[trigger] is_on_axis(k, s, min, max)
            &&& time_labels(min, max) == Some(
                if first < end {
                    mark_labels(s, first, end, starts_at_minus_zero(s, min))
                } else {
                    seq![seconds(min), seconds(max)]
                },
            )
        }),
{
    let s = step_seconds(min, max);
    let minus_zero = starts_at_minus_zero(s, min);
    let k = lemma_first_place(s, min);
    if minus_zero {
        lemma_marks(s, min, max, 0);
        lemma_mul_basics(s as int);
        lemma_mul_basics(Width::Double.one() as int);
    }
    lemma_labels_from_multiple(k, s, minus_zero, min, max);
    assert forall|j: int|
        first_mark(s, min) <= j < marks_until(s, max) <==> #[trigger] is_on_axis(
            j,
            s,
            min,
            max,
        ) by {
        lemma_marks(s, min, max, j);
    }
}

/// A time axis that is labelled at all has at least one label.
pub proof fn lemma_time_axis_has_labels(min: Real, max: Real)
    ensures
        time_labels(min, max) matches Some(labels) ==> labels.len() > 0,
{
}

/// One second more stays within twice the time.
proof fn lemma_one_second_more(t: Real)
    requires
        is_time_within(t, 48),
    ensures
        is_time_within(t.plus(Width::Double, double(1)), 49),
{
    let one = Width::Double.one();
    lemma_small_integer(Width::Double, 1);
    lemma_mul_basics(one as int);
    lemma_mul_basics(pow2(1123) as int);
    lemma_pow2_unfold(1123);
    lemma_pow2_strictly_increases(1074, 1122);
    lemma_pow2_strictly_increases(1123, Width::Double.range());
    lemma_pow2_pos(53);
    let sum = t.signed() + one;
    if sum > 0 {
        lemma_round_at_most(53, sum as nat, 1, 1, 1123);
    } else if sum < 0 {
        lemma_round_at_most(53, (-sum) as nat, 1, 1, 1123);
    }
}

/// Zero, one second and one minute.
proof fn lemma_short_times()
    ensures
        is_time_within(Real::zero(), 49),
        is_time_within(double(1), 49),
        is_time_within(double(60), 49),
{
    let one = Width::Double.one();
    lemma_small_integer(Width::Double, 1);
    lemma_small_integer(Width::Double, 60);
    lemma2_to64();
    lemma_pow2_adds(1074, 6);
    lemma_pow2_strictly_increases(1080, 1123);
    lemma_pow2_pos(1123);
}

/// The time axis of a session that lasts less than two to the 48 seconds can be labelled.
proof fn lemma_session_range(data: Seq<LogEntry>)
    requires
        forall|i: int| 0 <= i < data.len() ==> is_time_within((#[trigger] data[i]).timestamp@, 48),
    ensures
        is_time_within(session_range(percentage_curve(data)).0, 49),
        is_time_within(session_range(percentage_curve(data)).1, 49),
{
    lemma_short_times();
    if data.len() > 0 {
        let curve = percentage_curve(data);
        assert(curve[0].0 == data[0].timestamp@);
        assert(curve.last().0 == data[data.len() - 1].timestamp@);
        lemma_one_second_more(data[0].timestamp@);
        lemma_pow2_strictly_increases(1122, 1123);
    }
}

/// The dashboard can be drawn for every session of less than two to the 48 seconds, some nine
/// million years.
pub proof fn lemma_dashboard_can_be_drawn(data: Seq<LogEntry>)
    requires
        forall|i: int| 0 <= i < data.len() ==> is_time_within((#[trigger] data[i]).timestamp@, 48),
    ensures
        live_chart(data) is Some,
{
    lemma_session_range(data);
    let range = session_range(percentage_curve(data));
    lemma_time_axis_can_be_labelled(range.0, range.1);
}

/// Every recording of such a length can be plotted, in the static view and at every position of
/// the playback view.
pub proof fn lemma_recording_can_be_plotted(playback: Playback, entries: Seq<LogEntry>)
    requires
        !playback.static_view ==> playback.within(entries.len()),
        forall|i: int|
            0 <= i < entries.len() ==> is_time_within((#[trigger] entries[i]).timestamp@, 48),
    ensures
        plot_chart(playback, entries) is Some,
{
    lemma_session_range(entries);
    lemma_short_times();
    lemma_pow2_strictly_increases(1122, 1123);
    let t = entries[playback.position].timestamp@;
    let range = plot_range(playback, entries);
    lemma_time_axis_can_be_labelled(range.0, range.1);
}

/// The static view shows all data.
pub proof fn lemma_static_view_shows_all_data(playback: Playback, entries: Seq<LogEntry>)
    requires
        playback.static_view,
    ensures
        plot_chart(playback, entries) matches Some(chart) ==> {
            &&& chart.curves[0].points == percentage_curve(entries)
            &&& chart.curves[1].points == normalized(
                drain_rate_curve(entries),
                full_scale(drain_rate_curve(entries)),
            )
            &&& chart.curves[2].points == cpu_usage_curve(entries)
            &&& chart.curves[3].points == memory_usage_curve(entries)
        },
{
    assert(entries.take(entries.len() as int) =~= entries);
}

/// The static view shows the same at every position.
pub proof fn lemma_static_view_ignores_the_position(
    playback: Playback,
    position: int,
    entries: Seq<LogEntry>,
)
    requires
        playback.static_view,
    ensures
        ({
            let moved = Playback { position, ..playback };
            &&& playback_line(moved, entries.len()) == playback_line(playback, entries.len())
            &&& values_line(moved, entries) == values_line(playback, entries)
            &&& plot_chart(moved, entries) == plot_chart(playback, entries)
        }),
{
}

/// The static view of an empty recording is an empty chart of one minute.
pub proof fn lemma_empty_recording_is_an_empty_minute(playback: Playback)
    requires
        playback.static_view,
    ensures
        plot_chart(playback, Seq::empty()) matches Some(chart) && {
            &&& chart.x_axis.min == Real::zero()
            &&& chart.x_axis.max == double(60)
            &&& forall|i: int| 0 <= i < 4 ==> (#[trigger] chart.curves[i]).points.len() == 0
        },
{
    lemma_recording_can_be_plotted(playback, Seq::empty());
}

/// In the playback view the chart grows with the position: what was drawn before stays.
pub proof fn lemma_playback_chart_grows(
    earlier: Playback,
    later: Playback,
    entries: Seq<LogEntry>,
    curve: int,
)
    requires
        !earlier.static_view,
        !later.static_view,
        later.within(entries.len()),
        0 <= earlier.position <= later.position,
        0 <= curve < 4,
        plot_chart(earlier, entries) is Some,
        plot_chart(later, entries) is Some,
    ensures
        ({
            let before = plot_chart(earlier, entries)->0.curves[curve].points;
            let after = plot_chart(later, entries)->0.curves[curve].points;
            &&& before.len() == earlier.position + 1
            &&& after.len() == later.position + 1
            &&& before.is_prefix_of(after)
        }),
{
    let some = entries.take(earlier.position + 1);
    let more = entries.take(later.position + 1);
    let full = full_scale(drain_rate_curve(entries));
    assert(percentage_curve(some).is_prefix_of(percentage_curve(more)));
    assert(drain_rate_curve(some).is_prefix_of(drain_rate_curve(more)));
    assert(normalized(drain_rate_curve(some), full).is_prefix_of(
        normalized(drain_rate_curve(more), full),
    ));
    assert(cpu_usage_curve(some).is_prefix_of(cpu_usage_curve(more)));
    assert(memory_usage_curve(some).is_prefix_of(memory_usage_curve(more)));
    assert(curve == 0 || curve == 1 || curve == 2 || curve == 3);
}

} // verus!
