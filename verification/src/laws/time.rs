//! Times as they are shown, and the time that is left.

use vstd::arithmetic::div_mod::*;
use vstd::arithmetic::mul::*;
use vstd::arithmetic::power2::*;
use vstd::prelude::*;

use crate::log::{hms, is_drain, time_remaining};
use crate::number::closeness::{
    close, lemma_close_multiples, lemma_close_parts, lemma_close_to_closer, lemma_closer,
    lemma_rounding_is_close,
};
use crate::number::laws::{
    lemma_integer_is_exact, lemma_rounding_of_representable, lemma_small_integer,
};
use crate::number::rounding::{lemma_round_at_least, lemma_round_at_most, lemma_round_zero};
use crate::number::value::{round, Real, Width};
use crate::text::{decimal, padded};

use super::rate::lemma_drain_is_above_a_hundredth;

verus! {

/// Hours, minutes and seconds as they are written.
pub open spec fn hms_text(h: nat, m: nat, s: nat) -> Seq<char> {
    decimal(h) + "h "@ + padded(decimal(m), '0', 2) + "m "@ + padded(decimal(s), '0', 2) + "s"@
}

/// A time of `h` hours, `m` minutes, `s` seconds and less than one second more is shown as such.
pub proof fn lemma_times_are_shown_in_hours_minutes_seconds(x: Real, h: nat, m: nat, s: nat)
    requires
        m < 60,
        s < 60,
        3600 * h + 60 * m + s <= u64::MAX,
        x matches Real::Finite { negative, steps } && !negative && (3600 * h + 60 * m + s)
            * Width::Double.one() <= steps < (3600 * h + 60 * m + s + 1) * Width::Double.one(),
    ensures
        hms(x) == hms_text(h, m, s),
{
    let whole = 3600 * h + 60 * m + s;
    let one = Width::Double.one();
    let steps = x->steps;
    lemma_pow2_pos(1074);
    assert((whole + 1) * one == whole * one + one) by (nonlinear_arith);
    lemma_fundamental_div_mod_converse(
        steps as int,
        one as int,
        whole as int,
        steps - whole * one,
    );
    assert(whole / 3600 == h && whole % 3600 == 60 * m + s);
    assert(whole % 3600 / 60 == m);
    assert(whole % 60 == s);
}

/// More than the seconds that 64 bits hold are shown as that many.
pub proof fn lemma_longest_time(x: Real)
    requires
        match x {
            Real::Nan => false,
            Real::Infinite { negative } => !negative,
            Real::Finite { negative,
                steps } => !negative && u64::MAX * Width::Double.one() <= steps,
        },
    ensures
        hms(x) == hms_text(5124095576030431, 0, 15),
{
    let one = Width::Double.one();
    lemma_pow2_pos(1074);
    if let Real::Finite { steps, .. } = x {
        lemma_div_is_ordered(u64::MAX * one, steps as int, one as int);
        lemma_div_multiples_vanish(u64::MAX as int, one as int);
        lemma_mul_is_commutative(u64::MAX as int, one as int);
    }
}

/// The time that is left, times the rate, is sixty times the charge, up to rounding.
pub proof fn lemma_time_remaining_times_rate_is_the_charge(charge: nat, rate: nat) -> (x: Real)
    requires
        pow2(40) <= charge <= pow2(160),
        rate <= pow2(165),
        is_drain(Real::Finite { negative: false, steps: rate }),
    ensures
        time_remaining(
            Real::Finite { negative: false, steps: charge },
            Real::Finite { negative: false, steps: rate },
        ) == hms(x),
        x matches Real::Finite { negative, steps } && !negative && close(
            steps * rate,
            (60 * charge) * Width::Double.one(),
            21,
        ),
{
    let one = Width::Double.one();
    let small = Width::Single.one();
    let e = pow2(925);
    let q = round(24, charge * small, rate);
    let wide = q * e;
    let p = round(53, wide * (60 * one), one);
    lemma_small_integer(Width::Double, 60);
    lemma2_to64();
    lemma_pow2_pos(24);
    lemma_pow2_pos(53);
    lemma_pow2_pos(925);
    lemma_pow2_pos(1074);
    lemma_pow2_adds(149, 925);
    lemma_pow2_adds(40, 149);
    lemma_pow2_adds(23, 165);
    lemma_pow2_strictly_increases(188, 189);
    assert(rate > 0);
    // The minutes, in single precision.
    assert(pow2(23) * rate <= charge * small) by (nonlinear_arith)
        requires
            rate <= pow2(165),
            pow2(188) == pow2(23) * pow2(165),
            pow2(188) <= pow2(189),
            pow2(189) == pow2(40) * small,
            pow2(40) <= charge,
            small >= 0,
    ;
    lemma_rounding_is_close(24, charge * small, rate);
    lemma_mul_basics(pow2(23) as int);
    lemma_mul_basics(pow2(0) as int);
    lemma_round_at_least(24, charge * small, rate, pow2(23), 0);
    // They are finite, as no rate below a hundredth counts.
    lemma_rate_is_not_tiny(rate);
    lemma_pow2_adds(160, 7);
    lemma_pow2_adds(167, 24);
    assert(charge * small <= (1 * pow2(167)) * rate) by (nonlinear_arith)
        requires
            charge <= pow2(160),
            small <= 128 * rate,
            pow2(167) == pow2(160) * 128,
    ;
    lemma_round_at_most(24, charge * small, rate, 1, 167);
    lemma_pow2_strictly_increases(167, 277);
    // The seconds, in double precision.
    lemma_pow2_strictly_increases(52, 925);
    assert(pow2(52) * one <= wide * (60 * one)) by (nonlinear_arith)
        requires
            wide == q * e,
            q >= 1,
            e >= pow2(52),
            one >= 0,
    ;
    lemma_rounding_is_close(53, wide * (60 * one), one);
    lemma_pow2_adds(167, 925);
    lemma_pow2_adds(1092, 6);
    assert(wide * (60 * one) <= (1 * pow2(1098)) * one) by (nonlinear_arith)
        requires
            wide == q * e,
            q <= pow2(167),
            pow2(1092) == pow2(167) * e,
            pow2(1098) == pow2(1092) * 64,
            one >= 0,
            e >= 0,
    ;
    lemma_round_at_most(53, wide * (60 * one), one, 1, 1098);
    lemma_pow2_strictly_increases(1098, 2098);
    let x = Real::Finite { negative: false, steps: p };
    // Both roundings together.
    assert(p * one == one * p && wide * (60 * one) == one * (60 * wide)) by (nonlinear_arith);
    lemma_close_parts(p, 60 * wide, one, 52);
    lemma_close_multiples(p, 60 * wide, rate, 52);
    lemma_close_multiples(q * rate, charge * small, 60 * e, 23);
    let a0 = p * rate;
    let a1 = (60 * wide) * rate;
    let a2 = (60 * charge) * one;
    assert(rate * p == a0 && rate * (60 * wide) == a1 && (60 * e) * (q * rate) == a1 && (60 * e) * (
    charge * small) == a2) by (nonlinear_arith)
        requires
            a0 == p * rate,
            a1 == (60 * wide) * rate,
            a2 == (60 * charge) * one,
            wide == q * e,
            one == small * e,
    ;
    lemma_closer(a1, a0, 52, 24);
    lemma_close_to_closer(a2, a1, a0, 23);
    lemma_closer(a0, a2, 22, 21);
    x
}

/// A rate that counts as drain is not below one part in 128.
proof fn lemma_rate_is_not_tiny(rate: nat)
    requires
        is_drain(Real::Finite { negative: false, steps: rate }),
    ensures
        Width::Single.one() <= 128 * rate,
{
    lemma2_to64();
    lemma_pow2_adds(7, 142);
    lemma_pow2_pos(142);
    lemma_mul_basics(pow2(142) as int);
    // One part in 128 is itself no drain.
    lemma_drain_is_above_a_hundredth(1, 142);
}

/// A whole number of minutes that is left is shown as such.
pub proof fn lemma_time_remaining_in_whole_minutes(minutes: nat, rate: nat)
    requires
        0 < rate,
        rate * minutes <= 0x10_0000,
        rate <= 0x10_0000,
        minutes <= 0x10_0000,
    ensures
        time_remaining(
            Real::integer(Width::Single, rate * minutes),
            Real::integer(Width::Single, rate),
        ) == hms_text(minutes / 60, minutes % 60, 0),
{
    let one = Width::Double.one();
    let small = Width::Single.one();
    let e = pow2(925);
    lemma_small_integer(Width::Single, rate * minutes);
    lemma_small_integer(Width::Single, rate);
    lemma_small_integer(Width::Single, minutes);
    lemma_small_integer(Width::Double, 60);
    lemma2_to64();
    lemma_pow2_pos(149);
    lemma_pow2_pos(925);
    lemma_pow2_pos(1074);
    lemma_pow2_adds(149, 925);
    lemma_drain_is_above_a_hundredth(rate, 149);
    assert(small < 100 * (rate * small)) by (nonlinear_arith)
        requires
            rate >= 1,
            small > 0,
    ;
    let d = rate * small;
    lemma_mul_strictly_positive(rate as int, small as int);
    assert(((rate * minutes) * small) * small == (minutes * small) * d) by (nonlinear_arith)
        requires
            d == rate * small,
    ;
    lemma_rounding_of_representable(24, ((rate * minutes) * small) * small, d, minutes, 149);
    let wide = (minutes * small) * e;
    assert(wide == minutes * one) by (nonlinear_arith)
        requires
            wide == (minutes * small) * e,
            one == small * e,
    ;
    let secs = 60 * minutes;
    assert(wide * (60 * one) == (secs * one) * one) by (nonlinear_arith)
        requires
            wide == minutes * one,
            secs == 60 * minutes,
    ;
    lemma2_to64_rest();
    lemma_integer_is_exact(Width::Double, secs);
    lemma_rounding_of_representable(53, wide * (60 * one), one, secs, 1074);
    let x = Real::Finite { negative: false, steps: secs * one };
    assert((secs + 1) * one == secs * one + one) by (nonlinear_arith);
    assert(3600 * (minutes / 60) + 60 * (minutes % 60) + 0 == secs);
    lemma_times_are_shown_in_hours_minutes_seconds(x, minutes / 60, minutes % 60, 0);
}

/// Nothing is left of an empty battery.
pub proof fn lemma_nothing_remains_of_no_charge(rate: nat)
    requires
        is_drain(Real::Finite { negative: false, steps: rate }),
    ensures
        time_remaining(Real::zero(), Real::Finite { negative: false, steps: rate }) == hms_text(
            0,
            0,
            0,
        ),
{
    let one = Width::Double.one();
    lemma_small_integer(Width::Double, 60);
    lemma_pow2_pos(277);
    lemma_pow2_pos(2098);
    lemma_pow2_pos(1074);
    lemma_mul_basics(Width::Single.one() as int);
    lemma_mul_basics(pow2(925) as int);
    lemma_mul_basics((60 * one) as int);
    lemma_mul_basics(one as int);
    lemma_round_zero(24, rate);
    lemma_round_zero(53, one);
    lemma_times_are_shown_in_hours_minutes_seconds(Real::zero(), 0, 0, 0);
}

/// Without drain no time is shown, whatever the charge is.
pub proof fn lemma_no_time_without_drain(charge: Real, m: nat, k: nat)
    requires
        m <= pow2(24),
        100 * (m * pow2(k)) <= Width::Single.one(),
    ensures
        time_remaining(charge, Real::Finite { negative: false, steps: m * pow2(k) })
            == "Calculating..."@,
        time_remaining(charge, Real::Finite { negative: true, steps: m * pow2(k) })
            == "Calculating..."@,
        time_remaining(charge, Real::Nan) == "Calculating..."@,
{
    lemma_drain_is_above_a_hundredth(m, k);
}

} // verus!
