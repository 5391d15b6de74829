use battery_drainer::number::{Double, Single};

fn d(x: f64) -> Double {
    Double::from_bits(x.to_bits())
}

fn s(x: f32) -> Single {
    Single::from_bits(x.to_bits())
}

fn same_d(ours: Double, theirs: f64) -> bool {
    let ours = f64::from_bits(ours.to_bits());
    if theirs.is_nan() {
        ours.is_nan()
    } else {
        ours.to_bits() == theirs.to_bits()
    }
}

fn same_s(ours: Single, theirs: f32) -> bool {
    let ours = f32::from_bits(ours.to_bits());
    if theirs.is_nan() {
        ours.is_nan()
    } else {
        ours.to_bits() == theirs.to_bits()
    }
}

/// A fixed stream of bit patterns of all kinds.
fn next(state: &mut u64) -> u64 {
    *state = state
        .wrapping_mul(6364136223846793005)
        .wrapping_add(1442695040888963407);
    let x = *state;
    (x >> 33) ^ (x << 31) ^ (x >> 7)
}

fn doubles() -> Vec<f64> {
    let mut values = vec![
        0.0,
        -0.0,
        1.0,
        -1.0,
        0.5,
        1.5,
        2.5,
        0.1,
        0.3,
        60.0,
        100.0,
        1e300,
        -1e300,
        f64::MAX,
        f64::MIN,
        f64::MIN_POSITIVE,
        f64::MIN_POSITIVE / 2.0,
        5e-324,
        -5e-324,
        f64::INFINITY,
        f64::NEG_INFINITY,
        f64::NAN,
        9007199254740991.0,
        9007199254740992.0,
        9007199254740993.0,
        1.8446744073709552e19,
        3.4028235677973366e38,
        3.5e38,
        1e-45,
        7e-46,
        f64::EPSILON,
        1.0 + f64::EPSILON,
        1.0 - f64::EPSILON / 2.0,
    ];
    let mut state = 7;
    for _ in 0..60 {
        values.push(f64::from_bits(next(&mut state)));
        let exponent = 1000 + next(&mut state) % 80;
        let fraction = next(&mut state) % (1 << 52);
        values.push(f64::from_bits((exponent << 52) | fraction));
        values.push(-f64::from_bits(((1023 + next(&mut state) % 3) << 52) | fraction));
        values.push(f64::from_bits(fraction >> (next(&mut state) % 50)));
    }
    values
}

fn singles() -> Vec<f32> {
    let mut values: Vec<f32> = doubles().iter().map(|x| *x as f32).collect();
    let mut state = 11;
    for _ in 0..60 {
        values.push(f32::from_bits(next(&mut state) as u32));
        let exponent = (115 + next(&mut state) % 25) as u32;
        let fraction = (next(&mut state) % (1 << 23)) as u32;
        values.push(f32::from_bits((exponent << 23) | fraction));
    }
    values
}

#[test]
fn double_arithmetic_is_correctly_rounded() {
    let values = doubles();
    for a in &values {
        for b in &values {
            let (x, y) = (d(*a), d(*b));
            assert!(same_d(x.plus(y), a + b), "{} + {}", a, b);
            assert!(same_d(x.minus(y), a - b), "{} - {}", a, b);
            assert!(same_d(x.times(y), a * b), "{} * {}", a, b);
            assert!(same_d(x.over(y), a / b), "{} / {}", a, b);
        }
    }
}

#[test]
fn single_arithmetic_is_correctly_rounded() {
    let values = singles();
    for a in &values {
        for b in &values {
            let (x, y) = (s(*a), s(*b));
            assert!(same_s(x.plus(y), a + b), "{} + {}", a, b);
            assert!(same_s(x.minus(y), a - b), "{} - {}", a, b);
            assert!(same_s(x.over(y), a / b), "{} / {}", a, b);
        }
    }
}

#[test]
fn numbers_compare_as_their_values() {
    let values = doubles();
    for a in &values {
        for b in &values {
            let (x, y) = (d(*a), d(*b));
            assert_eq!(x.lt(y), a < b);
            assert_eq!(x.le(y), a <= b);
            if *a != *b {
                assert!(same_d(x.larger(y), a.max(*b)), "max {} {}", a, b);
                assert!(same_d(x.smaller(y), a.min(*b)), "min {} {}", a, b);
            }
        }
    }
    let values = singles();
    for a in &values {
        for b in &values {
            let (x, y) = (s(*a), s(*b));
            assert_eq!(x.lt(y), a < b);
            if *a != *b {
                assert!(same_s(x.larger(y), a.max(*b)), "max {} {}", a, b);
            }
        }
    }
}

#[test]
fn conversions_round_to_nearest() {
    for a in &doubles() {
        assert!(same_s(d(*a).narrowed(), *a as f32), "{}", a);
        assert!(same_d(d(*a).floor(), a.floor()), "{}", a);
        assert_eq!(d(*a).clamped_integer(), *a as u64, "{}", a);
    }
    for a in &singles() {
        assert!(same_d(s(*a).widened(), *a as f64), "{}", a);
    }
    let mut state = 3;
    for shift in 0..64 {
        let n = next(&mut state) >> shift;
        assert!(same_d(Double::from_integer(n), n as f64), "{}", n);
        assert!(same_s(Single::from_integer(n), n as f32), "{}", n);
    }
    assert!(same_s(Single::from_ratio(1, 100), 0.01));
    assert!(same_d(Double::from_ratio(1, 4), 0.25));
    assert!(same_d(Double::zero(), 0.0));
    assert!(same_d(Double::minus_zero(), -0.0));
    assert!(same_s(Single::zero(), 0.0));
    assert!(same_s(Single::minus_zero(), -0.0));
}

#[test]
fn fixed_notation_rounds_the_exact_value() {
    for a in &doubles() {
        assert_eq!(d(*a).fixed(0), format!("{:.0}", a));
        assert_eq!(d(*a).fixed(1), format!("{:.1}", a));
        assert_eq!(d(*a).fixed(2), format!("{:.2}", a));
    }
    for a in &singles() {
        assert_eq!(s(*a).fixed(0), format!("{:.0}", a));
        assert_eq!(s(*a).fixed(1), format!("{:.1}", a));
        assert_eq!(s(*a).fixed(2), format!("{:.2}", a));
    }
    // Halves go to the even neighbour, the sign of zero is kept.
    assert_eq!(d(0.5).fixed(0), "0");
    assert_eq!(d(1.5).fixed(0), "2");
    assert_eq!(d(2.5).fixed(0), "2");
    assert_eq!(d(0.25).fixed(1), "0.2");
    assert_eq!(d(0.125).fixed(2), "0.12");
    assert_eq!(d(0.375).fixed(2), "0.38");
    assert_eq!(d(-0.04).fixed(1), "-0.0");
    assert_eq!(d(f64::NAN).fixed(1), "NaN");
    assert_eq!(d(f64::NEG_INFINITY).fixed(1), "-inf");
    assert_eq!(d(f64::INFINITY).fixed(2), "inf");
}
