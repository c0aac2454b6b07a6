use aiplay::fixed::{Fix, FX_HALF, FX_LIMIT, FX_SCALE};
use aiplay::fns::{dsigmoid, sigmoid};

fn fx(i: i64) -> Fix {
    Fix::from_int(i)
}

#[test]
fn scalar_constructors() {
    assert_eq!(Fix::zero().raw(), 0);
    assert_eq!(Fix::one().raw(), FX_SCALE);
    assert_eq!(Fix::half().raw(), FX_HALF);
    assert_eq!(Fix::two().raw(), 2 * FX_SCALE);
    assert_eq!(fx(3).raw(), 3 * FX_SCALE);
    assert_eq!(fx(-3).raw(), -3 * FX_SCALE);
}

#[test]
fn scalar_saturates_at_limits() {
    assert_eq!(fx(5000).raw(), FX_LIMIT);
    assert_eq!(fx(-5000).raw(), -FX_LIMIT);
    assert_eq!(Fix::from_raw(i64::MAX / 2).raw(), FX_LIMIT);
    assert_eq!(Fix::from_raw(-i64::MAX / 2).raw(), -FX_LIMIT);
    let big = Fix::from_raw(FX_LIMIT);
    assert_eq!(big.add(big).raw(), FX_LIMIT);
    assert_eq!(big.sub(big.add(big).add(big)).raw(), -FX_LIMIT + FX_LIMIT);
    assert_eq!(big.mul(big).raw(), FX_LIMIT);
}

#[test]
fn scalar_sign_test() {
    assert!(fx(1).is_positive());
    assert!(!Fix::zero().is_positive());
    assert!(!fx(-1).is_positive());
}

#[test]
fn scalar_arithmetic_is_exact_on_halves() {
    let h = Fix::half();
    assert_eq!(h.add(h), Fix::one());
    assert_eq!(Fix::one().sub(h), h);
    assert_eq!(h.mul(h).raw(), FX_HALF / 2);
    assert_eq!(Fix::one().div(Fix::two()), h);
    assert_eq!(fx(6).div_count(3), fx(2));
}

#[test]
fn scalar_multiplication_rounds_toward_zero() {
    // -3 raw steps halved is -1.5 steps; rounding toward zero gives -1.
    let tiny_neg = Fix::from_raw(-3);
    assert_eq!(tiny_neg.mul(Fix::half()).raw(), -1);
    let tiny_pos = Fix::from_raw(3);
    assert_eq!(tiny_pos.mul(Fix::half()).raw(), 1);
}

#[test]
fn sigmoid_stays_strictly_inside_unit_interval() {
    let samples = [
        -FX_LIMIT,
        -30 * FX_SCALE,
        -FX_SCALE,
        -1,
        0,
        1,
        FX_SCALE,
        30 * FX_SCALE,
        FX_LIMIT,
    ];
    for raw in samples {
        let s = sigmoid(Fix::from_raw(raw));
        assert!(s.raw() > 0);
        assert!(s.raw() < FX_SCALE);
    }
}

#[test]
fn sigmoid_at_zero_is_one_half() {
    assert_eq!(sigmoid(Fix::zero()), Fix::half());
}

#[test]
fn sigmoid_of_one_golden_value() {
    assert_eq!(sigmoid(Fix::one()).raw(), 47910);
}

#[test]
fn sigmoid_is_monotone_on_samples() {
    let samples = [-FX_LIMIT, -3 * FX_SCALE, -FX_SCALE, 0, FX_SCALE, 3 * FX_SCALE, FX_LIMIT];
    let mut prev = sigmoid(Fix::from_raw(samples[0]));
    for raw in &samples[1..] {
        let cur = sigmoid(Fix::from_raw(*raw));
        assert!(prev.raw() <= cur.raw());
        prev = cur;
    }
}

#[test]
fn sigmoid_reflects_around_one_half() {
    let samples = [0, 1, 12345, FX_SCALE, 7 * FX_SCALE];
    for raw in samples {
        let pos = sigmoid(Fix::from_raw(raw));
        let neg = sigmoid(Fix::from_raw(-raw));
        assert_eq!(neg.raw(), FX_SCALE - pos.raw());
    }
}

#[test]
fn sigmoid_approximates_the_logistic_function() {
    // Reference values of 1/(1+e^-x) at a few points, in raw steps.
    let cases = [
        (FX_SCALE, 0.7310585786_f64),
        (2 * FX_SCALE, 0.8807970779_f64),
        (-FX_SCALE, 0.2689414214_f64),
        (FX_HALF, 0.6224593312_f64),
    ];
    for (raw, expected) in cases {
        let got = sigmoid(Fix::from_raw(raw)).raw() as f64 / FX_SCALE as f64;
        assert!((got - expected).abs() < 0.001);
    }
}

#[test]
fn dsigmoid_matches_a_times_one_minus_a() {
    let samples = [1, 100, FX_HALF, FX_SCALE - 1];
    for raw in samples {
        let a = Fix::from_raw(raw);
        assert_eq!(dsigmoid(a), a.mul(Fix::one().sub(a)));
    }
    // On an activation produced by sigmoid itself.
    let a = sigmoid(Fix::one());
    assert_eq!(dsigmoid(a), a.mul(Fix::one().sub(a)));
}
