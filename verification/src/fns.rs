//! Activation functions.
//!
//! `sigmoid` approximates the logistic function `1 / (1 + e^-x)` entirely in
//! fixed point: the argument is reduced by multiples of `ln 2`, the remaining
//! exponential is evaluated with an alternating series in Horner form, and
//! the quotient is taken with truncating integer division.  The exact integer
//! value computed is pinned by `sigmoid_spec`; the lemmas below give the
//! properties callers rely on, above all that the output lies strictly
//! between 0 and 1.
//!
//! `dsigmoid` is the derivative of the logistic function expressed through
//! the already-activated output `a`: it computes `a * (1 - a)` and is never
//! applied to a pre-activation value.

use crate::fixed::{fx_in_range, fx_mul_spec, fx_sub_spec, tdiv, Fix, FX_HALF, FX_LIMIT, FX_SCALE};
use vstd::arithmetic::div_mod::{
    lemma_div_is_ordered, lemma_div_is_ordered_by_denominator, lemma_div_multiples_vanish,
    lemma_div_nonincreasing, lemma_div_pos_is_pos, lemma_fundamental_div_mod,
    lemma_mod_division_less_than_divisor, lemma_multiply_divide_lt,
};
use vstd::arithmetic::mul::lemma_mul_inequality;
use vstd::arithmetic::power2::{lemma2_to64, lemma_pow2_pos, lemma_pow2_strictly_increases, pow2};
use vstd::prelude::*;

verus! {

/// `ln 2` in raw steps, rounded to the nearest step.
pub const FX_LN2: i64 = 45426;

/// The alternating series `1 - r(1 - r/2(1 - r/3(... (1 - r/6))))` for
/// `e^-r`, evaluated innermost-first with truncating fixed-point steps;
/// meaningful for `0 <= r < FX_LN2`.
pub open spec fn exp_series_spec(r: int) -> int {
    let scale = FX_SCALE as int;
    let c5 = scale - r / 6;
    let c4 = scale - (r / 5) * c5 / scale;
    let c3 = scale - (r / 4) * c4 / scale;
    let c2 = scale - (r / 3) * c3 / scale;
    let c1 = scale - (r / 2) * c2 / scale;
    scale - r * c1 / scale
}

/// `e^-x` in raw steps for `x >= 0`: series for the fractional part,
/// a power-of-two shift for the `ln 2` multiples.
pub open spec fn exp_neg_spec(x: int) -> int {
    if x / (FX_LN2 as int) >= 17 {
        0
    } else {
        exp_series_spec(x % (FX_LN2 as int)) / pow2((x / (FX_LN2 as int)) as nat) as int
    }
}

/// The logistic value `1 / (1 + e^-x)` in raw steps for `x >= 0`,
/// kept strictly below one unit.
pub open spec fn sigmoid_nonneg_spec(x: int) -> int {
    let s = (FX_SCALE * FX_SCALE) / ((FX_SCALE as int) + exp_neg_spec(x));
    if s >= FX_SCALE {
        FX_SCALE - 1
    } else {
        s
    }
}

/// The raw value `sigmoid` computes; negative arguments go through the
/// reflection `sigmoid(-x) = 1 - sigmoid(x)`, which holds here exactly.
#[verifier::opaque]
pub open spec fn sigmoid_spec(x: int) -> int {
    if x >= 0 {
        sigmoid_nonneg_spec(x)
    } else {
        (FX_SCALE as int) - sigmoid_nonneg_spec(-x)
    }
}

/// The raw value `dsigmoid` computes: `a * (1 - a)` on the activation `a`.
pub open spec fn dsigmoid_spec(a: int) -> int {
    fx_mul_spec(a, fx_sub_spec(FX_SCALE as int, a))
}

/// One truncating series step keeps its factor small: for `0 <= r < FX_LN2`,
/// `1 <= k`, and an inner factor within one unit, `(r/k)*inner/FX_SCALE`
/// lies between 0 and `r/k`.
proof fn lemma_series_step_bounds(r: int, k: int, inner: int)
    requires
        0 <= r < FX_LN2,
        1 <= k,
        0 <= inner <= FX_SCALE,
    ensures
        0 <= (r / k) * inner / (FX_SCALE as int) <= r / k,
        r / k <= r,
{
    let q = r / k;
    lemma_div_pos_is_pos(r, k);
    lemma_div_nonincreasing(r, k);
    assert(q * inner <= q * FX_SCALE) by (nonlinear_arith)
        requires
            0 <= q,
            0 <= inner <= FX_SCALE,
    ;
    assert(q * inner >= 0) by (nonlinear_arith)
        requires
            0 <= q,
            0 <= inner,
    ;
    lemma_div_is_ordered(q * inner, q * FX_SCALE, FX_SCALE as int);
    lemma_div_multiples_vanish(q, FX_SCALE as int);
    lemma_div_pos_is_pos(q * inner, FX_SCALE as int);
}

/// The series value stays within one unit of scale, and within `ln 2`
/// below it.
proof fn lemma_series_range(r: int)
    requires
        0 <= r < FX_LN2,
    ensures
        FX_SCALE - FX_LN2 <= exp_series_spec(r) <= FX_SCALE,
{
    let scale = FX_SCALE as int;
    let c5 = scale - r / 6;
    lemma_series_step_bounds(r, 6, scale);
    let c4 = scale - (r / 5) * c5 / scale;
    lemma_series_step_bounds(r, 5, c5);
    let c3 = scale - (r / 4) * c4 / scale;
    lemma_series_step_bounds(r, 4, c4);
    let c2 = scale - (r / 3) * c3 / scale;
    lemma_series_step_bounds(r, 3, c3);
    let c1 = scale - (r / 2) * c2 / scale;
    lemma_series_step_bounds(r, 2, c2);
    lemma_series_step_bounds(r, 1, c1);
    assert(r / 1 == r);
}

/// `e^-x` in raw steps lies between 0 and one unit for `x >= 0`.
proof fn lemma_exp_neg_range(x: int)
    requires
        x >= 0,
    ensures
        0 <= exp_neg_spec(x) <= FX_SCALE,
{
    let k = x / (FX_LN2 as int);
    lemma_div_pos_is_pos(x, FX_LN2 as int);
    if k < 17 {
        let r = x % (FX_LN2 as int);
        lemma_mod_division_less_than_divisor(x, FX_LN2 as int);
        lemma_series_range(r);
        let p = exp_series_spec(r);
        lemma_pow2_pos(k as nat);
        lemma_div_pos_is_pos(p, pow2(k as nat) as int);
        lemma_div_nonincreasing(p, pow2(k as nat) as int);
    }
}

/// For nonnegative arguments the logistic quotient lands in the upper half
/// of the unit interval, strictly below one.
proof fn lemma_sigmoid_nonneg_range(x: int)
    requires
        x >= 0,
    ensures
        FX_HALF <= sigmoid_nonneg_spec(x) <= FX_SCALE - 1,
{
    let e = exp_neg_spec(x);
    lemma_exp_neg_range(x);
    let num = FX_SCALE * FX_SCALE;
    let den = FX_SCALE + e;
    lemma_div_is_ordered_by_denominator(num as int, den as int, 2 * FX_SCALE);
    assert(num == 131072int * 32768);
    lemma_div_multiples_vanish(32768int, 131072int);
    assert(num / (2 * (FX_SCALE as int)) == FX_HALF);
    if e >= 1 {
        lemma_mul_inequality((FX_SCALE + 1) as int, den as int, FX_SCALE as int);
        lemma_multiply_divide_lt(num as int, den as int, FX_SCALE as int);
    }
}

/// The sigmoid approximation lies strictly inside the unit interval:
/// `0 < sigmoid_spec(x) < 1` in raw steps, for every argument.
pub proof fn lemma_sigmoid_in_unit_interval(x: int)
    ensures
        0 < sigmoid_spec(x) < FX_SCALE,
        fx_in_range(sigmoid_spec(x)),
{
    reveal(crate::fns::sigmoid_spec);
    if x >= 0 {
        lemma_sigmoid_nonneg_range(x);
    } else {
        lemma_sigmoid_nonneg_range(-x);
    }
}

/// At zero the approximation is exactly one half.
pub proof fn lemma_sigmoid_at_zero()
    ensures
        sigmoid_spec(0) == FX_HALF,
{
    reveal(crate::fns::sigmoid_spec);
    assert(0int / (FX_LN2 as int) == 0);
    assert(0int % (FX_LN2 as int) == 0);
    assert(exp_series_spec(0) == FX_SCALE);
    lemma2_to64();
    assert(pow2(0) == 1);
    assert(exp_neg_spec(0) == FX_SCALE as int / 1int);
    assert(FX_SCALE as int / 1int == FX_SCALE);
    assert(FX_SCALE * FX_SCALE == 131072int * 32768);
    lemma_div_multiples_vanish(32768int, 131072int);
    assert((FX_SCALE * FX_SCALE) / (2 * (FX_SCALE as int)) == FX_HALF);
}

/// Reflection: `sigmoid(-x) = 1 - sigmoid(x)` holds exactly in raw steps.
pub proof fn lemma_sigmoid_reflection(x: int)
    ensures
        sigmoid_spec(-x) == FX_SCALE - sigmoid_spec(x),
{
    reveal(crate::fns::sigmoid_spec);
    if x == 0 {
        lemma_sigmoid_at_zero();
    }
}

/// On an activation produced by `sigmoid`, `dsigmoid` is exactly
/// `a * (1 - a)` with no saturation in the subtraction.
pub proof fn lemma_dsigmoid_on_activation(x: int)
    ensures
        dsigmoid_spec(sigmoid_spec(x)) == fx_mul_spec(
            sigmoid_spec(x),
            FX_SCALE - sigmoid_spec(x),
        ),
{
    lemma_sigmoid_in_unit_interval(x);
}

/// Truncating machine division agrees with Euclidean division on
/// nonnegative operands.
proof fn lemma_tdiv_nonneg(x: int, d: int)
    requires
        x >= 0,
        d > 0,
    ensures
        tdiv(x, d) == x / d,
{
}

/// The series in executable form.
fn exp_series(r: i64) -> (p: i64)
    requires
        0 <= r < FX_LN2,
    ensures
        p as int == exp_series_spec(r as int),
        FX_SCALE - FX_LN2 <= p <= FX_SCALE,
{
    proof {
        lemma_series_range(r as int);
        lemma_series_step_bounds(r as int, 6, FX_SCALE as int);
        lemma_tdiv_nonneg(r as int, 6);
    }
    let q5: i64 = crate::fixed::div_trunc(r, 6);
    let c5: i64 = FX_SCALE - q5;
    proof {
        lemma_tdiv_nonneg(r as int, 5);
        lemma_series_step_bounds(r as int, 5, c5 as int);
    }
    let q4: i64 = crate::fixed::div_trunc(r, 5);
    let m4: i64 = q4 * c5;
    proof {
        lemma_tdiv_nonneg(m4 as int, FX_SCALE as int);
    }
    let c4: i64 = FX_SCALE - crate::fixed::div_trunc(m4, FX_SCALE);
    proof {
        lemma_tdiv_nonneg(r as int, 4);
        lemma_series_step_bounds(r as int, 4, c4 as int);
    }
    let q3: i64 = crate::fixed::div_trunc(r, 4);
    let m3: i64 = q3 * c4;
    proof {
        lemma_tdiv_nonneg(m3 as int, FX_SCALE as int);
    }
    let c3: i64 = FX_SCALE - crate::fixed::div_trunc(m3, FX_SCALE);
    proof {
        lemma_tdiv_nonneg(r as int, 3);
        lemma_series_step_bounds(r as int, 3, c3 as int);
    }
    let q2: i64 = crate::fixed::div_trunc(r, 3);
    let m2: i64 = q2 * c3;
    proof {
        lemma_tdiv_nonneg(m2 as int, FX_SCALE as int);
    }
    let c2: i64 = FX_SCALE - crate::fixed::div_trunc(m2, FX_SCALE);
    proof {
        lemma_tdiv_nonneg(r as int, 2);
        lemma_series_step_bounds(r as int, 2, c2 as int);
    }
    let q1: i64 = crate::fixed::div_trunc(r, 2);
    let m1: i64 = q1 * c2;
    proof {
        lemma_tdiv_nonneg(m1 as int, FX_SCALE as int);
    }
    let c1: i64 = FX_SCALE - crate::fixed::div_trunc(m1, FX_SCALE);
    proof {
        lemma_series_step_bounds(r as int, 1, c1 as int);
        assert(r as int / 1 == r as int);
    }
    let m0: i64 = r * c1;
    proof {
        lemma_tdiv_nonneg(m0 as int, FX_SCALE as int);
    }
    FX_SCALE - crate::fixed::div_trunc(m0, FX_SCALE)
}

/// `e^-x` in executable form for nonnegative arguments.
fn exp_neg(x: i64) -> (e: i64)
    requires
        0 <= x <= FX_LIMIT,
    ensures
        e as int == exp_neg_spec(x as int),
        0 <= e <= FX_SCALE,
{
    proof {
        lemma_exp_neg_range(x as int);
        lemma_div_pos_is_pos(x as int, FX_LN2 as int);
        lemma_fundamental_div_mod(x as int, FX_LN2 as int);
        lemma_mod_division_less_than_divisor(x as int, FX_LN2 as int);
    }
    let k: i64 = crate::fixed::div_trunc(x, FX_LN2);
    proof {
        lemma_tdiv_nonneg(x as int, FX_LN2 as int);
    }
    if k >= 17 {
        return 0;
    }
    let r: i64 = x - k * FX_LN2;
    let p: i64 = exp_series(r);
    let mut d: i64 = 1;
    let mut i: i64 = 0;
    proof {
        lemma2_to64();
    }
    while i < k
        invariant
            0 <= i <= k < 17,
            d as int == pow2(i as nat),
            1 <= d <= 65536,
        decreases k - i,
    {
        proof {
            if i + 1 < 16 {
                lemma_pow2_strictly_increases((i + 1) as nat, 16);
            }
            lemma2_to64();
            assert(pow2((i + 1) as nat) == 2 * pow2(i as nat)) by {
                vstd::arithmetic::power2::lemma_pow2_unfold((i + 1) as nat);
            }
        }
        d = d * 2;
        i = i + 1;
    }
    proof {
        lemma_tdiv_nonneg(p as int, d as int);
        lemma_div_pos_is_pos(p as int, d as int);
        lemma_div_nonincreasing(p as int, d as int);
    }
    crate::fixed::div_trunc(p, d)
}

/// The logistic quotient in executable form for nonnegative arguments.
fn sigmoid_nonneg(x: i64) -> (s: i64)
    requires
        0 <= x <= FX_LIMIT,
    ensures
        s as int == sigmoid_nonneg_spec(x as int),
        FX_HALF <= s <= FX_SCALE - 1,
{
    proof {
        lemma_sigmoid_nonneg_range(x as int);
    }
    let e: i64 = exp_neg(x);
    let s0: i64 = crate::fixed::div_trunc(FX_SCALE * FX_SCALE, FX_SCALE + e);
    proof {
        lemma_tdiv_nonneg((FX_SCALE * FX_SCALE) as int, FX_SCALE as int + e as int);
    }
    if s0 >= FX_SCALE {
        FX_SCALE - 1
    } else {
        s0
    }
}

/// The logistic activation on a fixed-point value, strictly inside (0, 1).
pub fn sigmoid(x: Fix) -> (r: Fix)
    requires
        x.wf(),
    ensures
        r@ == sigmoid_spec(x@),
        0 < r@ < FX_SCALE,
        r.wf(),
{
    proof {
        reveal(crate::fns::sigmoid_spec);
        lemma_sigmoid_in_unit_interval(x@);
    }
    let raw: i64 = x.raw();
    if raw >= 0 {
        let s = sigmoid_nonneg(raw);
        Fix::from_raw(s)
    } else {
        let s = sigmoid_nonneg(-raw);
        Fix::from_raw(FX_SCALE - s)
    }
}

/// The logistic derivative expressed through the activation:
/// `dsigmoid(a) = a * (1 - a)`.
pub fn dsigmoid(a: Fix) -> (r: Fix)
    requires
        a.wf(),
    ensures
        r@ == dsigmoid_spec(a@),
        r.wf(),
{
    a.mul(Fix::one().sub(a))
}

} // verus!
