//! Saturating fixed-point scalars.
//!
//! Every quantity the training engine works with (weights, activations,
//! deltas, costs, learning rates) is a [`Fix`]: a signed value stored as an
//! integer count of steps of size `1/FX_SCALE`.  Arithmetic rounds toward
//! zero and saturates at `FX_LIMIT` steps in either direction, so all
//! operations are total and never overflow the underlying machine integer.

use vstd::prelude::*;

verus! {

/// Number of raw steps in one unit; the value `1.0` is stored as `FX_SCALE`.
pub const FX_SCALE: i64 = 65536;

/// The value `0.5` in raw steps.
pub const FX_HALF: i64 = 32768;

/// Largest raw magnitude a `Fix` may hold: 1024 units.
pub const FX_LIMIT: i64 = 67108864;

/// Raw values the arithmetic keeps itself inside.
pub open spec fn fx_in_range(x: int) -> bool {
    -FX_LIMIT <= x <= FX_LIMIT
}

/// Saturation to the representable band.
pub open spec fn fx_clamp(x: int) -> int {
    if x > FX_LIMIT {
        FX_LIMIT as int
    } else if x < -FX_LIMIT {
        -FX_LIMIT as int
    } else {
        x
    }
}

pub open spec fn iabs(x: int) -> int {
    if x >= 0 {
        x
    } else {
        -x
    }
}

/// Integer division rounding toward zero, as machine division does;
/// meaningful only for `d != 0`.
pub open spec fn tdiv(x: int, d: int) -> int {
    let q = iabs(x) / iabs(d);
    if (x >= 0) == (d >= 0) {
        q
    } else {
        -q
    }
}

/// Raw-step sum with saturation.
pub open spec fn fx_add_spec(a: int, b: int) -> int {
    fx_clamp(a + b)
}

/// Raw-step difference with saturation.
pub open spec fn fx_sub_spec(a: int, b: int) -> int {
    fx_clamp(a - b)
}

/// Raw-step product: the exact product is rescaled by `FX_SCALE`,
/// rounded toward zero, then saturated.
pub open spec fn fx_mul_spec(a: int, b: int) -> int {
    fx_clamp(tdiv(a * b, FX_SCALE as int))
}

/// Raw-step quotient: the dividend is prescaled by `FX_SCALE`,
/// divided rounding toward zero, then saturated; meaningful only for `b != 0`.
pub open spec fn fx_div_spec(a: int, b: int) -> int {
    fx_clamp(tdiv(a * FX_SCALE, b))
}

/// Division of a raw value by a positive example count, rounding toward zero.
pub open spec fn fx_div_count_spec(a: int, n: int) -> int {
    tdiv(a, n)
}

/// The unique scalar holding a given raw step count; the specification-level
/// inverse of the view.
pub closed spec fn spec_fix(raw: int) -> Fix {
    Fix { raw: raw as i64 }
}

/// Every scalar is recovered from its own view.
pub broadcast proof fn lemma_spec_fix_roundtrip(x: Fix)
    ensures
        #[trigger] spec_fix(x@) == x,
{
}

/// A saturating fixed-point number: `raw` counts steps of `1/FX_SCALE`.
#[derive(Clone, Copy, Debug, PartialEq, Eq, Structural)]
pub struct Fix {
    raw: i64,
}

impl View for Fix {
    type V = int;

    closed spec fn view(&self) -> int {
        self.raw as int
    }
}

impl Fix {
    /// Validity: the raw value lies in the saturation band.
    pub open spec fn wf(self) -> bool {
        fx_in_range(self@)
    }

    /// Wraps a raw step count, saturating it into range.
    pub fn from_raw(raw: i64) -> (r: Fix)
        ensures
            r@ == fx_clamp(raw as int),
            r.wf(),
    {
        if raw > FX_LIMIT {
            Fix { raw: FX_LIMIT }
        } else if raw < -FX_LIMIT {
            Fix { raw: -FX_LIMIT }
        } else {
            Fix { raw }
        }
    }

    /// The whole number `i`, saturated into range.
    pub fn from_int(i: i64) -> (r: Fix)
        ensures
            r@ == fx_clamp(i * FX_SCALE),
            r.wf(),
    {
        if i >= 1024 {
            Fix { raw: FX_LIMIT }
        } else if i <= -1024 {
            proof {
                assert(i * FX_SCALE <= -FX_LIMIT) by (nonlinear_arith)
                    requires
                        i <= -1024,
                ;
            }
            Fix { raw: -FX_LIMIT }
        } else {
            proof {
                assert(-FX_LIMIT < i * FX_SCALE < FX_LIMIT) by (nonlinear_arith)
                    requires
                        -1024 < i < 1024,
                ;
            }
            Fix { raw: i * FX_SCALE }
        }
    }

    pub fn zero() -> (r: Fix)
        ensures
            r@ == 0,
            r.wf(),
    {
        Fix { raw: 0 }
    }

    pub fn one() -> (r: Fix)
        ensures
            r@ == FX_SCALE as int,
            r.wf(),
    {
        Fix { raw: FX_SCALE }
    }

    pub fn two() -> (r: Fix)
        ensures
            r@ == 2 * FX_SCALE,
            r.wf(),
    {
        Fix { raw: 2 * FX_SCALE }
    }

    pub fn half() -> (r: Fix)
        ensures
            r@ == FX_HALF as int,
            r.wf(),
    {
        Fix { raw: FX_HALF }
    }

    /// The raw step count.
    pub fn raw(self) -> (r: i64)
        ensures
            r as int == self@,
    {
        self.raw
    }

    pub fn is_positive(self) -> (r: bool)
        ensures
            r <==> self@ > 0,
    {
        self.raw > 0
    }

    /// Saturating sum.
    pub fn add(self, other: Fix) -> (r: Fix)
        requires
            self.wf(),
            other.wf(),
        ensures
            r@ == fx_add_spec(self@, other@),
            r.wf(),
    {
        Fix::from_raw(self.raw + other.raw)
    }

    /// Saturating difference.
    pub fn sub(self, other: Fix) -> (r: Fix)
        requires
            self.wf(),
            other.wf(),
        ensures
            r@ == fx_sub_spec(self@, other@),
            r.wf(),
    {
        Fix::from_raw(self.raw - other.raw)
    }

    /// Saturating product, rounded toward zero.
    pub fn mul(self, other: Fix) -> (r: Fix)
        requires
            self.wf(),
            other.wf(),
        ensures
            r@ == fx_mul_spec(self@, other@),
            r.wf(),
    {
        proof {
            assert(iabs(self@ * other@) <= FX_LIMIT * FX_LIMIT) by (nonlinear_arith)
                requires
                    fx_in_range(self@),
                    fx_in_range(other@),
            ;
        }
        let a: i64 = self.raw;
        let b: i64 = other.raw;
        let p: i64 = a * b;
        let q: i64 = div_trunc(p, FX_SCALE);
        Fix::from_raw(q)
    }

    /// Saturating quotient, rounded toward zero.
    pub fn div(self, other: Fix) -> (r: Fix)
        requires
            self.wf(),
            other.wf(),
            other@ != 0,
        ensures
            r@ == fx_div_spec(self@, other@),
            r.wf(),
    {
        proof {
            assert(iabs(self@ * FX_SCALE) <= FX_LIMIT * FX_SCALE) by (nonlinear_arith)
                requires
                    fx_in_range(self@),
            ;
        }
        let p: i64 = self.raw * FX_SCALE;
        let q: i64 = div_trunc(p, other.raw);
        Fix::from_raw(q)
    }

    /// Quotient by a positive example count, rounded toward zero.
    pub fn div_count(self, n: usize) -> (r: Fix)
        requires
            self.wf(),
            n > 0,
        ensures
            r@ == fx_div_count_spec(self@, n as int),
            r.wf(),
    {
        if n > FX_LIMIT as usize {
            proof {
                lemma_small_quotient_is_zero(self@, n as int);
            }
            Fix::from_raw(0)
        } else {
            proof {
                lemma_tdiv_shrinks(self@, n as int);
            }
            Fix::from_raw(div_trunc(self.raw, n as i64))
        }
    }
}

/// Machine division rounds toward zero, matching `tdiv`.
pub(crate) fn div_trunc(x: i64, d: i64) -> (q: i64)
    requires
        d != 0,
        x != i64::MIN,
        d != -1 || x != i64::MIN,
    ensures
        q as int == tdiv(x as int, d as int),
{
    proof {
        lemma_tdiv_matches_machine(x as int, d as int);
    }
    let r = x.checked_div(d);
    match r {
        Some(q) => q,
        None => {
            proof {
                assert(false);
            }
            0
        },
    }
}

/// `checked_div`'s case analysis agrees with `tdiv`, and the quotient
/// stays within the magnitude of the dividend.
proof fn lemma_tdiv_matches_machine(x: int, d: int)
    requires
        d != 0,
    ensures
        ({
            let q = if x == 0 {
                0
            } else if x > 0 && d > 0 {
                x / d
            } else if x < 0 && d < 0 {
                (x * -1) / (d * -1)
            } else if x < 0 {
                ((x * -1) / d) * -1
            } else {
                (x / (d * -1)) * -1
            };
            q == tdiv(x, d)
        }),
        iabs(tdiv(x, d)) <= iabs(x),
{
    lemma_tdiv_shrinks(x, d);
    if x == 0 {
        vstd::arithmetic::div_mod::lemma_div_of0(iabs(d));
    }
}

/// A dividend smaller in magnitude than the divisor gives quotient zero.
proof fn lemma_small_quotient_is_zero(x: int, d: int)
    requires
        iabs(x) < d,
    ensures
        tdiv(x, d) == 0,
{
    vstd::arithmetic::div_mod::lemma_basic_div(iabs(x), iabs(d));
}

/// Dividing never grows the magnitude.
proof fn lemma_tdiv_shrinks(x: int, d: int)
    requires
        d != 0,
    ensures
        iabs(tdiv(x, d)) <= iabs(x),
        x >= 0 && d > 0 ==> 0 <= tdiv(x, d) <= x,
{
    let a = iabs(x);
    let b = iabs(d);
    assert(iabs(x) / iabs(d) <= iabs(x)) by (nonlinear_arith)
        requires
            a == iabs(x),
            b == iabs(d),
            a >= 0,
            b >= 1,
    ;
    assert(iabs(x) / iabs(d) >= 0) by (nonlinear_arith)
        requires
            a == iabs(x),
            b == iabs(d),
            a >= 0,
            b >= 1,
    ;
}

} // verus!
