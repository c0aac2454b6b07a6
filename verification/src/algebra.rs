//! Algebraic laws of the dense matrix product.
//!
//! The laws are stated over the exact integer product of grids, the value
//! the executable product realizes whenever no rescaling step truncates and
//! no saturation occurs — in particular on whole-valued matrices whose
//! entries and sums stay inside the representable band.  Multiplication has
//! the identity grid as a unit, distributes over element-wise addition, and
//! is associative.

use crate::fixed::{fx_add_spec, fx_mul_spec, iabs, FX_SCALE};
use crate::matrix::{dot_prefix, grid_shape};
use vstd::arithmetic::div_mod::lemma_div_multiples_vanish;
use vstd::prelude::*;

verus! {

/// The exact weighted sum of the first `k` terms of row `i` of `a` against
/// column `j` of `b`.
pub open spec fn dot_int(a: Seq<Seq<int>>, b: Seq<Seq<int>>, i: int, j: int, k: int) -> int
    decreases k,
{
    if k <= 0 {
        0
    } else {
        dot_int(a, b, i, j, k - 1) + a[i][k - 1] * b[k - 1][j]
    }
}

/// The exact matrix product; meaningful when `a`'s rows are as long as `b`
/// is tall.
pub open spec fn mat_mul_int(a: Seq<Seq<int>>, b: Seq<Seq<int>>) -> Seq<Seq<int>> {
    Seq::new(a.len(), |i: int| Seq::new(b[0].len(), |j: int| dot_int(a, b, i, j, b.len() as int)))
}

/// Element-wise sum; meaningful when the shapes agree.
pub open spec fn mat_add_int(a: Seq<Seq<int>>, b: Seq<Seq<int>>) -> Seq<Seq<int>> {
    Seq::new(a.len(), |i: int| Seq::new(a[i].len(), |j: int| a[i][j] + b[i][j]))
}

/// The identity grid of size `n`.
pub open spec fn identity_int(n: int) -> Seq<Seq<int>> {
    Seq::new(n as nat, |i: int| Seq::new(n as nat, |j: int| if i == j { 1int } else { 0int }))
}

/// A sequence of whole values, in raw steps.
pub open spec fn scaled_seq(u: Seq<int>) -> Seq<int> {
    Seq::new(u.len(), |i: int| FX_SCALE * u[i])
}

/// A grid of whole values, in raw steps.
pub open spec fn scaled_grid(u: Seq<Seq<int>>) -> Seq<Seq<int>> {
    Seq::new(u.len(), |i: int| scaled_seq(u[i]))
}

/// On whole values the fixed-point product of two scalars is exact.
proof fn lemma_fx_mul_exact_on_whole(a: int, b: int)
    requires
        iabs(a * b) <= 1024,
    ensures
        fx_mul_spec(FX_SCALE * a, FX_SCALE * b) == FX_SCALE * (a * b),
{
    let s = FX_SCALE as int;
    let p = a * b;
    assert((s * a) * (s * b) == s * (s * p)) by (nonlinear_arith)
        requires
            p == a * b,
    ;
    if p >= 0 {
        assert(s * (s * p) >= 0) by (nonlinear_arith)
            requires
                p >= 0,
                s == FX_SCALE,
        ;
        lemma_div_multiples_vanish(s * p, s);
        assert(s * p <= 1024 * s) by (nonlinear_arith)
            requires
                0 <= p <= 1024,
                s == FX_SCALE,
        ;
    } else {
        assert(s * (s * p) < 0 && -(s * (s * p)) == s * (s * (-p))) by (nonlinear_arith)
            requires
                p < 0,
                s == FX_SCALE,
        ;
        lemma_div_multiples_vanish(s * (-p), s);
        assert(s * (-p) <= 1024 * s) by (nonlinear_arith)
            requires
                0 <= -p <= 1024,
                s == FX_SCALE,
        ;
    }
}

/// On whole values whose running sums stay within the representable band,
/// the fixed-point weighted sum is the exact integer dot product, scaled:
/// the laws below therefore hold of what the executable product computes
/// on such matrices.
pub proof fn lemma_dot_exact_on_whole_values(uv: Seq<int>, uw: Seq<Seq<int>>, c: int, k: int)
    requires
        0 <= k <= uv.len(),
        uw.len() >= uv.len(),
        0 <= c,
        forall|m: int| 0 <= m < uw.len() ==> c < (#[trigger] uw[m]).len(),
        forall|k2: int| 0 <= k2 <= k ==> iabs(dot_int(seq_pair(uv), uw, 0, c, k2)) <= 1024,
        forall|k2: int| 0 <= k2 < k ==> iabs(uv[k2] * uw[k2][c]) <= 1024,
    ensures
        dot_prefix(scaled_seq(uv), scaled_grid(uw), c, k) == FX_SCALE * dot_int(
            seq_pair(uv),
            uw,
            0,
            c,
            k,
        ),
    decreases k,
{
    let s = FX_SCALE as int;
    if k > 0 {
        lemma_dot_exact_on_whole_values(uv, uw, c, k - 1);
        let prev = dot_int(seq_pair(uv), uw, 0, c, k - 1);
        let term = uv[k - 1] * uw[k - 1][c];
        assert(scaled_seq(uv)[k - 1] == s * uv[k - 1]);
        assert(scaled_grid(uw)[k - 1][c] == s * uw[k - 1][c]);
        lemma_fx_mul_exact_on_whole(uv[k - 1], uw[k - 1][c]);
        assert(seq_pair(uv)[0] == uv);
        assert(dot_int(seq_pair(uv), uw, 0, c, k) == prev + term);
        assert(iabs(prev + term) <= 1024);
        assert(s * prev + s * term == s * (prev + term)) by (nonlinear_arith)
            requires
                s == FX_SCALE,
        ;
        if prev + term >= 0 {
            assert(0 <= s * (prev + term) <= 1024 * s) by (nonlinear_arith)
                requires
                    0 <= prev + term <= 1024,
                    s == FX_SCALE,
            ;
        } else {
            assert(-(1024 * s) <= s * (prev + term) < 0) by (nonlinear_arith)
                requires
                    -1024 <= prev + term < 0,
                    s == FX_SCALE,
            ;
        }
        assert(fx_add_spec(s * prev, s * term) == s * (prev + term));
    }
}

/// A one-row grid holding the given vector, so that a vector can stand as
/// the left factor of the matrix product.
pub open spec fn seq_pair(v: Seq<int>) -> Seq<Seq<int>> {
    seq![v]
}

/// The executable product's full weighted sum — the value `mul` promises
/// for each output entry — is the exact integer dot product, scaled, on
/// whole values whose running sums stay within the representable band.
pub proof fn lemma_vector_product_exact_on_whole_values(uv: Seq<int>, uw: Seq<Seq<int>>, c: int)
    requires
        uw.len() >= uv.len(),
        0 <= c,
        forall|m: int| 0 <= m < uw.len() ==> c < (#[trigger] uw[m]).len(),
        forall|k2: int|
            0 <= k2 <= uv.len() ==> iabs(dot_int(seq_pair(uv), uw, 0, c, k2)) <= 1024,
        forall|k2: int| 0 <= k2 < uv.len() ==> iabs(uv[k2] * uw[k2][c]) <= 1024,
    ensures
        crate::matrix::dot_spec(scaled_seq(uv), scaled_grid(uw), c) == FX_SCALE * dot_int(
            seq_pair(uv),
            uw,
            0,
            c,
            uv.len() as int,
        ),
{
    lemma_dot_exact_on_whole_values(uv, uw, c, uv.len() as int);
    assert(scaled_seq(uv).len() == uv.len());
}

/// A prefix of a dot product against the identity picks out the entry
/// `a[i][j]` once the prefix passes column `j`.
proof fn lemma_dot_identity(a: Seq<Seq<int>>, n: int, i: int, j: int, k: int)
    requires
        0 <= i < a.len(),
        a[i].len() == n,
        0 <= j < n,
        0 <= k <= n,
    ensures
        dot_int(a, identity_int(n), i, j, k) == if j < k {
            a[i][j]
        } else {
            0
        },
    decreases k,
{
    if k > 0 {
        lemma_dot_identity(a, n, i, j, k - 1);
    }
}

/// Multiplying by the identity on the right returns the matrix unchanged.
pub proof fn lemma_mat_mul_identity(a: Seq<Seq<int>>, rows: int, n: int)
    requires
        grid_shape(a, rows, n),
        n >= 1,
    ensures
        mat_mul_int(a, identity_int(n)) == a,
{
    let p = mat_mul_int(a, identity_int(n));
    assert forall|i: int, j: int| 0 <= i < rows && 0 <= j < n implies p[i][j] == a[i][j] by {
        lemma_dot_identity(a, n, i, j, n);
    }
    assert(p =~~= a);
}

/// Dot products distribute over element-wise sums of the right factor.
proof fn lemma_dot_distributes(
    a: Seq<Seq<int>>,
    b: Seq<Seq<int>>,
    c: Seq<Seq<int>>,
    i: int,
    j: int,
    k: int,
)
    requires
        0 <= k <= b.len(),
        b.len() == c.len(),
        0 <= j,
        forall|m: int| 0 <= m < b.len() ==> (#[trigger] b[m]).len() == c[m].len(),
        forall|m: int| 0 <= m < b.len() ==> j < (#[trigger] b[m]).len(),
    ensures
        dot_int(a, mat_add_int(b, c), i, j, k) == dot_int(a, b, i, j, k) + dot_int(a, c, i, j, k),
    decreases k,
{
    if k > 0 {
        lemma_dot_distributes(a, b, c, i, j, k - 1);
        assert(mat_add_int(b, c)[k - 1][j] == b[k - 1][j] + c[k - 1][j]);
        assert(a[i][k - 1] * (b[k - 1][j] + c[k - 1][j]) == a[i][k - 1] * b[k - 1][j] + a[i][k - 1]
            * c[k - 1][j]) by (nonlinear_arith);
    }
}

/// The matrix product distributes over element-wise addition:
/// `a × (b + c) == a × b + a × c`.
pub proof fn lemma_mat_mul_distributes(
    a: Seq<Seq<int>>,
    b: Seq<Seq<int>>,
    c: Seq<Seq<int>>,
    p: int,
    q: int,
    r: int,
)
    requires
        grid_shape(a, p, q),
        grid_shape(b, q, r),
        grid_shape(c, q, r),
        p >= 1,
        q >= 1,
        r >= 1,
    ensures
        mat_mul_int(a, mat_add_int(b, c)) == mat_add_int(mat_mul_int(a, b), mat_mul_int(a, c)),
{
    let lhs = mat_mul_int(a, mat_add_int(b, c));
    let rhs = mat_add_int(mat_mul_int(a, b), mat_mul_int(a, c));
    assert(mat_add_int(b, c)[0].len() == r);
    assert forall|i: int, j: int| 0 <= i < p && 0 <= j < r implies lhs[i][j] == rhs[i][j] by {
        lemma_dot_distributes(a, b, c, i, j, q);
    }
    assert(lhs =~~= rhs);
}

/// The sum, over the first `mm` middle indices, of
/// `a[i][m] * b[m][k] * c[k][j]` for a fixed outer column `k`.
pub open spec fn triple_col(
    a: Seq<Seq<int>>,
    b: Seq<Seq<int>>,
    c: Seq<Seq<int>>,
    i: int,
    j: int,
    k: int,
    mm: int,
) -> int
    decreases mm,
{
    if mm <= 0 {
        0
    } else {
        triple_col(a, b, c, i, j, k, mm - 1) + a[i][mm - 1] * b[mm - 1][k] * c[k][j]
    }
}

/// The double sum over outer columns `k < kk`, each summed over all middle
/// indices `m < mm`.
pub open spec fn triple_sum(
    a: Seq<Seq<int>>,
    b: Seq<Seq<int>>,
    c: Seq<Seq<int>>,
    i: int,
    j: int,
    kk: int,
    mm: int,
) -> int
    decreases kk,
{
    if kk <= 0 {
        0
    } else {
        triple_sum(a, b, c, i, j, kk - 1, mm) + triple_col(a, b, c, i, j, kk - 1, mm)
    }
}

/// Scaling a dot-product prefix by a common factor scales each term.
proof fn lemma_dot_scale_right(
    a: Seq<Seq<int>>,
    b: Seq<Seq<int>>,
    c: Seq<Seq<int>>,
    i: int,
    j: int,
    k: int,
    mm: int,
)
    requires
        mm >= 0,
    ensures
        dot_int(a, b, i, k, mm) * c[k][j] == triple_col(a, b, c, i, j, k, mm),
    decreases mm,
{
    if mm <= 0 {
    } else {
        lemma_dot_scale_right(a, b, c, i, j, k, mm - 1);
        assert((dot_int(a, b, i, k, mm - 1) + a[i][mm - 1] * b[mm - 1][k]) * c[k][j] == dot_int(
            a,
            b,
            i,
            k,
            mm - 1,
        ) * c[k][j] + (a[i][mm - 1] * b[mm - 1][k]) * c[k][j]) by (nonlinear_arith);
        assert((a[i][mm - 1] * b[mm - 1][k]) * c[k][j] == a[i][mm - 1] * b[mm - 1][k] * c[k][j]);
    }
}

/// Scaling a dot-product prefix of the right factors by a common left
/// factor scales each term.
proof fn lemma_dot_scale_left(
    a: Seq<Seq<int>>,
    b: Seq<Seq<int>>,
    c: Seq<Seq<int>>,
    i: int,
    j: int,
    m: int,
    kk: int,
)
    requires
        kk >= 0,
    ensures
        a[i][m] * dot_int(b, c, m, j, kk) == col_slice(a, b, c, i, j, m, kk),
    decreases kk,
{
    if kk <= 0 {
    } else {
        lemma_dot_scale_left(a, b, c, i, j, m, kk - 1);
        assert(a[i][m] * (dot_int(b, c, m, j, kk - 1) + b[m][kk - 1] * c[kk - 1][j]) == a[i][m]
            * dot_int(b, c, m, j, kk - 1) + a[i][m] * (b[m][kk - 1] * c[kk - 1][j]))
            by (nonlinear_arith);
        assert(a[i][m] * (b[m][kk - 1] * c[kk - 1][j]) == a[i][m] * b[m][kk - 1] * c[kk - 1][j])
            by (nonlinear_arith);
    }
}

/// The sum, over the first `kk` outer columns, of
/// `a[i][m] * b[m][k] * c[k][j]` for a fixed middle index `m`.
pub open spec fn col_slice(
    a: Seq<Seq<int>>,
    b: Seq<Seq<int>>,
    c: Seq<Seq<int>>,
    i: int,
    j: int,
    m: int,
    kk: int,
) -> int
    decreases kk,
{
    if kk <= 0 {
        0
    } else {
        col_slice(a, b, c, i, j, m, kk - 1) + a[i][m] * b[m][kk - 1] * c[kk - 1][j]
    }
}

/// The double sum over middle indices `m < mm`, each summed over all outer
/// columns `k < kk`.
pub open spec fn triple_sum_swapped(
    a: Seq<Seq<int>>,
    b: Seq<Seq<int>>,
    c: Seq<Seq<int>>,
    i: int,
    j: int,
    kk: int,
    mm: int,
) -> int
    decreases mm,
{
    if mm <= 0 {
        0
    } else {
        triple_sum_swapped(a, b, c, i, j, kk, mm - 1) + col_slice(a, b, c, i, j, mm - 1, kk)
    }
}

/// Splitting the last outer column off a swapped double sum.
proof fn lemma_swapped_col_split(
    a: Seq<Seq<int>>,
    b: Seq<Seq<int>>,
    c: Seq<Seq<int>>,
    i: int,
    j: int,
    kk: int,
    mm: int,
)
    requires
        kk >= 1,
        mm >= 0,
    ensures
        triple_sum_swapped(a, b, c, i, j, kk, mm) == triple_sum_swapped(a, b, c, i, j, kk - 1, mm)
            + triple_col(a, b, c, i, j, kk - 1, mm),
    decreases mm,
{
    if mm > 0 {
        lemma_swapped_col_split(a, b, c, i, j, kk, mm - 1);
    }
}

/// The two summation orders of the triple product agree.
proof fn lemma_triple_sum_swap(
    a: Seq<Seq<int>>,
    b: Seq<Seq<int>>,
    c: Seq<Seq<int>>,
    i: int,
    j: int,
    kk: int,
    mm: int,
)
    requires
        kk >= 0,
        mm >= 0,
    ensures
        triple_sum(a, b, c, i, j, kk, mm) == triple_sum_swapped(a, b, c, i, j, kk, mm),
    decreases kk,
{
    if kk <= 0 {
        lemma_swapped_zero(a, b, c, i, j, mm);
    } else {
        lemma_triple_sum_swap(a, b, c, i, j, kk - 1, mm);
        lemma_swapped_col_split(a, b, c, i, j, kk, mm);
    }
}

/// With no outer columns the swapped double sum is zero.
proof fn lemma_swapped_zero(a: Seq<Seq<int>>, b: Seq<Seq<int>>, c: Seq<Seq<int>>, i: int, j: int, mm: int)
    requires
        mm >= 0,
    ensures
        triple_sum_swapped(a, b, c, i, j, 0, mm) == 0,
    decreases mm,
{
    if mm > 0 {
        lemma_swapped_zero(a, b, c, i, j, mm - 1);
    }
}

/// The left-associated entry equals the double sum in outer-column order.
proof fn lemma_left_assoc_entry(
    a: Seq<Seq<int>>,
    b: Seq<Seq<int>>,
    c: Seq<Seq<int>>,
    p: int,
    q: int,
    r: int,
    i: int,
    j: int,
    kk: int,
)
    requires
        grid_shape(a, p, q),
        grid_shape(b, q, r),
        0 <= i < p,
        q >= 1,
        r >= 1,
        0 <= kk <= r,
    ensures
        dot_int(mat_mul_int(a, b), c, i, j, kk) == triple_sum(a, b, c, i, j, kk, q),
    decreases kk,
{
    if kk > 0 {
        lemma_left_assoc_entry(a, b, c, p, q, r, i, j, kk - 1);
        assert(mat_mul_int(a, b)[i][kk - 1] == dot_int(a, b, i, kk - 1, q));
        lemma_dot_scale_right(a, b, c, i, j, kk - 1, q);
    }
}

/// The right-associated entry equals the double sum in middle-index order.
proof fn lemma_right_assoc_entry(
    a: Seq<Seq<int>>,
    b: Seq<Seq<int>>,
    c: Seq<Seq<int>>,
    q: int,
    r: int,
    s: int,
    i: int,
    j: int,
    mm: int,
)
    requires
        grid_shape(b, q, r),
        grid_shape(c, r, s),
        0 <= j < s,
        r >= 1,
        s >= 1,
        0 <= mm <= q,
    ensures
        dot_int(a, mat_mul_int(b, c), i, j, mm) == triple_sum_swapped(a, b, c, i, j, r, mm),
    decreases mm,
{
    if mm > 0 {
        lemma_right_assoc_entry(a, b, c, q, r, s, i, j, mm - 1);
        assert(mat_mul_int(b, c)[mm - 1][j] == dot_int(b, c, mm - 1, j, r));
        lemma_dot_scale_left(a, b, c, i, j, mm - 1, r);
    }
}

/// The matrix product is associative: `(a × b) × c == a × (b × c)`.
pub proof fn lemma_mat_mul_associative(
    a: Seq<Seq<int>>,
    b: Seq<Seq<int>>,
    c: Seq<Seq<int>>,
    p: int,
    q: int,
    r: int,
    s: int,
)
    requires
        grid_shape(a, p, q),
        grid_shape(b, q, r),
        grid_shape(c, r, s),
        p >= 1,
        q >= 1,
        r >= 1,
        s >= 1,
    ensures
        mat_mul_int(mat_mul_int(a, b), c) == mat_mul_int(a, mat_mul_int(b, c)),
{
    let lhs = mat_mul_int(mat_mul_int(a, b), c);
    let rhs = mat_mul_int(a, mat_mul_int(b, c));
    assert(mat_mul_int(a, b).len() == p);
    assert(mat_mul_int(b, c)[0].len() == s);
    assert forall|i: int, j: int| 0 <= i < p && 0 <= j < s implies lhs[i][j] == rhs[i][j] by {
        lemma_left_assoc_entry(a, b, c, p, q, r, i, j, r);
        lemma_right_assoc_entry(a, b, c, q, r, s, i, j, q);
        lemma_triple_sum_swap(a, b, c, i, j, r, q);
    }
    assert(lhs =~~= rhs);
}

} // verus!
