//! Dense fixed-point matrices and column vectors.
//!
//! A [`Matrix`] is a rectangular grid of [`Fix`] values addressed by row and
//! column; a [`ColumnVec`] is a flat sequence of them.  Binary operations
//! check shapes and report [`NnError::ShapeMismatch`] rather than truncate.

use crate::fixed::{fx_add_spec, fx_in_range, fx_mul_spec, spec_fix, Fix, FX_SCALE};
use crate::NnError;
use vstd::prelude::*;

verus! {

/// Every entry of a flat sequence lies in the representable band.
pub open spec fn seq_in_range(s: Seq<int>) -> bool {
    forall|i: int| 0 <= i < s.len() ==> fx_in_range(#[trigger] s[i])
}

/// Every entry of a grid lies in the representable band.
pub open spec fn grid_in_range(g: Seq<Seq<int>>) -> bool {
    forall|r: int, c: int|
        0 <= r < g.len() && 0 <= c < g[r].len() ==> fx_in_range(#[trigger] g[r][c])
}

/// A grid with the given rectangular shape.
pub open spec fn grid_shape(g: Seq<Seq<int>>, rows: int, columns: int) -> bool {
    g.len() == rows && forall|r: int| 0 <= r < g.len() ==> (#[trigger] g[r]).len() == columns
}

/// The running weighted sum of the first `k` vector entries against
/// column `c` of a grid, accumulated left to right in fixed point.
pub open spec fn dot_prefix(v: Seq<int>, w: Seq<Seq<int>>, c: int, k: int) -> int
    decreases k,
{
    if k <= 0 {
        0
    } else {
        fx_add_spec(dot_prefix(v, w, c, k - 1), fx_mul_spec(v[k - 1], w[k - 1][c]))
    }
}

/// The full weighted sum of a vector against column `c` of a grid.
pub open spec fn dot_spec(v: Seq<int>, w: Seq<Seq<int>>, c: int) -> int {
    dot_prefix(v, w, c, v.len() as int)
}

/// Flat storage index of cell `(r, c)` stays inside `rows * columns`.
proof fn lemma_flat_index(r: int, c: int, rows: int, columns: int)
    requires
        0 <= r < rows,
        0 <= c < columns,
    ensures
        0 <= r * columns + c < rows * columns,
{
    assert(0 <= r * columns + c < rows * columns) by (nonlinear_arith)
        requires
            0 <= r < rows,
            0 <= c < columns,
    ;
}

/// Distinct cells have distinct flat storage indices.
proof fn lemma_flat_index_injective(r1: int, c1: int, r2: int, c2: int, columns: int)
    requires
        0 <= c1 < columns,
        0 <= c2 < columns,
        0 <= r1,
        0 <= r2,
        r1 * columns + c1 == r2 * columns + c2,
    ensures
        r1 == r2 && c1 == c2,
{
    assert(r1 == r2 && c1 == c2) by (nonlinear_arith)
        requires
            0 <= c1 < columns,
            0 <= c2 < columns,
            0 <= r1,
            0 <= r2,
            r1 * columns + c1 == r2 * columns + c2,
    ;
}

/// The view of a matrix always has its declared shape.
pub broadcast proof fn lemma_matrix_view_shape(m: Matrix)
    ensures
        (#[trigger] m@).len() == m.spec_rows(),
        forall|r: int| 0 <= r < m@.len() ==> (#[trigger] m@[r]).len() == m.spec_columns(),
{
}

/// A flat sequence of fixed-point values.
pub struct ColumnVec {
    data: Vec<Fix>,
}

impl View for ColumnVec {
    type V = Seq<int>;

    closed spec fn view(&self) -> Seq<int> {
        Seq::new(self.data@.len(), |i: int| self.data@[i]@)
    }
}

impl ColumnVec {
    /// Validity: every entry lies in the representable band.
    pub open spec fn wf(self) -> bool {
        seq_in_range(self@)
    }

    /// A vector of the given length with every entry `v`.
    pub fn new(capacity: usize, v: Fix) -> (r: ColumnVec)
        requires
            v.wf(),
        ensures
            r@.len() == capacity,
            forall|i: int| 0 <= i < capacity ==> r@[i] == v@,
            r.wf(),
    {
        let mut data: Vec<Fix> = Vec::new();
        let mut i: usize = 0;
        while i < capacity
            invariant
                i <= capacity,
                data@.len() == i,
                forall|j: int| 0 <= j < i ==> data@[j] == v,
            decreases capacity - i,
        {
            data.push(v);
            i = i + 1;
        }
        ColumnVec { data }
    }

    /// A vector holding a copy of the given entries.
    pub fn from_slice(entries: &[Fix]) -> (r: ColumnVec)
        requires
            forall|i: int| 0 <= i < entries@.len() ==> (#[trigger] entries@[i]).wf(),
        ensures
            r@.len() == entries@.len(),
            forall|i: int| 0 <= i < entries@.len() ==> r@[i] == entries@[i]@,
            r.wf(),
    {
        let mut data: Vec<Fix> = Vec::new();
        let mut i: usize = 0;
        while i < entries.len()
            invariant
                i <= entries@.len(),
                data@.len() == i,
                forall|j: int| 0 <= j < i ==> data@[j] == entries@[j],
            decreases entries@.len() - i,
        {
            data.push(entries[i]);
            i = i + 1;
        }
        ColumnVec { data }
    }

    pub fn len(&self) -> (n: usize)
        ensures
            n == self@.len(),
    {
        self.data.len()
    }

    /// An independent copy with the same entries.
    pub fn duplicate(&self) -> (r: ColumnVec)
        requires
            self.wf(),
        ensures
            r@ == self@,
            r.wf(),
    {
        let mut data: Vec<Fix> = Vec::new();
        let mut i: usize = 0;
        while i < self.data.len()
            invariant
                self.wf(),
                i <= self.data@.len(),
                data@.len() == i,
                forall|j: int| 0 <= j < i ==> data@[j] == self.data@[j],
            decreases self.data@.len() - i,
        {
            data.push(self.data[i]);
            i = i + 1;
        }
        let r = ColumnVec { data };
        proof {
            assert(r@ =~= self@);
        }
        r
    }

    pub fn get(&self, i: usize) -> (r: Fix)
        requires
            self.wf(),
            i < self@.len(),
        ensures
            r@ == self@[i as int],
            r.wf(),
    {
        let r = self.data[i];
        proof {
            assert(r@ == self@[i as int]);
            assert(fx_in_range(self@[i as int]));
        }
        r
    }

    pub fn set(&mut self, i: usize, v: Fix)
        requires
            old(self).wf(),
            i < old(self)@.len(),
            v.wf(),
        ensures
            final(self)@ == old(self)@.update(i as int, v@),
            final(self).wf(),
    {
        self.data.set(i, v);
        proof {
            assert(self@ =~= old(self)@.update(i as int, v@));
        }
    }

    /// Multiplies the vector, read as a single row, with a matrix, writing
    /// the result into the caller-supplied buffer `out`; the shapes must
    /// already agree, otherwise nothing is written and the mismatch is
    /// reported.
    pub fn mul(&self, other: &Matrix, out: &mut ColumnVec) -> (r: Result<(), NnError>)
        requires
            self.wf(),
            other.wf(),
            old(out).wf(),
        ensures
            r is Ok <==> (self@.len() == other@.len() && old(out)@.len() == other.spec_columns()),
            r is Ok ==> final(out)@.len() == old(out)@.len() && final(out).wf() && forall|c: int|
                0 <= c < final(out)@.len() ==> final(out)@[c] == dot_spec(self@, other@, c),
            r is Err ==> *final(out) == *old(out) && r == Err::<(), NnError>(NnError::ShapeMismatch),
    {
        if self.len() != other.rows || out.len() != other.columns {
            return Err(NnError::ShapeMismatch);
        }
        let n = self.len();
        let m = other.columns;
        let mut c: usize = 0;
        while c < m
            invariant
                self.wf(),
                other.wf(),
                out.wf(),
                n == self@.len(),
                n == other@.len(),
                m == other.spec_columns(),
                out@.len() == m,
                c <= m,
                forall|j: int| 0 <= j < c ==> out@[j] == dot_spec(self@, other@, j),
            decreases m - c,
        {
            let mut acc = Fix::zero();
            let mut k: usize = 0;
            while k < n
                invariant
                    self.wf(),
                    other.wf(),
                    n == self@.len(),
                    n == other@.len(),
                    m == other.spec_columns(),
                    c < m,
                    k <= n,
                    acc.wf(),
                    acc@ == dot_prefix(self@, other@, c as int, k as int),
                decreases n - k,
            {
                let term = self.get(k).mul(other.get_cell(k, c));
                acc = acc.add(term);
                k = k + 1;
            }
            out.set(c, acc);
            c = c + 1;
        }
        Ok(())
    }
}

/// A rectangular grid of fixed-point values, stored row-major.
pub struct Matrix {
    data: Vec<Fix>,
    rows: usize,
    columns: usize,
}

impl View for Matrix {
    type V = Seq<Seq<int>>;

    closed spec fn view(&self) -> Seq<Seq<int>> {
        Seq::new(
            self.rows as nat,
            |r: int| Seq::new(self.columns as nat, |c: int| self.data@[r * (self.columns as int) + c]@),
        )
    }
}

impl Matrix {
    /// Number of rows, at the specification level.
    pub closed spec fn spec_rows(&self) -> int {
        self.rows as int
    }

    /// Number of columns, at the specification level.
    pub closed spec fn spec_columns(&self) -> int {
        self.columns as int
    }

    /// Total number of cells; establishes that the shape fits in memory.
    pub fn cell_count(&self) -> (n: usize)
        requires
            self.wf(),
        ensures
            n as int == self.spec_rows() * self.spec_columns(),
    {
        self.data.len()
    }

    /// Number of rows.
    pub fn num_rows(&self) -> (n: usize)
        ensures
            n as int == self.spec_rows(),
    {
        self.rows
    }

    /// Number of columns.
    pub fn num_columns(&self) -> (n: usize)
        ensures
            n as int == self.spec_columns(),
    {
        self.columns
    }

    pub closed spec fn storage_ok(&self) -> bool {
        self.data@.len() == self.rows * self.columns
    }

    /// Validity: the storage matches the declared shape and every entry
    /// lies in the representable band.
    pub open spec fn wf(self) -> bool {
        &&& self.storage_ok()
        &&& grid_in_range(self@)
    }

    /// A matrix of the given shape with every cell `v`.
    pub fn filled(rows: usize, columns: usize, v: Fix) -> (m: Matrix)
        requires
            v.wf(),
            rows * columns <= usize::MAX,
        ensures
            m.spec_rows() == rows,
            m.spec_columns() == columns,
            m.wf(),
            forall|r: int, c: int|
                0 <= r < rows && 0 <= c < columns ==> m@[r][c] == v@,
    {
        let total = rows * columns;
        let mut data: Vec<Fix> = Vec::new();
        let mut i: usize = 0;
        while i < total
            invariant
                i <= total,
                data@.len() == i,
                forall|j: int| 0 <= j < i ==> data@[j] == v,
            decreases total - i,
        {
            data.push(v);
            i = i + 1;
        }
        let m = Matrix { data, rows, columns };
        proof {
            assert forall|r: int, c: int|
                0 <= r < rows && 0 <= c < columns implies m@[r][c] == v@ by {
                lemma_flat_index(r, c, rows as int, columns as int);
            }
        }
        m
    }

    /// A matrix of the given shape with every cell drawn uniformly
    /// from `[0, 1)`.
    pub fn random(rows: usize, columns: usize) -> (m: Matrix)
        requires
            rows * columns <= usize::MAX,
        ensures
            m.spec_rows() == rows,
            m.spec_columns() == columns,
            m.wf(),
            forall|r: int, c: int|
                0 <= r < rows && 0 <= c < columns ==> 0 <= #[trigger] m@[r][c] < FX_SCALE,
    {
        let total = rows * columns;
        let mut data: Vec<Fix> = Vec::new();
        let mut i: usize = 0;
        while i < total
            invariant
                i <= total,
                data@.len() == i,
                forall|j: int| 0 <= j < i ==> 0 <= (#[trigger] data@[j])@ < FX_SCALE,
            decreases total - i,
        {
            data.push(crate::rng::random_unit());
            i = i + 1;
        }
        let m = Matrix { data, rows, columns };
        proof {
            assert forall|r: int, c: int|
                0 <= r < rows && 0 <= c < columns implies 0 <= #[trigger] m@[r][c] < FX_SCALE by {
                lemma_flat_index(r, c, rows as int, columns as int);
            }
        }
        m
    }

    /// A single-row matrix holding a copy of the given entries.
    pub fn from_slice(entries: &[Fix]) -> (m: Matrix)
        requires
            forall|i: int| 0 <= i < entries@.len() ==> (#[trigger] entries@[i]).wf(),
        ensures
            m.spec_rows() == 1,
            m.spec_columns() == entries@.len(),
            m.wf(),
            forall|c: int| 0 <= c < entries@.len() ==> m@[0][c] == entries@[c]@,
    {
        let mut data: Vec<Fix> = Vec::new();
        let mut i: usize = 0;
        while i < entries.len()
            invariant
                i <= entries@.len(),
                data@.len() == i,
                forall|j: int| 0 <= j < i ==> data@[j] == entries@[j],
            decreases entries@.len() - i,
        {
            data.push(entries[i]);
            i = i + 1;
        }
        let m = Matrix { data, rows: 1, columns: entries.len() };
        proof {
            assert forall|c: int| 0 <= c < entries@.len() implies m@[0][c] == entries@[c]@ by {
                assert(m@[0][c] == data@[0 * (entries@.len() as int) + c]@);
            }
            assert forall|r: int, c: int|
                0 <= r < m@.len() && 0 <= c < m@[r].len() implies fx_in_range(#[trigger] m@[r][c])
            by {
                assert(m@[r][c] == entries@[c]@);
                assert(entries@[c].wf());
            }
        }
        m
    }

    pub fn get_cell(&self, r: usize, c: usize) -> (v: Fix)
        requires
            self.wf(),
            r < self.spec_rows(),
            c < self.spec_columns(),
        ensures
            v@ == self@[r as int][c as int],
            v.wf(),
    {
        proof {
            lemma_flat_index(r as int, c as int, self.spec_rows(), self.spec_columns());
        }
        let total = self.data.len();
        let v = self.data[r * self.columns + c];
        proof {
            assert(v@ == self@[r as int][c as int]);
            assert(fx_in_range(self@[r as int][c as int]));
        }
        v
    }

    pub fn set_cell(&mut self, r: usize, c: usize, v: Fix)
        requires
            old(self).wf(),
            r < old(self).spec_rows(),
            c < old(self).spec_columns(),
            v.wf(),
        ensures
            final(self).spec_rows() == old(self).spec_rows(),
            final(self).spec_columns() == old(self).spec_columns(),
            final(self).wf(),
            final(self)@ == old(self)@.update(
                r as int,
                old(self)@[r as int].update(c as int, v@),
            ),
    {
        proof {
            lemma_flat_index(r as int, c as int, self.spec_rows(), self.spec_columns());
        }
        let total = self.data.len();
        let idx = r * self.columns + c;
        self.data.set(idx, v);
        proof {
            let cols = self.spec_columns();
            let target = old(self)@.update(r as int, old(self)@[r as int].update(c as int, v@));
            assert forall|r2: int, c2: int|
                0 <= r2 < self.spec_rows() && 0 <= c2 < cols implies self@[r2][c2] == target[r2][c2]
            by {
                lemma_flat_index(r2, c2, self.spec_rows(), cols);
                if r2 * cols + c2 == r as int * cols + c as int {
                    lemma_flat_index_injective(r2, c2, r as int, c as int, cols);
                }
            }
            assert(self@ =~~= target);
        }
    }

    /// The values of row `r`, left to right.
    pub fn row_values(&self, r: usize) -> (v: Vec<Fix>)
        requires
            self.wf(),
            r < self.spec_rows(),
        ensures
            v@.len() == self.spec_columns(),
            forall|c: int| 0 <= c < self.spec_columns() ==> (#[trigger] v@[c])@ == self@[r as int][c],
    {
        let mut v: Vec<Fix> = Vec::new();
        let mut c: usize = 0;
        while c < self.columns
            invariant
                self.wf(),
                r < self.spec_rows(),
                c <= self.spec_columns(),
                v@.len() == c,
                forall|j: int| 0 <= j < c ==> (#[trigger] v@[j])@ == self@[r as int][j],
            decreases self.spec_columns() - c,
        {
            v.push(self.get_cell(r, c));
            c = c + 1;
        }
        v
    }

    /// The values of column `c`, top to bottom.
    pub fn column_values(&self, c: usize) -> (v: Vec<Fix>)
        requires
            self.wf(),
            c < self.spec_columns(),
        ensures
            v@.len() == self.spec_rows(),
            forall|r: int| 0 <= r < self.spec_rows() ==> (#[trigger] v@[r])@ == self@[r][c as int],
    {
        let mut v: Vec<Fix> = Vec::new();
        let mut r: usize = 0;
        while r < self.rows
            invariant
                self.wf(),
                c < self.spec_columns(),
                r <= self.spec_rows(),
                v@.len() == r,
                forall|j: int| 0 <= j < r ==> (#[trigger] v@[j])@ == self@[j][c as int],
            decreases self.spec_rows() - r,
        {
            v.push(self.get_cell(r, c));
            r = r + 1;
        }
        v
    }

    /// Applies a unary function to every cell in place; the function must
    /// accept any valid value and produce valid values.
    pub fn map<F: Fn(Fix) -> Fix>(&mut self, f: F)
        requires
            old(self).wf(),
            forall|x: Fix| x.wf() ==> #[trigger] f.requires((x,)),
            forall|x: Fix, y: Fix| #[trigger] f.ensures((x,), y) ==> y.wf(),
        ensures
            final(self).spec_rows() == old(self).spec_rows(),
            final(self).spec_columns() == old(self).spec_columns(),
            final(self).wf(),
            forall|r: int, c: int|
                0 <= r < old(self).spec_rows() && 0 <= c < old(self).spec_columns()
                    ==> #[trigger] f.ensures(
                    (spec_fix(old(self)@[r][c]),),
                    spec_fix(final(self)@[r][c]),
                ),
    {
        let rows = self.rows;
        let columns = self.columns;
        let mut r: usize = 0;
        while r < rows
            invariant
                self.wf(),
                forall|x: Fix| x.wf() ==> #[trigger] f.requires((x,)),
                forall|x: Fix, y: Fix| #[trigger] f.ensures((x,), y) ==> y.wf(),
                rows == self.spec_rows(),
                columns == self.spec_columns(),
                rows == old(self).spec_rows(),
                columns == old(self).spec_columns(),
                r <= rows,
                forall|r2: int, c2: int|
                    0 <= r2 < r && 0 <= c2 < columns ==> #[trigger] f.ensures(
                        (spec_fix(old(self)@[r2][c2]),),
                        spec_fix(self@[r2][c2]),
                    ),
                forall|r2: int, c2: int|
                    r <= r2 < rows && 0 <= c2 < columns ==> #[trigger] self@[r2][c2] == old(
                        self,
                    )@[r2][c2],
            decreases rows - r,
        {
            let mut c: usize = 0;
            while c < columns
                invariant
                    self.wf(),
                    forall|x: Fix| x.wf() ==> #[trigger] f.requires((x,)),
                    forall|x: Fix, y: Fix| #[trigger] f.ensures((x,), y) ==> y.wf(),
                    rows == self.spec_rows(),
                    columns == self.spec_columns(),
                    rows == old(self).spec_rows(),
                    columns == old(self).spec_columns(),
                    r < rows,
                    c <= columns,
                    forall|r2: int, c2: int|
                        0 <= r2 < r && 0 <= c2 < columns ==> #[trigger] f.ensures(
                            (spec_fix(old(self)@[r2][c2]),),
                            spec_fix(self@[r2][c2]),
                        ),
                    forall|c2: int|
                        0 <= c2 < c ==> #[trigger] f.ensures(
                            (spec_fix(old(self)@[r as int][c2]),),
                            spec_fix(self@[r as int][c2]),
                        ),
                    forall|c2: int|
                        c <= c2 < columns ==> #[trigger] self@[r as int][c2] == old(
                            self,
                        )@[r as int][c2],
                    forall|r2: int, c2: int|
                        r < r2 < rows && 0 <= c2 < columns ==> #[trigger] self@[r2][c2] == old(
                            self,
                        )@[r2][c2],
                decreases columns - c,
            {
                let v = self.get_cell(r, c);
                let w = f(v);
                self.set_cell(r, c, w);
                proof {
                    crate::fixed::lemma_spec_fix_roundtrip(v);
                    crate::fixed::lemma_spec_fix_roundtrip(w);
                    assert(f.ensures((v,), w));
                    assert(self@[r as int][c as int] == w@);
                    assert(spec_fix(self@[r as int][c as int]) == w);
                }
                c = c + 1;
            }
            r = r + 1;
        }
    }

    /// Element-wise sum in place; the shapes must agree, otherwise nothing
    /// is written and the mismatch is reported.
    pub fn add(&mut self, other: &Matrix) -> (r: Result<(), NnError>)
        requires
            old(self).wf(),
            other.wf(),
        ensures
            r is Ok <==> (old(self).spec_rows() == other.spec_rows() && old(self).spec_columns()
                == other.spec_columns()),
            r is Ok ==> final(self).spec_rows() == old(self).spec_rows()
                && final(self).spec_columns() == old(self).spec_columns() && final(self).wf()
                && forall|i: int, j: int|
                0 <= i < old(self).spec_rows() && 0 <= j < old(self).spec_columns()
                    ==> final(self)@[i][j] == fx_add_spec(old(self)@[i][j], other@[i][j]),
            r is Err ==> *final(self) == *old(self) && r == Err::<(), NnError>(
                NnError::ShapeMismatch,
            ),
    {
        if self.rows != other.rows || self.columns != other.columns {
            return Err(NnError::ShapeMismatch);
        }
        let rows = self.rows;
        let columns = self.columns;
        let mut i: usize = 0;
        while i < rows
            invariant
                self.wf(),
                other.wf(),
                self.rows == rows,
                self.columns == columns,
                other.rows == rows,
                other.columns == columns,
                i <= rows,
                forall|r2: int, c2: int|
                    0 <= r2 < i && 0 <= c2 < columns ==> self@[r2][c2] == fx_add_spec(
                        old(self)@[r2][c2],
                        other@[r2][c2],
                    ),
                forall|r2: int, c2: int|
                    i <= r2 < rows && 0 <= c2 < columns ==> self@[r2][c2] == old(
                        self,
                    )@[r2][c2],
            decreases rows - i,
        {
            let mut j: usize = 0;
            while j < columns
                invariant
                    self.wf(),
                    other.wf(),
                    self.rows == rows,
                    self.columns == columns,
                    other.rows == rows,
                    other.columns == columns,
                    i < rows,
                    j <= columns,
                    forall|r2: int, c2: int|
                        0 <= r2 < i && 0 <= c2 < columns ==> self@[r2][c2] == fx_add_spec(
                            old(self)@[r2][c2],
                            other@[r2][c2],
                        ),
                    forall|c2: int|
                        0 <= c2 < j ==> self@[i as int][c2] == fx_add_spec(
                            old(self)@[i as int][c2],
                            other@[i as int][c2],
                        ),
                    forall|c2: int|
                        j <= c2 < columns ==> self@[i as int][c2] == old(
                            self,
                        )@[i as int][c2],
                    forall|r2: int, c2: int|
                        i < r2 < rows && 0 <= c2 < columns ==> self@[r2][c2] == old(
                            self,
                        )@[r2][c2],
                decreases columns - j,
            {
                let sum = self.get_cell(i, j).add(other.get_cell(i, j));
                self.set_cell(i, j, sum);
                j = j + 1;
            }
            i = i + 1;
        }
        Ok(())
    }
}

} // verus!
