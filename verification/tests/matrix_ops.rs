use aiplay::fixed::Fix;
use aiplay::matrix::{ColumnVec, Matrix};
use aiplay::NnError;

fn fx(i: i64) -> Fix {
    Fix::from_int(i)
}

fn row(values: &[i64]) -> Vec<Fix> {
    values.iter().map(|v| fx(*v)).collect()
}

/// `v × m` for whole-valued operands, unwrapped.
fn mul_vec(v: &ColumnVec, m: &Matrix) -> ColumnVec {
    let mut out = ColumnVec::new(m.num_columns(), Fix::zero());
    v.mul(m, &mut out).unwrap();
    out
}

#[test]
fn matrix_construction_and_cells() {
    let m = Matrix::filled(2, 3, fx(7));
    assert_eq!(m.num_rows(), 2);
    assert_eq!(m.num_columns(), 3);
    assert_eq!(m.get_cell(1, 2), fx(7));
    let mut m = m;
    m.set_cell(0, 1, fx(-2));
    assert_eq!(m.get_cell(0, 1), fx(-2));
    assert_eq!(m.get_cell(0, 0), fx(7));

    let s = Matrix::from_slice(&row(&[1, 2, 3]));
    assert_eq!(s.num_rows(), 1);
    assert_eq!(s.num_columns(), 3);
    assert_eq!(s.get_cell(0, 2), fx(3));
}

#[test]
fn column_vec_basics() {
    let v = ColumnVec::from_slice(&row(&[4, 5]));
    assert_eq!(v.len(), 2);
    assert_eq!(v.get(0), fx(4));
    let mut v = v;
    v.set(1, fx(9));
    assert_eq!(v.get(1), fx(9));
    let copy = v.duplicate();
    assert_eq!(copy.get(0), fx(4));
    assert_eq!(copy.get(1), fx(9));
}

#[test]
fn multiply_small_fixed_matrices() {
    // [1, 2] × [[1], [2]] = [5]
    let v = ColumnVec::from_slice(&row(&[1, 2]));
    let mut m = Matrix::filled(2, 1, Fix::zero());
    m.set_cell(0, 0, fx(1));
    m.set_cell(1, 0, fx(2));
    let out = mul_vec(&v, &m);
    assert_eq!(out.get(0), fx(5));

    // [1, 2] × [[1, 3], [2, 4]] = [5, 11]
    let mut m2 = Matrix::filled(2, 2, Fix::zero());
    m2.set_cell(0, 0, fx(1));
    m2.set_cell(0, 1, fx(3));
    m2.set_cell(1, 0, fx(2));
    m2.set_cell(1, 1, fx(4));
    let out2 = mul_vec(&v, &m2);
    assert_eq!(out2.get(0), fx(5));
    assert_eq!(out2.get(1), fx(11));
}

#[test]
fn multiply_by_identity_is_identity() {
    let v = ColumnVec::from_slice(&row(&[3, -4, 7]));
    let mut id = Matrix::filled(3, 3, Fix::zero());
    id.set_cell(0, 0, fx(1));
    id.set_cell(1, 1, fx(1));
    id.set_cell(2, 2, fx(1));
    let out = mul_vec(&v, &id);
    for i in 0..3 {
        assert_eq!(out.get(i), v.get(i));
    }
}

#[test]
fn multiply_distributes_over_addition() {
    let v = ColumnVec::from_slice(&row(&[2, -1, 3]));
    let mut b = Matrix::filled(3, 2, Fix::zero());
    let mut c = Matrix::filled(3, 2, Fix::zero());
    let cells_b = [[1, 4], [-2, 0], [5, 3]];
    let cells_c = [[2, -3], [1, 1], [0, -4]];
    for r in 0..3 {
        for col in 0..2 {
            b.set_cell(r, col, fx(cells_b[r][col]));
            c.set_cell(r, col, fx(cells_c[r][col]));
        }
    }
    let vb = mul_vec(&v, &b);
    let vc = mul_vec(&v, &c);
    let mut sum = b;
    sum.add(&c).unwrap();
    let vsum = mul_vec(&v, &sum);
    for i in 0..2 {
        assert_eq!(vsum.get(i), vb.get(i).add(vc.get(i)));
    }
}

#[test]
fn matrix_add_requires_matching_shapes() {
    let mut a = Matrix::filled(2, 2, fx(1));
    let b = Matrix::filled(2, 3, fx(1));
    assert_eq!(a.add(&b), Err(NnError::ShapeMismatch));
    // The operand is untouched by the failed call.
    assert_eq!(a.get_cell(0, 0), fx(1));
    let c = Matrix::filled(2, 2, fx(2));
    assert_eq!(a.add(&c), Ok(()));
    assert_eq!(a.get_cell(1, 1), fx(3));
}

#[test]
fn vector_multiply_requires_matching_shapes() {
    let v = ColumnVec::from_slice(&row(&[1, 2, 3]));
    let m = Matrix::filled(2, 2, fx(1));
    let mut out = ColumnVec::new(2, Fix::zero());
    assert_eq!(v.mul(&m, &mut out), Err(NnError::ShapeMismatch));
    let v2 = ColumnVec::from_slice(&row(&[1, 2]));
    let mut short = ColumnVec::new(1, Fix::zero());
    assert_eq!(v2.mul(&m, &mut short), Err(NnError::ShapeMismatch));
    assert_eq!(v2.mul(&m, &mut out), Ok(()));
    assert_eq!(out.get(0), fx(3));
    assert_eq!(out.get(1), fx(3));
}

#[test]
fn map_applies_a_function_to_every_cell() {
    let mut m = Matrix::filled(2, 3, fx(2));
    m.set_cell(1, 2, fx(-5));
    m.map(|x: Fix| x.add(Fix::one()));
    assert_eq!(m.get_cell(0, 0), fx(3));
    assert_eq!(m.get_cell(1, 2), fx(-4));
}

#[test]
fn row_and_column_values_read_the_grid() {
    let mut m = Matrix::filled(2, 3, fx(0));
    let cells = [[1, 2, 3], [4, 5, 6]];
    for r in 0..2 {
        for c in 0..3 {
            m.set_cell(r, c, fx(cells[r][c]));
        }
    }
    let row1 = m.row_values(1);
    assert_eq!(row1.len(), 3);
    assert_eq!(row1[0], fx(4));
    assert_eq!(row1[2], fx(6));
    let col2 = m.column_values(2);
    assert_eq!(col2.len(), 2);
    assert_eq!(col2[0], fx(3));
    assert_eq!(col2[1], fx(6));
}

#[test]
fn random_matrix_entries_lie_in_unit_interval() {
    let m = Matrix::random(4, 5);
    for r in 0..4 {
        for c in 0..5 {
            let raw = m.get_cell(r, c).raw();
            assert!(raw >= 0);
            assert!(raw < 65536);
        }
    }
}
