use cesure::matrix::Matrix;
use cesure::matrix_math::{row_append, row_concatenate, row_delete_last, row_slice, row_transpose, transpose};

fn m_dot(a: &Matrix<f64>, b: &Matrix<f64>) -> Matrix<f64> {
    a.m_dot_with(b, 0.0, |acc, x, y| acc + x * y)
}

fn from_rows(rows: Vec<Vec<f64>>) -> Matrix<f64> {
    Matrix::new_from_datas(rows)
}

#[test]
fn new_is_filled_and_shaped() {
    let m = Matrix::new(2, 3, 0.0f64);
    assert_eq!(m.rows, 2);
    assert_eq!(m.cols, 3);
    assert_eq!(m.len, 6);
    assert!(m.datas.iter().all(|x| *x == 0.0));
}

#[test]
fn new_from_datas_is_row_major() {
    let m = from_rows(vec![vec![1.0, 2.0, 3.0], vec![4.0, 5.0, 6.0]]);
    assert_eq!(m.datas, vec![1.0, 2.0, 3.0, 4.0, 5.0, 6.0]);
    assert_eq!(m.get(1, 0), 4.0);
    assert_eq!(m.get(0, 2), 3.0);
}

#[test]
fn set_changes_one_cell() {
    let mut m = Matrix::new(2, 2, 0i64);
    m.set(1, 0, 7);
    assert_eq!(m.datas, vec![0, 0, 7, 0]);
}

#[test]
fn row_and_col_constructors() {
    let r = Matrix::new_row(4, 1u8);
    assert_eq!((r.rows, r.cols), (1, 4));
    let c = Matrix::new_col(3, 1u8);
    assert_eq!((c.rows, c.cols), (3, 1));
    let r2 = Matrix::new_row_from_datas(vec![1, 2, 3]);
    assert!(r2.is_row() && !r2.is_column() && r2.is_vector());
    let c2 = Matrix::new_col_from_datas(vec![1, 2, 3]);
    assert!(c2.is_column() && c2.is_vector());
}

#[test]
fn transpose_swaps_and_is_an_involution() {
    let m = from_rows(vec![vec![1.0, 2.0, 3.0], vec![4.0, 5.0, 6.0]]);
    let t = transpose(&m);
    assert_eq!((t.rows, t.cols), (3, 2));
    assert_eq!(t.datas, vec![1.0, 4.0, 2.0, 5.0, 3.0, 6.0]);
    let tt = transpose(&t);
    assert_eq!((tt.rows, tt.cols), (m.rows, m.cols));
    assert_eq!(tt.datas, m.datas);
}

#[test]
fn append_then_delete_last_col_restores_row() {
    let v = Matrix::new_row_from_datas(vec![0.5, -1.5, 2.0]);
    let mut a = row_append(&v, 9.0);
    assert_eq!(a.datas, vec![0.5, -1.5, 2.0, 9.0]);
    a.delete_last_col();
    assert_eq!((a.rows, a.cols, a.len), (v.rows, v.cols, v.len));
    assert_eq!(a.datas, v.datas);
}

#[test]
fn delete_last_col_on_a_matrix() {
    let mut m = from_rows(vec![vec![1.0, 2.0, 3.0], vec![4.0, 5.0, 6.0]]);
    m.delete_last_col();
    assert_eq!((m.rows, m.cols, m.len), (2, 2, 4));
    assert_eq!(m.datas, vec![1.0, 2.0, 4.0, 5.0]);
}

#[test]
fn m_dot_has_product_shape_and_values() {
    let a = from_rows(vec![vec![1.0, 2.0], vec![3.0, 4.0], vec![5.0, 6.0]]);
    let b = from_rows(vec![vec![1.0, 0.0, 2.0, 1.0], vec![0.0, 1.0, 1.0, -1.0]]);
    let p = m_dot(&a, &b);
    assert_eq!((p.rows, p.cols), (3, 4));
    assert_eq!(p.datas, vec![1.0, 2.0, 4.0, -1.0, 3.0, 4.0, 10.0, -1.0, 5.0, 6.0, 16.0, -1.0]);
}

#[test]
fn m_dot_is_associative_within_tolerance() {
    let a = from_rows(vec![vec![0.1, 0.2, 0.3], vec![-0.4, 0.5, 0.6]]);
    let b = from_rows(vec![vec![0.7, -0.8], vec![0.9, 1.1], vec![1.3, 0.01]]);
    let c = from_rows(vec![vec![0.3, 0.5, -0.7], vec![1.9, 0.2, 0.4]]);
    let left = m_dot(&m_dot(&a, &b), &c);
    let right = m_dot(&a, &m_dot(&b, &c));
    assert_eq!((left.rows, left.cols), (2, 3));
    assert_eq!((right.rows, right.cols), (2, 3));
    for k in 0..left.len {
        assert!((left.datas[k] - right.datas[k]).abs() < 1e-12);
    }
}

#[test]
fn zip_with_and_map_work_elementwise() {
    let a = from_rows(vec![vec![1.0, 2.0], vec![3.0, 4.0]]);
    let b = from_rows(vec![vec![10.0, 20.0], vec![30.0, 40.0]]);
    let s = a.zip_with(&b, |x, y| x + y);
    assert_eq!(s.datas, vec![11.0, 22.0, 33.0, 44.0]);
    let p = a.zip_with(&b, |x, y| x * y);
    assert_eq!(p.datas, vec![10.0, 40.0, 90.0, 160.0]);
    let h = a.map(|x| x / 2.0);
    assert_eq!(h.datas, vec![0.5, 1.0, 1.5, 2.0]);
}

#[test]
fn rows_and_columns_are_extracted() {
    let m = from_rows(vec![vec![1.0, 2.0, 3.0], vec![4.0, 5.0, 6.0]]);
    let r = m.get_row(1);
    assert_eq!((r.rows, r.cols), (1, 3));
    assert_eq!(r.datas, vec![4.0, 5.0, 6.0]);
    let c = m.get_col(2);
    assert_eq!((c.rows, c.cols), (2, 1));
    assert_eq!(c.datas, vec![3.0, 6.0]);
}

#[test]
fn row_operations() {
    let a = Matrix::new_row_from_datas(vec![1, 2]);
    let b = Matrix::new_row_from_datas(vec![3, 4, 5]);
    let c = row_concatenate(&a, &b);
    assert_eq!((c.rows, c.cols), (1, 5));
    assert_eq!(c.datas, vec![1, 2, 3, 4, 5]);
    let d = row_delete_last(&c);
    assert_eq!(d.datas, vec![1, 2, 3, 4]);
    let (l, r) = row_slice(&c, 2);
    assert_eq!(l.datas, vec![1, 2]);
    assert_eq!(r.datas, vec![3, 4, 5]);
    assert_eq!((r.rows, r.cols), (1, 3));
    let t = row_transpose(&c);
    assert_eq!((t.rows, t.cols), (5, 1));
    let mut e = a.copy();
    e.row_concatenate(&b);
    assert_eq!(e.datas, c.datas);
    e.row_delete_last();
    e.row_append(9);
    assert_eq!(e.datas, vec![1, 2, 3, 4, 9]);
}

#[test]
fn set_all_keeps_shape() {
    let mut m = from_rows(vec![vec![1.0, 2.0], vec![3.0, 4.0]]);
    m.set_all(0.0);
    assert_eq!((m.rows, m.cols), (2, 2));
    assert_eq!(m.datas, vec![0.0; 4]);
}
