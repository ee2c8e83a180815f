use vstd::prelude::*;
use crate::matrix::{Matrix, lemma_flat_index, lemma_flat_split, last_col_deleted};

verus! {

/// `t` is the transpose of `m`.
pub open spec fn transposed<T>(m: Matrix<T>, t: Matrix<T>) -> bool {
    &&& t.rows == m.cols
    &&& t.cols == m.rows
    &&& forall|i: int, j: int| 0 <= i < t.rows && 0 <= j < t.cols ==> #[trigger] t.at(i, j) == m.at(j, i)
}

/// `a` is the row vector `v` with `value` added at its end.
pub open spec fn row_appended<T>(v: Matrix<T>, value: T, a: Matrix<T>) -> bool {
    &&& a.rows == 1
    &&& a.cols == v.cols + 1
    &&& a.datas@ == v.datas@.push(value)
}

/// Two matrices with the same shape and the same elements.
pub open spec fn same_matrix<T>(a: Matrix<T>, b: Matrix<T>) -> bool {
    &&& a.rows == b.rows
    &&& a.cols == b.cols
    &&& a.len == b.len
    &&& a.datas@ == b.datas@
}

/// Copies the elements of `v` into a new vector.
fn copy_datas<T: Copy>(v: &Vec<T>) -> (r: Vec<T>)
    ensures
        r@ == v@,
{
    let mut out: Vec<T> = Vec::with_capacity(v.len());
    let mut k: usize = 0;
    while k < v.len()
        invariant
            k <= v@.len(),
            out@ == v@.subrange(0, k as int),
        decreases v@.len() - k,
    {
        out.push(v[k]);
        k = k + 1;
        proof {
            assert(out@ =~= v@.subrange(0, k as int));
        }
    }
    proof {
        assert(out@ =~= v@);
    }
    out
}

/// A new matrix with rows and columns swapped.
pub fn transpose<T: Copy>(m: &Matrix<T>) -> (r: Matrix<T>)
    requires
        m.wf(),
    ensures
        r.wf(),
        transposed(*m, r),
{
    let rows = m.rows;
    let cols = m.cols;
    let mut out: Vec<T> = Vec::with_capacity(m.len);
    let mut c: usize = 0;
    while c < cols
        invariant
            m.wf(),
            rows == m.rows,
            cols == m.cols,
            c <= cols,
            out@.len() == c * rows,
            forall|k: int| 0 <= k < out@.len() ==> out@[k] == m.at(k % rows as int, k / rows as int),
        decreases cols - c,
    {
        let mut i: usize = 0;
        while i < rows
            invariant
                m.wf(),
                rows == m.rows,
                cols == m.cols,
                c < cols,
                i <= rows,
                out@.len() == c * rows + i,
                forall|k: int| 0 <= k < out@.len() ==> out@[k] == m.at(k % rows as int, k / rows as int),
            decreases rows - i,
        {
            proof {
                lemma_flat_index(cols as int, rows as int, c as int, i as int);
            }
            let v = m.get(i, c);
            out.push(v);
            i = i + 1;
        }
        proof {
            assert((c + 1) * rows == c * rows + rows) by (nonlinear_arith);
        }
        c = c + 1;
    }
    proof {
        assert(cols * rows == rows * cols) by (nonlinear_arith);
    }
    let r = Matrix { rows: cols, cols: rows, len: m.len, datas: out };
    proof {
        assert forall|i: int, j: int| 0 <= i < r.rows && 0 <= j < r.cols implies #[trigger] r.at(i, j) == m.at(j, i) by {
            lemma_flat_index(cols as int, rows as int, i, j);
        }
    }
    r
}

/// A row vector seen as a column vector with the same elements.
pub fn row_transpose<T: Copy>(m: &Matrix<T>) -> (r: Matrix<T>)
    requires
        m.wf(),
        m.rows == 1,
    ensures
        r.wf(),
        r.rows == m.cols,
        r.cols == 1,
        r.datas@ == m.datas@,
{
    let datas = copy_datas(&m.datas);
    Matrix { rows: m.cols, cols: 1, len: m.len, datas }
}

/// A copy of the row vector `m` with `value` added at its end.
pub fn row_append<T: Copy>(m: &Matrix<T>, value: T) -> (r: Matrix<T>)
    requires
        m.wf(),
        m.rows == 1,
        m.len < usize::MAX,
    ensures
        r.wf(),
        row_appended(*m, value, r),
{
    let mut datas = copy_datas(&m.datas);
    datas.push(value);
    Matrix { rows: 1, cols: m.cols + 1, len: m.len + 1, datas }
}

/// A copy of the row vector `m` without its last element.
pub fn row_delete_last<T: Copy>(m: &Matrix<T>) -> (r: Matrix<T>)
    requires
        m.wf(),
        m.rows == 1,
        m.len > 1,
    ensures
        r.wf(),
        r.rows == 1,
        r.cols == m.cols - 1,
        r.datas@ == m.datas@.drop_last(),
{
    let mut datas = copy_datas(&m.datas);
    datas.pop();
    Matrix { rows: 1, cols: m.cols - 1, len: m.len - 1, datas }
}

/// The row vector made of the elements of `a` followed by those of `b`.
pub fn row_concatenate<T: Copy>(a: &Matrix<T>, b: &Matrix<T>) -> (r: Matrix<T>)
    requires
        a.wf(),
        b.wf(),
        a.rows == 1,
        b.rows == 1,
        a.len + b.len <= usize::MAX,
    ensures
        r.wf(),
        r.rows == 1,
        r.cols == a.cols + b.cols,
        r.datas@ == a.datas@ + b.datas@,
{
    let datas = copy_datas(&a.datas);
    let mut r = Matrix { rows: 1, cols: a.cols, len: a.len, datas };
    r.row_concatenate(b);
    r
}

/// Splits a row vector into its first `left_len` elements and the rest.
pub fn row_slice<T: Copy>(m: &Matrix<T>, left_len: usize) -> (r: (Matrix<T>, Matrix<T>))
    requires
        m.wf(),
        m.rows == 1,
        0 < left_len < m.len,
    ensures
        r.0.wf(),
        r.1.wf(),
        r.0.rows == 1,
        r.1.rows == 1,
        r.0.datas@ == m.datas@.subrange(0, left_len as int),
        r.1.datas@ == m.datas@.subrange(left_len as int, m.len as int),
{
    let mut left: Vec<T> = Vec::with_capacity(left_len);
    let mut right: Vec<T> = Vec::with_capacity(m.len - left_len);
    let mut k: usize = 0;
    while k < m.len
        invariant
            m.wf(),
            0 < left_len < m.len,
            k <= m.len,
            k <= left_len ==> left@ == m.datas@.subrange(0, k as int) && right@.len() == 0,
            k > left_len ==> left@ == m.datas@.subrange(0, left_len as int)
                && right@ == m.datas@.subrange(left_len as int, k as int),
        decreases m.len - k,
    {
        if k < left_len {
            left.push(m.datas[k]);
        } else {
            right.push(m.datas[k]);
        }
        k = k + 1;
        proof {
            assert(left@ =~= m.datas@.subrange(0, if k <= left_len { k as int } else { left_len as int }));
            if k > left_len {
                assert(right@ =~= m.datas@.subrange(left_len as int, k as int));
            }
        }
    }
    (Matrix::new_row_from_datas(left), Matrix::new_row_from_datas(right))
}

/// Transposing twice gives back the matrix.
pub proof fn lemma_transpose_involution<T>(m: Matrix<T>, t: Matrix<T>, tt: Matrix<T>)
    requires
        m.wf(),
        t.wf(),
        tt.wf(),
        transposed(m, t),
        transposed(t, tt),
    ensures
        same_matrix(tt, m),
{
    assert forall|k: int| 0 <= k < m.len implies tt.datas@[k] == m.datas@[k] by {
        lemma_flat_split(m.rows as int, m.cols as int, k);
        let i = k / m.cols as int;
        let j = k % m.cols as int;
        assert(tt.at(i, j) == t.at(j, i));
        assert(t.at(j, i) == m.at(i, j));
    }
    assert(tt.datas@ =~= m.datas@);
}

/// On a row vector, appending a value and then deleting the last column
/// gives back the row vector.
pub proof fn lemma_append_then_delete_last_col<T>(v: Matrix<T>, value: T, a: Matrix<T>, d: Matrix<T>)
    requires
        v.wf(),
        v.rows == 1,
        a.wf(),
        d.wf(),
        row_appended(v, value, a),
        last_col_deleted(a, d),
    ensures
        same_matrix(d, v),
{
    assert forall|k: int| 0 <= k < v.len implies d.datas@[k] == v.datas@[k] by {
        assert(d.at(0, k) == a.at(0, k));
    }
    assert(d.datas@ =~= v.datas@);
}

} // verus!
