use vstd::prelude::*;

verus! {

/// Dense two-dimensional container stored row-major in a flat buffer.
///
/// The element type is left open: the container owns layout and shape,
/// while the arithmetic on elements is supplied by the caller.
#[derive(Clone, Debug)]
pub struct Matrix<T> {
    pub rows: usize,
    pub cols: usize,
    pub len: usize,
    pub datas: Vec<T>,
}

/// Facts on the flat row-major index of a cell.
pub proof fn lemma_flat_index(rows: int, cols: int, r: int, c: int)
    requires
        0 <= r < rows,
        0 <= c < cols,
    ensures
        0 <= r * cols + c < rows * cols,
        (r * cols + c) / cols == r,
        (r * cols + c) % cols == c,
{
    assert(0 <= r * cols + c < rows * cols) by (nonlinear_arith)
        requires 0 <= r < rows, 0 <= c < cols;
    vstd::arithmetic::div_mod::lemma_fundamental_div_mod_converse(r * cols + c, cols, r, c);
}

/// Every flat index below `rows * cols` is the index of one cell.
pub proof fn lemma_flat_split(rows: int, cols: int, k: int)
    requires
        0 < cols,
        0 <= k < rows * cols,
    ensures
        0 <= k / cols < rows,
        0 <= k % cols < cols,
        k == (k / cols) * cols + k % cols,
{
    vstd::arithmetic::div_mod::lemma_fundamental_div_mod(k, cols);
    vstd::arithmetic::div_mod::lemma_div_pos_is_pos(k, cols);
    vstd::arithmetic::div_mod::lemma_mod_bound(k, cols);
    let q = k / cols;
    let m = k % cols;
    assert(k == q * cols + m) by (nonlinear_arith)
        requires k == cols * q + m;
    assert(q < rows) by (nonlinear_arith)
        requires k == q * cols + m, 0 <= m, k < rows * cols, 0 < cols;
}

impl<T> Matrix<T> {
    /// Shape and buffer agree, and neither dimension is empty.
    pub open spec fn wf(&self) -> bool {
        &&& self.rows > 0
        &&& self.cols > 0
        &&& self.len == self.rows * self.cols
        &&& self.datas@.len() == self.len
    }

    /// The element at row `r`, column `c`.
    pub open spec fn at(&self, r: int, c: int) -> T {
        self.datas@[r * self.cols + c]
    }

    pub open spec fn row_seq(&self, r: int) -> Seq<T> {
        Seq::new(self.cols as nat, |c: int| self.at(r, c))
    }

    pub open spec fn col_seq(&self, c: int) -> Seq<T> {
        Seq::new(self.rows as nat, |r: int| self.at(r, c))
    }

    pub open spec fn same_shape(&self, other: &Matrix<T>) -> bool {
        self.rows == other.rows && self.cols == other.cols
    }
}

impl<T: Copy> Matrix<T> {
    /// A `rows x cols` matrix with every element set to `fill`.
    pub fn new(rows: usize, cols: usize, fill: T) -> (r: Matrix<T>)
        requires
            rows > 0,
            cols > 0,
            rows * cols <= usize::MAX,
        ensures
            r.wf(),
            r.rows == rows,
            r.cols == cols,
            forall|k: int| 0 <= k < r.len ==> r.datas@[k] == fill,
    {
        let len: usize = rows * cols;
        let mut datas: Vec<T> = Vec::with_capacity(len);
        let mut k: usize = 0;
        while k < len
            invariant
                k <= len,
                datas@.len() == k,
                forall|j: int| 0 <= j < k ==> datas@[j] == fill,
            decreases len - k,
        {
            datas.push(fill);
            k = k + 1;
        }
        Matrix { rows, cols, len, datas }
    }

    /// A matrix built from a list of equally long rows.
    pub fn new_from_datas(datas: Vec<Vec<T>>) -> (r: Matrix<T>)
        requires
            datas@.len() > 0,
            datas@[0]@.len() > 0,
            forall|i: int| 0 <= i < datas@.len() ==> (#[trigger] datas@[i])@.len() == datas@[0]@.len(),
            datas@.len() * datas@[0]@.len() <= usize::MAX,
        ensures
            r.wf(),
            r.rows == datas@.len(),
            r.cols == datas@[0]@.len(),
            forall|i: int, j: int| 0 <= i < r.rows && 0 <= j < r.cols ==> r.at(i, j) == datas@[i]@[j],
    {
        let rows: usize = datas.len();
        let cols: usize = datas[0].len();
        let len: usize = rows * cols;
        let mut flat: Vec<T> = Vec::with_capacity(len);
        let mut i: usize = 0;
        while i < rows
            invariant
                rows == datas@.len(),
                cols == datas@[0]@.len(),
                cols > 0,
                len == rows * cols,
                forall|x: int| 0 <= x < datas@.len() ==> (#[trigger] datas@[x])@.len() == cols,
                i <= rows,
                flat@.len() == i * cols,
                forall|k: int| 0 <= k < flat@.len() ==> flat@[k] == datas@[k / cols as int]@[k % cols as int],
            decreases rows - i,
        {
            let mut j: usize = 0;
            while j < cols
                invariant
                    rows == datas@.len(),
                    cols == datas@[0]@.len(),
                    cols > 0,
                    forall|x: int| 0 <= x < datas@.len() ==> (#[trigger] datas@[x])@.len() == cols,
                    i < rows,
                    j <= cols,
                    flat@.len() == i * cols + j,
                    forall|k: int| 0 <= k < flat@.len() ==> flat@[k] == datas@[k / cols as int]@[k % cols as int],
                decreases cols - j,
            {
                proof {
                    lemma_flat_index(rows as int, cols as int, i as int, j as int);
                }
                flat.push(datas[i][j]);
                j = j + 1;
            }
            proof {
                assert((i + 1) * cols == i * cols + cols) by (nonlinear_arith);
            }
            i = i + 1;
        }
        let r = Matrix { rows, cols, len, datas: flat };
        proof {
            assert forall|a: int, b: int| 0 <= a < r.rows && 0 <= b < r.cols implies r.at(a, b) == datas@[a]@[b] by {
                lemma_flat_index(rows as int, cols as int, a, b);
            }
        }
        r
    }

    /// A `1 x len` matrix filled with `fill`.
    pub fn new_row(len: usize, fill: T) -> (r: Matrix<T>)
        requires
            len > 0,
        ensures
            r.wf(),
            r.rows == 1,
            r.cols == len,
            forall|k: int| 0 <= k < r.len ==> r.datas@[k] == fill,
    {
        Matrix::new(1, len, fill)
    }

    /// A row vector holding `datas`.
    pub fn new_row_from_datas(datas: Vec<T>) -> (r: Matrix<T>)
        requires
            datas@.len() > 0,
        ensures
            r.wf(),
            r.rows == 1,
            r.cols == datas@.len(),
            r.datas@ == datas@,
    {
        let cols = datas.len();
        Matrix { rows: 1, cols, len: cols, datas }
    }

    /// A `len x 1` matrix filled with `fill`.
    pub fn new_col(len: usize, fill: T) -> (r: Matrix<T>)
        requires
            len > 0,
        ensures
            r.wf(),
            r.rows == len,
            r.cols == 1,
            forall|k: int| 0 <= k < r.len ==> r.datas@[k] == fill,
    {
        Matrix::new(len, 1, fill)
    }

    /// A column vector holding `datas`.
    pub fn new_col_from_datas(datas: Vec<T>) -> (r: Matrix<T>)
        requires
            datas@.len() > 0,
        ensures
            r.wf(),
            r.rows == datas@.len(),
            r.cols == 1,
            r.datas@ == datas@,
    {
        let rows = datas.len();
        Matrix { rows, cols: 1, len: rows, datas }
    }

    /// The element at row `row`, column `col`.
    pub fn get(&self, row: usize, col: usize) -> (r: T)
        requires
            self.wf(),
            row < self.rows,
            col < self.cols,
        ensures
            r == self.at(row as int, col as int),
    {
        proof {
            lemma_flat_index(self.rows as int, self.cols as int, row as int, col as int);
        }
        self.datas[row * self.cols + col]
    }

    /// Replaces the element at row `row`, column `col`.
    pub fn set(&mut self, row: usize, col: usize, value: T)
        requires
            old(self).wf(),
            row < old(self).rows,
            col < old(self).cols,
        ensures
            final(self).wf(),
            final(self).same_shape(old(self)),
            final(self).datas@ == old(self).datas@.update(row * old(self).cols + col, value),
            final(self).at(row as int, col as int) == value,
    {
        proof {
            lemma_flat_index(self.rows as int, self.cols as int, row as int, col as int);
        }
        let k = row * self.cols + col;
        self.datas.set(k, value);
    }

    /// Sets every element to `fill`, keeping the shape.
    pub fn set_all(&mut self, fill: T)
        requires
            old(self).wf(),
        ensures
            final(self).wf(),
            final(self).same_shape(old(self)),
            forall|k: int| 0 <= k < final(self).len ==> final(self).datas@[k] == fill,
    {
        let mut k: usize = 0;
        while k < self.len
            invariant
                self.wf(),
                self.same_shape(old(self)),
                k <= self.len,
                forall|j: int| 0 <= j < k ==> self.datas@[j] == fill,
            decreases self.len - k,
        {
            self.datas.set(k, fill);
            k = k + 1;
        }
    }

    pub fn is_row(&self) -> (r: bool)
        ensures
            r == (self.rows == 1),
    {
        self.rows == 1
    }

    pub fn is_column(&self) -> (r: bool)
        ensures
            r == (self.cols == 1),
    {
        self.cols == 1
    }

    pub fn is_vector(&self) -> (r: bool)
        ensures
            r == (self.rows == 1 || self.cols == 1),
    {
        self.rows == 1 || self.cols == 1
    }

    /// Row `row` as a row vector.
    pub fn get_row(&self, row: usize) -> (r: Matrix<T>)
        requires
            self.wf(),
            row < self.rows,
        ensures
            r.wf(),
            r.rows == 1,
            r.cols == self.cols,
            r.datas@ == self.row_seq(row as int),
    {
        let mut out: Vec<T> = Vec::with_capacity(self.cols);
        let mut c: usize = 0;
        while c < self.cols
            invariant
                self.wf(),
                row < self.rows,
                c <= self.cols,
                out@ == self.row_seq(row as int).subrange(0, c as int),
            decreases self.cols - c,
        {
            let v = self.get(row, c);
            out.push(v);
            c = c + 1;
            proof {
                assert(out@ =~= self.row_seq(row as int).subrange(0, c as int));
            }
        }
        proof {
            assert(out@ =~= self.row_seq(row as int));
        }
        Matrix::new_row_from_datas(out)
    }

    /// Column `col` as a column vector.
    pub fn get_col(&self, col: usize) -> (r: Matrix<T>)
        requires
            self.wf(),
            col < self.cols,
        ensures
            r.wf(),
            r.rows == self.rows,
            r.cols == 1,
            r.datas@ == self.col_seq(col as int),
    {
        let mut out: Vec<T> = Vec::with_capacity(self.rows);
        let mut i: usize = 0;
        while i < self.rows
            invariant
                self.wf(),
                col < self.cols,
                i <= self.rows,
                out@ == self.col_seq(col as int).subrange(0, i as int),
            decreases self.rows - i,
        {
            let v = self.get(i, col);
            out.push(v);
            i = i + 1;
            proof {
                assert(out@ =~= self.col_seq(col as int).subrange(0, i as int));
            }
        }
        proof {
            assert(out@ =~= self.col_seq(col as int));
        }
        Matrix::new_col_from_datas(out)
    }

    /// Appends `value` at the end of a row vector.
    pub fn row_append(&mut self, value: T)
        requires
            old(self).wf(),
            old(self).rows == 1,
            old(self).len < usize::MAX,
        ensures
            final(self).wf(),
            final(self).rows == 1,
            final(self).cols == old(self).cols + 1,
            final(self).datas@ == old(self).datas@.push(value),
    {
        self.cols = self.cols + 1;
        self.len = self.len + 1;
        self.datas.push(value);
    }

    /// Removes the last element of a row vector of at least two elements.
    pub fn row_delete_last(&mut self)
        requires
            old(self).wf(),
            old(self).rows == 1,
            old(self).len > 1,
        ensures
            final(self).wf(),
            final(self).rows == 1,
            final(self).cols == old(self).cols - 1,
            final(self).datas@ == old(self).datas@.drop_last(),
    {
        self.cols = self.cols - 1;
        self.len = self.len - 1;
        self.datas.pop();
    }

    /// Appends the elements of the row vector `other` to this row vector.
    pub fn row_concatenate(&mut self, other: &Matrix<T>)
        requires
            old(self).wf(),
            other.wf(),
            old(self).rows == 1,
            other.rows == 1,
            old(self).len + other.len <= usize::MAX,
        ensures
            final(self).wf(),
            final(self).rows == 1,
            final(self).cols == old(self).cols + other.cols,
            final(self).datas@ == old(self).datas@ + other.datas@,
    {
        let mut k: usize = 0;
        while k < other.len
            invariant
                other.wf(),
                k <= other.len,
                self.datas@ == old(self).datas@ + other.datas@.subrange(0, k as int),
                old(self).len + other.len <= usize::MAX,
                self.rows == old(self).rows,
                self.cols == old(self).cols,
                self.len == old(self).len,
                other.rows == 1,
            decreases other.len - k,
        {
            self.datas.push(other.datas[k]);
            k = k + 1;
            proof {
                assert(self.datas@ =~= old(self).datas@ + other.datas@.subrange(0, k as int));
            }
        }
        proof {
            assert(other.datas@.subrange(0, other.len as int) =~= other.datas@);
        }
        self.cols = self.cols + other.cols;
        self.len = self.len + other.len;
    }

    /// Removes the last column of every row; at least two columns are needed.
    pub fn delete_last_col(&mut self)
        requires
            old(self).wf(),
            old(self).cols > 1,
        ensures
            final(self).wf(),
            last_col_deleted(*old(self), *final(self)),
    {
        let rows = self.rows;
        let cols = self.cols;
        let new_cols: usize = cols - 1;
        proof {
            assert(rows * new_cols <= rows * cols) by (nonlinear_arith)
                requires new_cols < cols;
        }
        let new_len: usize = rows * new_cols;
        let mut out: Vec<T> = Vec::with_capacity(new_len);
        let mut i: usize = 0;
        while i < rows
            invariant
                self.wf(),
                self.rows == rows,
                self.cols == cols,
                new_cols == cols - 1,
                new_cols > 0,
                i <= rows,
                out@.len() == i * new_cols,
                forall|k: int| 0 <= k < out@.len() ==> out@[k] == self.at(k / new_cols as int, k % new_cols as int),
            decreases rows - i,
        {
            let mut j: usize = 0;
            while j < new_cols
                invariant
                    self.wf(),
                    self.rows == rows,
                    self.cols == cols,
                    new_cols == cols - 1,
                    new_cols > 0,
                    i < rows,
                    j <= new_cols,
                    out@.len() == i * new_cols + j,
                    forall|k: int| 0 <= k < out@.len() ==> out@[k] == self.at(k / new_cols as int, k % new_cols as int),
                decreases new_cols - j,
            {
                proof {
                    lemma_flat_index(rows as int, new_cols as int, i as int, j as int);
                }
                let v = self.get(i, j);
                out.push(v);
                j = j + 1;
            }
            proof {
                assert((i + 1) * new_cols == i * new_cols + new_cols) by (nonlinear_arith);
            }
            i = i + 1;
        }
        let ghost before = *self;
        self.cols = new_cols;
        self.len = new_len;
        self.datas = out;
        proof {
            assert forall|a: int, b: int| 0 <= a < rows && 0 <= b < new_cols implies self.at(a, b) == before.at(a, b) by {
                lemma_flat_index(rows as int, new_cols as int, a, b);
            }
        }
    }

    /// Applies `f` to every element, keeping the shape.
    pub fn map<F: Fn(T) -> T>(&self, f: F) -> (r: Matrix<T>)
        requires
            self.wf(),
            forall|x: T| call_requires(f, (x,)),
        ensures
            r.wf(),
            r.same_shape(self),
            forall|k: int| 0 <= k < r.len ==> call_ensures(f, (self.datas@[k],), #[trigger] r.datas@[k]),
    {
        let mut out: Vec<T> = Vec::with_capacity(self.len);
        let mut k: usize = 0;
        while k < self.len
            invariant
                self.wf(),
                forall|x: T| call_requires(f, (x,)),
                k <= self.len,
                out@.len() == k,
                forall|j: int| 0 <= j < k ==> call_ensures(f, (self.datas@[j],), #[trigger] out@[j]),
            decreases self.len - k,
        {
            let v = f(self.datas[k]);
            out.push(v);
            k = k + 1;
        }
        Matrix { rows: self.rows, cols: self.cols, len: self.len, datas: out }
    }

    /// Combines two matrices of the same shape element by element with `f`.
    pub fn zip_with<F: Fn(T, T) -> T>(&self, other: &Matrix<T>, f: F) -> (r: Matrix<T>)
        requires
            self.wf(),
            other.wf(),
            self.same_shape(other),
            forall|x: T, y: T| call_requires(f, (x, y)),
        ensures
            r.wf(),
            r.same_shape(self),
            forall|k: int| 0 <= k < r.len ==> call_ensures(f, (self.datas@[k], other.datas@[k]), #[trigger] r.datas@[k]),
    {
        let mut out: Vec<T> = Vec::with_capacity(self.len);
        let mut k: usize = 0;
        while k < self.len
            invariant
                self.wf(),
                other.wf(),
                self.same_shape(other),
                forall|x: T, y: T| call_requires(f, (x, y)),
                k <= self.len,
                out@.len() == k,
                forall|j: int| 0 <= j < k ==> call_ensures(f, (self.datas@[j], other.datas@[j]), #[trigger] out@[j]),
            decreases self.len - k,
        {
            let v = f(self.datas[k], other.datas[k]);
            out.push(v);
            k = k + 1;
        }
        Matrix { rows: self.rows, cols: self.cols, len: self.len, datas: out }
    }

    /// Matrix product. Each cell is accumulated from `zero` by
    /// `acc = mul_add(acc, a, b)` over the row of `self` and the column of
    /// `other`, in increasing index order.
    pub fn m_dot_with<F: Fn(T, T, T) -> T>(&self, other: &Matrix<T>, zero: T, mul_add: F) -> (r: Matrix<T>)
        requires
            self.wf(),
            other.wf(),
            self.cols == other.rows,
            self.rows * other.cols <= usize::MAX,
            forall|acc: T, x: T, y: T| call_requires(mul_add, (acc, x, y)),
        ensures
            r.wf(),
            r.rows == self.rows,
            r.cols == other.cols,
            forall|i: int, j: int| 0 <= i < r.rows && 0 <= j < r.cols ==>
                dot_result(mul_add, zero, self.row_seq(i), other.col_seq(j), #[trigger] r.at(i, j)),
    {
        let rows = self.rows;
        let cols = other.cols;
        let inner = self.cols;
        let len: usize = rows * cols;
        let mut out: Vec<T> = Vec::with_capacity(len);
        let mut i: usize = 0;
        while i < rows
            invariant
                self.wf(),
                other.wf(),
                rows == self.rows,
                cols == other.cols,
                inner == self.cols,
                inner == other.rows,
                forall|acc: T, x: T, y: T| call_requires(mul_add, (acc, x, y)),
                i <= rows,
                out@.len() == i * cols,
                forall|k: int| 0 <= k < out@.len() ==>
                    dot_result(mul_add, zero, self.row_seq(k / cols as int), other.col_seq(k % cols as int), #[trigger] out@[k]),
            decreases rows - i,
        {
            let mut j: usize = 0;
            while j < cols
                invariant
                    self.wf(),
                    other.wf(),
                    rows == self.rows,
                    cols == other.cols,
                    inner == self.cols,
                    inner == other.rows,
                    forall|acc: T, x: T, y: T| call_requires(mul_add, (acc, x, y)),
                    i < rows,
                    j <= cols,
                    out@.len() == i * cols + j,
                    forall|k: int| 0 <= k < out@.len() ==>
                        dot_result(mul_add, zero, self.row_seq(k / cols as int), other.col_seq(k % cols as int), #[trigger] out@[k]),
                decreases cols - j,
            {
                let mut acc = zero;
                let ghost mut chain: Seq<T> = seq![zero];
                let mut k: usize = 0;
                while k < inner
                    invariant
                        self.wf(),
                        other.wf(),
                        rows == self.rows,
                        cols == other.cols,
                        inner == self.cols,
                        inner == other.rows,
                        forall|acc: T, x: T, y: T| call_requires(mul_add, (acc, x, y)),
                        i < rows,
                        j < cols,
                        k <= inner,
                        chain.len() == k + 1,
                        chain[0] == zero,
                        chain.last() == acc,
                        forall|t: int| 0 <= t < k ==>
                            call_ensures(mul_add, (chain[t], self.at(i as int, t), other.at(t, j as int)), #[trigger] chain[t + 1]),
                    decreases inner - k,
                {
                    let x = self.get(i, k);
                    let y = other.get(k, j);
                    let next = mul_add(acc, x, y);
                    proof {
                        chain = chain.push(next);
                    }
                    acc = next;
                    k = k + 1;
                }
                proof {
                    lemma_flat_index(rows as int, cols as int, i as int, j as int);
                    let a_row = self.row_seq(i as int);
                    let b_col = other.col_seq(j as int);
                    assert forall|t: int| 0 <= t < a_row.len() implies
                        call_ensures(mul_add, (chain[t], a_row[t], b_col[t]), #[trigger] chain[t + 1]) by {
                    }
                    assert(dot_chain(mul_add, zero, a_row, b_col, chain));
                }
                out.push(acc);
                j = j + 1;
            }
            proof {
                assert((i + 1) * cols == i * cols + cols) by (nonlinear_arith);
            }
            i = i + 1;
        }
        let r = Matrix { rows, cols, len, datas: out };
        proof {
            assert forall|a: int, b: int| 0 <= a < r.rows && 0 <= b < r.cols implies
                dot_result(mul_add, zero, self.row_seq(a), other.col_seq(b), #[trigger] r.at(a, b)) by {
                lemma_flat_index(rows as int, cols as int, a, b);
            }
        }
        r
    }

    /// A deep copy: same shape, same elements.
    pub fn copy(&self) -> (r: Matrix<T>)
        ensures
            r.rows == self.rows,
            r.cols == self.cols,
            r.len == self.len,
            r.datas@ == self.datas@,
    {
        let mut out: Vec<T> = Vec::with_capacity(self.datas.len());
        let mut k: usize = 0;
        while k < self.datas.len()
            invariant
                k <= self.datas@.len(),
                out@ == self.datas@.subrange(0, k as int),
            decreases self.datas@.len() - k,
        {
            out.push(self.datas[k]);
            k = k + 1;
            proof {
                assert(out@ =~= self.datas@.subrange(0, k as int));
            }
        }
        proof {
            assert(out@ =~= self.datas@);
        }
        Matrix { rows: self.rows, cols: self.cols, len: self.len, datas: out }
    }
}

/// `m` is the row vector holding exactly `s`.
pub open spec fn is_row_of<T>(m: Matrix<T>, s: Seq<T>) -> bool {
    &&& m.wf()
    &&& m.rows == 1
    &&& m.datas@ == s
}

/// `after` is `before` with its last column removed.
pub open spec fn last_col_deleted<T>(before: Matrix<T>, after: Matrix<T>) -> bool {
    &&& after.rows == before.rows
    &&& after.cols + 1 == before.cols
    &&& forall|i: int, j: int| 0 <= i < after.rows && 0 <= j < after.cols ==> #[trigger] after.at(i, j) == before.at(i, j)
}

/// `chain` is the sequence of accumulator values met while folding
/// `mul_add` over the pairs of `a` and `b`, starting from `zero`.
pub open spec fn dot_chain<T, F: Fn(T, T, T) -> T>(mul_add: F, zero: T, a: Seq<T>, b: Seq<T>, chain: Seq<T>) -> bool {
    &&& a.len() == b.len()
    &&& chain.len() == a.len() + 1
    &&& chain[0] == zero
    &&& forall|t: int| 0 <= t < a.len() ==> call_ensures(mul_add, (chain[t], a[t], b[t]), #[trigger] chain[t + 1])
}

/// `v` is a possible result of folding `mul_add` over `a` and `b` from `zero`.
pub open spec fn dot_result<T, F: Fn(T, T, T) -> T>(mul_add: F, zero: T, a: Seq<T>, b: Seq<T>, v: T) -> bool {
    exists|chain: Seq<T>| #[trigger] dot_chain(mul_add, zero, a, b, chain) && chain.last() == v
}

} // verus!
