//! Dense matrices over one flat buffer, addressed through explicit strides.
//!
//! The two BLAS-style memory orders are first-class here: a [`Matrix`] knows
//! its strides, and the layout resolver ([`Matrix::contiguous_layout`])
//! decides whether the entries are addressable as one contiguous row-major
//! or column-major block. Every aliasing question of the engines reduces to
//! the injectivity of the stride addressing, proved once in this module.

use vstd::prelude::*;
use vstd::pervasive::VecAdditionalExecFns;
use crate::scalar::Scalar;

verus! {

/// The memory order of a contiguous matrix.
#[derive(Clone, Copy, Debug, PartialEq, Eq, Structural)]
pub enum Layout {
    /// Rows are laid out one after the other (C order).
    RowMajor,
    /// Columns are laid out one after the other (Fortran order).
    ColumnMajor,
}

/// Buffer position of entry (i, j) under the given strides.
pub open spec fn strided_index(i: int, j: int, row_stride: int, col_stride: int) -> int {
    i * row_stride + j * col_stride
}

/// Whether every entry of a `rows` by `cols` matrix with the given strides
/// falls inside a buffer of length `len`.
pub open spec fn strides_fit(rows: int, cols: int, row_stride: int, col_stride: int, len: int) -> bool {
    forall|i: int, j: int|
        0 <= i < rows && 0 <= j < cols
            ==> #[trigger] strided_index(i, j, row_stride, col_stride) < len
}

/// The layout an engine constructed for this shape ends up bound to. A
/// one-by-one matrix is one contiguous block either way and the resolver
/// reports it as row-major.
pub open spec fn resolve_shape_layout(rows: int, cols: int, layout: Layout) -> Layout {
    if rows == 1 && cols == 1 {
        Layout::RowMajor
    } else {
        layout
    }
}

/// A matrix over a flat buffer addressed through explicit strides.
///
/// Entry (i, j) lives at position `i * row_stride + j * col_stride` of
/// `data`. Arbitrary strides are accepted for reading, so a window into a
/// larger buffer can be described; the engines accept such a matrix only
/// after the layout resolver has recognised it as contiguous.
pub struct Matrix<T> {
    /// The backing storage.
    pub data: Vec<T>,
    /// Number of rows.
    pub rows: usize,
    /// Number of columns.
    pub cols: usize,
    /// Distance in the buffer between vertically adjacent entries.
    pub row_stride: usize,
    /// Distance in the buffer between horizontally adjacent entries.
    pub col_stride: usize,
}

impl<T> Matrix<T> {
    /// Position of entry (i, j) in the backing storage.
    pub open spec fn index_of(self, i: int, j: int) -> int {
        i * self.row_stride + j * self.col_stride
    }

    /// Every entry is addressable inside the backing storage.
    pub open spec fn wf(self) -> bool {
        &&& self.data.len() <= usize::MAX
        &&& forall|i: int, j: int|
            0 <= i < self.rows && 0 <= j < self.cols
                ==> #[trigger] self.index_of(i, j) < self.data.len()
    }

    /// The entry in row i, column j.
    pub open spec fn entry(self, i: int, j: int) -> T {
        self.data[self.index_of(i, j)]
    }

    /// Column j, top entry first.
    pub open spec fn col(self, j: int) -> Seq<T> {
        Seq::new(self.rows as nat, |i: int| self.entry(i, j))
    }

    /// All columns, leftmost first.
    pub open spec fn col_seq(self) -> Seq<Seq<T>> {
        Seq::new(self.cols as nat, |j: int| self.col(j))
    }

    /// The strides address one contiguous block in row-major order.
    pub open spec fn spec_row_major(self) -> bool {
        self.row_stride == self.cols && self.col_stride == 1
    }

    /// The strides address one contiguous block in column-major order.
    pub open spec fn spec_col_major(self) -> bool {
        self.row_stride == 1 && self.col_stride == self.rows
    }

    /// The layout the resolver assigns; row-major is recognised first, as a
    /// one-by-one matrix satisfies both descriptions.
    pub open spec fn layout_spec(self) -> Option<Layout> {
        if self.spec_row_major() {
            Some(Layout::RowMajor)
        } else if self.spec_col_major() {
            Some(Layout::ColumnMajor)
        } else {
            None
        }
    }

    /// Contiguous and exactly filling its buffer: the shape the engines keep
    /// their own factors in.
    pub open spec fn dense(self) -> bool {
        &&& self.wf()
        &&& self.layout_spec() is Some
        &&& self.data.len() == self.rows * self.cols
    }

    /// Shape and strides agree; updating entries never changes these.
    pub open spec fn same_frame(self, other: Self) -> bool {
        &&& self.rows == other.rows
        &&& self.cols == other.cols
        &&& self.row_stride == other.row_stride
        &&& self.col_stride == other.col_stride
        &&& self.data.len() == other.data.len()
    }

    /// The layout resolver: decides whether the matrix's entries are
    /// addressable as one contiguous row-major or column-major block.
    pub fn contiguous_layout(&self) -> (r: Option<Layout>)
        ensures
            r == self.layout_spec(),
    {
        if self.row_stride == self.cols && self.col_stride == 1 {
            Some(Layout::RowMajor)
        } else if self.row_stride == 1 && self.col_stride == self.rows {
            Some(Layout::ColumnMajor)
        } else {
            None
        }
    }

    /// Read the entry in row i, column j.
    pub fn get(&self, i: usize, j: usize) -> (v: T) where T: Copy
        requires
            self.wf(),
            i < self.rows,
            j < self.cols,
        ensures
            v == self.entry(i as int, j as int),
    {
        proof {
            assert(self.index_of(i as int, j as int) < self.data.len());
            vstd::arithmetic::mul::lemma_mul_nonnegative(i as int, self.row_stride as int);
            vstd::arithmetic::mul::lemma_mul_nonnegative(j as int, self.col_stride as int);
        }
        self.data[i * self.row_stride + j * self.col_stride]
    }

    /// Overwrite the entry in row i, column j. Demands a dense matrix: under
    /// a contiguous layout the stride addressing is injective, so the update
    /// provably leaves every other entry alone.
    pub fn put(&mut self, i: usize, j: usize, v: T)
        requires
            old(self).dense(),
            i < old(self).rows,
            j < old(self).cols,
        ensures
            final(self).same_frame(*old(self)),
            final(self).dense(),
            final(self).entry(i as int, j as int) == v,
            forall|i2: int, j2: int|
                0 <= i2 < old(self).rows && 0 <= j2 < old(self).cols && !(i2 == i && j2 == j)
                    ==> #[trigger] final(self).entry(i2, j2) == old(self).entry(i2, j2),
    {
        proof {
            assert(self.index_of(i as int, j as int) < self.data.len());
            vstd::arithmetic::mul::lemma_mul_nonnegative(i as int, self.row_stride as int);
            vstd::arithmetic::mul::lemma_mul_nonnegative(j as int, self.col_stride as int);
        }
        let k = i * self.row_stride + j * self.col_stride;
        self.data.set(k, v);
        proof {
            assert forall|i2: int, j2: int|
                0 <= i2 < self.rows && 0 <= j2 < self.cols
                    implies #[trigger] self.index_of(i2, j2) < self.data.len() by {
                assert(old(self).index_of(i2, j2) < old(self).data.len());
            }
            assert forall|i2: int, j2: int|
                0 <= i2 < old(self).rows && 0 <= j2 < old(self).cols && !(i2 == i && j2 == j)
                    implies #[trigger] self.entry(i2, j2) == old(self).entry(i2, j2) by {
                vstd::arithmetic::mul::lemma_mul_nonnegative(i2, self.row_stride as int);
                vstd::arithmetic::mul::lemma_mul_nonnegative(j2, self.col_stride as int);
                assert(old(self).index_of(i2, j2) < old(self).data.len());
                if old(self).index_of(i2, j2) == old(self).index_of(i as int, j as int) {
                    lemma_dense_index_injective(*old(self), i2, j2, i as int, j as int);
                    assert(false);
                }
            }
        }
    }

    /// Copy column j out, top entry first.
    pub fn read_col(&self, j: usize) -> (v: Vec<T>) where T: Copy
        requires
            self.wf(),
            j < self.cols,
        ensures
            v@ == self.col(j as int),
    {
        let mut v: Vec<T> = Vec::new();
        let mut i: usize = 0;
        while i < self.rows
            invariant
                self.wf(),
                j < self.cols,
                i <= self.rows,
                v@.len() == i,
                forall|i2: int| 0 <= i2 < i ==> v@[i2] == self.entry(i2, j as int),
            decreases self.rows - i,
        {
            let x = self.get(i, j);
            v.push(x);
            i = i + 1;
        }
        proof {
            assert(v@ =~= self.col(j as int));
        }
        v
    }

    /// Overwrite column j in place, leaving every other column as it was.
    pub fn write_col(&mut self, j: usize, v: &Vec<T>) where T: Copy
        requires
            old(self).dense(),
            j < old(self).cols,
            v@.len() == old(self).rows,
        ensures
            final(self).same_frame(*old(self)),
            final(self).dense(),
            final(self).col(j as int) == v@,
            forall|j2: int|
                0 <= j2 < old(self).cols && j2 != j ==> #[trigger] final(self).col(j2) == old(self).col(j2),
    {
        let ghost orig = *old(self);
        let mut i: usize = 0;
        while i < self.rows
            invariant
                self.dense(),
                self.same_frame(orig),
                j < self.cols,
                i <= self.rows,
                v@.len() == self.rows,
                forall|i2: int| 0 <= i2 < i ==> #[trigger] self.entry(i2, j as int) == v@[i2],
                forall|i2: int, j2: int|
                    0 <= i2 < self.rows && 0 <= j2 < self.cols && j2 != j
                        ==> #[trigger] self.entry(i2, j2) == orig.entry(i2, j2),
            decreases self.rows - i,
        {
            let x = v[i];
            self.put(i, j, x);
            i = i + 1;
        }
        proof {
            assert(self.col(j as int) =~= v@);
            assert forall|j2: int|
                0 <= j2 < orig.cols && j2 != j implies #[trigger] self.col(j2) == orig.col(j2) by {
                assert(self.col(j2) =~= orig.col(j2));
            }
        }
    }

    /// A fresh matrix equal to this one, field for field.
    pub fn copy_of(&self) -> (m: Self) where T: Copy
        ensures
            m.data@ == self.data@,
            m.rows == self.rows,
            m.cols == self.cols,
            m.row_stride == self.row_stride,
            m.col_stride == self.col_stride,
    {
        let mut data: Vec<T> = Vec::new();
        let mut k: usize = 0;
        while k < self.data.len()
            invariant
                k <= self.data.len(),
                data@.len() == k,
                forall|k2: int| 0 <= k2 < k ==> data@[k2] == self.data@[k2],
            decreases self.data.len() - k,
        {
            let x = self.data[k];
            data.push(x);
            k = k + 1;
        }
        proof {
            assert(data@ =~= self.data@);
        }
        Matrix {
            data,
            rows: self.rows,
            cols: self.cols,
            row_stride: self.row_stride,
            col_stride: self.col_stride,
        }
    }

    /// A zero-filled dense matrix in the requested layout.
    pub fn zeros(rows: usize, cols: usize, layout: Layout) -> (m: Self) where T: Scalar
        requires
            rows * cols <= usize::MAX,
        ensures
            m.dense(),
            m.rows == rows,
            m.cols == cols,
            m.layout_spec() == Some(resolve_shape_layout(rows as int, cols as int, layout)),
            forall|i: int, j: int|
                0 <= i < rows && 0 <= j < cols ==> #[trigger] m.entry(i, j) == T::zero_spec(),
    {
        let n = rows * cols;
        let mut data: Vec<T> = Vec::new();
        let mut k: usize = 0;
        while k < n
            invariant
                k <= n,
                data@.len() == k,
                forall|k2: int| 0 <= k2 < k ==> data@[k2] == T::zero_spec(),
            decreases n - k,
        {
            let z = T::zero();
            data.push(z);
            k = k + 1;
        }
        let m = match layout {
            Layout::RowMajor => Matrix { data, rows, cols, row_stride: cols, col_stride: 1 },
            Layout::ColumnMajor => Matrix { data, rows, cols, row_stride: 1, col_stride: rows },
        };
        proof {
            lemma_standard_strides_fit(m);
            assert forall|i: int, j: int|
                0 <= i < rows && 0 <= j < cols implies #[trigger] m.entry(i, j) == T::zero_spec() by {
                vstd::arithmetic::mul::lemma_mul_nonnegative(i, m.row_stride as int);
                vstd::arithmetic::mul::lemma_mul_nonnegative(j, m.col_stride as int);
                assert(m.index_of(i, j) < m.data.len());
            }
        }
        m
    }

    /// Build a dense matrix in the given layout from its flat contents.
    /// Fails exactly when the element count does not match the shape.
    pub fn from_shape_vec(rows: usize, cols: usize, layout: Layout, data: Vec<T>) -> (m: Option<Self>)
        ensures
            match m {
                Some(mm) => {
                    &&& mm.dense()
                    &&& mm.rows == rows
                    &&& mm.cols == cols
                    &&& mm.layout_spec() == Some(resolve_shape_layout(rows as int, cols as int, layout))
                    &&& mm.data@ == data@
                    &&& rows * cols == data@.len()
                },
                None => rows * cols != data@.len(),
            },
    {
        let len = data.len();
        match rows.checked_mul(cols) {
            Some(n) => {
                if n == len {
                    let m = match layout {
                        Layout::RowMajor => Matrix { data, rows, cols, row_stride: cols, col_stride: 1 },
                        Layout::ColumnMajor => Matrix { data, rows, cols, row_stride: 1, col_stride: rows },
                    };
                    proof {
                        lemma_standard_strides_fit(m);
                    }
                    Some(m)
                } else {
                    None
                }
            },
            None => None,
        }
    }

    /// Describe a window into a flat buffer with arbitrary strides. Fails
    /// exactly when some entry would fall outside the buffer.
    pub fn with_strides(
        rows: usize,
        cols: usize,
        row_stride: usize,
        col_stride: usize,
        data: Vec<T>,
    ) -> (m: Option<Self>)
        ensures
            match m {
                Some(mm) => {
                    &&& mm.wf()
                    &&& mm.rows == rows
                    &&& mm.cols == cols
                    &&& mm.row_stride == row_stride
                    &&& mm.col_stride == col_stride
                    &&& mm.data@ == data@
                },
                None => !strides_fit(
                    rows as int,
                    cols as int,
                    row_stride as int,
                    col_stride as int,
                    data@.len() as int,
                ),
            },
    {
        let len = data.len();
        if rows == 0 || cols == 0 {
            return Some(Matrix { data, rows, cols, row_stride, col_stride });
        }
        let top_opt = (rows - 1).checked_mul(row_stride);
        if top_opt.is_none() {
            proof {
                vstd::arithmetic::mul::lemma_mul_nonnegative(rows - 1, row_stride as int);
                vstd::arithmetic::mul::lemma_mul_nonnegative(cols - 1, col_stride as int);
                lemma_far_corner_out(rows as int, cols as int, row_stride as int, col_stride as int, len as int);
            }
            return None;
        }
        let top = top_opt.unwrap();
        let side_opt = (cols - 1).checked_mul(col_stride);
        if side_opt.is_none() {
            proof {
                vstd::arithmetic::mul::lemma_mul_nonnegative(rows - 1, row_stride as int);
                vstd::arithmetic::mul::lemma_mul_nonnegative(cols - 1, col_stride as int);
                lemma_far_corner_out(rows as int, cols as int, row_stride as int, col_stride as int, len as int);
            }
            return None;
        }
        let side = side_opt.unwrap();
        let corner_opt = top.checked_add(side);
        if corner_opt.is_none() {
            proof {
                vstd::arithmetic::mul::lemma_mul_nonnegative(rows - 1, row_stride as int);
                vstd::arithmetic::mul::lemma_mul_nonnegative(cols - 1, col_stride as int);
                lemma_far_corner_out(rows as int, cols as int, row_stride as int, col_stride as int, len as int);
            }
            return None;
        }
        let corner = corner_opt.unwrap();
        if corner < len {
            let m = Matrix { data, rows, cols, row_stride, col_stride };
            proof {
                assert forall|i: int, j: int|
                    0 <= i < rows && 0 <= j < cols implies #[trigger] m.index_of(i, j) < m.data.len() by {
                    vstd::arithmetic::mul::lemma_mul_inequality(i, rows - 1, row_stride as int);
                    vstd::arithmetic::mul::lemma_mul_inequality(j, cols - 1, col_stride as int);
                }
            }
            Some(m)
        } else {
            proof {
                vstd::arithmetic::mul::lemma_mul_nonnegative(rows - 1, row_stride as int);
                vstd::arithmetic::mul::lemma_mul_nonnegative(cols - 1, col_stride as int);
                lemma_far_corner_out(rows as int, cols as int, row_stride as int, col_stride as int, len as int);
            }
            None
        }
    }
}

/// If the far corner of a nonempty window does not land strictly inside the
/// buffer, the strides do not fit it.
proof fn lemma_far_corner_out(rows: int, cols: int, row_stride: int, col_stride: int, len: int)
    requires
        1 <= rows,
        1 <= cols,
        0 <= row_stride,
        0 <= col_stride,
        (rows - 1) * row_stride + (cols - 1) * col_stride >= len,
    ensures
        !strides_fit(rows, cols, row_stride, col_stride, len),
{
    assert(strided_index(rows - 1, cols - 1, row_stride, col_stride) >= len);
}

/// In a contiguous matrix the stride addressing is injective: two distinct
/// positions never share a buffer index. This is the no-aliasing fact behind
/// every in-place update of the engines.
pub proof fn lemma_dense_index_injective<T>(m: Matrix<T>, i1: int, j1: int, i2: int, j2: int)
    requires
        m.layout_spec() is Some,
        0 <= i1 < m.rows,
        0 <= j1 < m.cols,
        0 <= i2 < m.rows,
        0 <= j2 < m.cols,
        m.index_of(i1, j1) == m.index_of(i2, j2),
    ensures
        i1 == i2,
        j1 == j2,
{
    if m.spec_row_major() {
        lemma_quot_rem_unique(m.cols as int, i1, j1, i2, j2);
    } else {
        lemma_quot_rem_unique(m.rows as int, j1, i1, j2, i2);
    }
}

/// A matrix is its parts: one whose buffer contents, shape and strides
/// equal another's has the same entries, columns, layout and density.
pub proof fn lemma_matrix_parts_determine<T>(a: Matrix<T>, b: Matrix<T>)
    requires
        a.data@ == b.data@,
        a.rows == b.rows,
        a.cols == b.cols,
        a.row_stride == b.row_stride,
        a.col_stride == b.col_stride,
    ensures
        a.wf() <==> b.wf(),
        a.dense() <==> b.dense(),
        a.layout_spec() == b.layout_spec(),
        a.col_seq() == b.col_seq(),
        forall|i: int, j: int| #[trigger] b.entry(i, j) == a.entry(i, j),
{
    assert forall|i: int, j: int| #[trigger] b.entry(i, j) == a.entry(i, j) by {
        assert(a.index_of(i, j) == b.index_of(i, j));
    }
    assert forall|i: int, j: int|
        0 <= i < a.rows && 0 <= j < a.cols && a.wf()
            implies #[trigger] b.index_of(i, j) < b.data.len() by {
        assert(a.index_of(i, j) < a.data.len());
    }
    assert forall|i: int, j: int|
        0 <= i < b.rows && 0 <= j < b.cols && b.wf()
            implies #[trigger] a.index_of(i, j) < a.data.len() by {
        assert(b.index_of(i, j) < b.data.len());
    }
    assert forall|j: int| 0 <= j < a.cols implies a.col(j) == b.col(j) by {
        assert(a.col(j) =~= b.col(j));
    }
    assert(a.col_seq() =~= b.col_seq());
}

/// Two dense matrices over the same shape, strides and buffer length whose
/// entries agree everywhere hold exactly the same buffer: the stride
/// addressing reaches every buffer position, so the entries determine the
/// stored data completely.
pub proof fn lemma_dense_entries_determine_data<T>(a: Matrix<T>, b: Matrix<T>)
    requires
        a.dense(),
        b.dense(),
        a.rows == b.rows,
        a.cols == b.cols,
        a.row_stride == b.row_stride,
        a.col_stride == b.col_stride,
        forall|i: int, j: int|
            0 <= i < a.rows && 0 <= j < a.cols ==> #[trigger] a.entry(i, j) == b.entry(i, j),
    ensures
        a.data@ == b.data@,
{
    assert forall|k: int| 0 <= k < a.data@.len() implies a.data@[k] == b.data@[k] by {
        if a.spec_row_major() {
            let d = a.cols as int;
            assert(d > 0) by (nonlinear_arith)
                requires
                    0 < a.rows * a.cols,
                    d == a.cols,
                    0 <= a.rows,
            ;
            let i = k / d;
            let j = k % d;
            vstd::arithmetic::div_mod::lemma_fundamental_div_mod(k, d);
            vstd::arithmetic::div_mod::lemma_mod_division_less_than_divisor(k, d);
            vstd::arithmetic::div_mod::lemma_div_pos_is_pos(k, d);
            assert(i < a.rows) by (nonlinear_arith)
                requires
                    0 < d,
                    d * i + j == k,
                    0 <= j < d,
                    0 <= i,
                    k < a.rows * d,
            ;
            assert(i * a.row_stride + j * a.col_stride == k) by (nonlinear_arith)
                requires
                    a.row_stride == d,
                    a.col_stride == 1,
                    d * i + j == k,
            ;
            assert(a.index_of(i, j) == k);
            assert(a.entry(i, j) == b.entry(i, j));
        } else {
            let d = a.rows as int;
            assert(d > 0) by (nonlinear_arith)
                requires
                    0 < a.rows * a.cols,
                    d == a.rows,
                    0 <= a.cols,
            ;
            let j = k / d;
            let i = k % d;
            vstd::arithmetic::div_mod::lemma_fundamental_div_mod(k, d);
            vstd::arithmetic::div_mod::lemma_mod_division_less_than_divisor(k, d);
            vstd::arithmetic::div_mod::lemma_div_pos_is_pos(k, d);
            assert(j < a.cols) by (nonlinear_arith)
                requires
                    0 < d,
                    d * j + i == k,
                    0 <= i < d,
                    0 <= j,
                    k < d * a.cols,
            ;
            assert(i * a.row_stride + j * a.col_stride == k) by (nonlinear_arith)
                requires
                    a.row_stride == 1,
                    a.col_stride == d,
                    d * j + i == k,
            ;
            assert(a.index_of(i, j) == k);
            assert(a.entry(i, j) == b.entry(i, j));
        }
    }
    assert(a.data@ =~= b.data@);
}

/// Uniqueness of quotient and remainder: if `q1*d + r1 == q2*d + r2` with
/// both remainders inside `[0, d)`, the pairs agree.
proof fn lemma_quot_rem_unique(d: int, q1: int, r1: int, q2: int, r2: int)
    requires
        0 <= r1 < d,
        0 <= r2 < d,
        0 <= q1,
        0 <= q2,
        q1 * d + r1 == q2 * d + r2,
    ensures
        q1 == q2,
        r1 == r2,
{
    assert(q1 == q2 && r1 == r2) by (nonlinear_arith)
        requires
            0 <= r1 < d,
            0 <= r2 < d,
            0 <= q1,
            0 <= q2,
            q1 * d + r1 == q2 * d + r2,
    ;
}

/// A matrix with standard strides for one of the two contiguous layouts,
/// over a buffer of exactly `rows * cols` elements, is dense; and the
/// resolver reports the layout it was built for, except that a one-by-one
/// matrix always reads as row-major.
proof fn lemma_standard_strides_fit<T>(m: Matrix<T>)
    requires
        m.spec_row_major() || m.spec_col_major(),
        m.data.len() == m.rows * m.cols,
        m.data.len() <= usize::MAX,
    ensures
        m.wf(),
        m.dense(),
{
    assert forall|i: int, j: int|
        0 <= i < m.rows && 0 <= j < m.cols implies #[trigger] m.index_of(i, j) < m.data.len() by {
        if m.spec_row_major() {
            assert(i * m.cols + j * 1 < m.rows * m.cols) by (nonlinear_arith)
                requires
                    0 <= i < m.rows,
                    0 <= j < m.cols,
            ;
        } else {
            assert(i * 1 + j * m.rows < m.rows * m.cols) by (nonlinear_arith)
                requires
                    0 <= i < m.rows,
                    0 <= j < m.cols,
            ;
        }
    }
}

} // verus!
