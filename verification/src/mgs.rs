//! The modified Gram-Schmidt engine: sequential, vector-at-a-time
//! orthogonalization with the late-projection ordering.
//!
//! For each column in turn, the projection against every already finalized
//! column is computed from the *current* vector and removed at once, one
//! direction at a time; only then is the column normalized. This ordering
//! has the better locality and is the one used whenever execution is
//! single-threaded; the early-projection ordering lives in
//! [`crate::parallel`].

use vstd::prelude::*;
use crate::{Error, GramSchmidt};
use crate::kernel::{
    div_all,
    div_all_spec,
    lower_triangle_zero,
    mgs_coeff_spec,
    mgs_reduce,
    mgs_reduce_spec,
    norm,
    norm_spec,
};
use crate::matrix::{Layout, Matrix, lemma_dense_entries_determine_data, resolve_shape_layout};
use crate::scalar::Scalar;

verus! {

/// The column the modified procedure produces from `a_col`, given the
/// already finalized columns `prev`: the fully reduced vector, normalized.
pub open spec fn mgs_col_spec<T: Scalar>(prev: Seq<Seq<T>>, a_col: Seq<T>) -> Seq<T> {
    let u = mgs_reduce_spec(a_col, prev);
    div_all_spec(u, norm_spec(u))
}

/// The first `i` columns of the Q factor of the modified procedure.
pub open spec fn mgs_q_cols<T: Scalar>(a_cols: Seq<Seq<T>>, i: int) -> Seq<Seq<T>>
    decreases i,
{
    if i <= 0 {
        Seq::empty()
    } else {
        let prev = mgs_q_cols(a_cols, i - 1);
        prev.push(mgs_col_spec(prev, a_cols[i - 1]))
    }
}

/// Entry (i, j) of the R factor of the modified procedure: above the
/// diagonal the coefficient removed along direction i while column j was
/// reduced, on the diagonal the norm of the fully reduced column, below it
/// the untouched zero.
pub open spec fn mgs_r_entry_spec<T: Scalar>(a_cols: Seq<Seq<T>>, i: int, j: int) -> T {
    let prev = mgs_q_cols(a_cols, j);
    if i < j {
        mgs_coeff_spec(a_cols[j], prev, i)
    } else if i == j {
        norm_spec(mgs_reduce_spec(a_cols[j], prev))
    } else {
        T::zero_spec()
    }
}

/// The modified Q factor for `i` columns has `i` columns.
pub proof fn lemma_mgs_q_cols_len<T: Scalar>(a_cols: Seq<Seq<T>>, i: int)
    requires
        0 <= i,
    ensures
        mgs_q_cols(a_cols, i).len() == i,
    decreases i,
{
    if i > 0 {
        lemma_mgs_q_cols_len(a_cols, i - 1);
    }
}

/// Idempotence under recomputation: the modified procedure's factors are a function
/// of the input columns alone. Two computations over the same columns,
/// writing equally shaped and equally laid out buffers, leave bitwise
/// identical Q buffers and bitwise identical R buffers.
pub proof fn lemma_mgs_recompute_same<T: Scalar>(
    a_cols: Seq<Seq<T>>,
    n: int,
    q1: Matrix<T>,
    r1: Matrix<T>,
    q2: Matrix<T>,
    r2: Matrix<T>,
)
    requires
        q1.dense(),
        q2.dense(),
        q1.rows == q2.rows,
        q1.cols == q2.cols,
        q1.row_stride == q2.row_stride,
        q1.col_stride == q2.col_stride,
        q1.cols == n,
        q1.col_seq() == mgs_q_cols(a_cols, n),
        q2.col_seq() == mgs_q_cols(a_cols, n),
        r1.dense(),
        r2.dense(),
        r1.rows == n,
        r1.cols == n,
        r2.rows == n,
        r2.cols == n,
        r1.row_stride == r2.row_stride,
        r1.col_stride == r2.col_stride,
        forall|i: int, j: int|
            0 <= i < n && 0 <= j < n ==> #[trigger] r1.entry(i, j) == mgs_r_entry_spec(a_cols, i, j),
        forall|i: int, j: int|
            0 <= i < n && 0 <= j < n ==> #[trigger] r2.entry(i, j) == mgs_r_entry_spec(a_cols, i, j),
    ensures
        q1.data@ == q2.data@,
        r1.data@ == r2.data@,
{
    assert forall|i: int, j: int|
        0 <= i < q1.rows && 0 <= j < q1.cols implies #[trigger] q1.entry(i, j) == q2.entry(i, j) by {
        assert(q1.col_seq()[j][i] == q1.entry(i, j));
        assert(q2.col_seq()[j][i] == q2.entry(i, j));
    }
    lemma_dense_entries_determine_data(q1, q2);
    assert forall|i: int, j: int|
        0 <= i < r1.rows && 0 <= j < r1.cols implies #[trigger] r1.entry(i, j) == r2.entry(i, j) by {}
    lemma_dense_entries_determine_data(r1, r2);
}

/// A modified Gram-Schmidt factorization engine. It owns the Q and R
/// factors, allocated once for a fixed shape and memory layout and
/// overwritten in place by every [`Modified::compute`] call.
pub struct Modified<T> {
    q: Matrix<T>,
    r: Matrix<T>,
    layout: Layout,
}

impl<T: Scalar> GramSchmidt<T> for Modified<T> {
    /// The modified procedure's Q factor for the given input columns.
    open spec fn factor_q_cols(a_cols: Seq<Seq<T>>, i: int) -> Seq<Seq<T>> {
        mgs_q_cols(a_cols, i)
    }

    /// The modified procedure's R entries for the given input columns.
    open spec fn factor_r_entry(a_cols: Seq<Seq<T>>, i: int, j: int) -> T {
        mgs_r_entry_spec(a_cols, i, j)
    }

    /// The engine's Q factor, for specifications.
    closed spec fn q_view(self) -> Matrix<T> {
        self.q
    }

    /// The engine's R factor, for specifications.
    closed spec fn r_view(self) -> Matrix<T> {
        self.r
    }

    /// The memory layout the engine is bound to, for specifications.
    closed spec fn layout_view(self) -> Layout {
        self.layout
    }

    /// The engine's internal invariant: Q is dense in the bound layout with
    /// no fewer rows than columns, R is square over the column count in the
    /// matching layout, and R holds exact zeros strictly below its diagonal.
    open spec fn wf(self) -> bool {
        &&& self.q_view().dense()
        &&& self.q_view().layout_spec() == Some(self.layout_view())
        &&& self.q_view().cols <= self.q_view().rows
        &&& self.r_view().dense()
        &&& self.r_view().layout_spec() == Some(
            resolve_shape_layout(
                self.r_view().rows as int,
                self.r_view().cols as int,
                self.layout_view(),
            ),
        )
        &&& self.r_view().rows == self.q_view().cols
        &&& self.r_view().cols == self.q_view().cols
        &&& lower_triangle_zero(self.r_view())
    }

    proof fn wf_facts(self) {
    }

    /// Reserve a factorization for matrices of the given shape and memory
    /// layout. Q and R are allocated zero-filled; the engine is bound to
    /// the layout the resolver assigns to that allocation.
    fn from_shape(rows: usize, cols: usize, layout: Layout) -> (res: Result<Self, Error>)
    {
        proof {
            vstd::arithmetic::mul::lemma_mul_inequality(cols as int, rows as int, cols as int);
        }
        let q = Matrix::<T>::zeros(rows, cols, layout);
        let resolved = match q.contiguous_layout() {
            Some(l) => l,
            None => {
                proof {
                    assert(false);
                }
                layout
            },
        };
        let r = Matrix::<T>::zeros(cols, cols, resolved);
        Ok(Modified { q, r, layout: resolved })
    }

    /// Compute the factorization of `a` in place by the modified procedure.
    ///
    /// `a` must have exactly the configured shape; a mismatched shape is a
    /// caller error, excluded by precondition. A non-contiguous `a` is
    /// rejected with [`Error::NonContiguous`], a contiguous one in the other
    /// memory layout with [`Error::IncompatibleLayouts`]; on an error the
    /// engine is left exactly as it was. Otherwise every column of Q and
    /// every entry of R is pinned to the modified recurrence over the
    /// scalar backend's operations.
    fn compute(&mut self, a: &Matrix<T>) -> (res: Result<(), Error>)
    {
        match a.contiguous_layout() {
            None => {
                return Err(Error::NonContiguous);
            },
            Some(l) => {
                if l != self.layout {
                    return Err(Error::IncompatibleLayouts);
                }
            },
        }

        let ghost a_cols = a.col_seq();
        let ghost q0 = old(self).q;
        let ghost r0 = old(self).r;
        let ghost l0 = old(self).layout;
        let m = self.q.rows;
        let n = self.q.cols;

        let mut i: usize = 0;
        while i < n
            invariant
                a.wf(),
                a.rows == m,
                a.cols == n,
                a_cols == a.col_seq(),
                self.layout == l0,
                self.q.dense(),
                self.q.same_frame(q0),
                self.q.rows == m,
                self.q.cols == n,
                n <= m,
                self.r.dense(),
                self.r.same_frame(r0),
                self.r.rows == n,
                self.r.cols == n,
                i <= n,
                self.q.col_seq().take(i as int) == mgs_q_cols(a_cols, i as int),
                forall|ri: int, ci: int|
                    0 <= ri < n && 0 <= ci < i
                        ==> #[trigger] self.r.entry(ri, ci) == mgs_r_entry_spec(a_cols, ri, ci),
                forall|ri: int, ci: int|
                    i <= ci < n && ci < ri < n ==> #[trigger] self.r.entry(ri, ci) == T::zero_spec(),
            decreases n - i,
        {
            let ghost prev = mgs_q_cols(a_cols, i as int);
            proof {
                lemma_mgs_q_cols_len(a_cols, i as int);
            }

            let mut v = a.read_col(i);
            let cs = mgs_reduce(&mut v, &self.q, i);
            let ghost reduced = v@;

            proof {
                assert(reduced == mgs_reduce_spec(a_cols[i as int], prev));
                assert forall|j: int| 0 <= j < i
                    implies cs@[j] == mgs_coeff_spec(a_cols[i as int], prev, j) by {
                    assert(self.q.col_seq()[j] == prev[j]);
                    assert(self.q.col_seq().take(j) =~= prev.take(j));
                }
            }

            let ghost r_in = self.r;
            let ghost q_in = self.q;
            let mut j: usize = 0;
            while j < i
                invariant
                    self.q == q_in,
                    self.layout == l0,
                    i < n,
                    j <= i,
                    cs@.len() == i,
                    self.r.dense(),
                    self.r.same_frame(r_in),
                    self.r.rows == n,
                    self.r.cols == n,
                    forall|ri: int, ci: int|
                        0 <= ri < n && 0 <= ci < n && ci != i
                            ==> #[trigger] self.r.entry(ri, ci) == r_in.entry(ri, ci),
                    forall|ri: int| 0 <= ri < j ==> #[trigger] self.r.entry(ri, i as int) == cs@[ri],
                    forall|ri: int|
                        j <= ri < n ==> #[trigger] self.r.entry(ri, i as int) == r_in.entry(ri, i as int),
                decreases i - j,
            {
                let c = cs[j];
                self.r.put(j, i, c);
                j = j + 1;
            }

            let nrm = norm(&v);
            self.r.put(i, i, nrm);
            div_all(&mut v, nrm);
            self.q.write_col(i, &v);

            proof {
                assert(v@ == mgs_col_spec(prev, a_cols[i as int]));
                assert(self.q.col_seq().take(i + 1) =~= mgs_q_cols(a_cols, i + 1)) by {
                    assert(mgs_q_cols(a_cols, i + 1) == prev.push(mgs_col_spec(prev, a_cols[i as int])));
                    assert forall|k: int| 0 <= k < i implies self.q.col_seq().take(i + 1)[k] == prev[k] by {
                        assert(self.q.col(k) == mgs_q_cols(a_cols, i as int)[k]);
                    }
                    assert(self.q.col_seq().take(i + 1)[i as int] == v@);
                }
                assert forall|ri: int, ci: int|
                    0 <= ri < n && 0 <= ci < i + 1
                        implies #[trigger] self.r.entry(ri, ci) == mgs_r_entry_spec(a_cols, ri, ci) by {
                    if ci == i {
                        if ri < i {
                            assert(self.r.entry(ri, ci) == cs@[ri]);
                        } else if ri == i {
                            assert(self.r.entry(ri, ci) == norm_spec(reduced));
                        } else {
                            assert(self.r.entry(ri, ci) == T::zero_spec());
                        }
                    }
                }
            }

            i = i + 1;
        }

        proof {
            assert(self.q.col_seq().take(n as int) =~= self.q.col_seq());
        }
        Ok(())
    }

    /// A read-only view of the Q factor of the last computation.
    fn q(&self) -> (m: &Matrix<T>)
    {
        &self.q
    }

    /// A read-only view of the R factor of the last computation.
    fn r(&self) -> (m: &Matrix<T>)
    {
        &self.r
    }
}

} // verus!
