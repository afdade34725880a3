//! The classical Gram-Schmidt engine: one-pass batched orthogonalization.
//!
//! For each column, every projection coefficient is computed in one batched
//! pass against the original column of A, and only then removed. This is
//! the cheapest of the procedures, and also the least stable: the
//! coefficients never see the partially corrected vector, which is the
//! defining weakness the modified and reorthogonalized variants address.

use vstd::prelude::*;
use crate::{Error, GramSchmidt};
use crate::kernel::{
    div_all,
    div_all_spec,
    dot,
    dot_spec,
    lower_triangle_zero,
    norm,
    norm_spec,
    proj_coeffs,
    proj_coeffs_spec,
    sub_projections,
    sub_projections_spec,
};
use crate::matrix::{Layout, Matrix, lemma_dense_entries_determine_data, resolve_shape_layout};
use crate::scalar::Scalar;

verus! {

/// The column the classical procedure produces from `a_col`, given the
/// already finalized columns `prev`: the batch-corrected vector, normalized.
pub open spec fn cgs_col_spec<T: Scalar>(prev: Seq<Seq<T>>, a_col: Seq<T>) -> Seq<T> {
    let cs = proj_coeffs_spec(prev, a_col);
    let u = sub_projections_spec(a_col, prev, cs);
    div_all_spec(u, norm_spec(u))
}

/// The first `i` columns of the Q factor of the classical procedure.
pub open spec fn cgs_q_cols<T: Scalar>(a_cols: Seq<Seq<T>>, i: int) -> Seq<Seq<T>>
    decreases i,
{
    if i <= 0 {
        Seq::empty()
    } else {
        let prev = cgs_q_cols(a_cols, i - 1);
        prev.push(cgs_col_spec(prev, a_cols[i - 1]))
    }
}

/// Entry (i, j) of the R factor of the classical procedure: above the
/// diagonal the batched coefficient of A's column j against finalized
/// column i, on the diagonal the dot product of A's column with the
/// *normalized* column it produced (recomputed, not reused from the
/// correction pass), below it the untouched zero.
pub open spec fn cgs_r_entry_spec<T: Scalar>(a_cols: Seq<Seq<T>>, i: int, j: int) -> T {
    let prev = cgs_q_cols(a_cols, j);
    if i < j {
        dot_spec(prev[i], a_cols[j])
    } else if i == j {
        dot_spec(a_cols[j], cgs_col_spec(prev, a_cols[j]))
    } else {
        T::zero_spec()
    }
}

/// The classical Q factor for `i` columns has `i` columns.
pub proof fn lemma_cgs_q_cols_len<T: Scalar>(a_cols: Seq<Seq<T>>, i: int)
    requires
        0 <= i,
    ensures
        cgs_q_cols(a_cols, i).len() == i,
    decreases i,
{
    if i > 0 {
        lemma_cgs_q_cols_len(a_cols, i - 1);
    }
}

/// Idempotence under recomputation: the classical procedure's factors are a function
/// of the input columns alone. Two computations over the same columns,
/// writing equally shaped and equally laid out buffers, leave bitwise
/// identical Q buffers and bitwise identical R buffers.
pub proof fn lemma_cgs_recompute_same<T: Scalar>(
    a_cols: Seq<Seq<T>>,
    n: int,
    q1: Matrix<T>,
    r1: Matrix<T>,
    q2: Matrix<T>,
    r2: Matrix<T>,
)
    requires
        q1.dense(),
        q2.dense(),
        q1.rows == q2.rows,
        q1.cols == q2.cols,
        q1.row_stride == q2.row_stride,
        q1.col_stride == q2.col_stride,
        q1.cols == n,
        q1.col_seq() == cgs_q_cols(a_cols, n),
        q2.col_seq() == cgs_q_cols(a_cols, n),
        r1.dense(),
        r2.dense(),
        r1.rows == n,
        r1.cols == n,
        r2.rows == n,
        r2.cols == n,
        r1.row_stride == r2.row_stride,
        r1.col_stride == r2.col_stride,
        forall|i: int, j: int|
            0 <= i < n && 0 <= j < n ==> #[trigger] r1.entry(i, j) == cgs_r_entry_spec(a_cols, i, j),
        forall|i: int, j: int|
            0 <= i < n && 0 <= j < n ==> #[trigger] r2.entry(i, j) == cgs_r_entry_spec(a_cols, i, j),
    ensures
        q1.data@ == q2.data@,
        r1.data@ == r2.data@,
{
    assert forall|i: int, j: int|
        0 <= i < q1.rows && 0 <= j < q1.cols implies #[trigger] q1.entry(i, j) == q2.entry(i, j) by {
        assert(q1.col_seq()[j][i] == q1.entry(i, j));
        assert(q2.col_seq()[j][i] == q2.entry(i, j));
    }
    lemma_dense_entries_determine_data(q1, q2);
    assert forall|i: int, j: int|
        0 <= i < r1.rows && 0 <= j < r1.cols implies #[trigger] r1.entry(i, j) == r2.entry(i, j) by {}
    lemma_dense_entries_determine_data(r1, r2);
}

/// A classical Gram-Schmidt factorization engine. It owns the Q and R
/// factors, allocated once for a fixed shape and memory layout and
/// overwritten in place by every [`Classical::compute`] call.
pub struct Classical<T> {
    q: Matrix<T>,
    r: Matrix<T>,
    layout: Layout,
}

impl<T: Scalar> GramSchmidt<T> for Classical<T> {
    /// The classical procedure's Q factor for the given input columns.
    open spec fn factor_q_cols(a_cols: Seq<Seq<T>>, i: int) -> Seq<Seq<T>> {
        cgs_q_cols(a_cols, i)
    }

    /// The classical procedure's R entries for the given input columns.
    open spec fn factor_r_entry(a_cols: Seq<Seq<T>>, i: int, j: int) -> T {
        cgs_r_entry_spec(a_cols, i, j)
    }

    /// The engine's Q factor, for specifications.
    closed spec fn q_view(self) -> Matrix<T> {
        self.q
    }

    /// The engine's R factor, for specifications.
    closed spec fn r_view(self) -> Matrix<T> {
        self.r
    }

    /// The memory layout the engine is bound to, for specifications.
    closed spec fn layout_view(self) -> Layout {
        self.layout
    }

    /// The engine's internal invariant: Q is dense in the bound layout with
    /// no fewer rows than columns, R is square over the column count in the
    /// matching layout, and R holds exact zeros strictly below its diagonal.
    open spec fn wf(self) -> bool {
        &&& self.q_view().dense()
        &&& self.q_view().layout_spec() == Some(self.layout_view())
        &&& self.q_view().cols <= self.q_view().rows
        &&& self.r_view().dense()
        &&& self.r_view().layout_spec() == Some(
            resolve_shape_layout(
                self.r_view().rows as int,
                self.r_view().cols as int,
                self.layout_view(),
            ),
        )
        &&& self.r_view().rows == self.q_view().cols
        &&& self.r_view().cols == self.q_view().cols
        &&& lower_triangle_zero(self.r_view())
    }

    proof fn wf_facts(self) {
    }

    /// Reserve a factorization for matrices of the given shape and memory
    /// layout. Q and R are allocated zero-filled; the engine is bound to
    /// the layout the resolver assigns to that allocation.
    fn from_shape(rows: usize, cols: usize, layout: Layout) -> (res: Result<Self, Error>)
    {
        proof {
            vstd::arithmetic::mul::lemma_mul_inequality(cols as int, rows as int, cols as int);
        }
        let q = Matrix::<T>::zeros(rows, cols, layout);
        let resolved = match q.contiguous_layout() {
            Some(l) => l,
            None => {
                proof {
                    assert(false);
                }
                layout
            },
        };
        let r = Matrix::<T>::zeros(cols, cols, resolved);
        Ok(Classical { q, r, layout: resolved })
    }

    /// Compute the factorization of `a` in place by the classical
    /// procedure.
    ///
    /// `a` must have exactly the configured shape; a mismatched shape is a
    /// caller error, excluded by precondition. A non-contiguous `a` is
    /// rejected with [`Error::NonContiguous`], a contiguous one in the other
    /// memory layout with [`Error::IncompatibleLayouts`]; on an error the
    /// engine is left exactly as it was. Otherwise every column of Q and
    /// every entry of R is pinned to the classical recurrence over the
    /// scalar backend's operations.
    fn compute(&mut self, a: &Matrix<T>) -> (res: Result<(), Error>)
    {
        match a.contiguous_layout() {
            None => {
                return Err(Error::NonContiguous);
            },
            Some(l) => {
                if l != self.layout {
                    return Err(Error::IncompatibleLayouts);
                }
            },
        }

        let ghost a_cols = a.col_seq();
        let ghost q0 = old(self).q;
        let ghost r0 = old(self).r;
        let ghost l0 = old(self).layout;
        let m = self.q.rows;
        let n = self.q.cols;

        let mut i: usize = 0;
        while i < n
            invariant
                a.wf(),
                a.rows == m,
                a.cols == n,
                a_cols == a.col_seq(),
                self.layout == l0,
                self.q.dense(),
                self.q.same_frame(q0),
                self.q.rows == m,
                self.q.cols == n,
                n <= m,
                self.r.dense(),
                self.r.same_frame(r0),
                self.r.rows == n,
                self.r.cols == n,
                i <= n,
                self.q.col_seq().take(i as int) == cgs_q_cols(a_cols, i as int),
                forall|ri: int, ci: int|
                    0 <= ri < n && 0 <= ci < i
                        ==> #[trigger] self.r.entry(ri, ci) == cgs_r_entry_spec(a_cols, ri, ci),
                forall|ri: int, ci: int|
                    i <= ci < n && ci < ri < n ==> #[trigger] self.r.entry(ri, ci) == T::zero_spec(),
            decreases n - i,
        {
            let ghost prev = cgs_q_cols(a_cols, i as int);
            proof {
                lemma_cgs_q_cols_len(a_cols, i as int);
            }

            let a_col = a.read_col(i);
            let mut v = a.read_col(i);
            let cs = proj_coeffs(&self.q, i, &a_col);
            proof {
                assert(cs@ == proj_coeffs_spec(prev, a_cols[i as int]));
            }
            sub_projections(&mut v, &self.q, i, &cs);
            let ghost corrected = v@;
            proof {
                assert(corrected == sub_projections_spec(a_cols[i as int], prev, cs@));
            }

            let ghost r_in = self.r;
            let ghost q_in = self.q;
            let mut j: usize = 0;
            while j < i
                invariant
                    self.q == q_in,
                    self.layout == l0,
                    i < n,
                    j <= i,
                    cs@.len() == i,
                    self.r.dense(),
                    self.r.same_frame(r_in),
                    self.r.rows == n,
                    self.r.cols == n,
                    forall|ri: int, ci: int|
                        0 <= ri < n && 0 <= ci < n && ci != i
                            ==> #[trigger] self.r.entry(ri, ci) == r_in.entry(ri, ci),
                    forall|ri: int| 0 <= ri < j ==> #[trigger] self.r.entry(ri, i as int) == cs@[ri],
                    forall|ri: int|
                        j <= ri < n ==> #[trigger] self.r.entry(ri, i as int) == r_in.entry(ri, i as int),
                decreases i - j,
            {
                let c = cs[j];
                self.r.put(j, i, c);
                j = j + 1;
            }

            let nrm = norm(&v);
            div_all(&mut v, nrm);
            self.q.write_col(i, &v);
            let d = dot(&a_col, &v);
            self.r.put(i, i, d);

            proof {
                assert(v@ == cgs_col_spec(prev, a_cols[i as int]));
                assert(self.q.col_seq().take(i + 1) =~= cgs_q_cols(a_cols, i + 1)) by {
                    assert(cgs_q_cols(a_cols, i + 1) == prev.push(cgs_col_spec(prev, a_cols[i as int])));
                    assert forall|k: int| 0 <= k < i implies self.q.col_seq().take(i + 1)[k] == prev[k] by {
                        assert(self.q.col(k) == cgs_q_cols(a_cols, i as int)[k]);
                    }
                    assert(self.q.col_seq().take(i + 1)[i as int] == v@);
                }
                assert forall|ri: int, ci: int|
                    0 <= ri < n && 0 <= ci < i + 1
                        implies #[trigger] self.r.entry(ri, ci) == cgs_r_entry_spec(a_cols, ri, ci) by {
                    if ci == i {
                        if ri < i {
                            assert(self.r.entry(ri, ci) == cs@[ri]);
                            assert(cs@[ri] == dot_spec(prev[ri], a_cols[i as int]));
                        } else if ri == i {
                            assert(self.r.entry(ri, ci) == dot_spec(a_cols[i as int], v@));
                        } else {
                            assert(self.r.entry(ri, ci) == T::zero_spec());
                        }
                    }
                }
            }

            i = i + 1;
        }

        proof {
            assert(self.q.col_seq().take(n as int) =~= self.q.col_seq());
        }
        Ok(())
    }

    /// A read-only view of the Q factor of the last computation.
    fn q(&self) -> (m: &Matrix<T>)
    {
        &self.q
    }

    /// A read-only view of the R factor of the last computation.
    fn r(&self) -> (m: &Matrix<T>)
    {
        &self.r
    }
}

} // verus!
